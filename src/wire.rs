//! The text format in which a compiled page hands back its cookies and
//! headers: one record per line, cookies as `name\tvalue\tmax_age`, headers
//! as `name:value`.

use vstd::prelude::*;
use crate::parser::strings_view;
use crate::text::{
    chars_of, decimal_i64, decimal_of, is_digit, lemma_decimal_chars, lemma_decimal_round_trip,
    lemma_split_join, lemma_split_none, parse_i64, push_char, split_on,
};

verus! {

pub open spec fn cookies_view(v: Seq<(String, String, i64)>) -> Seq<(Seq<char>, Seq<char>, i64)> {
    v.map_values(|c: (String, String, i64)| (c.0@, c.1@, c.2))
}

pub open spec fn headers_view(v: Seq<(String, String)>) -> Seq<(Seq<char>, Seq<char>)> {
    v.map_values(|h: (String, String)| (h.0@, h.1@))
}

/// The cookie a line describes: its first two tab-separated fields and the
/// third read as a number (0 when it is not one); none with fewer than three
/// fields.
pub open spec fn cookie_record(line: Seq<char>) -> Option<(Seq<char>, Seq<char>, i64)> {
    let parts = split_on(line, '\t');
    if parts.len() >= 3 {
        Some(
            (
                parts[0],
                parts[1],
                match decimal_i64(parts[2]) {
                    Some(v) => v,
                    None => 0,
                },
            ),
        )
    } else {
        None
    }
}

pub open spec fn cookie_records(lines: Seq<Seq<char>>) -> Seq<(Seq<char>, Seq<char>, i64)>
    decreases lines.len(),
{
    if lines.len() == 0 {
        Seq::empty()
    } else {
        let rest = cookie_records(lines.drop_last());
        match cookie_record(lines.last()) {
            Some(c) => rest.push(c),
            None => rest,
        }
    }
}

/// The cookies in a cookie payload.
pub open spec fn cookies_of(s: Seq<char>) -> Seq<(Seq<char>, Seq<char>, i64)> {
    if s.len() == 0 {
        Seq::empty()
    } else {
        cookie_records(split_on(s, '\n'))
    }
}

/// The position of the first `c` in `s`.
pub open spec fn first_index(s: Seq<char>, c: char) -> Option<int>
    decreases s.len(),
{
    if s.len() == 0 {
        None
    } else if s[0] == c {
        Some(0)
    } else {
        match first_index(s.drop_first(), c) {
            Some(i) => Some(i + 1),
            None => None,
        }
    }
}

/// The header a line describes: the parts before and after its first `:`.
pub open spec fn header_record(line: Seq<char>) -> Option<(Seq<char>, Seq<char>)> {
    match first_index(line, ':') {
        Some(i) => Some((line.subrange(0, i), line.subrange(i + 1, line.len() as int))),
        None => None,
    }
}

pub open spec fn header_records(lines: Seq<Seq<char>>) -> Seq<(Seq<char>, Seq<char>)>
    decreases lines.len(),
{
    if lines.len() == 0 {
        Seq::empty()
    } else {
        let rest = header_records(lines.drop_last());
        match header_record(lines.last()) {
            Some(h) => rest.push(h),
            None => rest,
        }
    }
}

/// The headers in a header payload.
pub open spec fn headers_of(s: Seq<char>) -> Seq<(Seq<char>, Seq<char>)> {
    if s.len() == 0 {
        Seq::empty()
    } else {
        header_records(split_on(s, '\n'))
    }
}

/// `s` cut at every `sep`.
pub fn split_chars(s: &str, sep: char) -> (r: Vec<String>)
    ensures
        strings_view(r@) == split_on(s@, sep),
{
    let cs = chars_of(s);
    let mut pieces: Vec<String> = Vec::new();
    let mut cur = String::new();
    let mut i: usize = 0;
    assert(s@.take(0) =~= Seq::<char>::empty());
    assert(strings_view(pieces@).push(cur@) =~= split_on(Seq::<char>::empty(), sep));
    while i < cs.len()
        invariant
            cs@ == s@,
            i <= cs.len(),
            strings_view(pieces@).push(cur@) == split_on(s@.take(i as int), sep),
        decreases cs.len() - i,
    {
        let ghost before = strings_view(pieces@).push(cur@);
        let c = cs[i];
        assert(s@.take(i + 1).drop_last() =~= s@.take(i as int));
        assert(s@.take(i + 1).last() == c);
        if c == sep {
            pieces.push(cur);
            cur = String::new();
            assert(strings_view(pieces@).push(cur@) =~= before.push(Seq::empty()));
        } else {
            push_char(&mut cur, c);
            assert(strings_view(pieces@).push(cur@) =~= before.update(
                before.len() - 1,
                before.last().push(c),
            ));
        }
        i = i + 1;
    }
    assert(s@.take(i as int) =~= s@);
    pieces.push(cur);
    assert(strings_view(pieces@) =~= split_on(s@, sep));
    pieces
}

/// The cookie records of a payload, in order.
pub fn parse_cookies(s: &str) -> (r: Vec<(String, String, i64)>)
    ensures
        cookies_view(r@) == cookies_of(s@),
{
    let mut r: Vec<(String, String, i64)> = Vec::new();
    if s.is_empty() {
        assert(cookies_view(r@) =~= Seq::<(Seq<char>, Seq<char>, i64)>::empty());
        return r;
    }
    let lines = split_chars(s, '\n');
    let ghost ls = strings_view(lines@);
    let mut i: usize = 0;
    assert(ls.take(0) =~= Seq::<Seq<char>>::empty());
    assert(cookies_view(r@) =~= Seq::<(Seq<char>, Seq<char>, i64)>::empty());
    while i < lines.len()
        invariant
            ls == strings_view(lines@),
            ls == split_on(s@, '\n'),
            i <= lines.len(),
            cookies_view(r@) == cookie_records(ls.take(i as int)),
        decreases lines.len() - i,
    {
        let ghost before = cookies_view(r@);
        let line = lines[i].as_str();
        assert(line@ == ls[i as int]);
        assert(ls.take(i + 1).drop_last() =~= ls.take(i as int));
        assert(ls.take(i + 1).last() == line@);
        let mut parts = split_chars(line, '\t');
        if parts.len() >= 3 {
            let age = match parse_i64(parts[2].as_str()) {
                Some(v) => v,
                None => 0,
            };
            let value = parts.remove(1);
            let name = parts.remove(0);
            r.push((name, value, age));
            assert(cookies_view(r@) =~= before.push(cookie_record(line@)->0));
        }
        i = i + 1;
    }
    assert(ls.take(i as int) =~= ls);
    r
}

/// The first position of `c` in `s`, if any.
pub fn find_char(s: &str, c: char) -> (r: Option<usize>)
    ensures
        r matches Some(i) ==> first_index(s@, c) == Some(i as int),
        r is None ==> first_index(s@, c) is None,
{
    let cs = chars_of(s);
    let mut i: usize = 0;
    assert(s@.subrange(0, s@.len() as int) =~= s@);
    while i < cs.len()
        invariant
            cs@ == s@,
            i <= cs.len(),
            first_index(s@, c) == match first_index(s@.subrange(i as int, s@.len() as int), c) {
                Some(j) => Some(j + i),
                None => None,
            },
        decreases cs.len() - i,
    {
        let ghost rest = s@.subrange(i as int, s@.len() as int);
        if cs[i] == c {
            assert(rest[0] == c);
            return Some(i);
        }
        assert(rest.drop_first() =~= s@.subrange(i + 1, s@.len() as int));
        i = i + 1;
    }
    assert(s@.subrange(i as int, s@.len() as int) =~= Seq::<char>::empty());
    None
}

/// The header records of a payload, in order.
pub fn parse_headers(s: &str) -> (r: Vec<(String, String)>)
    ensures
        headers_view(r@) == headers_of(s@),
{
    let mut r: Vec<(String, String)> = Vec::new();
    if s.is_empty() {
        assert(headers_view(r@) =~= Seq::<(Seq<char>, Seq<char>)>::empty());
        return r;
    }
    let lines = split_chars(s, '\n');
    let ghost ls = strings_view(lines@);
    let mut i: usize = 0;
    assert(ls.take(0) =~= Seq::<Seq<char>>::empty());
    assert(headers_view(r@) =~= Seq::<(Seq<char>, Seq<char>)>::empty());
    while i < lines.len()
        invariant
            ls == strings_view(lines@),
            ls == split_on(s@, '\n'),
            i <= lines.len(),
            headers_view(r@) == header_records(ls.take(i as int)),
        decreases lines.len() - i,
    {
        let ghost before = headers_view(r@);
        let line = lines[i].as_str();
        assert(line@ == ls[i as int]);
        assert(ls.take(i + 1).drop_last() =~= ls.take(i as int));
        assert(ls.take(i + 1).last() == line@);
        match find_char(line, ':') {
            Some(k) => {
                let n = line.unicode_len();
                proof {
                    lemma_first_index_bound(line@, ':');
                }
                let name = String::from_str(line.substring_char(0, k));
                let value = String::from_str(line.substring_char(k + 1, n));
                r.push((name, value));
                assert(headers_view(r@) =~= before.push(header_record(line@)->0));
            },
            None => {},
        }
        i = i + 1;
    }
    assert(ls.take(i as int) =~= ls);
    r
}

proof fn lemma_first_index_bound(s: Seq<char>, c: char)
    ensures
        first_index(s, c) matches Some(i) ==> 0 <= i < s.len() && s[i] == c,
    decreases s.len(),
{
    if s.len() > 0 && s[0] != c {
        lemma_first_index_bound(s.drop_first(), c);
    }
}

/// Lines joined with `\n` between them.
pub open spec fn join_lines(ls: Seq<Seq<char>>) -> Seq<char>
    decreases ls.len(),
{
    if ls.len() == 0 {
        Seq::empty()
    } else if ls.len() == 1 {
        ls[0]
    } else {
        join_lines(ls.drop_last()) + seq!['\n'] + ls.last()
    }
}

/// One cookie as a compiled page writes it: `name\tvalue\tmax_age`.
pub open spec fn cookie_line(c: (Seq<char>, Seq<char>, i64)) -> Seq<char> {
    c.0 + seq!['\t'] + c.1 + seq!['\t'] + decimal_of(c.2 as int)
}

/// One header as a compiled page writes it: `name:value`.
pub open spec fn header_line(h: (Seq<char>, Seq<char>)) -> Seq<char> {
    h.0 + seq![':'] + h.1
}

/// The cookie payload of a compiled page.
pub open spec fn encode_cookies(cs: Seq<(Seq<char>, Seq<char>, i64)>) -> Seq<char> {
    join_lines(cs.map_values(|c: (Seq<char>, Seq<char>, i64)| cookie_line(c)))
}

/// The header payload of a compiled page.
pub open spec fn encode_headers(hs: Seq<(Seq<char>, Seq<char>)>) -> Seq<char> {
    join_lines(hs.map_values(|h: (Seq<char>, Seq<char>)| header_line(h)))
}

/// A cookie whose name and value hold no tab and no line break.
pub open spec fn cookie_fits(c: (Seq<char>, Seq<char>, i64)) -> bool {
    !c.0.contains('\t') && !c.0.contains('\n') && !c.1.contains('\t') && !c.1.contains('\n')
}

/// A header whose name holds no colon and no line break, and whose value
/// holds no line break.
pub open spec fn header_fits(h: (Seq<char>, Seq<char>)) -> bool {
    !h.0.contains(':') && !h.0.contains('\n') && !h.1.contains('\n')
}

proof fn lemma_no_char_concat(a: Seq<char>, b: Seq<char>, c: char)
    requires
        !a.contains(c),
        !b.contains(c),
    ensures
        !(a + b).contains(c),
{
    if (a + b).contains(c) {
        let i = choose|i: int| 0 <= i < (a + b).len() && (a + b)[i] == c;
        if i < a.len() {
            assert(a[i] == c);
        } else {
            assert(b[i - a.len()] == c);
        }
    }
}

proof fn lemma_split_join_lines(ls: Seq<Seq<char>>)
    requires
        ls.len() >= 1,
        forall|i: int| 0 <= i < ls.len() ==> !(#[trigger] ls[i]).contains('\n'),
    ensures
        split_on(join_lines(ls), '\n') == ls,
        join_lines(ls).len() >= ls.last().len(),
    decreases ls.len(),
{
    if ls.len() == 1 {
        lemma_split_none(ls[0], '\n');
        assert(seq![ls[0]] =~= ls);
    } else {
        let d = ls.drop_last();
        assert forall|i: int| 0 <= i < d.len() implies !(#[trigger] d[i]).contains('\n') by {
            assert(d[i] == ls[i]);
        }
        lemma_split_join_lines(d);
        lemma_split_join(join_lines(d), ls.last(), '\n');
        assert(!ls[ls.len() - 1].contains('\n'));
        lemma_split_none(ls.last(), '\n');
        assert(d + seq![ls.last()] =~= ls);
    }
}

proof fn lemma_decimal_no_sep(n: int, c: char)
    requires
        c == '\t' || c == '\n' || c == ':',
    ensures
        !decimal_of(n).contains(c),
{
    lemma_decimal_chars(n);
    if decimal_of(n).contains(c) {
        let i = choose|i: int| 0 <= i < decimal_of(n).len() && decimal_of(n)[i] == c;
        assert(decimal_of(n)[i] == '-' || is_digit(decimal_of(n)[i]));
    }
}

proof fn lemma_cookie_line(c: (Seq<char>, Seq<char>, i64))
    requires
        cookie_fits(c),
    ensures
        cookie_record(cookie_line(c)) == Some(c),
        !cookie_line(c).contains('\n'),
        cookie_line(c).len() > 0,
{
    let dec = decimal_of(c.2 as int);
    lemma_decimal_no_sep(c.2 as int, '\t');
    lemma_decimal_no_sep(c.2 as int, '\n');
    lemma_split_join(c.0, c.1, '\t');
    lemma_split_join(c.0 + seq!['\t'] + c.1, dec, '\t');
    lemma_split_none(c.0, '\t');
    lemma_split_none(c.1, '\t');
    lemma_split_none(dec, '\t');
    let parts = split_on(cookie_line(c), '\t');
    assert(parts =~= seq![c.0, c.1, dec]);
    lemma_decimal_round_trip(c.2);
    assert(!seq!['\t'].contains('\n'));
    lemma_no_char_concat(c.0, seq!['\t'], '\n');
    lemma_no_char_concat(c.0 + seq!['\t'], c.1, '\n');
    lemma_no_char_concat(c.0 + seq!['\t'] + c.1, seq!['\t'], '\n');
    lemma_no_char_concat(c.0 + seq!['\t'] + c.1 + seq!['\t'], dec, '\n');
}

proof fn lemma_first_index_after(a: Seq<char>, rest: Seq<char>, c: char)
    requires
        !a.contains(c),
    ensures
        first_index(a + rest, c) == match first_index(rest, c) {
            Some(i) => Some(i + a.len()),
            None => None,
        },
    decreases a.len(),
{
    if a.len() > 0 {
        assert(a[0] != c);
        assert(!a.drop_first().contains(c)) by {
            if a.drop_first().contains(c) {
                let i = choose|i: int| 0 <= i < a.drop_first().len() && a.drop_first()[i] == c;
                assert(a[i + 1] == c);
            }
        }
        lemma_first_index_after(a.drop_first(), rest, c);
        assert((a + rest).drop_first() =~= a.drop_first() + rest);
    } else {
        assert(a + rest =~= rest);
    }
}

proof fn lemma_header_line(h: (Seq<char>, Seq<char>))
    requires
        header_fits(h),
    ensures
        header_record(header_line(h)) == Some(h),
        !header_line(h).contains('\n'),
        header_line(h).len() > 0,
{
    let line = header_line(h);
    lemma_first_index_after(h.0, seq![':'] + h.1, ':');
    assert(h.0 + (seq![':'] + h.1) =~= line);
    assert(line.subrange(0, h.0.len() as int) =~= h.0);
    assert(line.subrange(h.0.len() as int + 1, line.len() as int) =~= h.1);
    assert(!seq![':'].contains('\n'));
    lemma_no_char_concat(h.0, seq![':'], '\n');
    lemma_no_char_concat(h.0 + seq![':'], h.1, '\n');
}

proof fn lemma_cookie_records(cs: Seq<(Seq<char>, Seq<char>, i64)>)
    requires
        forall|i: int| 0 <= i < cs.len() ==> cookie_fits(#[trigger] cs[i]),
    ensures
        cookie_records(cs.map_values(|c: (Seq<char>, Seq<char>, i64)| cookie_line(c))) == cs,
    decreases cs.len(),
{
    let ls = cs.map_values(|c: (Seq<char>, Seq<char>, i64)| cookie_line(c));
    if cs.len() > 0 {
        let d = cs.drop_last();
        assert forall|i: int| 0 <= i < d.len() implies cookie_fits(#[trigger] d[i]) by {
            assert(d[i] == cs[i]);
        }
        lemma_cookie_records(d);
        assert(ls.drop_last() =~= d.map_values(|c: (Seq<char>, Seq<char>, i64)| cookie_line(c)));
        assert(cookie_fits(cs[cs.len() - 1]));
        lemma_cookie_line(cs.last());
        assert(d.push(cs.last()) =~= cs);
    } else {
        assert(ls.len() == 0);
    }
}

proof fn lemma_header_records(hs: Seq<(Seq<char>, Seq<char>)>)
    requires
        forall|i: int| 0 <= i < hs.len() ==> header_fits(#[trigger] hs[i]),
    ensures
        header_records(hs.map_values(|h: (Seq<char>, Seq<char>)| header_line(h))) == hs,
    decreases hs.len(),
{
    let ls = hs.map_values(|h: (Seq<char>, Seq<char>)| header_line(h));
    if hs.len() > 0 {
        let d = hs.drop_last();
        assert forall|i: int| 0 <= i < d.len() implies header_fits(#[trigger] d[i]) by {
            assert(d[i] == hs[i]);
        }
        lemma_header_records(d);
        assert(ls.drop_last() =~= d.map_values(|h: (Seq<char>, Seq<char>)| header_line(h)));
        assert(header_fits(hs[hs.len() - 1]));
        lemma_header_line(hs.last());
        assert(d.push(hs.last()) =~= hs);
    } else {
        assert(ls.len() == 0);
    }
}

/// Cookies written in the page format are read back unchanged, when no name
/// or value holds a tab or a line break.
pub proof fn law_cookie_round_trip(cs: Seq<(Seq<char>, Seq<char>, i64)>)
    requires
        forall|i: int| 0 <= i < cs.len() ==> cookie_fits(#[trigger] cs[i]),
    ensures
        cookies_of(encode_cookies(cs)) == cs,
{
    let ls = cs.map_values(|c: (Seq<char>, Seq<char>, i64)| cookie_line(c));
    lemma_cookie_records(cs);
    if cs.len() > 0 {
        assert forall|i: int| 0 <= i < ls.len() implies !(#[trigger] ls[i]).contains('\n') by {
            lemma_cookie_line(cs[i]);
        }
        lemma_split_join_lines(ls);
        lemma_cookie_line(cs[cs.len() - 1]);
    }
}

/// Headers written in the page format are read back unchanged, when no name
/// holds a colon or a line break and no value holds a line break.
pub proof fn law_header_round_trip(hs: Seq<(Seq<char>, Seq<char>)>)
    requires
        forall|i: int| 0 <= i < hs.len() ==> header_fits(#[trigger] hs[i]),
    ensures
        headers_of(encode_headers(hs)) == hs,
{
    let ls = hs.map_values(|h: (Seq<char>, Seq<char>)| header_line(h));
    lemma_header_records(hs);
    if hs.len() > 0 {
        assert forall|i: int| 0 <= i < ls.len() implies !(#[trigger] ls[i]).contains('\n') by {
            lemma_header_line(hs[i]);
        }
        lemma_split_join_lines(ls);
        lemma_header_line(hs[hs.len() - 1]);
    }
}

} // verus!
