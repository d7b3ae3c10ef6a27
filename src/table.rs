//! Key/value entries read as a map in which a later entry for a key
//! replaces an earlier one.

use vstd::prelude::*;

verus! {

pub open spec fn entries_view(v: Seq<(String, String)>) -> Seq<(Seq<char>, Seq<char>)> {
    v.map_values(|e: (String, String)| (e.0@, e.1@))
}

/// The map the entries describe.
pub open spec fn entries_map(es: Seq<(Seq<char>, Seq<char>)>) -> Map<Seq<char>, Seq<char>>
    decreases es.len(),
{
    if es.len() == 0 {
        Map::empty()
    } else {
        entries_map(es.drop_last()).insert(es.last().0, es.last().1)
    }
}

/// The value of `key`, or the empty text.
pub open spec fn value_or_empty(m: Map<Seq<char>, Seq<char>>, key: Seq<char>) -> Seq<char> {
    if m.contains_key(key) {
        m[key]
    } else {
        Seq::empty()
    }
}

/// The entry at `j` is the last one for its key: the map holds its value.
pub proof fn lemma_last_entry(es: Seq<(Seq<char>, Seq<char>)>, j: int)
    requires
        0 <= j < es.len(),
        forall|k: int| j < k < es.len() ==> (#[trigger] es[k]).0 != es[j].0,
    ensures
        entries_map(es).contains_key(es[j].0),
        entries_map(es)[es[j].0] == es[j].1,
    decreases es.len(),
{
    if j < es.len() - 1 {
        let d = es.drop_last();
        assert forall|k: int| j < k < d.len() implies (#[trigger] d[k]).0 != d[j].0 by {
            assert(d[k] == es[k]);
        }
        lemma_last_entry(d, j);
        assert(es[es.len() - 1].0 != es[j].0);
    }
}

/// No entry has `key`: the map does not hold it.
pub proof fn lemma_no_entry(es: Seq<(Seq<char>, Seq<char>)>, key: Seq<char>)
    requires
        forall|k: int| 0 <= k < es.len() ==> (#[trigger] es[k]).0 != key,
    ensures
        !entries_map(es).contains_key(key),
    decreases es.len(),
{
    if es.len() > 0 {
        let d = es.drop_last();
        assert forall|k: int| 0 <= k < d.len() implies (#[trigger] d[k]).0 != key by {
            assert(d[k] == es[k]);
        }
        lemma_no_entry(d, key);
        assert(es[es.len() - 1].0 != key);
    }
}

/// The last entry for `key`.
pub fn lookup<'a>(entries: &'a Vec<(String, String)>, key: &str) -> (r: Option<&'a String>)
    ensures
        r matches Some(v) ==> entries_map(entries_view(entries@)).contains_key(key@) && v@
            == entries_map(entries_view(entries@))[key@],
        r is None ==> !entries_map(entries_view(entries@)).contains_key(key@),
{
    let ghost es = entries_view(entries@);
    let k = key.to_owned();
    let mut i: usize = entries.len();
    while i > 0
        invariant
            es == entries_view(entries@),
            k@ == key@,
            i <= entries.len(),
            forall|j: int| i <= j < es.len() ==> (#[trigger] es[j]).0 != key@,
        decreases i,
    {
        assert(es[i - 1] == (entries@[i - 1].0@, entries@[i - 1].1@));
        if entries[i - 1].0 == k {
            proof {
                lemma_last_entry(es, i - 1);
            }
            return Some(&entries[i - 1].1);
        }
        i = i - 1;
    }
    proof {
        lemma_no_entry(es, key@);
    }
    None
}

/// The value of `key`, or the empty text.
pub fn lookup_str<'a>(entries: &'a Vec<(String, String)>, key: &str) -> (r: &'a str)
    ensures
        r@ == value_or_empty(entries_map(entries_view(entries@)), key@),
{
    match lookup(entries, key) {
        Some(v) => v.as_str(),
        None => {
            proof {
                reveal_strlit("");
            }
            ""
        },
    }
}

/// The value of `key`, or `default`.
pub fn lookup_or(entries: &Vec<(String, String)>, key: &str, default: &str) -> (r: String)
    ensures
        r@ == if entries_map(entries_view(entries@)).contains_key(key@) {
            entries_map(entries_view(entries@))[key@]
        } else {
            default@
        },
{
    match lookup(entries, key) {
        Some(v) => v.clone(),
        None => default.to_owned(),
    }
}

/// A copy of the entries.
pub fn copy_entries(entries: &Vec<(String, String)>) -> (r: Vec<(String, String)>)
    ensures
        entries_view(r@) == entries_view(entries@),
{
    let mut r: Vec<(String, String)> = Vec::new();
    let mut i: usize = 0;
    while i < entries.len()
        invariant
            i <= entries.len(),
            entries_view(r@) == entries_view(entries@).take(i as int),
        decreases entries.len() - i,
    {
        let a = entries[i].0.clone();
        let b = entries[i].1.clone();
        assert(a@ == entries@[i as int].0@ && b@ == entries@[i as int].1@);
        let ghost r0 = r@;
        r.push((a, b));
        assert(entries_view(r@) =~= entries_view(r0).push((a@, b@)));
        assert(entries_view(entries@).take(i + 1) =~= entries_view(entries@).take(i as int).push(
            (a@, b@),
        ));
        i = i + 1;
    }
    assert(entries_view(entries@).take(i as int) =~= entries_view(entries@));
    r
}

} // verus!
