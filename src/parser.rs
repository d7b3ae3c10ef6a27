//! Template text to tokens.
//!
//! `<<` stands for one `<` in text; `<%` opens a tag that runs to the first
//! `%>`. The character after `<%` selects the kind: `=` expression, `@`
//! directive, `!` declaration, anything else code (and then it belongs to the
//! body). Tag bodies are trimmed; text keeps its white space.

use vstd::prelude::*;
use crate::text::{chars_of, push_char, trim_str, trimmed};

verus! {

#[derive(Debug, Clone, PartialEq)]
pub enum Token {
    Text(String),
    Code(String),
    Expression(String),
    Directive(String),
    Declaration(String),
}

/// What a token is, with its payload as characters.
pub enum TokenView {
    Text(Seq<char>),
    Code(Seq<char>),
    Expression(Seq<char>),
    Directive(Seq<char>),
    Declaration(Seq<char>),
}

impl View for Token {
    type V = TokenView;

    open spec fn view(&self) -> TokenView {
        match self {
            Token::Text(s) => TokenView::Text(s@),
            Token::Code(s) => TokenView::Code(s@),
            Token::Expression(s) => TokenView::Expression(s@),
            Token::Directive(s) => TokenView::Directive(s@),
            Token::Declaration(s) => TokenView::Declaration(s@),
        }
    }
}

pub open spec fn tokens_view(ts: Seq<Token>) -> Seq<TokenView> {
    ts.map_values(|t: Token| t@)
}

pub open spec fn strings_view(v: Seq<String>) -> Seq<Seq<char>> {
    v.map_values(|s: String| s@)
}

#[derive(Debug, Clone, Default)]
pub struct ParsedTemplate {
    pub tokens: Vec<Token>,
    pub directives: Vec<String>,
    pub declarations: Vec<String>,
}

#[derive(Debug, PartialEq, Eq)]
pub enum ParseError {
    UnclosedTag,
}

impl ParseError {
    /// The error as a line of text.
    pub fn message(&self) -> (r: String)
        ensures
            r@ == "Unclosed <% %> tag"@,
    {
        String::from_str("Unclosed <% %> tag")
    }
}

/// The kinds of tag, chosen by the character after `<%`.
pub enum TagKind {
    Code,
    Expression,
    Directive,
    Declaration,
}

/// The kind of a tag whose `<%` ends just before `k`.
pub open spec fn tag_kind_at(s: Seq<char>, k: int) -> TagKind {
    if k < s.len() && s[k] == '=' {
        TagKind::Expression
    } else if k < s.len() && s[k] == '@' {
        TagKind::Directive
    } else if k < s.len() && s[k] == '!' {
        TagKind::Declaration
    } else {
        TagKind::Code
    }
}

/// Where the body of a tag whose `<%` ends just before `k` starts.
pub open spec fn body_start(s: Seq<char>, k: int) -> int {
    match tag_kind_at(s, k) {
        TagKind::Code => k,
        _ => k + 1,
    }
}

/// The position of the first `%>` at or after `k`.
pub open spec fn find_close(s: Seq<char>, k: int) -> Option<int>
    decreases s.len() - k,
{
    if k < 0 || k + 1 >= s.len() {
        None
    } else if s[k] == '%' && s[k + 1] == '>' {
        Some(k)
    } else {
        find_close(s, k + 1)
    }
}

pub open spec fn tag_token(kind: TagKind, body: Seq<char>) -> TokenView {
    match kind {
        TagKind::Code => TokenView::Code(trimmed(body)),
        TagKind::Expression => TokenView::Expression(trimmed(body)),
        TagKind::Directive => TokenView::Directive(trimmed(body)),
        TagKind::Declaration => TokenView::Declaration(trimmed(body)),
    }
}

/// `acc` followed by a text token for `text`, unless `text` is empty.
pub open spec fn flush(acc: Seq<TokenView>, text: Seq<char>) -> Seq<TokenView> {
    if text.len() > 0 {
        acc.push(TokenView::Text(text))
    } else {
        acc
    }
}

/// The tokens of `s` from position `i` on, given the tokens `acc` already made
/// and the pending text `text`; `None` when a tag is left open.
pub open spec fn scan(s: Seq<char>, i: int, text: Seq<char>, acc: Seq<TokenView>) -> Option<
    Seq<TokenView>,
>
    decreases s.len() - i, 1int,
{
    if i < 0 || i >= s.len() {
        Some(flush(acc, text))
    } else if s[i] == '<' && i + 1 < s.len() && s[i + 1] == '<' {
        scan(s, i + 2, text.push('<'), acc)
    } else if s[i] == '<' && i + 1 < s.len() && s[i + 1] == '%' {
        scan_tag(s, i + 2, flush(acc, text))
    } else {
        scan(s, i + 1, text.push(s[i]), acc)
    }
}

/// Continues `scan` inside a tag whose `<%` ends just before `k`.
pub open spec fn scan_tag(s: Seq<char>, k: int, acc: Seq<TokenView>) -> Option<Seq<TokenView>>
    decreases s.len() - k, 0int,
{
    let b = body_start(s, k);
    match find_close(s, b) {
        None => None,
        Some(j) => if b <= j && j + 2 <= s.len() && k > 0 {
            scan(
                s,
                j + 2,
                Seq::empty(),
                acc.push(tag_token(tag_kind_at(s, k), s.subrange(b, j))),
            )
        } else {
            None
        },
    }
}

/// The tokens of a whole template.
pub open spec fn parse_tokens(s: Seq<char>) -> Option<Seq<TokenView>> {
    scan(s, 0, Seq::empty(), Seq::empty())
}

/// The payloads of the directive tokens, in order.
pub open spec fn directives_of(ts: Seq<TokenView>) -> Seq<Seq<char>>
    decreases ts.len(),
{
    if ts.len() == 0 {
        Seq::empty()
    } else {
        let rest = directives_of(ts.drop_last());
        match ts.last() {
            TokenView::Directive(d) => rest.push(d),
            _ => rest,
        }
    }
}

/// The payloads of the declaration tokens, in order.
pub open spec fn declarations_of(ts: Seq<TokenView>) -> Seq<Seq<char>>
    decreases ts.len(),
{
    if ts.len() == 0 {
        Seq::empty()
    } else {
        let rest = declarations_of(ts.drop_last());
        match ts.last() {
            TokenView::Declaration(d) => rest.push(d),
            _ => rest,
        }
    }
}

pub open spec fn template_wf(t: ParsedTemplate) -> bool {
    &&& strings_view(t.directives@) == directives_of(tokens_view(t.tokens@))
    &&& strings_view(t.declarations@) == declarations_of(tokens_view(t.tokens@))
}

/// The text payloads of `ts`, concatenated in order.
pub open spec fn text_of(ts: Seq<TokenView>) -> Seq<char>
    decreases ts.len(),
{
    if ts.len() == 0 {
        Seq::empty()
    } else {
        let rest = text_of(ts.drop_last());
        match ts.last() {
            TokenView::Text(t) => rest + t,
            _ => rest,
        }
    }
}

/// The text of `s` from `i` on as a reader sees it: tags left out and each
/// `<<` read as `<`.
pub open spec fn visible_from(s: Seq<char>, i: int) -> Seq<char>
    decreases s.len() - i,
{
    if i < 0 || i >= s.len() {
        Seq::empty()
    } else if s[i] == '<' && i + 1 < s.len() && s[i + 1] == '<' {
        seq!['<'] + visible_from(s, i + 2)
    } else if s[i] == '<' && i + 1 < s.len() && s[i + 1] == '%' {
        match find_close(s, i + 2) {
            Some(j) => if i + 2 <= j && j + 2 <= s.len() {
                visible_from(s, j + 2)
            } else {
                Seq::empty()
            },
            None => Seq::empty(),
        }
    } else {
        seq![s[i]] + visible_from(s, i + 1)
    }
}

/// `s` holds no tag and no `<<` escape.
pub open spec fn plain_text(s: Seq<char>) -> bool {
    forall|i: int| 0 <= i < s.len() - 1 ==> !(s[i] == '<' && (#[trigger] s[i + 1] == '<' || s[i + 1] == '%'))
}

proof fn lemma_scan_plain(s: Seq<char>, i: int)
    requires
        plain_text(s),
        s.len() > 0,
        0 <= i <= s.len(),
    ensures
        scan(s, i, s.subrange(0, i), Seq::empty()) == Some(seq![TokenView::Text(s)]),
    decreases s.len() - i,
{
    if i < s.len() {
        if i + 1 < s.len() {
            assert(!(s[i] == '<' && (s[i + 1] == '<' || s[i + 1] == '%')));
        }
        assert(s.subrange(0, i).push(s[i]) =~= s.subrange(0, i + 1));
        lemma_scan_plain(s, i + 1);
    } else {
        assert(s.subrange(0, i) =~= s);
        assert(flush(Seq::empty(), s) =~= seq![TokenView::Text(s)]);
    }
}

/// A non-empty template with no tag and no `<<` parses to one text token
/// holding the whole input.
pub proof fn law_plain_template(s: Seq<char>)
    requires
        plain_text(s),
        s.len() > 0,
    ensures
        parse_tokens(s) == Some(seq![TokenView::Text(s)]),
{
    assert(s.subrange(0, 0) =~= Seq::<char>::empty());
    lemma_scan_plain(s, 0);
}

proof fn lemma_find_close_bounds(s: Seq<char>, k: int)
    requires
        find_close(s, k) is Some,
    ensures
        k <= find_close(s, k)->0,
        find_close(s, k)->0 + 2 <= s.len(),
        s[find_close(s, k)->0] == '%',
    decreases s.len() - k,
{
    if !(s[k] == '%' && s[k + 1] == '>') {
        lemma_find_close_bounds(s, k + 1);
    }
}

proof fn lemma_find_close_skip(s: Seq<char>, k: int)
    requires
        0 <= k < s.len(),
        s[k] != '%',
    ensures
        find_close(s, k) == find_close(s, k + 1),
{
}

proof fn lemma_text_of_push(ts: Seq<TokenView>, t: TokenView)
    ensures
        text_of(ts.push(t)) == match t {
            TokenView::Text(x) => text_of(ts) + x,
            _ => text_of(ts),
        },
{
    assert(ts.push(t).drop_last() =~= ts);
}

proof fn lemma_scan_text(s: Seq<char>, i: int, text: Seq<char>, acc: Seq<TokenView>)
    requires
        0 <= i,
        scan(s, i, text, acc) is Some,
    ensures
        text_of(scan(s, i, text, acc)->0) == text_of(acc) + text + visible_from(s, i),
    decreases s.len() - i,
{
    if i >= s.len() {
        lemma_text_of_push(acc, TokenView::Text(text));
        assert(text_of(acc) + text + Seq::<char>::empty() =~= text_of(acc) + text);
        if text.len() == 0 {
            assert(text_of(acc) + text =~= text_of(acc));
        }
    } else if s[i] == '<' && i + 1 < s.len() && s[i + 1] == '<' {
        lemma_scan_text(s, i + 2, text.push('<'), acc);
        assert(text_of(acc) + text.push('<') + visible_from(s, i + 2) =~= text_of(acc) + text + (
        seq!['<'] + visible_from(s, i + 2)));
    } else if s[i] == '<' && i + 1 < s.len() && s[i + 1] == '%' {
        let k = i + 2;
        let facc = flush(acc, text);
        assert(scan(s, i, text, acc) == scan_tag(s, k, facc));
        lemma_text_of_push(acc, TokenView::Text(text));
        if text.len() == 0 {
            assert(text_of(acc) + text =~= text_of(acc));
        }
        assert(text_of(facc) =~= text_of(acc) + text);
        let b = body_start(s, k);
        if b == k + 1 {
            lemma_find_close_skip(s, k);
        }
        lemma_find_close_bounds(s, b);
        let j = find_close(s, b)->0;
        if b == k + 1 {
            assert(j != k);
        }
        let tok = tag_token(tag_kind_at(s, k), s.subrange(b, j));
        assert(scan_tag(s, k, facc) == scan(s, j + 2, Seq::empty(), facc.push(tok)));
        lemma_scan_text(s, j + 2, Seq::empty(), facc.push(tok));
        lemma_text_of_push(facc, tok);
        assert(text_of(facc.push(tok)) + Seq::<char>::empty() =~= text_of(facc));
        assert(visible_from(s, i) == visible_from(s, j + 2));
    } else {
        lemma_scan_text(s, i + 1, text.push(s[i]), acc);
        assert(text_of(acc) + text.push(s[i]) + visible_from(s, i + 1) =~= text_of(acc) + text + (
        seq![s[i]] + visible_from(s, i + 1)));
    }
}

/// The text payloads of a parsed template, concatenated, are the template
/// with every `<%...%>` tag removed and every `<<` collapsed to `<`.
pub proof fn law_text_payloads(s: Seq<char>)
    requires
        parse_tokens(s) is Some,
    ensures
        text_of(parse_tokens(s)->0) == visible_from(s, 0),
{
    lemma_scan_text(s, 0, Seq::empty(), Seq::empty());
    assert(text_of(Seq::<TokenView>::empty()) + Seq::<char>::empty() + visible_from(s, 0) =~= visible_from(s, 0));
}

pub struct Parser;

impl Default for Parser {
    fn default() -> (r: Parser) {
        Parser::new()
    }
}

impl Parser {
    pub fn new() -> (r: Parser) {
        Parser
    }

    /// Splits `input` into tokens in source order.
    pub fn parse(&self, input: &str) -> (r: Result<ParsedTemplate, ParseError>)
        ensures
            parse_tokens(input@) is None <==> r is Err,
            r matches Ok(t) ==> {
                &&& parse_tokens(input@) == Some(tokens_view(t.tokens@))
                &&& template_wf(t)
            },
    {
        let cs = chars_of(input);
        let ghost s = input@;
        let n = cs.len();
        let mut tokens: Vec<Token> = Vec::new();
        let mut directives: Vec<String> = Vec::new();
        let mut declarations: Vec<String> = Vec::new();
        let mut text_buf = String::new();
        let mut i: usize = 0;
        assert(tokens_view(tokens@) =~= Seq::<TokenView>::empty());
        while i < n
            invariant
                s == input@,
                cs@ == s,
                n == s.len(),
                i <= n,
                scan(s, i as int, text_buf@, tokens_view(tokens@)) == parse_tokens(s),
                strings_view(directives@) == directives_of(tokens_view(tokens@)),
                strings_view(declarations@) == declarations_of(tokens_view(tokens@)),
            decreases n - i,
        {
            let ch = cs[i];
            if ch == '<' && i + 1 < n && cs[i + 1] == '<' {
                push_char(&mut text_buf, '<');
                i = i + 2;
            } else if ch == '<' && i + 1 < n && cs[i + 1] == '%' {
                let ghost text0 = text_buf@;
                let ghost acc0 = tokens_view(tokens@);
                let ghost dirs0 = strings_view(directives@);
                let ghost decls0 = strings_view(declarations@);
                if !text_buf.as_str().is_empty() {
                    tokens.push(Token::Text(text_buf));
                    text_buf = String::new();
                    proof {
                        assert(tokens_view(tokens@) =~= acc0.push(TokenView::Text(text0)));
                        assert(tokens_view(tokens@).drop_last() =~= acc0);
                    }
                }
                let k = i + 2;
                let ghost acc = tokens_view(tokens@);
                assert(acc == flush(acc0, text0));
                assert(directives_of(acc) == directives_of(acc0));
                assert(declarations_of(acc) == declarations_of(acc0));
                assert(scan_tag(s, k as int, acc) == parse_tokens(s));
                let mut kind: u8 = 0;
                let mut j = k;
                if k < n && cs[k] == '=' {
                    kind = 1;
                    j = k + 1;
                } else if k < n && cs[k] == '@' {
                    kind = 2;
                    j = k + 1;
                } else if k < n && cs[k] == '!' {
                    kind = 3;
                    j = k + 1;
                }
                assert(j == body_start(s, k as int));
                let b = j;
                let mut body = String::new();
                assert(body@ =~= s.subrange(b as int, j as int));
                while j < n && !(j + 1 < n && cs[j] == '%' && cs[j + 1] == '>')
                    invariant
                        cs@ == s,
                        n == s.len(),
                        b <= j <= n,
                        body@ == s.subrange(b as int, j as int),
                        find_close(s, b as int) == find_close(s, j as int),
                    decreases n - j,
                {
                    push_char(&mut body, cs[j]);
                    j = j + 1;
                    assert(body@ =~= s.subrange(b as int, j as int));
                }
                if j >= n {
                    assert(find_close(s, j as int) is None);
                    assert(parse_tokens(s) is None);
                    return Err(ParseError::UnclosedTag);
                }
                assert(find_close(s, j as int) == Some(j as int));
                let content = String::from_str(trim_str(body.as_str()));
                let ghost tok = tag_token(tag_kind_at(s, k as int), s.subrange(b as int, j as int));
                if kind == 1 {
                    tokens.push(Token::Expression(content));
                } else if kind == 2 {
                    directives.push(content.clone());
                    tokens.push(Token::Directive(content));
                } else if kind == 3 {
                    declarations.push(content.clone());
                    tokens.push(Token::Declaration(content));
                } else {
                    tokens.push(Token::Code(content));
                }
                proof {
                    assert(tokens_view(tokens@) =~= acc.push(tok));
                    assert(tokens_view(tokens@).drop_last() =~= acc);
                    if kind == 2 {
                        assert(strings_view(directives@) =~= dirs0.push(content@));
                    } else {
                        assert(strings_view(directives@) =~= dirs0);
                    }
                    if kind == 3 {
                        assert(strings_view(declarations@) =~= decls0.push(content@));
                    } else {
                        assert(strings_view(declarations@) =~= decls0);
                    }
                }
                assert(text_buf@ =~= Seq::<char>::empty());
                i = j + 2;
            } else {
                push_char(&mut text_buf, ch);
                i = i + 1;
            }
        }
        if !text_buf.as_str().is_empty() {
            let ghost before = tokens_view(tokens@);
            tokens.push(Token::Text(text_buf));
            proof {
                assert(tokens_view(tokens@) =~= before.push(tokens_view(tokens@).last()));
                assert(tokens_view(tokens@).drop_last() =~= before);
            }
        }
        Ok(ParsedTemplate { tokens, directives, declarations })
    }
}

} // verus!
