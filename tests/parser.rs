use rsp::parser::{ParseError, Parser, Token};

#[test]
fn test_parse_text() {
    let parser = Parser::new();
    let result = parser.parse("Hello World").unwrap();
    assert_eq!(result.tokens, vec![Token::Text("Hello World".to_string())]);
}

#[test]
fn test_parse_expression() {
    let parser = Parser::new();
    let result = parser.parse("<%= name %>").unwrap();
    assert_eq!(result.tokens, vec![Token::Expression("name".to_string())]);
}

#[test]
fn test_parse_directive() {
    let parser = Parser::new();
    let result = parser.parse("<%@ database mysql=\"test\" %>").unwrap();
    assert_eq!(result.directives, vec!["database mysql=\"test\""]);
}

#[test]
fn test_parse_declaration() {
    let parser = Parser::new();
    let result = parser.parse("<%! static mut COUNT: i32 = 0; %>").unwrap();
    assert_eq!(result.declarations, vec!["static mut COUNT: i32 = 0;"]);
}

#[test]
fn plain_template_is_one_text_token() {
    let result = Parser::new().parse("Hello, World").unwrap();
    assert_eq!(result.tokens, vec![Token::Text("Hello, World".to_string())]);
    assert!(result.directives.is_empty());
    assert!(result.declarations.is_empty());
}

#[test]
fn empty_template_has_no_tokens() {
    let result = Parser::new().parse("").unwrap();
    assert!(result.tokens.is_empty());
}

#[test]
fn double_angle_is_one_angle_in_text() {
    let result = Parser::new().parse("1 << 2 = 4").unwrap();
    assert_eq!(result.tokens, vec![Token::Text("1 < 2 = 4".to_string())]);
}

#[test]
fn text_payloads_skip_tags_and_collapse_escapes() {
    let result = Parser::new().parse("a<% x %>b<<c<%= y %>d").unwrap();
    let text: String = result
        .tokens
        .iter()
        .filter_map(|t| match t {
            Token::Text(s) => Some(s.clone()),
            _ => None,
        })
        .collect();
    assert_eq!(text, "ab<cd");
    assert_eq!(
        result.tokens,
        vec![
            Token::Text("a".to_string()),
            Token::Code("x".to_string()),
            Token::Text("b<c".to_string()),
            Token::Expression("y".to_string()),
            Token::Text("d".to_string()),
        ]
    );
}

#[test]
fn code_and_expression_tags() {
    let result = Parser::new().parse("<% let x = 2 + 3; %>sum=<%= x %>").unwrap();
    assert_eq!(
        result.tokens,
        vec![
            Token::Code("let x = 2 + 3;".to_string()),
            Token::Text("sum=".to_string()),
            Token::Expression("x".to_string()),
        ]
    );
}

#[test]
fn percent_inside_tag_is_kept() {
    let result = Parser::new().parse("<% a % b %>").unwrap();
    assert_eq!(result.tokens, vec![Token::Code("a % b".to_string())]);
}

#[test]
fn empty_tag_gives_empty_code() {
    let result = Parser::new().parse("<%%>").unwrap();
    assert_eq!(result.tokens, vec![Token::Code(String::new())]);
}

#[test]
fn directives_and_declarations_keep_their_order() {
    let result = Parser::new()
        .parse("<%@ use a %>x<%! static A: u8 = 1; %><%@ dep b = \"1\" %><%! fn f() {} %>")
        .unwrap();
    assert_eq!(result.directives, vec!["use a", "dep b = \"1\""]);
    assert_eq!(result.declarations, vec!["static A: u8 = 1;", "fn f() {}"]);
    assert_eq!(result.tokens.len(), 5);
}

#[test]
fn unclosed_tag_is_an_error() {
    let result = Parser::new().parse("prefix <% let x");
    assert!(matches!(result, Err(ParseError::UnclosedTag)));
    assert_eq!(ParseError::UnclosedTag.message(), "Unclosed <% %> tag");
}

#[test]
fn open_marker_at_end_is_an_error() {
    assert!(matches!(Parser::new().parse("abc<%"), Err(ParseError::UnclosedTag)));
    assert!(matches!(Parser::new().parse("<%= x %"), Err(ParseError::UnclosedTag)));
}

#[test]
fn tag_bodies_trim_unicode_space() {
    let result = Parser::new().parse("<%=\u{3000}\t x \u{a0}\n%>").unwrap();
    assert_eq!(result.tokens, vec![Token::Expression("x".to_string())]);
    let blank = Parser::new().parse("<% \u{2028} %>").unwrap();
    assert_eq!(blank.tokens, vec![Token::Code(String::new())]);
}
