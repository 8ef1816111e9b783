use wh::shell::{
    consume_line, discover, parse, parse_alias, parse_function, prioritize, terminated_word,
    until_alone_rbrace, Alias, Function, Item,
};

fn chars(s: &str) -> Vec<char> {
    s.chars().collect()
}

fn alias(item: &Item) -> (String, String) {
    match item {
        Item::Alias(a) => (a.lhs.to_string(), a.rhs.to_string()),
        Item::Function(_) => panic!("an alias was expected"),
    }
}

fn function(item: &Item) -> (String, String) {
    match item {
        Item::Function(f) => (f.name.to_string(), f.body.to_string()),
        Item::Alias(_) => panic!("a function was expected"),
    }
}

#[test]
fn alias_line_yields_one_alias() {
    let items = parse("alias ll=ls -la\n");
    assert_eq!(items.len(), 1);
    assert_eq!(alias(&items[0]), ("ll".to_string(), "ls -la".to_string()));
}

#[test]
fn function_yields_one_function() {
    let items = parse("greet() {\n  echo hi\n}\n");
    assert_eq!(items.len(), 1);
    assert_eq!(function(&items[0]), ("greet".to_string(), "  echo hi".to_string()));
}

#[test]
fn empty_name_is_no_alias() {
    assert!(parse("=foo").is_empty());
    assert!(parse("=foo\n").is_empty());
    assert!(parse("alias =foo\n").is_empty());
}

#[test]
fn empty_session_holds_nothing() {
    assert!(parse("").is_empty());
    assert!(parse("\n\n\n").is_empty());
}

#[test]
fn unknown_lines_are_passed_over() {
    let items = parse("PATH=/bin\nalias a=b\nsome noise\nalias c=d");
    assert_eq!(items.len(), 2);
    assert_eq!(alias(&items[0]), ("a".to_string(), "b".to_string()));
    assert_eq!(alias(&items[1]), ("c".to_string(), "d".to_string()));
}

#[test]
fn aliases_come_before_functions() {
    let items = parse("f() {\n  x\n}\nalias a=1\ng() {\n  y\n}\nalias b=2\n");
    assert_eq!(items.len(), 4);
    assert_eq!(alias(&items[0]), ("a".to_string(), "1".to_string()));
    assert_eq!(alias(&items[1]), ("b".to_string(), "2".to_string()));
    assert_eq!(function(&items[2]), ("f".to_string(), "  x".to_string()));
    assert_eq!(function(&items[3]), ("g".to_string(), "  y".to_string()));
}

#[test]
fn discover_keeps_the_order_of_the_session() {
    let items = discover("f() {\n  one\n}\nalias a=b\ng ()\n{\n  two\n}\n");
    assert_eq!(items.len(), 3);
    assert_eq!(function(&items[0]), ("f".to_string(), "  one".to_string()));
    assert_eq!(alias(&items[1]), ("a".to_string(), "b".to_string()));
    assert_eq!(function(&items[2]), ("g".to_string(), "  two".to_string()));
    let items = prioritize(&items);
    assert_eq!(alias(&items[0]), ("a".to_string(), "b".to_string()));
    assert_eq!(function(&items[1]), ("f".to_string(), "  one".to_string()));
    assert_eq!(function(&items[2]), ("g".to_string(), "  two".to_string()));
}

#[test]
fn alias_value_is_trimmed_at_its_end_only() {
    let items = parse("alias x=  spaced out \t \r\n");
    assert_eq!(alias(&items[0]), ("x".to_string(), "  spaced out".to_string()));
}

#[test]
fn alias_value_loses_unicode_white_space_at_its_end() {
    let items = parse("alias x=y\u{a0}\u{2003}\u{3000}\n");
    assert_eq!(alias(&items[0]), ("x".to_string(), "y".to_string()));
}

#[test]
fn alias_value_may_be_empty_before_a_line_feed() {
    let items = parse("alias x=\n");
    assert_eq!(alias(&items[0]), ("x".to_string(), "".to_string()));
}

#[test]
fn alias_without_value_at_the_end_is_none() {
    assert!(parse("alias x=").is_empty());
}

#[test]
fn alias_without_line_feed_at_the_end_is_read() {
    let items = parse("alias x=y");
    assert_eq!(alias(&items[0]), ("x".to_string(), "y".to_string()));
}

#[test]
fn alias_needs_space_after_the_keyword() {
    assert!(parse("aliasx=y\n").is_empty());
    let items = parse("alias \t x=y\n");
    assert_eq!(alias(&items[0]), ("x".to_string(), "y".to_string()));
}

#[test]
fn alias_name_holds_no_white_space() {
    assert!(parse("alias a b=c\n").is_empty());
    assert!(parse("alias a\u{c}=c\n").is_empty());
    assert!(parse("alias abc\n").is_empty());
}

#[test]
fn alias_name_may_hold_unicode_white_space() {
    let items = parse("alias a\u{a0}b=c\n");
    assert_eq!(alias(&items[0]), ("a\u{a0}b".to_string(), "c".to_string()));
}

#[test]
fn alias_value_may_hold_equal_signs() {
    let items = parse("alias g='git log --format=%h'\n");
    assert_eq!(alias(&items[0]), ("g".to_string(), "'git log --format=%h'".to_string()));
}

#[test]
fn alias_must_begin_its_line() {
    assert!(parse("  alias a=b\n").is_empty());
}

#[test]
fn function_keyword_may_stand_before_the_name() {
    let items = parse("function greet () {\n  echo hi\n}\n");
    assert_eq!(function(&items[0]), ("greet".to_string(), "  echo hi".to_string()));
}

#[test]
fn function_keyword_without_space_is_a_name() {
    let items = parse("function() {\n  x\n}\n");
    assert_eq!(function(&items[0]), ("function".to_string(), "  x".to_string()));
}

#[test]
fn function_keyword_alone_is_no_function() {
    assert!(parse("function () {\n  x\n}\n").is_empty());
}

#[test]
fn function_brace_may_stand_on_the_next_line() {
    let items = parse("greet ()\n{\n    echo hi\n}\n");
    assert_eq!(function(&items[0]), ("greet".to_string(), "    echo hi".to_string()));
}

#[test]
fn function_body_ends_at_the_first_lone_brace() {
    let items = parse("f() {\n  if x; then\n  }; fi\n  echo }\n}\nalias a=b\n");
    assert_eq!(items.len(), 2);
    assert_eq!(alias(&items[0]), ("a".to_string(), "b".to_string()));
    assert_eq!(
        function(&items[1]),
        ("f".to_string(), "  if x; then\n  }; fi\n  echo }".to_string())
    );
}

#[test]
fn function_brace_with_text_after_it_does_not_close() {
    let items = parse("f() {\n  a\n} b\n  c\n}\n");
    assert_eq!(function(&items[0]), ("f".to_string(), "  a\n} b\n  c".to_string()));
}

#[test]
fn function_brace_may_have_blanks_after_it() {
    let items = parse("f() {\n  a\n}  \t\r\nalias x=y\n");
    assert_eq!(items.len(), 2);
    assert_eq!(alias(&items[0]), ("x".to_string(), "y".to_string()));
    assert_eq!(function(&items[1]), ("f".to_string(), "  a".to_string()));
}

#[test]
fn function_may_close_at_the_end_of_the_session() {
    let items = parse("f() {\n  a\n}");
    assert_eq!(function(&items[0]), ("f".to_string(), "  a".to_string()));
    let items = parse("f() {\n  a\n}   ");
    assert_eq!(function(&items[0]), ("f".to_string(), "  a".to_string()));
}

#[test]
fn function_without_closing_brace_is_none() {
    assert!(parse("f() {\n  a\n  b\n").is_empty());
    assert!(parse("f() {\n  a\n} b").is_empty());
}

#[test]
fn function_without_body_is_none() {
    assert!(parse("f() {\n}\n").is_empty());
}

#[test]
fn function_body_loses_the_line_feeds_at_its_end() {
    let items = parse("f() {\n\n\n  a\n\n\n}\n");
    assert_eq!(function(&items[0]), ("f".to_string(), "  a".to_string()));
}

#[test]
fn function_needs_a_line_feed_after_the_brace() {
    assert!(parse("f() { a\n}\n").is_empty());
}

#[test]
fn function_name_ends_at_a_forbidden_character() {
    assert!(parse("f$g() {\n  a\n}\n").is_empty());
    assert!(parse("() {\n  a\n}\n").is_empty());
    let items = parse("my-func.v2() {\n  a\n}\n");
    assert_eq!(function(&items[0]), ("my-func.v2".to_string(), "  a".to_string()));
}

#[test]
fn function_named_alias_is_a_function() {
    let items = parse("alias () {\n  a\n}\n");
    assert_eq!(function(&items[0]), ("alias".to_string(), "  a".to_string()));
}

#[test]
fn consume_line_goes_behind_the_line_feed() {
    let s = chars("ab\ncd");
    assert_eq!(consume_line(&s, 0), Some(3));
    assert_eq!(consume_line(&s, 2), Some(3));
    assert_eq!(consume_line(&s, 3), Some(5));
    assert_eq!(consume_line(&s, 5), None);
}

#[test]
fn terminated_word_finds_the_equal_sign() {
    assert_eq!(terminated_word(&chars("ll=ls"), 0), Some(2));
    assert_eq!(terminated_word(&chars("=ls"), 0), None);
    assert_eq!(terminated_word(&chars("l l=ls"), 0), None);
    assert_eq!(terminated_word(&chars("ll"), 0), None);
    assert_eq!(terminated_word(&chars("a=b=c"), 2), Some(3));
}

#[test]
fn until_alone_rbrace_finds_the_closing_brace() {
    assert_eq!(until_alone_rbrace(&chars("  a\n}\nrest"), 0), Some((3, 6)));
    assert_eq!(until_alone_rbrace(&chars("  a\n}x\n  b\n}"), 0), Some((10, 12)));
    assert_eq!(until_alone_rbrace(&chars("}\n"), 0), None);
    assert_eq!(until_alone_rbrace(&chars("  a\n}x"), 0), None);
}

#[test]
fn parse_alias_gives_the_places() {
    let d = parse_alias(&chars("alias ll=ls -la \nnext"), 0).unwrap();
    assert_eq!(
        (d.name_start, d.name_end, d.text_start, d.text_end, d.next),
        (6, 8, 9, 15, 17)
    );
    assert!(parse_alias(&chars("xalias ll=ls\n"), 0).is_none());
    assert!(parse_alias(&chars("xalias ll=ls\n"), 1).is_some());
}

#[test]
fn parse_function_gives_the_places() {
    let d = parse_function(&chars("greet() {\n  echo hi\n}\n"), 0).unwrap();
    assert_eq!(
        (d.name_start, d.name_end, d.text_start, d.text_end, d.next),
        (0, 5, 10, 19, 22)
    );
}

#[test]
fn alias_is_shown_as_the_shell_shows_it() {
    let a = Alias { lhs: "ll", rhs: "ls -la" };
    assert_eq!(a.to_text(), "alias ll=ls -la");
    assert_eq!(Item::Alias(a).to_text(), "alias ll=ls -la");
}

#[test]
fn function_is_shown_as_the_shell_shows_it() {
    let f = Function { name: "greet", body: "  echo hi" };
    assert_eq!(f.to_text(), "greet() {\n  echo hi\n}");
    assert_eq!(Item::Function(f).to_text(), "greet() {\n  echo hi\n}");
}

#[test]
fn what_is_shown_is_read_back() {
    let f = Function { name: "greet", body: "  echo hi\n  echo ho" };
    let a = Alias { lhs: "ll", rhs: "ls -la" };
    let text = format!("{}\n{}\n", a.to_text(), f.to_text());
    let items = parse(&text);
    assert_eq!(items.len(), 2);
    assert_eq!(alias(&items[0]), ("ll".to_string(), "ls -la".to_string()));
    assert_eq!(function(&items[1]), ("greet".to_string(), "  echo hi\n  echo ho".to_string()));
}

#[test]
fn texts_beyond_ascii_are_cut_at_characters() {
    let items = parse("alias grüße=hallö wörld\nfünc() {\n  ünïcode\n}\n");
    assert_eq!(items.len(), 2);
    assert_eq!(alias(&items[0]), ("grüße".to_string(), "hallö wörld".to_string()));
    assert_eq!(function(&items[1]), ("fünc".to_string(), "  ünïcode".to_string()));
}
