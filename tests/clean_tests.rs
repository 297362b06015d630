use stack_vm::command::Command;
use stack_vm::parser::{parse, Parser};

#[test]
fn test_clean_basic_whitespace() {
    let mut parser = Parser::new("  test  ");
    assert_eq!(parser.clean("  test  "), "test");
}

#[test]
fn test_clean_tabs_and_newlines() {
    let mut parser = Parser::new("\t\ttest\n");
    assert_eq!(parser.clean("\t\ttest\n"), "test");
}

#[test]
fn test_clean_mixed_whitespace() {
    let mut parser = Parser::new(" \t test \n ");
    assert_eq!(parser.clean(" \t test \n "), "test");
}

#[test]
fn test_clean_single_line_comment() {
    let mut parser = Parser::new("");
    assert_eq!(parser.clean("test // comment"), "test");
    assert_eq!(parser.clean("  test  // comment  "), "test");
}

#[test]
fn test_clean_multiline_comment_same_line() {
    let mut parser = Parser::new("");
    assert_eq!(parser.clean("test /* comment */ code"), "test code");
    assert_eq!(parser.clean("  test  /* comment */  code  "), "test code");
}

#[test]
fn test_clean_multiline_comment_start() {
    let mut parser = Parser::new("");
    assert_eq!(parser.clean("test /* comment"), "test");
    assert!(parser.in_multiline_comment);
}

#[test]
fn test_clean_multiline_comment_end() {
    let mut parser = Parser::new("");
    parser.in_multiline_comment = true;
    assert_eq!(parser.clean("comment */ test"), "test");
    assert!(!parser.in_multiline_comment);
}

#[test]
fn test_clean_multiline_comment_continuation() {
    let mut parser = Parser::new("");
    parser.in_multiline_comment = true;
    assert_eq!(parser.clean("still in comment"), "");
    assert!(parser.in_multiline_comment);
}

#[test]
fn test_clean_empty_after_comment_removal() {
    let mut parser = Parser::new("");
    assert_eq!(parser.clean(" // only a comment"), "");
    assert_eq!(parser.clean("/* just another comment */ "), "");
}

#[test]
fn test_clean_multiple_comments() {
    let mut parser = Parser::new("");
    assert_eq!(
        parser.clean("test /* comment */ more // end comment"),
        "test more"
    );
}

#[test]
fn test_parser_iterator() {
    let input = "
        // Comment line
        test1  // Inline comment
        /* Multiline
           comment */ test2
           
        test3 /* comment */ test4
    ";
    let mut parser = Parser::new(input);
    let mut commands: Vec<Result<Command, String>> = Vec::new();
    while let Some(item) = parser.next() {
        commands.push(item);
    }

    assert_eq!(commands.len(), 3);
}

#[test]
fn test_parse_with_comments() {
    let mut parser = Parser::new("");

    // Clean the line, then parse the result
    let cleaned = parser.clean("add // This is a comment");
    assert_eq!(parse(&cleaned), Ok(Command::Add));

    let cleaned = parser.clean("push constant 42 /* Comment */");
    assert_eq!(
        parse(&cleaned),
        Ok(Command::Push(stack_vm::command::MemorySegment::Constant, 42))
    );

    // Multi-line comment
    parser.in_multiline_comment = true;
    let cleaned = parser.clean("* still comment */ add");
    assert_eq!(parse(&cleaned), Ok(Command::Add));
}
