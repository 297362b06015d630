use stack_vm::parser::parse;
use stack_vm::translator::translate;

fn unit(name: &str, text: &str) -> (String, String) {
    (name.to_string(), text.to_string())
}

#[test]
fn one_comment_line_per_command_in_order() {
    let out = translate(
        vec![unit("Main.vm", "push constant 1 // one\n\n/* block */ push constant 2\nadd\n")],
        false,
    )
    .unwrap();
    let comments: Vec<&str> = out.lines().filter(|l| l.starts_with("//")).collect();
    assert_eq!(
        comments,
        vec!["// push constant 1", "// push constant 2", "// add"]
    );
    assert!(out.starts_with("// push constant 1\n@1\nD=A\n"));
    assert!(out.ends_with("M=D+M\n"));
}

#[test]
fn unit_names_lose_their_vm_suffix() {
    let out = translate(vec![unit("Foo.vm", "push static 3")], false).unwrap();
    assert!(out.contains("@Foo.3\n"));
    let out = translate(vec![unit("stdin", "push static 3")], false).unwrap();
    assert!(out.contains("@stdin.3\n"));
}

#[test]
fn statics_of_different_units_do_not_alias() {
    let out = translate(
        vec![unit("A.vm", "pop static 0"), unit("B.vm", "pop static 0")],
        false,
    )
    .unwrap();
    assert!(out.contains("@A.0\n"));
    assert!(out.contains("@B.0\n"));
}

#[test]
fn label_ids_stay_unique_across_units() {
    let out = translate(
        vec![unit("A.vm", "eq\ncall f 0"), unit("B.vm", "lt")],
        true,
    )
    .unwrap();
    for id in 1..=4 {
        let defined = out.matches(&format!("(TRUE.{})", id)).count()
            + out.matches(&format!("(__RET_{})", id)).count();
        assert_eq!(defined, 1, "id {}", id);
    }
    assert!(out.contains("(__RET_1)"));
    assert!(out.contains("(TRUE.2)"));
    assert!(out.contains("(__RET_3)"));
    assert!(out.contains("(TRUE.4)"));
}

#[test]
fn bootstrap_comes_first() {
    let out = translate(vec![unit("Sys.vm", "function Sys.init 0\nreturn")], true).unwrap();
    assert!(out.starts_with("@256\nD=A\n@SP\nM=D\n@__RET_1\n"));
    assert!(out.contains("(__RET_1)\n// function Sys.init 0\n(Sys.init)\n"));
}

#[test]
fn first_parse_error_ends_the_run() {
    let r = translate(
        vec![unit("A.vm", "push constant 1\nfrobnicate\n"), unit("B.vm", "add")],
        false,
    );
    let e = r.unwrap_err();
    assert!(e.ends_with("frobnicate"));
}

#[test]
fn unterminated_block_comment_swallows_the_rest() {
    let out = translate(vec![unit("A.vm", "add\n/* open\nsub\nneg")], false).unwrap();
    assert_eq!(out, "// add\n@SP\nAM=M-1\nD=M\nA=A-1\nM=D+M\n");
}

#[test]
fn function_label_scope_across_lines() {
    let out = translate(
        vec![unit("Foo.vm", "function Foo.bar 2\nlabel LOOP\ngoto LOOP\nreturn\nlabel END")],
        false,
    )
    .unwrap();
    assert!(out.contains("(Foo.bar)\nD=0\n"));
    assert!(out.contains("(Foo.bar$LOOP)"));
    assert!(out.contains("@Foo.bar$LOOP\n0;JMP"));
    assert!(out.contains("(Foo$END)"));
}

#[test]
fn segment_bounds_are_enforced() {
    assert!(parse("push temp 7").is_ok());
    assert!(parse("push temp 8").is_err());
    assert!(parse("pop temp 7").is_ok());
    assert!(parse("pop temp 8").is_err());
    assert!(parse("push pointer 1").is_ok());
    assert!(parse("push pointer 2").is_err());
    assert!(parse("push static 239").is_ok());
    assert!(parse("push static 240").is_err());
    assert!(parse("push constant 32767").is_ok());
    assert!(parse("push constant 32768").is_err());
    assert!(parse("push constant 99999999999").is_err());
    assert!(parse("push constant +5").is_ok());
    assert!(parse("push constant -5").is_err());
    assert!(parse("push constant +").is_err());
}

#[test]
fn pop_constant_is_refused() {
    let e = parse("pop constant 3").unwrap_err();
    assert!(e.ends_with("pop constant 3"));
}

#[test]
fn arity_is_checked() {
    assert!(parse("add 1").is_err());
    assert!(parse("label").is_err());
    assert!(parse("label a b").is_err());
    assert!(parse("function f").is_err());
    assert!(parse("call f 32768").is_err());
    assert!(parse("call f x").is_err());
    assert_eq!(
        parse("function Foo.bar 2"),
        Ok(stack_vm::command::Command::Function("Foo.bar".to_string(), 2))
    );
    assert_eq!(
        parse("if-goto END"),
        Ok(stack_vm::command::Command::IfGoto("END".to_string()))
    );
}

#[test]
fn case_is_preserved() {
    assert!(parse("ADD").is_err());
    assert_eq!(
        parse("goto Loop"),
        Ok(stack_vm::command::Command::Goto("Loop".to_string()))
    );
}

#[test]
fn first_comment_opener_wins() {
    let mut p = stack_vm::parser::Parser::new("");
    assert_eq!(p.clean("a /* b // c */ d"), "a d");
    assert!(!p.in_multiline_comment);
    assert_eq!(p.clean("a // b /* c"), "a");
    assert!(!p.in_multiline_comment);
    let out = translate(
        vec![unit("A.vm", "push constant 1 /* x // y */\nadd\n")],
        false,
    )
    .unwrap();
    assert!(out.contains("// add\n"));
}

#[test]
fn parse_errors_quote_the_cleaned_line() {
    let mut p = stack_vm::parser::Parser::new("add\n  push  bogus 3  // note\n");
    assert_eq!(p.next(), Some(Ok(stack_vm::command::Command::Add)));
    let e = p.next().unwrap().unwrap_err();
    assert!(e.ends_with("push  bogus 3"));
    assert_eq!(p.next(), None);
    let e = translate(vec![unit("A.vm", "add\n  pop constant 1 // c\n")], false).unwrap_err();
    assert!(e.ends_with("pop constant 1"));
}
