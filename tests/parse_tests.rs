use stack_vm::command::{Command, MemorySegment};
use stack_vm::parser::parse;

#[test]
fn test_parse_arithmetic() {
    assert_eq!(parse("add"), Ok(Command::Add));
    assert_eq!(parse("sub"), Ok(Command::Sub));
    assert_eq!(parse("neg"), Ok(Command::Neg));
}

#[test]
fn test_parse_comparison() {
    assert_eq!(parse("eq"), Ok(Command::Eq));
    assert_eq!(parse("gt"), Ok(Command::Gt));
    assert_eq!(parse("lt"), Ok(Command::Lt));
}

#[test]
fn test_parse_logical() {
    assert_eq!(parse("and"), Ok(Command::And));
    assert_eq!(parse("or"), Ok(Command::Or));
    assert_eq!(parse("not"), Ok(Command::Not));
}

#[test]
fn test_parse_push_constant() {
    assert_eq!(
        parse("push constant 42"),
        Ok(Command::Push(MemorySegment::Constant, 42))
    );
    assert_eq!(
        parse("push constant 0"),
        Ok(Command::Push(MemorySegment::Constant, 0))
    );
    assert_eq!(
        parse("push constant 9999"),
        Ok(Command::Push(MemorySegment::Constant, 9999))
    );
}

#[test]
fn test_parse_push_general() {
    assert_eq!(
        parse("push local 4"),
        Ok(Command::Push(MemorySegment::Local, 4))
    );
    assert_eq!(
        parse("push argument 0"),
        Ok(Command::Push(MemorySegment::Argument, 0))
    );
    assert_eq!(
        parse("push this 9999"),
        Ok(Command::Push(MemorySegment::This, 9999))
    );
    assert_eq!(
        parse("push that 37"),
        Ok(Command::Push(MemorySegment::That, 37))
    );
    assert_eq!(
        parse("push temp 5"),
        Ok(Command::Push(MemorySegment::Temp, 5))
    );
}

#[test]
fn test_parse_pop() {
    assert_eq!(
        parse("pop local 4"),
        Ok(Command::Pop(MemorySegment::Local, 4))
    );
    assert_eq!(
        parse("pop argument 0"),
        Ok(Command::Pop(MemorySegment::Argument, 0))
    );
    assert_eq!(
        parse("pop this 9999"),
        Ok(Command::Pop(MemorySegment::This, 9999))
    );
    assert_eq!(
        parse("pop that 37"),
        Ok(Command::Pop(MemorySegment::That, 37))
    );
    assert_eq!(
        parse("pop temp 5"),
        Ok(Command::Pop(MemorySegment::Temp, 5))
    );
}

#[test]
fn test_parse_errors() {
    assert!(parse("").is_err());

    assert!(parse("push constant 0 extra stuff").is_err());

    assert!(parse("invalid_command").is_err());

    assert!(parse("push invalid_segment 59").is_err());

    assert!(parse("push constant abc").is_err());

    assert!(parse("push").is_err());
    assert!(parse("push constant").is_err());
}

#[test]
fn test_parse_with_extra_whitespace() {
    assert_eq!(parse("  add  "), Ok(Command::Add));
    assert_eq!(
        parse("push   constant   117"),
        Ok(Command::Push(MemorySegment::Constant, 117))
    );
}
