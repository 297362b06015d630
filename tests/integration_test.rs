use std::io;

use stack_vm::translator::translate;

#[test]
fn test() -> io::Result<()> {
    Ok(())
}

#[test]
fn empty_input_translates_to_nothing() {
    assert_eq!(translate(Vec::new(), false), Ok(String::new()));
}
