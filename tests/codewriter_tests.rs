use stack_vm::codewriter::CodeWriter;
use stack_vm::command::{Command, MemorySegment};

const PUSH_D: &str = "@SP\nA=M\nM=D\n@SP\nM=M+1";

#[test]
fn push_constant_loads_the_literal() {
    let w = CodeWriter::new();
    assert_eq!(
        w.write_push(&MemorySegment::Constant, 7),
        format!("@7\nD=A\n{}", PUSH_D)
    );
}

#[test]
fn push_local_goes_through_the_pointer_cell() {
    let w = CodeWriter::new();
    assert_eq!(
        w.write_push(&MemorySegment::Local, 3),
        format!("@LCL\nA=M\nD=A\n@3\nA=D+A\nD=M\n{}", PUSH_D)
    );
}

#[test]
fn push_temp_and_pointer_use_fixed_bases() {
    let w = CodeWriter::new();
    assert_eq!(
        w.write_push(&MemorySegment::Temp, 2),
        format!("@5\nD=A\n@2\nA=D+A\nD=M\n{}", PUSH_D)
    );
    assert_eq!(
        w.write_push(&MemorySegment::Pointer, 1),
        format!("@3\nD=A\n@1\nA=D+A\nD=M\n{}", PUSH_D)
    );
}

#[test]
fn static_symbols_carry_the_unit_name() {
    let mut w = CodeWriter::new();
    w.set_file_context("Foo".to_string());
    assert_eq!(
        w.write_push(&MemorySegment::Static, 4),
        format!("@Foo.4\nD=M\n{}", PUSH_D)
    );
    assert_eq!(
        w.write_pop(&MemorySegment::Static, 4),
        "D=0\n@Foo.4\nD=D+A\n@R13\nM=D\n@SP\nAM=M-1\nD=M\n@R13\nA=M\nM=D"
    );
    w.set_file_context("Bar".to_string());
    assert!(w.write_push(&MemorySegment::Static, 4).starts_with("@Bar.4\n"));
}

#[test]
fn pop_argument_stashes_the_address_in_r13() {
    let w = CodeWriter::new();
    assert_eq!(
        w.write_pop(&MemorySegment::Argument, 2),
        "@ARG\nA=M\nD=A\n@2\nD=D+A\n@R13\nM=D\n@SP\nAM=M-1\nD=M\n@R13\nA=M\nM=D"
    );
}

#[test]
fn arithmetic_uses_the_prologues() {
    let w = CodeWriter::new();
    assert_eq!(w.write_add(), "@SP\nAM=M-1\nD=M\nA=A-1\nM=D+M");
    assert_eq!(w.write_sub(), "@SP\nAM=M-1\nD=M\nA=A-1\nM=M-D");
    assert_eq!(w.write_and(), "@SP\nAM=M-1\nD=M\nA=A-1\nM=D&M");
    assert_eq!(w.write_or(), "@SP\nAM=M-1\nD=M\nA=A-1\nM=D|M");
    assert_eq!(w.write_neg(), "@SP\nA=M-1\nD=M\nM=-D");
    assert_eq!(w.write_not(), "@SP\nA=M-1\nD=M\nM=!D");
}

#[test]
fn comparisons_mint_fresh_labels() {
    let mut w = CodeWriter::new();
    let first = w.write_eq();
    assert_eq!(
        first,
        "@SP\nAM=M-1\nD=M\nA=A-1\nD=M-D\n@TRUE.1\nD;JEQ\nD=0\n@OUT.1\n0;JMP\n(TRUE.1)\nD=-1\n(OUT.1)\n@SP\nA=M-1\nM=D"
    );
    let second = w.write_gt();
    assert!(second.contains("(TRUE.2)") && second.contains("(OUT.2)") && second.contains("D;JGT"));
    let third = w.write_lt();
    assert!(third.contains("(TRUE.3)") && third.contains("D;JLT"));
    let call = w.write_call("f", 0);
    assert!(call.ends_with("(__RET_4)"));
}

#[test]
fn labels_are_scoped_by_function_then_unit() {
    let mut w = CodeWriter::new();
    w.set_file_context("Main".to_string());
    assert_eq!(w.write_label("LOOP"), "(Main$LOOP)");
    assert_eq!(w.write_goto("LOOP"), "@Main$LOOP\n0;JMP");
    w.write_function("Main.f", 0);
    assert_eq!(w.write_label("LOOP"), "(Main.f$LOOP)");
    assert_eq!(
        w.write_ifgoto("END"),
        "@SP\nAM=M-1\nD=M\n@Main.f$END\nD;JNE"
    );
    w.write_return();
    assert_eq!(w.write_label("AFTER"), "(Main$AFTER)");
}

#[test]
fn function_entry_zeroes_its_locals() {
    let mut w = CodeWriter::new();
    let text = w.write_function("Foo.bar", 2);
    assert_eq!(
        text,
        format!("(Foo.bar)\nD=0\n{}\nD=0\n{}", PUSH_D, PUSH_D)
    );
    assert_eq!(w.write_label("LOOP"), "(Foo.bar$LOOP)");
    let mut w = CodeWriter::new();
    assert_eq!(w.write_function("g", 0), "(g)");
}

#[test]
fn call_saves_the_frame() {
    let mut w = CodeWriter::new();
    let text = w.write_call("Math.max", 2);
    let expected = [
        "@__RET_1\nD=A",
        PUSH_D,
        "@LCL\nD=M",
        PUSH_D,
        "@ARG\nD=M",
        PUSH_D,
        "@THIS\nD=M",
        PUSH_D,
        "@THAT\nD=M",
        PUSH_D,
        "@7\nD=A\n@SP\nD=M-D\n@ARG\nM=D\n@SP\nD=M\n@LCL\nM=D\n@Math.max\n0;JMP\n(__RET_1)",
    ]
    .join("\n");
    assert_eq!(text, expected);
}

#[test]
fn return_restores_the_frame() {
    let mut w = CodeWriter::new();
    let expected = "@LCL\nD=M\n@R14\nM=D\n@5\nA=D-A\nD=M\n@R15\nM=D\n@SP\nAM=M-1\nD=M\n@ARG\nA=M\nM=D\nD=A+1\n@SP\nM=D\n\
@R14\nD=M\n@1\nA=D-A\nD=M\n@THAT\nM=D\n\
@R14\nD=M\n@2\nA=D-A\nD=M\n@THIS\nM=D\n\
@R14\nD=M\n@3\nA=D-A\nD=M\n@ARG\nM=D\n\
@R14\nD=M\n@4\nA=D-A\nD=M\n@LCL\nM=D\n\
@R15\nA=M\n0;JMP";
    assert_eq!(w.write_return(), expected);
}

#[test]
fn bootstrap_sets_sp_and_calls_sys_init() {
    let mut w = CodeWriter::new();
    let text = w.write_bootstrap();
    assert!(text.starts_with("@256\nD=A\n@SP\nM=D\n@__RET_1\nD=A\n"));
    assert!(text.contains("@Sys.init\n0;JMP\n(__RET_1)"));
    assert!(w.write_eq().contains("TRUE.2"));
}

#[test]
fn write_prefixes_the_surface_form() {
    let mut w = CodeWriter::new();
    w.set_file_context("Unit".to_string());
    assert_eq!(
        w.write(&Command::Push(MemorySegment::Constant, 10)),
        format!("// push constant 10\n@10\nD=A\n{}", PUSH_D)
    );
    assert_eq!(
        w.write(&Command::Label("X".to_string())),
        "// label X\n(Unit$X)"
    );
    assert_eq!(
        w.write(&Command::Function("Unit.f".to_string(), 1)),
        format!("// function Unit.f 1\n(Unit.f)\nD=0\n{}", PUSH_D)
    );
}

#[test]
fn surface_forms_round_trip_through_the_parser() {
    let commands = vec![
        Command::Add,
        Command::Eq,
        Command::Push(MemorySegment::Static, 239),
        Command::Pop(MemorySegment::Temp, 7),
        Command::IfGoto("L".to_string()),
        Command::Call("F.g".to_string(), 3),
        Command::Return,
    ];
    for c in commands {
        assert_eq!(stack_vm::parser::parse(&c.to_text()), Ok(c));
    }
}
