//! A model of the Hack machine running the emitted assembly.
use vstd::prelude::*;
use crate::codewriter::{
    base_address_text, binary_prologue_text, bootstrap_text, call_text, comparison_text, function_text, push_segment_text, repeat,
    restore_segment_text, return_text, pop_text, pop_to_r13_text, push_d_text, push_text,
    static_symbol,
};
use crate::codewriter::lemma_static_symbols_do_not_alias;
use crate::codewriter::{WriterState, assembly, fragment, scope, unary_prologue_text, writable};
use crate::command::{MemorySegment, VmCommand, segment_name, surface};
use crate::text::{dec, digit_char};

verus! {

/// The destinations of a computation.
pub enum Dest {
    A,
    D,
    M,
    AM,
}

/// The computations the generator uses.
pub enum Comp {
    Zero,
    MinusOne,
    A,
    D,
    M,
    NotD,
    NegD,
    APlus1,
    MPlus1,
    AMinus1,
    MMinus1,
    DPlusA,
    DPlusM,
    DMinusA,
    MMinusD,
    DAndM,
    DOrM,
}

/// Jump conditions on a computed value.
pub enum Cond {
    Eq,
    Gt,
    Lt,
    Ne,
    Always,
}

/// One line of Hack assembly.
pub enum Instr {
    /// `@n`
    Num(nat),
    /// `@symbol`
    Sym(Seq<char>),
    /// `dest=comp`
    Assign(Dest, Comp),
    /// `comp;jump`
    Jump(Comp, Cond),
    /// `(label)`
    Define(Seq<char>),
}

pub open spec fn dest_text(d: Dest) -> Seq<char> {
    match d {
        Dest::A => "A"@,
        Dest::D => "D"@,
        Dest::M => "M"@,
        Dest::AM => "AM"@,
    }
}

pub open spec fn comp_text(c: Comp) -> Seq<char> {
    match c {
        Comp::Zero => "0"@,
        Comp::MinusOne => "-1"@,
        Comp::A => "A"@,
        Comp::D => "D"@,
        Comp::M => "M"@,
        Comp::NotD => "!D"@,
        Comp::NegD => "-D"@,
        Comp::APlus1 => "A+1"@,
        Comp::MPlus1 => "M+1"@,
        Comp::AMinus1 => "A-1"@,
        Comp::MMinus1 => "M-1"@,
        Comp::DPlusA => "D+A"@,
        Comp::DPlusM => "D+M"@,
        Comp::DMinusA => "D-A"@,
        Comp::MMinusD => "M-D"@,
        Comp::DAndM => "D&M"@,
        Comp::DOrM => "D|M"@,
    }
}

pub open spec fn cond_text(c: Cond) -> Seq<char> {
    match c {
        Cond::Eq => "JEQ"@,
        Cond::Gt => "JGT"@,
        Cond::Lt => "JLT"@,
        Cond::Ne => "JNE"@,
        Cond::Always => "JMP"@,
    }
}

/// The text of one instruction.
pub open spec fn render(i: Instr) -> Seq<char> {
    match i {
        Instr::Num(n) => "@"@ + dec(n),
        Instr::Sym(s) => "@"@ + s,
        Instr::Assign(d, c) => dest_text(d) + "="@ + comp_text(c),
        Instr::Jump(c, j) => comp_text(c) + ";"@ + cond_text(j),
        Instr::Define(l) => "("@ + l + ")"@,
    }
}

/// The text of a program: its instructions, one per line.
#[verifier::opaque]
pub open spec fn join(p: Seq<Instr>) -> Seq<char>
    decreases p.len(),
{
    if p.len() == 0 {
        Seq::empty()
    } else if p.len() == 1 {
        render(p[0])
    } else {
        render(p[0]) + "\n"@ + join(p.drop_first())
    }
}

pub proof fn lemma_join_append(a: Seq<Instr>, b: Seq<Instr>)
    requires
        a.len() > 0,
        b.len() > 0,
    ensures
        join(a + b) == join(a) + "\n"@ + join(b),
    decreases a.len(),
{
    reveal(join);
    if a.len() == 1 {
        assert((a + b).drop_first() =~= b);
    } else {
        assert((a + b).drop_first() =~= a.drop_first() + b);
        lemma_join_append(a.drop_first(), b);
        assert(render(a[0]) + "\n"@ + (join(a.drop_first()) + "\n"@ + join(b))
            =~= render(a[0]) + "\n"@ + join(a.drop_first()) + "\n"@ + join(b));
    }
}

pub open spec fn push_d_code() -> Seq<Instr> {
    seq![
        Instr::Sym("SP"@),
        Instr::Assign(Dest::A, Comp::M),
        Instr::Assign(Dest::M, Comp::D),
        Instr::Sym("SP"@),
        Instr::Assign(Dest::M, Comp::MPlus1),
    ]
}

pub proof fn lemma_push_d_text()
    ensures
        push_d_text() == join(push_d_code()),
{
    reveal_with_fuel(join, 6);
    reveal_strlit("@SP\nA=M\nM=D\n@SP\nM=M+1");
    reveal_strlit("@");
    reveal_strlit("SP");
    reveal_strlit("\n");
    reveal_strlit("A");
    reveal_strlit("M");
    reveal_strlit("D");
    reveal_strlit("=");
    reveal_strlit("M+1");
    assert(push_d_text() =~= join(push_d_code()));
}


pub open spec fn binary_prologue_code() -> Seq<Instr> {
    seq![
        Instr::Sym("SP"@),
        Instr::Assign(Dest::AM, Comp::MMinus1),
        Instr::Assign(Dest::D, Comp::M),
        Instr::Assign(Dest::A, Comp::AMinus1),
    ]
}

pub open spec fn pop_to_r13_code() -> Seq<Instr> {
    seq![
        Instr::Assign(Dest::D, Comp::DPlusA),
        Instr::Sym("R13"@),
        Instr::Assign(Dest::M, Comp::D),
        Instr::Sym("SP"@),
        Instr::Assign(Dest::AM, Comp::MMinus1),
        Instr::Assign(Dest::D, Comp::M),
        Instr::Sym("R13"@),
        Instr::Assign(Dest::A, Comp::M),
        Instr::Assign(Dest::M, Comp::D),
    ]
}

pub open spec fn base_address_code(s: MemorySegment) -> Seq<Instr> {
    match s {
        MemorySegment::Local => seq![Instr::Sym("LCL"@), Instr::Assign(Dest::A, Comp::M)],
        MemorySegment::Argument => seq![Instr::Sym("ARG"@), Instr::Assign(Dest::A, Comp::M)],
        MemorySegment::This => seq![Instr::Sym("THIS"@), Instr::Assign(Dest::A, Comp::M)],
        MemorySegment::That => seq![Instr::Sym("THAT"@), Instr::Assign(Dest::A, Comp::M)],
        MemorySegment::Temp => seq![Instr::Num(5)],
        _ => seq![Instr::Num(3)],
    }
}

pub open spec fn push_code(file: Seq<char>, s: MemorySegment, i: nat) -> Seq<Instr> {
    match s {
        MemorySegment::Constant => seq![Instr::Num(i), Instr::Assign(Dest::D, Comp::A)] + push_d_code(),
        MemorySegment::Static => seq![Instr::Sym(static_symbol(file, i)), Instr::Assign(Dest::D, Comp::M)]
            + push_d_code(),
        _ => base_address_code(s) + seq![
            Instr::Assign(Dest::D, Comp::A),
            Instr::Num(i),
            Instr::Assign(Dest::A, Comp::DPlusA),
            Instr::Assign(Dest::D, Comp::M),
        ] + push_d_code(),
    }
}

pub open spec fn pop_code(file: Seq<char>, s: MemorySegment, i: nat) -> Seq<Instr> {
    match s {
        MemorySegment::Static => seq![Instr::Assign(Dest::D, Comp::Zero), Instr::Sym(static_symbol(file, i))]
            + pop_to_r13_code(),
        _ => base_address_code(s) + seq![Instr::Assign(Dest::D, Comp::A), Instr::Num(i)] + pop_to_r13_code(),
    }
}

pub proof fn lemma_binary_prologue_text()
    ensures
        binary_prologue_text() == join(binary_prologue_code()),
{
    reveal_with_fuel(join, 5);
    reveal_strlit("@SP\nAM=M-1\nD=M\nA=A-1");
    reveal_strlit("@");
    reveal_strlit("SP");
    reveal_strlit("\n");
    reveal_strlit("AM");
    reveal_strlit("A");
    reveal_strlit("M");
    reveal_strlit("D");
    reveal_strlit("=");
    reveal_strlit("M-1");
    reveal_strlit("A-1");
    assert(binary_prologue_text() =~= join(binary_prologue_code()));
}

pub proof fn lemma_pop_to_r13_text()
    ensures
        pop_to_r13_text() == join(pop_to_r13_code()),
{
    reveal_with_fuel(join, 10);
    reveal_strlit("D=D+A\n@R13\nM=D\n@SP\nAM=M-1\nD=M\n@R13\nA=M\nM=D");
    reveal_strlit("@");
    reveal_strlit("SP");
    reveal_strlit("R13");
    reveal_strlit("\n");
    reveal_strlit("AM");
    reveal_strlit("A");
    reveal_strlit("M");
    reveal_strlit("D");
    reveal_strlit("=");
    reveal_strlit("M-1");
    reveal_strlit("D+A");
    assert(pop_to_r13_text() =~= join(pop_to_r13_code()));
}

pub proof fn lemma_base_address_text(s: MemorySegment)
    requires
        s != MemorySegment::Constant,
        s != MemorySegment::Static,
    ensures
        base_address_text(s) == join(base_address_code(s)),
{
    reveal_with_fuel(join, 3);
    reveal_strlit("@LCL\nA=M");
    reveal_strlit("@ARG\nA=M");
    reveal_strlit("@THIS\nA=M");
    reveal_strlit("@THAT\nA=M");
    reveal_strlit("@5");
    reveal_strlit("@3");
    reveal_strlit("@");
    reveal_strlit("LCL");
    reveal_strlit("ARG");
    reveal_strlit("THIS");
    reveal_strlit("THAT");
    reveal_strlit("\n");
    reveal_strlit("A");
    reveal_strlit("M");
    reveal_strlit("=");
    reveal_strlit("5");
    reveal_strlit("3");
    assert(dec(5) =~= seq!['5']);
    assert(dec(3) =~= seq!['3']);
    assert(base_address_text(s) =~= join(base_address_code(s)));
}

proof fn lemma_join_two(a: Instr, b: Instr)
    ensures
        join(seq![a, b]) == render(a) + "\n"@ + render(b),
{
    reveal_with_fuel(join, 2);
    assert(seq![a, b].drop_first() =~= seq![b]);
}

proof fn lemma_push_constant_text(file: Seq<char>, i: nat)
    ensures
        push_text(file, MemorySegment::Constant, i) == join(push_code(file, MemorySegment::Constant, i)),
{
    let s = MemorySegment::Constant;
    lemma_push_d_text();
    let head = seq![Instr::Num(i), Instr::Assign(Dest::D, Comp::A)];
    lemma_join_append(head, push_d_code());
    lemma_join_two(Instr::Num(i), Instr::Assign(Dest::D, Comp::A));
    assert("\nD=A\n"@ =~= "\n"@ + (dest_text(Dest::D) + "="@ + comp_text(Comp::A)) + "\n"@) by {
        reveal_strlit("\nD=A\n");
        reveal_strlit("\n");
        reveal_strlit("D");
        reveal_strlit("=");
        reveal_strlit("A");
    }
    assert(push_text(file, s, i) =~= join(head) + "\n"@ + join(push_d_code()));
}

proof fn lemma_push_static_text(file: Seq<char>, i: nat)
    ensures
        push_text(file, MemorySegment::Static, i) == join(push_code(file, MemorySegment::Static, i)),
{
    let s = MemorySegment::Static;
    lemma_push_d_text();
    let head = seq![Instr::Sym(static_symbol(file, i)), Instr::Assign(Dest::D, Comp::M)];
    lemma_join_append(head, push_d_code());
    lemma_join_two(Instr::Sym(static_symbol(file, i)), Instr::Assign(Dest::D, Comp::M));
    assert("\nD=M\n"@ =~= "\n"@ + (dest_text(Dest::D) + "="@ + comp_text(Comp::M)) + "\n"@) by {
        reveal_strlit("\nD=M\n");
        reveal_strlit("\n");
        reveal_strlit("D");
        reveal_strlit("=");
        reveal_strlit("M");
    }
    assert(push_text(file, s, i) =~= join(head) + "\n"@ + join(push_d_code()));
}

pub open spec fn indexed_read_code(i: nat) -> Seq<Instr> {
    seq![
        Instr::Assign(Dest::D, Comp::A),
        Instr::Num(i),
        Instr::Assign(Dest::A, Comp::DPlusA),
        Instr::Assign(Dest::D, Comp::M),
    ]
}

proof fn lemma_indexed_read_text(i: nat)
    ensures
        join(indexed_read_code(i)) == "D=A\n@"@ + dec(i) + "\nA=D+A\nD=M"@,
{
    reveal_with_fuel(join, 4);
    reveal_strlit("D=A\n@");
    reveal_strlit("\nA=D+A\nD=M");
    reveal_strlit("@");
    reveal_strlit("\n");
    reveal_strlit("A");
    reveal_strlit("M");
    reveal_strlit("D");
    reveal_strlit("=");
    reveal_strlit("D+A");
    assert(join(indexed_read_code(i)) =~= "D=A\n@"@ + dec(i) + "\nA=D+A\nD=M"@);
}

proof fn lemma_push_indexed_glue()
    ensures
        "\nD=A\n@"@ == "\n"@ + "D=A\n@"@,
        "\nA=D+A\nD=M\n"@ == "\nA=D+A\nD=M"@ + "\n"@,
{
    reveal_strlit("\nD=A\n@");
    reveal_strlit("D=A\n@");
    reveal_strlit("\nA=D+A\nD=M\n");
    reveal_strlit("\nA=D+A\nD=M");
    reveal_strlit("\n");
    assert("\nD=A\n@"@ =~= "\n"@ + "D=A\n@"@);
    assert("\nA=D+A\nD=M\n"@ =~= "\nA=D+A\nD=M"@ + "\n"@);
}

proof fn lemma_push_indexed_shape(
    b: Seq<char>, g1: Seq<char>, nl: Seq<char>, g2: Seq<char>, k: Seq<char>, g3: Seq<char>, g4: Seq<char>,
    pd: Seq<char>,
)
    requires
        g1 == nl + g2,
        g3 == g4 + nl,
    ensures
        b + g1 + k + g3 + pd == b + nl + (g2 + k + g4) + nl + pd,
{
    assert(b + g1 + k + g3 + pd =~= b + nl + (g2 + k + g4) + nl + pd);
}

proof fn lemma_push_indexed_text(file: Seq<char>, s: MemorySegment, i: nat)
    requires
        s != MemorySegment::Constant,
        s != MemorySegment::Static,
    ensures
        push_text(file, s, i) == join(push_code(file, s, i)),
{
    lemma_push_d_text();
    let mid = indexed_read_code(i);
    lemma_base_address_text(s);
    lemma_join_append(base_address_code(s), mid);
    lemma_join_append(base_address_code(s) + mid, push_d_code());
    lemma_indexed_read_text(i);
    lemma_push_indexed_glue();
    lemma_push_indexed_shape(
        base_address_text(s), "\nD=A\n@"@, "\n"@, "D=A\n@"@, dec(i), "\nA=D+A\nD=M\n"@, "\nA=D+A\nD=M"@,
        push_d_text(),
    );
    assert(push_code(file, s, i) == base_address_code(s) + mid + push_d_code());
}

/// The text of each `push` is the rendering of its instructions.
pub proof fn lemma_push_text(file: Seq<char>, s: MemorySegment, i: nat)
    ensures
        push_text(file, s, i) == join(push_code(file, s, i)),
{
    match s {
        MemorySegment::Constant => lemma_push_constant_text(file, i),
        MemorySegment::Static => lemma_push_static_text(file, i),
        _ => lemma_push_indexed_text(file, s, i),
    }
}

proof fn lemma_pop_static_text(file: Seq<char>, i: nat)
    ensures
        pop_text(file, MemorySegment::Static, i) == join(pop_code(file, MemorySegment::Static, i)),
{
    lemma_pop_to_r13_text();
    let head = seq![Instr::Assign(Dest::D, Comp::Zero), Instr::Sym(static_symbol(file, i))];
    lemma_join_append(head, pop_to_r13_code());
    lemma_join_two(head[0], head[1]);
    assert("D=0\n@"@ =~= dest_text(Dest::D) + "="@ + comp_text(Comp::Zero) + "\n"@ + "@"@) by {
        reveal_strlit("D=0\n@");
        reveal_strlit("@");
        reveal_strlit("\n");
        reveal_strlit("D");
        reveal_strlit("=");
        reveal_strlit("0");
    }
    assert(pop_text(file, MemorySegment::Static, i) =~= join(head) + "\n"@ + join(pop_to_r13_code()));
}

proof fn lemma_pop_indexed_text(file: Seq<char>, s: MemorySegment, i: nat)
    requires
        s != MemorySegment::Constant,
        s != MemorySegment::Static,
    ensures
        pop_text(file, s, i) == join(pop_code(file, s, i)),
{
    lemma_pop_to_r13_text();
    let mid = seq![Instr::Assign(Dest::D, Comp::A), Instr::Num(i)];
    lemma_base_address_text(s);
    lemma_join_append(base_address_code(s), mid);
    lemma_join_append(base_address_code(s) + mid, pop_to_r13_code());
    lemma_join_two(mid[0], mid[1]);
    assert("\nD=A\n@"@ =~= "\n"@ + (dest_text(Dest::D) + "="@ + comp_text(Comp::A) + "\n"@ + "@"@)) by {
        reveal_strlit("\nD=A\n@");
        reveal_strlit("@");
        reveal_strlit("\n");
        reveal_strlit("D");
        reveal_strlit("=");
        reveal_strlit("A");
    }
    assert(pop_text(file, s, i) =~= join(base_address_code(s)) + "\n"@ + join(mid) + "\n"@
        + join(pop_to_r13_code()));
}

/// The text of each `pop` is the rendering of its instructions.
pub proof fn lemma_pop_text(file: Seq<char>, s: MemorySegment, i: nat)
    requires
        s != MemorySegment::Constant,
    ensures
        pop_text(file, s, i) == join(pop_code(file, s, i)),
{
    if s == MemorySegment::Static {
        lemma_pop_static_text(file, i);
    } else {
        lemma_pop_indexed_text(file, s, i);
    }
}


// ---------------------------------------------------------------------------
// Running programs.
// ---------------------------------------------------------------------------

/// The registers and memory of the machine. Words are integers in `0..65536`.
pub struct Machine {
    pub a: int,
    pub d: int,
    pub ram: spec_fn(int) -> int,
}

/// A 16-bit word: `x` modulo 2^16.
pub open spec fn word(x: int) -> int {
    x % 65536
}

/// A word read as a two's-complement number.
pub open spec fn signed(v: int) -> int {
    if v >= 32768 { v - 65536 } else { v }
}

pub open spec fn update(ram: spec_fn(int) -> int, addr: int, v: int) -> spec_fn(int) -> int {
    |k: int| if k == addr { v } else { ram(k) }
}

pub open spec fn comp_value(c: Comp, m: Machine) -> int {
    let mv = (m.ram)(m.a);
    match c {
        Comp::Zero => 0,
        Comp::MinusOne => 65535,
        Comp::A => m.a,
        Comp::D => m.d,
        Comp::M => mv,
        Comp::NotD => word(65535 - m.d),
        Comp::NegD => word(-m.d),
        Comp::APlus1 => word(m.a + 1),
        Comp::MPlus1 => word(mv + 1),
        Comp::AMinus1 => word(m.a - 1),
        Comp::MMinus1 => word(mv - 1),
        Comp::DPlusA => word(m.d + m.a),
        Comp::DPlusM => word(m.d + mv),
        Comp::DMinusA => word(m.d - m.a),
        Comp::MMinusD => word(mv - m.d),
        Comp::DAndM => ((m.d as u16) & (mv as u16)) as int,
        Comp::DOrM => ((m.d as u16) | (mv as u16)) as int,
    }
}

/// Whether a jump on the value `v` is taken.
pub open spec fn taken(j: Cond, v: int) -> bool {
    match j {
        Cond::Eq => v == 0,
        Cond::Gt => signed(v) > 0,
        Cond::Lt => signed(v) < 0,
        Cond::Ne => v != 0,
        Cond::Always => true,
    }
}

/// The machine after one instruction that does not jump. `syms` gives each
/// symbol the address that the assembler resolves it to.
pub open spec fn step(i: Instr, m: Machine, syms: spec_fn(Seq<char>) -> int) -> Machine {
    match i {
        Instr::Num(n) => Machine { a: word(n as int), ..m },
        Instr::Sym(s) => Machine { a: word(syms(s)), ..m },
        Instr::Assign(dest, c) => {
            let v = comp_value(c, m);
            match dest {
                Dest::A => Machine { a: v, ..m },
                Dest::D => Machine { d: v, ..m },
                Dest::M => Machine { ram: update(m.ram, m.a, v), ..m },
                Dest::AM => Machine { a: v, d: m.d, ram: update(m.ram, m.a, v) },
            }
        },
        _ => m,
    }
}

/// Where a run of a piece of code ends.
pub enum Outcome {
    /// Control ran past the last instruction.
    Fell(Machine),
    /// Control jumped to the address in `A`, which no later label of the code names.
    Left(Machine),
}

/// The first index at or after `k` where a label with address `addr` is defined.
pub open spec fn label_from(p: Seq<Instr>, k: int, addr: int, syms: spec_fn(Seq<char>) -> int) -> Option<int>
    decreases p.len() - k,
{
    if k < 0 || k >= p.len() {
        None
    } else if p[k] matches Instr::Define(l) && word(syms(l)) == addr {
        Some(k)
    } else {
        label_from(p, k + 1, addr, syms)
    }
}

pub proof fn lemma_label_from(p: Seq<Instr>, k: int, addr: int, syms: spec_fn(Seq<char>) -> int)
    ensures
        label_from(p, k, addr, syms) matches Some(t) ==> k <= t < p.len(),
    decreases p.len() - k,
{
    if !(k < 0 || k >= p.len()) && !(p[k] matches Instr::Define(l) && word(syms(l)) == addr) {
        lemma_label_from(p, k + 1, addr, syms);
    }
}

/// Runs `p` from instruction `pc`. A taken jump continues after the label it
/// names when that label is defined further on, and otherwise leaves the code.
pub open spec fn run(p: Seq<Instr>, pc: int, m: Machine, syms: spec_fn(Seq<char>) -> int) -> Outcome
    decreases p.len() - pc,
{
    if pc < 0 || pc >= p.len() {
        Outcome::Fell(m)
    } else {
        match p[pc] {
            Instr::Jump(c, j) => if taken(j, comp_value(c, m)) {
                match label_from(p, pc + 1, m.a, syms) {
                    Some(t) => {
                        proof {
                            lemma_label_from(p, pc + 1, m.a, syms);
                        }
                        run(p, t + 1, m, syms)
                    },
                    None => Outcome::Left(m),
                }
            } else {
                run(p, pc + 1, m, syms)
            },
            _ => run(p, pc + 1, step(p[pc], m, syms), syms),
        }
    }
}

/// Whether `p` holds no jump.
pub open spec fn straight(p: Seq<Instr>) -> bool {
    forall|k: int| 0 <= k < p.len() ==> !(#[trigger] p[k] is Jump)
}

/// The machine after running straight-line code from instruction `k` on.
pub open spec fn exec_from(p: Seq<Instr>, k: int, m: Machine, syms: spec_fn(Seq<char>) -> int) -> Machine
    decreases p.len() - k,
{
    if k < 0 || k >= p.len() { m } else { exec_from(p, k + 1, step(p[k], m, syms), syms) }
}

pub open spec fn exec(p: Seq<Instr>, m: Machine, syms: spec_fn(Seq<char>) -> int) -> Machine {
    exec_from(p, 0, m, syms)
}

proof fn lemma_label_from_shift(p1: Seq<Instr>, p2: Seq<Instr>, k: int, addr: int, syms: spec_fn(Seq<char>) -> int)
    requires
        0 <= k,
    ensures
        label_from(p1 + p2, p1.len() + k, addr, syms) == match label_from(p2, k, addr, syms) {
            Some(t) => Some(p1.len() + t),
            None => None,
        },
    decreases p2.len() - k,
{
    if k < p2.len() {
        assert((p1 + p2)[p1.len() + k] == p2[k]);
        lemma_label_from_shift(p1, p2, k + 1, addr, syms);
    }
}

/// Code that follows straight-line code runs as if alone.
proof fn lemma_run_after(p1: Seq<Instr>, p2: Seq<Instr>, k: int, m: Machine, syms: spec_fn(Seq<char>) -> int)
    requires
        0 <= k,
    ensures
        run(p1 + p2, p1.len() + k, m, syms) == run(p2, k, m, syms),
    decreases p2.len() - k,
{
    if k < p2.len() {
        assert((p1 + p2)[p1.len() + k] == p2[k]);
        match p2[k] {
            Instr::Jump(c, j) => {
                if taken(j, comp_value(c, m)) {
                    lemma_label_from_shift(p1, p2, k + 1, m.a, syms);
                    lemma_label_from(p2, k + 1, m.a, syms);
                    if let Some(t) = label_from(p2, k + 1, m.a, syms) {
                        lemma_run_after(p1, p2, t + 1, m, syms);
                    }
                } else {
                    lemma_run_after(p1, p2, k + 1, m, syms);
                }
            },
            _ => {
                lemma_run_after(p1, p2, k + 1, step(p2[k], m, syms), syms);
            },
        }
    }
}

proof fn lemma_run_straight_prefix(p1: Seq<Instr>, p2: Seq<Instr>, k: int, m: Machine, syms: spec_fn(Seq<char>) -> int)
    requires
        straight(p1),
        0 <= k <= p1.len(),
    ensures
        run(p1 + p2, k, m, syms) == run(p2, 0, exec_from(p1, k, m, syms), syms),
    decreases p1.len() - k,
{
    if k < p1.len() {
        assert((p1 + p2)[k] == p1[k]);
        assert(!(p1[k] is Jump));
        lemma_run_straight_prefix(p1, p2, k + 1, step(p1[k], m, syms), syms);
    } else {
        lemma_run_after(p1, p2, 0, m, syms);
    }
}

/// Running straight-line code, then more code, is running the second from
/// where the first ends.
pub proof fn lemma_run_seq(p1: Seq<Instr>, p2: Seq<Instr>, m: Machine, syms: spec_fn(Seq<char>) -> int)
    requires
        straight(p1),
    ensures
        run(p1 + p2, 0, m, syms) == run(p2, 0, exec(p1, m, syms), syms),
{
    lemma_run_straight_prefix(p1, p2, 0, m, syms);
}

proof fn lemma_exec_from_append(p1: Seq<Instr>, p2: Seq<Instr>, k: int, m: Machine, syms: spec_fn(Seq<char>) -> int)
    requires
        0 <= k <= p1.len(),
    ensures
        exec_from(p1 + p2, k, m, syms) == exec(p2, exec_from(p1, k, m, syms), syms),
    decreases p1.len() + p2.len() - k,
{
    if k < p1.len() {
        assert((p1 + p2)[k] == p1[k]);
        lemma_exec_from_append(p1, p2, k + 1, step(p1[k], m, syms), syms);
    } else {
        lemma_exec_from_shift(p1, p2, 0, m, syms);
    }
}

proof fn lemma_exec_from_shift(p1: Seq<Instr>, p2: Seq<Instr>, k: int, m: Machine, syms: spec_fn(Seq<char>) -> int)
    requires
        0 <= k,
    ensures
        exec_from(p1 + p2, p1.len() + k, m, syms) == exec_from(p2, k, m, syms),
    decreases p2.len() - k,
{
    if k < p2.len() {
        assert((p1 + p2)[p1.len() + k] == p2[k]);
        lemma_exec_from_shift(p1, p2, k + 1, step(p2[k], m, syms), syms);
    }
}

/// Straight-line code run in two parts.
pub proof fn lemma_exec_append(p1: Seq<Instr>, p2: Seq<Instr>, m: Machine, syms: spec_fn(Seq<char>) -> int)
    ensures
        exec(p1 + p2, m, syms) == exec(p2, exec(p1, m, syms), syms),
{
    lemma_exec_from_append(p1, p2, 0, m, syms);
}

proof fn lemma_run_straight_from(p: Seq<Instr>, k: int, m: Machine, syms: spec_fn(Seq<char>) -> int)
    requires
        straight(p),
        0 <= k,
    ensures
        run(p, k, m, syms) == Outcome::Fell(exec_from(p, k, m, syms)),
    decreases p.len() - k,
{
    if k < p.len() {
        assert(!(p[k] is Jump));
        lemma_run_straight_from(p, k + 1, step(p[k], m, syms), syms);
    }
}

/// Straight-line code falls through to where `exec` says.
pub proof fn lemma_run_straight(p: Seq<Instr>, m: Machine, syms: spec_fn(Seq<char>) -> int)
    requires
        straight(p),
    ensures
        run(p, 0, m, syms) == Outcome::Fell(exec(p, m, syms)),
{
    lemma_run_straight_from(p, 0, m, syms);
}


// ---------------------------------------------------------------------------
// What the emitted code does.
// ---------------------------------------------------------------------------

/// The assembler's predefined symbols.
pub open spec fn standard_symbols(syms: spec_fn(Seq<char>) -> int) -> bool {
    &&& syms("SP"@) == 0
    &&& syms("LCL"@) == 1
    &&& syms("ARG"@) == 2
    &&& syms("THIS"@) == 3
    &&& syms("THAT"@) == 4
    &&& syms("R13"@) == 13
    &&& syms("R14"@) == 14
    &&& syms("R15"@) == 15
}

/// The stack pointer.
pub open spec fn sp(m: Machine) -> int {
    (m.ram)(0)
}

/// A stack pointer in the stack area, above the predefined cells, with room to grow.
pub open spec fn stack_ok(m: Machine) -> bool {
    16 <= sp(m) <= 32767
}

/// The address of `segment[i]` in unit `file` (not for `constant`).
pub open spec fn location(file: Seq<char>, s: MemorySegment, i: nat, m: Machine, syms: spec_fn(Seq<char>) -> int) -> int {
    match s {
        MemorySegment::Local => word((m.ram)(1) + i),
        MemorySegment::Argument => word((m.ram)(2) + i),
        MemorySegment::This => word((m.ram)(3) + i),
        MemorySegment::That => word((m.ram)(4) + i),
        MemorySegment::Temp => word(5 + i as int),
        MemorySegment::Pointer => word(3 + i as int),
        _ => word(syms(static_symbol(file, i))),
    }
}

/// The value that `push segment i` pushes.
pub open spec fn pushed_value(file: Seq<char>, s: MemorySegment, i: nat, m: Machine, syms: spec_fn(Seq<char>) -> int) -> int {
    if s == MemorySegment::Constant { word(i as int) } else { (m.ram)(location(file, s, i, m, syms)) }
}

proof fn lemma_push_d(m: Machine, syms: spec_fn(Seq<char>) -> int)
    requires
        standard_symbols(syms),
        stack_ok(m),
    ensures
        exec(push_d_code(), m, syms).ram =~= update(update(m.ram, sp(m), m.d), 0, sp(m) + 1),
        exec(push_d_code(), m, syms).d == m.d,
{
    reveal_with_fuel(exec_from, 6);
}

proof fn lemma_base_address(s: MemorySegment, m: Machine, syms: spec_fn(Seq<char>) -> int)
    requires
        standard_symbols(syms),
        s != MemorySegment::Constant,
        s != MemorySegment::Static,
    ensures
        exec(base_address_code(s), m, syms).ram == m.ram,
        exec(base_address_code(s), m, syms).a == match s {
            MemorySegment::Local => (m.ram)(1),
            MemorySegment::Argument => (m.ram)(2),
            MemorySegment::This => (m.ram)(3),
            MemorySegment::That => (m.ram)(4),
            MemorySegment::Temp => 5,
            _ => 3,
        },
{
    reveal_with_fuel(exec_from, 3);
}

proof fn lemma_push_constant(file: Seq<char>, i: nat, m: Machine, syms: spec_fn(Seq<char>) -> int)
    requires
        standard_symbols(syms),
        stack_ok(m),
    ensures
        exec(push_code(file, MemorySegment::Constant, i), m, syms).ram
            =~= update(update(m.ram, sp(m), word(i as int)), 0, sp(m) + 1),
{
    let head = seq![Instr::Num(i), Instr::Assign(Dest::D, Comp::A)];
    lemma_exec_append(head, push_d_code(), m, syms);
    let m1 = exec(head, m, syms);
    assert(m1.d == word(i as int) && m1.ram == m.ram) by {
        reveal_with_fuel(exec_from, 3);
    }
    lemma_push_d(m1, syms);
}

proof fn lemma_push_static(file: Seq<char>, i: nat, m: Machine, syms: spec_fn(Seq<char>) -> int)
    requires
        standard_symbols(syms),
        stack_ok(m),
    ensures
        exec(push_code(file, MemorySegment::Static, i), m, syms).ram
            =~= update(update(m.ram, sp(m), pushed_value(file, MemorySegment::Static, i, m, syms)), 0, sp(m) + 1),
{
    let head = seq![Instr::Sym(static_symbol(file, i)), Instr::Assign(Dest::D, Comp::M)];
    lemma_exec_append(head, push_d_code(), m, syms);
    let m1 = exec(head, m, syms);
    assert(m1.d == pushed_value(file, MemorySegment::Static, i, m, syms) && m1.ram == m.ram) by {
        reveal_with_fuel(exec_from, 3);
    }
    lemma_push_d(m1, syms);
}

proof fn lemma_push_indexed(file: Seq<char>, s: MemorySegment, i: nat, m: Machine, syms: spec_fn(Seq<char>) -> int)
    requires
        standard_symbols(syms),
        stack_ok(m),
        s != MemorySegment::Constant,
        s != MemorySegment::Static,
    ensures
        exec(push_code(file, s, i), m, syms).ram
            =~= update(update(m.ram, sp(m), pushed_value(file, s, i, m, syms)), 0, sp(m) + 1),
{
    let mid = seq![
        Instr::Assign(Dest::D, Comp::A),
        Instr::Num(i),
        Instr::Assign(Dest::A, Comp::DPlusA),
        Instr::Assign(Dest::D, Comp::M),
    ];
    lemma_exec_append(base_address_code(s), mid, m, syms);
    lemma_exec_append(base_address_code(s) + mid, push_d_code(), m, syms);
    lemma_base_address(s, m, syms);
    let m0 = exec(base_address_code(s), m, syms);
    lemma_indexed_read(i, m0, syms);
    lemma_push_d(exec(mid, m0, syms), syms);
}

proof fn lemma_indexed_read(i: nat, m: Machine, syms: spec_fn(Seq<char>) -> int)
    ensures
        ({
            let m1 = exec(
                seq![
                    Instr::Assign(Dest::D, Comp::A),
                    Instr::Num(i),
                    Instr::Assign(Dest::A, Comp::DPlusA),
                    Instr::Assign(Dest::D, Comp::M),
                ],
                m,
                syms,
            );
            m1.d == (m.ram)(word(m.a + word(i as int))) && m1.ram == m.ram
        }),
{
    reveal_with_fuel(exec_from, 5);
}

/// `push segment i` stores the pushed value at `*SP` and increments `SP`;
/// nothing else in memory changes.
pub proof fn lemma_push(file: Seq<char>, s: MemorySegment, i: nat, m: Machine, syms: spec_fn(Seq<char>) -> int)
    requires
        standard_symbols(syms),
        stack_ok(m),
    ensures
        exec(push_code(file, s, i), m, syms).ram
            =~= update(update(m.ram, sp(m), pushed_value(file, s, i, m, syms)), 0, sp(m) + 1),
{
    match s {
        MemorySegment::Constant => lemma_push_constant(file, i, m, syms),
        MemorySegment::Static => lemma_push_static(file, i, m, syms),
        _ => lemma_push_indexed(file, s, i, m, syms),
    }
}


proof fn lemma_pop_to_r13(m: Machine, syms: spec_fn(Seq<char>) -> int)
    requires
        standard_symbols(syms),
        stack_ok(m),
    ensures
        exec(pop_to_r13_code(), m, syms).ram =~= update(
            update(update(m.ram, 13, word(m.d + m.a)), 0, sp(m) - 1),
            word(m.d + m.a),
            (m.ram)(sp(m) - 1),
        ),
{
    reveal_with_fuel(exec_from, 10);
}

/// `pop segment i` moves the top of the stack to the segment's location and
/// decrements `SP`; besides, only the scratch cell `R13` changes.
pub proof fn lemma_pop(file: Seq<char>, s: MemorySegment, i: nat, m: Machine, syms: spec_fn(Seq<char>) -> int)
    requires
        standard_symbols(syms),
        stack_ok(m),
        s != MemorySegment::Constant,
    ensures
        exec(pop_code(file, s, i), m, syms).ram =~= update(
            update(update(m.ram, 13, location(file, s, i, m, syms)), 0, sp(m) - 1),
            location(file, s, i, m, syms),
            (m.ram)(sp(m) - 1),
        ),
{
    if s == MemorySegment::Static {
        let head = seq![Instr::Assign(Dest::D, Comp::Zero), Instr::Sym(static_symbol(file, i))];
        lemma_exec_append(head, pop_to_r13_code(), m, syms);
        let m1 = exec(head, m, syms);
        assert(m1.ram == m.ram && word(m1.d + m1.a) == location(file, s, i, m, syms)) by {
            reveal_with_fuel(exec_from, 3);
            let x = syms(static_symbol(file, i));
            assert(word(0 + word(x)) == word(x)) by (nonlinear_arith);
        }
        lemma_pop_to_r13(m1, syms);
    } else {
        let mid = seq![Instr::Assign(Dest::D, Comp::A), Instr::Num(i)];
        lemma_exec_append(base_address_code(s), mid, m, syms);
        lemma_exec_append(base_address_code(s) + mid, pop_to_r13_code(), m, syms);
        lemma_base_address(s, m, syms);
        let m0 = exec(base_address_code(s), m, syms);
        let m1 = exec(mid, m0, syms);
        assert(m1.ram == m.ram && m1.d == m0.a && m1.a == word(i as int)) by {
            reveal_with_fuel(exec_from, 3);
        }
        assert(word(m0.a + word(i as int)) == word(m0.a + i)) by (nonlinear_arith);
        lemma_pop_to_r13(m1, syms);
    }
}

/// Pushing a value and popping it straight into a location stores the value
/// there and brings `SP` back; memory is otherwise unchanged, but for the
/// scratch cell `R13` and the freed stack slot.
pub proof fn lemma_push_then_pop(
    file: Seq<char>,
    src: MemorySegment,
    j: nat,
    dst: MemorySegment,
    i: nat,
    m: Machine,
    syms: spec_fn(Seq<char>) -> int,
)
    requires
        standard_symbols(syms),
        stack_ok(m),
        sp(m) < 32767,
        dst != MemorySegment::Constant,
        location(file, dst, i, m, syms) != 0,
    ensures
        run(push_code(file, src, j) + pop_code(file, dst, i), 0, m, syms) matches Outcome::Fell(m2) && {
            let loc = location(file, dst, i, m, syms);
            &&& sp(m2) == sp(m)
            &&& (m2.ram)(loc) == pushed_value(file, src, j, m, syms)
            &&& forall|k: int| k != 0 && k != 13 && k != sp(m) && k != loc ==> #[trigger] (m2.ram)(k) == (m.ram)(k)
        },
{
    let push = push_code(file, src, j);
    let pop = pop_code(file, dst, i);
    lemma_push_straight(file, src, j);
    lemma_pop_straight(file, dst, i);
    lemma_straight_append(push, pop);
    lemma_run_straight(push + pop, m, syms);
    lemma_exec_append(push, pop, m, syms);
    lemma_push(file, src, j, m, syms);
    let m1 = exec(push, m, syms);
    assert(location(file, dst, i, m1, syms) == location(file, dst, i, m, syms));
    lemma_pop(file, dst, i, m1, syms);
}

/// A value popped into `static i` is what a later `push static i` of the same
/// unit pushes back.
pub proof fn lemma_static_round_trip(file: Seq<char>, i: nat, m: Machine, syms: spec_fn(Seq<char>) -> int)
    requires
        standard_symbols(syms),
        stack_ok(m),
        sp(m) >= 17,
        location(file, MemorySegment::Static, i, m, syms) != 0,
    ensures
        run(pop_code(file, MemorySegment::Static, i) + push_code(file, MemorySegment::Static, i), 0, m, syms)
            matches Outcome::Fell(m2) && sp(m2) == sp(m) && (m2.ram)(sp(m) - 1) == (m.ram)(sp(m) - 1),
{
    let pop = pop_code(file, MemorySegment::Static, i);
    let push = push_code(file, MemorySegment::Static, i);
    lemma_push_straight(file, MemorySegment::Static, i);
    lemma_pop_straight(file, MemorySegment::Static, i);
    lemma_straight_append(pop, push);
    lemma_run_straight(pop + push, m, syms);
    lemma_exec_append(pop, push, m, syms);
    lemma_pop(file, MemorySegment::Static, i, m, syms);
    let m1 = exec(pop, m, syms);
    lemma_push(file, MemorySegment::Static, i, m1, syms);
}

/// `pop static i` in one unit leaves `static i` of any other unit alone, given
/// that the assembler places distinct symbols at distinct addresses.
pub proof fn lemma_static_units_apart(
    u1: Seq<char>,
    u2: Seq<char>,
    i: nat,
    m: Machine,
    syms: spec_fn(Seq<char>) -> int,
)
    requires
        standard_symbols(syms),
        stack_ok(m),
        u1 != u2,
        location(u2, MemorySegment::Static, i, m, syms) >= 16,
        forall|x: Seq<char>, y: Seq<char>| x != y ==> word(#[trigger] syms(x)) != word(#[trigger] syms(y)),
    ensures
        location(u1, MemorySegment::Static, i, m, syms) != location(u2, MemorySegment::Static, i, m, syms),
        (exec(pop_code(u1, MemorySegment::Static, i), m, syms).ram)(location(u2, MemorySegment::Static, i, m, syms))
            == (m.ram)(location(u2, MemorySegment::Static, i, m, syms)),
{
    lemma_static_symbols_do_not_alias(u1, u2, i);
    lemma_pop(u1, MemorySegment::Static, i, m, syms);
}

proof fn lemma_straight_append(p1: Seq<Instr>, p2: Seq<Instr>)
    requires
        straight(p1),
        straight(p2),
    ensures
        straight(p1 + p2),
{
    assert forall|k: int| 0 <= k < (p1 + p2).len() implies !(#[trigger] (p1 + p2)[k] is Jump) by {
        if k < p1.len() {
            assert((p1 + p2)[k] == p1[k]);
        } else {
            assert((p1 + p2)[k] == p2[k - p1.len()]);
        }
    }
}

proof fn lemma_push_straight(file: Seq<char>, s: MemorySegment, i: nat)
    ensures
        straight(push_code(file, s, i)),
{
    assert(straight(push_d_code()));
    match s {
        MemorySegment::Constant => {
            assert(straight(seq![Instr::Num(i), Instr::Assign(Dest::D, Comp::A)]));
            lemma_straight_append(seq![Instr::Num(i), Instr::Assign(Dest::D, Comp::A)], push_d_code());
        },
        MemorySegment::Static => {
            let head = seq![Instr::Sym(static_symbol(file, i)), Instr::Assign(Dest::D, Comp::M)];
            assert(straight(head));
            lemma_straight_append(head, push_d_code());
        },
        _ => {
            let mid = seq![
                Instr::Assign(Dest::D, Comp::A),
                Instr::Num(i),
                Instr::Assign(Dest::A, Comp::DPlusA),
                Instr::Assign(Dest::D, Comp::M),
            ];
            assert(straight(mid));
            assert(straight(base_address_code(s)));
            lemma_straight_append(base_address_code(s), mid);
            lemma_straight_append(base_address_code(s) + mid, push_d_code());
        },
    }
}

proof fn lemma_pop_straight(file: Seq<char>, s: MemorySegment, i: nat)
    ensures
        straight(pop_code(file, s, i)),
{
    assert(straight(pop_to_r13_code()));
    if s == MemorySegment::Static {
        let head = seq![Instr::Assign(Dest::D, Comp::Zero), Instr::Sym(static_symbol(file, i))];
        assert(straight(head));
        lemma_straight_append(head, pop_to_r13_code());
    } else {
        let mid = seq![Instr::Assign(Dest::D, Comp::A), Instr::Num(i)];
        assert(straight(mid));
        assert(straight(base_address_code(s)));
        lemma_straight_append(base_address_code(s), mid);
        lemma_straight_append(base_address_code(s) + mid, pop_to_r13_code());
    }
}


// ---------------------------------------------------------------------------
// Comparisons.
// ---------------------------------------------------------------------------

pub open spec fn true_label(id: nat) -> Seq<char> {
    "TRUE."@ + dec(id)
}

pub open spec fn out_label(id: nat) -> Seq<char> {
    "OUT."@ + dec(id)
}

pub open spec fn comparison_tail(j: Cond, id: nat) -> Seq<Instr> {
    seq![
        Instr::Assign(Dest::D, Comp::MMinusD),
        Instr::Sym(true_label(id)),
        Instr::Jump(Comp::D, j),
        Instr::Assign(Dest::D, Comp::Zero),
        Instr::Sym(out_label(id)),
        Instr::Jump(Comp::Zero, Cond::Always),
        Instr::Define(true_label(id)),
        Instr::Assign(Dest::D, Comp::MinusOne),
        Instr::Define(out_label(id)),
        Instr::Sym("SP"@),
        Instr::Assign(Dest::A, Comp::MMinus1),
        Instr::Assign(Dest::M, Comp::D),
    ]
}

pub open spec fn comparison_code(j: Cond, id: nat) -> Seq<Instr> {
    binary_prologue_code() + comparison_tail(j, id)
}

proof fn lemma_join_three(a: Instr, b: Instr, c: Instr)
    ensures
        join(seq![a, b, c]) == render(a) + "\n"@ + render(b) + "\n"@ + render(c),
{
    reveal_with_fuel(join, 3);
    assert(seq![a, b, c].drop_first() =~= seq![b, c]);
    assert(seq![b, c].drop_first() =~= seq![c]);
    assert(render(a) + "\n"@ + (render(b) + "\n"@ + render(c)) =~= render(a) + "\n"@ + render(b) + "\n"@ + render(c));
}

proof fn lemma_cmp_text_a(id: nat)
    ensures
        join(cmp_pa(id)) == "D=M-D\n@TRUE."@ + dec(id),
{
    lemma_join_two(Instr::Assign(Dest::D, Comp::MMinusD), Instr::Sym(true_label(id)));
    let d = dec(id);
    reveal_strlit("D=M-D\n@TRUE.");
    reveal_strlit("TRUE.");
    reveal_strlit("@");
    reveal_strlit("\n");
    reveal_strlit("D");
    reveal_strlit("=");
    reveal_strlit("M-D");
}

proof fn lemma_cmp_text_b(j: Cond, id: nat)
    ensures
        join(cmp_pb(j, id)) == "D;"@ + cond_text(j) + "\nD=0\n@OUT."@ + dec(id),
{
    lemma_join_three(Instr::Jump(Comp::D, j), Instr::Assign(Dest::D, Comp::Zero), Instr::Sym(out_label(id)));
    let d = dec(id);
    let c = cond_text(j);
    reveal_strlit("D;");
    reveal_strlit("\nD=0\n@OUT.");
    reveal_strlit("OUT.");
    reveal_strlit("@");
    reveal_strlit("\n");
    reveal_strlit("D");
    reveal_strlit("=");
    reveal_strlit(";");
    reveal_strlit("0");
}

proof fn lemma_cmp_text_c(id: nat)
    ensures
        join(cmp_pc(id)) == "0;JMP\n(TRUE."@ + dec(id) + ")"@,
{
    lemma_join_two(Instr::Jump(Comp::Zero, Cond::Always), Instr::Define(true_label(id)));
    let d = dec(id);
    reveal_strlit("0;JMP\n(TRUE.");
    reveal_strlit("TRUE.");
    reveal_strlit("(");
    reveal_strlit("\n");
    reveal_strlit("0");
    reveal_strlit(";");
    reveal_strlit("JMP");
}

proof fn lemma_cmp_text_d(id: nat)
    ensures
        join(cmp_pd(id)) == "D=-1\n(OUT."@ + dec(id) + ")"@,
{
    lemma_join_two(Instr::Assign(Dest::D, Comp::MinusOne), Instr::Define(out_label(id)));
    let d = dec(id);
    reveal_strlit("D=-1\n(OUT.");
    reveal_strlit("OUT.");
    reveal_strlit("(");
    reveal_strlit("\n");
    reveal_strlit("D");
    reveal_strlit("=");
    reveal_strlit("-1");
}

proof fn lemma_cmp_text_e()
    ensures
        join(cmp_pe()) == "@SP\nA=M-1\nM=D"@,
{
    lemma_join_three(Instr::Sym("SP"@), Instr::Assign(Dest::A, Comp::MMinus1), Instr::Assign(Dest::M, Comp::D));
    reveal_strlit("@SP\nA=M-1\nM=D");
    reveal_strlit("@");
    reveal_strlit("SP");
    reveal_strlit("\n");
    reveal_strlit("A");
    reveal_strlit("M");
    reveal_strlit("D");
    reveal_strlit("=");
    reveal_strlit("M-1");
}

pub open spec fn cmp_pa(id: nat) -> Seq<Instr> {
    seq![Instr::Assign(Dest::D, Comp::MMinusD), Instr::Sym(true_label(id))]
}

pub open spec fn cmp_pb(j: Cond, id: nat) -> Seq<Instr> {
    seq![Instr::Jump(Comp::D, j), Instr::Assign(Dest::D, Comp::Zero), Instr::Sym(out_label(id))]
}

pub open spec fn cmp_pc(id: nat) -> Seq<Instr> {
    seq![Instr::Jump(Comp::Zero, Cond::Always), Instr::Define(true_label(id))]
}

pub open spec fn cmp_pd(id: nat) -> Seq<Instr> {
    seq![Instr::Assign(Dest::D, Comp::MinusOne), Instr::Define(out_label(id))]
}

pub open spec fn cmp_pe() -> Seq<Instr> {
    seq![Instr::Sym("SP"@), Instr::Assign(Dest::A, Comp::MMinus1), Instr::Assign(Dest::M, Comp::D)]
}

pub open spec fn cmp_s1(j: Cond, id: nat) -> Seq<char> {
    "D=M-D\n@TRUE."@ + dec(id) + "\nD;"@ + cond_text(j) + "\nD=0\n@OUT."@ + dec(id)
}

pub open spec fn cmp_s2(j: Cond, id: nat) -> Seq<char> {
    cmp_s1(j, id) + "\n0;JMP\n(TRUE."@ + dec(id)
}

pub open spec fn cmp_s3(j: Cond, id: nat) -> Seq<char> {
    cmp_s2(j, id) + ")\nD=-1\n(OUT."@ + dec(id)
}

proof fn lemma_cmp_step1(j: Cond, id: nat)
    ensures
        join(cmp_pa(id) + cmp_pb(j, id)) == cmp_s1(j, id),
{
    lemma_join_append(cmp_pa(id), cmp_pb(j, id));
    lemma_cmp_text_a(id);
    lemma_cmp_text_b(j, id);
    assert("\nD;"@ =~= "\n"@ + "D;"@) by {
        reveal_strlit("\nD;");
        reveal_strlit("D;");
        reveal_strlit("\n");
    }
    assert(join(cmp_pa(id) + cmp_pb(j, id)) =~= cmp_s1(j, id));
}

proof fn lemma_cmp_step2(j: Cond, id: nat)
    ensures
        join(cmp_pa(id) + cmp_pb(j, id) + cmp_pc(id)) == cmp_s2(j, id) + ")"@,
{
    lemma_join_append(cmp_pa(id) + cmp_pb(j, id), cmp_pc(id));
    lemma_cmp_step1(j, id);
    lemma_cmp_text_c(id);
    assert("\n0;JMP\n(TRUE."@ =~= "\n"@ + "0;JMP\n(TRUE."@) by {
        reveal_strlit("\n0;JMP\n(TRUE.");
        reveal_strlit("0;JMP\n(TRUE.");
        reveal_strlit("\n");
    }
    assert(join(cmp_pa(id) + cmp_pb(j, id) + cmp_pc(id)) =~= cmp_s2(j, id) + ")"@);
}

proof fn lemma_cmp_step3(j: Cond, id: nat)
    ensures
        join(cmp_pa(id) + cmp_pb(j, id) + cmp_pc(id) + cmp_pd(id)) == cmp_s3(j, id) + ")"@,
{
    lemma_join_append(cmp_pa(id) + cmp_pb(j, id) + cmp_pc(id), cmp_pd(id));
    lemma_cmp_step2(j, id);
    lemma_cmp_text_d(id);
    assert(")\nD=-1\n(OUT."@ =~= ")"@ + "\n"@ + "D=-1\n(OUT."@) by {
        reveal_strlit(")\nD=-1\n(OUT.");
        reveal_strlit("D=-1\n(OUT.");
        reveal_strlit(")");
        reveal_strlit("\n");
    }
    assert(join(cmp_pa(id) + cmp_pb(j, id) + cmp_pc(id) + cmp_pd(id)) =~= cmp_s3(j, id) + ")"@);
}

proof fn lemma_cmp_step4(j: Cond, id: nat)
    ensures
        join(comparison_tail(j, id)) == cmp_s3(j, id) + ")\n@SP\nA=M-1\nM=D"@,
{
    let p4 = cmp_pa(id) + cmp_pb(j, id) + cmp_pc(id) + cmp_pd(id);
    assert(comparison_tail(j, id) =~= p4 + cmp_pe());
    lemma_join_append(p4, cmp_pe());
    lemma_cmp_step3(j, id);
    lemma_cmp_text_e();
    assert(")\n@SP\nA=M-1\nM=D"@ =~= ")"@ + "\n"@ + "@SP\nA=M-1\nM=D"@) by {
        reveal_strlit(")\n@SP\nA=M-1\nM=D");
        reveal_strlit("@SP\nA=M-1\nM=D");
        reveal_strlit(")");
        reveal_strlit("\n");
    }
    assert(join(comparison_tail(j, id)) =~= cmp_s3(j, id) + ")\n@SP\nA=M-1\nM=D"@);
}

/// The text of each comparison is the rendering of its instructions.
pub proof fn lemma_comparison_text(j: Cond, id: nat)
    ensures
        comparison_text(cond_text(j), id) == join(comparison_code(j, id)),
{
    lemma_binary_prologue_text();
    lemma_join_append(binary_prologue_code(), comparison_tail(j, id));
    lemma_cmp_step4(j, id);
    lemma_cmp_glue();
    assert(comparison_text(cond_text(j), id) =~= join(comparison_code(j, id)));
}

proof fn lemma_cmp_glue()
    ensures
        "\nD=M-D\n@TRUE."@ == "\n"@ + "D=M-D\n@TRUE."@,
{
    reveal_strlit("\nD=M-D\n@TRUE.");
    reveal_strlit("D=M-D\n@TRUE.");
    reveal_strlit("\n");
    assert("\nD=M-D\n@TRUE."@ =~= "\n"@ + "D=M-D\n@TRUE."@);
}

proof fn lemma_binary_prologue(m: Machine, syms: spec_fn(Seq<char>) -> int)
    requires
        standard_symbols(syms),
        18 <= sp(m) <= 32767,
    ensures
        exec(binary_prologue_code(), m, syms).ram =~= update(m.ram, 0, sp(m) - 1),
        exec(binary_prologue_code(), m, syms).d == (m.ram)(sp(m) - 1),
        exec(binary_prologue_code(), m, syms).a == sp(m) - 2,
{
    reveal_with_fuel(exec_from, 5);
}

/// The value a comparison leaves on the stack for operands `x` (below) and
/// `y` (on top): all ones when the jump condition holds of `x - y`, else zero.
pub open spec fn comparison_result(j: Cond, x: int, y: int) -> int {
    if taken(j, word(x - y)) { 65535 } else { 0 }
}

proof fn lemma_comparison_tail(j: Cond, id: nat, m: Machine, syms: spec_fn(Seq<char>) -> int)
    requires
        standard_symbols(syms),
        17 <= sp(m) <= 32767,
        m.a == sp(m) - 1,
        word(syms(true_label(id))) != word(syms(out_label(id))),
    ensures
        run(comparison_tail(j, id), 0, m, syms) matches Outcome::Fell(m2)
            && m2.ram =~= update(m.ram, sp(m) - 1, comparison_result(j, (m.ram)(sp(m) - 1), m.d)),
{
    let t = comparison_tail(j, id);
    let x = (m.ram)(sp(m) - 1);
    let v = comparison_result(j, x, m.d);
    let m1 = Machine { d: word(x - m.d), ..m };
    let m2 = Machine { a: word(syms(true_label(id))), ..m1 };
    assert(run(t, 0, m, syms) == run(t, 1, m1, syms));
    assert(run(t, 1, m1, syms) == run(t, 2, m2, syms));
    let m3 = Machine { d: v, ..m2 };
    if taken(j, m2.d) {
        assert(label_from(t, 3, m2.a, syms) == Some(6int)) by {
            reveal_with_fuel(label_from, 4);
        }
        assert(run(t, 2, m2, syms) == run(t, 7, m2, syms));
        assert(run(t, 7, m2, syms) == run(t, 8, m3, syms));
        assert(run(t, 8, m3, syms) == run(t, 9, m3, syms));
    } else {
        let m4 = Machine { d: 0, ..m2 };
        let m5 = Machine { a: word(syms(out_label(id))), ..m4 };
        assert(run(t, 2, m2, syms) == run(t, 3, m2, syms));
        assert(run(t, 3, m2, syms) == run(t, 4, m4, syms));
        assert(run(t, 4, m4, syms) == run(t, 5, m5, syms));
        assert(label_from(t, 6, m5.a, syms) == Some(8int)) by {
            reveal_with_fuel(label_from, 3);
        }
        assert(run(t, 5, m5, syms) == run(t, 9, m5, syms));
        assert(m5.d == m3.d && m5.ram == m3.ram);
    }
    let m6 = Machine { a: 0, ..m3 };
    let m7 = Machine { a: sp(m) - 1, ..m6 };
    let m8 = Machine { ram: update(m.ram, sp(m) - 1, v), ..m7 };
    assert(run(t, 9, m3, syms) == run(t, 10, m6, syms));
    assert(run(t, 10, m6, syms) == run(t, 11, m7, syms));
    assert(run(t, 11, m7, syms) == run(t, 12, m8, syms));
    assert(run(t, 12, m8, syms) == Outcome::Fell(m8));
}

/// `eq`, `gt` and `lt` replace the two operands on top of the stack by one
/// word: -1 (all ones) when the comparison of `x - y` holds, 0 when it does not.
/// `SP` drops by one and no other memory changes. The two internal labels are
/// assumed to sit at distinct addresses, as the assembler places them.
pub proof fn lemma_comparison(j: Cond, id: nat, m: Machine, syms: spec_fn(Seq<char>) -> int)
    requires
        standard_symbols(syms),
        18 <= sp(m) <= 32767,
        word(syms(true_label(id))) != word(syms(out_label(id))),
    ensures
        run(comparison_code(j, id), 0, m, syms) matches Outcome::Fell(m2) && {
            let x = (m.ram)(sp(m) - 2);
            let y = (m.ram)(sp(m) - 1);
            &&& sp(m2) == sp(m) - 1
            &&& (m2.ram)(sp(m) - 2) == comparison_result(j, x, y)
            &&& (m2.ram)(sp(m) - 2) == 65535 || (m2.ram)(sp(m) - 2) == 0
            &&& forall|k: int| k != 0 && k != sp(m) - 2 ==> #[trigger] (m2.ram)(k) == (m.ram)(k)
        },
{
    assert(straight(binary_prologue_code()));
    lemma_run_seq(binary_prologue_code(), comparison_tail(j, id), m, syms);
    lemma_binary_prologue(m, syms);
    let m1 = exec(binary_prologue_code(), m, syms);
    lemma_comparison_tail(j, id, m1, syms);
}

/// For operands that are words, `eq` yields -1 exactly when they are equal.
pub proof fn lemma_eq_result(x: int, y: int)
    requires
        0 <= x < 65536,
        0 <= y < 65536,
    ensures
        comparison_result(Cond::Eq, x, y) == (if x == y { 65535int } else { 0int }),
{
    assert(word(x - y) == 0 <==> x == y) by (nonlinear_arith)
        requires
            0 <= x < 65536,
            0 <= y < 65536,
    ;
}

/// For operands whose signed difference fits in a word, `gt` and `lt` yield -1
/// exactly when `x > y`, respectively `x < y`, as signed numbers.
pub proof fn lemma_order_result(x: int, y: int)
    requires
        0 <= x < 65536,
        0 <= y < 65536,
        -32768 <= signed(x) - signed(y) <= 32767,
    ensures
        comparison_result(Cond::Gt, x, y) == (if signed(x) > signed(y) { 65535int } else { 0int }),
        comparison_result(Cond::Lt, x, y) == (if signed(x) < signed(y) { 65535int } else { 0int }),
{
    let dd = signed(x) - signed(y);
    assert(signed(word(x - y)) == dd) by (nonlinear_arith)
        requires
            0 <= x < 65536,
            0 <= y < 65536,
            dd == signed(x) - signed(y),
            -32768 <= dd <= 32767,
            signed(x) == (if x >= 32768 { x - 65536 } else { x }),
            signed(y) == (if y >= 32768 { y - 65536 } else { y }),
            signed(word(x - y)) == (if word(x - y) >= 32768 { word(x - y) - 65536 } else { word(x - y) }),
            word(x - y) == (x - y) % 65536,
    ;
}


// ---------------------------------------------------------------------------
// Function entry.
// ---------------------------------------------------------------------------

/// `D=0`, then push `D`.
pub open spec fn zero_push_code() -> Seq<Instr> {
    seq![Instr::Assign(Dest::D, Comp::Zero)] + push_d_code()
}

/// `k` zero pushes, one after another.
pub open spec fn zero_pushes(k: nat) -> Seq<Instr>
    decreases k,
{
    if k == 0 { Seq::empty() } else { zero_pushes((k - 1) as nat) + zero_push_code() }
}

pub open spec fn function_code(name: Seq<char>, k: nat) -> Seq<Instr> {
    seq![Instr::Define(name)] + zero_pushes(k)
}

proof fn lemma_zero_push_text()
    ensures
        "\nD=0\n"@ + push_d_text() == "\n"@ + join(zero_push_code()),
{
    lemma_push_d_text();
    lemma_join_append(seq![Instr::Assign(Dest::D, Comp::Zero)], push_d_code());
    assert(join(seq![Instr::Assign(Dest::D, Comp::Zero)]) == "D=0"@) by {
        reveal_with_fuel(join, 1);
        reveal_strlit("D=0");
        reveal_strlit("D");
        reveal_strlit("=");
        reveal_strlit("0");
        assert(join(seq![Instr::Assign(Dest::D, Comp::Zero)]) =~= "D=0"@);
    }
    assert("\nD=0\n"@ =~= "\n"@ + "D=0"@ + "\n"@) by {
        reveal_strlit("\nD=0\n");
        reveal_strlit("D=0");
        reveal_strlit("\n");
    }
    assert("\nD=0\n"@ + push_d_text() =~= "\n"@ + join(zero_push_code()));
}

/// The text of `function name k` is the rendering of its instructions.
pub proof fn lemma_function_text(name: Seq<char>, k: nat)
    ensures
        function_text(name, k) == join(function_code(name, k)),
    decreases k,
{
    if k == 0 {
        assert(function_code(name, 0) =~= seq![Instr::Define(name)]);
        reveal_with_fuel(join, 1);
        assert(function_text(name, 0) =~= join(function_code(name, 0)));
    } else {
        lemma_function_text(name, (k - 1) as nat);
        lemma_zero_push_text();
        assert(function_code(name, k) =~= function_code(name, (k - 1) as nat) + zero_push_code());
        lemma_join_append(function_code(name, (k - 1) as nat), zero_push_code());
        let z = "\nD=0\n"@ + push_d_text();
        assert(repeat(z, k) == repeat(z, (k - 1) as nat) + z);
        assert(function_text(name, k) =~= function_text(name, (k - 1) as nat) + z);
    }
}

proof fn lemma_zero_pushes_straight(k: nat)
    ensures
        straight(zero_pushes(k)),
    decreases k,
{
    if k > 0 {
        lemma_zero_pushes_straight((k - 1) as nat);
        assert(straight(zero_push_code()));
        lemma_straight_append(zero_pushes((k - 1) as nat), zero_push_code());
    }
}

proof fn lemma_zero_pushes(k: nat, m: Machine, syms: spec_fn(Seq<char>) -> int)
    requires
        standard_symbols(syms),
        stack_ok(m),
        sp(m) + k <= 32767,
    ensures
        forall|addr: int| #[trigger] (exec(zero_pushes(k), m, syms).ram)(addr) == if addr == 0 {
            sp(m) + k
        } else if sp(m) <= addr < sp(m) + k {
            0
        } else {
            (m.ram)(addr)
        },
    decreases k,
{
    if k > 0 {
        let k1 = (k - 1) as nat;
        lemma_zero_pushes(k1, m, syms);
        lemma_exec_append(zero_pushes(k1), zero_push_code(), m, syms);
        let m1 = exec(zero_pushes(k1), m, syms);
        lemma_exec_append(seq![Instr::Assign(Dest::D, Comp::Zero)], push_d_code(), m1, syms);
        let m2 = exec(seq![Instr::Assign(Dest::D, Comp::Zero)], m1, syms);
        assert(m2.d == 0 && m2.ram == m1.ram) by {
            reveal_with_fuel(exec_from, 2);
        }
        assert(sp(m2) == sp(m) + k1);
        lemma_push_d(m2, syms);
    }
}

/// `function f k` zeroes `k` fresh local slots: `SP` ends `k` slots higher,
/// each slot in between holds 0, and no other memory changes.
pub proof fn lemma_function_entry(name: Seq<char>, k: nat, m: Machine, syms: spec_fn(Seq<char>) -> int)
    requires
        standard_symbols(syms),
        stack_ok(m),
        sp(m) + k <= 32767,
    ensures
        run(function_code(name, k), 0, m, syms) matches Outcome::Fell(m2) && {
            &&& sp(m2) == sp(m) + k
            &&& forall|addr: int| sp(m) <= addr < sp(m) + k ==> #[trigger] (m2.ram)(addr) == 0
            &&& forall|addr: int| addr != 0 && !(sp(m) <= addr < sp(m) + k) ==> #[trigger] (m2.ram)(addr) == (m.ram)(addr)
        },
{
    let head = seq![Instr::Define(name)];
    assert(straight(head));
    lemma_zero_pushes_straight(k);
    lemma_straight_append(head, zero_pushes(k));
    lemma_run_straight(function_code(name, k), m, syms);
    lemma_exec_append(head, zero_pushes(k), m, syms);
    assert(exec(head, m, syms) == m) by {
        reveal_with_fuel(exec_from, 2);
    }
    lemma_zero_pushes(k, m, syms);
}


// ---------------------------------------------------------------------------
// Calls and returns.
// ---------------------------------------------------------------------------

pub open spec fn return_label(id: nat) -> Seq<char> {
    "__RET_"@ + dec(id)
}

/// Push the word held in the cell named `p`.
pub open spec fn push_segment_code(p: Seq<char>) -> Seq<Instr> {
    seq![Instr::Sym(p), Instr::Assign(Dest::D, Comp::M)] + push_d_code()
}

pub open spec fn call_head_code(id: nat) -> Seq<Instr> {
    seq![Instr::Sym(return_label(id)), Instr::Assign(Dest::D, Comp::A)] + push_d_code()
}

pub open spec fn call_frame_code() -> Seq<Instr> {
    push_segment_code("LCL"@) + push_segment_code("ARG"@) + push_segment_code("THIS"@) + push_segment_code("THAT"@)
}

pub open spec fn call_reposition_code(nargs: nat) -> Seq<Instr> {
    seq![
        Instr::Num(nargs + 5),
        Instr::Assign(Dest::D, Comp::A),
        Instr::Sym("SP"@),
        Instr::Assign(Dest::D, Comp::MMinusD),
        Instr::Sym("ARG"@),
        Instr::Assign(Dest::M, Comp::D),
        Instr::Sym("SP"@),
        Instr::Assign(Dest::D, Comp::M),
        Instr::Sym("LCL"@),
        Instr::Assign(Dest::M, Comp::D),
    ]
}

pub open spec fn call_jump_code(name: Seq<char>, id: nat) -> Seq<Instr> {
    seq![Instr::Sym(name), Instr::Jump(Comp::Zero, Cond::Always), Instr::Define(return_label(id))]
}

/// The straight-line part of a call: it saves the frame and repositions `ARG` and `LCL`.
pub open spec fn call_setup_code(nargs: nat, id: nat) -> Seq<Instr> {
    call_head_code(id) + call_frame_code() + call_reposition_code(nargs)
}

pub open spec fn call_code(name: Seq<char>, nargs: nat, id: nat) -> Seq<Instr> {
    call_setup_code(nargs, id) + call_jump_code(name, id)
}

pub open spec fn restore_code(p: Seq<char>, offset: nat) -> Seq<Instr> {
    seq![
        Instr::Sym("R14"@),
        Instr::Assign(Dest::D, Comp::M),
        Instr::Num(offset),
        Instr::Assign(Dest::A, Comp::DMinusA),
        Instr::Assign(Dest::D, Comp::M),
        Instr::Sym(p),
        Instr::Assign(Dest::M, Comp::D),
    ]
}

pub open spec fn return_head_code() -> Seq<Instr> {
    seq![
        Instr::Sym("LCL"@),
        Instr::Assign(Dest::D, Comp::M),
        Instr::Sym("R14"@),
        Instr::Assign(Dest::M, Comp::D),
        Instr::Num(5),
        Instr::Assign(Dest::A, Comp::DMinusA),
        Instr::Assign(Dest::D, Comp::M),
        Instr::Sym("R15"@),
        Instr::Assign(Dest::M, Comp::D),
        Instr::Sym("SP"@),
        Instr::Assign(Dest::AM, Comp::MMinus1),
        Instr::Assign(Dest::D, Comp::M),
        Instr::Sym("ARG"@),
        Instr::Assign(Dest::A, Comp::M),
        Instr::Assign(Dest::M, Comp::D),
        Instr::Assign(Dest::D, Comp::APlus1),
        Instr::Sym("SP"@),
        Instr::Assign(Dest::M, Comp::D),
    ]
}

pub open spec fn return_restore_code() -> Seq<Instr> {
    restore_code("THAT"@, 1) + restore_code("THIS"@, 2) + restore_code("ARG"@, 3) + restore_code("LCL"@, 4)
}

pub open spec fn return_jump_code() -> Seq<Instr> {
    seq![Instr::Sym("R15"@), Instr::Assign(Dest::A, Comp::M), Instr::Jump(Comp::Zero, Cond::Always)]
}

pub open spec fn return_code() -> Seq<Instr> {
    return_head_code() + return_restore_code() + return_jump_code()
}

proof fn lemma_push_segment(p: Seq<char>, addr: int, m: Machine, syms: spec_fn(Seq<char>) -> int)
    requires
        standard_symbols(syms),
        stack_ok(m),
        syms(p) == addr,
        0 <= addr < 16,
    ensures
        exec(push_segment_code(p), m, syms).ram =~= update(update(m.ram, sp(m), (m.ram)(addr)), 0, sp(m) + 1),
{
    let head = seq![Instr::Sym(p), Instr::Assign(Dest::D, Comp::M)];
    lemma_exec_append(head, push_d_code(), m, syms);
    let m1 = exec(head, m, syms);
    assert(m1.d == (m.ram)(addr) && m1.ram == m.ram) by {
        reveal_with_fuel(exec_from, 3);
    }
    lemma_push_d(m1, syms);
}

/// The machine after the straight-line part of a call.
pub open spec fn after_call_setup(nargs: nat, id: nat, m: Machine, syms: spec_fn(Seq<char>) -> int) -> Machine {
    exec(call_setup_code(nargs, id), m, syms)
}

proof fn lemma_call_head(id: nat, m: Machine, syms: spec_fn(Seq<char>) -> int)
    requires
        standard_symbols(syms),
        stack_ok(m),
    ensures
        exec(call_head_code(id), m, syms).ram
            =~= update(update(m.ram, sp(m), word(syms(return_label(id)))), 0, sp(m) + 1),
{
    let hh = seq![Instr::Sym(return_label(id)), Instr::Assign(Dest::D, Comp::A)];
    lemma_exec_append(hh, push_d_code(), m, syms);
    assert(exec(hh, m, syms).d == word(syms(return_label(id))) && exec(hh, m, syms).ram == m.ram) by {
        reveal_with_fuel(exec_from, 3);
    }
    lemma_push_d(exec(hh, m, syms), syms);
}

proof fn lemma_call_frame(m: Machine, syms: spec_fn(Seq<char>) -> int)
    requires
        standard_symbols(syms),
        16 <= sp(m),
        sp(m) + 4 <= 32767,
    ensures
        ({
            let m4 = exec(call_frame_code(), m, syms);
            let s = sp(m);
            &&& (m4.ram)(0) == s + 4
            &&& (m4.ram)(s) == (m.ram)(1)
            &&& (m4.ram)(s + 1) == (m.ram)(2)
            &&& (m4.ram)(s + 2) == (m.ram)(3)
            &&& (m4.ram)(s + 3) == (m.ram)(4)
            &&& forall|k: int| 0 < k < s ==> #[trigger] (m4.ram)(k) == (m.ram)(k)
        }),
{
    let f1 = push_segment_code("LCL"@);
    let f2 = push_segment_code("ARG"@);
    let f3 = push_segment_code("THIS"@);
    let f4 = push_segment_code("THAT"@);
    assert(call_frame_code() =~= f1 + (f2 + (f3 + f4)));
    lemma_exec_append(f1, f2 + (f3 + f4), m, syms);
    lemma_push_segment("LCL"@, 1, m, syms);
    let m1 = exec(f1, m, syms);
    lemma_exec_append(f2, f3 + f4, m1, syms);
    lemma_push_segment("ARG"@, 2, m1, syms);
    let m2 = exec(f2, m1, syms);
    lemma_exec_append(f3, f4, m2, syms);
    lemma_push_segment("THIS"@, 3, m2, syms);
    let m3 = exec(f3, m2, syms);
    lemma_push_segment("THAT"@, 4, m3, syms);
}

proof fn lemma_call_reposition(nargs: nat, m: Machine, syms: spec_fn(Seq<char>) -> int)
    requires
        standard_symbols(syms),
        16 + nargs + 5 <= sp(m) <= 32767,
    ensures
        exec(call_reposition_code(nargs), m, syms).ram =~= update(update(m.ram, 2, sp(m) - 5 - nargs), 1, sp(m)),
{
    reveal_with_fuel(exec_from, 11);
}

proof fn lemma_call_setup(nargs: nat, id: nat, m: Machine, syms: spec_fn(Seq<char>) -> int)
    requires
        standard_symbols(syms),
        16 + nargs <= sp(m),
        sp(m) + 5 <= 32767,
    ensures
        ({
            let m1 = after_call_setup(nargs, id, m, syms);
            let s = sp(m);
            &&& (m1.ram)(0) == s + 5
            &&& (m1.ram)(1) == s + 5
            &&& (m1.ram)(2) == s - nargs
            &&& (m1.ram)(s) == word(syms(return_label(id)))
            &&& (m1.ram)(s + 1) == (m.ram)(1)
            &&& (m1.ram)(s + 2) == (m.ram)(2)
            &&& (m1.ram)(s + 3) == (m.ram)(3)
            &&& (m1.ram)(s + 4) == (m.ram)(4)
        }),
{
    let s = sp(m);
    let h = call_head_code(id);
    let r = call_reposition_code(nargs);
    assert(call_setup_code(nargs, id) =~= h + (call_frame_code() + r));
    lemma_exec_append(h, call_frame_code() + r, m, syms);
    lemma_call_head(id, m, syms);
    let m0 = exec(h, m, syms);
    lemma_exec_append(call_frame_code(), r, m0, syms);
    lemma_call_frame(m0, syms);
    let m4 = exec(call_frame_code(), m0, syms);
    lemma_call_reposition(nargs, m4, syms);
}

/// The machine after the straight-line part of a return, up to its final jump.
pub open spec fn after_return_body(m: Machine, syms: spec_fn(Seq<char>) -> int) -> Machine {
    exec(return_head_code() + return_restore_code(), m, syms)
}

proof fn lemma_return_head(m: Machine, syms: spec_fn(Seq<char>) -> int)
    requires
        standard_symbols(syms),
        21 <= (m.ram)(1) <= 32767,
        16 <= (m.ram)(2) < 32767,
        17 <= sp(m) <= 32767,
    ensures
        ({
            let m1 = exec(return_head_code(), m, syms);
            let lcl = (m.ram)(1);
            let arg = (m.ram)(2);
            &&& (m1.ram)(0) == arg + 1
            &&& (m1.ram)(14) == lcl
            &&& (m1.ram)(15) == (m.ram)(lcl - 5)
            &&& (m1.ram)(arg) == (m.ram)(sp(m) - 1)
            &&& forall|k: int| k != 0 && k != 14 && k != 15 && k != arg ==> #[trigger] (m1.ram)(k) == (m.ram)(k)
        }),
{
    reveal_with_fuel(exec_from, 19);
}

proof fn lemma_restore(p: Seq<char>, addr: int, offset: nat, m: Machine, syms: spec_fn(Seq<char>) -> int)
    requires
        standard_symbols(syms),
        syms(p) == addr,
        0 <= addr < 16,
        1 <= offset <= 4,
        21 <= (m.ram)(14) <= 32767,
    ensures
        exec(restore_code(p, offset), m, syms).ram =~= update(m.ram, addr, (m.ram)((m.ram)(14) - offset)),
{
    reveal_with_fuel(exec_from, 8);
}

proof fn lemma_return_body(m: Machine, syms: spec_fn(Seq<char>) -> int)
    requires
        standard_symbols(syms),
        21 <= (m.ram)(1) <= 32767,
        16 <= (m.ram)(2) <= (m.ram)(1) - 5,
        17 <= sp(m) <= 32767,
    ensures
        ({
            let m1 = after_return_body(m, syms);
            let lcl = (m.ram)(1);
            let arg = (m.ram)(2);
            &&& (m1.ram)(0) == arg + 1
            &&& (m1.ram)(1) == (m.ram)(lcl - 4)
            &&& (m1.ram)(2) == (m.ram)(lcl - 3)
            &&& (m1.ram)(3) == (m.ram)(lcl - 2)
            &&& (m1.ram)(4) == (m.ram)(lcl - 1)
            &&& (m1.ram)(15) == (m.ram)(lcl - 5)
            &&& (m1.ram)(arg) == (m.ram)(sp(m) - 1)
        }),
{
    let lcl = (m.ram)(1);
    lemma_return_head(m, syms);
    let m0 = exec(return_head_code(), m, syms);
    lemma_exec_append(return_head_code(), return_restore_code(), m, syms);
    let r1 = restore_code("THAT"@, 1);
    let r2 = restore_code("THIS"@, 2);
    let r3 = restore_code("ARG"@, 3);
    let r4 = restore_code("LCL"@, 4);
    assert(return_restore_code() =~= r1 + (r2 + (r3 + r4)));
    lemma_exec_append(r1, r2 + (r3 + r4), m0, syms);
    lemma_restore("THAT"@, 4, 1, m0, syms);
    let m1 = exec(r1, m0, syms);
    lemma_exec_append(r2, r3 + r4, m1, syms);
    lemma_restore("THIS"@, 3, 2, m1, syms);
    let m2 = exec(r2, m1, syms);
    lemma_exec_append(r3, r4, m2, syms);
    lemma_restore("ARG"@, 2, 3, m2, syms);
    let m3 = exec(r3, m2, syms);
    lemma_restore("LCL"@, 1, 4, m3, syms);
}

/// `call f n` pushes the return address and the caller's `LCL`, `ARG`, `THIS`
/// and `THAT`, points `ARG` at the first of the `n` arguments and `LCL` at the
/// new top of the stack, five words above the old one, and jumps to `f`.
pub proof fn lemma_call(name: Seq<char>, nargs: nat, id: nat, m: Machine, syms: spec_fn(Seq<char>) -> int)
    requires
        standard_symbols(syms),
        16 + nargs <= sp(m),
        sp(m) + 5 <= 32767,
        word(syms(name)) != word(syms(return_label(id))),
    ensures
        run(call_code(name, nargs, id), 0, m, syms) matches Outcome::Left(m1) && {
            let s = sp(m);
            &&& m1.a == word(syms(name))
            &&& sp(m1) == s + 5
            &&& (m1.ram)(1) == s + 5
            &&& (m1.ram)(2) == s - nargs
            &&& (m1.ram)(s) == word(syms(return_label(id)))
            &&& (m1.ram)(s + 1) == (m.ram)(1)
            &&& (m1.ram)(s + 2) == (m.ram)(2)
            &&& (m1.ram)(s + 3) == (m.ram)(3)
            &&& (m1.ram)(s + 4) == (m.ram)(4)
        },
{
    lemma_call_setup(nargs, id, m, syms);
    let m1 = after_call_setup(nargs, id, m, syms);
    lemma_call_setup_straight(nargs, id);
    lemma_run_seq(call_setup_code(nargs, id), call_jump_code(name, id), m, syms);
    let cj = call_jump_code(name, id);
    let m1a = Machine { a: word(syms(name)), ..m1 };
    assert(run(cj, 0, m1, syms) == run(cj, 1, m1a, syms));
    assert(label_from(cj, 2, m1a.a, syms) is None) by {
        reveal_with_fuel(label_from, 2);
    }
    assert(run(cj, 1, m1a, syms) == Outcome::Left(m1a));
}

/// A call followed, once the callee is done, by its `return`: the call saves
/// the caller's frame and jumps to the callee; if the callee leaves `LCL`,
/// `ARG` and the saved frame as the call set them, and its result on top of
/// its stack, the return puts that result where the first argument was, sets
/// `SP` just above it (the pre-call `SP` less the arguments, plus one),
/// restores `LCL`, `ARG`, `THIS` and `THAT`, and jumps to the call's return
/// label.
pub proof fn lemma_call_then_return(
    name: Seq<char>,
    nargs: nat,
    id: nat,
    m: Machine,
    m2: Machine,
    syms: spec_fn(Seq<char>) -> int,
)
    requires
        standard_symbols(syms),
        16 + nargs <= sp(m),
        sp(m) + 6 <= 32767,
        word(syms(name)) != word(syms(return_label(id))),
        ({
            let m1 = after_call_setup(nargs, id, m, syms);
            &&& (m2.ram)(1) == (m1.ram)(1)
            &&& (m2.ram)(2) == (m1.ram)(2)
            &&& forall|k: int| sp(m) <= k < sp(m) + 5 ==> #[trigger] (m2.ram)(k) == (m1.ram)(k)
        }),
        sp(m) + 6 <= sp(m2) <= 32767,
    ensures
        run(call_code(name, nargs, id), 0, m, syms) matches Outcome::Left(m1) && m1.a == word(syms(name)),
        run(return_code(), 0, m2, syms) matches Outcome::Left(m3) && {
            &&& m3.a == word(syms(return_label(id)))
            &&& sp(m3) == sp(m) - nargs + 1
            &&& (m3.ram)(sp(m) - nargs) == (m2.ram)(sp(m2) - 1)
            &&& (m3.ram)(1) == (m.ram)(1)
            &&& (m3.ram)(2) == (m.ram)(2)
            &&& (m3.ram)(3) == (m.ram)(3)
            &&& (m3.ram)(4) == (m.ram)(4)
        },
{
    lemma_call(name, nargs, id, m, syms);
    lemma_call_setup(nargs, id, m, syms);
    // The return.
    lemma_return_body(m2, syms);
    let mb = after_return_body(m2, syms);
    lemma_return_straight();
    lemma_run_seq(return_head_code() + return_restore_code(), return_jump_code(), m2, syms);
    let rj = return_jump_code();
    let mc = Machine { a: 15, ..mb };
    let md = Machine { a: (mb.ram)(15), ..mb };
    assert(run(rj, 0, mb, syms) == run(rj, 1, mc, syms));
    assert(run(rj, 1, mc, syms) == run(rj, 2, md, syms));
    assert(run(rj, 2, md, syms) == Outcome::Left(md));
}

proof fn lemma_call_setup_straight(nargs: nat, id: nat)
    ensures
        straight(call_setup_code(nargs, id)),
{
    assert(straight(push_d_code()));
    let hh = seq![Instr::Sym(return_label(id)), Instr::Assign(Dest::D, Comp::A)];
    assert(straight(hh));
    lemma_straight_append(hh, push_d_code());
    assert forall|p: Seq<char>| straight(#[trigger] push_segment_code(p)) by {
        let h = seq![Instr::Sym(p), Instr::Assign(Dest::D, Comp::M)];
        assert(straight(h));
        lemma_straight_append(h, push_d_code());
    }
    lemma_straight_append(push_segment_code("LCL"@), push_segment_code("ARG"@));
    lemma_straight_append(push_segment_code("LCL"@) + push_segment_code("ARG"@), push_segment_code("THIS"@));
    lemma_straight_append(
        push_segment_code("LCL"@) + push_segment_code("ARG"@) + push_segment_code("THIS"@),
        push_segment_code("THAT"@),
    );
    assert(straight(call_reposition_code(nargs)));
    lemma_straight_append(call_head_code(id), call_frame_code());
    lemma_straight_append(call_head_code(id) + call_frame_code(), call_reposition_code(nargs));
}

proof fn lemma_return_straight()
    ensures
        straight(return_head_code() + return_restore_code()),
{
    assert(straight(return_head_code()));
    assert forall|p: Seq<char>, o: nat| straight(#[trigger] restore_code(p, o)) by {}
    lemma_straight_append(restore_code("THAT"@, 1), restore_code("THIS"@, 2));
    lemma_straight_append(restore_code("THAT"@, 1) + restore_code("THIS"@, 2), restore_code("ARG"@, 3));
    lemma_straight_append(
        restore_code("THAT"@, 1) + restore_code("THIS"@, 2) + restore_code("ARG"@, 3),
        restore_code("LCL"@, 4),
    );
    lemma_straight_append(return_head_code(), return_restore_code());
}


// ---------------------------------------------------------------------------
// The texts of calls and returns.
// ---------------------------------------------------------------------------

proof fn lemma_push_segment_text(p: Seq<char>)
    ensures
        push_segment_text(p) == join(push_segment_code(p)),
{
    lemma_push_d_text();
    let h = seq![Instr::Sym(p), Instr::Assign(Dest::D, Comp::M)];
    lemma_join_append(h, push_d_code());
    lemma_join_two(h[0], h[1]);
    assert("\nD=M\n"@ =~= "\n"@ + (dest_text(Dest::D) + "="@ + comp_text(Comp::M)) + "\n"@) by {
        reveal_strlit("\nD=M\n");
        reveal_strlit("\n");
        reveal_strlit("D");
        reveal_strlit("=");
        reveal_strlit("M");
    }
    assert(push_segment_text(p) =~= join(h) + "\n"@ + join(push_d_code()));
}

proof fn lemma_call_head_text(id: nat)
    ensures
        join(call_head_code(id)) == "@__RET_"@ + dec(id) + "\nD=A\n"@ + push_d_text(),
{
    lemma_push_d_text();
    let h = seq![Instr::Sym(return_label(id)), Instr::Assign(Dest::D, Comp::A)];
    lemma_join_append(h, push_d_code());
    lemma_join_two(h[0], h[1]);
    assert("@__RET_"@ =~= "@"@ + "__RET_"@) by {
        reveal_strlit("@__RET_");
        reveal_strlit("@");
        reveal_strlit("__RET_");
    }
    assert("\nD=A\n"@ =~= "\n"@ + (dest_text(Dest::D) + "="@ + comp_text(Comp::A)) + "\n"@) by {
        reveal_strlit("\nD=A\n");
        reveal_strlit("\n");
        reveal_strlit("D");
        reveal_strlit("=");
        reveal_strlit("A");
    }
    assert(join(call_head_code(id)) =~= "@__RET_"@ + dec(id) + "\nD=A\n"@ + push_d_text());
}

pub open spec fn reposition_rest_code() -> Seq<Instr> {
    call_reposition_code(0).drop_first()
}

proof fn lemma_reposition_rest_text()
    ensures
        join(reposition_rest_code()) == "D=A\n@SP\nD=M-D\n@ARG\nM=D\n@SP\nD=M\n@LCL\nM=D"@,
{
    reveal_with_fuel(join, 10);
    reveal_strlit("D=A\n@SP\nD=M-D\n@ARG\nM=D\n@SP\nD=M\n@LCL\nM=D");
    reveal_strlit("@");
    reveal_strlit("SP");
    reveal_strlit("ARG");
    reveal_strlit("LCL");
    reveal_strlit("\n");
    reveal_strlit("A");
    reveal_strlit("M");
    reveal_strlit("D");
    reveal_strlit("=");
    reveal_strlit("M-D");
    assert(reposition_rest_code() =~= seq![
        Instr::Assign(Dest::D, Comp::A),
        Instr::Sym("SP"@),
        Instr::Assign(Dest::D, Comp::MMinusD),
        Instr::Sym("ARG"@),
        Instr::Assign(Dest::M, Comp::D),
        Instr::Sym("SP"@),
        Instr::Assign(Dest::D, Comp::M),
        Instr::Sym("LCL"@),
        Instr::Assign(Dest::M, Comp::D),
    ]);
    assert(join(reposition_rest_code()) =~= "D=A\n@SP\nD=M-D\n@ARG\nM=D\n@SP\nD=M\n@LCL\nM=D"@);
}

proof fn lemma_call_reposition_text(nargs: nat)
    ensures
        join(call_reposition_code(nargs)) == "@"@ + dec(nargs + 5) + "\n"@
            + "D=A\n@SP\nD=M-D\n@ARG\nM=D\n@SP\nD=M\n@LCL\nM=D"@,
{
    let r = call_reposition_code(nargs);
    assert(r =~= seq![Instr::Num(nargs + 5)] + reposition_rest_code());
    lemma_join_append(seq![Instr::Num(nargs + 5)], reposition_rest_code());
    lemma_reposition_rest_text();
    reveal_with_fuel(join, 1);
}

proof fn lemma_call_jump_text(name: Seq<char>, id: nat)
    ensures
        join(call_jump_code(name, id)) == "@"@ + name + "\n0;JMP\n(__RET_"@ + dec(id) + ")"@,
{
    lemma_join_three(Instr::Sym(name), Instr::Jump(Comp::Zero, Cond::Always), Instr::Define(return_label(id)));
    assert("\n0;JMP\n(__RET_"@ =~= "\n"@ + (comp_text(Comp::Zero) + ";"@ + cond_text(Cond::Always)) + "\n"@ + "("@ + "__RET_"@) by {
        reveal_strlit("\n0;JMP\n(__RET_");
        reveal_strlit("\n");
        reveal_strlit("0");
        reveal_strlit(";");
        reveal_strlit("JMP");
        reveal_strlit("(");
        reveal_strlit("__RET_");
    }
    assert(join(call_jump_code(name, id)) =~= "@"@ + name + "\n0;JMP\n(__RET_"@ + dec(id) + ")"@);
}

proof fn lemma_call_frame_text()
    ensures
        join(call_frame_code()) == push_segment_text("LCL"@) + "\n"@ + push_segment_text("ARG"@) + "\n"@
            + push_segment_text("THIS"@) + "\n"@ + push_segment_text("THAT"@),
{
    let f1 = push_segment_code("LCL"@);
    let f2 = push_segment_code("ARG"@);
    let f3 = push_segment_code("THIS"@);
    let f4 = push_segment_code("THAT"@);
    lemma_push_segment_text("LCL"@);
    lemma_push_segment_text("ARG"@);
    lemma_push_segment_text("THIS"@);
    lemma_push_segment_text("THAT"@);
    lemma_join_append(f1, f2);
    lemma_join_append(f1 + f2, f3);
    lemma_join_append(f1 + f2 + f3, f4);
}

/// The text of each call is the rendering of its instructions.
pub proof fn lemma_call_text(name: Seq<char>, nargs: nat, id: nat)
    ensures
        call_text(name, nargs, id) == join(call_code(name, nargs, id)),
{
    let h = call_head_code(id);
    let f = call_frame_code();
    let r = call_reposition_code(nargs);
    let jc = call_jump_code(name, id);
    lemma_join_append(h, f);
    lemma_join_append(h + f, r);
    lemma_join_append(h + f + r, jc);
    lemma_call_head_text(id);
    lemma_call_frame_text();
    lemma_call_reposition_text(nargs);
    lemma_call_jump_text(name, id);
    let rest = "D=A\n@SP\nD=M-D\n@ARG\nM=D\n@SP\nD=M\n@LCL\nM=D"@;
    assert("\n@"@ =~= "\n"@ + "@"@) by {
        reveal_strlit("\n@");
        reveal_strlit("\n");
        reveal_strlit("@");
    }
    assert("\nD=A\n@SP\nD=M-D\n@ARG\nM=D\n@SP\nD=M\n@LCL\nM=D\n@"@ =~= "\n"@ + rest + "\n"@ + "@"@) by {
        reveal_strlit("\nD=A\n@SP\nD=M-D\n@ARG\nM=D\n@SP\nD=M\n@LCL\nM=D\n@");
        reveal_strlit("D=A\n@SP\nD=M-D\n@ARG\nM=D\n@SP\nD=M\n@LCL\nM=D");
        reveal_strlit("\n");
        reveal_strlit("@");
    }
    lemma_call_shape(
        "@__RET_"@, dec(id), "\nD=A\n"@, push_d_text(), "\n"@,
        push_segment_text("LCL"@), push_segment_text("ARG"@), push_segment_text("THIS"@), push_segment_text("THAT"@),
        "\n@"@, "@"@, dec(nargs + 5), "\nD=A\n@SP\nD=M-D\n@ARG\nM=D\n@SP\nD=M\n@LCL\nM=D\n@"@, rest, name,
        "\n0;JMP\n(__RET_"@, ")"@,
    );
    assert(call_code(name, nargs, id) == h + f + r + jc);
}

proof fn lemma_call_shape(
    ret: Seq<char>, d: Seq<char>, g1: Seq<char>, pd: Seq<char>, nl: Seq<char>,
    s1: Seq<char>, s2: Seq<char>, s3: Seq<char>, s4: Seq<char>,
    nl_at: Seq<char>, at: Seq<char>, k: Seq<char>, lit_r: Seq<char>, rest: Seq<char>, name: Seq<char>,
    l2: Seq<char>, close: Seq<char>,
)
    requires
        nl_at == nl + at,
        lit_r == nl + rest + nl + at,
    ensures
        ret + d + g1 + pd + nl + s1 + nl + s2 + nl + s3 + nl + s4 + nl_at + k + lit_r + name + l2 + d + close
            == (ret + d + g1 + pd) + nl + (s1 + nl + s2 + nl + s3 + nl + s4) + nl + (at + k + nl + rest) + nl
                + (at + name + l2 + d + close),
{
    assert(ret + d + g1 + pd + nl + s1 + nl + s2 + nl + s3 + nl + s4 + nl_at + k + lit_r + name + l2 + d + close
        =~= (ret + d + g1 + pd) + nl + (s1 + nl + s2 + nl + s3 + nl + s4) + nl + (at + k + nl + rest) + nl
            + (at + name + l2 + d + close));
}

proof fn lemma_restore_text(p: Seq<char>, offset: nat)
    ensures
        restore_segment_text(p, offset) == join(restore_code(p, offset)),
{
    reveal_with_fuel(join, 7);
    reveal_strlit("@R14\nD=M\n@");
    reveal_strlit("\nA=D-A\nD=M\n@");
    reveal_strlit("\nM=D");
    reveal_strlit("@");
    reveal_strlit("R14");
    reveal_strlit("\n");
    reveal_strlit("A");
    reveal_strlit("M");
    reveal_strlit("D");
    reveal_strlit("=");
    reveal_strlit("D-A");
    assert(restore_segment_text(p, offset) =~= join(restore_code(p, offset)));
}

proof fn lemma_return_head_text()
    ensures
        join(return_head_code())
            == "@LCL\nD=M\n@R14\nM=D\n@5\nA=D-A\nD=M\n@R15\nM=D\n@SP\nAM=M-1\nD=M\n@ARG\nA=M\nM=D\nD=A+1\n@SP\nM=D"@,
{
    reveal_with_fuel(join, 18);
    reveal_strlit("@LCL\nD=M\n@R14\nM=D\n@5\nA=D-A\nD=M\n@R15\nM=D\n@SP\nAM=M-1\nD=M\n@ARG\nA=M\nM=D\nD=A+1\n@SP\nM=D");
    reveal_strlit("@");
    reveal_strlit("LCL");
    reveal_strlit("R14");
    reveal_strlit("R15");
    reveal_strlit("SP");
    reveal_strlit("ARG");
    reveal_strlit("\n");
    reveal_strlit("A");
    reveal_strlit("AM");
    reveal_strlit("M");
    reveal_strlit("D");
    reveal_strlit("=");
    reveal_strlit("D-A");
    reveal_strlit("M-1");
    reveal_strlit("A+1");
    assert(dec(5) =~= seq!['5']);
    assert(join(return_head_code())
        =~= "@LCL\nD=M\n@R14\nM=D\n@5\nA=D-A\nD=M\n@R15\nM=D\n@SP\nAM=M-1\nD=M\n@ARG\nA=M\nM=D\nD=A+1\n@SP\nM=D"@);
}

proof fn lemma_return_jump_text()
    ensures
        join(return_jump_code()) == "@R15\nA=M\n0;JMP"@,
{
    lemma_join_three(Instr::Sym("R15"@), Instr::Assign(Dest::A, Comp::M), Instr::Jump(Comp::Zero, Cond::Always));
    reveal_strlit("@R15\nA=M\n0;JMP");
    reveal_strlit("@");
    reveal_strlit("R15");
    reveal_strlit("\n");
    reveal_strlit("A");
    reveal_strlit("M");
    reveal_strlit("=");
    reveal_strlit("0");
    reveal_strlit(";");
    reveal_strlit("JMP");
    assert(join(return_jump_code()) =~= "@R15\nA=M\n0;JMP"@);
}

proof fn lemma_join_four(a: Seq<Instr>, b: Seq<Instr>, c: Seq<Instr>, d: Seq<Instr>)
    requires
        a.len() > 0,
        b.len() > 0,
        c.len() > 0,
        d.len() > 0,
    ensures
        join(a + b + c + d) == join(a) + "\n"@ + join(b) + "\n"@ + join(c) + "\n"@ + join(d),
{
    lemma_join_append(a, b);
    lemma_join_append(a + b, c);
    lemma_join_append(a + b + c, d);
}

proof fn lemma_return_restore_text()
    ensures
        join(return_restore_code()) == restore_segment_text("THAT"@, 1) + "\n"@ + restore_segment_text("THIS"@, 2)
            + "\n"@ + restore_segment_text("ARG"@, 3) + "\n"@ + restore_segment_text("LCL"@, 4),
{
    lemma_restore_text("THAT"@, 1);
    lemma_restore_text("THIS"@, 2);
    lemma_restore_text("ARG"@, 3);
    lemma_restore_text("LCL"@, 4);
    lemma_join_four(
        restore_code("THAT"@, 1),
        restore_code("THIS"@, 2),
        restore_code("ARG"@, 3),
        restore_code("LCL"@, 4),
    );
}

proof fn lemma_return_glue()
    ensures
        "@LCL\nD=M\n@R14\nM=D\n@5\nA=D-A\nD=M\n@R15\nM=D\n@SP\nAM=M-1\nD=M\n@ARG\nA=M\nM=D\nD=A+1\n@SP\nM=D\n"@
            == "@LCL\nD=M\n@R14\nM=D\n@5\nA=D-A\nD=M\n@R15\nM=D\n@SP\nAM=M-1\nD=M\n@ARG\nA=M\nM=D\nD=A+1\n@SP\nM=D"@ + "\n"@,
        "\n@R15\nA=M\n0;JMP"@ == "\n"@ + "@R15\nA=M\n0;JMP"@,
{
    reveal_strlit("@LCL\nD=M\n@R14\nM=D\n@5\nA=D-A\nD=M\n@R15\nM=D\n@SP\nAM=M-1\nD=M\n@ARG\nA=M\nM=D\nD=A+1\n@SP\nM=D\n");
    reveal_strlit("@LCL\nD=M\n@R14\nM=D\n@5\nA=D-A\nD=M\n@R15\nM=D\n@SP\nAM=M-1\nD=M\n@ARG\nA=M\nM=D\nD=A+1\n@SP\nM=D");
    reveal_strlit("\n@R15\nA=M\n0;JMP");
    reveal_strlit("@R15\nA=M\n0;JMP");
    reveal_strlit("\n");
    assert("@LCL\nD=M\n@R14\nM=D\n@5\nA=D-A\nD=M\n@R15\nM=D\n@SP\nAM=M-1\nD=M\n@ARG\nA=M\nM=D\nD=A+1\n@SP\nM=D\n"@
        =~= "@LCL\nD=M\n@R14\nM=D\n@5\nA=D-A\nD=M\n@R15\nM=D\n@SP\nAM=M-1\nD=M\n@ARG\nA=M\nM=D\nD=A+1\n@SP\nM=D"@ + "\n"@);
    assert("\n@R15\nA=M\n0;JMP"@ =~= "\n"@ + "@R15\nA=M\n0;JMP"@);
}

/// The text of `return` is the rendering of its instructions.
pub proof fn lemma_return_text()
    ensures
        return_text() == join(return_code()),
{
    lemma_return_restore_text();
    lemma_join_append(return_head_code(), return_restore_code());
    lemma_join_append(return_head_code() + return_restore_code(), return_jump_code());
    lemma_return_head_text();
    lemma_return_jump_text();
    lemma_return_glue();
    lemma_return_shape(
        "@LCL\nD=M\n@R14\nM=D\n@5\nA=D-A\nD=M\n@R15\nM=D\n@SP\nAM=M-1\nD=M\n@ARG\nA=M\nM=D\nD=A+1\n@SP\nM=D\n"@,
        "@LCL\nD=M\n@R14\nM=D\n@5\nA=D-A\nD=M\n@R15\nM=D\n@SP\nAM=M-1\nD=M\n@ARG\nA=M\nM=D\nD=A+1\n@SP\nM=D"@,
        "\n"@,
        restore_segment_text("THAT"@, 1),
        restore_segment_text("THIS"@, 2),
        restore_segment_text("ARG"@, 3),
        restore_segment_text("LCL"@, 4),
        "\n@R15\nA=M\n0;JMP"@,
        "@R15\nA=M\n0;JMP"@,
    );
}

proof fn lemma_return_shape(
    h1: Seq<char>, h: Seq<char>, nl: Seq<char>, t1: Seq<char>, t2: Seq<char>, t3: Seq<char>, t4: Seq<char>,
    j1: Seq<char>, j: Seq<char>,
)
    requires
        h1 == h + nl,
        j1 == nl + j,
    ensures
        h1 + t1 + nl + t2 + nl + t3 + nl + t4 + j1 == h + nl + (t1 + nl + t2 + nl + t3 + nl + t4) + nl + j,
{
    assert(h1 + t1 + nl + t2 + nl + t3 + nl + t4 + j1 =~= h + nl + (t1 + nl + t2 + nl + t3 + nl + t4) + nl + j);
}


// ---------------------------------------------------------------------------
// Arithmetic, branching, and every command.
// ---------------------------------------------------------------------------

pub open spec fn unary_prologue_code() -> Seq<Instr> {
    seq![Instr::Sym("SP"@), Instr::Assign(Dest::A, Comp::MMinus1), Instr::Assign(Dest::D, Comp::M)]
}

pub open spec fn binary_op_code(op: Comp) -> Seq<Instr> {
    binary_prologue_code() + seq![Instr::Assign(Dest::M, op)]
}

pub open spec fn unary_op_code(op: Comp) -> Seq<Instr> {
    unary_prologue_code() + seq![Instr::Assign(Dest::M, op)]
}

pub open spec fn if_goto_code(target: Seq<char>) -> Seq<Instr> {
    seq![
        Instr::Sym("SP"@),
        Instr::Assign(Dest::AM, Comp::MMinus1),
        Instr::Assign(Dest::D, Comp::M),
        Instr::Sym(target),
        Instr::Jump(Comp::D, Cond::Ne),
    ]
}

/// The instructions the generator emits for `c` in state `w`.
pub open spec fn code_of(w: WriterState, c: VmCommand) -> Seq<Instr> {
    match c {
        VmCommand::Add => binary_op_code(Comp::DPlusM),
        VmCommand::Sub => binary_op_code(Comp::MMinusD),
        VmCommand::Neg => unary_op_code(Comp::NegD),
        VmCommand::Eq => comparison_code(Cond::Eq, w.counter),
        VmCommand::Gt => comparison_code(Cond::Gt, w.counter),
        VmCommand::Lt => comparison_code(Cond::Lt, w.counter),
        VmCommand::And => binary_op_code(Comp::DAndM),
        VmCommand::Or => binary_op_code(Comp::DOrM),
        VmCommand::Not => unary_op_code(Comp::NotD),
        VmCommand::Push(s, i) => push_code(w.file, s, i as nat),
        VmCommand::Pop(s, i) => pop_code(w.file, s, i as nat),
        VmCommand::Label(l) => seq![Instr::Define(scope(w) + "$"@ + l)],
        VmCommand::Goto(l) => seq![Instr::Sym(scope(w) + "$"@ + l), Instr::Jump(Comp::Zero, Cond::Always)],
        VmCommand::IfGoto(l) => if_goto_code(scope(w) + "$"@ + l),
        VmCommand::Function(n, k) => function_code(n, k as nat),
        VmCommand::Call(n, k) => call_code(n, k as nat, w.counter),
        VmCommand::Return => return_code(),
    }
}

proof fn lemma_unary_prologue_text()
    ensures
        unary_prologue_text() == join(unary_prologue_code()),
{
    lemma_join_three(Instr::Sym("SP"@), Instr::Assign(Dest::A, Comp::MMinus1), Instr::Assign(Dest::D, Comp::M));
    reveal_strlit("@SP\nA=M-1\nD=M");
    reveal_strlit("@");
    reveal_strlit("SP");
    reveal_strlit("\n");
    reveal_strlit("A");
    reveal_strlit("M");
    reveal_strlit("D");
    reveal_strlit("=");
    reveal_strlit("M-1");
    assert(unary_prologue_text() =~= join(unary_prologue_code()));
}

proof fn lemma_op_line(op: Comp, lit: Seq<char>)
    requires
        lit == "\n"@ + "M"@ + "="@ + comp_text(op),
    ensures
        lit == "\n"@ + join(seq![Instr::Assign(Dest::M, op)]),
{
    reveal_with_fuel(join, 1);
    assert(lit =~= "\n"@ + join(seq![Instr::Assign(Dest::M, op)]));
}

proof fn lemma_binary_op_text(op: Comp, lit: Seq<char>)
    requires
        lit == "\n"@ + "M"@ + "="@ + comp_text(op),
    ensures
        binary_prologue_text() + lit == join(binary_op_code(op)),
{
    lemma_binary_prologue_text();
    lemma_op_line(op, lit);
    lemma_join_append(binary_prologue_code(), seq![Instr::Assign(Dest::M, op)]);
    assert(binary_prologue_text() + lit =~= join(binary_op_code(op)));
}

proof fn lemma_unary_op_text(op: Comp, lit: Seq<char>)
    requires
        lit == "\n"@ + "M"@ + "="@ + comp_text(op),
    ensures
        unary_prologue_text() + lit == join(unary_op_code(op)),
{
    lemma_unary_prologue_text();
    lemma_op_line(op, lit);
    lemma_join_append(unary_prologue_code(), seq![Instr::Assign(Dest::M, op)]);
    assert(unary_prologue_text() + lit =~= join(unary_op_code(op)));
}

proof fn lemma_arith_text(w: WriterState, c: VmCommand)
    requires
        c is Add || c is Sub || c is Neg || c is And || c is Or || c is Not,
    ensures
        assembly(w, c) == join(code_of(w, c)),
{
    reveal_strlit("\n");
    reveal_strlit("M");
    reveal_strlit("=");
    match c {
        VmCommand::Add => {
            reveal_strlit("\nM=D+M");
            reveal_strlit("D+M");
            assert("\nM=D+M"@ =~= "\n"@ + "M"@ + "="@ + comp_text(Comp::DPlusM));
            lemma_binary_op_text(Comp::DPlusM, "\nM=D+M"@);
        },
        VmCommand::Sub => {
            reveal_strlit("\nM=M-D");
            reveal_strlit("M-D");
            assert("\nM=M-D"@ =~= "\n"@ + "M"@ + "="@ + comp_text(Comp::MMinusD));
            lemma_binary_op_text(Comp::MMinusD, "\nM=M-D"@);
        },
        VmCommand::And => {
            reveal_strlit("\nM=D&M");
            reveal_strlit("D&M");
            assert("\nM=D&M"@ =~= "\n"@ + "M"@ + "="@ + comp_text(Comp::DAndM));
            lemma_binary_op_text(Comp::DAndM, "\nM=D&M"@);
        },
        VmCommand::Or => {
            reveal_strlit("\nM=D|M");
            reveal_strlit("D|M");
            assert("\nM=D|M"@ =~= "\n"@ + "M"@ + "="@ + comp_text(Comp::DOrM));
            lemma_binary_op_text(Comp::DOrM, "\nM=D|M"@);
        },
        VmCommand::Neg => {
            reveal_strlit("\nM=-D");
            reveal_strlit("-D");
            assert("\nM=-D"@ =~= "\n"@ + "M"@ + "="@ + comp_text(Comp::NegD));
            lemma_unary_op_text(Comp::NegD, "\nM=-D"@);
        },
        _ => {
            reveal_strlit("\nM=!D");
            reveal_strlit("!D");
            assert("\nM=!D"@ =~= "\n"@ + "M"@ + "="@ + comp_text(Comp::NotD));
            lemma_unary_op_text(Comp::NotD, "\nM=!D"@);
        },
    }
}

proof fn lemma_goto_text(w: WriterState, l: Seq<char>)
    ensures
        assembly(w, VmCommand::Goto(l)) == join(code_of(w, VmCommand::Goto(l))),
{
    let c = VmCommand::Goto(l);
    let x = scope(w) + "$"@ + l;
    lemma_join_two(Instr::Sym(x), Instr::Jump(Comp::Zero, Cond::Always));
    assert("\n0;JMP"@ =~= "\n"@ + "0"@ + ";"@ + "JMP"@) by {
        reveal_strlit("\n0;JMP");
        reveal_strlit("\n");
        reveal_strlit("0");
        reveal_strlit(";");
        reveal_strlit("JMP");
    }
    assert(assembly(w, c) =~= join(code_of(w, c)));
}

proof fn lemma_if_goto_text(w: WriterState, l: Seq<char>)
    ensures
        assembly(w, VmCommand::IfGoto(l)) == join(code_of(w, VmCommand::IfGoto(l))),
{
    let c = VmCommand::IfGoto(l);
    let x = scope(w) + "$"@ + l;
    let first = seq![Instr::Sym("SP"@), Instr::Assign(Dest::AM, Comp::MMinus1), Instr::Assign(Dest::D, Comp::M)];
    let last = seq![Instr::Sym(x), Instr::Jump(Comp::D, Cond::Ne)];
    assert(if_goto_code(x) =~= first + last);
    lemma_join_append(first, last);
    lemma_join_three(first[0], first[1], first[2]);
    lemma_join_two(last[0], last[1]);
    assert(join(first) =~= "@SP\nAM=M-1\nD=M"@) by {
        reveal_strlit("@SP\nAM=M-1\nD=M");
        reveal_strlit("@");
        reveal_strlit("SP");
        reveal_strlit("\n");
        reveal_strlit("AM");
        reveal_strlit("D");
        reveal_strlit("M");
        reveal_strlit("=");
        reveal_strlit("M-1");
    }
    assert("\nD;JNE"@ =~= "\n"@ + "D"@ + ";"@ + "JNE"@) by {
        reveal_strlit("\nD;JNE");
        reveal_strlit("\n");
        reveal_strlit("D");
        reveal_strlit(";");
        reveal_strlit("JNE");
    }
    assert("@SP\nAM=M-1\nD=M\n@"@ =~= "@SP\nAM=M-1\nD=M"@ + "\n"@ + "@"@) by {
        reveal_strlit("@SP\nAM=M-1\nD=M\n@");
        reveal_strlit("@SP\nAM=M-1\nD=M");
        reveal_strlit("\n");
        reveal_strlit("@");
    }
    assert(assembly(w, c) =~= join(code_of(w, c)));
}

proof fn lemma_branch_text(w: WriterState, c: VmCommand)
    requires
        c is Label || c is Goto || c is IfGoto,
    ensures
        assembly(w, c) == join(code_of(w, c)),
{
    match c {
        VmCommand::Label(l) => {
            reveal_with_fuel(join, 1);
            assert(assembly(w, c) =~= join(code_of(w, c)));
        },
        VmCommand::Goto(l) => lemma_goto_text(w, l),
        VmCommand::IfGoto(l) => lemma_if_goto_text(w, l),
        _ => {},
    }
}

/// The text the generator emits for every command is the rendering of the
/// instructions `code_of` gives, whose effect on the machine the lemmas of this
/// module describe.
pub proof fn lemma_assembly_is_code(w: WriterState, c: VmCommand)
    requires
        writable(c),
    ensures
        assembly(w, c) == join(code_of(w, c)),
{
    match c {
        VmCommand::Eq => lemma_comparison_text(Cond::Eq, w.counter),
        VmCommand::Gt => lemma_comparison_text(Cond::Gt, w.counter),
        VmCommand::Lt => lemma_comparison_text(Cond::Lt, w.counter),
        VmCommand::Push(s, i) => lemma_push_text(w.file, s, i as nat),
        VmCommand::Pop(s, i) => lemma_pop_text(w.file, s, i as nat),
        VmCommand::Function(n, k) => lemma_function_text(n, k as nat),
        VmCommand::Call(n, k) => lemma_call_text(n, k as nat, w.counter),
        VmCommand::Return => lemma_return_text(),
        VmCommand::Label(_) | VmCommand::Goto(_) | VmCommand::IfGoto(_) => lemma_branch_text(w, c),
        _ => lemma_arith_text(w, c),
    }
}

/// `add`, `sub`, `and` and `or` replace the two words on top of the stack by
/// the result of the operation on them, and `SP` drops by one.
pub proof fn lemma_binary_op(op: Comp, m: Machine, syms: spec_fn(Seq<char>) -> int)
    requires
        standard_symbols(syms),
        18 <= sp(m) <= 32767,
    ensures
        run(binary_op_code(op), 0, m, syms) matches Outcome::Fell(m2) && {
            let x = (m.ram)(sp(m) - 2);
            let y = (m.ram)(sp(m) - 1);
            let t = Machine { a: sp(m) - 2, d: y, ram: update(m.ram, 0, sp(m) - 1) };
            &&& m2.ram =~= update(update(m.ram, 0, sp(m) - 1), sp(m) - 2, comp_value(op, t))
            &&& op == Comp::DPlusM ==> comp_value(op, t) == word(x + y)
            &&& op == Comp::MMinusD ==> comp_value(op, t) == word(x - y)
        },
{
    assert(straight(binary_prologue_code()));
    assert(straight(seq![Instr::Assign(Dest::M, op)]));
    lemma_straight_append(binary_prologue_code(), seq![Instr::Assign(Dest::M, op)]);
    lemma_run_straight(binary_op_code(op), m, syms);
    lemma_exec_append(binary_prologue_code(), seq![Instr::Assign(Dest::M, op)], m, syms);
    lemma_binary_prologue(m, syms);
    let m1 = exec(binary_prologue_code(), m, syms);
    assert((m1.ram)(sp(m) - 2) == (m.ram)(sp(m) - 2));
    reveal_with_fuel(exec_from, 2);
}


// ---------------------------------------------------------------------------
// Bootstrap.
// ---------------------------------------------------------------------------

pub open spec fn stack_init_code() -> Seq<Instr> {
    seq![
        Instr::Num(256),
        Instr::Assign(Dest::D, Comp::A),
        Instr::Sym("SP"@),
        Instr::Assign(Dest::M, Comp::D),
    ]
}

pub open spec fn bootstrap_code(id: nat) -> Seq<Instr> {
    stack_init_code() + call_code("Sys.init"@, 0, id)
}

proof fn lemma_stack_init_text()
    ensures
        "@256\nD=A\n@SP\nM=D\n"@ == join(stack_init_code()) + "\n"@,
{
    reveal_with_fuel(join, 4);
    reveal_with_fuel(dec, 3);
    reveal_strlit("@256\nD=A\n@SP\nM=D\n");
    reveal_strlit("@");
    reveal_strlit("SP");
    reveal_strlit("\n");
    reveal_strlit("A");
    reveal_strlit("M");
    reveal_strlit("D");
    reveal_strlit("=");
    assert(dec(256) =~= seq!['2', '5', '6']);
    assert("@256\nD=A\n@SP\nM=D\n"@ =~= join(stack_init_code()) + "\n"@);
}

/// The text of the bootstrap is the rendering of its instructions.
pub proof fn lemma_bootstrap_text(id: nat)
    ensures
        bootstrap_text(id) == join(bootstrap_code(id)),
{
    lemma_stack_init_text();
    lemma_call_text("Sys.init"@, 0, id);
    lemma_join_append(stack_init_code(), call_code("Sys.init"@, 0, id));
    assert(bootstrap_text(id) =~= join(bootstrap_code(id)));
}

/// The bootstrap enters `Sys.init` with `SP` at 261: the stack starts at 256
/// and the call to `Sys.init` saves a frame of five words there, with `ARG`
/// at 256 and `LCL` at 261.
pub proof fn lemma_bootstrap(id: nat, m: Machine, syms: spec_fn(Seq<char>) -> int)
    requires
        standard_symbols(syms),
        word(syms("Sys.init"@)) != word(syms(return_label(id))),
    ensures
        run(bootstrap_code(id), 0, m, syms) matches Outcome::Left(m1) && {
            &&& m1.a == word(syms("Sys.init"@))
            &&& sp(m1) == 261
            &&& (m1.ram)(1) == 261
            &&& (m1.ram)(2) == 256
        },
{
    assert(straight(stack_init_code()));
    lemma_run_seq(stack_init_code(), call_code("Sys.init"@, 0, id), m, syms);
    let m0 = exec(stack_init_code(), m, syms);
    assert(sp(m0) == 256) by {
        reveal_with_fuel(exec_from, 5);
    }
    lemma_call("Sys.init"@, 0, id, m0, syms);
}


// ---------------------------------------------------------------------------
// Lines of the emitted text.
// ---------------------------------------------------------------------------

/// `s` holds no line break.
pub open spec fn newline_free(s: Seq<char>) -> bool {
    forall|i: int| 0 <= i < s.len() ==> s[i] != '\n'
}

/// No line of `s` starts with `/`, so none is a comment.
pub open spec fn no_comment_line(s: Seq<char>) -> bool {
    &&& (s.len() > 0 ==> s[0] != '/')
    &&& forall|i: int| 0 <= i < s.len() - 1 && #[trigger] s[i] == '\n' ==> s[i + 1] != '/'
}

/// The names an instruction carries hold no line break.
pub open spec fn names_ok(i: Instr) -> bool {
    match i {
        Instr::Sym(s) => newline_free(s),
        Instr::Define(l) => newline_free(l),
        _ => true,
    }
}

pub open spec fn all_names_ok(p: Seq<Instr>) -> bool {
    forall|k: int| 0 <= k < p.len() ==> names_ok(#[trigger] p[k])
}

proof fn lemma_dec_newline_free(n: nat)
    ensures
        newline_free(dec(n)),
        dec(n).len() > 0,
    decreases n,
{
    if n >= 10 {
        lemma_dec_newline_free(n / 10);
    }
}

proof fn lemma_concat_newline_free(a: Seq<char>, b: Seq<char>)
    requires
        newline_free(a),
        newline_free(b),
    ensures
        newline_free(a + b),
{
    assert forall|i: int| 0 <= i < (a + b).len() implies (a + b)[i] != '\n' by {
        if i < a.len() {
            assert((a + b)[i] == a[i]);
        } else {
            assert((a + b)[i] == b[i - a.len()]);
        }
    }
}

proof fn lemma_literal_pieces()
    ensures
        forall|d: Dest| #![auto] newline_free(dest_text(d)) && dest_text(d).len() > 0 && dest_text(d)[0] != '/',
        forall|c: Comp| #![auto] newline_free(comp_text(c)) && comp_text(c).len() > 0 && comp_text(c)[0] != '/',
        forall|j: Cond| #![auto] newline_free(cond_text(j)),
        newline_free("="@),
        newline_free(";"@),
        newline_free(")"@),
        "@"@ == seq!['@'],
        "("@ == seq!['('],
{
    reveal_strlit("A");
    reveal_strlit("D");
    reveal_strlit("M");
    reveal_strlit("AM");
    reveal_strlit("0");
    reveal_strlit("-1");
    reveal_strlit("!D");
    reveal_strlit("-D");
    reveal_strlit("A+1");
    reveal_strlit("M+1");
    reveal_strlit("A-1");
    reveal_strlit("M-1");
    reveal_strlit("D+A");
    reveal_strlit("D+M");
    reveal_strlit("D-A");
    reveal_strlit("M-D");
    reveal_strlit("D&M");
    reveal_strlit("D|M");
    reveal_strlit("JEQ");
    reveal_strlit("JGT");
    reveal_strlit("JLT");
    reveal_strlit("JNE");
    reveal_strlit("JMP");
    reveal_strlit("=");
    reveal_strlit(";");
    reveal_strlit(")");
    reveal_strlit("@");
    reveal_strlit("(");
    assert forall|d: Dest| #![auto] newline_free(dest_text(d)) && dest_text(d).len() > 0 && dest_text(d)[0] != '/' by {
        match d {
            Dest::A => {},
            Dest::D => {},
            Dest::M => {},
            Dest::AM => {},
        }
    }
    assert forall|c: Comp| #![auto] newline_free(comp_text(c)) && comp_text(c).len() > 0 && comp_text(c)[0] != '/' by {
        match c {
            Comp::Zero => {},
            Comp::MinusOne => {},
            Comp::A => {},
            Comp::D => {},
            Comp::M => {},
            Comp::NotD => {},
            Comp::NegD => {},
            Comp::APlus1 => {},
            Comp::MPlus1 => {},
            Comp::AMinus1 => {},
            Comp::MMinus1 => {},
            Comp::DPlusA => {},
            Comp::DPlusM => {},
            Comp::DMinusA => {},
            Comp::MMinusD => {},
            Comp::DAndM => {},
            Comp::DOrM => {},
        }
    }
    assert forall|j: Cond| #![auto] newline_free(cond_text(j)) by {
        match j {
            Cond::Eq => {},
            Cond::Gt => {},
            Cond::Lt => {},
            Cond::Ne => {},
            Cond::Always => {},
        }
    }
}

/// An instruction renders as one line, which does not start with `/`.
proof fn lemma_render_line(i: Instr)
    requires
        names_ok(i),
    ensures
        newline_free(render(i)),
        render(i).len() > 0,
        render(i)[0] != '/',
{
    lemma_literal_pieces();
    match i {
        Instr::Num(n) => {
            lemma_dec_newline_free(n);
            lemma_concat_newline_free("@"@, dec(n));
        },
        Instr::Sym(s) => {
            lemma_concat_newline_free("@"@, s);
        },
        Instr::Assign(d, c) => {
            lemma_concat_newline_free(dest_text(d), "="@);
            lemma_concat_newline_free(dest_text(d) + "="@, comp_text(c));
        },
        Instr::Jump(c, j) => {
            lemma_concat_newline_free(comp_text(c), ";"@);
            lemma_concat_newline_free(comp_text(c) + ";"@, cond_text(j));
        },
        Instr::Define(l) => {
            lemma_concat_newline_free("("@, l);
            lemma_concat_newline_free("("@ + l, ")"@);
        },
    }
}

/// A program whose names hold no line break renders with no comment line.
pub proof fn lemma_join_no_comment_line(p: Seq<Instr>)
    requires
        all_names_ok(p),
    ensures
        no_comment_line(join(p)),
    decreases p.len(),
{
    reveal(join);
    if p.len() == 1 {
        lemma_render_line(p[0]);
    } else if p.len() > 1 {
        let a = render(p[0]);
        let b = join(p.drop_first());
        assert(all_names_ok(p.drop_first())) by {
            assert forall|k: int| 0 <= k < p.drop_first().len() implies names_ok(#[trigger] p.drop_first()[k]) by {
                assert(p.drop_first()[k] == p[k + 1]);
            }
        }
        lemma_join_no_comment_line(p.drop_first());
        lemma_render_line(p[0]);
        lemma_join_nonempty(p.drop_first());
        reveal_strlit("\n");
        let s = a + "\n"@ + b;
        assert(s[0] == a[0]);
        assert forall|i: int| 0 <= i < s.len() - 1 && #[trigger] s[i] == '\n' implies s[i + 1] != '/' by {
            if i < a.len() {
                assert(s[i] == a[i]);
            } else if i == a.len() {
                assert(s[i + 1] == b[0]);
            } else {
                assert(s[i] == b[i - a.len() - 1]);
                assert(s[i + 1] == b[i + 1 - a.len() - 1]);
            }
        }
    }
}

proof fn lemma_join_nonempty(p: Seq<Instr>)
    requires
        p.len() > 0,
        all_names_ok(p),
    ensures
        join(p).len() > 0,
{
    reveal(join);
    lemma_render_line(p[0]);
}


proof fn lemma_names_append(a: Seq<Instr>, b: Seq<Instr>)
    requires
        all_names_ok(a),
        all_names_ok(b),
    ensures
        all_names_ok(a + b),
{
    assert forall|k: int| 0 <= k < (a + b).len() implies names_ok(#[trigger] (a + b)[k]) by {
        if k < a.len() {
            assert((a + b)[k] == a[k]);
        } else {
            assert((a + b)[k] == b[k - a.len()]);
        }
    }
}

proof fn lemma_fixed_names()
    ensures
        newline_free("SP"@),
        newline_free("LCL"@),
        newline_free("ARG"@),
        newline_free("THIS"@),
        newline_free("THAT"@),
        newline_free("R13"@),
        newline_free("R14"@),
        newline_free("R15"@),
        newline_free("Sys.init"@),
        newline_free("$"@),
        newline_free("."@),
        newline_free("TRUE."@),
        newline_free("OUT."@),
        newline_free("__RET_"@),
{
    reveal_strlit("SP");
    reveal_strlit("LCL");
    reveal_strlit("ARG");
    reveal_strlit("THIS");
    reveal_strlit("THAT");
    reveal_strlit("R13");
    reveal_strlit("R14");
    reveal_strlit("R15");
    reveal_strlit("Sys.init");
    reveal_strlit("$");
    reveal_strlit(".");
    reveal_strlit("TRUE.");
    reveal_strlit("OUT.");
    reveal_strlit("__RET_");
}

proof fn lemma_label_names(a: Seq<char>, b: Seq<char>, c: Seq<char>)
    requires
        newline_free(a),
        newline_free(b),
        newline_free(c),
    ensures
        newline_free(a + b),
        newline_free(a + b + c),
{
    lemma_concat_newline_free(a, b);
    lemma_concat_newline_free(a + b, c);
}

/// The names a command carries hold no line break.
pub open spec fn command_names_ok(c: VmCommand) -> bool {
    match c {
        VmCommand::Label(l) => newline_free(l),
        VmCommand::Goto(l) => newline_free(l),
        VmCommand::IfGoto(l) => newline_free(l),
        VmCommand::Function(n, _) => newline_free(n),
        VmCommand::Call(n, _) => newline_free(n),
        _ => true,
    }
}

proof fn lemma_zero_pushes_names(k: nat)
    ensures
        all_names_ok(zero_pushes(k)),
    decreases k,
{
    lemma_fixed_names();
    if k > 0 {
        lemma_zero_pushes_names((k - 1) as nat);
        assert(all_names_ok(zero_push_code()));
        lemma_names_append(zero_pushes((k - 1) as nat), zero_push_code());
    }
}

proof fn lemma_call_names(name: Seq<char>, nargs: nat, id: nat)
    requires
        newline_free(name),
    ensures
        all_names_ok(call_code(name, nargs, id)),
{
    lemma_fixed_names();
    lemma_dec_newline_free(id);
    lemma_concat_newline_free("__RET_"@, dec(id));
    assert(all_names_ok(push_d_code()));
    let hh = seq![Instr::Sym(return_label(id)), Instr::Assign(Dest::D, Comp::A)];
    assert(all_names_ok(hh));
    lemma_names_append(hh, push_d_code());
    assert forall|p: Seq<char>| newline_free(p) implies all_names_ok(#[trigger] push_segment_code(p)) by {
        let h = seq![Instr::Sym(p), Instr::Assign(Dest::D, Comp::M)];
        assert(all_names_ok(h));
        lemma_names_append(h, push_d_code());
    }
    let f1 = push_segment_code("LCL"@);
    let f2 = push_segment_code("ARG"@);
    let f3 = push_segment_code("THIS"@);
    let f4 = push_segment_code("THAT"@);
    lemma_names_append(f1, f2);
    lemma_names_append(f1 + f2, f3);
    lemma_names_append(f1 + f2 + f3, f4);
    assert(all_names_ok(call_reposition_code(nargs)));
    assert(all_names_ok(call_jump_code(name, id)));
    lemma_names_append(call_head_code(id), call_frame_code());
    lemma_names_append(call_head_code(id) + call_frame_code(), call_reposition_code(nargs));
    lemma_names_append(call_setup_code(nargs, id), call_jump_code(name, id));
}

proof fn lemma_return_names()
    ensures
        all_names_ok(return_code()),
{
    lemma_fixed_names();
    assert(all_names_ok(return_head_code()));
    assert forall|p: Seq<char>, o: nat| newline_free(p) implies all_names_ok(#[trigger] restore_code(p, o)) by {}
    let r1 = restore_code("THAT"@, 1);
    let r2 = restore_code("THIS"@, 2);
    let r3 = restore_code("ARG"@, 3);
    let r4 = restore_code("LCL"@, 4);
    lemma_names_append(r1, r2);
    lemma_names_append(r1 + r2, r3);
    lemma_names_append(r1 + r2 + r3, r4);
    assert(all_names_ok(return_jump_code()));
    lemma_names_append(return_head_code(), return_restore_code());
    lemma_names_append(return_head_code() + return_restore_code(), return_jump_code());
}

proof fn lemma_push_pop_names(file: Seq<char>, s: MemorySegment, i: nat)
    requires
        newline_free(file),
    ensures
        all_names_ok(push_code(file, s, i)),
        s != MemorySegment::Constant ==> all_names_ok(pop_code(file, s, i)),
{
    lemma_fixed_names();
    lemma_dec_newline_free(i);
    lemma_label_names(file, "."@, dec(i));
    assert(all_names_ok(push_d_code()));
    assert(all_names_ok(pop_to_r13_code()));
    assert(all_names_ok(base_address_code(s)));
    match s {
        MemorySegment::Constant => {
            lemma_names_append(seq![Instr::Num(i), Instr::Assign(Dest::D, Comp::A)], push_d_code());
        },
        MemorySegment::Static => {
            let h = seq![Instr::Sym(static_symbol(file, i)), Instr::Assign(Dest::D, Comp::M)];
            assert(all_names_ok(h));
            lemma_names_append(h, push_d_code());
            let g = seq![Instr::Assign(Dest::D, Comp::Zero), Instr::Sym(static_symbol(file, i))];
            assert(all_names_ok(g));
            lemma_names_append(g, pop_to_r13_code());
        },
        _ => {
            assert(all_names_ok(indexed_read_code(i)));
            lemma_names_append(base_address_code(s), indexed_read_code(i));
            lemma_names_append(base_address_code(s) + indexed_read_code(i), push_d_code());
            assert(push_code(file, s, i) == base_address_code(s) + indexed_read_code(i) + push_d_code());
            let mid = seq![Instr::Assign(Dest::D, Comp::A), Instr::Num(i)];
            assert(all_names_ok(mid));
            lemma_names_append(base_address_code(s), mid);
            lemma_names_append(base_address_code(s) + mid, pop_to_r13_code());
        },
    }
}

proof fn lemma_code_names(w: WriterState, c: VmCommand)
    requires
        newline_free(w.file),
        newline_free(w.function),
        command_names_ok(c),
        writable(c),
    ensures
        all_names_ok(code_of(w, c)),
{
    lemma_fixed_names();
    lemma_dec_newline_free(w.counter);
    lemma_concat_newline_free("TRUE."@, dec(w.counter));
    lemma_concat_newline_free("OUT."@, dec(w.counter));
    assert(all_names_ok(binary_prologue_code()));
    assert(all_names_ok(unary_prologue_code()));
    match c {
        VmCommand::Push(s, i) => lemma_push_pop_names(w.file, s, i as nat),
        VmCommand::Pop(s, i) => lemma_push_pop_names(w.file, s, i as nat),
        VmCommand::Label(l) => lemma_label_names(scope(w), "$"@, l),
        VmCommand::Goto(l) => lemma_label_names(scope(w), "$"@, l),
        VmCommand::IfGoto(l) => lemma_label_names(scope(w), "$"@, l),
        VmCommand::Function(n, k) => {
            lemma_zero_pushes_names(k as nat);
            lemma_names_append(seq![Instr::Define(n)], zero_pushes(k as nat));
        },
        VmCommand::Call(n, k) => lemma_call_names(n, k as nat, w.counter),
        VmCommand::Return => lemma_return_names(),
        VmCommand::Eq | VmCommand::Gt | VmCommand::Lt => {
            let j = if c is Eq { Cond::Eq } else if c is Gt { Cond::Gt } else { Cond::Lt };
            assert(all_names_ok(comparison_tail(j, w.counter)));
            lemma_names_append(binary_prologue_code(), comparison_tail(j, w.counter));
        },
        VmCommand::Neg | VmCommand::Not => {
            let op = if c is Neg { Comp::NegD } else { Comp::NotD };
            lemma_names_append(unary_prologue_code(), seq![Instr::Assign(Dest::M, op)]);
        },
        _ => {
            let op = if c is Add { Comp::DPlusM } else if c is Sub { Comp::MMinusD } else if c is And {
                Comp::DAndM
            } else {
                Comp::DOrM
            };
            lemma_names_append(binary_prologue_code(), seq![Instr::Assign(Dest::M, op)]);
        },
    }
}

/// The comment line emitted before a command's assembly.
pub open spec fn comment_line(c: VmCommand) -> Seq<char> {
    "// "@ + surface(c)
}

proof fn lemma_surface_newline_free(c: VmCommand)
    requires
        command_names_ok(c),
    ensures
        newline_free(surface(c)),
{
    reveal_strlit("add");
    reveal_strlit("sub");
    reveal_strlit("neg");
    reveal_strlit("eq");
    reveal_strlit("gt");
    reveal_strlit("lt");
    reveal_strlit("and");
    reveal_strlit("or");
    reveal_strlit("not");
    reveal_strlit("return");
    reveal_strlit("push ");
    reveal_strlit("pop ");
    reveal_strlit(" ");
    reveal_strlit("label ");
    reveal_strlit("goto ");
    reveal_strlit("if-goto ");
    reveal_strlit("function ");
    reveal_strlit("call ");
    reveal_strlit("constant");
    reveal_strlit("local");
    reveal_strlit("argument");
    reveal_strlit("this");
    reveal_strlit("that");
    reveal_strlit("temp");
    reveal_strlit("pointer");
    reveal_strlit("static");
    match c {
        VmCommand::Push(s, i) => {
            lemma_dec_newline_free(i as nat);
            lemma_label_names("push "@, segment_name(s), " "@);
            lemma_concat_newline_free("push "@ + segment_name(s) + " "@, dec(i as nat));
        },
        VmCommand::Pop(s, i) => {
            lemma_dec_newline_free(i as nat);
            lemma_label_names("pop "@, segment_name(s), " "@);
            lemma_concat_newline_free("pop "@ + segment_name(s) + " "@, dec(i as nat));
        },
        VmCommand::Label(l) => lemma_concat_newline_free("label "@, l),
        VmCommand::Goto(l) => lemma_concat_newline_free("goto "@, l),
        VmCommand::IfGoto(l) => lemma_concat_newline_free("if-goto "@, l),
        VmCommand::Function(n, k) => {
            lemma_dec_newline_free(k as nat);
            lemma_label_names("function "@, n, " "@);
            lemma_concat_newline_free("function "@ + n + " "@, dec(k as nat));
        },
        VmCommand::Call(n, k) => {
            lemma_dec_newline_free(k as nat);
            lemma_label_names("call "@, n, " "@);
            lemma_concat_newline_free("call "@ + n + " "@, dec(k as nat));
        },
        _ => {},
    }
}

/// The fragment for a command holds exactly one comment line, and it comes
/// first: `// <surface form>`, then the assembly, no line of which is a
/// comment. This needs the names involved to hold no line break, which the
/// parser guarantees for the command's own names.
pub proof fn lemma_fragment_lines(w: WriterState, c: VmCommand)
    requires
        writable(c),
        command_names_ok(c),
        newline_free(w.file),
        newline_free(w.function),
    ensures
        fragment(w, c) == comment_line(c) + "\n"@ + assembly(w, c),
        comment_line(c).take(2) == "//"@,
        newline_free(comment_line(c)),
        no_comment_line(assembly(w, c)),
{
    lemma_surface_newline_free(c);
    reveal_strlit("// ");
    reveal_strlit("//");
    lemma_concat_newline_free("// "@, surface(c));
    assert(comment_line(c).take(2) =~= "//"@);
    lemma_assembly_is_code(w, c);
    lemma_code_names(w, c);
    lemma_join_no_comment_line(code_of(w, c));
}


// ---------------------------------------------------------------------------
// Labels the emitted code defines.
// ---------------------------------------------------------------------------

/// Whether `p` defines the label `l`.
pub open spec fn defines(p: Seq<Instr>, l: Seq<char>) -> bool {
    exists|k: int| 0 <= k < p.len() && p[k] == Instr::Define(l)
}

/// Whether `p` defines no label.
pub open spec fn define_free(p: Seq<Instr>) -> bool {
    forall|k: int| 0 <= k < p.len() ==> !(#[trigger] p[k] is Define)
}

/// The labels the generator mints for `c` with id `n`.
pub open spec fn minted(c: VmCommand, n: nat) -> Set<Seq<char>> {
    match c {
        VmCommand::Eq | VmCommand::Gt | VmCommand::Lt => set![true_label(n), out_label(n)],
        VmCommand::Call(..) => set![return_label(n)],
        _ => Set::empty(),
    }
}

/// The labels the program itself names in `c`, mangled as emitted.
pub open spec fn user_labels(w: WriterState, c: VmCommand) -> Set<Seq<char>> {
    match c {
        VmCommand::Label(l) => set![scope(w) + "$"@ + l],
        VmCommand::Function(n, _) => set![n],
        _ => Set::empty(),
    }
}

proof fn lemma_define_free_append(a: Seq<Instr>, b: Seq<Instr>)
    requires
        define_free(a),
        define_free(b),
    ensures
        define_free(a + b),
{
    assert forall|k: int| 0 <= k < (a + b).len() implies !(#[trigger] (a + b)[k] is Define) by {
        if k < a.len() {
            assert((a + b)[k] == a[k]);
        } else {
            assert((a + b)[k] == b[k - a.len()]);
        }
    }
}

proof fn lemma_defines_append(a: Seq<Instr>, b: Seq<Instr>, l: Seq<char>)
    requires
        defines(a + b, l),
    ensures
        defines(a, l) || defines(b, l),
{
    let k = choose|k: int| 0 <= k < (a + b).len() && (a + b)[k] == Instr::Define(l);
    if k < a.len() {
        assert(a[k] == (a + b)[k]);
    } else {
        assert(b[k - a.len()] == (a + b)[k]);
    }
}

proof fn lemma_zero_pushes_define_free(k: nat)
    ensures
        define_free(zero_pushes(k)),
    decreases k,
{
    if k > 0 {
        lemma_zero_pushes_define_free((k - 1) as nat);
        assert(define_free(zero_push_code()));
        lemma_define_free_append(zero_pushes((k - 1) as nat), zero_push_code());
    }
}

proof fn lemma_push_pop_define_free(file: Seq<char>, s: MemorySegment, i: nat)
    ensures
        define_free(push_code(file, s, i)),
        define_free(pop_code(file, s, i)),
{
    lemma_push_straight(file, s, i);
    assert(define_free(push_d_code()));
    assert(define_free(pop_to_r13_code()));
    assert(define_free(base_address_code(s)));
    let h1 = seq![Instr::Num(i), Instr::Assign(Dest::D, Comp::A)];
    let h2 = seq![Instr::Sym(static_symbol(file, i)), Instr::Assign(Dest::D, Comp::M)];
    let g = seq![Instr::Assign(Dest::D, Comp::Zero), Instr::Sym(static_symbol(file, i))];
    let mid = seq![Instr::Assign(Dest::D, Comp::A), Instr::Num(i)];
    assert(define_free(h1) && define_free(h2) && define_free(g) && define_free(mid));
    assert(define_free(indexed_read_code(i)));
    lemma_define_free_append(h1, push_d_code());
    lemma_define_free_append(h2, push_d_code());
    lemma_define_free_append(g, pop_to_r13_code());
    lemma_define_free_append(base_address_code(s), indexed_read_code(i));
    lemma_define_free_append(base_address_code(s) + indexed_read_code(i), push_d_code());
    lemma_define_free_append(base_address_code(s), mid);
    lemma_define_free_append(base_address_code(s) + mid, pop_to_r13_code());
    if s != MemorySegment::Constant && s != MemorySegment::Static {
        assert(push_code(file, s, i) == base_address_code(s) + indexed_read_code(i) + push_d_code());
    }
}

proof fn lemma_return_define_free()
    ensures
        define_free(return_code()),
{
    assert(define_free(return_head_code()));
    assert forall|p: Seq<char>, o: nat| define_free(#[trigger] restore_code(p, o)) by {}
    let r1 = restore_code("THAT"@, 1);
    let r2 = restore_code("THIS"@, 2);
    let r3 = restore_code("ARG"@, 3);
    let r4 = restore_code("LCL"@, 4);
    lemma_define_free_append(r1, r2);
    lemma_define_free_append(r1 + r2, r3);
    lemma_define_free_append(r1 + r2 + r3, r4);
    assert(define_free(return_jump_code()));
    lemma_define_free_append(return_head_code(), return_restore_code());
    lemma_define_free_append(return_head_code() + return_restore_code(), return_jump_code());
}

proof fn lemma_call_setup_define_free(nargs: nat, id: nat)
    ensures
        define_free(call_setup_code(nargs, id)),
{
    assert(define_free(push_d_code()));
    let hh = seq![Instr::Sym(return_label(id)), Instr::Assign(Dest::D, Comp::A)];
    assert(define_free(hh));
    lemma_define_free_append(hh, push_d_code());
    assert forall|p: Seq<char>| define_free(#[trigger] push_segment_code(p)) by {
        let h = seq![Instr::Sym(p), Instr::Assign(Dest::D, Comp::M)];
        assert(define_free(h));
        lemma_define_free_append(h, push_d_code());
    }
    let f1 = push_segment_code("LCL"@);
    let f2 = push_segment_code("ARG"@);
    let f3 = push_segment_code("THIS"@);
    let f4 = push_segment_code("THAT"@);
    lemma_define_free_append(f1, f2);
    lemma_define_free_append(f1 + f2, f3);
    lemma_define_free_append(f1 + f2 + f3, f4);
    assert(define_free(call_reposition_code(nargs)));
    lemma_define_free_append(call_head_code(id), call_frame_code());
    lemma_define_free_append(call_head_code(id) + call_frame_code(), call_reposition_code(nargs));
}

/// The only labels the code for `c` defines are the ones minted for it with
/// the current id, and the program's own label or function name.
pub proof fn lemma_defined_labels(w: WriterState, c: VmCommand, l: Seq<char>)
    requires
        defines(code_of(w, c), l),
    ensures
        minted(c, w.counter).contains(l) || user_labels(w, c).contains(l),
{
    let p = code_of(w, c);
    let k = choose|k: int| 0 <= k < p.len() && p[k] == Instr::Define(l);
    assert(define_free(binary_prologue_code()));
    assert(define_free(unary_prologue_code()));
    match c {
        VmCommand::Push(s, i) => {
            lemma_push_pop_define_free(w.file, s, i as nat);
            assert(p[k] is Define);
        },
        VmCommand::Pop(s, i) => {
            lemma_push_pop_define_free(w.file, s, i as nat);
            assert(p[k] is Define);
        },
        VmCommand::Return => {
            lemma_return_define_free();
            assert(p[k] is Define);
        },
        VmCommand::Function(n, nl) => {
            lemma_zero_pushes_define_free(nl as nat);
            if k > 0 {
                assert(p[k] == zero_pushes(nl as nat)[k - 1]);
            }
        },
        VmCommand::Call(n, nargs) => {
            lemma_call_setup_define_free(nargs as nat, w.counter);
            let su = call_setup_code(nargs as nat, w.counter);
            if k < su.len() {
                assert(p[k] == su[k]);
            } else {
                assert(p[k] == call_jump_code(n, w.counter)[k - su.len()]);
            }
        },
        VmCommand::Eq | VmCommand::Gt | VmCommand::Lt => {
            let bp = binary_prologue_code();
            if k < bp.len() {
                assert(p[k] == bp[k]);
            } else {
                let j = if c is Eq { Cond::Eq } else if c is Gt { Cond::Gt } else { Cond::Lt };
                assert(p[k] == comparison_tail(j, w.counter)[k - bp.len()]);
            }
        },
        VmCommand::Neg | VmCommand::Not => {
            let up = unary_prologue_code();
            if k < up.len() {
                assert(p[k] == up[k]);
            }
        },
        VmCommand::Add | VmCommand::Sub | VmCommand::And | VmCommand::Or => {
            let bp = binary_prologue_code();
            if k < bp.len() {
                assert(p[k] == bp[k]);
            }
        },
        _ => {},
    }
}

proof fn lemma_digit_char_injective(a: nat, b: nat)
    requires
        a < 10,
        b < 10,
        digit_char(a) == digit_char(b),
    ensures
        a == b,
{
}

/// Decimal texts of distinct numbers differ.
pub proof fn lemma_dec_injective(a: nat, b: nat)
    requires
        dec(a) == dec(b),
    ensures
        a == b,
    decreases a,
{
    if a < 10 && b < 10 {
        assert(dec(a)[0] == digit_char(a));
        assert(dec(b)[0] == digit_char(b));
        lemma_digit_char_injective(a, b);
    } else if a >= 10 && b >= 10 {
        assert(dec(a).last() == digit_char(a % 10));
        assert(dec(b).last() == digit_char(b % 10));
        lemma_digit_char_injective(a % 10, b % 10);
        assert(dec(a).drop_last() =~= dec(a / 10));
        assert(dec(b).drop_last() =~= dec(b / 10));
        lemma_dec_injective(a / 10, b / 10);
    } else if a < 10 {
        lemma_dec_newline_free(b / 10);
        assert(dec(b).len() == dec(b / 10).len() + 1);
        assert(dec(a).len() == 1);
    } else {
        lemma_dec_newline_free(a / 10);
        assert(dec(a).len() == dec(a / 10).len() + 1);
        assert(dec(b).len() == 1);
    }
}

/// Labels minted with distinct ids are distinct.
pub proof fn lemma_minted_apart(c1: VmCommand, n1: nat, c2: VmCommand, n2: nat)
    requires
        n1 != n2,
    ensures
        minted(c1, n1).disjoint(minted(c2, n2)),
{
    assert forall|l: Seq<char>| !(minted(c1, n1).contains(l) && minted(c2, n2).contains(l)) by {
        if minted(c1, n1).contains(l) && minted(c2, n2).contains(l) {
            lemma_minted_same_id(c1, n1, c2, n2, l);
        }
    }
}

proof fn lemma_minted_same_id(c1: VmCommand, n1: nat, c2: VmCommand, n2: nat, l: Seq<char>)
    requires
        minted(c1, n1).contains(l),
        minted(c2, n2).contains(l),
    ensures
        n1 == n2,
{
    reveal_strlit("TRUE.");
    reveal_strlit("OUT.");
    reveal_strlit("__RET_");
    let d1 = dec(n1);
    let d2 = dec(n2);
    if l == true_label(n1) || l == return_label(n1) || l == out_label(n1) {
        let p1: Seq<char> = if l == true_label(n1) { "TRUE."@ } else if l == out_label(n1) { "OUT."@ } else { "__RET_"@ };
        let p2: Seq<char> = if l == true_label(n2) { "TRUE."@ } else if l == out_label(n2) { "OUT."@ } else { "__RET_"@ };
        assert(l == p1 + d1);
        assert(l == p2 + d2);
        assert(l[0] == p1[0] && l[0] == p2[0]);
        assert(p1 == p2);
        assert(d1 =~= l.subrange(p1.len() as int, l.len() as int));
        assert(d2 =~= l.subrange(p2.len() as int, l.len() as int));
        lemma_dec_injective(n1, n2);
    }
}

} // verus!
