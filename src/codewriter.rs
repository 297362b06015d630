//! Code generation: VM commands to Hack assembly text.
use vstd::prelude::*;
use vstd::string::*;
use crate::command::{Command, MemorySegment, VmCommand, surface};
use crate::text::{append_dec, dec};

verus! {

// ---------------------------------------------------------------------------
// The emitted text, as a function of the generator's state.
// ---------------------------------------------------------------------------

/// The generator's state: next label id, current unit, current function.
pub struct WriterState {
    pub counter: nat,
    pub file: Seq<char>,
    pub function: Seq<char>,
}

/// The scope that user labels are mangled against.
pub open spec fn scope(w: WriterState) -> Seq<char> {
    if w.function.len() == 0 { w.file } else { w.function }
}

/// Write `D` to `*SP`, then increment `SP`.
pub open spec fn push_d_text() -> Seq<char> {
    "@SP\nA=M\nM=D\n@SP\nM=M+1"@
}

/// Decrement `SP`, load the top into `D`, point `A` one below it.
pub open spec fn binary_prologue_text() -> Seq<char> {
    "@SP\nAM=M-1\nD=M\nA=A-1"@
}

/// Load the top into `D`, with `A` pointing at it.
pub open spec fn unary_prologue_text() -> Seq<char> {
    "@SP\nA=M-1\nD=M"@
}

/// Store `D+A` in `R13`, pop the top into `D`, store it at `*R13`.
pub open spec fn pop_to_r13_text() -> Seq<char> {
    "D=D+A\n@R13\nM=D\n@SP\nAM=M-1\nD=M\n@R13\nA=M\nM=D"@
}

/// Loads the base address of a non-static, non-constant segment into `A`.
pub open spec fn base_address_text(s: MemorySegment) -> Seq<char> {
    match s {
        MemorySegment::Local => "@LCL\nA=M"@,
        MemorySegment::Argument => "@ARG\nA=M"@,
        MemorySegment::This => "@THIS\nA=M"@,
        MemorySegment::That => "@THAT\nA=M"@,
        MemorySegment::Temp => "@5"@,
        _ => "@3"@,
    }
}

/// The assembler symbol of `static i` in unit `file`.
pub open spec fn static_symbol(file: Seq<char>, i: nat) -> Seq<char> {
    file + "."@ + dec(i)
}

pub open spec fn push_text(file: Seq<char>, s: MemorySegment, i: nat) -> Seq<char> {
    match s {
        MemorySegment::Constant => "@"@ + dec(i) + "\nD=A\n"@ + push_d_text(),
        MemorySegment::Static => "@"@ + static_symbol(file, i) + "\nD=M\n"@ + push_d_text(),
        _ => base_address_text(s) + "\nD=A\n@"@ + dec(i) + "\nA=D+A\nD=M\n"@ + push_d_text(),
    }
}

pub open spec fn pop_text(file: Seq<char>, s: MemorySegment, i: nat) -> Seq<char> {
    match s {
        MemorySegment::Static => "D=0\n@"@ + static_symbol(file, i) + "\n"@ + pop_to_r13_text(),
        _ => base_address_text(s) + "\nD=A\n@"@ + dec(i) + "\n"@ + pop_to_r13_text(),
    }
}

/// The jump mnemonic of a comparison command.
pub open spec fn jump_of(c: VmCommand) -> Seq<char> {
    match c {
        VmCommand::Eq => "JEQ"@,
        VmCommand::Gt => "JGT"@,
        _ => "JLT"@,
    }
}

pub open spec fn comparison_text(jump: Seq<char>, id: nat) -> Seq<char> {
    binary_prologue_text() + "\nD=M-D\n@TRUE."@ + dec(id) + "\nD;"@ + jump + "\nD=0\n@OUT."@
        + dec(id) + "\n0;JMP\n(TRUE."@ + dec(id) + ")\nD=-1\n(OUT."@ + dec(id)
        + ")\n@SP\nA=M-1\nM=D"@
}

/// Push the word stored at the well-known cell `p`.
pub open spec fn push_segment_text(p: Seq<char>) -> Seq<char> {
    "@"@ + p + "\nD=M\n"@ + push_d_text()
}

pub open spec fn call_text(name: Seq<char>, nargs: nat, id: nat) -> Seq<char> {
    "@__RET_"@ + dec(id) + "\nD=A\n"@ + push_d_text() + "\n"@ + push_segment_text("LCL"@) + "\n"@
        + push_segment_text("ARG"@) + "\n"@ + push_segment_text("THIS"@) + "\n"@
        + push_segment_text("THAT"@) + "\n@"@ + dec(nargs + 5) + "\nD=A\n@SP\nD=M-D\n@ARG\nM=D\n@SP\nD=M\n@LCL\nM=D\n@"@
        + name + "\n0;JMP\n(__RET_"@ + dec(id) + ")"@
}

/// `k` copies of `s`, one after another.
pub open spec fn repeat(s: Seq<char>, k: nat) -> Seq<char>
    decreases k,
{
    if k == 0 { Seq::empty() } else { repeat(s, (k - 1) as nat) + s }
}

pub open spec fn function_text(name: Seq<char>, nlocals: nat) -> Seq<char> {
    "("@ + name + ")"@ + repeat("\nD=0\n"@ + push_d_text(), nlocals)
}

/// Reload the well-known cell `p` from `*(R14 - offset)`.
pub open spec fn restore_segment_text(p: Seq<char>, offset: nat) -> Seq<char> {
    "@R14\nD=M\n@"@ + dec(offset) + "\nA=D-A\nD=M\n@"@ + p + "\nM=D"@
}

pub open spec fn return_text() -> Seq<char> {
    "@LCL\nD=M\n@R14\nM=D\n@5\nA=D-A\nD=M\n@R15\nM=D\n@SP\nAM=M-1\nD=M\n@ARG\nA=M\nM=D\nD=A+1\n@SP\nM=D\n"@
        + restore_segment_text("THAT"@, 1) + "\n"@ + restore_segment_text("THIS"@, 2) + "\n"@
        + restore_segment_text("ARG"@, 3) + "\n"@ + restore_segment_text("LCL"@, 4)
        + "\n@R15\nA=M\n0;JMP"@
}

pub open spec fn bootstrap_text(id: nat) -> Seq<char> {
    "@256\nD=A\n@SP\nM=D\n"@ + call_text("Sys.init"@, 0, id)
}

/// Whether translating `c` consumes a fresh label id.
pub open spec fn takes_label_id(c: VmCommand) -> bool {
    c is Eq || c is Gt || c is Lt || c is Call
}

/// Whether the generator accepts `c`: a literal cannot be assigned to.
pub open spec fn writable(c: VmCommand) -> bool {
    !(c matches VmCommand::Pop(MemorySegment::Constant, _))
}

/// The assembly for `c` in state `w` (without the leading comment).
pub open spec fn assembly(w: WriterState, c: VmCommand) -> Seq<char> {
    match c {
        VmCommand::Add => binary_prologue_text() + "\nM=D+M"@,
        VmCommand::Sub => binary_prologue_text() + "\nM=M-D"@,
        VmCommand::Neg => unary_prologue_text() + "\nM=-D"@,
        VmCommand::Eq => comparison_text("JEQ"@, w.counter),
        VmCommand::Gt => comparison_text("JGT"@, w.counter),
        VmCommand::Lt => comparison_text("JLT"@, w.counter),
        VmCommand::And => binary_prologue_text() + "\nM=D&M"@,
        VmCommand::Or => binary_prologue_text() + "\nM=D|M"@,
        VmCommand::Not => unary_prologue_text() + "\nM=!D"@,
        VmCommand::Push(s, i) => push_text(w.file, s, i as nat),
        VmCommand::Pop(s, i) => pop_text(w.file, s, i as nat),
        VmCommand::Label(l) => "("@ + scope(w) + "$"@ + l + ")"@,
        VmCommand::Goto(l) => "@"@ + scope(w) + "$"@ + l + "\n0;JMP"@,
        VmCommand::IfGoto(l) => "@SP\nAM=M-1\nD=M\n@"@ + scope(w) + "$"@ + l + "\nD;JNE"@,
        VmCommand::Function(n, k) => function_text(n, k as nat),
        VmCommand::Call(n, k) => call_text(n, k as nat, w.counter),
        VmCommand::Return => return_text(),
    }
}

/// The fragment emitted for `c`: a comment with its surface form, then its assembly.
pub open spec fn fragment(w: WriterState, c: VmCommand) -> Seq<char> {
    "// "@ + surface(c) + "\n"@ + assembly(w, c)
}

/// The generator's state after translating `c`.
pub open spec fn next_state(w: WriterState, c: VmCommand) -> WriterState {
    match c {
        VmCommand::Function(n, _) => WriterState { function: n, ..w },
        VmCommand::Return => WriterState { function: Seq::empty(), ..w },
        _ => if takes_label_id(c) { WriterState { counter: w.counter + 1, ..w } } else { w },
    }
}


/// Distinct units never share a `static` symbol: the unit's name is recovered
/// from the symbol and the index.
pub proof fn lemma_static_symbols_do_not_alias(u1: Seq<char>, u2: Seq<char>, i: nat)
    requires
        u1 != u2,
    ensures
        static_symbol(u1, i) != static_symbol(u2, i),
{
    if static_symbol(u1, i) == static_symbol(u2, i) {
        let n = ("."@ + dec(i)).len();
        assert(static_symbol(u1, i) =~= u1 + ("."@ + dec(i)));
        assert(static_symbol(u2, i) =~= u2 + ("."@ + dec(i)));
        assert(u1 =~= static_symbol(u1, i).take(u1.len() as int));
        assert(u2 =~= static_symbol(u2, i).take(u2.len() as int));
    }
}

// ---------------------------------------------------------------------------
// The generator.
// ---------------------------------------------------------------------------

struct Context {
    file: String,
    function: String,
}

impl Context {
    /// The current function's name, or the unit's name outside any function.
    fn scope(&self) -> (r: &str)
        ensures
            r@ == (if self.function@.len() == 0 { self.file@ } else { self.function@ }),
    {
        if self.function.as_str().is_empty() {
            self.file.as_str()
        } else {
            self.function.as_str()
        }
    }
}

/// Translates VM commands to Hack assembly, one at a time.
pub struct CodeWriter {
    label_counter: usize,
    context: Context,
}

impl View for CodeWriter {
    type V = WriterState;

    closed spec fn view(&self) -> WriterState {
        WriterState {
            counter: self.label_counter as nat,
            file: self.context.file@,
            function: self.context.function@,
        }
    }
}

fn push_d() -> (r: &'static str)
    ensures
        r@ == push_d_text(),
{
    "@SP\nA=M\nM=D\n@SP\nM=M+1"
}

fn binary_prologue() -> (r: &'static str)
    ensures
        r@ == binary_prologue_text(),
{
    "@SP\nAM=M-1\nD=M\nA=A-1"
}

fn unary_prologue() -> (r: &'static str)
    ensures
        r@ == unary_prologue_text(),
{
    "@SP\nA=M-1\nD=M"
}

fn pop_to_r13() -> (r: &'static str)
    ensures
        r@ == pop_to_r13_text(),
{
    "D=D+A\n@R13\nM=D\n@SP\nAM=M-1\nD=M\n@R13\nA=M\nM=D"
}

/// Loads the base address of `segment` into `A`: through its pointer cell for
/// `local`, `argument`, `this` and `that`, directly for `temp` and `pointer`.
fn base_address(segment: &MemorySegment) -> (r: &'static str)
    ensures
        r@ == base_address_text(*segment),
{
    match segment {
        MemorySegment::Local => "@LCL\nA=M",
        MemorySegment::Argument => "@ARG\nA=M",
        MemorySegment::This => "@THIS\nA=M",
        MemorySegment::That => "@THAT\nA=M",
        MemorySegment::Temp => "@5",
        _ => "@3",
    }
}

impl CodeWriter {
    /// A generator whose first label id is 1, outside any unit or function.
    pub fn new() -> (r: Self)
        ensures
            r@ == (WriterState { counter: 1, file: Seq::empty(), function: Seq::empty() }),
    {
        CodeWriter {
            label_counter: 1,
            context: Context { file: String::new(), function: String::new() },
        }
    }

    /// Sets the unit name that `static` references are mangled with.
    pub fn set_file_context(&mut self, filename: String)
        ensures
            final(self)@ == (WriterState { file: filename@, ..old(self)@ }),
    {
        self.context.file = filename;
    }

    fn set_function_context(&mut self, name: String)
        ensures
            final(self)@ == (WriterState { function: name@, ..old(self)@ }),
    {
        self.context.function = name;
    }

    /// Hands out the current label id and advances the counter.
    fn next_label_id(&mut self) -> (id: usize)
        requires
            old(self)@.counter < usize::MAX,
        ensures
            id as nat == old(self)@.counter,
            final(self)@ == (WriterState { counter: old(self)@.counter + 1, ..old(self)@ }),
    {
        let id = self.label_counter;
        self.label_counter = self.label_counter + 1;
        id
    }

    /// Whether another label id can be handed out.
    pub fn has_label_ids(&self) -> (r: bool)
        ensures
            r == (self@.counter < usize::MAX),
    {
        self.label_counter < usize::MAX
    }

    /// Sets `SP` to 256 and calls `Sys.init`.
    pub fn write_bootstrap(&mut self) -> (r: String)
        requires
            old(self)@.counter < usize::MAX,
        ensures
            r@ == bootstrap_text(old(self)@.counter),
            final(self)@ == next_state(old(self)@, VmCommand::Call("Sys.init"@, 0)),
    {
        let mut r = String::from_str("@256\nD=A\n@SP\nM=D\n");
        let call = self.write_call("Sys.init", 0);
        r.append(call.as_str());
        r
    }

    /// The fragment for `command`: a comment line with its surface form, then its assembly.
    pub fn write(&mut self, command: &Command) -> (r: String)
        requires
            writable(command@),
            takes_label_id(command@) ==> old(self)@.counter < usize::MAX,
        ensures
            r@ == fragment(old(self)@, command@),
            final(self)@ == next_state(old(self)@, command@),
    {
        let mut r = String::from_str("// ");
        let text = command.to_text();
        r.append(text.as_str());
        r.append("\n");
        let assembly = match command {
            Command::Add => self.write_add(),
            Command::Sub => self.write_sub(),
            Command::Neg => self.write_neg(),
            Command::Eq => self.write_eq(),
            Command::Gt => self.write_gt(),
            Command::Lt => self.write_lt(),
            Command::And => self.write_and(),
            Command::Or => self.write_or(),
            Command::Not => self.write_not(),
            Command::Push(segment, index) => self.write_push(segment, *index),
            Command::Pop(segment, index) => self.write_pop(segment, *index),
            Command::Label(l) => self.write_label(l.as_str()),
            Command::Goto(l) => self.write_goto(l.as_str()),
            Command::IfGoto(l) => self.write_ifgoto(l.as_str()),
            Command::Function(name, nlocals) => self.write_function(name.as_str(), *nlocals),
            Command::Call(name, nargs) => self.write_call(name.as_str(), *nargs),
            Command::Return => self.write_return(),
        };
        r.append(assembly.as_str());
        r
    }

    fn binary_op(&self, op: &str) -> (r: String)
        ensures
            r@ == binary_prologue_text() + op@,
    {
        let mut r = String::from_str(binary_prologue());
        r.append(op);
        r
    }

    fn unary_op(&self, op: &str) -> (r: String)
        ensures
            r@ == unary_prologue_text() + op@,
    {
        let mut r = String::from_str(unary_prologue());
        r.append(op);
        r
    }

    pub fn write_add(&self) -> (r: String)
        ensures
            r@ == assembly(self@, VmCommand::Add),
    {
        self.binary_op("\nM=D+M")
    }

    pub fn write_sub(&self) -> (r: String)
        ensures
            r@ == assembly(self@, VmCommand::Sub),
    {
        self.binary_op("\nM=M-D")
    }

    pub fn write_neg(&self) -> (r: String)
        ensures
            r@ == assembly(self@, VmCommand::Neg),
    {
        self.unary_op("\nM=-D")
    }

    pub fn write_eq(&mut self) -> (r: String)
        requires
            old(self)@.counter < usize::MAX,
        ensures
            r@ == assembly(old(self)@, VmCommand::Eq),
            final(self)@ == next_state(old(self)@, VmCommand::Eq),
    {
        self.write_comparison("JEQ")
    }

    pub fn write_lt(&mut self) -> (r: String)
        requires
            old(self)@.counter < usize::MAX,
        ensures
            r@ == assembly(old(self)@, VmCommand::Lt),
            final(self)@ == next_state(old(self)@, VmCommand::Lt),
    {
        self.write_comparison("JLT")
    }

    pub fn write_gt(&mut self) -> (r: String)
        requires
            old(self)@.counter < usize::MAX,
        ensures
            r@ == assembly(old(self)@, VmCommand::Gt),
            final(self)@ == next_state(old(self)@, VmCommand::Gt),
    {
        self.write_comparison("JGT")
    }

    pub fn write_and(&self) -> (r: String)
        ensures
            r@ == assembly(self@, VmCommand::And),
    {
        self.binary_op("\nM=D&M")
    }

    pub fn write_or(&self) -> (r: String)
        ensures
            r@ == assembly(self@, VmCommand::Or),
    {
        self.binary_op("\nM=D|M")
    }

    pub fn write_not(&self) -> (r: String)
        ensures
            r@ == assembly(self@, VmCommand::Not),
    {
        self.unary_op("\nM=!D")
    }

    /// Pushes the value of `segment[index]`.
    pub fn write_push(&self, segment: &MemorySegment, index: u16) -> (r: String)
        ensures
            r@ == push_text(self@.file, *segment, index as nat),
    {
        let mut r = String::from_str("@");
        match segment {
            MemorySegment::Constant => {
                append_dec(&mut r, index as usize);
                r.append("\nD=A\n");
            },
            MemorySegment::Static => {
                r.append(self.context.file.as_str());
                r.append(".");
                append_dec(&mut r, index as usize);
                r.append("\nD=M\n");
            },
            _ => {
                r = String::from_str(base_address(segment));
                r.append("\nD=A\n@");
                append_dec(&mut r, index as usize);
                r.append("\nA=D+A\nD=M\n");
            },
        }
        r.append(push_d());
        r
    }

    /// Pops the top of the stack into `segment[index]`.
    pub fn write_pop(&self, segment: &MemorySegment, index: u16) -> (r: String)
        requires
            *segment != MemorySegment::Constant,
        ensures
            r@ == pop_text(self@.file, *segment, index as nat),
    {
        let mut r;
        if let MemorySegment::Static = segment {
            r = String::from_str("D=0\n@");
            r.append(self.context.file.as_str());
            r.append(".");
            append_dec(&mut r, index as usize);
        } else {
            r = String::from_str(base_address(segment));
            r.append("\nD=A\n@");
            append_dec(&mut r, index as usize);
        }
        r.append("\n");
        r.append(pop_to_r13());
        r
    }

    pub fn write_label(&self, label: &str) -> (r: String)
        ensures
            r@ == assembly(self@, VmCommand::Label(label@)),
    {
        let mut r = String::from_str("(");
        r.append(self.context.scope());
        r.append("$");
        r.append(label);
        r.append(")");
        r
    }

    pub fn write_goto(&self, label: &str) -> (r: String)
        ensures
            r@ == assembly(self@, VmCommand::Goto(label@)),
    {
        let mut r = String::from_str("@");
        r.append(self.context.scope());
        r.append("$");
        r.append(label);
        r.append("\n0;JMP");
        r
    }

    /// Pops the top of the stack and jumps when it is non-zero.
    pub fn write_ifgoto(&self, label: &str) -> (r: String)
        ensures
            r@ == assembly(self@, VmCommand::IfGoto(label@)),
    {
        let mut r = String::from_str("@SP\nAM=M-1\nD=M\n@");
        r.append(self.context.scope());
        r.append("$");
        r.append(label);
        r.append("\nD;JNE");
        r
    }

    /// Defines `name` and zeroes `nlocals` local slots; `name` becomes the label scope.
    pub fn write_function(&mut self, name: &str, nlocals: u16) -> (r: String)
        ensures
            r@ == function_text(name@, nlocals as nat),
            final(self)@ == next_state(old(self)@, VmCommand::Function(name@, nlocals)),
    {
        self.set_function_context(name.to_string());
        let mut r = String::from_str("(");
        r.append(name);
        r.append(")");
        let ghost head = r@;
        let mut i: u16 = 0;
        while i < nlocals
            invariant
                i <= nlocals,
                r@ == head + repeat("\nD=0\n"@ + push_d_text(), i as nat),
            decreases nlocals - i,
        {
            r.append("\nD=0\n");
            r.append(push_d());
            proof {
                assert(r@ =~= head + repeat("\nD=0\n"@ + push_d_text(), (i + 1) as nat));
            }
            i = i + 1;
        }
        r
    }

    /// Saves the caller's frame, repositions `ARG` and `LCL`, jumps to `name`,
    /// and defines the return label.
    pub fn write_call(&mut self, name: &str, nargs: u16) -> (r: String)
        requires
            old(self)@.counter < usize::MAX,
        ensures
            r@ == call_text(name@, nargs as nat, old(self)@.counter),
            final(self)@ == next_state(old(self)@, VmCommand::Call(name@, nargs)),
    {
        let id = self.next_label_id();
        let mut r = String::from_str("@__RET_");
        append_dec(&mut r, id);
        r.append("\nD=A\n");
        r.append(push_d());
        r.append("\n");
        r.append(self.push_segment("LCL").as_str());
        r.append("\n");
        r.append(self.push_segment("ARG").as_str());
        r.append("\n");
        r.append(self.push_segment("THIS").as_str());
        r.append("\n");
        r.append(self.push_segment("THAT").as_str());
        r.append("\n@");
        append_dec(&mut r, nargs as usize + 5);
        r.append("\nD=A\n@SP\nD=M-D\n@ARG\nM=D\n@SP\nD=M\n@LCL\nM=D\n@");
        r.append(name);
        r.append("\n0;JMP\n(__RET_");
        append_dec(&mut r, id);
        r.append(")");
        r
    }

    /// Returns to the caller; labels that follow fall back to the unit scope.
    pub fn write_return(&mut self) -> (r: String)
        ensures
            r@ == return_text(),
            final(self)@ == next_state(old(self)@, VmCommand::Return),
    {
        self.set_function_context(String::new());
        let mut r = String::from_str(
            "@LCL\nD=M\n@R14\nM=D\n@5\nA=D-A\nD=M\n@R15\nM=D\n@SP\nAM=M-1\nD=M\n@ARG\nA=M\nM=D\nD=A+1\n@SP\nM=D\n",
        );
        r.append(self.restore_segment("THAT", 1).as_str());
        r.append("\n");
        r.append(self.restore_segment("THIS", 2).as_str());
        r.append("\n");
        r.append(self.restore_segment("ARG", 3).as_str());
        r.append("\n");
        r.append(self.restore_segment("LCL", 4).as_str());
        r.append("\n@R15\nA=M\n0;JMP");
        r
    }

    fn push_segment(&self, segment_pointer: &str) -> (r: String)
        ensures
            r@ == push_segment_text(segment_pointer@),
    {
        let mut r = String::from_str("@");
        r.append(segment_pointer);
        r.append("\nD=M\n");
        r.append(push_d());
        r
    }

    fn restore_segment(&self, segment_pointer: &str, frame_offset: u16) -> (r: String)
        ensures
            r@ == restore_segment_text(segment_pointer@, frame_offset as nat),
    {
        let mut r = String::from_str("@R14\nD=M\n@");
        append_dec(&mut r, frame_offset as usize);
        r.append("\nA=D-A\nD=M\n@");
        r.append(segment_pointer);
        r.append("\nM=D");
        r
    }

    fn write_comparison(&mut self, jump_condition: &str) -> (r: String)
        requires
            old(self)@.counter < usize::MAX,
        ensures
            r@ == comparison_text(jump_condition@, old(self)@.counter),
            final(self)@ == (WriterState { counter: old(self)@.counter + 1, ..old(self)@ }),
    {
        let id = self.next_label_id();
        let mut r = String::from_str(binary_prologue());
        r.append("\nD=M-D\n@TRUE.");
        append_dec(&mut r, id);
        r.append("\nD;");
        r.append(jump_condition);
        r.append("\nD=0\n@OUT.");
        append_dec(&mut r, id);
        r.append("\n0;JMP\n(TRUE.");
        append_dec(&mut r, id);
        r.append(")\nD=-1\n(OUT.");
        append_dec(&mut r, id);
        r.append(")\n@SP\nA=M-1\nM=D");
        r
    }
}

} // verus!
