//! The driver: translates a sequence of units into one assembly text.
use vstd::prelude::*;
use vstd::string::*;
use crate::codewriter::{
    CodeWriter, WriterState, bootstrap_text, fragment, next_state, takes_label_id, writable,
};
use crate::codewriter::assembly;
use crate::machine::{lemma_minted_apart, minted, command_names_ok, comment_line, lemma_fragment_lines, newline_free, no_comment_line};
use crate::command::{Command, VmCommand, surface};
use crate::parser::{Parser, commands, lemma_commands_writable, quotes};
use crate::text::{chars_of, string_of};

verus! {

/// A unit's name without a trailing `.vm`.
pub open spec fn unit_stem(name: Seq<char>) -> Seq<char> {
    if name.len() >= 3 && name.subrange(name.len() - 3, name.len() as int) == ".vm"@ {
        name.take(name.len() - 3)
    } else {
        name
    }
}

/// Why a run stops without output.
pub enum Failure {
    /// A cleaned line that does not parse.
    Unparsable(Seq<char>),
    /// A command that assigns to a literal; the parser never yields one.
    Unwritable(VmCommand),
    /// The label counter has no id left to hand out.
    OutOfLabels,
}

/// The fragments of `cs`, each followed by a line break, and the state after
/// them; or why the first element that cannot be translated stops the run.
pub open spec fn emit_all(w: WriterState, cs: Seq<Result<VmCommand, Seq<char>>>) -> Result<(Seq<char>, WriterState), Failure>
    decreases cs.len(),
{
    if cs.len() == 0 {
        Ok((Seq::empty(), w))
    } else {
        match cs[0] {
            Err(l) => Err(Failure::Unparsable(l)),
            Ok(c) => if !writable(c) {
                Err(Failure::Unwritable(c))
            } else if takes_label_id(c) && w.counter >= usize::MAX {
                Err(Failure::OutOfLabels)
            } else {
                match emit_all(next_state(w, c), cs.drop_first()) {
                    Ok(r) => Ok((fragment(w, c) + "\n"@ + r.0, r.1)),
                    Err(f) => Err(f),
                }
            },
        }
    }
}

/// The state in which the command at position `i` of `cs` is translated.
pub open spec fn state_before(w: WriterState, cs: Seq<VmCommand>, i: nat) -> WriterState
    decreases i,
{
    if i == 0 || cs.len() == 0 {
        w
    } else {
        state_before(next_state(w, cs[0]), cs.drop_first(), (i - 1) as nat)
    }
}

/// What the command at position `i` of `cs` contributes to the output.
pub open spec fn piece(w: WriterState, cs: Seq<VmCommand>, i: nat) -> Seq<char> {
    fragment(state_before(w, cs, i), cs[i as int]) + "\n"@
}

/// The pieces of the commands of `cs` from position `i` on, one after another.
pub open spec fn pieces_from(w: WriterState, cs: Seq<VmCommand>, i: nat) -> Seq<char>
    decreases cs.len() - i,
{
    if i >= cs.len() { Seq::empty() } else { piece(w, cs, i) + pieces_from(w, cs, i + 1) }
}

pub open spec fn all_parsed(cs: Seq<VmCommand>) -> Seq<Result<VmCommand, Seq<char>>> {
    cs.map_values(|c: VmCommand| Ok::<VmCommand, Seq<char>>(c))
}

/// The text emitted for a stream of parsed commands.
pub open spec fn emitted(w: WriterState, cs: Seq<VmCommand>) -> Option<Seq<char>> {
    match emit_all(w, all_parsed(cs)) {
        Ok(r) => Some(r.0),
        Err(_) => None,
    }
}

proof fn lemma_state_before_step(w: WriterState, cs: Seq<VmCommand>, i: nat)
    requires
        cs.len() > 0,
    ensures
        state_before(w, cs, i + 1) == state_before(next_state(w, cs[0]), cs.drop_first(), i),
{
}

proof fn lemma_pieces_step(w: WriterState, cs: Seq<VmCommand>, i: nat)
    requires
        cs.len() > 0,
    ensures
        pieces_from(w, cs, i + 1) == pieces_from(next_state(w, cs[0]), cs.drop_first(), i),
    decreases cs.len() - i,
{
    if i + 1 < cs.len() {
        lemma_pieces_step(w, cs, i + 1);
        lemma_state_before_step(w, cs, i);
        assert(cs.drop_first()[i as int] == cs[i + 1 as int]);
    }
}

/// Translating a stream of commands emits, for each command and in the order of
/// the stream, one comment line `// <surface form>`, then that command's
/// assembly, then a line break; nothing else.
pub proof fn lemma_one_comment_per_command(w: WriterState, cs: Seq<VmCommand>)
    requires
        emit_all(w, all_parsed(cs)) is Ok,
    ensures
        emitted(w, cs) == Some(pieces_from(w, cs, 0)),
        forall|i: nat|
            i < cs.len() ==> #[trigger] piece(w, cs, i) == "// "@ + surface(cs[i as int]) + "\n"@
                + assembly(state_before(w, cs, i), cs[i as int]) + "\n"@,
    decreases cs.len(),
{
    if cs.len() > 0 {
        let c = cs[0];
        assert(all_parsed(cs).drop_first() =~= all_parsed(cs.drop_first()));
        lemma_one_comment_per_command(next_state(w, c), cs.drop_first());
        lemma_pieces_step(w, cs, 0);
    }
}

proof fn lemma_state_before_names(w: WriterState, cs: Seq<VmCommand>, i: nat)
    requires
        i <= cs.len(),
        newline_free(w.file),
        newline_free(w.function),
        forall|k: int| 0 <= k < cs.len() ==> command_names_ok(#[trigger] cs[k]),
    ensures
        newline_free(state_before(w, cs, i).file),
        newline_free(state_before(w, cs, i).function),
    decreases i,
{
    if i > 0 {
        let w1 = next_state(w, cs[0]);
        assert(command_names_ok(cs[0]));
        assert(newline_free(w1.function));
        assert forall|k: int| 0 <= k < cs.drop_first().len() implies command_names_ok(#[trigger] cs.drop_first()[k]) by {
            assert(cs.drop_first()[k] == cs[k + 1]);
        }
        lemma_state_before_names(w1, cs.drop_first(), (i - 1) as nat);
    }
}

/// In the output for a stream of commands, each command's piece is one comment
/// line, `// <surface form>`, then lines none of which is a comment: so the
/// comment lines of the output are exactly one per command, in order. This
/// holds for names without line breaks, as the parser yields them, and a unit
/// name without one.
pub proof fn lemma_comment_lines(w: WriterState, cs: Seq<VmCommand>, i: nat)
    requires
        i < cs.len(),
        newline_free(w.file),
        newline_free(w.function),
        forall|k: int| 0 <= k < cs.len() ==> writable(#[trigger] cs[k]) && command_names_ok(cs[k]),
    ensures
        piece(w, cs, i) == comment_line(cs[i as int]) + "\n"@ + assembly(state_before(w, cs, i), cs[i as int]) + "\n"@,
        comment_line(cs[i as int]).take(2) == "//"@,
        newline_free(comment_line(cs[i as int])),
        no_comment_line(assembly(state_before(w, cs, i), cs[i as int])),
{
    assert forall|k: int| 0 <= k < cs.len() implies command_names_ok(#[trigger] cs[k]) by {
        assert(writable(cs[k]) && command_names_ok(cs[k]));
    }
    lemma_state_before_names(w, cs, i);
    assert(writable(cs[i as int]) && command_names_ok(cs[i as int]));
    lemma_fragment_lines(state_before(w, cs, i), cs[i as int]);
}

/// How many commands of `cs` consume a label id.
pub open spec fn ids_taken(cs: Seq<VmCommand>) -> nat
    decreases cs.len(),
{
    if cs.len() == 0 {
        0
    } else {
        (if takes_label_id(cs[0]) { 1nat } else { 0nat }) + ids_taken(cs.drop_first())
    }
}

/// The label counter only grows: each command that mints a label takes the
/// current id and moves past it, and the others leave it alone.
pub proof fn lemma_counter_advances(w: WriterState, cs: Seq<VmCommand>, i: nat)
    requires
        i <= cs.len(),
    ensures
        state_before(w, cs, i).counter == w.counter + ids_taken(cs.take(i as int)),
        state_before(w, cs, i).file == w.file,
    decreases i,
{
    if i > 0 {
        lemma_counter_advances(next_state(w, cs[0]), cs.drop_first(), (i - 1) as nat);
        assert(cs.take(i as int).drop_first() =~= cs.drop_first().take(i - 1));
    }
}

proof fn lemma_ids_taken_prefix(cs: Seq<VmCommand>, i: int, j: int)
    requires
        0 <= i < j <= cs.len(),
    ensures
        ids_taken(cs.take(i)) + (if takes_label_id(cs[i]) { 1nat } else { 0nat }) <= ids_taken(cs.take(j)),
    decreases cs.len(),
{
    if i > 0 {
        lemma_ids_taken_prefix(cs.drop_first(), i - 1, j - 1);
        assert(cs.take(i).drop_first() =~= cs.drop_first().take(i - 1));
        assert(cs.take(j).drop_first() =~= cs.drop_first().take(j - 1));
    } else {
        assert(cs.take(0).len() == 0);
        lemma_ids_taken_nonneg_step(cs, j);
    }
}

proof fn lemma_ids_taken_nonneg_step(cs: Seq<VmCommand>, j: int)
    requires
        0 < j <= cs.len(),
    ensures
        (if takes_label_id(cs[0]) { 1nat } else { 0nat }) <= ids_taken(cs.take(j)),
{
    assert(cs.take(j).drop_first() =~= cs.drop_first().take(j - 1));
    assert(cs.take(j)[0] == cs[0]);
}

/// The label ids minted while translating one stream are pairwise distinct, so
/// every `TRUE.<n>`, `OUT.<n>` and `__RET_<n>` label is defined once: two
/// commands that mint labels get different ids, and a later one a larger id.
pub proof fn lemma_label_ids_unique(w: WriterState, cs: Seq<VmCommand>, i: nat, j: nat)
    requires
        i < j < cs.len(),
        takes_label_id(cs[i as int]),
    ensures
        state_before(w, cs, i).counter < state_before(w, cs, j).counter,
{
    lemma_counter_advances(w, cs, i);
    lemma_counter_advances(w, cs, j);
    lemma_ids_taken_prefix(cs, i as int, j as int);
}

/// The labels minted for two different commands of a stream never coincide.
/// With `lemma_defined_labels`, which says a command's code defines no other
/// label than its minted ones and the program's own, every `TRUE.<n>`,
/// `OUT.<n>` and `__RET_<n>` label of a run is defined by one command only.
pub proof fn lemma_minted_labels_unique(w: WriterState, cs: Seq<VmCommand>, i: nat, j: nat)
    requires
        i < j < cs.len(),
    ensures
        minted(cs[i as int], state_before(w, cs, i).counter).disjoint(
            minted(cs[j as int], state_before(w, cs, j).counter),
        ),
{
    if takes_label_id(cs[i as int]) {
        lemma_label_ids_unique(w, cs, i, j);
        lemma_minted_apart(
            cs[i as int],
            state_before(w, cs, i).counter,
            cs[j as int],
            state_before(w, cs, j).counter,
        );
    } else {
        assert(minted(cs[i as int], state_before(w, cs, i).counter) =~= Set::empty());
    }
}

/// After a stream, the next id is past every id the stream minted, so the ids
/// of the next unit, or of a later run of the same generator, are new ones.
pub proof fn lemma_stream_moves_counter(w: WriterState, cs: Seq<VmCommand>)
    requires
        emit_all(w, all_parsed(cs)) is Ok,
    ensures
        emit_all(w, all_parsed(cs)) matches Ok(r) && r.1 == state_before(w, cs, cs.len()),
        state_before(w, cs, cs.len()).counter == w.counter + ids_taken(cs),
    decreases cs.len(),
{
    if cs.len() > 0 {
        assert(all_parsed(cs).drop_first() =~= all_parsed(cs.drop_first()));
        lemma_stream_moves_counter(next_state(w, cs[0]), cs.drop_first());
    }
    lemma_counter_advances(w, cs, cs.len());
    assert(cs.take(cs.len() as int) =~= cs);
}

/// The translation of `units` (name, text), in order, from state `w`.
pub open spec fn translate_units(w: WriterState, units: Seq<(Seq<char>, Seq<char>)>) -> Result<Seq<char>, Failure>
    decreases units.len(),
{
    if units.len() == 0 {
        Ok(Seq::empty())
    } else {
        let start = WriterState { file: unit_stem(units[0].0), ..w };
        match emit_all(start, commands(units[0].1, false)) {
            Err(f) => Err(f),
            Ok(r) => match translate_units(r.1, units.drop_first()) {
                Ok(t) => Ok(r.0 + t),
                Err(f) => Err(f),
            },
        }
    }
}

/// The generator's state at the start of a run.
pub open spec fn initial_state() -> WriterState {
    WriterState { counter: 1, file: Seq::empty(), function: Seq::empty() }
}

/// The output of a run over `units`, preceded by the bootstrap when asked.
pub open spec fn translation(units: Seq<(Seq<char>, Seq<char>)>, bootstrap: bool) -> Result<Seq<char>, Failure> {
    if bootstrap {
        match translate_units(next_state(initial_state(), VmCommand::Call("Sys.init"@, 0)), units) {
            Ok(t) => Ok(bootstrap_text(1) + "\n"@ + t),
            Err(f) => Err(f),
        }
    } else {
        translate_units(initial_state(), units)
    }
}

pub open spec fn units_view(inputs: Seq<(String, String)>) -> Seq<(Seq<char>, Seq<char>)> {
    inputs.map_values(|p: (String, String)| (p.0@, p.1@))
}

fn stem(name: &String) -> (r: String)
    ensures
        r@ == unit_stem(name@),
{
    let chars = chars_of(name.as_str());
    let n = chars.len();
    proof {
        reveal_strlit(".vm");
    }
    if n >= 3 && chars[n - 3] == '.' && chars[n - 2] == 'v' && chars[n - 1] == 'm' {
        assert(name@.subrange(n - 3, n as int) =~= ".vm"@);
        let r = string_of(&chars, 0, n - 3);
        assert(name@.take(n - 3) =~= chars@.subrange(0, n - 3));
        r
    } else {
        assert(n >= 3 ==> name@.subrange(n - 3, n as int) != ".vm"@) by {
            if n >= 3 {
                let sub = name@.subrange(n - 3, n as int);
                assert(sub[0] == chars@[n - 3] && sub[1] == chars@[n - 2] && sub[2] == chars@[n - 1]);
            }
        }
        assert(chars@.subrange(0, n as int) =~= chars@);
        string_of(&chars, 0, n)
    }
}

impl Command {
    /// Whether translating this command consumes a fresh label id.
    pub fn takes_label_id(&self) -> (r: bool)
        ensures
            r == takes_label_id(self@),
    {
        match self {
            Command::Eq | Command::Gt | Command::Lt | Command::Call(..) => true,
            _ => false,
        }
    }
}

/// Translates the units (file name, text), in order, into one assembly text,
/// preceded by the bootstrap when `do_bootstrap` holds. The first line that
/// does not parse ends the run with its error, which quotes that line.
pub fn translate(inputs: Vec<(String, String)>, do_bootstrap: bool) -> (r: Result<String, String>)
    ensures
        match r {
            Ok(out) => translation(units_view(inputs@), do_bootstrap) == Ok::<Seq<char>, Failure>(out@),
            Err(e) => match translation(units_view(inputs@), do_bootstrap) {
                Err(Failure::Unparsable(l)) => quotes(e@, l),
                Err(Failure::OutOfLabels) => true,
                _ => false,
            },
        },
{
    let ghost units = units_view(inputs@);
    let mut result = String::new();
    let mut codewriter = CodeWriter::new();
    if do_bootstrap {
        let boot = codewriter.write_bootstrap();
        result.append(boot.as_str());
        result.append("\n");
    }
    let ghost prefix = result@;
    assert(translation(units, do_bootstrap) == match translate_units(codewriter@, units) {
        Ok(t) => Ok(prefix + t),
        Err(f) => Err(f),
    }) by {
        if !do_bootstrap {
            assert(translate_units(codewriter@, units) matches Ok(t) ==> prefix + t =~= t);
        }
    }
    let mut u: usize = 0;
    assert(units.skip(0) =~= units);
    while u < inputs.len()
        invariant
            u <= inputs@.len(),
            units == units_view(inputs@),
            translation(units, do_bootstrap) == match translate_units(codewriter@, units.skip(u as int)) {
                Ok(t) => Ok(result@ + t),
                Err(f) => Err(f),
            },
        decreases inputs@.len() - u,
    {
        let ghost rest = units.skip(u as int);
        assert(rest[0] == (inputs@[u as int].0@, inputs@[u as int].1@));
        assert(rest.drop_first() =~= units.skip(u + 1));
        let name = &inputs[u].0;
        let content = &inputs[u].1;
        let ghost prev = codewriter@;
        codewriter.set_file_context(stem(name));
        let ghost unit_start = codewriter@;
        let ghost unit_prefix = result@;
        let mut parser = Parser::new(content.as_str());
        let ghost all = parser.pending();
        proof {
            lemma_commands_writable(content@, false);
            if let Ok(e) = emit_all(unit_start, all) {
                assert(Seq::<char>::empty() + e.0 =~= e.0);
            }
        }
        let ghost mut unit_text: Seq<char> = Seq::empty();
        loop
            invariant
                u < inputs@.len(),
                units == units_view(inputs@),
                rest == units.skip(u as int),
                unit_start == (WriterState { file: unit_stem(rest[0].0), ..prev }),
                all == commands(rest[0].1, false),
                translation(units, do_bootstrap) == match translate_units(prev, rest) {
                    Ok(t) => Ok(unit_prefix + t),
                    Err(f) => Err(f),
                },
                parser.wf(),
                forall|i: int|
                    0 <= i < parser.pending().len() ==> (#[trigger] parser.pending()[i] matches Ok(c) ==> writable(c)),
                result@ == unit_prefix + unit_text,
                codewriter@.file == unit_start.file,
                emit_all(unit_start, all) == match emit_all(codewriter@, parser.pending()) {
                    Ok(e) => Ok((unit_text + e.0, e.1)),
                    Err(f) => Err(f),
                },
            ensures
                parser.pending().len() == 0,
                result@ == unit_prefix + unit_text,
                emit_all(unit_start, all) == match emit_all(codewriter@, parser.pending()) {
                    Ok(e) => Ok((unit_text + e.0, e.1)),
                    Err(f) => Err(f),
                },
                translation(units, do_bootstrap) == match translate_units(prev, rest) {
                    Ok(t) => Ok(unit_prefix + t),
                    Err(f) => Err(f),
                },
                rest == units.skip(u as int),
                unit_start == (WriterState { file: unit_stem(rest[0].0), ..prev }),
                all == commands(rest[0].1, false),
                u < inputs@.len(),
                units == units_view(inputs@),
            decreases parser.pending().len(),
        {
            let ghost before = parser.pending();
            let ghost w = codewriter@;
            match parser.next() {
                None => {
                    break;
                },
                Some(Err(e)) => {
                    return Err(e);
                },
                Some(Ok(command)) => {
                    assert(before[0] == Ok::<VmCommand, Seq<char>>(command@));
                    if command.takes_label_id() && !codewriter.has_label_ids() {
                        return Err(String::from_str("no label ids left"));
                    }
                    let frag = codewriter.write(&command);
                    result.append(frag.as_str());
                    result.append("\n");
                    proof {
                        let old_text = unit_text;
                        unit_text = unit_text + fragment(w, command@) + "\n"@;
                        assert(result@ =~= unit_prefix + unit_text);
                        if let Ok(e) = emit_all(codewriter@, parser.pending()) {
                            assert(old_text + (fragment(w, command@) + "\n"@ + e.0) =~= unit_text + e.0);
                        }
                    }
                },
            }
        }
        proof {
            assert(parser.pending().len() == 0);
            assert(emit_all(codewriter@, parser.pending()) == Ok::<(Seq<char>, WriterState), Failure>((Seq::<char>::empty(), codewriter@)));
            assert(unit_text + Seq::<char>::empty() =~= unit_text);
            assert(emit_all(unit_start, all) == Ok::<(Seq<char>, WriterState), Failure>((unit_text, codewriter@)));
            if let Ok(t) = translate_units(codewriter@, rest.drop_first()) {
                assert(unit_prefix + (unit_text + t) =~= result@ + t);
            }
        }
        u = u + 1;
    }
    assert(units.skip(u as int).len() == 0);
    Ok(result)
}

} // verus!
