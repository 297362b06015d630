//! The front end: comment removal, tokenisation and parsing of VM source.
use vstd::prelude::*;
use vstd::string::*;
use crate::codewriter::writable;
use crate::machine::{command_names_ok, newline_free};
use crate::command::{Command, MemorySegment, VmCommand};
use crate::text::{
    chars_of, find_pair, find_pair_in, is_space, is_space_char, lemma_find_pair_from,
    lemma_trim_len, push_char, string_of, trim, trim_bounds,
};

verus! {

// ---------------------------------------------------------------------------
// Tokens.
// ---------------------------------------------------------------------------

/// The whitespace-separated words of `s`, where `cur` is a word already begun.
pub open spec fn tokens_after(s: Seq<char>, cur: Seq<char>) -> Seq<Seq<char>>
    decreases s.len(),
{
    if s.len() == 0 {
        if cur.len() == 0 { Seq::empty() } else { seq![cur] }
    } else if is_space(s[0]) {
        (if cur.len() == 0 { Seq::empty() } else { seq![cur] }) + tokens_after(s.drop_first(), Seq::empty())
    } else {
        tokens_after(s.drop_first(), cur.push(s[0]))
    }
}

/// The maximal runs of non-whitespace characters of `s`, in order.
pub open spec fn tokens(s: Seq<char>) -> Seq<Seq<char>> {
    tokens_after(s, Seq::empty())
}

pub open spec fn views(v: Seq<Vec<char>>) -> Seq<Seq<char>> {
    v.map_values(|w: Vec<char>| w@)
}

fn tokenize(s: &Vec<char>) -> (r: Vec<Vec<char>>)
    ensures
        views(r@) == tokens(s@),
{
    let mut r: Vec<Vec<char>> = Vec::new();
    let mut cur: Vec<char> = Vec::new();
    let mut i: usize = 0;
    assert(s@.subrange(0, s@.len() as int) =~= s@);
    assert(views(r@) + tokens(s@) =~= tokens(s@));
    while i < s.len()
        invariant
            i <= s@.len(),
            views(r@) + tokens_after(s@.subrange(i as int, s@.len() as int), cur@) == tokens(s@),
        decreases s@.len() - i,
    {
        let ghost rest = s@.subrange(i as int, s@.len() as int);
        assert(rest.drop_first() =~= s@.subrange(i + 1, s@.len() as int));
        assert(rest[0] == s@[i as int]);
        let c = s[i];
        if is_space_char(c) {
            if cur.len() > 0 {
                let ghost old_r = r@;
                r.push(cur);
                assert(views(r@) =~= views(old_r) + seq![cur@]);
                cur = Vec::new();
            } else {
                assert(views(r@) + Seq::<Seq<char>>::empty() =~= views(r@));
            }
            assert(cur@ =~= Seq::<char>::empty());
        } else {
            cur.push(c);
        }
        proof {
            assert(views(r@) + tokens_after(s@.subrange(i + 1, s@.len() as int), cur@) =~= tokens(s@));
        }
        i = i + 1;
    }
    assert(s@.subrange(i as int, s@.len() as int).len() == 0);
    if cur.len() > 0 {
        let ghost old_r = r@;
        r.push(cur);
        assert(views(r@) =~= views(old_r) + seq![cur@]);
    } else {
        assert(views(r@) + Seq::<Seq<char>>::empty() =~= views(r@));
    }
    r
}

/// Whether the word `tok` is `w`.
fn is_word(tok: &Vec<char>, w: &str) -> (r: bool)
    ensures
        r == (tok@ == w@),
{
    let n = w.unicode_len();
    if tok.len() != n {
        return false;
    }
    let mut i: usize = 0;
    while i < n
        invariant
            i <= n == tok@.len() == w@.len(),
            forall|j: int| 0 <= j < i ==> tok@[j] == w@[j],
        decreases n - i,
    {
        if tok[i] != w.get_char(i) {
            return false;
        }
        i = i + 1;
    }
    assert(tok@ =~= w@);
    true
}

// ---------------------------------------------------------------------------
// Numbers.
// ---------------------------------------------------------------------------

pub open spec fn is_digit(c: char) -> bool {
    48 <= (c as u32) <= 57
}

pub open spec fn digit_value(c: char) -> nat {
    ((c as u32) - 48) as nat
}

/// The value of a string of decimal digits.
pub open spec fn digits_value(s: Seq<char>) -> nat
    decreases s.len(),
{
    if s.len() == 0 { 0 } else { digits_value(s.drop_last()) * 10 + digit_value(s.last()) }
}

/// The digits of a number, after an optional leading `+`.
pub open spec fn unsigned_digits(s: Seq<char>) -> Seq<char> {
    if s.len() > 0 && s[0] == '+' { s.drop_first() } else { s }
}

/// The value of an unsigned decimal number, optionally preceded by `+`.
pub open spec fn parse_number(s: Seq<char>) -> Option<nat> {
    let d = unsigned_digits(s);
    if d.len() > 0 && (forall|i: int| 0 <= i < d.len() ==> is_digit(d[i])) {
        Some(digits_value(d))
    } else {
        None
    }
}

/// A numeric operand no larger than `max`.
pub open spec fn bounded_number(s: Seq<char>, max: nat) -> Option<u16> {
    match parse_number(s) {
        Some(v) => if v <= max && max <= u16::MAX { Some(v as u16) } else { None },
        None => None,
    }
}

proof fn lemma_digits_value_grows(s: Seq<char>, i: int)
    requires
        0 <= i <= s.len(),
    ensures
        digits_value(s.take(i)) <= digits_value(s),
    decreases s.len(),
{
    if i < s.len() {
        assert(s.drop_last().take(i) =~= s.take(i));
        lemma_digits_value_grows(s.drop_last(), i);
    } else {
        assert(s.take(i) =~= s);
    }
}

/// Parses a numeric operand: `Ok` when it is a number no larger than `max`,
/// otherwise the reason it is refused.
fn parse_bounded(tok: &Vec<char>, max: u16) -> (r: Result<u16, &'static str>)
    ensures
        r matches Ok(v) ==> bounded_number(tok@, max as nat) == Some(v),
        r is Err ==> bounded_number(tok@, max as nat) is None,
{
    let start: usize = if tok.len() > 0 && tok[0] == '+' { 1 } else { 0 };
    let ghost d = unsigned_digits(tok@);
    assert(d =~= tok@.subrange(start as int, tok@.len() as int));
    if start >= tok.len() {
        return Err("couldn't parse number");
    }
    let mut i = start;
    while i < tok.len()
        invariant
            start <= i <= tok@.len(),
            d == tok@.subrange(start as int, tok@.len() as int),
            d == unsigned_digits(tok@),
            forall|j: int| 0 <= j < i - start ==> is_digit(d[j]),
        decreases tok@.len() - i,
    {
        let u = tok[i] as u32;
        if u < 48 || u > 57 {
            assert(!is_digit(d[i - start]));
            assert(parse_number(tok@) is None);
            return Err("couldn't parse number");
        }
        i = i + 1;
    }
    let mut value: u32 = 0;
    let mut i = start;
    while i < tok.len()
        invariant
            start <= i <= tok@.len(),
            d == tok@.subrange(start as int, tok@.len() as int),
            d == unsigned_digits(tok@),
            forall|j: int| 0 <= j < d.len() ==> is_digit(d[j]),
            value as nat == digits_value(d.take(i - start)),
            value <= max,
        decreases tok@.len() - i,
    {
        let ghost k = i - start;
        assert(d.take(k + 1).drop_last() =~= d.take(k));
        assert(d.take(k + 1).last() == tok@[i as int]);
        value = value * 10 + (tok[i] as u32 - 48);
        if value > max as u32 {
            proof {
                assert(value as nat == digits_value(d.take(k + 1)));
                lemma_digits_value_grows(d, k + 1);
                assert(parse_number(tok@) == Some(digits_value(d)));
            }
            return Err("number exceeds maximum allowed");
        }
        i = i + 1;
    }
    assert(d.take(d.len() as int) =~= d);
    Ok(value as u16)
}

// ---------------------------------------------------------------------------
// Commands.
// ---------------------------------------------------------------------------

/// The segment named by a keyword.
pub open spec fn segment_of(w: Seq<char>) -> Option<MemorySegment> {
    if w == "constant"@ { Some(MemorySegment::Constant) }
    else if w == "local"@ { Some(MemorySegment::Local) }
    else if w == "argument"@ { Some(MemorySegment::Argument) }
    else if w == "this"@ { Some(MemorySegment::This) }
    else if w == "that"@ { Some(MemorySegment::That) }
    else if w == "temp"@ { Some(MemorySegment::Temp) }
    else if w == "pointer"@ { Some(MemorySegment::Pointer) }
    else if w == "static"@ { Some(MemorySegment::Static) }
    else { None }
}

/// The largest index of a segment.
pub open spec fn max_index(s: MemorySegment) -> nat {
    match s {
        MemorySegment::Temp => 7,
        MemorySegment::Pointer => 1,
        MemorySegment::Static => 239,
        _ => 32767,
    }
}

/// The command of a line of 0-operand keyword `k`.
pub open spec fn nullary(k: Seq<char>) -> Option<VmCommand> {
    if k == "add"@ { Some(VmCommand::Add) }
    else if k == "sub"@ { Some(VmCommand::Sub) }
    else if k == "neg"@ { Some(VmCommand::Neg) }
    else if k == "eq"@ { Some(VmCommand::Eq) }
    else if k == "gt"@ { Some(VmCommand::Gt) }
    else if k == "lt"@ { Some(VmCommand::Lt) }
    else if k == "and"@ { Some(VmCommand::And) }
    else if k == "or"@ { Some(VmCommand::Or) }
    else if k == "not"@ { Some(VmCommand::Not) }
    else if k == "return"@ { Some(VmCommand::Return) }
    else { None }
}

/// The command of the words `t`, if they form one.
pub open spec fn parse_tokens(t: Seq<Seq<char>>) -> Option<VmCommand> {
    if t.len() == 1 {
        nullary(t[0])
    } else if t.len() == 2 {
        if t[0] == "label"@ { Some(VmCommand::Label(t[1])) }
        else if t[0] == "goto"@ { Some(VmCommand::Goto(t[1])) }
        else if t[0] == "if-goto"@ { Some(VmCommand::IfGoto(t[1])) }
        else { None }
    } else if t.len() == 3 {
        if t[0] == "push"@ || t[0] == "pop"@ {
            match segment_of(t[1]) {
                Some(s) => if t[0] == "pop"@ && s == MemorySegment::Constant {
                    None
                } else {
                    match bounded_number(t[2], max_index(s)) {
                        Some(i) => if t[0] == "push"@ {
                            Some(VmCommand::Push(s, i))
                        } else {
                            Some(VmCommand::Pop(s, i))
                        },
                        None => None,
                    }
                },
                None => None,
            }
        } else if t[0] == "function"@ || t[0] == "call"@ {
            match bounded_number(t[2], 32767) {
                Some(n) => if t[0] == "function"@ {
                    Some(VmCommand::Function(t[1], n))
                } else {
                    Some(VmCommand::Call(t[1], n))
                },
                None => None,
            }
        } else {
            None
        }
    } else {
        None
    }
}

/// The command written on a cleaned line, if it is well formed.
pub open spec fn parse_line(line: Seq<char>) -> Option<VmCommand> {
    parse_tokens(tokens(line))
}

/// Whether the message `e` ends with the text of `line`.
pub open spec fn quotes(e: Seq<char>, line: Seq<char>) -> bool {
    e.len() >= line.len() && e.subrange(e.len() - line.len(), e.len() as int) == line
}

fn parse_error(reason: &str, line: &str) -> (r: String)
    ensures
        r@ == reason@ + ": "@ + line@,
        quotes(r@, line@),
{
    let mut r = String::from_str(reason);
    r.append(": ");
    r.append(line);
    assert(r@.subrange(r@.len() - line@.len(), r@.len() as int) =~= line@);
    r
}


fn segment_from(w: &Vec<char>) -> (r: Option<MemorySegment>)
    ensures
        r == segment_of(w@),
{
    if is_word(w, "constant") { Some(MemorySegment::Constant) }
    else if is_word(w, "local") { Some(MemorySegment::Local) }
    else if is_word(w, "argument") { Some(MemorySegment::Argument) }
    else if is_word(w, "this") { Some(MemorySegment::This) }
    else if is_word(w, "that") { Some(MemorySegment::That) }
    else if is_word(w, "temp") { Some(MemorySegment::Temp) }
    else if is_word(w, "pointer") { Some(MemorySegment::Pointer) }
    else if is_word(w, "static") { Some(MemorySegment::Static) }
    else { None }
}

fn segment_max(s: MemorySegment) -> (r: u16)
    ensures
        r as nat == max_index(s),
{
    match s {
        MemorySegment::Temp => 7,
        MemorySegment::Pointer => 1,
        MemorySegment::Static => 239,
        _ => 32767,
    }
}

fn parse_nullary(k: &Vec<char>) -> (r: Option<Command>)
    ensures
        r matches Some(c) ==> nullary(k@) == Some(c@),
        r is None ==> nullary(k@) is None,
{
    if is_word(k, "add") { Some(Command::Add) }
    else if is_word(k, "sub") { Some(Command::Sub) }
    else if is_word(k, "neg") { Some(Command::Neg) }
    else if is_word(k, "eq") { Some(Command::Eq) }
    else if is_word(k, "gt") { Some(Command::Gt) }
    else if is_word(k, "lt") { Some(Command::Lt) }
    else if is_word(k, "and") { Some(Command::And) }
    else if is_word(k, "or") { Some(Command::Or) }
    else if is_word(k, "not") { Some(Command::Not) }
    else if is_word(k, "return") { Some(Command::Return) }
    else { None }
}

/// Parses the words of a line; errors quote `line`.
fn parse_words(t: &Vec<Vec<char>>, line: &str) -> (r: Result<Command, String>)
    ensures
        match r {
            Ok(c) => parse_tokens(views(t@)) == Some(c@),
            Err(e) => parse_tokens(views(t@)) is None && quotes(e@, line@),
        },
{
    let n = t.len();
    let ghost v = views(t@);
    assert(v.len() == n);
    if n == 0 {
        return Err(parse_error("empty line", line));
    }
    if n > 3 {
        return Err(parse_error("too many tokens", line));
    }
    let k = &t[0];
    assert(v[0] == k@);
    if n == 1 {
        return match parse_nullary(k) {
            Some(c) => Ok(c),
            None => Err(parse_error("unknown command or missing operands", line)),
        };
    }
    let a = &t[1];
    assert(v[1] == a@);
    assert(a@.subrange(0, a@.len() as int) =~= a@);
    if n == 2 {
        return if is_word(k, "label") {
            Ok(Command::Label(string_of(a, 0, a.len())))
        } else if is_word(k, "goto") {
            Ok(Command::Goto(string_of(a, 0, a.len())))
        } else if is_word(k, "if-goto") {
            Ok(Command::IfGoto(string_of(a, 0, a.len())))
        } else {
            Err(parse_error("unknown command or wrong number of operands", line))
        };
    }
    let b = &t[2];
    assert(v[2] == b@);
    let is_push = is_word(k, "push");
    let is_pop = is_word(k, "pop");
    if is_push || is_pop {
        match segment_from(a) {
            None => Err(parse_error("unknown segment", line)),
            Some(seg) => {
                if is_pop && seg == MemorySegment::Constant {
                    Err(parse_error("cannot pop into the constant segment", line))
                } else {
                    match parse_bounded(b, segment_max(seg)) {
                        Ok(i) => if is_push {
                            Ok(Command::Push(seg, i))
                        } else {
                            Ok(Command::Pop(seg, i))
                        },
                        Err(reason) => Err(parse_error(reason, line)),
                    }
                }
            },
        }
    } else {
        let is_function = is_word(k, "function");
        if is_function || is_word(k, "call") {
            let name = string_of(a, 0, a.len());
            match parse_bounded(b, 32767) {
                Ok(count) => if is_function {
                    Ok(Command::Function(name, count))
                } else {
                    Ok(Command::Call(name, count))
                },
                Err(reason) => Err(parse_error(reason, line)),
            }
        } else {
            Err(parse_error("unknown command or wrong number of operands", line))
        }
    }
}

/// Parses one cleaned line into a command. An error quotes the line.
pub fn parse(line: &str) -> (r: Result<Command, String>)
    ensures
        match r {
            Ok(c) => parse_line(line@) == Some(c@),
            Err(e) => parse_line(line@) is None && quotes(e@, line@),
        },
{
    let chars = chars_of(line);
    let words = tokenize(&chars);
    parse_words(&words, line)
}


// ---------------------------------------------------------------------------
// Comments and lines.
// ---------------------------------------------------------------------------

/// Whether a block comment opens in `t` before any line comment does.
pub open spec fn block_opens_first(t: Seq<char>) -> bool {
    match find_pair(t, '/', '*') {
        Some(c) => match find_pair(t, '/', '/') {
            Some(k) => c < k,
            None => true,
        },
        None => false,
    }
}

/// A line with its comments and surrounding whitespace removed, and whether a
/// block comment is still open after it; `in_comment` says whether one was
/// open before it. Of `//` and `/*`, the one that comes first opens a comment.
pub open spec fn clean_line(line: Seq<char>, in_comment: bool) -> (Seq<char>, bool)
    decreases line.len(),
{
    let t = trim(line);
    proof {
        lemma_trim_len(line);
    }
    if in_comment {
        match find_pair(t, '*', '/') {
            Some(e) => {
                proof {
                    lemma_find_pair_from(t, '*', '/', 0);
                }
                clean_line(t.subrange(e + 2, t.len() as int), false)
            },
            None => (Seq::empty(), true),
        }
    } else if block_opens_first(t) {
        let c = find_pair(t, '/', '*')->0;
        let after = t.subrange(c + 2, t.len() as int);
        match find_pair(after, '*', '/') {
            Some(e) => {
                proof {
                    reveal_strlit(" ");
                    lemma_find_pair_from(t, '/', '*', 0);
                    lemma_find_pair_from(after, '*', '/', 0);
                    lemma_trim_len(t.subrange(0, c));
                    lemma_trim_len(after.subrange(e + 2, after.len() as int));
                }
                clean_line(
                    trim(t.subrange(0, c)) + " "@ + trim(after.subrange(e + 2, after.len() as int)),
                    false,
                )
            },
            None => (trim(t.subrange(0, c)), true),
        }
    } else {
        match find_pair(t, '/', '/') {
            Some(c) => {
                proof {
                    lemma_find_pair_from(t, '/', '/', 0);
                    lemma_trim_len(t.subrange(0, c));
                }
                clean_line(trim(t.subrange(0, c)), false)
            },
            None => (t, false),
        }
    }
}

fn copy_range(s: &Vec<char>, lo: usize, hi: usize) -> (r: Vec<char>)
    requires
        lo <= hi <= s@.len(),
    ensures
        r@ == s@.subrange(lo as int, hi as int),
{
    let mut r: Vec<char> = Vec::new();
    let mut i = lo;
    while i < hi
        invariant
            lo <= i <= hi <= s@.len(),
            r@ == s@.subrange(lo as int, i as int),
        decreases hi - i,
    {
        r.push(s[i]);
        assert(r@ =~= s@.subrange(lo as int, i + 1));
        i = i + 1;
    }
    r
}

#[verifier::rlimit(20)]
fn clean_chars(line: Vec<char>, in_comment: bool) -> (r: (Vec<char>, bool))
    ensures
        (r.0@, r.1) == clean_line(line@, in_comment),
    decreases line@.len(),
{
    let ghost full = line@.subrange(0, line@.len() as int);
    assert(full =~= line@);
    let (a, b) = trim_bounds(&line, 0, line.len());
    let ghost t = line@.subrange(a as int, b as int);
    proof {
        lemma_trim_len(line@);
    }
    if in_comment {
        match find_pair_in(&line, a, b, '*', '/') {
            Some(e) => {
                proof {
                    lemma_find_pair_from(t, '*', '/', 0);
                }
                let rest = copy_range(&line, a + e + 2, b);
                assert(rest@ =~= t.subrange(e + 2, t.len() as int));
                clean_chars(rest, false)
            },
            None => (Vec::new(), true),
        }
    } else {
        let slash = find_pair_in(&line, a, b, '/', '/');
        let block = find_pair_in(&line, a, b, '/', '*');
        let block_first = match block {
            Some(c) => match slash {
                Some(k) => c < k,
                None => true,
            },
            None => false,
        };
        if block_first {
            let c = match block {
                Some(c) => c,
                None => 0,
            };
            proof {
                lemma_find_pair_from(t, '/', '*', 0);
            }
            let ghost after = t.subrange(c + 2, t.len() as int);
            assert(line@.subrange((a + c + 2) as int, b as int) =~= after);
            assert(line@.subrange(a as int, (a + c) as int) =~= t.subrange(0, c as int));
            let (c0, c1) = trim_bounds(&line, a, a + c);
            match find_pair_in(&line, a + c + 2, b, '*', '/') {
                Some(e) => {
                    proof {
                        reveal_strlit(" ");
                        lemma_find_pair_from(after, '*', '/', 0);
                        lemma_trim_len(t.subrange(0, c as int));
                        lemma_trim_len(after.subrange(e + 2, after.len() as int));
                    }
                    assert(line@.subrange((a + c + 2 + e + 2) as int, b as int)
                        =~= after.subrange(e + 2, after.len() as int));
                    let (d0, d1) = trim_bounds(&line, a + c + 2 + e + 2, b);
                    let joined = join_with_space(&line, c0, c1, d0, d1);
                    clean_chars(joined, false)
                },
                None => (copy_range(&line, c0, c1), true),
            }
        } else {
            match slash {
                Some(c) => {
                    proof {
                        lemma_find_pair_from(t, '/', '/', 0);
                    }
                    let (c0, c1) = trim_bounds(&line, a, a + c);
                    assert(line@.subrange(a as int, (a + c) as int) =~= t.subrange(0, c as int));
                    proof {
                        lemma_trim_len(t.subrange(0, c as int));
                    }
                    let before = copy_range(&line, c0, c1);
                    clean_chars(before, false)
                },
                None => (copy_range(&line, a, b), false),
            }
        }
    }
}

/// `s@[c0..c1]`, a space, then `s@[d0..d1]`.
fn join_with_space(s: &Vec<char>, c0: usize, c1: usize, d0: usize, d1: usize) -> (r: Vec<char>)
    requires
        c0 <= c1 <= s@.len(),
        d0 <= d1 <= s@.len(),
    ensures
        r@ == s@.subrange(c0 as int, c1 as int) + " "@ + s@.subrange(d0 as int, d1 as int),
{
    let mut joined = copy_range(s, c0, c1);
    joined.push(' ');
    let tail = copy_range(s, d0, d1);
    let ghost head = joined@;
    let mut i: usize = 0;
    while i < tail.len()
        invariant
            i <= tail@.len(),
            joined@ == head + tail@.take(i as int),
        decreases tail@.len() - i,
    {
        joined.push(tail[i]);
        assert(joined@ =~= head + tail@.take(i + 1));
        i = i + 1;
    }
    assert(tail@.take(tail@.len() as int) =~= tail@);
    assert(seq![' '] =~= " "@) by {
        reveal_strlit(" ");
    }
    assert(joined@ =~= s@.subrange(c0 as int, c1 as int) + " "@ + s@.subrange(d0 as int, d1 as int));
    joined
}

/// The index of the first `'\n'` at or after `i`, or the length of `s`.
pub open spec fn newline_from(s: Seq<char>, i: int) -> int
    decreases s.len() - i,
{
    if i < 0 || i >= s.len() || s[i] == '\n' { i } else { newline_from(s, i + 1) }
}

pub proof fn lemma_newline_from(s: Seq<char>, i: int)
    requires
        0 <= i <= s.len(),
    ensures
        i <= newline_from(s, i) <= s.len(),
        newline_from(s, i) < s.len() ==> s[newline_from(s, i)] == '\n',
    decreases s.len() - i,
{
    if i < s.len() && s[i] != '\n' {
        lemma_newline_from(s, i + 1);
    }
}

/// The text after the first line of `s` and its line break.
pub open spec fn after_first_line(s: Seq<char>) -> Seq<char> {
    let e = newline_from(s, 0);
    if e < s.len() { s.subrange(e + 1, s.len() as int) } else { Seq::empty() }
}

/// The outcome of a cleaned line: its command, or the line itself when it does
/// not parse.
pub open spec fn line_outcome(line: Seq<char>) -> Result<VmCommand, Seq<char>> {
    match parse_line(line) {
        Some(c) => Ok(c),
        None => Err(line),
    }
}

/// The outcomes of the non-empty cleaned lines of the text `s`, in order.
/// `in_comment` says whether a block comment is open before `s`.
pub open spec fn commands(s: Seq<char>, in_comment: bool) -> Seq<Result<VmCommand, Seq<char>>>
    decreases s.len(),
{
    if s.len() == 0 {
        Seq::empty()
    } else {
        proof {
            lemma_newline_from(s, 0);
        }
        let cleaned = clean_line(s.take(newline_from(s, 0)), in_comment);
        let tail = commands(after_first_line(s), cleaned.1);
        if cleaned.0.len() == 0 { tail } else { seq![line_outcome(cleaned.0)] + tail }
    }
}

/// A stream of commands read from VM source text, one line at a time.
pub struct Parser {
    source: Vec<char>,
    pos: usize,
    pub in_multiline_comment: bool,
}

impl Parser {
    /// The text that is still to be read.
    pub closed spec fn rest(&self) -> Seq<char> {
        self.source@.subrange(self.pos as int, self.source@.len() as int)
    }

    /// Whether a block comment is open.
    pub closed spec fn in_comment(&self) -> bool {
        self.in_multiline_comment
    }

    pub closed spec fn wf(&self) -> bool {
        self.pos <= self.source@.len()
    }

    /// The commands still to come.
    pub closed spec fn pending(&self) -> Seq<Result<VmCommand, Seq<char>>> {
        commands(self.rest(), self.in_multiline_comment)
    }

    pub fn new(input: &str) -> (r: Self)
        ensures
            r.wf(),
            r.rest() == input@,
            !r.in_comment(),
            r.pending() == commands(input@, false),
    {
        let source = chars_of(input);
        let r = Parser { source, pos: 0, in_multiline_comment: false };
        assert(r.rest() =~= input@);
        r
    }

    /// Removes comments and surrounding whitespace from `line`, carrying the
    /// open-block-comment state across calls.
    pub fn clean(&mut self, line: &str) -> (r: String)
        ensures
            (r@, final(self).in_comment()) == clean_line(line@, old(self).in_comment()),
            final(self).rest() == old(self).rest(),
            final(self).wf() == old(self).wf(),
            final(self).pending() == commands(old(self).rest(), final(self).in_comment()),
    {
        let chars = chars_of(line);
        let (cleaned, in_comment) = clean_chars(chars, self.in_multiline_comment);
        self.in_multiline_comment = in_comment;
        let r = string_of(&cleaned, 0, cleaned.len());
        assert(cleaned@.subrange(0, cleaned@.len() as int) =~= cleaned@);
        r
    }

    /// The next command, or the error of the next line that does not parse,
    /// which quotes that cleaned line;
    /// `None` at the end of the text.
    pub fn next(&mut self) -> (r: Option<Result<Command, String>>)
        requires
            old(self).wf(),
        ensures
            final(self).wf(),
            match r {
                None => old(self).pending().len() == 0 && final(self).pending().len() == 0,
                Some(x) => {
                    &&& old(self).pending().len() > 0
                    &&& final(self).pending() == old(self).pending().drop_first()
                    &&& match x {
                        Ok(c) => old(self).pending()[0] == Ok::<VmCommand, Seq<char>>(c@),
                        Err(e) => old(self).pending()[0] matches Err(l) && quotes(e@, l),
                    }
                },
            },
    {
        while self.pos < self.source.len()
            invariant
                self.wf(),
                self.pending() == old(self).pending(),
            decreases self.source@.len() - self.pos,
        {
            let ghost s = self.rest();
            let start = self.pos;
            let mut e = start;
            while e < self.source.len() && self.source[e] != '\n'
                invariant
                    start <= e <= self.source@.len(),
                    s == self.source@.subrange(start as int, self.source@.len() as int),
                    newline_from(s, 0) == newline_from(s, (e - start) as int),
                decreases self.source@.len() - e,
            {
                e = e + 1;
            }
            proof {
                lemma_newline_from(s, 0);
            }
            let line = copy_range(&self.source, start, e);
            assert(line@ =~= s.take(newline_from(s, 0)));
            let (cleaned, in_comment) = clean_chars(line, self.in_multiline_comment);
            self.in_multiline_comment = in_comment;
            self.pos = if e < self.source.len() { e + 1 } else { e };
            assert(self.rest() =~= after_first_line(s));
            if cleaned.len() > 0 {
                let text = string_of(&cleaned, 0, cleaned.len());
                assert(cleaned@.subrange(0, cleaned@.len() as int) =~= cleaned@);
                let r = parse(text.as_str());
                assert(old(self).pending() == seq![line_outcome(cleaned@)] + self.pending());
                assert(self.pending() =~= old(self).pending().drop_first());
                return Some(r);
            }
        }
        assert(self.rest().len() == 0);
        None
    }
}


/// A parsed command never assigns to a literal.
pub proof fn lemma_parse_line_writable(line: Seq<char>)
    ensures
        line_outcome(line) matches Ok(c) ==> writable(c),
{
}

/// No command read from a text assigns to a literal, and none carries a name
/// with a line break.
pub proof fn lemma_commands_writable(s: Seq<char>, in_comment: bool)
    ensures
        forall|i: int|
            0 <= i < commands(s, in_comment).len() ==> (#[trigger] commands(s, in_comment)[i] matches Ok(c)
                ==> writable(c) && command_names_ok(c)),
    decreases s.len(),
{
    if s.len() > 0 {
        lemma_newline_from(s, 0);
        let cleaned = clean_line(s.take(newline_from(s, 0)), in_comment);
        lemma_commands_writable(after_first_line(s), cleaned.1);
        lemma_parse_line_writable(cleaned.0);
        lemma_parse_line_names(cleaned.0);
    }
}


/// No word of `s` holds whitespace, when the word begun, `cur`, holds none.
proof fn lemma_tokens_after_spaceless(s: Seq<char>, cur: Seq<char>)
    requires
        forall|i: int| 0 <= i < cur.len() ==> !is_space(#[trigger] cur[i]),
    ensures
        forall|k: int, i: int|
            0 <= k < tokens_after(s, cur).len() && 0 <= i < tokens_after(s, cur)[k].len()
                ==> !is_space(#[trigger] tokens_after(s, cur)[k][i]),
    decreases s.len(),
{
    if s.len() > 0 {
        if is_space(s[0]) {
            lemma_tokens_after_spaceless(s.drop_first(), Seq::empty());
            let head: Seq<Seq<char>> = if cur.len() == 0 { Seq::empty() } else { seq![cur] };
            let t = tokens_after(s.drop_first(), Seq::empty());
            let all = head + t;
            assert(tokens_after(s, cur) == all);
            assert forall|k: int, i: int|
                0 <= k < all.len() && 0 <= i < all[k].len() implies !is_space(#[trigger] all[k][i]) by {
                if k < head.len() {
                    assert(all[k] == cur);
                } else {
                    assert(all[k] == t[k - head.len()]);
                    assert(!is_space(t[k - head.len()][i]));
                }
            }
        } else {
            let c2 = cur.push(s[0]);
            assert forall|i: int| 0 <= i < c2.len() implies !is_space(#[trigger] c2[i]) by {
                if i < cur.len() {
                    assert(c2[i] == cur[i]);
                }
            }
            lemma_tokens_after_spaceless(s.drop_first(), c2);
            let t = tokens_after(s.drop_first(), c2);
            assert(tokens_after(s, cur) == t);
            assert forall|k: int, i: int|
                0 <= k < t.len() && 0 <= i < t[k].len() implies !is_space(#[trigger] t[k][i]) by {}
        }
    } else if cur.len() > 0 {
        let t: Seq<Seq<char>> = seq![cur];
        assert(tokens_after(s, cur) == t);
        assert forall|k: int, i: int|
            0 <= k < t.len() && 0 <= i < t[k].len() implies !is_space(#[trigger] t[k][i]) by {
            assert(t[k] == cur);
        }
    }
}

/// The names of a parsed command hold no line break.
pub proof fn lemma_parse_line_names(line: Seq<char>)
    ensures
        line_outcome(line) matches Ok(c) ==> command_names_ok(c),
{
    lemma_tokens_after_spaceless(line, Seq::empty());
    let t = tokens(line);
    if t.len() >= 2 {
        assert forall|i: int| 0 <= i < t[1].len() implies t[1][i] != '\n' by {
            assert(!is_space(t[1][i]));
        }
    }
}

} // verus!
