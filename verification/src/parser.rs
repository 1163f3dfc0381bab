use crate::opcode::{OpCode, ParseError};
use vstd::prelude::*;

verus! {

/// ASCII `>`.
pub const BYTE_FORWARD: u8 = 62;

/// ASCII `<`.
pub const BYTE_BACK: u8 = 60;

/// ASCII `+`.
pub const BYTE_INC: u8 = 43;

/// ASCII `-`.
pub const BYTE_DEC: u8 = 45;

/// ASCII `.`.
pub const BYTE_OUT: u8 = 46;

/// ASCII `,`.
pub const BYTE_IN: u8 = 44;

/// ASCII `[`.
pub const BYTE_OPEN: u8 = 91;

/// ASCII `]`.
pub const BYTE_CLOSE: u8 = 93;

/// Whether a byte is one of the eight command characters. Every other
/// byte is transparent: the language's comment convention.
pub open spec fn is_command(b: u8) -> bool {
    ||| b == BYTE_FORWARD
    ||| b == BYTE_BACK
    ||| b == BYTE_INC
    ||| b == BYTE_DEC
    ||| b == BYTE_OUT
    ||| b == BYTE_IN
    ||| b == BYTE_OPEN
    ||| b == BYTE_CLOSE
}

/// The instruction a command byte stands for.
pub open spec fn opcode_of(b: u8) -> OpCode
    recommends
        is_command(b),
{
    if b == BYTE_FORWARD {
        OpCode::MoveForward
    } else if b == BYTE_BACK {
        OpCode::MoveBack
    } else if b == BYTE_INC {
        OpCode::Increment
    } else if b == BYTE_DEC {
        OpCode::Decrement
    } else if b == BYTE_OUT {
        OpCode::Output
    } else if b == BYTE_IN {
        OpCode::Input
    } else if b == BYTE_OPEN {
        OpCode::JmpStart
    } else {
        OpCode::JmpEnd
    }
}

/// The instruction sequence a byte source stands for: its command bytes
/// in order, all other bytes ignored.
pub open spec fn program_of(s: Seq<u8>) -> Seq<OpCode>
    decreases s.len(),
{
    if s.len() == 0 {
        Seq::empty()
    } else if is_command(s.last()) {
        program_of(s.drop_last()).push(opcode_of(s.last()))
    } else {
        program_of(s.drop_last())
    }
}

/// Number of `[` bytes in a source.
pub open spec fn opens(s: Seq<u8>) -> nat
    decreases s.len(),
{
    if s.len() == 0 {
        0
    } else {
        opens(s.drop_last()) + if s.last() == BYTE_OPEN {
            1nat
        } else {
            0nat
        }
    }
}

/// Number of `]` bytes in a source.
pub open spec fn closes(s: Seq<u8>) -> nat
    decreases s.len(),
{
    if s.len() == 0 {
        0
    } else {
        closes(s.drop_last()) + if s.last() == BYTE_CLOSE {
            1nat
        } else {
            0nat
        }
    }
}

/// No prefix of the source closes more brackets than it has opened.
pub open spec fn prefix_balanced(s: Seq<u8>) -> bool {
    forall|i: int| 0 <= i <= s.len() ==> closes(#[trigger] s.take(i)) <= opens(s.take(i))
}

/// The bracket structure of the source is properly nested.
pub open spec fn balanced(s: Seq<u8>) -> bool {
    prefix_balanced(s) && opens(s) == closes(s)
}

/// Number of `JmpStart` tags in an instruction sequence.
pub open spec fn starts(p: Seq<OpCode>) -> nat
    decreases p.len(),
{
    if p.len() == 0 {
        0
    } else {
        starts(p.drop_last()) + if p.last() is JmpStart {
            1nat
        } else {
            0nat
        }
    }
}

/// Number of `JmpEnd` tags in an instruction sequence.
pub open spec fn ends(p: Seq<OpCode>) -> nat
    decreases p.len(),
{
    if p.len() == 0 {
        0
    } else {
        ends(p.drop_last()) + if p.last() is JmpEnd {
            1nat
        } else {
            0nat
        }
    }
}

/// The invariant of a parsed program: loop tags form a properly nested
/// bracket structure.
pub open spec fn well_bracketed(p: Seq<OpCode>) -> bool {
    &&& forall|k: int| 0 <= k <= p.len() ==> ends(#[trigger] p.take(k)) <= starts(p.take(k))
    &&& starts(p) == ends(p)
}

/// Scan source bytes into a program, validating bracket balance.
///
/// Succeeds exactly on balanced sources and then yields the command
/// bytes' instructions in order; an unmatched `]` is reported the moment
/// it is seen, an unmatched `[` once the whole source was consumed.
pub fn parse(src: &[u8]) -> (r: Result<Vec<OpCode>, ParseError>)
    ensures
        r is Ok <==> balanced(src@),
        r matches Ok(p) ==> p@ == program_of(src@) && well_bracketed(p@),
        r matches Err(e) ==> (e is UnmatchedCloseBracket <==> !prefix_balanced(src@)),
        r matches Err(e) ==> (e is UnmatchedOpenBracket <==> prefix_balanced(src@) && opens(src@)
            != closes(src@)),
{
    let mut ops: Vec<OpCode> = Vec::new();
    let mut open: usize = 0;
    let n = src.len();
    let mut i: usize = 0;
    while i < n
        invariant
            n == src@.len(),
            0 <= i <= n,
            ops@ == program_of(src@.take(i as int)),
            open <= i,
            open as int == opens(src@.take(i as int)) - closes(src@.take(i as int)),
            forall|j: int| 0 <= j <= i ==> closes(#[trigger] src@.take(j)) <= opens(src@.take(j)),
            open as int == starts(ops@) - ends(ops@),
            forall|k: int|
                0 <= k <= ops@.len() ==> ends(#[trigger] ops@.take(k)) <= starts(ops@.take(k)),
        decreases n - i,
    {
        let b = src[i];
        proof {
            assert(src@.take(i + 1).drop_last() =~= src@.take(i as int));
            assert(src@.take(i + 1).last() == src@[i as int]);
        }
        let opcode = if b == BYTE_FORWARD {
            Some(OpCode::MoveForward)
        } else if b == BYTE_BACK {
            Some(OpCode::MoveBack)
        } else if b == BYTE_OUT {
            Some(OpCode::Output)
        } else if b == BYTE_IN {
            Some(OpCode::Input)
        } else if b == BYTE_INC {
            Some(OpCode::Increment)
        } else if b == BYTE_DEC {
            Some(OpCode::Decrement)
        } else if b == BYTE_OPEN {
            open = open + 1;
            Some(OpCode::JmpStart)
        } else if b == BYTE_CLOSE {
            if open == 0 {
                proof {
                    assert(closes(src@.take(i + 1)) > opens(src@.take(i + 1)));
                }
                return Err(ParseError::UnmatchedCloseBracket);
            }
            open = open - 1;
            Some(OpCode::JmpEnd)
        } else {
            None
        };
        if let Some(op) = opcode {
            let ghost prev = ops@;
            ops.push(op);
            proof {
                assert(ops@.drop_last() =~= prev);
                assert forall|k: int| 0 <= k <= ops@.len() implies ends(#[trigger] ops@.take(k))
                    <= starts(ops@.take(k)) by {
                    if k < ops@.len() {
                        assert(ops@.take(k) =~= prev.take(k));
                    } else {
                        assert(ops@.take(k) =~= ops@);
                    }
                }
            }
        }
        i = i + 1;
    }
    proof {
        assert(src@.take(n as int) =~= src@);
    }
    if open != 0 {
        Err(ParseError::UnmatchedOpenBracket)
    } else {
        Ok(ops)
    }
}

/// The loop-tag counts of the parsed program are the bracket counts of
/// the source.
proof fn lemma_program_counts(s: Seq<u8>)
    ensures
        starts(program_of(s)) == opens(s),
        ends(program_of(s)) == closes(s),
    decreases s.len(),
{
    if s.len() > 0 {
        lemma_program_counts(s.drop_last());
        if is_command(s.last()) {
            assert(program_of(s).drop_last() =~= program_of(s.drop_last()));
            assert(program_of(s).last() == opcode_of(s.last()));
        }
    }
}

/// In a successfully parsed program, the number of loop-start
/// instructions equals the number of loop-end instructions.
pub proof fn lemma_loop_tags_matched(s: Seq<u8>)
    requires
        balanced(s),
    ensures
        starts(program_of(s)) == ends(program_of(s)),
{
    lemma_program_counts(s);
}

/// A source with no bracket bytes has no brackets to count.
proof fn lemma_no_bracket_counts(s: Seq<u8>)
    requires
        forall|i: int| 0 <= i < s.len() ==> s[i] != BYTE_OPEN && s[i] != BYTE_CLOSE,
    ensures
        opens(s) == 0,
        closes(s) == 0,
    decreases s.len(),
{
    if s.len() > 0 {
        lemma_no_bracket_counts(s.drop_last());
    }
}

/// The program of a bracket-free source holds no loop instructions.
proof fn lemma_no_bracket_program(s: Seq<u8>)
    requires
        forall|i: int| 0 <= i < s.len() ==> s[i] != BYTE_OPEN && s[i] != BYTE_CLOSE,
    ensures
        forall|k: int|
            0 <= k < program_of(s).len() ==> !((#[trigger] program_of(s)[k]) is JmpStart) && !(
            program_of(s)[k] is JmpEnd),
    decreases s.len(),
{
    if s.len() > 0 {
        lemma_no_bracket_program(s.drop_last());
    }
}

/// A source with no bracket bytes always parses, and to a program with
/// no loop instructions.
pub proof fn lemma_bracket_free_source(s: Seq<u8>)
    requires
        forall|i: int| 0 <= i < s.len() ==> s[i] != BYTE_OPEN && s[i] != BYTE_CLOSE,
    ensures
        balanced(s),
        forall|k: int|
            0 <= k < program_of(s).len() ==> !((#[trigger] program_of(s)[k]) is JmpStart) && !(
            program_of(s)[k] is JmpEnd),
{
    lemma_no_bracket_counts(s);
    assert forall|i: int| 0 <= i <= s.len() implies closes(#[trigger] s.take(i)) <= opens(
        s.take(i),
    ) by {
        lemma_no_bracket_counts(s.take(i));
    }
    lemma_no_bracket_program(s);
}

/// Parsing is a pure function of the byte source: everything `parse`
/// promises of its result is fixed by the source alone, so re-parsing
/// equal sources yields structurally identical programs and identical
/// errors.
pub proof fn lemma_parse_deterministic(s: Seq<u8>, t: Seq<u8>)
    requires
        s == t,
    ensures
        program_of(s) == program_of(t),
        balanced(s) <==> balanced(t),
        prefix_balanced(s) <==> prefix_balanced(t),
        opens(s) == opens(t),
        closes(s) == closes(t),
{
}

/// Adapter from an owned byte buffer to `parse`.
pub fn parse_from(src: &Vec<u8>) -> (r: Result<Vec<OpCode>, ParseError>)
    ensures
        r is Ok <==> balanced(src@),
        r matches Ok(p) ==> p@ == program_of(src@) && well_bracketed(p@),
        r matches Err(e) ==> (e is UnmatchedCloseBracket <==> !prefix_balanced(src@)),
        r matches Err(e) ==> (e is UnmatchedOpenBracket <==> prefix_balanced(src@) && opens(src@)
            != closes(src@)),
{
    parse(src.as_slice())
}

} // verus!
