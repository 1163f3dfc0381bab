use crate::opcode::{Action, ExecFault, JumpFrom, ModifyDirection, OpCode};
use vstd::prelude::*;

verus! {

/// Number of cells on the tape.
pub const ARRAY_SIZE: usize = 65536;

/// The tape every run begins with: all cells zero.
pub open spec fn zero_tape() -> Seq<u8> {
    Seq::new(ARRAY_SIZE as nat, |i: int| 0u8)
}

/// A cell value after one increment: wraps modulo 256.
pub open spec fn cell_inc(v: u8) -> u8 {
    if v == 255 {
        0
    } else {
        (v + 1) as u8
    }
}

/// A cell value after one decrement: wraps modulo 256.
pub open spec fn cell_dec(v: u8) -> u8 {
    if v == 0 {
        255
    } else {
        (v - 1) as u8
    }
}

/// The byte an input read stores: the next byte if one is available,
/// zero once the source is exhausted.
pub open spec fn head_or_zero(s: Seq<u8>) -> u8 {
    if s.len() == 0 {
        0
    } else {
        s[0]
    }
}

/// What is left of an input source after one read.
pub open spec fn tail_or_empty(s: Seq<u8>) -> Seq<u8> {
    if s.len() == 0 {
        s
    } else {
        s.skip(1)
    }
}

/// The jump decision a bracket instruction makes from the current cell:
/// a loop start skips forward on zero, a loop end repeats on nonzero.
pub open spec fn jump_action(from: JumpFrom, v: u8) -> Action {
    match from {
        JumpFrom::Start => if v == 0 {
            Action::JumpForward
        } else {
            Action::Proceed
        },
        JumpFrom::End => if v != 0 {
            Action::JumpBack
        } else {
            Action::Proceed
        },
    }
}

/// An in-memory byte source handed to the engine as the program's input;
/// it yields its bytes one at a time and then only the zero fallback.
pub struct ByteSource {
    pub data: Vec<u8>,
    pub pos: usize,
}

impl ByteSource {
    pub open spec fn wf(&self) -> bool {
        self.pos <= self.data@.len()
    }

    /// The bytes not yet consumed.
    pub open spec fn remaining(&self) -> Seq<u8> {
        self.data@.skip(self.pos as int)
    }

    pub fn new(data: Vec<u8>) -> (r: Self)
        ensures
            r.wf(),
            r.remaining() == data@,
    {
        let r = ByteSource { data, pos: 0 };
        proof {
            assert(r.remaining() =~= r.data@);
        }
        r
    }

    /// One byte if any is left, the zero fallback otherwise.
    pub fn next_byte(&mut self) -> (b: u8)
        requires
            old(self).wf(),
        ensures
            final(self).wf(),
            b == head_or_zero(old(self).remaining()),
            final(self).remaining() == tail_or_empty(old(self).remaining()),
    {
        if self.pos < self.data.len() {
            let b = self.data[self.pos];
            self.pos = self.pos + 1;
            proof {
                assert(self.remaining() =~= old(self).remaining().skip(1));
            }
            b
        } else {
            proof {
                assert(old(self).remaining().len() == 0);
            }
            0
        }
    }
}

/// Relies on `byteorder::WriteBytesExt::write_u8` on a `Vec<u8>`: it
/// appends the one byte to the vector and cannot fail there.
#[verifier::external_body]
fn emit_byte(out: &mut Vec<u8>, b: u8)
    ensures
        final(out)@ == old(out)@.push(b),
{
    let _ = byteorder::WriteBytesExt::write_u8(out, b);
}

/// What one instruction does: the tape and the byte channels afterwards,
/// and what it asks the driving loop to do.
#[verifier::ext_equal]
pub ghost struct OpOutcome {
    pub cells: Seq<u8>,
    pub cursor: int,
    pub input: Seq<u8>,
    pub emitted: Seq<u8>,
    pub action: Action,
}

/// The per-instruction semantics, as one total function of the
/// instruction, the tape, and the input left.
pub open spec fn op_outcome(op: OpCode, cells: Seq<u8>, cursor: int, input: Seq<u8>) -> OpOutcome
    recommends
        0 <= cursor < cells.len(),
{
    match op {
        OpCode::MoveForward => if cursor + 1 < ARRAY_SIZE {
            OpOutcome {
                cells,
                cursor: cursor + 1,
                input,
                emitted: Seq::empty(),
                action: Action::Proceed,
            }
        } else {
            OpOutcome {
                cells,
                cursor,
                input,
                emitted: Seq::empty(),
                action: Action::Exit(ExecFault::CursorOutOfBounds),
            }
        },
        OpCode::MoveBack => if cursor > 0 {
            OpOutcome {
                cells,
                cursor: cursor - 1,
                input,
                emitted: Seq::empty(),
                action: Action::Proceed,
            }
        } else {
            OpOutcome {
                cells,
                cursor,
                input,
                emitted: Seq::empty(),
                action: Action::Exit(ExecFault::CursorOutOfBounds),
            }
        },
        OpCode::Increment => OpOutcome {
            cells: cells.update(cursor, cell_inc(cells[cursor])),
            cursor,
            input,
            emitted: Seq::empty(),
            action: Action::Proceed,
        },
        OpCode::Decrement => OpOutcome {
            cells: cells.update(cursor, cell_dec(cells[cursor])),
            cursor,
            input,
            emitted: Seq::empty(),
            action: Action::Proceed,
        },
        OpCode::Output => OpOutcome {
            cells,
            cursor,
            input,
            emitted: seq![cells[cursor]],
            action: Action::Proceed,
        },
        OpCode::Input => OpOutcome {
            cells: cells.update(cursor, head_or_zero(input)),
            cursor,
            input: tail_or_empty(input),
            emitted: Seq::empty(),
            action: Action::Proceed,
        },
        OpCode::JmpStart => OpOutcome {
            cells,
            cursor,
            input,
            emitted: Seq::empty(),
            action: jump_action(JumpFrom::Start, cells[cursor]),
        },
        OpCode::JmpEnd => OpOutcome {
            cells,
            cursor,
            input,
            emitted: Seq::empty(),
            action: jump_action(JumpFrom::End, cells[cursor]),
        },
    }
}

/// Performing an input instruction on an exhausted source stores zero
/// in the current cell, consumes nothing, and never faults.
pub proof fn lemma_input_exhausted_stores_zero(cells: Seq<u8>, cursor: int, input: Seq<u8>)
    requires
        input.len() == 0,
        0 <= cursor < cells.len(),
    ensures
        op_outcome(OpCode::Input, cells, cursor, input).cells == cells.update(cursor, 0u8),
        op_outcome(OpCode::Input, cells, cursor, input).input == input,
        op_outcome(OpCode::Input, cells, cursor, input).action is Proceed,
{
}

/// A cursor move below the first cell is the fatal condition, and it
/// leaves the tape, the cursor and the channels untouched.
pub proof fn lemma_move_back_at_zero_faults(cells: Seq<u8>, input: Seq<u8>)
    ensures
        op_outcome(OpCode::MoveBack, cells, 0, input) == (OpOutcome {
            cells,
            cursor: 0,
            input,
            emitted: Seq::empty(),
            action: Action::Exit(ExecFault::CursorOutOfBounds),
        }),
{
}

/// The tape: a fixed array of byte cells and the data cursor.
/// Invariant: the cursor always lies inside the array.
pub struct BfArray {
    pub raw: Vec<u8>,
    pub pointer: usize,
}

impl BfArray {
    pub open spec fn wf(&self) -> bool {
        self.raw@.len() == ARRAY_SIZE && self.pointer < ARRAY_SIZE
    }

    /// A fresh tape: every cell zero, cursor at the first cell.
    pub fn new() -> (r: Self)
        ensures
            r.wf(),
            r.pointer == 0,
            r.raw@ == zero_tape(),
    {
        let mut raw: Vec<u8> = Vec::with_capacity(ARRAY_SIZE);
        raw.resize(ARRAY_SIZE, 0u8);
        proof {
            assert(raw@ =~= zero_tape());
        }
        BfArray { raw, pointer: 0 }
    }

    /// The current cell's value.
    pub fn value(&self) -> (r: u8)
        requires
            self.wf(),
        ensures
            r == self.raw@[self.pointer as int],
    {
        self.raw[self.pointer]
    }

    /// Store a value into the current cell.
    pub fn set_value(&mut self, val: u8)
        requires
            old(self).wf(),
        ensures
            final(self).wf(),
            final(self).pointer == old(self).pointer,
            final(self).raw@ == old(self).raw@.update(old(self).pointer as int, val),
    {
        self.raw[self.pointer] = val;
    }

    /// Emit the current cell to the output sink.
    pub fn output(&self, out: &mut Vec<u8>) -> (a: Action)
        requires
            self.wf(),
        ensures
            final(out)@ == old(out)@.push(self.raw@[self.pointer as int]),
            a is Proceed,
    {
        emit_byte(out, self.value());
        Action::Proceed
    }

    /// Read one byte from the input source into the current cell; an
    /// exhausted source stores zero. Never a fault.
    pub fn input(&mut self, src: &mut ByteSource) -> (a: Action)
        requires
            old(self).wf(),
            old(src).wf(),
        ensures
            final(self).wf(),
            final(src).wf(),
            final(self).pointer == old(self).pointer,
            final(self).raw@ == old(self).raw@.update(
                old(self).pointer as int,
                head_or_zero(old(src).remaining()),
            ),
            final(src).remaining() == tail_or_empty(old(src).remaining()),
            a is Proceed,
    {
        let b = src.next_byte();
        self.set_value(b);
        Action::Proceed
    }

    /// Decide a bracket instruction's jump from the current cell.
    pub fn jump_from(&self, from: JumpFrom) -> (a: Action)
        requires
            self.wf(),
        ensures
            a == jump_action(from, self.raw@[self.pointer as int]),
    {
        let nonzero = self.value() != 0;
        match (from, nonzero) {
            (JumpFrom::Start, false) => Action::JumpForward,
            (JumpFrom::End, true) => Action::JumpBack,
            _ => Action::Proceed,
        }
    }

    /// Increment or decrement the current cell, wrapping modulo 256.
    /// Never a fault: wraparound is defined behaviour.
    pub fn modify_value(&mut self, direction: ModifyDirection) -> (a: Action)
        requires
            old(self).wf(),
        ensures
            final(self).wf(),
            final(self).pointer == old(self).pointer,
            final(self).raw@ == old(self).raw@.update(
                old(self).pointer as int,
                match direction {
                    ModifyDirection::Up => cell_inc(old(self).raw@[old(self).pointer as int]),
                    ModifyDirection::Down => cell_dec(old(self).raw@[old(self).pointer as int]),
                },
            ),
            a is Proceed,
    {
        let v = self.value();
        let w = match direction {
            ModifyDirection::Up => v.wrapping_add(1),
            ModifyDirection::Down => v.wrapping_sub(1),
        };
        self.set_value(w);
        Action::Proceed
    }

    /// Move the cursor one cell. A move that would leave the tape's
    /// range is a fatal condition and changes nothing.
    pub fn move_pointer(&mut self, direction: ModifyDirection) -> (a: Action)
        requires
            old(self).wf(),
        ensures
            final(self).wf(),
            final(self).raw@ == old(self).raw@,
            match direction {
                ModifyDirection::Up => if old(self).pointer + 1 < ARRAY_SIZE {
                    a is Proceed && final(self).pointer == old(self).pointer + 1
                } else {
                    a == Action::Exit(ExecFault::CursorOutOfBounds) && final(self).pointer == old(
                        self,
                    ).pointer
                },
                ModifyDirection::Down => if old(self).pointer > 0 {
                    a is Proceed && final(self).pointer == old(self).pointer - 1
                } else {
                    a == Action::Exit(ExecFault::CursorOutOfBounds) && final(self).pointer == old(
                        self,
                    ).pointer
                },
            },
    {
        match direction {
            ModifyDirection::Up => {
                if self.pointer + 1 < ARRAY_SIZE {
                    self.pointer = self.pointer + 1;
                    Action::Proceed
                } else {
                    Action::Exit(ExecFault::CursorOutOfBounds)
                }
            },
            ModifyDirection::Down => {
                if self.pointer > 0 {
                    self.pointer = self.pointer - 1;
                    Action::Proceed
                } else {
                    Action::Exit(ExecFault::CursorOutOfBounds)
                }
            },
        }
    }

    /// Perform one instruction against the tape and the byte channels.
    /// The returned action tells the driving loop what to do next; the
    /// whole effect is `op_outcome` of the state the call saw.
    pub fn perform_operation(&mut self, opcode: &OpCode, out: &mut Vec<u8>, inp: &mut ByteSource)
        -> (a: Action)
        requires
            old(self).wf(),
            old(inp).wf(),
        ensures
            final(self).wf(),
            final(inp).wf(),
            ({
                let o = op_outcome(
                    *opcode,
                    old(self).raw@,
                    old(self).pointer as int,
                    old(inp).remaining(),
                );
                &&& final(self).raw@ == o.cells
                &&& final(self).pointer as int == o.cursor
                &&& final(inp).remaining() == o.input
                &&& final(out)@ == old(out)@ + o.emitted
                &&& a == o.action
            }),
    {
        let a = match *opcode {
            OpCode::Output => self.output(out),
            OpCode::Input => self.input(inp),
            OpCode::JmpStart => self.jump_from(JumpFrom::Start),
            OpCode::JmpEnd => self.jump_from(JumpFrom::End),
            OpCode::Increment => self.modify_value(ModifyDirection::Up),
            OpCode::Decrement => self.modify_value(ModifyDirection::Down),
            OpCode::MoveForward => self.move_pointer(ModifyDirection::Up),
            OpCode::MoveBack => self.move_pointer(ModifyDirection::Down),
        };
        proof {
            let o = op_outcome(
                *opcode,
                old(self).raw@,
                old(self).pointer as int,
                old(inp).remaining(),
            );
            match *opcode {
                OpCode::Output => {
                    assert(out@ =~= old(out)@ + o.emitted);
                },
                _ => {
                    assert(out@ =~= old(out)@ + o.emitted);
                },
            }
        }
        a
    }
}

impl Default for BfArray {
    /// The same fresh tape as `new`.
    fn default() -> (r: Self)
        ensures
            r.wf(),
            r.pointer == 0,
            r.raw@ == zero_tape(),
    {
        Self::new()
    }
}

} // verus!
