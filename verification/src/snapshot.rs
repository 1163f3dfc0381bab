use crate::tape::{BfArray, ARRAY_SIZE};
use vstd::prelude::*;

verus! {

/// ASCII `0`.
pub const BYTE_ZERO: u8 = 48;

/// ASCII space.
pub const BYTE_SPACE: u8 = 32;

/// ASCII `^`.
pub const BYTE_CARET: u8 = 94;

/// ASCII line feed.
pub const BYTE_NEWLINE: u8 = 10;

/// The decimal digits of a number, most significant first, as ASCII.
pub open spec fn dec_bytes(n: nat) -> Seq<u8>
    decreases n,
{
    if n < 10 {
        seq![(BYTE_ZERO + n) as u8]
    } else {
        dec_bytes(n / 10).push((BYTE_ZERO + n % 10) as u8)
    }
}

/// A number in a four-character column, zero-padded on the left.
pub open spec fn pad4(n: nat) -> Seq<u8> {
    if n < 10 {
        seq![BYTE_ZERO, BYTE_ZERO, BYTE_ZERO] + dec_bytes(n)
    } else if n < 100 {
        seq![BYTE_ZERO, BYTE_ZERO] + dec_bytes(n)
    } else if n < 1000 {
        seq![BYTE_ZERO] + dec_bytes(n)
    } else {
        dec_bytes(n)
    }
}

/// Columns for the cell indices 0 through `k`.
pub open spec fn index_row(k: int) -> Seq<u8>
    decreases k + 1,
{
    if k < 0 {
        Seq::empty()
    } else {
        index_row(k - 1) + pad4(k as nat)
    }
}

/// Columns for the values of the cells 0 through `k`.
pub open spec fn value_row(cells: Seq<u8>, k: int) -> Seq<u8>
    decreases k + 1,
{
    if k < 0 {
        Seq::empty()
    } else {
        value_row(cells, k - 1) + pad4(cells[k] as nat)
    }
}

/// A run of spaces.
pub open spec fn spaces(n: nat) -> Seq<u8>
    decreases n,
{
    if n == 0 {
        Seq::empty()
    } else {
        spaces((n - 1) as nat).push(BYTE_SPACE)
    }
}

/// The whole snapshot: the index row, the value row, and a marker line
/// with a caret under the cursor's column.
pub open spec fn snapshot(cells: Seq<u8>, cursor: int, to_cell: int) -> Seq<u8> {
    index_row(to_cell) + seq![BYTE_NEWLINE] + value_row(cells, to_cell) + seq![BYTE_NEWLINE]
        + spaces((cursor * 4 + 3) as nat) + seq![BYTE_CARET, BYTE_NEWLINE]
}

/// Append the decimal digits of `n`.
fn push_dec(v: &mut Vec<u8>, n: usize)
    ensures
        final(v)@ == old(v)@ + dec_bytes(n as nat),
    decreases n,
{
    if n >= 10 {
        push_dec(v, n / 10);
    }
    v.push(BYTE_ZERO + (n % 10) as u8);
    proof {
        if n < 10 {
            assert(v@ =~= old(v)@ + dec_bytes(n as nat));
        } else {
            assert(v@ =~= old(v)@ + dec_bytes(n as nat));
        }
    }
}

/// Append `n` in a zero-padded four-character column.
fn push_pad4(v: &mut Vec<u8>, n: usize)
    ensures
        final(v)@ == old(v)@ + pad4(n as nat),
{
    if n < 10 {
        v.push(BYTE_ZERO);
        v.push(BYTE_ZERO);
        v.push(BYTE_ZERO);
    } else if n < 100 {
        v.push(BYTE_ZERO);
        v.push(BYTE_ZERO);
    } else if n < 1000 {
        v.push(BYTE_ZERO);
    }
    push_dec(v, n);
    proof {
        assert(v@ =~= old(v)@ + pad4(n as nat));
    }
}

impl BfArray {
    /// Render the fixed-width snapshot of the tape's first cells: the
    /// column indices 0 to `to_cell` inclusive, the corresponding cell
    /// values in the same width, and a line with a caret marking the
    /// cursor's column. The caller decides where the snapshot goes.
    pub fn write_array(&self, to_cell: usize) -> (r: Vec<u8>)
        requires
            self.wf(),
            to_cell < ARRAY_SIZE,
        ensures
            r@ == snapshot(self.raw@, self.pointer as int, to_cell as int),
    {
        let mut v: Vec<u8> = Vec::new();
        let mut i: usize = 0;
        while i <= to_cell
            invariant
                0 <= i <= to_cell + 1,
                to_cell < ARRAY_SIZE,
                v@ == index_row(i as int - 1),
            decreases to_cell + 1 - i,
        {
            push_pad4(&mut v, i);
            i = i + 1;
        }
        v.push(BYTE_NEWLINE);
        let ghost first = index_row(to_cell as int) + seq![BYTE_NEWLINE];
        proof {
            assert(v@ =~= first);
        }
        let mut i: usize = 0;
        while i <= to_cell
            invariant
                0 <= i <= to_cell + 1,
                to_cell < ARRAY_SIZE,
                self.wf(),
                v@ == first + value_row(self.raw@, i as int - 1),
            decreases to_cell + 1 - i,
        {
            push_pad4(&mut v, self.raw[i] as usize);
            proof {
                assert(v@ =~= first + value_row(self.raw@, i as int));
            }
            i = i + 1;
        }
        v.push(BYTE_NEWLINE);
        let ghost second = first + value_row(self.raw@, to_cell as int) + seq![BYTE_NEWLINE];
        proof {
            assert(v@ =~= second);
        }
        let pad = self.pointer * 4 + 3;
        let mut j: usize = 0;
        while j < pad
            invariant
                0 <= j <= pad,
                pad == self.pointer * 4 + 3,
                v@ == second + spaces(j as nat),
            decreases pad - j,
        {
            v.push(BYTE_SPACE);
            proof {
                assert(v@ =~= second + spaces((j + 1) as nat));
            }
            j = j + 1;
        }
        v.push(BYTE_CARET);
        v.push(BYTE_NEWLINE);
        proof {
            assert(v@ =~= snapshot(self.raw@, self.pointer as int, to_cell as int));
        }
        v
    }
}

} // verus!
