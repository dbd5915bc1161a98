//! Directories: tables of rows that each give an offset and a length.
use vstd::prelude::*;
use crate::bytes::{num32, read_be32, read_le32, within};

verus! {

broadcast use crate::slices::slice_len_bound;

/// The larger of two numbers.
pub open spec fn larger(a: int, b: int) -> int {
    if a > b {
        a
    } else {
        b
    }
}

/// The shape of a directory row: its width, and where in it the offset and the
/// length stand, as 32-bit numbers in one byte order.
#[derive(Clone, Copy)]
pub struct Row {
    pub width: usize,
    pub offset_at: usize,
    pub length_at: usize,
    pub is_be: bool,
}

impl Row {
    /// Both fields lie inside the row.
    pub open spec fn wf(self) -> bool {
        self.width <= 64 && self.offset_at + 4 <= self.width && self.length_at + 4 <= self.width
    }

    /// The end of what the row at `pos` describes.
    pub open spec fn end(self, s: Seq<u8>, pos: int) -> int {
        num32(s, pos + self.offset_at, self.is_be) + num32(s, pos + self.length_at, self.is_be)
    }
}

/// The furthest end that the `n` rows from `pos` on describe; 0 if there are
/// none.
pub open spec fn table_reach(s: Seq<u8>, row: Row, pos: int, n: int) -> int
    decreases n,
{
    if n <= 0 {
        0
    } else {
        larger(row.end(s, pos), table_reach(s, row, pos + row.width, n - 1))
    }
}

/// The furthest end that the `n` rows from `base` on describe.
pub fn table_end(data: &[u8], row: Row, base: usize, n: usize) -> (r: u64)
    requires
        row.wf(),
        within(data@, base as int, row.width * n),
    ensures
        r == table_reach(data@, row, base as int, n as int),
        r <= 0x1_FFFF_FFFE,
{
    let mut max_end: u64 = 0;
    let mut pos = base;
    let mut left = n;
    assert(larger(0, table_reach(data@, row, base as int, n as int)) == table_reach(
        data@,
        row,
        base as int,
        n as int,
    ));
    while left > 0
        invariant
            row.wf(),
            pos + row.width * left <= data@.len(),
            max_end <= 0x1_FFFF_FFFE,
            table_reach(data@, row, base as int, n as int) == larger(
                max_end as int,
                table_reach(data@, row, pos as int, left as int),
            ),
        decreases left,
    {
        assert(row.width * left == row.width + row.width * (left - 1)) by (nonlinear_arith);
        assert(0 <= row.width * (left - 1)) by (nonlinear_arith)
            requires
                left > 0,
        ;
        let offset = if row.is_be {
            read_be32(data, pos + row.offset_at)
        } else {
            read_le32(data, pos + row.offset_at)
        };
        let length = if row.is_be {
            read_be32(data, pos + row.length_at)
        } else {
            read_le32(data, pos + row.length_at)
        };
        let end = offset as u64 + length as u64;
        if end > max_end {
            max_end = end;
        }
        pos = pos + row.width;
        left = left - 1;
    }
    max_end
}

} // verus!
