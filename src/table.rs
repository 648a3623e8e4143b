//! Column widths of the GPU listing: each column is as wide as its widest
//! cell, and never narrower than its header.
use vstd::prelude::*;
use vstd::utf8::encode_utf8;

use crate::daemon::GpuRow;

verus! {

/// Header widths of the id, name, PCI and render-node columns.
pub const HEADER_WIDTHS: [usize; 4] = [2, 4, 3, 6];

/// Number of decimal digits of `n`.
pub open spec fn decimal_len(n: nat) -> nat
    decreases n,
{
    if n < 10 {
        1
    } else {
        1 + decimal_len(n / 10)
    }
}

/// The length in bytes of a string's UTF-8 encoding, as `str::len` gives it.
pub open spec fn byte_len(s: Seq<char>) -> nat {
    encode_utf8(s).len() as usize as nat
}

/// Width of one cell of column `col`: digits for the id, bytes for the text
/// columns.
pub open spec fn cell_width(row: GpuRow, col: int) -> nat {
    if col == 0 {
        decimal_len(row.0 as nat)
    } else if col == 1 {
        byte_len(row.1@)
    } else if col == 2 {
        byte_len(row.2@)
    } else {
        byte_len(row.3@)
    }
}

/// The widest cell of column `col`, or `floor` if that is wider.
pub open spec fn column_width(rows: Seq<GpuRow>, col: int, floor: nat) -> nat
    decreases rows.len(),
{
    if rows.len() == 0 {
        floor
    } else {
        let rest = column_width(rows.drop_last(), col, floor);
        let last = cell_width(rows.last(), col);
        if last > rest {
            last
        } else {
            rest
        }
    }
}

/// The number of decimal digits of `n`.
pub fn decimal_width(n: u32) -> (w: usize)
    ensures
        w as nat == decimal_len(n as nat),
{
    proof {
        reveal_with_fuel(decimal_len, 11);
    }
    if n < 10 {
        1
    } else if n < 100 {
        2
    } else if n < 1000 {
        3
    } else if n < 10000 {
        4
    } else if n < 100000 {
        5
    } else if n < 1000000 {
        6
    } else if n < 10000000 {
        7
    } else if n < 100000000 {
        8
    } else if n < 1000000000 {
        9
    } else {
        10
    }
}

/// The width of each column for these rows: id, name, PCI address, render
/// node.
pub fn column_widths(rows: &[GpuRow]) -> (w: [usize; 4])
    ensures
        forall|c: int| 0 <= c < 4 ==> w@[c] as nat == column_width(rows@, c, HEADER_WIDTHS@[c] as nat),
{
    let mut w: [usize; 4] = HEADER_WIDTHS;
    let mut i: usize = 0;
    while i < rows.len()
        invariant
            i <= rows@.len(),
            w@.len() == 4,
            forall|c: int| 0 <= c < 4 ==> w@[c] as nat == column_width(rows@.take(i as int), c, HEADER_WIDTHS@[c] as nat),
        decreases rows@.len() - i,
    {
        let row = &rows[i];
        let cells: [usize; 4] = [
            decimal_width(row.0),
            row.1.as_str().len(),
            row.2.as_str().len(),
            row.3.as_str().len(),
        ];
        let mut c: usize = 0;
        let ghost before = w@;
        assert(rows@.take(i + 1).drop_last() =~= rows@.take(i as int));
        assert(rows@.take(i + 1).last() == rows@[i as int]);
        while c < 4
            invariant
                c <= 4,
                i < rows@.len(),
                w@.len() == 4,
                cells@.len() == 4,
                forall|k: int| 0 <= k < 4 ==> cells@[k] as nat == cell_width(rows@[i as int], k),
                rows@.take(i + 1).drop_last() == rows@.take(i as int),
                rows@.take(i + 1).last() == rows@[i as int],
                before.len() == 4,
                forall|k: int| 0 <= k < c ==> w@[k] as nat == column_width(rows@.take(i + 1), k, HEADER_WIDTHS@[k] as nat),
                forall|k: int| c <= k < 4 ==> w@[k] == before[k],
                forall|k: int| 0 <= k < 4 ==> before[k] as nat == column_width(rows@.take(i as int), k, HEADER_WIDTHS@[k] as nat),
            decreases 4 - c,
        {
            let ghost wc = w@[c as int];
            if cells[c] > w[c] {
                w[c] = cells[c];
            }
            proof {
                let t = rows@.take(i + 1);
                let h = HEADER_WIDTHS@[c as int] as nat;
                assert(wc == before[c as int]);
                assert(before[c as int] as nat == column_width(t.drop_last(), c as int, h));
                assert(cells@[c as int] as nat == cell_width(t.last(), c as int));
                assert(t.len() > 0);
                assert(column_width(t, c as int, h) == if cell_width(t.last(), c as int) > column_width(
                    t.drop_last(),
                    c as int,
                    h,
                ) {
                    cell_width(t.last(), c as int)
                } else {
                    column_width(t.drop_last(), c as int, h)
                });
                assert(w@[c as int] as nat == column_width(t, c as int, h));
            }
            c = c + 1;
        }
        i = i + 1;
    }
    assert(rows@.take(rows@.len() as int) =~= rows@);
    w
}

} // verus!
