//! The fixed character grid of a rendered flag: exactly 17 rows of exactly
//! 40 visible cells each, independent of the source image's aspect ratio.
//! Colour escape sequences (an ESC byte up to the closing `m`) occupy no
//! visible cell.

use vstd::prelude::*;

verus! {

use vstd::string::StringSliceAdditionalSpecFns;

/// The grid's width in visible cells.
pub open spec fn grid_width() -> int {
    40
}

/// The grid's height in rows.
pub open spec fn grid_height() -> int {
    17
}

/// Scan the remaining bytes of a grid: `col` visible cells seen on the
/// current row, `rows` rows completed, `in_esc` inside an escape sequence.
/// Rows are separated by a newline byte; every row must reach exactly the
/// grid width, and the byte string must end after the last row of the grid.
pub open spec fn grid_scan(s: Seq<u8>, col: int, rows: int, in_esc: bool) -> bool
    decreases s.len(),
{
    if s.len() == 0 {
        col == grid_width() && rows == grid_height() - 1
    } else if in_esc {
        grid_scan(s.drop_first(), col, rows, s.first() != 109)
    } else if s.first() == 27 {
        grid_scan(s.drop_first(), col, rows, true)
    } else if s.first() == 10 {
        col == grid_width() && grid_scan(s.drop_first(), 0, rows + 1, false)
    } else {
        col < grid_width() && grid_scan(s.drop_first(), col + 1, rows, false)
    }
}

/// A well-formed flag grid: 17 newline-separated rows, each of exactly 40
/// visible cells.
pub open spec fn grid_wf(s: Seq<u8>) -> bool {
    grid_scan(s, 0, 0, false)
}

/// A successful scan never has more than the grid's rows completed.
proof fn lemma_grid_scan_rows(s: Seq<u8>, col: int, rows: int, in_esc: bool)
    requires
        grid_scan(s, col, rows, in_esc),
    ensures
        rows <= grid_height() - 1,
    decreases s.len(),
{
    if s.len() == 0 {
    } else if in_esc {
        lemma_grid_scan_rows(s.drop_first(), col, rows, s.first() != 109);
    } else if s.first() == 27 {
        lemma_grid_scan_rows(s.drop_first(), col, rows, true);
    } else if s.first() == 10 {
        lemma_grid_scan_rows(s.drop_first(), 0, rows + 1, false);
    } else {
        lemma_grid_scan_rows(s.drop_first(), col + 1, rows, false);
    }
}

/// Check that a rendered flag is a well-formed fixed-size grid.
pub fn validate_grid(s: &str) -> (r: bool)
    ensures
        r == grid_wf(vstd::utf8::encode_utf8(s@)),
{
    let b = s.as_bytes_vec();
    proof {
        assert(b@ == s.spec_bytes());
        assert(b@.skip(0) =~= b@);
    }
    let mut i: usize = 0;
    let mut col: u32 = 0;
    let mut rows: u32 = 0;
    let mut in_esc = false;
    while i < b.len()
        invariant
            0 <= i <= b@.len(),
            0 <= col <= grid_width(),
            0 <= rows <= 16,
            b@ == vstd::utf8::encode_utf8(s@),
            grid_wf(b@) == grid_scan(b@.skip(i as int), col as int, rows as int, in_esc),
        decreases b@.len() - i,
    {
        let x = b[i];
        proof {
            assert(b@.skip(i as int).first() == x);
            assert(b@.skip(i as int).drop_first() =~= b@.skip(i + 1));
        }
        if in_esc {
            in_esc = x != 109;
        } else if x == 27 {
            in_esc = true;
        } else if x == 10 {
            if col != 40 {
                return false;
            }
            if rows >= 16 {
                proof {
                    if grid_scan(b@.skip(i + 1), 0, rows + 1, false) {
                        lemma_grid_scan_rows(b@.skip(i + 1), 0, rows + 1, false);
                    }
                }
                return false;
            }
            col = 0;
            rows = rows + 1;
        } else {
            if col >= 40 {
                return false;
            }
            col = col + 1;
        }
        i = i + 1;
    }
    proof {
        assert(b@.skip(b@.len() as int).len() == 0);
    }
    col == 40 && rows == 16
}

} // verus!
