//! The cell packer and the glyph mapper.
//!
//! The renderer partitions a rectangular boolean matrix into blocks of 2
//! columns by 4 rows, packs each block into an 8-bit dot mask with a fixed
//! position-to-bit table, and maps each mask `m` to the character with
//! code point `0x2800 + m`, one output line per block row.

use vstd::prelude::*;

verus! {

/// The width of the matrix: the length of its first row, or 0 when it has
/// no rows.
pub open spec fn mat_width(m: Seq<Seq<bool>>) -> int {
    if m.len() == 0 {
        0
    } else {
        m[0].len() as int
    }
}

/// The matrix is rectangular: every row has the same length.
pub open spec fn is_rect(m: Seq<Seq<bool>>) -> bool {
    forall|y: int| 0 <= y < m.len() ==> (#[trigger] m[y]).len() == mat_width(m)
}

/// Whether the cell at column `px` of row `py` is ink. A position outside
/// the matrix is never ink.
pub open spec fn dot(m: Seq<Seq<bool>>, px: int, py: int) -> bool {
    0 <= py < m.len() && 0 <= px < m[py].len() && m[py][px]
}

/// The dot mask of the block whose top-left corner is at column `x`, row
/// `y`. Each in-bounds ink cell at offset (dx, dy) contributes the bit
/// given by the fixed table: (0,0)->0, (0,1)->1, (0,2)->2, (0,3)->6,
/// (1,0)->3, (1,1)->4, (1,2)->5, (1,3)->7. Out-of-bounds offsets
/// contribute nothing.
pub open spec fn mask_of(m: Seq<Seq<bool>>, x: int, y: int) -> u8 {
    ((if dot(m, x, y) {
        1int
    } else {
        0int
    }) + (if dot(m, x, y + 1) {
        2int
    } else {
        0int
    }) + (if dot(m, x, y + 2) {
        4int
    } else {
        0int
    }) + (if dot(m, x + 1, y) {
        8int
    } else {
        0int
    }) + (if dot(m, x + 1, y + 1) {
        16int
    } else {
        0int
    }) + (if dot(m, x + 1, y + 2) {
        32int
    } else {
        0int
    }) + (if dot(m, x, y + 3) {
        64int
    } else {
        0int
    }) + (if dot(m, x + 1, y + 3) {
        128int
    } else {
        0int
    })) as u8
}

/// The Braille character for a dot mask: code point `0x2800 + mask`.
pub open spec fn glyph(mask: u8) -> char {
    (0x2800 + mask as u32) as char
}

/// The number of glyphs in each output line: `ceil(width / 2)`.
pub open spec fn blocks_wide(m: Seq<Seq<bool>>) -> int {
    (mat_width(m) + 1) / 2
}

/// The number of output lines: `ceil(height / 4)`, except that a matrix
/// of zero width renders as no lines at all.
pub open spec fn blocks_high(m: Seq<Seq<bool>>) -> int {
    if mat_width(m) == 0 {
        0
    } else {
        (m.len() as int + 3) / 4
    }
}

/// One output line: the glyphs of block row `i` (pixel rows `4i..4i+4`)
/// followed by a line break.
pub open spec fn line_of(m: Seq<Seq<bool>>, i: int) -> Seq<char> {
    Seq::new(blocks_wide(m) as nat, |j: int| glyph(mask_of(m, 2 * j, 4 * i))).push('\n')
}

/// The output lines from block row `i` on.
pub open spec fn rows_from(m: Seq<Seq<bool>>, i: int) -> Seq<char>
    decreases blocks_high(m) - i,
{
    if i < 0 || i >= blocks_high(m) {
        Seq::empty()
    } else {
        line_of(m, i) + rows_from(m, i + 1)
    }
}

/// The complete rendered art for a binary matrix: one line per block row,
/// each holding one glyph per block column and ending in a line break. A
/// matrix with no rows or no columns renders as the empty string.
pub open spec fn rendered(m: Seq<Seq<bool>>) -> Seq<char> {
    rows_from(m, 0)
}

/// A code point that `char` can hold: not a surrogate and at most
/// U+10FFFF.
pub open spec fn is_unicode_scalar(i: u32) -> bool {
    i < 0xD800 || (0xE000 <= i && i <= 0x10FFFF)
}

/// Relies on char::from_u32: `Some` exactly on Unicode scalar values
/// (not a surrogate, at most U+10FFFF), and the returned character has
/// the given code point.
pub assume_specification[ char::from_u32 ](i: u32) -> (r: Option<char>)
    ensures
        r is Some <==> is_unicode_scalar(i),
        r matches Some(c) ==> c as u32 == i,
;

/// Maps a dot mask to its Braille character, code point `0x2800 + dots`.
/// Every 8-bit mask lands inside the Braille block U+2800 to U+28FF, so
/// the defensive fallback is never taken.
pub fn cell_to_char(dots: u8) -> (c: char)
    ensures
        c == glyph(dots),
{
    let u: u32 = 0x2800 + dots as u32;
    match char::from_u32(u) {
        Some(c) => {
            proof {
                vstd::utf8::char_u32_cast(c, u);
            }
            c
        },
        None => ' ',
    }
}

/// An empty image — no rows, or rows of length zero — renders as the
/// empty string: no lines at all.
pub proof fn lemma_empty_input(m: Seq<Seq<bool>>)
    requires
        m.len() == 0 || mat_width(m) == 0,
    ensures
        rendered(m) == Seq::<char>::empty(),
{
    assert(rendered(m) =~= Seq::<char>::empty());
}

/// A sub-position of a block that falls outside the matrix — as happens
/// in edge blocks when the width is not a multiple of 2 or the height
/// not a multiple of 4 — is never ink, so it contributes no bit to the
/// block's mask.
pub proof fn lemma_boundary_blankness(m: Seq<Seq<bool>>, x: int, y: int, dx: int, dy: int)
    requires
        is_rect(m),
        0 <= dx < 2,
        0 <= dy < 4,
        !(0 <= y + dy < m.len() && 0 <= x + dx < mat_width(m)),
    ensures
        !dot(m, x + dx, y + dy),
{
    if 0 <= y + dy < m.len() {
        assert(m[y + dy].len() == mat_width(m));
    }
}

/// Every glyph lies in the Braille block (U+2800 to U+28FF), so it is
/// never a line break: the line breaks in the art delimit its lines
/// exactly.
pub proof fn lemma_glyph_not_newline(mask: u8)
    ensures
        glyph(mask) != '\n',
{
}

/// The shape of the output from block row `i` on: one segment of
/// `blocks_wide + 1` characters per remaining block row, each segment a
/// full output line.
proof fn lemma_rows_from_shape(m: Seq<Seq<bool>>, i: int)
    requires
        0 <= i <= blocks_high(m),
    ensures
        rows_from(m, i).len() == (blocks_high(m) - i) * (blocks_wide(m) + 1),
        forall|r: int|
            i <= r < blocks_high(m) ==> rows_from(m, i).subrange(
                (r - i) * (blocks_wide(m) + 1),
                (r - i + 1) * (blocks_wide(m) + 1),
            ) == #[trigger] line_of(m, r),
    decreases blocks_high(m) - i,
{
    let bh = blocks_high(m);
    let lw = blocks_wide(m) + 1;
    assert(lw >= 1);
    if i < bh {
        lemma_rows_from_shape(m, i + 1);
        let line = line_of(m, i);
        let rest = rows_from(m, i + 1);
        assert(line.len() == lw);
        assert(rest.len() == (bh - i - 1) * lw);
        assert((bh - i) * lw == lw + (bh - i - 1) * lw) by (nonlinear_arith);
        assert forall|r: int| i <= r < bh implies rows_from(m, i).subrange(
            (r - i) * lw,
            (r - i + 1) * lw,
        ) == #[trigger] line_of(m, r) by {
            if r == i {
                assert(rows_from(m, i) == line + rest);
                assert((r - i) * lw == 0 && (r - i + 1) * lw == lw) by (nonlinear_arith)
                    requires
                        r == i,
                ;
                assert(rows_from(m, i).subrange(0, lw) =~= line);
            } else {
                let a = (r - i - 1) * lw;
                let b = (r - i) * lw;
                assert(0 <= a && a <= b && b <= rest.len()) by (nonlinear_arith)
                    requires
                        a == (r - i - 1) * lw,
                        b == (r - i) * lw,
                        rest.len() == (bh - i - 1) * lw,
                        i < r < bh,
                        lw >= 1,
                ;
                assert((r - i) * lw == lw + a && (r - i + 1) * lw == lw + b) by (nonlinear_arith)
                    requires
                        a == (r - i - 1) * lw,
                        b == (r - i) * lw,
                ;
                assert(rest.subrange(a, b) == line_of(m, r));
                assert(rows_from(m, i).subrange(lw + a, lw + b) =~= rest.subrange(a, b));
            }
        }
    } else {
        assert(rows_from(m, i) == Seq::<char>::empty());
        assert((bh - i) * lw == 0) by (nonlinear_arith)
            requires
                i == bh,
        ;
    }
}

/// Dimension law: a rectangular matrix of height `h` and positive width
/// `w` renders as exactly `ceil(h/4)` lines laid end to end; each line
/// holds exactly `ceil(w/2)` glyphs — none of them a line break — and
/// ends with a line break. (A matrix of zero width but positive height
/// is the one exception: it renders as the empty string.)
pub proof fn lemma_dimension_law(m: Seq<Seq<bool>>)
    requires
        is_rect(m),
        mat_width(m) > 0 || m.len() == 0,
    ensures
        blocks_high(m) == (m.len() as int + 3) / 4,
        blocks_wide(m) == (mat_width(m) + 1) / 2,
        rendered(m).len() == blocks_high(m) * (blocks_wide(m) + 1),
        forall|i: int|
            0 <= i < blocks_high(m) ==> #[trigger] line_of(m, i) == rendered(m).subrange(
                i * (blocks_wide(m) + 1),
                (i + 1) * (blocks_wide(m) + 1),
            ),
        forall|i: int|
            0 <= i < blocks_high(m) ==> (#[trigger] line_of(m, i)).len() == blocks_wide(m) + 1
                && line_of(m, i).last() == '\n',
        forall|i: int, k: int|
            0 <= i < blocks_high(m) && 0 <= k < blocks_wide(m) ==> #[trigger] line_of(m, i)[k]
                != '\n',
{
    lemma_rows_from_shape(m, 0);
    assert forall|i: int| 0 <= i < blocks_high(m) implies #[trigger] line_of(m, i) == rendered(
        m,
    ).subrange(i * (blocks_wide(m) + 1), (i + 1) * (blocks_wide(m) + 1)) by {
        assert(rows_from(m, 0).subrange(
            (i - 0) * (blocks_wide(m) + 1),
            (i - 0 + 1) * (blocks_wide(m) + 1),
        ) == line_of(m, i));
    }
    assert forall|i: int, k: int|
        0 <= i < blocks_high(m) && 0 <= k < blocks_wide(m) implies #[trigger] line_of(m, i)[k]
        != '\n' by {
        assert(line_of(m, i)[k] == glyph(mask_of(m, 2 * k, 4 * i)));
        lemma_glyph_not_newline(mask_of(m, 2 * k, 4 * i));
    }
}

/// Whether the cell at offset `(dx, dy)` from `(x, y)` is ink; positions
/// outside the matrix count as blank.
fn dot_rel(matrix: &Vec<Vec<bool>>, x: usize, y: usize, dx: usize, dy: usize) -> (r: bool)
    ensures
        r == dot(matrix.deep_view(), x + dx, y + dy),
{
    if dy < matrix.len() && y < matrix.len() - dy {
        let row = &matrix[y + dy];
        if dx < row.len() && x < row.len() - dx {
            row[x + dx]
        } else {
            false
        }
    } else {
        false
    }
}

/// Packs the 2-column by 4-row block whose top-left corner is `(x, y)`
/// into its dot mask, following the fixed position-to-bit table.
fn block_mask(matrix: &Vec<Vec<bool>>, x: usize, y: usize) -> (dots: u8)
    ensures
        dots == mask_of(matrix.deep_view(), x as int, y as int),
{
    let mut dots: u8 = 0;
    if dot_rel(matrix, x, y, 0, 0) {
        dots = dots + 1;
    }
    if dot_rel(matrix, x, y, 0, 1) {
        dots = dots + 2;
    }
    if dot_rel(matrix, x, y, 0, 2) {
        dots = dots + 4;
    }
    if dot_rel(matrix, x, y, 1, 0) {
        dots = dots + 8;
    }
    if dot_rel(matrix, x, y, 1, 1) {
        dots = dots + 16;
    }
    if dot_rel(matrix, x, y, 1, 2) {
        dots = dots + 32;
    }
    if dot_rel(matrix, x, y, 0, 3) {
        dots = dots + 64;
    }
    if dot_rel(matrix, x, y, 1, 3) {
        dots = dots + 128;
    }
    dots
}

/// Relies on String::push: appends exactly the given character at the
/// end of the string.
#[verifier::external_body]
fn push_char(s: &mut String, c: char)
    ensures
        final(s)@ == old(s)@.push(c),
{
    s.push(c);
}

/// Renders a rectangular binary matrix as Braille art: one line per
/// 4-row band, one glyph per 2-column band, each line ended by a line
/// break. A matrix with no rows or no columns renders as the empty
/// string.
pub fn render_braille(matrix: &Vec<Vec<bool>>) -> (art: String)
    requires
        is_rect(matrix.deep_view()),
    ensures
        art@ == rendered(matrix.deep_view()),
{
    let ghost m = matrix.deep_view();
    let mut art = String::new();
    let height = matrix.len();
    if height == 0 {
        assert(rendered(m) =~= Seq::<char>::empty());
        return art;
    }
    let width = matrix[0].len();
    if width == 0 {
        assert(rendered(m) =~= Seq::<char>::empty());
        return art;
    }
    let n_high = 1 + (height - 1) / 4;
    let n_wide = 1 + (width - 1) / 2;
    proof {
        assert(mat_width(m) == width);
        assert(n_high == blocks_high(m));
        assert(n_wide == blocks_wide(m));
        assert(Seq::<char>::empty() + rows_from(m, 0) =~= rows_from(m, 0));
    }
    let mut i: usize = 0;
    while i < n_high
        invariant
            m == matrix.deep_view(),
            m.len() == height,
            mat_width(m) == width,
            0 < width,
            0 < height,
            n_high == blocks_high(m),
            n_wide == blocks_wide(m),
            i <= n_high,
            art@ + rows_from(m, i as int) == rendered(m),
        decreases n_high - i,
    {
        let ghost line_start = art@;
        assert(4 * i <= height - 1);
        let y = i * 4;
        let mut j: usize = 0;
        while j < n_wide
            invariant
                m == matrix.deep_view(),
                mat_width(m) == width,
                0 < width,
                n_wide == blocks_wide(m),
                j <= n_wide,
                y == 4 * i,
                i < n_high,
                art@ == line_start + Seq::new(
                    j as nat,
                    |k: int| glyph(mask_of(m, 2 * k, y as int)),
                ),
            decreases n_wide - j,
        {
            assert(2 * j <= width - 1);
            let x = j * 2;
            let c = cell_to_char(block_mask(matrix, x, y));
            push_char(&mut art, c);
            assert(art@ =~= line_start + Seq::new(
                (j + 1) as nat,
                |k: int| glyph(mask_of(m, 2 * k, y as int)),
            ));
            j = j + 1;
        }
        push_char(&mut art, '\n');
        proof {
            assert(art@ =~= line_start + line_of(m, i as int));
            assert(rows_from(m, i as int) == line_of(m, i as int) + rows_from(m, i as int + 1));
            assert(line_start + (line_of(m, i as int) + rows_from(m, i as int + 1)) =~= art@
                + rows_from(m, i as int + 1));
        }
        i = i + 1;
    }
    proof {
        assert(rows_from(m, n_high as int) =~= Seq::<char>::empty());
        assert(art@ =~= rendered(m));
    }
    art
}

} // verus!
