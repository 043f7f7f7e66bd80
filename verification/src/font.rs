//! Drawing characters of a PSF2 bitmap font into the framebuffer.

use vstd::prelude::*;
use crate::ramfb::{lemma_paint_pixel, painted, Color, RAMFBConfig};

verus! {

/// The little-endian `u32` at byte `i` of `s`.
pub open spec fn le_u32_at(s: Seq<u8>, i: int) -> int {
    s[i] + s[i + 1] * 0x100 + s[i + 2] * 0x1_0000 + s[i + 3] * 0x100_0000
}

/// Whether `font` starts with the PSF2 magic number.
pub open spec fn psf2_magic(font: Seq<u8>) -> bool {
    &&& font.len() >= 32
    &&& font[0] == 0x72 && font[1] == 0xb5 && font[2] == 0x4a && font[3] == 0x86
}

/// Whether psf2 accepts `font`: the magic number, and glyphs that end
/// inside the data with every size fitting in 32 bits. The header holds
/// its own size at byte 8, the glyph count at 16, the bytes per glyph at 20
/// and the width at 28.
pub open spec fn psf2_parses(font: Seq<u8>) -> bool {
    &&& psf2_magic(font)
    &&& le_u32_at(font, 20) * le_u32_at(font, 16) <= u32::MAX
    &&& le_u32_at(font, 8) + le_u32_at(font, 20) * le_u32_at(font, 16) <= u32::MAX
    &&& le_u32_at(font, 8) + le_u32_at(font, 20) * le_u32_at(font, 16) <= font.len()
}

/// The glyph of byte `c` of an accepted font can be looked up and walked:
/// the offset of its end fits in 32 bits, and if it lies inside the data a
/// row is at least one pixel wide.
pub open spec fn psf2_walkable(font: Seq<u8>, c: u8) -> bool {
    psf2_parses(font) ==> {
        &&& le_u32_at(font, 8) + (c + 1) * le_u32_at(font, 20) <= u32::MAX
        &&& le_u32_at(font, 8) + (c + 1) * le_u32_at(font, 20) <= font.len() ==> le_u32_at(font, 28) > 0
    }
}

fn read_le_u32(s: &[u8], i: usize) -> (r: u32)
    requires
        i + 4 <= s@.len(),
    ensures
        r == le_u32_at(s@, i as int),
{
    let b0 = s[i];
    let b1 = s[i + 1];
    let b2 = s[i + 2];
    let b3 = s[i + 3];
    let r = (b0 as u32) | ((b1 as u32) << 8u32) | ((b2 as u32) << 16u32) | ((b3 as u32) << 24u32);
    assert(r == b0 + b1 * 0x100 + b2 * 0x1_0000 + b3 * 0x100_0000) by (bit_vector)
        requires r == (b0 as u32) | ((b1 as u32) << 8u32) | ((b2 as u32) << 16u32) | ((b3 as u32) << 24u32);
    r
}

/// Whether looking up and walking the glyph of `c` in `font` is safe.
pub fn glyph_lookup_is_safe(font: &[u8], c: u8) -> (r: bool)
    ensures
        r == psf2_walkable(font@, c),
{
    if font.len() < 32 || font[0] != 0x72 || font[1] != 0xb5 || font[2] != 0x4a || font[3] != 0x86 {
        return true;
    }
    let header = read_le_u32(font, 8) as u64;
    let length = read_le_u32(font, 16) as u64;
    let charsize = read_le_u32(font, 20) as u64;
    let width = read_le_u32(font, 28);
    assert(charsize * length <= 0xffff_ffff * 0xffff_ffff) by (nonlinear_arith)
        requires length <= 0xffff_ffff, charsize <= 0xffff_ffff;
    let glyphs = charsize * length;
    if glyphs > 0xffff_ffff || header + glyphs > 0xffff_ffff || header + glyphs > font.len() as u64 {
        return true;
    }
    assert((c as u64 + 1) * charsize <= 256 * 0xffff_ffff) by (nonlinear_arith)
        requires c <= 255, charsize <= 0xffff_ffff;
    let end = header + (c as u64 + 1) * charsize;
    end <= 0xffff_ffff && (end > font.len() as u64 || width > 0)
}

/// The rows of pixels (true where the glyph is drawn, leftmost first) of the
/// glyph for byte `c` in the PSF2 font `font`; `None` when psf2 does not
/// accept `font` or the glyph does not end inside the data. The glyph takes
/// `charsize` bytes (byte 20 of the header), `c` glyphs after the header;
/// each row takes `(width + 7) / 8` whole bytes, and as many whole rows as
/// fit in the glyph are read. Pixel `x` of a row is bit `7 - x % 8` of byte
/// `x / 8` of the row, the most significant bit being the leftmost pixel.
pub open spec fn psf2_glyph(font: Seq<u8>, c: u8) -> Option<Seq<Seq<bool>>> {
    let charsize = le_u32_at(font, 20);
    let offset = le_u32_at(font, 8) + c * charsize;
    let width = le_u32_at(font, 28);
    let advance = (width + 7) / 8;
    if !psf2_parses(font) || offset + charsize > font.len() {
        None
    } else {
        Some(
            Seq::new(
                (charsize / advance) as nat,
                |y: int|
                    Seq::new(
                        width as nat,
                        |x: int| font[offset + y * advance + x / 8] & (0x80u8 >> ((x % 8) as u8)) != 0,
                    ),
            ),
        )
    }
}

/// Parses `font` with `psf2::Font::new`, looks up the glyph of `c` with
/// `Font::get_ascii` and collects its rows and pixels. The contract claims
/// that the result is `psf2_glyph(font, c)`: the layout that psf2's parser
/// and its row and pixel iterators read. It requires what keeps psf2 from
/// overflowing its 32-bit glyph offsets and from yielding endless empty
/// rows.
#[verifier::external_body]
fn decode_glyph(font: &[u8], c: u8) -> (r: Option<Vec<Vec<bool>>>)
    requires
        psf2_walkable(font@, c),
    ensures
        match r {
            Some(rows) => psf2_glyph(font@, c) == Some(rows@.map_values(|row: Vec<bool>| row@)),
            None => psf2_glyph(font@, c) is None,
        },
{
    let parsed = match psf2::Font::new(font) {
        Ok(f) => f,
        Err(_) => return None,
    };
    let glyph = parsed.get_ascii(c)?;
    let mut rows = Vec::new();
    for row in glyph {
        let mut pixels = Vec::new();
        for pixel in row {
            pixels.push(pixel);
        }
        rows.push(pixels);
    }
    Some(rows)
}

/// The pixels that the glyph rows `rows` draw: (`x`, `y`) where row `y` has
/// a set pixel at column `x`.
pub open spec fn glyph_pixels(rows: Seq<Seq<bool>>) -> spec_fn(int, int) -> bool {
    |x: int, y: int| 0 <= y < rows.len() && 0 <= x < rows[y].len() && rows[y][x]
}

/// Every set pixel of `rows` lies inside a framebuffer of `len` bytes whose
/// rows are `stride` bytes apart.
pub open spec fn glyph_fits(rows: Seq<Seq<bool>>, stride: int, len: int) -> bool {
    forall|x: int, y: int|
        #![trigger rows[y][x]]
        0 <= y < rows.len() && 0 <= x < rows[y].len() && rows[y][x] ==> y * stride + 4 * x + 3 <= len
}

/// Whether every set pixel of `rows` lies inside the framebuffer bytes.
pub fn fits(rows: &Vec<Vec<bool>>, ramfb: &RAMFBConfig, len: usize) -> (r: bool)
    ensures
        r == glyph_fits(rows@.map_values(|row: Vec<bool>| row@), ramfb.spec_stride() as int, len as int),
{
    let stride = ramfb.stride() as u64;
    let ghost g = rows@.map_values(|row: Vec<bool>| row@);
    let mut y: usize = 0;
    while y < rows.len()
        invariant
            y <= rows@.len(),
            stride == ramfb.spec_stride(),
            g == rows@.map_values(|row: Vec<bool>| row@),
            forall|x: int, yy: int|
                #![trigger g[yy][x]]
                0 <= yy < y && 0 <= x < g[yy].len() && g[yy][x] ==> yy * stride + 4 * x + 3 <= len,
        decreases rows@.len() - y,
    {
        let row = &rows[y];
        let mut x: usize = 0;
        while x < row.len()
            invariant
                y < rows@.len(),
                x <= row@.len(),
                row@ == g[y as int],
                stride == ramfb.spec_stride(),
                g == rows@.map_values(|row: Vec<bool>| row@),
                forall|xx: int, yy: int|
                    #![trigger g[yy][xx]]
                    (0 <= yy < y && 0 <= xx < g[yy].len() || yy == y && 0 <= xx < x) && g[yy][xx]
                        ==> yy * stride + 4 * xx + 3 <= len,
            decreases row@.len() - x,
        {
            if row[x] {
                let yy = y as u128;
                let xx = x as u128;
                let st = stride as u128;
                assert(yy * st <= 0xffff_ffff_ffff_ffff * 0xffff_ffff) by (nonlinear_arith)
                    requires yy <= 0xffff_ffff_ffff_ffff, st <= 0xffff_ffff;
                if yy * st + 4 * xx + 3 > len as u128 {
                    return false;
                }
            }
            x = x + 1;
        }
        y = y + 1;
    }
    true
}

/// Draws the glyph rows `rows` in `color` at the top-left corner of the
/// framebuffer bytes `fb`.
pub fn draw_glyph(ramfb: &RAMFBConfig, color: Color, rows: &Vec<Vec<bool>>, fb: &mut Vec<u8>)
    requires
        glyph_fits(rows@.map_values(|row: Vec<bool>| row@), ramfb.spec_stride() as int, old(fb)@.len() as int),
    ensures
        final(fb)@ == painted(
            old(fb)@,
            ramfb.spec_stride() as int,
            color,
            glyph_pixels(rows@.map_values(|row: Vec<bool>| row@)),
        ),
{
    let ghost g = rows@.map_values(|row: Vec<bool>| row@);
    let ghost s = ramfb.spec_stride() as int;
    let ghost fb0 = fb@;
    proof {
        use_type_invariant(ramfb);
    }
    assert(fb@ =~= painted(fb0, s, color, |x: int, y: int| y < 0));
    let mut y: usize = 0;
    while y < rows.len()
        invariant
            y <= rows@.len(),
            g == rows@.map_values(|row: Vec<bool>| row@),
            s == ramfb.spec_stride() as int,
            s % 4 == 0,
            fb0.len() == fb@.len(),
            glyph_fits(g, s, fb0.len() as int),
            fb@ == painted(fb0, s, color, |a: int, b: int| b < y && glyph_pixels(g)(a, b)),
        decreases rows@.len() - y,
    {
        let row = &rows[y];
        let mut x: usize = 0;
        while x < row.len()
            invariant
                y < rows@.len(),
                x <= row@.len(),
                row@ == g[y as int],
                g == rows@.map_values(|row: Vec<bool>| row@),
                s == ramfb.spec_stride() as int,
                s % 4 == 0,
                fb0.len() == fb@.len(),
                glyph_fits(g, s, fb0.len() as int),
                fb@ == painted(
                    fb0,
                    s,
                    color,
                    |a: int, b: int| (b < y || (b == y && a < x)) && glyph_pixels(g)(a, b),
                ),
            decreases row@.len() - x,
        {
            let ghost before = |a: int, b: int| (b < y || (b == y && a < x)) && glyph_pixels(g)(a, b);
            let ghost after = |a: int, b: int| (b < y || (b == y && a < x + 1)) && glyph_pixels(g)(a, b);
            if row[x] {
                assert(g[y as int][x as int]);
                proof {
                    lemma_paint_pixel(fb0, s, color, before, x as int, y as int);
                    let u = |a: int, b: int| before(a, b) || (a == x && b == y);
                    assert(u =~= after);
                }
                crate::ramfb::set(x, y, color, ramfb, fb);
            } else {
                assert(before =~= after);
            }
            x = x + 1;
        }
        proof {
            let p1 = |a: int, b: int| (b < y || (b == y && a < row@.len())) && glyph_pixels(g)(a, b);
            let p2 = |a: int, b: int| b < y + 1 && glyph_pixels(g)(a, b);
            assert(p1 =~= p2);
        }
        y = y + 1;
    }
    proof {
        let p1 = |a: int, b: int| b < rows@.len() && glyph_pixels(g)(a, b);
        assert(p1 =~= glyph_pixels(g));
    }
}

/// Draws character `chr` (its low eight bits select the glyph) of the PSF2
/// font `font` in `color` at the top-left corner of the framebuffer bytes
/// `fb`. Returns false, and leaves `fb` as
/// it was, when `font` is no PSF2 font, has no glyph for `chr`, or the glyph
/// does not fit in `fb`.
pub fn render_char(ramfb: &RAMFBConfig, font: &[u8], chr: char, color: Color, fb: &mut Vec<u8>) -> (r: bool)
    requires
        psf2_walkable(font@, chr as u8),
    ensures
        r == (psf2_glyph(font@, chr as u8) is Some && glyph_fits(
            psf2_glyph(font@, chr as u8).unwrap(),
            ramfb.spec_stride() as int,
            old(fb)@.len() as int,
        )),
        r ==> final(fb)@ == painted(
            old(fb)@,
            ramfb.spec_stride() as int,
            color,
            glyph_pixels(psf2_glyph(font@, chr as u8).unwrap()),
        ),
        !r ==> final(fb)@ == old(fb)@,
{
    match decode_glyph(font, chr as u8) {
        Some(rows) => {
            if fits(&rows, ramfb, fb.len()) {
                draw_glyph(ramfb, color, &rows, fb);
                true
            } else {
                false
            }
        },
        None => false,
    }
}

} // verus!
