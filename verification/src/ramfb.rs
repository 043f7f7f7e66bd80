//! The QEMU ramfb framebuffer: its configuration record, colours, and
//! drawing into the framebuffer's bytes.

use vstd::prelude::*;
use crate::paging::PageSize;
use crate::endian::{be_bytes_u32, be_bytes_u64, push_be_u32, push_be_u64};

verus! {

/// The pixel format that ramfb is told to use: DRM fourcc "AR24", 32 bits
/// per pixel.
pub const FOURCC_ARGB8888: u32 = 0x3432_5241;

/// Number of bytes in the configuration record.
pub const CONFIG_BYTES: usize = 28;

/// The configuration record written to the `etc/ramfb` fw_cfg file.
pub struct RAMFBConfig {
    address: u64,
    fourcc: u32,
    flags: u32,
    width: u32,
    height: u32,
    stride: u32,
}

impl RAMFBConfig {
    /// Each row holds `width` pixels of four bytes.
    #[verifier::type_invariant]
    pub(crate) open spec fn inv(self) -> bool {
        self.spec_stride() == self.spec_width() * 4
    }

    pub closed spec fn spec_address(&self) -> u64 {
        self.address
    }

    pub closed spec fn spec_fourcc(&self) -> u32 {
        self.fourcc
    }

    pub closed spec fn spec_flags(&self) -> u32 {
        self.flags
    }

    pub closed spec fn spec_width(&self) -> u32 {
        self.width
    }

    pub closed spec fn spec_height(&self) -> u32 {
        self.height
    }

    pub closed spec fn spec_stride(&self) -> u32 {
        self.stride
    }

    /// A `width` by `height` framebuffer of 32-bit pixels at physical
    /// address `address`.
    pub fn new(width: u32, height: u32, address: u64) -> (r: Self)
        requires
            width * 4 <= u32::MAX,
        ensures
            r.spec_address() == address,
            r.spec_fourcc() == FOURCC_ARGB8888,
            r.spec_flags() == 0,
            r.spec_width() == width,
            r.spec_height() == height,
            r.spec_stride() == width * 4,
    {
        let stride = width * 4;
        RAMFBConfig { address, fourcc: FOURCC_ARGB8888, flags: 0, width, height, stride }
    }

    /// How much memory a `width` by `height` framebuffer is given: its
    /// bytes rounded up to a page size, the smallest that holds them (the
    /// memory is also aligned to that size).
    pub fn memory_size(width: u32, height: u32) -> (r: u64)
        requires
            width * 4 <= u32::MAX,
            width * 4 * height <= 0x1000_0000_0000,
        ensures
            r == PageSize::spec_from_size_ceil((width * 4 * height) as u64).spec_bytes(),
            width * 4 * height <= r,
    {
        let bytes = width as u64 * 4 * height as u64;
        PageSize::from_size_ceil(bytes).bytes()
    }

    /// Physical address of the framebuffer.
    pub fn addr(&self) -> (r: u64)
        ensures
            r == self.spec_address(),
    {
        self.address
    }

    pub fn width(&self) -> (r: u32)
        ensures
            r == self.spec_width(),
    {
        self.width
    }

    pub fn height(&self) -> (r: u32)
        ensures
            r == self.spec_height(),
    {
        self.height
    }

    pub fn stride(&self) -> (r: u32)
        ensures
            r == self.spec_stride(),
            r == self.spec_width() * 4,
    {
        proof {
            use_type_invariant(self);
        }
        self.stride
    }

    /// Number of bytes the framebuffer spans.
    pub fn byte_size(&self) -> (r: u64)
        ensures
            r == self.spec_height() * self.spec_stride(),
    {
        let h = self.height as u64;
        let s = self.stride as u64;
        assert(h * s <= 0xffff_ffff * 0xffff_ffff) by (nonlinear_arith)
            requires h <= 0xffff_ffff, s <= 0xffff_ffff;
        h * s
    }

    /// The record as the device reads it: every field big-endian, packed,
    /// in the order address, fourcc, flags, width, height, stride.
    pub fn to_bytes(&self) -> (r: Vec<u8>)
        ensures
            r@ == be_bytes_u64(self.spec_address()) + be_bytes_u32(self.spec_fourcc())
                + be_bytes_u32(self.spec_flags()) + be_bytes_u32(self.spec_width())
                + be_bytes_u32(self.spec_height()) + be_bytes_u32(self.spec_stride()),
            r@.len() == CONFIG_BYTES,
    {
        let mut out: Vec<u8> = Vec::new();
        push_be_u64(&mut out, self.address);
        push_be_u32(&mut out, self.fourcc);
        push_be_u32(&mut out, self.flags);
        push_be_u32(&mut out, self.width);
        push_be_u32(&mut out, self.height);
        push_be_u32(&mut out, self.stride);
        out
    }
}

/// A colour of a pixel.
#[derive(Clone, Copy, Debug, PartialEq, Eq, Structural)]
pub struct Color {
    pub red: u8,
    pub green: u8,
    pub blue: u8,
}

/// The colour whose 24-bit RGB value is the low bits of `hex`.
pub open spec fn color_of_hex(hex: u32) -> Color {
    Color { red: (hex >> 16u32) as u8, green: ((hex >> 8u32) & 0xff) as u8, blue: (hex & 0xff) as u8 }
}

impl Color {
    pub fn new(red: u8, green: u8, blue: u8) -> (r: Color)
        ensures
            r == (Color { red, green, blue }),
    {
        Color { red, green, blue }
    }

    /// The colour written as `0xRRGGBB`.
    pub fn new_from_hex(hex: u32) -> (r: Color)
        ensures
            r == color_of_hex(hex),
    {
        let red = (hex >> 16u32) as u8;
        let green = ((hex >> 8u32) & 0xff) as u8;
        let blue = (hex & 0xff) as u8;
        Color { red, green, blue }
    }

    pub fn white() -> (r: Color)
        ensures
            r == (Color { red: 0xff, green: 0xff, blue: 0xff }),
    {
        Color { red: 0xff, green: 0xff, blue: 0xff }
    }

    pub fn black() -> (r: Color)
        ensures
            r == (Color { red: 0x00, green: 0x00, blue: 0x00 }),
    {
        Color { red: 0x00, green: 0x00, blue: 0x00 }
    }

    pub fn red() -> (r: Color)
        ensures
            r == (Color { red: 0xff, green: 0x00, blue: 0x00 }),
    {
        Color { red: 0xff, green: 0x00, blue: 0x00 }
    }

    pub fn green() -> (r: Color)
        ensures
            r == (Color { red: 0x00, green: 0xff, blue: 0x00 }),
    {
        Color { red: 0x00, green: 0xff, blue: 0x00 }
    }

    pub fn blue() -> (r: Color)
        ensures
            r == (Color { red: 0x00, green: 0x00, blue: 0xff }),
    {
        Color { red: 0x00, green: 0x00, blue: 0xff }
    }
}

impl From<u32> for Color {
    fn from(x: u32) -> (r: Self) {
        Color::new_from_hex(x)
    }
}

impl vstd::std_specs::convert::FromSpecImpl<u32> for Color {
    open spec fn obeys_from_spec() -> bool {
        true
    }

    open spec fn from_spec(v: u32) -> Color {
        color_of_hex(v)
    }
}

/// Writing a colour's hex value and reading it back gives the colour.
pub proof fn lemma_hex_roundtrip(c: Color)
    ensures
        color_of_hex(((c.red as u32) * 0x1_0000 + (c.green as u32) * 0x100 + (c.blue as u32)) as u32) == c,
{
    let (r, g, b) = (c.red, c.green, c.blue);
    let h = ((r as u32) * 0x1_0000 + (g as u32) * 0x100 + (b as u32)) as u32;
    assert((h >> 16u32) as u8 == r && ((h >> 8u32) & 0xff) as u8 == g && (h & 0xff) as u8 == b) by (bit_vector)
        requires h == ((r as u32) * 0x1_0000 + (g as u32) * 0x100 + (b as u32)) as u32;
}

/// The byte of colour `c` at position `k` of a pixel: blue, green, red.
pub open spec fn component(c: Color, k: int) -> u8 {
    if k == 0 {
        c.blue
    } else if k == 1 {
        c.green
    } else {
        c.red
    }
}

/// Whether byte `p` of the framebuffer is one of the three colour bytes of
/// pixel (`x`, `y`) when rows are `stride` bytes apart.
pub open spec fn in_pixel(p: int, x: int, y: int, stride: int) -> bool {
    y * stride + 4 * x <= p < y * stride + 4 * x + 3
}

/// The framebuffer bytes `fb` after every pixel in `pixels` is painted `c`.
pub open spec fn painted(fb: Seq<u8>, stride: int, c: Color, pixels: spec_fn(int, int) -> bool) -> Seq<u8> {
    Seq::new(
        fb.len(),
        |p: int|
            if exists|x: int, y: int| 0 <= x && 0 <= y && pixels(x, y) && #[trigger] in_pixel(p, x, y, stride) {
                component(c, p % 4)
            } else {
                fb[p]
            },
    )
}

/// Painting one more pixel over a painted framebuffer paints the union.
pub proof fn lemma_paint_pixel(
    fb: Seq<u8>,
    stride: int,
    c: Color,
    pixels: spec_fn(int, int) -> bool,
    x: int,
    y: int,
)
    requires
        stride >= 0,
        stride % 4 == 0,
        x >= 0,
        y >= 0,
        y * stride + 4 * x + 3 <= fb.len(),
    ensures
        ({
            let o = y * stride + 4 * x;
            painted(fb, stride, c, pixels).update(o, c.blue).update(o + 1, c.green).update(o + 2, c.red)
                == painted(fb, stride, c, |a: int, b: int| pixels(a, b) || (a == x && b == y))
        }),
{
    let o = y * stride + 4 * x;
    let k = stride / 4;
    assert(y * stride == (y * k) * 4) by (nonlinear_arith)
        requires stride % 4 == 0, k == stride / 4;
    vstd::arithmetic::div_mod::lemma_mod_multiples_basic(y * k, 4);
    assert(o % 4 == 0);
    let lhs = painted(fb, stride, c, pixels).update(o, c.blue).update(o + 1, c.green).update(o + 2, c.red);
    let q = |a: int, b: int| pixels(a, b) || (a == x && b == y);
    let rhs = painted(fb, stride, c, q);
    assert forall|p: int| 0 <= p < fb.len() implies lhs[p] == rhs[p] by {
        if o <= p < o + 3 {
            assert(in_pixel(p, x, y, stride));
            assert(q(x, y));
            assert(p % 4 == p - o);
        } else {
            assert(!in_pixel(p, x, y, stride));
            if exists|a: int, b: int| 0 <= a && 0 <= b && q(a, b) && #[trigger] in_pixel(p, a, b, stride) {
                let (a, b) = choose|a: int, b: int| 0 <= a && 0 <= b && q(a, b) && #[trigger] in_pixel(p, a, b, stride);
                assert(pixels(a, b));
            }
        }
    }
    assert(lhs =~= rhs);
}

/// Byte offset of pixel (`x`, `y`) in a framebuffer whose rows are `stride`
/// bytes apart.
pub fn get_pointer_for_coords(x: usize, y: usize, ramfb: &RAMFBConfig) -> (r: usize)
    requires
        y * ramfb.spec_stride() + 4 * x <= usize::MAX,
    ensures
        r == y * ramfb.spec_stride() + 4 * x,
{
    let stride = ramfb.stride() as usize;
    assert(y * stride <= y * stride + 4 * x);
    y * stride + x * 4
}

/// Paints pixel (`x`, `y`) of the framebuffer bytes `fb`: blue, green and
/// red at the pixel's first three bytes.
pub fn set(x: usize, y: usize, color: Color, ramfb: &RAMFBConfig, fb: &mut Vec<u8>)
    requires
        y * ramfb.spec_stride() + 4 * x + 3 <= old(fb)@.len(),
    ensures
        ({
            let o = y * ramfb.spec_stride() + 4 * x;
            final(fb)@ == old(fb)@.update(o, color.blue).update(o + 1, color.green).update(o + 2, color.red)
        }),
{
    proof {
        assert(fb@.len() == fb.len());
    }
    let o = get_pointer_for_coords(x, y, ramfb);
    fb.set(o, color.blue);
    fb.set(o + 1, color.green);
    fb.set(o + 2, color.red);
}

/// Fills the top-left corner of the framebuffer with `color`: `width` rows
/// of `height` pixels each.
pub fn fillrect(ramfb: &RAMFBConfig, color: Color, width: usize, height: usize, fb: &mut Vec<u8>)
    requires
        width > 0 && height > 0 ==> (width - 1) * ramfb.spec_stride() + 4 * (height - 1) + 3 <= old(fb)@.len(),
    ensures
        final(fb)@ == painted(
            old(fb)@,
            ramfb.spec_stride() as int,
            color,
            |x: int, y: int| x < height && y < width,
        ),
{
    let stride = ramfb.stride();
    let ghost s = stride as int;
    let ghost fb0 = fb@;
    assert(fb@ =~= painted(fb0, s, color, |x: int, y: int| y < 0));
    let mut i: usize = 0;
    while i < width
        invariant
            i <= width,
            stride == ramfb.spec_stride(),
            s == stride as int,
            s % 4 == 0,
            width > 0 && height > 0 ==> (width - 1) * s + 4 * (height - 1) + 3 <= fb0.len(),
            fb@ == painted(fb0, s, color, |x: int, y: int| x < height && y < i),
        decreases width - i,
    {
        let mut j: usize = 0;
        while j < height
            invariant
                i < width,
                j <= height,
                stride == ramfb.spec_stride(),
                s == stride as int,
                s % 4 == 0,
                height > 0 ==> (width - 1) * s + 4 * (height - 1) + 3 <= fb0.len(),
                fb@ == painted(fb0, s, color, |x: int, y: int| (x < height && y < i) || (y == i && x < j)),
            decreases height - j,
        {
            assert(i * s + 4 * j + 3 <= fb0.len()) by (nonlinear_arith)
                requires
                    i < width,
                    j < height,
                    s >= 0,
                    (width - 1) * s + 4 * (height - 1) + 3 <= fb0.len();
            proof {
                lemma_paint_pixel(fb0, s, color, |x: int, y: int| (x < height && y < i) || (y == i && x < j), j as int, i as int);
            }
            set(j, i, color, ramfb, fb);
            proof {
                let p1 = |a: int, b: int| ((a < height && b < i) || (b == i && a < j)) || (a == j && b == i);
                let p2 = |x: int, y: int| (x < height && y < i) || (y == i && x < j + 1);
                assert(p1 =~= p2);
            }
            j = j + 1;
        }
        proof {
            let p1 = |x: int, y: int| (x < height && y < i) || (y == i && x < height);
            let p2 = |x: int, y: int| x < height && y < i + 1;
            assert(p1 =~= p2);
        }
        i = i + 1;
    }
    proof {
        let p1 = |x: int, y: int| x < height && y < width;
        assert(fb@ == painted(fb0, s, color, p1));
    }
}

} // verus!
