use gent_kern::font::{draw_glyph, fits, glyph_lookup_is_safe, render_char};
use gent_kern::ramfb::{fillrect, get_pointer_for_coords, Color, RAMFBConfig, FOURCC_ARGB8888};

#[test]
fn config_record() {
    let c = RAMFBConfig::new(640, 480, 0x8800_0000);
    assert_eq!(c.addr(), 0x8800_0000);
    assert_eq!(c.stride(), 2560);
    assert_eq!(c.width(), 640);
    assert_eq!(c.height(), 480);
    assert_eq!(c.byte_size(), 480 * 2560);
    let b = c.to_bytes();
    assert_eq!(b.len(), 28);
    assert_eq!(&b[0..8], &[0, 0, 0, 0, 0x88, 0, 0, 0]);
    assert_eq!(&b[8..12], &FOURCC_ARGB8888.to_be_bytes());
    assert_eq!(&b[12..16], &[0, 0, 0, 0]);
    assert_eq!(&b[16..20], &640u32.to_be_bytes());
    assert_eq!(&b[20..24], &480u32.to_be_bytes());
    assert_eq!(&b[24..28], &2560u32.to_be_bytes());
}

#[test]
fn colors() {
    assert_eq!(Color::new_from_hex(0x12_34_56), Color { red: 0x12, green: 0x34, blue: 0x56 });
    assert_eq!(Color::new_from_hex(0xff12_3456), Color { red: 0x12, green: 0x34, blue: 0x56 });
    assert_eq!(Color::from(0x00ff_00u32), Color::green());
    assert_eq!(Color::white(), Color::new(0xff, 0xff, 0xff));
    assert_eq!(Color::black(), Color::new(0, 0, 0));
    assert_eq!(Color::red(), Color::new(0xff, 0, 0));
    assert_eq!(Color::blue(), Color::new(0, 0, 0xff));
}

#[test]
fn pixel_writes() {
    let c = RAMFBConfig::new(4, 3, 0);
    assert_eq!(get_pointer_for_coords(2, 1, &c), 16 + 8);
    let mut fb = vec![0u8; 48];
    gent_kern::ramfb::set(2, 1, Color::new(1, 2, 3), &c, &mut fb);
    assert_eq!(&fb[24..28], &[3, 2, 1, 0]);
    assert_eq!(fb.iter().filter(|&&b| b != 0).count(), 3);
}

#[test]
fn rectangle_fill() {
    let c = RAMFBConfig::new(4, 3, 0);
    let mut fb = vec![0xeeu8; 48];
    // two rows of three pixels
    fillrect(&c, Color::new(0xa, 0xb, 0xc), 2, 3, &mut fb);
    for row in 0..3 {
        for col in 0..4 {
            let o = row * 16 + col * 4;
            if row < 2 && col < 3 {
                assert_eq!(&fb[o..o + 4], &[0xc, 0xb, 0xa, 0xee]);
            } else {
                assert_eq!(&fb[o..o + 4], &[0xee; 4]);
            }
        }
    }
}

fn tiny_font() -> Vec<u8> {
    // header: magic, version 0, header size 32, flags 0, 2 glyphs of 2 bytes,
    // 2 rows of 3 pixels
    let mut f = vec![0x72, 0xb5, 0x4a, 0x86];
    for v in [0u32, 32, 0, 2, 2, 2, 3] {
        f.extend_from_slice(&v.to_le_bytes());
    }
    f.extend_from_slice(&[0b1010_0000, 0b0100_0000]); // glyph 0
    f.extend_from_slice(&[0b1110_0000, 0b0000_0000]); // glyph 1
    f
}

#[test]
fn glyph_rendering() {
    let c = RAMFBConfig::new(4, 2, 0);
    let mut fb = vec![0u8; 32];
    assert!(render_char(&c, &tiny_font(), '\0', Color::white(), &mut fb));
    let lit: Vec<usize> = (0..8).filter(|p| fb[p * 4] != 0).collect();
    assert_eq!(lit, vec![0, 2, 5]);
    assert_eq!(&fb[0..4], &[0xff, 0xff, 0xff, 0]);
    let mut fb1 = vec![0u8; 32];
    assert!(render_char(&c, &tiny_font(), '\u{1}', Color::red(), &mut fb1));
    assert_eq!(&fb1[0..12], &[0, 0, 0xff, 0, 0, 0, 0xff, 0, 0, 0, 0xff, 0]);
}

#[test]
fn glyph_rendering_failures() {
    let c = RAMFBConfig::new(4, 2, 0);
    let mut fb = vec![0u8; 32];
    assert!(!render_char(&c, &tiny_font(), '\u{2}', Color::white(), &mut fb));
    assert!(!render_char(&c, &[0u8; 40], 'A', Color::white(), &mut fb));
    assert!(render_char(&c, &tiny_font(), '\u{101}', Color::white(), &mut fb));
    fb.iter_mut().for_each(|b| *b = 0);
    let mut small = vec![0u8; 10];
    assert!(!render_char(&c, &tiny_font(), '\0', Color::white(), &mut small));
    assert!(fb.iter().all(|&b| b == 0));
    assert!(small.iter().all(|&b| b == 0));
}

#[test]
fn glyph_drawing() {
    let c = RAMFBConfig::new(2, 2, 0);
    let rows = vec![vec![false, true], vec![true]];
    let mut fb = vec![0u8; 16];
    assert!(fits(&rows, &c, fb.len()));
    assert!(fits(&rows, &c, 11));
    assert!(!fits(&rows, &c, 10));
    draw_glyph(&c, Color::new(1, 2, 3), &rows, &mut fb);
    assert_eq!(fb, vec![0, 0, 0, 0, 3, 2, 1, 0, 3, 2, 1, 0, 0, 0, 0, 0]);
}

#[test]
fn hex_roundtrip() {
    let c = Color::new(0x01, 0x80, 0xfe);
    let hex = (c.red as u32) << 16 | (c.green as u32) << 8 | c.blue as u32;
    assert_eq!(Color::new_from_hex(hex), c);
}

#[test]
fn glyph_lookup_safety() {
    assert!(glyph_lookup_is_safe(&tiny_font(), 255));
    assert!(glyph_lookup_is_safe(&[1, 2, 3], 0));
    let mut zero_width = tiny_font();
    zero_width[28] = 0;
    assert!(!glyph_lookup_is_safe(&zero_width, 0));
    let mut huge = tiny_font();
    huge[16..20].copy_from_slice(&0u32.to_le_bytes());
    huge[20..24].copy_from_slice(&0x0100_0000u32.to_le_bytes());
    assert!(glyph_lookup_is_safe(&huge, 0));
    assert!(!glyph_lookup_is_safe(&huge, 255));
    let mut truncated = tiny_font();
    truncated.truncate(34);
    truncated[28] = 0;
    assert!(glyph_lookup_is_safe(&truncated, 0));
}

#[test]
fn framebuffer_memory_sizes() {
    // 640 x 480 pixels of four bytes take 1200 KiB: a 2 MiB page.
    assert_eq!(RAMFBConfig::memory_size(640, 480), 0x20_0000);
    assert_eq!(RAMFBConfig::memory_size(32, 32), 0x1000);
    assert_eq!(RAMFBConfig::memory_size(16, 64), 0x1000);
    assert_eq!(RAMFBConfig::memory_size(16, 65), 0x20_0000);
    assert_eq!(RAMFBConfig::memory_size(0, 480), 0);
}
