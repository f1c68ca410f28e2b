use gemini::font::Font;
use gemini::font::TextContext;
use gemini::surface::Surface;
use gemini::vdi::VDI;

// This defines a small, 16-character font containing glyphs for the hexadecimal digits.
// The font is 128x8 pixels in size, each glyph being 8x8 pixels.
const FONT_DATA: [u16; 64] = [
    0b0001100000001000, 0b0011110000111100, 0b0000100001111110, 0b0011110001111110,
        0b0011110000111100, 0b0001100001111100, 0b0011110001111000, 0b0111111001111110,
    0b0010010000111000, 0b0100001001000010, 0b0001100001000000, 0b0100001000000010,
        0b0100001001000010, 0b0010010001000010, 0b0100001001000100, 0b0100000001000000,
    0b0100001000001000, 0b0000001000000010, 0b0010100001000000, 0b0100000000000100,
        0b0100001001000010, 0b0010010001000010, 0b0100000001000010, 0b0100000001000000,
    0b0100001000001000, 0b0001110000011100, 0b0010100001111100, 0b0111110000000100,
        0b0011110000111100, 0b0100001001111100, 0b0100000001000010, 0b0111100001111000,
    0b0100001000001000, 0b0010000000000010, 0b0111111000000010, 0b0100001000001000,
        0b0100001000000010, 0b0111111001000010, 0b0100000001000010, 0b0100000001000000,
    0b0010010000001000, 0b0100000001000010, 0b0000100001000010, 0b0100001000001000,
        0b0100001001000010, 0b0100001001000010, 0b0100001001000100, 0b0100000001000000,
    0b0001100000111110, 0b0111111000111100, 0b0000100000111100, 0b0011110000001000,
        0b0011110000111100, 0b0100001001111100, 0b0011110001111000, 0b0111111001000000,
    0b0000000000000000, 0b0000000000000000, 0b0000000000000000, 0b0000000000000000,
        0b0000000000000000, 0b0000000000000000, 0b0000000000000000, 0b0000000000000000,
];

const HEX_EDGES: [u16; 17] = [
    0 * 8, 1 * 8, 2 * 8, 3 * 8, 4 * 8, 5 * 8, 6 * 8, 7 * 8,
    8 * 8, 9 * 8, 10 * 8, 11 * 8, 12 * 8, 13 * 8, 14 * 8, 15 * 8,
    16 * 8,
];

const HEXFONT: Font<'static> = Font {
    bits: &FONT_DATA,
    left_edges: &HEX_EDGES,
    width: 16 * 8,
    ascender: 7,
    height: 8,
};

const TEXT_DESKTOP: [u16; 16] = [
    0xAAAA, 0x5555, 0xAAAA, 0x5555,
    0xAAAA, 0x5555, 0xAAAA, 0x5555,
    0xAAAA, 0x5555, 0xAAAA, 0x5555,
    0xAAAA, 0x5555, 0xAAAA, 0x5555,
];

/// Pixel of the hexadecimal glyph sheet.
fn hex_pixel(sx: usize, sy: usize) -> bool {
    (FONT_DATA[sy * 8 + sx / 16] >> (15 - sx % 16)) & 1 == 1
}

fn text_desktop_pen(x: u16, y: u16) -> u8 {
    if (x + y) % 2 == 1 { 255 } else { 0 }
}

fn put_string(t: &mut TextContext<dyn VDI>, y: u16) {
    t.left = 4;
    t.baseline = t.font.ascender + y * t.font.height + 4;

    for x in 0..16 {
        t.simple_put_char(x as u8);
    }
}

#[test]
fn text() {
    let mut surface = Surface::new(640, 480);
    let vdi: &mut dyn VDI = &mut surface;
    let mut t: TextContext<dyn VDI> = TextContext {
        vdi: vdi,
        font: &HEXFONT,
        left: 4,
        strike_fn: 0b0101,
        baseline: 11,
        left_margin: 4,
        right_margin: 128,
        top_margin: 8,
        bottom_margin: 24,
    };

    t.vdi.rect((0, 0), (640, 480), &TEXT_DESKTOP);
    put_string(&mut t, 0);
    assert_eq!(t.left, 132);
    put_string(&mut t, 1);
    put_string(&mut t, 2);
    put_string(&mut t, 3);
    assert_eq!(t.left, 132);
    assert_eq!(t.baseline, 35);
    t.vdi.commit().unwrap();

    // Four lines of sixteen glyphs from (4, 4) on, of which the margins
    // show columns 4 to 127 of rows 8 to 23; glyph ink is struck as ink and
    // glyph paper as paper.
    for y in 0..480u16 {
        for x in 0..640u16 {
            let expected: u8 = if x >= 4 && x < 128 && y >= 8 && y < 24 {
                if hex_pixel((x - 4) as usize, ((y - 4) % 8) as usize) { 0 } else { 255 }
            } else {
                text_desktop_pen(x, y)
            };
            assert_eq!(t.vdi.get_point((x, y)), expected, "({}, {})", x, y);
        }
    }
    assert_eq!(t.vdi.get_point((4, 8)), 255);
    assert_eq!(t.vdi.get_point((5, 8)), 0);
    assert_eq!(t.vdi.get_point((10, 8)), 0);
    assert_eq!(t.vdi.get_point((7, 4)), 255);
    assert_eq!(t.vdi.get_point((7, 12)), 0);
}

#[test]
fn every_glyph_of_a_fixed_pitch_font_is_as_wide() {
    let mut edges: Vec<u16> = Vec::new();
    for i in 0..257u16 {
        edges.push(8 * i);
    }
    let sheet: Vec<u16> = vec![0; 128 * 8];
    let font = Font { bits: &sheet, left_edges: &edges, width: 256 * 8, ascender: 7, height: 8 };
    let mut surface = Surface::new(16, 16);
    let t = TextContext {
        vdi: &mut surface,
        font: &font,
        left: 0,
        baseline: 7,
        strike_fn: 0b0101,
        left_margin: 0,
        right_margin: 16,
        top_margin: 0,
        bottom_margin: 16,
    };
    for i in 0..=255u8 {
        assert_eq!(t.get_real_size(i), (8, 8, 7));
    }
}

#[test]
fn glyphs_have_their_own_widths() {
    let edges: [u16; 5] = [0, 3, 3, 10, 16];
    let sheet: [u16; 5] = [0; 5];
    let font = Font { bits: &sheet, left_edges: &edges, width: 16, ascender: 4, height: 5 };
    let mut surface = Surface::new(16, 16);
    let t = TextContext {
        vdi: &mut surface,
        font: &font,
        left: 0,
        baseline: 7,
        strike_fn: 0b0101,
        left_margin: 0,
        right_margin: 16,
        top_margin: 0,
        bottom_margin: 16,
    };
    assert_eq!(t.get_real_size(0), (3, 5, 4));
    assert_eq!(t.get_real_size(1), (0, 5, 4));
    assert_eq!(t.get_real_size(2), (7, 5, 4));
    assert_eq!(t.get_real_size(3), (6, 5, 4));
    assert_eq!(t.left, 0);
}

#[test]
fn glyph_above_the_top_margin_only_moves_the_cursor() {
    let mut surface = Surface::new(64, 32);
    surface.rect((0, 0), (64, 32), &TEXT_DESKTOP);
    let before: Vec<u8> = surface.pixels().to_vec();
    {
        let mut t = TextContext {
            vdi: &mut surface,
            font: &HEXFONT,
            left: 10,
            baseline: 7,
            strike_fn: 0b0101,
            left_margin: 0,
            right_margin: 64,
            top_margin: 8,
            bottom_margin: 32,
        };
        t.simple_put_char(8);
        assert_eq!(t.left, 18);
        assert_eq!(t.baseline, 7);
        t.simple_put_char(1);
        assert_eq!(t.left, 26);
    }
    assert_eq!(surface.pixels(), &before[..]);
}

#[test]
fn glyph_outside_any_margin_only_moves_the_cursor() {
    let mut surface = Surface::new(64, 32);
    let before: Vec<u8> = surface.pixels().to_vec();
    {
        // below the bottom margin
        let mut t = TextContext {
            vdi: &mut surface,
            font: &HEXFONT,
            left: 10,
            baseline: 27,
            strike_fn: 0b1010,
            left_margin: 0,
            right_margin: 64,
            top_margin: 0,
            bottom_margin: 20,
        };
        t.simple_put_char(8);
        assert_eq!(t.left, 18);
        // left of the left margin
        t.baseline = 10;
        t.left = 2;
        t.left_margin = 10;
        t.simple_put_char(8);
        assert_eq!(t.left, 10);
        // right of the right margin
        t.left = 40;
        t.right_margin = 40;
        t.simple_put_char(8);
        assert_eq!(t.left, 48);
        // margins that hold nothing
        t.left = 20;
        t.left_margin = 30;
        t.right_margin = 10;
        t.simple_put_char(8);
        assert_eq!(t.left, 28);
    }
    assert_eq!(surface.pixels(), &before[..]);
}

#[test]
fn clipped_glyph_shows_what_the_whole_glyph_would() {
    let mut whole = Surface::new(32, 32);
    let mut clipped = Surface::new(32, 32);
    {
        let mut t = TextContext {
            vdi: &mut whole,
            font: &HEXFONT,
            left: 9,
            baseline: 17,
            strike_fn: 0b1010,
            left_margin: 0,
            right_margin: 32,
            top_margin: 0,
            bottom_margin: 32,
        };
        t.simple_put_char(11);
        assert_eq!(t.left, 17);
    }
    {
        let mut t = TextContext {
            vdi: &mut clipped,
            font: &HEXFONT,
            left: 9,
            baseline: 17,
            strike_fn: 0b1010,
            left_margin: 11,
            right_margin: 15,
            top_margin: 12,
            bottom_margin: 16,
        };
        t.simple_put_char(11);
        assert_eq!(t.left, 17);
    }
    let mut shown: u32 = 0;
    for y in 0..32u16 {
        for x in 0..32u16 {
            let inside = x >= 11 && x < 15 && y >= 12 && y < 16;
            let in_glyph = x >= 9 && x < 17 && y >= 10 && y < 18;
            let glyph_pen: u8 = if in_glyph && hex_pixel((88 + x - 9) as usize, (y - 10) as usize) {
                255
            } else {
                0
            };
            assert_eq!(whole.get_point((x, y)), glyph_pen, "whole ({}, {})", x, y);
            let expected: u8 = if inside { glyph_pen } else { 0 };
            assert_eq!(clipped.get_point((x, y)), expected, "clipped ({}, {})", x, y);
            if expected == 255 {
                shown += 1;
            }
        }
    }
    // glyph B: its rows 2 to 5 are 01000010, 01111100, 01000010, 01000010;
    // of their columns 2 to 5 only those of row 3 are set
    assert_eq!(shown, 4);
    assert_eq!(clipped.get_point((11, 12)), 0);
    assert_eq!(clipped.get_point((14, 12)), 0);
    assert_eq!(clipped.get_point((11, 13)), 255);
    assert_eq!(clipped.get_point((14, 13)), 255);
    assert_eq!(clipped.get_point((14, 14)), 0);
}

#[test]
fn glyph_that_starts_above_the_surface_shows_its_lower_rows() {
    let mut surface = Surface::new(16, 8);
    {
        let mut t = TextContext {
            vdi: &mut surface,
            font: &HEXFONT,
            left: 4,
            baseline: 3,
            strike_fn: 0b1010,
            left_margin: 0,
            right_margin: 16,
            top_margin: 0,
            bottom_margin: 8,
        };
        t.simple_put_char(7);
        assert_eq!(t.left, 12);
    }
    for y in 0..8u16 {
        for x in 0..16u16 {
            let expected: u8 = if x >= 4 && x < 12 && y < 4
                && hex_pixel((56 + x - 4) as usize, (y + 4) as usize)
            {
                255
            } else {
                0
            };
            assert_eq!(surface.get_point((x, y)), expected, "({}, {})", x, y);
        }
    }
    // glyph 7: its rows 4 to 6 hold one pixel each, in column 4; row 7 is empty
    assert_eq!(surface.get_point((8, 0)), 255);
    assert_eq!(surface.get_point((8, 2)), 255);
    assert_eq!(surface.get_point((8, 3)), 0);
}

#[test]
fn cursor_moves_to_the_last_column() {
    let mut surface = Surface::new(16, 8);
    let mut t = TextContext {
        vdi: &mut surface,
        font: &HEXFONT,
        left: 65527,
        baseline: 7,
        strike_fn: 0b1010,
        left_margin: 0,
        right_margin: 65535,
        top_margin: 0,
        bottom_margin: 8,
    };
    t.simple_put_char(0);
    assert_eq!(t.left, 65535);
    assert_eq!(t.vdi.pixels(), &[0; 128][..]);
}
