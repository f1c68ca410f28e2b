use gemini::surface::Surface;
use gemini::vdi::VDI;

#[test]
fn hline() {
    let mut surface = Surface::new(512, 512);
    let vdi: &mut dyn VDI = &mut surface;

    for i in 0..512 {
        vdi.hline((i, i), 512, 0xFFFF);
        vdi.hline((0, i), i, 0);
    }

    vdi.commit().unwrap();

    for y in 0..512 {
        for x in 0..512 {
            let p = vdi.get_point((x, y));
            if x < y {
                assert_eq!(p, 0, "Point ({}, {}) = {}", x, y, p);
            }
            if x >= y {
                assert_eq!(p, 255, "Point ({}, {}) = {}", x, y, p);
            }
        }
    }
}

fn row_of(surface: &Surface, y: u16) -> Vec<u8> {
    let mut row: Vec<u8> = Vec::new();
    for x in 0..surface.width() {
        row.push(surface.get_point((x, y)));
    }
    row
}

#[test]
fn hline_takes_its_ends_in_either_order() {
    let mut forward = Surface::new(40, 3);
    let mut backward = Surface::new(40, 3);
    forward.hline((5, 1), 29, 0xA5C3);
    backward.hline((29, 1), 5, 0xA5C3);
    assert_eq!(forward.pixels(), backward.pixels());
    assert_eq!(forward.get_point((4, 1)), 0);
    assert_eq!(forward.get_point((29, 1)), 0);
}

#[test]
fn hline_pattern_has_no_seam() {
    let pattern: u16 = 0b1110_0100_1011_0001;
    let mut whole = Surface::new(40, 2);
    let mut pieces = Surface::new(40, 2);
    whole.hline((0, 1), 32, pattern);
    pieces.hline((0, 1), 16, pattern);
    pieces.hline((16, 1), 32, pattern);
    assert_eq!(whole.pixels(), pieces.pixels());

    let mut odd = Surface::new(40, 2);
    odd.hline((0, 1), 7, pattern);
    odd.hline((7, 1), 21, pattern);
    odd.hline((21, 1), 32, pattern);
    assert_eq!(whole.pixels(), odd.pixels());
}

#[test]
fn hline_pattern_is_aligned_with_the_left_edge() {
    let mut surface = Surface::new(40, 1);
    surface.hline((3, 0), 20, 0b0000_0000_0001_0001);
    let row = row_of(&surface, 0);
    for x in 0..40usize {
        let expected: u8 = if (x == 4 || x == 16) && x >= 3 && x < 20 { 255 } else { 0 };
        assert_eq!(row[x], expected, "column {}", x);
    }
}

#[test]
fn hline_is_clipped() {
    let paper: [u16; 16] = [0xFFFF; 16];
    let mut surface = Surface::new(10, 3);
    surface.rect((0, 0), (10, 3), &paper);
    surface.hline((6, 1), 65535, 0);
    assert_eq!(row_of(&surface, 1), vec![255, 255, 255, 255, 255, 255, 0, 0, 0, 0]);
    assert_eq!(row_of(&surface, 0), vec![255; 10]);
    assert_eq!(row_of(&surface, 2), vec![255; 10]);

    // a row that the surface does not have, an empty span, a span off the right edge
    surface.hline((0, 3), 10, 0);
    surface.hline((0, 65535), 10, 0);
    surface.hline((4, 0), 4, 0);
    surface.hline((10, 0), 500, 0);
    assert_eq!(row_of(&surface, 0), vec![255; 10]);
    assert_eq!(row_of(&surface, 2), vec![255; 10]);
}

#[test]
fn vline_draws_a_column() {
    let mut surface = Surface::new(4, 40);
    surface.vline((2, 3), 20, 0b0000_0000_0001_0001);
    for y in 0..40u16 {
        for x in 0..4u16 {
            let expected: u8 = if x == 2 && (y == 4 || y == 16) { 255 } else { 0 };
            assert_eq!(surface.get_point((x, y)), expected, "({}, {})", x, y);
        }
    }
}

#[test]
fn vline_is_clipped_and_takes_its_ends_in_either_order() {
    let paper: [u16; 16] = [0xFFFF; 16];
    let mut down = Surface::new(3, 10);
    let mut up = Surface::new(3, 10);
    down.rect((0, 0), (3, 10), &paper);
    up.rect((0, 0), (3, 10), &paper);
    down.vline((1, 6), 65535, 0);
    up.vline((1, 65535), 6, 0);
    assert_eq!(down.pixels(), up.pixels());
    for y in 0..10u16 {
        let expected: u8 = if y >= 6 { 0 } else { 255 };
        assert_eq!(down.get_point((1, y)), expected);
        assert_eq!(down.get_point((0, y)), 255);
        assert_eq!(down.get_point((2, y)), 255);
    }

    // a column that the surface does not have draws nothing
    let before: Vec<u8> = down.pixels().to_vec();
    down.vline((3, 0), 10, 0);
    down.vline((65535, 0), 10, 0);
    down.vline((0, 5), 5, 0);
    assert_eq!(down.pixels(), &before[..]);
}

#[test]
fn vline_pattern_has_no_seam() {
    let pattern: u16 = 0b1110_0100_1011_0001;
    let mut whole = Surface::new(2, 40);
    let mut pieces = Surface::new(2, 40);
    whole.vline((1, 0), 32, pattern);
    pieces.vline((1, 0), 16, pattern);
    pieces.vline((1, 16), 32, pattern);
    assert_eq!(whole.pixels(), pieces.pixels());
    assert_eq!(whole.get_point((1, 0)), 255);
    assert_eq!(whole.get_point((1, 1)), 0);
    assert_eq!(whole.get_point((1, 4)), 255);
    assert_eq!(whole.get_point((1, 16)), 255);
}
