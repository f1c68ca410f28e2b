use gemini::surface::Surface;
use gemini::vdi::VDI;

#[test]
fn vdi_draw_point_draw_point() {
    let mut surface = Surface::new(640, 480);
    let vdi: &mut dyn VDI = &mut surface;

    for i in 0..128 {
        vdi.draw_point((0, 0), i);
        assert_eq!(vdi.get_point((0, 0)), 0);
    }

    for i in 128..256 {
        vdi.draw_point((0, 0), i as u8);
        assert_eq!(vdi.get_point((0, 0)), 255);
    }
}

#[test]
fn draw_point_touches_one_pixel() {
    let mut surface = Surface::new(8, 4);
    surface.draw_point((3, 2), 255);
    for y in 0..4u16 {
        for x in 0..8u16 {
            let expected: u8 = if x == 3 && y == 2 { 255 } else { 0 };
            assert_eq!(surface.get_point((x, y)), expected);
        }
    }
    surface.draw_point((3, 2), 127);
    assert_eq!(surface.get_point((3, 2)), 0);
    surface.draw_point((3, 2), 128);
    assert_eq!(surface.get_point((3, 2)), 255);
}

#[test]
fn draw_point_outside_is_ignored() {
    let mut surface = Surface::new(8, 4);
    surface.draw_point((8, 0), 255);
    surface.draw_point((0, 4), 255);
    surface.draw_point((65535, 65535), 255);
    surface.draw_point((7, 4), 255);
    for y in 0..4u16 {
        for x in 0..8u16 {
            assert_eq!(surface.get_point((x, y)), 0);
        }
    }
}

#[test]
fn get_point_outside_is_ink() {
    let mut surface = Surface::new(8, 4);
    let paper: [u16; 16] = [0xFFFF; 16];
    surface.rect((0, 0), (8, 4), &paper);
    assert_eq!(surface.get_point((7, 3)), 255);
    assert_eq!(surface.get_point((8, 3)), 0);
    assert_eq!(surface.get_point((7, 4)), 0);
    assert_eq!(surface.get_point((65535, 0)), 0);
    assert_eq!(surface.get_point((0, 65535)), 0);
}

#[test]
fn new_surface_is_ink() {
    let surface = Surface::new(5, 3);
    assert_eq!(surface.width(), 5);
    assert_eq!(surface.height(), 3);
    assert_eq!(surface.pixels().len(), 15);
    for y in 0..3u16 {
        for x in 0..5u16 {
            assert_eq!(surface.get_point((x, y)), 0);
        }
    }
}

#[test]
fn empty_surface_takes_every_call() {
    let mut surface = Surface::new(0, 0);
    let paper: [u16; 16] = [0xFFFF; 16];
    let bits: [u16; 1] = [0xFFFF];
    surface.draw_point((0, 0), 255);
    surface.hline((0, 0), 10, 0xFFFF);
    surface.vline((0, 0), 10, 0xFFFF);
    surface.rect((0, 0), (10, 10), &paper);
    surface.frame((0, 0), (10, 10), 0xFFFF);
    surface.invert_line((0, 0), 10);
    surface.invert_rect((0, 0), (10, 10));
    surface.copy_line((0, 0), 16, &bits, (0, 0), 16, 0xF);
    surface.copy_rect_big_endian((0, 0), 16, &bits, (0, 0), (16, 1), 0xF);
    assert_eq!(surface.get_point((0, 0)), 0);
    assert_eq!(surface.pixels().len(), 0);

    let mut column = Surface::new(0, 7);
    column.hline((0, 3), 5, 0xFFFF);
    assert_eq!(column.pixels().len(), 0);
    let mut row = Surface::new(7, 0);
    row.vline((3, 0), 5, 0xFFFF);
    assert_eq!(row.pixels().len(), 0);
}
