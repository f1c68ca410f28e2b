use gemini::surface::Surface;
use gemini::vdi::VdiError;
use gemini::vdi::VDI;

#[test]
#[allow(unused_variables)]
fn vdi_creation() {
    let mut surface = Surface::new(640, 480);
    let vdi: &mut dyn VDI = &mut surface;
}

#[test]
fn largest_surface_is_created() {
    let surface = Surface::new(65535, 2);
    assert_eq!(surface.width(), 65535);
    assert_eq!(surface.height(), 2);
    assert_eq!(surface.pixels().len(), 131070);
    assert_eq!(surface.get_point((65534, 1)), 0);
}

#[test]
fn errors_show_their_cause() {
    let from_display = VdiError::FromSdl(String::from("no display"));
    assert_eq!(format!("{:?}", from_display), "FromSdl(\"no display\")");
    assert_eq!(format!("{:?}", VdiError::Miscellaneous), "Miscellaneous");
    assert!(matches!(from_display, VdiError::FromSdl(_)));
}
