use gemini::surface::Surface;
use gemini::vdi::VDI;

#[test]
#[allow(unused_variables)]
fn vdi_creation_creation() {
    let mut surface = Surface::new(640, 480);
    let vdi: &mut dyn VDI = &mut surface;
}
