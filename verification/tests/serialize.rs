use krilla::configure::SerializeSettings;
use krilla::font::Font;
use krilla::object::ext_g_state::ExtGState;
use krilla::reference::Ref;
use krilla::resource::PdfColorSpace;
use krilla::serialize::{Object, Registration, SerializerContext};
use krilla::text::PDFGlyph;

fn context() -> SerializerContext {
    SerializerContext::new(SerializeSettings::default())
}

fn text(bytes: &[u8]) -> String {
    String::from_utf8_lossy(bytes).into_owned()
}

#[test]
fn references_are_handed_out_from_one() {
    let mut sc = context();
    assert_eq!(sc.peek_ref().get(), 1);
    assert!(sc.has_room());
    assert_eq!(sc.new_ref().get(), 1);
    assert_eq!(sc.new_ref().get(), 2);
    assert_eq!(sc.new_ref().get(), 3);
    assert_eq!(sc.peek_ref().get(), 4);
    sc.skip_to(Ref::new(i32::MAX));
    assert!(!sc.has_room());
}

#[test]
fn same_color_space_three_times_is_one_fragment() {
    let mut sc = context();
    let first = sc.add(PdfColorSpace::D65Gray);
    let second = sc.add(PdfColorSpace::D65Gray);
    let third = sc.d65_gray();
    assert_eq!(first.get(), 1);
    assert_eq!(second, first);
    assert_eq!(third, first);
    assert_eq!(sc.peek_ref().get(), 2);
    assert_eq!(sc.chunk_container().color_spaces.len(), 1);
}

#[test]
fn different_objects_get_different_references() {
    let mut sc = context();
    let gray = sc.d65_gray();
    let rgb = sc.srgb();
    let state = sc.add(ExtGState::new());
    assert_eq!(gray.get(), 1);
    assert_eq!(rgb.get(), 2);
    assert_eq!(state.get(), 3);
    assert_eq!(sc.srgb(), rgb);
    assert_eq!(sc.d65_gray(), gray);
    assert_eq!(sc.add(ExtGState::new()), state);
    assert_eq!(sc.peek_ref().get(), 4);
    assert_eq!(sc.chunk_container().color_spaces.len(), 2);
    assert_eq!(sc.chunk_container().ext_g_states.len(), 1);
}

#[test]
fn color_spaces_embed_their_profiles() {
    let mut sc = context();
    sc.set_icc_profiles(vec![1, 2, 3], vec![4, 5]);
    assert_eq!(sc.srgb_profile(), &vec![1, 2, 3]);
    assert_eq!(sc.gray_profile(), &vec![4, 5]);
    sc.srgb();
    sc.d65_gray();
    let container = sc.chunk_container();
    assert_eq!(
        text(container.color_spaces[0].wait().as_ref().unwrap().as_bytes()),
        "1 0 obj\n<<\n  /Length 3\n  /N 3\n  /Range [0 1 0 1 0 1]\n  /Filter /FlateDecode\n>>\nstream\n\u{1}\u{2}\u{3}\nendstream\nendobj\n\n"
    );
    assert_eq!(
        text(container.color_spaces[1].wait().as_ref().unwrap().as_bytes()),
        "2 0 obj\n<<\n  /Length 2\n  /N 1\n  /Range [0 1]\n  /Filter /FlateDecode\n>>\nstream\n\u{4}\u{5}\nendstream\nendobj\n\n"
    );
}

#[test]
fn registration_tells_new_from_known() {
    let mut sc = context();
    match sc.register(vec![77]) {
        Registration::Fresh(r) => assert_eq!(r.get(), 1),
        Registration::Cached(_) => panic!("the identity is new"),
    }
    match sc.register(vec![78]) {
        Registration::Fresh(r) => assert_eq!(r.get(), 2),
        Registration::Cached(_) => panic!("the identity is new"),
    }
    match sc.register(vec![77]) {
        Registration::Cached(r) => assert_eq!(r.get(), 1),
        Registration::Fresh(_) => panic!("the identity is known"),
    }
    assert_eq!(sc.peek_ref().get(), 3);
}

#[test]
fn identity_of_a_color_space_names_its_kind() {
    assert_eq!(PdfColorSpace::SRGB.identity(), b"cs\x00".to_vec());
    assert_eq!(PdfColorSpace::D65Gray.identity(), b"cs\x01".to_vec());
    assert_eq!(PdfColorSpace::SRGB.refs_needed(), 0);
    assert_eq!(PdfColorSpace::D65Gray.refs_needed(), 0);
    let mut sc = context();
    sc.srgb();
    match sc.register(b"cs\x00".to_vec()) {
        Registration::Cached(r) => assert_eq!(r.get(), 1),
        Registration::Fresh(_) => panic!("the color space is registered under its identity"),
    }
}

#[test]
fn glyphs_are_mapped_to_type3_fonts() {
    let mut sc = context();
    let a = Font { id: 1 };
    let b = Font { id: 2 };
    let (resource, glyph) = sc.map_glyph(a, 65);
    assert_eq!(resource.font, a);
    assert_eq!(resource.pdf_index, 0);
    assert_eq!(glyph, PDFGlyph::ColorGlyph(0));
    let (resource, glyph) = sc.map_glyph(a, 66);
    assert_eq!(resource.pdf_index, 0);
    assert_eq!(glyph, PDFGlyph::ColorGlyph(1));
    let (resource, glyph) = sc.map_glyph(b, 66);
    assert_eq!(resource.font, b);
    assert_eq!(resource.pdf_index, 0);
    assert_eq!(glyph, PDFGlyph::ColorGlyph(0));
    let (resource, glyph) = sc.map_glyph(a, 65);
    assert_eq!(resource.pdf_index, 0);
    assert_eq!(glyph, PDFGlyph::ColorGlyph(0));
    for g in 0..300u32 {
        sc.map_glyph(a, 1000 + g);
    }
    let (resource, glyph) = sc.map_glyph(a, 1299);
    assert_eq!(resource.pdf_index, 1);
    assert_eq!(glyph, PDFGlyph::ColorGlyph(45));
}

#[test]
fn every_type3_font_gets_a_reference() {
    let mut sc = context();
    let a = Font { id: 1 };
    let b = Font { id: 2 };
    for g in 0..257u32 {
        sc.map_glyph(a, g);
    }
    sc.map_glyph(b, 1);
    let fonts = sc.write_fonts().unwrap();
    assert_eq!(fonts.len(), 3);
    assert_eq!((fonts[0].resource.font, fonts[0].resource.pdf_index), (a, 0));
    assert_eq!((fonts[1].resource.font, fonts[1].resource.pdf_index), (a, 1));
    assert_eq!((fonts[2].resource.font, fonts[2].resource.pdf_index), (b, 0));
    assert_eq!(fonts[0].reference.get(), 1);
    assert_eq!(fonts[1].reference.get(), 2);
    assert_eq!(fonts[2].reference.get(), 3);
    let again = sc.write_fonts().unwrap();
    assert_eq!(again[2].reference.get(), 3);
    assert_eq!(sc.peek_ref().get(), 4);
    sc.add_font(pdf_writer::Chunk::new());
    assert_eq!(sc.chunk_container().fonts.len(), 1);
}
