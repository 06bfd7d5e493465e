use krilla::configure::SerializeSettings;
use krilla::object::ext_g_state::{BlendMode, ExtGState};
use krilla::object::mask::{Mask, MaskType};
use krilla::object::xobject::XObject;
use krilla::reference::Ref;
use krilla::resource::{
    PdfColorSpace, PdfPattern, ResourceDictionary, ShadingPattern, TilingPattern,
};
use krilla::serialize::{Object, SerializerContext};
use krilla::stream::{ContentStream, StreamBuilder};
use tiny_skia_path::{NormalizedF32, Rect};

fn context() -> SerializerContext {
    SerializerContext::new(SerializeSettings::default())
}

fn text(bytes: &[u8]) -> String {
    String::from_utf8_lossy(bytes).into_owned()
}

#[test]
fn empty() {
    let mut sc = context();
    let ext_state = ExtGState::new();
    sc.add(ext_state);
    assert_eq!(
        text(sc.chunk_container().ext_g_states[0].wait().as_ref().unwrap().as_bytes()),
        "1 0 obj\n<<\n  /Type /ExtGState\n>>\nendobj\n\n"
    );
}

#[test]
fn default_values() {
    let mut sc = context();
    let ext_state = ExtGState::new()
        .non_stroking_alpha(NormalizedF32::ONE)
        .stroking_alpha(NormalizedF32::ONE)
        .blend_mode(BlendMode::Normal);
    sc.add(ext_state);
    assert_eq!(
        text(sc.chunk_container().ext_g_states[0].wait().as_ref().unwrap().as_bytes()),
        "1 0 obj\n<<\n  /Type /ExtGState\n  /ca 1\n  /CA 1\n  /BM /Normal\n>>\nendobj\n\n"
    );
}

#[test]
fn all_set() {
    let mut sc = context();
    let mask = Mask::new(ContentStream::empty(), MaskType::Luminosity);
    let mask_ref = sc.add(mask);
    let ext_state = ExtGState::new()
        .non_stroking_alpha(NormalizedF32::new(0.4).unwrap())
        .stroking_alpha(NormalizedF32::new(0.6).unwrap())
        .blend_mode(BlendMode::Difference)
        .mask(mask_ref);
    let state_ref = sc.add(ext_state);
    assert_eq!(mask_ref.get(), 1);
    assert_eq!(state_ref.get(), 4);
    let container = sc.chunk_container();
    assert_eq!(
        text(container.ext_g_states[0].wait().as_ref().unwrap().as_bytes()),
        "4 0 obj\n<<\n  /Type /ExtGState\n  /ca 0.4\n  /CA 0.6\n  /BM /Difference\n  /SMask 1 0 R\n>>\nendobj\n\n"
    );
    assert_eq!(
        text(container.masks[0].wait().as_ref().unwrap().as_bytes()),
        "1 0 obj\n<<\n  /Type /Mask\n  /S /Luminosity\n  /G 2 0 R\n>>\nendobj\n\n"
    );
    assert_eq!(
        text(container.x_objects[0].wait().as_ref().unwrap().as_bytes()),
        "2 0 obj\n<<\n  /Length 0\n  /Type /XObject\n  /Subtype /Form\n  /Resources <<\n    /ColorSpace <<>>\n    /ExtGState <<>>\n    /Pattern <<>>\n  >>\n  /BBox [0 0 0 0]\n  /Group <<\n    /Type /Group\n    /S /Transparency\n    /CS 3 0 R\n  >>\n>>\nstream\n\nendstream\nendobj\n\n"
    );
    assert_eq!(container.color_spaces.len(), 1);
}

#[test]
fn graphics_state_knows_what_it_sets() {
    let state = ExtGState::new();
    assert!(state.empty());
    assert!(!state.has_mask());
    assert!(!state.stroking_alpha(NormalizedF32::ZERO).empty());
    assert!(!state.non_stroking_alpha(NormalizedF32::ZERO).empty());
    assert!(!state.blend_mode(BlendMode::Hue).empty());
    let masked = state.mask(Ref::new(3));
    assert!(!masked.empty());
    assert!(masked.has_mask());
}

#[test]
fn combining_takes_over_what_the_other_state_sets() {
    let half = NormalizedF32::new(0.5).unwrap();
    let mut state = ExtGState::new()
        .stroking_alpha(NormalizedF32::ONE)
        .blend_mode(BlendMode::Multiply);
    let other = ExtGState::new()
        .stroking_alpha(half)
        .non_stroking_alpha(half)
        .mask(Ref::new(9));
    state.combine(&other);
    let expected = ExtGState::new()
        .stroking_alpha(half)
        .non_stroking_alpha(half)
        .blend_mode(BlendMode::Multiply)
        .mask(Ref::new(9));
    assert_eq!(state.identity(), expected.identity());
    let mut same = expected;
    same.combine(&ExtGState::new());
    assert_eq!(same.identity(), expected.identity());
}

#[test]
fn identity_of_a_graphics_state_tells_its_parameters() {
    assert_eq!(ExtGState::new().identity(), b"gs\x00\x00\x00\x00".to_vec());
    let one = ExtGState::new().stroking_alpha(NormalizedF32::ONE);
    assert_eq!(
        one.identity(),
        vec![b'g', b's', 0, 1, 0x3f, 0x80, 0, 0, 0, 0]
    );
    let all = ExtGState::new()
        .non_stroking_alpha(NormalizedF32::ZERO)
        .blend_mode(BlendMode::Luminosity)
        .mask(Ref::new(258));
    assert_eq!(
        all.identity(),
        vec![b'g', b's', 1, 0, 0, 0, 0, 0, 1, 0, 0, 0, 15, 1, 0, 0, 1, 2]
    );
    assert_ne!(
        ExtGState::new().stroking_alpha(NormalizedF32::ONE).identity(),
        ExtGState::new().non_stroking_alpha(NormalizedF32::ONE).identity()
    );
}

#[test]
fn blend_modes_have_their_names() {
    assert_eq!(BlendMode::Normal.name(), "Normal");
    assert_eq!(BlendMode::ColorDodge.name(), "ColorDodge");
    assert_eq!(BlendMode::Luminosity.name(), "Luminosity");
    assert_eq!(BlendMode::Normal.index(), 0);
    assert_eq!(BlendMode::Luminosity.index(), 15);
    assert_eq!(MaskType::Alpha.to_name(), "Alpha");
    assert_eq!(MaskType::Luminosity.to_name(), "Luminosity");
}

#[test]
fn form_object_has_the_box_of_its_stream_unless_it_has_its_own() {
    let stream = ContentStream::new(
        b"q Q".to_vec(),
        Rect::from_ltrb(1.0, 2.0, 30.5, 40.0).unwrap(),
        vec![],
        ResourceDictionary::new(),
    );
    let object = XObject::new(stream, true, false, None);
    assert_eq!(object.bbox(), Rect::from_ltrb(1.0, 2.0, 30.5, 40.0).unwrap());
    let own = Rect::from_xywh(0.0, 0.0, 5.0, 5.0).unwrap();
    let stream = ContentStream::new(
        b"q Q".to_vec(),
        Rect::from_ltrb(1.0, 2.0, 30.5, 40.0).unwrap(),
        vec![],
        ResourceDictionary::new(),
    );
    let object = XObject::new(stream, true, false, Some(own));
    assert_eq!(object.bbox(), own);
}

#[test]
fn form_object_registers_its_resources() {
    let mut resources = ResourceDictionary::new();
    assert_eq!(resources.register_color_space(PdfColorSpace::D65Gray), "cs0");
    assert_eq!(resources.register_color_space(PdfColorSpace::SRGB), "cs1");
    assert_eq!(
        resources.register_ext_g_state(ExtGState::new().blend_mode(BlendMode::Screen)),
        "gs0"
    );
    assert_eq!(
        resources.register_pattern(PdfPattern::ShadingPattern(ShadingPattern {
            shading: Ref::new(3)
        })),
        "pa0"
    );
    let stream = ContentStream::new(
        b"/cs0 cs".to_vec(),
        Rect::from_ltrb(0.0, 0.0, 10.0, 20.0).unwrap(),
        vec![],
        resources,
    );
    let object = XObject::new(stream, true, false, None);
    assert_eq!(object.refs_needed(), 1 + 2 + 1 + 1);
    let mut sc = context();
    sc.skip_to(Ref::new(4));
    let r = sc.add(object);
    assert_eq!(r.get(), 4);
    let container = sc.chunk_container();
    assert_eq!(
        text(container.x_objects[0].wait().as_ref().unwrap().as_bytes()),
        "4 0 obj\n<<\n  /Length 7\n  /Type /XObject\n  /Subtype /Form\n  /Resources <<\n    /ColorSpace <<\n      /cs0 6 0 R\n      /cs1 5 0 R\n    >>\n    /ExtGState <<\n      /gs0 7 0 R\n    >>\n    /Pattern <<\n      /pa0 8 0 R\n    >>\n  >>\n  /BBox [0 0 10 20]\n  /Group <<\n    /Type /Group\n    /S /Transparency\n    /I true\n  >>\n>>\nstream\n/cs0 cs\nendstream\nendobj\n\n"
    );
    assert_eq!(container.color_spaces.len(), 2);
    assert_eq!(container.ext_g_states.len(), 1);
    assert_eq!(container.patterns.len(), 1);
    assert_eq!(
        text(container.patterns[0].wait().as_ref().unwrap().as_bytes()),
        "8 0 obj\n<<\n  /Type /Pattern\n  /PatternType 2\n  /Shading 3 0 R\n>>\nendobj\n\n"
    );
    assert_eq!(sc.peek_ref().get(), 9);
}

#[test]
fn tiling_pattern_draws_its_tile() {
    let mut sc = context();
    sc.skip_to(Ref::new(3));
    let pattern = PdfPattern::TilingPattern(TilingPattern {
        tile: Ref::new(2),
        width: 8,
        height: 4,
    });
    let r = sc.add(pattern);
    assert_eq!(sc.add(pattern), r);
    assert_eq!(
        text(sc.chunk_container().patterns[0].wait().as_ref().unwrap().as_bytes()),
        "3 0 obj\n<<\n  /Length 5\n  /Type /Pattern\n  /PatternType 1\n  /PaintType 1\n  /TilingType 1\n  /BBox [0 0 8 4]\n  /XStep 8\n  /YStep 4\n  /Resources <<\n    /XObject <<\n      /T 2 0 R\n    >>\n  >>\n>>\nstream\n/T Do\nendstream\nendobj\n\n"
    );
}

#[test]
fn equal_form_objects_are_written_once() {
    let make = || {
        XObject::new(
            ContentStream::new(
                b"1 0 0 rg".to_vec(),
                Rect::from_ltrb(0.0, 0.0, 1.0, 1.0).unwrap(),
                vec![],
                ResourceDictionary::new(),
            ),
            false,
            false,
            None,
        )
    };
    let mut sc = context();
    let first = sc.add(make());
    let second = sc.add(make());
    assert_eq!(first, second);
    assert_eq!(sc.chunk_container().x_objects.len(), 1);
    let other = XObject::new(
        ContentStream::new(
            b"0 1 0 rg".to_vec(),
            Rect::from_ltrb(0.0, 0.0, 1.0, 1.0).unwrap(),
            vec![],
            ResourceDictionary::new(),
        ),
        false,
        false,
        None,
    );
    assert_ne!(sc.add(other), first);
    assert_eq!(sc.chunk_container().x_objects.len(), 2);
}

#[test]
fn stream_builder_hands_out_the_stream_it_was_given() {
    let mut sc = context();
    let mut builder = StreamBuilder::new(&mut sc);
    assert!(builder.stream.content.is_empty());
    builder.set_stream(ContentStream::new(
        b"drawn".to_vec(),
        Rect::from_ltrb(0.0, 0.0, 1.0, 1.0).unwrap(),
        vec![],
        ResourceDictionary::new(),
    ));
    let stream = builder.finish();
    assert_eq!(stream.content, b"drawn".to_vec());
    assert_eq!(sc.peek_ref().get(), 1);
    let empty = ContentStream::empty();
    assert!(empty.content.is_empty());
    assert_eq!(empty.bbox, Rect::from_xywh(0.0, 0.0, 0.0, 0.0).unwrap());
    assert!(empty.validation_errors.is_empty());
}

#[test]
fn identity_of_a_form_object_tells_its_box() {
    let make = |bbox: Rect, own: Option<Rect>| {
        XObject::new(
            ContentStream::new(b"q".to_vec(), bbox, vec![], ResourceDictionary::new()),
            false,
            true,
            own,
        )
        .identity()
    };
    let unit = Rect::from_ltrb(0.0, 0.0, 1.0, 1.0).unwrap();
    let wide = Rect::from_ltrb(0.0, 0.0, 2.0, 1.0).unwrap();
    assert_eq!(
        make(unit, None),
        vec![
            b'x', b'o', 0, 1, 0, 0, 0, 0, 1, b'q', 0, 0, 0, 0, 0, 0, 0, 0, 0x3f, 0x80, 0, 0, 0x3f,
            0x80, 0, 0, 0, 0, 0
        ]
    );
    assert_ne!(make(unit, None), make(wide, None));
    assert_ne!(make(unit, None), make(unit, Some(unit)));
    assert_ne!(make(unit, Some(unit)), make(unit, Some(wide)));
    assert_eq!(make(wide, Some(unit)), make(wide, Some(unit)));
}

#[test]
fn fragment_holds_its_root_and_takes_no_reference() {
    let mut sc = context();
    let root = sc.new_ref();
    let chunk = PdfColorSpace::SRGB.serialize_into(&mut sc, root).unwrap();
    let refs: Vec<i32> = chunk.refs().map(|r| r.get()).collect();
    assert_eq!(refs, vec![1]);
    assert_eq!(sc.peek_ref().get(), 2);

    let root = sc.new_ref();
    let chunk = PdfColorSpace::D65Gray.serialize_into(&mut sc, root).unwrap();
    let refs: Vec<i32> = chunk.refs().map(|r| r.get()).collect();
    assert_eq!(refs, vec![2]);
    assert_eq!(sc.peek_ref().get(), 3);

    let root = sc.new_ref();
    let chunk = ExtGState::new().serialize_into(&mut sc, root).unwrap();
    let refs: Vec<i32> = chunk.refs().map(|r| r.get()).collect();
    assert_eq!(refs, vec![3]);
    assert_eq!(sc.peek_ref().get(), 4);
    assert_eq!(sc.chunk_container().ext_g_states.len(), 0);

    let root = sc.new_ref();
    let pattern = PdfPattern::ShadingPattern(ShadingPattern { shading: Ref::new(2) });
    let chunk = pattern.serialize_into(&mut sc, root).unwrap();
    let refs: Vec<i32> = chunk.refs().map(|r| r.get()).collect();
    assert_eq!(refs, vec![4]);
    assert_eq!(sc.peek_ref().get(), 5);
}

#[test]
fn same_color_space_three_times_takes_one_reference() {
    let mut sc = context();
    sc.skip_to(Ref::new(7));
    let first = sc.add(PdfColorSpace::SRGB);
    let second = sc.add(PdfColorSpace::SRGB);
    let third = sc.add(PdfColorSpace::SRGB);
    assert_eq!(first.get(), 7);
    assert_eq!(second, first);
    assert_eq!(third, first);
    assert_eq!(sc.peek_ref().get(), 8);
    assert_eq!(sc.chunk_container().color_spaces.len(), 1);
}

#[test]
fn form_object_keeps_its_reference_and_its_fragment() {
    let make = || {
        XObject::new(
            ContentStream::new(
                b"q".to_vec(),
                Rect::from_ltrb(0.0, 0.0, 1.0, 1.0).unwrap(),
                vec![],
                ResourceDictionary::new(),
            ),
            false,
            false,
            None,
        )
    };
    let mut sc = context();
    let r = sc.add(make());
    assert_eq!(r.get(), 1);
    assert_eq!(sc.add(make()), r);
    let other = sc.add(ExtGState::new());
    assert_ne!(other, r);
    assert!(sc.chunk_container().x_objects[0].wait().is_ok());
}

#[test]
fn state_writes_its_entries_in_their_order() {
    let mut chunk = pdf_writer::Chunk::new();
    {
        let mut dict = chunk.indirect(pdf_writer::Ref::new(1)).dict();
        ExtGState::new()
            .stroking_alpha(NormalizedF32::ONE)
            .mask(Ref::new(9))
            .write_entries(&mut dict);
    }
    assert_eq!(
        text(chunk.as_bytes()),
        "1 0 obj\n<<\n  /Type /ExtGState\n  /CA 1\n  /SMask 9 0 R\n>>\nendobj\n\n"
    );
}

#[test]
fn fragment_of_a_mask_registers_its_drawing() {
    let mut sc = context();
    let root = sc.new_ref();
    let mask = Mask::new(ContentStream::empty(), MaskType::Alpha);
    let chunk = mask.serialize_into(&mut sc, root).unwrap();
    let refs: Vec<i32> = chunk.refs().map(|r| r.get()).collect();
    assert_eq!(refs, vec![1]);
    assert_eq!(sc.chunk_container().x_objects.len(), 1);
    assert_eq!(
        text(chunk.as_bytes()),
        "1 0 obj\n<<\n  /Type /Mask\n  /S /Alpha\n  /G 2 0 R\n>>\nendobj\n\n"
    );
}
