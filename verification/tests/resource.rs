use krilla::configure::SerializeSettings;
use krilla::object::ext_g_state::{BlendMode, ExtGState};
use krilla::reference::Ref;
use krilla::resource::{
    push_decimal, CsResourceMapper, ExtGStateResourceMapper, PatternResourceMapper,
    PdfColorSpace, PdfPattern, ResourceDictionary, ShadingPattern, TilingPattern,
};
use krilla::serialize::SerializerContext;
use tiny_skia_path::NormalizedF32;

#[test]
fn test_cs_resource_mapper() {
    let mut mapper = CsResourceMapper::new();
    assert_eq!(mapper.remap(PdfColorSpace::SRGB), 0);
    assert_eq!(mapper.remap(PdfColorSpace::D65Gray), 1);
    assert_eq!(mapper.remap(PdfColorSpace::SRGB), 0);
    assert_eq!(
        mapper.remap_with_name(PdfColorSpace::SRGB),
        String::from("cs0")
    );
    let items = mapper.get_entries();
    assert_eq!(items[0], (String::from("cs0"), PdfColorSpace::SRGB));
    assert_eq!(items[1], (String::from("cs1"), PdfColorSpace::D65Gray));
}

#[test]
fn first_seen_resource_gets_the_first_name() {
    let mut mapper = CsResourceMapper::new();
    assert_eq!(mapper.len(), 0);
    assert_eq!(mapper.get(PdfColorSpace::D65Gray), None);
    assert_eq!(mapper.get_with_name(PdfColorSpace::D65Gray), None);
    assert_eq!(mapper.remap_with_name(PdfColorSpace::D65Gray), "cs0");
    assert_eq!(mapper.remap_with_name(PdfColorSpace::SRGB), "cs1");
    assert_eq!(mapper.remap_with_name(PdfColorSpace::D65Gray), "cs0");
    assert_eq!(mapper.get(PdfColorSpace::SRGB), Some(1));
    assert_eq!(
        mapper.get_with_name(PdfColorSpace::D65Gray),
        Some("cs0".to_string())
    );
    assert_eq!(mapper.len(), 2);
    let entries = mapper.get_entries();
    assert_eq!(
        entries,
        vec![
            ("cs0".to_string(), PdfColorSpace::D65Gray),
            ("cs1".to_string(), PdfColorSpace::SRGB)
        ]
    );
}

#[test]
fn names_are_the_prefix_and_the_number() {
    assert_eq!(CsResourceMapper::name_from_number(0), "cs0");
    assert_eq!(CsResourceMapper::name_from_number(9), "cs9");
    assert_eq!(CsResourceMapper::name_from_number(10), "cs10");
    assert_eq!(CsResourceMapper::name_from_number(1234567890), "cs1234567890");
    assert_eq!(CsResourceMapper::name_from_number(u32::MAX), "cs4294967295");
    assert_eq!(ExtGStateResourceMapper::name_from_number(7), "gs7");
    assert_eq!(PatternResourceMapper::name_from_number(70), "pa70");
    let mut text = "n".to_string();
    push_decimal(&mut text, 100);
    assert_eq!(text, "n100");
}

#[test]
fn graphics_states_are_told_apart_by_their_parameters() {
    let mut mapper = ExtGStateResourceMapper::new();
    let plain = ExtGState::new();
    let multiply = ExtGState::new().blend_mode(BlendMode::Multiply);
    let masked = ExtGState::new().mask(Ref::new(5));
    let faint = ExtGState::new().stroking_alpha(NormalizedF32::new(0.25).unwrap());
    assert_eq!(mapper.remap(plain), 0);
    assert_eq!(mapper.remap(multiply), 1);
    assert_eq!(mapper.remap(masked), 2);
    assert_eq!(mapper.remap(faint), 3);
    assert_eq!(mapper.remap(ExtGState::new().mask(Ref::new(6))), 4);
    assert_eq!(
        mapper.remap(ExtGState::new().non_stroking_alpha(NormalizedF32::new(0.25).unwrap())),
        5
    );
    assert_eq!(mapper.remap(multiply), 1);
    assert_eq!(
        mapper.remap(ExtGState::new().stroking_alpha(NormalizedF32::new(0.25).unwrap())),
        3
    );
    assert_eq!(mapper.get(masked), Some(2));
    assert_eq!(mapper.len(), 6);
}

#[test]
fn patterns_are_told_apart_by_what_they_hold() {
    let mut mapper = PatternResourceMapper::new();
    let shading = |id| PdfPattern::ShadingPattern(ShadingPattern { shading: Ref::new(id) });
    let tiling = |id, width| {
        PdfPattern::TilingPattern(TilingPattern {
            tile: Ref::new(id),
            width,
            height: 1,
        })
    };
    assert_eq!(mapper.remap_with_name(shading(1)), "pa0");
    assert_eq!(mapper.remap_with_name(tiling(1, 2)), "pa1");
    assert_eq!(mapper.remap_with_name(tiling(1, 3)), "pa2");
    assert_eq!(mapper.remap_with_name(shading(2)), "pa3");
    assert_eq!(mapper.remap_with_name(tiling(1, 2)), "pa1");
    assert_eq!(mapper.remap_with_name(shading(1)), "pa0");
}

#[test]
fn dictionary_keeps_the_kinds_apart() {
    let mut dictionary = ResourceDictionary::new();
    assert_eq!(dictionary.register_color_space(PdfColorSpace::SRGB), "cs0");
    assert_eq!(dictionary.register_ext_g_state(ExtGState::new()), "gs0");
    assert_eq!(dictionary.register_color_space(PdfColorSpace::D65Gray), "cs1");
    assert_eq!(dictionary.register_color_space(PdfColorSpace::SRGB), "cs0");
    assert_eq!(dictionary.color_spaces.len(), 2);
    assert_eq!(dictionary.ext_g_state.len(), 1);
    assert_eq!(dictionary.patterns.len(), 0);
    let mut sc = SerializerContext::new(SerializeSettings::default());
    let mut chunk = pdf_writer::Chunk::new();
    {
        let mut dict = chunk.indirect(pdf_writer::Ref::new(99)).dict();
        dictionary.to_pdf_resources(&mut sc, &mut dict);
    }
    assert_eq!(
        String::from_utf8_lossy(chunk.as_bytes()),
        "99 0 obj\n<<\n  /ColorSpace <<\n    /cs0 1 0 R\n    /cs1 2 0 R\n  >>\n  /ExtGState <<\n    /gs0 3 0 R\n  >>\n  /Pattern <<>>\n>>\nendobj\n\n"
    );
    assert_eq!(sc.peek_ref().get(), 4);
    assert_eq!(
        dictionary.color_spaces.identity_bytes(),
        b"\x00\x01cs\x00\x01cs\x01".to_vec()
    );
}
