use krilla::font::{CIDFont, Font, FontMapper, Type3Font};
use krilla::text::{
    CIDIdentifier, CoveredGlyph, Fill, FontContainer, FontIdentifier, FontMut, FontRef,
    OwnedPaintMode, PDFGlyph, PaintMode, PdfFont, Stroke, Type3Identifier,
};

const FILL: Fill = Fill {
    red: 1,
    green: 2,
    blue: 3,
    even_odd: false,
};

fn glyph(id: u32) -> CoveredGlyph<'static> {
    CoveredGlyph {
        glyph_id: id,
        paint_mode: PaintMode::Fill(&FILL),
    }
}

#[test]
fn type3_font_holds_each_glyph_once() {
    let mut font = Type3Font::new(Font { id: 9 });
    assert_eq!(font.count(), 0);
    assert!(!font.covers(5));
    assert_eq!(font.add(5), 0);
    assert_eq!(font.add(7), 1);
    assert_eq!(font.add(5), 0);
    assert_eq!(font.count(), 2);
    assert!(font.covers(7));
    assert_eq!(Type3Font::get_gid(&font, 7), Some(1));
    assert_eq!(Type3Font::get_gid(&font, 8), None);
    assert!(!font.is_full());
    assert_eq!(Type3Font::font(&font), Font { id: 9 });
    for g in 100..354u32 {
        font.add(g);
    }
    assert_eq!(font.count(), 256);
    assert!(font.is_full());
    assert_eq!(font.add(353), 255);
}

#[test]
fn mapper_opens_a_new_font_when_the_last_one_is_full() {
    let mut mapper = FontMapper::new(Font { id: 1 });
    assert_eq!(mapper.count(), 0);
    assert_eq!(mapper.add_glyph(40), (0, 0));
    assert_eq!(mapper.add_glyph(41), (0, 1));
    assert_eq!(mapper.add_glyph(40), (0, 0));
    for g in 0..254u32 {
        assert_eq!(mapper.add_glyph(1000 + g), (0, (2 + g) as u8));
    }
    assert_eq!(mapper.count(), 1);
    assert_eq!(mapper.add_glyph(5000), (1, 0));
    assert_eq!(mapper.add_glyph(5001), (1, 1));
    assert_eq!(mapper.add_glyph(41), (0, 1));
    assert_eq!(mapper.add_glyph(5000), (1, 0));
    assert_eq!(mapper.count(), 2);
    assert_eq!(mapper.font(), Font { id: 1 });
}

#[test]
fn mapper_names_its_fonts() {
    let font = Font { id: 4 };
    let mut mapper = FontMapper::new(font);
    mapper.add_glyph(3);
    assert_eq!(
        mapper.id_from_glyph(3),
        Some(FontIdentifier::Type3(Type3Identifier(font, 0)))
    );
    assert_eq!(mapper.id_from_glyph(4), None);
    let id = FontIdentifier::Type3(Type3Identifier(font, 0));
    assert_eq!(mapper.font_from_id(id).unwrap().count(), 1);
    assert!(mapper
        .font_from_id(FontIdentifier::Type3(Type3Identifier(font, 1)))
        .is_none());
    assert!(mapper
        .font_from_id(FontIdentifier::Type3(Type3Identifier(Font { id: 5 }, 0)))
        .is_none());
    assert!(mapper
        .font_from_id(FontIdentifier::Cid(CIDIdentifier(font)))
        .is_none());
    mapper.font_mut_from_id(id).unwrap().add(9);
    assert_eq!(mapper.add_glyph(9), (0, 1));
}

#[test]
fn cid_font_starts_with_the_glyph_for_what_is_missing() {
    let mut font = CIDFont::new(Font { id: 2 });
    assert_eq!(font.count(), 1);
    assert_eq!(font.get_cid(0), Some(0));
    assert_eq!(font.get_cid(30), None);
    assert_eq!(font.add_glyph(30), 1);
    assert_eq!(font.add_glyph(20), 2);
    assert_eq!(font.add_glyph(30), 1);
    assert_eq!(font.add_glyph(0), 0);
    assert_eq!(font.count(), 3);
    assert_eq!(CIDFont::get_codepoints(&font, 1), None);
    CIDFont::set_codepoints(&mut font, 1, "fi".to_string());
    assert_eq!(CIDFont::get_codepoints(&font, 1), Some("fi"));
    assert_eq!(CIDFont::get_codepoints(&font, 7), None);
}

#[test]
fn paint_mode_goes_from_lent_to_owned_and_back() {
    let stroke = Stroke {
        red: 9,
        green: 8,
        blue: 7,
        width: 1500,
    };
    let owned = PaintMode::Stroke(&stroke).to_owned();
    assert_eq!(owned, OwnedPaintMode::Stroke(stroke));
    assert_eq!(owned, OwnedPaintMode::from_stroke(stroke));
    assert_eq!(PaintMode::Fill(&FILL).to_owned(), OwnedPaintMode::from_fill(FILL));
    match owned.as_ref() {
        PaintMode::Stroke(s) => assert_eq!(*s, stroke),
        PaintMode::Fill(_) => panic!("a stroke stays a stroke"),
    }
    assert_eq!(owned.as_ref().to_owned(), owned);
}

#[test]
fn container_of_type3_fonts() {
    let font = Font { id: 3 };
    let mut container = FontContainer::Type3(FontMapper::new(font));
    assert_eq!(container.font_identifier(glyph(8)), None);
    let (id, code) = container.add_glyph(glyph(8));
    assert_eq!(id, FontIdentifier::Type3(Type3Identifier(font, 0)));
    assert_eq!(code, PDFGlyph::Type3(0));
    assert_eq!(container.add_glyph(glyph(9)).1, PDFGlyph::Type3(1));
    assert_eq!(container.add_glyph(glyph(8)).1, PDFGlyph::Type3(0));
    assert_eq!(container.font_identifier(glyph(8)), Some(id));
    match container.get_from_identifier(id) {
        Some(FontRef::Type3(found)) => {
            assert_eq!(found.count(), 2);
            assert!(found.force_fill());
            assert_eq!(PdfFont::get_gid(found, glyph(9)), Some(PDFGlyph::Type3(1)));
            assert_eq!(PdfFont::get_gid(found, glyph(10)), None);
        }
        _ => panic!("the font is a Type 3 font"),
    }
    assert!(container
        .get_from_identifier(FontIdentifier::Cid(CIDIdentifier(font)))
        .is_none());
    match container.get_from_identifier_mut(id) {
        Some(FontMut::Type3(found)) => {
            PdfFont::set_codepoints(&mut *found, PDFGlyph::Type3(1), "x".to_string(), None);
            assert_eq!(PdfFont::get_codepoints(&*found, PDFGlyph::Type3(1)), Some("x"));
            assert_eq!(PdfFont::get_codepoints(&*found, PDFGlyph::Type3(0)), None);
            assert_eq!(PdfFont::font(&*found), font);
        }
        _ => panic!("the font is a Type 3 font"),
    }
}

#[test]
fn container_of_a_cid_font() {
    let font = Font { id: 6 };
    let mut container = FontContainer::CIDFont(CIDFont::new(font));
    let id = FontIdentifier::Cid(CIDIdentifier(font));
    assert_eq!(container.font_identifier(glyph(0)), Some(id));
    assert_eq!(container.font_identifier(glyph(12)), None);
    assert_eq!(container.add_glyph(glyph(12)), (id, PDFGlyph::Cid(1)));
    assert_eq!(container.add_glyph(glyph(12)), (id, PDFGlyph::Cid(1)));
    assert_eq!(container.font_identifier(glyph(12)), Some(id));
    match container.get_from_identifier(id) {
        Some(FontRef::Cid(found)) => {
            assert_eq!(found.count(), 2);
            assert!(!found.force_fill());
            assert_eq!(PdfFont::get_gid(found, glyph(12)), Some(PDFGlyph::Cid(1)));
        }
        _ => panic!("the font is a CID font"),
    }
    assert!(container
        .get_from_identifier(FontIdentifier::Cid(CIDIdentifier(Font { id: 7 })))
        .is_none());
    assert!(container
        .get_from_identifier_mut(FontIdentifier::Type3(Type3Identifier(font, 0)))
        .is_none());
    match container.get_from_identifier_mut(id) {
        Some(FontMut::Cid(found)) => {
            PdfFont::set_codepoints(&mut *found, PDFGlyph::Cid(1), "ab".to_string(), Some(3));
            assert_eq!(PdfFont::get_codepoints(&*found, PDFGlyph::Cid(1)), Some("ab"));
        }
        _ => panic!("the font is a CID font"),
    }
}

#[test]
fn fonts_answer_alike_through_the_common_interface() {
    let mut t3 = Type3Font::new(Font { id: 4 });
    t3.add(10);
    t3.add(11);
    assert_eq!(PdfFont::font(&t3), Font { id: 4 });
    assert!(PdfFont::force_fill(&t3));
    assert_eq!(PdfFont::get_gid(&t3, glyph(11)), Some(PDFGlyph::Type3(1)));
    assert_eq!(PdfFont::get_gid(&t3, glyph(12)), None);
    assert_eq!(PdfFont::get_codepoints(&t3, PDFGlyph::Type3(1)), None);
    PdfFont::set_codepoints(&mut t3, PDFGlyph::Type3(1), String::from("b"), None);
    assert_eq!(PdfFont::get_codepoints(&t3, PDFGlyph::Type3(1)), Some("b"));
    assert_eq!(PdfFont::get_codepoints(&t3, PDFGlyph::Type3(0)), None);
    assert_eq!(PdfFont::get_gid(&t3, glyph(10)), Some(PDFGlyph::Type3(0)));
    assert_eq!(PdfFont::font(&t3), Font { id: 4 });

    let mut cid = CIDFont::new(Font { id: 5 });
    cid.add_glyph(20);
    assert_eq!(PdfFont::font(&cid), Font { id: 5 });
    assert!(!PdfFont::force_fill(&cid));
    assert_eq!(PdfFont::get_gid(&cid, glyph(0)), Some(PDFGlyph::Cid(0)));
    assert_eq!(PdfFont::get_gid(&cid, glyph(20)), Some(PDFGlyph::Cid(1)));
    assert_eq!(PdfFont::get_gid(&cid, glyph(21)), None);
    PdfFont::set_codepoints(&mut cid, PDFGlyph::Cid(1), String::from("c"), Some(7));
    assert_eq!(PdfFont::get_codepoints(&cid, PDFGlyph::Cid(1)), Some("c"));
    assert_eq!(PdfFont::get_codepoints(&cid, PDFGlyph::Cid(0)), None);
}
