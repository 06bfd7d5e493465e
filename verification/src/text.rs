//! Text: the fonts of the document that hold the glyphs of a font, and how
//! a glyph is painted.
use vstd::prelude::*;
use crate::font::{CIDFont, Font, FontMapper, GlyphId, Type3Font, CID_GLYPHS, TYPE3_GLYPHS};

verus! {

/// How the inside of a shape is painted.
#[derive(Debug, Clone, Copy, PartialEq, Eq, Hash, Structural)]
pub struct Fill {
    /// The red of the color.
    pub red: u8,
    /// The green of the color.
    pub green: u8,
    /// The blue of the color.
    pub blue: u8,
    /// Whether the inside of a shape is told by the even-odd rule.
    pub even_odd: bool,
}

/// How the outline of a shape is painted.
#[derive(Debug, Clone, Copy, PartialEq, Eq, Hash, Structural)]
pub struct Stroke {
    /// The red of the color.
    pub red: u8,
    /// The green of the color.
    pub green: u8,
    /// The blue of the color.
    pub blue: u8,
    /// The width of the line, in thousandths of a unit.
    pub width: u32,
}

/// Whether a glyph is filled or stroked, and how. A Type 3 font keeps the
/// two apart, since it holds the painted outline of a glyph.
#[derive(Debug, Clone, Copy)]
pub enum PaintMode<'a> {
    /// The glyph is filled.
    Fill(&'a Fill),
    /// The glyph is stroked.
    Stroke(&'a Stroke),
}

/// A paint mode that holds its fill or stroke itself.
#[derive(Debug, Clone, Copy, PartialEq, Eq, Hash, Structural)]
pub enum OwnedPaintMode {
    /// The glyph is filled.
    Fill(Fill),
    /// The glyph is stroked.
    Stroke(Stroke),
}

impl<'a> PaintMode<'a> {
    /// The paint mode with a fill or stroke of its own.
    pub open spec fn owned(self) -> OwnedPaintMode {
        match self {
            PaintMode::Fill(f) => OwnedPaintMode::Fill(*f),
            PaintMode::Stroke(s) => OwnedPaintMode::Stroke(*s),
        }
    }

    /// The paint mode with a fill or stroke of its own.
    pub fn to_owned(self) -> (owned: OwnedPaintMode)
        ensures
            owned == self.owned(),
    {
        match self {
            PaintMode::Fill(f) => OwnedPaintMode::Fill(*f),
            PaintMode::Stroke(s) => OwnedPaintMode::Stroke(*s),
        }
    }
}

impl OwnedPaintMode {
    /// The paint mode that filling with `value` is.
    pub fn from_fill(value: Fill) -> (mode: OwnedPaintMode)
        ensures
            mode == OwnedPaintMode::Fill(value),
    {
        OwnedPaintMode::Fill(value)
    }

    /// The paint mode that stroking with `value` is.
    pub fn from_stroke(value: Stroke) -> (mode: OwnedPaintMode)
        ensures
            mode == OwnedPaintMode::Stroke(value),
    {
        OwnedPaintMode::Stroke(value)
    }

    /// The paint mode, with its fill or stroke lent.
    pub fn as_ref(&self) -> (mode: PaintMode<'_>)
        ensures
            mode.owned() == *self,
    {
        match self {
            OwnedPaintMode::Fill(f) => PaintMode::Fill(f),
            OwnedPaintMode::Stroke(s) => PaintMode::Stroke(s),
        }
    }
}

/// The name of a CID font of the document: the font that it is made of.
#[derive(Clone, Copy, Debug, Hash, Eq, PartialEq, Structural)]
pub struct CIDIdentifier(pub Font);

/// The name of a Type 3 font of the document: the font that it is made of
/// and its number among the Type 3 fonts made of that font.
#[derive(Clone, Copy, Debug, Hash, Eq, PartialEq, Structural)]
pub struct Type3Identifier(pub Font, pub usize);

/// The name of a font of the document.
#[derive(Clone, Copy, Debug, Hash, Eq, PartialEq, Structural)]
pub enum FontIdentifier {
    /// A CID font.
    Cid(CIDIdentifier),
    /// A Type 3 font.
    Type3(Type3Identifier),
}

/// The code by which text refers to a glyph in a font of the document.
#[derive(Clone, Copy, Debug, Hash, Eq, PartialEq, Structural)]
pub enum PDFGlyph {
    /// A glyph of a Type 3 font, as the serializer context hands it out.
    ColorGlyph(u8),
    /// A glyph of a Type 3 font.
    Type3(u8),
    /// A glyph of a CID font.
    Cid(u16),
}

/// A glyph as text uses it: its number in the font, and how it is painted.
#[derive(Debug, Clone, Copy)]
pub struct CoveredGlyph<'a> {
    /// The number of the glyph in its font.
    pub glyph_id: GlyphId,
    /// How the glyph is painted.
    pub paint_mode: PaintMode<'a>,
}

/// A font of the document, lent.
#[derive(Debug, Clone, Copy)]
pub enum FontRef<'a> {
    /// A Type 3 font.
    Type3(&'a Type3Font),
    /// A CID font.
    Cid(&'a CIDFont),
}

/// A font of the document, lent to be changed.
#[derive(Debug)]
pub enum FontMut<'a> {
    /// A Type 3 font.
    Type3(&'a mut Type3Font),
    /// A CID font.
    Cid(&'a mut CIDFont),
}

/// The fonts of the document that hold the glyphs of one font.
#[derive(Debug)]
pub enum FontContainer {
    /// Type 3 fonts, as many as it takes.
    Type3(FontMapper),
    /// One CID font.
    CIDFont(CIDFont),
}

impl FontContainer {
    /// The fonts are well formed.
    pub open spec fn wf(&self) -> bool {
        match self {
            FontContainer::Type3(t3) => t3.wf(),
            FontContainer::CIDFont(cid) => cid.wf(),
        }
    }

    /// The name of the font of the document that holds the glyph, if one does.
    pub fn font_identifier(&self, glyph: CoveredGlyph<'_>) -> (id: Option<FontIdentifier>)
        requires
            self.wf(),
        ensures
            match self {
                FontContainer::Type3(t3) => match crate::font::first_cover(t3@, glyph.glyph_id) {
                    Some(i) => id == Some(
                        FontIdentifier::Type3(Type3Identifier(t3.source(), i as usize)),
                    ),
                    None => id is None,
                },
                FontContainer::CIDFont(cid) => if cid@.contains(glyph.glyph_id) {
                    id == Some(FontIdentifier::Cid(CIDIdentifier(cid.source())))
                } else {
                    id is None
                },
            },
    {
        match self {
            FontContainer::Type3(t3) => t3.id_from_glyph(glyph.glyph_id),
            FontContainer::CIDFont(cid) => match cid.get_cid(glyph.glyph_id) {
                Some(_) => Some(FontIdentifier::Cid(CIDIdentifier(cid.font()))),
                None => None,
            },
        }
    }

    /// The font of the document with the given name, if it is one of these.
    pub fn get_from_identifier(&self, font_identifier: FontIdentifier) -> (font: Option<FontRef<'_>>)
        ensures
            match self {
                FontContainer::Type3(t3) => match font_identifier {
                    FontIdentifier::Type3(Type3Identifier(source, i)) => if source == t3.source()
                        && i < t3@.len() {
                        font matches Some(FontRef::Type3(found)) && found@ == t3@[i as int]
                    } else {
                        font is None
                    },
                    FontIdentifier::Cid(_) => font is None,
                },
                FontContainer::CIDFont(cid) => if font_identifier == FontIdentifier::Cid(
                    CIDIdentifier(cid.source()),
                ) {
                    font matches Some(FontRef::Cid(found)) && found@ == cid@
                } else {
                    font is None
                },
            },
    {
        match self {
            FontContainer::Type3(t3) => match t3.font_from_id(font_identifier) {
                Some(t3_font) => Some(FontRef::Type3(t3_font)),
                None => None,
            },
            FontContainer::CIDFont(cid) => {
                if FontIdentifier::Cid(CIDIdentifier(cid.font())) == font_identifier {
                    Some(FontRef::Cid(cid))
                } else {
                    None
                }
            },
        }
    }

    /// The font of the document with the given name, to be changed, if it
    /// is one of these.
    pub fn get_from_identifier_mut(&mut self, font_identifier: FontIdentifier) -> (font: Option<
        FontMut<'_>,
    >)
        ensures
            match *old(self) {
                FontContainer::Type3(t3) => match font_identifier {
                    FontIdentifier::Type3(Type3Identifier(source, i)) => (source == t3.source()
                        && i < t3.font_count()) == font is Some,
                    FontIdentifier::Cid(_) => font is None,
                },
                FontContainer::CIDFont(cid) => (font_identifier == FontIdentifier::Cid(
                    CIDIdentifier(cid.source()),
                )) == font is Some,
            },
            match font {
                Some(FontMut::Type3(found)) => {
                    &&& *old(self) matches FontContainer::Type3(before)
                    &&& *final(self) matches FontContainer::Type3(after)
                    &&& font_identifier matches FontIdentifier::Type3(Type3Identifier(_, i))
                    &&& *found == before.font_at(i as int)
                    &&& after.font_at(i as int) == *final(found)
                    &&& after.source() == before.source()
                    &&& after.font_count() == before.font_count()
                    &&& forall|j: int|
                        0 <= j < before.font_count() && j != i ==> after.font_at(j)
                            == before.font_at(j)
                },
                Some(FontMut::Cid(found)) => {
                    &&& *old(self) matches FontContainer::CIDFont(before)
                    &&& *final(self) matches FontContainer::CIDFont(after)
                    &&& *found == before
                    &&& after == *final(found)
                },
                None => *final(self) == *old(self),
            },
    {
        match self {
            FontContainer::Type3(t3) => match t3.font_mut_from_id(font_identifier) {
                Some(t3_font) => Some(FontMut::Type3(t3_font)),
                None => None,
            },
            FontContainer::CIDFont(cid) => {
                if FontIdentifier::Cid(CIDIdentifier(cid.font())) == font_identifier {
                    Some(FontMut::Cid(cid))
                } else {
                    None
                }
            },
        }
    }

    /// Finds the glyph a place in a font of the document, and returns the
    /// name of the font and the code of the glyph in it.
    pub fn add_glyph(&mut self, glyph: CoveredGlyph<'_>) -> (place: (FontIdentifier, PDFGlyph))
        requires
            old(self).wf(),
            *old(self) matches FontContainer::CIDFont(cid) ==> cid@.contains(glyph.glyph_id)
                || cid@.len() < CID_GLYPHS,
        ensures
            final(self).wf(),
            match (*old(self), *final(self)) {
                (FontContainer::Type3(before), FontContainer::Type3(after)) => {
                    &&& place.0 matches FontIdentifier::Type3(Type3Identifier(source, i))
                    &&& place.1 matches PDFGlyph::Type3(gid)
                    &&& source == before.source()
                    &&& i < after@.len()
                    &&& gid < after@[i as int].len()
                    &&& after@[i as int][gid as int] == glyph.glyph_id
                },
                (FontContainer::CIDFont(before), FontContainer::CIDFont(after)) => {
                    &&& place.0 == FontIdentifier::Cid(CIDIdentifier(before.source()))
                    &&& place.1 matches PDFGlyph::Cid(cid)
                    &&& cid < after@.len()
                    &&& after@[cid as int] == glyph.glyph_id
                },
                _ => false,
            },
    {
        match self {
            FontContainer::Type3(t3) => {
                let source = t3.font();
                let (index, gid) = t3.add_glyph(glyph.glyph_id);
                (FontIdentifier::Type3(Type3Identifier(source, index)), PDFGlyph::Type3(gid))
            },
            FontContainer::CIDFont(cid_font) => {
                let cid = cid_font.add_glyph(glyph.glyph_id);
                (FontIdentifier::Cid(CIDIdentifier(cid_font.font())), PDFGlyph::Cid(cid))
            },
        }
    }
}

/// What the serializer asks of a font of the document.
pub trait PdfFont {
    /// The font is well formed.
    spec fn usable(&self) -> bool;

    /// Whether the code is one of this kind of font and of a glyph that
    /// the font holds.
    spec fn accepts(&self, pdf_glyph: PDFGlyph) -> bool;

    /// The font that the glyphs come from.
    spec fn origin(&self) -> Font;

    /// The glyph that a code stands for, where the font accepts the code.
    spec fn glyph_of(&self, pdf_glyph: PDFGlyph) -> GlyphId;

    /// The text that the glyph with the given code stands for, as far as
    /// it is known.
    spec fn text_of(&self, pdf_glyph: PDFGlyph) -> Option<Seq<char>>;

    /// Whether the glyphs of the font are filled whatever the text asks
    /// for.
    spec fn filled(&self) -> bool;

    /// The font that the glyphs come from.
    fn font(&self) -> (font: Font)
        ensures
            font == self.origin(),
    ;

    /// The text that the glyph with the given code stands for, if it is known.
    fn get_codepoints(&self, pdf_glyph: PDFGlyph) -> (text: Option<&str>)
        requires
            self.usable(),
            self.accepts(pdf_glyph),
        ensures
            match text {
                Some(t) => self.text_of(pdf_glyph) == Some(t@),
                None => self.text_of(pdf_glyph) is None,
            },
    ;

    /// Sets the text that the glyph with the given code stands for. The
    /// glyphs and their codes stay, and so does the text of every other
    /// glyph.
    fn set_codepoints(&mut self, pdf_glyph: PDFGlyph, text: String, location: Option<u64>)
        requires
            old(self).usable(),
            old(self).accepts(pdf_glyph),
        ensures
            final(self).usable(),
            final(self).origin() == old(self).origin(),
            final(self).filled() == old(self).filled(),
            forall|c: PDFGlyph| #[trigger] final(self).accepts(c) == old(self).accepts(c),
            forall|c: PDFGlyph| #[trigger]
                final(self).glyph_of(c) == old(self).glyph_of(c),
            forall|c: PDFGlyph| #[trigger]
                final(self).text_of(c) == if c == pdf_glyph {
                    Some(text@)
                } else {
                    old(self).text_of(c)
                },
    ;

    /// The code of a glyph, if the font holds it.
    fn get_gid(&self, glyph: CoveredGlyph<'_>) -> (code: Option<PDFGlyph>)
        requires
            self.usable(),
        ensures
            match code {
                Some(c) => self.accepts(c) && self.glyph_of(c) == glyph.glyph_id,
                None => forall|c: PDFGlyph| #[trigger]
                    self.accepts(c) ==> self.glyph_of(c) != glyph.glyph_id,
            },
    ;

    /// Whether the glyphs of the font are filled whatever the text asks
    /// for.
    fn force_fill(&self) -> (always: bool)
        ensures
            always == self.filled(),
    ;
}

impl PdfFont for Type3Font {
    open spec fn usable(&self) -> bool {
        self.wf()
    }

    open spec fn accepts(&self, pdf_glyph: PDFGlyph) -> bool {
        pdf_glyph matches PDFGlyph::Type3(place) && place < self@.len()
    }

    open spec fn origin(&self) -> Font {
        self.source()
    }

    open spec fn glyph_of(&self, pdf_glyph: PDFGlyph) -> GlyphId {
        match pdf_glyph {
            PDFGlyph::Type3(place) => self@[place as int],
            _ => 0,
        }
    }

    open spec fn text_of(&self, pdf_glyph: PDFGlyph) -> Option<Seq<char>> {
        match pdf_glyph {
            PDFGlyph::Type3(place) if place < self@.len() => match self.texts()[place as int] {
                Some(text) => Some(text@),
                None => None,
            },
            _ => None,
        }
    }

    open spec fn filled(&self) -> bool {
        true
    }

    fn font(&self) -> (font: Font) {
        Type3Font::font(self)
    }

    fn get_codepoints(&self, pdf_glyph: PDFGlyph) -> (text: Option<&str>) {
        match pdf_glyph {
            PDFGlyph::Type3(t3) => Type3Font::get_codepoints(self, t3),
            _ => None,
        }
    }

    fn set_codepoints(&mut self, pdf_glyph: PDFGlyph, text: String, location: Option<u64>) {
        match pdf_glyph {
            PDFGlyph::Type3(t3) => Type3Font::set_codepoints(self, t3, text),
            _ => {},
        }
    }

    fn get_gid(&self, glyph: CoveredGlyph<'_>) -> (code: Option<PDFGlyph>) {
        match Type3Font::get_gid(self, glyph.glyph_id) {
            Some(place) => Some(PDFGlyph::Type3(place)),
            None => {
                assert forall|c: PDFGlyph| #[trigger] self.accepts(c) implies self.glyph_of(c)
                    != glyph.glyph_id by {
                    assert(self@.contains(self.glyph_of(c)));
                }
                None
            },
        }
    }

    fn force_fill(&self) -> (always: bool) {
        true
    }
}

impl PdfFont for CIDFont {
    open spec fn usable(&self) -> bool {
        self.wf()
    }

    open spec fn accepts(&self, pdf_glyph: PDFGlyph) -> bool {
        pdf_glyph matches PDFGlyph::Cid(place) && place < self@.len()
    }

    open spec fn origin(&self) -> Font {
        self.source()
    }

    open spec fn glyph_of(&self, pdf_glyph: PDFGlyph) -> GlyphId {
        match pdf_glyph {
            PDFGlyph::Cid(place) => self@[place as int],
            _ => 0,
        }
    }

    open spec fn text_of(&self, pdf_glyph: PDFGlyph) -> Option<Seq<char>> {
        match pdf_glyph {
            PDFGlyph::Cid(place) if place < self@.len() => match self.texts()[place as int] {
                Some(text) => Some(text@),
                None => None,
            },
            _ => None,
        }
    }

    open spec fn filled(&self) -> bool {
        false
    }

    fn font(&self) -> (font: Font) {
        CIDFont::font(self)
    }

    fn get_codepoints(&self, pdf_glyph: PDFGlyph) -> (text: Option<&str>) {
        match pdf_glyph {
            PDFGlyph::Cid(cid) => CIDFont::get_codepoints(self, cid),
            _ => None,
        }
    }

    fn set_codepoints(&mut self, pdf_glyph: PDFGlyph, text: String, location: Option<u64>) {
        match pdf_glyph {
            PDFGlyph::Cid(cid) => CIDFont::set_codepoints(self, cid, text),
            _ => {},
        }
    }

    fn get_gid(&self, glyph: CoveredGlyph<'_>) -> (code: Option<PDFGlyph>) {
        match CIDFont::get_cid(self, glyph.glyph_id) {
            Some(place) => Some(PDFGlyph::Cid(place)),
            None => {
                assert forall|c: PDFGlyph| #[trigger] self.accepts(c) implies self.glyph_of(c)
                    != glyph.glyph_id by {
                    assert(self@.contains(self.glyph_of(c)));
                }
                None
            },
        }
    }

    fn force_fill(&self) -> (always: bool) {
        false
    }
}

} // verus!
