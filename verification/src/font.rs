//! Fonts, as far as the serializer keeps track of them: which glyphs of a
//! font are in use, and which font of the document holds each of them.
use vstd::prelude::*;
use crate::text::{FontIdentifier, Type3Identifier};

verus! {

/// The number of a glyph in its font.
pub type GlyphId = u32;

/// The number of glyphs that a Type 3 font can hold.
pub const TYPE3_GLYPHS: usize = 256;

/// A font, known by a number that tells it from every other font.
#[derive(Debug, Clone, Copy, PartialEq, Eq, Hash, Structural)]
pub struct Font {
    /// The number of the font.
    pub id: u64,
}

/// A Type 3 font of the document: the glyphs of one font that it holds,
/// each once, in the order in which they were added. The place of a glyph
/// is the code by which text refers to it.
#[derive(Debug)]
pub struct Type3Font {
    font: Font,
    glyphs: Vec<GlyphId>,
    codepoints: Vec<Option<String>>,
}

impl View for Type3Font {
    type V = Seq<GlyphId>;

    closed spec fn view(&self) -> Seq<GlyphId> {
        self.glyphs@
    }
}

impl Type3Font {
    /// The font holds no glyph twice, and no more glyphs than it can.
    pub open spec fn wf(&self) -> bool {
        self@.no_duplicates() && self@.len() <= TYPE3_GLYPHS && self.texts().len() == self@.len()
    }

    /// The font that the glyphs come from.
    pub closed spec fn source(&self) -> Font {
        self.font
    }

    /// The text that each glyph stands for, as far as it is known.
    pub closed spec fn texts(&self) -> Seq<Option<String>> {
        self.codepoints@
    }

    /// A font without glyphs.
    pub fn new(font: Font) -> (t3: Type3Font)
        ensures
            t3@ == Seq::<GlyphId>::empty(),
            t3.source() == font,
            t3.wf(),
    {
        Type3Font { font, glyphs: Vec::new(), codepoints: Vec::new() }
    }

    /// The text that the glyph at the given place stands for, if it is known.
    pub fn get_codepoints(&self, place: u8) -> (text: Option<&str>)
        requires
            self.wf(),
        ensures
            match text {
                Some(t) => place < self@.len() && (self.texts()[place as int] matches Some(s) && s@
                    == t@),
                None => place >= self@.len() || self.texts()[place as int] is None,
            },
    {
        if (place as usize) < self.codepoints.len() {
            match &self.codepoints[place as usize] {
                Some(text) => Some(text.as_str()),
                None => None,
            }
        } else {
            None
        }
    }

    /// Sets the text that the glyph at the given place stands for.
    pub fn set_codepoints(&mut self, place: u8, text: String)
        requires
            old(self).wf(),
            place < old(self)@.len(),
        ensures
            final(self).wf(),
            final(self)@ == old(self)@,
            final(self).source() == old(self).source(),
            final(self).texts() == old(self).texts().update(place as int, Some(text)),
    {
        self.codepoints.set(place as usize, Some(text));
    }

    /// The font that the glyphs come from.
    pub fn font(&self) -> (font: Font)
        ensures
            font == self.source(),
    {
        self.font
    }

    /// The number of glyphs held.
    pub fn count(&self) -> (n: usize)
        ensures
            n == self@.len(),
    {
        self.glyphs.len()
    }

    /// The place of a glyph among those held.
    pub fn get_gid(&self, glyph: GlyphId) -> (place: Option<u8>)
        requires
            self.wf(),
        ensures
            match place {
                Some(i) => i < self@.len() && self@[i as int] == glyph,
                None => !self@.contains(glyph),
            },
    {
        let mut i: usize = 0;
        while i < self.glyphs.len()
            invariant
                i <= self.glyphs@.len(),
                self.glyphs@.len() <= TYPE3_GLYPHS,
                forall|j: int| 0 <= j < i ==> self.glyphs@[j] != glyph,
            decreases self.glyphs@.len() - i,
        {
            if self.glyphs[i] == glyph {
                return Some(i as u8);
            }
            i += 1;
        }
        None
    }

    /// Whether the font holds the glyph.
    pub fn covers(&self, glyph: GlyphId) -> (b: bool)
        requires
            self.wf(),
        ensures
            b == self@.contains(glyph),
    {
        self.get_gid(glyph).is_some()
    }

    /// Whether the font holds as many glyphs as it can.
    pub fn is_full(&self) -> (b: bool)
        ensures
            b == (self@.len() >= TYPE3_GLYPHS),
    {
        self.glyphs.len() >= TYPE3_GLYPHS
    }

    /// Adds a glyph, unless the font holds it, and returns its place.
    pub fn add(&mut self, glyph: GlyphId) -> (place: u8)
        requires
            old(self).wf(),
            old(self)@.contains(glyph) || old(self)@.len() < TYPE3_GLYPHS,
        ensures
            final(self).wf(),
            final(self).source() == old(self).source(),
            place < final(self)@.len(),
            final(self)@[place as int] == glyph,
            old(self)@.contains(glyph) ==> final(self)@ == old(self)@ && final(self).texts() == old(
                self,
            ).texts(),
            !old(self)@.contains(glyph) ==> final(self)@ == old(self)@.push(glyph) && place == old(
                self,
            )@.len() && final(self).texts() == old(self).texts().push(None),
    {
        match self.get_gid(glyph) {
            Some(place) => place,
            None => {
                let place = self.glyphs.len();
                self.glyphs.push(glyph);
                self.codepoints.push(None);
                assert forall|i: int, j: int|
                    0 <= i < self@.len() && 0 <= j < self@.len() && i != j implies self@[i]
                    != self@[j] by {
                    if i < place && j < place {
                        assert(old(self)@[i] != old(self)@[j]);
                    } else if i < place {
                        assert(old(self)@.contains(old(self)@[i]));
                    } else {
                        assert(old(self)@.contains(old(self)@[j]));
                    }
                }
                place as u8
            },
        }
    }
}

/// The Type 3 fonts that the document makes of one font: as many as it
/// takes to hold every glyph in use.
#[derive(Debug)]
pub struct FontMapper {
    font: Font,
    fonts: Vec<Type3Font>,
}

impl View for FontMapper {
    type V = Seq<Seq<GlyphId>>;

    closed spec fn view(&self) -> Seq<Seq<GlyphId>> {
        Seq::new(self.fonts@.len(), |i: int| self.fonts@[i]@)
    }
}

/// The first font of a list that holds the glyph.
pub open spec fn first_cover(fonts: Seq<Seq<GlyphId>>, glyph: GlyphId) -> Option<int>
    decreases fonts.len(),
{
    if fonts.len() == 0 {
        None
    } else {
        match first_cover(fonts.drop_last(), glyph) {
            Some(i) => Some(i),
            None => if fonts.last().contains(glyph) {
                Some(fonts.len() - 1)
            } else {
                None
            },
        }
    }
}

/// The first font that holds a glyph is a font of the list and holds the
/// glyph, and no font before it does; and where there is none, no font of
/// the list holds the glyph.
pub proof fn lemma_first_cover(fonts: Seq<Seq<GlyphId>>, glyph: GlyphId)
    ensures
        match first_cover(fonts, glyph) {
            Some(i) => 0 <= i < fonts.len() && fonts[i].contains(glyph) && forall|j: int|
                0 <= j < i ==> !(#[trigger] fonts[j]).contains(glyph),
            None => forall|j: int| 0 <= j < fonts.len() ==> !(#[trigger] fonts[j]).contains(glyph),
        },
    decreases fonts.len(),
{
    if fonts.len() > 0 {
        lemma_first_cover(fonts.drop_last(), glyph);
        match first_cover(fonts.drop_last(), glyph) {
            Some(i) => {
                assert(fonts.drop_last()[i] == fonts[i]);
                assert forall|j: int| 0 <= j < i implies !(#[trigger] fonts[j]).contains(glyph) by {
                    assert(fonts.drop_last()[j] == fonts[j]);
                }
            },
            None => {
                assert forall|j: int| 0 <= j < fonts.len() - 1 implies !(#[trigger] fonts[j]).contains(
                    glyph,
                ) by {
                    assert(fonts.drop_last()[j] == fonts[j]);
                }
            },
        }
    }
}

impl FontMapper {
    /// Every font of the mapper is well formed.
    pub open spec fn wf(&self) -> bool {
        forall|i: int| 0 <= i < self.font_count() ==> (#[trigger] self.font_at(i)).wf()
    }

    /// The font that the glyphs come from.
    pub closed spec fn source(&self) -> Font {
        self.font
    }

    /// No font of a well-formed mapper holds a glyph twice, nor more
    /// glyphs than a font can hold: a glyph has one place in a font.
    pub proof fn lemma_each_glyph_once(&self)
        requires
            self.wf(),
        ensures
            forall|i: int|
                0 <= i < self@.len() ==> (#[trigger] self@[i]).no_duplicates() && self@[i].len()
                    <= TYPE3_GLYPHS,
    {
        assert forall|i: int| 0 <= i < self@.len() implies (#[trigger] self@[i]).no_duplicates()
            && self@[i].len() <= TYPE3_GLYPHS by {
            assert(self.font_at(i).wf());
            assert(self@[i] == self.font_at(i)@);
        }
    }

    /// A mapper without fonts.
    pub fn new(font: Font) -> (mapper: FontMapper)
        ensures
            mapper@ == Seq::<Seq<GlyphId>>::empty(),
            mapper.source() == font,
            mapper.wf(),
    {
        let mapper = FontMapper { font, fonts: Vec::new() };
        assert(mapper@ =~= Seq::<Seq<GlyphId>>::empty());
        mapper
    }

    /// The font that the glyphs come from.
    pub fn font(&self) -> (font: Font)
        ensures
            font == self.source(),
    {
        self.font
    }

    /// The number of fonts.
    pub fn count(&self) -> (n: usize)
        ensures
            n == self@.len(),
    {
        self.fonts.len()
    }

    /// The first font that holds the glyph.
    fn position(&self, glyph: GlyphId) -> (place: Option<usize>)
        requires
            self.wf(),
        ensures
            match place {
                Some(i) => first_cover(self@, glyph) == Some(i as int),
                None => first_cover(self@, glyph) is None,
            },
    {
        let mut i: usize = 0;
        assert(self@.take(0) =~= Seq::empty());
        while i < self.fonts.len()
            invariant
                i <= self.fonts@.len(),
                self@.len() == self.fonts@.len(),
                self.wf(),
                first_cover(self@.take(i as int), glyph) is None,
            decreases self.fonts@.len() - i,
        {
            assert(self@.take(i + 1).drop_last() =~= self@.take(i as int));
            assert(self@.take(i + 1).last() == self.fonts@[i as int]@);
            assert(self@[i as int] == self.fonts@[i as int]@);
            assert(self.font_at(i as int).wf());
            if self.fonts[i].covers(glyph) {
                proof {
                    lemma_first_cover_stays(self@, glyph, i + 1);
                }
                return Some(i);
            }
            i += 1;
        }
        assert(self@.take(i as int) =~= self@);
        None
    }

    /// The name of the font that holds the glyph, if one does: the first
    /// such font.
    pub fn id_from_glyph(&self, glyph: GlyphId) -> (id: Option<FontIdentifier>)
        requires
            self.wf(),
        ensures
            match first_cover(self@, glyph) {
                Some(i) => id == Some(
                    FontIdentifier::Type3(Type3Identifier(self.source(), i as usize)),
                ),
                None => id is None,
            },
    {
        match self.position(glyph) {
            Some(index) => Some(FontIdentifier::Type3(Type3Identifier(self.font, index))),
            None => None,
        }
    }

    /// The font with the given name, if it is one of this mapper.
    pub fn font_from_id(&self, id: FontIdentifier) -> (font: Option<&Type3Font>)
        ensures
            match id {
                FontIdentifier::Type3(Type3Identifier(source, i)) => if source == self.source()
                    && i < self@.len() {
                    font matches Some(found) && found@ == self@[i as int]
                } else {
                    font is None
                },
                FontIdentifier::Cid(_) => font is None,
            },
    {
        match id {
            FontIdentifier::Type3(Type3Identifier(source, index)) => {
                if source == self.font && index < self.fonts.len() {
                    assert(self@[index as int] == self.fonts@[index as int]@);
                    Some(&self.fonts[index])
                } else {
                    None
                }
            },
            FontIdentifier::Cid(_) => None,
        }
    }

    /// The Type 3 font with the given number.
    pub closed spec fn font_at(&self, i: int) -> Type3Font {
        self.fonts@[i]
    }

    /// The number of Type 3 fonts.
    pub closed spec fn font_count(&self) -> nat {
        self.fonts@.len()
    }

    /// The font with the given name, to be changed, if it is one of this
    /// mapper. What is done to the font is done to the font of the mapper;
    /// the other fonts stay as they are.
    pub fn font_mut_from_id(&mut self, id: FontIdentifier) -> (font: Option<&mut Type3Font>)
        ensures
            match id {
                FontIdentifier::Type3(Type3Identifier(source, i)) => (source == old(self).source()
                    && i < old(self).font_count()) == font is Some,
                FontIdentifier::Cid(_) => font is None,
            },
            final(self).source() == old(self).source(),
            final(self).font_count() == old(self).font_count(),
            match font {
                Some(found) => id matches FontIdentifier::Type3(Type3Identifier(_, i)) && *found
                    == old(self).font_at(i as int) && final(self).font_at(i as int) == *final(found)
                    && forall|j: int|
                    0 <= j < old(self).font_count() && j != i ==> final(self).font_at(j) == old(
                        self,
                    ).font_at(j),
                None => *final(self) == *old(self),
            },
    {
        match id {
            FontIdentifier::Type3(Type3Identifier(source, index)) => {
                if source == self.font && index < self.fonts.len() {
                    Some(&mut self.fonts[index])
                } else {
                    None
                }
            },
            FontIdentifier::Cid(_) => None,
        }
    }

    /// Finds the glyph a place in a font of the document and returns the
    /// number of the font and the place of the glyph in it. A glyph that a
    /// font holds stays where it is, in the first font that holds it. Any
    /// other glyph goes into the last font or, where there is no font yet
    /// or the last one is full, into a new font behind it.
    pub fn add_glyph(&mut self, glyph_id: GlyphId) -> (place: (usize, u8))
        requires
            old(self).wf(),
        ensures
            final(self).wf(),
            final(self).source() == old(self).source(),
            place.0 < final(self)@.len(),
            place.1 < final(self)@[place.0 as int].len(),
            final(self)@[place.0 as int][place.1 as int] == glyph_id,
            forall|i: int|
                0 <= i < final(self)@.len() ==> (#[trigger] final(self)@[i]).no_duplicates(),
            match first_cover(old(self)@, glyph_id) {
                Some(i) => final(self)@ == old(self)@ && place.0 == i,
                None => if old(self)@.len() > 0 && old(self)@.last().len() < TYPE3_GLYPHS {
                    &&& final(self)@ == old(self)@.update(
                        old(self)@.len() - 1,
                        old(self)@.last().push(glyph_id),
                    )
                    &&& place.0 == old(self)@.len() - 1
                    &&& place.1 == old(self)@.last().len()
                } else {
                    &&& final(self)@ == old(self)@.push(seq![glyph_id])
                    &&& place.0 == old(self)@.len()
                    &&& place.1 == 0
                },
            },
    {
        proof {
            lemma_first_cover(self@, glyph_id);
        }
        if let Some(index) = self.position(glyph_id) {
            assert(self@[index as int] == self.fonts@[index as int]@);
            assert(self.font_at(index as int).wf());
            let ghost before = *self;
            let gid = self.fonts[index].add(glyph_id);
            assert(self.fonts@[index as int]@ == before.fonts@[index as int]@);
            assert(self@ =~= old(self)@);
            assert forall|i: int| 0 <= i < self.font_count() implies (#[trigger] self.font_at(i)).wf() by {
                if i != index {
                    assert(self.font_at(i) == before.font_at(i));
                }
            }
            proof {
                self.lemma_each_glyph_once();
            }
            return (index, gid);
        }
        let count = self.fonts.len();
        if count > 0 {
            assert(self@[count - 1] == self.fonts@[count - 1]@);
            assert(self.font_at(count - 1).wf());
            if !self.fonts[count - 1].is_full() {
                let ghost before = *self;
                let gid = self.fonts[count - 1].add(glyph_id);
                assert(self@ =~= old(self)@.update(count - 1, old(self)@.last().push(glyph_id)));
                assert forall|i: int| 0 <= i < self.font_count() implies (#[trigger] self.font_at(i)).wf() by {
                    if i < count - 1 {
                        assert(self.font_at(i) == before.font_at(i));
                    }
                }
                proof {
                    self.lemma_each_glyph_once();
                }
                return (count - 1, gid);
            }
        }
        let mut font = Type3Font::new(self.font);
        let gid = font.add(glyph_id);
        let ghost before = *self;
        self.fonts.push(font);
        assert(self@ =~= old(self)@.push(seq![glyph_id]));
        assert forall|i: int| 0 <= i < self.font_count() implies (#[trigger] self.font_at(i)).wf() by {
            if i < count {
                assert(self.font_at(i) == before.font_at(i));
            }
        }
        proof {
            self.lemma_each_glyph_once();
        }
        (count, gid)
    }
}

/// A font found to hold the glyph among the first fonts of a list is the
/// first such of the list.
pub proof fn lemma_first_cover_stays(fonts: Seq<Seq<GlyphId>>, glyph: GlyphId, k: int)
    requires
        0 <= k <= fonts.len(),
        first_cover(fonts.take(k), glyph) is Some,
    ensures
        first_cover(fonts, glyph) == first_cover(fonts.take(k), glyph),
    decreases fonts.len() - k,
{
    if k < fonts.len() {
        assert(fonts.take(k + 1).drop_last() =~= fonts.take(k));
        lemma_first_cover_stays(fonts, glyph, k + 1);
    } else {
        assert(fonts.take(k) =~= fonts);
    }
}

/// The number of glyphs that a CID font can hold.
pub const CID_GLYPHS: usize = 65536;

/// A CID font of the document: the glyphs of one font that are in use,
/// each once. The place of a glyph is the code by which text refers to it;
/// the first place is that of the glyph for what is missing.
#[derive(Debug)]
pub struct CIDFont {
    font: Font,
    glyphs: Vec<GlyphId>,
    codepoints: Vec<Option<String>>,
}

impl View for CIDFont {
    type V = Seq<GlyphId>;

    closed spec fn view(&self) -> Seq<GlyphId> {
        self.glyphs@
    }
}

impl CIDFont {
    /// The font holds no glyph twice, and no more glyphs than it can.
    pub open spec fn wf(&self) -> bool {
        self@.no_duplicates() && self@.len() <= CID_GLYPHS && self.texts().len() == self@.len()
    }

    /// The font that the glyphs come from.
    pub closed spec fn source(&self) -> Font {
        self.font
    }

    /// The text that each glyph stands for, as far as it is known.
    pub closed spec fn texts(&self) -> Seq<Option<String>> {
        self.codepoints@
    }

    /// A font that holds the glyph for what is missing and no other.
    pub fn new(font: Font) -> (cid: CIDFont)
        ensures
            cid@ == seq![0u32],
            cid.source() == font,
            cid.wf(),
    {
        let mut glyphs: Vec<GlyphId> = Vec::new();
        glyphs.push(0);
        let mut codepoints: Vec<Option<String>> = Vec::new();
        codepoints.push(None);
        let cid = CIDFont { font, glyphs, codepoints };
        assert(cid@ =~= seq![0u32]);
        cid
    }

    /// The font that the glyphs come from.
    pub fn font(&self) -> (font: Font)
        ensures
            font == self.source(),
    {
        self.font
    }

    /// The number of glyphs held.
    pub fn count(&self) -> (n: usize)
        ensures
            n == self@.len(),
    {
        self.glyphs.len()
    }

    /// The place of a glyph among those held.
    pub fn get_cid(&self, glyph: GlyphId) -> (place: Option<u16>)
        requires
            self.wf(),
        ensures
            match place {
                Some(i) => i < self@.len() && self@[i as int] == glyph,
                None => !self@.contains(glyph),
            },
    {
        let mut i: usize = 0;
        while i < self.glyphs.len()
            invariant
                i <= self.glyphs@.len(),
                self.glyphs@.len() <= CID_GLYPHS,
                forall|j: int| 0 <= j < i ==> self.glyphs@[j] != glyph,
            decreases self.glyphs@.len() - i,
        {
            if self.glyphs[i] == glyph {
                return Some(i as u16);
            }
            i += 1;
        }
        None
    }

    /// Adds a glyph, unless the font holds it, and returns its place.
    pub fn add_glyph(&mut self, glyph: GlyphId) -> (place: u16)
        requires
            old(self).wf(),
            old(self)@.contains(glyph) || old(self)@.len() < CID_GLYPHS,
        ensures
            final(self).wf(),
            final(self).source() == old(self).source(),
            place < final(self)@.len(),
            final(self)@[place as int] == glyph,
            old(self)@.contains(glyph) ==> final(self)@ == old(self)@,
            !old(self)@.contains(glyph) ==> final(self)@ == old(self)@.push(glyph) && place == old(
                self,
            )@.len(),
    {
        match self.get_cid(glyph) {
            Some(place) => place,
            None => {
                let place = self.glyphs.len();
                self.glyphs.push(glyph);
                self.codepoints.push(None);
                assert forall|i: int, j: int|
                    0 <= i < self@.len() && 0 <= j < self@.len() && i != j implies self@[i]
                    != self@[j] by {
                    if i < place && j < place {
                        assert(old(self)@[i] != old(self)@[j]);
                    } else if i < place {
                        assert(old(self)@.contains(old(self)@[i]));
                    } else {
                        assert(old(self)@.contains(old(self)@[j]));
                    }
                }
                place as u16
            },
        }
    }

    /// The text that the glyph at the given place stands for, if it is known.
    pub fn get_codepoints(&self, place: u16) -> (text: Option<&str>)
        requires
            self.wf(),
        ensures
            match text {
                Some(t) => place < self@.len() && (self.texts()[place as int] matches Some(s) && s@
                    == t@),
                None => place >= self@.len() || self.texts()[place as int] is None,
            },
    {
        if (place as usize) < self.codepoints.len() {
            match &self.codepoints[place as usize] {
                Some(text) => Some(text.as_str()),
                None => None,
            }
        } else {
            None
        }
    }

    /// Sets the text that the glyph at the given place stands for.
    pub fn set_codepoints(&mut self, place: u16, text: String)
        requires
            old(self).wf(),
            place < old(self)@.len(),
        ensures
            final(self).wf(),
            final(self)@ == old(self)@,
            final(self).source() == old(self).source(),
            final(self).texts() == old(self).texts().update(place as int, Some(text)),
    {
        self.codepoints.set(place as usize, Some(text));
    }
}

} // verus!
