//! The serializer context: the one place that hands out references, remembers
//! which objects have been registered, and collects what a document is made of.
use vstd::prelude::*;
use pdf_writer::Chunk;
use crate::chunk_container::{Category, ChunkContainer};
use crate::util::same_bytes;
use crate::configure::{SerializeSettings, ValidationError};
use crate::error::{KrillaError, KrillaResult};
use crate::interchange::{
    bytes_less, lemma_lex_chain, lemma_lex_total, lex_less, EmbeddedFile,
    NamedDestination, Outline, TagTree,
};
use crate::metadata::{Metadata, PdfSig};
use crate::page::{too_long, write_page, write_page_tree};
use crate::pdf::chunk_refs;
use crate::pdf::{pdf_bytes, pdf_refs};
use crate::chunk_container::{header_for, one_to};
use crate::font::{first_cover, Font, FontMapper, GlyphId};
use crate::page::PageSettings;
use crate::text::PDFGlyph;
use crate::reference::{Ref, MAX_REF};
use crate::resource::PdfColorSpace;

verus! {

/// A Type 3 font of the document: the font that it is made of and its
/// number among the Type 3 fonts made of that font.
#[derive(Debug, Clone, Copy, PartialEq, Eq, Hash, Structural)]
pub struct FontResource {
    /// The font that the Type 3 font is made of.
    pub font: Font,
    /// The number of the Type 3 font.
    pub pdf_index: usize,
}

impl FontResource {
    /// The Type 3 font with the given number made of the font.
    pub fn new(font: Font, pdf_index: usize) -> (resource: FontResource)
        ensures
            resource == (FontResource { font, pdf_index }),
    {
        FontResource { font, pdf_index }
    }

    /// The bytes that tell the font from every other font of the document.
    pub open spec fn identity_spec(self) -> Seq<u8> {
        seq![102u8, 111u8] + crate::geometry::u32_bytes((self.font.id >> 32) as u32)
            + crate::geometry::u32_bytes((self.font.id & 0xffff_ffff) as u32)
            + crate::geometry::u32_bytes((self.pdf_index as u64 >> 32) as u32)
            + crate::geometry::u32_bytes((self.pdf_index as u64 & 0xffff_ffff) as u32)
    }

    /// The bytes that tell the font from every other font of the document.
    pub fn identity(self) -> (bytes: Vec<u8>)
        ensures
            bytes@ == self.identity_spec(),
    {
        let mut bytes: Vec<u8> = Vec::new();
        bytes.push(102);
        bytes.push(111);
        let id = self.font.id;
        let index = self.pdf_index as u64;
        crate::geometry::push_u32(&mut bytes, (id >> 32) as u32);
        crate::geometry::push_u32(&mut bytes, (id & 0xffff_ffff) as u32);
        crate::geometry::push_u32(&mut bytes, (index >> 32) as u32);
        crate::geometry::push_u32(&mut bytes, (index & 0xffff_ffff) as u32);
        assert(bytes@ =~= self.identity_spec());
        bytes
    }
}

/// The first `count` Type 3 fonts made of a font.
pub open spec fn numbered(font: Font, count: int) -> Seq<FontResource> {
    Seq::new(count as nat, |k: int| FontResource { font, pdf_index: k as usize })
}

/// The Type 3 fonts of a document: for each font in use, in order, the
/// Type 3 fonts made of it, in order.
pub open spec fn resources_of(fonts: Seq<FontMapper>) -> Seq<FontResource>
    decreases fonts.len(),
{
    if fonts.len() == 0 {
        Seq::empty()
    } else {
        resources_of(fonts.drop_last()) + numbered(
            fonts.last().source(),
            fonts.last()@.len() as int,
        )
    }
}

/// A Type 3 font that is to be written, with the reference it is written under.
#[derive(Debug, Clone, Copy)]
pub struct FontToWrite {
    /// The reference of the font.
    pub reference: Ref,
    /// The font.
    pub resource: FontResource,
}

/// A finished page.
#[derive(Debug)]
pub struct PageInfo {
    /// The reference of the page.
    pub page: Ref,
    /// The size of the page.
    pub settings: PageSettings,
    /// The content of the page.
    pub content: Vec<u8>,
}

/// The mathematical content of a [`SerializerContext`].
pub struct ContextView {
    /// The next reference to hand out.
    pub next: int,
    /// The registered objects: from the identity of an object to its
    /// reference.
    pub cache: Map<Seq<u8>, i32>,
    /// The fragments made so far.
    pub container: ChunkContainer,
    /// The switches of the serializer.
    pub settings: SerializeSettings,
    /// The findings of validation, in the order in which they were made.
    pub errors: Seq<ValidationError>,
    /// Who signs the document, if anyone.
    pub signer: Option<PdfSig>,
    /// The named destinations, in the order in which they were registered.
    pub destinations: Seq<(String, Ref)>,
    /// The embedded files by name, in the order in which they were registered.
    pub files: Seq<(String, Ref)>,
    /// The pages finished so far, in order.
    pub pages: Seq<PageInfo>,
    /// The fonts in use, each with the Type 3 fonts that the document makes of it.
    pub fonts: Seq<FontMapper>,
    /// The compressed ICC profile of the standard RGB color space.
    pub srgb_profile: Seq<u8>,
    /// The compressed ICC profile of gray with the white point D65.
    pub gray_profile: Seq<u8>,
}

impl ContextView {
    /// Every reference that stands for a registered object has been handed
    /// out, and no two registered objects share a reference.
    pub open spec fn wf(self) -> bool {
        &&& 1 <= self.next <= MAX_REF
        &&& forall|h: Seq<u8>| self.cache.contains_key(h) ==> 1 <= #[trigger] self.cache[h] < self.next
        &&& forall|a: Seq<u8>, b: Seq<u8>|
            self.cache.contains_key(a) && self.cache.contains_key(b) && a != b
                ==> #[trigger] self.cache[a] != #[trigger] self.cache[b]
        &&& self.container.wf()
        &&& self.srgb_profile.len() <= i32::MAX
        &&& self.gray_profile.len() <= i32::MAX
        &&& forall|i: int| 0 <= i < self.pages.len() ==> 1 <= (#[trigger] self.pages[i]).page@ < self.next
        &&& forall|i: int| 0 <= i < self.fonts.len() ==> (#[trigger] self.fonts[i]).wf()
        &&& forall|i: int, j: int|
            0 <= i < j < self.fonts.len() ==> (#[trigger] self.fonts[i]).source()
                != (#[trigger] self.fonts[j]).source()
    }

    /// `after` is a later state of the same document: the counter has not
    /// gone back, every registered object is still registered under its
    /// reference, and the settings are the same.
    pub open spec fn grows_to(self, after: ContextView) -> bool {
        &&& self.next <= after.next
        &&& self.settings == after.settings
        &&& self.srgb_profile == after.srgb_profile
        &&& self.gray_profile == after.gray_profile
        &&& forall|h: Seq<u8>| #[trigger]
            self.cache.contains_key(h) ==> after.cache.contains_key(h) && after.cache[h]
                == self.cache[h]
    }

    /// The state in which the next reference, `r`, has been given to the
    /// object with the given identity.
    pub open spec fn taken(self, identity: Seq<u8>, r: i32) -> ContextView {
        ContextView { next: self.next + 1, cache: self.cache.insert(identity, r), ..self }
    }

    /// What registering an object with the given identity does, and the
    /// reference it returns: an object registered before keeps its
    /// reference and nothing changes; any other gets the next reference.
    pub open spec fn registers(self, identity: Seq<u8>, after: ContextView, r: int) -> bool {
        if self.cache.contains_key(identity) {
            r == self.cache[identity] && after == self
        } else {
            &&& r == self.next
            &&& after.next > self.next
            &&& after.cache.contains_key(identity)
            &&& after.cache[identity] == r
            &&& self.grows_to(after)
        }
    }
}

/// The references of the registered objects, by the identities of the
/// objects: what a list of registrations comes to.
pub open spec fn cache_of(list: Seq<(Vec<u8>, i32)>) -> Map<Seq<u8>, i32>
    decreases list.len(),
{
    if list.len() == 0 {
        Map::empty()
    } else {
        cache_of(list.drop_last()).insert(list.last().0@, list.last().1)
    }
}

/// The last registration of an identity gives its reference.
pub proof fn lemma_cache_found(list: Seq<(Vec<u8>, i32)>, i: int, identity: Seq<u8>)
    requires
        0 <= i < list.len(),
        list[i].0@ == identity,
        forall|j: int| i < j < list.len() ==> (#[trigger] list[j]).0@ != identity,
    ensures
        cache_of(list).contains_key(identity),
        cache_of(list)[identity] == list[i].1,
    decreases list.len(),
{
    if i < list.len() - 1 {
        assert(list.last().0@ != identity);
        assert(list.drop_last()[i] == list[i]);
        assert forall|j: int| i < j < list.drop_last().len() implies (#[trigger] list.drop_last()[j]).0@
            != identity by {
            assert(list.drop_last()[j] == list[j]);
        }
        lemma_cache_found(list.drop_last(), i, identity);
    }
}

/// An identity that was never registered has no reference.
pub proof fn lemma_cache_missing(list: Seq<(Vec<u8>, i32)>, identity: Seq<u8>)
    requires
        forall|j: int| 0 <= j < list.len() ==> (#[trigger] list[j]).0@ != identity,
    ensures
        !cache_of(list).contains_key(identity),
    decreases list.len(),
{
    if list.len() > 0 {
        assert(list.last().0@ != identity);
        assert forall|j: int| 0 <= j < list.drop_last().len() implies (#[trigger] list.drop_last()[j]).0@
            != identity by {
            assert(list.drop_last()[j] == list[j]);
        }
        lemma_cache_missing(list.drop_last(), identity);
    }
}

/// What registering a new object does beyond handing out its reference:
/// the fragment of the object is produced, and is kept at the end of the
/// category of the object; where the object cannot be written, the failure
/// is kept in its place.
pub open spec fn kept<T: Object>(before: ContextView, object: T, r: i32, after: ContextView) -> bool {
    exists|made: ContextView, slot: KrillaResult<Chunk>| #[trigger]
        object.produces(
            before.taken(object.identity_spec(), r),
            r,
            made,
            slot,
        ) && (slot is Ok <==> object.fits_spec()) && made.container.with_slot(
            T::category_spec(),
            slot,
            after.container,
        ) && after == (ContextView { container: after.container, ..made })
}

/// No two registered objects share a reference: objects that differ in
/// their identities have different references.
pub proof fn lemma_references_apart(context: ContextView, a: Seq<u8>, b: Seq<u8>)
    requires
        context.wf(),
        context.cache.contains_key(a),
        context.cache.contains_key(b),
        a != b,
    ensures
        context.cache[a] != context.cache[b],
{
}

/// A later state of a later state is a later state.
pub proof fn lemma_grows_on(a: ContextView, b: ContextView, c: ContextView)
    requires
        a.grows_to(b),
        b.grows_to(c),
    ensures
        a.grows_to(c),
{
    assert forall|h: Seq<u8>| #[trigger] a.cache.contains_key(h) implies c.cache.contains_key(h)
        && c.cache[h] == a.cache[h] by {
        assert(b.cache.contains_key(h));
    }
}

/// Registering an object leads to a later state of the same document.
pub proof fn lemma_registers_grows(before: ContextView, identity: Seq<u8>, after: ContextView, r: int)
    requires
        before.registers(identity, after, r),
    ensures
        before.grows_to(after),
{
}

/// Two objects of the same content that are registered with the same
/// document get the same reference, whatever is registered between them,
/// and the second registration changes nothing: the fragment of the object
/// is produced once.
pub proof fn lemma_registered_once(
    before: ContextView,
    identity: Seq<u8>,
    first_after: ContextView,
    first: int,
    later: ContextView,
    second_after: ContextView,
    second: int,
)
    requires
        before.registers(identity, first_after, first),
        first_after.grows_to(later),
        later.registers(identity, second_after, second),
    ensures
        first == second,
        second_after == later,
{
    assert(first_after.cache.contains_key(identity));
    assert(first_after.cache[identity] == first);
    assert(later.cache.contains_key(identity));
}

/// Whether a file is embedded under the name.
pub open spec fn name_taken(files: Seq<(String, Ref)>, name: Seq<char>) -> bool {
    exists|i: int| 0 <= i < files.len() && (#[trigger] files[i]).0@ == name
}

/// Where a file goes among the files in the order of their names: behind
/// the files at the front whose names come before its own.
pub open spec fn file_place(files: Seq<(String, Ref)>, name: Seq<u8>) -> int
    decreases files.len(),
{
    if files.len() == 0 || !lex_less(vstd::utf8::encode_utf8(files[0].0@), name) {
        0
    } else {
        1 + file_place(files.skip(1), name)
    }
}

/// Whether the content of one of the pages, once filtered, is longer than
/// a stream can hold.
pub open spec fn any_too_long(pages: Seq<PageInfo>, settings: SerializeSettings) -> bool {
    exists|i: int| 0 <= i < pages.len() && too_long(#[trigger] pages[i], settings)
}

/// `after` is `before` with the fragments of its pages made: the page tree
/// under the next reference, and behind the pages that were there a
/// fragment for each page, which holds the content of the page under the
/// reference after and then the page under its own.
pub open spec fn pages_built(before: ContextView, after: ContextView) -> bool {
    let n = before.pages.len() as int;
    let held = before.container.pages@.len() as int;
    if n == 0 {
        after == before
    } else {
        &&& after == (ContextView {
            next: before.next + 1 + n,
            container: after.container,
            ..before
        })
        &&& after.container == (ChunkContainer {
            page_tree: after.container.page_tree,
            pages: after.container.pages,
            ..before.container
        })
        &&& after.container.page_tree matches Some((root, tree))
        &&& root@ == before.next
        &&& chunk_refs(tree) == seq![root@]
        &&& after.container.pages@.len() == held + n
        &&& forall|k: int|
            0 <= k < held ==> #[trigger] after.container.pages@[k] == before.container.pages@[k]
        &&& forall|k: int|
            held <= k < held + n ==> ((#[trigger] after.container.pages@[k])@ matches Ok(chunk)
                && chunk_refs(chunk) == seq![
                (before.next + 1 + (k - held)) as i32,
                before.pages[k - held].page@,
            ])
    }
}

/// The steps by which a document is finished: the fragments of the pages
/// are made, the container is taken out of the context, and the container
/// is finished.
pub open spec fn finish_steps(
    start: ContextView,
    built: ContextView,
    emptied: ContextView,
    after: ContextView,
    result: KrillaResult<pdf_writer::Pdf>,
) -> bool {
    &&& pages_built(start, built)
    &&& emptied == (ContextView { container: emptied.container, ..built })
    &&& crate::chunk_container::finished(built.container, emptied, result, after)
}

/// What finishing a document comes to.
pub open spec fn finishes(start: ContextView, result: KrillaResult<pdf_writer::Pdf>) -> bool {
    if start.pages.len() > 0 && start.next + start.pages.len() >= MAX_REF {
        result matches Err(e) && e == KrillaError::OutOfReferences
    } else if any_too_long(start.pages, start.settings) {
        result matches Err(e) && e == KrillaError::StreamTooLong
    } else {
        exists|built: ContextView, emptied: ContextView, after: ContextView| #[trigger]
            finish_steps(start, built, emptied, after, result)
    }
}

/// The bytes of the name of an embedded file.
pub open spec fn name_bytes(file: (String, Ref)) -> Seq<u8> {
    vstd::utf8::encode_utf8(file.0@)
}

/// Whether the files stand in the order of their names, each name once.
pub open spec fn names_ordered(files: Seq<(String, Ref)>) -> bool {
    forall|i: int, j: int|
        0 <= i < j < files.len() ==> lex_less(
            name_bytes(#[trigger] files[i]),
            name_bytes(#[trigger] files[j]),
        )
}

/// Among files in the order of their names, every file before the place of
/// a name has a name that comes before it, and no file from that place on has.
pub proof fn lemma_file_place_splits(files: Seq<(String, Ref)>, name: Seq<u8>)
    requires
        names_ordered(files),
    ensures
        0 <= file_place(files, name) <= files.len(),
        forall|k: int|
            0 <= k < file_place(files, name) ==> lex_less(name_bytes(#[trigger] files[k]), name),
        forall|k: int|
            file_place(files, name) <= k < files.len() ==> !lex_less(
                name_bytes(#[trigger] files[k]),
                name,
            ),
    decreases files.len(),
{
    if files.len() > 0 {
        let rest = files.skip(1);
        assert forall|i: int, j: int| 0 <= i < j < rest.len() implies lex_less(
            name_bytes(#[trigger] rest[i]),
            name_bytes(#[trigger] rest[j]),
        ) by {
            assert(rest[i] == files[i + 1] && rest[j] == files[j + 1]);
        }
        if lex_less(name_bytes(files[0]), name) {
            lemma_file_place_splits(rest, name);
            assert forall|k: int| 0 <= k < file_place(files, name) implies lex_less(
                name_bytes(#[trigger] files[k]),
                name,
            ) by {
                if k > 0 {
                    assert(files[k] == rest[k - 1]);
                }
            }
            assert forall|k: int| file_place(files, name) <= k < files.len() implies !lex_less(
                name_bytes(#[trigger] files[k]),
                name,
            ) by {
                assert(files[k] == rest[k - 1]);
            }
        } else {
            assert forall|k: int| 0 <= k < files.len() implies !lex_less(
                name_bytes(#[trigger] files[k]),
                name,
            ) by {
                if k > 0 && lex_less(name_bytes(files[k]), name) {
                    lemma_lex_chain(name_bytes(files[0]), name_bytes(files[k]), name);
                }
            }
        }
    }
}

/// A file that is embedded under a new name at its place leaves the files
/// in the order of their names.
pub proof fn lemma_embedding_keeps_order(files: Seq<(String, Ref)>, file: (String, Ref))
    requires
        names_ordered(files),
        !name_taken(files, file.0@),
    ensures
        names_ordered(files.insert(file_place(files, name_bytes(file)), file)),
{
    let name = name_bytes(file);
    let place = file_place(files, name);
    lemma_file_place_splits(files, name);
    let out = files.insert(place, file);
    assert forall|k: int| place <= k < files.len() implies lex_less(
        name,
        name_bytes(#[trigger] files[k]),
    ) by {
        if name_bytes(files[k]) == name {
            vstd::utf8::encode_utf8_decode_utf8(files[k].0@);
            vstd::utf8::encode_utf8_decode_utf8(file.0@);
            assert(files[k].0@ == file.0@);
        }
        lemma_lex_total(name_bytes(files[k]), name);
    }
    assert forall|i: int, j: int| 0 <= i < j < out.len() implies lex_less(
        name_bytes(#[trigger] out[i]),
        name_bytes(#[trigger] out[j]),
    ) by {
        if j < place {
            assert(out[i] == files[i] && out[j] == files[j]);
        } else if i < place && j == place {
            assert(out[i] == files[i]);
        } else if i < place {
            assert(out[i] == files[i] && out[j] == files[j - 1]);
        } else if i == place {
            assert(out[j] == files[j - 1]);
        } else {
            assert(out[i] == files[i - 1] && out[j] == files[j - 1]);
        }
    }
}

/// An object that can be registered with a serializer context.
pub trait Object: Sized {
    /// The bytes that tell the object from every object that differs from it.
    spec fn identity_spec(&self) -> Seq<u8>;

    /// The number of references that the production of the object takes at most.
    spec fn refs_needed_spec(&self) -> nat;

    /// The object is well formed.
    spec fn sound(&self) -> bool;

    /// Whether the object can be written: no stream of it is longer than a
    /// stream can hold.
    spec fn fits_spec(&self) -> bool;

    /// The category that the fragment of the object belongs to.
    spec fn category_spec() -> Category;

    /// The references of the objects that the fragment holds, in the order
    /// in which they are written, where the root has the reference `root`
    /// and the context hands out `next` as its next reference.
    spec fn fragment_refs(&self, root: i32, next: int) -> Seq<i32>;

    /// What the production of the fragment under the reference `root` does
    /// to the context, and the chunk that it makes.
    spec fn produces(
        &self,
        before: ContextView,
        root: i32,
        after: ContextView,
        made: KrillaResult<Chunk>,
    ) -> bool;

    /// The bytes that tell the object from every object that differs from it.
    fn identity(&self) -> (bytes: Vec<u8>)
        ensures
            bytes@ == self.identity_spec(),
    ;

    /// The number of references that the production of the object takes at most.
    fn refs_needed(&self) -> (n: i32)
        ensures
            n == self.refs_needed_spec(),
    ;

    /// The category that the fragment of the object belongs to.
    fn category() -> (category: Category)
        ensures
            category == Self::category_spec(),
    ;

    /// Produces the fragment of the object, whose root has the reference
    /// `root_ref`. The production may take further references from the
    /// context. It fails where the object cannot be written, and only
    /// there. The fragment holds the objects that
    /// [`Object::fragment_refs`] lists, and no others.
    fn serialize_into(self, sc: &mut SerializerContext, root_ref: Ref) -> (made: KrillaResult<Chunk>)
        requires
            old(sc)@.wf(),
            self.sound(),
            root_ref@ < old(sc)@.next,
            old(sc)@.next + self.refs_needed_spec() <= MAX_REF,
        ensures
            final(sc)@.wf(),
            old(sc)@.grows_to(final(sc)@),
            final(sc)@.next <= old(sc)@.next + self.refs_needed_spec(),
            made is Ok <==> self.fits_spec(),
            made matches Err(e) ==> e == KrillaError::StreamTooLong,
            made matches Ok(chunk) ==> chunk_refs(chunk) == self.fragment_refs(
                root_ref@,
                old(sc)@.next,
            ),
            self.produces(old(sc)@, root_ref@, final(sc)@, made),
    ;
}

/// An object that is registered once and found again by its content.
pub trait RegisterableObject: Object {

}

/// Whether an object was registered before.
#[derive(Clone, Copy, Debug)]
pub enum Registration {
    /// The object was registered before, under this reference.
    Cached(Ref),
    /// The object is new and has been given this reference.
    Fresh(Ref),
}

/// The state of the production of one document.
pub struct SerializerContext {
    cur_ref: Ref,
    cached_mappings: Vec<(Vec<u8>, i32)>,
    chunk_container: ChunkContainer,
    serialize_settings: SerializeSettings,
    validation_errors: Vec<ValidationError>,
    signer: Option<PdfSig>,
    named_destinations: Vec<(String, Ref)>,
    embedded_files: Vec<(String, Ref)>,
    page_infos: Vec<PageInfo>,
    fonts: Vec<FontMapper>,
    srgb_profile: Vec<u8>,
    gray_profile: Vec<u8>,
}

impl View for SerializerContext {
    type V = ContextView;

    closed spec fn view(&self) -> ContextView {
        ContextView {
            next: self.cur_ref@ as int,
            cache: cache_of(self.cached_mappings@),
            container: self.chunk_container,
            settings: self.serialize_settings,
            errors: self.validation_errors@,
            signer: self.signer,
            destinations: self.named_destinations@,
            files: self.embedded_files@,
            pages: self.page_infos@,
            fonts: self.fonts@,
            srgb_profile: self.srgb_profile@,
            gray_profile: self.gray_profile@,
        }
    }
}

impl SerializerContext {
    /// The context of a new document: the first reference is 1, and nothing
    /// is registered.
    pub fn new(serialize_settings: SerializeSettings) -> (sc: SerializerContext)
        ensures
            sc@.wf(),
            sc@.next == 1,
            sc@.cache == Map::<Seq<u8>, i32>::empty(),
            sc@.settings == serialize_settings,
            sc@.errors == Seq::<ValidationError>::empty(),
            sc@.signer is None,
            sc@.destinations == Seq::<(String, Ref)>::empty(),
            sc@.files == Seq::<(String, Ref)>::empty(),
            sc@.container.slots() == Seq::<crate::chunk_container::Slot>::empty(),
            sc@.container.metadata is None,
            sc@.srgb_profile == Seq::<u8>::empty(),
            sc@.gray_profile == Seq::<u8>::empty(),
            sc@.pages == Seq::<PageInfo>::empty(),
            sc@.fonts == Seq::<FontMapper>::empty(),
    {
        SerializerContext {
            cur_ref: Ref::new(1),
            cached_mappings: Vec::new(),
            chunk_container: ChunkContainer::new(),
            serialize_settings,
            validation_errors: Vec::new(),
            signer: None,
            named_destinations: Vec::new(),
            embedded_files: Vec::new(),
            page_infos: Vec::new(),
            fonts: Vec::new(),
            srgb_profile: Vec::new(),
            gray_profile: Vec::new(),
        }
    }

    /// Sets the ICC profiles that the color spaces of the document embed.
    /// Each is the profile in compressed form.
    pub fn set_icc_profiles(&mut self, srgb: Vec<u8>, gray: Vec<u8>)
        requires
            srgb@.len() <= i32::MAX,
            gray@.len() <= i32::MAX,
        ensures
            final(self)@ == (ContextView {
                srgb_profile: srgb@,
                gray_profile: gray@,
                ..old(self)@
            }),
    {
        self.srgb_profile = srgb;
        self.gray_profile = gray;
    }

    /// The compressed ICC profile of the standard RGB color space.
    pub fn srgb_profile(&self) -> (profile: &Vec<u8>)
        ensures
            profile@ == self@.srgb_profile,
    {
        &self.srgb_profile
    }

    /// The compressed ICC profile of gray with the white point D65.
    pub fn gray_profile(&self) -> (profile: &Vec<u8>)
        ensures
            profile@ == self@.gray_profile,
    {
        &self.gray_profile
    }

    /// Registers the standard RGB color space.
    pub fn srgb(&mut self) -> (r: Ref)
        requires
            old(self)@.wf(),
            old(self)@.next + 1 <= MAX_REF,
        ensures
            final(self)@.wf(),
            old(self)@.registers(
                PdfColorSpace::SRGB.identity_spec(),
                final(self)@,
                r@ as int,
            ),
            final(self)@.next <= old(self)@.next + 1,
    {
        self.add(PdfColorSpace::SRGB)
    }

    /// Registers gray with the white point D65.
    pub fn d65_gray(&mut self) -> (r: Ref)
        requires
            old(self)@.wf(),
            old(self)@.next + 1 <= MAX_REF,
        ensures
            final(self)@.wf(),
            old(self)@.registers(
                PdfColorSpace::D65Gray.identity_spec(),
                final(self)@,
                r@ as int,
            ),
            final(self)@.next <= old(self)@.next + 1,
    {
        self.add(PdfColorSpace::D65Gray)
    }

    /// Whether a reference is left to hand out.
    pub fn has_room(&self) -> (b: bool)
        ensures
            b == (self@.next < MAX_REF),
    {
        self.cur_ref.get() < MAX_REF
    }

    /// Hands out the next reference. No reference is handed out twice.
    pub fn new_ref(&mut self) -> (r: Ref)
        requires
            old(self)@.next < MAX_REF,
            old(self)@.wf(),
        ensures
            r@ == old(self)@.next,
            final(self)@ == (ContextView { next: old(self)@.next + 1, ..old(self)@ }),
            final(self)@.wf(),
    {
        self.cur_ref.bump()
    }

    /// The next reference to hand out.
    pub fn peek_ref(&self) -> (r: Ref)
        ensures
            r@ == self@.next,
    {
        self.cur_ref
    }

    /// Moves the counter on to `next`, as if every reference before it had
    /// been handed out.
    pub fn skip_to(&mut self, next: Ref)
        requires
            old(self)@.wf(),
            next@ >= old(self)@.next,
        ensures
            final(self)@ == (ContextView { next: next@ as int, ..old(self)@ }),
            final(self)@.wf(),
    {
        self.cur_ref = next;
    }

    /// Who signs the document, if anyone.
    pub fn signer(&self) -> (signer: &Option<PdfSig>)
        ensures
            *signer == self@.signer,
    {
        &self.signer
    }

    /// Takes the named destinations out of the context.
    pub fn take_named_destinations(&mut self) -> (list: Vec<(String, Ref)>)
        ensures
            list@ == old(self)@.destinations,
            final(self)@ == (ContextView { destinations: Seq::empty(), ..old(self)@ }),
    {
        let mut list: Vec<(String, Ref)> = Vec::new();
        std::mem::swap(&mut self.named_destinations, &mut list);
        list
    }

    /// Takes the embedded files out of the context.
    pub fn take_embedded_files(&mut self) -> (list: Vec<(String, Ref)>)
        ensures
            list@ == old(self)@.files,
            final(self)@ == (ContextView { files: Seq::empty(), ..old(self)@ }),
    {
        let mut list: Vec<(String, Ref)> = Vec::new();
        std::mem::swap(&mut self.embedded_files, &mut list);
        list
    }

    /// Registers the object with the given identity, unless it is registered:
    /// an object registered before keeps its reference, and nothing changes;
    /// any other is given the next reference.
    pub fn register(&mut self, identity: Vec<u8>) -> (registration: Registration)
        requires
            old(self)@.wf(),
            !old(self)@.cache.contains_key(identity@) ==> old(self)@.next < MAX_REF,
        ensures
            final(self)@.wf(),
            match registration {
                Registration::Cached(r) => old(self)@.cache.contains_key(identity@) && r@ == old(
                    self,
                )@.cache[identity@] && final(self)@ == old(self)@,
                Registration::Fresh(r) => !old(self)@.cache.contains_key(identity@) && r@ == old(
                    self,
                )@.next && final(self)@ == (ContextView {
                    next: old(self)@.next + 1,
                    cache: old(self)@.cache.insert(identity@, r@),
                    ..old(self)@
                }),
            },
    {
        let mut i: usize = self.cached_mappings.len();
        while i > 0
            invariant
                i <= self.cached_mappings@.len(),
                *self == *old(self),
                self@.wf(),
                forall|j: int|
                    i <= j < self.cached_mappings@.len() ==> (#[trigger] self.cached_mappings@[j]).0@
                        != identity@,
            decreases i,
        {
            i -= 1;
            if same_bytes(self.cached_mappings[i].0.as_slice(), identity.as_slice()) {
                proof {
                    lemma_cache_found(self.cached_mappings@, i as int, identity@);
                }
                return Registration::Cached(Ref::new(self.cached_mappings[i].1));
            }
        }
        proof {
            lemma_cache_missing(self.cached_mappings@, identity@);
        }
        let r = self.cur_ref.bump();
        let ghost list = self.cached_mappings@;
        let ghost key = identity@;
        self.cached_mappings.push((identity, r.get()));
        assert(self.cached_mappings@.drop_last() =~= list);
        assert(self@.cache == old(self)@.cache.insert(key, r@));
        Registration::Fresh(r)
    }

    /// Registers an object and returns its reference. An object with the
    /// same content as one registered before gets the reference of that one,
    /// and nothing else happens. Any other object gets the next reference,
    /// and its fragment is produced and kept for the document, at the end
    /// of the category of the object. Where the production fails, the
    /// reference stays taken and the failure is kept in place of the
    /// fragment: it is met when the document is finished. Room for
    /// references is asked for a new object only.
    pub fn add<T: RegisterableObject>(&mut self, object: T) -> (r: Ref)
        requires
            old(self)@.wf(),
            object.sound(),
            !old(self)@.cache.contains_key(object.identity_spec()) ==> old(
                self,
            )@.next + 1 + object.refs_needed_spec() <= MAX_REF,
        ensures
            final(self)@.wf(),
            old(self)@.registers(object.identity_spec(), final(self)@, r@ as int),
            final(self)@.next <= old(self)@.next + 1 + object.refs_needed_spec(),
            !old(self)@.cache.contains_key(object.identity_spec()) ==> kept(
                old(self)@,
                object,
                r@,
                final(self)@,
            ),
    {
        let bytes = object.identity();
        let ghost identity = bytes@;
        match self.register(bytes) {
            Registration::Cached(r) => r,
            Registration::Fresh(r) => {
                let ghost middle = self@;
                let chunk = object.serialize_into(self, r);
                let ghost late = self@;
                self.chunk_container.deposit(T::category(), chunk);
                proof {
                    assert(self@.cache == late.cache);
                    assert(self@.pages == late.pages);
                    assert(self@.fonts == late.fonts);
                    assert(self@.next == late.next);
                    assert(middle.cache.contains_key(identity));
                    assert(late.cache[identity] == middle.cache[identity]);
                    assert forall|h: Seq<u8>| #[trigger]
                        old(self)@.cache.contains_key(h) implies self@.cache.contains_key(h)
                        && self@.cache[h] == old(self)@.cache[h] by {
                        assert(middle.cache.contains_key(h));
                    }
                    assert(middle == old(self)@.taken(identity, r@));
                    assert(object.produces(old(self)@.taken(identity, r@), r@, late, chunk));
                    assert(self@ == (ContextView { container: self@.container, ..late }));
                }
                r
            },
        }
    }

    /// The pages finished so far, in order.
    pub fn page_infos(&self) -> (pages: &Vec<PageInfo>)
        ensures
            pages@ == self@.pages,
    {
        &self.page_infos
    }

    /// Adds a finished page to the document and gives it the next reference.
    pub fn add_page(&mut self, settings: PageSettings, content: Vec<u8>) -> (r: Ref)
        requires
            old(self)@.wf(),
            old(self)@.next < MAX_REF,
        ensures
            final(self)@.wf(),
            r@ == old(self)@.next,
            final(self)@ == (ContextView {
                next: old(self)@.next + 1,
                pages: old(self)@.pages.push(PageInfo { page: r, settings, content }),
                ..old(self)@
            }),
    {
        let page = self.cur_ref.bump();
        self.page_infos.push(PageInfo { page, settings, content });
        page
    }

    /// Sets the outline of the document.
    pub fn set_outline(&mut self, outline: Outline)
        ensures
            final(self)@ == (ContextView {
                container: ChunkContainer {
                    outline: Some((outline.root, outline.chunk)),
                    ..old(self)@.container
                },
                ..old(self)@
            }),
    {
        self.chunk_container.outline = Some((outline.root, outline.chunk));
    }

    /// Sets what the document says about itself.
    pub fn set_metadata(&mut self, metadata: Metadata)
        ensures
            final(self)@ == (ContextView {
                container: ChunkContainer { metadata: Some(metadata), ..old(self)@.container },
                ..old(self)@
            }),
    {
        self.chunk_container.metadata = Some(metadata);
    }

    /// Sets the structure tree of the document.
    pub fn set_tag_tree(&mut self, tag_tree: TagTree)
        ensures
            final(self)@ == (ContextView {
                container: ChunkContainer {
                    struct_tree_root: Some((tag_tree.root, tag_tree.chunk)),
                    struct_elements: tag_tree.elements,
                    ..old(self)@.container
                },
                ..old(self)@
            }),
    {
        self.chunk_container.struct_tree_root = Some((tag_tree.root, tag_tree.chunk));
        self.chunk_container.struct_elements = tag_tree.elements;
    }

    /// Registers a place in the document under its name.
    pub fn add_named_destination(&mut self, destination: NamedDestination)
        ensures
            final(self)@.destinations == old(self)@.destinations.push(
                (destination.name, destination.root),
            ),
            final(self)@.container.destinations@ == old(self)@.container.destinations@.push(
                destination.chunk,
            ),
            final(self)@ == (ContextView {
                destinations: final(self)@.destinations,
                container: ChunkContainer {
                    destinations: final(self)@.container.destinations,
                    ..old(self)@.container
                },
                ..old(self)@
            }),
    {
        self.named_destinations.push((destination.name, destination.root));
        self.chunk_container.destinations.push(destination.chunk);
    }

    /// Embeds a file, unless a file is embedded under the same name: then
    /// nothing changes and `None` is returned. The files are kept in the
    /// order of their names.
    pub fn embed_file(&mut self, file: EmbeddedFile) -> (done: Option<()>)
        ensures
            name_taken(old(self)@.files, file.path@) ==> done is None && final(self)@ == old(self)@,
            !name_taken(old(self)@.files, file.path@) ==> {
                &&& done is Some
                &&& final(self)@.files.len() == old(self)@.files.len() + 1
                &&& final(self)@.files == old(self)@.files.insert(
                    file_place(old(self)@.files, vstd::utf8::encode_utf8(file.path@)),
                    (file.path, file.root),
                )
                &&& old(self)@.container.with_chunk(
                    Category::EmbeddedFile,
                    file.chunk,
                    final(self)@.container,
                )
                &&& final(self)@ == (ContextView {
                    files: final(self)@.files,
                    container: final(self)@.container,
                    ..old(self)@
                })
            },
            names_ordered(old(self)@.files) ==> names_ordered(final(self)@.files),
    {
        proof {
            if names_ordered(self@.files) && !name_taken(self@.files, file.path@) {
                lemma_embedding_keeps_order(self@.files, (file.path, file.root));
            }
        }
        let name = file.path.as_str().as_bytes();
        let mut place: usize = 0;
        let mut found = false;
        let mut i: usize = 0;
        assert(self.embedded_files@.skip(0) =~= self.embedded_files@);
        while i < self.embedded_files.len()
            invariant
                i <= self.embedded_files@.len(),
                place <= i,
                name@ == vstd::utf8::encode_utf8(file.path@),
                self.embedded_files@ == old(self)@.files,
                !found ==> forall|j: int| 0 <= j < i ==> self.embedded_files@[j].0@ != file.path@,
                found ==> name_taken(old(self)@.files, file.path@),
                if place == i {
                    file_place(self.embedded_files@, name@) == place + file_place(
                        self.embedded_files@.skip(i as int),
                        name@,
                    )
                } else {
                    file_place(self.embedded_files@, name@) == place
                },
            decreases self.embedded_files@.len() - i,
        {
            let other = self.embedded_files[i].0.as_str();
            if self.embedded_files[i].0 == file.path {
                found = true;
            }
            assert(self.embedded_files@.skip(i as int).skip(1) =~= self.embedded_files@.skip(i + 1));
            if place == i && bytes_less(other.as_bytes(), name) {
                place += 1;
            }
            i += 1;
        }
        if found {
            return None;
        }
        self.embedded_files.insert(place, (file.path, file.root));
        self.chunk_container.deposit(Category::EmbeddedFile, Ok(file.chunk));
        Some(())
    }

    /// Makes the fragments of the pages and of the page tree. The page tree
    /// gets the next reference, and the content of each page the one after.
    /// Fails, before anything is made, where the references do not suffice,
    /// and where the content of a page, once filtered, is longer than a
    /// stream can hold.
    pub fn build_pages(&mut self) -> (result: KrillaResult<()>)
        requires
            old(self)@.wf(),
        ensures
            final(self)@.wf(),
            old(self)@.pages.len() == 0 ==> result is Ok,
            old(self)@.pages.len() > 0 ==> (if old(self)@.next + old(self)@.pages.len() >= MAX_REF {
                result matches Err(e) && e == KrillaError::OutOfReferences && final(self)@ == old(
                    self,
                )@
            } else if any_too_long(old(self)@.pages, old(self)@.settings) {
                result matches Err(e) && e == KrillaError::StreamTooLong
            } else {
                result is Ok
            }),
            result is Ok ==> pages_built(old(self)@, final(self)@),
    {
        let count = self.page_infos.len();
        if count == 0 {
            return Ok(());
        }
        let next = self.cur_ref.get();
        if count >= (MAX_REF - next) as usize {
            return Err(KrillaError::OutOfReferences);
        }
        let ghost held = self@.container.pages@.len() as int;
        let root = self.new_ref();
        let settings = self.serialize_settings;
        let mut i: usize = 0;
        while i < count
            invariant
                i <= count,
                count == self.page_infos@.len(),
                count + old(self)@.next < MAX_REF,
                held == old(self)@.container.pages@.len(),
                root@ == old(self)@.next,
                self@.wf(),
                settings == self@.settings,
                self@ == (ContextView {
                    next: old(self)@.next + 1 + i,
                    container: self@.container,
                    ..old(self)@
                }),
                self@.container == (ChunkContainer {
                    pages: self@.container.pages,
                    ..old(self)@.container
                }),
                self@.container.pages@.len() == held + i,
                forall|k: int|
                    0 <= k < held ==> #[trigger] self@.container.pages@[k] == old(
                        self,
                    )@.container.pages@[k],
                forall|k: int|
                    held <= k < held + i ==> ((#[trigger] self@.container.pages@[k])@ matches Ok(
                        chunk,
                    ) && chunk_refs(chunk) == seq![
                        (old(self)@.next + 1 + (k - held)) as i32,
                        old(self)@.pages[k - held].page@,
                    ]),
                forall|k: int| 0 <= k < i ==> !too_long(#[trigger] old(self)@.pages[k], settings),
            decreases count - i,
        {
            let contents = self.new_ref();
            let chunk = match write_page(&self.page_infos[i], root, contents, &settings) {
                Ok(chunk) => chunk,
                Err(e) => {
                    assert(too_long(old(self)@.pages[i as int], settings));
                    return Err(e);
                },
            };
            let ghost before = self@;
            self.chunk_container.deposit(Category::Page, Ok(chunk));
            assert(self@ == (ContextView { container: self@.container, ..before }));
            assert(self@.container.pages@.drop_last() == before.container.pages@);
            assert forall|k: int| 0 <= k < held + i implies #[trigger] self@.container.pages@[k]
                == before.container.pages@[k] by {
                assert(self@.container.pages@.drop_last()[k] == self@.container.pages@[k]);
            }
            assert(self@.container.pages@[held + i] == self@.container.pages@.last());
            i += 1;
        }
        let tree = write_page_tree(root, &self.page_infos);
        let ghost before = self@;
        self.chunk_container.page_tree = Some((root, tree));
        assert(self@ == (ContextView { container: self@.container, ..before }));
        assert(self@.container.embedded_pdfs == before.container.embedded_pdfs);
        assert(!any_too_long(old(self)@.pages, old(self)@.settings));
        Ok(())
    }

    /// Finishes the document: makes the fragments of the pages and of the
    /// page tree, and assembles all fragments as
    /// [`ChunkContainer::finish`] does. In the document that comes out, the
    /// objects carry the numbers from 1 on, each once, in the order in
    /// which they are written.
    pub fn finish(self) -> (result: KrillaResult<pdf_writer::Pdf>)
        requires
            self@.wf(),
        ensures
            finishes(self@, result),
            result matches Ok(pdf) ==> {
                &&& pdf_refs(pdf) == one_to(pdf_refs(pdf).len() as int)
                &&& pdf_refs(pdf).len() < MAX_REF
                &&& header_for(self@.settings).is_prefix_of(pdf_bytes(pdf))
            },
    {
        let mut this = self;
        match this.build_pages() {
            Ok(_) => {},
            Err(e) => {
                return Err(e);
            },
        }
        let mut container = ChunkContainer::new();
        let ghost built = this@;
        std::mem::swap(&mut this.chunk_container, &mut container);
        assert(this@ == (ContextView { container: this@.container, ..built }));
        let ghost before = this@;
        let result = container.finish(&mut this);
        proof {
            assert(finish_steps(self@, built, before, this@, result));
            if result is Ok {
                let pdf = result->Ok_0;
                crate::chunk_container::lemma_finished_document(container, before, pdf, this@);
            }
        }
        result
    }

    /// The place of the mapper of a font among the mappers.
    fn font_place(&self, font: Font) -> (place: Option<usize>)
        ensures
            match place {
                Some(i) => i < self@.fonts.len() && self@.fonts[i as int].source() == font,
                None => forall|j: int|
                    0 <= j < self@.fonts.len() ==> (#[trigger] self@.fonts[j]).source() != font,
            },
    {
        let mut i: usize = 0;
        while i < self.fonts.len()
            invariant
                i <= self.fonts@.len(),
                forall|j: int| 0 <= j < i ==> (#[trigger] self.fonts@[j]).source() != font,
            decreases self.fonts@.len() - i,
        {
            if self.fonts[i].font() == font {
                return Some(i);
            }
            i += 1;
        }
        None
    }

    /// Finds a glyph of a font a place in a Type 3 font of the document, and
    /// returns that font and the code of the glyph in it. A glyph that has
    /// a place keeps it.
    pub fn map_glyph(&mut self, font: Font, glyph: GlyphId) -> (place: (FontResource, PDFGlyph))
        requires
            old(self)@.wf(),
        ensures
            final(self)@.wf(),
            place.0.font == font,
            place.1 is ColorGlyph,
            exists|i: int|
                {
                    &&& 0 <= i < final(self)@.fonts.len()
                    &&& (#[trigger] final(self)@.fonts[i]).source() == font
                    &&& place.0.pdf_index < final(self)@.fonts[i]@.len()
                    &&& place.1->ColorGlyph_0 < final(self)@.fonts[i]@[place.0.pdf_index as int].len()
                    &&& final(self)@.fonts[i]@[place.0.pdf_index as int][place.1->ColorGlyph_0 as int]
                        == glyph
                },
            final(self)@ == (ContextView { fonts: final(self)@.fonts, ..old(self)@ }),
    {
        let at = match self.font_place(font) {
            Some(at) => at,
            None => {
                self.fonts.push(FontMapper::new(font));
                self.fonts.len() - 1
            },
        };
        let ghost before = self.fonts@;
        let (index, glyph_id) = self.fonts[at].add_glyph(glyph);
        assert forall|i: int| 0 <= i < self.fonts@.len() implies (#[trigger] self.fonts@[i]).wf() by {
            if i != at {
                assert(self.fonts@[i] == before[i]);
            }
        }
        assert forall|i: int, j: int| 0 <= i < j < self.fonts@.len() implies (#[trigger] self.fonts@[i]).source()
            != (#[trigger] self.fonts@[j]).source() by {
            if i != at {
                assert(self.fonts@[i] == before[i]);
            }
            if j != at {
                assert(self.fonts@[j] == before[j]);
            }
        }
        (FontResource::new(font, index), PDFGlyph::ColorGlyph(glyph_id))
    }

    /// Gives every Type 3 font of the document a reference, and returns the
    /// fonts with their references: for each font in use, in order, the
    /// Type 3 fonts made of it, in order. A font that has a reference keeps
    /// it. Fails where the references run out.
    pub fn write_fonts(&mut self) -> (result: KrillaResult<Vec<FontToWrite>>)
        requires
            old(self)@.wf(),
        ensures
            final(self)@.wf(),
            old(self)@.grows_to(final(self)@),
            final(self)@.fonts == old(self)@.fonts,
            match result {
                Ok(fonts) => {
                    &&& Seq::new(fonts@.len(), |k: int| fonts@[k].resource) == resources_of(
                        old(self)@.fonts,
                    )
                    &&& forall|i: int|
                        0 <= i < fonts@.len() ==> final(self)@.cache.contains_key(
                            (#[trigger] fonts@[i]).resource.identity_spec(),
                        ) && final(self)@.cache[fonts@[i].resource.identity_spec()]
                            == fonts@[i].reference@
                },
                Err(e) => e == KrillaError::OutOfReferences,
            },
    {
        let mut out: Vec<FontToWrite> = Vec::new();
        let mut i: usize = 0;
        assert(self.fonts@.take(0) =~= Seq::empty());
        assert(Seq::new(out@.len(), |k: int| out@[k].resource) =~= resources_of(
            self.fonts@.take(0),
        ));
        while i < self.fonts.len()
            invariant
                i <= self.fonts@.len(),
                self@.wf(),
                old(self)@.grows_to(self@),
                self@.fonts == old(self)@.fonts,
                self.fonts@ == self@.fonts,
                Seq::new(out@.len(), |k: int| out@[k].resource) == resources_of(
                    self.fonts@.take(i as int),
                ),
                forall|k: int|
                    0 <= k < out@.len() ==> self@.cache.contains_key(
                        (#[trigger] out@[k]).resource.identity_spec(),
                    ) && self@.cache[out@[k].resource.identity_spec()]
                        == out@[k].reference@,
            decreases self.fonts@.len() - i,
        {
            let font = self.fonts[i].font();
            let count = self.fonts[i].count();
            let ghost head = Seq::new(out@.len(), |k: int| out@[k].resource);
            let mut index: usize = 0;
            assert(self.fonts@.take(i + 1).drop_last() =~= self.fonts@.take(i as int));
            assert(head + numbered(font, 0) =~= head);
            while index < count
                invariant
                    index <= count,
                    i < self.fonts@.len(),
                    font == self.fonts@[i as int].source(),
                    count == self.fonts@[i as int]@.len(),
                    self@.wf(),
                    old(self)@.grows_to(self@),
                    self@.fonts == old(self)@.fonts,
                    self.fonts@ == self@.fonts,
                    head == resources_of(self.fonts@.take(i as int)),
                    Seq::new(out@.len(), |k: int| out@[k].resource) == head + numbered(
                        font,
                        index as int,
                    ),
                    forall|k: int|
                        0 <= k < out@.len() ==> self@.cache.contains_key(
                            (#[trigger] out@[k]).resource.identity_spec(),
                        ) && self@.cache[out@[k].resource.identity_spec()]
                            == out@[k].reference@,
                decreases count - index,
            {
                if !self.has_room() {
                    return Err(KrillaError::OutOfReferences);
                }
                let resource = FontResource::new(font, index);
                let bytes = resource.identity();
                let ghost before = self@;
                let ghost listed = Seq::new(out@.len(), |k: int| out@[k].resource);
                let reference = match self.register(bytes) {
                    Registration::Cached(r) => r,
                    Registration::Fresh(r) => r,
                };
                proof {
                    lemma_grows_on(old(self)@, before, self@);
                }
                out.push(FontToWrite { reference, resource });
                assert(Seq::new(out@.len(), |k: int| out@[k].resource) =~= listed.push(resource));
                assert(numbered(font, index + 1) =~= numbered(font, index as int).push(resource));
                assert(listed.push(resource) =~= head + numbered(font, index + 1));
                index += 1;
            }
            i += 1;
        }
        assert(self.fonts@.take(i as int) =~= self.fonts@);
        Ok(out)
    }

    /// Adds the fragment of a font to the document.
    pub fn add_font(&mut self, chunk: Chunk)
        ensures
            final(self)@.container.fonts@ == old(self)@.container.fonts@.push(chunk),
            final(self)@ == (ContextView {
                container: ChunkContainer {
                    fonts: final(self)@.container.fonts,
                    ..old(self)@.container
                },
                ..old(self)@
            }),
    {
        self.chunk_container.fonts.push(chunk);
    }

    /// The fragments made so far.
    pub fn chunk_container(&self) -> (container: &ChunkContainer)
        ensures
            *container == self@.container,
    {
        &self.chunk_container
    }

    /// The switches of the serializer.
    pub fn serialize_settings(&self) -> (settings: SerializeSettings)
        ensures
            settings == self@.settings,
    {
        self.serialize_settings
    }

    /// Records a finding of validation.
    pub fn register_validation_error(&mut self, error: ValidationError)
        ensures
            final(self)@ == (ContextView { errors: old(self)@.errors.push(error), ..old(self)@ }),
    {
        self.validation_errors.push(error);
    }

    /// The findings of validation so far, in the order in which they were made.
    pub fn validation_errors(&self) -> (errors: &Vec<ValidationError>)
        ensures
            errors@ == self@.errors,
    {
        &self.validation_errors
    }

    /// Sets who signs the document.
    pub fn set_signer(&mut self, sig: PdfSig)
        ensures
            final(self)@ == (ContextView { signer: Some(sig), ..old(self)@ }),
    {
        self.signer = Some(sig);
    }
}

} // verus!
