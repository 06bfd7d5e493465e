//! Form objects: drawings that are made once and shown where they are named.
use vstd::prelude::*;
use crate::error::{KrillaError, KrillaResult};
use crate::serialize::ContextView;
use crate::pdf::chunk_refs;
use pdf_writer::Chunk;
use tiny_skia_path::Rect;
use crate::chunk_container::Category;
use crate::geometry::{dict_pair_rect, push_u32, rect_bits, rect_to_bits, u32_bytes};
use crate::pdf::{
    chunk_new, chunk_stream, dict_entries, dict_insert_dict, dict_pair_bool, dict_pair_name,
    dict_pair_ref, finish, stream_dict, Entry,
};
use crate::reference::{Ref, MAX_REF};
use crate::serialize::{
    lemma_grows_on, lemma_registers_grows, Object, RegisterableObject, SerializerContext,
};
use crate::stream::ContentStream;

verus! {

/// A form object.
pub struct XObject {
    /// What the object draws.
    pub stream: ContentStream,
    /// Whether the object is a group that is drawn apart from what is there.
    pub isolated: bool,
    /// Whether the object is a group that states the color space it blends in.
    pub transparency_group_color_space: bool,
    /// The box of the object, where it is not that of its stream.
    pub custom_bbox: Option<Rect>,
}

/// The bytes of the four edges of a rectangle.
pub open spec fn rect_bytes(bits: Seq<u32>) -> Seq<u8>
    decreases bits.len(),
{
    if bits.len() == 0 {
        Seq::empty()
    } else {
        rect_bytes(bits.drop_last()) + u32_bytes(bits.last())
    }
}

/// Appends the bytes of the four edges of a rectangle.
fn push_rect(bytes: &mut Vec<u8>, rect: Rect)
    ensures
        final(bytes)@ == old(bytes)@ + rect_bytes(rect_bits(rect)),
{
    let bits = rect_to_bits(rect);
    let mut i: usize = 0;
    assert(bits@.take(0) =~= Seq::<u32>::empty());
    assert(old(bytes)@ + rect_bytes(Seq::<u32>::empty()) =~= old(bytes)@);
    while i < bits.len()
        invariant
            i <= bits@.len(),
            bytes@ == old(bytes)@ + rect_bytes(bits@.take(i as int)),
        decreases bits@.len() - i,
    {
        assert(bits@.take(i + 1).drop_last() =~= bits@.take(i as int));
        let ghost before = bytes@;
        push_u32(bytes, bits[i]);
        assert(bytes@ =~= old(bytes)@ + rect_bytes(bits@.take(i + 1)));
        i += 1;
    }
    assert(bits@.take(bits@.len() as int) =~= bits@);
}

/// Appends bytes.
fn push_all(bytes: &mut Vec<u8>, more: &Vec<u8>)
    ensures
        final(bytes)@ == old(bytes)@ + more@,
{
    let mut i: usize = 0;
    assert(old(bytes)@ + more@.take(0) =~= old(bytes)@);
    while i < more.len()
        invariant
            i <= more@.len(),
            bytes@ == old(bytes)@ + more@.take(i as int),
        decreases more@.len() - i,
    {
        bytes.push(more[i]);
        assert(bytes@ =~= old(bytes)@ + more@.take(i + 1));
        i += 1;
    }
    assert(more@.take(more@.len() as int) =~= more@);
}

/// The number of bytes of a content, as far as 32 bits can count them.
pub open spec fn counted(len: int) -> u32 {
    if len > u32::MAX {
        u32::MAX
    } else {
        len as u32
    }
}

/// The bytes that tell a stream from every stream that differs from it.
pub open spec fn stream_bytes(stream: ContentStream) -> Seq<u8> {
    u32_bytes(counted(stream.content@.len() as int)) + stream.content@ + rect_bytes(
        rect_bits(stream.bbox),
    ) + stream.resource_dictionary.color_spaces.identities()
        + stream.resource_dictionary.ext_g_state.identities()
        + stream.resource_dictionary.patterns.identities()
}

/// Appends the bytes that tell a stream from every stream that differs from it.
pub fn push_stream(bytes: &mut Vec<u8>, stream: &ContentStream)
    ensures
        final(bytes)@ == old(bytes)@ + stream_bytes(*stream),
{
    let len: u32 = if stream.content.len() > u32::MAX as usize {
        u32::MAX
    } else {
        stream.content.len() as u32
    };
    push_u32(bytes, len);
    push_all(bytes, &stream.content);
    push_rect(bytes, stream.bbox);
    let spaces = stream.resource_dictionary.color_spaces.identity_bytes();
    push_all(bytes, &spaces);
    let states = stream.resource_dictionary.ext_g_state.identity_bytes();
    push_all(bytes, &states);
    let patterns = stream.resource_dictionary.patterns.identity_bytes();
    push_all(bytes, &patterns);
    assert(bytes@ =~= old(bytes)@ + stream_bytes(*stream));
}

/// The bytes that tell a form object from every form object that differs
/// from it.
pub open spec fn x_object_bytes(object: XObject) -> Seq<u8> {
    seq![
        120u8,
        111u8,
        if object.isolated {
            1u8
        } else {
            0u8
        },
        if object.transparency_group_color_space {
            1u8
        } else {
            0u8
        },
    ] + (match object.custom_bbox {
        Some(rect) => seq![1u8] + rect_bytes(rect_bits(rect)),
        None => seq![0u8],
    }) + stream_bytes(object.stream)
}

impl XObject {
    /// A form object.
    pub fn new(
        stream: ContentStream,
        isolated: bool,
        transparency_group_color_space: bool,
        custom_bbox: Option<Rect>,
    ) -> (object: XObject)
        ensures
            object.stream == stream,
            object.isolated == isolated,
            object.transparency_group_color_space == transparency_group_color_space,
            object.custom_bbox == custom_bbox,
    {
        XObject { stream, isolated, transparency_group_color_space, custom_bbox }
    }

    /// The box of the object: its own, or else that of its stream.
    pub fn bbox(&self) -> (rect: Rect)
        ensures
            rect == match self.custom_bbox {
                Some(own) => own,
                None => self.stream.bbox,
            },
    {
        match self.custom_bbox {
            Some(own) => own,
            None => self.stream.bbox,
        }
    }
}

/// The entries of the group of a form object: that it is a transparency
/// group, whether it is isolated, and its color space where it states
/// one.
pub open spec fn group_entries(isolated: bool, space: Option<Ref>) -> Seq<(Seq<char>, Entry)> {
    seq![("Type"@, Entry::Name("Group"@)), ("S"@, Entry::Name("Transparency"@))] + (if isolated {
        seq![("I"@, Entry::Bool(true))]
    } else {
        Seq::empty()
    }) + (match space {
        Some(r) => seq![("CS"@, Entry::Ref(r@))],
        None => Seq::empty(),
    })
}

/// Writes the entries of the group of a form object.
pub fn write_group_entries(dict: &mut pdf_writer::Dict<'_>, isolated: bool, space: Option<Ref>)
    ensures
        dict_entries(*final(dict)) == dict_entries(*old(dict)) + group_entries(isolated, space),
{
    dict_pair_name(dict, "Type", "Group");
    dict_pair_name(dict, "S", "Transparency");
    if isolated {
        dict_pair_bool(dict, "I", isolated);
    }
    if let Some(r) = space {
        dict_pair_ref(dict, "CS", r.get());
    }
    assert(dict_entries(*dict) =~= dict_entries(*old(dict)) + group_entries(isolated, space));
}

/// The entries of a form object, behind what a stream says of itself: its
/// type, its resources, its box, and its group where it is one.
pub open spec fn form_object_entries(object: XObject) -> Seq<(Seq<char>, Entry)> {
    seq![
        ("Type"@, Entry::Name("XObject"@)),
        ("Subtype"@, Entry::Name("Form"@)),
        ("Resources"@, Entry::Dict),
        (
            "BBox"@,
            Entry::Rect(
                rect_bits(
                    match object.custom_bbox {
                        Some(own) => own,
                        None => object.stream.bbox,
                    },
                ),
            ),
        ),
    ] + (if object.isolated || object.transparency_group_color_space {
        seq![("Group"@, Entry::Dict)]
    } else {
        Seq::empty()
    })
}

impl XObject {
    /// Writes the entries of the form object into the dictionary of its
    /// stream, and registers its resources on the way. The dictionary
    /// of the resources is written as
    /// [`crate::resource::ResourceDictionary::to_pdf_resources`] does; the
    /// group gets the entries of [`group_entries`], with `space` as its
    /// color space where it states one.
    pub fn write_entries(
        &self,
        sc: &mut SerializerContext,
        dict: &mut pdf_writer::Dict<'_>,
        space: Ref,
    )
        requires
            self.stream.resource_dictionary.wf(),
            old(sc)@.wf(),
            old(sc)@.next + self.stream.resource_dictionary.refs_needed_spec() <= MAX_REF,
        ensures
            final(sc)@.wf(),
            old(sc)@.grows_to(final(sc)@),
            final(sc)@.next <= old(sc)@.next + self.stream.resource_dictionary.refs_needed_spec(),
            crate::resource::color_spaces_registered(
                self.stream.resource_dictionary.color_spaces@,
                final(sc)@,
            ),
            crate::resource::states_registered(
                self.stream.resource_dictionary.ext_g_state@,
                final(sc)@,
            ),
            crate::resource::patterns_registered(
                self.stream.resource_dictionary.patterns@,
                final(sc)@,
            ),
            dict_entries(*final(dict)) == dict_entries(*old(dict)) + form_object_entries(*self),
    {
        dict_pair_name(dict, "Type", "XObject");
        dict_pair_name(dict, "Subtype", "Form");
        let mut resources = dict_insert_dict(dict, "Resources");
        self.stream.resource_dictionary.to_pdf_resources(sc, &mut resources);
        finish(resources);
        dict_pair_rect(dict, "BBox", self.bbox());
        if self.isolated || self.transparency_group_color_space {
            let mut group = dict_insert_dict(dict, "Group");
            write_group_entries(
                &mut group,
                self.isolated,
                if self.transparency_group_color_space {
                    Some(space)
                } else {
                    None
                },
            );
            finish(group);
        }
        assert(dict_entries(*dict) =~= dict_entries(*old(dict)) + form_object_entries(*self));
    }
}

impl Object for XObject {
    open spec fn identity_spec(&self) -> Seq<u8> {
        x_object_bytes(*self)
    }

    open spec fn refs_needed_spec(&self) -> nat {
        if self.stream.resource_dictionary.refs_needed_spec() <= MAX_REF - 1 {
            1 + self.stream.resource_dictionary.refs_needed_spec()
        } else {
            MAX_REF as nat
        }
    }

    open spec fn sound(&self) -> bool {
        self.stream.resource_dictionary.wf()
    }

    open spec fn fits_spec(&self) -> bool {
        self.stream.content@.len() <= i32::MAX
    }

    open spec fn category_spec() -> Category {
        Category::XObject
    }

    open spec fn fragment_refs(&self, root: i32, next: int) -> Seq<i32> {
        seq![root]
    }

    open spec fn produces(
        &self,
        before: ContextView,
        root: i32,
        after: ContextView,
        made: KrillaResult<Chunk>,
    ) -> bool {
        &&& made matches Ok(chunk) ==> chunk_refs(chunk) == seq![root]
        &&& made is Err ==> after == before
        &&& made is Ok ==> after.cache.contains_key(
            crate::resource::PdfColorSpace::SRGB.identity_spec(),
        )
        &&& made is Ok ==> crate::resource::color_spaces_registered(
            self.stream.resource_dictionary.color_spaces@,
            after,
        )
        &&& made is Ok ==> crate::resource::states_registered(
            self.stream.resource_dictionary.ext_g_state@,
            after,
        )
        &&& made is Ok ==> crate::resource::patterns_registered(
            self.stream.resource_dictionary.patterns@,
            after,
        )
    }

    fn identity(&self) -> (bytes: Vec<u8>) {
        let mut bytes: Vec<u8> = Vec::new();
        bytes.push(120);
        bytes.push(111);
        bytes.push(if self.isolated {
            1
        } else {
            0
        });
        bytes.push(if self.transparency_group_color_space {
            1
        } else {
            0
        });
        match self.custom_bbox {
            Some(rect) => {
                bytes.push(1);
                push_rect(&mut bytes, rect);
            },
            None => {
                bytes.push(0);
            },
        }
        push_stream(&mut bytes, &self.stream);
        assert(bytes@ =~= x_object_bytes(*self));
        bytes
    }

    fn refs_needed(&self) -> (n: i32) {
        let dictionary = &self.stream.resource_dictionary;
        let spaces = dictionary.color_spaces.len();
        let states = dictionary.ext_g_state.len();
        let patterns = dictionary.patterns.len();
        let limit = (MAX_REF - 1) as usize;
        if spaces > limit || states > limit || patterns > limit {
            return MAX_REF;
        }
        let sum = spaces + states;
        if sum > limit || patterns > limit - sum {
            return MAX_REF;
        }
        (1 + sum + patterns) as i32
    }

    fn category() -> (category: Category) {
        Category::XObject
    }

    /// A form object is a stream of its instructions, with its resources
    /// and its box. A group states whether it is isolated, and names the
    /// standard RGB color space where it states a color space. The color
    /// space is registered in any case, and so is every resource of the
    /// stream.
    fn serialize_into(self, sc: &mut SerializerContext, root_ref: Ref) -> (made: KrillaResult<Chunk>) {
        if self.stream.content.len() > i32::MAX as usize {
            return Err(KrillaError::StreamTooLong);
        }
        let ghost start = sc@;
        let srgb_ref = sc.srgb();
        let ghost middle = sc@;
        proof {
            lemma_registers_grows(
                start,
                crate::resource::PdfColorSpace::SRGB.identity_spec(),
                middle,
                srgb_ref@ as int,
            );
        }
        let mut chunk = chunk_new();
        let mut x_object = chunk_stream(&mut chunk, root_ref.get(), self.stream.content.as_slice());
        self.write_entries(sc, stream_dict(&mut x_object), srgb_ref);
        finish(x_object);
        proof {
            lemma_grows_on(start, middle, sc@);
        }
        Ok(chunk)
    }
}

impl RegisterableObject for XObject {

}

} // verus!
