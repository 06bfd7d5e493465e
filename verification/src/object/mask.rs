//! Masks: drawings that say how much of what lies under them shows.
use vstd::prelude::*;
use pdf_writer::Chunk;
use crate::chunk_container::Category;
use crate::error::{KrillaError, KrillaResult};
use crate::object::xobject::{push_stream, stream_bytes, x_object_bytes, XObject};
use crate::pdf::{
    chunk_dict, chunk_new, chunk_refs, dict_entries, dict_pair_name, dict_pair_ref, finish, Entry,
};
use crate::reference::{Ref, MAX_REF};
use crate::serialize::{
    lemma_registers_grows, ContextView, Object, RegisterableObject, SerializerContext,
};
use crate::stream::ContentStream;

verus! {

/// What of its drawing a mask goes by.
#[derive(Debug, Clone, Copy, PartialEq, Eq, Hash, Structural)]
pub enum MaskType {
    /// The brightness of the drawing.
    Luminosity,
    /// The opacity of the drawing.
    Alpha,
}

impl MaskType {
    /// The name of the kind of mask.
    pub open spec fn name(self) -> Seq<char> {
        match self {
            MaskType::Luminosity => "Luminosity"@,
            MaskType::Alpha => "Alpha"@,
        }
    }

    /// The name of the kind of mask.
    pub fn to_name(self) -> (name: &'static str)
        ensures
            name@ == self.name(),
    {
        match self {
            MaskType::Luminosity => "Luminosity",
            MaskType::Alpha => "Alpha",
        }
    }
}

/// A mask.
pub struct Mask {
    /// The drawing of the mask.
    pub stream: ContentStream,
    /// What of the drawing the mask goes by.
    pub mask_type: MaskType,
}

/// The form object that holds the drawing of a mask: a group that states
/// its color space.
pub open spec fn mask_group(mask: Mask) -> XObject {
    XObject {
        stream: mask.stream,
        isolated: false,
        transparency_group_color_space: true,
        custom_bbox: None,
    }
}

/// The bytes that tell a mask from every mask that differs from it.
pub open spec fn mask_bytes(mask: Mask) -> Seq<u8> {
    seq![
        109u8,
        97u8,
        match mask.mask_type {
            MaskType::Luminosity => 0u8,
            MaskType::Alpha => 1u8,
        },
    ] + stream_bytes(mask.stream)
}

impl Mask {
    /// A mask.
    pub fn new(stream: ContentStream, mask_type: MaskType) -> (mask: Mask)
        ensures
            mask.stream == stream,
            mask.mask_type == mask_type,
    {
        Mask { stream, mask_type }
    }
}

/// The entries of a mask: its type, its kind, and the form object of its
/// drawing.
pub open spec fn mask_entries(mask_type: MaskType, group: Ref) -> Seq<(Seq<char>, Entry)> {
    seq![
        ("Type"@, Entry::Name("Mask"@)),
        ("S"@, Entry::Name(mask_type.name())),
        ("G"@, Entry::Ref(group@)),
    ]
}

/// Writes the entries of a mask into its dictionary.
pub fn write_mask_entries(dict: &mut pdf_writer::Dict<'_>, mask_type: MaskType, group: Ref)
    ensures
        dict_entries(*final(dict)) == dict_entries(*old(dict)) + mask_entries(mask_type, group),
{
    dict_pair_name(dict, "Type", "Mask");
    dict_pair_name(dict, "S", mask_type.to_name());
    dict_pair_ref(dict, "G", group.get());
    assert(dict_entries(*dict) =~= dict_entries(*old(dict)) + mask_entries(mask_type, group));
}

impl Object for Mask {
    open spec fn identity_spec(&self) -> Seq<u8> {
        mask_bytes(*self)
    }

    open spec fn refs_needed_spec(&self) -> nat {
        if mask_group(*self).refs_needed_spec() < MAX_REF {
            1 + mask_group(*self).refs_needed_spec()
        } else {
            MAX_REF as nat
        }
    }

    open spec fn sound(&self) -> bool {
        mask_group(*self).sound()
    }

    open spec fn fits_spec(&self) -> bool {
        true
    }

    open spec fn category_spec() -> Category {
        Category::Mask
    }

    open spec fn fragment_refs(&self, root: i32, next: int) -> Seq<i32> {
        seq![root]
    }

    open spec fn produces(
        &self,
        before: ContextView,
        root: i32,
        after: ContextView,
        made: KrillaResult<Chunk>,
    ) -> bool {
        &&& made matches Ok(chunk) && chunk_refs(chunk) == seq![root]
        &&& exists|r: int| #[trigger]
            before.registers(
                mask_group(*self).identity_spec(),
                after,
                r,
            )
    }

    fn identity(&self) -> (bytes: Vec<u8>) {
        let mut bytes: Vec<u8> = Vec::new();
        bytes.push(109);
        bytes.push(97);
        bytes.push(
            match self.mask_type {
                MaskType::Luminosity => 0,
                MaskType::Alpha => 1,
            },
        );
        push_stream(&mut bytes, &self.stream);
        assert(bytes@ =~= mask_bytes(*self));
        bytes
    }

    fn refs_needed(&self) -> (n: i32) {
        let dictionary = &self.stream.resource_dictionary;
        let spaces = dictionary.color_spaces.len();
        let states = dictionary.ext_g_state.len();
        let patterns = dictionary.patterns.len();
        let limit = (MAX_REF - 2) as usize;
        if spaces > limit || states > limit || patterns > limit {
            return MAX_REF;
        }
        let sum = spaces + states;
        if sum > limit || patterns > limit - sum {
            return MAX_REF;
        }
        (2 + sum + patterns) as i32
    }

    fn category() -> (category: Category) {
        Category::Mask
    }

    /// A mask is a dictionary that names its kind and the form object of
    /// its drawing, which is registered on the way: that is all that
    /// happens to the context.
    fn serialize_into(self, sc: &mut SerializerContext, root_ref: Ref) -> (made: KrillaResult<Chunk>) {
        let ghost start = sc@;
        let mask_type = self.mask_type;
        let group = XObject::new(self.stream, false, true, None);
        let x_ref = sc.add(group);
        proof {
            lemma_registers_grows(
                start,
                group.identity_spec(),
                sc@,
                x_ref@ as int,
            );
        }
        let mut chunk = chunk_new();
        let mut dict = chunk_dict(&mut chunk, root_ref.get());
        write_mask_entries(&mut dict, mask_type, x_ref);
        finish(dict);
        Ok(chunk)
    }
}

impl RegisterableObject for Mask {

}

} // verus!
