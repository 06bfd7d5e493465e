//! Graphics states: how what is drawn blends with what is there.
use vstd::prelude::*;
use pdf_writer::Chunk;
use tiny_skia_path::NormalizedF32;
use crate::chunk_container::Category;
use crate::error::{KrillaError, KrillaResult};
use crate::geometry::{alpha_bits, alpha_to_bits, dict_pair_alpha, push_u32, u32_bytes};
use crate::pdf::{
    chunk_dict, chunk_new, chunk_refs, dict_entries, dict_pair_name, dict_pair_ref, finish, Entry,
};
use crate::reference::Ref;
use crate::resource::PDFResource;
use crate::serialize::{ContextView, Object, RegisterableObject, SerializerContext};

verus! {

/// How the colors of what is drawn mix with the colors that are there.
#[derive(Debug, Clone, Copy, PartialEq, Eq, Hash, Structural)]
pub enum BlendMode {
    /// The color drawn replaces the color that is there.
    Normal,
    /// The colors are multiplied.
    Multiply,
    /// The complements of the colors are multiplied.
    Screen,
    /// Multiply or screen, by the color that is there.
    Overlay,
    /// The darker of the colors.
    Darken,
    /// The lighter of the colors.
    Lighten,
    /// The color that is there is brightened.
    ColorDodge,
    /// The color that is there is darkened.
    ColorBurn,
    /// Multiply or screen, by the color drawn.
    HardLight,
    /// Darken or lighten, by the color drawn.
    SoftLight,
    /// The difference of the colors.
    Difference,
    /// As the difference, with less contrast.
    Exclusion,
    /// The hue of the color drawn.
    Hue,
    /// The saturation of the color drawn.
    Saturation,
    /// The hue and the saturation of the color drawn.
    Color,
    /// The luminosity of the color drawn.
    Luminosity,
}

impl BlendMode {
    /// The number of the blend mode.
    pub open spec fn spec_index(self) -> u8 {
        match self {
            BlendMode::Normal => 0,
            BlendMode::Multiply => 1,
            BlendMode::Screen => 2,
            BlendMode::Overlay => 3,
            BlendMode::Darken => 4,
            BlendMode::Lighten => 5,
            BlendMode::ColorDodge => 6,
            BlendMode::ColorBurn => 7,
            BlendMode::HardLight => 8,
            BlendMode::SoftLight => 9,
            BlendMode::Difference => 10,
            BlendMode::Exclusion => 11,
            BlendMode::Hue => 12,
            BlendMode::Saturation => 13,
            BlendMode::Color => 14,
            BlendMode::Luminosity => 15,
        }
    }

    /// The number of the blend mode.
    #[verifier::when_used_as_spec(spec_index)]
    pub fn index(self) -> (n: u8)
        ensures
            n == self.spec_index(),
    {
        match self {
            BlendMode::Normal => 0,
            BlendMode::Multiply => 1,
            BlendMode::Screen => 2,
            BlendMode::Overlay => 3,
            BlendMode::Darken => 4,
            BlendMode::Lighten => 5,
            BlendMode::ColorDodge => 6,
            BlendMode::ColorBurn => 7,
            BlendMode::HardLight => 8,
            BlendMode::SoftLight => 9,
            BlendMode::Difference => 10,
            BlendMode::Exclusion => 11,
            BlendMode::Hue => 12,
            BlendMode::Saturation => 13,
            BlendMode::Color => 14,
            BlendMode::Luminosity => 15,
        }
    }

    /// The name of the blend mode in a graphics state.
    pub open spec fn name_spec(self) -> Seq<char> {
        match self {
            BlendMode::Normal => "Normal"@,
            BlendMode::Multiply => "Multiply"@,
            BlendMode::Screen => "Screen"@,
            BlendMode::Overlay => "Overlay"@,
            BlendMode::Darken => "Darken"@,
            BlendMode::Lighten => "Lighten"@,
            BlendMode::ColorDodge => "ColorDodge"@,
            BlendMode::ColorBurn => "ColorBurn"@,
            BlendMode::HardLight => "HardLight"@,
            BlendMode::SoftLight => "SoftLight"@,
            BlendMode::Difference => "Difference"@,
            BlendMode::Exclusion => "Exclusion"@,
            BlendMode::Hue => "Hue"@,
            BlendMode::Saturation => "Saturation"@,
            BlendMode::Color => "Color"@,
            BlendMode::Luminosity => "Luminosity"@,
        }
    }

    /// The name of the blend mode in a graphics state.
    pub fn name(self) -> (name: &'static str)
        ensures
            name@ == self.name_spec(),
    {
        match self {
            BlendMode::Normal => "Normal",
            BlendMode::Multiply => "Multiply",
            BlendMode::Screen => "Screen",
            BlendMode::Overlay => "Overlay",
            BlendMode::Darken => "Darken",
            BlendMode::Lighten => "Lighten",
            BlendMode::ColorDodge => "ColorDodge",
            BlendMode::ColorBurn => "ColorBurn",
            BlendMode::HardLight => "HardLight",
            BlendMode::SoftLight => "SoftLight",
            BlendMode::Difference => "Difference",
            BlendMode::Exclusion => "Exclusion",
            BlendMode::Hue => "Hue",
            BlendMode::Saturation => "Saturation",
            BlendMode::Color => "Color",
            BlendMode::Luminosity => "Luminosity",
        }
    }
}

/// What a graphics state says, with each opacity as the bit pattern of its number.
pub struct ExtGStateView {
    /// The opacity of what is filled.
    pub non_stroking_alpha: Option<u32>,
    /// The opacity of what is stroked.
    pub stroking_alpha: Option<u32>,
    /// The blend mode.
    pub blend_mode: Option<BlendMode>,
    /// The reference of the mask.
    pub mask: Option<i32>,
}

/// A graphics state. Each of its parameters may be left open.
#[derive(Debug, Clone, Copy)]
pub struct ExtGState {
    non_stroking_alpha: Option<NormalizedF32>,
    stroking_alpha: Option<NormalizedF32>,
    blend_mode: Option<BlendMode>,
    mask: Option<Ref>,
}

/// The bit pattern of an opacity that may be left open.
pub open spec fn bits_of(alpha: Option<NormalizedF32>) -> Option<u32> {
    match alpha {
        Some(a) => Some(alpha_bits(a)),
        None => None,
    }
}

impl View for ExtGState {
    type V = ExtGStateView;

    closed spec fn view(&self) -> ExtGStateView {
        ExtGStateView {
            non_stroking_alpha: bits_of(self.non_stroking_alpha),
            stroking_alpha: bits_of(self.stroking_alpha),
            blend_mode: self.blend_mode,
            mask: match self.mask {
                Some(r) => Some(r@),
                None => None,
            },
        }
    }
}

/// The bytes of a number that may be left open: a byte that says whether it
/// is there, and then its four bytes.
pub open spec fn option_bytes(value: Option<u32>) -> Seq<u8> {
    match value {
        Some(v) => seq![1u8] + u32_bytes(v),
        None => seq![0u8],
    }
}

/// Appends the bytes of a number that may be left open.
fn push_option(bytes: &mut Vec<u8>, value: Option<u32>)
    ensures
        final(bytes)@ == old(bytes)@ + option_bytes(value),
{
    match value {
        Some(v) => {
            bytes.push(1);
            push_u32(bytes, v);
            assert(bytes@ =~= old(bytes)@ + option_bytes(value));
        },
        None => {
            bytes.push(0);
            assert(bytes@ =~= old(bytes)@ + option_bytes(value));
        },
    }
}

/// The bit pattern of an opacity that may be left open.
fn alpha_option(alpha: Option<NormalizedF32>) -> (bits: Option<u32>)
    ensures
        bits == bits_of(alpha),
{
    match alpha {
        Some(a) => Some(alpha_to_bits(a)),
        None => None,
    }
}

impl ExtGState {
    /// A graphics state that leaves everything open.
    pub fn new() -> (state: ExtGState)
        ensures
            state@ == (ExtGStateView {
                non_stroking_alpha: None,
                stroking_alpha: None,
                blend_mode: None,
                mask: None,
            }),
    {
        ExtGState { non_stroking_alpha: None, stroking_alpha: None, blend_mode: None, mask: None }
    }

    /// The state with the opacity of what is stroked.
    #[must_use]
    pub fn stroking_alpha(self, stroking_alpha: NormalizedF32) -> (state: ExtGState)
        ensures
            state@ == (ExtGStateView {
                stroking_alpha: Some(alpha_bits(stroking_alpha)),
                ..self@
            }),
    {
        ExtGState { stroking_alpha: Some(stroking_alpha), ..self }
    }

    /// The state with the opacity of what is filled.
    #[must_use]
    pub fn non_stroking_alpha(self, non_stroking_alpha: NormalizedF32) -> (state: ExtGState)
        ensures
            state@ == (ExtGStateView {
                non_stroking_alpha: Some(alpha_bits(non_stroking_alpha)),
                ..self@
            }),
    {
        ExtGState { non_stroking_alpha: Some(non_stroking_alpha), ..self }
    }

    /// The state with the blend mode.
    #[must_use]
    pub fn blend_mode(self, blend_mode: BlendMode) -> (state: ExtGState)
        ensures
            state@ == (ExtGStateView { blend_mode: Some(blend_mode), ..self@ }),
    {
        ExtGState { blend_mode: Some(blend_mode), ..self }
    }

    /// The state with the mask that has the given reference.
    #[must_use]
    pub fn mask(self, mask: Ref) -> (state: ExtGState)
        ensures
            state@ == (ExtGStateView { mask: Some(mask@), ..self@ }),
    {
        ExtGState { mask: Some(mask), ..self }
    }

    /// Whether the state leaves everything open.
    pub fn empty(&self) -> (b: bool)
        ensures
            b == (self@.mask is None && self@.stroking_alpha is None
                && self@.non_stroking_alpha is None && self@.blend_mode is None),
    {
        self.mask.is_none() && self.stroking_alpha.is_none() && self.non_stroking_alpha.is_none()
            && self.blend_mode.is_none()
    }

    /// Whether the state has a mask.
    pub fn has_mask(&self) -> (b: bool)
        ensures
            b == self@.mask is Some,
    {
        self.mask.is_some()
    }

    /// Takes over every parameter that `other` sets; the others stay.
    pub fn combine(&mut self, other: &ExtGState)
        ensures
            final(self)@ == (ExtGStateView {
                stroking_alpha: if other@.stroking_alpha is Some {
                    other@.stroking_alpha
                } else {
                    old(self)@.stroking_alpha
                },
                non_stroking_alpha: if other@.non_stroking_alpha is Some {
                    other@.non_stroking_alpha
                } else {
                    old(self)@.non_stroking_alpha
                },
                blend_mode: if other@.blend_mode is Some {
                    other@.blend_mode
                } else {
                    old(self)@.blend_mode
                },
                mask: if other@.mask is Some {
                    other@.mask
                } else {
                    old(self)@.mask
                },
            }),
    {
        if let Some(stroking_alpha) = other.stroking_alpha {
            self.stroking_alpha = Some(stroking_alpha);
        }
        if let Some(non_stroking_alpha) = other.non_stroking_alpha {
            self.non_stroking_alpha = Some(non_stroking_alpha);
        }
        if let Some(blend_mode) = other.blend_mode {
            self.blend_mode = Some(blend_mode);
        }
        if let Some(mask) = other.mask {
            self.mask = Some(mask);
        }
    }
}

/// The entry of an opacity, where it is set.
pub open spec fn alpha_entry(key: Seq<char>, alpha: Option<u32>) -> Seq<(Seq<char>, Entry)> {
    match alpha {
        Some(bits) => seq![(key, Entry::Alpha(bits))],
        None => Seq::empty(),
    }
}

/// The entry of the blend mode, where it is set.
pub open spec fn blend_entry(mode: Option<BlendMode>) -> Seq<(Seq<char>, Entry)> {
    match mode {
        Some(mode) => seq![("BM"@, Entry::Name(mode.name_spec()))],
        None => Seq::empty(),
    }
}

/// The entry of the mask, where it is set.
pub open spec fn mask_entry(mask: Option<i32>) -> Seq<(Seq<char>, Entry)> {
    match mask {
        Some(r) => seq![("SMask"@, Entry::Ref(r))],
        None => Seq::empty(),
    }
}

/// The entries of the dictionary of a graphics state, in their order: its
/// type, and each parameter that is set.
pub open spec fn state_entries(state: ExtGStateView) -> Seq<(Seq<char>, Entry)> {
    seq![("Type"@, Entry::Name("ExtGState"@))] + alpha_entry("ca"@, state.non_stroking_alpha)
        + alpha_entry("CA"@, state.stroking_alpha) + blend_entry(state.blend_mode) + mask_entry(
        state.mask,
    )
}

impl ExtGState {
    /// Writes the entries of the graphics state into its dictionary.
    pub fn write_entries(&self, dict: &mut pdf_writer::Dict<'_>)
        ensures
            dict_entries(*final(dict)) == dict_entries(*old(dict)) + state_entries(self@),
    {
        let ghost before = dict_entries(*dict);
        dict_pair_name(dict, "Type", "ExtGState");
        let ghost mut given = seq![("Type"@, Entry::Name("ExtGState"@))];
        assert(dict_entries(*dict) =~= before + given);
        if let Some(alpha) = self.non_stroking_alpha {
            dict_pair_alpha(dict, "ca", alpha);
        }
        proof {
            let more = alpha_entry("ca"@, self@.non_stroking_alpha);
            assert(dict_entries(*dict) =~= before + (given + more));
            given = given + more;
        }
        if let Some(alpha) = self.stroking_alpha {
            dict_pair_alpha(dict, "CA", alpha);
        }
        proof {
            let more = alpha_entry("CA"@, self@.stroking_alpha);
            assert(dict_entries(*dict) =~= before + (given + more));
            given = given + more;
        }
        if let Some(mode) = self.blend_mode {
            dict_pair_name(dict, "BM", mode.name());
        }
        proof {
            let more = blend_entry(self@.blend_mode);
            assert(dict_entries(*dict) =~= before + (given + more));
            given = given + more;
        }
        if let Some(mask) = self.mask {
            dict_pair_ref(dict, "SMask", mask.get());
        }
        proof {
            let more = mask_entry(self@.mask);
            assert(dict_entries(*dict) =~= before + (given + more));
            given = given + more;
        }
    }
}

/// The bytes that tell a graphics state from every other one.
pub open spec fn state_bytes(state: ExtGStateView) -> Seq<u8> {
    seq![103u8, 115u8] + option_bytes(state.non_stroking_alpha) + option_bytes(
        state.stroking_alpha,
    ) + option_bytes(
        match state.blend_mode {
            Some(mode) => Some(mode.index() as u32),
            None => None,
        },
    ) + option_bytes(
        match state.mask {
            Some(r) => Some(r as u32),
            None => None,
        },
    )
}

impl Object for ExtGState {
    open spec fn identity_spec(&self) -> Seq<u8> {
        state_bytes(self@)
    }

    open spec fn refs_needed_spec(&self) -> nat {
        0
    }

    open spec fn sound(&self) -> bool {
        true
    }

    open spec fn fits_spec(&self) -> bool {
        true
    }

    open spec fn category_spec() -> Category {
        Category::ExtGState
    }

    open spec fn fragment_refs(&self, root: i32, next: int) -> Seq<i32> {
        seq![root]
    }

    open spec fn produces(
        &self,
        before: ContextView,
        root: i32,
        after: ContextView,
        made: KrillaResult<Chunk>,
    ) -> bool {
        after == before && (made matches Ok(chunk) && chunk_refs(chunk) == seq![root])
    }

    fn identity(&self) -> (bytes: Vec<u8>) {
        let mut bytes: Vec<u8> = Vec::new();
        bytes.push(103);
        bytes.push(115);
        push_option(&mut bytes, alpha_option(self.non_stroking_alpha));
        push_option(&mut bytes, alpha_option(self.stroking_alpha));
        push_option(
            &mut bytes,
            match self.blend_mode {
                Some(mode) => Some(mode.index() as u32),
                None => None,
            },
        );
        push_option(
            &mut bytes,
            match self.mask {
                Some(r) => Some(r.get() as u32),
                None => None,
            },
        );
        assert(bytes@ =~= state_bytes(self@));
        bytes
    }

    fn refs_needed(&self) -> (n: i32) {
        0
    }

    fn category() -> (category: Category) {
        Category::ExtGState
    }

    /// A graphics state is a dictionary of the parameters that it sets.
    /// The context stays as it is.
    fn serialize_into(self, sc: &mut SerializerContext, root_ref: Ref) -> (made: KrillaResult<Chunk>) {
        let mut chunk = chunk_new();
        let mut state = chunk_dict(&mut chunk, root_ref.get());
        self.write_entries(&mut state);
        finish(state);
        Ok(chunk)
    }
}

impl RegisterableObject for ExtGState {

}

impl PDFResource for ExtGState {
    open spec fn name_spec() -> Seq<char> {
        "gs"@
    }

    fn get_name() -> (name: &'static str) {
        "gs"
    }

    fn same(&self, other: &Self) -> (b: bool) {
        let a = self.mask;
        let b = other.mask;
        let masks = match (a, b) {
            (Some(x), Some(y)) => x.get() == y.get(),
            (None, None) => true,
            _ => false,
        };
        masks && alpha_option(self.non_stroking_alpha) == alpha_option(other.non_stroking_alpha)
            && alpha_option(self.stroking_alpha) == alpha_option(other.stroking_alpha)
            && self.blend_mode == other.blend_mode
    }

    fn copy(&self) -> (c: Self) {
        *self
    }
}

} // verus!
