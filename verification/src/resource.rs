//! The resources of a content stream and the names it knows them by.
use vstd::prelude::*;
use crate::error::{KrillaError, KrillaResult};
use vstd::string::StringExecFns;
use pdf_writer::Chunk;
use crate::chunk_container::Category;
use crate::geometry::{push_u32, u32_bytes};
use crate::object::ext_g_state::{state_bytes, ExtGState};
use crate::pdf::{
    array_item_int, array_item_name, array_item_ref, chunk_array, chunk_dict, chunk_new,
    chunk_stream, dict_insert_array, dict_insert_dict, dict_pair_int, dict_pair_name,
    dict_pair_ref, finish, stream_dict, array_items, dict_entries, lemma_given_after, Entry,
};
use crate::reference::{Ref, MAX_REF};
use crate::serialize::{
    lemma_grows_on, lemma_registers_grows, ContextView, Object, RegisterableObject,
    SerializerContext,
};

verus! {

/// The number of a resource within its category.
pub type ResourceNumber = u32;

/// A kind of resource. Two resources are the same where their views are.
pub trait PDFResource: View + Sized {
    /// The prefix of the names of the resources of this kind.
    spec fn name_spec() -> Seq<char>;

    /// The prefix of the names of the resources of this kind.
    fn get_name() -> (name: &'static str)
        ensures
            name@ == Self::name_spec(),
    ;

    /// Whether two resources are the same.
    fn same(&self, other: &Self) -> (b: bool)
        ensures
            b == (self@ == other@),
    ;

    /// A copy of the resource.
    fn copy(&self) -> (c: Self)
        ensures
            c@ == self@,
    ;
}

/// The character of a decimal digit.
pub open spec fn digit_char(d: int) -> char {
    if d == 0 {
        '0'
    } else if d == 1 {
        '1'
    } else if d == 2 {
        '2'
    } else if d == 3 {
        '3'
    } else if d == 4 {
        '4'
    } else if d == 5 {
        '5'
    } else if d == 6 {
        '6'
    } else if d == 7 {
        '7'
    } else if d == 8 {
        '8'
    } else {
        '9'
    }
}

/// The decimal digits of a number, without leading zeros.
pub open spec fn decimal(n: nat) -> Seq<char>
    decreases n,
{
    if n < 10 {
        seq![digit_char(n as int)]
    } else {
        decimal(n / 10).push(digit_char((n % 10) as int))
    }
}

/// The name of the resource with the given number: the prefix of its kind
/// and the number in decimal.
pub open spec fn resource_name(prefix: Seq<char>, number: ResourceNumber) -> Seq<char> {
    prefix + decimal(number as nat)
}

/// The number that a decimal digit stands for.
pub open spec fn digit_value(c: char) -> nat {
    if c == '1' {
        1
    } else if c == '2' {
        2
    } else if c == '3' {
        3
    } else if c == '4' {
        4
    } else if c == '5' {
        5
    } else if c == '6' {
        6
    } else if c == '7' {
        7
    } else if c == '8' {
        8
    } else if c == '9' {
        9
    } else {
        0
    }
}

/// The number that decimal digits stand for.
pub open spec fn decimal_value(digits: Seq<char>) -> nat
    decreases digits.len(),
{
    if digits.len() == 0 {
        0
    } else {
        decimal_value(digits.drop_last()) * 10 + digit_value(digits.last())
    }
}

/// The decimal digits of a number stand for the number.
pub proof fn lemma_decimal_value(n: nat)
    ensures
        decimal_value(decimal(n)) == n,
        decimal(n).len() >= 1,
    decreases n,
{
    if n < 10 {
        assert(decimal(n).drop_last() =~= Seq::<char>::empty());
        assert(decimal_value(Seq::<char>::empty()) == 0);
        assert(decimal(n).last() == digit_char(n as int));
    } else {
        lemma_decimal_value(n / 10);
        assert(decimal(n).drop_last() =~= decimal(n / 10));
        assert(decimal(n).last() == digit_char((n % 10) as int));
    }
}

/// Two resources of one kind have the same name only where they have the
/// same number.
pub proof fn lemma_names_differ(prefix: Seq<char>, a: ResourceNumber, b: ResourceNumber)
    requires
        resource_name(prefix, a) == resource_name(prefix, b),
    ensures
        a == b,
{
    lemma_decimal_value(a as nat);
    lemma_decimal_value(b as nat);
    let x = resource_name(prefix, a);
    let y = resource_name(prefix, b);
    assert(x.skip(prefix.len() as int) =~= decimal(a as nat));
    assert(y.skip(prefix.len() as int) =~= decimal(b as nat));
}

/// Within one mapper, a value has one number, and two values that differ
/// have numbers that differ: the numbers tell the values apart, and so do
/// the names.
pub proof fn lemma_numbers_tell_apart<T>(held: Seq<T>, a: ResourceNumber, b: ResourceNumber)
    requires
        held.no_duplicates(),
        a < held.len(),
        b < held.len(),
    ensures
        held[a as int] == held[b as int] <==> a == b,
{
}

/// The text of a decimal digit.
fn digit_text(d: u32) -> (text: &'static str)
    requires
        d < 10,
    ensures
        text@ == seq![digit_char(d as int)],
{
    proof {
        reveal_strlit("0");
        reveal_strlit("1");
        reveal_strlit("2");
        reveal_strlit("3");
        reveal_strlit("4");
        reveal_strlit("5");
        reveal_strlit("6");
        reveal_strlit("7");
        reveal_strlit("8");
        reveal_strlit("9");
    }
    let text = if d == 0 {
        "0"
    } else if d == 1 {
        "1"
    } else if d == 2 {
        "2"
    } else if d == 3 {
        "3"
    } else if d == 4 {
        "4"
    } else if d == 5 {
        "5"
    } else if d == 6 {
        "6"
    } else if d == 7 {
        "7"
    } else if d == 8 {
        "8"
    } else {
        "9"
    };
    assert(text@ =~= seq![digit_char(d as int)]);
    text
}

/// Appends a number in decimal.
pub fn push_decimal(text: &mut String, n: u32)
    ensures
        final(text)@ == old(text)@ + decimal(n as nat),
    decreases n,
{
    if n >= 10 {
        push_decimal(text, n / 10);
    }
    text.append(digit_text(n % 10));
    assert(text@ =~= old(text)@ + decimal(n as nat));
}

/// The resources of one kind that a content stream uses, each once, in the
/// order in which they were first registered. The number of a resource is
/// its place in that order.
pub struct ResourceMapper<V: PDFResource> {
    forward: Vec<V>,
}

impl<V: PDFResource> View for ResourceMapper<V> {
    type V = Seq<V::V>;

    closed spec fn view(&self) -> Seq<V::V> {
        Seq::new(self.forward@.len(), |i: int| self.forward@[i]@)
    }
}

impl<V: PDFResource> ResourceMapper<V> {
    /// No resource is held twice, and every resource has a number.
    pub open spec fn wf(&self) -> bool {
        &&& self@.no_duplicates()
        &&& self@.len() <= u32::MAX
    }

    /// A mapper without resources.
    pub fn new() -> (mapper: Self)
        ensures
            mapper@ == Seq::<V::V>::empty(),
            mapper.wf(),
    {
        let mapper = ResourceMapper { forward: Vec::new() };
        assert(mapper@ =~= Seq::<V::V>::empty());
        mapper
    }

    /// The number of resources held.
    pub fn len(&self) -> (n: usize)
        ensures
            n == self@.len(),
    {
        self.forward.len()
    }

    /// The place of a resource among those held.
    fn position(&self, resource: &V) -> (place: Option<usize>)
        ensures
            match place {
                Some(i) => i < self@.len() && self@[i as int] == resource@ && forall|j: int|
                    0 <= j < i ==> self@[j] != resource@,
                None => !self@.contains(resource@),
            },
    {
        let mut i: usize = 0;
        while i < self.forward.len()
            invariant
                i <= self.forward@.len(),
                self@.len() == self.forward@.len(),
                forall|j: int| 0 <= j < i ==> self@[j] != resource@,
            decreases self.forward@.len() - i,
        {
            assert(self@[i as int] == self.forward@[i as int]@);
            if self.forward[i].same(resource) {
                return Some(i);
            }
            i += 1;
        }
        None
    }

    /// The number of a resource, if it is held.
    pub fn get(&self, resource: V) -> (number: Option<ResourceNumber>)
        requires
            self.wf(),
        ensures
            match number {
                Some(n) => n < self@.len() && self@[n as int] == resource@,
                None => !self@.contains(resource@),
            },
    {
        match self.position(&resource) {
            Some(i) => Some(i as u32),
            None => None,
        }
    }

    /// The name of a resource, if it is held.
    pub fn get_with_name(&self, resource: V) -> (name: Option<String>)
        requires
            self.wf(),
        ensures
            match name {
                Some(text) => exists|n: ResourceNumber|
                    n < self@.len() && self@[n as int] == resource@ && text@ == resource_name(
                        V::name_spec(),
                        n,
                    ),
                None => !self@.contains(resource@),
            },
    {
        match self.get(resource) {
            Some(n) => Some(Self::name_from_number(n)),
            None => None,
        }
    }

    /// Registers a resource and returns its number. A resource that is held
    /// keeps its number, and nothing changes; any other is added behind
    /// those that are held.
    pub fn remap(&mut self, resource: V) -> (number: ResourceNumber)
        requires
            old(self).wf(),
            !old(self)@.contains(resource@) ==> old(self)@.len() < u32::MAX,
        ensures
            final(self).wf(),
            number < final(self)@.len(),
            final(self)@[number as int] == resource@,
            old(self)@.contains(resource@) ==> final(self)@ == old(self)@,
            !old(self)@.contains(resource@) ==> final(self)@ == old(self)@.push(resource@)
                && number == old(self)@.len(),
    {
        match self.position(&resource) {
            Some(i) => i as u32,
            None => {
                let number = self.forward.len();
                self.forward.push(resource);
                assert(self@ =~= old(self)@.push(resource@));
                assert forall|i: int, j: int|
                    0 <= i < self@.len() && 0 <= j < self@.len() && i != j implies self@[i]
                    != self@[j] by {
                    if i < number && j < number {
                        assert(old(self)@[i] != old(self)@[j]);
                    } else if i < number {
                        assert(old(self)@.contains(old(self)@[i]));
                    } else {
                        assert(old(self)@.contains(old(self)@[j]));
                    }
                }
                number as u32
            },
        }
    }

    /// Registers a resource and returns its name: see [`ResourceMapper::remap`].
    pub fn remap_with_name(&mut self, resource: V) -> (name: String)
        requires
            old(self).wf(),
            !old(self)@.contains(resource@) ==> old(self)@.len() < u32::MAX,
        ensures
            final(self).wf(),
            old(self)@.contains(resource@) ==> final(self)@ == old(self)@,
            !old(self)@.contains(resource@) ==> final(self)@ == old(self)@.push(resource@),
            exists|n: ResourceNumber|
                n < final(self)@.len() && final(self)@[n as int] == resource@ && name@
                    == resource_name(V::name_spec(), n),
    {
        let number = self.remap(resource);
        Self::name_from_number(number)
    }

    /// The name of the resource with the given number.
    pub fn name_from_number(num: ResourceNumber) -> (name: String)
        ensures
            name@ == resource_name(V::name_spec(), num),
    {
        let mut name = String::from_str(V::get_name());
        push_decimal(&mut name, num);
        name
    }

    /// The bytes that tell the resources held, in their order, from those
    /// of every mapper that holds others.
    pub closed spec fn identities(&self) -> Seq<u8>
        where V: Object
    {
        Self::identities_of(self.forward@)
    }

    /// The identities of a list of resources, in a row, each behind a byte
    /// that says that a resource follows.
    pub open spec fn identities_of(list: Seq<V>) -> Seq<u8>
        where V: Object
        decreases list.len(),
    {
        if list.len() == 0 {
            seq![0u8]
        } else {
            Self::identities_of(list.drop_last()) + seq![1u8] + list.last().identity_spec()
        }
    }

    /// The bytes that tell the resources held, in their order, from those
    /// of every mapper that holds others.
    pub fn identity_bytes(&self) -> (bytes: Vec<u8>)
        where V: Object
        ensures
            bytes@ == self.identities(),
    {
        let mut bytes: Vec<u8> = Vec::new();
        bytes.push(0);
        let mut i: usize = 0;
        assert(self.forward@.take(0) =~= Seq::empty());
        while i < self.forward.len()
            invariant
                i <= self.forward@.len(),
                bytes@ == Self::identities_of(self.forward@.take(i as int)),
            decreases self.forward@.len() - i,
        {
            assert(self.forward@.take(i + 1).drop_last() =~= self.forward@.take(i as int));
            let ghost before = bytes@;
            bytes.push(1);
            let own = self.forward[i].identity();
            let mut j: usize = 0;
            while j < own.len()
                invariant
                    j <= own@.len(),
                    bytes@ == before + seq![1u8] + own@.take(j as int),
                decreases own@.len() - j,
            {
                bytes.push(own[j]);
                assert(bytes@ =~= before + seq![1u8] + own@.take(j + 1));
                j += 1;
            }
            assert(own@.take(own@.len() as int) =~= own@);
            i += 1;
        }
        assert(self.forward@.take(self.forward@.len() as int) =~= self.forward@);
        bytes
    }

    /// The resources with their names, in the order in which they were
    /// first registered.
    pub fn get_entries(&self) -> (entries: Vec<(String, V)>)
        requires
            self.wf(),
        ensures
            entries@.len() == self@.len(),
            forall|i: int|
                0 <= i < entries@.len() ==> (#[trigger] entries@[i]).0@ == resource_name(
                    V::name_spec(),
                    i as ResourceNumber,
                ) && entries@[i].1@ == self@[i],
    {
        let mut entries: Vec<(String, V)> = Vec::new();
        let mut i: usize = 0;
        while i < self.forward.len()
            invariant
                i <= self.forward@.len(),
                self@.len() == self.forward@.len(),
                self@.len() <= u32::MAX,
                entries@.len() == i,
                forall|j: int|
                    0 <= j < i ==> (#[trigger] entries@[j]).0@ == resource_name(
                        V::name_spec(),
                        j as ResourceNumber,
                    ) && entries@[j].1@ == self@[j],
            decreases self.forward@.len() - i,
        {
            assert(self@[i as int] == self.forward@[i as int]@);
            entries.push((Self::name_from_number(i as u32), self.forward[i].copy()));
            i += 1;
        }
        entries
    }
}

/// A color space that a document can use.
#[derive(Debug, Hash, Eq, PartialEq, Clone, Copy, Structural)]
pub enum PdfColorSpace {
    /// The standard RGB color space.
    SRGB,
    /// Gray with the white point D65.
    D65Gray,
}

impl View for PdfColorSpace {
    type V = PdfColorSpace;

    open spec fn view(&self) -> PdfColorSpace {
        *self
    }
}

impl PDFResource for PdfColorSpace {
    open spec fn name_spec() -> Seq<char> {
        "cs"@
    }

    fn get_name() -> (name: &'static str) {
        "cs"
    }

    fn same(&self, other: &Self) -> (b: bool) {
        *self == *other
    }

    fn copy(&self) -> (c: Self) {
        *self
    }
}

/// The items of the range of an ICC profile: from 0 to 1 for each
/// component.
pub open spec fn range_items(components: int) -> Seq<Entry>
    decreases components,
{
    if components <= 0 {
        Seq::empty()
    } else {
        range_items(components - 1) + seq![Entry::Int(0), Entry::Int(1)]
    }
}

/// Writes the range of an ICC profile into its array.
pub fn write_range(array: &mut pdf_writer::Array<'_>, components: i32)
    requires
        components >= 0,
    ensures
        array_items(*final(array)) == array_items(*old(array)) + range_items(components as int),
{
    let ghost start = array_items(*array);
    let mut i: i32 = 0;
    assert(array_items(*array) =~= start + range_items(0));
    while i < components
        invariant
            0 <= i <= components,
            array_items(*array) == start + range_items(i as int),
        decreases components - i,
    {
        array_item_int(array, 0);
        array_item_int(array, 1);
        assert(array_items(*array) =~= start + range_items(i + 1));
        i += 1;
    }
}

/// The entries of the dictionary of an ICC profile, behind what a stream
/// says of itself: the number of components, the range of each, and the
/// filter that undoes the compression of the profile.
pub open spec fn profile_entries(components: i32) -> Seq<(Seq<char>, Entry)> {
    seq![
        ("N"@, Entry::Int(components)),
        ("Range"@, Entry::Array),
        ("Filter"@, Entry::Name("FlateDecode"@)),
    ]
}

/// Writes the entries of an ICC profile into the dictionary of its stream.
/// The array of the range gets the items of [`range_items`].
pub fn write_profile_entries(dict: &mut pdf_writer::Dict<'_>, components: i32)
    requires
        components >= 0,
    ensures
        dict_entries(*final(dict)) == dict_entries(*old(dict)) + profile_entries(components),
{
    dict_pair_int(dict, "N", components);
    let mut range = dict_insert_array(dict, "Range");
    write_range(&mut range, components);
    finish(range);
    dict_pair_name(dict, "Filter", "FlateDecode");
    assert(dict_entries(*dict) =~= dict_entries(*old(dict)) + profile_entries(components));
}

/// Writes an ICC profile as the stream object `id`, which holds the
/// compressed profile and the entries of [`profile_entries`].
fn write_icc_profile(chunk: &mut Chunk, id: Ref, profile: &Vec<u8>, components: i32)
    requires
        profile@.len() <= i32::MAX,
        components >= 0,
    ensures
        crate::pdf::chunk_refs(*final(chunk)) == crate::pdf::chunk_refs(*old(chunk)).push(id@),
{
    let mut stream = chunk_stream(chunk, id.get(), profile.as_slice());
    write_profile_entries(stream_dict(&mut stream), components);
    finish(stream);
}

impl Object for PdfColorSpace {
    open spec fn identity_spec(&self) -> Seq<u8> {
        match self {
            PdfColorSpace::SRGB => seq![99u8, 115u8, 0u8],
            PdfColorSpace::D65Gray => seq![99u8, 115u8, 1u8],
        }
    }

    open spec fn refs_needed_spec(&self) -> nat {
        0
    }

    open spec fn sound(&self) -> bool {
        true
    }

    open spec fn fits_spec(&self) -> bool {
        true
    }

    open spec fn category_spec() -> Category {
        Category::ColorSpace
    }

    open spec fn fragment_refs(&self, root: i32, next: int) -> Seq<i32> {
        seq![root]
    }

    open spec fn produces(
        &self,
        before: ContextView,
        root: i32,
        after: ContextView,
        made: KrillaResult<Chunk>,
    ) -> bool {
        after == before && (made matches Ok(chunk) && crate::pdf::chunk_refs(chunk) == seq![root])
    }

    fn identity(&self) -> (bytes: Vec<u8>) {
        let mut bytes: Vec<u8> = Vec::new();
        bytes.push(99);
        bytes.push(115);
        match self {
            PdfColorSpace::SRGB => bytes.push(0),
            PdfColorSpace::D65Gray => bytes.push(1),
        }
        assert(bytes@ =~= self.identity_spec());
        bytes
    }

    fn refs_needed(&self) -> (n: i32) {
        0
    }

    fn category() -> (category: Category) {
        Category::ColorSpace
    }

    /// A color space is written as its ICC profile, one object under the
    /// reference of the color space: the context stays as it is.
    fn serialize_into(self, sc: &mut SerializerContext, root_ref: Ref) -> (made: KrillaResult<Chunk>) {
        let mut chunk = chunk_new();
        match self {
            PdfColorSpace::SRGB => {
                write_icc_profile(&mut chunk, root_ref, sc.srgb_profile(), 3);
            },
            PdfColorSpace::D65Gray => {
                write_icc_profile(&mut chunk, root_ref, sc.gray_profile(), 1);
            },
        }
        Ok(chunk)
    }
}

impl RegisterableObject for PdfColorSpace {

}

/// A color space that is registered three times takes one reference and
/// leaves one fragment: the first registration hands out the next
/// reference and keeps the fragment, the other two return that reference
/// and change nothing, whatever is registered in between.
pub proof fn lemma_color_space_once(
    space: PdfColorSpace,
    start: ContextView,
    first: i32,
    after_first: ContextView,
    second: i32,
    after_second: ContextView,
    third: i32,
    after_third: ContextView,
)
    requires
        !start.cache.contains_key(space.identity_spec()),
        start.registers(space.identity_spec(), after_first, first as int),
        crate::serialize::kept(start, space, first, after_first),
        after_first.registers(space.identity_spec(), after_second, second as int),
        after_second.registers(space.identity_spec(), after_third, third as int),
    ensures
        first == start.next,
        second == first,
        third == first,
        after_third == after_first,
        after_first.next == start.next + 1,
        after_first.container.color_spaces@.len() == start.container.color_spaces@.len() + 1,
        forall|other: Category|
            other != Category::ColorSpace ==> after_first.container.category(other)
                == start.container.category(other),
{
    let identity = space.identity_spec();
    assert(after_first.cache.contains_key(identity));
    assert(after_second == after_first);
    let (made, slot) = choose|made: ContextView, slot: KrillaResult<Chunk>| #[trigger]
        space.produces(start.taken(identity, first), first, made, slot) && (slot is Ok
            <==> space.fits_spec()) && made.container.with_slot(
            Category::ColorSpace,
            slot,
            after_first.container,
        ) && after_first == (ContextView { container: after_first.container, ..made });
    assert(made == start.taken(identity, first));
}

/// The mapper for color spaces.
pub type CsResourceMapper = ResourceMapper<PdfColorSpace>;

/// A pattern that paints with a shading.
#[derive(Debug, Clone, Copy, PartialEq, Eq, Hash, Structural)]
pub struct ShadingPattern {
    /// The reference of the shading.
    pub shading: Ref,
}

/// A pattern that repeats a tile.
#[derive(Debug, Clone, Copy, PartialEq, Eq, Hash, Structural)]
pub struct TilingPattern {
    /// The reference of the form object that draws one tile.
    pub tile: Ref,
    /// The width of a tile.
    pub width: u16,
    /// The height of a tile.
    pub height: u16,
}

/// A pattern.
#[derive(Debug, Clone, Copy, PartialEq, Eq, Hash, Structural)]
pub enum PdfPattern {
    /// A pattern that paints with a shading.
    ShadingPattern(ShadingPattern),
    /// A pattern that repeats a tile.
    TilingPattern(TilingPattern),
}

impl View for PdfPattern {
    type V = PdfPattern;

    open spec fn view(&self) -> PdfPattern {
        *self
    }
}

impl PDFResource for PdfPattern {
    open spec fn name_spec() -> Seq<char> {
        "pa"@
    }

    fn get_name() -> (name: &'static str) {
        "pa"
    }

    fn same(&self, other: &Self) -> (b: bool) {
        *self == *other
    }

    fn copy(&self) -> (c: Self) {
        *self
    }
}

/// The bytes that tell a pattern from every other one.
pub open spec fn pattern_bytes(pattern: PdfPattern) -> Seq<u8> {
    match pattern {
        PdfPattern::ShadingPattern(p) => seq![112u8, 97u8, 0u8] + u32_bytes(p.shading@ as u32),
        PdfPattern::TilingPattern(p) => seq![112u8, 97u8, 1u8] + u32_bytes(p.tile@ as u32)
            + u32_bytes(p.width as u32) + u32_bytes(p.height as u32),
    }
}

/// What draws the tile of a tiling pattern: the form object named `T`.
pub open spec fn tile_content() -> Seq<u8> {
    seq![47u8, 84u8, 32u8, 68u8, 111u8]
}

/// The entries of a pattern that paints with a shading.
pub open spec fn shading_entries(pattern: ShadingPattern) -> Seq<(Seq<char>, Entry)> {
    seq![
        ("Type"@, Entry::Name("Pattern"@)),
        ("PatternType"@, Entry::Int(2)),
        ("Shading"@, Entry::Ref(pattern.shading@)),
    ]
}

/// Writes the entries of a pattern that paints with a shading.
pub fn write_shading_entries(dict: &mut pdf_writer::Dict<'_>, pattern: ShadingPattern)
    ensures
        dict_entries(*final(dict)) == dict_entries(*old(dict)) + shading_entries(pattern),
{
    dict_pair_name(dict, "Type", "Pattern");
    dict_pair_int(dict, "PatternType", 2);
    dict_pair_ref(dict, "Shading", pattern.shading.get());
    assert(dict_entries(*dict) =~= dict_entries(*old(dict)) + shading_entries(pattern));
}

/// The box of a tile: from the origin to its width and its height.
pub open spec fn tile_box_items(pattern: TilingPattern) -> Seq<Entry> {
    seq![
        Entry::Int(0),
        Entry::Int(0),
        Entry::Int(pattern.width as i32),
        Entry::Int(pattern.height as i32),
    ]
}

/// Writes the box of a tile into its array.
pub fn write_tile_box_items(array: &mut pdf_writer::Array<'_>, pattern: TilingPattern)
    ensures
        array_items(*final(array)) == array_items(*old(array)) + tile_box_items(pattern),
{
    array_item_int(array, 0);
    array_item_int(array, 0);
    array_item_int(array, pattern.width as i32);
    array_item_int(array, pattern.height as i32);
    assert(array_items(*array) =~= array_items(*old(array)) + tile_box_items(pattern));
}

/// The form objects that a tile names: its drawing, under the name `T`.
pub open spec fn tile_object_entries(pattern: TilingPattern) -> Seq<(Seq<char>, Entry)> {
    seq![("T"@, Entry::Ref(pattern.tile@))]
}

/// Writes the form objects that a tile names.
pub fn write_tile_object_entries(dict: &mut pdf_writer::Dict<'_>, pattern: TilingPattern)
    ensures
        dict_entries(*final(dict)) == dict_entries(*old(dict)) + tile_object_entries(pattern),
{
    dict_pair_ref(dict, "T", pattern.tile.get());
    assert(dict_entries(*dict) =~= dict_entries(*old(dict)) + tile_object_entries(pattern));
}

/// The resources of a tile: its form objects.
pub open spec fn tile_resource_entries() -> Seq<(Seq<char>, Entry)> {
    seq![("XObject"@, Entry::Dict)]
}

/// Writes the resources of a tile. The dictionary of the form objects
/// gets the entries of [`tile_object_entries`].
pub fn write_tile_resource_entries(dict: &mut pdf_writer::Dict<'_>, pattern: TilingPattern)
    ensures
        dict_entries(*final(dict)) == dict_entries(*old(dict)) + tile_resource_entries(),
{
    let mut objects = dict_insert_dict(dict, "XObject");
    write_tile_object_entries(&mut objects, pattern);
    finish(objects);
    assert(dict_entries(*dict) =~= dict_entries(*old(dict)) + tile_resource_entries());
}

/// The entries of a tiling pattern, behind what a stream says of itself:
/// a colored tile of constant spacing, its box, the steps from tile to
/// tile, and its resources.
pub open spec fn tiling_entries(pattern: TilingPattern) -> Seq<(Seq<char>, Entry)> {
    seq![
        ("Type"@, Entry::Name("Pattern"@)),
        ("PatternType"@, Entry::Int(1)),
        ("PaintType"@, Entry::Int(1)),
        ("TilingType"@, Entry::Int(1)),
        ("BBox"@, Entry::Array),
        ("XStep"@, Entry::Int(pattern.width as i32)),
        ("YStep"@, Entry::Int(pattern.height as i32)),
        ("Resources"@, Entry::Dict),
    ]
}

/// Writes the entries of a tiling pattern. The array of the box gets the
/// items of [`tile_box_items`], the dictionary of the resources the
/// entries of [`tile_resource_entries`].
pub fn write_tiling_entries(dict: &mut pdf_writer::Dict<'_>, pattern: TilingPattern)
    ensures
        dict_entries(*final(dict)) == dict_entries(*old(dict)) + tiling_entries(pattern),
{
    dict_pair_name(dict, "Type", "Pattern");
    dict_pair_int(dict, "PatternType", 1);
    dict_pair_int(dict, "PaintType", 1);
    dict_pair_int(dict, "TilingType", 1);
    let mut bbox = dict_insert_array(dict, "BBox");
    write_tile_box_items(&mut bbox, pattern);
    finish(bbox);
    dict_pair_int(dict, "XStep", pattern.width as i32);
    dict_pair_int(dict, "YStep", pattern.height as i32);
    let mut resources = dict_insert_dict(dict, "Resources");
    write_tile_resource_entries(&mut resources, pattern);
    finish(resources);
    assert(dict_entries(*dict) =~= dict_entries(*old(dict)) + tiling_entries(pattern));
}

impl Object for PdfPattern {
    open spec fn identity_spec(&self) -> Seq<u8> {
        pattern_bytes(*self)
    }

    open spec fn refs_needed_spec(&self) -> nat {
        0
    }

    open spec fn sound(&self) -> bool {
        true
    }

    open spec fn fits_spec(&self) -> bool {
        true
    }

    open spec fn category_spec() -> Category {
        Category::Pattern
    }

    open spec fn fragment_refs(&self, root: i32, next: int) -> Seq<i32> {
        seq![root]
    }

    open spec fn produces(
        &self,
        before: ContextView,
        root: i32,
        after: ContextView,
        made: KrillaResult<Chunk>,
    ) -> bool {
        after == before && (made matches Ok(chunk) && crate::pdf::chunk_refs(chunk) == seq![root])
    }

    fn identity(&self) -> (bytes: Vec<u8>) {
        let mut bytes: Vec<u8> = Vec::new();
        bytes.push(112);
        bytes.push(97);
        match self {
            PdfPattern::ShadingPattern(p) => {
                bytes.push(0);
                push_u32(&mut bytes, p.shading.get() as u32);
            },
            PdfPattern::TilingPattern(p) => {
                bytes.push(1);
                push_u32(&mut bytes, p.tile.get() as u32);
                push_u32(&mut bytes, p.width as u32);
                push_u32(&mut bytes, p.height as u32);
            },
        }
        assert(bytes@ =~= pattern_bytes(*self));
        bytes
    }

    fn refs_needed(&self) -> (n: i32) {
        0
    }

    fn category() -> (category: Category) {
        Category::Pattern
    }

    /// A shading pattern is a dictionary that names its shading. A tiling
    /// pattern is a stream that draws its tile once; the tiles lie side by
    /// side. The context stays as it is.
    fn serialize_into(self, sc: &mut SerializerContext, root_ref: Ref) -> (made: KrillaResult<Chunk>) {
        let mut chunk = chunk_new();
        match self {
            PdfPattern::ShadingPattern(p) => {
                let mut dict = chunk_dict(&mut chunk, root_ref.get());
                write_shading_entries(&mut dict, p);
                finish(dict);
            },
            PdfPattern::TilingPattern(p) => {
                let content: [u8; 5] = [47, 84, 32, 68, 111];
                let mut stream = chunk_stream(&mut chunk, root_ref.get(), content.as_slice());
                write_tiling_entries(stream_dict(&mut stream), p);
                finish(stream);
            },
        }
        Ok(chunk)
    }
}

impl RegisterableObject for PdfPattern {

}

/// The mapper for graphics states.
pub type ExtGStateResourceMapper = ResourceMapper<ExtGState>;

/// The mapper for patterns.
pub type PatternResourceMapper = ResourceMapper<PdfPattern>;

/// The resources of one content stream, by kind. The names are those of
/// this stream alone: the same object may have another name in another stream.
pub struct ResourceDictionary {
    /// The color spaces.
    pub color_spaces: CsResourceMapper,
    /// The graphics states.
    pub ext_g_state: ExtGStateResourceMapper,
    /// The patterns.
    pub patterns: PatternResourceMapper,
}

impl ResourceDictionary {
    /// Every mapper is well formed.
    pub open spec fn wf(&self) -> bool {
        self.color_spaces.wf() && self.ext_g_state.wf() && self.patterns.wf()
    }

    /// The number of references that registering every resource takes at
    /// most: two for a color space, one for any other resource.
    pub open spec fn refs_needed_spec(&self) -> nat {
        self.color_spaces@.len() + self.ext_g_state@.len() + self.patterns@.len()
    }

    /// A dictionary without resources.
    pub fn new() -> (dictionary: ResourceDictionary)
        ensures
            dictionary.wf(),
            dictionary.color_spaces@.len() == 0,
            dictionary.ext_g_state@.len() == 0,
            dictionary.patterns@.len() == 0,
    {
        ResourceDictionary {
            color_spaces: CsResourceMapper::new(),
            ext_g_state: ExtGStateResourceMapper::new(),
            patterns: PatternResourceMapper::new(),
        }
    }

    /// Registers a color space and returns its name in this stream.
    pub fn register_color_space(&mut self, color_space: PdfColorSpace) -> (name: String)
        requires
            old(self).wf(),
            !old(self).color_spaces@.contains(color_space) ==> old(self).color_spaces@.len()
                < u32::MAX,
        ensures
            final(self).wf(),
            final(self).ext_g_state@ == old(self).ext_g_state@,
            final(self).patterns@ == old(self).patterns@,
            old(self).color_spaces@.contains(color_space) ==> final(self).color_spaces@ == old(
                self,
            ).color_spaces@,
            !old(self).color_spaces@.contains(color_space) ==> final(self).color_spaces@ == old(
                self,
            ).color_spaces@.push(color_space),
            exists|n: ResourceNumber|
                n < final(self).color_spaces@.len() && final(self).color_spaces@[n as int]
                    == color_space && name@ == resource_name("cs"@, n),
    {
        self.color_spaces.remap_with_name(color_space)
    }

    /// Registers a graphics state and returns its name in this stream.
    pub fn register_ext_g_state(&mut self, ext_state: ExtGState) -> (name: String)
        requires
            old(self).wf(),
            !old(self).ext_g_state@.contains(ext_state@) ==> old(self).ext_g_state@.len()
                < u32::MAX,
        ensures
            final(self).wf(),
            final(self).color_spaces@ == old(self).color_spaces@,
            final(self).patterns@ == old(self).patterns@,
            old(self).ext_g_state@.contains(ext_state@) ==> final(self).ext_g_state@ == old(
                self,
            ).ext_g_state@,
            !old(self).ext_g_state@.contains(ext_state@) ==> final(self).ext_g_state@ == old(
                self,
            ).ext_g_state@.push(ext_state@),
            exists|n: ResourceNumber|
                n < final(self).ext_g_state@.len() && final(self).ext_g_state@[n as int]
                    == ext_state@ && name@ == resource_name("gs"@, n),
    {
        self.ext_g_state.remap_with_name(ext_state)
    }

    /// Registers a pattern and returns its name in this stream.
    pub fn register_pattern(&mut self, pdf_pattern: PdfPattern) -> (name: String)
        requires
            old(self).wf(),
            !old(self).patterns@.contains(pdf_pattern) ==> old(self).patterns@.len() < u32::MAX,
        ensures
            final(self).wf(),
            final(self).color_spaces@ == old(self).color_spaces@,
            final(self).ext_g_state@ == old(self).ext_g_state@,
            old(self).patterns@.contains(pdf_pattern) ==> final(self).patterns@ == old(
                self,
            ).patterns@,
            !old(self).patterns@.contains(pdf_pattern) ==> final(self).patterns@ == old(
                self,
            ).patterns@.push(pdf_pattern),
            exists|n: ResourceNumber|
                n < final(self).patterns@.len() && final(self).patterns@[n as int] == pdf_pattern
                    && name@ == resource_name("pa"@, n),
    {
        self.patterns.remap_with_name(pdf_pattern)
    }
}

/// Every color space of the list is registered.
pub open spec fn color_spaces_registered(list: Seq<PdfColorSpace>, context: ContextView) -> bool {
    forall|i: int|
        0 <= i < list.len() ==> context.cache.contains_key(
            #[trigger] list[i].identity_spec(),
        )
}

/// Every graphics state of the list is registered.
pub open spec fn states_registered(
    list: Seq<crate::object::ext_g_state::ExtGStateView>,
    context: ContextView,
) -> bool {
    forall|i: int|
        0 <= i < list.len() ==> context.cache.contains_key(
            state_bytes(#[trigger] list[i]),
        )
}

/// Every pattern of the list is registered.
pub open spec fn patterns_registered(list: Seq<PdfPattern>, context: ContextView) -> bool {
    forall|i: int|
        0 <= i < list.len() ==> context.cache.contains_key(
            pattern_bytes(#[trigger] list[i]),
        )
}

/// The entries of a dictionary of resources: each resource under its name,
/// in the order in which the resources were first registered, with the
/// reference under which the document holds it.
pub open spec fn named_references(
    prefix: Seq<char>,
    identities: Seq<Seq<u8>>,
    context: ContextView,
) -> Seq<(Seq<char>, Entry)> {
    Seq::new(
        identities.len(),
        |i: int|
            (
                resource_name(prefix, i as ResourceNumber),
                Entry::Ref(context.cache[identities[i]]),
            ),
    )
}

/// The identities of a list of color spaces.
pub open spec fn space_identities(list: Seq<PdfColorSpace>) -> Seq<Seq<u8>> {
    Seq::new(list.len(), |i: int| list[i].identity_spec())
}

/// The identities of a list of graphics states.
pub open spec fn state_identities(list: Seq<crate::object::ext_g_state::ExtGStateView>) -> Seq<
    Seq<u8>,
> {
    Seq::new(list.len(), |i: int| state_bytes(list[i]))
}

/// The identities of a list of patterns.
pub open spec fn pattern_identities(list: Seq<PdfPattern>) -> Seq<Seq<u8>> {
    Seq::new(list.len(), |i: int| pattern_bytes(list[i]))
}

impl ResourceDictionary {
    /// Registers the color spaces and writes them into their dictionary, each
    /// under its name, in the order of their numbers.
    pub fn write_color_spaces(&self, sc: &mut SerializerContext, dict: &mut pdf_writer::Dict<'_>)
        requires
            self.wf(),
            old(sc)@.wf(),
            old(sc)@.next + self.color_spaces@.len() <= MAX_REF,
        ensures
            final(sc)@.wf(),
            old(sc)@.grows_to(final(sc)@),
            final(sc)@.next <= old(sc)@.next + self.color_spaces@.len(),
            color_spaces_registered(self.color_spaces@, final(sc)@),
            dict_entries(*final(dict)) == dict_entries(*old(dict)) + named_references(
                PdfColorSpace::name_spec(),
                space_identities(self.color_spaces@),
                final(sc)@,
            ),
    {
        let ghost start = dict_entries(*dict);
        let ghost prefix = PdfColorSpace::name_spec();
        let ghost ids = space_identities(self.color_spaces@);
        let entries = self.color_spaces.get_entries();
        let mut i: usize = 0;
        assert(dict_entries(*dict) =~= start + named_references(prefix, ids.take(0), sc@));
        while i < entries.len()
            invariant
                i <= entries@.len(),
                entries@.len() == self.color_spaces@.len(),
                self.color_spaces@.len() <= u32::MAX,
                prefix == PdfColorSpace::name_spec(),
                ids == space_identities(self.color_spaces@),
                forall|j: int|
                    0 <= j < entries@.len() ==> (#[trigger] entries@[j]).1 == self.color_spaces@[j]
                        && entries@[j].0@ == resource_name(prefix, j as ResourceNumber),
                sc@.wf(),
                old(sc)@.grows_to(sc@),
                sc@.next <= old(sc)@.next + i,
                old(sc)@.next + self.color_spaces@.len() <= MAX_REF,
                color_spaces_registered(self.color_spaces@.take(i as int), sc@),
                dict_entries(*dict) == start + named_references(prefix, ids.take(i as int), sc@),
            decreases entries@.len() - i,
        {
            let ghost before = sc@;
            let ghost given = dict_entries(*dict);
            let entry = entries[i].1;
            let r = sc.add(entry);
            dict_pair_ref(dict, entries[i].0.as_str(), r.get());
            proof {
                lemma_registers_grows(
                    before,
                    entry.identity_spec(),
                    sc@,
                    r@ as int,
                );
                lemma_grows_on(old(sc)@, before, sc@);
                assert forall|j: int| 0 <= j < i + 1 implies sc@.cache.contains_key(
                    #[trigger] self.color_spaces@.take(i + 1)[j].identity_spec(),
                ) by {
                    if j < i {
                        assert(self.color_spaces@.take(i as int)[j] == self.color_spaces@[j]);
                        assert(before.cache.contains_key(
                            self.color_spaces@.take(i as int)[j].identity_spec(),
                        ));
                    }
                }
                let earlier = named_references(prefix, ids.take(i as int), before);
                let later = named_references(prefix, ids.take(i + 1), sc@);
                assert(ids[i as int] == entry.identity_spec());
                assert(sc@.cache[ids[i as int]] == r@);
                assert forall|j: int| 0 <= j < i implies earlier[j] == later[j] by {
                    assert(self.color_spaces@.take(i as int)[j] == self.color_spaces@[j]);
                    assert(before.cache.contains_key(
                        self.color_spaces@.take(i as int)[j].identity_spec(),
                    ));
                    assert(ids.take(i as int)[j] == ids.take(i + 1)[j]);
                }
                assert(later =~= earlier.push((entries@[i as int].0@, Entry::Ref(r@))));
                assert(dict_entries(*dict) =~= start + later);
            }
            i += 1;
        }
        assert(self.color_spaces@.take(i as int) =~= self.color_spaces@);
        assert(ids.take(i as int) =~= ids);
    }

    /// Registers the graphics states and writes them into their dictionary,
    /// each under its name, in the order of their numbers.
    pub fn write_states(&self, sc: &mut SerializerContext, dict: &mut pdf_writer::Dict<'_>)
        requires
            self.wf(),
            old(sc)@.wf(),
            old(sc)@.next + self.ext_g_state@.len() <= MAX_REF,
        ensures
            final(sc)@.wf(),
            old(sc)@.grows_to(final(sc)@),
            final(sc)@.next <= old(sc)@.next + self.ext_g_state@.len(),
            states_registered(self.ext_g_state@, final(sc)@),
            dict_entries(*final(dict)) == dict_entries(*old(dict)) + named_references(
                crate::object::ext_g_state::ExtGState::name_spec(),
                state_identities(self.ext_g_state@),
                final(sc)@,
            ),
    {
        let ghost start = dict_entries(*dict);
        let ghost prefix = crate::object::ext_g_state::ExtGState::name_spec();
        let ghost ids = state_identities(self.ext_g_state@);
        let entries = self.ext_g_state.get_entries();
        let mut i: usize = 0;
        assert(dict_entries(*dict) =~= start + named_references(prefix, ids.take(0), sc@));
        while i < entries.len()
            invariant
                i <= entries@.len(),
                entries@.len() == self.ext_g_state@.len(),
                self.ext_g_state@.len() <= u32::MAX,
                prefix == crate::object::ext_g_state::ExtGState::name_spec(),
                ids == state_identities(self.ext_g_state@),
                forall|j: int|
                    0 <= j < entries@.len() ==> (#[trigger] entries@[j]).1@ == self.ext_g_state@[j]
                        && entries@[j].0@ == resource_name(prefix, j as ResourceNumber),
                sc@.wf(),
                old(sc)@.grows_to(sc@),
                sc@.next <= old(sc)@.next + i,
                old(sc)@.next + self.ext_g_state@.len() <= MAX_REF,
                states_registered(self.ext_g_state@.take(i as int), sc@),
                dict_entries(*dict) == start + named_references(prefix, ids.take(i as int), sc@),
            decreases entries@.len() - i,
        {
            let ghost before = sc@;
            let ghost given = dict_entries(*dict);
            let entry = entries[i].1;
            let r = sc.add(entry);
            dict_pair_ref(dict, entries[i].0.as_str(), r.get());
            proof {
                lemma_registers_grows(
                    before,
                    entry.identity_spec(),
                    sc@,
                    r@ as int,
                );
                lemma_grows_on(old(sc)@, before, sc@);
                assert forall|j: int| 0 <= j < i + 1 implies sc@.cache.contains_key(
                    state_bytes(#[trigger] self.ext_g_state@.take(i + 1)[j]),
                ) by {
                    if j < i {
                        assert(self.ext_g_state@.take(i as int)[j] == self.ext_g_state@[j]);
                        assert(before.cache.contains_key(
                            state_bytes(self.ext_g_state@.take(i as int)[j]),
                        ));
                    }
                }
                let earlier = named_references(prefix, ids.take(i as int), before);
                let later = named_references(prefix, ids.take(i + 1), sc@);
                assert(ids[i as int] == entry.identity_spec());
                assert(sc@.cache[ids[i as int]] == r@);
                assert forall|j: int| 0 <= j < i implies earlier[j] == later[j] by {
                    assert(self.ext_g_state@.take(i as int)[j] == self.ext_g_state@[j]);
                    assert(before.cache.contains_key(
                        state_bytes(self.ext_g_state@.take(i as int)[j]),
                    ));
                    assert(ids.take(i as int)[j] == ids.take(i + 1)[j]);
                }
                assert(later =~= earlier.push((entries@[i as int].0@, Entry::Ref(r@))));
                assert(dict_entries(*dict) =~= start + later);
            }
            i += 1;
        }
        assert(self.ext_g_state@.take(i as int) =~= self.ext_g_state@);
        assert(ids.take(i as int) =~= ids);
    }

    /// Registers the patterns and writes them into their dictionary, each
    /// under its name, in the order of their numbers.
    pub fn write_patterns(&self, sc: &mut SerializerContext, dict: &mut pdf_writer::Dict<'_>)
        requires
            self.wf(),
            old(sc)@.wf(),
            old(sc)@.next + self.patterns@.len() <= MAX_REF,
        ensures
            final(sc)@.wf(),
            old(sc)@.grows_to(final(sc)@),
            final(sc)@.next <= old(sc)@.next + self.patterns@.len(),
            patterns_registered(self.patterns@, final(sc)@),
            dict_entries(*final(dict)) == dict_entries(*old(dict)) + named_references(
                PdfPattern::name_spec(),
                pattern_identities(self.patterns@),
                final(sc)@,
            ),
    {
        let ghost start = dict_entries(*dict);
        let ghost prefix = PdfPattern::name_spec();
        let ghost ids = pattern_identities(self.patterns@);
        let entries = self.patterns.get_entries();
        let mut i: usize = 0;
        assert(dict_entries(*dict) =~= start + named_references(prefix, ids.take(0), sc@));
        while i < entries.len()
            invariant
                i <= entries@.len(),
                entries@.len() == self.patterns@.len(),
                self.patterns@.len() <= u32::MAX,
                prefix == PdfPattern::name_spec(),
                ids == pattern_identities(self.patterns@),
                forall|j: int|
                    0 <= j < entries@.len() ==> (#[trigger] entries@[j]).1 == self.patterns@[j]
                        && entries@[j].0@ == resource_name(prefix, j as ResourceNumber),
                sc@.wf(),
                old(sc)@.grows_to(sc@),
                sc@.next <= old(sc)@.next + i,
                old(sc)@.next + self.patterns@.len() <= MAX_REF,
                patterns_registered(self.patterns@.take(i as int), sc@),
                dict_entries(*dict) == start + named_references(prefix, ids.take(i as int), sc@),
            decreases entries@.len() - i,
        {
            let ghost before = sc@;
            let ghost given = dict_entries(*dict);
            let entry = entries[i].1;
            let r = sc.add(entry);
            dict_pair_ref(dict, entries[i].0.as_str(), r.get());
            proof {
                lemma_registers_grows(
                    before,
                    entry.identity_spec(),
                    sc@,
                    r@ as int,
                );
                lemma_grows_on(old(sc)@, before, sc@);
                assert forall|j: int| 0 <= j < i + 1 implies sc@.cache.contains_key(
                    pattern_bytes(#[trigger] self.patterns@.take(i + 1)[j]),
                ) by {
                    if j < i {
                        assert(self.patterns@.take(i as int)[j] == self.patterns@[j]);
                        assert(before.cache.contains_key(
                            pattern_bytes(self.patterns@.take(i as int)[j]),
                        ));
                    }
                }
                let earlier = named_references(prefix, ids.take(i as int), before);
                let later = named_references(prefix, ids.take(i + 1), sc@);
                assert(ids[i as int] == entry.identity_spec());
                assert(sc@.cache[ids[i as int]] == r@);
                assert forall|j: int| 0 <= j < i implies earlier[j] == later[j] by {
                    assert(self.patterns@.take(i as int)[j] == self.patterns@[j]);
                    assert(before.cache.contains_key(
                        pattern_bytes(self.patterns@.take(i as int)[j]),
                    ));
                    assert(ids.take(i as int)[j] == ids.take(i + 1)[j]);
                }
                assert(later =~= earlier.push((entries@[i as int].0@, Entry::Ref(r@))));
                assert(dict_entries(*dict) =~= start + later);
            }
            i += 1;
        }
        assert(self.patterns@.take(i as int) =~= self.patterns@);
        assert(ids.take(i as int) =~= ids);
    }

    /// Writes the resources into the dictionary of a content stream: the
    /// color spaces, the graphics states and the patterns, each kind in a
    /// dictionary of its own, each resource under its name and in the order
    /// in which it was first registered. Every resource is registered with
    /// the context on the way, so that it is written once for the document.
    pub fn to_pdf_resources(&self, sc: &mut SerializerContext, resources: &mut pdf_writer::Dict<'_>)
        requires
            self.wf(),
            old(sc)@.wf(),
            old(sc)@.next + self.refs_needed_spec() <= MAX_REF,
        ensures
            final(sc)@.wf(),
            old(sc)@.grows_to(final(sc)@),
            final(sc)@.next <= old(sc)@.next + self.refs_needed_spec(),
            color_spaces_registered(self.color_spaces@, final(sc)@),
            states_registered(self.ext_g_state@, final(sc)@),
            patterns_registered(self.patterns@, final(sc)@),
            dict_entries(*final(resources)) == dict_entries(*old(resources)) + seq![
                ("ColorSpace"@, Entry::Dict),
                ("ExtGState"@, Entry::Dict),
                ("Pattern"@, Entry::Dict),
            ],
    {
        let mut spaces = dict_insert_dict(resources, "ColorSpace");
        self.write_color_spaces(sc, &mut spaces);
        finish(spaces);
        let ghost first = sc@;
        let mut states = dict_insert_dict(resources, "ExtGState");
        self.write_states(sc, &mut states);
        finish(states);
        let ghost second = sc@;
        let mut patterns = dict_insert_dict(resources, "Pattern");
        self.write_patterns(sc, &mut patterns);
        finish(patterns);
        proof {
            lemma_grows_on(old(sc)@, first, second);
            lemma_grows_on(old(sc)@, second, sc@);
            lemma_grows_on(first, second, sc@);
            assert(dict_entries(*resources) =~= dict_entries(*old(resources)) + seq![
                ("ColorSpace"@, Entry::Dict),
                ("ExtGState"@, Entry::Dict),
                ("Pattern"@, Entry::Dict),
            ]);
        }
    }
}

} // verus!
