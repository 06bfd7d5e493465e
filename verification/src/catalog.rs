//! The root of a document: what the catalog declares, and how it is written.
use vstd::prelude::*;
use vstd::string::StringExecFns;
use pdf_writer::Chunk;
use crate::chunk_container::ChunkContainer;
use crate::configure::{PdfVersion, SerializeSettings};
use crate::error::{KrillaError, KrillaResult};
use crate::metadata::{pdf_date, DateTime, Metadata, PageLayout, PdfSig, TextDirection};
use crate::pdf::{
    array_item_int, array_item_ref, array_item_str, array_push_dict, catalog_dict,
    dict_insert_array, dict_insert_dict, dict_pair_bool, dict_pair_int, dict_pair_name,
    chunk_dict, chunk_new, chunk_refs, chunk_stream, dict_pair_ref, dict_pair_str,
    dict_pair_text, finish, info_dict, pdf_bytes, pdf_catalog, pdf_document_info, pdf_extend,
    pdf_refs, stream_dict, dict_entries, Entry, array_items, lemma_given_after,
};
use crate::signature::{placeholder, BYTE_RANGE_MARK};
use crate::reference::{Ref, MAX_REF};
use crate::remap::RefTable;

verus! {

/// The two objects that a signature adds to a document.
#[derive(Clone, Copy, Debug)]
pub struct SignaturePlan {
    /// The form field that shows the signature.
    pub widget: Ref,
    /// The signature dictionary.
    pub signature: Ref,
}

/// What the catalog of a document declares. Every reference is one of the
/// finished document.
#[derive(Debug)]
pub struct CatalogPlan {
    /// The metadata stream, written just before the catalog.
    pub metadata: Option<Ref>,
    /// The catalog itself.
    pub catalog: Ref,
    /// The page tree.
    pub pages: Option<Ref>,
    /// The tree of page labels.
    pub page_labels: Option<Ref>,
    /// The output intents.
    pub output_intents: Option<Ref>,
    /// The language of the document.
    pub lang: Option<String>,
    /// The root of the structure tree; with it the document is marked as tagged.
    pub struct_tree_root: Option<Ref>,
    /// Whether a tagged document also declares that it has no suspect marks.
    pub suspects: bool,
    /// Whether viewers are to show the title of the document.
    pub display_doc_title: bool,
    /// The main direction of the text.
    pub direction: Option<TextDirection>,
    /// How the pages are laid out.
    pub page_layout: Option<PageLayout>,
    /// The outline.
    pub outlines: Option<Ref>,
    /// The named destinations, in the order in which they are written.
    pub destinations: Vec<(String, Ref)>,
    /// The embedded files by name, where the catalog declares them.
    pub embedded_files: Option<Vec<(String, Ref)>>,
    /// The embedded files that are also listed as associated files.
    pub associated_files: Vec<Ref>,
    /// The objects of the signature, where the document is to be signed.
    pub signature: Option<SignaturePlan>,
}

/// Whether a container holds one of the fragments that a catalog points to.
pub open spec fn has_structure(container: ChunkContainer) -> bool {
    container.page_tree is Some || container.outline is Some || container.page_label_tree is Some
        || container.destination_profiles is Some || container.struct_tree_root is Some
}

/// The references of a list of named objects.
pub open spec fn targets(list: Seq<(String, Ref)>) -> Seq<i32> {
    Seq::new(list.len(), |i: int| list[i].1@)
}

/// The reference of a fragment that stands alone in its category, as a list.
pub open spec fn single_list(single: Option<(Ref, Chunk)>) -> Seq<i32> {
    match single {
        Some((r, _)) => seq![r@],
        None => Seq::empty(),
    }
}

/// The references that a catalog looks up, in the order of the lookups.
pub open spec fn catalog_lookups(
    container: ChunkContainer,
    destinations: Seq<(String, Ref)>,
    files: Seq<(String, Ref)>,
) -> Seq<i32> {
    single_list(container.page_tree) + single_list(container.page_label_tree) + single_list(
        container.destination_profiles,
    ) + single_list(container.struct_tree_root) + single_list(container.outline) + targets(
        destinations,
    ) + targets(files)
}

/// The first reference of a list that `map` has no entry for.
pub open spec fn first_unmapped(refs: Seq<i32>, map: Map<i32, i32>) -> Option<i32>
    decreases refs.len(),
{
    if refs.len() == 0 {
        None
    } else {
        match first_unmapped(refs.drop_last(), map) {
            Some(r) => Some(r),
            None => if map.contains_key(refs.last()) {
                None
            } else {
                Some(refs.last())
            },
        }
    }
}

/// How many references a catalog needs for itself: one, one more for the
/// metadata stream, and two more for a signature.
pub open spec fn catalog_needs(metadata: bool, signed: bool) -> int {
    1 + if metadata {
        1int
    } else {
        0
    } + if signed {
        2int
    } else {
        0
    }
}

/// Whether a document is set up to be signed: it names a signer, it says
/// when it was made, and it has pages.
pub open spec fn is_signed(container: ChunkContainer, signer: bool) -> bool {
    signer && container.page_tree is Some && (container.metadata matches Some(m)
        && m.creation_date is Some)
}

/// The entries of a list under the references of the finished document.
pub open spec fn mapped_entries(
    out: Seq<(String, Ref)>,
    list: Seq<(String, Ref)>,
    map: Map<i32, i32>,
) -> bool {
    &&& out.len() == list.len()
    &&& forall|i: int|
        0 <= i < list.len() ==> (#[trigger] out[i]).0 == list[i].0 && out[i].1@ == map[list[i].1@]
}

/// The reference of the finished document that stands for an optional one.
pub open spec fn mapped_single(out: Option<Ref>, single: Option<(Ref, Chunk)>, map: Map<i32, i32>) -> bool {
    match single {
        Some((r, _)) => out matches Some(n) && n@ == map[r@],
        None => out is None,
    }
}

/// The catalog that `plan` describes is the one that the rules ask for: see
/// [`plan_catalog`].
pub open spec fn plan_follows(
    plan: CatalogPlan,
    container: ChunkContainer,
    map: Map<i32, i32>,
    settings: SerializeSettings,
    signer: bool,
    destinations: Seq<(String, Ref)>,
    files: Seq<(String, Ref)>,
    next: int,
) -> bool {
    let language = match container.metadata {
        Some(m) => m.language,
        None => None,
    };
    let direction = match container.metadata {
        Some(m) => m.text_direction,
        None => None,
    };
    let layout = match container.metadata {
        Some(m) => m.page_layout,
        None => None,
    };
    &&& match plan.metadata {
        Some(r) => settings.xmp_metadata && r@ == next,
        None => !settings.xmp_metadata,
    }
    &&& plan.catalog@ == next + if settings.xmp_metadata {
        1int
    } else {
        0
    }
    &&& mapped_single(plan.pages, container.page_tree, map)
    &&& mapped_single(plan.page_labels, container.page_label_tree, map)
    &&& mapped_single(plan.output_intents, container.destination_profiles, map)
    &&& mapped_single(plan.struct_tree_root, container.struct_tree_root, map)
    &&& mapped_single(plan.outlines, container.outline, map)
    &&& plan.lang == language
    &&& plan.suspects == (container.struct_tree_root is Some && settings.pdf_version.at_least(
        PdfVersion::Pdf16,
    ) && !settings.pdf_version.at_least(PdfVersion::Pdf20))
    &&& plan.display_doc_title == settings.validator.display_doc_title
    &&& plan.direction == direction
    &&& plan.page_layout == match layout {
        Some(l) => if settings.pdf_version.at_least(PdfVersion::Pdf15) || !l.is_two_page() {
            Some(l)
        } else {
            None
        },
        None => None,
    }
    &&& mapped_entries(plan.destinations@, destinations, map)
    &&& match plan.embedded_files {
        Some(list) => settings.validator.write_embedded_files(files.len() == 0) && mapped_entries(
            list@,
            files,
            map,
        ),
        None => !settings.validator.write_embedded_files(files.len() == 0),
    }
    &&& if files.len() > 0 && settings.validator.associated_files {
        &&& plan.associated_files@.len() == files.len()
        &&& forall|i: int|
            0 <= i < files.len() ==> (#[trigger] plan.associated_files@[i])@ == map[files[i].1@]
    } else {
        plan.associated_files@.len() == 0
    }
    &&& match plan.signature {
        Some(s) => is_signed(container, signer) && s.widget@ == plan.catalog@ + 1 && s.signature@
            == plan.catalog@ + 2,
        None => !is_signed(container, signer),
    }
}

/// Whether a catalog looks the embedded files up: it declares them, or lists
/// them as associated files.
pub open spec fn uses_files(settings: SerializeSettings, files: Seq<(String, Ref)>) -> bool {
    settings.validator.write_embedded_files(files.len() == 0) || (files.len() > 0
        && settings.validator.associated_files)
}

/// Looks up the reference of a fragment that stands alone in its category.
fn lookup_single(single: &Option<(Ref, Chunk)>, table: &RefTable) -> (result: KrillaResult<Option<Ref>>)
    requires
        table@.wf(),
    ensures
        match first_unmapped(single_list(*single), table@.map) {
            Some(r) => result matches Err(e) && e == KrillaError::UnknownReference(r),
            None => result matches Ok(out) && mapped_single(out, *single, table@.map),
        },
{
    match single {
        Some((r, _)) => {
            assert(seq![r@].drop_last() =~= Seq::<i32>::empty());
            assert(first_unmapped(Seq::<i32>::empty(), table@.map) is None);
            assert(seq![r@].last() == r@);
            match table.get(r.get()) {
                Some(n) => Ok(Some(Ref::new(n))),
                None => Err(KrillaError::UnknownReference(r.get())),
            }
        },
        None => Ok(None),
    }
}

/// Looks up the references of a list of named objects, in order.
fn lookup_entries(list: &Vec<(String, Ref)>, table: &RefTable) -> (result: KrillaResult<
    Vec<(String, Ref)>,
>)
    requires
        table@.wf(),
    ensures
        match first_unmapped(targets(list@), table@.map) {
            Some(r) => result matches Err(e) && e == KrillaError::UnknownReference(r),
            None => result matches Ok(out) && mapped_entries(out@, list@, table@.map),
        },
{
    let mut out: Vec<(String, Ref)> = Vec::new();
    let n = list.len();
    let mut i: usize = 0;
    assert(targets(list@).take(0) =~= Seq::<i32>::empty());
    while i < n
        invariant
            n == list@.len(),
            i <= n,
            table@.wf(),
            first_unmapped(targets(list@).take(i as int), table@.map) is None,
            mapped_entries(out@, list@.take(i as int), table@.map),
        decreases n - i,
    {
        let ghost refs = targets(list@);
        assert(refs.take(i + 1).drop_last() =~= refs.take(i as int));
        assert(refs.take(i + 1).last() == list@[i as int].1@);
        let r = list[i].1;
        match table.get(r.get()) {
            Some(new) => {
                out.push((list[i].0.clone(), Ref::new(new)));
            },
            None => {
                proof {
                    lemma_first_unmapped_stays(refs, table@.map, i + 1);
                }
                return Err(KrillaError::UnknownReference(r.get()));
            },
        }
        i += 1;
    }
    assert(targets(list@).take(n as int) =~= targets(list@));
    assert(list@.take(n as int) =~= list@);
    Ok(out)
}

/// A reference without an entry among the first of a list is the first such
/// of the list.
pub proof fn lemma_first_unmapped_stays(refs: Seq<i32>, map: Map<i32, i32>, k: int)
    requires
        0 <= k <= refs.len(),
        first_unmapped(refs.take(k), map) is Some,
    ensures
        first_unmapped(refs, map) == first_unmapped(refs.take(k), map),
    decreases refs.len() - k,
{
    if k < refs.len() {
        assert(refs.take(k + 1).drop_last() =~= refs.take(k));
        lemma_first_unmapped_stays(refs, map, k + 1);
    } else {
        assert(refs.take(k) =~= refs);
    }
}

/// The first reference without an entry in two lists in a row is that of the
/// first list, or else that of the second.
pub proof fn lemma_first_unmapped_concat(a: Seq<i32>, b: Seq<i32>, map: Map<i32, i32>)
    ensures
        first_unmapped(a + b, map) == match first_unmapped(a, map) {
            Some(r) => Some(r),
            None => first_unmapped(b, map),
        },
    decreases b.len(),
{
    if b.len() == 0 {
        assert(a + b =~= a);
    } else {
        assert((a + b).drop_last() =~= a + b.drop_last());
        lemma_first_unmapped_concat(a, b.drop_last(), map);
    }
}

/// Where a named object goes in a list ordered by reference: behind every
/// object whose reference is not above its own.
pub open spec fn place_of(list: Seq<(String, Ref)>, target: i32) -> int
    decreases list.len(),
{
    if list.len() == 0 || list[0].1@ > target {
        0
    } else {
        1 + place_of(list.skip(1), target)
    }
}

/// A list of named objects ordered by reference; objects with the same
/// reference keep the order in which they stand in the list.
pub open spec fn sorted_by_target(list: Seq<(String, Ref)>) -> Seq<(String, Ref)>
    decreases list.len(),
{
    if list.len() == 0 {
        Seq::empty()
    } else {
        let front = sorted_by_target(list.drop_last());
        front.insert(place_of(front, list.last().1@), list.last())
    }
}

/// The place of an object is within the list.
pub proof fn lemma_place_of(list: Seq<(String, Ref)>, target: i32)
    ensures
        0 <= place_of(list, target) <= list.len(),
    decreases list.len(),
{
    if list.len() > 0 && list[0].1@ <= target {
        lemma_place_of(list.skip(1), target);
    }
}

/// Whether the references of a list of named objects never go down.
pub open spec fn ordered_by_target(list: Seq<(String, Ref)>) -> bool {
    forall|i: int, j: int| 0 <= i < j < list.len() ==> list[i].1@ <= list[j].1@
}

/// In a list ordered by reference, every object before the place of a
/// reference has a reference that is not above it, and every object from
/// that place on has one above it.
pub proof fn lemma_place_splits(list: Seq<(String, Ref)>, target: i32)
    requires
        ordered_by_target(list),
    ensures
        forall|k: int| 0 <= k < place_of(list, target) ==> (#[trigger] list[k]).1@ <= target,
        forall|k: int| place_of(list, target) <= k < list.len() ==> (#[trigger] list[k]).1@ > target,
    decreases list.len(),
{
    lemma_place_of(list, target);
    if list.len() > 0 {
        if list[0].1@ <= target {
            let rest = list.skip(1);
            assert forall|i: int, j: int| 0 <= i < j < rest.len() implies rest[i].1@
                <= rest[j].1@ by {
                assert(rest[i] == list[i + 1] && rest[j] == list[j + 1]);
            }
            lemma_place_splits(rest, target);
            lemma_place_of(rest, target);
            assert(place_of(list, target) == 1 + place_of(rest, target));
            assert forall|k: int| 0 <= k < place_of(list, target) implies (#[trigger] list[k]).1@
                <= target by {
                if k > 0 {
                    assert(0 <= k - 1 < rest.len());
                    assert(list[k] == rest[k - 1]);
                }
            }
            assert forall|k: int| place_of(list, target) <= k < list.len() implies (
            #[trigger] list[k]).1@ > target by {
                assert(list[k] == rest[k - 1]);
            }
        } else {
            assert forall|k: int| 0 <= k < list.len() implies (#[trigger] list[k]).1@ > target by {
                if k > 0 {
                    assert(list[0].1@ <= list[k].1@);
                }
            }
        }
    }
}

/// Ordering a list by reference gives a list of the same objects whose
/// references never go down.
pub proof fn lemma_sorted_by_target(list: Seq<(String, Ref)>)
    ensures
        sorted_by_target(list).len() == list.len(),
        ordered_by_target(sorted_by_target(list)),
        sorted_by_target(list).to_multiset() == list.to_multiset(),
    decreases list.len(),
{
    if list.len() > 0 {
        let front = sorted_by_target(list.drop_last());
        let last = list.last();
        let place = place_of(front, last.1@);
        lemma_sorted_by_target(list.drop_last());
        lemma_place_of(front, last.1@);
        lemma_place_splits(front, last.1@);
        let out = front.insert(place, last);
        assert forall|i: int, j: int| 0 <= i < j < out.len() implies out[i].1@ <= out[j].1@ by {
            if i < place && j > place {
                assert(out[i] == front[i] && out[j] == front[j - 1]);
            } else if i < place && j < place {
                assert(out[i] == front[i] && out[j] == front[j]);
            } else if i > place {
                assert(out[i] == front[i - 1] && out[j] == front[j - 1]);
            }
        }
        vstd::seq_lib::to_multiset_insert(front, place, last);
        vstd::seq_lib::to_multiset_build(list.drop_last(), last);
        assert(list.drop_last().push(last) =~= list);
    } else {
        assert(list =~= Seq::empty());
    }
}

/// Finds the place of an object in a list ordered by reference.
fn find_place(list: &Vec<(String, Ref)>, target: Ref) -> (place: usize)
    ensures
        place == place_of(list@, target@),
        place <= list@.len(),
{
    let mut place: usize = 0;
    assert(list@.skip(0) =~= list@);
    while place < list.len() && list[place].1.get() <= target.get()
        invariant
            place <= list@.len(),
            place_of(list@, target@) == place + place_of(list@.skip(place as int), target@),
        decreases list@.len() - place,
    {
        assert(list@.skip(place as int).skip(1) =~= list@.skip(place + 1));
        place += 1;
    }
    place
}

/// Orders named objects by their references, so that the order in which
/// they are written does not depend on the order in which they were
/// registered.
pub fn sort_by_target(list: &Vec<(String, Ref)>) -> (sorted: Vec<(String, Ref)>)
    ensures
        sorted@ == sorted_by_target(list@),
        sorted@.len() == list@.len(),
        ordered_by_target(sorted@),
        sorted@.to_multiset() == list@.to_multiset(),
{
    proof {
        lemma_sorted_by_target(list@);
    }
    let mut sorted: Vec<(String, Ref)> = Vec::new();
    let mut i: usize = 0;
    assert(list@.take(0) =~= Seq::empty());
    while i < list.len()
        invariant
            i <= list@.len(),
            sorted@ == sorted_by_target(list@.take(i as int)),
            sorted@.len() == i,
        decreases list@.len() - i,
    {
        assert(list@.take(i + 1).drop_last() =~= list@.take(i as int));
        let place = find_place(&sorted, list[i].1);
        sorted.insert(place, (list[i].0.clone(), list[i].1));
        i += 1;
    }
    assert(list@.take(list@.len() as int) =~= list@);
    sorted
}

/// What the lookups for a catalog have found.
pub struct Found {
    /// The page tree.
    pub pages: Option<Ref>,
    /// The tree of page labels.
    pub page_labels: Option<Ref>,
    /// The output intents.
    pub output_intents: Option<Ref>,
    /// The root of the structure tree.
    pub struct_tree_root: Option<Ref>,
    /// The outline.
    pub outlines: Option<Ref>,
    /// The named destinations.
    pub named: Vec<(String, Ref)>,
    /// The embedded files, where they were looked up.
    pub files: Vec<(String, Ref)>,
}

/// Looks up every reference that a catalog mentions, in the order in which
/// the catalog mentions them, and fails at the first without an entry.
pub fn lookup_all(
    container: &ChunkContainer,
    table: &RefTable,
    destinations: &Vec<(String, Ref)>,
    files: &Vec<(String, Ref)>,
    use_files: bool,
) -> (result: KrillaResult<Found>)
    requires
        table@.wf(),
    ensures
        match first_unmapped(
            catalog_lookups(
                *container,
                destinations@,
                if use_files {
                    files@
                } else {
                    Seq::empty()
                },
            ),
            table@.map,
        ) {
            Some(r) => result matches Err(e) && e == KrillaError::UnknownReference(r),
            None => {
                &&& result matches Ok(found)
                &&& mapped_single(found.pages, container.page_tree, table@.map)
                &&& mapped_single(found.page_labels, container.page_label_tree, table@.map)
                &&& mapped_single(found.output_intents, container.destination_profiles, table@.map)
                &&& mapped_single(found.struct_tree_root, container.struct_tree_root, table@.map)
                &&& mapped_single(found.outlines, container.outline, table@.map)
                &&& mapped_entries(found.named@, destinations@, table@.map)
                &&& use_files ==> mapped_entries(found.files@, files@, table@.map)
            },
        },
{
    let ghost map = table@.map;
    let ghost used = if use_files {
        files@
    } else {
        Seq::empty()
    };
    let ghost a1 = single_list(container.page_tree);
    let ghost a2 = a1 + single_list(container.page_label_tree);
    let ghost a3 = a2 + single_list(container.destination_profiles);
    let ghost a4 = a3 + single_list(container.struct_tree_root);
    let ghost a5 = a4 + single_list(container.outline);
    let ghost a6 = a5 + targets(destinations@);
    proof {
        lemma_first_unmapped_concat(a1, single_list(container.page_label_tree), map);
        lemma_first_unmapped_concat(a2, single_list(container.destination_profiles), map);
        lemma_first_unmapped_concat(a3, single_list(container.struct_tree_root), map);
        lemma_first_unmapped_concat(a4, single_list(container.outline), map);
        lemma_first_unmapped_concat(a5, targets(destinations@), map);
        lemma_first_unmapped_concat(a6, targets(used), map);
        assert(targets(Seq::<(String, Ref)>::empty()) =~= Seq::<i32>::empty());
    }
    let pages = match lookup_single(&container.page_tree, table) {
        Ok(r) => r,
        Err(e) => {
            return Err(e);
        },
    };
    let page_labels = match lookup_single(&container.page_label_tree, table) {
        Ok(r) => r,
        Err(e) => {
            return Err(e);
        },
    };
    let output_intents = match lookup_single(&container.destination_profiles, table) {
        Ok(r) => r,
        Err(e) => {
            return Err(e);
        },
    };
    let struct_tree_root = match lookup_single(&container.struct_tree_root, table) {
        Ok(r) => r,
        Err(e) => {
            return Err(e);
        },
    };
    let outlines = match lookup_single(&container.outline, table) {
        Ok(r) => r,
        Err(e) => {
            return Err(e);
        },
    };
    let named = match lookup_entries(destinations, table) {
        Ok(list) => list,
        Err(e) => {
            return Err(e);
        },
    };
    let files = if use_files {
        match lookup_entries(files, table) {
            Ok(list) => list,
            Err(e) => {
                return Err(e);
            },
        }
    } else {
        Vec::new()
    };
    Ok(Found { pages, page_labels, output_intents, struct_tree_root, outlines, named, files })
}

/// Decides what the catalog declares, and takes the references that it and
/// its companions need from `next`: one for the metadata stream where the
/// document carries one, one for the catalog, and two for a signature.
///
/// There is no catalog where the container holds none of the fragments that
/// a catalog points to. Otherwise each such fragment is declared where it is
/// present, under its reference in the finished document; a structure tree
/// marks the document as tagged, and from PDF 1.6 up to 1.7 also as free of
/// suspect marks; a layout of two pages at a time needs PDF 1.5; embedded
/// files are declared as the profile says; and the document is set up for a
/// signature where it names a signer, says when it was made and has pages.
pub fn plan_catalog(
    container: &ChunkContainer,
    table: &RefTable,
    settings: &SerializeSettings,
    signer: bool,
    destinations: &Vec<(String, Ref)>,
    files: &Vec<(String, Ref)>,
    next: &mut Ref,
) -> (result: KrillaResult<Option<CatalogPlan>>)
    requires
        table@.wf(),
    ensures
        !has_structure(*container) ==> (result matches Ok(None)) && final(next)@ == old(next)@,
        has_structure(*container) ==> ({
            let needs = catalog_needs(settings.xmp_metadata, is_signed(*container, signer));
            let lookups = catalog_lookups(
                *container,
                destinations@,
                if uses_files(*settings, files@) {
                    files@
                } else {
                    Seq::empty()
                },
            );
            if old(next)@ + needs > MAX_REF {
                result matches Err(e) && e == KrillaError::OutOfReferences
            } else {
                match first_unmapped(lookups, table@.map) {
                    Some(r) => result matches Err(e) && e == KrillaError::UnknownReference(r),
                    None => {
                        &&& result matches Ok(Some(plan))
                        &&& final(next)@ == old(next)@ + needs
                        &&& plan_follows(
                            plan,
                            *container,
                            table@.map,
                            *settings,
                            signer,
                            destinations@,
                            files@,
                            old(next)@ as int,
                        )
                    },
                }
            }
        }),
{
    if container.page_tree.is_none() && container.outline.is_none()
        && container.page_label_tree.is_none() && container.destination_profiles.is_none()
        && container.struct_tree_root.is_none() {
        return Ok(None);
    }
    let creation_date = match &container.metadata {
        Some(m) => m.creation_date,
        None => None,
    };
    let signed = signer && container.page_tree.is_some() && creation_date.is_some();
    let needs: i32 = 1 + if settings.xmp_metadata {
        1
    } else {
        0
    } + if signed {
        2
    } else {
        0
    };
    if next.get() > MAX_REF - needs {
        return Err(KrillaError::OutOfReferences);
    }
    let validator = settings.validator();
    let write_files = validator.write_embedded_files(files.len() == 0);
    let associate = files.len() > 0 && validator.allows_associated_files();
    let found = match lookup_all(container, table, destinations, files, write_files || associate) {
        Ok(found) => found,
        Err(e) => {
            return Err(e);
        },
    };
    let mut associated_files: Vec<Ref> = Vec::new();
    if associate {
        let mut i: usize = 0;
        while i < found.files.len()
            invariant
                i <= found.files@.len(),
                associated_files@.len() == i,
                forall|j: int| 0 <= j < i ==> (#[trigger] associated_files@[j]) == found.files@[j].1,
            decreases found.files@.len() - i,
        {
            associated_files.push(found.files[i].1);
            i += 1;
        }
    }
    let pages = found.pages;
    let page_labels = found.page_labels;
    let output_intents = found.output_intents;
    let struct_tree_root = found.struct_tree_root;
    let outlines = found.outlines;
    let named = found.named;
    let embedded_files = if write_files {
        Some(found.files)
    } else {
        None
    };
    let metadata = if settings.xmp_metadata {
        Some(next.bump())
    } else {
        None
    };
    let catalog = next.bump();
    let signature = if signed {
        let widget = next.bump();
        let signature = next.bump();
        Some(SignaturePlan { widget, signature })
    } else {
        None
    };
    let version = settings.pdf_version();
    let lang = match &container.metadata {
        Some(m) => match &m.language {
            Some(l) => Some(l.clone()),
            None => None,
        },
        None => None,
    };
    let direction = match &container.metadata {
        Some(m) => m.text_direction,
        None => None,
    };
    let page_layout = match &container.metadata {
        Some(m) => match m.page_layout {
            Some(l) => if version.at_least(PdfVersion::Pdf15) || !l.is_two_page() {
                Some(l)
            } else {
                None
            },
            None => None,
        },
        None => None,
    };
    Ok(
        Some(
            CatalogPlan {
                metadata,
                catalog,
                pages,
                page_labels,
                output_intents,
                lang,
                suspects: struct_tree_root.is_some() && version.at_least(PdfVersion::Pdf16)
                    && !version.at_least(PdfVersion::Pdf20),
                struct_tree_root,
                display_doc_title: validator.requires_display_doc_title(),
                direction,
                page_layout,
                outlines,
                destinations: named,
                embedded_files,
                associated_files,
                signature,
            },
        ),
    )
}

/// Writes a name tree as the value of `key`: a dictionary with the entries
/// of [`name_tree_entries`].
fn write_names(dict: &mut pdf_writer::Dict<'_>, key: &str, entries: &Vec<(String, Ref)>)
    ensures
        dict_entries(*final(dict)) == dict_entries(*old(dict)).push((key@, Entry::Dict)),
{
    let mut tree = dict_insert_dict(dict, key);
    write_name_tree_entries(&mut tree, entries);
    finish(tree);
}

/// The entries of a name tree: the array of its names.
pub open spec fn name_tree_entries() -> Seq<(Seq<char>, Entry)> {
    seq![("Names"@, Entry::Array)]
}

/// Writes a name tree into its dictionary. The array of the names gets
/// the items of [`name_items`].
pub fn write_name_tree_entries(dict: &mut pdf_writer::Dict<'_>, entries: &Vec<(String, Ref)>)
    ensures
        dict_entries(*final(dict)) == dict_entries(*old(dict)) + name_tree_entries(),
{
    let mut names = dict_insert_array(dict, "Names");
    write_name_items(&mut names, entries);
    finish(names);
    assert(dict_entries(*dict) =~= dict_entries(*old(dict)) + name_tree_entries());
}

/// The items of a name tree: each name, as the bytes of its text, and
/// behind it the reference that it stands for, in the order of the list.
pub open spec fn name_items(entries: Seq<(String, Ref)>) -> Seq<Entry>
    decreases entries.len(),
{
    if entries.len() == 0 {
        Seq::empty()
    } else {
        name_items(entries.drop_last()) + seq![
            Entry::Str(vstd::utf8::encode_utf8(entries.last().0@)),
            Entry::Ref(entries.last().1@),
        ]
    }
}

/// Writes the items of a name tree into its array.
pub fn write_name_items(array: &mut pdf_writer::Array<'_>, entries: &Vec<(String, Ref)>)
    ensures
        array_items(*final(array)) == array_items(*old(array)) + name_items(entries@),
{
    let ghost start = array_items(*array);
    let mut i: usize = 0;
    assert(array_items(*array) =~= start + name_items(entries@.take(0)));
    while i < entries.len()
        invariant
            i <= entries@.len(),
            array_items(*array) == start + name_items(entries@.take(i as int)),
        decreases entries@.len() - i,
    {
        array_item_str(array, entries[i].0.as_str().as_bytes());
        array_item_ref(array, entries[i].1.get());
        proof {
            assert(entries@.take(i + 1).drop_last() =~= entries@.take(i as int));
            assert(array_items(*array) =~= start + name_items(entries@.take(i + 1)));
        }
        i += 1;
    }
    assert(entries@.take(i as int) =~= entries@);
}

/// The entry for a reference that a catalog may declare.
pub open spec fn reference_entry(key: Seq<char>, r: Option<Ref>) -> Seq<(Seq<char>, Entry)> {
    match r {
        Some(r) => seq![(key, Entry::Ref(r@))],
        None => Seq::empty(),
    }
}

/// The entry for the language of the document.
pub open spec fn language_entry(plan: CatalogPlan) -> Seq<(Seq<char>, Entry)> {
    match plan.lang {
        Some(lang) => seq![("Lang"@, Entry::Text(lang@))],
        None => Seq::empty(),
    }
}

/// The entries of a tagged document: the root of its structure tree, and
/// the dictionary that marks it as tagged.
pub open spec fn structure_entries(plan: CatalogPlan) -> Seq<(Seq<char>, Entry)> {
    match plan.struct_tree_root {
        Some(r) => seq![("StructTreeRoot"@, Entry::Ref(r@)), ("MarkInfo"@, Entry::Dict)],
        None => Seq::empty(),
    }
}

/// The entry for what a viewer is asked to do.
pub open spec fn preferences_entry(plan: CatalogPlan) -> Seq<(Seq<char>, Entry)> {
    if plan.display_doc_title || plan.direction is Some {
        seq![("ViewerPreferences"@, Entry::Dict)]
    } else {
        Seq::empty()
    }
}

/// The name of a page layout in a catalog.
pub open spec fn layout_name(layout: PageLayout) -> Seq<char> {
    match layout {
        PageLayout::SinglePage => "SinglePage"@,
        PageLayout::OneColumn => "OneColumn"@,
        PageLayout::TwoColumnLeft => "TwoColumnLeft"@,
        PageLayout::TwoColumnRight => "TwoColumnRight"@,
        PageLayout::TwoPageLeft => "TwoPageLeft"@,
        PageLayout::TwoPageRight => "TwoPageRight"@,
    }
}

/// The entry for the page layout.
pub open spec fn layout_entry(plan: CatalogPlan) -> Seq<(Seq<char>, Entry)> {
    match plan.page_layout {
        Some(layout) => seq![("PageLayout"@, Entry::Name(layout_name(layout)))],
        None => Seq::empty(),
    }
}

/// The entry for the name trees: the named destinations and the embedded
/// files.
pub open spec fn names_entry(plan: CatalogPlan) -> Seq<(Seq<char>, Entry)> {
    if plan.destinations@.len() > 0 || plan.embedded_files is Some {
        seq![("Names"@, Entry::Dict)]
    } else {
        Seq::empty()
    }
}

/// The entry for the associated files.
pub open spec fn associated_entry(plan: CatalogPlan) -> Seq<(Seq<char>, Entry)> {
    if plan.associated_files@.len() > 0 {
        seq![("AF"@, Entry::Array)]
    } else {
        Seq::empty()
    }
}

/// The entries of a document that is to be signed: the permissions, and
/// the form that holds the field of the signature.
pub open spec fn signature_entries(plan: CatalogPlan) -> Seq<(Seq<char>, Entry)> {
    match plan.signature {
        Some(_) => seq![("Perms"@, Entry::Dict), ("AcroForm"@, Entry::Dict)],
        None => Seq::empty(),
    }
}

/// The entries that a catalog is given for a plan, in their order.
pub open spec fn catalog_entries(plan: CatalogPlan) -> Seq<(Seq<char>, Entry)> {
    reference_entry("Pages"@, plan.pages) + reference_entry("Metadata"@, plan.metadata)
        + reference_entry("PageLabels"@, plan.page_labels) + reference_entry(
        "OutputIntents"@,
        plan.output_intents,
    ) + language_entry(plan) + structure_entries(plan) + preferences_entry(plan) + layout_entry(
        plan,
    ) + reference_entry("Outlines"@, plan.outlines) + names_entry(plan) + associated_entry(plan)
        + signature_entries(plan)
}

/// The entries that mark a document as tagged, and as free of suspect
/// marks where that is to be declared.
pub open spec fn mark_entries(suspects: bool) -> Seq<(Seq<char>, Entry)> {
    if suspects {
        seq![("Marked"@, Entry::Bool(true)), ("Suspects"@, Entry::Bool(false))]
    } else {
        seq![("Marked"@, Entry::Bool(true))]
    }
}

/// Writes the entries that mark a document as tagged.
pub fn write_mark_entries(dict: &mut pdf_writer::Dict<'_>, suspects: bool)
    ensures
        dict_entries(*final(dict)) == dict_entries(*old(dict)) + mark_entries(suspects),
{
    dict_pair_bool(dict, "Marked", true);
    if suspects {
        dict_pair_bool(dict, "Suspects", false);
    }
    assert(dict_entries(*dict) =~= dict_entries(*old(dict)) + mark_entries(suspects));
}

/// The name of a direction of text in the preferences for a viewer.
pub open spec fn direction_name(direction: TextDirection) -> Seq<char> {
    match direction {
        TextDirection::LeftToRight => "L2R"@,
        TextDirection::RightToLeft => "R2L"@,
    }
}

/// The entries of what a viewer is asked to do.
pub open spec fn viewer_entries(title: bool, direction: Option<TextDirection>) -> Seq<
    (Seq<char>, Entry),
> {
    (if title {
        seq![("DisplayDocTitle"@, Entry::Bool(true))]
    } else {
        Seq::empty()
    }) + (match direction {
        Some(d) => seq![("Direction"@, Entry::Name(direction_name(d)))],
        None => Seq::empty(),
    })
}

/// Writes what a viewer is asked to do.
pub fn write_viewer_entries(
    dict: &mut pdf_writer::Dict<'_>,
    title: bool,
    direction: Option<TextDirection>,
)
    ensures
        dict_entries(*final(dict)) == dict_entries(*old(dict)) + viewer_entries(title, direction),
{
    if title {
        dict_pair_bool(dict, "DisplayDocTitle", true);
    }
    if let Some(direction) = direction {
        dict_pair_name(dict, "Direction", direction.name());
    }
    assert(dict_entries(*dict) =~= dict_entries(*old(dict)) + viewer_entries(title, direction));
}

/// The entries of the dictionary of name trees: the named destinations,
/// where there are any, and the embedded files, where the catalog declares
/// them.
pub open spec fn tree_entries(plan: CatalogPlan) -> Seq<(Seq<char>, Entry)> {
    (if plan.destinations@.len() > 0 {
        seq![("Dests"@, Entry::Dict)]
    } else {
        Seq::empty()
    }) + (if plan.embedded_files is Some {
        seq![("EmbeddedFiles"@, Entry::Dict)]
    } else {
        Seq::empty()
    })
}

/// Writes the name trees of a catalog. Each tree holds its names in one
/// array, with the items of [`name_items`].
pub fn write_tree_entries(dict: &mut pdf_writer::Dict<'_>, plan: &CatalogPlan)
    ensures
        dict_entries(*final(dict)) == dict_entries(*old(dict)) + tree_entries(*plan),
{
    if plan.destinations.len() > 0 {
        write_names(dict, "Dests", &plan.destinations);
    }
    if let Some(files) = &plan.embedded_files {
        write_names(dict, "EmbeddedFiles", files);
    }
    assert(dict_entries(*dict) =~= dict_entries(*old(dict)) + tree_entries(*plan));
}

/// A list of references as the items of an array.
pub open spec fn reference_items(refs: Seq<Ref>) -> Seq<Entry> {
    Seq::new(refs.len(), |i: int| Entry::Ref(refs[i]@))
}

/// Writes a list of references into an array.
pub fn write_reference_items(array: &mut pdf_writer::Array<'_>, refs: &Vec<Ref>)
    ensures
        array_items(*final(array)) == array_items(*old(array)) + reference_items(refs@),
{
    let ghost start = array_items(*array);
    let mut i: usize = 0;
    assert(array_items(*array) =~= start + reference_items(refs@.take(0)));
    while i < refs.len()
        invariant
            i <= refs@.len(),
            array_items(*array) == start + reference_items(refs@.take(i as int)),
        decreases refs@.len() - i,
    {
        array_item_ref(array, refs[i].get());
        assert(array_items(*array) =~= start + reference_items(refs@.take(i + 1)));
        i += 1;
    }
    assert(refs@.take(i as int) =~= refs@);
}

/// The entry of the permissions of a signed document: the signature
/// dictionary that fixes them.
pub open spec fn permission_entries(signature: SignaturePlan) -> Seq<(Seq<char>, Entry)> {
    seq![("DocMDP"@, Entry::Ref(signature.signature@))]
}

/// Writes the permissions of a signed document.
pub fn write_permission_entries(dict: &mut pdf_writer::Dict<'_>, signature: SignaturePlan)
    ensures
        dict_entries(*final(dict)) == dict_entries(*old(dict)) + permission_entries(signature),
{
    dict_pair_ref(dict, "DocMDP", signature.signature.get());
    assert(dict_entries(*dict) =~= dict_entries(*old(dict)) + permission_entries(signature));
}

/// The entries of the form of a signed document: that it holds a
/// signature and may only be appended to, and its fields.
pub open spec fn form_entries() -> Seq<(Seq<char>, Entry)> {
    seq![("SigFlags"@, Entry::Int(3)), ("Fields"@, Entry::Array)]
}

/// The fields of the form of a signed document: the form field of the
/// signature.
pub open spec fn field_items(signature: SignaturePlan) -> Seq<Entry> {
    seq![Entry::Ref(signature.widget@)]
}

/// Writes the fields of the form of a signed document into their array.
pub fn write_field_items(array: &mut pdf_writer::Array<'_>, signature: SignaturePlan)
    ensures
        array_items(*final(array)) == array_items(*old(array)) + field_items(signature),
{
    array_item_ref(array, signature.widget.get());
    assert(array_items(*array) =~= array_items(*old(array)) + field_items(signature));
}

/// Writes the form of a signed document. The array of its fields gets the
/// items of [`field_items`].
pub fn write_form_entries(dict: &mut pdf_writer::Dict<'_>, signature: SignaturePlan)
    ensures
        dict_entries(*final(dict)) == dict_entries(*old(dict)) + form_entries(),
{
    dict_pair_int(dict, "SigFlags", 3);
    let mut fields = dict_insert_array(dict, "Fields");
    write_field_items(&mut fields, signature);
    finish(fields);
    assert(dict_entries(*dict) =~= dict_entries(*old(dict)) + form_entries());
}

/// Writes a reference under `key`, where there is one.
fn write_reference(dict: &mut pdf_writer::Dict<'_>, key: &str, r: Option<Ref>)
    ensures
        dict_entries(*final(dict)) == dict_entries(*old(dict)) + reference_entry(key@, r),
{
    if let Some(r) = r {
        dict_pair_ref(dict, key, r.get());
    }
    assert(dict_entries(*dict) =~= dict_entries(*old(dict)) + reference_entry(key@, r));
}

/// Writes the language of the document, where it is known.
fn write_language(dict: &mut pdf_writer::Dict<'_>, plan: &CatalogPlan)
    ensures
        dict_entries(*final(dict)) == dict_entries(*old(dict)) + language_entry(*plan),
{
    if let Some(lang) = &plan.lang {
        dict_pair_text(dict, "Lang", lang.as_str());
    }
    assert(dict_entries(*dict) =~= dict_entries(*old(dict)) + language_entry(*plan));
}

/// Writes the root of the structure tree and marks the document as
/// tagged, where it has a structure tree.
fn write_structure(dict: &mut pdf_writer::Dict<'_>, plan: &CatalogPlan)
    ensures
        dict_entries(*final(dict)) == dict_entries(*old(dict)) + structure_entries(*plan),
{
    if let Some(r) = plan.struct_tree_root {
        dict_pair_ref(dict, "StructTreeRoot", r.get());
        let mut mark_info = dict_insert_dict(dict, "MarkInfo");
        write_mark_entries(&mut mark_info, plan.suspects);
        finish(mark_info);
    }
    assert(dict_entries(*dict) =~= dict_entries(*old(dict)) + structure_entries(*plan));
}

/// Writes what a viewer is asked to do, where anything is asked.
fn write_preferences(dict: &mut pdf_writer::Dict<'_>, plan: &CatalogPlan)
    ensures
        dict_entries(*final(dict)) == dict_entries(*old(dict)) + preferences_entry(*plan),
{
    if plan.display_doc_title || plan.direction.is_some() {
        let mut preferences = dict_insert_dict(dict, "ViewerPreferences");
        write_viewer_entries(&mut preferences, plan.display_doc_title, plan.direction);
        finish(preferences);
    }
    assert(dict_entries(*dict) =~= dict_entries(*old(dict)) + preferences_entry(*plan));
}

/// Writes the page layout, where one is set.
fn write_layout(dict: &mut pdf_writer::Dict<'_>, plan: &CatalogPlan)
    ensures
        dict_entries(*final(dict)) == dict_entries(*old(dict)) + layout_entry(*plan),
{
    if let Some(layout) = plan.page_layout {
        dict_pair_name(dict, "PageLayout", layout.name());
    }
    assert(dict_entries(*dict) =~= dict_entries(*old(dict)) + layout_entry(*plan));
}

/// Writes the name trees, where there is a named destination or where
/// the catalog declares embedded files.
fn write_name_trees(dict: &mut pdf_writer::Dict<'_>, plan: &CatalogPlan)
    ensures
        dict_entries(*final(dict)) == dict_entries(*old(dict)) + names_entry(*plan),
{
    if plan.destinations.len() > 0 || plan.embedded_files.is_some() {
        let mut names = dict_insert_dict(dict, "Names");
        write_tree_entries(&mut names, plan);
        finish(names);
    }
    assert(dict_entries(*dict) =~= dict_entries(*old(dict)) + names_entry(*plan));
}

/// Writes the list of associated files, where there is one.
fn write_associated(dict: &mut pdf_writer::Dict<'_>, plan: &CatalogPlan)
    ensures
        dict_entries(*final(dict)) == dict_entries(*old(dict)) + associated_entry(*plan),
{
    if plan.associated_files.len() > 0 {
        let mut files = dict_insert_array(dict, "AF");
        write_reference_items(&mut files, &plan.associated_files);
        finish(files);
    }
    assert(dict_entries(*dict) =~= dict_entries(*old(dict)) + associated_entry(*plan));
}

/// Writes the permissions and the form of a document that is to be signed.
fn write_signature_entries(dict: &mut pdf_writer::Dict<'_>, plan: &CatalogPlan)
    ensures
        dict_entries(*final(dict)) == dict_entries(*old(dict)) + signature_entries(*plan),
{
    if let Some(signature) = plan.signature {
        let mut permissions = dict_insert_dict(dict, "Perms");
        write_permission_entries(&mut permissions, signature);
        finish(permissions);
        let mut form = dict_insert_dict(dict, "AcroForm");
        write_form_entries(&mut form, signature);
        finish(form);
    }
    assert(dict_entries(*dict) =~= dict_entries(*old(dict)) + signature_entries(*plan));
}

/// Writes what the catalog declares into its dictionary, in a fixed order.
pub fn write_catalog_entries(dict: &mut pdf_writer::Dict<'_>, plan: &CatalogPlan)
    ensures
        dict_entries(*final(dict)) == dict_entries(*old(dict)) + catalog_entries(*plan),
{
    let ghost before = dict_entries(*dict);
    write_reference(dict, "Pages", plan.pages);
    let ghost mut given = reference_entry("Pages"@, plan.pages);
    write_reference(dict, "Metadata", plan.metadata);
    proof {
        lemma_given_after(before, given, reference_entry("Metadata"@, plan.metadata));
        given = given + reference_entry("Metadata"@, plan.metadata);
    }
    write_reference(dict, "PageLabels", plan.page_labels);
    proof {
        lemma_given_after(before, given, reference_entry("PageLabels"@, plan.page_labels));
        given = given + reference_entry("PageLabels"@, plan.page_labels);
    }
    write_reference(dict, "OutputIntents", plan.output_intents);
    proof {
        lemma_given_after(before, given, reference_entry("OutputIntents"@, plan.output_intents));
        given = given + reference_entry("OutputIntents"@, plan.output_intents);
    }
    write_language(dict, plan);
    proof {
        lemma_given_after(before, given, language_entry(*plan));
        given = given + language_entry(*plan);
    }
    write_structure(dict, plan);
    proof {
        lemma_given_after(before, given, structure_entries(*plan));
        given = given + structure_entries(*plan);
    }
    write_preferences(dict, plan);
    proof {
        lemma_given_after(before, given, preferences_entry(*plan));
        given = given + preferences_entry(*plan);
    }
    write_layout(dict, plan);
    proof {
        lemma_given_after(before, given, layout_entry(*plan));
        given = given + layout_entry(*plan);
    }
    write_reference(dict, "Outlines", plan.outlines);
    proof {
        lemma_given_after(before, given, reference_entry("Outlines"@, plan.outlines));
        given = given + reference_entry("Outlines"@, plan.outlines);
    }
    write_name_trees(dict, plan);
    proof {
        lemma_given_after(before, given, names_entry(*plan));
        given = given + names_entry(*plan);
    }
    write_associated(dict, plan);
    proof {
        lemma_given_after(before, given, associated_entry(*plan));
        given = given + associated_entry(*plan);
    }
    write_signature_entries(dict, plan);
    proof {
        lemma_given_after(before, given, signature_entries(*plan));
        given = given + signature_entries(*plan);
    }
    assert(given == catalog_entries(*plan));
}

/// Writes the catalog that `plan` describes as the next object of the
/// document, with the entries of [`catalog_entries`].
pub fn write_catalog(pdf: &mut pdf_writer::Pdf, plan: &CatalogPlan)
    ensures
        pdf_refs(*final(pdf)) == pdf_refs(*old(pdf)).push(plan.catalog@),
        pdf_bytes(*old(pdf)).is_prefix_of(pdf_bytes(*final(pdf))),
{
    let mut catalog = pdf_catalog(pdf, plan.catalog.get());
    write_catalog_entries(catalog_dict(&mut catalog), plan);
    finish(catalog);
}

/// Four times the same whole number.
pub open spec fn four_of(value: i32) -> Seq<Entry> {
    seq![Entry::Int(value), Entry::Int(value), Entry::Int(value), Entry::Int(value)]
}

/// Writes the same whole number four times into an array.
pub fn write_four(array: &mut pdf_writer::Array<'_>, value: i32)
    ensures
        array_items(*final(array)) == array_items(*old(array)) + four_of(value),
{
    array_item_int(array, value);
    array_item_int(array, value);
    array_item_int(array, value);
    array_item_int(array, value);
    assert(array_items(*array) =~= array_items(*old(array)) + four_of(value));
}

/// The entries of the form field of a signature: a widget without a size
/// that is printed and locked, on the page tree `pages`, whose value is the
/// signature dictionary.
pub open spec fn widget_entries(signature: SignaturePlan, pages: Ref) -> Seq<(Seq<char>, Entry)> {
    seq![
        ("F"@, Entry::Int(130)),
        ("Type"@, Entry::Name("Annot"@)),
        ("SubType"@, Entry::Name("Widget"@)),
        ("Rect"@, Entry::Array),
        ("FT"@, Entry::Name("Sig"@)),
        ("V"@, Entry::Ref(signature.signature@)),
        ("T"@, Entry::Text("Signature"@)),
        ("P"@, Entry::Ref(pages@)),
    ]
}

/// Writes the entries of the form field of a signature into its
/// dictionary. The array of its rectangle gets four zeros.
pub fn write_widget_entries(dict: &mut pdf_writer::Dict<'_>, signature: SignaturePlan, pages: Ref)
    ensures
        dict_entries(*final(dict)) == dict_entries(*old(dict)) + widget_entries(signature, pages),
{
    dict_pair_int(dict, "F", 130);
    dict_pair_name(dict, "Type", "Annot");
    dict_pair_name(dict, "SubType", "Widget");
    let mut rect = dict_insert_array(dict, "Rect");
    write_four(&mut rect, 0);
    finish(rect);
    dict_pair_name(dict, "FT", "Sig");
    dict_pair_ref(dict, "V", signature.signature.get());
    dict_pair_text(dict, "T", "Signature");
    dict_pair_ref(dict, "P", pages.get());
    assert(dict_entries(*dict) =~= dict_entries(*old(dict)) + widget_entries(signature, pages));
}

/// The entries of the parameters of the transform of a signature.
pub open spec fn transform_entries() -> Seq<(Seq<char>, Entry)> {
    seq![
        ("Type"@, Entry::Name("TransformParams"@)),
        ("V"@, Entry::Name("1.2"@)),
        ("P"@, Entry::Int(1)),
    ]
}

/// Writes the parameters of the transform of a signature: no change to
/// the document is permitted.
pub fn write_transform_entries(dict: &mut pdf_writer::Dict<'_>)
    ensures
        dict_entries(*final(dict)) == dict_entries(*old(dict)) + transform_entries(),
{
    dict_pair_name(dict, "Type", "TransformParams");
    dict_pair_name(dict, "V", "1.2");
    dict_pair_int(dict, "P", 1);
    assert(dict_entries(*dict) =~= dict_entries(*old(dict)) + transform_entries());
}

/// The entries of what a signature refers to: the catalog, under the
/// transform that fixes the permissions.
pub open spec fn signed_entries(catalog: Ref) -> Seq<(Seq<char>, Entry)> {
    seq![
        ("Type"@, Entry::Name("SigRef"@)),
        ("Data"@, Entry::Ref(catalog@)),
        ("TransformMethod"@, Entry::Name("DocMDP"@)),
        ("TransformParams"@, Entry::Dict),
    ]
}

/// Writes what a signature refers to. The dictionary of the parameters
/// gets the entries of [`transform_entries`].
pub fn write_signed_entries(dict: &mut pdf_writer::Dict<'_>, catalog: Ref)
    ensures
        dict_entries(*final(dict)) == dict_entries(*old(dict)) + signed_entries(catalog),
{
    dict_pair_name(dict, "Type", "SigRef");
    dict_pair_ref(dict, "Data", catalog.get());
    dict_pair_name(dict, "TransformMethod", "DocMDP");
    let mut params = dict_insert_dict(dict, "TransformParams");
    write_transform_entries(&mut params);
    finish(params);
    assert(dict_entries(*dict) =~= dict_entries(*old(dict)) + signed_entries(catalog));
}

/// The entries of a signature dictionary: the detached signature that it
/// stands for, when and by whom the document is signed, the content that
/// stands in for the signature, the byte range that stands in for the real
/// one, and what the signature refers to.
pub open spec fn signature_dictionary_entries(signer: PdfSig, date: DateTime) -> Seq<
    (Seq<char>, Entry),
> {
    seq![
        ("Type"@, Entry::Name("Sig"@)),
        ("Filter"@, Entry::Name("Adobe.PPKLite"@)),
        ("SubFilter"@, Entry::Name("adbe.pkcs7.detached"@)),
        ("M"@, Entry::Str(crate::metadata::pdf_date_text(date))),
        ("Name"@, Entry::Text(signer.name@)),
        ("Location"@, Entry::Text(signer.location@)),
        ("Reason"@, Entry::Text(signer.reason@)),
        ("ContactInfo"@, Entry::Text(signer.contact_info@)),
        ("Contents"@, Entry::Str(crate::signature::placeholder_contents())),
        ("ByteRange"@, Entry::Array),
        ("Reference"@, Entry::Array),
    ]
}

/// Writes the entries of a signature dictionary. The array of the byte
/// range gets the mark four times; the array of what the signature refers
/// to gets one dictionary, with the entries of [`signed_entries`].
pub fn write_signature_dictionary(
    dict: &mut pdf_writer::Dict<'_>,
    catalog: Ref,
    signer: &PdfSig,
    date: DateTime,
)
    ensures
        dict_entries(*final(dict)) == dict_entries(*old(dict)) + signature_dictionary_entries(
            *signer,
            date,
        ),
{
    let contents = placeholder();
    let when = pdf_date(date);
    dict_pair_name(dict, "Type", "Sig");
    dict_pair_name(dict, "Filter", "Adobe.PPKLite");
    dict_pair_name(dict, "SubFilter", "adbe.pkcs7.detached");
    dict_pair_str(dict, "M", when.as_slice());
    dict_pair_text(dict, "Name", signer.name.as_str());
    dict_pair_text(dict, "Location", signer.location.as_str());
    dict_pair_text(dict, "Reason", signer.reason.as_str());
    dict_pair_text(dict, "ContactInfo", signer.contact_info.as_str());
    dict_pair_str(dict, "Contents", contents.as_slice());
    let mut range = dict_insert_array(dict, "ByteRange");
    write_four(&mut range, BYTE_RANGE_MARK);
    finish(range);
    let mut references = dict_insert_array(dict, "Reference");
    let mut reference = array_push_dict(&mut references);
    write_signed_entries(&mut reference, catalog);
    finish(reference);
    finish(references);
    assert(dict_entries(*dict) =~= dict_entries(*old(dict)) + signature_dictionary_entries(
        *signer,
        date,
    ));
}

/// Writes the two objects of a signature as the next objects of the
/// document: the form field on the page tree `pages`, and the signature
/// dictionary, which holds the two placeholders and refers to the catalog.
/// The form field gets the entries of [`widget_entries`], the signature
/// dictionary those of [`signature_dictionary_entries`].
pub fn write_signature(
    pdf: &mut pdf_writer::Pdf,
    signature: SignaturePlan,
    catalog: Ref,
    pages: Ref,
    signer: &PdfSig,
    date: DateTime,
)
    ensures
        pdf_refs(*final(pdf)) == pdf_refs(*old(pdf)).push(signature.widget@).push(
            signature.signature@,
        ),
        pdf_bytes(*old(pdf)).is_prefix_of(pdf_bytes(*final(pdf))),
{
    let mut chunk = chunk_new();
    let mut widget = chunk_dict(&mut chunk, signature.widget.get());
    write_widget_entries(&mut widget, signature, pages);
    finish(widget);
    let mut sig = chunk_dict(&mut chunk, signature.signature.get());
    write_signature_dictionary(&mut sig, catalog, signer, date);
    finish(sig);
    assert(chunk_refs(chunk) =~= seq![signature.widget@, signature.signature@]);
    pdf_extend(pdf, &chunk);
    assert(pdf_refs(*pdf) =~= pdf_refs(*old(pdf)).push(signature.widget@).push(
        signature.signature@,
    ));
    assert(pdf_bytes(*old(pdf)).is_prefix_of(pdf_bytes(*pdf))) by {
        assert(pdf_bytes(*pdf).subrange(0, pdf_bytes(*old(pdf)).len() as int) =~= pdf_bytes(
            *old(pdf),
        ));
    }
}

/// The start of the start of a sequence is a start of the sequence.
pub proof fn lemma_prefix_chain(a: Seq<u8>, b: Seq<u8>, c: Seq<u8>)
    requires
        a.is_prefix_of(b),
        b.is_prefix_of(c),
    ensures
        a.is_prefix_of(c),
{
    assert(a =~= c.subrange(0, a.len() as int));
}

/// The names of a list in a row, with a comma and a space between two of them.
pub open spec fn joined(names: Seq<String>) -> Seq<char>
    decreases names.len(),
{
    if names.len() == 0 {
        Seq::empty()
    } else if names.len() == 1 {
        names[0]@
    } else {
        joined(names.drop_last()) + ", "@ + names.last()@
    }
}

/// The names of a list in a row, with a comma and a space between two of them.
pub fn join(names: &Vec<String>) -> (text: String)
    ensures
        text@ == joined(names@),
{
    let mut text = String::new();
    let mut i: usize = 0;
    assert(names@.take(0) =~= Seq::empty());
    while i < names.len()
        invariant
            i <= names@.len(),
            text@ == joined(names@.take(i as int)),
        decreases names@.len() - i,
    {
        assert(names@.take(i + 1).drop_last() =~= names@.take(i as int));
        if i > 0 {
            text.append(", ");
        } else {
            assert(text@ + names@[0]@ =~= names@[0]@);
        }
        text.append(names[i].as_str());
        i += 1;
    }
    assert(names@.take(names@.len() as int) =~= names@);
    text
}

/// Whether there is anything to write into the document information.
pub open spec fn has_document_info(metadata: Metadata) -> bool {
    metadata.title is Some || metadata.authors is Some || metadata.creation_date is Some
}

/// The entries of the document information: the title, the authors and
/// the date of creation, as far as the metadata holds them.
pub open spec fn info_entries(metadata: Metadata) -> Seq<(Seq<char>, Entry)> {
    (match metadata.title {
        Some(title) => seq![("Title"@, Entry::Text(title@))],
        None => Seq::empty(),
    }) + (match metadata.authors {
        Some(authors) => seq![("Author"@, Entry::Text(joined(authors@)))],
        None => Seq::empty(),
    }) + (match metadata.creation_date {
        Some(date) => seq![("CreationDate"@, Entry::Str(crate::metadata::pdf_date_text(date)))],
        None => Seq::empty(),
    })
}

/// Writes the entries of the document information into its dictionary.
pub fn write_info_entries(dict: &mut pdf_writer::Dict<'_>, metadata: &Metadata)
    ensures
        dict_entries(*final(dict)) == dict_entries(*old(dict)) + info_entries(*metadata),
{
    if let Some(title) = &metadata.title {
        dict_pair_text(dict, "Title", title.as_str());
    }
    if let Some(authors) = &metadata.authors {
        let all = join(authors);
        dict_pair_text(dict, "Author", all.as_str());
    }
    if let Some(date) = metadata.creation_date {
        let when = pdf_date(date);
        dict_pair_str(dict, "CreationDate", when.as_slice());
    }
    assert(dict_entries(*dict) =~= dict_entries(*old(dict)) + info_entries(*metadata));
}

/// Writes the document information as the next object of the document, under
/// the reference `id`, with the entries of [`info_entries`].
pub fn write_document_info(pdf: &mut pdf_writer::Pdf, id: Ref, metadata: &Metadata)
    ensures
        pdf_refs(*final(pdf)) == pdf_refs(*old(pdf)).push(id@),
        pdf_bytes(*old(pdf)).is_prefix_of(pdf_bytes(*final(pdf))),
{
    let mut info = pdf_document_info(pdf, id.get());
    write_info_entries(info_dict(&mut info), metadata);
    finish(info);
}

/// The entries of a metadata stream, behind what a stream says of itself.
pub open spec fn metadata_entries() -> Seq<(Seq<char>, Entry)> {
    seq![("Type"@, Entry::Name("Metadata"@)), ("Subtype"@, Entry::Name("XML"@))]
}

/// Writes the entries of a metadata stream into its dictionary.
pub fn write_metadata_entries(dict: &mut pdf_writer::Dict<'_>)
    ensures
        dict_entries(*final(dict)) == dict_entries(*old(dict)) + metadata_entries(),
{
    dict_pair_name(dict, "Type", "Metadata");
    dict_pair_name(dict, "Subtype", "XML");
    assert(dict_entries(*dict) =~= dict_entries(*old(dict)) + metadata_entries());
}

/// Writes the metadata stream as the next object of the document: the
/// packet, with the entries of [`metadata_entries`].
pub fn write_metadata(pdf: &mut pdf_writer::Pdf, id: Ref, packet: &Vec<u8>)
    requires
        packet@.len() <= i32::MAX,
    ensures
        pdf_refs(*final(pdf)) == pdf_refs(*old(pdf)).push(id@),
        pdf_bytes(*old(pdf)).is_prefix_of(pdf_bytes(*final(pdf))),
{
    let mut chunk = chunk_new();
    let mut stream = chunk_stream(&mut chunk, id.get(), packet.as_slice());
    write_metadata_entries(stream_dict(&mut stream));
    finish(stream);
    assert(chunk_refs(chunk) =~= seq![id@]);
    pdf_extend(pdf, &chunk);
    assert(pdf_refs(*pdf) =~= pdf_refs(*old(pdf)).push(id@));
    assert(pdf_bytes(*old(pdf)).is_prefix_of(pdf_bytes(*pdf))) by {
        assert(pdf_bytes(*pdf).subrange(0, pdf_bytes(*old(pdf)).len() as int) =~= pdf_bytes(
            *old(pdf),
        ));
    }
}

} // verus!
