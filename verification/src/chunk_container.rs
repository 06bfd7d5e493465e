//! The collection of all fragments of a document, and their assembly.
use vstd::prelude::*;
use std::collections::HashMap;
use pdf_writer::Chunk;
use crate::catalog::{
    catalog_lookups, catalog_needs, first_unmapped, has_document_info, has_structure, is_signed,
    lemma_prefix_chain, plan_catalog, sort_by_target, sorted_by_target, uses_files, write_catalog,
    write_document_info, write_metadata, write_signature, CatalogPlan, plan_follows,
};
use crate::configure::{PdfVersion, SerializeSettings, ValidationError};
use crate::error::{KrillaError, KrillaResult};
use crate::metadata::Metadata;
use crate::pdf::{
    pdf_bytes, pdf_extend, pdf_header, pdf_refs, pdf_set_binary_marker, pdf_set_file_id,
    pdf_set_version, pdf_to_bytes, pdf_with_capacity,
};
use crate::serialize::{ContextView, SerializerContext};
use crate::util::{base64, be_bytes, hash_base64, lemma_base64_ascii, sip_hash_128};
use crate::xmp::{document_packet, document_properties, xmp_packet};
use crate::pdf::{
    chunk_bytes, chunk_new, chunk_refs, chunk_renumber, renumber_asks, renumbered_bytes,
    renumbered_refs,
};
use crate::reference::{Ref, MAX_REF};
use crate::remap::{RefTable, RemapFault, TableView};
use crate::util::Deferred;

verus! {

/// A fragment as the traversal finds it: made, or failed.
pub type Slot = Result<Chunk, KrillaError>;

/// The chunks of `slots` in order, or the first failure among them.
pub open spec fn collect(slots: Seq<Slot>) -> Result<Seq<Chunk>, KrillaError>
    decreases slots.len(),
{
    if slots.len() == 0 {
        Ok(Seq::empty())
    } else {
        match collect(slots.drop_last()) {
            Err(e) => Err(e),
            Ok(chunks) => match slots.last() {
                Ok(chunk) => Ok(chunks.push(chunk)),
                Err(e) => Err(e),
            },
        }
    }
}

/// Collecting two lists in a row collects the first, then the second.
pub proof fn lemma_collect_concat(a: Seq<Slot>, b: Seq<Slot>)
    ensures
        collect(a + b) == match collect(a) {
            Err(e) => Err(e),
            Ok(x) => match collect(b) {
                Ok(y) => Ok(x + y),
                Err(e) => Err(e),
            },
        },
    decreases b.len(),
{
    if b.len() == 0 {
        assert(a + b =~= a);
        if let Ok(x) = collect(a) {
            assert(x + Seq::<Chunk>::empty() =~= x);
        }
    } else {
        assert((a + b).drop_last() =~= a + b.drop_last());
        assert((a + b).last() == b.last());
        lemma_collect_concat(a, b.drop_last());
        if let Ok(x) = collect(a) {
            if let Ok(y) = collect(b.drop_last()) {
                if let Ok(c) = b.last() {
                    assert((x + y).push(c) =~= x + y.push(c));
                }
            }
        }
    }
}

/// The chunks that a list of borrowed chunks stands for.
pub open spec fn derefs(chunks: Seq<&Chunk>) -> Seq<Chunk> {
    Seq::new(chunks.len(), |i: int| *chunks[i])
}

/// A borrowed chunk added to a list adds the chunk it stands for.
pub proof fn lemma_derefs_push(chunks: Seq<&Chunk>, chunk: &Chunk)
    ensures
        derefs(chunks.push(chunk)) == derefs(chunks).push(*chunk),
{
    assert(derefs(chunks.push(chunk)) =~= derefs(chunks).push(*chunk));
}

/// The slot of a fragment that stands alone in its category.
pub open spec fn single_slots(single: Option<(Ref, Chunk)>) -> Seq<Slot> {
    match single {
        Some((_, chunk)) => seq![Ok(chunk)],
        None => Seq::empty(),
    }
}

/// The slots of a list of chunks.
pub open spec fn plain_slots(chunks: Seq<Chunk>) -> Seq<Slot> {
    Seq::new(chunks.len(), |i: int| Ok(chunks[i]))
}

/// The slots of a list of deferred chunks whose production can fail.
pub open spec fn fallible_slots(chunks: Seq<Deferred<KrillaResult<Chunk>>>) -> Seq<Slot> {
    Seq::new(chunks.len(), |i: int| chunks[i]@)
}

/// The slot of an embedded document: its chunk under the references of the
/// host, or the failure of its import.
pub open spec fn embedded_slot(embedded: KrillaResult<EmbeddedPdfChunk>) -> Slot {
    match embedded {
        Ok(e) => Ok(e.new_chunk->0),
        Err(e) => Err(e),
    }
}

/// The slots of a list of embedded documents.
pub open spec fn embedded_slots(chunks: Seq<Deferred<KrillaResult<EmbeddedPdfChunk>>>) -> Seq<
    Slot,
> {
    Seq::new(chunks.len(), |i: int| embedded_slot(chunks[i]@))
}

/// The table that takes the references of an embedded document to the host's:
/// the pinned ones first, every other one to the next unused reference.
pub open spec fn import_table(pinned: Map<i32, i32>, next: int, original: Chunk) -> TableView {
    (TableView { map: pinned, fresh: Some(next), fault: None }).run(renumber_asks(original))
}

/// A chunk brought in from another document, with the host references that
/// some of its objects were given in advance.
pub struct EmbeddedPdfChunk {
    /// The chunk under the references of the document it comes from.
    pub original_chunk: Chunk,
    /// The references that are pinned: from a reference of the chunk to the
    /// reference that the host has decided on.
    pub root_ref_mappings: HashMap<i32, i32>,
    /// The chunk under the references of the host, once it has been made.
    pub new_chunk: Option<Chunk>,
}

impl EmbeddedPdfChunk {
    /// Every pinned reference is taken to a valid one.
    pub open spec fn wf(self) -> bool {
        forall|k: i32| self.root_ref_mappings@.contains_key(k) ==> #[trigger] self.root_ref_mappings@[k] >= 1
    }

    /// An embedded document with nothing pinned.
    pub fn new(original_chunk: Chunk) -> (embedded: EmbeddedPdfChunk)
        ensures
            embedded.original_chunk == original_chunk,
            embedded.root_ref_mappings@ == Map::<i32, i32>::empty(),
            embedded.new_chunk is None,
            embedded.wf(),
    {
        EmbeddedPdfChunk { original_chunk, root_ref_mappings: HashMap::new(), new_chunk: None }
    }

    /// Pins the reference `foreign` of the chunk to the host reference `host`.
    pub fn pin(&mut self, foreign: Ref, host: Ref)
        requires
            old(self).wf(),
        ensures
            final(self).wf(),
            final(self).original_chunk == old(self).original_chunk,
            final(self).new_chunk == old(self).new_chunk,
            final(self).root_ref_mappings@ == old(self).root_ref_mappings@.insert(foreign@, host@),
    {
        broadcast use vstd::std_specs::hash::group_hash_axioms;
        self.root_ref_mappings.insert(foreign.get(), host.get());
    }

    /// Makes the chunk under the references of the host, unless it has been
    /// made before: pinned references go to the host reference decided on,
    /// every other reference gets the next unused one of `next`, in the order
    /// in which the chunk mentions them. Fails, and changes nothing, where
    /// the references run out.
    pub fn resolve(&mut self, next: &mut Ref) -> (result: KrillaResult<()>)
        requires
            old(self).wf(),
        ensures
            final(self).wf(),
            final(self).original_chunk == old(self).original_chunk,
            final(self).root_ref_mappings == old(self).root_ref_mappings,
            old(self).new_chunk is Some ==> result is Ok && final(self).new_chunk == old(
                self,
            ).new_chunk && final(next)@ == old(next)@,
            old(self).new_chunk is None ==> ({
                let table = import_table(
                    old(self).root_ref_mappings@,
                    old(next)@ as int,
                    old(self).original_chunk,
                );
                if table.fault is Some {
                    &&& result == Err::<(), KrillaError>(KrillaError::OutOfReferences)
                    &&& final(self).new_chunk is None
                    &&& final(next)@ == old(next)@
                } else {
                    &&& result is Ok
                    &&& final(self).new_chunk matches Some(chunk)
                    &&& chunk_bytes(chunk) == renumbered_bytes(old(self).original_chunk, table.map)
                    &&& chunk_refs(chunk) == renumbered_refs(old(self).original_chunk, table.map)
                    &&& table.fresh == Some(final(next)@ as int)
                }
            }),
    {
        if self.new_chunk.is_some() {
            return Ok(());
        }
        let start = next.get();
        let mut table = RefTable::growing(self.root_ref_mappings.clone(), start);
        let chunk = chunk_renumber(&self.original_chunk, &mut table);
        proof {
            TableView::lemma_run_keeps_wf(
                TableView { map: self.root_ref_mappings@, fresh: Some(start as int), fault: None },
                renumber_asks(self.original_chunk),
            );
        }
        match table.fault() {
            Some(_) => Err(KrillaError::OutOfReferences),
            None => {
                match table.fresh() {
                    Some(n) => {
                        *next = Ref::new(n);
                    },
                    None => {},
                }
                self.new_chunk = Some(chunk);
                Ok(())
            },
        }
    }
}

/// The counter after one embedded document has been brought to the host's
/// references, starting at `next`; `None` where the references run out.
pub open spec fn import_step(before: KrillaResult<EmbeddedPdfChunk>, next: int) -> Option<int> {
    match before {
        Ok(b) if b.new_chunk is None => {
            let table = import_table(b.root_ref_mappings@, next, b.original_chunk);
            if table.fault is Some {
                None
            } else {
                table.fresh
            }
        },
        _ => Some(next),
    }
}

/// The counter after every embedded document of the list has been brought to
/// the host's references in turn; `None` where the references run out.
pub open spec fn import_next(
    list: Seq<Deferred<KrillaResult<EmbeddedPdfChunk>>>,
    next: int,
) -> Option<int>
    decreases list.len(),
{
    if list.len() == 0 {
        Some(next)
    } else {
        match import_next(list.drop_last(), next) {
            None => None,
            Some(n) => import_step(list.last()@, n),
        }
    }
}

/// What bringing an embedded document to the host's references does to it,
/// where the counter stands at `next`: a failed import stays as it is, a
/// chunk made before is kept, and any other is renumbered by the table of
/// its pins.
pub open spec fn imported(
    before: KrillaResult<EmbeddedPdfChunk>,
    after: KrillaResult<EmbeddedPdfChunk>,
    next: int,
) -> bool {
    match before {
        Err(_) => after == before,
        Ok(b) => {
            &&& after matches Ok(a)
            &&& a.original_chunk == b.original_chunk
            &&& a.root_ref_mappings == b.root_ref_mappings
            &&& match b.new_chunk {
                Some(chunk) => a.new_chunk == Some(chunk),
                None => {
                    let table = import_table(b.root_ref_mappings@, next, b.original_chunk);
                    &&& a.new_chunk matches Some(chunk)
                    &&& chunk_bytes(chunk) == renumbered_bytes(b.original_chunk, table.map)
                    &&& chunk_refs(chunk) == renumbered_refs(b.original_chunk, table.map)
                },
            }
        },
    }
}

/// Where the references run out within the first documents of a list, they
/// run out for the whole list.
pub proof fn lemma_import_fails_on(
    list: Seq<Deferred<KrillaResult<EmbeddedPdfChunk>>>,
    next: int,
    k: int,
)
    requires
        0 <= k <= list.len(),
        import_next(list.take(k), next) is None,
    ensures
        import_next(list, next) is None,
    decreases list.len() - k,
{
    if k < list.len() {
        assert(list.take(k + 1).drop_last() =~= list.take(k));
        lemma_import_fails_on(list, next, k + 1);
    } else {
        assert(list.take(k) =~= list);
    }
}

/// Brings every embedded document of the list to the references of the host,
/// in the order of the list: see [`EmbeddedPdfChunk::resolve`]. Stops at the
/// first document for which the references run out.
pub fn import_all(
    list: &mut Vec<Deferred<KrillaResult<EmbeddedPdfChunk>>>,
    next: &mut Ref,
) -> (result: KrillaResult<()>)
    requires
        embedded_wf(old(list)@),
    ensures
        final(list)@.len() == old(list)@.len(),
        embedded_wf(final(list)@),
        final(next)@ >= old(next)@,
        match import_next(old(list)@, old(next)@ as int) {
            Some(n) => {
                &&& result is Ok
                &&& final(next)@ == n
                &&& embedded_prepared(final(list)@)
                &&& forall|i: int|
                    0 <= i < old(list)@.len() ==> imported(
                        old(list)@[i]@,
                        #[trigger] final(list)@[i]@,
                        import_next(old(list)@.take(i), old(next)@ as int)->0,
                    )
            },
            None => result == Err::<(), KrillaError>(KrillaError::OutOfReferences),
        },
{
    let n = list.len();
    let mut i: usize = 0;
    assert(old(list)@.take(0) =~= Seq::empty());
    while i < n
        invariant
            n == list@.len(),
            n == old(list)@.len(),
            i <= n,
            embedded_wf(list@),
            next@ >= old(next)@,
            import_next(old(list)@.take(i as int), old(next)@ as int) == Some(next@ as int),
            forall|j: int| i <= j < n ==> list@[j] == old(list)@[j],
            forall|j: int|
                0 <= j < i ==> (#[trigger] list@[j]@ matches Ok(e) ==> e.new_chunk is Some),
            forall|j: int|
                0 <= j < i ==> imported(
                    old(list)@[j]@,
                    #[trigger] list@[j]@,
                    import_next(old(list)@.take(j), old(next)@ as int)->0,
                ),
        decreases n - i,
    {
        let ghost before = list@;
        let ghost start = next@ as int;
        assert(old(list)@.take(i + 1).drop_last() =~= old(list)@.take(i as int));
        assert(old(list)@.take(i + 1).last() == old(list)@[i as int]);
        assert(before[i as int]@ matches Ok(e) ==> e.wf());
        let slot = &mut list[i];
        let outcome = match slot.wait_mut() {
            Ok(embedded) => {
                proof {
                    TableView::lemma_run_fresh_grows(
                        TableView {
                            map: embedded.root_ref_mappings@,
                            fresh: Some(start),
                            fault: None,
                        },
                        renumber_asks(embedded.original_chunk),
                    );
                }
                embedded.resolve(next)
            },
            Err(_) => Ok(()),
        };
        assert(list@.len() == n);
        assert(forall|j: int| 0 <= j < n && j != i ==> list@[j] == before[j]);
        if outcome.is_err() {
            proof {
                lemma_import_fails_on(old(list)@, old(next)@ as int, i + 1);
            }
            return Err(KrillaError::OutOfReferences);
        }
        i += 1;
    }
    assert(old(list)@.take(n as int) =~= old(list)@);
    Ok(())
}

/// A list of slots without a failure collects to its chunks.
pub proof fn lemma_collect_all_made(slots: Seq<Slot>, chunks: Seq<Chunk>)
    requires
        slots.len() == chunks.len(),
        forall|i: int| 0 <= i < slots.len() ==> #[trigger] slots[i] == Ok::<Chunk, KrillaError>(chunks[i]),
    ensures
        collect(slots) == Ok::<Seq<Chunk>, KrillaError>(chunks),
    decreases slots.len(),
{
    if slots.len() > 0 {
        lemma_collect_all_made(slots.drop_last(), chunks.drop_last());
        assert(chunks.drop_last().push(chunks.last()) =~= chunks);
    } else {
        assert(chunks =~= Seq::empty());
    }
}

/// Adds the chunk of a category that holds one fragment at most.
fn visit_single<'a>(single: &'a Option<(Ref, Chunk)>, out: &mut Vec<&'a Chunk>)
    ensures
        collect(single_slots(*single)) matches Ok(chunks) && derefs(final(out)@) == derefs(old(out)@)
            + chunks,
{
    match single {
        Some((_, chunk)) => {
            out.push(chunk);
            proof {
                lemma_collect_all_made(single_slots(*single), seq![*chunk]);
                lemma_derefs_push(old(out)@, chunk);
                assert(derefs(old(out)@).push(*chunk) =~= derefs(old(out)@) + seq![*chunk]);
            }
        },
        None => {
            proof {
                lemma_collect_all_made(single_slots(*single), Seq::empty());
                assert(derefs(out@) =~= derefs(old(out)@) + Seq::<Chunk>::empty());
            }
        },
    }
}

/// Adds the chunks of a category in the order in which they were added to it.
fn visit_plain<'a>(chunks: &'a Vec<Chunk>, out: &mut Vec<&'a Chunk>)
    ensures
        collect(plain_slots(chunks@)) matches Ok(made) && derefs(final(out)@) == derefs(old(out)@)
            + made,
{
    let n = chunks.len();
    let mut i: usize = 0;
    assert(derefs(out@) =~= derefs(old(out)@) + chunks@.take(0));
    while i < n
        invariant
            n == chunks@.len(),
            i <= n,
            derefs(out@) == derefs(old(out)@) + chunks@.take(i as int),
        decreases n - i,
    {
        let ghost before = out@;
        out.push(&chunks[i]);
        proof {
            lemma_derefs_push(before, &chunks@[i as int]);
            assert(derefs(before).push(chunks@[i as int]) =~= derefs(old(out)@) + chunks@.take(
                i + 1,
            ));
        }
        i += 1;
    }
    proof {
        assert(chunks@.take(n as int) =~= chunks@);
        lemma_collect_all_made(plain_slots(chunks@), chunks@);
    }
}

/// Adds the chunks of a category whose fragments can fail, up to the first
/// failure, which it returns.
fn visit_fallible<'a>(chunks: &'a Vec<Deferred<KrillaResult<Chunk>>>, out: &mut Vec<&'a Chunk>) -> (result:
    KrillaResult<()>)
    ensures
        match collect(fallible_slots(chunks@)) {
            Ok(made) => result is Ok && derefs(final(out)@) == derefs(old(out)@) + made,
            Err(e) => result == Err::<(), KrillaError>(e),
        },
{
    let n = chunks.len();
    let mut i: usize = 0;
    assert(fallible_slots(chunks@).take(0) =~= Seq::empty());
    assert(derefs(out@) =~= derefs(old(out)@) + Seq::<Chunk>::empty());
    while i < n
        invariant
            n == chunks@.len(),
            i <= n,
            collect(fallible_slots(chunks@).take(i as int)) matches Ok(made) && derefs(out@)
                == derefs(old(out)@) + made,
        decreases n - i,
    {
        let ghost slots = fallible_slots(chunks@);
        assert(slots.take(i + 1).drop_last() =~= slots.take(i as int));
        assert(slots.take(i + 1).last() == chunks@[i as int]@);
        match chunks[i].wait() {
            Ok(chunk) => {
                let ghost before = out@;
                out.push(chunk);
                proof {
                    lemma_derefs_push(before, chunk);
                    assert(derefs(before).push(*chunk) =~= derefs(old(out)@) + collect(
                        slots.take(i + 1),
                    )->Ok_0);
                }
            },
            Err(e) => {
                proof {
                    assert(slots.take(i + 1) + slots.skip(i + 1) =~= slots);
                    lemma_collect_concat(slots.take(i + 1), slots.skip(i + 1));
                }
                return Err(e.duplicate());
            },
        }
        i += 1;
    }
    assert(fallible_slots(chunks@).take(n as int) =~= fallible_slots(chunks@));
    Ok(())
}

/// Adds the chunks of the embedded documents, each under the references of
/// the host, up to the first import that failed, whose failure it returns.
fn visit_embedded<'a>(
    chunks: &'a Vec<Deferred<KrillaResult<EmbeddedPdfChunk>>>,
    out: &mut Vec<&'a Chunk>,
) -> (result: KrillaResult<()>)
    requires
        embedded_prepared(chunks@),
    ensures
        match collect(embedded_slots(chunks@)) {
            Ok(made) => result is Ok && derefs(final(out)@) == derefs(old(out)@) + made,
            Err(e) => result == Err::<(), KrillaError>(e),
        },
{
    let n = chunks.len();
    let mut i: usize = 0;
    assert(embedded_slots(chunks@).take(0) =~= Seq::empty());
    assert(derefs(out@) =~= derefs(old(out)@) + Seq::<Chunk>::empty());
    while i < n
        invariant
            n == chunks@.len(),
            i <= n,
            embedded_prepared(chunks@),
            collect(embedded_slots(chunks@).take(i as int)) matches Ok(made) && derefs(out@)
                == derefs(old(out)@) + made,
        decreases n - i,
    {
        let ghost slots = embedded_slots(chunks@);
        assert(slots.take(i + 1).drop_last() =~= slots.take(i as int));
        assert(slots.take(i + 1).last() == embedded_slot(chunks@[i as int]@));
        match chunks[i].wait() {
            Ok(embedded) => {
                match &embedded.new_chunk {
                    Some(chunk) => {
                        let ghost before = out@;
                        out.push(chunk);
                        proof {
                            lemma_derefs_push(before, chunk);
                            assert(derefs(before).push(*chunk) =~= derefs(old(out)@) + collect(
                                slots.take(i + 1),
                            )->Ok_0);
                        }
                    },
                    None => {
                        assert(false);
                    },
                }
            },
            Err(e) => {
                proof {
                    assert(slots.take(i + 1) + slots.skip(i + 1) =~= slots);
                    lemma_collect_concat(slots.take(i + 1), slots.skip(i + 1));
                }
                return Err(e.duplicate());
            },
        }
        i += 1;
    }
    assert(embedded_slots(chunks@).take(n as int) =~= embedded_slots(chunks@));
    Ok(())
}

/// The references that a list of chunks defines, in the order of the list.
pub open spec fn defined(chunks: Seq<Chunk>) -> Seq<i32>
    decreases chunks.len(),
{
    if chunks.len() == 0 {
        Seq::empty()
    } else {
        defined(chunks.drop_last()) + chunk_refs(chunks.last())
    }
}

/// The first reference of a list that has occurred before in it.
pub open spec fn first_repeat(refs: Seq<i32>) -> Option<i32>
    decreases refs.len(),
{
    if refs.len() == 0 {
        None
    } else {
        match first_repeat(refs.drop_last()) {
            Some(r) => Some(r),
            None => if refs.drop_last().contains(refs.last()) {
                Some(refs.last())
            } else {
                None
            },
        }
    }
}

/// The new numbers of a list of references: the first gets 1, each further
/// one the next number.
pub open spec fn numbering(refs: Seq<i32>) -> Map<i32, i32>
    decreases refs.len(),
{
    if refs.len() == 0 {
        Map::empty()
    } else {
        numbering(refs.drop_last()).insert(refs.last(), refs.len() as i32)
    }
}

/// The numbers from 1 to `n`, in order.
pub open spec fn one_to(n: int) -> Seq<i32> {
    Seq::new(n as nat, |k: int| (k + 1) as i32)
}

/// A list has no reference twice exactly where none repeats an earlier one.
pub proof fn lemma_first_repeat(refs: Seq<i32>)
    ensures
        first_repeat(refs) is None <==> refs.no_duplicates(),
    decreases refs.len(),
{
    if refs.len() > 0 {
        let front = refs.drop_last();
        lemma_first_repeat(front);
        if first_repeat(refs) is None {
            assert forall|i: int, j: int|
                0 <= i < refs.len() && 0 <= j < refs.len() && i != j implies refs[i] != refs[j] by {
                if i < front.len() && j < front.len() {
                    assert(front[i] != front[j]);
                } else if i < front.len() {
                    assert(front[i] == refs[i]);
                } else {
                    assert(front[j] == refs[j]);
                }
            }
        } else {
            if first_repeat(front) is None {
                let i = choose|i: int| 0 <= i < front.len() && front[i] == refs.last();
                assert(refs[i] == refs[refs.len() - 1]);
            } else {
                let (i, j) = choose|i: int, j: int|
                    0 <= i < front.len() && 0 <= j < front.len() && i != j && front[i] == front[j];
                assert(refs[i] == refs[j]);
            }
        }
    }
}

/// A reference that repeats within the first references of a list is the
/// first repeat of every longer part of the list.
pub proof fn lemma_first_repeat_stays(refs: Seq<i32>, k: int, n: int)
    requires
        0 <= k <= n <= refs.len(),
        first_repeat(refs.take(k)) is Some,
    ensures
        first_repeat(refs.take(n)) == first_repeat(refs.take(k)),
    decreases n - k,
{
    if k < n {
        lemma_first_repeat_stays(refs, k, n - 1);
        assert(refs.take(n).drop_last() =~= refs.take(n - 1));
    }
}

/// The numbering has an entry for exactly the references of the list, and
/// where none occurs twice, the reference at place `k` gets the number `k + 1`.
pub proof fn lemma_numbering(refs: Seq<i32>)
    requires
        refs.len() <= MAX_REF,
    ensures
        forall|r: i32| numbering(refs).contains_key(r) <==> refs.contains(r),
        forall|r: i32| #[trigger] numbering(refs).contains_key(r) ==> 1 <= numbering(refs)[r] <= refs.len(),
        refs.no_duplicates() ==> forall|k: int|
            0 <= k < refs.len() ==> numbering(refs)[#[trigger] refs[k]] == k + 1,
    decreases refs.len(),
{
    if refs.len() > 0 {
        let front = refs.drop_last();
        lemma_numbering(front);
        assert forall|r: i32| numbering(refs).contains_key(r) <==> refs.contains(r) by {
            if refs.contains(r) {
                let i = choose|i: int| 0 <= i < refs.len() && refs[i] == r;
                if i < front.len() {
                    assert(front[i] == r);
                }
            }
            if front.contains(r) {
                let i = choose|i: int| 0 <= i < front.len() && front[i] == r;
                assert(refs[i] == r);
            }
            if r == refs.last() {
                assert(refs[refs.len() - 1] == r);
            }
        }
        assert forall|r: i32| #[trigger] numbering(refs).contains_key(r) implies 1 <= numbering(
            refs,
        )[r] <= refs.len() by {
            if r != refs.last() {
                assert(numbering(front).contains_key(r));
            }
        }
        if refs.no_duplicates() {
            assert forall|k: int| 0 <= k < refs.len() implies numbering(refs)[#[trigger] refs[k]]
                == k + 1 by {
                if k < front.len() {
                    assert(front[k] == refs[k]);
                    assert(refs[k] != refs[refs.len() - 1]);
                }
            }
        }
    }
}

/// The references that the first chunks of a list define are the first that
/// the list defines.
pub proof fn lemma_defined_prefix(chunks: Seq<Chunk>, k: int)
    requires
        0 <= k <= chunks.len(),
    ensures
        defined(chunks.take(k)).is_prefix_of(defined(chunks)),
    decreases chunks.len() - k,
{
    if k < chunks.len() {
        lemma_defined_prefix(chunks, k + 1);
        assert(chunks.take(k + 1).drop_last() =~= chunks.take(k));
    } else {
        assert(chunks.take(k) =~= chunks);
    }
}

/// What the first pass over the chunks decides.
pub struct Numbering {
    /// The new number of every reference that a chunk defines.
    pub map: HashMap<i32, i32>,
    /// The number after the last one given.
    pub next: Ref,
    /// The number of bytes of all chunks, as far as a `usize` can count them.
    pub byte_len: usize,
}

/// First pass: gives every reference that a chunk defines the next number,
/// starting at 1, in the order of the chunks and, within a chunk, of its
/// objects. Fails at the first reference that was defined before, and where
/// the numbers run out.
pub fn plan(chunks: &Vec<&Chunk>) -> (result: KrillaResult<Numbering>)
    ensures
        ({
            let refs = defined(derefs(chunks@));
            let limit = if refs.len() < MAX_REF {
                refs.len() as int
            } else {
                MAX_REF as int
            };
            match first_repeat(refs.take(limit)) {
                Some(r) => result matches Err(e) && e == KrillaError::DuplicateReference(r),
                None => if refs.len() >= MAX_REF {
                    result matches Err(e) && e == KrillaError::OutOfReferences
                } else {
                    &&& result matches Ok(numbers)
                    &&& numbers.map@ == numbering(refs)
                    &&& numbers.next@ == refs.len() + 1
                    &&& refs.no_duplicates()
                },
            }
        }),
{
    broadcast use vstd::std_specs::hash::group_hash_axioms;
    let mut map: HashMap<i32, i32> = HashMap::new();
    let mut next = Ref::new(1);
    let mut byte_len: usize = 0;
    let ghost all = defined(derefs(chunks@));
    let ghost limit = if all.len() < MAX_REF {
        all.len() as int
    } else {
        MAX_REF as int
    };
    let n = chunks.len();
    let mut i: usize = 0;
    assert(derefs(chunks@).take(0) =~= Seq::empty());
    while i < n
        invariant
            n == chunks@.len(),
            i <= n,
            all == defined(derefs(chunks@)),
            limit == if all.len() < MAX_REF {
                all.len() as int
            } else {
                MAX_REF as int
            },
            defined(derefs(chunks@).take(i as int)).len() < MAX_REF,
            map@ == numbering(defined(derefs(chunks@).take(i as int))),
            next@ == defined(derefs(chunks@).take(i as int)).len() + 1,
            first_repeat(defined(derefs(chunks@).take(i as int))) is None,
        decreases n - i,
    {
        let chunk = chunks[i];
        let ghost done = defined(derefs(chunks@).take(i as int));
        let refs = crate::pdf::chunk_defined(chunk);
        proof {
            assert(derefs(chunks@).take(i + 1).drop_last() =~= derefs(chunks@).take(i as int));
            assert(derefs(chunks@).take(i + 1).last() == *chunk);
            lemma_defined_prefix(derefs(chunks@), i + 1);
            assert(defined(derefs(chunks@).take(i + 1)) == done + refs@);
            assert(done + refs@.take(0) =~= done);
        }
        let m = refs.len();
        let mut j: usize = 0;
        while j < m
            invariant
                m == refs@.len(),
                j <= m,
                all == defined(derefs(chunks@)),
                limit == if all.len() < MAX_REF {
                    all.len() as int
                } else {
                    MAX_REF as int
                },
                (done + refs@).is_prefix_of(all),
                (done + refs@.take(j as int)).len() < MAX_REF,
                map@ == numbering(done + refs@.take(j as int)),
                next@ == (done + refs@.take(j as int)).len() + 1,
                first_repeat(done + refs@.take(j as int)) is None,
            decreases m - j,
        {
            let r = refs[j];
            let ghost before = done + refs@.take(j as int);
            let ghost after = done + refs@.take(j + 1);
            proof {
                assert(after.drop_last() =~= before);
                assert(after.last() == r);
                assert(after =~= all.take(after.len() as int));
                assert(before =~= all.take(before.len() as int));
                lemma_numbering(before);
            }
            if map.contains_key(&r) {
                proof {
                    assert(first_repeat(after) == Some(r));
                    lemma_first_repeat_stays(all, after.len() as int, limit);
                }
                return Err(KrillaError::DuplicateReference(r));
            }
            if next.get() >= MAX_REF {
                proof {
                    assert(after.len() == MAX_REF);
                    assert(all.take(limit) =~= after);
                }
                return Err(KrillaError::OutOfReferences);
            }
            map.insert(r, next.get());
            let _ = next.bump();
            j += 1;
        }
        assert(refs@.take(m as int) =~= refs@);
        let len = crate::pdf::chunk_len(chunk);
        byte_len = if len > usize::MAX - byte_len {
            usize::MAX
        } else {
            byte_len + len
        };
        i += 1;
    }
    proof {
        assert(derefs(chunks@).take(n as int) =~= derefs(chunks@));
        lemma_first_repeat(all);
        assert(all.take(limit) =~= all);
    }
    Ok(Numbering { map, next, byte_len })
}

/// The bytes of a list of chunks once their references are replaced by the
/// numbers of `map`.
pub open spec fn body_bytes(chunks: Seq<Chunk>, map: Map<i32, i32>) -> Seq<u8>
    decreases chunks.len(),
{
    if chunks.len() == 0 {
        Seq::empty()
    } else {
        body_bytes(chunks.drop_last(), map) + renumbered_bytes(chunks.last(), map)
    }
}

/// The references of the objects of a list of chunks once their references
/// are replaced by the numbers of `map`.
pub open spec fn body_refs(chunks: Seq<Chunk>, map: Map<i32, i32>) -> Seq<i32>
    decreases chunks.len(),
{
    if chunks.len() == 0 {
        Seq::empty()
    } else {
        body_refs(chunks.drop_last(), map) + renumbered_refs(chunks.last(), map)
    }
}

/// The first reference that a chunk mentions and `map` has no number for.
pub open spec fn dangling(chunk: Chunk, map: Map<i32, i32>) -> Option<i32> {
    match (TableView { map, fresh: None, fault: None }).run(renumber_asks(chunk)).fault {
        Some(RemapFault::Unknown(id)) => Some(id),
        _ => None,
    }
}

/// The first reference that a list of chunks mentions and `map` has no
/// number for.
pub open spec fn first_dangling(chunks: Seq<Chunk>, map: Map<i32, i32>) -> Option<i32>
    decreases chunks.len(),
{
    if chunks.len() == 0 {
        None
    } else {
        match first_dangling(chunks.drop_last(), map) {
            Some(id) => Some(id),
            None => dangling(chunks.last(), map),
        }
    }
}

/// A reference found dangling among the first chunks of a list is the first
/// dangling one of the list.
pub proof fn lemma_first_dangling_stays(chunks: Seq<Chunk>, map: Map<i32, i32>, k: int)
    requires
        0 <= k <= chunks.len(),
        first_dangling(chunks.take(k), map) is Some,
    ensures
        first_dangling(chunks, map) == first_dangling(chunks.take(k), map),
    decreases chunks.len() - k,
{
    if k < chunks.len() {
        assert(chunks.take(k + 1).drop_last() =~= chunks.take(k));
        lemma_first_dangling_stays(chunks, map, k + 1);
    } else {
        assert(chunks.take(k) =~= chunks);
    }
}

/// The bytes of a list of chunks, in a row.
pub open spec fn bytes_of(chunks: Seq<Chunk>) -> Seq<u8>
    decreases chunks.len(),
{
    if chunks.len() == 0 {
        Seq::empty()
    } else {
        bytes_of(chunks.drop_last()) + chunk_bytes(chunks.last())
    }
}

/// Each chunk of `pieces` is the chunk at the same place of `chunks` with
/// its references replaced by the numbers of `map`.
pub open spec fn renumbered_as(pieces: Seq<Chunk>, chunks: Seq<Chunk>, map: Map<i32, i32>) -> bool {
    &&& pieces.len() == chunks.len()
    &&& forall|i: int|
        0 <= i < chunks.len() ==> chunk_bytes(#[trigger] pieces[i]) == renumbered_bytes(
            chunks[i],
            map,
        ) && chunk_refs(pieces[i]) == renumbered_refs(chunks[i], map)
}

/// Renumbered chunks hold, in a row, the renumbered bytes and the
/// renumbered references of the chunks they were made of.
pub proof fn lemma_renumbered_as(pieces: Seq<Chunk>, chunks: Seq<Chunk>, map: Map<i32, i32>)
    requires
        renumbered_as(pieces, chunks, map),
    ensures
        bytes_of(pieces) == body_bytes(chunks, map),
        defined(pieces) == body_refs(chunks, map),
    decreases chunks.len(),
{
    if chunks.len() > 0 {
        assert(renumbered_as(pieces.drop_last(), chunks.drop_last(), map)) by {
            assert forall|i: int| 0 <= i < chunks.len() - 1 implies chunk_bytes(
                #[trigger] pieces.drop_last()[i],
            ) == renumbered_bytes(chunks.drop_last()[i], map) && chunk_refs(pieces.drop_last()[i])
                == renumbered_refs(chunks.drop_last()[i], map) by {
                assert(pieces.drop_last()[i] == pieces[i]);
            }
        }
        lemma_renumbered_as(pieces.drop_last(), chunks.drop_last(), map);
        assert(pieces.last() == pieces[pieces.len() - 1]);
    }
}

/// Second pass: makes of every chunk, in order, a chunk with each reference
/// replaced by its entry in `table`. Fails at the first reference that has
/// no entry.
pub fn write_body(chunks: &Vec<&Chunk>, table: &mut RefTable) -> (result: KrillaResult<Vec<Chunk>>)
    requires
        old(table)@.wf(),
        old(table)@.fresh is None,
        old(table)@.fault is None,
    ensures
        final(table)@.map == old(table)@.map,
        final(table)@.fresh is None,
        final(table)@.wf(),
        match first_dangling(derefs(chunks@), old(table)@.map) {
            Some(id) => result matches Err(e) && e == KrillaError::UnknownReference(id),
            None => {
                &&& result matches Ok(pieces)
                &&& final(table)@.fault is None
                &&& renumbered_as(pieces@, derefs(chunks@), old(table)@.map)
            },
        },
{
    let mut pieces: Vec<Chunk> = Vec::new();
    let ghost map = table@.map;
    let n = chunks.len();
    let mut i: usize = 0;
    assert(derefs(chunks@).take(0) =~= Seq::empty());
    while i < n
        invariant
            n == chunks@.len(),
            i <= n,
            map == old(table)@.map,
            table@ == (TableView { map, fresh: None, fault: None }),
            table@.wf(),
            first_dangling(derefs(chunks@).take(i as int), map) is None,
            renumbered_as(pieces@, derefs(chunks@).take(i as int), map),
        decreases n - i,
    {
        let chunk = chunks[i];
        proof {
            assert(derefs(chunks@).take(i + 1).drop_last() =~= derefs(chunks@).take(i as int));
            assert(derefs(chunks@).take(i + 1).last() == *chunk);
            table@.lemma_run_fixed(renumber_asks(*chunk));
            table@.lemma_run_keeps_wf(renumber_asks(*chunk));
        }
        let piece = chunk_renumber(chunk, table);
        match table.fault() {
            Some(RemapFault::Unknown(id)) => {
                proof {
                    lemma_first_dangling_stays(derefs(chunks@), map, i + 1);
                }
                return Err(KrillaError::UnknownReference(id));
            },
            Some(RemapFault::Exhausted) => {
                assert(false);
            },
            None => {},
        }
        assert(table@ =~= (TableView { map, fresh: None, fault: None }));
        let ghost before = pieces@;
        pieces.push(piece);
        assert forall|k: int| 0 <= k < i + 1 implies chunk_bytes(#[trigger] pieces@[k])
            == renumbered_bytes(derefs(chunks@).take(i + 1)[k], map) && chunk_refs(pieces@[k])
            == renumbered_refs(derefs(chunks@).take(i + 1)[k], map) by {
            if k < i {
                assert(pieces@[k] == before[k]);
                assert(derefs(chunks@).take(i as int)[k] == derefs(chunks@).take(i + 1)[k]);
            }
        }
        i += 1;
    }
    assert(derefs(chunks@).take(n as int) =~= derefs(chunks@));
    Ok(pieces)
}

/// Whether the objects of a list of chunks carry the numbers from 1 to
/// `count`, in order.
pub fn numbered_in_order(pieces: &Vec<Chunk>, count: i32) -> (b: bool)
    requires
        count >= 0,
    ensures
        b == (defined(pieces@) == one_to(count as int)),
{
    let mut seen: i32 = 0;
    let mut i: usize = 0;
    assert(pieces@.take(0) =~= Seq::empty());
    assert(defined(pieces@.take(0)) =~= one_to(0));
    while i < pieces.len()
        invariant
            i <= pieces@.len(),
            0 <= seen <= count,
            defined(pieces@.take(i as int)) == one_to(seen as int),
        decreases pieces@.len() - i,
    {
        let refs = crate::pdf::chunk_defined(&pieces[i]);
        let ghost done = defined(pieces@.take(i as int));
        proof {
            assert(pieces@.take(i + 1).drop_last() =~= pieces@.take(i as int));
            assert(pieces@.take(i + 1).last() == pieces@[i as int]);
            lemma_defined_prefix(pieces@, i + 1);
        }
        let mut k: usize = 0;
        assert(done + refs@.take(0) =~= done);
        while k < refs.len()
            invariant
                k <= refs@.len(),
                0 <= seen <= count,
                done + refs@ == defined(pieces@.take(i + 1)),
                defined(pieces@.take(i + 1)).is_prefix_of(defined(pieces@)),
                done + refs@.take(k as int) == one_to(seen as int),
            decreases refs@.len() - k,
        {
            let ghost place = done.len() + k;
            assert((done + refs@.take(k as int)).len() == one_to(seen as int).len());
            assert(place == seen);
            assert((done + refs@)[place as int] == refs@[k as int]);
            assert(place < defined(pieces@).len());
            assert(defined(pieces@)[place as int] == refs@[k as int]);
            if seen >= count || refs[k] != seen + 1 {
                assert(defined(pieces@) != one_to(count as int)) by {
                    if defined(pieces@) == one_to(count as int) {
                        assert(defined(pieces@).len() == count);
                        assert(one_to(count as int)[place as int] == place + 1);
                    }
                }
                return false;
            }
            proof {
                lemma_one_to_push(seen as int);
                assert(done + refs@.take(k + 1) =~= (done + refs@.take(k as int)).push(
                    refs@[k as int],
                ));
            }
            seen += 1;
            k += 1;
        }
        assert(refs@.take(refs@.len() as int) =~= refs@);
        i += 1;
    }
    assert(pieces@.take(pieces@.len() as int) =~= pieces@);
    if seen != count {
        assert(one_to(seen as int).len() != one_to(count as int).len());
    }
    seen == count
}

/// Why the chunks cannot be brought under one numbering, if they cannot: the
/// first reference defined twice; else that the numbers run out; else the
/// first reference that is mentioned and nowhere defined; else that an object
/// is lost in renumbering.
pub open spec fn renumber_fault(chunks: Seq<Chunk>) -> Option<KrillaError> {
    let refs = defined(chunks);
    let limit = if refs.len() < MAX_REF {
        refs.len() as int
    } else {
        MAX_REF as int
    };
    match first_repeat(refs.take(limit)) {
        Some(r) => Some(KrillaError::DuplicateReference(r)),
        None => if refs.len() >= MAX_REF {
            Some(KrillaError::OutOfReferences)
        } else {
            match first_dangling(chunks, numbering(refs)) {
                Some(id) => Some(KrillaError::UnknownReference(id)),
                None => if body_refs(chunks, numbering(refs)) != one_to(refs.len() as int) {
                    Some(KrillaError::MalformedObject)
                } else {
                    None
                },
            }
        },
    }
}

/// The chunks of a document under one numbering.
pub struct Renumbered {
    /// The chunks under the new numbers: all objects, numbered from 1 in
    /// the order in which they are written.
    pub pieces: Vec<Chunk>,
    /// The table from the old references to the new numbers.
    pub table: RefTable,
    /// The number after the last one given.
    pub next: Ref,
    /// The number of bytes of all chunks before renumbering, as far as a
    /// `usize` can count them.
    pub byte_len: usize,
}

/// Brings the chunks under one numbering, in two passes over the same list:
/// the first gives every defined reference the next number from 1, the
/// second writes every chunk with its references replaced.
pub fn renumber(chunks: &Vec<&Chunk>) -> (result: KrillaResult<Renumbered>)
    ensures
        match renumber_fault(derefs(chunks@)) {
            Some(e) => result matches Err(f) && f == e,
            None => {
                let refs = defined(derefs(chunks@));
                &&& result matches Ok(done)
                &&& refs.no_duplicates()
                &&& done.table@ == (TableView { map: numbering(refs), fresh: None, fault: None })
                &&& done.table@.wf()
                &&& done.next@ == refs.len() + 1
                &&& defined(done.pieces@) == one_to(refs.len() as int)
                &&& bytes_of(done.pieces@) == body_bytes(derefs(chunks@), numbering(refs))
            },
        },
{
    let numbers = match plan(chunks) {
        Ok(numbers) => numbers,
        Err(e) => {
            return Err(e);
        },
    };
    proof {
        lemma_numbering(defined(derefs(chunks@)));
    }
    let count = numbers.next.get() - 1;
    let mut table = RefTable::fixed(numbers.map);
    let pieces = match write_body(chunks, &mut table) {
        Ok(pieces) => pieces,
        Err(e) => {
            return Err(e);
        },
    };
    proof {
        lemma_renumbered_as(
            pieces@,
            derefs(chunks@),
            numbering(defined(derefs(chunks@))),
        );
    }
    if !numbered_in_order(&pieces, count) {
        return Err(KrillaError::MalformedObject);
    }
    assert(table@ =~= (TableView {
        map: numbering(defined(derefs(chunks@))),
        fresh: None,
        fault: None,
    }));
    Ok(Renumbered { pieces, table, next: numbers.next, byte_len: numbers.byte_len })
}

/// All fragments made while a document is built, one list for each kind of
/// object, in the order in which they are written out.
pub struct ChunkContainer {
    /// The page tree.
    pub page_tree: Option<(Ref, Chunk)>,
    /// The outline.
    pub outline: Option<(Ref, Chunk)>,
    /// The tree of page labels.
    pub page_label_tree: Option<(Ref, Chunk)>,
    /// The output intents.
    pub destination_profiles: Option<(Ref, Chunk)>,
    /// The root of the structure tree.
    pub struct_tree_root: Option<(Ref, Chunk)>,
    /// The elements of the structure tree.
    pub struct_elements: Vec<Chunk>,
    /// The page labels.
    pub page_labels: Vec<Chunk>,
    /// The annotations.
    pub annotations: Vec<Chunk>,
    /// The fonts.
    pub fonts: Vec<Chunk>,
    /// The color spaces.
    pub color_spaces: Vec<Deferred<KrillaResult<Chunk>>>,
    /// The ICC profiles.
    pub icc_profiles: Vec<Deferred<KrillaResult<Chunk>>>,
    /// The destinations.
    pub destinations: Vec<Chunk>,
    /// The graphics states.
    pub ext_g_states: Vec<Deferred<KrillaResult<Chunk>>>,
    /// The masks.
    pub masks: Vec<Deferred<KrillaResult<Chunk>>>,
    /// The form objects.
    pub x_objects: Vec<Deferred<KrillaResult<Chunk>>>,
    /// The shading functions.
    pub shading_functions: Vec<Deferred<KrillaResult<Chunk>>>,
    /// The patterns.
    pub patterns: Vec<Deferred<KrillaResult<Chunk>>>,
    /// The pages.
    pub pages: Vec<Deferred<KrillaResult<Chunk>>>,
    /// The images.
    pub images: Vec<Deferred<KrillaResult<Chunk>>>,
    /// The embedded files.
    pub embedded_files: Vec<Deferred<KrillaResult<Chunk>>>,
    /// The embedded documents.
    pub embedded_pdfs: Vec<Deferred<KrillaResult<EmbeddedPdfChunk>>>,
    /// What the document says about itself.
    pub metadata: Option<Metadata>,
}

/// A category of fragments that are made when an object is registered.
#[derive(Clone, Copy, Debug, PartialEq, Eq, Structural)]
pub enum Category {
    /// The color spaces.
    ColorSpace,
    /// The ICC profiles.
    IccProfile,
    /// The graphics states.
    ExtGState,
    /// The masks.
    Mask,
    /// The form objects.
    XObject,
    /// The shading functions.
    ShadingFunction,
    /// The patterns.
    Pattern,
    /// The pages.
    Page,
    /// The embedded files.
    EmbeddedFile,
}

/// Every embedded document of the list has well-formed pins.
pub open spec fn embedded_wf(chunks: Seq<Deferred<KrillaResult<EmbeddedPdfChunk>>>) -> bool {
    forall|i: int| 0 <= i < chunks.len() ==> (#[trigger] chunks[i]@ matches Ok(e) ==> e.wf())
}

/// Every embedded document of the list has its chunk under the references of
/// the host.
pub open spec fn embedded_prepared(chunks: Seq<Deferred<KrillaResult<EmbeddedPdfChunk>>>) -> bool {
    forall|i: int|
        0 <= i < chunks.len() ==> (#[trigger] chunks[i]@ matches Ok(e) ==> e.new_chunk is Some)
}

impl ChunkContainer {
    /// A container without fragments.
    pub fn new() -> (container: ChunkContainer)
        ensures
            container.slots() == Seq::<Slot>::empty(),
            container.metadata is None,
            container.wf(),
    {
        let container = ChunkContainer {
            page_tree: None,
            outline: None,
            page_label_tree: None,
            destination_profiles: None,
            struct_tree_root: None,
            struct_elements: Vec::new(),
            page_labels: Vec::new(),
            annotations: Vec::new(),
            fonts: Vec::new(),
            color_spaces: Vec::new(),
            icc_profiles: Vec::new(),
            destinations: Vec::new(),
            ext_g_states: Vec::new(),
            masks: Vec::new(),
            x_objects: Vec::new(),
            shading_functions: Vec::new(),
            patterns: Vec::new(),
            pages: Vec::new(),
            images: Vec::new(),
            embedded_files: Vec::new(),
            embedded_pdfs: Vec::new(),
            metadata: None,
        };
        assert(container.slots() =~= Seq::<Slot>::empty());
        container
    }

    /// The pins of every embedded document are well formed.
    pub open spec fn wf(self) -> bool {
        embedded_wf(self.embedded_pdfs@)
    }

    /// The fragments of a category.
    pub open spec fn category(self, category: Category) -> Seq<Deferred<KrillaResult<Chunk>>> {
        match category {
            Category::ColorSpace => self.color_spaces@,
            Category::IccProfile => self.icc_profiles@,
            Category::ExtGState => self.ext_g_states@,
            Category::Mask => self.masks@,
            Category::XObject => self.x_objects@,
            Category::ShadingFunction => self.shading_functions@,
            Category::Pattern => self.patterns@,
            Category::Page => self.pages@,
            Category::EmbeddedFile => self.embedded_files@,
        }
    }

    /// `after` is `self` but for the fragments of a category.
    pub open spec fn same_but(self, category: Category, after: ChunkContainer) -> bool {
        match category {
            Category::ColorSpace => after == (ChunkContainer {
                color_spaces: after.color_spaces,
                ..self
            }),
            Category::IccProfile => after == (ChunkContainer {
                icc_profiles: after.icc_profiles,
                ..self
            }),
            Category::ExtGState => after == (ChunkContainer {
                ext_g_states: after.ext_g_states,
                ..self
            }),
            Category::Mask => after == (ChunkContainer { masks: after.masks, ..self }),
            Category::XObject => after == (ChunkContainer { x_objects: after.x_objects, ..self }),
            Category::ShadingFunction => after == (ChunkContainer {
                shading_functions: after.shading_functions,
                ..self
            }),
            Category::Pattern => after == (ChunkContainer { patterns: after.patterns, ..self }),
            Category::Page => after == (ChunkContainer { pages: after.pages, ..self }),
            Category::EmbeddedFile => after == (ChunkContainer {
                embedded_files: after.embedded_files,
                ..self
            }),
        }
    }

    /// `after` is `self` with one more chunk at the end of a category.
    pub open spec fn with_chunk(self, category: Category, chunk: Chunk, after: ChunkContainer) -> bool {
        self.with_slot(category, Ok(chunk), after)
    }

    /// `after` is `self` with one more fragment at the end of a category:
    /// a chunk, or the failure of its production.
    pub open spec fn with_slot(self, category: Category, slot: Slot, after: ChunkContainer) -> bool {
        &&& self.same_but(category, after)
        &&& after.category(category).len() == self.category(category).len() + 1
        &&& after.category(category).drop_last() == self.category(category)
        &&& after.category(category).last()@ == slot
        &&& forall|other: Category| other != category ==> after.category(other) == self.category(other)
        &&& after.page_tree == self.page_tree
        &&& after.outline == self.outline
        &&& after.page_label_tree == self.page_label_tree
        &&& after.destination_profiles == self.destination_profiles
        &&& after.struct_tree_root == self.struct_tree_root
        &&& after.struct_elements == self.struct_elements
        &&& after.page_labels == self.page_labels
        &&& after.annotations == self.annotations
        &&& after.fonts == self.fonts
        &&& after.destinations == self.destinations
        &&& after.images == self.images
        &&& after.embedded_pdfs == self.embedded_pdfs
        &&& after.metadata == self.metadata
    }

    /// Adds a fragment at the end of a category: a chunk, or the failure
    /// of its production, which the traversal meets at that place.
    pub fn deposit(&mut self, category: Category, made: KrillaResult<Chunk>)
        ensures
            old(self).with_slot(category, made, *final(self)),
    {
        let slot = Deferred::new(made);
        match category {
            Category::ColorSpace => {
                self.color_spaces.push(slot);
                assert(self.color_spaces@.drop_last() =~= old(self).color_spaces@);
            },
            Category::IccProfile => {
                self.icc_profiles.push(slot);
                assert(self.icc_profiles@.drop_last() =~= old(self).icc_profiles@);
            },
            Category::ExtGState => {
                self.ext_g_states.push(slot);
                assert(self.ext_g_states@.drop_last() =~= old(self).ext_g_states@);
            },
            Category::Mask => {
                self.masks.push(slot);
                assert(self.masks@.drop_last() =~= old(self).masks@);
            },
            Category::XObject => {
                self.x_objects.push(slot);
                assert(self.x_objects@.drop_last() =~= old(self).x_objects@);
            },
            Category::ShadingFunction => {
                self.shading_functions.push(slot);
                assert(self.shading_functions@.drop_last() =~= old(self).shading_functions@);
            },
            Category::Pattern => {
                self.patterns.push(slot);
                assert(self.patterns@.drop_last() =~= old(self).patterns@);
            },
            Category::Page => {
                self.pages.push(slot);
                assert(self.pages@.drop_last() =~= old(self).pages@);
            },
            Category::EmbeddedFile => {
                self.embedded_files.push(slot);
                assert(self.embedded_files@.drop_last() =~= old(self).embedded_files@);
            },
        }
    }

    /// The fragments in the order of the traversal: the categories in their
    /// fixed order and, within a category, the fragments as they were added.
    /// The pages come first and the fonts after them; the trees that the
    /// catalog points to come last.
    pub open spec fn slots(self) -> Seq<Slot> {
        fallible_slots(self.pages@)
            + plain_slots(self.fonts@)
            + fallible_slots(self.color_spaces@)
            + fallible_slots(self.icc_profiles@)
            + fallible_slots(self.ext_g_states@)
            + fallible_slots(self.masks@)
            + fallible_slots(self.x_objects@)
            + fallible_slots(self.shading_functions@)
            + fallible_slots(self.patterns@)
            + fallible_slots(self.images@)
            + fallible_slots(self.embedded_files@)
            + embedded_slots(self.embedded_pdfs@)
            + single_slots(self.struct_tree_root)
            + plain_slots(self.struct_elements@)
            + plain_slots(self.page_labels@)
            + plain_slots(self.annotations@)
            + plain_slots(self.destinations@)
            + single_slots(self.page_tree)
            + single_slots(self.outline)
            + single_slots(self.page_label_tree)
            + single_slots(self.destination_profiles)
    }

    /// Visits every fragment: the categories in their fixed order and, within
    /// a category, the fragments as they were added. Returns the chunks in
    /// that order, or the failure of the first fragment that failed.
    pub fn visit<'a>(&'a self) -> (result: KrillaResult<Vec<&'a Chunk>>)
        requires
            embedded_prepared(self.embedded_pdfs@),
        ensures
            match collect(self.slots()) {
                Ok(chunks) => result matches Ok(found) && derefs(found@) == chunks,
                Err(e) => result matches Err(f) && f == e,
            },
    {
        let mut out: Vec<&'a Chunk> = Vec::new();
        let mut failure: Option<KrillaError> = None;
        assert(derefs(out@) =~= Seq::empty());
        if failure.is_none() {
            if let Err(e) = visit_fallible(&self.pages, &mut out) {
                failure = Some(e);
            }
        }
        let ghost mut seen: Seq<Slot> = fallible_slots(self.pages@);
        proof {
            if let Ok(first) = collect(seen) {
                assert(Seq::<Chunk>::empty() + first =~= first);
            }
        }
        assert(met(seen, failure, out@));
        if failure.is_none() {
            visit_plain(&self.fonts, &mut out);
        }
        proof {
            lemma_collect_concat(seen, plain_slots(self.fonts@));
            seen = seen + plain_slots(self.fonts@);
        }
        assert(met(seen, failure, out@));
        if failure.is_none() {
            if let Err(e) = visit_fallible(&self.color_spaces, &mut out) {
                failure = Some(e);
            }
        }
        proof {
            lemma_collect_concat(seen, fallible_slots(self.color_spaces@));
            seen = seen + fallible_slots(self.color_spaces@);
        }
        assert(met(seen, failure, out@));
        if failure.is_none() {
            if let Err(e) = visit_fallible(&self.icc_profiles, &mut out) {
                failure = Some(e);
            }
        }
        proof {
            lemma_collect_concat(seen, fallible_slots(self.icc_profiles@));
            seen = seen + fallible_slots(self.icc_profiles@);
        }
        assert(met(seen, failure, out@));
        if failure.is_none() {
            if let Err(e) = visit_fallible(&self.ext_g_states, &mut out) {
                failure = Some(e);
            }
        }
        proof {
            lemma_collect_concat(seen, fallible_slots(self.ext_g_states@));
            seen = seen + fallible_slots(self.ext_g_states@);
        }
        assert(met(seen, failure, out@));
        if failure.is_none() {
            if let Err(e) = visit_fallible(&self.masks, &mut out) {
                failure = Some(e);
            }
        }
        proof {
            lemma_collect_concat(seen, fallible_slots(self.masks@));
            seen = seen + fallible_slots(self.masks@);
        }
        assert(met(seen, failure, out@));
        if failure.is_none() {
            if let Err(e) = visit_fallible(&self.x_objects, &mut out) {
                failure = Some(e);
            }
        }
        proof {
            lemma_collect_concat(seen, fallible_slots(self.x_objects@));
            seen = seen + fallible_slots(self.x_objects@);
        }
        assert(met(seen, failure, out@));
        if failure.is_none() {
            if let Err(e) = visit_fallible(&self.shading_functions, &mut out) {
                failure = Some(e);
            }
        }
        proof {
            lemma_collect_concat(seen, fallible_slots(self.shading_functions@));
            seen = seen + fallible_slots(self.shading_functions@);
        }
        assert(met(seen, failure, out@));
        if failure.is_none() {
            if let Err(e) = visit_fallible(&self.patterns, &mut out) {
                failure = Some(e);
            }
        }
        proof {
            lemma_collect_concat(seen, fallible_slots(self.patterns@));
            seen = seen + fallible_slots(self.patterns@);
        }
        assert(met(seen, failure, out@));
        if failure.is_none() {
            if let Err(e) = visit_fallible(&self.images, &mut out) {
                failure = Some(e);
            }
        }
        proof {
            lemma_collect_concat(seen, fallible_slots(self.images@));
            seen = seen + fallible_slots(self.images@);
        }
        assert(met(seen, failure, out@));
        if failure.is_none() {
            if let Err(e) = visit_fallible(&self.embedded_files, &mut out) {
                failure = Some(e);
            }
        }
        proof {
            lemma_collect_concat(seen, fallible_slots(self.embedded_files@));
            seen = seen + fallible_slots(self.embedded_files@);
        }
        assert(met(seen, failure, out@));
        if failure.is_none() {
            if let Err(e) = visit_embedded(&self.embedded_pdfs, &mut out) {
                failure = Some(e);
            }
        }
        proof {
            lemma_collect_concat(seen, embedded_slots(self.embedded_pdfs@));
            seen = seen + embedded_slots(self.embedded_pdfs@);
        }
        assert(met(seen, failure, out@));
        if failure.is_none() {
            visit_single(&self.struct_tree_root, &mut out);
        }
        proof {
            lemma_collect_concat(seen, single_slots(self.struct_tree_root));
            seen = seen + single_slots(self.struct_tree_root);
        }
        assert(met(seen, failure, out@));
        if failure.is_none() {
            visit_plain(&self.struct_elements, &mut out);
        }
        proof {
            lemma_collect_concat(seen, plain_slots(self.struct_elements@));
            seen = seen + plain_slots(self.struct_elements@);
        }
        assert(met(seen, failure, out@));
        if failure.is_none() {
            visit_plain(&self.page_labels, &mut out);
        }
        proof {
            lemma_collect_concat(seen, plain_slots(self.page_labels@));
            seen = seen + plain_slots(self.page_labels@);
        }
        assert(met(seen, failure, out@));
        if failure.is_none() {
            visit_plain(&self.annotations, &mut out);
        }
        proof {
            lemma_collect_concat(seen, plain_slots(self.annotations@));
            seen = seen + plain_slots(self.annotations@);
        }
        assert(met(seen, failure, out@));
        if failure.is_none() {
            visit_plain(&self.destinations, &mut out);
        }
        proof {
            lemma_collect_concat(seen, plain_slots(self.destinations@));
            seen = seen + plain_slots(self.destinations@);
        }
        assert(met(seen, failure, out@));
        if failure.is_none() {
            visit_single(&self.page_tree, &mut out);
        }
        proof {
            lemma_collect_concat(seen, single_slots(self.page_tree));
            seen = seen + single_slots(self.page_tree);
        }
        assert(met(seen, failure, out@));
        if failure.is_none() {
            visit_single(&self.outline, &mut out);
        }
        proof {
            lemma_collect_concat(seen, single_slots(self.outline));
            seen = seen + single_slots(self.outline);
        }
        assert(met(seen, failure, out@));
        if failure.is_none() {
            visit_single(&self.page_label_tree, &mut out);
        }
        proof {
            lemma_collect_concat(seen, single_slots(self.page_label_tree));
            seen = seen + single_slots(self.page_label_tree);
        }
        assert(met(seen, failure, out@));
        if failure.is_none() {
            visit_single(&self.destination_profiles, &mut out);
        }
        proof {
            lemma_collect_concat(seen, single_slots(self.destination_profiles));
            seen = seen + single_slots(self.destination_profiles);
        }
        assert(met(seen, failure, out@));
        match failure {
            Some(e) => Err(e),
            None => Ok(out),
        }
    }
}

/// What a traversal has come to when it has met the fragments `seen`: the
/// chunks found so far, or the first failure.
pub open spec fn met(seen: Seq<Slot>, failure: Option<KrillaError>, found: Seq<&Chunk>) -> bool {
    match collect(seen) {
        Ok(chunks) => failure is None && derefs(found) == chunks,
        Err(e) => failure == Some(e),
    }
}

/// The header of a document written under the given settings: the version
/// in its first line and, where the output is to be ASCII and the profile
/// does not itself ask for the binary comment, `AAAA` in place of the
/// comment's four bytes.
pub open spec fn header_for(settings: SerializeSettings) -> Seq<u8> {
    let versioned = pdf_header().update(5, (48 + settings.pdf_version.major()) as u8).update(
        7,
        (48 + settings.pdf_version.minor()) as u8,
    );
    if settings.ascii_compatible && !settings.validator.binary_header {
        versioned.subrange(0, 10) + seq![65u8, 65u8, 65u8, 65u8] + versioned.subrange(14, 16)
    } else {
        versioned
    }
}

/// Starts the document: the header, then every object of every chunk of
/// `pieces`. Room is made in advance for a tenth more than `byte_len` bytes
/// and 200 bytes on top, as long as that is a size that memory can have.
pub fn open_pdf(pieces: &Vec<Chunk>, byte_len: usize, settings: SerializeSettings) -> (pdf:
    pdf_writer::Pdf)
    ensures
        pdf_bytes(pdf) == header_for(settings) + bytes_of(pieces@),
        pdf_refs(pdf) == defined(pieces@),
{
    let room: usize = if byte_len > (isize::MAX as usize) / 2 {
        0
    } else {
        byte_len + byte_len / 10 + 200
    };
    let mut pdf = pdf_with_capacity(room);
    let version = settings.pdf_version();
    pdf_set_version(&mut pdf, version.major(), version.minor());
    if settings.ascii_compatible && !settings.validator().requires_binary_header() {
        let marker: [u8; 4] = [65, 65, 65, 65];
        pdf_set_binary_marker(&mut pdf, &marker);
        assert(marker@ =~= seq![65u8, 65u8, 65u8, 65u8]);
    }
    assert(pdf_bytes(pdf) =~= header_for(settings));
    let mut i: usize = 0;
    assert(pieces@.take(0) =~= Seq::empty());
    assert(pdf_bytes(pdf) =~= header_for(settings) + bytes_of(pieces@.take(0)));
    assert(pdf_refs(pdf) =~= defined(pieces@.take(0)));
    while i < pieces.len()
        invariant
            i <= pieces@.len(),
            pdf_bytes(pdf) == header_for(settings) + bytes_of(pieces@.take(i as int)),
            pdf_refs(pdf) == defined(pieces@.take(i as int)),
        decreases pieces@.len() - i,
    {
        assert(pieces@.take(i + 1).drop_last() =~= pieces@.take(i as int));
        assert(pieces@.take(i + 1).last() == pieces@[i as int]);
        pdf_extend(&mut pdf, &pieces[i]);
        assert(pdf_bytes(pdf) =~= header_for(settings) + bytes_of(pieces@.take(i + 1)));
        i += 1;
    }
    assert(pieces@.take(pieces@.len() as int) =~= pieces@);
    pdf
}

/// A text as a field of the bytes that identify a document: its bytes in
/// UTF-8, closed by a byte that no text holds.
pub open spec fn field(text: Seq<char>) -> Seq<u8> {
    vstd::utf8::encode_utf8(text) + seq![0xffu8]
}

/// The fields of a list of texts, in a row.
pub open spec fn fields(texts: Seq<String>) -> Seq<u8>
    decreases texts.len(),
{
    if texts.len() == 0 {
        Seq::empty()
    } else {
        fields(texts.drop_last()) + field(texts.last()@)
    }
}

/// The bytes that identify a document over all its versions, where its
/// metadata gives any: the version of PDF with the identifier chosen for the
/// document or, without one, with its title and its authors.
pub open spec fn identity(version: PdfVersion, metadata: Option<Metadata>) -> Option<Seq<u8>> {
    let name = match version {
        PdfVersion::Pdf14 => "PDF-1.4"@,
        PdfVersion::Pdf15 => "PDF-1.5"@,
        PdfVersion::Pdf16 => "PDF-1.6"@,
        PdfVersion::Pdf17 => "PDF-1.7"@,
        PdfVersion::Pdf20 => "PDF-2.0"@,
    };
    match metadata {
        Some(m) => match m.document_id {
            Some(id) => Some(field(name) + field(id@)),
            None => match (m.title, m.authors) {
                (Some(title), Some(authors)) => Some(
                    field(name) + field(title@) + fields(authors@),
                ),
                _ => None,
            },
        },
        None => None,
    }
}

/// The identifier of a document over all its versions: the hash of the bytes
/// that identify it or, where there are none, the identifier of this version.
pub open spec fn document_id_for(
    version: PdfVersion,
    metadata: Option<Metadata>,
    instance_id: Seq<u8>,
) -> Seq<u8> {
    match identity(version, metadata) {
        Some(seed) => base64(be_bytes(sip_hash_128(seed))),
        None => instance_id,
    }
}

/// Appends a text as a field.
fn push_field(seed: &mut Vec<u8>, text: &str)
    ensures
        final(seed)@ == old(seed)@ + field(text@),
{
    let bytes = text.as_bytes();
    let mut i: usize = 0;
    while i < bytes.len()
        invariant
            i <= bytes@.len(),
            seed@ == old(seed)@ + bytes@.take(i as int),
        decreases bytes@.len() - i,
    {
        seed.push(bytes[i]);
        assert(seed@ =~= old(seed)@ + bytes@.take(i + 1));
        i += 1;
    }
    seed.push(0xff);
    assert(bytes@.take(bytes@.len() as int) =~= bytes@);
    assert(seed@ =~= old(seed)@ + field(text@));
}

/// The identifier of a document over all its versions.
pub fn document_id(version: PdfVersion, metadata: &Option<Metadata>, instance_id: &Vec<u8>) -> (id:
    Vec<u8>)
    ensures
        id@ == document_id_for(version, *metadata, instance_id@),
{
    let mut seed: Vec<u8> = Vec::new();
    let name = version.as_str();
    push_field(&mut seed, name);
    assert(seed@ =~= field(name@));
    let known = match metadata {
        Some(m) => match &m.document_id {
            Some(id) => {
                push_field(&mut seed, id.as_str());
                true
            },
            None => match (&m.title, &m.authors) {
                (Some(title), Some(authors)) => {
                    push_field(&mut seed, title.as_str());
                    let ghost head = seed@;
                    let mut i: usize = 0;
                    assert(authors@.take(0) =~= Seq::empty());
                    assert(head + fields(authors@.take(0)) =~= head);
                    while i < authors.len()
                        invariant
                            i <= authors@.len(),
                            seed@ == head + fields(authors@.take(i as int)),
                        decreases authors@.len() - i,
                    {
                        assert(authors@.take(i + 1).drop_last() =~= authors@.take(i as int));
                        push_field(&mut seed, authors[i].as_str());
                        assert(seed@ =~= head + fields(authors@.take(i + 1)));
                        i += 1;
                    }
                    assert(authors@.take(authors@.len() as int) =~= authors@);
                    true
                },
                _ => false,
            },
        },
        None => false,
    };
    if known {
        hash_base64(seed.as_slice())
    } else {
        instance_id.clone()
    }
}

/// The findings of validation that the assembly of a document makes: that
/// it has no title, and, where it has a catalog, that it declares no language.
pub open spec fn findings(container: ChunkContainer) -> Seq<ValidationError> {
    let title = match container.metadata {
        Some(m) => m.title is None,
        None => true,
    };
    let language = match container.metadata {
        Some(m) => m.language is None,
        None => true,
    };
    (if title {
        seq![ValidationError::NoDocumentTitle]
    } else {
        Seq::empty()
    }) + (if has_structure(container) && language {
        seq![ValidationError::NoDocumentLanguage]
    } else {
        Seq::empty()
    })
}

/// Whether the document information is written.
pub open spec fn writes_info(container: ChunkContainer) -> bool {
    container.metadata matches Some(m) && has_document_info(m)
}

/// The document that the assembly of `chunks` returns: its objects carry the
/// numbers from 1 to `total` in the order in which they are written, and it
/// starts with the header and with the chunks under their new numbers.
pub open spec fn is_document(
    pdf: pdf_writer::Pdf,
    chunks: Seq<Chunk>,
    settings: SerializeSettings,
    total: int,
) -> bool {
    &&& pdf_refs(pdf) == one_to(total)
    &&& (header_for(settings) + body_bytes(chunks, numbering(defined(chunks)))).is_prefix_of(
        pdf_bytes(pdf),
    )
}

/// What the assembly leaves of the context: the findings are added, and the
/// named destinations and the embedded files have been taken out.
pub open spec fn context_after(before: ContextView, container: ChunkContainer) -> ContextView {
    ContextView {
        errors: before.errors + findings(container),
        destinations: Seq::empty(),
        files: Seq::empty(),
        ..before
    }
}

/// The number of a version, as the metadata stream declares it.
pub open spec fn version_number(version: PdfVersion) -> Seq<char> {
    match version {
        PdfVersion::Pdf14 => "1.4"@,
        PdfVersion::Pdf15 => "1.5"@,
        PdfVersion::Pdf16 => "1.6"@,
        PdfVersion::Pdf17 => "1.7"@,
        PdfVersion::Pdf20 => "2.0"@,
    }
}

/// The number of pages that the metadata stream declares.
pub open spec fn declared_pages(container: ChunkContainer) -> u32 {
    if container.pages@.len() > u32::MAX {
        u32::MAX
    } else {
        container.pages@.len() as u32
    }
}

/// The packet of the metadata stream of a document, where its instance
/// and the identifier of the document over all its versions are given.
pub open spec fn packet_of(
    container: ChunkContainer,
    settings: SerializeSettings,
    instance: Seq<u8>,
    document: Seq<u8>,
) -> Seq<u8> {
    xmp_packet(
        document_properties(
            declared_pages(container),
            instance,
            document,
            version_number(settings.pdf_version),
            settings.validator.pdfa_part,
        ),
    )
}

/// The packet of the metadata stream of a document of which `written` is
/// what stands when its identifiers are made: the instance is the hash of
/// what stands.
pub open spec fn packet_for(
    container: ChunkContainer,
    settings: SerializeSettings,
    written: Seq<u8>,
) -> Seq<u8> {
    let instance = base64(be_bytes(sip_hash_128(written)));
    packet_of(
        container,
        settings,
        instance,
        document_id_for(settings.pdf_version, container.metadata, instance),
    )
}

/// What the assembly comes to once the chunks are numbered and every
/// reference of the catalog is known. `written` is what stands of the
/// document when its identifiers are made: the header, the chunks and the
/// document information. `plan` is what the catalog declares, by the rules
/// of [`plan_catalog`]. The assembly fails if and only if the document is
/// to carry a metadata stream and the packet is longer than a stream can
/// hold; else the document is made.
pub open spec fn rooted(
    container: ChunkContainer,
    before: ContextView,
    chunks: Seq<Chunk>,
    written: Seq<u8>,
    plan: CatalogPlan,
    result: KrillaResult<pdf_writer::Pdf>,
    after: ContextView,
) -> bool {
    let settings = before.settings;
    let count = defined(chunks).len() as int;
    let map = numbering(defined(chunks));
    let info: int = if writes_info(container) {
        1
    } else {
        0
    };
    let needs = catalog_needs(settings.xmp_metadata, is_signed(container, before.signer is Some));
    let long = settings.xmp_metadata && packet_for(container, settings, written).len() > i32::MAX;
    &&& (header_for(settings) + body_bytes(chunks, map)).is_prefix_of(written)
    &&& plan_follows(
        plan,
        container,
        map,
        settings,
        before.signer is Some,
        sorted_by_target(before.destinations),
        before.files,
        count + info + 1,
    )
    &&& match result {
        Ok(pdf) => {
            &&& !long
            &&& is_document(pdf, chunks, settings, count + info + needs)
            &&& written.is_prefix_of(pdf_bytes(pdf))
            &&& after == context_after(before, container)
        },
        Err(e) => long && e == KrillaError::StreamTooLong,
    }
}

/// What the assembly of a prepared container comes to.
pub open spec fn assembled(
    container: ChunkContainer,
    before: ContextView,
    result: KrillaResult<pdf_writer::Pdf>,
    after: ContextView,
) -> bool {
    match collect(container.slots()) {
        Err(e) => result matches Err(f) && f == e,
        Ok(chunks) => match renumber_fault(chunks) {
            Some(e) => result matches Err(f) && f == e,
            None => {
                let count = defined(chunks).len() as int;
                let map = numbering(defined(chunks));
                let info: int = if writes_info(container) {
                    1
                } else {
                    0
                };
                let settings = before.settings;
                let needs = catalog_needs(
                    settings.xmp_metadata,
                    is_signed(container, before.signer is Some),
                );
                let lookups = catalog_lookups(
                    container,
                    sorted_by_target(before.destinations),
                    if uses_files(settings, before.files) {
                        before.files
                    } else {
                        Seq::empty()
                    },
                );
                if count + info >= MAX_REF {
                    result matches Err(e) && e == KrillaError::OutOfReferences
                } else if !has_structure(container) {
                    &&& result matches Ok(pdf)
                    &&& is_document(pdf, chunks, settings, count + info)
                    &&& after == context_after(before, container)
                } else if count + info + needs >= MAX_REF {
                    result matches Err(e) && e == KrillaError::OutOfReferences
                } else {
                    match first_unmapped(lookups, map) {
                        Some(r) => result matches Err(e) && e == KrillaError::UnknownReference(r),
                        None => exists|written: Seq<u8>, plan: CatalogPlan| #[trigger]
                            rooted(container, before, chunks, written, plan, result, after),
                    }
                }
            },
        },
    }
}

/// A document that the assembly returns has its objects numbered from 1
/// without a gap, and starts with the header.
pub proof fn lemma_assembled_document(
    container: ChunkContainer,
    before: ContextView,
    pdf: pdf_writer::Pdf,
    after: ContextView,
)
    requires
        assembled(container, before, Ok(pdf), after),
    ensures
        pdf_refs(pdf) == one_to(pdf_refs(pdf).len() as int),
        pdf_refs(pdf).len() < MAX_REF,
        header_for(before.settings).is_prefix_of(pdf_bytes(pdf)),
        after == context_after(before, container),
{
    let chunks = collect(container.slots())->Ok_0;
    let head = header_for(before.settings);
    let body = body_bytes(chunks, numbering(defined(chunks)));
    assert(head.is_prefix_of(head + body)) by {
        assert((head + body).subrange(0, head.len() as int) =~= head);
    }
    assert((head + body).is_prefix_of(pdf_bytes(pdf)) && after == context_after(before, container)
        && pdf_refs(pdf) == one_to(pdf_refs(pdf).len() as int) && pdf_refs(pdf).len() < MAX_REF);
    lemma_prefix_chain(head, head + body, pdf_bytes(pdf));
}

/// The numbers from 1 to `n` are each of them once: the objects of a
/// finished document carry exactly these numbers, and no number twice.
pub proof fn lemma_numbered_once(n: int)
    requires
        0 <= n < MAX_REF,
    ensures
        one_to(n).no_duplicates(),
        forall|r: i32| one_to(n).contains(r) <==> 1 <= r <= n,
{
    assert forall|r: i32| one_to(n).contains(r) <==> 1 <= r <= n by {
        if 1 <= r <= n {
            assert(one_to(n)[r - 1] == r);
        }
    }
}

/// Assembling the same fragments under the same settings twice comes to
/// the same: a fault that the fragments or the references cause is met both
/// times; and where both documents are made, they number their objects
/// alike, start with the same header and the same renumbered chunks, and
/// leave the same findings. What the objects behind the chunks hold is
/// written by the writers of `pdf_writer` and is not stated here.
pub proof fn lemma_assembly_repeats(
    container: ChunkContainer,
    before: ContextView,
    first: KrillaResult<pdf_writer::Pdf>,
    first_after: ContextView,
    second: KrillaResult<pdf_writer::Pdf>,
    second_after: ContextView,
)
    requires
        assembled(container, before, first, first_after),
        assembled(container, before, second, second_after),
    ensures
        first matches Err(e) ==> e == KrillaError::StreamTooLong || (second matches Err(f) && f
            == e),
        (first matches Ok(p) && second matches Ok(q)) ==> {
            let chunks = collect(container.slots())->Ok_0;
            let start = header_for(before.settings) + body_bytes(
                chunks,
                numbering(defined(chunks)),
            );
            &&& pdf_refs(first->Ok_0) == pdf_refs(second->Ok_0)
            &&& start.is_prefix_of(pdf_bytes(first->Ok_0))
            &&& start.is_prefix_of(pdf_bytes(second->Ok_0))
            &&& first_after == second_after
        },
{
}

/// `one_to(n)` with the next number added is `one_to(n + 1)`.
pub proof fn lemma_one_to_push(n: int)
    requires
        0 <= n < MAX_REF,
    ensures
        one_to(n).push((n + 1) as i32) == one_to(n + 1),
{
    assert(one_to(n).push((n + 1) as i32) =~= one_to(n + 1));
}

impl ChunkContainer {
    /// Visits every fragment and brings the chunks under one numbering.
    pub fn gather(&self) -> (result: KrillaResult<Renumbered>)
        requires
            embedded_prepared(self.embedded_pdfs@),
        ensures
            match collect(self.slots()) {
                Err(e) => result matches Err(f) && f == e,
                Ok(chunks) => match renumber_fault(chunks) {
                    Some(e) => result matches Err(f) && f == e,
                    None => {
                        let refs = defined(chunks);
                        &&& result matches Ok(done)
                        &&& refs.no_duplicates()
                        &&& done.table@ == (TableView {
                            map: numbering(refs),
                            fresh: None,
                            fault: None,
                        })
                        &&& done.table@.wf()
                        &&& done.next@ == refs.len() + 1
                        &&& defined(done.pieces@) == one_to(refs.len() as int)
                        &&& bytes_of(done.pieces@) == body_bytes(chunks, numbering(refs))
                    },
                },
            },
    {
        let chunks = match self.visit() {
            Ok(chunks) => chunks,
            Err(e) => {
                return Err(e);
            },
        };
        renumber(&chunks)
    }

    /// Writes what follows the chunks: the metadata stream, the catalog and
    /// the objects of a signature, as `plan` describes them.
    fn write_root(
        &self,
        pdf: &mut pdf_writer::Pdf,
        plan: &CatalogPlan,
        sc: &SerializerContext,
        instance_id: &Vec<u8>,
        document_id: &Vec<u8>,
    ) -> (result: KrillaResult<()>)
        requires
            crate::xmp::is_ascii(instance_id@),
            crate::xmp::is_ascii(document_id@),
            plan.signature is Some ==> plan.pages is Some && sc@.signer is Some && (
            self.metadata matches Some(m) && m.creation_date is Some),
            plan.signature matches Some(s) ==> s.widget@ == plan.catalog@ + 1 && s.signature@
                == plan.catalog@ + 2,
            plan.metadata matches Some(r) ==> r@ + 1 == plan.catalog@,
            plan.signature is Some ==> plan.catalog@ + 2 <= MAX_REF,
        ensures
            pdf_bytes(*old(pdf)).is_prefix_of(pdf_bytes(*final(pdf))),
            match result {
                Ok(_) => pdf_refs(*final(pdf)) == pdf_refs(*old(pdf)) + (if plan.metadata is Some {
                    seq![(plan.catalog@ - 1) as i32]
                } else {
                    Seq::<i32>::empty()
                }) + seq![plan.catalog@] + (if plan.signature is Some {
                    seq![(plan.catalog@ + 1) as i32, (plan.catalog@ + 2) as i32]
                } else {
                    Seq::<i32>::empty()
                }),
                Err(e) => e == KrillaError::StreamTooLong,
            },
            result is Err <==> plan.metadata is Some && packet_of(
                *self,
                sc@.settings,
                instance_id@,
                document_id@,
            ).len() > i32::MAX,
    {
        let ghost start = pdf_bytes(*pdf);
        let ghost refs = pdf_refs(*pdf);
        if let Some(id) = plan.metadata {
            let settings = sc.serialize_settings();
            let pages: u32 = if self.pages.len() > u32::MAX as usize {
                u32::MAX
            } else {
                self.pages.len() as u32
            };
            let packet = document_packet(
                pages,
                instance_id.as_slice(),
                document_id.as_slice(),
                settings.pdf_version().number(),
                settings.validator().pdfa_part,
            );
            if packet.len() > i32::MAX as usize {
                return Err(KrillaError::StreamTooLong);
            }
            write_metadata(pdf, id, &packet);
        }
        let ghost middle = pdf_bytes(*pdf);
        write_catalog(pdf, plan);
        proof {
            lemma_prefix_chain(start, middle, pdf_bytes(*pdf));
        }
        let ghost late = pdf_bytes(*pdf);
        if let Some(signature) = plan.signature {
            match (plan.pages, sc.signer(), &self.metadata) {
                (Some(pages), Some(signer), Some(metadata)) => {
                    match metadata.creation_date {
                        Some(date) => {
                            write_signature(pdf, signature, plan.catalog, pages, signer, date);
                        },
                        None => {
                            assert(false);
                        },
                    }
                },
                _ => {
                    assert(false);
                },
            }
        }
        proof {
            lemma_prefix_chain(start, late, pdf_bytes(*pdf));
        }
        assert(pdf_refs(*pdf) =~= refs + (if plan.metadata is Some {
            seq![(plan.catalog@ - 1) as i32]
        } else {
            Seq::<i32>::empty()
        }) + seq![plan.catalog@] + (if plan.signature is Some {
            seq![(plan.catalog@ + 1) as i32, (plan.catalog@ + 2) as i32]
        } else {
            Seq::<i32>::empty()
        }));
        Ok(())
    }
}

impl ChunkContainer {
    /// Assembles the document from a container whose embedded documents
    /// have been brought to the references of the host: numbers every object
    /// from 1 in the order of the traversal, writes the header and the
    /// chunks, then the document information, the metadata stream, the
    /// catalog and the objects of a signature, as far as the document has
    /// them. See [`assembled`] for the outcome.
    #[verifier::rlimit(60)]
    pub fn assemble(&self, sc: &mut SerializerContext) -> (result: KrillaResult<pdf_writer::Pdf>)
        requires
            embedded_prepared(self.embedded_pdfs@),
        ensures
            assembled(*self, old(sc)@, result, final(sc)@),
            final(sc)@.next == old(sc)@.next,
            final(sc)@.cache == old(sc)@.cache,
            final(sc)@.container == old(sc)@.container,
            old(sc)@.wf() ==> final(sc)@.wf(),
    {
        let ghost before = sc@;
        let done = match self.gather() {
            Ok(done) => done,
            Err(e) => {
                return Err(e);
            },
        };
        let ghost chunks = collect(self.slots())->Ok_0;
        let ghost count = defined(chunks).len() as int;
        let settings = sc.serialize_settings();
        let mut next = done.next;
        let info = match &self.metadata {
            Some(m) => m.title.is_some() || m.authors.is_some() || m.creation_date.is_some(),
            None => false,
        };
        if info && next.get() >= MAX_REF {
            return Err(KrillaError::OutOfReferences);
        }
        let mut pdf = open_pdf(&done.pieces, done.byte_len, settings);
        let ghost start = pdf_bytes(pdf);
        let no_title = match &self.metadata {
            Some(m) => m.title.is_none(),
            None => true,
        };
        if no_title {
            sc.register_validation_error(ValidationError::NoDocumentTitle);
        }
        if info {
            match &self.metadata {
                Some(m) => {
                    let id = next.bump();
                    write_document_info(&mut pdf, id, m);
                    proof {
                        lemma_one_to_push(count);
                    }
                },
                None => {},
            }
        }
        let ghost based = pdf_bytes(pdf);
        let bytes = pdf_to_bytes(&pdf);
        let instance_id = hash_base64(bytes.as_slice());
        let document = document_id(settings.pdf_version(), &self.metadata, &instance_id);
        proof {
            lemma_base64_ascii(be_bytes(sip_hash_128(bytes@)));
            match identity(settings.pdf_version, self.metadata) {
                Some(seed) => {
                    lemma_base64_ascii(be_bytes(sip_hash_128(seed)));
                },
                None => {},
            }
        }
        pdf_set_file_id(&mut pdf, document.clone(), instance_id.clone());
        let named = sc.take_named_destinations();
        let destinations = sort_by_target(&named);
        let files = sc.take_embedded_files();
        let signer = sc.signer().is_some();
        let plan = match plan_catalog(
            self,
            &done.table,
            &settings,
            signer,
            &destinations,
            &files,
            &mut next,
        ) {
            Ok(plan) => plan,
            Err(e) => {
                return Err(e);
            },
        };
        if let Some(plan) = plan {
            let no_language = match &self.metadata {
                Some(m) => m.language.is_none(),
                None => true,
            };
            if no_language {
                sc.register_validation_error(ValidationError::NoDocumentLanguage);
            }
            let ghost refs = pdf_refs(pdf);
            assert(packet_of(*self, sc@.settings, instance_id@, document@) == packet_for(
                *self,
                before.settings,
                based,
            ));
            assert(start.is_prefix_of(based));
            match self.write_root(&mut pdf, &plan, sc, &instance_id, &document) {
                Ok(_) => {},
                Err(e) => {
                    assert(rooted(*self, before, chunks, based, plan, Err(e), sc@));
                    return Err(e);
                },
            }
            proof {
                lemma_prefix_chain(start, based, pdf_bytes(pdf));
                let first = refs.len() as int;
                let total = next@ - 1;
                assert(pdf_refs(pdf) =~= one_to(total));
                assert(sc@.errors =~= before.errors + findings(*self));
                assert(sc@ =~= context_after(before, *self));
                assert(rooted(*self, before, chunks, based, plan, Ok(pdf), sc@));
            }
        } else {
            proof {
                lemma_prefix_chain(start, based, pdf_bytes(pdf));
            }
        }
        assert(sc@.errors =~= before.errors + findings(*self));
        assert(sc@ =~= context_after(before, *self));
        Ok(pdf)
    }

    /// The fragments that the traversal meets before the embedded
    /// documents.
    pub open spec fn early_slots(self) -> Seq<Slot> {
        fallible_slots(self.pages@)
            + plain_slots(self.fonts@)
            + fallible_slots(self.color_spaces@)
            + fallible_slots(self.icc_profiles@)
            + fallible_slots(self.ext_g_states@)
            + fallible_slots(self.masks@)
            + fallible_slots(self.x_objects@)
            + fallible_slots(self.shading_functions@)
            + fallible_slots(self.patterns@)
            + fallible_slots(self.images@)
            + fallible_slots(self.embedded_files@)
    }

    /// Looks for the first failure among the fragments that the traversal
    /// meets before the embedded documents.
    pub fn check_early(&self) -> (result: KrillaResult<()>)
        ensures
            match collect(self.early_slots()) {
                Ok(_) => result is Ok,
                Err(e) => result == Err::<(), KrillaError>(e),
            },
    {
        let mut out: Vec<&Chunk> = Vec::new();
        let mut failure: Option<KrillaError> = None;
        assert(derefs(out@) =~= Seq::empty());
        if failure.is_none() {
            if let Err(e) = visit_fallible(&self.pages, &mut out) {
                failure = Some(e);
            }
        }
        let ghost mut seen: Seq<Slot> = fallible_slots(self.pages@);
        proof {
            if let Ok(first) = collect(seen) {
                assert(Seq::<Chunk>::empty() + first =~= first);
            }
        }
        assert(met(seen, failure, out@));
        if failure.is_none() {
            visit_plain(&self.fonts, &mut out);
        }
        proof {
            lemma_collect_concat(seen, plain_slots(self.fonts@));
            seen = seen + plain_slots(self.fonts@);
        }
        assert(met(seen, failure, out@));
        if failure.is_none() {
            if let Err(e) = visit_fallible(&self.color_spaces, &mut out) {
                failure = Some(e);
            }
        }
        proof {
            lemma_collect_concat(seen, fallible_slots(self.color_spaces@));
            seen = seen + fallible_slots(self.color_spaces@);
        }
        assert(met(seen, failure, out@));
        if failure.is_none() {
            if let Err(e) = visit_fallible(&self.icc_profiles, &mut out) {
                failure = Some(e);
            }
        }
        proof {
            lemma_collect_concat(seen, fallible_slots(self.icc_profiles@));
            seen = seen + fallible_slots(self.icc_profiles@);
        }
        assert(met(seen, failure, out@));
        if failure.is_none() {
            if let Err(e) = visit_fallible(&self.ext_g_states, &mut out) {
                failure = Some(e);
            }
        }
        proof {
            lemma_collect_concat(seen, fallible_slots(self.ext_g_states@));
            seen = seen + fallible_slots(self.ext_g_states@);
        }
        assert(met(seen, failure, out@));
        if failure.is_none() {
            if let Err(e) = visit_fallible(&self.masks, &mut out) {
                failure = Some(e);
            }
        }
        proof {
            lemma_collect_concat(seen, fallible_slots(self.masks@));
            seen = seen + fallible_slots(self.masks@);
        }
        assert(met(seen, failure, out@));
        if failure.is_none() {
            if let Err(e) = visit_fallible(&self.x_objects, &mut out) {
                failure = Some(e);
            }
        }
        proof {
            lemma_collect_concat(seen, fallible_slots(self.x_objects@));
            seen = seen + fallible_slots(self.x_objects@);
        }
        assert(met(seen, failure, out@));
        if failure.is_none() {
            if let Err(e) = visit_fallible(&self.shading_functions, &mut out) {
                failure = Some(e);
            }
        }
        proof {
            lemma_collect_concat(seen, fallible_slots(self.shading_functions@));
            seen = seen + fallible_slots(self.shading_functions@);
        }
        assert(met(seen, failure, out@));
        if failure.is_none() {
            if let Err(e) = visit_fallible(&self.patterns, &mut out) {
                failure = Some(e);
            }
        }
        proof {
            lemma_collect_concat(seen, fallible_slots(self.patterns@));
            seen = seen + fallible_slots(self.patterns@);
        }
        assert(met(seen, failure, out@));
        if failure.is_none() {
            if let Err(e) = visit_fallible(&self.images, &mut out) {
                failure = Some(e);
            }
        }
        proof {
            lemma_collect_concat(seen, fallible_slots(self.images@));
            seen = seen + fallible_slots(self.images@);
        }
        assert(met(seen, failure, out@));
        if failure.is_none() {
            if let Err(e) = visit_fallible(&self.embedded_files, &mut out) {
                failure = Some(e);
            }
        }
        proof {
            lemma_collect_concat(seen, fallible_slots(self.embedded_files@));
            seen = seen + fallible_slots(self.embedded_files@);
        }
        assert(met(seen, failure, out@));
        match failure {
            Some(e) => Err(e),
            None => Ok(()),
        }
    }

    /// Assembles the document. Before the two passes, every embedded
    /// document is brought to the references of the host, which takes
    /// references from the context; then the container is assembled as
    /// [`ChunkContainer::assemble`] does. The first failure in the order of
    /// the traversal is the one returned: a fragment that failed before
    /// the embedded documents comes before any failure of an import, and
    /// among the embedded documents the first that failed to be made or
    /// to be imported.
    pub fn finish(self, sc: &mut SerializerContext) -> (result: KrillaResult<pdf_writer::Pdf>)
        requires
            self.wf(),
            old(sc)@.wf(),
        ensures
            final(sc)@.wf(),
            final(sc)@.next >= old(sc)@.next,
            final(sc)@.cache == old(sc)@.cache,
            final(sc)@.container == old(sc)@.container,
            finished(self, old(sc)@, result, final(sc)@),
    {
        let mut this = self;
        if let Err(e) = this.check_early() {
            return Err(e);
        }
        let mut next = sc.peek_ref();
        let mut k: usize = 0;
        while k < this.embedded_pdfs.len()
            invariant
                this == self,
                self.wf(),
                *sc == *old(sc),
                sc@.wf(),
                next@ == old(sc)@.next,
                collect(self.early_slots()) is Ok,
                k <= this.embedded_pdfs@.len(),
                forall|j: int| 0 <= j < k ==> (#[trigger] this.embedded_pdfs@[j])@ is Ok,
            decreases this.embedded_pdfs@.len() - k,
        {
            if let Err(e) = this.embedded_pdfs[k].wait() {
                let failure = e.duplicate();
                this.embedded_pdfs.truncate(k);
                assert(this.embedded_pdfs@ =~= self.embedded_pdfs@.take(k as int));
                assert forall|j: int| 0 <= j < this.embedded_pdfs@.len() implies (
                #[trigger] this.embedded_pdfs@[j]@ matches Ok(e) ==> e.wf()) by {
                    assert(this.embedded_pdfs@[j] == self.embedded_pdfs@[j]);
                }
                assert(stops_at(self.embedded_pdfs@, k as int));
                return match import_all(&mut this.embedded_pdfs, &mut next) {
                    Ok(_) => Err(failure),
                    Err(e) => Err(e),
                };
            }
            k += 1;
        }
        assert(stops_at(self.embedded_pdfs@, k as int));
        assert(self.embedded_pdfs@.take(k as int) =~= self.embedded_pdfs@);
        match import_all(&mut this.embedded_pdfs, &mut next) {
            Ok(_) => {},
            Err(e) => {
                return Err(e);
            },
        }
        sc.skip_to(next);
        let result = this.assemble(sc);
        assert(prepared_from(self, this, old(sc)@.next));
        result
    }
}

/// The embedded documents before the place `k` were made, and the one at
/// that place, if there is one, failed to be made: the traversal gets as
/// far as this place.
pub open spec fn stops_at(list: Seq<Deferred<KrillaResult<EmbeddedPdfChunk>>>, k: int) -> bool {
    &&& 0 <= k <= list.len()
    &&& forall|j: int| 0 <= j < k ==> (#[trigger] list[j])@ is Ok
    &&& k < list.len() ==> list[k]@ is Err
}

/// What finishing a container comes to. A fragment that failed before the
/// embedded documents is the failure; else the references for the embedded
/// documents that the traversal gets to run out; else an embedded document
/// failed to be made; else the container with its embedded documents
/// brought to the references of the host is assembled.
pub open spec fn finished(
    container: ChunkContainer,
    before: ContextView,
    result: KrillaResult<pdf_writer::Pdf>,
    after: ContextView,
) -> bool {
    match collect(container.early_slots()) {
        Err(e) => result matches Err(f) && f == e && after == before,
        Ok(_) => exists|k: int| #[trigger]
            stops_at(container.embedded_pdfs@, k) && match import_next(
                container.embedded_pdfs@.take(k),
                before.next,
            ) {
                None => result matches Err(e) && e == KrillaError::OutOfReferences && after
                    == before,
                Some(next) => if k < container.embedded_pdfs@.len() {
                    result matches Err(e) && container.embedded_pdfs@[k]@ == Err::<
                        EmbeddedPdfChunk,
                        KrillaError,
                    >(e) && after == before
                } else {
                    exists|prepared: ChunkContainer|
                        {
                            &&& #[trigger] prepared_from(container, prepared, before.next)
                            &&& after.next == next
                            &&& assembled(prepared, ContextView { next, ..before }, result, after)
                        }
                },
            },
    }
}

/// A document that finishing a container returns has its objects numbered
/// from 1 without a gap, and starts with the header.
pub proof fn lemma_finished_document(
    container: ChunkContainer,
    before: ContextView,
    pdf: pdf_writer::Pdf,
    after: ContextView,
)
    requires
        finished(container, before, Ok(pdf), after),
    ensures
        pdf_refs(pdf) == one_to(pdf_refs(pdf).len() as int),
        pdf_refs(pdf).len() < MAX_REF,
        header_for(before.settings).is_prefix_of(pdf_bytes(pdf)),
{
    let result: KrillaResult<pdf_writer::Pdf> = Ok(pdf);
    let k = choose|k: int| #[trigger]
        stops_at(container.embedded_pdfs@, k) && match import_next(
            container.embedded_pdfs@.take(k),
            before.next,
        ) {
            None => result matches Err(e) && e == KrillaError::OutOfReferences && after == before,
            Some(next) => if k < container.embedded_pdfs@.len() {
                result matches Err(e) && container.embedded_pdfs@[k]@ == Err::<
                    EmbeddedPdfChunk,
                    KrillaError,
                >(e) && after == before
            } else {
                exists|prepared: ChunkContainer|
                    {
                        &&& #[trigger] prepared_from(container, prepared, before.next)
                        &&& after.next == next
                        &&& assembled(prepared, ContextView { next, ..before }, result, after)
                    }
            },
        };
    let next = import_next(container.embedded_pdfs@.take(k), before.next)->0;
    let prepared = choose|prepared: ChunkContainer|
        {
            &&& #[trigger] prepared_from(container, prepared, before.next)
            &&& after.next == next
            &&& assembled(prepared, ContextView { next, ..before }, result, after)
        };
    lemma_assembled_document(prepared, ContextView { next, ..before }, pdf, after);
}

/// `after` is `before` with every embedded document brought to the
/// references of the host, the counter starting at `next`.
pub open spec fn prepared_from(before: ChunkContainer, after: ChunkContainer, next: int) -> bool {
    &&& after == (ChunkContainer { embedded_pdfs: after.embedded_pdfs, ..before })
    &&& after.embedded_pdfs@.len() == before.embedded_pdfs@.len()
    &&& embedded_prepared(after.embedded_pdfs@)
    &&& forall|i: int|
        0 <= i < before.embedded_pdfs@.len() ==> imported(
            before.embedded_pdfs@[i]@,
            #[trigger] after.embedded_pdfs@[i]@,
            import_next(before.embedded_pdfs@.take(i), next)->0,
        )
}

} // verus!
