//! The boundary to the `pdf_writer` crate, which holds the fragments and
//! writes the objects of a document.
//!
//! A `pdf_writer::Chunk` is a buffer of indirect objects. Nothing here looks
//! inside one: the contracts speak of the bytes it holds and of the references
//! of its top-level objects, and every function below states what the crate's
//! source shows of the call it makes.
use vstd::prelude::*;
use crate::reference::MAX_REF;
use crate::remap::RefTable;

verus! {

/// `pdf_writer::Chunk`: a buffer of finished indirect objects.
#[verifier::external_type_specification]
#[verifier::external_body]
pub struct ExChunk(pdf_writer::Chunk);

/// `pdf_writer::Pdf`: a document in the making, with its header, its
/// objects and what its trailer will name.
#[verifier::external_type_specification]
#[verifier::external_body]
pub struct ExPdf(pdf_writer::Pdf);

/// `pdf_writer::Dict`: the writer of a dictionary. It borrows the buffer it
/// writes into, and closes the dictionary when it is let go.
#[verifier::external_type_specification]
#[verifier::external_body]
pub struct ExDict<'a>(pdf_writer::Dict<'a>);

/// `pdf_writer::Array`: the writer of an array.
#[verifier::external_type_specification]
#[verifier::external_body]
pub struct ExArray<'a>(pdf_writer::Array<'a>);

/// `pdf_writer::Stream`: the writer of a stream object. It writes the data
/// behind the dictionary when it is let go.
#[verifier::external_type_specification]
#[verifier::external_body]
pub struct ExStream<'a>(pdf_writer::Stream<'a>);

/// `pdf_writer::writers::Catalog`: the writer of the catalog, a dictionary
/// that starts with its type.
#[verifier::external_type_specification]
#[verifier::external_body]
pub struct ExCatalog<'a>(pdf_writer::writers::Catalog<'a>);

/// `pdf_writer::writers::DocumentInfo`: the writer of the document
/// information, a dictionary.
#[verifier::external_type_specification]
#[verifier::external_body]
pub struct ExDocumentInfo<'a>(pdf_writer::writers::DocumentInfo<'a>);

/// The bytes written into a chunk so far.
pub uninterp spec fn chunk_bytes(chunk: pdf_writer::Chunk) -> Seq<u8>;

/// The references of the top-level objects of a chunk, in the order in which
/// they were written.
pub uninterp spec fn chunk_refs(chunk: pdf_writer::Chunk) -> Seq<i32>;

/// The references that `Chunk::renumber` asks its mapping for, in the order
/// of the calls: that of each top-level object, followed by those that the
/// object refers to.
pub uninterp spec fn renumber_asks(chunk: pdf_writer::Chunk) -> Seq<i32>;

/// The bytes of the chunk that `Chunk::renumber` returns when the mapping
/// answers `mapping[r]` for every reference `r` it is asked for.
pub uninterp spec fn renumbered_bytes(chunk: pdf_writer::Chunk, mapping: Map<i32, i32>) -> Seq<u8>;

/// The references of the objects of the chunk that `Chunk::renumber` returns
/// when the mapping answers `mapping[r]` for every reference `r` it is asked
/// for.
pub uninterp spec fn renumbered_refs(chunk: pdf_writer::Chunk, mapping: Map<i32, i32>) -> Seq<i32>;

/// The bytes written into a document so far, its header included.
pub uninterp spec fn pdf_bytes(pdf: pdf_writer::Pdf) -> Seq<u8>;

/// The references of the objects written into a document so far, in order.
pub uninterp spec fn pdf_refs(pdf: pdf_writer::Pdf) -> Seq<i32>;

/// The file that `Pdf::finish` makes of a document: what was written, then the
/// cross-reference table and the trailer.
pub uninterp spec fn pdf_file(pdf: pdf_writer::Pdf) -> Seq<u8>;

/// The value of an entry of a dictionary, as it is handed to the writer of
/// the dictionary.
pub enum Entry {
    /// A reference to an object.
    Ref(i32),
    /// A name.
    Name(Seq<char>),
    /// A whole number.
    Int(i32),
    /// A truth value.
    Bool(bool),
    /// A text string.
    Text(Seq<char>),
    /// A byte string.
    Str(Seq<u8>),
    /// A number from 0 to 1, by its bit pattern.
    Alpha(u32),
    /// A rectangle, by the bit patterns of its edges.
    Rect(Seq<u32>),
    /// An array of names.
    Names(Seq<Seq<char>>),
    /// A dictionary that is written entry by entry; its entries are not
    /// recorded here.
    Dict,
    /// An array that is written item by item; its items are not recorded
    /// here.
    Array,
}

/// The entries that the writer of a dictionary has been given since it was
/// started, each with its key, in the order in which they were given.
pub uninterp spec fn dict_entries(dict: pdf_writer::Dict<'_>) -> Seq<(Seq<char>, Entry)>;

/// The items that the writer of an array has been given since it was
/// started, in the order in which they were given.
pub uninterp spec fn array_items(array: pdf_writer::Array<'_>) -> Seq<Entry>;

/// What is given after what is given after a start is what is given after
/// the start when the two are joined.
pub proof fn lemma_given_after<T>(start: Seq<T>, given: Seq<T>, more: Seq<T>)
    ensures
        (start + given) + more == start + (given + more),
{
    assert((start + given) + more =~= start + (given + more));
}

/// The header that a new document starts with: the version line for PDF 1.7
/// and a comment of four bytes above 127.
pub open spec fn pdf_header() -> Seq<u8> {
    seq![
        0x25u8, 0x50, 0x44, 0x46, 0x2d, 0x31, 0x2e, 0x37, 0x0a,
        0x25, 0x80, 0x80, 0x80, 0x80, 0x0a, 0x0a,
    ]
}

/// Calls `Chunk::new`: an empty chunk.
#[verifier::external_body]
pub(crate) fn chunk_new() -> (chunk: pdf_writer::Chunk)
    ensures
        chunk_bytes(chunk) == Seq::<u8>::empty(),
        chunk_refs(chunk) == Seq::<i32>::empty(),
{
    pdf_writer::Chunk::new()
}

/// Calls `Chunk::len`: the number of bytes written so far.
#[verifier::external_body]
pub(crate) fn chunk_len(chunk: &pdf_writer::Chunk) -> (len: usize)
    ensures
        len == chunk_bytes(*chunk).len(),
{
    chunk.len()
}

/// Calls `Chunk::refs` and collects the numbers of the references: those of
/// the top-level objects, in order. A `pdf_writer::Ref` is never below 1.
#[verifier::external_body]
pub(crate) fn chunk_defined(chunk: &pdf_writer::Chunk) -> (refs: Vec<i32>)
    ensures
        refs@ == chunk_refs(*chunk),
        forall|i: int| 0 <= i < refs@.len() ==> #[trigger] refs@[i] >= 1,
{
    chunk.refs().map(|r| r.get()).collect()
}

/// Calls `Chunk::renumber` with `table` as the mapping: each reference that
/// the call asks for is looked up by [`RefTable::resolve`], in the order of
/// `renumber_asks`. Where no lookup recorded a fault, every answer is the
/// table's final entry for the reference asked, and the chunk returned holds
/// the objects of the chunk under their new numbers.
#[verifier::external_body]
pub(crate) fn chunk_renumber(chunk: &pdf_writer::Chunk, table: &mut RefTable) -> (out:
    pdf_writer::Chunk)
    requires
        old(table)@.wf(),
    ensures
        final(table)@ == old(table)@.run(renumber_asks(*chunk)),
        final(table)@.fault is None ==> chunk_bytes(out) == renumbered_bytes(
            *chunk,
            final(table)@.map,
        ),
        final(table)@.fault is None ==> chunk_refs(out) == renumbered_refs(*chunk, final(table)@.map),
{
    chunk.renumber(|r| pdf_writer::Ref::new(table.resolve(r.get())))
}

/// Calls `Pdf::with_capacity`: a document that holds its header and no object.
#[verifier::external_body]
pub(crate) fn pdf_with_capacity(capacity: usize) -> (pdf: pdf_writer::Pdf)
    requires
        capacity <= isize::MAX,
    ensures
        pdf_bytes(pdf) == pdf_header(),
        pdf_refs(pdf) == Seq::<i32>::empty(),
{
    pdf_writer::Pdf::with_capacity(capacity)
}

/// Calls `Pdf::set_version`, which writes the two digits into the header.
#[verifier::external_body]
pub(crate) fn pdf_set_version(pdf: &mut pdf_writer::Pdf, major: u8, minor: u8)
    requires
        major < 10,
        minor < 10,
        pdf_bytes(*old(pdf)).len() >= 16,
    ensures
        pdf_bytes(*final(pdf)) == pdf_bytes(*old(pdf)).update(5, (48 + major) as u8).update(
            7,
            (48 + minor) as u8,
        ),
        pdf_refs(*final(pdf)) == pdf_refs(*old(pdf)),
{
    pdf.set_version(major, minor);
}

/// Calls `Pdf::set_binary_marker`, which writes the four bytes over those of
/// the comment in the header.
#[verifier::external_body]
pub(crate) fn pdf_set_binary_marker(pdf: &mut pdf_writer::Pdf, marker: &[u8; 4])
    requires
        pdf_bytes(*old(pdf)).len() >= 16,
    ensures
        pdf_bytes(*final(pdf)) == pdf_bytes(*old(pdf)).subrange(0, 10) + marker@ + pdf_bytes(
            *old(pdf),
        ).subrange(14, pdf_bytes(*old(pdf)).len() as int),
        pdf_refs(*final(pdf)) == pdf_refs(*old(pdf)),
{
    pdf.set_binary_marker(marker);
}

/// Calls `Chunk::extend` on the document: all objects of the chunk are added
/// as they are.
#[verifier::external_body]
pub(crate) fn pdf_extend(pdf: &mut pdf_writer::Pdf, chunk: &pdf_writer::Chunk)
    ensures
        pdf_bytes(*final(pdf)) == pdf_bytes(*old(pdf)) + chunk_bytes(*chunk),
        pdf_refs(*final(pdf)) == pdf_refs(*old(pdf)) + chunk_refs(*chunk),
{
    pdf.extend(chunk);
}

/// Calls `Chunk::as_bytes` on the document and copies the bytes written so far.
#[verifier::external_body]
pub(crate) fn pdf_to_bytes(pdf: &pdf_writer::Pdf) -> (bytes: Vec<u8>)
    ensures
        bytes@ == pdf_bytes(*pdf),
{
    pdf.as_bytes().to_vec()
}

/// Calls `Pdf::set_file_id`, which keeps the pair for the trailer and writes
/// nothing yet.
#[verifier::external_body]
pub(crate) fn pdf_set_file_id(pdf: &mut pdf_writer::Pdf, permanent: Vec<u8>, instance: Vec<u8>)
    ensures
        pdf_bytes(*final(pdf)) == pdf_bytes(*old(pdf)),
        pdf_refs(*final(pdf)) == pdf_refs(*old(pdf)),
{
    pdf.set_file_id((permanent, instance));
}

/// Calls `Pdf::finish`, which appends the cross-reference table and the
/// trailer to what was written. It panics where two objects share a
/// reference, and computes one more than the largest reference.
#[verifier::external_body]
pub(crate) fn pdf_finish(pdf: pdf_writer::Pdf) -> (file: Vec<u8>)
    requires
        pdf_refs(pdf).no_duplicates(),
        forall|i: int| 0 <= i < pdf_refs(pdf).len() ==> #[trigger] pdf_refs(pdf)[i] < MAX_REF,
    ensures
        file@ == pdf_file(pdf),
        pdf_bytes(pdf).is_prefix_of(file@),
{
    pdf.finish()
}

/// Calls `Chunk::indirect` and `Obj::dict`: starts an object under `id` that
/// is a dictionary. Writers only append, so what the chunk held stays, and
/// the object is listed at once.
#[verifier::external_body]
pub(crate) fn chunk_dict<'a>(chunk: &'a mut pdf_writer::Chunk, id: i32) -> (dict: pdf_writer::Dict<'a>)
    requires
        id >= 1,
    ensures
        chunk_refs(*final(chunk)) == chunk_refs(*old(chunk)).push(id),
        chunk_bytes(*old(chunk)).is_prefix_of(chunk_bytes(*final(chunk))),
{
    chunk.indirect(pdf_writer::Ref::new(id)).dict()
}

/// Calls `Chunk::indirect` and `Obj::array`: starts an object under `id` that
/// is an array.
#[verifier::external_body]
pub(crate) fn chunk_array<'a>(chunk: &'a mut pdf_writer::Chunk, id: i32) -> (array: pdf_writer::Array<'a>)
    requires
        id >= 1,
    ensures
        chunk_refs(*final(chunk)) == chunk_refs(*old(chunk)).push(id),
        chunk_bytes(*old(chunk)).is_prefix_of(chunk_bytes(*final(chunk))),
{
    chunk.indirect(pdf_writer::Ref::new(id)).array()
}

/// Calls `Chunk::stream`: starts a stream object under `id` that holds `data`.
/// It panics where the data is longer than an `i32` can count.
#[verifier::external_body]
pub(crate) fn chunk_stream<'a>(chunk: &'a mut pdf_writer::Chunk, id: i32, data: &'a [u8]) -> (stream:
    pdf_writer::Stream<'a>)
    requires
        id >= 1,
        data@.len() <= i32::MAX,
    ensures
        chunk_refs(*final(chunk)) == chunk_refs(*old(chunk)).push(id),
        chunk_bytes(*old(chunk)).is_prefix_of(chunk_bytes(*final(chunk))),
{
    chunk.stream(pdf_writer::Ref::new(id), data)
}

/// Calls `Pdf::catalog`: starts the catalog under `id` and names it in the trailer.
#[verifier::external_body]
pub(crate) fn pdf_catalog<'a>(pdf: &'a mut pdf_writer::Pdf, id: i32) -> (catalog:
    pdf_writer::writers::Catalog<'a>)
    requires
        id >= 1,
    ensures
        pdf_refs(*final(pdf)) == pdf_refs(*old(pdf)).push(id),
        pdf_bytes(*old(pdf)).is_prefix_of(pdf_bytes(*final(pdf))),
{
    pdf.catalog(pdf_writer::Ref::new(id))
}

/// Calls `Pdf::document_info`: starts the document information under `id`
/// and names it in the trailer.
#[verifier::external_body]
pub(crate) fn pdf_document_info<'a>(pdf: &'a mut pdf_writer::Pdf, id: i32) -> (info:
    pdf_writer::writers::DocumentInfo<'a>)
    requires
        id >= 1,
    ensures
        pdf_refs(*final(pdf)) == pdf_refs(*old(pdf)).push(id),
        pdf_bytes(*old(pdf)).is_prefix_of(pdf_bytes(*final(pdf))),
{
    pdf.document_info(pdf_writer::Ref::new(id))
}

/// Dereferences a `Catalog` to the dictionary that it writes into.
#[verifier::external_body]
pub(crate) fn catalog_dict<'a, 'b>(catalog: &'b mut pdf_writer::writers::Catalog<'a>) -> (dict: &'b mut pdf_writer::Dict<'a>)
{
    &mut *catalog
}

/// Dereferences a `DocumentInfo` to the dictionary that it writes into.
#[verifier::external_body]
pub(crate) fn info_dict<'a, 'b>(info: &'b mut pdf_writer::writers::DocumentInfo<'a>) -> (dict: &'b mut pdf_writer::Dict<'a>)
{
    &mut *info
}

/// Dereferences a `Stream` to the dictionary that it writes into.
#[verifier::external_body]
pub(crate) fn stream_dict<'a, 'b>(stream: &'b mut pdf_writer::Stream<'a>) -> (dict: &'b mut pdf_writer::Dict<'a>)
{
    &mut *stream
}

/// Calls `Dict::pair` with a reference as the value: the dictionary has
/// one entry more, the last one.
#[verifier::external_body]
pub(crate) fn dict_pair_ref(dict: &mut pdf_writer::Dict<'_>, key: &str, id: i32)
    requires
        id >= 1,
    ensures
        dict_entries(*final(dict)) == dict_entries(*old(dict)).push((key@, Entry::Ref(id))),
{
    dict.pair(pdf_writer::Name(key.as_bytes()), pdf_writer::Ref::new(id));
}

/// Calls `Dict::pair` with a name as the value: the dictionary has one
/// entry more, the last one.
#[verifier::external_body]
pub(crate) fn dict_pair_name(dict: &mut pdf_writer::Dict<'_>, key: &str, name: &str)
    ensures
        dict_entries(*final(dict)) == dict_entries(*old(dict)).push((key@, Entry::Name(name@))),
{
    dict.pair(pdf_writer::Name(key.as_bytes()), pdf_writer::Name(name.as_bytes()));
}

/// Calls `Dict::pair` with an integer as the value: the dictionary has one
/// entry more, the last one.
#[verifier::external_body]
pub(crate) fn dict_pair_int(dict: &mut pdf_writer::Dict<'_>, key: &str, value: i32)
    ensures
        dict_entries(*final(dict)) == dict_entries(*old(dict)).push((key@, Entry::Int(value))),
{
    dict.pair(pdf_writer::Name(key.as_bytes()), value);
}

/// Calls `Dict::pair` with a boolean as the value: the dictionary has one
/// entry more, the last one.
#[verifier::external_body]
pub(crate) fn dict_pair_bool(dict: &mut pdf_writer::Dict<'_>, key: &str, value: bool)
    ensures
        dict_entries(*final(dict)) == dict_entries(*old(dict)).push((key@, Entry::Bool(value))),
{
    dict.pair(pdf_writer::Name(key.as_bytes()), value);
}

/// Calls `Dict::pair` with a text string as the value: the dictionary has
/// one entry more, the last one.
#[verifier::external_body]
pub(crate) fn dict_pair_text(dict: &mut pdf_writer::Dict<'_>, key: &str, text: &str)
    ensures
        dict_entries(*final(dict)) == dict_entries(*old(dict)).push((key@, Entry::Text(text@))),
{
    dict.pair(pdf_writer::Name(key.as_bytes()), pdf_writer::TextStr(text));
}

/// Calls `Dict::pair` with a byte string as the value: the dictionary has
/// one entry more, the last one.
#[verifier::external_body]
pub(crate) fn dict_pair_str(dict: &mut pdf_writer::Dict<'_>, key: &str, bytes: &[u8])
    ensures
        dict_entries(*final(dict)) == dict_entries(*old(dict)).push((key@, Entry::Str(bytes@))),
{
    dict.pair(pdf_writer::Name(key.as_bytes()), pdf_writer::Str(bytes));
}

/// Calls `Dict::insert` and `Obj::dict`: starts a dictionary as the value of
/// `key`. The outer dictionary has one entry more, the last one.
#[verifier::external_body]
pub(crate) fn dict_insert_dict<'a>(dict: &'a mut pdf_writer::Dict<'_>, key: &str) -> (inner: pdf_writer::Dict<'a>)
    ensures
        dict_entries(*final(dict)) == dict_entries(*old(dict)).push((key@, Entry::Dict)),
{
    dict.insert(pdf_writer::Name(key.as_bytes())).dict()
}

/// Calls `Dict::insert` and `Obj::array`: starts an array as the value of
/// `key`. The dictionary has one entry more, the last one.
#[verifier::external_body]
pub(crate) fn dict_insert_array<'a>(dict: &'a mut pdf_writer::Dict<'_>, key: &str) -> (inner: pdf_writer::Array<'a>)
    ensures
        dict_entries(*final(dict)) == dict_entries(*old(dict)).push((key@, Entry::Array)),
{
    dict.insert(pdf_writer::Name(key.as_bytes())).array()
}

/// The characters of each of the texts.
pub open spec fn texts_of(names: Seq<&'static str>) -> Seq<Seq<char>> {
    Seq::new(names.len(), |i: int| names[i]@)
}

/// Calls `Dict::insert`, `Obj::array` and `Array::items`: writes an array of
/// the names as the value of `key`. The dictionary has one entry more, the
/// last one.
#[verifier::external_body]
pub(crate) fn dict_pair_names(dict: &mut pdf_writer::Dict<'_>, key: &str, names: &Vec<&'static str>)
    ensures
        dict_entries(*final(dict)) == dict_entries(*old(dict)).push(
            (key@, Entry::Names(texts_of(names@))),
        ),
{
    dict.insert(pdf_writer::Name(key.as_bytes())).array().items(
        names.iter().map(|name| pdf_writer::Name(name.as_bytes())),
    );
}

/// Calls `Array::item` with a reference: the array has one item more, the
/// last one.
#[verifier::external_body]
pub(crate) fn array_item_ref(array: &mut pdf_writer::Array<'_>, id: i32)
    requires
        id >= 1,
    ensures
        array_items(*final(array)) == array_items(*old(array)).push(Entry::Ref(id)),
{
    array.item(pdf_writer::Ref::new(id));
}

/// Calls `Array::item` with an integer: the array has one item more, the
/// last one.
#[verifier::external_body]
pub(crate) fn array_item_int(array: &mut pdf_writer::Array<'_>, value: i32)
    ensures
        array_items(*final(array)) == array_items(*old(array)).push(Entry::Int(value)),
{
    array.item(value);
}

/// Calls `Array::item` with a name: the array has one item more, the last
/// one.
#[verifier::external_body]
pub(crate) fn array_item_name(array: &mut pdf_writer::Array<'_>, name: &str)
    ensures
        array_items(*final(array)) == array_items(*old(array)).push(Entry::Name(name@)),
{
    array.item(pdf_writer::Name(name.as_bytes()));
}

/// Calls `Array::item` with a byte string: the array has one item more,
/// the last one.
#[verifier::external_body]
pub(crate) fn array_item_str(array: &mut pdf_writer::Array<'_>, bytes: &[u8])
    ensures
        array_items(*final(array)) == array_items(*old(array)).push(Entry::Str(bytes@)),
{
    array.item(pdf_writer::Str(bytes));
}

/// Calls `Array::push` and `Obj::dict`: starts a dictionary as the next
/// item. The array has one item more, the last one.
#[verifier::external_body]
pub(crate) fn array_push_dict<'a>(array: &'a mut pdf_writer::Array<'_>) -> (inner: pdf_writer::Dict<'a>)
    ensures
        array_items(*final(array)) == array_items(*old(array)).push(Entry::Dict),
{
    array.push().dict()
}

/// Lets a writer go, which makes it write whatever it has left to write.
pub(crate) fn finish<W>(writer: W) {
}

} // verus!
