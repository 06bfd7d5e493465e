//! The pages of a document.
use vstd::prelude::*;
use pdf_writer::Chunk;
use crate::configure::SerializeSettings;
use crate::error::{KrillaError, KrillaResult};
use crate::pdf::{
    array_item_int, array_item_ref, chunk_dict, chunk_new, chunk_refs, chunk_stream,
    dict_insert_array, dict_insert_dict, dict_pair_int, dict_pair_name, dict_pair_ref, finish,
    stream_dict, array_items, dict_entries, Entry,
};
use crate::reference::{Ref, MAX_REF};
use crate::serialize::{ContextView, PageInfo, SerializerContext};
use crate::stream::FilterStream;

verus! {

/// The size of a page, in points.
#[derive(Clone, Copy, Debug, PartialEq, Eq, Structural)]
pub struct PageSettings {
    /// The width of the page.
    pub width: u16,
    /// The height of the page.
    pub height: u16,
}

/// The size of a sheet of A4, in whole points.
pub open spec fn a4() -> PageSettings {
    PageSettings { width: 595, height: 842 }
}

impl Default for PageSettings {
    /// The size of a sheet of A4, in whole points.
    fn default() -> (settings: PageSettings)
        ensures
            settings == a4(),
    {
        PageSettings { width: 595, height: 842 }
    }
}

/// Whether the content of a page, once filtered, is longer than a stream
/// can hold.
pub open spec fn too_long(info: PageInfo, settings: SerializeSettings) -> bool {
    crate::stream::filtered(info.content@, crate::stream::content_stream_filters(settings)).len()
        > i32::MAX
}

/// The box of a page: from the origin to the width and the height.
pub open spec fn box_items(settings: PageSettings) -> Seq<Entry> {
    seq![
        Entry::Int(0),
        Entry::Int(0),
        Entry::Int(settings.width as i32),
        Entry::Int(settings.height as i32),
    ]
}

/// Writes the box of a page into its array.
pub fn write_box_items(array: &mut pdf_writer::Array<'_>, settings: PageSettings)
    ensures
        array_items(*final(array)) == array_items(*old(array)) + box_items(settings),
{
    array_item_int(array, 0);
    array_item_int(array, 0);
    array_item_int(array, settings.width as i32);
    array_item_int(array, settings.height as i32);
    assert(array_items(*array) =~= array_items(*old(array)) + box_items(settings));
}

/// The entries of a page: its type, the page tree that it belongs to, its
/// box, the stream of its content, and its resources, which are none.
pub open spec fn page_entries(parent: Ref, contents: Ref) -> Seq<(Seq<char>, Entry)> {
    seq![
        ("Type"@, Entry::Name("Page"@)),
        ("Parent"@, Entry::Ref(parent@)),
        ("MediaBox"@, Entry::Array),
        ("Contents"@, Entry::Ref(contents@)),
        ("Resources"@, Entry::Dict),
    ]
}

/// Writes the entries of a page into its dictionary. The array of the box
/// gets the items of [`box_items`]; the dictionary of the resources stays
/// empty.
pub fn write_page_entries(
    dict: &mut pdf_writer::Dict<'_>,
    settings: PageSettings,
    parent: Ref,
    contents: Ref,
)
    ensures
        dict_entries(*final(dict)) == dict_entries(*old(dict)) + page_entries(parent, contents),
{
    dict_pair_name(dict, "Type", "Page");
    dict_pair_ref(dict, "Parent", parent.get());
    let mut media_box = dict_insert_array(dict, "MediaBox");
    write_box_items(&mut media_box, settings);
    finish(media_box);
    dict_pair_ref(dict, "Contents", contents.get());
    let resources = dict_insert_dict(dict, "Resources");
    finish(resources);
    assert(dict_entries(*dict) =~= dict_entries(*old(dict)) + page_entries(parent, contents));
}

/// The fragment of a page: the stream of its content under the reference
/// `contents`, then the page itself, which belongs to the page tree `parent`.
/// Fails where the content, once filtered, is longer than a stream can hold.
pub fn write_page(
    info: &PageInfo,
    parent: Ref,
    contents: Ref,
    settings: &SerializeSettings,
) -> (result: KrillaResult<Chunk>)
    ensures
        match result {
            Ok(chunk) => chunk_refs(chunk) == seq![contents@, info.page@],
            Err(e) => e == KrillaError::StreamTooLong,
        },
        result is Err <==> too_long(*info, *settings),
{
    let stream = FilterStream::new_from_content_stream(info.content.as_slice(), settings);
    proof {
        crate::stream::lemma_filtered(info.content@, stream.filters());
    }
    let data = stream.encoded_data();
    if data.len() > i32::MAX as usize {
        return Err(KrillaError::StreamTooLong);
    }
    let mut chunk = chunk_new();
    let mut content = chunk_stream(&mut chunk, contents.get(), data);
    stream.write_filters(stream_dict(&mut content));
    finish(content);
    let mut page = chunk_dict(&mut chunk, info.page.get());
    write_page_entries(&mut page, info.settings, parent, contents);
    finish(page);
    assert(chunk_refs(chunk) =~= seq![contents@, info.page@]);
    Ok(chunk)
}

/// The number of pages that a page tree declares.
pub open spec fn declared_count(pages: Seq<PageInfo>) -> i32 {
    if pages.len() > i32::MAX {
        i32::MAX
    } else {
        pages.len() as i32
    }
}

/// The pages of a page tree: the reference of each page, in order.
pub open spec fn kid_items(pages: Seq<PageInfo>) -> Seq<Entry> {
    Seq::new(pages.len(), |i: int| Entry::Ref(pages[i].page@))
}

/// Writes the pages of a page tree into their array.
pub fn write_kid_items(array: &mut pdf_writer::Array<'_>, pages: &Vec<PageInfo>)
    ensures
        array_items(*final(array)) == array_items(*old(array)) + kid_items(pages@),
{
    let ghost start = array_items(*array);
    let mut i: usize = 0;
    assert(array_items(*array) =~= start + kid_items(pages@.take(0)));
    while i < pages.len()
        invariant
            i <= pages@.len(),
            array_items(*array) == start + kid_items(pages@.take(i as int)),
        decreases pages@.len() - i,
    {
        array_item_ref(array, pages[i].page.get());
        assert(array_items(*array) =~= start + kid_items(pages@.take(i + 1)));
        i += 1;
    }
    assert(pages@.take(i as int) =~= pages@);
}

/// The entries of a page tree: its type, the number of its pages, and the
/// pages.
pub open spec fn tree_entries(pages: Seq<PageInfo>) -> Seq<(Seq<char>, Entry)> {
    seq![
        ("Type"@, Entry::Name("Pages"@)),
        ("Count"@, Entry::Int(declared_count(pages))),
        ("Kids"@, Entry::Array),
    ]
}

/// Writes the entries of a page tree into its dictionary. The array of the
/// pages gets the items of [`kid_items`].
pub fn write_tree_entries(dict: &mut pdf_writer::Dict<'_>, pages: &Vec<PageInfo>)
    ensures
        dict_entries(*final(dict)) == dict_entries(*old(dict)) + tree_entries(pages@),
{
    dict_pair_name(dict, "Type", "Pages");
    let count: i32 = if pages.len() > i32::MAX as usize {
        i32::MAX
    } else {
        pages.len() as i32
    };
    dict_pair_int(dict, "Count", count);
    let mut kids = dict_insert_array(dict, "Kids");
    write_kid_items(&mut kids, pages);
    finish(kids);
    assert(dict_entries(*dict) =~= dict_entries(*old(dict)) + tree_entries(pages@));
}

/// The fragment of the page tree: one node under the reference `root` that
/// lists every page, in order, with the entries of [`tree_entries`].
pub fn write_page_tree(root: Ref, pages: &Vec<PageInfo>) -> (chunk: Chunk)
    ensures
        chunk_refs(chunk) == seq![root@],
{
    let mut chunk = chunk_new();
    let mut tree = chunk_dict(&mut chunk, root.get());
    write_tree_entries(&mut tree, pages);
    finish(tree);
    assert(chunk_refs(chunk) =~= seq![root@]);
    chunk
}

/// A page that is being made. The page belongs to its document once it is
/// finished.
pub struct Page<'a> {
    /// The document that the page is made for.
    pub sc: &'a mut SerializerContext,
    /// The place of the page among the pages of the document.
    pub page_index: usize,
    /// The size of the page.
    pub page_settings: PageSettings,
    /// The content written so far.
    pub content: Vec<u8>,
}

impl<'a> Page<'a> {
    /// The state of the document that the page is made for.
    pub open spec fn context(&self) -> ContextView {
        (*self.sc)@
    }

    /// The place of the page among the pages of the document.
    pub open spec fn index(&self) -> usize {
        self.page_index
    }

    /// The size of the page.
    pub open spec fn settings(&self) -> PageSettings {
        self.page_settings
    }

    /// The content written so far.
    pub open spec fn content(&self) -> Seq<u8> {
        self.content@
    }

    /// Starts a page without content.
    pub fn new(sc: &'a mut SerializerContext, page_index: usize, page_settings: PageSettings) -> (page:
        Page<'a>)
        ensures
            *page.sc == *old(sc),
            *final(page.sc) == *final(sc),
            page.index() == page_index,
            page.settings() == page_settings,
            page.content() == Seq::<u8>::empty(),
    {
        Page { sc, page_index, page_settings, content: Vec::new() }
    }

    /// Appends to the content of the page.
    pub fn write(&mut self, bytes: &[u8])
        ensures
            final(self).content() == old(self).content() + bytes@,
            *final(self).sc == *old(self).sc,
            *final(final(self).sc) == *final(old(self).sc),
            final(self).index() == old(self).index(),
            final(self).settings() == old(self).settings(),
    {
        let mut i: usize = 0;
        while i < bytes.len()
            invariant
                i <= bytes@.len(),
                self.content@ == old(self).content@ + bytes@.take(i as int),
                *self.sc == *old(self).sc,
                *final(self.sc) == *final(old(self).sc),
                self.page_index == old(self).page_index,
                self.page_settings == old(self).page_settings,
            decreases bytes@.len() - i,
        {
            self.content.push(bytes[i]);
            assert(self.content@ =~= old(self).content@ + bytes@.take(i + 1));
            i += 1;
        }
        assert(bytes@.take(bytes@.len() as int) =~= bytes@);
    }

    /// Finishes the page: the document takes it as its next page.
    pub fn finish(self) -> (done: bool)
        requires
            self.context().wf(),
        ensures
            done == (self.context().next < MAX_REF),
            done ==> (*final(self.sc))@ == (ContextView {
                next: self.context().next + 1,
                pages: self.context().pages.push(
                    PageInfo {
                        page: (*final(self.sc))@.pages.last().page,
                        settings: self.settings(),
                        content: (*final(self.sc))@.pages.last().content,
                    },
                ),
                ..self.context()
            }),
            done ==> (*final(self.sc))@.pages.last().page@ == self.context().next,
            done ==> (*final(self.sc))@.pages.last().content@ == self.content(),
            !done ==> (*final(self.sc))@ == self.context(),
            (*final(self.sc))@.wf(),
    {
        let Page { sc, page_index, page_settings, content } = self;
        if sc.has_room() {
            let _ = sc.add_page(page_settings, content);
            true
        } else {
            false
        }
    }
}

} // verus!
