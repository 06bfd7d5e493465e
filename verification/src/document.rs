//! Documents.
//!
//! A [`Document`] is the starting point: it holds the state of the production
//! of one PDF file. Pages are added one after the other, each started by
//! [`Document::start_page`] and given back to the document when it is
//! finished.
use vstd::prelude::*;
use crate::chunk_container::{header_for, one_to, Category};
use crate::configure::{default_settings, SerializeSettings};
use crate::error::{KrillaError, KrillaResult};
use crate::interchange::{EmbeddedFile, Outline, TagTree};
use crate::metadata::{Metadata, PdfSig};
use crate::page::{a4, Page, PageSettings};
use crate::pdf::pdf_finish;
use crate::reference::MAX_REF;
use crate::serialize::{file_place, name_taken, names_ordered, ContextView, SerializerContext};

verus! {

/// A PDF document.
pub struct Document {
    /// The state of the production of the document.
    pub serializer_context: SerializerContext,
}

impl View for Document {
    type V = ContextView;

    open spec fn view(&self) -> ContextView {
        self.serializer_context@
    }
}

/// `paged` is `before` with an empty page of the default size as its
/// only page.
pub open spec fn with_empty_page(before: ContextView, paged: ContextView) -> bool {
    &&& paged == (ContextView { next: before.next + 1, pages: paged.pages, ..before })
    &&& paged.pages.len() == 1
    &&& paged.pages[0].page@ == before.next
    &&& paged.pages[0].settings == a4()
    &&& paged.pages[0].content@ == Seq::<u8>::empty()
}

/// `file` is the file that `pdf_writer` makes of `pdf`, a document that
/// finishing `start` comes to.
pub open spec fn made_of(start: ContextView, pdf: pdf_writer::Pdf, file: Seq<u8>) -> bool {
    crate::serialize::finishes(start, Ok(pdf)) && file == crate::pdf::pdf_file(pdf)
}

/// What finishing a document whose pages are made comes to: a fault of
/// the assembly, or the file of the document that was assembled.
pub open spec fn written(start: ContextView, result: KrillaResult<Vec<u8>>) -> bool {
    match result {
        Ok(file) => exists|pdf: pdf_writer::Pdf| #[trigger] made_of(start, pdf, file@),
        Err(e) => crate::serialize::finishes(start, Err(e)),
    }
}

impl Document {
    /// A document under the default settings.
    pub fn new() -> (document: Document)
        ensures
            document@.wf(),
            document@.next == 1,
            document@.pages.len() == 0,
            document@.settings == default_settings(),
    {
        Document { serializer_context: SerializerContext::new(SerializeSettings::default()) }
    }

    /// A document under the given settings.
    pub fn new_with(serialize_settings: SerializeSettings) -> (document: Document)
        ensures
            document@.wf(),
            document@.next == 1,
            document@.pages.len() == 0,
            document@.settings == serialize_settings,
    {
        Document { serializer_context: SerializerContext::new(serialize_settings) }
    }

    /// Starts a page of the default size. Its place is behind the pages
    /// finished so far.
    pub fn start_page(&mut self) -> (page: Page<'_>)
        ensures
            *page.sc == old(self).serializer_context,
            *final(page.sc) == final(self).serializer_context,
            page.page_index == old(self)@.pages.len(),
            page.page_settings == a4(),
            page.content@ == Seq::<u8>::empty(),
    {
        let page_index = self.serializer_context.page_infos().len();
        Page::new(&mut self.serializer_context, page_index, PageSettings::default())
    }

    /// Starts a page of the given size. Its place is behind the pages
    /// finished so far.
    pub fn start_page_with(&mut self, page_settings: PageSettings) -> (page: Page<'_>)
        ensures
            *page.sc == old(self).serializer_context,
            *final(page.sc) == final(self).serializer_context,
            page.page_index == old(self)@.pages.len(),
            page.page_settings == page_settings,
            page.content@ == Seq::<u8>::empty(),
    {
        let page_index = self.serializer_context.page_infos().len();
        Page::new(&mut self.serializer_context, page_index, page_settings)
    }

    /// Sets the outline of the document.
    pub fn set_outline(&mut self, outline: Outline)
        ensures
            final(self)@.container.outline == Some((outline.root, outline.chunk)),
            final(self)@ == (ContextView {
                container: final(self)@.container,
                ..old(self)@
            }),
    {
        self.serializer_context.set_outline(outline);
    }

    /// Sets what the document says about itself.
    pub fn set_metadata(&mut self, metadata: Metadata)
        ensures
            final(self)@.container.metadata == Some(metadata),
            final(self)@ == (ContextView {
                container: final(self)@.container,
                ..old(self)@
            }),
    {
        self.serializer_context.set_metadata(metadata);
    }

    /// Sets the structure tree of the document.
    pub fn set_tag_tree(&mut self, tag_tree: TagTree)
        ensures
            final(self)@.container.struct_tree_root == Some((tag_tree.root, tag_tree.chunk)),
            final(self)@.container.struct_elements == tag_tree.elements,
            final(self)@ == (ContextView {
                container: final(self)@.container,
                ..old(self)@
            }),
    {
        self.serializer_context.set_tag_tree(tag_tree);
    }

    /// Sets who signs the document.
    pub fn set_signer(&mut self, sig: PdfSig)
        ensures
            final(self)@ == (ContextView { signer: Some(sig), ..old(self)@ }),
    {
        self.serializer_context.set_signer(sig);
    }

    /// Embeds a file in the document. Returns `None`, and changes nothing,
    /// where a file is embedded under the same name.
    pub fn embed_file(&mut self, file: EmbeddedFile) -> (done: Option<()>)
        ensures
            done is None <==> name_taken(old(self)@.files, file.path@),
            done is None ==> final(self)@ == old(self)@,
            done is Some ==> {
                &&& final(self)@.files == old(self)@.files.insert(
                    file_place(old(self)@.files, vstd::utf8::encode_utf8(file.path@)),
                    (file.path, file.root),
                )
                &&& old(self)@.container.with_chunk(
                    Category::EmbeddedFile,
                    file.chunk,
                    final(self)@.container,
                )
                &&& final(self)@ == (ContextView {
                    files: final(self)@.files,
                    container: final(self)@.container,
                    ..old(self)@
                })
            },
            names_ordered(old(self)@.files) ==> names_ordered(final(self)@.files),
    {
        self.serializer_context.embed_file(file)
    }

    /// Finishes the document and returns the bytes of the file. A document
    /// without a page gets an empty page of the default size first. The
    /// file is what `pdf_writer` makes of the document that
    /// [`SerializerContext::finish`] assembles; it starts with the header
    /// that the settings ask for.
    pub fn finish(self) -> (result: KrillaResult<Vec<u8>>)
        requires
            self@.wf(),
        ensures
            result matches Ok(file) ==> header_for(self@.settings).is_prefix_of(file@),
            if self@.pages.len() > 0 {
                written(self@, result)
            } else if self@.next >= MAX_REF {
                result matches Err(e) && e == KrillaError::OutOfReferences
            } else {
                exists|paged: ContextView| #[trigger] with_empty_page(self@, paged) && written(
                    paged,
                    result,
                )
            },
    {
        let mut this = self;
        if this.serializer_context.page_infos().len() == 0 {
            let page = this.start_page();
            if !page.finish() {
                return Err(KrillaError::OutOfReferences);
            }
            assert(with_empty_page(self@, this@));
        }
        let ghost paged = this@;
        let pdf = match this.serializer_context.finish() {
            Ok(pdf) => pdf,
            Err(e) => {
                assert(written(paged, Err(e)));
                return Err(e);
            },
        };
        let ghost made = pdf;
        assert(crate::serialize::finishes(paged, Ok(made)));
        proof {
            crate::chunk_container::lemma_numbered_once(crate::pdf::pdf_refs(pdf).len() as int);
        }
        let ghost body = crate::pdf::pdf_bytes(pdf);
        let file = pdf_finish(pdf);
        proof {
            crate::catalog::lemma_prefix_chain(header_for(self@.settings), body, file@);
            assert(file@ == crate::pdf::pdf_file(made));
            assert(made_of(paged, made, file@));
            let outcome: KrillaResult<Vec<u8>> = Ok(file);
            assert(outcome->Ok_0@ == file@);
            assert(written(paged, outcome));
        }
        Ok(file)
    }
}

impl Default for Document {
    fn default() -> (document: Document)
        ensures
            document@.wf(),
            document@.next == 1,
    {
        Document::new()
    }
}

} // verus!
