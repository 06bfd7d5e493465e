use krilla::chunk_container::ChunkContainer;
use krilla::configure::{PdfVersion, SerializeSettings, Validator};
use krilla::document::Document;
use krilla::error::KrillaError;
use krilla::interchange::{EmbeddedFile, NamedDestination, Outline, TagTree};
use krilla::metadata::Metadata;
use krilla::page::{write_page, write_page_tree, Page, PageSettings};
use krilla::reference::Ref;
use krilla::serialize::{PageInfo, SerializerContext};
use pdf_writer::{Chunk, Name};

fn contains(haystack: &[u8], needle: &[u8]) -> bool {
    haystack.windows(needle.len()).any(|w| w == needle)
}

fn text(bytes: &[u8]) -> String {
    String::from_utf8_lossy(bytes).into_owned()
}

fn object(id: i32, key: &[u8]) -> Chunk {
    let mut chunk = Chunk::new();
    chunk
        .indirect(pdf_writer::Ref::new(id))
        .dict()
        .pair(Name(b"Is"), Name(key));
    chunk
}

#[test]
fn empty_document_gets_a_page_and_a_catalog() {
    let file = Document::new().finish().unwrap();
    assert!(file.starts_with(b"%PDF-1.7\n%\x80\x80\x80\x80\n\n"));
    assert_eq!(
        text(&file[16..]).split("xref").next().unwrap(),
        "1 0 obj\n<<\n  /Length 0\n>>\nstream\n\nendstream\nendobj\n\n2 0 obj\n<<\n  /Type /Page\n  /Parent 3 0 R\n  /MediaBox [0 0 595 842]\n  /Contents 1 0 R\n  /Resources <<>>\n>>\nendobj\n\n3 0 obj\n<<\n  /Type /Pages\n  /Count 1\n  /Kids [2 0 R]\n>>\nendobj\n\n4 0 obj\n<<\n  /Type /Catalog\n  /Pages 3 0 R\n>>\nendobj\n\n"
    );
    assert!(contains(&file, b"/Root 4 0 R"));
    assert!(contains(&file, b"/Size 5"));
    assert!(file.ends_with(b"%%EOF"));
}

#[test]
fn empty_container_has_no_catalog() {
    let mut sc = SerializerContext::new(SerializeSettings::default());
    let pdf = ChunkContainer::new().finish(&mut sc).unwrap();
    let file = pdf.finish();
    assert!(file.starts_with(b"%PDF-1.7\n"));
    assert!(!contains(&file, b"/Type /Catalog"));
    assert!(!contains(&file, b" obj"));
    assert!(!contains(&file, b"/Root"));
    assert!(file.ends_with(b"%%EOF"));
}

#[test]
fn default_document_is_a_new_document() {
    assert_eq!(
        Document::default().finish().unwrap(),
        Document::new().finish().unwrap()
    );
    assert_eq!(
        Document::new_with(SerializeSettings::default())
            .finish()
            .unwrap(),
        Document::new().finish().unwrap()
    );
}

#[test]
fn pages_are_added_in_the_order_in_which_they_are_finished() {
    let mut document = Document::new();
    let mut page = document.start_page();
    assert_eq!(page.page_index, 0);
    assert_eq!(page.page_settings, PageSettings::default());
    page.write(b"0 0 m");
    page.write(b" S");
    assert!(page.finish());
    let page = document.start_page_with(PageSettings {
        width: 100,
        height: 200,
    });
    assert_eq!(page.page_index, 1);
    assert!(page.finish());
    let infos = document.serializer_context.page_infos();
    assert_eq!(infos.len(), 2);
    assert_eq!(infos[0].page.get(), 1);
    assert_eq!(infos[0].content, b"0 0 m S".to_vec());
    assert_eq!(infos[1].page.get(), 2);
    assert_eq!(infos[1].settings.width, 100);
    let file = text(&document.finish().unwrap());
    assert!(file.contains("/Count 2"));
    assert!(file.contains("/Kids [2 0 R 4 0 R]"));
    assert!(file.contains("/MediaBox [0 0 595 842]"));
    assert!(file.contains("/MediaBox [0 0 100 200]"));
    assert!(file.contains("/Length 7\n>>\nstream\n0 0 m S\nendstream"));
    assert!(file.contains("/Type /Catalog\n  /Pages 5 0 R"));
}

#[test]
fn page_cannot_be_finished_without_a_reference() {
    let mut sc = SerializerContext::new(SerializeSettings::default());
    sc.skip_to(Ref::new(i32::MAX));
    let page = Page::new(&mut sc, 0, PageSettings::default());
    assert!(!page.finish());
    assert!(sc.page_infos().is_empty());
    let mut document = Document::new();
    document.serializer_context.skip_to(Ref::new(i32::MAX));
    assert!(matches!(
        document.finish(),
        Err(KrillaError::OutOfReferences)
    ));
}

#[test]
fn content_of_a_page_goes_through_the_filters() {
    let mut settings = SerializeSettings::default();
    settings.compress_content_streams = true;
    settings.ascii_compatible = true;
    let info = PageInfo {
        page: Ref::new(3),
        settings: PageSettings::default(),
        content: b"BT ET".to_vec(),
    };
    let chunk = write_page(&info, Ref::new(1), Ref::new(2), &settings).unwrap();
    let out = text(chunk.as_bytes());
    assert!(out.starts_with("2 0 obj\n<<\n  /Length "));
    assert!(out.contains("/Filter [/ASCIIHexDecode /FlateDecode]"));
    assert!(out.contains("3 0 obj\n<<\n  /Type /Page\n  /Parent 1 0 R"));
    let tree = write_page_tree(Ref::new(1), &vec![info]);
    assert_eq!(
        text(tree.as_bytes()),
        "1 0 obj\n<<\n  /Type /Pages\n  /Count 1\n  /Kids [3 0 R]\n>>\nendobj\n\n"
    );
}

#[test]
fn ascii_document_has_an_ascii_header() {
    let mut settings = SerializeSettings::default();
    settings.ascii_compatible = true;
    settings.pdf_version = PdfVersion::Pdf15;
    let file = Document::new_with(settings).finish().unwrap();
    assert!(file.starts_with(b"%PDF-1.5\n%AAAA\n\n"));
    assert!(file.is_ascii());
    settings.validator = Validator::none();
    settings.validator.binary_header = true;
    let file = Document::new_with(settings).finish().unwrap();
    assert!(file.starts_with(b"%PDF-1.5\n%\x80\x80\x80\x80\n\n"));
}

#[test]
fn outline_and_tags_are_declared_by_the_catalog() {
    let mut document = Document::new();
    let outline_ref = document.serializer_context.new_ref();
    let root_ref = document.serializer_context.new_ref();
    let element_ref = document.serializer_context.new_ref();
    document.set_outline(Outline {
        root: outline_ref,
        chunk: object(outline_ref.get(), b"Outline"),
    });
    document.set_tag_tree(TagTree {
        root: root_ref,
        chunk: object(root_ref.get(), b"Root"),
        elements: vec![object(element_ref.get(), b"Element")],
    });
    let mut metadata = Metadata::new();
    metadata.title = Some("Tagged".to_string());
    metadata.language = Some("en".to_string());
    document.set_metadata(metadata);
    let file = text(&document.finish().unwrap());
    let cut = file.find("/Type /Catalog").unwrap();
    let catalog = &file[cut..];
    assert!(catalog.contains("/Pages 5 0 R"));
    assert!(catalog.contains("/Lang (en)"));
    assert!(catalog.contains("/StructTreeRoot 3 0 R"));
    assert!(catalog.contains("/MarkInfo <<\n    /Marked true\n    /Suspects false\n  >>"));
    assert!(catalog.contains("/Outlines 6 0 R"));
    assert!(file.contains("6 0 obj\n<<\n  /Is /Outline\n>>"));
    assert!(file.contains("3 0 obj\n<<\n  /Is /Root\n>>"));
    assert!(file.contains("4 0 obj\n<<\n  /Is /Element\n>>"));
    assert!(file.contains("/Title (Tagged)"));
}

#[test]
fn file_is_embedded_once_under_a_name() {
    let mut document = Document::new();
    let b = document.serializer_context.new_ref();
    let a = document.serializer_context.new_ref();
    let c = document.serializer_context.new_ref();
    let file = |name: &str, r: Ref| EmbeddedFile {
        path: name.to_string(),
        root: r,
        chunk: object(r.get(), name.as_bytes()),
    };
    assert_eq!(document.embed_file(file("b.txt", b)), Some(()));
    assert_eq!(document.embed_file(file("a.txt", a)), Some(()));
    assert_eq!(document.embed_file(file("b.txt", c)), None);
    assert_eq!(document.embed_file(file("c.txt", c)), Some(()));
    assert_eq!(document.embed_file(file("a.txt", c)), None);
    assert_eq!(
        document
            .serializer_context
            .chunk_container()
            .embedded_files
            .len(),
        3
    );
    let out = text(&document.finish().unwrap());
    assert!(out.contains("/EmbeddedFiles <<\n      /Names [(a.txt) 4 0 R (b.txt) 3 0 R (c.txt) 5 0 R]\n    >>"));
    assert!(!out.contains("/AF"));
}

#[test]
fn named_destinations_are_written_in_the_order_of_their_references() {
    let mut document = Document::new();
    let first = document.serializer_context.new_ref();
    let second = document.serializer_context.new_ref();
    document
        .serializer_context
        .add_named_destination(NamedDestination {
            name: "late".to_string(),
            root: second,
            chunk: object(second.get(), b"Late"),
        });
    document
        .serializer_context
        .add_named_destination(NamedDestination {
            name: "early".to_string(),
            root: first,
            chunk: object(first.get(), b"Early"),
        });
    let out = text(&document.finish().unwrap());
    assert!(out.contains("/Dests <<\n      /Names [(early) 4 0 R (late) 3 0 R]\n    >>"));
    assert!(out.contains("3 0 obj\n<<\n  /Is /Late\n>>"));
    assert!(out.contains("4 0 obj\n<<\n  /Is /Early\n>>"));
}

#[test]
fn every_number_from_one_is_defined_once() {
    let mut document = Document::new();
    for _ in 0..5 {
        let mut page = document.start_page();
        page.write(b"q Q");
        assert!(page.finish());
    }
    let mut settings_metadata = Metadata::new();
    settings_metadata.title = Some("Numbers".to_string());
    document.set_metadata(settings_metadata);
    let pdf = document.serializer_context.finish().unwrap();
    let refs: Vec<i32> = pdf.refs().map(|r| r.get()).collect();
    let expected: Vec<i32> = (1..=refs.len() as i32).collect();
    assert_eq!(refs, expected);
    assert_eq!(refs.len(), 1 + 2 * 5 + 1 + 1);
}

#[test]
fn content_that_is_too_long_for_a_stream_is_a_fault() {
    let info = PageInfo {
        page: Ref::new(3),
        settings: PageSettings::default(),
        content: vec![0u8; i32::MAX as usize + 1],
    };
    let result = write_page(&info, Ref::new(1), Ref::new(2), &SerializeSettings::default());
    assert!(matches!(result, Err(KrillaError::StreamTooLong)));
}

#[test]
fn fragments_of_the_pages_are_made_before_the_assembly() {
    let mut sc = SerializerContext::new(SerializeSettings::default());
    sc.build_pages().unwrap();
    assert!(sc.chunk_container().page_tree.is_none());
    assert_eq!(sc.peek_ref().get(), 1);
    assert_eq!(sc.add_page(PageSettings::default(), b"a".to_vec()).get(), 1);
    assert_eq!(
        sc.add_page(PageSettings { width: 10, height: 20 }, b"b".to_vec()).get(),
        2
    );
    sc.build_pages().unwrap();
    assert_eq!(sc.peek_ref().get(), 6);
    let container = sc.chunk_container();
    match &container.page_tree {
        Some((root, tree)) => {
            assert_eq!(root.get(), 3);
            assert_eq!(
                text(tree.as_bytes()),
                "3 0 obj\n<<\n  /Type /Pages\n  /Count 2\n  /Kids [1 0 R 2 0 R]\n>>\nendobj\n\n"
            );
        }
        None => panic!("the page tree is made"),
    }
    assert_eq!(container.pages.len(), 2);
    let refs: Vec<i32> = container.pages[1].wait().as_ref().unwrap().refs().map(|r| r.get()).collect();
    assert_eq!(refs, vec![5, 2]);
    let mut full = SerializerContext::new(SerializeSettings::default());
    full.add_page(PageSettings::default(), vec![]);
    full.skip_to(Ref::new(i32::MAX - 1));
    assert!(matches!(full.build_pages(), Err(KrillaError::OutOfReferences)));
}
