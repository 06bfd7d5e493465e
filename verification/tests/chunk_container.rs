use krilla::chunk_container::{
    import_all, numbered_in_order, open_pdf, plan, renumber, write_body, ChunkContainer,
    EmbeddedPdfChunk,
};
use krilla::configure::{PdfVersion, SerializeSettings, ValidationError};
use krilla::error::KrillaError;
use krilla::metadata::Metadata;
use krilla::reference::Ref;
use krilla::remap::RefTable;
use krilla::serialize::SerializerContext;
use krilla::util::Deferred;
use pdf_writer::{Chunk, Name, TextStr};

fn text(bytes: &[u8]) -> String {
    String::from_utf8_lossy(bytes).into_owned()
}

fn object(id: i32) -> Chunk {
    let mut chunk = Chunk::new();
    chunk.indirect(pdf_writer::Ref::new(id)).primitive(id);
    chunk
}

fn pointer(id: i32, to: i32) -> Chunk {
    let mut chunk = Chunk::new();
    chunk
        .indirect(pdf_writer::Ref::new(id))
        .dict()
        .pair(Name(b"To"), pdf_writer::Ref::new(to));
    chunk
}

fn context() -> SerializerContext {
    SerializerContext::new(SerializeSettings::default())
}

#[test]
fn objects_are_numbered_from_one_in_the_order_of_the_categories() {
    let mut container = ChunkContainer::new();
    container.fonts.push(object(50));
    container.pages.push(Deferred::new(Ok(object(7))));
    container.page_tree = Some((Ref::new(90), pointer(90, 7)));
    container.images.push(Deferred::new(Ok(pointer(3, 50))));
    let mut sc = context();
    let pdf = container.finish(&mut sc).unwrap();
    let refs: Vec<i32> = pdf.refs().map(|r| r.get()).collect();
    assert_eq!(refs, vec![1, 2, 3, 4, 5]);
    let out = text(&pdf.finish());
    let page = out.find("1 0 obj\n7\nendobj").unwrap();
    let font = out.find("2 0 obj\n50\nendobj").unwrap();
    let image = out.find("3 0 obj\n<<\n  /To 2 0 R\n>>").unwrap();
    let tree = out.find("4 0 obj\n<<\n  /To 1 0 R\n>>").unwrap();
    let catalog = out.find("5 0 obj\n<<\n  /Type /Catalog\n  /Pages 4 0 R\n>>").unwrap();
    assert!(page < font && font < image && image < tree && tree < catalog);
}

#[test]
fn renumbering_two_chunks() {
    let a = pointer(10, 17);
    let b = object(17);
    let chunks = vec![&a, &b];
    let done = renumber(&chunks).unwrap();
    assert_eq!(done.next.get(), 3);
    assert_eq!(done.table.get(10), Some(1));
    assert_eq!(done.table.get(17), Some(2));
    assert_eq!(done.pieces.len(), 2);
    assert_eq!(
        text(done.pieces[0].as_bytes()),
        "1 0 obj\n<<\n  /To 2 0 R\n>>\nendobj\n\n"
    );
    assert_eq!(text(done.pieces[1].as_bytes()), "2 0 obj\n17\nendobj\n\n");
    assert!(numbered_in_order(&done.pieces, 2));
    assert!(!numbered_in_order(&done.pieces, 3));
    assert!(!numbered_in_order(&done.pieces, 1));
    assert!(!numbered_in_order(&vec![a.clone()], 1));
    assert!(numbered_in_order(&vec![], 0));
    assert_eq!(done.byte_len, a.len() + b.len());
}

#[test]
fn first_pass_gives_the_next_number_to_each_reference() {
    let a = object(5);
    let mut b = object(9);
    b.indirect(pdf_writer::Ref::new(2)).primitive(true);
    let chunks = vec![&a, &b];
    let numbers = plan(&chunks).unwrap();
    assert_eq!(numbers.map.len(), 3);
    assert_eq!(numbers.map[&5], 1);
    assert_eq!(numbers.map[&9], 2);
    assert_eq!(numbers.map[&2], 3);
    assert_eq!(numbers.next.get(), 4);
    let none: Vec<&Chunk> = vec![];
    let numbers = plan(&none).unwrap();
    assert!(numbers.map.is_empty());
    assert_eq!(numbers.next.get(), 1);
}

#[test]
fn reference_defined_twice_is_a_fault() {
    let a = object(5);
    let b = object(6);
    let c = object(5);
    let chunks = vec![&a, &b, &c];
    assert!(matches!(plan(&chunks), Err(KrillaError::DuplicateReference(5))));
    assert!(matches!(
        renumber(&chunks),
        Err(KrillaError::DuplicateReference(5))
    ));
    let mut container = ChunkContainer::new();
    container.fonts.push(object(5));
    container.annotations.push(object(5));
    let mut sc = context();
    assert!(matches!(
        container.finish(&mut sc),
        Err(KrillaError::DuplicateReference(5))
    ));
}

#[test]
fn reference_that_nothing_defines_is_a_fault() {
    let a = pointer(1, 2);
    let b = pointer(3, 4);
    let chunks = vec![&a, &b];
    assert!(matches!(
        renumber(&chunks),
        Err(KrillaError::UnknownReference(2))
    ));
    let mut entries = std::collections::HashMap::new();
    entries.insert(1, 1);
    entries.insert(3, 2);
    entries.insert(2, 3);
    let mut table = RefTable::fixed(entries);
    assert!(matches!(
        write_body(&chunks, &mut table),
        Err(KrillaError::UnknownReference(4))
    ));
}

#[test]
fn first_failed_fragment_ends_the_assembly() {
    let mut container = ChunkContainer::new();
    container.fonts.push(object(1));
    container
        .images
        .push(Deferred::new(Err(KrillaError::Fragment("first".to_string()))));
    container
        .images
        .push(Deferred::new(Err(KrillaError::Fragment("second".to_string()))));
    container
        .embedded_pdfs
        .push(Deferred::new(Err(KrillaError::Fragment("third".to_string()))));
    let mut sc = context();
    match container.finish(&mut sc) {
        Err(KrillaError::Fragment(message)) => assert_eq!(message, "first"),
        _ => panic!("the first failure is returned"),
    }
}

#[test]
fn failed_import_of_a_document_ends_the_assembly() {
    let mut container = ChunkContainer::new();
    container.fonts.push(object(1));
    container
        .embedded_pdfs
        .push(Deferred::new(Err(KrillaError::Fragment("import".to_string()))));
    let mut sc = context();
    match container.finish(&mut sc) {
        Err(KrillaError::Fragment(message)) => assert_eq!(message, "import"),
        _ => panic!("the failure of the import is returned"),
    }
}

#[test]
fn visit_goes_through_the_categories_in_their_order() {
    let mut container = ChunkContainer::new();
    container.embedded_files.push(Deferred::new(Ok(object(21))));
    container.images.push(Deferred::new(Ok(object(19))));
    container.pages.push(Deferred::new(Ok(object(18))));
    container.patterns.push(Deferred::new(Ok(object(17))));
    container.shading_functions.push(Deferred::new(Ok(object(16))));
    container.x_objects.push(Deferred::new(Ok(object(15))));
    container.masks.push(Deferred::new(Ok(object(14))));
    container.ext_g_states.push(Deferred::new(Ok(object(13))));
    container.destinations.push(object(12));
    container.icc_profiles.push(Deferred::new(Ok(object(11))));
    container.color_spaces.push(Deferred::new(Ok(object(10))));
    container.fonts.push(object(9));
    container.annotations.push(object(8));
    container.page_labels.push(object(7));
    container.struct_elements.push(object(6));
    container.struct_tree_root = Some((Ref::new(5), object(5)));
    container.destination_profiles = Some((Ref::new(4), object(4)));
    container.page_label_tree = Some((Ref::new(3), object(3)));
    container.outline = Some((Ref::new(2), object(2)));
    container.page_tree = Some((Ref::new(1), object(1)));
    container.fonts.push(object(109));
    let found = container.visit().unwrap();
    let firsts: Vec<i32> = found
        .iter()
        .map(|chunk| chunk.refs().next().unwrap().get())
        .collect();
    assert_eq!(
        firsts,
        vec![18, 9, 109, 10, 11, 13, 14, 15, 16, 17, 19, 21, 5, 6, 7, 8, 12, 1, 2, 3, 4]
    );
}

#[test]
fn foreign_document_with_two_pinned_references_takes_three_new_ones() {
    let mut foreign = Chunk::new();
    foreign
        .indirect(pdf_writer::Ref::new(1))
        .dict()
        .pair(Name(b"A"), pdf_writer::Ref::new(2))
        .pair(Name(b"B"), pdf_writer::Ref::new(3));
    foreign.indirect(pdf_writer::Ref::new(2)).primitive(2);
    foreign
        .indirect(pdf_writer::Ref::new(3))
        .dict()
        .pair(Name(b"C"), pdf_writer::Ref::new(4))
        .pair(Name(b"D"), pdf_writer::Ref::new(1));
    foreign.indirect(pdf_writer::Ref::new(4)).primitive(4);
    foreign.indirect(pdf_writer::Ref::new(5)).primitive(5);
    let mut embedded = EmbeddedPdfChunk::new(foreign);
    embedded.pin(Ref::new(2), Ref::new(70));
    embedded.pin(Ref::new(5), Ref::new(71));
    let mut next = Ref::new(100);
    embedded.resolve(&mut next).unwrap();
    assert_eq!(next.get(), 103);
    let made = embedded.new_chunk.as_ref().unwrap();
    let refs: Vec<i32> = made.refs().map(|r| r.get()).collect();
    assert_eq!(refs, vec![100, 70, 101, 102, 71]);
    let out = text(made.as_bytes());
    assert!(out.contains("100 0 obj\n<<\n  /A 70 0 R\n  /B 101 0 R\n>>"));
    assert!(out.contains("101 0 obj\n<<\n  /C 102 0 R\n  /D 100 0 R\n>>"));
    embedded.resolve(&mut next).unwrap();
    assert_eq!(next.get(), 103);
    assert_eq!(embedded.root_ref_mappings.len(), 2);
    assert_eq!(embedded.root_ref_mappings[&2], 70);
    assert_eq!(embedded.root_ref_mappings[&5], 71);
}

#[test]
fn foreign_documents_are_brought_in_one_after_the_other() {
    let mut first = EmbeddedPdfChunk::new(pointer(1, 2));
    first.pin(Ref::new(2), Ref::new(5));
    let second = EmbeddedPdfChunk::new(object(1));
    let mut list = vec![
        Deferred::new(Ok(first)),
        Deferred::new(Err(KrillaError::Fragment("broken".to_string()))),
        Deferred::new(Ok(second)),
    ];
    let mut next = Ref::new(10);
    import_all(&mut list, &mut next).unwrap();
    assert_eq!(next.get(), 12);
    match list[0].wait() {
        Ok(e) => assert_eq!(
            text(e.new_chunk.as_ref().unwrap().as_bytes()),
            "10 0 obj\n<<\n  /To 5 0 R\n>>\nendobj\n\n"
        ),
        Err(_) => panic!("the first import is made"),
    }
    match list[2].wait() {
        Ok(e) => assert_eq!(
            text(e.new_chunk.as_ref().unwrap().as_bytes()),
            "11 0 obj\n1\nendobj\n\n"
        ),
        Err(_) => panic!("the third import is made"),
    }
}

#[test]
fn import_fails_where_the_references_run_out() {
    let mut list = vec![Deferred::new(Ok(EmbeddedPdfChunk::new(pointer(1, 2))))];
    let mut next = Ref::new(i32::MAX - 1);
    assert!(matches!(
        import_all(&mut list, &mut next),
        Err(KrillaError::OutOfReferences)
    ));
    let mut container = ChunkContainer::new();
    container.embedded_pdfs = list;
    let mut sc = context();
    sc.skip_to(Ref::new(i32::MAX - 1));
    assert!(matches!(
        container.finish(&mut sc),
        Err(KrillaError::OutOfReferences)
    ));
}

#[test]
fn embedded_document_takes_part_in_the_numbering() {
    let mut embedded = EmbeddedPdfChunk::new(pointer(1, 2));
    embedded.pin(Ref::new(2), Ref::new(40));
    let mut container = ChunkContainer::new();
    container.pages.push(Deferred::new(Ok(object(40))));
    container.embedded_pdfs.push(Deferred::new(Ok(embedded)));
    let mut sc = context();
    sc.skip_to(Ref::new(41));
    let pdf = container.finish(&mut sc).unwrap();
    assert_eq!(sc.peek_ref().get(), 42);
    assert_eq!(
        text(&pdf.as_bytes()[16..]),
        "1 0 obj\n40\nendobj\n\n2 0 obj\n<<\n  /To 1 0 R\n>>\nendobj\n\n"
    );
}

#[test]
fn header_declares_the_version_and_the_marker() {
    let mut settings = SerializeSettings::default();
    settings.pdf_version = PdfVersion::Pdf14;
    let pdf = open_pdf(&vec![], 0, settings);
    assert_eq!(pdf.as_bytes(), b"%PDF-1.4\n%\x80\x80\x80\x80\n\n");
    settings.pdf_version = PdfVersion::Pdf20;
    settings.ascii_compatible = true;
    let pdf = open_pdf(&vec![object(1), Chunk::new()], usize::MAX, settings);
    assert_eq!(pdf.as_bytes(), b"%PDF-2.0\n%AAAA\n\n1 0 obj\n1\nendobj\n\n");
    settings.validator.binary_header = true;
    let pdf = open_pdf(&vec![Chunk::new()], 10, settings);
    assert_eq!(pdf.as_bytes(), b"%PDF-2.0\n%\x80\x80\x80\x80\n\n");
}

#[test]
fn missing_title_and_language_are_findings() {
    let mut container = ChunkContainer::new();
    container.page_tree = Some((Ref::new(1), object(1)));
    let mut sc = context();
    container.finish(&mut sc).unwrap();
    assert_eq!(
        sc.validation_errors(),
        &vec![
            ValidationError::NoDocumentTitle,
            ValidationError::NoDocumentLanguage
        ]
    );
    let mut sc = context();
    ChunkContainer::new().finish(&mut sc).unwrap();
    assert_eq!(sc.validation_errors(), &vec![ValidationError::NoDocumentTitle]);
    let mut container = ChunkContainer::new();
    container.page_tree = Some((Ref::new(1), object(1)));
    let mut metadata = Metadata::new();
    metadata.title = Some("A title".to_string());
    metadata.language = Some("en".to_string());
    container.metadata = Some(metadata);
    let mut sc = context();
    let pdf = container.finish(&mut sc).unwrap();
    assert!(sc.validation_errors().is_empty());
    let out = text(&pdf.finish());
    assert!(out.contains("/Title (A title)"));
    assert!(out.contains("/Lang (en)"));
    assert!(out.contains("/Info 2 0 R"));
    assert!(out.contains("/Root 3 0 R"));
}

#[test]
fn assembling_the_same_fragments_twice_gives_the_same_bytes() {
    let build = || {
        let mut container = ChunkContainer::new();
        container.page_tree = Some((Ref::new(9), pointer(9, 4)));
        container.pages.push(Deferred::new(Ok(object(4))));
        container.fonts.push(pointer(2, 9));
        let mut metadata = Metadata::new();
        metadata.title = Some("Twice".to_string());
        metadata.authors = Some(vec!["A".to_string(), "B".to_string()]);
        container.metadata = Some(metadata);
        let mut settings = SerializeSettings::default();
        settings.xmp_metadata = true;
        let mut sc = SerializerContext::new(settings);
        container.finish(&mut sc).unwrap().finish()
    };
    let first = build();
    let second = build();
    assert_eq!(first, second);
    let out = text(&first);
    assert!(out.contains("/Author (A, B)"));
    assert!(out.contains("/Type /Metadata"));
    assert!(out.contains("<xmpTPg:NPages>1</xmpTPg:NPages>"));
    assert!(out.contains("<dc:format>application/pdf</dc:format>"));
    assert!(out.contains("<pdf:PDFVersion>1.7</pdf:PDFVersion>"));
    assert!(out.contains("/ID ["));
}

#[test]
fn text_in_a_chunk_is_not_taken_for_a_reference() {
    let mut chunk = Chunk::new();
    chunk
        .indirect(pdf_writer::Ref::new(10))
        .dict()
        .pair(Name(b"T"), TextStr("see 10 0 R"))
        .pair(Name(b"R"), pdf_writer::Ref::new(10));
    let chunks = vec![&chunk];
    let done = renumber(&chunks).unwrap();
    assert_eq!(
        text(done.pieces[0].as_bytes()),
        "1 0 obj\n<<\n  /T (see 10 0 R)\n  /R 1 0 R\n>>\nendobj\n\n"
    );
}

#[test]
fn object_that_is_lost_in_renumbering_is_a_fault() {
    let mut broken = Chunk::new();
    std::mem::forget(broken.indirect(pdf_writer::Ref::new(1)).dict());
    let whole = object(2);
    let chunks = vec![&broken, &whole];
    assert!(matches!(renumber(&chunks), Err(KrillaError::MalformedObject)));
    let mut container = ChunkContainer::new();
    container.fonts.push(whole);
    container.annotations.push(broken);
    let mut sc = context();
    assert!(matches!(
        container.finish(&mut sc),
        Err(KrillaError::MalformedObject)
    ));
}

#[test]
fn font_comes_behind_the_pages_in_the_traversal() {
    let mut container = ChunkContainer::new();
    container.fonts.push(object(2));
    container.pages.push(Deferred::new(Ok(object(1))));
    let found = container.visit().unwrap();
    let firsts: Vec<i32> = found
        .iter()
        .map(|chunk| chunk.refs().next().unwrap().get())
        .collect();
    assert_eq!(firsts, vec![1, 2]);
}

#[test]
fn failed_fragment_comes_before_the_failure_of_a_later_import() {
    let mut foreign = Chunk::new();
    foreign.indirect(pdf_writer::Ref::new(1)).primitive(1);
    let mut container = ChunkContainer::new();
    container
        .embedded_pdfs
        .push(Deferred::new(Ok(EmbeddedPdfChunk::new(foreign))));
    container
        .x_objects
        .push(Deferred::new(Err(KrillaError::StreamTooLong)));
    let mut sc = context();
    sc.skip_to(Ref::new(i32::MAX));
    match container.finish(&mut sc) {
        Err(KrillaError::StreamTooLong) => {}
        _ => panic!("the fragment fails before the import is tried"),
    }
    assert_eq!(sc.peek_ref().get(), i32::MAX);
}

#[test]
fn document_that_failed_to_be_made_comes_before_a_later_import() {
    let mut foreign = Chunk::new();
    foreign.indirect(pdf_writer::Ref::new(1)).primitive(1);
    let mut container = ChunkContainer::new();
    container
        .embedded_pdfs
        .push(Deferred::new(Err(KrillaError::Fragment("broken".to_string()))));
    container
        .embedded_pdfs
        .push(Deferred::new(Ok(EmbeddedPdfChunk::new(foreign))));
    let mut sc = context();
    sc.skip_to(Ref::new(i32::MAX));
    match container.finish(&mut sc) {
        Err(KrillaError::Fragment(message)) => assert_eq!(message, "broken"),
        _ => panic!("the first failure in the order of the traversal is returned"),
    }
}
