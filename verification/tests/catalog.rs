use krilla::catalog::{
    join, lookup_all, plan_catalog, sort_by_target, write_catalog, write_document_info,
    write_metadata,
};
use krilla::chunk_container::ChunkContainer;
use krilla::configure::{EmbeddedFiles, PdfVersion, SerializeSettings, Validator};
use krilla::error::KrillaError;
use krilla::metadata::{DateTime, Metadata, PageLayout, TextDirection};
use krilla::reference::Ref;
use krilla::remap::RefTable;
use krilla::xmp::document_packet;
use pdf_writer::Chunk;
use std::collections::HashMap;

fn table(pairs: &[(i32, i32)]) -> RefTable {
    let mut entries = HashMap::new();
    for (old, new) in pairs {
        entries.insert(*old, *new);
    }
    RefTable::fixed(entries)
}

fn text(bytes: &[u8]) -> String {
    String::from_utf8_lossy(bytes).into_owned()
}

fn named(name: &str, id: i32) -> (String, Ref) {
    (name.to_string(), Ref::new(id))
}

#[test]
fn no_catalog_without_a_structural_fragment() {
    let container = ChunkContainer::new();
    let mut next = Ref::new(5);
    let plan = plan_catalog(
        &container,
        &table(&[]),
        &SerializeSettings::default(),
        true,
        &vec![],
        &vec![],
        &mut next,
    )
    .unwrap();
    assert!(plan.is_none());
    assert_eq!(next.get(), 5);
}

#[test]
fn catalog_declares_what_is_present() {
    let mut container = ChunkContainer::new();
    container.page_tree = Some((Ref::new(10), Chunk::new()));
    container.outline = Some((Ref::new(11), Chunk::new()));
    let mut next = Ref::new(3);
    let plan = plan_catalog(
        &container,
        &table(&[(10, 1), (11, 2)]),
        &SerializeSettings::default(),
        false,
        &vec![],
        &vec![],
        &mut next,
    )
    .unwrap()
    .unwrap();
    assert_eq!(next.get(), 4);
    assert_eq!(plan.catalog.get(), 3);
    assert!(plan.metadata.is_none());
    assert_eq!(plan.pages.unwrap().get(), 1);
    assert_eq!(plan.outlines.unwrap().get(), 2);
    assert!(plan.page_labels.is_none());
    assert!(plan.output_intents.is_none());
    assert!(plan.struct_tree_root.is_none());
    assert!(!plan.suspects);
    assert!(plan.lang.is_none());
    assert!(plan.destinations.is_empty());
    assert!(plan.embedded_files.is_none());
    assert!(plan.associated_files.is_empty());
    assert!(plan.signature.is_none());
    let mut pdf = pdf_writer::Pdf::new();
    write_catalog(&mut pdf, &plan);
    assert_eq!(
        text(&pdf.as_bytes()[16..]),
        "3 0 obj\n<<\n  /Type /Catalog\n  /Pages 1 0 R\n  /Outlines 2 0 R\n>>\nendobj\n\n"
    );
}

#[test]
fn catalog_with_everything() {
    let mut container = ChunkContainer::new();
    container.page_tree = Some((Ref::new(10), Chunk::new()));
    container.outline = Some((Ref::new(11), Chunk::new()));
    container.page_label_tree = Some((Ref::new(12), Chunk::new()));
    container.destination_profiles = Some((Ref::new(13), Chunk::new()));
    container.struct_tree_root = Some((Ref::new(14), Chunk::new()));
    let mut metadata = Metadata::new();
    metadata.language = Some("de".to_string());
    metadata.text_direction = Some(TextDirection::RightToLeft);
    metadata.page_layout = Some(PageLayout::TwoPageRight);
    metadata.creation_date = Some(DateTime::new(2020));
    container.metadata = Some(metadata);
    let mut settings = SerializeSettings::default();
    settings.xmp_metadata = true;
    settings.validator = Validator {
        binary_header: false,
        display_doc_title: true,
        embedded_files: EmbeddedFiles::Allowed,
        associated_files: true,
        pdfa_part: Some(3),
    };
    let destinations = vec![named("chapter", 15), named("intro", 16)];
    let files = vec![named("a.txt", 17), named("b.txt", 18)];
    let mut next = Ref::new(20);
    let plan = plan_catalog(
        &container,
        &table(&[(10, 1), (11, 2), (12, 3), (13, 4), (14, 5), (15, 6), (16, 7), (17, 8), (18, 9)]),
        &settings,
        true,
        &destinations,
        &files,
        &mut next,
    )
    .unwrap()
    .unwrap();
    assert_eq!(next.get(), 24);
    assert_eq!(plan.metadata.unwrap().get(), 20);
    assert_eq!(plan.catalog.get(), 21);
    let signature = plan.signature.unwrap();
    assert_eq!(signature.widget.get(), 22);
    assert_eq!(signature.signature.get(), 23);
    assert!(plan.suspects);
    let mut pdf = pdf_writer::Pdf::new();
    write_catalog(&mut pdf, &plan);
    assert_eq!(
        text(&pdf.as_bytes()[16..]),
        "21 0 obj\n<<\n  /Type /Catalog\n  /Pages 1 0 R\n  /Metadata 20 0 R\n  /PageLabels 3 0 R\n  /OutputIntents 4 0 R\n  /Lang (de)\n  /StructTreeRoot 5 0 R\n  /MarkInfo <<\n    /Marked true\n    /Suspects false\n  >>\n  /ViewerPreferences <<\n    /DisplayDocTitle true\n    /Direction /R2L\n  >>\n  /PageLayout /TwoPageRight\n  /Outlines 2 0 R\n  /Names <<\n    /Dests <<\n      /Names [(chapter) 6 0 R (intro) 7 0 R]\n    >>\n    /EmbeddedFiles <<\n      /Names [(a.txt) 8 0 R (b.txt) 9 0 R]\n    >>\n  >>\n  /AF [8 0 R 9 0 R]\n  /Perms <<\n    /DocMDP 23 0 R\n  >>\n  /AcroForm <<\n    /SigFlags 3\n    /Fields [22 0 R]\n  >>\n>>\nendobj\n\n"
    );
}

#[test]
fn suspects_are_declared_from_version_16_up_to_17() {
    let mut container = ChunkContainer::new();
    container.struct_tree_root = Some((Ref::new(1), Chunk::new()));
    let expect = [
        (PdfVersion::Pdf14, false),
        (PdfVersion::Pdf15, false),
        (PdfVersion::Pdf16, true),
        (PdfVersion::Pdf17, true),
        (PdfVersion::Pdf20, false),
    ];
    for (version, suspects) in expect {
        let mut settings = SerializeSettings::default();
        settings.pdf_version = version;
        let mut next = Ref::new(2);
        let plan = plan_catalog(
            &container,
            &table(&[(1, 1)]),
            &settings,
            false,
            &vec![],
            &vec![],
            &mut next,
        )
        .unwrap()
        .unwrap();
        assert_eq!(plan.suspects, suspects);
        assert_eq!(plan.struct_tree_root.unwrap().get(), 1);
    }
}

#[test]
fn two_page_layouts_need_version_15() {
    let mut container = ChunkContainer::new();
    container.page_tree = Some((Ref::new(1), Chunk::new()));
    let plan_for = |version, layout| {
        let mut container = ChunkContainer::new();
        container.page_tree = Some((Ref::new(1), Chunk::new()));
        let mut metadata = Metadata::new();
        metadata.page_layout = Some(layout);
        container.metadata = Some(metadata);
        let mut settings = SerializeSettings::default();
        settings.pdf_version = version;
        let mut next = Ref::new(2);
        plan_catalog(
            &container,
            &table(&[(1, 1)]),
            &settings,
            false,
            &vec![],
            &vec![],
            &mut next,
        )
        .unwrap()
        .unwrap()
        .page_layout
    };
    assert_eq!(plan_for(PdfVersion::Pdf14, PageLayout::TwoPageLeft), None);
    assert_eq!(plan_for(PdfVersion::Pdf14, PageLayout::TwoPageRight), None);
    assert_eq!(
        plan_for(PdfVersion::Pdf14, PageLayout::TwoColumnLeft),
        Some(PageLayout::TwoColumnLeft)
    );
    assert_eq!(
        plan_for(PdfVersion::Pdf15, PageLayout::TwoPageLeft),
        Some(PageLayout::TwoPageLeft)
    );
    assert_eq!(
        plan_for(PdfVersion::Pdf20, PageLayout::SinglePage),
        Some(PageLayout::SinglePage)
    );
    assert!(container.metadata.is_none());
}

#[test]
fn embedded_files_are_declared_as_the_profile_says() {
    let plan_for = |policy, associated, files: Vec<(String, Ref)>| {
        let mut container = ChunkContainer::new();
        container.page_tree = Some((Ref::new(1), Chunk::new()));
        let mut settings = SerializeSettings::default();
        settings.validator.embedded_files = policy;
        settings.validator.associated_files = associated;
        let mut next = Ref::new(9);
        plan_catalog(
            &container,
            &table(&[(1, 1), (2, 2)]),
            &settings,
            false,
            &vec![],
            &files,
            &mut next,
        )
        .unwrap()
        .unwrap()
    };
    let one = || vec![named("f", 2)];
    let plan = plan_for(EmbeddedFiles::Forbidden, false, one());
    assert!(plan.embedded_files.is_none());
    assert!(plan.associated_files.is_empty());
    let plan = plan_for(EmbeddedFiles::Forbidden, true, one());
    assert!(plan.embedded_files.is_none());
    assert_eq!(plan.associated_files, vec![Ref::new(2)]);
    let plan = plan_for(EmbeddedFiles::Allowed, false, one());
    assert_eq!(plan.embedded_files, Some(one()));
    let plan = plan_for(EmbeddedFiles::Allowed, false, vec![]);
    assert!(plan.embedded_files.is_none());
    let plan = plan_for(EmbeddedFiles::Required, true, vec![]);
    assert_eq!(plan.embedded_files, Some(vec![]));
    assert!(plan.associated_files.is_empty());
    let mut pdf = pdf_writer::Pdf::new();
    write_catalog(&mut pdf, &plan);
    assert!(text(pdf.as_bytes()).contains("/Names <<\n    /EmbeddedFiles <<\n      /Names []\n    >>\n  >>"));
}

#[test]
fn catalog_fails_on_a_reference_without_a_number() {
    let mut container = ChunkContainer::new();
    container.page_tree = Some((Ref::new(1), Chunk::new()));
    container.outline = Some((Ref::new(2), Chunk::new()));
    let mut next = Ref::new(9);
    let result = plan_catalog(
        &container,
        &table(&[(1, 1)]),
        &SerializeSettings::default(),
        false,
        &vec![named("d", 3)],
        &vec![],
        &mut next,
    );
    assert!(matches!(result, Err(KrillaError::UnknownReference(2))));
    let result = lookup_all(
        &container,
        &table(&[(1, 1), (2, 2)]),
        &vec![named("d", 3), named("e", 4)],
        &vec![named("f", 5)],
        true,
    );
    assert!(matches!(result, Err(KrillaError::UnknownReference(3))));
    let found = lookup_all(
        &container,
        &table(&[(1, 1), (2, 2), (3, 7)]),
        &vec![named("d", 3)],
        &vec![named("f", 5)],
        false,
    )
    .unwrap();
    assert_eq!(found.named, vec![named("d", 7)]);
    assert!(found.files.is_empty());
}

#[test]
fn catalog_fails_where_the_references_run_out() {
    let mut container = ChunkContainer::new();
    container.page_tree = Some((Ref::new(1), Chunk::new()));
    let mut settings = SerializeSettings::default();
    settings.xmp_metadata = true;
    let mut next = Ref::new(i32::MAX - 1);
    let result = plan_catalog(
        &container,
        &table(&[(1, 1)]),
        &settings,
        false,
        &vec![],
        &vec![],
        &mut next,
    );
    assert!(matches!(result, Err(KrillaError::OutOfReferences)));
    let mut next = Ref::new(i32::MAX - 2);
    let plan = plan_catalog(
        &container,
        &table(&[(1, 1)]),
        &settings,
        false,
        &vec![],
        &vec![],
        &mut next,
    )
    .unwrap()
    .unwrap();
    assert_eq!(plan.catalog.get(), i32::MAX - 1);
    assert_eq!(next.get(), i32::MAX);
}

#[test]
fn named_objects_are_ordered_by_their_references() {
    let list = vec![named("c", 30), named("a", 10), named("b", 20), named("a2", 10)];
    assert_eq!(
        sort_by_target(&list),
        vec![named("a", 10), named("a2", 10), named("b", 20), named("c", 30)]
    );
    assert_eq!(sort_by_target(&vec![]), vec![]);
    let sorted = vec![named("x", 1), named("y", 2)];
    assert_eq!(sort_by_target(&sorted), sorted);
}

#[test]
fn authors_are_joined_with_commas() {
    assert_eq!(join(&vec![]), "");
    assert_eq!(join(&vec!["A".to_string()]), "A");
    assert_eq!(
        join(&vec!["A".to_string(), "B C".to_string(), "D".to_string()]),
        "A, B C, D"
    );
}

#[test]
fn document_information_holds_title_authors_and_date() {
    let mut metadata = Metadata::new();
    metadata.title = Some("T".to_string());
    metadata.authors = Some(vec!["X".to_string(), "Y".to_string()]);
    let mut date = DateTime::new(2001);
    date.month = Some(2);
    metadata.creation_date = Some(date);
    let mut pdf = pdf_writer::Pdf::new();
    write_document_info(&mut pdf, Ref::new(4), &metadata);
    assert_eq!(
        text(&pdf.as_bytes()[16..]),
        "4 0 obj\n<<\n  /Title (T)\n  /Author (X, Y)\n  /CreationDate (D:200102)\n>>\nendobj\n\n"
    );
    let mut pdf = pdf_writer::Pdf::new();
    write_metadata(&mut pdf, Ref::new(2), &b"<x/>".to_vec());
    assert_eq!(
        text(&pdf.as_bytes()[16..]),
        "2 0 obj\n<<\n  /Length 4\n  /Type /Metadata\n  /Subtype /XML\n>>\nstream\n<x/>\nendstream\nendobj\n\n"
    );
}

#[test]
fn metadata_packet_holds_the_properties_of_the_document() {
    let packet = text(&document_packet(12, b"aW5zdGFuY2U=", b"ZG9jdW1lbnQ=", "1.6", Some(2)));
    assert!(packet.starts_with("<?xpacket begin="));
    assert!(packet.contains("<pdfaid:part>2</pdfaid:part>"));
    assert!(packet.contains("<xmpTPg:NPages>12</xmpTPg:NPages>"));
    assert!(packet.contains("<dc:format>application/pdf</dc:format>"));
    assert!(packet.contains("<xmpMM:InstanceID>aW5zdGFuY2U=</xmpMM:InstanceID>"));
    assert!(packet.contains("<xmpMM:DocumentID>ZG9jdW1lbnQ=</xmpMM:DocumentID>"));
    assert!(packet.contains("<xmpMM:RenditionClass>proof</xmpMM:RenditionClass>"));
    assert!(packet.contains("<pdf:PDFVersion>1.6</pdf:PDFVersion>"));
    let plain = text(&document_packet(1, b"a", b"b", "2.0", None));
    assert!(!plain.contains("pdfaid"));
    let part = packet.find("pdfaid:part").unwrap();
    let pages = packet.find("xmpTPg:NPages").unwrap();
    let version = packet.find("pdf:PDFVersion").unwrap();
    assert!(part < pages && pages < version);
}
