use krilla::configure::SerializeSettings;
use krilla::document::Document;
use krilla::metadata::{DateTime, Metadata, PdfSig};
use krilla::signature::{
    placeholder, prepare, sign, Mark, BYTE_RANGE_MARK, BYTE_RANGE_WIDTH, CONTENTS_WIDTH,
    SIGNATURE_LEN,
};

fn contents_mark() -> Vec<u8> {
    let mut mark = b"<BEEFFACE".to_vec();
    mark.resize(CONTENTS_WIDTH - 1, b'0');
    mark.push(b'>');
    mark
}

fn unsigned_file() -> Vec<u8> {
    let mut file = b"head /Contents ".to_vec();
    file.extend(contents_mark());
    file.extend(b" /ByteRange [88888888 88888888 88888888 88888888] tail");
    file
}

#[test]
fn placeholder_starts_with_its_mark_and_goes_on_with_zeros() {
    let contents = placeholder();
    assert_eq!(contents.len(), 11110);
    assert_eq!(SIGNATURE_LEN, 11110);
    assert_eq!(&contents[..4], &[190, 239, 250, 206]);
    assert!(contents[4..].iter().all(|b| *b == 0));
    assert_eq!(BYTE_RANGE_MARK, 88888888);
    assert_eq!(CONTENTS_WIDTH, 22222);
    assert_eq!(BYTE_RANGE_WIDTH, 37);
}

#[test]
fn marks_are_what_pdf_writer_writes_for_the_placeholders() {
    let mut chunk = pdf_writer::Chunk::new();
    chunk
        .indirect(pdf_writer::Ref::new(1))
        .primitive(pdf_writer::Str(&placeholder()));
    let written = chunk.as_bytes();
    assert_eq!(Mark::Contents.find(written), Some(8));
    assert_eq!(&written[8..8 + CONTENTS_WIDTH], contents_mark().as_slice());
    let mut chunk = pdf_writer::Chunk::new();
    chunk.indirect(pdf_writer::Ref::new(1)).array().items([
        BYTE_RANGE_MARK,
        BYTE_RANGE_MARK,
        BYTE_RANGE_MARK,
        BYTE_RANGE_MARK,
    ]);
    assert_eq!(Mark::ByteRange.find(chunk.as_bytes()), Some(8));
    assert_eq!(Mark::ByteRange.width(), 37);
    assert_eq!(Mark::Contents.width(), 22222);
}

#[test]
fn marks_are_found_at_their_first_place() {
    let file = unsigned_file();
    assert_eq!(Mark::Contents.find(&file), Some(15));
    assert_eq!(Mark::ByteRange.find(&file), Some(15 + 22222 + 12));
    assert_eq!(Mark::Contents.find(b"<BEEFFACE00>"), None);
    assert_eq!(Mark::ByteRange.find(b""), None);
    let mut twice = b"[88888888 88888888 88888888 88888888]".to_vec();
    twice.extend(b"[88888888 88888888 88888888 88888888]");
    assert_eq!(Mark::ByteRange.find(&twice), Some(0));
    assert_eq!(Mark::ByteRange.find(&twice[1..]), Some(36));
}

#[test]
fn byte_range_points_at_the_bytes_around_the_signature() {
    let file = unsigned_file();
    let len = file.len();
    let unsigned = prepare(file.clone()).unwrap();
    assert_eq!(unsigned.contents, 15);
    assert_eq!(unsigned.range.first_start, 0);
    assert_eq!(unsigned.range.first_len, 15);
    assert_eq!(unsigned.range.second_start, 15 + 22222);
    assert_eq!(unsigned.range.second_len, len - 15 - 22222);
    assert_eq!(unsigned.file.len(), len);
    let at = 15 + 22222 + 12;
    assert_eq!(
        &unsigned.file[at..at + 37],
        b"[0 15 22237 54                      ]"
    );
    assert_eq!(&unsigned.file[..at], &file[..at]);
    assert_eq!(&unsigned.file[at + 37..], &file[at + 37..]);
}

#[test]
fn signature_is_written_in_place() {
    let unsigned = prepare(unsigned_file()).unwrap();
    let before = unsigned.file.clone();
    let range = unsigned.range;
    let (signed, done) = sign(unsigned, &[0xde, 0xad, 0xbe, 0xef, 0x01]);
    assert!(done);
    assert_eq!(signed.len(), before.len());
    assert_eq!(&signed[15..26], b"<DEADBEEF01");
    assert!(signed[26..15 + 22221].iter().all(|b| *b == b'0'));
    assert_eq!(signed[15 + 22221], b'>');
    assert_eq!(&signed[..range.first_len], &before[..range.first_len]);
    assert_eq!(&signed[range.second_start..], &before[range.second_start..]);
    assert_eq!(range.second_start + range.second_len, signed.len());
}

#[test]
fn signature_that_is_too_long_leaves_the_file_as_it_is() {
    let unsigned = prepare(unsigned_file()).unwrap();
    let before = unsigned.file.clone();
    let (same, done) = sign(unsigned, &vec![1u8; SIGNATURE_LEN + 1]);
    assert!(!done);
    assert_eq!(same, before);
    let unsigned = prepare(unsigned_file()).unwrap();
    let (full, done) = sign(unsigned, &vec![0xabu8; SIGNATURE_LEN]);
    assert!(done);
    assert!(full[16..15 + 22221].chunks(2).all(|pair| pair == b"AB"));
}

#[test]
fn file_without_marks_cannot_be_prepared() {
    assert!(prepare(b"%PDF-1.7".to_vec()).is_none());
    assert!(prepare(contents_mark()).is_none());
    assert!(prepare(b"[88888888 88888888 88888888 88888888]".to_vec()).is_none());
}

#[test]
fn signed_document_keeps_its_length() {
    let mut document = Document::new_with(SerializeSettings::default());
    let mut metadata = Metadata::new();
    metadata.title = Some("Signed".to_string());
    metadata.language = Some("en".to_string());
    metadata.creation_date = Some(DateTime::new(2024));
    document.set_metadata(metadata);
    document.set_signer(PdfSig {
        name: "A signer".to_string(),
        location: "Somewhere".to_string(),
        reason: "Approval".to_string(),
        contact_info: "signer@example.org".to_string(),
    });
    let file = document.finish().unwrap();
    let text = String::from_utf8_lossy(&file).into_owned();
    assert!(text.contains("/Type /Sig"));
    assert!(text.contains("/Filter /Adobe.PPKLite"));
    assert!(text.contains("/SubFilter /adbe.pkcs7.detached"));
    assert!(text.contains("/M (D:2024)"));
    assert!(text.contains("/Name (A signer)"));
    assert!(text.contains("/Location (Somewhere)"));
    assert!(text.contains("/Reason (Approval)"));
    assert!(text.contains("/ContactInfo (signer@example.org)"));
    assert!(text.contains("/ByteRange [88888888 88888888 88888888 88888888]"));
    assert!(text.contains("/Contents <BEEFFACE0000"));
    assert!(text.contains("/SigFlags 3"));
    assert!(text.contains("/Perms <<\n    /DocMDP 7 0 R\n  >>"));
    assert!(text.contains("/Fields [6 0 R]"));
    assert!(text.contains("/FT /Sig"));
    assert!(text.contains("/Rect [0 0 0 0]"));
    assert!(text.contains("/TransformMethod /DocMDP"));
    assert!(text.contains("/Data 5 0 R"));
    let unsigned = prepare(file.clone()).unwrap();
    let range = unsigned.range;
    let (signed, done) = sign(unsigned, b"not a real signature");
    assert!(done);
    assert_eq!(signed.len(), file.len());
    assert_eq!(range.first_len, file.iter().position(|b| *b == b'<' ).map(|_| range.first_len).unwrap());
    assert_eq!(&signed[range.first_len..range.first_len + 9], b"<6E6F7420");
    assert_eq!(signed[range.second_start - 1], b'>');
    assert_eq!(range.second_start + range.second_len, file.len());
    let shown = String::from_utf8_lossy(&signed).into_owned();
    let expected = format!(
        "/ByteRange [0 {} {} {}",
        range.first_len, range.second_start, range.second_len
    );
    assert!(shown.contains(&expected));
    assert!(!shown.contains("88888888"));
    assert!(!shown.contains("BEEFFACE"));
}
