//! The boundary to the `xmp_writer` crate, which writes the metadata stream.
//!
//! An `XmpWriter` collects the properties it is given and makes one packet
//! of them in the end. The contracts speak of the properties written so far,
//! in the order of the calls, and of the packet as what the crate makes of them.
use vstd::prelude::*;

verus! {

/// `xmp_writer::XmpWriter`: the writer of a metadata packet.
#[verifier::external_type_specification]
#[verifier::external_body]
pub struct ExXmpWriter<'n>(xmp_writer::XmpWriter<'n>);

/// A property of the metadata stream.
pub enum XmpProperty {
    /// The number of pages.
    NumPages(u32),
    /// The format of the document, as a MIME type.
    Format(Seq<char>),
    /// The identifier of this version of the document.
    InstanceId(Seq<u8>),
    /// The identifier of the document in all its versions.
    DocumentId(Seq<u8>),
    /// That the document is a proof copy.
    RenditionClassProof,
    /// The version of PDF.
    PdfVersion(Seq<char>),
    /// The part of PDF/A that the document conforms to.
    PdfaPart(i32),
}

/// The properties written into a writer so far, in the order of the calls.
pub uninterp spec fn xmp_properties(xmp: xmp_writer::XmpWriter<'static>) -> Seq<XmpProperty>;

/// The packet that `XmpWriter::finish` makes of the properties written.
pub uninterp spec fn xmp_packet(properties: Seq<XmpProperty>) -> Seq<u8>;

/// Every byte of the text is an ASCII character.
pub open spec fn is_ascii(text: Seq<u8>) -> bool {
    forall|i: int| 0 <= i < text.len() ==> #[trigger] text[i] < 128
}

/// Calls `XmpWriter::new`: a writer without properties.
#[verifier::external_body]
pub(crate) fn xmp_new() -> (xmp: xmp_writer::XmpWriter<'static>)
    ensures
        xmp_properties(xmp) == Seq::<XmpProperty>::empty(),
{
    xmp_writer::XmpWriter::new()
}

/// Calls `XmpWriter::num_pages`.
#[verifier::external_body]
pub(crate) fn xmp_num_pages(xmp: &mut xmp_writer::XmpWriter<'static>, pages: u32)
    ensures
        xmp_properties(*final(xmp)) == xmp_properties(*old(xmp)).push(XmpProperty::NumPages(pages)),
{
    xmp.num_pages(pages);
}

/// Calls `XmpWriter::format`.
#[verifier::external_body]
pub(crate) fn xmp_format(xmp: &mut xmp_writer::XmpWriter<'static>, mime: &str)
    ensures
        xmp_properties(*final(xmp)) == xmp_properties(*old(xmp)).push(XmpProperty::Format(mime@)),
{
    xmp.format(mime);
}

/// Calls `XmpWriter::instance_id` with the ASCII text as a string.
#[verifier::external_body]
pub(crate) fn xmp_instance_id(xmp: &mut xmp_writer::XmpWriter<'static>, id: &[u8])
    requires
        is_ascii(id@),
    ensures
        xmp_properties(*final(xmp)) == xmp_properties(*old(xmp)).push(XmpProperty::InstanceId(id@)),
{
    xmp.instance_id(&String::from_utf8_lossy(id));
}

/// Calls `XmpWriter::document_id` with the ASCII text as a string.
#[verifier::external_body]
pub(crate) fn xmp_document_id(xmp: &mut xmp_writer::XmpWriter<'static>, id: &[u8])
    requires
        is_ascii(id@),
    ensures
        xmp_properties(*final(xmp)) == xmp_properties(*old(xmp)).push(XmpProperty::DocumentId(id@)),
{
    xmp.document_id(&String::from_utf8_lossy(id));
}

/// Calls `XmpWriter::rendition_class` with the class of a proof copy.
#[verifier::external_body]
pub(crate) fn xmp_rendition_class_proof(xmp: &mut xmp_writer::XmpWriter<'static>)
    ensures
        xmp_properties(*final(xmp)) == xmp_properties(*old(xmp)).push(
            XmpProperty::RenditionClassProof,
        ),
{
    xmp.rendition_class(xmp_writer::RenditionClass::Proof);
}

/// Calls `XmpWriter::pdf_version`.
#[verifier::external_body]
pub(crate) fn xmp_pdf_version(xmp: &mut xmp_writer::XmpWriter<'static>, version: &str)
    ensures
        xmp_properties(*final(xmp)) == xmp_properties(*old(xmp)).push(
            XmpProperty::PdfVersion(version@),
        ),
{
    xmp.pdf_version(version);
}

/// Calls `XmpWriter::pdfa_part`.
#[verifier::external_body]
pub(crate) fn xmp_pdfa_part(xmp: &mut xmp_writer::XmpWriter<'static>, part: i32)
    ensures
        xmp_properties(*final(xmp)) == xmp_properties(*old(xmp)).push(XmpProperty::PdfaPart(part)),
{
    xmp.pdfa_part(part);
}

/// Calls `XmpWriter::finish` with no subject and returns the bytes of the packet.
#[verifier::external_body]
pub(crate) fn xmp_finish(xmp: xmp_writer::XmpWriter<'static>) -> (packet: Vec<u8>)
    ensures
        packet@ == xmp_packet(xmp_properties(xmp)),
{
    xmp.finish(None).into_bytes()
}

/// The properties that the metadata stream of a document holds: the number of
/// pages, the format, the two identifiers, the class of a proof copy, the
/// version of PDF and, where the profile names one, the part of PDF/A.
pub open spec fn document_properties(
    pages: u32,
    instance_id: Seq<u8>,
    document_id: Seq<u8>,
    version: Seq<char>,
    pdfa_part: Option<i32>,
) -> Seq<XmpProperty> {
    let head = match pdfa_part {
        Some(part) => seq![XmpProperty::PdfaPart(part)],
        None => Seq::empty(),
    };
    head + seq![
        XmpProperty::NumPages(pages),
        XmpProperty::Format("application/pdf"@),
        XmpProperty::InstanceId(instance_id),
        XmpProperty::DocumentId(document_id),
        XmpProperty::RenditionClassProof,
        XmpProperty::PdfVersion(version),
    ]
}

/// The packet of the metadata stream of a document.
pub fn document_packet(
    pages: u32,
    instance_id: &[u8],
    document_id: &[u8],
    version: &str,
    pdfa_part: Option<i32>,
) -> (packet: Vec<u8>)
    requires
        is_ascii(instance_id@),
        is_ascii(document_id@),
    ensures
        packet@ == xmp_packet(
            document_properties(pages, instance_id@, document_id@, version@, pdfa_part),
        ),
{
    let mut xmp = xmp_new();
    if let Some(part) = pdfa_part {
        xmp_pdfa_part(&mut xmp, part);
    }
    xmp_num_pages(&mut xmp, pages);
    xmp_format(&mut xmp, "application/pdf");
    xmp_instance_id(&mut xmp, instance_id);
    xmp_document_id(&mut xmp, document_id);
    xmp_rendition_class_proof(&mut xmp);
    xmp_pdf_version(&mut xmp, version);
    assert(xmp_properties(xmp) =~= document_properties(
        pages,
        instance_id@,
        document_id@,
        version@,
        pdfa_part,
    ));
    xmp_finish(xmp)
}

} // verus!
