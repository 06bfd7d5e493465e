//! What a document is written for: the PDF version, the conformance profile
//! and the switches of the serializer.
use vstd::prelude::*;

verus! {

/// The version of PDF that a document declares.
#[derive(Clone, Copy, Debug, PartialEq, Eq, Structural)]
pub enum PdfVersion {
    /// PDF 1.4.
    Pdf14,
    /// PDF 1.5.
    Pdf15,
    /// PDF 1.6.
    Pdf16,
    /// PDF 1.7.
    Pdf17,
    /// PDF 2.0.
    Pdf20,
}

impl PdfVersion {
    /// The major number of the version.
    pub open spec fn spec_major(self) -> u8 {
        match self {
            PdfVersion::Pdf20 => 2,
            _ => 1,
        }
    }

    /// The minor number of the version.
    pub open spec fn spec_minor(self) -> u8 {
        match self {
            PdfVersion::Pdf14 => 4,
            PdfVersion::Pdf15 => 5,
            PdfVersion::Pdf16 => 6,
            PdfVersion::Pdf17 => 7,
            PdfVersion::Pdf20 => 0,
        }
    }

    /// The major number of the version.
    #[verifier::when_used_as_spec(spec_major)]
    pub fn major(self) -> (n: u8)
        ensures
            n == self.spec_major(),
    {
        match self {
            PdfVersion::Pdf20 => 2,
            _ => 1,
        }
    }

    /// The minor number of the version.
    #[verifier::when_used_as_spec(spec_minor)]
    pub fn minor(self) -> (n: u8)
        ensures
            n == self.spec_minor(),
    {
        match self {
            PdfVersion::Pdf14 => 4,
            PdfVersion::Pdf15 => 5,
            PdfVersion::Pdf16 => 6,
            PdfVersion::Pdf17 => 7,
            PdfVersion::Pdf20 => 0,
        }
    }

    /// Whether this version is `other` or a later one.
    pub open spec fn spec_at_least(self, other: PdfVersion) -> bool {
        self.spec_major() > other.spec_major() || (self.spec_major() == other.spec_major()
            && self.spec_minor() >= other.spec_minor())
    }

    /// Whether this version is `other` or a later one.
    #[verifier::when_used_as_spec(spec_at_least)]
    pub fn at_least(self, other: PdfVersion) -> (b: bool)
        ensures
            b == self.spec_at_least(other),
    {
        self.major() > other.major() || (self.major() == other.major() && self.minor()
            >= other.minor())
    }

    /// The name of the version, as it stands in the header of a file.
    pub fn as_str(self) -> (name: &'static str)
        ensures
            name@ == match self {
                PdfVersion::Pdf14 => "PDF-1.4"@,
                PdfVersion::Pdf15 => "PDF-1.5"@,
                PdfVersion::Pdf16 => "PDF-1.6"@,
                PdfVersion::Pdf17 => "PDF-1.7"@,
                PdfVersion::Pdf20 => "PDF-2.0"@,
            },
    {
        match self {
            PdfVersion::Pdf14 => "PDF-1.4",
            PdfVersion::Pdf15 => "PDF-1.5",
            PdfVersion::Pdf16 => "PDF-1.6",
            PdfVersion::Pdf17 => "PDF-1.7",
            PdfVersion::Pdf20 => "PDF-2.0",
        }
    }

    /// The number of the version, as the metadata stream declares it.
    pub fn number(self) -> (name: &'static str)
        ensures
            name@ == match self {
                PdfVersion::Pdf14 => "1.4"@,
                PdfVersion::Pdf15 => "1.5"@,
                PdfVersion::Pdf16 => "1.6"@,
                PdfVersion::Pdf17 => "1.7"@,
                PdfVersion::Pdf20 => "2.0"@,
            },
    {
        match self {
            PdfVersion::Pdf14 => "1.4",
            PdfVersion::Pdf15 => "1.5",
            PdfVersion::Pdf16 => "1.6",
            PdfVersion::Pdf17 => "1.7",
            PdfVersion::Pdf20 => "2.0",
        }
    }
}

/// What a conformance profile says about embedded files.
#[derive(Clone, Copy, Debug, PartialEq, Eq, Structural)]
pub enum EmbeddedFiles {
    /// The document must not declare embedded files.
    Forbidden,
    /// The document declares the embedded files it has.
    Allowed,
    /// The document declares embedded files even where it has none.
    Required,
}

/// A conformance profile: the rules on the structure of the output that a
/// standard such as PDF/A or PDF/UA imposes.
#[derive(Clone, Copy, Debug, PartialEq, Eq, Structural)]
pub struct Validator {
    /// The profile itself demands the binary comment in the header.
    pub binary_header: bool,
    /// Viewers are to show the document's title in their window.
    pub display_doc_title: bool,
    /// What the profile says about embedded files.
    pub embedded_files: EmbeddedFiles,
    /// Embedded files may also be listed as files associated with the document.
    pub associated_files: bool,
    /// The part of PDF/A that the metadata stream declares, if any.
    pub pdfa_part: Option<i32>,
}

impl Validator {
    /// The profile that demands nothing.
    pub fn none() -> (v: Validator)
        ensures
            v == (Validator {
                binary_header: false,
                display_doc_title: false,
                embedded_files: EmbeddedFiles::Allowed,
                associated_files: false,
                pdfa_part: None,
            }),
    {
        Validator {
            binary_header: false,
            display_doc_title: false,
            embedded_files: EmbeddedFiles::Allowed,
            associated_files: false,
            pdfa_part: None,
        }
    }

    /// Whether the profile itself demands the binary comment in the header.
    pub fn requires_binary_header(&self) -> (b: bool)
        ensures
            b == self.binary_header,
    {
        self.binary_header
    }

    /// Whether viewers are to show the document's title.
    pub fn requires_display_doc_title(&self) -> (b: bool)
        ensures
            b == self.display_doc_title,
    {
        self.display_doc_title
    }

    /// Whether the catalog declares embedded files, given whether there are none.
    pub open spec fn spec_write_embedded_files(&self, files_empty: bool) -> bool {
        match self.embedded_files {
            EmbeddedFiles::Forbidden => false,
            EmbeddedFiles::Allowed => !files_empty,
            EmbeddedFiles::Required => true,
        }
    }

    /// Whether the catalog declares embedded files, given whether there are none.
    #[verifier::when_used_as_spec(spec_write_embedded_files)]
    pub fn write_embedded_files(&self, files_empty: bool) -> (b: bool)
        ensures
            b == self.spec_write_embedded_files(files_empty),
    {
        match self.embedded_files {
            EmbeddedFiles::Forbidden => false,
            EmbeddedFiles::Allowed => !files_empty,
            EmbeddedFiles::Required => true,
        }
    }

    /// Whether embedded files may be listed as associated files.
    pub fn allows_associated_files(&self) -> (b: bool)
        ensures
            b == self.associated_files,
    {
        self.associated_files
    }
}

/// A finding of validation that does not stop the production of a document.
#[derive(Clone, Copy, Debug, PartialEq, Eq, Structural)]
pub enum ValidationError {
    /// The document has no title.
    NoDocumentTitle,
    /// The document declares no language.
    NoDocumentLanguage,
}

/// The switches of the serializer.
#[derive(Clone, Copy, Debug)]
pub struct SerializeSettings {
    /// The output holds no byte above 127.
    pub ascii_compatible: bool,
    /// Content streams are compressed.
    pub compress_content_streams: bool,
    /// The document carries a metadata stream.
    pub xmp_metadata: bool,
    /// The conformance profile.
    pub validator: Validator,
    /// The version of PDF that the document declares.
    pub pdf_version: PdfVersion,
}

impl SerializeSettings {
    /// The conformance profile.
    pub fn validator(&self) -> (v: Validator)
        ensures
            v == self.validator,
    {
        self.validator
    }

    /// The version of PDF that the document declares.
    pub fn pdf_version(&self) -> (v: PdfVersion)
        ensures
            v == self.pdf_version,
    {
        self.pdf_version
    }
}

/// The settings of a document that asks for nothing: PDF 1.7, no
/// compression, no metadata stream, no profile.
pub open spec fn default_settings() -> SerializeSettings {
    SerializeSettings {
        ascii_compatible: false,
        compress_content_streams: false,
        xmp_metadata: false,
        validator: (Validator {
            binary_header: false,
            display_doc_title: false,
            embedded_files: EmbeddedFiles::Allowed,
            associated_files: false,
            pdfa_part: None,
        }),
        pdf_version: PdfVersion::Pdf17,
    }
}

impl Default for SerializeSettings {
    fn default() -> (s: SerializeSettings)
        ensures
            s == default_settings(),
    {
        SerializeSettings {
            ascii_compatible: false,
            compress_content_streams: false,
            xmp_metadata: false,
            validator: Validator::none(),
            pdf_version: PdfVersion::Pdf17,
        }
    }
}

} // verus!
