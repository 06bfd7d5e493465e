//! What a document says about itself.
use vstd::prelude::*;

verus! {

/// A point in time, as far as it is known.
#[derive(Clone, Copy, Debug, PartialEq, Eq, Structural)]
pub struct DateTime {
    /// The year.
    pub year: u16,
    /// The month, from 1 to 12.
    pub month: Option<u8>,
    /// The day of the month, from 1 to 31.
    pub day: Option<u8>,
    /// The hour, from 0 to 23.
    pub hour: Option<u8>,
    /// The minute, from 0 to 59.
    pub minute: Option<u8>,
    /// The second, from 0 to 59.
    pub second: Option<u8>,
}

impl DateTime {
    /// The first moment of a year.
    pub fn new(year: u16) -> (date: DateTime)
        ensures
            date == (DateTime {
                year,
                month: None,
                day: None,
                hour: None,
                minute: None,
                second: None,
            }),
    {
        DateTime { year, month: None, day: None, hour: None, minute: None, second: None }
    }
}

/// The two decimal digits of a number below 100.
pub open spec fn two_digits(n: int) -> Seq<u8> {
    seq![(48 + n / 10) as u8, (48 + n % 10) as u8]
}

/// A number kept within `low` and `high`.
pub open spec fn clamped(n: int, low: int, high: int) -> int {
    if n < low {
        low
    } else if n > high {
        high
    } else {
        n
    }
}

/// The text of a date in a PDF file: `D:`, the year in four digits, and each
/// further field in two digits as long as the fields before it are known.
/// Every field is kept within its range.
pub open spec fn pdf_date_text(date: DateTime) -> Seq<u8> {
    let year = clamped(date.year as int, 0, 9999);
    let head = seq![68u8, 58u8] + two_digits(year / 100) + two_digits(year % 100);
    match date.month {
        None => head,
        Some(month) => {
            let head = head + two_digits(clamped(month as int, 1, 12));
            match date.day {
                None => head,
                Some(day) => {
                    let head = head + two_digits(clamped(day as int, 1, 31));
                    match date.hour {
                        None => head,
                        Some(hour) => {
                            let head = head + two_digits(clamped(hour as int, 0, 23));
                            match date.minute {
                                None => head,
                                Some(minute) => {
                                    let head = head + two_digits(clamped(minute as int, 0, 59));
                                    match date.second {
                                        None => head,
                                        Some(second) => head + two_digits(
                                            clamped(second as int, 0, 59),
                                        ),
                                    }
                                },
                            }
                        },
                    }
                },
            }
        },
    }
}

/// Appends the two digits of `n`, kept within `low` and `high`.
fn push_two_digits(text: &mut Vec<u8>, n: u16, low: u16, high: u16)
    requires
        low <= high < 100,
    ensures
        final(text)@ == old(text)@ + two_digits(clamped(n as int, low as int, high as int)),
{
    let kept = if n < low {
        low
    } else if n > high {
        high
    } else {
        n
    };
    text.push((48 + kept / 10) as u8);
    text.push((48 + kept % 10) as u8);
    assert(text@ =~= old(text)@ + two_digits(clamped(n as int, low as int, high as int)));
}

/// The text of a date in a PDF file.
pub fn pdf_date(date: DateTime) -> (text: Vec<u8>)
    ensures
        text@ == pdf_date_text(date),
{
    let mut text: Vec<u8> = Vec::new();
    text.push(68);
    text.push(58);
    let year = if date.year > 9999 {
        9999
    } else {
        date.year
    };
    push_two_digits(&mut text, year / 100, 0, 99);
    push_two_digits(&mut text, year % 100, 0, 99);
    assert(text@ =~= seq![68u8, 58u8] + two_digits((year / 100) as int) + two_digits(
        (year % 100) as int,
    ));
    if let Some(month) = date.month {
        push_two_digits(&mut text, month as u16, 1, 12);
        if let Some(day) = date.day {
            push_two_digits(&mut text, day as u16, 1, 31);
            if let Some(hour) = date.hour {
                push_two_digits(&mut text, hour as u16, 0, 23);
                if let Some(minute) = date.minute {
                    push_two_digits(&mut text, minute as u16, 0, 59);
                    if let Some(second) = date.second {
                        push_two_digits(&mut text, second as u16, 0, 59);
                    }
                }
            }
        }
    }
    text
}

/// How the pages of a document are laid out when it is opened.
#[derive(Clone, Copy, Debug, PartialEq, Eq, Structural)]
pub enum PageLayout {
    /// One page at a time.
    SinglePage,
    /// The pages in one column.
    OneColumn,
    /// The pages in two columns, odd pages on the left.
    TwoColumnLeft,
    /// The pages in two columns, odd pages on the right.
    TwoColumnRight,
    /// Two pages at a time, odd pages on the left.
    TwoPageLeft,
    /// Two pages at a time, odd pages on the right.
    TwoPageRight,
}

impl PageLayout {
    /// Whether the layout shows two pages at a time.
    pub open spec fn spec_is_two_page(self) -> bool {
        self == PageLayout::TwoPageLeft || self == PageLayout::TwoPageRight
    }

    /// Whether the layout shows two pages at a time.
    #[verifier::when_used_as_spec(spec_is_two_page)]
    pub fn is_two_page(self) -> (b: bool)
        ensures
            b == self.spec_is_two_page(),
    {
        match self {
            PageLayout::TwoPageLeft | PageLayout::TwoPageRight => true,
            _ => false,
        }
    }

    /// The name of the layout in a catalog.
    pub fn name(self) -> (name: &'static str)
        ensures
            name@ == match self {
                PageLayout::SinglePage => "SinglePage"@,
                PageLayout::OneColumn => "OneColumn"@,
                PageLayout::TwoColumnLeft => "TwoColumnLeft"@,
                PageLayout::TwoColumnRight => "TwoColumnRight"@,
                PageLayout::TwoPageLeft => "TwoPageLeft"@,
                PageLayout::TwoPageRight => "TwoPageRight"@,
            },
    {
        match self {
            PageLayout::SinglePage => "SinglePage",
            PageLayout::OneColumn => "OneColumn",
            PageLayout::TwoColumnLeft => "TwoColumnLeft",
            PageLayout::TwoColumnRight => "TwoColumnRight",
            PageLayout::TwoPageLeft => "TwoPageLeft",
            PageLayout::TwoPageRight => "TwoPageRight",
        }
    }
}

/// The main direction in which the text of a document runs.
#[derive(Clone, Copy, Debug, PartialEq, Eq, Structural)]
pub enum TextDirection {
    /// From left to right.
    LeftToRight,
    /// From right to left.
    RightToLeft,
}

impl TextDirection {
    /// The name of the direction in the preferences for a viewer.
    pub fn name(self) -> (name: &'static str)
        ensures
            name@ == match self {
                TextDirection::LeftToRight => "L2R"@,
                TextDirection::RightToLeft => "R2L"@,
            },
    {
        match self {
            TextDirection::LeftToRight => "L2R",
            TextDirection::RightToLeft => "R2L",
        }
    }
}

/// What a document says about itself.
#[derive(Debug)]
pub struct Metadata {
    /// The title.
    pub title: Option<String>,
    /// The authors.
    pub authors: Option<Vec<String>>,
    /// An identifier that stays the same over all versions of the document.
    pub document_id: Option<String>,
    /// The language of the text.
    pub language: Option<String>,
    /// When the document was made.
    pub creation_date: Option<DateTime>,
    /// The main direction in which the text runs.
    pub text_direction: Option<TextDirection>,
    /// How the pages are laid out when the document is opened.
    pub page_layout: Option<PageLayout>,
}

impl Metadata {
    /// Metadata that says nothing.
    pub fn new() -> (metadata: Metadata)
        ensures
            metadata.title is None,
            metadata.authors is None,
            metadata.document_id is None,
            metadata.language is None,
            metadata.creation_date is None,
            metadata.text_direction is None,
            metadata.page_layout is None,
    {
        Metadata {
            title: None,
            authors: None,
            document_id: None,
            language: None,
            creation_date: None,
            text_direction: None,
            page_layout: None,
        }
    }
}

/// Who signs a document, and what the signature says.
#[derive(Debug)]
pub struct PdfSig {
    /// The name of the signer.
    pub name: String,
    /// Where the document is signed.
    pub location: String,
    /// Why the document is signed.
    pub reason: String,
    /// How to reach the signer.
    pub contact_info: String,
}

} // verus!
