//! Filters for the data of streams.
//!
//! The data of a stream goes through a chain of filters before it is written,
//! and the stream declares the chain so that a reader can undo it.
use vstd::prelude::*;
use tiny_skia_path::Rect;
use crate::configure::{SerializeSettings, ValidationError};
use crate::geometry::{rect_bits, rect_from_xywh, whole_bits};
use crate::pdf::{dict_entries, dict_pair_name, dict_pair_names, texts_of, Entry};
use crate::resource::ResourceDictionary;
use crate::serialize::SerializerContext;

verus! {

/// A stream of drawing instructions with what they need: the box that
/// they draw into and the resources that they name.
pub struct ContentStream {
    /// The instructions.
    pub content: Vec<u8>,
    /// The box that the instructions draw into.
    pub bbox: Rect,
    /// The findings of validation that came up while the stream was made.
    /// Each object that uses a stream hands them on to the context.
    pub validation_errors: Vec<ValidationError>,
    /// The resources that the instructions name.
    pub resource_dictionary: ResourceDictionary,
}

impl ContentStream {
    /// A stream.
    pub fn new(
        content: Vec<u8>,
        bbox: Rect,
        validation_errors: Vec<ValidationError>,
        resource_dictionary: ResourceDictionary,
    ) -> (stream: ContentStream)
        ensures
            stream.content == content,
            stream.bbox == bbox,
            stream.validation_errors == validation_errors,
            stream.resource_dictionary == resource_dictionary,
    {
        ContentStream { content, bbox, validation_errors, resource_dictionary }
    }

    /// A stream without instructions and without resources, in an empty
    /// box at the origin.
    pub fn empty() -> (stream: ContentStream)
        ensures
            stream.content@ == Seq::<u8>::empty(),
            rect_bits(stream.bbox) == seq![
                whole_bits(0),
                whole_bits(0),
                whole_bits(0),
                whole_bits(0),
            ],
            stream.validation_errors@ == Seq::<ValidationError>::empty(),
            stream.resource_dictionary.wf(),
            stream.resource_dictionary.color_spaces@.len() == 0,
            stream.resource_dictionary.ext_g_state@.len() == 0,
            stream.resource_dictionary.patterns@.len() == 0,
            stream.resource_dictionary.refs_needed_spec() == 0,
    {
        ContentStream {
            content: Vec::new(),
            bbox: rect_from_xywh(0, 0, 0, 0),
            validation_errors: Vec::new(),
            resource_dictionary: ResourceDictionary::new(),
        }
    }
}

/// A builder of streams away from the pages: for the content of a mask or
/// of a pattern.
pub struct StreamBuilder<'a> {
    /// The document that the stream is made for.
    pub sc: &'a mut SerializerContext,
    /// The stream as far as it is made.
    pub stream: ContentStream,
}

impl<'a> StreamBuilder<'a> {
    /// A builder that holds an empty stream.
    pub fn new(sc: &'a mut SerializerContext) -> (builder: StreamBuilder<'a>)
        ensures
            *builder.sc == *old(sc),
            *final(builder.sc) == *final(sc),
            builder.stream.content@ == Seq::<u8>::empty(),
    {
        StreamBuilder { sc, stream: ContentStream::empty() }
    }

    /// Takes the stream that a surface has drawn.
    pub fn set_stream(&mut self, stream: ContentStream)
        ensures
            final(self).stream == stream,
            *final(self).sc == *old(self).sc,
            *final(final(self).sc) == *final(old(self).sc),
    {
        self.stream = stream;
    }

    /// The stream that was made. The document is left as it is.
    pub fn finish(self) -> (stream: ContentStream)
        ensures
            stream == self.stream,
            *final(self.sc) == *old(self.sc),
    {
        self.stream
    }
}

/// The level at which stream data is compressed.
pub const COMPRESSION_LEVEL: u8 = 6;

/// The number of bytes after which the hexadecimal encoding breaks the line.
pub const HEX_LINE: usize = 35;

/// What `compress_to_vec_zlib` makes of the data at the given level: the
/// data compressed, in a zlib wrapper.
pub uninterp spec fn zlib_compressed(data: Seq<u8>, level: u8) -> Seq<u8>;

/// Calls `miniz_oxide::deflate::compress_to_vec_zlib`.
#[verifier::external_body]
fn compress_to_vec_zlib(data: &[u8], level: u8) -> (out: Vec<u8>)
    requires
        level <= 10,
    ensures
        out@ == zlib_compressed(data@, level),
{
    miniz_oxide::deflate::compress_to_vec_zlib(data, level)
}

/// The hexadecimal digit of a number below 16, in upper case.
pub open spec fn hex_digit(v: u8) -> u8 {
    if v < 10 {
        (48 + v) as u8
    } else {
        (55 + v) as u8
    }
}

/// What the byte at place `i` of the data becomes in hexadecimal: its two
/// digits and, where it ends a line, a line break.
pub open spec fn hex_of(byte: u8, i: int) -> Seq<u8> {
    let digits = seq![hex_digit(byte / 16), hex_digit(byte % 16)];
    if i % (HEX_LINE as int) == HEX_LINE - 1 {
        digits.push(10u8)
    } else {
        digits
    }
}

/// The hexadecimal encoding of the data: two digits for each byte, and a
/// line break after every 35 bytes.
pub open spec fn hex_encoded(data: Seq<u8>) -> Seq<u8>
    decreases data.len(),
{
    if data.len() == 0 {
        Seq::empty()
    } else {
        hex_encoded(data.drop_last()) + hex_of(data.last(), data.len() - 1)
    }
}

/// Compresses the data.
fn deflate_encode(data: &[u8]) -> (out: Vec<u8>)
    ensures
        out@ == zlib_compressed(data@, COMPRESSION_LEVEL),
{
    compress_to_vec_zlib(data, COMPRESSION_LEVEL)
}

/// The hexadecimal digit of a number below 16, in upper case.
fn hex_char(v: u8) -> (c: u8)
    requires
        v < 16,
    ensures
        c == hex_digit(v),
{
    if v < 10 {
        48 + v
    } else {
        55 + v
    }
}

/// Encodes the data in hexadecimal.
pub fn hex_encode(data: &[u8]) -> (out: Vec<u8>)
    ensures
        out@ == hex_encoded(data@),
{
    let mut out: Vec<u8> = Vec::new();
    let mut i: usize = 0;
    assert(data@.take(0) =~= Seq::empty());
    while i < data.len()
        invariant
            i <= data@.len(),
            out@ == hex_encoded(data@.take(i as int)),
        decreases data@.len() - i,
    {
        let byte = data[i];
        let ghost before = out@;
        assert(data@.take(i + 1).drop_last() =~= data@.take(i as int));
        out.push(hex_char(byte / 16));
        out.push(hex_char(byte % 16));
        if i % HEX_LINE == HEX_LINE - 1 {
            out.push(10);
        }
        assert(out@ =~= before + hex_of(byte, i as int));
        i += 1;
    }
    assert(data@.take(data@.len() as int) =~= data@);
    out
}

/// A filter of stream data.
#[derive(Debug, Copy, Clone, PartialEq, Eq, Structural)]
pub enum StreamFilter {
    /// Compression.
    Flate,
    /// Hexadecimal encoding, which leaves ASCII characters only.
    AsciiHex,
    /// The encoding of JPEG images. Data under this filter comes encoded.
    Dct,
}

impl StreamFilter {
    /// The name under which a stream declares the filter.
    pub open spec fn name(self) -> Seq<char> {
        match self {
            StreamFilter::AsciiHex => "ASCIIHexDecode"@,
            StreamFilter::Flate => "FlateDecode"@,
            StreamFilter::Dct => "DCTDecode"@,
        }
    }

    /// The name under which a stream declares the filter.
    pub fn to_name(self) -> (name: &'static str)
        ensures
            name@ == self.name(),
    {
        match self {
            StreamFilter::AsciiHex => "ASCIIHexDecode",
            StreamFilter::Flate => "FlateDecode",
            StreamFilter::Dct => "DCTDecode",
        }
    }

    /// Whether the filter is one that this library applies itself.
    pub open spec fn spec_can_apply(&self) -> bool {
        *self != StreamFilter::Dct
    }

    /// Whether the filter is one that this library applies itself.
    #[verifier::when_used_as_spec(spec_can_apply)]
    pub fn can_apply(&self) -> (b: bool)
        ensures
            b == self.spec_can_apply(),
    {
        match self {
            StreamFilter::Flate => true,
            StreamFilter::AsciiHex => true,
            StreamFilter::Dct => false,
        }
    }

    /// What the filter makes of the data.
    pub open spec fn applied(self, content: Seq<u8>) -> Seq<u8> {
        match self {
            StreamFilter::Flate => zlib_compressed(content, COMPRESSION_LEVEL),
            StreamFilter::AsciiHex => hex_encoded(content),
            StreamFilter::Dct => content,
        }
    }

    /// Applies the filter to the data.
    pub fn apply(&self, content: &[u8]) -> (out: Vec<u8>)
        requires
            self.can_apply(),
        ensures
            out@ == self.applied(content@),
    {
        match self {
            StreamFilter::Flate => deflate_encode(content),
            _ => hex_encode(content),
        }
    }
}

/// The filters of a stream, in the order in which they were applied.
#[derive(Debug)]
pub enum StreamFilters {
    /// No filter.
    Empty,
    /// One filter.
    Single(StreamFilter),
    /// Two filters or more.
    Multiple(Vec<StreamFilter>),
}

impl View for StreamFilters {
    type V = Seq<StreamFilter>;

    open spec fn view(&self) -> Seq<StreamFilter> {
        match self {
            StreamFilters::Empty => Seq::empty(),
            StreamFilters::Single(filter) => seq![*filter],
            StreamFilters::Multiple(filters) => filters@,
        }
    }
}

impl StreamFilters {
    /// Adds a filter behind those that are there. No filter becomes a
    /// single one, a single one becomes a list of two, and a list grows by
    /// one at its end.
    pub fn add(&mut self, stream_filter: StreamFilter)
        ensures
            final(self)@ == old(self)@.push(stream_filter),
            match *old(self) {
                StreamFilters::Empty => *final(self) == StreamFilters::Single(stream_filter),
                StreamFilters::Single(first) => *final(self) matches StreamFilters::Multiple(both)
                    && both@ == seq![first, stream_filter],
                StreamFilters::Multiple(list) => *final(self) matches StreamFilters::Multiple(longer)
                    && longer@ == list@.push(stream_filter),
            },
    {
        match self {
            StreamFilters::Empty => {
                *self = StreamFilters::Single(stream_filter);
                assert(self@ =~= old(self)@.push(stream_filter));
            },
            StreamFilters::Single(cur) => {
                let mut both: Vec<StreamFilter> = Vec::new();
                both.push(*cur);
                both.push(stream_filter);
                *self = StreamFilters::Multiple(both);
                assert(self@ =~= old(self)@.push(stream_filter));
            },
            StreamFilters::Multiple(cur) => {
                cur.push(stream_filter);
            },
        }
    }
}

/// The data of a stream: as it was handed in, or as a filter has made it.
#[derive(Debug)]
pub enum Content<'a> {
    /// The data as it was handed in.
    Borrowed(&'a [u8]),
    /// The data as a filter has made it.
    Owned(Vec<u8>),
}

impl<'a> View for Content<'a> {
    type V = Seq<u8>;

    open spec fn view(&self) -> Seq<u8> {
        match self {
            Content::Borrowed(bytes) => bytes@,
            Content::Owned(bytes) => bytes@,
        }
    }
}

/// The data of a stream together with the filters it has gone through.
#[derive(Debug)]
pub struct FilterStream<'a> {
    content: Content<'a>,
    filters: StreamFilters,
}

/// What a chain of filters makes of the data: each filter that this library
/// applies itself is applied to what the filters before it have made.
pub open spec fn filtered(content: Seq<u8>, filters: Seq<StreamFilter>) -> Seq<u8>
    decreases filters.len(),
{
    if filters.len() == 0 {
        content
    } else {
        filters.last().applied(filtered(content, filters.drop_last()))
    }
}

/// The filters for the content of a page or a form: compression where the
/// settings ask for it, and then hexadecimal encoding where the output is to
/// be ASCII.
pub open spec fn content_stream_filters(settings: SerializeSettings) -> Seq<StreamFilter> {
    if settings.compress_content_streams {
        if settings.ascii_compatible {
            seq![StreamFilter::Flate, StreamFilter::AsciiHex]
        } else {
            seq![StreamFilter::Flate]
        }
    } else {
        Seq::empty()
    }
}

/// The filters for binary data: `first`, and then hexadecimal encoding where
/// the output is to be ASCII.
pub open spec fn binary_filters(first: StreamFilter, settings: SerializeSettings) -> Seq<
    StreamFilter,
> {
    if settings.ascii_compatible {
        seq![first, StreamFilter::AsciiHex]
    } else {
        seq![first]
    }
}

/// The filters for data that is written as it is: none but hexadecimal
/// encoding where the output is to be ASCII.
pub open spec fn plain_filters(settings: SerializeSettings) -> Seq<StreamFilter> {
    if settings.ascii_compatible {
        seq![StreamFilter::AsciiHex]
    } else {
        Seq::empty()
    }
}

impl<'a> FilterStream<'a> {
    /// The filters that the data has gone through, in the order in which
    /// they were applied.
    pub closed spec fn filters(&self) -> Seq<StreamFilter> {
        self.filters@
    }

    /// The data as the filters have made it.
    pub closed spec fn content(&self) -> Seq<u8> {
        self.content@
    }

    /// The data without any filter.
    pub fn empty(content: &'a [u8]) -> (stream: FilterStream<'a>)
        ensures
            stream.content() == content@,
            stream.filters() == Seq::<StreamFilter>::empty(),
    {
        FilterStream { content: Content::Borrowed(content), filters: StreamFilters::Empty }
    }

    /// The content of a page or a form under the filters that the settings
    /// ask for.
    pub fn new_from_content_stream(content: &'a [u8], serialize_settings: &SerializeSettings) -> (stream:
        FilterStream<'a>)
        ensures
            stream.filters() == content_stream_filters(*serialize_settings),
            stream.content() == filtered(content@, stream.filters()),
    {
        let mut filter_stream = Self::empty(content);
        if serialize_settings.compress_content_streams {
            filter_stream.add_filter(StreamFilter::Flate);
            if serialize_settings.ascii_compatible {
                filter_stream.add_filter(StreamFilter::AsciiHex);
            }
        }
        proof {
            lemma_filtered(content@, filter_stream.filters());
        }
        filter_stream
    }

    /// Binary data, compressed, and in hexadecimal where the output is to be ASCII.
    pub fn new_from_binary_data(content: &'a [u8], serialize_settings: &SerializeSettings) -> (stream:
        FilterStream<'a>)
        ensures
            stream.filters() == binary_filters(StreamFilter::Flate, *serialize_settings),
            stream.content() == filtered(content@, stream.filters()),
    {
        let mut filter_stream = Self::empty(content);
        filter_stream.add_filter(StreamFilter::Flate);
        if serialize_settings.ascii_compatible {
            filter_stream.add_filter(StreamFilter::AsciiHex);
        }
        proof {
            lemma_filtered(content@, filter_stream.filters());
        }
        filter_stream
    }

    /// The data of a JPEG image, which is never compressed again, in
    /// hexadecimal where the output is to be ASCII.
    pub fn new_from_jpeg_data(content: &'a [u8], serialize_settings: &SerializeSettings) -> (stream:
        FilterStream<'a>)
        ensures
            stream.filters() == binary_filters(StreamFilter::Dct, *serialize_settings),
            stream.content() == filtered(content@, stream.filters()),
    {
        let mut filter_stream = Self::empty(content);
        filter_stream.add_filter(StreamFilter::Dct);
        if serialize_settings.ascii_compatible {
            filter_stream.add_filter(StreamFilter::AsciiHex);
        }
        proof {
            lemma_filtered(content@, filter_stream.filters());
        }
        filter_stream
    }

    /// Data that is written as it is, in hexadecimal where the output is to
    /// be ASCII.
    pub fn new_plain(content: &'a [u8], serialize_settings: &SerializeSettings) -> (stream:
        FilterStream<'a>)
        ensures
            stream.filters() == plain_filters(*serialize_settings),
            stream.content() == filtered(content@, stream.filters()),
    {
        let mut filter_stream = Self::empty(content);
        if serialize_settings.ascii_compatible {
            filter_stream.add_filter(StreamFilter::AsciiHex);
        }
        proof {
            lemma_filtered(content@, filter_stream.filters());
        }
        filter_stream
    }

    /// Puts the data through one more filter: a filter that this library
    /// applies itself is applied, any other is only recorded.
    pub fn add_filter(&mut self, filter: StreamFilter)
        ensures
            final(self).filters() == old(self).filters().push(filter),
            final(self).content() == filter.applied(old(self).content()),
    {
        if filter.can_apply() {
            let applied = match &self.content {
                Content::Borrowed(bytes) => filter.apply(bytes),
                Content::Owned(bytes) => filter.apply(bytes.as_slice()),
            };
            self.content = Content::Owned(applied);
        }
        self.filters.add(filter);
    }

    /// The data as the filters have made it.
    pub fn encoded_data(&self) -> (data: &[u8])
        ensures
            data@ == self.content(),
    {
        match &self.content {
            Content::Borrowed(bytes) => bytes,
            Content::Owned(bytes) => bytes.as_slice(),
        }
    }

    /// The names of the filters in the order in which a stream declares
    /// them: the filter applied last comes first, so that a reader undoes
    /// the filters in the order in which it reads them.
    pub fn declared_filters(&self) -> (names: Vec<StreamFilter>)
        ensures
            names@ == self.filters().reverse(),
    {
        let mut names: Vec<StreamFilter> = Vec::new();
        match &self.filters {
            StreamFilters::Empty => {},
            StreamFilters::Single(filter) => {
                names.push(*filter);
            },
            StreamFilters::Multiple(filters) => {
                let mut i: usize = filters.len();
                while i > 0
                    invariant
                        i <= filters@.len(),
                        names@.len() == filters@.len() - i,
                        forall|j: int|
                            0 <= j < names@.len() ==> names@[j] == filters@[filters@.len() - 1 - j],
                    decreases i,
                {
                    i -= 1;
                    names.push(filters[i]);
                }
            },
        }
        assert(names@ =~= self.filters().reverse());
        names
    }

    /// Declares the filters in the dictionary of a stream: nothing without a
    /// filter, the name of a single filter, and else the names in an array,
    /// the filter applied last first.
    pub fn write_filters(&self, dict: &mut pdf_writer::Dict<'_>)
        ensures
            dict_entries(*final(dict)) == dict_entries(*old(dict)) + filter_entries(
                self.filters(),
            ),
    {
        let names = self.declared_filters();
        if names.len() == 1 {
            dict_pair_name(dict, "Filter", names[0].to_name());
            assert(dict_entries(*dict) =~= dict_entries(*old(dict)) + filter_entries(
                self.filters(),
            ));
        } else if names.len() > 1 {
            let mut texts: Vec<&'static str> = Vec::new();
            let mut i: usize = 0;
            while i < names.len()
                invariant
                    i <= names@.len(),
                    texts@.len() == i,
                    forall|j: int| 0 <= j < i ==> (#[trigger] texts@[j])@ == names@[j].name(),
                decreases names@.len() - i,
            {
                texts.push(names[i].to_name());
                i += 1;
            }
            dict_pair_names(dict, "Filter", &texts);
            assert(texts_of(texts@) =~= declared_names(self.filters()));
            assert(dict_entries(*dict) =~= dict_entries(*old(dict)) + filter_entries(
                self.filters(),
            ));
        } else {
            assert(dict_entries(*dict) =~= dict_entries(*old(dict)) + filter_entries(
                self.filters(),
            ));
        }
    }
}

/// The names of the filters in the order in which a stream declares them:
/// the filter applied last comes first.
pub open spec fn declared_names(filters: Seq<StreamFilter>) -> Seq<Seq<char>> {
    Seq::new(filters.len(), |i: int| filters[filters.len() - 1 - i].name())
}

/// What a stream declares of its filters in its dictionary: nothing
/// without a filter, the name of a single filter, and else the names in an
/// array.
pub open spec fn filter_entries(filters: Seq<StreamFilter>) -> Seq<(Seq<char>, Entry)> {
    if filters.len() == 0 {
        Seq::empty()
    } else if filters.len() == 1 {
        seq![("Filter"@, Entry::Name(filters[0].name()))]
    } else {
        seq![("Filter"@, Entry::Names(declared_names(filters)))]
    }
}

/// What one, two or no filters make of the data, spelled out.
pub proof fn lemma_filtered(content: Seq<u8>, filters: Seq<StreamFilter>)
    requires
        filters.len() <= 2,
    ensures
        filters.len() == 0 ==> filtered(content, filters) == content,
        filters.len() == 1 ==> filtered(content, filters) == filters[0].applied(content),
        filters.len() == 2 ==> filtered(content, filters) == filters[1].applied(
            filters[0].applied(content),
        ),
{
    if filters.len() >= 1 {
        let front = filters.drop_last();
        if front.len() >= 1 {
            assert(front.drop_last().len() == 0);
            assert(filtered(content, front.drop_last()) == content);
            assert(front.last() == filters[0]);
        }
        assert(filtered(content, filters) == filters.last().applied(filtered(content, front)));
    }
}

/// The number that a hexadecimal digit stands for; 0 for any other byte.
pub open spec fn hex_value(c: u8) -> u8 {
    if 48 <= c <= 57 {
        (c - 48) as u8
    } else if 65 <= c <= 70 {
        (c - 55) as u8
    } else if 97 <= c <= 102 {
        (c - 87) as u8
    } else {
        0
    }
}

/// Whether a byte is white space, which a reader of hexadecimal data skips.
pub open spec fn is_white(c: u8) -> bool {
    c == 0 || c == 9 || c == 10 || c == 12 || c == 13 || c == 32
}

/// The text without its white space.
pub open spec fn without_white(text: Seq<u8>) -> Seq<u8>
    decreases text.len(),
{
    if text.len() == 0 {
        Seq::empty()
    } else if is_white(text.last()) {
        without_white(text.drop_last())
    } else {
        without_white(text.drop_last()).push(text.last())
    }
}

/// The bytes that pairs of hexadecimal digits stand for.
pub open spec fn from_pairs(digits: Seq<u8>) -> Seq<u8>
    decreases digits.len(),
{
    if digits.len() < 2 {
        Seq::empty()
    } else {
        from_pairs(digits.subrange(0, digits.len() - 2)).push(
            (hex_value(digits[digits.len() - 2]) * 16 + hex_value(digits.last())) as u8,
        )
    }
}

/// What a reader makes of hexadecimal data: it skips white space and takes
/// each pair of digits for a byte.
pub open spec fn hex_decoded(text: Seq<u8>) -> Seq<u8> {
    from_pairs(without_white(text))
}

/// Skipping white space in two texts in a row skips it in each.
pub proof fn lemma_without_white_concat(a: Seq<u8>, b: Seq<u8>)
    ensures
        without_white(a + b) == without_white(a) + without_white(b),
    decreases b.len(),
{
    if b.len() == 0 {
        assert(a + b =~= a);
        assert(without_white(a) + without_white(b) =~= without_white(a));
    } else {
        assert((a + b).drop_last() =~= a + b.drop_last());
        lemma_without_white_concat(a, b.drop_last());
        if !is_white(b.last()) {
            assert((without_white(a) + without_white(b.drop_last())).push(b.last())
                =~= without_white(a) + without_white(b.drop_last()).push(b.last()));
        }
    }
}

/// A single byte stays unless it is white space.
pub proof fn lemma_without_white_one(c: u8)
    ensures
        without_white(seq![c]) == if is_white(c) {
            Seq::<u8>::empty()
        } else {
            seq![c]
        },
{
    assert(seq![c].drop_last() =~= Seq::<u8>::empty());
    assert(without_white(Seq::<u8>::empty()) =~= Seq::<u8>::empty());
    assert(seq![c].last() == c);
    if !is_white(c) {
        assert(Seq::<u8>::empty().push(c) =~= seq![c]);
    }
}

/// The digits of the hexadecimal encoding, without the line breaks.
pub open spec fn hex_digits(data: Seq<u8>) -> Seq<u8>
    decreases data.len(),
{
    if data.len() == 0 {
        Seq::empty()
    } else {
        hex_digits(data.drop_last()) + seq![
            hex_digit(data.last() / 16),
            hex_digit(data.last() % 16),
        ]
    }
}

/// The hexadecimal encoding holds, besides line breaks, two digits for each byte.
pub proof fn lemma_hex_encoded_digits(data: Seq<u8>)
    ensures
        without_white(hex_encoded(data)) == hex_digits(data),
        hex_digits(data).len() == 2 * data.len(),
    decreases data.len(),
{
    if data.len() > 0 {
        let front = data.drop_last();
        let tail = hex_of(data.last(), data.len() - 1);
        let pair = seq![hex_digit(data.last() / 16), hex_digit(data.last() % 16)];
        lemma_hex_encoded_digits(front);
        lemma_without_white_concat(hex_encoded(front), tail);
        assert(without_white(tail) =~= pair) by {
            lemma_without_white_one(pair[0]);
            lemma_without_white_one(pair[1]);
            lemma_without_white_one(10u8);
            lemma_without_white_concat(seq![pair[0]], seq![pair[1]]);
            assert(seq![pair[0]] + seq![pair[1]] =~= pair);
            if tail.len() == 3 {
                lemma_without_white_concat(pair, seq![10u8]);
                assert(pair + seq![10u8] =~= tail);
            } else {
                assert(tail =~= pair);
            }
        }
    }
}

/// The two digits of the byte at place `k` stand at the places `2k` and
/// `2k + 1` of the digits.
pub proof fn lemma_hex_digits_at(data: Seq<u8>, k: int)
    requires
        0 <= k < data.len(),
    ensures
        hex_digits(data).len() == 2 * data.len(),
        hex_digits(data)[2 * k] == hex_digit(data[k] / 16),
        hex_digits(data)[2 * k + 1] == hex_digit(data[k] % 16),
    decreases data.len(),
{
    lemma_hex_encoded_digits(data);
    lemma_hex_encoded_digits(data.drop_last());
    if k < data.len() - 1 {
        lemma_hex_digits_at(data.drop_last(), k);
    }
}

/// For all data, a reader of its hexadecimal encoding gets the data back.
pub proof fn lemma_hex_round_trip(data: Seq<u8>)
    ensures
        hex_decoded(hex_encoded(data)) == data,
    decreases data.len(),
{
    lemma_hex_encoded_digits(data);
    lemma_from_pairs(data);
}

/// The pairs of digits of data stand for the data.
pub proof fn lemma_from_pairs(data: Seq<u8>)
    ensures
        from_pairs(hex_digits(data)) == data,
    decreases data.len(),
{
    if data.len() > 0 {
        let front = data.drop_last();
        let byte = data.last();
        lemma_from_pairs(front);
        lemma_hex_encoded_digits(front);
        let digits = hex_digits(data);
        assert(digits.subrange(0, digits.len() - 2) =~= hex_digits(front));
        assert(digits[digits.len() - 2] == hex_digit(byte / 16));
        assert(digits.last() == hex_digit(byte % 16));
        assert(hex_value(hex_digit(byte / 16)) == byte / 16);
        assert(hex_value(hex_digit(byte % 16)) == byte % 16);
        assert(front.push(byte) =~= data);
    } else {
        assert(data =~= Seq::<u8>::empty());
    }
}

/// What undoing a chain of filters makes of the data: the filters are
/// undone from the last to the first, hexadecimal encoding by reading it. A
/// filter that was only recorded has left the data as it was.
pub open spec fn unfiltered(data: Seq<u8>, filters: Seq<StreamFilter>) -> Seq<u8>
    decreases filters.len(),
{
    if filters.len() == 0 {
        data
    } else {
        let before = match filters.last() {
            StreamFilter::AsciiHex => hex_decoded(data),
            _ => data,
        };
        unfiltered(before, filters.drop_last())
    }
}

/// For all content and every chain of filters without compression, undoing
/// the chain on what it has made of the content gives the content back.
pub proof fn lemma_filter_round_trip(content: Seq<u8>, filters: Seq<StreamFilter>)
    requires
        !filters.contains(StreamFilter::Flate),
    ensures
        unfiltered(filtered(content, filters), filters) == content,
    decreases filters.len(),
{
    if filters.len() > 0 {
        let front = filters.drop_last();
        assert forall|i: int| 0 <= i < front.len() implies front[i] != StreamFilter::Flate by {
            assert(filters[i] == front[i]);
            assert(filters.contains(filters[i]));
        }
        assert(!front.contains(StreamFilter::Flate));
        lemma_filter_round_trip(content, front);
        assert(filters.contains(filters.last())) by {
            assert(filters[filters.len() - 1] == filters.last());
        }
        if filters.last() == StreamFilter::AsciiHex {
            lemma_hex_round_trip(filtered(content, front));
        }
    }
}

} // verus!
