use krilla::configure::SerializeSettings;
use krilla::stream::{hex_encode, FilterStream, StreamFilter, StreamFilters};

fn settings(compress: bool, ascii: bool) -> SerializeSettings {
    let mut settings = SerializeSettings::default();
    settings.compress_content_streams = compress;
    settings.ascii_compatible = ascii;
    settings
}

fn hex_decode(text: &[u8]) -> Vec<u8> {
    let digits: Vec<u8> = text
        .iter()
        .copied()
        .filter(|c| !c.is_ascii_whitespace())
        .collect();
    digits
        .chunks(2)
        .map(|pair| {
            let value = |c: u8| (c as char).to_digit(16).unwrap() as u8;
            value(pair[0]) * 16 + value(pair[1])
        })
        .collect()
}

#[test]
fn hex_encoding_writes_two_upper_case_digits_for_a_byte() {
    assert_eq!(hex_encode(&[]), b"".to_vec());
    assert_eq!(hex_encode(&[0]), b"00".to_vec());
    assert_eq!(hex_encode(&[0xab, 0x0f, 0xf0, 0x9a]), b"AB0FF09A".to_vec());
    assert_eq!(hex_encode(&[255]), b"FF".to_vec());
}

#[test]
fn hex_encoding_breaks_the_line_after_35_bytes() {
    let data = vec![0x11u8; 36];
    let text = hex_encode(&data);
    assert_eq!(text.len(), 73);
    assert_eq!(text[70], b'\n');
    assert_eq!(&text[..70], vec![b'1'; 70].as_slice());
    assert_eq!(&text[71..], b"11");
    let exact = hex_encode(&vec![0u8; 35]);
    assert_eq!(exact.len(), 71);
    assert_eq!(exact[70], b'\n');
    let short = hex_encode(&vec![0u8; 34]);
    assert_eq!(short.len(), 68);
    assert!(!short.contains(&b'\n'));
    let long = hex_encode(&vec![0u8; 70]);
    assert_eq!(long.len(), 142);
    assert_eq!(long[70], b'\n');
    assert_eq!(long[141], b'\n');
}

#[test]
fn hex_encoding_reads_back() {
    let data: Vec<u8> = (0..=255u8).cycle().take(1000).collect();
    assert_eq!(hex_decode(&hex_encode(&data)), data);
}

#[test]
fn filters_say_whether_they_are_applied() {
    assert!(StreamFilter::Flate.can_apply());
    assert!(StreamFilter::AsciiHex.can_apply());
    assert!(!StreamFilter::Dct.can_apply());
    assert_eq!(StreamFilter::Flate.to_name(), "FlateDecode");
    assert_eq!(StreamFilter::AsciiHex.to_name(), "ASCIIHexDecode");
    assert_eq!(StreamFilter::Dct.to_name(), "DCTDecode");
}

#[test]
fn flate_filter_compresses_with_zlib() {
    let data = b"aaaaaaaaaaaaaaaaaaaaaaaaaaaaaaaaaaaaaaaaaaaaaaaaaaaaaaaaaaaaaaaaaaaaaaaaaaaa".to_vec();
    let out = StreamFilter::Flate.apply(&data);
    assert_ne!(out, data);
    assert!(out.len() < data.len());
    assert_eq!(out, miniz_oxide::deflate::compress_to_vec_zlib(&data, 6));
    assert_eq!(
        miniz_oxide::inflate::decompress_to_vec_zlib(&out).unwrap(),
        data
    );
    assert_eq!(StreamFilter::AsciiHex.apply(&[0xde, 0xad]), b"DEAD".to_vec());
}

#[test]
fn filter_list_grows_from_none_to_many() {
    let mut filters = StreamFilters::Empty;
    filters.add(StreamFilter::Flate);
    assert!(matches!(filters, StreamFilters::Single(StreamFilter::Flate)));
    filters.add(StreamFilter::AsciiHex);
    match &filters {
        StreamFilters::Multiple(list) => {
            assert_eq!(list, &vec![StreamFilter::Flate, StreamFilter::AsciiHex])
        }
        _ => panic!("two filters are a list"),
    }
    filters.add(StreamFilter::Dct);
    match &filters {
        StreamFilters::Multiple(list) => assert_eq!(list.len(), 3),
        _ => panic!("three filters are a list"),
    }
}

#[test]
fn content_stream_is_left_alone_without_compression() {
    let data = b"0 0 m 1 1 l S";
    let stream = FilterStream::new_from_content_stream(data, &settings(false, false));
    assert_eq!(stream.encoded_data(), data);
    assert!(stream.declared_filters().is_empty());
    let stream = FilterStream::new_from_content_stream(data, &settings(false, true));
    assert_eq!(stream.encoded_data(), data);
    assert!(stream.declared_filters().is_empty());
}

#[test]
fn content_stream_is_compressed_then_armored() {
    let data = b"0 0 m 1 1 l S 0 0 m 1 1 l S 0 0 m 1 1 l S";
    let stream = FilterStream::new_from_content_stream(data, &settings(true, false));
    assert_eq!(stream.declared_filters(), vec![StreamFilter::Flate]);
    assert_eq!(
        miniz_oxide::inflate::decompress_to_vec_zlib(stream.encoded_data()).unwrap(),
        data.to_vec()
    );
    let stream = FilterStream::new_from_content_stream(data, &settings(true, true));
    assert_eq!(
        stream.declared_filters(),
        vec![StreamFilter::AsciiHex, StreamFilter::Flate]
    );
    assert!(stream.encoded_data().is_ascii());
    let compressed = hex_decode(stream.encoded_data());
    assert_eq!(
        miniz_oxide::inflate::decompress_to_vec_zlib(&compressed).unwrap(),
        data.to_vec()
    );
}

#[test]
fn binary_data_is_always_compressed() {
    let data = vec![7u8; 300];
    let stream = FilterStream::new_from_binary_data(&data, &settings(false, false));
    assert_eq!(stream.declared_filters(), vec![StreamFilter::Flate]);
    assert_eq!(
        miniz_oxide::inflate::decompress_to_vec_zlib(stream.encoded_data()).unwrap(),
        data
    );
    let stream = FilterStream::new_from_binary_data(&data, &settings(false, true));
    assert_eq!(
        stream.declared_filters(),
        vec![StreamFilter::AsciiHex, StreamFilter::Flate]
    );
    assert_eq!(
        miniz_oxide::inflate::decompress_to_vec_zlib(&hex_decode(stream.encoded_data())).unwrap(),
        data
    );
}

#[test]
fn jpeg_data_is_never_compressed_again() {
    let data = vec![0xff, 0xd8, 0xff, 0xe0, 1, 2, 3];
    let stream = FilterStream::new_from_jpeg_data(&data, &settings(true, false));
    assert_eq!(stream.encoded_data(), data.as_slice());
    assert_eq!(stream.declared_filters(), vec![StreamFilter::Dct]);
    let stream = FilterStream::new_from_jpeg_data(&data, &settings(true, true));
    assert_eq!(stream.encoded_data(), b"FFD8FFE0010203");
    assert_eq!(
        stream.declared_filters(),
        vec![StreamFilter::AsciiHex, StreamFilter::Dct]
    );
}

#[test]
fn plain_data_is_only_armored() {
    let data = vec![1u8, 2, 3];
    let stream = FilterStream::new_plain(&data, &settings(true, false));
    assert_eq!(stream.encoded_data(), data.as_slice());
    assert!(stream.declared_filters().is_empty());
    let stream = FilterStream::new_plain(&data, &settings(true, true));
    assert_eq!(stream.encoded_data(), b"010203");
    assert_eq!(stream.declared_filters(), vec![StreamFilter::AsciiHex]);
}

#[test]
fn added_filter_is_applied_to_what_is_there() {
    let data = vec![0xabu8];
    let mut stream = FilterStream::empty(&data);
    assert_eq!(stream.encoded_data(), &[0xab]);
    stream.add_filter(StreamFilter::AsciiHex);
    assert_eq!(stream.encoded_data(), b"AB");
    stream.add_filter(StreamFilter::AsciiHex);
    assert_eq!(stream.encoded_data(), b"4142");
    stream.add_filter(StreamFilter::Dct);
    assert_eq!(stream.encoded_data(), b"4142");
    assert_eq!(
        stream.declared_filters(),
        vec![
            StreamFilter::Dct,
            StreamFilter::AsciiHex,
            StreamFilter::AsciiHex
        ]
    );
}

#[test]
fn filters_are_declared_in_the_dictionary_of_the_stream() {
    let data = vec![1u8; 100];
    let none = FilterStream::new_plain(&data, &settings(false, false));
    let one = FilterStream::new_from_binary_data(&data, &settings(false, false));
    let two = FilterStream::new_from_binary_data(&data, &settings(false, true));
    let mut chunk = pdf_writer::Chunk::new();
    {
        let mut dict = chunk.indirect(pdf_writer::Ref::new(1)).dict();
        none.write_filters(&mut dict);
    }
    {
        let mut dict = chunk.indirect(pdf_writer::Ref::new(2)).dict();
        one.write_filters(&mut dict);
    }
    {
        let mut dict = chunk.indirect(pdf_writer::Ref::new(3)).dict();
        two.write_filters(&mut dict);
    }
    let text = String::from_utf8(chunk.as_bytes().to_vec()).unwrap();
    assert_eq!(
        text,
        "1 0 obj\n<<>>\nendobj\n\n2 0 obj\n<<\n  /Filter /FlateDecode\n>>\nendobj\n\n3 0 obj\n<<\n  /Filter [/ASCIIHexDecode /FlateDecode]\n>>\nendobj\n\n"
    );
}
