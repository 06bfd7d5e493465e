//! The placeholders of a digital signature.
//!
//! A document that is to be signed reserves room for the signature and for
//! the description of the bytes that it covers. Both are written as marks of
//! fixed width, so that they can be found in the finished file and written
//! over in place, without moving a single byte of the rest.
use vstd::prelude::*;

verus! {

/// The number of bytes reserved for a signature.
pub const SIGNATURE_LEN: usize = 11110;

/// The number that stands in for each of the four numbers of the byte range.
pub const BYTE_RANGE_MARK: i32 = 88888888;

/// The content that stands in for a signature: the bytes `BE EF FA CE`,
/// followed by zeros.
pub open spec fn placeholder_contents() -> Seq<u8> {
    Seq::new(
        SIGNATURE_LEN as nat,
        |i: int|
            if i == 0 {
                0xBEu8
            } else if i == 1 {
                0xEFu8
            } else if i == 2 {
                0xFAu8
            } else if i == 3 {
                0xCEu8
            } else {
                0u8
            },
    )
}

/// The content that stands in for a signature.
pub fn placeholder() -> (contents: Vec<u8>)
    ensures
        contents@ == placeholder_contents(),
{
    let mut contents: Vec<u8> = Vec::new();
    contents.push(0xBE);
    contents.push(0xEF);
    contents.push(0xFA);
    contents.push(0xCE);
    while contents.len() < SIGNATURE_LEN
        invariant
            4 <= contents@.len() <= SIGNATURE_LEN,
            contents@[0] == 0xBEu8,
            contents@[1] == 0xEFu8,
            contents@[2] == 0xFAu8,
            contents@[3] == 0xCEu8,
            forall|i: int| 4 <= i < contents@.len() ==> contents@[i] == 0u8,
        decreases SIGNATURE_LEN - contents@.len(),
    {
        contents.push(0);
    }
    assert(contents@ =~= placeholder_contents());
    contents
}

/// The number of bytes that the content of a signature takes in a file: an
/// angle bracket, two hexadecimal digits for each byte, an angle bracket.
pub const CONTENTS_WIDTH: usize = 2 * SIGNATURE_LEN + 2;

/// The number of bytes that the byte range takes in a file.
pub const BYTE_RANGE_WIDTH: usize = 37;

/// The mark that stands in a file where the signature goes: `<BEEFFACE`,
/// zeros, `>`.
pub open spec fn contents_mark() -> Seq<u8> {
    Seq::new(
        CONTENTS_WIDTH as nat,
        |i: int|
            if i == 0 {
                60u8
            } else if i == 1 {
                66u8
            } else if i == 2 || i == 3 || i == 8 {
                69u8
            } else if i == 4 || i == 5 {
                70u8
            } else if i == 6 {
                65u8
            } else if i == 7 {
                67u8
            } else if i == CONTENTS_WIDTH - 1 {
                62u8
            } else {
                48u8
            },
    )
}

/// The mark that stands in a file where the byte range goes: four times
/// the number 88888888 in square brackets.
pub open spec fn byte_range_mark() -> Seq<u8> {
    Seq::new(
        BYTE_RANGE_WIDTH as nat,
        |i: int|
            if i == 0 {
                91u8
            } else if i == BYTE_RANGE_WIDTH - 1 {
                93u8
            } else if i % 9 == 0 {
                32u8
            } else {
                56u8
            },
    )
}

/// The mark for the signature is what stands for a signature in
/// hexadecimal, between angle brackets.
pub proof fn lemma_contents_mark()
    ensures
        contents_mark() == seq![60u8] + crate::stream::hex_digits(placeholder_contents()) + seq![
            62u8,
        ],
{
    let digits = crate::stream::hex_digits(placeholder_contents());
    let text = seq![60u8] + digits + seq![62u8];
    crate::stream::lemma_hex_digits_at(placeholder_contents(), 0);
    assert(text.len() == contents_mark().len());
    assert forall|i: int| 0 <= i < text.len() implies text[i] == contents_mark()[i] by {
        if 0 < i < text.len() - 1 {
            let k = (i - 1) / 2;
            crate::stream::lemma_hex_digits_at(placeholder_contents(), k);
            assert(text[i] == digits[i - 1]);
            if (i - 1) % 2 == 0 {
                assert(i - 1 == 2 * k);
            } else {
                assert(i - 1 == 2 * k + 1);
            }
        }
    }
    assert(text =~= contents_mark());
}

/// Whether `needle` stands in `haystack` at the place `at`.
pub open spec fn stands_at(haystack: Seq<u8>, needle: Seq<u8>, at: int) -> bool {
    &&& 0 <= at
    &&& at + needle.len() <= haystack.len()
    &&& haystack.subrange(at, at + needle.len()) == needle
}

/// Whether `needle` stands nowhere in `haystack`.
pub open spec fn absent(haystack: Seq<u8>, needle: Seq<u8>) -> bool {
    forall|j: int| !stands_at(haystack, needle, j)
}

/// Whether `at` is the first place at which `needle` stands in `haystack`.
pub open spec fn first_at(haystack: Seq<u8>, needle: Seq<u8>, at: int) -> bool {
    &&& stands_at(haystack, needle, at)
    &&& forall|j: int| 0 <= j < at ==> !stands_at(haystack, needle, j)
}

/// The byte of the mark for the signature at the place `i`.
fn contents_mark_at(i: usize) -> (byte: u8)
    requires
        i < CONTENTS_WIDTH,
    ensures
        byte == contents_mark()[i as int],
{
    if i == 0 {
        60
    } else if i == 1 {
        66
    } else if i == 2 || i == 3 || i == 8 {
        69
    } else if i == 4 || i == 5 {
        70
    } else if i == 6 {
        65
    } else if i == 7 {
        67
    } else if i == CONTENTS_WIDTH - 1 {
        62
    } else {
        48
    }
}

/// The byte of the mark for the byte range at the place `i`.
fn byte_range_mark_at(i: usize) -> (byte: u8)
    requires
        i < BYTE_RANGE_WIDTH,
    ensures
        byte == byte_range_mark()[i as int],
{
    if i == 0 {
        91
    } else if i == BYTE_RANGE_WIDTH - 1 {
        93
    } else if i % 9 == 0 {
        32
    } else {
        56
    }
}

/// Which of the two marks is meant.
#[derive(Clone, Copy, Debug, PartialEq, Eq, Structural)]
pub enum Mark {
    /// The mark where the signature goes.
    Contents,
    /// The mark where the byte range goes.
    ByteRange,
}

impl Mark {
    /// The bytes of the mark.
    pub open spec fn bytes(self) -> Seq<u8> {
        match self {
            Mark::Contents => contents_mark(),
            Mark::ByteRange => byte_range_mark(),
        }
    }

    /// The number of bytes of the mark.
    pub fn width(self) -> (n: usize)
        ensures
            n == self.bytes().len(),
    {
        match self {
            Mark::Contents => CONTENTS_WIDTH,
            Mark::ByteRange => BYTE_RANGE_WIDTH,
        }
    }

    /// The byte of the mark at the place `i`.
    fn byte_at(self, i: usize) -> (byte: u8)
        requires
            i < self.bytes().len(),
        ensures
            byte == self.bytes()[i as int],
    {
        match self {
            Mark::Contents => contents_mark_at(i),
            Mark::ByteRange => byte_range_mark_at(i),
        }
    }

    /// Whether the mark stands in the file at the place `at`.
    fn is_at(self, file: &[u8], at: usize) -> (b: bool)
        ensures
            b == stands_at(file@, self.bytes(), at as int),
    {
        let width = self.width();
        if width > file.len() || at > file.len() - width {
            return false;
        }
        let mut i: usize = 0;
        while i < width
            invariant
                i <= width,
                width == self.bytes().len(),
                at + width <= file@.len(),
                file@.len() <= usize::MAX,
                forall|j: int| 0 <= j < i ==> file@[at + j] == self.bytes()[j],
            decreases width - i,
        {
            if file[at + i] != self.byte_at(i) {
                assert(file@.subrange(at as int, at + width)[i as int] == file@[at + i]);
                return false;
            }
            i += 1;
        }
        assert(file@.subrange(at as int, at + width) =~= self.bytes());
        true
    }

    /// The first place at which the mark stands in the file.
    pub fn find(self, file: &[u8]) -> (place: Option<usize>)
        ensures
            match place {
                Some(at) => first_at(file@, self.bytes(), at as int),
                None => absent(file@, self.bytes()),
            },
    {
        let mut at: usize = 0;
        while at < file.len()
            invariant
                at <= file@.len(),
                forall|j: int| 0 <= j < at ==> !stands_at(file@, self.bytes(), j),
            decreases file@.len() - at,
        {
            if self.is_at(file, at) {
                return Some(at);
            }
            at += 1;
        }
        None
    }
}

/// The two runs of bytes that a signature covers: all that stands before
/// the content of the signature, and all that stands behind it.
#[derive(Clone, Copy, Debug, PartialEq, Eq, Structural)]
pub struct ByteRange {
    /// Where the first run starts.
    pub first_start: usize,
    /// The length of the first run.
    pub first_len: usize,
    /// Where the second run starts.
    pub second_start: usize,
    /// The length of the second run.
    pub second_len: usize,
}

/// The byte range of a file of `len` bytes in which the content of the
/// signature stands at `contents`.
pub open spec fn byte_range_of(len: int, contents: int) -> ByteRange {
    ByteRange {
        first_start: 0,
        first_len: contents as usize,
        second_start: (contents + CONTENTS_WIDTH) as usize,
        second_len: (len - contents - CONTENTS_WIDTH) as usize,
    }
}

/// The decimal digits of a number.
pub open spec fn digits(n: nat) -> Seq<u8>
    decreases n,
{
    if n < 10 {
        seq![(48 + n) as u8]
    } else {
        digits(n / 10).push((48 + n % 10) as u8)
    }
}

/// The four numbers of a byte range, each followed by a space but the last.
pub open spec fn byte_range_numbers(range: ByteRange) -> Seq<u8> {
    digits(range.first_start as nat) + seq![32u8] + digits(range.first_len as nat) + seq![32u8]
        + digits(range.second_start as nat) + seq![32u8] + digits(range.second_len as nat)
}

/// The text of a byte range in a file: the numbers in square brackets, with
/// spaces before the closing bracket to fill the width of the mark.
pub open spec fn byte_range_text(range: ByteRange) -> Seq<u8> {
    let numbers = byte_range_numbers(range);
    seq![91u8] + numbers + Seq::new((BYTE_RANGE_WIDTH - 2 - numbers.len()) as nat, |i: int| 32u8)
        + seq![93u8]
}

/// Appends the decimal digits of a number.
fn push_digits(text: &mut Vec<u8>, n: usize)
    ensures
        final(text)@ == old(text)@ + digits(n as nat),
    decreases n,
{
    if n >= 10 {
        push_digits(text, n / 10);
    }
    text.push((48 + n % 10) as u8);
    assert(text@ =~= old(text)@ + digits(n as nat));
}

/// The four numbers of a byte range, each followed by a space but the last.
fn numbers_of(range: ByteRange) -> (text: Vec<u8>)
    ensures
        text@ == byte_range_numbers(range),
{
    let mut text: Vec<u8> = Vec::new();
    push_digits(&mut text, range.first_start);
    text.push(32);
    push_digits(&mut text, range.first_len);
    text.push(32);
    push_digits(&mut text, range.second_start);
    text.push(32);
    push_digits(&mut text, range.second_len);
    assert(text@ =~= byte_range_numbers(range));
    text
}

/// A file in which the marks of a signature have been found.
pub struct Unsigned {
    /// The bytes of the file.
    pub file: Vec<u8>,
    /// Where the content of the signature stands.
    pub contents: usize,
    /// The two runs of bytes that the signature covers.
    pub range: ByteRange,
}

/// `after` is `before` with the bytes from `at` on replaced by `text`.
pub open spec fn overwritten(before: Seq<u8>, after: Seq<u8>, at: int, text: Seq<u8>) -> bool {
    &&& after.len() == before.len()
    &&& 0 <= at
    &&& at + text.len() <= before.len()
    &&& after.subrange(at, at + text.len()) == text
    &&& forall|i: int|
        0 <= i < before.len() && !(at <= i < at + text.len()) ==> #[trigger] after[i] == before[i]
}

/// Writes `text` over the bytes of the file from `at` on.
fn overwrite(file: &mut Vec<u8>, at: usize, text: &Vec<u8>)
    requires
        at + text@.len() <= old(file)@.len(),
    ensures
        overwritten(old(file)@, final(file)@, at as int, text@),
{
    let len = file.len();
    let mut i: usize = 0;
    while i < text.len()
        invariant
            i <= text@.len(),
            file@.len() == old(file)@.len(),
            at + text@.len() <= file@.len(),
            file@.len() == len,
            forall|j: int| 0 <= j < i ==> file@[at + j] == text@[j],
            forall|j: int|
                0 <= j < file@.len() && !(at <= j < at + i) ==> #[trigger] file@[j] == old(file)@[j],
        decreases text@.len() - i,
    {
        file.set(at + i, text[i]);
        i += 1;
    }
    assert(file@.subrange(at as int, at + text@.len()) =~= text@);
}

/// Finds the two marks in a finished file and writes the byte range over
/// its mark: the two runs of bytes before and behind the content of the
/// signature. The file keeps its length, and no other byte changes.
/// Returns `None`, where a mark is missing or the numbers do not fit.
pub fn prepare(file: Vec<u8>) -> (result: Option<Unsigned>)
    ensures
        match result {
            Some(unsigned) => exists|at: int|
                {
                    &&& first_at(file@, contents_mark(), unsigned.contents as int)
                    &&& #[trigger] first_at(file@, byte_range_mark(), at)
                    &&& unsigned.range == byte_range_of(file@.len() as int, unsigned.contents as int)
                    &&& byte_range_numbers(unsigned.range).len() <= BYTE_RANGE_WIDTH - 2
                    &&& overwritten(file@, unsigned.file@, at, byte_range_text(unsigned.range))
                },
            None => absent(file@, contents_mark()) || absent(file@, byte_range_mark()) || exists|
                at: int,
            | #[trigger]
                first_at(file@, contents_mark(), at) && byte_range_numbers(
                    byte_range_of(file@.len() as int, at),
                ).len() > BYTE_RANGE_WIDTH - 2,
        },
{
    let contents = match Mark::Contents.find(file.as_slice()) {
        Some(at) => at,
        None => {
            return None;
        },
    };
    let at = match Mark::ByteRange.find(file.as_slice()) {
        Some(at) => at,
        None => {
            return None;
        },
    };
    let len = file.len();
    assert(contents + CONTENTS_WIDTH <= len);
    let range = ByteRange {
        first_start: 0,
        first_len: contents,
        second_start: contents + CONTENTS_WIDTH,
        second_len: len - contents - CONTENTS_WIDTH,
    };
    let numbers = numbers_of(range);
    if numbers.len() > BYTE_RANGE_WIDTH - 2 {
        assert(first_at(file@, contents_mark(), contents as int));
        return None;
    }
    let mut text: Vec<u8> = Vec::new();
    text.push(91);
    let mut i: usize = 0;
    while i < numbers.len()
        invariant
            i <= numbers@.len(),
            text@ == seq![91u8] + numbers@.take(i as int),
        decreases numbers@.len() - i,
    {
        text.push(numbers[i]);
        assert(text@ =~= seq![91u8] + numbers@.take(i + 1));
        i += 1;
    }
    assert(numbers@.take(numbers@.len() as int) =~= numbers@);
    let ghost head = text@;
    while text.len() < BYTE_RANGE_WIDTH - 1
        invariant
            head.len() <= text@.len() <= BYTE_RANGE_WIDTH - 1,
            head.len() == 1 + numbers@.len(),
            text@ == head + Seq::new((text@.len() - head.len()) as nat, |i: int| 32u8),
        decreases BYTE_RANGE_WIDTH - 1 - text@.len(),
    {
        let ghost before = text@;
        text.push(32);
        assert(text@ =~= head + Seq::new((text@.len() - head.len()) as nat, |i: int| 32u8));
    }
    text.push(93);
    assert(text@ =~= byte_range_text(range));
    let mut file = file;
    overwrite(&mut file, at, &text);
    Some(Unsigned { file, contents, range })
}

/// What stands in a file in place of the mark for the signature: the
/// signature in hexadecimal between angle brackets, filled up with zeros.
pub open spec fn contents_text(signature: Seq<u8>) -> Seq<u8> {
    Seq::new(
        CONTENTS_WIDTH as nat,
        |i: int|
            if i == 0 {
                60u8
            } else if i == CONTENTS_WIDTH - 1 {
                62u8
            } else if i - 1 < 2 * signature.len() {
                if (i - 1) % 2 == 0 {
                    crate::stream::hex_digit(signature[(i - 1) / 2] / 16)
                } else {
                    crate::stream::hex_digit(signature[(i - 1) / 2] % 16)
                }
            } else {
                48u8
            },
    )
}

/// Writes the signature over its mark. The file keeps its length, and no
/// byte of the two runs that the signature covers changes. Returns the file
/// unchanged, and `false`, where the signature is longer than the room
/// reserved for it.
pub fn sign(unsigned: Unsigned, signature: &[u8]) -> (result: (Vec<u8>, bool))
    ensures
        result.1 == (signature@.len() <= SIGNATURE_LEN && unsigned.contents + CONTENTS_WIDTH
            <= unsigned.file@.len()),
        !result.1 ==> result.0@ == unsigned.file@,
        result.1 ==> overwritten(
            unsigned.file@,
            result.0@,
            unsigned.contents as int,
            contents_text(signature@),
        ),
{
    let Unsigned { file, contents, range } = unsigned;
    if signature.len() > SIGNATURE_LEN || file.len() < CONTENTS_WIDTH || contents > file.len()
        - CONTENTS_WIDTH {
        return (file, false);
    }
    let mut text: Vec<u8> = Vec::new();
    text.push(60);
    let mut i: usize = 0;
    while i < signature.len()
        invariant
            i <= signature@.len(),
            signature@.len() <= SIGNATURE_LEN,
            text@.len() == 1 + 2 * i,
            forall|j: int| 0 <= j < text@.len() ==> text@[j] == contents_text(signature@)[j],
        decreases signature@.len() - i,
    {
        let byte = signature[i];
        let high = byte / 16;
        let low = byte % 16;
        text.push(if high < 10 {
            48 + high
        } else {
            55 + high
        });
        text.push(if low < 10 {
            48 + low
        } else {
            55 + low
        });
        i += 1;
    }
    while text.len() < CONTENTS_WIDTH - 1
        invariant
            1 + 2 * signature@.len() <= text@.len() <= CONTENTS_WIDTH - 1,
            forall|j: int| 0 <= j < text@.len() ==> text@[j] == contents_text(signature@)[j],
        decreases CONTENTS_WIDTH - 1 - text@.len(),
    {
        text.push(48);
    }
    text.push(62);
    assert(text@ =~= contents_text(signature@));
    let mut file = file;
    overwrite(&mut file, contents, &text);
    (file, true)
}

/// The mark for the signature and the mark for the byte range share no
/// byte, so they never overlap in a file.
pub proof fn lemma_marks_apart(file: Seq<u8>, contents: int, at: int)
    requires
        stands_at(file, contents_mark(), contents),
        stands_at(file, byte_range_mark(), at),
    ensures
        at + BYTE_RANGE_WIDTH <= contents || contents + CONTENTS_WIDTH <= at,
{
    if !(at + BYTE_RANGE_WIDTH <= contents || contents + CONTENTS_WIDTH <= at) {
        let p = if at >= contents {
            at
        } else {
            contents
        };
        assert(file.subrange(contents, contents + CONTENTS_WIDTH)[p - contents] == file[p]);
        assert(file.subrange(at, at + BYTE_RANGE_WIDTH)[p - at] == file[p]);
        assert(contents_mark()[p - contents] != byte_range_mark()[p - at]);
    }
}

/// Signing a file keeps its length, and the byte range that it declares
/// points at the bytes around the signature: the first run starts the file
/// and ends where the content of the signature begins, the second run
/// begins where that content ends and ends the file. No byte of either run
/// changes when the signature is written, and the byte range stays where it
/// was written.
pub proof fn lemma_signing_in_place(
    file: Seq<u8>,
    contents: int,
    at: int,
    prepared: Seq<u8>,
    signature: Seq<u8>,
    signed: Seq<u8>,
)
    requires
        file.len() <= usize::MAX,
        stands_at(file, contents_mark(), contents),
        stands_at(file, byte_range_mark(), at),
        byte_range_numbers(byte_range_of(file.len() as int, contents)).len() <= BYTE_RANGE_WIDTH
            - 2,
        overwritten(file, prepared, at, byte_range_text(byte_range_of(file.len() as int, contents))),
        overwritten(prepared, signed, contents, contents_text(signature)),
    ensures
        signed.len() == file.len(),
        ({
            let range = byte_range_of(file.len() as int, contents);
            &&& range.first_start == 0
            &&& range.first_len == contents
            &&& range.second_start == contents + CONTENTS_WIDTH
            &&& range.second_start + range.second_len == file.len()
            &&& signed.subrange(0, contents) == prepared.subrange(0, contents)
            &&& signed.subrange(contents + CONTENTS_WIDTH, file.len() as int) == prepared.subrange(
                contents + CONTENTS_WIDTH,
                file.len() as int,
            )
            &&& signed.subrange(contents, contents + CONTENTS_WIDTH) == contents_text(signature)
            &&& stands_at(signed, byte_range_text(range), at)
        }),
{
    let range = byte_range_of(file.len() as int, contents);
    lemma_marks_apart(file, contents, at);
    assert(signed.subrange(0, contents) =~= prepared.subrange(0, contents));
    assert(signed.subrange(contents + CONTENTS_WIDTH, file.len() as int) =~= prepared.subrange(
        contents + CONTENTS_WIDTH,
        file.len() as int,
    ));
    assert(byte_range_text(range).len() == BYTE_RANGE_WIDTH);
    assert(signed.subrange(at, at + BYTE_RANGE_WIDTH) =~= prepared.subrange(
        at,
        at + BYTE_RANGE_WIDTH,
    ));
}

} // verus!
