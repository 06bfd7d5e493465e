//! Small helpers shared by the modules.
use vstd::prelude::*;

verus! {

/// A slot for a fragment that its producer may have made in the background.
/// The slot is filled when it is made; whoever reads it finds the value there.
#[derive(Debug)]
pub struct Deferred<T> {
    value: T,
}

impl<T> View for Deferred<T> {
    type V = T;

    closed spec fn view(&self) -> T {
        self.value
    }
}

impl<T> Deferred<T> {
    /// A slot that holds `value`.
    pub fn new(value: T) -> (slot: Deferred<T>)
        ensures
            slot@ == value,
    {
        Deferred { value }
    }

    /// The value of the slot.
    pub fn wait(&self) -> (value: &T)
        ensures
            *value == self@,
    {
        &self.value
    }

    /// The value of the slot, to be changed in place.
    pub fn wait_mut(&mut self) -> (value: &mut T)
        ensures
            *value == old(self)@,
            final(self)@ == *final(value),
    {
        &mut self.value
    }
}

/// The two halves of the 128-bit SipHash-1-3 of a byte sequence under the
/// key of zeros.
pub uninterp spec fn sip_halves(data: Seq<u8>) -> (u64, u64);

/// The 128-bit SipHash-1-3 of a byte sequence under the key of zeros, as
/// one number: the first half in the low bits, the second in the high
/// bits, on every machine.
pub open spec fn sip_hash_128(data: Seq<u8>) -> u128 {
    (sip_halves(data).0 as u128) | ((sip_halves(data).1 as u128) << 64)
}

/// Calls `SipHasher13::hash` on a hasher made by `SipHasher13::new`: the hash
/// of the bytes under the key of zeros, as the two halves that the hasher
/// ends with.
#[verifier::external_body]
pub(crate) fn sip128(data: &[u8]) -> (halves: (u64, u64))
    ensures
        halves == sip_halves(data@),
{
    let hash = siphasher::sip128::SipHasher13::new().hash(data);
    (hash.h1, hash.h2)
}

/// Whether two byte sequences are the same.
pub fn same_bytes(a: &[u8], b: &[u8]) -> (same: bool)
    ensures
        same == (a@ == b@),
{
    if a.len() != b.len() {
        return false;
    }
    let mut i: usize = 0;
    while i < a.len()
        invariant
            a@.len() == b@.len(),
            i <= a@.len(),
            forall|j: int| 0 <= j < i ==> a@[j] == b@[j],
        decreases a@.len() - i,
    {
        if a[i] != b[i] {
            return false;
        }
        i += 1;
    }
    assert(a@ =~= b@);
    true
}

/// The hash by which two byte sequences are told apart.
pub fn hash_item(data: &[u8]) -> (hash: u128)
    ensures
        hash == sip_hash_128(data@),
{
    let (low, high) = sip128(data);
    (low as u128) | ((high as u128) << 64)
}

/// The byte of a 128-bit number at place `i`, counted from the most
/// significant one.
pub open spec fn be_byte(value: u128, i: int) -> u8 {
    ((value >> (((15 - i) * 8) as u128)) & 0xff) as u8
}

/// The sixteen bytes of a 128-bit number, the most significant one first.
pub open spec fn be_bytes(value: u128) -> Seq<u8> {
    Seq::new(16, |i: int| be_byte(value, i))
}

/// The sixteen bytes of a 128-bit number, the most significant one first.
pub fn to_be_bytes(value: u128) -> (bytes: Vec<u8>)
    ensures
        bytes@ == be_bytes(value),
{
    let mut bytes: Vec<u8> = Vec::new();
    let mut i: usize = 0;
    while i < 16
        invariant
            i <= 16,
            bytes@.len() == i,
            forall|j: int| 0 <= j < i ==> bytes@[j] == be_byte(value, j),
        decreases 16 - i,
    {
        let shift: u128 = ((15 - i) * 8) as u128;
        let byte: u128 = (value >> shift) & 0xff;
        assert(byte < 256) by (bit_vector)
            requires
                byte == (value >> shift) & 0xff,
        ;
        bytes.push(byte as u8);
        i += 1;
    }
    assert(bytes@ =~= be_bytes(value));
    bytes
}

/// The character that base64 writes for a number below 64.
pub open spec fn base64_char(v: u8) -> u8 {
    if v < 26 {
        (65 + v) as u8
    } else if v < 52 {
        (71 + v) as u8
    } else if v < 62 {
        (v - 4) as u8
    } else if v == 62 {
        43
    } else {
        47
    }
}

/// The four characters for three bytes.
pub open spec fn base64_triple(a: u8, b: u8, c: u8) -> Seq<u8> {
    seq![
        base64_char(a >> 2),
        base64_char(((a & 3) << 4) | (b >> 4)),
        base64_char(((b & 15) << 2) | (c >> 6)),
        base64_char(c & 63),
    ]
}

/// The base64 encoding of a byte sequence, in the standard alphabet and
/// padded with `=` to a multiple of four characters.
pub open spec fn base64(data: Seq<u8>) -> Seq<u8>
    decreases data.len(),
{
    if data.len() == 0 {
        Seq::empty()
    } else if data.len() == 1 {
        seq![base64_char(data[0] >> 2), base64_char((data[0] & 3) << 4), 61u8, 61u8]
    } else if data.len() == 2 {
        seq![
            base64_char(data[0] >> 2),
            base64_char(((data[0] & 3) << 4) | (data[1] >> 4)),
            base64_char((data[1] & 15) << 2),
            61u8,
        ]
    } else {
        base64_triple(data[0], data[1], data[2]) + base64(data.skip(3))
    }
}

/// The base64 encoding holds ASCII characters only.
pub proof fn lemma_base64_ascii(data: Seq<u8>)
    ensures
        forall|i: int| 0 <= i < base64(data).len() ==> #[trigger] base64(data)[i] < 128,
    decreases data.len(),
{
    assert(forall|v: u8| #[trigger] base64_char(v) < 128);
    if data.len() >= 3 {
        lemma_base64_ascii(data.skip(3));
        let head = base64_triple(data[0], data[1], data[2]);
        let tail = base64(data.skip(3));
        assert forall|i: int| 0 <= i < base64(data).len() implies #[trigger] base64(data)[i]
            < 128 by {
            if i < 4 {
                assert(base64(data)[i] == head[i]);
            } else {
                assert(base64(data)[i] == tail[i - 4]);
            }
        }
    }
}

/// The character that base64 writes for a number below 64.
fn base64_digit(v: u8) -> (c: u8)
    requires
        v < 64,
    ensures
        c == base64_char(v),
{
    if v < 26 {
        65 + v
    } else if v < 52 {
        71 + v
    } else if v < 62 {
        v - 4
    } else if v == 62 {
        43
    } else {
        47
    }
}

/// Encodes bytes in base64.
pub fn base64_encode(data: &[u8]) -> (text: Vec<u8>)
    ensures
        text@ == base64(data@),
{
    let mut text: Vec<u8> = Vec::new();
    let n = data.len();
    let mut i: usize = 0;
    assert(data@.skip(0) =~= data@);
    while n - i >= 3
        invariant
            n == data@.len(),
            i <= n,
            base64(data@) == text@ + base64(data@.skip(i as int)),
        decreases n - i,
    {
        let a = data[i];
        let b = data[i + 1];
        let c = data[i + 2];
        assert(a >> 2 < 64 && ((a & 3) << 4) | (b >> 4) < 64 && ((b & 15) << 2) | (c >> 6) < 64 && c
            & 63 < 64) by (bit_vector);
        let ghost rest = data@.skip(i as int);
        assert(rest.skip(3) =~= data@.skip(i + 3));
        assert(rest[0] == a && rest[1] == b && rest[2] == c);
        let ghost before = text@;
        text.push(base64_digit(a >> 2));
        text.push(base64_digit(((a & 3) << 4) | (b >> 4)));
        text.push(base64_digit(((b & 15) << 2) | (c >> 6)));
        text.push(base64_digit(c & 63));
        assert(text@ =~= before + base64_triple(a, b, c));
        assert(text@ + base64(data@.skip(i + 3)) =~= before + base64(rest));
        i += 3;
    }
    let ghost rest = data@.skip(i as int);
    if n - i == 1 {
        let a = data[i];
        assert(a >> 2 < 64 && (a & 3) << 4 < 64) by (bit_vector);
        assert(rest[0] == a);
        let ghost before = text@;
        text.push(base64_digit(a >> 2));
        text.push(base64_digit((a & 3) << 4));
        text.push(61);
        text.push(61);
        assert(text@ =~= before + base64(rest));
    } else if n - i == 2 {
        let a = data[i];
        let b = data[i + 1];
        assert(a >> 2 < 64 && ((a & 3) << 4) | (b >> 4) < 64 && (b & 15) << 2 < 64) by (bit_vector);
        assert(rest[0] == a && rest[1] == b);
        let ghost before = text@;
        text.push(base64_digit(a >> 2));
        text.push(base64_digit(((a & 3) << 4) | (b >> 4)));
        text.push(base64_digit((b & 15) << 2));
        text.push(61);
        assert(text@ =~= before + base64(rest));
    } else {
        assert(text@ =~= text@ + base64(rest));
    }
    text
}

/// The hash of a byte sequence, written in base64.
pub fn hash_base64(data: &[u8]) -> (text: Vec<u8>)
    ensures
        text@ == base64(be_bytes(sip_hash_128(data@))),
{
    let bytes = to_be_bytes(hash_item(data));
    base64_encode(bytes.as_slice())
}

} // verus!
