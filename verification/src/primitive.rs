//! Fixed-length identifiers: 32-byte hashes and 20-byte addresses, their
//! ordering, their hexadecimal text, and the digest that derives them.

use vstd::prelude::*;
use vstd::string::StringSliceAdditionalSpecFns;

verus! {

/// The Keccak-256 digest of a byte string, as the `hasher` crate computes it.
pub uninterp spec fn keccak256(data: Seq<u8>) -> Seq<u8>;

/// Calls `hasher::HasherKeccak::digest`. The digest is a function of the input
/// bytes alone and is always 32 bytes long (the crate finalises into a
/// `[u8; 32]` and returns it as a vector).
#[verifier::external_body]
fn keccak(data: &Vec<u8>) -> (out: Vec<u8>)
    ensures
        out@ == keccak256(data@),
        out@.len() == 32,
{
    hasher::Hasher::digest(&hasher::HasherKeccak::new(), data.as_slice())
}

/// The number of leading positions at which two byte strings agree.
pub open spec fn common_prefix_len(a: Seq<u8>, b: Seq<u8>) -> nat
    decreases a.len(),
{
    if a.len() == 0 || b.len() == 0 || a[0] != b[0] {
        0
    } else {
        1 + common_prefix_len(a.skip(1), b.skip(1))
    }
}

/// Lexicographic order on byte strings of equal length.
pub open spec fn bytes_lt(a: Seq<u8>, b: Seq<u8>) -> bool {
    let k = common_prefix_len(a, b) as int;
    k < a.len() && k < b.len() && a[k] < b[k]
}

/// The common prefix is the same from both sides, is no longer than
/// either string, and ends where the strings first differ.
pub proof fn lemma_common_prefix(a: Seq<u8>, b: Seq<u8>)
    ensures
        common_prefix_len(a, b) == common_prefix_len(b, a),
        common_prefix_len(a, b) <= a.len(),
        common_prefix_len(a, b) <= b.len(),
        forall|i: int| 0 <= i < common_prefix_len(a, b) ==> a[i] == b[i],
        common_prefix_len(a, b) < a.len() && common_prefix_len(a, b) < b.len() ==> a[common_prefix_len(
            a,
            b,
        ) as int] != b[common_prefix_len(a, b) as int],
    decreases a.len(),
{
    if a.len() == 0 || b.len() == 0 || a[0] != b[0] {
    } else {
        lemma_common_prefix(a.skip(1), b.skip(1));
        let k = common_prefix_len(a.skip(1), b.skip(1)) as int;
        assert forall|i: int| 0 <= i < common_prefix_len(a, b) implies a[i] == b[i] by {
            if i > 0 {
                assert(a.skip(1)[i - 1] == a[i]);
                assert(b.skip(1)[i - 1] == b[i]);
            }
        }
        if k < a.len() - 1 && k < b.len() - 1 {
            assert(a.skip(1)[k] == a[k + 1]);
            assert(b.skip(1)[k] == b[k + 1]);
        }
    }
}

/// Of two distinct byte strings of one length exactly one precedes the other.
pub proof fn lemma_bytes_lt_total(a: Seq<u8>, b: Seq<u8>)
    requires
        a.len() == b.len(),
    ensures
        a == b ==> !bytes_lt(a, b) && !bytes_lt(b, a),
        a != b ==> (bytes_lt(a, b) <==> !bytes_lt(b, a)),
{
    lemma_common_prefix(a, b);
    if a != b {
        if common_prefix_len(a, b) == a.len() {
            assert(a =~= b);
        }
    }
}

/// Whether `a` and `b` agree at the first `n` positions.
pub open spec fn agree_upto(a: Seq<u8>, b: Seq<u8>, n: int) -> bool {
    forall|i: int| 0 <= i < n ==> a[i] == b[i]
}

/// Strings that agree at the first `n` positions and differ at the next,
/// or end there, have a common prefix of length `n`.
proof fn lemma_prefix_len_is(a: Seq<u8>, b: Seq<u8>, n: int)
    requires
        0 <= n <= a.len(),
        n <= b.len(),
        agree_upto(a, b, n),
        n < a.len() && n < b.len() ==> a[n] != b[n],
        n == a.len() || n == b.len() || a[n] != b[n],
    ensures
        common_prefix_len(a, b) == n,
    decreases n,
{
    if n == 0 {
    } else {
        let a1 = a.skip(1);
        let b1 = b.skip(1);
        assert(a[0] == b[0]);
        assert forall|i: int| 0 <= i < n - 1 implies a1[i] == b1[i] by {
            assert(a1[i] == a[i + 1]);
            assert(b1[i] == b[i + 1]);
        }
        if n - 1 < a1.len() && n - 1 < b1.len() {
            assert(a1[n - 1] == a[n]);
            assert(b1[n - 1] == b[n]);
        }
        lemma_prefix_len_is(a1, b1, n - 1);
    }
}

/// The text digit, in lower case, of a value below sixteen.
pub open spec fn hex_digit(v: u8) -> u8 {
    if v < 10 {
        (48 + v) as u8
    } else {
        (87 + v) as u8
    }
}

/// Lower-case hexadecimal text of a byte string, two digits per byte, as ASCII.
pub open spec fn hex_text(bytes: Seq<u8>) -> Seq<u8> {
    Seq::new(
        2 * bytes.len(),
        |i: int|
            if i % 2 == 0 {
                hex_digit(bytes[i / 2] / 16)
            } else {
                hex_digit(bytes[i / 2] % 16)
            },
    )
}

/// The text digit of a value below sixteen.
fn hex_digit_of(v: u8) -> (d: u8)
    requires
        v < 16,
    ensures
        d == hex_digit(v),
{
    if v < 10 {
        48 + v
    } else {
        87 + v
    }
}

/// Writes a byte string as lower-case hexadecimal text.
pub fn hex_encode(bytes: &[u8]) -> (out: Vec<u8>)
    ensures
        out@ == hex_text(bytes@),
{
    let mut out: Vec<u8> = Vec::new();
    let mut i: usize = 0;
    while i < bytes.len()
        invariant
            0 <= i <= bytes.len(),
            out@.len() == 2 * i,
            forall|j: int| 0 <= j < 2 * i ==> out@[j] == hex_text(bytes@)[j],
        decreases bytes.len() - i,
    {
        let b: u8 = bytes[i];
        out.push(hex_digit_of(b / 16));
        out.push(hex_digit_of(b % 16));
        i = i + 1;
    }
    assert(out@ =~= hex_text(bytes@));
    out
}

/// The value of a hexadecimal digit of either case, if the byte is one.
pub open spec fn hex_value(d: u8) -> Option<u8> {
    if 48 <= d <= 57 {
        Some((d - 48) as u8)
    } else if 97 <= d <= 102 {
        Some((d - 87) as u8)
    } else if 65 <= d <= 70 {
        Some((d - 55) as u8)
    } else {
        None
    }
}

/// The value of a hexadecimal digit, if the byte is one.
fn hex_value_of(d: u8) -> (v: Option<u8>)
    ensures
        v == hex_value(d),
        v matches Some(x) ==> x < 16,
{
    if 48 <= d && d <= 57 {
        Some(d - 48)
    } else if 97 <= d && d <= 102 {
        Some(d - 87)
    } else if 65 <= d && d <= 70 {
        Some(d - 55)
    } else {
        None
    }
}

/// The text without a leading `0x`, if it has one.
pub open spec fn strip_0x(text: Seq<u8>) -> Seq<u8> {
    if text.len() >= 2 && text[0] == 48 && text[1] == 120 {
        text.skip(2)
    } else {
        text
    }
}

/// Whether `text` is hexadecimal text of exactly `n` bytes.
pub open spec fn is_hex_of_len(text: Seq<u8>, n: nat) -> bool {
    text.len() == 2 * n && forall|i: int| 0 <= i < text.len() ==> hex_value(#[trigger] text[i]) is Some
}

/// The bytes that hexadecimal text of `n` bytes stands for.
pub open spec fn hex_bytes(text: Seq<u8>, n: nat) -> Seq<u8> {
    Seq::new(n, |i: int| (hex_value(text[2 * i])->0 * 16 + hex_value(text[2 * i + 1])->0) as u8)
}

/// Reads hexadecimal text, with or without a leading `0x`, of exactly `n` bytes.
pub fn hex_decode(text: &[u8], n: usize) -> (out: Option<Vec<u8>>)
    ensures
        out is Some <==> is_hex_of_len(strip_0x(text@), n as nat),
        out matches Some(v) ==> v@ == hex_bytes(strip_0x(text@), n as nat),
{
    let start: usize = if text.len() >= 2 && text[0] == 48 && text[1] == 120 {
        2
    } else {
        0
    };
    let ghost body = strip_0x(text@);
    assert(body.len() == text@.len() - start);
    assert(forall|i: int| 0 <= i < body.len() ==> body[i] == text@[i + start]);
    let digits: usize = text.len() - start;
    if digits % 2 != 0 || digits / 2 != n {
        return None;
    }
    let mut out: Vec<u8> = Vec::new();
    let mut i: usize = 0;
    while i < n
        invariant
            0 <= i <= n,
            start <= 2,
            digits == 2 * n,
            digits == text@.len() - start,
            text@.len() - start == 2 * n,
            body == strip_0x(text@),
            body.len() == 2 * n,
            forall|j: int| 0 <= j < body.len() ==> body[j] == text@[j + start],
            forall|j: int| 0 <= j < 2 * i ==> hex_value(#[trigger] body[j]) is Some,
            out@.len() == i,
            forall|j: int| 0 <= j < i ==> out@[j] == hex_bytes(body, n as nat)[j],
        decreases n - i,
    {
        let hi = hex_value_of(text[start + 2 * i]);
        let lo = hex_value_of(text[start + 2 * i + 1]);
        match (hi, lo) {
            (Some(h), Some(l)) => {
                out.push(h * 16 + l);
            },
            _ => {
                assert(hex_value(body[2 * i as int]) is None || hex_value(body[2 * i + 1]) is None);
                return None;
            },
        }
        i = i + 1;
    }
    assert(out@ =~= hex_bytes(body, n as nat));
    Some(out)
}


/// Whether two byte strings are the same.
pub fn bytes_equal(a: &[u8], b: &[u8]) -> (same: bool)
    ensures
        same == (a@ == b@),
{
    if a.len() != b.len() {
        return false;
    }
    let mut i: usize = 0;
    while i < a.len()
        invariant
            0 <= i <= a.len(),
            a.len() == b.len(),
            agree_upto(a@, b@, i as int),
        decreases a.len() - i,
    {
        if a[i] != b[i] {
            return false;
        }
        i = i + 1;
    }
    assert(a@ =~= b@);
    true
}

/// Whether `a` comes before `b` in lexicographic order.
pub fn bytes_less(a: &[u8], b: &[u8]) -> (less: bool)
    requires
        a@.len() == b@.len(),
    ensures
        less == bytes_lt(a@, b@),
{
    let mut i: usize = 0;
    while i < a.len()
        invariant
            0 <= i <= a.len(),
            a.len() == b.len(),
            agree_upto(a@, b@, i as int),
        decreases a.len() - i,
    {
        if a[i] != b[i] {
            proof {
                lemma_prefix_len_is(a@, b@, i as int);
            }
            return a[i] < b[i];
        }
        i = i + 1;
    }
    proof {
        lemma_prefix_len_is(a@, b@, i as int);
    }
    false
}

/// A 32-byte content identifier.
#[derive(Clone, Copy, Debug, PartialEq, Eq)]
pub struct Hash {
    pub bytes: [u8; 32],
}

/// A 20-byte account identifier.
#[derive(Clone, Copy, Debug, PartialEq, Eq)]
pub struct Address {
    pub bytes: [u8; 20],
}

/// The encoding of the empty value, whose digest is the empty hash.
pub open spec fn null_item() -> Seq<u8> {
    seq![128u8]
}

impl View for Hash {
    type V = Seq<u8>;

    open spec fn view(&self) -> Seq<u8> {
        self.bytes@
    }
}

impl View for Address {
    type V = Seq<u8>;

    open spec fn view(&self) -> Seq<u8> {
        self.bytes@
    }
}

/// Two hashes with the same bytes are the same hash.
pub broadcast proof fn lemma_hash_by_bytes(a: Hash, b: Hash)
    requires
        #[trigger] a@ == #[trigger] b@,
    ensures
        a == b,
{
    assert(a.bytes =~= b.bytes);
}

/// Two addresses with the same bytes are the same address.
pub broadcast proof fn lemma_address_by_bytes(a: Address, b: Address)
    requires
        #[trigger] a@ == #[trigger] b@,
    ensures
        a == b,
{
    assert(a.bytes =~= b.bytes);
}

/// The hash whose bytes are the digest of `data`.
pub open spec fn digest_of(data: Seq<u8>) -> Hash {
    choose|h: Hash| h@ == keccak256(data)
}

impl Hash {
    /// Computes the Keccak-256 digest of `data`.
    pub fn digest(data: &Vec<u8>) -> (h: Hash)
        ensures
            h == digest_of(data@),
            h@ == keccak256(data@),
    {
        let d = keccak(data);
        let mut bytes: [u8; 32] = [0u8; 32];
        let mut i: usize = 0;
        while i < 32
            invariant
                0 <= i <= 32,
                d@.len() == 32,
                forall|j: int| 0 <= j < i ==> bytes@[j] == d@[j],
            decreases 32 - i,
        {
            bytes[i] = d[i];
            i = i + 1;
        }
        assert(bytes@ =~= d@);
        let h = Hash { bytes };
        proof {
            lemma_hash_by_bytes(h, digest_of(data@));
        }
        h
    }

    /// The digest of the encoding of the empty value.
    pub fn from_empty() -> (h: Hash)
        ensures
            h == digest_of(null_item()),
    {
        let mut data: Vec<u8> = Vec::new();
        data.push(128u8);
        assert(data@ =~= null_item());
        Hash::digest(&data)
    }

    /// The hash made of exactly these 32 bytes.
    pub fn from_bytes(bytes: &[u8]) -> (out: Option<Hash>)
        ensures
            out is Some <==> bytes@.len() == 32,
            out matches Some(h) ==> h@ == bytes@,
    {
        if bytes.len() != 32 {
            return None;
        }
        let mut raw: [u8; 32] = [0u8; 32];
        let mut i: usize = 0;
        while i < 32
            invariant
                0 <= i <= 32,
                bytes@.len() == 32,
                forall|j: int| 0 <= j < i ==> raw@[j] == bytes@[j],
            decreases 32 - i,
        {
            raw[i] = bytes[i];
            i = i + 1;
        }
        assert(raw@ =~= bytes@);
        Some(Hash { bytes: raw })
    }

    /// Reads a hash from 64 hexadecimal digits, with or without a leading `0x`.
    pub fn from_hex(text: &str) -> (out: Option<Hash>)
        ensures
            out is Some <==> is_hex_of_len(strip_0x(text.spec_bytes()), 32),
            out matches Some(h) ==> h@ == hex_bytes(strip_0x(text.spec_bytes()), 32),
    {
        match hex_decode(text.as_bytes(), 32) {
            Some(v) => Hash::from_bytes(v.as_slice()),
            None => None,
        }
    }

    /// The 32 bytes.
    pub fn as_bytes(&self) -> (out: Vec<u8>)
        ensures
            out@ == self@,
    {
        vstd::slice::slice_to_vec(self.bytes.as_slice())
    }

    /// The hash as 64 lower-case hexadecimal digits.
    pub fn as_hex(&self) -> (out: Vec<u8>)
        ensures
            out@ == hex_text(self@),
    {
        hex_encode(self.bytes.as_slice())
    }

    /// Whether the two hashes are the same.
    pub fn equals(&self, other: &Hash) -> (same: bool)
        ensures
            same == (*self == *other),
    {
        let same = bytes_equal(self.bytes.as_slice(), other.bytes.as_slice());
        proof {
            if same {
                lemma_hash_by_bytes(*self, *other);
            }
        }
        same
    }

    /// Whether this hash precedes `other` in the total order on hashes.
    pub fn precedes(&self, other: &Hash) -> (less: bool)
        ensures
            less == bytes_lt(self@, other@),
    {
        bytes_less(self.bytes.as_slice(), other.bytes.as_slice())
    }
}

impl Address {
    /// The address of a hash: its first 20 bytes.
    pub fn from_hash(hash: &Hash) -> (a: Address)
        ensures
            a@ == hash@.take(20),
    {
        let mut raw: [u8; 20] = [0u8; 20];
        let mut i: usize = 0;
        while i < 20
            invariant
                0 <= i <= 20,
                forall|j: int| 0 <= j < i ==> raw@[j] == hash@[j],
            decreases 20 - i,
        {
            raw[i] = hash.bytes[i];
            i = i + 1;
        }
        assert(raw@ =~= hash@.take(20));
        Address { bytes: raw }
    }

    /// The address made of exactly these 20 bytes.
    pub fn from_bytes(bytes: &[u8]) -> (out: Option<Address>)
        ensures
            out is Some <==> bytes@.len() == 20,
            out matches Some(a) ==> a@ == bytes@,
    {
        if bytes.len() != 20 {
            return None;
        }
        let mut raw: [u8; 20] = [0u8; 20];
        let mut i: usize = 0;
        while i < 20
            invariant
                0 <= i <= 20,
                bytes@.len() == 20,
                forall|j: int| 0 <= j < i ==> raw@[j] == bytes@[j],
            decreases 20 - i,
        {
            raw[i] = bytes[i];
            i = i + 1;
        }
        assert(raw@ =~= bytes@);
        Some(Address { bytes: raw })
    }

    /// Reads an address from 40 hexadecimal digits, with or without a leading `0x`.
    pub fn from_hex(text: &str) -> (out: Option<Address>)
        ensures
            out is Some <==> is_hex_of_len(strip_0x(text.spec_bytes()), 20),
            out matches Some(a) ==> a@ == hex_bytes(strip_0x(text.spec_bytes()), 20),
    {
        match hex_decode(text.as_bytes(), 20) {
            Some(v) => Address::from_bytes(v.as_slice()),
            None => None,
        }
    }

    /// The 20 bytes.
    pub fn as_bytes(&self) -> (out: Vec<u8>)
        ensures
            out@ == self@,
    {
        vstd::slice::slice_to_vec(self.bytes.as_slice())
    }

    /// The address as 40 lower-case hexadecimal digits.
    pub fn as_hex(&self) -> (out: Vec<u8>)
        ensures
            out@ == hex_text(self@),
    {
        hex_encode(self.bytes.as_slice())
    }

    /// Whether this address precedes `other` in the total order on
    /// addresses.
    pub fn precedes(&self, other: &Address) -> (less: bool)
        ensures
            less == bytes_lt(self@, other@),
    {
        bytes_less(self.bytes.as_slice(), other.bytes.as_slice())
    }

    /// Whether the two addresses are the same.
    pub fn equals(&self, other: &Address) -> (same: bool)
        ensures
            same == (*self == *other),
    {
        let same = bytes_equal(self.bytes.as_slice(), other.bytes.as_slice());
        proof {
            if same {
                lemma_address_by_bytes(*self, *other);
            }
        }
        same
    }
}

} // verus!
