//! Length prefix codec of the RouterOS API and the framing of words and sentences.
use vstd::prelude::*;

verus! {

/// Largest length plus one that the five-byte prefix can carry (35 bits).
pub const MAX_ENCODABLE_LEN: u64 = 0x8_0000_0000;

/// Number of prefix bytes used for a word of `len` bytes.
pub open spec fn prefix_len(len: nat) -> nat {
    if len < 0x80 {
        1
    } else if len < 0x4000 {
        2
    } else if len < 0x20_0000 {
        3
    } else if len < 0x1000_0000 {
        4
    } else {
        5
    }
}

/// The prefix bytes of a length: the byte count marked in the leading bits of the first
/// byte, the remaining bits big-endian.
pub open spec fn length_bytes(len: nat) -> Seq<u8> {
    if len < 0x80 {
        seq![len as u8]
    } else if len < 0x4000 {
        seq![(0x80 + len / 0x100) as u8, (len % 0x100) as u8]
    } else if len < 0x20_0000 {
        seq![(0xC0 + len / 0x1_0000) as u8, (len / 0x100 % 0x100) as u8, (len % 0x100) as u8]
    } else if len < 0x1000_0000 {
        seq![
            (0xE0 + len / 0x100_0000) as u8,
            (len / 0x1_0000 % 0x100) as u8,
            (len / 0x100 % 0x100) as u8,
            (len % 0x100) as u8,
        ]
    } else {
        seq![
            (0xF0 + len / 0x1_0000_0000 % 8) as u8,
            (len / 0x100_0000 % 0x100) as u8,
            (len / 0x1_0000 % 0x100) as u8,
            (len / 0x100 % 0x100) as u8,
            (len % 0x100) as u8,
        ]
    }
}

/// Number of prefix bytes announced by the first byte of a prefix.
pub open spec fn header_size(first: u8) -> nat {
    if first < 0x80 {
        1
    } else if first < 0xC0 {
        2
    } else if first < 0xE0 {
        3
    } else if first < 0xF0 {
        4
    } else {
        5
    }
}

/// The length carried by a complete prefix `b` (at least `header_size(b[0])` bytes).
pub open spec fn prefix_value(b: Seq<u8>) -> nat
    recommends
        b.len() >= 1,
        b.len() >= header_size(b[0]),
{
    let first = b[0] as nat;
    if first < 0x80 {
        first
    } else if first < 0xC0 {
        (first - 0x80) as nat * 0x100 + b[1] as nat
    } else if first < 0xE0 {
        (first - 0xC0) as nat * 0x1_0000 + b[1] as nat * 0x100 + b[2] as nat
    } else if first < 0xF0 {
        (first - 0xE0) as nat * 0x100_0000 + b[1] as nat * 0x1_0000 + b[2] as nat * 0x100
            + b[3] as nat
    } else {
        (first % 8) * 0x1_0000_0000 + b[1] as nat * 0x100_0000 + b[2] as nat * 0x1_0000
            + b[3] as nat * 0x100 + b[4] as nat
    }
}

/// Decoding of the front of `b`: the length and the number of bytes the prefix took, or
/// nothing while the prefix is incomplete.
pub open spec fn decode_spec(b: Seq<u8>) -> Option<(nat, nat)> {
    if b.len() == 0 || b.len() < header_size(b[0]) {
        None
    } else {
        Some((prefix_value(b), header_size(b[0])))
    }
}

/// Bytes of one word on the wire: its length prefix, then its UTF-8 bytes.
pub open spec fn word_bytes(w: Seq<u8>) -> Seq<u8> {
    length_bytes(w.len()) + w
}

/// Bytes of a sentence: each word framed, then the empty word that ends it.
pub open spec fn sentence_bytes(words: Seq<Seq<u8>>) -> Seq<u8>
    decreases words.len(),
{
    if words.len() == 0 {
        seq![0u8]
    } else {
        word_bytes(words[0]) + sentence_bytes(words.drop_first())
    }
}

/// Encodes a word length as the variable-length prefix of the wire format.
pub fn encode_length(len: usize) -> (r: Vec<u8>)
    requires
        len < MAX_ENCODABLE_LEN,
    ensures
        r@ == length_bytes(len as nat),
        r@.len() == prefix_len(len as nat),
{
    let l = len as u64;
    if l < 0x80 {
        vec![l as u8]
    } else if l < 0x4000 {
        vec![(0x80 + l / 0x100) as u8, (l % 0x100) as u8]
    } else if l < 0x20_0000 {
        vec![(0xC0 + l / 0x1_0000) as u8, (l / 0x100 % 0x100) as u8, (l % 0x100) as u8]
    } else if l < 0x1000_0000 {
        vec![
            (0xE0 + l / 0x100_0000) as u8,
            (l / 0x1_0000 % 0x100) as u8,
            (l / 0x100 % 0x100) as u8,
            (l % 0x100) as u8,
        ]
    } else {
        vec![
            (0xF0 + l / 0x1_0000_0000 % 8) as u8,
            (l / 0x100_0000 % 0x100) as u8,
            (l / 0x1_0000 % 0x100) as u8,
            (l / 0x100 % 0x100) as u8,
            (l % 0x100) as u8,
        ]
    }
}

/// How many prefix bytes follow from the first one, so that a reader knows how many
/// more to take from the stream.
pub fn prefix_size(first: u8) -> (r: usize)
    ensures
        r == header_size(first),
{
    if first < 0x80 {
        1
    } else if first < 0xC0 {
        2
    } else if first < 0xE0 {
        3
    } else if first < 0xF0 {
        4
    } else {
        5
    }
}

/// Decodes the length prefix at the front of `b`, giving the length and the number of
/// prefix bytes, or `None` while fewer bytes than the prefix needs are present.
pub fn decode_length(b: &[u8]) -> (r: Option<(u64, usize)>)
    ensures
        r matches Some((v, n)) ==> decode_spec(b@) == Some((v as nat, n as nat)),
        r is None <==> decode_spec(b@) is None,
{
    if b.len() == 0 {
        return None;
    }
    let n = prefix_size(b[0]);
    if b.len() < n {
        return None;
    }
    let first = b[0] as u64;
    let v: u64 = if n == 1 {
        first
    } else if n == 2 {
        (first - 0x80) * 0x100 + b[1] as u64
    } else if n == 3 {
        (first - 0xC0) * 0x1_0000 + b[1] as u64 * 0x100 + b[2] as u64
    } else if n == 4 {
        (first - 0xE0) * 0x100_0000 + b[1] as u64 * 0x1_0000 + b[2] as u64 * 0x100
            + b[3] as u64
    } else {
        (first % 8) * 0x1_0000_0000 + b[1] as u64 * 0x100_0000 + b[2] as u64 * 0x1_0000
            + b[3] as u64 * 0x100 + b[4] as u64
    };
    Some((v, n))
}

/// Decoding the prefix of a length gives back that length, and consumes exactly the
/// prefix, for every length that the five forms can carry.
pub proof fn lemma_length_round_trip(len: nat)
    requires
        len < MAX_ENCODABLE_LEN,
    ensures
        decode_spec(length_bytes(len)) == Some((len, prefix_len(len))),
        length_bytes(len).len() == prefix_len(len),
{
    let b = length_bytes(len);
    if len < 0x80 {
    } else if len < 0x4000 {
        assert(len == (len / 0x100) * 0x100 + len % 0x100);
    } else if len < 0x20_0000 {
        assert(len / 0x100 == (len / 0x1_0000) * 0x100 + len / 0x100 % 0x100);
        assert(len == (len / 0x100) * 0x100 + len % 0x100);
    } else if len < 0x1000_0000 {
        assert(len / 0x1_0000 == (len / 0x100_0000) * 0x100 + len / 0x1_0000 % 0x100);
        assert(len / 0x100 == (len / 0x1_0000) * 0x100 + len / 0x100 % 0x100);
        assert(len == (len / 0x100) * 0x100 + len % 0x100);
    } else {
        assert(len / 0x100_0000 == (len / 0x1_0000_0000) * 0x100 + len / 0x100_0000 % 0x100);
        assert(len / 0x1_0000 == (len / 0x100_0000) * 0x100 + len / 0x1_0000 % 0x100);
        assert(len / 0x100 == (len / 0x1_0000) * 0x100 + len / 0x100 % 0x100);
        assert(len == (len / 0x100) * 0x100 + len % 0x100);
        assert(len / 0x1_0000_0000 < 8);
        assert((0xF0 + len / 0x1_0000_0000 % 8) as u8 as nat % 8 == len / 0x1_0000_0000);
    }
}

/// The prefix of a length takes the number of bytes that the range table assigns to it:
/// one below 0x80, two below 0x4000, three below 0x20_0000, four below 0x1000_0000, else
/// five.
pub proof fn lemma_length_byte_count(len: nat)
    requires
        len < MAX_ENCODABLE_LEN,
    ensures
        length_bytes(len).len() == prefix_len(len),
        len < 0x80 ==> length_bytes(len).len() == 1,
        0x80 <= len < 0x4000 ==> length_bytes(len).len() == 2,
        0x4000 <= len < 0x20_0000 ==> length_bytes(len).len() == 3,
        0x20_0000 <= len < 0x1000_0000 ==> length_bytes(len).len() == 4,
        0x1000_0000 <= len ==> length_bytes(len).len() == 5,
{
}

} // verus!
