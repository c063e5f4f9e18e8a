use base64::Engine;
use sha2::Digest;
use vstd::prelude::*;

verus! {

/// The 32-byte SHA-256 digest of a byte sequence. The outside hash
/// implementation computes it; contracts only pass the name along.
pub uninterp spec fn spec_sha256(data: Seq<u8>) -> Seq<u8>;

/// Relies on sha2's `Sha256` (through `Digest::digest`): the SHA-256 digest
/// of the input, 32 bytes long, a function of the input bytes alone.
#[verifier::external_body]
pub(crate) fn sha256_digest(data: &[u8]) -> (r: Vec<u8>)
    ensures
        r@ == spec_sha256(data@),
        r@.len() == 32,
{
    sha2::Sha256::digest(data).to_vec()
}

/// The padded standard-alphabet base64 rendering of a byte sequence (RFC
/// 4648). The outside encoder computes it; contracts only pass the name
/// along.
pub uninterp spec fn spec_base64_standard(data: Seq<u8>) -> Seq<char>;

/// Relies on base64's `BASE64_STANDARD` engine (`Engine::encode`): the padded
/// standard-alphabet encoding, a function of the input bytes alone.
#[verifier::external_body]
pub(crate) fn base64_standard_encode(data: &[u8]) -> (r: String)
    ensures
        r@ == spec_base64_standard(data@),
{
    base64::prelude::BASE64_STANDARD.encode(data)
}

/// The lowercase hex digit character for a value in `0..=15`.
pub open spec fn spec_hex_digit(d: int) -> char {
    if d < 10 {
        (('0' as int) + d) as char
    } else {
        (('a' as int) + (d - 10)) as char
    }
}

/// The lowercase hex rendering of a byte sequence: two digits per byte, high
/// nibble first.
pub open spec fn spec_to_hex(data: Seq<u8>) -> Seq<char>
    decreases data.len(),
{
    if data.len() == 0 {
        Seq::empty()
    } else {
        spec_to_hex(data.drop_last()) + seq![
            spec_hex_digit(data.last() as int / 16),
            spec_hex_digit(data.last() as int % 16),
        ]
    }
}

fn hex_digit_str(d: u8) -> (s: &'static str)
    requires
        d < 16,
    ensures
        s@ =~= seq![spec_hex_digit(d as int)],
{
    let s = match d {
        0 => "0",
        1 => "1",
        2 => "2",
        3 => "3",
        4 => "4",
        5 => "5",
        6 => "6",
        7 => "7",
        8 => "8",
        9 => "9",
        10 => "a",
        11 => "b",
        12 => "c",
        13 => "d",
        14 => "e",
        _ => "f",
    };
    proof {
        reveal_strlit("0");
        reveal_strlit("1");
        reveal_strlit("2");
        reveal_strlit("3");
        reveal_strlit("4");
        reveal_strlit("5");
        reveal_strlit("6");
        reveal_strlit("7");
        reveal_strlit("8");
        reveal_strlit("9");
        reveal_strlit("a");
        reveal_strlit("b");
        reveal_strlit("c");
        reveal_strlit("d");
        reveal_strlit("e");
        reveal_strlit("f");
    }
    s
}

/// Renders a byte sequence in lowercase hex.
pub fn to_hex(data: &Vec<u8>) -> (r: String)
    ensures
        r@ == spec_to_hex(data@),
{
    let mut s = String::new();
    let mut i: usize = 0;
    proof {
        assert(data@.subrange(0, 0) =~= Seq::<u8>::empty());
    }
    while i < data.len()
        invariant
            0 <= i <= data@.len(),
            s@ == spec_to_hex(data@.subrange(0, i as int)),
        decreases data@.len() - i,
    {
        let b = data[i];
        proof {
            assert(data@.subrange(0, i + 1).drop_last() =~= data@.subrange(0, i as int));
            assert(data@.subrange(0, i + 1).last() == data@[i as int]);
        }
        s.append(hex_digit_str(b / 16));
        s.append(hex_digit_str(b % 16));
        i = i + 1;
    }
    proof {
        assert(data@.subrange(0, data@.len() as int) =~= data@);
    }
    s
}

/// The big-endian byte rendering of a 64-bit value, most significant byte
/// first.
pub open spec fn spec_be_bytes(n: u64) -> Seq<u8> {
    seq![
        (n >> 56) as u8,
        (n >> 48) as u8,
        (n >> 40) as u8,
        (n >> 32) as u8,
        (n >> 24) as u8,
        (n >> 16) as u8,
        (n >> 8) as u8,
        n as u8,
    ]
}

/// Renders a 64-bit value as its eight big-endian bytes.
pub fn be_bytes(n: u64) -> (r: Vec<u8>)
    ensures
        r@ =~= spec_be_bytes(n),
{
    let mut v: Vec<u8> = Vec::new();
    v.push((n >> 56) as u8);
    v.push((n >> 48) as u8);
    v.push((n >> 40) as u8);
    v.push((n >> 32) as u8);
    v.push((n >> 24) as u8);
    v.push((n >> 16) as u8);
    v.push((n >> 8) as u8);
    v.push(n as u8);
    v
}

} // verus!
