//! Content fingerprints: an MD5 digest over a bounded prefix of a file and
//! its size, so that large media files need not be hashed whole.
use vstd::prelude::*;
use crate::text::{decimal_ascii, decimal_bytes, string_of};

verus! {

/// Number of leading bytes of a file that its fingerprint covers; a smaller
/// file is covered whole.
pub const CHUNK_SIZE: usize = 131072;

/// The 16-byte MD5 digest of a byte sequence.
pub uninterp spec fn md5_of(data: Seq<u8>) -> Seq<u8>;

/// Relies on `md5::compute`: the MD5 digest of the bytes, 16 bytes long.
#[verifier::external_body]
fn md5_digest(data: &Vec<u8>) -> (r: Vec<u8>)
    ensures
        r@ == md5_of(data@),
        r@.len() == 16,
{
    md5::compute(data).0.to_vec()
}

/// The lower-case hexadecimal digit of a value below 16.
pub open spec fn hex_digit(d: nat) -> char {
    seq!['0', '1', '2', '3', '4', '5', '6', '7', '8', '9', 'a', 'b', 'c', 'd', 'e', 'f'][d as int]
}

/// Bytes written as lower-case hexadecimal, two digits each, in order.
pub open spec fn hex_of(b: Seq<u8>) -> Seq<char>
    decreases b.len(),
{
    if b.len() == 0 {
        Seq::empty()
    } else {
        hex_of(b.drop_last()) + seq![hex_digit(b.last() as nat / 16), hex_digit(b.last() as nat % 16)]
    }
}

/// The bytes that a file's fingerprint covers: its first `CHUNK_SIZE` bytes, or
/// all of them when it is smaller.
pub open spec fn covered_prefix(content: Seq<u8>) -> Seq<u8> {
    if content.len() <= CHUNK_SIZE {
        content
    } else {
        content.subrange(0, CHUNK_SIZE as int)
    }
}

/// The fingerprint of a file whose leading bytes are `content` and whose size
/// is `size`: the hex MD5 digest of the covered prefix followed by the size in
/// decimal ASCII.
pub open spec fn fingerprint_of(content: Seq<u8>, size: nat) -> Seq<char> {
    hex_of(md5_of(covered_prefix(content) + decimal_bytes(size)))
}

fn hex_char(d: u8) -> (r: char)
    requires
        d < 16,
    ensures
        r == hex_digit(d as nat),
{
    if d < 10 {
        if d == 0 {
            '0'
        } else if d == 1 {
            '1'
        } else if d == 2 {
            '2'
        } else if d == 3 {
            '3'
        } else if d == 4 {
            '4'
        } else if d == 5 {
            '5'
        } else if d == 6 {
            '6'
        } else if d == 7 {
            '7'
        } else if d == 8 {
            '8'
        } else {
            '9'
        }
    } else if d == 10 {
        'a'
    } else if d == 11 {
        'b'
    } else if d == 12 {
        'c'
    } else if d == 13 {
        'd'
    } else if d == 14 {
        'e'
    } else {
        'f'
    }
}

/// Writes bytes as lower-case hexadecimal.
pub fn to_hex(b: &Vec<u8>) -> (r: String)
    ensures
        r@ == hex_of(b@),
{
    let mut out: Vec<char> = Vec::new();
    let mut i: usize = 0;
    while i < b.len()
        invariant
            i <= b@.len(),
            out@ == hex_of(b@.subrange(0, i as int)),
        decreases b@.len() - i,
    {
        assert(b@.subrange(0, i + 1).drop_last() =~= b@.subrange(0, i as int));
        let x = b[i];
        out.push(hex_char(x / 16));
        out.push(hex_char(x % 16));
        assert(out@ =~= hex_of(b@.subrange(0, i + 1)));
        i = i + 1;
    }
    assert(b@.subrange(0, b@.len() as int) =~= b@);
    string_of(&out)
}

/// The MD5 digest of `buffer`, in lower-case hexadecimal.
pub fn compute_md5_hash(buffer: &Vec<u8>) -> (r: String)
    ensures
        r@ == hex_of(md5_of(buffer@)),
        r@.len() == 32,
{
    let digest = md5_digest(buffer);
    let r = to_hex(&digest);
    proof {
        lemma_hex_len(digest@);
    }
    r
}

pub proof fn lemma_hex_len(b: Seq<u8>)
    ensures
        hex_of(b).len() == 2 * b.len(),
    decreases b.len(),
{
    if b.len() > 0 {
        lemma_hex_len(b.drop_last());
    }
}

/// The fingerprint of a file of `file_size` bytes whose content starts with
/// `head`: only the first `CHUNK_SIZE` bytes of `head` are read.
pub fn compute_hash_of_partial_file(head: &Vec<u8>, file_size: u64) -> (r: String)
    ensures
        r@ == fingerprint_of(head@, file_size as nat),
{
    let n = if head.len() <= CHUNK_SIZE {
        head.len()
    } else {
        CHUNK_SIZE
    };
    let mut buffer: Vec<u8> = Vec::new();
    let mut i: usize = 0;
    while i < n
        invariant
            n <= head@.len(),
            n == covered_prefix(head@).len(),
            i <= n,
            buffer@ == head@.subrange(0, i as int),
        decreases n - i,
    {
        buffer.push(head[i]);
        assert(buffer@ =~= head@.subrange(0, i + 1));
        i = i + 1;
    }
    assert(buffer@ =~= covered_prefix(head@));
    let size_digits = decimal_ascii(file_size);
    let mut k: usize = 0;
    let ghost prefix = buffer@;
    while k < size_digits.len()
        invariant
            k <= size_digits@.len(),
            buffer@ == prefix + size_digits@.subrange(0, k as int),
        decreases size_digits@.len() - k,
    {
        buffer.push(size_digits[k]);
        assert(buffer@ =~= prefix + size_digits@.subrange(0, k + 1));
        k = k + 1;
    }
    assert(size_digits@.subrange(0, size_digits@.len() as int) =~= size_digits@);
    compute_md5_hash(&buffer)
}

/// A fingerprint depends on nothing but the covered prefix of the content and
/// the size: two files that agree on both have the same fingerprint, in any
/// run.
pub proof fn lemma_fingerprint_deterministic(a: Seq<u8>, b: Seq<u8>, size_a: nat, size_b: nat)
    requires
        covered_prefix(a) == covered_prefix(b),
        size_a == size_b,
    ensures
        fingerprint_of(a, size_a) == fingerprint_of(b, size_b),
{
}

} // verus!
