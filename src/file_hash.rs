//! Content digests, which tell exact duplicates from files that only share a name.
use vstd::prelude::*;

verus! {

/// The SHA-256 digest of `data`.
pub uninterp spec fn sha256_of(data: Seq<u8>) -> Seq<u8>;

/// The largest input the digest accepts.
pub const MAX_DIGEST_INPUT: u64 = 0x1000_0000_0000_0000;

/// Relies on ring's `digest::digest` with `digest::SHA256`: the 32-byte SHA-256
/// digest of `data`.
#[verifier::external_body]
fn sha256(data: &[u8]) -> (r: Vec<u8>)
    requires
        data@.len() < MAX_DIGEST_INPUT,
    ensures
        r@ == sha256_of(data@),
        r@.len() == 32,
{
    ring::digest::digest(&ring::digest::SHA256, data).as_ref().to_vec()
}

/// The upper-case hexadecimal digit of `n`, below 16.
pub open spec fn hex_digit(n: int) -> u8 {
    if n < 10 {
        (48 + n) as u8
    } else {
        (55 + n) as u8
    }
}

/// Two upper-case hexadecimal digits for each byte, high digit first.
pub open spec fn hex_upper(b: Seq<u8>) -> Seq<u8>
    decreases b.len(),
{
    if b.len() == 0 {
        Seq::empty()
    } else {
        hex_upper(b.drop_last()) + seq![hex_digit(b.last() as int / 16), hex_digit(b.last() as int % 16)]
    }
}

proof fn lemma_hex_upper_len(b: Seq<u8>)
    ensures
        hex_upper(b).len() == 2 * b.len(),
    decreases b.len(),
{
    if b.len() > 0 {
        lemma_hex_upper_len(b.drop_last());
    }
}

/// Relies on data-encoding's `HEXUPPER.encode`: two upper-case hexadecimal
/// digits for each byte.
#[verifier::external_body]
fn encode_hex_upper(b: &[u8]) -> (r: Vec<u8>)
    ensures
        r@ == hex_upper(b@),
{
    data_encoding::HEXUPPER.encode(b).into_bytes()
}

/// The content hash of a file: the SHA-256 digest of its bytes in upper-case
/// hexadecimal.
pub open spec fn content_hash(contents: Seq<u8>) -> Seq<u8> {
    hex_upper(sha256_of(contents))
}

/// The content hash of a file's bytes.
pub fn get_file_hash(contents: &[u8]) -> (r: Vec<u8>)
    requires
        contents@.len() < MAX_DIGEST_INPUT,
    ensures
        r@ == content_hash(contents@),
        r@.len() == 64,
{
    let digest = sha256(contents);
    proof {
        lemma_hex_upper_len(digest@);
    }
    encode_hex_upper(digest.as_slice())
}

/// Whether two files hold the same contents: equal lengths first, then equal
/// content hashes. Gives the hash when they do.
pub fn are_same_file_contents(x: &[u8], y: &[u8]) -> (r: Option<Vec<u8>>)
    requires
        x@.len() < MAX_DIGEST_INPUT,
        y@.len() < MAX_DIGEST_INPUT,
    ensures
        match r {
            Some(h) => x@.len() == y@.len() && content_hash(x@) == content_hash(y@) && h@
                == content_hash(x@),
            None => x@.len() != y@.len() || content_hash(x@) != content_hash(y@),
        },
{
    if x.len() != y.len() {
        return None;
    }
    let x_hash = get_file_hash(x);
    let y_hash = get_file_hash(y);
    if x_hash.len() != y_hash.len() {
        return None;
    }
    let mut i: usize = 0;
    while i < x_hash.len()
        invariant
            i <= x_hash@.len(),
            x_hash@.len() == y_hash@.len(),
            x_hash@ == content_hash(x@),
            y_hash@ == content_hash(y@),
            x@.len() == y@.len(),
            x_hash@.subrange(0, i as int) == y_hash@.subrange(0, i as int),
        decreases x_hash.len() - i,
    {
        if x_hash[i] != y_hash[i] {
            assert(x_hash@[i as int] != y_hash@[i as int]);
            return None;
        }
        i = i + 1;
        assert(x_hash@.subrange(0, i as int) =~= y_hash@.subrange(0, i as int));
    }
    assert(x_hash@ =~= x_hash@.subrange(0, i as int));
    assert(y_hash@ =~= y_hash@.subrange(0, i as int));
    Some(x_hash)
}

} // verus!
