//! Content digests: SHA-256 over a piece's bytes, written as the algorithm's
//! name, a colon and the hash in lower-case hexadecimal.

use vstd::prelude::*;
use vstd::string::*;

verus! {

/// The SHA-256 hash of `data`, as its 32 bytes.
pub uninterp spec fn sha256(data: Seq<u8>) -> Seq<u8>;

/// Hashes `data` with `sha2::Sha256`, through the one-shot `Digest::digest`.
/// The result is a function of the bytes alone and is always 32 bytes long.
#[verifier::external_body]
fn sha256_bytes(data: &[u8]) -> (r: Vec<u8>)
    ensures
        r@ == sha256(data@),
        r@.len() == 32,
{
    <sha2::Sha256 as sha2::Digest>::digest(data).to_vec()
}

/// The lower-case hexadecimal digit for a value below 16.
pub open spec fn nibble_char(v: nat) -> char {
    if v < 10 {
        crate::text::digit_char(v)
    } else if v == 10 {
        'a'
    } else if v == 11 {
        'b'
    } else if v == 12 {
        'c'
    } else if v == 13 {
        'd'
    } else if v == 14 {
        'e'
    } else {
        'f'
    }
}

/// Two lower-case hexadecimal digits for each byte, high nibble first.
pub open spec fn hex(bytes: Seq<u8>) -> Seq<char>
    decreases bytes.len(),
{
    if bytes.len() == 0 {
        Seq::empty()
    } else {
        hex(bytes.drop_last()).push(nibble_char(bytes.last() as nat / 16)).push(
            nibble_char(bytes.last() as nat % 16),
        )
    }
}

/// The prefix that names the hash algorithm in a digest string.
pub open spec fn sha256_prefix() -> Seq<char> {
    seq!['s', 'h', 'a', '2', '5', '6', ':']
}

/// The digest string of `data`: `sha256:` followed by the hash in hex.
pub open spec fn piece_digest(data: Seq<u8>) -> Seq<char> {
    sha256_prefix() + hex(sha256(data))
}

/// Hexadecimal notation takes two characters per byte.
pub proof fn lemma_hex_len(bytes: Seq<u8>)
    ensures
        hex(bytes).len() == 2 * bytes.len(),
    decreases bytes.len(),
{
    if bytes.len() > 0 {
        lemma_hex_len(bytes.drop_last());
    }
}

fn nibble_str(v: u8) -> (r: &'static str)
    requires
        v < 16,
    ensures
        r@ == seq![nibble_char(v as nat)],
{
    proof {
        reveal_strlit("0");
        reveal_strlit("1");
        reveal_strlit("2");
        reveal_strlit("3");
        reveal_strlit("4");
        reveal_strlit("5");
        reveal_strlit("6");
        reveal_strlit("7");
        reveal_strlit("8");
        reveal_strlit("9");
        reveal_strlit("a");
        reveal_strlit("b");
        reveal_strlit("c");
        reveal_strlit("d");
        reveal_strlit("e");
        reveal_strlit("f");
    }
    let r = if v == 0 {
        "0"
    } else if v == 1 {
        "1"
    } else if v == 2 {
        "2"
    } else if v == 3 {
        "3"
    } else if v == 4 {
        "4"
    } else if v == 5 {
        "5"
    } else if v == 6 {
        "6"
    } else if v == 7 {
        "7"
    } else if v == 8 {
        "8"
    } else if v == 9 {
        "9"
    } else if v == 10 {
        "a"
    } else if v == 11 {
        "b"
    } else if v == 12 {
        "c"
    } else if v == 13 {
        "d"
    } else if v == 14 {
        "e"
    } else {
        "f"
    };
    assert(r@ =~= seq![nibble_char(v as nat)]);
    r
}

/// Writes `bytes` in lower-case hexadecimal.
pub fn hex_encode(bytes: &[u8]) -> (r: String)
    ensures
        r@ == hex(bytes@),
{
    let mut out = String::new();
    let mut i: usize = 0;
    while i < bytes.len()
        invariant
            i <= bytes@.len(),
            out@ == hex(bytes@.take(i as int)),
        decreases bytes@.len() - i,
    {
        let b: u8 = bytes[i];
        out.append(nibble_str(b / 16));
        out.append(nibble_str(b % 16));
        proof {
            assert(bytes@.take(i + 1).drop_last() =~= bytes@.take(i as int));
            assert(bytes@.take(i + 1).last() == b);
            assert(out@ =~= hex(bytes@.take(i + 1)));
        }
        i = i + 1;
    }
    assert(bytes@.take(i as int) =~= bytes@);
    out
}

/// The hash algorithms a digest can name.
#[derive(Clone, Copy, Debug, PartialEq, Eq, Structural)]
pub enum Algorithm {
    /// SHA-256, the only algorithm in use.
    Sha256,
}

/// A hash value together with the algorithm that produced it.
#[derive(Debug)]
pub struct Digest {
    algorithm: Algorithm,
    encoded: String,
}

impl Digest {
    /// The algorithm of this digest.
    pub closed spec fn spec_algorithm(&self) -> Algorithm {
        self.algorithm
    }

    /// The hash in hexadecimal, as handed to `new`.
    pub closed spec fn spec_encoded(&self) -> Seq<char> {
        self.encoded@
    }

    /// Pairs an algorithm with a hash already written in hexadecimal.
    pub fn new(algorithm: Algorithm, encoded: String) -> (r: Digest)
        ensures
            r.spec_algorithm() == algorithm,
            r.spec_encoded() == encoded@,
    {
        Digest { algorithm, encoded }
    }

    /// The algorithm of this digest.
    pub fn algorithm(&self) -> (r: Algorithm)
        ensures
            r == self.spec_algorithm(),
    {
        self.algorithm
    }

    /// The hash in hexadecimal.
    pub fn encoded(&self) -> (r: &str)
        ensures
            r@ == self.spec_encoded(),
    {
        self.encoded.as_str()
    }

    /// The canonical digest string: the algorithm's name, a colon, the hash.
    pub fn to_string(&self) -> (r: String)
        ensures
            r@ == sha256_prefix() + self.spec_encoded(),
    {
        proof {
            reveal_strlit("sha256:");
        }
        let mut out = String::from_str("sha256:");
        assert(out@ =~= sha256_prefix());
        out.append(self.encoded.as_str());
        out
    }
}

/// Hashes `data` and returns the hash in hexadecimal, 64 characters long.
pub fn sha256_hex(data: &[u8]) -> (r: String)
    ensures
        r@ == hex(sha256(data@)),
        r@.len() == 64,
{
    let hash = sha256_bytes(data);
    proof {
        lemma_hex_len(hash@);
    }
    hex_encode(hash.as_slice())
}

/// The digest string of `data`.
pub fn digest_of(data: &[u8]) -> (r: String)
    ensures
        r@ == piece_digest(data@),
{
    Digest::new(Algorithm::Sha256, sha256_hex(data)).to_string()
}

} // verus!
