//! Hash functions over text, as the trees use them.

use crypto::digest::Digest;
use crypto::sha3::Sha3;
use vstd::prelude::*;

verus! {

/// The Keccak-256 digest of a text's UTF-8 bytes, written as lowercase
/// hexadecimal digits.
pub uninterp spec fn keccak256_hex(input: Seq<char>) -> Seq<char>;

/// Hashes `s` with Keccak-256 and returns the digest in hexadecimal.
///
/// Trusted: the body feeds `s` to a fresh `crypto::sha3::Sha3::keccak256()`
/// through `Digest::input_str` and reads it with `Digest::result_str`. The
/// contract claims no more than that the text returned depends on the
/// characters of `s` alone.
#[verifier::external_body]
pub fn keccak256(s: &str) -> (digest: String)
    ensures
        digest@ == keccak256_hex(s@),
{
    let mut sha3 = Sha3::keccak256();
    sha3.input_str(s);
    sha3.result_str()
}

/// A deterministic hash function from texts to digests, themselves texts.
pub trait Hasher {
    /// The digest of `input`.
    spec fn digest(&self, input: Seq<char>) -> Seq<char>;

    /// Computes the digest of `input`.
    fn hash(&self, input: &str) -> (out: String)
        ensures
            out@ == self.digest(input@),
    ;
}

/// Keccak-256 with hexadecimal digests.
pub struct Keccak256;

impl Hasher for Keccak256 {
    open spec fn digest(&self, input: Seq<char>) -> Seq<char> {
        keccak256_hex(input)
    }

    fn hash(&self, input: &str) -> (out: String) {
        keccak256(input)
    }
}

/// A hasher whose digests can be read: the input between round brackets.
/// The root of a tree built with it spells out the shape of the tree.
pub struct Bracket;

impl Hasher for Bracket {
    open spec fn digest(&self, input: Seq<char>) -> Seq<char> {
        seq!['('] + input + seq![')']
    }

    fn hash(&self, input: &str) -> (out: String) {
        proof {
            reveal_strlit("(");
            reveal_strlit(")");
        }
        let open = "(";
        let close = ")";
        assert(open@ =~= seq!['(']);
        assert(close@ =~= seq![')']);
        String::from_str(open).concat(input).concat(close)
    }
}

/// Whether a hasher maps different texts to different digests.
pub open spec fn collision_free<H: Hasher>(h: &H) -> bool {
    forall|a: Seq<char>, b: Seq<char>| #[trigger] h.digest(a) == #[trigger] h.digest(b) ==> a == b
}

/// Bracketing maps different texts to different digests.
pub proof fn lemma_bracket_is_collision_free()
    ensures
        collision_free(&Bracket),
{
    let h = Bracket;
    assert forall|a: Seq<char>, b: Seq<char>| #[trigger]
        h.digest(a) == #[trigger] h.digest(b) implies a == b by {
        assert(h.digest(a).len() == a.len() + 2);
        assert(h.digest(b).len() == b.len() + 2);
        assert(h.digest(a).subrange(1, a.len() as int + 1) =~= a);
        assert(h.digest(b).subrange(1, b.len() as int + 1) =~= b);
    }
}

/// The digest of a parent whose children have the digests `left` and
/// `right`: the hash of the two texts joined, left first.
pub open spec fn combine<H: Hasher>(h: &H, left: Seq<char>, right: Seq<char>) -> Seq<char> {
    h.digest(left + right)
}

/// Computes the digest of a parent from those of its two children.
pub fn combine_digests<H: Hasher>(h: &H, left: &str, right: &str) -> (out: String)
    ensures
        out@ == combine(h, left@, right@),
{
    let joined = String::from_str(left).concat(right);
    h.hash(joined.as_str())
}

} // verus!
