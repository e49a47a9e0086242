//! SHA-256 through the `sha2` crate, and its lowercase hexadecimal rendering
//! as the blockchain code of this crate prints block and transaction hashes.
use vstd::prelude::*;
use vstd::string::StringSliceAdditionalSpecFns;
use sha2::Digest;
use crate::text::{hex_char, hex_lower, hex_string, utf8};

verus! {

/// The SHA-256 digest of `data` as the `sha2` crate computes it.
pub uninterp spec fn sha2_digest(data: Seq<u8>) -> Seq<u8>;

/// Calls `sha2::Sha256::digest`. Trusted: the digest is a function of the
/// input bytes alone, and SHA-256 output is 32 bytes long.
#[verifier::external_body]
fn sha2_sha256(data: &[u8]) -> (out: Vec<u8>)
    ensures
        out@ == sha2_digest(data@),
        out@.len() == 32,
{
    sha2::Sha256::digest(data).to_vec()
}

/// The hash text of `text`: its UTF-8 bytes hashed with SHA-256 and printed
/// as 64 lowercase hexadecimal digits.
pub open spec fn hash_text(text: Seq<char>) -> Seq<char> {
    hex_lower(sha2_digest(utf8(text)))
}

/// Every character of `s` is a digit `0`-`9` or a letter `a`-`f`.
pub open spec fn is_lower_hex(s: Seq<char>) -> bool {
    forall|i: int| 0 <= i < s.len() ==> {
        let c = #[trigger] s[i] as int;
        (48 <= c <= 57) || (97 <= c <= 102)
    }
}

proof fn lemma_hex_char(d: int)
    ensures
        is_lower_hex(seq![hex_char(d)]),
{
    let c = hex_char(d);
    assert(c as int == seq![c][0] as int);
}

proof fn lemma_hex_len(bytes: Seq<u8>)
    ensures
        hex_lower(bytes).len() == 2 * bytes.len(),
        is_lower_hex(hex_lower(bytes)),
    decreases bytes.len(),
{
    if bytes.len() > 0 {
        let b = bytes.last();
        lemma_hex_len(bytes.drop_last());
        lemma_hex_char((b / 16) as int);
        lemma_hex_char((b % 16) as int);
        let pre = hex_lower(bytes.drop_last());
        let tail = seq![hex_char((b / 16) as int), hex_char((b % 16) as int)];
        assert(tail[0] == seq![hex_char((b / 16) as int)][0]);
        assert(tail[1] == seq![hex_char((b % 16) as int)][0]);
        assert forall|i: int| 0 <= i < (pre + tail).len() implies {
            let c = #[trigger] (pre + tail)[i] as int;
            (48 <= c <= 57) || (97 <= c <= 102)
        } by {
            if i < pre.len() {
                assert((pre + tail)[i] == pre[i]);
            } else {
                assert((pre + tail)[i] == tail[i - pre.len()]);
            }
        }
    }
}

/// SHA-256 of the UTF-8 bytes of `text`, as lowercase hexadecimal.
pub fn sha256_hex(text: &str) -> (h: String)
    ensures
        h@ == hash_text(text@),
        h@.len() == 64,
        is_lower_hex(h@),
{
    let digest = sha2_sha256(text.as_bytes());
    proof {
        lemma_hex_len(digest@);
    }
    hex_string(digest.as_slice())
}

} // verus!
