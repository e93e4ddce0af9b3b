//! Trusted bridge to the base64 crate, which decodes the binary payloads
//! that arrive inside JSON string fields.

use vstd::prelude::*;

verus! {

/// What standard base64 decoding yields on this text: the decoded bytes,
/// or nothing when the text is not valid base64. The result is a function
/// of the text alone.
pub uninterp spec fn base64_decoding(s: Seq<char>) -> Option<Seq<u8>>;

/// Relies on base64::decode (standard alphabet): it decodes the whole
/// string or fails, and the result depends on the string alone.
#[verifier::external_body]
pub fn base64_decode(s: &str) -> (r: Option<Vec<u8>>)
    ensures
        r is Some <==> base64_decoding(s@) is Some,
        r is Some ==> r->0@ == base64_decoding(s@)->0,
{
    base64::decode(s).ok()
}

/// Whether the text's padding, if it carries any, sits where whole base64
/// text puts it: a `=` appears only in text whose length is a multiple of
/// four. Unpadded text (no `=` at all) is aligned at any length.
pub open spec fn aligned_padding(s: Seq<char>) -> bool {
    (exists|i: int| 0 <= i < s.len() && s[i] == '=') ==> s.len() % 4 == 0
}

/// Base64 text as this wire's decoder takes it: unpadded text, or padded
/// text whose padding is aligned. Padding out of alignment is the mark of
/// a payload cut short — the protocol demands that such text fail rather
/// than decode to a shifted body — so it is refused before the decoder,
/// which would tolerate it, ever sees it.
pub open spec fn checked_decoding(s: Seq<char>) -> Option<Seq<u8>> {
    if aligned_padding(s) {
        base64_decoding(s)
    } else {
        None
    }
}

/// Decodes base64 text, refusing text whose padding is out of alignment.
pub fn base64_decode_checked(s: &str) -> (r: Option<Vec<u8>>)
    ensures
        r is Some <==> checked_decoding(s@) is Some,
        r is Some ==> r->0@ == checked_decoding(s@)->0,
{
    let cs = crate::text::str_chars_vec(s);
    let n = cs.len();
    if n % 4 != 0 {
        let mut i: usize = 0;
        while i < n
            invariant
                n == cs@.len(),
                cs@ == s@,
                n % 4 != 0,
                0 <= i <= n,
                forall|j: int| 0 <= j < i ==> s@[j] != '=',
            decreases n - i,
        {
            if cs[i] == '=' {
                proof {
                    assert(s@[i as int] == '=');
                    assert(!aligned_padding(s@));
                }
                return None;
            }
            i = i + 1;
        }
        proof {
            if exists|j: int| 0 <= j < s@.len() && s@[j] == '=' {
                let w = choose|j: int| 0 <= j < s@.len() && s@[j] == '=';
                assert(false);
            }
        }
    }
    base64_decode(s)
}

} // verus!
