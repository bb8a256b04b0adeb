//! The durable session handle: the supervising process id, in decimal.
use vstd::prelude::*;
use crate::codec::{digits, lemma_number, parse_number, push_digits, vec_eq};
use crate::text::chars_of;

verus! {

/// The text stored for a session handle.
pub fn encode_handle(pid: u32) -> (r: String)
    ensures
        r@ == digits(pid as nat),
{
    let mut out = String::new();
    push_digits(&mut out, pid as u128);
    assert(out@ =~= digits(pid as nat));
    out
}

/// Reads a stored session handle: accepted exactly when the text is the
/// decimal notation, without leading zeros, of a `u32`.
pub fn decode_handle(text: &str) -> (r: Option<u32>)
    ensures
        match r {
            Some(p) => digits(p as nat) == text@,
            None => forall|p: u32| digits(p as nat) != text@,
        },
{
    let t = chars_of(text);
    proof {
        assert forall|p: u32| #[trigger] digits(p as nat) == text@ implies
            crate::codec::number_from(t@, 0) == Some((p as u128, t@.len() as int)) by {
            assert(t@.subrange(0, t@.len() as int) =~= t@);
            lemma_number(t@, 0, p as u128);
        }
    }
    match parse_number(&t, 0) {
        Some((v, j)) => {
            if j != t.len() || v > 0xffff_ffff {
                return None;
            }
            let back = encode_handle(v as u32);
            let again = chars_of(back.as_str());
            if vec_eq(&again, &t) {
                Some(v as u32)
            } else {
                None
            }
        },
        None => None,
    }
}

} // verus!
