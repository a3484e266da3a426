//! Human-readable hex rendering of byte payloads.

use vstd::prelude::*;

use crate::parser::att::hex_pair;
use crate::parser::att::push_hex_pair;
use vstd::string::StringExecFns;

verus! {

/// The bytes of `s` as two lowercase hex digits each, in order, separated by
/// single spaces.
pub open spec fn hex_list_chars(s: Seq<u8>) -> Seq<char>
    decreases s.len(),
{
    if s.len() == 0 {
        Seq::empty()
    } else if s.len() == 1 {
        hex_pair(s[0])
    } else {
        hex_pair(s[0]) + seq![' '] + hex_list_chars(s.skip(1))
    }
}

/// Appending one byte to a non-empty list appends a space and its hex pair.
pub proof fn lemma_hex_list_push(s: Seq<u8>, b: u8)
    ensures
        hex_list_chars(s.push(b)) == if s.len() == 0 {
            hex_pair(b)
        } else {
            hex_list_chars(s) + seq![' '] + hex_pair(b)
        },
    decreases s.len(),
{
    if s.len() == 0 {
        assert(s.push(b) =~= seq![b]);
        assert(hex_list_chars(seq![b]) == hex_pair(b));
    } else {
        lemma_hex_list_push(s.skip(1), b);
        assert(s.push(b).skip(1) =~= s.skip(1).push(b));
        assert(s.push(b)[0] == s[0]);
        if s.len() == 1 {
            assert(hex_list_chars(s) == hex_pair(s[0]));
            assert(hex_list_chars(s.push(b)) =~= hex_list_chars(s) + seq![' '] + hex_pair(b));
        } else {
            assert(hex_list_chars(s.push(b)) =~= hex_list_chars(s) + seq![' '] + hex_pair(b));
        }
    }
}

/// The bytes as one string of space-separated lowercase hex pairs.
#[verifier::loop_isolation(false)]
pub fn human_u8_list(bytes: &Vec<u8>) -> (r: String)
    ensures
        r@ == hex_list_chars(bytes@),
{
    let mut out = String::new();
    let mut i: usize = 0;
    proof {
        assert(bytes@.take(0) =~= Seq::<u8>::empty());
    }
    while i < bytes.len()
        invariant
            i <= bytes.len(),
            out@ == hex_list_chars(bytes@.take(i as int)),
        decreases bytes.len() - i,
    {
        if i > 0 {
            proof {
                reveal_strlit(" ");
            }
            out.append(" ");
            proof {
                assert(" "@ =~= seq![' ']);
            }
        }
        push_hex_pair(&mut out, bytes[i]);
        proof {
            lemma_hex_list_push(bytes@.take(i as int), bytes@[i as int]);
            assert(bytes@.take(i as int).push(bytes@[i as int]) =~= bytes@.take(i + 1));
            if i > 0 {
                assert(out@ =~= hex_list_chars(bytes@.take(i + 1)));
            }
        }
        i = i + 1;
    }
    proof {
        assert(bytes@.take(bytes@.len() as int) =~= bytes@);
    }
    out
}

/// Each byte as its own two-digit lowercase hex string.
#[verifier::loop_isolation(false)]
pub fn to_hex(bytes: &Vec<u8>) -> (r: Vec<String>)
    ensures
        r@.len() == bytes@.len(),
        forall|i: int| 0 <= i < r@.len() ==> (#[trigger] r@[i])@ == hex_pair(bytes@[i]),
{
    let mut r: Vec<String> = Vec::new();
    let mut i: usize = 0;
    while i < bytes.len()
        invariant
            i <= bytes.len(),
            r@.len() == i,
            forall|j: int| 0 <= j < i ==> (#[trigger] r@[j])@ == hex_pair(bytes@[j]),
        decreases bytes.len() - i,
    {
        let mut s = String::new();
        push_hex_pair(&mut s, bytes[i]);
        r.push(s);
        i = i + 1;
    }
    r
}

} // verus!
