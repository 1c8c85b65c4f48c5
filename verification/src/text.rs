//! Building the text of tokens and messages from bytes.

use vstd::prelude::*;
use vstd::string::StringSliceAdditionalSpecFns;
use vstd::utf8::encode_utf8_decode_utf8;
use crate::lexer::model::bytes_as_chars;

verus! {

/// Appends one character to a string.
///
/// Wraps `String::push` of the standard library, which is documented to append
/// the given character to the end of the string; the contract says that and no more.
#[verifier::external_body]
pub(crate) fn push_char(s: &mut String, c: char)
    ensures
        final(s)@ == old(s)@.push(c),
{
    s.push(c);
}

/// Appends the bytes `bytes[from..to]`, each read as the character with that code.
pub(crate) fn push_bytes(s: &mut String, bytes: &[u8], from: usize, to: usize)
    requires
        from <= to <= bytes@.len(),
    ensures
        final(s)@ == old(s)@ + bytes_as_chars(bytes@.subrange(from as int, to as int)),
{
    let mut k: usize = from;
    while k < to
        invariant
            from <= k <= to <= bytes@.len(),
            s@ == old(s)@ + bytes_as_chars(bytes@.subrange(from as int, k as int)),
        decreases to - k,
    {
        push_char(s, bytes[k] as char);
        proof {
            let shorter = bytes_as_chars(bytes@.subrange(from as int, k as int));
            let longer = bytes_as_chars(bytes@.subrange(from as int, k + 1));
            assert(longer =~= shorter.push(bytes@[k as int] as char));
            assert(s@ =~= old(s)@ + longer);
        }
        k += 1;
    }
}

/// Whether two strings hold the same text.
pub(crate) fn same_text(a: &str, b: &str) -> (r: bool)
    ensures
        r == (a@ == b@),
{
    let x = a.as_bytes();
    let y = b.as_bytes();
    proof {
        encode_utf8_decode_utf8(a@);
        encode_utf8_decode_utf8(b@);
    }
    if x.len() != y.len() {
        return false;
    }
    let mut k: usize = 0;
    while k < x.len()
        invariant
            k <= x@.len() == y@.len(),
            a@ == b@ ==> x@ == y@,
            forall|j: int| 0 <= j < k ==> x@[j] == y@[j],
        decreases x@.len() - k,
    {
        if x[k] != y[k] {
            return false;
        }
        k += 1;
    }
    assert(x@ =~= y@);
    true
}

} // verus!
