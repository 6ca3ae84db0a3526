use vstd::prelude::*;
use vstd::string::StringSliceAdditionalSpecFns;
use vstd::utf8::encode_utf8;

verus! {

/// The byte length of the first word of `bytes`: the index of the first space,
/// or the whole length when there is none.
pub open spec fn first_word_len(bytes: Seq<u8>) -> nat
    decreases bytes.len(),
{
    if bytes.len() == 0 {
        0
    } else if bytes[0] == 32u8 {
        0
    } else {
        1 + first_word_len(bytes.drop_first())
    }
}

proof fn lemma_first_word_len(bytes: Seq<u8>, i: int)
    requires
        0 <= i <= bytes.len(),
        forall|k: int| 0 <= k < i ==> #[trigger] bytes[k] != 32u8,
        i == bytes.len() || bytes[i] == 32u8,
    ensures
        first_word_len(bytes) == i,
    decreases i,
{
    if i > 0 {
        assert forall|k: int| 0 <= k < i - 1 implies #[trigger] bytes.drop_first()[k] != 32u8 by {
            assert(bytes.drop_first()[k] == bytes[k + 1]);
        }
        lemma_first_word_len(bytes.drop_first(), i - 1);
    }
}

/// Where the first word of `s` ends: the byte index of its first space, or
/// its length.
pub fn first_word(s: &String) -> (r: usize)
    ensures
        r == first_word_len(encode_utf8(s@)),
        r <= encode_utf8(s@).len(),
        r < encode_utf8(s@).len() ==> encode_utf8(s@)[r as int] == 32u8,
{
    let bytes = s.as_str().as_bytes();
    let mut i: usize = 0;
    while i < bytes.len()
        invariant
            0 <= i <= bytes@.len(),
            bytes@ == encode_utf8(s@),
            forall|k: int| 0 <= k < i ==> #[trigger] bytes@[k] != 32u8,
        decreases bytes@.len() - i,
    {
        if bytes[i] == 32u8 {
            proof {
                lemma_first_word_len(bytes@, i as int);
            }
            return i;
        }
        i = i + 1;
    }
    proof {
        lemma_first_word_len(bytes@, i as int);
    }
    i
}

/// Relies on `str` slicing by a byte range, which std documents to return the
/// bytes in that range when both ends lie on character boundaries.
#[verifier::external_body]
fn prefix(s: &str, end: usize) -> (r: &str)
    requires
        end <= s.spec_bytes().len(),
        end == s.spec_bytes().len() || s.spec_bytes()[end as int] < 128u8,
    ensures
        r.spec_bytes() == s.spec_bytes().subrange(0, end as int),
{
    &s[0..end]
}

/// The first word of `s`: the text before its first space, or all of it.
pub fn first_word_slice(s: &String) -> (r: &str)
    ensures
        r.spec_bytes() == encode_utf8(s@).subrange(0, first_word_len(encode_utf8(s@)) as int),
{
    let end = first_word(s);
    prefix(s.as_str(), end)
}

} // verus!
