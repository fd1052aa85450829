//! The word codec for strings in a traced process's memory.
//!
//! Another process's memory is read and written one word at a time.  A
//! string living there is a sequence of words whose bytes run up to the
//! first NUL.  These functions turn word sequences into byte strings and
//! back; the reading and writing of the words themselves is process
//! plumbing and happens outside this crate.

use vstd::prelude::*;
use vstd::string::*;
use vstd::utf8::decode_utf8;
use vstd::utf8::valid_utf8;
use crate::Error;
use crate::R;

verus! {

/// The number of bytes in one word of tracee memory.
pub const WORD_SIZE: usize = 8;

/// All bytes of a word sequence, in order.
pub open spec fn spec_flatten(words: Seq<Seq<u8>>) -> Seq<u8>
    decreases words.len(),
{
    if words.len() == 0 {
        Seq::empty()
    } else {
        words[0] + spec_flatten(words.drop_first())
    }
}

/// The bytes before the first NUL, or all of them when none is NUL.
pub open spec fn spec_until_nul(bytes: Seq<u8>) -> Seq<u8>
    decreases bytes.len(),
{
    if bytes.len() == 0 {
        Seq::empty()
    } else if bytes[0] == 0 {
        Seq::empty()
    } else {
        seq![bytes[0]] + spec_until_nul(bytes.drop_first())
    }
}

/// Cutting at the first NUL passes over a NUL-free prefix unchanged.
pub proof fn lemma_until_nul_append_clean(a: Seq<u8>, b: Seq<u8>)
    requires
        forall|i: int| 0 <= i < a.len() ==> a[i] != 0,
    ensures
        spec_until_nul(a + b) == a + spec_until_nul(b),
    decreases a.len(),
{
    if a.len() == 0 {
        assert(a + b =~= b);
        assert(a + spec_until_nul(b) =~= spec_until_nul(b));
    } else {
        assert((a + b).drop_first() =~= a.drop_first() + b);
        lemma_until_nul_append_clean(a.drop_first(), b);
        assert(seq![a[0]] + (a.drop_first() + spec_until_nul(b)) =~= a + spec_until_nul(b));
    }
}

/// Concatenating word sequences concatenates their bytes.
pub proof fn lemma_flatten_append(a: Seq<Seq<u8>>, b: Seq<Seq<u8>>)
    ensures
        spec_flatten(a + b) == spec_flatten(a) + spec_flatten(b),
    decreases a.len(),
{
    if a.len() == 0 {
        assert(a + b =~= b);
        assert(spec_flatten(a) + spec_flatten(b) =~= spec_flatten(b));
    } else {
        assert((a + b).drop_first() =~= a.drop_first() + b);
        lemma_flatten_append(a.drop_first(), b);
        assert(a[0] + (spec_flatten(a.drop_first()) + spec_flatten(b)) =~= (a[0] + spec_flatten(
            a.drop_first(),
        )) + spec_flatten(b));
        assert((a + b)[0] == a[0]);
    }
}

/// The string stored in a word sequence: its bytes up to the first NUL.
///
/// The words need not have any particular size; words read from tracee
/// memory have [`WORD_SIZE`] bytes each.
pub fn data_to_bytes(data: &Vec<Vec<u8>>) -> (r: Vec<u8>)
    ensures
        r@ == spec_until_nul(spec_flatten(data.deep_view())),
{
    let ghost all = data.deep_view();
    let mut r: Vec<u8> = Vec::new();
    let mut k: usize = 0;
    proof {
        assert(all.skip(0) =~= all);
    }
    while k < data.len()
        invariant
            k <= data.len(),
            all == data.deep_view(),
            spec_until_nul(spec_flatten(all)) == r@ + spec_until_nul(
                spec_flatten(all.skip(k as int)),
            ),
        decreases data.len() - k,
    {
        let word = &data[k];
        proof {
            assert(all.skip(k as int)[0] == all[k as int]);
            assert(all.skip(k as int).drop_first() =~= all.skip(k as int + 1));
            assert(all[k as int] =~= data@[k as int]@);
        }
        let ghost rest = spec_flatten(all.skip(k as int + 1));
        let mut j: usize = 0;
        proof {
            assert(word@.skip(0) =~= word@);
            assert(spec_flatten(all.skip(k as int)) =~= word@ + rest);
        }
        while j < word.len()
            invariant
                j <= word.len(),
                all == data.deep_view(),
                word@ == all[k as int],
                0 <= k < all.len(),
                rest == spec_flatten(all.skip(k as int + 1)),
                spec_until_nul(spec_flatten(all)) == r@ + spec_until_nul(
                    word@.skip(j as int) + rest,
                ),
            decreases word.len() - j,
        {
            let c = word[j];
            proof {
                assert((word@.skip(j as int) + rest)[0] == word@[j as int]);
                assert((word@.skip(j as int) + rest).drop_first() =~= word@.skip(j as int + 1)
                    + rest);
            }
            if c == 0 {
                proof {
                    assert(spec_until_nul(word@.skip(j as int) + rest) =~= Seq::<u8>::empty());
                    assert(r@ + Seq::<u8>::empty() =~= r@);
                }
                return r;
            }
            let ghost r0 = r@;
            r.push(c);
            j = j + 1;
            proof {
                assert(r0 + (seq![word@[j - 1]] + spec_until_nul(word@.skip(j as int) + rest))
                    =~= r@ + spec_until_nul(word@.skip(j as int) + rest));
            }
        }
        proof {
            assert(word@.skip(j as int) =~= Seq::<u8>::empty());
            assert(Seq::<u8>::empty() + rest =~= rest);
        }
        k = k + 1;
    }
    proof {
        assert(all.skip(k as int) =~= Seq::<Seq<u8>>::empty());
        assert(r@ + Seq::<u8>::empty() =~= r@);
    }
    r
}

/// Relies on String::from_utf8: it returns the decoded string exactly
/// when the bytes are valid UTF-8, and fails otherwise.
#[verifier::external_body]
fn bytes_to_utf8(bytes: Vec<u8>) -> (r: Option<String>)
    ensures
        match r {
            Some(s) => valid_utf8(bytes@) && s@ == decode_utf8(bytes@),
            None => !valid_utf8(bytes@),
        },
{
    String::from_utf8(bytes).ok()
}

/// The string stored in a word sequence, decoded as UTF-8: its bytes up
/// to the first NUL.  Fails when those bytes are not valid text.
pub fn data_to_string(data: &Vec<Vec<u8>>) -> (r: R<String>)
    ensures
        ({
            let bytes = spec_until_nul(spec_flatten(data.deep_view()));
            match r {
                Ok(s) => valid_utf8(bytes) && s@ == decode_utf8(bytes),
                Err(e) => !valid_utf8(bytes) && e@ == "tracee memory holds invalid utf-8".spec_bytes(),
            }
        }),
{
    let bytes = data_to_bytes(data);
    match bytes_to_utf8(bytes) {
        Some(s) => Ok(s),
        None => Err(Error::new(("tracee memory holds invalid utf-8").as_bytes_vec())),
    }
}

/// Flattening one more word appends its bytes.
pub proof fn lemma_flatten_push(a: Seq<Seq<u8>>, x: Seq<u8>)
    ensures
        spec_flatten(a.push(x)) == spec_flatten(a) + x,
{
    lemma_flatten_append(a, seq![x]);
    assert(a.push(x) =~= a + seq![x]);
    assert(seq![x].drop_first() =~= Seq::<Seq<u8>>::empty());
    assert(spec_flatten(seq![x]) == seq![x][0] + spec_flatten(seq![x].drop_first()));
    assert(seq![x][0] + Seq::<u8>::empty() =~= x);
}

/// Packs a string into words of [`WORD_SIZE`] bytes: its bytes followed
/// by at least one NUL, the last word NUL-padded.  Written over the place
/// of a NUL-terminated string in tracee memory, the words store exactly
/// the given string.  Fails when the string itself holds a NUL byte.
pub fn string_to_data(string: &str) -> (r: R<Vec<Vec<u8>>>)
    ensures
        ({
            let bytes = string.spec_bytes();
            match r {
                Ok(words) => {
                    &&& forall|i: int| 0 <= i < words.deep_view().len()
                        ==> (#[trigger] words.deep_view()[i]).len() == WORD_SIZE
                    &&& words@.len() == bytes.len() as int / (WORD_SIZE as int) + 1
                    &&& spec_until_nul(spec_flatten(words.deep_view())) == bytes
                    &&& forall|i: int| 0 <= i < bytes.len() ==> bytes[i] != 0
                },
                Err(e) => {
                    &&& exists|i: int| 0 <= i < bytes.len() && bytes[i] == 0
                    &&& e@ == "strings must not hold NUL bytes".spec_bytes()
                },
            }
        }),
{
    let bytes = string.as_bytes_vec();
    let n = bytes.len();
    let mut words: Vec<Vec<u8>> = Vec::new();
    let mut word: Vec<u8> = Vec::new();
    let mut idx: usize = 0;
    proof {
        assert(bytes@.take(0) =~= Seq::<u8>::empty());
        assert(spec_flatten(words.deep_view()) + word@ =~= Seq::<u8>::empty());
    }
    while idx < n
        invariant
            idx <= n,
            n == bytes@.len(),
            bytes@ == string.spec_bytes(),
            word@.len() < WORD_SIZE,
            forall|i: int| 0 <= i < words.deep_view().len()
                ==> (#[trigger] words.deep_view()[i]).len() == WORD_SIZE,
            words@.len() * (WORD_SIZE as int) + word@.len() == idx,
            spec_flatten(words.deep_view()) + word@ == bytes@.take(idx as int),
            forall|k: int| 0 <= k < idx ==> bytes@[k] != 0,
        decreases n - idx,
    {
        let c = bytes[idx];
        if c == 0 {
            proof {
                assert(string.spec_bytes()[idx as int] == 0);
            }
            return Err(Error::new(("strings must not hold NUL bytes").as_bytes_vec()));
        }
        let ghost flat0 = spec_flatten(words.deep_view());
        let ghost words0 = words.deep_view();
        word.push(c);
        idx = idx + 1;
        proof {
            assert(bytes@.take(idx as int) =~= bytes@.take(idx - 1).push(bytes@[idx - 1]));
            assert(flat0 + word@ =~= bytes@.take(idx as int));
        }
        if word.len() == WORD_SIZE {
            words.push(word);
            word = Vec::new();
            proof {
                assert(words.deep_view() =~~= words0.push(words@[words@.len() - 1]@));
                lemma_flatten_push(words0, words@[words@.len() - 1]@);
                assert(spec_flatten(words.deep_view()) + word@ =~= bytes@.take(idx as int));
            }
        }
    }
    proof {
        assert(bytes@.take(idx as int) =~= bytes@);
    }
    let ghost before_pad = word@.len() as int;
    proof {
        assert(bytes@ + Seq::new(0nat, |i: int| 0u8) =~= bytes@);
    }
    while word.len() < WORD_SIZE
        invariant
            word@.len() <= WORD_SIZE,
            before_pad <= word@.len(),
            n == bytes@.len(),
            bytes@ == string.spec_bytes(),
            forall|i: int| 0 <= i < words.deep_view().len()
                ==> (#[trigger] words.deep_view()[i]).len() == WORD_SIZE,
            words@.len() * (WORD_SIZE as int) + before_pad == n,
            before_pad < WORD_SIZE,
            spec_flatten(words.deep_view()) + word@ == bytes@ + Seq::new(
                (word@.len() - before_pad) as nat,
                |i: int| 0u8,
            ),
            forall|k: int| 0 <= k < n ==> bytes@[k] != 0,
        decreases WORD_SIZE - word@.len(),
    {
        let ghost flat0 = spec_flatten(words.deep_view());
        let ghost w0 = word@;
        word.push(0);
        proof {
            let pad0 = Seq::new((w0.len() - before_pad) as nat, |i: int| 0u8);
            let pad1 = Seq::new((word@.len() - before_pad) as nat, |i: int| 0u8);
            assert(pad1 =~= pad0.push(0u8));
            assert(flat0 + word@ =~= (flat0 + w0).push(0u8));
            assert(bytes@ + pad1 =~= (bytes@ + pad0).push(0u8));
        }
    }
    let ghost words0 = words.deep_view();
    let ghost pad = Seq::new((WORD_SIZE - before_pad) as nat, |i: int| 0u8);
    words.push(word);
    proof {
        assert(words.deep_view() =~~= words0.push(words@[words@.len() - 1]@));
        lemma_flatten_push(words0, words@[words@.len() - 1]@);
        assert(spec_flatten(words.deep_view()) =~= bytes@ + pad);
        lemma_until_nul_append_clean(bytes@, pad);
        assert(pad.len() > 0);
        assert(pad[0] == 0);
        assert(spec_until_nul(pad) =~= Seq::<u8>::empty());
        assert(bytes@ + Seq::<u8>::empty() =~= bytes@);
        assert(words@.len() as int == n as int / (WORD_SIZE as int) + 1) by {
            assert((words@.len() - 1) * (WORD_SIZE as int) + before_pad == n);
            assert(0 <= before_pad < WORD_SIZE as int);
            vstd::arithmetic::div_mod::lemma_fundamental_div_mod_converse(
                n as int,
                WORD_SIZE as int,
                words@.len() - 1,
                before_pad,
            );
        }
    }
    Ok(words)
}

} // verus!
