//! Prompt token ids for the CLIP text encoders: tokenize, then fit the ids to
//! the encoder's fixed context length.

use vstd::prelude::*;
use tokenizers::Tokenizer;

verus! {

#[verifier::external_type_specification]
#[verifier::external_body]
pub struct ExTokenizer(Tokenizer);

/// Ids fitted to exactly `max` slots: an over-long sequence is cut to `max`
/// and keeps a terminator (`pad`) in its final slot rather than a bare content
/// token; a short one is padded with `pad`.
pub open spec fn spec_fit_token_ids(ids: Seq<u32>, max: nat, pad: u32) -> Seq<u32> {
    if ids.len() > max {
        if max == 0 {
            Seq::empty()
        } else {
            ids.take(max - 1).push(pad)
        }
    } else {
        ids + Seq::new((max - ids.len()) as nat, |i: int| pad)
    }
}

/// Fit `ids` to exactly `max` slots (see `spec_fit_token_ids`).
pub fn fit_token_ids(ids: Vec<u32>, max: usize, pad: u32) -> (r: Vec<u32>)
    ensures
        r@ == spec_fit_token_ids(ids@, max as nat, pad),
{
    let mut ids = ids;
    let ghost orig = ids@;
    if ids.len() > max {
        ids.truncate(max);
        if ids.len() > 0 {
            let n = ids.len();
            ids.set(n - 1, pad);
        }
        assert(ids@ =~= spec_fit_token_ids(orig, max as nat, pad));
        return ids;
    }
    while ids.len() < max
        invariant
            orig.len() <= ids@.len() <= max,
            ids@ == orig + Seq::new((ids@.len() - orig.len()) as nat, |i: int| pad),
        decreases max - ids.len(),
    {
        ids.push(pad);
        assert(ids@ =~= orig + Seq::new((ids@.len() - orig.len()) as nat, |i: int| pad));
    }
    ids
}

/// What `Tokenizer::encode(text, true)` can hand back for `text`: the ids of
/// an encoding, or the error's message. A set, because an encoding may draw
/// on chance (BPE dropout samples a random number).
pub uninterp spec fn encode_outcomes(tok: Tokenizer, text: Seq<char>) -> Set<
    Result<Seq<u32>, Seq<char>>,
>;

/// Token ids of `text` from `Tokenizer::encode` (special tokens added), or
/// the tokenizer's error message: one of `encode_outcomes(tok, text)`. What
/// the ids are depends on the tokenizer's vocabulary and rules, which were
/// read from a file; nothing more is stated of them.
#[verifier::external_body]
fn encode_ids(tok: &Tokenizer, text: &str) -> (r: Result<Vec<u32>, String>)
    ensures
        encode_outcomes(*tok, text@).contains(
            match r {
                Ok(ids) => Ok(ids@),
                Err(e) => Err(e@),
            },
        ),
{
    match tok.encode(text, true) {
        Ok(e) => Ok(e.get_ids().to_vec()),
        Err(e) => Err(e.to_string()),
    }
}

/// What the vocabulary of `tok` holds, as `Tokenizer::get_vocab(true)` hands
/// it out: each token of the model's vocabulary and each added token, with
/// its id (an added token's id wins over the model's).
pub uninterp spec fn tokenizer_vocab(tok: Tokenizer) -> Map<Seq<char>, u32>;

/// The id of `token` in `Tokenizer::get_vocab(true)` (added tokens
/// included), if present: the map lookup of `token` in `tokenizer_vocab`.
/// Which tokens and ids the vocabulary holds was read from a file; nothing
/// more is stated of them.
#[verifier::external_body]
fn vocab_id(tok: &Tokenizer, token: &str) -> (r: Option<u32>)
    ensures
        r == (if tokenizer_vocab(*tok).dom().contains(token@) {
            Some(tokenizer_vocab(*tok)[token@])
        } else {
            None
        }),
{
    tok.get_vocab(true).get(token).copied()
}

/// The vocabulary entry used for padding: `pad_with` when the model config
/// names one, else `<|endoftext|>`.
pub open spec fn spec_pad_key(pad_with: Option<Seq<char>>) -> Seq<char> {
    match pad_with {
        Some(k) => k,
        None => "<|endoftext|>"@,
    }
}

/// The vocabulary entry to look up for the padding id.
pub fn pad_key<'a>(pad_with: Option<&'a str>) -> (r: &'a str)
    ensures
        r@ == spec_pad_key(
            match pad_with {
                Some(k) => Some(k@),
                None => None,
            },
        ),
{
    match pad_with {
        Some(k) => k,
        None => "<|endoftext|>",
    }
}

/// The padding id given the vocabulary lookup of the pad key: the id found,
/// else 0.
pub fn pad_or_zero(found: Option<u32>) -> (r: u32)
    ensures
        r == (match found {
            Some(id) => id,
            None => 0u32,
        }),
{
    match found {
        Some(id) => id,
        None => 0,
    }
}

/// The id of `key` in `vocab`, or 0 when `vocab` lacks it.
pub open spec fn spec_pad_id(vocab: Map<Seq<char>, u32>, key: Seq<char>) -> u32 {
    if vocab.dom().contains(key) {
        vocab[key]
    } else {
        0
    }
}

/// The padding id: the vocabulary id of `pad_key(pad_with)`, or 0 when the
/// vocabulary lacks that token.
pub fn pad_id(tok: &Tokenizer, pad_with: Option<&str>) -> (r: u32)
    ensures
        r == spec_pad_id(
            tokenizer_vocab(*tok),
            spec_pad_key(
                match pad_with {
                    Some(k) => Some(k@),
                    None => None,
                },
            ),
        ),
{
    let key = pad_key(pad_with);
    pad_or_zero(vocab_id(tok, key))
}

/// The prompt's token ids fitted to `max` slots with `pad`, or the
/// tokenizer's error message.
pub fn prompt_token_ids(tok: &Tokenizer, text: &str, max: usize, pad: u32) -> (r: Result<
    Vec<u32>,
    String,
>)
    ensures
        r matches Ok(v) ==> v@.len() == max && exists|raw: Seq<u32>|
            #[trigger] encode_outcomes(*tok, text@).contains(Ok(raw)) && v@
                == spec_fit_token_ids(raw, max as nat, pad),
        r matches Err(e) ==> encode_outcomes(*tok, text@).contains(Err(e@)),
{
    let ids = match encode_ids(tok, text) {
        Ok(ids) => ids,
        Err(e) => return Err(e),
    };
    let ghost raw = ids@;
    assert(encode_outcomes(*tok, text@).contains(Ok(raw)));
    let fitted = fit_token_ids(ids, max, pad);
    proof {
        lemma_fit_shape(raw, max as nat, pad);
    }
    Ok(fitted)
}

/// Fitted ids always fill exactly `max` slots; the kept prefix is unchanged
/// and, when the ids were cut, the final slot holds the terminator.
pub proof fn lemma_fit_shape(ids: Seq<u32>, max: nat, pad: u32)
    ensures
        spec_fit_token_ids(ids, max, pad).len() == max,
        ids.len() > max && max > 0 ==> spec_fit_token_ids(ids, max, pad).last() == pad,
        forall|i: int|
            0 <= i < max && i < ids.len() && (ids.len() <= max || i < max - 1) ==> #[trigger] spec_fit_token_ids(
                ids,
                max,
                pad,
            )[i] == ids[i],
        forall|i: int|
            ids.len() <= i < max ==> #[trigger] spec_fit_token_ids(ids, max, pad)[i] == pad,
{
}

} // verus!
