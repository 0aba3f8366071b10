//! Laws of the transformer-block payloads that `lora` converts.

use vstd::prelude::*;
use crate::lora::{lemma_split_after, lemma_strip_present, spec_convert_inner, spec_leaf};
use crate::text::{
    is_digit, lemma_decimal_digits, spec_decimal, spec_parse_unsigned, spec_split_once,
    spec_strip_prefix, unsigned_digits,
};

verus! {

/// The pieces of `transformer_blocks_<n>_<leaf>` as the converter reads
/// them: not a projection, the prefix strips, the rest splits at the numeral
/// and the numeral parses to `n`.
proof fn lemma_payload_parts(n: nat, leaf: Seq<char>)
    requires
        n <= usize::MAX,
    ensures
        ({
            let d = spec_decimal(n);
            let rest = d + seq!['_'] + leaf;
            let inner = "transformer_blocks_"@ + rest;
            &&& inner != "proj_in"@
            &&& inner != "proj_out"@
            &&& spec_strip_prefix(inner, "transformer_blocks_"@) == Some(rest)
            &&& spec_split_once(rest, '_') == Some((d, leaf))
            &&& spec_parse_unsigned(d, usize::MAX as nat) == Some(n)
        }),
{
    lemma_decimal_digits(n);
    let d = spec_decimal(n);
    let rest = d + seq!['_'] + leaf;
    let inner = "transformer_blocks_"@ + rest;
    assert(inner != "proj_in"@ && inner != "proj_out"@) by {
        reveal_strlit("transformer_blocks_");
        reveal_strlit("proj_in");
        reveal_strlit("proj_out");
        assert(inner.len() > 8);
    }
    lemma_strip_present("transformer_blocks_"@, rest);
    assert forall|i: int| 0 <= i < d.len() implies d[i] != '_' by {
        assert(is_digit(d[i]));
    }
    lemma_split_after(d, leaf);
    assert(is_digit(d[0]));
    assert(unsigned_digits(d) == d);
}

/// A transformer-block payload `transformer_blocks_<n>_<leaf>` converts to
/// `transformer_blocks.<n>.<dotted leaf>` for every block number `n`.
#[verifier::rlimit(100)]
pub proof fn lemma_transformer_payload(n: nat, leaf: Seq<char>)
    requires
        n <= usize::MAX,
        spec_leaf(leaf) is Some,
    ensures
        spec_convert_inner("transformer_blocks_"@ + (spec_decimal(n) + seq!['_'] + leaf)) == Some(
            "transformer_blocks."@ + spec_decimal(n) + "."@ + spec_leaf(leaf)->Some_0,
        ),
{
    lemma_payload_parts(n, leaf);
    let d = spec_decimal(n);
    let inner = "transformer_blocks_"@ + (d + seq!['_'] + leaf);
    let l = spec_leaf(leaf)->Some_0;
    assert(spec_convert_inner(inner) === Some("transformer_blocks."@ + d + "."@ + l));
}

} // verus!
