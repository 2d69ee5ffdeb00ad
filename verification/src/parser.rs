//! Parsing source text into the instruction sequence.
//!
//! Every character that is not one of the eight instruction characters is
//! discarded silently, so arbitrary text between instructions acts as a
//! comment. Parsing never fails: a source with no instruction characters
//! parses to the empty program.

use vstd::prelude::*;

use crate::ops::char_to_op;
use crate::ops::Operation;

verus! {

/// The instruction sequence a source text denotes: each instruction
/// character mapped to its instruction, every other character dropped.
pub open spec fn parse_spec(s: Seq<char>) -> Seq<Operation>
    decreases s.len(),
{
    if s.len() == 0 {
        Seq::empty()
    } else {
        let rest = parse_spec(s.drop_last());
        match char_to_op(s.last()) {
            Some(op) => rest.push(op),
            None => rest,
        }
    }
}

/// Parse source text into the dense instruction sequence.
pub fn parse_code(source_code: &str) -> (r: Vec<Operation>)
    ensures
        r@ == parse_spec(source_code@),
{
    let n: usize = source_code.unicode_len();
    let mut r: Vec<Operation> = Vec::new();
    let mut i: usize = 0;
    while i < n
        invariant
            n == source_code@.len(),
            0 <= i <= n,
            r@ == parse_spec(source_code@.take(i as int)),
        decreases n - i,
    {
        let c = source_code.get_char(i);
        match Operation::from_char(c) {
            Some(op) => r.push(op),
            None => (),
        }
        proof {
            assert(source_code@.take(i + 1).drop_last() =~= source_code@.take(i as int));
            assert(source_code@.take(i + 1).last() == source_code@[i as int]);
        }
        i = i + 1;
    }
    proof {
        assert(source_code@.take(n as int) =~= source_code@);
    }
    r
}

/// Parsing distributes over concatenation of source texts: parsing two
/// texts glued together gives the two instruction sequences glued together.
/// In particular, splitting a program across lines never changes it.
pub proof fn lemma_parse_concat(a: Seq<char>, b: Seq<char>)
    ensures
        parse_spec(a + b) == parse_spec(a) + parse_spec(b),
    decreases b.len(),
{
    if b.len() == 0 {
        assert(a + b =~= a);
        assert(parse_spec(a) + parse_spec(b) =~= parse_spec(a));
    } else {
        lemma_parse_concat(a, b.drop_last());
        assert((a + b).drop_last() =~= a + b.drop_last());
        assert((a + b).last() == b.last());
        match char_to_op(b.last()) {
            Some(op) => {
                assert(parse_spec(a) + parse_spec(b) =~= (parse_spec(a) + parse_spec(
                    b.drop_last(),
                )).push(op));
            },
            None => (),
        }
    }
}

/// A text with no instruction characters parses to the empty program.
pub proof fn lemma_noise_parses_to_nothing(s: Seq<char>)
    requires
        forall|i: int| 0 <= i < s.len() ==> char_to_op(s[i]) is None,
    ensures
        parse_spec(s) == Seq::<Operation>::empty(),
    decreases s.len(),
{
    if s.len() > 0 {
        lemma_noise_parses_to_nothing(s.drop_last());
    }
}

/// Characters outside the eight recognized symbols never affect the parsed
/// instruction sequence: inserting a run of non-instruction characters
/// anywhere in a source text leaves its parse unchanged.
pub proof fn lemma_noise_ignored(a: Seq<char>, noise: Seq<char>, b: Seq<char>)
    requires
        forall|i: int| 0 <= i < noise.len() ==> char_to_op(noise[i]) is None,
    ensures
        parse_spec(a + noise + b) == parse_spec(a + b),
{
    lemma_parse_concat(a, noise);
    lemma_parse_concat(a + noise, b);
    lemma_parse_concat(a, b);
    lemma_noise_parses_to_nothing(noise);
    assert(parse_spec(a) + Seq::<Operation>::empty() =~= parse_spec(a));
}

} // verus!
