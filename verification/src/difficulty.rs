//! The proof-of-work target: a run of leading `0` characters.

use vstd::prelude::*;
use vstd::std_specs::iter::IteratorSpec;
use vstd::string::group_string_axioms;

verus! {

/// A run of `n` characters `0`.
pub open spec fn zero_run(n: nat) -> Seq<char> {
    Seq::new(n, |i: int| '0')
}

/// Whether `hash` begins with at least `difficulty` characters `0`.
pub open spec fn meets_difficulty(hash: Seq<char>, difficulty: nat) -> bool {
    zero_run(difficulty).is_prefix_of(hash)
}

/// Every hash meets difficulty zero.
pub proof fn lemma_zero_difficulty(hash: Seq<char>)
    ensures
        meets_difficulty(hash, 0),
{
    assert(zero_run(0) =~= hash.subrange(0, 0));
}

/// No hash meets a difficulty above its own length.
pub proof fn lemma_difficulty_bounded_by_length(hash: Seq<char>, difficulty: nat)
    requires
        meets_difficulty(hash, difficulty),
    ensures
        difficulty <= hash.len(),
{
}

/// Tests whether `hash` begins with at least `difficulty` characters `0`.
pub fn has_leading_zeros(hash: &str, difficulty: u64) -> (ok: bool)
    ensures
        ok == meets_difficulty(hash@, difficulty as nat),
{
    broadcast use group_string_axioms;

    let mut rest = hash.chars();
    let mut seen: u64 = 0;
    while seen < difficulty
        invariant
            seen <= difficulty,
            seen <= hash@.len(),
            rest.remaining() == hash@.skip(seen as int),
            forall|i: int| 0 <= i < seen ==> hash@[i] == '0',
        decreases difficulty - seen,
    {
        match rest.next() {
            Some(c) => {
                if c != '0' {
                    proof {
                        assert(hash@[seen as int] == c);
                        if meets_difficulty(hash@, difficulty as nat) {
                            assert(hash@.subrange(0, difficulty as int)[seen as int]
                                == zero_run(difficulty as nat)[seen as int]);
                        }
                    }
                    return false;
                }
                proof {
                    assert(hash@.skip(seen as int).drop_first() =~= hash@.skip(seen as int + 1));
                }
                seen += 1;
            },
            None => {
                return false;
            },
        }
    }
    proof {
        assert(zero_run(difficulty as nat) =~= hash@.subrange(0, difficulty as int));
    }
    true
}

} // verus!
