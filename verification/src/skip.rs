//! The random tower heights of the concurrent skip list.
use vstd::prelude::*;

verus! {

/// The tallest tower of the skip list.
pub const MAX_HEIGHT: usize = 32;

/// Calls `rand::random::<usize>()`, a number from the thread-local generator:
/// any `usize` may come.
#[verifier::external_body]
fn random_usize() -> usize {
    rand::random::<usize>()
}

/// Calls `rand::random::<bool>()`, a fair coin from the thread-local
/// generator: either value may come.
#[verifier::external_body]
fn random_bool() -> bool {
    rand::random::<bool>()
}

/// The height of a tower drawn with `first` as the first draw and `heads`
/// heads in a row after it: 1 where `first % 4 < 3`, otherwise 2 plus the
/// heads, at most `MAX_HEIGHT`.
pub open spec fn tower_height(first: usize, heads: usize) -> int {
    if first % 4 < 3 {
        1
    } else if heads >= MAX_HEIGHT - 2 {
        MAX_HEIGHT as int
    } else {
        2 + heads
    }
}

/// The height of a tower from its draws (see `tower_height`).
pub fn height_from_draws(first: usize, heads: usize) -> (h: usize)
    ensures
        h == tower_height(first, heads),
{
    if first % 4 < 3 {
        1
    } else if heads >= MAX_HEIGHT - 2 {
        MAX_HEIGHT
    } else {
        2 + heads
    }
}

/// The heads in a row at the start of `coins`, at most `limit` of them.
pub open spec fn leading_heads(coins: Seq<bool>, limit: nat) -> nat
    decreases coins.len(),
{
    if coins.len() == 0 || limit == 0 || !coins[0] {
        0
    } else {
        1 + leading_heads(coins.drop_first(), (limit - 1) as nat)
    }
}

/// The height of a tower from its first draw and the coin flips after it:
/// the flips count up to the first tail.
pub fn height_from_flips(first: usize, coins: &Vec<bool>) -> (h: usize)
    ensures
        h == tower_height(first, leading_heads(coins@, (MAX_HEIGHT - 2) as nat) as usize),
{
    let mut heads: usize = 0;
    assert(coins@.skip(0) =~= coins@);
    while heads < MAX_HEIGHT - 2 && heads < coins.len() && coins[heads]
        invariant
            heads <= MAX_HEIGHT - 2,
            heads <= coins@.len(),
            forall|j: int| 0 <= j < heads ==> coins@[j],
            leading_heads(coins@, (MAX_HEIGHT - 2) as nat) == heads + leading_heads(
                coins@.skip(heads as int),
                (MAX_HEIGHT - 2 - heads) as nat,
            ),
        decreases MAX_HEIGHT - 2 - heads,
    {
        proof {
            let rest = coins@.skip(heads as int);
            assert(rest.drop_first() =~= coins@.skip(heads + 1));
        }
        heads = heads + 1;
    }
    proof {
        let rest = coins@.skip(heads as int);
        assert(coins@.skip(0) =~= coins@);
        if heads < coins@.len() && heads < MAX_HEIGHT - 2 {
            assert(rest[0] == coins@[heads as int]);
        }
    }
    height_from_draws(first, heads)
}

/// The height of a new tower: 1 where the first draw modulo 4 is below 3,
/// otherwise 2 plus the number of heads in a row, at most `MAX_HEIGHT`. The
/// draws are random, so only the range is stated; `height_from_draws` gives
/// the height for given draws.
pub fn generate_height() -> (h: usize)
    ensures
        1 <= h <= MAX_HEIGHT,
{
    let first = random_usize();
    let mut heads: usize = 0;
    if first % 4 >= 3 {
        while heads < MAX_HEIGHT - 2 && random_bool()
            invariant
                heads <= MAX_HEIGHT - 2,
            decreases MAX_HEIGHT - 2 - heads,
        {
            heads = heads + 1;
        }
    }
    height_from_draws(first, heads)
}

} // verus!
