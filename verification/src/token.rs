//! Tokens for accepted connections.

use vstd::prelude::*;

verus! {

/// The token that follows `last` when `reserved` belongs to the listener:
/// one more than the larger of the two, and 0 where that does not fit.
pub open spec fn token_after(last: usize, reserved: usize) -> usize {
    let floor = if last < reserved { reserved } else { last };
    if floor == usize::MAX {
        0
    } else {
        (floor + 1) as usize
    }
}

/// The token of the `k`-th mint after `last`, counting from 0.
pub open spec fn nth_token(last: usize, reserved: usize, k: nat) -> usize
    decreases k,
{
    if k == 0 {
        token_after(last, reserved)
    } else {
        token_after(nth_token(last, reserved, (k - 1) as nat), reserved)
    }
}

/// Hands out the tokens of accepted connections, counting up from the
/// listener's reserved token.
pub struct TokenMint {
    reserved: usize,
    last: usize,
}

impl TokenMint {
    /// The listener's token.
    pub closed spec fn reserved(self) -> usize {
        self.reserved
    }

    /// The token minted last, or the reserved token before the first mint.
    pub closed spec fn last(self) -> usize {
        self.last
    }

    /// A mint whose first token is one above `reserved`.
    pub fn new(reserved: usize) -> (mint: TokenMint)
        ensures
            mint.reserved() == reserved,
            mint.last() == reserved,
    {
        TokenMint { reserved, last: reserved }
    }

    /// The next token.
    pub fn mint(&mut self) -> (token: usize)
        ensures
            token == token_after(old(self).last(), old(self).reserved()),
            final(self).last() == token,
            final(self).reserved() == old(self).reserved(),
    {
        let floor = if self.last < self.reserved { self.reserved } else { self.last };
        self.last = floor.wrapping_add(1);
        self.last
    }

    /// The listener's token.
    pub fn reserved_token(&self) -> (token: usize)
        ensures
            token == self.reserved(),
    {
        self.reserved
    }

    /// The token minted last, or the reserved token before the first mint.
    pub fn last_token(&self) -> (token: usize)
        ensures
            token == self.last(),
    {
        self.last
    }
}

/// As long as the counter does not wrap, the tokens minted in a row count up
/// by one from the larger of the reserved token and the last one: they are
/// strictly increasing, pairwise distinct, and none is the reserved token.
pub proof fn lemma_minted_tokens_increase(last: usize, reserved: usize, n: nat)
    requires
        last + n <= usize::MAX,
        reserved + n <= usize::MAX,
    ensures
        forall|k: nat|
            k < n ==> #[trigger] nth_token(last, reserved, k) == (if last < reserved {
                reserved
            } else {
                last
            }) + k + 1,
        forall|j: nat, k: nat|
            j < k < n ==> #[trigger] nth_token(last, reserved, j) < #[trigger] nth_token(
                last,
                reserved,
                k,
            ),
        forall|j: nat, k: nat|
            j < n && k < n && j != k ==> #[trigger] nth_token(last, reserved, j)
                != #[trigger] nth_token(last, reserved, k),
        forall|k: nat| k < n ==> #[trigger] nth_token(last, reserved, k) != reserved,
    decreases n,
{
    if n > 0 {
        lemma_minted_tokens_increase(last, reserved, (n - 1) as nat);
        let k = (n - 1) as nat;
        if k > 0 {
            assert(nth_token(last, reserved, (k - 1) as nat) == (if last < reserved {
                reserved
            } else {
                last
            }) + k);
        }
    }
}

} // verus!
