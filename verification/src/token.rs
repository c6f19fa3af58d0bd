//! mio token ID generation algorithm.

use vstd::prelude::*;

verus! {

/// The key of one registered source of events.
#[derive(Clone, Copy, Debug, PartialEq, Eq, PartialOrd, Ord, Hash, Structural)]
pub struct Token(pub usize);

/// An mio token ID generation algorithm must implement this trait.
pub trait TokenNext {
    /// The identifier of the token that comes next.
    spec fn upcoming(&self) -> usize;

    /// The increment from one identifier to the next.
    spec fn increment(&self) -> usize;

    /// Returns the next token.
    fn next(&mut self) -> (token: Token)
        ensures
            token.0 == old(self).upcoming(),
            final(self).upcoming() == advanced(
                old(self).upcoming(),
                old(self).increment() as int,
            ),
            final(self).increment() == old(self).increment(),
    ;
}

/// A token generation algorithm for single-thread condition.
pub struct LocalTokenGenerator {
    counter: usize,
    step: usize,
}

impl LocalTokenGenerator {
    /// Creates a new `LocalTokenGenerator` with id `start` value and id increment `step`.
    pub fn new(start: usize, step: usize) -> (generator: Self)
        ensures
            generator.upcoming() == start,
            generator.increment() == step,
    {
        LocalTokenGenerator { counter: start, step }
    }
}

impl Default for LocalTokenGenerator {
    /// Creates a default `LocalTokenGenerator` with id start value `0` and id increment step `1`.
    fn default() -> (generator: Self)
        ensures
            generator.upcoming() == 0,
            generator.increment() == 1,
    {
        LocalTokenGenerator::new(0, 1)
    }
}

impl TokenNext for LocalTokenGenerator {
    closed spec fn upcoming(&self) -> usize {
        self.counter
    }

    closed spec fn increment(&self) -> usize {
        self.step
    }

    fn next(&mut self) -> (token: Token) {
        let token = Token(self.counter);
        proof {
            lemma_wrapping_add(self.counter, self.step);
        }
        self.counter = token.0.wrapping_add(self.step);
        token
    }
}

/// A token generation algorithm for multi-thread condition: its owner shares it behind a lock.
pub struct MultiThreadTokenGenerator {
    counter: usize,
    step: usize,
}

impl MultiThreadTokenGenerator {
    /// Creates a new `MultiThreadTokenGenerator` with id `start` value and id increment `step`.
    pub fn new(start: usize, step: usize) -> (generator: Self)
        ensures
            generator.upcoming() == start,
            generator.increment() == step,
    {
        MultiThreadTokenGenerator { counter: start, step }
    }
}

impl Default for MultiThreadTokenGenerator {
    /// Creates a default `MultiThreadTokenGenerator` with id start value `0` and id increment step
    /// `1`.
    fn default() -> (generator: Self)
        ensures
            generator.upcoming() == 0,
            generator.increment() == 1,
    {
        MultiThreadTokenGenerator::new(0, 1)
    }
}

impl TokenNext for MultiThreadTokenGenerator {
    closed spec fn upcoming(&self) -> usize {
        self.counter
    }

    closed spec fn increment(&self) -> usize {
        self.step
    }

    fn next(&mut self) -> (token: Token) {
        let token = Token(self.counter);
        proof {
            lemma_wrapping_add(self.counter, self.step);
        }
        self.counter = token.0.wrapping_add(self.step);
        token
    }
}

/// A mio token generator: its owner shares it behind a lock.
pub struct TokenGenerator(usize);

impl TokenGenerator {
    /// The token that comes next.
    pub closed spec fn upcoming(self) -> usize {
        self.0
    }

    /// Returns the next token.
    pub fn next(&mut self) -> (token: usize)
        ensures
            token == old(self).upcoming(),
            final(self).upcoming() == advanced(old(self).upcoming(), 1),
    {
        let token: usize = self.0;
        proof {
            lemma_wrapping_add(token, 1);
        }
        self.0 = token.wrapping_add(1);
        token
    }
}

impl Default for TokenGenerator {
    /// Creates a generator that starts at `0`.
    fn default() -> (generator: Self)
        ensures
            generator.upcoming() == 0,
    {
        TokenGenerator(0)
    }
}

/// Wrapping addition advances by the addend.
proof fn lemma_wrapping_add(counter: usize, step: usize)
    ensures
        counter.wrapping_add(step) == advanced(counter, step as int),
{
    let m = usize::MAX + 1;
    if counter + step > usize::MAX {
        vstd::arithmetic::div_mod::lemma_mod_add_multiples_vanish(counter + step - m, m);
        vstd::arithmetic::div_mod::lemma_small_mod((counter + step - m) as nat, m as nat);
    } else {
        vstd::arithmetic::div_mod::lemma_small_mod((counter + step) as nat, m as nat);
    }
}

/// `start` advanced by `distance`, wrapping around at the largest token.
pub open spec fn advanced(start: usize, distance: int) -> int {
    (start + distance) % (usize::MAX + 1)
}

/// One step further.
pub proof fn lemma_advanced_next(start: usize, distance: int)
    requires
        distance >= 0,
    ensures
        0 <= advanced(start, distance) <= usize::MAX,
        advanced(start, 0) == start,
        advanced(start, distance + 1) == advanced(advanced(start, distance) as usize, 1),
{
    let m = usize::MAX + 1;
    vstd::arithmetic::div_mod::lemma_mod_bound(start + distance, m);
    vstd::arithmetic::div_mod::lemma_small_mod(start as nat, m as nat);
    vstd::arithmetic::div_mod::lemma_add_mod_noop(start + distance, 1, m);
    vstd::arithmetic::div_mod::lemma_add_mod_noop(advanced(start, distance), 1, m);
    vstd::arithmetic::div_mod::lemma_mod_twice(start + distance, m);
}

/// A full turn leads back.
pub proof fn lemma_advanced_wraps(start: usize)
    ensures
        advanced(start, usize::MAX + 1) == start,
{
    let m = usize::MAX + 1;
    vstd::arithmetic::div_mod::lemma_mod_add_multiples_vanish(start as int, m);
    vstd::arithmetic::div_mod::lemma_small_mod(start as nat, m as nat);
}

/// A full turn reaches every token.
pub proof fn lemma_advanced_reaches(start: usize, token: usize)
    ensures
        exists|k: int| 0 <= k <= usize::MAX && #[trigger] advanced(start, k) == token,
{
    let m = usize::MAX + 1;
    let k = if token >= start {
        token - start
    } else {
        token - start + m
    };
    vstd::arithmetic::div_mod::lemma_mod_add_multiples_vanish(token as int, m);
    vstd::arithmetic::div_mod::lemma_small_mod(token as nat, m as nat);
    assert(advanced(start, k) == token);
}

/// A generator with the increment one does not repeat a token before a full turn.
pub proof fn lemma_tokens_are_distinct(start: usize, earlier: int, later: int)
    requires
        0 <= earlier < later <= usize::MAX,
    ensures
        advanced(start, earlier) != advanced(start, later),
{
    let m = usize::MAX + 1;
    if advanced(start, earlier) == advanced(start, later) {
        vstd::arithmetic::div_mod::lemma_mod_equivalence(start + later, start + earlier, m);
        vstd::arithmetic::div_mod::lemma_small_mod((later - earlier) as nat, m as nat);
    }
}

} // verus!
