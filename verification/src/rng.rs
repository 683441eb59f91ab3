//! A seedable stream of 64-bit values. Everything that depends on chance in
//! the simulation is drawn from it, so a seed fixes every outcome.

use vstd::prelude::*;

verus! {

/// The odd constant that every mixing round multiplies by.
pub const MULT: u64 = 0x243f6a8885a308d3;

/// One mixing round: multiply (modulo 2^64), then fold the high bits down.
pub open spec fn mix_round(x: u64) -> u64 {
    let y = x.wrapping_mul(MULT);
    y ^ (y >> 37)
}

/// The value that the stream hands out when its counter stands at `counter`:
/// three mixing rounds and one more multiplication.
pub open spec fn output_of(counter: u64) -> u64 {
    mix_round(mix_round(mix_round(counter))).wrapping_mul(MULT)
}

/// The counter after one more draw.
pub open spec fn next_counter(counter: u64) -> u64 {
    counter.wrapping_add(1)
}

/// The counter after `draws` draws, starting from `counter`.
pub open spec fn state_after(counter: u64, draws: nat) -> u64
    decreases draws,
{
    if draws == 0 {
        counter
    } else {
        next_counter(state_after(counter, (draws - 1) as nat))
    }
}

/// The `n`-th value (counting from 0) that a stream standing at `counter` hands out.
pub open spec fn nth_output(counter: u64, n: nat) -> u64 {
    output_of(state_after(counter, n + 1))
}

/// Adding up draws: `a` draws and then `b` more are `a + b` draws.
pub proof fn lemma_state_after_add(counter: u64, a: nat, b: nat)
    ensures
        state_after(state_after(counter, a), b) == state_after(counter, a + b),
    decreases b,
{
    if b > 0 {
        lemma_state_after_add(counter, a, (b - 1) as nat);
        assert((a + b - 1) as nat == a + (b - 1) as nat);
    }
}

/// A value from the thread-local generator of the `rand` crate, as
/// `rand::random::<u64>()` gives it. Nothing is promised of the value: it
/// differs from call to call. The call itself is trusted to return: `rand`
/// stops the program where the system cannot seed its generator.
#[verifier::external_body]
fn entropy_seed() -> (seed: u64) {
    rand::random::<u64>()
}

#[derive(Debug)]
pub struct Rng {
    state: u64,
}

impl Clone for Rng {
    /// A second stream that stands where this one stands.
    fn clone(&self) -> (copy: Self)
        ensures
            copy@ == self@,
    {
        Self { state: self.state }
    }
}

impl View for Rng {
    type V = u64;

    /// The stream's counter: the whole of its state.
    closed spec fn view(&self) -> u64 {
        self.state
    }
}

impl Rng {
    /// A stream seeded from the system's entropy, for live games.
    pub fn new() -> (rng: Self) {
        Self::new_from_seed(entropy_seed())
    }

    /// A stream that starts at `seed`: equal seeds give equal streams forever.
    pub fn new_from_seed(seed: u64) -> (rng: Self)
        ensures
            rng@ == seed,
    {
        Self { state: seed }
    }

    /// Advances the counter by one (wrapping at 2^64) and returns its mixture.
    pub fn generate(&mut self) -> (value: u64)
        ensures
            final(self)@ == next_counter(old(self)@),
            value == output_of(final(self)@),
            value == nth_output(old(self)@, 0),
    {
        self.state = self.state.wrapping_add(1);
        let mut x: u64 = self.state;
        let mut round: u8 = 0;
        while round < 3
            invariant
                round <= 3,
                round == 0 ==> x == self.state,
                round == 1 ==> x == mix_round(self.state),
                round == 2 ==> x == mix_round(mix_round(self.state)),
                round == 3 ==> x == mix_round(mix_round(mix_round(self.state))),
            decreases 3 - round,
        {
            x = x.wrapping_mul(MULT);
            x = x ^ (x >> 37);
            round = round + 1;
        }
        assert(state_after(old(self)@, 1) == next_counter(state_after(old(self)@, 0)));
        x.wrapping_mul(MULT)
    }
}

} // verus!
