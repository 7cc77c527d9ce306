//! Rendering is reproducible: under a register that does not change, the
//! samples are a function of the clock reading at the start, the register and
//! the envelope, however the work is cut into calls.

use vstd::prelude::*;
use crate::register::Register;
use crate::synth::{Sample, Synth};

verus! {

impl Synth {
    /// `n` samples produced one after the other under the same register:
    /// the voice after the last of them, and the samples in order.
    pub open spec fn run(&self, register: Register, n: nat) -> (Synth, Seq<Sample>)
        decreases n,
    {
        if n == 0 {
            (*self, Seq::empty())
        } else {
            let (before, samples) = self.run(register, (n - 1) as nat);
            let (after, sample) = before.spec_produce_sample(register);
            (after, samples.push(sample))
        }
    }
}

/// Stepping `m` samples on from the voice after `n` samples is stepping
/// `n + m` samples at once.
pub proof fn lemma_advanced_twice(synth: Synth, n: nat, m: nat)
    requires
        synth.clock_after(n + m) <= u64::MAX,
    ensures
        synth.clock_after(n) <= u64::MAX,
        synth.advanced(n).clock_after(m) == synth.clock_after(n + m),
        synth.advanced(n).advanced(m) == synth.advanced(n + m),
{
    let step = synth.time_step as int;
    assert((n + m) * step == n * step + m * step) by (nonlinear_arith);
    assert(0 <= n * step && 0 <= m * step) by (nonlinear_arith)
        requires
            0 <= n,
            0 <= m,
            0 <= step,
    ;
}

/// Producing `n` samples one at a time leaves the voice where `n` steps of
/// the clock leave it, and gives the samples that are played at the `n`
/// clock readings after the start: the same start gives the same samples.
pub proof fn lemma_run_is_rendered(synth: Synth, register: Register, n: nat)
    requires
        synth.clock_after(n) <= u64::MAX,
    ensures
        synth.run(register, n) == (synth.advanced(n), synth.rendered(register, n)),
    decreases n,
{
    if n == 0 {
        assert(synth.clock_after(0) == synth.time) by {
            assert(0 * synth.time_step == 0) by (nonlinear_arith);
        }
        assert(synth.rendered(register, 0) =~= Seq::<Sample>::empty());
    } else {
        let prev = (n - 1) as nat;
        lemma_advanced_twice(synth, prev, 1);
        lemma_run_is_rendered(synth, register, prev);
        let (after, sample) = synth.advanced(prev).spec_produce_sample(register);
        assert(after == synth.advanced(n));
        assert(synth.rendered(register, prev).push(sample) =~= synth.rendered(register, n));
    }
}

/// Two buffers rendered back to back hold what one buffer of their joint
/// length holds: where a buffer ends leaves no trace in the samples.
pub proof fn lemma_rendered_splits(synth: Synth, register: Register, n: nat, m: nat)
    requires
        synth.clock_after(n + m) <= u64::MAX,
    ensures
        synth.rendered(register, n + m) == synth.rendered(register, n) + synth.advanced(
            n,
        ).rendered(register, m),
{
    lemma_advanced_twice(synth, n, m);
    let joint = synth.rendered(register, n + m);
    let first = synth.rendered(register, n);
    let second = synth.advanced(n).rendered(register, m);
    assert forall|i: int| 0 <= i < n + m implies joint[i] == (first + second)[i] by {
        if i >= n {
            let k = (i - n + 1) as nat;
            let step = synth.time_step as int;
            assert((n + k) * step == n * step + k * step) by (nonlinear_arith);
            assert(0 <= n * step) by (nonlinear_arith)
                requires
                    0 <= n,
                    0 <= step,
            ;
            assert((n + k) * step <= (n + m) * step) by (nonlinear_arith)
                requires
                    k <= m,
                    0 <= step,
            ;
            assert(synth.advanced(n).clock_after(k) == synth.clock_after((i + 1) as nat));
        }
    }
    assert(joint =~= first + second);
}

} // verus!
