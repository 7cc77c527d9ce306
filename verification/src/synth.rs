//! The voice and its render loop.
//!
//! The voice owns the clock. For every output slot it advances the clock by
//! one time step, takes a reading of the register, and says what is to sound
//! in that slot: silence, or a tone at the register's frequency under the
//! envelope's amplitude. Turning a tone into a waveform value is the
//! caller's part.

use vstd::prelude::*;
use crate::envelope::Adsr;
use crate::register::Register;

verus! {

/// What sounds in one output slot.
#[derive(Clone, Copy, Debug, PartialEq, Eq)]
pub enum Sample {
    /// Nothing: no frequency is set, or the envelope is at zero.
    Silent,
    /// An oscillator at `mu_hertz` millionths of a hertz, evaluated at clock
    /// reading `time` and scaled by `amplitude` millionths of full scale.
    Tone { mu_hertz: u32, time: u64, amplitude: u32 },
}

/// One voice: a clock and the envelope that shapes its note.
#[derive(Clone, Copy, Debug, PartialEq, Eq)]
pub struct Synth {
    /// The clock reading of the sample rendered last.
    pub time: u64,
    /// The ticks that the clock advances per sample.
    pub time_step: u64,
    pub envelope: Adsr,
}

impl Synth {
    /// The voice is sound where its envelope is.
    pub open spec fn wf(&self) -> bool {
        self.envelope.wf()
    }

    /// What sounds at `time`: silence at frequency zero, held or not, and
    /// silence where the envelope is at zero.
    pub open spec fn spec_play(&self, register: Register, time: u64) -> Sample {
        let amplitude = self.envelope.spec_amplitude(register.gate, time);
        if register.mu_hertz == 0 || amplitude == 0 {
            Sample::Silent
        } else {
            Sample::Tone { mu_hertz: register.mu_hertz, time, amplitude: amplitude as u32 }
        }
    }

    /// One sample on: the voice with its clock one time step further, and
    /// what is played at the new reading.
    pub open spec fn spec_produce_sample(&self, register: Register) -> (Synth, Sample) {
        let next = Synth {
            time: (self.time + self.time_step) as u64,
            time_step: self.time_step,
            envelope: self.envelope,
        };
        (next, self.spec_play(register, next.time))
    }

    /// The clock reading after `n` more samples.
    pub open spec fn clock_after(&self, n: nat) -> int {
        self.time + n * self.time_step
    }

    /// The voice after `n` more samples.
    pub open spec fn advanced(&self, n: nat) -> Synth {
        Synth {
            time: self.clock_after(n) as u64,
            time_step: self.time_step,
            envelope: self.envelope,
        }
    }

    /// The next `n` samples under a register that does not change: the
    /// sample of slot `i` is played at the clock reading after `i + 1` steps.
    pub open spec fn rendered(&self, register: Register, n: nat) -> Seq<Sample> {
        Seq::new(n, |i: int| self.spec_play(register, self.clock_after((i + 1) as nat) as u64))
    }

    /// `read` returns `register` and nothing else: the note does not change.
    pub open spec fn reads_only<R: Fn() -> Register>(read: R, register: Register) -> bool {
        forall|reading: Register| call_ensures(read, (), reading) ==> reading == register
    }

    /// `sample` is what is played at `time` for some register that `read`
    /// may return.
    pub open spec fn plays_a_reading<R: Fn() -> Register>(
        &self,
        read: R,
        time: u64,
        sample: Sample,
    ) -> bool {
        exists|register: Register|
            call_ensures(read, (), register) && sample == #[trigger] self.spec_play(register, time)
    }

    /// A voice with its clock at zero.
    pub fn new(time_step: u64, envelope: Adsr) -> (synth: Synth)
        ensures
            synth == (Synth { time: 0, time_step, envelope }),
    {
        Synth { time: 0, time_step, envelope }
    }

    /// What sounds at clock reading `time` for the note in `register`.
    pub fn play(&self, register: &Register, time: u64) -> (sample: Sample)
        requires
            self.wf(),
        ensures
            sample == self.spec_play(*register, time),
    {
        if register.mu_hertz == 0 {
            return Sample::Silent;
        }
        let amplitude: u32 = self.envelope.amplitude(&register.gate, time);
        if amplitude == 0 {
            Sample::Silent
        } else {
            Sample::Tone { mu_hertz: register.mu_hertz, time, amplitude }
        }
    }

    /// Advances the clock by one time step and plays at the new reading.
    pub fn produce_sample(&mut self, register: &Register) -> (sample: Sample)
        requires
            old(self).wf(),
            old(self).time + old(self).time_step <= u64::MAX,
        ensures
            (*final(self), sample) == old(self).spec_produce_sample(*register),
            final(self).time == old(self).time + old(self).time_step,
    {
        self.time = self.time + self.time_step;
        self.play(register, self.time)
    }

    /// Fills every slot of `out` with the next sample, in order; the register
    /// is read anew, through `read`, for each of them.
    ///
    /// Each slot holds what is played for one of the readings that `read` may
    /// return; where it can only return one, the slots hold `rendered` of it.
    pub fn callback<R: Fn() -> Register>(&mut self, read: R, out: &mut [Sample])
        requires
            old(self).wf(),
            old(self).clock_after(old(out)@.len()) <= u64::MAX,
            call_requires(read, ()),
        ensures
            *final(self) == old(self).advanced(old(out)@.len()),
            final(out)@.len() == old(out)@.len(),
            forall|i: int|
                0 <= i < old(out)@.len() ==> old(self).plays_a_reading(
                    read,
                    old(self).clock_after((i + 1) as nat) as u64,
                    #[trigger] final(out)@[i],
                ),
            forall|register: Register| #[trigger]
                Self::reads_only(read, register) ==> final(out)@ == old(self).rendered(
                    register,
                    old(out)@.len(),
                ),
    {
        let n: usize = out.len();
        let mut i: usize = 0;
        proof {
            assert(0 * old(self).time_step == 0);
        }
        while i < n
            invariant
                i <= n,
                n == out@.len(),
                n == old(out)@.len(),
                self.wf(),
                call_requires(read, ()),
                old(self).clock_after(n as nat) <= u64::MAX,
                *self == old(self).advanced(i as nat),
                forall|k: int|
                    0 <= k < i ==> old(self).plays_a_reading(
                        read,
                        old(self).clock_after((k + 1) as nat) as u64,
                        #[trigger] out@[k],
                    ),
            decreases n - i,
        {
            proof {
                lemma_clock_steps(*old(self), i as nat, n as nat);
            }
            let register = read();
            let sample = self.produce_sample(&register);
            assert(sample == old(self).spec_play(register, self.time));
            out[i] = sample;
            i = i + 1;
        }
        proof {
            assert forall|register: Register| #[trigger]
                Self::reads_only(read, register) implies out@ == old(self).rendered(
                register,
                n as nat,
            ) by {
                assert forall|k: int| 0 <= k < n implies out@[k] == old(self).rendered(
                    register,
                    n as nat,
                )[k] by {
                    assert(old(self).plays_a_reading(
                        read,
                        old(self).clock_after((k + 1) as nat) as u64,
                        out@[k],
                    ));
                }
                assert(out@ =~= old(self).rendered(register, n as nat));
            }
        }
    }
}

/// The clock after `i + 1` steps is one step past the clock after `i`, and
/// no later than the clock after any `n > i` steps.
proof fn lemma_clock_steps(synth: Synth, i: nat, n: nat)
    requires
        i < n,
    ensures
        synth.clock_after(i + 1) == synth.clock_after(i) + synth.time_step,
        synth.time <= synth.clock_after(i),
        synth.clock_after(i + 1) <= synth.clock_after(n),
{
    let step = synth.time_step as int;
    assert((i + 1) * step == i * step + step) by (nonlinear_arith);
    assert(0 <= i * step) by (nonlinear_arith)
        requires
            0 <= i,
            0 <= step,
    ;
    assert((i + 1) * step <= n * step) by (nonlinear_arith)
        requires
            i + 1 <= n,
            0 <= step,
    ;
}

} // verus!
