//! What holds of the envelope's curve: it has no jumps within a phase, its
//! phases meet where they touch, a fresh press starts a rising ramp, and a
//! release ends in silence.
//!
//! Levels are whole numbers, so "no jump" reads: two readings differ by less
//! than the slope of the line times the ticks between them, plus one unit.
//! All of it is stated of the level before the cut to silence, which lowers a
//! level by at most `EPSILON`.

use vstd::prelude::*;
use vstd::arithmetic::div_mod::{lemma_fundamental_div_mod, lemma_mod_bound};
use crate::envelope::{Adsr, Gate, Phase, lerp, since, gated, EPSILON};
use crate::register::Register;

verus! {

/// How far two levels are apart.
pub open spec fn distance(a: int, b: int) -> int {
    if a >= b {
        a - b
    } else {
        b - a
    }
}

/// A held note pressed at `start`.
pub open spec fn held(start: u64) -> Gate {
    Gate { trigger_start: Some(start), trigger_end: None }
}

impl Adsr {
    /// The height that the line of a phase covers.
    pub open spec fn phase_span(&self, phase: Phase) -> int {
        match phase {
            Phase::Silent => 0,
            Phase::Attack => self.start_amplitude as int,
            Phase::Decay => distance(self.start_amplitude as int, self.sustain_amplitude as int),
            Phase::Sustain => 0,
            Phase::Release => self.sustain_amplitude as int,
        }
    }

    /// The ticks over which the line of a phase covers its span.
    pub open spec fn phase_length(&self, phase: Phase) -> int {
        match phase {
            Phase::Silent => 1,
            Phase::Attack => self.attack_time as int,
            Phase::Decay => self.decay_time as int,
            Phase::Sustain => 1,
            Phase::Release => self.release_time as int,
        }
    }
}

/// The cut to silence moves two levels apart by at most `EPSILON`: it adds
/// one small step to a curve that has none, and nothing else.
pub proof fn lemma_cut_adds_at_most_epsilon(a: int, b: int)
    ensures
        distance(gated(a), gated(b)) <= distance(a, b) + EPSILON,
{
}

/// Rounded-down quotients keep the order of their dividends, and differ by
/// less than the exact quotient of the difference plus one.
proof fn lemma_quotient_step(a: int, b: int, d: int)
    requires
        a <= b,
        0 < d,
    ensures
        a / d <= b / d,
        (b / d - a / d) * d < b - a + d,
{
    lemma_fundamental_div_mod(a, d);
    lemma_fundamental_div_mod(b, d);
    lemma_mod_bound(a, d);
    lemma_mod_bound(b, d);
    let qa = a / d;
    let qb = b / d;
    assert((qb - qa) * d == d * qb - d * qa) by (nonlinear_arith);
    assert(qa <= qb) by (nonlinear_arith)
        requires
            d * qa - d * qb < d,
            0 < d,
    ;
}

/// Along a line, a later point differs from an earlier one in the direction
/// of the line, and by less than the slope times the distance plus one unit.
pub proof fn lemma_lerp_step(from: int, to: int, num1: int, num2: int, den: int)
    requires
        0 <= num1 <= num2,
        0 < den,
    ensures
        from <= to ==> lerp(from, to, num1, den) <= lerp(from, to, num2, den),
        to <= from ==> lerp(from, to, num2, den) <= lerp(from, to, num1, den),
        ({
            let change = distance(lerp(from, to, num1, den), lerp(from, to, num2, den));
            change * den < (num2 - num1) * distance(from, to) + den
        }),
{
    let span = distance(from, to);
    assert(span * num1 <= span * num2) by (nonlinear_arith)
        requires
            0 <= span,
            num1 <= num2,
    ;
    assert(span * num2 - span * num1 == (num2 - num1) * span) by (nonlinear_arith);
    lemma_quotient_step(span * num1, span * num2, den);
    if to == from {
        assert(span * num1 == 0 && span * num2 == 0) by (nonlinear_arith)
            requires
                span == 0,
        ;
    }
}

/// A line starts at `from`, and after its whole stretch it is at `to`.
pub proof fn lemma_lerp_ends(from: int, to: int, den: int)
    requires
        0 < den,
    ensures
        lerp(from, to, 0, den) == from,
        lerp(from, to, den, den) == to,
{
    let span = distance(from, to);
    assert((span * 0) / den == 0) by (nonlinear_arith)
        requires
            0 < den,
    ;
    assert((span * den) / den == span) by (nonlinear_arith)
        requires
            0 < den,
    ;
    if to >= from {
        assert(span == to - from);
    } else {
        assert(span == from - to);
    }
}

/// Two readings in one phase differ by less than the slope of that phase
/// times the ticks between them, plus one unit: the curve has no jump
/// within a phase.
pub proof fn lemma_continuous_within_phase(envelope: Adsr, gate: Gate, t1: u64, t2: u64)
    requires
        envelope.wf(),
        t1 <= t2,
        envelope.spec_phase(gate, t1) == envelope.spec_phase(gate, t2),
    ensures
        ({
            let phase = envelope.spec_phase(gate, t1);
            let length = envelope.phase_length(phase);
            let change = distance(
                envelope.raw_amplitude(gate, t1),
                envelope.raw_amplitude(gate, t2),
            );
            change * length < (t2 - t1) * envelope.phase_span(phase) + length
        }),
{
    let phase = envelope.spec_phase(gate, t1);
    let span = envelope.phase_span(phase);
    let length = envelope.phase_length(phase);
    match phase {
        Phase::Silent => {
            assert((t2 - t1) * 0 == 0) by (nonlinear_arith);
        },
        Phase::Sustain => {
            assert((t2 - t1) * 0 == 0) by (nonlinear_arith);
        },
        Phase::Attack => {
            let n1 = since(t1, gate.trigger_start->0);
            let n2 = since(t2, gate.trigger_start->0);
            lemma_lerp_step(0, envelope.start_amplitude as int, n1, n2, length);
            assert((n2 - n1) * span <= (t2 - t1) * span) by (nonlinear_arith)
                requires
                    n2 - n1 <= t2 - t1,
                    0 <= span,
            ;
        },
        Phase::Decay => {
            let n1 = since(t1, gate.trigger_start->0) - envelope.attack_time;
            let n2 = since(t2, gate.trigger_start->0) - envelope.attack_time;
            lemma_lerp_step(
                envelope.start_amplitude as int,
                envelope.sustain_amplitude as int,
                n1,
                n2,
                length,
            );
            assert((n2 - n1) * span <= (t2 - t1) * span) by (nonlinear_arith)
                requires
                    n2 - n1 <= t2 - t1,
                    0 <= span,
            ;
        },
        Phase::Release => {
            let n1 = since(t1, gate.trigger_end->0);
            let n2 = since(t2, gate.trigger_end->0);
            lemma_lerp_step(envelope.sustain_amplitude as int, 0, n1, n2, length);
            assert((n2 - n1) * span <= (t2 - t1) * span) by (nonlinear_arith)
                requires
                    n2 - n1 <= t2 - t1,
                    0 <= span,
            ;
        },
    }
}

/// Where the attack ends the decay begins, at the same level: readings
/// `delta` ticks before and after that point both close in on
/// `start_amplitude` as `delta` shrinks, and reach it at `delta == 0`.
pub proof fn lemma_attack_meets_decay(envelope: Adsr, start: u64, delta: u64)
    requires
        envelope.wf(),
        delta <= envelope.attack_time,
        delta <= envelope.decay_time,
        start + envelope.attack_time + delta <= u64::MAX,
    ensures
        ({
            let peak = envelope.start_amplitude as int;
            let before = envelope.raw_amplitude(
                held(start),
                (start + envelope.attack_time - delta) as u64,
            );
            let after = envelope.raw_amplitude(
                held(start),
                (start + envelope.attack_time + delta) as u64,
            );
            &&& before <= peak
            &&& (peak - before) * envelope.attack_time < delta * peak + envelope.attack_time
            &&& distance(after, peak) * envelope.decay_time <= delta * distance(
                peak,
                envelope.sustain_amplitude as int,
            )
            &&& delta == 0 ==> before == peak && after == peak
        }),
{
    let peak = envelope.start_amplitude as int;
    let sustain = envelope.sustain_amplitude as int;
    let attack = envelope.attack_time as int;
    let decay = envelope.decay_time as int;
    lemma_lerp_ends(0, peak, attack);
    lemma_lerp_step(0, peak, attack - delta, attack, attack);
    lemma_lerp_ends(peak, sustain, decay);
    let span = distance(peak, sustain);
    assert(0 <= (span * delta) / decay && ((span * delta) / decay) * decay <= delta * span)
        by (nonlinear_arith)
        requires
            0 <= span,
            0 <= delta,
            0 < decay,
    ;
    if delta == 0 {
        assert(delta * span == 0) by (nonlinear_arith)
            requires
                delta == 0,
        ;
        assert(delta * peak == 0) by (nonlinear_arith)
            requires
                delta == 0,
        ;
    }
    assert((attack - (attack - delta)) * peak == delta * peak);
}

/// Where the decay ends the sustain begins, at the same level: a reading
/// `delta` ticks before that point closes in on `sustain_amplitude` as
/// `delta` shrinks, and every reading from that point on is at it.
pub proof fn lemma_decay_meets_sustain(envelope: Adsr, start: u64, delta: u64)
    requires
        envelope.wf(),
        delta <= envelope.decay_time,
        start + envelope.attack_time + envelope.decay_time + delta <= u64::MAX,
    ensures
        ({
            let sustain = envelope.sustain_amplitude as int;
            let before = envelope.raw_amplitude(
                held(start),
                (start + envelope.attack_time + envelope.decay_time - delta) as u64,
            );
            let after = envelope.raw_amplitude(
                held(start),
                (start + envelope.attack_time + envelope.decay_time + delta) as u64,
            );
            &&& distance(before, sustain) * envelope.decay_time < delta * distance(
                envelope.start_amplitude as int,
                sustain,
            ) + envelope.decay_time
            &&& after == sustain
            &&& delta == 0 ==> before == sustain
        }),
{
    let peak = envelope.start_amplitude as int;
    let sustain = envelope.sustain_amplitude as int;
    let attack = envelope.attack_time as int;
    let decay = envelope.decay_time as int;
    lemma_lerp_ends(0, peak, attack);
    lemma_lerp_ends(peak, sustain, decay);
    lemma_lerp_step(peak, sustain, decay - delta, decay, decay);
    assert((decay - (decay - delta)) * distance(peak, sustain) == delta * distance(peak, sustain));
    if delta == 0 {
        assert(delta * distance(peak, sustain) == 0) by (nonlinear_arith)
            requires
                delta == 0,
        ;
    }
}

/// A press, whatever the register held before it (a note in mid-release
/// too), forgets the release and starts the attack anew at the time of the
/// press: the amplitude is zero there and does not fall while the attack lasts.
pub proof fn lemma_retrigger_restarts_attack(
    envelope: Adsr,
    register: Register,
    mu_hertz: u32,
    at_time: u64,
    t1: u64,
    t2: u64,
)
    requires
        envelope.wf(),
        at_time <= t1 <= t2,
        t2 - at_time <= envelope.attack_time,
    ensures
        ({
            let pressed = register.spec_note_on(mu_hertz, at_time);
            &&& pressed.gate.trigger_end is None
            &&& pressed.gate.trigger_start == Some(at_time)
            &&& envelope.spec_phase(pressed.gate, t1) == Phase::Attack
            &&& envelope.spec_phase(pressed.gate, t2) == Phase::Attack
            &&& envelope.spec_amplitude(pressed.gate, at_time) == 0
            &&& envelope.spec_amplitude(pressed.gate, t1) <= envelope.spec_amplitude(
                pressed.gate,
                t2,
            )
        }),
{
    let peak = envelope.start_amplitude as int;
    let attack = envelope.attack_time as int;
    lemma_lerp_ends(0, peak, attack);
    lemma_lerp_step(0, peak, t1 - at_time, t2 - at_time, attack);
}

/// A release starts at `sustain_amplitude`, and is silent from
/// `release_time` ticks after `trigger_end` on.
pub proof fn lemma_release_ends_in_silence(envelope: Adsr, start: u64, end: u64, time: u64)
    requires
        envelope.wf(),
        time >= end + envelope.release_time,
    ensures
        ({
            let gate = Gate { trigger_start: Some(start), trigger_end: Some(end) };
            &&& envelope.raw_amplitude(gate, end) == envelope.sustain_amplitude
            &&& envelope.spec_amplitude(gate, time) == 0
        }),
{
    let sustain = envelope.sustain_amplitude as int;
    let release = envelope.release_time as int;
    lemma_lerp_ends(sustain, 0, release);
    lemma_lerp_step(sustain, 0, release, time - end, release);
}

} // verus!
