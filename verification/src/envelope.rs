//! The attack-decay-sustain-release envelope.
//!
//! Time is counted in whole ticks of a clock that the caller chooses, and
//! loudness in millionths of full scale. The envelope keeps no state of its
//! own: its phase and amplitude are functions of the two gate timestamps and
//! of the clock reading alone.

use vstd::prelude::*;

verus! {

/// Full scale, in the unit of every amplitude of this crate.
pub const UNITY: u32 = 1_000_000;

/// Amplitudes at or below this level are rendered as silence.
pub const EPSILON: u32 = 100;

/// When the current note was pressed, and when it was let go.
#[derive(Clone, Copy, Debug, PartialEq, Eq)]
pub struct Gate {
    /// The clock reading at the press; `None` before the first note.
    pub trigger_start: Option<u64>,
    /// The clock reading at the release; `None` while the note is held.
    pub trigger_end: Option<u64>,
}

/// The stretch of the envelope that a clock reading falls into.
#[derive(Clone, Copy, Debug, PartialEq, Eq)]
pub enum Phase {
    /// No note was pressed yet.
    Silent,
    /// The note is held and rises to `start_amplitude`.
    Attack,
    /// The note is held and runs from `start_amplitude` to `sustain_amplitude`.
    Decay,
    /// The note is held at `sustain_amplitude`.
    Sustain,
    /// The note was let go and falls from `sustain_amplitude` to silence,
    /// where it stays: there is no phase after this one but a new press.
    Release,
}

/// The duration that an envelope refuses, being a divisor of its ramps.
#[derive(Clone, Copy, Debug, PartialEq, Eq)]
pub enum ConfigError {
    ZeroAttackTime,
    ZeroDecayTime,
    ZeroReleaseTime,
}

/// The shape of the envelope: two levels and three durations.
#[derive(Clone, Copy, Debug, PartialEq, Eq)]
pub struct Adsr {
    /// The level reached at the end of the attack.
    pub start_amplitude: u32,
    pub attack_time: u64,
    pub decay_time: u64,
    /// The level held from the end of the decay to the release.
    pub sustain_amplitude: u32,
    pub release_time: u64,
}

/// The ticks from `origin` to `time`; none when `time` is not past `origin`.
pub open spec fn since(time: u64, origin: u64) -> int {
    if time >= origin {
        time - origin
    } else {
        0
    }
}

/// The point `num / den` of the way on the straight line from `from` to
/// `to`, the distance covered from `from` rounded down to a whole unit.
pub open spec fn lerp(from: int, to: int, num: int, den: int) -> int {
    if to >= from {
        from + ((to - from) * num) / den
    } else {
        from - ((from - to) * num) / den
    }
}

/// A level with everything at or below `EPSILON` cut to silence.
pub open spec fn gated(level: int) -> int {
    if level <= EPSILON {
        0
    } else {
        level
    }
}

/// The higher of two levels.
pub open spec fn max_level(a: int, b: int) -> int {
    if a >= b {
        a
    } else {
        b
    }
}

/// A level times a count of ticks fits in 128 bits with room to spare.
proof fn lemma_product_fits(span: u32, num: u64)
    ensures
        span * num <= 0xffff_ffff * 0xffff_ffff_ffff_ffff,
        0 <= span * num,
{
    assert(span * num <= 0xffff_ffff * 0xffff_ffff_ffff_ffff) by (nonlinear_arith)
        requires
            0 <= span <= 0xffff_ffff,
            0 <= num <= 0xffff_ffff_ffff_ffff,
    ;
    assert(0 <= span * num) by (nonlinear_arith)
        requires
            0 <= span,
            0 <= num,
    ;
}

/// A fraction of at most one whole covers at most the whole span.
proof fn lemma_covered_within_span(span: int, num: int, den: int)
    requires
        0 <= span,
        0 <= num <= den,
        0 < den,
    ensures
        0 <= (span * num) / den <= span,
{
    assert(0 <= (span * num) / den <= span) by (nonlinear_arith)
        requires
            0 <= span,
            0 <= num <= den,
            0 < den,
    ;
}

/// Within its stretch a line stays between its two ends.
pub proof fn lemma_lerp_between(from: int, to: int, num: int, den: int)
    requires
        0 <= num <= den,
        0 < den,
    ensures
        from <= to ==> from <= lerp(from, to, num, den) <= to,
        to <= from ==> to <= lerp(from, to, num, den) <= from,
{
    if to >= from {
        lemma_covered_within_span(to - from, num, den);
    } else {
        lemma_covered_within_span(from - to, num, den);
    }
}

/// A line that falls never rises above its start, however far it is followed.
pub proof fn lemma_lerp_falling(from: int, to: int, num: int, den: int)
    requires
        to <= from,
        0 <= num,
        0 < den,
    ensures
        lerp(from, to, num, den) <= from,
{
    let span = from - to;
    assert(0 <= (span * num) / den) by (nonlinear_arith)
        requires
            0 <= span,
            0 <= num,
            0 < den,
    ;
    if to == from {
        assert((span * num) / den == 0) by (nonlinear_arith)
            requires
                span == 0,
                0 < den,
        ;
    }
}

/// `lerp`, with a line that falls below zero cut off there.
fn interpolate(from: u32, to: u32, num: u64, den: u64) -> (level: u32)
    requires
        den > 0,
        num <= den || to <= from,
    ensures
        level == max_level(0, lerp(from as int, to as int, num as int, den as int)),
{
    if to > from {
        let span: u32 = to - from;
        proof {
            lemma_product_fits(span, num);
            lemma_covered_within_span(span as int, num as int, den as int);
        }
        let covered: u128 = (span as u128 * num as u128) / (den as u128);
        from + covered as u32
    } else {
        let span: u32 = from - to;
        proof {
            lemma_product_fits(span, num);
            assert(0 <= (span * num) / (den as int)) by (nonlinear_arith)
                requires
                    0 <= span * num,
                    0 < den,
            ;
            assert(span == 0 ==> (span * num) / (den as int) == 0) by (nonlinear_arith)
                requires
                    0 < den,
            ;
        }
        let covered: u128 = (span as u128 * num as u128) / (den as u128);
        if covered >= from as u128 {
            0
        } else {
            from - covered as u32
        }
    }
}

impl Adsr {
    /// Every duration is a divisor of a ramp, so none of them is zero.
    pub open spec fn wf(&self) -> bool {
        &&& self.attack_time > 0
        &&& self.decay_time > 0
        &&& self.release_time > 0
    }

    /// The higher of the two levels: no amplitude exceeds it.
    pub open spec fn ceiling(&self) -> int {
        max_level(self.start_amplitude as int, self.sustain_amplitude as int)
    }

    /// The phase at `time`: silent before the first press, releasing once
    /// the note was let go, and otherwise decided by the ticks since the press.
    pub open spec fn spec_phase(&self, gate: Gate, time: u64) -> Phase {
        match gate.trigger_start {
            None => Phase::Silent,
            Some(start) => match gate.trigger_end {
                Some(_) => Phase::Release,
                None => {
                    let local = since(time, start);
                    if local <= self.attack_time {
                        Phase::Attack
                    } else if local <= self.attack_time + self.decay_time {
                        Phase::Decay
                    } else {
                        Phase::Sustain
                    }
                },
            },
        }
    }

    /// The level on the line of the current phase, before the cut to silence.
    ///
    /// The attack rises from zero to `start_amplitude`, the decay runs from
    /// there to `sustain_amplitude`, and the release falls from
    /// `sustain_amplitude` to zero, anchored at `trigger_end`; past its end
    /// that last line is negative.
    pub open spec fn raw_amplitude(&self, gate: Gate, time: u64) -> int {
        match self.spec_phase(gate, time) {
            Phase::Silent => 0,
            Phase::Attack => lerp(
                0,
                self.start_amplitude as int,
                since(time, gate.trigger_start->0),
                self.attack_time as int,
            ),
            Phase::Decay => lerp(
                self.start_amplitude as int,
                self.sustain_amplitude as int,
                since(time, gate.trigger_start->0) - self.attack_time,
                self.decay_time as int,
            ),
            Phase::Sustain => self.sustain_amplitude as int,
            Phase::Release => lerp(
                self.sustain_amplitude as int,
                0,
                since(time, gate.trigger_end->0),
                self.release_time as int,
            ),
        }
    }

    /// The amplitude at `time`: the level of the current phase, or silence
    /// where that level is at or below `EPSILON`.
    pub open spec fn spec_amplitude(&self, gate: Gate, time: u64) -> int {
        gated(self.raw_amplitude(gate, time))
    }

    /// For every gate and every clock reading, the amplitude is silence or a
    /// level above `EPSILON`, and never above the higher of the two levels.
    pub proof fn lemma_amplitude_in_range(&self, gate: Gate, time: u64)
        requires
            self.wf(),
        ensures
            self.raw_amplitude(gate, time) <= self.ceiling(),
            0 <= self.spec_amplitude(gate, time) <= self.ceiling(),
            self.spec_amplitude(gate, time) == 0 || self.spec_amplitude(gate, time) > EPSILON,
    {
        match self.spec_phase(gate, time) {
            Phase::Silent => {},
            Phase::Attack => {
                lemma_lerp_between(
                    0,
                    self.start_amplitude as int,
                    since(time, gate.trigger_start->0),
                    self.attack_time as int,
                );
            },
            Phase::Decay => {
                lemma_lerp_between(
                    self.start_amplitude as int,
                    self.sustain_amplitude as int,
                    since(time, gate.trigger_start->0) - self.attack_time,
                    self.decay_time as int,
                );
            },
            Phase::Sustain => {},
            Phase::Release => {
                lemma_lerp_falling(
                    self.sustain_amplitude as int,
                    0,
                    since(time, gate.trigger_end->0),
                    self.release_time as int,
                );
            },
        }
    }

    /// Builds an envelope, refusing the first duration that is zero.
    pub fn new(
        start_amplitude: u32,
        attack_time: u64,
        decay_time: u64,
        sustain_amplitude: u32,
        release_time: u64,
    ) -> (made: Result<Adsr, ConfigError>)
        ensures
            made is Ok <==> attack_time > 0 && decay_time > 0 && release_time > 0,
            made matches Ok(envelope) ==> envelope.wf() && envelope == (Adsr {
                start_amplitude,
                attack_time,
                decay_time,
                sustain_amplitude,
                release_time,
            }),
            (made matches Err(ConfigError::ZeroAttackTime)) <==> attack_time == 0,
            (made matches Err(ConfigError::ZeroDecayTime)) <==> attack_time > 0 && decay_time
                == 0,
            (made matches Err(ConfigError::ZeroReleaseTime)) <==> attack_time > 0 && decay_time
                > 0 && release_time == 0,
    {
        if attack_time == 0 {
            Err(ConfigError::ZeroAttackTime)
        } else if decay_time == 0 {
            Err(ConfigError::ZeroDecayTime)
        } else if release_time == 0 {
            Err(ConfigError::ZeroReleaseTime)
        } else {
            Ok(Adsr { start_amplitude, attack_time, decay_time, sustain_amplitude, release_time })
        }
    }

    /// The phase that the envelope is in at `time`.
    pub fn phase(&self, gate: &Gate, time: u64) -> (phase: Phase)
        ensures
            phase == self.spec_phase(*gate, time),
    {
        match gate.trigger_start {
            None => Phase::Silent,
            Some(start) => match gate.trigger_end {
                Some(_) => Phase::Release,
                None => {
                    let local: u64 = time.saturating_sub(start);
                    if local <= self.attack_time {
                        Phase::Attack
                    } else if local - self.attack_time <= self.decay_time {
                        Phase::Decay
                    } else {
                        Phase::Sustain
                    }
                },
            },
        }
    }

    /// The amplitude of the envelope at `time`.
    ///
    /// It is total over gates: a release stamped before its press, as a
    /// reader racing with a writer may see it, still gives a level within
    /// the envelope's range.
    pub fn amplitude(&self, gate: &Gate, time: u64) -> (level: u32)
        requires
            self.wf(),
        ensures
            level == self.spec_amplitude(*gate, time),
            level <= self.ceiling(),
            level == 0 || level > EPSILON,
    {
        proof {
            self.lemma_amplitude_in_range(*gate, time);
        }
        let raw: u32 = match self.phase(gate, time) {
            Phase::Silent => 0,
            Phase::Attack => {
                let local: u64 = time.saturating_sub(gate.trigger_start.unwrap());
                interpolate(0, self.start_amplitude, local, self.attack_time)
            },
            Phase::Decay => {
                let local: u64 = time.saturating_sub(gate.trigger_start.unwrap());
                interpolate(
                    self.start_amplitude,
                    self.sustain_amplitude,
                    local - self.attack_time,
                    self.decay_time,
                )
            },
            Phase::Sustain => self.sustain_amplitude,
            Phase::Release => {
                let local: u64 = time.saturating_sub(gate.trigger_end.unwrap());
                interpolate(self.sustain_amplitude, 0, local, self.release_time)
            },
        };
        if raw <= EPSILON {
            0
        } else {
            raw
        }
    }
}

} // verus!
