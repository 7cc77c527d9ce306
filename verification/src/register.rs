//! The pitch and gate register: which note is asked for, and whether it is held.

use vstd::prelude::*;
use crate::envelope::Gate;

verus! {

/// The note that is currently requested.
///
/// The side that handles input writes it and the renderer reads it once per
/// sample. It is a plain value: sharing it between threads is left to the
/// caller.
#[derive(Clone, Copy, Debug, PartialEq, Eq)]
pub struct Register {
    /// The base frequency in millionths of a hertz; zero while no note was ever asked for.
    pub mu_hertz: u32,
    pub gate: Gate,
}

impl Register {
    /// A release is not stamped before the press that it ends.
    pub open spec fn wf(&self) -> bool {
        self.gate.trigger_start matches Some(start) ==> (self.gate.trigger_end matches Some(end)
            ==> start <= end)
    }

    /// The register after a press of `mu_hertz` at `at_time`: the frequency
    /// is replaced, the press is stamped, and any earlier release is forgotten.
    pub open spec fn spec_note_on(self, mu_hertz: u32, at_time: u64) -> Register {
        Register { mu_hertz, gate: Gate { trigger_start: Some(at_time), trigger_end: None } }
    }

    /// The register after a release at `at_time`: the release is stamped,
    /// and the frequency and the press stay as they are.
    pub open spec fn spec_note_off(self, at_time: u64) -> Register {
        Register {
            mu_hertz: self.mu_hertz,
            gate: Gate { trigger_start: self.gate.trigger_start, trigger_end: Some(at_time) },
        }
    }

    /// The register at startup: no frequency, and no note pressed yet.
    pub fn new() -> (register: Register)
        ensures
            register == (Register {
                mu_hertz: 0,
                gate: Gate { trigger_start: None, trigger_end: None },
            }),
            register.wf(),
    {
        Register { mu_hertz: 0, gate: Gate { trigger_start: None, trigger_end: None } }
    }

    /// Records a press. This starts the note anew at any point, also while
    /// an earlier note is still held or fading.
    pub fn note_on(&mut self, mu_hertz: u32, at_time: u64)
        ensures
            *final(self) == old(self).spec_note_on(mu_hertz, at_time),
            final(self).wf(),
    {
        self.mu_hertz = mu_hertz;
        self.gate = Gate { trigger_start: Some(at_time), trigger_end: None };
    }

    /// Records a release of the current note; the frequency stays, so that
    /// the release is voiced at the pitch of the note.
    ///
    /// The register stays well formed exactly if the release is not stamped
    /// before the press: stamps that are read off one clock never are.
    pub fn note_off(&mut self, at_time: u64)
        ensures
            *final(self) == old(self).spec_note_off(at_time),
            final(self).wf() <==> (old(self).gate.trigger_start matches Some(start) ==> start
                <= at_time),
    {
        self.gate.trigger_end = Some(at_time);
    }
}

} // verus!
