//! The stage machine of an ADSR envelope. The level itself, a sample value,
//! is kept by the caller; this type decides the stage it moves through.

use vstd::prelude::*;

verus! {

#[derive(Clone, Copy, Debug, PartialEq, Eq, Structural)]
pub enum EnvelopeStage {
    Idle,
    Attack,
    Decay,
    Sustain,
    Release,
}

/// The stage that follows `stage` once its target level is reached: the peak
/// ends Attack, the sustain level ends Decay, zero ends Release. Idle and
/// Sustain hold their level and have no target.
pub open spec fn stage_after_target(stage: EnvelopeStage) -> EnvelopeStage {
    match stage {
        EnvelopeStage::Attack => EnvelopeStage::Decay,
        EnvelopeStage::Decay => EnvelopeStage::Sustain,
        EnvelopeStage::Release => EnvelopeStage::Idle,
        EnvelopeStage::Idle => EnvelopeStage::Idle,
        EnvelopeStage::Sustain => EnvelopeStage::Sustain,
    }
}

/// Gate state and current stage of an envelope.
#[derive(Clone, Copy, Debug, PartialEq, Eq, Structural)]
pub struct EnvelopeControl {
    pub stage: EnvelopeStage,
    pub gate: bool,
}

impl EnvelopeControl {
    /// Gate off, Idle.
    pub fn new() -> (r: EnvelopeControl)
        ensures
            r.stage == EnvelopeStage::Idle,
            !r.gate,
    {
        EnvelopeControl { stage: EnvelopeStage::Idle, gate: false }
    }

    /// Opens its gate and enters Attack from whatever stage the envelope is
    /// in. The level is not touched: a new note starts from where the old
    /// one is.
    pub fn trigger_on(&mut self)
        ensures
            final(self).gate,
            final(self).stage == EnvelopeStage::Attack,
    {
        self.gate = true;
        self.stage = EnvelopeStage::Attack;
    }

    /// Closes its gate and enters Release from whatever stage the envelope
    /// is in.
    pub fn trigger_off(&mut self)
        ensures
            !final(self).gate,
            final(self).stage == EnvelopeStage::Release,
    {
        self.gate = false;
        self.stage = EnvelopeStage::Release;
    }

    /// The current stage's target level was reached in this sample.
    pub fn target_reached(&mut self)
        ensures
            final(self).gate == old(self).gate,
            final(self).stage == stage_after_target(old(self).stage),
    {
        self.stage = match self.stage {
            EnvelopeStage::Attack => EnvelopeStage::Decay,
            EnvelopeStage::Decay => EnvelopeStage::Sustain,
            EnvelopeStage::Release => EnvelopeStage::Idle,
            EnvelopeStage::Idle => EnvelopeStage::Idle,
            EnvelopeStage::Sustain => EnvelopeStage::Sustain,
        };
    }

    pub fn stage(&self) -> (r: EnvelopeStage)
        ensures
            r == self.stage,
    {
        self.stage
    }

    pub fn gate(&self) -> (r: bool)
        ensures
            r == self.gate,
    {
        self.gate
    }
}

} // verus!
