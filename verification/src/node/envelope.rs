use vstd::prelude::*;

verus! {

/// Where an attack, decay, sustain, release envelope stands.
#[derive(Clone, Copy, PartialEq, Eq, Structural, Debug)]
pub enum EnvelopePhase {
    Attack,
    Decay,
    Sustain,
    Release,
    Silent,
}

/// How the level of an envelope compares, after a step, with the marks that
/// end a phase.
#[derive(Clone, Copy, PartialEq, Eq, Structural, Debug)]
pub struct LevelMarks {
    /// The level has reached full scale.
    pub at_top: bool,
    /// The level has fallen to the floor below which nothing is heard.
    pub at_floor: bool,
    /// The level has fallen to the sustain level.
    pub at_sustain: bool,
}

/// The phase after a step that left the level at `marks`: the attack ends
/// at the top; the decay ends at the floor, in silence, or else at the sustain
/// level; the release ends at the floor, in silence; sustain and silence last.
pub open spec fn phase_after_step(phase: EnvelopePhase, marks: LevelMarks) -> EnvelopePhase {
    match phase {
        EnvelopePhase::Attack => if marks.at_top {
            EnvelopePhase::Decay
        } else {
            EnvelopePhase::Attack
        },
        EnvelopePhase::Decay => if marks.at_floor {
            EnvelopePhase::Silent
        } else if marks.at_sustain {
            EnvelopePhase::Sustain
        } else {
            EnvelopePhase::Decay
        },
        EnvelopePhase::Sustain => EnvelopePhase::Sustain,
        EnvelopePhase::Release => if marks.at_floor {
            EnvelopePhase::Silent
        } else {
            EnvelopePhase::Release
        },
        EnvelopePhase::Silent => EnvelopePhase::Silent,
    }
}

/// The phase after a note off: a sounding envelope is released, a released
/// or silent one stays as it is.
pub open spec fn phase_after_note_off(phase: EnvelopePhase) -> EnvelopePhase {
    match phase {
        EnvelopePhase::Attack | EnvelopePhase::Decay | EnvelopePhase::Sustain => EnvelopePhase::Release,
        _ => phase,
    }
}

impl EnvelopePhase {
    /// The phase after a step that left the level at `marks`.
    pub fn step(self, marks: LevelMarks) -> (next: EnvelopePhase)
        ensures
            next == phase_after_step(self, marks),
    {
        match self {
            EnvelopePhase::Attack => {
                if marks.at_top {
                    EnvelopePhase::Decay
                } else {
                    EnvelopePhase::Attack
                }
            },
            EnvelopePhase::Decay => {
                if marks.at_floor {
                    EnvelopePhase::Silent
                } else if marks.at_sustain {
                    EnvelopePhase::Sustain
                } else {
                    EnvelopePhase::Decay
                }
            },
            EnvelopePhase::Sustain => EnvelopePhase::Sustain,
            EnvelopePhase::Release => {
                if marks.at_floor {
                    EnvelopePhase::Silent
                } else {
                    EnvelopePhase::Release
                }
            },
            EnvelopePhase::Silent => EnvelopePhase::Silent,
        }
    }

    /// The phase after a note on: the attack starts, from wherever the level is.
    pub fn note_on(self) -> (next: EnvelopePhase)
        ensures
            next == EnvelopePhase::Attack,
    {
        EnvelopePhase::Attack
    }

    /// The phase after a note off.
    pub fn note_off(self) -> (next: EnvelopePhase)
        ensures
            next == phase_after_note_off(self),
    {
        match self {
            EnvelopePhase::Attack => EnvelopePhase::Release,
            EnvelopePhase::Decay => EnvelopePhase::Release,
            EnvelopePhase::Sustain => EnvelopePhase::Release,
            EnvelopePhase::Release => EnvelopePhase::Release,
            EnvelopePhase::Silent => EnvelopePhase::Silent,
        }
    }

    /// Whether the envelope gives a level at all: a silent one gives none.
    pub fn sounds(self) -> (b: bool)
        ensures
            b == (self != EnvelopePhase::Silent),
    {
        match self {
            EnvelopePhase::Silent => false,
            _ => true,
        }
    }
}

/// Once silent, an envelope stays silent until the next note on, whatever
/// its level does and whatever note offs arrive.
pub proof fn law_silence_lasts(marks: LevelMarks)
    ensures
        phase_after_step(EnvelopePhase::Silent, marks) == EnvelopePhase::Silent,
        phase_after_note_off(EnvelopePhase::Silent) == EnvelopePhase::Silent,
{
}

} // verus!
