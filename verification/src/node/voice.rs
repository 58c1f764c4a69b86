use vstd::prelude::*;

verus! {

/// What voice allocation reads of one voice of a polyphonic instrument.
#[derive(Clone, Copy, PartialEq, Eq, Structural, Debug)]
pub struct VoiceSlot {
    /// The voice sounds nothing and is free.
    pub silent: bool,
    /// The pitch of the note that the voice plays or played last.
    pub pitch: u8,
    /// When the voice was last given a note: later notes have higher numbers.
    pub counter: usize,
}

/// The lowest pitch among the voices; 255 where there is no voice.
pub open spec fn lowest_pitch(voices: Seq<VoiceSlot>) -> u8
    decreases voices.len(),
{
    if voices.len() == 0 {
        255u8
    } else {
        let rest = lowest_pitch(voices.drop_last());
        if voices.last().pitch < rest {
            voices.last().pitch
        } else {
            rest
        }
    }
}

/// The lowest pitch is the pitch of a voice, and no voice is lower.
pub proof fn lemma_lowest_pitch(voices: Seq<VoiceSlot>)
    ensures
        forall|i: int| 0 <= i < voices.len() ==> lowest_pitch(voices) <= (#[trigger] voices[i]).pitch,
        voices.len() > 0 ==> exists|i: int| 0 <= i < voices.len() && (#[trigger] voices[i]).pitch == lowest_pitch(voices),
    decreases voices.len(),
{
    if voices.len() > 0 {
        let rest = voices.drop_last();
        lemma_lowest_pitch(rest);
        assert forall|i: int| 0 <= i < voices.len() implies lowest_pitch(voices) <= (#[trigger] voices[i]).pitch by {
            if i < rest.len() {
                assert(rest[i] == voices[i]);
            }
        }
        if voices.last().pitch < lowest_pitch(rest) || rest.len() == 0 {
            assert(voices[voices.len() - 1].pitch == lowest_pitch(voices));
        } else {
            let w = choose|i: int| 0 <= i < rest.len() && (#[trigger] rest[i]).pitch == lowest_pitch(rest);
            assert(voices[w] == rest[w]);
        }
    }
}

/// Some voice has another pitch than the lowest.
pub open spec fn has_higher(voices: Seq<VoiceSlot>) -> bool {
    exists|i: int| 0 <= i < voices.len() && (#[trigger] voices[i]).pitch != lowest_pitch(voices)
}

/// Whether voice `i` may be taken for a new note at `pitch` when no voice is
/// free: the voice that holds the lowest note is spared when the new note is
/// higher, so the bass line stays, unless every voice holds that note.
pub open spec fn may_steal(voices: Seq<VoiceSlot>, pitch: u8, i: int) -> bool {
    0 <= i < voices.len() && (lowest_pitch(voices) >= pitch || !has_higher(voices) || voices[i].pitch != lowest_pitch(
        voices,
    ))
}

/// Voice `r` is the voice for a new note at `pitch`: the first free voice;
/// where none is free, of the voices that may be taken the one that was given
/// its note longest ago, the first of them where several were.
pub open spec fn is_voice_for(voices: Seq<VoiceSlot>, pitch: u8, r: int) -> bool {
    &&& 0 <= r < voices.len()
    &&& if exists|i: int| 0 <= i < voices.len() && (#[trigger] voices[i]).silent {
        voices[r].silent && forall|i: int| 0 <= i < r ==> !(#[trigger] voices[i]).silent
    } else {
        &&& may_steal(voices, pitch, r)
        &&& forall|i: int| may_steal(voices, pitch, i) ==> voices[r].counter <= (#[trigger] voices[i]).counter
        &&& forall|i: int| 0 <= i < r && may_steal(voices, pitch, i) ==> voices[r].counter < (#[trigger] voices[i]).counter
    }
}

/// The voice to give a new note at `pitch`.
pub fn find_voice(voices: &Vec<VoiceSlot>, pitch: u8) -> (r: usize)
    requires
        voices@.len() > 0,
    ensures
        is_voice_for(voices@, pitch, r as int),
{
    let n = voices.len();
    let mut i: usize = 0;
    while i < n
        invariant
            i <= n,
            n == voices@.len(),
            forall|j: int| 0 <= j < i ==> !(#[trigger] voices@[j]).silent,
        decreases n - i,
    {
        if voices[i].silent {
            return i;
        }
        i = i + 1;
    }
    let mut lowest: u8 = 255;
    let mut higher = false;
    let mut i: usize = 0;
    assert(voices@.subrange(0, 0) =~= Seq::<VoiceSlot>::empty());
    while i < n
        invariant
            i <= n,
            n == voices@.len(),
            lowest == lowest_pitch(voices@.subrange(0, i as int)),
        decreases n - i,
    {
        assert(voices@.subrange(0, i + 1).drop_last() =~= voices@.subrange(0, i as int));
        if voices[i].pitch < lowest {
            lowest = voices[i].pitch;
        }
        i = i + 1;
    }
    assert(voices@.subrange(0, n as int) =~= voices@);
    let mut i: usize = 0;
    while i < n
        invariant
            i <= n,
            n == voices@.len(),
            lowest == lowest_pitch(voices@),
            higher == exists|j: int| 0 <= j < i && (#[trigger] voices@[j]).pitch != lowest,
        decreases n - i,
    {
        if voices[i].pitch != lowest {
            higher = true;
        }
        i = i + 1;
    }
    assert(higher == has_higher(voices@));
    let spare = lowest < pitch && higher;
    proof {
        lemma_lowest_pitch(voices@);
    }
    let mut best: usize = 0;
    let mut found = false;
    let mut i: usize = 0;
    while i < n
        invariant
            i <= n,
            n == voices@.len(),
            n > 0,
            lowest == lowest_pitch(voices@),
            spare == (lowest < pitch && has_higher(voices@)),
            found ==> best < i && may_steal(voices@, pitch, best as int),
            found ==> forall|j: int| 0 <= j < i && may_steal(voices@, pitch, j) ==> voices@[best as int].counter <= (
            #[trigger] voices@[j]).counter,
            found ==> forall|j: int| 0 <= j < best && may_steal(voices@, pitch, j) ==> voices@[best as int].counter < (
            #[trigger] voices@[j]).counter,
            !found ==> forall|j: int| 0 <= j < i ==> !may_steal(voices@, pitch, j),
            !found ==> best == 0,
        decreases n - i,
    {
        let allowed = !spare || voices[i].pitch != lowest;
        assert(allowed == may_steal(voices@, pitch, i as int));
        if allowed && (!found || voices[i].counter < voices[best].counter) {
            best = i;
            found = true;
        }
        i = i + 1;
    }
    proof {
        if !found {
            if spare {
                let w = choose|j: int| 0 <= j < voices@.len() && (#[trigger] voices@[j]).pitch != lowest_pitch(voices@);
                assert(may_steal(voices@, pitch, w));
            } else {
                assert(may_steal(voices@, pitch, 0));
            }
        }
    }
    best
}

} // verus!
