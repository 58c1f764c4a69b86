use crate::buffer::audio::{AudioBuffer, AudioBufferMut, AudioBufferRef};
use crate::sample::{clip32, is_silence, mixes_to, Sample};
use vstd::prelude::*;

verus! {

/// Every ring is well formed and can hold a block of `frames` frames.
pub open spec fn rings_ready<T: Copy>(rings: Seq<AudioBuffer<T>>, frames: nat) -> bool {
    forall|i: int| 0 <= i < rings.len() ==> (#[trigger] rings[i]).wf() && frames <= rings[i].capacity()
}

/// The rings are as many as before, each well formed, with the capacity and
/// the cursor it had.
pub open spec fn same_rings<T: Copy>(before: Seq<AudioBuffer<T>>, after: Seq<AudioBuffer<T>>) -> bool {
    &&& after.len() == before.len()
    &&& forall|i: int|
        0 <= i < before.len() ==> {
            &&& (#[trigger] after[i]).wf()
            &&& after[i].capacity() == before[i].capacity()
            &&& after[i].position() == before[i].position()
        }
}

/// Every index of `ids` is below `n`.
pub open spec fn all_below(ids: Seq<usize>, n: int) -> bool {
    forall|i: int| 0 <= i < ids.len() ==> (#[trigger] ids[i]) < n
}

/// Outside its next `frames` frames, the ring holds what it held.
pub open spec fn kept_outside<T: Copy>(before: AudioBuffer<T>, after: AudioBuffer<T>, frames: nat) -> bool {
    forall|i: int|
        0 <= i < before.capacity() && !before.in_window(frames, i) ==> #[trigger] after.frame(i) == before.frame(i)
}

/// Every sample of the frames is silence.
pub open spec fn all_silent<T: Sample>(frames: Seq<(T, T)>) -> bool {
    forall|k: int| 0 <= k < frames.len() ==> is_silence((#[trigger] frames[k]).0) && is_silence(frames[k].1)
}

/// `after` is `before` with `added` mixed in, frame by frame and channel by channel.
pub open spec fn mixed_frames<T: Sample>(before: Seq<(T, T)>, added: Seq<(T, T)>, after: Seq<(T, T)>) -> bool {
    &&& after.len() == before.len()
    &&& added.len() == before.len()
    &&& forall|k: int|
        0 <= k < before.len() ==> {
            &&& mixes_to(before[k].0, added[k].0, (#[trigger] after[k]).0)
            &&& mixes_to(before[k].1, added[k].1, after[k].1)
        }
}

/// `end` is `start` with each of `sources` mixed in, one after the other.
pub open spec fn mix_chain<T: Sample>(start: Seq<(T, T)>, sources: Seq<Seq<(T, T)>>, end: Seq<(T, T)>) -> bool
    decreases sources.len(),
{
    if sources.len() == 0 {
        end == start
    } else {
        exists|mid: Seq<(T, T)>|
            mix_chain(start, sources.drop_last(), mid) && #[trigger] mixed_frames(mid, sources.last(), end)
    }
}

/// Two sources merged into a target are mixed in one after the other: the
/// first into what the target held, the second into that mix.
pub proof fn law_merge_of_two<T: Sample>(start: Seq<(T, T)>, first: Seq<(T, T)>, second: Seq<(T, T)>, end: Seq<(T, T)>)
    requires
        mix_chain(start, seq![first, second], end),
    ensures
        exists|mid: Seq<(T, T)>| #[trigger] mixed_frames(start, first, mid) && mixed_frames(mid, second, end),
{
    let both = seq![first, second];
    let mid = choose|mid: Seq<(T, T)>| mix_chain(start, both.drop_last(), mid) && #[trigger] mixed_frames(mid, both.last(), end);
    assert(both.drop_last() =~= seq![first]);
    let one = seq![first];
    let before = choose|before: Seq<(T, T)>|
        mix_chain(start, one.drop_last(), before) && #[trigger] mixed_frames(before, one.last(), mid);
    assert(one.drop_last() =~= Seq::<Seq<(T, T)>>::empty());
    assert(before == start);
    assert(mixed_frames(start, first, mid));
}

/// With 32-bit samples, two sources merged into a target give, sample by
/// sample, the clipped sum of the second and the clipped sum of the first and
/// what the target held.
pub proof fn law_merge_of_two_pcm(start: Seq<(i32, i32)>, first: Seq<(i32, i32)>, second: Seq<(i32, i32)>, end: Seq<(i32, i32)>)
    requires
        mix_chain(start, seq![first, second], end),
    ensures
        end.len() == start.len(),
        forall|k: int|
            0 <= k < start.len() ==> {
                &&& (#[trigger] end[k]).0 == clip32(clip32(start[k].0 + first[k].0) + second[k].0)
                &&& end[k].1 == clip32(clip32(start[k].1 + first[k].1) + second[k].1)
            },
{
    law_merge_of_two(start, first, second, end);
    let mid = choose|mid: Seq<(i32, i32)>| #[trigger] mixed_frames(start, first, mid) && mixed_frames(mid, second, end);
    assert forall|k: int| 0 <= k < start.len() implies {
        &&& (#[trigger] end[k]).0 == clip32(clip32(start[k].0 + first[k].0) + second[k].0)
        &&& end[k].1 == clip32(clip32(start[k].1 + first[k].1) + second[k].1)
    } by {
        assert(mixes_to(start[k].0, first[k].0, mid[k].0));
        assert(mixes_to(mid[k].0, second[k].0, end[k].0));
        assert(mixes_to(start[k].1, first[k].1, mid[k].1));
        assert(mixes_to(mid[k].1, second[k].1, end[k].1));
    }
}

/// The next `frames` frames of each of the rings that `ids` names, in that order.
pub open spec fn windows_of<T: Copy>(rings: Seq<AudioBuffer<T>>, ids: Seq<usize>, frames: nat) -> Seq<Seq<(T, T)>> {
    Seq::new(ids.len(), |i: int| rings[ids[i] as int].window(frames))
}

/// Writes silence to the next `frames` frames of one ring.
pub fn silence_ring<T: Sample>(ring: &mut AudioBuffer<T>, frames: usize)
    requires
        old(ring).wf(),
        frames <= old(ring).capacity(),
    ensures
        final(ring).wf(),
        final(ring).capacity() == old(ring).capacity(),
        final(ring).position() == old(ring).position(),
        all_silent(final(ring).window(frames as nat)),
        kept_outside(*old(ring), *final(ring), frames as nat),
{
    let mut view = ring.next_n_frames_mut(frames);
    view.clear();
}

/// Overwrites the next `frames` frames of one ring with `source`.
pub fn load_ring<T: Copy>(ring: &mut AudioBuffer<T>, frames: usize, source: &AudioBufferRef<'_, T>)
    requires
        old(ring).wf(),
        frames <= old(ring).capacity(),
        source@.len() == frames,
    ensures
        final(ring).wf(),
        final(ring).capacity() == old(ring).capacity(),
        final(ring).position() == old(ring).position(),
        final(ring).window(frames as nat) == source@,
        kept_outside(*old(ring), *final(ring), frames as nat),
{
    let mut view = ring.next_n_frames_mut(frames);
    view.copy_from(source);
    assert(view@ =~= source@);
}

/// Mixes `source` into the next `frames` frames of one ring.
pub fn mix_into_ring<T: Sample>(ring: &mut AudioBuffer<T>, frames: usize, source: &AudioBufferRef<'_, T>)
    requires
        old(ring).wf(),
        frames <= old(ring).capacity(),
        source@.len() == frames,
    ensures
        final(ring).wf(),
        final(ring).capacity() == old(ring).capacity(),
        final(ring).position() == old(ring).position(),
        mixed_frames(old(ring).window(frames as nat), source@, final(ring).window(frames as nat)),
        kept_outside(*old(ring), *final(ring), frames as nat),
{
    let mut view = ring.next_n_frames_mut(frames);
    view.mix_from(source);
}

/// Index `j` is one of the first `upto` entries of `ids`.
pub open spec fn named_before(ids: Seq<usize>, upto: int, j: int) -> bool {
    exists|k: int| 0 <= k < upto && k < ids.len() && #[trigger] ids[k] == j
}

/// Index `j` is one of `ids`.
pub open spec fn named(ids: Seq<usize>, j: int) -> bool {
    named_before(ids, ids.len() as int, j)
}

/// The rings after the next `frames` frames of each target ring were
/// cleared: those windows are silent, and nothing else changed.
pub open spec fn zeroed<T: Sample>(before: Seq<AudioBuffer<T>>, after: Seq<AudioBuffer<T>>, targets: Seq<usize>, frames: nat) -> bool {
    &&& same_rings(before, after)
    &&& forall|j: int|
        0 <= j < before.len() ==> if named(targets, j) {
            &&& all_silent((#[trigger] after[j]).window(frames))
            &&& kept_outside(before[j], after[j], frames)
        } else {
            after[j] == before[j]
        }
}

/// The rings after `input` was copied into the next `frames` frames of each
/// target ring: those windows hold `input`, and nothing else changed.
pub open spec fn loaded<T: Copy>(
    before: Seq<AudioBuffer<T>>,
    after: Seq<AudioBuffer<T>>,
    targets: Seq<usize>,
    frames: nat,
    input: Seq<(T, T)>,
) -> bool {
    &&& same_rings(before, after)
    &&& forall|j: int|
        0 <= j < before.len() ==> if named(targets, j) {
            &&& (#[trigger] after[j]).window(frames) == input
            &&& kept_outside(before[j], after[j], frames)
        } else {
            after[j] == before[j]
        }
}

/// The rings after the next `frames` frames of ring `source` were copied
/// into those of each target ring: every target's window is the source's,
/// and nothing else changed.
pub open spec fn cloned_rings<T: Copy>(
    before: Seq<AudioBuffer<T>>,
    after: Seq<AudioBuffer<T>>,
    source: int,
    targets: Seq<usize>,
    frames: nat,
) -> bool {
    &&& same_rings(before, after)
    &&& forall|j: int|
        0 <= j < before.len() ==> if named(targets, j) {
            &&& (#[trigger] after[j]).window(frames) == before[source].window(frames)
            &&& kept_outside(before[j], after[j], frames)
        } else {
            after[j] == before[j]
        }
}

/// The rings after the next `frames` frames of each source ring, in order,
/// were mixed into those of ring `target`, and nothing else changed.
pub open spec fn merged_ring<T: Sample>(
    before: Seq<AudioBuffer<T>>,
    after: Seq<AudioBuffer<T>>,
    target: int,
    sources: Seq<usize>,
    frames: nat,
) -> bool {
    &&& same_rings(before, after)
    &&& mix_chain(before[target].window(frames), windows_of(before, sources, frames), after[target].window(frames))
    &&& kept_outside(before[target], after[target], frames)
    &&& forall|j: int| 0 <= j < before.len() && j != target ==> #[trigger] after[j] == before[j]
}

/// Clears the next `frames` frames of each target ring.
pub fn audio_zeros<T: Sample>(rings: &mut Vec<AudioBuffer<T>>, targets: &Vec<usize>, frames: usize)
    requires
        rings_ready(old(rings)@, frames as nat),
        all_below(targets@, old(rings)@.len() as int),
    ensures
        zeroed(old(rings)@, final(rings)@, targets@, frames as nat),
{
    let mut i: usize = 0;
    while i < targets.len()
        invariant
            i <= targets.len(),
            all_below(targets@, old(rings)@.len() as int),
            same_rings(old(rings)@, rings@),
            rings_ready(rings@, frames as nat),
            forall|j: int|
                0 <= j < old(rings)@.len() ==> if named_before(targets@, i as int, j) {
                    &&& all_silent((#[trigger] rings@[j]).window(frames as nat))
                    &&& kept_outside(old(rings)@[j], rings@[j], frames as nat)
                } else {
                    rings@[j] == old(rings)@[j]
                },
        decreases targets.len() - i,
    {
        let t = targets[i];
        let ghost before = rings@;
        silence_ring(&mut rings[t], frames);
        proof {
            assert forall|j: int| 0 <= j < old(rings)@.len() implies if named_before(targets@, i + 1, j) {
                &&& all_silent((#[trigger] rings@[j]).window(frames as nat))
                &&& kept_outside(old(rings)@[j], rings@[j], frames as nat)
            } else {
                rings@[j] == old(rings)@[j]
            } by {
                if j == t {
                    assert(targets@[i as int] == j);
                } else {
                    assert(rings@[j] == before[j]);
                    if named_before(targets@, i + 1, j) {
                        let k = choose|k: int| 0 <= k < i + 1 && k < targets@.len() && #[trigger] targets@[k] == j;
                        assert(k < i);
                        assert(named_before(targets@, i as int, j));
                    } else {
                        assert(!named_before(targets@, i as int, j));
                    }
                }
            }
        }
        i = i + 1;
    }
}

/// Copies the graph's audio input into the next `frames` frames of each target ring.
pub fn audio_from_input<T: Copy>(
    rings: &mut Vec<AudioBuffer<T>>,
    targets: &Vec<usize>,
    frames: usize,
    input: &AudioBufferRef<'_, T>,
)
    requires
        rings_ready(old(rings)@, frames as nat),
        all_below(targets@, old(rings)@.len() as int),
        input@.len() == frames,
    ensures
        loaded(old(rings)@, final(rings)@, targets@, frames as nat, input@),
{
    let mut i: usize = 0;
    while i < targets.len()
        invariant
            i <= targets.len(),
            input@.len() == frames,
            all_below(targets@, old(rings)@.len() as int),
            same_rings(old(rings)@, rings@),
            rings_ready(rings@, frames as nat),
            forall|j: int|
                0 <= j < old(rings)@.len() ==> if named_before(targets@, i as int, j) {
                    &&& (#[trigger] rings@[j]).window(frames as nat) == input@
                    &&& kept_outside(old(rings)@[j], rings@[j], frames as nat)
                } else {
                    rings@[j] == old(rings)@[j]
                },
        decreases targets.len() - i,
    {
        let t = targets[i];
        let ghost before = rings@;
        load_ring(&mut rings[t], frames, input);
        proof {
            assert forall|j: int| 0 <= j < old(rings)@.len() implies if named_before(targets@, i + 1, j) {
                &&& (#[trigger] rings@[j]).window(frames as nat) == input@
                &&& kept_outside(old(rings)@[j], rings@[j], frames as nat)
            } else {
                rings@[j] == old(rings)@[j]
            } by {
                if j == t {
                    assert(targets@[i as int] == j);
                } else {
                    assert(rings@[j] == before[j]);
                    if named_before(targets@, i + 1, j) {
                        let k = choose|k: int| 0 <= k < i + 1 && k < targets@.len() && #[trigger] targets@[k] == j;
                        assert(k < i);
                        assert(named_before(targets@, i as int, j));
                    } else {
                        assert(!named_before(targets@, i as int, j));
                    }
                }
            }
        }
        i = i + 1;
    }
}

/// Mixes the next `frames` frames of each source ring, in order, into the
/// graph's audio output. What the output held before stays in the mix.
pub fn audio_to_output<T: Sample>(
    rings: &Vec<AudioBuffer<T>>,
    sources: &Vec<usize>,
    frames: usize,
    output: &mut AudioBufferMut<'_, T>,
)
    requires
        rings_ready(rings@, frames as nat),
        all_below(sources@, rings@.len() as int),
        old(output).wf(),
        old(output)@.len() == frames,
    ensures
        final(output).wf(),
        mix_chain(old(output)@, windows_of(rings@, sources@, frames as nat), final(output)@),
        final(output).head@.len() == old(output).head@.len(),
        final(output).tail@.len() == old(output).tail@.len(),
        final(final(output).head)@ == final(old(output).head)@,
        final(final(output).tail)@ == final(old(output).tail)@,
{
    let mut i: usize = 0;
    assert(windows_of(rings@, sources@.subrange(0, 0), frames as nat).len() == 0);
    while i < sources.len()
        invariant
            i <= sources.len(),
            rings_ready(rings@, frames as nat),
            all_below(sources@, rings@.len() as int),
            output.wf(),
            output@.len() == frames,
            mix_chain(old(output)@, windows_of(rings@, sources@.subrange(0, i as int), frames as nat), output@),
            output.head@.len() == old(output).head@.len(),
            output.tail@.len() == old(output).tail@.len(),
            final(output.head)@ == final(old(output).head)@,
            final(output.tail)@ == final(old(output).tail)@,
        decreases sources.len() - i,
    {
        let s = sources[i];
        let source = rings[s].next_n_frames_ref(frames);
        let ghost mid = output@;
        output.mix_from(&source);
        proof {
            let upto = windows_of(rings@, sources@.subrange(0, i + 1), frames as nat);
            assert(upto.drop_last() =~= windows_of(rings@, sources@.subrange(0, i as int), frames as nat));
            assert(upto.last() == source@);
            assert(mixed_frames(mid, upto.last(), output@));
        }
        i = i + 1;
    }
    assert(sources@.subrange(0, sources@.len() as int) =~= sources@);
}

/// Overwrites the next `frames` frames of each target ring with those of the source ring.
pub fn audio_clone<T: Copy>(rings: &mut Vec<AudioBuffer<T>>, source: usize, targets: &Vec<usize>, frames: usize)
    requires
        rings_ready(old(rings)@, frames as nat),
        source < old(rings)@.len(),
        all_below(targets@, old(rings)@.len() as int),
        !named(targets@, source as int),
    ensures
        cloned_rings(old(rings)@, final(rings)@, source as int, targets@, frames as nat),
{
    let mut i: usize = 0;
    while i < targets.len()
        invariant
            i <= targets.len(),
            source < old(rings)@.len(),
            all_below(targets@, old(rings)@.len() as int),
            !named(targets@, source as int),
            same_rings(old(rings)@, rings@),
            rings_ready(rings@, frames as nat),
            forall|j: int|
                0 <= j < old(rings)@.len() ==> if named_before(targets@, i as int, j) {
                    &&& (#[trigger] rings@[j]).window(frames as nat) == old(rings)@[source as int].window(
                        frames as nat,
                    )
                    &&& kept_outside(old(rings)@[j], rings@[j], frames as nat)
                } else {
                    rings@[j] == old(rings)@[j]
                },
        decreases targets.len() - i,
    {
        let t = targets[i];
        let ghost before = rings@;
        assert(t != source) by {
            if t == source {
                assert(targets@[i as int] == source);
                assert(named_before(targets@, targets@.len() as int, source as int));
            }
        }
        assert(!named_before(targets@, i as int, source as int)) by {
            if named_before(targets@, i as int, source as int) {
                assert(named_before(targets@, targets@.len() as int, source as int));
            }
        }
        let mut ring = AudioBuffer::hollow();
        core::mem::swap(&mut rings[t], &mut ring);
        let copied = rings[source].next_n_frames_ref(frames);
        load_ring(&mut ring, frames, &copied);
        core::mem::swap(&mut rings[t], &mut ring);
        proof {
            assert forall|j: int| 0 <= j < old(rings)@.len() implies if named_before(targets@, i + 1, j) {
                &&& (#[trigger] rings@[j]).window(frames as nat) == old(rings)@[source as int].window(
                    frames as nat,
                )
                &&& kept_outside(old(rings)@[j], rings@[j], frames as nat)
            } else {
                rings@[j] == old(rings)@[j]
            } by {
                if j == t {
                    assert(targets@[i as int] == j);
                } else {
                    assert(rings@[j] == before[j]);
                    if named_before(targets@, i + 1, j) {
                        let k = choose|k: int| 0 <= k < i + 1 && k < targets@.len() && #[trigger] targets@[k] == j;
                        assert(k < i);
                        assert(named_before(targets@, i as int, j));
                    } else {
                        assert(!named_before(targets@, i as int, j));
                    }
                }
            }
        }
        i = i + 1;
    }
}

/// Mixes the next `frames` frames of each source ring, in order, into those
/// of the target ring.
pub fn audio_merge<T: Sample>(rings: &mut Vec<AudioBuffer<T>>, target: usize, sources: &Vec<usize>, frames: usize)
    requires
        rings_ready(old(rings)@, frames as nat),
        target < old(rings)@.len(),
        all_below(sources@, old(rings)@.len() as int),
        !named(sources@, target as int),
    ensures
        merged_ring(old(rings)@, final(rings)@, target as int, sources@, frames as nat),
{
    let mut ring = AudioBuffer::hollow();
    core::mem::swap(&mut rings[target], &mut ring);
    let ghost start = ring;
    let mut i: usize = 0;
    assert(windows_of(old(rings)@, sources@.subrange(0, 0), frames as nat).len() == 0);
    while i < sources.len()
        invariant
            i <= sources.len(),
            target < old(rings)@.len(),
            rings_ready(old(rings)@, frames as nat),
            all_below(sources@, old(rings)@.len() as int),
            !named(sources@, target as int),
            rings@.len() == old(rings)@.len(),
            forall|j: int| 0 <= j < old(rings)@.len() && j != target ==> #[trigger] rings@[j] == old(rings)@[j],
            start == old(rings)@[target as int],
            ring.wf(),
            ring.capacity() == start.capacity(),
            ring.position() == start.position(),
            kept_outside(start, ring, frames as nat),
            mix_chain(
                start.window(frames as nat),
                windows_of(old(rings)@, sources@.subrange(0, i as int), frames as nat),
                ring.window(frames as nat),
            ),
        decreases sources.len() - i,
    {
        let s = sources[i];
        assert(s != target) by {
            if s == target {
                assert(sources@[i as int] == target);
                assert(named_before(sources@, sources@.len() as int, target as int));
            }
        }
        let added = rings[s].next_n_frames_ref(frames);
        let ghost mid = ring.window(frames as nat);
        mix_into_ring(&mut ring, frames, &added);
        proof {
            let upto = windows_of(old(rings)@, sources@.subrange(0, i + 1), frames as nat);
            assert(upto.drop_last() =~= windows_of(old(rings)@, sources@.subrange(0, i as int), frames as nat));
            assert(upto.last() == added@);
            assert(mixed_frames(mid, upto.last(), ring.window(frames as nat)));
        }
        i = i + 1;
    }
    assert(sources@.subrange(0, sources@.len() as int) =~= sources@);
    core::mem::swap(&mut rings[target], &mut ring);
}

} // verus!
