use crate::buffer::audio::{frames_of, AudioBuffer, AudioBufferMut, AudioBufferRef};
use crate::buffer::message::{MessageBuffer, MessageView};
use crate::graph::audio_ops::{
    all_below, cloned_rings, kept_outside, loaded, merged_ring, mix_chain, named, named_before, rings_ready,
    same_rings, windows_of, zeroed,
};
use crate::graph::links::index_of_name;
use crate::graph::message_ops::{cloned_boxes, delivered_to, emptied, merged_box};
use crate::graph::Operation;
use crate::node::raw::{NodeType, RawNode};
use crate::player::PlayHead;
use crate::sample::Sample;
use vstd::prelude::*;

verus! {

/// The step can run on `rings` rings and `boxes` message buffers: every index
/// is in range, no step reads what it writes, and a node that is run exists
/// and is handed the outputs that its flavour takes.
pub open spec fn op_wf(op: Operation, rings: int, boxes: int, names: Seq<Seq<char>>, kinds: Seq<NodeType>) -> bool {
    match op {
        Operation::AudioZeros(targets) => all_below(targets@, rings),
        Operation::AudioFromInput(targets) => all_below(targets@, rings),
        Operation::AudioToOutput(sources) => all_below(sources@, rings),
        Operation::AudioClone(source, targets) => source < rings && all_below(targets@, rings) && !named(
            targets@,
            source as int,
        ),
        Operation::AudioMerge(target, sources) => target < rings && all_below(sources@, rings) && !named(
            sources@,
            target as int,
        ),
        Operation::MessageZeros(targets) => all_below(targets@, boxes),
        Operation::MessageFromInput(targets) => forall|k: int|
            0 <= k < targets@.len() ==> (#[trigger] targets@[k]).0 < boxes,
        Operation::MessageClone(source, targets) => source < boxes && all_below(targets@, boxes) && !named(
            targets@,
            source as int,
        ),
        Operation::MessageMerge(target, sources) => target < boxes && all_below(sources@, boxes) && !named(
            sources@,
            target as int,
        ),
        Operation::Process(name, audio_in, audio_out, message_in, message_out) => {
            &&& exists|k: int|
                0 <= k < names.len() && k < kinds.len() && #[trigger] names[k] == name@ && audio_out@.len() == (if kinds[k]
                    == NodeType::MidiEffect {
                    0nat
                } else {
                    1nat
                })
            &&& all_below(audio_in@, rings)
            &&& all_below(audio_out@, rings)
            &&& forall|i: int| 0 <= i < audio_in@.len() ==> !named(audio_out@, #[trigger] audio_in@[i] as int)
            &&& message_in < boxes
            &&& all_below(message_out@, boxes)
            &&& !named(message_out@, message_in as int)
        },
    }
}

/// What a block works on: the graph's nodes, rings and message buffers, and
/// the frames of the host's audio output.
#[verifier::reject_recursive_types(T)]
pub struct BlockState<T: Sample> {
    pub nodes: Seq<RawNode<T>>,
    pub rings: Seq<AudioBuffer<T>>,
    pub boxes: Seq<MessageBuffer<T>>,
    pub out: Seq<(T, T)>,
}

/// What holds of the rings and message buffers after a node ran, whatever the
/// node did: the rings keep their shape; only the window of a ring that the
/// node was handed to write can have changed; only the message buffers that
/// the node was handed to write can have changed.
pub open spec fn node_ran<T: Sample>(
    rings_before: Seq<AudioBuffer<T>>,
    rings_after: Seq<AudioBuffer<T>>,
    boxes_before: Seq<MessageBuffer<T>>,
    boxes_after: Seq<MessageBuffer<T>>,
    audio_out: Seq<usize>,
    message_out: Seq<usize>,
    frames: nat,
) -> bool {
    &&& same_rings(rings_before, rings_after)
    &&& forall|j: int|
        0 <= j < rings_before.len() ==> if named(audio_out, j) {
            kept_outside(rings_before[j], #[trigger] rings_after[j], frames)
        } else {
            rings_after[j] == rings_before[j]
        }
    &&& boxes_after.len() == boxes_before.len()
    &&& forall|j: int| 0 <= j < boxes_before.len() && !named(message_out, j) ==> #[trigger] boxes_after[j] == boxes_before[j]
}

/// Step `op` of a block of `frames` frames, with the host's audio input
/// `input` and messages `messages`, took the state from `before` to `after`.
/// Of a step that runs a node, this says what the run can have changed: the
/// node of that name, the window of the ring and the message buffers it was
/// handed to write.
pub open spec fn ran<T: Sample>(
    op: Operation,
    names: Seq<Seq<char>>,
    frames: nat,
    input: Seq<(T, T)>,
    messages: Seq<(usize, MessageView<T>)>,
    before: BlockState<T>,
    after: BlockState<T>,
) -> bool {
    match op {
        Operation::AudioZeros(targets) => {
            &&& after.nodes == before.nodes
            &&& zeroed(before.rings, after.rings, targets@, frames)
            &&& after.boxes == before.boxes
            &&& after.out == before.out
        },
        Operation::AudioFromInput(targets) => {
            &&& after.nodes == before.nodes
            &&& loaded(before.rings, after.rings, targets@, frames, input)
            &&& after.boxes == before.boxes
            &&& after.out == before.out
        },
        Operation::AudioToOutput(sources) => {
            &&& after.nodes == before.nodes
            &&& after.rings == before.rings
            &&& after.boxes == before.boxes
            &&& mix_chain(before.out, windows_of(before.rings, sources@, frames), after.out)
        },
        Operation::AudioClone(source, targets) => {
            &&& after.nodes == before.nodes
            &&& cloned_rings(before.rings, after.rings, source as int, targets@, frames)
            &&& after.boxes == before.boxes
            &&& after.out == before.out
        },
        Operation::AudioMerge(target, sources) => {
            &&& after.nodes == before.nodes
            &&& merged_ring(before.rings, after.rings, target as int, sources@, frames)
            &&& after.boxes == before.boxes
            &&& after.out == before.out
        },
        Operation::MessageZeros(targets) => {
            &&& after.nodes == before.nodes
            &&& after.rings == before.rings
            &&& emptied(before.boxes, after.boxes, targets@, frames)
            &&& after.out == before.out
        },
        Operation::MessageFromInput(targets) => {
            &&& after.nodes == before.nodes
            &&& after.rings == before.rings
            &&& delivered_to(before.boxes, after.boxes, targets@, frames, messages)
            &&& after.out == before.out
        },
        Operation::MessageClone(source, targets) => {
            &&& after.nodes == before.nodes
            &&& after.rings == before.rings
            &&& cloned_boxes(before.boxes, after.boxes, source as int, targets@)
            &&& after.out == before.out
        },
        Operation::MessageMerge(target, sources) => {
            &&& after.nodes == before.nodes
            &&& after.rings == before.rings
            &&& merged_box(before.boxes, after.boxes, target as int, sources@)
            &&& after.out == before.out
        },
        Operation::Process(name, _, audio_out, _, message_out) => {
            &&& node_ran(before.rings, after.rings, before.boxes, after.boxes, audio_out@, message_out@, frames)
            &&& after.out == before.out
            &&& after.nodes.len() == before.nodes.len()
            &&& forall|j: int|
                0 <= j < before.nodes.len() ==> (#[trigger] after.nodes[j]).kind() == before.nodes[j].kind() && (j
                    != index_of_name(names, name@) ==> after.nodes[j] == before.nodes[j])
        },
    }
}

/// `trace` lists the states of a block from `start` on, one after each step.
pub open spec fn block_trace<T: Sample>(
    ops: Seq<Operation>,
    names: Seq<Seq<char>>,
    frames: nat,
    input: Seq<(T, T)>,
    messages: Seq<(usize, MessageView<T>)>,
    start: BlockState<T>,
    trace: Seq<BlockState<T>>,
) -> bool {
    &&& trace.len() == ops.len() + 1
    &&& trace[0] == start
    &&& forall|k: int|
        0 <= k < ops.len() ==> ran(ops[k], names, frames, input, messages, #[trigger] trace[k], trace[k + 1])
}

/// Every ring holds what it held, with its cursor `frames` frames on.
pub open spec fn moved_on<T: Copy>(before: Seq<AudioBuffer<T>>, after: Seq<AudioBuffer<T>>, frames: nat) -> bool {
    &&& after.len() == before.len()
    &&& forall|i: int|
        0 <= i < before.len() ==> {
            &&& (#[trigger] after[i]).samples() == before[i].samples()
            &&& after[i].position() as int == ((before[i].position() + frames) as int) % (before[i].capacity() as int)
        }
}

/// Entry `j` of `ids` is the first that names its index.
pub open spec fn first_naming(ids: Seq<usize>, j: int) -> bool {
    forall|e: int| 0 <= e < j ==> (#[trigger] ids[e]) != ids[j]
}

/// Runs one node on one block with views of the rings and buffers that its
/// step names. The output ring and the output buffers are lent to the node
/// for the call; everything else is only read.
///
/// The node is handed, as audio inputs, the next `frames` frames of each ring
/// of `audio_in`; as audio output, the next `frames` frames of the ring of
/// `audio_out`, which afterwards holds what the node left in the view; as
/// message input, the buffer `message_in`; and as message outputs the buffers
/// of `message_out`, which afterwards are what the node left them.
pub fn run_node<T: Sample>(
    node: &mut RawNode<T>,
    playhead: &PlayHead<T>,
    frames: usize,
    rings: &mut Vec<AudioBuffer<T>>,
    audio_in: &Vec<usize>,
    audio_out: &Vec<usize>,
    boxes: &mut Vec<MessageBuffer<T>>,
    message_in: usize,
    message_out: &Vec<usize>,
)
    requires
        rings_ready(old(rings)@, frames as nat),
        all_below(audio_in@, old(rings)@.len() as int),
        all_below(audio_out@, old(rings)@.len() as int),
        audio_out@.len() == (if old(node).kind() == NodeType::MidiEffect {
            0nat
        } else {
            1nat
        }),
        forall|i: int| 0 <= i < audio_in@.len() ==> !named(audio_out@, #[trigger] audio_in@[i] as int),
        message_in < old(boxes)@.len(),
        all_below(message_out@, old(boxes)@.len() as int),
        !named(message_out@, message_in as int),
    ensures
        final(node).kind() == old(node).kind(),
        node_ran(old(rings)@, final(rings)@, old(boxes)@, final(boxes)@, audio_out@, message_out@, frames as nat),
        old(node).kind() == NodeType::MidiEffect ==> final(rings)@ == old(rings)@,
        exists|m: &mut RawNode<T>, ins: Vec<AudioBufferRef<'_, T>>, outs: Vec<AudioBufferMut<'_, T>>, ports: &mut [MessageBuffer<T>]|
            {
                &&& *m == *old(node)
                &&& *final(m) == *final(node)
                &&& ins@.len() == audio_in@.len()
                &&& forall|i: int|
                    0 <= i < audio_in@.len() ==> (#[trigger] ins@[i])@ == old(rings)@[audio_in@[i] as int].window(
                        frames as nat,
                    )
                &&& outs@.len() == audio_out@.len()
                &&& forall|i: int|
                    0 <= i < audio_out@.len() ==> {
                        &&& (#[trigger] outs@[i])@ == old(rings)@[audio_out@[i] as int].window(frames as nat)
                        &&& final(rings)@[audio_out@[i] as int].window(frames as nat) == frames_of(
                            final(outs@[i].head)@ + final(outs@[i].tail)@,
                        )
                    }
                &&& ports@.len() == message_out@.len()
                &&& final(ports)@.len() == message_out@.len()
                &&& forall|j: int|
                    0 <= j < message_out@.len() && first_naming(message_out@, j) ==> {
                        &&& (#[trigger] ports@[j]) == old(boxes)@[message_out@[j] as int]
                        &&& final(ports)@[j] == final(boxes)@[message_out@[j] as int]
                    }
                &&& #[trigger] call_ensures(
                    RawNode::<T>::process,
                    (m, playhead, frames, ins, outs, &old(boxes)@[message_in as int], ports),
                    (),
                )
            },
{
    let mut ports: Vec<MessageBuffer<T>> = Vec::new();
    let mut p: usize = 0;
    while p < message_out.len()
        invariant
            p <= message_out.len(),
            ports@.len() == p,
            all_below(message_out@, old(boxes)@.len() as int),
            boxes@.len() == old(boxes)@.len(),
            forall|j: int|
                0 <= j < old(boxes)@.len() && !named_before(message_out@, p as int, j) ==> #[trigger] boxes@[j] == old(boxes)@[j],
            forall|j: int|
                0 <= j < p && first_naming(message_out@, j) ==> #[trigger] ports@[j] == old(boxes)@[message_out@[j] as int],
        decreases message_out.len() - p,
    {
        let id = message_out[p];
        let ghost boxes_before = boxes@;
        let ghost ports_before = ports@;
        let mut taken = MessageBuffer::new();
        core::mem::swap(&mut boxes[id], &mut taken);
        ports.push(taken);
        proof {
            assert forall|j: int| 0 <= j < old(boxes)@.len() && !named_before(message_out@, p + 1, j) implies #[trigger] boxes@[j]
                == old(boxes)@[j] by {
                if j == id {
                    assert(message_out@[p as int] == j);
                } else {
                    assert(boxes@[j] == boxes_before[j]);
                    if named_before(message_out@, p as int, j) {
                        let k = choose|k: int| 0 <= k < p && k < message_out@.len() && #[trigger] message_out@[k] == j;
                        assert(message_out@[k] == j);
                    }
                }
            }
            assert forall|j: int| 0 <= j < p + 1 && first_naming(message_out@, j) implies #[trigger] ports@[j]
                == old(boxes)@[message_out@[j] as int] by {
                if j < p {
                    assert(ports@[j] == ports_before[j]);
                } else {
                    if named_before(message_out@, p as int, id as int) {
                        let k = choose|k: int| 0 <= k < p && k < message_out@.len() && #[trigger] message_out@[k] == id;
                        assert(message_out@[k] != message_out@[j]);
                    }
                    assert(boxes_before[id as int] == old(boxes)@[id as int]);
                }
            }
        }
        p = p + 1;
    }
    assert forall|j: int| 0 <= j < old(boxes)@.len() && !named(message_out@, j) implies #[trigger] boxes@[j]
        == old(boxes)@[j] by {
        assert(!named_before(message_out@, message_out@.len() as int, j));
    }
    let ghost ports_lent = ports@;
    let mut lent = AudioBuffer::hollow();
    if audio_out.len() == 1 {
        core::mem::swap(&mut rings[audio_out[0]], &mut lent);
        assert(named_before(audio_out@, audio_out@.len() as int, audio_out@[0] as int));
    }
    let ghost lent_before = lent;
    let ghost rings_lent = rings@;
    assert(audio_out@.len() == 1 ==> lent_before == old(rings)@[audio_out@[0] as int]);
    let mut ins: Vec<AudioBufferRef<'_, T>> = Vec::new();
    let mut i: usize = 0;
    while i < audio_in.len()
        invariant
            i <= audio_in.len(),
            ins@.len() == i,
            rings@ == rings_lent,
            rings@.len() == old(rings)@.len(),
            rings_ready(old(rings)@, frames as nat),
            all_below(audio_in@, old(rings)@.len() as int),
            forall|k: int| 0 <= k < audio_in@.len() ==> !named(audio_out@, #[trigger] audio_in@[k] as int),
            forall|j: int| 0 <= j < old(rings)@.len() && !named(audio_out@, j) ==> #[trigger] rings@[j] == old(rings)@[j],
            forall|k: int| 0 <= k < ins@.len() ==> (#[trigger] ins@[k])@.len() == frames,
            forall|k: int|
                0 <= k < ins@.len() ==> (#[trigger] ins@[k])@ == old(rings)@[audio_in@[k] as int].window(frames as nat),
        decreases audio_in.len() - i,
    {
        let id = audio_in[i];
        assert(!named(audio_out@, audio_in@[i as int] as int));
        assert(rings@[id as int] == old(rings)@[id as int]);
        let view = rings[id].next_n_frames_ref(frames);
        ins.push(view);
        i = i + 1;
    }
    let mut outs: Vec<AudioBufferMut<'_, T>> = Vec::new();
    if audio_out.len() == 1 {
        let view = lent.next_n_frames_mut(frames);
        outs.push(view);
    }
    proof {
        if audio_out.len() == 1 {
            assert(outs@[0].wf());
            assert(outs@[0]@.len() == frames);
        }
    }
    assert(boxes@[message_in as int] == old(boxes)@[message_in as int]);
    node.process(playhead, frames, ins, outs, &boxes[message_in], ports.as_mut_slice());
    let ghost ports_after = ports@;
    if audio_out.len() == 1 {
        assert(lent.wf());
        assert(lent.capacity() == lent_before.capacity());
        assert(lent.position() == lent_before.position());
        assert(kept_outside(lent_before, lent, frames as nat));
        core::mem::swap(&mut rings[audio_out[0]], &mut lent);
    }
    proof {
        assert forall|j: int| 0 <= j < old(rings)@.len() implies {
            &&& (#[trigger] rings@[j]).wf()
            &&& rings@[j].capacity() == old(rings)@[j].capacity()
            &&& rings@[j].position() == old(rings)@[j].position()
            &&& if named(audio_out@, j) {
                kept_outside(old(rings)@[j], rings@[j], frames as nat)
            } else {
                rings@[j] == old(rings)@[j]
            }
        } by {
            if audio_out.len() == 1 && j == audio_out@[0] {
                assert(named_before(audio_out@, audio_out@.len() as int, j));
            } else {
                if named(audio_out@, j) {
                    let k = choose|k: int| 0 <= k < audio_out@.len() && k < audio_out@.len() && #[trigger] audio_out@[k] == j;
                    assert(false);
                }
                assert(rings@[j] == old(rings)@[j]);
            }
        }
    }
    let mut q: usize = message_out.len();
    while q > 0
        invariant
            q <= message_out.len(),
            ports@.len() == q,
            ports_after.len() == message_out@.len(),
            ports@ == ports_after.take(q as int),
            all_below(message_out@, old(boxes)@.len() as int),
            boxes@.len() == old(boxes)@.len(),
            forall|j: int|
                0 <= j < old(boxes)@.len() && !named(message_out@, j) ==> #[trigger] boxes@[j] == old(boxes)@[j],
            forall|j: int|
                q <= j < message_out@.len() && (forall|e: int| q <= e < j ==> (#[trigger] message_out@[e]) != message_out@[j])
                    ==> boxes@[message_out@[j] as int] == #[trigger] ports_after[j],
        decreases q,
    {
        let ghost q_before = q as int;
        let ghost boxes_before = boxes@;
        q = q - 1;
        let id = message_out[q];
        assert(named_before(message_out@, message_out@.len() as int, id as int)) by {
            assert(message_out@[q as int] == id);
        }
        match ports.pop() {
            Some(port) => {
                let mut back = port;
                core::mem::swap(&mut boxes[id], &mut back);
            },
            None => {},
        }
        proof {
            assert(ports@ =~= ports_after.take(q as int));
            assert(boxes@[id as int] == ports_after[q as int]);
            assert forall|j: int|
                q <= j < message_out@.len() && (forall|e: int|
                    q <= e < j ==> (#[trigger] message_out@[e]) != message_out@[j]) implies boxes@[message_out@[j] as int]
                == #[trigger] ports_after[j] by {
                if j > q {
                    assert(message_out@[q as int] != message_out@[j]);
                    assert(boxes@[message_out@[j] as int] == boxes_before[message_out@[j] as int]);
                    assert forall|e: int| q_before <= e < j implies (#[trigger] message_out@[e]) != message_out@[j] by {
                    }
                }
            }
        }
    }
    proof {
        assert forall|j: int| 0 <= j < message_out@.len() && first_naming(message_out@, j) implies boxes@[message_out@[j] as int]
            == #[trigger] ports_after[j] by {
            assert forall|e: int| 0 <= e < j implies (#[trigger] message_out@[e]) != message_out@[j] by {
            }
        }
    }
}

} // verus!
