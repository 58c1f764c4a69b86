use crate::buffer::audio::AudioBuffer;
use crate::buffer::message::MessageBuffer;
use crate::error::LinkError;
use crate::graph::audio_ops::{all_below, named};
use crate::graph::links::{
    check_links, deps_upto, none_reserved, resolved_audio, resolved_message, wire_fault, Shape, Source, Target, Wiring,
};
use crate::graph::schedule::{is_order, lowest_first, respects};
use crate::sample::is_silence;
use crate::graph::run::op_wf;
use crate::graph::{distinct_names, name_views, Link, Operation, MAX_BLOCK_FRAMES};
use crate::node::raw::NodeType;
use crate::sample::Sample;
use vstd::prelude::*;

verus! {

/// The flavour of each shape.
pub open spec fn shape_kinds(shapes: Seq<Shape>) -> Seq<NodeType> {
    Seq::new(shapes.len(), |i: int| shapes[i].kind)
}

/// What a step is to a contract: its kind, with the indices and names it holds.
pub enum OpView {
    AudioZeros(Seq<usize>),
    AudioFromInput(Seq<usize>),
    AudioToOutput(Seq<usize>),
    AudioClone(usize, Seq<usize>),
    AudioMerge(usize, Seq<usize>),
    MessageZeros(Seq<usize>),
    MessageFromInput(Seq<(usize, Seq<char>)>),
    MessageClone(usize, Seq<usize>),
    MessageMerge(usize, Seq<usize>),
    Process(Seq<char>, Seq<usize>, Seq<usize>, usize, Seq<usize>),
}

/// Each buffer with the text of the name it is listed with.
pub open spec fn listed_names(targets: Seq<(usize, String)>) -> Seq<(usize, Seq<char>)> {
    Seq::new(targets.len(), |i: int| (targets[i].0, targets[i].1@))
}

impl View for Operation {
    type V = OpView;

    open spec fn view(&self) -> OpView {
        match *self {
            Operation::AudioZeros(t) => OpView::AudioZeros(t@),
            Operation::AudioFromInput(t) => OpView::AudioFromInput(t@),
            Operation::AudioToOutput(s) => OpView::AudioToOutput(s@),
            Operation::AudioClone(s, t) => OpView::AudioClone(s, t@),
            Operation::AudioMerge(t, s) => OpView::AudioMerge(t, s@),
            Operation::MessageZeros(t) => OpView::MessageZeros(t@),
            Operation::MessageFromInput(t) => OpView::MessageFromInput(listed_names(t@)),
            Operation::MessageClone(s, t) => OpView::MessageClone(s, t@),
            Operation::MessageMerge(t, s) => OpView::MessageMerge(t, s@),
            Operation::Process(n, ai, ao, mi, mo) => OpView::Process(n@, ai@, ao@, mi, mo@),
        }
    }
}

/// The views of the steps, in order.
pub open spec fn ops_view(ops: Seq<Operation>) -> Seq<OpView> {
    Seq::new(ops.len(), |i: int| ops[i]@)
}

/// The names of the nodes that the steps run, in the order of the steps.
pub open spec fn process_names(ops: Seq<Operation>) -> Seq<Seq<char>>
    decreases ops.len(),
{
    if ops.len() == 0 {
        Seq::empty()
    } else {
        let before = process_names(ops.drop_last());
        match ops.last() {
            Operation::Process(name, _, _, _, _) => before.push(name@),
            _ => before,
        }
    }
}

/// Every step can run on `rings` rings and `boxes` message buffers.
pub open spec fn all_ops_wf(ops: Seq<Operation>, rings: int, boxes: int, names: Seq<Seq<char>>, kinds: Seq<NodeType>) -> bool {
    forall|i: int| 0 <= i < ops.len() ==> op_wf(#[trigger] ops[i], rings, boxes, names, kinds)
}

/// How many of the first `upto` nodes give audio: all but control-message effects.
pub open spec fn count_givers(shapes: Seq<Shape>, upto: int) -> nat
    decreases upto,
{
    if upto <= 0 {
        0
    } else {
        count_givers(shapes, upto - 1) + if shapes[upto - 1].kind != NodeType::MidiEffect {
            1nat
        } else {
            0nat
        }
    }
}

/// How many of the first `upto` nodes are audio effects.
pub open spec fn count_effects(shapes: Seq<Shape>, upto: int) -> nat
    decreases upto,
{
    if upto <= 0 {
        0
    } else {
        count_effects(shapes, upto - 1) + if shapes[upto - 1].kind == NodeType::AudioEffect {
            1nat
        } else {
            0nat
        }
    }
}

/// How many message outputs the control-message effects among the first `upto` nodes have.
pub open spec fn count_ports(shapes: Seq<Shape>, upto: int) -> nat
    decreases upto,
{
    if upto <= 0 {
        0
    } else {
        count_ports(shapes, upto - 1) + if shapes[upto - 1].kind == NodeType::MidiEffect {
            shapes[upto - 1].message_out as nat
        } else {
            0nat
        }
    }
}

/// The ring that node `k` writes: the rings of the nodes that give audio
/// come first, in the order of the nodes.
pub open spec fn out_slot(shapes: Seq<Shape>, k: int) -> Option<usize> {
    if shapes[k].kind != NodeType::MidiEffect {
        Some(count_givers(shapes, k) as usize)
    } else {
        None
    }
}

/// The ring that holds the graph's audio input, where a link reads it: it
/// comes after the rings that nodes write.
pub open spec fn input_slot(shapes: Seq<Shape>, has_input: bool) -> Option<usize> {
    if has_input {
        Some(count_givers(shapes, shapes.len() as int) as usize)
    } else {
        None
    }
}

/// The number of rings that steps read from: those that nodes write and the
/// one of the graph's audio input.
pub open spec fn split_of(shapes: Seq<Shape>, has_input: bool) -> nat {
    count_givers(shapes, shapes.len() as int) + if has_input {
        1nat
    } else {
        0nat
    }
}

/// The input ring of node `k`, where it is an audio effect: the input rings
/// come last, in the order of the nodes.
pub open spec fn in_slot(shapes: Seq<Shape>, has_input: bool, k: int) -> Option<usize> {
    if shapes[k].kind == NodeType::AudioEffect {
        Some((split_of(shapes, has_input) + count_effects(shapes, k)) as usize)
    } else {
        None
    }
}

/// The message buffers that node `k` writes: one for each output of a
/// control-message effect. They come after the nodes' own buffers, in the
/// order of the nodes.
pub open spec fn ports_of(shapes: Seq<Shape>, k: int) -> Seq<usize> {
    Seq::new(
        if shapes[k].kind == NodeType::MidiEffect {
            shapes[k].message_out as nat
        } else {
            0nat
        },
        |p: int| (shapes.len() + count_ports(shapes, k) + p) as usize,
    )
}

/// The number of rings of a compiled graph.
pub open spec fn ring_total(shapes: Seq<Shape>, has_input: bool) -> nat {
    split_of(shapes, has_input) + count_effects(shapes, shapes.len() as int)
}

/// The number of message buffers of a compiled graph.
pub open spec fn box_total(shapes: Seq<Shape>) -> nat {
    shapes.len() + count_ports(shapes, shapes.len() as int)
}

/// Which ring and which message buffers belong to which node.
pub struct Layout {
    pub out_ring: Vec<Option<usize>>,
    pub in_ring: Vec<Option<usize>>,
    pub input_ring: Option<usize>,
    pub ports: Vec<Vec<usize>>,
    pub split: usize,
}

/// The layout is the one that `shapes` call for.
pub open spec fn layout_is(layout: Layout, shapes: Seq<Shape>, has_input: bool) -> bool {
    &&& layout.out_ring@.len() == shapes.len()
    &&& layout.in_ring@.len() == shapes.len()
    &&& layout.ports@.len() == shapes.len()
    &&& layout.split == split_of(shapes, has_input)
    &&& layout.input_ring == input_slot(shapes, has_input)
    &&& forall|k: int| 0 <= k < shapes.len() ==> #[trigger] layout.out_ring@[k] == out_slot(shapes, k)
    &&& forall|k: int| 0 <= k < shapes.len() ==> #[trigger] layout.in_ring@[k] == in_slot(shapes, has_input, k)
    &&& forall|k: int| 0 <= k < shapes.len() ==> (#[trigger] layout.ports@[k])@ == ports_of(shapes, k)
}

/// The layout stays inside `rings` rings and `boxes` message buffers, with
/// the rings that steps read from before `split` and the input rings of
/// effects from `split` on, so no step mixes a ring into itself; every
/// node's own message buffer has the node's index, and the output buffers of
/// control-message effects come after them.
pub open spec fn layout_wf(layout: Layout, shapes: Seq<Shape>, rings: int, boxes: int) -> bool {
    &&& layout.out_ring@.len() == shapes.len()
    &&& layout.in_ring@.len() == shapes.len()
    &&& layout.ports@.len() == shapes.len()
    &&& layout.split <= rings
    &&& shapes.len() <= boxes
    &&& layout.input_ring matches Some(id) ==> id < layout.split
    &&& forall|k: int|
        0 <= k < shapes.len() ==> {
            &&& (#[trigger] layout.out_ring@[k]) matches Some(id) ==> id < layout.split
            &&& shapes[k].kind != NodeType::MidiEffect ==> layout.out_ring@[k] is Some
        }
    &&& forall|k: int|
        0 <= k < shapes.len() ==> {
            &&& (#[trigger] layout.in_ring@[k]) matches Some(id) ==> layout.split <= id < rings
            &&& shapes[k].kind == NodeType::AudioEffect ==> layout.in_ring@[k] is Some
        }
    &&& forall|k: int, p: int|
        0 <= k < shapes.len() && 0 <= p < layout.ports@[k]@.len() ==> shapes.len() <= (#[trigger] layout.ports@[k]@[p])
            < boxes
}

/// Some audio link starts at the graph's audio input.
pub open spec fn reads_input(audio: Seq<(Source, Target)>) -> bool {
    exists|i: int| 0 <= i < audio.len() && (#[trigger] audio[i]).0 is Input
}

/// Whether some audio link starts at the graph's audio input.
fn any_from_input(audio: &Vec<(Source, Target)>) -> (b: bool)
    ensures
        b == reads_input(audio@),
{
    let mut i: usize = 0;
    while i < audio.len()
        invariant
            i <= audio@.len(),
            forall|k: int| 0 <= k < i ==> !((#[trigger] audio@[k]).0 is Input),
        decreases audio.len() - i,
    {
        match audio[i].0 {
            Source::Input => {
                return true;
            },
            Source::Node(_) => {},
        }
        i = i + 1;
    }
    false
}

/// Makes the rings and message buffers of a graph: one ring for each node
/// that gives audio, one for the graph's audio input where a link reads it,
/// one input ring for each audio effect; one message buffer for each node,
/// and one for each output of each control-message effect.
fn allocate<T: Sample>(
    shapes: &Vec<Shape>,
    audio: &Vec<(Source, Target)>,
    rings: &mut Vec<AudioBuffer<T>>,
    boxes: &mut Vec<MessageBuffer<T>>,
) -> (layout: Layout)
    requires
        old(rings)@.len() == 0,
        old(boxes)@.len() == 0,
    ensures
        layout_is(layout, shapes@, reads_input(audio@)),
        layout_wf(layout, shapes@, final(rings)@.len() as int, final(boxes)@.len() as int),
        final(rings)@.len() == ring_total(shapes@, reads_input(audio@)),
        final(boxes)@.len() == box_total(shapes@),
        forall|i: int| 0 <= i < final(rings)@.len() ==> fresh_ring(#[trigger] final(rings)@[i]),
        forall|i: int| 0 <= i < final(boxes)@.len() ==> fresh_box(#[trigger] final(boxes)@[i]),
{
    let n = shapes.len();
    let mut out_ring: Vec<Option<usize>> = Vec::new();
    let mut k: usize = 0;
    while k < n
        invariant
            k <= n,
            n == shapes@.len(),
            out_ring@.len() == k,
            rings@.len() == count_givers(shapes@, k as int),
            forall|j: int| 0 <= j < k ==> #[trigger] out_ring@[j] == out_slot(shapes@, j),
            forall|j: int| 0 <= j < k ==> ((#[trigger] out_ring@[j]) matches Some(id) ==> id < rings@.len()),
            forall|i: int| 0 <= i < rings@.len() ==> fresh_ring(#[trigger] rings@[i]),
        decreases n - k,
    {
        match shapes[k].kind {
            NodeType::MidiEffect => {
                out_ring.push(None);
            },
            _ => {
                let id = rings.len();
                rings.push(AudioBuffer::new(MAX_BLOCK_FRAMES));
                out_ring.push(Some(id));
            },
        }
        k = k + 1;
    }
    let has_input = any_from_input(audio);
    let input_ring = if has_input {
        let id = rings.len();
        rings.push(AudioBuffer::new(MAX_BLOCK_FRAMES));
        Some(id)
    } else {
        None
    };
    let split = rings.len();
    let mut in_ring: Vec<Option<usize>> = Vec::new();
    let mut k: usize = 0;
    while k < n
        invariant
            k <= n,
            n == shapes@.len(),
            in_ring@.len() == k,
            split == split_of(shapes@, has_input),
            rings@.len() == split + count_effects(shapes@, k as int),
            forall|j: int| 0 <= j < k ==> #[trigger] in_ring@[j] == in_slot(shapes@, has_input, j),
            forall|j: int| 0 <= j < k ==> ((#[trigger] in_ring@[j]) matches Some(id) ==> split <= id < rings@.len()),
            forall|i: int| 0 <= i < rings@.len() ==> fresh_ring(#[trigger] rings@[i]),
        decreases n - k,
    {
        match shapes[k].kind {
            NodeType::AudioEffect => {
                let id = rings.len();
                rings.push(AudioBuffer::new(MAX_BLOCK_FRAMES));
                in_ring.push(Some(id));
            },
            _ => {
                in_ring.push(None);
            },
        }
        k = k + 1;
    }
    let mut k: usize = 0;
    while k < n
        invariant
            k <= n,
            boxes@.len() == k,
            forall|i: int| 0 <= i < boxes@.len() ==> fresh_box(#[trigger] boxes@[i]),
        decreases n - k,
    {
        boxes.push(MessageBuffer::new());
        k = k + 1;
    }
    let mut ports: Vec<Vec<usize>> = Vec::new();
    let mut k: usize = 0;
    while k < n
        invariant
            k <= n,
            n == shapes@.len(),
            boxes@.len() == n + count_ports(shapes@, k as int),
            forall|i: int| 0 <= i < boxes@.len() ==> fresh_box(#[trigger] boxes@[i]),
            ports@.len() == k,
            forall|j: int| 0 <= j < k ==> (#[trigger] ports@[j])@ == ports_of(shapes@, j),
            forall|j: int, p: int| 0 <= j < k && 0 <= p < ports@[j]@.len() ==> n <= (#[trigger] ports@[j]@[p]) < boxes@.len(),
        decreases n - k,
    {
        let mut mine: Vec<usize> = Vec::new();
        match shapes[k].kind {
            NodeType::MidiEffect => {
                let want = shapes[k].message_out;
                let mut p: usize = 0;
                while p < want
                    invariant
                        p <= want,
                        k < n,
                        n == shapes@.len(),
                        mine@.len() == p,
                        boxes@.len() == n + count_ports(shapes@, k as int) + p,
                        forall|i: int| 0 <= i < boxes@.len() ==> fresh_box(#[trigger] boxes@[i]),
                        forall|q: int| 0 <= q < p ==> (#[trigger] mine@[q]) == (n + count_ports(shapes@, k as int) + q) as usize,
                        forall|q: int| 0 <= q < p ==> n <= (#[trigger] mine@[q]) < boxes@.len(),
                        forall|j: int, q: int|
                            0 <= j < k && 0 <= q < ports@[j]@.len() ==> n <= (#[trigger] ports@[j]@[q]) < boxes@.len(),
                    decreases want - p,
                {
                    let id = boxes.len();
                    boxes.push(MessageBuffer::new());
                    mine.push(id);
                    p = p + 1;
                }
            },
            _ => {},
        }
        assert(mine@ =~= ports_of(shapes@, k as int));
        let ghost before = ports@;
        ports.push(mine);
        assert forall|j: int, p: int| 0 <= j < k + 1 && 0 <= p < ports@[j]@.len() implies n <= (#[trigger] ports@[j]@[p])
            < boxes@.len() by {
            if j < k {
                assert(ports@[j] == before[j]);
            }
        }
        assert forall|j: int| 0 <= j < k + 1 implies (#[trigger] ports@[j])@ == ports_of(shapes@, j) by {
            if j < k {
                assert(ports@[j] == before[j]);
            }
        }
        k = k + 1;
    }
    Layout { out_ring, in_ring, input_ring, ports, split }
}

/// Adding a step adds its node to the names run, where it runs one.
pub proof fn lemma_process_names_push(ops: Seq<Operation>, op: Operation)
    ensures
        process_names(ops.push(op)) == match op {
            Operation::Process(name, _, _, _, _) => process_names(ops).push(name@),
            _ => process_names(ops),
        },
{
    assert(ops.push(op).drop_last() =~= ops);
    assert(ops.push(op).last() == op);
}

/// Appends a step that can run to steps that can run.
fn put(ops: &mut Vec<Operation>, op: Operation, rings: usize, boxes: usize, names: &Vec<String>, shapes: &Vec<Shape>)
    requires
        all_ops_wf(old(ops)@, rings as int, boxes as int, name_views(names@), shape_kinds(shapes@)),
        op_wf(op, rings as int, boxes as int, name_views(names@), shape_kinds(shapes@)),
    ensures
        final(ops)@ == old(ops)@.push(op),
        ops_view(final(ops)@) == ops_view(old(ops)@).push(op@),
        all_ops_wf(final(ops)@, rings as int, boxes as int, name_views(names@), shape_kinds(shapes@)),
        process_names(final(ops)@) == match op {
            Operation::Process(name, _, _, _, _) => process_names(old(ops)@).push(name@),
            _ => process_names(old(ops)@),
        },
{
    proof {
        lemma_process_names_push(ops@, op);
    }
    ops.push(op);
    assert(ops_view(ops@) =~= ops_view(old(ops)@).push(op@));
}

/// A copy of a list of indices.
fn copy_ids(ids: &Vec<usize>) -> (r: Vec<usize>)
    ensures
        r@ == ids@,
{
    let mut out: Vec<usize> = Vec::new();
    let mut i: usize = 0;
    while i < ids.len()
        invariant
            i <= ids@.len(),
            out@ == ids@.subrange(0, i as int),
        decreases ids.len() - i,
    {
        out.push(ids[i]);
        assert(out@ =~= ids@.subrange(0, i + 1));
        i = i + 1;
    }
    assert(ids@.subrange(0, ids@.len() as int) =~= ids@);
    out
}

/// The wiring fits nodes of these shapes.
pub open spec fn wiring_fits(audio: Seq<(Source, Target)>, message: Seq<(usize, usize)>, order: Seq<usize>, shapes: Seq<Shape>) -> bool {
    &&& is_order(order, shapes.len() as int)
    &&& forall|i: int|
        0 <= i < audio.len() ==> match (#[trigger] audio[i]).0 {
            Source::Input => true,
            Source::Node(k) => k < shapes.len() && shapes[k as int].kind != NodeType::MidiEffect,
        }
    &&& forall|i: int|
        0 <= i < audio.len() ==> match (#[trigger] audio[i]).1 {
            Target::Output => true,
            Target::Node(k) => k < shapes.len(),
        }
    &&& forall|i: int| 0 <= i < message.len() ==> (#[trigger] message[i]).0 < shapes.len() && message[i].1 < shapes.len()
}

/// The ring that an audio link reads.
pub open spec fn ring_of_source(shapes: Seq<Shape>, has_input: bool, source: Source) -> Option<usize> {
    match source {
        Source::Input => input_slot(shapes, has_input),
        Source::Node(k) => out_slot(shapes, k as int),
    }
}

/// The rings of those of the first `upto` audio links that end at `target`,
/// in the order of the links.
pub open spec fn audio_feeders_upto(shapes: Seq<Shape>, audio: Seq<(Source, Target)>, target: Target, upto: int) -> Seq<
    usize,
>
    decreases upto,
{
    if upto <= 0 {
        Seq::empty()
    } else {
        let before = audio_feeders_upto(shapes, audio, target, upto - 1);
        match ring_of_source(shapes, reads_input(audio), audio[upto - 1].0) {
            Some(id) => if audio[upto - 1].1 == target {
                before.push(id)
            } else {
                before
            },
            None => before,
        }
    }
}

/// The rings that feed `target`: one for each audio link that ends there, in
/// the order of the links.
pub open spec fn audio_feeders_of(shapes: Seq<Shape>, audio: Seq<(Source, Target)>, target: Target) -> Seq<usize> {
    audio_feeders_upto(shapes, audio, target, audio.len() as int)
}

/// The output buffers of the nodes where those of the first `upto` message
/// links start that end at node `target`, in the order of the links.
pub open spec fn message_feeders_upto(shapes: Seq<Shape>, message: Seq<(usize, usize)>, target: usize, upto: int) -> Seq<
    usize,
>
    decreases upto,
{
    if upto <= 0 {
        Seq::empty()
    } else {
        let before = message_feeders_upto(shapes, message, target, upto - 1);
        if message[upto - 1].1 == target {
            before + ports_of(shapes, message[upto - 1].0 as int)
        } else {
            before
        }
    }
}

/// The message buffers that feed node `target`: every output of each node
/// that a message link from it ends at `target`, in the order of the links.
pub open spec fn message_feeders_of(shapes: Seq<Shape>, message: Seq<(usize, usize)>, target: usize) -> Seq<usize> {
    message_feeders_upto(shapes, message, target, message.len() as int)
}

/// The ring that an audio link reads, where the layout has it.
fn ring_of(layout: &Layout, source: Source) -> (r: Option<usize>)
    requires
        match source {
            Source::Input => true,
            Source::Node(k) => k < layout.out_ring@.len(),
        },
    ensures
        r == match source {
            Source::Input => layout.input_ring,
            Source::Node(k) => layout.out_ring@[k as int],
        },
{
    match source {
        Source::Input => layout.input_ring,
        Source::Node(k) => layout.out_ring[k],
    }
}

/// Whether an audio link that ends at `end` ends at `target`.
fn ends_at(end: Target, target: Target) -> (b: bool)
    ensures
        b == (end == target),
{
    match (end, target) {
        (Target::Output, Target::Output) => true,
        (Target::Node(a), Target::Node(b)) => a == b,
        _ => false,
    }
}

/// The rings of the audio links that end at `target`, in the order of the links.
fn audio_feeders(wiring: &Wiring, layout: &Layout, shapes: &Vec<Shape>, rings: usize, boxes: usize, target: Target) -> (r:
    Vec<usize>)
    requires
        layout_is(*layout, shapes@, reads_input(wiring.audio@)),
        layout_wf(*layout, shapes@, rings as int, boxes as int),
        wiring_fits(wiring.audio@, wiring.message@, wiring.order@, shapes@),
    ensures
        r@ == audio_feeders_of(shapes@, wiring.audio@, target),
        all_below(r@, layout.split as int),
{
    let mut out: Vec<usize> = Vec::new();
    let mut i: usize = 0;
    while i < wiring.audio.len()
        invariant
            i <= wiring.audio@.len(),
            layout_is(*layout, shapes@, reads_input(wiring.audio@)),
            layout_wf(*layout, shapes@, rings as int, boxes as int),
            wiring_fits(wiring.audio@, wiring.message@, wiring.order@, shapes@),
            out@ == audio_feeders_upto(shapes@, wiring.audio@, target, i as int),
            all_below(out@, layout.split as int),
        decreases wiring.audio.len() - i,
    {
        let edge = wiring.audio[i];
        assert(match (#[trigger] wiring.audio@[i as int]).0 {
            Source::Input => true,
            Source::Node(k) => k < shapes@.len() && shapes@[k as int].kind != NodeType::MidiEffect,
        });
        match ring_of(layout, edge.0) {
            Some(id) => {
                if ends_at(edge.1, target) {
                    out.push(id);
                }
            },
            None => {},
        }
        i = i + 1;
    }
    out
}

/// The output buffers of the nodes whose message links end at node `target`,
/// in the order of the links.
fn message_feeders(wiring: &Wiring, layout: &Layout, shapes: &Vec<Shape>, rings: usize, boxes: usize, target: usize) -> (r:
    Vec<usize>)
    requires
        layout_is(*layout, shapes@, reads_input(wiring.audio@)),
        layout_wf(*layout, shapes@, rings as int, boxes as int),
        wiring_fits(wiring.audio@, wiring.message@, wiring.order@, shapes@),
    ensures
        r@ == message_feeders_of(shapes@, wiring.message@, target),
        forall|i: int| 0 <= i < r@.len() ==> shapes@.len() <= (#[trigger] r@[i]) < boxes,
{
    let mut out: Vec<usize> = Vec::new();
    let mut i: usize = 0;
    while i < wiring.message.len()
        invariant
            i <= wiring.message@.len(),
            layout_is(*layout, shapes@, reads_input(wiring.audio@)),
            layout_wf(*layout, shapes@, rings as int, boxes as int),
            wiring_fits(wiring.audio@, wiring.message@, wiring.order@, shapes@),
            out@ == message_feeders_upto(shapes@, wiring.message@, target, i as int),
            forall|j: int| 0 <= j < out@.len() ==> shapes@.len() <= (#[trigger] out@[j]) < boxes,
        decreases wiring.message.len() - i,
    {
        let edge = wiring.message[i];
        if edge.1 == target {
            let from = edge.0;
            assert((#[trigger] wiring.message@[i as int]).0 < shapes@.len());
            let ghost before = out@;
            let mut p: usize = 0;
            while p < layout.ports[from].len()
                invariant
                    p <= layout.ports@[from as int]@.len(),
                    from < shapes@.len(),
                    layout_wf(*layout, shapes@, rings as int, boxes as int),
                    out@ == before + layout.ports@[from as int]@.take(p as int),
                    forall|j: int| 0 <= j < out@.len() ==> shapes@.len() <= (#[trigger] out@[j]) < boxes,
                decreases layout.ports@[from as int]@.len() - p,
            {
                let id = layout.ports[from][p];
                assert(shapes@.len() <= layout.ports@[from as int]@[p as int] < boxes);
                out.push(id);
                assert(out@ =~= before + layout.ports@[from as int]@.take(p + 1));
                p = p + 1;
            }
            assert(layout.ports@[from as int]@.take(layout.ports@[from as int]@.len() as int) =~= layout.ports@[from as int]@);
        }
        i = i + 1;
    }
    out
}

/// Nothing below `bound` is named by indices that are all at or above it, and the other way round.
pub proof fn lemma_not_named(ids: Seq<usize>, j: int, low: bool, bound: int)
    requires
        low ==> all_below(ids, bound) && j >= bound,
        !low ==> (forall|i: int| 0 <= i < ids.len() ==> (#[trigger] ids[i]) >= bound) && j < bound,
    ensures
        !named(ids, j),
{
    if named(ids, j) {
        let k = choose|k: int| 0 <= k < ids.len() && k < ids.len() && #[trigger] ids[k] == j;
        assert(ids[k] == j);
    }
}

/// The names of the nodes of `order`, in that order.
pub open spec fn names_in_order(names: Seq<Seq<char>>, order: Seq<usize>, upto: int) -> Seq<Seq<char>> {
    Seq::new(upto as nat, |i: int| names[order[i] as int])
}

/// The rings of the first `upto` nodes, node by node: the ring that the node
/// writes, then its input ring.
pub open spec fn node_rings_upto(shapes: Seq<Shape>, has_input: bool, upto: int) -> Seq<usize>
    decreases upto,
{
    if upto <= 0 {
        Seq::empty()
    } else {
        let before = node_rings_upto(shapes, has_input, upto - 1);
        let with_out = match out_slot(shapes, upto - 1) {
            Some(id) => before.push(id),
            None => before,
        };
        match in_slot(shapes, has_input, upto - 1) {
            Some(id) => with_out.push(id),
            None => with_out,
        }
    }
}

/// The message outputs of the first `upto` nodes, node by node.
pub open spec fn all_ports_upto(shapes: Seq<Shape>, upto: int) -> Seq<usize>
    decreases upto,
{
    if upto <= 0 {
        Seq::empty()
    } else {
        all_ports_upto(shapes, upto - 1) + ports_of(shapes, upto - 1)
    }
}

/// The steps that open a block: clear every node's ring, load the audio
/// input where a link reads it, deliver the input messages to every node,
/// and empty the message outputs.
pub open spec fn prologue(names: Seq<Seq<char>>, shapes: Seq<Shape>, has_input: bool) -> Seq<OpView> {
    let zeros = seq![OpView::AudioZeros(node_rings_upto(shapes, has_input, shapes.len() as int))];
    let load = match input_slot(shapes, has_input) {
        Some(id) => seq![OpView::AudioFromInput(seq![id])],
        None => Seq::empty(),
    };
    let deliver = seq![
        OpView::MessageFromInput(Seq::new(shapes.len(), |k: int| (k as usize, names[k]))),
        OpView::MessageZeros(all_ports_upto(shapes, shapes.len() as int)),
    ];
    zeros + load + deliver
}

/// The steps of node `y`: where it is an audio effect that one link feeds,
/// copy the feeder into its input ring, so that it hears the feeder as it
/// is; where several links feed it, mix the feeders into its input ring;
/// where message links feed it, add their messages to its own; then run it,
/// with its input ring on each of its audio inputs. An effect that no link
/// feeds hears its cleared input ring.
pub open spec fn node_group(
    names: Seq<Seq<char>>,
    shapes: Seq<Shape>,
    audio: Seq<(Source, Target)>,
    message: Seq<(usize, usize)>,
    y: usize,
) -> Seq<OpView> {
    let has_input = reads_input(audio);
    let feeders = audio_feeders_of(shapes, audio, Target::Node(y));
    let merge = match in_slot(shapes, has_input, y as int) {
        Some(id) => if feeders.len() == 1 {
            seq![OpView::AudioClone(feeders[0], seq![id])]
        } else if feeders.len() > 1 {
            seq![OpView::AudioMerge(id, feeders)]
        } else {
            Seq::empty()
        },
        None => Seq::empty(),
    };
    let posted = message_feeders_of(shapes, message, y);
    let post = if posted.len() > 0 {
        seq![OpView::MessageMerge(y, posted)]
    } else {
        Seq::empty()
    };
    let audio_in = match in_slot(shapes, has_input, y as int) {
        Some(id) => Seq::new(shapes[y as int].audio_in as nat, |c: int| id),
        None => Seq::empty(),
    };
    let audio_out = match out_slot(shapes, y as int) {
        Some(id) => seq![id],
        None => Seq::empty(),
    };
    merge + post + seq![OpView::Process(names[y as int], audio_in, audio_out, y, ports_of(shapes, y as int))]
}

/// The steps of the first `upto` nodes of `order`.
pub open spec fn groups_upto(
    names: Seq<Seq<char>>,
    shapes: Seq<Shape>,
    audio: Seq<(Source, Target)>,
    message: Seq<(usize, usize)>,
    order: Seq<usize>,
    upto: int,
) -> Seq<OpView>
    decreases upto,
{
    if upto <= 0 {
        Seq::empty()
    } else {
        groups_upto(names, shapes, audio, message, order, upto - 1) + node_group(
            names,
            shapes,
            audio,
            message,
            order[upto - 1],
        )
    }
}

/// The steps of a block for nodes of these names and shapes, wired like
/// this and run in this order: the opening steps, then the steps of each
/// node in order, and at last the mix of what is linked to the graph's audio
/// output into it.
pub open spec fn program(
    names: Seq<Seq<char>>,
    shapes: Seq<Shape>,
    audio: Seq<(Source, Target)>,
    message: Seq<(usize, usize)>,
    order: Seq<usize>,
) -> Seq<OpView> {
    prologue(names, shapes, reads_input(audio)) + groups_upto(
        names,
        shapes,
        audio,
        message,
        order,
        shapes.len() as int,
    ) + seq![OpView::AudioToOutput(audio_feeders_of(shapes, audio, Target::Output))]
}

/// Writes the steps of a block, as `program` lists them.
fn emit(names: &Vec<String>, shapes: &Vec<Shape>, wiring: &Wiring, layout: &Layout, rings: usize, boxes: usize) -> (ops:
    Vec<Operation>)
    requires
        names@.len() == shapes@.len(),
        layout_is(*layout, shapes@, reads_input(wiring.audio@)),
        layout_wf(*layout, shapes@, rings as int, boxes as int),
        wiring_fits(wiring.audio@, wiring.message@, wiring.order@, shapes@),
    ensures
        all_ops_wf(ops@, rings as int, boxes as int, name_views(names@), shape_kinds(shapes@)),
        process_names(ops@) == names_in_order(name_views(names@), wiring.order@, names@.len() as int),
        ops_view(ops@) == program(name_views(names@), shapes@, wiring.audio@, wiring.message@, wiring.order@),
{
    let n = names.len();
    let ghost nv = name_views(names@);
    let ghost kinds = shape_kinds(shapes@);
    let ghost has_input = reads_input(wiring.audio@);
    let mut ops: Vec<Operation> = Vec::new();
    let mut node_rings: Vec<usize> = Vec::new();
    let mut inboxes: Vec<(usize, String)> = Vec::new();
    let mut outboxes: Vec<usize> = Vec::new();
    let mut k: usize = 0;
    while k < n
        invariant
            k <= n,
            n == names@.len(),
            n == shapes@.len(),
            nv == name_views(names@),
            has_input == reads_input(wiring.audio@),
            layout_is(*layout, shapes@, has_input),
            layout_wf(*layout, shapes@, rings as int, boxes as int),
            all_below(node_rings@, rings as int),
            all_below(outboxes@, boxes as int),
            forall|j: int| 0 <= j < inboxes@.len() ==> (#[trigger] inboxes@[j]).0 < boxes,
            node_rings@ == node_rings_upto(shapes@, has_input, k as int),
            outboxes@ == all_ports_upto(shapes@, k as int),
            listed_names(inboxes@) == Seq::new(k as nat, |j: int| (j as usize, nv[j])),
        decreases n - k,
    {
        match layout.out_ring[k] {
            Some(id) => {
                node_rings.push(id);
            },
            None => {},
        }
        match layout.in_ring[k] {
            Some(id) => {
                node_rings.push(id);
            },
            None => {},
        }
        let ghost listed = listed_names(inboxes@);
        inboxes.push((k, names[k].clone()));
        assert(listed_names(inboxes@) =~= Seq::new((k + 1) as nat, |j: int| (j as usize, nv[j]))) by {
            assert(listed_names(inboxes@) =~= listed.push((k, nv[k as int])));
        }
        let ghost before = outboxes@;
        let mut p: usize = 0;
        while p < layout.ports[k].len()
            invariant
                p <= layout.ports@[k as int]@.len(),
                k < shapes@.len(),
                layout_wf(*layout, shapes@, rings as int, boxes as int),
                all_below(outboxes@, boxes as int),
                outboxes@ == before + layout.ports@[k as int]@.take(p as int),
            decreases layout.ports@[k as int]@.len() - p,
        {
            let id = layout.ports[k][p];
            assert(layout.ports@[k as int]@[p as int] < boxes);
            outboxes.push(id);
            assert(outboxes@ =~= before + layout.ports@[k as int]@.take(p + 1));
            p = p + 1;
        }
        assert(layout.ports@[k as int]@.take(layout.ports@[k as int]@.len() as int) =~= layout.ports@[k as int]@);
        k = k + 1;
    }
    put(&mut ops, Operation::AudioZeros(node_rings), rings, boxes, names, shapes);
    match layout.input_ring {
        Some(id) => {
            let mut loaded: Vec<usize> = Vec::new();
            loaded.push(id);
            assert(loaded@ =~= seq![id]);
            put(&mut ops, Operation::AudioFromInput(loaded), rings, boxes, names, shapes);
        },
        None => {},
    }
    put(&mut ops, Operation::MessageFromInput(inboxes), rings, boxes, names, shapes);
    put(&mut ops, Operation::MessageZeros(outboxes), rings, boxes, names, shapes);
    assert(ops_view(ops@) =~= prologue(nv, shapes@, has_input));
    assert(process_names(ops@) =~= names_in_order(nv, wiring.order@, 0));
    let ghost opening = ops_view(ops@);
    let mut i: usize = 0;
    while i < n
        invariant
            i <= n,
            n == names@.len(),
            n == shapes@.len(),
            nv == name_views(names@),
            kinds == shape_kinds(shapes@),
            has_input == reads_input(wiring.audio@),
            opening == prologue(nv, shapes@, has_input),
            layout_is(*layout, shapes@, has_input),
            layout_wf(*layout, shapes@, rings as int, boxes as int),
            wiring_fits(wiring.audio@, wiring.message@, wiring.order@, shapes@),
            all_ops_wf(ops@, rings as int, boxes as int, nv, kinds),
            process_names(ops@) == names_in_order(nv, wiring.order@, i as int),
            ops_view(ops@) == opening + groups_upto(nv, shapes@, wiring.audio@, wiring.message@, wiring.order@, i as int),
        decreases n - i,
    {
        let y = wiring.order[i];
        assert(y < n);
        let ghost sofar = ops_view(ops@);
        let ghost group = node_group(nv, shapes@, wiring.audio@, wiring.message@, y);
        let mut audio_in: Vec<usize> = Vec::new();
        let mut audio_out: Vec<usize> = Vec::new();
        match layout.out_ring[y] {
            Some(id) => {
                audio_out.push(id);
                assert(audio_out@ =~= seq![id]);
            },
            None => {},
        }
        let ghost mut merged: Seq<OpView> = Seq::empty();
        match layout.in_ring[y] {
            Some(id) => {
                let sources = audio_feeders(wiring, layout, shapes, rings, boxes, Target::Node(y));
                if sources.len() == 1 {
                    let source = sources[0];
                    let mut targets: Vec<usize> = Vec::new();
                    targets.push(id);
                    proof {
                        assert(targets@ =~= seq![id]);
                        assert(sources@[0] < layout.split);
                        lemma_not_named(targets@, source as int, false, layout.split as int);
                        assert(all_below(targets@, rings as int));
                        merged = seq![OpView::AudioClone(source, targets@)];
                    }
                    put(&mut ops, Operation::AudioClone(source, targets), rings, boxes, names, shapes);
                } else if sources.len() > 1 {
                    proof {
                        lemma_not_named(sources@, id as int, true, layout.split as int);
                        assert(all_below(sources@, rings as int));
                        merged = seq![OpView::AudioMerge(id, sources@)];
                    }
                    put(&mut ops, Operation::AudioMerge(id, sources), rings, boxes, names, shapes);
                }
                let want = shapes[y].audio_in;
                let mut c: usize = 0;
                while c < want
                    invariant
                        c <= want,
                        audio_in@.len() == c,
                        layout.split <= id < rings,
                        forall|j: int| 0 <= j < c ==> (#[trigger] audio_in@[j]) == id,
                    decreases want - c,
                {
                    audio_in.push(id);
                    c = c + 1;
                }
                assert(audio_in@ =~= Seq::new(shapes@[y as int].audio_in as nat, |c: int| id));
            },
            None => {},
        }
        assert(ops_view(ops@) =~= sofar + merged);
        let feeders = message_feeders(wiring, layout, shapes, rings, boxes, y);
        let ghost mut posted: Seq<OpView> = Seq::empty();
        if feeders.len() > 0 {
            proof {
                lemma_not_named(feeders@, y as int, false, n as int);
                assert(all_below(feeders@, boxes as int));
                posted = seq![OpView::MessageMerge(y, feeders@)];
            }
            put(&mut ops, Operation::MessageMerge(y, feeders), rings, boxes, names, shapes);
        }
        assert(ops_view(ops@) =~= sofar + merged + posted);
        let message_out = copy_ids(&layout.ports[y]);
        let name = names[y].clone();
        proof {
            assert(nv[y as int] == name@);
            assert(kinds[y as int] == shapes@[y as int].kind);
            assert(all_below(audio_in@, rings as int));
            assert(all_below(audio_out@, rings as int));
            assert(all_below(audio_out@, layout.split as int));
            assert forall|j: int| 0 <= j < audio_in@.len() implies !named(audio_out@, #[trigger] audio_in@[j] as int) by {
                lemma_not_named(audio_out@, audio_in@[j] as int, true, layout.split as int);
            }
            assert(all_below(message_out@, boxes as int)) by {
                assert forall|j: int| 0 <= j < message_out@.len() implies (#[trigger] message_out@[j]) < boxes by {
                    assert(layout.ports@[y as int]@[j] < boxes);
                }
            }
            assert(!named(message_out@, y as int)) by {
                assert forall|j: int| 0 <= j < message_out@.len() implies (#[trigger] message_out@[j]) >= n by {
                    assert(layout.ports@[y as int]@[j] >= n);
                }
                lemma_not_named(message_out@, y as int, false, n as int);
            }
        }
        let ghost before = process_names(ops@);
        let ghost run = OpView::Process(name@, audio_in@, audio_out@, y, message_out@);
        put(&mut ops, Operation::Process(name, audio_in, audio_out, y, message_out), rings, boxes, names, shapes);
        proof {
            assert(before.push(name@) =~= names_in_order(nv, wiring.order@, i + 1));
            assert(group =~= merged + posted + seq![run]);
            assert(ops_view(ops@) =~= sofar + group);
            assert(ops_view(ops@) =~= opening + groups_upto(
                nv,
                shapes@,
                wiring.audio@,
                wiring.message@,
                wiring.order@,
                i + 1,
            ));
        }
        i = i + 1;
    }
    let outs = audio_feeders(wiring, layout, shapes, rings, boxes, Target::Output);
    assert(all_below(outs@, rings as int));
    put(&mut ops, Operation::AudioToOutput(outs), rings, boxes, names, shapes);
    ops
}

/// The audio links as the compiler reads them, each resolved to where it starts and ends.
pub open spec fn resolve_audio(names: Seq<Seq<char>>, links: Seq<Link>) -> Seq<(Source, Target)> {
    Seq::new(links.len(), |i: int| resolved_audio(names, links[i]))
}

/// The message links as the compiler reads them, each resolved to the nodes it joins.
pub open spec fn resolve_message(names: Seq<Seq<char>>, links: Seq<Link>) -> Seq<(usize, usize)> {
    Seq::new(links.len(), |i: int| resolved_message(names, links[i]))
}

/// The ring is as it was made: silent, with its cursor at the start.
pub open spec fn fresh_ring<T: Sample>(ring: AudioBuffer<T>) -> bool {
    &&& ring.wf()
    &&& ring.capacity() == MAX_BLOCK_FRAMES
    &&& ring.position() == 0
    &&& forall|j: int| 0 <= j < ring.samples().len() ==> is_silence(#[trigger] ring.samples()[j])
}

/// The message buffer is as it was made: empty, with an empty window.
pub open spec fn fresh_box<T>(b: MessageBuffer<T>) -> bool {
    b.items().len() == 0 && b.window() == 0
}

/// The steps are those of the declared links for the order of the nodes in
/// which every node runs once, after all the nodes that feed it, and in
/// which of the nodes that can run next the one registered first does.
pub open spec fn runs_in_order(
    ops: Seq<Operation>,
    names: Seq<Seq<char>>,
    shapes: Seq<Shape>,
    audio: Seq<Link>,
    message: Seq<Link>,
) -> bool {
    exists|order: Seq<usize>|
        {
            &&& is_order(order, names.len() as int)
            &&& respects(order, deps_upto(names, audio, message, (audio.len() + message.len()) as int))
            &&& lowest_first(order, deps_upto(names, audio, message, (audio.len() + message.len()) as int))
            &&& #[trigger] names_in_order(names, order, names.len() as int) == process_names(ops)
            &&& ops_view(ops) == program(names, shapes, resolve_audio(names, audio), resolve_message(names, message), order)
        }
}

/// Wire `w` is the first that cannot be compiled, and `fault` is why.
pub open spec fn first_fault(
    names: Seq<Seq<char>>,
    shapes: Seq<Shape>,
    audio: Seq<Link>,
    message: Seq<Link>,
    w: int,
    fault: LinkError,
) -> bool {
    &&& 0 <= w < audio.len() + message.len()
    &&& wire_fault(names, shapes, audio, message, w) == Some(fault)
    &&& forall|v: int| 0 <= v < w ==> #[trigger] wire_fault(names, shapes, audio, message, v) is None
}

/// Compiles the links between nodes of the given names and shapes into
/// rings, message buffers and steps. Where a link cannot be compiled, the
/// first such link gives the error and nothing is built.
pub fn build<T: Sample>(
    names: &Vec<String>,
    shapes: &Vec<Shape>,
    audio: &Vec<Link>,
    message: &Vec<Link>,
    rings: &mut Vec<AudioBuffer<T>>,
    boxes: &mut Vec<MessageBuffer<T>>,
    ops: &mut Vec<Operation>,
) -> (r: Result<(), LinkError>)
    requires
        distinct_names(name_views(names@)),
        none_reserved(name_views(names@)),
        shapes@.len() == names@.len(),
    ensures
        all_ops_wf(
            final(ops)@,
            final(rings)@.len() as int,
            final(boxes)@.len() as int,
            name_views(names@),
            shape_kinds(shapes@),
        ),
        forall|i: int|
            0 <= i < final(rings)@.len() ==> (#[trigger] final(rings)@[i]).wf() && final(rings)@[i].capacity()
                == MAX_BLOCK_FRAMES,
        r matches Err(e) ==> {
            &&& final(ops)@.len() == 0
            &&& final(rings)@.len() == 0
            &&& final(boxes)@.len() == 0
            &&& exists|w: int| #[trigger] first_fault(name_views(names@), shapes@, audio@, message@, w, e)
        },
        r is Ok ==> {
            &&& forall|w: int|
                0 <= w < audio@.len() + message@.len() ==> #[trigger] wire_fault(
                    name_views(names@),
                    shapes@,
                    audio@,
                    message@,
                    w,
                ) is None
            &&& runs_in_order(final(ops)@, name_views(names@), shapes@, audio@, message@)
            &&& final(rings)@.len() == ring_total(shapes@, reads_input(resolve_audio(name_views(names@), audio@)))
            &&& final(boxes)@.len() == box_total(shapes@)
            &&& forall|i: int| 0 <= i < final(rings)@.len() ==> fresh_ring(#[trigger] final(rings)@[i])
            &&& forall|i: int| 0 <= i < final(boxes)@.len() ==> fresh_box(#[trigger] final(boxes)@[i])
        },
{
    *rings = Vec::new();
    *boxes = Vec::new();
    *ops = Vec::new();
    let wiring = match check_links(names, shapes, audio, message) {
        Ok(w) => w,
        Err(e) => {
            proof {
                let w = choose|w: int|
                    0 <= w < audio@.len() + message@.len() && #[trigger] wire_fault(
                        name_views(names@),
                        shapes@,
                        audio@,
                        message@,
                        w,
                    ) == Some(e) && forall|v: int|
                        0 <= v < w ==> #[trigger] wire_fault(name_views(names@), shapes@, audio@, message@, v) is None;
                assert(first_fault(name_views(names@), shapes@, audio@, message@, w, e));
            }
            return Err(e);
        },
    };
    proof {
        assert(wiring.audio@ =~= resolve_audio(name_views(names@), audio@));
        assert(wiring.message@ =~= resolve_message(name_views(names@), message@));
    }
    let layout = allocate(shapes, &wiring.audio, rings, boxes);
    let built = emit(names, shapes, &wiring, &layout, rings.len(), boxes.len());
    *ops = built;
    assert(names_in_order(name_views(names@), wiring.order@, names@.len() as int) == process_names(ops@));
    Ok(())
}

} // verus!
