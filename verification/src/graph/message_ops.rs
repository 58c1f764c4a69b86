use crate::buffer::message::{lemma_upper_bound_is_the_parting, path_view, upper_bound, MessageBuffer, MessageView};
use crate::graph::audio_ops::{all_below, named, named_before};
use vstd::prelude::*;

verus! {

/// The message is for the node called `name` at this level of the graph: the
/// last segment of its path is that name.
pub open spec fn addressed_to<T>(message: MessageView<T>, name: Seq<char>) -> bool {
    message.addr.len() > 0 && message.addr.last() == name
}

/// The message as its destination gets it: without the last segment of its path.
pub open spec fn delivered<T>(message: MessageView<T>) -> MessageView<T> {
    MessageView { addr: message.addr.drop_last(), value: message.value }
}

/// The messages of `input` that are for the node called `name`, in order, each
/// at its frame and as its destination gets it.
pub open spec fn routed<T>(input: Seq<(usize, MessageView<T>)>, name: Seq<char>) -> Seq<(usize, MessageView<T>)>
    decreases input.len(),
{
    if input.len() == 0 {
        Seq::empty()
    } else {
        let before = routed(input.drop_last(), name);
        if addressed_to(input.last().1, name) {
            before.push((input.last().0, delivered(input.last().1)))
        } else {
            before
        }
    }
}

/// `target` after it took in the messages of `source` one by one, in order,
/// each after every message it then held at that frame or earlier. A message
/// at or past `window` is left out.
pub open spec fn absorbed<T>(
    target: Seq<(usize, MessageView<T>)>,
    source: Seq<(usize, MessageView<T>)>,
    window: int,
) -> Seq<(usize, MessageView<T>)>
    decreases source.len(),
{
    if source.len() == 0 {
        target
    } else {
        let sofar = absorbed(target, source.drop_last(), window);
        let e = source.last();
        if e.0 < window {
            sofar.insert(upper_bound(sofar, e.0), e)
        } else {
            sofar
        }
    }
}

/// `target` after it took in each of `sources`, one after the other.
pub open spec fn absorbed_all<T>(
    target: Seq<(usize, MessageView<T>)>,
    sources: Seq<Seq<(usize, MessageView<T>)>>,
    window: int,
) -> Seq<(usize, MessageView<T>)>
    decreases sources.len(),
{
    if sources.len() == 0 {
        target
    } else {
        absorbed(absorbed_all(target, sources.drop_last(), window), sources.last(), window)
    }
}

/// What each buffer holds, as views.
pub open spec fn box_views<T>(boxes: Seq<MessageBuffer<T>>) -> Seq<Seq<(usize, MessageView<T>)>> {
    Seq::new(boxes.len(), |i: int| boxes[i]@)
}

/// The views of the buffers that `ids` names, in that order.
pub open spec fn views_of<T>(boxes: Seq<MessageBuffer<T>>, ids: Seq<usize>) -> Seq<Seq<(usize, MessageView<T>)>> {
    Seq::new(ids.len(), |i: int| boxes[ids[i] as int]@)
}

/// Empties the buffer, sets its window to `frames`, and delivers to it the
/// messages of `input` that are for the node called `name`.
pub fn route_into<T: Copy>(target: &mut MessageBuffer<T>, frames: usize, input: &MessageBuffer<T>, name: &String)
    requires
        input.window() <= frames,
    ensures
        final(target)@ == routed(input@, name@),
        final(target).window() == frames,
{
    proof {
        use_type_invariant(input);
    }
    target.clear();
    target.set_frames(frames);
    let n = input.len();
    let mut i: usize = 0;
    assert(input@.subrange(0, 0).len() == 0);
    while i < n
        invariant
            i <= n,
            n == input.items().len(),
            input.wf(),
            input.window() <= frames,
            target.window() == frames,
            target@ == routed(input@.subrange(0, i as int), name@),
            forall|k: int, j: int|
                0 <= k < target@.len() && i <= j < n ==> (#[trigger] target@[k]).0 <= (#[trigger] input.items()[j]).0,
        decreases n - i,
    {
        let ghost sofar = target@;
        let ghost prefix = input@.subrange(0, i + 1);
        proof {
            assert(prefix.drop_last() =~= input@.subrange(0, i as int));
            assert(prefix.last() == input@[i as int]);
        }
        match input.get(i) {
            Some((frame, message)) => {
                let depth = message.addr.len();
                if depth > 0 && message.addr[depth - 1] == *name {
                    let mut copy = message.clone();
                    copy.addr.pop();
                    proof {
                        assert(path_view(message.addr@).last() == message.addr@[depth - 1]@);
                        assert(addressed_to(message@, name@));
                        assert(copy@.addr =~= message@.addr.drop_last());
                        assert(copy@ == delivered(message@));
                        assert forall|k: int| 0 <= k < target@.len() implies (#[trigger] target@[k]).0 <= *frame by {
                            assert(target@[k].0 <= input.items()[i as int].0);
                        }
                        lemma_upper_bound_is_the_parting(target@, *frame, target@.len() as int);
                        assert(sofar.insert(sofar.len() as int, (*frame, copy@)) =~= sofar.push((*frame, copy@)));
                    }
                    target.add(*frame, copy);
                    proof {
                        assert forall|k: int, j: int| 0 <= k < target@.len() && i + 1 <= j < n implies (
                        #[trigger] target@[k]).0 <= (#[trigger] input.items()[j]).0 by {
                            if k < sofar.len() {
                                assert(target@[k] == sofar[k]);
                            } else {
                                assert(input.items()[i as int].0 <= input.items()[j].0);
                            }
                        }
                    }
                } else {
                    proof {
                        if depth > 0 {
                            assert(path_view(message.addr@).last() == message.addr@[depth - 1]@);
                        }
                        assert(!addressed_to(message@, name@));
                    }
                }
            },
            None => {},
        }
        i = i + 1;
    }
    assert(input@.subrange(0, n as int) =~= input@);
}

/// Adds a copy of every message of `source` to `target`, in order, each after
/// every message that `target` then holds at that frame or earlier. A message
/// at or past the window of `target` is left out.
pub fn absorb<T: Copy>(target: &mut MessageBuffer<T>, source: &MessageBuffer<T>)
    ensures
        final(target)@ == absorbed(old(target)@, source@, old(target).window() as int),
        final(target).window() == old(target).window(),
{
    let n = source.len();
    let window = target.frame();
    let mut i: usize = 0;
    assert(source@.subrange(0, 0).len() == 0);
    while i < n
        invariant
            i <= n,
            n == source.items().len(),
            window == old(target).window(),
            target.window() == window,
            target@ == absorbed(old(target)@, source@.subrange(0, i as int), window as int),
        decreases n - i,
    {
        let ghost prefix = source@.subrange(0, i + 1);
        proof {
            assert(prefix.drop_last() =~= source@.subrange(0, i as int));
            assert(prefix.last() == source@[i as int]);
        }
        match source.get(i) {
            Some((frame, message)) => {
                if *frame < window {
                    target.add(*frame, message.clone());
                }
            },
            None => {},
        }
        i = i + 1;
    }
    assert(source@.subrange(0, n as int) =~= source@);
}

/// Entry `k` of `targets` is the last one that names its buffer.
pub open spec fn last_naming(targets: Seq<(usize, String)>, k: int) -> bool {
    forall|later: int| k < later < targets.len() ==> (#[trigger] targets[later]).0 != targets[k].0
}

/// Buffer `j` is named by one of the first `upto` entries of `targets`.
pub open spec fn routed_before(targets: Seq<(usize, String)>, upto: int, j: int) -> bool {
    exists|k: int| 0 <= k < upto && k < targets.len() && (#[trigger] targets[k]).0 == j
}

/// The buffers after each target was emptied and given a window of `frames`
/// frames, with nothing else changed.
pub open spec fn emptied<T>(before: Seq<MessageBuffer<T>>, after: Seq<MessageBuffer<T>>, targets: Seq<usize>, frames: nat) -> bool {
    &&& after.len() == before.len()
    &&& forall|j: int|
        0 <= j < before.len() ==> if named(targets, j) {
            (#[trigger] after[j])@.len() == 0 && after[j].window() == frames
        } else {
            after[j] == before[j]
        }
}

/// The buffers after the messages `input` were delivered: each target buffer
/// holds, with a window of `frames` frames, the messages whose path ends in
/// the name that the target is listed with, without that segment; where a
/// buffer is listed twice the later entry decides; nothing else changed.
pub open spec fn delivered_to<T>(
    before: Seq<MessageBuffer<T>>,
    after: Seq<MessageBuffer<T>>,
    targets: Seq<(usize, String)>,
    frames: nat,
    input: Seq<(usize, MessageView<T>)>,
) -> bool {
    &&& after.len() == before.len()
    &&& forall|k: int|
        0 <= k < targets.len() && last_naming(targets, k) ==> {
            &&& (#[trigger] after[targets[k].0 as int])@ == routed(input, targets[k].1@)
            &&& after[targets[k].0 as int].window() == frames
        }
    &&& forall|j: int|
        0 <= j < before.len() && !routed_before(targets, targets.len() as int, j) ==> #[trigger] after[j] == before[j]
}

/// The buffers after each target took in a copy of the messages of buffer
/// `source`, with nothing else changed.
pub open spec fn cloned_boxes<T>(before: Seq<MessageBuffer<T>>, after: Seq<MessageBuffer<T>>, source: int, targets: Seq<usize>) -> bool {
    &&& after.len() == before.len()
    &&& box_views(after) == cloned_into(before, source, targets)
    &&& forall|j: int| 0 <= j < before.len() ==> (#[trigger] after[j]).window() == before[j].window()
    &&& forall|j: int| 0 <= j < before.len() && !named(targets, j) ==> #[trigger] after[j] == before[j]
}

/// The buffers after buffer `target` took in a copy of the messages of each
/// source, one after the other, with nothing else changed.
pub open spec fn merged_box<T>(before: Seq<MessageBuffer<T>>, after: Seq<MessageBuffer<T>>, target: int, sources: Seq<usize>) -> bool {
    &&& after.len() == before.len()
    &&& after[target]@ == absorbed_all(before[target]@, views_of(before, sources), before[target].window() as int)
    &&& after[target].window() == before[target].window()
    &&& forall|j: int| 0 <= j < before.len() && j != target ==> #[trigger] after[j] == before[j]
}

/// Empties each target buffer and sets its window to `frames`.
pub fn message_zeros<T>(boxes: &mut Vec<MessageBuffer<T>>, targets: &Vec<usize>, frames: usize)
    requires
        all_below(targets@, old(boxes)@.len() as int),
    ensures
        emptied(old(boxes)@, final(boxes)@, targets@, frames as nat),
{
    let mut i: usize = 0;
    while i < targets.len()
        invariant
            i <= targets.len(),
            all_below(targets@, old(boxes)@.len() as int),
            boxes@.len() == old(boxes)@.len(),
            forall|j: int|
                0 <= j < old(boxes)@.len() ==> if named_before(targets@, i as int, j) {
                    (#[trigger] boxes@[j])@.len() == 0 && boxes@[j].window() == frames
                } else {
                    boxes@[j] == old(boxes)@[j]
                },
        decreases targets.len() - i,
    {
        let t = targets[i];
        let ghost before = boxes@;
        let mut taken = MessageBuffer::new();
        core::mem::swap(&mut boxes[t], &mut taken);
        taken.clear();
        taken.set_frames(frames);
        core::mem::swap(&mut boxes[t], &mut taken);
        proof {
            assert forall|j: int| 0 <= j < old(boxes)@.len() implies if named_before(targets@, i + 1, j) {
                (#[trigger] boxes@[j])@.len() == 0 && boxes@[j].window() == frames
            } else {
                boxes@[j] == old(boxes)@[j]
            } by {
                if j == t {
                    assert(targets@[i as int] == j);
                } else {
                    assert(boxes@[j] == before[j]);
                    if named_before(targets@, i + 1, j) {
                        let k = choose|k: int| 0 <= k < i + 1 && k < targets@.len() && #[trigger] targets@[k] == j;
                        assert(k < i);
                        assert(named_before(targets@, i as int, j));
                    } else {
                        assert(!named_before(targets@, i as int, j));
                    }
                }
            }
        }
        i = i + 1;
    }
}

/// For each target, a buffer and a node name: empties the buffer, sets its
/// window to `frames`, and delivers to it the messages of `input` whose path
/// ends in that name, without that segment. Where a buffer is named twice,
/// the later entry decides.
pub fn message_from_input<T: Copy>(
    boxes: &mut Vec<MessageBuffer<T>>,
    targets: &Vec<(usize, String)>,
    frames: usize,
    input: &MessageBuffer<T>,
)
    requires
        forall|k: int| 0 <= k < targets@.len() ==> (#[trigger] targets@[k]).0 < old(boxes)@.len(),
        input.window() <= frames,
    ensures
        delivered_to(old(boxes)@, final(boxes)@, targets@, frames as nat, input@),
{
    let mut i: usize = 0;
    while i < targets.len()
        invariant
            i <= targets.len(),
            forall|k: int| 0 <= k < targets@.len() ==> (#[trigger] targets@[k]).0 < old(boxes)@.len(),
            input.window() <= frames,
            boxes@.len() == old(boxes)@.len(),
            forall|k: int|
                0 <= k < i && (forall|later: int| k < later < i ==> (#[trigger] targets@[later]).0 != targets@[k].0)
                    ==> {
                    &&& (#[trigger] boxes@[targets@[k].0 as int])@ == routed(input@, targets@[k].1@)
                    &&& boxes@[targets@[k].0 as int].window() == frames
                },
            forall|j: int|
                0 <= j < old(boxes)@.len() && !routed_before(targets@, i as int, j) ==> #[trigger] boxes@[j] == old(boxes)@[j],
        decreases targets.len() - i,
    {
        let t = targets[i].0;
        let ghost before = boxes@;
        let mut taken = MessageBuffer::new();
        core::mem::swap(&mut boxes[t], &mut taken);
        route_into(&mut taken, frames, input, &targets[i].1);
        core::mem::swap(&mut boxes[t], &mut taken);
        proof {
            assert forall|k: int|
                0 <= k < i + 1 && (forall|later: int|
                    k < later < i + 1 ==> (#[trigger] targets@[later]).0 != targets@[k].0) implies {
                &&& (#[trigger] boxes@[targets@[k].0 as int])@ == routed(input@, targets@[k].1@)
                &&& boxes@[targets@[k].0 as int].window() == frames
            } by {
                if k < i {
                    assert(targets@[i as int].0 != targets@[k].0);
                    assert(boxes@[targets@[k].0 as int] == before[targets@[k].0 as int]);
                    assert forall|later: int| k < later < i implies (#[trigger] targets@[later]).0 != targets@[k].0 by {
                    }
                }
            }
            assert forall|j: int| 0 <= j < old(boxes)@.len() && !routed_before(targets@, i + 1, j) implies #[trigger] boxes@[j]
                == old(boxes)@[j] by {
                if j == t {
                    assert(targets@[i as int].0 == j);
                } else {
                    assert(boxes@[j] == before[j]);
                    if routed_before(targets@, i as int, j) {
                        let k = choose|k: int| 0 <= k < i && k < targets@.len() && (#[trigger] targets@[k]).0 == j;
                        assert(targets@[k].0 == j);
                        assert(routed_before(targets@, i + 1, j));
                    }
                }
            }
        }
        i = i + 1;
    }
}

/// What the buffers hold after each of `targets`, in order, took in the
/// messages of buffer `source`.
pub open spec fn cloned_into<T>(boxes: Seq<MessageBuffer<T>>, source: int, targets: Seq<usize>) -> Seq<
    Seq<(usize, MessageView<T>)>,
>
    decreases targets.len(),
{
    if targets.len() == 0 {
        box_views(boxes)
    } else {
        let before = cloned_into(boxes, source, targets.drop_last());
        let t = targets.last() as int;
        before.update(t, absorbed(before[t], boxes[source]@, boxes[t].window() as int))
    }
}

/// Adds a copy of every message of the source buffer to each target buffer.
/// A message at or past the window of a target is left out of that target.
pub fn message_clone<T: Copy>(boxes: &mut Vec<MessageBuffer<T>>, source: usize, targets: &Vec<usize>)
    requires
        source < old(boxes)@.len(),
        all_below(targets@, old(boxes)@.len() as int),
        !named(targets@, source as int),
    ensures
        cloned_boxes(old(boxes)@, final(boxes)@, source as int, targets@),
{
    let mut i: usize = 0;
    assert(targets@.subrange(0, 0).len() == 0);
    assert(box_views(boxes@) =~= cloned_into(old(boxes)@, source as int, targets@.subrange(0, 0)));
    while i < targets.len()
        invariant
            i <= targets.len(),
            source < old(boxes)@.len(),
            all_below(targets@, old(boxes)@.len() as int),
            !named(targets@, source as int),
            boxes@.len() == old(boxes)@.len(),
            box_views(boxes@) == cloned_into(old(boxes)@, source as int, targets@.subrange(0, i as int)),
            forall|j: int| 0 <= j < old(boxes)@.len() ==> (#[trigger] boxes@[j]).window() == old(boxes)@[j].window(),
            forall|j: int|
                0 <= j < old(boxes)@.len() && !named_before(targets@, i as int, j) ==> #[trigger] boxes@[j] == old(boxes)@[j],
        decreases targets.len() - i,
    {
        let t = targets[i];
        let ghost before = boxes@;
        proof {
            if t == source {
                assert(targets@[i as int] == source);
                assert(named_before(targets@, targets@.len() as int, source as int));
            }
            if named_before(targets@, i as int, source as int) {
                assert(named_before(targets@, targets@.len() as int, source as int));
            }
            assert(boxes@[source as int] == old(boxes)@[source as int]);
        }
        let mut taken = MessageBuffer::new();
        core::mem::swap(&mut boxes[t], &mut taken);
        absorb(&mut taken, &boxes[source]);
        core::mem::swap(&mut boxes[t], &mut taken);
        proof {
            let prefix = targets@.subrange(0, i + 1);
            assert(prefix.drop_last() =~= targets@.subrange(0, i as int));
            assert(prefix.last() == t);
            assert(box_views(before)[t as int] == before[t as int]@);
            assert(box_views(boxes@) =~= box_views(before).update(
                t as int,
                absorbed(before[t as int]@, old(boxes)@[source as int]@, old(boxes)@[t as int].window() as int),
            ));
            assert forall|j: int| 0 <= j < old(boxes)@.len() && !named_before(targets@, i + 1, j) implies #[trigger] boxes@[j]
                == old(boxes)@[j] by {
                if j == t {
                    assert(targets@[i as int] == j);
                } else {
                    assert(boxes@[j] == before[j]);
                    if named_before(targets@, i as int, j) {
                        let k = choose|k: int| 0 <= k < i && k < targets@.len() && #[trigger] targets@[k] == j;
                        assert(targets@[k] == j);
                        assert(named_before(targets@, i + 1, j));
                    }
                }
            }
        }
        i = i + 1;
    }
    assert(targets@.subrange(0, targets@.len() as int) =~= targets@);
}

/// Adds a copy of every message of each source buffer, in order, to the target buffer.
/// A message at or past the window of the target is left out.
pub fn message_merge<T: Copy>(boxes: &mut Vec<MessageBuffer<T>>, target: usize, sources: &Vec<usize>)
    requires
        target < old(boxes)@.len(),
        all_below(sources@, old(boxes)@.len() as int),
        !named(sources@, target as int),
    ensures
        merged_box(old(boxes)@, final(boxes)@, target as int, sources@),
{
    let mut taken = MessageBuffer::new();
    core::mem::swap(&mut boxes[target], &mut taken);
    let ghost start = taken;
    let mut i: usize = 0;
    assert(views_of(old(boxes)@, sources@.subrange(0, 0)).len() == 0);
    while i < sources.len()
        invariant
            i <= sources.len(),
            target < old(boxes)@.len(),
            all_below(sources@, old(boxes)@.len() as int),
            !named(sources@, target as int),
            boxes@.len() == old(boxes)@.len(),
            forall|j: int| 0 <= j < old(boxes)@.len() && j != target ==> #[trigger] boxes@[j] == old(boxes)@[j],
            start == old(boxes)@[target as int],
            taken.window() == start.window(),
            taken@ == absorbed_all(
                start@,
                views_of(old(boxes)@, sources@.subrange(0, i as int)),
                start.window() as int,
            ),
        decreases sources.len() - i,
    {
        let s = sources[i];
        proof {
            if s == target {
                assert(sources@[i as int] == target);
                assert(named_before(sources@, sources@.len() as int, target as int));
            }
        }
        absorb(&mut taken, &boxes[s]);
        proof {
            let upto = views_of(old(boxes)@, sources@.subrange(0, i + 1));
            assert(upto.drop_last() =~= views_of(old(boxes)@, sources@.subrange(0, i as int)));
            assert(upto.last() == boxes@[s as int]@);
        }
        i = i + 1;
    }
    assert(sources@.subrange(0, sources@.len() as int) =~= sources@);
    core::mem::swap(&mut boxes[target], &mut taken);
}

} // verus!
