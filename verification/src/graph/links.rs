use crate::error::LinkError;
use crate::graph::schedule::{deps_in_range, is_order, lowest_first, respects, schedule};
use crate::graph::{distinct_names, find_name, name_views, Link, A_IN_NODE, A_OUT_NODE};
use crate::node::raw::NodeType;
use vstd::prelude::*;

verus! {

/// What the compiler reads of a node: its flavour and the arities it reported.
#[derive(Clone, Copy, Debug, PartialEq, Eq)]
pub struct Shape {
    pub kind: NodeType,
    pub audio_in: usize,
    pub message_out: usize,
}

/// Where an audio link starts: the graph's audio input, or a node.
#[derive(Clone, Copy, Debug, PartialEq, Eq)]
pub enum Source {
    Input,
    Node(usize),
}

/// Where an audio link ends: the graph's audio output, or a node.
#[derive(Clone, Copy, Debug, PartialEq, Eq)]
pub enum Target {
    Output,
    Node(usize),
}

/// The index of the node called `name`; only meaningful where there is one.
pub open spec fn index_of_name(names: Seq<Seq<char>>, name: Seq<char>) -> int {
    choose|k: int| 0 <= k < names.len() && names[k] == name
}

/// Why an audio link cannot start at `name`, if it cannot: the graph's
/// output and a control-message effect give no audio, and an unknown name
/// gives nothing.
pub open spec fn audio_source_fault(names: Seq<Seq<char>>, shapes: Seq<Shape>, name: String) -> Option<LinkError> {
    if name@ == A_IN_NODE@ {
        None
    } else if name@ == A_OUT_NODE@ {
        Some(LinkError::InvalidLinkSource(name))
    } else if !names.contains(name@) {
        Some(LinkError::UnknownName(name))
    } else if shapes[index_of_name(names, name@)].kind == NodeType::MidiEffect {
        Some(LinkError::InvalidLinkSource(name))
    } else {
        None
    }
}

/// Why an audio link cannot end at `name`, if it cannot: only the graph's
/// output and an audio effect with at least one input take audio.
pub open spec fn audio_target_fault(names: Seq<Seq<char>>, shapes: Seq<Shape>, name: String) -> Option<LinkError> {
    if name@ == A_OUT_NODE@ {
        None
    } else if name@ == A_IN_NODE@ {
        Some(LinkError::InvalidLinkTarget(name))
    } else if !names.contains(name@) {
        Some(LinkError::UnknownName(name))
    } else if !(shapes[index_of_name(names, name@)].kind == NodeType::AudioEffect && shapes[index_of_name(
        names,
        name@,
    )].audio_in >= 1) {
        Some(LinkError::InvalidLinkTarget(name))
    } else {
        None
    }
}

/// Why a message link cannot start at `name`, if it cannot: only a
/// control-message effect with at least one output gives messages.
pub open spec fn message_source_fault(names: Seq<Seq<char>>, shapes: Seq<Shape>, name: String) -> Option<LinkError> {
    if name@ == A_IN_NODE@ || name@ == A_OUT_NODE@ {
        Some(LinkError::InvalidLinkSource(name))
    } else if !names.contains(name@) {
        Some(LinkError::UnknownName(name))
    } else if !(shapes[index_of_name(names, name@)].kind == NodeType::MidiEffect && shapes[index_of_name(
        names,
        name@,
    )].message_out >= 1) {
        Some(LinkError::InvalidLinkSource(name))
    } else {
        None
    }
}

/// Why a message link cannot end at `name`, if it cannot: every node takes
/// messages, the graph's own audio ends do not.
pub open spec fn message_target_fault(names: Seq<Seq<char>>, name: String) -> Option<LinkError> {
    if name@ == A_IN_NODE@ || name@ == A_OUT_NODE@ {
        Some(LinkError::InvalidLinkTarget(name))
    } else if !names.contains(name@) {
        Some(LinkError::UnknownName(name))
    } else {
        None
    }
}

/// Link `i` joins the same two names as an earlier link of the list.
pub open spec fn repeats(links: Seq<Link>, i: int) -> bool {
    exists|j: int| 0 <= j < i && (#[trigger] links[j]).0@ == links[i].0@ && links[j].1@ == links[i].1@
}

/// The pair of nodes that the link orders, where both its ends are nodes.
pub open spec fn pair_of(names: Seq<Seq<char>>, link: Link) -> Option<(usize, usize)> {
    if names.contains(link.0@) && names.contains(link.1@) {
        Some((index_of_name(names, link.0@) as usize, index_of_name(names, link.1@) as usize))
    } else {
        None
    }
}

/// Wire `w` of a graph: its audio links come first, then its message links.
pub open spec fn wire(audio: Seq<Link>, message: Seq<Link>, w: int) -> Link {
    if w < audio.len() {
        audio[w]
    } else {
        message[w - audio.len()]
    }
}

/// The pairs of nodes that the first `w` wires order.
pub open spec fn deps_upto(names: Seq<Seq<char>>, audio: Seq<Link>, message: Seq<Link>, w: int) -> Seq<(usize, usize)>
    decreases w,
{
    if w <= 0 {
        Seq::empty()
    } else {
        let before = deps_upto(names, audio, message, w - 1);
        match pair_of(names, wire(audio, message, w - 1)) {
            Some(p) => before.push(p),
            None => before,
        }
    }
}

/// With `pair` added, the pairs allow no order of the `n` nodes: they form a cycle.
pub open spec fn closes_cycle(n: int, before: Seq<(usize, usize)>, pair: (usize, usize)) -> bool {
    forall|order: Seq<usize>| !(is_order(order, n) && #[trigger] respects(order, before.push(pair)))
}

/// Why wire `w` cannot be compiled, if it cannot, given that the wires
/// before it can. In this order: its start is no source, its end is no
/// target, it repeats an earlier link of its kind, it closes a cycle.
pub open spec fn wire_fault(
    names: Seq<Seq<char>>,
    shapes: Seq<Shape>,
    audio: Seq<Link>,
    message: Seq<Link>,
    w: int,
) -> Option<LinkError> {
    let link = wire(audio, message, w);
    let from_fault = if w < audio.len() {
        audio_source_fault(names, shapes, link.0)
    } else {
        message_source_fault(names, shapes, link.0)
    };
    let to_fault = if w < audio.len() {
        audio_target_fault(names, shapes, link.1)
    } else {
        message_target_fault(names, link.1)
    };
    let again = if w < audio.len() {
        repeats(audio, w)
    } else {
        repeats(message, w - audio.len())
    };
    if from_fault is Some {
        from_fault
    } else if to_fault is Some {
        to_fault
    } else if again {
        Some(LinkError::LinkedTarget(link.1))
    } else if pair_of(names, link) is Some && closes_cycle(
        names.len() as int,
        deps_upto(names, audio, message, w),
        pair_of(names, link)->0,
    ) {
        Some(LinkError::InvalidLinkTarget(link.1))
    } else {
        None
    }
}

/// Whether the name stands for the graph's audio input.
pub fn is_input(name: &String) -> (b: bool)
    ensures
        b == (name@ == A_IN_NODE@),
{
    let reserved = A_IN_NODE.to_owned();
    *name == reserved
}

/// Whether the name stands for the graph's audio output.
pub fn is_output(name: &String) -> (b: bool)
    ensures
        b == (name@ == A_OUT_NODE@),
{
    let reserved = A_OUT_NODE.to_owned();
    *name == reserved
}

/// With names that differ, the node that `find_name` finds is the one the contracts mean.
pub proof fn lemma_index_of_name(names: Seq<Seq<char>>, name: Seq<char>, k: int)
    requires
        distinct_names(names),
        0 <= k < names.len(),
        names[k] == name,
    ensures
        names.contains(name),
        index_of_name(names, name) == k,
{
    let c = index_of_name(names, name);
    if c < k {
        assert(names[c] != names[k]);
    } else if k < c {
        assert(names[k] != names[c]);
    }
}

/// Where an audio link that starts at `name` starts.
pub fn audio_source(names: &Vec<String>, shapes: &Vec<Shape>, name: &String) -> (r: Result<Source, LinkError>)
    requires
        distinct_names(name_views(names@)),
        shapes@.len() == names@.len(),
    ensures
        r matches Err(e) ==> audio_source_fault(name_views(names@), shapes@, *name) == Some(e),
        r matches Ok(s) ==> audio_source_fault(name_views(names@), shapes@, *name) is None && match s {
            Source::Input => name@ == A_IN_NODE@,
            Source::Node(k) => k < names@.len() && names@[k as int]@ == name@ && shapes@[k as int].kind
                != NodeType::MidiEffect && name_views(names@).contains(name@) && index_of_name(
                name_views(names@),
                name@,
            ) == k,
        },
{
    if is_input(name) {
        return Ok(Source::Input);
    }
    if is_output(name) {
        return Err(LinkError::InvalidLinkSource(name.clone()));
    }
    match find_name(names, name) {
        None => {
            assert(!name_views(names@).contains(name@)) by {
                if name_views(names@).contains(name@) {
                    let i = choose|i: int| 0 <= i < name_views(names@).len() && name_views(names@)[i] == name@;
                    assert(names@[i]@ == name@);
                }
            }
            Err(LinkError::UnknownName(name.clone()))
        },
        Some(k) => {
            proof {
                lemma_index_of_name(name_views(names@), name@, k as int);
            }
            match shapes[k].kind {
                NodeType::MidiEffect => Err(LinkError::InvalidLinkSource(name.clone())),
                _ => Ok(Source::Node(k)),
            }
        },
    }
}

/// Where an audio link that ends at `name` ends.
pub fn audio_target(names: &Vec<String>, shapes: &Vec<Shape>, name: &String) -> (r: Result<Target, LinkError>)
    requires
        distinct_names(name_views(names@)),
        shapes@.len() == names@.len(),
    ensures
        r matches Err(e) ==> audio_target_fault(name_views(names@), shapes@, *name) == Some(e),
        r matches Ok(t) ==> audio_target_fault(name_views(names@), shapes@, *name) is None && match t {
            Target::Output => name@ == A_OUT_NODE@,
            Target::Node(k) => k < names@.len() && names@[k as int]@ == name@ && shapes@[k as int].kind
                == NodeType::AudioEffect && shapes@[k as int].audio_in >= 1 && name_views(names@).contains(name@)
                && index_of_name(name_views(names@), name@) == k,
        },
{
    if is_output(name) {
        return Ok(Target::Output);
    }
    if is_input(name) {
        return Err(LinkError::InvalidLinkTarget(name.clone()));
    }
    match find_name(names, name) {
        None => {
            assert(!name_views(names@).contains(name@)) by {
                if name_views(names@).contains(name@) {
                    let i = choose|i: int| 0 <= i < name_views(names@).len() && name_views(names@)[i] == name@;
                    assert(names@[i]@ == name@);
                }
            }
            Err(LinkError::UnknownName(name.clone()))
        },
        Some(k) => {
            proof {
                lemma_index_of_name(name_views(names@), name@, k as int);
            }
            match shapes[k].kind {
                NodeType::AudioEffect => {
                    if shapes[k].audio_in >= 1 {
                        Ok(Target::Node(k))
                    } else {
                        Err(LinkError::InvalidLinkTarget(name.clone()))
                    }
                },
                _ => Err(LinkError::InvalidLinkTarget(name.clone())),
            }
        },
    }
}

/// The node that a message link that starts at `name` starts at.
pub fn message_source(names: &Vec<String>, shapes: &Vec<Shape>, name: &String) -> (r: Result<usize, LinkError>)
    requires
        distinct_names(name_views(names@)),
        shapes@.len() == names@.len(),
    ensures
        r matches Err(e) ==> message_source_fault(name_views(names@), shapes@, *name) == Some(e),
        r matches Ok(k) ==> message_source_fault(name_views(names@), shapes@, *name) is None && k < names@.len()
            && names@[k as int]@ == name@ && shapes@[k as int].kind == NodeType::MidiEffect && shapes@[k as int].message_out
            >= 1 && name_views(names@).contains(name@) && index_of_name(name_views(names@), name@) == k,
{
    if is_input(name) || is_output(name) {
        return Err(LinkError::InvalidLinkSource(name.clone()));
    }
    match find_name(names, name) {
        None => {
            assert(!name_views(names@).contains(name@)) by {
                if name_views(names@).contains(name@) {
                    let i = choose|i: int| 0 <= i < name_views(names@).len() && name_views(names@)[i] == name@;
                    assert(names@[i]@ == name@);
                }
            }
            Err(LinkError::UnknownName(name.clone()))
        },
        Some(k) => {
            proof {
                lemma_index_of_name(name_views(names@), name@, k as int);
            }
            match shapes[k].kind {
                NodeType::MidiEffect => {
                    if shapes[k].message_out >= 1 {
                        Ok(k)
                    } else {
                        Err(LinkError::InvalidLinkSource(name.clone()))
                    }
                },
                _ => Err(LinkError::InvalidLinkSource(name.clone())),
            }
        },
    }
}

/// The node that a message link that ends at `name` ends at.
pub fn message_target(names: &Vec<String>, name: &String) -> (r: Result<usize, LinkError>)
    requires
        distinct_names(name_views(names@)),
    ensures
        r matches Err(e) ==> message_target_fault(name_views(names@), *name) == Some(e),
        r matches Ok(k) ==> message_target_fault(name_views(names@), *name) is None && k < names@.len()
            && names@[k as int]@ == name@ && name_views(names@).contains(name@) && index_of_name(
            name_views(names@),
            name@,
        ) == k,
{
    if is_input(name) || is_output(name) {
        return Err(LinkError::InvalidLinkTarget(name.clone()));
    }
    match find_name(names, name) {
        None => {
            assert(!name_views(names@).contains(name@)) by {
                if name_views(names@).contains(name@) {
                    let i = choose|i: int| 0 <= i < name_views(names@).len() && name_views(names@)[i] == name@;
                    assert(names@[i]@ == name@);
                }
            }
            Err(LinkError::UnknownName(name.clone()))
        },
        Some(k) => {
            proof {
                lemma_index_of_name(name_views(names@), name@, k as int);
            }
            Ok(k)
        },
    }
}

/// Whether link `i` joins the same two names as an earlier link of the list.
pub fn is_repeat(links: &Vec<Link>, i: usize) -> (b: bool)
    requires
        i < links@.len(),
    ensures
        b == repeats(links@, i as int),
{
    let mut j: usize = 0;
    while j < i
        invariant
            j <= i,
            i < links@.len(),
            forall|e: int| 0 <= e < j ==> !((#[trigger] links@[e]).0@ == links@[i as int].0@ && links@[e].1@ == links@[i as int].1@),
        decreases i - j,
    {
        if links[j].0 == links[i].0 && links[j].1 == links[i].1 {
            return true;
        }
        j = j + 1;
    }
    false
}

/// The links of a graph, checked and resolved to nodes, with an order in
/// which the nodes can run.
#[derive(Debug)]
pub struct Wiring {
    /// For each audio link, where it starts and where it ends.
    pub audio: Vec<(Source, Target)>,
    /// For each message link, the node it starts at and the node it ends at.
    pub message: Vec<(usize, usize)>,
    /// The nodes, each once, every node after all that feed it.
    pub order: Vec<usize>,
}

/// Where the audio link starts and where it ends: the graph's own audio end
/// where it names one, the node of that name otherwise.
pub open spec fn resolved_audio(names: Seq<Seq<char>>, link: Link) -> (Source, Target) {
    (
        if link.0@ == A_IN_NODE@ {
            Source::Input
        } else {
            Source::Node(index_of_name(names, link.0@) as usize)
        },
        if link.1@ == A_OUT_NODE@ {
            Target::Output
        } else {
            Target::Node(index_of_name(names, link.1@) as usize)
        },
    )
}

/// The node that the message link starts at and the node that it ends at.
pub open spec fn resolved_message(names: Seq<Seq<char>>, link: Link) -> (usize, usize) {
    (index_of_name(names, link.0@) as usize, index_of_name(names, link.1@) as usize)
}

/// The resolved audio link names what the declared link names, and its ends
/// give and take audio.
pub open spec fn audio_resolved(names: Seq<Seq<char>>, shapes: Seq<Shape>, link: Link, edge: (Source, Target)) -> bool {
    &&& edge == resolved_audio(names, link)
    &&& match edge.0 {
        Source::Input => link.0@ == A_IN_NODE@,
        Source::Node(k) => k < names.len() && names[k as int] == link.0@ && shapes[k as int].kind
            != NodeType::MidiEffect,
    }
    &&& match edge.1 {
        Target::Output => link.1@ == A_OUT_NODE@,
        Target::Node(k) => k < names.len() && names[k as int] == link.1@ && shapes[k as int].kind
            == NodeType::AudioEffect,
    }
}

/// The resolved message link names what the declared link names, and it
/// starts at a control-message effect.
pub open spec fn message_resolved(names: Seq<Seq<char>>, shapes: Seq<Shape>, link: Link, edge: (usize, usize)) -> bool {
    &&& edge == resolved_message(names, link)
    &&& edge.0 < names.len()
    &&& names[edge.0 as int] == link.0@
    &&& shapes[edge.0 as int].kind == NodeType::MidiEffect
    &&& edge.1 < names.len()
    &&& names[edge.1 as int] == link.1@
}

/// No name is one of the two that stand for the graph's own audio ends.
pub open spec fn none_reserved(names: Seq<Seq<char>>) -> bool {
    forall|i: int| 0 <= i < names.len() ==> (#[trigger] names[i]) != A_IN_NODE@ && names[i] != A_OUT_NODE@
}

/// Checks the declared links one by one, audio links first, and resolves
/// them. The first link that cannot be compiled gives the error.
pub fn check_links(names: &Vec<String>, shapes: &Vec<Shape>, audio: &Vec<Link>, message: &Vec<Link>) -> (r: Result<
    Wiring,
    LinkError,
>)
    requires
        distinct_names(name_views(names@)),
        none_reserved(name_views(names@)),
        shapes@.len() == names@.len(),
    ensures
        r matches Err(e) ==> exists|w: int|
            0 <= w < audio@.len() + message@.len() && #[trigger] wire_fault(
                name_views(names@),
                shapes@,
                audio@,
                message@,
                w,
            ) == Some(e) && forall|v: int|
                0 <= v < w ==> #[trigger] wire_fault(name_views(names@), shapes@, audio@, message@, v) is None,
        r matches Ok(wiring) ==> {
            &&& forall|v: int|
                0 <= v < audio@.len() + message@.len() ==> #[trigger] wire_fault(
                    name_views(names@),
                    shapes@,
                    audio@,
                    message@,
                    v,
                ) is None
            &&& wiring.audio@.len() == audio@.len()
            &&& forall|i: int|
                0 <= i < audio@.len() ==> audio_resolved(
                    name_views(names@),
                    shapes@,
                    audio@[i],
                    #[trigger] wiring.audio@[i],
                )
            &&& wiring.message@.len() == message@.len()
            &&& forall|i: int|
                0 <= i < message@.len() ==> message_resolved(
                    name_views(names@),
                    shapes@,
                    message@[i],
                    #[trigger] wiring.message@[i],
                )
            &&& is_order(wiring.order@, names@.len() as int)
            &&& respects(
                wiring.order@,
                deps_upto(name_views(names@), audio@, message@, (audio@.len() + message@.len()) as int),
            )
            &&& lowest_first(
                wiring.order@,
                deps_upto(name_views(names@), audio@, message@, (audio@.len() + message@.len()) as int),
            )
        },
{
    let n = names.len();
    let ghost nv = name_views(names@);
    let mut deps: Vec<(usize, usize)> = Vec::new();
    let mut order: Vec<usize> = match schedule(n, &deps) {
        Some(o) => o,
        None => {
            proof {
                let id = Seq::new(n as nat, |i: int| i as usize);
                assert(is_order(id, n as int));
                assert(respects(id, deps@));
            }
            Vec::new()
        },
    };
    let mut wired_audio: Vec<(Source, Target)> = Vec::new();
    let mut i: usize = 0;
    while i < audio.len()
        invariant
            i <= audio@.len(),
            n == names@.len(),
            nv == name_views(names@),
            distinct_names(nv),
            none_reserved(nv),
            shapes@.len() == names@.len(),
            deps@ == deps_upto(nv, audio@, message@, i as int),
            deps_in_range(deps@, n as int),
            is_order(order@, n as int),
            respects(order@, deps@),
            lowest_first(order@, deps@),
            forall|v: int| 0 <= v < i ==> #[trigger] wire_fault(nv, shapes@, audio@, message@, v) is None,
            wired_audio@.len() == i,
            forall|k: int| 0 <= k < i ==> audio_resolved(nv, shapes@, audio@[k], #[trigger] wired_audio@[k]),
        decreases audio.len() - i,
    {
        let link = &audio[i];
        assert(wire(audio@, message@, i as int) == audio@[i as int]);
        let from = match audio_source(names, shapes, &link.0) {
            Ok(s) => s,
            Err(e) => {
                assert(wire_fault(nv, shapes@, audio@, message@, i as int) == Some(e));
                return Err(e);
            },
        };
        let to = match audio_target(names, shapes, &link.1) {
            Ok(t) => t,
            Err(e) => {
                assert(wire_fault(nv, shapes@, audio@, message@, i as int) == Some(e));
                return Err(e);
            },
        };
        if is_repeat(audio, i) {
            let e = LinkError::LinkedTarget(link.1.clone());
            assert(wire_fault(nv, shapes@, audio@, message@, i as int) == Some(e));
            return Err(e);
        }
        match (from, to) {
            (Source::Node(a), Target::Node(b)) => {
                assert(pair_of(nv, audio@[i as int]) == Some((a, b)));
                deps.push((a, b));
                match schedule(n, &deps) {
                    Some(o) => {
                        order = o;
                        assert(!closes_cycle(n as int, deps_upto(nv, audio@, message@, i as int), (a, b)));
                    },
                    None => {
                        let e = LinkError::InvalidLinkTarget(link.1.clone());
                        assert(wire_fault(nv, shapes@, audio@, message@, i as int) == Some(e));
                        return Err(e);
                    },
                }
            },
            _ => {
                assert(pair_of(nv, audio@[i as int]) is None) by {
                    if nv.contains(link.0@) && nv.contains(link.1@) {
                        let x = choose|x: int| 0 <= x < nv.len() && nv[x] == link.0@;
                        let y = choose|y: int| 0 <= y < nv.len() && nv[y] == link.1@;
                        assert(nv[x] != A_IN_NODE@);
                        assert(nv[y] != A_OUT_NODE@);
                    }
                }
            },
        }
        assert(wire_fault(nv, shapes@, audio@, message@, i as int) is None);
        wired_audio.push((from, to));
        i = i + 1;
    }
    let mut wired_message: Vec<(usize, usize)> = Vec::new();
    let mut j: usize = 0;
    while j < message.len()
        invariant
            j <= message@.len(),
            n == names@.len(),
            nv == name_views(names@),
            distinct_names(nv),
            none_reserved(nv),
            shapes@.len() == names@.len(),
            deps@ == deps_upto(nv, audio@, message@, (audio@.len() + j) as int),
            deps_in_range(deps@, n as int),
            is_order(order@, n as int),
            respects(order@, deps@),
            lowest_first(order@, deps@),
            forall|v: int| 0 <= v < audio@.len() + j ==> #[trigger] wire_fault(nv, shapes@, audio@, message@, v) is None,
            wired_audio@.len() == audio@.len(),
            forall|k: int| 0 <= k < audio@.len() ==> audio_resolved(nv, shapes@, audio@[k], #[trigger] wired_audio@[k]),
            wired_message@.len() == j,
            forall|k: int| 0 <= k < j ==> message_resolved(nv, shapes@, message@[k], #[trigger] wired_message@[k]),
        decreases message.len() - j,
    {
        let link = &message[j];
        let ghost w = (audio@.len() + j) as int;
        assert(wire(audio@, message@, w) == message@[j as int]);
        let a = match message_source(names, shapes, &link.0) {
            Ok(k) => k,
            Err(e) => {
                assert(wire_fault(nv, shapes@, audio@, message@, w) == Some(e));
                return Err(e);
            },
        };
        let b = match message_target(names, &link.1) {
            Ok(k) => k,
            Err(e) => {
                assert(wire_fault(nv, shapes@, audio@, message@, w) == Some(e));
                return Err(e);
            },
        };
        if is_repeat(message, j) {
            let e = LinkError::LinkedTarget(link.1.clone());
            assert(wire_fault(nv, shapes@, audio@, message@, w) == Some(e));
            return Err(e);
        }
        assert(pair_of(nv, message@[j as int]) == Some((a, b)));
        deps.push((a, b));
        match schedule(n, &deps) {
            Some(o) => {
                order = o;
                assert(!closes_cycle(n as int, deps_upto(nv, audio@, message@, w), (a, b)));
                assert(wire_fault(nv, shapes@, audio@, message@, w) is None);
            },
            None => {
                let e = LinkError::InvalidLinkTarget(link.1.clone());
                assert(wire_fault(nv, shapes@, audio@, message@, w) == Some(e));
                return Err(e);
            },
        }
        wired_message.push((a, b));
        j = j + 1;
    }
    Ok(Wiring { audio: wired_audio, message: wired_message, order })
}

} // verus!
