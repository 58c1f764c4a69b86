use crate::buffer::audio::{frames_of, AudioBuffer, AudioBufferMut, AudioBufferRef};
use crate::buffer::message::MessageBuffer;
use crate::error::{GraphError, GraphResult};
use crate::graph::audio_ops::{
    audio_clone, audio_from_input, audio_merge, audio_to_output, audio_zeros, rings_ready, same_rings,
};
use crate::graph::compile::{
    box_total, build, first_fault, fresh_box, fresh_ring, reads_input, resolve_audio, ring_total, runs_in_order,
    shape_kinds,
};
use crate::graph::links::{wire_fault, Shape};
use crate::graph::message_ops::{message_clone, message_from_input, message_merge, message_zeros};
use crate::graph::links::{index_of_name, lemma_index_of_name};
use crate::graph::run::{block_trace, first_naming, moved_on, op_wf, ran, run_node, BlockState};
use crate::node::raw::{AudioEffectNode, AudioSourceNode, MidiEffectNode, NodeType, RawDesc, RawNode};
use crate::player::PlayHead;
use crate::sample::Sample;
use vstd::prelude::*;

pub mod audio_ops;
pub mod compile;
pub mod links;
pub mod message_ops;
pub mod run;
pub mod schedule;

verus! {

/// The name that stands for the graph's audio output in a link.
pub const A_OUT_NODE: &'static str = "A_OUT_NODE";

/// The name that stands for the graph's audio input in a link.
pub const A_IN_NODE: &'static str = "A_IN_NODE";

/// The number of frames that every ring of a graph holds, and so the longest
/// block that a graph can process.
pub const MAX_BLOCK_FRAMES: usize = 4096;

/// A declared edge from the node called `.0` to the node called `.1`.
#[derive(Debug, PartialEq, Eq)]
pub struct Link(pub String, pub String);

/// One step of a compiled graph. The numbers are indices of the graph's rings
/// (for audio) and message buffers (for messages).
#[derive(Debug, PartialEq, Eq)]
pub enum Operation {
    /// Clear the window of each ring.
    AudioZeros(Vec<usize>),
    /// Copy the graph's audio input into each ring.
    AudioFromInput(Vec<usize>),
    /// Mix each ring into the graph's audio output.
    AudioToOutput(Vec<usize>),
    /// Overwrite each target ring with the source ring.
    AudioClone(usize, Vec<usize>),
    /// Mix each source ring into the target ring.
    AudioMerge(usize, Vec<usize>),
    /// Empty each buffer for the block.
    MessageZeros(Vec<usize>),
    /// Deliver to each buffer the input messages addressed to the node named with it.
    MessageFromInput(Vec<(usize, String)>),
    /// Add the messages of the source buffer to each target buffer.
    MessageClone(usize, Vec<usize>),
    /// Add the messages of each source buffer to the target buffer.
    MessageMerge(usize, Vec<usize>),
    /// Run the named node: audio inputs, audio outputs, message input, message outputs.
    Process(String, Vec<usize>, Vec<usize>, usize, Vec<usize>),
}

/// The name is one of the two that stand for the graph's own audio ends.
pub open spec fn reserved(name: Seq<char>) -> bool {
    name == A_OUT_NODE@ || name == A_IN_NODE@
}

/// The text of each name.
pub open spec fn name_views(names: Seq<String>) -> Seq<Seq<char>> {
    Seq::new(names.len(), |i: int| names[i]@)
}

/// The flavour of each node.
pub open spec fn node_kinds<T: Sample>(nodes: Seq<RawNode<T>>) -> Seq<NodeType> {
    Seq::new(nodes.len(), |i: int| nodes[i].kind())
}

/// No two names are the same text.
pub open spec fn distinct_names(names: Seq<Seq<char>>) -> bool {
    forall|i: int, j: int| 0 <= i < j < names.len() ==> names[i] != names[j]
}

/// A named set of nodes with the links declared between them and, once it is
/// prepared, the rings, message buffers and steps that run a block.
#[verifier::reject_recursive_types(T)]
pub struct Graph<T: Sample> {
    name: String,
    nodes: Vec<RawNode<T>>,
    node_names: Vec<String>,
    node_descs: Vec<RawDesc<T>>,
    audio_buffers: Vec<AudioBuffer<T>>,
    message_buffers: Vec<MessageBuffer<T>>,
    sequences: Vec<Operation>,
    audio_links: Vec<Link>,
    message_links: Vec<Link>,
}

impl<T: Sample> Graph<T> {
    /// The graph's own name.
    pub closed spec fn title(&self) -> Seq<char> {
        self.name@
    }

    /// The names of the registered nodes, in the order of registration.
    pub closed spec fn names(&self) -> Seq<Seq<char>> {
        name_views(self.node_names@)
    }

    /// The registered nodes, in the order of registration.
    pub closed spec fn nodes(&self) -> Seq<RawNode<T>> {
        self.nodes@
    }

    /// What each node reported when it was last prepared.
    pub closed spec fn descs(&self) -> Seq<RawDesc<T>> {
        self.node_descs@
    }

    /// The flavours of the registered nodes, in the order of registration.
    pub open spec fn kinds(&self) -> Seq<NodeType> {
        node_kinds(self.nodes())
    }

    /// The graph's rings.
    pub closed spec fn rings(&self) -> Seq<AudioBuffer<T>> {
        self.audio_buffers@
    }

    /// The graph's message buffers.
    pub closed spec fn boxes(&self) -> Seq<MessageBuffer<T>> {
        self.message_buffers@
    }

    /// The steps that run a block, in order.
    pub closed spec fn ops(&self) -> Seq<Operation> {
        self.sequences@
    }

    /// The declared audio links, in the order of declaration.
    pub closed spec fn audio_edges(&self) -> Seq<Link> {
        self.audio_links@
    }

    /// The declared message links, in the order of declaration.
    pub closed spec fn message_edges(&self) -> Seq<Link> {
        self.message_links@
    }

    /// Every node has a name of its own that is not reserved, every ring is
    /// well formed and holds `MAX_BLOCK_FRAMES` frames, and every step can run.
    pub open spec fn wf(&self) -> bool {
        &&& self.names().len() == self.kinds().len()
        &&& distinct_names(self.names())
        &&& forall|i: int| 0 <= i < self.names().len() ==> !reserved(#[trigger] self.names()[i])
        &&& forall|i: int|
            0 <= i < self.rings().len() ==> (#[trigger] self.rings()[i]).wf() && self.rings()[i].capacity()
                == MAX_BLOCK_FRAMES
        &&& forall|i: int|
            0 <= i < self.ops().len() ==> op_wf(
                #[trigger] self.ops()[i],
                self.rings().len() as int,
                self.boxes().len() as int,
                self.names(),
                self.kinds(),
            )
    }

    /// An empty graph called `name`.
    pub fn new(name: &str) -> (g: Self)
        ensures
            g.wf(),
            g.title() == name@,
            g.names().len() == 0,
            g.rings().len() == 0,
            g.boxes().len() == 0,
            g.ops().len() == 0,
            g.audio_edges().len() == 0,
            g.message_edges().len() == 0,
    {
        Graph {
            name: name.to_owned(),
            nodes: Vec::new(),
            node_names: Vec::new(),
            node_descs: Vec::new(),
            audio_buffers: Vec::new(),
            message_buffers: Vec::new(),
            sequences: Vec::new(),
            audio_links: Vec::new(),
            message_links: Vec::new(),
        }
    }

    /// The index of the node called `name`, if there is one.
    pub fn find(&self, name: &String) -> (r: Option<usize>)
        ensures
            r matches Some(k) ==> k < self.names().len() && self.names()[k as int] == name@,
            r is None ==> !self.names().contains(name@),
    {
        find_name(&self.node_names, name)
    }

    /// Registers `node` under `name`. A reserved name and a name that is
    /// taken are refused, and the graph stays as it is.
    pub fn register(&mut self, name: String, node: RawNode<T>) -> (r: GraphResult<()>)
        requires
            old(self).wf(),
        ensures
            final(self).wf(),
            reserved(name@) ==> r == Err::<(), GraphError>(GraphError::ReservedName(name)),
            !reserved(name@) && old(self).names().contains(name@) ==> r == Err::<(), GraphError>(
                GraphError::RepeatedName(name),
            ),
            !reserved(name@) && !old(self).names().contains(name@) ==> r is Ok,
            r is Err ==> *final(self) == *old(self),
            r is Ok ==> {
                &&& final(self).names() == old(self).names().push(name@)
                &&& final(self).kinds() == old(self).kinds().push(node.kind())
                &&& final(self).nodes() == old(self).nodes().push(node)
                &&& final(self).rings() == old(self).rings()
                &&& final(self).boxes() == old(self).boxes()
                &&& final(self).ops() == old(self).ops()
                &&& final(self).audio_edges() == old(self).audio_edges()
                &&& final(self).message_edges() == old(self).message_edges()
            },
    {
        if is_reserved(&name) {
            return Err(GraphError::ReservedName(name));
        }
        match self.find(&name) {
            Some(k) => {
                assert(old(self).names()[k as int] == name@);
                return Err(GraphError::RepeatedName(name));
            },
            None => {},
        }
        let ghost names_before = self.names();
        let ghost kinds_before = self.kinds();
        self.node_names.push(name);
        self.nodes.push(node);
        proof {
            assert(self.names() =~= names_before.push(name@));
            assert(self.kinds() =~= kinds_before.push(node.kind()));
            assert(self.ops() == old(self).ops());
            assert(self.rings() == old(self).rings());
            assert(self.boxes() == old(self).boxes());
            assert(names_before == old(self).names());
            assert(kinds_before == old(self).kinds());
            assert forall|i: int, j: int| 0 <= i < j < self.names().len() implies self.names()[i] != self.names()[j] by {
                if j == names_before.len() {
                    assert(names_before[i] != name@) by {
                        if names_before[i] == name@ {
                            assert(names_before.contains(name@));
                        }
                    }
                }
            }
            assert forall|i: int| 0 <= i < self.ops().len() implies op_wf(
                #[trigger] self.ops()[i],
                self.rings().len() as int,
                self.boxes().len() as int,
                self.names(),
                self.kinds(),
            ) by {
                lemma_op_wf_grows(
                    self.ops()[i],
                    self.rings().len() as int,
                    self.boxes().len() as int,
                    names_before,
                    kinds_before,
                    name@,
                    node.kind(),
                );
            }
        }
        Ok(())
    }

    /// Registers an audio source under the name that its own `name` returns. A
    /// reserved name and a name that is taken are refused, and the graph stays
    /// as it is.
    pub fn add_audio_source<N: AudioSourceNode<T> + 'static>(&mut self, node: N) -> (r: GraphResult<()>)
        requires
            old(self).wf(),
        ensures
            final(self).wf(),
            r is Err ==> *final(self) == *old(self),
            r matches Err(e) ==> (e matches GraphError::ReservedName(n) && reserved(n@)) || (e matches GraphError::RepeatedName(
                n,
            ) && old(self).names().contains(n@)),
            r is Ok ==> {
                &&& final(self).names().len() == old(self).names().len() + 1
                &&& final(self).names().drop_last() == old(self).names()
                &&& final(self).kinds() == old(self).kinds().push(NodeType::AudioSource)
                &&& final(self).ops() == old(self).ops()
            },
            exists|name: String|
                {
                    &&& #[trigger] call_ensures(
                        RawNode::<T>::name,
                        (&RawNode::<T>::AudioSource(Box::new(node)),),
                        name,
                    )
                    &&& reserved(name@) ==> r == Err::<(), GraphError>(GraphError::ReservedName(name))
                    &&& !reserved(name@) && old(self).names().contains(name@) ==> r == Err::<(), GraphError>(
                        GraphError::RepeatedName(name),
                    )
                    &&& !reserved(name@) && !old(self).names().contains(name@) ==> r is Ok && final(self).names()
                        == old(self).names().push(name@) && final(self).nodes() == old(self).nodes().push(
                        RawNode::<T>::AudioSource(Box::new(node)),
                    )
                },
    {
        let raw = RawNode::with_audio_source(node);
        let name = raw.name();
        let ghost before = self.names();
        let r = self.register(name, raw);
        proof {
            if r is Ok {
                assert(before.push(name@).drop_last() =~= before);
            }
        }
        r
    }

    /// Registers an audio effect under the name that its own `name` returns. A
    /// reserved name and a name that is taken are refused, and the graph stays
    /// as it is.
    pub fn add_audio_effect<N: AudioEffectNode<T> + 'static>(&mut self, node: N) -> (r: GraphResult<()>)
        requires
            old(self).wf(),
        ensures
            final(self).wf(),
            r is Err ==> *final(self) == *old(self),
            r matches Err(e) ==> (e matches GraphError::ReservedName(n) && reserved(n@)) || (e matches GraphError::RepeatedName(
                n,
            ) && old(self).names().contains(n@)),
            r is Ok ==> {
                &&& final(self).names().len() == old(self).names().len() + 1
                &&& final(self).names().drop_last() == old(self).names()
                &&& final(self).kinds() == old(self).kinds().push(NodeType::AudioEffect)
                &&& final(self).ops() == old(self).ops()
            },
            exists|name: String|
                {
                    &&& #[trigger] call_ensures(
                        RawNode::<T>::name,
                        (&RawNode::<T>::AudioEffect(Box::new(node)),),
                        name,
                    )
                    &&& reserved(name@) ==> r == Err::<(), GraphError>(GraphError::ReservedName(name))
                    &&& !reserved(name@) && old(self).names().contains(name@) ==> r == Err::<(), GraphError>(
                        GraphError::RepeatedName(name),
                    )
                    &&& !reserved(name@) && !old(self).names().contains(name@) ==> r is Ok && final(self).names()
                        == old(self).names().push(name@) && final(self).nodes() == old(self).nodes().push(
                        RawNode::<T>::AudioEffect(Box::new(node)),
                    )
                },
    {
        let raw = RawNode::with_audio_effect(node);
        let name = raw.name();
        let ghost before = self.names();
        let r = self.register(name, raw);
        proof {
            if r is Ok {
                assert(before.push(name@).drop_last() =~= before);
            }
        }
        r
    }

    /// Registers a control-message effect under the name that its own `name` returns. A
    /// reserved name and a name that is taken are refused, and the graph stays
    /// as it is.
    pub fn add_midi_effect<N: MidiEffectNode<T> + 'static>(&mut self, node: N) -> (r: GraphResult<()>)
        requires
            old(self).wf(),
        ensures
            final(self).wf(),
            r is Err ==> *final(self) == *old(self),
            r matches Err(e) ==> (e matches GraphError::ReservedName(n) && reserved(n@)) || (e matches GraphError::RepeatedName(
                n,
            ) && old(self).names().contains(n@)),
            r is Ok ==> {
                &&& final(self).names().len() == old(self).names().len() + 1
                &&& final(self).names().drop_last() == old(self).names()
                &&& final(self).kinds() == old(self).kinds().push(NodeType::MidiEffect)
                &&& final(self).ops() == old(self).ops()
            },
            exists|name: String|
                {
                    &&& #[trigger] call_ensures(
                        RawNode::<T>::name,
                        (&RawNode::<T>::MidiEffect(Box::new(node)),),
                        name,
                    )
                    &&& reserved(name@) ==> r == Err::<(), GraphError>(GraphError::ReservedName(name))
                    &&& !reserved(name@) && old(self).names().contains(name@) ==> r == Err::<(), GraphError>(
                        GraphError::RepeatedName(name),
                    )
                    &&& !reserved(name@) && !old(self).names().contains(name@) ==> r is Ok && final(self).names()
                        == old(self).names().push(name@) && final(self).nodes() == old(self).nodes().push(
                        RawNode::<T>::MidiEffect(Box::new(node)),
                    )
                },
    {
        let raw = RawNode::with_midi_effect(node);
        let name = raw.name();
        let ghost before = self.names();
        let r = self.register(name, raw);
        proof {
            if r is Ok {
                assert(before.push(name@).drop_last() =~= before);
            }
        }
        r
    }

    /// Declares an audio link from the node called `from` to the node called
    /// `to`. Links are checked when the graph is prepared.
    pub fn add_audio_link(&mut self, from: &str, to: &str)
        ensures
            final(self).audio_edges().len() == old(self).audio_edges().len() + 1,
            final(self).audio_edges().drop_last() == old(self).audio_edges(),
            final(self).audio_edges().last().0@ == from@,
            final(self).audio_edges().last().1@ == to@,
            final(self).message_edges() == old(self).message_edges(),
            final(self).names() == old(self).names(),
            final(self).kinds() == old(self).kinds(),
            final(self).rings() == old(self).rings(),
            final(self).boxes() == old(self).boxes(),
            final(self).ops() == old(self).ops(),
    {
        let ghost before = self.audio_links@;
        self.audio_links.push(Link(from.to_owned(), to.to_owned()));
        assert(self.audio_links@.drop_last() =~= before);
    }

    /// Declares a message link from the node called `from` to the node called
    /// `to`. Links are checked when the graph is prepared.
    pub fn add_message_link(&mut self, from: &str, to: &str)
        ensures
            final(self).message_edges().len() == old(self).message_edges().len() + 1,
            final(self).message_edges().drop_last() == old(self).message_edges(),
            final(self).message_edges().last().0@ == from@,
            final(self).message_edges().last().1@ == to@,
            final(self).audio_edges() == old(self).audio_edges(),
            final(self).names() == old(self).names(),
            final(self).kinds() == old(self).kinds(),
            final(self).rings() == old(self).rings(),
            final(self).boxes() == old(self).boxes(),
            final(self).ops() == old(self).ops(),
    {
        let ghost before = self.message_links@;
        self.message_links.push(Link(from.to_owned(), to.to_owned()));
        assert(self.message_links@.drop_last() =~= before);
    }

    /// The graph's own name.
    pub fn name(&self) -> (n: &String)
        ensures
            n@ == self.title(),
    {
        &self.name
    }

    /// The names of the registered nodes, in the order of registration.
    pub fn node_names(&self) -> (names: &Vec<String>)
        ensures
            name_views(names@) == self.names(),
    {
        &self.node_names
    }

    /// The number of registered nodes.
    pub fn node_count(&self) -> (n: usize)
        ensures
            n == self.kinds().len(),
    {
        proof {
            assert(self.kinds().len() == self.nodes@.len());
        }
        self.nodes.len()
    }

    /// The graph's rings.
    pub fn audio_buffers(&self) -> (rings: &Vec<AudioBuffer<T>>)
        ensures
            rings@ == self.rings(),
    {
        &self.audio_buffers
    }

    /// The graph's message buffers.
    pub fn message_buffers(&self) -> (boxes: &Vec<MessageBuffer<T>>)
        ensures
            boxes@ == self.boxes(),
    {
        &self.message_buffers
    }

    /// The steps that run a block, in order.
    pub fn operations(&self) -> (ops: &Vec<Operation>)
        ensures
            ops@ == self.ops(),
    {
        &self.sequences
    }

    /// Whether every node has reported its arities since it was registered.
    pub open spec fn described(&self) -> bool {
        self.descs().len() == self.nodes().len()
    }

    /// The flavour and the reported arities of each node; only meaningful
    /// once every node has reported them.
    pub open spec fn shapes(&self) -> Seq<Shape> {
        Seq::new(
            self.nodes().len(),
            |i: int|
                Shape {
                    kind: self.nodes()[i].kind(),
                    audio_in: self.descs()[i].audio_in,
                    message_out: self.descs()[i].message_out,
                },
        )
    }

    /// Prepares every node for `sample_rate`, each once and in the order of
    /// registration, and keeps what each reports.
    pub fn describe(&mut self, sample_rate: u32)
        requires
            old(self).wf(),
        ensures
            final(self).wf(),
            final(self).described(),
            final(self).nodes().len() == old(self).nodes().len(),
            forall|i: int|
                0 <= i < old(self).nodes().len() ==> (#[trigger] final(self).nodes()[i]).kind()
                    == old(self).nodes()[i].kind() && exists|m: &mut RawNode<T>, d: RawDesc<T>|
                    *m == old(self).nodes()[i] && *final(m) == final(self).nodes()[i] && #[trigger] call_ensures(
                        RawNode::<T>::prepare,
                        (m, sample_rate),
                        d,
                    ) && final(self).descs()[i] == d,
            final(self).title() == old(self).title(),
            final(self).names() == old(self).names(),
            final(self).kinds() == old(self).kinds(),
            final(self).rings() == old(self).rings(),
            final(self).boxes() == old(self).boxes(),
            final(self).ops() == old(self).ops(),
            final(self).audio_edges() == old(self).audio_edges(),
            final(self).message_edges() == old(self).message_edges(),
    {
        let n = self.nodes.len();
        let mut descs: Vec<RawDesc<T>> = Vec::new();
        let mut i: usize = 0;
        while i < n
            invariant
                i <= n,
                n == self.nodes@.len(),
                n == old(self).nodes@.len(),
                descs@.len() == i,
                forall|k: int| i <= k < n ==> #[trigger] self.nodes@[k] == old(self).nodes@[k],
                forall|k: int|
                    #![trigger old(self).nodes@[k]]
                    0 <= k < i ==> exists|m: &mut RawNode<T>, d: RawDesc<T>|
                        *m == old(self).nodes@[k] && *final(m) == self.nodes@[k] && #[trigger] call_ensures(
                            RawNode::<T>::prepare,
                            (m, sample_rate),
                            d,
                        ) && descs@[k] == d,
                self.kinds() == old(self).kinds(),
                self.name == old(self).name,
                self.node_names@ == old(self).node_names@,
                self.audio_buffers@ == old(self).audio_buffers@,
                self.message_buffers@ == old(self).message_buffers@,
                self.sequences@ == old(self).sequences@,
                self.audio_links@ == old(self).audio_links@,
                self.message_links@ == old(self).message_links@,
            decreases n - i,
        {
            let ghost kinds_before = self.kinds();
            let desc = self.nodes[i].prepare(sample_rate);
            assert(self.kinds() =~= kinds_before);
            descs.push(desc);
            i = i + 1;
        }
        self.node_descs = descs;
        proof {
            assert forall|i: int| 0 <= i < old(self).nodes().len() implies (#[trigger] final(self).nodes()[i]).kind()
                == old(self).nodes()[i].kind() && exists|m: &mut RawNode<T>, d: RawDesc<T>|
                *m == old(self).nodes()[i] && *final(m) == final(self).nodes()[i] && #[trigger] call_ensures(
                    RawNode::<T>::prepare,
                    (m, sample_rate),
                    d,
                ) && final(self).descs()[i] == d by {
                assert(self.kinds()[i] == old(self).kinds()[i]);
                let (m, d) = choose|m: &mut RawNode<T>, d: RawDesc<T>|
                    *m == old(self).nodes@[i] && *final(m) == self.nodes@[i] && #[trigger] call_ensures(
                        RawNode::<T>::prepare,
                        (m, sample_rate),
                        d,
                    ) && descs@[i] == d;
                assert(self.descs()[i] == d);
            }
            assert(self.names() == old(self).names());
            assert(self.ops() == old(self).ops());
            assert forall|k: int| 0 <= k < self.ops().len() implies op_wf(
                #[trigger] self.ops()[k],
                self.rings().len() as int,
                self.boxes().len() as int,
                self.names(),
                self.kinds(),
            ) by {
                assert(op_wf(
                    old(self).ops()[k],
                    old(self).rings().len() as int,
                    old(self).boxes().len() as int,
                    old(self).names(),
                    old(self).kinds(),
                ));
            }
            assert forall|k: int| 0 <= k < self.rings().len() implies (#[trigger] self.rings()[k]).wf()
                && self.rings()[k].capacity() == MAX_BLOCK_FRAMES by {
                assert(old(self).rings()[k].wf());
            }
        }
    }

    /// The flavour and the reported arities of each node.
    pub fn node_shapes(&self) -> (shapes: Vec<Shape>)
        requires
            self.described(),
        ensures
            shapes@ == self.shapes(),
    {
        let n = self.nodes.len();
        let mut shapes: Vec<Shape> = Vec::new();
        let mut i: usize = 0;
        while i < n
            invariant
                i <= n,
                n == self.nodes@.len(),
                n == self.node_descs@.len(),
                shapes@.len() == i,
                forall|k: int| 0 <= k < i ==> #[trigger] shapes@[k] == self.shapes()[k],
            decreases n - i,
        {
            shapes.push(
                Shape {
                    kind: self.nodes[i].node_type(),
                    audio_in: self.node_descs[i].audio_in,
                    message_out: self.node_descs[i].message_out,
                },
            );
            i = i + 1;
        }
        assert(shapes@ =~= self.shapes());
        shapes
    }

    /// Compiles the declared links into rings, message buffers and steps,
    /// from the arities that the nodes reported. Links are checked in the
    /// order of declaration, audio links first; the first that cannot be
    /// compiled gives the error, and the graph is left without steps.
    ///
    /// Every node that gives audio gets a ring to write, and every audio
    /// effect an input ring: before the effect runs, a lone feeder's ring is
    /// copied into it and several feeders' rings are mixed into it; an effect
    /// with several inputs reads that ring on each.
    /// Every node gets a message buffer for the input messages addressed to
    /// it, to which the messages of every output of each node linked to it
    /// are added before it runs. The nodes run in an order in which each
    /// comes after all that feed it; of the nodes that can run next, the one
    /// registered first does.
    pub fn compile(&mut self) -> (r: GraphResult<()>)
        requires
            old(self).wf(),
            old(self).described(),
        ensures
            final(self).wf(),
            final(self).described(),
            final(self).title() == old(self).title(),
            final(self).names() == old(self).names(),
            final(self).kinds() == old(self).kinds(),
            final(self).nodes() == old(self).nodes(),
            final(self).descs() == old(self).descs(),
            final(self).shapes() == old(self).shapes(),
            final(self).audio_edges() == old(self).audio_edges(),
            final(self).message_edges() == old(self).message_edges(),
            r matches Err(e) ==> {
                &&& final(self).ops().len() == 0
                &&& final(self).rings().len() == 0
                &&& final(self).boxes().len() == 0
                &&& e matches GraphError::LinkError(fault) && exists|w: int| #[trigger]
                    first_fault(
                        old(self).names(),
                        old(self).shapes(),
                        old(self).audio_edges(),
                        old(self).message_edges(),
                        w,
                        fault,
                    )
            },
            r is Ok ==> {
                &&& forall|w: int|
                    0 <= w < old(self).audio_edges().len() + old(self).message_edges().len() ==> #[trigger] wire_fault(
                        old(self).names(),
                        old(self).shapes(),
                        old(self).audio_edges(),
                        old(self).message_edges(),
                        w,
                    ) is None
                &&& runs_in_order(
                    final(self).ops(),
                    old(self).names(),
                    old(self).shapes(),
                    old(self).audio_edges(),
                    old(self).message_edges(),
                )
                &&& final(self).rings().len() == ring_total(
                    old(self).shapes(),
                    reads_input(resolve_audio(old(self).names(), old(self).audio_edges())),
                )
                &&& final(self).boxes().len() == box_total(old(self).shapes())
                &&& forall|i: int| 0 <= i < final(self).rings().len() ==> fresh_ring(#[trigger] final(self).rings()[i])
                &&& forall|i: int| 0 <= i < final(self).boxes().len() ==> fresh_box(#[trigger] final(self).boxes()[i])
            },
    {
        let shapes = self.node_shapes();
        assert(shape_kinds(shapes@) =~= self.kinds());
        let r = build(
            &self.node_names,
            &shapes,
            &self.audio_links,
            &self.message_links,
            &mut self.audio_buffers,
            &mut self.message_buffers,
            &mut self.sequences,
        );
        assert(self.shapes() =~= old(self).shapes());
        match r {
            Ok(()) => Ok(()),
            Err(fault) => Err(GraphError::LinkError(fault)),
        }
    }

    /// Prepares every node for `sample_rate`, each once, and compiles the
    /// declared links from what the nodes report: the rings, message buffers
    /// and steps of the graph are made anew. See `describe` and `compile`.
    pub fn prepare(&mut self, sample_rate: u32) -> (r: GraphResult<()>)
        requires
            old(self).wf(),
        ensures
            final(self).wf(),
            final(self).described(),
            final(self).nodes().len() == old(self).nodes().len(),
            forall|i: int|
                0 <= i < old(self).nodes().len() ==> (#[trigger] final(self).nodes()[i]).kind()
                    == old(self).nodes()[i].kind() && exists|m: &mut RawNode<T>, d: RawDesc<T>|
                    *m == old(self).nodes()[i] && *final(m) == final(self).nodes()[i] && #[trigger] call_ensures(
                        RawNode::<T>::prepare,
                        (m, sample_rate),
                        d,
                    ) && final(self).descs()[i] == d,
            final(self).title() == old(self).title(),
            final(self).names() == old(self).names(),
            final(self).kinds() == old(self).kinds(),
            final(self).audio_edges() == old(self).audio_edges(),
            final(self).message_edges() == old(self).message_edges(),
            r matches Err(e) ==> {
                &&& final(self).ops().len() == 0
                &&& final(self).rings().len() == 0
                &&& final(self).boxes().len() == 0
                &&& e matches GraphError::LinkError(fault) && exists|w: int| #[trigger]
                    first_fault(
                        final(self).names(),
                        final(self).shapes(),
                        final(self).audio_edges(),
                        final(self).message_edges(),
                        w,
                        fault,
                    )
            },
            r is Ok ==> {
                &&& forall|w: int|
                    0 <= w < final(self).audio_edges().len() + final(self).message_edges().len()
                        ==> #[trigger] wire_fault(
                        final(self).names(),
                        final(self).shapes(),
                        final(self).audio_edges(),
                        final(self).message_edges(),
                        w,
                    ) is None
                &&& runs_in_order(
                    final(self).ops(),
                    final(self).names(),
                    final(self).shapes(),
                    final(self).audio_edges(),
                    final(self).message_edges(),
                )
                &&& final(self).rings().len() == ring_total(
                    final(self).shapes(),
                    reads_input(resolve_audio(final(self).names(), final(self).audio_edges())),
                )
                &&& final(self).boxes().len() == box_total(final(self).shapes())
                &&& forall|i: int| 0 <= i < final(self).rings().len() ==> fresh_ring(#[trigger] final(self).rings()[i])
                &&& forall|i: int| 0 <= i < final(self).boxes().len() ==> fresh_box(#[trigger] final(self).boxes()[i])
            },
    {
        self.describe(sample_rate);
        self.compile()
    }

    /// Prepares every node for `sample_rate` and compiles one fixed chain in
    /// place of the declared links: the node called `simple_saw` into the node
    /// called `overdrive`, and that into the graph's audio output. The
    /// declared links stay declared. Every node is prepared once, and the
    /// rings, message buffers and steps of the graph are made anew.
    pub fn mock_prepare(&mut self, sample_rate: u32) -> (r: GraphResult<()>)
        requires
            old(self).wf(),
        ensures
            final(self).wf(),
            final(self).described(),
            final(self).nodes().len() == old(self).nodes().len(),
            forall|i: int|
                0 <= i < old(self).nodes().len() ==> (#[trigger] final(self).nodes()[i]).kind()
                    == old(self).nodes()[i].kind() && exists|m: &mut RawNode<T>, d: RawDesc<T>|
                    *m == old(self).nodes()[i] && *final(m) == final(self).nodes()[i] && #[trigger] call_ensures(
                        RawNode::<T>::prepare,
                        (m, sample_rate),
                        d,
                    ) && final(self).descs()[i] == d,
            final(self).title() == old(self).title(),
            final(self).names() == old(self).names(),
            final(self).kinds() == old(self).kinds(),
            final(self).audio_edges() == old(self).audio_edges(),
            final(self).message_edges() == old(self).message_edges(),
            exists|chain: Seq<Link>|
                {
                    &&& #[trigger] mock_chain(chain)
                    &&& r matches Err(e) ==> {
                        &&& final(self).ops().len() == 0
                        &&& final(self).rings().len() == 0
                        &&& final(self).boxes().len() == 0
                        &&& e matches GraphError::LinkError(fault) && exists|w: int| #[trigger]
                            first_fault(final(self).names(), final(self).shapes(), chain, Seq::empty(), w, fault)
                    }
                    &&& r is Ok ==> {
                        &&& forall|w: int|
                            0 <= w < 2 ==> #[trigger] wire_fault(
                                final(self).names(),
                                final(self).shapes(),
                                chain,
                                Seq::empty(),
                                w,
                            ) is None
                        &&& runs_in_order(
                            final(self).ops(),
                            final(self).names(),
                            final(self).shapes(),
                            chain,
                            Seq::empty(),
                        )
                        &&& final(self).rings().len() == ring_total(
                            final(self).shapes(),
                            reads_input(resolve_audio(final(self).names(), chain)),
                        )
                        &&& final(self).boxes().len() == box_total(final(self).shapes())
                        &&& forall|i: int|
                            0 <= i < final(self).rings().len() ==> fresh_ring(#[trigger] final(self).rings()[i])
                        &&& forall|i: int|
                            0 <= i < final(self).boxes().len() ==> fresh_box(#[trigger] final(self).boxes()[i])
                    }
                },
    {
        self.describe(sample_rate);
        let shapes = self.node_shapes();
        assert(shape_kinds(shapes@) =~= self.kinds());
        let mut chain: Vec<Link> = Vec::new();
        chain.push(Link("simple_saw".to_owned(), "overdrive".to_owned()));
        chain.push(Link("overdrive".to_owned(), A_OUT_NODE.to_owned()));
        let none: Vec<Link> = Vec::new();
        let ghost shapes_before = self.shapes();
        let r = build(
            &self.node_names,
            &shapes,
            &chain,
            &none,
            &mut self.audio_buffers,
            &mut self.message_buffers,
            &mut self.sequences,
        );
        assert(self.shapes() =~= shapes_before);
        assert(mock_chain(chain@));
        assert(none@ =~= Seq::<Link>::empty());
        match r {
            Ok(()) => Ok(()),
            Err(fault) => Err(GraphError::LinkError(fault)),
        }
    }

    /// Runs step `index` of a block of `frames` frames. A step that runs a
    /// node calls the node's `process` once, with the caller's playhead and
    /// `frames`, on the windows of the rings and on the message buffers that
    /// the step names.
    pub fn step(
        &mut self,
        index: usize,
        playhead: &PlayHead<T>,
        frames: usize,
        audio_in: &AudioBufferRef<'_, T>,
        out: &mut AudioBufferMut<'_, T>,
        message_in: &MessageBuffer<T>,
    )
        requires
            old(self).wf(),
            index < old(self).ops().len(),
            frames <= MAX_BLOCK_FRAMES,
            audio_in@.len() == frames,
            old(out).wf(),
            old(out)@.len() == frames,
            message_in.window() == frames,
        ensures
            final(self).wf(),
            final(self).title() == old(self).title(),
            final(self).names() == old(self).names(),
            final(self).kinds() == old(self).kinds(),
            final(self).descs() == old(self).descs(),
            final(self).ops() == old(self).ops(),
            final(self).audio_edges() == old(self).audio_edges(),
            final(self).message_edges() == old(self).message_edges(),
            same_rings(old(self).rings(), final(self).rings()),
            final(self).boxes().len() == old(self).boxes().len(),
            final(out).wf(),
            final(out)@.len() == frames,
            final(out).head@.len() == old(out).head@.len(),
            final(out).tail@.len() == old(out).tail@.len(),
            final(final(out).head)@ == final(old(out).head)@,
            final(final(out).tail)@ == final(old(out).tail)@,
            ran(
                old(self).ops()[index as int],
                old(self).names(),
                frames as nat,
                audio_in@,
                message_in@,
                BlockState {
                    nodes: old(self).nodes(),
                    rings: old(self).rings(),
                    boxes: old(self).boxes(),
                    out: old(out)@,
                },
                BlockState {
                    nodes: final(self).nodes(),
                    rings: final(self).rings(),
                    boxes: final(self).boxes(),
                    out: final(out)@,
                },
            ),
            old(self).ops()[index as int] matches Operation::Process(name, ids_in, ids_out, id_in, ids_post) ==> exists|
                m: &mut RawNode<T>,
                ins: Vec<AudioBufferRef<'_, T>>,
                outs: Vec<AudioBufferMut<'_, T>>,
                ports: &mut [MessageBuffer<T>],
            |
                {
                    &&& *m == old(self).nodes()[index_of_name(old(self).names(), name@)]
                    &&& *final(m) == final(self).nodes()[index_of_name(old(self).names(), name@)]
                    &&& ins@.len() == ids_in@.len()
                    &&& forall|i: int|
                        0 <= i < ids_in@.len() ==> (#[trigger] ins@[i])@ == old(self).rings()[ids_in@[i] as int].window(
                            frames as nat,
                        )
                    &&& outs@.len() == ids_out@.len()
                    &&& forall|i: int|
                        0 <= i < ids_out@.len() ==> {
                            &&& (#[trigger] outs@[i])@ == old(self).rings()[ids_out@[i] as int].window(frames as nat)
                            &&& final(self).rings()[ids_out@[i] as int].window(frames as nat) == frames_of(
                                final(outs@[i].head)@ + final(outs@[i].tail)@,
                            )
                        }
                    &&& ports@.len() == ids_post@.len()
                    &&& final(ports)@.len() == ids_post@.len()
                    &&& forall|j: int|
                        0 <= j < ids_post@.len() && first_naming(ids_post@, j) ==> {
                            &&& (#[trigger] ports@[j]) == old(self).boxes()[ids_post@[j] as int]
                            &&& final(ports)@[j] == final(self).boxes()[ids_post@[j] as int]
                        }
                    &&& #[trigger] call_ensures(
                        RawNode::<T>::process,
                        (m, playhead, frames, ins, outs, &old(self).boxes()[id_in as int], ports),
                        (),
                    )
                },
    {
        let i = index;
        let ghost rings_before = self.audio_buffers@;
        let ghost kinds_before = self.kinds();
        let ghost nodes_before = self.nodes@;
        let ghost boxes_before = self.message_buffers@;
        assert(rings_ready(self.audio_buffers@, frames as nat)) by {
            assert forall|j: int| 0 <= j < self.audio_buffers@.len() implies (#[trigger] self.audio_buffers@[j]).wf()
                && frames <= self.audio_buffers@[j].capacity() by {
                assert(self.rings()[j].wf());
            }
        }
        assert(op_wf(
            self.ops()[i as int],
            self.rings().len() as int,
            self.boxes().len() as int,
            self.names(),
            self.kinds(),
        ));
        match &self.sequences[i] {
            Operation::AudioZeros(targets) => {
                audio_zeros(&mut self.audio_buffers, targets, frames);
            },
            Operation::AudioFromInput(targets) => {
                audio_from_input(&mut self.audio_buffers, targets, frames, audio_in);
            },
            Operation::AudioToOutput(sources) => {
                audio_to_output(&self.audio_buffers, sources, frames, out);
            },
            Operation::AudioClone(source, targets) => {
                audio_clone(&mut self.audio_buffers, *source, targets, frames);
            },
            Operation::AudioMerge(target, sources) => {
                audio_merge(&mut self.audio_buffers, *target, sources, frames);
            },
            Operation::MessageZeros(targets) => {
                message_zeros(&mut self.message_buffers, targets, frames);
            },
            Operation::MessageFromInput(targets) => {
                message_from_input(&mut self.message_buffers, targets, frames, message_in);
            },
            Operation::MessageClone(source, targets) => {
                message_clone(&mut self.message_buffers, *source, targets);
            },
            Operation::MessageMerge(target, sources) => {
                message_merge(&mut self.message_buffers, *target, sources);
            },
            Operation::Process(name, audio_in_ids, audio_out_ids, message_in_id, message_out_ids) => {
                match find_name(&self.node_names, name) {
                    Some(k) => {
                        proof {
                            let w = choose|w: int|
                                0 <= w < self.names().len() && w < self.kinds().len() && #[trigger] self.names()[w]
                                    == name@ && audio_out_ids@.len() == (if self.kinds()[w]
                                    == NodeType::MidiEffect {
                                    0nat
                                } else {
                                    1nat
                                });
                            assert(self.names()[k as int] == name@);
                            assert(w == k);
                            assert(self.kinds()[k as int] == self.nodes@[k as int].kind());
                            lemma_index_of_name(self.names(), name@, k as int);
                        }
                        run_node(
                            &mut self.nodes[k],
                            playhead,
                            frames,
                            &mut self.audio_buffers,
                            audio_in_ids,
                            audio_out_ids,
                            &mut self.message_buffers,
                            *message_in_id,
                            message_out_ids,
                        );
                        assert(self.kinds() =~= kinds_before);
                        assert(self.nodes@ == nodes_before.update(k as int, self.nodes@[k as int]));
                        assert(exists|
                            m: &mut RawNode<T>,
                            ins: Vec<AudioBufferRef<'_, T>>,
                            outs: Vec<AudioBufferMut<'_, T>>,
                            ports: &mut [MessageBuffer<T>],
                        |
                            {
                                &&& *m == nodes_before[k as int]
                                &&& *final(m) == self.nodes@[k as int]
                                &&& ins@.len() == audio_in_ids@.len()
                                &&& forall|i: int|
                                    0 <= i < audio_in_ids@.len() ==> (#[trigger] ins@[i])@
                                        == rings_before[audio_in_ids@[i] as int].window(frames as nat)
                                &&& outs@.len() == audio_out_ids@.len()
                                &&& forall|i: int|
                                    0 <= i < audio_out_ids@.len() ==> {
                                        &&& (#[trigger] outs@[i])@ == rings_before[audio_out_ids@[i] as int].window(
                                            frames as nat,
                                        )
                                        &&& self.audio_buffers@[audio_out_ids@[i] as int].window(frames as nat)
                                            == frames_of(final(outs@[i].head)@ + final(outs@[i].tail)@)
                                    }
                                &&& ports@.len() == message_out_ids@.len()
                                &&& final(ports)@.len() == message_out_ids@.len()
                                &&& forall|j: int|
                                    0 <= j < message_out_ids@.len() && first_naming(message_out_ids@, j) ==> {
                                        &&& (#[trigger] ports@[j]) == boxes_before[message_out_ids@[j] as int]
                                        &&& final(ports)@[j] == self.message_buffers@[message_out_ids@[j] as int]
                                    }
                                &&& #[trigger] call_ensures(
                                    RawNode::<T>::process,
                                    (m, playhead, frames, ins, outs, &boxes_before[*message_in_id as int], ports),
                                    (),
                                )
                            });
                        assert(index_of_name(old(self).names(), name@) == k);
                        assert(self.sequences@[i as int] == Operation::Process(
                            *name,
                            *audio_in_ids,
                            *audio_out_ids,
                            *message_in_id,
                            *message_out_ids,
                        ));
                    },
                    None => {
                        proof {
                            let w = choose|w: int|
                                0 <= w < self.names().len() && w < self.kinds().len() && #[trigger] self.names()[w]
                                    == name@ && audio_out_ids@.len() == (if self.kinds()[w]
                                    == NodeType::MidiEffect {
                                    0nat
                                } else {
                                    1nat
                                });
                            assert(self.node_names@[w]@ == name@);
                            assert(false);
                        }
                    },
                }
            },
        }
        proof {
            assert(same_rings(rings_before, self.audio_buffers@));
            assert forall|j: int| 0 <= j < self.rings().len() implies (#[trigger] self.rings()[j]).wf()
                && self.rings()[j].capacity() == MAX_BLOCK_FRAMES by {
                assert(rings_before[j].wf());
            }
            assert(self.ops() == old(self).ops());
            assert(self.names() == old(self).names());
            assert forall|k: int| 0 <= k < self.ops().len() implies op_wf(
                #[trigger] self.ops()[k],
                self.rings().len() as int,
                self.boxes().len() as int,
                self.names(),
                self.kinds(),
            ) by {
                assert(op_wf(
                    old(self).ops()[k],
                    old(self).rings().len() as int,
                    old(self).boxes().len() as int,
                    old(self).names(),
                    old(self).kinds(),
                ));
            }
        }
    }

    /// Runs one block of `frames` frames: every step in order, then every
    /// ring's cursor moves `frames` frames on. `audio_in` and `audio_out` are
    /// the host's views of exactly `frames` frames, and `message_in` holds the
    /// block's messages. The output is mixed into: what `audio_out` held
    /// before stays in the mix.
    ///
    /// Every node that a step runs is called once, in the order of the
    /// steps. A step that adds the messages of one buffer to another leaves
    /// out, without a failure, a message at or past the window of the buffer
    /// that takes it; that only happens where a node has changed the window
    /// of a buffer it was handed to write.
    #[verifier::rlimit(30)]
    pub fn process(
        &mut self,
        playhead: &PlayHead<T>,
        frames: usize,
        audio_in: AudioBufferRef<'_, T>,
        audio_out: AudioBufferMut<'_, T>,
        message_in: &MessageBuffer<T>,
    )
        requires
            old(self).wf(),
            frames <= MAX_BLOCK_FRAMES,
            audio_in@.len() == frames,
            audio_out.wf(),
            audio_out@.len() == frames,
            message_in.window() == frames,
        ensures
            final(self).wf(),
            final(self).title() == old(self).title(),
            final(self).names() == old(self).names(),
            final(self).kinds() == old(self).kinds(),
            final(self).ops() == old(self).ops(),
            final(self).audio_edges() == old(self).audio_edges(),
            final(self).message_edges() == old(self).message_edges(),
            final(self).rings().len() == old(self).rings().len(),
            forall|i: int|
                0 <= i < old(self).rings().len() ==> {
                    &&& (#[trigger] final(self).rings()[i]).capacity() == old(self).rings()[i].capacity()
                    &&& final(self).rings()[i].position() as int == (old(self).rings()[i].position() + frames) % (
                    old(self).rings()[i].capacity() as int)
                },
            final(self).boxes().len() == old(self).boxes().len(),
            final(audio_out.head)@.len() == old(audio_out.head)@.len(),
            final(audio_out.tail)@.len() == old(audio_out.tail)@.len(),
            exists|trace: Seq<BlockState<T>>|
                {
                    &&& #[trigger] block_trace(
                        old(self).ops(),
                        old(self).names(),
                        frames as nat,
                        audio_in@,
                        message_in@,
                        BlockState {
                            nodes: old(self).nodes(),
                            rings: old(self).rings(),
                            boxes: old(self).boxes(),
                            out: audio_out@,
                        },
                        trace,
                    )
                    &&& forall|k: int|
                        0 <= k < old(self).ops().len() ==> ((#[trigger] old(self).ops()[k]) matches Operation::Process(
                            name,
                            ids_in,
                            ids_out,
                            id_in,
                            ids_post,
                        ) ==> exists|
                            m: &mut RawNode<T>,
                            ins: Vec<AudioBufferRef<'_, T>>,
                            outs: Vec<AudioBufferMut<'_, T>>,
                            ports: &mut [MessageBuffer<T>],
                        |
                            {
                                &&& *m == trace[k].nodes[index_of_name(old(self).names(), name@)]
                                &&& *final(m) == trace[k + 1].nodes[index_of_name(old(self).names(), name@)]
                                &&& ins@.len() == ids_in@.len()
                                &&& forall|i: int|
                                    0 <= i < ids_in@.len() ==> (#[trigger] ins@[i])@ == trace[k].rings[ids_in@[i] as int].window(
                                        frames as nat,
                                    )
                                &&& outs@.len() == ids_out@.len()
                                &&& forall|i: int|
                                    0 <= i < ids_out@.len() ==> {
                                        &&& (#[trigger] outs@[i])@ == trace[k].rings[ids_out@[i] as int].window(frames as nat)
                                        &&& trace[k + 1].rings[ids_out@[i] as int].window(frames as nat) == frames_of(
                                            final(outs@[i].head)@ + final(outs@[i].tail)@,
                                        )
                                    }
                                &&& ports@.len() == ids_post@.len()
                                &&& final(ports)@.len() == ids_post@.len()
                                &&& forall|j: int|
                                    0 <= j < ids_post@.len() && first_naming(ids_post@, j) ==> {
                                        &&& (#[trigger] ports@[j]) == trace[k].boxes[ids_post@[j] as int]
                                        &&& final(ports)@[j] == trace[k + 1].boxes[ids_post@[j] as int]
                                    }
                                &&& #[trigger] call_ensures(
                                    RawNode::<T>::process,
                                    (m, playhead, frames, ins, outs, &trace[k].boxes[id_in as int], ports),
                                    (),
                                )
                            })
                    &&& moved_on(trace.last().rings, final(self).rings(), frames as nat)
                    &&& final(self).nodes() == trace.last().nodes
                    &&& final(self).boxes() == trace.last().boxes
                    &&& frames_of(final(audio_out.head)@ + final(audio_out.tail)@) == trace.last().out
                },
    {
        let mut out = audio_out;
        let n = self.sequences.len();
        let mut i: usize = 0;
        let ghost start = BlockState {
            nodes: self.nodes@,
            rings: self.audio_buffers@,
            boxes: self.message_buffers@,
            out: audio_out@,
        };
        let ghost mut trace: Seq<BlockState<T>> = seq![start];
        while i < n
            invariant
                trace.len() == i + 1,
                trace[0] == start,
                trace.last() == (BlockState {
                    nodes: self.nodes@,
                    rings: self.audio_buffers@,
                    boxes: self.message_buffers@,
                    out: out@,
                }),
                forall|k: int|
                    0 <= k < i ==> ran(
                        self.sequences@[k],
                        self.names(),
                        frames as nat,
                        audio_in@,
                        message_in@,
                        #[trigger] trace[k],
                        trace[k + 1],
                    ),
                forall|k: int|
                    0 <= k < i ==> ((#[trigger] self.sequences@[k]) matches Operation::Process(
                        name,
                        ids_in,
                        ids_out,
                        id_in,
                        ids_post,
                    ) ==> exists|
                        m: &mut RawNode<T>,
                        ins: Vec<AudioBufferRef<'_, T>>,
                        outs: Vec<AudioBufferMut<'_, T>>,
                        ports: &mut [MessageBuffer<T>],
                    |
                        {
                            &&& *m == trace[k].nodes[index_of_name(self.names(), name@)]
                            &&& *final(m) == trace[k + 1].nodes[index_of_name(self.names(), name@)]
                            &&& ins@.len() == ids_in@.len()
                            &&& forall|i: int|
                                0 <= i < ids_in@.len() ==> (#[trigger] ins@[i])@ == trace[k].rings[ids_in@[i] as int].window(
                                    frames as nat,
                                )
                            &&& outs@.len() == ids_out@.len()
                            &&& forall|i: int|
                                0 <= i < ids_out@.len() ==> {
                                    &&& (#[trigger] outs@[i])@ == trace[k].rings[ids_out@[i] as int].window(frames as nat)
                                    &&& trace[k + 1].rings[ids_out@[i] as int].window(frames as nat) == frames_of(
                                        final(outs@[i].head)@ + final(outs@[i].tail)@,
                                    )
                                }
                            &&& ports@.len() == ids_post@.len()
                            &&& final(ports)@.len() == ids_post@.len()
                            &&& forall|j: int|
                                0 <= j < ids_post@.len() && first_naming(ids_post@, j) ==> {
                                    &&& (#[trigger] ports@[j]) == trace[k].boxes[ids_post@[j] as int]
                                    &&& final(ports)@[j] == trace[k + 1].boxes[ids_post@[j] as int]
                                }
                            &&& #[trigger] call_ensures(
                                RawNode::<T>::process,
                                (m, playhead, frames, ins, outs, &trace[k].boxes[id_in as int], ports),
                                (),
                            )
                        }),
                i <= n,
                n == self.sequences@.len(),
                self.wf(),
                self.title() == old(self).title(),
                self.sequences@ == old(self).sequences@,
                self.names() == old(self).names(),
                self.kinds() == old(self).kinds(),
                self.audio_links@ == old(self).audio_links@,
                self.message_links@ == old(self).message_links@,
                same_rings(old(self).audio_buffers@, self.audio_buffers@),
                self.message_buffers@.len() == old(self).message_buffers@.len(),
                frames <= MAX_BLOCK_FRAMES,
                audio_in@.len() == frames,
                message_in.window() == frames,
                out.wf(),
                out@.len() == frames,
                out.head@.len() == audio_out.head@.len(),
                out.tail@.len() == audio_out.tail@.len(),
                final(out.head)@ == final(audio_out.head)@,
                final(out.tail)@ == final(audio_out.tail)@,
            decreases n - i,
        {
            let ghost before = trace.last();
            self.step(i, playhead, frames, &audio_in, &mut out, message_in);
            proof {
                let after = BlockState {
                    nodes: self.nodes@,
                    rings: self.audio_buffers@,
                    boxes: self.message_buffers@,
                    out: out@,
                };
                assert(ran(self.sequences@[i as int], self.names(), frames as nat, audio_in@, message_in@, before, after));
                let longer = trace.push(after);
                assert forall|k: int| 0 <= k < i + 1 implies ran(
                    self.sequences@[k],
                    self.names(),
                    frames as nat,
                    audio_in@,
                    message_in@,
                    #[trigger] longer[k],
                    longer[k + 1],
                ) by {
                    if k < i {
                        assert(longer[k] == trace[k] && longer[k + 1] == trace[k + 1]);
                    }
                }
                assert forall|k: int|
                        0 <= k < i + 1 implies ((#[trigger] self.sequences@[k]) matches Operation::Process(
                            name,
                            ids_in,
                            ids_out,
                            id_in,
                            ids_post,
                        ) ==> exists|
                            m: &mut RawNode<T>,
                            ins: Vec<AudioBufferRef<'_, T>>,
                            outs: Vec<AudioBufferMut<'_, T>>,
                            ports: &mut [MessageBuffer<T>],
                        |
                            {
                                &&& *m == longer[k].nodes[index_of_name(self.names(), name@)]
                                &&& *final(m) == longer[k + 1].nodes[index_of_name(self.names(), name@)]
                                &&& ins@.len() == ids_in@.len()
                                &&& forall|i: int|
                                    0 <= i < ids_in@.len() ==> (#[trigger] ins@[i])@ == longer[k].rings[ids_in@[i] as int].window(
                                        frames as nat,
                                    )
                                &&& outs@.len() == ids_out@.len()
                                &&& forall|i: int|
                                    0 <= i < ids_out@.len() ==> {
                                        &&& (#[trigger] outs@[i])@ == longer[k].rings[ids_out@[i] as int].window(frames as nat)
                                        &&& longer[k + 1].rings[ids_out@[i] as int].window(frames as nat) == frames_of(
                                            final(outs@[i].head)@ + final(outs@[i].tail)@,
                                        )
                                    }
                                &&& ports@.len() == ids_post@.len()
                                &&& final(ports)@.len() == ids_post@.len()
                                &&& forall|j: int|
                                    0 <= j < ids_post@.len() && first_naming(ids_post@, j) ==> {
                                        &&& (#[trigger] ports@[j]) == longer[k].boxes[ids_post@[j] as int]
                                        &&& final(ports)@[j] == longer[k + 1].boxes[ids_post@[j] as int]
                                    }
                                &&& #[trigger] call_ensures(
                                    RawNode::<T>::process,
                                    (m, playhead, frames, ins, outs, &longer[k].boxes[id_in as int], ports),
                                    (),
                                )
                            }) by {
                    if k < i {
                        assert(longer[k] == trace[k] && longer[k + 1] == trace[k + 1]);
                    } else {
                        assert(longer[k] == before && longer[k + 1] == after);
                    }
                }
                trace = longer;
            }
            i = i + 1;
        }
        let ghost last = trace.last();
        assert(block_trace(self.sequences@, self.names(), frames as nat, audio_in@, message_in@, start, trace));
        let count = self.audio_buffers.len();
        let ghost rings_before = self.audio_buffers@;
        let mut j: usize = 0;
        while j < count
            invariant
                j <= count,
                count == self.audio_buffers@.len(),
                rings_before.len() == count,
                self.title() == old(self).title(),
                self.kinds() == old(self).kinds(),
                self.sequences@ == old(self).sequences@,
                self.names() == old(self).names(),
                self.audio_links@ == old(self).audio_links@,
                self.message_links@ == old(self).message_links@,
                self.message_buffers@.len() == old(self).message_buffers@.len(),
                forall|k: int| 0 <= k < count ==> (#[trigger] rings_before[k]).wf(),
                self.message_buffers@ == last.boxes,
                self.nodes@ == last.nodes,
                out@ == last.out,
                final(out.head)@ == final(audio_out.head)@,
                final(out.tail)@ == final(audio_out.tail)@,
                forall|k: int|
                    0 <= k < count ==> {
                        &&& (#[trigger] self.audio_buffers@[k]).wf()
                        &&& self.audio_buffers@[k].samples() == rings_before[k].samples()
                        &&& self.audio_buffers@[k].capacity() == rings_before[k].capacity()
                        &&& self.audio_buffers@[k].position() as int == if k < j {
                            (rings_before[k].position() + frames) % (rings_before[k].capacity() as int)
                        } else {
                            rings_before[k].position() as int
                        }
                    },
            decreases count - j,
        {
            self.audio_buffers[j].forward(frames);
            j = j + 1;
        }
        proof {
            assert forall|k: int| 0 <= k < old(self).rings().len() implies {
                &&& (#[trigger] self.rings()[k]).capacity() == old(self).rings()[k].capacity()
                &&& self.rings()[k].position() as int == (old(self).rings()[k].position() + frames) % (old(
                    self,
                ).rings()[k].capacity() as int)
            } by {
                assert(rings_before[k].wf());
            }
            assert forall|k: int| 0 <= k < self.rings().len() implies (#[trigger] self.rings()[k]).wf()
                && self.rings()[k].capacity() == MAX_BLOCK_FRAMES by {
                assert(rings_before[k].wf());
                assert(old(self).rings()[k].wf());
            }
            assert(self.names() == old(self).names());
            assert(self.ops() == old(self).ops());
            assert(moved_on(last.rings, self.rings(), frames as nat));
            assert(frames_of(final(audio_out.head)@ + final(audio_out.tail)@) == last.out);
            assert forall|k: int| 0 <= k < self.ops().len() implies op_wf(
                #[trigger] self.ops()[k],
                self.rings().len() as int,
                self.boxes().len() as int,
                self.names(),
                self.kinds(),
            ) by {
                assert(op_wf(
                    old(self).ops()[k],
                    old(self).rings().len() as int,
                    old(self).boxes().len() as int,
                    old(self).names(),
                    old(self).kinds(),
                ));
            }
        }
    }
}

/// The chain that `mock_prepare` compiles: `simple_saw` into `overdrive` into the audio output.
pub open spec fn mock_chain(chain: Seq<Link>) -> bool {
    &&& chain.len() == 2
    &&& chain[0].0@ == "simple_saw"@
    &&& chain[0].1@ == "overdrive"@
    &&& chain[1].0@ == "overdrive"@
    &&& chain[1].1@ == A_OUT_NODE@
}

/// The index of the first of `names` that reads `name`, if there is one.
pub fn find_name(names: &Vec<String>, name: &String) -> (r: Option<usize>)
    ensures
        r matches Some(k) ==> k < names@.len() && names@[k as int]@ == name@,
        r is None ==> forall|k: int| 0 <= k < names@.len() ==> (#[trigger] names@[k])@ != name@,
{
    let mut k: usize = 0;
    while k < names.len()
        invariant
            k <= names@.len(),
            forall|j: int| 0 <= j < k ==> (#[trigger] names@[j])@ != name@,
        decreases names.len() - k,
    {
        if names[k] == *name {
            return Some(k);
        }
        k = k + 1;
    }
    None
}

/// Whether the name is one of the two that stand for the graph's own audio ends.
pub fn is_reserved(name: &String) -> (b: bool)
    ensures
        b == reserved(name@),
{
    let out = A_OUT_NODE.to_owned();
    let inp = A_IN_NODE.to_owned();
    *name == out || *name == inp
}

/// A step that can run stays able to run when one more node is registered.
pub proof fn lemma_op_wf_grows(
    op: Operation,
    rings: int,
    boxes: int,
    names: Seq<Seq<char>>,
    kinds: Seq<NodeType>,
    name: Seq<char>,
    kind: NodeType,
)
    requires
        op_wf(op, rings, boxes, names, kinds),
        names.len() == kinds.len(),
    ensures
        op_wf(op, rings, boxes, names.push(name), kinds.push(kind)),
{
    match op {
        Operation::Process(n, audio_in, audio_out, message_in, message_out) => {
            let k = choose|k: int|
                0 <= k < names.len() && k < kinds.len() && #[trigger] names[k] == n@ && audio_out@.len() == (if kinds[k]
                    == NodeType::MidiEffect {
                    0nat
                } else {
                    1nat
                });
            assert(names.push(name)[k] == n@);
            assert(kinds.push(kind)[k] == kinds[k]);
        },
        _ => {},
    }
}

} // verus!
