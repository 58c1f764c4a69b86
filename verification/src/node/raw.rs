use crate::buffer::audio::{AudioBufferMut, AudioBufferRef};
use crate::buffer::message::MessageBuffer;
use crate::node::parameter::Parameter;
use crate::player::PlayHead;
use crate::sample::Sample;
use vstd::prelude::*;

verus! {

/// The flavour of a node, which fixes its audio arities.
#[derive(Clone, Copy, PartialEq, Eq, Structural, Debug)]
pub enum NodeType {
    AudioEffect,
    MidiEffect,
    AudioSource,
}

/// What an audio effect reports when it is prepared.
#[derive(Debug)]
pub struct AudioEffectDesc<T> {
    pub audio_in: usize,
    pub parameters: Vec<Parameter<T>>,
}

/// What a control-message effect reports when it is prepared.
#[derive(Debug)]
pub struct MidiEffectDesc<T> {
    pub message_out: usize,
    pub parameters: Vec<Parameter<T>>,
}

/// What an audio source reports when it is prepared.
#[derive(Debug)]
pub struct AudioSourceDesc<T> {
    pub parameters: Vec<Parameter<T>>,
}

/// A node that turns audio into audio.
///
/// `process` is handed one shared view per input and one exclusive view to
/// write, each of exactly `frames` frames. What it promises in return holds of
/// every implementation: a slice cannot change its length.
pub trait AudioEffectNode<T: Sample>: Send {
    fn name(&self) -> String;

    fn prepare(&mut self, sample_rate: u32) -> AudioEffectDesc<T>;

    fn process(
        &mut self,
        playhead: &PlayHead<T>,
        frames: usize,
        audio_in: Vec<AudioBufferRef<'_, T>>,
        audio_out: AudioBufferMut<'_, T>,
        message_in: &MessageBuffer<T>,
    )
        requires
            audio_out.wf(),
            audio_out@.len() == frames,
            forall|i: int| 0 <= i < audio_in@.len() ==> (#[trigger] audio_in@[i])@.len() == frames,
        ensures
            final(audio_out.head)@.len() == old(audio_out.head)@.len(),
            final(audio_out.tail)@.len() == old(audio_out.tail)@.len(),
    ;
}

/// A node that turns control messages into control messages.
///
/// `process` is handed one message buffer per output port.
pub trait MidiEffectNode<T: Sample>: Send {
    fn name(&self) -> String;

    fn prepare(&mut self, sample_rate: u32) -> MidiEffectDesc<T>;

    fn process(
        &mut self,
        playhead: &PlayHead<T>,
        frames: usize,
        message_in: &MessageBuffer<T>,
        message_out: &mut [MessageBuffer<T>],
    )
        ensures
            final(message_out)@.len() == old(message_out)@.len(),
    ;
}

/// A node that makes audio.
///
/// `process` is handed one exclusive view of exactly `frames` frames to write.
pub trait AudioSourceNode<T: Sample>: Send {
    fn name(&self) -> String;

    fn prepare(&mut self, sample_rate: u32) -> AudioSourceDesc<T>;

    fn process(
        &mut self,
        playhead: &PlayHead<T>,
        frames: usize,
        audio_out: AudioBufferMut<'_, T>,
        message_in: &MessageBuffer<T>,
    )
        requires
            audio_out.wf(),
            audio_out@.len() == frames,
        ensures
            final(audio_out.head)@.len() == old(audio_out.head)@.len(),
            final(audio_out.tail)@.len() == old(audio_out.tail)@.len(),
    ;
}

/// A node's arities in one form for all three flavours.
#[derive(Debug)]
pub struct RawDesc<T> {
    pub audio_in: usize,
    pub audio_out: usize,
    pub message_out: usize,
    pub parameters: Vec<Parameter<T>>,
}

impl<T> RawDesc<T> {
    /// An audio effect has the inputs it reports, one audio output and no message output.
    pub fn with_audio_effect(desc: AudioEffectDesc<T>) -> (r: Self)
        ensures
            r.audio_in == desc.audio_in,
            r.audio_out == 1,
            r.message_out == 0,
            r.parameters == desc.parameters,
    {
        RawDesc { audio_in: desc.audio_in, audio_out: 1, message_out: 0, parameters: desc.parameters }
    }

    /// A control-message effect has no audio and the message outputs it reports.
    pub fn with_midi_effect(desc: MidiEffectDesc<T>) -> (r: Self)
        ensures
            r.audio_in == 0,
            r.audio_out == 0,
            r.message_out == desc.message_out,
            r.parameters == desc.parameters,
    {
        RawDesc { audio_in: 0, audio_out: 0, message_out: desc.message_out, parameters: desc.parameters }
    }

    /// An audio source has no input, one audio output and no message output.
    pub fn with_audio_source(desc: AudioSourceDesc<T>) -> (r: Self)
        ensures
            r.audio_in == 0,
            r.audio_out == 1,
            r.message_out == 0,
            r.parameters == desc.parameters,
    {
        RawDesc { audio_in: 0, audio_out: 1, message_out: 0, parameters: desc.parameters }
    }

    /// The arities fit the flavour `kind`.
    pub open spec fn fits(&self, kind: NodeType) -> bool {
        match kind {
            NodeType::AudioEffect => self.audio_out == 1 && self.message_out == 0,
            NodeType::MidiEffect => self.audio_in == 0 && self.audio_out == 0,
            NodeType::AudioSource => self.audio_in == 0 && self.audio_out == 1 && self.message_out == 0,
        }
    }
}

/// `reference` refers to the node in `boxed`.
pub open spec fn same_node<N: ?Sized>(reference: &N, boxed: &Box<N>) -> bool {
    reference == &**boxed
}

/// `name` is a name that the audio effect's own `name` may return.
pub open spec fn effect_names_itself<T: Sample, N: AudioEffectNode<T> + ?Sized>(node: &Box<N>, name: String) -> bool {
    call_ensures(N::name, (&**node,), name)
}

/// `name` is a name that the control-message effect's own `name` may return.
pub open spec fn midi_names_itself<T: Sample, N: MidiEffectNode<T> + ?Sized>(node: &Box<N>, name: String) -> bool {
    call_ensures(N::name, (&**node,), name)
}

/// `name` is a name that the audio source's own `name` may return.
pub open spec fn source_names_itself<T: Sample, N: AudioSourceNode<T> + ?Sized>(node: &Box<N>, name: String) -> bool {
    call_ensures(N::name, (&**node,), name)
}

/// `desc` is what the audio effect's own `prepare` may return for `sample_rate`.
pub open spec fn effect_prepared<T: Sample, N: AudioEffectNode<T> + ?Sized>(
    node: &mut N,
    sample_rate: u32,
    desc: AudioEffectDesc<T>,
) -> bool {
    call_ensures(N::prepare, (node, sample_rate), desc)
}

/// `desc` is what the control-message effect's own `prepare` may return for `sample_rate`.
pub open spec fn midi_prepared<T: Sample, N: MidiEffectNode<T> + ?Sized>(
    node: &mut N,
    sample_rate: u32,
    desc: MidiEffectDesc<T>,
) -> bool {
    call_ensures(N::prepare, (node, sample_rate), desc)
}

/// `desc` is what the audio source's own `prepare` may return for `sample_rate`.
pub open spec fn source_prepared<T: Sample, N: AudioSourceNode<T> + ?Sized>(
    node: &mut N,
    sample_rate: u32,
    desc: AudioSourceDesc<T>,
) -> bool {
    call_ensures(N::prepare, (node, sample_rate), desc)
}

/// The audio effect's own `process` ran on these views.
pub open spec fn effect_ran<T: Sample, N: AudioEffectNode<T> + ?Sized>(
    node: &mut N,
    playhead: &PlayHead<T>,
    frames: usize,
    audio_in: Vec<AudioBufferRef<'_, T>>,
    audio_out: AudioBufferMut<'_, T>,
    message_in: &MessageBuffer<T>,
) -> bool {
    call_ensures(N::process, (node, playhead, frames, audio_in, audio_out, message_in), ())
}

/// The control-message effect's own `process` ran on these buffers.
pub open spec fn midi_ran<T: Sample, N: MidiEffectNode<T> + ?Sized>(
    node: &mut N,
    playhead: &PlayHead<T>,
    frames: usize,
    message_in: &MessageBuffer<T>,
    message_out: &mut [MessageBuffer<T>],
) -> bool {
    call_ensures(N::process, (node, playhead, frames, message_in, message_out), ())
}

/// The audio source's own `process` ran on this view.
pub open spec fn source_ran<T: Sample, N: AudioSourceNode<T> + ?Sized>(
    node: &mut N,
    playhead: &PlayHead<T>,
    frames: usize,
    audio_out: AudioBufferMut<'_, T>,
    message_in: &MessageBuffer<T>,
) -> bool {
    call_ensures(N::process, (node, playhead, frames, audio_out, message_in), ())
}

/// Asks an audio effect for its name.
pub fn effect_name<T: Sample, N: AudioEffectNode<T> + ?Sized>(node: &Box<N>) -> (name: String)
    ensures
        effect_names_itself::<T, N>(node, name),
{
    node.name()
}

/// Asks a control-message effect for its name.
pub fn midi_name<T: Sample, N: MidiEffectNode<T> + ?Sized>(node: &Box<N>) -> (name: String)
    ensures
        midi_names_itself::<T, N>(node, name),
{
    node.name()
}

/// Asks an audio source for its name.
pub fn source_name<T: Sample, N: AudioSourceNode<T> + ?Sized>(node: &Box<N>) -> (name: String)
    ensures
        source_names_itself::<T, N>(node, name),
{
    node.name()
}

/// Prepares an audio effect for `sample_rate`.
pub fn prepare_effect<T: Sample, N: AudioEffectNode<T> + ?Sized>(node: &mut Box<N>, sample_rate: u32) -> (desc:
    AudioEffectDesc<T>)
    ensures
        exists|m: &mut N|
            same_node(&*m, old(node)) && same_node(&*final(m), final(node)) && #[trigger] effect_prepared(
                m,
                sample_rate,
                desc,
            ),
{
    let inner: &mut N = &mut **node;
    let desc = inner.prepare(sample_rate);
    proof {
        assert(exists|m: &mut N|
            &*m == &**old(node) && &*final(m) == &**final(node) && #[trigger] call_ensures(
                N::prepare,
                (m, sample_rate),
                desc,
            ));
        let m = choose|m: &mut N|
            &*m == &**old(node) && &*final(m) == &**final(node) && #[trigger] call_ensures(
                N::prepare,
                (m, sample_rate),
                desc,
            );
        assert(effect_prepared(m, sample_rate, desc));
    }
    desc
}

/// Prepares a control-message effect for `sample_rate`.
pub fn prepare_midi<T: Sample, N: MidiEffectNode<T> + ?Sized>(node: &mut Box<N>, sample_rate: u32) -> (desc:
    MidiEffectDesc<T>)
    ensures
        exists|m: &mut N|
            same_node(&*m, old(node)) && same_node(&*final(m), final(node)) && #[trigger] midi_prepared(
                m,
                sample_rate,
                desc,
            ),
{
    let inner: &mut N = &mut **node;
    let desc = inner.prepare(sample_rate);
    proof {
        assert(exists|m: &mut N|
            &*m == &**old(node) && &*final(m) == &**final(node) && #[trigger] call_ensures(
                N::prepare,
                (m, sample_rate),
                desc,
            ));
        let m = choose|m: &mut N|
            &*m == &**old(node) && &*final(m) == &**final(node) && #[trigger] call_ensures(
                N::prepare,
                (m, sample_rate),
                desc,
            );
        assert(midi_prepared(m, sample_rate, desc));
    }
    desc
}

/// Prepares an audio source for `sample_rate`.
pub fn prepare_source<T: Sample, N: AudioSourceNode<T> + ?Sized>(node: &mut Box<N>, sample_rate: u32) -> (desc:
    AudioSourceDesc<T>)
    ensures
        exists|m: &mut N|
            same_node(&*m, old(node)) && same_node(&*final(m), final(node)) && #[trigger] source_prepared(
                m,
                sample_rate,
                desc,
            ),
{
    let inner: &mut N = &mut **node;
    let desc = inner.prepare(sample_rate);
    proof {
        assert(exists|m: &mut N|
            &*m == &**old(node) && &*final(m) == &**final(node) && #[trigger] call_ensures(
                N::prepare,
                (m, sample_rate),
                desc,
            ));
        let m = choose|m: &mut N|
            &*m == &**old(node) && &*final(m) == &**final(node) && #[trigger] call_ensures(
                N::prepare,
                (m, sample_rate),
                desc,
            );
        assert(source_prepared(m, sample_rate, desc));
    }
    desc
}

/// Runs an audio effect on one block.
pub fn run_effect<T: Sample, N: AudioEffectNode<T> + ?Sized>(
    node: &mut Box<N>,
    playhead: &PlayHead<T>,
    frames: usize,
    audio_in: Vec<AudioBufferRef<'_, T>>,
    audio_out: AudioBufferMut<'_, T>,
    message_in: &MessageBuffer<T>,
)
    requires
        audio_out.wf(),
        audio_out@.len() == frames,
        forall|i: int| 0 <= i < audio_in@.len() ==> (#[trigger] audio_in@[i])@.len() == frames,
    ensures
        exists|m: &mut N|
            same_node(&*m, old(node)) && same_node(&*final(m), final(node)) && #[trigger] effect_ran(
                m,
                playhead,
                frames,
                audio_in,
                audio_out,
                message_in,
            ),
        final(audio_out.head)@.len() == old(audio_out.head)@.len(),
        final(audio_out.tail)@.len() == old(audio_out.tail)@.len(),
{
    let inner: &mut N = &mut **node;
    inner.process(playhead, frames, audio_in, audio_out, message_in);
    proof {
        assert(exists|m: &mut N|
            &*m == &**old(node) && &*final(m) == &**final(node) && #[trigger] call_ensures(
                N::process,
                (m, playhead, frames, audio_in, audio_out, message_in),
                (),
            ));
        let m = choose|m: &mut N|
            &*m == &**old(node) && &*final(m) == &**final(node) && #[trigger] call_ensures(
                N::process,
                (m, playhead, frames, audio_in, audio_out, message_in),
                (),
            );
        assert(effect_ran(m, playhead, frames, audio_in, audio_out, message_in));
    }
}

/// Runs an audio source on one block.
pub fn run_source<T: Sample, N: AudioSourceNode<T> + ?Sized>(
    node: &mut Box<N>,
    playhead: &PlayHead<T>,
    frames: usize,
    audio_out: AudioBufferMut<'_, T>,
    message_in: &MessageBuffer<T>,
)
    requires
        audio_out.wf(),
        audio_out@.len() == frames,
    ensures
        exists|m: &mut N|
            same_node(&*m, old(node)) && same_node(&*final(m), final(node)) && #[trigger] source_ran(
                m,
                playhead,
                frames,
                audio_out,
                message_in,
            ),
        final(audio_out.head)@.len() == old(audio_out.head)@.len(),
        final(audio_out.tail)@.len() == old(audio_out.tail)@.len(),
{
    let inner: &mut N = &mut **node;
    inner.process(playhead, frames, audio_out, message_in);
    proof {
        assert(exists|m: &mut N|
            &*m == &**old(node) && &*final(m) == &**final(node) && #[trigger] call_ensures(
                N::process,
                (m, playhead, frames, audio_out, message_in),
                (),
            ));
        let m = choose|m: &mut N|
            &*m == &**old(node) && &*final(m) == &**final(node) && #[trigger] call_ensures(
                N::process,
                (m, playhead, frames, audio_out, message_in),
                (),
            );
        assert(source_ran(m, playhead, frames, audio_out, message_in));
    }
}

/// Runs a control-message effect on one block.
pub fn run_midi<T: Sample, N: MidiEffectNode<T> + ?Sized>(
    node: &mut Box<N>,
    playhead: &PlayHead<T>,
    frames: usize,
    message_in: &MessageBuffer<T>,
    message_out: &mut [MessageBuffer<T>],
)
    ensures
        exists|m: &mut N, out: &mut [MessageBuffer<T>]|
            same_node(&*m, old(node)) && same_node(&*final(m), final(node)) && out@ == old(message_out)@ && final(out)@
                == final(message_out)@ && #[trigger] midi_ran(m, playhead, frames, message_in, out),
        final(message_out)@.len() == old(message_out)@.len(),
{
    let inner: &mut N = &mut **node;
    let out: &mut [MessageBuffer<T>] = &mut *message_out;
    inner.process(playhead, frames, message_in, out);
    proof {
        assert(exists|m: &mut N, o: &mut [MessageBuffer<T>]|
            &*m == &**old(node) && &*final(m) == &**final(node) && o@ == old(message_out)@ && final(o)@ == final(message_out)@ && #[trigger] call_ensures(N::process, (m, playhead, frames, message_in, o), ()));
        let (m, o) = choose|m: &mut N, o: &mut [MessageBuffer<T>]|
            &*m == &**old(node) && &*final(m) == &**final(node) && o@ == old(message_out)@ && final(o)@ == final(message_out)@ && #[trigger] call_ensures(N::process, (m, playhead, frames, message_in, o), ());
        assert(midi_ran(m, playhead, frames, message_in, o));
    }
}

/// A node of any flavour behind one entry point. Nodes can be sent to the
/// thread that processes audio.
#[verifier::reject_recursive_types(T)]
pub enum RawNode<T: Sample> {
    AudioEffect(Box<dyn AudioEffectNode<T>>),
    MidiEffect(Box<dyn MidiEffectNode<T>>),
    AudioSource(Box<dyn AudioSourceNode<T>>),
}

impl<T: Sample> RawNode<T> {
    /// The flavour of the node.
    pub open spec fn kind(&self) -> NodeType {
        match self {
            RawNode::AudioEffect(_) => NodeType::AudioEffect,
            RawNode::MidiEffect(_) => NodeType::MidiEffect,
            RawNode::AudioSource(_) => NodeType::AudioSource,
        }
    }

    /// The audio effect `node`, boxed, as a node of any flavour.
    pub fn with_audio_effect<N: AudioEffectNode<T> + 'static>(node: N) -> (r: Self)
        ensures
            r == RawNode::<T>::AudioEffect(Box::new(node)),
            r.kind() == NodeType::AudioEffect,
    {
        RawNode::AudioEffect(Box::new(node))
    }

    /// The control-message effect `node`, boxed, as a node of any flavour.
    pub fn with_midi_effect<N: MidiEffectNode<T> + 'static>(node: N) -> (r: Self)
        ensures
            r == RawNode::<T>::MidiEffect(Box::new(node)),
            r.kind() == NodeType::MidiEffect,
    {
        RawNode::MidiEffect(Box::new(node))
    }

    /// The audio source `node`, boxed, as a node of any flavour.
    pub fn with_audio_source<N: AudioSourceNode<T> + 'static>(node: N) -> (r: Self)
        ensures
            r == RawNode::<T>::AudioSource(Box::new(node)),
            r.kind() == NodeType::AudioSource,
    {
        RawNode::AudioSource(Box::new(node))
    }

    /// The flavour of the node.
    pub fn node_type(&self) -> (k: NodeType)
        ensures
            k == self.kind(),
    {
        match self {
            RawNode::AudioEffect(_) => NodeType::AudioEffect,
            RawNode::MidiEffect(_) => NodeType::MidiEffect,
            RawNode::AudioSource(_) => NodeType::AudioSource,
        }
    }

    /// The name that the node gives itself: what its own `name` returns.
    pub fn name(&self) -> (name: String)
        ensures
            match self {
                RawNode::AudioEffect(n) => effect_names_itself::<T, dyn AudioEffectNode<T>>(n, name),
                RawNode::MidiEffect(n) => midi_names_itself::<T, dyn MidiEffectNode<T>>(n, name),
                RawNode::AudioSource(n) => source_names_itself::<T, dyn AudioSourceNode<T>>(n, name),
            },
    {
        match self {
            RawNode::AudioEffect(n) => effect_name(n),
            RawNode::MidiEffect(n) => midi_name(n),
            RawNode::AudioSource(n) => source_name(n),
        }
    }

    /// Prepares the node for `sample_rate`: its own `prepare` is called once
    /// with that rate. Reports what the node reported, with the audio arities
    /// that its flavour fixes.
    pub fn prepare(&mut self, sample_rate: u32) -> (r: RawDesc<T>)
        ensures
            final(self).kind() == old(self).kind(),
            r.fits(old(self).kind()),
            *old(self) matches RawNode::AudioEffect(before) ==> *final(self) matches RawNode::AudioEffect(after)
                && exists|m: &mut (dyn AudioEffectNode<T> + 'static), d: AudioEffectDesc<T>|
                same_node(&*m, &before) && same_node(&*final(m), &after) && #[trigger] effect_prepared(
                    m,
                    sample_rate,
                    d,
                ) && r.audio_in == d.audio_in && r.parameters == d.parameters,
            *old(self) matches RawNode::MidiEffect(before) ==> *final(self) matches RawNode::MidiEffect(after)
                && exists|m: &mut (dyn MidiEffectNode<T> + 'static), d: MidiEffectDesc<T>|
                same_node(&*m, &before) && same_node(&*final(m), &after) && #[trigger] midi_prepared(
                    m,
                    sample_rate,
                    d,
                ) && r.message_out == d.message_out && r.parameters == d.parameters,
            *old(self) matches RawNode::AudioSource(before) ==> *final(self) matches RawNode::AudioSource(after)
                && exists|m: &mut (dyn AudioSourceNode<T> + 'static), d: AudioSourceDesc<T>|
                same_node(&*m, &before) && same_node(&*final(m), &after) && #[trigger] source_prepared(
                    m,
                    sample_rate,
                    d,
                ) && r.parameters == d.parameters,
    {
        match self {
            RawNode::AudioEffect(n) => RawDesc::with_audio_effect(prepare_effect(n, sample_rate)),
            RawNode::MidiEffect(n) => RawDesc::with_midi_effect(prepare_midi(n, sample_rate)),
            RawNode::AudioSource(n) => RawDesc::with_audio_source(prepare_source(n, sample_rate)),
        }
    }

    /// Runs the node on one block: its own `process` is called once. An
    /// audio effect is handed `audio_in`, the first of `audio_out` and
    /// `message_in`; an audio source the first of `audio_out` and
    /// `message_in`; a control-message effect `message_in` and `message_out`,
    /// and no audio. Views that the node is not handed stay as they are.
    pub fn process(
        &mut self,
        playhead: &PlayHead<T>,
        frames: usize,
        audio_in: Vec<AudioBufferRef<'_, T>>,
        audio_out: Vec<AudioBufferMut<'_, T>>,
        message_in: &MessageBuffer<T>,
        message_out: &mut [MessageBuffer<T>],
    )
        requires
            old(self).kind() != NodeType::MidiEffect ==> audio_out@.len() >= 1 && audio_out@[0].wf()
                && audio_out@[0]@.len() == frames,
            forall|i: int| 0 <= i < audio_in@.len() ==> (#[trigger] audio_in@[i])@.len() == frames,
        ensures
            final(self).kind() == old(self).kind(),
            forall|i: int|
                0 <= i < audio_out@.len() ==> final((#[trigger] audio_out@[i]).head)@.len()
                    == audio_out@[i].head@.len() && final(audio_out@[i].tail)@.len() == audio_out@[i].tail@.len(),
            old(self).kind() == NodeType::MidiEffect ==> forall|i: int|
                0 <= i < audio_out@.len() ==> final((#[trigger] audio_out@[i]).head)@ == audio_out@[i].head@
                    && final(audio_out@[i].tail)@ == audio_out@[i].tail@,
            final(message_out)@.len() == old(message_out)@.len(),
            old(self).kind() != NodeType::MidiEffect ==> final(message_out)@ == old(message_out)@,
            *old(self) matches RawNode::AudioEffect(before) ==> *final(self) matches RawNode::AudioEffect(after)
                && exists|m: &mut (dyn AudioEffectNode<T> + 'static)|
                same_node(&*m, &before) && same_node(&*final(m), &after) && #[trigger] effect_ran(
                    m,
                    playhead,
                    frames,
                    audio_in,
                    audio_out@[0],
                    message_in,
                ),
            *old(self) matches RawNode::AudioSource(before) ==> *final(self) matches RawNode::AudioSource(after)
                && exists|m: &mut (dyn AudioSourceNode<T> + 'static)|
                same_node(&*m, &before) && same_node(&*final(m), &after) && #[trigger] source_ran(
                    m,
                    playhead,
                    frames,
                    audio_out@[0],
                    message_in,
                ),
            *old(self) matches RawNode::MidiEffect(before) ==> *final(self) matches RawNode::MidiEffect(after)
                && exists|m: &mut (dyn MidiEffectNode<T> + 'static), out: &mut [MessageBuffer<T>]|
                same_node(&*m, &before) && same_node(&*final(m), &after) && out@ == old(message_out)@ && final(out)@
                    == final(message_out)@ && #[trigger] midi_ran(
                    m,
                    playhead,
                    frames,
                    message_in,
                    out,
                ),
    {
        let mut outs = audio_out;
        match self {
            RawNode::AudioEffect(n) => {
                let first = outs.remove(0);
                run_effect(n, playhead, frames, audio_in, first, message_in);
                assert forall|i: int| 0 <= i < audio_out@.len() implies
                    final((#[trigger] audio_out@[i]).head)@.len() == audio_out@[i].head@.len()
                    && final(audio_out@[i].tail)@.len() == audio_out@[i].tail@.len() by {
                    if i > 0 {
                        assert(audio_out@[i] == outs@[i - 1]);
                    }
                }
            },
            RawNode::MidiEffect(n) => {
                run_midi(n, playhead, frames, message_in, message_out);
            },
            RawNode::AudioSource(n) => {
                let first = outs.remove(0);
                run_source(n, playhead, frames, first, message_in);
                assert forall|i: int| 0 <= i < audio_out@.len() implies
                    final((#[trigger] audio_out@[i]).head)@.len() == audio_out@[i].head@.len()
                    && final(audio_out@[i].tail)@.len() == audio_out@[i].tail@.len() by {
                    if i > 0 {
                        assert(audio_out@[i] == outs@[i - 1]);
                    }
                }
            },
        }
    }
}

} // verus!
