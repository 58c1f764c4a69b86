use rarity::{
    AudioBuffer, AudioBufferMut, AudioBufferRef, AudioEffectDesc, AudioEffectNode, AudioSourceDesc,
    AudioSourceNode, Graph, GraphError, LinkError, Message, MessageBuffer, MessageValue,
    MidiEffectDesc, MidiEffectNode, MidiMessage, NodeType, NoteOn, Operation, PlayHead, RawDesc,
    RawNode, Sample, A_IN_NODE, A_OUT_NODE, MAX_BLOCK_FRAMES,
};
use std::sync::{Arc, Mutex};

#[derive(Clone, Copy, PartialEq, Debug)]
struct F(f64);

impl Sample for F {
    fn silence() -> F {
        F(0.0)
    }
    fn mix(self, other: F) -> F {
        F(self.0 + other.0)
    }
}

fn playhead() -> PlayHead<F> {
    PlayHead { upper: 4, lower: 4, div: 4, samples_per_quarter: F(0.0), samples_from_last_bar: F(0.0) }
}

type Log = Arc<Mutex<Vec<String>>>;
type Seen = Arc<Mutex<Vec<(usize, Message<F>)>>>;
type Heard = Arc<Mutex<Vec<(f64, f64)>>>;

fn frames_of(view: &AudioBufferRef<'_, F>) -> Vec<(f64, f64)> {
    let mut out = Vec::new();
    let mut it = view.iter();
    while let Some((l, r)) = it.next() {
        out.push((l.0, r.0));
    }
    out
}

fn messages_of(b: &MessageBuffer<F>) -> Vec<(usize, Message<F>)> {
    let mut out = Vec::new();
    let mut it = b.iter();
    while let Some((f, m)) = it.next() {
        out.push((*f, m.clone()));
    }
    out
}

/// Writes `left + k, right - k` at frame k on top of what its ring holds.
struct Ramp {
    name: String,
    left: f64,
    right: f64,
    log: Log,
    seen: Seen,
}

impl AudioSourceNode<F> for Ramp {
    fn name(&self) -> String {
        self.name.clone()
    }
    fn prepare(&mut self, _sample_rate: u32) -> AudioSourceDesc<F> {
        AudioSourceDesc { parameters: vec![] }
    }
    fn process(&mut self, _playhead: &PlayHead<F>, frames: usize, audio_out: AudioBufferMut<'_, F>, message_in: &MessageBuffer<F>) {
        self.log.lock().unwrap().push(self.name.clone());
        self.seen.lock().unwrap().extend(messages_of(message_in));
        let mut out = audio_out;
        assert_eq!(out.len(), frames);
        for k in 0..frames {
            let (l, r) = out.frame(k);
            out.set_frame(k, l.mix(F(self.left + k as f64)), r.mix(F(self.right - k as f64)));
        }
    }
}

/// Adds `gain` times the sum of its inputs on top of what its ring holds.
struct Gain {
    name: String,
    inputs: usize,
    gain: f64,
    log: Log,
    heard: Heard,
    seen: Seen,
}

impl AudioEffectNode<F> for Gain {
    fn name(&self) -> String {
        self.name.clone()
    }
    fn prepare(&mut self, _sample_rate: u32) -> AudioEffectDesc<F> {
        AudioEffectDesc { audio_in: self.inputs, parameters: vec![] }
    }
    fn process(
        &mut self,
        _playhead: &PlayHead<F>,
        frames: usize,
        audio_in: Vec<AudioBufferRef<'_, F>>,
        audio_out: AudioBufferMut<'_, F>,
        message_in: &MessageBuffer<F>,
    ) {
        self.log.lock().unwrap().push(self.name.clone());
        self.seen.lock().unwrap().extend(messages_of(message_in));
        assert_eq!(audio_in.len(), self.inputs);
        *self.heard.lock().unwrap() = frames_of(&audio_in[0]);
        let mut out = audio_out;
        for k in 0..frames {
            let (l, r) = audio_in[0].frame(k);
            let (ol, or) = out.frame(k);
            out.set_frame(k, F(ol.0 + l.0 * self.gain), F(or.0 + r.0 * self.gain));
        }
    }
}

/// Sends a note at frame 2 on each of its outputs.
struct Clock {
    name: String,
    outputs: usize,
    log: Log,
}

impl MidiEffectNode<F> for Clock {
    fn name(&self) -> String {
        self.name.clone()
    }
    fn prepare(&mut self, _sample_rate: u32) -> MidiEffectDesc<F> {
        MidiEffectDesc { message_out: self.outputs, parameters: vec![] }
    }
    fn process(&mut self, _playhead: &PlayHead<F>, frames: usize, _message_in: &MessageBuffer<F>, message_out: &mut [MessageBuffer<F>]) {
        self.log.lock().unwrap().push(self.name.clone());
        assert_eq!(message_out.len(), self.outputs);
        for (p, out) in message_out.iter_mut().enumerate() {
            assert_eq!(out.frame(), frames);
            assert!(out.is_empty());
            out.add(2, note(60 + p as u8, vec![]));
        }
    }
}

fn note(pitch: u8, addr: Vec<&str>) -> Message<F> {
    Message {
        addr: addr.into_iter().map(|s| s.to_string()).collect(),
        value: MessageValue::Midi(MidiMessage::NoteOn(NoteOn { pitch, velocity: 90 })),
    }
}

struct Rig {
    log: Log,
    seen: Seen,
}

impl Rig {
    fn new() -> Rig {
        Rig { log: Arc::new(Mutex::new(vec![])), seen: Arc::new(Mutex::new(vec![])) }
    }
    fn ramp(&self, name: &str, left: f64, right: f64) -> Ramp {
        Ramp { name: name.to_string(), left, right, log: self.log.clone(), seen: self.seen.clone() }
    }
    fn gain(&self, name: &str, gain: f64, heard: &Heard) -> Gain {
        Gain { name: name.to_string(), inputs: 1, gain, log: self.log.clone(), heard: heard.clone(), seen: self.seen.clone() }
    }
    fn clock(&self, name: &str, outputs: usize) -> Clock {
        Clock { name: name.to_string(), outputs, log: self.log.clone() }
    }
    fn log(&self) -> Vec<String> {
        self.log.lock().unwrap().clone()
    }
}

fn heard() -> Heard {
    Arc::new(Mutex::new(vec![]))
}

/// Runs one block with silent input and returns what was mixed into a silent output.
fn run_block(graph: &mut Graph<F>, frames: usize, messages: &MessageBuffer<F>) -> Vec<(f64, f64)> {
    let input = AudioBuffer::<F>::new(MAX_BLOCK_FRAMES);
    let mut output = AudioBuffer::<F>::new(MAX_BLOCK_FRAMES);
    graph.process(&playhead(), frames, input.next_n_frames_ref(frames), output.next_n_frames_mut(frames), messages);
    frames_of(&output.next_n_frames_ref(frames))
}

#[test]
fn reserved_and_repeated_names_are_refused() {
    let rig = Rig::new();
    let mut g = Graph::<F>::new("g");
    assert_eq!(g.name(), "g");
    assert!(g.add_audio_source(rig.ramp("a", 0.0, 0.0)).is_ok());
    match g.add_audio_source(rig.ramp("a", 0.0, 0.0)) {
        Err(GraphError::RepeatedName(n)) => assert_eq!(n, "a"),
        other => panic!("{:?}", other),
    }
    match g.add_audio_effect(rig.gain(A_OUT_NODE, 1.0, &heard())) {
        Err(GraphError::ReservedName(n)) => assert_eq!(n, "A_OUT_NODE"),
        other => panic!("{:?}", other),
    }
    match g.add_midi_effect(rig.clock(A_IN_NODE, 1)) {
        Err(GraphError::ReservedName(n)) => assert_eq!(n, "A_IN_NODE"),
        other => panic!("{:?}", other),
    }
    assert_eq!(g.node_count(), 1);
    assert_eq!(*g.node_names(), vec!["a".to_string()]);
}

#[test]
fn chain_runs_source_then_effect_and_mixes_into_output() {
    let rig = Rig::new();
    let h = heard();
    let mut g = Graph::<F>::new("chain");
    g.add_audio_effect(rig.gain("fx", 2.0, &h)).unwrap();
    g.add_audio_source(rig.ramp("src", 1.0, 10.0)).unwrap();
    g.add_audio_link("src", "fx");
    g.add_audio_link("fx", A_OUT_NODE);
    g.prepare(48000).unwrap();
    let out = run_block(&mut g, 4, &MessageBuffer::with_frames(4));
    assert_eq!(rig.log(), vec!["src", "fx"]);
    assert_eq!(*h.lock().unwrap(), vec![(1.0, 10.0), (2.0, 9.0), (3.0, 8.0), (4.0, 7.0)]);
    assert_eq!(out, vec![(2.0, 20.0), (4.0, 18.0), (6.0, 16.0), (8.0, 14.0)]);
}

#[test]
fn fan_out_feeds_both_sinks_the_same_and_merge_sums_them() {
    let rig = Rig::new();
    let (ha, hb, hc) = (heard(), heard(), heard());
    let mut g = Graph::<F>::new("diamond");
    g.add_audio_effect(rig.gain("c", 1.0, &hc)).unwrap();
    g.add_audio_effect(rig.gain("b", 10.0, &hb)).unwrap();
    g.add_audio_effect(rig.gain("a", 2.0, &ha)).unwrap();
    g.add_audio_source(rig.ramp("s", 1.0, -1.0)).unwrap();
    g.add_audio_link("s", "a");
    g.add_audio_link("s", "b");
    g.add_audio_link("a", "c");
    g.add_audio_link("b", "c");
    g.add_audio_link("c", A_OUT_NODE);
    g.prepare(44100).unwrap();
    let out = run_block(&mut g, 3, &MessageBuffer::with_frames(3));
    let s = vec![(1.0, -1.0), (2.0, -2.0), (3.0, -3.0)];
    assert_eq!(*ha.lock().unwrap(), s);
    assert_eq!(*hb.lock().unwrap(), s);
    let sum: Vec<(f64, f64)> = s.iter().map(|(l, r)| (l * 2.0 + l * 10.0, r * 2.0 + r * 10.0)).collect();
    assert_eq!(*hc.lock().unwrap(), sum);
    assert_eq!(out, sum);
    let log = rig.log();
    assert_eq!(log.len(), 4);
    assert_eq!(log[0], "s");
    assert_eq!(log[3], "c");
}

#[test]
fn every_ring_cursor_moves_on_by_the_block() {
    let rig = Rig::new();
    let mut g = Graph::<F>::new("cursors");
    g.add_audio_source(rig.ramp("s", 0.0, 0.0)).unwrap();
    g.add_audio_effect(rig.gain("fx", 1.0, &heard())).unwrap();
    g.add_audio_link("s", "fx");
    g.add_audio_link(A_IN_NODE, "fx");
    g.add_audio_link("fx", A_OUT_NODE);
    g.prepare(48000).unwrap();
    assert_eq!(g.audio_buffers().len(), 4);
    for ring in g.audio_buffers() {
        assert_eq!(ring.len(), MAX_BLOCK_FRAMES);
        assert_eq!(ring.cursor(), 0);
    }
    run_block(&mut g, 100, &MessageBuffer::with_frames(100));
    for ring in g.audio_buffers() {
        assert_eq!(ring.cursor(), 100);
    }
    run_block(&mut g, 4096, &MessageBuffer::with_frames(4096));
    for ring in g.audio_buffers() {
        assert_eq!(ring.cursor(), 100);
    }
    run_block(&mut g, 4000, &MessageBuffer::with_frames(4000));
    for ring in g.audio_buffers() {
        assert_eq!(ring.cursor(), 4);
    }
}

#[test]
fn input_messages_reach_the_node_they_name_without_its_name() {
    let rig = Rig::new();
    let mut g = Graph::<F>::new("routing");
    g.add_audio_source(rig.ramp("simple_saw", 0.0, 0.0)).unwrap();
    g.add_audio_link("simple_saw", A_OUT_NODE);
    g.prepare(48000).unwrap();
    let mut input = MessageBuffer::with_frames(8);
    input.add(5, note(1, vec!["x", "simple_saw"]));
    input.add(1, note(2, vec!["simple_saw"]));
    input.add(3, note(3, vec!["simple_saw", "x"]));
    input.add(5, note(4, vec!["simple_saw"]));
    input.add(0, note(5, vec![]));
    run_block(&mut g, 8, &input);
    assert_eq!(
        *rig.seen.lock().unwrap(),
        vec![(1, note(2, vec![])), (5, note(1, vec!["x"])), (5, note(4, vec![]))]
    );
}

#[test]
fn message_links_deliver_every_output_of_the_producer() {
    let rig = Rig::new();
    let mut g = Graph::<F>::new("midi");
    g.add_audio_source(rig.ramp("voice", 0.0, 0.0)).unwrap();
    g.add_midi_effect(rig.clock("clock", 2)).unwrap();
    g.add_message_link("clock", "voice");
    g.add_audio_link("voice", A_OUT_NODE);
    g.prepare(48000).unwrap();
    let mut input = MessageBuffer::with_frames(8);
    input.add(2, note(1, vec!["voice"]));
    input.add(7, note(2, vec!["voice"]));
    run_block(&mut g, 8, &input);
    assert_eq!(rig.log(), vec!["clock", "voice"]);
    assert_eq!(
        *rig.seen.lock().unwrap(),
        vec![(2, note(1, vec![])), (2, note(60, vec![])), (2, note(61, vec![])), (7, note(2, vec![]))]
    );
}

fn link_error(r: Result<(), GraphError>) -> LinkError {
    match r {
        Err(GraphError::LinkError(e)) => e,
        other => panic!("{:?}", other),
    }
}

#[test]
fn cyclic_links_are_refused_and_nothing_is_scheduled() {
    let rig = Rig::new();
    let mut g = Graph::<F>::new("cycle");
    g.add_audio_effect(rig.gain("a", 1.0, &heard())).unwrap();
    g.add_audio_effect(rig.gain("b", 1.0, &heard())).unwrap();
    g.add_audio_link("a", "b");
    g.add_audio_link("b", "a");
    match link_error(g.prepare(48000)) {
        LinkError::InvalidLinkTarget(n) => assert_eq!(n, "a"),
        other => panic!("{:?}", other),
    }
    assert!(g.operations().is_empty());
    let out = run_block(&mut g, 4, &MessageBuffer::with_frames(4));
    assert_eq!(out, vec![(0.0, 0.0); 4]);
    assert!(rig.log().is_empty());
}

#[test]
fn each_link_fault_has_its_error() {
    let rig = Rig::new();
    let build = |audio: Vec<(&str, &str)>, message: Vec<(&str, &str)>| {
        let mut g = Graph::<F>::new("faults");
        g.add_audio_source(rig.ramp("src", 0.0, 0.0)).unwrap();
        g.add_audio_effect(rig.gain("fx", 1.0, &heard())).unwrap();
        g.add_audio_effect(Gain { name: "deaf".to_string(), inputs: 0, gain: 1.0, log: rig.log.clone(), heard: heard(), seen: rig.seen.clone() }).unwrap();
        g.add_midi_effect(rig.clock("clock", 1)).unwrap();
        g.add_midi_effect(rig.clock("mute", 0)).unwrap();
        for (a, b) in audio {
            g.add_audio_link(a, b);
        }
        for (a, b) in message {
            g.add_message_link(a, b);
        }
        g.prepare(48000)
    };
    assert!(matches!(link_error(build(vec![("nobody", "fx")], vec![])), LinkError::UnknownName(n) if n == "nobody"));
    assert!(matches!(link_error(build(vec![("src", "nobody")], vec![])), LinkError::UnknownName(n) if n == "nobody"));
    assert!(matches!(link_error(build(vec![(A_OUT_NODE, "fx")], vec![])), LinkError::InvalidLinkSource(n) if n == A_OUT_NODE));
    assert!(matches!(link_error(build(vec![("clock", "fx")], vec![])), LinkError::InvalidLinkSource(n) if n == "clock"));
    assert!(matches!(link_error(build(vec![("src", A_IN_NODE)], vec![])), LinkError::InvalidLinkTarget(n) if n == A_IN_NODE));
    assert!(matches!(link_error(build(vec![("fx", "src")], vec![])), LinkError::InvalidLinkTarget(n) if n == "src"));
    assert!(matches!(link_error(build(vec![("src", "deaf")], vec![])), LinkError::InvalidLinkTarget(n) if n == "deaf"));
    assert!(matches!(link_error(build(vec![("src", "fx"), ("src", "fx")], vec![])), LinkError::LinkedTarget(n) if n == "fx"));
    assert!(matches!(link_error(build(vec![("fx", "fx")], vec![])), LinkError::InvalidLinkTarget(n) if n == "fx"));
    assert!(matches!(link_error(build(vec![], vec![("src", "fx")])), LinkError::InvalidLinkSource(n) if n == "src"));
    assert!(matches!(link_error(build(vec![], vec![("mute", "fx")])), LinkError::InvalidLinkSource(n) if n == "mute"));
    assert!(matches!(link_error(build(vec![], vec![(A_IN_NODE, "fx")])), LinkError::InvalidLinkSource(n) if n == A_IN_NODE));
    assert!(matches!(link_error(build(vec![], vec![("clock", A_OUT_NODE)])), LinkError::InvalidLinkTarget(n) if n == A_OUT_NODE));
    assert!(matches!(link_error(build(vec![], vec![("clock", "nobody")])), LinkError::UnknownName(n) if n == "nobody"));
    assert!(matches!(link_error(build(vec![], vec![("clock", "fx"), ("clock", "fx")])), LinkError::LinkedTarget(n) if n == "fx"));
    assert!(matches!(link_error(build(vec![], vec![("clock", "clock")])), LinkError::InvalidLinkTarget(n) if n == "clock"));
    // the first faulty link decides, audio links before message links
    assert!(matches!(link_error(build(vec![("src", "fx"), ("x", "fx")], vec![("y", "fx")])), LinkError::UnknownName(n) if n == "x"));
    assert!(build(vec![("src", "fx"), (A_IN_NODE, "fx"), (A_IN_NODE, A_OUT_NODE), ("fx", A_OUT_NODE)], vec![("clock", "fx"), ("clock", "src")]).is_ok());
}

#[test]
fn graph_input_is_heard_by_the_nodes_linked_to_it() {
    let rig = Rig::new();
    let h = heard();
    let mut g = Graph::<F>::new("through");
    g.add_audio_effect(rig.gain("fx", 3.0, &h)).unwrap();
    g.add_audio_link(A_IN_NODE, "fx");
    g.add_audio_link("fx", A_OUT_NODE);
    g.add_audio_link(A_IN_NODE, A_OUT_NODE);
    g.prepare(48000).unwrap();
    let mut input = AudioBuffer::<F>::new(MAX_BLOCK_FRAMES);
    {
        let mut w = input.next_n_frames_mut(2);
        w.set_frame(0, F(1.0), F(2.0));
        w.set_frame(1, F(3.0), F(4.0));
    }
    let mut output = AudioBuffer::<F>::new(MAX_BLOCK_FRAMES);
    {
        let mut w = output.next_n_frames_mut(2);
        w.set_frame(0, F(100.0), F(100.0));
    }
    g.process(&playhead(), 2, input.next_n_frames_ref(2), output.next_n_frames_mut(2), &MessageBuffer::with_frames(2));
    assert_eq!(*h.lock().unwrap(), vec![(1.0, 2.0), (3.0, 4.0)]);
    // what the output held stays in the mix: 100 + 3 * in + in
    assert_eq!(frames_of(&output.next_n_frames_ref(2)), vec![(104.0, 108.0), (12.0, 16.0)]);
}

#[test]
fn steps_are_laid_out_as_compiled() {
    let rig = Rig::new();
    let mut g = Graph::<F>::new("steps");
    g.add_audio_source(rig.ramp("s", 0.0, 0.0)).unwrap();
    g.add_audio_effect(rig.gain("fx", 1.0, &heard())).unwrap();
    g.add_audio_link("s", "fx");
    g.add_audio_link("fx", A_OUT_NODE);
    g.prepare(48000).unwrap();
    let ops = g.operations();
    assert_eq!(ops.len(), 7);
    assert!(matches!(&ops[0], Operation::AudioZeros(t) if *t == vec![0, 1, 2]));
    assert!(matches!(&ops[1], Operation::MessageFromInput(t) if *t == vec![(0, "s".to_string()), (1, "fx".to_string())]));
    assert!(matches!(&ops[2], Operation::MessageZeros(t) if t.is_empty()));
    assert!(matches!(&ops[3], Operation::Process(n, i, o, m, mo) if n == "s" && i.is_empty() && *o == vec![0] && *m == 0 && mo.is_empty()));
    assert!(matches!(&ops[4], Operation::AudioClone(s, t) if *s == 0 && *t == vec![2]));
    assert!(matches!(&ops[5], Operation::Process(n, i, o, m, mo) if n == "fx" && *i == vec![2] && *o == vec![1] && *m == 1 && mo.is_empty()));
    assert!(matches!(&ops[6], Operation::AudioToOutput(s) if *s == vec![1]));
    assert_eq!(g.message_buffers().len(), 2);
}

/// A one-voice source whose level rises by a step per frame from the note on.
struct Swell {
    name: String,
    level: f64,
    rising: bool,
}

impl AudioSourceNode<F> for Swell {
    fn name(&self) -> String {
        self.name.clone()
    }
    fn prepare(&mut self, _sample_rate: u32) -> AudioSourceDesc<F> {
        AudioSourceDesc { parameters: vec![] }
    }
    fn process(&mut self, _playhead: &PlayHead<F>, frames: usize, audio_out: AudioBufferMut<'_, F>, message_in: &MessageBuffer<F>) {
        let mut walk = rarity::node::block::BlockWalk::new(frames, message_in);
        let mut rest = audio_out;
        loop {
            match walk.next() {
                rarity::node::block::Step::Render(n) => {
                    let (mut now, later) = rest.split_at_mut(n);
                    rest = later;
                    for k in 0..n {
                        if self.rising {
                            self.level = (self.level + 0.125).min(1.0);
                        }
                        let (l, r) = now.frame(k);
                        now.set_frame(k, F(l.0 + self.level), F(r.0 + self.level));
                    }
                }
                rarity::node::block::Step::Apply(m) => {
                    if let rarity::node::command::SynthCommand::NoteOn { .. } = rarity::node::command::synth_command(m) {
                        self.rising = true;
                    }
                }
                rarity::node::block::Step::Done => break,
            }
        }
        assert!(rest.is_empty());
    }
}

#[test]
fn a_note_inside_the_block_starts_the_sound_at_its_frame() {
    let rig = Rig::new();
    let mut g = Graph::<F>::new("note");
    g.add_audio_source(Swell { name: "source".to_string(), level: 0.0, rising: false }).unwrap();
    g.add_audio_effect(rig.gain("effect", 0.5, &heard())).unwrap();
    g.add_audio_link("source", "effect");
    g.add_audio_link("effect", A_OUT_NODE);
    g.prepare(48000).unwrap();
    let mut input = MessageBuffer::with_frames(64);
    input.add(10, note(65, vec!["source"]));
    let out = run_block(&mut g, 64, &input);
    assert_eq!(out.len(), 64);
    for k in 0..10 {
        assert_eq!(out[k], (0.0, 0.0));
    }
    for k in 10..64 {
        assert!(out[k].0 > 0.0);
        assert!(out[k].0 >= out[k - 1].0);
        assert_eq!(out[k].0, out[k].1);
    }
    assert_eq!(out[10].0, 0.0625);
    assert_eq!(out[17].0, 0.5);
    assert_eq!(out[63].0, 0.5);
    // the next block carries on, and the rings were cleared in between
    let out = run_block(&mut g, 3, &MessageBuffer::with_frames(3));
    assert_eq!(out, vec![(0.5, 0.5); 3]);
}

#[test]
fn the_fixed_chain_runs_simple_saw_into_overdrive() {
    let rig = Rig::new();
    let h = heard();
    let mut g = Graph::<F>::new("mock");
    g.add_audio_effect(rig.gain("overdrive", 2.0, &h)).unwrap();
    g.add_audio_source(rig.ramp("simple_saw", 1.0, 0.0)).unwrap();
    g.add_audio_source(rig.ramp("other", 5.0, 5.0)).unwrap();
    g.add_audio_link("other", A_OUT_NODE);
    g.mock_prepare(48000).unwrap();
    let out = run_block(&mut g, 2, &MessageBuffer::with_frames(2));
    assert_eq!(rig.log(), vec!["simple_saw", "overdrive", "other"]);
    assert_eq!(out, vec![(2.0, 0.0), (4.0, -2.0)]);
    let mut g = Graph::<F>::new("mock");
    g.add_audio_source(rig.ramp("simple_saw", 1.0, 0.0)).unwrap();
    assert!(matches!(link_error(g.mock_prepare(48000)), LinkError::UnknownName(n) if n == "overdrive"));
    assert!(g.operations().is_empty());
}

#[test]
fn an_effect_with_several_inputs_hears_the_mix_on_each() {
    let rig = Rig::new();
    let h = heard();
    let mut g = Graph::<F>::new("wide");
    g.add_audio_source(rig.ramp("a", 1.0, 1.0)).unwrap();
    g.add_audio_source(rig.ramp("b", 10.0, 20.0)).unwrap();
    g.add_audio_effect(Gain { name: "fx".to_string(), inputs: 3, gain: 1.0, log: rig.log.clone(), heard: h.clone(), seen: rig.seen.clone() }).unwrap();
    g.add_audio_link("b", "fx");
    g.add_audio_link("a", "fx");
    g.add_audio_link("fx", A_OUT_NODE);
    g.add_audio_link("a", A_OUT_NODE);
    g.prepare(48000).unwrap();
    let out = run_block(&mut g, 2, &MessageBuffer::with_frames(2));
    assert_eq!(*h.lock().unwrap(), vec![(11.0, 21.0), (13.0, 19.0)]);
    assert_eq!(out, vec![(12.0, 22.0), (15.0, 19.0)]);
}

#[test]
fn describe_and_compile_can_be_called_apart_and_again() {
    let rig = Rig::new();
    let mut g = Graph::<F>::new("again");
    g.add_audio_source(rig.ramp("s", 1.0, 1.0)).unwrap();
    g.add_audio_link("s", A_OUT_NODE);
    g.describe(44100);
    g.compile().unwrap();
    assert_eq!(run_block(&mut g, 1, &MessageBuffer::with_frames(1)), vec![(1.0, 1.0)]);
    g.add_audio_source(rig.ramp("t", 2.0, 2.0)).unwrap();
    g.add_audio_link("t", A_OUT_NODE);
    // the new node is not scheduled before the graph is prepared again
    assert_eq!(run_block(&mut g, 1, &MessageBuffer::with_frames(1)), vec![(1.0, 1.0)]);
    g.prepare(44100).unwrap();
    assert_eq!(g.audio_buffers()[0].cursor(), 0);
    assert_eq!(run_block(&mut g, 1, &MessageBuffer::with_frames(1)), vec![(3.0, 3.0)]);
    g.add_audio_link("nobody", "s");
    assert!(matches!(link_error(g.prepare(44100)), LinkError::UnknownName(n) if n == "nobody"));
    assert!(g.operations().is_empty());
    assert!(g.audio_buffers().is_empty());
    assert_eq!(run_block(&mut g, 1, &MessageBuffer::with_frames(1)), vec![(0.0, 0.0)]);
}

#[test]
fn a_block_of_no_frames_runs_the_nodes_on_nothing() {
    let rig = Rig::new();
    let mut g = Graph::<F>::new("empty");
    g.add_audio_source(rig.ramp("s", 1.0, 1.0)).unwrap();
    g.add_audio_link("s", A_OUT_NODE);
    g.prepare(48000).unwrap();
    assert_eq!(run_block(&mut g, 0, &MessageBuffer::with_frames(0)), vec![]);
    assert_eq!(rig.log(), vec!["s"]);
    assert_eq!(g.audio_buffers()[0].cursor(), 0);
}

#[test]
fn raw_nodes_report_the_arities_of_their_flavour() {
    let rig = Rig::new();
    let mut source = RawNode::with_audio_source(rig.ramp("s", 0.0, 0.0));
    let mut effect = RawNode::with_audio_effect(Gain { name: "fx".to_string(), inputs: 5, gain: 1.0, log: rig.log.clone(), heard: heard(), seen: rig.seen.clone() });
    let mut clock = RawNode::with_midi_effect(rig.clock("c", 7));
    assert_eq!(source.node_type(), NodeType::AudioSource);
    assert_eq!(effect.node_type(), NodeType::AudioEffect);
    assert_eq!(clock.node_type(), NodeType::MidiEffect);
    assert_eq!((source.name(), effect.name(), clock.name()), ("s".to_string(), "fx".to_string(), "c".to_string()));
    let d = source.prepare(48000);
    assert_eq!((d.audio_in, d.audio_out, d.message_out), (0, 1, 0));
    let d = effect.prepare(48000);
    assert_eq!((d.audio_in, d.audio_out, d.message_out), (5, 1, 0));
    let d = clock.prepare(48000);
    assert_eq!((d.audio_in, d.audio_out, d.message_out), (0, 0, 7));
    let d = RawDesc::<F>::with_midi_effect(MidiEffectDesc { message_out: 2, parameters: vec![] });
    assert_eq!((d.audio_in, d.audio_out, d.message_out, d.parameters.len()), (0, 0, 2, 0));
    // a node run by hand writes the first of its outputs
    let mut ring = AudioBuffer::<F>::new(4);
    let mut boxes: Vec<MessageBuffer<F>> = vec![];
    source.process(&playhead(), 2, vec![], vec![ring.next_n_frames_mut(2)], &MessageBuffer::with_frames(2), &mut boxes);
    assert_eq!(frames_of(&ring.next_n_frames_ref(3)), vec![(0.0, 0.0), (1.0, -1.0), (0.0, 0.0)]);
    let mut boxes = vec![MessageBuffer::with_frames(4), MessageBuffer::with_frames(4)];
    let mut clock = RawNode::with_midi_effect(rig.clock("c", 2));
    clock.process(&playhead(), 4, vec![], vec![], &MessageBuffer::with_frames(4), &mut boxes);
    assert_eq!(messages_of(&boxes[1]), vec![(2, note(61, vec![]))]);
}

#[test]
fn a_player_holds_its_graph() {
    let rig = Rig::new();
    let mut g = Graph::<F>::new("held");
    g.add_audio_source(rig.ramp("s", 1.0, 1.0)).unwrap();
    let mut p = rarity::GraphPlayer::new(g);
    assert_eq!(p.graph.name(), "held");
    assert_eq!(p.graph.node_count(), 1);
    p.graph.prepare(48000).unwrap();
    assert_eq!(run_block(&mut p.graph, 1, &MessageBuffer::with_frames(1)), vec![(0.0, 0.0)]);
    let h = playhead();
    assert_eq!(h, h.clone());
}

fn assert_send<X: Send>(_: &X) {}

#[test]
fn a_graph_and_a_collector_can_move_to_the_audio_thread() {
    let rig = Rig::new();
    let mut g = Graph::<F>::new("sent");
    g.add_audio_source(rig.ramp("s", 1.0, 1.0)).unwrap();
    assert_send(&g);
    let mut c = rarity::MessageCollector::<F>::new();
    let tx = c.add_port(vec![]);
    assert_send(&c);
    assert_send(&tx);
}

/// An effect that notes each sample rate it is prepared with, and asks for
/// one more input each time.
struct Tuner {
    rates: Arc<Mutex<Vec<u32>>>,
    log: Log,
}

impl AudioEffectNode<F> for Tuner {
    fn name(&self) -> String {
        "tuner".to_string()
    }
    fn prepare(&mut self, sample_rate: u32) -> AudioEffectDesc<F> {
        let mut rates = self.rates.lock().unwrap();
        rates.push(sample_rate);
        AudioEffectDesc { audio_in: rates.len(), parameters: vec![] }
    }
    fn process(
        &mut self,
        _playhead: &PlayHead<F>,
        _frames: usize,
        audio_in: Vec<AudioBufferRef<'_, F>>,
        _audio_out: AudioBufferMut<'_, F>,
        _message_in: &MessageBuffer<F>,
    ) {
        self.log.lock().unwrap().push(format!("tuner hears {}", audio_in.len()));
    }
}

#[test]
fn preparing_asks_each_node_once_and_keeps_what_it_said() {
    let rig = Rig::new();
    let rates = Arc::new(Mutex::new(vec![]));
    let mut g = Graph::<F>::new("asked");
    g.add_audio_source(rig.ramp("s", 1.0, 1.0)).unwrap();
    g.add_audio_effect(Tuner { rates: rates.clone(), log: rig.log.clone() }).unwrap();
    g.add_audio_link("s", "tuner");
    g.add_audio_link("tuner", A_OUT_NODE);
    g.prepare(44100).unwrap();
    assert_eq!(*rates.lock().unwrap(), vec![44100]);
    run_block(&mut g, 2, &MessageBuffer::with_frames(2));
    assert_eq!(rig.log(), vec!["s", "tuner hears 1"]);
    g.describe(96000);
    assert_eq!(*rates.lock().unwrap(), vec![44100, 96000]);
    g.compile().unwrap();
    run_block(&mut g, 2, &MessageBuffer::with_frames(2));
    assert_eq!(rig.log(), vec!["s", "tuner hears 1", "s", "tuner hears 2"]);
    assert_eq!(g.audio_buffers().len(), 3);
}

#[test]
fn a_block_is_its_steps_in_turn() {
    let rig = Rig::new();
    let h = heard();
    let mut whole = Graph::<F>::new("whole");
    let mut stepped = Graph::<F>::new("stepped");
    for g in [&mut whole, &mut stepped] {
        g.add_audio_source(rig.ramp("s", 1.0, 2.0)).unwrap();
        g.add_audio_effect(rig.gain("fx", 3.0, &h)).unwrap();
        g.add_audio_link("s", "fx");
        g.add_audio_link("fx", A_OUT_NODE);
        g.prepare(48000).unwrap();
    }
    let messages = MessageBuffer::with_frames(3);
    let expected = run_block(&mut whole, 3, &messages);
    assert_eq!(expected, vec![(3.0, 6.0), (6.0, 3.0), (9.0, 0.0)]);
    let input = AudioBuffer::<F>::new(MAX_BLOCK_FRAMES);
    let mut output = AudioBuffer::<F>::new(MAX_BLOCK_FRAMES);
    {
        let audio_in = input.next_n_frames_ref(3);
        let mut out = output.next_n_frames_mut(3);
        for index in 0..stepped.operations().len() {
            stepped.step(index, &playhead(), 3, &audio_in, &mut out, &messages);
        }
    }
    assert_eq!(frames_of(&output.next_n_frames_ref(3)), expected);
    assert_eq!(rig.log(), vec!["s", "fx", "s", "fx"]);
}
