use rarity::node::block::{BlockWalk, Step};
use rarity::node::command::{drive_command, synth_command, DriveCommand, SynthCommand};
use rarity::node::voice::{find_voice, VoiceSlot};
use rarity::{
    ControlChange, EnumMessage, FloatMessage, Message, MessageBuffer, MessageValue, MidiMessage,
    NoteOff, NoteOn, PitchBend,
};

fn midi(m: MidiMessage) -> Message<f64> {
    Message { addr: vec![], value: MessageValue::Midi(m) }
}

fn float(name: &str, value: f64) -> Message<f64> {
    Message { addr: vec![], value: MessageValue::Float(FloatMessage { name: name.to_string(), value }) }
}

fn walked(frames: usize, entries: Vec<(usize, Message<f64>)>) -> Vec<String> {
    let mut b = MessageBuffer::with_frames(1000);
    for (f, m) in entries {
        b.add(f, m);
    }
    let mut out = Vec::new();
    let mut walk = BlockWalk::new(frames, &b);
    loop {
        match walk.next() {
            Step::Render(n) => out.push(format!("render {}", n)),
            Step::Apply(m) => match &m.value {
                MessageValue::Float(f) => out.push(format!("apply {}", f.name)),
                _ => out.push("apply".to_string()),
            },
            Step::Done => break,
        }
    }
    assert!(matches!(walk.next(), Step::Done));
    out
}

#[test]
fn a_block_is_split_at_each_message() {
    assert_eq!(walked(64, vec![]), vec!["render 64"]);
    assert_eq!(walked(0, vec![]), Vec::<String>::new());
    assert_eq!(walked(64, vec![(10, float("a", 0.0))]), vec!["render 10", "apply a", "render 54"]);
    assert_eq!(
        walked(64, vec![(0, float("a", 0.0)), (0, float("b", 0.0)), (10, float("c", 0.0)), (10, float("d", 0.0)), (63, float("e", 0.0))]),
        vec!["apply a", "apply b", "render 10", "apply c", "apply d", "render 53", "apply e", "render 1"]
    );
    // a message at or past the end of the block ends the messages
    assert_eq!(
        walked(8, vec![(3, float("a", 0.0)), (8, float("b", 0.0)), (9, float("c", 0.0))]),
        vec!["render 3", "apply a", "render 5"]
    );
    assert_eq!(walked(8, vec![(8, float("b", 0.0))]), vec!["render 8"]);
}

fn slot(silent: bool, pitch: u8, counter: usize) -> VoiceSlot {
    VoiceSlot { silent, pitch, counter }
}

#[test]
fn a_new_note_takes_the_first_free_voice() {
    assert_eq!(find_voice(&vec![slot(true, 0, 0)], 60), 0);
    assert_eq!(find_voice(&vec![slot(false, 40, 1), slot(true, 50, 9), slot(true, 60, 0)], 60), 1);
}

#[test]
fn with_no_free_voice_the_oldest_is_taken_but_the_bass_is_spared() {
    let v = vec![slot(false, 40, 1), slot(false, 50, 2), slot(false, 60, 3)];
    // higher than the bass: the bass stays, the oldest of the others goes
    assert_eq!(find_voice(&v, 70), 1);
    assert_eq!(find_voice(&v, 41), 1);
    // not higher than the bass: the oldest of all goes
    assert_eq!(find_voice(&v, 40), 0);
    assert_eq!(find_voice(&v, 10), 0);
    // the first of equally old voices goes
    let v = vec![slot(false, 40, 1), slot(false, 50, 7), slot(false, 60, 7), slot(false, 45, 8)];
    assert_eq!(find_voice(&v, 70), 1);
    // every voice holds the lowest note: the oldest of all goes
    let v = vec![slot(false, 40, 5), slot(false, 40, 2), slot(false, 40, 2)];
    assert_eq!(find_voice(&v, 70), 1);
    // two voices hold the bass: both are spared
    let v = vec![slot(false, 40, 1), slot(false, 40, 2), slot(false, 90, 3)];
    assert_eq!(find_voice(&v, 70), 2);
}

#[test]
fn messages_ask_the_instrument_what_they_name() {
    assert!(matches!(synth_command(&midi(MidiMessage::NoteOn(NoteOn { pitch: 65, velocity: 80 }))), SynthCommand::NoteOn { pitch: 65, velocity: 80 }));
    assert!(matches!(synth_command(&midi(MidiMessage::NoteOn(NoteOn { pitch: 65, velocity: 0 }))), SynthCommand::NoteOff { pitch: 65 }));
    assert!(matches!(synth_command(&midi(MidiMessage::NoteOff(NoteOff { pitch: 7 }))), SynthCommand::NoteOff { pitch: 7 }));
    assert!(matches!(synth_command(&midi(MidiMessage::ControlChange(ControlChange { number: 1, value: 2 }))), SynthCommand::Ignore));
    assert!(matches!(synth_command(&midi(MidiMessage::PitchBend(PitchBend { value: -3 }))), SynthCommand::Ignore));
    assert!(matches!(synth_command(&float("Volume", 0.5)), SynthCommand::Volume(v) if v == 0.5));
    assert!(matches!(synth_command(&float("A", 0.1)), SynthCommand::Attack(v) if v == 0.1));
    assert!(matches!(synth_command(&float("D", 0.2)), SynthCommand::Decay(v) if v == 0.2));
    assert!(matches!(synth_command(&float("S", 0.3)), SynthCommand::Sustain(v) if v == 0.3));
    assert!(matches!(synth_command(&float("R", 0.4)), SynthCommand::Release(v) if v == 0.4));
    assert!(matches!(synth_command(&float("volume", 0.5)), SynthCommand::Ignore));
    assert!(matches!(synth_command(&float("", 0.5)), SynthCommand::Ignore));
    let choice = Message::<f64> { addr: vec![], value: MessageValue::Enum(EnumMessage { name: "A".to_string(), value: 1 }) };
    assert!(matches!(synth_command(&choice), SynthCommand::Ignore));
    // a message that is for a node further in asks nothing here
    let mut deep = float("Volume", 0.5);
    deep.addr.push("inner".to_string());
    assert!(matches!(synth_command(&deep), SynthCommand::Ignore));
}

#[test]
fn messages_ask_the_effect_what_they_name() {
    assert!(matches!(drive_command(&float("Drive", 0.9)), DriveCommand::Drive(v) if v == 0.9));
    assert!(matches!(drive_command(&float("Level", 0.1)), DriveCommand::Level(v) if v == 0.1));
    assert!(matches!(drive_command(&float("Volume", 0.1)), DriveCommand::Ignore));
    assert!(matches!(drive_command(&midi(MidiMessage::NoteOff(NoteOff { pitch: 7 }))), DriveCommand::Ignore));
    let mut deep = float("Drive", 0.5);
    deep.addr.push("inner".to_string());
    assert!(matches!(drive_command(&deep), DriveCommand::Ignore));
}

fn marks(at_top: bool, at_floor: bool, at_sustain: bool) -> rarity::node::envelope::LevelMarks {
    rarity::node::envelope::LevelMarks { at_top, at_floor, at_sustain }
}

#[test]
fn an_envelope_moves_through_its_phases() {
    let silent = rarity::node::envelope::EnvelopePhase::Silent;
    let attack = rarity::node::envelope::EnvelopePhase::Attack;
    let decay = rarity::node::envelope::EnvelopePhase::Decay;
    let sustain = rarity::node::envelope::EnvelopePhase::Sustain;
    let release = rarity::node::envelope::EnvelopePhase::Release;
    assert_eq!(silent.note_on(), attack);
    assert_eq!(release.note_on(), attack);
    assert_eq!(attack.step(marks(false, true, true)), attack);
    assert_eq!(attack.step(marks(true, false, false)), decay);
    assert_eq!(decay.step(marks(true, false, false)), decay);
    assert_eq!(decay.step(marks(false, false, true)), sustain);
    assert_eq!(decay.step(marks(false, true, true)), silent);
    assert_eq!(sustain.step(marks(false, true, true)), sustain);
    assert_eq!(release.step(marks(false, false, true)), release);
    assert_eq!(release.step(marks(false, true, true)), silent);
    assert_eq!(silent.step(marks(true, false, false)), silent);
    assert_eq!(attack.note_off(), release);
    assert_eq!(decay.note_off(), release);
    assert_eq!(sustain.note_off(), release);
    assert_eq!(release.note_off(), release);
    assert_eq!(silent.note_off(), silent);
    assert!(!silent.sounds());
    assert!(attack.sounds() && decay.sounds() && sustain.sounds() && release.sounds());
}
