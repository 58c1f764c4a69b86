use crate::buffer::message::{Message, MessageValue, MidiMessage};
use vstd::prelude::*;

verus! {

/// What a message asks of a polyphonic instrument with a volume and an
/// attack, decay, sustain, release envelope.
#[derive(Debug, PartialEq)]
pub enum SynthCommand<T> {
    NoteOn { pitch: u8, velocity: u8 },
    NoteOff { pitch: u8 },
    Volume(T),
    Attack(T),
    Decay(T),
    Sustain(T),
    Release(T),
    Ignore,
}

/// What a message asks of an effect with a drive and a level.
#[derive(Debug, PartialEq)]
pub enum DriveCommand<T> {
    Drive(T),
    Level(T),
    Ignore,
}

/// What `message` asks of the instrument that receives it. A message whose
/// path is not used up is for a node further in and asks nothing here. A note
/// on with velocity 0 is a note off.
pub open spec fn synth_command_of<T>(message: Message<T>) -> SynthCommand<T> {
    if message.addr@.len() > 0 {
        SynthCommand::Ignore
    } else {
        match message.value {
            MessageValue::Midi(MidiMessage::NoteOn(n)) => if n.velocity == 0 {
                SynthCommand::NoteOff { pitch: n.pitch }
            } else {
                SynthCommand::NoteOn { pitch: n.pitch, velocity: n.velocity }
            },
            MessageValue::Midi(MidiMessage::NoteOff(n)) => SynthCommand::NoteOff { pitch: n.pitch },
            MessageValue::Midi(_) => SynthCommand::Ignore,
            MessageValue::Float(f) => if f.name@ == "Volume"@ {
                SynthCommand::Volume(f.value)
            } else if f.name@ == "A"@ {
                SynthCommand::Attack(f.value)
            } else if f.name@ == "D"@ {
                SynthCommand::Decay(f.value)
            } else if f.name@ == "S"@ {
                SynthCommand::Sustain(f.value)
            } else if f.name@ == "R"@ {
                SynthCommand::Release(f.value)
            } else {
                SynthCommand::Ignore
            },
            MessageValue::Enum(_) => SynthCommand::Ignore,
        }
    }
}

/// What `message` asks of the effect that receives it. A message whose path
/// is not used up is for a node further in and asks nothing here.
pub open spec fn drive_command_of<T>(message: Message<T>) -> DriveCommand<T> {
    if message.addr@.len() > 0 {
        DriveCommand::Ignore
    } else {
        match message.value {
            MessageValue::Float(f) => if f.name@ == "Drive"@ {
                DriveCommand::Drive(f.value)
            } else if f.name@ == "Level"@ {
                DriveCommand::Level(f.value)
            } else {
                DriveCommand::Ignore
            },
            _ => DriveCommand::Ignore,
        }
    }
}

/// Whether `name` reads `word`.
pub fn reads(name: &String, word: &str) -> (b: bool)
    ensures
        b == (name@ == word@),
{
    let other = word.to_owned();
    *name == other
}

/// What `message` asks of the instrument that receives it.
pub fn synth_command<T: Copy>(message: &Message<T>) -> (c: SynthCommand<T>)
    ensures
        c == synth_command_of(*message),
{
    if message.addr.len() > 0 {
        return SynthCommand::Ignore;
    }
    match &message.value {
        MessageValue::Midi(midi) => match midi {
            MidiMessage::NoteOn(n) => {
                if n.velocity == 0 {
                    SynthCommand::NoteOff { pitch: n.pitch }
                } else {
                    SynthCommand::NoteOn { pitch: n.pitch, velocity: n.velocity }
                }
            },
            MidiMessage::NoteOff(n) => SynthCommand::NoteOff { pitch: n.pitch },
            MidiMessage::ControlChange(_) => SynthCommand::Ignore,
            MidiMessage::PitchBend(_) => SynthCommand::Ignore,
        },
        MessageValue::Float(f) => {
            if reads(&f.name, "Volume") {
                SynthCommand::Volume(f.value)
            } else if reads(&f.name, "A") {
                SynthCommand::Attack(f.value)
            } else if reads(&f.name, "D") {
                SynthCommand::Decay(f.value)
            } else if reads(&f.name, "S") {
                SynthCommand::Sustain(f.value)
            } else if reads(&f.name, "R") {
                SynthCommand::Release(f.value)
            } else {
                SynthCommand::Ignore
            }
        },
        MessageValue::Enum(_) => SynthCommand::Ignore,
    }
}

/// What `message` asks of the effect that receives it.
pub fn drive_command<T: Copy>(message: &Message<T>) -> (c: DriveCommand<T>)
    ensures
        c == drive_command_of(*message),
{
    if message.addr.len() > 0 {
        return DriveCommand::Ignore;
    }
    match &message.value {
        MessageValue::Float(f) => {
            if reads(&f.name, "Drive") {
                DriveCommand::Drive(f.value)
            } else if reads(&f.name, "Level") {
                DriveCommand::Level(f.value)
            } else {
                DriveCommand::Ignore
            }
        },
        _ => DriveCommand::Ignore,
    }
}

} // verus!
