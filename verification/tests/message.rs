use rarity::{FloatMessage, Message, MessageBuffer, MessageValue, MidiMessage, NoteOff, NoteOn};

fn note_on(pitch: u8) -> Message<f64> {
    Message { addr: vec![], value: MessageValue::Midi(MidiMessage::NoteOn(NoteOn { pitch, velocity: 100 })) }
}

fn note_off(pitch: u8) -> Message<f64> {
    Message { addr: vec![], value: MessageValue::Midi(MidiMessage::NoteOff(NoteOff { pitch })) }
}

fn float(name: &str, value: f64) -> Message<f64> {
    Message { addr: vec![], value: MessageValue::Float(FloatMessage { name: name.to_string(), value }) }
}

fn listed(b: &MessageBuffer<f64>) -> Vec<(usize, Message<f64>)> {
    let mut out = Vec::new();
    let mut it = b.iter();
    while let Some((f, m)) = it.next() {
        out.push((*f, m.clone()));
    }
    out
}

#[test]
fn equal_frames_keep_insertion_order() {
    let mut b = MessageBuffer::with_frames(8);
    b.add(3, note_on(60));
    b.add(3, note_off(60));
    b.add(1, float("Vol", 0.5));
    assert_eq!(listed(&b), vec![(1, float("Vol", 0.5)), (3, note_on(60)), (3, note_off(60))]);
    assert_eq!(b.len(), 3);
    assert_eq!(b.frame(), 8);
}

#[test]
fn interleaved_inserts_stay_sorted_and_stable() {
    let mut b = MessageBuffer::with_frames(16);
    b.add(5, note_on(1));
    b.add(2, note_on(2));
    b.add(5, note_on(3));
    assert_eq!(listed(&b), vec![(2, note_on(2)), (5, note_on(1)), (5, note_on(3))]);
    b.add(5, note_on(4));
    b.add(5, note_on(5));
    b.add(0, note_on(6));
    b.add(15, note_on(7));
    assert_eq!(
        listed(&b),
        vec![(0, note_on(6)), (2, note_on(2)), (5, note_on(1)), (5, note_on(3)), (5, note_on(4)), (5, note_on(5)), (15, note_on(7))]
    );
    assert_eq!(b.get(2), Some((&5, &note_on(1))));
    assert_eq!(b.get(7), None);
}

#[test]
fn new_buffer_is_empty_and_clear_keeps_the_window() {
    let b = MessageBuffer::<f64>::new();
    assert!(b.is_empty());
    assert_eq!(b.len(), 0);
    assert_eq!(b.frame(), 0);
    assert!(b.iter().next().is_none());
    let mut b = MessageBuffer::with_frames(4);
    b.add(3, note_on(1));
    b.add(0, note_on(2));
    assert!(!b.is_empty());
    let mut it = b.iter();
    assert_eq!(it.size_hint(), (2, Some(2)));
    assert_eq!(it.next(), Some((&0, &note_on(2))));
    assert_eq!(it.size_hint(), (1, Some(1)));
    assert_eq!(it.next(), Some((&3, &note_on(1))));
    assert_eq!(it.next(), None);
    b.clear();
    assert!(b.is_empty());
    assert_eq!(b.frame(), 4);
    b.set_frames(9);
    assert_eq!(b.frame(), 9);
    b.add(8, note_on(3));
    assert_eq!(listed(&b), vec![(8, note_on(3))]);
}

#[test]
fn many_inserts_match_a_stable_sort() {
    let mut b = MessageBuffer::with_frames(7);
    let mut want: Vec<(usize, Message<f64>)> = Vec::new();
    let mut x: usize = 12345;
    for i in 0..200u32 {
        x = x.wrapping_mul(1103515245).wrapping_add(12345) % 2147483648;
        let frame = x % 7;
        let m = float("n", i as f64);
        b.add(frame, m.clone());
        want.push((frame, m));
    }
    want.sort_by_key(|e| e.0);
    assert_eq!(listed(&b), want);
}

#[test]
fn a_cloned_message_equals_the_one_it_was_cloned_from() {
    let m = Message { addr: vec!["a".to_string(), "b".to_string()], value: MessageValue::Float(FloatMessage { name: "Vol".to_string(), value: 0.5 }) };
    assert_eq!(m.clone(), m);
    assert_eq!(note_off(3).clone(), note_off(3));
}

#[test]
fn a_held_message_is_replaced_at_its_frame() {
    let mut b = MessageBuffer::with_frames(8);
    b.add(1, note_on(60));
    b.add(4, float("Vol", 0.25));
    b.add(4, note_off(60));
    assert_eq!(b.replace(1, float("Vol", 0.75)), Ok(float("Vol", 0.25)));
    assert_eq!(listed(&b), vec![(1, note_on(60)), (4, float("Vol", 0.75)), (4, note_off(60))]);
    assert_eq!(b.replace(3, note_on(1)), Err(note_on(1)));
    assert_eq!(listed(&b), vec![(1, note_on(60)), (4, float("Vol", 0.75)), (4, note_off(60))]);
    assert_eq!(b.frame(), 8);
    b.add(4, note_on(2));
    assert_eq!(listed(&b).last(), Some(&(4, note_on(2))));
}
