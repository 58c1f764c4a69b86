use rarity::graph::audio_ops::{audio_clone, audio_from_input, audio_merge, audio_to_output, audio_zeros, load_ring, mix_into_ring, silence_ring};
use rarity::graph::message_ops::{absorb, message_clone, message_from_input, message_merge, message_zeros, route_into};
use rarity::{AudioBuffer, AudioBufferRef, Message, MessageBuffer, MessageValue, MidiMessage, NoteOn};

fn ring(frames: &[(i32, i32)], cursor: usize) -> AudioBuffer<i32> {
    let mut b = AudioBuffer::<i32>::new(frames.len());
    {
        let mut w = b.next_n_frames_mut(frames.len());
        for (i, (l, r)) in frames.iter().enumerate() {
            w.set_frame(i, *l, *r);
        }
    }
    b.forward(cursor);
    b
}

fn window(b: &AudioBuffer<i32>, n: usize) -> Vec<(i32, i32)> {
    let v = b.next_n_frames_ref(n);
    (0..n).map(|i| v.frame(i)).collect()
}

fn rings() -> Vec<AudioBuffer<i32>> {
    vec![
        ring(&[(1, -1), (2, -2), (3, -3), (4, -4)], 0),
        ring(&[(10, 0), (20, 0), (30, 0), (40, 0)], 3),
        ring(&[(100, 5), (200, 5), (300, 5), (400, 5)], 2),
    ]
}

#[test]
fn zeros_clears_only_the_windows_of_its_targets() {
    let mut r = rings();
    audio_zeros(&mut r, &vec![1, 1], 2);
    assert_eq!(window(&r[0], 4), vec![(1, -1), (2, -2), (3, -3), (4, -4)]);
    assert_eq!(window(&r[1], 4), vec![(0, 0), (0, 0), (20, 0), (30, 0)]);
    assert_eq!(window(&r[2], 4), vec![(300, 5), (400, 5), (100, 5), (200, 5)]);
    assert_eq!(r[1].cursor(), 3);
    audio_zeros(&mut r, &vec![], 4);
    assert_eq!(window(&r[0], 4), vec![(1, -1), (2, -2), (3, -3), (4, -4)]);
}

#[test]
fn from_input_copies_the_input_into_each_target() {
    let mut r = rings();
    let input = ring(&[(7, 8), (9, 10), (11, 12)], 1);
    audio_from_input(&mut r, &vec![2, 0], 3, &input.next_n_frames_ref(3));
    assert_eq!(window(&r[0], 4), vec![(9, 10), (11, 12), (7, 8), (4, -4)]);
    assert_eq!(window(&r[1], 4), vec![(40, 0), (10, 0), (20, 0), (30, 0)]);
    assert_eq!(window(&r[2], 4), vec![(9, 10), (11, 12), (7, 8), (200, 5)]);
}

#[test]
fn to_output_mixes_every_source_on_top_of_the_output() {
    let r = rings();
    let mut out = ring(&[(1000, 1000), (0, 0), (0, 0)], 0);
    {
        let mut view = out.next_n_frames_mut(2);
        audio_to_output(&r, &vec![0, 2, 0], 2, &mut view);
    }
    assert_eq!(window(&out, 3), vec![(1000 + 1 + 300 + 1, 1000 - 1 + 5 - 1), (2 + 400 + 2, -2 + 5 - 2), (0, 0)]);
    assert_eq!(window(&r[0], 4), vec![(1, -1), (2, -2), (3, -3), (4, -4)]);
}

#[test]
fn clone_overwrites_each_target_with_the_source() {
    let mut r = rings();
    audio_clone(&mut r, 1, &vec![0, 2], 3);
    assert_eq!(window(&r[1], 4), vec![(40, 0), (10, 0), (20, 0), (30, 0)]);
    assert_eq!(window(&r[0], 4), vec![(40, 0), (10, 0), (20, 0), (4, -4)]);
    assert_eq!(window(&r[2], 4), vec![(40, 0), (10, 0), (20, 0), (200, 5)]);
}

#[test]
fn merge_sums_the_sources_into_the_target_and_clips() {
    let mut r = rings();
    audio_merge(&mut r, 0, &vec![1, 2, 1], 2);
    assert_eq!(window(&r[0], 4), vec![(1 + 40 + 300 + 40, -1 + 5), (2 + 10 + 400 + 10, -2 + 5), (3, -3), (4, -4)]);
    assert_eq!(window(&r[1], 4), vec![(40, 0), (10, 0), (20, 0), (30, 0)]);
    let mut loud = vec![ring(&[(i32::MAX - 1, i32::MIN + 1)], 0), ring(&[(5, -5)], 0)];
    audio_merge(&mut loud, 0, &vec![1], 1);
    assert_eq!(window(&loud[0], 1), vec![(i32::MAX, i32::MIN)]);
}

#[test]
fn single_ring_steps_touch_only_the_window() {
    let mut b = ring(&[(1, 1), (2, 2), (3, 3)], 2);
    let src = ring(&[(10, 20), (30, 40)], 0);
    mix_into_ring(&mut b, 2, &src.next_n_frames_ref(2));
    assert_eq!(window(&b, 3), vec![(13, 23), (31, 41), (2, 2)]);
    load_ring(&mut b, 2, &src.next_n_frames_ref(2));
    assert_eq!(window(&b, 3), vec![(10, 20), (30, 40), (2, 2)]);
    silence_ring(&mut b, 1);
    assert_eq!(window(&b, 3), vec![(0, 0), (30, 40), (2, 2)]);
    let plain = [1, 2, 3, 4];
    load_ring(&mut b, 2, &AudioBufferRef::from_slices(&plain[..2], &plain[2..]).unwrap());
    assert_eq!(window(&b, 3), vec![(1, 2), (3, 4), (2, 2)]);
}

fn note(pitch: u8, addr: Vec<&str>) -> Message<i32> {
    Message {
        addr: addr.into_iter().map(|s| s.to_string()).collect(),
        value: MessageValue::Midi(MidiMessage::NoteOn(NoteOn { pitch, velocity: 1 })),
    }
}

fn buffer(frames: usize, entries: Vec<(usize, Message<i32>)>) -> MessageBuffer<i32> {
    let mut b = MessageBuffer::with_frames(frames);
    for (f, m) in entries {
        b.add(f, m);
    }
    b
}

fn listed(b: &MessageBuffer<i32>) -> Vec<(usize, Message<i32>)> {
    let mut out = Vec::new();
    let mut it = b.iter();
    while let Some((f, m)) = it.next() {
        out.push((*f, m.clone()));
    }
    out
}

#[test]
fn route_into_delivers_what_ends_in_the_name() {
    let input = buffer(8, vec![(5, note(1, vec!["x", "saw"])), (1, note(2, vec!["saw"])), (3, note(3, vec!["saw", "x"])), (5, note(4, vec!["saw"])), (0, note(5, vec![]))]);
    let mut target = buffer(3, vec![(2, note(9, vec![]))]);
    route_into(&mut target, 8, &input, &"saw".to_string());
    assert_eq!(target.frame(), 8);
    assert_eq!(listed(&target), vec![(1, note(2, vec![])), (5, note(1, vec!["x"])), (5, note(4, vec![]))]);
    route_into(&mut target, 9, &input, &"x".to_string());
    assert_eq!(listed(&target), vec![(3, note(3, vec!["saw"]))]);
    route_into(&mut target, 8, &input, &"".to_string());
    assert!(target.is_empty());
}

#[test]
fn absorb_adds_after_equal_frames_and_leaves_out_what_is_past_the_window() {
    let source = buffer(10, vec![(1, note(1, vec![])), (4, note(2, vec![])), (4, note(3, vec![])), (9, note(4, vec![]))]);
    let mut target = buffer(6, vec![(4, note(10, vec![])), (0, note(11, vec![])), (5, note(12, vec![]))]);
    absorb(&mut target, &source);
    assert_eq!(target.frame(), 6);
    assert_eq!(
        listed(&target),
        vec![(0, note(11, vec![])), (1, note(1, vec![])), (4, note(10, vec![])), (4, note(2, vec![])), (4, note(3, vec![])), (5, note(12, vec![]))]
    );
}

fn boxes() -> Vec<MessageBuffer<i32>> {
    vec![
        buffer(8, vec![(1, note(1, vec![])), (6, note(2, vec![]))]),
        buffer(8, vec![(1, note(3, vec![]))]),
        buffer(8, vec![]),
        buffer(8, vec![(7, note(4, vec![]))]),
    ]
}

#[test]
fn message_zeros_empties_and_rewindows_its_targets() {
    let mut b = boxes();
    message_zeros(&mut b, &vec![0, 2], 5);
    assert_eq!((b[0].len(), b[0].frame()), (0, 5));
    assert_eq!((b[2].len(), b[2].frame()), (0, 5));
    assert_eq!((b[1].len(), b[1].frame()), (1, 8));
    assert_eq!(listed(&b[3]), vec![(7, note(4, vec![]))]);
}

#[test]
fn message_from_input_routes_by_the_name_of_each_target() {
    let mut b = boxes();
    let input = buffer(8, vec![(2, note(1, vec!["a"])), (3, note(2, vec!["b"])), (4, note(3, vec!["deep", "a"]))]);
    message_from_input(&mut b, &vec![(3, "a".to_string()), (0, "b".to_string()), (1, "c".to_string())], 8, &input);
    assert_eq!(listed(&b[3]), vec![(2, note(1, vec![])), (4, note(3, vec!["deep"]))]);
    assert_eq!(listed(&b[0]), vec![(3, note(2, vec![]))]);
    assert!(b[1].is_empty());
    assert!(b[2].is_empty());
    // the later entry for one buffer decides
    message_from_input(&mut b, &vec![(2, "a".to_string()), (2, "b".to_string())], 8, &input);
    assert_eq!(listed(&b[2]), vec![(3, note(2, vec![]))]);
}

#[test]
fn message_clone_adds_the_source_to_each_target() {
    let mut b = boxes();
    message_clone(&mut b, 0, &vec![1, 3, 1], );
    assert_eq!(listed(&b[0]), vec![(1, note(1, vec![])), (6, note(2, vec![]))]);
    assert_eq!(
        listed(&b[1]),
        vec![(1, note(3, vec![])), (1, note(1, vec![])), (1, note(1, vec![])), (6, note(2, vec![])), (6, note(2, vec![]))]
    );
    assert_eq!(listed(&b[3]), vec![(1, note(1, vec![])), (6, note(2, vec![])), (7, note(4, vec![]))]);
    assert!(b[2].is_empty());
}

#[test]
fn message_merge_adds_each_source_in_turn() {
    let mut b = boxes();
    message_merge(&mut b, 1, &vec![3, 0]);
    assert_eq!(
        listed(&b[1]),
        vec![(1, note(3, vec![])), (1, note(1, vec![])), (6, note(2, vec![])), (7, note(4, vec![]))]
    );
    assert_eq!(listed(&b[0]), vec![(1, note(1, vec![])), (6, note(2, vec![]))]);
    message_merge(&mut b, 2, &vec![]);
    assert!(b[2].is_empty());
}
