use rarity::{FloatMessage, Message, MessageBuffer, MessageCollector, MessageValue};

fn float(addr: Vec<&str>, name: &str, value: f64) -> Message<f64> {
    Message {
        addr: addr.into_iter().map(|s| s.to_string()).collect(),
        value: MessageValue::Float(FloatMessage { name: name.to_string(), value }),
    }
}

fn path(segments: Vec<&str>) -> Vec<String> {
    segments.into_iter().map(|s| s.to_string()).collect()
}

fn listed(b: &MessageBuffer<f64>) -> Vec<(usize, Message<f64>)> {
    let mut out = Vec::new();
    let mut it = b.iter();
    while let Some((f, m)) = it.next() {
        out.push((*f, m.clone()));
    }
    out
}

#[test]
fn a_sent_message_comes_out_under_its_port_at_its_frame() {
    let mut c = MessageCollector::<f64>::new();
    let tx = c.add_port(path(vec!["synth"]));
    tx.send((100, float(vec![], "Vol", 0.5))).unwrap();
    c.collect();
    assert_eq!(c.waiting(), 1);
    let block = c.drain_frames(200);
    assert_eq!(block.frame(), 200);
    assert_eq!(listed(&block), vec![(100, float(vec!["synth"], "Vol", 0.5))]);
    assert_eq!(c.consumed_frames(), 200);
    assert_eq!(c.waiting(), 0);
}

#[test]
fn ports_are_merged_by_frame_and_equal_frames_keep_arrival_order() {
    let mut c = MessageCollector::<f64>::new();
    let one = c.add_port(path(vec!["one"]));
    let two = c.add_port(path(vec!["two"]));
    one.send((10, float(vec![], "a", 1.0))).unwrap();
    one.send((20, float(vec![], "b", 2.0))).unwrap();
    two.send((15, float(vec![], "c", 3.0))).unwrap();
    two.send((20, float(vec![], "d", 4.0))).unwrap();
    c.collect();
    let block = c.drain_frames(30);
    assert_eq!(
        listed(&block),
        vec![
            (10, float(vec!["one"], "a", 1.0)),
            (15, float(vec!["two"], "c", 3.0)),
            (20, float(vec!["one"], "b", 2.0)),
            (20, float(vec!["two"], "d", 4.0)),
        ]
    );
}

#[test]
fn a_late_message_is_put_at_the_start_of_the_next_block() {
    let mut c = MessageCollector::<f64>::new();
    let tx = c.add_port(vec![]);
    assert!(c.drain_frames(100).is_empty());
    assert_eq!(c.consumed_frames(), 100);
    tx.send((80, float(vec![], "m", 1.0))).unwrap();
    c.collect();
    let block = c.drain_frames(10);
    assert_eq!(listed(&block), vec![(0, float(vec![], "m", 1.0))]);
    assert_eq!(block.frame(), 10);
    assert_eq!(c.consumed_frames(), 110);
}

#[test]
fn only_messages_before_the_end_of_the_block_leave() {
    let mut c = MessageCollector::<f64>::new();
    let tx = c.add_port(path(vec!["p"]));
    for f in [5usize, 9, 10, 10, 11, 3, 19, 20, 25] {
        tx.send((f, float(vec!["in"], "m", f as f64))).unwrap();
    }
    c.collect();
    assert_eq!(c.waiting(), 9);
    let first = c.drain_frames(10);
    assert_eq!(listed(&first).iter().map(|e| e.0).collect::<Vec<_>>(), vec![3, 5, 9]);
    assert_eq!(listed(&first)[0].1, float(vec!["p", "in"], "m", 3.0));
    let second = c.drain_frames(10);
    assert_eq!(listed(&second).iter().map(|e| (e.0, e.1.clone())).collect::<Vec<_>>(), vec![
        (0, float(vec!["p", "in"], "m", 10.0)),
        (0, float(vec!["p", "in"], "m", 10.0)),
        (1, float(vec!["p", "in"], "m", 11.0)),
        (9, float(vec!["p", "in"], "m", 19.0)),
    ]);
    assert_eq!(c.waiting(), 2);
    let third = c.drain_frames(5);
    assert_eq!(listed(&third).iter().map(|e| e.0).collect::<Vec<_>>(), vec![0]);
    assert_eq!(c.consumed_frames(), 25);
    assert_eq!(c.waiting(), 1);
}

#[test]
fn an_empty_block_hands_out_nothing_and_keeps_late_messages() {
    let mut c = MessageCollector::<f64>::new();
    let tx = c.add_port(vec![]);
    c.drain_frames(50);
    tx.send((7, float(vec![], "late", 0.0))).unwrap();
    c.collect();
    let none = c.drain_frames(0);
    assert!(none.is_empty());
    assert_eq!(none.frame(), 0);
    assert_eq!(c.consumed_frames(), 50);
    assert_eq!(c.waiting(), 1);
    assert_eq!(listed(&c.drain_frames(1)), vec![(0, float(vec![], "late", 0.0))]);
}

#[test]
fn a_taken_path_is_told_apart_from_a_free_one() {
    let mut c = MessageCollector::<f64>::new();
    assert!(!c.has_port(&path(vec!["synth"])));
    let first = c.add_port(path(vec!["synth"]));
    assert!(c.has_port(&path(vec!["synth"])));
    assert!(!c.has_port(&path(vec!["synth", "a"])));
    assert!(!c.has_port(&vec![]));
    assert!(!c.has_port(&path(vec!["a", "synth"])));
    let second = c.add_port(path(vec!["synth", "a"]));
    let third = c.add_port(vec![]);
    assert!(c.has_port(&path(vec!["synth", "a"])));
    assert!(c.has_port(&vec![]));
    // the first port keeps working beside the later ones
    third.send((2, float(vec![], "c", 0.0))).unwrap();
    first.send((1, float(vec![], "a", 0.0))).unwrap();
    second.send((1, float(vec![], "b", 0.0))).unwrap();
    c.collect();
    assert_eq!(
        listed(&c.drain_frames(4)),
        vec![(1, float(vec!["synth"], "a", 0.0)), (1, float(vec!["synth", "a"], "b", 0.0)), (2, float(vec![], "c", 0.0))]
    );
}

#[test]
fn enqueue_files_under_the_port_after_equal_frames() {
    let mut c = MessageCollector::<f64>::new();
    c.add_port(path(vec!["x"]));
    c.add_port(path(vec!["y"]));
    c.enqueue(1, 4, float(vec![], "first", 0.0));
    c.enqueue(0, 4, float(vec!["deep"], "second", 0.0));
    c.enqueue(1, 2, float(vec![], "third", 0.0));
    assert_eq!(
        listed(&c.drain_frames(8)),
        vec![(2, float(vec!["y"], "third", 0.0)), (4, float(vec!["y"], "first", 0.0)), (4, float(vec!["x", "deep"], "second", 0.0))]
    );
}

#[test]
fn several_handles_interleave_by_frame() {
    let mut c = MessageCollector::<f64>::new();
    let mut handles = Vec::new();
    for p in 0..4usize {
        handles.push(c.add_port(path(vec!["port", ["a", "b", "c", "d"][p]])));
    }
    for k in 0..50usize {
        for (p, tx) in handles.iter().enumerate() {
            tx.send((k * 4 + p, float(vec![], "n", k as f64))).unwrap();
        }
    }
    c.collect();
    c.collect();
    let block = c.drain_frames(200);
    let frames: Vec<usize> = listed(&block).iter().map(|e| e.0).collect();
    assert_eq!(frames, (0..200).collect::<Vec<_>>());
    assert_eq!(listed(&block)[6].1, float(vec!["port", "c"], "n", 1.0));
    // a handle that outlives the collector sends into nothing
    drop(c);
    assert!(handles[0].send((0, float(vec![], "n", 0.0))).is_err());
}
