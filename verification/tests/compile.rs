use rarity::graph::links::{check_links, Shape, Source, Target};
use rarity::graph::schedule::schedule;
use rarity::{GraphError, Link, LinkError, NodeType, TapError};

#[test]
fn schedule_puts_every_item_after_what_it_waits_for() {
    assert_eq!(schedule(0, &vec![]), Some(vec![]));
    assert_eq!(schedule(3, &vec![]), Some(vec![0, 1, 2]));
    assert_eq!(schedule(3, &vec![(2, 0), (1, 0)]), Some(vec![1, 2, 0]));
    assert_eq!(schedule(4, &vec![(3, 2), (2, 1), (1, 0), (3, 0)]), Some(vec![3, 2, 1, 0]));
    assert_eq!(schedule(5, &vec![(0, 3), (4, 3), (3, 1), (0, 3)]), Some(vec![0, 2, 4, 3, 1]));
}

#[test]
fn schedule_finds_no_order_in_a_cycle() {
    assert_eq!(schedule(1, &vec![(0, 0)]), None);
    assert_eq!(schedule(2, &vec![(0, 1), (1, 0)]), None);
    assert_eq!(schedule(4, &vec![(0, 1), (1, 2), (2, 3), (3, 1)]), None);
}

fn link(from: &str, to: &str) -> Link {
    Link(from.to_string(), to.to_string())
}

#[test]
fn links_resolve_to_nodes_and_an_order() {
    let names = vec!["out".to_string(), "fx".to_string(), "src".to_string(), "clock".to_string()];
    let shapes = vec![
        Shape { kind: NodeType::AudioEffect, audio_in: 1, message_out: 0 },
        Shape { kind: NodeType::AudioEffect, audio_in: 2, message_out: 0 },
        Shape { kind: NodeType::AudioSource, audio_in: 0, message_out: 0 },
        Shape { kind: NodeType::MidiEffect, audio_in: 0, message_out: 3 },
    ];
    let audio = vec![link("src", "fx"), link("A_IN_NODE", "fx"), link("fx", "out"), link("out", "A_OUT_NODE")];
    let message = vec![link("clock", "src")];
    let wiring = check_links(&names, &shapes, &audio, &message).unwrap();
    assert_eq!(wiring.order, vec![3, 2, 1, 0]);
    assert_eq!(wiring.message, vec![(3, 2)]);
    assert_eq!(wiring.audio.len(), 4);
    assert!(matches!(wiring.audio[0], (Source::Node(2), Target::Node(1))));
    assert!(matches!(wiring.audio[1], (Source::Input, Target::Node(1))));
    assert!(matches!(wiring.audio[2], (Source::Node(1), Target::Node(0))));
    assert!(matches!(wiring.audio[3], (Source::Node(0), Target::Output)));
    // a message link can close a cycle with audio links
    let r = check_links(&names, &shapes, &audio, &vec![link("clock", "src"), link("clock", "clock")]);
    assert!(matches!(r, Err(LinkError::InvalidLinkTarget(n)) if n == "clock"));
}

#[test]
fn errors_say_what_went_wrong() {
    let n = || "saw".to_string();
    assert_eq!(GraphError::ReservedName(n()).message(), "node name saw is reserved, use another name please");
    assert_eq!(GraphError::RepeatedName(n()).message(), "node name saw is already in use, use another name please");
    assert_eq!(GraphError::UnknownName(n()).message(), "node name saw not found");
    assert_eq!(GraphError::LinkError(LinkError::UnknownName(n())).message(), "link error");
    assert_eq!(GraphError::TapError(TapError::UnknownName(n())).message(), "tap error");
    assert_eq!(LinkError::UnknownName(n()).message(), "node name saw not found");
    assert_eq!(LinkError::LinkedSource(n()).message(), "link source saw already linked");
    assert_eq!(LinkError::LinkedTarget(n()).message(), "link target saw already linked");
    assert_eq!(LinkError::InvalidLinkSource(n()).message(), "saw is not a link source");
    assert_eq!(LinkError::InvalidLinkTarget(n()).message(), "saw is not a link target");
    assert_eq!(LinkError::LinkIsTapped(n(), "fx".to_string()).message(), "saw fx are already tapped");
    assert_eq!(TapError::UnknownName(n()).message(), "node name saw not found");
    assert_eq!(TapError::TappedTarget(n()).message(), "saw already tapped");
    assert_eq!(TapError::InvalidTapTarget(n()).message(), "saw is not a tap target");
    assert_eq!(TapError::TapIsLinked(n(), "fx".to_string()).message(), "saw fx are already linked");
    assert!(matches!(GraphError::from(LinkError::LinkedSource(n())), GraphError::LinkError(LinkError::LinkedSource(s)) if s == "saw"));
    assert!(matches!(GraphError::from(TapError::TappedTarget(n())), GraphError::TapError(TapError::TappedTarget(s)) if s == "saw"));
}
