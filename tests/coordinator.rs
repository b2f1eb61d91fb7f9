use chat_relay::coordinator::{notice_text, Coordinator, Event, Fanout, Notice, Outbound};
use chat_relay::ingress::{accept_frame, Inbound};

fn summary(fs: &[Fanout]) -> Vec<(&Outbound, Vec<u64>)> {
    fs.iter().map(|f| (&f.msg, f.targets.clone())).collect()
}

#[test]
fn join_announces_count_to_everyone_including_newcomer() {
    let mut c: Coordinator<&str> = Coordinator::new();
    let s = c.step(Event::Join(1, "a"));
    assert!(s.closing.is_none());
    assert_eq!(
        summary(&s.fanouts),
        vec![
            (&Outbound::UserCount(1), vec![1]),
            (&Outbound::System(Notice::Joined), vec![1]),
        ]
    );
    let s = c.step(Event::Join(2, "b"));
    assert_eq!(
        summary(&s.fanouts),
        vec![
            (&Outbound::UserCount(2), vec![1, 2]),
            (&Outbound::System(Notice::Joined), vec![1, 2]),
        ]
    );
}

#[test]
fn scenario_join_publish_by_stranger_and_malformed_kick() {
    let mut c: Coordinator<&str> = Coordinator::new();
    let a = 10u64;
    let b = 20u64;
    let stranger = 30u64;
    let first = c.step(Event::Join(a, "A"));
    let second = c.step(Event::Join(b, "B"));
    assert_eq!(c.registry().ids(), vec![a, b]);
    assert_eq!(first.fanouts[0].msg, Outbound::UserCount(1));
    assert_eq!(second.fanouts[0].msg, Outbound::UserCount(2));

    let raw = r#"{"ChatMessage":{"username":"C","time":"12:00","content":"hi"}}"#.to_string();
    let ev = accept_frame(stranger, Inbound::Chat, raw.clone()).expect("a chat message is published");
    let s = c.step(ev);
    assert_eq!(s.fanouts.len(), 1);
    assert_eq!(s.fanouts[0].msg, Outbound::Forward(raw));
    assert_eq!(s.fanouts[0].targets, vec![a, b]);

    let ev = accept_frame(a, Inbound::Malformed, "{not json".to_string()).expect("a malformed frame kicks");
    let s = c.step(ev);
    assert_eq!(s.closing, Some("A"));
    assert_eq!(c.registry().ids(), vec![b]);
    assert_eq!(
        summary(&s.fanouts),
        vec![
            (&Outbound::UserCount(1), vec![b]),
            (&Outbound::System(Notice::Left), vec![b]),
        ]
    );
}

#[test]
fn scenario_failed_write_removes_only_that_connection() {
    let mut c: Coordinator<&str> = Coordinator::new();
    c.step(Event::Join(1, "A"));
    c.step(Event::Join(2, "B"));
    c.step(Event::Join(3, "C"));
    let s = c.step(Event::Publish("from A".to_string()));
    let sent = s.fanouts[0].targets.clone();
    assert_eq!(sent, vec![1, 2, 3]);
    let next = c.settle(&sent, &vec![true, false, true]);
    assert_eq!(c.registry().ids(), vec![1, 3]);
    assert_eq!(
        summary(&next),
        vec![
            (&Outbound::UserCount(2), vec![1, 3]),
            (&Outbound::System(Notice::Left), vec![1, 3]),
        ]
    );
    let s = c.step(Event::Publish("again".to_string()));
    assert_eq!(s.fanouts[0].targets, vec![1, 3]);
    assert_eq!(s.fanouts[0].msg, Outbound::Forward("again".to_string()));
}

#[test]
fn publish_writes_once_to_each_registered_connection() {
    let mut c: Coordinator<u32> = Coordinator::new();
    for id in 0..5u64 {
        c.step(Event::Join(id, id as u32));
    }
    let s = c.step(Event::Publish("payload".to_string()));
    assert!(s.closing.is_none());
    assert_eq!(s.fanouts.len(), 1);
    assert_eq!(s.fanouts[0].targets, vec![0, 1, 2, 3, 4]);
    assert_eq!(s.fanouts[0].msg, Outbound::Forward("payload".to_string()));
    assert_eq!(c.registry().len(), 5);
}

#[test]
fn publish_with_nobody_registered_targets_nobody() {
    let mut c: Coordinator<u32> = Coordinator::new();
    let s = c.step(Event::Publish("x".to_string()));
    assert_eq!(s.fanouts.len(), 1);
    assert!(s.fanouts[0].targets.is_empty());
}

#[test]
fn leave_then_publish_skips_departed() {
    let mut c: Coordinator<u32> = Coordinator::new();
    c.step(Event::Join(1, 1));
    c.step(Event::Join(2, 2));
    let s = c.step(Event::Leave(1));
    assert_eq!(
        summary(&s.fanouts),
        vec![
            (&Outbound::UserCount(1), vec![2]),
            (&Outbound::System(Notice::Left), vec![2]),
        ]
    );
    let s = c.step(Event::Publish("p".to_string()));
    assert_eq!(s.fanouts[0].targets, vec![2]);
    assert!(!c.registry().contains(1));
}

#[test]
fn second_leave_is_silent() {
    let mut c: Coordinator<u32> = Coordinator::new();
    c.step(Event::Join(1, 1));
    c.step(Event::Join(2, 2));
    let first = c.step(Event::Leave(2));
    assert_eq!(first.fanouts.len(), 2);
    let second = c.step(Event::Leave(2));
    assert!(second.fanouts.is_empty());
    assert!(second.closing.is_none());
    assert_eq!(c.registry().ids(), vec![1]);
}

#[test]
fn kick_of_unknown_identity_does_nothing() {
    let mut c: Coordinator<u32> = Coordinator::new();
    c.step(Event::Join(1, 1));
    let s = c.step(Event::Kick(9));
    assert!(s.closing.is_none());
    assert!(s.fanouts.is_empty());
    assert_eq!(c.registry().ids(), vec![1]);
}

#[test]
fn kick_then_publish_skips_kicked() {
    let mut c: Coordinator<u32> = Coordinator::new();
    c.step(Event::Join(1, 100));
    c.step(Event::Join(2, 200));
    let s = c.step(Event::Kick(2));
    assert_eq!(s.closing, Some(200));
    let s = c.step(Event::Publish("p".to_string()));
    assert_eq!(s.fanouts[0].targets, vec![1]);
}

#[test]
fn settle_without_failures_changes_nothing() {
    let mut c: Coordinator<u32> = Coordinator::new();
    c.step(Event::Join(1, 1));
    c.step(Event::Join(2, 2));
    let next = c.settle(&vec![1, 2], &vec![true, true]);
    assert!(next.is_empty());
    assert_eq!(c.registry().ids(), vec![1, 2]);
}

#[test]
fn settle_after_failure_of_an_already_removed_connection() {
    let mut c: Coordinator<u32> = Coordinator::new();
    c.step(Event::Join(1, 1));
    c.step(Event::Join(2, 2));
    c.step(Event::Leave(2));
    let next = c.settle(&vec![1, 2], &vec![true, false]);
    assert!(next.is_empty());
    assert_eq!(c.registry().ids(), vec![1]);
}

#[test]
fn settle_with_every_write_failing_empties_registry() {
    let mut c: Coordinator<u32> = Coordinator::new();
    c.step(Event::Join(1, 1));
    c.step(Event::Join(2, 2));
    let next = c.settle(&vec![1, 2], &vec![false, false]);
    assert_eq!(c.registry().len(), 0);
    assert_eq!(
        summary(&next),
        vec![
            (&Outbound::UserCount(0), vec![]),
            (&Outbound::System(Notice::Left), vec![]),
        ]
    );
}

#[test]
fn notice_texts() {
    assert_eq!(notice_text(Notice::Joined), "Someone has joined");
    assert_eq!(notice_text(Notice::Left), "Somebody has left");
    assert_eq!(
        notice_text(Notice::Kicked),
        "You have been kicked for sending arbitrary JSON to the server."
    );
}

#[test]
fn frames_of_the_relay_own_kinds_are_ignored() {
    assert!(accept_frame::<u32>(4, Inbound::UserCount, "{\"UserCountChange\":99}".to_string()).is_none());
    assert!(accept_frame::<u32>(4, Inbound::System, "{\"SystemMessage\":\"x\"}".to_string()).is_none());
}

#[test]
fn typing_indicator_is_published_verbatim() {
    let raw = "{\"TypingEvent\":{\"username\":\"u\",\"is_starting\":true}}".to_string();
    match accept_frame::<u32>(4, Inbound::Typing, raw.clone()) {
        Some(Event::Publish(p)) => assert_eq!(p, raw),
        _ => panic!("a typing indicator is published"),
    }
}

#[test]
fn malformed_frame_kicks_its_sender() {
    match accept_frame::<u32>(8, Inbound::Malformed, "garbage".to_string()) {
        Some(Event::Kick(id)) => assert_eq!(id, 8),
        _ => panic!("a malformed frame kicks its sender"),
    }
}
