use session_relay::event::Event;
use session_relay::fanout::Fanout;

fn chat(n: u32) -> Event {
    Event::ChatMessage { player_id: String::from("p"), text: format!("message {}", n) }
}

fn drain(hub: &mut Fanout, id: usize) -> Vec<Event> {
    let mut out: Vec<Event> = Vec::new();
    while let Some(event) = hub.poll(id) {
        out.push(event);
    }
    out
}

#[test]
fn new_hub_has_no_subscribers() {
    let mut hub = Fanout::new(4);
    assert_eq!(hub.capacity(), 4usize);
    assert_eq!(hub.backlog(0), None);
    assert_eq!(hub.poll(0), None);
    hub.publish(&chat(1));
    assert_eq!(hub.backlog(0), None);
}

#[test]
fn subscription_starts_empty() {
    let mut hub = Fanout::new(4);
    let id = hub.subscribe();
    assert_eq!(hub.backlog(id), Some(0usize));
    assert_eq!(hub.poll(id), None);
}

#[test]
fn subscriber_ids_are_the_smallest_free_ones() {
    let mut hub = Fanout::new(1);
    assert_eq!(hub.subscribe(), 0usize);
    assert_eq!(hub.subscribe(), 1usize);
    assert_eq!(hub.subscribe(), 2usize);
    hub.unsubscribe(1);
    assert_eq!(hub.subscribe(), 1usize);
    assert_eq!(hub.subscribe(), 3usize);
}

#[test]
fn every_subscriber_gets_every_event() {
    let mut hub = Fanout::new(8);
    let a = hub.subscribe();
    let b = hub.subscribe();
    hub.publish(&chat(1));
    hub.publish(&chat(2));
    assert_eq!(drain(&mut hub, a), vec![chat(1), chat(2)]);
    assert_eq!(drain(&mut hub, b), vec![chat(1), chat(2)]);
}

#[test]
fn events_published_before_subscribing_are_not_delivered() {
    let mut hub = Fanout::new(8);
    hub.publish(&chat(1));
    let a = hub.subscribe();
    hub.publish(&chat(2));
    assert_eq!(drain(&mut hub, a), vec![chat(2)]);
}

#[test]
fn lagging_subscriber_keeps_the_most_recent_events() {
    let capacity: usize = 3;
    let mut hub = Fanout::new(capacity);
    let id = hub.subscribe();
    for n in 1u32..=10 {
        hub.publish(&chat(n));
        assert_eq!(hub.backlog(id), Some((n as usize).min(capacity)));
    }
    assert_eq!(drain(&mut hub, id), vec![chat(8), chat(9), chat(10)]);
}

#[test]
fn exactly_capacity_events_are_all_kept() {
    let mut hub = Fanout::new(3);
    let id = hub.subscribe();
    for n in 1u32..=3 {
        hub.publish(&chat(n));
    }
    assert_eq!(drain(&mut hub, id), vec![chat(1), chat(2), chat(3)]);
}

#[test]
fn draining_subscriber_sees_everything_in_order() {
    let mut hub = Fanout::new(2);
    let id = hub.subscribe();
    let mut seen: Vec<Event> = Vec::new();
    for n in 1u32..=50 {
        hub.publish(&chat(n));
        seen.extend(drain(&mut hub, id));
    }
    let expected: Vec<Event> = (1u32..=50).map(chat).collect();
    assert_eq!(seen, expected);
}

#[test]
fn subscriber_that_keeps_up_in_bursts_sees_everything() {
    let mut hub = Fanout::new(4);
    let id = hub.subscribe();
    let mut seen: Vec<Event> = Vec::new();
    let mut n: u32 = 0;
    for _ in 0..10 {
        for _ in 0..4 {
            n += 1;
            hub.publish(&chat(n));
        }
        seen.push(hub.poll(id).unwrap());
        seen.push(hub.poll(id).unwrap());
        seen.extend(drain(&mut hub, id));
    }
    let expected: Vec<Event> = (1u32..=40).map(chat).collect();
    assert_eq!(seen, expected);
}

#[test]
fn slow_subscriber_does_not_cost_the_others_anything() {
    let mut hub = Fanout::new(2);
    let slow = hub.subscribe();
    let quick = hub.subscribe();
    let mut seen: Vec<Event> = Vec::new();
    for n in 1u32..=6 {
        hub.publish(&chat(n));
        seen.extend(drain(&mut hub, quick));
    }
    let expected: Vec<Event> = (1u32..=6).map(chat).collect();
    assert_eq!(seen, expected);
    assert_eq!(drain(&mut hub, slow), vec![chat(5), chat(6)]);
}

#[test]
fn capacity_zero_delivers_nothing() {
    let mut hub = Fanout::new(0);
    let id = hub.subscribe();
    hub.publish(&chat(1));
    assert_eq!(hub.backlog(id), Some(0usize));
    assert_eq!(hub.poll(id), None);
}

#[test]
fn capacity_one_keeps_the_last_event() {
    let mut hub = Fanout::new(1);
    let id = hub.subscribe();
    hub.publish(&chat(1));
    hub.publish(&chat(2));
    assert_eq!(drain(&mut hub, id), vec![chat(2)]);
}

#[test]
fn unsubscribing_discards_the_queue_and_spares_the_others() {
    let mut hub = Fanout::new(4);
    let a = hub.subscribe();
    let b = hub.subscribe();
    hub.publish(&chat(1));
    hub.unsubscribe(a);
    assert_eq!(hub.backlog(a), None);
    assert_eq!(hub.poll(a), None);
    hub.publish(&chat(2));
    assert_eq!(hub.backlog(a), None);
    assert_eq!(drain(&mut hub, b), vec![chat(1), chat(2)]);
}

#[test]
fn unsubscribing_an_unknown_id_changes_nothing() {
    let mut hub = Fanout::new(4);
    let a = hub.subscribe();
    hub.publish(&chat(1));
    hub.unsubscribe(17);
    hub.unsubscribe(a + 1);
    assert_eq!(drain(&mut hub, a), vec![chat(1)]);
}

#[test]
fn reused_id_starts_with_an_empty_queue() {
    let mut hub = Fanout::new(4);
    let a = hub.subscribe();
    hub.publish(&chat(1));
    hub.unsubscribe(a);
    let again = hub.subscribe();
    assert_eq!(again, a);
    assert_eq!(hub.backlog(again), Some(0usize));
}
