use session_relay::codec::{decode, encode};
use session_relay::connection::{AdmissionError, Connection, Forward, Receipt};
use session_relay::event::Event;
use session_relay::fanout::Fanout;
use session_relay::player::Player;
use session_relay::wire::DecodeError;
use session_relay::world::WorldState;

fn shared() -> (WorldState, Fanout) {
    (WorldState::new(), Fanout::new(100))
}

fn moved(id: &str, x: f32, y: f32) -> Event {
    Event::PlayerMoved { player_id: String::from(id), x: x.to_bits(), y: y.to_bits() }
}

fn chat(id: &str, text: &str) -> Event {
    Event::ChatMessage { player_id: String::from(id), text: String::from(text) }
}

fn join(world: &mut WorldState, hub: &mut Fanout, id: &str) -> (Connection, Vec<u8>) {
    Connection::admit_with_id(world, hub, String::from(id)).unwrap()
}

/// Everything the peer of `conn` would be sent right now.
fn outbox(conn: &Connection, hub: &mut Fanout) -> Vec<Event> {
    let mut out: Vec<Event> = Vec::new();
    loop {
        match conn.forward(hub) {
            Forward::Idle => return out,
            Forward::Skipped => {}
            Forward::Send(bytes) => out.push(decode(&bytes).unwrap()),
        }
    }
}

fn pending(hub: &mut Fanout, id: usize) -> Vec<Event> {
    let mut out: Vec<Event> = Vec::new();
    while let Some(event) = hub.poll(id) {
        out.push(event);
    }
    out
}

#[test]
fn admission_registers_the_player_at_the_start_position() {
    let (mut world, mut hub) = shared();
    let (conn, _) = join(&mut world, &mut hub, "abcdef-123");
    assert_eq!(conn.id(), "abcdef-123");
    let me = world.get(conn.id()).unwrap();
    assert_eq!(me, Player::spawn(String::from("abcdef-123")));
    assert_eq!(me.name, "Playerabcdef");
    assert_eq!(f32::from_bits(me.x), 50.0f32);
    assert_eq!(f32::from_bits(me.y), 50.0f32);
}

#[test]
fn greeting_is_the_snapshot_after_admission() {
    let (mut world, mut hub) = shared();
    let (_a, first) = join(&mut world, &mut hub, "a-000001");
    assert_eq!(
        decode(&first),
        Ok(Event::WorldSnapshot { players: vec![Player::spawn(String::from("a-000001"))] })
    );
    let (_b, second) = join(&mut world, &mut hub, "b-000002");
    assert_eq!(
        decode(&second),
        Ok(Event::WorldSnapshot {
            players: vec![
                Player::spawn(String::from("a-000001")),
                Player::spawn(String::from("b-000002")),
            ],
        })
    );
    assert_eq!(second, encode(&Event::WorldSnapshot { players: world.snapshot() }));
}

#[test]
fn admission_announces_the_player_to_everyone() {
    let (mut world, mut hub) = shared();
    let watcher = hub.subscribe();
    let (conn, _) = join(&mut world, &mut hub, "a-000001");
    let joined = Event::PlayerJoined { player: Player::spawn(String::from("a-000001")) };
    assert_eq!(pending(&mut hub, watcher), vec![joined.clone()]);
    assert_eq!(pending(&mut hub, conn.subscriber()), vec![joined]);
}

#[test]
fn own_join_is_not_forwarded_to_the_peer() {
    let (mut world, mut hub) = shared();
    let (conn, _) = join(&mut world, &mut hub, "a-000001");
    assert_eq!(conn.forward(&mut hub), Forward::Skipped);
    assert_eq!(conn.forward(&mut hub), Forward::Idle);
}

#[test]
fn each_connection_gets_a_subscription_of_its_own() {
    let (mut world, mut hub) = shared();
    let (a, _) = join(&mut world, &mut hub, "a-000001");
    let (b, _) = join(&mut world, &mut hub, "b-000002");
    assert_ne!(a.subscriber(), b.subscriber());
}

#[test]
fn fresh_admission_draws_a_uuid() {
    let (mut world, mut hub) = shared();
    let (conn, greeting) = Connection::admit_fresh(&mut world, &mut hub).unwrap();
    let id: &str = conn.id();
    assert_eq!(id.len(), 36usize);
    for (i, c) in id.chars().enumerate() {
        if i == 8 || i == 13 || i == 18 || i == 23 {
            assert_eq!(c, '-');
        } else {
            assert!(matches!(c, '0'..='9' | 'a'..='f'), "{:?} at {}", c, i);
        }
    }
    let me = world.get(conn.id()).unwrap();
    assert_eq!(me.name, format!("Player{}", &id[..6]));
    assert_eq!(decode(&greeting), Ok(Event::WorldSnapshot { players: vec![me] }));
}

#[test]
fn fresh_ids_differ() {
    let (mut world, mut hub) = shared();
    let (a, _) = Connection::admit_fresh(&mut world, &mut hub).unwrap();
    let (b, _) = Connection::admit_fresh(&mut world, &mut hub).unwrap();
    assert_ne!(a.id(), b.id());
    assert_eq!(world.snapshot().len(), 2usize);
}

#[test]
fn second_client_joins_and_moves() {
    let (mut world, mut hub) = shared();

    let (a, greeting_a) = join(&mut world, &mut hub, "aaaaaa-a");
    match decode(&greeting_a) {
        Ok(Event::WorldSnapshot { players }) => {
            let others: Vec<&Player> = players.iter().filter(|p| &p.id != a.id()).collect();
            assert_eq!(others.len(), 0usize);
        }
        other => panic!("greeting decoded to {:?}", other),
    }
    assert_eq!(outbox(&a, &mut hub), Vec::new());

    let (b, _) = join(&mut world, &mut hub, "bbbbbb-b");
    assert_eq!(
        outbox(&a, &mut hub),
        vec![Event::PlayerJoined { player: Player::spawn(String::from("bbbbbb-b")) }]
    );

    let receipt = b.receive(&mut world, &mut hub, &encode(&moved("", 10.0, 20.0)));
    assert_eq!(receipt, Receipt::Published);
    let record = world.get(b.id()).unwrap();
    assert_eq!(f32::from_bits(record.x), 10.0f32);
    assert_eq!(f32::from_bits(record.y), 20.0f32);
    assert_eq!(outbox(&a, &mut hub), vec![moved("bbbbbb-b", 10.0, 20.0)]);
    assert_eq!(outbox(&b, &mut hub), Vec::new());
}

#[test]
fn abrupt_disconnect_removes_the_player_and_announces_it_once() {
    let (mut world, mut hub) = shared();
    let (a, _) = join(&mut world, &mut hub, "aaaaaa-a");
    let (b, _) = join(&mut world, &mut hub, "bbbbbb-b");
    let (c, _) = join(&mut world, &mut hub, "cccccc-c");
    outbox(&b, &mut hub);
    outbox(&c, &mut hub);
    let a_subscription = a.subscriber();

    a.close(&mut world, &mut hub);

    assert_eq!(world.get(&String::from("aaaaaa-a")), None);
    assert_eq!(
        world.snapshot(),
        vec![Player::spawn(String::from("bbbbbb-b")), Player::spawn(String::from("cccccc-c"))]
    );
    let left = Event::PlayerLeft { player_id: String::from("aaaaaa-a") };
    assert_eq!(outbox(&b, &mut hub), vec![left.clone()]);
    assert_eq!(outbox(&c, &mut hub), vec![left]);
    assert_eq!(hub.backlog(a_subscription), None);
    assert_eq!(outbox(&b, &mut hub), Vec::new());
}

#[test]
fn chat_survives_a_malformed_message_in_between() {
    let (mut world, mut hub) = shared();
    let watcher = hub.subscribe();
    let (conn, _) = join(&mut world, &mut hub, "aaaaaa-a");
    pending(&mut hub, watcher);
    let before = world.snapshot();

    let one = conn.receive(&mut world, &mut hub, &encode(&chat("x", "one")));
    let two = conn.receive(&mut world, &mut hub, &encode(&chat("x", "two")));
    let bad = conn.receive(&mut world, &mut hub, &[0xde, 0xad, 0xbe, 0xef, 0x01]);
    let three = conn.receive(&mut world, &mut hub, &encode(&chat("x", "three")));

    assert_eq!(one, Receipt::Published);
    assert_eq!(two, Receipt::Published);
    assert_eq!(bad, Receipt::Rejected(DecodeError::UnknownTag(0xefbe_adde)));
    assert_eq!(three, Receipt::Published);
    assert_eq!(
        pending(&mut hub, watcher),
        vec![chat("aaaaaa-a", "one"), chat("aaaaaa-a", "two"), chat("aaaaaa-a", "three")]
    );
    assert_eq!(world.snapshot(), before);
}

#[test]
fn move_is_published_under_the_senders_own_id() {
    let (mut world, mut hub) = shared();
    let (a, _) = join(&mut world, &mut hub, "aaaaaa-a");
    let (b, _) = join(&mut world, &mut hub, "bbbbbb-b");
    outbox(&a, &mut hub);

    let forged = encode(&moved("aaaaaa-a", 1.0, 2.0));
    assert_eq!(b.receive(&mut world, &mut hub, &forged), Receipt::Published);

    assert_eq!(world.get(a.id()), Some(Player::spawn(String::from("aaaaaa-a"))));
    let record = world.get(b.id()).unwrap();
    assert_eq!((f32::from_bits(record.x), f32::from_bits(record.y)), (1.0f32, 2.0f32));
    assert_eq!(outbox(&a, &mut hub), vec![moved("bbbbbb-b", 1.0, 2.0)]);
}

#[test]
fn chat_is_published_under_the_senders_own_id() {
    let (mut world, mut hub) = shared();
    let (a, _) = join(&mut world, &mut hub, "aaaaaa-a");
    let (b, _) = join(&mut world, &mut hub, "bbbbbb-b");
    outbox(&a, &mut hub);
    let forged = encode(&chat("aaaaaa-a", "it was me"));
    assert_eq!(b.receive(&mut world, &mut hub, &forged), Receipt::Published);
    assert_eq!(outbox(&a, &mut hub), vec![chat("bbbbbb-b", "it was me")]);
}

#[test]
fn events_that_peers_may_not_originate_are_ignored() {
    let (mut world, mut hub) = shared();
    let watcher = hub.subscribe();
    let (conn, _) = join(&mut world, &mut hub, "aaaaaa-a");
    pending(&mut hub, watcher);
    let before = world.snapshot();
    let intruder = Player::spawn(String::from("intruder"));

    let joined = encode(&Event::PlayerJoined { player: intruder.clone() });
    let left = encode(&Event::PlayerLeft { player_id: String::from("aaaaaa-a") });
    let snapshot = encode(&Event::WorldSnapshot { players: vec![intruder] });
    assert_eq!(conn.receive(&mut world, &mut hub, &joined), Receipt::Ignored);
    assert_eq!(conn.receive(&mut world, &mut hub, &left), Receipt::Ignored);
    assert_eq!(conn.receive(&mut world, &mut hub, &snapshot), Receipt::Ignored);

    assert_eq!(world.snapshot(), before);
    assert_eq!(pending(&mut hub, watcher), Vec::new());
}

#[test]
fn malformed_messages_are_rejected_with_the_reason() {
    let (mut world, mut hub) = shared();
    let watcher = hub.subscribe();
    let (conn, _) = join(&mut world, &mut hub, "aaaaaa-a");
    pending(&mut hub, watcher);

    assert_eq!(
        conn.receive(&mut world, &mut hub, &[]),
        Receipt::Rejected(DecodeError::Truncated)
    );
    assert_eq!(
        conn.receive(&mut world, &mut hub, &[7u8, 0, 0, 0]),
        Receipt::Rejected(DecodeError::UnknownTag(7))
    );
    assert_eq!(
        conn.receive(&mut world, &mut hub, &[3u8, 0, 0, 0, 1, 0, 0, 0, 0, 0, 0, 0, 0xff]),
        Receipt::Rejected(DecodeError::InvalidText)
    );
    assert_eq!(pending(&mut hub, watcher), Vec::new());
    assert_eq!(world.snapshot(), vec![Player::spawn(String::from("aaaaaa-a"))]);
}

#[test]
fn move_after_the_record_is_gone_does_nothing() {
    let (mut world, mut hub) = shared();
    let watcher = hub.subscribe();
    let (conn, _) = join(&mut world, &mut hub, "aaaaaa-a");
    assert!(world.remove(conn.id()).is_some());
    pending(&mut hub, watcher);

    let receipt = conn.receive(&mut world, &mut hub, &encode(&moved("", 3.0, 4.0)));

    assert_eq!(receipt, Receipt::NotRegistered);
    assert!(world.snapshot().is_empty());
    assert_eq!(pending(&mut hub, watcher), Vec::new());
}

#[test]
fn non_finite_coordinates_are_accepted() {
    let (mut world, mut hub) = shared();
    let (a, _) = join(&mut world, &mut hub, "aaaaaa-a");
    let (b, _) = join(&mut world, &mut hub, "bbbbbb-b");
    outbox(&a, &mut hub);
    let data = encode(&moved("", f32::NAN, f32::NEG_INFINITY));
    assert_eq!(b.receive(&mut world, &mut hub, &data), Receipt::Published);
    assert_eq!(outbox(&a, &mut hub), vec![moved("bbbbbb-b", f32::NAN, f32::NEG_INFINITY)]);
}

#[test]
fn own_events_are_skipped_and_others_forwarded_in_order() {
    let (mut world, mut hub) = shared();
    let (a, _) = join(&mut world, &mut hub, "aaaaaa-a");
    let (b, _) = join(&mut world, &mut hub, "bbbbbb-b");
    outbox(&a, &mut hub);
    outbox(&b, &mut hub);

    a.receive(&mut world, &mut hub, &encode(&chat("", "from a")));
    b.receive(&mut world, &mut hub, &encode(&chat("", "from b")));
    a.receive(&mut world, &mut hub, &encode(&moved("", 1.0, 1.0)));

    assert_eq!(a.forward(&mut hub), Forward::Skipped);
    assert_eq!(a.forward(&mut hub), Forward::Send(encode(&chat("bbbbbb-b", "from b"))));
    assert_eq!(a.forward(&mut hub), Forward::Skipped);
    assert_eq!(a.forward(&mut hub), Forward::Idle);
    assert_eq!(
        outbox(&b, &mut hub),
        vec![chat("aaaaaa-a", "from a"), moved("aaaaaa-a", 1.0, 1.0)]
    );
}

#[test]
fn snapshot_from_the_hub_is_forwarded() {
    let (mut world, mut hub) = shared();
    let (a, _) = join(&mut world, &mut hub, "aaaaaa-a");
    outbox(&a, &mut hub);
    let snapshot = Event::WorldSnapshot { players: world.snapshot() };
    hub.publish(&snapshot);
    assert_eq!(outbox(&a, &mut hub), vec![snapshot]);
}

#[test]
fn closing_leaves_other_subscriptions_open() {
    let (mut world, mut hub) = shared();
    let (a, _) = join(&mut world, &mut hub, "aaaaaa-a");
    let (b, _) = join(&mut world, &mut hub, "bbbbbb-b");
    outbox(&b, &mut hub);
    a.close(&mut world, &mut hub);
    assert_eq!(b.receive(&mut world, &mut hub, &encode(&chat("", "still here"))), Receipt::Published);
    assert_eq!(hub.backlog(b.subscriber()), Some(2usize));
}

#[test]
fn closed_subscription_is_reused_by_the_next_connection() {
    let (mut world, mut hub) = shared();
    let (a, _) = join(&mut world, &mut hub, "aaaaaa-a");
    let (_b, _) = join(&mut world, &mut hub, "bbbbbb-b");
    let freed = a.subscriber();
    a.close(&mut world, &mut hub);
    let (c, _) = join(&mut world, &mut hub, "cccccc-c");
    assert_eq!(c.subscriber(), freed);
    assert_eq!(outbox(&c, &mut hub), Vec::new());
}

#[test]
fn slow_peer_loses_only_its_own_oldest_events() {
    let mut world = WorldState::new();
    let mut hub = Fanout::new(2);
    let (slow, _) = join(&mut world, &mut hub, "slow-slow");
    let (quick, _) = join(&mut world, &mut hub, "quick-quick");
    let (talker, _) = join(&mut world, &mut hub, "talker-talker");
    outbox(&slow, &mut hub);
    outbox(&quick, &mut hub);
    let mut seen: Vec<Event> = Vec::new();
    for n in 1u32..=5 {
        let line = format!("line {}", n);
        talker.receive(&mut world, &mut hub, &encode(&chat("", &line)));
        seen.extend(outbox(&quick, &mut hub));
    }
    let all: Vec<Event> =
        (1u32..=5).map(|n| chat("talker-talker", &format!("line {}", n))).collect();
    assert_eq!(seen, all);
    assert_eq!(outbox(&slow, &mut hub), all[3..].to_vec());
}

#[test]
fn id_in_use_is_refused_and_nothing_changes() {
    let (mut world, mut hub) = shared();
    let watcher = hub.subscribe();
    let (a, _) = join(&mut world, &mut hub, "aaaaaa-a");
    assert!(world.update_position(a.id(), 7.0f32.to_bits(), 8.0f32.to_bits()));
    pending(&mut hub, watcher);
    let before = world.snapshot();

    let second = Connection::admit_with_id(&mut world, &mut hub, String::from("aaaaaa-a"));

    assert_eq!(second, Err(AdmissionError::IdInUse));
    assert_eq!(world.snapshot(), before);
    assert_eq!(pending(&mut hub, watcher), Vec::new());
    assert_eq!(hub.backlog(a.subscriber() + 1), None);
}

#[test]
fn id_can_be_admitted_again_after_its_connection_closed() {
    let (mut world, mut hub) = shared();
    let (a, _) = join(&mut world, &mut hub, "aaaaaa-a");
    a.close(&mut world, &mut hub);
    let (again, greeting) = join(&mut world, &mut hub, "aaaaaa-a");
    assert_eq!(again.id(), "aaaaaa-a");
    assert_eq!(
        decode(&greeting),
        Ok(Event::WorldSnapshot { players: vec![Player::spawn(String::from("aaaaaa-a"))] })
    );
}

#[test]
fn drain_returns_what_is_for_the_peer_and_empties_the_queue() {
    let (mut world, mut hub) = shared();
    let (a, _) = join(&mut world, &mut hub, "aaaaaa-a");
    let (b, _) = join(&mut world, &mut hub, "bbbbbb-b");
    a.receive(&mut world, &mut hub, &encode(&chat("", "from a")));
    b.receive(&mut world, &mut hub, &encode(&chat("", "from b")));
    a.receive(&mut world, &mut hub, &encode(&moved("", 1.0, 1.0)));
    b.receive(&mut world, &mut hub, &encode(&moved("", 2.0, 2.0)));

    let batch = a.drain(&mut hub);

    assert_eq!(
        batch,
        vec![
            encode(&Event::PlayerJoined { player: Player::spawn(String::from("bbbbbb-b")) }),
            encode(&chat("bbbbbb-b", "from b")),
            encode(&moved("bbbbbb-b", 2.0, 2.0)),
        ]
    );
    assert_eq!(hub.backlog(a.subscriber()), Some(0usize));
    assert_eq!(hub.backlog(b.subscriber()), Some(5usize));
    assert_eq!(a.drain(&mut hub), Vec::<Vec<u8>>::new());
}

#[test]
fn drain_of_only_own_events_returns_nothing() {
    let (mut world, mut hub) = shared();
    let (a, _) = join(&mut world, &mut hub, "aaaaaa-a");
    a.receive(&mut world, &mut hub, &encode(&chat("", "talking to myself")));
    assert_eq!(hub.backlog(a.subscriber()), Some(2usize));
    assert_eq!(a.drain(&mut hub), Vec::<Vec<u8>>::new());
    assert_eq!(hub.backlog(a.subscriber()), Some(0usize));
}

#[test]
fn drain_after_the_subscription_is_gone_returns_nothing() {
    let (mut world, mut hub) = shared();
    let (a, _) = join(&mut world, &mut hub, "aaaaaa-a");
    let (b, _) = join(&mut world, &mut hub, "bbbbbb-b");
    hub.unsubscribe(a.subscriber());
    b.receive(&mut world, &mut hub, &encode(&chat("", "anyone?")));
    assert_eq!(a.drain(&mut hub), Vec::<Vec<u8>>::new());
    assert_eq!(a.forward(&mut hub), Forward::Idle);
    assert_eq!(hub.backlog(b.subscriber()), Some(2usize));
}

#[test]
fn fresh_admission_succeeds_beside_ids_that_are_no_uuids() {
    let (mut world, mut hub) = shared();
    let (_a, _) = join(&mut world, &mut hub, "aaaaaa-a");
    let (_b, _) = join(&mut world, &mut hub, "");
    let (_c, _) = join(&mut world, &mut hub, "0123456789abcdef0123456789abcdef0123");
    for _ in 0..20 {
        let admitted = Connection::admit_fresh(&mut world, &mut hub);
        assert!(admitted.is_ok());
    }
    assert_eq!(world.snapshot().len(), 23usize);
}
