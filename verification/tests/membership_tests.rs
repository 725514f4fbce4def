use party_sessions::commands::register_party;
use party_sessions::db::Database;
use party_sessions::db::DatabaseServer;
use party_sessions::party_groups::Group;
use party_sessions::signals::process_signal;
use party_sessions::signals::processor_step;
use party_sessions::signals::record_step;
use party_sessions::signals::MembershipSignal;
use party_sessions::signals::SignalKind;
use party_sessions::signals::SignalOutcome;

fn grant(actor: i64, name: &str) -> MembershipSignal {
    MembershipSignal {
        actor_id: actor,
        actor_name: String::from(name),
        kind: SignalKind::Grant,
        join_marker: true,
    }
}

fn revoke(actor: i64, name: &str) -> MembershipSignal {
    MembershipSignal {
        actor_id: actor,
        actor_name: String::from(name),
        kind: SignalKind::Revoke,
        join_marker: true,
    }
}

fn party(owner: i64, capacity: i64) -> Group {
    Group::new(owner, capacity, String::from("Title"), String::from("Game"), 1, 2, 3)
}

#[test]
fn capacity_two_scenario_runs_to_the_table() {
    // capacity = 2, created by owner O = 100
    let mut g = party(100, 2);

    // Grant from A: occupancy 1, not full
    let o = process_signal(&mut g, &grant(1, "A"));
    assert_eq!(o, SignalOutcome::Joined);
    assert_eq!(g.player_amount(), 1);
    assert!(!g.full());

    // Grant from A again: no-op, occupancy stays 1
    let o = process_signal(&mut g, &grant(1, "A"));
    assert_eq!(o, SignalOutcome::NoOp);
    assert_eq!(g.player_amount(), 1);

    // Grant from B: occupancy 2, full
    let o = process_signal(&mut g, &grant(2, "B"));
    assert_eq!(o, SignalOutcome::Joined);
    assert_eq!(g.player_amount(), 2);
    assert!(g.full());

    // Grant from C: rejected, occupancy stays 2
    let o = process_signal(&mut g, &grant(3, "C"));
    assert_eq!(o, SignalOutcome::RejectedFull);
    assert_eq!(g.player_amount(), 2);
    assert!(!g.in_player_vec(&3));

    // Revoke from A: occupancy 1, no longer full
    let o = process_signal(&mut g, &revoke(1, "A"));
    assert_eq!(o, SignalOutcome::Left);
    assert_eq!(g.player_amount(), 1);
    assert!(!g.full());
    assert!(!g.in_player_vec(&1));
    assert!(g.in_player_vec(&2));
}

#[test]
fn grant_when_full_changes_nothing() {
    let mut g = party(100, 2);
    process_signal(&mut g, &grant(1, "A"));
    process_signal(&mut g, &grant(2, "B"));
    let before_players = g.current_players.clone();
    let before_names = g.player_names.clone();
    let o = process_signal(&mut g, &grant(3, "C"));
    assert_eq!(o, SignalOutcome::RejectedFull);
    assert_eq!(g.current_players, before_players);
    assert_eq!(g.player_names, before_names);
}

#[test]
fn revoke_for_absent_actor_is_noop() {
    let mut g = party(100, 3);
    process_signal(&mut g, &grant(1, "A"));
    let o = process_signal(&mut g, &revoke(9, "Ghost"));
    assert_eq!(o, SignalOutcome::NoOp);
    assert_eq!(g.player_amount(), 1);
}

#[test]
fn wrong_marker_is_stripped_without_state_change() {
    let mut g = party(100, 3);
    let other = MembershipSignal {
        actor_id: 1,
        actor_name: String::from("A"),
        kind: SignalKind::Grant,
        join_marker: false,
    };
    let o = process_signal(&mut g, &other);
    assert_eq!(o, SignalOutcome::RejectedMarker);
    assert_eq!(g.player_amount(), 0);
}

#[test]
fn occupancy_always_tracks_member_collection() {
    let mut g = party(100, 3);
    let signals = [
        grant(1, "A"),
        grant(2, "B"),
        grant(2, "B"),
        revoke(3, "C"),
        grant(3, "C"),
        grant(4, "D"),
        revoke(1, "A"),
        revoke(1, "A"),
        grant(4, "D"),
    ];
    for s in signals.iter() {
        process_signal(&mut g, s);
        assert_eq!(g.player_amount() as usize, g.current_players.len());
        assert_eq!(g.current_players.len(), g.player_names.len());
    }
}

#[test]
fn record_step_updates_the_owned_party_in_place() {
    let mut server = DatabaseServer::new_empty(10, 100);
    server.add_party(party(100, 3));
    let o = record_step(&mut server, &100, &grant(1, "A"));
    assert_eq!(o, Some(SignalOutcome::Joined));
    let g = server.get_party(&100).expect("party should still be there");
    assert_eq!(g.player_amount(), 1);
    assert!(g.in_player_vec(&1));
}

#[test]
fn record_step_reports_nothing_when_party_is_gone() {
    let mut server = DatabaseServer::new_empty(10, 100);
    let o = record_step(&mut server, &100, &grant(1, "A"));
    assert_eq!(o, None);
}

#[test]
fn processor_step_persists_accepted_signals() {
    let mut db = Database::new();
    db.get_or_insert_new(10, Some(77)).unwrap();
    register_party(&mut db, 10, party(100, 3)).unwrap();

    let o = processor_step(&mut db, 10, &100, &grant(1, "A"));
    assert_eq!(o, Some(SignalOutcome::Joined));
    let g = db.get(10).unwrap().get_party(&100).unwrap();
    assert_eq!(g.player_amount(), 1);

    let o = processor_step(&mut db, 10, &100, &revoke(1, "A"));
    assert_eq!(o, Some(SignalOutcome::Left));
    let g = db.get(10).unwrap().get_party(&100).unwrap();
    assert_eq!(g.player_amount(), 0);
}

#[test]
fn processor_step_reports_nothing_without_record_or_party() {
    let mut db = Database::new();
    assert_eq!(processor_step(&mut db, 10, &100, &grant(1, "A")), None);
    db.get_or_insert_new(10, Some(77)).unwrap();
    assert_eq!(processor_step(&mut db, 10, &100, &grant(1, "A")), None);
}

#[test]
fn record_step_leaves_record_alone_on_rejected_signal() {
    let mut server = DatabaseServer::new_empty(10, 100);
    let mut g = party(100, 2);
    g.add_member(1, String::from("A"));
    g.add_member(2, String::from("B"));
    server.add_party(g);
    let o = record_step(&mut server, &100, &grant(3, "C"));
    assert_eq!(o, Some(SignalOutcome::RejectedFull));
    let g = server.get_party(&100).unwrap();
    assert_eq!(g.player_amount(), 2);
    assert!(!g.in_player_vec(&3));
}
