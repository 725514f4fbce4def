use party_sessions::commands::register_party;
use party_sessions::db::Database;
use party_sessions::party_groups::Group;
use party_sessions::party_groups::INITIAL_COUNTDOWN;
use party_sessions::signals::record_step;
use party_sessions::signals::MembershipSignal;
use party_sessions::signals::SignalKind;
use party_sessions::timer::scheduler_tick;
use party_sessions::timer::tick_record;
use party_sessions::timer::TickOutcome;

fn party(owner: i64, capacity: i64) -> Group {
    Group::new(owner, capacity, String::from("Title"), String::from("Game"), 41, 42, 43)
}

fn store_with_party(guild: i64, owner: i64, capacity: i64) -> Database {
    let mut db = Database::new();
    db.get_or_insert_new(guild, Some(owner)).unwrap();
    register_party(&mut db, guild, party(owner, capacity)).unwrap();
    db
}

fn grant(actor: i64, name: &str) -> MembershipSignal {
    MembershipSignal {
        actor_id: actor,
        actor_name: String::from(name),
        kind: SignalKind::Grant,
        join_marker: true,
    }
}

fn revoke(actor: i64, name: &str) -> MembershipSignal {
    MembershipSignal {
        actor_id: actor,
        actor_name: String::from(name),
        kind: SignalKind::Revoke,
        join_marker: true,
    }
}

fn countdown_of(db: &Database, guild: i64, owner: i64) -> i64 {
    db.get(guild).unwrap().get_party(&owner).unwrap().time_til_auto_del
}

#[test]
fn tick_decrements_by_exactly_one_under_threshold() {
    let mut db = store_with_party(10, 100, 5);
    assert_eq!(countdown_of(&db, 10, 100), INITIAL_COUNTDOWN);
    let o = scheduler_tick(&mut db, 10, &100);
    assert_eq!(o, TickOutcome::Ticked);
    assert_eq!(countdown_of(&db, 10, 100), INITIAL_COUNTDOWN - 1);
}

#[test]
fn tick_freezes_at_survival_threshold() {
    let mut db = store_with_party(10, 100, 5);
    let mut rec = db.get(10).unwrap();
    record_step(&mut rec, &100, &grant(1, "A"));
    record_step(&mut rec, &100, &grant(2, "B"));
    db.insert_or_replace(rec);
    let before = countdown_of(&db, 10, 100);
    for _ in 0..5 {
        let o = scheduler_tick(&mut db, 10, &100);
        assert_eq!(o, TickOutcome::Frozen);
    }
    assert_eq!(countdown_of(&db, 10, 100), before);
}

#[test]
fn empty_party_is_reclaimed_after_the_full_countdown() {
    // capacity 5, no Grant ever arrives: after exactly the initial countdown
    // of ticks the party is deleted and absent from the store.
    let mut db = store_with_party(10, 100, 5);
    for i in 1..INITIAL_COUNTDOWN {
        let o = scheduler_tick(&mut db, 10, &100);
        assert_eq!(o, TickOutcome::Ticked, "tick {} should only decrement", i);
        assert_eq!(countdown_of(&db, 10, 100), INITIAL_COUNTDOWN - i);
    }
    let o = scheduler_tick(&mut db, 10, &100);
    assert_eq!(
        o,
        TickOutcome::Expired { voice_id: 41, text_id: 42, role_id: 43 }
    );
    assert!(db.get(10).unwrap().get_party(&100).is_none());
    // the group record itself survives; only the party left it
    assert_eq!(db.get(10).unwrap().owner_id, 100);
}

#[test]
fn expiry_reports_the_three_resource_handles_exactly_once() {
    let mut db = store_with_party(10, 100, 5);
    let mut expired = 0;
    for _ in 0..INITIAL_COUNTDOWN + 3 {
        match scheduler_tick(&mut db, 10, &100) {
            TickOutcome::Expired { voice_id, text_id, role_id } => {
                assert_eq!((voice_id, text_id, role_id), (41, 42, 43));
                expired += 1;
            }
            TickOutcome::Gone => {}
            TickOutcome::Ticked => {}
            TickOutcome::Frozen => panic!("no occupancy, nothing should freeze"),
        }
    }
    assert_eq!(expired, 1);
    // once gone, the loop is told to stop
    assert_eq!(scheduler_tick(&mut db, 10, &100), TickOutcome::Gone);
}

#[test]
fn countdown_resumes_where_frozen_not_from_the_start() {
    // occupancy reaches 2, then drops back to 1 before expiry: the countdown
    // resumes from where it was frozen.
    let mut db = store_with_party(10, 100, 5);

    // burn four ticks while empty
    for _ in 0..4 {
        assert_eq!(scheduler_tick(&mut db, 10, &100), TickOutcome::Ticked);
    }
    let frozen_at = countdown_of(&db, 10, 100);
    assert_eq!(frozen_at, INITIAL_COUNTDOWN - 4);

    // two members join: healthy, frozen
    let mut rec = db.get(10).unwrap();
    record_step(&mut rec, &100, &grant(1, "A"));
    record_step(&mut rec, &100, &grant(2, "B"));
    db.insert_or_replace(rec);
    for _ in 0..7 {
        assert_eq!(scheduler_tick(&mut db, 10, &100), TickOutcome::Frozen);
    }
    assert_eq!(countdown_of(&db, 10, 100), frozen_at);

    // one leaves: decrementing resumes from the frozen value
    let mut rec = db.get(10).unwrap();
    record_step(&mut rec, &100, &revoke(2, "B"));
    db.insert_or_replace(rec);
    assert_eq!(scheduler_tick(&mut db, 10, &100), TickOutcome::Ticked);
    assert_eq!(countdown_of(&db, 10, 100), frozen_at - 1);
}

#[test]
fn tick_reports_gone_for_absent_party_or_group() {
    let mut db = Database::new();
    assert_eq!(scheduler_tick(&mut db, 10, &100), TickOutcome::Gone);
    db.get_or_insert_new(10, Some(77)).unwrap();
    assert_eq!(scheduler_tick(&mut db, 10, &100), TickOutcome::Gone);
}

#[test]
fn tick_record_alone_follows_the_same_rules() {
    let mut rec = party_sessions::db::DatabaseServer::new_empty(10, 77);
    let mut g = party(100, 5);
    g.time_til_auto_del = 2;
    rec.add_party(g);
    assert_eq!(tick_record(&mut rec, &100), TickOutcome::Ticked);
    assert_eq!(rec.get_party(&100).unwrap().time_til_auto_del, 1);
    assert_eq!(
        tick_record(&mut rec, &100),
        TickOutcome::Expired { voice_id: 41, text_id: 42, role_id: 43 }
    );
    assert!(rec.get_party(&100).is_none());
    assert_eq!(tick_record(&mut rec, &100), TickOutcome::Gone);
}
