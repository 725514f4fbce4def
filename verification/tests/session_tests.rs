use party_sessions::party_groups::Group;
use party_sessions::party_groups::INITIAL_COUNTDOWN;

fn sample_group(capacity: i64) -> Group {
    Group::new(
        100,
        capacity,
        String::from("Raid night"),
        String::from("Chess"),
        11,
        22,
        33,
    )
}

#[test]
fn new_group_starts_empty_with_full_countdown() {
    let g = sample_group(4);
    assert_eq!(g.party_owner, 100);
    assert_eq!(g.player_amount(), 0);
    assert_eq!(g.max_players, 4);
    assert_eq!(g.title, "Raid night");
    assert_eq!(g.game, "Chess");
    assert_eq!(g.voice_id, 11);
    assert_eq!(g.text_id, 22);
    assert_eq!(g.role_id, 33);
    assert_eq!(g.time_til_auto_del, INITIAL_COUNTDOWN);
    assert!(!g.full());
    assert!(g.current_players.is_empty());
    assert!(g.player_names.is_empty());
}

#[test]
fn add_member_appends_to_both_collections() {
    let mut g = sample_group(3);
    g.add_member(7, String::from("Ada"));
    g.add_member(8, String::from("Ben"));
    assert_eq!(g.current_players, vec![7, 8]);
    assert_eq!(g.player_names, vec![String::from("Ada"), String::from("Ben")]);
    assert_eq!(g.player_amount(), 2);
    assert!(g.in_player_vec(&7));
    assert!(g.in_player_vec(&8));
    assert!(!g.in_player_vec(&9));
}

#[test]
fn add_member_is_noop_for_present_member() {
    let mut g = sample_group(3);
    g.add_member(7, String::from("Ada"));
    g.add_member(7, String::from("Ada again"));
    assert_eq!(g.current_players, vec![7]);
    assert_eq!(g.player_names, vec![String::from("Ada")]);
    assert_eq!(g.player_amount(), 1);
}

#[test]
fn add_member_is_noop_when_full() {
    let mut g = sample_group(2);
    g.add_member(1, String::from("Ada"));
    g.add_member(2, String::from("Ben"));
    assert!(g.full());
    g.add_member(3, String::from("Cy"));
    assert_eq!(g.player_amount(), 2);
    assert!(!g.in_player_vec(&3));
}

#[test]
fn remove_member_removes_in_lock_step() {
    let mut g = sample_group(3);
    g.add_member(1, String::from("Ada"));
    g.add_member(2, String::from("Ben"));
    g.add_member(3, String::from("Cy"));
    g.remove_member(2);
    assert_eq!(g.current_players, vec![1, 3]);
    assert_eq!(g.player_names, vec![String::from("Ada"), String::from("Cy")]);
    assert_eq!(g.player_amount(), 2);
}

#[test]
fn remove_member_absent_is_noop() {
    let mut g = sample_group(3);
    g.add_member(1, String::from("Ada"));
    g.remove_member(9);
    assert_eq!(g.current_players, vec![1]);
    assert_eq!(g.player_amount(), 1);
}

#[test]
fn players_renders_sentinel_when_empty() {
    let g = sample_group(3);
    assert_eq!(g.players(), "None");
}

#[test]
fn players_renders_single_name_bare() {
    let mut g = sample_group(3);
    g.add_member(1, String::from("Ada"));
    assert_eq!(g.players(), "Ada");
}

#[test]
fn players_joins_names_in_insertion_order() {
    let mut g = sample_group(4);
    g.add_member(1, String::from("Ada"));
    g.add_member(2, String::from("Ben"));
    g.add_member(3, String::from("Cy"));
    assert_eq!(g.players(), "Ada, Ben, Cy");
}

#[test]
fn setters_update_single_fields() {
    let mut g = sample_group(3);
    g.set_title(String::from("New title"));
    g.set_game(String::from("Go"));
    g.max_players(5);
    g.set_owner(200);
    g.set_voice_id(44);
    g.set_text_id(55);
    g.set_role_id(66);
    assert_eq!(g.title, "New title");
    assert_eq!(g.game, "Go");
    assert_eq!(g.max_players, 5);
    assert_eq!(g.party_owner, 200);
    assert_eq!(g.voice_id, 44);
    assert_eq!(g.text_id, 55);
    assert_eq!(g.role_id, 66);
}

#[test]
fn default_group_is_all_zeroes() {
    let g = Group::default();
    assert_eq!(g.party_owner, 0);
    assert_eq!(g.player_amount, 0);
    assert_eq!(g.max_players, 0);
    assert_eq!(g.title, "");
    assert_eq!(g.game, "");
    assert_eq!(g.time_til_auto_del, 0);
    assert!(g.current_players.is_empty());
}

#[test]
fn clone_copies_all_fields() {
    let mut g = sample_group(3);
    g.add_member(1, String::from("Ada"));
    let c = g.clone();
    assert_eq!(c.party_owner, g.party_owner);
    assert_eq!(c.current_players, g.current_players);
    assert_eq!(c.player_names, g.player_names);
    assert_eq!(c.player_amount, g.player_amount);
    assert_eq!(c.max_players, g.max_players);
    assert_eq!(c.title, g.title);
    assert_eq!(c.game, g.game);
    assert_eq!(c.time_til_auto_del, g.time_til_auto_del);
}
