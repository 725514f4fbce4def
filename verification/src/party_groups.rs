//! The session entity: one party's owner, members, capacity and reclamation
//! countdown, together with its mathematical model and the invariants that
//! every mutation preserves.

use vstd::prelude::*;
use vstd::string::StringExecFns;

verus! {

/// Number of scheduler ticks an under-occupied party survives before it is
/// reclaimed; every new party starts with this countdown.
pub const INITIAL_COUNTDOWN: i64 = 30;

/// Minimum occupancy at which the reclamation countdown freezes; below it the
/// countdown decrements once per tick.
pub const SURVIVAL_THRESHOLD: i64 = 2;

/// Smallest capacity a party may be created with.
pub const MIN_CAPACITY: i64 = 2;

/// Largest capacity a party may be created with.
pub const MAX_CAPACITY: i64 = 20;

/// Mathematical state of one party session.  `members` and `names` are
/// parallel: `names[i]` is the display name of `members[i]`, in insertion
/// order.  `amount` is the stored occupancy counter, which well-formedness
/// ties to the length of `members`.
#[verifier::ext_equal]
pub ghost struct PartyModel {
    pub owner: i64,
    pub members: Seq<i64>,
    pub names: Seq<Seq<char>>,
    pub amount: i64,
    pub capacity: i64,
    pub title: Seq<char>,
    pub game: Seq<char>,
    pub voice_id: i64,
    pub text_id: i64,
    pub role_id: i64,
    pub countdown: i64,
}

impl PartyModel {
    /// Invariant of every reachable party: occupancy equals the length of the
    /// member collection, the display names run parallel to it, a member
    /// appears at most once, occupancy never exceeds the capacity, the
    /// capacity is in the allowed range, and the countdown stays between zero
    /// and its initial value.
    pub open spec fn wf(self) -> bool {
        &&& self.amount == self.members.len()
        &&& self.names.len() == self.members.len()
        &&& self.amount <= self.capacity
        &&& MIN_CAPACITY <= self.capacity <= MAX_CAPACITY
        &&& (forall|i: int, j: int|
            0 <= i < j < self.members.len() ==> self.members[i] != self.members[j])
        &&& 0 <= self.countdown <= INITIAL_COUNTDOWN
    }

    pub open spec fn is_full(self) -> bool {
        self.amount == self.capacity
    }

    pub open spec fn has_member(self, player: i64) -> bool {
        self.members.contains(player)
    }

    /// The index at which `player` stands in the member collection; under
    /// `wf` that index is unique.
    pub open spec fn member_index(self, player: i64) -> int {
        choose|i: int| 0 <= i < self.members.len() && self.members[i] == player
    }

    /// An accepted or silently ignored join: a full party and a party the
    /// player already belongs to are left unchanged, otherwise the player and
    /// the display name are appended to the two parallel collections and the
    /// occupancy counter rises by one.
    pub open spec fn grant(self, player: i64, name: Seq<char>) -> PartyModel {
        if self.is_full() || self.has_member(player) {
            self
        } else {
            PartyModel {
                members: self.members.push(player),
                names: self.names.push(name),
                amount: (self.amount + 1) as i64,
                ..self
            }
        }
    }

    /// An accepted or silently ignored leave: a party the player does not
    /// belong to is left unchanged, otherwise the player's entry and its
    /// display name leave both parallel collections in lock-step and the
    /// occupancy counter falls by one.
    pub open spec fn revoke(self, player: i64) -> PartyModel {
        if !self.has_member(player) {
            self
        } else {
            let i = self.member_index(player);
            PartyModel {
                members: self.members.remove(i),
                names: self.names.remove(i),
                amount: (self.amount - 1) as i64,
                ..self
            }
        }
    }
}

/// The display names joined left to right with a comma and a space between
/// neighbours.
pub open spec fn join_names(names: Seq<Seq<char>>) -> Seq<char>
    decreases names.len(),
{
    if names.len() == 0 {
        Seq::<char>::empty()
    } else if names.len() == 1 {
        names[0]
    } else {
        join_names(names.drop_last()) + ", "@ + names.last()
    }
}

/// The member list as shown on the announcement: the joined display names,
/// or the sentinel text when the party is empty.
pub open spec fn render_names(names: Seq<Seq<char>>) -> Seq<char> {
    if names.len() == 0 {
        "None"@
    } else {
        join_names(names)
    }
}

/// One party session as held in memory and persisted: the executable
/// counterpart of [`PartyModel`].
pub struct Group {
    pub party_owner: i64,
    pub current_players: Vec<i64>,
    pub player_names: Vec<String>,
    pub player_amount: i64,
    pub max_players: i64,
    pub title: String,
    pub game: String,
    pub voice_id: i64,
    pub text_id: i64,
    pub role_id: i64,
    pub time_til_auto_del: i64,
}

impl View for Group {
    type V = PartyModel;

    open spec fn view(&self) -> PartyModel {
        PartyModel {
            owner: self.party_owner,
            members: self.current_players@,
            names: self.player_names@.map_values(|s: String| s@),
            amount: self.player_amount,
            capacity: self.max_players,
            title: self.title@,
            game: self.game@,
            voice_id: self.voice_id,
            text_id: self.text_id,
            role_id: self.role_id,
            countdown: self.time_til_auto_del,
        }
    }
}

impl Group {
    pub open spec fn wf(self) -> bool {
        self@.wf()
    }

    /// Creates a party with no members and the countdown at its initial
    /// value.  The capacity must already have been validated by the caller;
    /// constructing with an out-of-range capacity is a caller error.
    pub fn new(
        owner: i64,
        max_players: i64,
        title: String,
        game: String,
        voice: i64,
        text: i64,
        role: i64,
    ) -> (g: Group)
        requires
            MIN_CAPACITY <= max_players <= MAX_CAPACITY,
        ensures
            g@ == (PartyModel {
                owner,
                members: Seq::<i64>::empty(),
                names: Seq::<Seq<char>>::empty(),
                amount: 0,
                capacity: max_players,
                title: title@,
                game: game@,
                voice_id: voice,
                text_id: text,
                role_id: role,
                countdown: INITIAL_COUNTDOWN,
            }),
            g.wf(),
    {
        let g = Group {
            party_owner: owner,
            current_players: Vec::new(),
            player_names: Vec::new(),
            player_amount: 0,
            max_players,
            title,
            game,
            voice_id: voice,
            text_id: text,
            role_id: role,
            time_til_auto_del: INITIAL_COUNTDOWN,
        };
        proof {
            assert(g@.names =~= Seq::<Seq<char>>::empty());
        }
        g
    }

    /// A party is full exactly when occupancy has reached the capacity.
    pub fn full(&self) -> (r: bool)
        ensures
            r == self@.is_full(),
    {
        self.player_amount == self.max_players
    }

    /// The stored occupancy counter.
    pub fn player_amount(&self) -> (r: i64)
        ensures
            r == self@.amount,
    {
        self.player_amount
    }

    /// Whether `player` currently belongs to the member collection.
    pub fn in_player_vec(&self, player: &i64) -> (r: bool)
        ensures
            r == self@.has_member(*player),
    {
        let mut i: usize = 0;
        while i < self.current_players.len()
            invariant
                0 <= i <= self.current_players.len(),
                forall|j: int| 0 <= j < i ==> self.current_players@[j] != *player,
            decreases self.current_players.len() - i,
        {
            if self.current_players[i] == *player {
                return true;
            }
            i += 1;
        }
        false
    }

    /// Adds `player` with display name `name` to both parallel collections
    /// and raises the occupancy counter by one; a full party and a party the
    /// player already belongs to are left unchanged.
    pub fn add_member(&mut self, player: i64, name: String)
        requires
            old(self).wf(),
        ensures
            final(self)@ == old(self)@.grant(player, name@),
            final(self).wf(),
    {
        if self.full() {
            return ;
        }
        if self.in_player_vec(&player) {
            return ;
        }
        proof {
            assert(forall|j: int|
                0 <= j < self.current_players@.len() ==> self.current_players@[j] != player);
        }
        self.current_players.push(player);
        self.player_names.push(name);
        self.player_amount = self.player_amount + 1;
        proof {
            assert(self@.names =~= old(self)@.names.push(self.player_names@.last()@));
            assert(self@ =~= old(self)@.grant(player, self.player_names@.last()@));
        }
    }

    /// Removes `player` and the parallel display-name entry in lock-step and
    /// lowers the occupancy counter by one; a party the player does not
    /// belong to is left unchanged.
    pub fn remove_member(&mut self, player: i64)
        requires
            old(self).wf(),
        ensures
            final(self)@ == old(self)@.revoke(player),
            final(self).wf(),
    {
        let mut i: usize = 0;
        while i < self.current_players.len()
            invariant
                *self == *old(self),
                old(self).wf(),
                0 <= i <= self.current_players.len(),
                forall|j: int| 0 <= j < i ==> self.current_players@[j] != player,
            decreases self.current_players.len() - i,
        {
            if self.current_players[i] == player {
                proof {
                    assert(old(self)@.has_member(player));
                    let k = old(self)@.member_index(player);
                    assert(0 <= k < old(self)@.members.len()
                        && old(self)@.members[k] == player);
                    assert(k == i as int);
                }
                self.current_players.remove(i);
                self.player_names.remove(i);
                self.player_amount = self.player_amount - 1;
                proof {
                    assert(self@.names =~= old(self)@.names.remove(i as int));
                    assert(self@ =~= old(self)@.revoke(player));
                    assert forall|a: int, b: int|
                        0 <= a < b < self@.members.len() implies self@.members[a]
                        != self@.members[b] by {
                        let oa = if a < i as int { a } else { a + 1 };
                        let ob = if b < i as int { b } else { b + 1 };
                        assert(self@.members[a] == old(self)@.members[oa]);
                        assert(self@.members[b] == old(self)@.members[ob]);
                    }
                }
                return ;
            }
            i += 1;
        }
        proof {
            assert(!old(self)@.has_member(player));
        }
    }

    pub fn set_title(&mut self, title: String)
        ensures
            final(self)@ == (PartyModel { title: title@, ..old(self)@ }),
    {
        self.title = title;
    }

    pub fn set_game(&mut self, game: String)
        ensures
            final(self)@ == (PartyModel { game: game@, ..old(self)@ }),
    {
        self.game = game;
    }

    pub fn max_players(&mut self, players: i64)
        ensures
            final(self)@ == (PartyModel { capacity: players, ..old(self)@ }),
    {
        self.max_players = players;
    }

    pub fn set_owner(&mut self, owner: i64)
        ensures
            final(self)@ == (PartyModel { owner, ..old(self)@ }),
    {
        self.party_owner = owner;
    }

    pub fn set_voice_id(&mut self, id: i64)
        ensures
            final(self)@ == (PartyModel { voice_id: id, ..old(self)@ }),
    {
        self.voice_id = id;
    }

    pub fn set_text_id(&mut self, id: i64)
        ensures
            final(self)@ == (PartyModel { text_id: id, ..old(self)@ }),
    {
        self.text_id = id;
    }

    pub fn set_role_id(&mut self, id: i64)
        ensures
            final(self)@ == (PartyModel { role_id: id, ..old(self)@ }),
    {
        self.role_id = id;
    }

    /// Renders the comma-joined display names in insertion order, or the
    /// sentinel text for an empty party.
    pub fn players(&self) -> (r: String)
        ensures
            r@ == render_names(self@.names),
    {
        let n = self.player_names.len();
        if n == 0 {
            String::from_str("None")
        } else {
            let mut out = String::new();
            let mut i: usize = 0;
            while i < n
                invariant
                    0 <= i <= n,
                    n == self.player_names@.len(),
                    out@ == join_names(self@.names.take(i as int)),
                decreases n - i,
            {
                if i > 0 {
                    out.append(", ");
                }
                out.append(self.player_names[i].as_str());
                proof {
                    let taken = self@.names.take(i as int + 1);
                    assert(taken.drop_last() =~= self@.names.take(i as int));
                    assert(taken.last() == self@.names[i as int]);
                    assert(out@ =~= join_names(taken));
                }
                i += 1;
            }
            proof {
                assert(self@.names.take(n as int) =~= self@.names);
            }
            out
        }
    }
}

impl Clone for Group {
    /// A clone carries the same logical state as the original.
    fn clone(&self) -> (res: Self)
        ensures
            res@ == self@,
    {
        let res = Group {
            party_owner: self.party_owner,
            current_players: self.current_players.clone(),
            player_names: self.player_names.clone(),
            player_amount: self.player_amount,
            max_players: self.max_players,
            title: self.title.clone(),
            game: self.game.clone(),
            voice_id: self.voice_id,
            text_id: self.text_id,
            role_id: self.role_id,
            time_til_auto_del: self.time_til_auto_del,
        };
        proof {
            assert(res.current_players@ =~= self.current_players@);
            assert(res.player_names@ =~= self.player_names@);
            assert(res@ =~= self@);
        }
        res
    }
}

impl Default for Group {
    /// The all-empty record shape a persisted session deserializes over.
    fn default() -> (g: Group)
        ensures
            g@ == (PartyModel {
                owner: 0,
                members: Seq::<i64>::empty(),
                names: Seq::<Seq<char>>::empty(),
                amount: 0,
                capacity: 0,
                title: Seq::<char>::empty(),
                game: Seq::<char>::empty(),
                voice_id: 0,
                text_id: 0,
                role_id: 0,
                countdown: 0,
            }),
    {
        let g = Group {
            party_owner: 0,
            current_players: Vec::new(),
            player_names: Vec::new(),
            player_amount: 0,
            max_players: 0,
            title: String::new(),
            game: String::new(),
            voice_id: 0,
            text_id: 0,
            role_id: 0,
            time_til_auto_del: 0,
        };
        proof {
            assert(g@.names =~= Seq::<Seq<char>>::empty());
        }
        g
    }
}

} // verus!
