//! The creation command's decisions: validating a requested party against
//! the capacity bounds and the one-party-per-owner rule before anything is
//! provisioned, and registering the built party in the store afterwards.
//! Parsing the command text, provisioning the platform resources and talking
//! to the document store happen outside, around these two calls.

use vstd::prelude::*;
use vstd::string::StrSliceExecFns;
use vstd::string::StringExecFns;

use crate::db::has_id;
use crate::db::has_owner;
use crate::db::id_index;
use crate::db::record_of;
use crate::db::upsert_recs;
use crate::db::Database;
use crate::db::DatabaseServer;
use crate::db::RecordModel;
use crate::db::StoreError;
use crate::party_groups::Group;
use crate::party_groups::MAX_CAPACITY;
use crate::party_groups::MIN_CAPACITY;

verus! {

/// Why a requested party is refused before anything is provisioned.
#[derive(Clone, Copy, Debug, PartialEq, Eq, Structural)]
pub enum PartyError {
    /// No game label was given.
    NoGame,
    /// The title text is empty.
    NoTitle,
    /// The requested capacity lies above the allowed largest.
    TooManyPeople,
    /// The requested capacity lies below the allowed smallest.
    TooLittlePeople,
    /// The requester already owns a party in this group.
    PartyOwner,
}

impl PartyError {
    /// The user-visible text of this refusal.
    pub open spec fn spec_message(self) -> Seq<char> {
        match self {
            PartyError::NoGame => "No game has been entered!"@,
            PartyError::NoTitle => "No title has been entered!"@,
            PartyError::TooManyPeople => "Can not have over 20 people per party!"@,
            PartyError::TooLittlePeople => "Can't have a party with less than 2 people!"@,
            PartyError::PartyOwner => "You already own a party. HMPH. NO MORE FOR YOU."@,
        }
    }

    /// Renders the refusal for display.
    pub fn message(&self) -> (s: String)
        ensures
            s@ == self.spec_message(),
    {
        match self {
            PartyError::NoGame => String::from_str("No game has been entered!"),
            PartyError::NoTitle => String::from_str("No title has been entered!"),
            PartyError::TooManyPeople => String::from_str(
                "Can not have over 20 people per party!",
            ),
            PartyError::TooLittlePeople => String::from_str(
                "Can't have a party with less than 2 people!",
            ),
            PartyError::PartyOwner => String::from_str(
                "You already own a party. HMPH. NO MORE FOR YOU.",
            ),
        }
    }
}

/// The verdict on a creation request, checked in the command's own order: a
/// missing game label, an empty title, a capacity out of bounds, and last
/// the one-party-per-owner rule against the store.
pub open spec fn create_check(
    recs: Seq<RecordModel>,
    guild: i64,
    owner: i64,
    player_amount: u32,
    has_game: bool,
    title: Seq<char>,
) -> Result<(), PartyError> {
    if !has_game {
        Err(PartyError::NoGame)
    } else if title.len() == 0 {
        Err(PartyError::NoTitle)
    } else if player_amount as int > MAX_CAPACITY as int {
        Err(PartyError::TooManyPeople)
    } else if (player_amount as int) < MIN_CAPACITY as int {
        Err(PartyError::TooLittlePeople)
    } else if has_id(recs, guild) && has_owner(record_of(recs, guild).parties, owner) {
        Err(PartyError::PartyOwner)
    } else {
        Ok(())
    }
}

/// Judges a creation request before anything is provisioned: exactly the
/// refusals of `create_check`, in its order, or leave to proceed.
pub fn plan_create(
    db: &Database,
    guild: i64,
    owner: i64,
    player_amount: u32,
    game: &Option<String>,
    title: &String,
) -> (r: Result<(), PartyError>)
    requires
        db.wf(),
    ensures
        r == create_check(db@, guild, owner, player_amount, game.is_some(), title@),
{
    if game.is_none() {
        Err(PartyError::NoGame)
    } else if title.as_str().unicode_len() == 0 {
        Err(PartyError::NoTitle)
    } else if player_amount as i64 > MAX_CAPACITY {
        Err(PartyError::TooManyPeople)
    } else if (player_amount as i64) < MIN_CAPACITY {
        Err(PartyError::TooLittlePeople)
    } else if db.party_owner(guild, owner) {
        Err(PartyError::PartyOwner)
    } else {
        Ok(())
    }
}

/// Law: while an owner's party stands in a group's record, a second
/// creation request by the same owner in the same group is refused — before
/// any external resource is provisioned — however well-formed the rest of
/// the request is.
pub proof fn lemma_second_party_rejected(
    recs: Seq<RecordModel>,
    guild: i64,
    owner: i64,
    player_amount: u32,
    title: Seq<char>,
)
    requires
        has_id(recs, guild),
        has_owner(record_of(recs, guild).parties, owner),
        title.len() > 0,
        MIN_CAPACITY <= player_amount <= MAX_CAPACITY,
    ensures
        create_check(recs, guild, owner, player_amount, true, title) == Err::<
            (),
            PartyError,
        >(PartyError::PartyOwner),
{
}

/// Registers a freshly built party under its group's record and persists
/// the record: the creation command's final step, taken only after
/// `plan_create` allowed it, so the one-party-per-owner invariant holds on.
/// A group whose record is gone fails with `NotFound` and changes nothing.
pub fn register_party(db: &mut Database, guild: i64, group: Group) -> (r: Result<
    DatabaseServer,
    StoreError,
>)
    requires
        old(db).wf(),
        group.wf(),
        !(has_id(old(db)@, guild) && has_owner(
            record_of(old(db)@, guild).parties,
            group@.owner,
        )),
    ensures
        r is Ok <==> has_id(old(db)@, guild),
        r is Err ==> r == Err::<DatabaseServer, StoreError>(StoreError::NotFound)
            && final(db)@ == old(db)@,
        r matches Ok(rec) ==> rec@ == (RecordModel {
            parties: record_of(old(db)@, guild).parties.push(group@),
            ..record_of(old(db)@, guild)
        }) && final(db)@ == upsert_recs(old(db)@, rec@),
        final(db).wf(),
{
    let fetched = db.get_or_insert_new(guild, None);
    match fetched {
        Err(e) => Err(e),
        Ok(mut server) => {
            proof {
                assert(0 <= id_index(old(db)@, guild) < old(db)@.len());
                assert(server.wf());
            }
            server.add_party(group);
            proof {
                let oldrec = record_of(old(db)@, guild);
                let newp = server@.parties;
                assert(newp == oldrec.parties.push(group@));
                assert(forall|a: int|
                    0 <= a < oldrec.parties.len() ==> oldrec.parties[a].owner != group@.owner);
                assert forall|a: int, b: int|
                    0 <= a < b < newp.len() implies newp[a].owner != newp[b].owner by {
                    if b < newp.len() - 1 {
                        assert(newp[a] == oldrec.parties[a] && newp[b] == oldrec.parties[b]);
                    } else {
                        assert(newp[a] == oldrec.parties[a] && newp[b] == group@);
                    }
                }
                assert forall|i: int| 0 <= i < newp.len() implies newp[i].wf() by {
                    if i < newp.len() - 1 {
                        assert(newp[i] == oldrec.parties[i]);
                    } else {
                        assert(newp[i] == group@);
                    }
                }
                assert(server.wf());
            }
            let written = db.insert_or_replace(server);
            Ok(written)
        },
    }
}

} // verus!
