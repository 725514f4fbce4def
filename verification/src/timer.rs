//! The reclamation scheduler: the per-tick step of the timer loop that runs
//! beside the membership processor.  On each tick the current record is
//! re-read; while the party's occupancy sits below the survival threshold
//! its countdown falls by one, and on expiry the party leaves the record and
//! the caller is handed the three platform resource handles to tear down.
//! While occupancy is healthy the countdown is frozen — not reset — so an
//! emptied party resumes expiring from where it stood.  The timer itself and
//! the platform deletions live outside; they call this step once per tick
//! and act on the outcome.

use vstd::prelude::*;

use crate::db::has_id;
use crate::db::has_owner;
use crate::db::id_index;
use crate::db::owner_index;
use crate::db::party_of;
use crate::db::record_of;
use crate::db::upsert_recs;
use crate::db::Database;
use crate::db::DatabaseServer;
use crate::db::RecordModel;
use crate::party_groups::PartyModel;
use crate::party_groups::SURVIVAL_THRESHOLD;

verus! {

/// What one tick of the reclamation loop led to.
#[derive(Clone, Copy, Debug, PartialEq, Eq, Structural)]
pub enum TickOutcome {
    /// The party is gone from the store: the loop stops.
    Gone,
    /// The countdown reached zero: the party left the record, and these
    /// three platform resources are to be deleted; the loop stops.
    Expired { voice_id: i64, text_id: i64, role_id: i64 },
    /// Occupancy below the survival threshold: the countdown fell by one and
    /// the record is to be persisted; the loop continues.
    Ticked,
    /// Occupancy at or above the survival threshold: the countdown is
    /// frozen and the record unchanged; the loop waits for the next tick.
    Frozen,
}

/// The record state after one tick of `owner`'s reclamation loop.
pub open spec fn ticked_record(r: RecordModel, owner: i64) -> RecordModel {
    if !has_owner(r.parties, owner) {
        r
    } else {
        let p = party_of(r.parties, owner);
        if p.amount >= SURVIVAL_THRESHOLD {
            r
        } else if p.countdown <= 1 {
            RecordModel { parties: r.parties.remove(owner_index(r.parties, owner)), ..r }
        } else {
            RecordModel {
                parties: r.parties.remove(owner_index(r.parties, owner)).push(
                    PartyModel { countdown: (p.countdown - 1) as i64, ..p },
                ),
                ..r
            }
        }
    }
}

/// The outcome one tick reports, judged against the same record state.
pub open spec fn tick_outcome(r: RecordModel, owner: i64) -> TickOutcome {
    if !has_owner(r.parties, owner) {
        TickOutcome::Gone
    } else {
        let p = party_of(r.parties, owner);
        if p.amount >= SURVIVAL_THRESHOLD {
            TickOutcome::Frozen
        } else if p.countdown <= 1 {
            TickOutcome::Expired { voice_id: p.voice_id, text_id: p.text_id, role_id: p.role_id }
        } else {
            TickOutcome::Ticked
        }
    }
}

/// One tick of the reclamation loop against the current record.
pub fn tick_record(server: &mut DatabaseServer, owner: &i64) -> (o: TickOutcome)
    requires
        old(server).wf(),
    ensures
        final(server)@ == ticked_record(old(server)@, *owner),
        o == tick_outcome(old(server)@, *owner),
        final(server).wf(),
{
    let fetched = server.get_party(owner);
    match fetched {
        None => TickOutcome::Gone,
        Some(mut g) => {
            proof {
                let k = owner_index(old(server)@.parties, *owner);
                assert(0 <= k < old(server)@.parties.len());
                assert(old(server)@.parties[k].wf());
                assert(g.wf());
                assert(g@.owner == *owner);
            }
            if g.player_amount() >= SURVIVAL_THRESHOLD {
                TickOutcome::Frozen
            } else if g.time_til_auto_del <= 1 {
                let voice_id = g.voice_id;
                let text_id = g.text_id;
                let role_id = g.role_id;
                server.delete_party(owner);
                proof {
                    let oldp = old(server)@.parties;
                    let k = owner_index(oldp, *owner);
                    let newp = server@.parties;
                    assert(newp == oldp.remove(k));
                    assert forall|a: int, b: int|
                        0 <= a < b < newp.len() implies newp[a].owner != newp[b].owner by {
                        let oa = if a < k {
                            a
                        } else {
                            a + 1
                        };
                        let ob = if b < k {
                            b
                        } else {
                            b + 1
                        };
                        assert(newp[a] == oldp[oa]);
                        assert(newp[b] == oldp[ob]);
                    }
                    assert forall|i: int| 0 <= i < newp.len() implies newp[i].wf() by {
                        let oi = if i < k {
                            i
                        } else {
                            i + 1
                        };
                        assert(newp[i] == oldp[oi]);
                    }
                    assert(server@ =~= ticked_record(old(server)@, *owner));
                }
                TickOutcome::Expired { voice_id, text_id, role_id }
            } else {
                g.time_til_auto_del = g.time_til_auto_del - 1;
                server.edit_party(owner, g);
                proof {
                    let oldp = old(server)@.parties;
                    let k = owner_index(oldp, *owner);
                    let newp = server@.parties;
                    assert(newp == oldp.remove(k).push(g@));
                    assert forall|a: int, b: int|
                        0 <= a < b < newp.len() implies newp[a].owner != newp[b].owner by {
                        let oa = if a < k {
                            a
                        } else {
                            a + 1
                        };
                        assert(newp[a] == oldp[oa]);
                        assert(oa != k);
                        if b < newp.len() - 1 {
                            let ob = if b < k {
                                b
                            } else {
                                b + 1
                            };
                            assert(newp[b] == oldp[ob]);
                        } else {
                            assert(newp[b] == g@);
                            assert(oldp[oa].owner != oldp[k].owner);
                        }
                    }
                    assert forall|i: int| 0 <= i < newp.len() implies newp[i].wf() by {
                        if i < newp.len() - 1 {
                            let oi = if i < k {
                                i
                            } else {
                                i + 1
                            };
                            assert(newp[i] == oldp[oi]);
                        } else {
                            assert(newp[i] == g@);
                        }
                    }
                    assert(server@ =~= ticked_record(old(server)@, *owner));
                }
                TickOutcome::Ticked
            }
        },
    }
}

/// Law: on every tick that finds occupancy below the survival threshold and
/// more than one tick of countdown left, the countdown falls by exactly
/// one — and nothing else about the party changes.
pub proof fn lemma_tick_decrements(r: RecordModel, owner: i64)
    requires
        r.wf(),
        has_owner(r.parties, owner),
        party_of(r.parties, owner).amount < SURVIVAL_THRESHOLD,
        party_of(r.parties, owner).countdown > 1,
    ensures
        tick_outcome(r, owner) == TickOutcome::Ticked,
        has_owner(ticked_record(r, owner).parties, owner),
        party_of(ticked_record(r, owner).parties, owner) == (PartyModel {
            countdown: (party_of(r.parties, owner).countdown - 1) as i64,
            ..party_of(r.parties, owner)
        }),
{
    let p = party_of(r.parties, owner);
    let p2 = PartyModel { countdown: (p.countdown - 1) as i64, ..p };
    crate::db::lemma_replace_party(r.parties, owner, p2);
}

/// Law: on every tick that finds occupancy at or above the survival
/// threshold the record is left unchanged: the countdown is frozen where it
/// stands, not reset.
pub proof fn lemma_tick_frozen(r: RecordModel, owner: i64)
    requires
        has_owner(r.parties, owner),
        party_of(r.parties, owner).amount >= SURVIVAL_THRESHOLD,
    ensures
        tick_outcome(r, owner) == TickOutcome::Frozen,
        ticked_record(r, owner) == r,
{
}

/// Law: the tick on which the countdown runs out removes the party and
/// hands back its three platform resource handles, exactly once: afterwards
/// the party is unreachable by its owner id, and a further tick reports it
/// gone and deletes nothing more.
pub proof fn lemma_expiry_deletes_once(r: RecordModel, owner: i64)
    requires
        r.wf(),
        has_owner(r.parties, owner),
        party_of(r.parties, owner).amount < SURVIVAL_THRESHOLD,
        party_of(r.parties, owner).countdown <= 1,
    ensures
        tick_outcome(r, owner) == (TickOutcome::Expired {
            voice_id: party_of(r.parties, owner).voice_id,
            text_id: party_of(r.parties, owner).text_id,
            role_id: party_of(r.parties, owner).role_id,
        }),
        !has_owner(ticked_record(r, owner).parties, owner),
        tick_outcome(ticked_record(r, owner), owner) == TickOutcome::Gone,
        ticked_record(ticked_record(r, owner), owner) == ticked_record(r, owner),
{
    crate::db::lemma_remove_party(r.parties, owner);
}

/// The store state after one full cycle of the reclamation loop: re-fetch
/// the group's record, tick it, and persist it again when the tick changed
/// it.  A group without a record leaves the store untouched.
pub open spec fn ticked_store(recs: Seq<RecordModel>, guild: i64, owner: i64) -> Seq<
    RecordModel,
> {
    if !has_id(recs, guild) {
        recs
    } else {
        let r = record_of(recs, guild);
        let o = tick_outcome(r, owner);
        if o is Ticked || o is Expired {
            upsert_recs(recs, ticked_record(r, owner))
        } else {
            recs
        }
    }
}

/// One full cycle of the reclamation loop against the store: always a
/// read-modify-write against the latest record, never a blind overwrite of
/// a stale snapshot, since the membership loop shares the same document.  A
/// group whose record is gone reports `Gone`, and the loop stops.
pub fn scheduler_tick(db: &mut Database, guild: i64, owner: &i64) -> (o: TickOutcome)
    requires
        old(db).wf(),
    ensures
        o == (if has_id(old(db)@, guild) {
            tick_outcome(record_of(old(db)@, guild), *owner)
        } else {
            TickOutcome::Gone
        }),
        final(db)@ == ticked_store(old(db)@, guild, *owner),
        final(db).wf(),
{
    let fetched = db.get(guild);
    match fetched {
        None => TickOutcome::Gone,
        Some(mut rec) => {
            proof {
                assert(0 <= id_index(old(db)@, guild) < old(db)@.len());
                assert(rec.wf());
            }
            let o = tick_record(&mut rec, owner);
            match o {
                TickOutcome::Ticked | TickOutcome::Expired { .. } => {
                    db.insert_or_replace(rec);
                    proof {
                        assert(db@ =~= ticked_store(old(db)@, guild, *owner));
                    }
                },
                _ => {
                    proof {
                        assert(db@ =~= ticked_store(old(db)@, guild, *owner));
                    }
                },
            }
            o
        },
    }
}

} // verus!
