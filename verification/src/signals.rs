//! The membership event processor: the state machine that consumes one
//! party's ordered stream of membership-intent signals.  Each signal is
//! judged against the current party state — capacity, prior membership, the
//! designated join marker — and yields the next party state together with the
//! outward action the caller must mirror (grant or revoke platform access,
//! strip the signal, or nothing).  The event stream, the platform calls and
//! the store transport live outside; they hand each signal in as plain
//! values and perform the returned action.

use vstd::prelude::*;

use crate::db::has_id;
use crate::db::has_owner;
use crate::db::id_index;
use crate::db::owner_index;
use crate::db::party_of;
use crate::db::record_of;
use crate::db::upsert_recs;
use crate::db::Database;
use crate::db::DatabaseServer;
use crate::db::RecordModel;
use crate::party_groups::Group;
use crate::party_groups::PartyModel;

verus! {

/// The two membership intents an actor can signal: a Grant is an added join
/// marker, a Revoke a removed one.
#[derive(Clone, Copy, Debug, PartialEq, Eq, Structural)]
pub enum SignalKind {
    Grant,
    Revoke,
}

/// What a signal led to, and so which outward action follows it.
#[derive(Clone, Copy, Debug, PartialEq, Eq, Structural)]
pub enum SignalOutcome {
    /// The actor was added: mirror the access grant, persist, re-render.
    Joined,
    /// The actor was removed: mirror the access revoke, persist, re-render.
    Left,
    /// The party is full: strip the signal, change nothing.
    RejectedFull,
    /// The signal is not the designated join marker: strip it.
    RejectedMarker,
    /// Nothing to do: a Grant from a member or a Revoke from a non-member.
    NoOp,
}

/// One membership-intent signal as observed on the announcement.
pub struct MembershipSignal {
    pub actor_id: i64,
    pub actor_name: String,
    pub kind: SignalKind,
    pub join_marker: bool,
}

/// Mathematical content of one signal.
#[verifier::ext_equal]
pub ghost struct SignalModel {
    pub actor_id: i64,
    pub actor_name: Seq<char>,
    pub kind: SignalKind,
    pub join_marker: bool,
}

impl View for MembershipSignal {
    type V = SignalModel;

    open spec fn view(&self) -> SignalModel {
        SignalModel {
            actor_id: self.actor_id,
            actor_name: self.actor_name@,
            kind: self.kind,
            join_marker: self.join_marker,
        }
    }
}

/// The party state after one signal: a Grant adds the actor unless the party
/// is full or already holds it, a Revoke removes the actor if present, and a
/// signal that is not the join marker changes nothing.
pub open spec fn step_party(m: PartyModel, s: SignalModel) -> PartyModel {
    if !s.join_marker {
        m
    } else if s.kind is Grant {
        m.grant(s.actor_id, s.actor_name)
    } else {
        m.revoke(s.actor_id)
    }
}

/// The outward action one signal calls for, judged against the same state.
pub open spec fn step_outcome(m: PartyModel, s: SignalModel) -> SignalOutcome {
    if !s.join_marker {
        SignalOutcome::RejectedMarker
    } else if s.kind is Grant {
        if m.is_full() {
            SignalOutcome::RejectedFull
        } else if m.has_member(s.actor_id) {
            SignalOutcome::NoOp
        } else {
            SignalOutcome::Joined
        }
    } else {
        if m.has_member(s.actor_id) {
            SignalOutcome::Left
        } else {
            SignalOutcome::NoOp
        }
    }
}

/// Whether an outcome changed the party and so must be persisted and
/// mirrored outward.
pub open spec fn accepted(o: SignalOutcome) -> bool {
    o is Joined || o is Left
}

/// Applies one signal to a party in memory and names the action to mirror.
pub fn process_signal(group: &mut Group, signal: &MembershipSignal) -> (o: SignalOutcome)
    requires
        old(group).wf(),
    ensures
        final(group)@ == step_party(old(group)@, signal@),
        o == step_outcome(old(group)@, signal@),
        final(group).wf(),
        accepted(o) <==> final(group)@ != old(group)@,
{
    let o = if !signal.join_marker {
        SignalOutcome::RejectedMarker
    } else {
        match signal.kind {
            SignalKind::Grant => {
                if group.full() {
                    SignalOutcome::RejectedFull
                } else if group.in_player_vec(&signal.actor_id) {
                    SignalOutcome::NoOp
                } else {
                    let name = signal.actor_name.clone();
                    group.add_member(signal.actor_id, name);
                    SignalOutcome::Joined
                }
            },
            SignalKind::Revoke => {
                if group.in_player_vec(&signal.actor_id) {
                    group.remove_member(signal.actor_id);
                    SignalOutcome::Left
                } else {
                    SignalOutcome::NoOp
                }
            },
        }
    };
    proof {
        if accepted(o) {
            assert(group@.members.len() != old(group)@.members.len());
        }
    }
    o
}

/// The record state after one signal lands on `owner`'s party: the party is
/// re-read from the record, stepped, and written back in its record (which
/// moves it to the end of the collection); a signal that changed nothing
/// leaves the record untouched.
pub open spec fn step_record(r: RecordModel, owner: i64, s: SignalModel) -> RecordModel {
    if !has_owner(r.parties, owner) {
        r
    } else {
        let p = party_of(r.parties, owner);
        if accepted(step_outcome(p, s)) {
            RecordModel {
                parties: r.parties.remove(owner_index(r.parties, owner)).push(step_party(p, s)),
                ..r
            }
        } else {
            r
        }
    }
}

/// The party state after a whole sequence of signals, applied in arrival
/// order.
pub open spec fn apply_signals(m: PartyModel, sigs: Seq<SignalModel>) -> PartyModel
    decreases sigs.len(),
{
    if sigs.len() == 0 {
        m
    } else {
        apply_signals(step_party(m, sigs[0]), sigs.drop_first())
    }
}

/// One signal keeps a well-formed party well-formed.
pub proof fn lemma_step_preserves_wf(m: PartyModel, s: SignalModel)
    requires
        m.wf(),
    ensures
        step_party(m, s).wf(),
{
    let m2 = step_party(m, s);
    if s.join_marker && s.kind is Grant && !m.is_full() && !m.has_member(s.actor_id) {
        assert(forall|j: int| 0 <= j < m.members.len() ==> m.members[j] != s.actor_id);
        assert forall|a: int, b: int|
            0 <= a < b < m2.members.len() implies m2.members[a] != m2.members[b] by {
            if b == m2.members.len() - 1 {
                assert(m2.members[a] == m.members[a]);
                assert(m2.members[b] == s.actor_id);
            }
        }
    } else if s.join_marker && s.kind is Revoke && m.has_member(s.actor_id) {
        let k = m.member_index(s.actor_id);
        assert(0 <= k < m.members.len() && m.members[k] == s.actor_id);
        assert forall|a: int, b: int|
            0 <= a < b < m2.members.len() implies m2.members[a] != m2.members[b] by {
            let oa = if a < k {
                a
            } else {
                a + 1
            };
            let ob = if b < k {
                b
            } else {
                b + 1
            };
            assert(m2.members[a] == m.members[oa]);
            assert(m2.members[b] == m.members[ob]);
        }
    }
}

/// Law: occupancy equals the length of the member collection — and the
/// whole party invariant holds — after any sequence of Grant and Revoke
/// signals, in whatever order they arrive.
pub proof fn lemma_occupancy_tracks_membership(m: PartyModel, sigs: Seq<SignalModel>)
    requires
        m.wf(),
    ensures
        apply_signals(m, sigs).wf(),
        apply_signals(m, sigs).amount == apply_signals(m, sigs).members.len(),
    decreases sigs.len(),
{
    if sigs.len() > 0 {
        lemma_step_preserves_wf(m, sigs[0]);
        lemma_occupancy_tracks_membership(step_party(m, sigs[0]), sigs.drop_first());
    }
}

/// Law: once occupancy has reached the capacity, a Grant changes nothing
/// and is answered by stripping the signal.
pub proof fn lemma_full_grant_rejected(m: PartyModel, s: SignalModel)
    requires
        m.is_full(),
        s.join_marker,
        s.kind is Grant,
    ensures
        step_party(m, s) == m,
        step_outcome(m, s) == SignalOutcome::RejectedFull,
{
}

/// Law: a Grant from an actor already in the party changes nothing.
pub proof fn lemma_grant_member_noop(m: PartyModel, s: SignalModel)
    requires
        s.join_marker,
        s.kind is Grant,
        m.has_member(s.actor_id),
    ensures
        step_party(m, s) == m,
{
}

/// Law: a Revoke from an actor never in the party changes nothing and asks
/// for no outward action.
pub proof fn lemma_revoke_absent_noop(m: PartyModel, s: SignalModel)
    requires
        s.join_marker,
        s.kind is Revoke,
        !m.has_member(s.actor_id),
    ensures
        step_party(m, s) == m,
        step_outcome(m, s) == SignalOutcome::NoOp,
{
}

/// One transaction of the processor against the current record: locate
/// `owner`'s party, apply the signal to that fresh copy — never to a stale
/// one — and write the stepped party back.  Returns nothing when the party
/// is gone, so the caller's loop can fall silent for this signal.
pub fn record_step(server: &mut DatabaseServer, owner: &i64, signal: &MembershipSignal) -> (o:
    Option<SignalOutcome>)
    requires
        old(server).wf(),
    ensures
        o is Some <==> has_owner(old(server)@.parties, *owner),
        o matches Some(out) ==> out == step_outcome(
            party_of(old(server)@.parties, *owner),
            signal@,
        ),
        final(server)@ == step_record(old(server)@, *owner, signal@),
        final(server).wf(),
{
    let fetched = server.get_party(owner);
    match fetched {
        None => None,
        Some(mut g) => {
            proof {
                let k = owner_index(old(server)@.parties, *owner);
                assert(0 <= k < old(server)@.parties.len());
                assert(old(server)@.parties[k].wf());
                assert(g.wf());
            }
            let out = process_signal(&mut g, signal);
            match out {
                SignalOutcome::Joined | SignalOutcome::Left => {
                    proof {
                        assert(g@.owner == *owner);
                    }
                    server.edit_party(owner, g);
                    proof {
                        let oldp = old(server)@.parties;
                        let k = owner_index(oldp, *owner);
                        let newp = server@.parties;
                        assert(newp == oldp.remove(k).push(g@));
                        assert forall|a: int, b: int|
                            0 <= a < b < newp.len() implies newp[a].owner != newp[b].owner by {
                            let oa = if a < k {
                                a
                            } else {
                                a + 1
                            };
                            assert(newp[a] == oldp[oa]);
                            assert(oa != k);
                            if b < newp.len() - 1 {
                                let ob = if b < k {
                                    b
                                } else {
                                    b + 1
                                };
                                assert(newp[b] == oldp[ob]);
                            } else {
                                assert(newp[b] == g@);
                                assert(oldp[oa].owner != oldp[k].owner);
                            }
                        }
                        assert forall|i: int| 0 <= i < newp.len() implies newp[i].wf() by {
                            if i < newp.len() - 1 {
                                let oi = if i < k {
                                    i
                                } else {
                                    i + 1
                                };
                                assert(newp[i] == oldp[oi]);
                            } else {
                                assert(newp[i] == g@);
                            }
                        }
                        assert(server@ =~= step_record(old(server)@, *owner, signal@));
                    }
                },
                _ => {
                    proof {
                        assert(server@ =~= step_record(old(server)@, *owner, signal@));
                    }
                },
            }
            Some(out)
        },
    }
}

/// The store state after one full cycle of the processor: re-fetch the
/// group's record, step it under the signal, and persist it again when the
/// signal was accepted.  A group without a record leaves the store
/// untouched.
pub open spec fn stepped_store(
    recs: Seq<RecordModel>,
    guild: i64,
    owner: i64,
    s: SignalModel,
) -> Seq<RecordModel> {
    if !has_id(recs, guild) {
        recs
    } else {
        let r = record_of(recs, guild);
        if has_owner(r.parties, owner) && accepted(
            step_outcome(party_of(r.parties, owner), s),
        ) {
            upsert_recs(recs, step_record(r, owner, s))
        } else {
            recs
        }
    }
}

/// One full cycle of the processor against the store: always a
/// read-modify-write against the latest record, never a blind overwrite of
/// a stale snapshot, since the reclamation loop shares the same document.
/// Nothing is reported when the group's record or the party is gone, and
/// the caller's loop falls silent for this signal.
pub fn processor_step(
    db: &mut Database,
    guild: i64,
    owner: &i64,
    signal: &MembershipSignal,
) -> (o: Option<SignalOutcome>)
    requires
        old(db).wf(),
    ensures
        o is Some <==> (has_id(old(db)@, guild) && has_owner(
            record_of(old(db)@, guild).parties,
            *owner,
        )),
        o matches Some(out) ==> out == step_outcome(
            party_of(record_of(old(db)@, guild).parties, *owner),
            signal@,
        ),
        final(db)@ == stepped_store(old(db)@, guild, *owner, signal@),
        final(db).wf(),
{
    let fetched = db.get(guild);
    match fetched {
        None => None,
        Some(mut rec) => {
            proof {
                assert(0 <= id_index(old(db)@, guild) < old(db)@.len());
                assert(rec.wf());
            }
            let o = record_step(&mut rec, owner, signal);
            match o {
                Some(SignalOutcome::Joined) | Some(SignalOutcome::Left) => {
                    db.insert_or_replace(rec);
                    proof {
                        assert(db@ =~= stepped_store(old(db)@, guild, *owner, signal@));
                    }
                },
                _ => {
                    proof {
                        assert(db@ =~= stepped_store(old(db)@, guild, *owner, signal@));
                    }
                },
            }
            o
        },
    }
}

} // verus!
