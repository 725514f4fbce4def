//! The persisted store, modelled: one record per community group, each
//! holding the group's parties, and a store keyed by group identifier.  The
//! operations carry the contracts of the real document store — get-or-create,
//! atomic upsert, delete — and maintain the one-party-per-owner and
//! one-record-per-group invariants.  Transport to the document store itself
//! happens outside; it hands records in and out as plain values.

use vstd::prelude::*;

use crate::party_groups::Group;
use crate::party_groups::PartyModel;

verus! {

/// Failure of a store lookup that the caller required to succeed: the group
/// record is absent and the caller supplied nothing to create it from.
#[derive(Clone, Copy, Debug, PartialEq, Eq, Structural)]
pub enum StoreError {
    NotFound,
}

/// Mathematical state of one group record.
#[verifier::ext_equal]
pub ghost struct RecordModel {
    pub id: i64,
    pub owner_id: i64,
    pub parties: Seq<PartyModel>,
}

/// Whether some party in `parties` belongs to `owner`.
pub open spec fn has_owner(parties: Seq<PartyModel>, owner: i64) -> bool {
    exists|i: int| 0 <= i < parties.len() && parties[i].owner == owner
}

/// The index of `owner`'s party; under `owners_unique` that index is unique.
pub open spec fn owner_index(parties: Seq<PartyModel>, owner: i64) -> int {
    choose|i: int| 0 <= i < parties.len() && parties[i].owner == owner
}

/// The party belonging to `owner`; meaningful when `has_owner` holds.
pub open spec fn party_of(parties: Seq<PartyModel>, owner: i64) -> PartyModel {
    parties[owner_index(parties, owner)]
}

/// At most one party per owner identifier.
pub open spec fn owners_unique(parties: Seq<PartyModel>) -> bool {
    forall|i: int, j: int|
        0 <= i < j < parties.len() ==> parties[i].owner != parties[j].owner
}

impl RecordModel {
    /// Invariant of every reachable record: at most one party per owner, and
    /// every party well-formed.
    pub open spec fn wf(self) -> bool {
        &&& owners_unique(self.parties)
        &&& (forall|i: int| 0 <= i < self.parties.len() ==> self.parties[i].wf())
    }
}

/// One group's persisted record: the executable counterpart of
/// [`RecordModel`].
pub struct DatabaseServer {
    pub id: i64,
    pub owner_id: i64,
    pub parties: Vec<Group>,
}

impl View for DatabaseServer {
    type V = RecordModel;

    open spec fn view(&self) -> RecordModel {
        RecordModel {
            id: self.id,
            owner_id: self.owner_id,
            parties: self.parties@.map_values(|g: Group| g@),
        }
    }
}

impl Clone for DatabaseServer {
    /// A clone carries the same logical state as the original.
    fn clone(&self) -> (res: Self)
        ensures
            res@ == self@,
    {
        let res = DatabaseServer {
            id: self.id,
            owner_id: self.owner_id,
            parties: self.parties.clone(),
        };
        proof {
            assert(res@.parties =~= self@.parties);
            assert(res@ =~= self@);
        }
        res
    }
}

impl DatabaseServer {
    pub open spec fn wf(self) -> bool {
        self@.wf()
    }

    /// An empty record for a group first seen, administered by `owner_id`.
    pub fn new_empty(id: i64, owner_id: i64) -> (r: DatabaseServer)
        ensures
            r@ == (RecordModel { id, owner_id, parties: Seq::<PartyModel>::empty() }),
            r.wf(),
    {
        let r = DatabaseServer { id, owner_id, parties: Vec::new() };
        proof {
            assert(r@.parties =~= Seq::<PartyModel>::empty());
        }
        r
    }

    /// Appends a party to the record.  Keeping the one-party-per-owner
    /// invariant is the caller's charge: it must have checked, as the
    /// creation command does, that the owner holds no party here yet.
    pub fn add_party(&mut self, group: Group)
        ensures
            final(self)@ == (RecordModel {
                parties: old(self)@.parties.push(group@),
                ..old(self)@
            }),
    {
        self.parties.push(group);
        proof {
            assert(self@.parties =~= old(self)@.parties.push(
                self.parties@.last()@,
            ));
            assert(self@ =~= (RecordModel {
                parties: old(self)@.parties.push(self.parties@.last()@),
                ..old(self)@
            }));
        }
    }

    /// Replaces `owner`'s party with `party_group`, moving it to the end of
    /// the collection; a record without a party of `owner`'s is left
    /// unchanged.
    pub fn edit_party(&mut self, owner: &i64, party_group: Group)
        requires
            owners_unique(old(self)@.parties),
        ensures
            final(self)@ == (RecordModel {
                parties: if has_owner(old(self)@.parties, *owner) {
                    old(self)@.parties.remove(
                        owner_index(old(self)@.parties, *owner),
                    ).push(party_group@)
                } else {
                    old(self)@.parties
                },
                ..old(self)@
            }),
    {
        let ghost gparty = party_group@;
        let mut i: usize = 0;
        while i < self.parties.len()
            invariant
                *self == *old(self),
                party_group@ == gparty,
                owners_unique(old(self)@.parties),
                0 <= i <= self.parties.len(),
                forall|j: int| 0 <= j < i ==> self.parties@[j]@.owner != *owner,
            decreases self.parties.len() - i,
        {
            if self.parties[i].party_owner == *owner {
                proof {
                    assert(old(self)@.parties[i as int].owner == *owner);
                    assert(has_owner(old(self)@.parties, *owner));
                    let k = owner_index(old(self)@.parties, *owner);
                    assert(0 <= k < old(self)@.parties.len()
                        && old(self)@.parties[k].owner == *owner);
                    assert(k == i as int);
                }
                self.parties.remove(i);
                self.parties.push(party_group);
                proof {
                    assert(self@.parties =~= old(self)@.parties.remove(i as int).push(gparty));
                    assert(self@ =~= (RecordModel {
                        parties: old(self)@.parties.remove(i as int).push(gparty),
                        ..old(self)@
                    }));
                }
                return ;
            }
            i += 1;
        }
        proof {
            assert(!has_owner(old(self)@.parties, *owner));
            assert(self@ =~= old(self)@);
        }
    }

    /// Hands out a copy of `owner`'s party, or nothing when the record holds
    /// none.
    pub fn get_party(&self, owner: &i64) -> (r: Option<Group>)
        requires
            owners_unique(self@.parties),
        ensures
            r is Some <==> has_owner(self@.parties, *owner),
            r matches Some(g) ==> g@ == party_of(self@.parties, *owner),
    {
        let mut i: usize = 0;
        while i < self.parties.len()
            invariant
                owners_unique(self@.parties),
                0 <= i <= self.parties.len(),
                forall|j: int| 0 <= j < i ==> self.parties@[j]@.owner != *owner,
            decreases self.parties.len() - i,
        {
            if self.parties[i].party_owner == *owner {
                proof {
                    assert(self@.parties[i as int].owner == *owner);
                    assert(has_owner(self@.parties, *owner));
                    let k = owner_index(self@.parties, *owner);
                    assert(0 <= k < self@.parties.len()
                        && self@.parties[k].owner == *owner);
                    assert(k == i as int);
                }
                return Some(self.parties[i].clone());
            }
            i += 1;
        }
        None
    }

    /// Removes `owner`'s party; a record without one is left unchanged.
    pub fn delete_party(&mut self, owner: &i64)
        requires
            owners_unique(old(self)@.parties),
        ensures
            final(self)@ == (RecordModel {
                parties: if has_owner(old(self)@.parties, *owner) {
                    old(self)@.parties.remove(
                        owner_index(old(self)@.parties, *owner),
                    )
                } else {
                    old(self)@.parties
                },
                ..old(self)@
            }),
    {
        let mut i: usize = 0;
        while i < self.parties.len()
            invariant
                *self == *old(self),
                owners_unique(old(self)@.parties),
                0 <= i <= self.parties.len(),
                forall|j: int| 0 <= j < i ==> self.parties@[j]@.owner != *owner,
            decreases self.parties.len() - i,
        {
            if self.parties[i].party_owner == *owner {
                proof {
                    assert(old(self)@.parties[i as int].owner == *owner);
                    assert(has_owner(old(self)@.parties, *owner));
                    let k = owner_index(old(self)@.parties, *owner);
                    assert(0 <= k < old(self)@.parties.len()
                        && old(self)@.parties[k].owner == *owner);
                    assert(k == i as int);
                }
                self.parties.remove(i);
                proof {
                    assert(self@.parties =~= old(self)@.parties.remove(i as int));
                    assert(self@ =~= (RecordModel {
                        parties: old(self)@.parties.remove(i as int),
                        ..old(self)@
                    }));
                }
                return ;
            }
            i += 1;
        }
        proof {
            assert(!has_owner(old(self)@.parties, *owner));
            assert(self@ =~= old(self)@);
        }
    }
}

/// Whether some record in `recs` belongs to the group `id`.
pub open spec fn has_id(recs: Seq<RecordModel>, id: i64) -> bool {
    exists|i: int| 0 <= i < recs.len() && recs[i].id == id
}

/// The index of group `id`'s record; under `ids_unique` that index is unique.
pub open spec fn id_index(recs: Seq<RecordModel>, id: i64) -> int {
    choose|i: int| 0 <= i < recs.len() && recs[i].id == id
}

/// The record of group `id`; meaningful when `has_id` holds.
pub open spec fn record_of(recs: Seq<RecordModel>, id: i64) -> RecordModel {
    recs[id_index(recs, id)]
}

/// At most one record per group identifier.
pub open spec fn ids_unique(recs: Seq<RecordModel>) -> bool {
    forall|i: int, j: int| 0 <= i < j < recs.len() ==> recs[i].id != recs[j].id
}

/// What an atomic find-and-replace with upsert semantics leaves behind:
/// group `r.id`'s record replaced in place, or `r` appended when the group
/// had none.
pub open spec fn upsert_recs(recs: Seq<RecordModel>, r: RecordModel) -> Seq<RecordModel> {
    if has_id(recs, r.id) {
        recs.update(id_index(recs, r.id), r)
    } else {
        recs.push(r)
    }
}

/// Removing `owner`'s party from a collection with unique owners leaves a
/// collection with unique owners in which `owner` holds nothing, and every
/// other owner's party untouched.
pub proof fn lemma_remove_party(parties: Seq<PartyModel>, owner: i64)
    requires
        owners_unique(parties),
        has_owner(parties, owner),
    ensures
        owners_unique(parties.remove(owner_index(parties, owner))),
        !has_owner(parties.remove(owner_index(parties, owner)), owner),
        forall|o2: i64|
            o2 != owner ==> has_owner(parties.remove(owner_index(parties, owner)), o2)
                == has_owner(parties, o2),
        forall|o2: i64|
            o2 != owner && has_owner(parties, o2) ==> party_of(
                parties.remove(owner_index(parties, owner)),
                o2,
            ) == party_of(parties, o2),
{
    let k = owner_index(parties, owner);
    assert(0 <= k < parties.len() && parties[k].owner == owner);
    let newp = parties.remove(k);
    assert forall|a: int, b: int|
        0 <= a < b < newp.len() implies newp[a].owner != newp[b].owner by {
        let oa = if a < k {
            a
        } else {
            a + 1
        };
        let ob = if b < k {
            b
        } else {
            b + 1
        };
        assert(newp[a] == parties[oa] && newp[b] == parties[ob]);
    }
    assert forall|a: int| 0 <= a < newp.len() implies newp[a].owner != owner by {
        let oa = if a < k {
            a
        } else {
            a + 1
        };
        assert(newp[a] == parties[oa]);
        assert(oa != k);
    }
    assert forall|o2: i64| o2 != owner implies has_owner(newp, o2) == has_owner(
        parties,
        o2,
    ) by {
        if has_owner(parties, o2) {
            let a = owner_index(parties, o2);
            assert(0 <= a < parties.len() && parties[a].owner == o2);
            assert(a != k);
            let na = if a < k {
                a
            } else {
                a - 1
            };
            assert(newp[na] == parties[a]);
        }
        if has_owner(newp, o2) {
            let a = owner_index(newp, o2);
            assert(0 <= a < newp.len() && newp[a].owner == o2);
            let oa = if a < k {
                a
            } else {
                a + 1
            };
            assert(newp[a] == parties[oa]);
        }
    }
    assert forall|o2: i64| o2 != owner && has_owner(parties, o2) implies party_of(newp, o2)
        == party_of(parties, o2) by {
        let a = owner_index(parties, o2);
        assert(0 <= a < parties.len() && parties[a].owner == o2);
        assert(a != k);
        let na = if a < k {
            a
        } else {
            a - 1
        };
        assert(newp[na] == parties[a]);
        let b = owner_index(newp, o2);
        assert(0 <= b < newp.len() && newp[b].owner == o2);
        let ob = if b < k {
            b
        } else {
            b + 1
        };
        assert(newp[b] == parties[ob]);
        assert(ob == a);
    }
}

/// Replacing `owner`'s party with another party of the same owner — the
/// write-back of one read-modify-write cycle — keeps the owners unique,
/// makes the new party the one `owner` holds, and leaves every other
/// owner's party untouched.
pub proof fn lemma_replace_party(parties: Seq<PartyModel>, owner: i64, p: PartyModel)
    requires
        owners_unique(parties),
        has_owner(parties, owner),
        p.owner == owner,
    ensures
        owners_unique(parties.remove(owner_index(parties, owner)).push(p)),
        has_owner(parties.remove(owner_index(parties, owner)).push(p), owner),
        party_of(parties.remove(owner_index(parties, owner)).push(p), owner) == p,
        forall|o2: i64|
            o2 != owner ==> has_owner(
                parties.remove(owner_index(parties, owner)).push(p),
                o2,
            ) == has_owner(parties, o2),
        forall|o2: i64|
            o2 != owner && has_owner(parties, o2) ==> party_of(
                parties.remove(owner_index(parties, owner)).push(p),
                o2,
            ) == party_of(parties, o2),
{
    lemma_remove_party(parties, owner);
    let removed = parties.remove(owner_index(parties, owner));
    let newp = removed.push(p);
    assert(newp[newp.len() - 1] == p);
    assert forall|a: int, b: int|
        0 <= a < b < newp.len() implies newp[a].owner != newp[b].owner by {
        if b < newp.len() - 1 {
            assert(newp[a] == removed[a] && newp[b] == removed[b]);
        } else {
            assert(newp[a] == removed[a]);
            assert(removed[a].owner != owner);
        }
    }
    assert(has_owner(newp, owner));
    let j = owner_index(newp, owner);
    assert(0 <= j < newp.len() && newp[j].owner == owner);
    if j < newp.len() - 1 {
        assert(newp[j] == removed[j]);
        assert(removed[j].owner != owner);
    }
    assert(party_of(newp, owner) == p);
    assert forall|o2: i64| o2 != owner implies has_owner(newp, o2) == has_owner(
        parties,
        o2,
    ) by {
        if has_owner(removed, o2) {
            let a = owner_index(removed, o2);
            assert(0 <= a < removed.len() && removed[a].owner == o2);
            assert(newp[a] == removed[a]);
        }
        if has_owner(newp, o2) {
            let a = owner_index(newp, o2);
            assert(0 <= a < newp.len() && newp[a].owner == o2);
            assert(a != newp.len() - 1);
            assert(newp[a] == removed[a]);
        }
    }
    assert forall|o2: i64| o2 != owner && has_owner(parties, o2) implies party_of(newp, o2)
        == party_of(parties, o2) by {
        let a = owner_index(removed, o2);
        assert(0 <= a < removed.len() && removed[a].owner == o2);
        assert(newp[a] == removed[a]);
        let b = owner_index(newp, o2);
        assert(0 <= b < newp.len() && newp[b].owner == o2);
        assert(b != newp.len() - 1);
        assert(newp[b] == removed[b]);
        assert(b == a);
        assert(party_of(removed, o2) == party_of(parties, o2));
        assert(party_of(newp, o2) == newp[b]);
        assert(removed[a] == party_of(removed, o2));
    }
}

/// Law: persistence is not lossy.  Upserting a record and immediately
/// fetching it by its group identifier yields the very same logical record,
/// and every other group's record is untouched.
pub proof fn lemma_persist_then_fetch(recs: Seq<RecordModel>, r: RecordModel)
    requires
        ids_unique(recs),
    ensures
        ids_unique(upsert_recs(recs, r)),
        has_id(upsert_recs(recs, r), r.id),
        record_of(upsert_recs(recs, r), r.id) == r,
        forall|id2: i64|
            id2 != r.id ==> (has_id(upsert_recs(recs, r), id2) == has_id(recs, id2)),
        forall|id2: i64|
            id2 != r.id && has_id(recs, id2) ==> record_of(upsert_recs(recs, r), id2)
                == record_of(recs, id2),
{
    let new = upsert_recs(recs, r);
    if has_id(recs, r.id) {
        let k = id_index(recs, r.id);
        assert(0 <= k < recs.len() && recs[k].id == r.id);
        assert(forall|i: int| 0 <= i < new.len() ==> new[i].id == recs[i].id);
        assert(new[k] == r);
        assert(has_id(new, r.id));
        let j = id_index(new, r.id);
        assert(0 <= j < new.len() && new[j].id == r.id);
        assert(j == k);
        assert forall|id2: i64| id2 != r.id implies (has_id(new, id2) == has_id(
            recs,
            id2,
        )) by {
            if has_id(recs, id2) {
                let a = id_index(recs, id2);
                assert(0 <= a < recs.len() && recs[a].id == id2);
                assert(new[a].id == id2);
            }
            if has_id(new, id2) {
                let a = id_index(new, id2);
                assert(0 <= a < new.len() && new[a].id == id2);
                assert(recs[a].id == id2);
            }
        }
        assert forall|id2: i64| id2 != r.id && has_id(recs, id2) implies record_of(new, id2)
            == record_of(recs, id2) by {
            let a = id_index(recs, id2);
            assert(0 <= a < recs.len() && recs[a].id == id2);
            assert(a != k);
            assert(new[a] == recs[a]);
            assert(has_id(new, id2));
            let b = id_index(new, id2);
            assert(0 <= b < new.len() && new[b].id == id2);
            assert(recs[b].id == id2);
            assert(b == a);
        }
    } else {
        assert(forall|j: int| 0 <= j < recs.len() ==> recs[j].id != r.id);
        assert(new == recs.push(r));
        assert(new[recs.len() as int] == r);
        assert(has_id(new, r.id));
        assert forall|a: int, b: int| 0 <= a < b < new.len() implies new[a].id != new[b].id by {
            if b < new.len() - 1 {
                assert(new[a] == recs[a] && new[b] == recs[b]);
            } else {
                assert(new[a] == recs[a] && new[b] == r);
            }
        }
        let j = id_index(new, r.id);
        assert(0 <= j < new.len() && new[j].id == r.id);
        assert(j == recs.len() as int);
        assert forall|id2: i64| id2 != r.id implies (has_id(new, id2) == has_id(
            recs,
            id2,
        )) by {
            if has_id(recs, id2) {
                let a = id_index(recs, id2);
                assert(0 <= a < recs.len() && recs[a].id == id2);
                assert(new[a].id == id2);
            }
            if has_id(new, id2) {
                let a = id_index(new, id2);
                assert(0 <= a < new.len() && new[a].id == id2);
                assert(a != recs.len() as int);
                assert(recs[a].id == id2);
            }
        }
        assert forall|id2: i64| id2 != r.id && has_id(recs, id2) implies record_of(new, id2)
            == record_of(recs, id2) by {
            let a = id_index(recs, id2);
            assert(0 <= a < recs.len() && recs[a].id == id2);
            assert(new[a] == recs[a]);
            assert(has_id(new, id2));
            let b = id_index(new, id2);
            assert(0 <= b < new.len() && new[b].id == id2);
            assert(b != recs.len() as int);
            assert(recs[b].id == id2);
            assert(b == a);
        }
    }
}

/// Law: the upsert is idempotent — replaying the same write leaves the very
/// same store behind.
pub proof fn lemma_upsert_idempotent(recs: Seq<RecordModel>, r: RecordModel)
    requires
        ids_unique(recs),
    ensures
        upsert_recs(upsert_recs(recs, r), r) == upsert_recs(recs, r),
{
    lemma_persist_then_fetch(recs, r);
    let new = upsert_recs(recs, r);
    let k = id_index(new, r.id);
    assert(0 <= k < new.len() && new[k].id == r.id);
    assert(new[k] == record_of(new, r.id));
    assert(upsert_recs(new, r) =~= new);
}

/// Upserting a well-formed record into a store whose records are all
/// well-formed keeps every record well-formed.
pub proof fn lemma_upsert_preserves_wf(recs: Seq<RecordModel>, r: RecordModel)
    requires
        ids_unique(recs),
        r.wf(),
        forall|i: int| 0 <= i < recs.len() ==> recs[i].wf(),
    ensures
        ids_unique(upsert_recs(recs, r)),
        forall|i: int|
            0 <= i < upsert_recs(recs, r).len() ==> upsert_recs(recs, r)[i].wf(),
{
    lemma_persist_then_fetch(recs, r);
    let new = upsert_recs(recs, r);
    if has_id(recs, r.id) {
        let k = id_index(recs, r.id);
        assert(0 <= k < recs.len() && recs[k].id == r.id);
        assert forall|i: int| 0 <= i < new.len() implies new[i].wf() by {
            if i != k {
                assert(new[i] == recs[i]);
            } else {
                assert(new[i] == r);
            }
        }
    } else {
        assert forall|i: int| 0 <= i < new.len() implies new[i].wf() by {
            if i < new.len() - 1 {
                assert(new[i] == recs[i]);
            } else {
                assert(new[i] == r);
            }
        }
    }
}

/// The persisted store, modelled in memory: every group's record, each group
/// appearing at most once.  The document store itself lives outside; callers
/// there re-fetch a record before every mutation and write it back through
/// the upsert, exactly as these operations state.
pub struct Database {
    pub servers: Vec<DatabaseServer>,
}

impl View for Database {
    type V = Seq<RecordModel>;

    open spec fn view(&self) -> Seq<RecordModel> {
        self.servers@.map_values(|s: DatabaseServer| s@)
    }
}

impl Database {
    /// Invariant of every reachable store: one record per group, each record
    /// well-formed.
    pub open spec fn wf(self) -> bool {
        &&& ids_unique(self@)
        &&& (forall|i: int| 0 <= i < self@.len() ==> self@[i].wf())
    }

    /// An empty store.
    pub fn new() -> (db: Database)
        ensures
            db@ == Seq::<RecordModel>::empty(),
            db.wf(),
    {
        let db = Database { servers: Vec::new() };
        proof {
            assert(db@ =~= Seq::<RecordModel>::empty());
        }
        db
    }

    /// Hands out a copy of group `id`'s record, or nothing when the store
    /// holds none.
    pub fn get(&self, id: i64) -> (r: Option<DatabaseServer>)
        requires
            ids_unique(self@),
        ensures
            r is Some <==> has_id(self@, id),
            r matches Some(rec) ==> rec@ == record_of(self@, id),
    {
        let mut i: usize = 0;
        while i < self.servers.len()
            invariant
                ids_unique(self@),
                0 <= i <= self.servers.len(),
                forall|j: int| 0 <= j < i ==> self.servers@[j]@.id != id,
            decreases self.servers.len() - i,
        {
            if self.servers[i].id == id {
                proof {
                    assert(self@[i as int].id == id);
                    assert(has_id(self@, id));
                    let k = id_index(self@, id);
                    assert(0 <= k < self@.len() && self@[k].id == id);
                    assert(k == i as int);
                }
                return Some(self.servers[i].clone());
            }
            i += 1;
        }
        None
    }

    /// Fetches group `id`'s record.  When the group has none and an
    /// administrator identifier is supplied, an empty record is created,
    /// persisted and returned; when the group has none and no identifier is
    /// supplied, the call fails with `NotFound` and the store is unchanged.
    pub fn get_or_insert_new(&mut self, id: i64, owner_id: Option<i64>) -> (r: Result<
        DatabaseServer,
        StoreError,
    >)
        requires
            ids_unique(old(self)@),
        ensures
            r is Ok <==> (has_id(old(self)@, id) || owner_id is Some),
            r is Err ==> r == Err::<DatabaseServer, StoreError>(StoreError::NotFound),
            final(self)@ == (if has_id(old(self)@, id) || owner_id is None {
                old(self)@
            } else {
                old(self)@.push(
                    RecordModel {
                        id,
                        owner_id: owner_id->Some_0,
                        parties: Seq::<PartyModel>::empty(),
                    },
                )
            }),
            r matches Ok(rec) ==> rec@ == (if has_id(old(self)@, id) {
                record_of(old(self)@, id)
            } else {
                RecordModel {
                    id,
                    owner_id: owner_id->Some_0,
                    parties: Seq::<PartyModel>::empty(),
                }
            }),
            ids_unique(final(self)@),
            old(self).wf() ==> final(self).wf(),
    {
        let fetched = self.get(id);
        match fetched {
            Some(rec) => Ok(rec),
            None => {
                match owner_id {
                    Some(owner) => {
                        let fresh = DatabaseServer::new_empty(id, owner);
                        let ret = fresh.clone();
                        self.servers.push(fresh);
                        proof {
                            assert(self@ =~= old(self)@.push(
                                RecordModel {
                                    id,
                                    owner_id: owner,
                                    parties: Seq::<PartyModel>::empty(),
                                },
                            ));
                            assert forall|a: int, b: int|
                                0 <= a < b < self@.len() implies self@[a].id
                                != self@[b].id by {
                                if b == self@.len() - 1 {
                                    assert(!has_id(old(self)@, id));
                                    assert(old(self)@[a].id != id);
                                }
                            }
                            if old(self).wf() {
                                assert forall|i2: int|
                                    0 <= i2 < self@.len() implies self@[i2].wf() by {
                                    if i2 < self@.len() - 1 {
                                        assert(self@[i2] == old(self)@[i2]);
                                    }
                                }
                            }
                        }
                        Ok(ret)
                    },
                    None => Err(StoreError::NotFound),
                }
            },
        }
    }

    /// Atomic find-and-replace with upsert semantics, keyed by the record's
    /// group identifier; returns the post-write record, so the caller
    /// observes the persisted state.
    pub fn insert_or_replace(&mut self, database_guild: DatabaseServer) -> (r: DatabaseServer)
        requires
            ids_unique(old(self)@),
        ensures
            final(self)@ == upsert_recs(old(self)@, database_guild@),
            r@ == database_guild@,
            old(self).wf() && database_guild.wf() ==> final(self).wf(),
    {
        proof {
            if old(self).wf() && database_guild.wf() {
                lemma_upsert_preserves_wf(old(self)@, database_guild@);
            }
        }
        let ret = database_guild.clone();
        let mut i: usize = 0;
        while i < self.servers.len()
            invariant
                *self == *old(self),
                database_guild@ == ret@,
                ids_unique(old(self)@),
                0 <= i <= self.servers.len(),
                forall|j: int| 0 <= j < i ==> self.servers@[j]@.id != database_guild@.id,
            decreases self.servers.len() - i,
        {
            if self.servers[i].id == database_guild.id {
                proof {
                    assert(self@[i as int].id == database_guild@.id);
                    assert(has_id(old(self)@, database_guild@.id));
                    let k = id_index(old(self)@, database_guild@.id);
                    assert(0 <= k < old(self)@.len() && old(self)@[k].id == database_guild@.id);
                    assert(k == i as int);
                }
                let ghost target = database_guild@;
                self.servers.set(i, database_guild);
                proof {
                    assert(self@ =~= old(self)@.update(i as int, target));
                }
                return ret;
            }
            i += 1;
        }
        proof {
            assert(!has_id(old(self)@, database_guild@.id));
        }
        let ghost target = database_guild@;
        self.servers.push(database_guild);
        proof {
            assert(self@ =~= old(self)@.push(target));
        }
        ret
    }

    /// Removes group `id`'s record, returning the removed record when one
    /// existed; an absent record is no failure.
    pub fn delete(&mut self, id: i64) -> (r: Option<DatabaseServer>)
        requires
            ids_unique(old(self)@),
        ensures
            r is Some <==> has_id(old(self)@, id),
            r matches Some(rec) ==> rec@ == record_of(old(self)@, id),
            final(self)@ == (if has_id(old(self)@, id) {
                old(self)@.remove(id_index(old(self)@, id))
            } else {
                old(self)@
            }),
            old(self).wf() ==> final(self).wf(),
    {
        let mut i: usize = 0;
        while i < self.servers.len()
            invariant
                *self == *old(self),
                ids_unique(old(self)@),
                0 <= i <= self.servers.len(),
                forall|j: int| 0 <= j < i ==> self.servers@[j]@.id != id,
            decreases self.servers.len() - i,
        {
            if self.servers[i].id == id {
                proof {
                    assert(self@[i as int].id == id);
                    assert(has_id(old(self)@, id));
                    let k = id_index(old(self)@, id);
                    assert(0 <= k < old(self)@.len() && old(self)@[k].id == id);
                    assert(k == i as int);
                }
                let removed = self.servers.remove(i);
                proof {
                    assert(self@ =~= old(self)@.remove(i as int));
                }
                return Some(removed);
            }
            i += 1;
        }
        proof {
            assert(!has_id(old(self)@, id));
            assert(self@ =~= old(self)@);
        }
        None
    }

    /// Whether `party_owner_id` already owns a party in group `id`: the
    /// query behind the one-party-per-owner rule, asked before a new party
    /// is created.  A group without a record owns no parties.
    pub fn party_owner(&self, id: i64, party_owner_id: i64) -> (r: bool)
        requires
            self.wf(),
        ensures
            r == (has_id(self@, id) && has_owner(record_of(self@, id).parties, party_owner_id)),
    {
        let fetched = self.get(id);
        match fetched {
            Some(rec) => {
                proof {
                    assert(0 <= id_index(self@, id) < self@.len());
                    assert(rec@.wf());
                }
                let party = rec.get_party(&party_owner_id);
                party.is_some()
            },
            None => false,
        }
    }
}

} // verus!
