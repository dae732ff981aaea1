//! The record service: the verified operation layer over the two durable
//! regions. It enforces ownership, the record lifecycle and the bounded
//! encoding, and computes the late flag at the instant of completion.
//!
//! Every operation takes the caller's opaque principal string and, where a
//! timestamp matters, the current time as plain values: the identity
//! provider and the clock are boundary collaborators of the store.

use crate::codec::{
    decode_record, encode_record, rec_fits, spec_decode, strings_fit, strings_fit_check,
};
use crate::record::{Error, Payload, Record, RecordView};
use crate::storage::{
    counter_next, counter_of, counter_value, regions_new, table_entries, table_get, table_insert,
    table_of, table_remove, DurableCounter, RecordTable,
};
use vstd::prelude::*;

verus! {

/// The record store: a durable counter minting unique ids and a durable
/// table holding the bounded byte encoding of every live record.
pub struct Store {
    counter: DurableCounter,
    table: RecordTable,
}

impl Store {
    /// The id the next created record will receive.
    pub closed spec fn counter(self) -> u64 {
        counter_of(self.counter)
    }

    /// The persisted byte form of every live record, keyed by id.
    pub closed spec fn bytes(self) -> Map<u64, Seq<u8>> {
        table_of(self.table)
    }

    /// The records the store holds, keyed by id.
    pub closed spec fn records(self) -> Map<u64, RecordView> {
        self.bytes().map_values(|b: Seq<u8>| spec_decode(b).unwrap())
    }

    /// One table slot is sound: it decodes to a record that fits the
    /// bounded encoding, whose id is the slot's key and lies strictly below
    /// the counter, and that can only be late if it is completed.
    pub closed spec fn slot_ok(self, id: u64) -> bool {
        let d = spec_decode(self.bytes()[id]);
        &&& d is Some
        &&& rec_fits(d.unwrap())
        &&& d.unwrap().id == id
        &&& id < self.counter()
        &&& (d.unwrap().completed_late ==> d.unwrap().completed)
    }

    /// The store invariant: the table is finite and every slot is sound.
    pub closed spec fn wf(self) -> bool {
        &&& self.bytes().dom().finite()
        &&& forall|id: u64| #[trigger] self.bytes().dom().contains(id) ==> self.slot_ok(id)
    }

    /// Completing a record is only permitted while it is not yet completed:
    /// a second completion by the owner is a contract violation, not a
    /// recoverable error.
    pub open spec fn complete_permitted(self, id: u64, caller: Seq<char>) -> bool {
        self.records().dom().contains(id) && self.records()[id].owner == caller
            ==> !self.records()[id].completed
    }

    /// The id the next created record will receive, as a runtime value.
    pub fn next_id(&self) -> (n: u64)
        ensures
            n == self.counter(),
    {
        counter_value(&self.counter)
    }

    /// Creates an empty store over two disjoint durable regions carved out
    /// of the process's one default memory. The stated counter and table
    /// values describe a fresh store, over a memory that holds no earlier
    /// persisted state; the library models a single store lifetime.
    pub fn new() -> (s: Store)
        ensures
            s.wf(),
            (s.records() == Map::<u64, RecordView>::empty()),
            s.counter() == 0,
    {
        let (counter, table) = regions_new();
        let s = Store { counter, table };
        proof {
            assert(s.records() =~= Map::<u64, RecordView>::empty());
        }
        s
    }

    /// Point lookup: returns the record stored under `id`, and `NotFound`
    /// exactly when no record has that id.
    pub fn get(&self, id: u64) -> (r: Result<Record, Error>)
        requires
            self.wf(),
        ensures
            r is Ok <==> self.records().dom().contains(id),
            r matches Ok(rec) ==> rec@ == self.records()[id],
            r matches Err(e) ==> e == (Error::NotFound { id: Some(id) }),
    {
        let bytes = match table_get(&self.table, id) {
            Some(b) => b,
            None => {
                return Err(Error::NotFound { id: Some(id) });
            },
        };
        match decode_record(&bytes) {
            Some(rec) => Ok(rec),
            None => {
                proof {
                    assert(false);
                }
                Err(Error::NotFound { id: Some(id) })
            },
        }
    }

    /// Creates a record owned by the caller: mints the next id, stamps the
    /// creation time, and persists the record, unless its encoding would
    /// overflow the bounded slot, in which case nothing changes.
    pub fn create(&mut self, caller: &String, payload: Payload, now: u64) -> (r: Result<
        Record,
        Error,
    >)
        requires
            old(self).wf(),
            old(self).counter() < u64::MAX,
        ensures
            final(self).wf(),
            r is Ok <==> strings_fit(caller@, payload.title@, payload.body@),
            r matches Ok(rec) ==> {
                &&& rec@ == (RecordView {
                    owner: caller@,
                    id: old(self).counter(),
                    title: payload.title@,
                    body: payload.body@,
                    completed: false,
                    created_at: now,
                    updated_at: None::<u64>,
                    deadline: payload.deadline,
                    completed_late: false,
                })
                &&& !old(self).records().dom().contains(rec@.id)
                &&& (final(self).records() == old(self).records().insert(rec@.id, rec@))
                &&& final(self).counter() == old(self).counter() + 1
            },
            r is Err ==> {
                &&& (r matches Err(e) && e is PayloadTooLarge)
                &&& (final(self).records() == old(self).records())
                &&& final(self).counter() == old(self).counter()
            },
            r matches Ok(rec) ==> counter_step(
                old(self).counter(),
                final(self).counter(),
                Some(rec@.id),
            ),
            r is Err ==> counter_step(old(self).counter(), final(self).counter(), None::<u64>),
    {
        if !strings_fit_check(caller, &payload.title, &payload.body) {
            return Err(Error::PayloadTooLarge);
        }
        let id = counter_next(&mut self.counter);
        let rec = Record {
            owner: caller.clone(),
            id,
            title: payload.title,
            body: payload.body,
            completed: false,
            created_at: now,
            updated_at: None,
            deadline: payload.deadline,
            completed_late: false,
        };
        let encoded = encode_record(&rec);
        let _prior = table_insert(&mut self.table, id, encoded);
        proof {
            crate::codec::lemma_decode_encode(rec@);
            assert(!old(self).records().dom().contains(id));
            assert(self.records() =~= old(self).records().insert(id, rec@));
            assert forall|id2: u64| #[trigger] self.bytes().dom().contains(id2) implies self.slot_ok(
                id2,
            ) by {
                if id2 != id {
                    assert(old(self).slot_ok(id2));
                }
            }
        }
        Ok(rec)
    }

    /// Replaces the title and body of the caller's record and stamps the
    /// edit time. Fails with `NotFound` or `NotAuthorized` without any
    /// change; rejects a payload whose record would no longer fit.
    pub fn update(&mut self, caller: &String, id: u64, payload: Payload, now: u64) -> (r: Result<
        Record,
        Error,
    >)
        requires
            old(self).wf(),
        ensures
            final(self).wf(),
            final(self).counter() == old(self).counter(),
            r is Ok <==> (old(self).records().dom().contains(id) && old(self).records()[id].owner
                == caller@ && strings_fit(
                old(self).records()[id].owner,
                payload.title@,
                payload.body@,
            )),
            !old(self).records().dom().contains(id) ==> {
                &&& r matches Err(e) && e == (Error::NotFound { id: Some(id) })
                &&& (final(self).records() == old(self).records())
            },
            (old(self).records().dom().contains(id) && old(self).records()[id].owner != caller@)
                ==> {
                &&& r matches Err(Error::NotAuthorized { id: eid, caller: c }) && eid == id && c@
                    == caller@
                &&& (final(self).records() == old(self).records())
            },
            (old(self).records().dom().contains(id) && old(self).records()[id].owner == caller@
                && !strings_fit(old(self).records()[id].owner, payload.title@, payload.body@))
                ==> {
                &&& r matches Err(e) && e is PayloadTooLarge
                &&& (final(self).records() == old(self).records())
            },
            r matches Ok(rec) ==> {
                &&& rec@ == (RecordView {
                    owner: old(self).records()[id].owner,
                    id,
                    title: payload.title@,
                    body: payload.body@,
                    completed: old(self).records()[id].completed,
                    created_at: old(self).records()[id].created_at,
                    updated_at: Some(now),
                    deadline: old(self).records()[id].deadline,
                    completed_late: old(self).records()[id].completed_late,
                })
                &&& (final(self).records() == old(self).records().insert(id, rec@))
            },
    {
        let bytes = match table_get(&self.table, id) {
            Some(b) => b,
            None => {
                return Err(Error::NotFound { id: Some(id) });
            },
        };
        let rec0 = match decode_record(&bytes) {
            Some(rc) => rc,
            None => {
                proof {
                    assert(false);
                }
                return Err(Error::NotFound { id: Some(id) });
            },
        };
        if rec0.owner != *caller {
            return Err(Error::NotAuthorized { id, caller: caller.clone() });
        }
        if !strings_fit_check(&rec0.owner, &payload.title, &payload.body) {
            return Err(Error::PayloadTooLarge);
        }
        let rec = Record {
            owner: rec0.owner,
            id: rec0.id,
            title: payload.title,
            body: payload.body,
            completed: rec0.completed,
            created_at: rec0.created_at,
            updated_at: Some(now),
            deadline: rec0.deadline,
            completed_late: rec0.completed_late,
        };
        let encoded = encode_record(&rec);
        let _prior = table_insert(&mut self.table, id, encoded);
        proof {
            crate::codec::lemma_decode_encode(rec@);
            assert(self.records() =~= old(self).records().insert(id, rec@));
            assert forall|id2: u64| #[trigger] self.bytes().dom().contains(id2) implies self.slot_ok(
                id2,
            ) by {
                if id2 != id {
                    assert(old(self).slot_ok(id2));
                }
            }
        }
        Ok(rec)
    }

    /// Marks the caller's record completed, evaluating the lateness rule
    /// once, at this instant: the record becomes late exactly when it has a
    /// deadline and `now` lies strictly after it. Completing an already
    /// completed record is excluded by contract.
    pub fn complete(&mut self, caller: &String, id: u64, now: u64) -> (r: Result<Record, Error>)
        requires
            old(self).wf(),
            old(self).complete_permitted(id, caller@),
        ensures
            final(self).wf(),
            final(self).counter() == old(self).counter(),
            r is Ok <==> (old(self).records().dom().contains(id) && old(self).records()[id].owner
                == caller@),
            !old(self).records().dom().contains(id) ==> {
                &&& r matches Err(e) && e == (Error::NotFound { id: Some(id) })
                &&& (final(self).records() == old(self).records())
            },
            (old(self).records().dom().contains(id) && old(self).records()[id].owner != caller@)
                ==> {
                &&& r matches Err(Error::NotAuthorized { id: eid, caller: c }) && eid == id && c@
                    == caller@
                &&& (final(self).records() == old(self).records())
            },
            r matches Ok(rec) ==> {
                &&& rec@ == (RecordView {
                    owner: old(self).records()[id].owner,
                    id,
                    title: old(self).records()[id].title,
                    body: old(self).records()[id].body,
                    completed: true,
                    created_at: old(self).records()[id].created_at,
                    updated_at: old(self).records()[id].updated_at,
                    deadline: old(self).records()[id].deadline,
                    completed_late: (match old(self).records()[id].deadline {
                        Some(d) => now > d,
                        None => false,
                    }),
                })
                &&& (final(self).records() == old(self).records().insert(id, rec@))
            },
    {
        let bytes = match table_get(&self.table, id) {
            Some(b) => b,
            None => {
                return Err(Error::NotFound { id: Some(id) });
            },
        };
        let rec0 = match decode_record(&bytes) {
            Some(rc) => rc,
            None => {
                proof {
                    assert(false);
                }
                return Err(Error::NotFound { id: Some(id) });
            },
        };
        if rec0.owner != *caller {
            return Err(Error::NotAuthorized { id, caller: caller.clone() });
        }
        let late = match rec0.deadline {
            Some(d) => now > d,
            None => false,
        };
        let rec = Record {
            owner: rec0.owner,
            id: rec0.id,
            title: rec0.title,
            body: rec0.body,
            completed: true,
            created_at: rec0.created_at,
            updated_at: rec0.updated_at,
            deadline: rec0.deadline,
            completed_late: late,
        };
        let encoded = encode_record(&rec);
        let _prior = table_insert(&mut self.table, id, encoded);
        proof {
            crate::codec::lemma_decode_encode(rec@);
            assert(self.records() =~= old(self).records().insert(id, rec@));
            assert forall|id2: u64| #[trigger] self.bytes().dom().contains(id2) implies self.slot_ok(
                id2,
            ) by {
                if id2 != id {
                    assert(old(self).slot_ok(id2));
                }
            }
        }
        Ok(rec)
    }

    /// Removes the caller's record and returns it. Fails with `NotFound` or
    /// `NotAuthorized` without any change.
    pub fn delete(&mut self, caller: &String, id: u64) -> (r: Result<Record, Error>)
        requires
            old(self).wf(),
        ensures
            final(self).wf(),
            final(self).counter() == old(self).counter(),
            r is Ok <==> (old(self).records().dom().contains(id) && old(self).records()[id].owner
                == caller@),
            !old(self).records().dom().contains(id) ==> {
                &&& r matches Err(e) && e == (Error::NotFound { id: Some(id) })
                &&& (final(self).records() == old(self).records())
            },
            (old(self).records().dom().contains(id) && old(self).records()[id].owner != caller@)
                ==> {
                &&& r matches Err(Error::NotAuthorized { id: eid, caller: c }) && eid == id && c@
                    == caller@
                &&& (final(self).records() == old(self).records())
            },
            r matches Ok(rec) ==> {
                &&& rec@ == old(self).records()[id]
                &&& (final(self).records() == old(self).records().remove(id))
            },
    {
        let bytes = match table_get(&self.table, id) {
            Some(b) => b,
            None => {
                return Err(Error::NotFound { id: Some(id) });
            },
        };
        let rec0 = match decode_record(&bytes) {
            Some(rc) => rc,
            None => {
                proof {
                    assert(false);
                }
                return Err(Error::NotFound { id: Some(id) });
            },
        };
        if rec0.owner != *caller {
            return Err(Error::NotAuthorized { id, caller: caller.clone() });
        }
        let _removed = table_remove(&mut self.table, id);
        proof {
            assert(self.records() =~= old(self).records().remove(id));
            assert forall|id2: u64| #[trigger] self.bytes().dom().contains(id2) implies self.slot_ok(
                id2,
            ) by {
                assert(old(self).slot_ok(id2));
            }
        }
        Ok(rec0)
    }

    /// Returns every record, in ascending id order, or `NotFound` when the
    /// table is empty.
    #[verifier::rlimit(100)]
    pub fn get_all(&self) -> (r: Result<Vec<Record>, Error>)
        requires
            self.wf(),
        ensures
            r is Ok <==> self.records().dom().len() > 0,
            r matches Err(e) ==> e == (Error::NotFound { id: None::<u64> }),
            r matches Ok(v) ==> {
                &&& v@.len() == self.records().dom().len()
                &&& forall|i: int|
                    0 <= i < v@.len() ==> self.records().dom().contains(#[trigger] v@[i]@.id)
                        && v@[i]@ == self.records()[v@[i]@.id]
                &&& forall|i: int, j: int|
                    0 <= i < j < v@.len() ==> #[trigger] v@[i]@.id < #[trigger] v@[j]@.id
                &&& forall|k: u64|
                    self.records().dom().contains(k) ==> exists|i: int|
                        0 <= i < v@.len() && #[trigger] v@[i]@.id == k
            },
    {
        proof {
            assert(self.records().dom() =~= self.bytes().dom());
        }
        let entries = table_entries(&self.table);
        if entries.len() == 0 {
            return Err(Error::NotFound { id: None });
        }
        let mut out: Vec<Record> = Vec::new();
        let mut k: usize = 0;
        while k < entries.len()
            invariant
                self.wf(),
                k <= entries@.len(),
                out@.len() == k,
                entries@.len() == self.records().dom().len(),
                forall|i: int|
                    0 <= i < entries@.len() ==> self.bytes().dom().contains(
                        #[trigger] entries@[i].0,
                    ) && entries@[i].1@ == self.bytes()[entries@[i].0],
                forall|i: int, j: int|
                    0 <= i < j < entries@.len() ==> #[trigger] entries@[i].0
                        < #[trigger] entries@[j].0,
                forall|kk: u64|
                    self.bytes().dom().contains(kk) ==> exists|i: int|
                        0 <= i < entries@.len() && #[trigger] entries@[i].0 == kk,
                forall|i: int|
                    0 <= i < k ==> #[trigger] out@[i]@.id == entries@[i].0 && out@[i]@
                        == self.records()[entries@[i].0],
            decreases entries@.len() - k,
        {
            let pair = &entries[k];
            proof {
                assert(entries@[k as int].0 == pair.0);
                assert(self.bytes().dom().contains(pair.0));
                assert(self.slot_ok(pair.0));
                assert(pair.1@ == self.bytes()[pair.0]);
            }
            let rec = match decode_record(&pair.1) {
                Some(rc) => rc,
                None => {
                    proof {
                        assert(false);
                    }
                    return Err(Error::NotFound { id: None });
                },
            };
            out.push(rec);
            k = k + 1;
        }
        proof {
            assert(self.records().dom() =~= self.bytes().dom());
            assert forall|kk: u64| self.records().dom().contains(kk) implies exists|i: int|
                0 <= i < out@.len() && #[trigger] out@[i]@.id == kk by {
                let j = choose|j: int| 0 <= j < entries@.len() && #[trigger] entries@[j].0 == kk;
                assert(out@[j]@.id == kk);
            }
        }
        Ok(out)
    }

    /// Returns the completed records, in ascending id order, or `NotFound`
    /// when no record is completed.
    #[verifier::rlimit(100)]
    pub fn get_completed(&self) -> (r: Result<Vec<Record>, Error>)
        requires
            self.wf(),
        ensures
            r is Ok <==> exists|k: u64|
                #[trigger] self.records().dom().contains(k) && self.records()[k].completed,
            r matches Err(e) ==> e == (Error::NotFound { id: None::<u64> }),
            r matches Ok(v) ==> {
                &&& forall|i: int|
                    0 <= i < v@.len() ==> self.records().dom().contains(#[trigger] v@[i]@.id)
                        && v@[i]@ == self.records()[v@[i]@.id] && v@[i]@.completed
                &&& forall|i: int, j: int|
                    0 <= i < j < v@.len() ==> #[trigger] v@[i]@.id < #[trigger] v@[j]@.id
                &&& forall|k: u64|
                    self.records().dom().contains(k) && self.records()[k].completed ==> exists|
                        i: int,
                    |
                        0 <= i < v@.len() && #[trigger] v@[i]@.id == k
            },
    {
        let all = match self.get_all() {
            Ok(v) => v,
            Err(_) => {
                proof {
                    assert(self.records().dom() =~= self.bytes().dom());
                    self.records().dom().lemma_len0_is_empty();
                }
                return Err(Error::NotFound { id: None });
            },
        };
        let mut out: Vec<Record> = Vec::new();
        let mut k: usize = 0;
        while k < all.len()
            invariant
                k <= all@.len(),
                k == 0 ==> out@.len() == 0,
                forall|i: int|
                    0 <= i < all@.len() ==> self.records().dom().contains(#[trigger] all@[i]@.id)
                        && all@[i]@ == self.records()[all@[i]@.id],
                forall|i: int, j: int|
                    0 <= i < j < all@.len() ==> #[trigger] all@[i]@.id < #[trigger] all@[j]@.id,
                forall|kk: u64|
                    self.records().dom().contains(kk) ==> exists|i: int|
                        0 <= i < all@.len() && #[trigger] all@[i]@.id == kk,
                forall|i: int|
                    0 <= i < out@.len() ==> self.records().dom().contains(#[trigger] out@[i]@.id)
                        && out@[i]@ == self.records()[out@[i]@.id] && out@[i]@.completed,
                forall|i1: int, i2: int|
                    0 <= i1 < i2 < out@.len() ==> #[trigger] out@[i1]@.id < #[trigger] out@[i2]@.id,
                k > 0 ==> forall|i: int|
                    0 <= i < out@.len() ==> #[trigger] out@[i]@.id <= all@[k - 1]@.id,
                forall|j: int|
                    0 <= j < k && #[trigger] all@[j]@.completed ==> exists|i: int|
                        0 <= i < out@.len() && #[trigger] out@[i]@.id == all@[j]@.id,
            decreases all@.len() - k,
        {
            let ghost pre: Seq<Record> = out@;
            let rec = &all[k];
            if rec.completed {
                proof {
                    if k > 0 {
                        assert(all@[k as int - 1]@.id < all@[k as int]@.id);
                    }
                }
                out.push(rec.duplicate());
            }
            k = k + 1;
            proof {
                assert(forall|i: int| 0 <= i < pre.len() ==> #[trigger] out@[i] == pre[i]);
                assert forall|j: int|
                    0 <= j < k && #[trigger] all@[j]@.completed implies exists|i: int|
                    0 <= i < out@.len() && #[trigger] out@[i]@.id == all@[j]@.id by {
                    if j == k - 1 {
                        assert(all@[j]@ == rec@);
                        assert(out@[out@.len() - 1]@.id == all@[j]@.id);
                    } else {
                        let i0 = choose|i: int|
                            0 <= i < pre.len() && #[trigger] pre[i]@.id == all@[j]@.id;
                        assert(out@[i0]@.id == all@[j]@.id);
                    }
                }
            }
        }
        if out.len() == 0 {
            proof {
                assert forall|kk: u64|
                    #[trigger] self.records().dom().contains(kk) implies !self.records()[kk].completed by {
                    if self.records()[kk].completed {
                        let j = choose|j: int|
                            0 <= j < all@.len() && #[trigger] all@[j]@.id == kk;
                        assert(all@[j]@.completed);
                        assert(exists|i: int|
                            0 <= i < out@.len() && #[trigger] out@[i]@.id == all@[j]@.id);
                    }
                }
            }
            return Err(Error::NotFound { id: None });
        }
        proof {
            assert(self.records().dom().contains(out@[0]@.id) && self.records()[out@[0]@.id].completed);
            assert forall|kk: u64|
                self.records().dom().contains(kk) && self.records()[kk].completed implies exists|
                i: int,
            |
                0 <= i < out@.len() && #[trigger] out@[i]@.id == kk by {
                let j = choose|j: int| 0 <= j < all@.len() && #[trigger] all@[j]@.id == kk;
                assert(all@[j]@.completed);
                let i = choose|i: int| 0 <= i < out@.len() && #[trigger] out@[i]@.id == all@[j]@.id;
                assert(out@[i]@.id == kk);
            }
        }
        Ok(out)
    }
}

/// Uniqueness of minted ids: every id the store holds lies strictly below
/// the counter, so the id a create is about to mint is fresh. A create
/// returns the counter's value and advances it, and no other operation
/// moves the counter, so the ids returned by any sequence of creates are
/// pairwise distinct and strictly increasing in call order, across
/// deletions too.
pub proof fn lemma_ids_below_counter(s: Store)
    requires
        s.wf(),
    ensures
        forall|id: u64| #[trigger] s.records().dom().contains(id) ==> id < s.counter(),
        !s.records().dom().contains(s.counter()),
{
    assert(s.records().dom() =~= s.bytes().dom());
    assert forall|id: u64| #[trigger] s.records().dom().contains(id) implies id < s.counter() by {
        assert(s.slot_ok(id));
    }
}

/// Ownership immutability: update and completion replace the record under
/// one id with a record carrying the same owner, so the owner of every
/// record stays what creation set it, across any number of such calls.
pub proof fn lemma_ownership_immutable(pre: Store, post: Store, id: u64, rec: RecordView)
    requires
        pre.records().dom().contains(id),
        rec.owner == pre.records()[id].owner,
        post.records() == pre.records().insert(id, rec),
    ensures
        forall|k: u64|
            post.records().dom().contains(k) && pre.records().dom().contains(k)
                ==> #[trigger] post.records()[k].owner == pre.records()[k].owner,
{
}

/// Single completion: once a record is completed, no caller can complete
/// it again as a normal state change. Completion is permitted only to a
/// caller whose identity differs from the owner — and for such a caller
/// `complete` returns `NotAuthorized` and changes nothing, by its own
/// contract. For the owner, a second completion violates `complete`'s
/// precondition: a contract violation, never a silent success.
pub proof fn lemma_single_completion(s: Store, id: u64)
    requires
        s.wf(),
        s.records().dom().contains(id),
        s.records()[id].completed,
    ensures
        !s.complete_permitted(id, s.records()[id].owner),
        forall|c: Seq<char>| #[trigger] s.complete_permitted(id, c) ==> c != s.records()[id].owner,
{
}

/// One step of the store as seen by the id counter: a successful create
/// mints the counter's current value as the new record's id and advances
/// the counter by one; every other operation — and a rejected create —
/// leaves the counter unchanged. Each operation's contract establishes
/// this of its own step.
pub open spec fn counter_step(pre: u64, post: u64, minted: Option<u64>) -> bool {
    match minted {
        Some(id) => id == pre && post == pre + 1,
        None => post == pre,
    }
}

/// Counters never decrease along a chain of steps.
proof fn lemma_counter_monotone(counters: Seq<u64>, minted: Seq<Option<u64>>, i: int, j: int)
    requires
        counters.len() == minted.len() + 1,
        forall|n: int|
            0 <= n < minted.len() ==> counter_step(counters[n], counters[n + 1], #[trigger] minted[n]),
        0 <= i <= j <= minted.len(),
    ensures
        counters[i] <= counters[j],
    decreases j - i,
{
    if i < j {
        lemma_counter_monotone(counters, minted, i, j - 1);
        assert(counter_step(counters[j - 1], counters[j], minted[j - 1]));
    }
}

/// Uniqueness of minted ids over any sequence of calls: along any chain of
/// operations, the ids returned by the successful creates are strictly
/// increasing in call order, and therefore pairwise distinct — deletions
/// included, since no step moves the counter back.
pub proof fn lemma_create_ids_strictly_increase(counters: Seq<u64>, minted: Seq<Option<u64>>)
    requires
        counters.len() == minted.len() + 1,
        forall|n: int|
            0 <= n < minted.len() ==> counter_step(counters[n], counters[n + 1], #[trigger] minted[n]),
    ensures
        forall|i: int, j: int|
            0 <= i < j < minted.len() && minted[i] is Some && minted[j] is Some
                ==> #[trigger] minted[i].unwrap() < #[trigger] minted[j].unwrap(),
{
    assert forall|i: int, j: int|
        0 <= i < j < minted.len() && minted[i] is Some
            && minted[j] is Some implies #[trigger] minted[i].unwrap() < #[trigger] minted[j].unwrap() by {
        assert(counter_step(counters[i], counters[i + 1], minted[i]));
        assert(counter_step(counters[j], counters[j + 1], minted[j]));
        lemma_counter_monotone(counters, minted, i + 1, j);
    }
}

/// Deletion finality: a deleted id is gone from the store, so a later
/// lookup of it reports `NotFound`.
pub proof fn lemma_deletion_final(pre: Store, post: Store, id: u64)
    requires
        post.records() == pre.records().remove(id),
    ensures
        !post.records().dom().contains(id),
{
}

} // verus!
