//! The record store: an ordered mapping from identifier to record behind a
//! single owning service value, together with the identity generator.

use vstd::prelude::*;

use crate::record::AthletePerformance;
use crate::record::AthleteUpdatePayload;
use crate::record::RecordModel;
use crate::record::RegistryError;
use crate::record::SEVEN_DAYS;
use crate::record::apply_replace;
use crate::record::apply_update;
use crate::record::has_achievement;
use crate::record::is_recent;
use crate::record::make_record;
use crate::record::matches_name;
use crate::record::matches_sport;
use crate::record::str_contains;
use crate::record::texts_of;

verus! {

/// The views of a sequence of records, element by element.
pub open spec fn views_of(s: Seq<AthletePerformance>) -> Seq<RecordModel> {
    s.map_values(|r: AthletePerformance| r@)
}

/// The ids in `s` are strictly increasing from front to back; in
/// particular no two records share an id.
pub open spec fn sorted_by_id(s: Seq<RecordModel>) -> bool {
    forall|i: int, j: int| 0 <= i < j < s.len() ==> s[i].id < s[j].id
}

/// Every id in `s` is below the bound `n`.
pub open spec fn bounded_by(s: Seq<RecordModel>, n: u64) -> bool {
    forall|i: int| 0 <= i < s.len() ==> s[i].id < n
}

/// Some record in `s` carries the id.
pub open spec fn has_id(s: Seq<RecordModel>, id: u64) -> bool {
    exists|i: int| 0 <= i < s.len() && s[i].id == id
}

/// The position of the record carrying `id`; meaningful only when
/// `has_id(s, id)` holds and the ids are unique.
pub open spec fn index_of(s: Seq<RecordModel>, id: u64) -> int {
    choose|i: int| 0 <= i < s.len() && s[i].id == id
}

/// Exact point lookup on the model: the record at `id`, if any.
pub open spec fn spec_get(s: Seq<RecordModel>, id: u64) -> Option<RecordModel> {
    if has_id(s, id) {
        Some(s[index_of(s, id)])
    } else {
        None
    }
}

/// In a sequence with unique ids, the record found at position `k` is the
/// one the model lookup returns.
pub proof fn lemma_get_at_index(s: Seq<RecordModel>, k: int)
    requires
        sorted_by_id(s),
        0 <= k < s.len(),
    ensures
        has_id(s, s[k].id),
        index_of(s, s[k].id) == k,
        spec_get(s, s[k].id) == Some(s[k]),
{
    assert(has_id(s, s[k].id));
    let i = index_of(s, s[k].id);
    if i != k {
        if i < k {
            assert(s[i].id < s[k].id);
        } else {
            assert(s[k].id < s[i].id);
        }
    }
}

/// Updating the record at position `k` in place (keeping its id) keeps
/// the sequence sorted and leaves the lookup of every other id unchanged.
pub proof fn lemma_get_update(s: Seq<RecordModel>, k: int, r: RecordModel, id2: u64)
    requires
        sorted_by_id(s),
        0 <= k < s.len(),
        s[k].id == r.id,
        id2 != r.id,
    ensures
        sorted_by_id(s.update(k, r)),
        spec_get(s.update(k, r), id2) == spec_get(s, id2),
{
    let s2 = s.update(k, r);
    assert(forall|i: int| 0 <= i < s.len() ==> s2[i].id == s[i].id);
    if has_id(s, id2) {
        let j = index_of(s, id2);
        lemma_get_at_index(s, j);
        lemma_get_at_index(s2, j);
        assert(s2[j] == s[j]);
    } else {
        assert(!has_id(s2, id2));
    }
}

/// Inserting a record at its sorted position keeps the sequence sorted
/// and leaves the lookup of every other id unchanged.
pub proof fn lemma_get_insert(s: Seq<RecordModel>, pos: int, r: RecordModel, id2: u64)
    requires
        sorted_by_id(s),
        0 <= pos <= s.len(),
        forall|i: int| 0 <= i < pos ==> s[i].id < r.id,
        forall|i: int| pos <= i < s.len() ==> s[i].id > r.id,
    ensures
        sorted_by_id(s.insert(pos, r)),
        id2 != r.id ==> spec_get(s.insert(pos, r), id2) == spec_get(s, id2),
{
    let s2 = s.insert(pos, r);
    assert(forall|i: int| 0 <= i < pos ==> s2[i] == s[i]);
    assert(forall|i: int| pos < i < s2.len() ==> s2[i] == s[i - 1]);
    assert(s2[pos] == r);
    if id2 == r.id {
    } else if has_id(s, id2) {
        let j = index_of(s, id2);
        lemma_get_at_index(s, j);
        let j2: int = if j < pos {
            j
        } else {
            j + 1
        };
        assert(s2[j2] == s[j]);
        lemma_get_at_index(s2, j2);
    } else {
        assert forall|i: int| 0 <= i < s2.len() implies s2[i].id != id2 by {
            if i < pos {
                assert(s2[i] == s[i]);
            } else if i > pos {
                assert(s2[i] == s[i - 1]);
            }
        }
        assert(!has_id(s2, id2));
    }
}

/// Removing the record at position `k` keeps the sequence sorted, removes
/// its id from the store, and leaves the lookup of every other id
/// unchanged.
pub proof fn lemma_get_remove(s: Seq<RecordModel>, k: int, id2: u64)
    requires
        sorted_by_id(s),
        0 <= k < s.len(),
    ensures
        sorted_by_id(s.remove(k)),
        !has_id(s.remove(k), s[k].id),
        id2 != s[k].id ==> spec_get(s.remove(k), id2) == spec_get(s, id2),
{
    let s2 = s.remove(k);
    assert(forall|i: int| 0 <= i < k ==> s2[i] == s[i]);
    assert(forall|i: int| k <= i < s2.len() ==> s2[i] == s[i + 1]);
    assert forall|i: int| 0 <= i < s2.len() implies s2[i].id != s[k].id by {
        if i < k {
            assert(s[i].id < s[k].id);
        } else {
            assert(s[k].id < s[i + 1].id);
        }
    }
    if id2 != s[k].id {
        if has_id(s, id2) {
            let j = index_of(s, id2);
            lemma_get_at_index(s, j);
            let j2: int = if j < k {
                j
            } else {
                j - 1
            };
            assert(s2[j2] == s[j]);
            lemma_get_at_index(s2, j2);
        } else {
            assert(!has_id(s2, id2));
        }
    }
}

/// The records of `s` whose name contains `q` as a substring, in order.
pub open spec fn by_name(s: Seq<RecordModel>, q: Seq<char>) -> Seq<RecordModel> {
    s.filter(|r: RecordModel| matches_name(r, q))
}

/// The records of `s` whose sport contains `q` as a substring, in order.
pub open spec fn by_sport(s: Seq<RecordModel>, q: Seq<char>) -> Seq<RecordModel> {
    s.filter(|r: RecordModel| matches_sport(r, q))
}

/// The records of `s` holding an achievement exactly equal to `a`, in
/// order.
pub open spec fn by_achievement(s: Seq<RecordModel>, a: Seq<char>) -> Seq<RecordModel> {
    s.filter(|r: RecordModel| has_achievement(r, a))
}

/// The records of `s` updated strictly within the recency window before
/// `now`, in order.
pub open spec fn recently_updated(s: Seq<RecordModel>, now: u64) -> Seq<RecordModel> {
    s.filter(|r: RecordModel| is_recent(r, now))
}

/// Whether the vector holds a string exactly equal to `a`.
fn vec_contains_string(v: &Vec<String>, a: &String) -> (b: bool)
    ensures
        b == texts_of(v@).contains(a@),
{
    let n = v.len();
    for k in 0..n
        invariant
            n == v@.len(),
            forall|i: int| 0 <= i < k ==> texts_of(v@)[i] != a@,
    {
        if v[k] == *a {
            assert(texts_of(v@)[k as int] == a@);
            return true;
        }
        assert(texts_of(v@)[k as int] != a@);
    }
    assert(forall|i: int| 0 <= i < texts_of(v@).len() ==> texts_of(v@)[i] != a@);
    false
}

/// Whether the record counts as recently updated at time `now`.
fn is_recent_exec(r: &AthletePerformance, now: u64) -> (b: bool)
    ensures
        b == is_recent(r@, now),
{
    match r.updated_at {
        Some(u) => now < SEVEN_DAYS || u > now - SEVEN_DAYS,
        None => false,
    }
}

/// The registry: the record store and the identity counter, owned as one
/// service value.
pub struct Registry {
    next_id: u64,
    store: Vec<AthletePerformance>,
}

impl Registry {
    /// The stored records, in storage (id) order.
    pub closed spec fn records(&self) -> Seq<RecordModel> {
        views_of(self.store@)
    }

    /// The next identifier the identity generator will assign.
    pub closed spec fn spec_next_id(&self) -> u64 {
        self.next_id
    }

    /// Well-formedness: ids strictly increasing in storage order, and all
    /// below the identity counter (so a fresh id never collides).
    pub open spec fn wf(&self) -> bool {
        &&& sorted_by_id(self.records())
        &&& bounded_by(self.records(), self.spec_next_id())
    }

    /// An empty registry whose identity generator starts at 0.
    pub fn new() -> (r: Registry)
        ensures
            r.wf(),
            r.records() == Seq::<RecordModel>::empty(),
            r.spec_next_id() == 0,
    {
        let r = Registry { next_id: 0, store: Vec::new() };
        assert(r.records() =~= Seq::<RecordModel>::empty());
        r
    }

    /// Rebuild a registry from persisted state: the records in storage
    /// order and the identity counter saved alongside them. Succeeds
    /// exactly when the records' ids are strictly increasing and all
    /// below the counter; otherwise the state is rejected.
    pub fn restore(records: Vec<AthletePerformance>, next_id: u64) -> (res: Option<Registry>)
        ensures
            match res {
                Some(r) => {
                    &&& r.wf()
                    &&& r.records() == views_of(records@)
                    &&& r.spec_next_id() == next_id
                },
                None => !(sorted_by_id(views_of(records@)) && bounded_by(
                    views_of(records@),
                    next_id,
                )),
            },
    {
        let ghost s = views_of(records@);
        let n = records.len();
        for k in 0..n
            invariant
                n == records@.len(),
                s == views_of(records@),
                forall|i: int, j: int| 0 <= i < j < k ==> s[i].id < s[j].id,
                forall|i: int| 0 <= i < k ==> s[i].id < next_id,
        {
            assert(s[k as int] == records@[k as int]@);
            if records[k].id >= next_id {
                return None;
            }
            if k > 0 && records[k - 1].id >= records[k].id {
                assert(s[k - 1].id >= s[k as int].id);
                return None;
            }
            assert(k > 0 ==> s[k - 1].id < s[k as int].id);
            assert forall|i: int, j: int| 0 <= i < j < k + 1 implies s[i].id < s[j].id by {
                if j < k {
                } else if i < k - 1 {
                    assert(s[i].id < s[k - 1].id);
                }
            }
        }
        let r = Registry { next_id, store: records };
        assert(r.records() == s);
        Some(r)
    }

    /// The identifier the generator would assign next, without advancing
    /// the counter.
    pub fn peek_next_id(&self) -> (id: u64)
        ensures
            id == self.spec_next_id(),
    {
        self.next_id
    }

    /// Issue a fresh identifier: the current counter value, strictly
    /// greater than every id assigned before; the counter advances.
    pub fn generate_athlete_id(&mut self) -> (id: u64)
        requires
            old(self).wf(),
            old(self).spec_next_id() < u64::MAX,
        ensures
            final(self).wf(),
            id == old(self).spec_next_id(),
            final(self).spec_next_id() == id + 1,
            final(self).records() == old(self).records(),
    {
        let id = self.next_id;
        self.next_id = self.next_id + 1;
        id
    }

    /// The position of the record carrying `id`, if any.
    fn find_index(&self, id: u64) -> (res: Option<usize>)
        requires
            self.wf(),
        ensures
            match res {
                Some(k) => {
                    &&& k < self.records().len()
                    &&& self.records()[k as int].id == id
                    &&& has_id(self.records(), id)
                    &&& index_of(self.records(), id) == k as int
                },
                None => !has_id(self.records(), id),
            },
    {
        let n = self.store.len();
        let mut k: usize = 0;
        while k < n
            invariant
                self.wf(),
                n == self.store@.len(),
                k <= n,
                forall|i: int| 0 <= i < k ==> self.records()[i].id != id,
            decreases n - k,
        {
            if self.store[k].id == id {
                assert(self.records()[k as int].id == id);
                proof {
                    lemma_get_at_index(self.records(), k as int);
                }
                return Some(k);
            }
            assert(self.records()[k as int].id != id);
            k = k + 1;
        }
        None
    }

    /// The position before which `id` would have to be inserted to keep
    /// the store sorted: the first position holding an id at least `id`.
    fn find_pos(&self, id: u64) -> (pos: usize)
        requires
            self.wf(),
        ensures
            pos <= self.records().len(),
            forall|i: int| 0 <= i < pos ==> self.records()[i].id < id,
            forall|i: int| pos <= i < self.records().len() ==> self.records()[i].id >= id,
    {
        let n = self.store.len();
        let mut pos: usize = 0;
        while pos < n && self.store[pos].id < id
            invariant
                self.wf(),
                n == self.store@.len(),
                pos <= n,
                forall|i: int| 0 <= i < pos ==> self.records()[i].id < id,
            decreases n - pos,
        {
            assert(self.records()[pos as int].id < id);
            pos = pos + 1;
        }
        assert(pos < n ==> self.records()[pos as int].id >= id);
        assert forall|i: int| pos <= i < self.records().len() implies self.records()[i].id >= id by {
            if i > pos {
                assert(self.records()[pos as int].id < self.records()[i].id);
            }
        }
        pos
    }

    /// Insert or overwrite the record at its own id. The caller is
    /// responsible for handing in a record whose id was already issued by
    /// the identity generator.
    pub fn do_insert_athlete_performance(&mut self, athlete: &AthletePerformance)
        requires
            old(self).wf(),
            athlete@.id < old(self).spec_next_id(),
        ensures
            final(self).wf(),
            final(self).spec_next_id() == old(self).spec_next_id(),
            spec_get(final(self).records(), athlete@.id) == Some(athlete@),
            forall|id2: u64|
                id2 != athlete@.id ==> spec_get(final(self).records(), id2) == spec_get(
                    old(self).records(),
                    id2,
                ),
            has_id(old(self).records(), athlete@.id) ==> final(self).records() == old(
                self,
            ).records().update(index_of(old(self).records(), athlete@.id), athlete@),
            !has_id(old(self).records(), athlete@.id) ==> (exists|pos: int|
                {
                    &&& 0 <= pos <= old(self).records().len()
                    &&& (forall|i: int| 0 <= i < pos ==> old(self).records()[i].id < athlete@.id)
                    &&& (forall|i: int|
                        pos <= i < old(self).records().len() ==> old(self).records()[i].id
                            > athlete@.id)
                    &&& final(self).records() == old(self).records().insert(pos, athlete@)
                }),
    {
        let ghost s = self.records();
        let pos = self.find_pos(athlete.id);
        let copy = athlete.duplicate();
        if pos < self.store.len() && self.store[pos].id == athlete.id {
            proof {
                lemma_get_at_index(s, pos as int);
            }
            self.store.remove(pos);
            self.store.insert(pos, copy);
            proof {
                assert(self.records() =~= s.update(pos as int, athlete@));
                lemma_get_at_index(self.records(), pos as int);
                assert forall|id2: u64| id2 != athlete@.id implies spec_get(
                    self.records(),
                    id2,
                ) == spec_get(s, id2) by {
                    lemma_get_update(s, pos as int, athlete@, id2);
                }
            }
        } else {
            assert(pos < s.len() ==> s[pos as int].id > athlete@.id);
            assert forall|i: int| pos <= i < s.len() implies s[i].id > athlete@.id by {
                if i > pos {
                    assert(s[pos as int].id < s[i].id);
                }
            }
            assert(!has_id(s, athlete@.id));
            self.store.insert(pos, copy);
            proof {
                assert(self.records() =~= s.insert(pos as int, athlete@));
                lemma_get_insert(s, pos as int, athlete@, athlete@.id);
                assert(sorted_by_id(self.records()));
                lemma_get_at_index(self.records(), pos as int);
                assert forall|id2: u64| id2 != athlete@.id implies spec_get(
                    self.records(),
                    id2,
                ) == spec_get(s, id2) by {
                    lemma_get_insert(s, pos as int, athlete@, id2);
                }
            }
        }
    }

    /// Create a record: a fresh id strictly greater than every id issued
    /// before, the payload's fields copied verbatim (empty ones
    /// included), `created_at` set to `now`, `updated_at` absent. The new
    /// record lands at the end of the storage order, and a copy of it is
    /// returned. Creation always succeeds.
    pub fn add_athlete_performance(&mut self, athlete: AthleteUpdatePayload, now: u64) -> (res:
        AthletePerformance)
        requires
            old(self).wf(),
            old(self).spec_next_id() < u64::MAX,
        ensures
            final(self).wf(),
            res@ == make_record(old(self).spec_next_id(), athlete@, now),
            res@.updated_at is None,
            forall|i: int| 0 <= i < old(self).records().len() ==> old(self).records()[i].id < res@.id,
            !has_id(old(self).records(), res@.id),
            final(self).records() == old(self).records().push(res@),
            final(self).spec_next_id() == old(self).spec_next_id() + 1,
            spec_get(final(self).records(), res@.id) == Some(res@),
    {
        let ghost s = self.records();
        let id = self.generate_athlete_id();
        let athlete_performance = AthletePerformance {
            id,
            athlete_name: athlete.athlete_name,
            sport: athlete.sport,
            performance_metrics: athlete.performance_metrics,
            achievements: athlete.achievements,
            created_at: now,
            updated_at: None,
        };
        assert(athlete_performance@ == make_record(id, athlete@, now));
        self.do_insert_athlete_performance(&athlete_performance);
        proof {
            let r = athlete_performance@;
            assert(!has_id(s, r.id));
            let pos = choose|pos: int|
                {
                    &&& 0 <= pos <= s.len()
                    &&& (forall|i: int| 0 <= i < pos ==> s[i].id < r.id)
                    &&& (forall|i: int| pos <= i < s.len() ==> s[i].id > r.id)
                    &&& self.records() == s.insert(pos, r)
                };
            if pos < s.len() {
                assert(s[pos].id > r.id);
                assert(s[pos].id < old(self).spec_next_id());
            }
            assert(pos == s.len());
            assert(self.records() =~= s.push(r));
        }
        athlete_performance
    }

    /// Exact point lookup: a copy of the record at `id`, or `NotFound`
    /// when no record carries that id.
    pub fn get_athlete_performance(&self, id: u64) -> (res: Result<
        AthletePerformance,
        RegistryError,
    >)
        requires
            self.wf(),
        ensures
            match res {
                Ok(r) => has_id(self.records(), id) && spec_get(self.records(), id) == Some(r@),
                Err(e) => e == RegistryError::NotFound && !has_id(self.records(), id),
            },
    {
        match self.find_index(id) {
            Some(k) => Ok(self.store[k].duplicate()),
            None => Err(RegistryError::NotFound),
        }
    }

    /// All records, in storage order; each is a copy.
    pub fn get_all_athlete_performances(&self) -> (res: Vec<AthletePerformance>)
        ensures
            views_of(res@) == self.records(),
    {
        let n = self.store.len();
        let mut res: Vec<AthletePerformance> = Vec::new();
        for k in 0..n
            invariant
                n == self.store@.len(),
                views_of(res@) =~= self.records().take(k as int),
        {
            let copy = self.store[k].duplicate();
            assert(copy@ == self.records()[k as int]);
            let ghost pre = res@;
            res.push(copy);
            proof {
                assert(views_of(pre).len() == pre.len());
                assert(pre.len() == k);
                assert(res@ == pre.push(copy));
                assert forall|i: int| 0 <= i <= k implies views_of(res@)[i] == self.records().take(
                    k + 1,
                )[i] by {
                    if i < k {
                        assert(views_of(pre)[i] == self.records().take(k as int)[i]);
                        assert(res@[i] == pre[i]);
                    } else {
                        assert(res@[i] == copy);
                    }
                }
                assert(views_of(res@) =~= self.records().take(k + 1));
            }
        }
        assert(self.records().take(n as int) =~= self.records());
        res
    }

    /// Field-present partial update of the record at `id`: each text
    /// field is replaced only when the payload's field is non-empty, the
    /// achievements only when the payload's sequence is non-empty, so
    /// this operation cannot clear a field; `updated_at` is set to `now`
    /// even when every field was left unchanged. Fails with `NotFound`
    /// when no record carries the id.
    pub fn update_athlete_performance(
        &mut self,
        id: u64,
        payload: AthleteUpdatePayload,
        now: u64,
    ) -> (res: Result<AthletePerformance, RegistryError>)
        requires
            old(self).wf(),
        ensures
            final(self).wf(),
            final(self).spec_next_id() == old(self).spec_next_id(),
            match res {
                Ok(r) => {
                    &&& has_id(old(self).records(), id)
                    &&& r@ == apply_update(
                        old(self).records()[index_of(old(self).records(), id)],
                        payload@,
                        now,
                    )
                    &&& final(self).records() == old(self).records().update(
                        index_of(old(self).records(), id),
                        r@,
                    )
                    &&& spec_get(final(self).records(), id) == Some(r@)
                    &&& forall|id2: u64|
                        id2 != id ==> spec_get(final(self).records(), id2) == spec_get(
                            old(self).records(),
                            id2,
                        )
                },
                Err(e) => {
                    &&& e == RegistryError::NotFound
                    &&& !has_id(old(self).records(), id)
                    &&& final(self).records() == old(self).records()
                },
            },
    {
        let ghost s = self.records();
        let k = match self.find_index(id) {
            Some(k) => k,
            None => {
                return Err(RegistryError::NotFound);
            },
        };
        let current = self.store[k].duplicate();
        assert(current@ == s[k as int]);
        let updated = AthletePerformance {
            id: current.id,
            athlete_name: if payload.athlete_name.as_str().is_empty() {
                current.athlete_name
            } else {
                payload.athlete_name
            },
            sport: if payload.sport.as_str().is_empty() {
                current.sport
            } else {
                payload.sport
            },
            performance_metrics: if payload.performance_metrics.as_str().is_empty() {
                current.performance_metrics
            } else {
                payload.performance_metrics
            },
            achievements: if payload.achievements.is_empty() {
                current.achievements
            } else {
                payload.achievements
            },
            created_at: current.created_at,
            updated_at: Some(now),
        };
        assert(updated@ == apply_update(s[k as int], payload@, now));
        assert(updated@.id == id && updated@.id < self.spec_next_id());
        self.do_insert_athlete_performance(&updated);
        Ok(updated)
    }

    /// Unconditionally replace the achievements of the record at `id`,
    /// an empty sequence included — the one operation that can clear
    /// them; `updated_at` is set to `now`. Fails with `NotFound` when no
    /// record carries the id.
    pub fn update_athlete_achievements(
        &mut self,
        id: u64,
        new_achievements: Vec<String>,
        now: u64,
    ) -> (res: Result<AthletePerformance, RegistryError>)
        requires
            old(self).wf(),
        ensures
            final(self).wf(),
            final(self).spec_next_id() == old(self).spec_next_id(),
            match res {
                Ok(r) => {
                    &&& has_id(old(self).records(), id)
                    &&& r@ == apply_replace(
                        old(self).records()[index_of(old(self).records(), id)],
                        texts_of(new_achievements@),
                        now,
                    )
                    &&& final(self).records() == old(self).records().update(
                        index_of(old(self).records(), id),
                        r@,
                    )
                    &&& spec_get(final(self).records(), id) == Some(r@)
                    &&& forall|id2: u64|
                        id2 != id ==> spec_get(final(self).records(), id2) == spec_get(
                            old(self).records(),
                            id2,
                        )
                },
                Err(e) => {
                    &&& e == RegistryError::NotFound
                    &&& !has_id(old(self).records(), id)
                    &&& final(self).records() == old(self).records()
                },
            },
    {
        let ghost s = self.records();
        let k = match self.find_index(id) {
            Some(k) => k,
            None => {
                return Err(RegistryError::NotFound);
            },
        };
        let current = self.store[k].duplicate();
        assert(current@ == s[k as int]);
        let updated = AthletePerformance {
            id: current.id,
            athlete_name: current.athlete_name,
            sport: current.sport,
            performance_metrics: current.performance_metrics,
            achievements: new_achievements,
            created_at: current.created_at,
            updated_at: Some(now),
        };
        assert(updated@ == apply_replace(s[k as int], texts_of(updated.achievements@), now));
        assert(updated@.id == id && updated@.id < self.spec_next_id());
        self.do_insert_athlete_performance(&updated);
        Ok(updated)
    }

    /// Remove and return the record at `id`; its id is never reassigned,
    /// since the identity counter only advances. Fails with `NotFound`
    /// when no record carries the id — in particular on a second delete
    /// of the same id.
    pub fn delete_athlete_performance(&mut self, id: u64) -> (res: Result<
        AthletePerformance,
        RegistryError,
    >)
        requires
            old(self).wf(),
        ensures
            final(self).wf(),
            final(self).spec_next_id() == old(self).spec_next_id(),
            match res {
                Ok(r) => {
                    &&& has_id(old(self).records(), id)
                    &&& Some(r@) == spec_get(old(self).records(), id)
                    &&& final(self).records() == old(self).records().remove(
                        index_of(old(self).records(), id),
                    )
                    &&& !has_id(final(self).records(), id)
                    &&& forall|id2: u64|
                        id2 != id ==> spec_get(final(self).records(), id2) == spec_get(
                            old(self).records(),
                            id2,
                        )
                },
                Err(e) => {
                    &&& e == RegistryError::NotFound
                    &&& !has_id(old(self).records(), id)
                    &&& final(self).records() == old(self).records()
                },
            },
    {
        let ghost s = self.records();
        match self.find_index(id) {
            Some(k) => {
                let removed = self.store.remove(k);
                proof {
                    assert(removed@ == s[k as int]);
                    assert(self.records() =~= s.remove(k as int));
                    lemma_get_remove(s, k as int, id);
                    assert forall|id2: u64| id2 != id implies spec_get(
                        self.records(),
                        id2,
                    ) == spec_get(s, id2) by {
                        lemma_get_remove(s, k as int, id2);
                    }
                    assert forall|i: int|
                        0 <= i < self.records().len() implies self.records()[i].id < self.spec_next_id() by {
                        if i < k {
                            assert(self.records()[i] == s[i]);
                        } else {
                            assert(self.records()[i] == s[i + 1]);
                        }
                    }
                }
                Ok(removed)
            },
            None => Err(RegistryError::NotFound),
        }
    }

    /// All records whose name contains `name` as a substring
    /// (case-sensitive), in storage order; each is a copy.
    pub fn search_athlete_by_name(&self, name: String) -> (res: Vec<AthletePerformance>)
        ensures
            views_of(res@) == by_name(self.records(), name@),
    {
        let ghost s = self.records();
        let n = self.store.len();
        let mut res: Vec<AthletePerformance> = Vec::new();
        for k in 0..n
            invariant
                n == self.store@.len(),
                s == self.records(),
                views_of(res@) =~= by_name(s.take(k as int), name@),
        {
            let ghost pre = res@;
            let hit = str_contains(self.store[k].athlete_name.as_str(), name.as_str());
            assert(hit == matches_name(s[k as int], name@));
            if hit {
                let copy = self.store[k].duplicate();
                assert(copy@ == s[k as int]);
                res.push(copy);
            }
            proof {
                reveal_with_fuel(Seq::<_>::filter, 2);
                assert(s.take(k + 1).drop_last() =~= s.take(k as int));
                assert(s.take(k + 1).last() == s[k as int]);
                assert(by_name(s.take(k + 1), name@) == by_name(s.take(k as int), name@) + (
                if matches_name(s[k as int], name@) {
                    seq![s[k as int]]
                } else {
                    Seq::<RecordModel>::empty()
                }));
                if hit {
                    assert(views_of(pre).len() == pre.len());
                    assert(res@ == pre.push(res@[pre.len() as int]));
                    assert forall|i: int| 0 <= i < res@.len() implies views_of(res@)[i] == (
                    views_of(pre) + seq![s[k as int]])[i] by {
                        if i < pre.len() {
                            assert(res@[i] == pre[i]);
                        }
                    }
                    assert(views_of(res@) =~= views_of(pre) + seq![s[k as int]]);
                } else {
                    assert(views_of(res@) + Seq::<RecordModel>::empty() =~= views_of(res@));
                }
                assert(views_of(res@) =~= by_name(s.take(k + 1), name@));
            }
        }
        assert(s.take(n as int) =~= s);
        res
    }

    /// All records whose sport contains `sport` as a substring
    /// (case-sensitive), in storage order; each is a copy.
    pub fn search_athlete_by_sport(&self, sport: String) -> (res: Vec<AthletePerformance>)
        ensures
            views_of(res@) == by_sport(self.records(), sport@),
    {
        let ghost s = self.records();
        let n = self.store.len();
        let mut res: Vec<AthletePerformance> = Vec::new();
        for k in 0..n
            invariant
                n == self.store@.len(),
                s == self.records(),
                views_of(res@) =~= by_sport(s.take(k as int), sport@),
        {
            let ghost pre = res@;
            let hit = str_contains(self.store[k].sport.as_str(), sport.as_str());
            assert(hit == matches_sport(s[k as int], sport@));
            if hit {
                let copy = self.store[k].duplicate();
                assert(copy@ == s[k as int]);
                res.push(copy);
            }
            proof {
                reveal_with_fuel(Seq::<_>::filter, 2);
                assert(s.take(k + 1).drop_last() =~= s.take(k as int));
                assert(s.take(k + 1).last() == s[k as int]);
                assert(by_sport(s.take(k + 1), sport@) == by_sport(s.take(k as int), sport@) + (
                if matches_sport(s[k as int], sport@) {
                    seq![s[k as int]]
                } else {
                    Seq::<RecordModel>::empty()
                }));
                if hit {
                    assert(views_of(pre).len() == pre.len());
                    assert(res@ == pre.push(res@[pre.len() as int]));
                    assert forall|i: int| 0 <= i < res@.len() implies views_of(res@)[i] == (
                    views_of(pre) + seq![s[k as int]])[i] by {
                        if i < pre.len() {
                            assert(res@[i] == pre[i]);
                        }
                    }
                    assert(views_of(res@) =~= views_of(pre) + seq![s[k as int]]);
                } else {
                    assert(views_of(res@) + Seq::<RecordModel>::empty() =~= views_of(res@));
                }
                assert(views_of(res@) =~= by_sport(s.take(k + 1), sport@));
            }
        }
        assert(s.take(n as int) =~= s);
        res
    }

    /// All records holding an achievement exactly equal to `achievement`
    /// (exact match, not substring), in storage order; each is a copy.
    pub fn search_athlete_by_achievements(&self, achievement: String) -> (res: Vec<
        AthletePerformance,
    >)
        ensures
            views_of(res@) == by_achievement(self.records(), achievement@),
    {
        let ghost s = self.records();
        let n = self.store.len();
        let mut res: Vec<AthletePerformance> = Vec::new();
        for k in 0..n
            invariant
                n == self.store@.len(),
                s == self.records(),
                views_of(res@) =~= by_achievement(s.take(k as int), achievement@),
        {
            let ghost pre = res@;
            let hit = vec_contains_string(&self.store[k].achievements, &achievement);
            assert(hit == has_achievement(s[k as int], achievement@));
            if hit {
                let copy = self.store[k].duplicate();
                assert(copy@ == s[k as int]);
                res.push(copy);
            }
            proof {
                reveal_with_fuel(Seq::<_>::filter, 2);
                assert(s.take(k + 1).drop_last() =~= s.take(k as int));
                assert(s.take(k + 1).last() == s[k as int]);
                assert(by_achievement(s.take(k + 1), achievement@) == by_achievement(
                    s.take(k as int),
                    achievement@,
                ) + (if has_achievement(s[k as int], achievement@) {
                    seq![s[k as int]]
                } else {
                    Seq::<RecordModel>::empty()
                }));
                if hit {
                    assert(views_of(pre).len() == pre.len());
                    assert(res@ == pre.push(res@[pre.len() as int]));
                    assert forall|i: int| 0 <= i < res@.len() implies views_of(res@)[i] == (
                    views_of(pre) + seq![s[k as int]])[i] by {
                        if i < pre.len() {
                            assert(res@[i] == pre[i]);
                        }
                    }
                    assert(views_of(res@) =~= views_of(pre) + seq![s[k as int]]);
                } else {
                    assert(views_of(res@) + Seq::<RecordModel>::empty() =~= views_of(res@));
                }
                assert(views_of(res@) =~= by_achievement(s.take(k + 1), achievement@));
            }
        }
        assert(s.take(n as int) =~= s);
        res
    }

    /// All records whose `updated_at` is present and strictly within the
    /// recency window before `now`, in storage order; each is a copy.
    /// Records never updated are excluded regardless of their creation
    /// time.
    pub fn get_recently_updated_athletes(&self, now: u64) -> (res: Vec<AthletePerformance>)
        ensures
            views_of(res@) == recently_updated(self.records(), now),
    {
        let ghost s = self.records();
        let n = self.store.len();
        let mut res: Vec<AthletePerformance> = Vec::new();
        for k in 0..n
            invariant
                n == self.store@.len(),
                s == self.records(),
                views_of(res@) =~= recently_updated(s.take(k as int), now),
        {
            let ghost pre = res@;
            let hit = is_recent_exec(&self.store[k], now);
            assert(hit == is_recent(s[k as int], now));
            if hit {
                let copy = self.store[k].duplicate();
                assert(copy@ == s[k as int]);
                res.push(copy);
            }
            proof {
                reveal_with_fuel(Seq::<_>::filter, 2);
                assert(s.take(k + 1).drop_last() =~= s.take(k as int));
                assert(s.take(k + 1).last() == s[k as int]);
                assert(recently_updated(s.take(k + 1), now) == recently_updated(
                    s.take(k as int),
                    now,
                ) + (if is_recent(s[k as int], now) {
                    seq![s[k as int]]
                } else {
                    Seq::<RecordModel>::empty()
                }));
                if hit {
                    assert(views_of(pre).len() == pre.len());
                    assert(res@ == pre.push(res@[pre.len() as int]));
                    assert forall|i: int| 0 <= i < res@.len() implies views_of(res@)[i] == (
                    views_of(pre) + seq![s[k as int]])[i] by {
                        if i < pre.len() {
                            assert(res@[i] == pre[i]);
                        }
                    }
                    assert(views_of(res@) =~= views_of(pre) + seq![s[k as int]]);
                } else {
                    assert(views_of(res@) + Seq::<RecordModel>::empty() =~= views_of(res@));
                }
                assert(views_of(res@) =~= recently_updated(s.take(k + 1), now));
            }
        }
        assert(s.take(n as int) =~= s);
        res
    }

    /// The number of records currently stored, possibly zero.
    pub fn count(&self) -> (n: u64)
        ensures
            n == self.records().len(),
    {
        let n = self.store.len() as u64;
        assert(self.records().len() == self.store@.len());
        n
    }

    /// The number of records, where an empty store is surfaced as the
    /// explicit `EmptyStore` condition rather than a zero count.
    pub fn get_athlete_count(&self) -> (res: Result<u64, RegistryError>)
        ensures
            self.records().len() == 0 ==> res == Err::<u64, RegistryError>(
                RegistryError::EmptyStore,
            ),
            self.records().len() > 0 ==> res == Ok::<u64, RegistryError>(
                self.records().len() as u64,
            ),
    {
        let count = self.store.len() as u64;
        if count > 0 {
            Ok(count)
        } else {
            Err(RegistryError::EmptyStore)
        }
    }
}


} // verus!
