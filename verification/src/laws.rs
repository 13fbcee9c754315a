//! Laws relating the registry's operations, stated and proved over the
//! mathematical model that the operations' contracts use.

use vstd::prelude::*;

use crate::record::PayloadModel;
use crate::record::RecordModel;
use crate::record::SEVEN_DAYS;
use crate::record::apply_replace;
use crate::record::apply_update;
use crate::record::is_recent;
use crate::record::make_record;
use crate::record::matches_name;
use crate::registry::bounded_by;
use crate::registry::by_name;
use crate::registry::has_id;
use crate::registry::index_of;
use crate::registry::lemma_get_at_index;
use crate::registry::lemma_get_remove;
use crate::registry::sorted_by_id;
use crate::registry::spec_get;

verus! {

/// A record built with a fresh id (one that bounds every id in the store)
/// carries an id strictly greater than every stored id, and no stored
/// record already carries it: assigned ids are unique and monotone.
pub proof fn lemma_fresh_id_unique(s: Seq<RecordModel>, next: u64, p: PayloadModel, now: u64)
    requires
        bounded_by(s, next),
    ensures
        forall|i: int| 0 <= i < s.len() ==> s[i].id < make_record(next, p, now).id,
        !has_id(s, next),
{
}

/// Creating a record and then looking its id up returns exactly the
/// created record, whose `updated_at` is absent.
pub proof fn lemma_create_then_get(s: Seq<RecordModel>, next: u64, p: PayloadModel, now: u64)
    requires
        sorted_by_id(s),
        bounded_by(s, next),
    ensures
        spec_get(s.push(make_record(next, p, now)), next) == Some(make_record(next, p, now)),
        make_record(next, p, now).updated_at is None,
{
    let r = make_record(next, p, now);
    let s2 = s.push(r);
    assert(forall|i: int| 0 <= i < s.len() ==> s2[i] == s[i]);
    assert(s2[s.len() as int] == r);
    lemma_get_at_index(s2, s.len() as int);
}

/// An update whose payload fields are all empty still stamps
/// `updated_at` with the update time, and leaves every other field of
/// the record unchanged.
pub proof fn lemma_update_all_empty(r: RecordModel, p: PayloadModel, now: u64)
    requires
        p.athlete_name.len() == 0,
        p.sport.len() == 0,
        p.performance_metrics.len() == 0,
        p.achievements.len() == 0,
    ensures
        apply_update(r, p, now) == (RecordModel {
            updated_at: Some(now),
            ..r
        }),
{
}

/// An update whose payload carries only a non-empty name changes the
/// name alone; every other field except `updated_at` is untouched.
pub proof fn lemma_update_name_only(r: RecordModel, p: PayloadModel, now: u64)
    requires
        p.athlete_name.len() > 0,
        p.sport.len() == 0,
        p.performance_metrics.len() == 0,
        p.achievements.len() == 0,
    ensures
        apply_update(r, p, now) == (RecordModel {
            athlete_name: p.athlete_name,
            updated_at: Some(now),
            ..r
        }),
{
}

/// Replacement with an empty sequence clears the achievements, while an
/// update whose payload holds an empty achievements sequence leaves them
/// as they were: replacement is the one operation that can clear them.
pub proof fn lemma_replace_clears_update_does_not(r: RecordModel, p: PayloadModel, now: u64)
    requires
        p.achievements.len() == 0,
    ensures
        apply_replace(r, Seq::<Seq<char>>::empty(), now).achievements == Seq::<Seq<char>>::empty(),
        apply_update(r, p, now).achievements == r.achievements,
{
}

/// After removing the record at `id`, no record carries that id any
/// more: a lookup fails, and so would a second removal.
pub proof fn lemma_delete_then_get(s: Seq<RecordModel>, id: u64)
    requires
        sorted_by_id(s),
        has_id(s, id),
    ensures
        !has_id(s.remove(index_of(s, id)), id),
        spec_get(s.remove(index_of(s, id)), id) is None,
{
    let k = index_of(s, id);
    assert(0 <= k < s.len() && s[k].id == id);
    lemma_get_remove(s, k, id);
}

/// The name search returns records in which the query occurs, it returns
/// every stored record in which the query occurs, and it returns only
/// stored records: it returns exactly the matching records.
pub proof fn lemma_search_by_name_exact(s: Seq<RecordModel>, q: Seq<char>)
    ensures
        forall|i: int|
            0 <= i < by_name(s, q).len() ==> matches_name(#[trigger] by_name(s, q)[i], q),
        forall|i: int|
            0 <= i < s.len() && matches_name(s[i], q) ==> by_name(s, q).contains(#[trigger] s[i]),
        forall|i: int| 0 <= i < by_name(s, q).len() ==> s.contains(#[trigger] by_name(s, q)[i]),
    decreases s.len(),
{
    broadcast use vstd::seq_lib::group_filter_ensures;

    if s.len() == 0 {
        assert(by_name(s, q) =~= Seq::<RecordModel>::empty());
    } else {
        lemma_search_by_name_exact(s.drop_last(), q);
        reveal_with_fuel(Seq::<_>::filter, 2);
        let rest = by_name(s.drop_last(), q);
        assert(by_name(s, q) == rest + (if matches_name(s.last(), q) {
            seq![s.last()]
        } else {
            Seq::<RecordModel>::empty()
        }));
        assert forall|i: int| 0 <= i < by_name(s, q).len() implies s.contains(
            #[trigger] by_name(s, q)[i],
        ) by {
            if i < rest.len() {
                assert(by_name(s, q)[i] == rest[i]);
                assert(s.drop_last().contains(rest[i]));
                let j = choose|j: int| 0 <= j < s.drop_last().len() && s.drop_last()[j] == rest[i];
                assert(s[j] == rest[i]);
            } else {
                assert(by_name(s, q)[i] == s.last());
                assert(s[s.len() - 1] == s.last());
            }
        }
    }
}

/// With a monotone clock, neither a partial update nor an achievement
/// replacement ever moves `updated_at` backwards: once set, the stamp is
/// non-decreasing across successive mutations.
pub proof fn lemma_updated_at_monotone(r: RecordModel, p: PayloadModel, a: Seq<Seq<char>>, now: u64)
    requires
        match r.updated_at {
            Some(u) => u <= now,
            None => true,
        },
    ensures
        apply_update(r, p, now).updated_at == Some(now),
        apply_replace(r, a, now).updated_at == Some(now),
        match (r.updated_at, apply_update(r, p, now).updated_at) {
            (Some(u0), Some(u1)) => u0 <= u1,
            _ => true,
        },
{
}

/// The recency window is strict at both ends: a record stamped exactly
/// one unit before the window's lower edge is excluded, one stamped one
/// unit before `now` is included.
pub proof fn lemma_recency_window(r: RecordModel, now: u64)
    ensures
        now > SEVEN_DAYS && r.updated_at == Some((now - SEVEN_DAYS - 1) as u64) ==> !is_recent(
            r,
            now,
        ),
        now >= 1 && r.updated_at == Some((now - 1) as u64) ==> is_recent(r, now),
{
}

} // verus!
