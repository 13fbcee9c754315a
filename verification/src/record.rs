//! The record and payload types, their mathematical views, and the
//! per-record semantics of creation, partial update and achievement
//! replacement.

use vstd::prelude::*;

verus! {

/// The number of time units (the clock's own unit) in the recency window.
pub const SEVEN_DAYS: u64 = 604800;

/// Mathematical view of a stored record.
pub ghost struct RecordModel {
    pub id: u64,
    pub athlete_name: Seq<char>,
    pub sport: Seq<char>,
    pub performance_metrics: Seq<char>,
    pub achievements: Seq<Seq<char>>,
    pub created_at: u64,
    pub updated_at: Option<u64>,
}

/// Mathematical view of a creation/update payload.
pub ghost struct PayloadModel {
    pub athlete_name: Seq<char>,
    pub sport: Seq<char>,
    pub performance_metrics: Seq<char>,
    pub achievements: Seq<Seq<char>>,
}

/// The views of a sequence of strings, element by element.
pub open spec fn texts_of(s: Seq<String>) -> Seq<Seq<char>> {
    s.map_values(|t: String| t@)
}

/// A single athlete-performance record, keyed by its unique `id`.
#[derive(Debug)]
pub struct AthletePerformance {
    pub id: u64,
    pub athlete_name: String,
    pub sport: String,
    pub performance_metrics: String,
    pub achievements: Vec<String>,
    pub created_at: u64,
    pub updated_at: Option<u64>,
}

/// The fields a caller supplies on creation or partial update.
#[derive(Debug)]
pub struct AthleteUpdatePayload {
    pub athlete_name: String,
    pub sport: String,
    pub performance_metrics: String,
    pub achievements: Vec<String>,
}

impl View for AthletePerformance {
    type V = RecordModel;

    open spec fn view(&self) -> RecordModel {
        RecordModel {
            id: self.id,
            athlete_name: self.athlete_name@,
            sport: self.sport@,
            performance_metrics: self.performance_metrics@,
            achievements: texts_of(self.achievements@),
            created_at: self.created_at,
            updated_at: self.updated_at,
        }
    }
}

impl View for AthleteUpdatePayload {
    type V = PayloadModel;

    open spec fn view(&self) -> PayloadModel {
        PayloadModel {
            athlete_name: self.athlete_name@,
            sport: self.sport@,
            performance_metrics: self.performance_metrics@,
            achievements: texts_of(self.achievements@),
        }
    }
}

/// The errors an operation can surface: an id that addresses no record,
/// or a count requested against a store that holds no records.
#[derive(PartialEq, Eq, Structural, Clone, Copy, Debug)]
pub enum RegistryError {
    NotFound,
    EmptyStore,
}

/// The record that creation builds: payload fields copied verbatim,
/// `created_at` set to the creation time, `updated_at` absent.
pub open spec fn make_record(id: u64, p: PayloadModel, now: u64) -> RecordModel {
    RecordModel {
        id: id,
        athlete_name: p.athlete_name,
        sport: p.sport,
        performance_metrics: p.performance_metrics,
        achievements: p.achievements,
        created_at: now,
        updated_at: None,
    }
}

/// Field-present partial update: each text field is replaced only when the
/// payload's field is non-empty, the achievements only when the payload's
/// sequence is non-empty; `updated_at` is always set to `now`.
pub open spec fn apply_update(r: RecordModel, p: PayloadModel, now: u64) -> RecordModel {
    RecordModel {
        id: r.id,
        athlete_name: if p.athlete_name.len() > 0 {
            p.athlete_name
        } else {
            r.athlete_name
        },
        sport: if p.sport.len() > 0 {
            p.sport
        } else {
            r.sport
        },
        performance_metrics: if p.performance_metrics.len() > 0 {
            p.performance_metrics
        } else {
            r.performance_metrics
        },
        achievements: if p.achievements.len() > 0 {
            p.achievements
        } else {
            r.achievements
        },
        created_at: r.created_at,
        updated_at: Some(now),
    }
}

/// Unconditional achievement replacement: the new sequence is taken even
/// when empty; `updated_at` is set to `now`.
pub open spec fn apply_replace(r: RecordModel, a: Seq<Seq<char>>, now: u64) -> RecordModel {
    RecordModel {
        id: r.id,
        athlete_name: r.athlete_name,
        sport: r.sport,
        performance_metrics: r.performance_metrics,
        achievements: a,
        created_at: r.created_at,
        updated_at: Some(now),
    }
}

/// `needle` occurs in `hay` as a contiguous subsequence.
pub open spec fn contains_sub(hay: Seq<char>, needle: Seq<char>) -> bool {
    exists|i: int|
        0 <= i && i + needle.len() <= hay.len() && #[trigger] hay.subrange(i, i + needle.len())
            == needle
}

/// The record's name contains `q` as a substring (case-sensitive).
pub open spec fn matches_name(r: RecordModel, q: Seq<char>) -> bool {
    contains_sub(r.athlete_name, q)
}

/// The record's sport contains `q` as a substring (case-sensitive).
pub open spec fn matches_sport(r: RecordModel, q: Seq<char>) -> bool {
    contains_sub(r.sport, q)
}

/// The record's achievements hold an entry exactly equal to `a`.
pub open spec fn has_achievement(r: RecordModel, a: Seq<char>) -> bool {
    r.achievements.contains(a)
}

/// The record was updated at some point strictly within the recency
/// window: `updated_at` is present and greater than `now - SEVEN_DAYS`.
pub open spec fn is_recent(r: RecordModel, now: u64) -> bool {
    match r.updated_at {
        Some(u) => u + SEVEN_DAYS > now,
        None => false,
    }
}

/// Relies on `str::contains`: returns true exactly when the pattern
/// matches a sub-slice of the string.
#[verifier::external_body]
pub(crate) fn str_contains(hay: &str, needle: &str) -> (r: bool)
    ensures
        r == contains_sub(hay@, needle@),
{
    hay.contains(needle)
}

/// Clone a vector of strings, preserving its view.
pub(crate) fn clone_strings(v: &Vec<String>) -> (r: Vec<String>)
    ensures
        texts_of(r@) == texts_of(v@),
{
    let r = v.clone();
    assert(texts_of(r@) =~= texts_of(v@));
    r
}

impl AthletePerformance {
    /// An exact copy of the record; the registry hands out copies, never
    /// references into the store.
    pub fn duplicate(&self) -> (r: AthletePerformance)
        ensures
            r@ == self@,
    {
        let r = AthletePerformance {
            id: self.id,
            athlete_name: self.athlete_name.clone(),
            sport: self.sport.clone(),
            performance_metrics: self.performance_metrics.clone(),
            achievements: clone_strings(&self.achievements),
            created_at: self.created_at,
            updated_at: self.updated_at,
        };
        assert(r@ == self@);
        r
    }
}

} // verus!
