//! The read filter: optional exclusive `after`/`before` bounds, parsed and
//! validated from the raw query string of a read request.
//!
//! Recognized keys are `after` and `before`; other keys are ignored. When a
//! key repeats, the last occurrence wins, as collecting pairs into a map
//! would have it. A present value must be a decimal integer timestamp
//! (see [`crate::text::is_timestamp_text`]); anything else fails the whole
//! parse with a [`ValidationError`] naming the key.

use vstd::prelude::*;
use crate::errors::ValidationError;
use crate::text::is_timestamp_text;
use crate::text::parse_timestamp;
use crate::text::str_eq;
use crate::text::timestamp_val;

verus! {

/// An optional time window over message timestamps; both bounds are
/// exclusive and independently optional. No ordering between them is
/// enforced: an empty window is an empty result, not an error.
#[derive(Debug)]
pub struct TimeRange {
    pub after: Option<i64>,
    pub before: Option<i64>,
}

impl TimeRange {
    /// Whether a timestamp falls inside the window.
    pub open spec fn admits(self, t: i64) -> bool {
        &&& (match self.after {
            Some(a) => t > a,
            None => true,
        })
        &&& (match self.before {
            Some(b) => t < b,
            None => true,
        })
    }

    /// The range with both bounds absent.
    pub fn unbounded() -> (r: TimeRange)
        ensures
            r.after is None,
            r.before is None,
    {
        TimeRange { after: None, before: None }
    }

    /// Runtime test of [`TimeRange::admits`].
    pub fn admits_at(&self, t: i64) -> (r: bool)
        ensures
            r == self.admits(t),
    {
        let after_ok = match self.after {
            Some(a) => t > a,
            None => true,
        };
        let before_ok = match self.before {
            Some(b) => t < b,
            None => true,
        };
        after_ok && before_ok
    }
}

/// The decoded `(name, value)` pairs of a query string, as
/// `url::form_urlencoded` reads it.
pub uninterp spec fn query_pairs_spec(q: Seq<char>) -> Seq<(Seq<char>, Seq<char>)>;

/// The views of a vector of owned pairs.
pub open spec fn pair_views(ps: Seq<(String, String)>) -> Seq<(Seq<char>, Seq<char>)> {
    ps.map_values(|p: (String, String)| (p.0@, p.1@))
}

/// Relies on `url::form_urlencoded::parse` (then `into_owned`): splits the
/// query on `&` and `=` and percent-decodes each name and value; the pairs
/// depend on the query text alone.
#[verifier::external_body]
fn decode_query_pairs(q: &str) -> (pairs: Vec<(String, String)>)
    ensures
        pair_views(pairs@) == query_pairs_spec(q@),
{
    url::form_urlencoded::parse(q.as_bytes()).into_owned().collect()
}

/// The value of the last pair named `key`, if any.
pub open spec fn last_value(ps: Seq<(Seq<char>, Seq<char>)>, key: Seq<char>) -> Option<Seq<char>>
    decreases ps.len(),
{
    if ps.len() == 0 {
        None
    } else if ps.last().0 == key {
        Some(ps.last().1)
    } else {
        last_value(ps.drop_last(), key)
    }
}

/// Whether the bound named `key` is either absent or a well-formed
/// timestamp text.
pub open spec fn bound_ok(ps: Seq<(Seq<char>, Seq<char>)>, key: Seq<char>) -> bool {
    match last_value(ps, key) {
        None => true,
        Some(v) => is_timestamp_text(v),
    }
}

/// The parsed bound named `key`, absent when the key is.
pub open spec fn bound_val(ps: Seq<(Seq<char>, Seq<char>)>, key: Seq<char>) -> Option<i64> {
    match last_value(ps, key) {
        None => None,
        Some(v) => Some(timestamp_val(v) as i64),
    }
}

/// The outcome that a pair list owes: used by both the pair-level parser
/// and the query-level one.
pub open spec fn time_range_outcome(
    ps: Seq<(Seq<char>, Seq<char>)>,
    r: Result<TimeRange, ValidationError>,
) -> bool {
    match r {
        Ok(tr) => {
            &&& bound_ok(ps, "after"@)
            &&& bound_ok(ps, "before"@)
            &&& tr.after == bound_val(ps, "after"@)
            &&& tr.before == bound_val(ps, "before"@)
        },
        Err(e) => {
            &&& !(bound_ok(ps, "after"@) && bound_ok(ps, "before"@))
            &&& e.key@ == (if !bound_ok(ps, "after"@) {
                "after"@
            } else {
                "before"@
            })
            &&& !bound_ok(ps, e.key@)
            &&& e.reason@ == "not a valid integer timestamp"@
        },
    }
}

/// The last value paired with `key`, cloned out of the vector.
fn find_last(pairs: &Vec<(String, String)>, key: &str) -> (r: Option<String>)
    ensures
        match r {
            Some(v) => last_value(pair_views(pairs@), key@) == Some(v@),
            None => last_value(pair_views(pairs@), key@) is None,
        },
{
    let ghost full = pair_views(pairs@);
    let mut i: usize = pairs.len();
    proof {
        assert(full.take(i as int) =~= full);
    }
    while i > 0
        invariant
            i <= pairs.len(),
            full == pair_views(pairs@),
            last_value(full, key@) == last_value(full.take(i as int), key@),
        decreases i,
    {
        let j = i - 1;
        proof {
            assert(full[j as int] == (pairs@[j as int].0@, pairs@[j as int].1@));
            assert(full.take(i as int).last() == full[j as int]);
            assert(full.take(i as int).drop_last() =~= full.take(j as int));
        }
        if str_eq(pairs[j].0.as_str(), key) {
            return Some(pairs[j].1.clone());
        }
        i = j;
    }
    None
}

/// Build a [`TimeRange`] from decoded query pairs; the exact outcome is
/// [`time_range_outcome`].
pub fn time_range_of_pairs(pairs: &Vec<(String, String)>) -> (r: Result<
    TimeRange,
    ValidationError,
>)
    ensures
        time_range_outcome(pair_views(pairs@), r),
{
    let after = match find_last(pairs, "after") {
        None => None,
        Some(v) => match parse_timestamp(v.as_str()) {
            Some(t) => Some(t),
            None => {
                return Err(
                    ValidationError {
                        key: "after".to_owned(),
                        reason: "not a valid integer timestamp".to_owned(),
                    },
                );
            },
        },
    };
    let before = match find_last(pairs, "before") {
        None => None,
        Some(v) => match parse_timestamp(v.as_str()) {
            Some(t) => Some(t),
            None => {
                return Err(
                    ValidationError {
                        key: "before".to_owned(),
                        reason: "not a valid integer timestamp".to_owned(),
                    },
                );
            },
        },
    };
    Ok(TimeRange { after, before })
}

/// A query whose last `after` value is not a timestamp text can only
/// parse to a client error naming the `after` key.
pub proof fn lemma_bad_after_names_the_key(
    ps: Seq<(Seq<char>, Seq<char>)>,
    r: Result<TimeRange, ValidationError>,
)
    requires
        time_range_outcome(ps, r),
        last_value(ps, "after"@) matches Some(v) && !is_timestamp_text(v),
    ensures
        r matches Err(e) && e.key@ == "after"@,
{
}

/// Parse the raw query string of a read request; the exact outcome is
/// [`time_range_outcome`] over the pairs the query decodes to.
pub fn parse_query(q: &str) -> (r: Result<TimeRange, ValidationError>)
    ensures
        time_range_outcome(query_pairs_spec(q@), r),
{
    let pairs = decode_query_pairs(q);
    time_range_of_pairs(&pairs)
}

} // verus!
