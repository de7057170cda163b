use vstd::prelude::*;

verus! {

/// Which upstream numbering a diff stream follows.
///
/// `OffsetZero` is the futures-style protocol: the event that straddles a
/// snapshot covers the snapshot's own id. `OffsetPlusOne` is the spot-style
/// protocol: it covers the id right after the snapshot's.
#[derive(Clone, Copy, Debug, PartialEq, Eq, Structural)]
pub enum MatchRule {
    OffsetZero,
    OffsetPlusOne,
}

/// Where a diff event stands relative to a reference sequence id.
#[derive(Clone, Copy, Debug, PartialEq, Eq, Structural)]
pub enum Classification {
    /// Wholly before the match point: discard it.
    Stale,
    /// Covers the match point: it is the first event to apply.
    Match,
    /// Starts after the match point: the reference cannot be reconciled.
    Ahead,
}

/// The additive offset a rule applies to the reference id.
pub open spec fn offset(rule: MatchRule) -> int {
    match rule {
        MatchRule::OffsetZero => 0,
        MatchRule::OffsetPlusOne => 1,
    }
}

/// The id an event must cover to follow on from reference id `reference`.
pub open spec fn match_point(reference: int, rule: MatchRule) -> int {
    reference + offset(rule)
}

/// Three-way classification of the range `[first, last]` against the match
/// point of `reference`.
pub open spec fn classify_spec(first: int, last: int, reference: int, rule: MatchRule) -> Classification {
    let mp = match_point(reference, rule);
    if last < mp {
        Classification::Stale
    } else if first <= mp {
        Classification::Match
    } else {
        Classification::Ahead
    }
}

/// Classifies the range `[first, last]` of a diff event against `reference`.
pub fn classify(first: i64, last: i64, reference: i64, rule: MatchRule) -> (r: Classification)
    ensures
        r == classify_spec(first as int, last as int, reference as int, rule),
{
    let mp: i128 = match rule {
        MatchRule::OffsetZero => reference as i128,
        MatchRule::OffsetPlusOne => reference as i128 + 1,
    };
    if (last as i128) < mp {
        Classification::Stale
    } else if first as i128 <= mp {
        Classification::Match
    } else {
        Classification::Ahead
    }
}

/// Whether an event with first id `first` and previous-last id `prev` follows
/// directly on a book at id `current`.
///
/// The futures-style protocol chains events by the previous event's last id;
/// the spot-style protocol expects the first id right after the book's.
pub open spec fn continues_spec(first: int, prev: Option<i64>, current: int, rule: MatchRule) -> bool {
    match rule {
        MatchRule::OffsetZero => prev matches Some(p) && p as int == current,
        MatchRule::OffsetPlusOne => first == current + 1,
    }
}

/// Checks that an event follows directly on a book at id `current`.
pub fn continues(first: i64, prev: Option<i64>, current: i64, rule: MatchRule) -> (r: bool)
    ensures
        r == continues_spec(first as int, prev, current as int, rule),
{
    match rule {
        MatchRule::OffsetZero => match prev {
            Some(p) => p == current,
            None => false,
        },
        MatchRule::OffsetPlusOne => first as i128 == current as i128 + 1,
    }
}

/// Classification is total and exclusive: for any range and reference exactly
/// one of stale, match and ahead holds, each by its comparison with the match
/// point.
pub proof fn lemma_classify_partition(first: int, last: int, reference: int, rule: MatchRule)
    ensures
        ({
            let mp = match_point(reference, rule);
            let c = classify_spec(first, last, reference, rule);
            &&& (c == Classification::Stale) == (last < mp)
            &&& (c == Classification::Match) == (first <= mp && mp <= last)
            &&& (c == Classification::Ahead) == (mp < first && mp <= last)
            &&& (last < mp) || (first <= mp && mp <= last) || (mp < first && mp <= last)
        }),
{
}

/// The two rules differ only by the offset added to the reference: the
/// spot-style rule classifies against `reference` as the futures-style rule
/// does against `reference + 1`.
pub proof fn lemma_rules_differ_by_offset(first: int, last: int, reference: int)
    ensures
        classify_spec(first, last, reference, MatchRule::OffsetPlusOne) == classify_spec(
            first,
            last,
            reference + 1,
            MatchRule::OffsetZero,
        ),
{
}

} // verus!
