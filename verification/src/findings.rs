//! Findings: one fired rule instance per (identity, event-kind) group,
//! and the deduplication key that collapses repeats of the same condition.

use vstd::prelude::*;

use crate::detector::Severity;

verus! {

/// One fired rule instance for one (identity, event-kind) group.
///
/// `last_seen` is the group's most recent timestamp in seconds since the
/// Unix epoch; it anchors the window and dates the alert. `source` names
/// the originating log family and never enters threshold math.
#[derive(Debug)]
pub struct Finding {
    pub source: String,
    pub rule: String,
    pub severity: Severity,
    pub identity: String,
    pub event: String,
    pub count: u32,
    pub window_minutes: i64,
    pub last_seen: i64,
}

/// The mathematical shape of a [`Finding`].
#[verifier::ext_equal]
pub ghost struct FindingModel {
    pub source: Seq<char>,
    pub rule: Seq<char>,
    pub severity: Severity,
    pub identity: Seq<char>,
    pub event: Seq<char>,
    pub count: int,
    pub window_minutes: int,
    pub last_seen: int,
}

impl View for Finding {
    type V = FindingModel;

    open spec fn view(&self) -> FindingModel {
        FindingModel {
            source: self.source@,
            rule: self.rule@,
            severity: self.severity,
            identity: self.identity@,
            event: self.event@,
            count: self.count as int,
            window_minutes: self.window_minutes as int,
            last_seen: self.last_seen as int,
        }
    }
}

impl Clone for Finding {
    fn clone(&self) -> (r: Self)
        ensures
            r == *self,
    {
        Finding {
            source: self.source.clone(),
            rule: self.rule.clone(),
            severity: self.severity,
            identity: self.identity.clone(),
            event: self.event.clone(),
            count: self.count,
            window_minutes: self.window_minutes,
            last_seen: self.last_seen,
        }
    }
}

/// The views of a sequence of owned findings.
pub open spec fn finding_views(s: Seq<Finding>) -> Seq<FindingModel> {
    s.map_values(|f: Finding| f@)
}

/// The deduplication key `<rule>|<identity>|<event-kind>`.
pub open spec fn spec_dedup_key(rule: Seq<char>, identity: Seq<char>, event: Seq<char>) -> Seq<
    char,
> {
    rule + seq!['|'] + identity + seq!['|'] + event
}

impl Finding {
    /// The deduplication key `<rule>|<identity>|<event-kind>`. Severity,
    /// count and timestamps are deliberately left out, so repeated bursts
    /// of the same condition collapse to one alert however their
    /// magnitudes differ.
    pub fn dedup_key(&self) -> (r: String)
        ensures
            r@ == spec_dedup_key(self.rule@, self.identity@, self.event@),
    {
        let mut k = self.rule.clone();
        k.append("|");
        k.append(self.identity.as_str());
        k.append("|");
        k.append(self.event.as_str());
        proof {
            reveal_strlit("|");
            assert(("|")@ =~= seq!['|']);
            assert(k@ =~= spec_dedup_key(self.rule@, self.identity@, self.event@));
        }
        k
    }
}

/// Two findings that agree on rule, identity and event-kind share one
/// deduplication key, whatever their severities, counts or timestamps:
/// the key is a function of that triple alone.
pub proof fn lemma_dedup_key_ignores_magnitude(a: FindingModel, b: FindingModel)
    requires
        a.rule == b.rule,
        a.identity == b.identity,
        a.event == b.event,
    ensures
        spec_dedup_key(a.rule, a.identity, a.event) == spec_dedup_key(b.rule, b.identity, b.event),
{
}

} // verus!
