//! The rule engine: sliding-window burst detection over per-identity
//! timestamp groups, anchored at each group's own most recent event.

use vstd::prelude::*;

use crate::config::DetectorConfig;
use crate::events::EventGroup;
use crate::findings::{Finding, FindingModel, finding_views};

verus! {

/// Rule severity, pure metadata for presentation: it never influences
/// threshold or suppression logic.
#[derive(Clone, Copy, Debug, PartialEq, Eq, Structural)]
pub enum Severity {
    Low,
    Medium,
    High,
}

impl Severity {
    /// The lower-case display label.
    pub fn label(&self) -> (s: &'static str)
        ensures
            *self == Severity::Low ==> s@ == "low"@,
            *self == Severity::Medium ==> s@ == "medium"@,
            *self == Severity::High ==> s@ == "high"@,
    {
        match self {
            Severity::Low => "low",
            Severity::Medium => "medium",
            Severity::High => "high",
        }
    }
}

/// One burst-detection rule: fires when a group's windowed count
/// strictly exceeds `threshold`.
pub struct DetectionRule {
    pub name: String,
    pub threshold: u32,
    pub window_minutes: i64,
    pub severity: Severity,
}

/// The most recent timestamp of a non-empty group: the window anchor.
pub open spec fn max_ts(s: Seq<i64>) -> int
    recommends
        s.len() > 0,
    decreases s.len(),
{
    if s.len() <= 1 {
        s[0] as int
    } else {
        let m = max_ts(s.drop_last());
        if s.last() as int > m {
            s.last() as int
        } else {
            m
        }
    }
}

/// The instant `window_minutes` minutes before `latest`.
pub open spec fn window_start(latest: int, window_minutes: int) -> int {
    latest - window_minutes * 60
}

/// How many timestamps lie at or after `ws`: the boundary instant itself
/// counts.
pub open spec fn windowed_count(s: Seq<i64>, ws: int) -> int
    decreases s.len(),
{
    if s.len() == 0 {
        0
    } else {
        windowed_count(s.drop_last(), ws) + (if s.last() as int >= ws {
            1int
        } else {
            0int
        })
    }
}

/// A group's windowed count, anchored at its own most recent event —
/// never at wall-clock "now", so historical bursts are detected relative
/// to their own recency.
pub open spec fn group_count(window_minutes: int, s: Seq<i64>) -> int {
    windowed_count(s, window_start(max_ts(s), window_minutes))
}

/// Whether a rule fires on a group: the count must strictly exceed the
/// threshold, and an empty group never fires.
pub open spec fn group_fires(threshold: int, window_minutes: int, s: Seq<i64>) -> bool {
    s.len() > 0 && group_count(window_minutes, s) > threshold
}

pub proof fn lemma_windowed_count_bounds(s: Seq<i64>, ws: int)
    ensures
        0 <= windowed_count(s, ws) <= s.len(),
    decreases s.len(),
{
    if s.len() > 0 {
        lemma_windowed_count_bounds(s.drop_last(), ws);
    }
}

/// The most recent timestamp in `ts`.
fn max_of(ts: &Vec<i64>) -> (m: i64)
    requires
        ts@.len() > 0,
    ensures
        m as int == max_ts(ts@),
{
    let mut m: i64 = ts[0];
    let mut i: usize = 1;
    proof {
        assert(ts@.take(1).len() == 1);
        assert(ts@.take(1)[0] == ts@[0]);
    }
    while i < ts.len()
        invariant
            1 <= i <= ts@.len(),
            m as int == max_ts(ts@.take(i as int)),
        decreases ts@.len() - i,
    {
        proof {
            assert(ts@.take(i + 1).drop_last() =~= ts@.take(i as int));
            assert(ts@.take(i + 1).last() == ts@[i as int]);
        }
        if ts[i] > m {
            m = ts[i];
        }
        i += 1;
    }
    proof {
        assert(ts@.take(ts@.len() as int) =~= ts@);
    }
    m
}

/// Counts the timestamps at or after the window start, computed in
/// 128-bit arithmetic so that no window length can overflow.
fn count_in_window(ts: &Vec<i64>, latest: i64, window_minutes: i64) -> (c: usize)
    ensures
        c as int == windowed_count(ts@, window_start(latest as int, window_minutes as int)),
        c <= ts@.len(),
{
    let ws: i128 = latest as i128 - (window_minutes as i128) * 60;
    let mut c: usize = 0;
    let mut i: usize = 0;
    proof {
        assert(ts@.take(0) =~= Seq::<i64>::empty());
    }
    while i < ts.len()
        invariant
            i <= ts@.len(),
            c <= i,
            ws == window_start(latest as int, window_minutes as int),
            c as int == windowed_count(ts@.take(i as int), ws as int),
        decreases ts@.len() - i,
    {
        proof {
            assert(ts@.take(i + 1).drop_last() =~= ts@.take(i as int));
            assert(ts@.take(i + 1).last() == ts@[i as int]);
        }
        if (ts[i] as i128) >= ws {
            c += 1;
        }
        i += 1;
    }
    proof {
        assert(ts@.take(ts@.len() as int) =~= ts@);
    }
    c
}

/// The (key, windowed count) pairs of the groups on which a rule with
/// the given threshold and window fires, in group order.
pub open spec fn suspicious_models(
    groups: Seq<EventGroup>,
    threshold: int,
    window_minutes: int,
) -> Seq<((Seq<char>, Seq<char>), int)>
    decreases groups.len(),
{
    if groups.len() == 0 {
        Seq::empty()
    } else {
        suspicious_models(groups.drop_last(), threshold, window_minutes) + (if group_fires(
            threshold,
            window_minutes,
            groups.last().timestamps@,
        ) {
            seq![((groups.last().identity@, groups.last().event@), group_count(window_minutes, groups.last().timestamps@))]
        } else {
            Seq::empty()
        })
    }
}

/// The views of a suspicious-identity listing.
pub open spec fn suspicious_views(s: Seq<((String, String), u32)>) -> Seq<
    ((Seq<char>, Seq<char>), int),
> {
    s.map_values(|p: ((String, String), u32)| ((p.0.0@, p.0.1@), p.1 as int))
}

/// Evaluates the single configured policy against every group and lists
/// each (identity, event-kind) key whose windowed error count strictly
/// exceeds the threshold, with that count. Empty groups are skipped.
#[verifier::loop_isolation(false)]
pub fn detect_suspicious_identities(
    errors: &Vec<EventGroup>,
    config: &DetectorConfig,
) -> (suspicious: Vec<((String, String), u32)>)
    requires
        forall|i: int|
            0 <= i < errors@.len() ==> (#[trigger] errors@[i].timestamps@).len() <= u32::MAX,
    ensures
        suspicious_views(suspicious@) == suspicious_models(
            errors@,
            config.error_threshold as int,
            config.window_minutes as int,
        ),
{
    let ghost t = config.error_threshold as int;
    let ghost w = config.window_minutes as int;
    let mut suspicious: Vec<((String, String), u32)> = Vec::new();
    let mut i: usize = 0;
    proof {
        assert(errors@.take(0) =~= Seq::<EventGroup>::empty());
        assert(suspicious_views(suspicious@) =~= suspicious_models(errors@.take(0), t, w));
    }
    while i < errors.len()
        invariant
            i <= errors@.len(),
            suspicious_views(suspicious@) == suspicious_models(errors@.take(i as int), t, w),
        decreases errors@.len() - i,
    {
        let g = &errors[i];
        let ghost prev = suspicious@;
        proof {
            assert(errors@.take(i + 1).drop_last() =~= errors@.take(i as int));
            assert(errors@.take(i + 1).last() == errors@[i as int]);
        }
        if g.timestamps.len() > 0 {
            let latest: i64 = max_of(&g.timestamps);
            let c: usize = count_in_window(&g.timestamps, latest, config.window_minutes);
            if c > config.error_threshold as usize {
                suspicious.push(((g.identity.clone(), g.event.clone()), c as u32));
                proof {
                    assert(suspicious_views(suspicious@) =~= suspicious_views(prev).push(
                        ((g.identity@, g.event@), c as int),
                    ));
                    assert(suspicious_views(suspicious@) =~= suspicious_models(
                        errors@.take(i + 1),
                        t,
                        w,
                    ));
                }
            } else {
                proof {
                    assert(suspicious_models(errors@.take(i + 1), t, w) =~= suspicious_views(
                        suspicious@,
                    ));
                }
            }
        } else {
            proof {
                assert(suspicious_models(errors@.take(i + 1), t, w) =~= suspicious_views(
                    suspicious@,
                ));
            }
        }
        i += 1;
    }
    proof {
        assert(errors@.take(errors@.len() as int) =~= errors@);
    }
    suspicious
}

/// The finding a rule emits for a group it fires on.
pub open spec fn finding_for(source: Seq<char>, rule: DetectionRule, g: EventGroup) -> FindingModel {
    FindingModel {
        source: source,
        rule: rule.name@,
        severity: rule.severity,
        identity: g.identity@,
        event: g.event@,
        count: group_count(rule.window_minutes as int, g.timestamps@),
        window_minutes: rule.window_minutes as int,
        last_seen: max_ts(g.timestamps@),
    }
}

/// The findings one rule emits over the groups, in group order.
pub open spec fn rule_findings(
    source: Seq<char>,
    rule: DetectionRule,
    groups: Seq<EventGroup>,
) -> Seq<FindingModel>
    decreases groups.len(),
{
    if groups.len() == 0 {
        Seq::empty()
    } else {
        rule_findings(source, rule, groups.drop_last()) + (if group_fires(
            rule.threshold as int,
            rule.window_minutes as int,
            groups.last().timestamps@,
        ) {
            seq![finding_for(source, rule, groups.last())]
        } else {
            Seq::empty()
        })
    }
}

/// All findings of a run, rule-major: every rule is evaluated against
/// every group independently, so one group may yield several findings.
pub open spec fn all_findings(
    source: Seq<char>,
    rules: Seq<DetectionRule>,
    groups: Seq<EventGroup>,
) -> Seq<FindingModel>
    decreases rules.len(),
{
    if rules.len() == 0 {
        Seq::empty()
    } else {
        all_findings(source, rules.drop_last(), groups) + rule_findings(
            source,
            rules.last(),
            groups,
        )
    }
}

/// Evaluates every rule against every (identity, event-kind) group and
/// returns the findings, rule-major in input order. Empty groups are
/// skipped defensively and never fire.
#[verifier::loop_isolation(false)]
pub fn detect_with_rules(
    source: &str,
    errors: &Vec<EventGroup>,
    rules: &Vec<DetectionRule>,
) -> (findings: Vec<Finding>)
    requires
        forall|i: int|
            0 <= i < errors@.len() ==> (#[trigger] errors@[i].timestamps@).len() <= u32::MAX,
    ensures
        finding_views(findings@) == all_findings(source@, rules@, errors@),
{
    let mut findings: Vec<Finding> = Vec::new();
    let mut r: usize = 0;
    proof {
        assert(rules@.take(0) =~= Seq::<DetectionRule>::empty());
        assert(finding_views(findings@) =~= all_findings(source@, rules@.take(0), errors@));
    }
    while r < rules.len()
        invariant
            r <= rules@.len(),
            finding_views(findings@) == all_findings(source@, rules@.take(r as int), errors@),
        decreases rules@.len() - r,
    {
        let rule = &rules[r];
        let mut gi: usize = 0;
        proof {
            assert(errors@.take(0) =~= Seq::<EventGroup>::empty());
            assert(rule_findings(source@, rules@[r as int], errors@.take(0))
                =~= Seq::<FindingModel>::empty());
            assert(finding_views(findings@) + Seq::<FindingModel>::empty() =~= finding_views(
                findings@,
            ));
        }
        while gi < errors.len()
            invariant
                gi <= errors@.len(),
                finding_views(findings@) == all_findings(source@, rules@.take(r as int), errors@)
                    + rule_findings(source@, rules@[r as int], errors@.take(gi as int)),
            decreases errors@.len() - gi,
        {
            let g = &errors[gi];
            let ghost prev = findings@;
            proof {
                assert(errors@.take(gi + 1).drop_last() =~= errors@.take(gi as int));
                assert(errors@.take(gi + 1).last() == errors@[gi as int]);
            }
            if g.timestamps.len() > 0 {
                let latest: i64 = max_of(&g.timestamps);
                let c: usize = count_in_window(&g.timestamps, latest, rule.window_minutes);
                if c > rule.threshold as usize {
                    findings.push(
                        Finding {
                            source: source.to_owned(),
                            rule: rule.name.clone(),
                            severity: rule.severity,
                            identity: g.identity.clone(),
                            event: g.event.clone(),
                            count: c as u32,
                            window_minutes: rule.window_minutes,
                            last_seen: latest,
                        },
                    );
                    proof {
                        assert(finding_views(findings@) =~= finding_views(prev).push(
                            finding_for(source@, rules@[r as int], errors@[gi as int]),
                        ));
                        assert(finding_views(findings@) =~= all_findings(
                            source@,
                            rules@.take(r as int),
                            errors@,
                        ) + rule_findings(source@, rules@[r as int], errors@.take(gi + 1)));
                    }
                } else {
                    proof {
                        assert(rule_findings(source@, rules@[r as int], errors@.take(gi + 1))
                            =~= rule_findings(source@, rules@[r as int], errors@.take(gi as int)));
                    }
                }
            } else {
                proof {
                    assert(rule_findings(source@, rules@[r as int], errors@.take(gi + 1))
                        =~= rule_findings(source@, rules@[r as int], errors@.take(gi as int)));
                }
            }
            gi += 1;
        }
        proof {
            assert(errors@.take(errors@.len() as int) =~= errors@);
            assert(rules@.take(r + 1).drop_last() =~= rules@.take(r as int));
            assert(rules@.take(r + 1).last() == rules@[r as int]);
        }
        r += 1;
    }
    proof {
        assert(rules@.take(rules@.len() as int) =~= rules@);
    }
    findings
}

/// Threshold boundary: a group whose windowed count is exactly the
/// threshold never fires; any count strictly above it always fires.
pub proof fn lemma_threshold_boundary(threshold: int, window_minutes: int, ts: Seq<i64>)
    requires
        ts.len() > 0,
    ensures
        group_count(window_minutes, ts) == threshold ==> !group_fires(
            threshold,
            window_minutes,
            ts,
        ),
        group_count(window_minutes, ts) == threshold + 1 ==> group_fires(
            threshold,
            window_minutes,
            ts,
        ),
        group_count(window_minutes, ts) > threshold ==> group_fires(threshold, window_minutes, ts),
{
}

/// Window anchoring: the window is measured from the group's own most
/// recent event, never from wall-clock "now". A group holding `t0` and a
/// second event one second past one whole window later counts only that
/// second event, whenever the detector runs.
pub proof fn lemma_window_anchoring(t0: i64, window_minutes: i64)
    requires
        0 <= window_minutes,
        t0 + window_minutes * 60 + 1 <= i64::MAX,
    ensures
        group_count(
            window_minutes as int,
            seq![t0, (t0 + window_minutes * 60 + 1) as i64],
        ) == 1,
{
    let later = (t0 + window_minutes * 60 + 1) as i64;
    let s = seq![t0, later];
    assert(s.drop_last() =~= seq![t0]);
    assert(max_ts(seq![t0]) == t0 as int);
    assert(max_ts(s) == later as int);
    assert(window_start(later as int, window_minutes as int) == t0 + 1);
    assert(seq![t0].drop_last() =~= Seq::<i64>::empty());
    assert(windowed_count(Seq::<i64>::empty(), t0 + 1) == 0);
    assert(windowed_count(seq![t0], t0 + 1) == 0);
    assert(windowed_count(s, t0 + 1) == 1);
}

/// Inclusive boundary: a timestamp exactly `window` minutes before the
/// anchor lies on the window's lower edge and is counted — adding such a
/// timestamp to a group raises its windowed count by one.
pub proof fn lemma_inclusive_boundary(ts: Seq<i64>, window_minutes: int, b: i64)
    requires
        ts.len() > 0,
        0 <= window_minutes,
        b as int == window_start(max_ts(ts), window_minutes),
    ensures
        max_ts(ts.push(b)) == max_ts(ts),
        group_count(window_minutes, ts.push(b)) == group_count(window_minutes, ts) + 1,
{
    assert(ts.push(b).drop_last() =~= ts);
    assert(ts.push(b).last() == b);
    assert(b as int <= max_ts(ts));
    assert(max_ts(ts.push(b)) == max_ts(ts));
    assert(b as int >= window_start(max_ts(ts), window_minutes));
}

} // verus!
