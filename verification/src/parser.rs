//! The structured audit-trail parser: tallies decoded cloud audit
//! records, resolves each acting identity, and groups the error events
//! by (identity, event-kind).

use vstd::prelude::*;

use crate::events::{EventGroup, EventRecord, EventRecordModel, group_events, groups_of,
    record_models};
use crate::strutil::{segment_after, spec_segment_after, str_eq};
use crate::time::{parse_rfc3339_instant, rfc3339_instant_of};

verus! {

/// What identity resolution reads from a record's `userIdentity`
/// document, each field as the decoder found it.
pub struct UserIdentityInfo {
    pub identity_type: Option<String>,
    pub user_name: Option<String>,
    pub arn: Option<String>,
    pub principal_id: Option<String>,
    pub invoked_by: Option<String>,
}

/// One decoded audit record: the fields the detector reads.
pub struct CloudRecord {
    pub event_time: Option<String>,
    pub event_name: Option<String>,
    pub error_code: Option<String>,
    pub user_identity: Option<UserIdentityInfo>,
}

/// The fallback identity of an assumed role whose ARN names no session.
pub open spec fn spec_role_fallback(u: UserIdentityInfo) -> Seq<char> {
    match u.principal_id {
        Some(p) => ("role-session: ")@ + p@,
        None => ("role:<unknown>")@,
    }
}

/// The identity token a `userIdentity` document resolves to: users,
/// assumed roles and services each get their own prefix, with graceful
/// fallbacks when fields are missing.
pub open spec fn spec_resolve_identity(u: UserIdentityInfo) -> Seq<char> {
    let t = match u.identity_type {
        Some(s) => s@,
        None => ("Unknown")@,
    };
    if t == ("IAMUser")@ {
        match u.user_name {
            Some(n) => ("user: ")@ + n@,
            None => ("user:<unkown>")@,
        }
    } else if t == ("AssumedRole")@ {
        match u.arn {
            Some(a) => match spec_segment_after(a@, ("assumed-role/")@) {
                Some(rest) => ("role: ")@ + rest,
                None => spec_role_fallback(u),
            },
            None => spec_role_fallback(u),
        }
    } else if t == ("AWSService")@ {
        match u.invoked_by {
            Some(s) => ("service: ")@ + s@,
            None => ("service:<unknown>")@,
        }
    } else {
        ("other: ")@ + (match u.arn {
            Some(a) => a@,
            None => t,
        })
    }
}

/// Resolves the acting identity of a `userIdentity` document.
pub fn resolve_identity(u: &UserIdentityInfo) -> (r: String)
    ensures
        r@ == spec_resolve_identity(*u),
{
    let t: &str = match &u.identity_type {
        Some(s) => s.as_str(),
        None => "Unknown",
    };
    if str_eq(t, "IAMUser") {
        match &u.user_name {
            Some(n) => {
                let mut s = ("user: ").to_owned();
                s.append(n.as_str());
                s
            },
            None => ("user:<unkown>").to_owned(),
        }
    } else if str_eq(t, "AssumedRole") {
        let seg: Option<&str> = match &u.arn {
            Some(a) => segment_after(a.as_str(), "assumed-role/"),
            None => None,
        };
        match seg {
            Some(rest) => {
                let mut s = ("role: ").to_owned();
                s.append(rest);
                s
            },
            None => match &u.principal_id {
                Some(p) => {
                    let mut s = ("role-session: ").to_owned();
                    s.append(p.as_str());
                    s
                },
                None => ("role:<unknown>").to_owned(),
            },
        }
    } else if str_eq(t, "AWSService") {
        match &u.invoked_by {
            Some(sv) => {
                let mut s = ("service: ").to_owned();
                s.append(sv.as_str());
                s
            },
            None => ("service:<unknown>").to_owned(),
        }
    } else {
        let mut s = ("other: ").to_owned();
        match &u.arn {
            Some(a) => s.append(a.as_str()),
            None => s.append(t),
        }
        s
    }
}

/// The identity a record resolves to; a record without a `userIdentity`
/// document is marked missing rather than dropped.
pub open spec fn spec_record_identity(r: CloudRecord) -> Seq<char> {
    match r.user_identity {
        Some(u) => spec_resolve_identity(u),
        None => ("identity:<missing>")@,
    }
}

/// The error event a decoded record contributes: records without an
/// error code contribute none, and an error event enters time-based
/// logic only with an event name and a parsable `eventTime`.
pub open spec fn spec_record_event(r: CloudRecord) -> Option<EventRecordModel> {
    if r.error_code is Some {
        match r.event_name {
            Some(name) => match (match r.event_time {
                Some(t) => rfc3339_instant_of(t@),
                None => None,
            }) {
                Some(ts) => Some(
                    EventRecordModel { identity: spec_record_identity(r), event: name@, ts: ts },
                ),
                None => None,
            },
            None => None,
        }
    } else {
        None
    }
}

/// How many decoded records carry an error code.
pub open spec fn spec_error_count(records: Seq<Option<CloudRecord>>) -> int
    decreases records.len(),
{
    if records.len() == 0 {
        0
    } else {
        spec_error_count(records.drop_last()) + (match records.last() {
            Some(r) => if r.error_code is Some {
                1int
            } else {
                0int
            },
            None => 0int,
        })
    }
}

/// The error events of the decoded records, in record order.
pub open spec fn spec_cloud_events(records: Seq<Option<CloudRecord>>) -> Seq<EventRecordModel>
    decreases records.len(),
{
    if records.len() == 0 {
        Seq::empty()
    } else {
        spec_cloud_events(records.drop_last()) + (match records.last() {
            Some(r) => match spec_record_event(r) {
                Some(m) => seq![m],
                None => Seq::empty(),
            },
            None => Seq::empty(),
        })
    }
}

/// Tallies one file's decoded records and groups its error events:
/// returns the total record count, the error record count, and the
/// grouped error events. A record that failed to decode counts toward
/// the total alone; a malformed error record joins the error count but
/// no group.
#[verifier::loop_isolation(false)]
pub fn process_cloudtrail_records(records: &Vec<Option<CloudRecord>>) -> (r: (
    u32,
    u32,
    Vec<EventGroup>,
))
    requires
        records@.len() <= u32::MAX,
    ensures
        r.0 == records@.len(),
        r.1 == spec_error_count(records@),
        groups_of(spec_cloud_events(records@), r.2@),
{
    let mut error_events: u32 = 0;
    let mut evs: Vec<EventRecord> = Vec::new();
    let mut i: usize = 0;
    proof {
        assert(records@.take(0) =~= Seq::<Option<CloudRecord>>::empty());
        assert(record_models(evs@) =~= spec_cloud_events(records@.take(0)));
    }
    while i < records.len()
        invariant
            i <= records@.len(),
            error_events <= i,
            error_events as int == spec_error_count(records@.take(i as int)),
            record_models(evs@) == spec_cloud_events(records@.take(i as int)),
        decreases records@.len() - i,
    {
        let ghost prev = evs@;
        proof {
            assert(records@.take(i + 1).drop_last() =~= records@.take(i as int));
            assert(records@.take(i + 1).last() == records@[i as int]);
        }
        match &records[i] {
            Some(rec) => {
                if rec.error_code.is_some() {
                    error_events += 1;
                    let ts_opt: Option<i64> = match &rec.event_time {
                        Some(t) => parse_rfc3339_instant(t.as_str()),
                        None => None,
                    };
                    match (&rec.event_name, ts_opt) {
                        (Some(name), Some(ts)) => {
                            let identity = match &rec.user_identity {
                                Some(u) => resolve_identity(u),
                                None => ("identity:<missing>").to_owned(),
                            };
                            evs.push(EventRecord { identity, event: name.clone(), ts });
                            proof {
                                assert(evs@.drop_last() =~= prev);
                                assert(evs@.last()@ =~= EventRecordModel {
                                    identity: spec_record_identity(records@[i as int].unwrap()),
                                    event: records@[i as int].unwrap().event_name.unwrap()@,
                                    ts: ts,
                                });
                                assert(record_models(evs@) =~= record_models(prev).push(
                                    evs@.last()@,
                                ));
                                assert(record_models(evs@) =~= spec_cloud_events(
                                    records@.take(i + 1),
                                ));
                            }
                        },
                        _ => {
                            proof {
                                assert(spec_cloud_events(records@.take(i + 1)) =~= record_models(
                                    evs@,
                                ));
                            }
                        },
                    }
                } else {
                    proof {
                        assert(spec_cloud_events(records@.take(i + 1)) =~= record_models(evs@));
                    }
                }
            },
            None => {
                proof {
                    assert(spec_cloud_events(records@.take(i + 1)) =~= record_models(evs@));
                }
            },
        }
        i += 1;
    }
    proof {
        assert(records@.take(records@.len() as int) =~= records@);
    }
    let groups = group_events(&evs);
    (records.len() as u32, error_events, groups)
}

} // verus!
