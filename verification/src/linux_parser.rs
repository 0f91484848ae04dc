//! The sshd journal parser: classifies journalctl lines, extracts the
//! acting user and source address, stamps each line with a parsed
//! instant, and groups the resulting events by (identity, event-kind).

use vstd::prelude::*;

use crate::events::{EventGroup, EventRecord, EventRecordModel, group_events, groups_of,
    record_models};
use crate::strutil::{line_views, segment_after, spec_first_token, spec_lines, spec_segment_after,
    split_lines, str_has, contains_sub, first_token};
use crate::time::{journal_instant_of, parse_journal_instant};

verus! {

/// The event kind a journal line denotes: invalid-user attempts, failed
/// passwords, or nothing.
pub open spec fn spec_classify(line: Seq<char>) -> Option<Seq<char>> {
    if str_has(line, "Invalid user "@) {
        Some("ssh_invalid_user"@)
    } else if str_has(line, "Failed password"@) {
        Some("ssh_failed_password"@)
    } else {
        None
    }
}

fn classify(line: &str) -> (r: Option<&'static str>)
    ensures
        match r {
            Some(e) => spec_classify(line@) == Some(e@),
            None => spec_classify(line@) is None,
        },
{
    if contains_sub(line, "Invalid user ") {
        Some("ssh_invalid_user")
    } else if contains_sub(line, "Failed password") {
        Some("ssh_failed_password")
    } else {
        None
    }
}

/// The user token of a journal line: the first token after
/// `Invalid user `, `Failed password for invalid user `, or
/// `Failed password for `, tried in that order.
pub open spec fn spec_extract_user(line: Seq<char>) -> Option<Seq<char>> {
    match spec_segment_after(line, "Invalid user "@) {
        Some(rest) => spec_first_token(rest),
        None => match spec_segment_after(line, "Failed password for invalid user "@) {
            Some(rest) => spec_first_token(rest),
            None => match spec_segment_after(line, "Failed password for "@) {
                Some(rest) => spec_first_token(rest),
                None => None,
            },
        },
    }
}

/// The user named by a journal line, if any.
pub fn extract_user<'a>(line: &'a str) -> (r: Option<&'a str>)
    ensures
        match r {
            Some(u) => spec_extract_user(line@) == Some(u@),
            None => spec_extract_user(line@) is None,
        },
{
    match segment_after(line, "Invalid user ") {
        Some(rest) => first_token(rest),
        None => match segment_after(line, "Failed password for invalid user ") {
            Some(rest) => first_token(rest),
            None => match segment_after(line, "Failed password for ") {
                Some(rest) => first_token(rest),
                None => None,
            },
        },
    }
}

/// The source address of a journal line: the first token after ` from `.
pub open spec fn spec_extract_source(line: Seq<char>) -> Option<Seq<char>> {
    match spec_segment_after(line, " from "@) {
        Some(rest) => spec_first_token(rest),
        None => None,
    }
}

/// The source address named by a journal line, if any.
pub fn extract_source<'a>(line: &'a str) -> (r: Option<&'a str>)
    ensures
        match r {
            Some(s) => spec_extract_source(line@) == Some(s@),
            None => spec_extract_source(line@) is None,
        },
{
    match segment_after(line, " from ") {
        Some(rest) => first_token(rest),
        None => None,
    }
}

/// The identity token `user:<name>@<addr>` of a line, with `unknown`
/// standing in for a missing user or address.
pub open spec fn spec_line_identity(line: Seq<char>) -> Seq<char> {
    (("user:")@ + (match spec_extract_user(line) {
        Some(u) => u,
        None => ("unknown")@,
    })) + ("@")@ + (match spec_extract_source(line) {
        Some(s) => s,
        None => ("unknown")@,
    })
}

fn line_identity(line: &str) -> (r: String)
    ensures
        r@ == spec_line_identity(line@),
{
    let user: &str = match extract_user(line) {
        Some(u) => u,
        None => "unknown",
    };
    let src: &str = match extract_source(line) {
        Some(s) => s,
        None => "unknown",
    };
    let mut id = ("user:").to_owned();
    id.append(user);
    id.append("@");
    id.append(src);
    proof {
        assert(id@ =~= spec_line_identity(line@));
    }
    id
}

/// The 15-character timestamp prefix `Mon DD HH:MM:SS` of a line, empty
/// when the line is shorter.
pub open spec fn spec_ts_prefix(line: Seq<char>) -> Seq<char> {
    if line.len() >= 15 {
        line.take(15)
    } else {
        Seq::empty()
    }
}

fn ts_prefix<'a>(line: &'a str) -> (r: &'a str)
    ensures
        r@ == spec_ts_prefix(line@),
{
    let n = line.unicode_len();
    if n >= 15 {
        let t = line.substring_char(0, 15);
        proof {
            assert(t@ =~= line@.take(15));
        }
        t
    } else {
        let t = line.substring_char(0, 0);
        proof {
            assert(t@ =~= Seq::<char>::empty());
        }
        t
    }
}

/// The event record a journal line denotes in `year`: journal timestamps
/// carry no year, so the caller supplies one. Lines of other shapes, and
/// lines whose timestamp does not parse, denote nothing and are skipped
/// rather than failing the batch.
pub open spec fn spec_journal_record(line: Seq<char>, year: int) -> Option<EventRecordModel> {
    match spec_classify(line) {
        None => None,
        Some(ev) => match journal_instant_of(spec_ts_prefix(line), year) {
            None => None,
            Some(ts) => Some(
                EventRecordModel { identity: spec_line_identity(line), event: ev, ts: ts },
            ),
        },
    }
}

/// The event records of a journal export, in line order.
pub open spec fn spec_journal_records(lines: Seq<Seq<char>>, year: int) -> Seq<EventRecordModel>
    decreases lines.len(),
{
    if lines.len() == 0 {
        Seq::empty()
    } else {
        spec_journal_records(lines.drop_last(), year) + (match spec_journal_record(
            lines.last(),
            year,
        ) {
            Some(m) => seq![m],
            None => Seq::empty(),
        })
    }
}

/// Parses a journalctl export for sshd and groups its authentication
/// failures by (identity, event-kind).
#[verifier::loop_isolation(false)]
pub fn parse_ssh_journal(content: &str, year: i32) -> (groups: Vec<EventGroup>)
    ensures
        groups_of(spec_journal_records(spec_lines(content@), year as int), groups@),
{
    let lines = split_lines(content);
    let ghost lv = line_views(lines@);
    let mut records: Vec<EventRecord> = Vec::new();
    let mut i: usize = 0;
    proof {
        assert(lv.take(0) =~= Seq::<Seq<char>>::empty());
        assert(record_models(records@) =~= spec_journal_records(lv.take(0), year as int));
    }
    while i < lines.len()
        invariant
            i <= lines@.len(),
            record_models(records@) == spec_journal_records(lv.take(i as int), year as int),
        decreases lines@.len() - i,
    {
        let line = &lines[i];
        let ghost prev = records@;
        proof {
            assert(lv.take(i + 1).drop_last() =~= lv.take(i as int));
            assert(lv.take(i + 1).last() == lv[i as int]);
            assert(lv[i as int] == lines@[i as int]@);
        }
        match classify(line.as_str()) {
            Some(ev) => {
                match parse_journal_instant(ts_prefix(line.as_str()), year) {
                    Some(ts) => {
                        let identity = line_identity(line.as_str());
                        records.push(EventRecord { identity, event: ev.to_owned(), ts });
                        proof {
                            assert(records@.drop_last() =~= prev);
                            assert(records@.last()@ =~= EventRecordModel {
                                identity: spec_line_identity(lv[i as int]),
                                event: ev@,
                                ts: ts,
                            });
                            assert(record_models(records@) =~= record_models(prev).push(
                                records@.last()@,
                            ));
                            assert(record_models(records@) =~= spec_journal_records(
                                lv.take(i + 1),
                                year as int,
                            ));
                        }
                    },
                    None => {
                        proof {
                            assert(spec_journal_records(lv.take(i + 1), year as int)
                                =~= record_models(records@));
                        }
                    },
                }
            },
            None => {
                proof {
                    assert(spec_journal_records(lv.take(i + 1), year as int) =~= record_models(
                        records@,
                    ));
                }
            },
        }
        i += 1;
    }
    proof {
        assert(lv.take(lines@.len() as int) =~= lv);
    }
    group_events(&records)
}

} // verus!
