use logburst::linux_parser::{extract_source, extract_user, parse_ssh_journal};
use logburst::parser::{process_cloudtrail_records, resolve_identity, CloudRecord, UserIdentityInfo};
use logburst::strutil::{find_sub, first_token, segment_after, split_lines, str_eq};

#[test]
fn extracts_user_from_each_line_shape() {
    assert_eq!(
        extract_user("Jan 07 11:48:14 host sshd[9]: Invalid user doesnotexist from ::1 port 3"),
        Some("doesnotexist")
    );
    assert_eq!(
        extract_user(
            "Jan 07 11:48:14 host sshd[9]: Failed password for invalid user ghost from ::1 port 3"
        ),
        Some("ghost")
    );
    assert_eq!(
        extract_user("Jan 07 11:48:14 host sshd[9]: Failed password for root from 1.2.3.4 port 22"),
        Some("root")
    );
    assert_eq!(extract_user("Jan 07 11:48:14 host sshd[9]: Accepted publickey for root"), None);
}

#[test]
fn extracts_source_address() {
    assert_eq!(
        extract_source("Failed password for root from 192.168.1.50 port 22 ssh2"),
        Some("192.168.1.50")
    );
    assert_eq!(extract_source("no source here"), None);
}

#[test]
fn journal_parse_classifies_groups_and_stamps() {
    let content = "\
Jan 07 11:48:14 host sshd[9]: Failed password for root from 192.168.1.50 port 22 ssh2\n\
Jan 07 11:48:20 host sshd[9]: Invalid user admin from 10.0.0.1 port 4022\n\
Jan 07 11:49:14 host sshd[9]: Failed password for root from 192.168.1.50 port 22 ssh2\n\
Jan 07 11:50:00 host sshd[9]: Accepted publickey for deploy from 10.0.0.2 port 22\n\
garbled Invalid user foo from 1.2.3.4 port 5\n";
    let groups = parse_ssh_journal(content, 2024);
    // the accepted-publickey line is no error, and the garbled line's
    // timestamp does not parse: both are skipped
    assert_eq!(groups.len(), 2);

    let g0 = &groups[0];
    assert_eq!(g0.identity, "user:root@192.168.1.50");
    assert_eq!(g0.event, "ssh_failed_password");
    // Jan 07 11:48:14 UTC 2024
    let expect = chrono::NaiveDateTime::parse_from_str("2024 Jan 07 11:48:14", "%Y %b %d %H:%M:%S")
        .unwrap()
        .and_utc()
        .timestamp();
    assert_eq!(expect, 1_704_628_094);
    assert_eq!(g0.timestamps, vec![1_704_628_094, 1_704_628_094 + 60]);

    let g1 = &groups[1];
    assert_eq!(g1.identity, "user:admin@10.0.0.1");
    assert_eq!(g1.event, "ssh_invalid_user");
    assert_eq!(g1.timestamps, vec![1_704_628_094 + 6]);
}

fn bare_identity() -> UserIdentityInfo {
    UserIdentityInfo {
        identity_type: None,
        user_name: None,
        arn: None,
        principal_id: None,
        invoked_by: None,
    }
}

#[test]
fn resolves_each_identity_shape() {
    let mut u = bare_identity();
    u.identity_type = Some("IAMUser".to_string());
    u.user_name = Some("alice".to_string());
    assert_eq!(resolve_identity(&u), "user: alice");

    let mut u = bare_identity();
    u.identity_type = Some("IAMUser".to_string());
    assert_eq!(resolve_identity(&u), "user:<unkown>");

    let mut u = bare_identity();
    u.identity_type = Some("AssumedRole".to_string());
    u.arn = Some("arn:aws:sts::123:assumed-role/MyRole/sess1".to_string());
    assert_eq!(resolve_identity(&u), "role: MyRole/sess1");

    let mut u = bare_identity();
    u.identity_type = Some("AssumedRole".to_string());
    u.principal_id = Some("P123:sess".to_string());
    assert_eq!(resolve_identity(&u), "role-session: P123:sess");

    let mut u = bare_identity();
    u.identity_type = Some("AssumedRole".to_string());
    assert_eq!(resolve_identity(&u), "role:<unknown>");

    let mut u = bare_identity();
    u.identity_type = Some("AWSService".to_string());
    u.invoked_by = Some("lambda.amazonaws.com".to_string());
    assert_eq!(resolve_identity(&u), "service: lambda.amazonaws.com");

    let mut u = bare_identity();
    u.identity_type = Some("AWSService".to_string());
    assert_eq!(resolve_identity(&u), "service:<unknown>");

    let mut u = bare_identity();
    u.identity_type = Some("Root".to_string());
    u.arn = Some("arn:aws:iam::123:root".to_string());
    assert_eq!(resolve_identity(&u), "other: arn:aws:iam::123:root");

    let mut u = bare_identity();
    u.identity_type = Some("Root".to_string());
    assert_eq!(resolve_identity(&u), "other: Root");

    let u = bare_identity();
    assert_eq!(resolve_identity(&u), "other: Unknown");
}

fn error_record(identity_type: &str, user_name: &str, time: &str, name: &str) -> CloudRecord {
    CloudRecord {
        event_time: Some(time.to_string()),
        event_name: Some(name.to_string()),
        error_code: Some("AccessDenied".to_string()),
        user_identity: Some(UserIdentityInfo {
            identity_type: Some(identity_type.to_string()),
            user_name: Some(user_name.to_string()),
            arn: None,
            principal_id: None,
            invoked_by: None,
        }),
    }
}

#[test]
fn cloudtrail_records_tally_and_group() {
    let ok_record = CloudRecord {
        event_time: Some("2024-01-01T00:00:00Z".to_string()),
        event_name: Some("GetObject".to_string()),
        error_code: None,
        user_identity: None,
    };
    let records = vec![
        Some(error_record("IAMUser", "alice", "2024-01-01T00:00:10Z", "GetObject")),
        Some(error_record("IAMUser", "alice", "2024-01-01T00:01:10+00:00", "GetObject")),
        Some(ok_record),
        None,
        Some(CloudRecord {
            // an error without a parsable time joins the count, not a group
            event_time: None,
            event_name: Some("PutObject".to_string()),
            error_code: Some("AccessDenied".to_string()),
            user_identity: None,
        }),
        Some(CloudRecord {
            event_time: Some("2024-01-01T00:02:00Z".to_string()),
            event_name: None,
            error_code: Some("AccessDenied".to_string()),
            user_identity: None,
        }),
    ];
    let (total, errors, groups) = process_cloudtrail_records(&records);
    assert_eq!(total, 6);
    assert_eq!(errors, 4);
    assert_eq!(groups.len(), 1);
    let g = &groups[0];
    assert_eq!(g.identity, "user: alice");
    assert_eq!(g.event, "GetObject");
    // 2024-01-01T00:00:10Z in seconds since the epoch
    let expect = chrono::DateTime::parse_from_rfc3339("2024-01-01T00:00:10Z")
        .unwrap()
        .timestamp();
    assert_eq!(expect, 1_704_067_210);
    assert_eq!(g.timestamps, vec![1_704_067_210, 1_704_067_210 + 60]);
}

#[test]
fn offset_times_normalize_to_utc() {
    // +02:00 is two hours behind the same wall-clock reading in UTC
    let records = vec![Some(error_record(
        "IAMUser",
        "bob",
        "2024-01-01T02:00:10+02:00",
        "GetObject",
    ))];
    let (_, _, groups) = process_cloudtrail_records(&records);
    assert_eq!(groups[0].timestamps, vec![1_704_067_210]);
}

#[test]
fn text_utilities_behave_like_std() {
    let s = "a\nbb\r\nccc\nno newline at end";
    let lines = split_lines(s);
    assert_eq!(lines, vec!["a", "bb", "ccc", "no newline at end"]);
    assert_eq!(split_lines(""), Vec::<String>::new());
    assert_eq!(split_lines("x\n"), vec!["x"]);
    assert_eq!(split_lines("x\r\n\ny"), vec!["x", "", "y"]);

    assert_eq!(find_sub("hello world", "o w"), Some(4));
    assert_eq!(find_sub("hello", "xyz"), None);

    // the segment runs from the first separator to the second
    assert_eq!(segment_after("x|a|b", "|"), Some("a"));
    assert_eq!(segment_after("x|a", "|"), Some("a"));
    assert_eq!(segment_after("xa", "|"), None);

    assert_eq!(first_token("  foo bar"), Some("foo"));
    assert_eq!(first_token("   "), None);
    assert_eq!(first_token(""), None);

    assert!(str_eq("abc", "abc"));
    assert!(!str_eq("abc", "abd"));
    assert!(!str_eq("abc", "ab"));
}
