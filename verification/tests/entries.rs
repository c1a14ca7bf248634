use audit_watchdog::address::IpAddress;
use audit_watchdog::entry::{parse_audit_file, AuditParser, Settings};
use audit_watchdog::message::{build_log_message, violation_message, LogMessage};
use audit_watchdog::pattern::RuleViolation;
use audit_watchdog::proxies::parse_trusted_ips;
use audit_watchdog::section::Section;

const A: &str = "---abCD1234---A--";
const B: &str = "---abCD1234---B--";
const C: &str = "---abCD1234---C--";
const H: &str = "---abCD1234---H--";
const Z: &str = "---abCD1234---Z--";
const SUMMARY: &str = "[02/Jan/2024:03:04:05 -0500] 1.2 203.0.113.7 51234 192.0.2.1 443";
const VIOLATION: &str =
    "ModSecurity: Warning. [id \"1\"] [msg \"first\"] [hostname \"example.com\"] [uri \"/a\"]";
const OTHER_VIOLATION: &str =
    "ModSecurity: Warning. [id \"2\"] [msg \"second\"] [hostname \"example.com\"] [uri \"/b\"]";
const SAID: &str = "[uri example.com/a] [id 1] [msg first]";
const CONNECTED: &str =
    "[2024-01-02 03:04:05 -05:00] [client 203.0.113.7] [uri example.com/a] [id 1] [msg first]";

fn settings(proxy: bool, cf_headers: bool, trusted: &str) -> Settings {
    Settings { proxy, cf_headers, trusted_proxies: parse_trusted_ips(Some(trusted.to_string())) }
}

fn logged(settings: &Settings, lines: &[&str]) -> Vec<String> {
    let lines: Vec<Option<String>> = lines.iter().map(|line| Some(line.to_string())).collect();
    parse_audit_file(&lines, settings).iter().map(|message| message.to_text()).collect()
}

fn client(settings: &Settings, headers: &[&str]) -> String {
    let mut lines = vec![A, SUMMARY, B];
    lines.extend_from_slice(headers);
    lines.extend_from_slice(&[H, VIOLATION, Z]);
    let line = logged(settings, &lines).remove(0);
    let end = line.len() - "] ".len() - SAID.len();
    assert_eq!(&line[end..], format!("] {}", SAID));
    line["[2024-01-02 03:04:05 -05:00] [client ".len()..end].to_string()
}

#[test]
fn an_entry_is_logged_as_one_line() {
    let lines = [A, SUMMARY, "", B, "Host: example.com", H, VIOLATION, "other", OTHER_VIOLATION, Z];
    assert_eq!(
        logged(&settings(false, false, ""), &lines),
        vec![format!(
            "{}, [uri example.com/b] [id 2] [msg second]",
            CONNECTED
        )]
    );
}

#[test]
fn an_entry_without_violations_is_not_logged() {
    let none: Vec<String> = Vec::new();
    let settings = settings(false, false, "");
    assert_eq!(logged(&settings, &[A, SUMMARY, Z]), none);
    assert_eq!(logged(&settings, &[A, SUMMARY, H, "ModSecurity: Warning.", Z]), none);
    assert_eq!(logged(&settings, &[A, SUMMARY, H, VIOLATION, Z]), vec![CONNECTED]);
}

#[test]
fn an_offset_to_the_east_is_logged() {
    let lines = [
        A,
        "[05/Oct/2023:12:34:56 +0200] 1.2 192.0.2.1 4000 10.0.0.1 80",
        H,
        "ModSecurity: [id \"7\"] [msg \"m\"] [hostname \"h\"] [uri \"/u\"]",
        Z,
    ];
    assert_eq!(
        logged(&settings(false, false, ""), &lines),
        vec!["[2023-10-05 12:34:56 +02:00] [client 192.0.2.1] [uri h/u] [id 7] [msg m]"]
    );
}

#[test]
fn an_entry_without_a_time_or_a_client_is_not_logged() {
    let none: Vec<String> = Vec::new();
    let settings = settings(false, false, "");
    assert_eq!(logged(&settings, &[A, H, VIOLATION, Z]), none);
    let bad_time = "[32/Jan/2024:03:04:05 -0500] 1.2 203.0.113.7 51234 192.0.2.1 443";
    assert_eq!(logged(&settings, &[A, bad_time, H, VIOLATION, Z]), none);
    let bad_client = "[02/Jan/2024:03:04:05 -0500] 1.2 203.0.113 51234 192.0.2.1 443";
    assert_eq!(logged(&settings, &[A, bad_client, H, VIOLATION, Z]), none);
    assert_eq!(logged(&settings, &[A, bad_time, SUMMARY, H, VIOLATION, Z]), vec![CONNECTED]);
}

#[test]
fn a_summary_with_a_bad_address_still_gives_the_time() {
    let bad_client = "[03/Jan/2024:03:04:05 -0500] 1.2 203.0.113 51234 192.0.2.1 443";
    assert_eq!(
        logged(&settings(false, false, ""), &[A, SUMMARY, bad_client, H, VIOLATION, Z]),
        vec![format!("[2024-01-03 03:04:05 -05:00] [client 203.0.113.7] {}", SAID)]
    );
}

#[test]
fn an_entry_that_has_not_ended_is_not_logged() {
    let none: Vec<String> = Vec::new();
    assert_eq!(logged(&settings(false, false, ""), &[A, SUMMARY, H, VIOLATION]), none);
}

#[test]
fn entries_are_independent() {
    let settings = settings(true, true, "");
    let first = [A, SUMMARY, B, "CF-Connecting-IP: 8.8.8.8", H, VIOLATION, Z];
    let second = [A, SUMMARY, B, "X-Forwarded-For: 9.9.9.9", H, OTHER_VIOLATION, Z];
    let both: Vec<&str> = first.iter().chain(second.iter()).copied().collect();
    let mut one_by_one = logged(&settings, &first);
    one_by_one.append(&mut logged(&settings, &second));
    assert_eq!(logged(&settings, &both), one_by_one);
    assert_eq!(one_by_one.len(), 2);
    assert_eq!(logged(&settings, &[A, SUMMARY, H, VIOLATION, Z, Z, "text", Z]).len(), 1);
}

#[test]
fn blank_and_unreadable_lines_do_not_count() {
    let settings = settings(false, false, "");
    let lines = vec![
        None,
        Some(format!("  {}\t", A)),
        Some(" \u{3000} ".to_string()),
        None,
        Some(format!("\t{} ", SUMMARY)),
        Some(String::new()),
        Some(H.to_string()),
        Some(VIOLATION.to_string()),
        Some(Z.to_string()),
    ];
    let messages = parse_audit_file(&lines, &settings);
    assert_eq!(messages.len(), 1);
    assert_eq!(messages[0].to_text(), CONNECTED);
}

#[test]
fn lines_count_in_their_own_section_only() {
    let settings = settings(true, true, "");
    let lines = [
        SUMMARY,
        A,
        SUMMARY,
        OTHER_VIOLATION,
        C,
        OTHER_VIOLATION,
        "X-Forwarded-For: 9.9.9.9",
        "[03/Jan/2024:03:04:05 -0500] 1.2 203.0.113.8 51234 192.0.2.1 443",
        H,
        VIOLATION,
        Z,
    ];
    assert_eq!(logged(&settings, &lines), vec![CONNECTED]);
    let none: Vec<String> = Vec::new();
    assert_eq!(logged(&settings, &[SUMMARY, H, VIOLATION, Z]), none);
}

#[test]
fn without_a_proxy_headers_do_not_count() {
    for cf_headers in [false, true] {
        let settings = settings(false, cf_headers, "10.0.0.0/8");
        let headers = ["CF-Connecting-IP: 8.8.8.8", "X-Forwarded-For: 9.9.9.9"];
        assert_eq!(client(&settings, &headers), "203.0.113.7");
    }
}

#[test]
fn the_last_untrusted_address_is_the_client() {
    let settings = settings(true, false, "10.0.0.0/8,fd00::/8");
    assert_eq!(client(&settings, &["X-Forwarded-For: 1.1.1.1, 2.2.2.2, 10.0.0.1"]), "2.2.2.2");
    assert_eq!(client(&settings, &["X-Forwarded-For: 1.1.1.1, fd00::1"]), "1.1.1.1");
    assert_eq!(client(&settings, &["X-Forwarded-For: 10.0.0.2, 10.0.0.1"]), "203.0.113.7");
    assert_eq!(client(&settings, &["X-Forwarded-For: 2001:db8::1"]), "2001:db8::1");
    assert_eq!(client(&settings, &["X-Forwarded-For: 1.1.1.1, 2.2.2, 10.0.0.1"]), "1.1.1.1");
    assert_eq!(client(&settings, &[]), "203.0.113.7");
}

#[test]
fn forwarded_headers_add_up() {
    let settings = settings(true, false, "10.0.0.0/8");
    let one = ["X-Forwarded-For: 1.1.1.1, 2.2.2.2, 10.0.0.1"];
    let two = ["X-Forwarded-For: 1.1.1.1", "X-Forwarded-For: 2.2.2.2, 10.0.0.1"];
    assert_eq!(client(&settings, &one), client(&settings, &two));
}

#[test]
fn the_connecting_ip_is_preferred() {
    let settings = settings(true, true, "");
    let headers = ["X-Forwarded-For: 9.9.9.9", "CF-Connecting-IP: 8.8.8.8"];
    assert_eq!(client(&settings, &headers), "8.8.8.8");
    let headers = ["CF-Connecting-IP: 8.8.8.8", "CF-Connecting-IP: 7.7.7.7"];
    assert_eq!(client(&settings, &headers), "8.8.8.8");
    let headers = ["CF-Connecting-IP: 8.8.8", "X-Forwarded-For: 9.9.9.9"];
    assert_eq!(client(&settings, &headers), "9.9.9.9");
}

#[test]
fn the_connecting_ip_must_be_looked_for() {
    let settings = settings(true, false, "");
    assert_eq!(client(&settings, &["CF-Connecting-IP: 8.8.8.8"]), "203.0.113.7");
    let headers = ["CF-Connecting-IP: 8.8.8.8", "X-Forwarded-For: 9.9.9.9"];
    assert_eq!(client(&settings, &headers), "9.9.9.9");
}

#[test]
fn the_list_can_be_reviewed_several_times() {
    let settings = settings(true, false, "10.0.0.0/8");
    assert_eq!(client(&settings, &["X-Forwarded-For: 1.1.1.1, 2.2.2.2"]), "2.2.2.2");
    assert_eq!(client(&settings, &["X-Forwarded-For: 1.1.1.1, 2.2.2.2", B]), "2.2.2.2");
    assert_eq!(client(&settings, &["X-Forwarded-For: 1.1.1.1, 2.2.2.2", B, B]), "2.2.2.2");
    let headers = ["X-Forwarded-For: 1.1.1.1", B, "X-Forwarded-For: 2.2.2.2, 10.0.0.1"];
    assert_eq!(client(&settings, &headers), "2.2.2.2");
}

#[test]
fn lines_can_be_read_one_by_one() {
    let settings = settings(false, false, "");
    let mut parser = AuditParser::new();
    for line in [Some(A), None, Some(SUMMARY), Some(""), Some(H), Some(VIOLATION)] {
        let report = parser.process_line(&settings, line);
        assert!(report.message.is_none());
        assert!(!report.bad_ip);
    }
    let report = parser.process_line(&settings, Some(Z));
    assert_eq!(report.message.unwrap().to_text(), CONNECTED);
    assert!(!report.bad_ip);
    assert!(parser.process_line(&settings, Some(Z)).message.is_none());
}

#[test]
fn space_around_a_line_does_not_count() {
    let settings = settings(true, false, "");
    let plain = [A, SUMMARY, B, "X-Forwarded-For: 9.9.9.9", H, VIOLATION, Z];
    let spaced: Vec<String> = plain.iter().map(|line| format!(" \t{}\t\r ", line)).collect();
    let spaced: Vec<&str> = spaced.iter().map(|line| line.as_str()).collect();
    assert_eq!(logged(&settings, &spaced), logged(&settings, &plain));
    assert_eq!(logged(&settings, &spaced).len(), 1);
}

fn bad_ips(settings: &Settings, lines: &[&str]) -> Vec<bool> {
    let mut parser = AuditParser::new();
    lines.iter().map(|line| parser.process_line(settings, Some(line)).bad_ip).collect()
}

#[test]
fn a_bad_address_of_the_client_is_reported() {
    let settings = settings(true, true, "");
    let bad_client = "[02/Jan/2024:03:04:05 -0500] 1.2 203.0.113 51234 192.0.2.1 443";
    let bad_time = "[32/Jan/2024:03:04:05 -0500] 1.2 203.0.113 51234 192.0.2.1 443";
    assert_eq!(
        bad_ips(&settings, &[bad_client, A, bad_client, bad_time, SUMMARY, B, bad_client]),
        vec![false, false, true, false, false, false, false]
    );
    let bad_header = "CF-Connecting-IP: 8.8.8";
    let header = "CF-Connecting-IP: 8.8.8.8";
    let forwarded = "X-Forwarded-For: 9.9.9";
    assert_eq!(
        bad_ips(&settings, &[B, bad_header, forwarded, bad_header, header, bad_header, Z]),
        vec![false, true, false, true, false, false, false]
    );
}

#[test]
fn a_header_that_is_not_looked_for_is_not_reported() {
    assert_eq!(
        bad_ips(&settings(true, false, ""), &[B, "CF-Connecting-IP: 8.8.8"]),
        vec![false, false]
    );
    assert_eq!(
        bad_ips(&settings(false, true, ""), &[B, "CF-Connecting-IP: 8.8.8"]),
        vec![false, false]
    );
}

#[test]
fn what_was_read_is_taken_note_of() {
    let settings = settings(true, true, "");
    let mut parser = AuditParser::new();
    parser.enter_section(&settings, Section::B);
    parser.note_connection(None, Some(IpAddress::V4(1)));
    parser.note_connection(Some("now".to_string()), Some(IpAddress::V4(2)));
    parser.note_forwarded(&vec![Some(IpAddress::V4(3)), None]);
    parser.note_connecting_ip(None);
    parser.note_violation(&RuleViolation {
        hostname: "h".to_string(),
        uri: "/u".to_string(),
        rule_id: "7".to_string(),
        msg: "m".to_string(),
    });
    parser.enter_section(&settings, Section::Z);
    assert_eq!(
        parser.finish().unwrap().to_text(),
        "[now] [client 0.0.0.3] [uri h/u] [id 7] [msg m]"
    );
    assert!(parser.finish().is_none());
    parser.note_connection(Some("now".to_string()), None);
    parser.note_connecting_ip(Some(IpAddress::V6(1)));
    assert!(parser.finish().is_none());
    parser.note_connection(Some("now".to_string()), None);
    parser.note_connecting_ip(Some(IpAddress::V6(1)));
    parser.note_violation(&RuleViolation {
        hostname: String::new(),
        uri: String::new(),
        rule_id: String::new(),
        msg: String::new(),
    });
    assert_eq!(parser.finish().unwrap().to_text(), "[now] [client ::1] [uri ] [id ] [msg ]");
}

#[test]
fn what_is_logged_is_a_single_line() {
    let settings = settings(true, false, "");
    let lines = [A, SUMMARY, B, "X-Forwarded-For: 2001:db8::1", H, VIOLATION, OTHER_VIOLATION, Z];
    let logged = logged(&settings, &lines);
    assert_eq!(logged.len(), 1);
    assert!(logged[0].starts_with("[2024-01-02 03:04:05 -05:00] [client 2001:db8::1] [uri "));
    assert!(!logged[0].contains('\n'));
}

#[test]
fn log_messages() {
    let messages = vec!["a".to_string(), "b".to_string()];
    let message: LogMessage =
        build_log_message(Some("now".to_string()), Some(IpAddress::V4(1)), &messages).unwrap();
    assert_eq!(message.datetime, "now");
    assert_eq!(message.client_ip, IpAddress::V4(1));
    assert_eq!(message.messages, "a, b");
    assert_eq!(message.to_text(), "[now] [client 0.0.0.1] a, b");
    assert_eq!(
        build_log_message(None, Some(IpAddress::V4(1)), &messages).unwrap_err(),
        "Could not create log message."
    );
    assert_eq!(
        build_log_message(Some("now".to_string()), None, &messages).unwrap_err(),
        "Could not create log message."
    );
    for messages in [vec![], vec![String::new()]] {
        assert_eq!(
            build_log_message(Some("now".to_string()), Some(IpAddress::V4(1)), &messages)
                .unwrap_err(),
            "Could not create log message."
        );
    }
    assert_eq!(violation_message("h", "/u", "7", "m"), "[uri h/u] [id 7] [msg m]");
}
