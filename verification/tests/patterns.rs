use audit_watchdog::datetime::read_datetime;
use audit_watchdog::pattern::{
    read_connecting_ip, read_connection_summary, read_forwarded_ips, read_rule_violation,
    read_section_head,
};
use audit_watchdog::section::Section;

const SUMMARY: &str =
    "[02/Jan/2024:03:04:05 -0500] 170416464512.345678 203.0.113.7 51234 192.0.2.1 443";

const VIOLATION: &str = "ModSecurity: Warning. Matched \"Operator `Rx'\" [file \"a.conf\"] \
[line \"1\"] [id \"941100\"] [rev \"\"] [msg \"XSS Attack Detected via libinjection\"] \
[data \"x\"] [severity \"2\"] [hostname \"example.com\"] [uri \"/index.php\"] \
[unique_id \"170416464512.345678\"]";

#[test]
fn section_heads() {
    let letters = "ABCDEFGHIJKZ";
    for letter in letters.chars() {
        let section = Section::from_letter(letter);
        assert!(section.is_some());
        assert_eq!(read_section_head(&format!("---abCD1234---{}--", letter)), section);
    }
    assert_eq!(read_section_head("---abCD1234---A--"), Some(Section::A));
    assert_eq!(read_section_head("---abCD1234---Z--"), Some(Section::Z));
}

#[test]
fn what_is_no_section_head() {
    for text in [
        "",
        "---abCD1234---L--",
        "---abCD1234---a--",
        "---abCD123---A--",
        "---abCD12345---A--",
        "---abCD123\u{e9}---A--",
        "--abCD1234---A--",
        "---abCD1234---A---",
        " ---abCD1234---A--",
        "---abCD1234---A--\n",
    ] {
        assert_eq!(read_section_head(text), None, "{}", text);
    }
    assert_eq!(Section::from_letter('L'), None);
    assert_eq!(Section::from_letter('a'), None);
}

#[test]
fn connection_summaries() {
    let summary = read_connection_summary(SUMMARY).unwrap();
    assert_eq!(summary.datetime, "02/Jan/2024:03:04:05 -0500");
    assert_eq!(summary.ip, "203.0.113.7");
    let summary =
        read_connection_summary("[2/jAN/2024:3:4:5\t5] 1.2 2001:DB8::1 1 :: 2").unwrap();
    assert_eq!(summary.datetime, "2/jAN/2024:3:4:5\t5");
    assert_eq!(summary.ip, "2001:DB8::1");
    let summary =
        read_connection_summary("[2/\u{17f}\u{212a}z/2024:3:4:5 5] 1.2 1 1 1 2").unwrap();
    assert_eq!(summary.datetime, "2/\u{17f}\u{212a}z/2024:3:4:5 5");
    assert_eq!(summary.ip, "1");
    let summary = read_connection_summary(
        "[02/Jan/2024:03:04:05 +0500] 1.2 203.0.113.7 51234 192.0.2.1 443",
    )
    .unwrap();
    assert_eq!(summary.datetime, "02/Jan/2024:03:04:05 +0500");
    assert_eq!(summary.ip, "203.0.113.7");
}

#[test]
fn what_is_no_connection_summary() {
    for text in [
        "",
        "[02/Jan/2024:03:04:05 Z] 1.2 203.0.113.7 51234 192.0.2.1 443",
        "[02/Jan/2024:03:04:05 -0500] 12 203.0.113.7 51234 192.0.2.1 443",
        "[02/Jan/2024:03:04:05 -0500] 1.2.3 203.0.113.7 51234 192.0.2.1 443",
        "[02/Jan/2024:03:04:05 -0500]  1.2 203.0.113.7 51234 192.0.2.1 443",
        "[02/Jan/2024:03:04:05 -0500] 1.2 203.0.113.7 51234 192.0.2.1 443 ",
        "[02/Jan/2024:03:04:05 -0500] 1.2 203.0.113.7 51234 192.0.2.1",
        "[02/Jan/2024:03:04:05 -0500] 1.2 host 51234 192.0.2.1 443",
        "[02/Jan/2024:03:04:05 -0500] 1.2 20:3.1 51234 192.0.2.1 443",
        "[02/Janu/2024:03:04:05 -0500] 1.2 203.0.113.7 51234 192.0.2.1 443",
        "[02/Jan/24:03:04:05 -0500] 1.2 203.0.113.7 51234 192.0.2.1 443",
        "[002/Jan/2024:03:04:05 -0500] 1.2 203.0.113.7 51234 192.0.2.1 443",
        "[02/Jan/2024:03:04 -0500] 1.2 203.0.113.7 51234 192.0.2.1 443",
        "[02/Jan/2024:03:04:05 ] 1.2 203.0.113.7 51234 192.0.2.1 443",
        "02/Jan/2024:03:04:05 -0500 1.2 203.0.113.7 51234 192.0.2.1 443",
    ] {
        assert!(read_connection_summary(text).is_none(), "{}", text);
    }
}

#[test]
fn connecting_ips() {
    assert_eq!(read_connecting_ip("CF-Connecting-IP: 1.2.3.4"), Some("1.2.3.4".to_string()));
    assert_eq!(read_connecting_ip("cf-connecting-ip:\t  FE80::a"), Some("FE80::a".to_string()));
    assert_eq!(read_connecting_ip("cf-connecting-ip: ..."), Some("...".to_string()));
    for text in [
        "",
        "cf-connecting-ip:",
        "cf-connecting-ip: ",
        "cf-connecting-ip:1.2.3.4",
        "cf-connecting-ip: 1.2.3.4 ",
        "cf-connecting-ip: 1.2.3.4, 5.6.7.8",
        "cf-connecting-ip: ::1.2.3.4",
        "x-cf-connecting-ip: 1.2.3.4",
        "cf-connecting-ip: g",
    ] {
        assert_eq!(read_connecting_ip(text), None, "{}", text);
    }
}

#[test]
fn forwarded_ips() {
    assert_eq!(read_forwarded_ips("X-Forwarded-For: 1.2.3.4"), Some("1.2.3.4".to_string()));
    assert_eq!(
        read_forwarded_ips("x-forwarded-for:  1.2.3.4,::1,  5.6.7.8"),
        Some("1.2.3.4,::1,  5.6.7.8".to_string())
    );
    for text in [
        "",
        "x-forwarded-for: ",
        "x-forwarded-for: 1.2.3.4,",
        "x-forwarded-for: ,1.2.3.4",
        "x-forwarded-for: 1.2.3.4 ,5.6.7.8",
        "x-forwarded-for: 1.2.3.4, unknown",
        "x-forwarded-for: 1.2.3.4 5.6.7.8",
    ] {
        assert_eq!(read_forwarded_ips(text), None, "{}", text);
    }
}

#[test]
fn rule_violations() {
    let violation = read_rule_violation(VIOLATION).unwrap();
    assert_eq!(violation.hostname, "example.com");
    assert_eq!(violation.uri, "/index.php");
    assert_eq!(violation.rule_id, "941100");
    assert_eq!(violation.msg, "XSS Attack Detected via libinjection");
    for text in [
        "",
        "Apache-Error: [id \"1\"] [msg \"m\"] [hostname \"h\"] [uri \"u\"]",
        "ModSecurity: [id \"x\"] [msg \"m\"] [hostname \"h\"] [uri \"u\"]",
        "ModSecurity: [id \"1\"] [msg \"\"] [hostname \"h\"] [uri \"u\"]",
        "ModSecurity: [id \"1\"] [hostname \"h\"] [uri \"u\"]",
        "ModSecurity: [id \"1\"] [msg \"m\"] [hostname \"h\"]",
        "ModSecurity: [id \"1\"] [msg \"a\"b\"] [hostname \"h\"] [uri \"u\"]",
        "ModSecurity: [id \"1\"] [msg \"m\"] [hostname \"h h\"] [uri \"u\"]",
        "ModSecurity: \n [id \"1\"] [msg \"m\"] [hostname \"h\"] [uri \"u\"]",
        "modsecurity: [id \"1\"] [msg \"m\"] [hostname \"h\"] [uri \"u\"]",
        "ModSecurity [id \"1\"] [msg \"m\"] [hostname \"h\"] [uri \"u\"]",
        "M",
    ] {
        assert!(read_rule_violation(text).is_none(), "{}", text);
    }
}

#[test]
fn plain_messages_are_always_read() {
    for code in (b' '..=b'~').filter(|code| *code != b'"') {
        let msg = format!("a{}b", code as char);
        let line = format!(
            "ModSecurity:[id\t\"1\"]x[msg \n\"{}\"][hostname  \"h\"] [uri \"/u\"]y",
            msg
        );
        let violation = read_rule_violation(&line).unwrap();
        assert_eq!(violation.msg, msg);
        assert_eq!(violation.rule_id, "1");
        assert_eq!(violation.hostname, "h");
        assert_eq!(violation.uri, "/u");
    }
}

#[test]
fn the_last_violation_on_a_line_is_read() {
    let violation = read_rule_violation(
        "ModSecurity: [id \"1\"] [id \"2\"] [msg \"a\"] [msg \"b\"] [hostname \"h\"] [uri \"/\"]",
    )
    .unwrap();
    assert_eq!(violation.rule_id, "2");
    assert_eq!(violation.msg, "b");
    let violation = read_rule_violation(
        "ModSecurity: [id \"1\"] [msg \"m\"] [hostname \"a\"] [uri \"/1\"] \
[hostname \"b\"] [uri \"/2\"]",
    )
    .unwrap();
    assert_eq!(violation.hostname, "b");
    assert_eq!(violation.uri, "/2");
}

#[test]
fn a_field_counts_only_where_the_others_follow() {
    let violation = read_rule_violation(
        "ModSecurity: [id \"1\"] [msg \"a\"] [id \"2\"] [hostname \"h\"] [uri \"/\"] [msg \"b\"]",
    )
    .unwrap();
    assert_eq!(violation.rule_id, "1");
    assert_eq!(violation.msg, "a");
}

#[test]
fn the_longest_path_is_read() {
    let violation = read_rule_violation(
        "ModSecurity: [id \"1\"] [msg \"m\"] [hostname \"h\"] [uri \"/a\"]b\"] [x \"y\"]",
    )
    .unwrap();
    assert_eq!(violation.hostname, "h");
    assert_eq!(violation.uri, "/a\"]b");
}

#[test]
fn messages_in_other_letters() {
    let violation = read_rule_violation(
        "ModSecurity: [id \"1\"] [msg \"a\"] [msg \"\u{e9}\"] [hostname \"h\"] [uri \"/\"]",
    )
    .unwrap();
    assert_eq!(violation.msg, "\u{e9}");
    let violation = read_rule_violation(
        "ModSecurity: [id \"1\"] [msg \"a\"] [msg \"\u{20ac}\"] [hostname \"h\"] [uri \"/\"]",
    )
    .unwrap();
    assert_eq!(violation.msg, "a");
}

#[test]
fn datetimes() {
    assert_eq!(
        read_datetime("02/Jan/2024:03:04:05 -0500"),
        Some("2024-01-02 03:04:05 -05:00".to_string())
    );
    assert_eq!(
        read_datetime("2/feb/2024:3:4:5 +0000"),
        Some("2024-02-02 03:04:05 +00:00".to_string())
    );
    for text in [
        "",
        "30/Feb/2024:03:04:05 -0500",
        "02/Jan/2024:25:04:05 -0500",
        "02/Jan/2024:03:04:05 5",
    ] {
        assert_eq!(read_datetime(text), None, "{}", text);
    }
}
