//! What a single line of an audit log says. The lines are told apart by regular expressions.
use crate::section::{section_of, Section};
use crate::text::{
    any_white_space, is_number, is_numeric, is_piece_of, is_white_space, lemma_first_part_starts,
    split_at_char, split_at_commas, split_at_white_space, trimmed_start,
};
use crate::violation::{
    has_violation, is_plain, law_a_plain_line_has_at_most_one_violation,
    lemma_violation_is_reported, lemma_violation_starts, reports_violation,
};
use vstd::prelude::*;

verus! {

/// The head of a section.
pub const SECTION_HEAD: &'static str = r#"^---(?P<tid>[a-zA-Z0-9]{8})---(?P<section>[A-KZ])--$"#;

/// The connection summary in section A.
pub const CONNECTION_SUMMARY: &'static str = r#"^(?i)\[(?P<datetime>[0-9]{1,2}/[a-z]{3}/[0-9]{4}:[0-9]{1,2}:[0-9]{1,2}:[0-9]{1,2}\s[0-9+\-]+)\]\s[0-9]+\.[0-9]+\s(?P<ip>(?:[0-9\.]+|[0-9a-f:]+))\s[0-9]+\s(?:(?:[0-9\.]+|[0-9a-f:]+))\s[0-9]+$"#;

/// The request header in section B by which CloudFlare names the client.
pub const CONNECTING_IP: &'static str =
    r#"^(?i)cf-connecting-ip:\s+(?P<ip>(?:(?:[0-9\.]+)|(?:[a-f0-9:]+)))$"#;

/// The request header in section B by which proxies name the client and each other.
pub const FORWARDED_FOR: &'static str =
    r#"^(?i)x-forwarded-for:\s+(?P<ips>(?:(?:(?:[0-9\.]+)|(?:[a-f0-9:]+)))(?:,\s*(?:(?:[0-9\.]+)|(?:[a-f0-9:]+)))*)$"#;

/// A rule violation in section H.
pub const RULE_VIOLATION: &'static str = r#"^ModSecurity:.*\[id\s+"(?P<ruleid>[0-9]+)"\].*\[msg\s+"(?P<msg>[\d\w\s`~!@#$%^&*()\-_=+\[{\]};:',<.>/\?\\\|]+)"\].*\[hostname\s+"(?P<hostname>\S+)"\]\s+\[uri\s+"(?P<uri>\S+)"\].*$"#;

/// Whether `pattern` is one of the patterns above and has a group of that name, which then takes
/// part in every match.
pub open spec fn has_group(pattern: Seq<char>, group: Seq<char>) -> bool {
    ||| pattern == SECTION_HEAD@ && (group == "tid"@ || group == "section"@)
    ||| pattern == CONNECTION_SUMMARY@ && (group == "datetime"@ || group == "ip"@)
    ||| pattern == CONNECTING_IP@ && group == "ip"@
    ||| pattern == FORWARDED_FOR@ && group == "ips"@
    ||| pattern == RULE_VIOLATION@ && (group == "ruleid"@ || group == "msg"@ || group
        == "hostname"@ || group == "uri"@)
}

/// The texts of the groups in the match that regex finds for a pattern in a text; `None` where
/// it finds no match.
pub uninterp spec fn regex_captures(
    pattern: Seq<char>,
    groups: Seq<Seq<char>>,
    text: Seq<char>,
) -> Option<Seq<Seq<char>>>;

/// An ASCII letter or digit.
pub open spec fn is_alphanumeric(c: char) -> bool {
    'a' <= c <= 'z' || 'A' <= c <= 'Z' || '0' <= c <= '9'
}

/// `c`, or its small letter where it is an ASCII capital letter.
pub open spec fn lower(c: char) -> char {
    if 'A' <= c <= 'Z' {
        (c as u32 + 32) as char
    } else {
        c
    }
}

/// Whether `text` starts with `name`, in capital or small letters, and goes on behind it.
pub open spec fn has_name(text: Seq<char>, name: Seq<char>) -> bool {
    text.len() > name.len() && forall|i: int|
        0 <= i < name.len() ==> lower(#[trigger] text[i]) == name[i]
}

/// Whether `text` is the head of a section: three dashes, eight letters or digits, three dashes,
/// the letter of a section, two dashes.
pub open spec fn is_section_head(text: Seq<char>) -> bool {
    &&& text.len() == 17
    &&& forall|i: int|
        0 <= i < 3 || 11 <= i < 14 || 15 <= i < 17 ==> #[trigger] text[i] == '-'
    &&& forall|i: int| 3 <= i < 11 ==> is_alphanumeric(#[trigger] text[i])
    &&& section_of(text[14]) is Some
}

/// The section that `text` is the head of.
pub open spec fn headed_section(text: Seq<char>) -> Option<Section> {
    if is_section_head(text) {
        section_of(text[14])
    } else {
        None
    }
}

/// Whether `text` is made of what an address is made of: of digits and dots, or of hexadecimal
/// digits and colons.
pub open spec fn looks_like_ip(text: Seq<char>) -> bool {
    &&& text.len() > 0
    &&& {
        ||| forall|i: int|
            0 <= i < text.len() ==> ('0' <= #[trigger] text[i] <= '9' || text[i] == '.')
        ||| forall|i: int|
            0 <= i < text.len() ==> ('0' <= #[trigger] text[i] <= '9' || 'a' <= lower(text[i])
                <= 'f' || text[i] == ':')
    }
}

/// The value of the header `name` where `text` is such a header: the name, in capital or small
/// letters, with white space behind it.
pub open spec fn header_value(text: Seq<char>, name: Seq<char>) -> Option<Seq<char>> {
    if has_name(text, name) && is_white_space(text[name.len() as int]) {
        Some(trimmed_start(text.skip(name.len() as int)))
    } else {
        None
    }
}

/// The address that `text` names where it is the header of CloudFlare.
pub open spec fn connecting_ip(text: Seq<char>) -> Option<Seq<char>> {
    match header_value(text, "cf-connecting-ip:"@) {
        Some(value) => if looks_like_ip(value) {
            Some(value)
        } else {
            None
        },
        None => None,
    }
}

/// Whether `text` is a list of what looks like addresses, with commas between them and white
/// space only behind the commas.
pub open spec fn is_ip_list(text: Seq<char>) -> bool {
    let parts = split_at_commas(text);
    &&& looks_like_ip(parts[0])
    &&& forall|i: int| 0 < i < parts.len() ==> looks_like_ip(trimmed_start(#[trigger] parts[i]))
}

/// The list of addresses that `text` holds where it is the header of the proxies.
pub open spec fn forwarded_ips(text: Seq<char>) -> Option<Seq<char>> {
    match header_value(text, "x-forwarded-for:"@) {
        Some(value) => if is_ip_list(value) {
            Some(value)
        } else {
            None
        },
        None => None,
    }
}

/// Whether `c` is a letter from a to z when capital and small letters count as the same. The
/// long s and the sign of the unit kelvin count as the letters s and k.
pub open spec fn is_letter(c: char) -> bool {
    'a' <= lower(c) <= 'z' || c == '\u{17f}' || c == '\u{212a}'
}

/// Whether `text` looks like a date and a time of day: `day/month/year:hour:minute:second`, the
/// month in three letters.
pub open spec fn looks_like_date(text: Seq<char>) -> bool {
    let date = split_at_char(text, '/');
    let time = split_at_char(date[2], ':');
    &&& date.len() == 3
    &&& is_number(date[0], 1, 2)
    &&& date[1].len() == 3
    &&& forall|i: int| 0 <= i < 3 ==> is_letter(#[trigger] date[1][i])
    &&& time.len() == 4
    &&& is_number(time[0], 4, 4)
    &&& forall|i: int| 1 <= i < 4 ==> is_number(#[trigger] time[i], 1, 2)
}

/// Whether `text` looks like an offset from universal time: digits, plus signs and dashes.
pub open spec fn looks_like_offset(text: Seq<char>) -> bool {
    &&& text.len() > 0
    &&& forall|i: int|
        0 <= i < text.len() ==> ('0' <= #[trigger] text[i] <= '9' || text[i] == '+' || text[i]
            == '-')
}

/// Whether `text` is two numbers with a dot between them.
pub open spec fn is_dotted_pair(text: Seq<char>) -> bool {
    let numbers = split_at_char(text, '.');
    numbers.len() == 2 && is_numeric(numbers[0]) && is_numeric(numbers[1])
}

/// Whether the fields are those of a connection summary: the date, the offset from universal time,
/// the number of the transaction, the address and port of the client, the address and port of the
/// server. The date and the offset together stand in square brackets.
pub open spec fn is_connection_summary(fields: Seq<Seq<char>>) -> bool {
    &&& fields.len() == 7
    &&& fields[0].len() > 0 && fields[0].first() == '[' && looks_like_date(fields[0].drop_first())
    &&& fields[1].len() > 0 && fields[1].last() == ']' && looks_like_offset(fields[1].drop_last())
    &&& is_dotted_pair(fields[2])
    &&& looks_like_ip(fields[3])
    &&& is_numeric(fields[4])
    &&& looks_like_ip(fields[5])
    &&& is_numeric(fields[6])
}

/// What stands between the square brackets, and the address of the client, where `text` is a
/// connection summary.
pub open spec fn connection_summary(text: Seq<char>) -> Option<(Seq<char>, Seq<char>)> {
    let fields = split_at_white_space(text);
    if is_connection_summary(fields) {
        Some((text.subrange(1, (fields[0].len() + fields[1].len()) as int), fields[3]))
    } else {
        None
    }
}

/// The host, the path, the number of the rule and its message in a rule violation.
pub open spec fn rule_violation(text: Seq<char>) -> Option<Seq<Seq<char>>> {
    if "ModSecurity:"@.is_prefix_of(text) {
        regex_captures(RULE_VIOLATION@, seq!["hostname"@, "uri"@, "ruleid"@, "msg"@], text)
    } else {
        None
    }
}

/// Whether what is found in `text` is what a rule violation has to say: what is found are the
/// fields to take of it, and where it has fields with a plain message, something is found.
pub open spec fn violation_is_read(text: Seq<char>) -> bool {
    &&& rule_violation(text) matches Some(found) ==> found.len() == 4 && has_violation(
        text,
        found[0],
        found[1],
        found[2],
        found[3],
    )
    &&& forall|hostname: Seq<char>, uri: Seq<char>, rule_id: Seq<char>, msg: Seq<char>|
        #[trigger] reports_violation(text, hostname, uri, rule_id, msg) && is_plain(msg)
            ==> rule_violation(text) is Some
}

/// In a plain text there is no choice: the fields to take are what is found.
pub proof fn law_violation_of_a_plain_text_is_found(
    text: Seq<char>,
    hostname: Seq<char>,
    uri: Seq<char>,
    rule_id: Seq<char>,
    msg: Seq<char>,
)
    requires
        violation_is_read(text),
        is_plain(text),
        has_violation(text, hostname, uri, rule_id, msg),
    ensures
        rule_violation(text) == Some(seq![hostname, uri, rule_id, msg]),
{
    lemma_violation_is_reported(text, hostname, uri, rule_id, msg);
    let found = rule_violation(text)->0;
    law_a_plain_line_has_at_most_one_violation(
        text,
        hostname,
        uri,
        rule_id,
        msg,
        found[0],
        found[1],
        found[2],
        found[3],
    );
    assert(found =~= seq![hostname, uri, rule_id, msg]);
}

/// The host, the path, the number and the message of a rule violation are what regex finds for the
/// groups of these names; in a text that does not start with the name of ModSecurity nothing is
/// looked for.
pub proof fn law_a_violation_is_what_regex_finds(text: Seq<char>)
    ensures
        rule_violation(text) == if "ModSecurity:"@.is_prefix_of(text) {
            regex_captures(
                r#"^ModSecurity:.*\[id\s+"(?P<ruleid>[0-9]+)"\].*\[msg\s+"(?P<msg>[\d\w\s`~!@#$%^&*()\-_=+\[{\]};:',<.>/\?\\\|]+)"\].*\[hostname\s+"(?P<hostname>\S+)"\]\s+\[uri\s+"(?P<uri>\S+)"\].*$"#@,
                seq!["hostname"@, "uri"@, "ruleid"@, "msg"@],
                text,
            )
        } else {
            None
        },
{
}

/// What the other patterns look for, letter by letter.
pub proof fn law_what_the_patterns_look_for()
    ensures
        SECTION_HEAD@ == r#"^---(?P<tid>[a-zA-Z0-9]{8})---(?P<section>[A-KZ])--$"#@,
        CONNECTION_SUMMARY@
            == r#"^(?i)\[(?P<datetime>[0-9]{1,2}/[a-z]{3}/[0-9]{4}:[0-9]{1,2}:[0-9]{1,2}:[0-9]{1,2}\s[0-9+\-]+)\]\s[0-9]+\.[0-9]+\s(?P<ip>(?:[0-9\.]+|[0-9a-f:]+))\s[0-9]+\s(?:(?:[0-9\.]+|[0-9a-f:]+))\s[0-9]+$"#@,
        CONNECTING_IP@
            == r#"^(?i)cf-connecting-ip:\s+(?P<ip>(?:(?:[0-9\.]+)|(?:[a-f0-9:]+)))$"#@,
        FORWARDED_FOR@
            == r#"^(?i)x-forwarded-for:\s+(?P<ips>(?:(?:(?:[0-9\.]+)|(?:[a-f0-9:]+)))(?:,\s*(?:(?:[0-9\.]+)|(?:[a-f0-9:]+)))*)$"#@,
{
}

/// A text that does not start like the name of ModSecurity is no rule violation.
pub proof fn lemma_no_violation(text: Seq<char>)
    ensures
        text.len() == 0 || text[0] != 'M' ==> rule_violation(text) is None && violation_is_read(
            text,
        ),
{
    reveal_strlit("ModSecurity:");
    if "ModSecurity:"@.is_prefix_of(text) {
        assert(text[0] == "ModSecurity:"@[0]);
    }
    assert forall|hostname: Seq<char>, uri: Seq<char>, rule_id: Seq<char>, msg: Seq<char>|
        #[trigger] reports_violation(
            text,
            hostname,
            uri,
            rule_id,
            msg,
        ) implies "ModSecurity:"@.is_prefix_of(text) by {
        lemma_violation_starts(text, hostname, uri, rule_id, msg);
    }
}

/// `Regex::new` and `Regex::captures` of regex, and the texts of the groups in the match. What is
/// found goes by the name `regex_captures`, and every group is a piece of the text. Four of the
/// patterns have a meaning that can be said in short; for these the groups are given outright. The
/// groups of a rule violation are the fields with their labels. A line that has such fields, with a
/// plain message, is always found. Where it has several of them, those are taken that make the gaps
/// before the number, the message and the host, in this order, as long as can be, and then the path
/// as long as can be, so that no way to read the line with a plain message is better: the
/// repetitions of the pattern are greedy, and what they do not decide has one reading only. Which
/// other characters a message can have is left to the name.
#[verifier::external_body]
fn captures(pattern: &str, groups: &[&str], text: &str) -> (r: Option<Vec<String>>)
    requires
        groups@.len() > 0,
        forall|i: int| 0 <= i < groups@.len() ==> has_group(pattern@, #[trigger] groups@[i]@),
    ensures
        r.deep_view() == regex_captures(pattern@, groups.deep_view(), text@),
        r matches Some(found) ==> found@.len() == groups@.len() && forall|i: int|
            0 <= i < found@.len() ==> is_piece_of(#[trigger] found@[i]@, text@),
        pattern@ == SECTION_HEAD@ && groups.deep_view() == seq!["section"@] ==> r.deep_view()
            == if is_section_head(text@) {
            Some(seq![seq![text@[14]]])
        } else {
            None
        },
        pattern@ == CONNECTION_SUMMARY@ && groups.deep_view() == seq!["datetime"@, "ip"@]
            ==> r.deep_view() == match connection_summary(text@) {
            Some((datetime, ip)) => Some(seq![datetime, ip]),
            None => None,
        },
        pattern@ == CONNECTING_IP@ && groups.deep_view() == seq!["ip"@] ==> r.deep_view()
            == match connecting_ip(text@) {
            Some(ip) => Some(seq![ip]),
            None => None,
        },
        pattern@ == FORWARDED_FOR@ && groups.deep_view() == seq!["ips"@] ==> r.deep_view()
            == match forwarded_ips(text@) {
            Some(ips) => Some(seq![ips]),
            None => None,
        },
        pattern@ == RULE_VIOLATION@ && groups.deep_view() == seq![
            "hostname"@,
            "uri"@,
            "ruleid"@,
            "msg"@,
        ] ==> (r matches Some(found) ==> has_violation(
            text@,
            found@[0]@,
            found@[1]@,
            found@[2]@,
            found@[3]@,
        )),
        pattern@ == RULE_VIOLATION@ ==> forall|
            hostname: Seq<char>,
            uri: Seq<char>,
            rule_id: Seq<char>,
            msg: Seq<char>,
        |
            #[trigger] reports_violation(text@, hostname, uri, rule_id, msg) && is_plain(msg)
                ==> r is Some,
{
    let regex = regex::Regex::new(pattern).unwrap();
    let captures = regex.captures(text)?;
    Some(groups.iter().map(|group| captures[*group].to_string()).collect())
}

/// Whether `text` starts with `first`. Most lines are told apart by how they start, so that no
/// pattern has to be built for them.
fn starts_with(text: &str, first: char) -> (r: bool)
    ensures
        r == (text@.len() > 0 && text@[0] == first),
{
    !text.is_empty() && text.get_char(0) == first
}

/// The small letter of `c` where it is an ASCII capital letter, and else `c`.
fn to_lower(c: char) -> (r: char)
    ensures
        r == lower(c),
{
    if 'A' <= c && c <= 'Z' {
        (c as u8 + 32) as char
    } else {
        c
    }
}

/// Whether `text` starts with the name of a header, so that a pattern has to be built for it.
fn starts_with_name(text: &str, name: &str) -> (r: bool)
    ensures
        r == has_name(text@, name@),
{
    let len: usize = name.unicode_len();
    if text.unicode_len() <= len {
        return false;
    }
    for i in 0..len
        invariant
            len == name@.len() < text@.len(),
            forall|j: int| 0 <= j < i ==> lower(#[trigger] text@[j]) == name@[j],
    {
        if to_lower(text.get_char(i)) != name.get_char(i) {
            return false;
        }
    }
    true
}

/// The one text that was found for a single group.
fn only(found: Option<Vec<String>>) -> (text: Option<String>)
    requires
        found matches Some(texts) ==> texts@.len() == 1,
    ensures
        text.deep_view() == match found.deep_view() {
            Some(texts) => Some(texts[0]),
            None => None,
        },
{
    match found {
        Some(texts) => Some(texts[0].clone()),
        None => None,
    }
}

/// Reads `text` as the head of a section.
pub fn read_section_head(text: &str) -> (section: Option<Section>)
    ensures
        section == headed_section(text@),
{
    if !starts_with(text, '-') {
        return None;
    }
    let groups = ["section"];
    assert(groups.deep_view() =~= seq!["section"@]);
    match only(captures(SECTION_HEAD, &groups, text)) {
        Some(letter) => Section::from_letter(letter.as_str().get_char(0)),
        None => None,
    }
}

/// Reads `text` as the header by which CloudFlare names the client: the address, as it stands
/// there.
pub fn read_connecting_ip(text: &str) -> (ip: Option<String>)
    ensures
        ip.deep_view() == connecting_ip(text@),
{
    if !starts_with_name(text, "cf-connecting-ip:") {
        return None;
    }
    let groups = ["ip"];
    assert(groups.deep_view() =~= seq!["ip"@]);
    only(captures(CONNECTING_IP, &groups, text))
}

/// Reads `text` as the header by which proxies name the client and each other: the list of
/// addresses, as it stands there.
pub fn read_forwarded_ips(text: &str) -> (ips: Option<String>)
    ensures
        ips.deep_view() == forwarded_ips(text@),
{
    if !starts_with_name(text, "x-forwarded-for:") {
        return None;
    }
    let groups = ["ips"];
    assert(groups.deep_view() =~= seq!["ips"@]);
    only(captures(FORWARDED_FOR, &groups, text))
}

/// What a connection summary says: the time of the transaction and the address at the other end
/// of the connection, as they stand there.
pub struct ConnectionSummary {
    pub datetime: String,
    pub ip: String,
}

/// What a rule violation says.
pub struct RuleViolation {
    pub hostname: String,
    pub uri: String,
    pub rule_id: String,
    pub msg: String,
}

/// Reads `text` as a connection summary.
pub fn read_connection_summary(text: &str) -> (summary: Option<ConnectionSummary>)
    ensures
        connection_summary(text@) == match summary {
            Some(summary) => Some((summary.datetime@, summary.ip@)),
            None => None,
        },
{
    proof {
        lemma_first_part_starts(text@, any_white_space());
    }
    if !starts_with(text, '[') {
        return None;
    }
    let groups = ["datetime", "ip"];
    assert(groups.deep_view() =~= seq!["datetime"@, "ip"@]);
    let found = captures(CONNECTION_SUMMARY, &groups, text);
    match &found {
        Some(texts) => {
            assert(texts.deep_view() =~= seq![texts@[0]@, texts@[1]@]);
            assert(texts.deep_view()[0] == texts@[0]@ && texts.deep_view()[1] == texts@[1]@);
            Some(ConnectionSummary { datetime: texts[0].clone(), ip: texts[1].clone() })
        },
        None => None,
    }
}

/// Reads `text` as a rule violation. Where it has several numbers, messages or hosts, the last ones
/// are taken, as far as they make a rule violation.
pub fn read_rule_violation(text: &str) -> (violation: Option<RuleViolation>)
    ensures
        rule_violation(text@) == match violation {
            Some(violation) => Some(
                seq![violation.hostname@, violation.uri@, violation.rule_id@, violation.msg@],
            ),
            None => None,
        },
        violation matches Some(violation) ==> is_piece_of(violation.hostname@, text@)
            && is_piece_of(violation.uri@, text@) && is_piece_of(violation.rule_id@, text@)
            && is_piece_of(violation.msg@, text@),
        violation_is_read(text@),
{
    proof {
        lemma_no_violation(text@);
    }
    if !starts_with(text, 'M') {
        return None;
    }
    let groups = ["hostname", "uri", "ruleid", "msg"];
    assert(groups.deep_view() =~= seq!["hostname"@, "uri"@, "ruleid"@, "msg"@]);
    let found = captures(RULE_VIOLATION, &groups, text);
    match &found {
        Some(texts) => {
            assert(texts.deep_view() =~= seq![texts@[0]@, texts@[1]@, texts@[2]@, texts@[3]@]);
            proof {
                let (hostname, uri) = (texts@[0]@, texts@[1]@);
                let (rule_id, msg) = (texts@[2]@, texts@[3]@);
                lemma_violation_is_reported(text@, hostname, uri, rule_id, msg);
                lemma_violation_starts(text@, hostname, uri, rule_id, msg);
            }
            Some(
                RuleViolation {
                    hostname: texts[0].clone(),
                    uri: texts[1].clone(),
                    rule_id: texts[2].clone(),
                    msg: texts[3].clone(),
                },
            )
        },
        None => None,
    }
}

} // verus!
