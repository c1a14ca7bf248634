//! Reads an audit log line by line and keeps what the current entry has said so far.
use crate::address::{ip_of, parse_ip, IpAddress};
use crate::datetime::{logged_datetime, read_datetime};
use crate::message::{
    build_log_message, log_record, violation_message, violation_text, LogMessage, LogRecord,
};
use crate::pattern::{
    connecting_ip, connection_summary, forwarded_ips, headed_section, lemma_no_violation,
    read_connecting_ip, read_connection_summary, read_forwarded_ips, read_rule_violation,
    read_section_head, rule_violation, violation_is_read, RuleViolation,
};
use crate::proxies::TrustedProxies;
use crate::section::Section;
use crate::text::{
    is_one_line, lemma_joined_is_one_line, lemma_piece_is_one_line, lemma_trimmed_is_one_line,
    split_at_commas, split_commas, trimmed,
};
use vstd::prelude::*;

verus! {

/// How the client of a transaction is found.
pub struct Settings {
    /// The server is behind a proxy.
    pub proxy: bool,
    /// The header of CloudFlare is looked for.
    pub cf_headers: bool,
    /// The proxies whose word is believed.
    pub trusted_proxies: TrustedProxies,
}

/// Settings as a value.
pub struct SettingsView {
    pub proxy: bool,
    pub cf_headers: bool,
    pub trusted: Set<IpAddress>,
}

impl View for Settings {
    type V = SettingsView;

    open spec fn view(&self) -> SettingsView {
        SettingsView {
            proxy: self.proxy,
            cf_headers: self.cf_headers,
            trusted: self.trusted_proxies@,
        }
    }
}

/// What the current entry has said so far.
#[verifier::ext_equal]
pub struct EntryState {
    /// The section that the next line belongs to.
    pub section: Option<Section>,
    /// The time of the transaction, in the form in which it is logged.
    pub datetime: Option<Seq<char>>,
    /// The client, as far as it is known.
    pub client_ip: Option<IpAddress>,
    /// The rule violations.
    pub messages: Seq<Seq<char>>,
    /// The client was named by CloudFlare.
    pub cfip_match: bool,
    /// The addresses that the headers of the proxies list.
    pub xffip_list: Seq<IpAddress>,
}

impl EntryState {
    /// Whether none of the texts has a line feed in it.
    pub open spec fn is_one_line(self) -> bool {
        &&& self.datetime matches Some(datetime) ==> is_one_line(datetime)
        &&& forall|i: int| 0 <= i < self.messages.len() ==> is_one_line(#[trigger] self.messages[i])
    }
}

/// No entry has begun.
pub open spec fn no_entry() -> EntryState {
    EntryState {
        section: None,
        datetime: None,
        client_ip: None,
        messages: Seq::empty(),
        cfip_match: false,
        xffip_list: Seq::empty(),
    }
}

/// The last address in the list that is not trusted.
pub open spec fn last_untrusted(ips: Seq<IpAddress>, trusted: Set<IpAddress>) -> Option<IpAddress>
    decreases ips.len(),
{
    if ips.len() == 0 {
        None
    } else if !trusted.contains(ips.last()) {
        Some(ips.last())
    } else {
        last_untrusted(ips.drop_last(), trusted)
    }
}

/// The first of the two that is known.
pub open spec fn or_else(first: Option<IpAddress>, second: Option<IpAddress>) -> Option<IpAddress> {
    if first is Some {
        first
    } else {
        second
    }
}

/// Whether the addresses that the proxies list decide on the client at the end of section B.
pub open spec fn review_due(settings: SettingsView, state: EntryState) -> bool {
    &&& settings.proxy
    &&& state.section == Some(Section::B)
    &&& !settings.cf_headers || !state.cfip_match
    &&& state.xffip_list.len() > 0
}

/// The head of a section was read. On leaving section B the client becomes the last listed
/// address that is not trusted, if there is one.
pub open spec fn entered(
    settings: SettingsView,
    state: EntryState,
    section: Section,
) -> EntryState {
    if review_due(settings, state) {
        EntryState {
            section: Some(section),
            client_ip: or_else(
                last_untrusted(state.xffip_list, settings.trusted),
                state.client_ip,
            ),
            ..state
        }
    } else {
        EntryState { section: Some(section), ..state }
    }
}

/// A connection summary was read that gives this time and this address. Without a time the
/// address does not count.
pub open spec fn with_connection(
    state: EntryState,
    datetime: Option<Seq<char>>,
    ip: Option<IpAddress>,
) -> EntryState {
    match datetime {
        Some(_) => EntryState { datetime, client_ip: or_else(ip, state.client_ip), ..state },
        None => state,
    }
}

/// The header of CloudFlare was read and names this client.
pub open spec fn with_connecting_ip(state: EntryState, ip: Option<IpAddress>) -> EntryState {
    match ip {
        Some(_) => EntryState { client_ip: ip, cfip_match: true, ..state },
        None => state,
    }
}

/// A header of the proxies was read and lists these addresses; `None` for a part that is none.
pub open spec fn with_forwarded(state: EntryState, ips: Seq<Option<IpAddress>>) -> EntryState {
    EntryState {
        xffip_list: state.xffip_list + ips.filter_map(|ip: Option<IpAddress>| ip),
        ..state
    }
}

/// A rule violation was read.
pub open spec fn with_violation(
    state: EntryState,
    hostname: Seq<char>,
    uri: Seq<char>,
    rule_id: Seq<char>,
    msg: Seq<char>,
) -> EntryState {
    EntryState {
        messages: state.messages.push(violation_text(hostname, uri, rule_id, msg)),
        ..state
    }
}

/// The addresses in a comma-separated list, in order; `None` for a part that is none.
pub open spec fn listed_ips(list: Seq<char>) -> Seq<Option<IpAddress>> {
    split_at_commas(list).map_values(|part: Seq<char>| ip_of(trimmed(part)))
}

/// A line of section A was read.
pub open spec fn after_line_a(state: EntryState, text: Seq<char>) -> EntryState {
    match connection_summary(text) {
        Some((datetime, ip)) => with_connection(state, logged_datetime(datetime), ip_of(ip)),
        None => state,
    }
}

/// A line of section B was read.
pub open spec fn after_line_b(
    settings: SettingsView,
    state: EntryState,
    text: Seq<char>,
) -> EntryState {
    if !settings.proxy {
        state
    } else if settings.cf_headers && !state.cfip_match && connecting_ip(text) is Some {
        with_connecting_ip(state, ip_of(connecting_ip(text)->0))
    } else {
        match forwarded_ips(text) {
            Some(list) => with_forwarded(state, listed_ips(list)),
            None => state,
        }
    }
}

/// A line of section H was read.
pub open spec fn after_line_h(state: EntryState, text: Seq<char>) -> EntryState {
    match rule_violation(text) {
        Some(found) => with_violation(state, found[0], found[1], found[2], found[3]),
        None => state,
    }
}

/// The entry is over: what is logged for it, if anything.
pub open spec fn finished(state: EntryState) -> Option<LogRecord> {
    log_record(state.datetime, state.client_ip, state.messages)
}

/// A line that is no head of a section was read: what has been said then, and what is logged.
pub open spec fn after_body_line(
    settings: SettingsView,
    state: EntryState,
    text: Seq<char>,
) -> (EntryState, Option<LogRecord>) {
    match state.section {
        Some(Section::A) => (after_line_a(state, text), None),
        Some(Section::B) => (after_line_b(settings, state, text), None),
        Some(Section::H) => (after_line_h(state, text), None),
        Some(Section::Z) => (no_entry(), finished(state)),
        _ => (state, None),
    }
}

/// A line was read, or could not be read: what has been said then, and what is logged. Blank
/// lines and lines that could not be read do not count.
pub open spec fn after_line(
    settings: SettingsView,
    state: EntryState,
    line: Option<Seq<char>>,
) -> (EntryState, Option<LogRecord>) {
    match line {
        None => (state, None),
        Some(line) => {
            let text = trimmed(line);
            if text.len() == 0 {
                (state, None)
            } else {
                match headed_section(text) {
                    Some(Section::Z) => (
                        no_entry(),
                        finished(entered(settings, state, Section::Z)),
                    ),
                    Some(section) => (entered(settings, state, section), None),
                    None => after_body_line(settings, state, text),
                }
            }
        },
    }
}

/// Whether a line of section A gives a time, and for the client what is no address.
pub open spec fn names_no_ip_a(text: Seq<char>) -> bool {
    connection_summary(text) matches Some((datetime, ip)) && logged_datetime(datetime) is Some
        && ip_of(ip) is None
}

/// Whether a line of section B is the header of CloudFlare, where that counts, and gives for the
/// client what is no address.
pub open spec fn names_no_ip_b(
    settings: SettingsView,
    state: EntryState,
    text: Seq<char>,
) -> bool {
    settings.proxy && settings.cf_headers && !state.cfip_match && (connecting_ip(text) matches Some(
        ip,
    ) && ip_of(ip) is None)
}

/// Whether a line should give the address of the client, and gives what is no address.
pub open spec fn names_no_ip(
    settings: SettingsView,
    state: EntryState,
    line: Option<Seq<char>>,
) -> bool {
    match line {
        Some(line) => {
            let text = trimmed(line);
            &&& text.len() > 0 && headed_section(text) is None
            &&& match state.section {
                Some(Section::A) => names_no_ip_a(text),
                Some(Section::B) => names_no_ip_b(settings, state, text),
                _ => false,
            }
        },
        None => false,
    }
}

/// Lines were read one after the other: what has been said then, and what was logged.
pub open spec fn after_lines(
    settings: SettingsView,
    state: EntryState,
    lines: Seq<Option<Seq<char>>>,
) -> (EntryState, Seq<LogRecord>)
    decreases lines.len(),
{
    if lines.len() == 0 {
        (state, Seq::empty())
    } else {
        let (state, logged) = after_lines(settings, state, lines.drop_last());
        let (state, record) = after_line(settings, state, lines.last());
        (
            state,
            match record {
                Some(record) => logged.push(record),
                None => logged,
            },
        )
    }
}

/// Finds the last address in the list that is not trusted.
fn find_last_untrusted(ips: &Vec<IpAddress>, trusted: &TrustedProxies) -> (r: Option<IpAddress>)
    ensures
        r == last_untrusted(ips@, trusted@),
{
    let mut i: usize = ips.len();
    assert(ips@.take(i as int) =~= ips@);
    while i > 0
        invariant
            i <= ips@.len(),
            last_untrusted(ips@, trusted@) == last_untrusted(ips@.take(i as int), trusted@),
        decreases i,
    {
        let ghost rest = ips@.take(i as int);
        i = i - 1;
        assert(rest.last() == ips@[i as int]);
        if !trusted.contains(ips[i]) {
            return Some(ips[i]);
        }
        assert(rest.drop_last() =~= ips@.take(i as int));
    }
    None
}

/// Reads a comma-separated list of addresses.
pub fn read_listed_ips(list: &str) -> (ips: Vec<Option<IpAddress>>)
    ensures
        ips@ == listed_ips(list@),
{
    let parts: Vec<String> = split_commas(list);
    let mut ips: Vec<Option<IpAddress>> = Vec::new();
    let ghost listed = listed_ips(list@);
    for i in 0..parts.len()
        invariant
            listed == listed_ips(list@),
            parts.deep_view() == split_at_commas(list@),
            ips@ == listed.take(i as int),
    {
        assert(parts.deep_view()[i as int] == parts@[i as int]@);
        ips.push(parse_ip(parts[i].as_str().trim()));
        assert(ips@ =~= listed.take(i + 1));
    }
    assert(listed.take(listed.len() as int) =~= listed);
    ips
}

/// The addresses in the list that are there.
fn known(ips: &Vec<Option<IpAddress>>) -> (r: Vec<IpAddress>)
    ensures
        r@ == ips@.filter_map(|ip: Option<IpAddress>| ip),
{
    let mut r: Vec<IpAddress> = Vec::new();
    let ghost identity = |ip: Option<IpAddress>| ip;
    for i in 0..ips.len()
        invariant
            identity == (|ip: Option<IpAddress>| ip),
            r@ == ips@.take(i as int).filter_map(identity),
    {
        reveal(Seq::filter_map);
        assert(ips@.take(i + 1).drop_last() =~= ips@.take(i as int));
        match ips[i] {
            Some(ip) => r.push(ip),
            None => {},
        }
    }
    assert(ips@.take(ips@.len() as int) =~= ips@);
    r
}

/// What comes of reading a line.
pub struct LineReport {
    /// What is logged then.
    pub message: Option<LogMessage>,
    /// The line should have given the address of the client, and gave what is no address.
    pub bad_ip: bool,
}

/// Reads the lines of an audit log one after the other.
pub struct AuditParser {
    section: Option<Section>,
    datetime: Option<String>,
    client_ip: Option<IpAddress>,
    messages: Vec<String>,
    cfip_match: bool,
    xffip_list: Vec<IpAddress>,
}

impl View for AuditParser {
    type V = EntryState;

    closed spec fn view(&self) -> EntryState {
        EntryState {
            section: self.section,
            datetime: self.datetime.deep_view(),
            client_ip: self.client_ip,
            messages: self.messages.deep_view(),
            cfip_match: self.cfip_match,
            xffip_list: self.xffip_list@,
        }
    }
}

impl AuditParser {
    /// No entry has begun.
    pub fn new() -> (parser: Self)
        ensures
            parser@ == no_entry(),
    {
        let parser = AuditParser {
            section: None,
            datetime: None,
            client_ip: None,
            messages: Vec::new(),
            cfip_match: false,
            xffip_list: Vec::new(),
        };
        assert(parser@ =~= no_entry());
        parser
    }

    /// Takes note of the head of a section.
    pub fn enter_section(&mut self, settings: &Settings, section: Section)
        ensures
            final(self)@ == entered(settings@, old(self)@, section),
    {
        let due: bool = settings.proxy && self.section == Some(Section::B) && (
        !settings.cf_headers || !self.cfip_match) && self.xffip_list.len() > 0;
        self.section = Some(section);
        if due {
            let found = find_last_untrusted(&self.xffip_list, &settings.trusted_proxies);
            if found.is_some() {
                self.client_ip = found;
            }
        }
        assert(self@ =~= entered(settings@, old(self)@, section));
    }

    /// Takes note of the time and the address in a connection summary.
    pub fn note_connection(&mut self, datetime: Option<String>, ip: Option<IpAddress>)
        ensures
            final(self)@ == with_connection(old(self)@, datetime.deep_view(), ip),
    {
        if datetime.is_some() {
            self.datetime = datetime;
            if ip.is_some() {
                self.client_ip = ip;
            }
        }
        assert(self@ =~= with_connection(old(self)@, datetime.deep_view(), ip));
    }

    /// Takes note of the client that CloudFlare names.
    pub fn note_connecting_ip(&mut self, ip: Option<IpAddress>)
        ensures
            final(self)@ == with_connecting_ip(old(self)@, ip),
    {
        if ip.is_some() {
            self.client_ip = ip;
            self.cfip_match = true;
        }
    }

    /// Takes note of the addresses that a header of the proxies lists.
    pub fn note_forwarded(&mut self, ips: &Vec<Option<IpAddress>>)
        ensures
            final(self)@ == with_forwarded(old(self)@, ips@),
    {
        let mut found: Vec<IpAddress> = known(ips);
        self.xffip_list.append(&mut found);
        assert(self@ =~= with_forwarded(old(self)@, ips@));
    }

    /// Takes note of a rule violation.
    pub fn note_violation(&mut self, violation: &RuleViolation)
        ensures
            final(self)@ == with_violation(
                old(self)@,
                violation.hostname@,
                violation.uri@,
                violation.rule_id@,
                violation.msg@,
            ),
            old(self)@.is_one_line() && is_one_line(violation.hostname@) && is_one_line(
                violation.uri@,
            ) && is_one_line(violation.rule_id@) && is_one_line(violation.msg@)
                ==> final(self)@.is_one_line(),
    {
        let message = violation_message(
            violation.hostname.as_str(),
            violation.uri.as_str(),
            violation.rule_id.as_str(),
            violation.msg.as_str(),
        );
        self.messages.push(message);
        assert(self@.messages =~= old(self)@.messages.push(message@));
    }

    /// Ends the entry: hands out what is logged for it, and forgets it.
    pub fn finish(&mut self) -> (message: Option<LogMessage>)
        ensures
            final(self)@ == no_entry(),
            message.deep_view() == finished(old(self)@),
            old(self)@.is_one_line() ==> (message matches Some(message)
                ==> message@.is_one_line()),
    {
        proof {
            reveal_strlit(", ");
            if self@.is_one_line() {
                lemma_joined_is_one_line(self@.messages, ", "@);
            }
        }
        let datetime = self.datetime.take();
        let built = build_log_message(datetime, self.client_ip, &self.messages);
        *self = AuditParser::new();
        match built {
            Ok(message) => Some(message),
            Err(_) => None,
        }
    }

    /// Reads a line of section A, and tells whether it gives for the client what is no address.
    fn read_line_a(&mut self, text: &str) -> (bad_ip: bool)
        ensures
            bad_ip == names_no_ip_a(text@),
            final(self)@ == after_line_a(old(self)@, text@),
            old(self)@.is_one_line() ==> final(self)@.is_one_line(),
    {
        match read_connection_summary(text) {
            Some(summary) => {
                let datetime = read_datetime(summary.datetime.as_str());
                let ip = parse_ip(summary.ip.as_str());
                let bad_ip: bool = datetime.is_some() && ip.is_none();
                self.note_connection(datetime, ip);
                bad_ip
            },
            None => false,
        }
    }

    /// Reads a line of section B, and tells whether it gives for the client what is no address.
    fn read_line_b(&mut self, settings: &Settings, text: &str) -> (bad_ip: bool)
        ensures
            bad_ip == names_no_ip_b(settings@, old(self)@, text@),
            final(self)@ == after_line_b(settings@, old(self)@, text@),
            old(self)@.is_one_line() ==> final(self)@.is_one_line(),
    {
        if !settings.proxy {
            return false;
        }
        if settings.cf_headers && !self.cfip_match {
            match read_connecting_ip(text) {
                Some(text) => {
                    let ip = parse_ip(text.as_str());
                    self.note_connecting_ip(ip);
                    return ip.is_none();
                },
                None => {},
            }
        }
        match read_forwarded_ips(text) {
            Some(list) => self.note_forwarded(&read_listed_ips(list.as_str())),
            None => {},
        }
        false
    }

    /// Reads a line of section H.
    fn read_line_h(&mut self, text: &str)
        ensures
            final(self)@ == after_line_h(old(self)@, text@),
            violation_is_read(text@),
            old(self)@.is_one_line() && is_one_line(text@) ==> final(self)@.is_one_line(),
    {
        match read_rule_violation(text) {
            Some(violation) => {
                proof {
                    if is_one_line(text@) {
                        lemma_piece_is_one_line(violation.hostname@, text@);
                        lemma_piece_is_one_line(violation.uri@, text@);
                        lemma_piece_is_one_line(violation.rule_id@, text@);
                        lemma_piece_is_one_line(violation.msg@, text@);
                    }
                }
                self.note_violation(&violation)
            },
            None => {},
        }
    }

    /// Reads a line, or takes note that it could not be read, and reports what comes of it. A line
    /// of section H is read as what a rule violation has to say.
    pub fn process_line(&mut self, settings: &Settings, line: Option<&str>) -> (report: LineReport)
        ensures
            final(self)@ == after_line(settings@, old(self)@, line.deep_view()).0,
            report.message.deep_view() == after_line(settings@, old(self)@, line.deep_view()).1,
            report.bad_ip == names_no_ip(settings@, old(self)@, line.deep_view()),
            old(self)@.section == Some(Section::H) ==> (line matches Some(line)
                ==> violation_is_read(trimmed(line@))),
            old(self)@.is_one_line() && (line matches Some(line) ==> is_one_line(line@)) ==> {
                &&& final(self)@.is_one_line()
                &&& report.message matches Some(message) ==> message@.is_one_line()
            },
    {
        proof {
            if let Some(line) = line {
                if is_one_line(line@) {
                    lemma_trimmed_is_one_line(line@);
                }
                lemma_no_violation(trimmed(line@));
            }
        }
        let text: &str = match line {
            Some(line) => line.trim(),
            None => {
                return LineReport { message: None, bad_ip: false };
            },
        };
        if text.is_empty() {
            return LineReport { message: None, bad_ip: false };
        }
        match read_section_head(text) {
            Some(section) => {
                self.enter_section(settings, section);
                if section != Section::Z {
                    return LineReport { message: None, bad_ip: false };
                }
            },
            None => {},
        }
        match self.section {
            Some(Section::A) => LineReport { message: None, bad_ip: self.read_line_a(text) },
            Some(Section::B) => LineReport {
                message: None,
                bad_ip: self.read_line_b(settings, text),
            },
            Some(Section::H) => {
                self.read_line_h(text);
                LineReport { message: None, bad_ip: false }
            },
            Some(Section::Z) => LineReport { message: self.finish(), bad_ip: false },
            _ => LineReport { message: None, bad_ip: false },
        }
    }
}

/// Reads the lines of an audit log, `None` for a line that could not be read, and hands out what
/// is logged. The lines of section H are read as what a rule violation has to say.
pub fn parse_audit_file(lines: &Vec<Option<String>>, settings: &Settings) -> (logged: Vec<
    LogMessage,
>)
    ensures
        logged.deep_view() == after_lines(settings@, no_entry(), lines.deep_view()).1,
        forall|i: int|
            0 <= i < lines@.len() && after_lines(
                settings@,
                no_entry(),
                lines.deep_view().take(i),
            ).0.section == Some(Section::H) ==> (#[trigger] lines@[i] matches Some(line)
                ==> violation_is_read(trimmed(line@))),
        (forall|i: int|
            0 <= i < lines@.len() ==> (#[trigger] lines@[i] matches Some(line) ==> is_one_line(
                line@,
            ))) ==> forall|i: int|
            0 <= i < logged@.len() ==> (#[trigger] logged@[i])@.is_one_line(),
{
    let mut parser = AuditParser::new();
    let mut logged: Vec<LogMessage> = Vec::new();
    let ghost all = lines.deep_view();
    let ghost single = forall|j: int|
        0 <= j < lines@.len() ==> (#[trigger] lines@[j] matches Some(line) ==> is_one_line(line@));
    assert(logged.deep_view() =~= Seq::empty());
    for i in 0..lines.len()
        invariant
            all == lines.deep_view(),
            parser@ == after_lines(settings@, no_entry(), all.take(i as int)).0,
            logged.deep_view() == after_lines(settings@, no_entry(), all.take(i as int)).1,
            forall|j: int|
                0 <= j < i && after_lines(settings@, no_entry(), all.take(j)).0.section == Some(
                    Section::H,
                ) ==> (#[trigger] lines@[j] matches Some(line) ==> violation_is_read(
                    trimmed(line@),
                )),
            single == forall|j: int|
                0 <= j < lines@.len() ==> (#[trigger] lines@[j] matches Some(line) ==> is_one_line(
                    line@,
                )),
            single ==> parser@.is_one_line() && forall|j: int|
                0 <= j < logged@.len() ==> (#[trigger] logged@[j])@.is_one_line(),
    {
        let ghost before = logged.deep_view();
        assert(all.take(i + 1).drop_last() =~= all.take(i as int));
        let line: Option<&str> = match &lines[i] {
            Some(line) => Some(line.as_str()),
            None => None,
        };
        assert(line.deep_view() == all[i as int]);
        match parser.process_line(settings, line).message {
            Some(message) => {
                logged.push(message);
                assert(logged.deep_view() =~= before.push(message@));
            },
            None => {},
        }
    }
    assert(all.take(all.len() as int) =~= all);
    logged
}

} // verus!
