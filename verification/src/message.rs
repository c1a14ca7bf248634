//! The line that is logged for a transaction.
use crate::address::{ip_text, IpAddress};
use crate::text::{is_one_line, is_piece_of, join, joined, law_every_part_is_in_the_joined_text};
use vstd::prelude::*;

verus! {

/// What is logged for a transaction.
#[derive(Debug)]
pub struct LogMessage {
    /// The time of the transaction, in the form in which it is logged.
    pub datetime: String,
    pub client_ip: IpAddress,
    /// The rule violations, with commas between them.
    pub messages: String,
}

/// A log message as a value.
#[verifier::ext_equal]
pub struct LogRecord {
    pub datetime: Seq<char>,
    pub client_ip: IpAddress,
    pub messages: Seq<char>,
}

impl LogRecord {
    /// Whether neither of the texts has a line feed in it.
    pub open spec fn is_one_line(self) -> bool {
        is_one_line(self.datetime) && is_one_line(self.messages)
    }
}

impl View for LogMessage {
    type V = LogRecord;

    open spec fn view(&self) -> LogRecord {
        LogRecord {
            datetime: self.datetime@,
            client_ip: self.client_ip,
            messages: self.messages@,
        }
    }
}

impl DeepView for LogMessage {
    type V = LogRecord;

    open spec fn deep_view(&self) -> LogRecord {
        self@
    }
}

/// The line that is logged for a record.
pub open spec fn log_line(record: LogRecord) -> Seq<char> {
    "["@ + record.datetime + "] [client "@ + ip_text(record.client_ip) + "] "@ + record.messages
}

impl LogMessage {
    /// The line that is logged, without an end of line.
    pub fn to_text(&self) -> (line: String)
        ensures
            line@ == log_line(self@),
            self@.is_one_line() ==> is_one_line(line@),
    {
        let mut line = String::new();
        line.append("[");
        line.append(self.datetime.as_str());
        line.append("] [client ");
        line.append(self.client_ip.to_text().as_str());
        line.append("] ");
        line.append(self.messages.as_str());
        assert(line@ =~= log_line(self@));
        proof {
            reveal_strlit("[");
            reveal_strlit("] [client ");
            reveal_strlit("] ");
        }
        line
    }
}

/// What is logged of a rule violation.
pub open spec fn violation_text(
    hostname: Seq<char>,
    uri: Seq<char>,
    rule_id: Seq<char>,
    msg: Seq<char>,
) -> Seq<char> {
    "[uri "@ + hostname + uri + "] [id "@ + rule_id + "] [msg "@ + msg + "]"@
}

/// What is logged of a rule violation: where the request went, which rule it violated, and what
/// the rule has to say.
pub fn violation_message(hostname: &str, uri: &str, rule_id: &str, msg: &str) -> (message: String)
    ensures
        message@ == violation_text(hostname@, uri@, rule_id@, msg@),
        is_one_line(hostname@) && is_one_line(uri@) && is_one_line(rule_id@) && is_one_line(msg@)
            ==> is_one_line(message@),
{
    let mut message = String::new();
    message.append("[uri ");
    message.append(hostname);
    message.append(uri);
    message.append("] [id ");
    message.append(rule_id);
    message.append("] [msg ");
    message.append(msg);
    message.append("]");
    assert(message@ =~= violation_text(hostname@, uri@, rule_id@, msg@));
    proof {
        reveal_strlit("[uri ");
        reveal_strlit("] [id ");
        reveal_strlit("] [msg ");
        reveal_strlit("]");
    }
    message
}

/// What is logged for a transaction, if its time and its client are known and there is something to
/// say of it.
pub open spec fn log_record(
    datetime: Option<Seq<char>>,
    client_ip: Option<IpAddress>,
    messages: Seq<Seq<char>>,
) -> Option<LogRecord> {
    match (datetime, client_ip) {
        (Some(datetime), Some(client_ip)) => {
            let messages = joined(messages, ", "@);
            if messages.len() > 0 {
                Some(LogRecord { datetime, client_ip, messages })
            } else {
                None
            }
        },
        _ => None,
    }
}

/// The line that is logged starts with the time in square brackets, goes on with the client, and
/// ends with all the rule violations, whatever their length; there is nothing else in it.
pub proof fn law_what_stands_in_the_line(record: LogRecord)
    ensures
        ({
            let line = log_line(record);
            let time = record.datetime.len() as int;
            let client = ip_text(record.client_ip).len() as int;
            let messages = record.messages.len() as int;
            &&& line.len() == 1 + time + 10 + client + 2 + messages
            &&& line[0] == '['
            &&& line.subrange(1, 1 + time) == record.datetime
            &&& line.subrange(1 + time, 11 + time) == seq![
                ']',
                ' ',
                '[',
                'c',
                'l',
                'i',
                'e',
                'n',
                't',
                ' ',
            ]
            &&& line.subrange(11 + time, 11 + time + client) == ip_text(record.client_ip)
            &&& line.subrange(11 + time + client, 13 + time + client) == seq![']', ' ']
            &&& line.skip(line.len() - messages) == record.messages
        }),
{
    reveal_strlit("[");
    reveal_strlit("] [client ");
    reveal_strlit("] ");
    let line = log_line(record);
    let time = record.datetime.len() as int;
    let client = ip_text(record.client_ip).len() as int;
    assert(line.subrange(1, 1 + time) =~= record.datetime);
    assert(line.subrange(1 + time, 11 + time) =~= "] [client "@);
    assert("] [client "@ =~= seq![']', ' ', '[', 'c', 'l', 'i', 'e', 'n', 't', ' ']);
    assert(line.subrange(11 + time, 11 + time + client) =~= ip_text(record.client_ip));
    assert(line.subrange(11 + time + client, 13 + time + client) =~= seq![']', ' ']);
    assert(line.skip(line.len() - record.messages.len()) =~= record.messages);
}

/// What is said more of a transaction stands at the end of its line, and changes nothing before.
pub proof fn law_more_violations_make_a_longer_line(record: LogRecord, more: Seq<char>)
    ensures
        log_line((LogRecord { messages: record.messages + more, ..record })) == log_line(record)
            + more,
{
    assert(log_line((LogRecord { messages: record.messages + more, ..record })) =~= log_line(record)
        + more);
}

/// Transactions with the same time and client, and different violations, have different lines.
pub proof fn law_different_violations_have_different_lines(first: LogRecord, second: LogRecord)
    requires
        first.datetime == second.datetime,
        first.client_ip == second.client_ip,
        log_line(first) == log_line(second),
    ensures
        first == second,
{
    law_what_stands_in_the_line(first);
    law_what_stands_in_the_line(second);
}

/// Every rule violation stands in the line as a whole.
pub proof fn law_every_violation_stands_in_the_line(
    datetime: Option<Seq<char>>,
    client_ip: Option<IpAddress>,
    messages: Seq<Seq<char>>,
    i: int,
)
    requires
        0 <= i < messages.len(),
    ensures
        log_record(datetime, client_ip, messages) matches Some(record) ==> is_piece_of(
            messages[i],
            log_line(record),
        ),
{
    if let Some(record) = log_record(datetime, client_ip, messages) {
        law_every_part_is_in_the_joined_text(messages, ", "@, i);
        let (from, to) = choose|from: int, to: int|
            0 <= from <= to <= record.messages.len() && messages[i]
                == #[trigger] record.messages.subrange(from, to);
        law_what_stands_in_the_line(record);
        let line = log_line(record);
        let start = line.len() - record.messages.len();
        assert forall|k: int| 0 <= k < record.messages.len() implies #[trigger] record.messages[k]
            == line[start + k] by {
            assert(line.skip(start)[k] == line[start + k]);
        }
        assert(line.subrange(start + from, start + to) =~= messages[i]);
    }
}

/// What is logged of a transaction: its time and its client as they are, and its rule violations
/// with a comma and a space between neighbours. Nothing is logged where the time or the client is
/// not known, or where nothing is to be said.
pub proof fn law_what_a_record_holds(
    datetime: Option<Seq<char>>,
    client_ip: Option<IpAddress>,
    messages: Seq<Seq<char>>,
)
    ensures
        log_record(datetime, client_ip, messages) is Some <==> datetime is Some && client_ip is Some
            && joined(messages, seq![',', ' ']).len() > 0,
        log_record(datetime, client_ip, messages) matches Some(record) ==> Some(record.datetime)
            == datetime && Some(record.client_ip) == client_ip && record.messages == joined(
            messages,
            seq![',', ' '],
        ),
{
    reveal_strlit(", ");
    assert(", "@ =~= seq![',', ' ']);
}

/// What is logged of a rule violation names the host with the path behind it, then the number of
/// the rule, then its message, each as it is; there is nothing else in it.
pub proof fn law_what_stands_in_a_violation(
    hostname: Seq<char>,
    uri: Seq<char>,
    rule_id: Seq<char>,
    msg: Seq<char>,
)
    ensures
        ({
            let text = violation_text(hostname, uri, rule_id, msg);
            let host = hostname.len() as int;
            let place = host + uri.len();
            let id = rule_id.len() as int;
            &&& text.len() == 5 + place + 6 + id + 7 + msg.len() + 1
            &&& text.take(5) == seq!['[', 'u', 'r', 'i', ' ']
            &&& text.subrange(5, 5 + host) == hostname
            &&& text.subrange(5 + host, 5 + place) == uri
            &&& text.subrange(5 + place, 11 + place) == seq![']', ' ', '[', 'i', 'd', ' ']
            &&& text.subrange(11 + place, 11 + place + id) == rule_id
            &&& text.subrange(11 + place + id, 18 + place + id) == seq![
                ']',
                ' ',
                '[',
                'm',
                's',
                'g',
                ' ',
            ]
            &&& text.subrange(18 + place + id, text.len() - 1) == msg
            &&& text.last() == ']'
        }),
{
    reveal_strlit("[uri ");
    reveal_strlit("] [id ");
    reveal_strlit("] [msg ");
    reveal_strlit("]");
    let text = violation_text(hostname, uri, rule_id, msg);
    let host = hostname.len() as int;
    let place = host + uri.len();
    let id = rule_id.len() as int;
    assert(text.take(5) =~= seq!['[', 'u', 'r', 'i', ' ']);
    assert(text.subrange(5, 5 + host) =~= hostname);
    assert(text.subrange(5 + host, 5 + place) =~= uri);
    assert(text.subrange(5 + place, 11 + place) =~= seq![']', ' ', '[', 'i', 'd', ' ']);
    assert(text.subrange(11 + place, 11 + place + id) =~= rule_id);
    assert(text.subrange(11 + place + id, 18 + place + id) =~= "] [msg "@);
    assert("] [msg "@ =~= seq![']', ' ', '[', 'm', 's', 'g', ' ']);
    assert(text.subrange(18 + place + id, text.len() - 1) =~= msg);
}

/// A log message stands for its own time, client and violations.
pub proof fn law_a_message_stands_for_what_it_holds(message: LogMessage)
    ensures
        message@.datetime == message.datetime@,
        message@.client_ip == message.client_ip,
        message@.messages == message.messages@,
        message.deep_view() == message@,
{
}

/// Makes the log message for a transaction. Fails where its time or its client is not known, or
/// where there is nothing to say of it.
pub fn build_log_message(
    datetime: Option<String>,
    client_ip: Option<IpAddress>,
    messages: &Vec<String>,
) -> (r: Result<LogMessage, String>)
    ensures
        match log_record(datetime.deep_view(), client_ip, messages.deep_view()) {
            Some(record) => r matches Ok(message) && message@ == record,
            None => r matches Err(error) && error@ == "Could not create log message."@,
        },
{
    if let Some(datetime) = datetime {
        if let Some(client_ip) = client_ip {
            let messages = join(messages, ", ");
            if !messages.as_str().is_empty() {
                return Ok(LogMessage { datetime, client_ip, messages });
            }
        }
    }
    Err("Could not create log message.".to_string())
}

} // verus!
