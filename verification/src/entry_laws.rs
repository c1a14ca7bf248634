//! What the lines of an entry do, section by section, and what is logged for an entry in the end.
use crate::address::{ip_of, IpAddress};
use crate::datetime::datetime_text;
use crate::entry::{
    after_line, after_lines, entered, last_untrusted, listed_ips, names_no_ip, no_entry,
    with_connecting_ip, with_connection, with_forwarded, with_violation, EntryState, Settings,
    SettingsView,
};
use crate::laws::{law_last_untrusted_is_picked, law_reading_can_be_interrupted};
use crate::lines::{
    head_line, is_in_any_case, is_like_ip, is_transaction_id,
    law_a_connection_summary_gives_the_time_and_the_client,
    law_a_head_names_the_section_of_its_letter, law_a_list_can_go_on,
    law_the_header_of_cloudflare_gives_its_address, law_the_header_of_the_proxies_gives_its_address,
    lemma_list_parts, SummaryLine,
};
use crate::message::{violation_text, LogRecord};
use crate::pattern::{
    connecting_ip, connection_summary, forwarded_ips, headed_section, lemma_no_violation,
    rule_violation,
};
use crate::section::{
    law_a_section_is_named_by_its_letter, law_letters_that_name_a_section, section_of, Section,
};
use crate::text::{
    is_space, is_white_space, joined, law_space_around_is_trimmed,
    law_what_has_no_space_around_is_not_trimmed, lemma_split_without_separator, split_at_commas,
    the_char, trimmed,
};
use vstd::prelude::*;

verus! {

/// A text with space around it, which does not start or end with white space itself, is trimmed to
/// this text.
proof fn lemma_spaced(left: Seq<char>, text: Seq<char>, right: Seq<char>)
    requires
        is_space(left),
        is_space(right),
        text.len() > 0,
        !is_white_space(text.first()),
        !is_white_space(text.last()),
    ensures
        trimmed(left + text + right) == text,
{
    law_space_around_is_trimmed(left, text, right);
    law_what_has_no_space_around_is_not_trimmed(text);
}

proof fn lemma_spaced_head(left: Seq<char>, tid: Seq<char>, letter: char, right: Seq<char>)
    requires
        is_space(left),
        is_space(right),
        is_transaction_id(tid),
    ensures
        trimmed(left + head_line(tid, letter) + right) == head_line(tid, letter),
        head_line(tid, letter).len() > 0,
        headed_section(head_line(tid, letter)) == section_of(letter),
{
    lemma_spaced(left, head_line(tid, letter), right);
    law_a_head_names_the_section_of_its_letter(tid, letter);
}

/// Before an entry begins, nothing is known of it.
pub proof fn law_nothing_is_known_before_an_entry()
    ensures
        no_entry().section is None,
        no_entry().datetime is None,
        no_entry().client_ip is None,
        no_entry().messages.len() == 0,
        !no_entry().cfip_match,
        no_entry().xffip_list.len() == 0,
{
}

/// The head of a section other than Z opens the section of its letter. Nothing is logged, and
/// nothing that was said is lost.
pub proof fn law_a_head_opens_its_section(
    settings: SettingsView,
    state: EntryState,
    left: Seq<char>,
    tid: Seq<char>,
    letter: char,
    right: Seq<char>,
)
    requires
        is_space(left),
        is_space(right),
        is_transaction_id(tid),
        'A' <= letter <= 'K',
    ensures
        ({
            let line = left + head_line(tid, letter) + right;
            let (after, logged) = after_line(settings, state, Some(line));
            &&& logged is None
            &&& after.section == section_of(letter)
            &&& after.section is Some && after.section != Some(Section::Z)
            &&& after.datetime == state.datetime
            &&& after.messages == state.messages
            &&& after.cfip_match == state.cfip_match
            &&& after.xffip_list == state.xffip_list
        }),
{
    lemma_spaced_head(left, tid, letter, right);
    law_letters_that_name_a_section(letter);
    law_a_section_is_named_by_its_letter(letter);
}

/// The head of section Z, and no other line, ends an entry: all that was said is forgotten.
pub proof fn law_the_head_of_section_z_ends_the_entry(
    settings: SettingsView,
    state: EntryState,
    left: Seq<char>,
    tid: Seq<char>,
    right: Seq<char>,
)
    requires
        is_space(left),
        is_space(right),
        is_transaction_id(tid),
    ensures
        ({
            let line = left + head_line(tid, 'Z') + right;
            let after = after_line(settings, state, Some(line)).0;
            &&& after.section is None
            &&& after.datetime is None
            &&& after.client_ip is None
            &&& after.messages.len() == 0
            &&& !after.cfip_match
            &&& after.xffip_list.len() == 0
        }),
{
    lemma_spaced_head(left, tid, 'Z', right);
    law_a_section_is_named_by_its_letter('Z');
}

/// Behind a proxy, with no client named by CloudFlare, the client becomes the last listed address
/// that is not trusted when section B is left, whatever section comes next. Nothing else changes.
pub proof fn law_leaving_the_request_headers_finds_the_client(
    settings: SettingsView,
    state: EntryState,
    section: Section,
    i: int,
)
    requires
        settings.proxy,
        state.section == Some(Section::B),
        !(settings.cf_headers && state.cfip_match),
        0 <= i < state.xffip_list.len(),
        !settings.trusted.contains(state.xffip_list[i]),
        forall|j: int|
            i < j < state.xffip_list.len() ==> settings.trusted.contains(
                #[trigger] state.xffip_list[j],
            ),
    ensures
        entered(settings, state, section) == (EntryState {
            section: Some(section),
            client_ip: Some(state.xffip_list[i]),
            ..state
        }),
{
    lemma_picked(state.xffip_list, settings.trusted, i);
}

proof fn lemma_picked(ips: Seq<IpAddress>, trusted: Set<IpAddress>, i: int)
    requires
        0 <= i < ips.len(),
        !trusted.contains(ips[i]),
        forall|j: int| i < j < ips.len() ==> trusted.contains(#[trigger] ips[j]),
    ensures
        last_untrusted(ips, trusted) == Some(ips[i]),
{
    law_last_untrusted_is_picked(ips, trusted);
    if let Some(ip) = last_untrusted(ips, trusted) {
        let k = choose|k: int|
            0 <= k < ips.len() && #[trigger] ips[k] == ip && forall|j: int|
                k < j < ips.len() ==> trusted.contains(#[trigger] ips[j]);
        if k < i {
            assert(trusted.contains(ips[i]));
        }
    }
}

/// Otherwise the client stays who it was: without a proxy, where the client was named by CloudFlare
/// and this counts, where another section than B is left, or where all that is listed is trusted.
pub proof fn law_otherwise_the_client_stays(
    settings: SettingsView,
    state: EntryState,
    section: Section,
)
    requires
        !settings.proxy || state.section != Some(Section::B) || (settings.cf_headers
            && state.cfip_match) || forall|j: int|
            0 <= j < state.xffip_list.len() ==> settings.trusted.contains(
                #[trigger] state.xffip_list[j],
            ),
    ensures
        entered(settings, state, section) == (EntryState { section: Some(section), ..state }),
{
    law_last_untrusted_is_picked(state.xffip_list, settings.trusted);
}

/// Which section comes next makes no difference to anything but the section.
pub proof fn law_the_next_section_makes_no_difference(
    settings: SettingsView,
    state: EntryState,
    section: Section,
    other: Section,
)
    ensures
        entered(settings, state, section) == (EntryState {
            section: Some(section),
            ..entered(settings, state, other)
        }),
{
}

/// A head is read as the section of its letter: one of A to K is entered.
pub proof fn law_a_head_is_entered(
    settings: SettingsView,
    state: EntryState,
    left: Seq<char>,
    tid: Seq<char>,
    letter: char,
    right: Seq<char>,
)
    requires
        is_space(left),
        is_space(right),
        is_transaction_id(tid),
        'A' <= letter <= 'K',
    ensures
        section_of(letter) is Some,
        after_line(settings, state, Some(left + head_line(tid, letter) + right)) == (
            entered(settings, state, section_of(letter)->0),
            None::<LogRecord>,
        ),
{
    lemma_spaced_head(left, tid, letter, right);
    law_letters_that_name_a_section(letter);
    law_a_section_is_named_by_its_letter(letter);
}

/// The head of section Z logs the entry, if its time and its client are known and there is
/// something to say of it. The client is the last listed address that is not trusted where section
/// B is left with it.
pub proof fn law_the_head_of_section_z_logs_the_entry(
    settings: SettingsView,
    state: EntryState,
    left: Seq<char>,
    tid: Seq<char>,
    right: Seq<char>,
)
    requires
        is_space(left),
        is_space(right),
        is_transaction_id(tid),
    ensures
        ({
            let line = left + head_line(tid, 'Z') + right;
            let client_ip = entered(settings, state, Section::Z).client_ip;
            let messages = joined(state.messages, seq![',', ' ']);
            after_line(settings, state, Some(line)).1 == if state.datetime is Some && client_ip
                is Some && messages.len() > 0 {
                Some(LogRecord { datetime: state.datetime->0, client_ip: client_ip->0, messages })
            } else {
                None
            }
        }),
{
    lemma_spaced_head(left, tid, 'Z', right);
    law_a_section_is_named_by_its_letter('Z');
    reveal_strlit(", ");
    assert(", "@ =~= seq![',', ' ']);
}

/// A connection summary in section A gives the time, and the client where it names an address. If
/// the time cannot be read it gives nothing. An address that cannot be read is reported.
pub proof fn law_what_a_connection_summary_does(
    settings: SettingsView,
    state: EntryState,
    left: Seq<char>,
    line: SummaryLine,
    right: Seq<char>,
)
    requires
        is_space(left),
        is_space(right),
        line.wf(),
        state.section == Some(Section::A),
    ensures
        ({
            let text = left + line.text() + right;
            let datetime = datetime_text(line.datetime(), "%d/%b/%Y:%H:%M:%S %z"@);
            let ip = ip_of(line.ip);
            &&& after_line(settings, state, Some(text)).0 == match (datetime, ip) {
                (None, _) => state,
                (Some(_), Some(_)) => EntryState { datetime, client_ip: ip, ..state },
                (Some(_), None) => EntryState { datetime, ..state },
            }
            &&& after_line(settings, state, Some(text)).1 is None
            &&& names_no_ip(settings, state, Some(text)) <==> datetime is Some && ip is None
        }),
{
    let text = line.text();
    assert(text.first() == '[');
    assert(text.last() == line.server_port.last());
    lemma_spaced(left, text, right);
    law_a_connection_summary_gives_the_time_and_the_client(line);
}

/// Any other line of section A does nothing, unless it is the head of a section.
pub proof fn law_other_lines_of_section_a_do_nothing(
    settings: SettingsView,
    state: EntryState,
    line: Seq<char>,
)
    requires
        state.section == Some(Section::A),
        headed_section(trimmed(line)) is None,
        connection_summary(trimmed(line)) is None,
    ensures
        after_line(settings, state, Some(line)) == (state, None::<LogRecord>),
        !names_no_ip(settings, state, Some(line)),
{
}

/// Behind a proxy, the header of CloudFlare in section B names the client, if it is looked for and
/// none was named by it before. An address that cannot be read is reported, and names nobody.
pub proof fn law_what_the_header_of_cloudflare_does(
    settings: SettingsView,
    state: EntryState,
    left: Seq<char>,
    name: Seq<char>,
    gap: Seq<char>,
    ip: Seq<char>,
    right: Seq<char>,
)
    requires
        is_space(left),
        is_space(right),
        is_in_any_case(name, "cf-connecting-ip:"@),
        gap.len() > 0 && is_space(gap),
        is_like_ip(ip),
        state.section == Some(Section::B),
    ensures
        ({
            let line = left + (name + gap + ip) + right;
            let counts = settings.proxy && settings.cf_headers && !state.cfip_match;
            &&& after_line(settings, state, Some(line)).0 == if counts && ip_of(ip) is Some {
                EntryState { client_ip: ip_of(ip), cfip_match: true, ..state }
            } else {
                state
            }
            &&& after_line(settings, state, Some(line)).1 is None
            &&& names_no_ip(settings, state, Some(line)) <==> counts && ip_of(ip) is None
        }),
{
    let text = name + gap + ip;
    reveal_strlit("cf-connecting-ip:");
    assert("cf-connecting-ip:"@[0] == 'c');
    assert(text.first() == name[0]);
    assert(text.last() == ip.last());
    lemma_spaced(left, text, right);
    law_the_header_of_cloudflare_gives_its_address(name, gap, ip);
}

/// Behind a proxy, the header of the proxies in section B adds the address that it lists.
pub proof fn law_what_a_header_of_the_proxies_does(
    settings: SettingsView,
    state: EntryState,
    left: Seq<char>,
    name: Seq<char>,
    gap: Seq<char>,
    ip: Seq<char>,
    right: Seq<char>,
)
    requires
        is_space(left),
        is_space(right),
        is_in_any_case(name, "x-forwarded-for:"@),
        gap.len() > 0 && is_space(gap),
        is_like_ip(ip),
        state.section == Some(Section::B),
    ensures
        ({
            let line = left + (name + gap + ip) + right;
            &&& after_line(settings, state, Some(line)).0 == if settings.proxy && ip_of(ip)
                is Some {
                EntryState { xffip_list: state.xffip_list.push(ip_of(ip)->0), ..state }
            } else {
                state
            }
            &&& after_line(settings, state, Some(line)).1 is None
            &&& !names_no_ip(settings, state, Some(line))
        }),
{
    let text = name + gap + ip;
    lemma_header_of_the_proxies(left, name, gap, ip, right);
    law_the_header_of_the_proxies_gives_its_address(name, gap, ip);
    lemma_split_without_separator(ip, the_char(','));
    law_what_has_no_space_around_is_not_trimmed(ip);
    let listed = listed_ips(ip);
    assert(listed =~= seq![ip_of(ip)]);
    lemma_one_more_known(Seq::empty(), ip_of(ip));
    assert(Seq::<Option<IpAddress>>::empty().push(ip_of(ip)) =~= listed);
    reveal(Seq::filter_map);
    assert(after_line(settings, state, Some(left + text + right)).0.xffip_list =~= if settings.proxy
        && ip_of(ip) is Some {
        state.xffip_list.push(ip_of(ip)->0)
    } else {
        state.xffip_list
    });
}

proof fn lemma_header_of_the_proxies(
    left: Seq<char>,
    name: Seq<char>,
    gap: Seq<char>,
    value: Seq<char>,
    right: Seq<char>,
)
    requires
        is_space(left),
        is_space(right),
        is_in_any_case(name, "x-forwarded-for:"@),
        value.len() > 0 && !is_white_space(value.last()),
    ensures
        trimmed(left + (name + gap + value) + right) == name + gap + value,
        headed_section(name + gap + value) is None,
        connecting_ip(name + gap + value) is None,
        name.len() > 0,
{
    let text = name + gap + value;
    reveal_strlit("x-forwarded-for:");
    reveal_strlit("cf-connecting-ip:");
    assert("x-forwarded-for:"@[0] == 'x' && "cf-connecting-ip:"@[0] == 'c');
    assert(text.first() == name[0]);
    assert(text.last() == value.last());
    assert(crate::pattern::lower(text[0]) != 'c');
    lemma_spaced(left, text, right);
}

proof fn lemma_one_more_known(ips: Seq<Option<IpAddress>>, ip: Option<IpAddress>)
    ensures
        ips.push(ip).filter_map(|ip: Option<IpAddress>| ip) == match ip {
            Some(ip) => ips.filter_map(|ip: Option<IpAddress>| ip).push(ip),
            None => ips.filter_map(|ip: Option<IpAddress>| ip),
        },
{
    reveal(Seq::filter_map);
    assert(ips.push(ip).drop_last() =~= ips);
}

/// A header of the proxies that lists one more address adds this address too, behind the others,
/// however many there are.
pub proof fn law_every_listed_address_is_added(
    settings: SettingsView,
    state: EntryState,
    left: Seq<char>,
    name: Seq<char>,
    gap: Seq<char>,
    list: Seq<char>,
    pad: Seq<char>,
    ip: Seq<char>,
    right: Seq<char>,
)
    requires
        is_space(left),
        is_space(right),
        is_in_any_case(name, "x-forwarded-for:"@),
        gap.len() > 0 && is_space(gap),
        list.len() > 0 && !is_white_space(list[0]) && !is_white_space(list.last()),
        forwarded_ips(name + gap + list) == Some(list),
        is_space(pad),
        is_like_ip(ip),
        state.section == Some(Section::B),
    ensures
        ({
            let shorter = left + (name + gap + list) + right;
            let longer = left + (name + gap + (list + seq![','] + (pad + ip))) + right;
            let before = after_line(settings, state, Some(shorter)).0;
            &&& after_line(settings, state, Some(longer)).0 == if settings.proxy && ip_of(ip)
                is Some {
                EntryState { xffip_list: before.xffip_list.push(ip_of(ip)->0), ..before }
            } else {
                before
            }
            &&& forwarded_ips(name + gap + (list + seq![','] + (pad + ip))) == Some(
                list + seq![','] + (pad + ip),
            )
            &&& after_line(settings, state, Some(longer)).1 is None
        }),
{
    let value = list + seq![','] + (pad + ip);
    assert(value.last() == ip.last());
    lemma_header_of_the_proxies(left, name, gap, list, right);
    lemma_header_of_the_proxies(left, name, gap, value, right);
    law_a_list_can_go_on(name, gap, list, pad, ip);
    lemma_list_parts(list, pad, ip);
    assert(pad + ip + Seq::<char>::empty() =~= pad + ip);
    law_space_around_is_trimmed(pad, ip, Seq::empty());
    law_what_has_no_space_around_is_not_trimmed(ip);
    assert(listed_ips(value) =~= listed_ips(list).push(ip_of(ip)));
    lemma_one_more_known(listed_ips(list), ip_of(ip));
    let shorter = after_line(settings, state, Some(left + (name + gap + list) + right)).0;
    let longer = after_line(settings, state, Some(left + (name + gap + value) + right)).0;
    assert(longer.xffip_list =~= if settings.proxy && ip_of(ip) is Some {
        shorter.xffip_list.push(ip_of(ip)->0)
    } else {
        shorter.xffip_list
    });
}

/// Any other line of section B does nothing, unless it is the head of a section.
pub proof fn law_other_lines_of_section_b_do_nothing(
    settings: SettingsView,
    state: EntryState,
    line: Seq<char>,
)
    requires
        state.section == Some(Section::B),
        headed_section(trimmed(line)) is None,
        connecting_ip(trimmed(line)) is None,
        forwarded_ips(trimmed(line)) is None,
    ensures
        after_line(settings, state, Some(line)) == (state, None::<LogRecord>),
        !names_no_ip(settings, state, Some(line)),
{
}

/// What is logged of the rule violation that a line is, if it is one.
pub open spec fn violations_of(line: Option<Seq<char>>) -> Seq<Seq<char>> {
    match line {
        Some(line) => match rule_violation(trimmed(line)) {
            Some(found) => seq![violation_text(found[0], found[1], found[2], found[3])],
            None => Seq::empty(),
        },
        None => Seq::empty(),
    }
}

/// What is logged of the rule violations among the lines, in order.
pub open spec fn violations_in(lines: Seq<Option<Seq<char>>>) -> Seq<Seq<char>>
    decreases lines.len(),
{
    if lines.len() == 0 {
        Seq::empty()
    } else {
        violations_in(lines.drop_last()) + violations_of(lines.last())
    }
}

/// Whether none of the lines is the head of a section.
pub open spec fn has_no_head(lines: Seq<Option<Seq<char>>>) -> bool {
    forall|i: int|
        0 <= i < lines.len() ==> (#[trigger] lines[i] matches Some(line) ==> headed_section(
            trimmed(line),
        ) is None)
}

/// Every line of section H that is a rule violation adds what is logged of it, in order, however
/// many there are already. Other lines of the section add nothing, and nothing else changes.
pub proof fn law_every_violation_is_kept(
    settings: SettingsView,
    state: EntryState,
    lines: Seq<Option<Seq<char>>>,
)
    requires
        state.section == Some(Section::H),
        has_no_head(lines),
    ensures
        after_lines(settings, state, lines).0 == (EntryState {
            messages: state.messages + violations_in(lines),
            ..state
        }),
        after_lines(settings, state, lines).1.len() == 0,
    decreases lines.len(),
{
    if lines.len() == 0 {
        assert(state.messages + violations_in(lines) =~= state.messages);
    } else {
        let rest = lines.drop_last();
        assert forall|i: int| 0 <= i < rest.len() implies (#[trigger] rest[i] matches Some(line)
            ==> headed_section(trimmed(line)) is None) by {
            assert(rest[i] == lines[i]);
        }
        law_every_violation_is_kept(settings, state, rest);
        assert(lines[lines.len() - 1] == lines.last());
        if let Some(line) = lines.last() {
            lemma_no_violation(trimmed(line));
        }
        assert(after_lines(settings, state, lines).0.messages =~= state.messages + violations_in(
            lines,
        ));
    }
}

/// How many of the lines are rule violations.
pub open spec fn violation_count(lines: Seq<Option<Seq<char>>>) -> nat
    decreases lines.len(),
{
    if lines.len() == 0 {
        0
    } else if lines.last() matches Some(line) && rule_violation(trimmed(line)) is Some {
        violation_count(lines.drop_last()) + 1
    } else {
        violation_count(lines.drop_last())
    }
}

/// There are as many texts as there are rule violations among the lines.
pub proof fn law_there_is_one_text_per_violation(lines: Seq<Option<Seq<char>>>)
    ensures
        violations_in(lines).len() == violation_count(lines),
    decreases lines.len(),
{
    if lines.len() > 0 {
        law_there_is_one_text_per_violation(lines.drop_last());
    }
}

/// What is logged of the rule violations among the lines that are in section H when they are read.
pub open spec fn violations_of_entry(
    settings: SettingsView,
    state: EntryState,
    lines: Seq<Option<Seq<char>>>,
) -> Seq<Seq<char>>
    decreases lines.len(),
{
    if lines.len() == 0 {
        Seq::empty()
    } else {
        let rest = lines.drop_last();
        violations_of_entry(settings, state, rest) + if after_lines(
            settings,
            state,
            rest,
        ).0.section == Some(Section::H) {
            violations_of(lines.last())
        } else {
            Seq::empty()
        }
    }
}

/// As long as an entry goes on, its violations are those of the lines in its section H, each once
/// and in order, whatever other lines and sections there are.
pub proof fn law_the_violations_of_an_entry(
    settings: SettingsView,
    state: EntryState,
    lines: Seq<Option<Seq<char>>>,
)
    requires
        state.section != Some(Section::Z),
        forall|i: int|
            0 <= i < lines.len() ==> (#[trigger] lines[i] matches Some(line) ==> headed_section(
                trimmed(line),
            ) != Some(Section::Z)),
    ensures
        after_lines(settings, state, lines).0.messages == state.messages + violations_of_entry(
            settings,
            state,
            lines,
        ),
        after_lines(settings, state, lines).0.section != Some(Section::Z),
        after_lines(settings, state, lines).1.len() == 0,
    decreases lines.len(),
{
    if lines.len() == 0 {
        assert(state.messages + violations_of_entry(settings, state, lines) =~= state.messages);
    } else {
        let rest = lines.drop_last();
        assert forall|i: int| 0 <= i < rest.len() implies (#[trigger] rest[i] matches Some(line)
            ==> headed_section(trimmed(line)) != Some(Section::Z)) by {
            assert(rest[i] == lines[i]);
        }
        law_the_violations_of_an_entry(settings, state, rest);
        assert(lines[lines.len() - 1] == lines.last());
        if let Some(line) = lines.last() {
            lemma_no_violation(trimmed(line));
        }
        assert(after_lines(settings, state, lines).0.messages =~= state.messages
            + violations_of_entry(settings, state, lines));
    }
}

/// Reading a single line is what reading it as a file of one line is, and an empty file says
/// nothing.
pub proof fn law_a_file_of_one_line(
    settings: SettingsView,
    state: EntryState,
    line: Option<Seq<char>>,
)
    ensures
        after_lines(settings, state, Seq::empty()) == (state, Seq::<LogRecord>::empty()),
        after_lines(settings, state, seq![line]).0 == after_line(settings, state, line).0,
        after_lines(settings, state, seq![line]).1 == match after_line(settings, state, line).1 {
            Some(record) => seq![record],
            None => Seq::empty(),
        },
{
    reveal_with_fuel(after_lines, 2);
    assert(seq![line].drop_last() =~= Seq::empty());
}

/// Only the head of a section changes in which section the lines are.
pub proof fn law_only_heads_change_the_section(
    settings: SettingsView,
    state: EntryState,
    lines: Seq<Option<Seq<char>>>,
)
    requires
        state.section != Some(Section::Z),
        has_no_head(lines),
    ensures
        after_lines(settings, state, lines).0.section == state.section,
        after_lines(settings, state, lines).1.len() == 0,
    decreases lines.len(),
{
    if lines.len() > 0 {
        let rest = lines.drop_last();
        assert forall|i: int| 0 <= i < rest.len() implies (#[trigger] rest[i] matches Some(line)
            ==> headed_section(trimmed(line)) is None) by {
            assert(rest[i] == lines[i]);
        }
        law_only_heads_change_the_section(settings, state, rest);
        assert(lines[lines.len() - 1] == lines.last());
    }
}

/// Lines of a section that does not matter do nothing.
proof fn lemma_idle_lines(
    settings: SettingsView,
    state: EntryState,
    lines: Seq<Option<Seq<char>>>,
)
    requires
        state.section matches Some(section) && section != Section::A && section != Section::B
            && section != Section::H && section != Section::Z,
        has_no_head(lines),
    ensures
        after_lines(settings, state, lines) == (state, Seq::<LogRecord>::empty()),
    decreases lines.len(),
{
    if lines.len() > 0 {
        let rest = lines.drop_last();
        assert forall|i: int| 0 <= i < rest.len() implies (#[trigger] rest[i] matches Some(line)
            ==> headed_section(trimmed(line)) is None) by {
            assert(rest[i] == lines[i]);
        }
        lemma_idle_lines(settings, state, rest);
        assert(lines[lines.len() - 1] == lines.last());
    }
}

/// One more line behind others.
proof fn lemma_one_more_line(
    settings: SettingsView,
    state: EntryState,
    lines: Seq<Option<Seq<char>>>,
    line: Option<Seq<char>>,
)
    ensures
        ({
            let (between, logged) = after_lines(settings, state, lines);
            let (after, record) = after_line(settings, between, line);
            after_lines(settings, state, lines.push(line)) == (
                after,
                match record {
                    Some(record) => logged.push(record),
                    None => logged,
                },
            )
        }),
{
    assert(lines.push(line).drop_last() =~= lines);
}

/// What is left of an entry once its time and its client are known: a section that does not matter,
/// then section H, then the end.
pub open spec fn rest_of_entry(
    tid: Seq<char>,
    letter: char,
    other_lines: Seq<Option<Seq<char>>>,
    violation_lines: Seq<Option<Seq<char>>>,
) -> Seq<Option<Seq<char>>> {
    (seq![Some(head_line(tid, letter))] + other_lines).push(Some(head_line(tid, 'H')))
        + violation_lines.push(Some(head_line(tid, 'Z')))
}

/// An entry is logged as one line, with its time, its client and all the rule violations of its
/// section H, whatever section stands between. The client is the one that is known when that
/// section is entered.
pub proof fn law_an_entry_is_logged_with_all_its_violations(
    settings: SettingsView,
    state: EntryState,
    tid: Seq<char>,
    letter: char,
    other_lines: Seq<Option<Seq<char>>>,
    violation_lines: Seq<Option<Seq<char>>>,
)
    requires
        is_transaction_id(tid),
        'C' <= letter <= 'G' || 'I' <= letter <= 'K',
        has_no_head(other_lines),
        has_no_head(violation_lines),
        state.datetime is Some,
    ensures
        ({
            let lines = rest_of_entry(tid, letter, other_lines, violation_lines);
            let client_ip = entered(settings, state, Section::C).client_ip;
            let messages = joined(
                state.messages + violations_in(violation_lines),
                seq![',', ' '],
            );
            after_lines(settings, state, lines).1 == if client_ip is Some && messages.len() > 0 {
                seq![
                    LogRecord {
                        datetime: state.datetime->0,
                        client_ip: client_ip->0,
                        messages,
                    },
                ]
            } else {
                Seq::empty()
            }
        }),
{
    let none = Seq::<char>::empty();
    let head = head_line(tid, letter);
    let head_h = head_line(tid, 'H');
    let head_z = head_line(tid, 'Z');
    assert(none + head + none =~= head);
    assert(none + head_h + none =~= head_h);
    assert(none + head_z + none =~= head_z);
    law_a_section_is_named_by_its_letter(letter);
    law_a_section_is_named_by_its_letter('H');
    law_a_section_is_named_by_its_letter('Z');
    law_a_head_is_entered(settings, state, none, tid, letter, none);
    law_a_file_of_one_line(settings, state, Some(head));
    let section = section_of(letter)->0;
    law_the_next_section_makes_no_difference(settings, state, section, Section::C);
    let opened = entered(settings, state, section);
    lemma_idle_lines(settings, opened, other_lines);
    law_reading_can_be_interrupted(settings, state, seq![Some(head)], other_lines);
    let first = (seq![Some(head)] + other_lines).push(Some(head_h));
    lemma_one_more_line(settings, state, seq![Some(head)] + other_lines, Some(head_h));
    law_a_head_is_entered(settings, opened, none, tid, 'H', none);
    law_otherwise_the_client_stays(settings, opened, Section::H);
    let in_h = entered(settings, opened, Section::H);
    assert(after_lines(settings, state, first) == (in_h, Seq::<LogRecord>::empty()));
    law_every_violation_is_kept(settings, in_h, violation_lines);
    let kept = after_lines(settings, in_h, violation_lines).0;
    lemma_one_more_line(settings, in_h, violation_lines, Some(head_z));
    law_the_head_of_section_z_logs_the_entry(settings, kept, none, tid, none);
    law_otherwise_the_client_stays(settings, kept, Section::Z);
    law_reading_can_be_interrupted(settings, state, first, violation_lines.push(Some(head_z)));
    assert(after_lines(settings, in_h, violation_lines).1 =~= Seq::empty());
    assert(after_lines(
        settings,
        state,
        rest_of_entry(tid, letter, other_lines, violation_lines),
    ).1 =~= after_lines(settings, in_h, violation_lines.push(Some(head_z))).1);
}

/// Settings stand for what they hold.
pub proof fn law_settings_stand_for_what_they_hold(settings: Settings)
    ensures
        settings@.proxy == settings.proxy,
        settings@.cf_headers == settings.cf_headers,
        settings@.trusted == settings.trusted_proxies@,
{
}

/// What is taken note of: a time, with an address if there is one; a client named by CloudFlare, if
/// there is one; the addresses that are listed; a rule violation. Nothing else changes.
pub proof fn law_what_is_taken_note_of(
    state: EntryState,
    datetime: Seq<char>,
    ip: IpAddress,
    maybe_ip: Option<IpAddress>,
    hostname: Seq<char>,
    uri: Seq<char>,
    rule_id: Seq<char>,
    msg: Seq<char>,
)
    ensures
        with_connection(state, None, maybe_ip) == state,
        with_connection(state, Some(datetime), None) == (EntryState {
            datetime: Some(datetime),
            ..state
        }),
        with_connection(state, Some(datetime), Some(ip)) == (EntryState {
            datetime: Some(datetime),
            client_ip: Some(ip),
            ..state
        }),
        with_connecting_ip(state, None) == state,
        with_connecting_ip(state, Some(ip)) == (EntryState {
            client_ip: Some(ip),
            cfip_match: true,
            ..state
        }),
        with_forwarded(state, Seq::empty()) == state,
        with_violation(state, hostname, uri, rule_id, msg) == (EntryState {
            messages: state.messages + seq![violation_text(hostname, uri, rule_id, msg)],
            ..state
        }),
{
    reveal(Seq::filter_map);
    assert(with_forwarded(state, Seq::empty()).xffip_list =~= state.xffip_list);
    assert(with_violation(state, hostname, uri, rule_id, msg).messages =~= state.messages + seq![
        violation_text(hostname, uri, rule_id, msg),
    ]);
}

/// Of the addresses that are listed each is added behind the others, and what is none is left out.
pub proof fn law_listed_addresses_are_added_one_by_one(
    state: EntryState,
    ips: Seq<Option<IpAddress>>,
    ip: IpAddress,
)
    ensures
        with_forwarded(state, ips.push(None)) == with_forwarded(state, ips),
        with_forwarded(state, ips.push(Some(ip))) == (EntryState {
            xffip_list: with_forwarded(state, ips).xffip_list.push(ip),
            ..state
        }),
{
    lemma_one_more_known(ips, None);
    lemma_one_more_known(ips, Some(ip));
    assert(with_forwarded(state, ips.push(Some(ip))).xffip_list =~= with_forwarded(
        state,
        ips,
    ).xffip_list.push(ip));
}

/// Every part of a list is read for itself, without the white space around it.
pub proof fn law_every_part_of_a_list_is_read(list: Seq<char>, i: int)
    requires
        0 <= i < split_at_commas(list).len(),
    ensures
        listed_ips(list).len() == split_at_commas(list).len(),
        listed_ips(list)[i] == ip_of(trimmed(split_at_commas(list)[i])),
{
}

/// An address is reported as unreadable by the lines of sections A and B alone; a blank line, a
/// line that could not be read and the head of a section report none.
pub proof fn law_other_lines_report_no_address(
    settings: SettingsView,
    state: EntryState,
    line: Option<Seq<char>>,
)
    requires
        (state.section != Some(Section::A) && state.section != Some(Section::B)) || match line {
            Some(line) => trimmed(line).len() == 0 || headed_section(trimmed(line)) is Some,
            None => true,
        },
    ensures
        !names_no_ip(settings, state, line),
{
}

/// Were there a line in section Z, it would end the entry like the head of the section.
pub proof fn law_a_line_in_section_z_ends_the_entry(
    settings: SettingsView,
    state: EntryState,
    line: Seq<char>,
)
    requires
        state.section == Some(Section::Z),
        trimmed(line).len() > 0,
        headed_section(trimmed(line)) is None,
    ensures
        ({
            let messages = joined(state.messages, seq![',', ' ']);
            after_line(settings, state, Some(line)) == (
                no_entry(),
                if state.datetime is Some && state.client_ip is Some && messages.len() > 0 {
                    Some(
                        LogRecord {
                            datetime: state.datetime->0,
                            client_ip: state.client_ip->0,
                            messages,
                        },
                    )
                } else {
                    None
                },
            )
        }),
{
    reveal_strlit(", ");
    assert(", "@ =~= seq![',', ' ']);
}

} // verus!
