//! What holds of the reading of audit logs as a whole.
use crate::address::{same_prefix, IpAddress, IpNetwork};
use crate::entry::{
    after_line, after_line_b, after_lines, entered, last_untrusted, no_entry, with_forwarded,
    EntryState, SettingsView,
};
use crate::message::LogRecord;
use crate::pattern::headed_section;
use crate::proxies::{covered, listed_networks};
use crate::section::Section;
use crate::text::{
    is_space, joined, law_space_around_is_trimmed, law_split_of_two_texts, split_at_commas,
    the_char, trimmed,
};
use crate::watch::{queued, WatchEvent};
use vstd::arithmetic::div_mod::{lemma_basic_div, lemma_div_denominator};
use vstd::arithmetic::power2::{
    lemma2_to64, lemma2_to64_rest, lemma_pow2_adds, lemma_pow2_pos, pow2,
};
use vstd::prelude::*;

verus! {

/// Whether a line does not count: it could not be read, or is blank.
pub open spec fn is_blank(line: Option<Seq<char>>) -> bool {
    match line {
        Some(line) => trimmed(line).len() == 0,
        None => true,
    }
}

/// Whether a line is the head of section Z, which ends an entry.
pub open spec fn ends_entry(line: Option<Seq<char>>) -> bool {
    line matches Some(line) && headed_section(trimmed(line)) == Some(Section::Z)
}

/// How many of the lines end an entry.
pub open spec fn entries_ended(lines: Seq<Option<Seq<char>>>) -> nat
    decreases lines.len(),
{
    if lines.len() == 0 {
        0
    } else if ends_entry(lines.last()) {
        entries_ended(lines.drop_last()) + 1
    } else {
        entries_ended(lines.drop_last())
    }
}

/// It makes no difference whether lines are read in one go or in two.
pub proof fn law_reading_can_be_interrupted(
    settings: SettingsView,
    state: EntryState,
    first: Seq<Option<Seq<char>>>,
    second: Seq<Option<Seq<char>>>,
)
    ensures
        ({
            let (between, logged_first) = after_lines(settings, state, first);
            let (end, logged_second) = after_lines(settings, between, second);
            after_lines(settings, state, first + second) == (end, logged_first + logged_second)
        }),
    decreases second.len(),
{
    let (between, logged_first) = after_lines(settings, state, first);
    if second.len() == 0 {
        assert(first + second =~= first);
        assert(logged_first + Seq::<LogRecord>::empty() =~= logged_first);
    } else {
        law_reading_can_be_interrupted(settings, state, first, second.drop_last());
        assert((first + second).drop_last() =~= first + second.drop_last());
        assert((first + second).last() == second.last());
        let (state_before, logged_before) = after_lines(settings, between, second.drop_last());
        if let Some(record) = after_line(settings, state_before, second.last()).1 {
            assert((logged_first + logged_before).push(record) =~= logged_first
                + logged_before.push(record));
        }
    }
}

/// Nothing of an entry is left once it has ended.
pub proof fn law_an_ended_entry_is_forgotten(
    settings: SettingsView,
    state: EntryState,
    line: Option<Seq<char>>,
)
    requires
        ends_entry(line),
    ensures
        after_line(settings, state, line).0 == no_entry(),
{
}

/// Entries do not influence each other: what is logged for a file with several entries is what is
/// logged for them one by one.
pub proof fn law_entries_are_independent(
    settings: SettingsView,
    first: Seq<Option<Seq<char>>>,
    second: Seq<Option<Seq<char>>>,
)
    requires
        first.len() > 0,
        ends_entry(first.last()),
    ensures
        after_lines(settings, no_entry(), first + second).1 == after_lines(
            settings,
            no_entry(),
            first,
        ).1 + after_lines(settings, no_entry(), second).1,
{
    law_reading_can_be_interrupted(settings, no_entry(), first, second);
    law_an_ended_entry_is_forgotten(
        settings,
        after_lines(settings, no_entry(), first.drop_last()).0,
        first.last(),
    );
}

/// No line is ever read as a line of section Z: the section is over with its head.
pub proof fn law_section_z_has_no_lines(
    settings: SettingsView,
    state: EntryState,
    lines: Seq<Option<Seq<char>>>,
)
    requires
        state.section != Some(Section::Z),
    ensures
        after_lines(settings, state, lines).0.section != Some(Section::Z),
    decreases lines.len(),
{
    if lines.len() > 0 {
        law_section_z_has_no_lines(settings, state, lines.drop_last());
    }
}

/// A line is logged only at the end of an entry.
pub proof fn law_only_the_end_of_an_entry_is_logged(
    settings: SettingsView,
    state: EntryState,
    line: Option<Seq<char>>,
)
    requires
        state.section != Some(Section::Z),
        !ends_entry(line),
    ensures
        after_line(settings, state, line).1 is None,
{
}

/// At most one line is logged for an entry, and none for an entry that has not ended.
pub proof fn law_at_most_one_line_per_entry(
    settings: SettingsView,
    lines: Seq<Option<Seq<char>>>,
)
    ensures
        after_lines(settings, no_entry(), lines).1.len() <= entries_ended(lines),
    decreases lines.len(),
{
    if lines.len() > 0 {
        let before = lines.drop_last();
        law_at_most_one_line_per_entry(settings, before);
        law_section_z_has_no_lines(settings, no_entry(), before);
        if !ends_entry(lines.last()) {
            law_only_the_end_of_an_entry_is_logged(
                settings,
                after_lines(settings, no_entry(), before).0,
                lines.last(),
            );
        }
    }
}

/// An entry is logged when it ends if and only if its time and its client are known by then and
/// there is something to say of it. What is logged has this time, this client, and all the rule
/// violations.
pub proof fn law_what_is_logged_of_an_entry(
    settings: SettingsView,
    state: EntryState,
    line: Option<Seq<char>>,
)
    requires
        ends_entry(line),
    ensures
        ({
            let end = entered(settings, state, Section::Z);
            &&& after_line(settings, state, line).1 is Some <==> end.datetime is Some
                && end.client_ip is Some && joined(state.messages, ", "@).len() > 0
            &&& after_line(settings, state, line).1 matches Some(record) ==> {
                &&& record.datetime == end.datetime->0
                &&& record.client_ip == end.client_ip->0
                &&& record.messages == joined(state.messages, ", "@)
            }
        }),
{
}

/// There is something to say of an entry if and only if it has a rule violation: an entry of a file
/// is logged when it ends if and only if its time and its client are known by then and it has a
/// rule violation.
pub proof fn law_an_entry_without_violations_is_not_logged(
    settings: SettingsView,
    before: Seq<Option<Seq<char>>>,
    line: Option<Seq<char>>,
)
    requires
        ends_entry(line),
    ensures
        ({
            let state = after_lines(settings, no_entry(), before).0;
            let end = entered(settings, state, Section::Z);
            after_line(settings, state, line).1 is Some <==> end.datetime is Some
                && end.client_ip is Some && state.messages.len() > 0
        }),
{
    let messages = after_lines(settings, no_entry(), before).0.messages;
    lemma_messages_are_not_empty(settings, before);
    if messages.len() > 0 {
        assert(messages[messages.len() - 1].len() > 0);
        assert(joined(messages, ", "@).len() > 0);
    }
}

/// No rule violation is logged as an empty text.
proof fn lemma_messages_are_not_empty(settings: SettingsView, lines: Seq<Option<Seq<char>>>)
    ensures
        ({
            let messages = after_lines(settings, no_entry(), lines).0.messages;
            forall|i: int| 0 <= i < messages.len() ==> (#[trigger] messages[i]).len() > 0
        }),
    decreases lines.len(),
{
    if lines.len() > 0 {
        lemma_messages_are_not_empty(settings, lines.drop_last());
        reveal_strlit("[uri ");
    }
}

/// A line after which all is as it was before it can be left out.
proof fn lemma_line_can_be_left_out(
    settings: SettingsView,
    state: EntryState,
    before: Seq<Option<Seq<char>>>,
    line: Option<Seq<char>>,
    after: Seq<Option<Seq<char>>>,
)
    requires
        ({
            let between = after_lines(settings, state, before).0;
            after_line(settings, between, line) == (between, None::<LogRecord>)
        }),
    ensures
        after_lines(settings, state, before + seq![line] + after) == after_lines(
            settings,
            state,
            before + after,
        ),
{
    law_reading_can_be_interrupted(settings, state, before, after);
    law_reading_can_be_interrupted(settings, state, before + seq![line], after);
    assert((before + seq![line]).drop_last() =~= before);
    assert((before + seq![line]).last() == line);
}

/// Blank lines, and lines that cannot be read, can stand anywhere and make no difference.
pub proof fn law_blank_lines_do_not_count(
    settings: SettingsView,
    state: EntryState,
    before: Seq<Option<Seq<char>>>,
    line: Option<Seq<char>>,
    after: Seq<Option<Seq<char>>>,
)
    requires
        is_blank(line),
    ensures
        after_lines(settings, state, before + seq![line] + after) == after_lines(
            settings,
            state,
            before + after,
        ),
{
    lemma_line_can_be_left_out(settings, state, before, line, after);
}

/// White space around a line makes no difference, wherever the line stands.
pub proof fn law_space_around_a_line_does_not_count(
    settings: SettingsView,
    state: EntryState,
    before: Seq<Option<Seq<char>>>,
    left: Seq<char>,
    line: Seq<char>,
    right: Seq<char>,
    after: Seq<Option<Seq<char>>>,
)
    requires
        is_space(left),
        is_space(right),
    ensures
        after_lines(settings, state, before + seq![Some(left + line + right)] + after)
            == after_lines(settings, state, before + seq![Some(line)] + after),
{
    let spaced = before + seq![Some(left + line + right)];
    let plain = before + seq![Some(line)];
    law_space_around_is_trimmed(left, line, right);
    assert(spaced.drop_last() =~= before && plain.drop_last() =~= before);
    assert(spaced.last() == Some(left + line + right) && plain.last() == Some(line));
    law_reading_can_be_interrupted(settings, state, spaced, after);
    law_reading_can_be_interrupted(settings, state, plain, after);
}

/// Only the sections A, B and H matter: a line of any other section, or outside any entry, makes no
/// difference to a file, unless it is the head of a section.
pub proof fn law_other_sections_do_not_count(
    settings: SettingsView,
    before: Seq<Option<Seq<char>>>,
    line: Option<Seq<char>>,
    after: Seq<Option<Seq<char>>>,
)
    requires
        !(after_lines(settings, no_entry(), before).0.section matches Some(section) && (section
            == Section::A || section == Section::B || section == Section::H)),
        line matches Some(line) ==> headed_section(trimmed(line)) is None,
    ensures
        after_lines(settings, no_entry(), before + seq![line] + after) == after_lines(
            settings,
            no_entry(),
            before + after,
        ),
{
    law_section_z_has_no_lines(settings, no_entry(), before);
    lemma_line_can_be_left_out(settings, no_entry(), before, line, after);
}

/// The rule violations of an entry are kept in order until it ends, whatever lines follow.
pub proof fn law_violations_are_kept_in_order(
    settings: SettingsView,
    state: EntryState,
    lines: Seq<Option<Seq<char>>>,
)
    requires
        state.section != Some(Section::Z),
        entries_ended(lines) == 0,
    ensures
        state.messages.is_prefix_of(after_lines(settings, state, lines).0.messages),
    decreases lines.len(),
{
    if lines.len() > 0 {
        law_violations_are_kept_in_order(settings, state, lines.drop_last());
        law_section_z_has_no_lines(settings, state, lines.drop_last());
    }
}

/// Without a proxy the request headers do not matter: a line of section B makes no difference to a
/// file, unless it is the head of a section.
pub proof fn law_without_proxy_headers_do_not_count(
    settings: SettingsView,
    state: EntryState,
    before: Seq<Option<Seq<char>>>,
    line: Option<Seq<char>>,
    after: Seq<Option<Seq<char>>>,
)
    requires
        !settings.proxy,
        after_lines(settings, state, before).0.section == Some(Section::B),
        line matches Some(line) ==> headed_section(trimmed(line)) is None,
    ensures
        after_lines(settings, state, before + seq![line] + after) == after_lines(
            settings,
            state,
            before + after,
        ),
{
    lemma_line_can_be_left_out(settings, state, before, line, after);
}

/// Without a proxy it does not matter which proxies are trusted, nor whether the header of
/// CloudFlare is looked for.
pub proof fn law_without_proxy_other_settings_do_not_count(
    settings: SettingsView,
    others: SettingsView,
    state: EntryState,
    lines: Seq<Option<Seq<char>>>,
)
    requires
        !settings.proxy,
        !others.proxy,
    ensures
        after_lines(settings, state, lines) == after_lines(others, state, lines),
    decreases lines.len(),
{
    if lines.len() > 0 {
        law_without_proxy_other_settings_do_not_count(settings, others, state, lines.drop_last());
    }
}

/// The client that CloudFlare names stays the client to the end of the request headers, whatever
/// the proxies list.
pub proof fn law_connecting_ip_is_preferred(
    settings: SettingsView,
    state: EntryState,
    section: Section,
    text: Seq<char>,
)
    requires
        settings.cf_headers,
        state.cfip_match,
    ensures
        entered(settings, state, section) == (EntryState { section: Some(section), ..state }),
        after_line_b(settings, state, text).client_ip == state.client_ip,
        after_line_b(settings, state, text).cfip_match,
{
}

/// Unless it is looked for, the header of CloudFlare does not count, and no client counts as named
/// by it.
pub proof fn law_connecting_ip_must_be_looked_for(
    settings: SettingsView,
    state: EntryState,
    text: Seq<char>,
)
    requires
        !settings.cf_headers,
    ensures
        after_line_b(settings, state, text).client_ip == state.client_ip,
        after_line_b(settings, state, text).cfip_match == state.cfip_match,
{
}

/// The client that is picked from a list of addresses is the last one that is not trusted: all
/// those behind it are trusted. None is picked if and only if all are trusted.
pub proof fn law_last_untrusted_is_picked(ips: Seq<IpAddress>, trusted: Set<IpAddress>)
    ensures
        match last_untrusted(ips, trusted) {
            Some(ip) => !trusted.contains(ip) && exists|i: int|
                0 <= i < ips.len() && #[trigger] ips[i] == ip && forall|j: int|
                    i < j < ips.len() ==> trusted.contains(#[trigger] ips[j]),
            None => forall|i: int| 0 <= i < ips.len() ==> trusted.contains(#[trigger] ips[i]),
        },
    decreases ips.len(),
{
    if ips.len() > 0 {
        let rest = ips.drop_last();
        if !trusted.contains(ips.last()) {
            assert(ips[ips.len() - 1] == ips.last());
        } else {
            law_last_untrusted_is_picked(rest, trusted);
            match last_untrusted(rest, trusted) {
                Some(ip) => {
                    let i = choose|i: int|
                        0 <= i < rest.len() && #[trigger] rest[i] == ip && forall|j: int|
                            i < j < rest.len() ==> trusted.contains(#[trigger] rest[j]);
                    assert(ips[i] == ip);
                    assert forall|j: int| i < j < ips.len() implies trusted.contains(
                        #[trigger] ips[j],
                    ) by {
                        if j < rest.len() {
                            assert(rest[j] == ips[j]);
                        }
                    }
                },
                None => {
                    assert forall|i: int| 0 <= i < ips.len() implies trusted.contains(
                        #[trigger] ips[i],
                    ) by {
                        if i < rest.len() {
                            assert(rest[i] == ips[i]);
                        }
                    }
                },
            }
        }
    }
}

/// On leaving the request headers, a trusted proxy never becomes the client: the client is then one
/// that was listed and is not trusted, or the one that was known before.
pub proof fn law_a_trusted_proxy_is_not_taken_for_the_client(
    settings: SettingsView,
    state: EntryState,
    section: Section,
)
    ensures
        ({
            let after = entered(settings, state, section);
            ||| after.client_ip == state.client_ip
            ||| after.client_ip matches Some(ip) && state.xffip_list.contains(ip)
                && !settings.trusted.contains(ip)
        }),
{
    law_last_untrusted_is_picked(state.xffip_list, settings.trusted);
}

/// Where every listed address is trusted, the client stays the one that was known before.
pub proof fn law_client_stays_where_all_are_trusted(
    settings: SettingsView,
    state: EntryState,
    section: Section,
)
    requires
        forall|i: int|
            0 <= i < state.xffip_list.len() ==> settings.trusted.contains(
                #[trigger] state.xffip_list[i],
            ),
    ensures
        entered(settings, state, section).client_ip == state.client_ip,
{
    law_last_untrusted_is_picked(state.xffip_list, settings.trusted);
}

/// Addresses that several headers list count like those of one header that lists them all.
pub proof fn law_forwarded_headers_add_up(
    state: EntryState,
    first: Seq<Option<IpAddress>>,
    second: Seq<Option<IpAddress>>,
)
    ensures
        with_forwarded(with_forwarded(state, first), second) == with_forwarded(
            state,
            first + second,
        ),
{
    let known = |ip: Option<IpAddress>| ip;
    lemma_filter_map_of_concatenation(first, second, known);
    assert(state.xffip_list + first.filter_map(known) + second.filter_map(known)
        =~= state.xffip_list + (first.filter_map(known) + second.filter_map(known)));
}

proof fn lemma_filter_map_of_concatenation(
    first: Seq<Option<IpAddress>>,
    second: Seq<Option<IpAddress>>,
    f: spec_fn(Option<IpAddress>) -> Option<IpAddress>,
)
    ensures
        (first + second).filter_map(f) == first.filter_map(f) + second.filter_map(f),
    decreases second.len(),
{
    reveal(Seq::filter_map);
    if second.len() == 0 {
        assert(first + second =~= first);
        assert(first.filter_map(f) + second.filter_map(f) =~= first.filter_map(f));
    } else {
        lemma_filter_map_of_concatenation(first, second.drop_last(), f);
        assert((first + second).drop_last() =~= first + second.drop_last());
        assert((first + second).filter_map(f) =~= first.filter_map(f) + second.filter_map(f));
    }
}

/// The parts of two texts with a comma between them are those of the one and those of the other.
pub proof fn law_lists_can_be_strung_together(first: Seq<char>, second: Seq<char>)
    ensures
        split_at_commas(first + seq![','] + second) == split_at_commas(first) + split_at_commas(
            second,
        ),
{
    law_split_of_two_texts(first, ',', second, the_char(','));
}

/// A list of proxies, strung together from two, trusts what the one or the other trusts. So the
/// order of the networks does not matter, nor does it matter how often one is named.
pub proof fn law_trusted_lists_add_up(first: Seq<char>, second: Seq<char>)
    ensures
        covered(listed_networks(first + seq![','] + second)) == covered(
            listed_networks(first),
        ).union(covered(listed_networks(second))),
{
    law_lists_can_be_strung_together(first, second);
    let a = listed_networks(first);
    let b = listed_networks(second);
    let all = listed_networks(first + seq![','] + second);
    assert(all =~= a + b);
    assert forall|ip: IpAddress| #[trigger]
        covered(all).contains(ip) <==> covered(a).contains(ip) || covered(b).contains(ip) by {
        if covered(a).contains(ip) {
            let i = choose|i: int|
                0 <= i < a.len() && (#[trigger] a[i] matches Some(network) && network.contains(ip));
            assert(all[i] == a[i]);
        }
        if covered(b).contains(ip) {
            let i = choose|i: int|
                0 <= i < b.len() && (#[trigger] b[i] matches Some(network) && network.contains(ip));
            assert(all[a.len() + i] == b[i]);
        }
        if covered(all).contains(ip) {
            let i = choose|i: int|
                0 <= i < all.len() && (#[trigger] all[i] matches Some(network) && network.contains(
                    ip,
                ));
            if i < a.len() {
                assert(a[i] == all[i]);
            } else {
                assert(b[i - a.len()] == all[i]);
            }
        }
    }
    assert(covered(all) =~= covered(a).union(covered(b)));
}

/// A network whose prefix is the whole address has this one address.
pub proof fn law_full_prefix_is_one_address(address: IpAddress, ip: IpAddress)
    ensures
        match address {
            IpAddress::V4(bits) => IpNetwork::V4(bits, 32).contains(ip) <==> ip == address,
            IpAddress::V6(bits) => IpNetwork::V6(bits, 128).contains(ip) <==> ip == address,
        },
{
    assert(forall|x: int| #[trigger] (x / 1) == x);
    assert(pow2(0) == 1) by {
        lemma2_to64();
    }
}

/// A network without a prefix has every address of its family.
pub proof fn law_empty_prefix_is_every_address(a: u32, b: u32, c: u128, d: u128)
    ensures
        IpNetwork::V4(a, 0).contains(IpAddress::V4(b)),
        IpNetwork::V6(c, 0).contains(IpAddress::V6(d)),
{
    assert(pow2(32) == 0x1_0000_0000 && pow2(64) == 0x1_0000_0000_0000_0000) by {
        lemma2_to64();
        lemma2_to64_rest();
    }
    lemma_pow2_adds(64, 64);
    assert(pow2(128) == 0x1_0000_0000_0000_0000_0000_0000_0000_0000);
    lemma_basic_div(a as int, pow2(32) as int);
    lemma_basic_div(b as int, pow2(32) as int);
    lemma_basic_div(c as int, pow2(128) as int);
    lemma_basic_div(d as int, pow2(128) as int);
}

/// A shorter prefix makes a wider network.
pub proof fn law_shorter_prefix_is_wider(
    v4: u32,
    v6: u128,
    shorter: u8,
    longer: u8,
    ip: IpAddress,
)
    requires
        shorter <= longer,
    ensures
        longer <= 32 && IpNetwork::V4(v4, longer).contains(ip) ==> IpNetwork::V4(
            v4,
            shorter,
        ).contains(ip),
        longer <= 128 && IpNetwork::V6(v6, longer).contains(ip) ==> IpNetwork::V6(
            v6,
            shorter,
        ).contains(ip),
{
    let more = (longer - shorter) as nat;
    match ip {
        IpAddress::V4(bits) => if longer <= 32 {
            lemma_same_prefix_is_wider(bits as nat, v4 as nat, (32 - longer) as nat, more);
        },
        IpAddress::V6(bits) => if longer <= 128 {
            lemma_same_prefix_is_wider(bits as nat, v6 as nat, (128 - longer) as nat, more);
        },
    }
}

proof fn lemma_same_prefix_is_wider(a: nat, b: nat, host_bits: nat, more: nat)
    ensures
        same_prefix(a, b, host_bits) ==> same_prefix(a, b, host_bits + more),
{
    lemma_pow2_adds(host_bits, more);
    lemma_pow2_pos(host_bits);
    lemma_pow2_pos(more);
    lemma_div_denominator(a as int, pow2(host_bits) as int, pow2(more) as int);
    lemma_div_denominator(b as int, pow2(host_bits) as int, pow2(more) as int);
}

/// A network belongs to one family: it has no address of the other.
pub proof fn law_families_are_apart(v4: u32, v6: u128, prefix_len: u8)
    ensures
        !IpNetwork::V4(v4, prefix_len).contains(IpAddress::V6(v6)),
        !IpNetwork::V6(v6, prefix_len).contains(IpAddress::V4(v4)),
{
}

/// It does not matter in which batches the events of the file system arrive.
pub proof fn law_batches_of_events_do_not_matter<P>(
    first: Seq<WatchEvent<P>>,
    second: Seq<WatchEvent<P>>,
)
    ensures
        queued(first + second) == queued(first) + queued(second),
    decreases second.len(),
{
    if second.len() == 0 {
        assert(first + second =~= first);
        assert(queued(first) + queued(second) =~= queued(first));
    } else {
        law_batches_of_events_do_not_matter(first, second.drop_last());
        assert((first + second).drop_last() =~= first + second.drop_last());
        assert(queued(first + second) =~= queued(first) + queued(second));
    }
}

} // verus!
