//! Lines of an audit log, put together from their parts: what is put together is read back.
use crate::pattern::{
    connecting_ip, connection_summary, forwarded_ips, has_name, header_value, headed_section,
    is_ip_list, law_violation_of_a_plain_text_is_found, looks_like_ip, rule_violation,
    violation_is_read,
};
use crate::section::{law_letters_that_name_a_section, section_of};
use crate::text::{
    any_white_space, is_number, is_space, is_white_space, law_split_of_two_texts,
    lemma_first_part_and_the_others, lemma_first_part_starts, lemma_space_before_is_trimmed,
    lemma_split_is_not_empty, lemma_split_without_separator, lemma_trimmed_start_leaves,
    lemma_trimmed_start_starts, split_at, split_at_char, split_at_commas, split_at_white_space,
    stands_at_most_once, the_char, trimmed_start,
};
use crate::violation::{
    has_violation, is_plain, lemma_labels_that_stand_once, reports_violation, ViolationReading,
};
use vstd::prelude::*;

verus! {

/// A decimal digit.
pub open spec fn is_digit(c: char) -> bool {
    '0' <= c <= '9'
}

/// An ASCII letter, capital or small.
pub open spec fn is_ascii_letter(c: char) -> bool {
    'a' <= c <= 'z' || 'A' <= c <= 'Z'
}

/// A letter in the name of a month, capital or small. The long s and the sign of the unit kelvin
/// are taken for the letters s and k.
pub open spec fn is_month_letter(c: char) -> bool {
    is_ascii_letter(c) || c == '\u{17f}' || c == '\u{212a}'
}

/// Whether `text` is a number of at least one and at most `most` digits.
pub open spec fn is_short_number(text: Seq<char>, most: nat) -> bool {
    1 <= text.len() <= most && forall|i: int| 0 <= i < text.len() ==> is_digit(#[trigger] text[i])
}

/// Whether `text` is a number.
pub open spec fn is_any_number(text: Seq<char>) -> bool {
    is_short_number(text, text.len())
}

/// Whether `text` is written like an IPv4 address, with digits and dots.
pub open spec fn is_like_ipv4(text: Seq<char>) -> bool {
    text.len() > 0 && forall|i: int|
        0 <= i < text.len() ==> is_digit(#[trigger] text[i]) || text[i] == '.'
}

/// Whether `text` is written like an IPv6 address, with hexadecimal digits and colons.
pub open spec fn is_like_ipv6(text: Seq<char>) -> bool {
    text.len() > 0 && forall|i: int|
        0 <= i < text.len() ==> is_digit(#[trigger] text[i]) || 'a' <= text[i] <= 'f' || 'A'
            <= text[i] <= 'F' || text[i] == ':'
}

/// Whether `text` is written like an address of one of the families.
pub open spec fn is_like_ip(text: Seq<char>) -> bool {
    is_like_ipv4(text) || is_like_ipv6(text)
}

/// What is written like an address looks like one, and nothing else does.
pub proof fn law_what_looks_like_an_address(text: Seq<char>)
    ensures
        looks_like_ip(text) <==> is_like_ip(text),
{
    assert forall|i: int| 0 <= i < text.len() implies ('a' <= #[trigger] crate::pattern::lower(
        text[i],
    ) <= 'f' <==> 'a' <= text[i] <= 'f' || 'A' <= text[i] <= 'F') by {
        if 'A' <= text[i] <= 'Z' {
            assert(crate::pattern::lower(text[i]) as int == text[i] as int + 32);
        }
    }
}

/// Whether `tid` can stand for a transaction in the head of a section.
pub open spec fn is_transaction_id(tid: Seq<char>) -> bool {
    tid.len() == 8 && forall|i: int|
        0 <= i < tid.len() ==> is_digit(#[trigger] tid[i]) || is_ascii_letter(tid[i])
}

/// The head of a section.
pub open spec fn head_line(tid: Seq<char>, letter: char) -> Seq<char> {
    seq!['-', '-', '-'] + tid + seq!['-', '-', '-'] + seq![letter] + seq!['-', '-']
}

/// The head of a section names the section of its letter.
pub proof fn law_a_head_names_the_section_of_its_letter(tid: Seq<char>, letter: char)
    requires
        is_transaction_id(tid),
    ensures
        headed_section(head_line(tid, letter)) == section_of(letter),
{
    let text = head_line(tid, letter);
    assert forall|i: int| 3 <= i < 11 implies #[trigger] text[i] == tid[i - 3] by {}
    assert(text[14] == letter);
}

/// Nothing else is the head of a section.
pub proof fn law_only_heads_name_a_section(text: Seq<char>)
    requires
        headed_section(text) is Some,
    ensures
        exists|tid: Seq<char>, letter: char|
            is_transaction_id(tid) && ('A' <= letter <= 'K' || letter == 'Z') && text
                == #[trigger] head_line(tid, letter) && headed_section(text) == section_of(letter),
{
    let tid = text.subrange(3, 11);
    law_letters_that_name_a_section(text[14]);
    assert forall|i: int| 0 <= i < tid.len() implies is_digit(#[trigger] tid[i]) || is_ascii_letter(
        tid[i],
    ) by {
        assert(crate::pattern::is_alphanumeric(text[i + 3]));
    }
    assert(text =~= head_line(tid, text[14]));
}

/// The parts of a connection summary.
pub struct SummaryLine {
    pub day: Seq<char>,
    pub month: Seq<char>,
    pub year: Seq<char>,
    pub hour: Seq<char>,
    pub minute: Seq<char>,
    pub second: Seq<char>,
    pub offset: Seq<char>,
    /// The two numbers of the transaction.
    pub number: Seq<char>,
    pub fraction: Seq<char>,
    pub ip: Seq<char>,
    pub port: Seq<char>,
    pub server_ip: Seq<char>,
    pub server_port: Seq<char>,
    /// The white space between the fields.
    pub spaces: Seq<char>,
}

impl SummaryLine {
    /// The date and the time of day.
    pub open spec fn date(self) -> Seq<char> {
        self.day + seq!['/'] + self.month + seq!['/'] + (self.year + seq![':'] + self.hour
            + seq![':'] + self.minute + seq![':'] + self.second)
    }

    /// What stands between the square brackets.
    pub open spec fn datetime(self) -> Seq<char> {
        self.date() + seq![self.spaces[0]] + self.offset
    }

    /// The line.
    pub open spec fn text(self) -> Seq<char> {
        seq!['['] + self.datetime() + seq![']'] + seq![self.spaces[1]] + (self.number + seq!['.']
            + self.fraction) + seq![self.spaces[2]] + self.ip + seq![self.spaces[3]] + self.port
            + seq![self.spaces[4]] + self.server_ip + seq![self.spaces[5]] + self.server_port
    }

    /// Whether the parts are made of what they can be made of.
    pub open spec fn wf(self) -> bool {
        &&& is_short_number(self.day, 2)
        &&& self.month.len() == 3
        &&& forall|i: int| 0 <= i < 3 ==> is_month_letter(#[trigger] self.month[i])
        &&& is_short_number(self.year, 4) && self.year.len() == 4
        &&& is_short_number(self.hour, 2)
        &&& is_short_number(self.minute, 2)
        &&& is_short_number(self.second, 2)
        &&& self.offset.len() > 0
        &&& forall|i: int|
            0 <= i < self.offset.len() ==> is_digit(#[trigger] self.offset[i]) || self.offset[i]
                == '+' || self.offset[i] == '-'
        &&& is_any_number(self.number)
        &&& is_any_number(self.fraction)
        &&& is_like_ip(self.ip)
        &&& is_any_number(self.port)
        &&& is_like_ip(self.server_ip)
        &&& is_any_number(self.server_port)
        &&& self.spaces.len() == 6
        &&& is_space(self.spaces)
    }

    proof fn lemma_date(self)
        requires
            self.wf(),
        ensures
            crate::pattern::looks_like_date(self.date()),
    {
        let slash = the_char('/');
        let colon = the_char(':');
        let time = self.year + seq![':'] + self.hour + seq![':'] + self.minute + seq![':']
            + self.second;
        lemma_split_without_separator(self.day, slash);
        lemma_split_without_separator(self.month, slash);
        lemma_split_without_separator(time, slash);
        law_split_of_two_texts(self.day, '/', self.month, slash);
        law_split_of_two_texts(self.day + seq!['/'] + self.month, '/', time, slash);
        assert(split_at_char(self.date(), '/') =~= seq![self.day, self.month, time]);
        lemma_split_without_separator(self.year, colon);
        lemma_split_without_separator(self.hour, colon);
        lemma_split_without_separator(self.minute, colon);
        lemma_split_without_separator(self.second, colon);
        law_split_of_two_texts(self.year, ':', self.hour, colon);
        law_split_of_two_texts(self.year + seq![':'] + self.hour, ':', self.minute, colon);
        law_split_of_two_texts(
            self.year + seq![':'] + self.hour + seq![':'] + self.minute,
            ':',
            self.second,
            colon,
        );
        assert(split_at_char(time, ':') =~= seq![self.year, self.hour, self.minute, self.second]);
        assert forall|i: int| 0 <= i < 3 implies crate::pattern::is_letter(
            #[trigger] self.month[i],
        ) by {
            if 'A' <= self.month[i] <= 'Z' {
                assert(crate::pattern::lower(self.month[i]) as int == self.month[i] as int + 32);
            }
        }
    }

    proof fn lemma_fields(self)
        requires
            self.wf(),
        ensures
            split_at_white_space(self.text()) == seq![
                seq!['['] + self.date(),
                self.offset + seq![']'],
                self.number + seq!['.'] + self.fraction,
                self.ip,
                self.port,
                self.server_ip,
                self.server_port,
            ],
    {
        let space = any_white_space();
        let first = seq!['['] + self.date();
        let second = self.offset + seq![']'];
        let third = self.number + seq!['.'] + self.fraction;
        lemma_split_without_separator(first, space);
        lemma_split_without_separator(second, space);
        lemma_split_without_separator(third, space);
        lemma_split_without_separator(self.ip, space);
        lemma_split_without_separator(self.port, space);
        lemma_split_without_separator(self.server_ip, space);
        lemma_split_without_separator(self.server_port, space);
        let to_1 = first + seq![self.spaces[0]] + second;
        let to_2 = to_1 + seq![self.spaces[1]] + third;
        let to_3 = to_2 + seq![self.spaces[2]] + self.ip;
        let to_4 = to_3 + seq![self.spaces[3]] + self.port;
        let to_5 = to_4 + seq![self.spaces[4]] + self.server_ip;
        assert(seq!['['] + self.datetime() + seq![']'] =~= to_1);
        law_split_of_two_texts(first, self.spaces[0], second, space);
        law_split_of_two_texts(to_1, self.spaces[1], third, space);
        law_split_of_two_texts(to_2, self.spaces[2], self.ip, space);
        law_split_of_two_texts(to_3, self.spaces[3], self.port, space);
        law_split_of_two_texts(to_4, self.spaces[4], self.server_ip, space);
        law_split_of_two_texts(to_5, self.spaces[5], self.server_port, space);
        assert(split_at_white_space(self.text()) =~= seq![
            first,
            second,
            third,
            self.ip,
            self.port,
            self.server_ip,
            self.server_port,
        ]);
    }
}

/// A connection summary gives the time that stands between its square brackets and the first of its
/// two addresses.
pub proof fn law_a_connection_summary_gives_the_time_and_the_client(line: SummaryLine)
    requires
        line.wf(),
    ensures
        connection_summary(line.text()) == Some((line.datetime(), line.ip)),
{
    let dot = the_char('.');
    let first = seq!['['] + line.date();
    let second = line.offset + seq![']'];
    let third = line.number + seq!['.'] + line.fraction;
    line.lemma_fields();
    line.lemma_date();
    assert(first.drop_first() =~= line.date());
    assert(second.drop_last() =~= line.offset);
    lemma_split_without_separator(line.number, dot);
    lemma_split_without_separator(line.fraction, dot);
    law_split_of_two_texts(line.number, '.', line.fraction, dot);
    assert(split_at_char(third, '.') =~= seq![line.number, line.fraction]);
    law_what_looks_like_an_address(line.ip);
    law_what_looks_like_an_address(line.server_ip);
    assert(line.text().subrange(1, (first.len() + second.len()) as int) =~= line.datetime());
}

/// A text is put together from its first three parts and what is behind them.
proof fn lemma_three_parts(text: Seq<char>, is_separator: spec_fn(char) -> bool) -> (r: (
    char,
    char,
    char,
    Seq<char>,
))
    requires
        split_at(text, is_separator).len() > 3,
    ensures
        is_separator(r.0) && is_separator(r.1) && is_separator(r.2),
        ({
            let parts = split_at(text, is_separator);
            text == parts[0] + seq![r.0] + parts[1] + seq![r.1] + parts[2] + seq![r.2] + r.3
        }),
        split_at(r.3, is_separator) == split_at(text, is_separator).skip(3),
{
    let parts = split_at(text, is_separator);
    let (c0, t1) = lemma_first_part_and_the_others(text, is_separator);
    let (c1, t2) = lemma_first_part_and_the_others(t1, is_separator);
    let (c2, t3) = lemma_first_part_and_the_others(t2, is_separator);
    assert(parts.skip(1).skip(1).skip(1) =~= parts.skip(3));
    assert(parts.skip(1)[0] == parts[1] && parts.skip(1).skip(1)[0] == parts[2]);
    assert(text =~= parts[0] + seq![c0] + parts[1] + seq![c1] + parts[2] + seq![c2] + t3);
    (c0, c1, c2, t3)
}

/// What looks like a date is put together from its parts.
proof fn lemma_date_parts(text: Seq<char>)
    requires
        crate::pattern::looks_like_date(text),
    ensures
        ({
            let date = split_at_char(text, '/');
            let time = split_at_char(date[2], ':');
            text == date[0] + seq!['/'] + date[1] + seq!['/'] + (time[0] + seq![':'] + time[1]
                + seq![':'] + time[2] + seq![':'] + time[3])
        }),
{
    let slash = the_char('/');
    let colon = the_char(':');
    let date = split_at_char(text, '/');
    let time = split_at_char(date[2], ':');
    let (c0, d1) = lemma_first_part_and_the_others(text, slash);
    let (c1, d2) = lemma_first_part_and_the_others(d1, slash);
    lemma_first_part_starts(d2, slash);
    assert(date.skip(1)[0] == date[1] && date.skip(1).skip(1)[0] == date[2]);
    let (k0, k1, k2, e3) = lemma_three_parts(date[2], colon);
    lemma_first_part_starts(e3, colon);
    assert(time.skip(3)[0] == time[3]);
    assert(text =~= date[0] + seq!['/'] + date[1] + seq!['/'] + date[2]);
}

/// A text of seven fields is put together from its fields and the white space between them.
proof fn lemma_seven_fields(text: Seq<char>) -> (spaces: Seq<char>)
    requires
        split_at_white_space(text).len() == 7,
    ensures
        spaces.len() == 6,
        is_space(spaces),
        ({
            let fields = split_at_white_space(text);
            text == fields[0] + seq![spaces[0]] + fields[1] + seq![spaces[1]] + fields[2] + seq![
                spaces[2],
            ] + fields[3] + seq![spaces[3]] + fields[4] + seq![spaces[4]] + fields[5] + seq![
                spaces[5],
            ] + fields[6]
        }),
{
    let space = any_white_space();
    let fields = split_at_white_space(text);
    let (s0, s1, s2, t3) = lemma_three_parts(text, space);
    let (s3, s4, s5, t6) = lemma_three_parts(t3, space);
    lemma_first_part_starts(t6, space);
    let spaces = seq![s0, s1, s2, s3, s4, s5];
    assert(fields.skip(3).skip(3) =~= fields.skip(6));
    assert(fields.skip(6)[0] == fields[6]);
    assert(fields.skip(3)[0] == fields[3] && fields.skip(3)[1] == fields[4] && fields.skip(3)[2]
        == fields[5]);
    let first = fields[0] + seq![s0] + fields[1] + seq![s1] + fields[2] + seq![s2];
    assert(t3 == fields[3] + seq![s3] + fields[4] + seq![s4] + fields[5] + seq![s5] + fields[6]);
    assert(first + (fields[3] + seq![s3] + fields[4] + seq![s4] + fields[5] + seq![s5] + fields[6])
        =~= first + fields[3] + seq![s3] + fields[4] + seq![s4] + fields[5] + seq![s5] + fields[6]);
    spaces
}

/// The parts of a connection summary.
spec fn summary_parts(fields: Seq<Seq<char>>, spaces: Seq<char>) -> SummaryLine {
    let date = split_at_char(fields[0].drop_first(), '/');
    let time = split_at_char(date[2], ':');
    let numbers = split_at_char(fields[2], '.');
    SummaryLine {
        day: date[0],
        month: date[1],
        year: time[0],
        hour: time[1],
        minute: time[2],
        second: time[3],
        offset: fields[1].drop_last(),
        number: numbers[0],
        fraction: numbers[1],
        ip: fields[3],
        port: fields[4],
        server_ip: fields[5],
        server_port: fields[6],
        spaces,
    }
}

proof fn lemma_summary_parts_are_wf(fields: Seq<Seq<char>>, spaces: Seq<char>)
    requires
        crate::pattern::is_connection_summary(fields),
        spaces.len() == 6,
        is_space(spaces),
    ensures
        summary_parts(fields, spaces).wf(),
{
    let line = summary_parts(fields, spaces);
    let date = split_at_char(fields[0].drop_first(), '/');
    let time = split_at_char(date[2], ':');
    law_what_looks_like_an_address(fields[3]);
    law_what_looks_like_an_address(fields[5]);
    assert forall|i: int| 0 <= i < 3 implies is_month_letter(#[trigger] line.month[i]) by {
        let c = line.month[i];
        assert(crate::pattern::is_letter(date[1][i]));
        if 'A' <= c <= 'Z' {
            assert(crate::pattern::lower(c) as int == c as int + 32);
        }
    }
    assert(is_number(time[1], 1, 2) && is_number(time[2], 1, 2) && is_number(time[3], 1, 2));
}

/// Nothing else is a connection summary.
pub proof fn law_only_connection_summaries_give_the_time_and_the_client(text: Seq<char>)
    requires
        connection_summary(text) is Some,
    ensures
        exists|line: SummaryLine| #[trigger]
            line.wf() && text == line.text() && connection_summary(text) == Some(
                (line.datetime(), line.ip),
            ),
{
    let fields = split_at_white_space(text);
    let spaces = lemma_seven_fields(text);
    let line = summary_parts(fields, spaces);
    lemma_summary_parts_are_wf(fields, spaces);
    lemma_date_parts(fields[0].drop_first());
    assert(fields[0] =~= seq!['['] + line.date());
    assert(fields[1] =~= line.offset + seq![']']);
    let dot = the_char('.');
    let (c, rest) = lemma_first_part_and_the_others(fields[2], dot);
    lemma_first_part_starts(rest, dot);
    assert(split_at_char(fields[2], '.').skip(1)[0] == line.fraction);
    assert(fields[2] =~= line.number + seq!['.'] + line.fraction);
    assert(seq!['['] + line.datetime() + seq![']'] =~= fields[0] + seq![spaces[0]] + fields[1]);
    assert(text == line.text());
    law_a_connection_summary_gives_the_time_and_the_client(line);
}

/// Whether `name` is `small`, with any of its letters as capital letters.
pub open spec fn is_in_any_case(name: Seq<char>, small: Seq<char>) -> bool {
    name.len() == small.len() && forall|i: int|
        0 <= i < name.len() ==> (#[trigger] name[i] == small[i] || ('a' <= small[i] <= 'z'
            && name[i] as int + 32 == small[i] as int))
}

/// Whether `name` is the name of a header: it is not empty and has no capital letter in it.
pub open spec fn is_small(name: Seq<char>) -> bool {
    name.len() > 0 && forall|i: int| 0 <= i < name.len() ==> !('A' <= #[trigger] name[i] <= 'Z')
}

proof fn lemma_header_value(
    small: Seq<char>,
    name: Seq<char>,
    gap: Seq<char>,
    value: Seq<char>,
)
    requires
        is_small(small),
        is_in_any_case(name, small),
        gap.len() > 0 && is_space(gap),
        value.len() > 0 && !is_white_space(value[0]),
    ensures
        header_value(name + gap + value, small) == Some(value),
{
    let text = name + gap + value;
    assert forall|i: int| 0 <= i < small.len() implies crate::pattern::lower(#[trigger] text[i])
        == small[i] by {
        assert(text[i] == name[i]);
    }
    assert(has_name(text, small));
    assert(text[small.len() as int] == gap[0]);
    assert(text.skip(small.len() as int) =~= gap + value);
    lemma_space_before_is_trimmed(gap, value);
}

proof fn lemma_header_parts(text: Seq<char>, small: Seq<char>) -> (r: (Seq<char>, Seq<char>))
    requires
        is_small(small),
        header_value(text, small) is Some,
    ensures
        is_in_any_case(r.0, small),
        r.1.len() > 0 && is_space(r.1),
        text == r.0 + r.1 + header_value(text, small)->0,
{
    let name = text.take(small.len() as int);
    let rest = text.skip(small.len() as int);
    let gap = lemma_trimmed_start_leaves(rest);
    assert forall|i: int| 0 <= i < name.len() implies (#[trigger] name[i] == small[i] || ('a'
        <= small[i] <= 'z' && name[i] as int + 32 == small[i] as int)) by {
        assert(crate::pattern::lower(text[i]) == small[i]);
        if 'A' <= text[i] <= 'Z' {
            assert(crate::pattern::lower(text[i]) as int == text[i] as int + 32);
        }
    }
    assert(rest[0] == text[small.len() as int]);
    lemma_trimmed_start_starts(rest);
    if gap.len() == 0 {
        assert(gap + trimmed_start(rest) =~= trimmed_start(rest));
    }
    assert(text =~= name + rest);
    assert(text =~= name + gap + trimmed_start(rest));
    (name, gap)
}

/// The header of CloudFlare gives the address behind its name; the name can be in capital or small
/// letters.
pub proof fn law_the_header_of_cloudflare_gives_its_address(
    name: Seq<char>,
    gap: Seq<char>,
    ip: Seq<char>,
)
    requires
        is_in_any_case(name, "cf-connecting-ip:"@),
        gap.len() > 0 && is_space(gap),
        is_like_ip(ip),
    ensures
        connecting_ip(name + gap + ip) == Some(ip),
        forwarded_ips(name + gap + ip) is None,
{
    reveal_strlit("cf-connecting-ip:");
    reveal_strlit("x-forwarded-for:");
    lemma_header_value("cf-connecting-ip:"@, name, gap, ip);
    law_what_looks_like_an_address(ip);
    let text = name + gap + ip;
    assert(text[0] == name[0]);
    assert("cf-connecting-ip:"@[0] == 'c' && "x-forwarded-for:"@[0] == 'x');
    assert(crate::pattern::lower(text[0]) != 'x');
}

/// Nothing else is the header of CloudFlare.
pub proof fn law_only_the_header_of_cloudflare_gives_its_address(text: Seq<char>)
    requires
        connecting_ip(text) is Some,
    ensures
        is_like_ip(connecting_ip(text)->0),
        exists|name: Seq<char>, gap: Seq<char>|
            is_in_any_case(name, "cf-connecting-ip:"@) && gap.len() > 0 && is_space(gap) && text
                == #[trigger] (name + gap + connecting_ip(text)->0),
{
    reveal_strlit("cf-connecting-ip:");
    law_what_looks_like_an_address(connecting_ip(text)->0);
    let (name, gap) = lemma_header_parts(text, "cf-connecting-ip:"@);
    assert(text == name + gap + connecting_ip(text)->0);
}

/// The header of the proxies gives the list behind its name; the name can be in capital or small
/// letters. A single address is a list.
pub proof fn law_the_header_of_the_proxies_gives_its_address(
    name: Seq<char>,
    gap: Seq<char>,
    ip: Seq<char>,
)
    requires
        is_in_any_case(name, "x-forwarded-for:"@),
        gap.len() > 0 && is_space(gap),
        is_like_ip(ip),
    ensures
        forwarded_ips(name + gap + ip) == Some(ip),
        connecting_ip(name + gap + ip) is None,
{
    reveal_strlit("cf-connecting-ip:");
    reveal_strlit("x-forwarded-for:");
    lemma_header_value("x-forwarded-for:"@, name, gap, ip);
    law_what_looks_like_an_address(ip);
    lemma_split_without_separator(ip, the_char(','));
    let text = name + gap + ip;
    assert(text[0] == name[0]);
    assert("cf-connecting-ip:"@[0] == 'c' && "x-forwarded-for:"@[0] == 'x');
    assert(crate::pattern::lower(text[0]) != 'c');
}

/// A list with one more address behind it, with a comma and maybe white space between, is a list
/// too, however long it is.
pub proof fn law_a_list_can_go_on(
    name: Seq<char>,
    gap: Seq<char>,
    list: Seq<char>,
    pad: Seq<char>,
    ip: Seq<char>,
)
    requires
        is_in_any_case(name, "x-forwarded-for:"@),
        gap.len() > 0 && is_space(gap),
        list.len() > 0 && !is_white_space(list[0]),
        forwarded_ips(name + gap + list) is Some,
        is_space(pad),
        is_like_ip(ip),
    ensures
        forwarded_ips(name + gap + (list + seq![','] + (pad + ip))) == Some(
            list + seq![','] + (pad + ip),
        ),
{
    reveal_strlit("x-forwarded-for:");
    let longer = list + seq![','] + (pad + ip);
    lemma_header_value("x-forwarded-for:"@, name, gap, list);
    lemma_header_value("x-forwarded-for:"@, name, gap, longer);
    law_what_looks_like_an_address(ip);
    lemma_list_goes_on(list, pad, ip);
}

/// Nothing else is the header of the proxies: what it gives is a list of what is written like
/// addresses, with white space only behind the commas.
pub proof fn law_only_the_header_of_the_proxies_gives_a_list(text: Seq<char>)
    requires
        forwarded_ips(text) is Some,
    ensures
        exists|name: Seq<char>, gap: Seq<char>|
            is_in_any_case(name, "x-forwarded-for:"@) && gap.len() > 0 && is_space(gap) && text
                == #[trigger] (name + gap + forwarded_ips(text)->0),
        is_like_ip(split_at_commas(forwarded_ips(text)->0)[0]),
        forall|i: int|
            0 < i < split_at_commas(forwarded_ips(text)->0).len() ==> is_like_ip(
                trimmed_start(#[trigger] split_at_commas(forwarded_ips(text)->0)[i]),
            ),
{
    reveal_strlit("x-forwarded-for:");
    let value = forwarded_ips(text)->0;
    let parts = split_at_commas(value);
    let (name, gap) = lemma_header_parts(text, "x-forwarded-for:"@);
    assert(text == name + gap + value);
    law_what_looks_like_an_address(parts[0]);
    assert forall|i: int| 0 < i < parts.len() implies is_like_ip(
        trimmed_start(#[trigger] parts[i]),
    ) by {
        law_what_looks_like_an_address(trimmed_start(parts[i]));
    }
}

/// The parts of a list that goes on.
pub proof fn lemma_list_parts(list: Seq<char>, pad: Seq<char>, ip: Seq<char>)
    requires
        is_space(pad),
        is_like_ip(ip),
    ensures
        split_at_commas(list + seq![','] + (pad + ip)) == split_at_commas(list).push(pad + ip),
{
    let comma = the_char(',');
    lemma_split_without_separator(pad + ip, comma);
    law_split_of_two_texts(list, ',', pad + ip, comma);
    assert(split_at_commas(list) + seq![pad + ip] =~= split_at_commas(list).push(pad + ip));
}

proof fn lemma_list_goes_on(list: Seq<char>, pad: Seq<char>, ip: Seq<char>)
    requires
        is_ip_list(list),
        is_space(pad),
        is_like_ip(ip),
    ensures
        is_ip_list(list + seq![','] + (pad + ip)),
{
    let parts = split_at_commas(list);
    let more = split_at_commas(list + seq![','] + (pad + ip));
    lemma_split_is_not_empty(list, the_char(','));
    lemma_list_parts(list, pad, ip);
    lemma_space_before_is_trimmed(pad, ip);
    law_what_looks_like_an_address(ip);
    assert forall|i: int| 0 < i < more.len() implies looks_like_ip(
        trimmed_start(#[trigger] more[i]),
    ) by {
        if i < parts.len() {
            assert(more[i] == parts[i]);
        } else {
            assert(more[i] == pad + ip);
        }
    }
}

/// Whether `text` is not empty and made of white space.
pub open spec fn is_gap(text: Seq<char>) -> bool {
    text.len() > 0 && forall|i: int| 0 <= i < text.len() ==> is_white_space(#[trigger] text[i])
}

/// Whether `text` is not empty and has no white space in it.
pub open spec fn is_unbroken(text: Seq<char>) -> bool {
    text.len() > 0 && forall|i: int| 0 <= i < text.len() ==> !is_white_space(#[trigger] text[i])
}

/// Whether `text` has no line feed in it.
pub open spec fn is_within_a_line(text: Seq<char>) -> bool {
    forall|i: int| 0 <= i < text.len() ==> #[trigger] text[i] != '\n'
}

/// Whether `c` is a printable ASCII character or white space.
pub open spec fn is_common(c: char) -> bool {
    32 <= c as int <= 126 || is_white_space(c)
}

/// The parts of a rule violation: its fields, what stands before each of them and behind the last
/// one, and the white space in them.
pub struct ViolationLine {
    pub before_id: Seq<char>,
    pub id_gap: Seq<char>,
    pub rule_id: Seq<char>,
    pub before_msg: Seq<char>,
    pub msg_gap: Seq<char>,
    pub msg: Seq<char>,
    pub before_hostname: Seq<char>,
    pub hostname_gap: Seq<char>,
    pub hostname: Seq<char>,
    pub before_uri: Seq<char>,
    pub uri_gap: Seq<char>,
    pub uri: Seq<char>,
    pub behind: Seq<char>,
}

impl ViolationLine {
    /// The line.
    pub open spec fn text(self) -> Seq<char> {
        "ModSecurity:"@ + self.before_id + ("[id"@ + self.id_gap + seq!['"'] + self.rule_id + seq![
            '"',
            ']',
        ]) + self.before_msg + ("[msg"@ + self.msg_gap + seq!['"'] + self.msg + seq!['"', ']'])
            + self.before_hostname + ("[hostname"@ + self.hostname_gap + seq!['"'] + self.hostname
            + seq!['"', ']']) + self.before_uri + ("[uri"@ + self.uri_gap + seq!['"'] + self.uri
            + seq!['"', ']']) + self.behind
    }

    /// Whether the parts are made of what they can be made of.
    pub open spec fn wf(self) -> bool {
        &&& is_any_number(self.rule_id)
        &&& self.msg.len() > 0 && !self.msg.contains('"')
        &&& is_unbroken(self.hostname)
        &&& is_unbroken(self.uri)
        &&& is_gap(self.id_gap) && is_gap(self.msg_gap) && is_gap(self.hostname_gap) && is_gap(
            self.before_uri,
        ) && is_gap(self.uri_gap)
        &&& is_within_a_line(self.before_id) && is_within_a_line(self.before_msg)
            && is_within_a_line(self.before_hostname) && is_within_a_line(self.behind)
    }

    /// The way to read the line that gives these parts.
    spec fn reading(self) -> ViolationReading {
        ViolationReading {
            gaps: seq![
                self.before_id,
                self.id_gap,
                self.before_msg,
                self.msg_gap,
                self.before_hostname,
                self.hostname_gap,
                self.before_uri,
                self.uri_gap,
                self.behind,
            ],
            hostname: self.hostname,
            uri: self.uri,
            rule_id: self.rule_id,
            msg: self.msg,
        }
    }

    proof fn lemma_reading(self)
        requires
            self.wf(),
        ensures
            self.reading().is_of(self.text()),
    {
        reveal_strlit("\"");
        reveal_strlit("\"]");
        assert("\""@ =~= seq!['"']);
        assert("\"]"@ =~= seq!['"', ']']);
    }
}

/// The line of a rule violation with a message in common characters is always found to be one,
/// whatever stands between its fields and however long they are.
pub proof fn law_a_violation_is_always_found(line: ViolationLine)
    requires
        line.wf(),
        forall|i: int| 0 <= i < line.msg.len() ==> is_common(#[trigger] line.msg[i]),
        violation_is_read(line.text()),
    ensures
        rule_violation(line.text()) is Some,
{
    line.lemma_reading();
    assert(reports_violation(line.text(), line.hostname, line.uri, line.rule_id, line.msg));
}

/// Where the labels stand once in a line of common characters, and white space or nothing follows
/// the path, what is found is exactly what stands in the fields.
pub proof fn law_the_fields_of_a_violation_are_found(line: ViolationLine)
    requires
        line.wf(),
        forall|i: int| 0 <= i < line.text().len() ==> is_common(#[trigger] line.text()[i]),
        stands_at_most_once(line.text(), "[id"@),
        stands_at_most_once(line.text(), "[msg"@),
        stands_at_most_once(line.text(), "[hostname"@),
        line.behind.len() > 0 ==> is_white_space(line.behind[0]),
        violation_is_read(line.text()),
    ensures
        rule_violation(line.text()) == Some(
            seq![line.hostname, line.uri, line.rule_id, line.msg],
        ),
{
    let text = line.text();
    let reading = line.reading();
    line.lemma_reading();
    assert forall|other: ViolationReading| #[trigger] other.is_of(text) && is_plain(
        other.msg,
    ) implies reading.is_as_good_as(other) by {
        lemma_labels_that_stand_once(text, reading, other);
    }
    assert(reading.is_best_of(text));
    assert(has_violation(text, line.hostname, line.uri, line.rule_id, line.msg));
    law_violation_of_a_plain_text_is_found(
        text,
        line.hostname,
        line.uri,
        line.rule_id,
        line.msg,
    );
}

/// What is found is always what stands in the fields of a rule violation.
pub proof fn law_only_violations_are_found(text: Seq<char>)
    requires
        violation_is_read(text),
        rule_violation(text) is Some,
    ensures
        exists|line: ViolationLine| #[trigger]
            line.wf() && text == line.text() && rule_violation(text) == Some(
                seq![line.hostname, line.uri, line.rule_id, line.msg],
            ),
{
    let found = rule_violation(text)->0;
    let reading = choose|reading: ViolationReading| #[trigger]
        reading.is_best_of(text) && reading.hostname == found[0] && reading.uri == found[1]
            && reading.rule_id == found[2] && reading.msg == found[3];
    let line = ViolationLine {
        before_id: reading.gaps[0],
        id_gap: reading.gaps[1],
        rule_id: reading.rule_id,
        before_msg: reading.gaps[2],
        msg_gap: reading.gaps[3],
        msg: reading.msg,
        before_hostname: reading.gaps[4],
        hostname_gap: reading.gaps[5],
        hostname: reading.hostname,
        before_uri: reading.gaps[6],
        uri_gap: reading.gaps[7],
        uri: reading.uri,
        behind: reading.gaps[8],
    };
    reveal_strlit("\"");
    reveal_strlit("\"]");
    assert("\""@ =~= seq!['"']);
    assert("\"]"@ =~= seq!['"', ']']);
    assert(line.wf());
    assert(text == line.text());
    assert(found =~= seq![line.hostname, line.uri, line.rule_id, line.msg]);
}

} // verus!
