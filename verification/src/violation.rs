//! The line of a rule violation, and which of its fields are read where it has several.
use crate::text::{
    is_numeric, is_one_line, is_space, is_white_space, stands_at, stands_at_most_once,
};
use vstd::prelude::*;

verus! {

/// Whether `text` is made of white space, at least one character of it.
pub open spec fn is_blank_gap(text: Seq<char>) -> bool {
    text.len() > 0 && is_space(text)
}

/// Whether `text` is a word: it is not empty and has no white space in it.
pub open spec fn is_word(text: Seq<char>) -> bool {
    text.len() > 0 && forall|i: int| 0 <= i < text.len() ==> !is_white_space(#[trigger] text[i])
}

/// Whether `text` is plain: it has only printable ASCII characters and white space in it.
pub open spec fn is_plain(text: Seq<char>) -> bool {
    forall|i: int|
        0 <= i < text.len() ==> (' ' <= #[trigger] text[i] <= '~' || is_white_space(text[i]))
}

/// A field in square brackets: its label, which has the opening bracket, and its value in
/// quotation marks.
pub open spec fn field(label: Seq<char>, gap: Seq<char>, value: Seq<char>) -> Seq<char> {
    label + gap + "\""@ + value + "\"]"@
}

/// A way to read a line as a rule violation: its fields, and what stands around and in them.
#[verifier::ext_equal]
pub struct ViolationReading {
    pub gaps: Seq<Seq<char>>,
    pub hostname: Seq<char>,
    pub uri: Seq<char>,
    pub rule_id: Seq<char>,
    pub msg: Seq<char>,
}

impl ViolationReading {
    /// The line that is read.
    pub open spec fn line(self) -> Seq<char> {
        "ModSecurity:"@ + self.gaps[0] + field("[id"@, self.gaps[1], self.rule_id) + self.gaps[2]
            + field("[msg"@, self.gaps[3], self.msg) + self.gaps[4] + field(
            "[hostname"@,
            self.gaps[5],
            self.hostname,
        ) + self.gaps[6] + field("[uri"@, self.gaps[7], self.uri) + self.gaps[8]
    }

    /// Whether the fields and the gaps are made of what they can be made of.
    pub open spec fn wf(self) -> bool {
        &&& is_word(self.hostname)
        &&& is_word(self.uri)
        &&& is_numeric(self.rule_id)
        &&& self.msg.len() > 0 && !self.msg.contains('"')
        &&& self.gaps.len() == 9
        &&& is_blank_gap(self.gaps[1]) && is_blank_gap(self.gaps[3]) && is_blank_gap(self.gaps[5])
            && is_blank_gap(self.gaps[6]) && is_blank_gap(self.gaps[7])
        &&& is_one_line(self.gaps[0]) && is_one_line(self.gaps[2]) && is_one_line(self.gaps[4])
            && is_one_line(self.gaps[8])
    }

    /// Whether `text` can be read in this way.
    pub open spec fn is_of(self, text: Seq<char>) -> bool {
        self.wf() && text == self.line()
    }

    /// Whether this way to read a line is at least as good as the other. The number of the rule is
    /// looked for from the end of the line, then the message, then the host; the path is as long
    /// as can be.
    pub open spec fn is_as_good_as(self, other: Self) -> bool {
        if self.gaps[0].len() != other.gaps[0].len() {
            self.gaps[0].len() > other.gaps[0].len()
        } else if self.gaps[2].len() != other.gaps[2].len() {
            self.gaps[2].len() > other.gaps[2].len()
        } else if self.gaps[4].len() != other.gaps[4].len() {
            self.gaps[4].len() > other.gaps[4].len()
        } else {
            self.uri.len() >= other.uri.len()
        }
    }

    /// Whether this is a way to read `text`, and no way with a plain message is better.
    pub open spec fn is_best_of(self, text: Seq<char>) -> bool {
        &&& self.is_of(text)
        &&& forall|other: Self| #[trigger]
            other.is_of(text) && is_plain(other.msg) ==> self.is_as_good_as(other)
    }
}

/// Whether `text` is the line of a rule violation with these fields.
pub open spec fn reports_violation(
    text: Seq<char>,
    hostname: Seq<char>,
    uri: Seq<char>,
    rule_id: Seq<char>,
    msg: Seq<char>,
) -> bool {
    exists|reading: ViolationReading| #[trigger]
        reading.is_of(text) && reading.hostname == hostname && reading.uri == uri
            && reading.rule_id == rule_id && reading.msg == msg
}

/// Whether these are the fields to take where `text` is the line of a rule violation.
pub open spec fn has_violation(
    text: Seq<char>,
    hostname: Seq<char>,
    uri: Seq<char>,
    rule_id: Seq<char>,
    msg: Seq<char>,
) -> bool {
    exists|reading: ViolationReading| #[trigger]
        reading.is_best_of(text) && reading.hostname == hostname && reading.uri == uri
            && reading.rule_id == rule_id && reading.msg == msg
}

/// A text that is the same in two ways, with first parts of the same length, has the same parts.
proof fn lemma_same_length(a: Seq<char>, x: Seq<char>, b: Seq<char>, y: Seq<char>)
    requires
        a + x == b + y,
        a.len() == b.len(),
    ensures
        a == b,
        x == y,
{
    assert(a =~= (a + x).take(a.len() as int));
    assert(b =~= (b + y).take(b.len() as int));
    assert(x =~= (a + x).skip(a.len() as int));
    assert(y =~= (b + y).skip(b.len() as int));
}

/// A text that is the same in two ways has the same parts where the first part goes as far as its
/// characters are of a certain kind.
proof fn lemma_same_run(
    a: Seq<char>,
    x: Seq<char>,
    b: Seq<char>,
    y: Seq<char>,
    kind: spec_fn(char) -> bool,
)
    requires
        a + x == b + y,
        forall|i: int| 0 <= i < a.len() ==> kind(#[trigger] a[i]),
        forall|i: int| 0 <= i < b.len() ==> kind(#[trigger] b[i]),
        x.len() > 0 && !kind(x[0]),
        y.len() > 0 && !kind(y[0]),
    ensures
        a == b,
        x == y,
{
    if a.len() < b.len() {
        assert((a + x)[a.len() as int] == x[0]);
        assert((b + y)[a.len() as int] == b[a.len() as int]);
    } else if b.len() < a.len() {
        assert((b + y)[b.len() as int] == y[0]);
        assert((a + x)[b.len() as int] == a[b.len() as int]);
    }
    lemma_same_length(a, x, b, y);
}

/// The gap in a field ends where its value begins.
proof fn lemma_same_gap(
    label: Seq<char>,
    gap: Seq<char>,
    value: Seq<char>,
    rest: Seq<char>,
    other_gap: Seq<char>,
    other_value: Seq<char>,
    other_rest: Seq<char>,
)
    requires
        field(label, gap, value) + rest == field(label, other_gap, other_value) + other_rest,
        is_blank_gap(gap),
        is_blank_gap(other_gap),
    ensures
        gap == other_gap,
        value + ("\"]"@ + rest) == other_value + ("\"]"@ + other_rest),
{
    reveal_strlit("\"");
    let tail = "\""@ + (value + ("\"]"@ + rest));
    let other_tail = "\""@ + (other_value + ("\"]"@ + other_rest));
    assert(field(label, gap, value) + rest =~= label + (gap + tail));
    assert(field(label, other_gap, other_value) + other_rest =~= label + (other_gap + other_tail));
    lemma_same_length(label, gap + tail, label, other_gap + other_tail);
    lemma_same_run(gap, tail, other_gap, other_tail, |c: char| is_white_space(c));
    lemma_same_length(
        "\""@,
        value + ("\"]"@ + rest),
        "\""@,
        other_value + ("\"]"@ + other_rest),
    );
}

/// A field whose value has no quotation mark in it ends with the next quotation mark.
proof fn lemma_same_field(
    label: Seq<char>,
    gap: Seq<char>,
    value: Seq<char>,
    rest: Seq<char>,
    other_gap: Seq<char>,
    other_value: Seq<char>,
    other_rest: Seq<char>,
)
    requires
        field(label, gap, value) + rest == field(label, other_gap, other_value) + other_rest,
        is_blank_gap(gap),
        is_blank_gap(other_gap),
        !value.contains('"'),
        !other_value.contains('"'),
    ensures
        gap == other_gap,
        value == other_value,
        rest == other_rest,
{
    reveal_strlit("\"]");
    lemma_same_gap(label, gap, value, rest, other_gap, other_value, other_rest);
    lemma_same_run(
        value,
        "\"]"@ + rest,
        other_value,
        "\"]"@ + other_rest,
        |c: char| c != '"',
    );
    lemma_same_length("\"]"@, rest, "\"]"@, other_rest);
}

/// A field whose value is a word, with white space behind the field, ends before the next white
/// space.
proof fn lemma_same_word_field(
    label: Seq<char>,
    gap: Seq<char>,
    value: Seq<char>,
    rest: Seq<char>,
    other_gap: Seq<char>,
    other_value: Seq<char>,
    other_rest: Seq<char>,
)
    requires
        field(label, gap, value) + rest == field(label, other_gap, other_value) + other_rest,
        is_blank_gap(gap),
        is_blank_gap(other_gap),
        is_word(value),
        is_word(other_value),
        rest.len() > 0 && is_white_space(rest[0]),
        other_rest.len() > 0 && is_white_space(other_rest[0]),
    ensures
        gap == other_gap,
        value == other_value,
        rest == other_rest,
{
    reveal_strlit("\"]");
    lemma_same_gap(label, gap, value, rest, other_gap, other_value, other_rest);
    let word = value + "\"]"@;
    let other_word = other_value + "\"]"@;
    assert(value + ("\"]"@ + rest) =~= word + rest);
    assert(other_value + ("\"]"@ + other_rest) =~= other_word + other_rest);
    lemma_same_run(word, rest, other_word, other_rest, |c: char| !is_white_space(c));
    lemma_same_length(value, "\"]"@, other_value, "\"]"@);
}

impl ViolationReading {
    /// The line from the number of the rule on.
    spec fn from_rule_id(self) -> Seq<char> {
        field("[id"@, self.gaps[1], self.rule_id) + (self.gaps[2] + self.from_msg())
    }

    /// The line from the message on.
    spec fn from_msg(self) -> Seq<char> {
        field("[msg"@, self.gaps[3], self.msg) + (self.gaps[4] + self.from_hostname())
    }

    /// The line from the host on.
    spec fn from_hostname(self) -> Seq<char> {
        field("[hostname"@, self.gaps[5], self.hostname) + (self.gaps[6] + self.from_uri())
    }

    /// The line from the path on.
    spec fn from_uri(self) -> Seq<char> {
        field("[uri"@, self.gaps[7], self.uri) + self.gaps[8]
    }

    /// The line, from its start on.
    proof fn lemma_line(self)
        ensures
            self.line() == "ModSecurity:"@ + (self.gaps[0] + self.from_rule_id()),
    {
        let to_gap_0 = "ModSecurity:"@ + self.gaps[0];
        let to_id = to_gap_0 + field("[id"@, self.gaps[1], self.rule_id);
        let to_gap_2 = to_id + self.gaps[2];
        let to_msg = to_gap_2 + field("[msg"@, self.gaps[3], self.msg);
        let to_gap_4 = to_msg + self.gaps[4];
        let to_hostname = to_gap_4 + field("[hostname"@, self.gaps[5], self.hostname);
        let to_gap_6 = to_hostname + self.gaps[6];
        let uri = field("[uri"@, self.gaps[7], self.uri);
        assert(to_gap_6 + uri + self.gaps[8] =~= to_gap_6 + self.from_uri());
        assert(to_gap_6 + self.from_uri() =~= to_hostname + (self.gaps[6] + self.from_uri()));
        assert(to_hostname + (self.gaps[6] + self.from_uri()) =~= to_gap_4 + self.from_hostname());
        assert(to_gap_4 + self.from_hostname() =~= to_msg + (self.gaps[4] + self.from_hostname()));
        assert(to_msg + (self.gaps[4] + self.from_hostname()) =~= to_gap_2 + self.from_msg());
        assert(to_gap_2 + self.from_msg() =~= to_id + (self.gaps[2] + self.from_msg()));
        assert(to_id + (self.gaps[2] + self.from_msg()) =~= to_gap_0 + self.from_rule_id());
        assert(to_gap_0 + self.from_rule_id() =~= "ModSecurity:"@ + (self.gaps[0]
            + self.from_rule_id()));
    }
}

/// A rule violation starts with the name of ModSecurity.
pub proof fn lemma_violation_starts(
    text: Seq<char>,
    hostname: Seq<char>,
    uri: Seq<char>,
    rule_id: Seq<char>,
    msg: Seq<char>,
)
    requires
        reports_violation(text, hostname, uri, rule_id, msg),
    ensures
        "ModSecurity:"@.is_prefix_of(text),
{
    let reading = choose|reading: ViolationReading| #[trigger] reading.is_of(text);
    reading.lemma_line();
    assert("ModSecurity:"@ =~= text.subrange(0, "ModSecurity:"@.len() as int));
}

/// Of two ways to read a line one is better, unless they are the same.
pub proof fn law_equally_good_readings_are_the_same(
    text: Seq<char>,
    a: ViolationReading,
    b: ViolationReading,
)
    requires
        a.is_of(text),
        b.is_of(text),
        a.is_as_good_as(b),
        b.is_as_good_as(a),
    ensures
        a == b,
{
    a.lemma_line();
    b.lemma_line();
    lemma_same_length(
        "ModSecurity:"@,
        a.gaps[0] + a.from_rule_id(),
        "ModSecurity:"@,
        b.gaps[0] + b.from_rule_id(),
    );
    lemma_same_length(a.gaps[0], a.from_rule_id(), b.gaps[0], b.from_rule_id());
    lemma_same_field(
        "[id"@,
        a.gaps[1],
        a.rule_id,
        a.gaps[2] + a.from_msg(),
        b.gaps[1],
        b.rule_id,
        b.gaps[2] + b.from_msg(),
    );
    lemma_same_length(a.gaps[2], a.from_msg(), b.gaps[2], b.from_msg());
    lemma_same_field(
        "[msg"@,
        a.gaps[3],
        a.msg,
        a.gaps[4] + a.from_hostname(),
        b.gaps[3],
        b.msg,
        b.gaps[4] + b.from_hostname(),
    );
    lemma_same_length(a.gaps[4], a.from_hostname(), b.gaps[4], b.from_hostname());
    lemma_same_word_field(
        "[hostname"@,
        a.gaps[5],
        a.hostname,
        a.gaps[6] + a.from_uri(),
        b.gaps[5],
        b.hostname,
        b.gaps[6] + b.from_uri(),
    );
    reveal_strlit("[uri");
    lemma_same_run(
        a.gaps[6],
        a.from_uri(),
        b.gaps[6],
        b.from_uri(),
        |c: char| is_white_space(c),
    );
    lemma_same_gap("[uri"@, a.gaps[7], a.uri, a.gaps[8], b.gaps[7], b.uri, b.gaps[8]);
    lemma_same_length(a.uri, "\"]"@ + a.gaps[8], b.uri, "\"]"@ + b.gaps[8]);
    lemma_same_length("\"]"@, a.gaps[8], "\"]"@, b.gaps[8]);
    assert(a.gaps =~= b.gaps);
}

/// What starts a text stands behind what is before the text.
proof fn lemma_stands_behind(
    before: Seq<char>,
    gap: Seq<char>,
    piece: Seq<char>,
    rest: Seq<char>,
)
    ensures
        stands_at(before + (gap + (piece + rest)), piece, (before.len() + gap.len()) as int),
{
    let text = before + (gap + (piece + rest));
    let place = (before.len() + gap.len()) as int;
    assert(text.subrange(place, place + piece.len()) =~= piece);
}

impl ViolationReading {
    /// Where the parts of the line start with their labels.
    proof fn lemma_labels(self)
        ensures
            self.from_rule_id() == "[id"@ + self.from_rule_id().skip("[id"@.len() as int),
            self.from_msg() == "[msg"@ + self.from_msg().skip("[msg"@.len() as int),
            self.from_hostname() == "[hostname"@ + self.from_hostname().skip(
                "[hostname"@.len() as int,
            ),
    {
        assert(self.from_rule_id() =~= "[id"@ + self.from_rule_id().skip("[id"@.len() as int));
        assert(self.from_msg() =~= "[msg"@ + self.from_msg().skip("[msg"@.len() as int));
        assert(self.from_hostname() =~= "[hostname"@ + self.from_hostname().skip(
            "[hostname"@.len() as int,
        ));
    }
}

proof fn lemma_regrouped(a: Seq<char>, b: Seq<char>, c: Seq<char>, rest: Seq<char>)
    ensures
        a + (b + (c + rest)) == a + b + c + rest,
{
    assert(a + (b + (c + rest)) =~= a + b + c + rest);
}

/// A value that is a word, with white space or nothing behind the field, is the longest word that
/// can be read there.
proof fn lemma_word_is_longest(
    value: Seq<char>,
    rest: Seq<char>,
    other_value: Seq<char>,
    other_rest: Seq<char>,
)
    requires
        value + ("\"]"@ + rest) == other_value + ("\"]"@ + other_rest),
        is_word(other_value),
        rest.len() > 0 ==> is_white_space(rest[0]),
    ensures
        value.len() >= other_value.len(),
{
    reveal_strlit("\"]");
    let whole = value + ("\"]"@ + rest);
    if value.len() < other_value.len() {
        let end = (value.len() + 2) as int;
        assert(whole.len() == value.len() + 2 + rest.len());
        assert(whole.len() == other_value.len() + 2 + other_rest.len());
        assert(whole[end] == rest[0]);
        let word = other_value + "\"]"@;
        assert(whole =~= word + other_rest);
        assert(whole[end] == word[end]);
    }
}

/// Where the labels stand once in a line, and the path is not followed at once by something else,
/// there is no better way to read it.
#[verifier::rlimit(50)]
pub proof fn lemma_labels_that_stand_once(text: Seq<char>, a: ViolationReading, b: ViolationReading)
    requires
        a.is_of(text),
        b.is_of(text),
        stands_at_most_once(text, "[id"@),
        stands_at_most_once(text, "[msg"@),
        stands_at_most_once(text, "[hostname"@),
        a.gaps[8].len() > 0 ==> is_white_space(a.gaps[8][0]),
    ensures
        a.is_as_good_as(b),
{
    let name = "ModSecurity:"@;
    a.lemma_line();
    b.lemma_line();
    a.lemma_labels();
    b.lemma_labels();
    lemma_stands_behind(name, a.gaps[0], "[id"@, a.from_rule_id().skip("[id"@.len() as int));
    lemma_stands_behind(name, b.gaps[0], "[id"@, b.from_rule_id().skip("[id"@.len() as int));
    lemma_same_length(
        name,
        a.gaps[0] + a.from_rule_id(),
        name,
        b.gaps[0] + b.from_rule_id(),
    );
    lemma_same_length(a.gaps[0], a.from_rule_id(), b.gaps[0], b.from_rule_id());
    lemma_same_field(
        "[id"@,
        a.gaps[1],
        a.rule_id,
        a.gaps[2] + a.from_msg(),
        b.gaps[1],
        b.rule_id,
        b.gaps[2] + b.from_msg(),
    );
    let to_id = name + a.gaps[0] + field("[id"@, a.gaps[1], a.rule_id);
    lemma_regrouped(
        name,
        a.gaps[0],
        field("[id"@, a.gaps[1], a.rule_id),
        a.gaps[2] + a.from_msg(),
    );
    lemma_stands_behind(to_id, a.gaps[2], "[msg"@, a.from_msg().skip("[msg"@.len() as int));
    lemma_stands_behind(to_id, b.gaps[2], "[msg"@, b.from_msg().skip("[msg"@.len() as int));
    lemma_same_length(a.gaps[2], a.from_msg(), b.gaps[2], b.from_msg());
    lemma_same_field(
        "[msg"@,
        a.gaps[3],
        a.msg,
        a.gaps[4] + a.from_hostname(),
        b.gaps[3],
        b.msg,
        b.gaps[4] + b.from_hostname(),
    );
    let to_msg = to_id + a.gaps[2] + field("[msg"@, a.gaps[3], a.msg);
    lemma_regrouped(
        to_id,
        a.gaps[2],
        field("[msg"@, a.gaps[3], a.msg),
        a.gaps[4] + a.from_hostname(),
    );
    lemma_stands_behind(
        to_msg,
        a.gaps[4],
        "[hostname"@,
        a.from_hostname().skip("[hostname"@.len() as int),
    );
    lemma_stands_behind(
        to_msg,
        b.gaps[4],
        "[hostname"@,
        b.from_hostname().skip("[hostname"@.len() as int),
    );
    lemma_same_length(a.gaps[4], a.from_hostname(), b.gaps[4], b.from_hostname());
    lemma_same_word_field(
        "[hostname"@,
        a.gaps[5],
        a.hostname,
        a.gaps[6] + a.from_uri(),
        b.gaps[5],
        b.hostname,
        b.gaps[6] + b.from_uri(),
    );
    reveal_strlit("[uri");
    lemma_same_run(
        a.gaps[6],
        a.from_uri(),
        b.gaps[6],
        b.from_uri(),
        |c: char| is_white_space(c),
    );
    lemma_same_gap("[uri"@, a.gaps[7], a.uri, a.gaps[8], b.gaps[7], b.uri, b.gaps[8]);
    lemma_word_is_longest(a.uri, a.gaps[8], b.uri, b.gaps[8]);
}

/// The message of a plain line is plain.
proof fn lemma_message_is_plain(text: Seq<char>, reading: ViolationReading)
    requires
        reading.is_of(text),
        is_plain(text),
    ensures
        is_plain(reading.msg),
{
    let before = "ModSecurity:"@ + reading.gaps[0] + field(
        "[id"@,
        reading.gaps[1],
        reading.rule_id,
    ) + reading.gaps[2];
    reading.lemma_line();
    assert("ModSecurity:"@ + (reading.gaps[0] + reading.from_rule_id()) =~= before
        + reading.from_msg());
    let to_msg = before + ("[msg"@ + reading.gaps[3] + "\""@);
    let from_end = "\"]"@ + (reading.gaps[4] + reading.from_hostname());
    assert(before + reading.from_msg() =~= to_msg + reading.msg + from_end);
    assert forall|i: int| 0 <= i < reading.msg.len() implies (' ' <= #[trigger] reading.msg[i]
        <= '~' || is_white_space(reading.msg[i])) by {
        assert(text[to_msg.len() + i] == reading.msg[i]);
    }
}

/// The fields to take of a line are fields of it; those of a plain line have a plain message.
pub proof fn lemma_violation_is_reported(
    text: Seq<char>,
    hostname: Seq<char>,
    uri: Seq<char>,
    rule_id: Seq<char>,
    msg: Seq<char>,
)
    requires
        has_violation(text, hostname, uri, rule_id, msg),
    ensures
        reports_violation(text, hostname, uri, rule_id, msg),
        is_plain(text) ==> is_plain(msg),
{
    let reading = choose|reading: ViolationReading| #[trigger]
        reading.is_best_of(text) && reading.hostname == hostname && reading.uri == uri
            && reading.rule_id == rule_id && reading.msg == msg;
    assert(reading.is_of(text));
    if is_plain(text) {
        lemma_message_is_plain(text, reading);
    }
}

/// In a plain line there is no choice: at most one host, path, number and message are those to
/// take.
pub proof fn law_a_plain_line_has_at_most_one_violation(
    text: Seq<char>,
    hostname: Seq<char>,
    uri: Seq<char>,
    rule_id: Seq<char>,
    msg: Seq<char>,
    other_hostname: Seq<char>,
    other_uri: Seq<char>,
    other_rule_id: Seq<char>,
    other_msg: Seq<char>,
)
    requires
        is_plain(text),
        has_violation(text, hostname, uri, rule_id, msg),
        has_violation(text, other_hostname, other_uri, other_rule_id, other_msg),
    ensures
        hostname == other_hostname,
        uri == other_uri,
        rule_id == other_rule_id,
        msg == other_msg,
{
    let a = choose|reading: ViolationReading| #[trigger]
        reading.is_best_of(text) && reading.hostname == hostname && reading.uri == uri
            && reading.rule_id == rule_id && reading.msg == msg;
    let b = choose|reading: ViolationReading| #[trigger]
        reading.is_best_of(text) && reading.hostname == other_hostname && reading.uri
            == other_uri && reading.rule_id == other_rule_id && reading.msg == other_msg;
    lemma_message_is_plain(text, a);
    lemma_message_is_plain(text, b);
    law_equally_good_readings_are_the_same(text, a, b);
}

} // verus!
