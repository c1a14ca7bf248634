//! IP addresses and networks: what a text says, and how an address is written.
use crate::text::{
    is_numeric, is_one_line, law_split_of_two_texts, lemma_split_without_separator, split_at_char,
    the_char,
};
use vstd::arithmetic::div_mod::{lemma_basic_div, lemma_div_denominator};
use vstd::arithmetic::power2::{
    lemma2_to64, lemma2_to64_rest, lemma_pow2_adds, lemma_pow2_pos, lemma_pow2_unfold, pow2,
};
use vstd::prelude::*;

verus! {

/// An IP address, held as the number that its bits spell.
#[derive(Clone, Copy, Debug, PartialEq, Eq, Structural)]
pub enum IpAddress {
    V4(u32),
    V6(u128),
}

/// A network: an address and the length of its prefix. The bits of the address behind the prefix
/// have no meaning.
#[derive(Clone, Copy, Debug, PartialEq, Eq, Structural)]
pub enum IpNetwork {
    V4(u32, u8),
    V6(u128, u8),
}

/// Whether two addresses agree in all but their last `host_bits` bits.
pub open spec fn same_prefix(a: nat, b: nat, host_bits: nat) -> bool {
    a / pow2(host_bits) == b / pow2(host_bits)
}

impl IpNetwork {
    /// The prefix is no longer than the address.
    pub open spec fn wf(self) -> bool {
        match self {
            IpNetwork::V4(address, prefix_len) => prefix_len <= 32,
            IpNetwork::V6(address, prefix_len) => prefix_len <= 128,
        }
    }

    /// Whether `ip` belongs to the network: it is of the same family and starts with the same
    /// `prefix_len` bits.
    pub open spec fn contains(self, ip: IpAddress) -> bool {
        match (self, ip) {
            (IpNetwork::V4(address, prefix_len), IpAddress::V4(bits)) => same_prefix(
                bits as nat,
                address as nat,
                (32 - prefix_len) as nat,
            ),
            (IpNetwork::V6(address, prefix_len), IpAddress::V6(bits)) => same_prefix(
                bits as nat,
                address as nat,
                (128 - prefix_len) as nat,
            ),
            _ => false,
        }
    }
}

/// The decimal digit for a number below ten.
pub open spec fn digit(n: nat) -> char {
    (48 + n) as char
}

/// `n` in decimal notation, without leading zeros.
pub open spec fn decimal(n: nat) -> Seq<char>
    decreases n,
{
    if n < 10 {
        seq![digit(n)]
    } else {
        decimal(n / 10).push(digit(n % 10))
    }
}

/// The four octets of an IPv4 address in decimal notation, with a dot between neighbours.
pub open spec fn dotted_decimal(bits: u32) -> Seq<char> {
    decimal((bits / 0x100_0000) as nat) + seq!['.'] + decimal((bits / 0x1_0000 % 0x100) as nat)
        + seq!['.'] + decimal((bits / 0x100 % 0x100) as nat) + seq!['.'] + decimal(
        (bits % 0x100) as nat,
    )
}

/// What stands for an address, with the length of a prefix behind it.
pub open spec fn with_prefix(address: Seq<char>, prefix_len: nat) -> Seq<char> {
    address + seq!['/'] + decimal(prefix_len)
}

/// An IPv4 network in the notation `address/prefix_len`.
pub open spec fn network_text(address: u32, prefix_len: nat) -> Seq<char> {
    with_prefix(dotted_decimal(address), prefix_len)
}

/// The IPv6 address that std reads in a text, if it reads one.
pub uninterp spec fn ipv6_of(text: Seq<char>) -> Option<u128>;

/// The text that std writes for an IPv6 address.
pub uninterp spec fn ipv6_text(bits: u128) -> Seq<char>;

/// The network that ipnet reads in a text, if it reads one.
pub uninterp spec fn network_of(text: Seq<char>) -> Option<IpNetwork>;

/// The IPv4 address that a text is the dotted decimal notation of.
pub open spec fn ipv4_of(text: Seq<char>) -> Option<u32> {
    if exists|bits: u32| text == dotted_decimal(bits) {
        Some(choose|bits: u32| text == dotted_decimal(bits))
    } else {
        None
    }
}

/// The address of either family that a text is the notation of.
pub open spec fn ip_of(text: Seq<char>) -> Option<IpAddress> {
    match ipv4_of(text) {
        Some(bits) => Some(IpAddress::V4(bits)),
        None => match ipv6_of(text) {
            Some(bits) => Some(IpAddress::V6(bits)),
            None => None,
        },
    }
}

/// How an address is written.
pub open spec fn ip_text(ip: IpAddress) -> Seq<char> {
    match ip {
        IpAddress::V4(bits) => dotted_decimal(bits),
        IpAddress::V6(bits) => ipv6_text(bits),
    }
}

/// `str::parse` of std into an IP address, handed on through `ipnet::IpNet::new` and taken apart
/// into its bits. An IPv4 address is read in dotted decimal notation without leading zeros and
/// in no other; what is read as an IPv6 address goes by the name `ipv6_of`. A text with a slash is
/// no address.
#[verifier::external_body]
pub(crate) fn parse_ip(text: &str) -> (r: Option<IpAddress>)
    ensures
        r == match ipv4_of(text@) {
            Some(bits) => Some(IpAddress::V4(bits)),
            None => match ipv6_of(text@) {
                Some(bits) => Some(IpAddress::V6(bits)),
                None => None,
            },
        },
        text@.contains('/') ==> r is None,
{
    match ipnet::IpNet::new(text.parse().ok()?, 0).ok()? {
        ipnet::IpNet::V4(net) => Some(IpAddress::V4(net.addr().into())),
        ipnet::IpNet::V6(net) => Some(IpAddress::V6(net.addr().into())),
    }
}

/// `Display` of std for an IPv6 address, which is made from its bits through
/// `ipnet::Ipv6Net::new`. What is written goes by the name `ipv6_text`; it is made of hexadecimal
/// segments and separators, so it has no line feed in it.
#[verifier::external_body]
fn display_v6(bits: u128) -> (r: String)
    ensures
        r@ == ipv6_text(bits),
        is_one_line(r@),
{
    ipnet::Ipv6Net::new(bits.into(), 128).unwrap().addr().to_string()
}

/// `str::parse` into `ipnet::IpNet`, taken apart into the address and the length of the prefix.
/// What is read goes by the name `network_of`. A prefix is never longer than the address. An IPv4
/// network in plain notation is read as what it says, and is none where the prefix is too long.
/// Whatever the address, a text with a prefix that is too long for IPv6 is no network. A text
/// without a slash is no network either.
#[verifier::external_body]
pub(crate) fn parse_network(text: &str) -> (r: Option<IpNetwork>)
    ensures
        r == network_of(text@),
        r matches Some(network) ==> network.wf(),
        forall|address: u32, prefix_len: nat|
            text@ == #[trigger] network_text(address, prefix_len) ==> r == if prefix_len <= 32 {
                Some(IpNetwork::V4(address, prefix_len as u8))
            } else {
                None
            },
        forall|address: Seq<char>, prefix_len: nat|
            text@ == #[trigger] with_prefix(address, prefix_len) && prefix_len > 128 ==> r is None,
        !text@.contains('/') ==> r is None,
{
    match text.parse::<ipnet::IpNet>().ok()? {
        ipnet::IpNet::V4(net) => Some(IpNetwork::V4(net.addr().into(), net.prefix_len())),
        ipnet::IpNet::V6(net) => Some(IpNetwork::V6(net.addr().into(), net.prefix_len())),
    }
}

/// The decimal notation of a number is made of digits.
pub proof fn lemma_decimal_is_numeric(n: nat)
    ensures
        is_numeric(decimal(n)),
    decreases n,
{
    if n >= 10 {
        lemma_decimal_is_numeric(n / 10);
    }
}

/// Different numbers have different decimal notations.
pub proof fn lemma_decimal_is_injective(m: nat, n: nat)
    requires
        decimal(m) == decimal(n),
    ensures
        m == n,
    decreases m,
{
    lemma_decimal_is_numeric(m / 10);
    lemma_decimal_is_numeric(n / 10);
    assert(decimal(m).len() == decimal(n).len());
    assert(decimal(m).last() == digit(m % 10) && digit(m % 10) as u32 == 48 + m % 10);
    assert(decimal(n).last() == digit(n % 10) && digit(n % 10) as u32 == 48 + n % 10);
    if m >= 10 && n >= 10 {
        assert(decimal(m).drop_last() =~= decimal(m / 10));
        assert(decimal(n).drop_last() =~= decimal(n / 10));
        lemma_decimal_is_injective(m / 10, n / 10);
    }
}

/// Two texts that start with digits and go on with a dot have the same digits before it.
proof fn lemma_same_before_dot(a: Seq<char>, b: Seq<char>, c: Seq<char>, d: Seq<char>)
    requires
        is_numeric(a),
        is_numeric(c),
        a + seq!['.'] + b == c + seq!['.'] + d,
    ensures
        a == c,
        b == d,
{
    let left = a + seq!['.'] + b;
    let right = c + seq!['.'] + d;
    assert(left[a.len() as int] == '.');
    assert(right[c.len() as int] == '.');
    if a.len() < c.len() {
        assert(right[a.len() as int] == c[a.len() as int]);
    }
    if c.len() < a.len() {
        assert(left[c.len() as int] == a[c.len() as int]);
    }
    assert forall|i: int| 0 <= i < a.len() implies a[i] == c[i] by {
        assert(left[i] == a[i] && right[i] == c[i]);
    }
    assert(a =~= c);
    assert(left.len() == a.len() + 1 + b.len());
    assert(right.len() == c.len() + 1 + d.len());
    assert(b.len() == d.len());
    assert forall|i: int| 0 <= i < b.len() implies b[i] == d[i] by {
        assert(left[a.len() + 1 + i] == b[i] && right[c.len() + 1 + i] == d[i]);
    }
    assert(b =~= d);
}

/// Different IPv4 addresses have different dotted decimal notations.
pub proof fn lemma_dotted_decimal_is_injective(a: u32, b: u32)
    requires
        dotted_decimal(a) == dotted_decimal(b),
    ensures
        a == b,
{
    let a1 = (a / 0x100_0000) as nat;
    let a2 = (a / 0x1_0000 % 0x100) as nat;
    let a3 = (a / 0x100 % 0x100) as nat;
    let a4 = (a % 0x100) as nat;
    let b1 = (b / 0x100_0000) as nat;
    let b2 = (b / 0x1_0000 % 0x100) as nat;
    let b3 = (b / 0x100 % 0x100) as nat;
    let b4 = (b % 0x100) as nat;
    let dot = seq!['.'];
    lemma_decimal_is_numeric(a1);
    lemma_decimal_is_numeric(a2);
    lemma_decimal_is_numeric(a3);
    lemma_decimal_is_numeric(b1);
    lemma_decimal_is_numeric(b2);
    lemma_decimal_is_numeric(b3);
    let a34 = decimal(a3) + dot + decimal(a4);
    let b34 = decimal(b3) + dot + decimal(b4);
    let a234 = decimal(a2) + dot + a34;
    let b234 = decimal(b2) + dot + b34;
    assert(dotted_decimal(a) =~= decimal(a1) + dot + a234);
    assert(dotted_decimal(b) =~= decimal(b1) + dot + b234);
    lemma_same_before_dot(decimal(a1), a234, decimal(b1), b234);
    lemma_same_before_dot(decimal(a2), a34, decimal(b2), b34);
    lemma_same_before_dot(decimal(a3), decimal(a4), decimal(b3), decimal(b4));
    lemma_decimal_is_injective(a1, b1);
    lemma_decimal_is_injective(a2, b2);
    lemma_decimal_is_injective(a3, b3);
    lemma_decimal_is_injective(a4, b4);
}

/// The dotted decimal notation is made of digits and dots.
pub proof fn lemma_dotted_decimal_characters(bits: u32)
    ensures
        dotted_decimal(bits).len() > 0,
        forall|i: int|
            0 <= i < dotted_decimal(bits).len() ==> ('0' <= #[trigger] dotted_decimal(bits)[i]
                <= '9' || dotted_decimal(bits)[i] == '.'),
{
    lemma_decimal_is_numeric((bits / 0x100_0000) as nat);
    lemma_decimal_is_numeric((bits / 0x1_0000 % 0x100) as nat);
    lemma_decimal_is_numeric((bits / 0x100 % 0x100) as nat);
    lemma_decimal_is_numeric((bits % 0x100) as nat);
}

/// What is written for an IPv4 address is read as that address.
pub proof fn law_written_ipv4_is_read_back(bits: u32)
    ensures
        ip_of(ip_text(IpAddress::V4(bits))) == Some(IpAddress::V4(bits)),
{
    let text = dotted_decimal(bits);
    let found = choose|found: u32| text == dotted_decimal(found);
    assert(text == dotted_decimal(found));
    lemma_dotted_decimal_is_injective(bits, found);
}

/// The number that a text of decimal digits spells.
pub open spec fn spelled(text: Seq<char>) -> nat
    decreases text.len(),
{
    if text.len() == 0 {
        0
    } else {
        (10 * spelled(text.drop_last()) + (text.last() as int - '0' as int)) as nat
    }
}

/// The decimal notation of a number spells this number, and has no leading zero.
pub proof fn law_decimal_notation_spells_the_number(n: nat)
    ensures
        spelled(decimal(n)) == n,
        decimal(n).len() > 1 ==> decimal(n)[0] != '0',
        forall|i: int| 0 <= i < decimal(n).len() ==> '0' <= #[trigger] decimal(n)[i] <= '9',
    decreases n,
{
    reveal_with_fuel(spelled, 2);
    lemma_decimal_is_numeric(n);
    if n >= 10 {
        law_decimal_notation_spells_the_number(n / 10);
        assert(decimal(n).drop_last() =~= decimal(n / 10));
        assert(decimal(n).last() as int == 48 + n % 10);
        if decimal(n / 10).len() == 1 {
            assert(decimal(n / 10).drop_last() =~= Seq::empty());
            assert(spelled(decimal(n / 10)) == decimal(n / 10)[0] as int - 48);
        }
        assert(decimal(n)[0] == decimal(n / 10)[0]);
    } else {
        assert(decimal(n).drop_last() =~= Seq::empty());
        assert(decimal(n).last() as int == 48 + n);
    }
}

/// An IPv4 address is written as four numbers below 256, with a dot between neighbours and without
/// leading zeros, and the four numbers are its octets, the highest first.
pub proof fn law_dotted_decimal_has_the_four_octets(bits: u32)
    ensures
        ({
            let parts = split_at_char(dotted_decimal(bits), '.');
            &&& parts.len() == 4
            &&& forall|i: int|
                0 <= i < 4 ==> is_numeric(#[trigger] parts[i]) && spelled(parts[i]) < 256 && (
                parts[i].len() > 1 ==> parts[i][0] != '0')
            &&& bits == ((spelled(parts[0]) * 256 + spelled(parts[1])) * 256 + spelled(parts[2]))
                * 256 + spelled(parts[3])
        }),
{
    let dot = the_char('.');
    let a = decimal((bits / 0x100_0000) as nat);
    let b = decimal((bits / 0x1_0000 % 0x100) as nat);
    let c = decimal((bits / 0x100 % 0x100) as nat);
    let d = decimal((bits % 0x100) as nat);
    law_decimal_notation_spells_the_number((bits / 0x100_0000) as nat);
    law_decimal_notation_spells_the_number((bits / 0x1_0000 % 0x100) as nat);
    law_decimal_notation_spells_the_number((bits / 0x100 % 0x100) as nat);
    law_decimal_notation_spells_the_number((bits % 0x100) as nat);
    lemma_decimal_is_numeric((bits / 0x100_0000) as nat);
    lemma_decimal_is_numeric((bits / 0x1_0000 % 0x100) as nat);
    lemma_decimal_is_numeric((bits / 0x100 % 0x100) as nat);
    lemma_decimal_is_numeric((bits % 0x100) as nat);
    lemma_split_without_separator(a, dot);
    lemma_split_without_separator(b, dot);
    lemma_split_without_separator(c, dot);
    lemma_split_without_separator(d, dot);
    law_split_of_two_texts(a, '.', b, dot);
    law_split_of_two_texts(a + seq!['.'] + b, '.', c, dot);
    law_split_of_two_texts(a + seq!['.'] + b + seq!['.'] + c, '.', d, dot);
    assert(split_at_char(dotted_decimal(bits), '.') =~= seq![a, b, c, d]);
}

/// A text is read as an IPv4 address if and only if it is what is written for it, and as an IPv6
/// address if and only if std reads it as that and it is no IPv4 address.
pub proof fn law_what_is_read_as_an_address(text: Seq<char>, v4: u32, v6: u128)
    ensures
        ip_of(text) == Some(IpAddress::V4(v4)) <==> text == dotted_decimal(v4),
        ip_of(text) == Some(IpAddress::V6(v6)) <==> ipv6_of(text) == Some(v6) && !exists|bits: u32|
            text == dotted_decimal(bits),
{
    if exists|bits: u32| text == dotted_decimal(bits) {
        let found = choose|bits: u32| text == dotted_decimal(bits);
        if text == dotted_decimal(v4) {
            lemma_dotted_decimal_is_injective(v4, found);
        }
    }
}

/// An address is written in dotted decimal notation, or as std writes an IPv6 address.
pub proof fn law_what_is_written_for_an_address(v4: u32, v6: u128)
    ensures
        ip_text(IpAddress::V4(v4)) == dotted_decimal(v4),
        ip_text(IpAddress::V6(v6)) == ipv6_text(v6),
{
}

/// Whether `bits` has a one at a place, counted from the lowest bit.
pub open spec fn has_bit(bits: nat, place: nat) -> bool {
    bits / pow2(place) % 2 == 1
}

proof fn lemma_same_prefix_bit_by_bit(a: nat, b: nat, host_bits: nat, width: nat)
    requires
        host_bits <= width,
        a < pow2(width),
        b < pow2(width),
    ensures
        same_prefix(a, b, host_bits) <==> forall|place: nat|
            host_bits <= place < width ==> #[trigger] has_bit(a, place) == has_bit(b, place),
    decreases width - host_bits,
{
    if host_bits == width {
        lemma_basic_div(a as int, pow2(width) as int);
        lemma_basic_div(b as int, pow2(width) as int);
    } else {
        lemma_same_prefix_bit_by_bit(a, b, host_bits + 1, width);
        let unit = pow2(host_bits);
        lemma_pow2_pos(host_bits);
        lemma_pow2_unfold(host_bits + 1);
        lemma_div_denominator(a as int, unit as int, 2);
        lemma_div_denominator(b as int, unit as int, 2);
        assert(unit * 2 == pow2(host_bits + 1));
        let x = a / unit;
        let y = b / unit;
        assert(a / pow2(host_bits + 1) == x / 2 && b / pow2(host_bits + 1) == y / 2);
        assert(x == y <==> x / 2 == y / 2 && x % 2 == y % 2);
        assert(has_bit(a, host_bits) == (x % 2 == 1) && has_bit(b, host_bits) == (y % 2 == 1));
        if same_prefix(a, b, host_bits) {
            assert forall|place: nat| host_bits <= place < width implies #[trigger] has_bit(
                a,
                place,
            ) == has_bit(b, place) by {}
        }
    }
}

/// An address belongs to a network if and only if it is of the same family and agrees with it in
/// the first `prefix_len` bits, one by one.
pub proof fn law_a_network_has_what_starts_with_its_prefix(
    network: IpNetwork,
    v4: u32,
    v6: u128,
)
    requires
        network.wf(),
    ensures
        network.contains(IpAddress::V4(v4)) <==> (network matches IpNetwork::V4(address, prefix_len)
            && forall|place: nat|
            32 - prefix_len <= place < 32 ==> #[trigger] has_bit(v4 as nat, place) == has_bit(
                address as nat,
                place,
            )),
        network.contains(IpAddress::V6(v6)) <==> (network matches IpNetwork::V6(address, prefix_len)
            && forall|place: nat|
            128 - prefix_len <= place < 128 ==> #[trigger] has_bit(v6 as nat, place) == has_bit(
                address as nat,
                place,
            )),
{
    assert(pow2(32) == 0x1_0000_0000 && pow2(64) == 0x1_0000_0000_0000_0000) by {
        lemma2_to64();
        lemma2_to64_rest();
    }
    lemma_pow2_adds(64, 64);
    assert(pow2(128) == 0x1_0000_0000_0000_0000_0000_0000_0000_0000);
    match network {
        IpNetwork::V4(address, prefix_len) => {
            lemma_same_prefix_bit_by_bit(v4 as nat, address as nat, (32 - prefix_len) as nat, 32);
        },
        IpNetwork::V6(address, prefix_len) => {
            lemma_same_prefix_bit_by_bit(
                v6 as nat,
                address as nat,
                (128 - prefix_len) as nat,
                128,
            );
        },
    }
}

/// Appends the decimal digit for a number below ten.
fn append_digit(text: &mut String, n: u32)
    requires
        n < 10,
    ensures
        final(text)@ == old(text)@.push(digit(n as nat)),
{
    let ghost before = text@;
    proof {
        reveal_strlit("0");
        reveal_strlit("1");
        reveal_strlit("2");
        reveal_strlit("3");
        reveal_strlit("4");
        reveal_strlit("5");
        reveal_strlit("6");
        reveal_strlit("7");
        reveal_strlit("8");
        reveal_strlit("9");
    }
    match n {
        0 => text.append("0"),
        1 => text.append("1"),
        2 => text.append("2"),
        3 => text.append("3"),
        4 => text.append("4"),
        5 => text.append("5"),
        6 => text.append("6"),
        7 => text.append("7"),
        8 => text.append("8"),
        _ => text.append("9"),
    }
    assert(text@ =~= before.push(digit(n as nat)));
}

/// Appends a number in decimal notation.
fn append_decimal(text: &mut String, n: u32)
    ensures
        final(text)@ == old(text)@ + decimal(n as nat),
    decreases n,
{
    let ghost before = text@;
    if n >= 10 {
        append_decimal(text, n / 10);
    }
    append_digit(text, n % 10);
    assert(text@ =~= before + decimal(n as nat));
}

impl IpAddress {
    /// The address as text.
    pub fn to_text(&self) -> (text: String)
        ensures
            text@ == ip_text(*self),
            is_one_line(text@),
    {
        match *self {
            IpAddress::V4(bits) => {
                proof {
                    reveal_strlit(".");
                }
                let mut text = String::new();
                append_decimal(&mut text, bits / 0x100_0000);
                text.append(".");
                append_decimal(&mut text, bits / 0x1_0000 % 0x100);
                text.append(".");
                append_decimal(&mut text, bits / 0x100 % 0x100);
                text.append(".");
                append_decimal(&mut text, bits % 0x100);
                assert(text@ =~= dotted_decimal(bits));
                proof {
                    lemma_dotted_decimal_characters(bits);
                }
                text
            },
            IpAddress::V6(bits) => display_v6(bits),
        }
    }
}

} // verus!
