//! The proxies whose word on where a request came from is believed.
use crate::address::{
    dotted_decimal, has_bit, ip_of, law_a_network_has_what_starts_with_its_prefix,
    law_written_ipv4_is_read_back, lemma_dotted_decimal_characters, network_of, network_text,
    parse_ip, parse_network, with_prefix, IpAddress, IpNetwork,
};
use crate::laws::law_full_prefix_is_one_address;
use crate::text::{
    lemma_split_without_separator, split_at_commas, split_commas, the_char, trimmed,
};
use ipnet::{Ipv4Net, Ipv6Net};
use iprange::IpRange;
use vstd::prelude::*;

verus! {

/// A set of IPv4 networks.
#[verifier::external_body]
pub struct Ipv4Ranges {
    range: IpRange<Ipv4Net>,
}

/// A set of IPv6 networks.
#[verifier::external_body]
pub struct Ipv6Ranges {
    range: IpRange<Ipv6Net>,
}

/// The addresses that belong to one of the networks in `ranges`.
pub uninterp spec fn ipv4_addresses(ranges: Ipv4Ranges) -> Set<u32>;

/// The addresses that belong to one of the networks in `ranges`.
pub uninterp spec fn ipv6_addresses(ranges: Ipv6Ranges) -> Set<u128>;

/// `IpRange::new` of iprange for IPv4: the range holds no address.
#[verifier::external_body]
fn empty_v4() -> (ranges: Ipv4Ranges)
    ensures
        ipv4_addresses(ranges) == Set::<u32>::empty(),
{
    Ipv4Ranges { range: IpRange::new() }
}

/// `IpRange::new` of iprange for IPv6: the range holds no address.
#[verifier::external_body]
fn empty_v6() -> (ranges: Ipv6Ranges)
    ensures
        ipv6_addresses(ranges) == Set::<u128>::empty(),
{
    Ipv6Ranges { range: IpRange::new() }
}

/// `IpRange::add` of iprange for IPv4: the range gains the addresses that share the first
/// `prefix_len` bits of `address`, and loses none.
#[verifier::external_body]
fn add_v4(ranges: &mut Ipv4Ranges, address: u32, prefix_len: u8)
    requires
        prefix_len <= 32,
    ensures
        forall|bits: u32|
            ipv4_addresses(*final(ranges)).contains(bits) <==> ipv4_addresses(
                *old(ranges),
            ).contains(bits) || IpNetwork::V4(address, prefix_len).contains(
                IpAddress::V4(bits),
            ),
{
    ranges.range.add(Ipv4Net::new(address.into(), prefix_len).unwrap());
}

/// `IpRange::add` of iprange for IPv6: the range gains the addresses that share the first
/// `prefix_len` bits of `address`, and loses none.
#[verifier::external_body]
fn add_v6(ranges: &mut Ipv6Ranges, address: u128, prefix_len: u8)
    requires
        prefix_len <= 128,
    ensures
        forall|bits: u128|
            ipv6_addresses(*final(ranges)).contains(bits) <==> ipv6_addresses(
                *old(ranges),
            ).contains(bits) || IpNetwork::V6(address, prefix_len).contains(
                IpAddress::V6(bits),
            ),
{
    ranges.range.add(Ipv6Net::new(address.into(), prefix_len).unwrap());
}

/// `IpRange::contains` of iprange for a single IPv4 address.
#[verifier::external_body]
fn contains_v4(ranges: &Ipv4Ranges, bits: u32) -> (r: bool)
    ensures
        r == ipv4_addresses(*ranges).contains(bits),
{
    ranges.range.contains(&bits)
}

/// `IpRange::contains` of iprange for a single IPv6 address.
#[verifier::external_body]
fn contains_v6(ranges: &Ipv6Ranges, bits: u128) -> (r: bool)
    ensures
        r == ipv6_addresses(*ranges).contains(bits),
{
    ranges.range.contains(&bits)
}

/// The addresses of the proxies that are trusted.
pub struct TrustedProxies {
    v4: Ipv4Ranges,
    v6: Ipv6Ranges,
}

impl View for TrustedProxies {
    type V = Set<IpAddress>;

    closed spec fn view(&self) -> Set<IpAddress> {
        Set::new(
            |ip: IpAddress|
                match ip {
                    IpAddress::V4(bits) => ipv4_addresses(self.v4).contains(bits),
                    IpAddress::V6(bits) => ipv6_addresses(self.v6).contains(bits),
                },
        )
    }
}

/// The addresses in at least one of the networks; a `None` stands for no network.
pub open spec fn covered(networks: Seq<Option<IpNetwork>>) -> Set<IpAddress> {
    Set::new(
        |ip: IpAddress|
            exists|i: int|
                0 <= i < networks.len() && (#[trigger] networks[i] matches Some(network)
                    && network.contains(ip)),
    )
}

/// The network that has only this address.
pub open spec fn full_network(ip: Option<IpAddress>) -> Option<IpNetwork> {
    match ip {
        Some(IpAddress::V4(bits)) => Some(IpNetwork::V4(bits, 32)),
        Some(IpAddress::V6(bits)) => Some(IpNetwork::V6(bits, 128)),
        None => None,
    }
}

/// The set of this address alone; the empty set where there is none.
pub open spec fn single(ip: Option<IpAddress>) -> Set<IpAddress> {
    match ip {
        Some(ip) => Set::empty().insert(ip),
        None => Set::empty(),
    }
}

/// The network that a text names: a network, or else an address, which is the network that has
/// only this address.
pub open spec fn named_network(text: Seq<char>) -> Option<IpNetwork> {
    match network_of(text) {
        Some(network) => Some(network),
        None => full_network(ip_of(text)),
    }
}

/// The networks that a comma-separated list names, in order; `None` for a part that names none.
pub open spec fn listed_networks(list: Seq<char>) -> Seq<Option<IpNetwork>> {
    split_at_commas(list).map_values(|part: Seq<char>| named_network(trimmed(part)))
}

impl TrustedProxies {
    /// No proxy is trusted.
    pub fn new() -> (proxies: Self)
        ensures
            proxies@ == Set::<IpAddress>::empty(),
    {
        let proxies = TrustedProxies { v4: empty_v4(), v6: empty_v6() };
        assert(proxies@ =~= Set::<IpAddress>::empty());
        proxies
    }

    /// Trusts the addresses of one more network.
    pub fn trust(&mut self, network: IpNetwork)
        requires
            network.wf(),
        ensures
            final(self)@ == old(self)@.union(Set::new(|ip: IpAddress| network.contains(ip))),
    {
        match network {
            IpNetwork::V4(address, prefix_len) => add_v4(&mut self.v4, address, prefix_len),
            IpNetwork::V6(address, prefix_len) => add_v6(&mut self.v6, address, prefix_len),
        }
        assert(self@ =~= old(self)@.union(Set::new(|ip: IpAddress| network.contains(ip))));
    }

    /// Whether `ip` is the address of a trusted proxy.
    pub fn contains(&self, ip: IpAddress) -> (r: bool)
        ensures
            r == self@.contains(ip),
    {
        match ip {
            IpAddress::V4(bits) => contains_v4(&self.v4, bits),
            IpAddress::V6(bits) => contains_v6(&self.v6, bits),
        }
    }

    /// Trusts the addresses of the networks, and skips what is `None`.
    pub fn from_networks(networks: &Vec<Option<IpNetwork>>) -> (proxies: Self)
        requires
            forall|i: int|
                0 <= i < networks@.len() ==> (#[trigger] networks@[i] matches Some(network)
                    ==> network.wf()),
        ensures
            proxies@ == covered(networks@),
    {
        let mut proxies = TrustedProxies::new();
        assert(proxies@ =~= covered(networks@.take(0)));
        for i in 0..networks.len()
            invariant
                forall|j: int|
                    0 <= j < networks@.len() ==> (#[trigger] networks@[j] matches Some(network)
                        ==> network.wf()),
                proxies@ == covered(networks@.take(i as int)),
        {
            let ghost before = networks@.take(i as int);
            let ghost after = networks@.take(i + 1);
            assert(after =~= before.push(networks@[i as int]));
            proof {
                lemma_covered_push(before, networks@[i as int]);
            }
            match networks[i] {
                Some(network) => proxies.trust(network),
                None => {},
            }
        }
        assert(networks@.take(networks@.len() as int) =~= networks@);
        proxies
    }
}

/// What one more entry adds to the addresses that are covered.
proof fn lemma_covered_push(networks: Seq<Option<IpNetwork>>, entry: Option<IpNetwork>)
    ensures
        covered(networks.push(entry)) == covered(networks).union(
            Set::new(|ip: IpAddress| entry matches Some(network) && network.contains(ip)),
        ),
{
    let after = networks.push(entry);
    let added = Set::new(|ip: IpAddress| entry matches Some(network) && network.contains(ip));
    assert forall|ip: IpAddress| #[trigger]
        covered(after).contains(ip) <==> covered(networks).contains(ip) || added.contains(ip) by {
        if covered(networks).contains(ip) {
            let i = choose|i: int|
                0 <= i < networks.len() && (#[trigger] networks[i] matches Some(network)
                    && network.contains(ip));
            assert(after[i] == networks[i]);
        }
        if added.contains(ip) {
            assert(after[networks.len() as int] == entry);
        }
        if covered(after).contains(ip) {
            let i = choose|i: int|
                0 <= i < after.len() && (#[trigger] after[i] matches Some(network)
                    && network.contains(ip));
            if i < networks.len() {
                assert(networks[i] == after[i]);
            }
        }
    }
    assert(covered(after) =~= covered(networks).union(added));
}

/// What the network of a single address covers.
proof fn lemma_covered_single(ip: Option<IpAddress>)
    ensures
        covered(seq![full_network(ip)]) == single(ip),
{
    let networks = seq![full_network(ip)];
    assert forall|other: IpAddress| #[trigger]
        covered(networks).contains(other) <==> ip == Some(other) by {
        if let Some(ip) = ip {
            law_full_prefix_is_one_address(ip, other);
        }
        assert(networks[0] == full_network(ip));
    }
    assert(covered(networks) =~= single(ip));
}

/// An address is trusted if and only if a part of the list is a network that has it, or is no
/// network and is the address itself. So a network is trusted as it is read, whatever its family
/// and the length of its prefix.
pub proof fn law_who_is_trusted(list: Seq<char>, ip: IpAddress)
    ensures
        covered(listed_networks(list)).contains(ip) <==> exists|i: int|
            0 <= i < split_at_commas(list).len() && match network_of(
                trimmed(#[trigger] split_at_commas(list)[i]),
            ) {
                Some(network) => network.contains(ip),
                None => ip_of(trimmed(split_at_commas(list)[i])) == Some(ip),
            },
{
    let parts = split_at_commas(list);
    let networks = listed_networks(list);
    assert forall|i: int| 0 <= i < parts.len() implies ((#[trigger] networks[i] matches Some(
        network,
    ) && network.contains(ip)) <==> match network_of(trimmed(parts[i])) {
        Some(network) => network.contains(ip),
        None => ip_of(trimmed(parts[i])) == Some(ip),
    }) by {
        let part = trimmed(parts[i]);
        if let Some(address) = ip_of(part) {
            law_full_prefix_is_one_address(address, ip);
        }
    }
    if covered(networks).contains(ip) {
        let i = choose|i: int|
            0 <= i < networks.len() && (#[trigger] networks[i] matches Some(network)
                && network.contains(ip));
        assert(0 <= i < parts.len() && parts[i] == split_at_commas(list)[i]);
    }
    if exists|i: int|
        0 <= i < parts.len() && match network_of(trimmed(#[trigger] parts[i])) {
            Some(network) => network.contains(ip),
            None => ip_of(trimmed(parts[i])) == Some(ip),
        } {
        let i = choose|i: int|
            0 <= i < parts.len() && match network_of(trimmed(#[trigger] parts[i])) {
                Some(network) => network.contains(ip),
                None => ip_of(trimmed(parts[i])) == Some(ip),
            };
        assert(networks[i] matches Some(network) && network.contains(ip));
    }
}

/// A list of one network trusts the addresses that agree with it in the first `prefix_len` bits,
/// one by one, and no others.
pub proof fn law_a_single_network_is_trusted(
    list: Seq<char>,
    network: IpNetwork,
    v4: u32,
    v6: u128,
)
    requires
        !list.contains(','),
        network_of(trimmed(list)) == Some(network),
        network.wf(),
    ensures
        covered(listed_networks(list)).contains(IpAddress::V4(v4)) <==> (
        network matches IpNetwork::V4(address, prefix_len) && forall|place: nat|
            32 - prefix_len <= place < 32 ==> #[trigger] has_bit(v4 as nat, place) == has_bit(
                address as nat,
                place,
            )),
        covered(listed_networks(list)).contains(IpAddress::V6(v6)) <==> (
        network matches IpNetwork::V6(address, prefix_len) && forall|place: nat|
            128 - prefix_len <= place < 128 ==> #[trigger] has_bit(v6 as nat, place) == has_bit(
                address as nat,
                place,
            )),
{
    lemma_split_without_separator(list, the_char(','));
    assert(split_at_commas(list)[0] == list);
    law_who_is_trusted(list, IpAddress::V4(v4));
    law_who_is_trusted(list, IpAddress::V6(v6));
    law_a_network_has_what_starts_with_its_prefix(network, v4, v6);
}

/// Networks that are trusted together are those that are trusted one by one.
pub proof fn law_networks_are_trusted_one_by_one(
    networks: Seq<Option<IpNetwork>>,
    network: IpNetwork,
    ip: IpAddress,
)
    ensures
        !covered(Seq::empty()).contains(ip),
        covered(networks.push(None)).contains(ip) <==> covered(networks).contains(ip),
        covered(networks.push(Some(network))).contains(ip) <==> covered(networks).contains(ip)
            || network.contains(ip),
{
    lemma_covered_push(networks, None);
    lemma_covered_push(networks, Some(network));
}

/// Reads a network, or an address as the network that has only this address. What is in plain IPv4
/// notation is read as what it says; what has a prefix that is too long for IPv6 is not read, and
/// what has no slash is read as an address only.
fn read_network(text: &str) -> (network: Option<IpNetwork>)
    ensures
        network == named_network(text@),
        network matches Some(network) ==> network.wf(),
        forall|bits: u32|
            text@ == #[trigger] dotted_decimal(bits) ==> network == Some(IpNetwork::V4(bits, 32)),
        forall|address: u32, prefix_len: nat|
            text@ == #[trigger] network_text(address, prefix_len) ==> network == if prefix_len
                <= 32 {
                Some(IpNetwork::V4(address, prefix_len as u8))
            } else {
                None
            },
        forall|address: Seq<char>, prefix_len: nat|
            text@ == #[trigger] with_prefix(address, prefix_len) && prefix_len > 128 ==> network
                is None,
        !text@.contains('/') ==> network_of(text@) is None,
{
    proof {
        assert forall|bits: u32| text@ == #[trigger] dotted_decimal(bits) implies !text@.contains(
            '/',
        ) && ip_of(text@) == Some(IpAddress::V4(bits)) by {
            lemma_dotted_decimal_characters(bits);
            law_written_ipv4_is_read_back(bits);
        }
        assert forall|address: Seq<char>, prefix_len: nat|
            text@ == #[trigger] with_prefix(address, prefix_len) implies text@.contains('/') by {
            assert(text@[address.len() as int] == '/');
        }
    }
    match parse_network(text) {
        Some(network) => Some(network),
        None => match parse_ip(text) {
            Some(IpAddress::V4(bits)) => Some(IpNetwork::V4(bits, 32)),
            Some(IpAddress::V6(bits)) => Some(IpNetwork::V6(bits, 128)),
            None => None,
        },
    }
}

/// Reads the list of trusted proxies: addresses, and networks in the notation
/// `address/prefix_len`, with commas between them. A part that is neither is skipped; without a
/// list no proxy is trusted. Parts in plain IPv4 notation count as what they say, a part with a
/// prefix that is too long for IPv6 is skipped, and a part without a slash counts as an address
/// only. So a list of one address, of either family, trusts this address alone.
pub fn parse_trusted_ips(input: Option<String>) -> (proxies: TrustedProxies)
    ensures
        proxies@ == match input {
            Some(list) => covered(listed_networks(list@)),
            None => Set::empty(),
        },
        input matches Some(list) ==> forall|i: int, bits: u32|
            0 <= i < split_at_commas(list@).len() && trimmed(#[trigger] split_at_commas(list@)[i])
                == #[trigger] dotted_decimal(bits) ==> listed_networks(list@)[i] == Some(
                IpNetwork::V4(bits, 32),
            ),
        input matches Some(list) ==> forall|i: int, address: u32, prefix_len: nat|
            0 <= i < split_at_commas(list@).len() && trimmed(#[trigger] split_at_commas(list@)[i])
                == #[trigger] network_text(address, prefix_len) ==> listed_networks(list@)[i]
                == if prefix_len <= 32 {
                Some(IpNetwork::V4(address, prefix_len as u8))
            } else {
                None
            },
        input matches Some(list) ==> forall|i: int, address: Seq<char>, prefix_len: nat|
            0 <= i < split_at_commas(list@).len() && trimmed(#[trigger] split_at_commas(list@)[i])
                == #[trigger] with_prefix(address, prefix_len) && prefix_len > 128
                ==> listed_networks(list@)[i] is None,
        input matches Some(list) ==> forall|i: int|
            0 <= i < split_at_commas(list@).len() && !trimmed(
                #[trigger] split_at_commas(list@)[i],
            ).contains('/') ==> network_of(trimmed(split_at_commas(list@)[i])) is None,
        input matches Some(list) ==> !list@.contains(',') && !trimmed(list@).contains('/')
            ==> proxies@ == single(ip_of(trimmed(list@))),
        input matches Some(list) ==> forall|bits: u32|
            list@ == #[trigger] dotted_decimal(bits) ==> proxies@ == single(
                Some(IpAddress::V4(bits)),
            ),
{
    match input {
        None => TrustedProxies::new(),
        Some(list) => {
            let parts: Vec<String> = split_commas(list.as_str());
            let mut networks: Vec<Option<IpNetwork>> = Vec::new();
            let ghost listed = listed_networks(list@);
            for i in 0..parts.len()
                invariant
                    listed == listed_networks(list@),
                    parts.deep_view() == split_at_commas(list@),
                    networks@ == listed.take(i as int),
                    forall|j: int|
                        0 <= j < networks@.len() ==> (#[trigger] networks@[j] matches Some(network)
                            ==> network.wf()),
                    forall|j: int, bits: u32|
                        0 <= j < i && trimmed(#[trigger] split_at_commas(list@)[j])
                            == #[trigger] dotted_decimal(bits) ==> listed[j] == Some(
                            IpNetwork::V4(bits, 32),
                        ),
                    forall|j: int, address: u32, prefix_len: nat|
                        0 <= j < i && trimmed(#[trigger] split_at_commas(list@)[j])
                            == #[trigger] network_text(address, prefix_len) ==> listed[j]
                            == if prefix_len <= 32 {
                            Some(IpNetwork::V4(address, prefix_len as u8))
                        } else {
                            None
                        },
                    forall|j: int, address: Seq<char>, prefix_len: nat|
                        0 <= j < i && trimmed(#[trigger] split_at_commas(list@)[j])
                            == #[trigger] with_prefix(address, prefix_len) && prefix_len > 128
                            ==> listed[j] is None,
                    forall|j: int|
                        0 <= j < i && !trimmed(#[trigger] split_at_commas(list@)[j]).contains('/')
                            ==> network_of(trimmed(split_at_commas(list@)[j])) is None,
            {
                assert(parts.deep_view()[i as int] == parts@[i as int]@);
                networks.push(read_network(parts[i].as_str().trim()));
                assert(networks@ =~= listed.take(i + 1));
            }
            assert(listed.take(listed.len() as int) =~= listed);
            proof {
                if !list@.contains(',') && !trimmed(list@).contains('/') {
                    lemma_split_without_separator(list@, the_char(','));
                    assert(split_at_commas(list@)[0] == list@);
                    assert(listed =~= seq![named_network(trimmed(list@))]);
                    lemma_covered_single(ip_of(trimmed(list@)));
                }
                assert forall|bits: u32| list@ == #[trigger] dotted_decimal(
                    bits,
                ) implies !list@.contains(',') && !trimmed(list@).contains('/') && ip_of(
                    trimmed(list@),
                ) == Some(IpAddress::V4(bits)) by {
                    lemma_dotted_decimal_characters(bits);
                    law_written_ipv4_is_read_back(bits);
                    assert(trimmed(list@) == list@);
                }
            }
            TrustedProxies::from_networks(&networks)
        },
    }
}

} // verus!
