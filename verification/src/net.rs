//! Where the server listens, and who can reach it there.

use vstd::prelude::*;
use crate::config::Config;
use crate::json::str_eq;
use crate::keys::{has_any_active, spec_has_any_active, KeyStore};
use crate::text::{chars_of, concat};

verus! {

broadcast use vstd::string::group_string_axioms;

/// The hosts that only this machine can reach.
pub open spec fn loopback(host: Seq<char>) -> bool {
    host == "127.0.0.1"@ || host == "::1"@ || host == "localhost"@
}

pub fn is_loopback_host(host: &str) -> (r: bool)
    ensures
        r == loopback(host@),
{
    str_eq(host, "127.0.0.1") || str_eq(host, "::1") || str_eq(host, "localhost")
}

/// Why a server may not listen off loopback with no key.
pub open spec fn unsafe_bind_message(host: Seq<char>) -> Seq<char> {
    "refusing to bind "@ + host
        + " with no API key configured.\nThis server spends your ChatGPT subscription; off-loopback and unauthenticated, anyone who can reach the port can spend it too.\nCreate a key first (`auth2api keys new`), or bind 127.0.0.1."@
}

/// Refuses to expose the subscription to the network without a key: off
/// loopback and with nothing that could authenticate, this server would be
/// an open relay for the user's ChatGPT plan.
pub fn check_bind_safety(config: &Config, store: &KeyStore) -> (r: Result<(), String>)
    ensures
        (loopback(config.host@) || spec_has_any_active(*config, *store)) <==> r is Ok,
        r matches Err(e) ==> e@ == unsafe_bind_message(config.host@),
{
    if is_loopback_host(config.host.as_str()) || has_any_active(config, store) {
        return Ok(());
    }
    let head = concat("refusing to bind ", config.host.as_str());
    Err(
        concat(
            head.as_str(),
            " with no API key configured.\nThis server spends your ChatGPT subscription; off-loopback and unauthenticated, anyone who can reach the port can spend it too.\nCreate a key first (`auth2api keys new`), or bind 127.0.0.1.",
        ),
    )
}

/// Whether the bind check has to look at the key store at all: on loopback,
/// or with the legacy key set, it passes whatever the store holds, so the
/// store need not be read.
pub fn needs_key_store(config: &Config) -> (r: bool)
    ensures
        r == !(loopback(config.host@) || config.api_key@.len() > 0),
        !r ==> forall|s: KeyStore| loopback(config.host@) || #[trigger] spec_has_any_active(*config, s),
{
    !(is_loopback_host(config.host.as_str()) || !config.api_key.as_str().is_empty())
}

/// The host the server binds: every interface when opened to the network,
/// loopback otherwise.
pub fn bind_host(open: bool) -> (r: &'static str)
    ensures
        r@ == if open {
            "0.0.0.0"@
        } else {
            "127.0.0.1"@
        },
{
    if open {
        "0.0.0.0"
    } else {
        "127.0.0.1"
    }
}

/// The name prefixes of VPN and virtual tunnel interfaces.
pub open spec fn tunnel_prefixes() -> Seq<Seq<char>> {
    seq!["utun"@, "tun"@, "tap"@, "ppp"@, "ipsec"@, "wg"@, "zt"@]
}

/// Whether an interface is a VPN or virtual tunnel. These are left out
/// rather than ranked down: with a VPN up, the tunnel is the route to the
/// internet and carries a private-looking address, and it is the one
/// address nobody on the local network can reach.
pub open spec fn tunnel(name: Seq<char>) -> bool {
    exists|i: int| 0 <= i < 7 && #[trigger] tunnel_prefixes()[i].is_prefix_of(name)
}

fn starts_with(s: &str, prefix: &str) -> (r: bool)
    ensures
        r == prefix@.is_prefix_of(s@),
{
    match crate::text::strip_prefix(s, prefix) {
        Some(_) => true,
        None => false,
    }
}

pub fn is_tunnel(name: &str) -> (r: bool)
    ensures
        r == tunnel(name@),
{
    let prefixes = ["utun", "tun", "tap", "ppp", "ipsec", "wg", "zt"];
    let ghost want = tunnel_prefixes();
    for i in 0..7usize
        invariant
            want == tunnel_prefixes(),
            forall|j: int| 0 <= j < 7 ==> (#[trigger] prefixes@[j])@ == want[j],
            forall|j: int| 0 <= j < i ==> !(#[trigger] want[j]).is_prefix_of(name@),
    {
        if starts_with(name, prefixes[i]) {
            assert(want[i as int].is_prefix_of(name@));
            return true;
        }
    }
    false
}

/// One network interface, as the machine reports it.
pub struct Interface {
    pub name: String,
    pub loopback: bool,
    /// Its IPv4 address, written out, where it has one.
    pub ipv4: Option<String>,
    /// Whether that address is link-local, which needs a scope to dial.
    pub link_local: bool,
}

/// An address another machine on the network could dial.
pub struct LanAddr {
    pub iface: String,
    pub ip: String,
}

/// Physical interfaces (`en0`, `eth0`, `wlan0`) come first; bridges and
/// virtual adapters, commonly up but unrouted, after them.
pub open spec fn physical(name: Seq<char>) -> bool {
    "en"@.is_prefix_of(name) || "et"@.is_prefix_of(name) || "wl"@.is_prefix_of(name)
}

/// An interface worth offering: not loopback, not a tunnel, with an IPv4
/// address that is not link-local.
pub open spec fn dialable(i: Interface) -> bool {
    !i.loopback && !tunnel(i.name@) && i.ipv4 is Some && !i.link_local
}

/// The dialable interfaces among `s` that are (or are not) physical, in
/// order, as addresses.
pub open spec fn offered(s: Seq<Interface>, phys: bool) -> Seq<(Seq<char>, Seq<char>)>
    decreases s.len(),
{
    if s.len() == 0 {
        Seq::empty()
    } else {
        let rest = offered(s.drop_last(), phys);
        let i = s.last();
        if dialable(i) && physical(i.name@) == phys {
            rest.push((i.name@, i.ipv4->0@))
        } else {
            rest
        }
    }
}

pub open spec fn lan_views(s: Seq<LanAddr>) -> Seq<(Seq<char>, Seq<char>)> {
    s.map_values(|a: LanAddr| (a.iface@, a.ip@))
}

/// The addresses this machine can be reached at from the local network,
/// best first: physical interfaces, then the rest, each in the order given.
pub fn lan_addrs_of(interfaces: &Vec<Interface>) -> (r: Vec<LanAddr>)
    ensures
        lan_views(r@) == offered(interfaces@, true) + offered(interfaces@, false),
{
    let mut first: Vec<LanAddr> = Vec::new();
    let mut later: Vec<LanAddr> = Vec::new();
    for n in 0..interfaces.len()
        invariant
            lan_views(first@) == offered(interfaces@.take(n as int), true),
            lan_views(later@) == offered(interfaces@.take(n as int), false),
    {
        let i = &interfaces[n];
        proof {
            assert(interfaces@.take(n + 1).drop_last() =~= interfaces@.take(n as int));
        }
        if !i.loopback && !is_tunnel(i.name.as_str()) && !i.link_local {
            match &i.ipv4 {
                Some(ip) => {
                    let a = LanAddr { iface: i.name.clone(), ip: ip.clone() };
                    let name = i.name.as_str();
                    if starts_with(name, "en") || starts_with(name, "et") || starts_with(name, "wl") {
                        assert(lan_views(first@.push(a)) =~= lan_views(first@).push((a.iface@, a.ip@)));
                        first.push(a);
                    } else {
                        assert(lan_views(later@.push(a)) =~= lan_views(later@).push((a.iface@, a.ip@)));
                        later.push(a);
                    }
                },
                None => {},
            }
        }
    }
    assert(interfaces@.take(interfaces@.len() as int) =~= interfaces@);
    let ghost a = first@;
    let ghost b = later@;
    first.append(&mut later);
    assert(lan_views(first@) =~= lan_views(a) + lan_views(b));
    first
}

} // verus!
