//! The network of a Windows tunnel: which routes lead into it, which stay out of
//! it, and how they are installed and undone.
use crate::ipv4;
use crate::ipv4::{network_address, parse_address, Ipv4Addr};
use crate::number;
use crate::number::{decimal_digit, parse_decimal};
use crate::text;
use crate::text::{
    chars_of, clone_strings, split_first, split_last, string_of, trimmed, trimmed_class, CharClass,
};
use crate::windows_net::RouteSpec;
use vstd::prelude::*;
use vstd::string::*;

verus! {

// ---------------------------------------------------------------------------
// Routes into the tunnel
// ---------------------------------------------------------------------------

/// A network that is reached through the tunnel.
#[derive(Debug, Clone, Copy, PartialEq, Eq, Structural)]
pub struct TunnelRoute {
    pub network: Ipv4Addr,
    pub prefix: u8,
}

/// What a route text is found to be.
pub enum CidrCheck {
    BadAddress,
    BadPrefix,
    UnsupportedPrefix,
    Route(TunnelRoute),
}

/// The address and the prefix of a route text. A text without a prefix is a
/// host.
pub open spec fn cidr_parts(t: Seq<char>) -> (Seq<char>, Seq<char>) {
    match text::split_at_first(t, '/') {
        Some(parts) => parts,
        None => (t, "32"@),
    }
}

/// The route of a text, or what is wrong with it. A route to everywhere is not
/// supported.
pub open spec fn cidr_check(cidr: Seq<char>) -> CidrCheck {
    let parts = cidr_parts(text::trim(cidr));
    match ipv4::parse_ipv4(text::trim(parts.0)) {
        None => CidrCheck::BadAddress,
        Some(bits) => match number::parse_unsigned(text::trim(parts.1), 255) {
            None => CidrCheck::BadPrefix,
            Some(prefix) => if prefix == 0 || prefix > 32 {
                CidrCheck::UnsupportedPrefix
            } else {
                CidrCheck::Route(
                    TunnelRoute {
                        network: Ipv4Addr { bits: ipv4::network_of(bits, prefix) as u32 },
                        prefix: prefix as u8,
                    },
                )
            },
        },
    }
}

/// What is said of a route text that is no good.
pub open spec fn cidr_complaint(check: CidrCheck) -> Seq<char> {
    match check {
        CidrCheck::BadAddress => "invalid route address: "@,
        CidrCheck::BadPrefix => "invalid route prefix: "@,
        _ => "unsupported route prefix: "@,
    }
}

fn complaint(label: &str, t: &[char]) -> (r: String)
    ensures
        r@ == label@ + t@,
{
    let mut message = label.to_owned();
    message.append(string_of(t).as_str());
    message
}

/// The route of a text.
pub fn parse_cidr(cidr: &str) -> (r: Result<TunnelRoute, String>)
    ensures
        match r {
            Ok(route) => cidr_check(cidr@) == CidrCheck::Route(route),
            Err(message) => !(cidr_check(cidr@) is Route) && message@ == cidr_complaint(
                cidr_check(cidr@),
            ) + text::trim(cidr@),
        },
        cidr_check(cidr@) is BadAddress ==> r is Err && r->Err_0@ == "invalid route address: "@
            + text::trim(cidr@),
        cidr_check(cidr@) is BadPrefix ==> r is Err && r->Err_0@ == "invalid route prefix: "@
            + text::trim(cidr@),
        cidr_check(cidr@) is UnsupportedPrefix ==> r is Err && r->Err_0@
            == "unsupported route prefix: "@ + text::trim(cidr@),
{
    let cs = chars_of(cidr);
    let t = trimmed(cs.as_slice());
    let host_prefix = chars_of("32");
    let (address, prefix_text) = match split_first(t, '/') {
        Some((address, prefix)) => (address, prefix),
        None => (t, host_prefix.as_slice()),
    };
    let ip = match parse_address(trimmed(address)) {
        Some(ip) => ip,
        None => {
            return Err(complaint("invalid route address: ", t));
        },
    };
    let prefix = match parse_decimal(trimmed(prefix_text), 255) {
        Some(prefix) => prefix,
        None => {
            return Err(complaint("invalid route prefix: ", t));
        },
    };
    if prefix == 0 || prefix > 32 {
        return Err(complaint("unsupported route prefix: ", t));
    }
    let network = network_address(ip, prefix as u8);
    proof {
        ipv4::network_is_a_block(ip.bits as int, prefix as int);
    }
    Ok(TunnelRoute { network, prefix: prefix as u8 })
}

/// The place of a route in the order: by its network, then by its prefix.
pub open spec fn route_rank(r: TunnelRoute) -> int {
    r.network.bits * 256 + r.prefix
}

/// Whether each route precedes the ones after it.
pub open spec fn routes_sorted(s: Seq<TunnelRoute>) -> bool {
    forall|i: int, j: int|
        0 <= i < j < s.len() ==> route_rank(#[trigger] s[i]) < route_rank(#[trigger] s[j])
}

/// Whether `r` lists the routes of `s`, each once, in order.
pub open spec fn sorted_routes_of(r: Seq<TunnelRoute>, s: Seq<TunnelRoute>) -> bool {
    &&& routes_sorted(r)
    &&& forall|x: TunnelRoute| #[trigger] r.contains(x) <==> s.contains(x)
}

/// The routes of the texts that are good.
pub open spec fn good_routes(cidrs: Seq<Seq<char>>) -> Seq<TunnelRoute>
    decreases cidrs.len(),
{
    if cidrs.len() == 0 {
        Seq::empty()
    } else {
        let head = good_routes(cidrs.drop_last());
        match cidr_check(cidrs.last()) {
            CidrCheck::Route(r) => head.push(r),
            _ => head,
        }
    }
}

/// The addresses that the service hands out for names.
pub open spec fn synthetic_route() -> TunnelRoute {
    TunnelRoute { network: Ipv4Addr { bits: 0xc612_0000 }, prefix: 15 }
}

/// The name server of a configuration.
pub open spec fn dns_address(dns_addr: Seq<char>) -> Option<Ipv4Addr> {
    match ipv4::parse_ipv4(text::trim(dns_addr)) {
        Some(bits) => Some(Ipv4Addr { bits: bits as u32 }),
        None => None,
    }
}

/// Everything that leads into the tunnel: the synthetic addresses, the managed
/// networks, and the name server, unless that is the gateway of this network.
pub open spec fn wanted_tunnel_routes(
    cidrs: Seq<Seq<char>>,
    dns: Option<Ipv4Addr>,
    gateway: Option<Ipv4Addr>,
) -> Seq<TunnelRoute> {
    let managed = seq![synthetic_route()] + good_routes(cidrs);
    if dns is Some && dns != gateway {
        managed.push(TunnelRoute { network: dns->0, prefix: 32 })
    } else {
        managed
    }
}

/// The name server of a configuration, where it is an address.
pub fn parse_dns(dns_addr: &str) -> (r: Option<Ipv4Addr>)
    ensures
        r == dns_address(dns_addr@),
{
    let cs = chars_of(dns_addr);
    parse_address(trimmed(cs.as_slice()))
}

fn rank_of(r: TunnelRoute) -> (n: u64)
    ensures
        n == route_rank(r),
{
    r.network.bits as u64 * 256 + r.prefix as u64
}

proof fn lemma_rank(a: TunnelRoute, b: TunnelRoute)
    requires
        route_rank(a) == route_rank(b),
    ensures
        a == b,
{
}

fn insert_route(v: &mut Vec<TunnelRoute>, x: TunnelRoute)
    requires
        routes_sorted(old(v)@),
    ensures
        routes_sorted(final(v)@),
        forall|y: TunnelRoute| #[trigger]
            final(v)@.contains(y) <==> old(v)@.contains(y) || y == x,
{
    let ghost before = v@;
    let mut i: usize = 0;
    while i < v.len() && rank_of(v[i]) < rank_of(x)
        invariant
            i <= v.len(),
            v@ == before,
            forall|k: int| 0 <= k < i ==> route_rank(#[trigger] before[k]) < route_rank(x),
        decreases v.len() - i,
    {
        i = i + 1;
    }
    if i < v.len() && rank_of(v[i]) == rank_of(x) {
        proof {
            lemma_rank(before[i as int], x);
            assert(before[i as int] == x);
            assert(before.contains(x));
        }
        return ;
    }
    v.insert(i, x);
    proof {
        let after = v@;
        assert(after =~= before.insert(i as int, x));
        assert forall|a: int, b: int| 0 <= a < b < after.len() implies route_rank(
            #[trigger] after[a],
        ) < route_rank(#[trigger] after[b]) by {
            let pa = if a < i { a } else { a - 1 };
            let pb = if b < i { b } else { b - 1 };
            if a != i {
                assert(after[a] == before[pa]);
            }
            if b != i {
                assert(after[b] == before[pb]);
            }
            if a == i {
                if i < before.len() && pb > i {
                    assert(route_rank(before[i as int]) < route_rank(before[pb]));
                }
            } else if b != i {
                assert(route_rank(before[pa]) < route_rank(before[pb]));
            }
        }
        assert forall|y: TunnelRoute| #[trigger]
            after.contains(y) <==> before.contains(y) || y == x by {
            if after.contains(y) {
                let k = choose|k: int| 0 <= k < after.len() && after[k] == y;
                if k < i {
                    assert(before[k] == y);
                } else if k > i {
                    assert(before[k - 1] == y);
                }
            }
            if before.contains(y) {
                let k = choose|k: int| 0 <= k < before.len() && before[k] == y;
                if k < i {
                    assert(after[k] == y);
                } else {
                    assert(after[k + 1] == y);
                }
            }
            assert(after[i as int] == x);
        }
    }
}

proof fn lemma_push_route(s: Seq<TunnelRoute>, x: TunnelRoute, y: TunnelRoute)
    ensures
        s.push(x).contains(y) <==> s.contains(y) || y == x,
{
    let p = s.push(x);
    if p.contains(y) {
        let k = choose|k: int| 0 <= k < p.len() && p[k] == y;
        if k < s.len() {
            assert(s[k] == y);
        }
    }
    if s.contains(y) {
        let k = choose|k: int| 0 <= k < s.len() && s[k] == y;
        assert(p[k] == y);
    }
    assert(p[s.len() as int] == x);
}

/// Everything that leads into the tunnel, sorted, each once. Texts that are no
/// good are passed over.
pub fn tunnel_routes(
    cidrs: &Vec<String>,
    dns: Option<Ipv4Addr>,
    gateway: Option<Ipv4Addr>,
) -> (r: Vec<TunnelRoute>)
    ensures
        sorted_routes_of(r@, wanted_tunnel_routes(text::strings(cidrs@), dns, gateway)),
        forall|i: int| 0 <= i < r@.len() ==> 1 <= (#[trigger] r@[i]).prefix <= 32,
        forall|i: int|
            0 <= i < cidrs@.len() && cidr_check((#[trigger] cidrs@[i])@) is Route ==> r@.contains(
                cidr_check(cidrs@[i]@)->Route_0,
            ),
        r@.contains(TunnelRoute { network: Ipv4Addr { bits: 0xc612_0000 }, prefix: 15 }),
        dns is Some && dns != gateway ==> r@.contains(
            TunnelRoute { network: dns->0, prefix: 32 },
        ),
{
    let ghost all = text::strings(cidrs@);
    let mut r: Vec<TunnelRoute> = Vec::new();
    let synthetic = TunnelRoute { network: Ipv4Addr { bits: 0xc612_0000 }, prefix: 15 };
    insert_route(&mut r, synthetic);
    let ghost mut so_far = seq![synthetic_route()];
    proof {
        assert(good_routes(all.take(0)) =~= Seq::<TunnelRoute>::empty());
        assert(so_far =~= seq![synthetic_route()] + good_routes(all.take(0)));
        assert forall|x: TunnelRoute| #[trigger] r@.contains(x) <==> so_far.contains(x) by {
            lemma_push_route(Seq::empty(), synthetic, x);
            assert(Seq::<TunnelRoute>::empty().push(synthetic) =~= so_far);
        }
    }
    for i in 0..cidrs.len()
        invariant
            all == text::strings(cidrs@),
            so_far == seq![synthetic_route()] + good_routes(all.take(i as int)),
            sorted_routes_of(r@, so_far),
    {
        let ghost one = all.take(i + 1);
        let ghost before = r@;
        assert(one.drop_last() =~= all.take(i as int));
        assert(one.last() == cidrs@[i as int]@);
        match parse_cidr(cidrs[i].as_str()) {
            Ok(route) => {
                insert_route(&mut r, route);
                proof {
                    let next = so_far.push(route);
                    assert forall|x: TunnelRoute| #[trigger]
                        r@.contains(x) <==> next.contains(x) by {
                        lemma_push_route(so_far, route, x);
                        assert(before.contains(x) <==> so_far.contains(x));
                    }
                    assert(next =~= seq![synthetic_route()] + good_routes(one));
                    so_far = next;
                }
            },
            Err(_) => {},
        }
    }
    assert(all.take(cidrs.len() as int) =~= all);
    match dns {
        Some(server) => {
            let local = match gateway {
                Some(g) => g == server,
                None => false,
            };
            if !local {
                let ghost before = r@;
                let route = TunnelRoute { network: server, prefix: 32 };
                insert_route(&mut r, route);
                proof {
                    let next = so_far.push(route);
                    assert forall|x: TunnelRoute| #[trigger]
                        r@.contains(x) <==> next.contains(x) by {
                        lemma_push_route(so_far, route, x);
                        assert(before.contains(x) <==> so_far.contains(x));
                    }
                }
            }
        },
        None => {},
    }
    proof {
        assert forall|i: int| 0 <= i < r@.len() implies 1 <= (#[trigger] r@[i]).prefix <= 32 by {
            lemma_planned_prefix(r@, all, dns, gateway, i);
        }
        every_managed_network_leads_into_the_tunnel(r@, all, dns, gateway);
        assert forall|i: int|
            0 <= i < cidrs@.len() && cidr_check((#[trigger] cidrs@[i])@) is Route implies r@.contains(
            cidr_check(cidrs@[i]@)->Route_0,
        ) by {
            assert(all[i] == cidrs@[i]@);
        }
    }
    r
}

// ---------------------------------------------------------------------------
// Routes around the tunnel
// ---------------------------------------------------------------------------

/// Whether every character of a text is a decimal digit.
pub open spec fn only_digits(s: Seq<char>) -> bool {
    forall|i: int| 0 <= i < s.len() ==> number::is_digit(#[trigger] s[i])
}

/// The host of a node: without its port and without brackets.
pub open spec fn node_host(endpoint: Seq<char>) -> Option<Seq<char>> {
    let t = text::trim(endpoint);
    let host = match text::split_at_last(t, ':') {
        Some((host, port)) => if only_digits(port) {
            host
        } else {
            t
        },
        None => t,
    };
    let bare = text::trim_class(text::trim(host), CharClass::Bracket);
    if bare.len() == 0 {
        None
    } else {
        Some(bare)
    }
}

fn all_digits(s: &[char]) -> (r: bool)
    ensures
        r == only_digits(s@),
{
    for i in 0..s.len()
        invariant
            forall|k: int| 0 <= k < i ==> number::is_digit(#[trigger] s@[k]),
    {
        if !decimal_digit(s[i]) {
            assert(!number::is_digit(s@[i as int]));
            return false;
        }
    }
    true
}

/// The host of a node.
pub fn endpoint_host(endpoint: &str) -> (r: Option<String>)
    ensures
        text::text_of(r) == node_host(endpoint@),
{
    let cs = chars_of(endpoint);
    let t = trimmed(cs.as_slice());
    let host = match split_last(t, ':') {
        Some((host, port)) => if all_digits(port) {
            host
        } else {
            t
        },
        None => t,
    };
    let bare = trimmed_class(trimmed(host), CharClass::Bracket);
    if bare.len() == 0 {
        None
    } else {
        Some(string_of(bare))
    }
}

/// The hosts of some nodes.
pub open spec fn node_hosts(endpoints: Seq<Seq<char>>) -> Seq<Seq<char>>
    decreases endpoints.len(),
{
    if endpoints.len() == 0 {
        Seq::empty()
    } else {
        let head = node_hosts(endpoints.drop_last());
        match node_host(endpoints.last()) {
            Some(host) => head.push(host),
            None => head,
        }
    }
}

/// The hosts that have to stay reachable outside of the tunnel: the nodes and
/// the server.
pub fn bypass_hosts(endpoints: &Vec<String>, server_host: &str) -> (r: Vec<String>)
    ensures
        text::strings(r@) == node_hosts(text::strings(endpoints@)).push(server_host@),
{
    let ghost all = text::strings(endpoints@);
    let mut r: Vec<String> = Vec::new();
    assert(text::strings(r@) =~= node_hosts(all.take(0)));
    for i in 0..endpoints.len()
        invariant
            all == text::strings(endpoints@),
            text::strings(r@) == node_hosts(all.take(i as int)),
    {
        let ghost one = all.take(i + 1);
        let ghost before = text::strings(r@);
        assert(one.drop_last() =~= all.take(i as int));
        assert(one.last() == endpoints@[i as int]@);
        match endpoint_host(endpoints[i].as_str()) {
            Some(host) => {
                r.push(host);
                assert(text::strings(r@) =~= before.push(host@));
            },
            None => {},
        }
    }
    assert(all.take(endpoints.len() as int) =~= all);
    let ghost before = text::strings(r@);
    r.push(server_host.to_owned());
    assert(text::strings(r@) =~= before.push(server_host@));
    r
}

/// Whether a network of the tunnel holds an address.
pub open spec fn captures(route: TunnelRoute, ip: Ipv4Addr) -> bool {
    ipv4::covers(route.network.bits as int, route.prefix as int, ip.bits as int)
}

/// Whether an address needs a route around the tunnel: the tunnel would
/// capture it, and it is an address out there.
pub open spec fn must_bypass(routes: Seq<TunnelRoute>, ip: Ipv4Addr) -> bool {
    &&& ipv4::octet(ip.bits, 0) != 127
    &&& ip.bits != 0
    &&& exists|i: int| 0 <= i < routes.len() && captures(#[trigger] routes[i], ip)
}

/// Whether an address needs a route around the tunnel.
pub fn needs_bypass(routes: &Vec<TunnelRoute>, ip: Ipv4Addr) -> (r: bool)
    requires
        forall|i: int| 0 <= i < routes@.len() ==> (#[trigger] routes@[i]).prefix <= 32,
    ensures
        r == must_bypass(routes@, ip),
{
    if ip.is_loopback() || ip.is_unspecified() {
        return false;
    }
    for i in 0..routes.len()
        invariant
            ipv4::octet(ip.bits, 0) != 127,
            ip.bits != 0,
            forall|k: int| 0 <= k < routes@.len() ==> (#[trigger] routes@[k]).prefix <= 32,
            forall|k: int| 0 <= k < i ==> !captures(#[trigger] routes@[k], ip),
    {
        let route = routes[i];
        let network = network_address(ip, route.prefix);
        if network == route.network {
            assert(captures(routes@[i as int], ip));
            return true;
        }
        assert(!captures(routes@[i as int], ip));
    }
    false
}

proof fn lemma_planned_prefix(
    r: Seq<TunnelRoute>,
    cidrs: Seq<Seq<char>>,
    dns: Option<Ipv4Addr>,
    gateway: Option<Ipv4Addr>,
    i: int,
)
    requires
        sorted_routes_of(r, wanted_tunnel_routes(cidrs, dns, gateway)),
        0 <= i < r.len(),
    ensures
        1 <= r[i].prefix <= 32,
{
    let w = wanted_tunnel_routes(cidrs, dns, gateway);
    assert(r.contains(r[i]));
    assert(w.contains(r[i]));
    let k = choose|k: int| 0 <= k < w.len() && w[k] == r[i];
    let good = good_routes(cidrs);
    if 0 < k <= good.len() {
        lemma_good_prefix(cidrs, k - 1);
        assert(w[k] == good[k - 1]);
    }
}

proof fn lemma_good_prefix(cidrs: Seq<Seq<char>>, i: int)
    requires
        0 <= i < good_routes(cidrs).len(),
    ensures
        1 <= good_routes(cidrs)[i].prefix <= 32,
    decreases cidrs.len(),
{
    if cidrs.len() > 0 {
        let head = good_routes(cidrs.drop_last());
        if i < head.len() {
            lemma_good_prefix(cidrs.drop_last(), i);
        } else {
            let digits = number::unsigned_digits(
                text::trim(cidr_parts(text::trim(cidrs.last())).1),
            );
            if number::all_digits(digits) {
                number::lemma_digits_value_prefix(digits, digits.len() as int);
                assert(digits.take(digits.len() as int) =~= digits);
            }
        }
    }
}

/// The way that the system takes to an address now.
#[derive(Debug, Clone, Copy, PartialEq, Eq, Structural)]
pub struct BestRoute {
    pub destination: Ipv4Addr,
    pub interface_luid: u64,
    pub next_hop: Ipv4Addr,
}

/// The route that keeps an address on the way that it takes now.
pub open spec fn bypass_of(best: BestRoute) -> RouteSpec {
    RouteSpec {
        interface_luid: best.interface_luid,
        destination: best.destination,
        prefix: 32,
        next_hop: best.next_hop,
    }
}

/// Whether a route comes before another one: by its destination, then by its
/// interface.
pub open spec fn comes_before(a: RouteSpec, b: RouteSpec) -> bool {
    a.destination.bits < b.destination.bits || (a.destination == b.destination && a.interface_luid
        < b.interface_luid)
}

/// Whether two routes have the same place in the order.
pub open spec fn same_place(a: RouteSpec, b: RouteSpec) -> bool {
    a.destination == b.destination && a.interface_luid == b.interface_luid
}

/// The routes of a list that have the place of another one.
pub open spec fn at_place(s: Seq<RouteSpec>, k: RouteSpec) -> Seq<RouteSpec>
    decreases s.len(),
{
    if s.len() == 0 {
        s
    } else if same_place(s.last(), k) {
        at_place(s.drop_last(), k).push(s.last())
    } else {
        at_place(s.drop_last(), k)
    }
}

/// Whether `r` is `s` in order, with routes of the same place as they were.
pub open spec fn stably_sorted(r: Seq<RouteSpec>, s: Seq<RouteSpec>) -> bool {
    &&& forall|i: int, j: int|
        0 <= i < j < r.len() ==> !comes_before(#[trigger] r[j], #[trigger] r[i])
    &&& forall|k: RouteSpec| #[trigger] at_place(r, k) == at_place(s, k)
}

/// A list without the items that are like the one before them.
pub open spec fn without_repeats(s: Seq<RouteSpec>) -> Seq<RouteSpec>
    decreases s.len(),
{
    if s.len() <= 1 {
        s
    } else if s[s.len() - 2] == s.last() {
        without_repeats(s.drop_last())
    } else {
        without_repeats(s.drop_last()).push(s.last())
    }
}

proof fn lemma_at_place_concat(a: Seq<RouteSpec>, b: Seq<RouteSpec>, k: RouteSpec)
    ensures
        at_place(a + b, k) == at_place(a, k) + at_place(b, k),
    decreases b.len(),
{
    if b.len() == 0 {
        assert(a + b =~= a);
        assert(at_place(a, k) + at_place(b, k) =~= at_place(a, k));
    } else {
        assert((a + b).drop_last() =~= a + b.drop_last());
        assert((a + b).last() == b.last());
        lemma_at_place_concat(a, b.drop_last(), k);
        assert(at_place(a + b, k) =~= at_place(a, k) + at_place(b, k));
    }
}

proof fn lemma_at_place_none(s: Seq<RouteSpec>, k: RouteSpec)
    requires
        forall|i: int| 0 <= i < s.len() ==> !same_place(#[trigger] s[i], k),
    ensures
        at_place(s, k) == Seq::<RouteSpec>::empty(),
    decreases s.len(),
{
    if s.len() > 0 {
        assert(!same_place(s[s.len() - 1], k));
        assert forall|i: int| 0 <= i < s.drop_last().len() implies !same_place(
            #[trigger] s.drop_last()[i],
            k,
        ) by {
            assert(!same_place(s[i], k));
        }
        lemma_at_place_none(s.drop_last(), k);
    } else {
        assert(s =~= Seq::<RouteSpec>::empty());
    }
}

fn goes_before(a: &RouteSpec, b: &RouteSpec) -> (r: bool)
    ensures
        r == comes_before(*a, *b),
{
    a.destination.bits < b.destination.bits || (a.destination == b.destination && a.interface_luid
        < b.interface_luid)
}

fn insert_in_order(v: &mut Vec<RouteSpec>, x: RouteSpec, Ghost(s): Ghost<Seq<RouteSpec>>)
    requires
        stably_sorted(old(v)@, s),
    ensures
        stably_sorted(final(v)@, s.push(x)),
{
    let ghost before = v@;
    let mut i: usize = 0;
    while i < v.len() && !goes_before(&x, &v[i])
        invariant
            i <= v.len(),
            v@ == before,
            forall|k: int| 0 <= k < i ==> !comes_before(x, #[trigger] before[k]),
        decreases v.len() - i,
    {
        i = i + 1;
    }
    v.insert(i, x);
    proof {
        let after = v@;
        let head = before.take(i as int);
        let tail = before.skip(i as int);
        assert(after =~= head + (seq![x] + tail));
        assert(before =~= head + tail);
        assert forall|k: int| 0 <= k < tail.len() implies comes_before(x, #[trigger] tail[k]) by {
            assert(tail[k] == before[i + k]);
            if k > 0 {
                assert(!comes_before(before[i + k], before[i as int]));
            }
        }
        assert forall|a: int, b: int| 0 <= a < b < after.len() implies !comes_before(
            #[trigger] after[b],
            #[trigger] after[a],
        ) by {
            let pa = if a < i { a } else { a - 1 };
            let pb = if b < i { b } else { b - 1 };
            if a != i {
                assert(after[a] == before[pa]);
            }
            if b != i {
                assert(after[b] == before[pb]);
            }
            if a == i {
                assert(after[b] == tail[b - i - 1]);
            } else if b != i {
                assert(!comes_before(before[pb], before[pa]));
            }
        }
        assert forall|k: RouteSpec| #[trigger] at_place(after, k) == at_place(s.push(x), k) by {
            assert(s.push(x).drop_last() =~= s);
            assert(at_place(before, k) == at_place(s, k));
            lemma_at_place_concat(head, tail, k);
            lemma_at_place_concat(head, seq![x] + tail, k);
            lemma_at_place_concat(seq![x], tail, k);
            assert(seq![x].drop_last() =~= Seq::<RouteSpec>::empty());
            assert(at_place(Seq::<RouteSpec>::empty(), k) =~= Seq::<RouteSpec>::empty());
            if same_place(x, k) {
                assert forall|j: int| 0 <= j < tail.len() implies !same_place(
                    #[trigger] tail[j],
                    k,
                ) by {
                    assert(comes_before(x, tail[j]));
                }
                lemma_at_place_none(tail, k);
                assert(at_place(seq![x], k) =~= seq![x]);
                assert(at_place(after, k) =~= at_place(s, k).push(x));
            } else {
                assert(at_place(seq![x], k) =~= Seq::<RouteSpec>::empty());
                assert(at_place(after, k) =~= at_place(s, k));
            }
        }
    }
}

/// The routes around the tunnel of some addresses, before they are ordered.
pub open spec fn all_bypasses(found: Seq<BestRoute>) -> Seq<RouteSpec> {
    Seq::new(found.len(), |i: int| bypass_of(found[i]))
}

/// The addresses that need a route around the tunnel, of those that were
/// looked up.
pub open spec fn to_bypass(routes: Seq<TunnelRoute>, found: Seq<BestRoute>) -> Seq<BestRoute>
    decreases found.len(),
{
    if found.len() == 0 {
        found
    } else if must_bypass(routes, found.last().destination) {
        to_bypass(routes, found.drop_last()).push(found.last())
    } else {
        to_bypass(routes, found.drop_last())
    }
}

/// The routes around the tunnel, in order, without repeats: one for each
/// address that the tunnel would capture, on the way that it takes now.
pub fn bypass_routes(routes: &Vec<TunnelRoute>, found: &Vec<BestRoute>) -> (r: Vec<RouteSpec>)
    requires
        forall|i: int| 0 <= i < routes@.len() ==> (#[trigger] routes@[i]).prefix <= 32,
    ensures
        exists|ordered: Seq<RouteSpec>| #[trigger]
            stably_sorted(ordered, all_bypasses(to_bypass(routes@, found@))) && r@
                == without_repeats(ordered),
{
    let ghost mut all: Seq<RouteSpec> = Seq::empty();
    let mut ordered: Vec<RouteSpec> = Vec::new();
    assert(stably_sorted(ordered@, all)) by {
        assert(ordered@ =~= all);
    }
    assert(found@.take(0) =~= Seq::<BestRoute>::empty());
    assert(all =~= all_bypasses(to_bypass(routes@, found@.take(0))));
    for i in 0..found.len()
        invariant
            forall|k: int| 0 <= k < routes@.len() ==> (#[trigger] routes@[k]).prefix <= 32,
            all == all_bypasses(to_bypass(routes@, found@.take(i as int))),
            stably_sorted(ordered@, all),
    {
        let best = found[i];
        let ghost one = found@.take(i + 1);
        assert(one.drop_last() =~= found@.take(i as int));
        assert(one.last() == best);
        if needs_bypass(routes, best.destination) {
            let route = RouteSpec {
                interface_luid: best.interface_luid,
                destination: best.destination,
                prefix: 32,
                next_hop: best.next_hop,
            };
            insert_in_order(&mut ordered, route, Ghost(all));
            proof {
                assert(all.push(route) =~= all_bypasses(to_bypass(routes@, one)));
                all = all.push(route);
            }
        }
    }
    assert(found@.take(found.len() as int) =~= found@);
    let mut r: Vec<RouteSpec> = Vec::new();
    assert(ordered@.take(0) =~= Seq::<RouteSpec>::empty());
    for i in 0..ordered.len()
        invariant
            r@ == without_repeats(ordered@.take(i as int)),
    {
        let ghost one = ordered@.take(i + 1);
        assert(one.drop_last() =~= ordered@.take(i as int));
        assert(one.last() == ordered@[i as int]);
        if i == 0 || ordered[i - 1] != ordered[i] {
            r.push(ordered[i]);
            assert(r@ =~= without_repeats(one));
        }
    }
    assert(ordered@.take(ordered.len() as int) =~= ordered@);
    assert(stably_sorted(ordered@, all));
    r
}

// ---------------------------------------------------------------------------
// Installing
// ---------------------------------------------------------------------------

/// Everything that is decided while the tunnel does not exist: afterwards the
/// system would answer that addresses lie behind it.
#[derive(Debug)]
pub struct NetworkPlan {
    pub tunnel_routes: Vec<TunnelRoute>,
    pub bypass_routes: Vec<RouteSpec>,
    pub dns_server: Option<Ipv4Addr>,
    pub managed_domains: Vec<String>,
}

impl NetworkPlan {
    /// The plan of a tunnel that changes nothing.
    pub fn empty() -> (r: NetworkPlan)
        ensures
            r.tunnel_routes@.len() == 0,
            r.bypass_routes@.len() == 0,
            r.dns_server is None,
            r.managed_domains@.len() == 0,
    {
        NetworkPlan {
            tunnel_routes: Vec::new(),
            bypass_routes: Vec::new(),
            dns_server: None,
            managed_domains: Vec::new(),
        }
    }
}

/// Whether routes go around the tunnel for exactly the addresses that the
/// tunnel would capture, of those that were looked up.
pub open spec fn bypasses_captured(
    bypasses: Seq<RouteSpec>,
    routes: Seq<TunnelRoute>,
    found: Seq<BestRoute>,
) -> bool {
    forall|x: RouteSpec| #[trigger]
        bypasses.contains(x) <==> exists|k: int|
            0 <= k < found.len() && must_bypass(routes, (#[trigger] found[k]).destination)
                && bypass_of(found[k]) == x
}

/// Whether a plan is that of a tunnel: the networks that lead into it, the
/// routes around it, the name server and the domains.
pub open spec fn is_plan(
    plan: NetworkPlan,
    cidrs: Seq<Seq<char>>,
    dns_addr: Seq<char>,
    domains: Seq<Seq<char>>,
    gateway: Option<Ipv4Addr>,
    found: Seq<BestRoute>,
) -> bool {
    &&& sorted_routes_of(
        plan.tunnel_routes@,
        wanted_tunnel_routes(cidrs, dns_address(dns_addr), gateway),
    )
    &&& exists|ordered: Seq<RouteSpec>| #[trigger]
        stably_sorted(ordered, all_bypasses(to_bypass(plan.tunnel_routes@, found)))
            && plan.bypass_routes@ == without_repeats(ordered)
    &&& bypasses_captured(plan.bypass_routes@, plan.tunnel_routes@, found)
    &&& plan.dns_server == dns_address(dns_addr)
    &&& text::strings(plan.managed_domains@) == domains
}

/// The plan of a tunnel, from the way that the system takes to some addresses.
/// Those that the tunnel would capture get a route around it; the others, and
/// addresses that are not out there, get none.
pub fn build_network_plan(
    cidrs: &Vec<String>,
    dns_addr: &str,
    managed_domains: &Vec<String>,
    gateway: Option<Ipv4Addr>,
    found: &Vec<BestRoute>,
) -> (r: NetworkPlan)
    ensures
        is_plan(
            r,
            text::strings(cidrs@),
            dns_addr@,
            text::strings(managed_domains@),
            gateway,
            found@,
        ),
        sorted_routes_of(
            r.tunnel_routes@,
            wanted_tunnel_routes(text::strings(cidrs@), dns_address(dns_addr@), gateway),
        ),
        bypasses_captured(r.bypass_routes@, r.tunnel_routes@, found@),
        r.dns_server == dns_address(dns_addr@),
        text::strings(r.managed_domains@) == text::strings(managed_domains@),
{
    let dns_server = parse_dns(dns_addr);
    let routes = tunnel_routes(cidrs, dns_server, gateway);
    let bypasses = bypass_routes(&routes, found);
    proof {
        let ordered = choose|ordered: Seq<RouteSpec>| #[trigger]
            stably_sorted(ordered, all_bypasses(to_bypass(routes@, found@))) && bypasses@
                == without_repeats(ordered);
        bypasses_follow_the_system(bypasses@, ordered, routes@, found@);
    }
    NetworkPlan {
        tunnel_routes: routes,
        bypass_routes: bypasses,
        dns_server,
        managed_domains: clone_strings(managed_domains),
    }
}

/// What has to be undone: routes, and the name resolution policy.
#[derive(Debug)]
pub struct PersistedNetworkState {
    pub routes: Vec<RouteSpec>,
    pub nrpt: bool,
}

impl PersistedNetworkState {
    /// Nothing to undo.
    pub fn empty() -> (r: PersistedNetworkState)
        ensures
            r.routes@.len() == 0,
            !r.nrpt,
    {
        PersistedNetworkState { routes: Vec::new(), nrpt: false }
    }
}

/// The route of a network through the tunnel.
pub open spec fn through_tunnel(route: TunnelRoute, tunnel_luid: u64) -> RouteSpec {
    RouteSpec {
        interface_luid: tunnel_luid,
        destination: route.network,
        prefix: route.prefix,
        next_hop: Ipv4Addr { bits: 0 },
    }
}

/// All routes of a plan, in the order in which they are added: first those
/// around the tunnel, so that the tunnel never captures its own packets.
pub open spec fn planned_routes(
    bypasses: Seq<RouteSpec>,
    tunnel: Seq<TunnelRoute>,
    tunnel_luid: u64,
) -> Seq<RouteSpec> {
    bypasses + Seq::new(tunnel.len(), |i: int| through_tunnel(tunnel[i], tunnel_luid))
}

/// An installation under way.
#[derive(Debug)]
pub struct NetworkInstall {
    /// The routes of the plan, in order.
    pub steps: Vec<RouteSpec>,
    /// The routes at the front that may fail.
    pub optional: usize,
    pub at: usize,
    pub network: PersistedNetworkState,
}

/// What came of adding a route.
pub enum Added {
    /// It is there now, and was not before.
    Ours,
    /// It was there before.
    There,
    Failed,
}

/// What a report says about a route.
pub open spec fn added(outcome: Result<bool, String>) -> Added {
    match outcome {
        Ok(true) => Added::Ours,
        Ok(false) => Added::There,
        Err(_) => Added::Failed,
    }
}

/// How far an installation has come: the routes that were tried, those that
/// have to be undone, and whether it was broken off.
pub struct InstallRun {
    pub at: nat,
    pub routes: Seq<RouteSpec>,
    pub broken: bool,
}

/// An installation that has yet to begin.
pub open spec fn run_start() -> InstallRun {
    InstallRun { at: 0, routes: Seq::empty(), broken: false }
}

/// An installation after one more route was tried. A route around the tunnel
/// may fail; one through it that fails breaks the installation off.
pub open spec fn run_step(
    steps: Seq<RouteSpec>,
    optional: nat,
    run: InstallRun,
    outcome: Added,
) -> InstallRun {
    if run.broken || run.at >= steps.len() {
        run
    } else {
        match outcome {
            Added::Ours => InstallRun {
                at: run.at + 1,
                routes: run.routes.push(steps[run.at as int]),
                ..run
            },
            Added::There => InstallRun { at: run.at + 1, ..run },
            Added::Failed => if run.at < optional {
                InstallRun { at: run.at + 1, ..run }
            } else {
                InstallRun { broken: true, ..run }
            },
        }
    }
}

impl NetworkInstall {
    /// How far the installation has come.
    pub open spec fn run(self, broken: bool) -> InstallRun {
        InstallRun { at: self.at as nat, routes: self.network.routes@, broken }
    }

    /// The routes that have to be undone are routes of the plan so far.
    pub open spec fn wf(self) -> bool {
        &&& self.at <= self.steps@.len()
        &&& self.optional <= self.steps@.len()
        &&& forall|j: int|
            0 <= j < self.network.routes@.len() ==> self.steps@.take(self.at as int).contains(
                #[trigger] self.network.routes@[j],
            )
    }

    /// An installation that has yet to begin.
    pub fn new(plan: &NetworkPlan, tunnel_luid: u64) -> (r: NetworkInstall)
        ensures
            r.wf(),
            r.steps@ == planned_routes(plan.bypass_routes@, plan.tunnel_routes@, tunnel_luid),
            r.optional == plan.bypass_routes@.len(),
            r.at == 0,
            r.run(false) == run_start(),
            !r.network.nrpt,
    {
        let ghost bypasses = plan.bypass_routes@;
        let ghost tunnel = plan.tunnel_routes@;
        let mut steps: Vec<RouteSpec> = Vec::new();
        for i in 0..plan.bypass_routes.len()
            invariant
                steps@ == plan.bypass_routes@.take(i as int),
        {
            steps.push(plan.bypass_routes[i]);
            assert(steps@ =~= plan.bypass_routes@.take(i + 1));
        }
        assert(steps@ =~= bypasses);
        assert(steps@ =~= planned_routes(bypasses, tunnel.take(0), tunnel_luid));
        for i in 0..plan.tunnel_routes.len()
            invariant
                tunnel == plan.tunnel_routes@,
                steps@ == planned_routes(bypasses, tunnel.take(i as int), tunnel_luid),
        {
            let route = plan.tunnel_routes[i];
            steps.push(
                RouteSpec {
                    interface_luid: tunnel_luid,
                    destination: route.network,
                    prefix: route.prefix,
                    next_hop: Ipv4Addr::unspecified(),
                },
            );
            assert(steps@ =~= planned_routes(bypasses, tunnel.take(i + 1), tunnel_luid));
        }
        assert(tunnel.take(plan.tunnel_routes.len() as int) =~= tunnel);
        let network = PersistedNetworkState::empty();
        assert(network.routes@ =~= Seq::<RouteSpec>::empty());
        NetworkInstall { steps, optional: plan.bypass_routes.len(), at: 0, network }
    }

    /// The next route to add, until all have been tried.
    pub fn next(&self) -> (r: Option<RouteSpec>)
        requires
            self.wf(),
        ensures
            r == if self.at < self.steps@.len() {
                Some(self.steps@[self.at as int])
            } else {
                None
            },
    {
        if self.at < self.steps.len() {
            Some(self.steps[self.at])
        } else {
            None
        }
    }

    /// Reports what came of adding the next route: whether it is ours, or why
    /// it failed. A route through the tunnel that failed ends the
    /// installation; what is in place has to be undone.
    pub fn install_network_plan(&mut self, outcome: Result<bool, String>) -> (r: Result<(), String>)
        requires
            old(self).wf(),
            old(self).at < old(self).steps@.len(),
        ensures
            final(self).wf(),
            final(self).steps == old(self).steps,
            final(self).optional == old(self).optional,
            final(self).network.nrpt == old(self).network.nrpt,
            final(self).run(r is Err) == run_step(
                old(self).steps@,
                old(self).optional as nat,
                old(self).run(false),
                added(outcome),
            ),
            r is Err ==> outcome is Err && r->Err_0 == outcome->Err_0,
            r is Err <==> outcome is Err && old(self).at >= old(self).optional,
            final(self).at == if r is Err { old(self).at as int } else { old(self).at + 1 },
            final(self).network.routes@ == if outcome == Ok::<bool, String>(true) {
                old(self).network.routes@.push(old(self).steps@[old(self).at as int])
            } else {
                old(self).network.routes@
            },
    {
        let ghost before = *self;
        let total: usize = self.steps.len();
        let step = self.steps[self.at];
        assert(self.at < total);
        let next: usize = self.at + 1;
        match outcome {
            Ok(ours) => {
                if ours {
                    self.network.routes.push(step);
                }
                self.at = next;
            },
            Err(message) => {
                if self.at >= self.optional {
                    return Err(message);
                }
                self.at = next;
            },
        }
        proof {
            let was = before.steps@.take(before.at as int);
            let now = self.steps@.take(self.at as int);
            assert(now =~= was.push(step));
            assert forall|j: int| 0 <= j < self.network.routes@.len() implies now.contains(
                #[trigger] self.network.routes@[j],
            ) by {
                if j < before.network.routes@.len() {
                    assert(was.contains(before.network.routes@[j]));
                    let k = choose|k: int|
                        0 <= k < was.len() && was[k] == before.network.routes@[j];
                    assert(now[k] == self.network.routes@[j]);
                } else {
                    assert(now[before.at as int] == step);
                }
            }
        }
        Ok(())
    }
}

/// The name server of the managed domains, where there are both. The policy
/// has then to be undone, whatever comes of applying it.
pub fn managed_dns(plan: &NetworkPlan, network: &mut PersistedNetworkState) -> (r: Option<
    Ipv4Addr,
>)
    ensures
        r == if plan.managed_domains@.len() == 0 {
            None
        } else {
            plan.dns_server
        },
        final(network).routes == old(network).routes,
        final(network).nrpt == (old(network).nrpt || r is Some),
{
    match plan.dns_server {
        Some(server) => {
            if plan.managed_domains.len() == 0 {
                None
            } else {
                network.nrpt = true;
                Some(server)
            }
        },
        None => None,
    }
}

/// A step of undoing a network.
#[derive(Debug, Clone, Copy, PartialEq, Eq, Structural)]
pub enum UndoStep {
    DeleteRoute(RouteSpec),
    ClearPolicy,
    FlushDns,
    /// Remove the record of what has to be undone.
    RemoveRecord,
}

/// The steps that delete some routes, last one first.
pub open spec fn deletions(routes: Seq<RouteSpec>) -> Seq<UndoStep> {
    Seq::new(routes.len(), |i: int| UndoStep::DeleteRoute(routes[routes.len() - 1 - i]))
}

/// The steps that undo a network.
pub open spec fn undo_steps(routes: Seq<RouteSpec>, nrpt: bool) -> Seq<UndoStep> {
    if nrpt {
        deletions(routes).push(UndoStep::ClearPolicy).push(UndoStep::FlushDns)
    } else {
        deletions(routes).push(UndoStep::FlushDns)
    }
}

/// The steps that undo the network of a tunnel that is stopped: nothing is
/// left to undo then, so the record goes.
pub open spec fn stop_steps(routes: Seq<RouteSpec>, nrpt: bool) -> Seq<UndoStep> {
    undo_steps(routes, nrpt).push(UndoStep::RemoveRecord)
}

/// The steps that undo what an earlier helper noted, or what it may have left
/// without noting it, and remove the record.
pub open spec fn leftover_steps(noted: Option<(Seq<RouteSpec>, bool)>) -> Seq<UndoStep> {
    let undo = match noted {
        Some((routes, nrpt)) => undo_steps(routes, nrpt),
        None => Seq::empty(),
    };
    undo.push(UndoStep::ClearPolicy).push(UndoStep::RemoveRecord)
}

/// The steps that undo a network, in order, whatever comes of each: the routes
/// from the last one to the first, then the policy.
pub fn undo_network_state(network: &PersistedNetworkState) -> (r: Vec<UndoStep>)
    ensures
        r@ == undo_steps(network.routes@, network.nrpt),
{
    let ghost routes = network.routes@;
    let n = network.routes.len();
    let mut r: Vec<UndoStep> = Vec::new();
    for i in 0..n
        invariant
            n == network.routes@.len(),
            routes == network.routes@,
            r@ == deletions(routes).take(i as int),
    {
        r.push(UndoStep::DeleteRoute(network.routes[n - 1 - i]));
        assert(r@ =~= deletions(routes).take(i + 1));
    }
    assert(r@ =~= deletions(routes));
    if network.nrpt {
        r.push(UndoStep::ClearPolicy);
    }
    r.push(UndoStep::FlushDns);
    r
}

/// The steps that undo the network of a tunnel that is stopped, in order,
/// whatever comes of each. The record goes last.
pub fn undo_and_forget(network: &PersistedNetworkState) -> (r: Vec<UndoStep>)
    ensures
        r@ == stop_steps(network.routes@, network.nrpt),
{
    let mut r = undo_network_state(network);
    r.push(UndoStep::RemoveRecord);
    r
}

/// What a record says has to be undone, where there is one that can be read.
pub open spec fn noted(saved: Option<PersistedNetworkState>) -> Option<(Seq<RouteSpec>, bool)> {
    match saved {
        Some(network) => Some((network.routes@, network.nrpt)),
        None => None,
    }
}

/// The steps that undo what an earlier helper left behind, in order, whatever
/// comes of each. The policy has a fixed name and is cleared even where nothing
/// was noted. No record is left, not even one that cannot be read.
pub fn cleanup_leftovers(saved: &Option<PersistedNetworkState>) -> (r: Vec<UndoStep>)
    ensures
        r@ == leftover_steps(noted(*saved)),
{
    let mut r = match saved {
        Some(network) => undo_network_state(network),
        None => Vec::new(),
    };
    r.push(UndoStep::ClearPolicy);
    r.push(UndoStep::RemoveRecord);
    assert(r@ =~= leftover_steps(noted(*saved)));
    r
}

// ---------------------------------------------------------------------------
// Laws
// ---------------------------------------------------------------------------

/// An installation after some routes were tried in order, with what came of
/// each.
pub open spec fn run_through(
    steps: Seq<RouteSpec>,
    optional: nat,
    outcomes: Seq<Added>,
) -> InstallRun
    decreases outcomes.len(),
{
    if outcomes.len() == 0 {
        run_start()
    } else {
        run_step(steps, optional, run_through(steps, optional, outcomes.drop_last()), outcomes.last())
    }
}

/// The routes of the system after that: those that are ours have come.
pub open spec fn table_through(
    table: Set<RouteSpec>,
    steps: Seq<RouteSpec>,
    optional: nat,
    outcomes: Seq<Added>,
) -> Set<RouteSpec>
    decreases outcomes.len(),
{
    if outcomes.len() == 0 {
        table
    } else {
        let before = table_through(table, steps, optional, outcomes.drop_last());
        let run = run_through(steps, optional, outcomes.drop_last());
        if !run.broken && run.at < steps.len() && outcomes.last() is Ours {
            before.insert(steps[run.at as int])
        } else {
            before
        }
    }
}

/// Whether the system called only such routes ours as were not there.
pub open spec fn truthful(
    table: Set<RouteSpec>,
    steps: Seq<RouteSpec>,
    optional: nat,
    outcomes: Seq<Added>,
) -> bool
    decreases outcomes.len(),
{
    outcomes.len() == 0 || {
        let before = table_through(table, steps, optional, outcomes.drop_last());
        let run = run_through(steps, optional, outcomes.drop_last());
        &&& truthful(table, steps, optional, outcomes.drop_last())
        &&& !run.broken && run.at < steps.len() && outcomes.last() is Ours ==> !before.contains(
            steps[run.at as int],
        )
    }
}

/// The record of what has to be undone.
pub enum Record {
    Absent,
    /// There is one, and it cannot be read.
    Unreadable,
    Noted { routes: Seq<RouteSpec>, nrpt: bool },
}

/// The system, as far as a tunnel changes it: its routes, whether it has the
/// policy of the helper, and the record of what has to be undone.
pub struct NetworkWorld {
    pub routes: Set<RouteSpec>,
    pub policy: bool,
    pub record: Record,
}

/// The system after a step of undoing.
pub open spec fn undone(w: NetworkWorld, step: UndoStep) -> NetworkWorld {
    match step {
        UndoStep::DeleteRoute(route) => NetworkWorld { routes: w.routes.remove(route), ..w },
        UndoStep::ClearPolicy => NetworkWorld { policy: false, ..w },
        UndoStep::FlushDns => w,
        UndoStep::RemoveRecord => NetworkWorld { record: Record::Absent, ..w },
    }
}

/// The system after some steps of undoing.
pub open spec fn after_undoing(w: NetworkWorld, steps: Seq<UndoStep>) -> NetworkWorld
    decreases steps.len(),
{
    if steps.len() == 0 {
        w
    } else {
        after_undoing(undone(w, steps[0]), steps.drop_first())
    }
}

/// The system after what has to be undone was noted.
pub open spec fn after_saving(w: NetworkWorld, routes: Seq<RouteSpec>, nrpt: bool) -> NetworkWorld {
    NetworkWorld { record: Record::Noted { routes, nrpt }, ..w }
}

/// What can be read of a record.
pub open spec fn readable(record: Record) -> Option<(Seq<RouteSpec>, bool)> {
    match record {
        Record::Noted { routes, nrpt } => Some((routes, nrpt)),
        _ => None,
    }
}

/// The system after what an earlier helper left behind was cleaned up.
pub open spec fn after_cleanup(w: NetworkWorld) -> NetworkWorld {
    after_undoing(w, leftover_steps(readable(w.record)))
}

proof fn lemma_undoing_one(w: NetworkWorld, step: UndoStep)
    ensures
        after_undoing(w, seq![step]) == undone(w, step),
{
    assert(seq![step].drop_first() =~= Seq::<UndoStep>::empty());
    assert(after_undoing(undone(w, step), Seq::<UndoStep>::empty()) == undone(w, step));
}

proof fn lemma_undoing_push(w: NetworkWorld, steps: Seq<UndoStep>, step: UndoStep)
    ensures
        after_undoing(w, steps.push(step)) == undone(after_undoing(w, steps), step),
    decreases steps.len(),
{
    if steps.len() == 0 {
        assert(steps.push(step) =~= seq![step]);
        lemma_undoing_one(w, step);
    } else {
        assert(steps.push(step)[0] == steps[0]);
        assert(steps.push(step).drop_first() =~= steps.drop_first().push(step));
        lemma_undoing_push(undone(w, steps[0]), steps.drop_first(), step);
    }
}

proof fn lemma_after_deletions(w: NetworkWorld, routes: Seq<RouteSpec>)
    ensures
        after_undoing(w, deletions(routes)) == (NetworkWorld {
            routes: w.routes.difference(routes.to_set()),
            ..w
        }),
    decreases routes.len(),
{
    let all = deletions(routes);
    if routes.len() == 0 {
        assert(w.routes.difference(routes.to_set()) =~= w.routes);
    } else {
        let fewer = routes.drop_last();
        let next = NetworkWorld { routes: w.routes.remove(routes.last()), ..w };
        assert(all[0] == UndoStep::DeleteRoute(routes.last()));
        assert(all.drop_first() =~= deletions(fewer));
        lemma_after_deletions(next, fewer);
        assert forall|x: RouteSpec| #[trigger]
            next.routes.difference(fewer.to_set()).contains(x) == w.routes.difference(
                routes.to_set(),
            ).contains(x) by {
            if routes.contains(x) {
                let k = choose|k: int| 0 <= k < routes.len() && routes[k] == x;
                if k < fewer.len() {
                    assert(fewer[k] == x);
                }
            }
            if fewer.contains(x) {
                let k = choose|k: int| 0 <= k < fewer.len() && fewer[k] == x;
                assert(routes[k] == x);
            }
            if x == routes.last() {
                assert(routes[routes.len() - 1] == x);
            }
        }
        assert(next.routes.difference(fewer.to_set()) =~= w.routes.difference(routes.to_set()));
    }
}

/// Undoing a network deletes its routes and no other, clears the policy if it
/// was applied, and keeps the record.
pub proof fn undoing_takes_back_what_was_noted(
    w: NetworkWorld,
    routes: Seq<RouteSpec>,
    nrpt: bool,
)
    ensures
        after_undoing(w, undo_steps(routes, nrpt)) == (NetworkWorld {
            routes: w.routes.difference(routes.to_set()),
            policy: w.policy && !nrpt,
            ..w
        }),
{
    lemma_after_deletions(w, routes);
    lemma_undoing_push(w, deletions(routes), UndoStep::ClearPolicy);
    lemma_undoing_push(w, deletions(routes), UndoStep::FlushDns);
    lemma_undoing_push(
        w,
        deletions(routes).push(UndoStep::ClearPolicy),
        UndoStep::FlushDns,
    );
}

/// Stopping a tunnel deletes every route that was noted and no other, clears
/// the policy that was, and leaves no record.
pub proof fn a_stop_leaves_no_record(w: NetworkWorld, routes: Seq<RouteSpec>, nrpt: bool)
    ensures
        after_undoing(w, stop_steps(routes, nrpt)) == (NetworkWorld {
            routes: w.routes.difference(routes.to_set()),
            policy: w.policy && !nrpt,
            record: Record::Absent,
        }),
{
    undoing_takes_back_what_was_noted(w, routes, nrpt);
    lemma_undoing_push(w, undo_steps(routes, nrpt), UndoStep::RemoveRecord);
}

/// Cleaning up deletes every route of the record, if it can be read, and no
/// other, clears the policy whatever was noted, and leaves no record. A second
/// time it changes nothing.
pub proof fn a_cleanup_leaves_nothing_behind(w: NetworkWorld)
    ensures
        after_cleanup(w) == (NetworkWorld {
            routes: match readable(w.record) {
                Some((routes, _)) => w.routes.difference(routes.to_set()),
                None => w.routes,
            },
            policy: false,
            record: Record::Absent,
        }),
        after_cleanup(after_cleanup(w)) == after_cleanup(w),
        leftover_steps(readable(after_cleanup(w).record)) == seq![
            UndoStep::ClearPolicy,
            UndoStep::RemoveRecord,
        ],
{
    lemma_cleanup(w);
    lemma_cleanup(after_cleanup(w));
    assert(leftover_steps(None) =~= seq![UndoStep::ClearPolicy, UndoStep::RemoveRecord]);
}

proof fn lemma_cleanup(w: NetworkWorld)
    ensures
        after_cleanup(w) == (NetworkWorld {
            routes: match readable(w.record) {
                Some((routes, _)) => w.routes.difference(routes.to_set()),
                None => w.routes,
            },
            policy: false,
            record: Record::Absent,
        }),
{
    let undo = match readable(w.record) {
        Some((routes, nrpt)) => undo_steps(routes, nrpt),
        None => Seq::empty(),
    };
    match readable(w.record) {
        Some((routes, nrpt)) => {
            undoing_takes_back_what_was_noted(w, routes, nrpt);
        },
        None => {
            assert(after_undoing(w, undo) == w);
        },
    }
    lemma_undoing_push(w, undo, UndoStep::ClearPolicy);
    lemma_undoing_push(w, undo.push(UndoStep::ClearPolicy), UndoStep::RemoveRecord);
}

proof fn lemma_ours(
    table: Set<RouteSpec>,
    steps: Seq<RouteSpec>,
    optional: nat,
    outcomes: Seq<Added>,
)
    requires
        truthful(table, steps, optional, outcomes),
    ensures
        ({
            let ours = run_through(steps, optional, outcomes).routes;
            &&& table_through(table, steps, optional, outcomes) == table.union(ours.to_set())
            &&& forall|x: RouteSpec| #[trigger] ours.contains(x) ==> !table.contains(x)
        }),
    decreases outcomes.len(),
{
    if outcomes.len() == 0 {
        assert(table.union(Seq::<RouteSpec>::empty().to_set()) =~= table);
    } else {
        lemma_ours(table, steps, optional, outcomes.drop_last());
        let before = run_through(steps, optional, outcomes.drop_last());
        let after = run_through(steps, optional, outcomes);
        if !before.broken && before.at < steps.len() && outcomes.last() is Ours {
            let x = steps[before.at as int];
            assert forall|y: RouteSpec| after.routes.contains(y) == (before.routes.contains(y) || y
                == x) by {
                if after.routes.contains(y) {
                    let k = choose|k: int| 0 <= k < after.routes.len() && after.routes[k] == y;
                    if k < before.routes.len() {
                        assert(before.routes[k] == y);
                    }
                }
                if before.routes.contains(y) {
                    let k = choose|k: int| 0 <= k < before.routes.len() && before.routes[k] == y;
                    assert(after.routes[k] == y);
                }
                assert(after.routes[before.routes.len() as int] == x);
            }
            assert(table_through(table, steps, optional, outcomes) =~= table.union(
                after.routes.to_set(),
            ));
        } else {
            assert(after.routes == before.routes);
        }
    }
}

/// Undoing leaves the routes of the system as they were before installing,
/// whatever came of each route: those that were there stay, those that failed
/// never came, and where the installation was broken off, what it had put in
/// place goes. So does cleaning up, in a later helper, what was noted by one
/// that never came to undo it.
pub proof fn undo_restores_the_routes(
    w: NetworkWorld,
    steps: Seq<RouteSpec>,
    optional: nat,
    outcomes: Seq<Added>,
    nrpt: bool,
)
    requires
        truthful(w.routes, steps, optional, outcomes),
    ensures
        ({
            let ours = run_through(steps, optional, outcomes).routes;
            let there = NetworkWorld {
                routes: table_through(w.routes, steps, optional, outcomes),
                ..w
            };
            &&& after_undoing(there, undo_steps(ours, nrpt)).routes == w.routes
            &&& after_undoing(there, stop_steps(ours, nrpt)).routes == w.routes
            &&& after_cleanup(after_saving(there, ours, nrpt)).routes == w.routes
        }),
{
    let ours = run_through(steps, optional, outcomes).routes;
    let there = NetworkWorld {
        routes: table_through(w.routes, steps, optional, outcomes),
        ..w
    };
    lemma_ours(w.routes, steps, optional, outcomes);
    undoing_takes_back_what_was_noted(there, ours, nrpt);
    a_stop_leaves_no_record(there, ours, nrpt);
    a_cleanup_leaves_nothing_behind(after_saving(there, ours, nrpt));
    assert(there.routes.difference(ours.to_set()) =~= w.routes);
}

proof fn lemma_without_repeats(s: Seq<RouteSpec>, x: RouteSpec)
    ensures
        without_repeats(s).contains(x) <==> s.contains(x),
    decreases s.len(),
{
    if s.len() > 1 {
        let t = s.drop_last();
        lemma_without_repeats(t, x);
        let kept = without_repeats(t);
        let all = without_repeats(s);
        assert(s[s.len() - 2] == t[t.len() - 1]);
        if s.contains(x) {
            let k = choose|k: int| 0 <= k < s.len() && s[k] == x;
            if k < t.len() {
                assert(t[k] == x);
            }
            if k == t.len() && s[s.len() - 2] == s.last() {
                assert(t[t.len() - 1] == x);
            }
            if t.contains(x) {
                let m = choose|m: int| 0 <= m < kept.len() && kept[m] == x;
                assert(all[m] == x);
            } else {
                assert(all[kept.len() as int] == x);
            }
        }
        if all.contains(x) {
            let k = choose|k: int| 0 <= k < all.len() && all[k] == x;
            if k < kept.len() {
                assert(kept[k] == x);
                let m = choose|m: int| 0 <= m < t.len() && t[m] == x;
                assert(s[m] == x);
            } else {
                assert(s[s.len() - 1] == x);
            }
        }
    }
}

proof fn lemma_to_bypass(routes: Seq<TunnelRoute>, found: Seq<BestRoute>, b: BestRoute)
    ensures
        to_bypass(routes, found).contains(b) <==> found.contains(b) && must_bypass(
            routes,
            b.destination,
        ),
    decreases found.len(),
{
    if found.len() > 0 {
        let fewer = found.drop_last();
        let head = to_bypass(routes, fewer);
        let all = to_bypass(routes, found);
        lemma_to_bypass(routes, fewer, b);
        if found.contains(b) && must_bypass(routes, b.destination) {
            let k = choose|k: int| 0 <= k < found.len() && found[k] == b;
            if k < fewer.len() {
                assert(fewer[k] == b);
                let m = choose|m: int| 0 <= m < head.len() && head[m] == b;
                assert(all[m] == b);
            } else {
                assert(all[head.len() as int] == b);
            }
        }
        if all.contains(b) {
            let k = choose|k: int| 0 <= k < all.len() && all[k] == b;
            if k < head.len() {
                assert(head[k] == b);
                let m = choose|m: int| 0 <= m < fewer.len() && fewer[m] == b;
                assert(found[m] == b);
            } else {
                assert(found[found.len() - 1] == b);
            }
        }
    }
}

proof fn lemma_at_place_contains(s: Seq<RouteSpec>, x: RouteSpec)
    ensures
        at_place(s, x).contains(x) <==> s.contains(x),
    decreases s.len(),
{
    if s.len() > 0 {
        let t = s.drop_last();
        lemma_at_place_contains(t, x);
        let a = at_place(s, x);
        let b = at_place(t, x);
        if s.contains(x) {
            let k = choose|k: int| 0 <= k < s.len() && s[k] == x;
            if k < t.len() {
                assert(t[k] == x);
                let m = choose|m: int| 0 <= m < b.len() && b[m] == x;
                assert(a[m] == x);
            } else {
                assert(a[b.len() as int] == x);
            }
        }
        if a.contains(x) {
            let k = choose|k: int| 0 <= k < a.len() && a[k] == x;
            if k < b.len() {
                assert(b[k] == x);
                let m = choose|m: int| 0 <= m < t.len() && t[m] == x;
                assert(s[m] == x);
            } else {
                assert(s[s.len() - 1] == x);
            }
        }
    }
}

/// Routes go around the tunnel for exactly the addresses that the tunnel would
/// capture, on the way that the system said they take.
pub proof fn bypasses_follow_the_system(
    bypasses: Seq<RouteSpec>,
    ordered: Seq<RouteSpec>,
    routes: Seq<TunnelRoute>,
    found: Seq<BestRoute>,
)
    requires
        stably_sorted(ordered, all_bypasses(to_bypass(routes, found))),
        bypasses == without_repeats(ordered),
    ensures
        bypasses_captured(bypasses, routes, found),
{
    let kept = to_bypass(routes, found);
    let all = all_bypasses(kept);
    assert forall|x: RouteSpec| #[trigger] bypasses.contains(x) <==> exists|k: int|
        0 <= k < found.len() && must_bypass(routes, (#[trigger] found[k]).destination)
            && bypass_of(found[k]) == x by {
        lemma_without_repeats(ordered, x);
        lemma_at_place_contains(ordered, x);
        assert(at_place(ordered, x) == at_place(all, x));
        lemma_at_place_contains(all, x);
        if bypasses.contains(x) {
            let m = choose|m: int| 0 <= m < all.len() && all[m] == x;
            assert(kept.contains(kept[m]));
            lemma_to_bypass(routes, found, kept[m]);
            let k = choose|k: int| 0 <= k < found.len() && found[k] == kept[m];
            assert(bypass_of(found[k]) == x);
        }
        if exists|k: int|
            0 <= k < found.len() && must_bypass(routes, (#[trigger] found[k]).destination)
                && bypass_of(found[k]) == x {
            let k = choose|k: int|
                0 <= k < found.len() && must_bypass(routes, (#[trigger] found[k]).destination)
                    && bypass_of(found[k]) == x;
            assert(found.contains(found[k]));
            lemma_to_bypass(routes, found, found[k]);
            let m = choose|m: int| 0 <= m < kept.len() && kept[m] == found[k];
            assert(all[m] == x);
        }
    }
}

// ---------------------------------------------------------------------------
// What is planned
// ---------------------------------------------------------------------------

proof fn lemma_good_routes(cidrs: Seq<Seq<char>>, x: TunnelRoute)
    ensures
        good_routes(cidrs).contains(x) <==> exists|i: int|
            0 <= i < cidrs.len() && cidr_check(#[trigger] cidrs[i]) == CidrCheck::Route(x),
    decreases cidrs.len(),
{
    if cidrs.len() > 0 {
        let fewer = cidrs.drop_last();
        let head = good_routes(fewer);
        let all = good_routes(cidrs);
        lemma_good_routes(fewer, x);
        if all.contains(x) {
            let k = choose|k: int| 0 <= k < all.len() && all[k] == x;
            if k < head.len() {
                assert(head[k] == x);
                let i = choose|i: int|
                    0 <= i < fewer.len() && cidr_check(#[trigger] fewer[i]) == CidrCheck::Route(x);
                assert(cidrs[i] == fewer[i]);
            } else {
                assert(cidr_check(cidrs[cidrs.len() - 1]) == CidrCheck::Route(x));
            }
        }
        if exists|i: int|
            0 <= i < cidrs.len() && cidr_check(#[trigger] cidrs[i]) == CidrCheck::Route(x) {
            let i = choose|i: int|
                0 <= i < cidrs.len() && cidr_check(#[trigger] cidrs[i]) == CidrCheck::Route(x);
            if i < fewer.len() {
                assert(fewer[i] == cidrs[i]);
                let k = choose|k: int| 0 <= k < head.len() && head[k] == x;
                assert(all[k] == x);
            } else {
                assert(all[head.len() as int] == x);
            }
        }
    }
}

/// Into the tunnel lead the network of every text that is good, the addresses
/// `198.18.0.0/15`, and the name server unless it is the gateway; and nothing
/// else does. Each network is there once, in order.
pub proof fn every_managed_network_leads_into_the_tunnel(
    routes: Seq<TunnelRoute>,
    cidrs: Seq<Seq<char>>,
    dns: Option<Ipv4Addr>,
    gateway: Option<Ipv4Addr>,
)
    requires
        sorted_routes_of(routes, wanted_tunnel_routes(cidrs, dns, gateway)),
    ensures
        forall|i: int|
            0 <= i < cidrs.len() && cidr_check(#[trigger] cidrs[i]) is Route ==> routes.contains(
                cidr_check(cidrs[i])->Route_0,
            ),
        routes.contains(TunnelRoute { network: Ipv4Addr { bits: 0xc612_0000 }, prefix: 15 }),
        dns is Some && dns != gateway ==> routes.contains(
            TunnelRoute { network: dns->0, prefix: 32 },
        ),
        forall|x: TunnelRoute| #[trigger]
            routes.contains(x) ==> {
                ||| x == (TunnelRoute { network: Ipv4Addr { bits: 0xc612_0000 }, prefix: 15 })
                ||| dns is Some && dns != gateway && x == (TunnelRoute {
                    network: dns->0,
                    prefix: 32,
                })
                ||| exists|i: int|
                    0 <= i < cidrs.len() && cidr_check(#[trigger] cidrs[i]) == CidrCheck::Route(x)
            },
        forall|i: int, j: int|
            0 <= i < j < routes.len() ==> (#[trigger] routes[i]).network.bits < (
            #[trigger] routes[j]).network.bits || (routes[i].network == routes[j].network
                && routes[i].prefix < routes[j].prefix),
{
    let wanted = wanted_tunnel_routes(cidrs, dns, gateway);
    let good = good_routes(cidrs);
    let managed = seq![synthetic_route()] + good;
    assert forall|i: int|
        0 <= i < cidrs.len() && cidr_check(#[trigger] cidrs[i]) is Route implies routes.contains(
        cidr_check(cidrs[i])->Route_0,
    ) by {
        let x = cidr_check(cidrs[i])->Route_0;
        lemma_good_routes(cidrs, x);
        let k = choose|k: int| 0 <= k < good.len() && good[k] == x;
        assert(wanted[k + 1] == x);
        assert(wanted.contains(x));
    }
    assert(wanted[0] == synthetic_route());
    assert(wanted.contains(synthetic_route()));
    if dns is Some && dns != gateway {
        let x = TunnelRoute { network: dns->0, prefix: 32 };
        assert(wanted[managed.len() as int] == x);
        assert(wanted.contains(x));
    }
    assert forall|x: TunnelRoute| #[trigger] routes.contains(x) implies {
        ||| x == (TunnelRoute { network: Ipv4Addr { bits: 0xc612_0000 }, prefix: 15 })
        ||| dns is Some && dns != gateway && x == (TunnelRoute { network: dns->0, prefix: 32 })
        ||| exists|i: int|
            0 <= i < cidrs.len() && cidr_check(#[trigger] cidrs[i]) == CidrCheck::Route(x)
    } by {
        assert(wanted.contains(x));
        let k = choose|k: int| 0 <= k < wanted.len() && wanted[k] == x;
        if 0 < k < managed.len() {
            assert(good[k - 1] == x);
            assert(good.contains(x));
            lemma_good_routes(cidrs, x);
        }
    }
    assert forall|i: int, j: int| 0 <= i < j < routes.len() implies (
    #[trigger] routes[i]).network.bits < (#[trigger] routes[j]).network.bits || (routes[i].network
        == routes[j].network && routes[i].prefix < routes[j].prefix) by {
        assert(route_rank(routes[i]) < route_rank(routes[j]));
    }
}

proof fn lemma_plain_ends(bits: u32, tail: Seq<char>)
    requires
        forall|k: int| 0 <= k < tail.len() ==> number::is_digit(#[trigger] tail[k]) || tail[k] == '/',
    ensures
        text::trim(ipv4::dotted(bits)) == ipv4::dotted(bits),
        text::trim(ipv4::dotted(bits) + tail) == ipv4::dotted(bits) + tail,
        !ipv4::dotted(bits).contains('/'),
{
    let d = ipv4::dotted(bits);
    ipv4::a_dotted_text_is_plain(bits, 0);
    assert(!d.contains('/')) by {
        if d.contains('/') {
            let k = choose|k: int| 0 <= k < d.len() && d[k] == '/';
            ipv4::a_dotted_text_is_plain(bits, k);
        }
    }
    text::a_trimmed_text_stays(d);
    let s = d + tail;
    assert(s[0] == d[0]);
    if tail.len() > 0 {
        assert(s[s.len() - 1] == tail[tail.len() - 1]);
    } else {
        assert(s[s.len() - 1] == d[d.len() - 1]);
    }
    text::a_trimmed_text_stays(s);
}

/// A network that is written as an address, a slash and a prefix is read as
/// the block of that many leading bits which holds the address: the network
/// has no bit behind its prefix, and the address lies in it. A prefix of no
/// bits, or of more than an address has, is refused, and an address alone is
/// a host.
pub proof fn a_written_network_is_read_back(bits: u32, prefix: nat)
    ensures
        ({
            let check = cidr_check(ipv4::dotted(bits) + seq!['/'] + number::decimal(prefix));
            &&& check is Route <==> 1 <= prefix <= 32
            &&& check is UnsupportedPrefix <==> prefix == 0 || 33 <= prefix <= 255
            &&& check is BadPrefix <==> prefix > 255
            &&& check is Route ==> {
                let size = vstd::arithmetic::power2::pow2((32 - prefix) as nat);
                let r = check->Route_0;
                &&& r.prefix == prefix
                &&& r.network.bits as int % (size as int) == 0
                &&& r.network.bits <= bits < r.network.bits + size
            }
        }),
        cidr_check(ipv4::dotted(bits)) == CidrCheck::Route(
            TunnelRoute { network: Ipv4Addr { bits }, prefix: 32 },
        ),
{
    let d = ipv4::dotted(bits);
    let p = number::decimal(prefix);
    let t = d + seq!['/'] + p;
    number::lemma_decimal(prefix);
    let tail = seq!['/'] + p;
    assert forall|k: int| 0 <= k < tail.len() implies number::is_digit(#[trigger] tail[k])
        || tail[k] == '/' by {
        if k > 0 {
            assert(tail[k] == p[k - 1]);
        }
    }
    lemma_plain_ends(bits, tail);
    assert(t =~= d + tail);
    text::cutting_at_the_first_undoes_joining(d, '/', p);
    assert(number::is_digit(p[0]) && number::is_digit(p[p.len() - 1]));
    text::a_trimmed_text_stays(p);
    ipv4::parse_of_dotted(bits);
    if prefix <= 255 {
        number::parse_of_decimal(prefix, 255);
    } else {
        let bad = seq!['/'];
        number::only_numbers_within_the_limit_are_read(prefix, 255, bad, 0);
    }
    if 1 <= prefix <= 32 {
        ipv4::network_is_a_block(bits as int, prefix as int);
        ipv4::a_network_has_no_bits_behind_its_prefix(bits as int, prefix as int);
        ipv4::lemma_span(prefix as int);
        vstd::arithmetic::power2::lemma2_to64();
        vstd::arithmetic::power2::lemma_pow2_strictly_increases((32 - prefix) as nat, 32);
    }
    reveal_strlit("32");
    let host = "32"@;
    assert(host =~= number::decimal(32)) by {
        reveal_with_fuel(crate::number::numeral, 2);
    }
    number::parse_of_decimal(32, 255);
    text::a_trimmed_text_stays(host);
    ipv4::network_is_a_block(bits as int, 32);
    ipv4::lemma_span(32);
    assert(Ipv4Addr { bits: ipv4::network_of(bits as int, 32) as u32 } == (Ipv4Addr { bits }));
}

/// White space around a route text, around its address and around its prefix
/// changes nothing.
pub proof fn white_space_around_a_network_changes_nothing(
    a: Seq<char>,
    cidr: Seq<char>,
    b: Seq<char>,
)
    requires
        forall|k: int| 0 <= k < a.len() ==> text::is_white(#[trigger] a[k]),
        forall|k: int| 0 <= k < b.len() ==> text::is_white(#[trigger] b[k]),
    ensures
        cidr_check(a + cidr + b) == cidr_check(cidr),
{
    let t = text::trim(cidr);
    let (x, y) = text::trimming_only_cuts(cidr, CharClass::White);
    let left = a + x;
    let right = y + b;
    assert(a + cidr + b =~= left + t + right);
    assert forall|k: int| 0 <= k < left.len() implies CharClass::White.holds(#[trigger] left[k]) by {
        if k >= a.len() {
            assert(left[k] == x[k - a.len()]);
        } else {
            assert(left[k] == a[k]);
        }
    }
    assert forall|k: int| 0 <= k < right.len() implies CharClass::White.holds(
        #[trigger] right[k],
    ) by {
        if k >= y.len() {
            assert(right[k] == b[k - y.len()]);
        } else {
            assert(right[k] == y[k]);
        }
    }
    text::trimming_undoes_padding(left, t, right, CharClass::White);
}

/// The name server of a configuration is the address that its text is, with
/// or without white space around it; a text that is no address is none.
pub proof fn the_name_server_is_the_address_that_is_written(
    a: Seq<char>,
    bits: u32,
    b: Seq<char>,
    other: Seq<char>,
)
    requires
        forall|k: int| 0 <= k < a.len() ==> text::is_white(#[trigger] a[k]),
        forall|k: int| 0 <= k < b.len() ==> text::is_white(#[trigger] b[k]),
        forall|n: u32| text::trim(other) != #[trigger] ipv4::dotted(n),
    ensures
        dns_address(a + ipv4::dotted(bits) + b) == Some(Ipv4Addr { bits }),
        dns_address(other) is None,
{
    lemma_plain_ends(bits, Seq::empty());
    ipv4::a_dotted_text_is_plain(bits, 0);
    assert forall|k: int| 0 <= k < a.len() implies CharClass::White.holds(#[trigger] a[k]) by {
        assert(text::is_white(a[k]));
    }
    assert forall|k: int| 0 <= k < b.len() implies CharClass::White.holds(#[trigger] b[k]) by {
        assert(text::is_white(b[k]));
    }
    text::trimming_undoes_padding(a, ipv4::dotted(bits), b, CharClass::White);
    ipv4::parse_of_dotted(bits);
    if ipv4::parse_ipv4(text::trim(other)) is Some {
        ipv4::only_the_dotted_text_denotes_an_address(text::trim(other));
        assert(text::trim(other) == ipv4::dotted(
            ipv4::parse_ipv4(text::trim(other))->0 as u32,
        ));
    }
}

/// The host of a node is what its text names: with or without a port behind
/// it, and with or without brackets around it.
pub proof fn the_host_of_a_node_is_the_one_that_is_written(host: Seq<char>, port: nat)
    requires
        host.len() > 0,
        !text::is_white(host[0]) && !text::is_white(host.last()),
        host[0] != '[' && host[0] != ']' && host.last() != '[' && host.last() != ']',
    ensures
        node_host(host + seq![':'] + number::decimal(port)) == Some(host),
        node_host(seq!['['] + host + seq![']', ':'] + number::decimal(port)) == Some(host),
        node_host(seq!['['] + host + seq![']']) == Some(host),
        !host.contains(':') ==> node_host(host) == Some(host),
{
    let p = number::decimal(port);
    number::lemma_decimal(port);
    assert(!p.contains(':')) by {
        if p.contains(':') {
            let k = choose|k: int| 0 <= k < p.len() && p[k] == ':';
            assert(number::is_digit(p[k]));
        }
    }
    assert(only_digits(p));
    assert(number::is_digit(p[p.len() - 1]));
    let none = Seq::<char>::empty();
    // Without brackets.
    let s = host + seq![':'] + p;
    assert(s[0] == host[0] && s[s.len() - 1] == p[p.len() - 1]);
    text::a_trimmed_text_stays(s);
    text::cutting_at_the_last_undoes_joining(host, ':', p);
    text::a_trimmed_text_stays(host);
    text::trimming_undoes_padding(none, host, none, CharClass::Bracket);
    assert(none + host + none =~= host);
    // With brackets.
    let bare = seq!['['] + host + seq![']'];
    let t = seq!['['] + host + seq![']', ':'] + p;
    assert(t =~= bare + seq![':'] + p);
    assert(t[0] == '[' && t[t.len() - 1] == p[p.len() - 1]);
    text::a_trimmed_text_stays(t);
    text::cutting_at_the_last_undoes_joining(bare, ':', p);
    assert(bare[0] == '[' && bare[bare.len() - 1] == ']');
    text::a_trimmed_text_stays(bare);
    text::trimming_undoes_padding(seq!['['], host, seq![']'], CharClass::Bracket);
    // Without a port.
    let i = text::last_index(bare, ':');
    text::lemma_last_index(bare, ':');
    if i >= 0 {
        let behind = bare.skip(i + 1);
        assert(behind.len() > 0) by {
            assert(bare[bare.len() - 1] == ']');
        }
        assert(behind[behind.len() - 1] == ']');
        assert(!number::is_digit(behind[behind.len() - 1]));
        assert(!only_digits(behind));
    }
    if !host.contains(':') {
        text::cutting_at_the_last_undoes_joining(none, ':', host);
    }
}

proof fn lemma_node_hosts(endpoints: Seq<Seq<char>>, i: int)
    requires
        0 <= i < endpoints.len(),
        node_host(endpoints[i]) is Some,
    ensures
        node_hosts(endpoints).contains(node_host(endpoints[i])->0),
    decreases endpoints.len(),
{
    let head = node_hosts(endpoints.drop_last());
    let all = node_hosts(endpoints);
    let x = node_host(endpoints[i])->0;
    if i == endpoints.len() - 1 {
        assert(all[head.len() as int] == x);
    } else {
        lemma_node_hosts(endpoints.drop_last(), i);
        let k = choose|k: int| 0 <= k < head.len() && head[k] == x;
        assert(all[k] == x);
    }
}

/// The host of every node, and the server, are looked up for a way around the
/// tunnel.
pub proof fn every_node_stays_reachable(endpoints: Seq<Seq<char>>, server_host: Seq<char>, i: int)
    requires
        0 <= i < endpoints.len(),
    ensures
        node_host(endpoints[i]) is Some ==> node_hosts(endpoints).push(server_host).contains(
            node_host(endpoints[i])->0,
        ),
        node_hosts(endpoints).push(server_host).contains(server_host),
{
    let all = node_hosts(endpoints).push(server_host);
    assert(all[all.len() - 1] == server_host);
    if node_host(endpoints[i]) is Some {
        lemma_node_hosts(endpoints, i);
        let x = node_host(endpoints[i])->0;
        let k = choose|k: int|
            0 <= k < node_hosts(endpoints).len() && node_hosts(endpoints)[k] == x;
        assert(all[k] == x);
    }
}

/// An address that lies in a network of the tunnel, and is neither in
/// `127.0.0.0/8` nor `0.0.0.0`, gets a host route on the way that the system
/// takes to it now; an address in no network of the tunnel gets none.
pub proof fn captured_addresses_go_around_the_tunnel(
    bypasses: Seq<RouteSpec>,
    routes: Seq<TunnelRoute>,
    found: Seq<BestRoute>,
    i: int,
    k: int,
)
    requires
        bypasses_captured(bypasses, routes, found),
        0 <= i < found.len(),
        0 <= k < routes.len(),
        routes[k].prefix <= 32,
        routes[k].network.bits as int == ipv4::network_of(
            routes[k].network.bits as int,
            routes[k].prefix as int,
        ),
    ensures
        ({
            let ip = found[i].destination.bits as int;
            let size = vstd::arithmetic::power2::pow2((32 - routes[k].prefix) as nat);
            routes[k].network.bits <= ip < routes[k].network.bits + size && ip / 0x100_0000 != 127
                && ip != 0 ==> bypasses.contains(
                RouteSpec {
                    interface_luid: found[i].interface_luid,
                    destination: found[i].destination,
                    prefix: 32,
                    next_hop: found[i].next_hop,
                },
            )
        }),
        forall|x: RouteSpec| #[trigger]
            bypasses.contains(x) ==> x.prefix == 32 && x.destination.bits != 0
                && x.destination.bits as int / 0x100_0000 != 127 && exists|j: int|
                0 <= j < found.len() && (#[trigger] found[j]).destination == x.destination
                    && found[j].interface_luid == x.interface_luid && found[j].next_hop
                    == x.next_hop,
{
    let ip = found[i].destination;
    let net = routes[k].network.bits as int;
    let p = routes[k].prefix as int;
    let size = vstd::arithmetic::power2::pow2((32 - routes[k].prefix) as nat);
    if net <= ip.bits < net + size && ip.bits as int / 0x100_0000 != 127 && ip.bits != 0 {
        ipv4::a_network_has_no_bits_behind_its_prefix(net, p);
        assert(ipv4::covers(ipv4::network_of(net, p), p, ip.bits as int));
        assert(captures(routes[k], ip));
        assert(must_bypass(routes, found[i].destination));
        assert(bypass_of(found[i]) == (RouteSpec {
            interface_luid: found[i].interface_luid,
            destination: found[i].destination,
            prefix: 32,
            next_hop: found[i].next_hop,
        }));
        assert(bypasses.contains(bypass_of(found[i])));
    }
    assert forall|x: RouteSpec| #[trigger] bypasses.contains(x) implies x.prefix == 32
        && x.destination.bits != 0 && x.destination.bits as int / 0x100_0000 != 127 && exists|j: int|
        0 <= j < found.len() && (#[trigger] found[j]).destination == x.destination
            && found[j].interface_luid == x.interface_luid && found[j].next_hop == x.next_hop by {
        let j = choose|j: int|
            0 <= j < found.len() && must_bypass(routes, (#[trigger] found[j]).destination)
                && bypass_of(found[j]) == x;
        assert(found[j].destination == x.destination);
    }
}

/// Every network of the plan is routed through the tunnel, on its interface and
/// without a next hop, and every route around the tunnel is added before any
/// of those.
pub proof fn every_planned_route_is_added(
    bypasses: Seq<RouteSpec>,
    tunnel: Seq<TunnelRoute>,
    luid: u64,
)
    ensures
        ({
            let steps = planned_routes(bypasses, tunnel, luid);
            &&& steps.len() == bypasses.len() + tunnel.len()
            &&& steps.take(bypasses.len() as int) == bypasses
            &&& forall|k: int|
                0 <= k < tunnel.len() ==> {
                    let x = #[trigger] steps[bypasses.len() + k];
                    x.interface_luid == luid && x.destination == tunnel[k].network && x.prefix
                        == tunnel[k].prefix && x.next_hop.bits == 0
                }
        }),
{
    let steps = planned_routes(bypasses, tunnel, luid);
    assert(steps.take(bypasses.len() as int) =~= bypasses);
}

/// White space around the address of a route text and around its prefix
/// changes nothing.
pub proof fn white_space_inside_a_network_changes_nothing(
    bits: u32,
    a: Seq<char>,
    b: Seq<char>,
    prefix: nat,
)
    requires
        forall|k: int| 0 <= k < a.len() ==> text::is_white(#[trigger] a[k]),
        forall|k: int| 0 <= k < b.len() ==> text::is_white(#[trigger] b[k]),
    ensures
        cidr_check(ipv4::dotted(bits) + a + seq!['/'] + (b + number::decimal(prefix)))
            == cidr_check(ipv4::dotted(bits) + seq!['/'] + number::decimal(prefix)),
{
    let d = ipv4::dotted(bits);
    let p = number::decimal(prefix);
    let none = Seq::<char>::empty();
    number::lemma_decimal(prefix);
    lemma_plain_ends(bits, none);
    ipv4::a_dotted_text_is_plain(bits, 0);
    assert(number::is_digit(p[0]) && number::is_digit(p[p.len() - 1]));
    text::a_trimmed_text_stays(p);
    let s = d + a + seq!['/'] + (b + p);
    assert(s[0] == d[0] && s[s.len() - 1] == p[p.len() - 1]);
    text::a_trimmed_text_stays(s);
    let t = d + seq!['/'] + p;
    assert(t[0] == d[0] && t[t.len() - 1] == p[p.len() - 1]);
    text::a_trimmed_text_stays(t);
    assert(!(d + a).contains('/')) by {
        if (d + a).contains('/') {
            let k = choose|k: int| 0 <= k < (d + a).len() && (d + a)[k] == '/';
            if k < d.len() {
                assert(d[k] == '/');
            } else {
                assert(text::is_white(a[k - d.len()]));
            }
        }
    }
    text::cutting_at_the_first_undoes_joining(d + a, '/', b + p);
    text::cutting_at_the_first_undoes_joining(d, '/', p);
    assert forall|k: int| 0 <= k < a.len() implies CharClass::White.holds(#[trigger] a[k]) by {
        assert(text::is_white(a[k]));
    }
    assert forall|k: int| 0 <= k < b.len() implies CharClass::White.holds(#[trigger] b[k]) by {
        assert(text::is_white(b[k]));
    }
    text::trimming_undoes_padding(none, d, a, CharClass::White);
    assert(none + d + a =~= d + a);
    text::trimming_undoes_padding(b, p, none, CharClass::White);
    assert(b + p + none =~= b + p);
}

/// A route text whose address is no address is refused for it, whatever
/// stands behind the slash and whether or not there is one.
pub proof fn a_network_needs_an_address(address: Seq<char>, prefix: Seq<char>)
    requires
        !address.contains('/'),
        forall|n: u32| text::trim(address) != #[trigger] ipv4::dotted(n),
        text::trim(address) == address,
        text::trim(address + seq!['/'] + prefix) == address + seq!['/'] + prefix,
    ensures
        cidr_check(address) is BadAddress,
        cidr_check(address + seq!['/'] + prefix) is BadAddress,
{
    text::cutting_at_the_first_undoes_joining(address, '/', prefix);
    if ipv4::parse_ipv4(address) is Some {
        ipv4::only_the_dotted_text_denotes_an_address(address);
        assert(address == ipv4::dotted(ipv4::parse_ipv4(address)->0 as u32));
    }
}

/// An address gets a route around the tunnel only where a network of the
/// tunnel holds it.
pub proof fn no_other_address_goes_around_the_tunnel(
    bypasses: Seq<RouteSpec>,
    routes: Seq<TunnelRoute>,
    found: Seq<BestRoute>,
    x: RouteSpec,
)
    requires
        bypasses_captured(bypasses, routes, found),
        forall|k: int|
            0 <= k < routes.len() ==> (#[trigger] routes[k]).prefix <= 32
                && routes[k].network.bits as int % (vstd::arithmetic::power2::pow2(
                (32 - routes[k].prefix) as nat,
            ) as int) == 0,
        bypasses.contains(x),
    ensures
        exists|k: int|
            0 <= k < routes.len() && (#[trigger] routes[k]).network.bits <= x.destination.bits
                < routes[k].network.bits + vstd::arithmetic::power2::pow2(
                (32 - routes[k].prefix) as nat,
            ),
{
    let j = choose|j: int|
        0 <= j < found.len() && must_bypass(routes, (#[trigger] found[j]).destination)
            && bypass_of(found[j]) == x;
    let ip = found[j].destination;
    let k = choose|k: int| 0 <= k < routes.len() && captures(#[trigger] routes[k], ip);
    ipv4::a_network_has_no_bits_behind_its_prefix(ip.bits as int, routes[k].prefix as int);
}

proof fn lemma_kept_in_order(s: Seq<RouteSpec>)
    requires
        forall|i: int, j: int|
            0 <= i < j < s.len() ==> !comes_before(#[trigger] s[j], #[trigger] s[i]),
    ensures
        ({
            let r = without_repeats(s);
            &&& forall|i: int, j: int|
                0 <= i < j < r.len() ==> !comes_before(#[trigger] r[j], #[trigger] r[i])
            &&& forall|i: int| 1 <= i < r.len() ==> #[trigger] r[i] != r[i - 1]
            &&& forall|i: int| 0 <= i < r.len() ==> s.contains(#[trigger] r[i])
            &&& s.len() > 0 ==> r.len() > 0 && r.last() == s.last()
        }),
    decreases s.len(),
{
    let r = without_repeats(s);
    if s.len() > 1 {
        let t = s.drop_last();
        lemma_kept_in_order(t);
        let q = without_repeats(t);
        assert(t.last() == s[s.len() - 2]);
        assert forall|i: int| 0 <= i < q.len() implies s.contains(#[trigger] q[i])
            && !comes_before(s.last(), q[i]) by {
            let k = choose|k: int| 0 <= k < t.len() && t[k] == q[i];
            assert(s[k] == q[i]);
            assert(!comes_before(s[s.len() - 1], s[k]));
        }
        assert(s.contains(s.last()));
        if s[s.len() - 2] != s.last() {
            assert(r == q.push(s.last()));
            assert forall|i: int, j: int| 0 <= i < j < r.len() implies !comes_before(
                #[trigger] r[j],
                #[trigger] r[i],
            ) by {
                assert(r[i] == q[i]);
                if j < q.len() {
                    assert(r[j] == q[j]);
                }
            }
            assert forall|i: int| 1 <= i < r.len() implies #[trigger] r[i] != r[i - 1] by {
                if i < q.len() {
                    assert(r[i] == q[i] && r[i - 1] == q[i - 1]);
                } else {
                    assert(r[i - 1] == q.last());
                }
            }
            assert forall|i: int| 0 <= i < r.len() implies s.contains(#[trigger] r[i]) by {
                if i < q.len() {
                    assert(r[i] == q[i]);
                }
            }
        }
    }
}

/// The routes around the tunnel come by their destination, and those of one
/// destination by their interface; none is there twice in a row.
pub proof fn routes_around_the_tunnel_are_in_order(
    bypasses: Seq<RouteSpec>,
    ordered: Seq<RouteSpec>,
    all: Seq<RouteSpec>,
)
    requires
        stably_sorted(ordered, all),
        bypasses == without_repeats(ordered),
    ensures
        forall|i: int, j: int|
            0 <= i < j < bypasses.len() ==> (#[trigger] bypasses[i]).destination.bits < (
            #[trigger] bypasses[j]).destination.bits || (bypasses[i].destination
                == bypasses[j].destination && bypasses[i].interface_luid
                <= bypasses[j].interface_luid),
        forall|i: int| 1 <= i < bypasses.len() ==> #[trigger] bypasses[i] != bypasses[i - 1],
{
    lemma_kept_in_order(ordered);
    assert forall|i: int, j: int| 0 <= i < j < bypasses.len() implies (
    #[trigger] bypasses[i]).destination.bits < (#[trigger] bypasses[j]).destination.bits || (
    bypasses[i].destination == bypasses[j].destination && bypasses[i].interface_luid
        <= bypasses[j].interface_luid) by {
        assert(!comes_before(bypasses[j], bypasses[i]));
    }
}

/// A network is undone backwards: the route that came last goes first. Then
/// the policy goes if there is one, and the names that were looked up. The
/// record goes last of all, and a clean-up clears the policy in any case.
pub proof fn a_network_is_undone_backwards(routes: Seq<RouteSpec>, nrpt: bool)
    ensures
        ({
            let n = routes.len() as int;
            let s = undo_steps(routes, nrpt);
            &&& s.len() == n + (if nrpt { 2int } else { 1int })
            &&& forall|i: int|
                0 <= i < n ==> #[trigger] s[i] == UndoStep::DeleteRoute(routes[n - 1 - i])
            &&& nrpt ==> s[n] == UndoStep::ClearPolicy
            &&& s.last() == UndoStep::FlushDns
            &&& stop_steps(routes, nrpt) == s + seq![UndoStep::RemoveRecord]
            &&& leftover_steps(Some((routes, nrpt))) == s + seq![
                UndoStep::ClearPolicy,
                UndoStep::RemoveRecord,
            ]
        }),
        leftover_steps(None) == seq![UndoStep::ClearPolicy, UndoStep::RemoveRecord],
{
    let s = undo_steps(routes, nrpt);
    assert(stop_steps(routes, nrpt) =~= s + seq![UndoStep::RemoveRecord]);
    assert(leftover_steps(Some((routes, nrpt))) =~= s + seq![
        UndoStep::ClearPolicy,
        UndoStep::RemoveRecord,
    ]);
    assert(leftover_steps(None) =~= seq![UndoStep::ClearPolicy, UndoStep::RemoveRecord]);
}

} // verus!
