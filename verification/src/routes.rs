//! The routes of the macOS helper: what is added, how it is written, and what
//! the routing tools say.
use crate::encoding;
use crate::encoding::{read_strings, write_strings};
use crate::error::{AtrError, AtrResult, ErrorCode};
use crate::ipv4;
use crate::ipv4::{network_address, parse_address, Ipv4Addr};
use crate::networksetup;
use crate::number;
use crate::number::parse_decimal;
use crate::sorted;
use crate::sorted::sort_dedup;
use crate::text;
use crate::text::{
    begins, chars_of, clone_strings, holds_text, is_text, lines_of, split_first, split_last,
    split_on, string_of, trimmed, trimmed_class, without_prefix, words_of, CharClass,
};
use vstd::prelude::*;
use vstd::string::*;

verus! {

/// The address of the far end of the tunnel.
pub open spec fn tunnel_gateway() -> Seq<char> {
    "10.0.0.1"@
}

// ---------------------------------------------------------------------------
// Written routes
// ---------------------------------------------------------------------------

/// A route as the `route` tool takes it.
#[derive(Debug, Clone)]
pub struct NormalizedRoute {
    pub route_args: Vec<String>,
}

/// The arguments that name a route: a host where the prefix is the whole
/// address, a network otherwise. A text without a prefix names none.
pub open spec fn route_args(cidr: Seq<char>) -> Option<Seq<Seq<char>>> {
    let t = text::trim(cidr);
    match text::split_at_first(t, '/') {
        Some((addr, prefix)) => if prefix == "32"@ {
            Some(seq!["-host"@, addr])
        } else {
            Some(seq!["-net"@, t])
        },
        None => None,
    }
}

/// An address and a prefix with a slash between them.
pub open spec fn slashed(addr: Seq<char>, prefix: Seq<char>) -> Seq<char> {
    addr + seq!['/'] + prefix
}

/// Names a route for the `route` tool.
pub fn normalize_route_cidr(cidr: &str) -> (r: AtrResult<NormalizedRoute>)
    ensures
        match r {
            Ok(route) => route_args(cidr@) == Some(text::strings(route.route_args@)),
            Err(e) => route_args(cidr@) is None && e.says(
                ErrorCode::InvalidArgument,
                "invalid CIDR route: "@ + text::trim(cidr@),
            ),
        },
        forall|addr: Seq<char>, prefix: Seq<char>|
            #![trigger slashed(addr, prefix)]
            text::trim(cidr@) == slashed(addr, prefix) && !addr.contains('/') ==> r is Ok
                && text::strings(r->Ok_0.route_args@) == if prefix == "32"@ {
                seq!["-host"@, addr]
            } else {
                seq!["-net"@, slashed(addr, prefix)]
            },
        !text::trim(cidr@).contains('/') ==> r is Err,
{
    let cs = chars_of(cidr);
    let t = trimmed(cs.as_slice());
    proof {
        assert forall|addr: Seq<char>, prefix: Seq<char>|
            #![trigger slashed(addr, prefix)]
            text::trim(cidr@) == slashed(addr, prefix) && !addr.contains('/') implies route_args(
            cidr@,
        ) == Some(
            if prefix == "32"@ {
                seq!["-host"@, addr]
            } else {
                seq!["-net"@, slashed(addr, prefix)]
            },
        ) by {
            a_route_is_named_by_its_prefix(cidr@, addr, prefix);
        }
        text::lemma_first_index(t@, '/');
    }
    match split_first(t, '/') {
        Some((addr, prefix)) => {
            if is_text(prefix, "32") {
                let args: Vec<String> = vec!["-host".to_owned(), string_of(addr)];
                assert(text::strings(args@) =~= seq!["-host"@, addr@]);
                Ok(NormalizedRoute { route_args: args })
            } else {
                let args: Vec<String> = vec!["-net".to_owned(), string_of(t)];
                assert(text::strings(args@) =~= seq!["-net"@, t@]);
                Ok(NormalizedRoute { route_args: args })
            }
        },
        None => {
            let mut message = "invalid CIDR route: ".to_owned();
            message.append(string_of(t).as_str());
            Err(AtrError::InvalidArgument(message))
        },
    }
}

/// The arguments that add a route.
pub open spec fn add_args(args: Seq<Seq<char>>, gateway: Seq<char>) -> Seq<Seq<char>> {
    seq!["-n"@, "add"@] + args + seq![gateway]
}

/// The arguments that delete a route.
pub open spec fn delete_args(args: Seq<Seq<char>>) -> Seq<Seq<char>> {
    seq!["-n"@, "delete"@] + args
}

/// The arguments with which the `route` tool adds a route through a gateway.
pub fn add_route_cidr(cidr: &str, gateway: &str) -> (r: AtrResult<Vec<String>>)
    ensures
        match r {
            Ok(args) => route_args(cidr@) is Some && text::strings(args@) == add_args(
                route_args(cidr@)->0,
                gateway@,
            ),
            Err(e) => route_args(cidr@) is None && e.says(
                ErrorCode::InvalidArgument,
                "invalid CIDR route: "@ + text::trim(cidr@),
            ),
        },
{
    match normalize_route_cidr(cidr) {
        Ok(route) => {
            let mut args: Vec<String> = vec!["-n".to_owned(), "add".to_owned()];
            let mut rest = route.route_args;
            args.append(&mut rest);
            args.push(gateway.to_owned());
            assert(text::strings(args@) =~= add_args(text::strings(route.route_args@), gateway@));
            Ok(args)
        },
        Err(e) => Err(e),
    }
}

/// The arguments with which the `route` tool deletes a route. Nothing is
/// deleted for a text that names no route.
pub fn delete_route_cidr(cidr: &str) -> (r: Option<Vec<String>>)
    ensures
        match r {
            Some(args) => route_args(cidr@) is Some && text::strings(args@) == delete_args(
                route_args(cidr@)->0,
            ),
            None => route_args(cidr@) is None,
        },
{
    match normalize_route_cidr(cidr) {
        Ok(route) => {
            let mut args: Vec<String> = vec!["-n".to_owned(), "delete".to_owned()];
            let mut rest = route.route_args;
            args.append(&mut rest);
            assert(text::strings(args@) =~= delete_args(text::strings(route.route_args@)));
            Some(args)
        },
        Err(_) => None,
    }
}

/// What is made of the answer of the `route` tool: that a route exists is as
/// good as adding it.
pub fn route_added(outcome: AtrResult<()>) -> (r: AtrResult<()>)
    ensures
        match outcome {
            Ok(_) => r is Ok,
            Err(e) => if text::contains_text(e.shown(), "File exists"@) {
                r is Ok
            } else {
                r == Err::<(), AtrError>(e)
            },
        },
{
    match outcome {
        Ok(_) => Ok(()),
        Err(e) => {
            let shown = chars_of(e.to_text().as_str());
            if holds_text(shown.as_slice(), "File exists") {
                Ok(())
            } else {
                Err(e)
            }
        },
    }
}

/// The routes that clear what an earlier run may have left behind.
pub fn stale_route_args() -> (r: Vec<Vec<String>>)
    ensures
        r@.len() == 3,
        text::strings(r@[0]@) == seq!["-n"@, "delete"@, "-net"@, "198.18.0.0/15"@],
        text::strings(r@[1]@) == seq!["-n"@, "delete"@, "-net"@, "198.18.0.0/16"@],
        text::strings(r@[2]@) == seq!["-n"@, "delete"@, "-host"@, "198.18.0.1"@],
{
    let a: Vec<String> = vec![
        "-n".to_owned(),
        "delete".to_owned(),
        "-net".to_owned(),
        "198.18.0.0/15".to_owned(),
    ];
    let b: Vec<String> = vec![
        "-n".to_owned(),
        "delete".to_owned(),
        "-net".to_owned(),
        "198.18.0.0/16".to_owned(),
    ];
    let c: Vec<String> = vec![
        "-n".to_owned(),
        "delete".to_owned(),
        "-host".to_owned(),
        "198.18.0.1".to_owned(),
    ];
    assert(text::strings(a@) =~= seq!["-n"@, "delete"@, "-net"@, "198.18.0.0/15"@]);
    assert(text::strings(b@) =~= seq!["-n"@, "delete"@, "-net"@, "198.18.0.0/16"@]);
    assert(text::strings(c@) =~= seq!["-n"@, "delete"@, "-host"@, "198.18.0.1"@]);
    vec![a, b, c]
}

// ---------------------------------------------------------------------------
// Probes
// ---------------------------------------------------------------------------

/// The address of four numbers below 256 separated by full stops.
pub open spec fn loose_address(s: Seq<char>) -> Option<int> {
    let p = text::split(s, '.');
    if p.len() == 4 && number::parse_unsigned(p[0], 255) is Some && number::parse_unsigned(
        p[1],
        255,
    ) is Some && number::parse_unsigned(p[2], 255) is Some && number::parse_unsigned(
        p[3],
        255,
    ) is Some {
        Some(
            number::parse_unsigned(p[0], 255)->0 * 0x100_0000 + number::parse_unsigned(
                p[1],
                255,
            )->0 * 0x1_0000 + number::parse_unsigned(p[2], 255)->0 * 0x100
                + number::parse_unsigned(p[3], 255)->0,
        )
    } else {
        None
    }
}

/// An address to look for a route with: the address itself where the block has
/// one or two, the one behind the first otherwise.
pub open spec fn probe_of(bits: int, prefix: int) -> int {
    if prefix >= 31 {
        bits
    } else {
        ipv4::network_of(bits, prefix) + 1
    }
}

/// What a route text is found to be.
pub enum ProbeCheck {
    NoPrefix,
    BadAddress,
    BadPrefix,
    Probe(u32),
}

/// The probe of a route text, or what is wrong with it. The address is looked
/// at before the prefix.
pub open spec fn probe_check(cidr: Seq<char>) -> ProbeCheck {
    match text::split_at_first(text::trim(cidr), '/') {
        None => ProbeCheck::NoPrefix,
        Some((addr, prefix)) => match loose_address(addr) {
            None => ProbeCheck::BadAddress,
            Some(bits) => match number::parse_unsigned(prefix, 32) {
                None => ProbeCheck::BadPrefix,
                Some(p) => ProbeCheck::Probe(probe_of(bits, p) as u32),
            },
        },
    }
}

/// What is said of a route text that is no good.
pub open spec fn probe_complaint(check: ProbeCheck) -> Seq<char> {
    match check {
        ProbeCheck::NoPrefix => "invalid CIDR route: "@,
        ProbeCheck::BadAddress => "invalid IPv4 route: "@,
        _ => "invalid CIDR prefix: "@,
    }
}

fn octet_number(part: &Vec<char>) -> (r: Option<u32>)
    ensures
        match r {
            Some(n) => number::parse_unsigned(part@, 255) == Some(n as int) && n <= 255,
            None => number::parse_unsigned(part@, 255) is None,
        },
{
    parse_decimal(part.as_slice(), 255)
}

fn loose_bits(addr: &[char]) -> (r: Option<u32>)
    ensures
        match r {
            Some(bits) => loose_address(addr@) == Some(bits as int),
            None => loose_address(addr@) is None,
        },
{
    let parts = split_on(addr, '.');
    let ghost p = text::split(addr@, '.');
    assert(text::texts(parts@).len() == p.len());
    if parts.len() != 4 {
        return None;
    }
    assert(forall|i: int| 0 <= i < 4 ==> p[i] == #[trigger] parts@[i]@);
    let a = octet_number(&parts[0]);
    let b = octet_number(&parts[1]);
    let c = octet_number(&parts[2]);
    let d = octet_number(&parts[3]);
    match (a, b, c, d) {
        (Some(a), Some(b), Some(c), Some(d)) => Some(
            a * 0x100_0000 + b * 0x1_0000 + c * 0x100 + d,
        ),
        _ => None,
    }
}

fn complaint(label: &str, t: &[char]) -> (r: AtrError)
    ensures
        r.says(ErrorCode::InvalidArgument, label@ + t@),
{
    let mut message = label.to_owned();
    message.append(string_of(t).as_str());
    AtrError::InvalidArgument(message)
}

/// An address that the route of a text leads to.
pub fn route_probe_address(cidr: &str) -> (r: AtrResult<String>)
    ensures
        match r {
            Ok(probe) => probe_check(cidr@) is Probe && probe@ == ipv4::dotted(
                probe_check(cidr@)->Probe_0,
            ),
            Err(e) => !(probe_check(cidr@) is Probe) && e.says(
                ErrorCode::InvalidArgument,
                probe_complaint(probe_check(cidr@)) + text::trim(cidr@),
            ),
        },
        probe_check(cidr@) is NoPrefix ==> r is Err && r->Err_0.says(
            ErrorCode::InvalidArgument,
            "invalid CIDR route: "@ + text::trim(cidr@),
        ),
        probe_check(cidr@) is BadAddress ==> r is Err && r->Err_0.says(
            ErrorCode::InvalidArgument,
            "invalid IPv4 route: "@ + text::trim(cidr@),
        ),
        probe_check(cidr@) is BadPrefix ==> r is Err && r->Err_0.says(
            ErrorCode::InvalidArgument,
            "invalid CIDR prefix: "@ + text::trim(cidr@),
        ),
{
    let cs = chars_of(cidr);
    let t = trimmed(cs.as_slice());
    let (addr, prefix_text) = match split_first(t, '/') {
        Some(parts) => parts,
        None => {
            return Err(complaint("invalid CIDR route: ", t));
        },
    };
    let bits = match loose_bits(addr) {
        Some(bits) => bits,
        None => {
            return Err(complaint("invalid IPv4 route: ", t));
        },
    };
    let prefix = match parse_decimal(prefix_text, 32) {
        Some(prefix) => prefix,
        None => {
            return Err(complaint("invalid CIDR prefix: ", t));
        },
    };
    let ip = Ipv4Addr { bits };
    if prefix >= 31 {
        return Ok(ip.to_text());
    }
    let network = network_address(ip, prefix as u8);
    proof {
        ipv4::network_is_a_block(bits as int, prefix as int);
        ipv4::lemma_span(prefix as int);
    }
    Ok(Ipv4Addr { bits: network.bits + 1 }.to_text())
}

/// A probe lies in the block that it is for, and is neither its first nor its
/// last address where the block has more than two.
pub proof fn a_probe_lies_in_its_route(bits: int, prefix: int)
    requires
        0 <= bits < 0x1_0000_0000,
        0 <= prefix <= 32,
    ensures
        ipv4::covers(ipv4::network_of(bits, prefix), prefix, probe_of(bits, prefix)),
        prefix <= 30 ==> ipv4::network_of(bits, prefix) < probe_of(bits, prefix)
            < ipv4::broadcast_of(bits, prefix),
{
    ipv4::network_is_a_block(bits, prefix);
    ipv4::lemma_span(prefix);
}

/// Whether the `route` tool says that an address goes through the tunnel.
pub open spec fn through_tunnel(answer: Seq<char>) -> bool {
    text::contains_text(answer, "gateway: 10.0.0.1"@) || text::contains_text(
        answer,
        "interface: utun"@,
    )
}

/// Whether the `route` tool says that an address goes through the tunnel.
pub fn tun_route_ready(answer: &str) -> (r: bool)
    ensures
        r == through_tunnel(answer@),
        r == (text::contains_text(answer@, "gateway: 10.0.0.1"@) || text::contains_text(
            answer@,
            "interface: utun"@,
        )),
{
    let cs = chars_of(answer);
    holds_text(cs.as_slice(), "gateway: 10.0.0.1") || holds_text(
        cs.as_slice(),
        "interface: utun",
    )
}

/// Whether the routes of a list of texts lead through the tunnel, by what the
/// `route` tool says of their probes. No answer means no.
pub fn routes_ready(answers: &Vec<Option<String>>) -> (r: bool)
    ensures
        r == forall|i: int|
            0 <= i < answers@.len() ==> (#[trigger] answers@[i]) is Some && through_tunnel(
                answers@[i]->0@,
            ),
{
    for i in 0..answers.len()
        invariant
            forall|k: int|
                0 <= k < i ==> (#[trigger] answers@[k]) is Some && through_tunnel(
                    answers@[k]->0@,
                ),
    {
        let ready = match &answers[i] {
            Some(answer) => tun_route_ready(answer.as_str()),
            None => false,
        };
        if !ready {
            assert(!(answers@[i as int] is Some && through_tunnel(answers@[i as int]->0@)));
            return false;
        }
    }
    true
}

// ---------------------------------------------------------------------------
// What the tools say
// ---------------------------------------------------------------------------

/// The IPv4 gateway that a line of the `route` tool names.
pub open spec fn gateway_of(line: Seq<char>) -> Option<Seq<char>> {
    match text::strip_prefix(text::trim(line), "gateway:"@) {
        Some(rest) => if ipv4::parse_ipv4(text::trim(rest)) is Some {
            Some(text::trim(rest))
        } else {
            None
        },
        None => None,
    }
}

/// The first gateway that some lines name.
pub open spec fn first_gateway(lines: Seq<Seq<char>>) -> Option<Seq<char>>
    decreases lines.len(),
{
    if lines.len() == 0 {
        None
    } else if gateway_of(lines[0]) is Some {
        gateway_of(lines[0])
    } else {
        first_gateway(lines.drop_first())
    }
}

/// The default gateway in the answer of the `route` tool.
pub fn default_ipv4_gateway(answer: &str) -> (r: AtrResult<String>)
    ensures
        match r {
            Ok(gateway) => first_gateway(text::lines(answer@)) == Some(gateway@),
            Err(e) => first_gateway(text::lines(answer@)) is None && e.says(
                ErrorCode::NetworkFailed,
                "unable to discover default IPv4 gateway"@,
            ),
        },
{
    let cs = chars_of(answer);
    let lines = lines_of(cs.as_slice());
    let ghost all = text::texts(lines@);
    let mut i: usize = 0;
    assert(all.skip(0) =~= all);
    while i < lines.len()
        invariant
            i <= lines.len(),
            all == text::texts(lines@),
            all == text::lines(answer@),
            first_gateway(all) == first_gateway(all.skip(i as int)),
        decreases lines.len() - i,
    {
        assert(all.skip(i as int)[0] == lines@[i as int]@);
        assert(all.skip(i as int).drop_first() =~= all.skip(i + 1));
        match without_prefix(trimmed(lines[i].as_slice()), "gateway:") {
            Some(rest) => {
                let gateway = trimmed(rest);
                if parse_address(gateway).is_some() {
                    return Ok(string_of(gateway));
                }
            },
            None => {},
        }
        i = i + 1;
    }
    Err(AtrError::NetworkFailed("unable to discover default IPv4 gateway".to_owned()))
}

/// The tunnel device that a line of the routing table names: the last of four
/// or more words of a line for the gateway.
pub open spec fn table_device(line: Seq<char>) -> Option<Seq<char>> {
    let w = text::words(line);
    if w.len() >= 4 && w[0] == tunnel_gateway() && text::starts_with(w.last(), "utun"@) {
        Some(w.last())
    } else {
        None
    }
}

/// The first tunnel device in a routing table.
pub open spec fn first_table_device(lines: Seq<Seq<char>>) -> Option<Seq<char>>
    decreases lines.len(),
{
    if lines.len() == 0 {
        None
    } else if table_device(lines[0]) is Some {
        table_device(lines[0])
    } else {
        first_table_device(lines.drop_first())
    }
}

/// The tunnel device that a line of the device list names, where the line
/// behind it shows an IPv4 address.
pub open spec fn listed_device(header: Seq<char>, body: Seq<char>) -> Option<Seq<char>> {
    if text::starts_with(header, "utun"@) && text::contains_text(body, "inet "@) {
        match text::split_at_first(header, ':') {
            Some((name, _)) => Some(name),
            None => None,
        }
    } else {
        None
    }
}

/// The first tunnel device with an address in a device list.
pub open spec fn first_listed_device(lines: Seq<Seq<char>>) -> Option<Seq<char>>
    decreases lines.len(),
{
    if lines.len() < 2 {
        None
    } else if listed_device(lines[0], lines[1]) is Some {
        listed_device(lines[0], lines[1])
    } else {
        first_listed_device(lines.drop_first())
    }
}

/// The tunnel device in a routing table.
pub fn tun_name_in_table(table: &str) -> (r: Option<String>)
    ensures
        text::text_of(r) == first_table_device(text::lines(table@)),
{
    let cs = chars_of(table);
    let lines = lines_of(cs.as_slice());
    let ghost all = text::texts(lines@);
    let mut i: usize = 0;
    assert(all.skip(0) =~= all);
    while i < lines.len()
        invariant
            i <= lines.len(),
            all == text::texts(lines@),
            all == text::lines(table@),
            first_table_device(all) == first_table_device(all.skip(i as int)),
        decreases lines.len() - i,
    {
        assert(all.skip(i as int)[0] == lines@[i as int]@);
        assert(all.skip(i as int).drop_first() =~= all.skip(i + 1));
        let fields = words_of(lines[i].as_slice());
        let ghost w = text::texts(fields@);
        if fields.len() >= 4 {
            let n = fields.len();
            assert(w[0] == fields@[0]@);
            assert(w.last() == fields@[n - 1]@);
            if is_text(fields[0].as_slice(), "10.0.0.1") && begins(
                fields[n - 1].as_slice(),
                "utun",
            ) {
                return Some(string_of(fields[n - 1].as_slice()));
            }
        }
        i = i + 1;
    }
    None
}

/// The tunnel device in a device list.
pub fn tun_name_in_list(list: &str) -> (r: Option<String>)
    ensures
        text::text_of(r) == first_listed_device(text::split(list@, '\n')),
{
    let cs = chars_of(list);
    let lines = split_on(cs.as_slice(), '\n');
    let ghost all = text::texts(lines@);
    let mut i: usize = 0;
    assert(all.skip(0) =~= all);
    while lines.len() >= 2 && i < lines.len() - 1
        invariant
            i <= lines.len(),
            all == text::texts(lines@),
            all == text::split(list@, '\n'),
            first_listed_device(all) == first_listed_device(all.skip(i as int)),
        decreases lines.len() - i,
    {
        assert(all.skip(i as int)[0] == lines@[i as int]@);
        assert(all.skip(i as int)[1] == lines@[i + 1]@);
        assert(all.skip(i as int).drop_first() =~= all.skip(i + 1));
        let header = lines[i].as_slice();
        if begins(header, "utun") && holds_text(lines[i + 1].as_slice(), "inet ") {
            match split_first(header, ':') {
                Some((name, _)) => {
                    return Some(string_of(name));
                },
                None => {},
            }
        }
        i = i + 1;
    }
    None
}

/// The device of the tunnel that was just started: as the routing table has
/// it, or as the device list has it.
pub fn discover_tun_name(table: &str, list: &str) -> (r: AtrResult<String>)
    ensures
        ({
            let in_table = first_table_device(text::lines(table@));
            let in_list = first_listed_device(text::split(list@, '\n'));
            match r {
                Ok(name) => Some(name@) == if in_table is Some {
                    in_table
                } else {
                    in_list
                },
                Err(e) => in_table is None && in_list is None && e.says(
                    ErrorCode::NetworkFailed,
                    "unable to discover TUN interface after start"@,
                ),
            }
        }),
{
    match tun_name_in_table(table) {
        Some(name) => Ok(name),
        None => match tun_name_in_list(list) {
            Some(name) => Ok(name),
            None => Err(
                AtrError::NetworkFailed(
                    "unable to discover TUN interface after start".to_owned(),
                ),
            ),
        },
    }
}

// ---------------------------------------------------------------------------
// Nodes
// ---------------------------------------------------------------------------

/// The host of a node: what stands before the last colon, without brackets.
pub open spec fn host_of(endpoint: Seq<char>) -> Option<Seq<char>> {
    match text::split_at_last(text::trim(endpoint), ':') {
        Some((host, _)) => {
            let bare = text::trim_class(text::trim(host), CharClass::Bracket);
            if bare.len() == 0 {
                None
            } else {
                Some(bare)
            }
        },
        None => None,
    }
}

/// The host of a node.
pub fn endpoint_host(endpoint: &str) -> (r: Option<String>)
    ensures
        text::text_of(r) == host_of(endpoint@),
{
    let cs = chars_of(endpoint);
    match split_last(trimmed(cs.as_slice()), ':') {
        Some((host, _)) => {
            let bare = trimmed_class(trimmed(host), CharClass::Bracket);
            if bare.len() == 0 {
                None
            } else {
                Some(string_of(bare))
            }
        },
        None => None,
    }
}

/// The address that a host text is, where it needs no lookup.
pub fn literal_address(host: &str) -> (r: Option<Ipv4Addr>)
    ensures
        match r {
            Some(ip) => ipv4::parse_ipv4(host@) == Some(ip.bits as int),
            None => ipv4::parse_ipv4(host@) is None,
        },
{
    let cs = chars_of(host);
    parse_address(cs.as_slice())
}

/// The routes of some addresses, one host each.
pub open spec fn host_routes(ips: Seq<Ipv4Addr>) -> Seq<Seq<char>> {
    Seq::new(ips.len(), |i: int| ipv4::dotted(ips[i].bits) + "/32"@)
}

/// The routes to the nodes, sorted, each once.
pub fn node_route_cidrs(ips: &Vec<Ipv4Addr>) -> (r: Vec<String>)
    ensures
        sorted::sorted_set_of(text::strings(r@), host_routes(ips@)),
{
    let mut routes: Vec<String> = Vec::new();
    for i in 0..ips.len()
        invariant
            text::strings(routes@) == host_routes(ips@.take(i as int)),
    {
        let ghost before = text::strings(routes@);
        let mut route = ips[i].to_text();
        route.append("/32");
        routes.push(route);
        assert(text::strings(routes@) =~= before.push(route@));
        assert(host_routes(ips@.take(i + 1)) =~= before.push(route@));
    }
    assert(ips@.take(ips.len() as int) =~= ips@);
    sort_dedup(routes)
}

/// The routes that go through the tunnel: the managed ones and the one to the
/// name server, where there is one.
pub open spec fn wanted_routes(cidrs: Seq<Seq<char>>, dns_addr: Seq<char>) -> Seq<Seq<char>> {
    if text::trim(dns_addr).len() == 0 {
        cidrs
    } else {
        cidrs.push(text::trim(dns_addr) + "/32"@)
    }
}

/// The routes that go through the tunnel, sorted, each once.
pub fn managed_routes(cidrs: &Vec<String>, dns_addr: &str) -> (r: Vec<String>)
    ensures
        sorted::sorted_set_of(
            text::strings(r@),
            wanted_routes(text::strings(cidrs@), dns_addr@),
        ),
{
    let mut routes = clone_strings(cidrs);
    let ghost before = text::strings(routes@);
    let cs = chars_of(dns_addr);
    let dns = trimmed(cs.as_slice());
    if dns.len() > 0 {
        let mut route = string_of(dns);
        route.append("/32");
        routes.push(route);
        assert(text::strings(routes@) =~= before.push(route@));
    }
    sort_dedup(routes)
}

// ---------------------------------------------------------------------------
// Cleaning up
// ---------------------------------------------------------------------------

/// The commands that delete some routes. Texts that name no route are passed
/// over.
pub open spec fn deletions(cidrs: Seq<Seq<char>>) -> Seq<Seq<Seq<char>>>
    decreases cidrs.len(),
{
    if cidrs.len() == 0 {
        Seq::empty()
    } else {
        let head = deletions(cidrs.drop_last());
        match route_args(cidrs.last()) {
            Some(args) => head.push(delete_args(args)),
            None => head,
        }
    }
}

/// The commands that delete what every run may have left behind.
pub open spec fn stale_deletions() -> Seq<Seq<Seq<char>>> {
    seq![
        seq!["-n"@, "delete"@, "-net"@, "198.18.0.0/15"@],
        seq!["-n"@, "delete"@, "-net"@, "198.18.0.0/16"@],
        seq!["-n"@, "delete"@, "-host"@, "198.18.0.1"@],
    ]
}

/// The routes that a state file lists; none where it is not there or cannot be
/// read.
pub open spec fn listed(saved: Option<Seq<char>>) -> Seq<Seq<char>> {
    match saved {
        Some(s) => match encoding::json_strings(s) {
            Some(list) => list,
            None => Seq::empty(),
        },
        None => Seq::empty(),
    }
}

/// The texts that a state file lists.
pub(crate) fn read_list(saved: &Option<String>) -> (r: Vec<String>)
    ensures
        text::strings(r@) == listed(text::text_of(*saved)),
{
    let found = match saved {
        Some(s) => read_strings(s.as_str()),
        None => None,
    };
    match found {
        Some(list) => list,
        None => {
            let none: Vec<String> = Vec::new();
            assert(text::strings(none@) =~= Seq::<Seq<char>>::empty());
            none
        },
    }
}

/// The commands that delete some routes, to be run whatever comes of each.
pub fn delete_routes(cidrs: &Vec<String>) -> (r: Vec<Vec<String>>)
    ensures
        networksetup::commands(r@) == deletions(text::strings(cidrs@)),
{
    let ghost all = text::strings(cidrs@);
    let mut r: Vec<Vec<String>> = Vec::new();
    assert(networksetup::commands(r@) =~= deletions(all.take(0)));
    for i in 0..cidrs.len()
        invariant
            all == text::strings(cidrs@),
            networksetup::commands(r@) == deletions(all.take(i as int)),
    {
        let ghost one = all.take(i + 1);
        let ghost before = networksetup::commands(r@);
        assert(one.drop_last() =~= all.take(i as int));
        assert(one.last() == cidrs@[i as int]@);
        match delete_route_cidr(cidrs[i].as_str()) {
            Some(args) => {
                r.push(args);
                assert(networksetup::commands(r@) =~= before.push(text::strings(args@)));
            },
            None => {},
        }
    }
    assert(all.take(cidrs.len() as int) =~= all);
    r
}

/// The commands that delete the routes of a tunnel, from the state file that
/// lists them, to be run whatever comes of each.
pub fn cleanup_tun_routes(saved: &Option<String>) -> (r: Vec<Vec<String>>)
    ensures
        networksetup::commands(r@) == stale_deletions() + deletions(
            listed(text::text_of(*saved)),
        ),
{
    let mut r = stale_route_args();
    assert(networksetup::commands(r@) =~= stale_deletions());
    let mut more = delete_routes(&read_list(saved));
    let ghost tail = networksetup::commands(more@);
    r.append(&mut more);
    assert(networksetup::commands(r@) =~= stale_deletions() + tail);
    r
}

proof fn lemma_deleted(cidrs: Seq<Seq<char>>, i: int)
    requires
        0 <= i < cidrs.len(),
        route_args(cidrs[i]) is Some,
    ensures
        deletions(cidrs).contains(delete_args(route_args(cidrs[i])->0)),
    decreases cidrs.len(),
{
    let head = deletions(cidrs.drop_last());
    let all = deletions(cidrs);
    let x = delete_args(route_args(cidrs[i])->0);
    if i == cidrs.len() - 1 {
        assert(all[head.len() as int] == x);
    } else {
        lemma_deleted(cidrs.drop_last(), i);
        let k = choose|k: int| 0 <= k < head.len() && head[k] == x;
        assert(all[k] == x);
    }
}

/// Every route that was installed and noted is deleted when the tunnel is
/// cleaned up.
pub proof fn what_was_installed_is_deleted(installed: Seq<Seq<char>>, state: Seq<char>, i: int)
    requires
        encoding::json_strings(state) == Some(installed),
        0 <= i < installed.len(),
        route_args(installed[i]) is Some,
    ensures
        (stale_deletions() + deletions(listed(Some(state)))).contains(
            delete_args(route_args(installed[i])->0),
        ),
{
    lemma_deleted(installed, i);
    let d = deletions(installed);
    let x = delete_args(route_args(installed[i])->0);
    let k = choose|k: int| 0 <= k < d.len() && d[k] == x;
    assert((stale_deletions() + d)[stale_deletions().len() + k] == x);
}

// ---------------------------------------------------------------------------
// Installing
// ---------------------------------------------------------------------------

/// A step of setting up the routes of a tunnel.
#[derive(Debug, Clone, Copy, PartialEq, Eq, Structural)]
pub enum SetupStep {
    /// Find the device of the tunnel.
    DiscoverDevice,
    /// Write the resolver files.
    Resolvers,
    /// Find the addresses of the nodes, and the gateway where there are any.
    NodeRoutes,
    AddRoutes,
    /// Note the routes that are in place.
    SaveRoutes,
    FlushDns,
}

/// The steps of setting up the routes, in order. A tunnel that sets up none
/// has none.
pub open spec fn setup_path(setup_routes: bool) -> Seq<SetupStep> {
    if setup_routes {
        seq![
            SetupStep::DiscoverDevice,
            SetupStep::Resolvers,
            SetupStep::NodeRoutes,
            SetupStep::AddRoutes,
            SetupStep::SaveRoutes,
            SetupStep::FlushDns,
        ]
    } else {
        Seq::empty()
    }
}

/// The steps of setting up the routes of a tunnel, to be taken in order until
/// one fails.
pub fn setup_managed_tun_routes(setup_routes: bool) -> (r: Vec<SetupStep>)
    ensures
        r@ == setup_path(setup_routes),
        !setup_routes ==> r@.len() == 0,
        setup_routes ==> r@ == seq![
            SetupStep::DiscoverDevice,
            SetupStep::Resolvers,
            SetupStep::NodeRoutes,
            SetupStep::AddRoutes,
            SetupStep::SaveRoutes,
            SetupStep::FlushDns,
        ],
{
    let mut r: Vec<SetupStep> = Vec::new();
    if setup_routes {
        r.push(SetupStep::DiscoverDevice);
        r.push(SetupStep::Resolvers);
        r.push(SetupStep::NodeRoutes);
        r.push(SetupStep::AddRoutes);
        r.push(SetupStep::SaveRoutes);
        r.push(SetupStep::FlushDns);
    }
    assert(r@ =~= setup_path(setup_routes));
    r
}

/// A route to add. A required one that cannot be added ends the installation.
#[derive(Debug)]
pub struct RouteStep {
    pub cidr: String,
    pub gateway: String,
    pub required: bool,
}

/// A route to add, as texts.
pub struct StepModel {
    pub cidr: Seq<char>,
    pub gateway: Seq<char>,
    pub required: bool,
}

impl View for RouteStep {
    type V = StepModel;

    open spec fn view(&self) -> StepModel {
        StepModel { cidr: self.cidr@, gateway: self.gateway@, required: self.required }
    }
}

/// The models of some steps.
pub open spec fn steps(v: Seq<RouteStep>) -> Seq<StepModel> {
    Seq::new(v.len(), |i: int| v[i]@)
}

/// The steps for some routes through one gateway.
pub open spec fn steps_through(
    routes: Seq<Seq<char>>,
    gateway: Seq<char>,
    required: bool,
) -> Seq<StepModel> {
    Seq::new(routes.len(), |i: int| StepModel { cidr: routes[i], gateway, required })
}

/// The texts that are not blank.
pub open spec fn not_blank(routes: Seq<Seq<char>>) -> Seq<Seq<char>>
    decreases routes.len(),
{
    if routes.len() == 0 {
        routes
    } else if text::trim(routes.last()).len() == 0 {
        not_blank(routes.drop_last())
    } else {
        not_blank(routes.drop_last()).push(routes.last())
    }
}

/// What is to be installed: the routes through the tunnel, all of them
/// required, then the routes to the nodes, as far as they can be had. Nodes
/// need a gateway.
pub open spec fn plan_of(
    routes: Seq<Seq<char>>,
    nodes: Seq<Seq<char>>,
    gateway: Option<Seq<char>>,
) -> Seq<StepModel> {
    steps_through(not_blank(routes), tunnel_gateway(), true) + match gateway {
        Some(g) => steps_through(nodes, g, false),
        None => Seq::empty(),
    }
}

/// What is to be installed.
pub fn route_plan(routes: &Vec<String>, nodes: &Vec<String>, gateway: &Option<String>) -> (r: Vec<
    RouteStep,
>)
    ensures
        steps(r@) == plan_of(
            text::strings(routes@),
            text::strings(nodes@),
            text::text_of(*gateway),
        ),
{
    let ghost all = text::strings(routes@);
    let ghost direct = text::strings(nodes@);
    let mut r: Vec<RouteStep> = Vec::new();
    assert(all.take(0) =~= Seq::<Seq<char>>::empty());
    assert(steps(r@) =~= steps_through(not_blank(all.take(0)), tunnel_gateway(), true));
    for i in 0..routes.len()
        invariant
            all == text::strings(routes@),
            steps(r@) == steps_through(not_blank(all.take(i as int)), tunnel_gateway(), true),
    {
        let ghost before = steps(r@);
        let ghost one = all.take(i + 1);
        assert(one.drop_last() =~= all.take(i as int));
        assert(one.last() == routes@[i as int]@);
        let cs = chars_of(routes[i].as_str());
        if trimmed(cs.as_slice()).len() > 0 {
            r.push(
                RouteStep {
                    cidr: routes[i].clone(),
                    gateway: "10.0.0.1".to_owned(),
                    required: true,
                },
            );
            assert(steps(r@) =~= before.push(r@.last()@));
            assert(steps(r@) =~= steps_through(not_blank(one), tunnel_gateway(), true));
        }
    }
    assert(all.take(routes.len() as int) =~= all);
    let ghost head = steps(r@);
    match gateway {
        Some(g) => {
            assert(steps(r@) =~= head + steps_through(direct.take(0), g@, false));
            for i in 0..nodes.len()
                invariant
                    direct == text::strings(nodes@),
                    steps(r@) == head + steps_through(direct.take(i as int), g@, false),
            {
                let ghost before = steps(r@);
                r.push(
                    RouteStep { cidr: nodes[i].clone(), gateway: g.clone(), required: false },
                );
                assert(steps(r@) =~= before.push(r@.last()@));
                assert(steps(r@) =~= head + steps_through(direct.take(i + 1), g@, false));
            }
            assert(direct.take(nodes.len() as int) =~= direct);
        },
        None => {
            assert(steps(r@) =~= head + Seq::<StepModel>::empty());
        },
    }
    r
}

/// An installation under way: its plan, how far it has come, and the routes
/// that are in place.
#[derive(Debug)]
pub struct RouteInstaller {
    pub plan: Vec<RouteStep>,
    pub at: usize,
    pub installed: Vec<String>,
}

impl RouteInstaller {
    /// Every required route so far is in place, and nothing is in place that
    /// was not planned so far.
    pub open spec fn wf(self) -> bool {
        &&& self.at <= self.plan@.len()
        &&& forall|k: int|
            0 <= k < self.at && (#[trigger] self.plan@[k]).required ==> text::strings(
                self.installed@,
            ).contains(self.plan@[k].cidr@)
        &&& forall|j: int|
            0 <= j < self.installed@.len() ==> exists|k: int|
                0 <= k < self.at && (#[trigger] self.plan@[k]).cidr@ == (
                #[trigger] self.installed@[j])@
    }

    /// An installation that has yet to begin.
    pub fn new(plan: Vec<RouteStep>) -> (r: RouteInstaller)
        ensures
            r.wf(),
            r.plan == plan,
            r.at == 0,
            r.installed@.len() == 0,
    {
        RouteInstaller { plan, at: 0, installed: Vec::new() }
    }

    /// The state file of the routes that are in place: they can be read from
    /// it again.
    pub fn state(&self) -> (r: AtrResult<String>)
        ensures
            r is Ok,
            encoding::json_strings(r->Ok_0@) == Some(text::strings(self.installed@)),
    {
        match write_strings(&self.installed) {
            Ok(s) => Ok(s),
            Err(e) => Err(AtrError::from(e)),
        }
    }

    /// The next route to add, until all have been tried.
    pub fn next<'a>(&'a self) -> (r: Option<&'a RouteStep>)
        requires
            self.wf(),
        ensures
            match r {
                Some(step) => self.at < self.plan@.len() && *step == self.plan@[self.at as int],
                None => self.at == self.plan@.len(),
            },
    {
        if self.at < self.plan.len() {
            Some(&self.plan[self.at])
        } else {
            None
        }
    }

    /// Reports what came of adding the next route. Where a required route
    /// failed the installation is over: its error comes back, and the routes
    /// that are in place have to be deleted.
    pub fn report(&mut self, outcome: AtrResult<()>) -> (r: Option<AtrError>)
        requires
            old(self).wf(),
            old(self).at < old(self).plan@.len(),
        ensures
            final(self).wf(),
            final(self).plan == old(self).plan,
            ({
                let step = old(self).plan@[old(self).at as int];
                match outcome {
                    Ok(_) => {
                        &&& r is None
                        &&& final(self).at == old(self).at + 1
                        &&& text::strings(final(self).installed@) == text::strings(
                            old(self).installed@,
                        ).push(step.cidr@)
                    },
                    Err(e) => {
                        &&& final(self).installed == old(self).installed
                        &&& if step.required {
                            r == Some(e) && final(self).at == old(self).at
                        } else {
                            r is None && final(self).at == old(self).at + 1
                        }
                    },
                }
            }),
    {
        let ghost before = *self;
        assert(self.at < self.plan.len());
        let next: usize = self.at + 1;
        match outcome {
            Ok(_) => {
                let cidr = self.plan[self.at].cidr.clone();
                self.installed.push(cidr);
                self.at = next;
                proof {
                    let now = text::strings(self.installed@);
                    let was = text::strings(before.installed@);
                    assert(now =~= was.push(cidr@));
                    assert forall|k: int|
                        0 <= k < self.at && (#[trigger] self.plan@[k]).required implies now.contains(
                        self.plan@[k].cidr@,
                    ) by {
                        sorted::lemma_push_contains(was, cidr@, self.plan@[k].cidr@);
                    }
                    assert forall|j: int| 0 <= j < self.installed@.len() implies exists|k: int|
                        0 <= k < self.at && (#[trigger] self.plan@[k]).cidr@ == (
                        #[trigger] self.installed@[j])@ by {
                        if j < before.installed@.len() {
                            assert(self.installed@[j] == before.installed@[j]);
                            let k = choose|k: int|
                                0 <= k < before.at && (#[trigger] before.plan@[k]).cidr@
                                    == before.installed@[j]@;
                            assert(self.plan@[k].cidr@ == self.installed@[j]@);
                        } else {
                            assert(self.plan@[before.at as int].cidr@ == self.installed@[j]@);
                        }
                    }
                    assert(self.wf());
                }
                None
            },
            Err(e) => {
                if self.plan[self.at].required {
                    Some(e)
                } else {
                    self.at = next;
                    proof {
                        assert forall|j: int| 0 <= j < self.installed@.len() implies exists|k: int|
                            0 <= k < self.at && (#[trigger] self.plan@[k]).cidr@ == (
                            #[trigger] self.installed@[j])@ by {
                            assert(self.installed@[j] == before.installed@[j]);
                            let k = choose|k: int|
                                0 <= k < before.at && (#[trigger] before.plan@[k]).cidr@
                                    == before.installed@[j]@;
                            assert(self.plan@[k].cidr@ == self.installed@[j]@);
                        }
                    }
                    None
                }
            },
        }
    }
}

// ---------------------------------------------------------------------------
// Laws
// ---------------------------------------------------------------------------

/// A route is that of a host, by its address alone, if and only if its prefix
/// is `32`; every other one is that of the network that the whole text names.
/// A text without a slash names none.
pub proof fn a_route_is_named_by_its_prefix(
    cidr: Seq<char>,
    addr: Seq<char>,
    prefix: Seq<char>,
)
    requires
        text::trim(cidr) == addr + seq!['/'] + prefix,
        !addr.contains('/'),
    ensures
        route_args(cidr) is Some,
        route_args(cidr)->0.len() == 2,
        prefix == "32"@ ==> route_args(cidr)->0[0] == "-host"@ && route_args(cidr)->0[1] == addr,
        prefix != "32"@ ==> route_args(cidr)->0[0] == "-net"@ && route_args(cidr)->0[1] == addr
            + seq!['/'] + prefix,
        text::trim(addr) == addr ==> route_args(addr) is None,
{
    text::cutting_at_the_first_undoes_joining(addr, '/', prefix);
}

/// The block of addresses that the `route` tool takes some arguments for: the
/// one of a host, or those of a network, from the first to the last. The
/// network is written as an address, a slash and the number of leading bits.
pub open spec fn names_block(args: Seq<Seq<char>>, first: int, last: int) -> bool {
    ||| exists|bits: u32|
        args == seq!["-host"@, #[trigger] ipv4::dotted(bits)] && first == bits && last == bits
    ||| exists|bits: u32, prefix: nat|
        args == seq!["-net"@, #[trigger] slashed(ipv4::dotted(bits), number::decimal(prefix))]
            && prefix <= 32 && first == ipv4::network_of(bits as int, prefix as int) && last
            == ipv4::broadcast_of(bits as int, prefix as int)
}

/// The arguments for a written network name the block that the text names, for
/// every prefix: no address of the network is left out, and none is added.
pub proof fn a_route_covers_its_network(bits: u32, prefix: nat)
    requires
        prefix <= 32,
    ensures
        ({
            let t = ipv4::dotted(bits) + seq!['/'] + number::decimal(prefix);
            let size = vstd::arithmetic::power2::pow2((32 - prefix) as nat);
            &&& route_args(t) is Some
            &&& exists|first: int, last: int|
                #![trigger names_block(route_args(t)->0, first, last)]
                names_block(route_args(t)->0, first, last) && first <= bits <= last && last - first
                    + 1 == size
        }),
{
    let d = ipv4::dotted(bits);
    let p = number::decimal(prefix);
    let t = d + seq!['/'] + p;
    lemma_written_route(bits, prefix);
    a_route_is_named_by_its_prefix(t, d, p);
    reveal_strlit("32");
    assert("32"@ =~= number::decimal(32)) by {
        reveal_with_fuel(crate::number::numeral, 2);
    }
    let first = ipv4::network_of(bits as int, prefix as int);
    let last = ipv4::broadcast_of(bits as int, prefix as int);
    ipv4::network_is_a_block(bits as int, prefix as int);
    if p == "32"@ {
        number::a_decimal_names_its_number(prefix, 32);
        ipv4::lemma_span(32);
        assert(route_args(t)->0 =~= seq!["-host"@, ipv4::dotted(bits)]);
        assert(names_block(route_args(t)->0, first, last));
    } else {
        assert(route_args(t)->0 =~= seq!["-net"@, slashed(ipv4::dotted(bits), number::decimal(prefix))]);
        assert(names_block(route_args(t)->0, first, last));
    }
}

proof fn lemma_written_route(bits: u32, prefix: nat)
    ensures
        ({
            let t = ipv4::dotted(bits) + seq!['/'] + number::decimal(prefix);
            text::trim(t) == t
        }),
        !ipv4::dotted(bits).contains('/'),
        text::trim(ipv4::dotted(bits)) == ipv4::dotted(bits),
{
    let d = ipv4::dotted(bits);
    let p = number::decimal(prefix);
    let t = d + seq!['/'] + p;
    number::lemma_decimal(prefix);
    ipv4::a_dotted_text_is_plain(bits, 0);
    assert(!d.contains('/')) by {
        if d.contains('/') {
            let k = choose|k: int| 0 <= k < d.len() && d[k] == '/';
            ipv4::a_dotted_text_is_plain(bits, k);
        }
    }
    assert(t[0] == d[0] && t[t.len() - 1] == p[p.len() - 1]);
    assert(number::is_digit(p[p.len() - 1]));
    text::a_trimmed_text_stays(t);
    text::a_trimmed_text_stays(d);
}

/// Adding a route and deleting it name it in the same words, and the gateway
/// is what adding says last.
pub proof fn a_route_is_deleted_as_it_was_added(args: Seq<Seq<char>>, gateway: Seq<char>)
    ensures
        add_args(args, gateway).len() == args.len() + 3,
        add_args(args, gateway)[0] == "-n"@,
        add_args(args, gateway)[1] == "add"@,
        add_args(args, gateway).last() == gateway,
        add_args(args, gateway).subrange(2, args.len() as int + 2) == args,
        delete_args(args).len() == args.len() + 2,
        delete_args(args)[0] == "-n"@,
        delete_args(args)[1] == "delete"@,
        delete_args(args).skip(2) == args,
{
    assert(add_args(args, gateway).subrange(2, args.len() as int + 2) =~= args);
    assert(delete_args(args).skip(2) =~= args);
}

/// A written network is looked for with an address that lies in it: the one
/// that is written where the block has one or two, and otherwise one that is
/// neither its first nor its last. A prefix of more bits than an address has
/// is refused.
pub proof fn a_written_network_is_probed_inside(bits: u32, prefix: nat)
    ensures
        ({
            let check = probe_check(ipv4::dotted(bits) + seq!['/'] + number::decimal(prefix));
            let size = vstd::arithmetic::power2::pow2((32 - prefix) as nat);
            &&& check is Probe <==> prefix <= 32
            &&& prefix > 32 ==> check is BadPrefix
            &&& 31 <= prefix <= 32 ==> check == ProbeCheck::Probe(bits)
            &&& prefix <= 30 ==> exists|network: int|
                #![trigger ipv4::covers(network, prefix as int, bits as int)]
                ipv4::covers(network, prefix as int, bits as int) && network < check->Probe_0
                    < network + size - 1
            &&& prefix <= 30 ==> check->Probe_0 <= bits + 1 && (check->Probe_0 - 1) % (size as int)
                == 0 && bits - size < check->Probe_0 - 1
        }),
        probe_check(ipv4::dotted(bits)) is NoPrefix,
{
    let d = ipv4::dotted(bits);
    let p = number::decimal(prefix);
    let t = d + seq!['/'] + p;
    lemma_written_route(bits, prefix);
    text::cutting_at_the_first_undoes_joining(d, '/', p);
    a_dotted_text_is_a_loose_address(bits);
    if prefix <= 32 {
        number::parse_of_decimal(prefix, 32);
        a_probe_lies_in_its_route(bits as int, prefix as int);
        ipv4::network_is_a_block(bits as int, prefix as int);
        if prefix <= 30 {
            assert(ipv4::covers(
                ipv4::network_of(bits as int, prefix as int),
                prefix as int,
                bits as int,
            ));
            ipv4::a_network_has_no_bits_behind_its_prefix(bits as int, prefix as int);
        }
    } else {
        number::only_numbers_within_the_limit_are_read(prefix, 32, seq!['/'], 0);
    }
}

/// The dotted text of an address is read as the address where leading zeros
/// are permitted too.
pub proof fn a_dotted_text_is_a_loose_address(bits: u32)
    ensures
        loose_address(ipv4::dotted(bits)) == Some(bits as int),
{
    ipv4::parse_of_dotted(bits);
    let d = ipv4::dotted(bits);
    let p = text::split(d, '.');
    assert forall|i: int| 0 <= i < 4 implies number::parse_unsigned(#[trigger] p[i], 255)
        == ipv4::parse_octet(p[i]) by {
        let v = ipv4::parse_octet(p[i]);
        assert(v is Some);
        assert(number::is_digit(p[i][0]));
        assert(number::unsigned_digits(p[i]) == p[i]);
    }
    assert(number::parse_unsigned(p[0], 255) == ipv4::parse_octet(p[0]));
    assert(number::parse_unsigned(p[1], 255) == ipv4::parse_octet(p[1]));
    assert(number::parse_unsigned(p[2], 255) == ipv4::parse_octet(p[2]));
    assert(number::parse_unsigned(p[3], 255) == ipv4::parse_octet(p[3]));
}

/// An answer that names the gateway of the tunnel, or its device, anywhere says
/// that an address goes through the tunnel.
pub proof fn an_answer_may_say_so_anywhere(a: Seq<char>, b: Seq<char>)
    ensures
        through_tunnel(a + "gateway: 10.0.0.1"@ + b),
        through_tunnel(a + "interface: utun"@ + b),
{
    let g = "gateway: 10.0.0.1"@;
    let s = a + g + b;
    let n = a.len() as int;
    assert(s.subrange(n, n + g.len()) =~= g);
    let u = "interface: utun"@;
    let t = a + u + b;
    assert(t.subrange(n, n + u.len()) =~= u);
}

/// The gateway that a line names is the address behind the word, whatever
/// white space stands around it.
pub proof fn a_gateway_line_is_read(
    a: Seq<char>,
    b: Seq<char>,
    bits: u32,
    c: Seq<char>,
)
    requires
        forall|k: int| 0 <= k < a.len() ==> text::is_white(#[trigger] a[k]),
        forall|k: int| 0 <= k < b.len() ==> text::is_white(#[trigger] b[k]),
        forall|k: int| 0 <= k < c.len() ==> text::is_white(#[trigger] c[k]),
    ensures
        gateway_of(a + ("gateway:"@ + b + ipv4::dotted(bits)) + c) == Some(ipv4::dotted(bits)),
{
    let d = ipv4::dotted(bits);
    let word = "gateway:"@;
    reveal_strlit("gateway:");
    let s = word + b + d;
    ipv4::a_dotted_text_is_plain(bits, 0);
    assert(s[0] == 'g');
    assert(s[s.len() - 1] == d[d.len() - 1]);
    lemma_white_holds(a);
    lemma_white_holds(b);
    lemma_white_holds(c);
    text::trimming_undoes_padding(a, s, c, CharClass::White);
    assert(s.take(word.len() as int) =~= word);
    assert(s.skip(word.len() as int) =~= b + d);
    let none = Seq::<char>::empty();
    text::trimming_undoes_padding(b, d, none, CharClass::White);
    assert(b + d + none =~= b + d);
    ipv4::parse_of_dotted(bits);
}

proof fn lemma_white_holds(a: Seq<char>)
    requires
        forall|k: int| 0 <= k < a.len() ==> text::is_white(#[trigger] a[k]),
    ensures
        forall|k: int| 0 <= k < a.len() ==> CharClass::White.holds(#[trigger] a[k]),
{
    assert forall|k: int| 0 <= k < a.len() implies CharClass::White.holds(#[trigger] a[k]) by {
        assert(text::is_white(a[k]));
    }
}

/// The first line that names a gateway decides, and where none does there is
/// none.
pub proof fn the_first_gateway_line_decides(lines: Seq<Seq<char>>, i: int)
    requires
        0 <= i <= lines.len(),
        forall|k: int| 0 <= k < i ==> gateway_of(#[trigger] lines[k]) is None,
        i < lines.len() ==> gateway_of(lines[i]) is Some,
    ensures
        i < lines.len() ==> first_gateway(lines) == gateway_of(lines[i]),
        i == lines.len() ==> first_gateway(lines) is None,
    decreases lines.len(),
{
    if i > 0 {
        let rest = lines.drop_first();
        assert(gateway_of(lines[0]) is None);
        assert forall|k: int| 0 <= k < i - 1 implies gateway_of(#[trigger] rest[k]) is None by {
            assert(rest[k] == lines[k + 1]);
        }
        the_first_gateway_line_decides(rest, i - 1);
    }
}

/// The first line of the routing table that names a tunnel device decides, and
/// where none does there is none.
pub proof fn the_first_table_line_decides(lines: Seq<Seq<char>>, i: int)
    requires
        0 <= i <= lines.len(),
        forall|k: int| 0 <= k < i ==> table_device(#[trigger] lines[k]) is None,
        i < lines.len() ==> table_device(lines[i]) is Some,
    ensures
        i < lines.len() ==> first_table_device(lines) == table_device(lines[i]),
        i == lines.len() ==> first_table_device(lines) is None,
    decreases lines.len(),
{
    if i > 0 {
        let rest = lines.drop_first();
        assert(table_device(lines[0]) is None);
        assert forall|k: int| 0 <= k < i - 1 implies table_device(#[trigger] rest[k]) is None by {
            assert(rest[k] == lines[k + 1]);
        }
        the_first_table_line_decides(rest, i - 1);
    }
}

/// A line of the routing table for the gateway of the tunnel names the device
/// in its last column: four words, the first of them the gateway and the last
/// one beginning like a tunnel device.
pub proof fn a_table_line_names_its_device(flags: Seq<char>, count: Seq<char>, unit: Seq<char>)
    requires
        flags.len() > 0,
        count.len() > 0,
        forall|k: int| 0 <= k < flags.len() ==> !text::is_white(#[trigger] flags[k]),
        forall|k: int| 0 <= k < count.len() ==> !text::is_white(#[trigger] count[k]),
        forall|k: int| 0 <= k < unit.len() ==> !text::is_white(#[trigger] unit[k]),
    ensures
        table_device(
            "10.0.0.1"@ + seq![' '] + flags + seq![' '] + count + seq![' '] + ("utun"@ + unit),
        ) == Some("utun"@ + unit),
{
    reveal_strlit("10.0.0.1");
    reveal_strlit("utun");
    let g = "10.0.0.1"@;
    let u = "utun"@ + unit;
    let none = Seq::<char>::empty();
    let sp = seq![' '];
    assert forall|k: int| 0 <= k < u.len() implies !text::is_white(#[trigger] u[k]) by {
        if k >= 4 {
            assert(u[k] == unit[k - 4]);
        }
    }
    let r3 = none;
    let r2 = sp + u + r3;
    let r1 = sp + count + r2;
    let r0 = sp + flags + r1;
    let line = g + sp + flags + sp + count + sp + u;
    assert(none + g + r0 =~= line);
    assert(text::is_white(' '));
    text::a_word_is_cut_off(none, g, r0);
    text::a_word_is_cut_off(sp, flags, r1);
    text::a_word_is_cut_off(sp, count, r2);
    text::a_word_is_cut_off(sp, u, r3);
    let w = text::words(line);
    assert(w =~= seq![g, flags, count, u]);
    assert(u.take(4) =~= "utun"@);
}

/// The host of a node is what stands before its port, with or without brackets
/// around it.
pub proof fn the_host_before_the_port_is_found(host: Seq<char>, port: Seq<char>)
    requires
        host.len() > 0,
        !text::is_white(host[0]) && !text::is_white(host.last()),
        host[0] != '[' && host[0] != ']' && host.last() != '[' && host.last() != ']',
        port.len() > 0,
        !port.contains(':'),
        !text::is_white(port.last()),
    ensures
        host_of(host + seq![':'] + port) == Some(host),
        host_of(seq!['['] + host + seq![']', ':'] + port) == Some(host),
{
    let none = Seq::<char>::empty();
    let s = host + seq![':'] + port;
    assert(s[0] == host[0] && s[s.len() - 1] == port[port.len() - 1]);
    text::a_trimmed_text_stays(s);
    text::cutting_at_the_last_undoes_joining(host, ':', port);
    text::a_trimmed_text_stays(host);
    text::trimming_undoes_padding(none, host, none, CharClass::Bracket);
    assert(none + host + none =~= host);
    let bare = seq!['['] + host + seq![']'];
    let t = seq!['['] + host + seq![']', ':'] + port;
    assert(t =~= bare + seq![':'] + port);
    assert(t[0] == '[' && t[t.len() - 1] == port[port.len() - 1]);
    text::a_trimmed_text_stays(t);
    text::cutting_at_the_last_undoes_joining(bare, ':', port);
    assert(bare[0] == '[' && bare[bare.len() - 1] == ']');
    text::a_trimmed_text_stays(bare);
    text::trimming_undoes_padding(seq!['['], host, seq![']'], CharClass::Bracket);
}

/// Every managed network goes through the tunnel, and so does the name server
/// as a host, unless there is none; nothing else does.
pub proof fn every_managed_network_is_routed(
    routes: Seq<Seq<char>>,
    cidrs: Seq<Seq<char>>,
    dns_addr: Seq<char>,
    i: int,
)
    requires
        sorted::sorted_set_of(routes, wanted_routes(cidrs, dns_addr)),
    ensures
        0 <= i < cidrs.len() ==> routes.contains(cidrs[i]),
        text::trim(dns_addr).len() > 0 ==> routes.contains(text::trim(dns_addr) + seq!['/', '3', '2']),
        forall|x: Seq<char>| #[trigger]
            routes.contains(x) ==> cidrs.contains(x) || (text::trim(dns_addr).len() > 0 && x
                == text::trim(dns_addr) + seq!['/', '3', '2']),
{
    reveal_strlit("/32");
    assert("/32"@ =~= seq!['/', '3', '2']);
    let w = wanted_routes(cidrs, dns_addr);
    if 0 <= i < cidrs.len() {
        assert(w[i] == cidrs[i]);
        assert(w.contains(cidrs[i]));
    }
    if text::trim(dns_addr).len() > 0 {
        assert(w[cidrs.len() as int] == text::trim(dns_addr) + "/32"@);
        assert(w.contains(text::trim(dns_addr) + "/32"@));
    }
    assert forall|x: Seq<char>| #[trigger] routes.contains(x) implies cidrs.contains(x) || (
    text::trim(dns_addr).len() > 0 && x == text::trim(dns_addr) + seq!['/', '3', '2']) by {
        assert(w.contains(x));
        let k = choose|k: int| 0 <= k < w.len() && w[k] == x;
        if k < cidrs.len() {
            assert(cidrs[k] == x);
        }
    }
}

/// Every address of a node gets a host route, and nothing else does.
pub proof fn every_node_gets_a_host_route(routes: Seq<Seq<char>>, ips: Seq<Ipv4Addr>, i: int)
    requires
        sorted::sorted_set_of(routes, host_routes(ips)),
        0 <= i < ips.len(),
    ensures
        routes.contains(ipv4::dotted(ips[i].bits) + seq!['/', '3', '2']),
        forall|x: Seq<char>| #[trigger]
            routes.contains(x) ==> exists|k: int|
                0 <= k < ips.len() && x == ipv4::dotted((#[trigger] ips[k]).bits) + seq![
                    '/',
                    '3',
                    '2',
                ],
{
    reveal_strlit("/32");
    assert("/32"@ =~= seq!['/', '3', '2']);
    let all = host_routes(ips);
    assert(all[i] == ipv4::dotted(ips[i].bits) + "/32"@);
    assert(all.contains(all[i]));
    assert forall|x: Seq<char>| #[trigger] routes.contains(x) implies exists|k: int|
        0 <= k < ips.len() && x == ipv4::dotted((#[trigger] ips[k]).bits) + seq!['/', '3', '2'] by {
        assert(all.contains(x));
        let k = choose|k: int| 0 <= k < all.len() && all[k] == x;
        assert(x == ipv4::dotted(ips[k].bits) + seq!['/', '3', '2']);
    }
}

proof fn lemma_not_blank(routes: Seq<Seq<char>>, x: Seq<char>)
    ensures
        not_blank(routes).contains(x) <==> routes.contains(x) && text::trim(x).len() > 0,
    decreases routes.len(),
{
    if routes.len() > 0 {
        let fewer = routes.drop_last();
        let head = not_blank(fewer);
        let all = not_blank(routes);
        lemma_not_blank(fewer, x);
        if all.contains(x) {
            let k = choose|k: int| 0 <= k < all.len() && all[k] == x;
            if k < head.len() {
                assert(head[k] == x);
                let m = choose|m: int| 0 <= m < fewer.len() && fewer[m] == x;
                assert(routes[m] == x);
            } else {
                assert(routes[routes.len() - 1] == x);
            }
        }
        if routes.contains(x) && text::trim(x).len() > 0 {
            let k = choose|k: int| 0 <= k < routes.len() && routes[k] == x;
            if k < fewer.len() {
                assert(fewer[k] == x);
                let m = choose|m: int| 0 <= m < head.len() && head[m] == x;
                assert(all[m] == x);
            } else {
                assert(all[head.len() as int] == x);
            }
        }
    }
}

/// Every managed network that is not blank is added through the gateway of the
/// tunnel and has to be; every node is added through the gateway of this
/// network, as far as that is known, and need not be; nothing else is added.
pub proof fn every_route_is_planned(
    routes: Seq<Seq<char>>,
    nodes: Seq<Seq<char>>,
    gateway: Option<Seq<char>>,
    i: int,
)
    ensures
        0 <= i < routes.len() && text::trim(routes[i]).len() > 0 ==> plan_of(
            routes,
            nodes,
            gateway,
        ).contains(StepModel { cidr: routes[i], gateway: "10.0.0.1"@, required: true }),
        0 <= i < nodes.len() && gateway is Some ==> plan_of(routes, nodes, gateway).contains(
            StepModel { cidr: nodes[i], gateway: gateway->0, required: false },
        ),
        forall|x: StepModel| #[trigger]
            plan_of(routes, nodes, gateway).contains(x) ==> {
                ||| x.required && x.gateway == "10.0.0.1"@ && routes.contains(x.cidr)
                ||| !x.required && gateway == Some(x.gateway) && nodes.contains(x.cidr)
            },
{
    let kept = not_blank(routes);
    let head = steps_through(kept, tunnel_gateway(), true);
    let plan = plan_of(routes, nodes, gateway);
    if 0 <= i < routes.len() && text::trim(routes[i]).len() > 0 {
        assert(routes.contains(routes[i]));
        lemma_not_blank(routes, routes[i]);
        let k = choose|k: int| 0 <= k < kept.len() && kept[k] == routes[i];
        assert(plan[k] == (StepModel { cidr: routes[i], gateway: "10.0.0.1"@, required: true }));
    }
    if 0 <= i < nodes.len() && gateway is Some {
        assert(plan[head.len() + i] == (StepModel {
            cidr: nodes[i],
            gateway: gateway->0,
            required: false,
        }));
    }
    assert forall|x: StepModel| #[trigger] plan.contains(x) implies {
        ||| x.required && x.gateway == "10.0.0.1"@ && routes.contains(x.cidr)
        ||| !x.required && gateway == Some(x.gateway) && nodes.contains(x.cidr)
    } by {
        let k = choose|k: int| 0 <= k < plan.len() && plan[k] == x;
        if k < head.len() {
            assert(kept.contains(kept[k]));
            lemma_not_blank(routes, kept[k]);
        } else {
            assert(nodes[k - head.len()] == x.cidr);
        }
    }
}

proof fn lemma_octet_bound(s: Seq<char>)
    ensures
        number::parse_unsigned(s, 255) is Some ==> 0 <= number::parse_unsigned(s, 255)->0 <= 255,
{
    if number::parse_unsigned(s, 255) is Some {
        number::lemma_digits_value_prefix(number::unsigned_digits(s), 0);
    }
}

/// A route may be written with any four numbers below 256 that full stops
/// separate, also with zeros in front of them; with more or fewer parts, or a
/// part that is no such number, it has no address.
pub proof fn an_address_of_a_route_has_four_numbers(parts: Seq<Seq<char>>)
    requires
        parts.len() > 0,
        forall|i: int| 0 <= i < parts.len() ==> !(#[trigger] parts[i]).contains('.'),
    ensures
        ({
            let a = loose_address(text::joined_by(parts, '.'));
            &&& a is Some <==> parts.len() == 4 && forall|i: int|
                0 <= i < 4 ==> number::parse_unsigned(#[trigger] parts[i], 255) is Some
            &&& a is Some ==> {
                &&& Some(a->0 / 0x100_0000) == number::parse_unsigned(parts[0], 255)
                &&& Some(a->0 / 0x1_0000 % 0x100) == number::parse_unsigned(parts[1], 255)
                &&& Some(a->0 / 0x100 % 0x100) == number::parse_unsigned(parts[2], 255)
                &&& Some(a->0 % 0x100) == number::parse_unsigned(parts[3], 255)
            }
        }),
{
    text::splitting_undoes_joining(parts, '.');
    let t = text::joined_by(parts, '.');
    assert(text::split(t, '.') == parts);
    if loose_address(t) is Some {
        lemma_octet_bound(parts[0]);
        lemma_octet_bound(parts[1]);
        lemma_octet_bound(parts[2]);
        lemma_octet_bound(parts[3]);
        lemma_quad(
            number::parse_unsigned(parts[0], 255)->0,
            number::parse_unsigned(parts[1], 255)->0,
            number::parse_unsigned(parts[2], 255)->0,
            number::parse_unsigned(parts[3], 255)->0,
        );
        assert forall|i: int| 0 <= i < 4 implies number::parse_unsigned(
            #[trigger] parts[i],
            255,
        ) is Some by {
            assert(i == 0 || i == 1 || i == 2 || i == 3);
        }
    }
}

proof fn lemma_quad(a: int, b: int, c: int, d: int)
    requires
        0 <= a <= 255,
        0 <= b <= 255,
        0 <= c <= 255,
        0 <= d <= 255,
    ensures
        ({
            let n = a * 0x100_0000 + b * 0x1_0000 + c * 0x100 + d;
            n / 0x100_0000 == a && n / 0x1_0000 % 0x100 == b && n / 0x100 % 0x100 == c && n % 0x100
                == d
        }),
{
    let n = a * 0x100_0000 + b * 0x1_0000 + c * 0x100 + d;
    assert(n / 0x1_0000 == a * 0x100 + b);
    assert(n / 0x100 == a * 0x1_0000 + b * 0x100 + c);
}

/// An answer says that an address goes through the tunnel only where it names
/// the gateway of the tunnel or a tunnel device.
pub proof fn no_other_answer_says_so(answer: Seq<char>)
    requires
        through_tunnel(answer),
    ensures
        exists|i: int|
            0 <= i <= answer.len() && (text::starts_with(
                #[trigger] answer.skip(i),
                "gateway: 10.0.0.1"@,
            ) || text::starts_with(answer.skip(i), "interface: utun"@)),
{
    let g = "gateway: 10.0.0.1"@;
    let u = "interface: utun"@;
    if text::contains_text(answer, g) {
        let i = choose|i: int|
            0 <= i <= answer.len() - g.len() && #[trigger] answer.subrange(i, i + g.len()) == g;
        assert(answer.skip(i).take(g.len() as int) =~= g);
    } else {
        let i = choose|i: int|
            0 <= i <= answer.len() - u.len() && #[trigger] answer.subrange(i, i + u.len()) == u;
        assert(answer.skip(i).take(u.len() as int) =~= u);
    }
}

/// A line names a gateway only where it begins with the word for it, and then
/// the gateway is the dotted text of an address at the end of the line.
pub proof fn a_gateway_is_an_address(line: Seq<char>)
    ensures
        gateway_of(line) is Some ==> text::starts_with(text::trim(line), "gateway:"@) && exists|
            bits: u32,
        | gateway_of(line)->0 == #[trigger] ipv4::dotted(bits),
        !text::starts_with(text::trim(line), "gateway:"@) ==> gateway_of(line) is None,
{
    if gateway_of(line) is Some {
        let g = gateway_of(line)->0;
        ipv4::only_the_dotted_text_denotes_an_address(g);
        assert(g == ipv4::dotted(ipv4::parse_ipv4(g)->0 as u32));
    }
}

/// A line of the routing table names a device if and only if it has four words
/// or more, the first of them the gateway of the tunnel and the last one
/// beginning like a tunnel device; the last one is the device.
pub proof fn only_lines_of_the_gateway_count(line: Seq<char>)
    ensures
        table_device(line) is Some <==> text::words(line).len() >= 4 && text::words(line)[0]
            == "10.0.0.1"@ && text::starts_with(text::words(line).last(), "utun"@),
        table_device(line) is Some ==> table_device(line)->0 == text::words(line).last(),
{
}

/// A device is listed by its name, a colon and whatever stands behind it, with
/// a line below that shows an IPv4 address somewhere. A device of another
/// kind, one without such a line and one without a colon do not count.
pub proof fn a_listed_device_is_read(
    unit: Seq<char>,
    rest: Seq<char>,
    a: Seq<char>,
    b: Seq<char>,
    header: Seq<char>,
    body: Seq<char>,
)
    requires
        !unit.contains(':'),
    ensures
        listed_device("utun"@ + unit + seq![':'] + rest, a + "inet "@ + b) == Some(
            "utun"@ + unit,
        ),
        listed_device(header, body) is Some ==> text::starts_with(header, "utun"@)
            && text::contains_text(body, "inet "@) && header.contains(':') && !listed_device(
            header,
            body,
        )->0.contains(':'),
{
    reveal_strlit("utun");
    let u = "utun"@;
    let name = u + unit;
    let h = name + seq![':'] + rest;
    assert(h =~= u + (unit + seq![':'] + rest));
    text::a_text_begins_with_its_front(u, unit + seq![':'] + rest, h);
    text::a_text_holds_its_parts(a, "inet "@, b, a);
    assert(!name.contains(':')) by {
        if name.contains(':') {
            let k = choose|k: int| 0 <= k < name.len() && name[k] == ':';
            if k >= 4 {
                assert(unit[k - 4] == ':');
            }
        }
    }
    text::cutting_at_the_first_undoes_joining(name, ':', rest);
    assert(u + unit + seq![':'] + rest =~= h);
    if listed_device(header, body) is Some {
        text::lemma_first_index(header, ':');
        let n = listed_device(header, body)->0;
        if n.contains(':') {
            let k = choose|k: int| 0 <= k < n.len() && n[k] == ':';
            assert(header[k] == ':');
        }
    }
}

/// The first pair of lines that lists a tunnel device with an address decides,
/// and where none does there is none.
pub proof fn the_first_listed_device_decides(lines: Seq<Seq<char>>, i: int)
    requires
        0 <= i < lines.len(),
        forall|k: int|
            0 <= k < i ==> listed_device(#[trigger] lines[k], lines[k + 1]) is None,
        i + 1 < lines.len() ==> listed_device(lines[i], lines[i + 1]) is Some,
    ensures
        i + 1 < lines.len() ==> first_listed_device(lines) == listed_device(
            lines[i],
            lines[i + 1],
        ),
        i + 1 == lines.len() ==> first_listed_device(lines) is None,
    decreases lines.len(),
{
    if i > 0 {
        let rest = lines.drop_first();
        assert(listed_device(lines[0], lines[1]) is None);
        assert forall|k: int| 0 <= k < i - 1 implies listed_device(
            #[trigger] rest[k],
            rest[k + 1],
        ) is None by {
            assert(rest[k] == lines[k + 1] && rest[k + 1] == lines[k + 1 + 1]);
        }
        assert(rest[i - 1] == lines[i]);
        if i + 1 < lines.len() {
            assert(rest[i - 1 + 1] == lines[i + 1]);
        }
        the_first_listed_device_decides(rest, i - 1);
    }
}

/// A text without a colon names no host, and neither does one with nothing
/// before its port.
pub proof fn a_node_without_a_port_has_no_host(t: Seq<char>, port: Seq<char>)
    requires
        !text::trim(t).contains(':'),
        port.len() > 0,
        !port.contains(':'),
        !text::is_white(port.last()),
    ensures
        host_of(t) is None,
        host_of(seq![':'] + port) is None,
        host_of(seq!['[', ']', ':'] + port) is None,
{
    let none = Seq::<char>::empty();
    text::cutting_at_the_last_undoes_joining(none, ':', text::trim(t));
    let s = none + seq![':'] + port;
    assert(s =~= seq![':'] + port);
    assert(s[0] == ':' && s[s.len() - 1] == port[port.len() - 1]);
    text::a_trimmed_text_stays(s);
    text::cutting_at_the_last_undoes_joining(none, ':', port);
    text::a_trimmed_text_stays(none);
    text::trimming_undoes_padding(none, none, none, CharClass::Bracket);
    assert(none + none + none =~= none);
    let bare = seq!['[', ']'];
    let u = bare + seq![':'] + port;
    assert(u =~= seq!['[', ']', ':'] + port);
    assert(u[0] == '[' && u[u.len() - 1] == port[port.len() - 1]);
    text::a_trimmed_text_stays(u);
    text::cutting_at_the_last_undoes_joining(bare, ':', port);
    assert(bare[0] == '[' && bare[bare.len() - 1] == ']');
    text::a_trimmed_text_stays(bare);
    text::trimming_undoes_padding(seq!['['], none, seq![']'], CharClass::Bracket);
    assert(seq!['['] + none + seq![']'] =~= bare);
}

/// Cleaning up deletes the three routes that an earlier run may have left, and
/// then the routes that are listed, in order; where each of those is good,
/// every one has its command, and there is no other.
pub proof fn the_listed_routes_are_deleted_in_order(cidrs: Seq<Seq<char>>, i: int)
    requires
        forall|k: int| 0 <= k < cidrs.len() ==> route_args(#[trigger] cidrs[k]) is Some,
    ensures
        deletions(cidrs).len() == cidrs.len(),
        0 <= i < cidrs.len() ==> deletions(cidrs)[i] == seq!["-n"@, "delete"@] + route_args(
            cidrs[i],
        )->0,
        stale_deletions() == seq![
            seq!["-n"@, "delete"@, "-net"@, "198.18.0.0/15"@],
            seq!["-n"@, "delete"@, "-net"@, "198.18.0.0/16"@],
            seq!["-n"@, "delete"@, "-host"@, "198.18.0.1"@],
        ],
        listed(None).len() == 0,
    decreases cidrs.len(),
{
    if cidrs.len() > 0 {
        let fewer = cidrs.drop_last();
        assert forall|k: int| 0 <= k < fewer.len() implies route_args(
            #[trigger] fewer[k],
        ) is Some by {
            assert(fewer[k] == cidrs[k]);
        }
        assert(route_args(cidrs[cidrs.len() - 1]) is Some);
        the_listed_routes_are_deleted_in_order(fewer, i);
    }
}

/// A text that names no route is passed over, and deletes nothing.
pub proof fn a_text_that_names_no_route_deletes_nothing(cidrs: Seq<Seq<char>>, x: Seq<char>)
    requires
        route_args(x) is None,
    ensures
        deletions(cidrs.push(x)) == deletions(cidrs),
{
    assert(cidrs.push(x).drop_last() =~= cidrs);
}

/// Where no route is blank, the plan holds every route in order and then, if
/// the gateway is known, every node in order, and nothing else.
pub proof fn routes_are_planned_in_order(
    routes: Seq<Seq<char>>,
    nodes: Seq<Seq<char>>,
    gateway: Option<Seq<char>>,
    i: int,
)
    requires
        forall|k: int| 0 <= k < routes.len() ==> text::trim(#[trigger] routes[k]).len() > 0,
    ensures
        ({
            let plan = plan_of(routes, nodes, gateway);
            &&& plan.len() == routes.len() + (if gateway is Some {
                nodes.len() as int
            } else {
                0
            })
            &&& 0 <= i < routes.len() ==> plan[i].cidr == routes[i] && plan[i].required
            &&& 0 <= i < nodes.len() && gateway is Some ==> plan[routes.len() + i].cidr == nodes[i]
                && !plan[routes.len() + i].required
        }),
{
    lemma_none_blank(routes);
}

proof fn lemma_none_blank(routes: Seq<Seq<char>>)
    requires
        forall|k: int| 0 <= k < routes.len() ==> text::trim(#[trigger] routes[k]).len() > 0,
    ensures
        not_blank(routes) == routes,
    decreases routes.len(),
{
    if routes.len() > 0 {
        let fewer = routes.drop_last();
        assert forall|k: int| 0 <= k < fewer.len() implies text::trim(
            #[trigger] fewer[k],
        ).len() > 0 by {
            assert(fewer[k] == routes[k]);
        }
        assert(text::trim(routes[routes.len() - 1]).len() > 0);
        lemma_none_blank(fewer);
        assert(not_blank(routes) =~= routes);
    }
}

} // verus!
