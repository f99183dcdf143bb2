//! Windows network configuration: routes, addresses, and the name resolution
//! policy that sends managed domains to the name server of the service.
use crate::ipv4;
use crate::ipv4::{parse_address, Ipv4Addr};
use crate::number;
use crate::number::{decimal_string, numeral_chars};
use crate::sorted;
use crate::sorted::sort_dedup;
use crate::text;
use crate::text::{
    chars_of, has_char, string_of, to_lower, trimmed, trimmed_class, white, without_prefix,
    CharClass,
};
use crate::windows;
use crate::windows::wide;
use vstd::prelude::*;
use vstd::string::*;

verus! {

/// The metric of the tunnel. It is low enough for managed routes to win over
/// equally specific ones.
pub const TUNNEL_INTERFACE_METRIC: u32 = 5;

/// The answer of a call that succeeded.
pub const NO_ERROR: u32 = 0;

/// The error of adding what is there.
pub const ERROR_OBJECT_ALREADY_EXISTS: u32 = 5010;

/// The error of deleting what is not there.
pub const ERROR_NOT_FOUND: u32 = 1168;

// ---------------------------------------------------------------------------
// Routes
// ---------------------------------------------------------------------------

/// A route of an interface.
#[derive(Debug, Clone, Copy, PartialEq, Eq, Structural)]
pub struct RouteSpec {
    pub interface_luid: u64,
    pub destination: Ipv4Addr,
    pub prefix: u8,
    pub next_hop: Ipv4Addr,
}

/// A route as messages show it.
pub open spec fn route_text(route: RouteSpec) -> Seq<char> {
    ipv4::dotted(route.destination.bits) + "/"@ + number::decimal(route.prefix as nat) + " via "@
        + ipv4::dotted(route.next_hop.bits) + " (luid 0x"@ + number::numeral(
        route.interface_luid as nat,
        16,
    ) + ")"@
}

impl RouteSpec {
    /// The route as messages show it.
    pub fn to_text(&self) -> (r: String)
        ensures
            r@ == route_text(*self),
    {
        let mut s = self.destination.to_text();
        s.append("/");
        s.append(decimal_string(self.prefix as u64).as_str());
        s.append(" via ");
        s.append(self.next_hop.to_text().as_str());
        s.append(" (luid 0x");
        s.append(string_of(numeral_chars(self.interface_luid, 16, 0).as_slice()).as_str());
        s.append(")");
        s
    }
}

/// A message about a call that failed.
pub fn win32_error(context: &str, cause: &str) -> (r: String)
    ensures
        r@ == context@ + ": "@ + cause@,
{
    let mut s = context.to_owned();
    s.append(": ");
    s.append(cause);
    s
}

/// What is made of adding a route: whether it is ours to delete later. A route
/// that was there is not.
pub fn add_route(route: &RouteSpec, code: u32, cause: &str) -> (r: Result<bool, String>)
    ensures
        if code == 0 {
            r == Ok::<bool, String>(true)
        } else if code == 5010 {
            r == Ok::<bool, String>(false)
        } else {
            r is Err && r->Err_0@ == "failed to add route "@ + route_text(*route) + ": "@ + cause@
        },
{
    if code == NO_ERROR {
        Ok(true)
    } else if code == ERROR_OBJECT_ALREADY_EXISTS {
        Ok(false)
    } else {
        let mut context = "failed to add route ".to_owned();
        context.append(route.to_text().as_str());
        Err(win32_error(context.as_str(), cause))
    }
}

/// What the log says of deleting a route. That it is gone is as good as
/// deleting it.
pub fn delete_route(route: &RouteSpec, code: u32, cause: &str) -> (r: Option<String>)
    ensures
        if code == 0 || code == 1168 {
            r is None
        } else {
            r is Some && r->0@ == "failed to delete route "@ + route_text(*route) + ": "@ + cause@
        },
{
    if code == NO_ERROR || code == ERROR_NOT_FOUND {
        None
    } else {
        let mut context = "failed to delete route ".to_owned();
        context.append(route.to_text().as_str());
        Some(win32_error(context.as_str(), cause))
    }
}

/// An address out there, for asking which way the default gateway is.
pub fn gateway_probe() -> (r: Ipv4Addr)
    ensures
        r.bits == ipv4::bits_of(8, 8, 8, 8),
{
    Ipv4Addr::new(8, 8, 8, 8)
}

/// The default gateway, from the route to an address out there. A neighbour
/// has none.
pub fn default_gateway(best: Option<(u64, Ipv4Addr)>) -> (r: Option<Ipv4Addr>)
    ensures
        r == match best {
            Some((_, next_hop)) => if next_hop.bits == 0 {
                None
            } else {
                Some(next_hop)
            },
            None => None,
        },
{
    match best {
        Some((_, next_hop)) => if next_hop.is_unspecified() {
            None
        } else {
            Some(next_hop)
        },
        None => None,
    }
}

// ---------------------------------------------------------------------------
// Addresses
// ---------------------------------------------------------------------------

/// An address of an interface, as the system lists it, with the length of the
/// network that it is on. Not all are IPv4.
#[derive(Debug, Clone, Copy, PartialEq, Eq, Structural)]
pub struct InterfaceAddress {
    pub luid: u64,
    pub address: Option<Ipv4Addr>,
    pub prefix: u8,
}

/// The address of the tunnel, on a network of its own.
pub open spec fn tunnel_address(interface: u64, local_ip: Ipv4Addr) -> InterfaceAddress {
    InterfaceAddress { luid: interface, address: Some(local_ip), prefix: 32 }
}

/// Whether an address was left behind: it is of the interface, and not the one
/// that the tunnel gets.
pub open spec fn is_stale(row: InterfaceAddress, interface: u64, local_ip: Ipv4Addr) -> bool {
    row.luid == interface && row != tunnel_address(interface, local_ip)
}

/// Whether an address is to be deleted before the tunnel gets its own.
pub fn stale_address(row: InterfaceAddress, interface: u64, local_ip: Ipv4Addr) -> (r: bool)
    ensures
        r == is_stale(row, interface, local_ip),
        r <==> row.luid == interface && !(row.address == Some(local_ip) && row.prefix == 32),
{
    let keep = InterfaceAddress { luid: interface, address: Some(local_ip), prefix: 32 };
    row.luid == interface && row != keep
}

/// What the tunnel interface is given: its address, on a network of its own,
/// and the settings of the interface.
#[derive(Debug, Clone, Copy, PartialEq, Eq, Structural)]
pub struct TunnelSettings {
    pub address: Ipv4Addr,
    pub prefix: u8,
    pub automatic_metric: bool,
    pub metric: u32,
    pub mtu: u32,
    /// IPv4 rows with a site prefix are rejected.
    pub site_prefix: u8,
}

/// The settings of the tunnel interface.
pub open spec fn settings_of(local_ip: Ipv4Addr, mtu: u16) -> TunnelSettings {
    TunnelSettings {
        address: local_ip,
        prefix: 32,
        automatic_metric: false,
        metric: 5,
        mtu: mtu as u32,
        site_prefix: 0,
    }
}

/// The settings of the tunnel interface.
pub fn tunnel_settings(local_ip: Ipv4Addr, mtu: u16) -> (r: TunnelSettings)
    ensures
        r == settings_of(local_ip, mtu),
        r.address == local_ip && r.prefix == 32,
        !r.automatic_metric && r.metric == 5,
        r.mtu == mtu && r.site_prefix == 0,
{
    TunnelSettings {
        address: local_ip,
        prefix: 32,
        automatic_metric: false,
        metric: TUNNEL_INTERFACE_METRIC,
        mtu: mtu as u32,
        site_prefix: 0,
    }
}

/// A step of configuring the tunnel interface.
#[derive(Debug, Clone, Copy, PartialEq, Eq, Structural)]
pub enum InterfaceStep {
    /// List the addresses of all interfaces.
    ListAddresses,
    /// Delete the address at a place in the list.
    RemoveAddress(usize),
    AssignAddress(TunnelSettings),
    ReadInterface,
    WriteInterface(TunnelSettings),
}

/// The places of the stale addresses in a list, in order.
pub open spec fn stale_places(
    rows: Seq<InterfaceAddress>,
    interface: u64,
    local_ip: Ipv4Addr,
) -> Seq<InterfaceStep>
    decreases rows.len(),
{
    if rows.len() == 0 {
        Seq::empty()
    } else {
        let fewer = stale_places(rows.drop_last(), interface, local_ip);
        if is_stale(rows.last(), interface, local_ip) {
            fewer.push(InterfaceStep::RemoveAddress((rows.len() - 1) as usize))
        } else {
            fewer
        }
    }
}

/// The steps after listing the addresses: every stale one goes, the tunnel
/// gets its own, and the interface its settings.
pub open spec fn interface_path(
    rows: Seq<InterfaceAddress>,
    interface: u64,
    local_ip: Ipv4Addr,
    mtu: u16,
) -> Seq<InterfaceStep> {
    let settings = settings_of(local_ip, mtu);
    stale_places(rows, interface, local_ip) + seq![
        InterfaceStep::AssignAddress(settings),
        InterfaceStep::ReadInterface,
        InterfaceStep::WriteInterface(settings),
    ]
}

/// The steps of configuring the tunnel interface, from the addresses that the
/// system lists, to be taken in order until one fails.
pub fn interface_steps(
    rows: &Vec<InterfaceAddress>,
    interface: u64,
    local_ip: Ipv4Addr,
    mtu: u16,
) -> (r: Vec<InterfaceStep>)
    ensures
        r@ == interface_path(rows@, interface, local_ip, mtu),
{
    let settings = tunnel_settings(local_ip, mtu);
    let mut r: Vec<InterfaceStep> = Vec::new();
    assert(rows@.take(0) =~= Seq::<InterfaceAddress>::empty());
    for i in 0..rows.len()
        invariant
            r@ == stale_places(rows@.take(i as int), interface, local_ip),
    {
        let ghost one = rows@.take(i + 1);
        assert(one.drop_last() =~= rows@.take(i as int));
        assert(one.last() == rows@[i as int]);
        if stale_address(rows[i], interface, local_ip) {
            r.push(InterfaceStep::RemoveAddress(i));
        }
    }
    assert(rows@.take(rows.len() as int) =~= rows@);
    r.push(InterfaceStep::AssignAddress(settings));
    r.push(InterfaceStep::ReadInterface);
    r.push(InterfaceStep::WriteInterface(settings));
    assert(r@ =~= interface_path(rows@, interface, local_ip, mtu));
    r
}

/// The words that introduce why a step failed.
pub open spec fn interface_step_text(step: InterfaceStep) -> Seq<char> {
    match step {
        InterfaceStep::ListAddresses => "failed to list interface addresses"@,
        InterfaceStep::RemoveAddress(_) => "failed to remove a stale tunnel address"@,
        InterfaceStep::AssignAddress(_) => "failed to assign tunnel address"@,
        InterfaceStep::ReadInterface => "failed to read tunnel interface"@,
        InterfaceStep::WriteInterface(_) => "failed to configure tunnel interface"@,
    }
}

/// Whether a step went well. An address that is there is as good as assigning
/// it: what is left of the interface then is no other than the one assigned.
/// One that is gone is as good as removing it.
pub open spec fn interface_step_done(step: InterfaceStep, code: u32) -> bool {
    code == 0 || match step {
        InterfaceStep::AssignAddress(_) => code == 5010,
        InterfaceStep::RemoveAddress(_) => code == 1168,
        _ => false,
    }
}

/// What is made of a step of configuring the tunnel interface.
pub fn configure_tunnel_interface(step: InterfaceStep, code: u32, cause: &str) -> (r: Result<
    (),
    String,
>)
    ensures
        if interface_step_done(step, code) {
            r is Ok
        } else {
            r is Err && r->Err_0@ == interface_step_text(step) + ": "@ + cause@
        },
        code == 0 ==> r is Ok,
        code != 0 && code != 5010 && code != 1168 ==> r is Err,
        code == 5010 ==> (r is Ok <==> step is AssignAddress),
        code == 1168 ==> (r is Ok <==> step is RemoveAddress),
        r is Err && step is ListAddresses ==> r->Err_0@ == "failed to list interface addresses"@
            + ": "@ + cause@,
        r is Err && step is RemoveAddress ==> r->Err_0@
            == "failed to remove a stale tunnel address"@ + ": "@ + cause@,
        r is Err && step is AssignAddress ==> r->Err_0@ == "failed to assign tunnel address"@
            + ": "@ + cause@,
        r is Err && step is ReadInterface ==> r->Err_0@ == "failed to read tunnel interface"@
            + ": "@ + cause@,
        r is Err && step is WriteInterface ==> r->Err_0@
            == "failed to configure tunnel interface"@ + ": "@ + cause@,
{
    if code == NO_ERROR {
        return Ok(());
    }
    match step {
        InterfaceStep::ListAddresses => Err(
            win32_error("failed to list interface addresses", cause),
        ),
        InterfaceStep::RemoveAddress(_) => if code == ERROR_NOT_FOUND {
            Ok(())
        } else {
            Err(win32_error("failed to remove a stale tunnel address", cause))
        },
        InterfaceStep::AssignAddress(_) => if code == ERROR_OBJECT_ALREADY_EXISTS {
            Ok(())
        } else {
            Err(win32_error("failed to assign tunnel address", cause))
        },
        InterfaceStep::ReadInterface => Err(win32_error("failed to read tunnel interface", cause)),
        InterfaceStep::WriteInterface(_) => Err(
            win32_error("failed to configure tunnel interface", cause),
        ),
    }
}

/// How an interface is set.
pub struct InterfaceState {
    pub automatic_metric: bool,
    pub metric: u32,
    pub mtu: u32,
}

/// The interfaces of the system: their addresses and how they are set.
pub struct InterfaceWorld {
    pub addresses: Set<InterfaceAddress>,
    pub interfaces: Map<u64, InterfaceState>,
}

/// The interfaces after a step went well, where the system listed these
/// addresses.
pub open spec fn interface_effect(
    w: InterfaceWorld,
    rows: Seq<InterfaceAddress>,
    interface: u64,
    step: InterfaceStep,
) -> InterfaceWorld {
    match step {
        InterfaceStep::RemoveAddress(i) => InterfaceWorld {
            addresses: w.addresses.remove(rows[i as int]),
            ..w
        },
        InterfaceStep::AssignAddress(settings) => InterfaceWorld {
            addresses: w.addresses.insert(
                InterfaceAddress {
                    luid: interface,
                    address: Some(settings.address),
                    prefix: settings.prefix,
                },
            ),
            ..w
        },
        InterfaceStep::WriteInterface(settings) => InterfaceWorld {
            interfaces: w.interfaces.insert(
                interface,
                InterfaceState {
                    automatic_metric: settings.automatic_metric,
                    metric: settings.metric,
                    mtu: settings.mtu,
                },
            ),
            ..w
        },
        _ => w,
    }
}

/// The interfaces after some steps went well, in order.
pub open spec fn after_interface_steps(
    w: InterfaceWorld,
    rows: Seq<InterfaceAddress>,
    interface: u64,
    steps: Seq<InterfaceStep>,
) -> InterfaceWorld
    decreases steps.len(),
{
    if steps.len() == 0 {
        w
    } else {
        interface_effect(
            after_interface_steps(w, rows, interface, steps.drop_last()),
            rows,
            interface,
            steps.last(),
        )
    }
}

proof fn lemma_interface_push(
    w: InterfaceWorld,
    rows: Seq<InterfaceAddress>,
    interface: u64,
    steps: Seq<InterfaceStep>,
    step: InterfaceStep,
)
    ensures
        after_interface_steps(w, rows, interface, steps.push(step)) == interface_effect(
            after_interface_steps(w, rows, interface, steps),
            rows,
            interface,
            step,
        ),
{
    assert(steps.push(step).drop_last() =~= steps);
}

proof fn lemma_stale_go(
    w: InterfaceWorld,
    rows: Seq<InterfaceAddress>,
    n: int,
    interface: u64,
    local_ip: Ipv4Addr,
)
    requires
        0 <= n <= rows.len() <= usize::MAX,
    ensures
        ({
            let end = after_interface_steps(
                w,
                rows,
                interface,
                stale_places(rows.take(n), interface, local_ip),
            );
            &&& end.interfaces == w.interfaces
            &&& forall|row: InterfaceAddress| #[trigger]
                end.addresses.contains(row) == (w.addresses.contains(row) && !(is_stale(
                    row,
                    interface,
                    local_ip,
                ) && rows.take(n).contains(row)))
        }),
    decreases n,
{
    if n > 0 {
        let upto = rows.take(n);
        let fewer = rows.take(n - 1);
        let last = rows[n - 1];
        lemma_stale_go(w, rows, n - 1, interface, local_ip);
        assert(upto.drop_last() =~= fewer);
        let before = stale_places(fewer, interface, local_ip);
        if is_stale(last, interface, local_ip) {
            lemma_interface_push(
                w,
                rows,
                interface,
                before,
                InterfaceStep::RemoveAddress((n - 1) as usize),
            );
        }
        assert forall|row: InterfaceAddress| #[trigger]
            upto.contains(row) == (fewer.contains(row) || row == last) by {
            if fewer.contains(row) {
                let k = choose|k: int| 0 <= k < fewer.len() && fewer[k] == row;
                assert(upto[k] == row);
            }
            if upto.contains(row) {
                let k = choose|k: int| 0 <= k < upto.len() && upto[k] == row;
                if k < n - 1 {
                    assert(fewer[k] == row);
                }
            }
            assert(upto[n - 1] == last);
        }
    }
}

/// Where the system listed all its addresses and every step went well, the
/// tunnel has its own address, on a network of its own, and no other; its
/// metric is fixed and its MTU is set. Other interfaces are as they were.
pub proof fn the_tunnel_has_its_address_alone(
    w: InterfaceWorld,
    rows: Seq<InterfaceAddress>,
    interface: u64,
    local_ip: Ipv4Addr,
    mtu: u16,
    row: InterfaceAddress,
)
    requires
        rows.len() <= usize::MAX,
        forall|x: InterfaceAddress| #[trigger] rows.contains(x) <==> w.addresses.contains(x),
    ensures
        ({
            let end = after_interface_steps(
                w,
                rows,
                interface,
                interface_path(rows, interface, local_ip, mtu),
            );
            &&& row.luid == interface ==> end.addresses.contains(row) == (row == tunnel_address(
                interface,
                local_ip,
            ))
            &&& row.luid == interface ==> (end.addresses.contains(row) <==> row.address == Some(
                local_ip,
            ) && row.prefix == 32)
            &&& row.luid != interface ==> end.addresses.contains(row) == w.addresses.contains(row)
            &&& end.interfaces == w.interfaces.insert(
                interface,
                InterfaceState { automatic_metric: false, metric: 5, mtu: mtu as u32 },
            )
        }),
{
    let settings = settings_of(local_ip, mtu);
    let stale = stale_places(rows, interface, local_ip);
    let assign = InterfaceStep::AssignAddress(settings);
    let write = InterfaceStep::WriteInterface(settings);
    lemma_stale_go(w, rows, rows.len() as int, interface, local_ip);
    assert(rows.take(rows.len() as int) =~= rows);
    lemma_interface_push(w, rows, interface, stale, assign);
    lemma_interface_push(w, rows, interface, stale.push(assign), InterfaceStep::ReadInterface);
    lemma_interface_push(
        w,
        rows,
        interface,
        stale.push(assign).push(InterfaceStep::ReadInterface),
        write,
    );
    assert(interface_path(rows, interface, local_ip, mtu) =~= stale.push(assign).push(
        InterfaceStep::ReadInterface,
    ).push(write));
    assert(rows.contains(row) == w.addresses.contains(row));
}

// ---------------------------------------------------------------------------
// Name resolution policy
// ---------------------------------------------------------------------------

/// The octets of some units, least significant first.
pub open spec fn unit_octets(units: Seq<u16>) -> Seq<u8>
    decreases units.len(),
{
    if units.len() == 0 {
        Seq::empty()
    } else {
        unit_octets(units.drop_last()).push((units.last() % 256) as u8).push(
            (units.last() / 256) as u8,
        )
    }
}

/// The octets of some units, least significant first.
pub fn utf16_bytes(units: &Vec<u16>) -> (r: Vec<u8>)
    ensures
        r@ == unit_octets(units@),
{
    let mut r: Vec<u8> = Vec::new();
    assert(units@.take(0) =~= Seq::<u16>::empty());
    for i in 0..units.len()
        invariant
            r@ == unit_octets(units@.take(i as int)),
    {
        let ghost one = units@.take(i + 1);
        assert(one.drop_last() =~= units@.take(i as int));
        assert(one.last() == units@[i as int]);
        let unit: u16 = units[i];
        r.push((unit % 256) as u8);
        r.push((unit / 256) as u8);
    }
    assert(units@.take(units.len() as int) =~= units@);
    r
}

/// The units of some texts, each with a zero at its end.
pub open spec fn listed_units(values: Seq<Seq<char>>) -> Seq<u16>
    decreases values.len(),
{
    if values.len() == 0 {
        Seq::empty()
    } else {
        listed_units(values.drop_last()) + windows::utf16(values.last()).push(0)
    }
}

/// Some texts as the registry wants a list: each with a zero at its end, and
/// one more zero at the end of the list.
pub fn multi_sz(values: &Vec<String>) -> (r: Vec<u8>)
    ensures
        r@ == unit_octets(listed_units(text::strings(values@)).push(0)),
{
    let ghost all = text::strings(values@);
    let mut units: Vec<u16> = Vec::new();
    assert(units@ =~= listed_units(all.take(0)));
    for i in 0..values.len()
        invariant
            all == text::strings(values@),
            units@ == listed_units(all.take(i as int)),
    {
        let ghost one = all.take(i + 1);
        let ghost before = units@;
        assert(one.drop_last() =~= all.take(i as int));
        assert(one.last() == values@[i as int]@);
        let mut next = wide(values[i].as_str());
        units.append(&mut next);
        assert(units@ =~= before + windows::utf16(values@[i as int]@).push(0));
    }
    assert(all.take(values.len() as int) =~= all);
    units.push(0);
    utf16_bytes(&units)
}

/// A text without the leading occurrences of another one.
pub open spec fn without_leading(s: Seq<char>, p: Seq<char>) -> Seq<char>
    decreases s.len(),
{
    if p.len() > 0 && text::starts_with(s, p) {
        without_leading(s.skip(p.len() as int), p)
    } else {
        s
    }
}

/// A managed domain without wildcards, surrounding dots and white space, in
/// lower case.
pub open spec fn bare_name(domain: Seq<char>) -> Seq<char> {
    text::lower(
        text::trim_class(without_leading(text::trim(domain), "*."@), CharClass::DotOrWhite),
    )
}

/// Whether a text holds a character that no domain has.
pub open spec fn has_odd_char(s: Seq<char>) -> bool {
    exists|i: int|
        0 <= i < s.len() && (text::is_white(#[trigger] s[i]) || s[i] == '/' || s[i] == '\\')
}

/// The domain that a rule is made for. Addresses get none.
pub open spec fn rule_domain(domain: Seq<char>) -> Option<Seq<char>> {
    let d = bare_name(domain);
    if d.len() == 0 || ipv4::parse_ipv4(d) is Some || d.contains(':') || has_odd_char(d) {
        None
    } else {
        Some(d)
    }
}

/// The names of some domains: each domain itself, and everything below it.
pub open spec fn rule_names(domains: Seq<Seq<char>>) -> Seq<Seq<char>>
    decreases domains.len(),
{
    if domains.len() == 0 {
        Seq::empty()
    } else {
        let head = rule_names(domains.drop_last());
        match rule_domain(domains.last()) {
            Some(d) => head.push(d).push("."@ + d),
            None => head,
        }
    }
}

fn strip_wildcards<'a>(s: &'a [char]) -> (r: &'a [char])
    ensures
        r@ == without_leading(s@, "*."@),
{
    let mut rest = s;
    proof {
        reveal_strlit("*.");
    }
    let mut more = true;
    while more
        invariant
            "*."@.len() == 2,
            without_leading(s@, "*."@) == without_leading(rest@, "*."@),
            !more ==> without_leading(rest@, "*."@) == rest@,
        decreases rest@.len(), (if more { 1int } else { 0int }),
    {
        match without_prefix(rest, "*.") {
            Some(next) => {
                assert(next@ =~= rest@.skip(2));
                rest = next;
            },
            None => {
                more = false;
            },
        }
    }
    rest
}

fn odd_char(s: &[char]) -> (r: bool)
    ensures
        r == has_odd_char(s@),
{
    for i in 0..s.len()
        invariant
            forall|k: int|
                0 <= k < i ==> !(text::is_white(#[trigger] s@[k]) || s@[k] == '/' || s@[k]
                    == '\\'),
    {
        let c = s[i];
        if white(c) || c == '/' || c == '\\' {
            assert(text::is_white(s@[i as int]) || s@[i as int] == '/' || s@[i as int] == '\\');
            return true;
        }
    }
    false
}

fn policy_domain(domain: &str) -> (r: Option<String>)
    ensures
        text::text_of(r) == rule_domain(domain@),
{
    let cs = chars_of(domain);
    let d = to_lower(
        trimmed_class(strip_wildcards(trimmed(cs.as_slice())), CharClass::DotOrWhite),
    );
    let s = d.as_slice();
    if s.len() == 0 || parse_address(s).is_some() || has_char(s, ':') || odd_char(s) {
        None
    } else {
        Some(string_of(s))
    }
}

/// The names that the policy is made for, sorted, each once: a domain and
/// everything below it.
pub fn nrpt_namespaces(domains: &Vec<String>) -> (r: Vec<String>)
    ensures
        sorted::sorted_set_of(text::strings(r@), rule_names(text::strings(domains@))),
{
    let ghost all = text::strings(domains@);
    let mut names: Vec<String> = Vec::new();
    assert(text::strings(names@) =~= rule_names(all.take(0)));
    for i in 0..domains.len()
        invariant
            all == text::strings(domains@),
            text::strings(names@) == rule_names(all.take(i as int)),
    {
        let ghost one = all.take(i + 1);
        let ghost before = text::strings(names@);
        assert(one.drop_last() =~= all.take(i as int));
        assert(one.last() == domains@[i as int]@);
        match policy_domain(domains[i].as_str()) {
            Some(d) => {
                let mut below = ".".to_owned();
                below.append(d.as_str());
                names.push(d);
                names.push(below);
                assert(text::strings(names@) =~= before.push(d@).push(below@));
            },
            None => {},
        }
    }
    assert(all.take(domains.len() as int) =~= all);
    sort_dedup(names)
}

proof fn lemma_rule_names(domains: Seq<Seq<char>>, i: int)
    requires
        0 <= i < domains.len(),
        rule_domain(domains[i]) is Some,
    ensures
        rule_names(domains).contains(rule_domain(domains[i])->0),
        rule_names(domains).contains("."@ + rule_domain(domains[i])->0),
    decreases domains.len(),
{
    let head = rule_names(domains.drop_last());
    let d = rule_domain(domains[i])->0;
    let all = rule_names(domains);
    if i == domains.len() - 1 {
        assert(all[head.len() as int] == d);
        assert(all[head.len() as int + 1] == "."@ + d);
    } else {
        lemma_rule_names(domains.drop_last(), i);
        let a = choose|k: int| 0 <= k < head.len() && head[k] == d;
        let b = choose|k: int| 0 <= k < head.len() && head[k] == "."@ + d;
        assert(all[a] == d);
        assert(all[b] == "."@ + d);
    }
}

proof fn lemma_rule_names_only(domains: Seq<Seq<char>>, t: Seq<char>)
    requires
        rule_names(domains).contains(t),
    ensures
        exists|j: int|
            0 <= j < domains.len() && rule_domain(#[trigger] domains[j]) is Some && (t
                == rule_domain(domains[j])->0 || t == "."@ + rule_domain(domains[j])->0),
    decreases domains.len(),
{
    let fewer = domains.drop_last();
    let head = rule_names(fewer);
    let all = rule_names(domains);
    let k = choose|k: int| 0 <= k < all.len() && all[k] == t;
    if k < head.len() {
        assert(head[k] == t);
        lemma_rule_names_only(fewer, t);
        let j = choose|j: int|
            0 <= j < fewer.len() && rule_domain(#[trigger] fewer[j]) is Some && (t == rule_domain(
                fewer[j],
            )->0 || t == "."@ + rule_domain(fewer[j])->0);
        assert(domains[j] == fewer[j]);
    } else {
        assert(rule_domain(domains[domains.len() - 1]) is Some);
    }
}

/// Whether a text is a domain as rules are made for it: no dots or white space
/// around it, in lower case, and no wildcard in front.
spec fn settled(d: Seq<char>) -> bool {
    &&& d.len() > 0
    &&& !CharClass::DotOrWhite.holds(d[0])
    &&& !CharClass::DotOrWhite.holds(d.last())
    &&& text::lower(d) == d
    &&& !text::starts_with(d, "*."@)
}

proof fn lemma_trimmed_ends(s: Seq<char>, class: CharClass)
    ensures
        text::trim_start(s, class).len() > 0 ==> !class.holds(text::trim_start(s, class)[0]),
    decreases s.len(),
{
    if s.len() > 0 && class.holds(s[0]) {
        lemma_trimmed_ends(s.drop_first(), class);
    }
}

proof fn lemma_settled(domain: Seq<char>)
    requires
        rule_domain(domain) is Some,
        !text::starts_with(rule_domain(domain)->0, "*."@),
    ensures
        settled(rule_domain(domain)->0),
{
    let class = CharClass::DotOrWhite;
    let s = without_leading(text::trim(domain), "*."@);
    let a = text::trim_start(s, class);
    let t = text::trim_end(a, class);
    let d = text::lower(t);
    lemma_trimmed_ends(s, class);
    text::lemma_trim_end(a, class);
    text::lemma_trim_end_cuts(a, class);
    assert(t.len() > 0);
    assert(t[0] == a[0]);
    assert(text::lower(d) =~= d);
}

proof fn lemma_settled_stays(d: Seq<char>)
    requires
        settled(d),
    ensures
        bare_name(d) == d,
        bare_name("."@ + d) == d,
{
    reveal_strlit(".");
    reveal_strlit("*.");
    let below = "."@ + d;
    assert(below[0] == '.');
    assert(below.last() == d.last());
    assert(text::trim(d) == d);
    assert(without_leading(d, "*."@) == d);
    assert(text::trim(below) == below);
    assert(!text::starts_with(below, "*."@)) by {
        assert("*."@[0] == '*');
    }
    assert(without_leading(below, "*."@) == below);
    assert(below.drop_first() =~= d);
    assert(text::trim_start(below, CharClass::DotOrWhite) == text::trim_start(
        d,
        CharClass::DotOrWhite,
    ));
}

/// Making the names of the policy from themselves gives the same names, where
/// no wildcard hides behind a leading dot.
pub proof fn the_names_stay_as_they_are(names: Seq<Seq<char>>, domains: Seq<Seq<char>>)
    requires
        sorted::sorted_set_of(names, rule_names(domains)),
        forall|i: int|
            0 <= i < domains.len() && rule_domain(#[trigger] domains[i]) is Some
                ==> !text::starts_with(rule_domain(domains[i])->0, "*."@),
    ensures
        sorted::sorted_set_of(names, rule_names(names)),
{
    assert forall|t: Seq<char>| #[trigger] names.contains(t) <==> rule_names(names).contains(t) by {
        if names.contains(t) {
            assert(rule_names(domains).contains(t));
            lemma_rule_names_only(domains, t);
            let j = choose|j: int|
                0 <= j < domains.len() && rule_domain(#[trigger] domains[j]) is Some && (t
                    == rule_domain(domains[j])->0 || t == "."@ + rule_domain(domains[j])->0);
            let e = rule_domain(domains[j])->0;
            lemma_rule_names(domains, j);
            assert(names.contains(e));
            let i = choose|i: int| 0 <= i < names.len() && names[i] == e;
            lemma_settled(domains[j]);
            lemma_settled_stays(e);
            assert(rule_domain(names[i]) == Some(e));
            lemma_rule_names(names, i);
        }
        if rule_names(names).contains(t) {
            lemma_rule_names_only(names, t);
            let i = choose|i: int|
                0 <= i < names.len() && rule_domain(#[trigger] names[i]) is Some && (t
                    == rule_domain(names[i])->0 || t == "."@ + rule_domain(names[i])->0);
            assert(names.contains(names[i]));
            lemma_rule_names_only(domains, names[i]);
            let j = choose|j: int|
                0 <= j < domains.len() && rule_domain(#[trigger] domains[j]) is Some && (names[i]
                    == rule_domain(domains[j])->0 || names[i] == "."@ + rule_domain(
                    domains[j],
                )->0);
            let e = rule_domain(domains[j])->0;
            lemma_settled(domains[j]);
            lemma_settled_stays(e);
            lemma_rule_names(domains, j);
            assert(rule_names(domains).contains(t));
        }
    }
}

/// The policy covers every managed domain that it can: the domain itself and
/// everything below it.
pub proof fn the_policy_covers_every_domain(
    names: Seq<Seq<char>>,
    domains: Seq<Seq<char>>,
    i: int,
)
    requires
        sorted::sorted_set_of(names, rule_names(domains)),
        0 <= i < domains.len(),
        rule_domain(domains[i]) is Some,
    ensures
        names.contains(rule_domain(domains[i])->0),
        names.contains("."@ + rule_domain(domains[i])->0),
{
    lemma_rule_names(domains, i);
    assert(names.contains(rule_domain(domains[i])->0) <==> rule_names(domains).contains(
        rule_domain(domains[i])->0,
    ));
    assert(names.contains("."@ + rule_domain(domains[i])->0) <==> rule_names(domains).contains(
        "."@ + rule_domain(domains[i])->0,
    ));
}

/// The kinds of registry values.
#[derive(Debug, Clone, Copy, PartialEq, Eq, Structural)]
pub enum ValueKind {
    Text,
    TextList,
    Number,
}

/// A registry value.
#[derive(Debug)]
pub struct RegistryValue {
    pub name: String,
    pub kind: ValueKind,
    pub data: Vec<u8>,
}

/// A registry value, as a text and octets.
pub struct ValueModel {
    pub name: Seq<char>,
    pub kind: ValueKind,
    pub data: Seq<u8>,
}

impl View for RegistryValue {
    type V = ValueModel;

    open spec fn view(&self) -> ValueModel {
        ValueModel { name: self.name@, kind: self.kind, data: self.data@ }
    }
}

/// The models of some values.
pub open spec fn value_models(v: Seq<RegistryValue>) -> Seq<ValueModel> {
    Seq::new(v.len(), |i: int| v[i]@)
}

/// The registry key of the policy. Where group policy has rules the local ones
/// are ignored.
pub open spec fn policy_key(use_policy: bool) -> Seq<char> {
    if use_policy {
        "SOFTWARE\\Policies\\Microsoft\\Windows NT\\DNSClient\\DnsPolicyConfig\\NulConnect"@
    } else {
        "SYSTEM\\CurrentControlSet\\Services\\Dnscache\\Parameters\\DnsPolicyConfig\\NulConnect"@
    }
}

/// The registry key of the policy.
pub fn nrpt_key(use_policy: bool) -> (r: String)
    ensures
        r@ == policy_key(use_policy),
        use_policy ==> r@
            == "SOFTWARE\\Policies\\Microsoft\\Windows NT\\DNSClient\\DnsPolicyConfig\\NulConnect"@,
        !use_policy ==> r@
            == "SYSTEM\\CurrentControlSet\\Services\\Dnscache\\Parameters\\DnsPolicyConfig\\NulConnect"@,
{
    if use_policy {
        "SOFTWARE\\Policies\\Microsoft\\Windows NT\\DNSClient\\DnsPolicyConfig\\NulConnect".to_owned()
    } else {
        "SYSTEM\\CurrentControlSet\\Services\\Dnscache\\Parameters\\DnsPolicyConfig\\NulConnect".to_owned()
    }
}

/// The four octets of a number, least significant first.
pub open spec fn little_endian(n: u8) -> Seq<u8> {
    seq![n, 0u8, 0u8, 0u8]
}

/// The values of the policy.
pub open spec fn policy_values(names: Seq<Seq<char>>, server: Ipv4Addr) -> Seq<ValueModel> {
    seq![
        ValueModel { name: "Version"@, kind: ValueKind::Number, data: little_endian(2) },
        ValueModel {
            name: "Name"@,
            kind: ValueKind::TextList,
            data: unit_octets(listed_units(names).push(0)),
        },
        ValueModel {
            name: "GenericDNSServers"@,
            kind: ValueKind::Text,
            data: unit_octets(windows::utf16(ipv4::dotted(server.bits)).push(0)),
        },
        ValueModel { name: "ConfigOptions"@, kind: ValueKind::Number, data: little_endian(8) },
        ValueModel { name: "IPSECCARestriction"@, kind: ValueKind::Text, data: seq![0u8, 0u8] },
    ]
}

/// A step of applying the policy. They are taken in order until one fails.
#[derive(Debug)]
pub enum NrptStep {
    /// Delete what was applied before.
    Clear,
    /// Make the key of the policy.
    CreateKey(String),
    /// Write a value into that key.
    Write(RegistryValue),
    /// Have the policy read again, group policy too or not.
    Reload(bool),
}

/// A step of applying the policy, as texts and octets.
pub enum NrptModel {
    Clear,
    CreateKey(Seq<char>),
    Write(ValueModel),
    Reload(bool),
}

impl View for NrptStep {
    type V = NrptModel;

    open spec fn view(&self) -> NrptModel {
        match self {
            NrptStep::Clear => NrptModel::Clear,
            NrptStep::CreateKey(path) => NrptModel::CreateKey(path@),
            NrptStep::Write(value) => NrptModel::Write(value@),
            NrptStep::Reload(group) => NrptModel::Reload(*group),
        }
    }
}

/// The models of some steps.
pub open spec fn step_models(v: Seq<NrptStep>) -> Seq<NrptModel> {
    Seq::new(v.len(), |i: int| v[i]@)
}

/// The steps that write some values.
pub open spec fn writes(values: Seq<ValueModel>) -> Seq<NrptModel> {
    Seq::new(values.len(), |i: int| NrptModel::Write(values[i]))
}

/// The steps that apply the policy of some names. What was applied before goes
/// first; for no names nothing is applied.
pub open spec fn nrpt_steps(
    names: Seq<Seq<char>>,
    server: Ipv4Addr,
    use_policy: bool,
) -> Seq<NrptModel> {
    if names.len() == 0 {
        seq![NrptModel::Clear]
    } else {
        seq![NrptModel::Clear, NrptModel::CreateKey(policy_key(use_policy))] + writes(
            policy_values(names, server),
        ) + seq![NrptModel::Reload(use_policy)]
    }
}

/// How the policy of some domains is applied, and the number of its names.
#[derive(Debug)]
pub struct NrptPlan {
    pub steps: Vec<NrptStep>,
    pub namespaces: usize,
}

/// How the policy is applied that sends some domains to a name server. The
/// number of its names is what is answered when every step went well.
pub fn apply_nrpt(domains: &Vec<String>, server: Ipv4Addr, use_policy: bool) -> (r: NrptPlan)
    ensures
        exists|names: Seq<Seq<char>>| #[trigger]
            sorted::sorted_set_of(names, rule_names(text::strings(domains@))) && r.namespaces
                == names.len() && step_models(r.steps@) == nrpt_steps(names, server, use_policy),
{
    let names = nrpt_namespaces(domains);
    let ghost shown = text::strings(names@);
    let mut steps: Vec<NrptStep> = vec![NrptStep::Clear];
    assert(step_models(steps@) =~= seq![NrptModel::Clear]);
    if names.len() > 0 {
        steps.push(NrptStep::CreateKey(nrpt_key(use_policy)));
        let ghost head = seq![NrptModel::Clear, NrptModel::CreateKey(policy_key(use_policy))];
        assert(step_models(steps@) =~= head);
        let mut values = nrpt_values(&names, server);
        let ghost all = value_models(values@);
        let ghost mut done: int = 0;
        assert(head + writes(all.take(0)) =~= head);
        assert(all.skip(0) =~= all);
        while values.len() > 0
            invariant
                0 <= done <= all.len(),
                value_models(values@) == all.skip(done),
                step_models(steps@) == head + writes(all.take(done)),
            decreases values.len(),
        {
            let ghost before = step_models(steps@);
            let ghost left = value_models(values@);
            let value = values.remove(0);
            assert(value@ == left[0]);
            steps.push(NrptStep::Write(value));
            proof {
                assert(left.len() == all.len() - done);
                assert(left[0] == all[done]);
                assert(value_models(values@) =~= left.drop_first());
                assert(left.drop_first() =~= all.skip(done + 1));
                assert(writes(all.take(done + 1)) =~= writes(all.take(done)).push(
                    NrptModel::Write(all[done]),
                ));
                assert(step_models(steps@) =~= before.push(NrptModel::Write(value@)));
                assert(step_models(steps@) =~= head + writes(all.take(done + 1)));
                done = done + 1;
            }
        }
        assert(done == all.len()) by {
            assert(value_models(values@).len() == all.len() - done);
        }
        assert(all.take(done) =~= all);
        steps.push(NrptStep::Reload(use_policy));
        assert(step_models(steps@) =~= head + writes(all) + seq![NrptModel::Reload(use_policy)]);
    }
    assert(step_models(steps@) == nrpt_steps(shown, server, use_policy));
    NrptPlan { steps, namespaces: names.len() }
}

/// The policies of the system, by their registry keys, and the key that is
/// being written.
#[verifier::ext_equal]
pub struct Policies {
    pub rules: Map<Seq<char>, Seq<ValueModel>>,
    pub open: Option<Seq<char>>,
}

/// The policies after a step.
pub open spec fn policies_after(p: Policies, step: NrptModel) -> Policies {
    match step {
        NrptModel::Clear => Policies {
            rules: p.rules.remove(policy_key(false)).remove(policy_key(true)),
            ..p
        },
        NrptModel::CreateKey(path) => Policies {
            rules: p.rules.insert(path, Seq::empty()),
            open: Some(path),
        },
        NrptModel::Write(value) => match p.open {
            Some(path) => Policies { rules: p.rules.insert(path, p.rules[path].push(value)), ..p },
            None => p,
        },
        NrptModel::Reload(_) => p,
    }
}

/// The policies after some steps.
pub open spec fn policies_through(p: Policies, steps: Seq<NrptModel>) -> Policies
    decreases steps.len(),
{
    if steps.len() == 0 {
        p
    } else {
        policies_after(policies_through(p, steps.drop_last()), steps.last())
    }
}

proof fn lemma_writes(p: Policies, path: Seq<char>, values: Seq<ValueModel>, head: Seq<NrptModel>)
    requires
        policies_through(p, head).open == Some(path),
        policies_through(p, head).rules.dom().contains(path),
        policies_through(p, head).rules[path].len() == 0,
    ensures
        ({
            let start = policies_through(p, head);
            policies_through(p, head + writes(values)) == (Policies {
                rules: start.rules.insert(path, values),
                ..start
            })
        }),
    decreases values.len(),
{
    let start = policies_through(p, head);
    if values.len() == 0 {
        assert(head + writes(values) =~= head);
        assert(start.rules[path] =~= values);
        assert(start.rules.insert(path, values) =~= start.rules);
    } else {
        let fewer = values.drop_last();
        lemma_writes(p, path, fewer, head);
        assert((head + writes(values)).drop_last() =~= head + writes(fewer));
        assert((head + writes(values)).last() == NrptModel::Write(values.last()));
        assert(fewer.push(values.last()) =~= values);
        assert(start.rules.insert(path, fewer).insert(path, values) =~= start.rules.insert(
            path,
            values,
        ));
    }
}

/// Once the policy is applied, what was applied before is gone. There is no
/// policy for no names, and else one policy, with these names and this name
/// server, under the key of group policy where that has rules and under the
/// local one where not.
pub proof fn one_policy_is_left(
    p: Policies,
    names: Seq<Seq<char>>,
    server: Ipv4Addr,
    use_policy: bool,
)
    ensures
        policies_through(p, nrpt_steps(names, server, use_policy)).rules == ({
            let others = p.rules.remove(policy_key(false)).remove(policy_key(true));
            if names.len() == 0 {
                others
            } else {
                others.insert(policy_key(use_policy), policy_values(names, server))
            }
        }),
{
    let steps = nrpt_steps(names, server, use_policy);
    let clear = seq![NrptModel::Clear];
    assert(clear.drop_last() =~= Seq::<NrptModel>::empty());
    assert(policies_through(p, Seq::<NrptModel>::empty()) == p);
    assert(policies_through(p, clear) == policies_after(p, NrptModel::Clear));
    if names.len() > 0 {
        let path = policy_key(use_policy);
        let head = seq![NrptModel::Clear, NrptModel::CreateKey(path)];
        assert(head.drop_last() =~= clear);
        let values = policy_values(names, server);
        let start = policies_through(p, head);
        lemma_writes(p, path, values, head);
        assert(steps.drop_last() =~= head + writes(values));
        assert(steps.last() == NrptModel::Reload(use_policy));
        let others = p.rules.remove(policy_key(false)).remove(policy_key(true));
        assert(others.insert(path, Seq::empty()).insert(path, values) =~= others.insert(
            path,
            values,
        ));
    }
}

/// The values of the policy that sends some names to a name server.
fn nrpt_values(names: &Vec<String>, server: Ipv4Addr) -> (r: Vec<RegistryValue>)
    ensures
        value_models(r@) == policy_values(text::strings(names@), server),
{
    let version: Vec<u8> = vec![2, 0, 0, 0];
    let options: Vec<u8> = vec![8, 0, 0, 0];
    let nothing: Vec<u8> = vec![0, 0];
    assert(version@ =~= little_endian(2));
    assert(options@ =~= little_endian(8));
    assert(nothing@ =~= seq![0u8, 0u8]);
    let list = multi_sz(names);
    let address = utf16_bytes(&wide(server.to_text().as_str()));
    let r: Vec<RegistryValue> = vec![
        RegistryValue { name: "Version".to_owned(), kind: ValueKind::Number, data: version },
        RegistryValue { name: "Name".to_owned(), kind: ValueKind::TextList, data: list },
        RegistryValue {
            name: "GenericDNSServers".to_owned(),
            kind: ValueKind::Text,
            data: address,
        },
        RegistryValue {
            name: "ConfigOptions".to_owned(),
            kind: ValueKind::Number,
            data: options,
        },
        RegistryValue {
            name: "IPSECCARestriction".to_owned(),
            kind: ValueKind::Text,
            data: nothing,
        },
    ];
    assert(value_models(r@) =~= policy_values(text::strings(names@), server));
    r
}

/// What is said of a registry key that could not be made.
pub fn key_error(path: &str, cause: &str) -> (r: String)
    ensures
        r@ == "failed to create registry key "@ + path@ + ": "@ + cause@,
{
    let mut context = "failed to create registry key ".to_owned();
    context.append(path);
    win32_error(context.as_str(), cause)
}

/// What is said of a registry value that could not be written.
pub fn value_error(name: &str, cause: &str) -> (r: String)
    ensures
        r@ == "failed to write registry value "@ + name@ + ": "@ + cause@,
{
    let mut context = "failed to write registry value ".to_owned();
    context.append(name);
    win32_error(context.as_str(), cause)
}

/// Whether the policy has to be read again, by which of its keys were deleted.
pub fn clear_nrpt(local_deleted: bool, policy_deleted: bool) -> (r: bool)
    ensures
        r == (local_deleted || policy_deleted),
{
    local_deleted || policy_deleted
}

// ---------------------------------------------------------------------------
// Laws
// ---------------------------------------------------------------------------

/// A domain in lower case gets rules of its own name, also where wildcards, a
/// dot or white space stand around it.
pub proof fn a_plain_domain_gets_its_rules(a: Seq<char>, d: Seq<char>, b: Seq<char>)
    requires
        d.len() > 0,
        text::lower(d) == d,
        !CharClass::DotOrWhite.holds(d[0]) && !CharClass::DotOrWhite.holds(d.last()),
        forall|i: int|
            0 <= i < d.len() ==> !text::is_white(#[trigger] d[i]) && d[i] != '/' && d[i] != '\\'
                && d[i] != ':' && d[i] != '*',
        ipv4::parse_ipv4(d) is None,
        forall|k: int| 0 <= k < a.len() ==> text::is_white(#[trigger] a[k]),
        forall|k: int| 0 <= k < b.len() ==> text::is_white(#[trigger] b[k]),
    ensures
        rule_domain(d) == Some(d),
        rule_domain(a + d + b) == Some(d),
        rule_domain(a + (seq!['*', '.'] + d) + b) == Some(d),
        rule_domain(a + (seq!['*', '.', '*', '.'] + d) + b) == Some(d),
        rule_domain(seq!['.'] + d) == Some(d),
        rule_domain(d + seq!['.']) == Some(d),
{
    reveal_strlit("*.");
    reveal_strlit(".");
    let none = Seq::<char>::empty();
    let wild = seq!['*', '.'] + d;
    let wilder = seq!['*', '.', '*', '.'] + d;
    assert(!has_odd_char(d));
    assert(!d.contains(':'));
    assert(!text::starts_with(d, "*."@)) by {
        if text::starts_with(d, "*."@) {
            assert(d.take(2)[0] == d[0]);
            assert("*."@[0] == '*');
        }
    }
    assert(settled(d));
    lemma_settled_stays(d);
    assert("."@ =~= seq!['.']);
    assert(!text::is_white(d[0]));
    assert(!text::is_white(d[d.len() - 1]));
    assert forall|k: int| 0 <= k < a.len() implies CharClass::White.holds(#[trigger] a[k]) by {
        assert(text::is_white(a[k]));
    }
    assert forall|k: int| 0 <= k < b.len() implies CharClass::White.holds(#[trigger] b[k]) by {
        assert(text::is_white(b[k]));
    }
    text::trimming_undoes_padding(a, d, b, CharClass::White);
    assert(text::trim(a + d + b) == d);
    assert(text::trim(d) == d) by {
        text::a_trimmed_text_stays(d);
    }
    assert(wild[0] == '*' && wild[wild.len() - 1] == d[d.len() - 1]);
    assert(wilder[0] == '*' && wilder[wilder.len() - 1] == d[d.len() - 1]);
    text::ordinary_white_space('*');
    text::trimming_undoes_padding(a, wild, b, CharClass::White);
    text::trimming_undoes_padding(a, wilder, b, CharClass::White);
    assert(without_leading(d, "*."@) == d);
    assert(wild.take(2) =~= "*."@);
    assert(wild.skip(2) =~= d);
    assert(without_leading(wild, "*."@) == d);
    assert(wilder.take(2) =~= "*."@);
    assert(wilder.skip(2) =~= wild);
    assert(without_leading(wilder, "*."@) == d);
    let ended = d + seq!['.'];
    assert(ended[0] == d[0] && ended[ended.len() - 1] == '.');
    text::ordinary_white_space('.');
    text::a_trimmed_text_stays(ended);
    assert(!text::starts_with(ended, "*."@)) by {
        if text::starts_with(ended, "*."@) {
            assert(ended.take(2)[0] == ended[0]);
            assert("*."@[0] == '*');
        }
    }
    text::trimming_undoes_padding(none, d, seq!['.'], CharClass::DotOrWhite);
    assert(none + d + seq!['.'] =~= ended);
    assert(bare_name(ended) == d);
}

/// The policy is made for nothing but the managed domains and what is below
/// them, and never for an address.
pub proof fn the_policy_covers_nothing_else(
    names: Seq<Seq<char>>,
    domains: Seq<Seq<char>>,
    t: Seq<char>,
)
    requires
        sorted::sorted_set_of(names, rule_names(domains)),
        names.contains(t),
    ensures
        exists|j: int|
            0 <= j < domains.len() && rule_domain(#[trigger] domains[j]) is Some && (t
                == rule_domain(domains[j])->0 || t == seq!['.'] + rule_domain(domains[j])->0)
                && ipv4::parse_ipv4(rule_domain(domains[j])->0) is None,
{
    reveal_strlit(".");
    assert("."@ =~= seq!['.']);
    assert(rule_names(domains).contains(t));
    lemma_rule_names_only(domains, t);
    let j = choose|j: int|
        0 <= j < domains.len() && rule_domain(#[trigger] domains[j]) is Some && (t == rule_domain(
            domains[j],
        )->0 || t == "."@ + rule_domain(domains[j])->0);
    assert(rule_domain(domains[j]) is Some);
}

/// Each unit is two octets, the lower one first.
pub proof fn a_unit_is_two_octets(units: Seq<u16>, i: int)
    requires
        0 <= i < units.len(),
    ensures
        unit_octets(units).len() == 2 * units.len(),
        unit_octets(units)[2 * i] + 256 * unit_octets(units)[2 * i + 1] == units[i],
    decreases units.len(),
{
    let fewer = units.drop_last();
    if fewer.len() > 0 {
        a_unit_is_two_octets(fewer, if i < fewer.len() { i } else { 0 });
    } else {
        assert(unit_octets(fewer).len() == 0);
    }
    let head = unit_octets(fewer);
    let last = units[fewer.len() as int];
    assert(unit_octets(units) == head.push((last % 256) as u8).push((last / 256) as u8));
    if i == fewer.len() {
        let u = units[i];
        assert(u % 256 + 256 * (u / 256) == u);
    }
}

/// A list in the registry holds each of its texts, in order, with a zero behind
/// it.
pub proof fn a_list_holds_its_texts(a: Seq<Seq<char>>, x: Seq<char>, b: Seq<Seq<char>>)
    ensures
        listed_units(a.push(x) + b) == listed_units(a) + windows::utf16(x).push(0) + listed_units(
            b,
        ),
        listed_units(Seq::empty()) == Seq::<u16>::empty(),
    decreases b.len(),
{
    assert(a.push(x).drop_last() =~= a);
    if b.len() == 0 {
        assert(a.push(x) + b =~= a.push(x));
        assert(listed_units(a) + windows::utf16(x).push(0) + listed_units(b) =~= listed_units(a)
            + windows::utf16(x).push(0));
    } else {
        let fewer = b.drop_last();
        a_list_holds_its_texts(a, x, fewer);
        assert((a.push(x) + b).drop_last() =~= a.push(x) + fewer);
        assert((a.push(x) + b).last() == b.last());
        assert(listed_units(a.push(x) + b) =~= listed_units(a) + windows::utf16(x).push(0)
            + listed_units(b));
    }
}

/// The policy says of which version it is, which names it is for, which name
/// server they go to, and that nothing but the name server is meant.
pub proof fn a_policy_says_what_it_is_for(names: Seq<Seq<char>>, server: Ipv4Addr)
    ensures
        ({
            let v = policy_values(names, server);
            &&& v.len() == 5
            &&& v[0].name == "Version"@ && v[0].kind == ValueKind::Number && v[0].data == seq![
                2u8,
                0u8,
                0u8,
                0u8,
            ]
            &&& v[1].name == "Name"@ && v[1].kind == ValueKind::TextList && v[1].data
                == unit_octets(listed_units(names) + seq![0u16])
            &&& v[2].name == "GenericDNSServers"@ && v[2].kind == ValueKind::Text && v[2].data
                == unit_octets(windows::utf16(ipv4::dotted(server.bits)) + seq![0u16])
            &&& v[3].name == "ConfigOptions"@ && v[3].kind == ValueKind::Number && v[3].data == seq![
                8u8,
                0u8,
                0u8,
                0u8,
            ]
            &&& v[4].name == "IPSECCARestriction"@ && v[4].kind == ValueKind::Text && v[4].data
                == seq![0u8, 0u8]
        }),
{
    let v = policy_values(names, server);
    assert(listed_units(names) + seq![0u16] =~= listed_units(names).push(0));
    let address = windows::utf16(ipv4::dotted(server.bits));
    assert(address + seq![0u16] =~= address.push(0));
    assert(little_endian(2) =~= seq![2u8, 0u8, 0u8, 0u8]);
    assert(little_endian(8) =~= seq![8u8, 0u8, 0u8, 0u8]);
}

/// A route is shown with its destination, its prefix, its next hop and its
/// interface.
pub proof fn a_route_is_shown_whole(route: RouteSpec)
    ensures
        ({
            let luid = number::numeral(route.interface_luid as nat, 16);
            &&& number::value_in(luid, 16) == route.interface_luid
            &&& route_text(route) == ipv4::dotted(route.destination.bits) + seq!['/']
                + number::decimal(route.prefix as nat) + " via "@ + ipv4::dotted(
                route.next_hop.bits,
            ) + " (luid 0x"@ + luid + seq![')']
        }),
{
    reveal_strlit("/");
    reveal_strlit(")");
    assert("/"@ =~= seq!['/']);
    assert(")"@ =~= seq![')']);
    number::a_numeral_stands_for_its_number(route.interface_luid as nat, 16);
}

} // verus!
