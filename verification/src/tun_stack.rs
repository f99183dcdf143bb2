//! The user-space end of the TCP and UDP flows that the tunnel device carries.
//!
//! The device carries IP packets and the service carries byte streams and
//! datagrams; the stack stands between them. Packets of flows that the
//! service does not manage take the raw path.
use crate::ipv4;
use crate::ipv4::Ipv4Addr;
use crate::sockets;
use crate::sockets::{new_socket_set, Endpoint, SocketModel};
use crate::traffic;
use crate::traffic::VpnEngineTrafficStats;
use crate::tun_tcp;
use crate::tun_tcp::{
    ensure_tcp_listener, find_tcp_flow, process_tcp, ConnectOutcome, Connection, Listener, TcpAction, TcpFlow,
};
use crate::tun_udp;
use crate::tun_udp::{ensure_udp_listener, find_udp_flow, process_udp, UdpAction, UdpFlow};
use smoltcp::iface::{SocketHandle, SocketSet};
use vstd::prelude::*;

verus! {

/// The protocol number of TCP.
pub const PROTOCOL_TCP: u8 = 6;

/// The protocol number of UDP.
pub const PROTOCOL_UDP: u8 = 17;

// ---------------------------------------------------------------------------
// Packets
// ---------------------------------------------------------------------------

/// The octets of the header of an IPv4 packet.
pub open spec fn header_length(packet: Seq<u8>) -> int {
    (packet[0] % 16) * 4
}

/// Whether the header of an IPv4 packet is there in full.
pub open spec fn has_ipv4_header(packet: Seq<u8>) -> bool {
    &&& packet.len() >= 20
    &&& packet[0] / 16 == 4
    &&& 20 <= header_length(packet) <= packet.len()
}

/// Whether the ports of a TCP or UDP packet are there.
pub open spec fn has_ports(packet: Seq<u8>) -> bool {
    &&& packet[9] == PROTOCOL_TCP || packet[9] == PROTOCOL_UDP
    &&& packet.len() >= header_length(packet) + 4
}

/// The destination of an IPv4 packet.
pub open spec fn destination(packet: Seq<u8>) -> Ipv4Addr {
    Ipv4Addr { bits: ipv4::bits_of(packet[16], packet[17], packet[18], packet[19]) as u32 }
}

/// The destination port of a packet, or zero where it has none.
pub open spec fn destination_port(packet: Seq<u8>) -> u16 {
    if has_ports(packet) {
        let h = header_length(packet);
        (packet[h + 2] * 256 + packet[h + 3]) as u16
    } else {
        0
    }
}

/// The protocol of an IPv4 packet, its destination and its destination port.
/// The port is zero where the protocol has no ports or they are cut off; a
/// packet without a full IPv4 header has none of these.
pub fn ipv4_protocol_and_port(packet: &[u8]) -> (r: Option<(u8, Ipv4Addr, u16)>)
    ensures
        r == if has_ipv4_header(packet@) {
            Some((packet@[9], destination(packet@), destination_port(packet@)))
        } else {
            None
        },
        match r {
            Some((protocol, addr, port)) => {
                let h = (packet@[0] % 16) * 4;
                &&& protocol == packet@[9]
                &&& addr.bits as int / 0x100_0000 == packet@[16]
                &&& addr.bits as int / 0x1_0000 % 0x100 == packet@[17]
                &&& addr.bits as int / 0x100 % 0x100 == packet@[18]
                &&& addr.bits as int % 0x100 == packet@[19]
                &&& if (protocol == 6 || protocol == 17) && packet@.len() >= h + 4 {
                    port as int / 256 == packet@[h + 2] && port as int % 256 == packet@[h + 3]
                } else {
                    port == 0
                }
            },
            None => packet@.len() < 20 || packet@[0] / 16 != 4 || packet@[0] % 16 < 5
                || packet@.len() < (packet@[0] % 16) * 4,
        },
{
    if packet.len() < 20 {
        return None;
    }
    let first: u8 = packet[0];
    assert(first >> 4 == first / 16) by (bit_vector);
    assert(first & 0x0f == first % 16) by (bit_vector);
    if first >> 4 != 4 {
        return None;
    }
    let header_len: usize = ((first & 0x0f) as usize) * 4;
    if header_len < 20 || packet.len() < header_len {
        return None;
    }
    let protocol: u8 = packet[9];
    let addr = Ipv4Addr::new(packet[16], packet[17], packet[18], packet[19]);
    if (protocol != PROTOCOL_TCP && protocol != PROTOCOL_UDP) || packet.len() < header_len + 4 {
        return Some((protocol, addr, 0));
    }
    let port: u16 = (packet[header_len + 2] as u16) * 256 + packet[header_len + 3] as u16;
    Some((protocol, addr, port))
}

/// The question whether the service manages a flow.
#[derive(Debug, Clone, Copy, PartialEq, Eq, Structural)]
pub enum RouteQuery {
    Tcp(Endpoint),
    Udp(Endpoint),
}

/// What has to be asked about a packet: nothing about one that is no TCP or
/// UDP packet, or whose ports are cut off.
pub open spec fn query_of(packet: Seq<u8>) -> Option<RouteQuery> {
    if !has_ipv4_header(packet) || !has_ports(packet) {
        None
    } else {
        let target = Endpoint { addr: destination(packet), port: destination_port(packet) };
        if packet[9] == PROTOCOL_TCP {
            Some(RouteQuery::Tcp(target))
        } else {
            Some(RouteQuery::Udp(target))
        }
    }
}

/// Whether the ports of a packet with a full IPv4 header are there.
fn ports_present(packet: &[u8]) -> (r: bool)
    requires
        has_ipv4_header(packet@),
    ensures
        r == has_ports(packet@),
{
    let first: u8 = packet[0];
    assert(first & 0x0f == first % 16) by (bit_vector);
    let header_len: usize = ((first & 0x0f) as usize) * 4;
    let protocol: u8 = packet[9];
    (protocol == PROTOCOL_TCP || protocol == PROTOCOL_UDP) && packet.len() >= header_len + 4
}

/// What has to be asked about a packet before the stack can take it. The stack
/// takes no packet about which there is nothing to ask.
pub fn route_query(packet: &[u8]) -> (r: Option<RouteQuery>)
    ensures
        r == query_of(packet@),
{
    match ipv4_protocol_and_port(packet) {
        Some((protocol, addr, port)) => {
            let target = Endpoint { addr, port };
            if !ports_present(packet) {
                None
            } else if protocol == PROTOCOL_TCP {
                Some(RouteQuery::Tcp(target))
            } else {
                Some(RouteQuery::Udp(target))
            }
        },
        None => None,
    }
}

/// The target of a packet is the one that its octets spell: a packet into which
/// an address and a port were written, most significant octet first, is asked
/// about under that address and that port, whatever options its header has.
pub proof fn a_written_target_is_read_back(
    packet: Seq<u8>,
    words: int,
    addr: Ipv4Addr,
    port: u16,
)
    requires
        5 <= words <= 15,
        packet.len() >= 4 * words + 4,
        packet[0] == 64 + words,
        packet[9] == 6 || packet[9] == 17,
        packet[16] == addr.bits as int / 0x100_0000,
        packet[17] == addr.bits as int / 0x1_0000 % 0x100,
        packet[18] == addr.bits as int / 0x100 % 0x100,
        packet[19] == addr.bits as int % 0x100,
        packet[4 * words + 2] == port as int / 256,
        packet[4 * words + 3] == port as int % 256,
    ensures
        query_of(packet) == Some(
            if packet[9] == 6 {
                RouteQuery::Tcp(Endpoint { addr, port })
            } else {
                RouteQuery::Udp(Endpoint { addr, port })
            },
        ),
{
    assert(destination(packet).bits == addr.bits);
    assert(destination(packet) == addr);
    assert(destination_port(packet) == port);
}

/// Nothing but a packet with a full IPv4 header, TCP or UDP in it, and its
/// ports is asked about, and only its version, its header length, its
/// protocol, its destination and its destination port count: two packets that
/// agree on those are asked about alike.
pub proof fn a_query_depends_on_the_target_alone(a: Seq<u8>, b: Seq<u8>)
    requires
        a.len() >= 20,
        b.len() >= 20,
        a[0] == b[0],
        a[9] == b[9],
        a.subrange(16, 20) == b.subrange(16, 20),
        a.len() >= (a[0] % 16) * 4 + 4,
        b.len() >= (b[0] % 16) * 4 + 4,
        a[(a[0] % 16) * 4 + 2] == b[(b[0] % 16) * 4 + 2],
        a[(a[0] % 16) * 4 + 3] == b[(b[0] % 16) * 4 + 3],
    ensures
        query_of(a) == query_of(b),
        query_of(a) is Some <==> a[0] / 16 == 4 && a[0] % 16 >= 5 && (a[9] == 6 || a[9] == 17),
{
    assert(a.subrange(16, 20)[0] == a[16] && b.subrange(16, 20)[0] == b[16]);
    assert(a.subrange(16, 20)[1] == a[17] && b.subrange(16, 20)[1] == b[17]);
    assert(a.subrange(16, 20)[2] == a[18] && b.subrange(16, 20)[2] == b[18]);
    assert(a.subrange(16, 20)[3] == a[19] && b.subrange(16, 20)[3] == b[19]);
}

/// Whether a packet that was handed in spells a target behind a header of so
/// many words, in a protocol.
pub open spec fn spells_target(
    packet: Seq<u8>,
    words: int,
    protocol: u8,
    target: Endpoint,
) -> bool {
    &&& 5 <= words <= 15
    &&& packet.len() >= 4 * words + 4
    &&& packet[0] == 64 + words
    &&& packet[9] == protocol
    &&& packet[16] == target.addr.bits as int / 0x100_0000
    &&& packet[17] == target.addr.bits as int / 0x1_0000 % 0x100
    &&& packet[18] == target.addr.bits as int / 0x100 % 0x100
    &&& packet[19] == target.addr.bits as int % 0x100
    &&& packet[4 * words + 2] == target.port as int / 256
    &&& packet[4 * words + 3] == target.port as int % 256
}

/// Once a TCP packet of a managed flow was handed in, its target has a
/// listener, and the socket of that listener was told to listen on the target;
/// if the target had none, the socket listens now and is new. The listeners
/// that were there stay, no flow changes, and one packet more is counted. So
/// every managed connection is accepted, whatever its target.
pub proof fn a_managed_connection_is_listened_for(
    before: StackModel,
    after: StackModel,
    packet: Seq<u8>,
    words: int,
    target: Endpoint,
    fresh: SocketHandle,
)
    requires
        before.wf(),
        handed_in(before, after, packet, true, fresh),
        spells_target(packet, words, 6, target),
        target.port != 0,
    ensures
        exists|i: int|
            0 <= i < after.tcp_listeners.len() && (#[trigger] after.tcp_listeners[i]).target
                == target && after.sockets.dom().contains(after.tcp_listeners[i].handle)
                && after.sockets[after.tcp_listeners[i].handle] is Tcp
                && after.sockets[after.tcp_listeners[i].handle]->Tcp_0.listen == Some(target)
                && (before.tcp_listeners.contains(after.tcp_listeners[i])
                || after.sockets[after.tcp_listeners[i].handle]->Tcp_0.phase
                == sockets::TcpPhase::Listen),
        before.tcp_listeners.is_prefix_of(after.tcp_listeners),
        after.tcp_listeners.len() <= before.tcp_listeners.len() + 1,
        forall|i: int|
            0 <= i < before.tcp_listeners.len() && (#[trigger] before.tcp_listeners[i]).target
                == target ==> after.tcp_listeners == before.tcp_listeners && after.sockets
                == before.sockets,
        forall|h: SocketHandle| #[trigger]
            before.sockets.dom().contains(h) ==> after.sockets.dom().contains(h)
                && after.sockets[h] == before.sockets[h],
        after.tcp_flows == before.tcp_flows,
        after.udp_listeners == before.udp_listeners,
        after.udp_flows == before.udp_flows,
        after.stats.upload_bytes == before.stats.upload_bytes,
        after.stats.download_bytes == before.stats.download_bytes,
        after.stats.download_packets == before.stats.download_packets,
        after.stats.upload_packets == before.stats.upload_packets.wrapping_add(1),
{
    a_written_target_is_read_back(packet, words, target.addr, target.port);
    assert(target == (Endpoint { addr: target.addr, port: target.port }));
    tun_tcp::lemma_target_bounds(before.tcp_listeners, target);
    let i = tun_tcp::target_index(before.tcp_listeners, target);
    traffic::lemma_counted(before.stats.upload_packets, 0, 1);
    if i < before.tcp_listeners.len() {
        assert(sockets::is_tcp(before.sockets, before.tcp_listeners[i].handle));
        assert(after.tcp_listeners[i].target == target);
        assert(before.tcp_listeners.contains(after.tcp_listeners[i]));
    } else {
        let last = after.tcp_listeners.len() - 1;
        assert(after.tcp_listeners[last].target == target);
    }
    assert forall|k: int|
        0 <= k < before.tcp_listeners.len() && (#[trigger] before.tcp_listeners[k]).target
            == target implies after.tcp_listeners == before.tcp_listeners && after.sockets
        == before.sockets by {
        assert(i <= k);
    }
}

/// Once a UDP packet of a managed flow was handed in, its target has a
/// listener; if it had none, the socket of the listener is new and bound to the
/// target. The listeners that were there stay, no flow changes, and one packet
/// more is counted. Where every listener was bound to its target, so is every
/// one afterwards.
pub proof fn a_managed_datagram_is_listened_for(
    before: StackModel,
    after: StackModel,
    packet: Seq<u8>,
    words: int,
    target: Endpoint,
    fresh: SocketHandle,
)
    requires
        before.wf(),
        handed_in(before, after, packet, true, fresh),
        spells_target(packet, words, 17, target),
        target.port != 0,
    ensures
        exists|i: int|
            0 <= i < after.udp_listeners.len() && (#[trigger] after.udp_listeners[i]).target
                == target && after.sockets.dom().contains(after.udp_listeners[i].handle)
                && after.sockets[after.udp_listeners[i].handle] is Udp && (
            before.udp_listeners.contains(after.udp_listeners[i])
                || after.sockets[after.udp_listeners[i].handle]->Udp_0.bound == Some(target)),
        bound_to_targets(before) ==> bound_to_targets(after),
        before.udp_listeners.is_prefix_of(after.udp_listeners),
        after.udp_listeners.len() <= before.udp_listeners.len() + 1,
        forall|i: int|
            0 <= i < before.udp_listeners.len() && (#[trigger] before.udp_listeners[i]).target
                == target ==> after.udp_listeners == before.udp_listeners && after.sockets
                == before.sockets,
        forall|h: SocketHandle| #[trigger]
            before.sockets.dom().contains(h) ==> after.sockets.dom().contains(h)
                && after.sockets[h] == before.sockets[h],
        after.tcp_listeners == before.tcp_listeners,
        after.tcp_flows == before.tcp_flows,
        after.udp_flows == before.udp_flows,
        after.stats.upload_bytes == before.stats.upload_bytes,
        after.stats.download_bytes == before.stats.download_bytes,
        after.stats.download_packets == before.stats.download_packets,
        after.stats.upload_packets == before.stats.upload_packets.wrapping_add(1),
{
    a_written_target_is_read_back(packet, words, target.addr, target.port);
    assert(target == (Endpoint { addr: target.addr, port: target.port }));
    tun_tcp::lemma_target_bounds(before.udp_listeners, target);
    let i = tun_tcp::target_index(before.udp_listeners, target);
    traffic::lemma_counted(before.stats.upload_packets, 0, 1);
    if i < before.udp_listeners.len() {
        assert(sockets::is_udp(before.sockets, before.udp_listeners[i].handle));
        assert(after.udp_listeners[i].target == target);
        assert(before.udp_listeners.contains(after.udp_listeners[i]));
    } else {
        let last = after.udp_listeners.len() - 1;
        assert(after.udp_listeners[last].target == target);
        assert forall|k: int| 0 <= k < before.udp_listeners.len() implies sockets::is_udp(
            before.sockets,
            (#[trigger] before.udp_listeners[k]).handle,
        ) && after.sockets[before.udp_listeners[k].handle]
            == before.sockets[before.udp_listeners[k].handle] by {}
    }
    assert forall|k: int|
        0 <= k < before.udp_listeners.len() && (#[trigger] before.udp_listeners[k]).target
            == target implies after.udp_listeners == before.udp_listeners && after.sockets
        == before.sockets by {
        assert(i <= k);
    }
    if bound_to_targets(before) {
        assert forall|k: int| 0 <= k < after.udp_listeners.len() implies sockets::udp_at(
            after.sockets,
            (#[trigger] after.udp_listeners[k]).handle,
        ).bound == Some(after.udp_listeners[k].target) by {
            if k < before.udp_listeners.len() {
                assert(after.udp_listeners[k] == before.udp_listeners[k]);
                assert(sockets::is_udp(before.sockets, before.udp_listeners[k].handle));
            }
        }
    }
}

proof fn lemma_stays_bound(
    before: StackModel,
    after: StackModel,
    packet: Seq<u8>,
    managed: bool,
    fresh: SocketHandle,
)
    requires
        before.wf(),
        handed_in(before, after, packet, managed, fresh),
        bound_to_targets(before),
    ensures
        bound_to_targets(after),
{
    assert forall|k: int| 0 <= k < after.udp_listeners.len() implies sockets::udp_at(
        after.sockets,
        (#[trigger] after.udp_listeners[k]).handle,
    ).bound == Some(after.udp_listeners[k].target) by {
        if k < before.udp_listeners.len() {
            assert(after.udp_listeners[k] == before.udp_listeners[k]);
            assert(sockets::is_udp(before.sockets, before.udp_listeners[k].handle));
        }
    }
}

/// A packet of a flow that is not managed, and one about which there is
/// nothing to ask, change nothing.
pub proof fn other_packets_take_the_raw_path(
    before: StackModel,
    after: StackModel,
    packet: Seq<u8>,
    managed: bool,
    fresh: SocketHandle,
)
    requires
        handed_in(before, after, packet, managed, fresh),
        !managed || packet.len() < 20 || packet[0] / 16 != 4 || (packet[9] != 6 && packet[9] != 17),
    ensures
        after == before,
{
}

/// A TCP or UDP packet whose ports are cut off is never taken as part of a
/// flow, whatever the service manages.
pub proof fn a_cut_off_packet_is_not_claimed(
    before: StackModel,
    after: StackModel,
    packet: Seq<u8>,
    managed: bool,
    fresh: SocketHandle,
)
    requires
        has_ipv4_header(packet),
        !has_ports(packet),
        handed_in(before, after, packet, managed, fresh),
    ensures
        query_of(packet) is None,
        after == before,
{
}

// ---------------------------------------------------------------------------
// The stack
// ---------------------------------------------------------------------------

/// The sockets of the stack, its listeners and flows, and its counters.
///
/// Between the rounds the owner of the device lets `smoltcp` work on the
/// sockets; that neither adds nor removes sockets, nor changes their kind or
/// what they were told to listen on.
pub struct TransportStack {
    pub sockets: SocketSet<'static>,
    pub tcp_listeners: Vec<Listener>,
    pub tcp_flows: Vec<TcpFlow>,
    pub udp_listeners: Vec<Listener>,
    pub udp_flows: Vec<UdpFlow>,
    pub stats: VpnEngineTrafficStats,
}

/// What a stack holds.
#[verifier::ext_equal]
pub struct StackModel {
    pub sockets: Map<SocketHandle, SocketModel>,
    pub tcp_listeners: Seq<Listener>,
    pub tcp_flows: Seq<tun_tcp::FlowModel>,
    pub udp_listeners: Seq<Listener>,
    pub udp_flows: Seq<tun_udp::FlowModel>,
    pub stats: VpnEngineTrafficStats,
}

impl View for TransportStack {
    type V = StackModel;

    open spec fn view(&self) -> StackModel {
        StackModel {
            sockets: sockets::socket_contents(self.sockets),
            tcp_listeners: self.tcp_listeners@,
            tcp_flows: tun_tcp::flow_models(self.tcp_flows@),
            udp_listeners: self.udp_listeners@,
            udp_flows: tun_udp::flow_models(self.udp_flows@),
            stats: self.stats,
        }
    }
}

impl StackModel {
    /// Listeners and flows fit the sockets, and the flows are within their
    /// limits.
    pub open spec fn wf(self) -> bool {
        &&& tun_tcp::tcp_wf(self.sockets, self.tcp_listeners, self.tcp_flows)
        &&& tun_udp::udp_wf(self.sockets, self.udp_listeners)
        &&& tun_udp::flows_wf(self.udp_flows)
    }
}

/// Whether the socket of every UDP listener is bound to its target.
pub open spec fn bound_to_targets(s: StackModel) -> bool {
    forall|i: int|
        0 <= i < s.udp_listeners.len() ==> sockets::udp_at(
            s.sockets,
            (#[trigger] s.udp_listeners[i]).handle,
        ).bound == Some(s.udp_listeners[i].target)
}

/// A stack with an upload packet more.
pub open spec fn packet_counted(s: StackModel) -> StackModel {
    StackModel {
        stats: VpnEngineTrafficStats {
            upload_packets: traffic::counted(s.stats.upload_packets, 1),
            ..s.stats
        },
        ..s
    }
}

/// The stack after it took a packet of a managed flow. Where the target needs
/// a listener, its socket gets the handle `fresh`.
pub open spec fn taken_in(s: StackModel, query: RouteQuery, fresh: SocketHandle) -> StackModel {
    match query {
        RouteQuery::Tcp(target) => packet_counted(
            StackModel {
                sockets: tun_tcp::listen_sockets(s.sockets, s.tcp_listeners, target, fresh),
                tcp_listeners: tun_tcp::listen_listeners(s.tcp_listeners, target, fresh),
                ..s
            },
        ),
        RouteQuery::Udp(target) => packet_counted(
            if tun_tcp::wants_listener(s.udp_listeners, target) {
                StackModel {
                    sockets: s.sockets.insert(fresh, SocketModel::Udp(tun_udp::bound(target))),
                    udp_listeners: s.udp_listeners.push(Listener { target, handle: fresh }),
                    ..s
                }
            } else {
                s
            },
        ),
    }
}

/// Whether a packet of a managed flow makes a new listener.
pub open spec fn adds_listener(s: StackModel, query: RouteQuery) -> bool {
    match query {
        RouteQuery::Tcp(target) => tun_tcp::wants_listener(s.tcp_listeners, target),
        RouteQuery::Udp(target) => tun_tcp::wants_listener(s.udp_listeners, target),
    }
}

/// The stack after a packet was handed in. Only packets of managed flows are
/// taken.
pub open spec fn handed_in(
    before: StackModel,
    after: StackModel,
    packet: Seq<u8>,
    managed: bool,
    fresh: SocketHandle,
) -> bool {
    match query_of(packet) {
        Some(query) => if managed {
            &&& adds_listener(before, query) ==> !before.sockets.dom().contains(fresh)
            &&& after == taken_in(before, query, fresh)
        } else {
            after == before
        },
        None => after == before,
    }
}

/// The TCP half of a stack.
pub open spec fn tcp_half(
    s: StackModel,
    all: Map<SocketHandle, SocketModel>,
    actions: Seq<tun_tcp::ActionModel>,
    stats: VpnEngineTrafficStats,
) -> tun_tcp::TcpStack {
    tun_tcp::TcpStack {
        sockets: all,
        listeners: s.tcp_listeners,
        flows: s.tcp_flows,
        actions,
        stats,
    }
}

/// The books of the UDP half before a round.
pub open spec fn udp_books(s: StackModel) -> tun_udp::UdpBooks {
    tun_udp::UdpBooks { flows: s.udp_flows, actions: Seq::empty(), down: 0 }
}

/// A round of the stack: first a round of the TCP half, which leaves the
/// sockets `mid` and the counters `count`, then a round of the UDP half.
pub open spec fn stack_round(
    before: StackModel,
    after: StackModel,
    tcp_actions: Seq<tun_tcp::ActionModel>,
    udp_actions: Seq<tun_udp::ActionModel>,
    mid: Map<SocketHandle, SocketModel>,
    count: VpnEngineTrafficStats,
    handles: Seq<SocketHandle>,
    fresh: Seq<SocketHandle>,
) -> bool {
    let turns = tun_udp::udp_turns(udp_books(before), before.udp_listeners, before.sockets);
    &&& tun_tcp::tcp_round(
        tcp_half(before, before.sockets, Seq::empty(), before.stats),
        tcp_half(after, mid, tcp_actions, count),
        handles,
        fresh,
    )
    &&& after.udp_listeners == before.udp_listeners
    &&& after.udp_flows == turns.flows
    &&& udp_actions == turns.actions
    &&& after.stats == (VpnEngineTrafficStats {
        download_bytes: traffic::counted(count.download_bytes, turns.down),
        ..count
    })
    &&& after.sockets.dom() == mid.dom()
    &&& forall|i: int|
        0 <= i < before.udp_listeners.len() ==> exists|accepted: Seq<bool>| #[trigger]
            tun_udp::exchanged(
                sockets::udp_at(before.sockets, (#[trigger] before.udp_listeners[i]).handle),
                sockets::udp_at(after.sockets, before.udp_listeners[i].handle),
                tun_udp::all_offers(
                    before.udp_flows,
                    before.udp_listeners[i].handle,
                    before.udp_flows.len(),
                ),
                accepted,
            )
    &&& forall|h: SocketHandle|
        mid.dom().contains(h) && (forall|i: int|
            0 <= i < before.udp_listeners.len() ==> (#[trigger] before.udp_listeners[i]).handle
                != h) ==> (#[trigger] after.sockets[h]) == mid[h]
}

/// The sockets of the TCP flows with an open tunnel.
pub open spec fn tcp_tunnels(flows: Seq<tun_tcp::FlowModel>) -> Seq<SocketHandle>
    decreases flows.len(),
{
    if flows.len() == 0 {
        Seq::empty()
    } else if flows.last().connection == Connection::Connected {
        tcp_tunnels(flows.drop_last()).push(flows.last().handle)
    } else {
        tcp_tunnels(flows.drop_last())
    }
}

/// The sockets and peers of the UDP flows with an open tunnel.
pub open spec fn udp_tunnels(flows: Seq<tun_udp::FlowModel>) -> Seq<(SocketHandle, Endpoint)>
    decreases flows.len(),
{
    if flows.len() == 0 {
        Seq::empty()
    } else if flows.last().connection == Connection::Connected {
        udp_tunnels(flows.drop_last()).push((flows.last().handle, flows.last().peer))
    } else {
        udp_tunnels(flows.drop_last())
    }
}

proof fn lemma_udp_turns_same(
    b: tun_udp::UdpBooks,
    listeners: Seq<Listener>,
    x: Map<SocketHandle, SocketModel>,
    y: Map<SocketHandle, SocketModel>,
)
    requires
        forall|i: int|
            0 <= i < listeners.len() ==> x[(#[trigger] listeners[i]).handle]
                == y[listeners[i].handle],
    ensures
        tun_udp::udp_turns(b, listeners, x) == tun_udp::udp_turns(b, listeners, y),
    decreases listeners.len(),
{
    if listeners.len() > 0 {
        let fewer = listeners.drop_last();
        assert forall|i: int| 0 <= i < fewer.len() implies x[(#[trigger] fewer[i]).handle]
            == y[fewer[i].handle] by {
            assert(fewer[i] == listeners[i]);
        }
        assert(listeners.last() == listeners[listeners.len() - 1]);
        lemma_udp_turns_same(b, fewer, x, y);
    }
}

/// A round of the TCP half leaves the sockets of UDP listeners alone.
proof fn lemma_udp_untouched(
    before: StackModel,
    after: tun_tcp::TcpStack,
    handles: Seq<SocketHandle>,
    fresh: Seq<SocketHandle>,
)
    requires
        before.wf(),
        tun_tcp::tcp_round(
            tcp_half(before, before.sockets, Seq::empty(), before.stats),
            after,
            handles,
            fresh,
        ),
    ensures
        forall|i: int|
            0 <= i < before.udp_listeners.len() ==> after.sockets.dom().contains(
                (#[trigger] before.udp_listeners[i]).handle,
            ) && after.sockets[before.udp_listeners[i].handle]
                == before.sockets[before.udp_listeners[i].handle],
{
    let half = tcp_half(before, before.sockets, Seq::empty(), before.stats);
    assert forall|i: int| 0 <= i < before.udp_listeners.len() implies after.sockets.dom().contains(
        (#[trigger] before.udp_listeners[i]).handle,
    ) && after.sockets[before.udp_listeners[i].handle]
        == before.sockets[before.udp_listeners[i].handle] by {
        let h = before.udp_listeners[i].handle;
        assert(sockets::is_udp(before.sockets, h));
        assert(!tun_tcp::in_use(half, h)) by {
            assert forall|k: int| 0 <= k < half.listeners.len() implies (
            #[trigger] half.listeners[k]).handle != h by {
                assert(sockets::is_tcp(before.sockets, half.listeners[k].handle));
            }
            assert forall|k: int| 0 <= k < half.flows.len() implies (
            #[trigger] half.flows[k]).handle != h by {
                assert(sockets::is_tcp(before.sockets, half.flows[k].handle));
            }
        }
        tun_tcp::a_round_leaves_other_sockets_alone(half, after, handles, fresh, h);
    }
}

impl TransportStack {
    /// A stack without sockets.
    pub fn new() -> (r: TransportStack)
        ensures
            sockets::socket_limit(r.sockets) is None,
            r@.wf(),
            bound_to_targets(r@),
            r@.sockets == sockets::no_sockets(),
            r@.tcp_listeners.len() == 0,
            r@.tcp_flows.len() == 0,
            r@.udp_listeners.len() == 0,
            r@.udp_flows.len() == 0,
            r.stats.upload_bytes == 0,
            r.stats.download_bytes == 0,
            r.stats.upload_packets == 0,
            r.stats.download_packets == 0,
    {
        TransportStack {
            sockets: new_socket_set(),
            tcp_listeners: Vec::new(),
            tcp_flows: Vec::new(),
            udp_listeners: Vec::new(),
            udp_flows: Vec::new(),
            stats: VpnEngineTrafficStats::default(),
        }
    }

    /// Hands a packet in and says whether the stack takes it. `managed`
    /// answers the query of the packet. For a packet that it takes, the stack
    /// makes sure that its target has a listener, and counts it.
    pub fn hand_in(&mut self, packet: &[u8], managed: bool) -> (taken: bool)
        requires
            sockets::socket_limit(old(self).sockets) is None,
            old(self)@.wf(),
        ensures
            sockets::socket_limit(final(self).sockets) is None,
            final(self)@.wf(),
            taken == (managed && query_of(packet@) is Some),
            exists|fresh: SocketHandle| #[trigger]
                handed_in(old(self)@, final(self)@, packet@, managed, fresh),
            forall|words: int, target: Endpoint| #[trigger]
                spells_target(packet@, words, 6, target) && managed && target.port != 0 ==> taken
                    && exists|i: int|
                    0 <= i < final(self).tcp_listeners@.len() && (
                    #[trigger] final(self).tcp_listeners@[i]).target == target && sockets::tcp_at(
                        final(self)@.sockets,
                        final(self).tcp_listeners@[i].handle,
                    ).listen == Some(target),
            forall|words: int, target: Endpoint| #[trigger]
                spells_target(packet@, words, 17, target) && managed && target.port != 0 ==> taken
                    && exists|i: int|
                    0 <= i < final(self).udp_listeners@.len() && (
                    #[trigger] final(self).udp_listeners@[i]).target == target,
            bound_to_targets(old(self)@) ==> bound_to_targets(final(self)@),
    {
        let taken = self.take_in(packet, managed);
        proof {
            let before = old(self)@;
            let after = self@;
            let fresh = choose|fresh: SocketHandle| #[trigger]
                handed_in(before, after, packet@, managed, fresh);
            assert forall|words: int, target: Endpoint| #[trigger]
                spells_target(packet@, words, 6, target) && managed && target.port
                    != 0 implies taken && exists|i: int|
                0 <= i < after.tcp_listeners.len() && (#[trigger] after.tcp_listeners[i]).target
                    == target && sockets::tcp_at(
                    after.sockets,
                    after.tcp_listeners[i].handle,
                ).listen == Some(target) by {
                a_written_target_is_read_back(packet@, words, target.addr, target.port);
                a_managed_connection_is_listened_for(
                    before,
                    after,
                    packet@,
                    words,
                    target,
                    fresh,
                );
            }
            assert forall|words: int, target: Endpoint| #[trigger]
                spells_target(packet@, words, 17, target) && managed && target.port
                    != 0 implies taken && exists|i: int|
                0 <= i < after.udp_listeners.len() && (#[trigger] after.udp_listeners[i]).target
                    == target by {
                a_written_target_is_read_back(packet@, words, target.addr, target.port);
                a_managed_datagram_is_listened_for(before, after, packet@, words, target, fresh);
            }
            if bound_to_targets(before) {
                lemma_stays_bound(before, after, packet@, managed, fresh);
            }
        }
        taken
    }

    fn take_in(&mut self, packet: &[u8], managed: bool) -> (taken: bool)
        requires
            sockets::socket_limit(old(self).sockets) is None,
            old(self)@.wf(),
        ensures
            sockets::socket_limit(final(self).sockets) is None,
            final(self)@.wf(),
            taken == (managed && query_of(packet@) is Some),
            exists|fresh: SocketHandle| #[trigger]
                handed_in(old(self)@, final(self)@, packet@, managed, fresh),
    {
        let ghost before = self@;
        match route_query(packet) {
            Some(query) => {
                if !managed {
                    assert(handed_in(before, self@, packet@, managed, arbitrary()));
                    return false;
                }
                match query {
                    RouteQuery::Tcp(target) => {
                        ensure_tcp_listener(&mut self.sockets, &mut self.tcp_listeners, target);
                        self.stats.add_upload_packet();
                        proof {
                            let fresh = self.tcp_listeners@.last().handle;
                            tun_tcp::lemma_target_bounds(before.tcp_listeners, target);
                            assert(self@ =~= taken_in(before, query, fresh));
                            assert(handed_in(before, self@, packet@, managed, fresh));
                        }
                    },
                    RouteQuery::Udp(target) => {
                        ensure_udp_listener(&mut self.sockets, &mut self.udp_listeners, target);
                        self.stats.add_upload_packet();
                        proof {
                            let fresh = self.udp_listeners@.last().handle;
                            assert(self@ =~= taken_in(before, query, fresh));
                            assert(handed_in(before, self@, packet@, managed, fresh));
                        }
                    },
                }
                true
            },
            None => {
                assert(handed_in(before, self@, packet@, managed, arbitrary()));
                false
            },
        }
    }

    /// One round of the stack. The caller carries out the actions and reports
    /// what came of them.
    pub fn round(&mut self) -> (r: (Vec<TcpAction>, Vec<UdpAction>))
        requires
            sockets::socket_limit(old(self).sockets) is None,
            old(self)@.wf(),
        ensures
            sockets::socket_limit(final(self).sockets) is None,
            final(self)@.wf(),
            exists|
                mid: Map<SocketHandle, SocketModel>,
                count: VpnEngineTrafficStats,
                handles: Seq<SocketHandle>,
                fresh: Seq<SocketHandle>,
            | #[trigger]
                stack_round(
                    old(self)@,
                    final(self)@,
                    tun_tcp::action_models(r.0@),
                    tun_udp::action_models(r.1@),
                    mid,
                    count,
                    handles,
                    fresh,
                ),
    {
        let ghost before = self@;
        let ghost half = tcp_half(before, before.sockets, Seq::empty(), before.stats);
        let tcp_actions = process_tcp(
            &mut self.sockets,
            &mut self.tcp_listeners,
            &mut self.tcp_flows,
            &mut self.stats,
        );
        let ghost middle = self@;
        let ghost done = tcp_half(
            middle,
            middle.sockets,
            tun_tcp::action_models(tcp_actions@),
            middle.stats,
        );
        proof {
            assert(tun_tcp::action_models(Seq::<TcpAction>::empty()) =~= Seq::<
                tun_tcp::ActionModel,
            >::empty());
        }
        let ghost (handles, fresh) = choose|
            handles: Seq<SocketHandle>,
            fresh: Seq<SocketHandle>,
        | #[trigger] tun_tcp::tcp_round(half, done, handles, fresh);
        proof {
            assert(tun_tcp::tcp_round(half, done, handles, fresh));
            lemma_udp_untouched(before, done, handles, fresh);
            assert forall|i: int| 0 <= i < middle.udp_listeners.len() implies sockets::is_udp(
                middle.sockets,
                (#[trigger] middle.udp_listeners[i]).handle,
            ) by {
                assert(sockets::is_udp(before.sockets, before.udp_listeners[i].handle));
            }
            lemma_udp_turns_same(
                udp_books(before),
                before.udp_listeners,
                before.sockets,
                middle.sockets,
            );
            tun_udp::a_round_keeps_the_limits(
                udp_books(before),
                before.udp_listeners,
                before.sockets,
            );
        }
        let udp_actions = process_udp(
            &mut self.sockets,
            &self.udp_listeners,
            &mut self.udp_flows,
            &mut self.stats,
        );
        proof {
            let after = self@;
            assert forall|h: SocketHandle| sockets::is_tcp(middle.sockets, h) implies
                #[trigger] sockets::is_tcp(after.sockets, h) by {
                assert forall|i: int| 0 <= i < middle.udp_listeners.len() implies (
                #[trigger] middle.udp_listeners[i]).handle != h by {
                    assert(sockets::is_udp(middle.sockets, middle.udp_listeners[i].handle));
                }
                assert(after.sockets[h] == middle.sockets[h]);
            }
        }
        let r = (tcp_actions, udp_actions);
        assert(stack_round(
            old(self)@,
            self@,
            tun_tcp::action_models(r.0@),
            tun_udp::action_models(r.1@),
            middle.sockets,
            middle.stats,
            handles,
            fresh,
        ));
        r
    }

    /// Reports what came of opening the tunnel of a TCP flow. A flow that is
    /// gone by then is passed over.
    pub fn tcp_outcome(&mut self, handle: SocketHandle, outcome: ConnectOutcome)
        ensures
            sockets::socket_limit(final(self).sockets) == sockets::socket_limit(old(self).sockets),
            old(self)@.wf() ==> final(self)@.wf(),
            ({
                let i = tun_tcp::flow_index(old(self)@.tcp_flows, handle);
                final(self)@ == if i < old(self)@.tcp_flows.len() {
                    StackModel {
                        tcp_flows: old(self)@.tcp_flows.update(
                            i,
                            tun_tcp::FlowModel {
                                outcome: Some(outcome),
                                ..old(self)@.tcp_flows[i]
                            },
                        ),
                        ..old(self)@
                    }
                } else {
                    old(self)@
                }
            }),
    {
        let ghost before = self@;
        let i = find_tcp_flow(&self.tcp_flows, handle);
        if i < self.tcp_flows.len() {
            self.tcp_flows[i].outcome = Some(outcome);
            assert(self@.tcp_flows =~= before.tcp_flows.update(
                i as int,
                tun_tcp::FlowModel { outcome: Some(outcome), ..before.tcp_flows[i as int] },
            ));
        }
    }

    /// Hands in what the tunnel of a TCP flow delivered.
    pub fn tcp_incoming(&mut self, handle: SocketHandle, data: Vec<u8>)
        ensures
            sockets::socket_limit(final(self).sockets) == sockets::socket_limit(old(self).sockets),
            old(self)@.wf() ==> final(self)@.wf(),
            ({
                let i = tun_tcp::flow_index(old(self)@.tcp_flows, handle);
                final(self)@ == if i < old(self)@.tcp_flows.len() {
                    StackModel {
                        tcp_flows: old(self)@.tcp_flows.update(
                            i,
                            tun_tcp::FlowModel {
                                incoming: old(self)@.tcp_flows[i].incoming.push(data@),
                                ..old(self)@.tcp_flows[i]
                            },
                        ),
                        ..old(self)@
                    }
                } else {
                    old(self)@
                }
            }),
    {
        let ghost before = self@;
        let i = find_tcp_flow(&self.tcp_flows, handle);
        if i < self.tcp_flows.len() {
            let ghost queue = tun_tcp::chunks(self.tcp_flows@[i as int].incoming@);
            self.tcp_flows[i].incoming.push(data);
            assert(tun_tcp::chunks(self.tcp_flows@[i as int].incoming@) =~= queue.push(data@));
            assert(self@.tcp_flows =~= before.tcp_flows.update(
                i as int,
                tun_tcp::FlowModel {
                    incoming: before.tcp_flows[i as int].incoming.push(data@),
                    ..before.tcp_flows[i as int]
                },
            ));
        }
    }

    /// Reports what came of opening the tunnel of a UDP flow.
    pub fn udp_outcome(&mut self, handle: SocketHandle, peer: Endpoint, outcome: ConnectOutcome)
        ensures
            sockets::socket_limit(final(self).sockets) == sockets::socket_limit(old(self).sockets),
            old(self)@.wf() ==> final(self)@.wf(),
            ({
                let i = tun_udp::flow_index(old(self)@.udp_flows, handle, peer);
                final(self)@ == if i < old(self)@.udp_flows.len() {
                    StackModel {
                        udp_flows: old(self)@.udp_flows.update(
                            i,
                            tun_udp::FlowModel {
                                outcome: Some(outcome),
                                ..old(self)@.udp_flows[i]
                            },
                        ),
                        ..old(self)@
                    }
                } else {
                    old(self)@
                }
            }),
    {
        let ghost before = self@;
        let i = find_udp_flow(&self.udp_flows, handle, peer);
        if i < self.udp_flows.len() {
            self.udp_flows[i].outcome = Some(outcome);
            assert(self@.udp_flows =~= before.udp_flows.update(
                i as int,
                tun_udp::FlowModel { outcome: Some(outcome), ..before.udp_flows[i as int] },
            ));
        }
    }

    /// Hands in what the tunnel of a UDP flow delivered.
    pub fn udp_incoming(&mut self, handle: SocketHandle, peer: Endpoint, data: Vec<u8>)
        ensures
            sockets::socket_limit(final(self).sockets) == sockets::socket_limit(old(self).sockets),
            old(self)@.wf() ==> final(self)@.wf(),
            ({
                let i = tun_udp::flow_index(old(self)@.udp_flows, handle, peer);
                final(self)@ == if i < old(self)@.udp_flows.len() {
                    StackModel {
                        udp_flows: old(self)@.udp_flows.update(
                            i,
                            tun_udp::FlowModel {
                                incoming: old(self)@.udp_flows[i].incoming.push(data@),
                                ..old(self)@.udp_flows[i]
                            },
                        ),
                        ..old(self)@
                    }
                } else {
                    old(self)@
                }
            }),
    {
        let ghost before = self@;
        let i = find_udp_flow(&self.udp_flows, handle, peer);
        if i < self.udp_flows.len() {
            let ghost queue = tun_tcp::chunks(self.udp_flows@[i as int].incoming@);
            self.udp_flows[i].incoming.push(data);
            assert(tun_tcp::chunks(self.udp_flows@[i as int].incoming@) =~= queue.push(data@));
            assert(self@.udp_flows =~= before.udp_flows.update(
                i as int,
                tun_udp::FlowModel {
                    incoming: before.udp_flows[i as int].incoming.push(data@),
                    ..before.udp_flows[i as int]
                },
            ));
        }
    }

    /// Reports that octets were written to the tunnel of a UDP flow.
    pub fn udp_written(&mut self, n: usize)
        ensures
            sockets::socket_limit(final(self).sockets) == sockets::socket_limit(old(self).sockets),
            final(self)@ == (StackModel {
                stats: VpnEngineTrafficStats {
                    upload_bytes: traffic::counted(old(self).stats.upload_bytes, n as nat),
                    ..old(self).stats
                },
                ..old(self)@
            }),
    {
        self.stats.add_upload_bytes(n);
    }

    /// Closes every flow and names the open tunnels, which are to be closed.
    pub fn shutdown(&mut self) -> (r: (Vec<SocketHandle>, Vec<(SocketHandle, Endpoint)>))
        ensures
            r.0@ == tcp_tunnels(old(self)@.tcp_flows),
            r.1@ == udp_tunnels(old(self)@.udp_flows),
            final(self)@ == (StackModel {
                tcp_flows: old(self)@.tcp_flows.map_values(
                    |f: tun_tcp::FlowModel| tun_tcp::FlowModel { closed: true, ..f },
                ),
                udp_flows: old(self)@.udp_flows.map_values(
                    |f: tun_udp::FlowModel| tun_udp::FlowModel { closed: true, ..f },
                ),
                ..old(self)@
            }),
    {
        let ghost before = self@;
        let ghost tcp_closed = before.tcp_flows.map_values(
            |f: tun_tcp::FlowModel| tun_tcp::FlowModel { closed: true, ..f },
        );
        let ghost udp_closed = before.udp_flows.map_values(
            |f: tun_udp::FlowModel| tun_udp::FlowModel { closed: true, ..f },
        );
        let mut tcp: Vec<SocketHandle> = Vec::new();
        let mut udp: Vec<(SocketHandle, Endpoint)> = Vec::new();
        let mut i: usize = 0;
        assert(before.tcp_flows.take(0) =~= Seq::<tun_tcp::FlowModel>::empty());
        while i < self.tcp_flows.len()
            invariant
                i <= self.tcp_flows.len(),
                self.tcp_flows@.len() == before.tcp_flows.len(),
                tcp_closed.len() == before.tcp_flows.len(),
                forall|k: int| #![trigger tcp_closed[k]]
                    0 <= k < before.tcp_flows.len() ==> tcp_closed[k] == (tun_tcp::FlowModel {
                        closed: true,
                        ..before.tcp_flows[k]
                    }),
                self@ == (StackModel {
                    tcp_flows: tcp_closed.take(i as int) + before.tcp_flows.skip(i as int),
                    ..before
                }),
                tcp@ == tcp_tunnels(before.tcp_flows.take(i as int)),
            decreases self.tcp_flows.len() - i,
        {
            let ghost was = self@;
            let ghost one = before.tcp_flows.take(i + 1);
            proof {
                assert(was.tcp_flows[i as int] == before.tcp_flows[i as int]);
                assert(one.drop_last() =~= before.tcp_flows.take(i as int));
                assert(one.last() == before.tcp_flows[i as int]);
            }
            if self.tcp_flows[i].connection == Connection::Connected {
                tcp.push(self.tcp_flows[i].handle);
            }
            self.tcp_flows[i].closed = true;
            proof {
                assert(self.tcp_flows@[i as int]@ == tcp_closed[i as int]);
                assert(self@.tcp_flows =~= was.tcp_flows.update(i as int, tcp_closed[i as int]));
                assert(self@.tcp_flows =~= tcp_closed.take(i + 1) + before.tcp_flows.skip(i + 1));
            }
            i = i + 1;
        }
        proof {
            assert(before.tcp_flows.take(i as int) =~= before.tcp_flows);
            assert(tcp_closed.take(i as int) + before.tcp_flows.skip(i as int) =~= tcp_closed);
            assert(before.udp_flows.take(0) =~= Seq::<tun_udp::FlowModel>::empty());
        }
        let mut j: usize = 0;
        while j < self.udp_flows.len()
            invariant
                j <= self.udp_flows.len(),
                self.udp_flows@.len() == before.udp_flows.len(),
                udp_closed.len() == before.udp_flows.len(),
                forall|k: int| #![trigger udp_closed[k]]
                    0 <= k < before.udp_flows.len() ==> udp_closed[k] == (tun_udp::FlowModel {
                        closed: true,
                        ..before.udp_flows[k]
                    }),
                self@ == (StackModel {
                    tcp_flows: tcp_closed,
                    udp_flows: udp_closed.take(j as int) + before.udp_flows.skip(j as int),
                    ..before
                }),
                udp@ == udp_tunnels(before.udp_flows.take(j as int)),
            decreases self.udp_flows.len() - j,
        {
            let ghost was = self@;
            let ghost one = before.udp_flows.take(j + 1);
            proof {
                assert(was.udp_flows[j as int] == before.udp_flows[j as int]);
                assert(one.drop_last() =~= before.udp_flows.take(j as int));
                assert(one.last() == before.udp_flows[j as int]);
            }
            if self.udp_flows[j].connection == Connection::Connected {
                udp.push((self.udp_flows[j].handle, self.udp_flows[j].peer));
            }
            self.udp_flows[j].closed = true;
            proof {
                assert(self.udp_flows@[j as int]@ == udp_closed[j as int]);
                assert(self@.udp_flows =~= was.udp_flows.update(j as int, udp_closed[j as int]));
                assert(self@.udp_flows =~= udp_closed.take(j + 1) + before.udp_flows.skip(j + 1));
            }
            j = j + 1;
        }
        proof {
            assert(before.udp_flows.take(j as int) =~= before.udp_flows);
            assert(udp_closed.take(j as int) + before.udp_flows.skip(j as int) =~= udp_closed);
        }
        (tcp, udp)
    }
}

/// A managed packet to the port zero is taken and counted, and gets no
/// listener.
pub proof fn nothing_listens_on_the_port_zero(
    before: StackModel,
    after: StackModel,
    packet: Seq<u8>,
    words: int,
    protocol: u8,
    target: Endpoint,
    fresh: SocketHandle,
)
    requires
        handed_in(before, after, packet, true, fresh),
        protocol == 6 || protocol == 17,
        spells_target(packet, words, protocol, target),
        target.port == 0,
    ensures
        after.sockets == before.sockets,
        after.tcp_listeners == before.tcp_listeners,
        after.udp_listeners == before.udp_listeners,
        after.tcp_flows == before.tcp_flows,
        after.udp_flows == before.udp_flows,
        after.stats == (VpnEngineTrafficStats {
            upload_packets: before.stats.upload_packets.wrapping_add(1),
            ..before.stats
        }),
{
    a_written_target_is_read_back(packet, words, target.addr, target.port);
    assert(target == (Endpoint { addr: target.addr, port: target.port }));
    traffic::lemma_counted(before.stats.upload_packets, 0, 1);
}

/// A packet whose header is shorter than it may be, or longer than the packet,
/// is never taken.
pub proof fn a_packet_without_its_header_is_not_taken(
    before: StackModel,
    after: StackModel,
    packet: Seq<u8>,
    managed: bool,
    fresh: SocketHandle,
)
    requires
        handed_in(before, after, packet, managed, fresh),
        packet.len() >= 20,
        packet[0] % 16 < 5 || packet.len() < 4 * (packet[0] % 16),
    ensures
        query_of(packet) is None,
        after == before,
{
}

/// A shutdown names the socket of every TCP flow with an open tunnel, and no
/// other.
pub proof fn every_open_connection_is_named(flows: Seq<tun_tcp::FlowModel>, i: int, k: int)
    ensures
        0 <= i < flows.len() && flows[i].connection == Connection::Connected ==> tcp_tunnels(
            flows,
        ).contains(flows[i].handle),
        0 <= k < tcp_tunnels(flows).len() ==> exists|j: int|
            0 <= j < flows.len() && (#[trigger] flows[j]).connection == Connection::Connected
                && tcp_tunnels(flows)[k] == flows[j].handle,
    decreases flows.len(),
{
    if flows.len() > 0 {
        let fewer = flows.drop_last();
        let t = tcp_tunnels(fewer);
        let all = tcp_tunnels(flows);
        every_open_connection_is_named(fewer, i, k);
        if 0 <= i < flows.len() && flows[i].connection == Connection::Connected {
            let x = flows[i].handle;
            if i < fewer.len() {
                assert(fewer[i] == flows[i]);
                let m = choose|m: int| 0 <= m < t.len() && t[m] == x;
                assert(all[m] == x);
            } else {
                assert(all[t.len() as int] == x);
            }
        }
        if 0 <= k < all.len() {
            if k < t.len() {
                assert(all[k] == t[k]);
                let j = choose|j: int|
                    0 <= j < fewer.len() && (#[trigger] fewer[j]).connection
                        == Connection::Connected && t[k] == fewer[j].handle;
                assert(flows[j] == fewer[j]);
            } else {
                assert(flows[flows.len() - 1].connection == Connection::Connected);
            }
        }
    }
}

/// A shutdown names the socket and the peer of every UDP flow with an open
/// tunnel, and no others.
pub proof fn every_open_association_is_named(flows: Seq<tun_udp::FlowModel>, i: int, k: int)
    ensures
        0 <= i < flows.len() && flows[i].connection == Connection::Connected ==> udp_tunnels(
            flows,
        ).contains((flows[i].handle, flows[i].peer)),
        0 <= k < udp_tunnels(flows).len() ==> exists|j: int|
            0 <= j < flows.len() && (#[trigger] flows[j]).connection == Connection::Connected
                && udp_tunnels(flows)[k] == (flows[j].handle, flows[j].peer),
    decreases flows.len(),
{
    if flows.len() > 0 {
        let fewer = flows.drop_last();
        let t = udp_tunnels(fewer);
        let all = udp_tunnels(flows);
        every_open_association_is_named(fewer, i, k);
        if 0 <= i < flows.len() && flows[i].connection == Connection::Connected {
            let x = (flows[i].handle, flows[i].peer);
            if i < fewer.len() {
                assert(fewer[i] == flows[i]);
                let m = choose|m: int| 0 <= m < t.len() && t[m] == x;
                assert(all[m] == x);
            } else {
                assert(all[t.len() as int] == x);
            }
        }
        if 0 <= k < all.len() {
            if k < t.len() {
                assert(all[k] == t[k]);
                let j = choose|j: int|
                    0 <= j < fewer.len() && (#[trigger] fewer[j]).connection
                        == Connection::Connected && t[k] == (fewer[j].handle, fewer[j].peer);
                assert(flows[j] == fewer[j]);
            } else {
                assert(flows[flows.len() - 1].connection == Connection::Connected);
            }
        }
    }
}

/// A round of the stack is a round of its TCP flows and then one of its UDP
/// flows, from what each of them was: it asks for what the two ask for, counts
/// what the two count, and leaves the other sockets as the TCP half left them.
pub proof fn a_round_serves_both_kinds_of_flows(
    before: StackModel,
    after: StackModel,
    tcp_actions: Seq<tun_tcp::ActionModel>,
    udp_actions: Seq<tun_udp::ActionModel>,
    mid: Map<SocketHandle, SocketModel>,
    count: VpnEngineTrafficStats,
    handles: Seq<SocketHandle>,
    fresh: Seq<SocketHandle>,
    h: SocketHandle,
)
    requires
        stack_round(before, after, tcp_actions, udp_actions, mid, count, handles, fresh),
    ensures
        tun_tcp::tcp_round(
            tun_tcp::TcpStack {
                sockets: before.sockets,
                listeners: before.tcp_listeners,
                flows: before.tcp_flows,
                actions: Seq::empty(),
                stats: before.stats,
            },
            tun_tcp::TcpStack {
                sockets: mid,
                listeners: after.tcp_listeners,
                flows: after.tcp_flows,
                actions: tcp_actions,
                stats: count,
            },
            handles,
            fresh,
        ),
        ({
            let turns = tun_udp::udp_turns(
                tun_udp::UdpBooks { flows: before.udp_flows, actions: Seq::empty(), down: 0 },
                before.udp_listeners,
                before.sockets,
            );
            &&& after.udp_listeners == before.udp_listeners
            &&& after.udp_flows == turns.flows
            &&& udp_actions == turns.actions
            &&& after.stats.download_bytes == traffic::counted(count.download_bytes, turns.down)
            &&& after.stats.upload_bytes == count.upload_bytes
            &&& after.stats.upload_packets == count.upload_packets
            &&& after.stats.download_packets == count.download_packets
        }),
        after.sockets.dom() == mid.dom(),
        mid.dom().contains(h) && (forall|i: int|
            0 <= i < before.udp_listeners.len() ==> (#[trigger] before.udp_listeners[i]).handle
                != h) ==> after.sockets[h] == mid[h],
{
}

} // verus!
