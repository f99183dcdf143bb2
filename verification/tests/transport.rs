use nulconnect_helper::ipv4::Ipv4Addr;
use nulconnect_helper::sockets::Endpoint;
use nulconnect_helper::tun_stack::{
    ipv4_protocol_and_port, route_query, RouteQuery, TransportStack,
};
use nulconnect_helper::tun_tcp::{ConnectOutcome, Connection, TcpAction};
use nulconnect_helper::tun_udp::{UdpAction, MAX_PENDING, MAX_UDP_FLOWS, SOCKET_PACKETS};
use smoltcp::iface::{Config, Interface, SocketHandle, SocketSet};
use smoltcp::phy::{Device, DeviceCapabilities, Medium, RxToken, TxToken};
use smoltcp::socket::{tcp, udp};
use smoltcp::time::Instant;
use smoltcp::wire::{HardwareAddress, IpAddress, IpCidr, IpEndpoint, Ipv4Address};
use std::collections::VecDeque;

#[test]
fn parses_tcp_destination() {
    let mut packet = vec![0u8; 40];
    packet[0] = 0x45;
    packet[9] = 6;
    packet[16..20].copy_from_slice(&[192, 0, 2, 10]);
    packet[22..24].copy_from_slice(&443u16.to_be_bytes());
    assert_eq!(
        ipv4_protocol_and_port(&packet),
        Some((6, Ipv4Addr::new(192, 0, 2, 10), 443))
    );
}

#[test]
fn malformed_transport_packet_is_not_claimed_as_a_flow() {
    let mut packet = vec![0u8; 20];
    packet[0] = 0x45;
    packet[9] = 6;
    assert_eq!(
        ipv4_protocol_and_port(&packet),
        Some((6, Ipv4Addr::new(0, 0, 0, 0), 0))
    );
}

#[test]
fn headers_that_are_cut_off_have_no_destination() {
    let mut packet = vec![0u8; 40];
    packet[0] = 0x65;
    assert_eq!(ipv4_protocol_and_port(&packet), None);
    packet[0] = 0x44;
    assert_eq!(ipv4_protocol_and_port(&packet), None);
    packet[0] = 0x4f;
    assert_eq!(ipv4_protocol_and_port(&packet), None);
    packet[0] = 0x45;
    assert_eq!(ipv4_protocol_and_port(&packet[..19]), None);
}

#[test]
fn the_port_stands_behind_the_options() {
    let mut packet = vec![0u8; 28];
    packet[0] = 0x46;
    packet[9] = 17;
    packet[16..20].copy_from_slice(&[198, 51, 100, 7]);
    packet[26..28].copy_from_slice(&53u16.to_be_bytes());
    let target = Endpoint { addr: Ipv4Addr::new(198, 51, 100, 7), port: 53 };
    assert_eq!(ipv4_protocol_and_port(&packet), Some((17, target.addr, 53)));
    assert_eq!(route_query(&packet), Some(RouteQuery::Udp(target)));
    packet[9] = 6;
    assert_eq!(route_query(&packet), Some(RouteQuery::Tcp(target)));
    packet[9] = 1;
    assert_eq!(ipv4_protocol_and_port(&packet), Some((1, target.addr, 0)));
    assert_eq!(route_query(&packet), None);
}

struct Wire {
    incoming: VecDeque<Vec<u8>>,
    outgoing: VecDeque<Vec<u8>>,
}

impl Wire {
    fn new() -> Wire {
        Wire { incoming: VecDeque::new(), outgoing: VecDeque::new() }
    }
}

struct Received(Vec<u8>);

impl RxToken for Received {
    fn consume<R, F: FnOnce(&[u8]) -> R>(self, f: F) -> R {
        f(&self.0)
    }
}

struct Sending<'a>(&'a mut VecDeque<Vec<u8>>);

impl<'a> TxToken for Sending<'a> {
    fn consume<R, F: FnOnce(&mut [u8]) -> R>(self, len: usize, f: F) -> R {
        let mut packet = vec![0u8; len];
        let result = f(&mut packet);
        self.0.push_back(packet);
        result
    }
}

impl Device for Wire {
    type RxToken<'a> = Received;
    type TxToken<'a> = Sending<'a>;

    fn receive(&mut self, _now: Instant) -> Option<(Received, Sending<'_>)> {
        let packet = self.incoming.pop_front()?;
        Some((Received(packet), Sending(&mut self.outgoing)))
    }

    fn transmit(&mut self, _now: Instant) -> Option<Sending<'_>> {
        Some(Sending(&mut self.outgoing))
    }

    fn capabilities(&self) -> DeviceCapabilities {
        let mut capabilities = DeviceCapabilities::default();
        capabilities.medium = Medium::Ip;
        capabilities.max_transmission_unit = 1500;
        capabilities
    }
}

/// A client at 10.0.0.2 and the stack that ends its flows.
struct Link {
    now: i64,
    client: Interface,
    client_wire: Wire,
    client_sockets: SocketSet<'static>,
    middle: Interface,
    middle_wire: Wire,
    stack: TransportStack,
}

const CLIENT: Ipv4Address = Ipv4Address::new(10, 0, 0, 2);

fn interface(wire: &mut Wire) -> Interface {
    let mut iface =
        Interface::new(Config::new(HardwareAddress::Ip), wire, Instant::from_millis(0));
    iface.update_ip_addrs(|addrs| {
        let _ = addrs.push(IpCidr::new(IpAddress::Ipv4(CLIENT), 32));
    });
    iface.routes_mut().add_default_ipv4_route(CLIENT).unwrap();
    iface
}

impl Link {
    fn new() -> Link {
        let mut client_wire = Wire::new();
        let mut middle_wire = Wire::new();
        let client = interface(&mut client_wire);
        let mut middle = interface(&mut middle_wire);
        middle.set_any_ip(true);
        Link {
            now: 0,
            client,
            client_wire,
            client_sockets: SocketSet::new(vec![]),
            middle,
            middle_wire,
            stack: TransportStack::new(),
        }
    }

    /// Lets the client send, and takes what it sent in.
    fn send(&mut self) -> usize {
        self.now += 1;
        let now = Instant::from_millis(self.now);
        self.client.poll(now, &mut self.client_wire, &mut self.client_sockets);
        let mut taken = 0;
        while let Some(packet) = self.client_wire.outgoing.pop_front() {
            if self.stack.hand_in(&packet, true) {
                taken += 1;
                self.middle_wire.incoming.push_back(packet);
            }
        }
        self.middle.poll(now, &mut self.middle_wire, &mut self.stack.sockets);
        taken
    }

    /// Lets the stack send, and hands the client what it sent.
    fn answer(&mut self) {
        let now = Instant::from_millis(self.now);
        self.middle.poll(now, &mut self.middle_wire, &mut self.stack.sockets);
        self.client_wire.incoming.append(&mut self.middle_wire.outgoing);
        self.client.poll(now, &mut self.client_wire, &mut self.client_sockets);
    }

    /// A round of the stack, with what is sent before and after it.
    fn round(&mut self) -> (Vec<TcpAction>, Vec<UdpAction>) {
        self.send();
        let actions = self.stack.round();
        self.answer();
        actions
    }

    /// Rounds until the TCP half asks for something.
    fn tcp_actions(&mut self) -> Vec<TcpAction> {
        for _ in 0..50 {
            let (actions, _) = self.round();
            if !actions.is_empty() {
                return actions;
            }
        }
        panic!("nothing was asked for")
    }
}

fn tcp_target() -> Endpoint {
    Endpoint { addr: Ipv4Addr::new(192, 0, 2, 10), port: 443 }
}

fn udp_target() -> Endpoint {
    Endpoint { addr: Ipv4Addr::new(192, 0, 2, 53), port: 53 }
}

fn end_of(target: Endpoint) -> IpEndpoint {
    let o = target.addr.octets();
    IpEndpoint::new(IpAddress::v4(o[0], o[1], o[2], o[3]), target.port)
}

fn open_tcp(link: &mut Link, local_port: u16) -> SocketHandle {
    let buffer = || tcp::SocketBuffer::new(vec![0; 4096]);
    let mut socket = tcp::Socket::new(buffer(), buffer());
    socket.connect(link.client.context(), end_of(tcp_target()), local_port).unwrap();
    link.client_sockets.add(socket)
}

/// A client connection with an open tunnel: its socket and that of its flow.
fn connected(link: &mut Link) -> (SocketHandle, SocketHandle) {
    let socket = open_tcp(link, 40000);
    let actions = link.tcp_actions();
    let handle = match &actions[..] {
        [TcpAction::Connect { handle, target }] => {
            assert_eq!(*target, tcp_target());
            *handle
        }
        other => panic!("{other:?}"),
    };
    link.stack.tcp_outcome(handle, ConnectOutcome::Connected);
    match &link.tcp_actions()[..] {
        [TcpAction::Attach { handle: h }] => assert_eq!(*h, handle),
        other => panic!("{other:?}"),
    }
    (socket, handle)
}

#[test]
fn an_accepted_connection_becomes_a_flow() {
    let mut link = Link::new();
    let socket = open_tcp(&mut link, 40000);
    assert_eq!(link.send(), 1);
    assert_eq!(link.stack.tcp_listeners.len(), 1);
    let listening = link.stack.tcp_listeners[0].handle;
    assert_eq!(link.stack.tcp_listeners[0].target, tcp_target());
    let (actions, others) = link.stack.round();
    assert!(others.is_empty());
    match &actions[..] {
        [TcpAction::Connect { handle, target }] => {
            assert_eq!(*handle, listening);
            assert_eq!(*target, tcp_target());
        }
        other => panic!("{other:?}"),
    }
    assert_eq!(link.stack.tcp_flows.len(), 1);
    assert_eq!(link.stack.tcp_flows[0].handle, listening);
    assert_eq!(link.stack.tcp_flows[0].connection, Connection::Connecting);
    assert_eq!(link.stack.tcp_listeners.len(), 1);
    assert_ne!(link.stack.tcp_listeners[0].handle, listening);
    link.answer();
    assert!(link.client_sockets.get::<tcp::Socket>(socket).may_send());
    assert_eq!(link.stack.stats.upload_packets, 1);
}

#[test]
fn octets_go_both_ways() {
    let mut link = Link::new();
    let (socket, handle) = connected(&mut link);
    link.client_sockets.get_mut::<tcp::Socket>(socket).send_slice(b"hello").unwrap();
    match &link.tcp_actions()[..] {
        [TcpAction::Write { handle: h, data }] => {
            assert_eq!(*h, handle);
            assert_eq!(data, b"hello");
        }
        other => panic!("{other:?}"),
    }
    assert_eq!(link.stack.stats.upload_bytes, 5);
    link.stack.tcp_incoming(handle, b"good ".to_vec());
    link.stack.tcp_incoming(handle, b"day".to_vec());
    for _ in 0..5 {
        assert!(link.round().0.is_empty());
    }
    let mut buffer = [0u8; 64];
    let n = link.client_sockets.get_mut::<tcp::Socket>(socket).recv_slice(&mut buffer).unwrap();
    assert_eq!(&buffer[..n], b"good day");
    assert_eq!(link.stack.stats.download_bytes, 8);
    assert!(link.stack.tcp_flows[0].incoming.is_empty());
}

#[test]
fn a_full_socket_leaves_the_later_buffers_waiting() {
    let mut link = Link::new();
    let (_, handle) = connected(&mut link);
    for _ in 0..4 {
        link.stack.tcp_incoming(handle, vec![7; 200_000]);
    }
    let (actions, _) = link.stack.round();
    assert!(actions.is_empty());
    assert_eq!(link.stack.stats.download_bytes, 262_144);
    let waiting: Vec<usize> = link.stack.tcp_flows[0].incoming.iter().map(Vec::len).collect();
    assert_eq!(waiting, [137_856, 200_000, 200_000]);
}

#[test]
fn nothing_that_a_tunnel_delivers_is_lost() {
    let mut link = Link::new();
    let (socket, handle) = connected(&mut link);
    let sent: Vec<u8> = (0..700_000u32).map(|i| (i % 251) as u8).collect();
    for chunk in sent.chunks(90_000) {
        link.stack.tcp_incoming(handle, chunk.to_vec());
    }
    let mut came = Vec::new();
    let mut buffer = vec![0u8; 65536];
    for _ in 0..20_000 {
        assert!(link.round().0.is_empty());
        while let Ok(n @ 1..) =
            link.client_sockets.get_mut::<tcp::Socket>(socket).recv_slice(&mut buffer)
        {
            came.extend_from_slice(&buffer[..n]);
        }
        if came.len() == sent.len() {
            break;
        }
    }
    assert_eq!(came.len(), sent.len());
    assert!(came == sent);
    assert_eq!(link.stack.stats.download_bytes, 700_000);
    assert!(link.stack.tcp_flows[0].incoming.is_empty());
}

#[test]
fn a_second_connection_to_the_target_is_accepted() {
    let mut link = Link::new();
    open_tcp(&mut link, 40010);
    link.tcp_actions();
    let again = link.stack.tcp_listeners[0].handle;
    let end = link.stack.sockets.get::<tcp::Socket>(again).listen_endpoint();
    assert_eq!((end.addr, end.port), (Some(end_of(tcp_target()).addr), tcp_target().port));
    open_tcp(&mut link, 40011);
    match link.tcp_actions()[..] {
        [TcpAction::Connect { handle, target }] => {
            assert_eq!((handle, target), (again, tcp_target()));
        }
        ref other => panic!("{other:?}"),
    }
    assert_eq!(link.stack.tcp_flows.len(), 2);
}

#[test]
fn a_reset_connection_closes_its_tunnel() {
    let mut link = Link::new();
    let (socket, handle) = connected(&mut link);
    link.client_sockets.get_mut::<tcp::Socket>(socket).abort();
    match &link.tcp_actions()[..] {
        [TcpAction::Close { handle: h }] => assert_eq!(*h, handle),
        other => panic!("{other:?}"),
    }
    assert!(link.stack.tcp_flows.is_empty());
    assert!(link.stack.sockets.iter().all(|(h, _)| h != handle));
    link.stack.tcp_incoming(handle, vec![1]);
    link.stack.tcp_outcome(handle, ConnectOutcome::Lost);
    assert!(link.stack.tcp_flows.is_empty());
}

#[test]
fn a_refused_tunnel_resets_the_connection() {
    let mut link = Link::new();
    let socket = open_tcp(&mut link, 40001);
    let handle = match link.tcp_actions()[..] {
        [TcpAction::Connect { handle, .. }] => handle,
        _ => panic!("no flow"),
    };
    link.stack.tcp_outcome(handle, ConnectOutcome::Refused);
    for _ in 0..5 {
        assert!(link.round().0.is_empty());
    }
    assert_eq!(link.stack.tcp_flows[0].connection, Connection::Unreachable);
    assert!(!link.client_sockets.get::<tcp::Socket>(socket).is_active());
}

#[test]
fn a_lost_tunnel_leaves_the_connection_alone() {
    let mut link = Link::new();
    let socket = open_tcp(&mut link, 40002);
    let handle = match link.tcp_actions()[..] {
        [TcpAction::Connect { handle, .. }] => handle,
        _ => panic!("no flow"),
    };
    link.stack.tcp_outcome(handle, ConnectOutcome::Lost);
    for _ in 0..5 {
        assert!(link.round().0.is_empty());
    }
    assert_eq!(link.stack.tcp_flows[0].connection, Connection::Unreachable);
    assert!(link.client_sockets.get::<tcp::Socket>(socket).is_active());
}

fn bind_udp(link: &mut Link, port: u16) -> SocketHandle {
    let buffer =
        || udp::PacketBuffer::new(vec![udp::PacketMetadata::EMPTY; 64], vec![0; 8192]);
    let mut socket = udp::Socket::new(buffer(), buffer());
    socket.bind(port).unwrap();
    link.client_sockets.add(socket)
}

fn client_end(port: u16) -> Endpoint {
    Endpoint { addr: Ipv4Addr::new(10, 0, 0, 2), port }
}

fn say(link: &mut Link, socket: SocketHandle, data: &[u8]) {
    let target = end_of(udp_target());
    link.client_sockets.get_mut::<udp::Socket>(socket).send_slice(data, target).unwrap();
}

#[test]
fn datagrams_wait_for_the_tunnel_and_go_both_ways() {
    let mut link = Link::new();
    let socket = bind_udp(&mut link, 5353);
    say(&mut link, socket, b"one");
    say(&mut link, socket, b"two");
    let (_, actions) = link.round();
    let handle = match &actions[..] {
        [UdpAction::Connect { handle, peer, target }] => {
            assert_eq!((*peer, *target), (client_end(5353), udp_target()));
            *handle
        }
        other => panic!("{other:?}"),
    };
    assert!(link.round().1.is_empty());
    assert_eq!(link.stack.udp_flows[0].pending, vec![b"one".to_vec(), b"two".to_vec()]);
    link.stack.udp_outcome(handle, client_end(5353), ConnectOutcome::Connected);
    say(&mut link, socket, b"three");
    let (_, actions) = link.round();
    let told: Vec<String> = actions
        .iter()
        .map(|action| match action {
            UdpAction::Attach { handle: h, peer } => {
                assert_eq!((*h, *peer), (handle, client_end(5353)));
                "attach".to_string()
            }
            UdpAction::Write { handle: h, peer, data } => {
                assert_eq!((*h, *peer), (handle, client_end(5353)));
                String::from_utf8(data.clone()).unwrap()
            }
            UdpAction::Connect { .. } => "connect".to_string(),
        })
        .collect();
    assert_eq!(told, ["attach", "one", "two", "three"]);
    assert_eq!(link.stack.stats.upload_bytes, 0);
    link.stack.udp_written(11);
    assert_eq!(link.stack.stats.upload_bytes, 11);
    say(&mut link, socket, b"four");
    match &link.round().1[..] {
        [UdpAction::Write { data, .. }] => assert_eq!(data, b"four"),
        other => panic!("{other:?}"),
    }
    link.stack.udp_incoming(handle, client_end(5353), b"reply".to_vec());
    assert!(link.round().1.is_empty());
    assert_eq!(link.stack.stats.download_bytes, 5);
    let (data, meta) = link.client_sockets.get_mut::<udp::Socket>(socket).recv().unwrap();
    assert_eq!(data, b"reply");
    assert_eq!(meta.endpoint, end_of(udp_target()));
}

#[test]
fn a_burst_of_replies_goes_out_in_order_up_to_the_room_there_is() {
    let mut link = Link::new();
    let socket = bind_udp(&mut link, 5357);
    say(&mut link, socket, b"ask");
    let handle = match link.round().1[..] {
        [UdpAction::Connect { handle, .. }] => handle,
        ref other => panic!("{other:?}"),
    };
    link.stack.udp_outcome(handle, client_end(5357), ConnectOutcome::Connected);
    link.round();
    for burst in 0..2u8 {
        for i in 0..70u8 {
            link.stack.udp_incoming(handle, client_end(5357), vec![burst, i]);
        }
        link.stack.round();
        let mut came = Vec::new();
        for _ in 0..100 {
            link.answer();
            while let Ok((data, _)) = link.client_sockets.get_mut::<udp::Socket>(socket).recv() {
                came.push(data.to_vec());
            }
        }
        let expected: Vec<Vec<u8>> = (0..SOCKET_PACKETS as u8).map(|i| vec![burst, i]).collect();
        assert_eq!(came, expected);
    }
    assert_eq!(link.stack.stats.download_bytes, 280);
}

#[test]
fn only_so_many_datagrams_wait() {
    let mut link = Link::new();
    let socket = bind_udp(&mut link, 5354);
    for i in 0..40u8 {
        say(&mut link, socket, &[i]);
        link.round();
    }
    let pending = &link.stack.udp_flows[0].pending;
    assert_eq!(pending.len(), MAX_PENDING);
    assert!(pending.iter().enumerate().all(|(i, d)| d == &[i as u8]));
}

#[test]
fn a_refused_datagram_flow_is_closed_and_stays() {
    let mut link = Link::new();
    let socket = bind_udp(&mut link, 5355);
    say(&mut link, socket, b"x");
    let handle = match link.round().1[..] {
        [UdpAction::Connect { handle, .. }] => handle,
        _ => panic!("no flow"),
    };
    link.stack.udp_outcome(handle, client_end(5355), ConnectOutcome::Refused);
    assert!(link.round().1.is_empty());
    assert!(link.stack.udp_flows[0].closed);
    assert_eq!(link.stack.udp_flows[0].connection, Connection::Unreachable);
    say(&mut link, socket, b"y");
    assert!(link.round().1.is_empty());
    assert_eq!(link.stack.udp_flows[0].pending.len(), 2);
}

#[test]
fn only_so_many_datagram_flows_exist() {
    let mut link = Link::new();
    let mut asked = 0;
    for port in 0..(MAX_UDP_FLOWS as u16 + 8) {
        let socket = bind_udp(&mut link, 1000 + port);
        say(&mut link, socket, b"q");
        asked += link.round().1.len();
        link.client_sockets.remove(socket);
    }
    assert_eq!(asked, MAX_UDP_FLOWS);
    assert_eq!(link.stack.udp_flows.len(), MAX_UDP_FLOWS);
}

#[test]
fn packets_of_unmanaged_flows_are_not_taken() {
    let mut stack = TransportStack::new();
    let mut packet = vec![0u8; 28];
    packet[0] = 0x45;
    packet[9] = 17;
    packet[22..24].copy_from_slice(&53u16.to_be_bytes());
    assert!(!stack.hand_in(&packet, false));
    assert_eq!(stack.udp_listeners.len(), 0);
    assert_eq!(stack.stats.upload_packets, 0);
    packet[9] = 1;
    assert!(!stack.hand_in(&packet, true));
    packet[9] = 17;
    assert!(stack.hand_in(&packet, true));
    assert!(stack.hand_in(&packet, true));
    assert_eq!(stack.udp_listeners.len(), 1);
    assert_eq!(stack.stats.upload_packets, 2);
}

#[test]
fn packets_whose_ports_are_cut_off_take_the_raw_path() {
    let mut stack = TransportStack::new();
    for header in [0x45u8, 0x46] {
        for extra in 0..4 {
            let mut packet = vec![0u8; usize::from(header % 16) * 4 + extra];
            packet[0] = header;
            for protocol in [6, 17] {
                packet[9] = protocol;
                assert_eq!(route_query(&packet), None);
                assert!(!stack.hand_in(&packet, true));
            }
        }
    }
    assert_eq!(stack.stats.upload_packets, 0);
    assert_eq!(stack.sockets.iter().count(), 0);
}

#[test]
fn a_target_without_a_port_gets_no_listener() {
    let mut stack = TransportStack::new();
    let mut packet = vec![0u8; 40];
    packet[0] = 0x45;
    for protocol in [6, 17] {
        packet[9] = protocol;
        assert!(stack.hand_in(&packet, true));
    }
    assert!(stack.tcp_listeners.is_empty() && stack.udp_listeners.is_empty());
    assert_eq!(stack.sockets.iter().count(), 0);
}

#[test]
fn shutting_down_names_the_open_tunnels() {
    let mut link = Link::new();
    let (_, handle) = connected(&mut link);
    let waiting = open_tcp(&mut link, 40009);
    link.tcp_actions();
    let socket = bind_udp(&mut link, 5356);
    say(&mut link, socket, b"x");
    let udp = match link.round().1[..] {
        [UdpAction::Connect { handle, .. }] => handle,
        _ => panic!("no flow"),
    };
    link.stack.udp_outcome(udp, client_end(5356), ConnectOutcome::Connected);
    link.round();
    let (tcp_tunnels, udp_tunnels) = link.stack.shutdown();
    assert_eq!(tcp_tunnels, vec![handle]);
    assert_eq!(udp_tunnels, vec![(udp, client_end(5356))]);
    assert!(link.stack.tcp_flows.iter().all(|f| f.closed));
    assert!(link.stack.udp_flows.iter().all(|f| f.closed));
    assert!(link.client_sockets.get::<tcp::Socket>(waiting).is_open());
}
