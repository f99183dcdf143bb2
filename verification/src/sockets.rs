//! The sockets of the user-space IP stack.
//!
//! `smoltcp` owns the sockets. This module says what a socket set holds and
//! what each call that the transport stack makes does to it.
use crate::ipv4::Ipv4Addr;
use smoltcp::iface::{SocketHandle, SocketSet};
use smoltcp::socket::{tcp, udp};
use smoltcp::wire::{IpAddress, IpEndpoint, IpListenEndpoint};
use vstd::prelude::*;

verus! {

#[verifier::external_type_specification]
#[verifier::external_body]
pub struct ExSocketSet<'a>(smoltcp::iface::SocketSet<'a>);

#[verifier::external_type_specification]
#[verifier::external_body]
pub struct ExSocketHandle(smoltcp::iface::SocketHandle);

/// An IPv4 address and a port.
#[derive(Debug, Clone, Copy, PartialEq, Eq, Hash, Structural)]
pub struct Endpoint {
    pub addr: Ipv4Addr,
    pub port: u16,
}

/// The states of a TCP connection.
#[derive(Debug, Clone, Copy, PartialEq, Eq, Structural)]
pub enum TcpPhase {
    Closed,
    Listen,
    SynSent,
    SynReceived,
    Established,
    FinWait1,
    FinWait2,
    CloseWait,
    Closing,
    LastAck,
    TimeWait,
}

/// What a TCP socket holds: its state, the endpoint that it was told to listen
/// on, the two ends of its connection, the octets received and not yet taken,
/// the octets accepted for sending, and how many of those it has room for.
pub struct TcpModel {
    pub phase: TcpPhase,
    pub listen: Option<Endpoint>,
    pub local: Option<Endpoint>,
    pub remote: Option<Endpoint>,
    pub received: Seq<u8>,
    pub queued: Seq<u8>,
    pub capacity: nat,
}

/// A datagram and the peer that it came from or goes to.
pub struct Datagram {
    pub peer: Endpoint,
    pub data: Seq<u8>,
}

/// What a UDP socket holds: the endpoint that it is bound to, the datagrams
/// received and not yet taken, those accepted for sending and still there, the
/// number of datagrams and of octets that it can hold for sending, and whether
/// what it holds for sending lies in one piece from the start of its buffer,
/// or is empty, so that all of the room left is of use.
pub struct UdpModel {
    pub bound: Option<Endpoint>,
    pub received: Seq<Datagram>,
    pub sent: Seq<Datagram>,
    pub packets: nat,
    pub capacity: nat,
    pub straight: bool,
}

/// What a socket holds.
pub enum SocketModel {
    Tcp(TcpModel),
    Udp(UdpModel),
}

impl TcpModel {
    /// Whether a connection exists or is being set up or torn down.
    pub open spec fn is_active(self) -> bool {
        self.phase != TcpPhase::Closed && self.phase != TcpPhase::TimeWait && self.phase
            != TcpPhase::Listen
    }

    /// Whether the transmit half is open.
    pub open spec fn may_send(self) -> bool {
        self.phase == TcpPhase::Established || self.phase == TcpPhase::CloseWait
    }

    /// Whether the receive half is open, or octets are left to take.
    pub open spec fn may_recv(self) -> bool {
        self.phase == TcpPhase::Established || self.phase == TcpPhase::FinWait1 || self.phase
            == TcpPhase::FinWait2 || self.received.len() > 0
    }

    /// Whether the transmit half is open and has room.
    pub open spec fn can_send(self) -> bool {
        self.may_send() && self.queued.len() < self.capacity
    }
}

/// A new TCP socket.
pub open spec fn fresh_tcp(size: nat) -> TcpModel {
    TcpModel {
        phase: TcpPhase::Closed,
        listen: None,
        local: None,
        remote: None,
        received: Seq::empty(),
        queued: Seq::empty(),
        capacity: size,
    }
}

/// A new UDP socket.
pub open spec fn fresh_udp(packets: nat, size: nat) -> UdpModel {
    UdpModel {
        bound: None,
        received: Seq::empty(),
        sent: Seq::empty(),
        packets,
        capacity: size,
        straight: true,
    }
}

/// The number of octets in some datagrams.
pub open spec fn load(datagrams: Seq<Datagram>) -> nat
    decreases datagrams.len(),
{
    if datagrams.len() == 0 {
        0
    } else {
        load(datagrams.drop_last()) + datagrams.last().data.len()
    }
}

impl UdpModel {
    /// Whether a datagram can be sent at all: the socket is bound, and the
    /// peer has an address and a port.
    pub open spec fn can_address(self, peer: Endpoint) -> bool {
        self.bound is Some && peer.addr.bits != 0 && peer.port != 0
    }

    /// The socket after a datagram was offered for sending.
    pub open spec fn offered(self, datagram: Datagram, accepted: bool) -> UdpModel {
        UdpModel {
            sent: if accepted {
                self.sent.push(datagram)
            } else {
                self.sent
            },
            ..self
        }
    }

    /// Whether there is room for a datagram of so many octets.
    pub open spec fn has_room(self, size: nat) -> bool {
        self.sent.len() < self.packets && load(self.sent) + size <= self.capacity
    }

    /// Whether a socket may answer an offer this way. It accepts only what it
    /// can address and has room for, and all of that as long as its buffer is
    /// in one piece.
    pub open spec fn may_answer(self, datagram: Datagram, accepted: bool) -> bool {
        let owed = self.can_address(datagram.peer) && self.has_room(datagram.data.len());
        &&& accepted ==> owed
        &&& self.straight && owed ==> accepted
    }
}

/// The sockets of a set, by handle.
pub uninterp spec fn socket_contents(set: SocketSet<'static>) -> Map<SocketHandle, SocketModel>;

/// The number of sockets that the storage of a set is limited to; none for a
/// set over growable storage.
pub uninterp spec fn socket_limit(set: SocketSet<'static>) -> Option<nat>;

/// The contents of a set without sockets.
pub open spec fn no_sockets() -> Map<SocketHandle, SocketModel> {
    Map::empty()
}

/// Whether a handle names a TCP socket of the set.
pub open spec fn is_tcp(contents: Map<SocketHandle, SocketModel>, handle: SocketHandle) -> bool {
    contents.dom().contains(handle) && contents[handle] is Tcp
}

/// Whether a handle names a UDP socket of the set.
pub open spec fn is_udp(contents: Map<SocketHandle, SocketModel>, handle: SocketHandle) -> bool {
    contents.dom().contains(handle) && contents[handle] is Udp
}

/// The TCP socket of a handle.
pub open spec fn tcp_at(contents: Map<SocketHandle, SocketModel>, handle: SocketHandle) -> TcpModel {
    contents[handle]->Tcp_0
}

/// The UDP socket of a handle.
pub open spec fn udp_at(contents: Map<SocketHandle, SocketModel>, handle: SocketHandle) -> UdpModel {
    contents[handle]->Udp_0
}

/// `SocketHandle::eq`, derived on the slot index: equal handles name the same
/// slot.
pub assume_specification [<SocketHandle as PartialEq>::eq](
    a: &SocketHandle,
    b: &SocketHandle,
) -> (r: bool)
    ensures
        r == (*a == *b),
;

/// `SocketSet::new` over an empty vector: a set without sockets whose storage
/// grows.
#[verifier::external_body]
pub(crate) fn new_socket_set() -> (r: SocketSet<'static>)
    ensures
        socket_contents(r) == no_sockets(),
        socket_limit(r) is None,
{
    SocketSet::new(vec![])
}

/// `SocketSet::add` of a `tcp::Socket::new` with receive and transmit buffers
/// of `size` octets: a closed socket under a handle that the set did not use.
/// A receive buffer above one gibibyte, or full fixed storage, would panic.
#[verifier::external_body]
pub(crate) fn add_tcp(set: &mut SocketSet<'static>, size: usize) -> (handle: SocketHandle)
    requires
        size <= 0x4000_0000,
        socket_limit(*old(set)) is None,
    ensures
        !socket_contents(*old(set)).dom().contains(handle),
        socket_contents(*final(set)) == socket_contents(*old(set)).insert(
            handle,
            SocketModel::Tcp(fresh_tcp(size as nat)),
        ),
        socket_limit(*final(set)) == socket_limit(*old(set)),
{
    set.add(
        tcp::Socket::new(
            tcp::SocketBuffer::new(vec![0; size]),
            tcp::SocketBuffer::new(vec![0; size]),
        ),
    )
}

/// `SocketSet::add` of a `udp::Socket::new` with room for `packets` datagrams
/// and `size` octets each way: an unbound socket under a handle that the set
/// did not use. Full fixed storage would panic.
#[verifier::external_body]
pub(crate) fn add_udp(set: &mut SocketSet<'static>, packets: usize, size: usize) -> (handle:
    SocketHandle)
    requires
        socket_limit(*old(set)) is None,
    ensures
        !socket_contents(*old(set)).dom().contains(handle),
        socket_contents(*final(set)) == socket_contents(*old(set)).insert(
            handle,
            SocketModel::Udp(fresh_udp(packets as nat, size as nat)),
        ),
        socket_limit(*final(set)) == socket_limit(*old(set)),
{
    set.add(
        udp::Socket::new(
            udp::PacketBuffer::new(vec![udp::PacketMetadata::EMPTY; packets], vec![0; size]),
            udp::PacketBuffer::new(vec![udp::PacketMetadata::EMPTY; packets], vec![0; size]),
        ),
    )
}

/// `SocketSet::remove`: the socket leaves the set. A handle that the set does
/// not use would panic.
#[verifier::external_body]
pub(crate) fn remove_socket(set: &mut SocketSet<'static>, handle: SocketHandle)
    requires
        socket_contents(*old(set)).dom().contains(handle),
    ensures
        socket_contents(*final(set)) == socket_contents(*old(set)).remove(handle),
        socket_limit(*final(set)) == socket_limit(*old(set)),
{
    let _ = set.remove(handle);
}

/// `SocketSet::iter`: the handles of the set, each once.
#[verifier::external_body]
pub(crate) fn socket_handles(set: &SocketSet<'static>) -> (r: Vec<SocketHandle>)
    ensures
        r@.no_duplicates(),
        forall|h: SocketHandle| #[trigger]
            r@.contains(h) <==> socket_contents(*set).dom().contains(h),
{
    set.iter().map(|item| item.0).collect()
}

/// `tcp::Socket::listen` on a closed socket: it listens on the endpoint, unless
/// the port is zero. Another socket of the set, and a handle of the wrong kind, are left
/// out.
#[verifier::external_body]
pub(crate) fn tcp_listen(
    set: &mut SocketSet<'static>,
    handle: SocketHandle,
    target: Endpoint,
) -> (r: bool)
    requires
        is_tcp(socket_contents(*old(set)), handle),
        tcp_at(socket_contents(*old(set)), handle).phase == TcpPhase::Closed,
    ensures
        r == (target.port != 0),
        !r ==> socket_contents(*final(set)) == socket_contents(*old(set)),
        r ==> socket_contents(*final(set)) == socket_contents(*old(set)).insert(
            handle,
            SocketModel::Tcp(
                TcpModel {
                    phase: TcpPhase::Listen,
                    listen: Some(target),
                    ..fresh_tcp(tcp_at(socket_contents(*old(set)), handle).capacity)
                },
            ),
        ),
        socket_limit(*final(set)) == socket_limit(*old(set)),
{
    let o = target.addr.bits.to_be_bytes();
    let addr = Some(IpAddress::v4(o[0], o[1], o[2], o[3]));
    let socket = set.get_mut::<tcp::Socket>(handle);
    socket.listen(IpListenEndpoint { addr, port: target.port }).is_ok()
}

/// `udp::Socket::bind` on an unbound socket: it is bound, unless the port is
/// zero.
#[verifier::external_body]
pub(crate) fn udp_bind(
    set: &mut SocketSet<'static>,
    handle: SocketHandle,
    target: Endpoint,
) -> (r: bool)
    requires
        is_udp(socket_contents(*old(set)), handle),
        udp_at(socket_contents(*old(set)), handle).bound is None,
    ensures
        r == (target.port != 0),
        !r ==> socket_contents(*final(set)) == socket_contents(*old(set)),
        r ==> socket_contents(*final(set)) == socket_contents(*old(set)).insert(
            handle,
            SocketModel::Udp(
                UdpModel {
                    bound: Some(target),
                    ..udp_at(socket_contents(*old(set)), handle)
                },
            ),
        ),
        socket_limit(*final(set)) == socket_limit(*old(set)),
{
    let o = target.addr.bits.to_be_bytes();
    let addr = Some(IpAddress::v4(o[0], o[1], o[2], o[3]));
    let socket = set.get_mut::<udp::Socket>(handle);
    socket.bind(IpListenEndpoint { addr, port: target.port }).is_ok()
}

/// `tcp::Socket::is_active`: the state is none of closed, listening and
/// time-wait.
#[verifier::external_body]
pub(crate) fn tcp_is_active(set: &SocketSet<'static>, handle: SocketHandle) -> (r: bool)
    requires
        is_tcp(socket_contents(*set), handle),
    ensures
        r == tcp_at(socket_contents(*set), handle).is_active(),
{
    set.get::<tcp::Socket>(handle).is_active()
}

/// `tcp::Socket::local_endpoint`: the near end of the connection, if any.
#[verifier::external_body]
pub(crate) fn tcp_local(set: &SocketSet<'static>, handle: SocketHandle) -> (r: Option<Endpoint>)
    requires
        is_tcp(socket_contents(*set), handle),
    ensures
        r == tcp_at(socket_contents(*set), handle).local,
{
    let end = set.get::<tcp::Socket>(handle).local_endpoint()?;
    let IpAddress::Ipv4(addr) = end.addr;
    Some(Endpoint { addr: Ipv4Addr { bits: u32::from_be_bytes(addr.octets()) }, port: end.port })
}

/// `tcp::Socket::remote_endpoint`: the far end of the connection, if any.
#[verifier::external_body]
pub(crate) fn tcp_remote(set: &SocketSet<'static>, handle: SocketHandle) -> (r: Option<Endpoint>)
    requires
        is_tcp(socket_contents(*set), handle),
    ensures
        r == tcp_at(socket_contents(*set), handle).remote,
{
    let end = set.get::<tcp::Socket>(handle).remote_endpoint()?;
    let IpAddress::Ipv4(addr) = end.addr;
    Some(Endpoint { addr: Ipv4Addr { bits: u32::from_be_bytes(addr.octets()) }, port: end.port })
}

/// `tcp::Socket::abort`: the state becomes closed; the buffers stay.
#[verifier::external_body]
pub(crate) fn tcp_abort(set: &mut SocketSet<'static>, handle: SocketHandle)
    requires
        is_tcp(socket_contents(*old(set)), handle),
    ensures
        socket_contents(*final(set)) == socket_contents(*old(set)).insert(
            handle,
            SocketModel::Tcp(
                TcpModel {
                    phase: TcpPhase::Closed,
                    ..tcp_at(socket_contents(*old(set)), handle)
                },
            ),
        ),
        socket_limit(*final(set)) == socket_limit(*old(set)),
{
    set.get_mut::<tcp::Socket>(handle).abort()
}

/// `tcp::Socket::may_recv`: the receive half is open or octets are left.
#[verifier::external_body]
pub(crate) fn tcp_may_recv(set: &SocketSet<'static>, handle: SocketHandle) -> (r: bool)
    requires
        is_tcp(socket_contents(*set), handle),
    ensures
        r == tcp_at(socket_contents(*set), handle).may_recv(),
{
    set.get::<tcp::Socket>(handle).may_recv()
}

/// `tcp::Socket::may_send`: the transmit half is open.
#[verifier::external_body]
pub(crate) fn tcp_may_send(set: &SocketSet<'static>, handle: SocketHandle) -> (r: bool)
    requires
        is_tcp(socket_contents(*set), handle),
    ensures
        r == tcp_at(socket_contents(*set), handle).may_send(),
{
    set.get::<tcp::Socket>(handle).may_send()
}

/// `tcp::Socket::can_send`: the transmit half is open and has room.
#[verifier::external_body]
pub(crate) fn tcp_can_send(set: &SocketSet<'static>, handle: SocketHandle) -> (r: bool)
    requires
        is_tcp(socket_contents(*set), handle),
    ensures
        r == tcp_at(socket_contents(*set), handle).can_send(),
{
    set.get::<tcp::Socket>(handle).can_send()
}

/// The number of octets that fit.
pub open spec fn fitting(available: nat, room: nat) -> nat {
    if available <= room {
        available
    } else {
        room
    }
}

/// `tcp::Socket::recv_slice`: where the socket may receive, moves as many of
/// the received octets as the buffer has room for to the front of the buffer
/// and counts them; an error where it may not.
#[verifier::external_body]
pub(crate) fn tcp_recv(
    set: &mut SocketSet<'static>,
    handle: SocketHandle,
    buffer: &mut Vec<u8>,
) -> (r: Option<usize>)
    requires
        is_tcp(socket_contents(*old(set)), handle),
    ensures
        ({
            let before = socket_contents(*old(set));
            let m = tcp_at(before, handle);
            let n = fitting(m.received.len(), old(buffer)@.len());
            match r {
                Some(count) => {
                    &&& m.may_recv()
                    &&& count == n
                    &&& final(buffer)@.len() == old(buffer)@.len()
                    &&& final(buffer)@.take(n as int) == m.received.take(n as int)
                    &&& socket_contents(*final(set)) == before.insert(
                        handle,
                        SocketModel::Tcp(TcpModel { received: m.received.skip(n as int), ..m }),
                    )
                },
                None => {
                    &&& !m.may_recv()
                    &&& final(buffer)@ == old(buffer)@
                    &&& socket_contents(*final(set)) == before
                },
            }
        }),
        socket_limit(*final(set)) == socket_limit(*old(set)),
{
    set.get_mut::<tcp::Socket>(handle).recv_slice(buffer.as_mut_slice()).ok()
}

/// `tcp::Socket::send_slice`: where the socket may send, accepts as many
/// octets as the transmit buffer has room for and counts them; an error where
/// it may not.
#[verifier::external_body]
pub(crate) fn tcp_send(
    set: &mut SocketSet<'static>,
    handle: SocketHandle,
    data: &Vec<u8>,
) -> (r: Option<usize>)
    requires
        is_tcp(socket_contents(*old(set)), handle),
    ensures
        ({
            let before = socket_contents(*old(set));
            let m = tcp_at(before, handle);
            let n = fitting(data@.len(), (m.capacity - m.queued.len()) as nat);
            match r {
                Some(count) => {
                    &&& m.may_send()
                    &&& m.queued.len() <= m.capacity
                    &&& count == n
                    &&& socket_contents(*final(set)) == before.insert(
                        handle,
                        SocketModel::Tcp(TcpModel { queued: m.queued + data@.take(n as int), ..m }),
                    )
                },
                None => {
                    &&& !m.may_send()
                    &&& socket_contents(*final(set)) == before
                },
            }
        }),
        socket_limit(*final(set)) == socket_limit(*old(set)),
{
    set.get_mut::<tcp::Socket>(handle).send_slice(data.as_slice()).ok()
}

/// `udp::Socket::recv`: takes the oldest received datagram; an error where
/// there is none.
#[verifier::external_body]
pub(crate) fn udp_recv(set: &mut SocketSet<'static>, handle: SocketHandle) -> (r: Option<
    (Endpoint, Vec<u8>),
>)
    requires
        is_udp(socket_contents(*old(set)), handle),
    ensures
        ({
            let before = socket_contents(*old(set));
            let m = udp_at(before, handle);
            match r {
                Some((peer, data)) => {
                    &&& m.received.len() > 0
                    &&& m.received[0] == (Datagram { peer, data: data@ })
                    &&& socket_contents(*final(set)) == before.insert(
                        handle,
                        SocketModel::Udp(UdpModel { received: m.received.skip(1), ..m }),
                    )
                },
                None => {
                    &&& m.received.len() == 0
                    &&& socket_contents(*final(set)) == before
                },
            }
        }),
        socket_limit(*final(set)) == socket_limit(*old(set)),
{
    let (data, meta) = set.get_mut::<udp::Socket>(handle).recv().ok()?;
    let IpAddress::Ipv4(addr) = meta.endpoint.addr;
    let addr = Ipv4Addr { bits: u32::from_be_bytes(addr.octets()) };
    Some((Endpoint { addr, port: meta.endpoint.port }, data.to_vec()))
}

/// `udp::Socket::send_slice`: accepts the datagram for the peer, or refuses
/// it. It refuses where the socket is not bound, the peer has no address or no
/// port, or the transmit buffer has no room. Else it accepts, as long as what
/// the buffer holds lies in one piece from its start; it then lies so after
/// the call. In a buffer that was partly emptied from the front the room may
/// be in two pieces: which datagrams it then accepts is not stated.
#[verifier::external_body]
pub(crate) fn udp_send(
    set: &mut SocketSet<'static>,
    handle: SocketHandle,
    data: &Vec<u8>,
    peer: Endpoint,
) -> (r: bool)
    requires
        is_udp(socket_contents(*old(set)), handle),
    ensures
        udp_at(socket_contents(*old(set)), handle).may_answer(Datagram { peer, data: data@ }, r),
        socket_contents(*final(set)) == socket_contents(*old(set)).insert(
            handle,
            SocketModel::Udp(
                udp_at(socket_contents(*old(set)), handle).offered(
                    Datagram { peer, data: data@ },
                    r,
                ),
            ),
        ),
        socket_limit(*final(set)) == socket_limit(*old(set)),
{
    let o = peer.addr.bits.to_be_bytes();
    let end = IpEndpoint::new(IpAddress::v4(o[0], o[1], o[2], o[3]), peer.port);
    set.get_mut::<udp::Socket>(handle).send_slice(data.as_slice(), end).is_ok()
}

} // verus!
