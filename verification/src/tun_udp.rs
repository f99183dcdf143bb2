//! UDP flows between the sockets of the IP stack and the remote tunnels.
//!
//! A flow is born with the first datagram that a peer sends to a listening
//! target. Until its tunnel is open, a few datagrams wait with the flow. The
//! caller opens the tunnel, reports the outcome, hands in what the tunnel
//! delivers, and carries out the actions that each round returns.
use crate::sockets;
use crate::sockets::{
    add_udp, remove_socket, udp_bind, udp_recv, udp_send, Datagram, Endpoint, SocketModel,
    UdpModel,
};
use crate::traffic;
use crate::traffic::VpnEngineTrafficStats;
use crate::tun_tcp;
use crate::tun_tcp::{find_target, ConnectOutcome, Connection, Listener, SOCKET_BUFFER};
use smoltcp::iface::{SocketHandle, SocketSet};
use vstd::prelude::*;

verus! {

/// The flows that can exist at a time.
pub const MAX_UDP_FLOWS: usize = 512;

/// The datagrams that wait for a tunnel, at most.
pub const MAX_PENDING: usize = 32;

/// The datagrams that a socket holds each way.
pub const SOCKET_PACKETS: usize = 64;

/// The datagrams that one peer exchanges with one target through a tunnel.
#[derive(Debug)]
pub struct UdpFlow {
    /// The socket of the target.
    pub handle: SocketHandle,
    /// The peer on this side of the tunnel.
    pub peer: Endpoint,
    pub connection: Connection,
    /// The outcome of the connection attempt, until it has been seen.
    pub outcome: Option<ConnectOutcome>,
    /// The datagrams that wait for the tunnel.
    pub pending: Vec<Vec<u8>>,
    /// What the tunnel delivered and the socket was not offered yet.
    pub incoming: Vec<Vec<u8>>,
    pub closed: bool,
}

/// What the caller has to do for a flow.
#[derive(Debug)]
pub enum UdpAction {
    /// Open a tunnel to the target.
    Connect { handle: SocketHandle, peer: Endpoint, target: Endpoint },
    /// Start to read from the open tunnel.
    Attach { handle: SocketHandle, peer: Endpoint },
    /// Write to the tunnel, and count the octets as uploaded where that
    /// succeeds.
    Write { handle: SocketHandle, peer: Endpoint, data: Vec<u8> },
}

// ---------------------------------------------------------------------------
// Model
// ---------------------------------------------------------------------------

/// What a flow holds.
pub struct FlowModel {
    pub handle: SocketHandle,
    pub peer: Endpoint,
    pub connection: Connection,
    pub outcome: Option<ConnectOutcome>,
    pub pending: Seq<Seq<u8>>,
    pub incoming: Seq<Seq<u8>>,
    pub closed: bool,
}

/// An action, with its octets as a sequence.
pub enum ActionModel {
    Connect { handle: SocketHandle, peer: Endpoint, target: Endpoint },
    Attach { handle: SocketHandle, peer: Endpoint },
    Write { handle: SocketHandle, peer: Endpoint, data: Seq<u8> },
}

impl View for UdpFlow {
    type V = FlowModel;

    open spec fn view(&self) -> FlowModel {
        FlowModel {
            handle: self.handle,
            peer: self.peer,
            connection: self.connection,
            outcome: self.outcome,
            pending: tun_tcp::chunks(self.pending@),
            incoming: tun_tcp::chunks(self.incoming@),
            closed: self.closed,
        }
    }
}

impl View for UdpAction {
    type V = ActionModel;

    open spec fn view(&self) -> ActionModel {
        match self {
            UdpAction::Connect { handle, peer, target } => ActionModel::Connect {
                handle: *handle,
                peer: *peer,
                target: *target,
            },
            UdpAction::Attach { handle, peer } => ActionModel::Attach {
                handle: *handle,
                peer: *peer,
            },
            UdpAction::Write { handle, peer, data } => ActionModel::Write {
                handle: *handle,
                peer: *peer,
                data: data@,
            },
        }
    }
}

/// The models of a list of flows.
pub open spec fn flow_models(v: Seq<UdpFlow>) -> Seq<FlowModel> {
    Seq::new(v.len(), |i: int| v[i]@)
}

/// The models of a list of actions.
pub open spec fn action_models(v: Seq<UdpAction>) -> Seq<ActionModel> {
    Seq::new(v.len(), |i: int| v[i]@)
}

/// The flows, what they asked for and how many octets went down.
#[verifier::ext_equal]
pub struct UdpBooks {
    pub flows: Seq<FlowModel>,
    pub actions: Seq<ActionModel>,
    pub down: nat,
}

/// The place of the flow of a socket and a peer, or the number of flows.
pub open spec fn flow_index(flows: Seq<FlowModel>, handle: SocketHandle, peer: Endpoint) -> int
    decreases flows.len(),
{
    if flows.len() == 0 || (flows[0].handle == handle && flows[0].peer == peer) {
        0
    } else {
        1 + flow_index(flows.drop_first(), handle, peer)
    }
}

/// A flow whose tunnel is about to be opened.
pub open spec fn new_flow(handle: SocketHandle, peer: Endpoint) -> FlowModel {
    FlowModel {
        handle,
        peer,
        connection: Connection::Connecting,
        outcome: None,
        pending: Seq::empty(),
        incoming: Seq::empty(),
        closed: false,
    }
}

/// Makes a flow for a socket and a peer that have none, as long as there are
/// not too many flows.
pub open spec fn opened(
    b: UdpBooks,
    handle: SocketHandle,
    target: Endpoint,
    peer: Endpoint,
) -> UdpBooks {
    if flow_index(b.flows, handle, peer) >= b.flows.len() && b.flows.len() < MAX_UDP_FLOWS {
        UdpBooks {
            flows: b.flows.push(new_flow(handle, peer)),
            actions: b.actions.push(ActionModel::Connect { handle, peer, target }),
            ..b
        }
    } else {
        b
    }
}

/// Takes a datagram of a peer: it goes to the open tunnel of its flow, or
/// waits with the flow as long as not too many do. It is lost otherwise.
pub open spec fn admitted(
    b: UdpBooks,
    handle: SocketHandle,
    target: Endpoint,
    d: Datagram,
) -> UdpBooks {
    let open = opened(b, handle, target, d.peer);
    let i = flow_index(open.flows, handle, d.peer);
    if i >= open.flows.len() {
        open
    } else {
        let flow = open.flows[i];
        if flow.connection == Connection::Connected {
            UdpBooks {
                actions: open.actions.push(
                    ActionModel::Write { handle, peer: d.peer, data: d.data },
                ),
                ..open
            }
        } else if flow.pending.len() < MAX_PENDING {
            UdpBooks {
                flows: open.flows.update(
                    i,
                    FlowModel { pending: flow.pending.push(d.data), ..flow },
                ),
                ..open
            }
        } else {
            open
        }
    }
}

/// Takes datagrams in order.
pub open spec fn all_admitted(
    b: UdpBooks,
    handle: SocketHandle,
    target: Endpoint,
    datagrams: Seq<Datagram>,
) -> UdpBooks
    decreases datagrams.len(),
{
    if datagrams.len() == 0 {
        b
    } else {
        admitted(
            all_admitted(b, handle, target, datagrams.drop_last()),
            handle,
            target,
            datagrams.last(),
        )
    }
}

/// The flow after the outcome of the connection attempt is seen. Without a
/// tunnel it is closed.
pub open spec fn settled(flow: FlowModel) -> FlowModel {
    if flow.connection != Connection::Connecting {
        flow
    } else {
        match flow.outcome {
            Some(ConnectOutcome::Connected) => FlowModel {
                connection: Connection::Connected,
                outcome: None,
                ..flow
            },
            Some(_) => FlowModel {
                connection: Connection::Unreachable,
                outcome: None,
                closed: true,
                ..flow
            },
            None => flow,
        }
    }
}

/// Whether the outcome that is seen is an open tunnel.
pub open spec fn attaches(flow: FlowModel) -> bool {
    flow.connection == Connection::Connecting && flow.outcome == Some(ConnectOutcome::Connected)
}

/// The writes of some datagrams to the tunnel of a flow.
pub open spec fn writes(flow: FlowModel, data: Seq<Seq<u8>>) -> Seq<ActionModel> {
    Seq::new(
        data.len(),
        |i: int| ActionModel::Write { handle: flow.handle, peer: flow.peer, data: data[i] },
    )
}

/// The flow after its round: the outcome is seen, an open tunnel takes what
/// waited, and the socket was offered what the tunnel delivered.
pub open spec fn served(flow: FlowModel) -> FlowModel {
    let now = settled(flow);
    FlowModel {
        pending: if now.connection == Connection::Connected {
            Seq::empty()
        } else {
            now.pending
        },
        incoming: Seq::empty(),
        ..now
    }
}

/// What a flow asks for in its round.
pub open spec fn requests(flow: FlowModel) -> Seq<ActionModel> {
    let first = if attaches(flow) {
        seq![ActionModel::Attach { handle: flow.handle, peer: flow.peer }]
    } else {
        Seq::empty()
    };
    if settled(flow).connection == Connection::Connected {
        first + writes(flow, flow.pending)
    } else {
        first
    }
}

/// The octets of some buffers.
pub open spec fn octets(data: Seq<Seq<u8>>) -> nat
    decreases data.len(),
{
    if data.len() == 0 {
        0
    } else {
        octets(data.drop_last()) + data.last().len()
    }
}

/// The datagrams that a flow offers to its socket.
pub open spec fn offers(flow: FlowModel) -> Seq<Datagram> {
    Seq::new(
        flow.incoming.len(),
        |i: int| Datagram { peer: flow.peer, data: flow.incoming[i] },
    )
}

/// The first `n` flows have had their rounds, as far as they belong to the
/// socket.
pub open spec fn flows_served(b: UdpBooks, handle: SocketHandle, n: nat) -> UdpBooks
    decreases n,
{
    if n == 0 {
        b
    } else {
        let before = flows_served(b, handle, (n - 1) as nat);
        let flow = b.flows[n - 1];
        if flow.handle == handle {
            UdpBooks {
                flows: before.flows.update(n - 1, served(flow)),
                actions: before.actions + requests(flow),
                down: before.down + octets(flow.incoming),
            }
        } else {
            before
        }
    }
}

/// The datagrams that the first `n` flows offer to a socket.
pub open spec fn all_offers(flows: Seq<FlowModel>, handle: SocketHandle, n: nat) -> Seq<Datagram>
    decreases n,
{
    if n == 0 {
        Seq::empty()
    } else if flows[n - 1].handle == handle {
        all_offers(flows, handle, (n - 1) as nat) + offers(flows[n - 1])
    } else {
        all_offers(flows, handle, (n - 1) as nat)
    }
}

/// The turn of a listener: what its socket received is taken, then its flows
/// have their rounds.
pub open spec fn udp_turn(b: UdpBooks, listener: Listener, received: Seq<Datagram>) -> UdpBooks {
    let taken = all_admitted(b, listener.handle, listener.target, received);
    flows_served(taken, listener.handle, taken.flows.len())
}

/// The turns of some listeners, in order.
pub open spec fn udp_turns(
    b: UdpBooks,
    listeners: Seq<Listener>,
    all: Map<SocketHandle, SocketModel>,
) -> UdpBooks
    decreases listeners.len(),
{
    if listeners.len() == 0 {
        b
    } else {
        udp_turn(
            udp_turns(b, listeners.drop_last(), all),
            listeners.last(),
            sockets::udp_at(all, listeners.last().handle).received,
        )
    }
}

/// A socket after it was offered datagrams in order and answered so.
pub open spec fn after_offers(
    m: UdpModel,
    datagrams: Seq<Datagram>,
    accepted: Seq<bool>,
) -> UdpModel
    decreases datagrams.len(),
{
    if datagrams.len() == 0 {
        m
    } else {
        after_offers(m, datagrams.drop_last(), accepted.drop_last()).offered(
            datagrams.last(),
            accepted.last(),
        )
    }
}

/// Whether a socket may answer the offers so.
pub open spec fn may_answer_all(m: UdpModel, datagrams: Seq<Datagram>, accepted: Seq<bool>) -> bool
    decreases datagrams.len(),
{
    datagrams.len() == 0 || {
        &&& may_answer_all(m, datagrams.drop_last(), accepted.drop_last())
        &&& after_offers(m, datagrams.drop_last(), accepted.drop_last()).may_answer(
            datagrams.last(),
            accepted.last(),
        )
    }
}

/// The socket of a listener before and after a round: what it received is
/// taken, and it was offered these datagrams in order and answered somehow.
pub open spec fn exchanged(
    before: UdpModel,
    after: UdpModel,
    datagrams: Seq<Datagram>,
    accepted: Seq<bool>,
) -> bool {
    let drained = UdpModel { received: Seq::empty(), ..before };
    &&& accepted.len() == datagrams.len()
    &&& may_answer_all(drained, datagrams, accepted)
    &&& after == after_offers(drained, datagrams, accepted)
}

/// Listeners name different UDP sockets of the set, and no two have one
/// target.
pub open spec fn udp_wf(all: Map<SocketHandle, SocketModel>, listeners: Seq<Listener>) -> bool {
    &&& forall|i: int|
        0 <= i < listeners.len() ==> sockets::is_udp(all, (#[trigger] listeners[i]).handle)
    &&& forall|i: int, j: int|
        0 <= i < j < listeners.len() ==> (#[trigger] listeners[i]).handle != (
        #[trigger] listeners[j]).handle
    &&& forall|i: int, j: int|
        0 <= i < j < listeners.len() ==> (#[trigger] listeners[i]).target != (
        #[trigger] listeners[j]).target
}

/// There are not too many flows, none keeps too many datagrams waiting, no two
/// have one socket and one peer, and an open tunnel keeps none waiting.
pub open spec fn flows_wf(flows: Seq<FlowModel>) -> bool {
    &&& flows.len() <= MAX_UDP_FLOWS
    &&& forall|i: int|
        0 <= i < flows.len() ==> (#[trigger] flows[i]).pending.len() <= MAX_PENDING && (
        flows[i].connection == Connection::Connected ==> flows[i].pending.len() == 0)
    &&& forall|i: int, j: int|
        0 <= i < j < flows.len() ==> ((#[trigger] flows[i]).handle != (#[trigger] flows[j]).handle
            || flows[i].peer != flows[j].peer)
}

/// A socket that is bound for a new listener.
pub open spec fn bound(target: Endpoint) -> UdpModel {
    UdpModel {
        bound: Some(target),
        ..sockets::fresh_udp(SOCKET_PACKETS as nat, SOCKET_BUFFER as nat)
    }
}

// ---------------------------------------------------------------------------
// The stack
// ---------------------------------------------------------------------------

/// Makes sure that datagrams for a target are received: unless the target has
/// a listener, a new socket is bound for it. A target without a port gets
/// none.
pub fn ensure_udp_listener(
    set: &mut SocketSet<'static>,
    listeners: &mut Vec<Listener>,
    target: Endpoint,
)
    requires
        sockets::socket_limit(*old(set)) is None,
        udp_wf(sockets::socket_contents(*old(set)), old(listeners)@),
    ensures
        sockets::socket_limit(*final(set)) is None,
        udp_wf(sockets::socket_contents(*final(set)), final(listeners)@),
        tun_tcp::wants_listener(old(listeners)@, target) ==> {
            let fresh = final(listeners)@.last().handle;
            &&& !sockets::socket_contents(*old(set)).dom().contains(fresh)
            &&& sockets::socket_contents(*final(set)) == sockets::socket_contents(
                *old(set),
            ).insert(fresh, SocketModel::Udp(bound(target)))
            &&& final(listeners)@ == old(listeners)@.push(Listener { target, handle: fresh })
        },
        !tun_tcp::wants_listener(old(listeners)@, target) ==> {
            &&& sockets::socket_contents(*final(set)) == sockets::socket_contents(*old(set))
            &&& final(listeners)@ == old(listeners)@
        },
        target.port != 0 ==> exists|k: int|
            0 <= k < final(listeners)@.len() && (#[trigger] final(listeners)@[k]).target == target,
        target.port == 0 || (exists|k: int|
            0 <= k < old(listeners)@.len() && (#[trigger] old(listeners)@[k]).target == target)
            ==> final(listeners)@ == old(listeners)@,
        final(listeners)@ != old(listeners)@ ==> {
            let last = final(listeners)@.last();
            let socket = sockets::udp_at(sockets::socket_contents(*final(set)), last.handle);
            &&& final(listeners)@.drop_last() == old(listeners)@
            &&& last.target == target
            &&& sockets::is_udp(sockets::socket_contents(*final(set)), last.handle)
            &&& socket.bound == Some(target)
            &&& socket.received.len() == 0 && socket.sent.len() == 0
            &&& socket.packets == 64 && socket.capacity == 262144
        },
{
    let ghost contents = sockets::socket_contents(*set);
    let ghost known = listeners@;
    proof {
        tun_tcp::lemma_target_bounds(known, target);
    }
    if find_target(listeners, target) < listeners.len() {
        assert(known[tun_tcp::target_index(known, target)].target == target);
        return ;
    }
    let handle = add_udp(set, SOCKET_PACKETS, SOCKET_BUFFER);
    if udp_bind(set, handle, target) {
        listeners.push(Listener { target, handle });
        assert(listeners@[known.len() as int].target == target);
        assert(listeners@.drop_last() =~= known);
        assert(sockets::socket_contents(*set) =~= contents.insert(
            handle,
            SocketModel::Udp(bound(target)),
        ));
    } else {
        remove_socket(set, handle);
        assert(sockets::socket_contents(*set) =~= contents);
    }
}

proof fn lemma_flow_index(s: Seq<FlowModel>, handle: SocketHandle, peer: Endpoint, i: int)
    requires
        0 <= i <= s.len(),
        i < s.len() ==> s[i].handle == handle && s[i].peer == peer,
        forall|k: int|
            0 <= k < i ==> (#[trigger] s[k]).handle != handle || s[k].peer != peer,
    ensures
        flow_index(s, handle, peer) == i,
    decreases s.len(),
{
    if i > 0 {
        let t = s.drop_first();
        assert forall|k: int| 0 <= k < i - 1 implies (#[trigger] t[k]).handle != handle
            || t[k].peer != peer by {
            assert(t[k] == s[k + 1]);
        }
        assert(s[0].handle != handle || s[0].peer != peer);
        lemma_flow_index(t, handle, peer, i - 1);
    }
}

/// The place of the flow of a socket and a peer, or the number of flows.
pub(crate) fn find_udp_flow(flows: &Vec<UdpFlow>, handle: SocketHandle, peer: Endpoint) -> (r: usize)
    ensures
        r == flow_index(flow_models(flows@), handle, peer),
        r <= flows.len(),
{
    let mut i: usize = 0;
    let ghost models = flow_models(flows@);
    while i < flows.len() && !(flows[i].handle == handle && flows[i].peer == peer)
        invariant
            i <= flows.len(),
            forall|k: int|
                0 <= k < i ==> (#[trigger] flows@[k]).handle != handle || flows@[k].peer != peer,
        decreases flows.len() - i,
    {
        i = i + 1;
    }
    proof {
        assert forall|k: int| 0 <= k < i implies (#[trigger] models[k]).handle != handle
            || models[k].peer != peer by {
            assert(models[k] == flows@[k]@);
        }
        lemma_flow_index(models, handle, peer, i as int);
    }
    i
}

/// The datagrams of a list.
spec fn datagrams_of(v: Seq<(Endpoint, Vec<u8>)>) -> Seq<Datagram> {
    Seq::new(v.len(), |i: int| Datagram { peer: v[i].0, data: v[i].1@ })
}

/// Takes everything that a socket received.
fn drain(set: &mut SocketSet<'static>, handle: SocketHandle) -> (r: Vec<(Endpoint, Vec<u8>)>)
    requires
        sockets::is_udp(sockets::socket_contents(*old(set)), handle),
    ensures
        sockets::socket_limit(*final(set)) == sockets::socket_limit(*old(set)),
        ({
            let before = sockets::socket_contents(*old(set));
            let m = sockets::udp_at(before, handle);
            &&& datagrams_of(r@) == m.received
            &&& sockets::socket_contents(*final(set)) == before.insert(
                handle,
                SocketModel::Udp(UdpModel { received: Seq::empty(), ..m }),
            )
        }),
{
    let ghost before = sockets::socket_contents(*set);
    let ghost m = sockets::udp_at(before, handle);
    let ghost mut now = m;
    let mut r: Vec<(Endpoint, Vec<u8>)> = Vec::new();
    let mut more = true;
    assert(m.received.skip(0) =~= m.received);
    assert(sockets::socket_contents(*set) =~= before.insert(handle, SocketModel::Udp(now)));
    assert(datagrams_of(r@) =~= m.received.take(0));
    while more
        invariant
            r@.len() <= m.received.len(),
            now == (UdpModel { received: m.received.skip(r@.len() as int), ..m }),
            sockets::socket_limit(*set) == sockets::socket_limit(*old(set)),
            sockets::socket_contents(*set) == before.insert(handle, SocketModel::Udp(now)),
            datagrams_of(r@) == m.received.take(r@.len() as int),
            !more ==> r@.len() == m.received.len(),
        decreases m.received.len() - r@.len(), (if more { 1int } else { 0int }),
    {
        let ghost got = datagrams_of(r@);
        match udp_recv(set, handle) {
            Some(datagram) => {
                r.push(datagram);
                proof {
                    let d = Datagram { peer: datagram.0, data: datagram.1@ };
                    assert(datagrams_of(r@) =~= got.push(d));
                    assert(m.received.take(r@.len() as int) =~= got.push(d));
                    assert(now.received.skip(1) =~= m.received.skip(r@.len() as int));
                    now = UdpModel { received: m.received.skip(r@.len() as int), ..m };
                    assert(sockets::socket_contents(*set) =~= before.insert(
                        handle,
                        SocketModel::Udp(now),
                    ));
                }
            },
            None => {
                more = false;
            },
        }
    }
    assert(m.received.take(r@.len() as int) =~= m.received);
    assert(m.received.skip(r@.len() as int) =~= Seq::<Datagram>::empty());
    r
}

/// Takes one datagram of a peer.
fn take_datagram(
    flows: &mut Vec<UdpFlow>,
    actions: &mut Vec<UdpAction>,
    handle: SocketHandle,
    target: Endpoint,
    peer: Endpoint,
    data: Vec<u8>,
)
    ensures
        ({
            let before = UdpBooks {
                flows: flow_models(old(flows)@),
                actions: action_models(old(actions)@),
                down: 0,
            };
            let after = admitted(before, handle, target, Datagram { peer, data: data@ });
            &&& flow_models(final(flows)@) == after.flows
            &&& action_models(final(actions)@) == after.actions
        }),
{
    let ghost before = UdpBooks {
        flows: flow_models(flows@),
        actions: action_models(actions@),
        down: 0,
    };
    let ghost open = opened(before, handle, target, peer);
    let known = find_udp_flow(flows, handle, peer);
    if known >= flows.len() && flows.len() < MAX_UDP_FLOWS {
        actions.push(UdpAction::Connect { handle, peer, target });
        flows.push(
            UdpFlow {
                handle,
                peer,
                connection: Connection::Connecting,
                outcome: None,
                pending: Vec::new(),
                incoming: Vec::new(),
                closed: false,
            },
        );
        assert(flows@.last()@.pending =~= Seq::<Seq<u8>>::empty());
        assert(flows@.last()@.incoming =~= Seq::<Seq<u8>>::empty());
    }
    assert(flow_models(flows@) =~= open.flows);
    assert(action_models(actions@) =~= open.actions);
    let i = find_udp_flow(flows, handle, peer);
    if i < flows.len() {
        assert(open.flows[i as int] == flows@[i as int]@);
        if flows[i].connection == Connection::Connected {
            actions.push(UdpAction::Write { handle, peer, data });
            assert(action_models(actions@) =~= open.actions.push(
                ActionModel::Write { handle, peer, data: data@ },
            ));
        } else if flows[i].pending.len() < MAX_PENDING {
            let ghost waiting = tun_tcp::chunks(flows@[i as int].pending@);
            flows[i].pending.push(data);
            assert(tun_tcp::chunks(flows@[i as int].pending@) =~= waiting.push(data@));
            assert(flow_models(flows@) =~= open.flows.update(i as int, flows@[i as int]@));
        }
    }
}

/// The round of a flow. Returns how the socket answered the offers.
fn serve_flow(
    set: &mut SocketSet<'static>,
    flow: &mut UdpFlow,
    actions: &mut Vec<UdpAction>,
    stats: &mut VpnEngineTrafficStats,
) -> (accepted: Ghost<Seq<bool>>)
    requires
        sockets::is_udp(sockets::socket_contents(*old(set)), old(flow).handle),
    ensures
        final(flow)@ == served(old(flow)@),
        action_models(final(actions)@) == action_models(old(actions)@) + requests(old(flow)@),
        *final(stats) == (VpnEngineTrafficStats {
            download_bytes: traffic::counted(
                old(stats).download_bytes,
                octets(old(flow)@.incoming),
            ),
            ..*old(stats)
        }),
        sockets::socket_limit(*final(set)) == sockets::socket_limit(*old(set)),
        ({
            let before = sockets::socket_contents(*old(set));
            let m = sockets::udp_at(before, old(flow).handle);
            &&& accepted@.len() == offers(old(flow)@).len()
            &&& may_answer_all(m, offers(old(flow)@), accepted@)
            &&& sockets::socket_contents(*final(set)) == before.insert(
                old(flow).handle,
                SocketModel::Udp(after_offers(m, offers(old(flow)@), accepted@)),
            )
        }),
{
    let handle = flow.handle;
    let peer = flow.peer;
    let ghost model = flow@;
    let ghost told = action_models(actions@);
    let ghost before = sockets::socket_contents(*set);
    let ghost m = sockets::udp_at(before, handle);
    if flow.connection == Connection::Connecting {
        match flow.outcome {
            Some(ConnectOutcome::Connected) => {
                actions.push(UdpAction::Attach { handle, peer });
                flow.connection = Connection::Connected;
                flow.outcome = None;
            },
            Some(_) => {
                flow.connection = Connection::Unreachable;
                flow.outcome = None;
                flow.closed = true;
            },
            None => {},
        }
    }
    let ghost first: Seq<ActionModel> = if attaches(model) {
        seq![ActionModel::Attach { handle, peer }]
    } else {
        Seq::empty()
    };
    assert(flow@ == settled(model));
    assert(action_models(actions@) =~= told + first);
    if flow.connection == Connection::Connected {
        let ghost waiting = model.pending;
        let ghost mut flushed: int = 0;
        assert(waiting.skip(0) =~= waiting);
        assert(writes(model, waiting.take(0)) =~= Seq::<ActionModel>::empty());
        assert(told + first + writes(model, waiting.take(0)) =~= told + first);
        while flow.pending.len() > 0
            invariant
                flow.handle == handle,
                flow.peer == peer,
                model.handle == handle,
                model.peer == peer,
                flow.connection == settled(model).connection,
                flow.outcome == settled(model).outcome,
                flow.closed == settled(model).closed,
                tun_tcp::chunks(flow.incoming@) == model.incoming,
                0 <= flushed <= waiting.len(),
                tun_tcp::chunks(flow.pending@) == waiting.skip(flushed),
                action_models(actions@) == told + first + writes(model, waiting.take(flushed)),
            decreases flow.pending.len(),
        {
            let ghost queue = tun_tcp::chunks(flow.pending@);
            let ghost asked = action_models(actions@);
            let data = flow.pending.remove(0);
            assert(queue.len() == waiting.len() - flushed);
            assert(data@ == queue[0]);
            assert(data@ == waiting[flushed]);
            actions.push(UdpAction::Write { handle, peer, data });
            proof {
                assert(tun_tcp::chunks(flow.pending@) =~= queue.drop_first());
                assert(queue.drop_first() =~= waiting.skip(flushed + 1));
                let w = ActionModel::Write { handle, peer, data: data@ };
                assert(action_models(actions@) =~= asked.push(w));
                assert(writes(model, waiting.take(flushed + 1)) =~= writes(
                    model,
                    waiting.take(flushed),
                ).push(w));
                assert(action_models(actions@) =~= told + first + writes(
                    model,
                    waiting.take(flushed + 1),
                ));
                flushed = flushed + 1;
            }
        }
        proof {
            assert(tun_tcp::chunks(flow.pending@).len() == 0);
            assert(flushed == waiting.len());
            assert(waiting.take(flushed) =~= waiting);
            assert(told + first + writes(model, waiting) =~= told + (first + writes(
                model,
                waiting,
            )));
        }
    }
    assert(action_models(actions@) =~= told + requests(model));
    let ghost all = model.incoming;
    let ghost mut done: int = 0;
    let ghost mut accepted: Seq<bool> = Seq::empty();
    let ghost mut now = m;
    proof {
        assert(all.skip(0) =~= all);
        assert(octets(all.take(0)) == 0);
        traffic::lemma_counted(stats.download_bytes, 0, 0);
        assert(sockets::socket_contents(*set) =~= before.insert(handle, SocketModel::Udp(now)));
        assert(offers(model).take(0) =~= Seq::<Datagram>::empty());
    }
    while flow.incoming.len() > 0
        invariant
            flow.handle == handle,
            flow.peer == peer,
            model.handle == handle,
            model.peer == peer,
            all == model.incoming,
            flow.connection == settled(model).connection,
            flow.outcome == settled(model).outcome,
            flow.closed == settled(model).closed,
            tun_tcp::chunks(flow.pending@) == served(model).pending,
            0 <= done <= all.len(),
            tun_tcp::chunks(flow.incoming@) == all.skip(done),
            action_models(actions@) == told + requests(model),
            accepted.len() == done,
            may_answer_all(m, offers(model).take(done), accepted),
            now == after_offers(m, offers(model).take(done), accepted),
            sockets::socket_limit(*set) == sockets::socket_limit(*old(set)),
            sockets::socket_contents(*set) == before.insert(handle, SocketModel::Udp(now)),
            *stats == (VpnEngineTrafficStats {
                download_bytes: traffic::counted(old(stats).download_bytes, octets(all.take(done))),
                ..*old(stats)
            }),
        decreases flow.incoming.len(),
    {
        let ghost queue = tun_tcp::chunks(flow.incoming@);
        let data = flow.incoming.remove(0);
        assert(queue.len() == all.len() - done);
        assert(data@ == queue[0]);
        assert(data@ == all[done]);
        let taken = udp_send(set, handle, &data, peer);
        stats.add_download_bytes(data.len());
        proof {
            assert(tun_tcp::chunks(flow.incoming@) =~= queue.drop_first());
            assert(queue.drop_first() =~= all.skip(done + 1));
            let d = Datagram { peer, data: data@ };
            let offered = offers(model).take(done + 1);
            assert(offered.drop_last() =~= offers(model).take(done));
            assert(offered.last() == d);
            assert(accepted.push(taken).drop_last() =~= accepted);
            assert(all.take(done + 1).drop_last() =~= all.take(done));
            assert(all.take(done + 1).last() == data@);
            traffic::lemma_counted(old(stats).download_bytes, octets(all.take(done)), data@.len());
            accepted = accepted.push(taken);
            now = now.offered(d, taken);
            done = done + 1;
            assert(sockets::socket_contents(*set) =~= before.insert(
                handle,
                SocketModel::Udp(now),
            ));
        }
    }
    proof {
        assert(tun_tcp::chunks(flow.incoming@).len() == 0);
        assert(done == all.len());
        assert(all.take(done) =~= all);
        assert(offers(model).take(done) =~= offers(model));
        assert(tun_tcp::chunks(flow.incoming@) =~= Seq::<Seq<u8>>::empty());
    }
    Ghost(accepted)
}

proof fn lemma_served_prefix(b: UdpBooks, handle: SocketHandle, n: nat)
    requires
        n <= b.flows.len(),
    ensures
        flows_served(b, handle, n).flows.len() == b.flows.len(),
        forall|i: int|
            0 <= i < b.flows.len() ==> #[trigger] flows_served(b, handle, n).flows[i] == if i < n
                && b.flows[i].handle == handle {
                served(b.flows[i])
            } else {
                b.flows[i]
            },
    decreases n,
{
    if n > 0 {
        lemma_served_prefix(b, handle, (n - 1) as nat);
    }
}

proof fn lemma_after_offers(m: UdpModel, a: Seq<Datagram>, b: Seq<Datagram>, x: Seq<bool>, y: Seq<bool>)
    requires
        x.len() == a.len(),
        y.len() == b.len(),
    ensures
        after_offers(m, a + b, x + y) == after_offers(after_offers(m, a, x), b, y),
        may_answer_all(m, a + b, x + y) == (may_answer_all(m, a, x) && may_answer_all(
            after_offers(m, a, x),
            b,
            y,
        )),
    decreases b.len(),
{
    if b.len() == 0 {
        assert(a + b =~= a);
        assert(x + y =~= x);
    } else {
        assert((a + b).drop_last() =~= a + b.drop_last());
        assert((x + y).drop_last() =~= x + y.drop_last());
        assert((a + b).last() == b.last());
        assert((x + y).last() == y.last());
        lemma_after_offers(m, a, b.drop_last(), x, y.drop_last());
    }
}

/// The flows of a socket have the same to deliver, and new flows nothing.
spec fn kept_for(a: Seq<FlowModel>, c: Seq<FlowModel>, handle: SocketHandle) -> bool {
    &&& a.len() <= c.len()
    &&& forall|i: int| #![trigger c[i]]
        0 <= i < a.len() ==> c[i].handle == a[i].handle && (a[i].handle == handle ==> c[i].peer
            == a[i].peer && c[i].incoming == a[i].incoming)
    &&& forall|i: int| a.len() <= i < c.len() ==> (#[trigger] c[i]).incoming.len() == 0
}

proof fn lemma_same_offers(a: Seq<FlowModel>, c: Seq<FlowModel>, handle: SocketHandle, n: nat)
    requires
        kept_for(a, c, handle),
        n <= c.len(),
    ensures
        all_offers(c, handle, n) == all_offers(a, handle, if n <= a.len() { n } else { a.len() }),
    decreases n,
{
    if n > 0 {
        lemma_same_offers(a, c, handle, (n - 1) as nat);
        if n <= a.len() {
            if a[n - 1].handle == handle {
                assert(offers(c[n - 1]) =~= offers(a[n - 1]));
            }
        } else {
            assert(offers(c[n - 1]) =~= Seq::<Datagram>::empty());
            assert(all_offers(c, handle, (n - 1) as nat) + Seq::<Datagram>::empty()
                =~= all_offers(c, handle, (n - 1) as nat));
        }
    }
}

/// Taking datagrams changes of the flows only what waits, and adds flows that
/// have nothing to deliver.
spec fn kept(a: Seq<FlowModel>, c: Seq<FlowModel>) -> bool {
    &&& a.len() <= c.len()
    &&& forall|i: int| #![trigger c[i]]
        0 <= i < a.len() ==> c[i].handle == a[i].handle && c[i].peer == a[i].peer && c[i].incoming
            == a[i].incoming
    &&& forall|i: int| a.len() <= i < c.len() ==> (#[trigger] c[i]).incoming.len() == 0
}

proof fn lemma_index_bounds(s: Seq<FlowModel>, handle: SocketHandle, peer: Endpoint)
    ensures
        0 <= flow_index(s, handle, peer) <= s.len(),
        flow_index(s, handle, peer) < s.len() ==> s[flow_index(s, handle, peer)].handle == handle
            && s[flow_index(s, handle, peer)].peer == peer,
        forall|k: int|
            0 <= k < flow_index(s, handle, peer) ==> (#[trigger] s[k]).handle != handle
                || s[k].peer != peer,
    decreases s.len(),
{
    if s.len() > 0 && !(s[0].handle == handle && s[0].peer == peer) {
        let t = s.drop_first();
        lemma_index_bounds(t, handle, peer);
        assert forall|k: int| 0 <= k < flow_index(s, handle, peer) implies (
        #[trigger] s[k]).handle != handle || s[k].peer != peer by {
            if k > 0 {
                assert(t[k - 1] == s[k]);
            }
        }
    }
}

proof fn lemma_admitted_keeps(b: UdpBooks, handle: SocketHandle, target: Endpoint, ds: Seq<Datagram>)
    ensures
        kept(b.flows, all_admitted(b, handle, target, ds).flows),
        all_admitted(b, handle, target, ds).down == b.down,
    decreases ds.len(),
{
    if ds.len() > 0 {
        lemma_admitted_keeps(b, handle, target, ds.drop_last());
        let a = all_admitted(b, handle, target, ds.drop_last());
        let open = opened(a, handle, target, ds.last().peer);
        lemma_index_bounds(open.flows, handle, ds.last().peer);
        let c = admitted(a, handle, target, ds.last());
        assert(kept(b.flows, open.flows));
        assert forall|i: int| 0 <= i < open.flows.len() implies #[trigger] c.flows[i].handle
            == open.flows[i].handle && c.flows[i].peer == open.flows[i].peer && c.flows[i].incoming
            == open.flows[i].incoming by {}
    }
}

/// The turn of one listener. Returns how its socket answered the offers.
fn serve_listener(
    set: &mut SocketSet<'static>,
    flows: &mut Vec<UdpFlow>,
    actions: &mut Vec<UdpAction>,
    stats: &mut VpnEngineTrafficStats,
    listener: Listener,
    Ghost(books): Ghost<UdpBooks>,
    Ghost(start): Ghost<u64>,
) -> (accepted: Ghost<Seq<bool>>)
    requires
        sockets::is_udp(sockets::socket_contents(*old(set)), listener.handle),
        flow_models(old(flows)@) == books.flows,
        action_models(old(actions)@) == books.actions,
        old(stats).download_bytes == traffic::counted(start, books.down),
    ensures
        sockets::socket_limit(*final(set)) == sockets::socket_limit(*old(set)),
        ({
            let before = sockets::socket_contents(*old(set));
            let after = sockets::socket_contents(*final(set));
            let h = listener.handle;
            let m = sockets::udp_at(before, h);
            let turn = udp_turn(books, listener, m.received);
            &&& flow_models(final(flows)@) == turn.flows
            &&& action_models(final(actions)@) == turn.actions
            &&& *final(stats) == (VpnEngineTrafficStats {
                download_bytes: traffic::counted(start, turn.down),
                ..*old(stats)
            })
            &&& sockets::is_udp(after, h)
            &&& after == before.insert(h, after[h])
            &&& exchanged(
                m,
                sockets::udp_at(after, h),
                all_offers(books.flows, h, books.flows.len()),
                accepted@,
            )
        }),
{
    let handle = listener.handle;
    let target = listener.target;
    let ghost before = sockets::socket_contents(*set);
    let ghost m = sockets::udp_at(before, handle);
    let mut datagrams = drain(set, handle);
    let ghost all = datagrams_of(datagrams@);
    let ghost mut done: int = 0;
    proof {
        assert(all.skip(0) =~= all);
        assert(all.take(0) =~= Seq::<Datagram>::empty());
    }
    while datagrams.len() > 0
        invariant
            0 <= done <= all.len(),
            datagrams_of(datagrams@) == all.skip(done),
            flow_models(flows@) == all_admitted(books, handle, target, all.take(done)).flows,
            action_models(actions@) == all_admitted(books, handle, target, all.take(done)).actions,
        decreases datagrams.len(),
    {
        let ghost queue = datagrams_of(datagrams@);
        let ghost now = all_admitted(books, handle, target, all.take(done));
        let (peer, data) = datagrams.remove(0);
        proof {
            assert(datagrams_of(datagrams@) =~= queue.drop_first());
            assert(queue.drop_first() =~= all.skip(done + 1));
            assert(all[done] == queue[0]);
            assert(all.take(done + 1).drop_last() =~= all.take(done));
            assert(all.take(done + 1).last() == all[done]);
            done = done + 1;
        }
        take_datagram(flows, actions, handle, target, peer, data);
    }
    let ghost taken = all_admitted(books, handle, target, all);
    proof {
        assert(datagrams_of(datagrams@).len() == 0);
        assert(all.take(done) =~= all);
        lemma_admitted_keeps(books, handle, target, all);
        lemma_same_offers(books.flows, taken.flows, handle, taken.flows.len());
    }
    let ghost drained = UdpModel { received: Seq::empty(), ..m };
    let ghost mut answers: Seq<bool> = Seq::empty();
    let mut i: usize = 0;
    while i < flows.len()
        invariant
            i <= flows.len(),
            flows@.len() == taken.flows.len(),
            flow_models(flows@) == flows_served(taken, handle, i as nat).flows,
            action_models(actions@) == flows_served(taken, handle, i as nat).actions,
            *stats == (VpnEngineTrafficStats {
                download_bytes: traffic::counted(
                    start,
                    flows_served(taken, handle, i as nat).down,
                ),
                ..*old(stats)
            }),
            sockets::socket_limit(*set) == sockets::socket_limit(*old(set)),
            answers.len() == all_offers(taken.flows, handle, i as nat).len(),
            may_answer_all(drained, all_offers(taken.flows, handle, i as nat), answers),
            sockets::socket_contents(*set) == before.insert(
                handle,
                SocketModel::Udp(
                    after_offers(drained, all_offers(taken.flows, handle, i as nat), answers),
                ),
            ),
        decreases flows.len() - i,
    {
        proof {
            lemma_served_prefix(taken, handle, i as nat);
            assert(flow_models(flows@)[i as int] == taken.flows[i as int]);
            assert(flows@[i as int]@ == taken.flows[i as int]);
        }
        let ghost was = flow_models(flows@);
        let ghost so_far = flows_served(taken, handle, i as nat);
        let ghost earlier = all_offers(taken.flows, handle, i as nat);
        if flows[i].handle == handle {
            let Ghost(mine) = serve_flow(set, &mut flows[i], actions, stats);
            proof {
                let flow = taken.flows[i as int];
                assert(flow_models(flows@) =~= was.update(i as int, served(flow)));
                lemma_after_offers(drained, earlier, offers(flow), answers, mine);
                traffic::lemma_counted(start, so_far.down, octets(flow.incoming));
                answers = answers + mine;
                assert(sockets::socket_contents(*set) =~= before.insert(
                    handle,
                    SocketModel::Udp(
                        after_offers(
                            drained,
                            all_offers(taken.flows, handle, (i + 1) as nat),
                            answers,
                        ),
                    ),
                ));
            }
        }
        i = i + 1;
    }
    Ghost(answers)
}

proof fn lemma_turns_keep(
    b: UdpBooks,
    listeners: Seq<Listener>,
    all: Map<SocketHandle, SocketModel>,
    h: SocketHandle,
)
    requires
        forall|i: int| 0 <= i < listeners.len() ==> (#[trigger] listeners[i]).handle != h,
    ensures
        kept_for(b.flows, udp_turns(b, listeners, all).flows, h),
    decreases listeners.len(),
{
    if listeners.len() > 0 {
        let fewer = listeners.drop_last();
        let l = listeners.last();
        assert forall|i: int| 0 <= i < fewer.len() implies (#[trigger] fewer[i]).handle != h by {
            assert(listeners[i].handle != h);
        }
        assert(listeners[listeners.len() - 1].handle != h);
        lemma_turns_keep(b, fewer, all, h);
        let a = udp_turns(b, fewer, all);
        let received = sockets::udp_at(all, l.handle).received;
        lemma_admitted_keeps(a, l.handle, l.target, received);
        let taken = all_admitted(a, l.handle, l.target, received);
        lemma_served_prefix(taken, l.handle, taken.flows.len());
        let c = udp_turn(a, l, received);
        assert forall|i: int| #![trigger c.flows[i]] 0 <= i < b.flows.len() implies c.flows[i].handle
            == b.flows[i].handle && (b.flows[i].handle == h ==> c.flows[i].peer == b.flows[i].peer
            && c.flows[i].incoming == b.flows[i].incoming) by {
            assert(a.flows[i].handle == b.flows[i].handle);
            assert(taken.flows[i].handle == a.flows[i].handle);
        }
        assert forall|i: int| b.flows.len() <= i < c.flows.len() implies (
        #[trigger] c.flows[i]).incoming.len() == 0 by {
            if i < a.flows.len() {
                assert(a.flows[i].incoming.len() == 0);
            }
            assert(taken.flows[i].incoming.len() == 0);
        }
    }
}

/// Whether the socket of a listener has had its exchange.
spec fn listener_done(
    before: Map<SocketHandle, SocketModel>,
    after: Map<SocketHandle, SocketModel>,
    flows: Seq<FlowModel>,
    h: SocketHandle,
) -> bool {
    &&& sockets::is_udp(after, h)
    &&& exists|accepted: Seq<bool>| #[trigger]
        exchanged(
            sockets::udp_at(before, h),
            sockets::udp_at(after, h),
            all_offers(flows, h, flows.len()),
            accepted,
        )
}

/// One round of the UDP half of the stack. Each listener has its turn: the
/// datagrams that its socket received go to their flows, and its flows see the
/// outcome of their connection attempts, hand over what waited, and offer the
/// socket what their tunnels delivered.
pub fn process_udp(
    set: &mut SocketSet<'static>,
    listeners: &Vec<Listener>,
    flows: &mut Vec<UdpFlow>,
    stats: &mut VpnEngineTrafficStats,
) -> (actions: Vec<UdpAction>)
    requires
        udp_wf(sockets::socket_contents(*old(set)), listeners@),
    ensures
        udp_wf(sockets::socket_contents(*final(set)), listeners@),
        sockets::socket_limit(*final(set)) == sockets::socket_limit(*old(set)),
        ({
            let before = sockets::socket_contents(*old(set));
            let books = UdpBooks {
                flows: flow_models(old(flows)@),
                actions: Seq::empty(),
                down: 0,
            };
            let turns = udp_turns(books, listeners@, before);
            &&& flow_models(final(flows)@) == turns.flows
            &&& action_models(actions@) == turns.actions
            &&& *final(stats) == (VpnEngineTrafficStats {
                download_bytes: traffic::counted(old(stats).download_bytes, turns.down),
                ..*old(stats)
            })
        }),
        sockets::socket_contents(*final(set)).dom() == sockets::socket_contents(*old(set)).dom(),
        forall|i: int|
            0 <= i < listeners@.len() ==> exists|accepted: Seq<bool>| #[trigger]
                exchanged(
                    sockets::udp_at(
                        sockets::socket_contents(*old(set)),
                        (#[trigger] listeners@[i]).handle,
                    ),
                    sockets::udp_at(sockets::socket_contents(*final(set)), listeners@[i].handle),
                    all_offers(
                        flow_models(old(flows)@),
                        listeners@[i].handle,
                        old(flows)@.len(),
                    ),
                    accepted,
                ),
        forall|h: SocketHandle|
            sockets::socket_contents(*old(set)).dom().contains(h) && (forall|i: int|
                0 <= i < listeners@.len() ==> (#[trigger] listeners@[i]).handle != h) ==> (
            #[trigger] sockets::socket_contents(*final(set))[h]) == sockets::socket_contents(
                *old(set),
            )[h],
{
    let ghost before = sockets::socket_contents(*set);
    let ghost books = UdpBooks { flows: flow_models(flows@), actions: Seq::empty(), down: 0 };
    let ghost start = stats.download_bytes;
    let mut actions: Vec<UdpAction> = Vec::new();
    let mut i: usize = 0;
    proof {
        assert(action_models(actions@) =~= Seq::<ActionModel>::empty());
        assert(listeners@.take(0) =~= Seq::<Listener>::empty());
        traffic::lemma_counted(start, 0, 0);
    }
    while i < listeners.len()
        invariant
            i <= listeners.len(),
            books == (UdpBooks {
                flows: flow_models(old(flows)@),
                actions: Seq::empty(),
                down: 0,
            }),
            start == old(stats).download_bytes,
            before == sockets::socket_contents(*old(set)),
            udp_wf(before, listeners@),
            flow_models(flows@) == udp_turns(books, listeners@.take(i as int), before).flows,
            action_models(actions@) == udp_turns(
                books,
                listeners@.take(i as int),
                before,
            ).actions,
            *stats == (VpnEngineTrafficStats {
                download_bytes: traffic::counted(
                    start,
                    udp_turns(books, listeners@.take(i as int), before).down,
                ),
                ..*old(stats)
            }),
            sockets::socket_limit(*set) == sockets::socket_limit(*old(set)),
            sockets::socket_contents(*set).dom() == before.dom(),
            forall|k: int|
                0 <= k < i ==> listener_done(
                    before,
                    sockets::socket_contents(*set),
                    books.flows,
                    (#[trigger] listeners@[k]).handle,
                ),
            forall|h: SocketHandle|
                before.dom().contains(h) && (forall|k: int|
                    0 <= k < i ==> (#[trigger] listeners@[k]).handle != h) ==> (
                #[trigger] sockets::socket_contents(*set)[h]) == before[h],
        decreases listeners.len() - i,
    {
        let listener = listeners[i];
        let ghost h = listener.handle;
        let ghost so_far = listeners@.take(i as int);
        let ghost now = udp_turns(books, so_far, before);
        let ghost between = sockets::socket_contents(*set);
        proof {
            assert forall|k: int| 0 <= k < i implies (#[trigger] listeners@[k]).handle != h by {
                assert(listeners@[k].handle != listeners@[i as int].handle);
            }
            assert forall|k: int| 0 <= k < so_far.len() implies (#[trigger] so_far[k]).handle
                != h by {
                assert(listeners@[k].handle != h);
            }
            assert(sockets::is_udp(before, listeners@[i as int].handle));
            assert(between[h] == before[h]);
            lemma_turns_keep(books, so_far, before, h);
            lemma_same_offers(books.flows, now.flows, h, now.flows.len());
        }
        let Ghost(accepted) = serve_listener(
            set,
            flows,
            &mut actions,
            stats,
            listener,
            Ghost(now),
            Ghost(start),
        );
        proof {
            let after = sockets::socket_contents(*set);
            assert(listeners@.take(i + 1).drop_last() =~= so_far);
            assert(listeners@.take(i + 1).last() == listener);
            assert(after.dom() =~= before.dom());
            assert(exchanged(
                sockets::udp_at(before, h),
                sockets::udp_at(after, h),
                all_offers(books.flows, h, books.flows.len()),
                accepted,
            ));
            assert forall|k: int| 0 <= k < i + 1 implies listener_done(
                before,
                after,
                books.flows,
                (#[trigger] listeners@[k]).handle,
            ) by {
                if k < i {
                    assert(listener_done(before, between, books.flows, listeners@[k].handle));
                    assert(after[listeners@[k].handle] == between[listeners@[k].handle]);
                }
            }
            assert forall|g: SocketHandle|
                before.dom().contains(g) && (forall|k: int|
                    0 <= k < i + 1 ==> (#[trigger] listeners@[k]).handle != g) implies (
            #[trigger] after[g]) == before[g] by {
                assert(listeners@[i as int].handle != g);
                assert(after[g] == between[g]);
            }
        }
        i = i + 1;
    }
    proof {
        let after = sockets::socket_contents(*set);
        assert(listeners@.take(i as int) =~= listeners@);
        assert forall|k: int| 0 <= k < listeners@.len() implies sockets::is_udp(
            after,
            (#[trigger] listeners@[k]).handle,
        ) by {
            assert(listener_done(before, after, books.flows, listeners@[k].handle));
        }
        assert forall|k: int| 0 <= k < listeners@.len() implies exists|accepted: Seq<bool>|
            #[trigger]
            exchanged(
                sockets::udp_at(before, (#[trigger] listeners@[k]).handle),
                sockets::udp_at(after, listeners@[k].handle),
                all_offers(books.flows, listeners@[k].handle, books.flows.len()),
                accepted,
            ) by {
            assert(listener_done(before, after, books.flows, listeners@[k].handle));
        }
    }
    actions
}

// ---------------------------------------------------------------------------
// Laws
// ---------------------------------------------------------------------------

proof fn lemma_admitted_wf(b: UdpBooks, handle: SocketHandle, target: Endpoint, d: Datagram)
    requires
        flows_wf(b.flows),
    ensures
        flows_wf(admitted(b, handle, target, d).flows),
{
    lemma_index_bounds(b.flows, handle, d.peer);
    let open = opened(b, handle, target, d.peer);
    assert(flows_wf(open.flows));
    lemma_index_bounds(open.flows, handle, d.peer);
    let c = admitted(b, handle, target, d);
    assert forall|i: int| 0 <= i < c.flows.len() implies (#[trigger] c.flows[i]).handle
        == open.flows[i].handle && c.flows[i].peer == open.flows[i].peer by {}
}

proof fn lemma_all_admitted_wf(b: UdpBooks, handle: SocketHandle, target: Endpoint, ds: Seq<Datagram>)
    requires
        flows_wf(b.flows),
    ensures
        flows_wf(all_admitted(b, handle, target, ds).flows),
    decreases ds.len(),
{
    if ds.len() > 0 {
        lemma_all_admitted_wf(b, handle, target, ds.drop_last());
        lemma_admitted_wf(
            all_admitted(b, handle, target, ds.drop_last()),
            handle,
            target,
            ds.last(),
        );
    }
}

/// Whatever comes in, a round leaves no more flows than there may be, no more
/// datagrams waiting than may wait, one flow for a socket and a peer, and none
/// waiting for a tunnel that is open.
pub proof fn a_round_keeps_the_limits(
    b: UdpBooks,
    listeners: Seq<Listener>,
    all: Map<SocketHandle, SocketModel>,
)
    requires
        flows_wf(b.flows),
    ensures
        flows_wf(udp_turns(b, listeners, all).flows),
    decreases listeners.len(),
{
    if listeners.len() > 0 {
        let l = listeners.last();
        let a = udp_turns(b, listeners.drop_last(), all);
        a_round_keeps_the_limits(b, listeners.drop_last(), all);
        let received = sockets::udp_at(all, l.handle).received;
        lemma_all_admitted_wf(a, l.handle, l.target, received);
        let taken = all_admitted(a, l.handle, l.target, received);
        lemma_served_prefix(taken, l.handle, taken.flows.len());
        let c = udp_turn(a, l, received);
        assert forall|i: int| 0 <= i < c.flows.len() implies (#[trigger] c.flows[i]).handle
            == taken.flows[i].handle && c.flows[i].peer == taken.flows[i].peer
            && c.flows[i].pending.len() <= MAX_PENDING && (c.flows[i].connection
            == Connection::Connected ==> c.flows[i].pending.len() == 0) by {}
    }
}

proof fn lemma_offer_only_adds(m: UdpModel, datagrams: Seq<Datagram>, accepted: Seq<bool>)
    requires
        accepted.len() == datagrams.len(),
    ensures
        after_offers(m, datagrams, accepted).bound == m.bound,
        after_offers(m, datagrams, accepted).received == m.received,
        m.sent.is_prefix_of(after_offers(m, datagrams, accepted).sent),
    decreases datagrams.len(),
{
    if datagrams.len() > 0 {
        lemma_offer_only_adds(m, datagrams.drop_last(), accepted.drop_last());
    }
}

/// A round keeps what a socket is bound to and what it had accepted for
/// sending, and leaves nothing received behind.
pub proof fn an_exchange_only_adds(
    before: UdpModel,
    after: UdpModel,
    datagrams: Seq<Datagram>,
    accepted: Seq<bool>,
)
    requires
        exchanged(before, after, datagrams, accepted),
    ensures
        after.bound == before.bound,
        after.received.len() == 0,
        before.sent.is_prefix_of(after.sent),
{
    lemma_offer_only_adds(UdpModel { received: Seq::empty(), ..before }, datagrams, accepted);
}

proof fn lemma_offers_keep_to_the_buffer(
    m: UdpModel,
    datagrams: Seq<Datagram>,
    accepted: Seq<bool>,
)
    requires
        accepted.len() == datagrams.len(),
        may_answer_all(m, datagrams, accepted),
        m.sent.len() <= m.packets,
        sockets::load(m.sent) <= m.capacity,
    ensures
        ({
            let after = after_offers(m, datagrams, accepted);
            &&& after.packets == m.packets
            &&& after.capacity == m.capacity
            &&& after.sent.len() <= m.packets
            &&& sockets::load(after.sent) <= m.capacity
        }),
    decreases datagrams.len(),
{
    if datagrams.len() > 0 {
        lemma_offers_keep_to_the_buffer(m, datagrams.drop_last(), accepted.drop_last());
        let now = after_offers(m, datagrams.drop_last(), accepted.drop_last());
        assert(now.sent.push(datagrams.last()).drop_last() =~= now.sent);
    }
}

/// A round leaves no more datagrams and octets with a socket than its
/// transmit buffer can hold.
pub proof fn an_exchange_keeps_to_the_buffer(
    before: UdpModel,
    after: UdpModel,
    datagrams: Seq<Datagram>,
    accepted: Seq<bool>,
)
    requires
        exchanged(before, after, datagrams, accepted),
        before.sent.len() <= before.packets,
        sockets::load(before.sent) <= before.capacity,
    ensures
        after.packets == before.packets,
        after.capacity == before.capacity,
        after.sent.len() <= after.packets,
        sockets::load(after.sent) <= after.capacity,
{
    lemma_offers_keep_to_the_buffer(
        UdpModel { received: Seq::empty(), ..before },
        datagrams,
        accepted,
    );
}

proof fn lemma_load_joins(a: Seq<Datagram>, b: Seq<Datagram>)
    ensures
        sockets::load(a + b) == sockets::load(a) + sockets::load(b),
    decreases b.len(),
{
    if b.len() == 0 {
        assert(a + b =~= a);
    } else {
        lemma_load_joins(a, b.drop_last());
        assert((a + b).drop_last() =~= a + b.drop_last());
        assert((a + b).last() == b.last());
    }
}

proof fn lemma_what_fits_is_accepted(m: UdpModel, datagrams: Seq<Datagram>, accepted: Seq<bool>)
    requires
        m.straight,
        accepted.len() == datagrams.len(),
        may_answer_all(m, datagrams, accepted),
        forall|i: int|
            0 <= i < datagrams.len() ==> m.can_address((#[trigger] datagrams[i]).peer),
        m.sent.len() + datagrams.len() <= m.packets,
        sockets::load(m.sent) + sockets::load(datagrams) <= m.capacity,
    ensures
        after_offers(m, datagrams, accepted) == (UdpModel { sent: m.sent + datagrams, ..m }),
    decreases datagrams.len(),
{
    if datagrams.len() == 0 {
        assert(m.sent + datagrams =~= m.sent);
    } else {
        let init = datagrams.drop_last();
        assert forall|i: int| 0 <= i < init.len() implies m.can_address(
            (#[trigger] init[i]).peer,
        ) by {
            assert(init[i] == datagrams[i]);
        }
        lemma_what_fits_is_accepted(m, init, accepted.drop_last());
        lemma_load_joins(m.sent, init);
        assert(m.can_address(datagrams[datagrams.len() - 1].peer));
        assert(m.sent + datagrams =~= (m.sent + init).push(datagrams.last()));
    }
}

/// A round hands a socket all datagrams that came back for its peers, in
/// order, where the transmit buffer is in one piece and has room for them and
/// each peer has an address and a port.
pub proof fn what_fits_is_sent(
    before: UdpModel,
    after: UdpModel,
    datagrams: Seq<Datagram>,
    accepted: Seq<bool>,
)
    requires
        exchanged(before, after, datagrams, accepted),
        before.straight,
        forall|i: int|
            0 <= i < datagrams.len() ==> before.can_address((#[trigger] datagrams[i]).peer),
        before.sent.len() + datagrams.len() <= before.packets,
        sockets::load(before.sent) + sockets::load(datagrams) <= before.capacity,
    ensures
        after.sent == before.sent + datagrams,
        after.straight,
{
    let drained = UdpModel { received: Seq::empty(), ..before };
    assert forall|i: int| 0 <= i < datagrams.len() implies drained.can_address(
        (#[trigger] datagrams[i]).peer,
    ) by {
        assert(before.can_address(datagrams[i].peer));
    }
    lemma_what_fits_is_accepted(drained, datagrams, accepted);
}

/// The socket and the peer that an action is about.
pub open spec fn key_of(action: ActionModel) -> (SocketHandle, Endpoint) {
    match action {
        ActionModel::Connect { handle, peer, .. } => (handle, peer),
        ActionModel::Attach { handle, peer } => (handle, peer),
        ActionModel::Write { handle, peer, .. } => (handle, peer),
    }
}

/// The actions about one socket and one peer, in order.
pub open spec fn actions_for(
    actions: Seq<ActionModel>,
    h: SocketHandle,
    p: Endpoint,
) -> Seq<ActionModel>
    decreases actions.len(),
{
    if actions.len() == 0 {
        Seq::empty()
    } else if key_of(actions.last()) == (h, p) {
        actions_for(actions.drop_last(), h, p).push(actions.last())
    } else {
        actions_for(actions.drop_last(), h, p)
    }
}

/// What one peer sent, in order.
pub open spec fn data_from(datagrams: Seq<Datagram>, p: Endpoint) -> Seq<Seq<u8>>
    decreases datagrams.len(),
{
    if datagrams.len() == 0 {
        Seq::empty()
    } else if datagrams.last().peer == p {
        data_from(datagrams.drop_last(), p).push(datagrams.last().data)
    } else {
        data_from(datagrams.drop_last(), p)
    }
}

/// The first 32 of some datagrams.
pub open spec fn at_most_32(data: Seq<Seq<u8>>) -> Seq<Seq<u8>> {
    if data.len() <= 32 {
        data
    } else {
        data.take(32)
    }
}

/// The flow of a socket and a peer.
spec fn flow_at(flows: Seq<FlowModel>, h: SocketHandle, p: Endpoint) -> Option<FlowModel> {
    let i = flow_index(flows, h, p);
    if i < flows.len() {
        Some(flows[i])
    } else {
        None
    }
}

proof fn lemma_actions_for(a: Seq<ActionModel>, b: Seq<ActionModel>, h: SocketHandle, p: Endpoint)
    ensures
        actions_for(a + b, h, p) == actions_for(a, h, p) + actions_for(b, h, p),
    decreases b.len(),
{
    if b.len() == 0 {
        assert(a + b =~= a);
        assert(actions_for(a, h, p) + actions_for(b, h, p) =~= actions_for(a, h, p));
    } else {
        assert((a + b).drop_last() =~= a + b.drop_last());
        assert((a + b).last() == b.last());
        lemma_actions_for(a, b.drop_last(), h, p);
        assert(actions_for(a + b, h, p) =~= actions_for(a, h, p) + actions_for(b, h, p));
    }
}

proof fn lemma_action_push(a: Seq<ActionModel>, x: ActionModel, h: SocketHandle, p: Endpoint)
    ensures
        actions_for(a.push(x), h, p) == if key_of(x) == (h, p) {
            actions_for(a, h, p).push(x)
        } else {
            actions_for(a, h, p)
        },
{
    assert(a.push(x).drop_last() =~= a);
}

proof fn lemma_all_for(b: Seq<ActionModel>, g: SocketHandle, q: Endpoint, h: SocketHandle, p: Endpoint)
    requires
        forall|k: int| 0 <= k < b.len() ==> key_of(#[trigger] b[k]) == (g, q),
    ensures
        actions_for(b, h, p) == if h == g && p == q {
            b
        } else {
            Seq::empty()
        },
    decreases b.len(),
{
    if b.len() > 0 {
        let fewer = b.drop_last();
        assert forall|k: int| 0 <= k < fewer.len() implies key_of(#[trigger] fewer[k]) == (g, q) by {
            assert(fewer[k] == b[k]);
        }
        lemma_all_for(fewer, g, q, h, p);
        assert(key_of(b[b.len() - 1]) == (g, q));
        assert(fewer.push(b.last()) =~= b);
    } else {
        assert(b =~= Seq::<ActionModel>::empty());
    }
}

proof fn lemma_index_pushed(s: Seq<FlowModel>, x: FlowModel, h: SocketHandle, p: Endpoint)
    ensures
        flow_index(s, h, p) < s.len() ==> flow_index(s.push(x), h, p) == flow_index(s, h, p),
        flow_index(s, h, p) >= s.len() && x.handle == h && x.peer == p ==> flow_index(
            s.push(x),
            h,
            p,
        ) == s.len(),
        flow_index(s, h, p) >= s.len() && !(x.handle == h && x.peer == p) ==> flow_index(
            s.push(x),
            h,
            p,
        ) == s.len() + 1,
{
    lemma_index_bounds(s, h, p);
    let t = s.push(x);
    let i = flow_index(s, h, p);
    assert forall|k: int| 0 <= k < i implies (#[trigger] t[k]).handle != h || t[k].peer != p by {
        assert(t[k] == s[k]);
    }
    if i < s.len() {
        lemma_flow_index(t, h, p, i);
    } else if x.handle == h && x.peer == p {
        lemma_flow_index(t, h, p, s.len() as int);
    } else {
        lemma_flow_index(t, h, p, s.len() as int + 1);
    }
}

proof fn lemma_index_same(s: Seq<FlowModel>, t: Seq<FlowModel>, h: SocketHandle, p: Endpoint)
    requires
        s.len() == t.len(),
        forall|k: int|
            0 <= k < s.len() ==> (#[trigger] t[k]).handle == s[k].handle && t[k].peer == s[k].peer,
    ensures
        flow_index(t, h, p) == flow_index(s, h, p),
{
    lemma_index_bounds(s, h, p);
    lemma_flow_index(t, h, p, flow_index(s, h, p));
}

proof fn lemma_admitted_at(
    b: UdpBooks,
    handle: SocketHandle,
    target: Endpoint,
    d: Datagram,
    h: SocketHandle,
    p: Endpoint,
)
    ensures
        ({
            let c = admitted(b, handle, target, d);
            let was = flow_at(b.flows, h, p);
            let now = flow_at(c.flows, h, p);
            let told = actions_for(b.actions, h, p);
            let tell = actions_for(c.actions, h, p);
            &&& b.flows.len() <= c.flows.len()
            &&& !(h == handle && p == d.peer) ==> now == was && tell == told
            &&& h == handle && p == d.peer && was is Some && was->0.connection
                == Connection::Connected ==> now == was && tell == told.push(
                ActionModel::Write { handle: h, peer: p, data: d.data },
            )
            &&& h == handle && p == d.peer && was is Some && was->0.connection
                != Connection::Connected ==> tell == told && now == Some(
                FlowModel {
                    pending: if was->0.pending.len() < 32 {
                        was->0.pending.push(d.data)
                    } else {
                        was->0.pending
                    },
                    ..was->0
                },
            )
            &&& h == handle && p == d.peer && was is None && b.flows.len() < 512 ==> tell
                == told.push(ActionModel::Connect { handle: h, peer: p, target }) && now == Some(
                FlowModel {
                    handle: h,
                    peer: p,
                    connection: Connection::Connecting,
                    outcome: None,
                    pending: seq![d.data],
                    incoming: Seq::empty(),
                    closed: false,
                },
            )
            &&& h == handle && p == d.peer && was is None && b.flows.len() >= 512 ==> now is None
                && tell == told
        }),
{
    let open = opened(b, handle, target, d.peer);
    let c = admitted(b, handle, target, d);
    lemma_index_bounds(b.flows, h, p);
    lemma_index_bounds(b.flows, handle, d.peer);
    lemma_index_pushed(b.flows, new_flow(handle, d.peer), h, p);
    lemma_index_pushed(b.flows, new_flow(handle, d.peer), handle, d.peer);
    lemma_action_push(
        b.actions,
        ActionModel::Connect { handle, peer: d.peer, target },
        h,
        p,
    );
    lemma_action_push(
        open.actions,
        ActionModel::Write { handle, peer: d.peer, data: d.data },
        h,
        p,
    );
    lemma_index_bounds(open.flows, h, p);
    lemma_index_bounds(open.flows, handle, d.peer);
    assert forall|k: int| 0 <= k < open.flows.len() implies (#[trigger] c.flows[k]).handle
        == open.flows[k].handle && c.flows[k].peer == open.flows[k].peer by {}
    lemma_index_same(open.flows, c.flows, h, p);
    assert(Seq::<Seq<u8>>::empty().push(d.data) =~= seq![d.data]);
}

proof fn lemma_all_admitted_at(
    b: UdpBooks,
    handle: SocketHandle,
    target: Endpoint,
    ds: Seq<Datagram>,
    h: SocketHandle,
    p: Endpoint,
)
    requires
        flow_at(b.flows, h, p) is Some ==> flow_at(b.flows, h, p)->0.pending.len() <= 32,
    ensures
        ({
            let c = all_admitted(b, handle, target, ds);
            let mine = data_from(ds, p);
            let was = flow_at(b.flows, h, p);
            let now = flow_at(c.flows, h, p);
            let told = actions_for(b.actions, h, p);
            let tell = actions_for(c.actions, h, p);
            &&& b.flows.len() <= c.flows.len()
            &&& h != handle || mine.len() == 0 ==> now == was && tell == told
            &&& h == handle && was is Some && was->0.connection == Connection::Connected ==> now
                == was && tell == told + writes(was->0, mine)
            &&& h == handle && was is Some && was->0.connection != Connection::Connected ==> tell
                == told && now == Some(
                FlowModel { pending: at_most_32(was->0.pending + mine), ..was->0 },
            )
            &&& h == handle && was is None && mine.len() > 0 ==> {
                ||| {
                    &&& now is None
                    &&& tell == told
                    &&& c.flows.len() >= 512
                }
                ||| {
                    &&& tell == told.push(ActionModel::Connect { handle: h, peer: p, target })
                    &&& now == Some(
                        FlowModel {
                            handle: h,
                            peer: p,
                            connection: Connection::Connecting,
                            outcome: None,
                            pending: at_most_32(mine),
                            incoming: Seq::empty(),
                            closed: false,
                        },
                    )
                }
            }
        }),
    decreases ds.len(),
{
    let was = flow_at(b.flows, h, p);
    let told = actions_for(b.actions, h, p);
    lemma_index_bounds(b.flows, h, p);
    if ds.len() == 0 {
        if was is Some {
            assert(was->0.pending + Seq::<Seq<u8>>::empty() =~= was->0.pending);
            assert(writes(was->0, Seq::empty()) =~= Seq::<ActionModel>::empty());
            assert(told + Seq::<ActionModel>::empty() =~= told);
        }
    } else {
        let fewer = ds.drop_last();
        let d = ds.last();
        lemma_all_admitted_at(b, handle, target, fewer, h, p);
        let a = all_admitted(b, handle, target, fewer);
        lemma_admitted_at(a, handle, target, d, h, p);
        let mine = data_from(fewer, p);
        let all = data_from(ds, p);
        if was is Some {
            let q = was->0.pending;
            if d.peer == p {
                assert(q + all =~= (q + mine).push(d.data));
                assert(at_most_32(q + all) =~= if at_most_32(q + mine).len() < 32 {
                    at_most_32(q + mine).push(d.data)
                } else {
                    at_most_32(q + mine)
                });
                assert(told + writes(was->0, all) =~= (told + writes(was->0, mine)).push(
                    ActionModel::Write { handle: was->0.handle, peer: was->0.peer, data: d.data },
                ));
                assert(was->0.handle == h && was->0.peer == p);
            }
        } else if d.peer == p {
            if mine.len() == 0 {
                assert(all =~= seq![d.data]);
            } else {
                assert(at_most_32(all) =~= if at_most_32(mine).len() < 32 {
                    at_most_32(mine).push(d.data)
                } else {
                    at_most_32(mine)
                });
            }
        }
    }
}

proof fn lemma_served_at(b: UdpBooks, handle: SocketHandle, n: nat, h: SocketHandle, p: Endpoint)
    requires
        n <= b.flows.len(),
        flows_wf(b.flows),
    ensures
        ({
            let c = flows_served(b, handle, n);
            let i = flow_index(b.flows, h, p);
            &&& flow_index(c.flows, h, p) == i
            &&& actions_for(c.actions, h, p) == actions_for(b.actions, h, p) + if h == handle && i
                < n {
                requests(b.flows[i])
            } else {
                Seq::empty()
            }
        }),
    decreases n,
{
    let c = flows_served(b, handle, n);
    let i = flow_index(b.flows, h, p);
    lemma_index_bounds(b.flows, h, p);
    lemma_served_prefix(b, handle, n);
    assert forall|k: int| 0 <= k < b.flows.len() implies (#[trigger] c.flows[k]).handle
        == b.flows[k].handle && c.flows[k].peer == b.flows[k].peer by {}
    lemma_index_same(b.flows, c.flows, h, p);
    if n == 0 {
        assert(actions_for(b.actions, h, p) + Seq::<ActionModel>::empty() =~= actions_for(
            b.actions,
            h,
            p,
        ));
    } else {
        let before = flows_served(b, handle, (n - 1) as nat);
        let flow = b.flows[n - 1];
        lemma_served_at(b, handle, (n - 1) as nat, h, p);
        if flow.handle == handle {
            let more = requests(flow);
            assert forall|k: int| 0 <= k < more.len() implies key_of(#[trigger] more[k]) == (
                flow.handle,
                flow.peer,
            ) by {}
            lemma_all_for(more, flow.handle, flow.peer, h, p);
            lemma_actions_for(before.actions, more, h, p);
            let told = actions_for(b.actions, h, p);
            let none = Seq::<ActionModel>::empty();
            assert(told + none =~= told);
            assert(told + more + none =~= told + more);
            if flow.handle == h && flow.peer == p {
                assert(i == n - 1) by {
                    if i < n - 1 {
                        assert(b.flows[i].handle != b.flows[n - 1].handle || b.flows[i].peer
                            != b.flows[n - 1].peer);
                    }
                }
            } else if i < b.flows.len() {
                assert(i != n - 1);
                let kept = actions_for(before.actions, h, p);
                assert(kept + none =~= kept);
            } else {
                assert(told + none + none =~= told);
            }
        } else if i < b.flows.len() && h == handle {
            assert(i != n - 1);
        }
    }
}

/// What the turn of a listener does to the flow of a socket and a peer.
proof fn lemma_turn_at(
    b: UdpBooks,
    l: Listener,
    received: Seq<Datagram>,
    h: SocketHandle,
    p: Endpoint,
)
    requires
        flows_wf(b.flows),
    ensures
        ({
            let taken = all_admitted(b, l.handle, l.target, received);
            let c = udp_turn(b, l, received);
            let mid = flow_at(taken.flows, h, p);
            &&& flows_wf(taken.flows)
            &&& c.flows.len() == taken.flows.len()
            &&& flow_at(c.flows, h, p) == if h == l.handle && mid is Some {
                Some(served(mid->0))
            } else {
                mid
            }
            &&& flow_index(c.flows, h, p) == flow_index(taken.flows, h, p)
            &&& actions_for(c.actions, h, p) == actions_for(taken.actions, h, p) + if h == l.handle
                && mid is Some {
                requests(mid->0)
            } else {
                Seq::empty()
            }
        }),
{
    let taken = all_admitted(b, l.handle, l.target, received);
    lemma_all_admitted_wf(b, l.handle, l.target, received);
    lemma_served_at(taken, l.handle, taken.flows.len(), h, p);
    lemma_served_prefix(taken, l.handle, taken.flows.len());
    lemma_index_bounds(taken.flows, h, p);
}

proof fn lemma_turns_leave(
    b: UdpBooks,
    listeners: Seq<Listener>,
    all: Map<SocketHandle, SocketModel>,
    h: SocketHandle,
    p: Endpoint,
)
    requires
        flows_wf(b.flows),
        forall|i: int| 0 <= i < listeners.len() ==> (#[trigger] listeners[i]).handle != h,
    ensures
        ({
            let c = udp_turns(b, listeners, all);
            &&& b.flows.len() <= c.flows.len()
            &&& flow_at(c.flows, h, p) == flow_at(b.flows, h, p)
            &&& actions_for(c.actions, h, p) == actions_for(b.actions, h, p)
        }),
    decreases listeners.len(),
{
    if listeners.len() > 0 {
        let fewer = listeners.drop_last();
        let l = listeners.last();
        assert(listeners[listeners.len() - 1].handle != h);
        assert forall|i: int| 0 <= i < fewer.len() implies (#[trigger] fewer[i]).handle != h by {
            assert(listeners[i].handle != h);
        }
        lemma_turns_leave(b, fewer, all, h, p);
        a_round_keeps_the_limits(b, fewer, all);
        let a = udp_turns(b, fewer, all);
        let received = sockets::udp_at(all, l.handle).received;
        lemma_index_bounds(a.flows, h, p);
        lemma_all_admitted_at(a, l.handle, l.target, received, h, p);
        lemma_turn_at(a, l, received, h, p);
        let kept = actions_for(a.actions, h, p);
        assert(kept + Seq::<ActionModel>::empty() =~= kept);
    }
}

/// What a round does to the flow of the socket of a listener and a peer: the
/// datagrams are taken, then the flow has its round.
proof fn lemma_round_at(
    b: UdpBooks,
    listeners: Seq<Listener>,
    all: Map<SocketHandle, SocketModel>,
    j: int,
    p: Endpoint,
) -> (a: UdpBooks)
    requires
        udp_wf(all, listeners),
        flows_wf(b.flows),
        b.actions.len() == 0,
        0 <= j < listeners.len(),
    ensures
        ({
            let l = listeners[j];
            let h = l.handle;
            let received = sockets::udp_at(all, h).received;
            let taken = all_admitted(a, h, l.target, received);
            let mid = flow_at(taken.flows, h, p);
            let c = udp_turns(b, listeners, all);
            &&& flows_wf(a.flows)
            &&& flow_at(a.flows, h, p) == flow_at(b.flows, h, p)
            &&& actions_for(a.actions, h, p) == Seq::<ActionModel>::empty()
            &&& taken.flows.len() <= c.flows.len()
            &&& flow_at(c.flows, h, p) == if mid is Some {
                Some(served(mid->0))
            } else {
                None
            }
            &&& actions_for(c.actions, h, p) == actions_for(taken.actions, h, p) + if mid is Some {
                requests(mid->0)
            } else {
                Seq::empty()
            }
        }),
    decreases listeners.len(),
{
    let l = listeners[j];
    let h = l.handle;
    let fewer = listeners.drop_last();
    let last = listeners.last();
    a_round_keeps_the_limits(b, fewer, all);
    if j == listeners.len() - 1 {
        assert forall|i: int| 0 <= i < fewer.len() implies (#[trigger] fewer[i]).handle != h by {
            assert(listeners[i].handle != listeners[j].handle);
        }
        lemma_turns_leave(b, fewer, all, h, p);
        let a = udp_turns(b, fewer, all);
        lemma_turn_at(a, l, sockets::udp_at(all, h).received, h, p);
        a
    } else {
        assert(fewer[j] == listeners[j]);
        assert forall|i: int| 0 <= i < fewer.len() implies sockets::is_udp(
            all,
            (#[trigger] fewer[i]).handle,
        ) by {
            assert(listeners[i] == fewer[i]);
        }
        assert forall|i: int, k: int| 0 <= i < k < fewer.len() implies (
        #[trigger] fewer[i]).handle != (#[trigger] fewer[k]).handle && fewer[i].target
            != fewer[k].target by {
            assert(listeners[i].handle != listeners[k].handle);
            assert(listeners[i].target != listeners[k].target);
        }
        let a = lemma_round_at(b, fewer, all, j, p);
        let d = udp_turns(b, fewer, all);
        assert(listeners[j].handle != listeners[listeners.len() - 1].handle);
        let received = sockets::udp_at(all, last.handle).received;
        lemma_index_bounds(d.flows, h, p);
        lemma_all_admitted_at(d, last.handle, last.target, received, h, p);
        lemma_turn_at(d, last, received, h, p);
        let kept = actions_for(d.actions, h, p);
        assert(kept + Seq::<ActionModel>::empty() =~= kept);
        a
    }
}

/// A round of the flow of a listener and a peer. What the peer sent goes to an
/// open tunnel, each datagram on its own and in order. Before that it waits,
/// up to 32 datagrams with those that wait already, and goes out in order,
/// behind the attaching, once the tunnel is seen to be open. Without a tunnel
/// the flow is closed. Nothing else is asked for, and the socket has been
/// offered all that the tunnel delivered.
pub proof fn a_flow_passes_on_what_its_peer_sent(
    b: UdpBooks,
    listeners: Seq<Listener>,
    all: Map<SocketHandle, SocketModel>,
    j: int,
    i: int,
)
    requires
        udp_wf(all, listeners),
        flows_wf(b.flows),
        b.actions.len() == 0,
        0 <= j < listeners.len(),
        0 <= i < b.flows.len(),
        b.flows[i].handle == listeners[j].handle,
    ensures
        ({
            let f = b.flows[i];
            let h = f.handle;
            let p = f.peer;
            let mine = data_from(sockets::udp_at(all, h).received, p);
            let waiting = at_most_32(f.pending + mine);
            let after = udp_turns(b, listeners, all);
            let asked = actions_for(after.actions, h, p);
            exists|k: int|
                #![trigger after.flows[k]]
                {
                    let now = after.flows[k];
                    &&& 0 <= k < after.flows.len()
                    &&& now.handle == h && now.peer == p
                    &&& now.incoming.len() == 0
                    &&& f.connection == Connection::Connected ==> {
                        &&& now.connection == Connection::Connected
                        &&& now.pending.len() == 0
                        &&& now.closed == f.closed
                        &&& asked.len() == mine.len()
                        &&& forall|m: int|
                            0 <= m < mine.len() ==> #[trigger] asked[m] == (ActionModel::Write {
                                handle: h,
                                peer: p,
                                data: mine[m],
                            })
                    }
                    &&& f.connection == Connection::Connecting && f.outcome is None ==> {
                        &&& now.connection == Connection::Connecting
                        &&& now.outcome is None
                        &&& now.pending == waiting
                        &&& now.closed == f.closed
                        &&& asked.len() == 0
                    }
                    &&& f.connection == Connection::Connecting && f.outcome == Some(
                        ConnectOutcome::Connected,
                    ) ==> {
                        &&& now.connection == Connection::Connected
                        &&& now.outcome is None
                        &&& now.pending.len() == 0
                        &&& now.closed == f.closed
                        &&& asked.len() == waiting.len() + 1
                        &&& asked[0] == (ActionModel::Attach { handle: h, peer: p })
                        &&& forall|m: int|
                            0 <= m < waiting.len() ==> asked[m + 1] == (ActionModel::Write {
                                handle: h,
                                peer: p,
                                data: #[trigger] waiting[m],
                            })
                    }
                    &&& f.connection == Connection::Connecting && (f.outcome == Some(
                        ConnectOutcome::Refused,
                    ) || f.outcome == Some(ConnectOutcome::Lost)) ==> {
                        &&& now.connection == Connection::Unreachable
                        &&& now.outcome is None
                        &&& now.closed
                        &&& asked.len() == 0
                    }
                    &&& f.connection == Connection::Unreachable ==> {
                        &&& now.connection == Connection::Unreachable
                        &&& now.pending == waiting
                        &&& now.closed == f.closed
                        &&& asked.len() == 0
                    }
                }
        }),
{
    let f = b.flows[i];
    let h = f.handle;
    let p = f.peer;
    let l = listeners[j];
    let received = sockets::udp_at(all, h).received;
    let mine = data_from(received, p);
    let waiting = at_most_32(f.pending + mine);
    let after = udp_turns(b, listeners, all);
    lemma_index_bounds(b.flows, h, p);
    let at = flow_index(b.flows, h, p);
    assert(at == i) by {
        if at < i {
            assert(b.flows[at].handle != b.flows[i].handle || b.flows[at].peer
                != b.flows[i].peer);
        }
    }
    let a = lemma_round_at(b, listeners, all, j, p);
    lemma_all_admitted_at(a, h, l.target, received, h, p);
    let taken = all_admitted(a, h, l.target, received);
    let mid = flow_at(taken.flows, h, p);
    let none = Seq::<ActionModel>::empty();
    if mine.len() == 0 {
        assert(f.pending + mine =~= f.pending);
    }
    assert(mid is Some);
    assert(mid->0 == (FlowModel { pending: mid->0.pending, ..f }));
    lemma_index_bounds(after.flows, h, p);
    let k = flow_index(after.flows, h, p);
    let now = after.flows[k];
    assert(now == served(mid->0));
    let asked = actions_for(after.actions, h, p);
    if f.connection == Connection::Connected {
        assert(mid->0 == f);
        assert(f.pending.len() == 0);
        assert(writes(f, f.pending) =~= none);
        assert(none + none =~= none);
        assert(asked =~= writes(f, mine));
    } else {
        assert(mid->0.pending == waiting);
        assert(asked =~= requests(mid->0));
        if f.connection == Connection::Connecting && f.outcome == Some(
            ConnectOutcome::Connected,
        ) {
            let attach = seq![ActionModel::Attach { handle: h, peer: p }];
            assert(asked =~= attach + writes(mid->0, waiting));
            assert forall|m: int| 0 <= m < waiting.len() implies asked[m + 1] == (
            ActionModel::Write { handle: h, peer: p, data: #[trigger] waiting[m] }) by {
                assert(writes(mid->0, waiting)[m] == asked[m + 1]);
            }
        }
    }
}

/// The first datagram of a peer to a listener asks for one tunnel to the
/// target, and for nothing else, and the peer gets a flow with which up to 32
/// of its datagrams wait. Only where there are 512 flows is it lost. A peer
/// without a flow that sent nothing gets none.
pub proof fn a_new_peer_gets_a_flow(
    b: UdpBooks,
    listeners: Seq<Listener>,
    all: Map<SocketHandle, SocketModel>,
    j: int,
    p: Endpoint,
)
    requires
        udp_wf(all, listeners),
        flows_wf(b.flows),
        b.actions.len() == 0,
        0 <= j < listeners.len(),
        forall|i: int|
            0 <= i < b.flows.len() ==> (#[trigger] b.flows[i]).handle != listeners[j].handle
                || b.flows[i].peer != p,
    ensures
        ({
            let l = listeners[j];
            let h = l.handle;
            let mine = data_from(sockets::udp_at(all, h).received, p);
            let after = udp_turns(b, listeners, all);
            let asked = actions_for(after.actions, h, p);
            &&& mine.len() > 0 && after.flows.len() < 512 ==> {
                &&& asked == seq![ActionModel::Connect { handle: h, peer: p, target: l.target }]
                &&& exists|k: int|
                    #![trigger after.flows[k]]
                    0 <= k < after.flows.len() && after.flows[k].handle == h
                        && after.flows[k].peer == p && after.flows[k].connection
                        == Connection::Connecting && after.flows[k].outcome is None
                        && after.flows[k].pending == at_most_32(mine)
                        && after.flows[k].incoming.len() == 0 && !after.flows[k].closed
            }
            &&& mine.len() == 0 ==> asked.len() == 0 && forall|k: int|
                0 <= k < after.flows.len() ==> (#[trigger] after.flows[k]).handle != h
                    || after.flows[k].peer != p
        }),
{
    let l = listeners[j];
    let h = l.handle;
    let received = sockets::udp_at(all, h).received;
    let mine = data_from(received, p);
    let after = udp_turns(b, listeners, all);
    lemma_index_bounds(b.flows, h, p);
    let at = flow_index(b.flows, h, p);
    if at < b.flows.len() {
        assert(b.flows[at].handle == h && b.flows[at].peer == p);
    }
    assert(flow_at(b.flows, h, p) is None);
    let a = lemma_round_at(b, listeners, all, j, p);
    lemma_all_admitted_at(a, h, l.target, received, h, p);
    let taken = all_admitted(a, h, l.target, received);
    let mid = flow_at(taken.flows, h, p);
    lemma_index_bounds(after.flows, h, p);
    let k = flow_index(after.flows, h, p);
    let asked = actions_for(after.actions, h, p);
    let connect = ActionModel::Connect { handle: h, peer: p, target: l.target };
    let none = Seq::<ActionModel>::empty();
    assert(none.push(connect) =~= seq![connect]);
    if mine.len() > 0 && after.flows.len() < 512 {
        assert(mid is Some);
        assert(requests(mid->0) =~= none);
        assert(asked =~= seq![connect]);
        assert(after.flows[k].handle == h);
    }
}

/// A round leaves alone the flows whose socket is not that of a listener, and
/// asks for nothing for them.
pub proof fn other_flows_are_left_alone(
    b: UdpBooks,
    listeners: Seq<Listener>,
    all: Map<SocketHandle, SocketModel>,
    i: int,
)
    requires
        flows_wf(b.flows),
        b.actions.len() == 0,
        0 <= i < b.flows.len(),
        forall|j: int| 0 <= j < listeners.len() ==> (#[trigger] listeners[j]).handle
            != b.flows[i].handle,
    ensures
        udp_turns(b, listeners, all).flows.contains(b.flows[i]),
        actions_for(
            udp_turns(b, listeners, all).actions,
            b.flows[i].handle,
            b.flows[i].peer,
        ).len() == 0,
{
    let h = b.flows[i].handle;
    let p = b.flows[i].peer;
    lemma_turns_leave(b, listeners, all, h, p);
    lemma_index_bounds(b.flows, h, p);
    let at = flow_index(b.flows, h, p);
    if at < i {
        assert(b.flows[at].handle != b.flows[i].handle || b.flows[at].peer != b.flows[i].peer);
    }
    let after = udp_turns(b, listeners, all);
    let k = flow_index(after.flows, h, p);
    lemma_index_bounds(after.flows, h, p);
    assert(after.flows[k] == b.flows[i]);
}

proof fn lemma_data_joins(a: Seq<Datagram>, b: Seq<Datagram>, p: Endpoint)
    ensures
        data_from(a + b, p) == data_from(a, p) + data_from(b, p),
    decreases b.len(),
{
    if b.len() == 0 {
        assert(a + b =~= a);
        assert(data_from(a, p) + data_from(b, p) =~= data_from(a, p));
    } else {
        assert((a + b).drop_last() =~= a + b.drop_last());
        assert((a + b).last() == b.last());
        lemma_data_joins(a, b.drop_last(), p);
        assert(data_from(a + b, p) =~= data_from(a, p) + data_from(b, p));
    }
}

proof fn lemma_offers_from(flow: FlowModel, n: nat, p: Endpoint)
    requires
        n <= flow.incoming.len(),
    ensures
        data_from(offers(flow).take(n as int), p) == if p == flow.peer {
            flow.incoming.take(n as int)
        } else {
            Seq::empty()
        },
    decreases n,
{
    let some = offers(flow).take(n as int);
    if n > 0 {
        lemma_offers_from(flow, (n - 1) as nat, p);
        assert(some.drop_last() =~= offers(flow).take(n - 1));
        assert(some.last() == (Datagram { peer: flow.peer, data: flow.incoming[n - 1] }));
        assert(flow.incoming.take(n as int) =~= flow.incoming.take(n - 1).push(
            flow.incoming[n - 1],
        ));
    } else {
        assert(flow.incoming.take(0) =~= Seq::<Seq<u8>>::empty());
    }
}

proof fn lemma_all_offers_from(flows: Seq<FlowModel>, h: SocketHandle, n: nat, p: Endpoint)
    requires
        flows_wf(flows),
        n <= flows.len(),
    ensures
        ({
            let i = flow_index(flows, h, p);
            data_from(all_offers(flows, h, n), p) == if i < n {
                flows[i].incoming
            } else {
                Seq::empty()
            }
        }),
    decreases n,
{
    lemma_index_bounds(flows, h, p);
    let i = flow_index(flows, h, p);
    if n > 0 {
        lemma_all_offers_from(flows, h, (n - 1) as nat, p);
        let flow = flows[n - 1];
        if flow.handle == h {
            let before = all_offers(flows, h, (n - 1) as nat);
            lemma_data_joins(before, offers(flow), p);
            lemma_offers_from(flow, flow.incoming.len(), p);
            assert(offers(flow).take(flow.incoming.len() as int) =~= offers(flow));
            assert(flow.incoming.take(flow.incoming.len() as int) =~= flow.incoming);
            let none = Seq::<Seq<u8>>::empty();
            if flow.peer == p {
                assert(i == n - 1) by {
                    if i < n - 1 {
                        assert(flows[i].handle != flows[n - 1].handle || flows[i].peer
                            != flows[n - 1].peer);
                    }
                }
                assert(none + flow.incoming =~= flow.incoming);
            } else {
                let kept = data_from(before, p);
                assert(kept + none =~= kept);
            }
        }
    }
}

/// In a round a socket is offered, for each of its peers, exactly what the
/// tunnel of that peer delivered, in order, whatever it was and however much.
pub proof fn what_a_tunnel_delivered_is_offered(flows: Seq<FlowModel>, i: int)
    requires
        flows_wf(flows),
        0 <= i < flows.len(),
    ensures
        data_from(all_offers(flows, flows[i].handle, flows.len()), flows[i].peer)
            == flows[i].incoming,
{
    let h = flows[i].handle;
    let p = flows[i].peer;
    lemma_index_bounds(flows, h, p);
    let at = flow_index(flows, h, p);
    if at < i {
        assert(flows[at].handle != flows[i].handle || flows[at].peer != flows[i].peer);
    }
    lemma_all_offers_from(flows, h, flows.len(), p);
}

proof fn lemma_offers_load(flow: FlowModel, n: nat)
    requires
        n <= flow.incoming.len(),
    ensures
        sockets::load(offers(flow).take(n as int)) == octets(flow.incoming.take(n as int)),
    decreases n,
{
    if n > 0 {
        lemma_offers_load(flow, (n - 1) as nat);
        assert(offers(flow).take(n as int).drop_last() =~= offers(flow).take(n - 1));
        assert(flow.incoming.take(n as int).drop_last() =~= flow.incoming.take(n - 1));
        assert(offers(flow).take(n as int).last().data == flow.incoming.take(n as int).last());
    }
}

proof fn lemma_served_down(b: UdpBooks, handle: SocketHandle, n: nat)
    requires
        n <= b.flows.len(),
    ensures
        flows_served(b, handle, n).down == b.down + sockets::load(all_offers(b.flows, handle, n)),
    decreases n,
{
    if n > 0 {
        lemma_served_down(b, handle, (n - 1) as nat);
        let flow = b.flows[n - 1];
        lemma_offers_load(flow, flow.incoming.len());
        assert(offers(flow).take(flow.incoming.len() as int) =~= offers(flow));
        assert(flow.incoming.take(flow.incoming.len() as int) =~= flow.incoming);
        lemma_load_joins(all_offers(b.flows, handle, (n - 1) as nat), offers(flow));
    }
}

/// The octets that the flows offer to the sockets of some listeners.
pub open spec fn offered_in_all(flows: Seq<FlowModel>, listeners: Seq<Listener>) -> nat
    decreases listeners.len(),
{
    if listeners.len() == 0 {
        0
    } else {
        offered_in_all(flows, listeners.drop_last()) + sockets::load(
            all_offers(flows, listeners.last().handle, flows.len()),
        )
    }
}

/// A round counts as downloaded exactly the octets that the sockets were
/// offered.
pub proof fn download_counts_the_offers(
    b: UdpBooks,
    listeners: Seq<Listener>,
    all: Map<SocketHandle, SocketModel>,
)
    requires
        udp_wf(all, listeners),
    ensures
        udp_turns(b, listeners, all).down == b.down + offered_in_all(b.flows, listeners),
    decreases listeners.len(),
{
    if listeners.len() > 0 {
        let fewer = listeners.drop_last();
        let l = listeners.last();
        assert forall|i: int| 0 <= i < fewer.len() implies sockets::is_udp(
            all,
            (#[trigger] fewer[i]).handle,
        ) by {
            assert(listeners[i] == fewer[i]);
        }
        assert forall|i: int, k: int| 0 <= i < k < fewer.len() implies (
        #[trigger] fewer[i]).handle != (#[trigger] fewer[k]).handle && fewer[i].target
            != fewer[k].target by {
            assert(listeners[i].handle != listeners[k].handle);
            assert(listeners[i].target != listeners[k].target);
        }
        assert forall|i: int| 0 <= i < fewer.len() implies (#[trigger] fewer[i]).handle
            != l.handle by {
            assert(listeners[i].handle != listeners[listeners.len() - 1].handle);
        }
        download_counts_the_offers(b, fewer, all);
        let a = udp_turns(b, fewer, all);
        let received = sockets::udp_at(all, l.handle).received;
        let taken = all_admitted(a, l.handle, l.target, received);
        lemma_turns_keep(b, fewer, all, l.handle);
        lemma_same_offers(b.flows, a.flows, l.handle, a.flows.len());
        lemma_admitted_keeps(a, l.handle, l.target, received);
        assert(kept_for(a.flows, taken.flows, l.handle));
        lemma_same_offers(a.flows, taken.flows, l.handle, taken.flows.len());
        lemma_served_down(taken, l.handle, taken.flows.len());
    }
}

/// A flow is found by the handle of its socket and its peer together, and
/// where no flow has both there is none. Among flows that differ in one of the
/// two every one is found.
pub proof fn a_flow_is_found_by_its_socket_and_peer(
    flows: Seq<FlowModel>,
    handle: SocketHandle,
    peer: Endpoint,
    i: int,
)
    requires
        forall|a: int, b: int|
            0 <= a < b < flows.len() ==> ((#[trigger] flows[a]).handle != (
            #[trigger] flows[b]).handle || flows[a].peer != flows[b].peer),
    ensures
        0 <= i < flows.len() ==> flow_index(flows, flows[i].handle, flows[i].peer) == i,
        (forall|k: int|
            0 <= k < flows.len() ==> ((#[trigger] flows[k]).handle != handle || flows[k].peer
                != peer)) <==> flow_index(flows, handle, peer) >= flows.len(),
{
    if 0 <= i < flows.len() {
        lemma_flow_index(flows, flows[i].handle, flows[i].peer, i);
    }
    lemma_index_bounds(flows, handle, peer);
}

/// However much is received, there are never more than 512 flows, and never
/// do more than 32 datagrams wait with one of them.
pub proof fn flows_and_waiting_datagrams_are_limited(
    b: UdpBooks,
    listeners: Seq<Listener>,
    all: Map<SocketHandle, SocketModel>,
    k: int,
)
    requires
        b.flows.len() <= 512,
        flows_wf(b.flows),
    ensures
        udp_turns(b, listeners, all).flows.len() <= 512,
        0 <= k < udp_turns(b, listeners, all).flows.len() ==> udp_turns(
            b,
            listeners,
            all,
        ).flows[k].pending.len() <= 32,
{
    a_round_keeps_the_limits(b, listeners, all);
}

} // verus!
