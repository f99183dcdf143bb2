//! TCP flows between the sockets of the IP stack and the remote tunnels.
//!
//! A flow is born when a listening socket has accepted a connection. The
//! caller opens the tunnel, reports the outcome, hands in what the tunnel
//! delivers, and carries out the actions that each round returns.
use crate::sockets;
use crate::sockets::{
    add_tcp, remove_socket, socket_handles, tcp_abort, tcp_can_send, tcp_is_active, tcp_listen,
    tcp_local, tcp_may_recv, tcp_may_send, tcp_recv, tcp_remote, tcp_send, Endpoint, SocketModel,
    TcpModel, TcpPhase,
};
use crate::traffic;
use crate::traffic::VpnEngineTrafficStats;
use smoltcp::iface::{SocketHandle, SocketSet};
use vstd::prelude::*;
use vstd::slice::{slice_subrange, slice_to_vec};

verus! {

/// The octets of each buffer of a socket.
pub const SOCKET_BUFFER: usize = 262144;

/// The octets that a flow takes from its socket in one round, at most.
pub const READ_BUFFER: usize = 65536;

/// A socket that listens for connections to a target.
#[derive(Debug, Clone, Copy)]
pub struct Listener {
    pub target: Endpoint,
    pub handle: SocketHandle,
}

/// How far the tunnel of a flow has come.
#[derive(Debug, Clone, Copy, PartialEq, Eq, Structural)]
pub enum Connection {
    /// The tunnel is being opened.
    Connecting,
    /// The tunnel is open.
    Connected,
    /// The tunnel could not be opened.
    Unreachable,
}

/// What came of opening a tunnel.
#[derive(Debug, Clone, Copy, PartialEq, Eq, Structural)]
pub enum ConnectOutcome {
    /// The tunnel is open.
    Connected,
    /// The service refused, or the target is not managed.
    Refused,
    /// Whoever opened the tunnel went away without an answer.
    Lost,
}

/// A TCP connection that is carried through a tunnel.
#[derive(Debug)]
pub struct TcpFlow {
    /// The accepted socket.
    pub handle: SocketHandle,
    pub connection: Connection,
    /// The outcome of the connection attempt, until it has been seen.
    pub outcome: Option<ConnectOutcome>,
    /// What the tunnel delivered and the socket has not taken yet.
    pub incoming: Vec<Vec<u8>>,
    pub closed: bool,
}

/// What the caller has to do for a flow.
#[derive(Debug)]
pub enum TcpAction {
    /// Open a tunnel to the target.
    Connect { handle: SocketHandle, target: Endpoint },
    /// Start to read from the open tunnel and to write to it.
    Attach { handle: SocketHandle },
    /// Write to the tunnel.
    Write { handle: SocketHandle, data: Vec<u8> },
    /// Close the tunnel.
    Close { handle: SocketHandle },
}

// ---------------------------------------------------------------------------
// Model
// ---------------------------------------------------------------------------

/// What a flow holds.
pub struct FlowModel {
    pub handle: SocketHandle,
    pub connection: Connection,
    pub outcome: Option<ConnectOutcome>,
    pub incoming: Seq<Seq<u8>>,
    pub closed: bool,
}

/// An action, with its octets as a sequence.
pub enum ActionModel {
    Connect { handle: SocketHandle, target: Endpoint },
    Attach { handle: SocketHandle },
    Write { handle: SocketHandle, data: Seq<u8> },
    Close { handle: SocketHandle },
}

/// The contents of a list of buffers.
pub open spec fn chunks(v: Seq<Vec<u8>>) -> Seq<Seq<u8>> {
    Seq::new(v.len(), |i: int| v[i]@)
}

impl View for TcpFlow {
    type V = FlowModel;

    open spec fn view(&self) -> FlowModel {
        FlowModel {
            handle: self.handle,
            connection: self.connection,
            outcome: self.outcome,
            incoming: chunks(self.incoming@),
            closed: self.closed,
        }
    }
}

impl View for TcpAction {
    type V = ActionModel;

    open spec fn view(&self) -> ActionModel {
        match self {
            TcpAction::Connect { handle, target } => ActionModel::Connect {
                handle: *handle,
                target: *target,
            },
            TcpAction::Attach { handle } => ActionModel::Attach { handle: *handle },
            TcpAction::Write { handle, data } => ActionModel::Write {
                handle: *handle,
                data: data@,
            },
            TcpAction::Close { handle } => ActionModel::Close { handle: *handle },
        }
    }
}

/// The models of a list of flows.
pub open spec fn flow_models(v: Seq<TcpFlow>) -> Seq<FlowModel> {
    Seq::new(v.len(), |i: int| v[i]@)
}

/// The models of a list of actions.
pub open spec fn action_models(v: Seq<TcpAction>) -> Seq<ActionModel> {
    Seq::new(v.len(), |i: int| v[i]@)
}

/// The sockets, listeners and flows of the stack, what it asked for and what
/// it counted.
#[verifier::ext_equal]
pub struct TcpStack {
    pub sockets: Map<SocketHandle, SocketModel>,
    pub listeners: Seq<Listener>,
    pub flows: Seq<FlowModel>,
    pub actions: Seq<ActionModel>,
    pub stats: VpnEngineTrafficStats,
}

/// The place of the listener of a target, or the number of listeners.
pub open spec fn target_index(listeners: Seq<Listener>, target: Endpoint) -> int
    decreases listeners.len(),
{
    if listeners.len() == 0 || listeners[0].target == target {
        0
    } else {
        1 + target_index(listeners.drop_first(), target)
    }
}

/// The place of the listener on a socket, or the number of listeners.
pub open spec fn listener_index(listeners: Seq<Listener>, handle: SocketHandle) -> int
    decreases listeners.len(),
{
    if listeners.len() == 0 || listeners[0].handle == handle {
        0
    } else {
        1 + listener_index(listeners.drop_first(), handle)
    }
}

/// The place of the flow of a socket, or the number of flows.
pub open spec fn flow_index(flows: Seq<FlowModel>, handle: SocketHandle) -> int
    decreases flows.len(),
{
    if flows.len() == 0 || flows[0].handle == handle {
        0
    } else {
        1 + flow_index(flows.drop_first(), handle)
    }
}

proof fn lemma_target_index(s: Seq<Listener>, target: Endpoint, i: int)
    requires
        0 <= i <= s.len(),
        i < s.len() ==> s[i].target == target,
        forall|k: int| 0 <= k < i ==> (#[trigger] s[k]).target != target,
    ensures
        target_index(s, target) == i,
    decreases s.len(),
{
    if i > 0 {
        let t = s.drop_first();
        assert forall|k: int| 0 <= k < i - 1 implies (#[trigger] t[k]).target != target by {
            assert(t[k] == s[k + 1]);
        }
        assert(s[0].target != target);
        lemma_target_index(t, target, i - 1);
    }
}

proof fn lemma_listener_index(s: Seq<Listener>, handle: SocketHandle, i: int)
    requires
        0 <= i <= s.len(),
        i < s.len() ==> s[i].handle == handle,
        forall|k: int| 0 <= k < i ==> (#[trigger] s[k]).handle != handle,
    ensures
        listener_index(s, handle) == i,
    decreases s.len(),
{
    if i > 0 {
        let t = s.drop_first();
        assert forall|k: int| 0 <= k < i - 1 implies (#[trigger] t[k]).handle != handle by {
            assert(t[k] == s[k + 1]);
        }
        assert(s[0].handle != handle);
        lemma_listener_index(t, handle, i - 1);
    }
}

proof fn lemma_flow_index(s: Seq<FlowModel>, handle: SocketHandle, i: int)
    requires
        0 <= i <= s.len(),
        i < s.len() ==> s[i].handle == handle,
        forall|k: int| 0 <= k < i ==> (#[trigger] s[k]).handle != handle,
    ensures
        flow_index(s, handle) == i,
    decreases s.len(),
{
    if i > 0 {
        let t = s.drop_first();
        assert forall|k: int| 0 <= k < i - 1 implies (#[trigger] t[k]).handle != handle by {
            assert(t[k] == s[k + 1]);
        }
        assert(s[0].handle != handle);
        lemma_flow_index(t, handle, i - 1);
    }
}

/// The socket of a new listener.
pub open spec fn listening(target: Endpoint) -> TcpModel {
    TcpModel {
        phase: TcpPhase::Listen,
        listen: Some(target),
        ..sockets::fresh_tcp(SOCKET_BUFFER as nat)
    }
}

/// Whether a target can get a listener: it has none, and it has a port.
pub open spec fn wants_listener(listeners: Seq<Listener>, target: Endpoint) -> bool {
    target_index(listeners, target) >= listeners.len() && target.port != 0
}

/// The sockets after a listener for a target has been asked for. The new
/// socket gets the handle `fresh`.
pub open spec fn listen_sockets(
    all: Map<SocketHandle, SocketModel>,
    listeners: Seq<Listener>,
    target: Endpoint,
    fresh: SocketHandle,
) -> Map<SocketHandle, SocketModel> {
    if wants_listener(listeners, target) {
        all.insert(fresh, SocketModel::Tcp(listening(target)))
    } else {
        all
    }
}

/// The listeners after a listener for a target has been asked for. A target
/// that has a listener keeps it; a target without a port gets none.
pub open spec fn listen_listeners(
    listeners: Seq<Listener>,
    target: Endpoint,
    fresh: SocketHandle,
) -> Seq<Listener> {
    if wants_listener(listeners, target) {
        listeners.push(Listener { target, handle: fresh })
    } else {
        listeners
    }
}

/// What became of the octets that a tunnel delivered.
pub struct Delivered {
    pub socket: TcpModel,
    pub rest: Seq<Seq<u8>>,
    pub octets: nat,
}

/// Hands delivered buffers to a socket in order, as long as it can send. What
/// it does not take waits: the rest of the buffer that did not fit, and the
/// ones behind it.
pub open spec fn deliver(socket: TcpModel, queue: Seq<Seq<u8>>) -> Delivered
    decreases queue.len(),
{
    if queue.len() == 0 || !socket.can_send() {
        Delivered { socket, rest: queue, octets: 0 }
    } else {
        let data = queue[0];
        let n = sockets::fitting(data.len(), (socket.capacity - socket.queued.len()) as nat);
        let next = TcpModel { queued: socket.queued + data.take(n as int), ..socket };
        if n < data.len() {
            Delivered { socket: next, rest: queue.update(0, data.skip(n as int)), octets: n }
        } else {
            let later = deliver(next, queue.drop_first());
            Delivered { octets: later.octets + n, ..later }
        }
    }
}

/// What a round does to a flow and its socket.
pub struct FlowStep {
    pub socket: TcpModel,
    pub flow: FlowModel,
    pub actions: Seq<ActionModel>,
    pub up: nat,
    pub down: nat,
}

/// The first part of a round: the outcome of the connection attempt is seen.
/// A refusal closes the socket.
pub open spec fn connect_step(socket: TcpModel, flow: FlowModel) -> FlowStep {
    let same = FlowStep { socket, flow, actions: Seq::empty(), up: 0, down: 0 };
    if flow.connection != Connection::Connecting {
        same
    } else {
        match flow.outcome {
            Some(ConnectOutcome::Connected) => FlowStep {
                flow: FlowModel { connection: Connection::Connected, outcome: None, ..flow },
                actions: seq![ActionModel::Attach { handle: flow.handle }],
                ..same
            },
            Some(ConnectOutcome::Refused) => FlowStep {
                socket: TcpModel { phase: TcpPhase::Closed, ..socket },
                flow: FlowModel { connection: Connection::Unreachable, outcome: None, ..flow },
                ..same
            },
            Some(ConnectOutcome::Lost) => FlowStep {
                flow: FlowModel { connection: Connection::Unreachable, outcome: None, ..flow },
                ..same
            },
            None => same,
        }
    }
}

/// The octets that a connected flow takes from its socket in one round.
pub open spec fn taken(socket: TcpModel) -> Seq<u8> {
    if socket.may_recv() {
        socket.received.take(
            sockets::fitting(socket.received.len(), READ_BUFFER as nat) as int,
        )
    } else {
        Seq::empty()
    }
}

/// A whole round of a flow: the outcome is seen; a connected flow takes octets
/// from the socket for the tunnel and hands over what the tunnel delivered;
/// when both halves of the socket are closed, the flow is closed.
pub open spec fn flow_step(socket: TcpModel, flow: FlowModel) -> FlowStep {
    let first = connect_step(socket, flow);
    if first.flow.connection != Connection::Connected {
        first
    } else {
        let data = taken(first.socket);
        let pulled = TcpModel {
            received: first.socket.received.skip(data.len() as int),
            ..first.socket
        };
        let pushed = deliver(pulled, flow.incoming);
        FlowStep {
            socket: pushed.socket,
            flow: FlowModel {
                incoming: pushed.rest,
                closed: flow.closed || (!pushed.socket.may_recv() && !pushed.socket.may_send()),
                ..first.flow
            },
            actions: if data.len() > 0 {
                first.actions.push(ActionModel::Write { handle: flow.handle, data })
            } else {
                first.actions
            },
            up: data.len(),
            down: pushed.octets,
        }
    }
}

/// A flow whose tunnel is about to be opened.
pub open spec fn new_flow(handle: SocketHandle) -> FlowModel {
    FlowModel {
        handle,
        connection: Connection::Connecting,
        outcome: None,
        incoming: Seq::empty(),
        closed: false,
    }
}

/// The stack after one socket has had its turn. A listening socket that
/// accepted a connection becomes a flow, and its target gets a new listener.
/// The socket of a flow has its round. Other sockets are left alone.
pub open spec fn tcp_step(s: TcpStack, handle: SocketHandle, fresh: SocketHandle) -> TcpStack {
    let l = listener_index(s.listeners, handle);
    let f = flow_index(s.flows, handle);
    let socket = sockets::tcp_at(s.sockets, handle);
    if l < s.listeners.len() {
        if socket.is_active() && socket.local is Some && socket.remote is Some {
            let target = socket.local->0;
            let others = s.listeners.remove(l);
            TcpStack {
                sockets: listen_sockets(s.sockets, others, target, fresh),
                listeners: listen_listeners(others, target, fresh),
                flows: s.flows.push(new_flow(handle)),
                actions: s.actions.push(ActionModel::Connect { handle, target }),
                ..s
            }
        } else {
            s
        }
    } else if f < s.flows.len() {
        let step = flow_step(socket, s.flows[f]);
        TcpStack {
            sockets: s.sockets.insert(handle, SocketModel::Tcp(step.socket)),
            flows: s.flows.update(f, step.flow),
            actions: s.actions + step.actions,
            stats: VpnEngineTrafficStats {
                upload_bytes: traffic::counted(s.stats.upload_bytes, step.up),
                download_bytes: traffic::counted(s.stats.download_bytes, step.down),
                ..s.stats
            },
            ..s
        }
    } else {
        s
    }
}

/// The stack after the sockets of a list have had their turns, in order. The
/// listeners that are made on the way get the handles of `fresh`.
pub open spec fn tcp_turns(
    s: TcpStack,
    handles: Seq<SocketHandle>,
    fresh: Seq<SocketHandle>,
) -> TcpStack
    decreases handles.len(),
{
    if handles.len() == 0 {
        s
    } else {
        tcp_step(
            tcp_turns(s, handles.drop_last(), fresh.drop_last()),
            handles.last(),
            fresh.last(),
        )
    }
}

/// Whether the turn of a socket makes a new listener.
pub open spec fn opens_listener(s: TcpStack, handle: SocketHandle) -> bool {
    let l = listener_index(s.listeners, handle);
    let socket = sockets::tcp_at(s.sockets, handle);
    &&& l < s.listeners.len()
    &&& socket.is_active() && socket.local is Some && socket.remote is Some
    &&& wants_listener(s.listeners.remove(l), socket.local->0)
}

/// Whether the handles of `fresh` were not in use when listeners got them.
pub open spec fn tcp_fresh(
    s: TcpStack,
    handles: Seq<SocketHandle>,
    fresh: Seq<SocketHandle>,
) -> bool
    decreases handles.len(),
{
    handles.len() == 0 || {
        let before = tcp_turns(s, handles.drop_last(), fresh.drop_last());
        &&& tcp_fresh(s, handles.drop_last(), fresh.drop_last())
        &&& opens_listener(before, handles.last()) ==> !before.sockets.dom().contains(fresh.last())
    }
}

/// The flows that are not closed.
pub open spec fn live(flows: Seq<FlowModel>) -> Seq<FlowModel>
    decreases flows.len(),
{
    if flows.len() == 0 {
        flows
    } else if flows.last().closed {
        live(flows.drop_last())
    } else {
        live(flows.drop_last()).push(flows.last())
    }
}

/// The tunnels of the closed flows, to be closed.
pub open spec fn closings(flows: Seq<FlowModel>) -> Seq<ActionModel>
    decreases flows.len(),
{
    if flows.len() == 0 {
        Seq::empty()
    } else if flows.last().closed && flows.last().connection == Connection::Connected {
        closings(flows.drop_last()).push(ActionModel::Close { handle: flows.last().handle })
    } else {
        closings(flows.drop_last())
    }
}

/// The sockets that are left when those of the closed flows are gone.
pub open spec fn without_closed(
    all: Map<SocketHandle, SocketModel>,
    flows: Seq<FlowModel>,
) -> Map<SocketHandle, SocketModel>
    decreases flows.len(),
{
    if flows.len() == 0 {
        all
    } else if flows.last().closed {
        without_closed(all, flows.drop_last()).remove(flows.last().handle)
    } else {
        without_closed(all, flows.drop_last())
    }
}

/// The stack after the closed flows are gone.
pub open spec fn reap(s: TcpStack) -> TcpStack {
    TcpStack {
        sockets: without_closed(s.sockets, s.flows),
        flows: live(s.flows),
        actions: s.actions + closings(s.flows),
        ..s
    }
}

/// Listeners and flows name different TCP sockets of the set, each listener's
/// socket was told to listen on its target, which has a port, and no two
/// listeners have one target.
pub open spec fn tcp_wf(
    all: Map<SocketHandle, SocketModel>,
    listeners: Seq<Listener>,
    flows: Seq<FlowModel>,
) -> bool {
    &&& forall|i: int| 0 <= i < listeners.len() ==> sockets::is_tcp(all, (#[trigger] listeners[i]).handle)
    &&& forall|i: int|
        0 <= i < listeners.len() ==> (#[trigger] listeners[i]).target.port != 0 && sockets::tcp_at(
            all,
            listeners[i].handle,
        ).listen == Some(listeners[i].target)
    &&& forall|i: int| 0 <= i < flows.len() ==> sockets::is_tcp(all, (#[trigger] flows[i]).handle)
    &&& forall|i: int, j: int|
        0 <= i < j < listeners.len() ==> (#[trigger] listeners[i]).handle != (
        #[trigger] listeners[j]).handle
    &&& forall|i: int, j: int|
        0 <= i < j < listeners.len() ==> (#[trigger] listeners[i]).target != (
        #[trigger] listeners[j]).target
    &&& forall|i: int, j: int|
        0 <= i < j < flows.len() ==> (#[trigger] flows[i]).handle != (#[trigger] flows[j]).handle
    &&& forall|i: int, j: int|
        0 <= i < listeners.len() && 0 <= j < flows.len() ==> (#[trigger] listeners[i]).handle != (
        #[trigger] flows[j]).handle
}

/// Whether a list names each socket of a set once.
pub open spec fn lists_sockets(
    handles: Seq<SocketHandle>,
    all: Map<SocketHandle, SocketModel>,
) -> bool {
    &&& handles.no_duplicates()
    &&& forall|h: SocketHandle| #[trigger] handles.contains(h) <==> all.dom().contains(h)
}

/// A round of the stack: each socket has its turn, in the order of `handles`,
/// and the closed flows go.
pub open spec fn tcp_round(
    before: TcpStack,
    after: TcpStack,
    handles: Seq<SocketHandle>,
    fresh: Seq<SocketHandle>,
) -> bool {
    &&& lists_sockets(handles, before.sockets)
    &&& fresh.len() == handles.len()
    &&& tcp_fresh(before, handles, fresh)
    &&& after == reap(tcp_turns(before, handles, fresh))
}

/// The model of the stack.
pub open spec fn stack_of(
    all: Map<SocketHandle, SocketModel>,
    listeners: Seq<Listener>,
    flows: Seq<TcpFlow>,
    actions: Seq<TcpAction>,
    stats: VpnEngineTrafficStats,
) -> TcpStack {
    TcpStack {
        sockets: all,
        listeners,
        flows: flow_models(flows),
        actions: action_models(actions),
        stats,
    }
}

pub(crate) proof fn lemma_target_bounds(s: Seq<Listener>, target: Endpoint)
    ensures
        0 <= target_index(s, target) <= s.len(),
        target_index(s, target) < s.len() ==> s[target_index(s, target)].target == target,
        forall|k: int|
            0 <= k < target_index(s, target) ==> (#[trigger] s[k]).target != target,
    decreases s.len(),
{
    if s.len() > 0 && s[0].target != target {
        let t = s.drop_first();
        lemma_target_bounds(t, target);
        assert forall|k: int| 0 <= k < target_index(s, target) implies (
        #[trigger] s[k]).target != target by {
            if k > 0 {
                assert(t[k - 1].target != target);
            }
        }
    }
}

proof fn lemma_listener_bounds(s: Seq<Listener>, handle: SocketHandle)
    ensures
        0 <= listener_index(s, handle) <= s.len(),
        listener_index(s, handle) < s.len() ==> s[listener_index(s, handle)].handle == handle,
        forall|k: int|
            0 <= k < listener_index(s, handle) ==> (#[trigger] s[k]).handle != handle,
    decreases s.len(),
{
    if s.len() > 0 && s[0].handle != handle {
        let t = s.drop_first();
        lemma_listener_bounds(t, handle);
        assert forall|k: int| 0 <= k < listener_index(s, handle) implies (
        #[trigger] s[k]).handle != handle by {
            if k > 0 {
                assert(t[k - 1].handle != handle);
            }
        }
    }
}

proof fn lemma_flow_bounds(s: Seq<FlowModel>, handle: SocketHandle)
    ensures
        0 <= flow_index(s, handle) <= s.len(),
        flow_index(s, handle) < s.len() ==> s[flow_index(s, handle)].handle == handle,
        forall|k: int| 0 <= k < flow_index(s, handle) ==> (#[trigger] s[k]).handle != handle,
    decreases s.len(),
{
    if s.len() > 0 && s[0].handle != handle {
        let t = s.drop_first();
        lemma_flow_bounds(t, handle);
        assert forall|k: int| 0 <= k < flow_index(s, handle) implies (
        #[trigger] s[k]).handle != handle by {
            if k > 0 {
                assert(t[k - 1].handle != handle);
            }
        }
    }
}

/// A turn keeps the stack well formed.
pub proof fn tcp_step_keeps_wf(s: TcpStack, handle: SocketHandle, fresh: SocketHandle)
    requires
        tcp_wf(s.sockets, s.listeners, s.flows),
        opens_listener(s, handle) ==> !s.sockets.dom().contains(fresh),
    ensures
        ({
            let t = tcp_step(s, handle, fresh);
            tcp_wf(t.sockets, t.listeners, t.flows)
        }),
{
    let t = tcp_step(s, handle, fresh);
    let l = listener_index(s.listeners, handle);
    let f = flow_index(s.flows, handle);
    let socket = sockets::tcp_at(s.sockets, handle);
    lemma_listener_bounds(s.listeners, handle);
    lemma_flow_bounds(s.flows, handle);
    if l < s.listeners.len() {
        assert(s.listeners[l].handle == handle);
        if socket.is_active() && socket.local is Some && socket.remote is Some {
            let target = socket.local->0;
            let others = s.listeners.remove(l);
            lemma_target_bounds(others, target);
            assert forall|i: int| 0 <= i < others.len() implies (#[trigger] others[i]).handle
                != handle && sockets::is_tcp(s.sockets, others[i].handle) by {
                if i < l {
                    assert(others[i] == s.listeners[i]);
                } else {
                    assert(others[i] == s.listeners[i + 1]);
                }
            }
            assert forall|i: int, j: int| 0 <= i < j < others.len() implies (
            #[trigger] others[i]).handle != (#[trigger] others[j]).handle && others[i].target
                != others[j].target by {
                let a = if i < l { i } else { i + 1 };
                let b = if j < l { j } else { j + 1 };
                assert(others[i] == s.listeners[a]);
                assert(others[j] == s.listeners[b]);
            }
            assert forall|i: int, j: int| 0 <= i < others.len() && 0 <= j < s.flows.len() implies (
            #[trigger] others[i]).handle != (#[trigger] s.flows[j]).handle by {
                let a = if i < l { i } else { i + 1 };
                assert(others[i] == s.listeners[a]);
            }
            assert forall|j: int| 0 <= j < s.flows.len() implies (#[trigger] s.flows[j]).handle
                != handle by {
                assert(s.listeners[l].handle != s.flows[j].handle);
            }
        }
    } else if f < s.flows.len() {
        assert(s.flows[f].handle == handle);
        assert(flow_step(socket, s.flows[f]).flow.handle == handle);
        assert forall|i: int| 0 <= i < t.flows.len() implies (#[trigger] t.flows[i]).handle
            == s.flows[i].handle by {}
    }
}

proof fn lemma_without_closed(
    all: Map<SocketHandle, SocketModel>,
    flows: Seq<FlowModel>,
    h: SocketHandle,
)
    ensures
        without_closed(all, flows).dom().contains(h) ==> all.dom().contains(h) && all[h]
            == without_closed(all, flows)[h],
        (forall|i: int|
            0 <= i < flows.len() && (#[trigger] flows[i]).closed ==> flows[i].handle != h)
            ==> without_closed(all, flows).dom().contains(h) == all.dom().contains(h),
        forall|i: int|
            0 <= i < flows.len() && (#[trigger] flows[i]).closed && flows[i].handle == h
                ==> !without_closed(all, flows).dom().contains(h),
    decreases flows.len(),
{
    if flows.len() > 0 {
        let fewer = flows.drop_last();
        lemma_without_closed(all, fewer, h);
        assert(forall|i: int| 0 <= i < fewer.len() ==> #[trigger] fewer[i] == flows[i]);
        assert forall|i: int|
            0 <= i < flows.len() && (#[trigger] flows[i]).closed && flows[i].handle == h
            implies !without_closed(all, flows).dom().contains(h) by {
            if i < fewer.len() {
                assert(fewer[i].closed);
            }
        }
        if forall|i: int|
            0 <= i < flows.len() && (#[trigger] flows[i]).closed ==> flows[i].handle != h {
            assert forall|i: int| 0 <= i < fewer.len() && (#[trigger] fewer[i]).closed implies
                fewer[i].handle != h by {
                assert(flows[i].closed);
            }
            assert(flows.last() == flows[flows.len() - 1]);
        }
    }
}

proof fn lemma_live(flows: Seq<FlowModel>, i: int)
    ensures
        0 <= i < live(flows).len() ==> !live(flows)[i].closed && flows.contains(live(flows)[i]),
        0 <= i < flows.len() && !flows[i].closed ==> live(flows).contains(flows[i]),
    decreases flows.len(),
{
    if flows.len() > 0 {
        let fewer = flows.drop_last();
        let kept = live(fewer);
        lemma_live(fewer, i);
        if 0 <= i < kept.len() {
            let k = choose|k: int| 0 <= k < fewer.len() && fewer[k] == kept[i];
            assert(flows[k] == kept[i]);
            assert(live(flows)[i] == kept[i]);
        } else if i == kept.len() && !flows.last().closed {
            assert(live(flows)[i] == flows[flows.len() - 1]);
        }
        if 0 <= i < flows.len() && !flows[i].closed {
            if i < fewer.len() {
                let k = choose|k: int| 0 <= k < kept.len() && kept[k] == fewer[i];
                assert(live(flows)[k] == flows[i]);
            } else {
                assert(live(flows)[kept.len() as int] == flows[i]);
            }
        }
    }
}

proof fn lemma_live_distinct(flows: Seq<FlowModel>)
    requires
        forall|i: int, j: int|
            0 <= i < j < flows.len() ==> (#[trigger] flows[i]).handle != (
            #[trigger] flows[j]).handle,
    ensures
        forall|i: int, j: int|
            0 <= i < j < live(flows).len() ==> (#[trigger] live(flows)[i]).handle != (
            #[trigger] live(flows)[j]).handle,
    decreases flows.len(),
{
    if flows.len() > 0 {
        let fewer = flows.drop_last();
        let kept = live(fewer);
        assert(forall|i: int| 0 <= i < fewer.len() ==> #[trigger] fewer[i] == flows[i]);
        lemma_live_distinct(fewer);
        assert forall|i: int, j: int| 0 <= i < j < live(flows).len() implies (
        #[trigger] live(flows)[i]).handle != (#[trigger] live(flows)[j]).handle by {
            if j < kept.len() {
                assert(live(flows)[i] == kept[i]);
                assert(live(flows)[j] == kept[j]);
            } else {
                lemma_live(fewer, i);
                assert(live(flows)[i] == kept[i]);
                let k = choose|k: int| 0 <= k < fewer.len() && fewer[k] == kept[i];
                assert(flows[k].handle != flows[flows.len() - 1].handle);
            }
        }
    }
}

/// Removing the closed flows keeps the stack well formed.
pub proof fn reap_keeps_wf(s: TcpStack)
    requires
        tcp_wf(s.sockets, s.listeners, s.flows),
    ensures
        tcp_wf(reap(s).sockets, reap(s).listeners, reap(s).flows),
{
    let t = reap(s);
    assert forall|i: int| 0 <= i < t.listeners.len() implies sockets::is_tcp(
        t.sockets,
        (#[trigger] t.listeners[i]).handle,
    ) && sockets::tcp_at(t.sockets, t.listeners[i].handle).listen == Some(t.listeners[i].target) by {
        lemma_without_closed(s.sockets, s.flows, s.listeners[i].handle);
    }
    lemma_live_distinct(s.flows);
    assert forall|i: int| 0 <= i < t.flows.len() implies sockets::is_tcp(
        t.sockets,
        (#[trigger] t.flows[i]).handle,
    ) by {
        lemma_live(s.flows, i);
        let k = choose|k: int| 0 <= k < s.flows.len() && s.flows[k] == t.flows[i];
        assert forall|j: int| 0 <= j < s.flows.len() && (#[trigger] s.flows[j]).closed implies
            s.flows[j].handle != t.flows[i].handle by {
            assert(j != k);
            if j < k {
                assert(s.flows[j].handle != s.flows[k].handle);
            } else {
                assert(s.flows[k].handle != s.flows[j].handle);
            }
        }
        lemma_without_closed(s.sockets, s.flows, t.flows[i].handle);
        assert(sockets::is_tcp(s.sockets, s.flows[k].handle));
    }
    assert forall|i: int, j: int| 0 <= i < t.listeners.len() && 0 <= j < t.flows.len() implies (
    #[trigger] t.listeners[i]).handle != (#[trigger] t.flows[j]).handle by {
        lemma_live(s.flows, j);
        let k = choose|k: int| 0 <= k < s.flows.len() && s.flows[k] == t.flows[j];
        assert(s.listeners[i].handle != s.flows[k].handle);
    }
}

/// The octets that a list of actions writes to tunnels.
pub open spec fn written(actions: Seq<ActionModel>) -> nat
    decreases actions.len(),
{
    if actions.len() == 0 {
        0
    } else {
        written(actions.drop_last()) + match actions.last() {
            ActionModel::Write { data, .. } => data.len(),
            _ => 0,
        }
    }
}

/// Whether a socket belongs to a listener or a flow.
pub open spec fn in_use(s: TcpStack, h: SocketHandle) -> bool {
    ||| exists|i: int| 0 <= i < s.listeners.len() && (#[trigger] s.listeners[i]).handle == h
    ||| exists|i: int| 0 <= i < s.flows.len() && (#[trigger] s.flows[i]).handle == h
}

/// What the turns of some of the sockets have done to flow `i`.
spec fn flow_served(s: TcpStack, t: TcpStack, handles: Seq<SocketHandle>, i: int) -> bool {
    let h = s.flows[i].handle;
    let step = flow_step(sockets::tcp_at(s.sockets, h), s.flows[i]);
    if handles.contains(h) {
        t.flows[i] == step.flow && t.sockets[h] == SocketModel::Tcp(step.socket)
    } else {
        t.flows[i] == s.flows[i] && t.sockets[h] == s.sockets[h]
    }
}

spec fn turns_hold(s: TcpStack, t: TcpStack, handles: Seq<SocketHandle>) -> bool {
    &&& tcp_wf(t.sockets, t.listeners, t.flows)
    &&& s.flows.len() <= t.flows.len()
    &&& forall|h: SocketHandle| #[trigger]
        s.sockets.dom().contains(h) ==> t.sockets.dom().contains(h)
    &&& forall|i: int| 0 <= i < s.flows.len() ==> #[trigger] flow_served(s, t, handles, i)
    &&& forall|h: SocketHandle|
        s.sockets.dom().contains(h) && !in_use(s, h) ==> !(#[trigger] in_use(t, h))
            && t.sockets[h] == s.sockets[h]
}

proof fn lemma_turn(
    s: TcpStack,
    a: TcpStack,
    handles: Seq<SocketHandle>,
    g: SocketHandle,
    fresh: SocketHandle,
)
    requires
        tcp_wf(s.sockets, s.listeners, s.flows),
        turns_hold(s, a, handles),
        !handles.contains(g),
        s.sockets.dom().contains(g),
        opens_listener(a, g) ==> !a.sockets.dom().contains(fresh),
    ensures
        turns_hold(s, tcp_step(a, g, fresh), handles.push(g)),
{
    let b = tcp_step(a, g, fresh);
    let more = handles.push(g);
    let l = listener_index(a.listeners, g);
    let f = flow_index(a.flows, g);
    lemma_listener_bounds(a.listeners, g);
    lemma_flow_bounds(a.flows, g);
    tcp_step_keeps_wf(a, g, fresh);
    assert forall|h: SocketHandle| more.contains(h) == (handles.contains(h) || h == g) by {
        if handles.contains(h) {
            let k = choose|k: int| 0 <= k < handles.len() && handles[k] == h;
            assert(more[k] == h);
        }
        if h == g {
            assert(more[handles.len() as int] == g);
        }
    }
    assert forall|i: int| 0 <= i < s.flows.len() implies #[trigger] flow_served(s, b, more, i) by {
        let h = s.flows[i].handle;
        assert(flow_served(s, a, handles, i));
        assert(sockets::is_tcp(s.sockets, h));
        assert(a.flows[i].handle == h);
        if h == g {
            assert(l >= a.listeners.len()) by {
                if l < a.listeners.len() {
                    assert(a.listeners[l].handle != a.flows[i].handle);
                }
            }
            assert(f == i) by {
                if f < i {
                    assert(a.flows[f].handle != a.flows[i].handle);
                }
            }
        } else if l >= a.listeners.len() && f < a.flows.len() {
            assert(f != i);
        }
    }
    assert forall|h: SocketHandle| s.sockets.dom().contains(h) && !in_use(s, h) implies !(
    #[trigger] in_use(b, h)) && b.sockets[h] == s.sockets[h] by {
        assert(!in_use(a, h));
        if l < a.listeners.len() {
            assert(a.listeners[l].handle == g);
        } else if f < a.flows.len() {
            assert(a.flows[f].handle == g);
        }
        assert forall|i: int| 0 <= i < b.listeners.len() implies (#[trigger] b.listeners[i]).handle
            != h by {
            let others = a.listeners.remove(l);
            if l < a.listeners.len() && i < others.len() && b.listeners[i] == others[i] {
                let k = if i < l { i } else { i + 1 };
                assert(others[i] == a.listeners[k]);
            }
            if i < a.listeners.len() && b.listeners[i] == a.listeners[i] {
                assert(a.listeners[i].handle != h);
            }
        }
        assert forall|i: int| 0 <= i < b.flows.len() implies (#[trigger] b.flows[i]).handle != h by {
            if i < a.flows.len() {
                assert(a.flows[i].handle != h);
            }
        }
    }
}

proof fn lemma_turns(s: TcpStack, handles: Seq<SocketHandle>, fresh: Seq<SocketHandle>)
    requires
        tcp_wf(s.sockets, s.listeners, s.flows),
        fresh.len() == handles.len(),
        tcp_fresh(s, handles, fresh),
        handles.no_duplicates(),
        forall|h: SocketHandle| #[trigger] handles.contains(h) ==> s.sockets.dom().contains(h),
    ensures
        turns_hold(s, tcp_turns(s, handles, fresh), handles),
    decreases handles.len(),
{
    if handles.len() > 0 {
        let fewer = handles.drop_last();
        let g = handles.last();
        assert forall|h: SocketHandle| #[trigger] fewer.contains(h) implies s.sockets.dom().contains(
            h,
        ) by {
            let k = choose|k: int| 0 <= k < fewer.len() && fewer[k] == h;
            assert(handles[k] == h);
            assert(handles.contains(h));
        }
        assert(handles.contains(g)) by {
            assert(handles[handles.len() - 1] == g);
        }
        assert(!fewer.contains(g)) by {
            if fewer.contains(g) {
                let k = choose|k: int| 0 <= k < fewer.len() && fewer[k] == g;
                assert(handles[k] == handles[handles.len() - 1]);
            }
        }
        lemma_turns(s, fewer, fresh.drop_last());
        lemma_turn(s, tcp_turns(s, fewer, fresh.drop_last()), fewer, g, fresh.last());
        assert(fewer.push(g) =~= handles);
    }
}

/// In a round every flow has its own round, whatever the order of the sockets:
/// what comes out depends on the flow and its socket alone. A flow that is
/// closed by then is gone with its socket.
pub proof fn every_flow_has_its_round(
    before: TcpStack,
    after: TcpStack,
    handles: Seq<SocketHandle>,
    fresh: Seq<SocketHandle>,
    i: int,
)
    requires
        tcp_wf(before.sockets, before.listeners, before.flows),
        tcp_round(before, after, handles, fresh),
        0 <= i < before.flows.len(),
    ensures
        ({
            let h = before.flows[i].handle;
            let step = flow_step(sockets::tcp_at(before.sockets, h), before.flows[i]);
            &&& step.flow.closed ==> !after.sockets.dom().contains(h)
            &&& step.flow.closed ==> forall|k: int|
                0 <= k < after.flows.len() ==> (#[trigger] after.flows[k]).handle != h
            &&& !step.flow.closed ==> after.flows.contains(step.flow)
            &&& !step.flow.closed ==> after.sockets.dom().contains(h) && after.sockets[h]
                == SocketModel::Tcp(step.socket)
        }),
{
    let t = tcp_turns(before, handles, fresh);
    let h = before.flows[i].handle;
    lemma_turns(before, handles, fresh);
    assert(sockets::is_tcp(before.sockets, h));
    assert(handles.contains(h));
    assert(flow_served(before, t, handles, i));
    let step = flow_step(sockets::tcp_at(before.sockets, h), before.flows[i]);
    assert(t.flows[i] == step.flow);
    assert(t.flows[i].handle == h);
    lemma_without_closed(t.sockets, t.flows, h);
    lemma_live(t.flows, i);
    if step.flow.closed {
        assert forall|k: int| 0 <= k < after.flows.len() implies (#[trigger] after.flows[k]).handle
            != h by {
            lemma_live(t.flows, k);
            let m = choose|m: int| 0 <= m < t.flows.len() && t.flows[m] == after.flows[k];
            assert(m != i);
            if m < i {
                assert(t.flows[m].handle != t.flows[i].handle);
            } else {
                assert(t.flows[i].handle != t.flows[m].handle);
            }
        }
    } else {
        assert forall|j: int| 0 <= j < t.flows.len() && (#[trigger] t.flows[j]).closed implies
            t.flows[j].handle != h by {
            if j < i {
                assert(t.flows[j].handle != t.flows[i].handle);
            } else if i < j {
                assert(t.flows[i].handle != t.flows[j].handle);
            }
        }
    }
}

/// What the turns of some of the sockets have done to a listener whose socket
/// accepted a connection to its target.
spec fn accepted(s: TcpStack, t: TcpStack, handles: Seq<SocketHandle>, l: Listener) -> bool {
    if handles.contains(l.handle) {
        &&& t.flows.contains(new_flow(l.handle))
        &&& exists|k: int|
            #![trigger t.listeners[k]]
            0 <= k < t.listeners.len() && t.listeners[k].target == l.target
                && !s.sockets.dom().contains(t.listeners[k].handle)
                && t.sockets[t.listeners[k].handle] == SocketModel::Tcp(listening(l.target))
    } else {
        t.listeners.contains(l) && t.sockets[l.handle] == s.sockets[l.handle]
    }
}

proof fn lemma_accepted(
    s: TcpStack,
    handles: Seq<SocketHandle>,
    fresh: Seq<SocketHandle>,
    l: Listener,
)
    requires
        tcp_wf(s.sockets, s.listeners, s.flows),
        fresh.len() == handles.len(),
        tcp_fresh(s, handles, fresh),
        handles.no_duplicates(),
        forall|h: SocketHandle| #[trigger] handles.contains(h) ==> s.sockets.dom().contains(h),
        s.listeners.contains(l),
        sockets::tcp_at(s.sockets, l.handle).is_active(),
        sockets::tcp_at(s.sockets, l.handle).local == Some(l.target),
        sockets::tcp_at(s.sockets, l.handle).remote is Some,
    ensures
        accepted(s, tcp_turns(s, handles, fresh), handles, l),
    decreases handles.len(),
{
    if handles.len() > 0 {
        let fewer = handles.drop_last();
        let g = handles.last();
        assert forall|h: SocketHandle| #[trigger] fewer.contains(h) implies s.sockets.dom().contains(
            h,
        ) by {
            let k = choose|k: int| 0 <= k < fewer.len() && fewer[k] == h;
            assert(handles[k] == h);
            assert(handles.contains(h));
        }
        assert(handles.contains(g)) by {
            assert(handles[handles.len() - 1] == g);
        }
        assert(!fewer.contains(g)) by {
            if fewer.contains(g) {
                let k = choose|k: int| 0 <= k < fewer.len() && fewer[k] == g;
                assert(handles[k] == handles[handles.len() - 1]);
            }
        }
        assert(fewer.push(g) =~= handles);
        assert(handles.contains(l.handle) == (fewer.contains(l.handle) || g == l.handle)) by {
            if fewer.contains(l.handle) {
                let k = choose|k: int| 0 <= k < fewer.len() && fewer[k] == l.handle;
                assert(handles[k] == l.handle);
            }
        }
        lemma_accepted(s, fewer, fresh.drop_last(), l);
        lemma_turns(s, fewer, fresh.drop_last());
        lemma_accepting_turn(s, tcp_turns(s, fewer, fresh.drop_last()), fewer, g, fresh.last(), l);
    }
}

proof fn lemma_accepting_turn(
    s: TcpStack,
    a: TcpStack,
    fewer: Seq<SocketHandle>,
    g: SocketHandle,
    fresh: SocketHandle,
    l: Listener,
)
    requires
        turns_hold(s, a, fewer),
        accepted(s, a, fewer, l),
        s.sockets.dom().contains(g),
        !fewer.contains(g),
        opens_listener(a, g) ==> !a.sockets.dom().contains(fresh),
        sockets::tcp_at(s.sockets, l.handle).is_active(),
        sockets::tcp_at(s.sockets, l.handle).local == Some(l.target),
        sockets::tcp_at(s.sockets, l.handle).remote is Some,
    ensures
        accepted(s, tcp_step(a, g, fresh), fewer.push(g), l),
{
    let b = tcp_step(a, g, fresh);
    let more = fewer.push(g);
    let at = listener_index(a.listeners, g);
    let f = flow_index(a.flows, g);
    lemma_listener_bounds(a.listeners, g);
    lemma_flow_bounds(a.flows, g);
    assert(more.contains(g)) by {
        assert(more[fewer.len() as int] == g);
    }
    assert(more.contains(l.handle) == (fewer.contains(l.handle) || g == l.handle)) by {
        if fewer.contains(l.handle) {
            let k = choose|k: int| 0 <= k < fewer.len() && fewer[k] == l.handle;
            assert(more[k] == l.handle);
        }
    }
    let others = a.listeners.remove(at);
    if fewer.contains(l.handle) {
        let j = choose|j: int| 0 <= j < a.flows.len() && a.flows[j] == new_flow(l.handle);
        assert(g != l.handle);
        assert(b.flows[j] == a.flows[j]) by {
            if at >= a.listeners.len() && f < a.flows.len() {
                assert(a.flows[f].handle == g);
            }
        }
        let k = choose|k: int|
            #![trigger a.listeners[k]]
            0 <= k < a.listeners.len() && a.listeners[k].target == l.target
                && !s.sockets.dom().contains(a.listeners[k].handle)
                && a.sockets[a.listeners[k].handle] == SocketModel::Tcp(listening(l.target));
        let m = a.listeners[k];
        assert(m.handle != g);
        assert(sockets::is_tcp(a.sockets, m.handle));
        assert(b.listeners.contains(m)) by {
            lemma_stays_listed(a, g, fresh, k);
        }
        let q = choose|q: int| 0 <= q < b.listeners.len() && b.listeners[q] == m;
        assert(b.sockets[m.handle] == a.sockets[m.handle]);
        assert(b.listeners[q].target == l.target);
    } else {
        let k = choose|k: int| 0 <= k < a.listeners.len() && a.listeners[k] == l;
        assert(sockets::is_tcp(a.sockets, l.handle));
        if g == l.handle {
            assert(at == k) by {
                if at < k {
                    assert(a.listeners[at].handle != a.listeners[k].handle);
                }
            }
            lemma_target_bounds(others, l.target);
            let i = target_index(others, l.target);
            assert(i >= others.len()) by {
                if i < others.len() {
                    let c = if i < at { i } else { i + 1 };
                    assert(others[i] == a.listeners[c]);
                    if c < k {
                        assert(a.listeners[c].target != a.listeners[k].target);
                    } else {
                        assert(a.listeners[k].target != a.listeners[c].target);
                    }
                }
            }
            assert(a.listeners[k].target.port != 0);
            assert(b.flows.last() == new_flow(l.handle));
            let q = b.listeners.len() - 1;
            assert(b.listeners[q] == (Listener { target: l.target, handle: fresh }));
            assert(!s.sockets.dom().contains(fresh));
        } else {
            lemma_stays_listed(a, g, fresh, k);
            assert(b.sockets[l.handle] == a.sockets[l.handle]);
        }
    }
}

proof fn lemma_stays_listed(a: TcpStack, g: SocketHandle, fresh: SocketHandle, k: int)
    requires
        0 <= k < a.listeners.len(),
        a.listeners[k].handle != g,
    ensures
        tcp_step(a, g, fresh).listeners.contains(a.listeners[k]),
{
    let b = tcp_step(a, g, fresh);
    let at = listener_index(a.listeners, g);
    lemma_listener_bounds(a.listeners, g);
    let others = a.listeners.remove(at);
    if b.listeners == a.listeners {
        assert(b.listeners[k] == a.listeners[k]);
    } else {
        let c = if k < at { k } else { k - 1 };
        assert(others[c] == a.listeners[k]);
        assert(b.listeners[c] == a.listeners[k]);
    }
}

/// In a round, a listener whose socket accepted a connection to its target
/// becomes a flow that waits for its tunnel, and the target listens again on a
/// new socket, so that a second connection can be accepted. No socket is then
/// that of a listener and of a flow.
pub proof fn an_accepted_connection_becomes_a_flow(
    before: TcpStack,
    after: TcpStack,
    handles: Seq<SocketHandle>,
    fresh: Seq<SocketHandle>,
    l: Listener,
)
    requires
        tcp_wf(before.sockets, before.listeners, before.flows),
        tcp_round(before, after, handles, fresh),
        before.listeners.contains(l),
        sockets::tcp_at(before.sockets, l.handle).is_active(),
        sockets::tcp_at(before.sockets, l.handle).local == Some(l.target),
        sockets::tcp_at(before.sockets, l.handle).remote is Some,
    ensures
        after.flows.contains(new_flow(l.handle)),
        exists|k: int|
            #![trigger after.listeners[k]]
            0 <= k < after.listeners.len() && after.listeners[k].target == l.target
                && after.listeners[k].handle != l.handle && !before.sockets.dom().contains(
                after.listeners[k].handle,
            ) && after.sockets.dom().contains(after.listeners[k].handle)
                && after.sockets[after.listeners[k].handle] == SocketModel::Tcp(
                listening(l.target),
            ),
        tcp_wf(after.sockets, after.listeners, after.flows),
{
    let t = tcp_turns(before, handles, fresh);
    lemma_turns(before, handles, fresh);
    lemma_accepted(before, handles, fresh, l);
    let i = choose|i: int| 0 <= i < before.listeners.len() && before.listeners[i] == l;
    assert(sockets::is_tcp(before.sockets, before.listeners[i].handle));
    assert(handles.contains(l.handle));
    reap_keeps_wf(t);
    let j = choose|j: int| 0 <= j < t.flows.len() && t.flows[j] == new_flow(l.handle);
    lemma_live(t.flows, j);
    let k = choose|k: int|
        #![trigger t.listeners[k]]
        0 <= k < t.listeners.len() && t.listeners[k].target == l.target
            && !before.sockets.dom().contains(t.listeners[k].handle)
            && t.sockets[t.listeners[k].handle] == SocketModel::Tcp(listening(l.target));
    assert(after.listeners[k] == t.listeners[k]);
    assert(sockets::is_tcp(after.sockets, after.listeners[k].handle));
    lemma_without_closed(t.sockets, t.flows, t.listeners[k].handle);
}

/// A round leaves the sockets that are neither listeners nor flows alone.
pub proof fn a_round_leaves_other_sockets_alone(
    before: TcpStack,
    after: TcpStack,
    handles: Seq<SocketHandle>,
    fresh: Seq<SocketHandle>,
    h: SocketHandle,
)
    requires
        tcp_wf(before.sockets, before.listeners, before.flows),
        tcp_round(before, after, handles, fresh),
        before.sockets.dom().contains(h),
        !in_use(before, h),
    ensures
        after.sockets.dom().contains(h),
        after.sockets[h] == before.sockets[h],
{
    let t = tcp_turns(before, handles, fresh);
    lemma_turns(before, handles, fresh);
    assert(!in_use(t, h));
    assert forall|j: int| 0 <= j < t.flows.len() && (#[trigger] t.flows[j]).closed implies
        t.flows[j].handle != h by {}
    lemma_without_closed(t.sockets, t.flows, h);
}

proof fn lemma_written(a: Seq<ActionModel>, b: Seq<ActionModel>)
    ensures
        written(a + b) == written(a) + written(b),
    decreases b.len(),
{
    if b.len() == 0 {
        assert(a + b =~= a);
    } else {
        assert((a + b).drop_last() =~= a + b.drop_last());
        assert((a + b).last() == b.last());
        lemma_written(a, b.drop_last());
    }
}

proof fn lemma_written_push(a: Seq<ActionModel>, x: ActionModel)
    ensures
        written(a.push(x)) == written(a) + match x {
            ActionModel::Write { data, .. } => data.len(),
            _ => 0,
        },
{
    assert(a.push(x).drop_last() =~= a);
}

proof fn lemma_step_written(socket: TcpModel, flow: FlowModel)
    ensures
        written(flow_step(socket, flow).actions) == flow_step(socket, flow).up,
{
    let first = connect_step(socket, flow);
    let step = flow_step(socket, flow);
    lemma_written_push(Seq::empty(), ActionModel::Attach { handle: flow.handle });
    assert(Seq::<ActionModel>::empty().push(ActionModel::Attach { handle: flow.handle }) =~= seq![
        ActionModel::Attach { handle: flow.handle },
    ]);
    assert(written(Seq::<ActionModel>::empty()) == 0);
    assert(written(first.actions) == 0);
    if first.flow.connection == Connection::Connected {
        let data = taken(first.socket);
        lemma_written_push(first.actions, ActionModel::Write { handle: flow.handle, data });
    }
}

proof fn lemma_turns_written(s: TcpStack, handles: Seq<SocketHandle>, fresh: Seq<SocketHandle>)
    ensures
        written(s.actions) <= written(tcp_turns(s, handles, fresh).actions),
        tcp_turns(s, handles, fresh).stats.upload_bytes == traffic::counted(
            s.stats.upload_bytes,
            (written(tcp_turns(s, handles, fresh).actions) - written(s.actions)) as nat,
        ),
    decreases handles.len(),
{
    traffic::lemma_counted(s.stats.upload_bytes, 0, 0);
    if handles.len() > 0 {
        let a = tcp_turns(s, handles.drop_last(), fresh.drop_last());
        lemma_turns_written(s, handles.drop_last(), fresh.drop_last());
        let g = handles.last();
        let f = flow_index(a.flows, g);
        let socket = sockets::tcp_at(a.sockets, g);
        if socket.local is Some {
            lemma_written_push(a.actions, ActionModel::Connect { handle: g, target: socket.local->0 });
        }
        lemma_step_written(socket, a.flows[f]);
        let step = flow_step(socket, a.flows[f]);
        lemma_written(a.actions, step.actions);
        traffic::lemma_counted(
            s.stats.upload_bytes,
            (written(a.actions) - written(s.actions)) as nat,
            step.up,
        );
    }
}

proof fn lemma_closings_written(flows: Seq<FlowModel>)
    ensures
        written(closings(flows)) == 0,
    decreases flows.len(),
{
    if flows.len() > 0 {
        lemma_closings_written(flows.drop_last());
        lemma_written_push(
            closings(flows.drop_last()),
            ActionModel::Close { handle: flows.last().handle },
        );
    }
}

/// A round counts as uploaded exactly the octets that it asks to be written
/// to tunnels.
pub proof fn upload_counts_the_writes(
    before: TcpStack,
    after: TcpStack,
    handles: Seq<SocketHandle>,
    fresh: Seq<SocketHandle>,
)
    requires
        tcp_round(before, after, handles, fresh),
        before.actions.len() == 0,
    ensures
        after.stats.upload_bytes == traffic::counted(
            before.stats.upload_bytes,
            written(after.actions),
        ),
{
    let t = tcp_turns(before, handles, fresh);
    lemma_turns_written(before, handles, fresh);
    lemma_closings_written(t.flows);
    lemma_written(t.actions, closings(t.flows));
}

/// The octets of some buffers, one after the other.
pub open spec fn joined(queue: Seq<Seq<u8>>) -> Seq<u8>
    decreases queue.len(),
{
    if queue.len() == 0 {
        Seq::empty()
    } else {
        queue[0] + joined(queue.drop_first())
    }
}

/// The octets that a socket takes of so many that are waiting.
pub open spec fn takes(socket: TcpModel, waiting: nat) -> nat {
    if socket.may_send() && socket.queued.len() <= socket.capacity {
        sockets::fitting(waiting, (socket.capacity - socket.queued.len()) as nat)
    } else {
        0
    }
}

/// Nothing that a tunnel delivers is lost, and it stays in order: a socket
/// that may send takes as much as it has room for, the rest waits for it, and
/// what is counted is what it took.
pub proof fn delivery_loses_nothing(socket: TcpModel, queue: Seq<Seq<u8>>)
    ensures
        ({
            let d = deliver(socket, queue);
            let all = joined(queue);
            let n = takes(socket, all.len()) as int;
            &&& d.octets == n
            &&& d.socket == (TcpModel { queued: socket.queued + all.take(n), ..socket })
            &&& joined(d.rest) == all.skip(n)
        }),
    decreases queue.len(),
{
    let d = deliver(socket, queue);
    let all = joined(queue);
    if queue.len() == 0 || !socket.can_send() {
        assert(socket.queued + all.take(0) =~= socket.queued);
        assert(all.skip(0) =~= all);
    } else {
        let data = queue[0];
        let n = sockets::fitting(data.len(), (socket.capacity - socket.queued.len()) as nat);
        let next = TcpModel { queued: socket.queued + data.take(n as int), ..socket };
        let tail = joined(queue.drop_first());
        if n < data.len() {
            assert(all.take(n as int) =~= data.take(n as int));
            assert(d.rest.drop_first() =~= queue.drop_first());
            assert(data.skip(n as int) + tail =~= all.skip(n as int));
        } else {
            delivery_loses_nothing(next, queue.drop_first());
            let m = takes(next, tail.len()) as int;
            assert(socket.queued + data.take(n as int) + tail.take(m) =~= socket.queued + all.take(
                n + m,
            ));
            assert(tail.skip(m) =~= all.skip(n + m));
        }
    }
}

/// Delivery changes nothing of a socket but its transmit buffer, only adds to
/// that, and never puts more into it than it has room for.
pub proof fn delivery_keeps_to_the_buffer(socket: TcpModel, queue: Seq<Seq<u8>>)
    requires
        socket.queued.len() <= socket.capacity,
    ensures
        ({
            let d = deliver(socket, queue);
            &&& d.socket == (TcpModel { queued: d.socket.queued, ..socket })
            &&& socket.queued.is_prefix_of(d.socket.queued)
            &&& d.socket.queued.len() <= socket.capacity
        }),
{
    delivery_loses_nothing(socket, queue);
    let n = takes(socket, joined(queue).len()) as int;
    let after = socket.queued + joined(queue).take(n);
    assert(socket.queued =~= after.take(socket.queued.len() as int));
}

/// What a tunnel delivers reaches the socket whole and in order, as long as
/// there is room for it.
pub proof fn what_fits_is_delivered(socket: TcpModel, queue: Seq<Seq<u8>>)
    requires
        socket.may_send(),
        socket.queued.len() + joined(queue).len() <= socket.capacity,
    ensures
        deliver(socket, queue).socket.queued == socket.queued + joined(queue),
        joined(deliver(socket, queue).rest).len() == 0,
        deliver(socket, queue).octets == joined(queue).len(),
{
    delivery_loses_nothing(socket, queue);
    assert(joined(queue).take(joined(queue).len() as int) =~= joined(queue));
}

/// In a round of a flow with an open tunnel nothing that the tunnel delivered
/// is lost: what the socket took in, followed by what still waits, is what was
/// waiting, and what is counted is what the socket took in.
pub proof fn a_round_loses_nothing(socket: TcpModel, flow: FlowModel)
    requires
        connect_step(socket, flow).flow.connection == Connection::Connected,
    ensures
        ({
            let step = flow_step(socket, flow);
            let all = joined(flow.incoming);
            let n = takes(socket, all.len()) as int;
            &&& step.down == n
            &&& step.socket.queued == socket.queued + all.take(n)
            &&& all.take(n) + joined(step.flow.incoming) == all
        }),
{
    let data = taken(socket);
    let pulled = TcpModel { received: socket.received.skip(data.len() as int), ..socket };
    delivery_loses_nothing(pulled, flow.incoming);
    let all = joined(flow.incoming);
    let n = takes(socket, all.len()) as int;
    assert(all.take(n) + all.skip(n) =~= all);
}

/// What a connection sent goes to its tunnel in order: what a round does not
/// take is still there for the next one.
pub proof fn uploads_are_taken_in_order(socket: TcpModel, flow: FlowModel)
    requires
        connect_step(socket, flow).flow.connection == Connection::Connected,
    ensures
        taken(socket) + flow_step(socket, flow).socket.received == socket.received,
        taken(socket).len() > 0 ==> flow_step(socket, flow).actions.last() == (
        ActionModel::Write { handle: flow.handle, data: taken(socket) }),
{
    let first = connect_step(socket, flow);
    assert(first.socket == socket);
    let data = taken(socket);
    let pulled = TcpModel { received: socket.received.skip(data.len() as int), ..socket };
    delivery_loses_nothing(pulled, flow.incoming);
    assert(data + pulled.received =~= socket.received);
}

/// Whether no TCP socket of a set has more to send than it has room for.
pub open spec fn buffers_fit(all: Map<SocketHandle, SocketModel>) -> bool {
    forall|h: SocketHandle| #[trigger]
        sockets::is_tcp(all, h) ==> sockets::tcp_at(all, h).queued.len() <= sockets::tcp_at(
            all,
            h,
        ).capacity
}

proof fn lemma_step_fits(s: TcpStack, handle: SocketHandle, fresh: SocketHandle)
    requires
        tcp_wf(s.sockets, s.listeners, s.flows),
        buffers_fit(s.sockets),
    ensures
        buffers_fit(tcp_step(s, handle, fresh).sockets),
{
    let f = flow_index(s.flows, handle);
    let socket = sockets::tcp_at(s.sockets, handle);
    lemma_flow_bounds(s.flows, handle);
    let t = tcp_step(s, handle, fresh);
    if listener_index(s.listeners, handle) >= s.listeners.len() && f < s.flows.len() {
        assert(sockets::is_tcp(s.sockets, s.flows[f].handle));
        let first = connect_step(socket, s.flows[f]);
        let data = taken(first.socket);
        let pulled = TcpModel {
            received: first.socket.received.skip(data.len() as int),
            ..first.socket
        };
        delivery_keeps_to_the_buffer(pulled, s.flows[f].incoming);
    }
    assert forall|h: SocketHandle| #[trigger] sockets::is_tcp(t.sockets, h) implies sockets::tcp_at(
        t.sockets,
        h,
    ).queued.len() <= sockets::tcp_at(t.sockets, h).capacity by {
        if t.sockets[h] == s.sockets[h] && s.sockets.dom().contains(h) {
            assert(sockets::is_tcp(s.sockets, h));
        }
    }
}

proof fn lemma_turns_fit(s: TcpStack, handles: Seq<SocketHandle>, fresh: Seq<SocketHandle>)
    requires
        tcp_wf(s.sockets, s.listeners, s.flows),
        tcp_fresh(s, handles, fresh),
        buffers_fit(s.sockets),
    ensures
        ({
            let t = tcp_turns(s, handles, fresh);
            tcp_wf(t.sockets, t.listeners, t.flows) && buffers_fit(t.sockets)
        }),
    decreases handles.len(),
{
    if handles.len() > 0 {
        lemma_turns_fit(s, handles.drop_last(), fresh.drop_last());
        let a = tcp_turns(s, handles.drop_last(), fresh.drop_last());
        lemma_step_fits(a, handles.last(), fresh.last());
        tcp_step_keeps_wf(a, handles.last(), fresh.last());
    }
}

proof fn lemma_without_closed_fits(all: Map<SocketHandle, SocketModel>, flows: Seq<FlowModel>)
    requires
        buffers_fit(all),
    ensures
        buffers_fit(without_closed(all, flows)),
    decreases flows.len(),
{
    if flows.len() > 0 {
        let fewer = without_closed(all, flows.drop_last());
        lemma_without_closed_fits(all, flows.drop_last());
        assert forall|h: SocketHandle| #[trigger]
            sockets::is_tcp(without_closed(all, flows), h) implies sockets::tcp_at(
            without_closed(all, flows),
            h,
        ).queued.len() <= sockets::tcp_at(without_closed(all, flows), h).capacity by {
            assert(sockets::is_tcp(fewer, h));
        }
    }
}

/// A round keeps the transmit buffers of all sockets within their room.
pub proof fn a_round_keeps_to_the_buffers(
    before: TcpStack,
    after: TcpStack,
    handles: Seq<SocketHandle>,
    fresh: Seq<SocketHandle>,
)
    requires
        tcp_wf(before.sockets, before.listeners, before.flows),
        tcp_round(before, after, handles, fresh),
        buffers_fit(before.sockets),
    ensures
        buffers_fit(after.sockets),
{
    lemma_turns_fit(before, handles, fresh);
    let t = tcp_turns(before, handles, fresh);
    lemma_without_closed_fits(t.sockets, t.flows);
}

// ---------------------------------------------------------------------------
// The stack
// ---------------------------------------------------------------------------

/// The place of the listener of a target, or the number of listeners.
pub(crate) fn find_target(listeners: &Vec<Listener>, target: Endpoint) -> (r: usize)
    ensures
        r == target_index(listeners@, target),
        r <= listeners.len(),
{
    let mut i: usize = 0;
    while i < listeners.len() && listeners[i].target != target
        invariant
            i <= listeners.len(),
            forall|k: int| 0 <= k < i ==> (#[trigger] listeners@[k]).target != target,
        decreases listeners.len() - i,
    {
        i = i + 1;
    }
    proof {
        lemma_target_index(listeners@, target, i as int);
    }
    i
}

/// The place of the listener on a socket, or the number of listeners.
fn find_listener(listeners: &Vec<Listener>, handle: SocketHandle) -> (r: usize)
    ensures
        r == listener_index(listeners@, handle),
        r <= listeners.len(),
        r < listeners.len() ==> listeners@[r as int].handle == handle,
        forall|k: int| 0 <= k < r ==> (#[trigger] listeners@[k]).handle != handle,
{
    let mut i: usize = 0;
    while i < listeners.len() && !(listeners[i].handle == handle)
        invariant
            i <= listeners.len(),
            forall|k: int| 0 <= k < i ==> (#[trigger] listeners@[k]).handle != handle,
        decreases listeners.len() - i,
    {
        i = i + 1;
    }
    proof {
        lemma_listener_index(listeners@, handle, i as int);
    }
    i
}

/// The place of the flow of a socket, or the number of flows.
pub(crate) fn find_tcp_flow(flows: &Vec<TcpFlow>, handle: SocketHandle) -> (r: usize)
    ensures
        r == flow_index(flow_models(flows@), handle),
        r <= flows.len(),
        r < flows.len() ==> flows@[r as int].handle == handle,
        forall|k: int| 0 <= k < r ==> (#[trigger] flows@[k]).handle != handle,
{
    let mut i: usize = 0;
    let ghost models = flow_models(flows@);
    while i < flows.len() && !(flows[i].handle == handle)
        invariant
            i <= flows.len(),
            forall|k: int| 0 <= k < i ==> (#[trigger] flows@[k]).handle != handle,
        decreases flows.len() - i,
    {
        i = i + 1;
    }
    proof {
        assert forall|k: int| 0 <= k < i implies (#[trigger] models[k]).handle != handle by {
            assert(models[k].handle == flows@[k].handle);
        }
        lemma_flow_index(models, handle, i as int);
    }
    i
}

/// Makes sure that connections to a target are accepted: unless the target
/// has a listener, a new socket listens for it. A target without a port gets
/// no listener.
pub fn ensure_tcp_listener(
    set: &mut SocketSet<'static>,
    listeners: &mut Vec<Listener>,
    target: Endpoint,
)
    requires
        sockets::socket_limit(*old(set)) is None,
    ensures
        sockets::socket_limit(*final(set)) is None,
        wants_listener(old(listeners)@, target) ==> {
            let fresh = final(listeners)@.last().handle;
            &&& !sockets::socket_contents(*old(set)).dom().contains(fresh)
            &&& sockets::socket_contents(*final(set)) == listen_sockets(
                sockets::socket_contents(*old(set)),
                old(listeners)@,
                target,
                fresh,
            )
            &&& final(listeners)@ == listen_listeners(old(listeners)@, target, fresh)
        },
        !wants_listener(old(listeners)@, target) ==> {
            &&& sockets::socket_contents(*final(set)) == sockets::socket_contents(*old(set))
            &&& final(listeners)@ == old(listeners)@
        },
        target.port != 0 ==> exists|k: int|
            0 <= k < final(listeners)@.len() && (#[trigger] final(listeners)@[k]).target == target,
        target.port == 0 || (exists|k: int|
            0 <= k < old(listeners)@.len() && (#[trigger] old(listeners)@[k]).target == target)
            ==> final(listeners)@ == old(listeners)@,
        final(listeners)@ != old(listeners)@ ==> {
            let last = final(listeners)@.last();
            let socket = sockets::tcp_at(sockets::socket_contents(*final(set)), last.handle);
            &&& final(listeners)@.drop_last() == old(listeners)@
            &&& last.target == target
            &&& sockets::is_tcp(sockets::socket_contents(*final(set)), last.handle)
            &&& socket.phase == TcpPhase::Listen
            &&& socket.listen == Some(target)
            &&& socket.received.len() == 0 && socket.queued.len() == 0
            &&& socket.capacity == 262144
        },
{
    let ghost before = sockets::socket_contents(*set);
    proof {
        lemma_target_bounds(listeners@, target);
    }
    if find_target(listeners, target) < listeners.len() {
        assert(listeners@[target_index(listeners@, target)].target == target);
        return;
    }
    let handle = add_tcp(set, SOCKET_BUFFER);
    if tcp_listen(set, handle, target) {
        listeners.push(Listener { target, handle });
        proof {
            assert(listeners@[old(listeners)@.len() as int].target == target);
            assert(listeners@.drop_last() =~= old(listeners)@);
            assert(sockets::socket_contents(*set) =~= listen_sockets(
                before,
                old(listeners)@,
                target,
                handle,
            ));
            assert(listeners@ == listen_listeners(old(listeners)@, target, handle));
        }
    } else {
        remove_socket(set, handle);
        proof {
            assert(sockets::socket_contents(*set) =~= before);
        }
    }
}

/// The rounds of a flow: sees the outcome of the connection attempt, moves
/// octets both ways, and notices that the socket is done.
fn serve_flow(
    set: &mut SocketSet<'static>,
    flow: &mut TcpFlow,
    actions: &mut Vec<TcpAction>,
    stats: &mut VpnEngineTrafficStats,
)
    requires
        sockets::is_tcp(sockets::socket_contents(*old(set)), old(flow).handle),
    ensures
        sockets::socket_limit(*final(set)) == sockets::socket_limit(*old(set)),
        ({
            let before = sockets::socket_contents(*old(set));
            let handle = old(flow).handle;
            let step = flow_step(sockets::tcp_at(before, handle), old(flow)@);
            &&& sockets::socket_contents(*final(set)) == before.insert(
                handle,
                SocketModel::Tcp(step.socket),
            )
            &&& final(flow)@ == step.flow
            &&& action_models(final(actions)@) == action_models(old(actions)@) + step.actions
            &&& *final(stats) == (VpnEngineTrafficStats {
                upload_bytes: traffic::counted(old(stats).upload_bytes, step.up),
                download_bytes: traffic::counted(old(stats).download_bytes, step.down),
                ..*old(stats)
            })
        }),
{
    let handle = flow.handle;
    let ghost before = sockets::socket_contents(*set);
    let ghost model = sockets::tcp_at(before, handle);
    let ghost first = connect_step(model, flow@);
    let ghost wanted = action_models(actions@);
    if flow.connection == Connection::Connecting {
        match flow.outcome {
            Some(ConnectOutcome::Connected) => {
                actions.push(TcpAction::Attach { handle });
                flow.connection = Connection::Connected;
                flow.outcome = None;
            },
            Some(ConnectOutcome::Refused) => {
                tcp_abort(set, handle);
                flow.connection = Connection::Unreachable;
                flow.outcome = None;
            },
            Some(ConnectOutcome::Lost) => {
                flow.connection = Connection::Unreachable;
                flow.outcome = None;
            },
            None => {},
        }
    }
    assert(flow@ =~= first.flow);
    assert(action_models(actions@) =~= wanted + first.actions);
    assert(sockets::socket_contents(*set) =~= before.insert(handle, SocketModel::Tcp(first.socket)));
    proof {
        traffic::lemma_counted(old(stats).upload_bytes, 0, 0);
        traffic::lemma_counted(old(stats).download_bytes, 0, 0);
    }
    if flow.connection == Connection::Connected {
        let ghost data = taken(first.socket);
        let ghost pulled = TcpModel {
            received: first.socket.received.skip(data.len() as int),
            ..first.socket
        };
        assert(first.socket.received.skip(0) =~= first.socket.received);
        let mut buffer: Vec<u8> = vec![0; READ_BUFFER];
        match tcp_recv(set, handle, &mut buffer) {
            Some(n) => {
                if n > 0 {
                    let chunk = slice_to_vec(slice_subrange(buffer.as_slice(), 0, n));
                    assert(chunk@ =~= data);
                    actions.push(TcpAction::Write { handle, data: chunk });
                    stats.add_upload_bytes(n);
                }
            },
            None => {},
        }
        assert(sockets::socket_contents(*set) =~= before.insert(handle, SocketModel::Tcp(pulled)));
        let ghost goal = deliver(pulled, flow@.incoming);
        let ghost start = stats.download_bytes;
        let ghost mut passed: nat = 0;
        let ghost mut now = pulled;
        let ghost told = action_models(actions@);
        let mut open = true;
        assert(told =~= if data.len() > 0 {
            wanted + first.actions.push(ActionModel::Write { handle, data })
        } else {
            wanted + first.actions
        });
        proof {
            traffic::lemma_counted(start, 0, 0);
        }
        while open && flow.incoming.len() > 0
            invariant
                flow.handle == handle,
                flow.connection == first.flow.connection,
                flow.outcome == first.flow.outcome,
                flow.closed == first.flow.closed,
                sockets::socket_limit(*set) == sockets::socket_limit(*old(set)),
                sockets::socket_contents(*set) == before.insert(handle, SocketModel::Tcp(now)),
                action_models(actions@) == told,
                stats.download_bytes == traffic::counted(start, passed),
                stats.upload_bytes == traffic::counted(old(stats).upload_bytes, data.len()),
                stats.upload_packets == old(stats).upload_packets,
                stats.download_packets == old(stats).download_packets,
                open ==> ({
                    let later = deliver(now, chunks(flow.incoming@));
                    &&& goal.socket == later.socket
                    &&& goal.rest == later.rest
                    &&& goal.octets == passed + later.octets
                }),
                !open ==> goal.socket == now && goal.rest == chunks(flow.incoming@) && goal.octets
                    == passed,
            decreases flow.incoming.len(), (if open { 1int } else { 0int }),
        {
            let ghost queue = chunks(flow.incoming@);
            if tcp_can_send(set, handle) {
                let chunk = flow.incoming.remove(0);
                assert(chunks(flow.incoming@) =~= queue.drop_first());
                assert(chunk@ == queue[0]);
                let ghost sent = sockets::fitting(
                    chunk@.len(),
                    (now.capacity - now.queued.len()) as nat,
                );
                let ghost next = TcpModel { queued: now.queued + chunk@.take(sent as int), ..now };
                let taken_in: usize = match tcp_send(set, handle, &chunk) {
                    Some(n) => n,
                    None => 0,
                };
                stats.add_download_bytes(taken_in);
                assert(sockets::socket_contents(*set) =~= before.insert(
                    handle,
                    SocketModel::Tcp(next),
                ));
                if taken_in < chunk.len() {
                    let rest = slice_to_vec(
                        slice_subrange(chunk.as_slice(), taken_in, chunk.len()),
                    );
                    assert(rest@ =~= chunk@.skip(taken_in as int));
                    flow.incoming.insert(0, rest);
                    open = false;
                    assert(chunks(flow.incoming@) =~= queue.update(0, rest@));
                }
                proof {
                    now = next;
                    traffic::lemma_counted(start, passed, sent);
                    passed = passed + sent;
                }
            } else {
                open = false;
            }
        }
        proof {
            assert(open ==> chunks(flow.incoming@) =~= Seq::<Seq<u8>>::empty());
            assert(goal.socket == now && goal.rest == chunks(flow.incoming@) && goal.octets
                == passed);
        }
        if !tcp_may_recv(set, handle) && !tcp_may_send(set, handle) {
            flow.closed = true;
        }
    }
}

/// Gives one socket its turn.
fn serve_socket(
    set: &mut SocketSet<'static>,
    listeners: &mut Vec<Listener>,
    flows: &mut Vec<TcpFlow>,
    actions: &mut Vec<TcpAction>,
    stats: &mut VpnEngineTrafficStats,
    handle: SocketHandle,
)
    requires
        sockets::socket_limit(*old(set)) is None,
        tcp_wf(sockets::socket_contents(*old(set)), old(listeners)@, flow_models(old(flows)@)),
    ensures
        sockets::socket_limit(*final(set)) is None,
        ({
            let before = stack_of(
                sockets::socket_contents(*old(set)),
                old(listeners)@,
                old(flows)@,
                old(actions)@,
                *old(stats),
            );
            let fresh = final(listeners)@.last().handle;
            &&& opens_listener(before, handle) ==> !before.sockets.dom().contains(fresh)
            &&& stack_of(
                sockets::socket_contents(*final(set)),
                final(listeners)@,
                final(flows)@,
                final(actions)@,
                *final(stats),
            ) == tcp_step(before, handle, fresh)
        }),
{
    let ghost before = stack_of(
        sockets::socket_contents(*set),
        listeners@,
        flows@,
        actions@,
        *stats,
    );
    let l = find_listener(listeners, handle);
    if l < listeners.len() {
        if tcp_is_active(set, handle) {
            let local = tcp_local(set, handle);
            let remote = tcp_remote(set, handle);
            match (local, remote) {
                (Some(target), Some(_)) => {
                    let _ = listeners.remove(l);
                    actions.push(TcpAction::Connect { handle, target });
                    flows.push(
                        TcpFlow {
                            handle,
                            connection: Connection::Connecting,
                            outcome: None,
                            incoming: Vec::new(),
                            closed: false,
                        },
                    );
                    assert(flows@.last()@.incoming =~= Seq::<Seq<u8>>::empty());
                    assert(flow_models(flows@) =~= before.flows.push(new_flow(handle)));
                    assert(action_models(actions@) =~= before.actions.push(
                        ActionModel::Connect { handle, target },
                    ));
                    ensure_tcp_listener(set, listeners, target);
                },
                _ => {},
            }
        }
        return ;
    }
    let f = find_tcp_flow(flows, handle);
    if f < flows.len() {
        assert(before.flows[f as int].handle == handle);
        serve_flow(set, &mut flows[f], actions, stats);
        assert(flow_models(flows@) =~= before.flows.update(f as int, flows@[f as int]@));
    }
}

/// Removes the closed flows and their sockets.
fn reap_closed(
    set: &mut SocketSet<'static>,
    flows: &mut Vec<TcpFlow>,
    actions: &mut Vec<TcpAction>,
)
    requires
        forall|i: int|
            0 <= i < old(flows)@.len() ==> sockets::is_tcp(
                sockets::socket_contents(*old(set)),
                (#[trigger] old(flows)@[i]).handle,
            ),
        forall|i: int, j: int|
            0 <= i < j < old(flows)@.len() ==> (#[trigger] old(flows)@[i]).handle != (
            #[trigger] old(flows)@[j]).handle,
    ensures
        sockets::socket_limit(*final(set)) == sockets::socket_limit(*old(set)),
        ({
            let all = flow_models(old(flows)@);
            &&& sockets::socket_contents(*final(set)) == without_closed(
                sockets::socket_contents(*old(set)),
                all,
            )
            &&& flow_models(final(flows)@) == live(all)
            &&& action_models(final(actions)@) == action_models(old(actions)@) + closings(all)
        }),
{
    let ghost all = flow_models(flows@);
    let ghost contents = sockets::socket_contents(*set);
    let ghost told = action_models(actions@);
    let ghost mut seen: int = 0;
    let mut i: usize = 0;
    assert(all.take(0) =~= Seq::<FlowModel>::empty());
    assert(all.skip(0) =~= all);
    assert(told + closings(all.take(0)) =~= told);
    while i < flows.len()
        invariant
            0 <= seen <= all.len(),
            i == live(all.take(seen)).len(),
            flow_models(flows@) == live(all.take(seen)) + all.skip(seen),
            sockets::socket_limit(*set) == sockets::socket_limit(*old(set)),
            sockets::socket_contents(*set) == without_closed(contents, all.take(seen)),
            action_models(actions@) == told + closings(all.take(seen)),
            forall|k: int|
                0 <= k < all.len() ==> sockets::is_tcp(contents, (#[trigger] all[k]).handle),
            forall|k: int, j: int|
                0 <= k < j < all.len() ==> (#[trigger] all[k]).handle != (#[trigger] all[j]).handle,
        decreases flows.len() - i,
    {
        let ghost was = flow_models(flows@);
        let ghost before = all.take(seen);
        let ghost one = all.take(seen + 1);
        assert(was.len() == live(before).len() + all.len() - seen);
        assert(was[i as int] == all[seen]);
        assert(flows@[i as int]@ == all[seen]);
        assert(one.drop_last() =~= before);
        assert(one.last() == all[seen]);
        if flows[i].closed {
            let ghost told_before = action_models(actions@);
            let flow = flows.remove(i);
            assert(flow@ == all[seen]);
            assert(flow_models(flows@) =~= was.remove(i as int));
            assert(live(one) == live(before));
            assert(was.remove(i as int) =~= live(one) + all.skip(seen + 1));
            if flow.connection == Connection::Connected {
                actions.push(TcpAction::Close { handle: flow.handle });
                assert(action_models(actions@) =~= told_before.push(
                    ActionModel::Close { handle: flow.handle },
                ));
                assert(closings(one) == closings(before).push(
                    ActionModel::Close { handle: flow.handle },
                ));
                assert(action_models(actions@) =~= told + closings(one));
            }
            proof {
                lemma_without_closed(contents, before, flow.handle);
                assert(sockets::is_tcp(contents, all[seen].handle));
                assert forall|k: int| 0 <= k < before.len() && (#[trigger] before[k]).closed implies
                    before[k].handle != flow.handle by {
                    assert(all[k].handle != all[seen].handle);
                }
            }
            remove_socket(set, flow.handle);
        } else {
            assert(was =~= live(one) + all.skip(seen + 1));
            i = i + 1;
        }
        proof {
            seen = seen + 1;
        }
    }
    assert(seen == all.len()) by {
        assert(flow_models(flows@).len() == live(all.take(seen)).len() + all.len() - seen);
    }
    assert(all.take(seen) =~= all);
    assert(all.skip(seen) =~= Seq::<FlowModel>::empty());
    assert(live(all) + all.skip(seen) =~= live(all));
}

/// One round of the TCP half of the stack. Every socket of the set has its
/// turn: an accepted connection becomes a flow and gets a tunnel, and its
/// target listens again; a flow sees the outcome of its connection attempt,
/// moves octets both ways and notices its end. Then the closed flows go with
/// their sockets.
pub fn process_tcp(
    set: &mut SocketSet<'static>,
    listeners: &mut Vec<Listener>,
    flows: &mut Vec<TcpFlow>,
    stats: &mut VpnEngineTrafficStats,
) -> (actions: Vec<TcpAction>)
    requires
        sockets::socket_limit(*old(set)) is None,
        tcp_wf(sockets::socket_contents(*old(set)), old(listeners)@, flow_models(old(flows)@)),
    ensures
        sockets::socket_limit(*final(set)) is None,
        tcp_wf(
            sockets::socket_contents(*final(set)),
            final(listeners)@,
            flow_models(final(flows)@),
        ),
        exists|handles: Seq<SocketHandle>, fresh: Seq<SocketHandle>| #[trigger]
            tcp_round(
                stack_of(
                    sockets::socket_contents(*old(set)),
                    old(listeners)@,
                    old(flows)@,
                    Seq::empty(),
                    *old(stats),
                ),
                stack_of(
                    sockets::socket_contents(*final(set)),
                    final(listeners)@,
                    final(flows)@,
                    actions@,
                    *final(stats),
                ),
                handles,
                fresh,
            ),
{
    let ghost start = stack_of(
        sockets::socket_contents(*set),
        listeners@,
        flows@,
        Seq::empty(),
        *stats,
    );
    let mut actions: Vec<TcpAction> = Vec::new();
    let handles = socket_handles(set);
    let ghost mut fresh: Seq<SocketHandle> = Seq::empty();
    let mut i: usize = 0;
    assert(handles@.take(0) =~= Seq::<SocketHandle>::empty());
    assert(actions@ =~= Seq::<TcpAction>::empty());
    while i < handles.len()
        invariant
            i <= handles.len(),
            fresh.len() == i,
            sockets::socket_limit(*set) is None,
            tcp_wf(sockets::socket_contents(*set), listeners@, flow_models(flows@)),
            tcp_fresh(start, handles@.take(i as int), fresh),
            stack_of(sockets::socket_contents(*set), listeners@, flows@, actions@, *stats)
                == tcp_turns(start, handles@.take(i as int), fresh),
        decreases handles.len() - i,
    {
        let handle = handles[i];
        let ghost before = stack_of(
            sockets::socket_contents(*set),
            listeners@,
            flows@,
            actions@,
            *stats,
        );
        serve_socket(set, listeners, flows, &mut actions, stats, handle);
        proof {
            let mine = listeners@.last().handle;
            tcp_step_keeps_wf(before, handle, mine);
            let one = handles@.take(i + 1);
            assert(one.drop_last() =~= handles@.take(i as int));
            assert(fresh.push(mine).drop_last() =~= fresh);
            fresh = fresh.push(mine);
        }
        i = i + 1;
    }
    assert(handles@.take(i as int) =~= handles@);
    let ghost done = stack_of(
        sockets::socket_contents(*set),
        listeners@,
        flows@,
        actions@,
        *stats,
    );
    proof {
        assert forall|k: int| 0 <= k < flows@.len() implies sockets::is_tcp(
            sockets::socket_contents(*set),
            (#[trigger] flows@[k]).handle,
        ) by {
            assert(sockets::is_tcp(done.sockets, done.flows[k].handle));
        }
        assert forall|k: int, j: int| 0 <= k < j < flows@.len() implies (
        #[trigger] flows@[k]).handle != (#[trigger] flows@[j]).handle by {
            assert(done.flows[k].handle != done.flows[j].handle);
        }
        reap_keeps_wf(done);
    }
    reap_closed(set, flows, &mut actions);
    proof {
        assert(tcp_round(
            start,
            stack_of(sockets::socket_contents(*set), listeners@, flows@, actions@, *stats),
            handles@,
            fresh,
        ));
    }
    actions
}

// ---------------------------------------------------------------------------
// Laws
// ---------------------------------------------------------------------------

/// The socket that an action is about.
pub open spec fn socket_of(action: ActionModel) -> SocketHandle {
    match action {
        ActionModel::Connect { handle, .. } => handle,
        ActionModel::Attach { handle } => handle,
        ActionModel::Write { handle, .. } => handle,
        ActionModel::Close { handle } => handle,
    }
}

/// The actions about one socket, in order.
pub open spec fn actions_for(actions: Seq<ActionModel>, h: SocketHandle) -> Seq<ActionModel>
    decreases actions.len(),
{
    if actions.len() == 0 {
        Seq::empty()
    } else if socket_of(actions.last()) == h {
        actions_for(actions.drop_last(), h).push(actions.last())
    } else {
        actions_for(actions.drop_last(), h)
    }
}

proof fn lemma_actions_for(a: Seq<ActionModel>, b: Seq<ActionModel>, h: SocketHandle)
    ensures
        actions_for(a + b, h) == actions_for(a, h) + actions_for(b, h),
    decreases b.len(),
{
    if b.len() == 0 {
        assert(a + b =~= a);
        assert(actions_for(a, h) + actions_for(b, h) =~= actions_for(a, h));
    } else {
        assert((a + b).drop_last() =~= a + b.drop_last());
        assert((a + b).last() == b.last());
        lemma_actions_for(a, b.drop_last(), h);
        assert(actions_for(a + b, h) =~= actions_for(a, h) + actions_for(b, h));
    }
}

proof fn lemma_all_for(b: Seq<ActionModel>, g: SocketHandle, h: SocketHandle)
    requires
        forall|k: int| 0 <= k < b.len() ==> socket_of(#[trigger] b[k]) == g,
    ensures
        actions_for(b, h) == if h == g {
            b
        } else {
            Seq::empty()
        },
    decreases b.len(),
{
    if b.len() > 0 {
        let fewer = b.drop_last();
        assert forall|k: int| 0 <= k < fewer.len() implies socket_of(#[trigger] fewer[k]) == g by {
            assert(fewer[k] == b[k]);
        }
        lemma_all_for(fewer, g, h);
        assert(socket_of(b[b.len() - 1]) == g);
        assert(fewer.push(b.last()) =~= b);
    } else {
        assert(b =~= Seq::<ActionModel>::empty());
    }
}

/// Whether the socket of a handle has accepted a connection.
spec fn has_accepted(all: Map<SocketHandle, SocketModel>, h: SocketHandle) -> bool {
    let socket = sockets::tcp_at(all, h);
    socket.is_active() && socket.local is Some && socket.remote is Some
}

proof fn lemma_listener_waits(
    s: TcpStack,
    handles: Seq<SocketHandle>,
    fresh: Seq<SocketHandle>,
    l: Listener,
)
    requires
        tcp_wf(s.sockets, s.listeners, s.flows),
        fresh.len() == handles.len(),
        tcp_fresh(s, handles, fresh),
        handles.no_duplicates(),
        forall|h: SocketHandle| #[trigger] handles.contains(h) ==> s.sockets.dom().contains(h),
        s.listeners.contains(l),
    ensures
        ({
            let t = tcp_turns(s, handles, fresh);
            !handles.contains(l.handle) || !has_accepted(s.sockets, l.handle)
                ==> t.listeners.contains(l) && t.sockets.dom().contains(l.handle)
                && t.sockets[l.handle] == s.sockets[l.handle]
        }),
    decreases handles.len(),
{
    let i = choose|i: int| 0 <= i < s.listeners.len() && s.listeners[i] == l;
    assert(sockets::is_tcp(s.sockets, s.listeners[i].handle));
    if handles.len() > 0 {
        let fewer = handles.drop_last();
        let g = handles.last();
        lemma_fewer(s, handles);
        lemma_turns(s, fewer, fresh.drop_last());
        lemma_listener_waits(s, fewer, fresh.drop_last(), l);
        let a = tcp_turns(s, fewer, fresh.drop_last());
        let b = tcp_step(a, g, fresh.last());
        if !handles.contains(l.handle) || !has_accepted(s.sockets, l.handle) {
            assert(!handles.contains(l.handle) ==> !fewer.contains(l.handle));
            let k = choose|k: int| 0 <= k < a.listeners.len() && a.listeners[k] == l;
            lemma_listener_bounds(a.listeners, g);
            lemma_flow_bounds(a.flows, g);
            let at = listener_index(a.listeners, g);
            if g == l.handle {
                assert(at == k) by {
                    if at < k {
                        assert(a.listeners[at].handle != a.listeners[k].handle);
                    }
                }
                assert(b == a);
            } else {
                lemma_stays_listed(a, g, fresh.last(), k);
            }
        }
    }
}

proof fn lemma_fewer(s: TcpStack, handles: Seq<SocketHandle>)
    requires
        handles.len() > 0,
        handles.no_duplicates(),
        forall|h: SocketHandle| #[trigger] handles.contains(h) ==> s.sockets.dom().contains(h),
    ensures
        handles.drop_last().no_duplicates(),
        forall|h: SocketHandle| #[trigger]
            handles.drop_last().contains(h) ==> s.sockets.dom().contains(h),
        s.sockets.dom().contains(handles.last()),
        !handles.drop_last().contains(handles.last()),
        forall|h: SocketHandle| #[trigger]
            handles.contains(h) == (handles.drop_last().contains(h) || h == handles.last()),
{
    let fewer = handles.drop_last();
    let g = handles.last();
    assert(handles[handles.len() - 1] == g);
    assert(handles.contains(g));
    assert forall|h: SocketHandle| #[trigger] fewer.contains(h) implies s.sockets.dom().contains(
        h,
    ) by {
        let k = choose|k: int| 0 <= k < fewer.len() && fewer[k] == h;
        assert(handles[k] == h);
        assert(handles.contains(h));
    }
    if fewer.contains(g) {
        let k = choose|k: int| 0 <= k < fewer.len() && fewer[k] == g;
        assert(handles[k] == handles[handles.len() - 1]);
    }
    assert forall|h: SocketHandle| #[trigger] handles.contains(h) == (fewer.contains(h) || h
        == g) by {
        if handles.contains(h) {
            let k = choose|k: int| 0 <= k < handles.len() && handles[k] == h;
            if k < fewer.len() {
                assert(fewer[k] == h);
            }
        }
        if fewer.contains(h) {
            let k = choose|k: int| 0 <= k < fewer.len() && fewer[k] == h;
            assert(handles[k] == h);
        }
    }
}

/// What the turn of a socket asks for.
spec fn asked_for(s: TcpStack, h: SocketHandle) -> Seq<ActionModel> {
    let socket = sockets::tcp_at(s.sockets, h);
    let l = listener_index(s.listeners, h);
    let f = flow_index(s.flows, h);
    if l < s.listeners.len() {
        if has_accepted(s.sockets, h) {
            seq![ActionModel::Connect { handle: h, target: socket.local->0 }]
        } else {
            Seq::empty()
        }
    } else if f < s.flows.len() {
        flow_step(socket, s.flows[f]).actions
    } else {
        Seq::empty()
    }
}

proof fn lemma_step_asks(a: TcpStack, g: SocketHandle, fresh: SocketHandle, h: SocketHandle)
    ensures
        actions_for(tcp_step(a, g, fresh).actions, h) == actions_for(a.actions, h) + if h == g {
            asked_for(a, g)
        } else {
            Seq::empty()
        },
{
    let more = asked_for(a, g);
    lemma_flow_bounds(a.flows, g);
    let b = tcp_step(a, g, fresh);
    assert(b.actions =~= a.actions + more);
    assert forall|k: int| 0 <= k < more.len() implies socket_of(#[trigger] more[k]) == g by {}
    lemma_all_for(more, g, h);
    lemma_actions_for(a.actions, more, h);
}

/// What the turn of a socket hands to it.
spec fn handed_to(s: TcpStack, h: SocketHandle) -> nat {
    let f = flow_index(s.flows, h);
    if listener_index(s.listeners, h) >= s.listeners.len() && f < s.flows.len() {
        flow_step(sockets::tcp_at(s.sockets, h), s.flows[f]).down
    } else {
        0
    }
}

proof fn lemma_unturned(
    s: TcpStack,
    handles: Seq<SocketHandle>,
    fresh: Seq<SocketHandle>,
    h: SocketHandle,
)
    requires
        tcp_wf(s.sockets, s.listeners, s.flows),
        fresh.len() == handles.len(),
        tcp_fresh(s, handles, fresh),
        handles.no_duplicates(),
        forall|g: SocketHandle| #[trigger] handles.contains(g) ==> s.sockets.dom().contains(g),
        s.sockets.dom().contains(h),
        !handles.contains(h),
    ensures
        asked_for(tcp_turns(s, handles, fresh), h) == asked_for(s, h),
        handed_to(tcp_turns(s, handles, fresh), h) == handed_to(s, h),
{
    let a = tcp_turns(s, handles, fresh);
    lemma_turns(s, handles, fresh);
    lemma_listener_bounds(s.listeners, h);
    lemma_flow_bounds(s.flows, h);
    lemma_listener_bounds(a.listeners, h);
    lemma_flow_bounds(a.flows, h);
    let l = listener_index(s.listeners, h);
    let f = flow_index(s.flows, h);
    if l < s.listeners.len() {
        assert(s.listeners.contains(s.listeners[l]));
        lemma_listener_waits(s, handles, fresh, s.listeners[l]);
        let k = choose|k: int| 0 <= k < a.listeners.len() && a.listeners[k]
            == s.listeners[l];
        assert(a.listeners[k].handle == h);
    } else if f < s.flows.len() {
        assert(flow_served(s, a, handles, f));
        assert(a.flows[f].handle == h);
        let k = listener_index(a.listeners, h);
        if k < a.listeners.len() {
            assert(a.listeners[k].handle != a.flows[f].handle);
        }
        let m = flow_index(a.flows, h);
        if m < f {
            assert(a.flows[m].handle != a.flows[f].handle);
        }
        assert(m == f);
    } else {
        assert(!in_use(s, h)) by {
            if exists|i: int|
                0 <= i < s.listeners.len() && (#[trigger] s.listeners[i]).handle == h {
                let i = choose|i: int|
                    0 <= i < s.listeners.len() && (#[trigger] s.listeners[i]).handle == h;
                assert(s.listeners[i].handle != h);
            }
            if exists|i: int| 0 <= i < s.flows.len() && (#[trigger] s.flows[i]).handle
                == h {
                let i = choose|i: int|
                    0 <= i < s.flows.len() && (#[trigger] s.flows[i]).handle == h;
                assert(s.flows[i].handle != h);
            }
        }
        assert(!in_use(a, h));
        let k = listener_index(a.listeners, h);
        if k < a.listeners.len() {
            assert(a.listeners[k].handle == h);
        }
        let m = flow_index(a.flows, h);
        if m < a.flows.len() {
            assert(a.flows[m].handle == h);
        }
    }
    assert(asked_for(a, h) =~= asked_for(s, h));
}

proof fn lemma_turns_ask(
    s: TcpStack,
    handles: Seq<SocketHandle>,
    fresh: Seq<SocketHandle>,
    h: SocketHandle,
)
    requires
        tcp_wf(s.sockets, s.listeners, s.flows),
        fresh.len() == handles.len(),
        tcp_fresh(s, handles, fresh),
        handles.no_duplicates(),
        forall|g: SocketHandle| #[trigger] handles.contains(g) ==> s.sockets.dom().contains(g),
        s.sockets.dom().contains(h),
    ensures
        actions_for(tcp_turns(s, handles, fresh).actions, h) == actions_for(s.actions, h)
            + if handles.contains(h) {
            asked_for(s, h)
        } else {
            Seq::empty()
        },
    decreases handles.len(),
{
    if handles.len() == 0 {
        assert(actions_for(s.actions, h) + Seq::<ActionModel>::empty() =~= actions_for(
            s.actions,
            h,
        ));
    } else {
        let fewer = handles.drop_last();
        let g = handles.last();
        let a = tcp_turns(s, fewer, fresh.drop_last());
        lemma_fewer(s, handles);
        lemma_turns(s, fewer, fresh.drop_last());
        lemma_turns_ask(s, fewer, fresh.drop_last(), h);
        lemma_step_asks(a, g, fresh.last(), h);
        if h == g {
            lemma_unturned(s, fewer, fresh.drop_last(), h);
            assert(actions_for(s.actions, h) + Seq::<ActionModel>::empty() =~= actions_for(
                s.actions,
                h,
            ));
        } else {
            let mine = actions_for(a.actions, h);
            assert(mine + Seq::<ActionModel>::empty() =~= mine);
        }
    }
}

proof fn lemma_closings_for(flows: Seq<FlowModel>, h: SocketHandle)
    requires
        forall|i: int, j: int|
            0 <= i < j < flows.len() ==> (#[trigger] flows[i]).handle != (
            #[trigger] flows[j]).handle,
    ensures
        forall|i: int|
            0 <= i < flows.len() && (#[trigger] flows[i]).handle == h ==> actions_for(
                closings(flows),
                h,
            ) == if flows[i].closed && flows[i].connection == Connection::Connected {
                seq![ActionModel::Close { handle: h }]
            } else {
                Seq::empty()
            },
        (forall|i: int| 0 <= i < flows.len() ==> (#[trigger] flows[i]).handle != h)
            ==> actions_for(closings(flows), h) == Seq::<ActionModel>::empty(),
    decreases flows.len(),
{
    if flows.len() > 0 {
        let fewer = flows.drop_last();
        let last = flows[flows.len() - 1];
        assert(forall|i: int| 0 <= i < fewer.len() ==> #[trigger] fewer[i] == flows[i]);
        assert forall|i: int, j: int| 0 <= i < j < fewer.len() implies (#[trigger] fewer[i]).handle
            != (#[trigger] fewer[j]).handle by {
            assert(flows[i].handle != flows[j].handle);
        }
        lemma_closings_for(fewer, h);
        let close = ActionModel::Close { handle: last.handle };
        let was = closings(fewer);
        assert(was.push(close).drop_last() =~= was);
        assert(was.push(close).last() == close);
        if last.handle == h {
            assert forall|i: int| 0 <= i < fewer.len() implies (#[trigger] fewer[i]).handle != h by {
                assert(flows[i].handle != flows[flows.len() - 1].handle);
            }
            assert(Seq::<ActionModel>::empty().push(close) =~= seq![close]);
            assert forall|i: int| 0 <= i < flows.len() && (#[trigger] flows[i]).handle == h implies i
                == flows.len() - 1 by {
                if i < fewer.len() {
                    assert(fewer[i].handle != h);
                }
            }
        } else {
            assert(actions_for(closings(flows), h) == actions_for(was, h));
            assert forall|i: int| 0 <= i < flows.len() && (#[trigger] flows[i]).handle == h implies
                actions_for(closings(flows), h) == if flows[i].closed && flows[i].connection
                == Connection::Connected {
                seq![ActionModel::Close { handle: h }]
            } else {
                Seq::empty()
            } by {
                assert(i < fewer.len());
                assert(fewer[i].handle == h);
            }
            if forall|i: int| 0 <= i < flows.len() ==> (#[trigger] flows[i]).handle != h {
                assert forall|i: int| 0 <= i < fewer.len() implies (#[trigger] fewer[i]).handle
                    != h by {
                    assert(flows[i].handle != h);
                }
            }
        }
    }
}

proof fn lemma_round_asks(
    before: TcpStack,
    after: TcpStack,
    handles: Seq<SocketHandle>,
    fresh: Seq<SocketHandle>,
    h: SocketHandle,
)
    requires
        tcp_wf(before.sockets, before.listeners, before.flows),
        tcp_round(before, after, handles, fresh),
        before.actions.len() == 0,
        before.sockets.dom().contains(h),
    ensures
        ({
            let t = tcp_turns(before, handles, fresh);
            &&& turns_hold(before, t, handles)
            &&& handles.contains(h)
            &&& actions_for(after.actions, h) == asked_for(before, h) + actions_for(
                closings(t.flows),
                h,
            )
        }),
{
    let t = tcp_turns(before, handles, fresh);
    lemma_turns(before, handles, fresh);
    lemma_turns_ask(before, handles, fresh, h);
    lemma_actions_for(t.actions, closings(t.flows), h);
    assert(handles.contains(h));
    assert(actions_for(before.actions, h) + asked_for(before, h) =~= asked_for(before, h));
}

/// The octets that a round takes from a socket for the tunnel: all that it may
/// take, but no more than 64 KiB.
pub open spec fn octets_up(socket: TcpModel) -> nat {
    if !socket.may_recv() {
        0
    } else if socket.received.len() <= 65536 {
        socket.received.len()
    } else {
        65536
    }
}

/// The octets that a round hands to a socket: all that are waiting, but no more
/// than it has room for.
pub open spec fn octets_down(socket: TcpModel, waiting: nat) -> nat {
    if !socket.may_send() || socket.queued.len() > socket.capacity {
        0
    } else if waiting <= socket.capacity - socket.queued.len() {
        waiting
    } else {
        (socket.capacity - socket.queued.len()) as nat
    }
}

/// A round of a flow whose tunnel is open, or has just been opened. What the
/// connection sent, up to 64 KiB, is written to the tunnel and leaves the
/// socket; what the tunnel delivered goes to the socket as far as there is
/// room, and the rest waits. A tunnel that has just been opened is attached
/// first. Once neither half of the socket is open, the tunnel is closed and
/// the flow and its socket are gone. Nothing else is asked for.
pub proof fn an_open_flow_moves_octets(
    before: TcpStack,
    after: TcpStack,
    handles: Seq<SocketHandle>,
    fresh: Seq<SocketHandle>,
    i: int,
)
    requires
        tcp_wf(before.sockets, before.listeners, before.flows),
        tcp_round(before, after, handles, fresh),
        before.actions.len() == 0,
        0 <= i < before.flows.len(),
        before.flows[i].connection == Connection::Connected || (before.flows[i].connection
            == Connection::Connecting && before.flows[i].outcome == Some(
            ConnectOutcome::Connected,
        )),
    ensures
        ({
            let f = before.flows[i];
            let h = f.handle;
            let socket = sockets::tcp_at(before.sockets, h);
            let n = octets_up(socket) as int;
            let all = joined(f.incoming);
            let m = octets_down(socket, all.len()) as int;
            let left = TcpModel { received: socket.received.skip(n), ..socket };
            let done = f.closed || (!left.may_recv() && !left.may_send());
            let now = sockets::tcp_at(after.sockets, h);
            &&& done ==> !after.sockets.dom().contains(h) && forall|k: int|
                0 <= k < after.flows.len() ==> (#[trigger] after.flows[k]).handle != h
            &&& !done ==> {
                &&& sockets::is_tcp(after.sockets, h)
                &&& now.received == socket.received.skip(n)
                &&& now.queued == socket.queued + all.take(m)
                &&& now.phase == socket.phase && now.listen == socket.listen && now.local
                    == socket.local && now.remote == socket.remote && now.capacity
                    == socket.capacity
            }
            &&& !done ==> exists|k: int|
                #![trigger after.flows[k]]
                0 <= k < after.flows.len() && after.flows[k].handle == h
                    && after.flows[k].connection == Connection::Connected
                    && !after.flows[k].closed && joined(after.flows[k].incoming) == all.skip(m)
            &&& actions_for(after.actions, h) == if f.connection == Connection::Connecting {
                seq![ActionModel::Attach { handle: h }]
            } else {
                Seq::empty()
            } + if n > 0 {
                seq![ActionModel::Write { handle: h, data: socket.received.take(n) }]
            } else {
                Seq::empty()
            } + if done {
                seq![ActionModel::Close { handle: h }]
            } else {
                Seq::empty()
            }
        }),
{
    let f = before.flows[i];
    let h = f.handle;
    let socket = sockets::tcp_at(before.sockets, h);
    let n = octets_up(socket) as int;
    let all = joined(f.incoming);
    let m = octets_down(socket, all.len()) as int;
    let left = TcpModel { received: socket.received.skip(n), ..socket };
    let done = f.closed || (!left.may_recv() && !left.may_send());
    let t = tcp_turns(before, handles, fresh);
    assert(sockets::is_tcp(before.sockets, before.flows[i].handle));
    lemma_round_asks(before, after, handles, fresh, h);
    every_flow_has_its_round(before, after, handles, fresh, i);
    assert(flow_served(before, t, handles, i));
    let step = flow_step(socket, f);
    let first = connect_step(socket, f);
    let data = taken(socket);
    assert(data.len() == n);
    assert(first.socket == socket);
    assert(data =~= socket.received.take(n));
    delivery_loses_nothing(left, f.incoming);
    assert(takes(left, all.len()) == m);
    assert(step.flow.closed == done);
    lemma_listener_bounds(before.listeners, h);
    lemma_flow_bounds(before.flows, h);
    lemma_own_index(before, i);
    lemma_closings_for(t.flows, h);
    assert(t.flows[i].handle == h);
    let attach = if f.connection == Connection::Connecting {
        seq![ActionModel::Attach { handle: h }]
    } else {
        Seq::<ActionModel>::empty()
    };
    let write = if n > 0 {
        seq![ActionModel::Write { handle: h, data: socket.received.take(n) }]
    } else {
        Seq::<ActionModel>::empty()
    };
    assert(step.actions =~= attach + write);
    if !done {
        let k = choose|k: int| 0 <= k < after.flows.len() && after.flows[k] == step.flow;
        assert(after.flows[k].handle == h);
    }
}

proof fn lemma_own_index(s: TcpStack, i: int)
    requires
        tcp_wf(s.sockets, s.listeners, s.flows),
        0 <= i < s.flows.len(),
    ensures
        listener_index(s.listeners, s.flows[i].handle) >= s.listeners.len(),
        flow_index(s.flows, s.flows[i].handle) == i,
{
    let h = s.flows[i].handle;
    lemma_listener_bounds(s.listeners, h);
    lemma_flow_bounds(s.flows, h);
    let l = listener_index(s.listeners, h);
    if l < s.listeners.len() {
        assert(s.listeners[l].handle != s.flows[i].handle);
    }
    let f = flow_index(s.flows, h);
    if f < i {
        assert(s.flows[f].handle != s.flows[i].handle);
    }
}

/// A round of a flow whose tunnel is not open. While nothing is known yet of
/// the tunnel, or it could not be opened, flow and socket stay as they are. A
/// refusal closes the socket, so the connection is reset; a tunnel that was
/// lost leaves it alone; either way the flow is out of reach from then on and
/// what was delivered stays. Nothing is asked for.
pub proof fn a_flow_without_a_tunnel_moves_nothing(
    before: TcpStack,
    after: TcpStack,
    handles: Seq<SocketHandle>,
    fresh: Seq<SocketHandle>,
    i: int,
)
    requires
        tcp_wf(before.sockets, before.listeners, before.flows),
        tcp_round(before, after, handles, fresh),
        before.actions.len() == 0,
        0 <= i < before.flows.len(),
        !before.flows[i].closed,
        before.flows[i].connection != Connection::Connected,
        before.flows[i].connection == Connection::Connecting ==> before.flows[i].outcome != Some(
            ConnectOutcome::Connected,
        ),
    ensures
        ({
            let f = before.flows[i];
            let h = f.handle;
            let socket = sockets::tcp_at(before.sockets, h);
            let now = sockets::tcp_at(after.sockets, h);
            let known = f.connection == Connection::Connecting && f.outcome is Some;
            &&& sockets::is_tcp(after.sockets, h)
            &&& actions_for(after.actions, h) == Seq::<ActionModel>::empty()
            &&& !known ==> after.flows.contains(f) && after.sockets[h] == before.sockets[h]
            &&& known ==> exists|k: int|
                #![trigger after.flows[k]]
                0 <= k < after.flows.len() && after.flows[k].handle == h
                    && after.flows[k].connection == Connection::Unreachable
                    && after.flows[k].outcome is None && after.flows[k].incoming == f.incoming
            &&& known && f.outcome == Some(ConnectOutcome::Lost) ==> after.sockets[h]
                == before.sockets[h]
            &&& known && f.outcome == Some(ConnectOutcome::Refused) ==> {
                &&& now.phase == TcpPhase::Closed
                &&& now.received == socket.received && now.queued == socket.queued
                &&& now.local == socket.local && now.remote == socket.remote
            }
        }),
{
    let f = before.flows[i];
    let h = f.handle;
    let socket = sockets::tcp_at(before.sockets, h);
    let t = tcp_turns(before, handles, fresh);
    assert(sockets::is_tcp(before.sockets, before.flows[i].handle));
    lemma_round_asks(before, after, handles, fresh, h);
    every_flow_has_its_round(before, after, handles, fresh, i);
    assert(flow_served(before, t, handles, i));
    let step = flow_step(socket, f);
    lemma_own_index(before, i);
    lemma_closings_for(t.flows, h);
    assert(t.flows[i].handle == h);
    assert(asked_for(before, h) + Seq::<ActionModel>::empty() =~= asked_for(before, h));
    let k = choose|k: int| 0 <= k < after.flows.len() && after.flows[k] == step.flow;
    assert(after.flows[k].handle == h);
}

/// A connection that a listener accepted asks for a tunnel to the target, and
/// for nothing else, and waits for it as a flow of its own with nothing
/// delivered yet. The target listens again, on a socket that the set did not
/// use, with empty buffers of 256 KiB.
pub proof fn an_accepted_connection_asks_for_its_tunnel(
    before: TcpStack,
    after: TcpStack,
    handles: Seq<SocketHandle>,
    fresh: Seq<SocketHandle>,
    l: Listener,
)
    requires
        tcp_wf(before.sockets, before.listeners, before.flows),
        tcp_round(before, after, handles, fresh),
        before.actions.len() == 0,
        before.listeners.contains(l),
        sockets::tcp_at(before.sockets, l.handle).is_active(),
        sockets::tcp_at(before.sockets, l.handle).local == Some(l.target),
        sockets::tcp_at(before.sockets, l.handle).remote is Some,
    ensures
        actions_for(after.actions, l.handle) == seq![
            ActionModel::Connect { handle: l.handle, target: l.target },
        ],
        exists|k: int|
            #![trigger after.flows[k]]
            0 <= k < after.flows.len() && after.flows[k].handle == l.handle
                && after.flows[k].connection == Connection::Connecting
                && after.flows[k].outcome is None && after.flows[k].incoming.len() == 0
                && !after.flows[k].closed,
        exists|k: int|
            #![trigger after.listeners[k]]
            0 <= k < after.listeners.len() && after.listeners[k].target == l.target
                && !before.sockets.dom().contains(after.listeners[k].handle) && ({
                let socket = sockets::tcp_at(after.sockets, after.listeners[k].handle);
                &&& sockets::is_tcp(after.sockets, after.listeners[k].handle)
                &&& socket.phase == TcpPhase::Listen
                &&& socket.listen == Some(l.target)
                &&& socket.local is None && socket.remote is None
                &&& socket.received.len() == 0 && socket.queued.len() == 0
                &&& socket.capacity == 262144
            }),
{
    let h = l.handle;
    let i = choose|i: int| 0 <= i < before.listeners.len() && before.listeners[i] == l;
    assert(sockets::is_tcp(before.sockets, before.listeners[i].handle));
    an_accepted_connection_becomes_a_flow(before, after, handles, fresh, l);
    lemma_round_asks(before, after, handles, fresh, h);
    let t = tcp_turns(before, handles, fresh);
    lemma_accepted(before, handles, fresh, l);
    let j = choose|j: int| 0 <= j < t.flows.len() && t.flows[j] == new_flow(h);
    assert(t.flows[j].handle == h);
    lemma_closings_for(t.flows, h);
    lemma_listener_bounds(before.listeners, h);
    let at = listener_index(before.listeners, h);
    assert(at < before.listeners.len());
    assert(asked_for(before, h) + Seq::<ActionModel>::empty() =~= asked_for(before, h));
    let k = choose|k: int| 0 <= k < after.flows.len() && after.flows[k] == new_flow(h);
    assert(after.flows[k].handle == h);
    let q = choose|q: int|
        #![trigger after.listeners[q]]
        0 <= q < after.listeners.len() && after.listeners[q].target == l.target
            && after.listeners[q].handle != l.handle && !before.sockets.dom().contains(
            after.listeners[q].handle,
        ) && after.sockets.dom().contains(after.listeners[q].handle)
            && after.sockets[after.listeners[q].handle] == SocketModel::Tcp(listening(l.target));
    assert(after.listeners[q].target == l.target);
}

/// A listener whose socket has accepted nothing yet stays as it is, and asks
/// for nothing.
pub proof fn a_listener_waits_for_its_connection(
    before: TcpStack,
    after: TcpStack,
    handles: Seq<SocketHandle>,
    fresh: Seq<SocketHandle>,
    l: Listener,
)
    requires
        tcp_wf(before.sockets, before.listeners, before.flows),
        tcp_round(before, after, handles, fresh),
        before.actions.len() == 0,
        before.listeners.contains(l),
        !sockets::tcp_at(before.sockets, l.handle).is_active() || sockets::tcp_at(
            before.sockets,
            l.handle,
        ).local is None || sockets::tcp_at(before.sockets, l.handle).remote is None,
    ensures
        after.listeners.contains(l),
        after.sockets.dom().contains(l.handle),
        after.sockets[l.handle] == before.sockets[l.handle],
        actions_for(after.actions, l.handle) == Seq::<ActionModel>::empty(),
{
    let h = l.handle;
    let i = choose|i: int| 0 <= i < before.listeners.len() && before.listeners[i] == l;
    assert(sockets::is_tcp(before.sockets, before.listeners[i].handle));
    lemma_round_asks(before, after, handles, fresh, h);
    lemma_listener_waits(before, handles, fresh, l);
    let t = tcp_turns(before, handles, fresh);
    let k = choose|k: int| 0 <= k < t.listeners.len() && t.listeners[k] == l;
    assert forall|j: int| 0 <= j < t.flows.len() implies (#[trigger] t.flows[j]).handle != h by {
        assert(t.listeners[k].handle != t.flows[j].handle);
    }
    lemma_closings_for(t.flows, h);
    lemma_without_closed(t.sockets, t.flows, h);
    lemma_listener_bounds(before.listeners, h);
    assert(asked_for(before, h) + Seq::<ActionModel>::empty() =~= asked_for(before, h));
}

/// Nothing is asked for a socket that is neither that of a listener nor that
/// of a flow.
pub proof fn nothing_is_asked_for_other_sockets(
    before: TcpStack,
    after: TcpStack,
    handles: Seq<SocketHandle>,
    fresh: Seq<SocketHandle>,
    h: SocketHandle,
)
    requires
        tcp_wf(before.sockets, before.listeners, before.flows),
        tcp_round(before, after, handles, fresh),
        before.actions.len() == 0,
        before.sockets.dom().contains(h),
        !in_use(before, h),
    ensures
        actions_for(after.actions, h) == Seq::<ActionModel>::empty(),
{
    lemma_round_asks(before, after, handles, fresh, h);
    let t = tcp_turns(before, handles, fresh);
    assert(!in_use(t, h));
    assert forall|j: int| 0 <= j < t.flows.len() implies (#[trigger] t.flows[j]).handle != h by {}
    lemma_closings_for(t.flows, h);
    lemma_listener_bounds(before.listeners, h);
    lemma_flow_bounds(before.flows, h);
    let l = listener_index(before.listeners, h);
    if l < before.listeners.len() {
        assert(before.listeners[l].handle == h);
    }
    let f = flow_index(before.flows, h);
    if f < before.flows.len() {
        assert(before.flows[f].handle == h);
    }
    assert(asked_for(before, h) + Seq::<ActionModel>::empty() =~= asked_for(before, h));
}

/// The octets that a round hands to a socket: those that its flow has waiting,
/// as far as there is room, where the tunnel of the flow is open.
pub open spec fn delivered_to(s: TcpStack, h: SocketHandle) -> nat {
    if exists|i: int| 0 <= i < s.flows.len() && (#[trigger] s.flows[i]).handle == h {
        let f = s.flows[choose|i: int|
            0 <= i < s.flows.len() && (#[trigger] s.flows[i]).handle == h];
        if f.connection == Connection::Connected || (f.connection == Connection::Connecting
            && f.outcome == Some(ConnectOutcome::Connected)) {
            octets_down(sockets::tcp_at(s.sockets, h), joined(f.incoming).len())
        } else {
            0
        }
    } else {
        0
    }
}

/// The octets that a round hands to some sockets.
pub open spec fn delivered_in_all(s: TcpStack, handles: Seq<SocketHandle>) -> nat
    decreases handles.len(),
{
    if handles.len() == 0 {
        0
    } else {
        delivered_in_all(s, handles.drop_last()) + delivered_to(s, handles.last())
    }
}

proof fn lemma_handed(s: TcpStack, h: SocketHandle)
    requires
        tcp_wf(s.sockets, s.listeners, s.flows),
    ensures
        handed_to(s, h) == delivered_to(s, h),
{
    lemma_flow_bounds(s.flows, h);
    let f = flow_index(s.flows, h);
    if exists|i: int| 0 <= i < s.flows.len() && (#[trigger] s.flows[i]).handle == h {
        let i = choose|i: int| 0 <= i < s.flows.len() && (#[trigger] s.flows[i]).handle == h;
        lemma_own_index(s, i);
        assert(f == i);
        let socket = sockets::tcp_at(s.sockets, h);
        let flow = s.flows[i];
        let data = taken(socket);
        let pulled = TcpModel { received: socket.received.skip(data.len() as int), ..socket };
        delivery_loses_nothing(pulled, flow.incoming);
        assert(takes(pulled, joined(flow.incoming).len()) == octets_down(
            socket,
            joined(flow.incoming).len(),
        ));
    } else if f < s.flows.len() {
        assert(s.flows[f].handle == h);
    }
}

proof fn lemma_turns_count(s: TcpStack, handles: Seq<SocketHandle>, fresh: Seq<SocketHandle>)
    requires
        tcp_wf(s.sockets, s.listeners, s.flows),
        fresh.len() == handles.len(),
        tcp_fresh(s, handles, fresh),
        handles.no_duplicates(),
        forall|g: SocketHandle| #[trigger] handles.contains(g) ==> s.sockets.dom().contains(g),
    ensures
        ({
            let t = tcp_turns(s, handles, fresh);
            &&& t.stats.download_bytes == traffic::counted(
                s.stats.download_bytes,
                delivered_in_all(s, handles),
            )
            &&& t.stats.upload_packets == s.stats.upload_packets
            &&& t.stats.download_packets == s.stats.download_packets
        }),
    decreases handles.len(),
{
    traffic::lemma_counted(s.stats.download_bytes, 0, 0);
    if handles.len() > 0 {
        let fewer = handles.drop_last();
        let g = handles.last();
        lemma_fewer(s, handles);
        lemma_turns_count(s, fewer, fresh.drop_last());
        lemma_unturned(s, fewer, fresh.drop_last(), g);
        lemma_handed(s, g);
        let a = tcp_turns(s, fewer, fresh.drop_last());
        let b = tcp_step(a, g, fresh.last());
        traffic::lemma_counted(
            s.stats.download_bytes,
            delivered_in_all(s, fewer),
            delivered_to(s, g),
        );
        traffic::lemma_counted(a.stats.download_bytes, 0, 0);
        assert(b.stats.download_bytes == traffic::counted(
            a.stats.download_bytes,
            handed_to(a, g),
        ));
    }
}

/// A round counts as downloaded exactly the octets that the sockets took over
/// from open tunnels, and counts no packets.
pub proof fn download_counts_what_the_sockets_took(
    before: TcpStack,
    after: TcpStack,
    handles: Seq<SocketHandle>,
    fresh: Seq<SocketHandle>,
)
    requires
        tcp_wf(before.sockets, before.listeners, before.flows),
        tcp_round(before, after, handles, fresh),
    ensures
        after.stats.download_bytes == traffic::counted(
            before.stats.download_bytes,
            delivered_in_all(before, handles),
        ),
        after.stats.upload_packets == before.stats.upload_packets,
        after.stats.download_packets == before.stats.download_packets,
{
    lemma_turns_count(before, handles, fresh);
}

/// The flow of a socket is found by the handle of the socket, and a handle
/// that no flow has finds none. Among flows with different sockets every one
/// is found.
pub proof fn a_flow_is_found_by_its_socket(flows: Seq<FlowModel>, handle: SocketHandle, i: int)
    requires
        forall|a: int, b: int|
            0 <= a < b < flows.len() ==> (#[trigger] flows[a]).handle != (
            #[trigger] flows[b]).handle,
    ensures
        0 <= i < flows.len() ==> flow_index(flows, flows[i].handle) == i,
        (forall|k: int| 0 <= k < flows.len() ==> (#[trigger] flows[k]).handle != handle)
            <==> flow_index(flows, handle) >= flows.len(),
{
    if 0 <= i < flows.len() {
        lemma_flow_index(flows, flows[i].handle, i);
    }
    lemma_flow_bounds(flows, handle);
}

/// A flow that was closed before its tunnel was open is gone after a round,
/// with its socket, and asks for nothing: there is no tunnel to close.
pub proof fn a_closed_flow_without_a_tunnel_is_gone(
    before: TcpStack,
    after: TcpStack,
    handles: Seq<SocketHandle>,
    fresh: Seq<SocketHandle>,
    i: int,
)
    requires
        tcp_wf(before.sockets, before.listeners, before.flows),
        tcp_round(before, after, handles, fresh),
        before.actions.len() == 0,
        0 <= i < before.flows.len(),
        before.flows[i].closed,
        before.flows[i].connection != Connection::Connected,
        before.flows[i].connection == Connection::Connecting ==> before.flows[i].outcome != Some(
            ConnectOutcome::Connected,
        ),
    ensures
        !after.sockets.dom().contains(before.flows[i].handle),
        forall|k: int|
            0 <= k < after.flows.len() ==> (#[trigger] after.flows[k]).handle
                != before.flows[i].handle,
        actions_for(after.actions, before.flows[i].handle).len() == 0,
{
    let f = before.flows[i];
    let h = f.handle;
    let t = tcp_turns(before, handles, fresh);
    assert(sockets::is_tcp(before.sockets, before.flows[i].handle));
    lemma_round_asks(before, after, handles, fresh, h);
    every_flow_has_its_round(before, after, handles, fresh, i);
    assert(flow_served(before, t, handles, i));
    lemma_own_index(before, i);
    lemma_closings_for(t.flows, h);
    assert(t.flows[i].handle == h);
}

} // verus!
