//! The virtual networks: which container sits in which network, which address it has
//! there, and which host ports are forwarded to it.
//!
//! The manager is plain owned state. It never opens a socket itself: the host binds the
//! socket that a forward asks for and hands over what came of it. `L` is the host's type
//! of a listening socket; a forward that keeps one holds it until the forward is released.
//!
//! The forwards are kept in a hash map by their host ports, so a host port is forwarded
//! at most once. The contracts speak of them twice: of their plain values, in the view,
//! and of the forwards themselves with their sockets, in `spec_forwards`.

use std::collections::HashMap;
use vstd::arithmetic::div_mod::lemma_fundamental_div_mod_converse;
use vstd::prelude::*;
use vstd::std_specs::hash::spec_hash_map_iter;
use vstd::std_specs::iter::IteratorSpec;
use vstd::string::*;
use crate::address::Ipv4Address;
use crate::container::{clone_ports, port_views, Container, PortMapping, PortMappingView};
use crate::error::Error;
use crate::text::{
    first_index_of, lemma_first_index_of, lemma_first_index_of_is, lowercased, position_in, str_eq,
    to_lowercase, views,
};

verus! {

/// The name of the network that every manager starts with.
pub const BRIDGE: &'static str = "bridge";

/// The subnet of the bridge network.
pub const BRIDGE_SUBNET: &'static str = "172.17.0.0/16";

/// A transport protocol that a port can be forwarded for.
#[derive(Debug, Clone, Copy, PartialEq, Eq, Structural)]
pub enum Protocol {
    Tcp,
    Udp,
}

/// What the host reports of the socket that a forward asked for.
#[derive(Debug)]
pub enum Bound<L> {
    /// The socket was bound and listens; the forward may keep it.
    Listening(L),
    /// The port was free: a socket was bound on it and closed again.
    Released,
    /// The port could not be bound.
    Failed,
}

/// What the host reports of a socket, without the socket.
pub enum BoundKind {
    Listening,
    Released,
    Failed,
}

impl<L> View for Bound<L> {
    type V = BoundKind;

    open spec fn view(&self) -> BoundKind {
        match self {
            Bound::Listening(_) => BoundKind::Listening,
            Bound::Released => BoundKind::Released,
            Bound::Failed => BoundKind::Failed,
        }
    }
}

/// A virtual network and the containers in it, in the order in which they joined.
#[derive(Debug)]
pub struct Network {
    pub name: String,
    pub subnet: String,
    pub gateway: Ipv4Address,
    pub containers: Vec<String>,
}

/// A host port that is forwarded to a container.
#[derive(Debug)]
pub struct PortForward<L> {
    pub host_port: u16,
    pub container_id: String,
    pub container_port: u16,
    pub protocol: String,
    pub listener: Option<L>,
}

/// What a container holds of the network while it runs.
#[derive(Debug)]
pub struct ContainerNetwork {
    pub container_id: String,
    pub ip_address: Ipv4Address,
    pub hostname: String,
    pub port_mappings: Vec<PortMapping>,
}

/// A network as plain values.
pub struct NetworkView {
    pub name: Seq<char>,
    pub subnet: Seq<char>,
    pub gateway: Ipv4Address,
    pub containers: Seq<Seq<char>>,
}

/// A forward as plain values. `retained` says whether it keeps a listening socket.
pub struct PortForwardView {
    pub host_port: u16,
    pub container_id: Seq<char>,
    pub container_port: u16,
    pub protocol: Seq<char>,
    pub retained: bool,
}

/// The networks in the order of their creation, and the forwards by their host ports.
pub struct NetworkState {
    pub networks: Seq<NetworkView>,
    pub forwards: Map<u16, PortForwardView>,
}

impl View for Network {
    type V = NetworkView;

    open spec fn view(&self) -> NetworkView {
        NetworkView {
            name: self.name@,
            subnet: self.subnet@,
            gateway: self.gateway,
            containers: views(self.containers@),
        }
    }
}

impl<L> View for PortForward<L> {
    type V = PortForwardView;

    open spec fn view(&self) -> PortForwardView {
        PortForwardView {
            host_port: self.host_port,
            container_id: self.container_id@,
            container_port: self.container_port,
            protocol: self.protocol@,
            retained: self.listener is Some,
        }
    }
}

/// What a container holds of the network, as plain values.
pub struct ContainerNetworkView {
    pub container_id: Seq<char>,
    pub ip_address: Ipv4Address,
    pub hostname: Seq<char>,
    pub port_mappings: Seq<PortMappingView>,
}

impl View for ContainerNetwork {
    type V = ContainerNetworkView;

    open spec fn view(&self) -> ContainerNetworkView {
        ContainerNetworkView {
            container_id: self.container_id@,
            ip_address: self.ip_address,
            hostname: self.hostname@,
            port_mappings: port_views(self.port_mappings@),
        }
    }
}

/// What the host reported of a sequence of sockets.
pub open spec fn bound_views<L>(v: Seq<Bound<L>>) -> Seq<BoundKind> {
    v.map_values(|b: Bound<L>| b@)
}

/// The views of a sequence of networks.
pub open spec fn network_views(v: Seq<Network>) -> Seq<NetworkView> {
    v.map_values(|n: Network| n@)
}

/// The views of a table of forwards.
pub open spec fn forward_views<L>(table: Map<u16, PortForward<L>>) -> Map<u16, PortForwardView> {
    table.map_values(|f: PortForward<L>| f@)
}

/// The socket that a forward keeps of what the host handed over: the listening socket
/// of a TCP forward, and nothing else.
pub open spec fn kept_socket<L>(kind: Option<Protocol>, bound: Bound<L>) -> Option<L> {
    match bound {
        Bound::Listening(socket) => if kind == Some(Protocol::Tcp) {
            Some(socket)
        } else {
            None
        },
        _ => None,
    }
}

/// The forwards of a table that belong to containers other than `id`, each as it was.
pub open spec fn without_owner<L>(table: Map<u16, PortForward<L>>, id: Seq<char>) -> Map<
    u16,
    PortForward<L>,
> {
    Map::new(
        |p: u16| table.contains_key(p) && table[p].container_id@ != id,
        |p: u16| table[p],
    )
}

/// Every forward of `before` is in `after`, under its host port and as it was.
pub open spec fn forwards_kept<F>(before: Map<u16, F>, after: Map<u16, F>) -> bool {
    forall|p: u16| #[trigger] before.contains_key(p) ==> after.contains_key(p) && after[p] == before[p]
}

/// The protocol that a tag in lowercase names: `tcp` or `udp`, and nothing else.
pub open spec fn protocol_named(lowered: Seq<char>) -> Option<Protocol> {
    if lowered == "tcp"@ {
        Some(Protocol::Tcp)
    } else if lowered == "udp"@ {
        Some(Protocol::Udp)
    } else {
        None
    }
}

/// The gateway of the bridge network.
pub open spec fn bridge_gateway() -> Ipv4Address {
    Ipv4Address { a: 172, b: 17, c: 0, d: 1 }
}

/// Whether a forward keeps a listening socket exactly where its tag names TCP.
pub open spec fn socket_follows_protocol(forward: PortForwardView) -> bool {
    forward.retained <==> protocol_named(lowercased(forward.protocol)) == Some(Protocol::Tcp)
}

/// Every forward stands under its own host port and keeps a listening socket exactly
/// where its tag names TCP.
pub open spec fn forwards_consistent(forwards: Map<u16, PortForwardView>) -> bool {
    forall|p: u16|
        forwards.contains_key(p) ==> {
            &&& (#[trigger] forwards[p]).host_port == p
            &&& socket_follows_protocol(forwards[p])
        }
}

/// The gateway of every network but the bridge.
pub open spec fn default_gateway() -> Ipv4Address {
    Ipv4Address { a: 172, b: 18, c: 0, d: 1 }
}

/// The bridge network with nobody in it.
pub open spec fn empty_bridge() -> NetworkView {
    NetworkView {
        name: BRIDGE@,
        subnet: BRIDGE_SUBNET@,
        gateway: bridge_gateway(),
        containers: Seq::empty(),
    }
}

/// The address of the member at `index` of a network. The gateway holds the first
/// address of the subnet, one above its base; the members follow the gateway in the
/// order in which they joined. So the first member has the base plus two.
pub open spec fn member_address(gateway: Ipv4Address, index: int) -> Ipv4Address {
    gateway.spec_offset(index + 1)
}

/// Holds of a member other than `id`.
pub open spec fn other_than(id: Seq<char>) -> spec_fn(Seq<char>) -> bool {
    |member: Seq<char>| member != id
}

/// The names of the networks, in order.
pub open spec fn network_names(networks: Seq<NetworkView>) -> Seq<Seq<char>> {
    networks.map_values(|n: NetworkView| n.name)
}

impl NetworkView {
    /// The network without `id` among its members.
    pub open spec fn without(self, id: Seq<char>) -> NetworkView {
        NetworkView { containers: self.containers.filter(other_than(id)), ..self }
    }
}

impl NetworkState {
    /// The state of a new manager: the bridge network, empty, and no forwards.
    pub open spec fn initial() -> NetworkState {
        NetworkState { networks: seq![empty_bridge()], forwards: Map::empty() }
    }

    /// What every manager's state keeps: the first network is the bridge, behind the
    /// bridge's gateway; no two networks share a name; every forward stands under its
    /// own host port, so that a host port is forwarded at most once; and a forward keeps
    /// a listening socket exactly where its protocol is TCP.
    pub open spec fn well_formed(self) -> bool {
        &&& self.networks.len() > 0
        &&& self.networks[0].name == BRIDGE@
        &&& self.networks[0].gateway == bridge_gateway()
        &&& network_names(self.networks).no_duplicates()
        &&& forwards_consistent(self.forwards)
    }

    /// The state after `id` has asked for an address, and the address it got: the next
    /// one of the bridge network, which `id` joins.
    pub open spec fn allocate(self, id: Seq<char>) -> (NetworkState, Ipv4Address) {
        (self.join(0, id), self.next_address(0))
    }

    /// Whether `host_port` is forwarded.
    pub open spec fn has_forward(self, host_port: u16) -> bool {
        self.forwards.contains_key(host_port)
    }

    /// Whether a network is called `name`.
    pub open spec fn has_network(self, name: Seq<char>) -> bool {
        network_names(self.networks).contains(name)
    }

    /// The address that the next container to join network `i` gets.
    pub open spec fn next_address(self, i: int) -> Ipv4Address {
        member_address(self.networks[i].gateway, self.networks[i].containers.len() as int)
    }

    /// The state after `id` has joined network `i`.
    pub open spec fn join(self, i: int, id: Seq<char>) -> NetworkState {
        NetworkState {
            networks: self.networks.update(
                i,
                NetworkView { containers: self.networks[i].containers.push(id), ..self.networks[i] },
            ),
            ..self
        }
    }

    /// The state with one more forward, under its host port.
    pub open spec fn register(self, forward: PortForwardView) -> NetworkState {
        NetworkState { forwards: self.forwards.insert(forward.host_port, forward), ..self }
    }

    /// The state with one more network, empty, behind the default gateway.
    pub open spec fn create(self, name: Seq<char>, subnet: Seq<char>) -> NetworkState {
        NetworkState {
            networks: self.networks.push(
                NetworkView { name, subnet, gateway: default_gateway(), containers: Seq::empty() },
            ),
            ..self
        }
    }

    /// The state without `id`: it is in no network any more, and its forwards are gone.
    pub open spec fn release(self, id: Seq<char>) -> NetworkState {
        NetworkState {
            networks: self.networks.map_values(|n: NetworkView| n.without(id)),
            forwards: Map::new(
                |p: u16| self.forwards.contains_key(p) && self.forwards[p].container_id != id,
                |p: u16| self.forwards[p],
            ),
        }
    }

    /// The position of the first network that `id` is in, or the number of networks
    /// where it is in none.
    pub open spec fn network_of(self, id: Seq<char>) -> int {
        first_index_of(self.networks.map_values(|n: NetworkView| n.containers.contains(id)), true)
    }

    /// The address of `id`: that of its place in the first network that it is in. The
    /// address is worked out from the place each time, so it changes when a container
    /// that joined earlier leaves.
    pub open spec fn address_of(self, id: Seq<char>) -> Option<Ipv4Address> {
        let n = self.network_of(id);
        if 0 <= n < self.networks.len() {
            Some(
                member_address(
                    self.networks[n].gateway,
                    first_index_of(self.networks[n].containers, id),
                ),
            )
        } else {
            None
        }
    }

    /// The state after one port mapping of `id` has been set up, where `kind` is the
    /// protocol that its tag names, and what the caller is told.
    ///
    /// A tag that names no protocol is passed over: nothing changes and nothing fails.
    /// A failed bind is an error, and so is a TCP mapping for which the host hands over
    /// no listening socket. A host port that is already forwarded is a conflict. None of
    /// these changes anything. Else the forward is registered; a TCP forward keeps the
    /// socket, a UDP forward keeps none.
    pub open spec fn forward_step_of(
        self,
        id: Seq<char>,
        mapping: PortMappingView,
        kind: Option<Protocol>,
        bound: BoundKind,
    ) -> (NetworkState, Result<(), Error>) {
        match kind {
            None => (self, Ok(())),
            Some(protocol) => if bound is Failed || (protocol is Tcp && !(bound is Listening)) {
                (self, Err(Error::BindFailed))
            } else if self.has_forward(mapping.host_port) {
                (self, Err(Error::PortConflict))
            } else {
                (
                    self.register(
                        PortForwardView {
                            host_port: mapping.host_port,
                            container_id: id,
                            container_port: mapping.container_port,
                            protocol: mapping.protocol,
                            retained: protocol is Tcp,
                        },
                    ),
                    Ok(()),
                )
            },
        }
    }

    /// The state after one port mapping of `id` has been set up, and what the caller is
    /// told: `forward_step_of` for the protocol that the mapping's tag names, whatever
    /// its case.
    pub open spec fn forward_step(
        self,
        id: Seq<char>,
        mapping: PortMappingView,
        bound: BoundKind,
    ) -> (NetworkState, Result<(), Error>) {
        self.forward_step_of(id, mapping, protocol_named(lowercased(mapping.protocol)), bound)
    }

    /// The state after the port mappings of `id` have been set up in order, each with
    /// what the host reported of its socket, up to the first that fails. A mapping for
    /// which the host reported nothing counts as one whose bind failed.
    pub open spec fn forward_all(
        self,
        id: Seq<char>,
        mappings: Seq<PortMappingView>,
        bound: Seq<BoundKind>,
    ) -> (NetworkState, Result<(), Error>)
        decreases mappings.len(),
    {
        if mappings.len() == 0 {
            (self, Ok(()))
        } else {
            let first = if bound.len() > 0 {
                bound[0]
            } else {
                BoundKind::Failed
            };
            let (next, outcome) = self.forward_step(id, mappings[0], first);
            if outcome is Err {
                (next, outcome)
            } else {
                next.forward_all(
                    id,
                    mappings.drop_first(),
                    if bound.len() > 0 {
                        bound.drop_first()
                    } else {
                        bound
                    },
                )
            }
        }
    }
}

/// Filtering one element more either keeps it behind the others or passes it over.
pub proof fn lemma_filter_take<A>(s: Seq<A>, keep: spec_fn(A) -> bool, n: int)
    requires
        0 <= n < s.len(),
    ensures
        s.take(n + 1).filter(keep) == if keep(s[n]) {
            s.take(n).filter(keep).push(s[n])
        } else {
            s.take(n).filter(keep)
        },
{
    reveal(Seq::filter);
    assert(s.take(n + 1).drop_last() =~= s.take(n));
}

/// Filtering twice by one rule is filtering once.
pub proof fn lemma_filter_twice<A>(s: Seq<A>, keep: spec_fn(A) -> bool)
    ensures
        s.filter(keep).filter(keep) == s.filter(keep),
    decreases s.len(),
{
    reveal(Seq::filter);
    if s.len() > 0 {
        lemma_filter_twice(s.drop_last(), keep);
        if keep(s.last()) {
            let kept = s.drop_last().filter(keep);
            assert(kept.push(s.last()).drop_last() =~= kept);
        }
    }
}

/// Releasing a container twice leaves what releasing it once leaves.
pub proof fn lemma_release_idempotent(state: NetworkState, id: Seq<char>)
    ensures
        state.release(id).release(id) == state.release(id),
{
    let once = state.release(id);
    let twice = once.release(id);
    assert(twice.forwards =~= once.forwards);
    assert(twice.networks =~= once.networks) by {
        assert forall|i: int| 0 <= i < once.networks.len() implies twice.networks[i]
            == once.networks[i] by {
            lemma_filter_twice(state.networks[i].containers, other_than(id));
        }
    }
}

/// After its release a container is in no network, has no address and owns no forward.
pub proof fn lemma_release_removes(state: NetworkState, id: Seq<char>)
    ensures
        forall|i: int|
            0 <= i < state.release(id).networks.len() ==> !(
            #[trigger] state.release(id).networks[i]).containers.contains(id),
        forall|p: u16|
            state.release(id).forwards.contains_key(p) ==> (
            #[trigger] state.release(id).forwards[p]).container_id != id,
        state.release(id).address_of(id) is None,
{
    broadcast use vstd::seq_lib::group_filter_ensures;

    let after = state.release(id);
    assert forall|i: int| 0 <= i < after.networks.len() implies !(
    #[trigger] after.networks[i]).containers.contains(id) by {
        let members = state.networks[i].containers.filter(other_than(id));
        if members.contains(id) {
            let j = choose|j: int| 0 <= j < members.len() && members[j] == id;
            assert(other_than(id)(members[j]));
        }
    }
    let flags = after.networks.map_values(|n: NetworkView| n.containers.contains(id));
    lemma_first_index_of(flags, true);
    if after.network_of(id) < after.networks.len() {
        assert(flags[after.network_of(id)]);
    }
}

/// A release keeps the state well formed. It adds no forward and changes none: the
/// forwards of the other containers are all still there, each as it was.
pub proof fn lemma_release_well_formed(state: NetworkState, id: Seq<char>)
    requires
        state.well_formed(),
    ensures
        state.release(id).well_formed(),
        forwards_kept(state.release(id).forwards, state.forwards),
        forall|p: u16| #[trigger]
            state.forwards.contains_key(p) && state.forwards[p].container_id != id
                ==> state.release(id).forwards.contains_key(p),
{
    let after = state.release(id);
    assert(network_names(after.networks) =~= network_names(state.networks));
}

/// An allocation keeps the state well formed, and so does any container's joining any
/// network.
pub proof fn lemma_join_well_formed(state: NetworkState, i: int, id: Seq<char>)
    requires
        state.well_formed(),
        0 <= i < state.networks.len(),
    ensures
        state.join(i, id).well_formed(),
        state.allocate(id).0.well_formed(),
{
    assert(network_names(state.join(i, id).networks) =~= network_names(state.networks));
    assert(network_names(state.join(0, id).networks) =~= network_names(state.networks));
}

/// Creating a network under a name that no network has keeps the state well formed.
pub proof fn lemma_create_well_formed(state: NetworkState, name: Seq<char>, subnet: Seq<char>)
    requires
        state.well_formed(),
        !state.has_network(name),
    ensures
        state.create(name, subnet).well_formed(),
{
    let names = network_names(state.networks);
    let created = network_names(state.create(name, subnet).networks);
    assert(created =~= names.push(name));
    assert forall|x: int, y: int| 0 <= x < created.len() && 0 <= y < created.len() && x
        != y implies created[x] != created[y] by {
        if x == names.len() {
            assert(names[y] == created[y]);
        } else if y == names.len() {
            assert(names[x] == created[x]);
        }
    }
}

/// One step of setting up port mappings keeps the state well formed, whatever the tag,
/// whatever the host reports and however the step ends: every forward still stands
/// under its own host port, and keeps a listening socket exactly where its protocol is
/// TCP. The networks are not touched, and a forward that was registered stays as it
/// was, so its owner never changes.
pub proof fn lemma_step_well_formed(
    state: NetworkState,
    id: Seq<char>,
    mapping: PortMappingView,
    bound: BoundKind,
)
    requires
        state.well_formed(),
    ensures
        state.forward_step(id, mapping, bound).0.well_formed(),
        state.forward_step(id, mapping, bound).0.networks == state.networks,
        forwards_kept(state.forwards, state.forward_step(id, mapping, bound).0.forwards),
{
}

/// Setting up the port mappings of a container keeps the state well formed, whatever
/// the tags, whatever the host reports and however the setup ends: every host port is
/// still forwarded at most once, and a forward keeps a listening socket exactly where
/// its protocol is TCP. The forwards that were registered stay as they were.
pub proof fn lemma_forward_well_formed(
    state: NetworkState,
    id: Seq<char>,
    mappings: Seq<PortMappingView>,
    bound: Seq<BoundKind>,
)
    requires
        state.well_formed(),
    ensures
        state.forward_all(id, mappings, bound).0.well_formed(),
        state.forward_all(id, mappings, bound).0.networks == state.networks,
        forwards_kept(state.forwards, state.forward_all(id, mappings, bound).0.forwards),
    decreases mappings.len(),
{
    if mappings.len() > 0 {
        let first = if bound.len() > 0 {
            bound[0]
        } else {
            BoundKind::Failed
        };
        let step = state.forward_step(id, mappings[0], first);
        lemma_step_well_formed(state, id, mappings[0], first);
        if step.1 is Ok {
            let rest = if bound.len() > 0 {
                bound.drop_first()
            } else {
                bound
            };
            lemma_forward_well_formed(step.0, id, mappings.drop_first(), rest);
        }
    }
}

/// The first two containers of an empty network get the two addresses behind the
/// gateway's, which are the base of the subnet plus two and plus three. Where the
/// gateway's last octet is below 254 they differ from the gateway, and from each other,
/// in the last octet alone.
pub proof fn lemma_first_addresses(
    state: NetworkState,
    i: int,
    first: Seq<char>,
    second: Seq<char>,
)
    requires
        0 <= i < state.networks.len(),
        state.networks[i].containers.len() == 0,
        state.networks[i].gateway.d < 254,
    ensures
        ({
            let gateway = state.networks[i].gateway;
            &&& state.next_address(i) == (Ipv4Address { d: (gateway.d + 1) as u8, ..gateway })
            &&& state.join(i, first).next_address(i) == (Ipv4Address {
                d: (gateway.d + 2) as u8,
                ..gateway
            })
        }),
{
    let gateway = state.networks[i].gateway;
    lemma_offset_within_octet(gateway, 1);
    lemma_offset_within_octet(gateway, 2);
}

/// On the bridge the container that comes when `n` are there gets `172.17.0.(n + 2)`,
/// as long as that fits the last octet: never the base of the subnet and never the
/// gateway. It joins behind the others; the other networks and the forwards stay as
/// they are.
pub proof fn lemma_bridge_address(state: NetworkState, id: Seq<char>)
    requires
        state.well_formed(),
        state.networks[0].containers.len() + 2 <= 255,
    ensures
        ({
            let n = state.networks[0].containers.len();
            let (after, address) = state.allocate(id);
            &&& address == (Ipv4Address { a: 172, b: 17, c: 0, d: (n + 2) as u8 })
            &&& address != bridge_gateway()
            &&& address != (Ipv4Address { a: 172, b: 17, c: 0, d: 0 })
            &&& after.networks.len() == state.networks.len()
            &&& after.networks[0].containers == state.networks[0].containers.push(id)
            &&& after.networks[0].name == BRIDGE@
            &&& forall|j: int| 0 < j < state.networks.len() ==> after.networks[j] == state.networks[j]
            &&& after.forwards == state.forwards
        }),
{
    let n = state.networks[0].containers.len();
    lemma_offset_within_octet(bridge_gateway(), n as int + 1);
}

/// An offset that does not carry changes the last octet alone.
pub proof fn lemma_offset_within_octet(address: Ipv4Address, n: int)
    requires
        0 <= n,
        address.d + n < 256,
    ensures
        address.spec_offset(n) == (Ipv4Address { d: (address.d + n) as u8, ..address }),
{
    let a = address.a as int;
    let b = address.b as int;
    let c = address.c as int;
    let d = address.d + n;
    let v = address.value() + n;
    lemma_fundamental_div_mod_converse(v, 0x1_0000_0000, 0, v);
    lemma_fundamental_div_mod_converse(v, 0x100_0000, a, b * 0x1_0000 + c * 0x100 + d);
    lemma_fundamental_div_mod_converse(v, 0x1_0000, a * 0x100 + b, c * 0x100 + d);
    lemma_fundamental_div_mod_converse(a * 0x100 + b, 0x100, a, b);
    lemma_fundamental_div_mod_converse(v, 0x100, a * 0x1_0000 + b * 0x100 + c, d);
    lemma_fundamental_div_mod_converse(a * 0x1_0000 + b * 0x100 + c, 0x100, a * 0x100 + b, c);
}

/// A host port is forwarded once: after a mapping has been registered, setting up
/// another mapping of the same host port fails, whoever asks and whatever the
/// host reports of its socket, and the state with the first registration stays as it is.
pub proof fn lemma_second_forward_fails(
    state: NetworkState,
    first_id: Seq<char>,
    first: PortMappingView,
    first_bound: BoundKind,
    second_id: Seq<char>,
    second: PortMappingView,
    second_bound: BoundKind,
)
    requires
        protocol_named(lowercased(first.protocol)) is Some,
        protocol_named(lowercased(second.protocol)) is Some,
        state.forward_step(first_id, first, first_bound).1 is Ok,
        second.host_port == first.host_port,
    ensures
        ({
            let registered = state.forward_step(first_id, first, first_bound).0;
            let (after, outcome) = registered.forward_step(second_id, second, second_bound);
            &&& registered.has_forward(first.host_port)
            &&& registered.forwards[first.host_port].container_id == first_id
            &&& outcome is Err
            &&& after == registered
        }),
{
}

/// Takes every string equal to `id` out of `members`; the others keep their order.
pub fn remove_member(members: &mut Vec<String>, id: &str)
    ensures
        views(final(members)@) == views(old(members)@).filter(other_than(id@)),
{
    let ghost before = views(members@);
    let mut i: usize = 0;
    while i < members.len()
        invariant
            i <= members.len() <= before.len(),
            views(members@).take(i as int) == before.take(i + before.len() - members.len()).filter(
                other_than(id@),
            ),
            views(members@).skip(i as int) == before.skip(i + before.len() - members.len()),
        decreases members.len() - i,
    {
        let ghost done = i + before.len() - members.len();
        let ghost current = views(members@);
        proof {
            assert(current[i as int] == current.skip(i as int)[0]);
            assert(current[i as int] == before[done]);
            lemma_filter_take(before, other_than(id@), done);
        }
        if str_eq(members[i].as_str(), id) {
            members.remove(i);
            proof {
                let after = views(members@);
                assert(after =~= current.remove(i as int));
                assert(after.take(i as int) =~= current.take(i as int));
                assert(after.skip(i as int) =~= current.skip(i as int).skip(1));
                assert(before.skip(done + 1) =~= before.skip(done).skip(1));
            }
        } else {
            proof {
                assert(current.take(i + 1) =~= current.take(i as int).push(current[i as int]));
                assert(current.skip(i + 1) =~= current.skip(i as int).skip(1));
                assert(before.skip(done + 1) =~= before.skip(done).skip(1));
            }
            i += 1;
        }
    }
    proof {
        assert(views(members@).take(i as int) =~= views(members@));
        assert(before.take(before.len() as int) =~= before);
    }
}

/// The protocol that a lowercase tag names.
pub fn protocol_of_lowered(lowered: &str) -> (r: Option<Protocol>)
    ensures
        r == protocol_named(lowered@),
{
    if str_eq(lowered, "tcp") {
        Some(Protocol::Tcp)
    } else if str_eq(lowered, "udp") {
        Some(Protocol::Udp)
    } else {
        None
    }
}

/// The protocol that a tag names, whatever its case. The host asks this to learn which
/// socket to bind for a port mapping; `None` means that the mapping is passed over.
pub fn parse_protocol(tag: &str) -> (r: Option<Protocol>)
    ensures
        r == protocol_named(lowercased(tag@)),
{
    let lowered = to_lowercase(tag);
    protocol_of_lowered(lowered.as_str())
}

impl Clone for Network {
    fn clone(&self) -> (r: Self)
        ensures
            r@ == self@,
    {
        let containers = self.containers.clone();
        assert(views(containers@) =~= views(self.containers@)) by {
            assert(containers.deep_view() =~= views(containers@));
            assert(self.containers.deep_view() =~= views(self.containers@));
        }
        Network {
            name: self.name.clone(),
            subnet: self.subnet.clone(),
            gateway: self.gateway,
            containers,
        }
    }
}

impl ContainerNetwork {
    /// The container's address.
    pub fn get_ip(&self) -> (ip: Ipv4Address)
        ensures
            ip == self.ip_address,
    {
        self.ip_address
    }

    /// The container's hostname.
    pub fn get_hostname(&self) -> (name: &str)
        ensures
            name@ == self.hostname@,
    {
        self.hostname.as_str()
    }
}

/// The bridge's view in front of the views of the networks created after it.
pub open spec fn bridge_and(bridge: NetworkView, others: Seq<Network>) -> Seq<NetworkView> {
    seq![bridge] + network_views(others)
}

/// What a registration under `host_port` makes of a table of forwards: the forwards
/// that were there stay as they were, sockets included, and the new one keeps exactly
/// `socket`.
pub open spec fn registered_in<L>(
    before: Map<u16, PortForward<L>>,
    after: Map<u16, PortForward<L>>,
    host_port: u16,
    socket: Option<L>,
) -> bool {
    &&& !before.contains_key(host_port)
    &&& after.dom() == before.dom().insert(host_port)
    &&& after[host_port].listener == socket
    &&& forwards_kept(before, after)
}

/// Whether `socket` is what a forward of `host_port` keeps when it comes of one of the
/// first `n` of `mappings`, each set up with the report at its place in `bound`: the
/// listening socket of that report where the mapping's protocol is TCP, else none.
pub open spec fn socket_of_report<L>(
    host_port: u16,
    socket: Option<L>,
    mappings: Seq<PortMappingView>,
    bound: Seq<Bound<L>>,
    n: int,
) -> bool {
    exists|j: int|
        0 <= j < n && j < mappings.len() && j < bound.len() && (#[trigger] mappings[j]).host_port
            == host_port && socket == kept_socket(
            protocol_named(lowercased(mappings[j].protocol)),
            bound[j],
        )
}

/// Keeps the networks and the forwards of one runtime. The bridge network is there from
/// the start and is never removed; the forwards are kept by their host ports.
#[derive(Debug)]
pub struct NetworkManager<L> {
    bridge: Network,
    others: Vec<Network>,
    port_forwards: HashMap<u16, PortForward<L>>,
}

impl<L> View for NetworkManager<L> {
    type V = NetworkState;

    closed spec fn view(&self) -> NetworkState {
        NetworkState {
            networks: bridge_and(self.bridge@, self.others@),
            forwards: forward_views(self.port_forwards@),
        }
    }
}

impl<L> NetworkManager<L> {
    #[verifier::type_invariant]
    spec fn valid(self) -> bool {
        &&& self.bridge.name@ == BRIDGE@
        &&& self.bridge.gateway == bridge_gateway()
        &&& self.names().no_duplicates()
        &&& forwards_consistent(forward_views(self.port_forwards@))
    }

    /// The names of the networks, the bridge's first.
    spec fn names(self) -> Seq<Seq<char>> {
        seq![self.bridge.name@] + self.others@.map_values(|n: Network| n.name@)
    }

    /// The forwards themselves, by their host ports, each with the socket that it keeps.
    pub closed spec fn spec_forwards(&self) -> Map<u16, PortForward<L>> {
        self.port_forwards@
    }

    /// The forwards of the view are the views of the forwards.
    pub proof fn lemma_forwards_view(&self)
        ensures
            self@.forwards == forward_views(self.spec_forwards()),
    {
    }

    /// A manager's state is well formed at every moment. Calling this brings that fact
    /// into the caller's proof; it does nothing else.
    pub fn well_formed(&self)
        ensures
            self@.well_formed(),
    {
        proof {
            use_type_invariant(self);
            assert(network_names(self@.networks) =~= self.names());
        }
    }

    /// A manager with the bridge network and nothing else.
    pub fn new() -> (m: Self)
        ensures
            m@ == NetworkState::initial(),
            m.spec_forwards() == Map::<u16, PortForward<L>>::empty(),
    {
        let bridge = Network {
            name: BRIDGE.to_owned(),
            subnet: BRIDGE_SUBNET.to_owned(),
            gateway: Ipv4Address::new(172, 17, 0, 1),
            containers: Vec::new(),
        };
        let others: Vec<Network> = Vec::new();
        let port_forwards: HashMap<u16, PortForward<L>> = HashMap::new();
        proof {
            assert(views(bridge.containers@) =~= Seq::empty());
            assert(bridge_and(bridge@, others@) =~= seq![empty_bridge()]);
            assert(forward_views(port_forwards@) =~= Map::empty());
        }
        NetworkManager { bridge, others, port_forwards }
    }

    /// Whether a network is called `name`.
    fn knows_network(&self, name: &str) -> (r: bool)
        ensures
            r == self@.has_network(name@),
    {
        let ghost names = network_names(self@.networks);
        if str_eq(self.bridge.name.as_str(), name) {
            proof {
                assert(names[0] == name@);
            }
            return true;
        }
        let mut i: usize = 0;
        while i < self.others.len()
            invariant
                i <= self.others.len(),
                names == network_names(self@.networks),
                forall|j: int| 0 <= j <= i ==> names[j] != name@,
            decreases self.others.len() - i,
        {
            if str_eq(self.others[i].name.as_str(), name) {
                proof {
                    assert(names[i + 1] == name@);
                }
                return true;
            }
            i += 1;
        }
        false
    }

    /// Gives `container_id` the next address of the bridge network and puts it among
    /// its members. With `n` members there before, and as long as the last octet holds
    /// it, the address is `172.17.0.(n + 2)`. The forwards stay as they are.
    pub fn allocate_ip(&mut self, container_id: &str) -> (r: Result<Ipv4Address, Error>)
        ensures
            r == Ok::<Ipv4Address, Error>(old(self)@.allocate(container_id@).1),
            final(self)@ == old(self)@.allocate(container_id@).0,
            final(self).spec_forwards() == old(self).spec_forwards(),
            old(self)@.networks[0].containers.len() + 2 <= 255 ==> r == Ok::<Ipv4Address, Error>(
                Ipv4Address {
                    a: 172,
                    b: 17,
                    c: 0,
                    d: (old(self)@.networks[0].containers.len() + 2) as u8,
                },
            ),
    {
        proof {
            use_type_invariant(&*self);
            assert(network_names(self@.networks) =~= self.names());
            if self@.networks[0].containers.len() + 2 <= 255 {
                lemma_bridge_address(self@, container_id@);
            }
        }
        let ghost before = self@;
        let mut members: Vec<String> = Vec::new();
        core::mem::swap(&mut self.bridge.containers, &mut members);
        let ip = self.bridge.gateway.following(members.len());
        members.push(container_id.to_owned());
        proof {
            assert(views(members@) =~= before.networks[0].containers.push(container_id@));
        }
        self.bridge.containers = members;
        proof {
            assert(self@.networks =~= before.join(0, container_id@).networks);
        }
        Ok(ip)
    }

    /// Creates the network `name`. No two networks share a name.
    pub fn create_network(&mut self, name: &str, subnet: &str) -> (r: Result<(), Error>)
        ensures
            match r {
                Ok(_) => {
                    &&& !old(self)@.has_network(name@)
                    &&& final(self)@ == old(self)@.create(name@, subnet@)
                },
                Err(e) => {
                    &&& e == Error::NetworkExists
                    &&& old(self)@.has_network(name@)
                    &&& final(self)@ == old(self)@
                },
            },
            final(self).spec_forwards() == old(self).spec_forwards(),
    {
        proof {
            use_type_invariant(&*self);
        }
        if self.knows_network(name) {
            return Err(Error::NetworkExists);
        }
        let ghost before = self@;
        let ghost names = self.names();
        proof {
            assert(network_names(before.networks) =~= names);
        }
        let mut others: Vec<Network> = Vec::new();
        core::mem::swap(&mut self.others, &mut others);
        others.push(
            Network {
                name: name.to_owned(),
                subnet: subnet.to_owned(),
                gateway: Ipv4Address::new(172, 18, 0, 1),
                containers: Vec::new(),
            },
        );
        proof {
            let created = NetworkView {
                name: name@,
                subnet: subnet@,
                gateway: default_gateway(),
                containers: Seq::empty(),
            };
            let after = bridge_and(self.bridge@, others@);
            assert(after[before.networks.len() as int].containers =~= Seq::empty());
            assert(after =~= before.networks.push(created));
            let grown = seq![self.bridge.name@] + others@.map_values(|n: Network| n.name@);
            assert(grown =~= names.push(name@));
            assert forall|x: int, y: int|
                0 <= x < grown.len() && 0 <= y < grown.len() && x != y implies grown[x]
                != grown[y] by {
                if x == names.len() {
                    assert(names[y] == grown[y]);
                } else if y == names.len() {
                    assert(names[x] == grown[x]);
                }
            }
        }
        self.others = others;
        Ok(())
    }

    /// The networks, in the order of their creation.
    pub fn list_networks(&self) -> (r: Result<Vec<Network>, Error>)
        ensures
            r is Ok,
            network_views(r.unwrap()@) == self@.networks,
    {
        let mut list: Vec<Network> = Vec::new();
        list.push(self.bridge.clone());
        let mut i: usize = 0;
        while i < self.others.len()
            invariant
                i <= self.others.len(),
                list.len() == i + 1,
                list@[0]@ == self.bridge@,
                forall|j: int| 0 <= j < i ==> list@[j + 1]@ == self.others@[j]@,
            decreases self.others.len() - i,
        {
            list.push(self.others[i].clone());
            i += 1;
        }
        proof {
            assert(network_views(list@) =~= self@.networks) by {
                assert forall|j: int| 0 < j < list.len() implies list@[j]@ == self.others@[j - 1]@ by {
                    assert(list@[(j - 1) + 1]@ == self.others@[j - 1]@);
                }
            }
        }
        Ok(list)
    }

    /// The address that `container_id` has in `network`, if it is a member of it.
    fn address_in(network: &Network, container_id: &str) -> (r: Option<Ipv4Address>)
        ensures
            r == if network@.containers.contains(container_id@) {
                Some(
                    member_address(
                        network@.gateway,
                        first_index_of(network@.containers, container_id@),
                    ),
                )
            } else {
                None::<Ipv4Address>
            },
    {
        let index = position_in(&network.containers, container_id);
        proof {
            lemma_first_index_of(views(network.containers@), container_id@);
        }
        if index < network.containers.len() {
            proof {
                assert(views(network.containers@)[index as int] == container_id@);
            }
            Some(network.gateway.following(index))
        } else {
            None
        }
    }

    /// The address of `container_id`, if it is in a network.
    pub fn get_container_ip(&self, container_id: &str) -> (r: Result<Option<Ipv4Address>, Error>)
        ensures
            r == Ok::<Option<Ipv4Address>, Error>(self@.address_of(container_id@)),
    {
        let ghost flags = self@.networks.map_values(
            |n: NetworkView| n.containers.contains(container_id@),
        );
        match Self::address_in(&self.bridge, container_id) {
            Some(ip) => {
                proof {
                    assert(flags[0]);
                    lemma_first_index_of_is(flags, true, 0);
                }
                return Ok(Some(ip));
            },
            None => {},
        }
        let mut i: usize = 0;
        while i < self.others.len()
            invariant
                i <= self.others.len(),
                flags == self@.networks.map_values(
                    |n: NetworkView| n.containers.contains(container_id@),
                ),
                forall|j: int| 0 <= j <= i ==> flags[j] != true,
            decreases self.others.len() - i,
        {
            match Self::address_in(&self.others[i], container_id) {
                Some(ip) => {
                    proof {
                        assert(self@.networks[i + 1] == self.others@[i as int]@);
                        assert(flags[i + 1]);
                        lemma_first_index_of_is(flags, true, i + 1);
                    }
                    return Ok(Some(ip));
                },
                None => {
                    proof {
                        assert(self@.networks[i + 1] == self.others@[i as int]@);
                    }
                },
            }
            i += 1;
        }
        proof {
            lemma_first_index_of_is(flags, true, i + 1);
        }
        Ok(None)
    }

    /// Whether `host_port` is forwarded.
    pub fn has_forward(&self, host_port: u16) -> (r: bool)
        ensures
            r == self@.has_forward(host_port),
    {
        broadcast use vstd::std_specs::hash::group_hash_axioms;

        self.port_forwards.contains_key(&host_port)
    }

    /// The forward of `host_port`, with the socket that it keeps, if the port is
    /// forwarded.
    pub fn get_forward(&self, host_port: u16) -> (r: Option<&PortForward<L>>)
        ensures
            match r {
                Some(forward) => self.spec_forwards().contains_key(host_port) && *forward
                    == self.spec_forwards()[host_port],
                None => !self.spec_forwards().contains_key(host_port),
            },
    {
        broadcast use vstd::std_specs::hash::group_hash_axioms;

        self.port_forwards.get(&host_port)
    }

    /// Sets up one port mapping of `container_id`, where `kind` is the protocol that
    /// the tag `protocol` names, given what the host reports of the socket that it bound
    /// for it. A TCP forward keeps the listening socket that the host hands over, and is
    /// not registered without one; a UDP forward keeps none. The forwards that were
    /// there stay as they were, whatever comes of this one.
    pub fn register_forward(
        &mut self,
        container_id: &str,
        host_port: u16,
        container_port: u16,
        protocol: &str,
        kind: Option<Protocol>,
        bound: Bound<L>,
    ) -> (r: Result<(), Error>)
        requires
            kind == protocol_named(lowercased(protocol@)),
        ensures
            (final(self)@, r) == old(self)@.forward_step_of(
                container_id@,
                PortMappingView { host_port, container_port, protocol: protocol@ },
                kind,
                bound@,
            ),
            if r is Ok && kind is Some {
                registered_in(
                    old(self).spec_forwards(),
                    final(self).spec_forwards(),
                    host_port,
                    kept_socket(kind, bound),
                )
            } else {
                final(self).spec_forwards() == old(self).spec_forwards()
            },
    {
        broadcast use vstd::std_specs::hash::group_hash_axioms;

        proof {
            use_type_invariant(&*self);
        }
        let protocol_kind = match kind {
            Some(protocol_kind) => protocol_kind,
            None => {
                return Ok(());
            },
        };
        let listener = match bound {
            Bound::Failed => {
                return Err(Error::BindFailed);
            },
            Bound::Listening(socket) => match protocol_kind {
                Protocol::Tcp => Some(socket),
                Protocol::Udp => None,
            },
            Bound::Released => match protocol_kind {
                Protocol::Tcp => {
                    return Err(Error::BindFailed);
                },
                Protocol::Udp => None,
            },
        };
        if self.has_forward(host_port) {
            return Err(Error::PortConflict);
        }
        let ghost before = self@;
        let mut forwards: HashMap<u16, PortForward<L>> = HashMap::new();
        core::mem::swap(&mut self.port_forwards, &mut forwards);
        let ghost table = forwards@;
        let forward = PortForward {
            host_port,
            container_id: container_id.to_owned(),
            container_port,
            protocol: protocol.to_owned(),
            listener,
        };
        let ghost added = forward@;
        forwards.insert(host_port, forward);
        proof {
            assert(forward_views(forwards@) =~= forward_views(table).insert(host_port, added));
            assert(forwards@.dom() =~= table.dom().insert(host_port));
        }
        self.port_forwards = forwards;
        Ok(())
    }

    /// Sets up one port mapping of `container_id`, given what the host reports of the
    /// socket that it bound for it. The host binds a listening socket for TCP and hands
    /// it over; for UDP it binds one to see that the port is free and closes it again.
    /// A registered TCP forward keeps the very socket of the report, and the forwards
    /// that were there stay as they were, whatever comes of this one.
    pub fn setup_port_forward(
        &mut self,
        container_id: &str,
        host_port: u16,
        container_port: u16,
        protocol: &str,
        bound: Bound<L>,
    ) -> (r: Result<(), Error>)
        ensures
            (final(self)@, r) == old(self)@.forward_step(
                container_id@,
                PortMappingView { host_port, container_port, protocol: protocol@ },
                bound@,
            ),
            if r is Ok && protocol_named(lowercased(protocol@)) is Some {
                registered_in(
                    old(self).spec_forwards(),
                    final(self).spec_forwards(),
                    host_port,
                    kept_socket(protocol_named(lowercased(protocol@)), bound),
                )
            } else {
                final(self).spec_forwards() == old(self).spec_forwards()
            },
    {
        let kind = parse_protocol(protocol);
        self.register_forward(container_id, host_port, container_port, protocol, kind, bound)
    }

    /// Acquires the network for `container`: gives it an address on the bridge and
    /// sets up its port mappings in order, each with what the host reported of its
    /// socket. `bound` holds those reports in the order of the mappings. The first
    /// mapping that fails ends the setup with its error; what was set up before it
    /// stays, for `cleanup_container_network` to release. The forwards that were there
    /// before stay as they were, sockets included, and each new one keeps what the report
    /// for its mapping handed over.
    pub fn setup_container_network(&mut self, container: &Container, bound: Vec<Bound<L>>) -> (r:
        Result<ContainerNetwork, Error>)
        ensures
            ({
                let id = container@.id;
                let (joined, address) = old(self)@.allocate(id);
                let (after, outcome) = joined.forward_all(id, container@.ports, bound_views(bound@));
                &&& final(self)@ == after
                &&& match r {
                    Ok(lease) => outcome is Ok && lease@ == (ContainerNetworkView {
                        container_id: id,
                        ip_address: address,
                        hostname: container@.hostname,
                        port_mappings: container@.ports,
                    }),
                    Err(e) => outcome == Err::<(), Error>(e),
                }
            }),
            forwards_kept(old(self).spec_forwards(), final(self).spec_forwards()),
            forall|p: u16| #[trigger]
                final(self).spec_forwards().contains_key(p) && !old(self).spec_forwards().contains_key(
                    p,
                ) ==> socket_of_report(
                    p,
                    final(self).spec_forwards()[p].listener,
                    container@.ports,
                    bound@,
                    container@.ports.len() as int,
                ),
    {
        let id = container.id();
        let config = container.network_config();
        let ip = match self.allocate_ip(id) {
            Ok(ip) => ip,
            Err(e) => {
                return Err(e);
            },
        };
        let ghost joined = self@;
        let ghost mappings = port_views(config.ports@);
        let ghost reports = bound_views(bound@);
        let mut pending = bound;
        let mut i: usize = 0;
        proof {
            assert(mappings.skip(0) =~= mappings);
            assert(bound@.skip(0) =~= bound@);
        }
        while i < config.ports.len()
            invariant
                i <= config.ports.len(),
                mappings == port_views(config.ports@),
                mappings == container@.ports,
                reports == bound_views(bound@),
                id@ == container@.id,
                joined == old(self)@.allocate(container@.id).0,
                self@.forward_all(id@, mappings.skip(i as int), bound_views(pending@))
                    == joined.forward_all(id@, mappings, reports),
                forwards_kept(old(self).spec_forwards(), self.spec_forwards()),
                pending@ == if i <= bound@.len() {
                    bound@.skip(i as int)
                } else {
                    Seq::<Bound<L>>::empty()
                },
                forall|p: u16| #[trigger]
                    self.spec_forwards().contains_key(p) && !old(self).spec_forwards().contains_key(p)
                        ==> socket_of_report(
                        p,
                        self.spec_forwards()[p].listener,
                        mappings,
                        bound@,
                        i as int,
                    ),
            decreases config.ports.len() - i,
        {
            let ghost rest = bound_views(pending@);
            let ghost current = self@;
            let ghost table = self.spec_forwards();
            let ghost waiting = pending@;
            let report = if pending.len() > 0 {
                pending.remove(0)
            } else {
                Bound::Failed
            };
            proof {
                assert(mappings.skip(i as int)[0] == mappings[i as int]);
                assert(mappings.skip(i as int).drop_first() =~= mappings.skip(i + 1));
                if rest.len() > 0 {
                    assert(bound_views(pending@) =~= rest.drop_first());
                    assert(report@ == rest[0]);
                } else {
                    assert(bound_views(pending@) =~= rest);
                }
            }
            let mapping = &config.ports[i];
            let outcome = self.setup_port_forward(
                id,
                mapping.host_port,
                mapping.container_port,
                mapping.protocol.as_str(),
                report,
            );
            proof {
                let first = if rest.len() > 0 {
                    rest[0]
                } else {
                    BoundKind::Failed
                };
                assert(mapping@ == mappings[i as int]);
                assert((self@, outcome) == current.forward_step(id@, mappings[i as int], first));
                if waiting.len() > 0 {
                    assert(pending@ =~= bound@.skip(i + 1));
                    assert(waiting[0] == bound@[i as int]);
                } else {
                    assert(pending@ =~= Seq::<Bound<L>>::empty());
                }
                assert forall|p: u16| #[trigger]
                    self.spec_forwards().contains_key(p) && !old(self).spec_forwards().contains_key(
                        p,
                    ) implies socket_of_report(
                    p,
                    self.spec_forwards()[p].listener,
                    mappings,
                    bound@,
                    i + 1,
                ) by {
                    if table.contains_key(p) {
                        assert(socket_of_report(p, table[p].listener, mappings, bound@, i as int));
                        let j = choose|j: int|
                            0 <= j < i && j < mappings.len() && j < bound@.len() && (
                            #[trigger] mappings[j]).host_port == p && table[p].listener
                                == kept_socket(
                                protocol_named(lowercased(mappings[j].protocol)),
                                bound@[j],
                            );
                        assert(mappings[j].host_port == p);
                    } else {
                        assert(p == mappings[i as int].host_port);
                        assert(waiting.len() > 0);
                    }
                }
            }
            match outcome {
                Ok(_) => {},
                Err(e) => {
                    return Err(e);
                },
            }
            i += 1;
        }
        proof {
            assert(mappings.skip(i as int).len() == 0);
        }
        Ok(
            ContainerNetwork {
                container_id: id.to_owned(),
                ip_address: ip,
                hostname: config.hostname.clone(),
                port_mappings: clone_ports(&config.ports),
            },
        )
    }

    /// The host ports of the forwards that belong to `container_id`, each once.
    fn ports_of(forwards: &HashMap<u16, PortForward<L>>, container_id: &str) -> (owned: Vec<u16>)
        ensures
            forall|p: u16|
                owned@.contains(p) <==> forwards@.contains_key(p) && forwards@[p].container_id@
                    == container_id@,
    {
        broadcast use vstd::std_specs::hash::group_hash_axioms;

        let mut owned: Vec<u16> = Vec::new();
        for pair in it: forwards.iter()
            invariant
                it.seq() == spec_hash_map_iter(forwards).remaining(),
                forall|p: u16|
                    owned@.contains(p) ==> forwards@.contains_key(p) && forwards@[p].container_id@
                        == container_id@,
                forall|j: int|
                    0 <= j < it.index() && (#[trigger] it.seq()[j]).1.container_id@ == container_id@
                        ==> owned@.contains(*it.seq()[j].0),
        {
            if str_eq(pair.1.container_id.as_str(), container_id) {
                let ghost earlier = owned@;
                owned.push(*pair.0);
                proof {
                    let j = it.index();
                    assert(pair == it.seq()[j]);
                    assert(forwards@.contains_key(*it.seq()[j].0));
                    assert(forwards@[*it.seq()[j].0] == *it.seq()[j].1);
                    assert(owned@[earlier.len() as int] == *pair.0);
                    assert forall|p: u16| owned@.contains(p) implies forwards@.contains_key(p)
                        && forwards@[p].container_id@ == container_id@ by {
                        let k = choose|k: int| 0 <= k < owned@.len() && owned@[k] == p;
                        if k < earlier.len() {
                            assert(earlier[k] == p);
                            assert(earlier.contains(p));
                        } else {
                            assert(p == *pair.0);
                            assert(forwards@[p] == *pair.1);
                        }
                    }
                    assert forall|p: u16| earlier.contains(p) implies owned@.contains(p) by {
                        let j = choose|j: int| 0 <= j < earlier.len() && earlier[j] == p;
                        assert(owned@[j] == p);
                    }
                }
            }
        }
        owned
    }

    /// Takes `container_id` out of every network and drops its forwards, closing the
    /// sockets that they kept. The forwards of the other containers stay as they were.
    /// An id that is not known changes nothing.
    pub fn cleanup_container_network(&mut self, container_id: &str) -> (r: Result<(), Error>)
        ensures
            r is Ok,
            final(self)@ == old(self)@.release(container_id@),
            final(self).spec_forwards() == without_owner(old(self).spec_forwards(), container_id@),
    {
        broadcast use vstd::std_specs::hash::group_hash_axioms;

        proof {
            use_type_invariant(&*self);
        }
        let ghost before = self@;
        let mut forwards: HashMap<u16, PortForward<L>> = HashMap::new();
        core::mem::swap(&mut self.port_forwards, &mut forwards);
        let ghost table = forwards@;
        let owned = Self::ports_of(&forwards, container_id);
        let mut i: usize = 0;
        while i < owned.len()
            invariant
                i <= owned.len(),
                forall|p: u16|
                    owned@.contains(p) <==> table.contains_key(p) && table[p].container_id@
                        == container_id@,
                forwards@ =~= Map::new(
                    |p: u16| table.contains_key(p) && !owned@.take(i as int).contains(p),
                    |p: u16| table[p],
                ),
            decreases owned.len() - i,
        {
            let ghost current = forwards@;
            let port = owned[i];
            forwards.remove(&port);
            proof {
                assert(forwards@ == current.remove(port));
                assert(owned@.take(i + 1) =~= owned@.take(i as int).push(port));
                assert forall|p: u16| owned@.take(i + 1).contains(p) <==> owned@.take(
                    i as int,
                ).contains(p) || p == port by {
                    if owned@.take(i as int).contains(p) {
                        let j = choose|j: int|
                            0 <= j < owned@.take(i as int).len() && owned@.take(i as int)[j] == p;
                        assert(owned@.take(i + 1)[j] == p);
                    }
                    if p == port {
                        assert(owned@.take(i + 1)[i as int] == p);
                    }
                }
            }
            i += 1;
        }
        proof {
            assert(owned@.take(i as int) =~= owned@);
            assert(forwards@ =~= without_owner(table, container_id@));
            assert(forward_views(forwards@) =~= before.release(container_id@).forwards);
        }
        self.port_forwards = forwards;

        let mut members: Vec<String> = Vec::new();
        core::mem::swap(&mut self.bridge.containers, &mut members);
        remove_member(&mut members, container_id);
        self.bridge.containers = members;

        let ghost names = self.names();
        let mut others: Vec<Network> = Vec::new();
        core::mem::swap(&mut self.others, &mut others);
        let ghost joined = others@;
        let mut n: usize = 0;
        while n < others.len()
            invariant
                n <= others.len() == joined.len(),
                forall|j: int|
                    0 <= j < n ==> (#[trigger] others@[j])@ == joined[j]@.without(container_id@),
                forall|j: int| n <= j < others.len() ==> (#[trigger] others@[j])@ == joined[j]@,
            decreases others.len() - n,
        {
            remove_member(&mut others[n].containers, container_id);
            n += 1;
        }
        proof {
            let after = bridge_and(self.bridge@, others@);
            assert(after =~= before.networks.map_values(
                |n: NetworkView| n.without(container_id@),
            ));
            assert(seq![self.bridge.name@] + others@.map_values(|n: Network| n.name@) =~= names);
        }
        self.others = others;
        Ok(())
    }
}

} // verus!
