//! The runtime: the table of containers, what a sandboxed program is allowed to see,
//! the bridge calls that it can make, and the course of one execution.
//!
//! The runtime decides; the host acts. Staging a root, binding sockets, compiling and
//! invoking the program are the host's work. `WasmRuntime::run` takes what the host
//! reports and answers with what to do next.

use vstd::prelude::*;
use vstd::slice::slice_subrange;
use vstd::string::*;
use vstd::utf8::valid_utf8;
use crate::container::{Container, ContainerInfo, ContainerView, PortMapping, PortMappingView};
use crate::error::Error;
use crate::filesystem::{
    normalize, normalized, plan_staging, staging_plan, step_views, StagingStep, StagingStepView,
};
use crate::network::{
    bound_views, forwards_kept, lemma_release_removes, parse_protocol, protocol_named,
    socket_of_report, without_owner, Bound, BoundKind, ContainerNetwork, ContainerNetworkView,
    NetworkManager, NetworkState, PortForward, Protocol,
};
use crate::string_map::{map_of, StringMap};
use crate::text::{first_index_of, lemma_first_index_of_is, lowercased, str_eq, views};

verus! {

/// The code that the status bridge call reports.
pub const CONTAINER_INFO_CODE: i32 = 42;

/// The status of a container whose program has been started.
pub const RUNNING: &'static str = "running";

/// The status of a container whose program returned.
pub const EXITED: &'static str = "exited";

/// The status of a container whose program trapped or failed.
pub const FAILED: &'static str = "failed";

/// The status of a container that is being stopped.
pub const STOPPING: &'static str = "stopping";

/// The status of a container that was stopped.
pub const STOPPED: &'static str = "stopped";

/// One line of a container listing, as plain values.
pub struct ContainerInfoView {
    pub id: Seq<char>,
    pub image: Seq<char>,
    pub status: Seq<char>,
}

impl View for ContainerInfo {
    type V = ContainerInfoView;

    open spec fn view(&self) -> ContainerInfoView {
        ContainerInfoView { id: self.id@, image: self.image@, status: self.status@ }
    }
}

impl Clone for ContainerInfo {
    fn clone(&self) -> (r: Self)
        ensures
            r@ == self@,
    {
        ContainerInfo {
            id: self.id.clone(),
            image: self.image.clone(),
            status: self.status.clone(),
        }
    }
}

/// The views of a sequence of records.
pub open spec fn info_views(v: Seq<ContainerInfo>) -> Seq<ContainerInfoView> {
    v.map_values(|c: ContainerInfo| c@)
}

/// The ids of the records, in order.
pub open spec fn record_ids(records: Seq<ContainerInfoView>) -> Seq<Seq<char>> {
    records.map_values(|c: ContainerInfoView| c.id)
}

/// Holds of a record whose container runs.
pub open spec fn is_running() -> spec_fn(ContainerInfoView) -> bool {
    |c: ContainerInfoView| c.status == RUNNING@
}

/// The records after the status of `id` has been set: the first record of that id
/// carries `status`. Where no record has that id, nothing changes.
pub open spec fn with_status(
    records: Seq<ContainerInfoView>,
    id: Seq<char>,
    status: Seq<char>,
) -> Seq<ContainerInfoView> {
    let i = first_index_of(record_ids(records), id);
    if 0 <= i < records.len() {
        records.update(i, ContainerInfoView { status, ..records[i] })
    } else {
        records
    }
}

/// What a listing shows: every record, or the running ones alone.
pub open spec fn listed(records: Seq<ContainerInfoView>, all: bool) -> Seq<ContainerInfoView> {
    if all {
        records
    } else {
        records.filter(is_running())
    }
}

/// The arguments that a container's program is started with: the command that was
/// given for this container, else the image's entrypoint followed by its command, else
/// the image's command alone, which may be empty.
pub open spec fn resolved_args(container: ContainerView) -> Seq<Seq<char>> {
    match container.command {
        Some(args) => args,
        None => if container.image.config.entrypoint@.len() > 0 {
            views(container.image.config.entrypoint@) + views(container.image.config.cmd@)
        } else {
            views(container.image.config.cmd@)
        },
    }
}

/// What a sandboxed program is given.
#[derive(Debug)]
pub struct SandboxContext {
    /// The program shares the host's standard streams.
    pub inherit_stdio: bool,
    /// The program may open sockets to the outside.
    pub inherit_network: bool,
    /// The environment: each name once.
    pub env: StringMap<String>,
    /// The one directory that the program sees, as its `/`: a path below the staged
    /// root, empty for the root itself.
    pub preopen: Vec<String>,
    /// The arguments of the program.
    pub args: Vec<String>,
}

/// What a sandboxed program is given, as plain values.
pub struct SandboxContextView {
    pub inherit_stdio: bool,
    pub inherit_network: bool,
    pub env: Map<Seq<char>, Seq<char>>,
    pub preopen: Seq<Seq<char>>,
    pub args: Seq<Seq<char>>,
}

impl View for SandboxContext {
    type V = SandboxContextView;

    open spec fn view(&self) -> SandboxContextView {
        SandboxContextView {
            inherit_stdio: self.inherit_stdio,
            inherit_network: self.inherit_network,
            env: self.env@,
            preopen: views(self.preopen@),
            args: views(self.args@),
        }
    }
}

/// The context of `container` on the network as `lease` describes it. The program
/// shares the standard streams and may reach the network. Its environment is the
/// container's, with the container's address as `CONTAINER_IP` and the lease's hostname
/// as `HOSTNAME`. It sees one directory: the working directory as found from the staged
/// root, or the root itself where none is set.
pub open spec fn sandbox_context(
    container: ContainerView,
    lease: ContainerNetworkView,
) -> SandboxContextView {
    SandboxContextView {
        inherit_stdio: true,
        inherit_network: true,
        env: container.env.insert("CONTAINER_IP"@, lease.ip_address.text()).insert(
            "HOSTNAME"@,
            lease.hostname,
        ),
        preopen: match container.workdir {
            Some(dir) => normalized(dir),
            None => Seq::empty(),
        },
        args: resolved_args(container),
    }
}

/// What the log bridge call makes of `length` bytes at `offset` of the program's
/// memory: the bytes as text, where they lie within the memory and are UTF-8.
pub open spec fn log_call(memory: Seq<u8>, offset: int, length: int) -> Result<Seq<u8>, Error> {
    if offset < 0 || length < 0 || offset + length > memory.len() {
        Err(Error::InvalidMemoryAccess)
    } else if !valid_utf8(memory.subrange(offset, offset + length)) {
        Err(Error::InvalidUtf8)
    } else {
        Ok(memory.subrange(offset, offset + length))
    }
}

/// A copy of a list of strings.
pub fn clone_strings(v: &Vec<String>) -> (r: Vec<String>)
    ensures
        views(r@) == views(v@),
{
    let r = v.clone();
    proof {
        assert(r.deep_view() =~= views(r@));
        assert(v.deep_view() =~= views(v@));
    }
    r
}

/// A copy of an environment.
pub fn clone_env(env: &StringMap<String>) -> (r: StringMap<String>)
    ensures
        r@ == env@,
{
    let entries = env.entries();
    let mut copy: StringMap<String> = StringMap::new();
    let mut i: usize = 0;
    while i < entries.len()
        invariant
            i <= entries.len(),
            copy@ == map_of(entries@.take(i as int)),
        decreases entries.len() - i,
    {
        proof {
            assert(entries@.take(i + 1).drop_last() =~= entries@.take(i as int));
        }
        copy.insert(entries[i].0.clone(), entries[i].1.clone());
        i += 1;
    }
    proof {
        assert(entries@.take(entries.len() as int) =~= entries@);
    }
    copy
}

/// The arguments that the program of `container` is started with.
pub fn resolve_args(container: &Container) -> (args: Vec<String>)
    ensures
        views(args@) == resolved_args(container@),
{
    match container.command() {
        Some(args) => clone_strings(args),
        None => {
            let config = &container.image_data().config;
            if config.entrypoint.len() > 0 {
                let mut args = clone_strings(&config.entrypoint);
                let mut cmd = clone_strings(&config.cmd);
                let ghost head = views(args@);
                let ghost tail = views(cmd@);
                args.append(&mut cmd);
                proof {
                    assert(views(args@) =~= head + tail);
                }
                args
            } else {
                clone_strings(&config.cmd)
            }
        },
    }
}

/// Describes what the program of `container` is given, once its network is acquired.
pub fn build_wasi_context(container: &Container, network: &ContainerNetwork) -> (r: Result<
    SandboxContext,
    Error,
>)
    ensures
        r is Ok,
        r.unwrap()@ == sandbox_context(container@, network@),
{
    let mut env = clone_env(container.env_vars());
    env.insert("CONTAINER_IP".to_owned(), network.get_ip().to_string());
    env.insert("HOSTNAME".to_owned(), network.get_hostname().to_owned());
    let preopen = match container.workdir() {
        Some(dir) => normalize(dir),
        None => Vec::new(),
    };
    proof {
        if container@.workdir is None {
            assert(views(preopen@) =~= Seq::empty());
        }
    }
    Ok(
        SandboxContext {
            inherit_stdio: true,
            inherit_network: true,
            env,
            preopen,
            args: resolve_args(container),
        },
    )
}

/// The text that `core::str::from_utf8` finds in `bytes`: present exactly where the
/// bytes are well-formed UTF-8, and then made of those very bytes.
#[verifier::external_body]
fn utf8_text(bytes: &[u8]) -> (r: Option<&str>)
    ensures
        r is Some <==> valid_utf8(bytes@),
        r is Some ==> r.unwrap().spec_bytes() == bytes@,
{
    core::str::from_utf8(bytes).ok()
}

/// The log call of the host bridge. A sandboxed program passes an offset into its
/// memory and a length; the message is the text that lies there. A call that names
/// bytes outside the memory, or bytes that are no text, is turned down, and that is all
/// that happens to it: the program goes on.
pub fn container_log(memory: &[u8], ptr: i32, len: i32) -> (r: Result<&str, Error>)
    ensures
        match r {
            Ok(message) => log_call(memory@, ptr as int, len as int) == Ok::<Seq<u8>, Error>(
                message.spec_bytes(),
            ),
            Err(e) => log_call(memory@, ptr as int, len as int) == Err::<Seq<u8>, Error>(e),
        },
{
    if ptr < 0 || len < 0 {
        return Err(Error::InvalidMemoryAccess);
    }
    let start = ptr as usize;
    let length = len as usize;
    if length > memory.len() || start > memory.len() - length {
        return Err(Error::InvalidMemoryAccess);
    }
    let bytes = slice_subrange(memory, start, start + length);
    match utf8_text(bytes) {
        Some(message) => Ok(message),
        None => Err(Error::InvalidUtf8),
    }
}

/// The status call of the host bridge: it takes nothing and answers with a fixed code.
pub fn get_container_info() -> (code: i32)
    ensures
        code == CONTAINER_INFO_CODE,
{
    CONTAINER_INFO_CODE
}

/// How far one execution has come.
#[derive(Debug, Clone, Copy, PartialEq, Eq, Structural)]
pub enum Phase {
    /// Nothing has been done yet.
    Created,
    /// The host stages the root.
    Staging,
    /// The host binds the sockets of the declared ports.
    Binding,
    /// The host builds the sandbox and compiles the program.
    Preparing,
    /// The program runs.
    Running,
    /// The program returned.
    Exited,
    /// The execution failed, at whichever step.
    Failed,
}

/// What the host reports to the runtime.
#[derive(Debug)]
pub enum Event<L> {
    /// The execution is to begin.
    Start,
    /// The root is staged as planned.
    Staged,
    /// A step of staging failed.
    StagingFailed,
    /// The sockets were bound: one report for each declared port, in order.
    Bound(Vec<Bound<L>>),
    /// The sandbox is built and the program compiled, linked and instantiated.
    Prepared,
    /// The program did not compile or link.
    PrepareFailed,
    /// The program returned.
    Finished,
    /// The program trapped or signalled failure.
    Trapped,
}

/// What the host reports, without the sockets.
pub enum EventView {
    Start,
    Staged,
    StagingFailed,
    Bound(Seq<BoundKind>),
    Prepared,
    PrepareFailed,
    Finished,
    Trapped,
}

impl<L> View for Event<L> {
    type V = EventView;

    open spec fn view(&self) -> EventView {
        match self {
            Event::Start => EventView::Start,
            Event::Staged => EventView::Staged,
            Event::StagingFailed => EventView::StagingFailed,
            Event::Bound(reports) => EventView::Bound(bound_views(reports@)),
            Event::Prepared => EventView::Prepared,
            Event::PrepareFailed => EventView::PrepareFailed,
            Event::Finished => EventView::Finished,
            Event::Trapped => EventView::Trapped,
        }
    }
}

/// The socket that the host is to bind for one declared port: none where the tag
/// names no protocol.
#[derive(Debug, PartialEq, Eq)]
pub struct BindRequest {
    pub host_port: u16,
    pub protocol: Option<Protocol>,
}

/// What the host is to do next.
#[derive(Debug)]
pub enum Action {
    /// Stage the root: make room for it and carry out the steps in order.
    Stage(Vec<StagingStep>),
    /// Bind a socket for each request, in order, up to the first that fails.
    Bind(Vec<BindRequest>),
    /// Build the sandbox as described, compile the program, install the bridge calls
    /// and instantiate it.
    Prepare(SandboxContext),
    /// Invoke the program's entry point.
    Invoke,
    /// The execution is over, with this outcome. The staged root can go.
    Done(Result<(), Error>),
}

/// What the host is to do next, as plain values.
pub enum ActionView {
    Stage(Seq<StagingStepView>),
    Bind(Seq<BindRequest>),
    Prepare(SandboxContextView),
    Invoke,
    Done(Result<(), Error>),
}

impl View for Action {
    type V = ActionView;

    open spec fn view(&self) -> ActionView {
        match self {
            Action::Stage(steps) => ActionView::Stage(step_views(steps@)),
            Action::Bind(requests) => ActionView::Bind(requests@),
            Action::Prepare(context) => ActionView::Prepare(context@),
            Action::Invoke => ActionView::Invoke,
            Action::Done(outcome) => ActionView::Done(*outcome),
        }
    }
}

/// The sockets to bind for the declared ports.
pub open spec fn bind_requests(ports: Seq<PortMappingView>) -> Seq<BindRequest> {
    ports.map_values(
        |m: PortMappingView|
            BindRequest { host_port: m.host_port, protocol: protocol_named(lowercased(m.protocol)) },
    )
}

/// One execution of one container.
#[derive(Debug)]
pub struct Session {
    container: Container,
    phase: Phase,
    lease: Option<ContainerNetwork>,
}

/// One execution, as plain values.
pub struct SessionView {
    pub container: ContainerView,
    pub phase: Phase,
    pub lease: Option<ContainerNetworkView>,
}

impl View for Session {
    type V = SessionView;

    closed spec fn view(&self) -> SessionView {
        SessionView {
            container: self.container@,
            phase: self.phase,
            lease: match self.lease {
                Some(lease) => Some(lease@),
                None => None,
            },
        }
    }
}

impl SessionView {
    /// The session at another phase, holding no lease.
    pub open spec fn ended(self, phase: Phase) -> SessionView {
        SessionView { phase, lease: None, ..self }
    }
}

/// The table of containers and the networks, as plain values.
pub struct RuntimeView {
    pub containers: Seq<ContainerInfoView>,
    pub network: NetworkState,
}

impl RuntimeView {
    /// The runtime after the network has let go of `id`.
    pub open spec fn released(self, id: Seq<char>) -> RuntimeView {
        RuntimeView { network: self.network.release(id), ..self }
    }

    /// The runtime after the status of `id` has been set.
    pub open spec fn marked(self, id: Seq<char>, status: Seq<char>) -> RuntimeView {
        RuntimeView { containers: with_status(self.containers, id, status), ..self }
    }

    /// The runtime after `id` has been stopped: the network has let go of it and its
    /// record, if there is one, says so.
    pub open spec fn stopped(self, id: Seq<char>) -> RuntimeView {
        self.marked(id, STOPPING@).released(id).marked(id, STOPPED@)
    }

    /// One step of an execution: the runtime and the session after `event`, and what
    /// the host is to do next.
    ///
    /// An execution goes from `Created` through `Staging`, `Binding` and `Preparing` to
    /// `Running`, and from there to `Exited` or `Failed`. Each phase admits the events
    /// that report on the work it waits for. The network is acquired when the sockets
    /// are reported; the record of the container appears, as running, when the program
    /// is ready to be invoked. Whenever the answer is `Done`, the network has let go of
    /// the container before: after a failure at any step, after a trap, after a normal
    /// return, and after an event that the phase does not admit, which ends the
    /// execution as a failure.
    pub open spec fn step(self, session: SessionView, event: EventView) -> (
        RuntimeView,
        SessionView,
        ActionView,
    ) {
        let id = session.container.id;
        match (session.phase, event) {
            (Phase::Created, EventView::Start) => (
                self,
                SessionView { phase: Phase::Staging, ..session },
                ActionView::Stage(staging_plan(session.container)),
            ),
            (Phase::Staging, EventView::Staged) => (
                self,
                SessionView { phase: Phase::Binding, ..session },
                ActionView::Bind(bind_requests(session.container.ports)),
            ),
            (Phase::Staging, EventView::StagingFailed) => (
                self.released(id),
                session.ended(Phase::Failed),
                ActionView::Done(Err(Error::Staging)),
            ),
            (Phase::Binding, EventView::Bound(reports)) => {
                let (joined, address) = self.network.allocate(id);
                let (after, outcome) = joined.forward_all(id, session.container.ports, reports);
                match outcome {
                    Ok(_) => {
                        let lease = ContainerNetworkView {
                            container_id: id,
                            ip_address: address,
                            hostname: session.container.hostname,
                            port_mappings: session.container.ports,
                        };
                        (
                            RuntimeView { network: after, ..self },
                            SessionView { phase: Phase::Preparing, lease: Some(lease), ..session },
                            ActionView::Prepare(sandbox_context(session.container, lease)),
                        )
                    },
                    Err(e) => (
                        RuntimeView { network: after.release(id), ..self },
                        session.ended(Phase::Failed),
                        ActionView::Done(Err(e)),
                    ),
                }
            },
            (Phase::Preparing, EventView::Prepared) => (
                RuntimeView {
                    containers: self.containers.push(
                        ContainerInfoView {
                            id,
                            image: session.container.image.name@,
                            status: RUNNING@,
                        },
                    ),
                    ..self
                },
                SessionView { phase: Phase::Running, ..session },
                ActionView::Invoke,
            ),
            (Phase::Preparing, EventView::PrepareFailed) => (
                self.released(id),
                session.ended(Phase::Failed),
                ActionView::Done(Err(Error::Compile)),
            ),
            (Phase::Running, EventView::Finished) => (
                self.released(id).marked(id, EXITED@),
                session.ended(Phase::Exited),
                ActionView::Done(Ok(())),
            ),
            (Phase::Running, EventView::Trapped) => (
                self.released(id).marked(id, FAILED@),
                session.ended(Phase::Failed),
                ActionView::Done(Err(Error::SandboxTrap)),
            ),
            (Phase::Running, _) => (
                self.released(id).marked(id, FAILED@),
                session.ended(Phase::Failed),
                ActionView::Done(Err(Error::UnexpectedEvent)),
            ),
            (Phase::Exited, _) => (
                self.released(id),
                session.ended(Phase::Exited),
                ActionView::Done(Err(Error::UnexpectedEvent)),
            ),
            _ => (
                self.released(id),
                session.ended(Phase::Failed),
                ActionView::Done(Err(Error::UnexpectedEvent)),
            ),
        }
    }
}

impl Session {
    /// An execution of `container` that has not begun.
    pub fn new(container: Container) -> (session: Self)
        ensures
            session@ == (SessionView { container: container@, phase: Phase::Created, lease: None }),
    {
        Session { container, phase: Phase::Created, lease: None }
    }

    /// How far the execution has come.
    pub fn phase(&self) -> (phase: Phase)
        ensures
            phase == self@.phase,
    {
        self.phase
    }

    /// The container that is executed.
    pub fn container(&self) -> (container: &Container)
        ensures
            container@ == self@.container,
    {
        &self.container
    }

    /// What the container holds of the network, while it holds anything.
    pub fn lease(&self) -> (r: Option<&ContainerNetwork>)
        ensures
            match r {
                Some(lease) => self@.lease == Some(lease@),
                None => self@.lease is None,
            },
    {
        self.lease.as_ref()
    }
}

/// The requests for the sockets of the declared ports.
pub fn plan_binds(ports: &Vec<PortMapping>) -> (r: Vec<BindRequest>)
    ensures
        r@ == bind_requests(crate::container::port_views(ports@)),
{
    let mut requests: Vec<BindRequest> = Vec::new();
    let mut i: usize = 0;
    while i < ports.len()
        invariant
            i <= ports.len(),
            requests@ == bind_requests(crate::container::port_views(ports@)).take(i as int),
        decreases ports.len() - i,
    {
        let request = BindRequest {
            host_port: ports[i].host_port,
            protocol: parse_protocol(ports[i].protocol.as_str()),
        };
        proof {
            assert(requests@.push(request) =~= bind_requests(
                crate::container::port_views(ports@),
            ).take(i + 1));
        }
        requests.push(request);
        i += 1;
    }
    proof {
        let all = bind_requests(crate::container::port_views(ports@));
        assert(all.take(ports.len() as int) =~= all);
    }
    requests
}

/// The runtime of one host: its containers and its networks.
#[derive(Debug)]
pub struct WasmRuntime<L> {
    containers: Vec<ContainerInfo>,
    network_manager: NetworkManager<L>,
}

impl<L> View for WasmRuntime<L> {
    type V = RuntimeView;

    closed spec fn view(&self) -> RuntimeView {
        RuntimeView { containers: info_views(self.containers@), network: self.network_manager@ }
    }
}

impl<L> WasmRuntime<L> {
    /// The forwards of this runtime's networks, by their host ports, each with the
    /// socket that it keeps.
    pub closed spec fn spec_forwards(&self) -> Map<u16, PortForward<L>> {
        self.network_manager.spec_forwards()
    }

    /// A runtime without containers, with the bridge network.
    pub fn new() -> (r: Result<Self, Error>)
        ensures
            r is Ok,
            r.unwrap()@ == (RuntimeView {
                containers: Seq::empty(),
                network: NetworkState::initial(),
            }),
            r.unwrap().spec_forwards() == Map::<u16, PortForward<L>>::empty(),
    {
        let runtime = WasmRuntime { containers: Vec::new(), network_manager: NetworkManager::new() };
        proof {
            assert(runtime@.containers =~= Seq::empty());
        }
        Ok(runtime)
    }

    /// The networks of this runtime.
    pub fn network_manager(&self) -> (manager: &NetworkManager<L>)
        ensures
            manager@ == self@.network,
            manager.spec_forwards() == self.spec_forwards(),
    {
        &self.network_manager
    }

    /// Sets the status of `container_id`. An id without a record changes nothing.
    fn update_container_status(&mut self, container_id: &str, status: &str) -> (r: Result<
        (),
        Error,
    >)
        ensures
            r is Ok,
            final(self)@ == old(self)@.marked(container_id@, status@),
            final(self).spec_forwards() == old(self).spec_forwards(),
    {
        let ghost records = info_views(self.containers@);
        let mut i: usize = 0;
        while i < self.containers.len()
            invariant
                i <= self.containers.len(),
                records == info_views(self.containers@),
                *self == *old(self),
                forall|j: int| 0 <= j < i ==> record_ids(records)[j] != container_id@,
            decreases self.containers.len() - i,
        {
            if str_eq(self.containers[i].id.as_str(), container_id) {
                proof {
                    lemma_first_index_of_is(record_ids(records), container_id@, i as int);
                }
                self.containers[i].status = status.to_owned();
                proof {
                    assert(info_views(self.containers@) =~= records.update(
                        i as int,
                        ContainerInfoView { status: status@, ..records[i as int] },
                    ));
                }
                return Ok(());
            }
            i += 1;
        }
        proof {
            lemma_first_index_of_is(record_ids(records), container_id@, i as int);
        }
        Ok(())
    }

    /// Stops `container_id`: its record goes to stopping, the network lets go of it, and
    /// its record goes to stopped. A program that is already running is not interrupted.
    /// An id that is not known changes nothing. The forwards of the other containers stay
    /// as they were, sockets included.
    pub fn stop(&mut self, container_id: &str) -> (r: Result<(), Error>)
        ensures
            r is Ok,
            final(self)@ == old(self)@.stopped(container_id@),
            final(self).spec_forwards() == without_owner(old(self).spec_forwards(), container_id@),
    {
        let _ = self.update_container_status(container_id, STOPPING);
        let _ = self.network_manager.cleanup_container_network(container_id);
        self.update_container_status(container_id, STOPPED)
    }

    /// The records of all containers, or of the running ones alone, in the order in
    /// which they were started.
    pub fn list_containers(&self, all: bool) -> (r: Result<Vec<ContainerInfo>, Error>)
        ensures
            r is Ok,
            info_views(r.unwrap()@) == listed(self@.containers, all),
    {
        let ghost records = info_views(self.containers@);
        let mut list: Vec<ContainerInfo> = Vec::new();
        let mut i: usize = 0;
        proof {
            reveal(Seq::filter);
            assert(info_views(list@) =~= Seq::empty());
            assert(records.take(0) =~= Seq::empty());
        }
        while i < self.containers.len()
            invariant
                i <= self.containers.len(),
                records == info_views(self.containers@),
                info_views(list@) == listed(records.take(i as int), all),
            decreases self.containers.len() - i,
        {
            proof {
                crate::network::lemma_filter_take(records, is_running(), i as int);
                assert(records.take(i + 1) =~= records.take(i as int).push(records[i as int]));
            }
            if all || str_eq(self.containers[i].status.as_str(), RUNNING) {
                let record = self.containers[i].clone();
                proof {
                    assert(info_views(list@.push(record)) =~= info_views(list@).push(record@));
                }
                list.push(record);
            }
            i += 1;
        }
        proof {
            assert(records.take(self.containers.len() as int) =~= records);
        }
        Ok(list)
    }

    /// Ends an execution: the network lets go of the container, the session holds no
    /// lease any more, and the host is told the outcome.
    fn finish(&mut self, session: &mut Session, phase: Phase, outcome: Result<(), Error>) -> (r:
        Action)
        ensures
            final(self)@ == old(self)@.released(old(session)@.container.id),
            final(session)@ == old(session)@.ended(phase),
            r@ == ActionView::Done(outcome),
            final(self).spec_forwards() == without_owner(
                old(self).spec_forwards(),
                old(session)@.container.id,
            ),
    {
        let _ = self.network_manager.cleanup_container_network(session.container.id());
        session.phase = phase;
        session.lease = None;
        Action::Done(outcome)
    }

    /// Takes what the host reports of the execution `session` and answers with what it
    /// is to do next. The host begins with `Event::Start`, does what each answer asks
    /// for, reports what came of it, and stops at `Action::Done`. Whatever the step, the
    /// forwards of the other containers stay as they were, sockets included; a forward
    /// comes only of a report of bound sockets, and keeps what that report handed over
    /// for its mapping.
    pub fn run(&mut self, session: &mut Session, event: Event<L>) -> (r: Action)
        ensures
            (final(self)@, final(session)@, r@) == old(self)@.step(old(session)@, event@),
            forwards_kept(
                without_owner(old(self).spec_forwards(), old(session)@.container.id),
                final(self).spec_forwards(),
            ),
            forall|p: u16| #[trigger]
                final(self).spec_forwards().contains_key(p) && !old(self).spec_forwards().contains_key(
                    p,
                ) ==> match event {
                    Event::Bound(reports) => socket_of_report(
                        p,
                        final(self).spec_forwards()[p].listener,
                        old(session)@.container.ports,
                        reports@,
                        old(session)@.container.ports.len() as int,
                    ),
                    _ => false,
                },
    {
        match session.phase {
            Phase::Created => match event {
                Event::Start => {
                    session.phase = Phase::Staging;
                    Action::Stage(plan_staging(&session.container))
                },
                _ => self.finish(session, Phase::Failed, Err(Error::UnexpectedEvent)),
            },
            Phase::Staging => match event {
                Event::Staged => {
                    session.phase = Phase::Binding;
                    Action::Bind(plan_binds(&session.container.network_config().ports))
                },
                Event::StagingFailed => self.finish(session, Phase::Failed, Err(Error::Staging)),
                _ => self.finish(session, Phase::Failed, Err(Error::UnexpectedEvent)),
            },
            Phase::Binding => match event {
                Event::Bound(reports) => {
                    match self.network_manager.setup_container_network(&session.container, reports) {
                        Ok(lease) => {
                            let context = match build_wasi_context(&session.container, &lease) {
                                Ok(context) => context,
                                Err(e) => {
                                    return self.finish(session, Phase::Failed, Err(e));
                                },
                            };
                            session.phase = Phase::Preparing;
                            session.lease = Some(lease);
                            Action::Prepare(context)
                        },
                        Err(e) => self.finish(session, Phase::Failed, Err(e)),
                    }
                },
                _ => self.finish(session, Phase::Failed, Err(Error::UnexpectedEvent)),
            },
            Phase::Preparing => match event {
                Event::Prepared => {
                    let record = ContainerInfo {
                        id: session.container.id().to_owned(),
                        image: session.container.image_name().to_owned(),
                        status: RUNNING.to_owned(),
                    };
                    proof {
                        assert(info_views(self.containers@.push(record)) =~= info_views(
                            self.containers@,
                        ).push(record@));
                    }
                    self.containers.push(record);
                    session.phase = Phase::Running;
                    Action::Invoke
                },
                Event::PrepareFailed => self.finish(session, Phase::Failed, Err(Error::Compile)),
                _ => self.finish(session, Phase::Failed, Err(Error::UnexpectedEvent)),
            },
            Phase::Running => {
                let (phase, status, outcome) = match event {
                    Event::Finished => (Phase::Exited, EXITED, Ok(())),
                    Event::Trapped => (Phase::Failed, FAILED, Err(Error::SandboxTrap)),
                    _ => (Phase::Failed, FAILED, Err(Error::UnexpectedEvent)),
                };
                let action = self.finish(session, phase, outcome);
                let _ = self.update_container_status(session.container.id(), status);
                action
            },
            Phase::Exited => self.finish(session, Phase::Exited, Err(Error::UnexpectedEvent)),
            Phase::Failed => self.finish(session, Phase::Failed, Err(Error::UnexpectedEvent)),
        }
    }
}

/// A log call that reaches beyond the program's memory is turned down, whatever lies
/// in the memory: the call is answered with an error and nothing else happens.
pub proof fn lemma_log_call_beyond_memory(memory: Seq<u8>, offset: int, length: int)
    requires
        offset + length > memory.len(),
    ensures
        log_call(memory, offset, length) == Err::<Seq<u8>, Error>(Error::InvalidMemoryAccess),
{
}

/// One of the five statuses that a record can carry.
pub open spec fn is_status(status: Seq<char>) -> bool {
    status == RUNNING@ || status == EXITED@ || status == FAILED@ || status == STOPPING@ || status
        == STOPPED@
}

/// Every record carries one of the five statuses.
pub open spec fn statuses_valid(records: Seq<ContainerInfoView>) -> bool {
    forall|i: int| 0 <= i < records.len() ==> is_status((#[trigger] records[i]).status)
}

/// Records are never dropped and carry nothing but the five statuses: a step of an
/// execution and a stop keep every record's id and image, add at most one record, and
/// leave each record with one of the five statuses.
pub proof fn lemma_records_stay(runtime: RuntimeView, session: SessionView, event: EventView, id: Seq<char>)
    requires
        statuses_valid(runtime.containers),
    ensures
        statuses_valid(runtime.step(session, event).0.containers),
        statuses_valid(runtime.stopped(id).containers),
        runtime.stopped(id).containers.len() == runtime.containers.len(),
        runtime.containers.len() <= runtime.step(session, event).0.containers.len()
            <= runtime.containers.len() + 1,
        forall|i: int|
            0 <= i < runtime.containers.len() ==> {
                &&& (#[trigger] runtime.step(session, event).0.containers[i]).id
                    == runtime.containers[i].id
                &&& runtime.step(session, event).0.containers[i].image == runtime.containers[i].image
                &&& (#[trigger] runtime.stopped(id).containers[i]).id == runtime.containers[i].id
                &&& runtime.stopped(id).containers[i].image == runtime.containers[i].image
            },
{
    let records = runtime.containers;
    let own = session.container.id;
    lemma_marked_valid(records, own, EXITED@);
    lemma_marked_valid(records, own, FAILED@);
    lemma_marked_valid(records, id, STOPPING@);
    lemma_marked_valid(with_status(records, id, STOPPING@), id, STOPPED@);
    let after = runtime.step(session, event).0.containers;
    assert forall|i: int| 0 <= i < after.len() implies is_status((#[trigger] after[i]).status) by {
        if i < records.len() {
            assert(is_status(records[i].status));
        }
    }
}

/// Setting a status leaves the number of records, their ids and their images as they
/// are, and keeps the statuses valid where the new one is.
pub proof fn lemma_marked_valid(records: Seq<ContainerInfoView>, id: Seq<char>, status: Seq<char>)
    requires
        statuses_valid(records),
        is_status(status),
    ensures
        statuses_valid(with_status(records, id, status)),
        with_status(records, id, status).len() == records.len(),
        forall|i: int|
            0 <= i < records.len() ==> {
                &&& (#[trigger] with_status(records, id, status)[i]).id == records[i].id
                &&& with_status(records, id, status)[i].image == records[i].image
            },
{
    let after = with_status(records, id, status);
    assert forall|i: int| 0 <= i < after.len() implies is_status((#[trigger] after[i]).status) by {
        assert(is_status(records[i].status));
    }
}

/// When an execution is over, the network holds nothing of its container: whatever
/// the phase and whatever the event, an answer of `Done` leaves the container in no
/// network, without an address and without a forward.
pub proof fn lemma_done_means_released(runtime: RuntimeView, session: SessionView, event: EventView)
    requires
        runtime.step(session, event).2 is Done,
    ensures
        ({
            let after = runtime.step(session, event).0.network;
            let id = session.container.id;
            &&& after.address_of(id) is None
            &&& forall|i: int|
                0 <= i < after.networks.len() ==> !(#[trigger] after.networks[i]).containers.contains(
                    id,
                )
            &&& forall|p: u16|
                after.forwards.contains_key(p) ==> (#[trigger] after.forwards[p]).container_id != id
            &&& runtime.step(session, event).1.lease is None
        }),
{
    let id = session.container.id;
    lemma_release_removes(runtime.network, id);
    match (session.phase, event) {
        (Phase::Binding, EventView::Bound(reports)) => {
            let (joined, address) = runtime.network.allocate(id);
            let (after, outcome) = joined.forward_all(id, session.container.ports, reports);
            lemma_release_removes(after, id);
        },
        _ => {},
    }
}

} // verus!
