//! The description of one container: what it runs, with which environment, volumes and
//! ports. A container is built once from an image and the user's overrides.

use vstd::prelude::*;
use vstd::string::*;
use crate::error::Error;
use crate::image::ImageData;
use crate::string_map::StringMap;
use crate::text::{split_first, split_once, views};

verus! {

/// The search path that a container gets unless its environment names another.
pub const DEFAULT_PATH: &'static str =
    "/usr/local/sbin:/usr/local/bin:/usr/sbin:/usr/bin:/sbin:/bin";

/// One line of a container listing.
#[derive(Debug)]
pub struct ContainerInfo {
    pub id: String,
    pub image: String,
    pub status: String,
}

/// A host path that is copied into the container's root.
#[derive(Debug)]
pub struct VolumeMount {
    pub host_path: String,
    pub container_path: String,
    pub read_only: bool,
}

/// A host port that is forwarded to a port of the container.
#[derive(Debug)]
pub struct PortMapping {
    pub host_port: u16,
    pub container_port: u16,
    pub protocol: String,
}

/// The network side of a container: its hostname and the ports it asks for.
#[derive(Debug)]
pub struct NetworkConfig {
    pub hostname: String,
    pub ports: Vec<PortMapping>,
}

/// A volume mount as plain values.
pub struct VolumeMountView {
    pub host_path: Seq<char>,
    pub container_path: Seq<char>,
    pub read_only: bool,
}

/// A port mapping as plain values.
pub struct PortMappingView {
    pub host_port: u16,
    pub container_port: u16,
    pub protocol: Seq<char>,
}

/// A container as plain values.
pub struct ContainerView {
    pub id: Seq<char>,
    pub image: ImageData,
    pub command: Option<Seq<Seq<char>>>,
    pub workdir: Option<Seq<char>>,
    pub env: Map<Seq<char>, Seq<char>>,
    pub volumes: Seq<VolumeMountView>,
    pub hostname: Seq<char>,
    pub ports: Seq<PortMappingView>,
}

impl View for VolumeMount {
    type V = VolumeMountView;

    open spec fn view(&self) -> VolumeMountView {
        VolumeMountView {
            host_path: self.host_path@,
            container_path: self.container_path@,
            read_only: self.read_only,
        }
    }
}

impl View for PortMapping {
    type V = PortMappingView;

    open spec fn view(&self) -> PortMappingView {
        PortMappingView {
            host_port: self.host_port,
            container_port: self.container_port,
            protocol: self.protocol@,
        }
    }
}

impl Clone for PortMapping {
    fn clone(&self) -> (r: Self)
        ensures
            r@ == self@,
    {
        PortMapping {
            host_port: self.host_port,
            container_port: self.container_port,
            protocol: self.protocol.clone(),
        }
    }
}

/// A copy of the port mappings, in order.
pub fn clone_ports(ports: &Vec<PortMapping>) -> (r: Vec<PortMapping>)
    ensures
        port_views(r@) == port_views(ports@),
{
    let mut copy: Vec<PortMapping> = Vec::new();
    let mut i: usize = 0;
    while i < ports.len()
        invariant
            i <= ports.len(),
            copy.len() == i,
            forall|j: int| 0 <= j < i ==> copy@[j]@ == ports@[j]@,
        decreases ports.len() - i,
    {
        copy.push(ports[i].clone());
        i += 1;
    }
    proof {
        assert(port_views(copy@) =~= port_views(ports@));
    }
    copy
}

/// The views of a sequence of volume mounts.
pub open spec fn volume_views(v: Seq<VolumeMount>) -> Seq<VolumeMountView> {
    v.map_values(|m: VolumeMount| m@)
}

/// The views of a sequence of port mappings.
pub open spec fn port_views(v: Seq<PortMapping>) -> Seq<PortMappingView> {
    v.map_values(|m: PortMapping| m@)
}

/// Whether `c` is a digit of lowercase hexadecimal.
pub open spec fn is_lower_hex(c: char) -> bool {
    ('0' <= c && c <= '9') || ('a' <= c && c <= 'f')
}

/// The shape of a UUID in its usual text form: 36 characters, of which the 9th, 14th,
/// 19th and 24th are hyphens and the others lowercase hexadecimal digits.
pub open spec fn is_uuid_text(s: Seq<char>) -> bool {
    &&& s.len() == 36
    &&& forall|i: int|
        0 <= i < 36 ==> if i == 8 || i == 13 || i == 18 || i == 23 {
            s[i] == '-'
        } else {
            is_lower_hex(#[trigger] s[i])
        }
}

/// The environment that every container starts from: its id as `HOSTNAME`, and the
/// default `PATH`.
pub open spec fn default_env(id: Seq<char>) -> Map<Seq<char>, Seq<char>> {
    Map::empty().insert("HOSTNAME"@, id).insert("PATH"@, DEFAULT_PATH@)
}

/// `base` after the entries have been applied in order. An entry `KEY=value` sets `KEY`
/// to everything behind its first `=`; an entry without `=` changes nothing.
pub open spec fn apply_env(base: Map<Seq<char>, Seq<char>>, entries: Seq<Seq<char>>) -> Map<
    Seq<char>,
    Seq<char>,
>
    decreases entries.len(),
{
    if entries.len() == 0 {
        base
    } else {
        let before = apply_env(base, entries.drop_last());
        match split_first(entries.last(), '=') {
            Some((key, value)) => before.insert(key, value),
            None => before,
        }
    }
}

/// The container that `with_id` builds from its arguments.
pub open spec fn container_model(
    id: Seq<char>,
    image: ImageData,
    command: Option<Vec<String>>,
    workdir: Option<String>,
    env: Seq<String>,
) -> ContainerView {
    ContainerView {
        id,
        image,
        command: match command {
            Some(args) => Some(views(args@)),
            None => None,
        },
        workdir: match workdir {
            Some(dir) => Some(dir@),
            None => None,
        },
        env: apply_env(default_env(id), views(env)),
        volumes: Seq::empty(),
        hostname: id,
        ports: Seq::empty(),
    }
}

/// An explicit entry wins: where `entries[i]` sets `key` to `value` and no later entry
/// sets `key`, the environment holds `value` under `key`, whatever `base` held there.
/// So `PATH=/custom` replaces the default `PATH`.
pub proof fn lemma_env_entry_overrides(
    base: Map<Seq<char>, Seq<char>>,
    entries: Seq<Seq<char>>,
    i: int,
    key: Seq<char>,
    value: Seq<char>,
)
    requires
        0 <= i < entries.len(),
        split_first(entries[i], '=') == Some((key, value)),
        forall|j: int|
            i < j < entries.len() ==> match split_first(#[trigger] entries[j], '=') {
                Some((k, _)) => k != key,
                None => true,
            },
    ensures
        apply_env(base, entries).contains_key(key),
        apply_env(base, entries)[key] == value,
    decreases entries.len(),
{
    let init = entries.drop_last();
    if i < entries.len() - 1 {
        assert(init[i] == entries[i]);
        assert forall|j: int| i < j < init.len() implies match split_first(
            #[trigger] init[j],
            '=',
        ) {
            Some((k, _)) => k != key,
            None => true,
        } by {
            assert(init[j] == entries[j]);
        }
        lemma_env_entry_overrides(base, init, i, key, value);
        let last = entries[entries.len() - 1];
        assert(last == entries.last());
    }
}

/// An entry that no explicit entry overrides keeps what `base` gave it: where no entry
/// sets `key`, the environment holds under `key` what `base` holds.
pub proof fn lemma_env_default_kept(
    base: Map<Seq<char>, Seq<char>>,
    entries: Seq<Seq<char>>,
    key: Seq<char>,
)
    requires
        forall|j: int|
            0 <= j < entries.len() ==> match split_first(#[trigger] entries[j], '=') {
                Some((k, _)) => k != key,
                None => true,
            },
    ensures
        apply_env(base, entries).contains_key(key) == base.contains_key(key),
        base.contains_key(key) ==> apply_env(base, entries)[key] == base[key],
    decreases entries.len(),
{
    if entries.len() > 0 {
        let init = entries.drop_last();
        assert forall|j: int| 0 <= j < init.len() implies match split_first(
            #[trigger] init[j],
            '=',
        ) {
            Some((k, _)) => k != key,
            None => true,
        } by {
            assert(init[j] == entries[j]);
        }
        lemma_env_default_kept(base, init, key);
        let last = entries[entries.len() - 1];
        assert(last == entries.last());
    }
}

/// One container instance.
#[derive(Debug)]
pub struct Container {
    id: String,
    image: ImageData,
    command: Option<Vec<String>>,
    workdir: Option<String>,
    env_vars: StringMap<String>,
    volumes: Vec<VolumeMount>,
    network_config: NetworkConfig,
}

impl View for Container {
    type V = ContainerView;

    closed spec fn view(&self) -> ContainerView {
        ContainerView {
            id: self.id@,
            image: self.image,
            command: match self.command {
                Some(args) => Some(views(args@)),
                None => None,
            },
            workdir: match self.workdir {
                Some(dir) => Some(dir@),
                None => None,
            },
            env: self.env_vars@,
            volumes: volume_views(self.volumes@),
            hostname: self.network_config.hostname@,
            ports: port_views(self.network_config.ports@),
        }
    }
}

/// A fresh container id: a random (version 4) UUID from `uuid::Uuid::new_v4`, in the
/// text form that `Uuid`'s `Display` writes. Which id comes is left open; only its shape
/// is claimed. The call panics if the operating system gives no random bytes.
#[verifier::external_body]
fn fresh_id() -> (id: String)
    ensures
        is_uuid_text(id@),
{
    uuid::Uuid::new_v4().to_string()
}

impl Container {
    /// A container of `image` under a fresh id. `command` overrides what the image
    /// runs, `workdir` narrows what it sees of its root, and `env` is applied over the
    /// default environment.
    pub fn new(
        image: ImageData,
        command: Option<Vec<String>>,
        workdir: Option<String>,
        env: Vec<String>,
    ) -> (r: Result<Self, Error>)
        ensures
            r is Ok,
            is_uuid_text(r.unwrap()@.id),
            r.unwrap()@ == container_model(r.unwrap()@.id, image, command, workdir, env@),
    {
        let id = fresh_id();
        Ok(Container::with_id(id, image, command, workdir, env))
    }

    /// A container of `image` under the given id.
    pub fn with_id(
        id: String,
        image: ImageData,
        command: Option<Vec<String>>,
        workdir: Option<String>,
        env: Vec<String>,
    ) -> (c: Self)
        ensures
            c@ == container_model(id@, image, command, workdir, env@),
    {
        let mut env_vars: StringMap<String> = StringMap::new();
        env_vars.insert("HOSTNAME".to_owned(), id.clone());
        env_vars.insert("PATH".to_owned(), DEFAULT_PATH.to_owned());
        let mut i: usize = 0;
        while i < env.len()
            invariant
                i <= env.len(),
                env_vars@ == apply_env(default_env(id@), views(env@).take(i as int)),
            decreases env.len() - i,
        {
            proof {
                let done = views(env@).take(i as int);
                let next = views(env@).take(i + 1);
                assert(next.drop_last() == done);
                assert(next.last() == env@[i as int]@);
            }
            match split_once(env[i].as_str(), '=') {
                Some((key, value)) => {
                    env_vars.insert(key, value);
                },
                None => {},
            }
            i += 1;
        }
        proof {
            assert(views(env@).take(env.len() as int) == views(env@));
        }
        let hostname = id.clone();
        let c = Container {
            id,
            image,
            command,
            workdir,
            env_vars,
            volumes: Vec::new(),
            network_config: NetworkConfig { hostname, ports: Vec::new() },
        };
        proof {
            assert(c@.volumes =~= Seq::empty());
            assert(c@.ports =~= Seq::empty());
        }
        c
    }

    /// The container's id.
    pub fn id(&self) -> (id: &str)
        ensures
            id@ == self@.id,
    {
        self.id.as_str()
    }

    /// The name of the image that the container is made from.
    pub fn image_name(&self) -> (name: &str)
        ensures
            name@ == self@.image.name@,
    {
        self.image.name.as_str()
    }

    /// The command that overrides the image's own, if one was given.
    pub fn command(&self) -> (r: Option<&Vec<String>>)
        ensures
            match r {
                Some(args) => self@.command == Some(views(args@)),
                None => self@.command is None,
            },
    {
        self.command.as_ref()
    }

    /// The working directory, if one was given.
    pub fn workdir(&self) -> (r: Option<&str>)
        ensures
            match r {
                Some(dir) => self@.workdir == Some(dir@),
                None => self@.workdir is None,
            },
    {
        match &self.workdir {
            Some(dir) => Some(dir.as_str()),
            None => None,
        }
    }

    /// The environment: each name once, with its value.
    pub fn env_vars(&self) -> (env: &StringMap<String>)
        ensures
            env@ == self@.env,
    {
        &self.env_vars
    }

    /// Adds a volume behind those already declared.
    pub fn add_volume(&mut self, host_path: String, container_path: String, read_only: bool)
        ensures
            final(self)@ == (ContainerView {
                volumes: old(self)@.volumes.push(
                    VolumeMountView {
                        host_path: host_path@,
                        container_path: container_path@,
                        read_only,
                    },
                ),
                ..old(self)@
            }),
    {
        proof {
            let mount = VolumeMount { host_path, container_path, read_only };
            assert(volume_views(self.volumes@.push(mount)) == volume_views(self.volumes@).push(
                mount@,
            ));
        }
        self.volumes.push(VolumeMount { host_path, container_path, read_only });
    }

    /// Adds a port mapping behind those already declared.
    pub fn add_port_mapping(&mut self, host_port: u16, container_port: u16, protocol: String)
        ensures
            final(self)@ == (ContainerView {
                ports: old(self)@.ports.push(
                    PortMappingView { host_port, container_port, protocol: protocol@ },
                ),
                ..old(self)@
            }),
    {
        proof {
            let mapping = PortMapping { host_port, container_port, protocol };
            assert(port_views(self.network_config.ports@.push(mapping)) == port_views(
                self.network_config.ports@,
            ).push(mapping@));
        }
        self.network_config.ports.push(PortMapping { host_port, container_port, protocol });
    }

    /// The declared volumes, in the order in which they were added.
    pub fn volumes(&self) -> (r: &[VolumeMount])
        ensures
            volume_views(r@) == self@.volumes,
    {
        self.volumes.as_slice()
    }

    /// The hostname and the declared ports.
    pub fn network_config(&self) -> (r: &NetworkConfig)
        ensures
            r.hostname@ == self@.hostname,
            port_views(r.ports@) == self@.ports,
    {
        &self.network_config
    }

    /// The image that the container is made from.
    pub fn image_data(&self) -> (r: &ImageData)
        ensures
            *r == self@.image,
    {
        &self.image
    }
}

} // verus!
