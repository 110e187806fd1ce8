//! Staging the root filesystem of a container.
//!
//! The library works out what has to be on disk; the host puts it there. A staged root
//! is described by steps: directories to create, files to write, archives to unpack and
//! host paths to copy in. Every path in a step is a path below the root, held as its
//! components, and none of them can lead out of the root.

use vstd::prelude::*;
use vstd::string::*;
use crate::container::{volume_views, Container, ContainerView, VolumeMountView};
use crate::error::Error;
use crate::image::Layer;
use crate::text::{
    chars_of, find_from, first_index_of, lemma_first_index_of, split_all, str_eq, views,
};

verus! {

/// What a sandboxed program reads as `/proc/cpuinfo`.
pub const CPUINFO: &'static str =
    "processor\t: 0\nvendor_id\t: WASM\nmodel name\t: WASM Container Runtime\n";

/// What a sandboxed program reads as `/proc/meminfo`.
pub const MEMINFO: &'static str = "MemTotal:        8388608 kB\nMemFree:         4194304 kB\n";

/// What a sandboxed program reads as `/etc/resolv.conf`.
pub const RESOLV_CONF: &'static str = "nameserver 8.8.8.8\nnameserver 8.8.4.4\n";

/// The lines of `/etc/hosts` before the container's own name.
pub const HOSTS_HEAD: &'static str = "127.0.0.1\tlocalhost\n127.0.1.1\t";

/// One thing that the host does to stage a root. Paths are below the root.
#[derive(Debug, PartialEq, Eq)]
pub enum StagingStep {
    /// Create the directory and every directory above it.
    CreateDir { path: Vec<String> },
    /// Write the file with these contents.
    WriteFile { path: Vec<String>, contents: String },
    /// Unpack the layer archive onto the root.
    Unpack { archive: String },
    /// Copy what lies at `host_path` to `path`: a directory with all that is in it, a
    /// file as it is, under directories that are created as needed.
    CopyIn { host_path: String, path: Vec<String> },
}

/// A staging step as plain values.
pub enum StagingStepView {
    CreateDir { path: Seq<Seq<char>> },
    WriteFile { path: Seq<Seq<char>>, contents: Seq<char> },
    Unpack { archive: Seq<char> },
    CopyIn { host_path: Seq<char>, path: Seq<Seq<char>> },
}

impl View for StagingStep {
    type V = StagingStepView;

    open spec fn view(&self) -> StagingStepView {
        match self {
            StagingStep::CreateDir { path } => StagingStepView::CreateDir { path: views(path@) },
            StagingStep::WriteFile { path, contents } => StagingStepView::WriteFile {
                path: views(path@),
                contents: contents@,
            },
            StagingStep::Unpack { archive } => StagingStepView::Unpack { archive: archive@ },
            StagingStep::CopyIn { host_path, path } => StagingStepView::CopyIn {
                host_path: host_path@,
                path: views(path@),
            },
        }
    }
}

/// The views of a sequence of steps.
pub open spec fn step_views(v: Seq<StagingStep>) -> Seq<StagingStepView> {
    v.map_values(|s: StagingStep| s@)
}

/// A component that names an entry of a directory: not empty, not `.` or `..`, and
/// without `/`.
pub open spec fn is_name(component: Seq<char>) -> bool {
    &&& component.len() > 0
    &&& component != "."@
    &&& component != ".."@
    &&& !component.contains('/')
}

/// A path that stays below the root: each of its components names an entry.
pub open spec fn confined(path: Seq<Seq<char>>) -> bool {
    forall|i: int| 0 <= i < path.len() ==> is_name(#[trigger] path[i])
}

/// The path so far after one more piece: an empty piece and `.` change nothing, `..`
/// goes one up but never above the root, and a name goes one down.
pub open spec fn resolve_step(path: Seq<Seq<char>>, piece: Seq<char>) -> Seq<Seq<char>> {
    if piece.len() == 0 || piece == "."@ {
        path
    } else if piece == ".."@ {
        if path.len() > 0 {
            path.drop_last()
        } else {
            path
        }
    } else {
        path.push(piece)
    }
}

/// The path so far after the pieces, taken in order.
pub open spec fn resolve(path: Seq<Seq<char>>, pieces: Seq<Seq<char>>) -> Seq<Seq<char>>
    decreases pieces.len(),
{
    if pieces.len() == 0 {
        path
    } else {
        resolve(resolve_step(path, pieces[0]), pieces.drop_first())
    }
}

/// A path as it is found from the root: cut at every `/` and resolved from the root,
/// so that a leading `/` counts for nothing and `..` cannot climb out.
pub open spec fn normalized(path: Seq<char>) -> Seq<Seq<char>> {
    resolve(Seq::empty(), split_all(path, '/'))
}

/// The step that a step of the host's view refers to below the root, if any.
pub open spec fn step_path(step: StagingStepView) -> Seq<Seq<char>> {
    match step {
        StagingStepView::CreateDir { path } => path,
        StagingStepView::WriteFile { path, .. } => path,
        StagingStepView::Unpack { .. } => Seq::empty(),
        StagingStepView::CopyIn { path, .. } => path,
    }
}

/// The step that creates the directory at `path`.
pub open spec fn create_dir(path: Seq<char>) -> StagingStepView {
    StagingStepView::CreateDir { path: normalized(path) }
}

/// The step that writes `contents` to the file at `path`.
pub open spec fn write_file(path: Seq<char>, contents: Seq<char>) -> StagingStepView {
    StagingStepView::WriteFile { path: normalized(path), contents }
}

/// The directory skeleton of every root: the top-level directories, then those under
/// `usr`, then those under `var`.
pub open spec fn base_directories() -> Seq<StagingStepView> {
    seq![
        create_dir("bin"@),
        create_dir("boot"@),
        create_dir("dev"@),
        create_dir("etc"@),
        create_dir("home"@),
        create_dir("lib"@),
        create_dir("lib64"@),
        create_dir("media"@),
        create_dir("mnt"@),
        create_dir("opt"@),
        create_dir("proc"@),
        create_dir("root"@),
        create_dir("run"@),
        create_dir("sbin"@),
        create_dir("srv"@),
        create_dir("sys"@),
        create_dir("tmp"@),
        create_dir("usr"@),
        create_dir("var"@),
        create_dir("usr/bin"@),
        create_dir("usr/sbin"@),
        create_dir("usr/lib"@),
        create_dir("usr/lib64"@),
        create_dir("usr/local"@),
        create_dir("usr/share"@),
        create_dir("usr/include"@),
        create_dir("var/log"@),
        create_dir("var/cache"@),
        create_dir("var/lib"@),
        create_dir("var/run"@),
        create_dir("var/tmp"@),
    ]
}

/// The files that stand for process information.
pub open spec fn proc_files() -> Seq<StagingStepView> {
    seq![write_file("proc/cpuinfo"@, CPUINFO@), write_file("proc/meminfo"@, MEMINFO@)]
}

/// The files that tell a container its name servers, its own name and its hosts. The
/// hostname file holds the container's id and nothing else.
pub open spec fn name_files(id: Seq<char>) -> Seq<StagingStepView> {
    seq![
        write_file("etc/resolv.conf"@, RESOLV_CONF@),
        write_file("etc/hostname"@, id),
        write_file("etc/hosts"@, HOSTS_HEAD@ + id + "\n"@),
    ]
}

/// The placeholders for the usual device paths: empty files, which give a program a
/// path to find and nothing behind it.
pub open spec fn device_nodes() -> Seq<StagingStepView> {
    seq![
        write_file("dev/null"@, Seq::empty()),
        write_file("dev/zero"@, Seq::empty()),
        write_file("dev/random"@, Seq::empty()),
        write_file("dev/urandom"@, Seq::empty()),
        write_file("dev/tty"@, Seq::empty()),
        write_file("dev/console"@, Seq::empty()),
    ]
}

/// The base tree of the root of container `id`: the skeleton, then the files for
/// process information, then the name files.
pub open spec fn base_tree(id: Seq<char>) -> Seq<StagingStepView> {
    base_directories() + proc_files() + name_files(id)
}

/// No piece of a string cut at `sep` holds `sep`.
pub proof fn lemma_split_all_pieces(s: Seq<char>, sep: char)
    ensures
        forall|i: int|
            0 <= i < split_all(s, sep).len() ==> !(#[trigger] split_all(s, sep)[i]).contains(sep),
    decreases s.len(),
{
    lemma_first_index_of(s, sep);
    let i = first_index_of(s, sep);
    if i < s.len() {
        lemma_split_all_pieces(s.skip(i + 1), sep);
        let rest = split_all(s.skip(i + 1), sep);
        assert forall|k: int| 0 <= k < split_all(s, sep).len() implies !(#[trigger] split_all(
            s,
            sep,
        )[k]).contains(sep) by {
            if k == 0 {
                let head = s.take(i);
                if head.contains(sep) {
                    let j = choose|j: int| 0 <= j < head.len() && head[j] == sep;
                    assert(s[j] == sep);
                }
            } else {
                assert(split_all(s, sep)[k] == rest[k - 1]);
            }
        }
    } else {
        if s.contains(sep) {
            let j = choose|j: int| 0 <= j < s.len() && s[j] == sep;
            assert(s[j] == sep);
        }
    }
}

/// Resolving pieces without `/` from a confined path gives a confined path.
pub proof fn lemma_resolve_confined(path: Seq<Seq<char>>, pieces: Seq<Seq<char>>)
    requires
        confined(path),
        forall|i: int| 0 <= i < pieces.len() ==> !(#[trigger] pieces[i]).contains('/'),
    ensures
        confined(resolve(path, pieces)),
    decreases pieces.len(),
{
    if pieces.len() > 0 {
        let next = resolve_step(path, pieces[0]);
        assert(confined(next)) by {
            assert forall|i: int| 0 <= i < next.len() implies is_name(#[trigger] next[i]) by {
                if i < path.len() {
                    assert(is_name(path[i]));
                }
            }
        }
        let rest = pieces.drop_first();
        assert forall|i: int| 0 <= i < rest.len() implies !(#[trigger] rest[i]).contains('/') by {
            assert(rest[i] == pieces[i + 1]);
        }
        lemma_resolve_confined(next, rest);
    }
}

/// Whatever the path, its normal form stays below the root.
pub proof fn lemma_normalized_confined(path: Seq<char>)
    ensures
        confined(normalized(path)),
{
    lemma_split_all_pieces(path, '/');
    lemma_resolve_confined(Seq::empty(), split_all(path, '/'));
}

/// Every step of a base tree, and every device node, lies below the root.
pub proof fn lemma_plans_confined(id: Seq<char>)
    ensures
        forall|i: int|
            0 <= i < base_tree(id).len() ==> confined(step_path(#[trigger] base_tree(id)[i])),
        forall|i: int|
            0 <= i < device_nodes().len() ==> confined(step_path(#[trigger] device_nodes()[i])),
{
    assert forall|i: int| 0 <= i < base_tree(id).len() implies confined(
        step_path(#[trigger] base_tree(id)[i]),
    ) by {
        let step = base_tree(id)[i];
        match step {
            StagingStepView::CreateDir { path } => {
                lemma_created_normalized(base_directories(), i);
            },
            StagingStepView::WriteFile { path, contents } => {
                let files = proc_files() + name_files(id);
                assert(step == files[i - base_directories().len()]);
                lemma_written_normalized(files, i - base_directories().len());
            },
            _ => {},
        }
    }
    assert forall|i: int| 0 <= i < device_nodes().len() implies confined(
        step_path(#[trigger] device_nodes()[i]),
    ) by {
        lemma_written_normalized(device_nodes(), i);
    }
}

proof fn lemma_created_normalized(steps: Seq<StagingStepView>, i: int)
    requires
        0 <= i < steps.len(),
        exists|text: Seq<char>| steps[i] == create_dir(text),
    ensures
        confined(step_path(steps[i])),
{
    let text = choose|text: Seq<char>| steps[i] == create_dir(text);
    lemma_normalized_confined(text);
}

proof fn lemma_written_normalized(steps: Seq<StagingStepView>, i: int)
    requires
        0 <= i < steps.len(),
        exists|text: Seq<char>, contents: Seq<char>| steps[i] == write_file(text, contents),
    ensures
        confined(step_path(steps[i])),
{
    let (text, contents) = choose|text: Seq<char>, contents: Seq<char>|
        steps[i] == write_file(text, contents);
    lemma_normalized_confined(text);
}

/// Nothing that staging does reaches out of the root: every step of a staging plan
/// lies below it, wherever the declared container paths point.
pub proof fn lemma_staging_plan_confined(container: ContainerView)
    ensures
        forall|i: int|
            0 <= i < staging_plan(container).len() ==> confined(
                step_path(#[trigger] staging_plan(container)[i]),
            ),
{
    let base = base_tree(container.id);
    let layers = container.image.layers@.map_values(|l: Layer| unpack_layer(l));
    let volumes = container.volumes.map_values(|v: VolumeMountView| copy_volume(v));
    lemma_plans_confined(container.id);
    assert forall|i: int| 0 <= i < staging_plan(container).len() implies confined(
        step_path(#[trigger] staging_plan(container)[i]),
    ) by {
        if i < base.len() {
            assert(staging_plan(container)[i] == base[i]);
        } else if i < base.len() + layers.len() {
            assert(staging_plan(container)[i] == layers[i - base.len()]);
        } else {
            let k = i - base.len() - layers.len();
            assert(staging_plan(container)[i] == volumes[k]);
            lemma_normalized_confined(container.volumes[k].container_path);
        }
    }
}

/// The components of `path` as it is found from the root.
pub fn normalize(path: &str) -> (r: Vec<String>)
    ensures
        views(r@) == normalized(path@),
        confined(views(r@)),
{
    let chars = chars_of(path);
    let mut parts: Vec<String> = Vec::new();
    let mut start: usize = 0;
    proof {
        assert(path@.skip(0) =~= path@);
        assert(views(parts@) =~= Seq::empty());
    }
    loop
        invariant_except_break
            resolve(views(parts@), split_all(path@.skip(start as int), '/')) == normalized(path@),
        invariant
            chars@ == path@,
            start <= chars.len(),
        ensures
            views(parts@) == normalized(path@),
        decreases chars.len() - start,
    {
        let end = find_from(&chars, start, '/');
        let piece = path.substring_char(start, end);
        let ghost before = views(parts@);
        let ghost tail = path@.skip(start as int);
        proof {
            reveal_strlit(".");
            reveal_strlit("..");
            assert(piece@ =~= tail.take(end - start));
        }
        if str_eq(piece, "..") {
            if parts.len() > 0 {
                parts.pop();
                proof {
                    assert(views(parts@) =~= before.drop_last());
                }
            }
        } else if !str_eq(piece, ".") && end > start {
            parts.push(piece.to_owned());
            proof {
                assert(views(parts@) =~= before.push(piece@));
            }
        }
        proof {
            assert(views(parts@) == resolve_step(before, piece@));
        }
        if end >= chars.len() {
            proof {
                let pieces = split_all(tail, '/');
                assert(pieces =~= seq![tail]);
                assert(pieces.drop_first() =~= Seq::empty());
                assert(resolve(resolve_step(before, pieces[0]), pieces.drop_first())
                    == resolve_step(before, piece@));
            }
            break ;
        }
        proof {
            let pieces = split_all(tail, '/');
            assert(tail.skip(end - start + 1) =~= path@.skip(end + 1));
            assert(pieces[0] == piece@);
            assert(pieces.drop_first() =~= split_all(path@.skip(end + 1), '/'));
        }
        start = end + 1;
    }
    proof {
        lemma_normalized_confined(path@);
    }
    parts
}

/// The step that unpacks `layer`.
pub open spec fn unpack_layer(layer: Layer) -> StagingStepView {
    StagingStepView::Unpack { archive: layer.path@ }
}

/// The step that copies `volume` in: to its container path as it is found from the
/// root.
pub open spec fn copy_volume(volume: VolumeMountView) -> StagingStepView {
    StagingStepView::CopyIn {
        host_path: volume.host_path,
        path: normalized(volume.container_path),
    }
}

/// All that staging the root of `container` takes, in order: the base tree, the
/// image's layers from the lowest up, and the declared volumes.
pub open spec fn staging_plan(container: ContainerView) -> Seq<StagingStepView> {
    base_tree(container.id) + container.image.layers@.map_values(|l: Layer| unpack_layer(l))
        + container.volumes.map_values(|v: VolumeMountView| copy_volume(v))
}

/// Adds the step that creates the directory at `path`.
fn push_dir(steps: &mut Vec<StagingStep>, path: &str)
    ensures
        step_views(final(steps)@) == step_views(old(steps)@).push(create_dir(path@)),
{
    let step = StagingStep::CreateDir { path: normalize(path) };
    proof {
        assert(step_views(steps@.push(step)) =~= step_views(steps@).push(step@));
    }
    steps.push(step);
}

/// Adds the step that writes `contents` to the file at `path`.
fn push_file(steps: &mut Vec<StagingStep>, path: &str, contents: String)
    ensures
        step_views(final(steps)@) == step_views(old(steps)@).push(write_file(path@, contents@)),
{
    let step = StagingStep::WriteFile { path: normalize(path), contents };
    proof {
        assert(step_views(steps@.push(step)) =~= step_views(steps@).push(step@));
    }
    steps.push(step);
}

/// Adds the directory skeleton to `steps`.
fn push_base_directories(steps: &mut Vec<StagingStep>)
    ensures
        step_views(final(steps)@) == step_views(old(steps)@) + base_directories(),
{
    let ghost before = step_views(steps@);
    push_dir(steps, "bin");
    push_dir(steps, "boot");
    push_dir(steps, "dev");
    push_dir(steps, "etc");
    push_dir(steps, "home");
    push_dir(steps, "lib");
    push_dir(steps, "lib64");
    push_dir(steps, "media");
    push_dir(steps, "mnt");
    push_dir(steps, "opt");
    push_dir(steps, "proc");
    push_dir(steps, "root");
    push_dir(steps, "run");
    push_dir(steps, "sbin");
    push_dir(steps, "srv");
    push_dir(steps, "sys");
    push_dir(steps, "tmp");
    push_dir(steps, "usr");
    push_dir(steps, "var");
    push_dir(steps, "usr/bin");
    push_dir(steps, "usr/sbin");
    push_dir(steps, "usr/lib");
    push_dir(steps, "usr/lib64");
    push_dir(steps, "usr/local");
    push_dir(steps, "usr/share");
    push_dir(steps, "usr/include");
    push_dir(steps, "var/log");
    push_dir(steps, "var/cache");
    push_dir(steps, "var/lib");
    push_dir(steps, "var/run");
    push_dir(steps, "var/tmp");
    proof {
        assert(step_views(steps@) =~= before + base_directories());
    }
}

/// Adds the files that stand for process information to `steps`.
fn push_proc_files(steps: &mut Vec<StagingStep>)
    ensures
        step_views(final(steps)@) == step_views(old(steps)@) + proc_files(),
{
    let ghost before = step_views(steps@);
    push_file(steps, "proc/cpuinfo", CPUINFO.to_owned());
    push_file(steps, "proc/meminfo", MEMINFO.to_owned());
    proof {
        assert(step_views(steps@) =~= before + proc_files());
    }
}

/// Adds the name files to `steps`.
fn push_name_files(steps: &mut Vec<StagingStep>, id: &str)
    ensures
        step_views(final(steps)@) == step_views(old(steps)@) + name_files(id@),
{
    let ghost before = step_views(steps@);
    push_file(steps, "etc/resolv.conf", RESOLV_CONF.to_owned());
    push_file(steps, "etc/hostname", id.to_owned());
    let mut hosts = HOSTS_HEAD.to_owned();
    hosts.append(id);
    hosts.append("\n");
    push_file(steps, "etc/hosts", hosts);
    proof {
        assert(step_views(steps@) =~= before + name_files(id@));
    }
}

/// The staged root of one container: whose it is, where it lies on the host, and which
/// layers have been applied to it, lowest first.
#[derive(Debug)]
pub struct Filesystem {
    container_id: String,
    rootfs: String,
    layers: Vec<String>,
}

/// A staged root as plain values.
pub struct FilesystemView {
    pub container_id: Seq<char>,
    pub rootfs: Seq<char>,
    pub layers: Seq<Seq<char>>,
}

impl View for Filesystem {
    type V = FilesystemView;

    closed spec fn view(&self) -> FilesystemView {
        FilesystemView {
            container_id: self.container_id@,
            rootfs: self.rootfs@,
            layers: views(self.layers@),
        }
    }
}

impl Filesystem {
    /// The root of `container`, which the host has made room for at `rootfs`. No layer
    /// is applied yet.
    pub fn new(container: &Container, rootfs: String) -> (r: Result<Self, Error>)
        ensures
            r is Ok,
            r.unwrap()@ == (FilesystemView {
                container_id: container@.id,
                rootfs: rootfs@,
                layers: Seq::empty(),
            }),
    {
        let fs = Filesystem {
            container_id: container.id().to_owned(),
            rootfs,
            layers: Vec::new(),
        };
        proof {
            assert(fs@.layers =~= Seq::empty());
        }
        Ok(fs)
    }

    /// The base tree: what to create and write before any layer is applied.
    pub fn setup(&self) -> (r: Result<Vec<StagingStep>, Error>)
        ensures
            r is Ok,
            step_views(r.unwrap()@) == base_tree(self@.container_id),
    {
        let mut steps: Vec<StagingStep> = Vec::new();
        proof {
            assert(step_views(steps@) =~= Seq::empty());
        }
        self.create_base_directories(&mut steps);
        self.mount_proc_sys(&mut steps);
        self.setup_resolv_conf(&mut steps);
        Ok(steps)
    }

    /// Where the root lies on the host.
    pub fn rootfs_path(&self) -> (path: &str)
        ensures
            path@ == self@.rootfs,
    {
        self.rootfs.as_str()
    }

    /// The layers applied so far, lowest first.
    pub fn layers(&self) -> (r: &Vec<String>)
        ensures
            views(r@) == self@.layers,
    {
        &self.layers
    }

    /// Adds the directory skeleton to `steps`.
    pub fn create_base_directories(&self, steps: &mut Vec<StagingStep>)
        ensures
            step_views(final(steps)@) == step_views(old(steps)@) + base_directories(),
    {
        push_base_directories(steps);
    }

    /// Adds the files that stand for process information to `steps`.
    pub fn mount_proc_sys(&self, steps: &mut Vec<StagingStep>)
        ensures
            step_views(final(steps)@) == step_views(old(steps)@) + proc_files(),
    {
        push_proc_files(steps);
    }

    /// Adds the name files to `steps`.
    pub fn setup_resolv_conf(&self, steps: &mut Vec<StagingStep>)
        ensures
            step_views(final(steps)@) == step_views(old(steps)@) + name_files(
                self@.container_id,
            ),
    {
        push_name_files(steps, self.container_id.as_str());
    }

    /// Records what came of unpacking the layer at `layer_path` onto the root. A layer
    /// that was unpacked is added to the applied layers; one that was not is a staging
    /// failure, and nothing is recorded. Layers are applied from the lowest up.
    pub fn extract_layer(&mut self, layer_path: &str, unpacked: bool) -> (r: Result<(), Error>)
        ensures
            unpacked ==> r is Ok && final(self)@ == (FilesystemView {
                layers: old(self)@.layers.push(layer_path@),
                ..old(self)@
            }),
            !unpacked ==> r == Err::<(), Error>(Error::Staging) && final(self)@ == old(self)@,
    {
        if !unpacked {
            return Err(Error::Staging);
        }
        let layer = layer_path.to_owned();
        proof {
            assert(views(self.layers@.push(layer)) =~= views(self.layers@).push(layer_path@));
        }
        self.layers.push(layer);
        Ok(())
    }

    /// The placeholders for the usual device paths.
    pub fn create_device_nodes(&self) -> (r: Result<Vec<StagingStep>, Error>)
        ensures
            r is Ok,
            step_views(r.unwrap()@) == device_nodes(),
    {
        let mut steps: Vec<StagingStep> = Vec::new();
        push_file(&mut steps, "dev/null", String::new());
        push_file(&mut steps, "dev/zero", String::new());
        push_file(&mut steps, "dev/random", String::new());
        push_file(&mut steps, "dev/urandom", String::new());
        push_file(&mut steps, "dev/tty", String::new());
        push_file(&mut steps, "dev/console", String::new());
        proof {
            assert(step_views(steps@) =~= device_nodes());
        }
        Ok(steps)
    }

    /// The step that copies `host_path` into the root at `container_path`. Wherever
    /// the container path points, the copy lands below the root.
    pub fn mount_volume(&self, host_path: &str, container_path: &str) -> (r: Result<
        StagingStep,
        Error,
    >)
        ensures
            r is Ok,
            r.unwrap()@ == copy_volume(
                VolumeMountView {
                    host_path: host_path@,
                    container_path: container_path@,
                    read_only: false,
                },
            ),
            confined(step_path(r.unwrap()@)),
    {
        Ok(StagingStep::CopyIn { host_path: host_path.to_owned(), path: normalize(container_path) })
    }

}

/// All that staging the root of `container` takes, in order.
pub fn plan_staging(container: &Container) -> (r: Vec<StagingStep>)
    ensures
        step_views(r@) == staging_plan(container@),
{
    let mut steps: Vec<StagingStep> = Vec::new();
    proof {
        assert(step_views(steps@) =~= Seq::empty());
    }
    push_base_directories(&mut steps);
    push_proc_files(&mut steps);
    push_name_files(&mut steps, container.id());
    let ghost base = step_views(steps@);
    let layers = &container.image_data().layers;
    let mut i: usize = 0;
    while i < layers.len()
        invariant
            i <= layers.len(),
            step_views(steps@) == base + layers@.take(i as int).map_values(
                |l: Layer| unpack_layer(l),
            ),
        decreases layers.len() - i,
    {
        let step = StagingStep::Unpack { archive: layers[i].path.clone() };
        proof {
            assert(step_views(steps@.push(step)) =~= step_views(steps@).push(step@));
            assert(layers@.take(i + 1).map_values(|l: Layer| unpack_layer(l)) =~= layers@.take(
                i as int,
            ).map_values(|l: Layer| unpack_layer(l)).push(unpack_layer(layers@[i as int])));
        }
        steps.push(step);
        i += 1;
    }
    let ghost layered = step_views(steps@);
    let volumes = container.volumes();
    let mut j: usize = 0;
    while j < volumes.len()
        invariant
            j <= volumes.len(),
            step_views(steps@) == layered + volume_views(volumes@).take(j as int).map_values(
                |v: VolumeMountView| copy_volume(v),
            ),
        decreases volumes.len() - j,
    {
        let step = StagingStep::CopyIn {
            host_path: volumes[j].host_path.clone(),
            path: normalize(volumes[j].container_path.as_str()),
        };
        proof {
            let mounts = volume_views(volumes@);
            assert(step@ == copy_volume(mounts[j as int]));
            assert(step_views(steps@.push(step)) =~= step_views(steps@).push(step@));
            assert(mounts.take(j + 1).map_values(|v: VolumeMountView| copy_volume(v))
                =~= mounts.take(j as int).map_values(|v: VolumeMountView| copy_volume(v)).push(
                copy_volume(mounts[j as int]),
            ));
        }
        steps.push(step);
        j += 1;
    }
    proof {
        assert(layers@.take(layers.len() as int) =~= layers@);
        assert(volume_views(volumes@).take(volumes.len() as int) =~= volume_views(volumes@));
    }
    steps
}

} // verus!
