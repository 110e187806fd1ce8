use wasm_container::container::Container;
use wasm_container::error::Error;
use wasm_container::filesystem::{
    normalize, plan_staging, Filesystem, StagingStep, CPUINFO, MEMINFO, RESOLV_CONF,
};
use wasm_container::image::{ImageConfig, ImageData, Layer};
use wasm_container::string_map::StringMap;

fn layer(path: &str) -> Layer {
    Layer {
        digest: "sha256:x".to_string(),
        size: 1,
        media_type: "application/vnd.oci.image.layer.v1.tar+gzip".to_string(),
        path: path.to_string(),
    }
}

fn container(id: &str, layers: Vec<Layer>) -> Container {
    let image = ImageData {
        name: "img".to_string(),
        tag: "latest".to_string(),
        layers,
        config: ImageConfig {
            env: vec![],
            cmd: vec![],
            entrypoint: vec![],
            workdir: "/".to_string(),
            exposed_ports: StringMap::new(),
            volumes: StringMap::new(),
        },
        wasm_path: None,
    };
    Container::with_id(id.to_string(), image, None, None, vec![])
}

fn path(parts: &[&str]) -> Vec<String> {
    parts.iter().map(|p| p.to_string()).collect()
}

fn file(parts: &[&str], contents: &str) -> StagingStep {
    StagingStep::WriteFile { path: path(parts), contents: contents.to_string() }
}

#[test]
fn hostname_file_holds_the_container_id() {
    let fs = Filesystem::new(&container("abc", vec![]), "/tmp/root".to_string()).unwrap();
    let steps = fs.setup().unwrap();
    assert!(steps.contains(&file(&["etc", "hostname"], "abc")));
    let hostnames: Vec<&StagingStep> = steps
        .iter()
        .filter(|s| matches!(s, StagingStep::WriteFile { path: p, .. } if *p == path(&["etc", "hostname"])))
        .collect();
    assert_eq!(hostnames.len(), 1);
}

#[test]
fn base_tree_is_skeleton_then_files() {
    let fs = Filesystem::new(&container("abc", vec![]), "/tmp/root".to_string()).unwrap();
    assert_eq!(fs.rootfs_path(), "/tmp/root");
    let steps = fs.setup().unwrap();
    assert_eq!(steps.len(), 36);
    assert_eq!(steps[0], StagingStep::CreateDir { path: path(&["bin"]) });
    assert_eq!(steps[18], StagingStep::CreateDir { path: path(&["var"]) });
    assert_eq!(steps[19], StagingStep::CreateDir { path: path(&["usr", "bin"]) });
    assert_eq!(steps[25], StagingStep::CreateDir { path: path(&["usr", "include"]) });
    assert_eq!(steps[30], StagingStep::CreateDir { path: path(&["var", "tmp"]) });
    assert_eq!(steps[31], file(&["proc", "cpuinfo"], CPUINFO));
    assert_eq!(steps[32], file(&["proc", "meminfo"], MEMINFO));
    assert_eq!(steps[33], file(&["etc", "resolv.conf"], RESOLV_CONF));
    assert_eq!(steps[34], file(&["etc", "hostname"], "abc"));
    assert_eq!(steps[35], file(&["etc", "hosts"], "127.0.0.1\tlocalhost\n127.0.1.1\tabc\n"));
    assert_eq!(RESOLV_CONF, "nameserver 8.8.8.8\nnameserver 8.8.4.4\n");
    assert_eq!(MEMINFO, "MemTotal:        8388608 kB\nMemFree:         4194304 kB\n");
    assert_eq!(
        CPUINFO,
        "processor\t: 0\nvendor_id\t: WASM\nmodel name\t: WASM Container Runtime\n"
    );
}

#[test]
fn base_tree_parts_add_to_what_is_there() {
    let fs = Filesystem::new(&container("abc", vec![]), "/r".to_string()).unwrap();
    let mut steps = vec![StagingStep::Unpack { archive: "x".to_string() }];
    fs.create_base_directories(&mut steps);
    assert_eq!(steps.len(), 32);
    fs.mount_proc_sys(&mut steps);
    assert_eq!(steps.len(), 34);
    fs.setup_resolv_conf(&mut steps);
    assert_eq!(steps.len(), 37);
    assert_eq!(steps[0], StagingStep::Unpack { archive: "x".to_string() });
}

#[test]
fn device_nodes_are_empty_files() {
    let fs = Filesystem::new(&container("abc", vec![]), "/r".to_string()).unwrap();
    let steps = fs.create_device_nodes().unwrap();
    let expected: Vec<StagingStep> = ["null", "zero", "random", "urandom", "tty", "console"]
        .iter()
        .map(|n| file(&["dev", n], ""))
        .collect();
    assert_eq!(steps, expected);
}

#[test]
fn paths_are_found_from_the_root() {
    assert_eq!(normalize("/data"), path(&["data"]));
    assert_eq!(normalize("data/sub"), path(&["data", "sub"]));
    assert_eq!(normalize("//a///b/"), path(&["a", "b"]));
    assert_eq!(normalize("/a/./b"), path(&["a", "b"]));
    assert_eq!(normalize("/a/../b"), path(&["b"]));
    assert_eq!(normalize("/"), path(&[]));
    assert_eq!(normalize(""), path(&[]));
    assert_eq!(normalize("..."), path(&["..."]));
}

#[test]
fn paths_cannot_climb_out_of_the_root() {
    assert_eq!(normalize("../../etc/passwd"), path(&["etc", "passwd"]));
    assert_eq!(normalize("/a/../../.."), path(&[]));
    assert_eq!(normalize("/a/b/../../../c"), path(&["c"]));
    let fs = Filesystem::new(&container("abc", vec![]), "/r".to_string()).unwrap();
    assert_eq!(
        fs.mount_volume("/host/data", "/../../outside").unwrap(),
        StagingStep::CopyIn { host_path: "/host/data".to_string(), path: path(&["outside"]) }
    );
}

#[test]
fn volume_is_copied_to_its_container_path() {
    let fs = Filesystem::new(&container("abc", vec![]), "/r".to_string()).unwrap();
    assert_eq!(
        fs.mount_volume("/host/data", "/var/data").unwrap(),
        StagingStep::CopyIn { host_path: "/host/data".to_string(), path: path(&["var", "data"]) }
    );
}

#[test]
fn applied_layers_are_kept_in_order() {
    let mut fs = Filesystem::new(&container("abc", vec![]), "/r".to_string()).unwrap();
    assert!(fs.layers().is_empty());
    assert_eq!(fs.extract_layer("/l/1.tar.gz", true), Ok(()));
    assert_eq!(fs.extract_layer("/l/2.tar.gz", false), Err(Error::Staging));
    assert_eq!(fs.extract_layer("/l/3.tar.gz", true), Ok(()));
    assert_eq!(fs.layers(), &vec!["/l/1.tar.gz".to_string(), "/l/3.tar.gz".to_string()]);
}

#[test]
fn staging_plan_is_base_tree_layers_volumes() {
    let mut c = container("abc", vec![layer("/l/1.tar.gz"), layer("/l/2.tar.gz")]);
    c.add_volume("/host/a".to_string(), "/mnt/a".to_string(), false);
    c.add_volume("/host/b".to_string(), "../b".to_string(), true);
    let steps = plan_staging(&c);
    let fs = Filesystem::new(&c, "/r".to_string()).unwrap();
    let base = fs.setup().unwrap();
    assert_eq!(steps.len(), base.len() + 4);
    assert_eq!(&steps[..base.len()], &base[..]);
    assert_eq!(steps[36], StagingStep::Unpack { archive: "/l/1.tar.gz".to_string() });
    assert_eq!(steps[37], StagingStep::Unpack { archive: "/l/2.tar.gz".to_string() });
    assert_eq!(
        steps[38],
        StagingStep::CopyIn { host_path: "/host/a".to_string(), path: path(&["mnt", "a"]) }
    );
    assert_eq!(
        steps[39],
        StagingStep::CopyIn { host_path: "/host/b".to_string(), path: path(&["b"]) }
    );
}
