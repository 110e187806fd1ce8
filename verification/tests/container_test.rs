use wasm_container::container::{Container, DEFAULT_PATH};
use wasm_container::error::Error;
use wasm_container::image::{ImageConfig, ImageData, ImageManager};
use wasm_container::string_map::StringMap;
use wasm_container::text::split_once;

fn image() -> ImageData {
    ImageData {
        name: "img".to_string(),
        tag: "latest".to_string(),
        layers: vec![],
        config: ImageConfig {
            env: vec![],
            cmd: vec!["/bin/sh".to_string()],
            entrypoint: vec![],
            workdir: "/".to_string(),
            exposed_ports: StringMap::new(),
            volumes: StringMap::new(),
        },
        wasm_path: None,
    }
}

fn with_env(env: &[&str]) -> Container {
    Container::with_id(
        "abc".to_string(),
        image(),
        None,
        None,
        env.iter().map(|e| e.to_string()).collect(),
    )
}

#[test]
fn env_entry_overrides_default_path() {
    let c = with_env(&["PATH=/custom"]);
    assert_eq!(c.env_vars().get("PATH").map(|s| s.as_str()), Some("/custom"));
    assert_eq!(c.env_vars().get("HOSTNAME").map(|s| s.as_str()), Some("abc"));
    assert_eq!(c.env_vars().len(), 2);
}

#[test]
fn default_env_holds_hostname_and_path() {
    let c = with_env(&[]);
    assert_eq!(c.env_vars().get("PATH").map(|s| s.as_str()), Some(DEFAULT_PATH));
    assert_eq!(
        DEFAULT_PATH,
        "/usr/local/sbin:/usr/local/bin:/usr/sbin:/usr/bin:/sbin:/bin"
    );
    assert_eq!(c.env_vars().get("HOSTNAME").map(|s| s.as_str()), Some("abc"));
    assert!(c.env_vars().get("OTHER").is_none());
}

#[test]
fn later_env_entry_wins_and_keeps_first_place() {
    let c = with_env(&["A=1", "B=2", "A=3"]);
    assert_eq!(c.env_vars().get("A").map(|s| s.as_str()), Some("3"));
    let keys: Vec<&str> = c.env_vars().entries().iter().map(|e| e.0.as_str()).collect();
    assert_eq!(keys, vec!["HOSTNAME", "PATH", "A", "B"]);
}

#[test]
fn env_entry_is_cut_at_first_equals_sign() {
    let c = with_env(&["K=a=b", "NOVALUE", "E="]);
    assert_eq!(c.env_vars().get("K").map(|s| s.as_str()), Some("a=b"));
    assert!(!c.env_vars().contains_key("NOVALUE"));
    assert_eq!(c.env_vars().get("E").map(|s| s.as_str()), Some(""));
}

#[test]
fn split_once_cuts_at_first_separator() {
    assert_eq!(split_once("a=b=c", '='), Some(("a".to_string(), "b=c".to_string())));
    assert_eq!(split_once("=x", '='), Some(("".to_string(), "x".to_string())));
    assert_eq!(split_once("abc", '='), None);
    assert_eq!(split_once("é=ü", '='), Some(("é".to_string(), "ü".to_string())));
}

#[test]
fn new_container_has_uuid_id() {
    let c = Container::new(image(), None, None, vec![]).unwrap();
    let id = c.id();
    assert_eq!(id.len(), 36);
    for (i, ch) in id.chars().enumerate() {
        if i == 8 || i == 13 || i == 18 || i == 23 {
            assert_eq!(ch, '-');
        } else {
            assert!(ch.is_ascii_digit() || ('a'..='f').contains(&ch));
        }
    }
    assert_eq!(c.network_config().hostname, id);
    assert_eq!(c.env_vars().get("HOSTNAME").map(|s| s.as_str()), Some(id));
    let other = Container::new(image(), None, None, vec![]).unwrap();
    assert_ne!(other.id(), id);
}

#[test]
fn container_keeps_what_it_was_given() {
    let mut c = Container::with_id(
        "abc".to_string(),
        image(),
        Some(vec!["/bin/echo".to_string(), "hi".to_string()]),
        Some("/work".to_string()),
        vec![],
    );
    assert_eq!(c.id(), "abc");
    assert_eq!(c.image_name(), "img");
    assert_eq!(c.command().unwrap(), &vec!["/bin/echo".to_string(), "hi".to_string()]);
    assert_eq!(c.workdir(), Some("/work"));
    assert_eq!(c.image_data().tag, "latest");
    assert!(c.volumes().is_empty());
    assert!(c.network_config().ports.is_empty());
    c.add_volume("/host".to_string(), "/data".to_string(), true);
    c.add_port_mapping(8080, 80, "tcp".to_string());
    c.add_port_mapping(5353, 53, "udp".to_string());
    assert_eq!(c.volumes().len(), 1);
    assert_eq!(c.volumes()[0].host_path, "/host");
    assert_eq!(c.volumes()[0].container_path, "/data");
    assert!(c.volumes()[0].read_only);
    let ports = &c.network_config().ports;
    assert_eq!(ports.len(), 2);
    assert_eq!((ports[0].host_port, ports[0].container_port), (8080, 80));
    assert_eq!(ports[1].protocol, "udp");
}

#[test]
fn image_reference_is_read_into_name_and_tag() {
    let m = ImageManager::new("/cache".to_string()).unwrap();
    assert_eq!(m.cache_dir(), "/cache");
    assert_eq!(m.parse_image_ref("alpine"), Ok(("alpine".to_string(), "latest".to_string())));
    assert_eq!(m.parse_image_ref("alpine:3.19"), Ok(("alpine".to_string(), "3.19".to_string())));
    assert_eq!(m.parse_image_ref("a:"), Ok(("a".to_string(), "".to_string())));
    assert_eq!(m.parse_image_ref(""), Ok(("".to_string(), "latest".to_string())));
    assert_eq!(m.parse_image_ref("host:5000/alpine:3"), Err(Error::InvalidImageReference));
    assert_eq!(m.parse_image_ref("a::"), Err(Error::InvalidImageReference));
}

#[test]
fn image_without_payload_cannot_run() {
    let mut img = image();
    assert_eq!(img.wasm_binary_path(), Err(Error::NoWasmBinary));
    img.wasm_path = Some("/x/app.wasm".to_string());
    assert_eq!(img.wasm_binary_path(), Ok("/x/app.wasm"));
}

#[test]
fn errors_describe_themselves() {
    assert_eq!(Error::InvalidImageReference.message(), "invalid image reference");
    assert_eq!(Error::NoWasmBinary.message(), "no WASM binary found in image");
    assert_eq!(Error::NoMemory.message(), "failed to get memory");
    assert_eq!(Error::InvalidMemoryAccess.message(), "invalid memory access");
    assert_eq!(Error::InvalidUtf8.message(), "invalid UTF-8");
    assert_eq!(Error::PortConflict.message(), "host port is already forwarded");
}

#[test]
fn string_map_replaces_in_place() {
    let mut m: StringMap<String> = StringMap::new();
    assert_eq!(m.len(), 0);
    m.insert("a".to_string(), "1".to_string());
    m.insert("b".to_string(), "2".to_string());
    m.insert("a".to_string(), "3".to_string());
    assert_eq!(m.len(), 2);
    assert_eq!(m.get("a").map(|s| s.as_str()), Some("3"));
    assert!(m.contains_key("b"));
    assert!(!m.contains_key("c"));
    assert_eq!(m.entries()[0], ("a".to_string(), "3".to_string()));
}
