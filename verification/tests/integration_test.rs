use wasm_container::container::Container;
use wasm_container::error::Error;
use wasm_container::image::{ImageConfig, ImageData, Layer};
use wasm_container::network::Bound;
use wasm_container::runtime::{Action, Event, Phase, Session, WasmRuntime};
use wasm_container::string_map::StringMap;

fn create_test_image() -> ImageData {
    ImageData {
        name: "test-image".to_string(),
        tag: "latest".to_string(),
        layers: vec![Layer {
            digest: "sha256:test".to_string(),
            size: 1024,
            media_type: "application/vnd.oci.image.layer.v1.tar+gzip".to_string(),
            path: "/tmp/test-layer.tar.gz".to_string(),
        }],
        config: ImageConfig {
            env: vec!["PATH=/usr/bin".to_string()],
            cmd: vec!["/bin/sh".to_string()],
            entrypoint: vec![],
            workdir: "/".to_string(),
            exposed_ports: StringMap::new(),
            volumes: StringMap::new(),
        },
        wasm_path: Some("src/image/demo.wasm".to_string()),
    }
}

/// Plays the host for a program that does what `last` says, and gives the outcome.
fn execute(
    runtime: &mut WasmRuntime<u32>,
    container: Container,
    last: Event<u32>,
) -> Result<(), Error> {
    let mut session = Session::new(container);
    assert!(matches!(runtime.run(&mut session, Event::Start), Action::Stage(_)));
    assert!(matches!(runtime.run(&mut session, Event::Staged), Action::Bind(_)));
    assert!(matches!(runtime.run(&mut session, Event::Bound(Vec::new())), Action::Prepare(_)));
    assert!(matches!(runtime.run(&mut session, Event::Prepared), Action::Invoke));
    assert_eq!(session.phase(), Phase::Running);
    match runtime.run(&mut session, last) {
        Action::Done(outcome) => outcome,
        other => panic!("the execution did not end: {:?}", other),
    }
}

#[test]
fn test_basic_container_execution() {
    let image_data = create_test_image();
    let container = Container::new(image_data, None, None, vec![]).unwrap();

    let mut runtime = WasmRuntime::new().unwrap();

    let result = execute(&mut runtime, container, Event::Finished);
    assert!(result.is_ok());
}

#[test]
fn test_container_with_env_vars() {
    let image_data = create_test_image();
    let env_vars = vec!["TEST_VAR=test_value".to_string()];
    let container = Container::new(image_data, None, None, env_vars).unwrap();
    assert_eq!(container.env_vars().get("TEST_VAR").map(|v| v.as_str()), Some("test_value"));

    let mut runtime = WasmRuntime::new().unwrap();

    let result = execute(&mut runtime, container, Event::Finished);
    assert!(result.is_ok());
}

#[test]
fn test_container_listing() {
    let runtime: WasmRuntime<u32> = WasmRuntime::new().unwrap();

    let containers = runtime.list_containers(false).unwrap();
    assert_eq!(containers.len(), 0);

    let containers_all = runtime.list_containers(true).unwrap();
    assert_eq!(containers_all.len(), 0);
}

#[test]
fn test_container_stop() {
    let mut runtime: WasmRuntime<u32> = WasmRuntime::new().unwrap();

    let result = runtime.stop("nonexistent-id");
    assert!(result.is_ok());
}

#[test]
fn listing_after_exit_shows_one_exited_container() {
    let mut runtime = WasmRuntime::new().unwrap();
    let container = Container::with_id("abc".to_string(), create_test_image(), None, None, vec![]);
    assert_eq!(execute(&mut runtime, container, Event::Finished), Ok(()));
    let all = runtime.list_containers(true).unwrap();
    assert_eq!(all.len(), 1);
    assert_eq!(all[0].id, "abc");
    assert_eq!(all[0].image, "test-image");
    assert_eq!(all[0].status, "exited");
    assert_eq!(runtime.list_containers(false).unwrap().len(), 0);
}

#[test]
fn listing_running_after_failure_is_empty() {
    let mut runtime = WasmRuntime::new().unwrap();
    let container = Container::with_id("abc".to_string(), create_test_image(), None, None, vec![]);
    assert_eq!(execute(&mut runtime, container, Event::Trapped), Err(Error::SandboxTrap));
    assert_eq!(runtime.list_containers(false).unwrap().len(), 0);
    let all = runtime.list_containers(true).unwrap();
    assert_eq!(all.len(), 1);
    assert_eq!(all[0].status, "failed");
}

#[test]
fn running_container_is_listed_and_holds_its_address() {
    let mut runtime: WasmRuntime<u32> = WasmRuntime::new().unwrap();
    let container = Container::with_id("abc".to_string(), create_test_image(), None, None, vec![]);
    let mut session = Session::new(container);
    runtime.run(&mut session, Event::Start);
    runtime.run(&mut session, Event::Staged);
    runtime.run(&mut session, Event::Bound(Vec::new()));
    assert_eq!(runtime.list_containers(true).unwrap().len(), 0);
    runtime.run(&mut session, Event::Prepared);
    let running = runtime.list_containers(false).unwrap();
    assert_eq!(running.len(), 1);
    assert_eq!(running[0].status, "running");
    let ip = runtime.network_manager().get_container_ip("abc").unwrap().unwrap();
    assert_eq!(ip.to_string(), "172.17.0.2");
    assert_eq!(session.lease().unwrap().ip_address, ip);
    runtime.run(&mut session, Event::Finished);
    assert_eq!(session.phase(), Phase::Exited);
    assert!(session.lease().is_none());
    assert_eq!(runtime.network_manager().get_container_ip("abc").unwrap(), None);
}

#[test]
fn staging_failure_ends_the_execution() {
    let mut runtime: WasmRuntime<u32> = WasmRuntime::new().unwrap();
    let container = Container::with_id("abc".to_string(), create_test_image(), None, None, vec![]);
    let mut session = Session::new(container);
    runtime.run(&mut session, Event::Start);
    let action = runtime.run(&mut session, Event::StagingFailed);
    assert!(matches!(action, Action::Done(Err(Error::Staging))));
    assert_eq!(session.phase(), Phase::Failed);
    assert_eq!(runtime.list_containers(true).unwrap().len(), 0);
}

#[test]
fn compile_failure_releases_the_network() {
    let mut runtime: WasmRuntime<u32> = WasmRuntime::new().unwrap();
    let mut container =
        Container::with_id("abc".to_string(), create_test_image(), None, None, vec![]);
    container.add_port_mapping(8080, 80, "tcp".to_string());
    let mut session = Session::new(container);
    runtime.run(&mut session, Event::Start);
    runtime.run(&mut session, Event::Staged);
    runtime.run(&mut session, Event::Bound(vec![Bound::Listening(7)]));
    assert!(runtime.network_manager().has_forward(8080));
    let action = runtime.run(&mut session, Event::PrepareFailed);
    assert!(matches!(action, Action::Done(Err(Error::Compile))));
    assert!(!runtime.network_manager().has_forward(8080));
    assert_eq!(runtime.network_manager().get_container_ip("abc").unwrap(), None);
    assert_eq!(runtime.list_containers(true).unwrap().len(), 0);
}

#[test]
fn failed_bind_rolls_the_network_back() {
    let mut runtime: WasmRuntime<u32> = WasmRuntime::new().unwrap();
    let mut container =
        Container::with_id("abc".to_string(), create_test_image(), None, None, vec![]);
    container.add_port_mapping(8080, 80, "tcp".to_string());
    container.add_port_mapping(8081, 81, "tcp".to_string());
    let mut session = Session::new(container);
    runtime.run(&mut session, Event::Start);
    runtime.run(&mut session, Event::Staged);
    let action =
        runtime.run(&mut session, Event::Bound(vec![Bound::Listening(7), Bound::Failed]));
    assert!(matches!(action, Action::Done(Err(Error::BindFailed))));
    assert_eq!(session.phase(), Phase::Failed);
    assert!(!runtime.network_manager().has_forward(8080));
    assert_eq!(runtime.network_manager().get_container_ip("abc").unwrap(), None);
}

#[test]
fn unexpected_event_fails_the_execution() {
    let mut runtime: WasmRuntime<u32> = WasmRuntime::new().unwrap();
    let container = Container::with_id("abc".to_string(), create_test_image(), None, None, vec![]);
    let mut session = Session::new(container);
    let action = runtime.run(&mut session, Event::Finished);
    assert!(matches!(action, Action::Done(Err(Error::UnexpectedEvent))));
    assert_eq!(session.phase(), Phase::Failed);
}

#[test]
fn stop_marks_the_record_and_releases_the_network() {
    let mut runtime: WasmRuntime<u32> = WasmRuntime::new().unwrap();
    let container = Container::with_id("abc".to_string(), create_test_image(), None, None, vec![]);
    let mut session = Session::new(container);
    runtime.run(&mut session, Event::Start);
    runtime.run(&mut session, Event::Staged);
    runtime.run(&mut session, Event::Bound(Vec::new()));
    runtime.run(&mut session, Event::Prepared);
    assert!(runtime.stop("abc").is_ok());
    let all = runtime.list_containers(true).unwrap();
    assert_eq!(all[0].status, "stopped");
    assert_eq!(runtime.list_containers(false).unwrap().len(), 0);
    assert_eq!(runtime.network_manager().get_container_ip("abc").unwrap(), None);
}

#[test]
fn tcp_port_without_a_listening_socket_fails_the_execution() {
    let mut runtime: WasmRuntime<u32> = WasmRuntime::new().unwrap();
    let mut container =
        Container::with_id("abc".to_string(), create_test_image(), None, None, vec![]);
    container.add_port_mapping(8080, 80, "tcp".to_string());
    let mut session = Session::new(container);
    runtime.run(&mut session, Event::Start);
    runtime.run(&mut session, Event::Staged);
    let action = runtime.run(&mut session, Event::Bound(vec![Bound::Released]));
    assert!(matches!(action, Action::Done(Err(Error::BindFailed))));
    assert_eq!(session.phase(), Phase::Failed);
    assert!(!runtime.network_manager().has_forward(8080));
    assert_eq!(runtime.network_manager().get_container_ip("abc").unwrap(), None);
}

#[test]
fn an_execution_leaves_the_sockets_of_others_alone() {
    let mut runtime: WasmRuntime<u32> = WasmRuntime::new().unwrap();
    let mut first = Container::with_id("one".to_string(), create_test_image(), None, None, vec![]);
    first.add_port_mapping(8080, 80, "tcp".to_string());
    let mut running = Session::new(first);
    runtime.run(&mut running, Event::Start);
    runtime.run(&mut running, Event::Staged);
    runtime.run(&mut running, Event::Bound(vec![Bound::Listening(7)]));
    runtime.run(&mut running, Event::Prepared);

    let mut second = Container::with_id("two".to_string(), create_test_image(), None, None, vec![]);
    second.add_port_mapping(9090, 90, "tcp".to_string());
    second.add_port_mapping(8080, 80, "tcp".to_string());
    let mut session = Session::new(second);
    runtime.run(&mut session, Event::Start);
    runtime.run(&mut session, Event::Staged);
    let action =
        runtime.run(&mut session, Event::Bound(vec![Bound::Listening(8), Bound::Listening(9)]));
    assert!(matches!(action, Action::Done(Err(Error::PortConflict))));
    assert!(runtime.network_manager().get_forward(9090).is_none());
    let kept = runtime.network_manager().get_forward(8080).unwrap();
    assert_eq!(kept.container_id, "one");
    assert_eq!(kept.listener, Some(7));

    runtime.run(&mut running, Event::Finished);
    assert!(runtime.network_manager().get_forward(8080).is_none());
}
