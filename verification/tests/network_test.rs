use std::rc::Rc;
use wasm_container::address::Ipv4Address;
use wasm_container::container::Container;
use wasm_container::error::Error;
use wasm_container::image::{ImageConfig, ImageData};
use wasm_container::network::{
    parse_protocol, protocol_of_lowered, remove_member, Bound, NetworkManager, Protocol,
};
use wasm_container::string_map::StringMap;

fn container(id: &str) -> Container {
    let image = ImageData {
        name: "img".to_string(),
        tag: "latest".to_string(),
        layers: vec![],
        config: ImageConfig {
            env: vec![],
            cmd: vec![],
            entrypoint: vec![],
            workdir: "/".to_string(),
            exposed_ports: StringMap::new(),
            volumes: StringMap::new(),
        },
        wasm_path: None,
    };
    Container::with_id(id.to_string(), image, None, None, vec![])
}

fn summary(m: &NetworkManager<u32>) -> (Vec<(String, Vec<String>)>, Vec<bool>) {
    let networks = m
        .list_networks()
        .unwrap()
        .into_iter()
        .map(|n| (n.name, n.containers))
        .collect();
    let forwards = (0..=u16::MAX).map(|p| m.has_forward(p)).collect();
    (networks, forwards)
}

#[test]
fn new_manager_has_the_bridge() {
    let m: NetworkManager<u32> = NetworkManager::new();
    let networks = m.list_networks().unwrap();
    assert_eq!(networks.len(), 1);
    assert_eq!(networks[0].name, "bridge");
    assert_eq!(networks[0].subnet, "172.17.0.0/16");
    assert_eq!(networks[0].gateway, Ipv4Address::new(172, 17, 0, 1));
    assert!(networks[0].containers.is_empty());
}

#[test]
fn first_two_addresses_follow_the_gateway() {
    let mut m: NetworkManager<u32> = NetworkManager::new();
    let first = m.allocate_ip("a").unwrap();
    let second = m.allocate_ip("b").unwrap();
    assert_eq!(first, Ipv4Address::new(172, 17, 0, 2));
    assert_eq!(second, Ipv4Address::new(172, 17, 0, 3));
    assert_eq!(&first.octets()[..3], &second.octets()[..3]);
    assert_eq!(m.list_networks().unwrap()[0].containers, vec!["a", "b"]);
}

#[test]
fn address_count_carries_into_the_next_octet() {
    let mut m: NetworkManager<u32> = NetworkManager::new();
    let mut last = Ipv4Address::new(0, 0, 0, 0);
    for i in 0..255 {
        last = m.allocate_ip(&format!("c{}", i)).unwrap();
    }
    assert_eq!(last, Ipv4Address::new(172, 17, 1, 0));
}

#[test]
fn release_twice_is_release_once() {
    let mut m: NetworkManager<u32> = NetworkManager::new();
    m.allocate_ip("a").unwrap();
    m.allocate_ip("b").unwrap();
    m.setup_port_forward("a", 8080, 80, "tcp", Bound::Listening(1)).unwrap();
    m.setup_port_forward("b", 8081, 80, "tcp", Bound::Listening(2)).unwrap();
    assert!(m.cleanup_container_network("a").is_ok());
    let once = summary(&m);
    assert!(m.cleanup_container_network("a").is_ok());
    assert_eq!(summary(&m), once);
    assert!(!m.has_forward(8080));
    assert!(m.has_forward(8081));
    assert_eq!(once.0[0].1, vec!["b"]);
}

#[test]
fn release_of_unknown_id_changes_nothing() {
    let mut m: NetworkManager<u32> = NetworkManager::new();
    m.allocate_ip("a").unwrap();
    m.setup_port_forward("a", 8080, 80, "tcp", Bound::Listening(1)).unwrap();
    let before = summary(&m);
    assert!(m.cleanup_container_network("nobody").is_ok());
    assert_eq!(summary(&m), before);
}

#[test]
fn second_forward_of_a_host_port_fails() {
    let mut m: NetworkManager<u32> = NetworkManager::new();
    assert_eq!(m.setup_port_forward("a", 8080, 80, "tcp", Bound::Listening(1)), Ok(()));
    let before = summary(&m);
    assert_eq!(
        m.setup_port_forward("b", 8080, 81, "tcp", Bound::Listening(2)),
        Err(Error::PortConflict)
    );
    assert_eq!(
        m.setup_port_forward("b", 8080, 81, "tcp", Bound::Failed),
        Err(Error::BindFailed)
    );
    assert_eq!(m.setup_port_forward("b", 8080, 81, "udp", Bound::Released), Err(Error::PortConflict));
    assert_eq!(summary(&m), before);
    m.cleanup_container_network("b").unwrap();
    assert!(m.has_forward(8080));
    m.cleanup_container_network("a").unwrap();
    assert!(!m.has_forward(8080));
}

#[test]
fn failed_bind_registers_nothing() {
    let mut m: NetworkManager<u32> = NetworkManager::new();
    assert_eq!(m.setup_port_forward("a", 8080, 80, "tcp", Bound::Failed), Err(Error::BindFailed));
    assert_eq!(m.setup_port_forward("a", 8081, 80, "udp", Bound::Failed), Err(Error::BindFailed));
    assert!(!m.has_forward(8080));
    assert!(!m.has_forward(8081));
}

#[test]
fn unknown_protocol_is_passed_over() {
    let mut m: NetworkManager<u32> = NetworkManager::new();
    assert_eq!(m.setup_port_forward("a", 8080, 80, "sctp", Bound::Listening(1)), Ok(()));
    assert_eq!(m.setup_port_forward("a", 8080, 80, "", Bound::Failed), Ok(()));
    assert!(!m.has_forward(8080));
}

#[test]
fn protocol_tag_is_read_whatever_its_case() {
    assert_eq!(parse_protocol("tcp"), Some(Protocol::Tcp));
    assert_eq!(parse_protocol("TCP"), Some(Protocol::Tcp));
    assert_eq!(parse_protocol("Udp"), Some(Protocol::Udp));
    assert_eq!(parse_protocol("icmp"), None);
    assert_eq!(parse_protocol("tcp "), None);
    assert_eq!(protocol_of_lowered("tcp"), Some(Protocol::Tcp));
    assert_eq!(protocol_of_lowered("udp"), Some(Protocol::Udp));
    assert_eq!(protocol_of_lowered("TCP"), None);
    let mut m: NetworkManager<u32> = NetworkManager::new();
    assert_eq!(m.setup_port_forward("a", 9000, 90, "TCP", Bound::Listening(1)), Ok(()));
    assert!(m.has_forward(9000));
}

#[test]
fn tcp_forward_keeps_its_socket_until_release() {
    let socket = Rc::new(());
    let mut m: NetworkManager<Rc<()>> = NetworkManager::new();
    m.setup_port_forward("a", 8080, 80, "tcp", Bound::Listening(socket.clone())).unwrap();
    assert_eq!(Rc::strong_count(&socket), 2);
    m.cleanup_container_network("other").unwrap();
    assert_eq!(Rc::strong_count(&socket), 2);
    m.cleanup_container_network("a").unwrap();
    assert_eq!(Rc::strong_count(&socket), 1);
}

#[test]
fn udp_forward_keeps_no_socket() {
    let socket = Rc::new(());
    let mut m: NetworkManager<Rc<()>> = NetworkManager::new();
    m.setup_port_forward("a", 5353, 53, "udp", Bound::Listening(socket.clone())).unwrap();
    assert!(m.has_forward(5353));
    assert_eq!(Rc::strong_count(&socket), 1);
    m.setup_port_forward("a", 5354, 53, "udp", Bound::Released).unwrap();
    assert!(m.has_forward(5354));
}

#[test]
fn lookup_follows_the_place_in_the_network() {
    let mut m: NetworkManager<u32> = NetworkManager::new();
    m.allocate_ip("a").unwrap();
    m.allocate_ip("b").unwrap();
    m.allocate_ip("c").unwrap();
    assert_eq!(m.get_container_ip("c").unwrap(), Some(Ipv4Address::new(172, 17, 0, 4)));
    assert_eq!(m.get_container_ip("nobody").unwrap(), None);
    m.cleanup_container_network("a").unwrap();
    assert_eq!(m.get_container_ip("a").unwrap(), None);
    assert_eq!(m.get_container_ip("b").unwrap(), Some(Ipv4Address::new(172, 17, 0, 2)));
    assert_eq!(m.get_container_ip("c").unwrap(), Some(Ipv4Address::new(172, 17, 0, 3)));
    assert_eq!(m.allocate_ip("d").unwrap(), Ipv4Address::new(172, 17, 0, 4));
}

#[test]
fn network_names_are_unique() {
    let mut m: NetworkManager<u32> = NetworkManager::new();
    assert_eq!(m.create_network("backend", "10.0.0.0/8"), Ok(()));
    assert_eq!(m.create_network("backend", "10.1.0.0/16"), Err(Error::NetworkExists));
    assert_eq!(m.create_network("bridge", "10.1.0.0/16"), Err(Error::NetworkExists));
    let networks = m.list_networks().unwrap();
    assert_eq!(networks.len(), 2);
    assert_eq!(networks[1].name, "backend");
    assert_eq!(networks[1].subnet, "10.0.0.0/8");
    assert_eq!(networks[1].gateway, Ipv4Address::new(172, 18, 0, 1));
}

#[test]
fn container_network_is_set_up_in_order() {
    let mut m: NetworkManager<u32> = NetworkManager::new();
    let mut c = container("abc");
    c.add_port_mapping(8080, 80, "tcp".to_string());
    c.add_port_mapping(9999, 99, "bogus".to_string());
    c.add_port_mapping(5353, 53, "udp".to_string());
    let lease = m
        .setup_container_network(&c, vec![Bound::Listening(1), Bound::Failed, Bound::Released])
        .unwrap();
    assert_eq!(lease.container_id, "abc");
    assert_eq!(lease.get_ip(), Ipv4Address::new(172, 17, 0, 2));
    assert_eq!(lease.get_hostname(), "abc");
    assert_eq!(lease.port_mappings.len(), 3);
    assert_eq!(lease.port_mappings[1].protocol, "bogus");
    assert!(m.has_forward(8080));
    assert!(!m.has_forward(9999));
    assert!(m.has_forward(5353));
}

#[test]
fn container_network_stops_at_the_first_failure() {
    let mut m: NetworkManager<u32> = NetworkManager::new();
    let mut c = container("abc");
    c.add_port_mapping(8080, 80, "tcp".to_string());
    c.add_port_mapping(8081, 81, "tcp".to_string());
    c.add_port_mapping(8082, 82, "tcp".to_string());
    let r = m.setup_container_network(&c, vec![Bound::Listening(1), Bound::Failed]);
    assert_eq!(r.err(), Some(Error::BindFailed));
    assert!(m.has_forward(8080));
    assert!(!m.has_forward(8081));
    assert!(!m.has_forward(8082));
    assert_eq!(m.get_container_ip("abc").unwrap(), Some(Ipv4Address::new(172, 17, 0, 2)));
    m.cleanup_container_network("abc").unwrap();
    assert!(!m.has_forward(8080));
}

#[test]
fn missing_report_counts_as_failed_bind() {
    let mut m: NetworkManager<u32> = NetworkManager::new();
    let mut c = container("abc");
    c.add_port_mapping(8080, 80, "tcp".to_string());
    let r = m.setup_container_network(&c, Vec::new());
    assert_eq!(r.err(), Some(Error::BindFailed));
}

#[test]
fn remove_member_keeps_the_order_of_the_others() {
    let mut v: Vec<String> = ["a", "b", "a", "c"].iter().map(|s| s.to_string()).collect();
    remove_member(&mut v, "a");
    assert_eq!(v, vec!["b", "c"]);
    remove_member(&mut v, "x");
    assert_eq!(v, vec!["b", "c"]);
}

#[test]
fn address_text_and_offsets() {
    let a = Ipv4Address::new(172, 17, 0, 2);
    assert_eq!(a.to_string(), "172.17.0.2");
    assert_eq!(Ipv4Address::new(0, 10, 100, 255).to_string(), "0.10.100.255");
    assert_eq!(a.octets(), [172, 17, 0, 2]);
    assert_eq!(a.offset(0), a);
    assert_eq!(a.offset(254), Ipv4Address::new(172, 17, 1, 0));
    assert_eq!(a.following(0), Ipv4Address::new(172, 17, 0, 3));
    assert_eq!(Ipv4Address::new(255, 255, 255, 255).offset(1), Ipv4Address::new(0, 0, 0, 0));
    assert_eq!(Ipv4Address::new(10, 0, 255, 255).following(0), Ipv4Address::new(10, 1, 0, 0));
}

#[test]
fn tcp_forward_without_a_socket_is_refused() {
    let mut m: NetworkManager<u32> = NetworkManager::new();
    let before = summary(&m);
    assert_eq!(m.setup_port_forward("a", 8080, 80, "tcp", Bound::Released), Err(Error::BindFailed));
    assert_eq!(m.setup_port_forward("a", 8080, 80, "TCP", Bound::Released), Err(Error::BindFailed));
    assert!(!m.has_forward(8080));
    assert!(m.get_forward(8080).is_none());
    assert_eq!(summary(&m), before);
    assert_eq!(
        m.register_forward("a", 8080, 80, "tcp", Some(Protocol::Tcp), Bound::Released),
        Err(Error::BindFailed)
    );
    assert_eq!(summary(&m), before);
}

#[test]
fn tcp_mapping_without_a_socket_ends_the_setup() {
    let mut m: NetworkManager<u32> = NetworkManager::new();
    let mut c = container("abc");
    c.add_port_mapping(5353, 53, "udp".to_string());
    c.add_port_mapping(8080, 80, "tcp".to_string());
    c.add_port_mapping(8081, 81, "tcp".to_string());
    let r = m.setup_container_network(
        &c,
        vec![Bound::Released, Bound::Released, Bound::Listening(1)],
    );
    assert_eq!(r.err(), Some(Error::BindFailed));
    assert!(m.has_forward(5353));
    assert!(!m.has_forward(8080));
    assert!(!m.has_forward(8081));
    assert_eq!(m.get_container_ip("abc").unwrap(), Some(Ipv4Address::new(172, 17, 0, 2)));
}

#[test]
fn registration_follows_the_given_protocol() {
    let mut m: NetworkManager<u32> = NetworkManager::new();
    assert_eq!(m.register_forward("a", 7000, 70, "sctp", None, Bound::Listening(1)), Ok(()));
    assert_eq!(m.register_forward("a", 7000, 70, "sctp", None, Bound::Failed), Ok(()));
    assert!(m.get_forward(7000).is_none());

    assert_eq!(
        m.register_forward("a", 8080, 80, "tcp", Some(Protocol::Tcp), Bound::Listening(5)),
        Ok(())
    );
    let tcp = m.get_forward(8080).unwrap();
    assert_eq!(tcp.host_port, 8080);
    assert_eq!(tcp.container_id, "a");
    assert_eq!(tcp.container_port, 80);
    assert_eq!(tcp.protocol, "tcp");
    assert_eq!(tcp.listener, Some(5));

    assert_eq!(
        m.register_forward("a", 5353, 53, "UDP", Some(Protocol::Udp), Bound::Listening(6)),
        Ok(())
    );
    let udp = m.get_forward(5353).unwrap();
    assert_eq!(udp.container_id, "a");
    assert_eq!(udp.protocol, "UDP");
    assert_eq!(udp.listener, None);
    assert_eq!(
        m.register_forward("a", 5354, 53, "udp", Some(Protocol::Udp), Bound::Failed),
        Err(Error::BindFailed)
    );
    assert!(m.get_forward(5354).is_none());
}

#[test]
fn registered_forward_keeps_its_owner_and_socket() {
    let mut m: NetworkManager<u32> = NetworkManager::new();
    m.setup_port_forward("a", 8080, 80, "tcp", Bound::Listening(5)).unwrap();
    assert_eq!(
        m.setup_port_forward("b", 8080, 81, "tcp", Bound::Listening(6)),
        Err(Error::PortConflict)
    );
    assert_eq!(
        m.register_forward("b", 8080, 81, "udp", Some(Protocol::Udp), Bound::Released),
        Err(Error::PortConflict)
    );
    assert_eq!(m.setup_port_forward("b", 8080, 81, "tcp", Bound::Failed), Err(Error::BindFailed));
    m.setup_port_forward("b", 8081, 81, "tcp", Bound::Listening(7)).unwrap();
    m.allocate_ip("b").unwrap();
    m.create_network("backend", "10.0.0.0/24").unwrap();
    let first = m.get_forward(8080).unwrap();
    assert_eq!(first.container_id, "a");
    assert_eq!(first.container_port, 80);
    assert_eq!(first.listener, Some(5));
    m.cleanup_container_network("b").unwrap();
    assert!(m.get_forward(8081).is_none());
    let first = m.get_forward(8080).unwrap();
    assert_eq!(first.container_id, "a");
    assert_eq!(first.listener, Some(5));
    m.cleanup_container_network("a").unwrap();
    assert!(m.get_forward(8080).is_none());
}

#[test]
fn bridge_addresses_count_up_from_two() {
    let mut m: NetworkManager<u32> = NetworkManager::new();
    m.create_network("backend", "10.0.0.0/24").unwrap();
    m.setup_port_forward("x", 8080, 80, "tcp", Bound::Listening(1)).unwrap();
    for n in 0..=253u8 {
        let id = format!("c{}", n);
        let ip = m.allocate_ip(&id).unwrap();
        assert_eq!(ip, Ipv4Address::new(172, 17, 0, n + 2));
        assert_ne!(ip, Ipv4Address::new(172, 17, 0, 0));
        assert_ne!(ip, Ipv4Address::new(172, 17, 0, 1));
        m.well_formed();
        let networks = m.list_networks().unwrap();
        assert_eq!(networks[0].name, "bridge");
        assert_eq!(networks[0].gateway, Ipv4Address::new(172, 17, 0, 1));
        assert_eq!(networks[0].containers.len(), usize::from(n) + 1);
        assert_eq!(networks[0].containers.last().unwrap(), &id);
        assert_eq!(networks[1].name, "backend");
        assert!(networks[1].containers.is_empty());
    }
    assert_eq!(m.get_forward(8080).unwrap().listener, Some(1));
}

#[test]
fn bridge_stays_first_behind_its_gateway() {
    let mut m: NetworkManager<u32> = NetworkManager::new();
    m.create_network("one", "10.1.0.0/16").unwrap();
    m.allocate_ip("a").unwrap();
    m.cleanup_container_network("a").unwrap();
    m.create_network("two", "10.2.0.0/16").unwrap();
    assert_eq!(m.create_network("bridge", "10.3.0.0/16"), Err(Error::NetworkExists));
    let networks = m.list_networks().unwrap();
    let names: Vec<&str> = networks.iter().map(|n| n.name.as_str()).collect();
    assert_eq!(names, vec!["bridge", "one", "two"]);
    assert_eq!(networks[0].subnet, "172.17.0.0/16");
    assert_eq!(networks[0].gateway, Ipv4Address::new(172, 17, 0, 1));
    assert_eq!(networks[1].gateway, Ipv4Address::new(172, 18, 0, 1));
}
