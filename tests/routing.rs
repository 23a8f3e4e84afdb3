use node_balancer::config::Config;
use node_balancer::error::NodeBalancerError;
use node_balancer::model::{NodeAddress, RawNode, RawPod, RawService, RawServicePort, RawServiceSpec, WatchEvent};
use node_balancer::node::{map_node, map_nodes, AddressableNode, NodeTable};
use node_balancer::pod::{build_selector, map_pods, selector_matches, BackendPod, PodRoster};
use node_balancer::router::{destination_for, get_destination};
use node_balancer::service::{apply_service_event, map_service, parse_port_map, BalancedService};

fn s(x: &str) -> String {
    x.to_string()
}

fn pairs(v: &[(&str, &str)]) -> Vec<(String, String)> {
    v.iter().map(|(k, x)| (s(k), s(x))).collect()
}

fn addr(t: &str, a: &str) -> NodeAddress {
    NodeAddress { type_: s(t), address: s(a) }
}

fn raw_node(name: &str, addrs: Vec<NodeAddress>) -> RawNode {
    RawNode { name: Some(s(name)), addresses: Some(addrs) }
}

fn raw_pod(name: &str, labels: &[(&str, &str)], node: Option<&str>) -> RawPod {
    RawPod { name: Some(s(name)), labels: pairs(labels), node_name: node.map(s) }
}

fn node_port_service(name: &str, selector: &[(&str, &str)], ports: Vec<RawServicePort>) -> RawService {
    RawService {
        name: Some(s(name)),
        namespace: Some(s("default")),
        spec: Some(RawServiceSpec { type_: Some(s("NodePort")), selector: pairs(selector), ports }),
    }
}

fn config() -> Config {
    Config { service_namespace: s("default"), service_name: s("web"), ports: vec![80], listen_addr: s("0.0.0.0") }
}

fn table(entries: &[(&str, &[&str])]) -> NodeTable {
    let mut t = NodeTable::new();
    for (name, addrs) in entries {
        t.upsert_node(s(name), AddressableNode::new(addrs.iter().map(|a| s(a)).collect()));
    }
    t
}

fn roster(entries: &[(&str, &str)]) -> PodRoster {
    let mut r = PodRoster::new();
    for (name, node) in entries {
        r.upsert_pod(s(name), BackendPod::new(s(node), s("web")));
    }
    r
}

fn web_service() -> Option<BalancedService> {
    Some(BalancedService::new(pairs(&[("app", "web")]), vec![(80, 30080), (443, 30443)]))
}

#[test]
fn node_keeps_internal_ips_only() {
    let raw = raw_node("n1", vec![addr("InternalIP", "10.0.0.1"), addr("ExternalIP", "1.2.3.4")]);
    let (name, node) = map_node(&raw).unwrap();
    assert_eq!(name, "n1");
    assert_eq!(node.addresses, vec![s("10.0.0.1")]);
}

#[test]
fn node_without_internal_ip_is_dropped() {
    let raw = raw_node("n2", vec![addr("ExternalIP", "1.2.3.4"), addr("Hostname", "n2")]);
    assert!(map_node(&raw).is_none());
    let no_status = RawNode { name: Some(s("n3")), addresses: None };
    assert!(map_node(&no_status).is_none());
    let t = map_nodes(&vec![raw, no_status]);
    assert_eq!(t.len(), 0);
}

#[test]
fn later_node_replaces_earlier() {
    let t = map_nodes(&vec![
        raw_node("n1", vec![addr("InternalIP", "10.0.0.1")]),
        raw_node("n1", vec![addr("InternalIP", "10.0.0.9"), addr("InternalIP", "10.0.0.8")]),
    ]);
    assert_eq!(t.len(), 1);
    assert_eq!(t.get(&s("n1")).unwrap().addresses, vec![s("10.0.0.9"), s("10.0.0.8")]);
}

#[test]
fn node_events_update_table() {
    let mut t = NodeTable::new();
    t.apply_event(&WatchEvent::Applied(raw_node("n1", vec![addr("InternalIP", "10.0.0.1")])));
    t.apply_event(&WatchEvent::Applied(raw_node("n2", vec![addr("InternalIP", "10.0.0.2")])));
    assert_eq!(t.len(), 2);
    t.apply_event(&WatchEvent::Deleted(raw_node("n1", vec![])));
    assert!(t.get(&s("n1")).is_none());
    assert_eq!(t.get(&s("n2")).unwrap().addresses, vec![s("10.0.0.2")]);
    t.apply_event(&WatchEvent::Restarted(vec![raw_node("n3", vec![addr("InternalIP", "10.0.0.3")])]));
    assert_eq!(t.len(), 1);
    assert!(t.get(&s("n3")).is_some());
}

#[test]
fn cluster_ip_service_is_wrong_type() {
    let raw = RawService {
        name: Some(s("web")),
        namespace: Some(s("default")),
        spec: Some(RawServiceSpec { type_: Some(s("ClusterIP")), selector: vec![], ports: vec![] }),
    };
    match map_service(&raw) {
        Err(NodeBalancerError::WrongServiceType(t)) => assert_eq!(t, "ClusterIP"),
        other => panic!("unexpected {:?}", other),
    }
}

#[test]
fn service_without_type_reports_none() {
    let raw = RawService {
        name: Some(s("web")),
        namespace: Some(s("default")),
        spec: Some(RawServiceSpec { type_: None, selector: vec![], ports: vec![] }),
    };
    match map_service(&raw) {
        Err(NodeBalancerError::WrongServiceType(t)) => assert_eq!(t, "None"),
        other => panic!("unexpected {:?}", other),
    }
}

#[test]
fn service_without_spec_is_missing_spec() {
    let raw = RawService { name: Some(s("web")), namespace: Some(s("default")), spec: None };
    assert!(matches!(map_service(&raw), Err(NodeBalancerError::MissingSpec)));
}

#[test]
fn node_port_service_keeps_assigned_ports() {
    let raw = node_port_service(
        "web",
        &[("app", "web")],
        vec![RawServicePort { port: 80, node_port: Some(30080) }, RawServicePort { port: 443, node_port: None }],
    );
    let svc = map_service(&raw).unwrap();
    assert_eq!(svc.port_map, vec![(80, 30080)]);
    assert_eq!(svc.selector, pairs(&[("app", "web")]));
    assert_eq!(svc.node_port(80), Some(30080));
    assert_eq!(svc.node_port(443), None);
}

#[test]
fn port_map_later_entry_wins() {
    let pm = parse_port_map(&vec![
        RawServicePort { port: 80, node_port: Some(30080) },
        RawServicePort { port: 80, node_port: Some(30081) },
    ]);
    let svc = BalancedService::new(vec![], pm);
    assert_eq!(svc.node_port(80), Some(30081));
}

#[test]
fn selector_matching() {
    let sel = pairs(&[("app", "web")]);
    assert!(selector_matches(&sel, &pairs(&[("app", "web"), ("tier", "fe")])));
    assert!(!selector_matches(&sel, &pairs(&[("app", "api")])));
    assert!(!selector_matches(&sel, &vec![]));
    assert!(selector_matches(&vec![], &pairs(&[("app", "api")])));
}

#[test]
fn selector_query_text() {
    assert_eq!(build_selector(&vec![]), "");
    assert_eq!(build_selector(&pairs(&[("app", "web")])), "app=web");
    assert_eq!(build_selector(&pairs(&[("app", "web"), ("tier", "fe")])), "app=web,tier=fe");
}

#[test]
fn pods_mapped_against_selector() {
    let raws = vec![
        raw_pod("p1", &[("app", "web")], Some("n1")),
        raw_pod("p2", &[("app", "api")], Some("n1")),
        raw_pod("p3", &[("app", "web")], None),
        raw_pod("p4", &[("app", "web"), ("tier", "fe")], Some("n2")),
    ];
    let r = map_pods(&raws, &web_service(), &s("web"));
    assert_eq!(r.roster_len(), 2);
    assert_eq!(r.read_pod(&s("p1")).unwrap().node, "n1");
    assert_eq!(r.read_pod(&s("p4")).unwrap().node, "n2");
    assert!(r.read_pod(&s("p2")).is_none());
    assert!(r.read_pod(&s("p3")).is_none());
    let none = map_pods(&raws, &None, &s("web"));
    assert_eq!(none.roster_len(), 0);
}

#[test]
fn pod_events_keep_roster_and_details_together() {
    let svc = web_service();
    let mut r = PodRoster::new();
    r.apply_event(&WatchEvent::Applied(raw_pod("p1", &[("app", "web")], Some("n1"))), &svc, &s("web"));
    r.apply_event(&WatchEvent::Applied(raw_pod("p2", &[("app", "web")], Some("n2"))), &svc, &s("web"));
    r.apply_event(&WatchEvent::Applied(raw_pod("p3", &[("app", "api")], Some("n2"))), &svc, &s("web"));
    assert_eq!(r.roster_len(), 2);
    r.apply_event(&WatchEvent::Deleted(raw_pod("p1", &[], None)), &svc, &s("web"));
    assert_eq!(r.roster_len(), 1);
    assert!(r.read_pod(&s("p1")).is_none());
    let (name, pod) = r.pod_at(0);
    assert_eq!(name, "p2");
    assert_eq!(pod.node, "n2");
    assert_eq!(r.random_pod_name().unwrap(), "p2");
    r.apply_event(&WatchEvent::Restarted(vec![raw_pod("p9", &[("app", "web")], Some("n1"))]), &svc, &s("web"));
    assert_eq!(r.roster_len(), 1);
    assert!(r.read_pod(&s("p9")).is_some());
}

#[test]
fn interleaved_insert_delete_never_misses() {
    let nodes = table(&[("n1", &["10.0.0.1"])]);
    let svc = web_service();
    let mut r = PodRoster::new();
    for round in 0..200u32 {
        let name = format!("p{}", round % 7);
        if round % 3 == 2 {
            r.remove_pod(&name);
        } else {
            r.upsert_pod(name, BackendPod::new(s("n1"), s("web")));
        }
        for i in 0..r.roster_len() {
            let (n, _) = r.pod_at(i);
            assert!(r.read_pod(n).is_some());
        }
        match get_destination(&nodes, &svc, &r, 80) {
            Ok((ip, port)) => {
                assert!(r.roster_len() > 0);
                assert_eq!(ip, "10.0.0.1");
                assert_eq!(port, 30080);
            }
            Err(NodeBalancerError::NoPodsAvailable) => assert_eq!(r.roster_len(), 0),
            Err(e) => panic!("unexpected {:?}", e),
        }
    }
}

#[test]
fn empty_roster_has_no_pods() {
    let nodes = table(&[("n1", &["10.0.0.1"])]);
    let r = get_destination(&nodes, &web_service(), &PodRoster::new(), 80);
    assert!(matches!(r, Err(NodeBalancerError::NoPodsAvailable)));
    assert!(PodRoster::new().random_pod_name().is_none());
}

#[test]
fn pod_on_unknown_node() {
    let nodes = table(&[("n1", &["10.0.0.1"])]);
    let r = get_destination(&nodes, &web_service(), &roster(&[("p1", "n9")]), 80);
    match r {
        Err(NodeBalancerError::UnknownNode(n)) => assert_eq!(n, "n9"),
        other => panic!("unexpected {:?}", other),
    }
}

#[test]
fn destination_is_from_stored_node() {
    let nodes = table(&[("n1", &["10.0.0.1", "10.0.0.2"]), ("n2", &["10.0.1.1"])]);
    let pods = roster(&[("p1", "n1"), ("p2", "n2")]);
    for _ in 0..100 {
        let (ip, port) = get_destination(&nodes, &web_service(), &pods, 443).unwrap();
        assert!(["10.0.0.1", "10.0.0.2", "10.0.1.1"].contains(&ip.as_str()));
        assert_eq!(port, 30443);
    }
}

#[test]
fn single_destination_is_exact() {
    let nodes = table(&[("n1", &["10.0.0.1"])]);
    let pods = roster(&[("p1", "n1")]);
    assert_eq!(get_destination(&nodes, &web_service(), &pods, 80).unwrap(), (s("10.0.0.1"), 30080));
}

#[test]
fn missing_service_and_unknown_port() {
    let nodes = table(&[("n1", &["10.0.0.1"])]);
    let pods = roster(&[("p1", "n1")]);
    assert!(matches!(get_destination(&nodes, &None, &pods, 80), Err(NodeBalancerError::ServiceNotFound)));
    assert!(matches!(get_destination(&nodes, &web_service(), &pods, 8080), Err(NodeBalancerError::UnknownPort(8080))));
}

#[test]
fn destination_for_takes_the_given_address() {
    let nodes = table(&[("n1", &["10.0.0.1", "10.0.0.2"])]);
    assert_eq!(destination_for(&nodes, &web_service(), &s("n1"), 80, 1).unwrap(), (s("10.0.0.2"), 30080));
    assert!(matches!(destination_for(&nodes, &web_service(), &s("nx"), 80, 0), Err(NodeBalancerError::UnknownNode(_))));
}

#[test]
fn service_events_follow_target_only() {
    let cfg = config();
    let mut svc: Option<BalancedService> = None;
    let good = node_port_service("web", &[("app", "web")], vec![RawServicePort { port: 80, node_port: Some(30080) }]);
    let other = node_port_service("other", &[], vec![]);
    assert!(!apply_service_event(&mut svc, &cfg, &WatchEvent::Applied(other.clone())));
    assert!(svc.is_none());
    assert!(apply_service_event(&mut svc, &cfg, &WatchEvent::Applied(good.clone())));
    assert_eq!(svc.as_ref().unwrap().port_map, vec![(80, 30080)]);
    assert!(!apply_service_event(&mut svc, &cfg, &WatchEvent::Deleted(other.clone())));
    assert!(svc.is_some());
    let mut broken = good.clone();
    broken.spec = None;
    assert!(!apply_service_event(&mut svc, &cfg, &WatchEvent::Applied(broken)));
    assert!(svc.is_none());
    assert!(apply_service_event(&mut svc, &cfg, &WatchEvent::Restarted(vec![other.clone(), good.clone()])));
    assert!(svc.is_some());
    assert!(!apply_service_event(&mut svc, &cfg, &WatchEvent::Deleted(good.clone())));
    assert!(svc.is_none());
    apply_service_event(&mut svc, &cfg, &WatchEvent::Applied(good));
    assert!(!apply_service_event(&mut svc, &cfg, &WatchEvent::Restarted(vec![other])));
    assert!(svc.is_none());
}

#[test]
fn config_target_check() {
    let cfg = config();
    assert!(cfg.is_target(&s("web"), &s("default")));
    assert!(!cfg.is_target(&s("web"), &s("kube-system")));
}
