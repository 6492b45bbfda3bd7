use higress_stream::cluster_wrapper::{
    Cluster, ConsulCluster, DnsCluster, FQDNCluster, K8sCluster, NacosCluster, RouteCluster,
    StaticIpCluster,
};
use higress_stream::text::decimal_text;

#[test]
fn k8s_cluster_names() {
    let cluster = K8sCluster::new("svc", "ns", "8080", "v1", "");
    assert_eq!(cluster.cluster_name(), "outbound|8080|v1|svc.ns.svc.cluster.local");
    assert_eq!(cluster.host_name(), "svc.ns.svc.cluster.local");
    let cluster = K8sCluster::new("svc", "", "80", "", "example.com");
    assert_eq!(cluster.cluster_name(), "outbound|80||svc.default.svc.cluster.local");
    assert_eq!(cluster.host_name(), "example.com");
    let cluster = K8sCluster::new("svc", "", "80", "", "");
    assert_eq!(cluster.host_name(), "svc..svc.cluster.local");
}

#[test]
fn nacos_cluster_names() {
    let cluster = NacosCluster::new("svc", "my_own_group", "public", 8848, false, "", "");
    assert_eq!(cluster.cluster_name(), "outbound|8848||svc.my-own-group.public.nacos");
    assert_eq!(cluster.host_name(), "svc");
    let cluster = NacosCluster::new("svc", "", "id", 1, true, "v2", "h");
    assert_eq!(cluster.cluster_name(), "outbound|1|v2|svc.DEFAULT-GROUP.id.nacos-ext");
    assert_eq!(cluster.host_name(), "h");
}

#[test]
fn other_cluster_names() {
    let cluster = StaticIpCluster::new("svc", 80, "");
    assert_eq!(cluster.cluster_name(), "outbound|80||svc.static");
    assert_eq!(cluster.host_name(), "svc");
    assert_eq!(StaticIpCluster::new("svc", 80, "h").host_name(), "h");

    let cluster = DnsCluster::new("svc", "example.com", 443);
    assert_eq!(cluster.cluster_name(), "outbound|443||svc.dns");
    assert_eq!(cluster.host_name(), "example.com");

    let cluster = ConsulCluster::new("svc", "dc1", 65535, "");
    assert_eq!(cluster.cluster_name(), "outbound|65535||svc.dc1.consul");
    assert_eq!(cluster.host_name(), "svc");
    assert_eq!(ConsulCluster::new("svc", "dc1", 0, "h").host_name(), "h");

    let cluster = FQDNCluster::new("a.b.c", "", 0);
    assert_eq!(cluster.cluster_name(), "outbound|0||a.b.c");
    assert_eq!(cluster.host_name(), "a.b.c");
    assert_eq!(FQDNCluster::new("a.b.c", "h", 0).host_name(), "h");
}

#[test]
fn route_cluster_takes_what_the_host_gave() {
    assert_eq!(RouteCluster::cluster_name(Some(b"outbound|80||a.dns".to_vec())), "outbound|80||a.dns");
    assert_eq!(RouteCluster::cluster_name(Some(vec![0xff])), "");
    assert_eq!(RouteCluster::cluster_name(None), "");
    assert_eq!(RouteCluster::new("").host_name("req.example.com".to_string()), "req.example.com");
    assert_eq!(RouteCluster::new("own").host_name("req.example.com".to_string()), "own");
}

#[test]
fn numbers_are_written_in_decimal() {
    assert_eq!(decimal_text(0), "0");
    assert_eq!(decimal_text(9), "9");
    assert_eq!(decimal_text(10), "10");
    assert_eq!(decimal_text(8080), "8080");
    assert_eq!(decimal_text(u16::MAX), "65535");
}
