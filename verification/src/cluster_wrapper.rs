//! Names of upstream clusters.
//!
//! A cluster is addressed by a name of the form
//! `outbound|<port>|<version>|<host of the registry>` and by a host name.

use crate::msg_window::utf8_text;
use crate::text::{decimal, decimal_text};
use vstd::prelude::*;
use vstd::string::*;
use vstd::utf8::*;

verus! {

/// An upstream that requests can be sent to.
///
/// What an implementation gives is its own affair: the clusters of this
/// module say in their own contracts what their names are.
pub trait Cluster {
    /// The name to address the cluster by.
    fn cluster_name(&self) -> String;

    /// The host name to put in requests to the cluster.
    fn host_name(&self) -> String;
}

/// `own` where that is not empty, else `other`.
pub open spec fn or_else(own: Seq<char>, other: Seq<char>) -> Seq<char> {
    if own.len() == 0 {
        other
    } else {
        own
    }
}

/// `own` where that is not empty, else `other`.
fn text_or(own: &String, other: &String) -> (r: String)
    ensures
        r@ == or_else(own@, other@),
{
    if own.as_str().is_empty() {
        other.clone()
    } else {
        own.clone()
    }
}

/// The cluster of the route that the request was matched to.
#[derive(Debug, Clone)]
pub struct RouteCluster {
    host: String,
}

impl RouteCluster {
    /// The host name given at construction.
    pub closed spec fn host(&self) -> Seq<char> {
        self.host@
    }

    /// A route cluster with the host name `host`, or that of the request if `host` is empty.
    pub fn new(host: &str) -> (r: Self)
        ensures
            r.host() == host@,
    {
        RouteCluster { host: host.to_owned() }
    }

    /// The name of the route's cluster, from the `cluster_name` property that
    /// the host gave: its text where it is there and valid UTF-8, else empty.
    pub fn cluster_name(property: Option<Vec<u8>>) -> (r: String)
        ensures
            r@ == (match property {
                Some(bytes) => if valid_utf8(bytes@) {
                    decode_utf8(bytes@)
                } else {
                    Seq::empty()
                },
                None => Seq::empty(),
            }),
    {
        broadcast use group_utf8_lib;

        if let Some(res) = property {
            if let Some(text) = utf8_text(res.as_slice()) {
                return text.to_owned();
            }
        }
        String::new()
    }

    /// The host name: the one given at construction where it is not empty,
    /// else that of the request.
    pub fn host_name(&self, request_host: String) -> (r: String)
        ensures
            r@ == or_else(self.host(), request_host@),
    {
        text_or(&self.host, &request_host)
    }
}

/// A service of a Kubernetes cluster.
#[derive(Debug, Clone)]
pub struct K8sCluster {
    service_name: String,
    namespace: String,
    port: String,
    version: String,
    host: String,
}

impl K8sCluster {
    /// The name to address the cluster by.
    pub closed spec fn spec_cluster_name(&self) -> Seq<char> {
        "outbound|"@ + self.port@ + "|"@ + self.version@ + "|"@ + self.service_name@ + "."@
            + or_else(self.namespace@, "default"@) + ".svc.cluster.local"@
    }

    /// The host name to put in requests to the cluster.
    pub closed spec fn spec_host_name(&self) -> Seq<char> {
        or_else(self.host@, self.service_name@ + "."@ + self.namespace@ + ".svc.cluster.local"@)
    }

    /// The service `service_name` of `namespace`, at `port` and `version`.
    pub fn new(service_name: &str, namespace: &str, port: &str, version: &str, host: &str) -> (r:
        Self)
        ensures
            r.spec_cluster_name() == "outbound|"@ + port@ + "|"@ + version@ + "|"@ + service_name@
                + "."@ + or_else(namespace@, "default"@) + ".svc.cluster.local"@,
            r.spec_host_name() == or_else(
                host@,
                service_name@ + "."@ + namespace@ + ".svc.cluster.local"@,
            ),
    {
        K8sCluster {
            service_name: service_name.to_owned(),
            namespace: namespace.to_owned(),
            port: port.to_owned(),
            version: version.to_owned(),
            host: host.to_owned(),
        }
    }
}

impl Cluster for K8sCluster {
    fn cluster_name(&self) -> (r: String)
        ensures
            r@ == self.spec_cluster_name(),
    {
        let mut r = "outbound|".to_owned();
        r.append(self.port.as_str());
        r.append("|");
        r.append(self.version.as_str());
        r.append("|");
        r.append(self.service_name.as_str());
        r.append(".");
        if self.namespace.as_str().is_empty() {
            r.append("default");
        } else {
            r.append(self.namespace.as_str());
        }
        r.append(".svc.cluster.local");
        r
    }

    fn host_name(&self) -> (r: String)
        ensures
            r@ == self.spec_host_name(),
    {
        if self.host.as_str().is_empty() {
            let mut r = self.service_name.clone();
            r.append(".");
            r.append(self.namespace.as_str());
            r.append(".svc.cluster.local");
            r
        } else {
            self.host.clone()
        }
    }
}

/// `text` with every `from` replaced by `to`.
pub open spec fn replaced(text: Seq<char>, from: char, to: char) -> Seq<char> {
    Seq::new(
        text.len(),
        |i: int|
            if text[i] == from {
                to
            } else {
                text[i]
            },
    )
}

/// `str::replace` with a character as the pattern and a text of one
/// character in its place: every occurrence of `from` becomes `to`, all else stays.
#[verifier::external_body]
fn replace_char(text: &str, from: char, to: char) -> (r: String)
    ensures
        r@ == replaced(text@, from, to),
{
    text.replace(from, to.encode_utf8(&mut [0; 4]))
}

/// A service registered with Nacos.
#[derive(Debug, Clone)]
pub struct NacosCluster {
    service_name: String,
    group: String,
    namespace_id: String,
    port: u16,
    is_ext_registry: bool,
    version: String,
    host: String,
}

/// The group of a Nacos service as it stands in a cluster name: the default
/// group where none is given, else the group with dashes for underscores.
pub open spec fn nacos_group(group: Seq<char>) -> Seq<char> {
    if group.len() == 0 {
        "DEFAULT-GROUP"@
    } else {
        replaced(group, '_', '-')
    }
}

/// The registry of a Nacos service as it stands in a cluster name.
pub open spec fn nacos_tail(is_ext_registry: bool) -> Seq<char> {
    if is_ext_registry {
        "nacos-ext"@
    } else {
        "nacos"@
    }
}

impl NacosCluster {
    /// The name to address the cluster by.
    pub closed spec fn spec_cluster_name(&self) -> Seq<char> {
        "outbound|"@ + decimal(self.port as nat) + "|"@ + self.version@ + "|"@
            + self.service_name@ + "."@ + nacos_group(self.group@) + "."@ + self.namespace_id@
            + "."@ + nacos_tail(self.is_ext_registry)
    }

    /// The host name to put in requests to the cluster.
    pub closed spec fn spec_host_name(&self) -> Seq<char> {
        or_else(self.host@, self.service_name@)
    }

    /// The service `service_name` of `group` in the namespace `namespace_id`.
    pub fn new(
        service_name: &str,
        group: &str,
        namespace_id: &str,
        port: u16,
        is_ext_registry: bool,
        version: &str,
        host: &str,
    ) -> (r: Self)
        ensures
            r.spec_cluster_name() == "outbound|"@ + decimal(port as nat) + "|"@ + version@ + "|"@
                + service_name@ + "."@ + nacos_group(group@) + "."@ + namespace_id@ + "."@
                + nacos_tail(is_ext_registry),
            r.spec_host_name() == or_else(host@, service_name@),
    {
        NacosCluster {
            service_name: service_name.to_owned(),
            group: group.to_owned(),
            namespace_id: namespace_id.to_owned(),
            port,
            is_ext_registry,
            version: version.to_owned(),
            host: host.to_owned(),
        }
    }
}

impl Cluster for NacosCluster {
    fn cluster_name(&self) -> (r: String)
        ensures
            r@ == self.spec_cluster_name(),
    {
        let group = if self.group.as_str().is_empty() {
            "DEFAULT-GROUP".to_owned()
        } else {
            replace_char(self.group.as_str(), '_', '-')
        };
        let tail = if self.is_ext_registry {
            "nacos-ext"
        } else {
            "nacos"
        };
        let mut r = "outbound|".to_owned();
        r.append(decimal_text(self.port).as_str());
        r.append("|");
        r.append(self.version.as_str());
        r.append("|");
        r.append(self.service_name.as_str());
        r.append(".");
        r.append(group.as_str());
        r.append(".");
        r.append(self.namespace_id.as_str());
        r.append(".");
        r.append(tail);
        r
    }

    fn host_name(&self) -> (r: String)
        ensures
            r@ == self.spec_host_name(),
    {
        text_or(&self.host, &self.service_name)
    }
}

/// A service with fixed addresses.
#[derive(Debug, Clone)]
pub struct StaticIpCluster {
    service_name: String,
    port: u16,
    host: String,
}

impl StaticIpCluster {
    /// The name to address the cluster by.
    pub closed spec fn spec_cluster_name(&self) -> Seq<char> {
        "outbound|"@ + decimal(self.port as nat) + "||"@ + self.service_name@ + ".static"@
    }

    /// The host name to put in requests to the cluster.
    pub closed spec fn spec_host_name(&self) -> Seq<char> {
        or_else(self.host@, self.service_name@)
    }

    /// The service `service_name` at `port`.
    pub fn new(service_name: &str, port: u16, host: &str) -> (r: Self)
        ensures
            r.spec_cluster_name() == "outbound|"@ + decimal(port as nat) + "||"@ + service_name@
                + ".static"@,
            r.spec_host_name() == or_else(host@, service_name@),
    {
        StaticIpCluster { service_name: service_name.to_owned(), port, host: host.to_owned() }
    }
}

impl Cluster for StaticIpCluster {
    fn cluster_name(&self) -> (r: String)
        ensures
            r@ == self.spec_cluster_name(),
    {
        let mut r = "outbound|".to_owned();
        r.append(decimal_text(self.port).as_str());
        r.append("||");
        r.append(self.service_name.as_str());
        r.append(".static");
        r
    }

    fn host_name(&self) -> (r: String)
        ensures
            r@ == self.spec_host_name(),
    {
        text_or(&self.host, &self.service_name)
    }
}

/// A service found by its domain name.
#[derive(Debug, Clone)]
pub struct DnsCluster {
    service_name: String,
    domain: String,
    port: u16,
}

impl DnsCluster {
    /// The name to address the cluster by.
    pub closed spec fn spec_cluster_name(&self) -> Seq<char> {
        "outbound|"@ + decimal(self.port as nat) + "||"@ + self.service_name@ + ".dns"@
    }

    /// The host name to put in requests to the cluster.
    pub closed spec fn spec_host_name(&self) -> Seq<char> {
        self.domain@
    }

    /// The service `service_name` at `port`, reached under `domain`.
    pub fn new(service_name: &str, domain: &str, port: u16) -> (r: Self)
        ensures
            r.spec_cluster_name() == "outbound|"@ + decimal(port as nat) + "||"@ + service_name@
                + ".dns"@,
            r.spec_host_name() == domain@,
    {
        DnsCluster { service_name: service_name.to_owned(), domain: domain.to_owned(), port }
    }
}

impl Cluster for DnsCluster {
    fn cluster_name(&self) -> (r: String)
        ensures
            r@ == self.spec_cluster_name(),
    {
        let mut r = "outbound|".to_owned();
        r.append(decimal_text(self.port).as_str());
        r.append("||");
        r.append(self.service_name.as_str());
        r.append(".dns");
        r
    }

    fn host_name(&self) -> (r: String)
        ensures
            r@ == self.spec_host_name(),
    {
        self.domain.clone()
    }
}

/// A service registered with Consul.
#[derive(Debug, Clone)]
pub struct ConsulCluster {
    service_name: String,
    datacenter: String,
    port: u16,
    host: String,
}

impl ConsulCluster {
    /// The name to address the cluster by.
    pub closed spec fn spec_cluster_name(&self) -> Seq<char> {
        "outbound|"@ + decimal(self.port as nat) + "||"@ + self.service_name@ + "."@
            + self.datacenter@ + ".consul"@
    }

    /// The host name to put in requests to the cluster.
    pub closed spec fn spec_host_name(&self) -> Seq<char> {
        or_else(self.host@, self.service_name@)
    }

    /// The service `service_name` of `datacenter` at `port`.
    pub fn new(service_name: &str, datacenter: &str, port: u16, host: &str) -> (r: Self)
        ensures
            r.spec_cluster_name() == "outbound|"@ + decimal(port as nat) + "||"@ + service_name@
                + "."@ + datacenter@ + ".consul"@,
            r.spec_host_name() == or_else(host@, service_name@),
    {
        ConsulCluster {
            service_name: service_name.to_owned(),
            datacenter: datacenter.to_owned(),
            port,
            host: host.to_owned(),
        }
    }
}

impl Cluster for ConsulCluster {
    fn cluster_name(&self) -> (r: String)
        ensures
            r@ == self.spec_cluster_name(),
    {
        let mut r = "outbound|".to_owned();
        r.append(decimal_text(self.port).as_str());
        r.append("||");
        r.append(self.service_name.as_str());
        r.append(".");
        r.append(self.datacenter.as_str());
        r.append(".consul");
        r
    }

    fn host_name(&self) -> (r: String)
        ensures
            r@ == self.spec_host_name(),
    {
        text_or(&self.host, &self.service_name)
    }
}

/// A service given by its fully qualified domain name.
#[derive(Debug, Clone)]
pub struct FQDNCluster {
    fqdn: String,
    host: String,
    port: u16,
}

impl FQDNCluster {
    /// The name to address the cluster by.
    pub closed spec fn spec_cluster_name(&self) -> Seq<char> {
        "outbound|"@ + decimal(self.port as nat) + "||"@ + self.fqdn@
    }

    /// The host name to put in requests to the cluster.
    pub closed spec fn spec_host_name(&self) -> Seq<char> {
        or_else(self.host@, self.fqdn@)
    }

    /// The service with the domain name `fqdn` at `port`.
    pub fn new(fqdn: &str, host: &str, port: u16) -> (r: Self)
        ensures
            r.spec_cluster_name() == "outbound|"@ + decimal(port as nat) + "||"@ + fqdn@,
            r.spec_host_name() == or_else(host@, fqdn@),
    {
        FQDNCluster { fqdn: fqdn.to_owned(), host: host.to_owned(), port }
    }
}

impl Cluster for FQDNCluster {
    fn cluster_name(&self) -> (r: String)
        ensures
            r@ == self.spec_cluster_name(),
    {
        let mut r = "outbound|".to_owned();
        r.append(decimal_text(self.port).as_str());
        r.append("||");
        r.append(self.fqdn.as_str());
        r
    }

    fn host_name(&self) -> (r: String)
        ensures
            r@ == self.spec_host_name(),
    {
        text_or(&self.host, &self.fqdn)
    }
}

} // verus!
