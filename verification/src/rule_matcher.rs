//! Choosing the configuration that applies to a request.
//!
//! A matcher holds an ordered list of rules and, optionally, a global
//! configuration. A rule names routes, hosts, route prefixes or services. The
//! first rule that the request meets gives the configuration; where no rule
//! does, the global configuration applies.

use crate::error::WasmRustError;
use crate::json::{items_view, lemma_view_array, Json, JsonValue};
use crate::text::{ends_with, last_index_of, rfind, same_bytes, split, split_bytes, starts_with};
use std::rc::Rc;
use vstd::prelude::*;
use vstd::string::*;
use vstd::utf8::*;

verus! {

/// What a rule matches requests by.
#[derive(PartialEq, Eq, Clone, Copy, Debug, Structural)]
pub enum Category {
    Route,
    Host,
    RoutePrefix,
    Service,
}

/// How the host of a request is held against the host of a rule.
#[derive(PartialEq, Eq, Clone, Copy, Debug, Structural)]
pub enum MatchType {
    Prefix,
    Exact,
    Suffix,
}

/// One host pattern of a rule.
pub struct HostMatcher {
    pub match_type: MatchType,
    pub host: String,
}

/// The view of a rule.
pub struct RuleView<PluginConfig> {
    pub category: Category,
    pub routes: Seq<Seq<char>>,
    pub hosts: Seq<(MatchType, Seq<char>)>,
    pub route_prefixes: Seq<Seq<char>>,
    pub services: Seq<Seq<char>>,
    pub config: PluginConfig,
}

/// The texts of `names`, one by one.
pub open spec fn names_view(names: Seq<String>) -> Seq<Seq<char>> {
    Seq::new(names.len(), |i: int| names[i]@)
}

/// The patterns of `hosts`, one by one.
pub open spec fn hosts_view(hosts: Seq<HostMatcher>) -> Seq<(MatchType, Seq<char>)> {
    Seq::new(hosts.len(), |i: int| (hosts[i].match_type, hosts[i].host@))
}

/// A rule: what it matches by, and the configuration it gives.
pub struct RuleConfig<PluginConfig> {
    category: Category,
    routes: Vec<String>,
    hosts: Vec<HostMatcher>,
    route_prefixes: Vec<String>,
    services: Vec<String>,
    config: Rc<PluginConfig>,
}

impl<PluginConfig> View for RuleConfig<PluginConfig> {
    type V = RuleView<PluginConfig>;

    closed spec fn view(&self) -> RuleView<PluginConfig> {
        RuleView {
            category: self.category,
            routes: names_view(self.routes@),
            hosts: hosts_view(self.hosts@),
            route_prefixes: names_view(self.route_prefixes@),
            services: names_view(self.services@),
            config: *self.config,
        }
    }
}

impl<PluginConfig> RuleConfig<PluginConfig> {
    /// A rule of `category` that gives `config` and names nothing yet.
    pub fn new(category: Category, config: Rc<PluginConfig>) -> (r: Self)
        ensures
            r@ == (RuleView {
                category,
                routes: Seq::empty(),
                hosts: Seq::empty(),
                route_prefixes: Seq::empty(),
                services: Seq::empty(),
                config: *config,
            }),
    {
        let r = RuleConfig {
            category,
            routes: Vec::new(),
            hosts: Vec::new(),
            route_prefixes: Vec::new(),
            services: Vec::new(),
            config,
        };
        assert(r@.routes =~= Seq::empty());
        assert(r@.hosts =~= Seq::empty());
        assert(r@.route_prefixes =~= Seq::empty());
        assert(r@.services =~= Seq::empty());
        r
    }

    /// What the rule matches by.
    pub fn category(&self) -> (r: Category)
        ensures
            r == self@.category,
    {
        self.category
    }

    /// The routes that the rule names.
    pub fn routes(&self) -> (r: &Vec<String>)
        ensures
            names_view(r@) == self@.routes,
    {
        &self.routes
    }

    /// The host patterns that the rule names.
    pub fn hosts(&self) -> (r: &Vec<HostMatcher>)
        ensures
            hosts_view(r@) == self@.hosts,
    {
        &self.hosts
    }

    /// The route prefixes that the rule names.
    pub fn route_prefixes(&self) -> (r: &Vec<String>)
        ensures
            names_view(r@) == self@.route_prefixes,
    {
        &self.route_prefixes
    }

    /// The services that the rule names.
    pub fn services(&self) -> (r: &Vec<String>)
        ensures
            names_view(r@) == self@.services,
    {
        &self.services
    }

    /// The configuration that the rule gives.
    pub fn config(&self) -> (r: &PluginConfig)
        ensures
            *r == self@.config,
    {
        &*self.config
    }

    /// The rule with one more host pattern.
    pub fn add_host(self, match_type: MatchType, host: &str) -> (r: Self)
        ensures
            r@ == (RuleView { hosts: self@.hosts.push((match_type, host@)), ..self@ }),
    {
        let mut r = self;
        r.hosts.push(HostMatcher { match_type, host: host.to_owned() });
        assert(r@.hosts =~= self@.hosts.push((match_type, host@)));
        r
    }

    /// The rule with one more route.
    pub fn add_route(self, route: &str) -> (r: Self)
        ensures
            r@ == (RuleView { routes: self@.routes.push(route@), ..self@ }),
    {
        let mut r = self;
        r.routes.push(route.to_owned());
        assert(r@.routes =~= self@.routes.push(route@));
        r
    }

    /// The rule with one more route prefix.
    pub fn add_route_prefix(self, route_prefix: &str) -> (r: Self)
        ensures
            r@ == (RuleView { route_prefixes: self@.route_prefixes.push(route_prefix@), ..self@ }),
    {
        let mut r = self;
        r.route_prefixes.push(route_prefix.to_owned());
        assert(r@.route_prefixes =~= self@.route_prefixes.push(route_prefix@));
        r
    }

    /// The rule with one more service.
    pub fn add_service(self, service_name: &str) -> (r: Self)
        ensures
            r@ == (RuleView { services: self@.services.push(service_name@), ..self@ }),
    {
        let mut r = self;
        r.services.push(service_name.to_owned());
        assert(r@.services =~= self@.services.push(service_name@));
        r
    }
}

/// The byte `:`.
pub const COLON: u8 = 58;

/// The byte `]`.
pub const BRACKET: u8 = 93;

/// The byte `|`.
pub const BAR: u8 = 124;

/// The host without its port: what stands before the last colon, unless a
/// closing bracket follows that colon, as in an IPv6 address without a port.
pub open spec fn strip_port(host: Seq<u8>) -> Seq<u8> {
    let colon = last_index_of(host, COLON);
    if 0 <= colon < host.len() && last_index_of(host, BRACKET) < colon {
        host.subrange(0, colon)
    } else {
        host
    }
}

/// True if `host`, a request's host without its port, meets the pattern.
pub open spec fn host_matches(matcher: (MatchType, Seq<char>), host: Seq<u8>) -> bool {
    match matcher.0 {
        MatchType::Prefix => encode_utf8(matcher.1).is_prefix_of(host),
        MatchType::Suffix => encode_utf8(matcher.1).is_suffix_of(host),
        MatchType::Exact => host == encode_utf8(matcher.1),
    }
}

/// True if the request's host, once its port is taken off, meets one of the patterns.
pub open spec fn any_host_matches(hosts: Seq<(MatchType, Seq<char>)>, request_host: Seq<u8>) -> bool {
    exists|i: int| 0 <= i < hosts.len() && host_matches(#[trigger] hosts[i], strip_port(request_host))
}

/// True if a rule's service names the upstream with this domain name and
/// port: by domain name and port where the service holds a colon, by domain
/// name alone where it holds none.
pub open spec fn service_matches(service: Seq<char>, fqdn: Seq<u8>, port: Seq<u8>) -> bool {
    let name = encode_utf8(service);
    let colon = last_index_of(name, COLON);
    if 0 <= colon < name.len() {
        fqdn == name.subrange(0, colon) && port == name.subrange(colon + 1, name.len() as int)
    } else {
        fqdn == name
    }
}

/// True if the upstream's name has four parts between bars, and one of the
/// services names its fourth part, the domain name, and its second, the port.
pub open spec fn any_service_matches(services: Seq<Seq<char>>, service_name: Seq<u8>) -> bool {
    let parts = split(service_name, BAR, 0);
    parts.len() == 4 && exists|i: int|
        0 <= i < services.len() && service_matches(#[trigger] services[i], parts[3], parts[1])
}

/// True if `route` is one of the routes.
pub open spec fn any_route_is(routes: Seq<Seq<char>>, route: Seq<u8>) -> bool {
    exists|i: int| 0 <= i < routes.len() && encode_utf8(#[trigger] routes[i]) == route
}

/// True if `route` begins with one of the prefixes.
pub open spec fn any_prefix_of(prefixes: Seq<Seq<char>>, route: Seq<u8>) -> bool {
    exists|i: int| 0 <= i < prefixes.len() && encode_utf8(#[trigger] prefixes[i]).is_prefix_of(route)
}

/// True if a request with this host, route name and upstream name meets the rule.
pub open spec fn rule_matches<PluginConfig>(
    rule: RuleView<PluginConfig>,
    host: Seq<u8>,
    route_name: Seq<u8>,
    service_name: Seq<u8>,
) -> bool {
    match rule.category {
        Category::Host => any_host_matches(rule.hosts, host),
        Category::Route => any_route_is(rule.routes, route_name),
        Category::RoutePrefix => any_prefix_of(rule.route_prefixes, route_name),
        Category::Service => any_service_matches(rule.services, service_name),
    }
}

/// The position of the first rule at or after `from` that the request meets,
/// or `rules.len()` if it meets none.
pub open spec fn first_match<PluginConfig>(
    rules: Seq<RuleView<PluginConfig>>,
    host: Seq<u8>,
    route_name: Seq<u8>,
    service_name: Seq<u8>,
    from: int,
) -> int
    decreases rules.len() - from,
{
    if from < 0 || from >= rules.len() {
        rules.len() as int
    } else if rule_matches(rules[from], host, route_name, service_name) {
        from
    } else {
        first_match(rules, host, route_name, service_name, from + 1)
    }
}

/// The index that stands for the global configuration: the greatest `usize`,
/// read as an `i64`.
pub open spec fn global_index() -> int {
    if usize::BITS == 32 {
        0xffff_ffff
    } else {
        -1
    }
}

/// The view of a matcher.
pub struct MatcherView<PluginConfig> {
    pub rules: Seq<RuleView<PluginConfig>>,
    pub global: Option<PluginConfig>,
}

/// The views of `rules`, one by one.
pub open spec fn rules_view<PluginConfig>(rules: Seq<RuleConfig<PluginConfig>>) -> Seq<
    RuleView<PluginConfig>,
> {
    Seq::new(rules.len(), |i: int| rules[i]@)
}

/// The rules and the global configuration of a plugin.
pub struct RuleMatcher<PluginConfig> {
    rule_config: Vec<RuleConfig<PluginConfig>>,
    global_config: Option<Rc<PluginConfig>>,
}

impl<PluginConfig> View for RuleMatcher<PluginConfig> {
    type V = MatcherView<PluginConfig>;

    closed spec fn view(&self) -> MatcherView<PluginConfig> {
        MatcherView {
            rules: rules_view(self.rule_config@),
            global: match self.global_config {
                Some(config) => Some(*config),
                None => None,
            },
        }
    }
}

impl<PluginConfig> Default for RuleMatcher<PluginConfig> {
    fn default() -> (r: Self)
        ensures
            r@ == (MatcherView::<PluginConfig> { rules: Seq::empty(), global: None }),
    {
        let r = RuleMatcher { rule_config: Vec::new(), global_config: None };
        assert(r@.rules =~= Seq::empty());
        r
    }
}

/// `Rc::clone`: one more handle to the same value.
#[verifier::external_body]
fn share<T>(rc: &Rc<T>) -> (r: Rc<T>)
    ensures
        r == *rc,
{
    Rc::clone(rc)
}

/// The host without its port: see `strip_port`.
pub fn strip_port_from_host(req_host: &[u8]) -> (r: &[u8])
    ensures
        r@ == strip_port(req_host@),
{
    if let Some(port_start) = rfind(req_host, COLON) {
        let v6_end_index = rfind(req_host, BRACKET);
        let before = match v6_end_index {
            Some(idx) => idx < port_start,
            None => true,
        };
        if before {
            return vstd::slice::slice_subrange(req_host, 0, port_start);
        }
    }
    req_host
}

/// True if `name` is one of `names`.
fn holds(names: &Vec<String>, name: &[u8]) -> (r: bool)
    ensures
        r == any_route_is(names_view(names@), name@),
{
    let mut i: usize = 0;
    while i < names.len()
        invariant
            i <= names@.len(),
            forall|j: int| 0 <= j < i ==> encode_utf8(#[trigger] names_view(names@)[j]) != name@,
        decreases names@.len() - i,
    {
        if same_bytes(names[i].as_str().as_bytes(), name) {
            assert(encode_utf8(names_view(names@)[i as int]) == name@);
            return true;
        }
        i += 1;
    }
    false
}

/// True if `name` begins with one of `prefixes`.
fn holds_prefix_of(prefixes: &Vec<String>, name: &[u8]) -> (r: bool)
    ensures
        r == any_prefix_of(names_view(prefixes@), name@),
{
    let mut i: usize = 0;
    while i < prefixes.len()
        invariant
            i <= prefixes@.len(),
            forall|j: int|
                0 <= j < i ==> !encode_utf8(#[trigger] names_view(prefixes@)[j]).is_prefix_of(
                    name@,
                ),
        decreases prefixes@.len() - i,
    {
        if starts_with(name, prefixes[i].as_str().as_bytes()) {
            assert(encode_utf8(names_view(prefixes@)[i as int]).is_prefix_of(name@));
            return true;
        }
        i += 1;
    }
    false
}

impl<PluginConfig> RuleMatcher<PluginConfig> {
    /// The rules, in their order.
    pub fn rules(&self) -> (r: &Vec<RuleConfig<PluginConfig>>)
        ensures
            rules_view(r@) == self@.rules,
    {
        &self.rule_config
    }

    /// The global configuration, if there is one.
    pub fn global_config(&self) -> (r: Option<&PluginConfig>)
        ensures
            match r {
                Some(config) => self@.global == Some(*config),
                None => self@.global is None,
            },
    {
        match &self.global_config {
            Some(config) => Some(&**config),
            None => None,
        }
    }

    /// True if the host of the request meets one of the rule's host patterns.
    pub fn host_match(&self, rule: &RuleConfig<PluginConfig>, request_host: &str) -> (r: bool)
        ensures
            r == any_host_matches(rule@.hosts, request_host.spec_bytes()),
    {
        let stripped = strip_port_from_host(request_host.as_bytes());
        let mut i: usize = 0;
        while i < rule.hosts.len()
            invariant
                i <= rule.hosts@.len(),
                stripped@ == strip_port(request_host.spec_bytes()),
                forall|j: int|
                    0 <= j < i ==> !host_matches(#[trigger] hosts_view(rule.hosts@)[j], stripped@),
            decreases rule.hosts@.len() - i,
        {
            let host = &rule.hosts[i];
            let pattern = host.host.as_str().as_bytes();
            let matched = match host.match_type {
                MatchType::Prefix => starts_with(stripped, pattern),
                MatchType::Suffix => ends_with(stripped, pattern),
                MatchType::Exact => same_bytes(stripped, pattern),
            };
            if matched {
                assert(host_matches(hosts_view(rule.hosts@)[i as int], stripped@));
                return true;
            }
            i += 1;
        }
        false
    }

    /// True if one of the rule's services names the upstream `service_name`.
    pub fn service_match(&self, rule: &RuleConfig<PluginConfig>, service_name: &str) -> (r: bool)
        ensures
            r == any_service_matches(rule@.services, service_name.spec_bytes()),
    {
        let parts = split_bytes(service_name.as_bytes(), BAR);
        if parts.len() != 4 {
            return false;
        }
        let port = parts[1].as_slice();
        let fqdn = parts[3].as_slice();
        let mut i: usize = 0;
        while i < rule.services.len()
            invariant
                i <= rule.services@.len(),
                split(service_name.spec_bytes(), BAR, 0).len() == 4,
                port@ == split(service_name.spec_bytes(), BAR, 0)[1],
                fqdn@ == split(service_name.spec_bytes(), BAR, 0)[3],
                forall|j: int|
                    0 <= j < i ==> !service_matches(
                        #[trigger] names_view(rule.services@)[j],
                        fqdn@,
                        port@,
                    ),
            decreases rule.services@.len() - i,
        {
            let name = rule.services[i].as_str().as_bytes();
            let ghost n = name.len();
            let matched = if let Some(colon_index) = rfind(name, COLON) {
                same_bytes(fqdn, vstd::slice::slice_subrange(name, 0, colon_index)) && same_bytes(
                    port,
                    vstd::slice::slice_subrange(name, colon_index + 1, name.len()),
                )
            } else {
                same_bytes(fqdn, name)
            };
            if matched {
                assert(service_matches(names_view(rule.services@)[i as int], fqdn@, port@));
                return true;
            }
            i += 1;
        }
        false
    }

    /// True if a request with this host, route name and upstream name meets `rule`.
    fn rule_match(
        &self,
        rule: &RuleConfig<PluginConfig>,
        host: &str,
        route_name: &str,
        service_name: &str,
    ) -> (r: bool)
        ensures
            r == rule_matches(
                rule@,
                host.spec_bytes(),
                route_name.spec_bytes(),
                service_name.spec_bytes(),
            ),
    {
        match rule.category {
            Category::Host => self.host_match(rule, host),
            Category::Route => holds(&rule.routes, route_name.as_bytes()),
            Category::RoutePrefix => holds_prefix_of(&rule.route_prefixes, route_name.as_bytes()),
            Category::Service => self.service_match(rule, service_name),
        }
    }

    /// The configuration for a request with this host, route name and
    /// upstream name: that of the first rule that the request meets, with the
    /// rule's position; else the global configuration, with `global_index`;
    /// `None` where there is neither.
    pub fn get_match_config(&self, host: &str, route_name: &str, service_name: &str) -> (r: Option<
        (i64, Rc<PluginConfig>),
    >)
        requires
            self@.rules.len() <= i64::MAX,
        ensures
            ({
                let at = first_match(
                    self@.rules,
                    host.spec_bytes(),
                    route_name.spec_bytes(),
                    service_name.spec_bytes(),
                    0,
                );
                match r {
                    Some((index, config)) => if at < self@.rules.len() {
                        index == at && *config == self@.rules[at].config
                    } else {
                        index == global_index() && self@.global == Some(*config)
                    },
                    None => at == self@.rules.len() && self@.global is None,
                }
            }),
    {
        let ghost rules = self@.rules;
        let ghost h = host.spec_bytes();
        let ghost rn = route_name.spec_bytes();
        let ghost sn = service_name.spec_bytes();
        let mut i: usize = 0;
        let mut index: i64 = 0;
        while i < self.rule_config.len()
            invariant
                i <= self.rule_config@.len(),
                index == i,
                rules == self@.rules,
                rules.len() == self.rule_config@.len(),
                rules.len() <= i64::MAX,
                h == host.spec_bytes(),
                rn == route_name.spec_bytes(),
                sn == service_name.spec_bytes(),
                first_match(rules, h, rn, sn, 0) == first_match(rules, h, rn, sn, i as int),
            decreases self.rule_config@.len() - i,
        {
            let rule = &self.rule_config[i];
            if self.rule_match(rule, host, route_name, service_name) {
                return Some((index, share(&rule.config)));
            }
            i += 1;
            index += 1;
        }
        match &self.global_config {
            Some(config) => {
                let index: i64 = if usize::BITS == 32 {
                    0xffff_ffff
                } else {
                    -1
                };
                Some((index, share(config)))
            },
            None => None,
        }
    }

    /// Replaces the configuration of every rule by what `override_func`
    /// makes of it and the global configuration. Without a global
    /// configuration nothing changes.
    pub fn override_config<F: Fn(&PluginConfig, &PluginConfig) -> PluginConfig>(
        &mut self,
        override_func: F,
    )
        requires
            forall|i: int|
                0 <= i < old(self)@.rules.len() && old(self)@.global is Some ==> call_requires(
                    override_func,
                    (&(#[trigger] old(self)@.rules[i]).config, &old(self)@.global->0),
                ),
        ensures
            final(self)@.global == old(self)@.global,
            final(self)@.rules.len() == old(self)@.rules.len(),
            old(self)@.global is None ==> final(self)@.rules == old(self)@.rules,
            forall|i: int|
                0 <= i < old(self)@.rules.len() && old(self)@.global is Some ==> (
                #[trigger] final(self)@.rules[i]) == (RuleView {
                    config: final(self)@.rules[i].config,
                    ..old(self)@.rules[i]
                }) && call_ensures(
                    override_func,
                    (&old(self)@.rules[i].config, &old(self)@.global->0),
                    final(self)@.rules[i].config,
                ),
    {
        let ghost before = self@;
        match &self.global_config {
            Some(global) => {
                let global = share(global);
                let mut i: usize = 0;
                while i < self.rule_config.len()
                    invariant
                        i <= self.rule_config@.len(),
                        before == old(self)@,
                        before.global == Some(*global),
                        self@.global == before.global,
                        self@.rules.len() == before.rules.len(),
                        self@.rules.len() == self.rule_config@.len(),
                        forall|j: int|
                            0 <= j < before.rules.len() ==> call_requires(
                                override_func,
                                (&(#[trigger] before.rules[j]).config, &before.global->0),
                            ),
                        forall|j: int| i <= j < before.rules.len() ==> self@.rules[j] == before.rules[j],
                        forall|j: int|
                            0 <= j < i ==> (#[trigger] self@.rules[j]) == (RuleView {
                                config: self@.rules[j].config,
                                ..before.rules[j]
                            }) && call_ensures(
                                override_func,
                                (&before.rules[j].config, &before.global->0),
                                self@.rules[j].config,
                            ),
                    decreases self.rule_config@.len() - i,
                {
                    let ghost sofar = self@.rules;
                    assert(sofar[i as int] == before.rules[i as int]);
                    let made = override_func(&*self.rule_config[i].config, &*global);
                    self.rule_config[i].config = Rc::new(made);
                    assert(self@.rules =~= sofar.update(
                        i as int,
                        RuleView { config: made, ..sofar[i as int] },
                    ));
                    i += 1;
                }
            },
            None => {},
        }
    }

    /// Replaces the global configuration, where there is one, and that of
    /// every rule by what `rewrite` makes of it.
    pub fn rewrite_config<F: Fn(&PluginConfig) -> PluginConfig>(&mut self, rewrite: F)
        requires
            old(self)@.global is Some ==> call_requires(rewrite, (&old(self)@.global->0,)),
            forall|i: int|
                0 <= i < old(self)@.rules.len() ==> call_requires(
                    rewrite,
                    (&(#[trigger] old(self)@.rules[i]).config,),
                ),
        ensures
            final(self)@.global is Some == old(self)@.global is Some,
            old(self)@.global is Some ==> call_ensures(
                rewrite,
                (&old(self)@.global->0,),
                final(self)@.global->0,
            ),
            final(self)@.rules.len() == old(self)@.rules.len(),
            forall|i: int|
                0 <= i < old(self)@.rules.len() ==> (#[trigger] final(self)@.rules[i]) == (
                RuleView { config: final(self)@.rules[i].config, ..old(self)@.rules[i] })
                    && call_ensures(
                    rewrite,
                    (&old(self)@.rules[i].config,),
                    final(self)@.rules[i].config,
                ),
    {
        let ghost before = self@;
        let made = match &self.global_config {
            Some(global_config) => Some(Rc::new(rewrite(&**global_config))),
            None => None,
        };
        self.global_config = made;
        let mut i: usize = 0;
        while i < self.rule_config.len()
            invariant
                i <= self.rule_config@.len(),
                before == old(self)@,
                self@.global is Some == before.global is Some,
                before.global is Some ==> call_ensures(
                    rewrite,
                    (&before.global->0,),
                    self@.global->0,
                ),
                self@.rules.len() == before.rules.len(),
                self@.rules.len() == self.rule_config@.len(),
                forall|j: int|
                    0 <= j < before.rules.len() ==> call_requires(
                        rewrite,
                        (&(#[trigger] before.rules[j]).config,),
                    ),
                forall|j: int| i <= j < before.rules.len() ==> self@.rules[j] == before.rules[j],
                forall|j: int|
                    0 <= j < i ==> (#[trigger] self@.rules[j]) == (RuleView {
                        config: self@.rules[j].config,
                        ..before.rules[j]
                    }) && call_ensures(rewrite, (&before.rules[j].config,), self@.rules[j].config),
            decreases self.rule_config@.len() - i,
        {
            let ghost sofar = self@.rules;
            assert(sofar[i as int] == before.rules[i as int]);
            let made = rewrite(&*self.rule_config[i].config);
            self.rule_config[i].config = Rc::new(made);
            assert(self@.rules =~= sofar.update(
                i as int,
                RuleView { config: made, ..sofar[i as int] },
            ));
            i += 1;
        }
    }
}

/// The strings of the array that `field` holds; none where it holds no array.
pub open spec fn array_items(field: Option<JsonValue>) -> Seq<JsonValue> {
    match field {
        Some(JsonValue::Array(items)) => items,
        _ => Seq::empty(),
    }
}

/// The text of a string; the empty text for any other value.
pub open spec fn text_of(v: JsonValue) -> Seq<char> {
    match v {
        JsonValue::String(text) => text,
        _ => Seq::empty(),
    }
}

/// The names among the first `n` of `items`: the texts that are not empty,
/// each once, in the order of their first occurrence.
pub open spec fn match_names(items: Seq<JsonValue>, n: int) -> Seq<Seq<char>>
    decreases n,
{
    if n <= 0 || n > items.len() {
        Seq::empty()
    } else {
        let before = match_names(items, n - 1);
        let name = text_of(items[n - 1]);
        if name.len() == 0 || before.contains(name) {
            before
        } else {
            before.push(name)
        }
    }
}

/// The pattern that a configured host stands for: a leading star asks for a
/// suffix, a trailing star for a prefix, no star for the very host.
pub open spec fn host_matcher_of(host: Seq<char>) -> (MatchType, Seq<char>) {
    if host.len() > 0 && host[0] == '*' {
        (MatchType::Suffix, host.subrange(1, host.len() as int))
    } else if host.len() > 0 && host.last() == '*' {
        (MatchType::Prefix, host.subrange(0, host.len() - 1))
    } else {
        (MatchType::Exact, host)
    }
}

/// The patterns of `items`, one for each.
pub open spec fn match_hosts(items: Seq<JsonValue>) -> Seq<(MatchType, Seq<char>)> {
    Seq::new(items.len(), |i: int| host_matcher_of(text_of(items[i])))
}

/// The names that `rule` lists under `key`.
pub open spec fn names_under(rule: JsonValue, key: Seq<char>) -> Seq<Seq<char>> {
    let items = array_items(rule.field(key));
    match_names(items, items.len() as int)
}

/// The rule that `rule` describes, with `config` as its configuration, or
/// `None` unless exactly one of its four lists holds something.
pub open spec fn rule_of<PluginConfig>(rule: JsonValue, config: PluginConfig) -> Option<
    RuleView<PluginConfig>,
> {
    let routes = names_under(rule, "_match_route_"@);
    let hosts = match_hosts(array_items(rule.field("_match_domain_"@)));
    let services = names_under(rule, "_match_service_"@);
    let route_prefixes = names_under(rule, "_match_route_prefix_"@);
    let filled = (if routes.len() > 0 {
        1int
    } else {
        0int
    }) + (if hosts.len() > 0 {
        1int
    } else {
        0int
    }) + (if services.len() > 0 {
        1int
    } else {
        0int
    }) + (if route_prefixes.len() > 0 {
        1int
    } else {
        0int
    });
    if filled == 1 {
        Some(
            RuleView {
                category: if routes.len() > 0 {
                    Category::Route
                } else if hosts.len() > 0 {
                    Category::Host
                } else if services.len() > 0 {
                    Category::Service
                } else {
                    Category::RoutePrefix
                },
                routes,
                hosts,
                route_prefixes,
                services,
                config,
            },
        )
    } else {
        None
    }
}

/// The message for a rule that does not fill exactly one of its lists.
pub open spec fn only_one_message() -> Seq<char> {
    "there is only one of  '_match_route_', '_match_domain_', '_match_service_' and '_match_route_prefix_' can present in configuration."@
}

/// The message for a configuration without rules and without a global
/// configuration; `error` is what reading the global configuration gave.
pub open spec fn no_rules_message(error: Seq<char>) -> Seq<char> {
    "parse config failed, no valid rules; global config parse error:"@ + error
}

/// The rules of a matcher after some were added, and the error that stopped
/// the adding, if any.
pub struct Added<PluginConfig> {
    pub rules: Seq<RuleView<PluginConfig>>,
    pub error: Option<Seq<char>>,
}

/// The view of what reading a configuration gave.
pub open spec fn result_view<PluginConfig>(r: Result<PluginConfig, String>) -> Result<
    PluginConfig,
    Seq<char>,
> {
    match r {
        Ok(config) => Ok(config),
        Err(error) => Err(error@),
    }
}

/// The views of `results`, one by one.
pub open spec fn results_view<PluginConfig>(results: Seq<Result<PluginConfig, String>>) -> Seq<
    Result<PluginConfig, Seq<char>>,
> {
    Seq::new(results.len(), |i: int| result_view(results[i]))
}

/// The rules after those of `values[from..]` were added behind `rules`, one
/// by one, each with the configuration read for it. The first rule whose
/// configuration could not be read, or that does not fill exactly one of
/// its lists, stops the adding with an error.
pub open spec fn add_rules<PluginConfig>(
    rules: Seq<RuleView<PluginConfig>>,
    values: Seq<JsonValue>,
    decoded: Seq<Result<PluginConfig, Seq<char>>>,
    from: int,
) -> Added<PluginConfig>
    decreases values.len() - from,
{
    if from < 0 || from >= values.len() {
        Added { rules, error: None }
    } else {
        match decoded[from] {
            Err(error) => Added { rules, error: Some(error) },
            Ok(config) => match rule_of(values[from], config) {
                None => Added { rules, error: Some(only_one_message()) },
                Some(rule) => add_rules(rules.push(rule), values, decoded, from + 1),
            },
        }
    }
}

/// The values that describe the rules of `config`: the items of its
/// `_rules_`, if that is an array.
pub open spec fn rule_values(config: JsonValue) -> Seq<JsonValue> {
    array_items(config.field("_rules_"@))
}

/// True if `config` holds a field besides `_rules_`: the global
/// configuration is read from it only then.
pub open spec fn has_global_fields(config: JsonValue) -> bool {
    config.fields().len() > (if config.field("_rules_"@) is Some {
        1int
    } else {
        0int
    })
}

/// What a configuration with at least one field makes of a matcher, and the
/// error it ends with, if any. `global` is what reading the whole
/// configuration gave, `decoded` what reading each of its rules gave.
pub open spec fn parsed<PluginConfig>(
    before: MatcherView<PluginConfig>,
    config: JsonValue,
    global: Result<PluginConfig, Seq<char>>,
    decoded: Seq<Result<PluginConfig, Seq<char>>>,
) -> (MatcherView<PluginConfig>, Option<Seq<char>>) {
    let new_global = if has_global_fields(config) && global is Ok {
        Some(global->Ok_0)
    } else {
        before.global
    };
    let global_error = if has_global_fields(config) && global is Err {
        global->Err_0
    } else {
        Seq::empty()
    };
    let added = add_rules(before.rules, rule_values(config), decoded, 0);
    if rule_values(config).len() == 0 {
        (
            MatcherView { rules: before.rules, global: new_global },
            if new_global is Some {
                None
            } else {
                Some(no_rules_message(global_error))
            },
        )
    } else {
        (MatcherView { rules: added.rules, global: new_global }, added.error)
    }
}

/// The items of the array under `key`; none where there is no array.
fn array_under<'a>(config: &'a Json, key: &str) -> (r: Option<&'a Vec<Json>>)
    ensures
        match r {
            Some(items) => items_view(items@) == array_items(config@.field(key@)),
            None => array_items(config@.field(key@)).len() == 0,
        },
{
    match config.field(key) {
        Some(Json::Array(items)) => {
            proof {
                lemma_view_array(*items);
            }
            Some(items)
        },
        _ => None,
    }
}

/// The text of a string; the empty text for any other value.
fn text_under(v: &Json) -> (r: &str)
    ensures
        r@ == text_of(v@),
{
    match v {
        Json::String(text) => text.as_str(),
        _ => {
            let none = "";
            proof {
                reveal_strlit("");
                assert(none@ =~= Seq::<char>::empty());
            }
            none
        },
    }
}

/// True if `names` holds `name`.
fn lists(names: &Vec<String>, name: &String) -> (r: bool)
    ensures
        r == names_view(names@).contains(name@),
{
    let mut i: usize = 0;
    while i < names.len()
        invariant
            i <= names@.len(),
            forall|j: int| 0 <= j < i ==> names_view(names@)[j] != name@,
        decreases names@.len() - i,
    {
        if names[i] == *name {
            assert(names_view(names@)[i as int] == name@);
            return true;
        }
        i += 1;
    }
    false
}

/// The names that `config` lists under `json_key`: see `names_under`.
fn parse_match_config(json_key: &str, config: &Json) -> (r: Vec<String>)
    ensures
        names_view(r@) == names_under(config@, json_key@),
{
    let mut values: Vec<String> = Vec::new();
    if let Some(keys) = array_under(config, json_key) {
        let ghost items = items_view(keys@);
        let mut i: usize = 0;
        assert(names_view(values@) =~= match_names(items, 0));
        while i < keys.len()
            invariant
                i <= keys@.len(),
                items == items_view(keys@),
                names_view(values@) == match_names(items, i as int),
            decreases keys@.len() - i,
        {
            let value = text_under(&keys[i]).to_owned();
            if !value.as_str().is_empty() && !lists(&values, &value) {
                let ghost before = names_view(values@);
                values.push(value);
                assert(names_view(values@) =~= before.push(value@));
            }
            i += 1;
        }
    } else {
        assert(names_view(values@) =~= Seq::empty());
    }
    values
}

/// The pattern that a configured host stands for: see `host_matcher_of`.
fn parse_host(host: &str) -> (r: HostMatcher)
    ensures
        (r.match_type, r.host@) == host_matcher_of(host@),
{
    let n = host.unicode_len();
    if n > 0 && host.get_char(0) == '*' {
        HostMatcher { match_type: MatchType::Suffix, host: host.substring_char(1, n).to_owned() }
    } else if n > 0 && host.get_char(n - 1) == '*' {
        HostMatcher {
            match_type: MatchType::Prefix,
            host: host.substring_char(0, n - 1).to_owned(),
        }
    } else {
        HostMatcher { match_type: MatchType::Exact, host: host.to_owned() }
    }
}

/// The host patterns that `config` lists under `_match_domain_`.
fn parse_host_match_config(config: &Json) -> (r: Vec<HostMatcher>)
    ensures
        hosts_view(r@) == match_hosts(array_items(config@.field("_match_domain_"@))),
{
    let mut host_matchers: Vec<HostMatcher> = Vec::new();
    if let Some(keys) = array_under(config, "_match_domain_") {
        let mut i: usize = 0;
        while i < keys.len()
            invariant
                i <= keys@.len(),
                host_matchers@.len() == i,
                forall|j: int|
                    0 <= j < i ==> (#[trigger] hosts_view(host_matchers@)[j]) == host_matcher_of(
                        text_of(items_view(keys@)[j]),
                    ),
            decreases keys@.len() - i,
        {
            let host_matcher = parse_host(text_under(&keys[i]));
            let ghost before = hosts_view(host_matchers@);
            host_matchers.push(host_matcher);
            assert(hosts_view(host_matchers@) =~= before.push(
                host_matcher_of(text_of(items_view(keys@)[i as int])),
            ));
            i += 1;
        }
        assert(hosts_view(host_matchers@) =~= match_hosts(items_view(keys@)));
    } else {
        assert(hosts_view(host_matchers@) =~= Seq::empty());
    }
    host_matchers
}

/// The rule that `rule_json` describes: see `rule_of`.
fn parse_rule<PluginConfig>(rule_json: &Json, config: PluginConfig) -> (r: Option<
    RuleConfig<PluginConfig>,
>)
    ensures
        match r {
            Some(rule) => rule_of(rule_json@, config) == Some(rule@),
            None => rule_of(rule_json@, config) is None,
        },
{
    let routes = parse_match_config("_match_route_", rule_json);
    let hosts = parse_host_match_config(rule_json);
    let services = parse_match_config("_match_service_", rule_json);
    let route_prefixes = parse_match_config("_match_route_prefix_", rule_json);
    let no_routes = routes.len() == 0;
    let no_hosts = hosts.len() == 0;
    let no_service = services.len() == 0;
    let no_route_prefix = route_prefixes.len() == 0;
    let mut empties: u8 = 0;
    if no_routes {
        empties += 1;
    }
    if no_hosts {
        empties += 1;
    }
    if no_service {
        empties += 1;
    }
    if no_route_prefix {
        empties += 1;
    }
    if empties != 3 {
        return None;
    }
    let category = if !no_routes {
        Category::Route
    } else if !no_hosts {
        Category::Host
    } else if !no_service {
        Category::Service
    } else {
        Category::RoutePrefix
    };
    Some(RuleConfig { category, routes, hosts, route_prefixes, services, config: Rc::new(config) })
}

impl<PluginConfig: Default> RuleMatcher<PluginConfig> {
    /// The number of rules that `config` describes: as many configurations,
    /// one read from each rule, go to `parse_rule_config`.
    pub fn rule_count(config: &Json) -> (r: usize)
        ensures
            r == rule_values(config@).len(),
    {
        match array_under(config, "_rules_") {
            Some(rules) => rules.len(),
            None => 0,
        }
    }

    /// The value that describes rule `i` of `config`.
    pub fn rule_value(config: &Json, i: usize) -> (r: &Json)
        requires
            i < rule_values(config@).len(),
        ensures
            r@ == rule_values(config@)[i as int],
    {
        match array_under(config, "_rules_") {
            Some(rules) => &rules[i],
            None => config,
        }
    }

    /// Takes the configuration `config` into the matcher. `global` is what
    /// reading the whole of `config` as a plugin configuration gave, and
    /// `decoded` what reading each of its rules gave.
    ///
    /// A configuration without fields makes the default configuration the
    /// global one. Otherwise the global configuration is taken from `global`
    /// where `config` has a field besides `_rules_`, and the rules are added
    /// one by one: see `parsed`.
    pub fn parse_rule_config(
        &mut self,
        config: &Json,
        global: Result<PluginConfig, String>,
        decoded: Vec<Result<PluginConfig, String>>,
    ) -> (r: Result<(), WasmRustError>)
        requires
            decoded@.len() == rule_values(config@).len(),
        ensures
            config@.fields().len() == 0 ==> r is Ok && final(self)@.rules == old(self)@.rules
                && final(self)@.global is Some && call_ensures(
                PluginConfig::default,
                (),
                final(self)@.global->0,
            ),
            config@.fields().len() > 0 ==> final(self)@ == parsed(
                old(self)@,
                config@,
                result_view(global),
                results_view(decoded@),
            ).0 && (match r {
                Ok(_) => parsed(
                    old(self)@,
                    config@,
                    result_view(global),
                    results_view(decoded@),
                ).1 is None,
                Err(error) => parsed(
                    old(self)@,
                    config@,
                    result_view(global),
                    results_view(decoded@),
                ).1 == Some(error@),
            }),
    {
        let ghost before = self@;
        let ghost read = result_view(global);
        let ghost goal = parsed(before, config@, read, results_view(decoded@));
        let key_count = match config {
            Json::Object(fields) => {
                proof {
                    crate::json::lemma_view_object(*fields);
                }
                fields.len()
            },
            _ => 0,
        };
        if key_count == 0 {
            self.global_config = Some(Rc::new(PluginConfig::default()));
            return Ok(());
        }
        let has_rules = config.field("_rules_").is_some();
        let global_fields = if has_rules {
            key_count > 1
        } else {
            true
        };
        let mut global_config_error = WasmRustError::default();
        if global_fields {
            match global {
                Ok(plugin_config) => {
                    self.global_config = Some(Rc::new(plugin_config));
                },
                Err(err) => {
                    global_config_error = WasmRustError::new(err);
                },
            }
        }
        let count = Self::rule_count(config);
        if count == 0 {
            return match self.global_config {
                Some(_) => Ok(()),
                None => {
                    let mut message =
                        "parse config failed, no valid rules; global config parse error:".to_owned();
                    message.append(global_config_error.description());
                    Err(WasmRustError::new(message))
                },
            };
        }
        let ghost values = rule_values(config@);
        let ghost results = results_view(decoded@);
        let mut left = decoded;
        let mut i: usize = 0;
        while i < count
            invariant
                i <= count,
                count == values.len(),
                left@.len() == count,
                values == rule_values(config@),
                results == results_view(decoded@),
                goal == parsed(before, config@, read, results),
                before == old(self)@,
                read == result_view(global),
                config@.fields().len() > 0,
                self@.global == goal.0.global,
                forall|k: int| i <= k < count ==> result_view(#[trigger] left@[k]) == results[k],
                add_rules(before.rules, values, results, 0) == add_rules(
                    self@.rules,
                    values,
                    results,
                    i as int,
                ),
            decreases count - i,
        {
            let mut taken: Result<PluginConfig, String> = Err(String::new());
            core::mem::swap(&mut left[i], &mut taken);
            let plugin_config = match taken {
                Ok(plugin_config) => plugin_config,
                Err(error) => {
                    return Err(WasmRustError::new(error));
                },
            };
            let rule = match parse_rule(Self::rule_value(config, i), plugin_config) {
                Some(rule) => rule,
                None => {
                    return Err(
                        WasmRustError::new(
                            "there is only one of  '_match_route_', '_match_domain_', '_match_service_' and '_match_route_prefix_' can present in configuration.".to_owned(),
                        ),
                    );
                },
            };
            let ghost sofar = self@.rules;
            self.rule_config.push(rule);
            assert(self@.rules =~= sofar.push(rule@));
            i += 1;
        }
        Ok(())
    }
}

} // verus!
