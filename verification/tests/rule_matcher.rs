use higress_stream::json::Json;
use higress_stream::json_text::parse;
use higress_stream::rule_matcher::{
    strip_port_from_host, Category, MatchType, RuleConfig, RuleMatcher,
};
use std::rc::Rc;

#[derive(Default, PartialEq, Eq, Debug)]
struct CustomConfig {
    name: String,
    age: i64,
}

impl CustomConfig {
    fn new(name: &str, age: i64) -> Self {
        CustomConfig {
            name: name.to_string(),
            age,
        }
    }
}

fn read_custom(value: &Json) -> Result<CustomConfig, String> {
    let name = match value.field("name") {
        None => String::new(),
        Some(Json::String(name)) => name.clone(),
        Some(_) => return Err("invalid type for name".to_string()),
    };
    let age = match value.field("age") {
        None => 0,
        Some(Json::Int(age)) => *age,
        Some(_) => return Err("invalid type for age".to_string()),
    };
    Ok(CustomConfig { name, age })
}

struct MatchTestCase<Config> {
    name: String,
    config: RuleConfig<Config>,
    key: String,
    result: bool,
}

impl<Config> MatchTestCase<Config> {
    fn new(name: &str, key: &str, result: bool, config: RuleConfig<Config>) -> Self {
        MatchTestCase {
            name: name.to_string(),
            key: key.to_string(),
            result,
            config,
        }
    }
}

#[test]
fn test_host_match() {
    let config = Rc::new(CustomConfig::new("test", 1));
    let cases = vec![
        MatchTestCase::new(
            "prefix",
            "www.test.com",
            true,
            RuleConfig::new(Category::Host, config.clone()).add_host(MatchType::Prefix, "www."),
        ),
        MatchTestCase::new(
            "prefix failed",
            "test.com",
            false,
            RuleConfig::new(Category::Host, config.clone()).add_host(MatchType::Prefix, "www."),
        ),
        MatchTestCase::new(
            "suffix",
            "www.example.com",
            true,
            RuleConfig::new(Category::Host, config.clone())
                .add_host(MatchType::Suffix, ".example.com"),
        ),
        MatchTestCase::new(
            "suffix failed",
            "example.com",
            false,
            RuleConfig::new(Category::Host, config.clone())
                .add_host(MatchType::Suffix, ".example.com"),
        ),
        MatchTestCase::new(
            "exact",
            "www.example.com",
            true,
            RuleConfig::new(Category::Host, config.clone())
                .add_host(MatchType::Exact, "www.example.com"),
        ),
        MatchTestCase::new(
            "exact failed",
            "example.com",
            false,
            RuleConfig::new(Category::Host, config.clone())
                .add_host(MatchType::Exact, "www.example.com"),
        ),
        MatchTestCase::new(
            "exact port",
            "www.example.com:8080",
            true,
            RuleConfig::new(Category::Host, config.clone())
                .add_host(MatchType::Exact, "www.example.com"),
        ),
        MatchTestCase::new(
            "any",
            "www.example.com",
            true,
            RuleConfig::new(Category::Host, config.clone()).add_host(MatchType::Suffix, ""),
        ),
    ];
    for case in &cases {
        println!("test {} start", case.name);
        let rule = RuleMatcher::default();
        assert_eq!(
            case.result,
            rule.host_match(&case.config, case.key.as_str())
        );
    }
}

#[test]
fn test_service_match() {
    let config = Rc::new(CustomConfig::new("test", 1));
    let cases = vec![
        MatchTestCase::new(
            "fqdn",
            "outbound|443||qwen.dns",
            true,
            RuleConfig::new(Category::Service, config.clone()).add_service("qwen.dns"),
        ),
        MatchTestCase::new(
            "fqdn with port",
            "outbound|443||qwen.dns",
            true,
            RuleConfig::new(Category::Service, config.clone()).add_service("qwen.dns:443"),
        ),
        MatchTestCase::new(
            "not match",
            "outbound|443||qwen.dns",
            false,
            RuleConfig::new(Category::Service, config.clone()).add_service("moonshot.dns:443"),
        ),
        MatchTestCase::new(
            "error config format",
            "outbound|443||qwen.dns",
            false,
            RuleConfig::new(Category::Service, config.clone()).add_service("qwen.dns:"),
        ),
    ];
    for case in &cases {
        println!("test {} start", case.name);
        let rule = RuleMatcher::default();
        assert_eq!(
            case.result,
            rule.service_match(&case.config, case.key.as_str())
        );
    }
}

struct ParseTestCase<Config> {
    name: String,
    config: String,
    err_msg: String,
    expected_global: Option<Config>,
    expected_rules: Vec<RuleConfig<Config>>,
}

impl<Config: PartialEq + Default> ParseTestCase<Config> {
    fn new(name: &str, config: &str, err_msg: &str) -> Self {
        ParseTestCase {
            name: name.to_string(),
            config: config.to_string(),
            err_msg: err_msg.to_string(),
            expected_global: None,
            expected_rules: Vec::new(),
        }
    }

    fn global_config(mut self, config: Config) -> Self {
        self.expected_global = Some(config);
        self
    }

    fn rule_config(mut self, config: RuleConfig<Config>) -> Self {
        self.expected_rules.push(config);
        self
    }

    fn is_eq(&self, other: &RuleMatcher<Config>) -> bool {
        if self.expected_global.is_some() != other.global_config().is_some() {
            return false;
        }
        if let (Some(a), Some(b)) = (&self.expected_global, other.global_config()) {
            if a != b {
                return false;
            }
        }
        if self.expected_rules.len() != other.rules().len() {
            return false;
        }
        for (s, o) in self.expected_rules.iter().zip(other.rules().iter()) {
            let same_hosts = s.hosts().len() == o.hosts().len()
                && s.hosts()
                    .iter()
                    .zip(o.hosts().iter())
                    .all(|(a, b)| a.match_type == b.match_type && a.host == b.host);
            if s.category() != o.category()
                || s.config() != o.config()
                || s.routes() != o.routes()
                || !same_hosts
                || s.route_prefixes() != o.route_prefixes()
                || s.services() != o.services()
            {
                return false;
            }
        }
        true
    }
}

fn read_all<Config: Default>(
    rule: &mut RuleMatcher<Config>,
    text: &str,
    read: fn(&Json) -> Result<Config, String>,
) -> Result<(), String> {
    let config = parse(text.as_bytes()).unwrap();
    let global = read(&config);
    let mut decoded = Vec::new();
    for i in 0..RuleMatcher::<Config>::rule_count(&config) {
        decoded.push(read(RuleMatcher::<Config>::rule_value(&config, i)));
    }
    rule.parse_rule_config(&config, global, decoded)
        .map_err(|e| e.to_string())
}

const ONLY_ONE: &str = "there is only one of  '_match_route_', '_match_domain_', '_match_service_' and '_match_route_prefix_' can present in configuration.";

#[test]
fn test_parse_rule_config() {
    let cases = vec![
        ParseTestCase::new("global config", r#"{"name":"john", "age":18}"#, "").global_config(CustomConfig::new("john", 18)),
        ParseTestCase::new("no rule", r#"{"_rules_":[]}"#, "parse config failed, no valid rules; global config parse error:"),
        ParseTestCase::new("invalid rule", r#"{"_rules_":[{"_match_domain_":["*"],"_match_route_":["test"]}]}"#, ONLY_ONE),
        ParseTestCase::new("invalid rule", r#"{"_rules_":[{"_match_domain_":["*"],"_match_service_":["test.dns"]}]}"#, ONLY_ONE),
        ParseTestCase::new("invalid rule", r#"{"_rules_":[{"age":16}]}"#, ONLY_ONE),
        ParseTestCase::new("rules config", r#"{"_rules_":[{"_match_domain_":["*.example.com","www.*","*","www.abc.com"],"name":"john", "age":18},{"_match_route_":["test1","test2"],"name":"ann", "age":16},{"_match_service_":["test1.dns","test2.static:8080"],"name":"ann", "age":16},{"_match_route_prefix_":["api1","api2"],"name":"ann", "age":16}]}"#, "")
            .rule_config(RuleConfig::new(Category::Host, Rc::new(CustomConfig::new("john", 18))).add_host(MatchType::Suffix, ".example.com").add_host(MatchType::Prefix, "www.").add_host(MatchType::Suffix, "").add_host(MatchType::Exact, "www.abc.com"))
            .rule_config(RuleConfig::new(Category::Route, Rc::new(CustomConfig::new("ann", 16))).add_route("test1").add_route("test2"))
            .rule_config(RuleConfig::new(Category::Service, Rc::new(CustomConfig::new("ann", 16))).add_service("test1.dns").add_service("test2.static:8080"))
            .rule_config(RuleConfig::new(Category::RoutePrefix, Rc::new(CustomConfig::new("ann", 16))).add_route_prefix("api1").add_route_prefix("api2")),
    ];
    for case in &cases {
        println!("test {} start", case.name);

        let mut rule = RuleMatcher::default();

        let res = read_all(&mut rule, &case.config, read_custom);
        if let Err(e) = res {
            assert_eq!(case.err_msg, e);
        } else {
            assert!(case.err_msg.is_empty())
        }
        assert!(case.is_eq(&rule));
    }
}

#[derive(Default, Clone, PartialEq, Eq, Debug)]
struct CompleteConfig {
    // global config
    consumers: Vec<String>,
    // rule config
    allow: Vec<String>,
}

impl CompleteConfig {
    fn new(consumers: Vec<&str>, allow: Vec<&str>) -> Self {
        CompleteConfig {
            consumers: consumers.iter().map(|s| s.to_string()).collect(),
            allow: allow.iter().map(|s| s.to_string()).collect(),
        }
    }
}

fn read_names(value: &Json, key: &str) -> Result<Vec<String>, String> {
    match value.field(key) {
        None => Ok(Vec::new()),
        Some(Json::Array(items)) => {
            let mut names = Vec::new();
            for item in items {
                match item {
                    Json::String(name) => names.push(name.clone()),
                    _ => return Err(format!("invalid type in {}", key)),
                }
            }
            Ok(names)
        }
        Some(_) => Err(format!("invalid type for {}", key)),
    }
}

fn read_complete(value: &Json) -> Result<CompleteConfig, String> {
    Ok(CompleteConfig {
        consumers: read_names(value, "consumers")?,
        allow: read_names(value, "allow")?,
    })
}

fn override_config(config: &CompleteConfig, global: &CompleteConfig) -> CompleteConfig {
    let mut new_config = global.clone();
    new_config.allow.extend(config.allow.clone());
    new_config
}

#[test]
fn test_parse_override_config() {
    let cases = vec![
        ParseTestCase::new("override rule config", r#"{"consumers":["c1","c2","c3"],"_rules_":[{"_match_route_":["r1","r2"],"allow":["c1","c3"]}]}"#, "")
            .global_config(CompleteConfig::new(vec!["c1", "c2", "c3"], vec![]))
            .rule_config(RuleConfig::new(Category::Route, Rc::new(CompleteConfig::new(vec!["c1", "c2", "c3"], vec!["c1", "c3"]))).add_route("r1").add_route("r2")),
    ];
    for case in &cases {
        println!("test {} start", case.name);

        let mut rule = RuleMatcher::default();

        let res = read_all(&mut rule, &case.config, read_complete);
        if res.is_ok() {
            rule.override_config(override_config);
        }
        if let Err(e) = res {
            assert_eq!(case.err_msg, e);
        } else {
            assert!(case.err_msg.is_empty())
        }
        assert!(case.is_eq(&rule));
    }
}

#[test]
fn port_is_taken_off_the_host() {
    assert_eq!(strip_port_from_host(b"www.example.com:8080"), b"www.example.com");
    assert_eq!(strip_port_from_host(b"www.example.com"), b"www.example.com");
    assert_eq!(strip_port_from_host(b"[::1]:443"), b"[::1]");
    assert_eq!(strip_port_from_host(b"[::1]"), b"[::1]");
    assert_eq!(strip_port_from_host(b"host:"), b"host");
    assert_eq!(strip_port_from_host(b""), b"");
}

#[test]
fn first_matching_rule_gives_the_config() {
    let mut matcher: RuleMatcher<CustomConfig> = RuleMatcher::default();
    let text = r#"{"name":"global","_rules_":[{"_match_route_":["r1"],"name":"route"},{"_match_domain_":["*.example.com"],"name":"host"},{"_match_route_prefix_":["api-"],"name":"prefix"},{"_match_service_":["svc.dns:80"],"name":"service"},{"_match_domain_":["*"],"name":"late"}]}"#;
    assert_eq!(read_all(&mut matcher, text, read_custom), Ok(()));

    let found = matcher.get_match_config("x.example.com:80", "r1", "").unwrap();
    assert_eq!((found.0, found.1.name.as_str()), (0, "route"));
    let found = matcher.get_match_config("x.example.com:80", "r2", "").unwrap();
    assert_eq!((found.0, found.1.name.as_str()), (1, "host"));
    let found = matcher.get_match_config("", "api-1", "").unwrap();
    assert_eq!((found.0, found.1.name.as_str()), (2, "prefix"));
    let found = matcher.get_match_config("", "ap", "outbound|80||svc.dns").unwrap();
    assert_eq!((found.0, found.1.name.as_str()), (3, "service"));
    let found = matcher.get_match_config("other", "ap", "outbound|81||svc.dns").unwrap();
    assert_eq!((found.0, found.1.name.as_str()), (4, "late"));
}

#[test]
fn global_config_applies_where_no_rule_does() {
    let mut matcher: RuleMatcher<CustomConfig> = RuleMatcher::default();
    assert!(matcher.get_match_config("h", "r", "s").is_none());
    let text = r#"{"name":"global","_rules_":[{"_match_route_":["r1"],"name":"route"}]}"#;
    assert_eq!(read_all(&mut matcher, text, read_custom), Ok(()));
    let found = matcher.get_match_config("h", "r", "s").unwrap();
    assert_eq!(found.0, usize::MAX as i64);
    assert_eq!(found.1.name, "global");

    matcher.rewrite_config(|config| CustomConfig::new(&config.name, config.age + 1));
    assert_eq!(matcher.global_config().unwrap().age, 1);
    assert_eq!(matcher.rules()[0].config().age, 1);
}

#[test]
fn empty_config_gives_the_default_global_config() {
    let mut matcher: RuleMatcher<CustomConfig> = RuleMatcher::default();
    assert_eq!(read_all(&mut matcher, "{}", read_custom), Ok(()));
    assert_eq!(matcher.global_config(), Some(&CustomConfig::default()));
    let mut matcher: RuleMatcher<CustomConfig> = RuleMatcher::default();
    assert_eq!(read_all(&mut matcher, "[1]", read_custom), Ok(()));
    assert_eq!(matcher.global_config(), Some(&CustomConfig::default()));
}

#[test]
fn rule_that_cannot_be_read_stops_the_parse() {
    let mut matcher: RuleMatcher<CustomConfig> = RuleMatcher::default();
    let text = r#"{"_rules_":[{"_match_route_":["r1"],"name":"ok"},{"_match_route_":["r2"],"age":"old"},{"_match_route_":["r3"]}]}"#;
    assert_eq!(
        read_all(&mut matcher, text, read_custom),
        Err("invalid type for age".to_string())
    );
    assert_eq!(matcher.rules().len(), 1);
    assert!(matcher.global_config().is_none());

    let mut matcher: RuleMatcher<CustomConfig> = RuleMatcher::default();
    assert_eq!(
        read_all(&mut matcher, r#"{"age":"old"}"#, read_custom),
        Err("parse config failed, no valid rules; global config parse error:invalid type for age".to_string())
    );
}

#[test]
fn names_of_a_rule_are_kept_once_and_without_empties() {
    let mut matcher: RuleMatcher<CustomConfig> = RuleMatcher::default();
    let text = r#"{"_rules_":[{"_match_route_":["a","",3,"b","a"]}]}"#;
    assert_eq!(read_all(&mut matcher, text, read_custom), Ok(()));
    assert_eq!(matcher.rules()[0].routes(), &vec!["a".to_string(), "b".to_string()]);
}
