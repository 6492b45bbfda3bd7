use higress_stream::error::WasmRustError;
use higress_stream::log::{Log, LogLevel};
use higress_stream::usage::Usage;

#[test]
fn lines_carry_the_plugin_name() {
    let log = Log::new("ai-data-masking".to_string());
    let line = log.warn("custom deny word matched");
    assert!(line.level == LogLevel::Warn);
    assert_eq!(line.message, "[ai-data-masking] custom deny word matched");
    assert!(log.trace("m").level == LogLevel::Trace);
    assert!(log.debug("m").level == LogLevel::Debug);
    assert!(log.info("m").level == LogLevel::Info);
    assert!(log.error("m").level == LogLevel::Error);
    assert!(log.critical("m").level == LogLevel::Critical);
    assert_eq!(log.critical("").message, "[ai-data-masking] ");
}

#[test]
fn formatted_lines_respect_the_level_of_the_host() {
    let log = Log::new("p".to_string());
    assert!(log.infof(Some(LogLevel::Warn), "m").is_none());
    assert!(log.infof(None, "m").is_none());
    let line = log.infof(Some(LogLevel::Info), "Hello, World!").unwrap();
    assert!(line.level == LogLevel::Info);
    assert_eq!(line.message, "[p] Hello, World!");
    assert!(log.tracef(Some(LogLevel::Trace), "m").is_some());
    assert!(log.tracef(Some(LogLevel::Debug), "m").is_none());
    assert!(log.debugf(Some(LogLevel::Debug), "m").is_some());
    assert!(log.warnf(Some(LogLevel::Error), "m").is_none());
    assert!(log.errorf(Some(LogLevel::Error), "m").is_some());
    assert!(log.criticalf(Some(LogLevel::Critical), "m").is_some());
    assert_eq!(LogLevel::Critical.number(), 5);
    assert_eq!(LogLevel::Trace.number(), 0);
}

#[test]
fn error_shows_its_message() {
    let error = WasmRustError::new("parse_rule_config fail".to_string());
    assert_eq!(error.to_string(), "parse_rule_config fail");
    assert_eq!(error.description(), "parse_rule_config fail");
    assert_eq!(WasmRustError::default().to_string(), "");
}

#[test]
fn usage_counters_add_up_and_reset() {
    let mut usage = Usage::default();
    usage.add(&Usage { completion_tokens: 9, prompt_tokens: 372, total_tokens: 381 });
    usage.add(&Usage { completion_tokens: 1, prompt_tokens: 0, total_tokens: 1 });
    assert_eq!(usage, Usage { completion_tokens: 10, prompt_tokens: 372, total_tokens: 382 });
    usage.reset();
    assert_eq!(usage, Usage::default());
}
