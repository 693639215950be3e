use near_rust_allocator_proxy::config::{AllocatorConfig, REPORT_USAGE_INTERVAL};

#[test]
fn test() {
    let _ = AllocatorConfig::default()
        .set_report_usage_interval(10000000)
        .enable_stack_trace(false);
}

#[test]
fn config_builders_set_fields() {
    let c = AllocatorConfig::default();
    assert!(c.stack_trace);
    assert_eq!(c.report_usage_interval, REPORT_USAGE_INTERVAL);
    let c = c.set_report_usage_interval(10000000).enable_stack_trace(false);
    assert!(!c.stack_trace);
    assert_eq!(c.report_usage_interval, 10000000);
}
