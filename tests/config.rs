use yambar_temperature::config::{
    parse_poll_interval, parse_unit, resolve, ConfigError, NameFilter, TemperatureUnit,
};

#[test]
fn unit_tokens_are_exact() {
    assert_eq!(parse_unit("celsius"), Some(TemperatureUnit::Celsius));
    assert_eq!(parse_unit("fahrenheit"), Some(TemperatureUnit::Fahrenheit));
    assert_eq!(parse_unit("kelvin"), Some(TemperatureUnit::Kelvin));
    assert_eq!(parse_unit("Celsius"), None);
    assert_eq!(parse_unit("c"), None);
    assert_eq!(parse_unit(""), None);
    assert_eq!(parse_unit("bogus"), None);
}

#[test]
fn poll_interval_tokens() {
    assert_eq!(parse_poll_interval("1000"), Some(1000));
    assert_eq!(parse_poll_interval("0"), Some(0));
    assert_eq!(parse_poll_interval("+25"), Some(25));
    assert_eq!(parse_poll_interval("007"), Some(7));
    assert_eq!(parse_poll_interval("18446744073709551615"), Some(u64::MAX));
    assert_eq!(parse_poll_interval("18446744073709551616"), None);
    assert_eq!(parse_poll_interval("abc"), None);
    assert_eq!(parse_poll_interval(""), None);
    assert_eq!(parse_poll_interval("+"), None);
    assert_eq!(parse_poll_interval("-1"), None);
    assert_eq!(parse_poll_interval("12a"), None);
    assert_eq!(parse_poll_interval(" 12"), None);
}

#[test]
fn resolve_explicit_defaults() {
    let c = resolve(Some("celsius"), Some("1000"), None).unwrap();
    assert_eq!(c.unit, TemperatureUnit::Celsius);
    assert_eq!(c.poll_interval_ms, 1000);
    assert!(matches!(c.names, NameFilter::All));
}

#[test]
fn resolve_omitted_options() {
    let c = resolve(None, None, None).unwrap();
    assert_eq!(c.unit, TemperatureUnit::Celsius);
    assert_eq!(c.poll_interval_ms, 1000);
    assert!(matches!(c.names, NameFilter::All));
}

#[test]
fn resolve_with_names() {
    let c = resolve(Some("kelvin"), Some("250"), Some(vec!["a".to_string(), "b".to_string()]))
        .unwrap();
    assert_eq!(c.unit, TemperatureUnit::Kelvin);
    assert_eq!(c.poll_interval_ms, 250);
    match c.names {
        NameFilter::Only(v) => assert_eq!(v, vec!["a".to_string(), "b".to_string()]),
        NameFilter::All => panic!("expected an allow-list"),
    }
}

#[test]
fn resolve_bogus_unit() {
    assert!(matches!(resolve(Some("bogus"), None, None), Err(ConfigError::UnknownUnit)));
    assert!(matches!(resolve(Some("bogus"), Some("abc"), None), Err(ConfigError::UnknownUnit)));
}

#[test]
fn resolve_bad_poll_interval() {
    assert!(matches!(
        resolve(Some("fahrenheit"), Some("abc"), None),
        Err(ConfigError::InvalidPollInterval)
    ));
    assert!(matches!(resolve(None, Some("-5"), None), Err(ConfigError::InvalidPollInterval)));
}

#[test]
fn resolve_zero_interval_accepted() {
    let c = resolve(None, Some("0"), None).unwrap();
    assert_eq!(c.poll_interval_ms, 0);
}

#[test]
fn name_filter_membership() {
    let all = NameFilter::All;
    assert!(all.allows_name(&"anything".to_string()));
    let only = NameFilter::Only(vec!["chip2".to_string()]);
    assert!(only.allows_name(&"chip2".to_string()));
    assert!(!only.allows_name(&"Chip2".to_string()));
    assert!(!only.allows_name(&"chip".to_string()));
    let empty = NameFilter::Only(Vec::new());
    assert!(!empty.allows_name(&"chip2".to_string()));
}
