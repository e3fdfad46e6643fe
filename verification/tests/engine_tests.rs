use request_rules::config::ConfigEntry;
use request_rules::config::ConfigMap;
use request_rules::config::ConfigValue;
use request_rules::config::RuleError;
use request_rules::detectors::check_numeric_host;
use request_rules::detectors::regex_handler;
use request_rules::detectors::Detector;
use request_rules::detectors::LongContentType;
use request_rules::detectors::NumericHostPlugin;
use request_rules::detectors::Phase;
use request_rules::detectors::SizeLimitPlugin;
use request_rules::patterns::PatternSet;
use request_rules::request::Body;
use request_rules::request::Header;
use request_rules::request::Request;
use request_rules::scan::parse_u64;
use request_rules::score::weight_limit;
use request_rules::score::BodyLimit;
use request_rules::score::Direction;
use request_rules::sources::get_sources;

fn no_body() -> Body {
    Body { received: false, end_of_stream: false, size: 0, content: vec![] }
}

fn plain_request() -> Request {
    Request {
        host: Some(b"example.com".to_vec()),
        path: b"/search".to_vec(),
        query: Some(b"q=foo".to_vec()),
        headers: vec![
            Header { name: b"Accept".to_vec(), value: b"text/html".to_vec() },
            Header { name: b"User-Agent".to_vec(), value: b"probe".to_vec() },
        ],
        body: Body { received: true, end_of_stream: true, size: 3, content: b"foo".to_vec() },
    }
}

fn entry(key: &str, value: ConfigValue) -> ConfigEntry {
    ConfigEntry { key: key.to_string(), value }
}

fn str_value(s: &str) -> ConfigValue {
    ConfigValue::Str(s.to_string())
}

fn patterns_value(patterns: &[&str]) -> ConfigValue {
    ConfigValue::Arr(patterns.iter().map(|p| str_value(p)).collect())
}

#[test]
fn test_content_type_scenario_len_720() {
    let value = "a".repeat(720);
    let req = Request {
        host: None,
        path: b"/".to_vec(),
        query: None,
        headers: vec![Header { name: b"Content-Type".to_vec(), value: value.into_bytes() }],
        body: no_body(),
    };
    let d = LongContentType::handle_request_decision(&req).unwrap();
    assert_eq!(d.score_milli as f64 / 1000.0, 0.75);
    assert_eq!(d.direction, Direction::Restrict);
    assert_eq!(d.tags, vec!["long-content-type".to_string()]);
}

#[test]
fn test_content_type_absent_no_decision() {
    let req = plain_request();
    assert!(LongContentType::handle_request_decision(&req).is_none());
}

#[test]
fn test_content_type_below_threshold_untagged() {
    let req = Request {
        host: None,
        path: b"/".to_vec(),
        query: None,
        headers: vec![Header {
            name: b"content-type".to_vec(),
            value: b"application/json".to_vec(),
        }],
        body: no_body(),
    };
    let d = LongContentType::handle_request_decision(&req).unwrap();
    assert_eq!(d.score_milli, 0);
    assert!(d.tags.is_empty());
}

#[test]
fn test_length_excess_linear_between() {
    // one character of excess is worth five milli-units on the default curve
    let v149 = vec![b'a'; 149];
    let v150 = vec![b'a'; 150];
    assert_eq!(LongContentType::score_content_type(&v149), 145);
    assert_eq!(LongContentType::score_content_type(&v150), 150);
    assert_eq!(LongContentType::chars_above_max(&v149), 29);
}

#[test]
fn test_absent_header_source_scores_zero_without_error() {
    // {"header": ["X-Foo"]} with X-Foo absent: no sources, no matches,
    // score zero, and no error tag
    let config = ConfigMap {
        entries: vec![
            entry("location", ConfigValue::Obj(vec![entry("header", patterns_value(&["X-Foo"]))])),
            entry("patterns", patterns_value(&["foo"])),
            entry("restrict", ConfigValue::of_milli(250)),
        ],
    };
    let d = regex_handler(&config, &plain_request()).unwrap();
    assert_eq!(d.score_milli, 0);
    assert!(d.tags.is_empty());
}

#[test]
fn test_empty_pattern_list_is_config_error() {
    let config = ConfigMap {
        entries: vec![
            entry("patterns", ConfigValue::Arr(vec![])),
            entry("restrict", ConfigValue::of_milli(250)),
        ],
    };
    assert_eq!(regex_handler(&config, &plain_request()).unwrap_err(), RuleError::EmptyPatterns);
    let empty: Vec<String> = Vec::new();
    assert!(matches!(PatternSet::build(&empty), Err(RuleError::EmptyPatterns)));
}

#[test]
fn test_location_omitted_defaults_to_all() {
    // host, path, query, every header value, and the received body
    let req = plain_request();
    let (sources, err) = get_sources(None, &req).unwrap();
    assert!(!err);
    assert_eq!(
        sources,
        vec![
            b"example.com".to_vec(),
            b"/search".to_vec(),
            b"q=foo".to_vec(),
            b"text/html".to_vec(),
            b"probe".to_vec(),
            b"foo".to_vec(),
        ]
    );
}

#[test]
fn test_all_keyword_without_body() {
    let mut req = plain_request();
    req.body.received = false;
    let all = str_value("all");
    let (sources, err) = get_sources(Some(&all), &req).unwrap();
    assert!(!err);
    assert_eq!(sources.len(), 5);
    assert_eq!(sources[0], b"example.com".to_vec());
}

#[test]
fn test_match_in_two_sources_counts_twice() {
    // "foo" appears in the query and in the body: two distinct sources
    let config = ConfigMap {
        entries: vec![
            entry("patterns", patterns_value(&["foo"])),
            entry("restrict", ConfigValue::of_milli(250)),
        ],
    };
    let d = regex_handler(&config, &plain_request()).unwrap();
    assert_eq!(d.score_milli, 500);
    assert_eq!(d.direction, Direction::Restrict);
}

#[test]
fn test_match_count_distinct_patterns() {
    let set = PatternSet::build(&vec!["a".to_string(), "b".to_string(), "zz".to_string()])
        .unwrap();
    assert_eq!(set.match_count(&b"ab".to_vec()), 2);
    assert_eq!(set.match_count(&b"aaaa".to_vec()), 1);
    assert_eq!(set.match_count(&b"qqq".to_vec()), 0);
}

#[test]
fn test_undecodable_source_is_skipped() {
    let set = PatternSet::build(&vec!["f".to_string()]).unwrap();
    // invalid UTF-8 is skipped for matching, even when the pattern's bytes occur
    assert_eq!(set.match_count(&vec![0xFF, b'f']), 0);
    assert_eq!(set.match_count(&b"f".to_vec()), 1);
}

#[test]
fn test_config_number_accessors() {
    assert_eq!(ConfigValue::of_int(5).as_u64(), Some(5));
    assert_eq!(ConfigValue::of_milli(1500).as_u64(), None);
    assert_eq!(ConfigValue::of_milli(-250).as_u64(), None);
    assert_eq!(ConfigValue::of_milli(1500).as_milli(), Some(1500));
    assert_eq!(str_value("5").as_u64(), None);
}

#[test]
fn test_accept_direction() {
    let config = ConfigMap {
        entries: vec![
            entry("location", ConfigValue::Obj(vec![entry("query", ConfigValue::Null)])),
            entry("patterns", patterns_value(&["foo"])),
            entry("accept", ConfigValue::of_milli(300)),
        ],
    };
    let d = regex_handler(&config, &plain_request()).unwrap();
    assert_eq!(d.direction, Direction::Accept);
    assert_eq!(d.score_milli, 300);
}

#[test]
fn test_score_clamped_to_one() {
    let config = ConfigMap {
        entries: vec![
            entry("patterns", patterns_value(&["foo"])),
            entry("restrict", ConfigValue::of_milli(800)),
        ],
    };
    // two matching sources at 0.8 each would be 1.6; the score caps at 1.0
    let d = regex_handler(&config, &plain_request()).unwrap();
    assert_eq!(d.score_milli, 1000);
}

#[test]
fn test_unknown_location_key_tags_error_and_continues() {
    let config = ConfigMap {
        entries: vec![
            entry(
                "location",
                ConfigValue::Obj(vec![
                    entry("qery", ConfigValue::Null),
                    entry("path", ConfigValue::Null),
                ]),
            ),
            entry("patterns", patterns_value(&["sea"])),
            entry("restrict", ConfigValue::of_milli(100)),
        ],
    };
    let d = regex_handler(&config, &plain_request()).unwrap();
    assert_eq!(d.tags, vec!["error".to_string()]);
    assert_eq!(d.score_milli, 100);
}

#[test]
fn test_location_wrong_shape_is_fatal() {
    let config = ConfigMap {
        entries: vec![
            entry("location", ConfigValue::of_int(7)),
            entry("patterns", patterns_value(&["foo"])),
            entry("restrict", ConfigValue::of_milli(100)),
        ],
    };
    assert_eq!(regex_handler(&config, &plain_request()).unwrap_err(), RuleError::InvalidLocationConfig);
}

#[test]
fn test_pattern_config_errors() {
    let req = plain_request();
    let missing = ConfigMap { entries: vec![entry("restrict", ConfigValue::of_milli(100))] };
    assert_eq!(regex_handler(&missing, &req).unwrap_err(), RuleError::MissingPatternsConfig);

    let not_array = ConfigMap {
        entries: vec![
            entry("patterns", str_value("foo")),
            entry("restrict", ConfigValue::of_milli(100)),
        ],
    };
    assert_eq!(regex_handler(&not_array, &req).unwrap_err(), RuleError::InvalidPatternsConfig);

    let not_string = ConfigMap {
        entries: vec![
            entry("patterns", ConfigValue::Arr(vec![ConfigValue::of_int(3)])),
            entry("restrict", ConfigValue::of_milli(100)),
        ],
    };
    assert_eq!(regex_handler(&not_string, &req).unwrap_err(), RuleError::PatternNotString);

    let unparseable = ConfigMap {
        entries: vec![
            entry("patterns", patterns_value(&["("])),
            entry("restrict", ConfigValue::of_milli(100)),
        ],
    };
    assert_eq!(regex_handler(&unparseable, &req).unwrap_err(), RuleError::UnparseablePattern);
}

#[test]
fn test_increment_config_errors() {
    let req = plain_request();
    let neither = ConfigMap { entries: vec![entry("patterns", patterns_value(&["foo"]))] };
    assert_eq!(regex_handler(&neither, &req).unwrap_err(), RuleError::MissingIncrement);

    let both = ConfigMap {
        entries: vec![
            entry("patterns", patterns_value(&["foo"])),
            entry("restrict", ConfigValue::of_milli(100)),
            entry("accept", ConfigValue::of_milli(100)),
        ],
    };
    assert_eq!(regex_handler(&both, &req).unwrap_err(), RuleError::ConflictingIncrements);

    let not_number = ConfigMap {
        entries: vec![
            entry("patterns", patterns_value(&["foo"])),
            entry("restrict", str_value("high")),
        ],
    };
    assert_eq!(regex_handler(&not_number, &req).unwrap_err(), RuleError::IncrementNotNumber);
}

#[test]
fn test_missing_host_is_failure_not_false() {
    let req = plain_request();
    assert_eq!(check_numeric_host(&req), Err(RuleError::MissingHost));
    assert_eq!(NumericHostPlugin::on_request_decision(&req).unwrap_err(), RuleError::MissingHost);
}

#[test]
fn test_numeric_host_decision_scores() {
    let mut req = plain_request();
    req.headers.push(Header { name: b"Host".to_vec(), value: b"127.0.0.1".to_vec() });
    let d = NumericHostPlugin::on_request_decision(&req).unwrap();
    assert_eq!(d.score_milli, 1000);
    assert_eq!(d.direction, Direction::Restrict);

    let mut named = plain_request();
    named.headers.push(Header { name: b"Host".to_vec(), value: b"www.example.com".to_vec() });
    let d = NumericHostPlugin::on_request_decision(&named).unwrap();
    assert_eq!(d.score_milli, 0);
}

#[test]
fn test_numeric_host_zone_identifier() {
    let req = Request {
        host: None,
        path: b"/".to_vec(),
        query: None,
        headers: vec![Header { name: b"Host".to_vec(), value: b"[fe80::1%eth0]".to_vec() }],
        body: no_body(),
    };
    assert_eq!(check_numeric_host(&req), Ok(true));
}

#[test]
fn test_numeric_host_rejects_malformed() {
    for host in ["3...3", "[]", "[::]:", "[::]:123456", "1.2.3.4.5", "[1::2%]", ""] {
        let req = Request {
            host: None,
            path: b"/".to_vec(),
            query: None,
            headers: vec![Header { name: b"Host".to_vec(), value: host.as_bytes().to_vec() }],
            body: no_body(),
        };
        assert_eq!(check_numeric_host(&req), Ok(false), "host {:?}", host);
    }
}

#[test]
fn test_parse_content_length_values() {
    assert_eq!(parse_u64(&b"123".to_vec()), Some(123));
    assert_eq!(parse_u64(&b"+123".to_vec()), Some(123));
    assert_eq!(parse_u64(&b"18446744073709551615".to_vec()), Some(u64::MAX));
    assert_eq!(parse_u64(&b"18446744073709551616".to_vec()), None);
    assert_eq!(parse_u64(&b"".to_vec()), None);
    assert_eq!(parse_u64(&b"+".to_vec()), None);
    assert_eq!(parse_u64(&b"12a".to_vec()), None);
    assert_eq!(parse_u64(&b"-1".to_vec()), None);
}

#[test]
fn test_size_limit_header_phase() {
    let config = ConfigMap { entries: vec![] };
    let mut req = plain_request();
    req.headers.push(Header {
        name: b"Content-Length".to_vec(),
        value: b"52428801".to_vec(),
    });
    // 50 MiB + 1: above the hard limit, full restrict weight
    let d = SizeLimitPlugin::on_request_decision(&config, &req).unwrap();
    assert_eq!(d.score_milli, 1000);

    let no_header = plain_request();
    assert!(SizeLimitPlugin::on_request_decision(&config, &no_header).is_none());
}

#[test]
fn test_size_limit_body_phase_tiers() {
    let config = ConfigMap {
        entries: vec![
            entry("soft_limit", ConfigValue::of_int(10)),
            entry("hard_limit", ConfigValue::of_int(20)),
            entry("soft_weight", ConfigValue::of_milli(150)),
            entry("hard_weight", ConfigValue::of_milli(1000)),
        ],
    };
    let mut req = plain_request();
    for (size, expected) in [(10u64, 0u32), (11, 150), (20, 150), (21, 1000)] {
        req.body.size = size;
        let d = SizeLimitPlugin::on_request_body_decision(&config, &req);
        assert_eq!(d.score_milli, expected, "size {}", size);
        assert_eq!(d.direction, Direction::Restrict);
    }
}

#[test]
fn test_weight_limit_defaults() {
    assert_eq!(weight_limit(None, None, BodyLimit::Normal), 0);
    assert_eq!(weight_limit(None, None, BodyLimit::SoftLimit), 150);
    assert_eq!(weight_limit(None, None, BodyLimit::HardLimit), 1000);
}

#[test]
fn test_evaluate_at_dispatch() {
    let config = ConfigMap {
        entries: vec![
            entry("patterns", patterns_value(&["foo"])),
            entry("restrict", ConfigValue::of_milli(250)),
        ],
    };
    let req = plain_request();
    // headers-only detectors sit out the body phase
    assert_eq!(
        Detector::LongContentType
            .evaluate_at(Phase::RequestBody, &config, &req)
            .map(|o| o.is_none()),
        Ok(true)
    );
    assert_eq!(
        Detector::NumericHost.evaluate_at(Phase::RequestBody, &config, &req).map(|o| o.is_none()),
        Ok(true)
    );
    // the pattern detector runs at both phases
    let d = Detector::PatternMatch
        .evaluate_at(Phase::RequestBody, &config, &req)
        .unwrap()
        .unwrap();
    assert_eq!(d.score_milli, 500);
    // the size detector always writes a decision at the body phase
    let d = Detector::SizeLimit.evaluate_at(Phase::RequestBody, &config, &req).unwrap().unwrap();
    assert_eq!(d.score_milli, 0);
}
