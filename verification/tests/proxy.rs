use wasm_pong::proxy::{begin_partition_growth, continue_partition_growth, GrowthStep};
use wasm_pong::proxy::{
    error_body, next_partition_count, parse_partition_count, parse_u32, proxy_route, success_body,
    ProxyRoute,
};
use wasm_pong::text::decimal_string;

#[test]
fn partition_count_output_is_parsed() {
    assert_eq!(parse_partition_count("3\n"), Some(3));
    assert_eq!(parse_partition_count("  12 \n"), Some(12));
    assert_eq!(parse_partition_count(""), None);
    assert_eq!(parse_partition_count("PartitionCount"), None);
    assert_eq!(parse_partition_count("4294967296"), None);
    assert_eq!(parse_partition_count("+7"), Some(7));
}

#[test]
fn u32_parsing_follows_from_str() {
    for s in ["0", "42", "+42", "4294967295", "", "+", "-1", "1a", "4294967296", "007"] {
        assert_eq!(parse_u32(s), s.parse::<u32>().ok(), "input {:?}", s);
    }
}

#[test]
fn decimal_strings_parse_back() {
    for n in [0u32, 9, 10, 99, 100, 65535, 4294967295] {
        let s = decimal_string(n);
        assert_eq!(s, n.to_string());
        assert_eq!(parse_u32(&s), Some(n));
    }
}

#[test]
fn response_bodies() {
    assert_eq!(success_body("3"), "{\"data\": 3}");
    assert_eq!(error_body("not found"), "{\"error\": \"not found\"}");
    assert_eq!(next_partition_count(3), 4);
}

#[test]
fn proxy_requests_are_routed() {
    assert_eq!(proxy_route("GET", "/health_check"), ProxyRoute::HealthCheck);
    assert_eq!(proxy_route("POST", "/create_topic"), ProxyRoute::CreateTopic);
    assert_eq!(proxy_route("POST", "/add_partition"), ProxyRoute::AddPartition);
    assert_eq!(proxy_route("GET", "/add_partition"), ProxyRoute::NotFound);
}

#[test]
fn partition_count_ignores_unicode_white_space() {
    assert_eq!(parse_partition_count("\u{3000}\t 9\u{2028}\r\n"), Some(9));
    assert_eq!(parse_partition_count("\u{a0}1\n2\u{85}"), Some(12));
    assert_eq!(parse_partition_count(" \u{200b}5"), None);
    assert_eq!(parse_partition_count(" \n\t "), None);
}

#[test]
fn printed_count_lines_are_read_back() {
    for n in [0u32, 7, 10, 4096, u32::MAX] {
        let line = format!("{}\n", decimal_string(n));
        assert_eq!(parse_partition_count(&line), Some(n));
    }
}

#[test]
fn partition_growth_alters_every_topic_then_answers() {
    let (mut state, mut step) = begin_partition_growth(Some(6));
    let mut altered = vec![];
    loop {
        match step {
            GrowthStep::Alter(topic, n) => {
                altered.push((topic, n));
                let (s, t) = continue_partition_growth(state, Ok(()));
                state = s;
                step = t;
            }
            GrowthStep::Answer(status, body) => {
                assert_eq!(status, 200);
                assert_eq!(body, "{\"data\": 6}");
                break;
            }
        }
    }
    assert_eq!(altered, vec![("host_tick", 7), ("peer_tick", 7), ("heart_beat", 7), ("session", 7)]);
}

#[test]
fn partition_growth_stops_at_the_first_failure() {
    let (state, _) = begin_partition_growth(Some(2));
    let (state, step) = continue_partition_growth(state, Ok(()));
    assert!(matches!(step, GrowthStep::Alter("peer_tick", 3)));
    match continue_partition_growth(state, Err(String::from("no broker"))).1 {
        GrowthStep::Answer(status, body) => {
            assert_eq!(status, 500);
            assert_eq!(body, "{\"error\": \"Failed to update the partition count: no broker\"}");
        }
        other => panic!("unexpected {:?}", other),
    }
    match begin_partition_growth(None).1 {
        GrowthStep::Answer(status, body) => {
            assert_eq!(status, 500);
            assert_eq!(body, "{\"error\": \"Failed to retrieve max partition count.\"}");
        }
        other => panic!("unexpected {:?}", other),
    }
}
