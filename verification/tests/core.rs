use measure::average::average;
use measure::codec::{encode_snapshot, parse_snapshot, u64_to_dec};
use measure::jobs::{deployed_url, format_service_addr, parse_key_val, service_addrs, CliArgs};
use measure::runtime::{make_request, render_table, Runtime, WorkerCall};
use measure::types::{
    ConfigError, MeasureDurationRequest, MeasureError, MeasureResponse, Output, RunError,
};
use measure::worker::{
    duration_exchange_outcome, duration_outcome, parse_method, plan_duration_probe, probe_outcome,
    url_expects_tls, Method,
};

fn sample(ip: &str, ttfb_ms: u64) -> MeasureResponse {
    MeasureResponse {
        ip: ip.to_string(),
        dns_lookup_duration: Some(1_000_000),
        tcp_connect_duration: 2_000_000,
        http_get_send_duration: 3_000_000,
        ttfb_duration: ttfb_ms * 1_000_000,
        tls_handshake_duration: None,
        overall_duration: None,
    }
}

fn args() -> CliArgs {
    CliArgs {
        target_request_url: Some("https://example.org/".to_string()),
        target_request_method: None,
        target_request_body: None,
        target_request_headers: None,
        comparison_url: None,
        services: Some(vec!["http://10.0.0.1:3000".to_string()]),
        average: false,
        times: 3,
        delay: 0,
        output_dir: None,
        flood: false,
    }
}

#[test]
fn body_without_post_fails_validation_and_plans_no_call() {
    let mut a = args();
    a.target_request_body = Some("{}".to_string());
    a.target_request_method = Some("PUT".to_string());
    let rt = Runtime::new(a, None, None).unwrap();
    assert_eq!(rt.validate(), Err(RunError::BodyWithoutPost));
    let plan = rt.plan_worker(&"http://10.0.0.1:3000".to_string());
    assert_eq!(plan, Err(RunError::BodyWithoutPost));
}

#[test]
fn body_with_post_passes_validation() {
    let mut a = args();
    a.target_request_body = Some("{}".to_string());
    a.target_request_method = Some("POST".to_string());
    let rt = Runtime::new(a, None, None).unwrap();
    assert_eq!(rt.validate(), Ok(()));
    assert!(rt.plan_worker(&"http://10.0.0.1:3000".to_string()).is_ok());
}

#[test]
fn average_of_three_ttfb_values_is_their_mean() {
    let series = vec![sample("1.2.3.4", 10), sample("1.2.3.4", 20), sample("1.2.3.4", 30)];
    let avg = average(&series);
    assert_eq!(avg.ttfb_duration, 20 * 1_000_000);
}

#[test]
fn average_of_identical_samples_reproduces_the_sample() {
    let s = sample("1.2.3.4", 17);
    let series = vec![sample("1.2.3.4", 17), sample("1.2.3.4", 17), sample("1.2.3.4", 17)];
    assert_eq!(average(&series), s);
}

#[test]
fn average_respects_absent_optional_fields() {
    let mut a = sample("1.2.3.4", 10);
    let mut b = sample("1.2.3.4", 20);
    a.tls_handshake_duration = None;
    b.tls_handshake_duration = None;
    a.dns_lookup_duration = Some(4);
    b.dns_lookup_duration = None;
    let avg = average(&vec![a, b]);
    assert_eq!(avg.tls_handshake_duration, None);
    assert_eq!(avg.dns_lookup_duration, Some(4));
}

#[test]
fn snapshot_round_trips_through_its_text() {
    let out = Output {
        target_results: vec![(
            "http://10.0.0.1:3000".to_string(),
            vec![sample("1.2.3.4", 10), sample("1.2.3.4", 20)],
        )],
        comparison_results: Some(vec![(
            "http://10.0.0.1:3000".to_string(),
            vec![sample("5.6.7.8", 30)],
        )]),
    };
    let text = encode_snapshot(&out);
    let back = parse_snapshot(text.as_str()).unwrap();
    assert_eq!(back, out);
}

#[test]
fn snapshot_text_is_exact_json() {
    let out = Output {
        target_results: vec![(
            "w".to_string(),
            vec![MeasureResponse {
                ip: "".to_string(),
                dns_lookup_duration: None,
                tcp_connect_duration: 0,
                http_get_send_duration: 0,
                ttfb_duration: 0,
                tls_handshake_duration: None,
                overall_duration: Some(5),
            }],
        )],
        comparison_results: None,
    };
    let text = encode_snapshot(&out);
    let expected = "{\"target_results\":{\"w\":[{\"ip\":\"\",\"dns_lookup_duration\":null,\"tcp_connect_duration\":0,\"http_get_send_duration\":0,\"ttfb_duration\":0,\"tls_handshake_duration\":null,\"overall_duration\":5}]},\"comparison_results\":null}";
    assert_eq!(text, expected);
}

#[test]
fn addresses_and_ips_needing_escapes_round_trip() {
    let mut odd = sample("ip with \"quote\" and \\slash\\", 10);
    odd.ip.push('\u{1}');
    let out = Output {
        target_results: vec![("worker \"a\"\u{2}".to_string(), vec![odd])],
        comparison_results: None,
    };
    let text = encode_snapshot(&out);
    assert_eq!(parse_snapshot(text.as_str()).unwrap(), out);
}

#[test]
fn escapes_in_the_snapshot_text_are_json_escapes() {
    let out = Output {
        target_results: vec![("a\"b\\c\u{1f}".to_string(), vec![])],
        comparison_results: None,
    };
    let text = encode_snapshot(&out);
    let expected =
        "{\"target_results\":{\"a\\\"b\\\\c\\u001f\":[]},\"comparison_results\":null}";
    assert_eq!(text, expected);
}

#[test]
fn garbage_does_not_parse() {
    assert!(parse_snapshot("not a snapshot").is_none());
    assert!(parse_snapshot("").is_none());
    assert!(parse_snapshot("{\"target_results\":{}}").is_none());
}

#[test]
fn status_404_is_an_http_status_error_never_a_network_error() {
    let r = duration_outcome(404, 1_000_000);
    assert_eq!(r, Err(MeasureError::HttpStatus(404)));
}

#[test]
fn status_in_success_range_yields_only_the_overall_duration() {
    let s = duration_outcome(204, 7_000_000).unwrap();
    assert_eq!(s.overall_duration, Some(7_000_000));
    assert_eq!(s.dns_lookup_duration, None);
    assert_eq!(s.tls_handshake_duration, None);
    assert_eq!(s.tcp_connect_duration, 0);
    assert_eq!(s.ttfb_duration, 0);
    assert_eq!(s.ip, "");
}

#[test]
fn unrecognized_method_behaves_like_get() {
    assert_eq!(parse_method("SOMETHING"), Method::Get);
    assert_eq!(parse_method("GET"), Method::Get);
    assert_eq!(parse_method("get"), Method::Get);
    assert_eq!(parse_method("post"), Method::Post);
    assert_eq!(parse_method("Put"), Method::Put);
    assert_eq!(parse_method("delete"), Method::Delete);
    let mk = |m: &str| MeasureDurationRequest {
        target: "https://example.org/".to_string(),
        method: m.to_string(),
        headers: None,
        body: None,
    };
    let odd = plan_duration_probe(&mk("SOMETHING")).unwrap();
    let get = plan_duration_probe(&mk("GET")).unwrap();
    assert_eq!(odd.method, get.method);
}

#[test]
fn invalid_json_body_is_a_bad_request() {
    let req = MeasureDurationRequest {
        target: "https://example.org/".to_string(),
        method: "POST".to_string(),
        headers: None,
        body: Some("not json".to_string()),
    };
    match plan_duration_probe(&req) {
        Err(MeasureError::BadRequest(_)) => {},
        other => panic!("expected BadRequest, got {:?}", other),
    }
}

#[test]
fn json_body_is_reserialized() {
    let req = MeasureDurationRequest {
        target: "https://example.org/".to_string(),
        method: "POST".to_string(),
        headers: None,
        body: Some("{ \"a\" : 1 }".to_string()),
    };
    let plan = plan_duration_probe(&req).unwrap();
    assert_eq!(plan.body, Some("{\"a\":1}".to_string()));
}

#[test]
fn probe_outcomes_map_to_the_error_taxonomy() {
    let ok = probe_outcome(Ok(Ok(sample("1.2.3.4", 10))));
    assert_eq!(ok.unwrap().ttfb_duration, 10 * 1_000_000);
    let net = probe_outcome(Ok(Err("refused".to_string())));
    assert_eq!(net, Err(MeasureError::Network("refused".to_string())));
    let crash = probe_outcome(Err("panicked".to_string()));
    assert_eq!(crash, Err(MeasureError::TaskFailure("panicked".to_string())));
}

#[test]
fn tls_phase_is_expected_only_for_https() {
    assert!(url_expects_tls("https://example.org/"));
    assert!(!url_expects_tls("http://example.org/"));
    assert!(!url_expects_tls("ftp://example.org/"));
}

#[test]
fn three_recorded_calls_form_a_series_of_three_in_call_order() {
    let a = args();
    let mut rt = Runtime::new(a, None, None).unwrap();
    let w = "http://10.0.0.1:3000".to_string();
    rt.record_target_sample(&w, sample("1.2.3.4", 10));
    rt.record_target_sample(&w, sample("1.2.3.4", 20));
    rt.record_target_sample(&w, sample("1.2.3.4", 30));
    assert_eq!(rt.results.len(), 1);
    let (key, ser) = &rt.results[0];
    assert_eq!(key, &w);
    assert_eq!(ser.len(), 3);
    assert_eq!(ser[0].ttfb_duration, 10 * 1_000_000);
    assert_eq!(ser[1].ttfb_duration, 20 * 1_000_000);
    assert_eq!(ser[2].ttfb_duration, 30 * 1_000_000);
}

#[test]
fn a_joined_flood_batch_records_the_same_series() {
    let a = args();
    let mut rt = Runtime::new(a, None, None).unwrap();
    let w = "http://10.0.0.1:3000".to_string();
    rt.record_target_series(
        &w,
        vec![sample("1.2.3.4", 10), sample("1.2.3.4", 20), sample("1.2.3.4", 30)],
    );
    let (_, ser) = &rt.results[0];
    assert_eq!(ser.len(), 3);
    assert_eq!(ser[2].ttfb_duration, 30 * 1_000_000);
}

#[test]
fn parse_key_val_splits_at_the_first_equals() {
    assert_eq!(
        parse_key_val("a=b"),
        Ok(("a".to_string(), "b".to_string()))
    );
    assert_eq!(
        parse_key_val("k=v=w"),
        Ok(("k".to_string(), "v=w".to_string()))
    );
    assert!(parse_key_val("nothing").is_err());
}

#[test]
fn discovered_hosts_become_service_addresses() {
    assert_eq!(format_service_addr("10.1.2.3"), "http://10.1.2.3:3000");
    let addrs = service_addrs(&vec!["a".to_string(), "b".to_string()]);
    assert_eq!(addrs, vec!["http://a:3000".to_string(), "http://b:3000".to_string()]);
    assert_eq!(
        deployed_url("bafyx"),
        "https://fleek-test.network/services/1/ipfs/bafyx"
    );
}

#[test]
fn explicit_arguments_win_over_discovered_artifacts() {
    let a = args();
    let jobs = a
        .jobs(
            Some(vec!["http://discovered:3000".to_string()]),
            Some("https://discovered/".to_string()),
        )
        .unwrap();
    assert_eq!(jobs.services, vec!["http://10.0.0.1:3000".to_string()]);
    assert_eq!(jobs.target_url, "https://example.org/");
    assert_eq!(jobs.target_method, "GET");
}

#[test]
fn missing_configuration_is_a_resolution_error() {
    let mut a = args();
    a.services = None;
    assert_eq!(a.jobs(None, None), Err(ConfigError::MissingServices));
    let mut b = args();
    b.target_request_url = None;
    assert_eq!(b.jobs(None, None), Err(ConfigError::MissingTargetUrl));
    let mut c = args();
    c.services = None;
    let jobs = c
        .jobs(Some(vec!["http://d:3000".to_string()]), None)
        .unwrap();
    assert_eq!(jobs.services, vec!["http://d:3000".to_string()]);
}

#[test]
fn runtime_has_a_comparison_map_exactly_when_a_comparison_url_is_set() {
    let rt = Runtime::new(args(), None, None).unwrap();
    assert!(rt.comparison_results.is_none());
    let mut a = args();
    a.comparison_url = Some("https://other.org/".to_string());
    let rt2 = Runtime::new(a, None, None).unwrap();
    assert_eq!(rt2.comparison_results, Some(vec![]));
}

#[test]
fn get_targets_use_the_ttfb_endpoint_and_others_the_duration_endpoint() {
    let ip = "http://10.0.0.1:3000".to_string();
    let url = "https://example.org/".to_string();
    match make_request(&ip, &url, &"GET".to_string(), &None, &None) {
        WorkerCall::Ttfb { endpoint, request } => {
            assert_eq!(endpoint, "http://10.0.0.1:3000/ttfb");
            assert_eq!(request.target, url);
        },
        other => panic!("expected a ttfb call, got {:?}", other),
    }
    match make_request(&ip, &url, &"POST".to_string(), &None, &Some("{}".to_string())) {
        WorkerCall::Duration { endpoint, request } => {
            assert_eq!(endpoint, "http://10.0.0.1:3000/duration");
            assert_eq!(request.method, "POST");
            assert_eq!(request.body, Some("{}".to_string()));
        },
        other => panic!("expected a duration call, got {:?}", other),
    }
}

#[test]
fn the_snapshot_of_a_run_mirrors_its_results() {
    let a = args();
    let mut rt = Runtime::new(a, None, None).unwrap();
    let w = "http://10.0.0.1:3000".to_string();
    rt.record_target_sample(&w, sample("1.2.3.4", 10));
    let out = rt.output();
    assert_eq!(out.target_results, rt.results);
    assert!(out.comparison_results.is_none());
}

#[test]
fn tables_show_one_row_per_target_and_milliseconds_per_cell() {
    let url = "https://example.org/".to_string();
    let ser = vec![sample("1.2.3.4", 10), sample("1.2.3.4", 20)];
    let rows = render_table(&url, &ser, &None, &None, 2);
    assert_eq!(rows.len(), 2);
    assert_eq!(rows[0], vec!["".to_string(), "1".to_string(), "2".to_string()]);
    assert_eq!(
        rows[1],
        vec![url.clone(), "10ms".to_string(), "20ms".to_string()]
    );
    let comp_url = "https://other.org/".to_string();
    let mut dur = sample("", 0);
    dur.overall_duration = Some(42_000_000);
    let rows2 = render_table(&url, &ser, &Some(comp_url.clone()), &Some(vec![dur]), 2);
    assert_eq!(rows2.len(), 3);
    assert_eq!(rows2[2][1], "42ms");
}

#[test]
fn decimal_text_is_exact() {
    assert_eq!(u64_to_dec(0), "0");
    assert_eq!(u64_to_dec(10), "10");
    assert_eq!(u64_to_dec(18446744073709551615), "18446744073709551615");
}

#[test]
fn workers_keep_their_own_series_in_insertion_order() {
    let mut a = args();
    a.services = Some(vec![
        "http://10.0.0.1:3000".to_string(),
        "http://10.0.0.2:3000".to_string(),
    ]);
    let mut rt = Runtime::new(a, None, None).unwrap();
    let w1 = "http://10.0.0.1:3000".to_string();
    let w2 = "http://10.0.0.2:3000".to_string();
    rt.record_target_sample(&w1, sample("1.1.1.1", 10));
    rt.record_target_sample(&w2, sample("2.2.2.2", 20));
    rt.record_target_sample(&w1, sample("1.1.1.1", 30));
    assert_eq!(rt.results.len(), 2);
    assert_eq!(rt.results[0].0, w1);
    assert_eq!(rt.results[1].0, w2);
    assert_eq!(rt.results[0].1.len(), 2);
    assert_eq!(rt.results[1].1.len(), 1);
    assert_eq!(rt.results[0].1[1].ttfb_duration, 30 * 1_000_000);
}

#[test]
fn comparison_samples_land_in_the_comparison_map() {
    let mut a = args();
    a.comparison_url = Some("https://other.org/".to_string());
    let mut rt = Runtime::new(a, None, None).unwrap();
    let w = "http://10.0.0.1:3000".to_string();
    rt.record_target_sample(&w, sample("1.1.1.1", 10));
    rt.record_comparison_sample(&w, sample("1.1.1.1", 20));
    let comp = rt.comparison_results.as_ref().unwrap();
    assert_eq!(comp.len(), 1);
    assert_eq!(comp[0].1[0].ttfb_duration, 20 * 1_000_000);
    assert_eq!(rt.results[0].1.len(), 1);
    let out = rt.output();
    assert_eq!(out.comparison_results.as_ref().unwrap()[0].1.len(), 1);
}

#[test]
fn a_failed_duration_exchange_is_a_network_error() {
    let r = duration_exchange_outcome(Err("connect refused".to_string()));
    assert_eq!(r, Err(MeasureError::Network("connect refused".to_string())));
    let ok = duration_exchange_outcome(Ok((200, 3_000_000))).unwrap();
    assert_eq!(ok.overall_duration, Some(3_000_000));
    let http = duration_exchange_outcome(Ok((503, 3_000_000)));
    assert_eq!(http, Err(MeasureError::HttpStatus(503)));
}

#[test]
fn a_bad_request_names_the_invalid_body() {
    let req = MeasureDurationRequest {
        target: "https://example.org/".to_string(),
        method: "POST".to_string(),
        headers: None,
        body: Some("{".to_string()),
    };
    match plan_duration_probe(&req) {
        Err(MeasureError::BadRequest(m)) => {
            assert!(m.starts_with("Invalid JSON body: "));
        },
        other => panic!("expected BadRequest, got {:?}", other),
    }
}
