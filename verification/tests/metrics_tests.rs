use metrics_prometheus::{
    i64_to_dec, parse_quantiles, u64_to_dec, AsNanoseconds, Key, Label, PrometheusRecorder,
    IntoKey, IntoLabels, QuantileError, Recorder, Sketch,
};

#[test]
fn into_key_and_into_labels_conversions() {
    assert_eq!("requests".into_key(), Key::from_name("requests"));
    assert_eq!(String::from("requests").into_key(), Key::from_name("requests"));
    let labels = vec![(String::from("a"), String::from("1"))].into_labels();
    assert_eq!(labels, vec![Label::from_parts("a", "1")]);
    let keyed = ("m", vec![Label::from_parts("a", "1")]).into_key();
    assert_eq!(keyed, Key::from_name_and_labels("m", vec![Label::from_parts("a", "1")]));
}

#[test]
fn nanosecond_conversions() {
    assert_eq!(AsNanoseconds::as_nanos(&7u64), 7);
    let d = std::time::Duration::from_micros(3);
    assert_eq!(AsNanoseconds::as_nanos(&d), 3000);
}

fn body_after_header(s: &str) -> &str {
    match s.find('\n') {
        Some(i) => &s[i..],
        None => "",
    }
}

#[test]
fn empty_labels_equal_no_labels() {
    let a = Key::from_name("requests");
    let b = Key::from_name_and_labels("requests", vec![]);
    assert_eq!(a, b);
}

#[test]
fn label_order_matters_for_equality() {
    let l1 = vec![Label::from_parts("a", "1"), Label::from_parts("b", "2")];
    let l2 = vec![Label::from_parts("b", "2"), Label::from_parts("a", "1")];
    let k1 = Key::from_name_and_labels("m", l1);
    let k2 = Key::from_name_and_labels("m", l2);
    assert!(k1 != k2);

    let mut r1 = PrometheusRecorder::new();
    r1.record_gauge(k1, 5);
    let out1: String = r1.into_string();
    assert!(out1.contains("m{a=\"1\",b=\"2\"} 5\n"));

    let mut r2 = PrometheusRecorder::new();
    r2.record_gauge(k2, 5);
    let out2: String = r2.into_string();
    assert!(out2.contains("m{b=\"2\",a=\"1\"} 5\n"));
}

#[test]
fn counter_round_trip() {
    let mut r = PrometheusRecorder::new();
    r.record_counter(Key::from_name("requests"), 42);
    let out = r.into_string();
    assert!(out.contains("\n# TYPE requests counter\nrequests 42\n"));
}

#[test]
fn repeated_counter_calls_append() {
    let mut r = PrometheusRecorder::new();
    r.record_counter(Key::from_name("requests"), 1);
    r.record_counter(Key::from_name("requests"), 2);
    let out = r.into_string();
    assert_eq!(
        body_after_header(&out),
        "\n# TYPE requests counter\nrequests 1\n\n# TYPE requests counter\nrequests 2\n"
    );
}

#[test]
fn gauge_with_label_renders_block() {
    let mut r = PrometheusRecorder::new();
    let key = Key::from_name_and_labels("temp", vec![Label::from_parts("room", "kitchen")]);
    r.record_gauge(key, -3);
    let out = r.into_string();
    assert!(out.contains("\n# TYPE temp gauge\ntemp{room=\"kitchen\"} -3\n"));
}

#[test]
fn histogram_summary_block() {
    let mut r = PrometheusRecorder::with_quantiles(&vec![0, 1000]).unwrap();
    let key = Key::from_name("lat");
    r.record_histogram(key, &[10, 20, 30, 40]).unwrap();
    let out = r.into_string();
    assert_eq!(
        body_after_header(&out),
        "\n# TYPE lat summary\nlat{quantile=\"0\"} 10\nlat{quantile=\"1\"} 40\nlat_sum 100\nlat_count 4\n"
    );
}

#[test]
fn histogram_merge_equivalence() {
    let mut once = PrometheusRecorder::with_quantiles(&vec![0, 500, 1000]).unwrap();
    once.record_histogram(Key::from_name("lat"), &[7, 3, 11]).unwrap();
    let out_once = once.into_string();

    let mut piecewise = PrometheusRecorder::with_quantiles(&vec![0, 500, 1000]).unwrap();
    piecewise.record_histogram(Key::from_name("lat"), &[7]).unwrap();
    piecewise.record_histogram(Key::from_name("lat"), &[3]).unwrap();
    piecewise.record_histogram(Key::from_name("lat"), &[11]).unwrap();
    let out_piecewise = piecewise.into_string();

    assert_eq!(body_after_header(&out_once), body_after_header(&out_piecewise));
}

#[test]
fn histogram_labels_keep_order_quantile_last() {
    let mut r = PrometheusRecorder::with_quantiles(&vec![500]).unwrap();
    let key = Key::from_name_and_labels("lat", vec![Label::from_parts("svc", "api")]);
    r.record_histogram(key, &[5, 6]).unwrap();
    let out = r.into_string();
    assert!(out.contains("lat{svc=\"api\",quantile=\"0.5\"} 5\n"));
    assert!(out.contains("lat_sum{svc=\"api\"} 11\n"));
    assert!(out.contains("lat_count{svc=\"api\"} 2\n"));
}

#[test]
fn dots_become_underscores_everywhere() {
    let mut r = PrometheusRecorder::with_quantiles(&vec![1000]).unwrap();
    r.record_counter(Key::from_name("service.latency"), 42);
    r.record_histogram(Key::from_name("service.latency"), &[9]).unwrap();
    let out = r.into_string();
    assert!(out.contains("\n# TYPE service_latency counter\nservice_latency 42\n"));
    assert!(out.contains("\n# TYPE service_latency summary\n"));
    assert!(out.contains("service_latency{quantile=\"1\"} 9\n"));
    assert!(out.contains("service_latency_sum 9\n"));
    assert!(out.contains("service_latency_count 1\n"));
    assert!(!out.contains("service.latency"));
}

#[test]
fn empty_batch_and_small_values_always_record() {
    let mut r = PrometheusRecorder::new();
    assert!(r.record_histogram(Key::from_name("lat"), &[]).is_ok());
    assert!(r.record_histogram(Key::from_name("lat"), &[0, 1, 2047]).is_ok());
    let out = r.into_string();
    assert!(out.contains("lat_count 3\n"));
    assert!(out.contains("lat_sum 2048\n"));
}

#[test]
fn quantile_values_are_monotone() {
    let mut s = Sketch::new();
    for v in [12u64, 250, 3, 999, 47, 47, 1500] {
        s.record(v).unwrap();
    }
    let mut last: u64 = 0;
    for q in [0u16, 100, 250, 500, 750, 900, 999, 1000] {
        let v = s.value_at_quantile(q);
        assert!(v >= last);
        last = v;
    }
    assert_eq!(s.value_at_quantile(0), 3);
    assert_eq!(s.value_at_quantile(1000), 1500);
    assert_eq!(s.len(), 7);
}

#[test]
fn sketch_is_approximate_above_exact_range() {
    let mut s = Sketch::new();
    s.record(1_000_000).unwrap();
    let v = s.value_at_quantile(1000);
    assert!(v >= 1_000_000);
    assert!(v <= 1_000_000 + 1_000_000 / 1024);
}

#[test]
fn quantile_labels_drop_trailing_zeros() {
    let qs = parse_quantiles(&vec![0, 500, 900, 950, 990, 999, 1000]).unwrap();
    let labels: Vec<&str> = qs.iter().map(|q| q.label.as_str()).collect();
    assert_eq!(labels, vec!["0", "0.5", "0.9", "0.95", "0.99", "0.999", "1"]);
}

#[test]
fn out_of_range_quantile_is_rejected_at_construction() {
    assert_eq!(parse_quantiles(&vec![500, 1001]).unwrap_err(), QuantileError::OutOfRange);
    assert!(PrometheusRecorder::with_quantiles(&vec![1001]).is_err());
}

#[test]
fn clone_is_a_blank_slate_with_same_quantiles() {
    let mut r = PrometheusRecorder::with_quantiles(&vec![0, 1000]).unwrap();
    r.record_counter(Key::from_name("seen"), 1);
    r.record_histogram(Key::from_name("lat"), &[4]).unwrap();
    let fresh = r.clone();
    let out_fresh = fresh.into_string();
    assert_eq!(body_after_header(&out_fresh), "");
    assert!(out_fresh.starts_with("# metrics snapshot (ts="));
    let out_orig = r.into_string();
    assert!(out_orig.contains("seen 1\n"));
    assert!(out_orig.contains("lat_count 1\n"));
}

#[test]
fn header_has_timestamp_marker() {
    let r = PrometheusRecorder::new();
    let out = r.into_string();
    assert!(out.starts_with("# metrics snapshot (ts="));
    assert!(out.contains(") (prometheus exposition format)"));
}

#[test]
fn decimal_rendering_is_exact() {
    assert_eq!(u64_to_dec(0).as_str(), "0");
    assert_eq!(u64_to_dec(42).as_str(), "42");
    assert_eq!(u64_to_dec(18446744073709551615).as_str(), "18446744073709551615");
    assert_eq!(i64_to_dec(-3).as_str(), "-3");
    assert_eq!(i64_to_dec(0).as_str(), "0");
    assert_eq!(i64_to_dec(-9223372036854775808).as_str(), "-9223372036854775808");
    assert_eq!(i64_to_dec(9223372036854775807).as_str(), "9223372036854775807");
}

#[test]
fn key_accessors_and_display() {
    let key = Key::from_name_and_labels(
        "m",
        vec![Label::from_parts("a", "1"), Label::from_parts("b", "2")],
    );
    assert_eq!(key.name().as_str(), "m");
    assert_eq!(key.labels().unwrap().len(), 2);
    assert_eq!(key.display_string().as_str(), "Key(m, [a = 1, b = 2])");
    let bare = Key::from_name("m");
    assert!(bare.labels().is_none());
    assert_eq!(bare.display_string().as_str(), "Key(m)");
}

#[test]
fn map_name_keeps_labels() {
    let key = Key::from_name_and_labels("latency", vec![Label::from_parts("svc", "api")]);
    let mapped = key.map_name(|n| format!("app.{}", n));
    assert_eq!(mapped.name().as_str(), "app.latency");
    assert_eq!(mapped.labels().unwrap().len(), 1);
    let mut r = PrometheusRecorder::new();
    r.record_counter(mapped, 1);
    let out = r.into_string();
    assert!(out.contains("app_latency{svc=\"api\"} 1\n"));
}

#[test]
fn default_quantiles_render_seven_lines() {
    let mut r = PrometheusRecorder::new();
    r.record_histogram(Key::from_name("lat"), &[100]).unwrap();
    let out = r.into_string();
    for label in ["0", "0.5", "0.9", "0.95", "0.99", "0.999", "1"] {
        assert!(out.contains(&format!("lat{{quantile=\"{}\"}} 100\n", label)));
    }
}
