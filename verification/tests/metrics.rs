//! Counters, their exposition and the endpoint that serves them.

use fluvius::metrics::{http_response, respond, Metrics, RequestHead, REQUEST_HEAD_LIMIT};

fn average(m: &Metrics) -> f64 {
    if m.processing_count() == 0 {
        return 0.0;
    }
    m.processing_time_us() as f64 / m.processing_count() as f64
}

fn rendered(m: &Metrics) -> String {
    format!("{:.2}", average(m))
}

#[test]
fn test_metrics_basic() {
    let mut m = Metrics::new();
    m.inc_received();
    m.inc_received();
    m.inc_emitted();
    m.inc_filtered();
    m.inc_late();
    m.record_processing_time(100);
    m.record_processing_time(200);

    assert_eq!(m.events_received(), 2);
    assert_eq!(m.events_emitted(), 1);
    assert_eq!(m.events_filtered(), 1);
    assert_eq!(m.events_late(), 1);
    assert_eq!(average(&m), 150.0);
}

#[test]
fn test_prometheus_format() {
    let mut m = Metrics::new();
    m.inc_received();
    let output = m.to_prometheus("fluvius", &rendered(&m));
    assert!(output.contains("fluvius_events_received_total 1"));
    assert!(output.contains("# TYPE fluvius_events_received_total counter"));
}

#[test]
fn test_respond_serves_the_exposition_on_the_configured_path() {
    let mut m = Metrics::new();
    m.inc_received();
    let avg = rendered(&m);

    let response = respond("GET /metrics HTTP/1.1\r\nHost: x\r\n\r\n", "/metrics", &m, &avg);
    assert!(response.starts_with("HTTP/1.1 200 OK\r\n"), "{response}");
    assert!(
        response.contains("text/plain; version=0.0.4; charset=utf-8"),
        "{response}"
    );
    assert!(
        response.contains("fluvius_events_received_total 1"),
        "{response}"
    );

    // a scrape may carry a query string
    let with_query = respond("GET /metrics?x=1 HTTP/1.1\r\n\r\n", "/metrics", &m, &avg);
    assert!(
        with_query.starts_with("HTTP/1.1 200 OK\r\n"),
        "{with_query}"
    );
}

#[test]
fn test_respond_rejects_other_paths_and_methods() {
    let m = Metrics::new();
    let avg = rendered(&m);

    let other_path = respond("GET /admin HTTP/1.1\r\n\r\n", "/metrics", &m, &avg);
    assert!(other_path.starts_with("HTTP/1.1 404"), "{other_path}");

    let post = respond("POST /metrics HTTP/1.1\r\n\r\n", "/metrics", &m, &avg);
    assert!(post.starts_with("HTTP/1.1 405"), "{post}");

    let garbage = respond("", "/metrics", &m, &avg);
    assert!(garbage.starts_with("HTTP/1.1 405"), "{garbage}");
}

/// The body length has to match what a client is told to read.
#[test]
fn test_response_declares_its_body_length() {
    let response = http_response("200 OK", "text/plain", "body");
    assert!(response.contains("Content-Length: 4\r\n"), "{response}");
    assert!(response.ends_with("\r\n\r\nbody"), "{response}");
}

#[test]
fn the_body_length_is_in_bytes() {
    let response = http_response("404 Not Found", "text/plain", "kein Wörtchen");
    assert_eq!(
        response,
        "HTTP/1.1 404 Not Found\r\nContent-Type: text/plain\r\nContent-Length: 14\r\nConnection: close\r\n\r\nkein Wörtchen"
    );
}

#[test]
fn the_exposition_is_exact() {
    let mut m = Metrics::new();
    m.inc_received();
    m.inc_received();
    m.inc_emitted();
    m.inc_late();
    m.record_processing_time(5);
    m.record_processing_time(10);
    let expected = "# HELP x_events_received_total Total events received\n\
                    # TYPE x_events_received_total counter\n\
                    x_events_received_total 2\n\
                    # HELP x_events_emitted_total Total events emitted\n\
                    # TYPE x_events_emitted_total counter\n\
                    x_events_emitted_total 1\n\
                    # HELP x_events_filtered_total Total events filtered out\n\
                    # TYPE x_events_filtered_total counter\n\
                    x_events_filtered_total 0\n\
                    # HELP x_events_late_total Total late events\n\
                    # TYPE x_events_late_total counter\n\
                    x_events_late_total 1\n\
                    # HELP x_processing_time_avg_us Average processing time in microseconds\n\
                    # TYPE x_processing_time_avg_us gauge\n\
                    x_processing_time_avg_us 7.50\n";
    assert_eq!(m.to_prometheus("x", &rendered(&m)), expected);

    m.reset();
    assert_eq!(m.events_received() + m.events_emitted() + m.events_late(), 0);
    assert_eq!(m.processing_time_us() + m.processing_count(), 0);
    assert_eq!(Metrics::default().events_filtered(), 0);
}

#[test]
fn processing_time_wraps_around() {
    let mut m = Metrics::new();
    m.record_processing_time(u64::MAX);
    m.record_processing_time(3);
    assert_eq!(m.processing_time_us(), 2);
    assert_eq!(m.processing_count(), 2);
}

#[test]
fn the_request_line_may_be_spaced_oddly() {
    let m = Metrics::new();
    for head in ["  GET\t/metrics  HTTP/1.1\n", "GET /metrics", "GET /metrics\r"] {
        let response = respond(head, "/metrics", &m, "0.00");
        assert!(response.starts_with("HTTP/1.1 200 OK"), "{head:?}");
    }
    assert!(respond("GET", "", &m, "0.00").starts_with("HTTP/1.1 200 OK"));
    assert!(respond("GET \nX", "/metrics", &m, "0.00").starts_with("HTTP/1.1 404"));
    assert!(respond("get /metrics", "/metrics", &m, "0.00").starts_with("HTTP/1.1 405"));
}

#[test]
fn a_request_head_ends_at_its_blank_line() {
    let mut head = RequestHead::new();
    assert!(!head.is_complete());
    assert!(head.extend(b"GET / HTTP/1.1\r\n\r"));
    assert!(!head.is_complete());
    assert!(head.extend(b"\nrest"));
    assert!(head.is_complete());
    assert_eq!(head.into_text().unwrap(), "GET / HTTP/1.1\r\n\r\nrest");
}

#[test]
fn a_request_head_is_limited() {
    let mut head = RequestHead::new();
    assert!(head.extend(&vec![b'a'; REQUEST_HEAD_LIMIT]));
    assert!(!head.extend(b"a"));
}

#[test]
fn a_request_head_must_be_text() {
    let mut head = RequestHead::new();
    head.extend(&[b'G', 0xc3, 0xa4]);
    assert_eq!(head.into_text().unwrap(), "G\u{e4}");

    let mut head = RequestHead::new();
    head.extend(&[0xff, 0xfe]);
    assert!(head.into_text().is_none());
}

#[test]
fn a_snapshot_stays_as_it_was_taken() {
    let mut m = Metrics::new();
    m.inc_received();
    m.record_processing_time(7);
    let taken = m.snapshot();
    m.inc_received();
    m.reset();
    assert_eq!(taken.events_received(), 1);
    assert_eq!((taken.processing_time_us(), taken.processing_count()), (7, 1));
    assert_eq!(m.events_received(), 0);
}
