use eventsource::client::Client;
use eventsource::client::Error;
use eventsource::event::Event;

fn headers_contain(h: &[(String, String)], name: &str, value: &str) -> bool {
    // later entries take precedence, so look from the back
    for (n, v) in h.iter().rev() {
        if n == name {
            return v == value;
        }
    }
    false
}

#[test]
fn new_client_has_documented_defaults() {
    let c = Client::new("http://example.com/events".to_string());
    assert_eq!(c.url().as_str(), "http://example.com/events");
    assert_eq!(c.retry, 5000);
    assert!(!c.is_connected());
    assert_eq!(c.last_event_id(), &None);
    assert!(c.default_headers.is_empty());
}

#[test]
fn request_headers_announce_event_stream_accept() {
    let c = Client::new("http://example.com/".to_string());
    let h = c.request_headers();
    assert!(headers_contain(&h, "Accept", "text/event-stream"));
    assert!(h.iter().all(|(n, _)| n != "Last-Event-ID"));
}

#[test]
fn protocol_accept_header_wins_over_default() {
    let mut c = Client::new("http://example.com/".to_string());
    c.default_headers
        .push(("Accept".to_string(), "text/plain".to_string()));
    c.default_headers
        .push(("X-Custom".to_string(), "yes".to_string()));
    let h = c.request_headers();
    assert!(headers_contain(&h, "Accept", "text/event-stream"));
    assert!(headers_contain(&h, "X-Custom", "yes"));
}

#[test]
fn dispatched_id_rides_every_later_request() {
    let mut c = Client::new("http://example.com/".to_string());
    let mut e = Event::new();
    assert!(!c.feed_line("id: 42", &mut e));
    assert!(!c.feed_line("data: payload", &mut e));
    assert!(c.feed_line("", &mut e));
    assert_eq!(c.last_event_id(), &Some("42".to_string()));
    let h = c.request_headers();
    assert!(headers_contain(&h, "Last-Event-ID", "42"));

    // the id sticks across any number of reconnects
    for round in 0..5u64 {
        c.on_stream_end(1_000 + round);
        assert_eq!(c.accept_response(500, None), Err(Error::Http(500)));
        let h = c.request_headers();
        assert!(headers_contain(&h, "Last-Event-ID", "42"));
    }

    // until a newer id is dispatched
    let mut e2 = Event::new();
    c.feed_line("id: 43", &mut e2);
    assert!(c.feed_line("", &mut e2));
    let h = c.request_headers();
    assert!(headers_contain(&h, "Last-Event-ID", "43"));
}

#[test]
fn dispatch_without_id_keeps_previous_last_event_id() {
    let mut c = Client::new("http://example.com/".to_string());
    let mut e = Event::new();
    c.feed_line("id: 7", &mut e);
    assert!(c.feed_line("", &mut e));
    let mut e2 = Event::new();
    c.feed_line("data: no id here", &mut e2);
    assert!(c.feed_line("", &mut e2));
    assert_eq!(c.last_event_id(), &Some("7".to_string()));
}

#[test]
fn http_404_fails_and_next_pull_waits_full_interval() {
    let mut c = Client::new("http://example.com/".to_string());
    c.record_attempt(10_000);
    let r = c.accept_response(404, Some("text/event-stream"));
    assert_eq!(r, Err(Error::Http(404)));
    assert!(!c.is_connected());
    // 1 second later, 4 more of the 5-second interval remain
    assert_eq!(c.wait_millis(11_000), 4_000);
    // once the interval has passed, no wait is owed
    assert_eq!(c.wait_millis(15_000), 0);
    assert_eq!(c.wait_millis(20_000), 0);
}

#[test]
fn wait_is_zero_before_any_attempt() {
    let c = Client::new("http://example.com/".to_string());
    assert_eq!(c.wait_millis(123_456), 0);
}

#[test]
fn wrong_content_type_and_missing_content_type_fail() {
    let mut c = Client::new("http://example.com/".to_string());
    let r = c.accept_response(200, Some("text/plain"));
    assert_eq!(r, Err(Error::InvalidContentType("text/plain".to_string())));
    assert!(!c.is_connected());
    let r = c.accept_response(200, None);
    assert_eq!(r, Err(Error::NoContentType));
    assert!(!c.is_connected());
}

#[test]
fn event_stream_content_type_connects() {
    let mut c = Client::new("http://example.com/".to_string());
    assert_eq!(c.accept_response(200, Some("text/event-stream")), Ok(()));
    assert!(c.is_connected());
}

#[test]
fn content_type_parameters_and_case_are_ignored() {
    let mut c = Client::new("http://example.com/".to_string());
    assert_eq!(
        c.accept_response(200, Some("text/event-stream; charset=utf-8")),
        Ok(())
    );
    assert!(c.is_connected());

    let mut c2 = Client::new("http://example.com/".to_string());
    assert_eq!(c2.accept_response(200, Some("TEXT/EVENT-STREAM")), Ok(()));
    assert!(c2.is_connected());

    let mut c3 = Client::new("http://example.com/".to_string());
    assert_eq!(
        c3.accept_response(200, Some("application/event-stream")),
        Err(Error::InvalidContentType(
            "application/event-stream".to_string()
        ))
    );

    let mut c4 = Client::new("http://example.com/".to_string());
    assert_eq!(
        c4.accept_response(200, Some("textevent-stream")),
        Err(Error::InvalidContentType("textevent-stream".to_string()))
    );
}

#[test]
fn non_2xx_statuses_fail_and_2xx_pass() {
    let mut c = Client::new("http://example.com/".to_string());
    assert_eq!(
        c.accept_response(301, Some("text/event-stream")),
        Err(Error::Http(301))
    );
    assert_eq!(
        c.accept_response(199, Some("text/event-stream")),
        Err(Error::Http(199))
    );
    assert_eq!(c.accept_response(204, Some("text/event-stream")), Ok(()));
}

#[test]
fn retry_directive_updates_reconnect_interval() {
    let mut c = Client::new("http://example.com/".to_string());
    let mut e = Event::new();
    assert!(!c.feed_line("retry: 3000", &mut e));
    assert_eq!(c.retry, 3000);
    // the accumulator is untouched and no dispatch happened
    assert_eq!(e.data, "");
    // a later attempt honours the new interval
    c.record_attempt(0);
    assert_eq!(c.wait_millis(1_000), 2_000);
}

#[test]
fn next_from_lines_yields_events_in_order() {
    let mut c = Client::new("http://example.com/".to_string());
    let body: Vec<String> = vec![
        "event: add".to_string(),
        "data: one".to_string(),
        "".to_string(),
        "retry: 250".to_string(),
        "data: two".to_string(),
        "id: 9".to_string(),
        "".to_string(),
        "data: tail with no blank line".to_string(),
    ];
    let mut pos = 0usize;
    let first = c.next_from_lines(&body, &mut pos).expect("first event");
    assert_eq!(first.event_type, "add");
    assert_eq!(first.data, "one");
    assert_eq!(pos, 3);

    let second = c.next_from_lines(&body, &mut pos).expect("second event");
    assert_eq!(second.event_type, "message");
    assert_eq!(second.data, "two");
    assert_eq!(second.id, Some("9".to_string()));
    assert_eq!(c.retry, 250);
    assert_eq!(c.last_event_id(), &Some("9".to_string()));
    assert_eq!(pos, 7);

    // the trailing partial event is lost with the connection
    assert!(c.next_from_lines(&body, &mut pos).is_none());
    assert_eq!(pos, 8);
}

#[test]
fn stream_end_disconnects_and_restamps_attempt() {
    let mut c = Client::new("http://example.com/".to_string());
    assert_eq!(c.accept_response(200, Some("text/event-stream")), Ok(()));
    assert!(c.is_connected());
    c.on_stream_end(77_000);
    assert!(!c.is_connected());
    assert_eq!(c.wait_millis(77_000), 5_000);
}
