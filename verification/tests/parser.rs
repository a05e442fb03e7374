use eventsource::event::Event;
use eventsource::event::ParseResult;
use eventsource::event::parse_event_line;

#[test]
fn event_then_data_lines_dispatch_once() {
    let mut e = Event::new();
    assert_eq!(parse_event_line("event: foo", &mut e), ParseResult::Next);
    assert_eq!(parse_event_line("data: bar", &mut e), ParseResult::Next);
    assert_eq!(parse_event_line("data: baz", &mut e), ParseResult::Next);
    assert_eq!(parse_event_line("", &mut e), ParseResult::Dispatch);
    assert_eq!(e.event_type, "foo");
    assert_eq!(e.data, "bar\nbaz");
    assert_eq!(e.id, None);
}

#[test]
fn comment_line_yields_next_and_changes_nothing() {
    let mut e = Event::new();
    parse_event_line("data: kept", &mut e);
    let r = parse_event_line(": this is a comment", &mut e);
    assert_eq!(r, ParseResult::Next);
    assert_eq!(e.event_type, "message");
    assert_eq!(e.data, "kept");
    assert_eq!(e.id, None);
}

#[test]
fn retry_line_yields_set_retry_without_touching_accumulator() {
    let mut e = Event::new();
    parse_event_line("data: kept", &mut e);
    let r = parse_event_line("retry: 3000", &mut e);
    assert_eq!(r, ParseResult::SetRetry(3000));
    assert_eq!(e.data, "kept");
    assert_eq!(e.event_type, "message");
    assert_eq!(e.id, None);
}

#[test]
fn blank_line_with_no_fields_dispatches_default_event() {
    let mut e = Event::new();
    let r = parse_event_line("", &mut e);
    assert_eq!(r, ParseResult::Dispatch);
    assert_eq!(e.event_type, "message");
    assert_eq!(e.data, "");
    assert_eq!(e.id, None);
}

#[test]
fn newline_and_crlf_terminators_parse_alike() {
    let plain = ["event: foo", "data: bar", "data: baz", ""];
    let mut with_nl = Event::new();
    let mut with_crlf = Event::new();
    let mut bare = Event::new();
    for line in plain.iter() {
        let nl = format!("{}\n", line);
        let crlf = format!("{}\r\n", line);
        let rn = parse_event_line(&nl, &mut with_nl);
        let rc = parse_event_line(&crlf, &mut with_crlf);
        let rb = parse_event_line(line, &mut bare);
        assert_eq!(rn, rb);
        assert_eq!(rc, rb);
    }
    assert_eq!(with_nl.event_type, bare.event_type);
    assert_eq!(with_nl.data, bare.data);
    assert_eq!(with_crlf.event_type, bare.event_type);
    assert_eq!(with_crlf.data, bare.data);
    assert_eq!(bare.data, "bar\nbaz");
}

#[test]
fn line_without_colon_is_a_silent_no_op() {
    let mut e = Event::new();
    let r = parse_event_line("data", &mut e);
    assert_eq!(r, ParseResult::Next);
    assert_eq!(e.data, "");
    assert_eq!(e.event_type, "message");
    assert_eq!(e.id, None);
}

#[test]
fn only_one_leading_space_is_stripped_from_value() {
    let mut e = Event::new();
    parse_event_line("data:bar", &mut e);
    assert_eq!(e.data, "bar");
    let mut e2 = Event::new();
    parse_event_line("data:  bar", &mut e2);
    assert_eq!(e2.data, " bar");
}

#[test]
fn id_field_sets_event_id() {
    let mut e = Event::new();
    assert_eq!(parse_event_line("id: 42", &mut e), ParseResult::Next);
    assert_eq!(e.id, Some("42".to_string()));
}

#[test]
fn later_event_field_overwrites_earlier() {
    let mut e = Event::new();
    parse_event_line("event: first", &mut e);
    parse_event_line("event: second", &mut e);
    assert_eq!(e.event_type, "second");
}

#[test]
fn empty_data_value_joins_per_nonempty_rule() {
    let mut e = Event::new();
    parse_event_line("data:", &mut e);
    assert_eq!(e.data, "");
    parse_event_line("data: x", &mut e);
    assert_eq!(e.data, "x");
    parse_event_line("data:", &mut e);
    assert_eq!(e.data, "x\n");
}

#[test]
fn unknown_field_is_ignored() {
    let mut e = Event::new();
    let r = parse_event_line("flavour: vanilla", &mut e);
    assert_eq!(r, ParseResult::Next);
    assert_eq!(e.data, "");
    assert_eq!(e.event_type, "message");
    assert_eq!(e.id, None);
}

#[test]
fn unparsable_retry_values_are_ignored() {
    let mut e = Event::new();
    assert_eq!(parse_event_line("retry: abc", &mut e), ParseResult::Next);
    assert_eq!(parse_event_line("retry:", &mut e), ParseResult::Next);
    assert_eq!(parse_event_line("retry: -5", &mut e), ParseResult::Next);
    assert_eq!(parse_event_line("retry: 12x", &mut e), ParseResult::Next);
    assert_eq!(
        parse_event_line("retry: 99999999999999999999999999", &mut e),
        ParseResult::Next
    );
    assert_eq!(
        parse_event_line("retry: 18446744073709551615", &mut e),
        ParseResult::SetRetry(u64::MAX)
    );
}

#[test]
fn dispatch_leaves_accumulator_for_caller_to_reset() {
    let mut e = Event::new();
    parse_event_line("data: once", &mut e);
    assert_eq!(parse_event_line("\n", &mut e), ParseResult::Dispatch);
    // the parser itself does not reset; the caller does
    assert_eq!(e.data, "once");
}
