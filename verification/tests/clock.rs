use orchestration_event_streamer::clock::parse_occurred_at;

#[test]
fn occurred_at_is_read_as_rfc3339() {
    let at = parse_occurred_at("2015-05-15T02:00:00.25+02:00");
    assert_eq!(at.seconds, 1431648000);
    assert_eq!(at.nanos, 250_000_000);
}
