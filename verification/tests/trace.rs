use pioemu::protocol::trace::{TraceReader, TraceVerdict};
use pioemu::protocol::CSV_HEADER;

fn row(n: u32) -> String {
    let mut s = n.to_string();
    for _ in 0..17 {
        s.push_str(",0");
    }
    s
}

#[test]
fn complete_trace_finishes() {
    let mut t = TraceReader::new(2);
    assert_eq!(t.accept(CSV_HEADER), TraceVerdict::Row);
    assert_eq!(t.accept(&row(1)), TraceVerdict::Row);
    assert_eq!(t.accept(&row(2)), TraceVerdict::Row);
    assert_eq!(t.accept("DONE"), TraceVerdict::Finished);
}

#[test]
fn trace_errors() {
    let mut t = TraceReader::new(2);
    assert_eq!(t.accept("ERR ticks must be 1..1000"), TraceVerdict::DeviceError);
    assert_eq!(t.accept("DONE"), TraceVerdict::Incomplete);
    assert_eq!(t.accept("hello"), TraceVerdict::UnexpectedResponse);
    assert_eq!(t.accept(CSV_HEADER), TraceVerdict::Row);
    assert_eq!(t.accept("DONE"), TraceVerdict::Incomplete);
    assert_eq!(t.accept(&row(5)), TraceVerdict::InvalidRow);

    let mut short = TraceReader::new(3);
    assert_eq!(short.accept(CSV_HEADER), TraceVerdict::Row);
    assert_eq!(short.accept("1,0,0"), TraceVerdict::InvalidRow);

    let mut over = TraceReader::new(1);
    assert_eq!(over.accept(CSV_HEADER), TraceVerdict::Row);
    assert_eq!(over.accept(&row(1)), TraceVerdict::Row);
    assert_eq!(over.accept(&row(2)), TraceVerdict::InvalidRow);
}
