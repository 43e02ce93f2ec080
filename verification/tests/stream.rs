use std::sync::Arc;
use std::time::Duration;

use serverkit::response::IntoResponse;
use serverkit::sse::{SseEvent, sse_response};
use serverkit::stream::{BufferedRequestStream, Chunk, StreamError, StreamLimit, append_within_limit};

#[test]
fn owned_chunks_move_their_allocation() {
    let bytes = b"chunk".to_vec();
    let pointer = bytes.as_ptr();
    let chunk = Chunk::from(bytes);
    let bytes = chunk.into_vec();

    assert_eq!(bytes.as_ptr(), pointer);
    assert_eq!(bytes, b"chunk");
}

#[test]
fn chunks_support_multiple_partial_advances() {
    let mut chunk = Chunk::from(b"abcdef".to_vec());

    assert_eq!(chunk.remaining(), 6);
    assert_eq!(chunk.bytes(), b"abcdef");

    chunk.advance(2);
    assert_eq!(chunk.remaining(), 4);
    assert_eq!(chunk.bytes(), b"cdef");

    chunk.advance(1);
    assert_eq!(chunk.remaining(), 3);
    assert_eq!(chunk.bytes(), b"def");

    chunk.advance(3);
    assert_eq!(chunk.remaining(), 0);
    assert_eq!(chunk.bytes(), b"");
}

#[test]
fn shared_chunks_copy_only_when_converted_back_to_a_vec() {
    let shared = Arc::new(b"abcdef".to_vec());
    let mut chunk = Chunk::shared(Arc::clone(&shared));
    chunk.advance(2);

    assert_eq!(chunk.into_vec(), b"cdef");
    assert_eq!(shared.as_slice(), b"abcdef");
}

#[test]
fn owned_chunks_shift_read_bytes_out() {
    let mut chunk = Chunk::from(b"abcdef".to_vec());
    chunk.advance(4);
    assert_eq!(chunk.into_vec(), b"ef");
    let mut only = Chunk::shared(Arc::new(b"xyz".to_vec()));
    only.advance(1);
    assert_eq!(only.into_vec(), b"yz");
}

#[test]
fn encodes_an_event() {
    let event = SseEvent::data("first\nsecond".to_string())
        .event("update".to_string())
        .id("42".to_string())
        .retry(Duration::from_secs(1));

    assert_eq!(
        event.encode(),
        b"event: update\nid: 42\nretry: 1000\ndata: first\ndata: second\n\n",
    );
}

#[test]
fn events_drop_line_breaks_from_names_and_split_data() {
    let event = SseEvent::data("a\r\nb\n".to_string()).event("x\ny".to_string());
    assert_eq!(event.encode(), b"event: xy\ndata: a\ndata: b\n\n");
    assert_eq!(SseEvent::data(String::new()).encode(), b"data:\n\n");
    assert_eq!(SseEvent::data("\n".to_string()).retry_millis(5).encode(), b"retry: 5\ndata: \n\n");
}

#[test]
fn event_streams_are_uncached() {
    let mut response = sse_response(3);
    assert!(response.is_streaming());
    assert_eq!(response.content_type(), Some("text/event-stream; charset=utf-8"));
    assert_eq!(response.headers().get("cache-control"), Some(b"no-cache".as_slice()));
}

#[test]
fn bodies_stop_at_the_limit() {
    let mut buffered = Vec::new();
    assert!(append_within_limit(&mut buffered, b"abc", Some(4)).is_ok());
    let error = append_within_limit(&mut buffered, b"de", Some(4)).unwrap_err();
    assert_eq!(error.status(), 413);
    assert_eq!(error.message(), "request body exceeds the 4-byte limit");
    assert_eq!(buffered, b"abc");
    assert!(append_within_limit(&mut buffered, b"de", None).is_ok());
    assert_eq!(buffered, b"abcde");

    let mut limit = StreamLimit::new(3);
    assert!(limit.accept(3).is_none());
    assert!(!limit.is_exhausted());
    assert_eq!(limit.accept(1).unwrap().status(), 413);
    assert!(limit.is_exhausted());

    let response = StreamError::new("broken".to_string()).into_response();
    assert_eq!(response.status(), 400);
    assert_eq!(response.body(), b"broken");
}

#[test]
fn buffered_streams_yield_one_chunk() {
    let mut stream = BufferedRequestStream::new(b"body".to_vec());
    assert!(stream.advance());
    assert_eq!(stream.chunk(), b"body");
    assert!(!stream.advance());
    let mut empty = BufferedRequestStream::new(Vec::new());
    assert!(!empty.advance());
}
