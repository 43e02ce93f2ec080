use serverkit::multipart::{
    disposition_parameter, field_text, find_bytes, multipart_boundary, parse_headers, ChunkStep, FieldStep,
    MultipartError, MultipartField, Multipart,
};
use serverkit::response::IntoResponse;

/// Feeds `body` in chunks of `chunk_size` whenever the parser needs more.
struct Feeder<'a> {
    body: &'a [u8],
    offset: usize,
    chunk_size: usize,
}

impl Feeder<'_> {
    fn feed(&mut self, parser: &mut Multipart) -> bool {
        if self.offset >= self.body.len() {
            return false;
        }
        let end = (self.offset + self.chunk_size).min(self.body.len());
        parser.feed(&self.body[self.offset..end]);
        self.offset = end;
        true
    }
}

fn next_field(parser: &mut Multipart, feeder: &mut Feeder) -> Option<Result<MultipartField, MultipartError>> {
    loop {
        match parser.next_field() {
            FieldStep::NeedMore => {
                if !feeder.feed(parser) {
                    parser.fail();
                    return Some(Err(MultipartError::Malformed));
                }
            }
            FieldStep::Field(field) => return Some(Ok(field)),
            FieldStep::End => return None,
            FieldStep::Failed(error) => return Some(Err(error)),
        }
    }
}

fn next_chunk(parser: &mut Multipart, feeder: &mut Feeder) -> Option<Vec<u8>> {
    loop {
        match parser.next_chunk() {
            ChunkStep::NeedMore => {
                if !feeder.feed(parser) {
                    parser.fail();
                    return None;
                }
            }
            ChunkStep::Chunk(bytes) => return Some(bytes),
            ChunkStep::End => return None,
        }
    }
}

fn field_bytes(parser: &mut Multipart, feeder: &mut Feeder) -> Vec<u8> {
    let mut bytes = Vec::new();
    while let Some(chunk) = next_chunk(parser, feeder) {
        bytes.extend_from_slice(&chunk);
    }
    bytes
}

fn parser() -> Multipart {
    Multipart::new(b"boundary")
}

#[test]
fn parses_fields_and_files() {
    let body = b"--boundary\r\nContent-Disposition: form-data; name=\"title\"\r\n\r\nhello\r\n--boundary\r\nContent-Disposition: form-data; name=\"file\"; filename=\"a.txt\"\r\nContent-Type: text/plain\r\n\r\ncontent\r\n--boundary--\r\n";
    let mut multipart = parser();
    let mut feeder = Feeder { body, offset: 0, chunk_size: 7 };
    let first = next_field(&mut multipart, &mut feeder).unwrap().unwrap();

    assert_eq!(first.name(), Some("title"));
    assert_eq!(field_text(field_bytes(&mut multipart, &mut feeder)).unwrap(), "hello");

    let second = next_field(&mut multipart, &mut feeder).unwrap().unwrap();
    assert_eq!(second.file_name(), Some("a.txt"));
    assert_eq!(second.content_type(), Some("text/plain"));
    assert_eq!(field_bytes(&mut multipart, &mut feeder), b"content");
    assert!(next_field(&mut multipart, &mut feeder).is_none());
}

#[test]
fn streams_large_fields_in_bounded_chunks() {
    let content = vec![7; 256 * 1024];
    let mut body =
        b"--boundary\r\nContent-Disposition: form-data; name=\"file\"; filename=\"large.bin\"\r\n\r\n".to_vec();
    body.extend_from_slice(&content);
    body.extend_from_slice(b"\r\n--boundary--\r\n");
    let mut multipart = parser();
    let mut feeder = Feeder { body: &body, offset: 0, chunk_size: 1024 };
    let field = next_field(&mut multipart, &mut feeder).unwrap().unwrap();
    assert_eq!(field.file_name(), Some("large.bin"));
    let mut received = Vec::new();
    let mut largest = 0;

    while let Some(chunk) = next_chunk(&mut multipart, &mut feeder) {
        largest = largest.max(chunk.len());
        received.extend_from_slice(&chunk);
    }

    assert_eq!(received, content);
    assert!(largest <= 2048);
    assert!(next_field(&mut multipart, &mut feeder).is_none());
}

#[test]
fn discards_an_unread_field_before_parsing_the_next_one() {
    let content = vec![7; 32 * 1024];
    let mut body = b"--boundary\r\nContent-Disposition: form-data; name=\"file\"\r\n\r\n".to_vec();
    body.extend_from_slice(&content);
    body.extend_from_slice(
        b"\r\n--boundary\r\nContent-Disposition: form-data; name=\"title\"\r\n\r\nafter\r\n--boundary--\r\n",
    );
    let mut multipart = parser();
    let mut feeder = Feeder { body: &body, offset: 0, chunk_size: 128 };

    let first = next_field(&mut multipart, &mut feeder).unwrap().unwrap();
    assert_eq!(first.name(), Some("file"));
    assert!(next_chunk(&mut multipart, &mut feeder).unwrap().len() <= 256);

    let second = next_field(&mut multipart, &mut feeder).unwrap().unwrap();
    assert_eq!(second.name(), Some("title"));
    assert_eq!(field_text(field_bytes(&mut multipart, &mut feeder)).unwrap(), "after");
    assert!(next_field(&mut multipart, &mut feeder).is_none());
}

#[test]
fn rejects_a_body_without_the_first_boundary() {
    let body = b"--other\r\n\r\n";
    let mut multipart = parser();
    let mut feeder = Feeder { body, offset: 0, chunk_size: 4 };
    assert!(matches!(next_field(&mut multipart, &mut feeder), Some(Err(MultipartError::Malformed))));
    assert!(next_field(&mut multipart, &mut feeder).is_none());
}

#[test]
fn a_truncated_body_is_malformed() {
    let body = b"--boundary\r\nContent-Disposition: form-data; name=\"a\"";
    let mut multipart = parser();
    let mut feeder = Feeder { body, offset: 0, chunk_size: 5 };
    assert!(matches!(next_field(&mut multipart, &mut feeder), Some(Err(MultipartError::Malformed))));
}

#[test]
fn finds_the_first_occurrence() {
    assert_eq!(find_bytes(b"abcabc", b"bc"), Some(1));
    assert_eq!(find_bytes(b"abcabc", b"cb"), None);
    assert_eq!(find_bytes(b"abc", b""), None);
    assert_eq!(find_bytes(b"ab", b"abc"), None);
}

#[test]
fn reads_the_boundary_from_the_content_type() {
    assert_eq!(multipart_boundary(Some("multipart/form-data; boundary=abc")).unwrap(), b"abc");
    assert_eq!(multipart_boundary(Some("Multipart/Form-Data ; charset=x; BOUNDARY = \"q\"")).unwrap(), b"q");
    assert!(matches!(multipart_boundary(None), Err(MultipartError::ContentType)));
    assert!(matches!(multipart_boundary(Some("text/plain; boundary=a")), Err(MultipartError::ContentType)));
    assert!(matches!(multipart_boundary(Some("multipart/form-data")), Err(MultipartError::Boundary)));
    assert!(matches!(multipart_boundary(Some("multipart/form-data; boundary=\"\"")), Err(MultipartError::Boundary)));
    let long = format!("multipart/form-data; boundary={}", "x".repeat(71));
    assert!(matches!(multipart_boundary(Some(&long)), Err(MultipartError::Boundary)));
}

#[test]
fn parses_part_headers_and_disposition_parameters() {
    let headers = parse_headers(b"Content-Disposition:  form-data; name=\"a\" \r\nX-Other: 1").unwrap();
    assert_eq!(headers.get("content-disposition"), Some(b"form-data; name=\"a\"".as_slice()));
    assert_eq!(headers.get("x-other"), Some(b"1".as_slice()));
    assert!(matches!(parse_headers(b"no colon"), Err(MultipartError::Malformed)));
    assert!(matches!(parse_headers(b"\xff: x"), Err(MultipartError::Malformed)));
    assert_eq!(disposition_parameter("form-data; NAME=\"x\"; filename=y", "name"), Some("x".to_owned()));
    assert_eq!(disposition_parameter("name=x; filename=y", "name"), None);
    assert_eq!(disposition_parameter("form-data; filename=\"\"\"y\"\"", "filename"), Some("y".to_owned()));
}

#[test]
fn non_utf8_text_fields_report_where_decoding_failed() {
    match field_text(vec![0x66, 0xff]) {
        Err(MultipartError::Text(message)) => {
            assert_eq!(message, "invalid utf-8 sequence of 1 bytes from index 1")
        }
        _ => panic!("expected a text error"),
    }
}

#[test]
fn multipart_errors_become_error_responses() {
    assert_eq!(MultipartError::ContentType.into_response().status(), 415);
    assert_eq!(MultipartError::Boundary.into_response().status(), 400);
    assert_eq!(MultipartError::Malformed.into_response().status(), 400);
}
