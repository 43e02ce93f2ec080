//! Server-sent events: the event wire format and the streamed response.

use vstd::prelude::*;
use vstd::utf8::encode_utf8;
use core::time::Duration;
use crate::text::{chars_of, string_of, push_str, push_all, decimal, decimal_text, split_with, split_chars, utf8_bytes};
use crate::headers::without_named;
use crate::response::Response;

verus! {

/// A stream of events, answered as a `text/event-stream` response.
#[derive(Debug)]
pub struct Sse<S> {
    stream: S,
}

impl<S> Sse<S> {
    pub closed spec fn spec_stream(&self) -> S {
        self.stream
    }

    pub fn new(stream: S) -> (r: Sse<S>)
        ensures
            r.spec_stream() == stream,
    {
        Sse { stream }
    }

    pub fn into_stream(self) -> (r: S)
        ensures
            r == self.spec_stream(),
    {
        self.stream
    }
}

/// The response that streams events, its stream known to the serving layer
/// as `stream`.
pub fn sse_response(stream: u64) -> (r: Response)
    ensures
        r.spec_status() == 200,
        r.spec_body() == crate::response::ResponseBody::Streaming(stream),
        r.spec_headers() == seq![
            ("Content-Type"@, encode_utf8("text/event-stream; charset=utf-8"@)),
            ("Cache-Control"@, encode_utf8("no-cache"@)),
        ],
{
    let mut response = Response::stream(200, stream);
    response.set_header("Content-Type".to_owned(), utf8_bytes("text/event-stream; charset=utf-8"));
    let ghost one = response.spec_headers();
    response.set_header("Cache-Control".to_owned(), utf8_bytes("no-cache"));
    proof {
        reveal_strlit("Content-Type");
        reveal_strlit("Cache-Control");
        assert(without_named(Seq::empty(), "Content-Type"@, 0) =~= Seq::empty());
        assert("Content-Type"@.len() == 12);
        assert("Cache-Control"@.len() == 13);
        assert(!crate::text::eq_ignore_case("Content-Type"@, "Cache-Control"@));
        assert(without_named(one, "Cache-Control"@, 0) =~= Seq::empty());
        assert(one.len() == 1 && one[0].0 == "Content-Type"@);
        assert(without_named(one, "Cache-Control"@, 1) =~= one);
    }
    response
}

/// One event: its data, and optional name, id and reconnection delay.
#[derive(Debug)]
pub struct SseEvent {
    data: String,
    event: Option<String>,
    id: Option<String>,
    retry: Option<u128>,
}

/// `Duration::as_millis`.
///
/// The number of whole milliseconds is not stated: the duration is opaque here.
#[verifier::external_body]
fn duration_millis(duration: &Duration) -> u128 {
    duration.as_millis()
}

/// `s` without line breaks.
pub open spec fn sanitize(s: Seq<char>) -> Seq<char> {
    s.filter(|c: char| c != '\r' && c != '\n')
}

/// `s` without one trailing carriage return.
pub open spec fn strip_cr(s: Seq<char>) -> Seq<char> {
    if s.len() > 0 && s.last() == '\r' { s.drop_last() } else { s }
}

/// The lines of `s` as `str::lines` gives them: split at `\n`, a `\r`
/// before a `\n` dropped, and no empty line after a final `\n`.
pub open spec fn text_lines(s: Seq<char>) -> Seq<Seq<char>> {
    let pieces = split_with(s, '\n');
    let full = pieces.drop_last().map_values(|p: Seq<char>| strip_cr(p));
    if pieces.last().len() == 0 { full } else { full.push(pieces.last()) }
}

/// `data: line` lines.
pub open spec fn data_lines(lines: Seq<Seq<char>>) -> Seq<char>
    decreases lines.len(),
{
    if lines.len() == 0 {
        Seq::empty()
    } else {
        data_lines(lines.drop_last()) + "data: "@ + lines.last() + seq!['\n']
    }
}

pub open spec fn field_line(label: Seq<char>, value: Option<Seq<char>>) -> Seq<char> {
    match value {
        Some(v) => label + sanitize(v) + seq!['\n'],
        None => Seq::empty(),
    }
}

/// The wire text of an event.
pub open spec fn event_text(data: Seq<char>, event: Option<Seq<char>>, id: Option<Seq<char>>, retry: Option<u128>) -> Seq<char> {
    field_line("event: "@, event) + field_line("id: "@, id)
        + (match retry { Some(m) => "retry: "@ + decimal(m as nat) + seq!['\n'], None => Seq::empty() })
        + data_lines(text_lines(data)) + (if data.len() == 0 { "data:\n"@ } else { Seq::empty() }) + seq!['\n']
}

fn push_sanitized(out: &mut Vec<char>, value: &str)
    ensures
        final(out)@ == old(out)@ + sanitize(value@),
{
    let chars = chars_of(value);
    let ghost start = out@;
    let ghost p = |c: char| c != '\r' && c != '\n';
    let mut i: usize = 0;
    assert(chars@.take(0).filter(p) =~= Seq::<char>::empty());
    while i < chars.len()
        invariant
            chars@ == value@,
            p == (|c: char| c != '\r' && c != '\n'),
            i <= chars@.len(),
            out@ == start + chars@.take(i as int).filter(p),
        decreases chars@.len() - i,
    {
        proof {
            assert(chars@.take(i + 1) =~= chars@.take(i as int).push(chars@[i as int]));
            chars@.take(i as int).lemma_filter_push(chars@[i as int], p);
        }
        let c = chars[i];
        if c != '\r' && c != '\n' {
            out.push(c);
        }
        i += 1;
    }
    assert(chars@.take(chars@.len() as int) =~= chars@);
}

fn push_field(out: &mut Vec<char>, label: &str, value: &Option<String>)
    ensures
        final(out)@ == old(out)@ + field_line(label@, match value { Some(v) => Some(v@), None => None }),
{
    match value {
        Some(v) => {
            push_str(out, label);
            push_sanitized(out, v.as_str());
            out.push('\n');
        },
        None => {
            assert(old(out)@ + Seq::<char>::empty() =~= old(out)@);
        },
    }
}

fn push_data(out: &mut Vec<char>, data: &str)
    ensures
        final(out)@ == old(out)@ + data_lines(text_lines(data@)),
{
    let chars = chars_of(data);
    let pieces = split_chars(chars.as_slice(), '\n');
    let ghost sp = split_with(data@, '\n');
    proof {
        crate::text::lemma_split_nonempty(data@, '\n');
    }
    let ghost full = sp.drop_last().map_values(|p: Seq<char>| strip_cr(p));
    let ghost start = out@;
    let n = pieces.len();
    let mut i: usize = 0;
    assert(full.take(0) =~= Seq::<Seq<char>>::empty());
    while i + 1 < n
        invariant
            n == pieces@.len(),
            n == sp.len(),
            n >= 1,
            forall|j: int| 0 <= j < pieces@.len() ==> (#[trigger] pieces@[j])@ == sp[j],
            full == sp.drop_last().map_values(|p: Seq<char>| strip_cr(p)),
            i + 1 <= n,
            out@ == start + data_lines(full.take(i as int)),
        decreases n - i,
    {
        let piece = &pieces[i];
        let mut line: Vec<char> = Vec::new();
        let mut k: usize = 0;
        let end = if piece.len() > 0 && piece[piece.len() - 1] == '\r' { piece.len() - 1 } else { piece.len() };
        while k < end
            invariant
                end <= piece@.len(),
                k <= end,
                line@ == piece@.take(k as int),
            decreases end - k,
        {
            line.push(piece[k]);
            k += 1;
            assert(line@ =~= piece@.take(k as int));
        }
        assert(line@ =~= strip_cr(piece@));
        assert(full.take(i + 1).drop_last() =~= full.take(i as int));
        push_str(out, "data: ");
        push_all(out, line.as_slice());
        out.push('\n');
        i += 1;
    }
    assert(full.take(full.len() as int) =~= full);
    let last = &pieces[n - 1];
    if last.len() > 0 {
        push_str(out, "data: ");
        push_all(out, last.as_slice());
        out.push('\n');
        assert(full.push(sp.last()).drop_last() =~= full);
    }
}

impl SseEvent {
    pub closed spec fn spec_text(&self) -> Seq<char> {
        event_text(
            self.data@,
            match self.event { Some(v) => Some(v@), None => None },
            match self.id { Some(v) => Some(v@), None => None },
            self.retry,
        )
    }

    pub closed spec fn spec_parts(&self) -> (Seq<char>, Option<Seq<char>>, Option<Seq<char>>, Option<u128>) {
        (self.data@, match self.event { Some(v) => Some(v@), None => None },
            match self.id { Some(v) => Some(v@), None => None }, self.retry)
    }

    /// An event carrying `data` and nothing else.
    pub fn data(data: String) -> (r: SseEvent)
        ensures
            r.spec_parts() == (data@, None::<Seq<char>>, None::<Seq<char>>, None::<u128>),
    {
        SseEvent { data, event: None, id: None, retry: None }
    }

    /// The same event named `event`.
    pub fn event(self, event: String) -> (r: SseEvent)
        ensures
            r.spec_parts() == (self.spec_parts().0, Some(event@), self.spec_parts().2, self.spec_parts().3),
    {
        let mut e = self;
        e.event = Some(event);
        e
    }

    /// The same event with `id`.
    pub fn id(self, id: String) -> (r: SseEvent)
        ensures
            r.spec_parts() == (self.spec_parts().0, self.spec_parts().1, Some(id@), self.spec_parts().3),
    {
        let mut e = self;
        e.id = Some(id);
        e
    }

    /// The same event asking clients to wait `retry` before reconnecting.
    pub fn retry(self, retry: Duration) -> (r: SseEvent)
        ensures
            r.spec_parts().0 == self.spec_parts().0,
            r.spec_parts().1 == self.spec_parts().1,
            r.spec_parts().2 == self.spec_parts().2,
            r.spec_parts().3 is Some,
    {
        let millis = duration_millis(&retry);
        self.retry_millis(millis)
    }

    /// The same event asking clients to wait `millis` milliseconds before
    /// reconnecting.
    pub fn retry_millis(self, millis: u128) -> (r: SseEvent)
        ensures
            r.spec_parts() == (self.spec_parts().0, self.spec_parts().1, self.spec_parts().2, Some(millis)),
    {
        let mut e = self;
        e.retry = Some(millis);
        e
    }

    /// Replaces the contents of `encoded` with the event's wire bytes.
    pub fn encode_into(self, encoded: &mut Vec<u8>)
        ensures
            final(encoded)@ == encode_utf8(self.spec_text()),
    {
        let mut out: Vec<char> = Vec::new();
        push_field(&mut out, "event: ", &self.event);
        let ghost f1 = out@;
        assert(f1 =~= field_line("event: "@, match self.event { Some(v) => Some(v@), None => None }));
        push_field(&mut out, "id: ", &self.id);
        let ghost head = out@;
        match self.retry {
            Some(m) => {
                push_str(&mut out, "retry: ");
                let d = decimal_text(m);
                push_all(&mut out, d.as_slice());
                out.push('\n');
            },
            None => {
                assert(out@ =~= head + Seq::<char>::empty());
            },
        }
        push_data(&mut out, self.data.as_str());
        let ghost body = out@;
        if self.data.as_str().is_empty() {
            push_str(&mut out, "data:\n");
        } else {
            assert(out@ =~= body + Seq::<char>::empty());
        }
        out.push('\n');
        assert(out@ == self.spec_text());
        let text = string_of(out.as_slice());
        *encoded = utf8_bytes(text.as_str());
    }

    /// The event's wire bytes.
    pub fn encode(self) -> (r: Vec<u8>)
        ensures
            r@ == encode_utf8(self.spec_text()),
    {
        let mut encoded: Vec<u8> = Vec::new();
        self.encode_into(&mut encoded);
        encoded
    }
}

} // verus!
