//! The connection-manager state machine: reconnect timing, response
//! validation, `Last-Event-ID` propagation and the read loop that turns
//! body lines into dispatched events.
//!
//! The manager itself performs no I/O. The embedding application issues
//! the GET request with the headers `request_headers` computes, hands the
//! status and `Content-Type` to `accept_response`, feeds body lines to
//! `feed_line` (or whole buffered bodies to `next_from_lines`), and
//! reports end-of-stream or read failures through `on_stream_end`.

use vstd::prelude::*;
use vstd::string::StrSliceExecFns;
use crate::event::{Event, EventView, ParseResult, parse_event_line, parse_line_spec, empty_event};
use crate::text::{lower, str_eq_ignore_case, find_char, lemma_first_at_unique, has_char, first_pos};

verus! {

/// Reconnection interval used until the server directs another, in
/// milliseconds.
pub const DEFAULT_RETRY_MS: u64 = 5000;

/// Everything a connection attempt or a body read can surface. Each
/// `next()` pull yields an event or one of these; the manager stays ready
/// to retry afterwards.
#[derive(Debug, PartialEq, Eq)]
pub enum Error {
    /// The response status was outside the success range.
    Http(u16),
    /// The response carried no `Content-Type` header.
    NoContentType,
    /// The response's `Content-Type` was not `text/event-stream`; carries
    /// the offending header value.
    InvalidContentType(String),
    /// The request could not be sent at all; carries the transport's own
    /// description.
    Transport(String),
    /// Reading body bytes failed once connected.
    Io(String),
}

/// Mathematical image of a `Client`.
#[verifier::ext_equal]
pub ghost struct ClientView {
    pub url: Seq<char>,
    pub last_event_id: Option<Seq<char>>,
    pub last_try: Option<u64>,
    pub connected: bool,
    pub retry: u64,
    pub default_headers: Seq<(Seq<char>, Seq<char>)>,
}

pub open spec fn headers_view(hs: Seq<(String, String)>) -> Seq<(Seq<char>, Seq<char>)> {
    hs.map_values(|p: (String, String)| (p.0@, p.1@))
}

/// A client for a Server-Sent Events endpoint.
///
/// Holds everything that survives across connections: the target URL,
/// the sticky last-event-id, the attempt timestamp, the reconnect
/// interval and the caller's default headers. Whether a connection is
/// live is tracked here too; the transport resource itself lives with
/// the embedding application, which keeps it in step with this flag.
pub struct Client {
    url: String,
    last_event_id: Option<String>,
    last_try: Option<u64>,
    connected: bool,
    /// Reconnection time in milliseconds. Note that the reconnection time
    /// can be changed by the event stream, so changing this may not make
    /// a difference.
    pub retry: u64,
    /// Default headers applied to every request. The two protocol
    /// headers (`Accept`, `Last-Event-ID`) take precedence on conflict.
    pub default_headers: Vec<(String, String)>,
}

impl View for Client {
    type V = ClientView;

    closed spec fn view(&self) -> ClientView {
        ClientView {
            url: self.url@,
            last_event_id: match self.last_event_id {
                Some(s) => Some(s@),
                None => None,
            },
            last_try: self.last_try,
            connected: self.connected,
            retry: self.retry,
            default_headers: headers_view(self.default_headers@),
        }
    }
}

/// The headers of the next request: the default headers, then
/// `Accept: text/event-stream`, then `Last-Event-ID` once an id is known.
/// Later entries take precedence, per `header_value`.
pub open spec fn request_headers_spec(c: ClientView) -> Seq<(Seq<char>, Seq<char>)> {
    let hs = c.default_headers + seq![("Accept"@, "text/event-stream"@)];
    match c.last_event_id {
        Some(id) => hs + seq![("Last-Event-ID"@, id)],
        None => hs,
    }
}

/// The value a header list gives for `name`: the last entry wins.
pub open spec fn header_value(hs: Seq<(Seq<char>, Seq<char>)>, name: Seq<char>) -> Option<
    Seq<char>,
>
    decreases hs.len(),
{
    if hs.len() == 0 {
        None
    } else if hs.last().0 == name {
        Some(hs.last().1)
    } else {
        header_value(hs.drop_last(), name)
    }
}

/// The `type` part of a MIME value, lower-cased: everything before the
/// first `'/'`, or the whole value when there is none.
pub open spec fn mime_type(s: Seq<char>) -> Seq<char> {
    if has_char(s, '/') {
        lower(s.subrange(0, first_pos(s, '/')))
    } else {
        lower(s)
    }
}

/// The `subtype` part of a MIME value, lower-cased and with parameters
/// (everything from the first `';'` on) ignored; empty when the value has
/// no `'/'`.
pub open spec fn mime_subtype(s: Seq<char>) -> Seq<char> {
    if has_char(s, '/') {
        let rest = s.subrange(first_pos(s, '/') + 1, s.len() as int);
        if has_char(rest, ';') {
            lower(rest.subrange(0, first_pos(rest, ';')))
        } else {
            lower(rest)
        }
    } else {
        Seq::<char>::empty()
    }
}

/// A `Content-Type` acceptable for an event stream: type `text`, subtype
/// `event-stream`, parameters ignored.
pub open spec fn is_event_stream_mime(s: Seq<char>) -> bool {
    mime_type(s) == "text"@ && mime_subtype(s) == "event-stream"@
}

/// Decides `is_event_stream_mime` for a concrete header value.
fn is_event_stream(ct: &str) -> (r: bool)
    ensures
        r == is_event_stream_mime(ct@),
{
    proof {
        reveal_strlit("text");
        reveal_strlit("event-stream");
        assert(lower("text"@) =~= "text"@);
        assert(lower("event-stream"@) =~= "event-stream"@);
    }
    let n = ct.unicode_len();
    match find_char(ct, '/') {
        None => {
            proof {
                assert(mime_subtype(ct@) =~= Seq::<char>::empty());
            }
            false
        },
        Some(sl) => {
            proof {
                lemma_first_at_unique(ct@, '/', sl as int);
            }
            let ty = ct.substring_char(0, sl);
            let rest = ct.substring_char(sl + 1, n);
            proof {
                assert(ty@ =~= ct@.subrange(0, first_pos(ct@, '/')));
                assert(rest@ =~= ct@.subrange(first_pos(ct@, '/') + 1, ct@.len() as int));
            }
            let sub: &str;
            match find_char(rest, ';') {
                Some(sc) => {
                    proof {
                        lemma_first_at_unique(rest@, ';', sc as int);
                    }
                    sub = rest.substring_char(0, sc);
                    proof {
                        assert(sub@ =~= rest@.subrange(0, first_pos(rest@, ';')));
                    }
                },
                None => {
                    sub = rest;
                },
            }
            str_eq_ignore_case(ty, "text") && str_eq_ignore_case(sub, "event-stream")
        },
    }
}

/// How many milliseconds the manager must still wait, at time `now`,
/// before the next connection attempt.
pub open spec fn wait_spec(c: ClientView, now: u64) -> u64 {
    match c.last_try {
        Some(t) => if now - t < c.retry {
            (c.retry - (now - t)) as u64
        } else {
            0
        },
        None => 0,
    }
}

impl Client {
    /// Constructs a new client for the given URL.
    ///
    /// This performs no network activity: no last-event-id, no recorded
    /// attempt, no connection, and the default reconnect interval.
    pub fn new(url: String) -> (c: Client)
        ensures
            c@ == (ClientView {
                url: url@,
                last_event_id: None,
                last_try: None,
                connected: false,
                retry: DEFAULT_RETRY_MS,
                default_headers: Seq::<(Seq<char>, Seq<char>)>::empty(),
            }),
    {
        let c = Client {
            url,
            last_event_id: None,
            last_try: None,
            connected: false,
            retry: DEFAULT_RETRY_MS,
            default_headers: Vec::new(),
        };
        proof {
            assert(headers_view(Seq::<(String, String)>::empty()) =~= Seq::<(
                Seq<char>,
                Seq<char>,
            )>::empty());
            assert(c@ =~= (ClientView {
                url: c.url@,
                last_event_id: None,
                last_try: None,
                connected: false,
                retry: DEFAULT_RETRY_MS,
                default_headers: Seq::<(Seq<char>, Seq<char>)>::empty(),
            }));
        }
        c
    }

    /// The target URL.
    pub fn url(&self) -> (u: &String)
        ensures
            u@ == self@.url,
    {
        &self.url
    }

    /// Whether the manager believes a connection is live.
    pub fn is_connected(&self) -> (b: bool)
        ensures
            b == self@.connected,
    {
        self.connected
    }

    /// When the last connection attempt was recorded, in the caller's
    /// millisecond clock.
    pub fn last_attempt(&self) -> (t: &Option<u64>)
        ensures
            t == self@.last_try,
    {
        &self.last_try
    }

    /// The id of the most recently dispatched event that carried one.
    pub fn last_event_id(&self) -> (id: &Option<String>)
        ensures
            match id {
                Some(s) => self@.last_event_id == Some(s@),
                None => self@.last_event_id is None,
            },
    {
        &self.last_event_id
    }

    /// The headers for the next connection attempt: the caller's default
    /// headers, `Accept: text/event-stream`, and `Last-Event-ID` once an
    /// id is known; later entries take precedence.
    pub fn request_headers(&self) -> (h: Vec<(String, String)>)
        ensures
            headers_view(h@) == request_headers_spec(self@),
    {
        let mut h: Vec<(String, String)> = Vec::new();
        let mut i: usize = 0;
        while i < self.default_headers.len()
            invariant
                i <= self.default_headers.len(),
                h@.len() == i,
                headers_view(h@) =~= headers_view(self.default_headers@).take(i as int),
            decreases self.default_headers.len() - i,
        {
            let name = self.default_headers[i].0.clone();
            let value = self.default_headers[i].1.clone();
            let ghost old_h = h@;
            h.push((name, value));
            proof {
                let dh = self.default_headers@;
                let hv = headers_view(h@);
                let tv = headers_view(dh).take(i + 1);
                assert(h@[i as int] == (name, value));
                assert(h@.len() == i + 1);
                assert(hv.len() == i + 1);
                assert forall|j: int| 0 <= j < i + 1 implies hv[j] == tv[j] by {
                    assert(hv[j] == (h@[j].0@, h@[j].1@));
                    assert(headers_view(dh)[j] == (dh[j].0@, dh[j].1@));
                    if j < i {
                        assert(headers_view(old_h)[j] == (old_h[j].0@, old_h[j].1@));
                    }
                }
                assert(hv =~= tv);
            }
            i += 1;
        }
        proof {
            assert(headers_view(self.default_headers@).take(
                self.default_headers@.len() as int,
            ) =~= headers_view(self.default_headers@));
        }
        h.push(("Accept".to_owned(), "text/event-stream".to_owned()));
        match &self.last_event_id {
            Some(id) => {
                h.push(("Last-Event-ID".to_owned(), id.clone()));
            },
            None => {},
        }
        proof {
            assert(headers_view(h@) =~= request_headers_spec(self@));
        }
        h
    }

    /// Validates a response to a connection attempt: a status outside the
    /// success range, a missing `Content-Type`, or one that is not
    /// `text/event-stream` each fail with the matching error and leave
    /// the manager disconnected; otherwise the connection is live and the
    /// caller keeps the body as the active line source.
    pub fn accept_response(&mut self, status: u16, content_type: Option<&str>) -> (r: Result<
        (),
        Error,
    >)
        requires
            !old(self)@.connected,
        ensures
            final(self)@.url == old(self)@.url,
            final(self)@.last_event_id == old(self)@.last_event_id,
            final(self)@.last_try == old(self)@.last_try,
            final(self)@.retry == old(self)@.retry,
            final(self)@.default_headers == old(self)@.default_headers,
            final(self)@.connected == (200 <= status <= 299 && content_type is Some
                && is_event_stream_mime(content_type.unwrap()@)),
            !(200 <= status <= 299) ==> r == Err::<(), Error>(Error::Http(status)),
            200 <= status <= 299 && content_type is None ==> r == Err::<(), Error>(
                Error::NoContentType,
            ),
            200 <= status <= 299 && content_type is Some && !is_event_stream_mime(
                content_type.unwrap()@,
            ) ==> (match r {
                Err(Error::InvalidContentType(m)) => m@ == content_type.unwrap()@,
                _ => false,
            }),
            200 <= status <= 299 && content_type is Some && is_event_stream_mime(
                content_type.unwrap()@,
            ) ==> r == Ok::<(), Error>(()),
    {
        if !(status >= 200 && status <= 299) {
            return Err(Error::Http(status));
        }
        match content_type {
            None => Err(Error::NoContentType),
            Some(ct) => {
                if is_event_stream(ct) {
                    self.connected = true;
                    Ok(())
                } else {
                    Err(Error::InvalidContentType(ct.to_owned()))
                }
            },
        }
    }

    /// How many milliseconds must still pass, at time `now`, before the
    /// next connection attempt may start.
    pub fn wait_millis(&self, now: u64) -> (w: u64)
        requires
            self@.last_try is Some ==> self@.last_try.unwrap() <= now,
        ensures
            w == wait_spec(self@, now),
    {
        match self.last_try {
            Some(t) => {
                let elapsed = now - t;
                if elapsed < self.retry {
                    self.retry - elapsed
                } else {
                    0
                }
            },
            None => 0,
        }
    }

    /// Records `now` as the time of the connection attempt about to be
    /// made; done unconditionally before each attempt, so a failure still
    /// pushes the next attempt one interval out.
    pub fn record_attempt(&mut self, now: u64)
        ensures
            final(self)@ == (ClientView { last_try: Some(now), ..old(self)@ }),
    {
        self.last_try = Some(now);
        proof {
            assert(self@ =~= (ClientView { last_try: Some(now), ..old(self)@ }));
        }
    }

    /// End of stream or a read failure: the connection is discarded and a
    /// fresh attempt timestamp recorded, so the next pull reconnects only
    /// after the retry interval.
    pub fn on_stream_end(&mut self, now: u64)
        ensures
            final(self)@ == (ClientView { connected: false, last_try: Some(now), ..old(self)@ }),
    {
        self.connected = false;
        self.last_try = Some(now);
        proof {
            assert(self@ =~= (ClientView {
                connected: false,
                last_try: Some(now),
                ..old(self)@
            }));
        }
    }

    /// Feeds one body line to the parser. A `retry` field updates the
    /// reconnect interval; on dispatch the event's id, if present,
    /// becomes the new last-event-id and `true` is returned, telling the
    /// caller to emit the accumulator and start a fresh one.
    pub fn feed_line(&mut self, line: &str, event: &mut Event) -> (dispatched: bool)
        ensures
            ({
                let (e2, v) = parse_line_spec(line@, old(event)@);
                &&& final(event)@ == e2
                &&& dispatched == (v == ParseResult::Dispatch)
                &&& (match v {
                    ParseResult::Next => final(self)@ == old(self)@,
                    ParseResult::SetRetry(ms) => final(self)@ == (ClientView {
                        retry: ms,
                        ..old(self)@
                    }),
                    ParseResult::Dispatch => final(self)@ == (ClientView {
                        last_event_id: if e2.id is Some {
                            e2.id
                        } else {
                            old(self)@.last_event_id
                        },
                        ..old(self)@
                    }),
                })
            }),
    {
        let r = parse_event_line(line, event);
        match r {
            ParseResult::Next => false,
            ParseResult::SetRetry(ms) => {
                self.retry = ms;
                proof {
                    assert(self@ =~= (ClientView { retry: ms, ..old(self)@ }));
                }
                false
            },
            ParseResult::Dispatch => {
                match &event.id {
                    Some(id) => {
                        self.last_event_id = Some(id.clone());
                    },
                    None => {},
                }
                proof {
                    let (e2, _) = parse_line_spec(line@, old(event)@);
                    assert(self@ =~= (ClientView {
                        last_event_id: if e2.id is Some {
                            e2.id
                        } else {
                            old(self)@.last_event_id
                        },
                        ..old(self)@
                    }));
                }
                true
            },
        }
    }
}

/// The lines of a buffered body, as character sequences.
pub open spec fn lines_view(ls: Seq<String>) -> Seq<Seq<char>> {
    ls.map_values(|l: String| l@)
}

/// One pull over buffered body lines, from position `i` with accumulator
/// `acc` and manager state `c`: the first dispatched event (if the lines
/// suffice), the position just past it, and the manager state after all
/// retry directives and the dispatched id have been applied.
pub open spec fn pull_spec(lines: Seq<Seq<char>>, i: int, acc: EventView, c: ClientView) -> (
    Option<EventView>,
    int,
    ClientView,
)
    decreases lines.len() - i,
{
    if i < 0 || i >= lines.len() {
        (None, i, c)
    } else {
        let (acc2, v) = parse_line_spec(lines[i], acc);
        match v {
            ParseResult::Dispatch => (
                Some(acc2),
                i + 1,
                ClientView {
                    last_event_id: if acc2.id is Some {
                        acc2.id
                    } else {
                        c.last_event_id
                    },
                    ..c
                },
            ),
            ParseResult::SetRetry(ms) => pull_spec(
                lines,
                i + 1,
                acc2,
                ClientView { retry: ms, ..c },
            ),
            ParseResult::Next => pull_spec(lines, i + 1, acc2, c),
        }
    }
}

impl Client {
    /// The connected-state read loop of one pull, over a body already
    /// split into lines: feeds lines from `*pos` on into a fresh
    /// accumulator and returns the first dispatched event, leaving
    /// `*pos` just past its blank line. Returns `None` when the lines
    /// run out first; treating that as connection loss is the caller's
    /// affair (`on_stream_end`).
    pub fn next_from_lines(&mut self, lines: &Vec<String>, pos: &mut usize) -> (r: Option<Event>)
        requires
            *old(pos) <= lines@.len(),
        ensures
            ({
                let (ev, p2, c2) = pull_spec(
                    lines_view(lines@),
                    *old(pos) as int,
                    empty_event(),
                    old(self)@,
                );
                &&& (match (r, ev) {
                    (Some(e), Some(w)) => e@ == w,
                    (None, None) => true,
                    _ => false,
                })
                &&& *final(pos) == p2
                &&& final(self)@ == c2
            }),
    {
        let mut event = Event::new();
        while *pos < lines.len()
            invariant
                *pos <= lines@.len(),
                pull_spec(lines_view(lines@), *pos as int, event@, self@) == pull_spec(
                    lines_view(lines@),
                    *old(pos) as int,
                    empty_event(),
                    old(self)@,
                ),
            decreases lines@.len() - *pos,
        {
            let i = *pos;
            let ghost pre_event = event@;
            let ghost pre_self = self@;
            proof {
                assert(lines_view(lines@)[i as int] == lines@[i as int]@);
            }
            let dispatched = self.feed_line(lines[i].as_str(), &mut event);
            *pos = i + 1;
            if dispatched {
                proof {
                    let lv = lines_view(lines@);
                    let (acc2, v) = parse_line_spec(lv[i as int], pre_event);
                    assert(v == ParseResult::Dispatch);
                    assert(pull_spec(lv, i as int, pre_event, pre_self) == (
                        Some(acc2),
                        i as int + 1,
                        (ClientView {
                            last_event_id: if acc2.id is Some {
                                acc2.id
                            } else {
                                pre_self.last_event_id
                            },
                            ..pre_self
                        }),
                    ));
                    assert(event@ == acc2);
                }
                return Some(event);
            }
        }
        None
    }
}

/// Once an id has been dispatched, every request the manager prepares
/// carries it in a `Last-Event-ID` header, until a newer id replaces it.
pub proof fn lemma_last_event_id_header(c: ClientView, id: Seq<char>)
    requires
        c.last_event_id == Some(id),
    ensures
        header_value(request_headers_spec(c), "Last-Event-ID"@) == Some(id),
{
    let hs = request_headers_spec(c);
    assert(hs.last() == ("Last-Event-ID"@, id));
}

/// Every request the manager prepares announces `text/event-stream` in
/// its `Accept` header, whatever the default headers say.
pub proof fn lemma_accept_header(c: ClientView)
    ensures
        header_value(request_headers_spec(c), "Accept"@) == Some("text/event-stream"@),
{
    let hs = request_headers_spec(c);
    let base = c.default_headers + seq![("Accept"@, "text/event-stream"@)];
    match c.last_event_id {
        Some(id) => {
            reveal_strlit("Accept");
            reveal_strlit("Last-Event-ID");
            assert(hs.last().0 == "Last-Event-ID"@);
            assert("Last-Event-ID"@.len() == 13);
            assert("Accept"@.len() == 6);
            assert(hs.drop_last() =~= base);
            assert(base.last() == ("Accept"@, "text/event-stream"@));
            assert(header_value(base, "Accept"@) == Some("text/event-stream"@));
            assert(header_value(hs, "Accept"@) == header_value(base, "Accept"@));
        },
        None => {
            assert(hs.last() == ("Accept"@, "text/event-stream"@));
        },
    }
}

/// After an attempt recorded at time `t`, the wait the manager
/// prescribes at any later time `now` reaches at least to `t + retry`:
/// no new attempt can start before a full retry interval has passed.
pub proof fn lemma_wait_covers_interval(c: ClientView, now: u64)
    requires
        c.last_try is Some,
        c.last_try.unwrap() <= now,
    ensures
        now + wait_spec(c, now) >= c.last_try.unwrap() + c.retry,
{
}


/// The read loop enumerates exactly the stream's dispatched events: one
/// pull takes the first event that `dispatched_events` gives for the
/// remaining lines, and leaves the rest for the following pulls; when it
/// returns nothing, the remaining lines dispatch nothing.
pub proof fn lemma_pull_yields_dispatched(lines: Seq<Seq<char>>, i: int, acc: EventView, c: ClientView)
    requires
        0 <= i <= lines.len(),
    ensures
        ({
            let (ev, p2, c2) = pull_spec(lines, i, acc, c);
            let rest = crate::event::dispatched_events(lines.subrange(i, lines.len() as int), acc);
            match ev {
                Some(e) => i <= p2 <= lines.len() && rest == seq![e]
                    + crate::event::dispatched_events(
                    lines.subrange(p2, lines.len() as int),
                    empty_event(),
                ),
                None => rest == Seq::<EventView>::empty(),
            }
        }),
    decreases lines.len() - i,
{
    let sub = lines.subrange(i, lines.len() as int);
    if i == lines.len() {
        assert(sub =~= Seq::<Seq<char>>::empty());
    } else {
        assert(sub[0] == lines[i]);
        assert(sub.drop_first() =~= lines.subrange(i + 1, lines.len() as int));
        let (acc2, v) = parse_line_spec(lines[i], acc);
        match v {
            ParseResult::Dispatch => {
            },
            ParseResult::SetRetry(ms) => {
                lemma_pull_yields_dispatched(lines, i + 1, acc2, (ClientView { retry: ms, ..c }));
            },
            ParseResult::Next => {
                lemma_pull_yields_dispatched(lines, i + 1, acc2, c);
            },
        }
    }
}

} // verus!


