//! The line-oriented `text/event-stream` grammar: an accumulating `Event`,
//! the verdict returned for each consumed line, and the parser itself.
//!
//! One line is consumed at a time; all parser state lives in the
//! caller-supplied accumulator, so a stream can be resumed across
//! arbitrarily many connections.

use vstd::prelude::*;
use vstd::string::StrSliceExecFns;
use vstd::string::StringExecFns;
use crate::text::{str_eq, has_char, first_pos, find_char, lemma_first_at_unique, no_terminator};

verus! {

/// Verdict of feeding one line to the parser.
#[derive(Clone, Copy, Debug, PartialEq, Eq, Structural)]
pub enum ParseResult {
    /// Line consumed; keep reading.
    Next,
    /// A blank line was reached: the accumulated event should be emitted
    /// and the accumulator reset by the caller.
    Dispatch,
    /// A `retry` field was seen; its value is a reconnect interval in
    /// milliseconds. Does not touch the accumulator.
    SetRetry(u64),
}

/// One dispatched SSE message, and also the in-progress accumulator.
pub struct Event {
    /// Last explicit `id` field seen for this event, if any.
    pub id: Option<String>,
    /// Last explicit `event` field seen; `"message"` until one is seen.
    pub event_type: String,
    /// All `data` field values seen since the last dispatch, joined by a
    /// single newline, in arrival order.
    pub data: String,
}

/// Mathematical image of an `Event`.
#[verifier::ext_equal]
pub ghost struct EventView {
    pub id: Option<Seq<char>>,
    pub event_type: Seq<char>,
    pub data: Seq<char>,
}

impl View for Event {
    type V = EventView;

    open spec fn view(&self) -> EventView {
        EventView {
            id: match self.id {
                Some(s) => Some(s@),
                None => None,
            },
            event_type: self.event_type@,
            data: self.data@,
        }
    }
}

/// The accumulator as it stands when a connection begins or right after a
/// dispatch: no id, default type `"message"`, empty data.
pub open spec fn empty_event() -> EventView {
    EventView { id: None, event_type: "message"@, data: Seq::<char>::empty() }
}

impl Event {
    /// A fresh accumulator.
    pub fn new() -> (e: Event)
        ensures
            e@ == empty_event(),
    {
        proof {
            reveal_strlit("message");
        }
        Event { id: None, event_type: "message".to_owned(), data: String::new() }
    }
}

/// A line with its terminator removed: one trailing `"\r\n"` or `"\n"`
/// (or a bare trailing `"\r"`) is dropped; anything else is kept.
pub open spec fn strip_terminator(l: Seq<char>) -> Seq<char> {
    let s = if l.len() > 0 && l.last() == '\n' {
        l.drop_last()
    } else {
        l
    };
    if s.len() > 0 && s.last() == '\r' {
        s.drop_last()
    } else {
        s
    }
}

/// The field name of a non-blank, non-comment line: everything before the
/// first `':'`, or the whole line when it has none.
pub open spec fn field_name(s: Seq<char>) -> Seq<char> {
    if has_char(s, ':') {
        s.subrange(0, first_pos(s, ':'))
    } else {
        s
    }
}

/// The field value: everything after the first `':'` with one leading
/// space (if any) removed, or empty when the line has no `':'`.
pub open spec fn field_value(s: Seq<char>) -> Seq<char> {
    if has_char(s, ':') {
        let v = s.subrange(first_pos(s, ':') + 1, s.len() as int);
        if v.len() > 0 && v[0] == ' ' {
            v.drop_first()
        } else {
            v
        }
    } else {
        Seq::<char>::empty()
    }
}

pub open spec fn is_digit(c: char) -> bool {
    '0' <= c && c <= '9'
}

pub open spec fn digit_val(c: char) -> int {
    c as int - '0' as int
}

pub open spec fn all_digits(s: Seq<char>) -> bool {
    forall|i: int| 0 <= i < s.len() ==> is_digit(s[i])
}

/// The number written in decimal by `s` (most significant digit first).
pub open spec fn dec_val(s: Seq<char>) -> int
    decreases s.len(),
{
    if s.len() == 0 {
        0
    } else {
        dec_val(s.drop_last()) * 10 + digit_val(s.last())
    }
}

/// What a `retry` field value means: a non-empty, all-digit string whose
/// value fits in a `u64`; anything else is silently ignored.
pub open spec fn retry_value(s: Seq<char>) -> Option<u64> {
    if s.len() > 0 && all_digits(s) && dec_val(s) <= u64::MAX {
        Some(dec_val(s) as u64)
    } else {
        None
    }
}

/// The accumulator after one line, and the verdict for it, per the SSE
/// grammar: blank line dispatches; `':'`-prefixed lines are comments;
/// otherwise the line is split at the first `':'` into name and value and
/// the `data`, `event`, `id` and `retry` fields are interpreted; unknown
/// names are ignored.
pub open spec fn parse_line_spec(line: Seq<char>, e: EventView) -> (EventView, ParseResult) {
    let s = strip_terminator(line);
    if s.len() == 0 {
        (e, ParseResult::Dispatch)
    } else if s[0] == ':' {
        (e, ParseResult::Next)
    } else {
        let name = field_name(s);
        let value = field_value(s);
        if name == "data"@ {
            let d = if e.data.len() > 0 {
                e.data + seq!['\n'] + value
            } else {
                value
            };
            (EventView { data: d, ..e }, ParseResult::Next)
        } else if name == "event"@ {
            (EventView { event_type: value, ..e }, ParseResult::Next)
        } else if name == "id"@ {
            (EventView { id: Some(value), ..e }, ParseResult::Next)
        } else if name == "retry"@ {
            match retry_value(value) {
                Some(ms) => (e, ParseResult::SetRetry(ms)),
                None => (e, ParseResult::Next),
            }
        } else {
            (e, ParseResult::Next)
        }
    }
}

proof fn lemma_dec_val_nonneg(s: Seq<char>)
    requires
        all_digits(s),
    ensures
        dec_val(s) >= 0,
    decreases s.len(),
{
    if s.len() > 0 {
        assert(all_digits(s.drop_last()));
        lemma_dec_val_nonneg(s.drop_last());
    }
}

/// Extending an all-digit string only grows its value.
proof fn lemma_dec_val_prefix(s: Seq<char>, i: int)
    requires
        all_digits(s),
        0 <= i <= s.len(),
    ensures
        dec_val(s.take(i)) <= dec_val(s),
    decreases s.len() - i,
{
    if i < s.len() {
        lemma_dec_val_prefix(s, i + 1);
        let t = s.take(i + 1);
        assert(t.drop_last() =~= s.take(i));
        assert(all_digits(s.take(i)));
        lemma_dec_val_nonneg(s.take(i));
        assert(dec_val(t) == dec_val(s.take(i)) * 10 + digit_val(s[i]));
    } else {
        assert(s.take(i) =~= s);
    }
}

/// Parses a decimal `u64`; `None` on an empty string, a non-digit, or
/// overflow — exactly when `retry_value` is `None`.
pub fn parse_u64(s: &str) -> (r: Option<u64>)
    ensures
        r == retry_value(s@),
{
    let n = s.unicode_len();
    if n == 0 {
        return None;
    }
    let mut val: u64 = 0;
    let mut i: usize = 0;
    while i < n
        invariant
            n == s@.len(),
            0 < n,
            i <= n,
            all_digits(s@.take(i as int)),
            val == dec_val(s@.take(i as int)),
        decreases n - i,
    {
        let c = s.get_char(i);
        if c < '0' || c > '9' {
            assert(!all_digits(s@));
            return None;
        }
        let d: u64 = (c as u64) - 48;
        proof {
            assert(digit_val(s@[i as int]) == d);
        }
        let next = match val.checked_mul(10) {
            Some(v10) => v10.checked_add(d),
            None => None,
        };
        match next {
            Some(v) => {
                val = v;
                proof {
                    assert(s@.take(i + 1).drop_last() =~= s@.take(i as int));
                    assert(s@.take(i + 1).last() == s@[i as int]);
                }
                i += 1;
            },
            None => {
                // the digits seen so far already exceed u64::MAX
                proof {
                    let t = s@.take(i + 1);
                    assert(t.drop_last() =~= s@.take(i as int));
                    assert(t.last() == s@[i as int]);
                    assert(all_digits(t));
                    assert(dec_val(t) == val * 10 + d);
                    if all_digits(s@) {
                        lemma_dec_val_prefix(s@, i + 1);
                        assert(dec_val(s@) > u64::MAX);
                    }
                }
                return None;
            },
        }
    }
    proof {
        assert(s@.take(n as int) =~= s@);
    }
    Some(val)
}

/// Consumes one line of an event stream, with or without its terminating
/// newline, updating the accumulator per the SSE grammar and returning
/// the verdict. On `Dispatch` the accumulator is left as it stands: the
/// caller emits it and starts a fresh one.
pub fn parse_event_line(line: &str, event: &mut Event) -> (r: ParseResult)
    ensures
        ({
            let (e2, v) = parse_line_spec(line@, old(event)@);
            final(event)@ == e2 && r == v
        }),
{
    let n0 = line.unicode_len();
    let mut n = n0;
    if n > 0 && line.get_char(n - 1) == '\n' {
        n -= 1;
    }
    if n > 0 && line.get_char(n - 1) == '\r' {
        n -= 1;
    }
    let content = line.substring_char(0, n);
    proof {
        assert(content@ =~= strip_terminator(line@));
    }
    if n == 0 {
        return ParseResult::Dispatch;
    }
    if content.get_char(0) == ':' {
        return ParseResult::Next;
    }
    let ghost s = content@;
    let colon = find_char(content, ':');
    let name: &str;
    let value: &str;
    match colon {
        Some(ci) => {
            proof {
                lemma_first_at_unique(s, ':', ci as int);
            }
            name = content.substring_char(0, ci);
            let vstart = ci + 1;
            if vstart < n && content.get_char(vstart) == ' ' {
                value = content.substring_char(vstart + 1, n);
            } else {
                value = content.substring_char(vstart, n);
            }
            proof {
                assert(name@ =~= field_name(s));
                let v = s.subrange(ci + 1, s.len() as int);
                if v.len() > 0 && v[0] == ' ' {
                    assert(value@ =~= v.drop_first());
                } else {
                    assert(value@ =~= v);
                }
                assert(value@ =~= field_value(s));
            }
        },
        None => {
            name = content;
            value = "";
            proof {
                reveal_strlit("");
                assert(value@ =~= field_value(s));
            }
        },
    }
    if str_eq(name, "data") {
        if event.data.as_str().unicode_len() > 0 {
            event.data.append("\n");
        }
        event.data.append(value);
        proof {
            reveal_strlit("\n");
            assert("\n"@ =~= seq!['\n']);
            let (e2, _) = parse_line_spec(line@, old(event)@);
            assert(event@ =~= e2);
        }
        ParseResult::Next
    } else if str_eq(name, "event") {
        event.event_type = value.to_owned();
        ParseResult::Next
    } else if str_eq(name, "id") {
        event.id = Some(value.to_owned());
        ParseResult::Next
    } else if str_eq(name, "retry") {
        match parse_u64(value) {
            Some(ms) => ParseResult::SetRetry(ms),
            None => ParseResult::Next,
        }
    } else {
        ParseResult::Next
    }
}

/// The sequence of events a whole stream of lines dispatches, starting
/// from accumulator `acc`; after each dispatch the accumulator is reset.
pub open spec fn dispatched_events(lines: Seq<Seq<char>>, acc: EventView) -> Seq<EventView>
    decreases lines.len(),
{
    if lines.len() == 0 {
        Seq::<EventView>::empty()
    } else {
        let (acc2, v) = parse_line_spec(lines[0], acc);
        if v == ParseResult::Dispatch {
            seq![acc2] + dispatched_events(lines.drop_first(), empty_event())
        } else {
            dispatched_events(lines.drop_first(), acc2)
        }
    }
}

/// The same lines, each with a `"\n"` terminator appended.
pub open spec fn with_nl(lines: Seq<Seq<char>>) -> Seq<Seq<char>> {
    lines.map_values(|l: Seq<char>| l + seq!['\n'])
}

/// The same lines, each with a `"\r\n"` terminator appended.
pub open spec fn with_crlf(lines: Seq<Seq<char>>) -> Seq<Seq<char>> {
    lines.map_values(|l: Seq<char>| l + seq!['\r', '\n'])
}

/// A line means the same with a `"\n"` terminator, a `"\r\n"` terminator,
/// or none at all.
pub proof fn lemma_terminator_immaterial(l: Seq<char>, e: EventView)
    requires
        no_terminator(l),
    ensures
        parse_line_spec(l + seq!['\n'], e) == parse_line_spec(l, e),
        parse_line_spec(l + seq!['\r', '\n'], e) == parse_line_spec(l, e),
{
    assert(strip_terminator(l) =~= l);
    let ln = l + seq!['\n'];
    assert(ln.last() == '\n');
    assert(ln.drop_last() =~= l);
    assert(strip_terminator(ln) =~= l);
    let lrn = l + seq!['\r', '\n'];
    assert(lrn.last() == '\n');
    assert(lrn.drop_last() =~= l + seq!['\r']);
    assert((l + seq!['\r']).last() == '\r');
    assert((l + seq!['\r']).drop_last() =~= l);
    assert(strip_terminator(lrn) =~= l);
}

/// A well-formed stream dispatches the same events whether its lines end
/// in `"\n"` or `"\r\n"` (or carry no terminator at all).
pub proof fn lemma_line_endings_immaterial(lines: Seq<Seq<char>>, acc: EventView)
    requires
        forall|i: int| 0 <= i < lines.len() ==> no_terminator(#[trigger] lines[i]),
    ensures
        dispatched_events(with_nl(lines), acc) == dispatched_events(lines, acc),
        dispatched_events(with_crlf(lines), acc) == dispatched_events(lines, acc),
    decreases lines.len(),
{
    let nl = with_nl(lines);
    let crlf = with_crlf(lines);
    if lines.len() == 0 {
        assert(nl =~= Seq::<Seq<char>>::empty());
        assert(crlf =~= Seq::<Seq<char>>::empty());
    } else {
        lemma_terminator_immaterial(lines[0], acc);
        assert(nl[0] == lines[0] + seq!['\n']);
        assert(crlf[0] == lines[0] + seq!['\r', '\n']);
        assert(nl.drop_first() =~= with_nl(lines.drop_first()));
        assert(crlf.drop_first() =~= with_crlf(lines.drop_first()));
        let (acc2, v) = parse_line_spec(lines[0], acc);
        lemma_line_endings_immaterial(lines.drop_first(), acc2);
        if v == ParseResult::Dispatch {
            lemma_line_endings_immaterial(lines.drop_first(), empty_event());
        }
    }
}


/// A comment line (first character `':'` after stripping the terminator)
/// yields `Next` and leaves the accumulator exactly as it was.
pub proof fn lemma_comment_line_inert(line: Seq<char>, e: EventView)
    requires
        strip_terminator(line).len() > 0,
        strip_terminator(line)[0] == ':',
    ensures
        parse_line_spec(line, e) == (e, ParseResult::Next),
{
}

/// A line whose verdict is `SetRetry` neither dispatches nor changes the
/// accumulator in any way.
pub proof fn lemma_retry_line_inert(line: Seq<char>, e: EventView, ms: u64)
    requires
        parse_line_spec(line, e).1 == ParseResult::SetRetry(ms),
    ensures
        parse_line_spec(line, e).0 == e,
{
}

/// A blank line dispatches unconditionally, whatever the accumulator
/// holds — even one with no fields at all — and leaves it for the caller
/// to emit and reset.
pub proof fn lemma_blank_line_dispatches(line: Seq<char>, e: EventView)
    requires
        strip_terminator(line).len() == 0,
    ensures
        parse_line_spec(line, e) == (e, ParseResult::Dispatch),
{
}

} // verus!


