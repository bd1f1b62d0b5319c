//! Decoding of the shared push-event stream.
//!
//! The feed arrives as bytes: records separated by a blank line, each
//! record holding at most one `data: <json>` payload line.  Record framing
//! and payload extraction are verified byte-level functions; only the JSON
//! object itself is read through `serde_json`, behind a trusted wrapper
//! whose result is named by [`json_fields_of`].

use vstd::prelude::*;
use vstd::slice::{slice_subrange, slice_to_vec};

use crate::jobs::SessionEvent;
use crate::strutil::str_eq;

verus! {

/// The newline byte.
pub open spec fn nl() -> u8 {
    10
}

/// A blank-line separator sits at `i`: two consecutive newline bytes.
pub open spec fn is_sep_at(s: Seq<u8>, i: int) -> bool {
    0 <= i && i + 1 < s.len() && s[i] == nl() && s[i + 1] == nl()
}

/// Index of the first blank-line separator, if any.
pub open spec fn find_sep(s: Seq<u8>) -> Option<int>
    decreases s.len(),
{
    if s.len() < 2 {
        None
    } else if s[0] == nl() && s[1] == nl() {
        Some(0)
    } else {
        match find_sep(s.drop_first()) {
            Some(i) => Some(i + 1),
            None => None,
        }
    }
}

/// `find_sep` returns the least separator position, and `None` exactly
/// when no separator exists.
pub proof fn lemma_find_sep(s: Seq<u8>)
    ensures
        match find_sep(s) {
            Some(i) => is_sep_at(s, i) && forall|j: int| 0 <= j < i ==> !is_sep_at(s, j),
            None => forall|j: int| !is_sep_at(s, j),
        },
    decreases s.len(),
{
    if s.len() >= 2 && !(s[0] == nl() && s[1] == nl()) {
        lemma_find_sep(s.drop_first());
        let t = s.drop_first();
        assert forall|j: int| is_sep_at(s, j) implies j >= 1 && is_sep_at(t, j - 1) by {}
        assert forall|j: int| 0 <= j && is_sep_at(t, j) implies is_sep_at(s, j + 1) by {}
    }
}

/// The first separator stands at `i` exactly when a separator stands
/// there and none stands before it.
pub proof fn lemma_find_sep_at(s: Seq<u8>, i: int)
    requires
        is_sep_at(s, i),
        forall|j: int| 0 <= j < i ==> !is_sep_at(s, j),
    ensures
        find_sep(s) == Some(i),
    decreases s.len(),
{
    if i > 0 {
        let t = s.drop_first();
        assert(!is_sep_at(s, 0));
        assert(is_sep_at(t, i - 1));
        assert forall|j: int| 0 <= j < i - 1 implies !is_sep_at(t, j) by {
            assert(!is_sep_at(s, j + 1));
        }
        lemma_find_sep_at(t, i - 1);
    }
}

/// Index of the first `b` in `s`, if any.
pub open spec fn find_byte(s: Seq<u8>, b: u8) -> Option<int>
    decreases s.len(),
{
    if s.len() == 0 {
        None
    } else if s[0] == b {
        Some(0)
    } else {
        match find_byte(s.drop_first(), b) {
            Some(i) => Some(i + 1),
            None => None,
        }
    }
}

/// `find_byte` returns the least index holding `b`, and `None` exactly
/// when `b` does not occur.
pub proof fn lemma_find_byte(s: Seq<u8>, b: u8)
    ensures
        match find_byte(s, b) {
            Some(i) => 0 <= i < s.len() && s[i] == b && forall|j: int| 0 <= j < i ==> s[j] != b,
            None => forall|j: int| 0 <= j < s.len() ==> s[j] != b,
        },
    decreases s.len(),
{
    if s.len() > 0 && s[0] != b {
        lemma_find_byte(s.drop_first(), b);
        let t = s.drop_first();
        assert(forall|j: int| 1 <= j < s.len() ==> t[j - 1] == s[j]);
    }
}

/// The first occurrence of `b` stands at `i` exactly when `b` stands
/// there and nowhere before.
pub proof fn lemma_find_byte_at(s: Seq<u8>, b: u8, i: int)
    requires
        0 <= i < s.len(),
        s[i] == b,
        forall|j: int| 0 <= j < i ==> s[j] != b,
    ensures
        find_byte(s, b) == Some(i),
    decreases s.len(),
{
    if i > 0 {
        let t = s.drop_first();
        assert(t[i - 1] == b);
        assert forall|j: int| 0 <= j < i - 1 implies t[j] != b by {
            assert(t[j] == s[j + 1]);
        }
        lemma_find_byte_at(t, b, i - 1);
    }
}

/// The six bytes of the payload marker `data: `.
pub open spec fn data_marker() -> Seq<u8> {
    seq![100u8, 97u8, 116u8, 97u8, 58u8, 32u8]
}

/// Whether a line carries a payload: it starts with `data: `.
pub open spec fn is_data_line(line: Seq<u8>) -> bool {
    line.len() >= 6 && line.take(6) == data_marker()
}

/// Payload of the first `data: ` line of a record, without the marker.
pub open spec fn data_payload_spec(s: Seq<u8>) -> Option<Seq<u8>>
    decreases s.len() via data_payload_spec_dec
{
    match find_byte(s, nl()) {
        Some(i) => {
            let line = s.take(i);
            if is_data_line(line) {
                Some(line.skip(6))
            } else {
                data_payload_spec(s.skip(i + 1))
            }
        },
        None => {
            if is_data_line(s) {
                Some(s.skip(6))
            } else {
                None
            }
        },
    }
}

#[via_fn]
proof fn data_payload_spec_dec(s: Seq<u8>) {
    lemma_find_byte(s, nl());
}

/// Splits `buffer` at the first blank line: the record before it and the
/// remainder after it.
pub fn split_record(buffer: &Vec<u8>) -> (r: Option<(Vec<u8>, Vec<u8>)>)
    ensures
        match find_sep(buffer@) {
            Some(i) => r matches Some(pair) && pair.0@ == buffer@.take(i) && pair.1@
                == buffer@.skip(i + 2),
            None => r is None,
        },
{
    proof {
        lemma_find_sep(buffer@);
    }
    let n = buffer.len();
    if n < 2 {
        return None;
    }
    let mut i: usize = 0;
    while i + 1 < n
        invariant
            n == buffer@.len(),
            0 <= i,
            i + 1 <= n,
            forall|j: int| 0 <= j < i ==> !is_sep_at(buffer@, j),
        decreases n - i,
    {
        if buffer[i] == 10u8 && buffer[i + 1] == 10u8 {
            let mut rec: Vec<u8> = Vec::new();
            let mut a: usize = 0;
            while a < i
                invariant
                    n == buffer@.len(),
                    i + 1 < n,
                    0 <= a <= i,
                    rec@ == buffer@.take(a as int),
                decreases i - a,
            {
                rec.push(buffer[a]);
                proof {
                    assert(rec@ =~= buffer@.take(a + 1));
                }
                a = a + 1;
            }
            let mut rest: Vec<u8> = Vec::new();
            let mut b: usize = i + 2;
            while b < n
                invariant
                    n == buffer@.len(),
                    i + 2 <= b <= n,
                    rest@ == buffer@.subrange(i + 2, b as int),
                decreases n - b,
            {
                rest.push(buffer[b]);
                proof {
                    assert(rest@ =~= buffer@.subrange(i + 2, b + 1));
                }
                b = b + 1;
            }
            proof {
                assert(is_sep_at(buffer@, i as int));
                lemma_find_sep_at(buffer@, i as int);
                assert(rest@ == buffer@.skip(i + 2));
            }
            return Some((rec, rest));
        }
        i = i + 1;
    }
    proof {
        assert(forall|j: int| is_sep_at(buffer@, j) ==> 0 <= j < n - 1);
        match find_sep(buffer@) {
            Some(m) => {
                assert(is_sep_at(buffer@, m));
                assert(false);
            },
            None => {},
        }
    }
    None
}

/// Extracts the payload of the first `data: ` line of a record.
pub fn data_payload(rec: &[u8]) -> (r: Option<Vec<u8>>)
    ensures
        match data_payload_spec(rec@) {
            Some(line) => r matches Some(v) && v@ == line,
            None => r is None,
        },
    decreases rec@.len(),
{
    proof {
        lemma_find_byte(rec@, nl());
    }
    let n = rec.len();
    let mut i: usize = 0;
    while i < n
        invariant
            n == rec@.len(),
            0 <= i <= n,
            forall|j: int| 0 <= j < i ==> rec@[j] != nl(),
        decreases n - i,
    {
        if rec[i] == 10u8 {
            proof {
                lemma_find_byte_at(rec@, nl(), i as int);
            }
            let line = slice_subrange(rec, 0, i);
            proof {
                assert(line@ == rec@.take(i as int));
            }
            if starts_with_data(line) {
                let payload = slice_subrange(line, 6, i);
                proof {
                    assert(payload@ =~= rec@.take(i as int).skip(6));
                }
                return Some(slice_to_vec(payload));
            }
            let tail = slice_subrange(rec, i + 1, n);
            proof {
                assert(tail@ == rec@.skip(i + 1));
            }
            return data_payload(tail);
        }
        i = i + 1;
    }
    proof {
        match find_byte(rec@, nl()) {
            Some(m) => {
                assert(rec@[m] == nl());
                assert(false);
            },
            None => {},
        }
    }
    if starts_with_data(rec) {
        let payload = slice_subrange(rec, 6, n);
        proof {
            assert(payload@ =~= rec@.skip(6));
        }
        Some(slice_to_vec(payload))
    } else {
        None
    }
}

/// The fields of one feed message that the supervisor reads, each absent
/// when the JSON object lacks it or gives it another type.
pub struct RawMsg {
    pub msg_type: Option<String>,
    pub session_id: Option<String>,
    pub status: Option<String>,
    pub runtime_port: Option<u64>,
}

/// What reading the JSON object in `line` yields: `None` when the bytes
/// are not a JSON document.  The result depends on the bytes alone.
pub uninterp spec fn json_fields_of(line: Seq<u8>) -> Option<RawMsg>;

/// Reads one JSON document and picks out the four fields the supervisor
/// uses.
///
/// Relies on `serde_json::from_slice` to parse the document and on
/// `serde_json::Value::get`, `Value::as_str` and `Value::as_u64` to read
/// fields; all are functions of the input bytes alone.
#[verifier::external_body]
fn extract_json_fields(line: &[u8]) -> (r: Option<RawMsg>)
    ensures
        r == json_fields_of(line@),
{
    let v: serde_json::Value = match serde_json::from_slice(line) {
        Ok(v) => v,
        Err(_) => return None,
    };
    Some(RawMsg {
        msg_type: v.get("type").and_then(|x| x.as_str()).map(|s| s.to_string()),
        session_id: v.get("sessionId").and_then(|x| x.as_str()).map(|s| s.to_string()),
        status: v.get("status").and_then(|x| x.as_str()).map(|s| s.to_string()),
        runtime_port: v.get("runtimePort").and_then(|x| x.as_u64()),
    })
}

/// Mathematical image of a [`SessionEvent`].
pub ghost enum EventModel {
    SessionUpdated { session_id: Seq<char>, status: Option<Seq<char>> },
    SessionStatus { session_id: Seq<char>, status: Seq<char> },
    MessagePartUpdated { session_id: Seq<char> },
    Unknown,
}

impl SessionEvent {
    pub open spec fn model(&self) -> EventModel {
        match self {
            SessionEvent::SessionUpdated { session_id, status } => EventModel::SessionUpdated {
                session_id: session_id@,
                status: match status {
                    Some(s) => Some(s@),
                    None => None,
                },
            },
            SessionEvent::SessionStatus { session_id, status } => EventModel::SessionStatus {
                session_id: session_id@,
                status: status@,
            },
            SessionEvent::MessagePartUpdated { session_id } => EventModel::MessagePartUpdated {
                session_id: session_id@,
            },
            SessionEvent::Unknown => EventModel::Unknown,
        }
    }
}

/// The characters of an optional string.
pub open spec fn opt_chars(o: Option<String>) -> Option<Seq<char>> {
    match o {
        Some(s) => Some(s@),
        None => None,
    }
}

/// The event a message's fields describe.  A message that is no JSON
/// document, carries an unknown type, or lacks a field its type needs,
/// means nothing to the job tracker.
pub open spec fn event_of_fields(m: Option<RawMsg>) -> EventModel {
    match m {
        None => EventModel::Unknown,
        Some(f) => {
            if opt_chars(f.msg_type) == Some("session.status"@) && f.session_id is Some
                && f.status is Some {
                EventModel::SessionStatus {
                    session_id: f.session_id->0@,
                    status: f.status->0@,
                }
            } else if opt_chars(f.msg_type) == Some("session.updated"@) && f.session_id is Some {
                EventModel::SessionUpdated {
                    session_id: f.session_id->0@,
                    status: opt_chars(f.status),
                }
            } else if opt_chars(f.msg_type) == Some("message.part.updated"@)
                && f.session_id is Some {
                EventModel::MessagePartUpdated { session_id: f.session_id->0@ }
            } else {
                EventModel::Unknown
            }
        },
    }
}

/// The three event type strings differ pairwise: their lengths differ.
proof fn lemma_event_type_literals_distinct()
    ensures
        "session.status"@ != "session.updated"@,
        "session.status"@ != "message.part.updated"@,
        "session.updated"@ != "message.part.updated"@,
{
    reveal_strlit("session.status");
    reveal_strlit("session.updated");
    reveal_strlit("message.part.updated");
    assert("session.status"@.len() == 14);
    assert("session.updated"@.len() == 15);
    assert("message.part.updated"@.len() == 20);
}

/// Turns extracted message fields into the event they describe.
pub fn classify_fields(m: Option<RawMsg>) -> (r: SessionEvent)
    ensures
        r.model() == event_of_fields(m),
{
    proof {
        lemma_event_type_literals_distinct();
    }
    match m {
        None => SessionEvent::Unknown,
        Some(f) => {
            match (f.msg_type, f.session_id) {
                (Some(t), Some(sid)) => {
                    if str_eq(t.as_str(), "session.status") {
                        match f.status {
                            Some(st) => SessionEvent::SessionStatus {
                                session_id: sid,
                                status: st,
                            },
                            None => SessionEvent::Unknown,
                        }
                    } else if str_eq(t.as_str(), "session.updated") {
                        SessionEvent::SessionUpdated { session_id: sid, status: f.status }
                    } else if str_eq(t.as_str(), "message.part.updated") {
                        SessionEvent::MessagePartUpdated { session_id: sid }
                    } else {
                        SessionEvent::Unknown
                    }
                },
                _ => SessionEvent::Unknown,
            }
        },
    }
}

/// Reads one payload line of the feed as a session event.
pub fn parse_session_event(line: &[u8]) -> (r: SessionEvent)
    ensures
        r.model() == event_of_fields(json_fields_of(line@)),
{
    let fields = extract_json_fields(line);
    classify_fields(fields)
}

/// The port a worker's handshake line advertises: present exactly when
/// the line is a JSON object with type `ready` and a `runtimePort` that
/// fits a port number.
pub open spec fn ready_port_of_fields(m: Option<RawMsg>) -> Option<u16> {
    match m {
        None => None,
        Some(f) => {
            if opt_chars(f.msg_type) == Some("ready"@) && f.runtime_port is Some
                && f.runtime_port->0 <= u16::MAX {
                Some(f.runtime_port->0 as u16)
            } else {
                None
            }
        },
    }
}

/// Reads one line of a worker's standard output as a handshake message
/// and returns the advertised port, if the line is one.
pub fn parse_ready_port(line: &[u8]) -> (r: Option<u16>)
    ensures
        r == ready_port_of_fields(json_fields_of(line@)),
{
    let fields = extract_json_fields(line);
    match fields {
        None => None,
        Some(f) => {
            match (f.msg_type, f.runtime_port) {
                (Some(t), Some(p)) => {
                    if str_eq(t.as_str(), "ready") && p <= 65535 {
                        Some(p as u16)
                    } else {
                        None
                    }
                },
                _ => None,
            }
        },
    }
}

/// The events carried by the complete records in `s`, in order.
pub open spec fn drain_events_spec(s: Seq<u8>) -> Seq<EventModel>
    decreases s.len() via drain_events_spec_dec
{
    match find_sep(s) {
        None => Seq::empty(),
        Some(i) => {
            let rec = s.take(i);
            let rest = s.skip(i + 2);
            let tail = drain_events_spec(rest);
            match data_payload_spec(rec) {
                Some(line) => seq![event_of_fields(json_fields_of(line))] + tail,
                None => tail,
            }
        },
    }
}

#[via_fn]
proof fn drain_events_spec_dec(s: Seq<u8>) {
    lemma_find_sep(s);
}

/// What stays in the buffer after all complete records are consumed.
pub open spec fn drain_rest_spec(s: Seq<u8>) -> Seq<u8>
    decreases s.len() via drain_rest_spec_dec
{
    match find_sep(s) {
        None => s,
        Some(i) => drain_rest_spec(s.skip(i + 2)),
    }
}

#[via_fn]
proof fn drain_rest_spec_dec(s: Seq<u8>) {
    lemma_find_sep(s);
}

/// Consumes every complete record in the buffer and returns the events
/// their payload lines carry; bytes after the last blank line stay in the
/// buffer for the next read.
pub fn drain_events(buffer: &mut Vec<u8>) -> (evs: Vec<SessionEvent>)
    ensures
        evs@.map_values(|e: SessionEvent| e.model()) == drain_events_spec(old(buffer)@),
        final(buffer)@ == drain_rest_spec(old(buffer)@),
{
    let mut evs: Vec<SessionEvent> = Vec::new();
    loop
        invariant
            drain_events_spec(old(buffer)@) =~= evs@.map_values(|e: SessionEvent| e.model())
                + drain_events_spec(buffer@),
            drain_rest_spec(old(buffer)@) == drain_rest_spec(buffer@),
        ensures
            find_sep(buffer@) is None,
            drain_events_spec(old(buffer)@) =~= evs@.map_values(|e: SessionEvent| e.model())
                + drain_events_spec(buffer@),
            drain_rest_spec(old(buffer)@) == drain_rest_spec(buffer@),
        decreases buffer@.len(),
    {
        proof {
            lemma_find_sep(buffer@);
        }
        let ghost pre = buffer@;
        match split_record(&*buffer) {
            Some((rec, rest)) => {
                *buffer = rest;
                match data_payload(rec.as_slice()) {
                    Some(line) => {
                        let ev = parse_session_event(line.as_slice());
                        let ghost before = evs@.map_values(|e: SessionEvent| e.model());
                        evs.push(ev);
                        proof {
                            assert(evs@.map_values(|e: SessionEvent| e.model()) =~= before.push(
                                ev.model(),
                            ));
                        }
                    },
                    None => {},
                }
            },
            None => {
                break;
            },
        }
    }
    proof {
        assert(drain_events_spec(buffer@) =~= Seq::<EventModel>::empty());
        assert(evs@.map_values(|e: SessionEvent| e.model()) + Seq::<EventModel>::empty()
            =~= evs@.map_values(|e: SessionEvent| e.model()));
    }
    evs
}

/// Whether a line starts with the payload marker.
fn starts_with_data(line: &[u8]) -> (r: bool)
    ensures
        r == is_data_line(line@),
{
    if line.len() < 6 {
        proof {
            assert(!is_data_line(line@));
        }
        return false;
    }
    let r = line[0] == 100u8 && line[1] == 97u8 && line[2] == 116u8 && line[3] == 97u8 && line[4]
        == 58u8 && line[5] == 32u8;
    proof {
        if r {
            assert(line@.take(6) =~= data_marker());
        } else {
            assert(line@.take(6) != data_marker()) by {
                if line@.take(6) == data_marker() {
                    assert(line@[0] == 100u8 && line@[1] == 97u8 && line@[2] == 116u8 && line@[3]
                        == 97u8 && line@[4] == 58u8 && line@[5] == 32u8) by {
                        assert(line@.take(6)[0] == line@[0]);
                        assert(line@.take(6)[1] == line@[1]);
                        assert(line@.take(6)[2] == line@[2]);
                        assert(line@.take(6)[3] == line@[3]);
                        assert(line@.take(6)[4] == line@[4]);
                        assert(line@.take(6)[5] == line@[5]);
                    }
                }
            }
        }
    }
    r
}

} // verus!
