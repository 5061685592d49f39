//! The control-channel wire protocol: JSON text frames out (subscribe and
//! push), and the taxonomy of inbound frames with their exact handling —
//! acknowledgments drive the retry queue, configuration frames are handed
//! on, and an `error` frame is fatal exactly when it speaks of something
//! "Invalid".

use crate::json::{JsonNode, find_field, json_tree_of, lookup_field, parse_json_text};
use crate::queue::{PulseQueue, PushMessage};
use crate::strings::{contains_lit, occurs_in, str_eq};
use vstd::prelude::*;

verus! {

/// A hexadecimal digit character (lower case).
pub open spec fn hex_digit(d: int) -> char {
    if d < 10 {
        crate::numfmt::dec_digit(d)
    } else if d == 10 {
        'a'
    } else if d == 11 {
        'b'
    } else if d == 12 {
        'c'
    } else if d == 13 {
        'd'
    } else if d == 14 {
        'e'
    } else {
        'f'
    }
}

/// How one character is written inside a JSON string literal.
pub open spec fn esc_char(c: char) -> Seq<char> {
    if c == '"' {
        seq!['\\', '"']
    } else if c == '\\' {
        seq!['\\', '\\']
    } else if c == '\n' {
        seq!['\\', 'n']
    } else if c == '\r' {
        seq!['\\', 'r']
    } else if c == '\t' {
        seq!['\\', 't']
    } else if (c as int) < 0x20 {
        seq!['\\', 'u', '0', '0', hex_digit(c as int / 16), hex_digit(c as int % 16)]
    } else {
        seq![c]
    }
}

/// A text escaped for a JSON string literal.
pub open spec fn json_escaped(s: Seq<char>) -> Seq<char>
    decreases s.len(),
{
    if s.len() == 0 {
        Seq::empty()
    } else {
        json_escaped(s.drop_last()) + esc_char(s.last())
    }
}

fn hex_digit_char(d: u32) -> (c: char)
    requires
        d < 16,
    ensures
        c == hex_digit(d as int),
{
    match d {
        0 => '0',
        1 => '1',
        2 => '2',
        3 => '3',
        4 => '4',
        5 => '5',
        6 => '6',
        7 => '7',
        8 => '8',
        9 => '9',
        10 => 'a',
        11 => 'b',
        12 => 'c',
        13 => 'd',
        14 => 'e',
        _ => 'f',
    }
}

/// Escape a text for inclusion in a JSON string literal.
pub fn escape_json(s: &str) -> (r: String)
    ensures
        r@ == json_escaped(s@),
{
    let n = s.unicode_len();
    let mut out = String::new();
    let mut i: usize = 0;
    proof {
        assert(s@.take(0) =~= Seq::<char>::empty());
    }
    while i < n
        invariant
            i <= n == s@.len(),
            out@ == json_escaped(s@.take(i as int)),
        decreases n - i,
    {
        proof {
            assert(s@.take(i + 1).drop_last() =~= s@.take(i as int));
            assert(s@.take(i + 1).last() == s@[i as int]);
        }
        let c = s.get_char(i);
        if c == '"' {
            out.push('\\');
            out.push('"');
        } else if c == '\\' {
            out.push('\\');
            out.push('\\');
        } else if c == '\n' {
            out.push('\\');
            out.push('n');
        } else if c == '\r' {
            out.push('\\');
            out.push('r');
        } else if c == '\t' {
            out.push('\\');
            out.push('t');
        } else if (c as u32) < 0x20 {
            out.push('\\');
            out.push('u');
            out.push('0');
            out.push('0');
            out.push(hex_digit_char((c as u32) / 16));
            out.push(hex_digit_char((c as u32) % 16));
        } else {
            out.push(c);
        }
        proof {
            assert(out@ =~= json_escaped(s@.take(i + 1)));
        }
        i = i + 1;
    }
    proof {
        assert(s@.take(n as int) =~= s@);
    }
    out
}

/// The first frame the agent sends: `{"action":"subscribe","token":"…"}`.
pub open spec fn spec_subscribe_frame(token: Seq<char>) -> Seq<char> {
    ("{\"action\":\"subscribe\",\"token\":\"")@ + json_escaped(token) + ("\"}")@
}

/// Build the subscription frame for a token.
pub fn subscribe_frame(token: &str) -> (r: String)
    ensures
        r@ == spec_subscribe_frame(token@),
{
    let mut out = String::from_str("{\"action\":\"subscribe\",\"token\":\"");
    let esc = escape_json(token);
    out.append(esc.as_str());
    out.append("\"}");
    out
}

/// An optional string-valued field, with its leading comma.
pub open spec fn str_field(name: Seq<char>, v: Option<String>) -> Seq<char> {
    match v {
        Option::Some(s) => (",\"")@ + name + ("\":\"")@ + json_escaped(s@) + ("\"")@,
        Option::None => Seq::empty(),
    }
}

/// An optional number-valued field (the value is a decimal rendering and is
/// written bare), with its leading comma.
pub open spec fn num_field(name: Seq<char>, v: Option<String>) -> Seq<char> {
    match v {
        Option::Some(s) => (",\"")@ + name + ("\":")@ + s@,
        Option::None => Seq::empty(),
    }
}

/// The text frame for one pulse: action and token always, then each present
/// field; times as strings, numbers bare.
pub open spec fn spec_push_frame(msg: PushMessage) -> Seq<char> {
    ("{\"action\":\"push\",\"token\":\"")@ + json_escaped(msg.token@) + ("\"")@ + str_field(
        ("pulseId")@,
        msg.pulse_id,
    ) + num_field(("latency")@, msg.latency) + str_field(("startTime")@, msg.start_time)
        + str_field(("endTime")@, msg.end_time) + num_field(("custom1")@, msg.custom1) + num_field(
        ("custom2")@,
        msg.custom2,
    ) + num_field(("custom3")@, msg.custom3) + ("}")@
}

fn append_str_field(out: &mut String, name: &str, v: &Option<String>)
    ensures
        final(out)@ == old(out)@ + str_field(name@, *v),
{
    match v {
        Option::Some(s) => {
            out.append(",\"");
            out.append(name);
            out.append("\":\"");
            let esc = escape_json(s.as_str());
            out.append(esc.as_str());
            out.append("\"");
        },
        Option::None => {
            proof {
                assert(old(out)@ + str_field(name@, *v) =~= old(out)@);
            }
        },
    }
}

fn append_num_field(out: &mut String, name: &str, v: &Option<String>)
    ensures
        final(out)@ == old(out)@ + num_field(name@, *v),
{
    match v {
        Option::Some(s) => {
            out.append(",\"");
            out.append(name);
            out.append("\":");
            out.append(s.as_str());
        },
        Option::None => {
            proof {
                assert(old(out)@ + num_field(name@, *v) =~= old(out)@);
            }
        },
    }
}

/// Serialise one pulse as a text frame.
pub fn push_frame(msg: &PushMessage) -> (r: String)
    ensures
        r@ == spec_push_frame(*msg),
{
    let mut out = String::from_str("{\"action\":\"push\",\"token\":\"");
    let esc = escape_json(msg.token.as_str());
    out.append(esc.as_str());
    out.append("\"");
    append_str_field(&mut out, "pulseId", &msg.pulse_id);
    append_num_field(&mut out, "latency", &msg.latency);
    append_str_field(&mut out, "startTime", &msg.start_time);
    append_str_field(&mut out, "endTime", &msg.end_time);
    append_num_field(&mut out, "custom1", &msg.custom1);
    append_num_field(&mut out, "custom2", &msg.custom2);
    append_num_field(&mut out, "custom3", &msg.custom3);
    out.append("}");
    proof {
        assert(out@ =~= spec_push_frame(*msg));
    }
    out
}

/// An inbound frame, discriminated by its `action` field. The monitor
/// payload of `subscribed` and `config-update` frames is handed to the
/// embedding layer alongside this classification.
pub enum InboundFrame {
    /// `connected`: informational, nothing to do.
    Connected,
    /// `subscribed`: the subscription stands; its monitor set follows.
    Subscribed,
    /// `config-update`: a fresh monitor set follows.
    ConfigUpdate,
    /// `pushed`: the server acknowledged a pulse.
    Pushed { pulse_id: Option<String> },
    /// `error`: the server reports a failure.
    ServerError { message: Option<String> },
    /// `subscribe`: unexpected from a server.
    SubscribeEcho,
    /// Any other action.
    Unknown,
}

/// The string value of a field of an object tree, when there is one.
pub open spec fn field_str(tree: JsonNode, name: Seq<char>) -> Option<String> {
    match tree {
        JsonNode::Obj(fields) => match lookup_field(fields@, name) {
            Option::Some(JsonNode::Str(s)) => Option::Some(s),
            _ => Option::None,
        },
        _ => Option::None,
    }
}

/// How a frame text is classified: no tree or no `action` string is a parse
/// failure; otherwise the action selects the variant, carrying the
/// `pulseId` or `message` string when present.
pub open spec fn spec_classify(t: Option<JsonNode>) -> Option<InboundFrame> {
    match t {
        Option::None => Option::None,
        Option::Some(tree) => match field_str(tree, ("action")@) {
            Option::None => Option::None,
            Option::Some(a) => Option::Some(
                if a@ == ("connected")@ {
                    InboundFrame::Connected
                } else if a@ == ("subscribed")@ {
                    InboundFrame::Subscribed
                } else if a@ == ("config-update")@ {
                    InboundFrame::ConfigUpdate
                } else if a@ == ("pushed")@ {
                    InboundFrame::Pushed { pulse_id: field_str(tree, ("pulseId")@) }
                } else if a@ == ("error")@ {
                    InboundFrame::ServerError { message: field_str(tree, ("message")@) }
                } else if a@ == ("subscribe")@ {
                    InboundFrame::SubscribeEcho
                } else {
                    InboundFrame::Unknown
                },
            ),
        },
    }
}

fn get_field_str(tree: &JsonNode, name: &str) -> (r: Option<String>)
    ensures
        r == field_str(*tree, name@),
{
    match tree {
        JsonNode::Obj(fields) => match find_field(fields, name) {
            Option::Some(child) => match child {
                JsonNode::Str(s) => Option::Some(s.clone()),
                _ => Option::None,
            },
            _ => Option::None,
        },
        _ => Option::None,
    }
}

/// Classify one inbound text frame.
pub fn classify_frame(text: &str) -> (r: Option<InboundFrame>)
    ensures
        r == spec_classify(json_tree_of(text@)),
{
    match parse_json_text(text) {
        Option::None => Option::None,
        Option::Some(tree) => {
            match get_field_str(&tree, "action") {
                Option::None => Option::None,
                Option::Some(a) => Option::Some(
                    if str_eq(a.as_str(), "connected") {
                        InboundFrame::Connected
                    } else if str_eq(a.as_str(), "subscribed") {
                        InboundFrame::Subscribed
                    } else if str_eq(a.as_str(), "config-update") {
                        InboundFrame::ConfigUpdate
                    } else if str_eq(a.as_str(), "pushed") {
                        InboundFrame::Pushed { pulse_id: get_field_str(&tree, "pulseId") }
                    } else if str_eq(a.as_str(), "error") {
                        InboundFrame::ServerError { message: get_field_str(&tree, "message") }
                    } else if str_eq(a.as_str(), "subscribe") {
                        InboundFrame::SubscribeEcho
                    } else {
                        InboundFrame::Unknown
                    },
                ),
            }
        },
    }
}

/// One step of the channel's outbound drain: the produced pulse enters the
/// retry queue (gaining a fresh id and standing live afterwards), and the
/// next due pulse leaves as a text frame. As long as a retry is allowed at
/// all, a frame always comes out, and it is exactly the serialisation of a
/// pulse that was live the moment it was taken.
pub fn pulse_to_frame(queue: &mut PulseQueue, message: PushMessage) -> (r: Option<String>)
    requires
        old(queue).wf(),
    ensures
        final(queue).wf(),
        final(queue).spec_config() == old(queue).spec_config(),
        old(queue).spec_config().max_retries >= 1 ==> r is Some,
        old(queue).spec_config().max_retries >= 1 ==> exists|pid: Seq<char>|
            {
                &&& #[trigger] final(queue).has_id(pid)
                &&& final(queue).entry_for(pid).message.token == message.token
                &&& final(queue).entry_for(pid).message.latency == message.latency
                &&& final(queue).entry_for(pid).message.start_time == message.start_time
                &&& final(queue).entry_for(pid).message.end_time == message.end_time
                &&& final(queue).entry_for(pid).message.custom1 == message.custom1
                &&& final(queue).entry_for(pid).message.custom2 == message.custom2
                &&& final(queue).entry_for(pid).message.custom3 == message.custom3
                &&& final(queue).entry_for(pid).message.pulse_id matches Option::Some(p) && p@
                    == pid
            },
        r matches Option::Some(f) ==> exists|m: PushMessage|
            {
                &&& #[trigger] spec_push_frame(m) == f@
                &&& m.pulse_id matches Option::Some(p) && final(queue).has_id(p@)
            },
{
    let id = queue.enqueue(message);
    let ghost after_enqueue = *queue;
    let sent = queue.next_to_send();
    proof {
        if old(queue).spec_config().max_retries >= 1 {
            // the fresh pulse has made no attempt yet, so it cannot have
            // been dropped for retries, and the queue cannot be empty
            assert(after_enqueue.entry_for(id@).attempts == 0);
            assert(queue.has_id(id@));
            if sent is None {
                assert(queue.size() == 0);
                assert(false);
            }
            assert(queue.entry_for(id@).message == after_enqueue.entry_for(id@).message) by {
                if sent matches Option::Some(m) && (m.pulse_id matches Option::Some(p) && p@
                    != id@) {
                    assert(queue.entry_for(id@) == after_enqueue.entry_for(id@));
                }
            }
        }
    }
    match sent {
        Option::Some(m) => {
            let f = push_frame(&m);
            proof {
                assert(spec_push_frame(m) == f@);
            }
            Option::Some(f)
        },
        Option::None => Option::None,
    }
}

/// What handling one frame did.
pub enum FrameEffect {
    /// Nothing to do.
    Nothing,
    /// Hand the frame's monitor set to the configuration stream.
    PublishMonitors,
    /// A pulse was acknowledged (`true` when it was still queued; an id the
    /// agent never issued, or already settled, is a quiet no-op).
    Acknowledged(bool),
    /// The server rejected the agent: an `error` frame speaking of
    /// something "Invalid" — surfaced as fatal for this connection.
    FatalAuth,
    /// The server sent a `subscribe`, which only agents send: worth a
    /// warning, nothing more.
    WarnUnexpected,
}

/// Handle one classified frame against the retry queue, exactly as the
/// taxonomy prescribes. Only a `pushed` frame touches the queue; a `pushed`
/// with an unknown id changes nothing and raises no error.
pub fn handle_frame(queue: &mut PulseQueue, frame: &InboundFrame) -> (r: FrameEffect)
    requires
        old(queue).wf(),
    ensures
        final(queue).wf(),
        final(queue).spec_config() == old(queue).spec_config(),
        match *frame {
            InboundFrame::Connected => r is Nothing && *final(queue) == *old(queue),
            InboundFrame::Subscribed => r is PublishMonitors && *final(queue) == *old(queue),
            InboundFrame::ConfigUpdate => r is PublishMonitors && *final(queue) == *old(queue),
            InboundFrame::Pushed { pulse_id } => match pulse_id {
                Option::Some(pid) => {
                    &&& r == FrameEffect::Acknowledged(old(queue).has_id(pid@))
                    &&& !final(queue).has_id(pid@)
                    &&& forall|id: Seq<char>|
                        id != pid@ ==> (#[trigger] final(queue).has_id(id) == old(queue).has_id(
                            id,
                        ))
                    &&& forall|id: Seq<char>|
                        id != pid@ && old(queue).has_id(id) ==> #[trigger] final(queue).entry_for(
                            id,
                        ) == old(queue).entry_for(id)
                },
                Option::None => r is Nothing && *final(queue) == *old(queue),
            },
            InboundFrame::ServerError { message } => *final(queue) == *old(queue) && (match message {
                Option::Some(m) => r == (if occurs_in(m@, ("Invalid")@) {
                    FrameEffect::FatalAuth
                } else {
                    FrameEffect::Nothing
                }),
                Option::None => r is Nothing,
            }),
            InboundFrame::SubscribeEcho => r is WarnUnexpected && *final(queue) == *old(queue),
            InboundFrame::Unknown => r is Nothing && *final(queue) == *old(queue),
        },
{
    match frame {
        InboundFrame::Connected => FrameEffect::Nothing,
        InboundFrame::Subscribed => FrameEffect::PublishMonitors,
        InboundFrame::ConfigUpdate => FrameEffect::PublishMonitors,
        InboundFrame::Pushed { pulse_id } => match pulse_id {
            Option::Some(pid) => {
                let found = queue.acknowledge(pid.as_str());
                FrameEffect::Acknowledged(found)
            },
            Option::None => FrameEffect::Nothing,
        },
        InboundFrame::ServerError { message } => match message {
            Option::Some(m) => {
                proof {
                    reveal_strlit("Invalid");
                }
                if contains_lit(m.as_str(), "Invalid") {
                    FrameEffect::FatalAuth
                } else {
                    FrameEffect::Nothing
                }
            },
            Option::None => FrameEffect::Nothing,
        },
        InboundFrame::SubscribeEcho => FrameEffect::WarnUnexpected,
        InboundFrame::Unknown => FrameEffect::Nothing,
    }
}

} // verus!
