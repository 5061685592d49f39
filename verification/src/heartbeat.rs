//! The heartbeat dispatcher's decisions: which delivery path a pulse takes
//! (custom-HTTP, the server channel, or the server's HTTP endpoint), the
//! exact URL and headers after placeholder expansion, and what follows a
//! channel send that could not be delivered.

use crate::config::Monitor;
use crate::metrics::{CheckResult, braced, extra_pairs, is_minecraft, or_empty,
    resolve_custom_placeholders};
use crate::queue::PushMessage;
use crate::template::{apply_pairs, expand_pairs, pairs_view};
use vstd::prelude::*;

verus! {

/// The HTTP methods a heartbeat block may declare.
#[derive(PartialEq, Eq, Structural, Clone, Copy, Debug)]
pub enum HeartbeatMethod {
    Get,
    Post,
    Head,
}

/// Where and how one pulse is delivered.
pub enum DeliveryPlan {
    /// The monitor's own heartbeat URL, templated, with templated headers.
    CustomHttp { method: HeartbeatMethod, url: String, headers: Vec<(String, String)>, timeout: u64 },
    /// A non-blocking send of this message on the live server channel.
    Channel { message: PushMessage },
    /// A GET against the server's push endpoint.
    ServerHttp { url: String },
}

/// Why no plan could be made.
#[derive(PartialEq, Eq, Structural, Clone, Copy, Debug)]
pub enum DeliveryError {
    /// The heartbeat block names a method other than GET, POST or HEAD.
    UnsupportedMethod,
    /// No heartbeat block, and no token with a live channel or server URL.
    NoDeliveryPath,
}

/// The outcome the channel reported for a non-blocking send.
#[derive(PartialEq, Eq, Structural, Clone, Copy, Debug)]
pub enum ChannelSendOutcome {
    Delivered,
    Full,
    Closed,
}

/// What to do after a channel send.
pub enum ChannelFollowUp {
    /// The message is on its way.
    Done,
    /// The channel was full: the pulse is dropped, the probe goes on.
    DroppedOk,
    /// The channel is gone: fall back to the server's HTTP endpoint.
    FallbackHttp { url: String },
    /// The channel is gone and there is no server URL either.
    NoPathLeft,
}

/// The placeholders every expansion defines, substituted first and in this
/// order.
pub open spec fn fixed_pairs(
    latency: Seq<char>,
    start_iso: Seq<char>,
    end_iso: Seq<char>,
    start_unix: Seq<char>,
    end_unix: Seq<char>,
) -> Seq<(Seq<char>, Seq<char>)> {
    seq![
        (("{latency}")@, latency),
        (("{startTimeISO}")@, start_iso),
        (("{endTimeISO}")@, end_iso),
        (("{startTimeUnix}")@, start_unix),
        (("{endTimeUnix}")@, end_unix),
    ]
}

/// The custom substitution pairs of a monitor and result, after the fixed
/// ones: the three custom slots, `{playerCount}` for Minecraft monitors,
/// and one pair per further metric.
pub open spec fn custom_pairs(m: Monitor, r: CheckResult) -> Seq<(Seq<char>, Seq<char>)> {
    let base = seq![
        (("{custom1}")@, or_empty(r.spec_get(("custom1")@))),
        (("{custom2}")@, or_empty(r.spec_get(("custom2")@))),
        (("{custom3}")@, or_empty(r.spec_get(("custom3")@))),
    ];
    let mc = if is_minecraft(m) {
        seq![
            (("{playerCount}")@, match r.spec_get(("playerCount")@) {
                    Option::Some(v) => v,
                    Option::None => or_empty(r.spec_get(("custom1")@)),
                }),
        ]
    } else {
        Seq::empty()
    };
    base + mc + extra_pairs(r.metrics@)
}

/// Every substitution a heartbeat template sees, in application order.
pub open spec fn all_pairs(
    m: Monitor,
    r: CheckResult,
    latency: Seq<char>,
    start_iso: Seq<char>,
    end_iso: Seq<char>,
    start_unix: Seq<char>,
    end_unix: Seq<char>,
) -> Seq<(Seq<char>, Seq<char>)> {
    fixed_pairs(latency, start_iso, end_iso, start_unix, end_unix) + custom_pairs(m, r)
}

/// Parse a heartbeat method, case-insensitively.
pub fn parse_method(s: &str) -> (r: Result<HeartbeatMethod, DeliveryError>)
    ensures
        r == (if crate::strings::upper_seq(s@) == ("GET")@ {
            Result::<HeartbeatMethod, DeliveryError>::Ok(HeartbeatMethod::Get)
        } else if crate::strings::upper_seq(s@) == ("POST")@ {
            Result::<HeartbeatMethod, DeliveryError>::Ok(HeartbeatMethod::Post)
        } else if crate::strings::upper_seq(s@) == ("HEAD")@ {
            Result::<HeartbeatMethod, DeliveryError>::Ok(HeartbeatMethod::Head)
        } else {
            Result::<HeartbeatMethod, DeliveryError>::Err(DeliveryError::UnsupportedMethod)
        }),
{
    let up = crate::strings::ascii_upper(s);
    if crate::strings::str_eq(up.as_str(), "GET") {
        Result::Ok(HeartbeatMethod::Get)
    } else if crate::strings::str_eq(up.as_str(), "POST") {
        Result::Ok(HeartbeatMethod::Post)
    } else if crate::strings::str_eq(up.as_str(), "HEAD") {
        Result::Ok(HeartbeatMethod::Head)
    } else {
        Result::Err(DeliveryError::UnsupportedMethod)
    }
}

/// The server's push endpoint for one pulse:
/// `{base}/v1/push/{token}?latency=…&startTime=…&endTime=…&custom1=…&custom2=…&custom3=…`.
pub open spec fn spec_push_url(
    base: Seq<char>,
    token: Seq<char>,
    latency: Seq<char>,
    start_iso: Seq<char>,
    end_iso: Seq<char>,
    c1: Seq<char>,
    c2: Seq<char>,
    c3: Seq<char>,
) -> Seq<char> {
    base + ("/v1/push/")@ + token + ("?latency=")@ + latency + ("&startTime=")@ + start_iso + (
    "&endTime=")@ + end_iso + ("&custom1=")@ + c1 + ("&custom2=")@ + c2 + ("&custom3=")@ + c3
}

/// Build the server push URL for a monitor's token and one result.
pub fn build_push_url(
    base: &str,
    token: &str,
    latency: &str,
    start_iso: &str,
    end_iso: &str,
    result: &CheckResult,
) -> (r: String)
    ensures
        r@ == spec_push_url(
            base@,
            token@,
            latency@,
            start_iso@,
            end_iso@,
            or_empty(result.spec_get(("custom1")@)),
            or_empty(result.spec_get(("custom2")@)),
            or_empty(result.spec_get(("custom3")@)),
        ),
{
    let mut u = String::from_str(base);
    u.append("/v1/push/");
    u.append(token);
    u.append("?latency=");
    u.append(latency);
    u.append("&startTime=");
    u.append(start_iso);
    u.append("&endTime=");
    u.append(end_iso);
    u.append("&custom1=");
    let c1 = get_or_empty_str(result, "custom1");
    u.append(c1.as_str());
    u.append("&custom2=");
    let c2 = get_or_empty_str(result, "custom2");
    u.append(c2.as_str());
    u.append("&custom3=");
    let c3 = get_or_empty_str(result, "custom3");
    u.append(c3.as_str());
    u
}

fn get_or_empty_str(result: &CheckResult, name: &str) -> (r: String)
    ensures
        r@ == or_empty(result.spec_get(name@)),
{
    match result.get(name) {
        Option::Some(v) => v.clone(),
        Option::None => String::new(),
    }
}

/// The message pushed over the channel for one result.
pub open spec fn spec_push_message(
    token: Seq<char>,
    latency: Seq<char>,
    start_iso: Seq<char>,
    end_iso: Seq<char>,
    r: CheckResult,
    msg: PushMessage,
) -> bool {
    &&& msg.token@ == token
    &&& msg.pulse_id is None
    &&& msg.latency matches Option::Some(l) && l@ == latency
    &&& msg.start_time matches Option::Some(s) && s@ == start_iso
    &&& msg.end_time matches Option::Some(e) && e@ == end_iso
    &&& opt_view(msg.custom1) == r.spec_get(("custom1")@)
    &&& opt_view(msg.custom2) == r.spec_get(("custom2")@)
    &&& opt_view(msg.custom3) == r.spec_get(("custom3")@)
}

pub open spec fn opt_view(v: Option<String>) -> Option<Seq<char>> {
    match v {
        Option::Some(s) => Option::Some(s@),
        Option::None => Option::None,
    }
}

/// Build the channel message for one result.
pub fn build_push_message(
    token: &str,
    latency: &str,
    start_iso: &str,
    end_iso: &str,
    result: &CheckResult,
) -> (msg: PushMessage)
    ensures
        spec_push_message(token@, latency@, start_iso@, end_iso@, *result, msg),
{
    PushMessage {
        token: String::from_str(token),
        pulse_id: Option::None,
        latency: Option::Some(String::from_str(latency)),
        start_time: Option::Some(String::from_str(start_iso)),
        end_time: Option::Some(String::from_str(end_iso)),
        custom1: clone_opt(result.get("custom1")),
        custom2: clone_opt(result.get("custom2")),
        custom3: clone_opt(result.get("custom3")),
    }
}

fn clone_opt(v: Option<&String>) -> (r: Option<String>)
    ensures
        match v {
            Option::Some(s) => r matches Option::Some(c) && c == *s,
            Option::None => r is None,
        },
{
    match v {
        Option::Some(s) => Option::Some(s.clone()),
        Option::None => Option::None,
    }
}

/// Decide the delivery path for one pulse and prepare everything it needs.
/// The monitor's own heartbeat block wins; else a token with a live channel
/// sends over the channel; else a token with a server URL uses the server's
/// HTTP endpoint; else there is no delivery path, which is an error.
pub fn plan_delivery(
    monitor: &Monitor,
    server_url: Option<&String>,
    channel_live: bool,
    latency: &str,
    start_iso: &str,
    end_iso: &str,
    start_unix: &str,
    end_unix: &str,
    result: &CheckResult,
) -> (r: Result<DeliveryPlan, DeliveryError>)
    ensures
        match r {
            Result::Ok(plan) => match plan {
                DeliveryPlan::CustomHttp { method, url, headers, timeout } => {
                    &&& monitor.heartbeat matches Option::Some(hb) && {
                        let pairs = all_pairs(
                            *monitor,
                            *result,
                            latency@,
                            start_iso@,
                            end_iso@,
                            start_unix@,
                            end_unix@,
                        );
                        &&& crate::strings::upper_seq(hb.method@) == ("GET")@ && method
                            == HeartbeatMethod::Get || crate::strings::upper_seq(hb.method@) == (
                        "POST")@ && method == HeartbeatMethod::Post || crate::strings::upper_seq(
                            hb.method@,
                        ) == ("HEAD")@ && method == HeartbeatMethod::Head
                        &&& url@ == expand_pairs(hb.url@, pairs)
                        &&& timeout == hb.timeout.unwrap_or(10)
                        &&& headers@.len() == (match hb.headers {
                            Option::Some(hs) => hs@.len(),
                            Option::None => 0,
                        })
                        &&& (hb.headers matches Option::Some(hs) ==> forall|j: int|
                            0 <= j < hs@.len() ==> (#[trigger] headers@[j]).0 == hs@[j].0
                                && headers@[j].1@ == expand_pairs(hs@[j].1@, pairs))
                    }
                },
                DeliveryPlan::Channel { message } => {
                    &&& monitor.heartbeat is None
                    &&& channel_live
                    &&& monitor.token matches Option::Some(t) && spec_push_message(
                        t@,
                        latency@,
                        start_iso@,
                        end_iso@,
                        *result,
                        message,
                    )
                },
                DeliveryPlan::ServerHttp { url } => {
                    &&& monitor.heartbeat is None
                    &&& !channel_live
                    &&& monitor.token matches Option::Some(t) && server_url matches Option::Some(
                        b,
                    ) && url@ == spec_push_url(
                        b@,
                        t@,
                        latency@,
                        start_iso@,
                        end_iso@,
                        or_empty(result.spec_get(("custom1")@)),
                        or_empty(result.spec_get(("custom2")@)),
                        or_empty(result.spec_get(("custom3")@)),
                    )
                },
            },
            Result::Err(e) => match e {
                DeliveryError::UnsupportedMethod => monitor.heartbeat matches Option::Some(hb)
                    && crate::strings::upper_seq(hb.method@) != ("GET")@
                    && crate::strings::upper_seq(hb.method@) != ("POST")@
                    && crate::strings::upper_seq(hb.method@) != ("HEAD")@,
                DeliveryError::NoDeliveryPath => monitor.heartbeat is None && (monitor.token
                    is None || (!channel_live && server_url is None)),
            },
        },
{
    match &monitor.heartbeat {
        Option::Some(hb) => {
            let method = match parse_method(hb.method.as_str()) {
                Result::Ok(m) => m,
                Result::Err(e) => {
                    return Result::Err(e);
                },
            };
            let subs = resolve_custom_placeholders(monitor, result);
            let mut pairs: Vec<(String, String)> = Vec::new();
            pairs.push((String::from_str("{latency}"), String::from_str(latency)));
            pairs.push((String::from_str("{startTimeISO}"), String::from_str(start_iso)));
            pairs.push((String::from_str("{endTimeISO}"), String::from_str(end_iso)));
            pairs.push((String::from_str("{startTimeUnix}"), String::from_str(start_unix)));
            pairs.push((String::from_str("{endTimeUnix}"), String::from_str(end_unix)));
            let ghost fixed_len: int = 5;
            let mut k: usize = 0;
            let ghost pairs5 = pairs@;
            while k < subs.len()
                invariant
                    k <= subs@.len(),
                    pairs@.len() == pairs5.len() + k,
                    pairs@.take(pairs5.len() as int) == pairs5,
                    forall|j: int|
                        0 <= j < k ==> pairs@[pairs5.len() + j] == subs@[j],
                decreases subs@.len() - k,
            {
                let ghost prev = pairs@;
                pairs.push((subs[k].0.clone(), subs[k].1.clone()));
                proof {
                    assert(pairs@.take(pairs5.len() as int) =~= prev.take(pairs5.len() as int));
                }
                k = k + 1;
            }
            let ghost spec_all = all_pairs(
                *monitor,
                *result,
                latency@,
                start_iso@,
                end_iso@,
                start_unix@,
                end_unix@,
            );
            proof {
                assert(pairs_view(subs@) =~= custom_pairs(*monitor, *result));
                assert forall|q: int|
                    0 <= q < pairs_view(pairs@).len() implies pairs_view(pairs@)[q]
                    == spec_all[q] by {
                    if q < 5 {
                        assert(pairs@[q] == pairs5[q]) by {
                            assert(pairs@.take(pairs5.len() as int)[q] == pairs@[q]);
                        }
                    } else {
                        assert(pairs@[q] == subs@[q - 5]);
                        assert(pairs_view(subs@)[q - 5] == custom_pairs(*monitor, *result)[q - 5]);
                    }
                }
                assert(pairs_view(pairs@) =~= spec_all);
            }
            let url = apply_pairs(hb.url.as_str(), &pairs);
            let mut headers: Vec<(String, String)> = Vec::new();
            match &hb.headers {
                Option::Some(hs) => {
                    let mut j: usize = 0;
                    while j < hs.len()
                        invariant
                            j <= hs@.len(),
                            headers@.len() == j,
                            pairs_view(pairs@) == spec_all,
                            forall|q: int|
                                0 <= q < j ==> (#[trigger] headers@[q]).0 == hs@[q].0
                                    && headers@[q].1@ == expand_pairs(hs@[q].1@, spec_all),
                        decreases hs@.len() - j,
                    {
                        let v = apply_pairs(hs[j].1.as_str(), &pairs);
                        headers.push((hs[j].0.clone(), v));
                        j = j + 1;
                    }
                },
                Option::None => {},
            }
            let timeout = match hb.timeout {
                Option::Some(t) => t,
                Option::None => 10,
            };
            Result::Ok(DeliveryPlan::CustomHttp { method, url, headers, timeout })
        },
        Option::None => {
            match &monitor.token {
                Option::Some(t) => {
                    if channel_live {
                        let message = build_push_message(
                            t.as_str(),
                            latency,
                            start_iso,
                            end_iso,
                            result,
                        );
                        Result::Ok(DeliveryPlan::Channel { message })
                    } else {
                        match server_url {
                            Option::Some(base) => {
                                let url = build_push_url(
                                    base.as_str(),
                                    t.as_str(),
                                    latency,
                                    start_iso,
                                    end_iso,
                                    result,
                                );
                                Result::Ok(DeliveryPlan::ServerHttp { url })
                            },
                            Option::None => Result::Err(DeliveryError::NoDeliveryPath),
                        }
                    }
                },
                Option::None => Result::Err(DeliveryError::NoDeliveryPath),
            }
        },
    }
}

/// One retry decision of the server-HTTP delivery: after a failed attempt,
/// up to `max_retries` additional attempts follow the first (separated by
/// the retry delay); beyond that the failure is final.
pub fn server_http_retry_step(attempts_made: u32, max_retries: u32) -> (again: bool)
    ensures
        again == (attempts_made <= max_retries),
{
    attempts_made <= max_retries
}

/// What follows a channel send: a full channel drops the pulse and reports
/// success (a transient burst must not stall probes); a closed channel is a
/// lasting outage, so the pulse falls back to the server's HTTP endpoint
/// when one is configured.
pub fn after_channel_send(
    outcome: ChannelSendOutcome,
    server_url: Option<&String>,
    token: &str,
    latency: &str,
    start_iso: &str,
    end_iso: &str,
    result: &CheckResult,
) -> (r: ChannelFollowUp)
    ensures
        match r {
            ChannelFollowUp::Done => outcome == ChannelSendOutcome::Delivered,
            ChannelFollowUp::DroppedOk => outcome == ChannelSendOutcome::Full,
            ChannelFollowUp::FallbackHttp { url } => outcome == ChannelSendOutcome::Closed && (
            server_url matches Option::Some(b) && url@ == spec_push_url(
                b@,
                token@,
                latency@,
                start_iso@,
                end_iso@,
                or_empty(result.spec_get(("custom1")@)),
                or_empty(result.spec_get(("custom2")@)),
                or_empty(result.spec_get(("custom3")@)),
            )),
            ChannelFollowUp::NoPathLeft => outcome == ChannelSendOutcome::Closed && server_url
                is None,
        },
{
    match outcome {
        ChannelSendOutcome::Delivered => ChannelFollowUp::Done,
        ChannelSendOutcome::Full => ChannelFollowUp::DroppedOk,
        ChannelSendOutcome::Closed => match server_url {
            Option::Some(base) => {
                let url = build_push_url(base.as_str(), token, latency, start_iso, end_iso, result);
                ChannelFollowUp::FallbackHttp { url }
            },
            Option::None => ChannelFollowUp::NoPathLeft,
        },
    }
}

} // verus!
