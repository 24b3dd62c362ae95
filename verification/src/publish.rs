//! The publish window and the config-save dialog: what a click does with
//! the texts the user typed. The JSON body is checked with `serde_json`
//! before anything is handed to the node; sending and writing files are the
//! caller's.

use vstd::prelude::*;

use crate::panel::{template_for, template_spec};
use crate::text::{chars_of, push_str, string_of};
use crate::theme::{trim, trimmed};

verus! {

/// What `serde_json::from_str::<serde_json::Value>` says of a text: `None`
/// when it is one JSON value, else its error message.
pub uninterp spec fn json_check(text: Seq<char>) -> Option<Seq<char>>;

/// Check that a text is one JSON value.
///
/// Trusted: calls `serde_json::from_str::<serde_json::Value>`, which parses
/// the text alone; its error is rendered with its `Display`. The contract
/// names the outcome as a function of the text.
#[verifier::external_body]
fn check_json(text: &str) -> (r: Option<String>)
    ensures
        match r {
            None => json_check(text@) is None,
            Some(m) => json_check(text@) == Some(m@),
        },
{
    match serde_json::from_str::<serde_json::Value>(text) {
        Ok(_) => None,
        Err(e) => Some(format!("{e}")),
    }
}

/// A message to publish: topic and type without surrounding white space,
/// and the JSON body as typed.
pub struct PublishRequest {
    pub topic: String,
    pub msg_type: String,
    pub json: String,
}

/// What a click on "Publish" leads to: the request, if any, and the status
/// line shown under the window.
pub struct PublishOutcome {
    pub request: Option<PublishRequest>,
    pub status: String,
}

/// The Publish button is enabled once a topic and a type are filled in.
pub fn can_publish(topic: &str, msg_type: &str) -> (r: bool)
    ensures
        r == (trimmed(topic@).len() > 0 && trimmed(msg_type@).len() > 0),
{
    let t = trim(topic);
    let ty = trim(msg_type);
    !t.as_str().is_empty() && !ty.as_str().is_empty()
}

/// The outcome of a click given the JSON check of the body (`None`: valid):
/// a valid body is published with status `"published to <topic>"`, an
/// invalid one yields no request and status `"invalid JSON: <error>"`.
pub fn publish_outcome(topic: &str, msg_type: &str, json: &str, check: Option<String>) -> (r: PublishOutcome)
    ensures
        match check {
            None => {
                &&& r.request matches Some(q) && q.topic@ == trimmed(topic@) && q.msg_type@ == trimmed(
                    msg_type@,
                ) && q.json@ == json@
                &&& r.status@ == "published to "@ + trimmed(topic@)
            },
            Some(e) => r.request is None && r.status@ == "invalid JSON: "@ + e@,
        },
{
    match check {
        None => {
            let t = trim(topic);
            let mut status = String::new();
            push_str(&mut status, "published to ");
            push_str(&mut status, t.as_str());
            PublishOutcome {
                request: Some(PublishRequest { topic: t, msg_type: trim(msg_type), json: json.to_owned() }),
                status,
            }
        },
        Some(e) => {
            let mut status = String::new();
            push_str(&mut status, "invalid JSON: ");
            push_str(&mut status, e.as_str());
            PublishOutcome { request: None, status }
        },
    }
}

/// A click on "Publish" (also each due tick of rate publishing): the body
/// is checked with `serde_json` and the outcome follows `publish_outcome`.
pub fn publish_click(topic: &str, msg_type: &str, json: &str) -> (r: PublishOutcome)
    ensures
        r.request is Some <==> json_check(json@) is None,
        match json_check(json@) {
            None => {
                &&& r.request matches Some(q) && q.topic@ == trimmed(topic@) && q.msg_type@ == trimmed(
                    msg_type@,
                ) && q.json@ == json@
                &&& r.status@ == "published to "@ + trimmed(topic@)
            },
            Some(e) => r.status@ == "invalid JSON: "@ + e,
        },
{
    let check = check_json(json);
    publish_outcome(topic, msg_type, json, check)
}

/// What one tick of rate publishing does: the request to send, if any; the
/// new status line, if it changes; and whether rate publishing stays on.
pub struct RateTick {
    pub request: Option<PublishRequest>,
    pub status: Option<String>,
    pub repeat: bool,
}

/// Rate publishing acts on a tick only when it is on, a topic and a type
/// are filled in, and a period has passed since the last message (`due`).
pub open spec fn rate_acts(repeat: bool, topic: Seq<char>, msg_type: Seq<char>, due: bool) -> bool {
    repeat && due && trimmed(topic).len() > 0 && trimmed(msg_type).len() > 0
}

/// One tick of rate publishing given the JSON check of the body (`None`:
/// valid). When it does not act, nothing happens. Otherwise a valid body is
/// sent, the status line left alone; an invalid one sends nothing, sets the
/// status to `"invalid JSON: <error>"` and turns rate publishing off.
pub fn rate_tick_outcome(
    repeat: bool,
    due: bool,
    topic: &str,
    msg_type: &str,
    json: &str,
    check: Option<String>,
) -> (r: RateTick)
    ensures
        !rate_acts(repeat, topic@, msg_type@, due) ==> r.request is None && r.status is None && r.repeat
            == repeat,
        rate_acts(repeat, topic@, msg_type@, due) ==> match check {
            None => {
                &&& r.request matches Some(q) && q.topic@ == trimmed(topic@) && q.msg_type@ == trimmed(
                    msg_type@,
                ) && q.json@ == json@
                &&& r.status is None
                &&& r.repeat
            },
            Some(e) => r.request is None && (r.status matches Some(st) && st@ == "invalid JSON: "@ + e@)
                && !r.repeat,
        },
{
    if !(repeat && due && can_publish(topic, msg_type)) {
        return RateTick { request: None, status: None, repeat };
    }
    match check {
        None => RateTick {
            request: Some(PublishRequest { topic: trim(topic), msg_type: trim(msg_type), json: json.to_owned() }),
            status: None,
            repeat: true,
        },
        Some(e) => {
            let mut status = String::new();
            push_str(&mut status, "invalid JSON: ");
            push_str(&mut status, e.as_str());
            RateTick { request: None, status: Some(status), repeat: false }
        },
    }
}

/// One tick of rate publishing: when it acts (see `rate_acts`), the body is
/// checked with `serde_json` and the outcome follows `rate_tick_outcome`;
/// otherwise the body is not looked at.
pub fn rate_tick(repeat: bool, due: bool, topic: &str, msg_type: &str, json: &str) -> (r: RateTick)
    ensures
        !rate_acts(repeat, topic@, msg_type@, due) ==> r.request is None && r.status is None && r.repeat
            == repeat,
        rate_acts(repeat, topic@, msg_type@, due) ==> match json_check(json@) {
            None => {
                &&& r.request matches Some(q) && q.topic@ == trimmed(topic@) && q.msg_type@ == trimmed(
                    msg_type@,
                ) && q.json@ == json@
                &&& r.status is None
                &&& r.repeat
            },
            Some(e) => r.request is None && (r.status matches Some(st) && st@ == "invalid JSON: "@ + e)
                && !r.repeat,
        },
{
    if !(repeat && due && can_publish(topic, msg_type)) {
        return RateTick { request: None, status: None, repeat };
    }
    let check = check_json(json);
    rate_tick_outcome(repeat, due, topic, msg_type, json, check)
}

/// Picking a topic of the graph: its type is the first it advertises (empty
/// when none), and the body is seeded with that type's template only when
/// it is blank, so a hand-edited message survives a re-selection.
pub fn select_topic(types: &Vec<String>, json: &str) -> (r: (String, Option<&'static str>))
    ensures
        r.0@ == (if types@.len() > 0 {
            types@[0]@
        } else {
            Seq::<char>::empty()
        }),
        match r.1 {
            Some(t) => trimmed(json@).len() == 0 && t@ == template_spec(r.0@),
            None => trimmed(json@).len() > 0,
        },
{
    let ty = if types.len() > 0 {
        types[0].clone()
    } else {
        String::new()
    };
    proof {
        if types@.len() > 0 {
            assert(cloned::<String>(types@[0], ty));
        }
    }
    let body = trim(json);
    if body.as_str().is_empty() {
        (ty.clone(), Some(template_for(ty.as_str())))
    } else {
        (ty, None)
    }
}

/// `s` ends with `suffix`.
pub open spec fn ends_with(s: Seq<char>, suffix: Seq<char>) -> bool {
    s.len() >= suffix.len() && s.skip(s.len() - suffix.len()) == suffix
}

/// The file a configuration is saved to, from the name typed in the save
/// dialog: trimmed, one trailing `.toml` dropped, `fastviz` when nothing is
/// left, then `.toml` appended.
pub open spec fn config_file_spec(name: Seq<char>) -> Seq<char> {
    let t = trimmed(name);
    let stem = if ends_with(t, ".toml"@) {
        t.take(t.len() - 5)
    } else {
        t
    };
    if stem.len() == 0 {
        "fastviz.toml"@
    } else {
        stem + ".toml"@
    }
}

/// The file name a configuration is saved under (see `config_file_spec`).
pub fn config_file_name(name: &str) -> (r: String)
    ensures
        r@ == config_file_spec(name@),
{
    let t = trim(name);
    let cs = chars_of(t.as_str());
    let n = cs.len();
    proof {
        reveal_strlit(".toml");
        reveal_strlit("fastviz.toml");
    }
    let has_ext = n >= 5 && cs[n - 5] == '.' && cs[n - 4] == 't' && cs[n - 3] == 'o' && cs[n - 2]
        == 'm' && cs[n - 1] == 'l';
    proof {
        if n >= 5 {
            let tail = cs@.skip(n - 5);
            if has_ext {
                assert(tail =~= ".toml"@);
            } else {
                if tail == ".toml"@ {
                    assert(tail[0] == cs@[n - 5]);
                    assert(tail[1] == cs@[n - 4]);
                    assert(tail[2] == cs@[n - 3]);
                    assert(tail[3] == cs@[n - 2]);
                    assert(tail[4] == cs@[n - 1]);
                }
            }
        }
    }
    let end = if has_ext {
        n - 5
    } else {
        n
    };
    if end == 0 {
        return "fastviz.toml".to_owned();
    }
    let mut out = string_of(&cs, 0, end);
    push_str(&mut out, ".toml");
    proof {
        if has_ext {
            assert(cs@.subrange(0, end as int) =~= t@.take(t@.len() - 5));
        } else {
            assert(cs@.subrange(0, end as int) =~= t@);
        }
    }
    out
}

} // verus!
