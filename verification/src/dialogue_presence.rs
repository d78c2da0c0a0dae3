//! Presence of a dialogue peer: a key under a lease that its holder keeps
//! alive. Configuration, requests, and how the key-value store's answers are
//! read.
use crate::embed::text_or;
use crate::json::{
    field, int_number, json_text, number_int, number_shown, unsigned_number, Json, JsonObject,
    JsonV,
};
use crate::settings::{Settings, SettingsV};
use crate::text::{
    drop_any, int_value, lemma_texts_push, opt_text, parse_i64, parse_unsigned, same, split_char,
    split_on, texts, trim, trim_end_any, trimmed,
};
use base64::Engine;
use vstd::prelude::*;
use vstd::utf8::encode_utf8;

verus! {

/// The lease's life in seconds, where none is configured.
pub const DEFAULT_TTL_S: u64 = 60;

/// The time to wait for one call, in seconds.
pub const CALL_TIMEOUT_S: u64 = 2;

/// How presence is configured.
#[derive(Debug)]
pub struct PresenceConfig {
    pub endpoints: Vec<String>,
    pub prefix: String,
    pub ttl_s: u64,
}

/// What such a configuration is.
pub struct PresenceV {
    pub endpoints: Seq<Seq<char>>,
    pub prefix: Seq<char>,
    pub ttl_s: nat,
}

impl View for PresenceConfig {
    type V = PresenceV;

    open spec fn view(&self) -> PresenceV {
        PresenceV {
            endpoints: texts(self.endpoints@),
            prefix: self.prefix@,
            ttl_s: self.ttl_s as nat,
        }
    }
}

/// The standard base64 text of some bytes.
pub uninterp spec fn base64_of(bytes: Seq<u8>) -> Seq<char>;

/// `encode` of `base64`'s standard engine: the base64 text of the bytes, with
/// padding. A slice holds no more than `isize::MAX` bytes, so that the size of
/// the text, which `encode` computes first, never overflows.
#[verifier::external_body]
fn base64_encode(bytes: &[u8]) -> (r: String)
    ensures
        r@ == base64_of(bytes@),
{
    base64::engine::general_purpose::STANDARD.encode(bytes)
}

/// An endpoint as it is called: without white space round it and without
/// slashes at its end.
pub open spec fn clean_endpoint(s: Seq<char>) -> Seq<char> {
    drop_any(trimmed(s), "/"@)
}

/// The endpoints that are not empty, in order.
pub open spec fn clean_endpoints(pieces: Seq<Seq<char>>) -> Seq<Seq<char>>
    decreases pieces.len(),
{
    if pieces.len() == 0 {
        Seq::empty()
    } else {
        let init = clean_endpoints(pieces.drop_last());
        let e = clean_endpoint(pieces.last());
        if e.len() > 0 {
            init.push(e)
        } else {
            init
        }
    }
}

/// The lease's life: a configured number of at least five seconds, else the
/// default.
pub open spec fn ttl_of(o: Option<Seq<char>>) -> nat {
    match o {
        Some(s) => match int_value(s) {
            Some(n) if 5 <= n <= u64::MAX && s[0] != '-' => n as nat,
            _ => DEFAULT_TTL_S as nat,
        },
        None => DEFAULT_TTL_S as nat,
    }
}

/// The configuration of presence; none unless an endpoint is configured.
pub open spec fn presence_of(s: SettingsV) -> Option<PresenceV> {
    match s.setting("dialogue"@, "presence_etcd"@, "AGENT_DIALOGUE_PRESENCE_ETCD"@) {
        None => None,
        Some(eps) => {
            let endpoints = clean_endpoints(split_on(eps, ','));
            if endpoints.len() == 0 {
                None
            } else {
                Some(
                    PresenceV {
                        endpoints,
                        prefix: text_or(
                            s.setting(
                                "dialogue"@,
                                "presence_prefix"@,
                                "AGENT_DIALOGUE_PRESENCE_PREFIX"@,
                            ),
                            "/mu/dialogue/v1/peers/"@,
                        ),
                        ttl_s: ttl_of(
                            s.setting(
                                "dialogue"@,
                                "presence_ttl_s"@,
                                "AGENT_DIALOGUE_PRESENCE_TTL_S"@,
                            ),
                        ),
                    },
                )
            }
        },
    }
}

/// Reads the configuration of presence.
pub fn config(s: &Settings) -> (r: Option<PresenceConfig>)
    ensures
        match r {
            Some(c) => presence_of(s@) == Some(c@) && c.endpoints@.len() > 0 && c.ttl_s >= 5,
            None => presence_of(s@) is None,
        },
{
    let eps = match s.resolve_setting(
        "dialogue",
        "presence_etcd",
        "AGENT_DIALOGUE_PRESENCE_ETCD",
    ) {
        Some(e) => e,
        None => {
            return None;
        },
    };
    let pieces = split_char(eps.as_str(), ',');
    let ghost all = texts(pieces@);
    let mut endpoints: Vec<String> = Vec::new();
    let mut i: usize = 0;
    assert(texts(endpoints@) =~= clean_endpoints(all.take(0)));
    while i < pieces.len()
        invariant
            all == texts(pieces@),
            i <= pieces@.len(),
            texts(endpoints@) == clean_endpoints(all.take(i as int)),
        decreases pieces@.len() - i,
    {
        assert(all.take(i as int + 1).drop_last() =~= all.take(i as int));
        assert(all.take(i as int + 1).last() == pieces@[i as int]@);
        let e = trim_end_any(trim(pieces[i].as_str()).as_str(), "/");
        if !e.as_str().is_empty() {
            proof {
                lemma_texts_push(endpoints@, e);
            }
            endpoints.push(e);
        }
        i = i + 1;
    }
    assert(all.take(i as int) =~= all);
    assert(texts(endpoints@).len() == endpoints@.len());
    if endpoints.len() == 0 {
        return None;
    }
    let prefix = match s.resolve_setting(
        "dialogue",
        "presence_prefix",
        "AGENT_DIALOGUE_PRESENCE_PREFIX",
    ) {
        Some(p) => p,
        None => "/mu/dialogue/v1/peers/".to_string(),
    };
    let ttl_s: u64 = match s.resolve_setting(
        "dialogue",
        "presence_ttl_s",
        "AGENT_DIALOGUE_PRESENCE_TTL_S",
    ) {
        Some(t) => match parse_unsigned(t.as_str(), u64::MAX) {
            Some(n) => if n >= 5 {
                n
            } else {
                DEFAULT_TTL_S
            },
            None => DEFAULT_TTL_S,
        },
        None => DEFAULT_TTL_S,
    };
    Some(PresenceConfig { endpoints, prefix, ttl_s })
}

/// The identifier under a key: a text or a number, other than zero.
pub open spec fn id_in(t: JsonV, key: Seq<char>) -> Option<Seq<char>> {
    match field(t, key) {
        Some(JsonV::Str(s)) => if s.len() > 0 && s != "0"@ {
            Some(s)
        } else {
            None
        },
        Some(JsonV::Number(n)) => match number_int(n) {
            Some(i) if i != 0 => Some(number_shown(n)),
            _ => None,
        },
        _ => None,
    }
}

/// Reads the identifier under a key.
pub fn id_of(v: &Json, key: &str) -> (r: Option<String>)
    ensures
        opt_text(r) == id_in(v.tree(), key@),
{
    match v.get(key) {
        Some(j) => match j {
            Json::Str(s) => if !s.as_str().is_empty() && !same(s.as_str(), "0") {
                Some(s.clone())
            } else {
                None
            },
            Json::Number(_) => match j.as_i64() {
                Some(i) => if i != 0 {
                    j.scalar_text()
                } else {
                    None
                },
                None => None,
            },
            _ => None,
        },
        None => None,
    }
}

/// The request for a lease.
pub fn grant_request(ttl_s: u64) -> (r: Json)
    ensures
        r.tree() == JsonV::Object(
            Map::empty().insert("TTL"@, JsonV::Number(unsigned_number(ttl_s))),
        ),
{
    let mut o = JsonObject::new();
    o.insert_unsigned("TTL", ttl_s);
    o.done()
}

/// What a peer's presence key holds.
pub open spec fn presence_value(peer: Seq<char>, now_ms: i64) -> JsonV {
    JsonV::Object(
        Map::empty().insert("peer_id"@, JsonV::Str(peer)).insert(
            "role"@,
            JsonV::Str(split_on(peer, ':')[0]),
        ).insert("registered_at_unix_ms"@, JsonV::Number(int_number(now_ms))),
    )
}

/// The request that puts a peer's presence key under a lease: key and value in
/// base64.
pub fn put_request(prefix: &str, peer_id: &str, lease: &str, now_ms: i64) -> (r: Json)
    ensures
        r.tree() == JsonV::Object(
            Map::empty().insert(
                "key"@,
                JsonV::Str(base64_of(encode_utf8(prefix@ + peer_id@))),
            ).insert(
                "value"@,
                JsonV::Str(base64_of(encode_utf8(json_text(presence_value(peer_id@, now_ms))))),
            ).insert("lease"@, JsonV::Str(lease@)),
        ),
{
    let pieces = split_char(peer_id, ':');
    assert(texts(pieces@)[0] == pieces@[0]@);
    let mut value = JsonObject::new();
    value.insert_str("peer_id", peer_id);
    value.insert_str("role", pieces[0].as_str());
    value.insert_int("registered_at_unix_ms", now_ms);
    let text = value.done().text();
    let mut key = prefix.to_owned();
    key.append(peer_id);
    let mut o = JsonObject::new();
    o.insert_str("key", base64_encode(key.as_str().as_bytes()).as_str());
    o.insert_str("value", base64_encode(text.as_str().as_bytes()).as_str());
    o.insert_str("lease", lease);
    o.done()
}

/// The request that refreshes a lease.
pub fn keepalive_request(lease: &str) -> (r: Json)
    ensures
        r.tree() == JsonV::Object(Map::empty().insert("ID"@, JsonV::Str(lease@))),
{
    let mut o = JsonObject::new();
    o.insert_str("ID", lease);
    o.done()
}

/// The remaining life that an answer gives, as text or number; zero where it is
/// neither.
pub open spec fn ttl_left(t: JsonV) -> int {
    match t {
        JsonV::Str(s) => match int_value(s) {
            Some(n) if i64::MIN <= n <= i64::MAX => n,
            _ => 0,
        },
        JsonV::Number(n) => match number_int(n) {
            Some(i) => i as int,
            None => 0,
        },
        _ => 0,
    }
}

/// Whether the answer to a refresh says that the lease lives on.
pub open spec fn lease_alive(t: JsonV) -> bool {
    match field(t, "result"@) {
        Some(r) => match field(r, "TTL"@) {
            Some(ttl) => ttl_left(ttl) > 0,
            None => false,
        },
        None => false,
    }
}

/// Reads whether the lease lives on.
pub fn is_alive(resp: &Json) -> (r: bool)
    ensures
        r == lease_alive(resp.tree()),
{
    match resp.get("result") {
        Some(res) => match res.get("TTL") {
            Some(t) => match t {
                Json::Str(s) => match parse_i64(s.as_str()) {
                    Some(n) => n > 0,
                    None => false,
                },
                Json::Number(_) => match t.as_i64() {
                    Some(n) => n > 0,
                    None => false,
                },
                _ => false,
            },
            None => false,
        },
        None => false,
    }
}

/// Whether a peer has to register again, given its lease and the answer to the
/// last refresh of it: only a lease that lives on is kept.
pub fn hold_step(lease: &Option<String>, answer: &Option<Json>) -> (again: bool)
    ensures
        again == !(lease is Some && answer is Some && lease_alive(answer->0.tree())),
{
    match answer {
        Some(a) => lease.is_none() || !is_alive(a),
        None => true,
    }
}

/// How long to sleep between refreshes: a third of the lease's life, at least
/// two seconds.
pub fn refresh_interval_s(ttl_s: u64) -> (r: u64)
    ensures
        r == (if ttl_s / 3 < 2 {
            2
        } else {
            ttl_s / 3
        }),
{
    if ttl_s / 3 < 2 {
        2
    } else {
        ttl_s / 3
    }
}

/// A configured lease is refreshed before it expires.
pub proof fn law_refreshed_in_time(s: SettingsV)
    requires
        presence_of(s) is Some,
    ensures
        ({
            let ttl = presence_of(s)->0.ttl_s;
            let every = if ttl / 3 < 2 {
                2
            } else {
                ttl / 3
            };
            ttl >= 5 && 2 * every < ttl
        }),
{
}

} // verus!
