//! Judging what a new memory means for stored ones: which are compared, what a
//! model is asked, and what its verdicts change.
use crate::json::{array_field, field, int_number, str_field, trees, Json, JsonObject, JsonV};
use crate::rows::{Memory, MemoryV};
use crate::settings::{Settings, SettingsV};
use crate::sort::{is_order, order_desc};
use crate::store::{can_log, Rank, Store, StoreV, ONE_KEY};
use crate::supersede::{queued, supersession};
use crate::text::{
    ascii_lower, byte_len, chars_of, clip, clipped, contains, count_fitting, count_matches,
    count_of, decimal, drop_any, find_char, first_pos, is_listed, join, joined, last_pos,
    lemma_fitting, lemma_texts_push, listed, opt_text, same, slice_text, texts, to_ascii_lower,
    trim_end_any, usize_text,
};
use crate::tokens::{lowered, phrase, runs, split_runs};
use vstd::prelude::*;

verus! {

/// How many memories are taken by similarity.
pub const NOMINATE_TOP_K_VEC: usize = 10;

/// How many memories are taken by words.
pub const NOMINATE_TOP_K_FTS: usize = 5;

/// How much of a memory a model is shown, in characters.
pub const CANDIDATE_EXCERPT_CHARS: usize = 600;

/// How long a model may take, in seconds.
pub const LLM_TIMEOUT_SECS: u64 = 30;

/// How judging is configured: thresholds as configured, where they are.
#[derive(Debug)]
pub struct AdjudicateSettings {
    pub base_url: String,
    pub model: String,
    pub auto_threshold: Option<String>,
    pub queue_threshold: Option<String>,
}

/// What such a configuration is.
pub struct AdjudicateSettingsV {
    pub base_url: Seq<char>,
    pub model: Seq<char>,
    pub auto_threshold: Option<Seq<char>>,
    pub queue_threshold: Option<Seq<char>>,
}

impl View for AdjudicateSettings {
    type V = AdjudicateSettingsV;

    open spec fn view(&self) -> AdjudicateSettingsV {
        AdjudicateSettingsV {
            base_url: self.base_url@,
            model: self.model@,
            auto_threshold: opt_text(self.auto_threshold),
            queue_threshold: opt_text(self.queue_threshold),
        }
    }
}

/// The model to ask and the thresholds for what it says.
#[derive(Debug)]
pub struct AdjudicateConfig {
    pub base_url: String,
    pub model: String,
    pub auto_threshold: Rank,
    pub queue_threshold: Rank,
}

/// The configuration of judging; none where it is switched off, or where a
/// model or an endpoint is missing. An override in the environment that is empty
/// counts as not set.
pub open spec fn adjudication(s: SettingsV) -> Option<AdjudicateSettingsV> {
    if s.var("AGENT_NO_ADJUDICATE"@) == Some("1"@) {
        None
    } else {
        match (
            s.setting("adjudicate"@, "model"@, "AGENT_ADJUDICATE_MODEL"@),
            s.setting("adjudicate"@, "base_url"@, "AGENT_ADJUDICATE_BASE_URL"@),
        ) {
            (Some(model), Some(base_url)) => Some(
                AdjudicateSettingsV {
                    base_url,
                    model,
                    auto_threshold: s.configured("adjudicate"@, "auto_threshold"@),
                    queue_threshold: s.configured("adjudicate"@, "queue_threshold"@),
                },
            ),
            _ => None,
        }
    }
}

/// Reads the configuration of judging.
pub fn config(s: &Settings) -> (r: Option<AdjudicateSettings>)
    ensures
        match r {
            Some(c) => adjudication(s@) == Some(c@),
            None => adjudication(s@) is None,
        },
{
    if let Some(v) = s.var("AGENT_NO_ADJUDICATE") {
        if same(v.as_str(), "1") {
            return None;
        }
    }
    let model = match s.resolve_setting("adjudicate", "model", "AGENT_ADJUDICATE_MODEL") {
        Some(m) => m,
        None => {
            return None;
        },
    };
    let base_url = match s.resolve_setting(
        "adjudicate",
        "base_url",
        "AGENT_ADJUDICATE_BASE_URL",
    ) {
        Some(u) => u,
        None => {
            return None;
        },
    };
    Some(
        AdjudicateSettings {
            base_url,
            model,
            auto_threshold: s.read_config_toml_value("adjudicate", "auto_threshold"),
            queue_threshold: s.read_config_toml_value("adjudicate", "queue_threshold"),
        },
    )
}

/// A memory as a model sees it.
#[derive(Debug)]
pub struct Candidate {
    pub id: String,
    pub name: String,
    pub description: String,
    pub content: String,
    pub lifecycle: String,
}

/// What such a memory is.
pub struct CandidateV {
    pub id: Seq<char>,
    pub name: Seq<char>,
    pub description: Seq<char>,
    pub content: Seq<char>,
    pub lifecycle: Seq<char>,
}

impl View for Candidate {
    type V = CandidateV;

    open spec fn view(&self) -> CandidateV {
        CandidateV {
            id: self.id@,
            name: self.name@,
            description: self.description@,
            content: self.content@,
            lifecycle: self.lifecycle@,
        }
    }
}

/// What a list of such memories is.
pub open spec fn candidates_view(v: Seq<Candidate>) -> Seq<CandidateV> {
    v.map_values(|c: Candidate| c@)
}

/// A stored memory as a model sees it.
pub open spec fn candidate_of(m: MemoryV) -> CandidateV {
    CandidateV {
        id: m.id,
        name: m.name,
        description: m.description,
        content: m.content,
        lifecycle: m.lifecycle,
    }
}

/// One verdict of a model: the place of the candidate, counted from one, the
/// relation, and how sure it is; that also as it is shown, within zero and one
/// and as it came.
#[derive(Debug)]
pub struct Verdict {
    pub candidate: usize,
    pub relation: String,
    pub confidence: Rank,
    pub shown: String,
    pub shown_raw: String,
    pub rationale: String,
}

impl Store {
    /// Loads a memory for comparison, whatever its lifecycle.
    pub fn load_candidate(&self, id: &str) -> (r: Option<Candidate>)
        ensures
            match r {
                Some(c) => self@.get(id@) is Some && c@ == candidate_of(self@.get(id@)->0),
                None => self@.get(id@) is None,
            },
    {
        match self.get(id) {
            Some(m) => Some(
                Candidate {
                    id: m.id.clone(),
                    name: m.name.clone(),
                    description: m.description.clone(),
                    content: m.content.clone(),
                    lifecycle: m.lifecycle.clone(),
                },
            ),
            None => None,
        }
    }
}

/// The ids to compare, in order: those given, each once, without the new
/// memory's own.
pub open spec fn nominated(ids: Seq<Seq<char>>, new_id: Seq<char>) -> Seq<Seq<char>>
    decreases ids.len(),
{
    if ids.len() == 0 {
        Seq::empty()
    } else {
        let init = nominated(ids.drop_last(), new_id);
        if ids.last() == new_id || listed(init, ids.last()) {
            init
        } else {
            init.push(ids.last())
        }
    }
}

/// The first positions of an order.
pub open spec fn first_of(ids: Seq<Seq<char>>, order: Seq<usize>, n: nat) -> Seq<Seq<char>> {
    Seq::new(
        if order.len() < n {
            order.len()
        } else {
            n
        },
        |i: int| ids[order[i] as int],
    )
}

/// Ranks as keys to order by.
pub open spec fn rank_keys(v: Seq<Rank>) -> Seq<(i64, i64)> {
    v.map_values(|k: Rank| (k.key, 0i64))
}

/// The most similar first: the ids of at most `NOMINATE_TOP_K_VEC` memories by
/// how similar they are, equal ones in the order given.
pub fn most_similar(ids: &Vec<String>, similarity: &Vec<Rank>) -> (r: Vec<String>)
    requires
        ids@.len() == similarity@.len(),
    ensures
        exists|order: Seq<usize>|
            is_order(rank_keys(similarity@), order) && texts(r@)
                == #[trigger] first_of(texts(ids@), order, NOMINATE_TOP_K_VEC as nat),
{
    let mut keys: Vec<(i64, i64)> = Vec::new();
    let mut i: usize = 0;
    while i < similarity.len()
        invariant
            i <= similarity@.len(),
            keys@.len() == i,
            forall|k: int| 0 <= k < i ==> #[trigger] keys@[k] == (similarity@[k].key, 0i64),
        decreases similarity@.len() - i,
    {
        keys.push((similarity[i].key, 0));
        i = i + 1;
    }
    assert(keys@ =~= rank_keys(similarity@));
    let order = order_desc(&keys);
    let n: usize = if order.len() < NOMINATE_TOP_K_VEC {
        order.len()
    } else {
        NOMINATE_TOP_K_VEC
    };
    let mut out: Vec<String> = Vec::new();
    let mut k: usize = 0;
    while k < n
        invariant
            k <= n <= order@.len(),
            order@.len() == ids@.len(),
            is_order(keys@, order@),
            keys@.len() == ids@.len(),
            out@.len() == k,
            forall|x: int| 0 <= x < k ==> (#[trigger] out@[x])@ == ids@[order@[x] as int]@,
        decreases n - k,
    {
        out.push(ids[order[k]].clone());
        k = k + 1;
    }
    assert(texts(out@) =~= first_of(texts(ids@), order@, NOMINATE_TOP_K_VEC as nat));
    out
}

impl Store {
    /// The memories to compare a new one with: those most similar, then those
    /// that share words, each once. Superseded and withdrawn ones take part, so
    /// that a fact learned again meets its own withdrawal.
    pub fn nominate(&self, new_id: &str, by_vector: &Vec<String>, by_words: &Vec<String>) -> (r: Vec<
        Candidate,
    >)
        ensures
            ({
                let ids = nominated(texts(by_vector@) + texts(by_words@), new_id@);
                candidates_view(r@) == loaded(self@, ids)
            }),
    {
        let mut ids: Vec<String> = Vec::new();
        let ghost all = texts(by_vector@) + texts(by_words@);
        let mut i: usize = 0;
        assert(texts(ids@) =~= nominated(all.take(0), new_id@));
        while i < by_vector.len()
            invariant
                all == texts(by_vector@) + texts(by_words@),
                i <= by_vector@.len(),
                texts(ids@) == nominated(all.take(i as int), new_id@),
            decreases by_vector@.len() - i,
        {
            assert(all.take(i as int + 1).drop_last() =~= all.take(i as int));
            assert(all.take(i as int + 1).last() == by_vector@[i as int]@);
            if !same(by_vector[i].as_str(), new_id) && !is_listed(&ids, by_vector[i].as_str()) {
                let x = by_vector[i].clone();
                proof {
                    lemma_texts_push(ids@, x);
                }
                ids.push(x);
            }
            i = i + 1;
        }
        let ghost nv = by_vector@.len() as int;
        let mut k: usize = 0;
        while k < by_words.len()
            invariant
                all == texts(by_vector@) + texts(by_words@),
                nv == by_vector@.len(),
                k <= by_words@.len(),
                texts(ids@) == nominated(all.take(nv + k), new_id@),
            decreases by_words@.len() - k,
        {
            assert(all.take(nv + k + 1).drop_last() =~= all.take(nv + k));
            assert(all.take(nv + k + 1).last() == by_words@[k as int]@);
            if !same(by_words[k].as_str(), new_id) && !is_listed(&ids, by_words[k].as_str()) {
                let x = by_words[k].clone();
                proof {
                    lemma_texts_push(ids@, x);
                }
                ids.push(x);
            }
            k = k + 1;
        }
        assert(all.take(nv + k) =~= all);
        let mut out: Vec<Candidate> = Vec::new();
        let ghost want = texts(ids@);
        let mut j: usize = 0;
        assert(candidates_view(out@) =~= loaded(self@, want.take(0)));
        while j < ids.len()
            invariant
                want == texts(ids@),
                j <= ids@.len(),
                candidates_view(out@) == loaded(self@, want.take(j as int)),
            decreases ids@.len() - j,
        {
            assert(want.take(j as int + 1).drop_last() =~= want.take(j as int));
            assert(want.take(j as int + 1).last() == ids@[j as int]@);
            if let Some(c) = self.load_candidate(ids[j].as_str()) {
                let ghost before = out@;
                out.push(c);
                assert(candidates_view(out@) =~= candidates_view(before).push(c@));
            }
            j = j + 1;
        }
        assert(want.take(j as int) =~= want);
        out
    }
}

/// The memories of some ids, in order, where they are stored.
pub open spec fn loaded(s: StoreV, ids: Seq<Seq<char>>) -> Seq<CandidateV>
    decreases ids.len(),
{
    if ids.len() == 0 {
        Seq::empty()
    } else {
        match s.get(ids.last()) {
            Some(m) => loaded(s, ids.drop_last()).push(candidate_of(m)),
            None => loaded(s, ids.drop_last()),
        }
    }
}

/// Superseded and withdrawn memories are compared like all others: whatever
/// is nominated and stored is shown, with its lifecycle.
pub proof fn law_every_nominee_is_compared(s: StoreV, ids: Seq<Seq<char>>, id: Seq<char>)
    requires
        listed(ids, id),
        s.get(id) is Some,
    ensures
        exists|i: int|
            0 <= i < loaded(s, ids).len() && #[trigger] loaded(s, ids)[i] == candidate_of(
                s.get(id)->0,
            ),
    decreases ids.len(),
{
    let init = ids.drop_last();
    if ids.last() == id {
        assert(loaded(s, ids).last() == candidate_of(s.get(id)->0));
        assert(loaded(s, ids)[loaded(s, ids).len() - 1] == candidate_of(s.get(id)->0));
    } else {
        let k = choose|k: int| 0 <= k < ids.len() && #[trigger] ids[k] == id;
        assert(init[k] == id);
        law_every_nominee_is_compared(s, init, id);
        let i = choose|i: int|
            0 <= i < loaded(s, init).len() && #[trigger] loaded(s, init)[i] == candidate_of(
                s.get(id)->0,
            );
        assert(loaded(s, ids)[i] == loaded(s, init)[i]);
    }
}

/// The distinct long words of some runs, in lower case and in order.
pub open spec fn long_words(rs: Seq<Seq<char>>) -> Seq<Seq<char>>
    decreases rs.len(),
{
    if rs.len() == 0 {
        Seq::empty()
    } else {
        let init = long_words(rs.drop_last());
        let t = lowered(rs.last());
        if byte_len(rs.last()) >= 4 && !listed(init, t) {
            init.push(t)
        } else {
            init
        }
    }
}

/// The full-text query for memories that share a word: the first eight
/// distinct words of at least four bytes, any of which will do.
pub open spec fn or_query(text: Seq<char>) -> Seq<char> {
    let ws = long_words(runs(text));
    joined(
        (if ws.len() > 8 {
            ws.take(8)
        } else {
            ws
        }).map_values(|w: Seq<char>| phrase(w)),
        " OR "@,
    )
}

/// Whether a text takes at least four bytes.
fn has_four_bytes(s: &str) -> (r: bool)
    ensures
        r == (byte_len(s@) >= 4),
{
    let v = chars_of(s);
    let (k, _) = count_fitting(&v, 3);
    proof {
        lemma_fitting(v@, 3);
    }
    k < v.len()
}

/// Builds the full-text query for memories that share a word.
pub fn fts_or_query(text: &str) -> (r: String)
    ensures
        r@ == or_query(text@),
{
    let rs = split_runs(text);
    let ghost all = texts(rs@);
    let mut ws: Vec<String> = Vec::new();
    let mut i: usize = 0;
    assert(texts(ws@) =~= long_words(all.take(0)));
    while i < rs.len()
        invariant
            all == texts(rs@),
            i <= rs@.len(),
            texts(ws@) == long_words(all.take(i as int)),
        decreases rs@.len() - i,
    {
        assert(all.take(i as int + 1).drop_last() =~= all.take(i as int));
        assert(all.take(i as int + 1).last() == rs@[i as int]@);
        if has_four_bytes(rs[i].as_str()) {
            let t = rs[i].as_str().to_lowercase();
            if !is_listed(&ws, t.as_str()) {
                proof {
                    lemma_texts_push(ws@, t);
                }
                ws.push(t);
            }
        }
        i = i + 1;
    }
    assert(all.take(i as int) =~= all);
    let ghost words = texts(ws@);
    let n: usize = if ws.len() > 8 {
        8
    } else {
        ws.len()
    };
    let mut ps: Vec<String> = Vec::new();
    let mut k: usize = 0;
    while k < n
        invariant
            k <= n <= ws@.len(),
            ps@.len() == k,
            forall|x: int| 0 <= x < k ==> (#[trigger] ps@[x])@ == phrase(ws@[x]@),
        decreases n - k,
    {
        let mut p = "\"".to_string();
        p.append(crate::text::replace_char(ws[k].as_str(), '"', "\"\"").as_str());
        p.append("\"");
        ps.push(p);
        k = k + 1;
    }
    assert(texts(ps@) =~= (if words.len() > 8 {
        words.take(8)
    } else {
        words
    }).map_values(|w: Seq<char>| phrase(w)));
    join(&ps, " OR ")
}

/// What a model is told before the memories.
pub open spec fn instructions() -> Seq<char> {
    "A new memory was just written to an agent memory store. Compare it against each existing candidate memory and classify their relation:\n- \"corrects\": the candidate states something that was NEVER true and the new memory corrects it\n- \"updates\": the candidate WAS true but the world changed; the new memory is the current state\n- \"duplicate\": same assertion, no new information\n- \"refines\": same topic, the new memory adds detail without contradicting\n- \"unrelated\": none of the above\nJudge content, not phrasing. Temporal succession (lived in X, now lives in Y) is \"updates\", not \"corrects\". \"updates\" requires the candidate to assert a CURRENT state of the world that the new memory explicitly replaces — a newer memory merely post-dating, reaffirming, or reporting later progress on the same topic is NOT \"updates\" (use \"refines\" or \"unrelated\"). Dated historical records (session logs, status-as-of-a-date reports, war stories) are not superseded by later status: they remain true records of their date. If unsure, prefer \"unrelated\" with low confidence.\nRespond with ONLY a JSON array, one object per candidate:\n[{\"candidate\": <1-based index>, \"relation\": \"...\", \"confidence\": 0.0-1.0, \"rationale\": \"<one line>\"}]\n\n"@
}

/// The start of a memory's content.
pub open spec fn excerpt_of(s: Seq<char>) -> Seq<char> {
    clipped(s, CANDIDATE_EXCERPT_CHARS as nat)
}

/// How a model is shown one candidate.
pub open spec fn candidate_block(n: nat, c: CandidateV) -> Seq<char> {
    decimal(n) + ". ["@ + c.id + "] (lifecycle: "@ + c.lifecycle + ") "@ + c.name + " — "@
        + c.description + "\n   "@ + excerpt_of(c.content) + "\n"@
}

/// How a model is shown some candidates.
pub open spec fn candidate_blocks(cs: Seq<CandidateV>) -> Seq<char>
    decreases cs.len(),
{
    if cs.len() == 0 {
        Seq::empty()
    } else {
        candidate_blocks(cs.drop_last()) + candidate_block(cs.len(), cs.last())
    }
}

/// What a model is asked.
pub open spec fn prompt_for(m: CandidateV, cs: Seq<CandidateV>) -> Seq<char> {
    instructions() + "NEW MEMORY:\nname: "@ + m.name + "\ndescription: "@ + m.description
        + "\ncontent: "@ + excerpt_of(m.content) + "\n\nCANDIDATES:\n"@ + candidate_blocks(cs)
}

/// The start of a memory's content.
fn excerpt(s: &str) -> (r: String)
    ensures
        r@ == excerpt_of(s@),
{
    clip(s, CANDIDATE_EXCERPT_CHARS)
}

/// Builds the question to a model.
pub fn build_prompt(new_mem: &Candidate, candidates: &Vec<Candidate>) -> (r: String)
    ensures
        r@ == prompt_for(new_mem@, candidates_view(candidates@)),
{
    let ghost cs = candidates_view(candidates@);
    let mut blocks = String::new();
    let mut i: usize = 0;
    assert(blocks@ =~= candidate_blocks(cs.take(0)));
    while i < candidates.len()
        invariant
            cs == candidates_view(candidates@),
            i <= candidates@.len(),
            blocks@ == candidate_blocks(cs.take(i as int)),
        decreases candidates@.len() - i,
    {
        let c = &candidates[i];
        assert(cs.take(i as int + 1).drop_last() =~= cs.take(i as int));
        assert(cs.take(i as int + 1).last() == c@);
        let mut b = usize_text(i + 1);
        b.append(". [");
        b.append(c.id.as_str());
        b.append("] (lifecycle: ");
        b.append(c.lifecycle.as_str());
        b.append(") ");
        b.append(c.name.as_str());
        b.append(" — ");
        b.append(c.description.as_str());
        b.append("\n   ");
        b.append(excerpt(c.content.as_str()).as_str());
        b.append("\n");
        blocks.append(b.as_str());
        i = i + 1;
    }
    assert(cs.take(i as int) =~= cs);
    let mut p =
        "A new memory was just written to an agent memory store. Compare it against each existing candidate memory and classify their relation:\n- \"corrects\": the candidate states something that was NEVER true and the new memory corrects it\n- \"updates\": the candidate WAS true but the world changed; the new memory is the current state\n- \"duplicate\": same assertion, no new information\n- \"refines\": same topic, the new memory adds detail without contradicting\n- \"unrelated\": none of the above\nJudge content, not phrasing. Temporal succession (lived in X, now lives in Y) is \"updates\", not \"corrects\". \"updates\" requires the candidate to assert a CURRENT state of the world that the new memory explicitly replaces — a newer memory merely post-dating, reaffirming, or reporting later progress on the same topic is NOT \"updates\" (use \"refines\" or \"unrelated\"). Dated historical records (session logs, status-as-of-a-date reports, war stories) are not superseded by later status: they remain true records of their date. If unsure, prefer \"unrelated\" with low confidence.\nRespond with ONLY a JSON array, one object per candidate:\n[{\"candidate\": <1-based index>, \"relation\": \"...\", \"confidence\": 0.0-1.0, \"rationale\": \"<one line>\"}]\n\n".to_string();
    p.append("NEW MEMORY:\nname: ");
    p.append(new_mem.name.as_str());
    p.append("\ndescription: ");
    p.append(new_mem.description.as_str());
    p.append("\ncontent: ");
    p.append(excerpt(new_mem.content.as_str()).as_str());
    p.append("\n\nCANDIDATES:\n");
    p.append(blocks.as_str());
    p
}

/// Where a model is asked.
pub fn chat_url(base_url: &str) -> (r: String)
    ensures
        r@ == drop_any(base_url@, "/"@) + "/chat/completions"@,
{
    let mut u = trim_end_any(base_url, "/");
    u.append("/chat/completions");
    u
}

/// The request to a model.
pub fn chat_request(model: &str, prompt: &str) -> (r: Json)
    ensures
        r.tree() == JsonV::Object(
            Map::empty().insert("model"@, JsonV::Str(model@)).insert(
                "temperature"@,
                JsonV::Number(int_number(0)),
            ).insert(
                "messages"@,
                JsonV::Array(
                    seq![
                        JsonV::Object(
                            Map::empty().insert("role"@, JsonV::Str("user"@)).insert(
                                "content"@,
                                JsonV::Str(prompt@),
                            ),
                        ),
                    ],
                ),
            ),
        ),
{
    let mut msg = JsonObject::new();
    msg.insert_str("role", "user");
    msg.insert_str("content", prompt);
    let ghost m = msg.map();
    let mut msgs: Vec<Json> = Vec::new();
    msgs.push(msg.done());
    assert(trees(msgs@) =~= seq![JsonV::Object(m)]);
    let mut o = JsonObject::new();
    o.insert_str("model", model);
    o.insert_int("temperature", 0);
    o.insert("messages", Json::Array(msgs));
    o.done()
}

/// The text of a model's answer.
pub open spec fn chat_text(t: JsonV) -> Option<Seq<char>> {
    match array_field(t, "choices"@) {
        Some(a) if a.len() > 0 => match field(a[0], "message"@) {
            Some(m) => str_field(m, "content"@),
            None => None,
        },
        _ => None,
    }
}

/// Reads the text of a model's answer.
pub fn chat_answer(v: &Json) -> (r: Result<String, String>)
    ensures
        match r {
            Ok(s) => chat_text(v.tree()) == Some(s@),
            Err(e) => chat_text(v.tree()) is None && e@ == "LLM response had no message content"@,
        },
{
    if let Some(a) = v.array_at("choices") {
        if a.len() > 0 {
            assert(trees(a@)[0] == a@[0].tree());
            if let Some(m) = a[0].get("message") {
                if let Some(s) = m.str_at("content") {
                    return Ok(s.to_owned());
                }
            }
        }
    }
    Err("LLM response had no message content".to_string())
}

/// The JSON array in a model's text: from the first opening bracket to the last
/// closing one.
pub open spec fn verdict_span(raw: Seq<char>) -> Result<Seq<char>, Seq<char>> {
    let start = first_pos(raw, '[');
    let end = last_pos(raw, ']');
    if start >= raw.len() {
        Err("no JSON array in LLM output"@)
    } else if end < 0 {
        Err("no closing bracket in LLM output"@)
    } else if end <= start {
        Err("malformed JSON array bounds in LLM output"@)
    } else {
        Ok(raw.subrange(start, end + 1))
    }
}

/// Cuts the JSON array out of a model's text, whatever stands round it.
pub fn verdict_array(raw: &str) -> (r: Result<String, String>)
    ensures
        match r {
            Ok(s) => verdict_span(raw@) == Ok::<Seq<char>, Seq<char>>(s@),
            Err(e) => verdict_span(raw@) == Err::<Seq<char>, Seq<char>>(e@),
        },
{
    let v = chars_of(raw);
    let start = find_char(&v, '[');
    if start >= v.len() {
        return Err("no JSON array in LLM output".to_string());
    }
    let mut n: usize = v.len();
    assert(v@.take(n as int) =~= v@);
    while n > 0 && v[n - 1] != ']'
        invariant
            v@ == raw@,
            n <= v@.len(),
            last_pos(v@, ']') == last_pos(v@.take(n as int), ']'),
        decreases n,
    {
        assert(v@.take(n as int).last() == v@[n - 1]);
        assert(v@.take(n as int).drop_last() =~= v@.take(n - 1));
        n = n - 1;
    }
    if n == 0 {
        return Err("no closing bracket in LLM output".to_string());
    }
    assert(v@.take(n as int).last() == v@[n - 1]);
    if n - 1 <= start {
        return Err("malformed JSON array bounds in LLM output".to_string());
    }
    Ok(slice_text(&v, start, n))
}

/// A confidence within zero and one.
pub open spec fn clamped(c: Rank) -> Rank {
    if c.key < 0 {
        Rank { key: 0 }
    } else if c.key > ONE_KEY {
        Rank { key: ONE_KEY }
    } else {
        c
    }
}

/// What a verdict makes of a candidate.
pub enum Ruling {
    /// Nothing.
    Ignore,
    /// The candidate is no longer in force: it is flagged.
    Zombie,
    /// The candidate is superseded.
    Edge,
    /// The pair is queued for a person to judge.
    Queue,
}

/// What a verdict makes of a candidate. A correction or an update of a memory
/// in force supersedes it where the model is sure enough and queues it where it
/// is less sure; where updates are only queued, it never supersedes by one.
pub open spec fn ruling(
    relation: Seq<char>,
    lifecycle: Seq<char>,
    conf: Rank,
    auto: Rank,
    queue: Rank,
    updates_queue_only: bool,
) -> Ruling {
    if relation == "corrects"@ || relation == "updates"@ {
        if lifecycle != "active"@ {
            Ruling::Zombie
        } else if relation == "updates"@ && updates_queue_only {
            if conf.key >= queue.key {
                Ruling::Queue
            } else {
                Ruling::Ignore
            }
        } else if conf.key >= auto.key {
            Ruling::Edge
        } else if conf.key >= queue.key {
            Ruling::Queue
        } else {
            Ruling::Ignore
        }
    } else if relation == "duplicate"@ && conf.key >= queue.key {
        Ruling::Queue
    } else {
        Ruling::Ignore
    }
}

/// The candidate that a verdict is about.
pub open spec fn judged(v: Verdict, cs: Seq<CandidateV>) -> Option<CandidateV> {
    if 1 <= v.candidate <= cs.len() {
        Some(cs[v.candidate - 1])
    } else {
        None
    }
}

/// What applying verdicts gives: the store, what was done, and the first error.
pub struct AppliedV {
    pub store: StoreV,
    pub actions: Seq<Seq<char>>,
    pub error: Option<Seq<char>>,
}

/// One verdict applied.
pub open spec fn verdict_applied(
    st: StoreV,
    new_id: Seq<char>,
    cs: Seq<CandidateV>,
    v: Verdict,
    auto: Rank,
    queue: Rank,
    updates_queue_only: bool,
    ts: i64,
) -> AppliedV {
    let none = AppliedV { store: st, actions: Seq::empty(), error: None };
    match judged(v, cs) {
        None => none,
        Some(c) => {
            let conf = clamped(v.confidence);
            match ruling(v.relation@, c.lifecycle, conf, auto, queue, updates_queue_only) {
                Ruling::Ignore => none,
                Ruling::Zombie => AppliedV {
                    store: queued(st, c.id, new_id, v.relation@, conf, v.rationale@, ts),
                    actions: seq!["zombie-flag "@ + c.id + " ("@ + v.relation@ + ")"@],
                    error: None,
                },
                Ruling::Queue => AppliedV {
                    store: queued(st, c.id, new_id, v.relation@, conf, v.rationale@, ts),
                    actions: seq![
                        c.id + " queued ("@ + v.relation@ + ", conf "@ + v.shown@ + ")"@,
                    ],
                    error: None,
                },
                Ruling::Edge => match supersession(
                    st,
                    c.id,
                    new_id,
                    v.relation@,
                    v.rationale@,
                    conf,
                    "adjudicator"@,
                    ts,
                ) {
                    Ok(t) => AppliedV {
                        store: t,
                        actions: seq![
                            c.id + " "@ + v.relation@ + "-edge (conf "@ + v.shown@ + ")"@,
                        ],
                        error: None,
                    },
                    Err(e) => AppliedV { store: st, actions: Seq::empty(), error: Some(e) },
                },
            }
        },
    }
}

/// Verdicts applied in order, up to the first error.
pub open spec fn verdicts_applied(
    st: StoreV,
    new_id: Seq<char>,
    cs: Seq<CandidateV>,
    vs: Seq<Verdict>,
    auto: Rank,
    queue: Rank,
    updates_queue_only: bool,
    ts: i64,
) -> AppliedV
    decreases vs.len(),
{
    if vs.len() == 0 {
        AppliedV { store: st, actions: Seq::empty(), error: None }
    } else {
        let p = verdicts_applied(
            st,
            new_id,
            cs,
            vs.drop_last(),
            auto,
            queue,
            updates_queue_only,
            ts,
        );
        if p.error is Some {
            p
        } else {
            let q = verdict_applied(
                p.store,
                new_id,
                cs,
                vs.last(),
                auto,
                queue,
                updates_queue_only,
                ts,
            );
            AppliedV { store: q.store, actions: p.actions + q.actions, error: q.error }
        }
    }
}

/// An error among the first verdicts is the outcome.
proof fn lemma_verdict_error_stays(
    st: StoreV,
    new_id: Seq<char>,
    cs: Seq<CandidateV>,
    vs: Seq<Verdict>,
    auto: Rank,
    queue: Rank,
    only: bool,
    ts: i64,
    n: int,
)
    requires
        0 <= n <= vs.len(),
        verdicts_applied(st, new_id, cs, vs.take(n), auto, queue, only, ts).error is Some,
    ensures
        verdicts_applied(st, new_id, cs, vs, auto, queue, only, ts) == verdicts_applied(
            st,
            new_id,
            cs,
            vs.take(n),
            auto,
            queue,
            only,
            ts,
        ),
    decreases vs.len() - n,
{
    if n < vs.len() {
        assert(vs.take(n + 1).drop_last() =~= vs.take(n));
        lemma_verdict_error_stays(st, new_id, cs, vs, auto, queue, only, ts, n + 1);
    } else {
        assert(vs.take(n) =~= vs);
    }
}

/// Decides what a verdict makes of a candidate.
fn rule(
    relation: &str,
    lifecycle: &str,
    conf: Rank,
    auto: Rank,
    queue: Rank,
    updates_queue_only: bool,
) -> (r: Ruling)
    ensures
        r == ruling(relation@, lifecycle@, conf, auto, queue, updates_queue_only),
{
    let updates = same(relation, "updates");
    if same(relation, "corrects") || updates {
        if !same(lifecycle, "active") {
            Ruling::Zombie
        } else if updates && updates_queue_only {
            if conf.key >= queue.key {
                Ruling::Queue
            } else {
                Ruling::Ignore
            }
        } else if conf.key >= auto.key {
            Ruling::Edge
        } else if conf.key >= queue.key {
            Ruling::Queue
        } else {
            Ruling::Ignore
        }
    } else if same(relation, "duplicate") && conf.key >= queue.key {
        Ruling::Queue
    } else {
        Ruling::Ignore
    }
}

/// A confidence within zero and one.
fn clamp_confidence(c: Rank) -> (r: Rank)
    ensures
        r == clamped(c),
{
    if c.key < 0 {
        Rank { key: 0 }
    } else if c.key > ONE_KEY {
        Rank { key: ONE_KEY }
    } else {
        c
    }
}

impl Store {
    /// Applies one verdict; what was done, if anything.
    fn apply_verdict(
        &mut self,
        new_id: &str,
        candidates: &Vec<Candidate>,
        v: &Verdict,
        cfg: &AdjudicateConfig,
        updates_queue_only: bool,
        ts: i64,
    ) -> (r: Result<Option<String>, String>)
        requires
            can_log(old(self)@),
            old(self).next_conflict < i64::MAX,
        ensures
            ({
                let a = verdict_applied(
                    old(self)@,
                    new_id@,
                    candidates_view(candidates@),
                    *v,
                    cfg.auto_threshold,
                    cfg.queue_threshold,
                    updates_queue_only,
                    ts,
                );
                &&& final(self)@ == a.store
                &&& match r {
                    Ok(Some(s)) => a.error is None && a.actions == seq![s@],
                    Ok(None) => a.error is None && a.actions.len() == 0,
                    Err(e) => a.error == Some(e@) && a.actions.len() == 0,
                }
                &&& final(self)@.next_event <= old(self)@.next_event + 1
                &&& final(self)@.next_conflict <= old(self)@.next_conflict + 1
            }),
    {
        let ghost cs = candidates_view(candidates@);
        if v.candidate < 1 || v.candidate > candidates.len() {
            return Ok(None);
        }
        let c = &candidates[v.candidate - 1];
        assert(cs[v.candidate - 1] == c@);
        let conf = clamp_confidence(v.confidence);
        let ghost a = verdict_applied(
            self@,
            new_id@,
            cs,
            *v,
            cfg.auto_threshold,
            cfg.queue_threshold,
            updates_queue_only,
            ts,
        );
        match rule(
            v.relation.as_str(),
            c.lifecycle.as_str(),
            conf,
            cfg.auto_threshold,
            cfg.queue_threshold,
            updates_queue_only,
        ) {
            Ruling::Ignore => Ok(None),
            Ruling::Zombie => {
                self.queue_conflict(
                    c.id.as_str(),
                    new_id,
                    v.relation.as_str(),
                    conf,
                    v.rationale.as_str(),
                    ts,
                );
                let mut s = "zombie-flag ".to_string();
                s.append(c.id.as_str());
                s.append(" (");
                s.append(v.relation.as_str());
                s.append(")");
                assert(a.actions =~= seq![s@]);
                Ok(Some(s))
            },
            Ruling::Queue => {
                self.queue_conflict(
                    c.id.as_str(),
                    new_id,
                    v.relation.as_str(),
                    conf,
                    v.rationale.as_str(),
                    ts,
                );
                let mut s = c.id.clone();
                s.append(" queued (");
                s.append(v.relation.as_str());
                s.append(", conf ");
                s.append(v.shown.as_str());
                s.append(")");
                assert(a.actions =~= seq![s@]);
                Ok(Some(s))
            },
            Ruling::Edge => {
                match self.apply_supersession(
                    c.id.as_str(),
                    new_id,
                    v.relation.as_str(),
                    v.rationale.as_str(),
                    conf,
                    "adjudicator",
                    ts,
                ) {
                    Ok(_) => {
                        let mut s = c.id.clone();
                        s.append(" ");
                        s.append(v.relation.as_str());
                        s.append("-edge (conf ");
                        s.append(v.shown.as_str());
                        s.append(")");
                        assert(a.actions =~= seq![s@]);
                        Ok(Some(s))
                    },
                    Err(e) => Err(e),
                }
            },
        }
    }

    /// Applies verdicts in order; a one-line summary of what was done, empty
    /// where nothing was. Stops at the first error, keeping what was done.
    pub fn apply_verdicts(
        &mut self,
        new_id: &str,
        candidates: &Vec<Candidate>,
        verdicts: &Vec<Verdict>,
        cfg: &AdjudicateConfig,
        updates_queue_only: bool,
        ts: i64,
    ) -> (r: Result<String, String>)
        requires
            old(self).next_event + verdicts@.len() <= i64::MAX,
            old(self).next_conflict + verdicts@.len() <= i64::MAX,
        ensures
            ({
                let a = verdicts_applied(
                    old(self)@,
                    new_id@,
                    candidates_view(candidates@),
                    verdicts@,
                    cfg.auto_threshold,
                    cfg.queue_threshold,
                    updates_queue_only,
                    ts,
                );
                &&& final(self)@ == a.store
                &&& match r {
                    Ok(s) => a.error is None && s@ == joined(a.actions, "; "@),
                    Err(e) => a.error == Some(e@),
                }
            }),
    {
        let ghost start = self@;
        let ghost cs = candidates_view(candidates@);
        let mut actions: Vec<String> = Vec::new();
        let mut i: usize = 0;
        assert(verdicts@.take(0).len() == 0);
        assert(texts(actions@) =~= Seq::<Seq<char>>::empty());
        while i < verdicts.len()
            invariant
                i <= verdicts@.len(),
                start == old(self)@,
                cs == candidates_view(candidates@),
                old(self).next_event + verdicts@.len() <= i64::MAX,
                old(self).next_conflict + verdicts@.len() <= i64::MAX,
                self@.next_event <= start.next_event + i,
                self@.next_conflict <= start.next_conflict + i,
                verdicts_applied(
                    start,
                    new_id@,
                    cs,
                    verdicts@.take(i as int),
                    cfg.auto_threshold,
                    cfg.queue_threshold,
                    updates_queue_only,
                    ts,
                ) == (AppliedV { store: self@, actions: texts(actions@), error: None }),
            decreases verdicts@.len() - i,
        {
            assert(verdicts@.take(i as int + 1).drop_last() =~= verdicts@.take(i as int));
            assert(verdicts@.take(i as int + 1).last() == verdicts@[i as int]);
            let ghost done = texts(actions@);
            match self.apply_verdict(
                new_id,
                candidates,
                &verdicts[i],
                cfg,
                updates_queue_only,
                ts,
            ) {
                Ok(Some(s)) => {
                    proof {
                        lemma_texts_push(actions@, s);
                        assert(done.push(s@) =~= done + seq![s@]);
                    }
                    actions.push(s);
                },
                Ok(None) => {
                    assert(done + Seq::<Seq<char>>::empty() =~= done);
                    assert(verdict_applied(
                        verdicts_applied(
                            start,
                            new_id@,
                            cs,
                            verdicts@.take(i as int),
                            cfg.auto_threshold,
                            cfg.queue_threshold,
                            updates_queue_only,
                            ts,
                        ).store,
                        new_id@,
                        cs,
                        verdicts@[i as int],
                        cfg.auto_threshold,
                        cfg.queue_threshold,
                        updates_queue_only,
                        ts,
                    ).actions =~= Seq::<Seq<char>>::empty());
                },
                Err(e) => {
                    proof {
                        lemma_verdict_error_stays(
                            start,
                            new_id@,
                            cs,
                            verdicts@,
                            cfg.auto_threshold,
                            cfg.queue_threshold,
                            updates_queue_only,
                            ts,
                            i as int + 1,
                        );
                    }
                    return Err(e);
                },
            }
            i = i + 1;
        }
        assert(verdicts@.take(i as int) =~= verdicts@);
        Ok(join(&actions, "; "))
    }
}

/// What a verdict would do in a trial, if anything.
pub open spec fn proposal(v: Verdict, cs: Seq<CandidateV>, auto: Rank, queue: Rank) -> Option<
    Seq<char>,
> {
    match judged(v, cs) {
        None => None,
        Some(c) => {
            let rel = v.relation@;
            let tail = c.id + " ("@ + rel + ", conf "@ + v.shown_raw@ + ": "@ + v.rationale@
                + ")"@;
            if rel == "corrects"@ && v.confidence.key >= auto.key {
                Some("would-edge "@ + tail)
            } else if (rel == "corrects"@ || rel == "updates"@ || rel == "duplicate"@)
                && v.confidence.key >= queue.key {
                Some("would-queue "@ + tail)
            } else {
                None
            }
        },
    }
}

/// What verdicts would do in a trial.
pub open spec fn proposals(vs: Seq<Verdict>, cs: Seq<CandidateV>, auto: Rank, queue: Rank) -> Seq<
    Seq<char>,
>
    decreases vs.len(),
{
    if vs.len() == 0 {
        Seq::empty()
    } else {
        let init = proposals(vs.drop_last(), cs, auto, queue);
        match proposal(vs.last(), cs, auto, queue) {
            Some(p) => init.push(p),
            None => init,
        }
    }
}

/// Shows what verdicts would do, and does nothing.
pub fn format_dry_run_proposals(
    candidates: &Vec<Candidate>,
    verdicts: &Vec<Verdict>,
    cfg: &AdjudicateConfig,
) -> (r: String)
    ensures
        r@ == joined(
            proposals(
                verdicts@,
                candidates_view(candidates@),
                cfg.auto_threshold,
                cfg.queue_threshold,
            ),
            "; "@,
        ),
{
    let ghost cs = candidates_view(candidates@);
    let mut out: Vec<String> = Vec::new();
    let mut i: usize = 0;
    assert(texts(out@) =~= proposals(
        verdicts@.take(0),
        cs,
        cfg.auto_threshold,
        cfg.queue_threshold,
    ));
    while i < verdicts.len()
        invariant
            i <= verdicts@.len(),
            cs == candidates_view(candidates@),
            texts(out@) == proposals(
                verdicts@.take(i as int),
                cs,
                cfg.auto_threshold,
                cfg.queue_threshold,
            ),
        decreases verdicts@.len() - i,
    {
        assert(verdicts@.take(i as int + 1).drop_last() =~= verdicts@.take(i as int));
        assert(verdicts@.take(i as int + 1).last() == verdicts@[i as int]);
        let v = &verdicts[i];
        if 1 <= v.candidate && v.candidate <= candidates.len() {
            let c = &candidates[v.candidate - 1];
            assert(cs[v.candidate - 1] == c@);
            let corrects = same(v.relation.as_str(), "corrects");
            let action = if corrects && v.confidence.key >= cfg.auto_threshold.key {
                "would-edge "
            } else if (corrects || same(v.relation.as_str(), "updates") || same(
                v.relation.as_str(),
                "duplicate",
            )) && v.confidence.key >= cfg.queue_threshold.key {
                "would-queue "
            } else {
                ""
            };
            proof {
                reveal_strlit("");
                reveal_strlit("would-edge ");
                reveal_strlit("would-queue ");
            }
            if !action.is_empty() {
                let mut tail = c.id.clone();
                tail.append(" (");
                tail.append(v.relation.as_str());
                tail.append(", conf ");
                tail.append(v.shown_raw.as_str());
                tail.append(": ");
                tail.append(v.rationale.as_str());
                tail.append(")");
                let mut s = action.to_owned();
                s.append(tail.as_str());
                proof {
                    lemma_texts_push(out@, s);
                }
                out.push(s);
            }
        }
        i = i + 1;
    }
    assert(verdicts@.take(i as int) =~= verdicts@);
    join(&out, "; ")
}

/// In a sweep, where updates are only queued, a memory is superseded by a
/// correction alone; and never without the model being as sure as asked.
pub proof fn law_sweep_never_supersedes_by_update(
    relation: Seq<char>,
    lifecycle: Seq<char>,
    conf: Rank,
    auto: Rank,
    queue: Rank,
)
    requires
        ruling(relation, lifecycle, conf, auto, queue, true) == Ruling::Edge,
    ensures
        relation == "corrects"@,
        conf.key >= auto.key,
        lifecycle == "active"@,
{
}

/// A memory that is no longer in force is never superseded again by a verdict.
pub proof fn law_zombie_is_flagged(
    relation: Seq<char>,
    lifecycle: Seq<char>,
    conf: Rank,
    auto: Rank,
    queue: Rank,
    only: bool,
)
    requires
        lifecycle != "active"@,
    ensures
        ruling(relation, lifecycle, conf, auto, queue, only) != Ruling::Edge,
        relation == "corrects"@ || relation == "updates"@ ==> ruling(
            relation,
            lifecycle,
            conf,
            auto,
            queue,
            only,
        ) == Ruling::Zombie,
{
}

/// The words that mark a correction written into a memory's text, in small
/// letters.
pub open spec fn prose_markers() -> Seq<Seq<char>> {
    seq![
        "corrected"@,
        "supersedes"@,
        "superseded"@,
        "obsolete"@,
        "deprecated"@,
        "no longer true"@,
    ]
}

/// The words that mark a correction.
fn read_prose_markers() -> (r: Vec<String>)
    ensures
        texts(r@) == prose_markers(),
{
    let mut v: Vec<String> = Vec::new();
    v.push("corrected".to_string());
    v.push("supersedes".to_string());
    v.push("superseded".to_string());
    v.push("obsolete".to_string());
    v.push("deprecated".to_string());
    v.push("no longer true".to_string());
    assert(texts(v@) =~= prose_markers());
    v
}

/// The test for one mark in a statement.
pub open spec fn marker_test(m: Seq<char>) -> Seq<char> {
    "instr(lower(content), '"@ + m + "') > 0 OR instr(lower(name), '"@ + m + "') > 0"@
}

/// The statement fragment that finds marked memories, in whatever case.
pub fn prose_marker_clause() -> (r: String)
    ensures
        r@ == joined(prose_markers().map_values(|m: Seq<char>| marker_test(m)), " OR "@),
{
    let ms = read_prose_markers();
    let mut out: Vec<String> = Vec::new();
    let mut i: usize = 0;
    while i < ms.len()
        invariant
            i <= ms@.len(),
            out@.len() == i,
            forall|k: int| 0 <= k < i ==> (#[trigger] out@[k])@ == marker_test(ms@[k]@),
        decreases ms@.len() - i,
    {
        let mut t = "instr(lower(content), '".to_string();
        t.append(ms[i].as_str());
        t.append("') > 0 OR instr(lower(name), '");
        t.append(ms[i].as_str());
        t.append("') > 0");
        out.push(t);
        i = i + 1;
    }
    assert(texts(out@) =~= prose_markers().map_values(|m: Seq<char>| marker_test(m)));
    join(&out, " OR ")
}

/// Whether a memory's text marks a correction.
pub open spec fn marked(m: MemoryV) -> bool {
    exists|i: int|
        0 <= i < prose_markers().len() && (contains(
            ascii_lower(m.content),
            #[trigger] prose_markers()[i],
        ) || contains(ascii_lower(m.name), prose_markers()[i]))
}

/// Decides [`marked`].
pub fn is_marked(m: &Memory) -> (r: bool)
    ensures
        r == marked(m@),
{
    let ms = read_prose_markers();
    let content = to_ascii_lower(m.content.as_str());
    let name = to_ascii_lower(m.name.as_str());
    let ghost marks = prose_markers();
    let mut i: usize = 0;
    while i < ms.len()
        invariant
            i <= ms@.len(),
            texts(ms@) == marks,
            marks == prose_markers(),
            content@ == ascii_lower(m@.content),
            name@ == ascii_lower(m@.name),
            forall|k: int|
                0 <= k < i ==> !(contains(content@, #[trigger] marks[k]) || contains(
                    name@,
                    marks[k],
                )),
        decreases ms@.len() - i,
    {
        assert(marks[i as int] == ms@[i as int]@);
        if crate::text::holds(content.as_str(), ms[i].as_str()) || crate::text::holds(
            name.as_str(),
            ms[i].as_str(),
        ) {
            return true;
        }
        i = i + 1;
    }
    false
}

/// How a sweep goes about.
#[derive(Debug)]
pub struct SweepOpts {
    /// Only memories whose text marks a correction.
    pub prose_only: bool,
    /// Show what would be done, and do nothing.
    pub dry_run: bool,
    pub limit: Option<usize>,
    /// Go over memories again that were swept.
    pub force: bool,
}

/// The arguments of a sweep.
#[derive(Debug)]
pub struct SweepArgs {
    pub prose_only: bool,
    pub dry_run: bool,
    pub limit: Option<usize>,
    pub force: bool,
}

impl SweepArgs {
    /// The options that the arguments ask for.
    pub fn opts(&self) -> (r: SweepOpts)
        ensures
            r.prose_only == self.prose_only,
            r.dry_run == self.dry_run,
            r.limit == self.limit,
            r.force == self.force,
    {
        SweepOpts {
            prose_only: self.prose_only,
            dry_run: self.dry_run,
            limit: self.limit,
            force: self.force,
        }
    }
}

/// Whether a sweep takes a memory: one in force, marked where only marked ones
/// are wanted, and not swept before unless forced.
pub open spec fn sweeps(
    m: MemoryV,
    prose_only: bool,
    force: bool,
    swept: Seq<Seq<char>>,
) -> bool {
    m.in_force() && (prose_only ==> marked(m)) && (force || !listed(swept, m.id))
}

/// The positions of the memories that a sweep takes, in stored order.
pub open spec fn swept_positions(
    ms: Seq<MemoryV>,
    prose_only: bool,
    force: bool,
    swept: Seq<Seq<char>>,
) -> Seq<int>
    decreases ms.len(),
{
    if ms.len() == 0 {
        Seq::empty()
    } else {
        let init = swept_positions(ms.drop_last(), prose_only, force, swept);
        if sweeps(ms.last(), prose_only, force, swept) {
            init.push(ms.len() - 1)
        } else {
            init
        }
    }
}

/// By what a sweep orders the memories it takes: marked ones first, the newest
/// first among each.
pub open spec fn sweep_key(m: MemoryV) -> (i64, i64) {
    (
        if marked(m) {
            1i64
        } else {
            0i64
        },
        m.updated_at,
    )
}

/// A limit, or what stands in for it.
pub open spec fn limit_or(limit: Option<usize>, all: nat) -> nat {
    match limit {
        Some(n) => n as nat,
        None => all,
    }
}

/// The keys of the memories at some positions.
pub open spec fn sweep_keys(ms: Seq<MemoryV>, at: Seq<int>) -> Seq<(i64, i64)> {
    at.map_values(|i: int| sweep_key(ms[i]))
}

/// The ids of the memories at some positions.
pub open spec fn ids_at(ms: Seq<MemoryV>, at: Seq<int>) -> Seq<Seq<char>> {
    at.map_values(|i: int| ms[i].id)
}

impl Store {
    /// The ids that a sweep goes over, in order, cut to the limit.
    pub fn sweep_seeds(&self, opts: &SweepOpts, swept: &Vec<String>) -> (r: Vec<String>)
        ensures
            ({
                let at = swept_positions(
                    self@.memories,
                    opts.prose_only,
                    opts.force,
                    texts(swept@),
                );
                exists|order: Seq<usize>|
                    is_order(sweep_keys(self@.memories, at), order) && texts(r@)
                        == #[trigger] first_of(
                        ids_at(self@.memories, at),
                        order,
                        limit_or(opts.limit, at.len()),
                    )
            }),
    {
        let ghost ms = self@.memories;
        let ghost sw = texts(swept@);
        let mut ids: Vec<String> = Vec::new();
        let mut keys: Vec<(i64, i64)> = Vec::new();
        let mut i: usize = 0;
        let ghost mut at: Seq<int> = Seq::empty();
        assert(at =~= swept_positions(ms.take(0), opts.prose_only, opts.force, sw));
        while i < self.memories.len()
            invariant
                ms == self@.memories,
                sw == texts(swept@),
                i <= self.memories@.len(),
                at == swept_positions(ms.take(i as int), opts.prose_only, opts.force, sw),
                forall|k: int| 0 <= k < at.len() ==> 0 <= #[trigger] at[k] < i,
                ids@.len() == at.len(),
                keys@.len() == at.len(),
                forall|k: int| 0 <= k < at.len() ==> (#[trigger] ids@[k])@ == ms[at[k]].id,
                forall|k: int| 0 <= k < at.len() ==> #[trigger] keys@[k] == sweep_key(ms[at[k]]),
            decreases self.memories@.len() - i,
        {
            let m = &self.memories[i];
            assert(ms.take(i as int + 1).drop_last() =~= ms.take(i as int));
            assert(ms.take(i as int + 1).last() == m@);
            assert(ms[i as int] == m@);
            let mark = is_marked(m);
            if m.is_in_force() && (!opts.prose_only || mark) && (opts.force || !is_listed(
                swept,
                m.id.as_str(),
            )) {
                ids.push(m.id.clone());
                keys.push(
                    (
                        if mark {
                            1i64
                        } else {
                            0i64
                        },
                        m.updated_at,
                    ),
                );
                proof {
                    at = at.push(i as int);
                }
            }
            i = i + 1;
        }
        assert(ms.take(i as int) =~= ms);
        let ghost sorted_keys = sweep_keys(ms, at);
        assert(keys@ =~= sorted_keys);
        let order = order_desc(&keys);
        let n: usize = match opts.limit {
            Some(l) => if l < order.len() {
                l
            } else {
                order.len()
            },
            None => order.len(),
        };
        let mut out: Vec<String> = Vec::new();
        let mut k: usize = 0;
        while k < n
            invariant
                k <= n <= order@.len(),
                is_order(keys@, order@),
                keys@.len() == ids@.len(),
                out@.len() == k,
                forall|x: int| 0 <= x < k ==> (#[trigger] out@[x])@ == ids@[order@[x] as int]@,
            decreases n - k,
        {
            out.push(ids[order[k]].clone());
            k = k + 1;
        }
        assert(texts(out@) =~= first_of(
            ids_at(ms, at),
            order@,
            limit_or(opts.limit, at.len()),
        ));
        out
    }
}

/// The word by which a summary shows what was queued.
pub open spec fn queue_word(dry_run: bool) -> Seq<char> {
    if dry_run {
        "would-queue"@
    } else {
        "queued"@
    }
}

/// The word by which a summary shows what was queued.
pub fn queue_label(dry_run: bool) -> (r: &'static str)
    ensures
        r@ == queue_word(dry_run),
{
    if dry_run {
        "would-queue"
    } else {
        "queued"
    }
}

/// What a sweep has done so far.
#[derive(Debug)]
pub struct SweepTally {
    pub edges: usize,
    pub queued: usize,
    pub errors: usize,
}

impl SweepTally {
    /// Nothing done yet.
    pub fn new() -> (r: SweepTally)
        ensures
            r.edges == 0 && r.queued == 0 && r.errors == 0,
    {
        SweepTally { edges: 0, queued: 0, errors: 0 }
    }

    /// Counts the summary of one memory by the words of its mode.
    pub fn count(&mut self, summary: &str, dry_run: bool)
        requires
            old(self).edges + count_of(summary@, "-edge"@, 0) <= usize::MAX,
            old(self).queued + count_of(summary@, queue_word(dry_run), 0) <= usize::MAX,
        ensures
            final(self).edges == old(self).edges + count_of(summary@, "-edge"@, 0),
            final(self).queued == old(self).queued + count_of(summary@, queue_word(dry_run), 0),
            final(self).errors == old(self).errors,
    {
        self.edges = self.edges + count_matches(summary, "-edge");
        self.queued = self.queued + count_matches(summary, queue_label(dry_run));
    }

    /// Counts a memory that could not be judged.
    pub fn count_error(&mut self)
        requires
            old(self).errors < usize::MAX,
        ensures
            final(self).edges == old(self).edges,
            final(self).queued == old(self).queued,
            final(self).errors == old(self).errors + 1,
    {
        self.errors = self.errors + 1;
    }

    /// The line at the end of a sweep.
    pub fn last_line(&self, seeds: usize) -> (r: String)
        ensures
            r@ == "sweep done: "@ + decimal(seeds as nat) + " seeds, "@ + decimal(
                self.edges as nat,
            ) + " edge(s), "@ + decimal(self.queued as nat) + " queued, "@ + decimal(
                self.errors as nat,
            ) + " error(s)"@,
    {
        let mut l = "sweep done: ".to_string();
        l.append(usize_text(seeds).as_str());
        l.append(" seeds, ");
        l.append(usize_text(self.edges).as_str());
        l.append(" edge(s), ");
        l.append(usize_text(self.queued).as_str());
        l.append(" queued, ");
        l.append(usize_text(self.errors).as_str());
        l.append(" error(s)");
        l
    }
}

/// The line at the start of a sweep.
pub fn sweep_first_line(seeds: usize, opts: &SweepOpts) -> (r: String)
    ensures
        r@ == (if seeds == 0 {
            "sweep: nothing to do (all candidate seeds already swept; --force to redo)"@
        } else {
            "sweep: "@ + decimal(seeds as nat) + " seed(s)"@ + (if opts.prose_only {
                " (prose-marked only)"@
            } else {
                ""@
            }) + (if opts.dry_run {
                " [DRY RUN]"@
            } else {
                ""@
            })
        }),
{
    if seeds == 0 {
        return "sweep: nothing to do (all candidate seeds already swept; --force to redo)".to_string();
    }
    let mut l = "sweep: ".to_string();
    l.append(usize_text(seeds).as_str());
    l.append(" seed(s)");
    l.append(
        if opts.prose_only {
            " (prose-marked only)"
        } else {
            ""
        },
    );
    l.append(
        if opts.dry_run {
            " [DRY RUN]"
        } else {
            ""
        },
    );
    l
}

} // verus!
