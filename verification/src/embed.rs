//! Embedding: what text is embedded, how vectors are stored, which embedders
//! are configured, and how an embedding service's answers are judged.
use crate::json::{field, json_text, texts_json, Json, JsonObject, JsonV};
use crate::settings::{either, nonempty, Settings, SettingsV};
use crate::text::{
    byte_len, chars_of, clip, clipped, contains, count_fitting, decimal, fitting, holds, int_value,
    lemma_fitting, opt_text, parse_unsigned, same, slice_text, texts, usize_text,
};
use sha2::Digest;
use vstd::prelude::*;
use vstd::utf8::encode_utf8;

verus! {

/// The time to wait for an embedding service's answer, in milliseconds.
pub const DEFAULT_EMBED_TIMEOUT_MS: u64 = 8_000;

/// The time to wait for a connection, in milliseconds.
pub const CONNECT_TIMEOUT_MS: u64 = 5_000;

/// The most bytes that are embedded of one memory.
pub const EMBED_CHAR_LIMIT: usize = 24_000;

/// The SHA-256 digest of some bytes.
pub uninterp spec fn sha256_of(bytes: Seq<u8>) -> Seq<u8>;

/// `sha2::Sha256::digest`: the 32 bytes of the SHA-256 digest.
#[verifier::external_body]
fn sha256(bytes: &[u8]) -> (r: Vec<u8>)
    ensures
        r@ == sha256_of(bytes@),
        r@.len() == 32,
{
    sha2::Sha256::digest(bytes).to_vec()
}

/// The lower-case hexadecimal digit for a number below sixteen.
pub open spec fn hex_digit(n: nat) -> char {
    "0123456789abcdef"@[n as int]
}

/// Two hexadecimal digits for each byte.
pub open spec fn hex(bytes: Seq<u8>) -> Seq<char>
    decreases bytes.len(),
{
    if bytes.len() == 0 {
        Seq::empty()
    } else {
        hex(bytes.drop_last()).push(hex_digit((bytes.last() / 16) as nat)).push(
            hex_digit((bytes.last() % 16) as nat),
        )
    }
}

/// Writes bytes in hexadecimal.
fn hex_text(bytes: &Vec<u8>) -> (r: String)
    ensures
        r@ == hex(bytes@),
{
    let digits = chars_of("0123456789abcdef");
    proof {
        reveal_strlit("0123456789abcdef");
    }
    let mut out = String::new();
    let mut i: usize = 0;
    assert(out@ =~= hex(bytes@.take(0)));
    while i < bytes.len()
        invariant
            i <= bytes@.len(),
            digits@ == "0123456789abcdef"@,
            digits@.len() == 16,
            out@ == hex(bytes@.take(i as int)),
        decreases bytes@.len() - i,
    {
        assert(bytes@.take(i as int + 1).drop_last() =~= bytes@.take(i as int));
        let b: u8 = bytes[i];
        out.push(digits[(b / 16) as usize]);
        out.push(digits[(b % 16) as usize]);
        i = i + 1;
    }
    assert(bytes@.take(i as int) =~= bytes@);
    out
}

/// The hexadecimal SHA-256 digest of a text's UTF-8 bytes.
pub fn content_hash(text: &str) -> (r: String)
    ensures
        r@ == hex(sha256_of(encode_utf8(text@))),
{
    hex_text(&sha256(text.as_bytes()))
}

/// The four little-endian bytes of a word.
pub open spec fn le_bytes(x: u32) -> Seq<u8> {
    seq![
        (x % 256) as u8,
        ((x / 256) % 256) as u8,
        ((x / 65536) % 256) as u8,
        (x / 16777216) as u8,
    ]
}

/// The word of four little-endian bytes.
pub open spec fn le_word(a: u8, b: u8, c: u8, d: u8) -> u32 {
    (a + b * 256 + c * 65536 + d * 16777216) as u32
}

/// The bytes of a vector, given as the bit patterns of its components: four
/// little-endian bytes each.
pub open spec fn blob_of(v: Seq<u32>) -> Seq<u8>
    decreases v.len(),
{
    if v.len() == 0 {
        Seq::empty()
    } else {
        blob_of(v.drop_last()) + le_bytes(v.last())
    }
}

/// The bit patterns in a blob; bytes beyond the last whole component are left
/// out.
pub open spec fn vector_of(b: Seq<u8>) -> Seq<u32> {
    Seq::new(
        b.len() / 4,
        |i: int| le_word(b[4 * i], b[4 * i + 1], b[4 * i + 2], b[4 * i + 3]),
    )
}

/// Writes a vector's bit patterns as bytes.
pub fn f32_to_blob(v: &Vec<u32>) -> (r: Vec<u8>)
    ensures
        r@ == blob_of(v@),
{
    let mut out: Vec<u8> = Vec::new();
    let mut i: usize = 0;
    assert(out@ =~= blob_of(v@.take(0)));
    while i < v.len()
        invariant
            i <= v@.len(),
            out@ == blob_of(v@.take(i as int)),
        decreases v@.len() - i,
    {
        assert(v@.take(i as int + 1).drop_last() =~= v@.take(i as int));
        let x: u32 = v[i];
        let ghost before = out@;
        out.push((x % 256) as u8);
        out.push(((x / 256) % 256) as u8);
        out.push(((x / 65536) % 256) as u8);
        out.push((x / 16777216) as u8);
        assert(out@ =~= before + le_bytes(x));
        i = i + 1;
    }
    assert(v@.take(i as int) =~= v@);
    out
}

/// Reads a vector's bit patterns from bytes.
pub fn blob_to_f32(b: &Vec<u8>) -> (r: Vec<u32>)
    ensures
        r@ == vector_of(b@),
{
    let mut out: Vec<u32> = Vec::new();
    let len: usize = b.len();
    let n: usize = len / 4;
    let mut i: usize = 0;
    while i < n
        invariant
            len == b@.len(),
            n == len / 4,
            i <= n,
            out@.len() == i,
            forall|k: int|
                0 <= k < i ==> #[trigger] out@[k] == le_word(
                    b@[4 * k],
                    b@[4 * k + 1],
                    b@[4 * k + 2],
                    b@[4 * k + 3],
                ),
        decreases n - i,
    {
        assert(4 * i + 3 < b@.len());
        let word: u32 = b[4 * i] as u32 + b[4 * i + 1] as u32 * 256 + b[4 * i + 2] as u32 * 65536
            + b[4 * i + 3] as u32 * 16777216;
        out.push(word);
        i = i + 1;
    }
    assert(out@ =~= vector_of(b@));
    out
}

/// The bytes of a word read back as the word.
proof fn lemma_word_round_trip(x: u32)
    ensures
        le_word(le_bytes(x)[0], le_bytes(x)[1], le_bytes(x)[2], le_bytes(x)[3]) == x,
{
    assert(x == (x % 256) + ((x / 256) % 256) * 256 + ((x / 65536) % 256) * 65536 + (x / 16777216)
        * 16777216);
}

/// The byte at a position of a written vector.
proof fn lemma_blob_at(v: Seq<u32>, i: int)
    requires
        0 <= i < v.len(),
    ensures
        blob_of(v).len() == 4 * v.len(),
        blob_of(v).subrange(4 * i, 4 * i + 4) == le_bytes(v[i]),
    decreases v.len(),
{
    let init = v.drop_last();
    lemma_blob_len(init);
    if i == v.len() - 1 {
        assert(blob_of(v).subrange(4 * i, 4 * i + 4) =~= le_bytes(v[i]));
    } else {
        lemma_blob_at(init, i);
        assert(blob_of(v).subrange(4 * i, 4 * i + 4) =~= blob_of(init).subrange(4 * i, 4 * i + 4));
    }
}

/// A written vector takes four bytes for each component.
proof fn lemma_blob_len(v: Seq<u32>)
    ensures
        blob_of(v).len() == 4 * v.len(),
    decreases v.len(),
{
    if v.len() > 0 {
        lemma_blob_len(v.drop_last());
    }
}

/// A stored vector reads back as the vector that was written.
pub proof fn law_blob_round_trip(v: Seq<u32>)
    ensures
        vector_of(blob_of(v)) == v,
{
    lemma_blob_len(v);
    let b = blob_of(v);
    assert forall|i: int| 0 <= i < v.len() implies vector_of(b)[i] == v[i] by {
        lemma_blob_at(v, i);
        lemma_word_round_trip(v[i]);
        let s = b.subrange(4 * i, 4 * i + 4);
        assert(s[0] == b[4 * i] && s[1] == b[4 * i + 1] && s[2] == b[4 * i + 2] && s[3] == b[4 * i
            + 3]);
    }
    assert(vector_of(b) =~= v);
}

/// The text that is embedded for a memory: name and description, then as much
/// of the content as keeps the whole within the limit, cut between characters.
pub open spec fn embed_text(name: Seq<char>, description: Seq<char>, content: Seq<char>) -> Seq<
    char,
> {
    let header = name + "\n\n"@ + description + "\n\n"@;
    let budget: nat = if byte_len(header) >= EMBED_CHAR_LIMIT {
        0
    } else {
        (EMBED_CHAR_LIMIT - byte_len(header)) as nat
    };
    header + content.take(fitting(content, budget) as int)
}

/// Builds the text that is embedded for a memory.
pub fn memory_embed_text(name: &str, description: &str, content: &str) -> (r: String)
    ensures
        r@ == embed_text(name@, description@, content@),
{
    let mut header = name.to_owned();
    header.append("\n\n");
    header.append(description);
    header.append("\n\n");
    let hv = chars_of(header.as_str());
    let (k, used) = count_fitting(&hv, EMBED_CHAR_LIMIT);
    proof {
        lemma_fitting(hv@, EMBED_CHAR_LIMIT as nat);
        assert(k == hv@.len() ==> hv@.take(k as int) =~= hv@);
    }
    let budget: usize = if k < hv.len() {
        0
    } else {
        EMBED_CHAR_LIMIT - used
    };
    let cv = chars_of(content);
    let (fit, _) = count_fitting(&cv, budget);
    assert(cv@.subrange(0, fit as int) =~= cv@.take(fit as int));
    header.append(slice_text(&cv, 0, fit).as_str());
    header
}

/// A memory within the limit is embedded whole.
pub proof fn law_short_memory_embedded_whole(
    name: Seq<char>,
    description: Seq<char>,
    content: Seq<char>,
)
    requires
        byte_len(name + "\n\n"@ + description + "\n\n"@) + byte_len(content) <= EMBED_CHAR_LIMIT,
    ensures
        embed_text(name, description, content) == name + "\n\n"@ + description + "\n\n"@ + content,
{
    let header = name + "\n\n"@ + description + "\n\n"@;
    let budget = (EMBED_CHAR_LIMIT - byte_len(header)) as nat;
    lemma_fitting(content, budget);
    assert(content.take(content.len() as int) =~= content);
    if byte_len(header) >= EMBED_CHAR_LIMIT {
        lemma_fitting(content, 0);
    }
}

/// Whatever is embedded starts with the name and description and goes on with
/// a prefix of the content of no more bytes than the limit leaves.
pub proof fn law_embedded_part_is_a_prefix(
    name: Seq<char>,
    description: Seq<char>,
    content: Seq<char>,
)
    ensures
        ({
            let header = name + "\n\n"@ + description + "\n\n"@;
            let tail = embed_text(name, description, content).skip(header.len() as int);
            &&& embed_text(name, description, content).take(header.len() as int) == header
            &&& tail.len() <= content.len() && tail == content.take(tail.len() as int)
            &&& byte_len(header) <= EMBED_CHAR_LIMIT ==> byte_len(header) + byte_len(tail)
                <= EMBED_CHAR_LIMIT
        }),
{
    let header = name + "\n\n"@ + description + "\n\n"@;
    let budget: nat = if byte_len(header) >= EMBED_CHAR_LIMIT {
        0
    } else {
        (EMBED_CHAR_LIMIT - byte_len(header)) as nat
    };
    lemma_fitting(content, budget);
    let part = content.take(fitting(content, budget) as int);
    let whole = embed_text(name, description, content);
    assert(whole.take(header.len() as int) =~= header);
    assert(whole.skip(header.len() as int) =~= part);
    assert(part =~= content.take(part.len() as int));
}

/// A deterministic embedder without any meaning, for wiring and schema tests.
#[derive(Debug, Clone)]
pub struct MockEmbedder {
    pub dims: usize,
}

/// The little-endian half words of some bytes.
pub open spec fn half_words(b: Seq<u8>) -> Seq<u16> {
    Seq::new(b.len() / 2, |i: int| (b[2 * i] + b[2 * i + 1] * 256) as u16)
}

/// The digests of a text with a counter behind it, from zero up to `n`, as half
/// words.
pub open spec fn mock_stream(text: Seq<char>, n: nat) -> Seq<u16>
    decreases n,
{
    if n == 0 {
        Seq::empty()
    } else {
        mock_stream(text, (n - 1) as nat) + half_words(
            sha256_of(encode_utf8(text) + le_bytes((n - 1) as u32)),
        )
    }
}

/// The half words of one digest.
fn read_half_words(b: &Vec<u8>) -> (r: Vec<u16>)
    ensures
        r@ == half_words(b@),
{
    let mut out: Vec<u16> = Vec::new();
    let len: usize = b.len();
    let n: usize = len / 2;
    let mut i: usize = 0;
    while i < n
        invariant
            len == b@.len(),
            n == len / 2,
            i <= n,
            out@.len() == i,
            forall|k: int|
                0 <= k < i ==> #[trigger] out@[k] == (b@[2 * k] + b@[2 * k + 1] * 256) as u16,
        decreases n - i,
    {
        assert(2 * i + 1 < b@.len());
        let half: u16 = (b[2 * i] as u32 + b[2 * i + 1] as u32 * 256) as u16;
        out.push(half);
        i = i + 1;
    }
    assert(out@ =~= half_words(b@));
    out
}

impl MockEmbedder {
    /// The embedder of 128 components.
    pub fn new() -> (r: Self)
        ensures
            r.dims == 128,
    {
        MockEmbedder { dims: 128 }
    }

    /// The name under which its vectors are stored.
    pub fn model_id(&self) -> (r: &str)
        ensures
            r@ == "mock-hash-128"@,
    {
        "mock-hash-128"
    }

    /// The samples behind a text's components, from 0 to 65535 each: the first
    /// `dims` half words of the digests of the text with a running counter.
    pub fn samples(&self, text: &str) -> (r: Vec<u16>)
        requires
            self.dims <= 16 * 0xffff_ffffint,
        ensures
            r@.len() == self.dims,
            r@ == mock_stream(text@, ((self.dims + 15) / 16) as nat).take(self.dims as int),
    {
        let rounds: usize = self.dims / 16 + (if self.dims % 16 > 0 {
            1usize
        } else {
            0usize
        });
        let mut out: Vec<u16> = Vec::new();
        let mut counter: u32 = 0;
        assert(out@ =~= mock_stream(text@, 0));
        while (counter as usize) < rounds
            invariant
                counter <= rounds,
                rounds <= 0xffff_ffff,
                out@ == mock_stream(text@, counter as nat),
                out@.len() == 16 * counter,
            decreases rounds - counter,
        {
            let mut input: Vec<u8> = Vec::new();
            let bytes = text.as_bytes();
            let mut i: usize = 0;
            while i < bytes.len()
                invariant
                    i <= bytes@.len(),
                    input@ == bytes@.take(i as int),
                decreases bytes@.len() - i,
            {
                input.push(bytes[i]);
                i = i + 1;
                assert(input@ =~= bytes@.take(i as int));
            }
            assert(input@ =~= encode_utf8(text@));
            let mut count: Vec<u32> = Vec::new();
            count.push(counter);
            let mut tail = f32_to_blob(&count);
            assert(count@.drop_last() =~= Seq::<u32>::empty());
            assert(blob_of(count@.drop_last()) =~= Seq::<u8>::empty());
            assert(tail@ =~= le_bytes(counter));
            input.append(&mut tail);
            assert(input@ =~= encode_utf8(text@) + le_bytes(counter));
            let digest = sha256(input.as_slice());
            let mut halves = read_half_words(&digest);
            out.append(&mut halves);
            counter = counter + 1;
        }
        let ghost full = out@;
        out.truncate(self.dims);
        assert(out@ =~= full.take(self.dims as int));
        out
    }
}

/// An embedder behind an OpenAI-compatible `/embeddings` endpoint.
#[derive(Debug, Clone)]
pub struct OpenRouterEmbedder {
    pub api_key: String,
    pub model: String,
    pub base_url: String,
    pub dims: usize,
    pub timeout_ms: u64,
}

/// What such an embedder is.
pub struct EmbedderV {
    pub api_key: Seq<char>,
    pub model: Seq<char>,
    pub base_url: Seq<char>,
    pub dims: nat,
    pub timeout_ms: nat,
}

impl View for OpenRouterEmbedder {
    type V = EmbedderV;

    open spec fn view(&self) -> EmbedderV {
        EmbedderV {
            api_key: self.api_key@,
            model: self.model@,
            base_url: self.base_url@,
            dims: self.dims as nat,
            timeout_ms: self.timeout_ms as nat,
        }
    }
}

/// A text, or what stands in for it.
pub open spec fn text_or(o: Option<Seq<char>>, default: Seq<char>) -> Seq<char> {
    match o {
        Some(s) => s,
        None => default,
    }
}

/// An unsigned number of at most `max`, or what stands in for it where the
/// text is missing or is no such number.
pub open spec fn number_or(o: Option<Seq<char>>, max: nat, default: nat) -> nat {
    match o {
        Some(s) => match int_value(s) {
            Some(n) if n <= max && s[0] != '-' => n as nat,
            _ => default,
        },
        None => default,
    }
}

/// The API key: the environment's, else the configuration's, else a
/// placeholder where the endpoint is not OpenRouter and asks for none.
pub open spec fn key_for(s: SettingsV, base_url: Seq<char>) -> Option<Seq<char>> {
    either(
        either(nonempty(s.var("OPENROUTER_API_KEY"@)), s.configured("openrouter"@, "api_key"@)),
        if contains(base_url, "openrouter"@) {
            None
        } else {
            Some("unused"@)
        },
    )
}

/// The embedder that a configuration section describes; none where an API key
/// is needed and missing.
pub open spec fn embedder_of(
    s: SettingsV,
    section: Seq<char>,
    prefix: Seq<char>,
    base: Seq<char>,
    model: Seq<char>,
    dims: nat,
) -> Option<EmbedderV> {
    let base_url = text_or(s.setting(section, "base_url"@, prefix + "_BASE_URL"@), base);
    match key_for(s, base_url) {
        None => None,
        Some(api_key) => Some(
            EmbedderV {
                api_key,
                model: text_or(s.setting(section, "model"@, prefix + "_MODEL"@), model),
                base_url,
                dims: number_or(
                    s.setting(section, "dims"@, prefix + "_DIMS"@),
                    usize::MAX as nat,
                    dims,
                ),
                timeout_ms: number_or(
                    s.setting(section, "timeout_ms"@, prefix + "_TIMEOUT_MS"@),
                    u64::MAX as nat,
                    DEFAULT_EMBED_TIMEOUT_MS as nat,
                ),
            },
        ),
    }
}

/// The primary embedder.
pub open spec fn primary_embedder(s: SettingsV) -> Option<EmbedderV> {
    embedder_of(
        s,
        "embed"@,
        "AGENT_EMBED"@,
        "https://openrouter.ai/api/v1"@,
        "baai/bge-large-en-v1.5"@,
        1024,
    )
}

/// The fallback embedder; none unless its section is configured.
pub open spec fn fallback_embedder(s: SettingsV) -> Option<EmbedderV> {
    if s.setting("embed.fallback"@, "base_url"@, "AGENT_EMBED_FALLBACK_BASE_URL"@) is None
        && s.setting("embed.fallback"@, "model"@, "AGENT_EMBED_FALLBACK_MODEL"@) is None {
        None
    } else {
        embedder_of(
            s,
            "embed.fallback"@,
            "AGENT_EMBED_FALLBACK"@,
            "https://openrouter.ai/api/v1"@,
            "openai/text-embedding-3-small"@,
            1536,
        )
    }
}

/// What an optional embedder is.
pub open spec fn opt_embedder(o: Option<OpenRouterEmbedder>) -> Option<EmbedderV> {
    match o {
        Some(e) => Some(e@),
        None => None,
    }
}

/// Reads a text or takes the default.
fn or_text(o: Option<String>, default: &str) -> (r: String)
    ensures
        r@ == text_or(opt_text(o), default@),
{
    match o {
        Some(s) => s,
        None => default.to_owned(),
    }
}

/// Reads a number or takes the default.
fn or_number(o: Option<String>, max: u64, default: u64) -> (r: u64)
    requires
        default <= max,
    ensures
        r == number_or(opt_text(o), max as nat, default as nat),
        r <= max,
{
    match o {
        Some(s) => match parse_unsigned(s.as_str(), max) {
            Some(n) => n,
            None => default,
        },
        None => default,
    }
}

/// A variable's name: the prefix and what follows it.
fn named(prefix: &str, tail: &str) -> (r: String)
    ensures
        r@ == prefix@ + tail@,
{
    let mut name = prefix.to_owned();
    name.append(tail);
    name
}

impl OpenRouterEmbedder {
    /// The primary embedder, from the `embed` section and the `AGENT_EMBED`
    /// variables.
    pub fn from_env(s: &Settings) -> (r: Option<Self>)
        ensures
            opt_embedder(r) == primary_embedder(s@),
    {
        Self::from_section(
            s,
            "embed",
            "AGENT_EMBED",
            "https://openrouter.ai/api/v1",
            "baai/bge-large-en-v1.5",
            1024,
        )
    }

    /// The fallback embedder, where its section gives a base URL or a model.
    pub fn fallback_from_config(s: &Settings) -> (r: Option<Self>)
        ensures
            opt_embedder(r) == fallback_embedder(s@),
    {
        let configured = s.resolve_setting(
            "embed.fallback",
            "base_url",
            "AGENT_EMBED_FALLBACK_BASE_URL",
        ).is_some() || s.resolve_setting(
            "embed.fallback",
            "model",
            "AGENT_EMBED_FALLBACK_MODEL",
        ).is_some();
        if !configured {
            return None;
        }
        Self::from_section(
            s,
            "embed.fallback",
            "AGENT_EMBED_FALLBACK",
            "https://openrouter.ai/api/v1",
            "openai/text-embedding-3-small",
            1536,
        )
    }

    /// An embedder from a configuration section and its variables.
    pub fn from_section(
        s: &Settings,
        section: &str,
        env_prefix: &str,
        default_base: &str,
        default_model: &str,
        default_dims: usize,
    ) -> (r: Option<Self>)
        ensures
            opt_embedder(r) == embedder_of(
                s@,
                section@,
                env_prefix@,
                default_base@,
                default_model@,
                default_dims as nat,
            ),
    {
        let model = or_text(
            s.resolve_setting(section, "model", named(env_prefix, "_MODEL").as_str()),
            default_model,
        );
        let dims: u64 = or_number(
            s.resolve_setting(section, "dims", named(env_prefix, "_DIMS").as_str()),
            usize::MAX as u64,
            default_dims as u64,
        );
        let base_url = or_text(
            s.resolve_setting(section, "base_url", named(env_prefix, "_BASE_URL").as_str()),
            default_base,
        );
        let timeout_ms: u64 = or_number(
            s.resolve_setting(section, "timeout_ms", named(env_prefix, "_TIMEOUT_MS").as_str()),
            u64::MAX,
            DEFAULT_EMBED_TIMEOUT_MS,
        );
        let api_key = match s.nonempty_var("OPENROUTER_API_KEY") {
            Some(k) => k,
            None => match read_openrouter_key(s) {
                Some(k) => k,
                None => {
                    if holds(base_url.as_str(), "openrouter") {
                        return None;
                    }
                    "unused".to_string()
                },
            },
        };
        Some(OpenRouterEmbedder { api_key, model, base_url, dims: dims as usize, timeout_ms })
    }

    /// The name under which its vectors are stored.
    pub fn model_id(&self) -> (r: &str)
        ensures
            r@ == self.model@,
    {
        self.model.as_str()
    }

    /// Where embeddings are asked for.
    pub fn request_url(&self) -> (r: String)
        ensures
            r@ == self.base_url@ + "/embeddings"@,
    {
        let mut url = self.base_url.clone();
        url.append("/embeddings");
        url
    }

    /// The body of a request for the embeddings of some texts.
    pub fn request_body(&self, inputs: &Vec<String>) -> (r: Json)
        ensures
            r.tree() == JsonV::Object(
                Map::empty().insert("model"@, JsonV::Str(self.model@)).insert(
                    "input"@,
                    texts_json(texts(inputs@)),
                ),
            ),
    {
        let mut o = JsonObject::new();
        o.insert_str("model", self.model.as_str());
        o.insert_texts("input", inputs);
        o.done()
    }

    /// The key to try once more with, after a failure with this embedder's own:
    /// the configured key, where the failure was an HTTP 401 and the configured
    /// key is another one.
    pub fn retry_key(&self, s: &Settings, failure: &str) -> (r: Option<String>)
        ensures
            opt_text(r) == (match s@.configured("openrouter"@, "api_key"@) {
                Some(k) if contains(failure@, "HTTP 401"@) && k != self.api_key@ => Some(k),
                _ => None,
            }),
    {
        if !holds(failure, "HTTP 401") {
            return None;
        }
        match read_openrouter_key(s) {
            Some(k) => if same(k.as_str(), self.api_key.as_str()) {
                None
            } else {
                Some(k)
            },
            None => None,
        }
    }

    /// Whether the first failure is the one to report after the second try failed
    /// too: where that was an HTTP 401 again, the key is revoked.
    pub fn first_failure_stands(&self, second: &str) -> (r: bool)
        ensures
            r == contains(second@, "HTTP 401"@),
    {
        holds(second, "HTTP 401")
    }

    /// A warning where the service's vectors are not as long as configured.
    pub fn dims_warning(&self, first_len: Option<usize>) -> (r: Option<String>)
        ensures
            opt_text(r) == (match first_len {
                Some(n) if n != self.dims => Some(
                    "warning: expected dims="@ + decimal(self.dims as nat) + " but got "@ + decimal(
                        n as nat,
                    ) + "; adjust AGENT_EMBED_DIMS"@,
                ),
                _ => None,
            }),
    {
        match first_len {
            Some(n) => {
                if n == self.dims {
                    return None;
                }
                let mut w = "warning: expected dims=".to_string();
                w.append(usize_text(self.dims).as_str());
                w.append(" but got ");
                w.append(usize_text(n).as_str());
                w.append("; adjust AGENT_EMBED_DIMS");
                Some(w)
            },
            None => None,
        }
    }
}

/// The configured OpenRouter key.
fn read_openrouter_key(s: &Settings) -> (r: Option<String>)
    ensures
        opt_text(r) == s@.configured("openrouter"@, "api_key"@),
{
    s.read_config_toml_value("openrouter", "api_key")
}

/// The failure for a refused request.
pub fn http_failure(code: u16, body: &str) -> (r: String)
    ensures
        r@ == "embedding API HTTP "@ + decimal(code as nat) + ": "@ + body@,
{
    let mut e = "embedding API HTTP ".to_string();
    e.append(usize_text(code as usize).as_str());
    e.append(": ");
    e.append(body);
    e
}

/// The error that a service reports in the body of an answer.
pub fn reported_error(raw: &Json) -> (r: Option<String>)
    ensures
        opt_text(r) == (match field(raw.tree(), "error"@) {
            Some(e) => Some("embedding API error: "@ + json_text(e)),
            None => None,
        }),
{
    match raw.get("error") {
        Some(e) => {
            let mut m = "embedding API error: ".to_string();
            m.append(e.text().as_str());
            Some(m)
        },
        None => None,
    }
}

/// The failure for an answer of another shape, with the start of what came.
pub fn unreadable_answer(raw: &Json) -> (r: String)
    ensures
        r@ == "parse embedding response (got: "@ + clipped(json_text(raw.tree()), 500) + ")"@,
{
    let mut m = "parse embedding response (got: ".to_string();
    m.append(clip(raw.text().as_str(), 500).as_str());
    m.append(")");
    m
}

/// The failure where a service returned another number of vectors than texts.
pub fn count_mismatch(wanted: usize, got: usize) -> (r: Option<String>)
    ensures
        opt_text(r) == (if wanted == got {
            None
        } else {
            Some("expected "@ + decimal(wanted as nat) + " embeddings, got "@ + decimal(got as nat))
        }),
{
    if wanted == got {
        return None;
    }
    let mut m = "expected ".to_string();
    m.append(usize_text(wanted).as_str());
    m.append(" embeddings, got ");
    m.append(usize_text(got).as_str());
    Some(m)
}

/// An embedder of the configured chain.
#[derive(Debug, Clone)]
pub enum ChainLink {
    Service(OpenRouterEmbedder),
    Mock(MockEmbedder),
}

/// What an embedder of the chain is.
pub enum LinkV {
    Service(EmbedderV),
    Mock(nat),
}

impl View for ChainLink {
    type V = LinkV;

    open spec fn view(&self) -> LinkV {
        match self {
            ChainLink::Service(e) => LinkV::Service(e@),
            ChainLink::Mock(m) => LinkV::Mock(m.dims as nat),
        }
    }
}

/// What a chain is.
pub open spec fn chain_view(v: Seq<ChainLink>) -> Seq<LinkV> {
    v.map_values(|l: ChainLink| l@)
}

/// One link for a configured embedder, none otherwise.
pub open spec fn link(o: Option<EmbedderV>) -> Seq<LinkV> {
    match o {
        Some(e) => seq![LinkV::Service(e)],
        None => Seq::empty(),
    }
}

/// The embedders to use, in order: the primary, then the fallback; the mock
/// where neither is configured.
pub open spec fn chain_of(s: SettingsV) -> Seq<LinkV> {
    let configured = link(primary_embedder(s)) + link(fallback_embedder(s));
    if configured.len() == 0 {
        seq![LinkV::Mock(128)]
    } else {
        configured
    }
}

/// The embedders to use, in order.
pub fn embedder_chain(s: &Settings) -> (r: Vec<ChainLink>)
    ensures
        chain_view(r@) == chain_of(s@),
{
    let mut chain: Vec<ChainLink> = Vec::new();
    assert(chain_view(chain@) =~= Seq::<LinkV>::empty());
    if let Some(e) = OpenRouterEmbedder::from_env(s) {
        chain.push(ChainLink::Service(e));
    }
    assert(chain_view(chain@) =~= link(primary_embedder(s@)));
    if let Some(e) = OpenRouterEmbedder::fallback_from_config(s) {
        let ghost before = chain@;
        chain.push(ChainLink::Service(e));
        assert(chain_view(chain@) =~= chain_view(before).push(LinkV::Service(e@)));
    }
    assert(chain_view(chain@) =~= link(primary_embedder(s@)) + link(fallback_embedder(s@)));
    if chain.len() == 0 {
        chain.push(ChainLink::Mock(MockEmbedder::new()));
        assert(chain_view(chain@) =~= seq![LinkV::Mock(128)]);
    }
    chain
}

/// The embedder for a single run: the primary, or the mock.
pub fn select_embedder(s: &Settings) -> (r: ChainLink)
    ensures
        r@ == (match primary_embedder(s@) {
            Some(e) => LinkV::Service(e),
            None => LinkV::Mock(128),
        }),
{
    match OpenRouterEmbedder::from_env(s) {
        Some(e) => ChainLink::Service(e),
        None => ChainLink::Mock(MockEmbedder::new()),
    }
}

/// There is always an embedder to try.
pub proof fn law_chain_is_never_empty(s: SettingsV)
    ensures
        chain_of(s).len() >= 1,
{
}

/// Whether a text has to be embedded anew: no vector is stored, or the one that
/// is was made of another text.
pub fn needs_embedding(stored_hash: &Option<String>, text: &str) -> (r: bool)
    ensures
        r == (opt_text(*stored_hash) != Some(hex(sha256_of(encode_utf8(text@))))),
{
    match stored_hash {
        Some(h) => !same(h.as_str(), content_hash(text).as_str()),
        None => true,
    }
}

} // verus!
