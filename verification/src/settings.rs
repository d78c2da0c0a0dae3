//! Settings: the environment and the configuration file as plain values, and
//! how one setting is resolved from them.
use crate::text::{
    cut, drop_any, ends, has_prefix, has_suffix, lines, opt_text, same, skip_any, split_char,
    split_lines, split_on, split_once, starts, texts, trim, trim_end_any, trim_start_any, trimmed,
};
use vstd::prelude::*;

verus! {

/// The environment variables of a process and the text of its configuration
/// file, where that could be read.
#[derive(Debug, Clone)]
pub struct Settings {
    pub env: Vec<(String, String)>,
    pub config: Option<String>,
}

/// What the settings are.
pub struct SettingsV {
    pub env: Seq<(Seq<char>, Seq<char>)>,
    pub config: Option<Seq<char>>,
}

impl View for Settings {
    type V = SettingsV;

    open spec fn view(&self) -> SettingsV {
        SettingsV {
            env: self.env@.map_values(|p: (String, String)| (p.0@, p.1@)),
            config: opt_text(self.config),
        }
    }
}

/// The value of the first variable with a name.
pub open spec fn env_lookup(env: Seq<(Seq<char>, Seq<char>)>, name: Seq<char>) -> Option<Seq<char>>
    decreases env.len(),
{
    if env.len() == 0 {
        None
    } else if env[0].0 == name {
        Some(env[0].1)
    } else {
        env_lookup(env.drop_first(), name)
    }
}

/// An optional text, where it is not empty.
pub open spec fn nonempty(o: Option<Seq<char>>) -> Option<Seq<char>> {
    match o {
        Some(s) if s.len() > 0 => Some(s),
        _ => None,
    }
}

/// The first of two optional texts that is there.
pub open spec fn either(a: Option<Seq<char>>, b: Option<Seq<char>>) -> Option<Seq<char>> {
    match a {
        Some(s) => Some(s),
        None => b,
    }
}

/// A configured value without its inline comment, the white space round it and
/// its quotes; nothing where no text is left.
pub open spec fn bare_value(v: Seq<char>) -> Option<Seq<char>> {
    let plain = trimmed(split_on(v, '#')[0]);
    nonempty(Some(drop_any(skip_any(plain, "\"'"@), "\"'"@)))
}

/// What the remaining lines give for a key, read with the section header
/// already met or not. Comments, empty lines and lines without `=` are passed
/// over; the first line that sets the key decides.
pub open spec fn scan(
    ls: Seq<Seq<char>>,
    inside: bool,
    header: Seq<char>,
    key: Seq<char>,
) -> Option<Seq<char>>
    decreases ls.len(),
{
    if ls.len() == 0 {
        None
    } else {
        let line = trimmed(ls[0]);
        let rest = ls.drop_first();
        if starts(line, "#"@) || line.len() == 0 {
            scan(rest, inside, header, key)
        } else if starts(line, "["@) && ends(line, "]"@) {
            scan(rest, line == header, header, key)
        } else if !inside {
            scan(rest, inside, header, key)
        } else {
            match cut(line, '=') {
                Some((k, v)) if trimmed(k) == key => bare_value(v),
                _ => scan(rest, inside, header, key),
            }
        }
    }
}

/// The value of a key in a section of a configuration text.
pub open spec fn config_value(content: Seq<char>, section: Seq<char>, key: Seq<char>) -> Option<
    Seq<char>,
> {
    scan(lines(content), false, "["@ + section + "]"@, key)
}

impl SettingsV {
    /// An environment variable.
    pub open spec fn var(self, name: Seq<char>) -> Option<Seq<char>> {
        env_lookup(self.env, name)
    }

    /// A value of the configuration file.
    pub open spec fn configured(self, section: Seq<char>, key: Seq<char>) -> Option<Seq<char>> {
        match self.config {
            Some(c) => config_value(c, section, key),
            None => None,
        }
    }

    /// A setting: the environment variable where it is set and not empty, else
    /// the configuration file's value.
    pub open spec fn setting(self, section: Seq<char>, key: Seq<char>, env: Seq<char>) -> Option<
        Seq<char>,
    > {
        either(nonempty(self.var(env)), self.configured(section, key))
    }
}

/// Reads a configured value.
fn read_bare(v: &str) -> (r: Option<String>)
    ensures
        opt_text(r) == bare_value(v@),
{
    let pieces = split_char(v, '#');
    assert(texts(pieces@)[0] == pieces@[0]@);
    let plain = trim(pieces[0].as_str());
    let s = trim_end_any(trim_start_any(plain.as_str(), "\"'").as_str(), "\"'");
    if s.as_str().is_empty() {
        None
    } else {
        Some(s)
    }
}

/// Reads the value of a key in a section of a configuration text: flat
/// `key = "value"` pairs under bracketed sections.
pub fn read_toml_value_from_str(content: &str, section: &str, key: &str) -> (r: Option<String>)
    ensures
        opt_text(r) == config_value(content@, section@, key@),
{
    let mut header = "[".to_string();
    header.append(section);
    header.append("]");
    let ls = split_lines(content);
    let ghost all = texts(ls@);
    let mut inside = false;
    let mut i: usize = 0;
    assert(all.skip(0) =~= all);
    while i < ls.len()
        invariant
            all == texts(ls@),
            i <= ls@.len(),
            config_value(content@, section@, key@) == scan(
                all.skip(i as int),
                inside,
                header@,
                key@,
            ),
        decreases ls@.len() - i,
    {
        assert(all.skip(i as int)[0] == ls@[i as int]@);
        assert(all.skip(i as int).drop_first() =~= all.skip(i as int + 1));
        let line = trim(ls[i].as_str());
        i = i + 1;
        if has_prefix(line.as_str(), "#") || line.as_str().is_empty() {
        } else if has_prefix(line.as_str(), "[") && has_suffix(line.as_str(), "]") {
            inside = same(line.as_str(), header.as_str());
        } else if inside {
            if let Some((k, v)) = split_once(line.as_str(), '=') {
                if same(trim(k.as_str()).as_str(), key) {
                    return read_bare(v.as_str());
                }
            }
        }
    }
    None
}

impl Settings {
    /// An environment variable.
    pub fn var(&self, name: &str) -> (r: Option<String>)
        ensures
            opt_text(r) == self@.var(name@),
    {
        let ghost all = self@.env;
        let mut i: usize = 0;
        assert(all.skip(0) =~= all);
        while i < self.env.len()
            invariant
                all == self@.env,
                i <= self.env@.len(),
                env_lookup(all, name@) == env_lookup(all.skip(i as int), name@),
            decreases self.env@.len() - i,
        {
            assert(all.skip(i as int)[0] == (self.env@[i as int].0@, self.env@[i as int].1@));
            assert(all.skip(i as int).drop_first() =~= all.skip(i as int + 1));
            if same(self.env[i].0.as_str(), name) {
                return Some(self.env[i].1.clone());
            }
            i = i + 1;
        }
        None
    }

    /// An environment variable that is not empty.
    pub fn nonempty_var(&self, name: &str) -> (r: Option<String>)
        ensures
            opt_text(r) == nonempty(self@.var(name@)),
    {
        match self.var(name) {
            Some(s) => if s.as_str().is_empty() {
                None
            } else {
                Some(s)
            },
            None => None,
        }
    }

    /// A value of the configuration file.
    pub fn read_config_toml_value(&self, section: &str, key: &str) -> (r: Option<String>)
        ensures
            opt_text(r) == self@.configured(section@, key@),
    {
        match &self.config {
            Some(c) => read_toml_value_from_str(c.as_str(), section, key),
            None => None,
        }
    }

    /// Resolves one setting: the environment variable overrides the
    /// configuration file.
    pub fn resolve_setting(&self, section: &str, key: &str, env: &str) -> (r: Option<String>)
        ensures
            opt_text(r) == self@.setting(section@, key@, env@),
    {
        match self.nonempty_var(env) {
            Some(s) => Some(s),
            None => self.read_config_toml_value(section, key),
        }
    }
}

/// An override in the environment wins over whatever the configuration file
/// says.
pub proof fn law_environment_overrides(
    s: SettingsV,
    section: Seq<char>,
    key: Seq<char>,
    env: Seq<char>,
    value: Seq<char>,
)
    requires
        s.var(env) == Some(value),
        value.len() > 0,
    ensures
        s.setting(section, key, env) == Some(value),
{
}

/// An empty variable counts as unset.
pub proof fn law_empty_variable_is_unset(
    s: SettingsV,
    section: Seq<char>,
    key: Seq<char>,
    env: Seq<char>,
)
    requires
        s.var(env) == Some(Seq::<char>::empty()),
    ensures
        s.setting(section, key, env) == s.configured(section, key),
{
}

/// Whether a trimmed line begins a section.
pub open spec fn is_section_line(line: Seq<char>) -> bool {
    starts(line, "["@) && ends(line, "]"@)
}

/// The lines of the sections with a header, that line included; what stands in
/// other sections and before the first one is left out. `inside` says whether
/// the lines begin in such a section.
pub open spec fn own_blocks(ls: Seq<Seq<char>>, inside: bool, header: Seq<char>) -> Seq<Seq<char>>
    decreases ls.len(),
{
    if ls.len() == 0 {
        Seq::empty()
    } else {
        let line = trimmed(ls[0]);
        let within = if is_section_line(line) {
            line == header
        } else {
            inside
        };
        let rest = own_blocks(ls.drop_first(), within, header);
        if within {
            seq![ls[0]] + rest
        } else {
            rest
        }
    }
}

/// What is left out gives nothing: inside a section the kept lines are read in
/// it, and outside it does not matter in which section they are read.
proof fn lemma_own_blocks(
    ls: Seq<Seq<char>>,
    inside: bool,
    read_inside: bool,
    header: Seq<char>,
    key: Seq<char>,
)
    requires
        inside ==> read_inside,
    ensures
        scan(own_blocks(ls, inside, header), read_inside, header, key) == scan(
            ls,
            inside,
            header,
            key,
        ),
    decreases ls.len(),
{
    if ls.len() > 0 {
        reveal_strlit("#");
        reveal_strlit("[");
        let line = trimmed(ls[0]);
        let rest = ls.drop_first();
        if is_section_line(line) {
            assert(line.subrange(0, 1)[0] == "["@[0]);
            assert(!starts(line, "#"@)) by {
                assert(line.subrange(0, 1)[0] != "#"@[0]);
            }
        }
        let within = if is_section_line(line) {
            line == header
        } else {
            inside
        };
        lemma_own_blocks(rest, within, within || read_inside, header, key);
        if within {
            lemma_own_blocks(rest, within, true, header, key);
            let kept = seq![ls[0]] + own_blocks(rest, within, header);
            assert(kept[0] == ls[0]);
            assert(kept.drop_first() =~= own_blocks(rest, within, header));
        } else {
            lemma_own_blocks(rest, within, read_inside, header, key);
        }
    }
}

/// Other sections never affect a value: a configuration text whose lines are
/// those of the section alone gives the same.
pub proof fn law_other_sections_do_not_matter(
    content: Seq<char>,
    own: Seq<char>,
    section: Seq<char>,
    key: Seq<char>,
)
    requires
        lines(own) == own_blocks(lines(content), false, "["@ + section + "]"@),
    ensures
        config_value(own, section, key) == config_value(content, section, key),
{
    lemma_own_blocks(lines(content), false, false, "["@ + section + "]"@, key);
}

/// Whether a text is there and no quote stands at either end of it.
pub open spec fn is_bare(v: Seq<char>) -> bool {
    v.len() > 0 && !is_quote(v[0]) && !is_quote(v.last())
}

/// Whether a character is a quote.
pub open spec fn is_quote(c: char) -> bool {
    c == '"' || c == '\''
}

/// Without its leading characters among some, a text begins with another.
proof fn lemma_skip_any(s: Seq<char>, cs: Seq<char>)
    ensures
        skip_any(s, cs).len() > 0 ==> !cs.contains(skip_any(s, cs)[0]),
    decreases s.len(),
{
    if s.len() > 0 && cs.contains(s[0]) {
        lemma_skip_any(s.drop_first(), cs);
    }
}

/// Without its trailing characters among some, a text begins as it did and ends
/// with another.
proof fn lemma_drop_any(s: Seq<char>, cs: Seq<char>)
    ensures
        drop_any(s, cs).len() > 0 ==> !cs.contains(drop_any(s, cs).last()) && drop_any(s, cs)[0]
            == s[0],
        drop_any(s, cs).len() <= s.len(),
    decreases s.len(),
{
    if s.len() > 0 && cs.contains(s.last()) {
        lemma_drop_any(s.drop_last(), cs);
    }
}

/// A configured value that is found is bare.
proof fn lemma_bare_value(v: Seq<char>)
    ensures
        bare_value(v) is Some ==> is_bare(bare_value(v)->0),
{
    let plain = trimmed(split_on(v, '#')[0]);
    let cs = "\"'"@;
    reveal_strlit("\"'");
    assert(cs[0] == '"' && cs[1] == '\'');
    lemma_skip_any(plain, cs);
    lemma_drop_any(skip_any(plain, cs), cs);
}

/// What lines give is bare.
proof fn lemma_scan_bare(ls: Seq<Seq<char>>, inside: bool, header: Seq<char>, key: Seq<char>)
    ensures
        scan(ls, inside, header, key) is Some ==> is_bare(scan(ls, inside, header, key)->0),
    decreases ls.len(),
{
    if ls.len() > 0 {
        let line = trimmed(ls[0]);
        lemma_scan_bare(ls.drop_first(), inside, header, key);
        lemma_scan_bare(ls.drop_first(), line == header, header, key);
        if let Some((k, v)) = cut(line, '=') {
            lemma_bare_value(v);
        }
    }
}

/// A value that a configuration text gives is not empty, and no quote stands at
/// either end of it.
pub proof fn law_value_found_is_bare(content: Seq<char>, section: Seq<char>, key: Seq<char>)
    ensures
        config_value(content, section, key) is Some ==> is_bare(
            config_value(content, section, key)->0,
        ),
{
    lemma_scan_bare(lines(content), false, "["@ + section + "]"@, key);
}

} // verus!
