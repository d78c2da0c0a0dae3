//! A structured JSON catalog of a command tree: the machine-readable
//! description of a command-line surface that a tool layer builds on.
use crate::json::{texts_json, trees, Json, JsonObject, JsonV};
use crate::text::{is_listed, join, joined, listed, same, texts};
use vstd::prelude::*;

verus! {

/// What an argument does when it is met on a command line.
#[derive(Clone, Copy, Debug, PartialEq, Eq, Structural)]
pub enum ArgKind {
    Value,
    Values,
    SetTrue,
    SetFalse,
    Count,
    Help,
    HelpShort,
    HelpLong,
    Version,
}

/// One argument of a command.
pub struct ArgNode {
    pub id: String,
    pub long: Option<String>,
    pub short: Option<char>,
    pub positional: bool,
    pub required: bool,
    pub action: ArgKind,
    pub value_names: Vec<String>,
    pub help: Option<String>,
    pub possible_values: Vec<String>,
    pub defaults: Vec<String>,
}

/// One command with its arguments and the commands below it.
pub struct CommandNode {
    pub name: String,
    pub about: Option<String>,
    pub aliases: Vec<String>,
    pub args: Vec<ArgNode>,
    pub subcommands: Vec<CommandNode>,
}

/// Whether an argument is one of the help and version switches that every
/// command has.
pub open spec fn automatic(k: ArgKind) -> bool {
    k == ArgKind::Help || k == ArgKind::HelpShort || k == ArgKind::HelpLong || k == ArgKind::Version
}

impl ArgNode {
    /// Whether the argument is followed by a value.
    pub open spec fn valued(self) -> bool {
        self.action == ArgKind::Value || self.action == ArgKind::Values
    }

    /// The long flag with its dashes.
    pub open spec fn long_flag(self) -> Option<Seq<char>> {
        match self.long {
            Some(l) => Some("--"@ + l@),
            None => None,
        }
    }
}

/// A map with one more entry, where there is one.
pub open spec fn with_entry(
    m: Map<Seq<char>, JsonV>,
    key: Seq<char>,
    val: Option<JsonV>,
) -> Map<Seq<char>, JsonV> {
    match val {
        Some(v) => m.insert(key, v),
        None => m,
    }
}

/// A list of texts as an entry, where there are any.
pub open spec fn texts_entry(v: Seq<String>) -> Option<JsonV> {
    if v.len() > 0 {
        Some(texts_json(texts(v)))
    } else {
        None
    }
}

/// The catalog entry of an argument.
pub open spec fn arg_json(a: ArgNode) -> JsonV {
    let m = Map::empty().insert("name"@, JsonV::Str(a.id@));
    let m = with_entry(
        m,
        "long"@,
        match a.long_flag() {
            Some(l) => Some(JsonV::Str(l)),
            None => None,
        },
    );
    let m = with_entry(
        m,
        "short"@,
        match a.short {
            Some(c) => Some(JsonV::Str("-"@.push(c))),
            None => None,
        },
    );
    let m = m.insert("positional"@, JsonV::Bool(a.positional)).insert(
        "required"@,
        JsonV::Bool(a.required),
    ).insert("takes_value"@, JsonV::Bool(a.valued())).insert(
        "multiple"@,
        JsonV::Bool(a.action == ArgKind::Values),
    );
    let m = with_entry(
        m,
        "value_name"@,
        if a.value_names@.len() > 0 {
            Some(JsonV::Str(a.value_names@[0]@))
        } else {
            None
        },
    );
    let m = with_entry(
        m,
        "help"@,
        match a.help {
            Some(h) => Some(JsonV::Str(h@)),
            None => None,
        },
    );
    let m = with_entry(m, "possible_values"@, texts_entry(a.possible_values@));
    let m = with_entry(m, "default"@, texts_entry(a.defaults@));
    JsonV::Object(m)
}

/// The catalog entries of the arguments that are not automatic, in order.
pub open spec fn args_json(args: Seq<ArgNode>) -> Seq<JsonV>
    decreases args.len(),
{
    if args.len() == 0 {
        Seq::empty()
    } else if automatic(args.last().action) {
        args_json(args.drop_last())
    } else {
        args_json(args.drop_last()).push(arg_json(args.last()))
    }
}

/// The catalog entries of the commands below `path`, in order, without the
/// automatic `help` command.
pub open spec fn subcommands_json(cs: Seq<CommandNode>, path: Seq<char>) -> Seq<JsonV>
    decreases cs,
{
    if cs.len() == 0 {
        Seq::empty()
    } else {
        let init = subcommands_json(cs.drop_last(), path);
        let c = cs.last();
        if c.name@ == "help"@ {
            init
        } else {
            init.push(command_json(c, path + " "@ + c.name@))
        }
    }
}

/// The catalog entry of a command that is invoked as `path`.
pub open spec fn command_json(c: CommandNode, path: Seq<char>) -> JsonV
    decreases c,
{
    let args = args_json(c.args@);
    let subs = subcommands_json(c.subcommands@, path);
    let m = Map::empty().insert("name"@, JsonV::Str(c.name@)).insert("path"@, JsonV::Str(path));
    let m = match c.about {
        Some(a) => m.insert("summary"@, JsonV::Str(a@)).insert("about"@, JsonV::Str(a@)),
        None => m,
    };
    let m = with_entry(m, "aliases"@, texts_entry(c.aliases@));
    let m = m.insert("invokable"@, JsonV::Bool(subs.len() == 0));
    let m = if args.len() > 0 {
        m.insert("args"@, JsonV::Array(args))
    } else {
        m
    };
    let m = if subs.len() > 0 {
        m.insert("subcommands"@, JsonV::Array(subs))
    } else {
        m
    };
    JsonV::Object(m)
}

/// Whether an argument is automatic.
fn is_automatic(k: ArgKind) -> (r: bool)
    ensures
        r == automatic(k),
{
    k == ArgKind::Help || k == ArgKind::HelpShort || k == ArgKind::HelpLong || k == ArgKind::Version
}

/// Renders one argument.
pub fn arg_to_json(arg: &ArgNode) -> (r: Json)
    ensures
        r.tree() == arg_json(*arg),
{
    let takes_value = arg.action == ArgKind::Value || arg.action == ArgKind::Values;
    let mut obj = JsonObject::new();
    obj.insert_str("name", arg.id.as_str());
    if let Some(long) = &arg.long {
        let mut flag = "--".to_string();
        flag.append(long.as_str());
        obj.insert_str("long", flag.as_str());
    }
    if let Some(short) = &arg.short {
        let mut flag = "-".to_string();
        flag.push(*short);
        obj.insert_str("short", flag.as_str());
    }
    obj.insert_bool("positional", arg.positional);
    obj.insert_bool("required", arg.required);
    obj.insert_bool("takes_value", takes_value);
    obj.insert_bool("multiple", arg.action == ArgKind::Values);
    if arg.value_names.len() > 0 {
        obj.insert_str("value_name", arg.value_names[0].as_str());
    }
    if let Some(help) = &arg.help {
        obj.insert_str("help", help.as_str());
    }
    if arg.possible_values.len() > 0 {
        obj.insert_texts("possible_values", &arg.possible_values);
    }
    if arg.defaults.len() > 0 {
        obj.insert_texts("default", &arg.defaults);
    }
    obj.done()
}

/// Renders a command and everything below it.
pub fn command_to_json(cmd: &CommandNode, path: &str) -> (r: Json)
    ensures
        r.tree() == command_json(*cmd, path@),
    decreases cmd,
{
    let mut args: Vec<Json> = Vec::new();
    let mut i: usize = 0;
    assert(trees(args@) =~= args_json(cmd.args@.take(0)));
    while i < cmd.args.len()
        invariant
            i <= cmd.args@.len(),
            trees(args@) == args_json(cmd.args@.take(i as int)),
        decreases cmd.args@.len() - i,
    {
        assert(cmd.args@.take(i as int + 1).drop_last() =~= cmd.args@.take(i as int));
        if !is_automatic(cmd.args[i].action) {
            let j = arg_to_json(&cmd.args[i]);
            let ghost before = args@;
            args.push(j);
            assert(trees(args@) =~= trees(before).push(j.tree()));
        }
        i = i + 1;
    }
    assert(cmd.args@.take(i as int) =~= cmd.args@);

    let mut subs: Vec<Json> = Vec::new();
    let mut k: usize = 0;
    assert(trees(subs@) =~= subcommands_json(cmd.subcommands@.take(0), path@));
    while k < cmd.subcommands.len()
        invariant
            k <= cmd.subcommands@.len(),
            trees(subs@) == subcommands_json(cmd.subcommands@.take(k as int), path@),
        decreases cmd.subcommands@.len() - k,
    {
        let ghost cs = cmd.subcommands@;
        assert(cs.take(k as int + 1).drop_last() =~= cs.take(k as int));
        assert(cs.take(k as int + 1).last() == cs[k as int]);
        assert(decreases_to!(*cmd => cmd.subcommands));
        assert(decreases_to!(cmd.subcommands => cs));
        assert(decreases_to!(cs => cs[k as int]));
        let c = &cmd.subcommands[k];
        if !same(c.name.as_str(), "help") {
            let mut below = path.to_owned();
            below.append(" ");
            below.append(c.name.as_str());
            let j = command_to_json(c, below.as_str());
            let ghost before = subs@;
            subs.push(j);
            assert(trees(subs@) =~= trees(before).push(j.tree()));
        }
        k = k + 1;
    }
    assert(cmd.subcommands@.take(k as int) =~= cmd.subcommands@);

    let mut obj = JsonObject::new();
    obj.insert_str("name", cmd.name.as_str());
    obj.insert_str("path", path);
    if let Some(about) = &cmd.about {
        obj.insert_str("summary", about.as_str());
        obj.insert_str("about", about.as_str());
    }
    if cmd.aliases.len() > 0 {
        obj.insert_texts("aliases", &cmd.aliases);
    }
    assert(trees(subs@).len() == subs@.len());
    assert(trees(args@).len() == args@.len());
    obj.insert_bool("invokable", subs.len() == 0);
    if args.len() > 0 {
        obj.insert("args", Json::Array(args));
    }
    if subs.len() > 0 {
        obj.insert("subcommands", Json::Array(subs));
    }
    obj.done()
}

/// Whether a command answers to a name: its own or one of its aliases.
pub open spec fn answers_to(c: CommandNode, name: Seq<char>) -> bool {
    c.name@ == name || listed(texts(c.aliases@), name)
}

/// The position of the first command that answers to a name.
pub open spec fn find_child(cs: Seq<CommandNode>, name: Seq<char>) -> Option<int>
    decreases cs.len(),
{
    if cs.len() == 0 {
        None
    } else {
        match find_child(cs.drop_last(), name) {
            Some(i) => Some(i),
            None => if answers_to(cs.last(), name) {
                Some(cs.len() - 1)
            } else {
                None
            },
        }
    }
}

/// A found child is one of the children.
pub proof fn lemma_find_child(cs: Seq<CommandNode>, name: Seq<char>)
    ensures
        match find_child(cs, name) {
            Some(i) => 0 <= i < cs.len() && answers_to(cs[i], name) && forall|k: int|
                0 <= k < i ==> !answers_to(#[trigger] cs[k], name),
            None => forall|k: int| 0 <= k < cs.len() ==> !answers_to(#[trigger] cs[k], name),
        },
    decreases cs.len(),
{
    if cs.len() > 0 {
        let t = cs.drop_last();
        lemma_find_child(t, name);
        assert forall|k: int| 0 <= k < t.len() implies t[k] == cs[k] by {}
        match find_child(t, name) {
            Some(i) => {
                assert forall|k: int| 0 <= k < i implies !answers_to(#[trigger] cs[k], name) by {
                    assert(t[k] == cs[k]);
                }
            },
            None => {
                assert forall|k: int| 0 <= k < t.len() implies !answers_to(
                    #[trigger] cs[k],
                    name,
                ) by {
                    assert(t[k] == cs[k]);
                }
            },
        }
    }
}

impl CommandNode {
    /// The first command below this one that answers to a name.
    pub fn find_subcommand(&self, name: &str) -> (r: Option<&CommandNode>)
        ensures
            match find_child(self.subcommands@, name@) {
                Some(i) => 0 <= i < self.subcommands@.len() && r == Some(&self.subcommands@[i]),
                None => r is None,
            },
    {
        let ghost cs = self.subcommands@;
        let mut i: usize = 0;
        while i < self.subcommands.len()
            invariant
                cs == self.subcommands@,
                i <= cs.len(),
                find_child(cs.take(i as int), name@) is None,
            decreases cs.len() - i,
        {
            let c = &self.subcommands[i];
            assert(cs.take(i as int + 1).drop_last() =~= cs.take(i as int));
            if same(c.name.as_str(), name) || is_listed(&c.aliases, name) {
                proof {
                    lemma_find_child(cs.take(i as int + 1), name@);
                    lemma_find_child(cs, name@);
                    let f = find_child(cs, name@);
                    assert(f is Some) by {
                        assert(answers_to(cs[i as int], name@));
                    }
                    if f->0 < i {
                        assert(cs.take(i as int + 1)[f->0] == cs[f->0]);
                    }
                }
                return Some(c);
            }
            i = i + 1;
        }
        assert(cs.take(i as int) =~= cs);
        None
    }
}

/// Where a descent along `path` ends: the command reached and the names
/// followed. An empty segment is skipped; the first segment that no child
/// answers to ends the descent.
pub open spec fn descended(node: CommandNode, path: Seq<Seq<char>>) -> (CommandNode, Seq<Seq<char>>)
    decreases path.len(),
{
    if path.len() == 0 {
        (node, Seq::empty())
    } else if path[0].len() == 0 {
        descended(node, path.drop_first())
    } else {
        match find_child(node.subcommands@, path[0]) {
            Some(i) => {
                let (end, names) = descended(node.subcommands@[i], path.drop_first());
                (end, seq![path[0]] + names)
            },
            None => (node, Seq::empty()),
        }
    }
}

/// The full catalog of a program, rooted at its name.
pub fn catalog(root: &CommandNode) -> (r: Json)
    ensures
        r.tree() == command_json(*root, root.name@),
{
    command_to_json(root, root.name.as_str())
}

/// The catalog of the command at a path, or of the deepest command that the
/// path reaches.
pub fn catalog_scoped(root: &CommandNode, path: &Vec<String>) -> (r: Json)
    ensures
        r.tree() == ({
            let (end, names) = descended(*root, texts(path@));
            command_json(end, joined(seq![root.name@] + names, " "@))
        }),
{
    let ghost segs = texts(path@);
    let mut node: &CommandNode = root;
    let mut full: Vec<String> = Vec::new();
    full.push(root.name.clone());
    let mut i: usize = 0;
    let mut stopped = false;
    assert(segs.skip(0) =~= segs);
    assert(texts(full@) =~= seq![root.name@]);
    assert(texts(full@) + descended(*node, segs).1 =~= seq![root.name@] + descended(*root, segs).1);
    while i < path.len() && !stopped
        invariant
            segs == texts(path@),
            i <= path@.len(),
            !stopped ==> descended(*root, segs).0 == descended(*node, segs.skip(i as int)).0,
            !stopped ==> seq![root.name@] + descended(*root, segs).1 == texts(full@) + descended(
                *node,
                segs.skip(i as int),
            ).1,
            stopped ==> descended(*root, segs).0 == *node,
            stopped ==> seq![root.name@] + descended(*root, segs).1 == texts(full@),
        decreases path@.len() - i,
    {
        let seg = path[i].as_str();
        assert(segs.skip(i as int)[0] == seg@);
        assert(segs.skip(i as int).drop_first() =~= segs.skip(i as int + 1));
        if !seg.is_empty() {
            match node.find_subcommand(seg) {
                Some(child) => {
                    let ghost was = *node;
                    let ghost full0 = full@;
                    node = child;
                    full.push(path[i].clone());
                    assert(texts(full@) =~= texts(full0).push(seg@));
                    assert(texts(full0) + (seq![seg@] + descended(*node, segs.skip(i as int + 1)).1)
                        =~= texts(full@) + descended(*node, segs.skip(i as int + 1)).1);
                },
                None => {
                    assert(texts(full@) + Seq::<Seq<char>>::empty() =~= texts(full@));
                    stopped = true;
                },
            }
        }
        i = i + 1;
    }
    assert(!stopped ==> texts(full@) + Seq::<Seq<char>>::empty() =~= texts(full@));
    command_to_json(node, join(&full, " ").as_str())
}

} // verus!
