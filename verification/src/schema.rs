//! The input schema (JSON Schema) of a tool. Scalars are typed as strings,
//! restricted values become an `enum`, repeatable arguments arrays and flags
//! booleans.
use crate::catalog::{args_view, ArgSpec, ArgV, ToolSpec};
use crate::clap_catalog::with_entry;
use crate::json::{texts_json, trees, Json, JsonObject, JsonV};
use crate::text::{lemma_texts_push, same, texts};
use vstd::prelude::*;

verus! {

/// The schema of one property.
pub open spec fn prop_json(a: ArgV) -> JsonV {
    let m = Map::<Seq<char>, JsonV>::empty();
    let m = if a.boolean() {
        m.insert("type"@, JsonV::Str("boolean"@))
    } else if a.multiple {
        m.insert("type"@, JsonV::Str("array"@)).insert(
            "items"@,
            JsonV::Object(Map::empty().insert("type"@, JsonV::Str("string"@))),
        )
    } else {
        with_entry(
            m.insert("type"@, JsonV::Str("string"@)),
            "enum"@,
            if a.possible_values.len() > 0 {
                Some(texts_json(a.possible_values))
            } else {
                None
            },
        )
    };
    let m = with_entry(
        m,
        "description"@,
        match (a.help, a.value_name) {
            (Some(h), _) => Some(JsonV::Str(h)),
            (None, Some(v)) => Some(JsonV::Str(v)),
            (None, None) => None,
        },
    );
    let m = with_entry(
        m,
        "default"@,
        match a.default {
            Some(d) => Some(
                if a.boolean() {
                    JsonV::Bool(d == "true"@)
                } else {
                    JsonV::Str(d)
                },
            ),
            None => None,
        },
    );
    JsonV::Object(m)
}

/// The properties: every argument but the managed `json` switch.
pub open spec fn properties(args: Seq<ArgV>) -> Map<Seq<char>, JsonV>
    decreases args.len(),
{
    if args.len() == 0 {
        Map::empty()
    } else {
        let a = args.last();
        if a.name == "json"@ {
            properties(args.drop_last())
        } else {
            properties(args.drop_last()).insert(a.name, prop_json(a))
        }
    }
}

/// The names of the required arguments, in order, without `json`.
pub open spec fn required_names(args: Seq<ArgV>) -> Seq<Seq<char>>
    decreases args.len(),
{
    if args.len() == 0 {
        Seq::empty()
    } else {
        let a = args.last();
        if a.name != "json"@ && a.required {
            required_names(args.drop_last()).push(a.name)
        } else {
            required_names(args.drop_last())
        }
    }
}

/// The name under which the body's file is given, if it can be: the last of
/// the two spellings among the arguments.
pub open spec fn content_file_key(args: Seq<ArgV>) -> Option<Seq<char>>
    decreases args.len(),
{
    if args.len() == 0 {
        None
    } else if args.last().name == "content_file"@ || args.last().name == "content-file"@ {
        Some(args.last().name)
    } else {
        content_file_key(args.drop_last())
    }
}

/// Whether the body can be given inline.
pub open spec fn has_content(args: Seq<ArgV>) -> bool {
    exists|i: int| 0 <= i < args.len() && (#[trigger] args[i]).name == "content"@
}

/// A schema that asks for one property.
pub open spec fn requires_json(name: Seq<char>) -> JsonV {
    JsonV::Object(Map::empty().insert("required"@, texts_json(seq![name])))
}

/// The schema of a tool's arguments. Where a body can be given inline and as a
/// file, exactly one of the two is asked for.
pub open spec fn schema_json(args: Seq<ArgV>) -> JsonV {
    let m = Map::empty().insert("type"@, JsonV::Str("object"@)).insert(
        "properties"@,
        JsonV::Object(properties(args)),
    ).insert("required"@, texts_json(required_names(args)));
    match content_file_key(args) {
        Some(cf) if has_content(args) => JsonV::Object(
            m.insert(
                "oneOf"@,
                JsonV::Array(seq![requires_json("content"@), requires_json(cf)]),
            ),
        ),
        _ => JsonV::Object(m),
    }
}

/// Builds the schema of one property.
pub fn prop_schema(a: &ArgSpec) -> (r: Json)
    ensures
        r.tree() == prop_json(a@),
{
    let mut o = JsonObject::new();
    let boolean = a.is_bool();
    if boolean {
        o.insert_str("type", "boolean");
    } else if a.multiple {
        o.insert_str("type", "array");
        let mut items = JsonObject::new();
        items.insert_str("type", "string");
        o.insert("items", items.done());
    } else {
        o.insert_str("type", "string");
        if a.possible_values.len() > 0 {
            o.insert_texts("enum", &a.possible_values);
        }
    }
    if let Some(h) = &a.help {
        o.insert_str("description", h.as_str());
    } else if let Some(v) = &a.value_name {
        o.insert_str("description", v.as_str());
    }
    if let Some(d) = &a.default {
        if boolean {
            o.insert_bool("default", same(d.as_str(), "true"));
        } else {
            o.insert_str("default", d.as_str());
        }
    }
    o.done()
}

/// A schema that asks for one property.
fn requires_schema(name: &str) -> (r: Json)
    ensures
        r.tree() == requires_json(name@),
{
    let mut names: Vec<String> = Vec::new();
    names.push(name.to_owned());
    assert(texts(names@) =~= seq![name@]);
    let mut o = JsonObject::new();
    o.insert_texts("required", &names);
    o.done()
}

/// Builds the schema of a tool's arguments.
pub fn input_schema(spec: &ToolSpec) -> (r: Json)
    ensures
        r.tree() == schema_json(spec@.args),
{
    let ghost avs = args_view(spec.args@);
    let mut props = JsonObject::new();
    let mut required: Vec<String> = Vec::new();
    let mut content = false;
    let mut content_file: Option<String> = None;
    let mut i: usize = 0;
    assert(texts(required@) =~= required_names(avs.take(0)));
    assert(props.map() =~= properties(avs.take(0)));
    proof {
        reveal_strlit("json");
        reveal_strlit("content");
        reveal_strlit("content_file");
        reveal_strlit("content-file");
        assert("json"@.len() == 4 && "content"@.len() == 7 && "content_file"@.len() == 12
            && "content-file"@.len() == 12);
    }
    while i < spec.args.len()
        invariant
            avs == args_view(spec.args@),
            i <= spec.args@.len(),
            "json"@.len() == 4 && "content"@.len() == 7 && "content_file"@.len() == 12
                && "content-file"@.len() == 12,
            props.map() == properties(avs.take(i as int)),
            texts(required@) == required_names(avs.take(i as int)),
            content == exists|k: int| 0 <= k < i && (#[trigger] avs[k]).name == "content"@,
            match content_file {
                Some(s) => content_file_key(avs.take(i as int)) == Some(s@),
                None => content_file_key(avs.take(i as int)) is None,
            },
        decreases spec.args@.len() - i,
    {
        let a = &spec.args[i];
        assert(avs.take(i as int + 1).drop_last() =~= avs.take(i as int));
        assert(avs.take(i as int + 1).last() == a@);
        assert(avs[i as int].name == a.name@);
        if !same(a.name.as_str(), "json") {
            props.insert(a.name.as_str(), prop_schema(a));
            if a.required {
                let name = a.name.clone();
                proof {
                    lemma_texts_push(required@, name);
                }
                required.push(name);
            }
            if same(a.name.as_str(), "content") {
                content = true;
            } else if same(a.name.as_str(), "content_file") || same(
                a.name.as_str(),
                "content-file",
            ) {
                content_file = Some(a.name.clone());
            }
        }
        i = i + 1;
    }
    assert(avs.take(i as int) =~= avs);
    let mut schema = JsonObject::new();
    schema.insert_str("type", "object");
    schema.insert("properties", props.done());
    schema.insert_texts("required", &required);
    if let Some(cf) = &content_file {
        if content {
            let mut either: Vec<Json> = Vec::new();
            either.push(requires_schema("content"));
            either.push(requires_schema(cf.as_str()));
            assert(trees(either@) =~= seq![requires_json("content"@), requires_json(cf@)]);
            schema.insert("oneOf", Json::Array(either));
        }
    }
    schema.done()
}

} // verus!
