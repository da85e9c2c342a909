//! The tools and the tool choice of a chat-completions request.

use crate::error::{outcome, Failure, ProxyError};
use crate::json::{
    array_of, copy_object, copy_value, object, object_of, Json, JsonValue, Object,
};
use crate::normalize::{member_text, refused, values_outcome};
use crate::probe::Capabilities;
use crate::text::{concat3, same_text};
use vstd::prelude::*;
use vstd::string::*;

verus! {

/// `to` with the member `name` of `from`, where `from` has one.
pub open spec fn carried(
    to: Map<Seq<char>, Json>,
    from: Map<Seq<char>, Json>,
    name: Seq<char>,
) -> Map<Seq<char>, Json> {
    match from.get(name) {
        Some(v) => to.insert(name, v),
        None => to,
    }
}

/// The description of a function tool: a member of its own, or spread over the tool.
pub open spec fn function_source(m: Map<Seq<char>, Json>) -> Map<Seq<char>, Json> {
    match m.get("function"@) {
        Some(Json::Object(f)) => f,
        _ => carried(
            carried(carried(Map::empty(), m, "name"@), m, "description"@),
            m,
            "parameters"@,
        ),
    }
}

/// The parameters of a function that declares none.
pub open spec fn no_parameters() -> Json {
    Json::Object(
        map!["type"@ => Json::Text("object"@), "properties"@ => Json::Object(Map::empty())],
    )
}

/// A function tool as the upstream takes it.
pub open spec fn function_tool(m: Map<Seq<char>, Json>) -> Result<Json, Failure> {
    let f = function_source(m);
    match member_text(f.get("name"@)) {
        None => refused("function tools need a `name`"@),
        Some(name) => {
            let parameters = match f.get("parameters"@) {
                Some(p) => p,
                None => no_parameters(),
            };
            let base = map!["name"@ => Json::Text(name), "parameters"@ => parameters];
            Ok(
                Json::Object(
                    map![
                        "type"@ => Json::Text("function"@),
                        "function"@ => Json::Object(carried(base, f, "description"@)),
                    ],
                ),
            )
        },
    }
}

/// The kind of a tool.
pub open spec fn tool_kind(m: Map<Seq<char>, Json>) -> Seq<char> {
    match member_text(m.get("type"@)) {
        Some(k) => k,
        None => "function"@,
    }
}

/// The functions that a tool stands for: itself, those of a namespace, or none.
pub open spec fn tool_functions(tool: Json) -> Result<Seq<Json>, Failure>
    decreases tool,
{
    match tool {
        Json::Object(m) => if tool_kind(m) == "function"@ {
            match function_tool(m) {
                Ok(v) => Ok(seq![v]),
                Err(e) => Err(e),
            }
        } else if tool_kind(m) == "namespace"@ {
            if m.contains_key("tools"@) {
                match m["tools"@] {
                    Json::Array(nested) => tools_functions(nested),
                    _ => refused("namespace tools need a `tools` array"@),
                }
            } else {
                refused("namespace tools need a `tools` array"@)
            }
        } else {
            Ok(Seq::empty())
        },
        _ => refused("tools entries must be objects"@),
    }
}

/// The functions that a list of tools stands for.
pub open spec fn tools_functions(tools: Seq<Json>) -> Result<Seq<Json>, Failure>
    decreases tools,
{
    if tools.len() == 0 {
        Ok(Seq::empty())
    } else {
        match tools_functions(tools.drop_last()) {
            Err(e) => Err(e),
            Ok(done) => match tool_functions(tools.last()) {
                Err(e) => Err(e),
                Ok(more) => Ok(done + more),
            },
        }
    }
}

/// The tools of an upstream request.
pub open spec fn upstream_tools(tools: Option<Json>) -> Result<Seq<Json>, Failure> {
    match tools {
        Some(Json::Array(list)) => tools_functions(list),
        _ => Ok(Seq::empty()),
    }
}

/// A failure among the first tools is the failure of the whole list.
proof fn lemma_tools_failure(tools: Seq<Json>, i: int)
    requires
        0 <= i <= tools.len(),
        tools_functions(tools.take(i)) is Err,
    ensures
        tools_functions(tools) == tools_functions(tools.take(i)),
    decreases tools.len() - i,
{
    if i < tools.len() {
        assert(tools.take(i + 1).drop_last() =~= tools.take(i));
        lemma_tools_failure(tools, i + 1);
    } else {
        assert(tools.take(i) =~= tools);
    }
}

fn carry(to: &mut Object, from: &Object, name: &str)
    ensures
        object_of(*final(to)) == carried(object_of(*old(to)), object_of(*from), name@),
{
    if let Some(v) = from.member(name) {
        to.set(name, copy_value(v));
    }
}

/// A function tool as the upstream takes it.
pub fn convert_function_tool(map: &Object) -> (r: Result<JsonValue, ProxyError>)
    ensures
        outcome(r) == function_tool(object_of(*map)),
{
    let source = match map.member("function") {
        Some(JsonValue::Object(f)) => copy_object(f),
        _ => {
            let mut f = object();
            carry(&mut f, map, "name");
            carry(&mut f, map, "description");
            carry(&mut f, map, "parameters");
            f
        },
    };
    let name = match source.member("name") {
        Some(JsonValue::Text(name)) => name.clone(),
        _ => return Err(ProxyError::bad_request("function tools need a `name`")),
    };
    let parameters = match source.member("parameters") {
        Some(p) => copy_value(p),
        None => JsonValue::Object(
            object().with("type", JsonValue::text("object")).with(
                "properties",
                JsonValue::Object(object()),
            ),
        ),
    };
    let mut function = object().with("name", JsonValue::Text(name)).with("parameters", parameters);
    carry(&mut function, &source, "description");
    Ok(
        JsonValue::Object(
            object().with("type", JsonValue::text("function")).with(
                "function",
                JsonValue::Object(function),
            ),
        ),
    )
}

fn append_values(list: &mut Vec<JsonValue>, more: Vec<JsonValue>)
    ensures
        array_of(final(list)@) == array_of(old(list)@) + array_of(more@),
{
    let mut rest = more;
    list.append(&mut rest);
    assert(array_of(list@) =~= array_of(old(list)@) + array_of(more@));
}

/// The functions that a tool stands for.
pub fn convert_tool(tool: &JsonValue) -> (r: Result<Vec<JsonValue>, ProxyError>)
    ensures
        values_outcome(r) == tool_functions(tool@),
    decreases tool@, 1nat,
{
    let map = match tool.as_object() {
        Some(map) => map,
        None => return Err(ProxyError::bad_request("tools entries must be objects")),
    };
    let kind = match map.member("type") {
        Some(JsonValue::Text(kind)) => kind.as_str(),
        _ => "function",
    };
    if same_text(kind, "function") {
        match convert_function_tool(map) {
            Ok(v) => {
                let mut list: Vec<JsonValue> = Vec::new();
                list.push(v);
                assert(array_of(list@) =~= seq![v@]);
                Ok(list)
            },
            Err(e) => Err(e),
        }
    } else if same_text(kind, "namespace") {
        match map.member("tools") {
            Some(nested) => match nested {
                JsonValue::Array(items) => {
                    assert(decreases_to!(tool@ => nested@));
                    assert(decreases_to!(nested@ => array_of(items@)));
                    convert_tools(items)
                },
                _ => Err(ProxyError::bad_request("namespace tools need a `tools` array")),
            },
            None => Err(ProxyError::bad_request("namespace tools need a `tools` array")),
        }
    } else {
        let list: Vec<JsonValue> = Vec::new();
        assert(array_of(list@) =~= Seq::empty());
        Ok(list)
    }
}

/// The functions that a list of tools stands for.
pub fn convert_tools(tools: &Vec<JsonValue>) -> (r: Result<Vec<JsonValue>, ProxyError>)
    ensures
        values_outcome(r) == tools_functions(array_of(tools@)),
    decreases array_of(tools@), 0nat,
{
    let ghost all = array_of(tools@);
    let mut output: Vec<JsonValue> = Vec::new();
    let mut i: usize = 0;
    assert(array_of(output@) =~= Seq::empty());
    assert(all.take(0) =~= Seq::empty());
    while i < tools.len()
        invariant
            i <= tools@.len(),
            all == array_of(tools@),
            tools_functions(all.take(i as int)) == Ok::<Seq<Json>, Failure>(array_of(output@)),
        decreases tools@.len() - i,
    {
        proof {
            assert(all.take(i + 1).drop_last() =~= all.take(i as int));
            assert(all[i as int] == tools@[i as int]@);
            assert(decreases_to!(all => all[i as int]));
        }
        match convert_tool(&tools[i]) {
            Ok(more) => append_values(&mut output, more),
            Err(e) => {
                proof {
                    lemma_tools_failure(all, i + 1);
                }
                return Err(e);
            },
        }
        i += 1;
    }
    assert(all.take(i as int) =~= all);
    Ok(output)
}

/// The tools of an upstream request.
pub fn normalize_tools(tools: Option<&JsonValue>) -> (r: Result<Vec<JsonValue>, ProxyError>)
    ensures
        values_outcome(r) == upstream_tools(tools.deep_view()),
{
    match tools {
        Some(JsonValue::Array(list)) => convert_tools(list),
        _ => {
            let none: Vec<JsonValue> = Vec::new();
            assert(array_of(none@) =~= Seq::empty());
            Ok(none)
        },
    }
}

/// The choice of one function by name.
pub open spec fn named_choice(name: Seq<char>) -> Json {
    Json::Object(
        map![
            "type"@ => Json::Text("function"@),
            "function"@ => Json::Object(map!["name"@ => Json::Text(name)]),
        ],
    )
}

/// The function that a tool choice names.
pub open spec fn chosen_name(m: Map<Seq<char>, Json>) -> Option<Seq<char>> {
    match m.get("name"@) {
        Some(v) => v.as_str(),
        None => match m.get("function"@) {
            Some(f) => f.text_at("name"@),
            None => None,
        },
    }
}

/// The tool choice of an upstream request. What the upstream does not support falls
/// back: a named choice to `required`, and `required` to `auto`.
pub open spec fn upstream_choice(choice: Option<Json>, caps: Capabilities) -> Result<
    Json,
    Failure,
> {
    let fallback = if caps.supports_tool_choice_required {
        "required"@
    } else {
        "auto"@
    };
    match choice {
        None => Ok(Json::Text("auto"@)),
        Some(Json::Text(t)) => if t == "auto"@ || t == "none"@ {
            Ok(Json::Text(t))
        } else if t == "required"@ {
            Ok(Json::Text(fallback))
        } else {
            refused("unsupported tool_choice `"@ + t + "`"@)
        },
        Some(Json::Object(m)) => if !caps.supports_named_tool_choice {
            Ok(Json::Text(fallback))
        } else {
            match member_text(m.get("type"@)) {
                None => refused("tool_choice objects need `type`"@),
                Some(kind) => if kind != "function"@ {
                    refused("unsupported tool_choice type `"@ + kind + "`"@)
                } else {
                    match chosen_name(m) {
                        None => refused("function tool_choice objects need `name`"@),
                        Some(name) => Ok(named_choice(name)),
                    }
                },
            }
        },
        _ => refused("`tool_choice` must be a string or object"@),
    }
}

/// The tool choice of an upstream request.
pub fn normalize_tool_choice(tool_choice: Option<&JsonValue>, capabilities: &Capabilities) -> (r:
    Result<JsonValue, ProxyError>)
    ensures
        outcome(r) == upstream_choice(tool_choice.deep_view(), *capabilities),
{
    let value = match tool_choice {
        Some(value) => value,
        None => return Ok(JsonValue::text("auto")),
    };
    let fallback = if capabilities.supports_tool_choice_required {
        "required"
    } else {
        "auto"
    };
    match value {
        JsonValue::Text(choice) => {
            let choice = choice.as_str();
            if same_text(choice, "auto") || same_text(choice, "none") {
                Ok(JsonValue::text(choice))
            } else if same_text(choice, "required") {
                Ok(JsonValue::text(fallback))
            } else {
                Err(ProxyError::BadRequest(concat3("unsupported tool_choice `", choice, "`")))
            }
        },
        JsonValue::Object(map) => {
            if !capabilities.supports_named_tool_choice {
                return Ok(JsonValue::text(fallback));
            }
            let kind = match map.member("type") {
                Some(JsonValue::Text(kind)) => kind.as_str(),
                _ => return Err(ProxyError::bad_request("tool_choice objects need `type`")),
            };
            if !same_text(kind, "function") {
                return Err(
                    ProxyError::BadRequest(concat3("unsupported tool_choice type `", kind, "`")),
                );
            }
            let name = match map.member("name") {
                Some(v) => v.as_str(),
                None => match map.member("function") {
                    Some(f) => f.text_at("name"),
                    None => None,
                },
            };
            match name {
                Some(name) => Ok(
                    JsonValue::Object(
                        object().with("type", JsonValue::text("function")).with(
                            "function",
                            JsonValue::Object(object().with("name", JsonValue::text(name))),
                        ),
                    ),
                ),
                None => Err(
                    ProxyError::bad_request("function tool_choice objects need `name`"),
                ),
            }
        },
        _ => Err(ProxyError::bad_request("`tool_choice` must be a string or object")),
    }
}

/// The tool choice that goes upstream is one that the upstream supports: `required`
/// and a named function go there only where they are supported.
pub proof fn law_tool_choice_is_supported(choice: Option<Json>, caps: Capabilities)
    ensures
        upstream_choice(choice, caps) matches Ok(v) ==> {
            ||| v == Json::Text("auto"@)
            ||| v == Json::Text("none"@)
            ||| v == Json::Text("required"@) && caps.supports_tool_choice_required
            ||| caps.supports_named_tool_choice && exists|name: Seq<char>|
                v == #[trigger] named_choice(name)
        },
{
}

/// The members in which a tool declares its function: those of its member `function`, or
/// its own.
pub open spec fn declaration(tool: Map<Seq<char>, Json>) -> Map<Seq<char>, Json> {
    match tool.get("function"@) {
        Some(Json::Object(f)) => f,
        _ => tool,
    }
}

/// Whether a tool that goes upstream is the function that is declared: under its name, with
/// its description if it has one, and with exactly the parameters that it declares. A
/// function that declares none takes an object without properties.
pub open spec fn is_declared_function(sent: Json, declared: Map<Seq<char>, Json>) -> bool {
    &&& sent.get("type"@) == Some(Json::Text("function"@))
    &&& sent.get("function"@) matches Some(f)
    &&& f.get("name"@) == declared.get("name"@)
    &&& f.get("description"@) == declared.get("description"@)
    &&& declared.get("parameters"@) is Some ==> f.get("parameters"@) == declared.get("parameters"@)
    &&& declared.get("parameters"@) is None ==> {
        &&& f.get("parameters"@) matches Some(p)
        &&& p.get("type"@) == Some(Json::Text("object"@))
        &&& p.get("properties"@) == Some(Json::Object(Map::empty()))
    }
}

proof fn lemma_tool_words()
    ensures
        "type"@ != "function"@,
        "name"@ != "parameters"@,
        "name"@ != "description"@,
        "description"@ != "parameters"@,
        "type"@ != "properties"@,
        "function"@ != "namespace"@,
{
    reveal_strlit("type");
    reveal_strlit("function");
    reveal_strlit("name");
    reveal_strlit("description");
    reveal_strlit("parameters");
    reveal_strlit("tools");
    reveal_strlit("properties");
    reveal_strlit("object");
    reveal_strlit("namespace");
    assert("type"@.len() == 4);
    assert("function"@.len() == 8);
    assert("name"@.len() == 4);
    assert("description"@.len() == 11);
    assert("parameters"@.len() == 10);
    assert("tools"@.len() == 5);
    assert("properties"@.len() == 10);
    assert("object"@.len() == 6);
    assert("namespace"@.len() == 9);
    assert("type"@[0] == 't');
    assert("name"@[0] == 'n');
    assert("parameters"@[1] == 'a');
    assert("properties"@[1] == 'r');
}

/// A function tool goes upstream as it is declared, and one without a name is refused.
pub proof fn law_functions_go_upstream_as_declared(tool: Map<Seq<char>, Json>)
    requires
        Json::Object(tool).text_at("type"@) is None || Json::Object(tool).text_at("type"@) == Some(
            "function"@,
        ),
    ensures
        ({
            let declared = declaration(tool);
            let sent = upstream_tools(Some(Json::Array(seq![Json::Object(tool)])));
            &&& Json::Object(declared).text_at("name"@) is Some ==> {
                &&& sent matches Ok(list)
                &&& list.len() == 1
                &&& is_declared_function(list[0], declared)
            }
            &&& Json::Object(declared).text_at("name"@) is None ==> sent is Err
        }),
{
    lemma_tool_words();
    let list = seq![Json::Object(tool)];
    assert(list.drop_last() =~= Seq::empty());
    assert(tools_functions(list.drop_last()) == Ok::<Seq<Json>, Failure>(Seq::empty()));
    let declared = declaration(tool);
    let source = function_source(tool);
    assert(source.get("name"@) == declared.get("name"@));
    assert(source.get("description"@) == declared.get("description"@));
    assert(source.get("parameters"@) == declared.get("parameters"@));
    assert(list.last() == Json::Object(tool));
    assert(tool_kind(tool) == "function"@);
    if let Ok(v) = function_tool(tool) {
        assert(tool_functions(Json::Object(tool)) == Ok::<Seq<Json>, Failure>(seq![v]));
        assert(Seq::<Json>::empty() + seq![v] =~= seq![v]);
        assert(tools_functions(list) == Ok::<Seq<Json>, Failure>(seq![v]));
        assert(is_declared_function(v, declared));
    } else {
        assert(tool_functions(Json::Object(tool)) is Err);
        assert(tools_functions(list) is Err);
    }
}

/// The tools of two lists, one after the other, are those of the first and then those of the
/// second, and what is refused in either is refused.
pub proof fn law_tools_stay_in_order(a: Seq<Json>, b: Seq<Json>)
    ensures
        match (upstream_tools(Some(Json::Array(a))), upstream_tools(Some(Json::Array(b)))) {
            (Ok(x), Ok(y)) => upstream_tools(Some(Json::Array(a + b))) == Ok::<Seq<Json>, Failure>(
                x + y,
            ),
            (Err(e), _) => upstream_tools(Some(Json::Array(a + b))) == Err::<Seq<Json>, Failure>(e),
            (Ok(_), Err(e)) => upstream_tools(Some(Json::Array(a + b))) == Err::<
                Seq<Json>,
                Failure,
            >(e),
        },
    decreases b.len(),
{
    if b.len() == 0 {
        assert(a + b =~= a);
        if let Ok(x) = tools_functions(a) {
            assert(x + Seq::<Json>::empty() =~= x);
        }
    } else {
        assert((a + b).drop_last() =~= a + b.drop_last());
        assert((a + b).last() == b.last());
        law_tools_stay_in_order(a, b.drop_last());
        if let (Ok(x), Ok(y)) = (tools_functions(a), tools_functions(b.drop_last())) {
            if let Ok(z) = tool_functions(b.last()) {
                assert((x + y) + z =~= x + (y + z));
            }
        }
    }
}

/// A list of named function tools goes upstream one by one, each as it is declared.
pub proof fn law_all_functions_go_upstream(tools: Seq<Map<Seq<char>, Json>>)
    requires
        forall|i: int|
            0 <= i < tools.len() ==> {
                let tool = #[trigger] tools[i];
                &&& Json::Object(tool).text_at("type"@) is None || Json::Object(tool).text_at(
                    "type"@,
                ) == Some("function"@)
                &&& Json::Object(declaration(tool)).text_at("name"@) is Some
            },
    ensures
        ({
            let list = Seq::new(tools.len(), |i: int| Json::Object(tools[i]));
            &&& upstream_tools(Some(Json::Array(list))) matches Ok(sent)
            &&& sent.len() == tools.len()
            &&& forall|i: int|
                0 <= i < sent.len() ==> is_declared_function(
                    #[trigger] sent[i],
                    declaration(tools[i]),
                )
        }),
    decreases tools.len(),
{
    let list = Seq::new(tools.len(), |i: int| Json::Object(tools[i]));
    if tools.len() == 0 {
        assert(list =~= Seq::empty());
    } else {
        let had = tools.drop_last();
        let had_list = Seq::new(had.len(), |i: int| Json::Object(had[i]));
        let last = tools.last();
        assert(forall|i: int| 0 <= i < had.len() ==> #[trigger] had[i] == tools[i]);
        assert(tools[tools.len() - 1] == last);
        law_all_functions_go_upstream(had);
        law_functions_go_upstream_as_declared(last);
        law_tools_stay_in_order(had_list, seq![Json::Object(last)]);
        assert(had_list + seq![Json::Object(last)] =~= list);
    }
}

/// A namespace stands for the tools in it; a tool of another kind is left out; what is no
/// object is refused.
pub proof fn law_namespaces_are_opened(tool: Json)
    ensures
        ({
            let sent = upstream_tools(Some(Json::Array(seq![tool])));
            let kind = tool.text_at("type"@);
            &&& !(tool is Object) ==> sent is Err
            &&& tool is Object && kind == Some("namespace"@) ==> match tool.get("tools"@) {
                Some(Json::Array(nested)) => sent == upstream_tools(Some(Json::Array(nested))),
                _ => sent is Err,
            }
            &&& tool is Object && kind is Some && kind != Some("function"@) && kind != Some(
                "namespace"@,
            ) ==> sent == Ok::<Seq<Json>, Failure>(Seq::empty())
        }),
{
    lemma_tool_words();
    let list = seq![tool];
    assert(list.drop_last() =~= Seq::empty());
    assert(tools_functions(list.drop_last()) == Ok::<Seq<Json>, Failure>(Seq::empty()));
    if let Ok(v) = tool_functions(tool) {
        assert(Seq::<Json>::empty() + v =~= v);
    }
}

/// Without a list of tools, no tools go upstream.
pub proof fn law_no_list_no_tools(tools: Option<Json>)
    requires
        !(tools matches Some(Json::Array(_))),
    ensures
        upstream_tools(tools) == Ok::<Seq<Json>, Failure>(Seq::empty()),
{
}

/// A tool choice that the upstream supports goes there as it is: `auto` and `none` always,
/// `required` and the choice of a function by its name where they are supported. Without a
/// choice it is `auto`.
pub proof fn law_supported_choices_are_kept(choice: Option<Json>, caps: Capabilities)
    ensures
        choice is None ==> upstream_choice(choice, caps) == Ok::<Json, Failure>(
            Json::Text("auto"@),
        ),
        choice == Some(Json::Text("auto"@)) || choice == Some(Json::Text("none"@)) || (choice
            == Some(Json::Text("required"@)) && caps.supports_tool_choice_required)
            ==> upstream_choice(choice, caps) == Ok::<Json, Failure>(choice->0),
        choice matches Some(c) && c is Object && caps.supports_named_tool_choice && c.get("type"@)
            == Some(Json::Text("function"@)) && (c.get("name"@) matches Some(Json::Text(_)))
            ==> {
            &&& upstream_choice(choice, caps) matches Ok(v)
            &&& v.get("type"@) == Some(Json::Text("function"@))
            &&& v.get("function"@) matches Some(f)
            &&& f.get("name"@) == choice->0.get("name"@)
        },
        choice matches Some(c) && c is Object && caps.supports_named_tool_choice && c.get("type"@)
            == Some(Json::Text("function"@)) && c.get("name"@) is None && (c.get("function"@)
            matches Some(g) && g.text_at("name"@) is Some) ==> {
            &&& upstream_choice(choice, caps) matches Ok(v)
            &&& v.get("type"@) == Some(Json::Text("function"@))
            &&& v.get("function"@) matches Some(f)
            &&& f.get("name"@) == choice->0.get("function"@)->0.get("name"@)
        },
{
    lemma_tool_words();
    reveal_strlit("auto");
    reveal_strlit("none");
    reveal_strlit("required");
    assert("auto"@.len() == 4);
    assert("none"@.len() == 4);
    assert("required"@.len() == 8);
    assert("auto"@[0] == 'a');
    assert("none"@[0] == 'n');
}

/// A tool choice that the upstream does not support falls back: a named one to `required`,
/// and `required` to `auto`. A word that is no tool choice is refused.
pub proof fn law_unsupported_choices_fall_back(choice: Json, caps: Capabilities)
    ensures
        choice is Object && !caps.supports_named_tool_choice
            && caps.supports_tool_choice_required ==> upstream_choice(Some(choice), caps) == Ok::<
            Json,
            Failure,
        >(Json::Text("required"@)),
        (choice is Object && !caps.supports_named_tool_choice || choice == Json::Text("required"@))
            && !caps.supports_tool_choice_required ==> upstream_choice(Some(choice), caps) == Ok::<
            Json,
            Failure,
        >(Json::Text("auto"@)),
        (choice matches Json::Text(t) && t != "auto"@ && t != "none"@ && t != "required"@)
            ==> upstream_choice(Some(choice), caps) is Err,
        !(choice is Text) && !(choice is Object) ==> upstream_choice(Some(choice), caps) is Err,
{
    reveal_strlit("auto");
    reveal_strlit("none");
    reveal_strlit("required");
    assert("auto"@.len() == 4);
    assert("none"@.len() == 4);
    assert("required"@.len() == 8);
    assert("auto"@[0] == 'a');
    assert("none"@[0] == 'n');
}

/// Where the upstream takes the name of a tool, a choice that names none is refused: one
/// that is not for a function, and one without a name.
pub proof fn law_choices_without_a_name_are_refused(choice: Json, caps: Capabilities)
    requires
        choice is Object,
        caps.supports_named_tool_choice,
    ensures
        choice.get("type"@) != Some(Json::Text("function"@)) ==> upstream_choice(
            Some(choice),
            caps,
        ) is Err,
        choice.get("name"@) is None && choice.get("function"@) is None ==> upstream_choice(
            Some(choice),
            caps,
        ) is Err,
{
}

} // verus!
