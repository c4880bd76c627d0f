//! The tools the agent is offered: their names and the JSON definitions
//! (name, description and input schema) sent to the model.
use vstd::prelude::*;
use crate::json::{
    entries_view, json_array, json_bool, json_object, json_string, json_tree, keys_distinct, lemma_few_keys_distinct, map_of,
    push_entry, trees, JsonTree,
};
use crate::text::strings_view;

verus! {

/// A property of an input schema: its type and, when given, its description.
pub open spec fn prop_tree(ty: Seq<char>, desc: Option<Seq<char>>) -> JsonTree {
    JsonTree::Obj(
        match desc {
            Some(d) => map_of(seq![("type"@, JsonTree::Str(ty)), ("description"@, JsonTree::Str(d))]),
            None => map_of(seq![("type"@, JsonTree::Str(ty))]),
        },
    )
}

/// An object schema: its properties, the required ones, and (when `closed`)
/// no other properties.
pub open spec fn schema_tree(props: Seq<(Seq<char>, JsonTree)>, required: Seq<Seq<char>>, closed: bool) -> JsonTree {
    let base = seq![
        ("type"@, JsonTree::Str("object"@)),
        ("properties"@, JsonTree::Obj(map_of(props))),
        ("required"@, JsonTree::Arr(required.map_values(|r: Seq<char>| JsonTree::Str(r)))),
    ];
    JsonTree::Obj(
        map_of(
            if closed {
                base.push(("additionalProperties"@, JsonTree::Bool(false)))
            } else {
                base
            },
        ),
    )
}

/// A tool definition: name, description and input schema.
pub open spec fn tool_def(name: Seq<char>, desc: Seq<char>, schema: JsonTree) -> JsonTree {
    JsonTree::Obj(
        map_of(
            seq![
                ("name"@, JsonTree::Str(name)),
                ("description"@, JsonTree::Str(desc)),
                ("input_schema"@, schema),
            ],
        ),
    )
}

/// A schema property value.
pub(crate) fn prop_value(ty: &str, desc: Option<&str>) -> (r: serde_json::Value)
    ensures
        json_tree(r) == prop_tree(
            ty@,
            match desc {
                Some(d) => Some(d@),
                None => None,
            },
        ),
{
    let mut e: Vec<(String, serde_json::Value)> = Vec::new();
    proof {
        assert(entries_view(e@) =~= Seq::empty());
    }
    push_entry(&mut e, "type", json_string(ty));
    match desc {
        Some(d) => {
            push_entry(&mut e, "description", json_string(d));
        },
        None => {},
    }
    proof {
        match desc {
            Some(d) => {
                assert(entries_view(e@) =~= seq![("type"@, JsonTree::Str(ty@)), ("description"@, JsonTree::Str(d@))]);
            },
            None => {
                assert(entries_view(e@) =~= seq![("type"@, JsonTree::Str(ty@))]);
            },
        }
        reveal_strlit("type");
        reveal_strlit("description");
        assert("type"@ != "description"@) by {
            assert("type"@.len() != "description"@.len());
        }
        lemma_few_keys_distinct(entries_view(e@));
    }
    json_object(e)
}

/// An object schema value.
pub(crate) fn schema_value(props: Vec<(String, serde_json::Value)>, required: Vec<String>, closed: bool) -> (r: serde_json::Value)
    requires
        keys_distinct(entries_view(props@)),
    ensures
        json_tree(r) == schema_tree(entries_view(props@), strings_view(required@), closed),
{
    let ghost pv = entries_view(props@);
    let ghost rv = strings_view(required@);
    let mut items: Vec<serde_json::Value> = Vec::new();
    let mut i: usize = 0;
    while i < required.len()
        invariant
            i <= required@.len(),
            rv == strings_view(required@),
            trees(items@) == rv.take(i as int).map_values(|r: Seq<char>| JsonTree::Str(r)),
        decreases required@.len() - i,
    {
        let v = json_string(required[i].as_str());
        let ghost before = items@;
        items.push(v);
        proof {
            assert(trees(items@) =~= trees(before).push(json_tree(v)));
            assert(rv.take(i + 1).map_values(|r: Seq<char>| JsonTree::Str(r)) =~= rv.take(i as int).map_values(
                |r: Seq<char>| JsonTree::Str(r),
            ).push(JsonTree::Str(rv[i as int])));
        }
        i = i + 1;
    }
    proof {
        assert(rv.take(i as int) =~= rv);
    }
    let mut e: Vec<(String, serde_json::Value)> = Vec::new();
    proof {
        assert(entries_view(e@) =~= Seq::empty());
    }
    push_entry(&mut e, "type", json_string("object"));
    push_entry(&mut e, "properties", json_object(props));
    push_entry(&mut e, "required", json_array(items));
    if closed {
        push_entry(&mut e, "additionalProperties", json_bool(false));
    }
    proof {
        let base = seq![
            ("type"@, JsonTree::Str("object"@)),
            ("properties"@, JsonTree::Obj(map_of(pv))),
            ("required"@, JsonTree::Arr(rv.map_values(|r: Seq<char>| JsonTree::Str(r)))),
        ];
        if closed {
            assert(entries_view(e@) =~= base.push(("additionalProperties"@, JsonTree::Bool(false))));
        } else {
            assert(entries_view(e@) =~= base);
        }
        reveal_strlit("type");
        reveal_strlit("properties");
        reveal_strlit("required");
        reveal_strlit("additionalProperties");
        assert("type"@.len() != "properties"@.len());
        assert("type"@.len() != "required"@.len());
        assert("type"@.len() != "additionalProperties"@.len());
        assert("properties"@.len() != "required"@.len());
        assert("properties"@.len() != "additionalProperties"@.len());
        assert("required"@.len() != "additionalProperties"@.len());
        lemma_few_keys_distinct(entries_view(e@));
    }
    json_object(e)
}

/// A tool definition value.
pub(crate) fn tool_def_value(name: &str, desc: &str, schema: serde_json::Value) -> (r: serde_json::Value)
    ensures
        json_tree(r) == tool_def(name@, desc@, json_tree(schema)),
{
    let ghost st = json_tree(schema);
    let mut e: Vec<(String, serde_json::Value)> = Vec::new();
    proof {
        assert(entries_view(e@) =~= Seq::empty());
    }
    push_entry(&mut e, "name", json_string(name));
    push_entry(&mut e, "description", json_string(desc));
    push_entry(&mut e, "input_schema", schema);
    proof {
        assert(entries_view(e@) =~= seq![
            ("name"@, JsonTree::Str(name@)),
            ("description"@, JsonTree::Str(desc@)),
            ("input_schema"@, st),
        ]);
        reveal_strlit("name");
        reveal_strlit("description");
        reveal_strlit("input_schema");
        assert("name"@.len() != "description"@.len());
        assert("name"@.len() != "input_schema"@.len());
        assert("description"@.len() != "input_schema"@.len());
        lemma_few_keys_distinct(entries_view(e@));
    }
    json_object(e)
}

/// The `edits` property of the edit tool: an array of closed objects with
/// required string members `oldText` and `newText`.
pub open spec fn edits_prop() -> JsonTree {
    JsonTree::Obj(
        map_of(
            seq![
                ("type"@, JsonTree::Str("array"@)),
                (
                    "items"@,
                    schema_tree(
                        seq![
                            ("oldText"@, prop_tree("string"@, None)),
                            ("newText"@, prop_tree("string"@, None)),
                        ],
                        seq!["oldText"@, "newText"@],
                        true,
                    ),
                ),
            ],
        ),
    )
}

/// The `edits` property value.
fn edits_prop_value() -> (r: serde_json::Value)
    ensures
        json_tree(r) == edits_prop(),
{
    let mut p: Vec<(String, serde_json::Value)> = Vec::new();
    proof {
        assert(entries_view(p@) =~= Seq::empty());
    }
    push_entry(&mut p, "oldText", prop_value("string", None));
    push_entry(&mut p, "newText", prop_value("string", None));
    let ghost pv = entries_view(p@);
    let mut req: Vec<String> = Vec::new();
    req.push("oldText".to_owned());
    req.push("newText".to_owned());
    proof {
        assert(pv =~= seq![("oldText"@, prop_tree("string"@, None)), ("newText"@, prop_tree("string"@, None))]);
        assert(strings_view(req@) =~= seq!["oldText"@, "newText"@]);
        reveal_strlit("oldText");
        reveal_strlit("newText");
        assert("oldText"@ != "newText"@) by {
            assert("oldText"@[0] != "newText"@[0]);
        }
        lemma_few_keys_distinct(pv);
    }
    let items = schema_value(p, req, true);
    let ghost it = json_tree(items);
    let mut e: Vec<(String, serde_json::Value)> = Vec::new();
    proof {
        assert(entries_view(e@) =~= Seq::empty());
    }
    push_entry(&mut e, "type", json_string("array"));
    push_entry(&mut e, "items", items);
    proof {
        assert(entries_view(e@) =~= seq![("type"@, JsonTree::Str("array"@)), ("items"@, it)]);
        reveal_strlit("type");
        reveal_strlit("items");
        assert("type"@.len() != "items"@.len());
        lemma_few_keys_distinct(entries_view(e@));
    }
    json_object(e)
}

/// The definition of the `read` tool.
pub open spec fn read_definition() -> JsonTree {
    tool_def(
        "read"@,
        "Read file content. Supports text and images. Text is truncated to 200 lines or 100KB. Use offset/limit for large files. Images are base64 and auto-resized to 2000x2000."@,
        schema_tree(
            seq![
            ("path"@, prop_tree("string"@, Some("Path to the file (relative or absolute)"@))),
            ("offset"@, prop_tree("integer"@, Some("Line number to start from (1-indexed)"@))),
            ("limit"@, prop_tree("integer"@, Some("Maximum number of lines to read"@))),
            ],
            seq!["path"@],
            false,
        ),
    )
}

/// The file reading tool.
#[derive(Debug)]
pub struct ReadTool {
    pub cwd: String,
}

impl ReadTool {
    /// The tool working in `cwd`.
    pub fn new(cwd: String) -> (t: ReadTool)
        ensures
            t.cwd@ == cwd@,
    {
        ReadTool { cwd }
    }

    /// The tool's name.
    pub fn name(&self) -> (r: &'static str)
        ensures
            r@ == "read"@,
    {
        "read"
    }

    /// The tool's definition.
    pub fn definition(&self) -> (r: serde_json::Value)
        ensures
            json_tree(r) == read_definition(),
    {
        let mut p: Vec<(String, serde_json::Value)> = Vec::new();
        proof {
            assert(entries_view(p@) =~= Seq::empty());
        }
        push_entry(&mut p, "path", prop_value("string", Some("Path to the file (relative or absolute)")));
        push_entry(&mut p, "offset", prop_value("integer", Some("Line number to start from (1-indexed)")));
        push_entry(&mut p, "limit", prop_value("integer", Some("Maximum number of lines to read")));
        let ghost pv = entries_view(p@);
        let mut req: Vec<String> = Vec::new();
        req.push("path".to_owned());
        proof {
            assert(pv =~= seq![
            ("path"@, prop_tree("string"@, Some("Path to the file (relative or absolute)"@))),
            ("offset"@, prop_tree("integer"@, Some("Line number to start from (1-indexed)"@))),
            ("limit"@, prop_tree("integer"@, Some("Maximum number of lines to read"@))),
            ]);
            assert(strings_view(req@) =~= seq!["path"@]);
            reveal_strlit("path");
            reveal_strlit("offset");
            reveal_strlit("limit");
            assert("path"@.len() != "offset"@.len());
            assert("path"@.len() != "limit"@.len());
            assert("offset"@.len() != "limit"@.len());
            lemma_few_keys_distinct(pv);
        }
        let schema = schema_value(p, req, false);
        tool_def_value("read", "Read file content. Supports text and images. Text is truncated to 200 lines or 100KB. Use offset/limit for large files. Images are base64 and auto-resized to 2000x2000.", schema)
    }
}

/// The definition of the `write` tool.
pub open spec fn write_definition() -> JsonTree {
    tool_def(
        "write"@,
        "Write content to a file. Creates if missing, overwrites if exists, and creates parent directories."@,
        schema_tree(
            seq![
            ("path"@, prop_tree("string"@, Some("Path to the file (relative or absolute)"@))),
            ("content"@, prop_tree("string"@, Some("Content to write"@))),
            ],
            seq!["path"@, "content"@],
            false,
        ),
    )
}

/// The file writing tool.
#[derive(Debug)]
pub struct WriteTool {
    pub cwd: String,
}

impl WriteTool {
    /// The tool working in `cwd`.
    pub fn new(cwd: String) -> (t: WriteTool)
        ensures
            t.cwd@ == cwd@,
    {
        WriteTool { cwd }
    }

    /// The tool's name.
    pub fn name(&self) -> (r: &'static str)
        ensures
            r@ == "write"@,
    {
        "write"
    }

    /// The tool's definition.
    pub fn definition(&self) -> (r: serde_json::Value)
        ensures
            json_tree(r) == write_definition(),
    {
        let mut p: Vec<(String, serde_json::Value)> = Vec::new();
        proof {
            assert(entries_view(p@) =~= Seq::empty());
        }
        push_entry(&mut p, "path", prop_value("string", Some("Path to the file (relative or absolute)")));
        push_entry(&mut p, "content", prop_value("string", Some("Content to write")));
        let ghost pv = entries_view(p@);
        let mut req: Vec<String> = Vec::new();
        req.push("path".to_owned());
        req.push("content".to_owned());
        proof {
            assert(pv =~= seq![
            ("path"@, prop_tree("string"@, Some("Path to the file (relative or absolute)"@))),
            ("content"@, prop_tree("string"@, Some("Content to write"@))),
            ]);
            assert(strings_view(req@) =~= seq!["path"@, "content"@]);
            reveal_strlit("path");
            reveal_strlit("content");
            assert("path"@.len() != "content"@.len());
            lemma_few_keys_distinct(pv);
        }
        let schema = schema_value(p, req, false);
        tool_def_value("write", "Write content to a file. Creates if missing, overwrites if exists, and creates parent directories.", schema)
    }
}

/// The definition of the `edit` tool.
pub open spec fn edit_definition() -> JsonTree {
    tool_def(
        "edit"@,
        "Edit a single file using exact text replacement. Each edits[].oldText must match uniquely and not overlap."@,
        schema_tree(
            seq![
            ("path"@, prop_tree("string"@, None)),
            ("edits"@, edits_prop()),
            ("oldText"@, prop_tree("string"@, None)),
            ("newText"@, prop_tree("string"@, None)),
            ],
            seq!["path"@, "edits"@],
            true,
        ),
    )
}

/// The exact-replacement editing tool.
#[derive(Debug)]
pub struct EditTool {
    pub cwd: String,
}

impl EditTool {
    /// The tool working in `cwd`.
    pub fn new(cwd: String) -> (t: EditTool)
        ensures
            t.cwd@ == cwd@,
    {
        EditTool { cwd }
    }

    /// The tool's name.
    pub fn name(&self) -> (r: &'static str)
        ensures
            r@ == "edit"@,
    {
        "edit"
    }

    /// The tool's definition.
    pub fn definition(&self) -> (r: serde_json::Value)
        ensures
            json_tree(r) == edit_definition(),
    {
        let mut p: Vec<(String, serde_json::Value)> = Vec::new();
        proof {
            assert(entries_view(p@) =~= Seq::empty());
        }
        push_entry(&mut p, "path", prop_value("string", None));
        push_entry(&mut p, "edits", edits_prop_value());
        push_entry(&mut p, "oldText", prop_value("string", None));
        push_entry(&mut p, "newText", prop_value("string", None));
        let ghost pv = entries_view(p@);
        let mut req: Vec<String> = Vec::new();
        req.push("path".to_owned());
        req.push("edits".to_owned());
        proof {
            assert(pv =~= seq![
            ("path"@, prop_tree("string"@, None)),
            ("edits"@, edits_prop()),
            ("oldText"@, prop_tree("string"@, None)),
            ("newText"@, prop_tree("string"@, None)),
            ]);
            assert(strings_view(req@) =~= seq!["path"@, "edits"@]);
            reveal_strlit("path");
            reveal_strlit("edits");
            reveal_strlit("oldText");
            reveal_strlit("newText");
            assert("path"@.len() != "edits"@.len());
            assert("path"@.len() != "oldText"@.len());
            assert("path"@.len() != "newText"@.len());
            assert("edits"@.len() != "oldText"@.len());
            assert("edits"@.len() != "newText"@.len());
            assert("oldText"@ != "newText"@) by {
                assert("oldText"@[0] != "newText"@[0]);
            }
            lemma_few_keys_distinct(pv);
        }
        let schema = schema_value(p, req, true);
        tool_def_value("edit", "Edit a single file using exact text replacement. Each edits[].oldText must match uniquely and not overlap.", schema)
    }
}

/// The definition of the `bash` tool.
pub open spec fn bash_definition() -> JsonTree {
    tool_def(
        "bash"@,
        "Execute a bash command in the current working directory. Output is truncated to last 200 lines or 100KB; full output is saved to a temp file when truncated."@,
        schema_tree(
            seq![
            ("command"@, prop_tree("string"@, Some("Bash command to execute"@))),
            ("timeout"@, prop_tree("integer"@, Some("Timeout in seconds (optional, no default timeout)"@))),
            ],
            seq!["command"@],
            false,
        ),
    )
}

/// The shell tool of the daemon.
#[derive(Debug)]
pub struct BashTool {
    pub cwd: String,
}

impl BashTool {
    /// The tool working in `cwd`.
    pub fn new(cwd: String) -> (t: BashTool)
        ensures
            t.cwd@ == cwd@,
    {
        BashTool { cwd }
    }

    /// The tool's name.
    pub fn name(&self) -> (r: &'static str)
        ensures
            r@ == "bash"@,
    {
        "bash"
    }

    /// The tool's definition.
    pub fn definition(&self) -> (r: serde_json::Value)
        ensures
            json_tree(r) == bash_definition(),
    {
        let mut p: Vec<(String, serde_json::Value)> = Vec::new();
        proof {
            assert(entries_view(p@) =~= Seq::empty());
        }
        push_entry(&mut p, "command", prop_value("string", Some("Bash command to execute")));
        push_entry(&mut p, "timeout", prop_value("integer", Some("Timeout in seconds (optional, no default timeout)")));
        let ghost pv = entries_view(p@);
        let mut req: Vec<String> = Vec::new();
        req.push("command".to_owned());
        proof {
            assert(pv =~= seq![
            ("command"@, prop_tree("string"@, Some("Bash command to execute"@))),
            ("timeout"@, prop_tree("integer"@, Some("Timeout in seconds (optional, no default timeout)"@))),
            ]);
            assert(strings_view(req@) =~= seq!["command"@]);
            reveal_strlit("command");
            reveal_strlit("timeout");
            assert("command"@ != "timeout"@) by {
                assert("command"@[0] != "timeout"@[0]);
            }
            lemma_few_keys_distinct(pv);
        }
        let schema = schema_value(p, req, false);
        tool_def_value("bash", "Execute a bash command in the current working directory. Output is truncated to last 200 lines or 100KB; full output is saved to a temp file when truncated.", schema)
    }
}

} // verus!
