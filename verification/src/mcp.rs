//! What `mash mcp list` and `mash mcp tools` print about the configured MCP
//! servers and the tools they offer.
use vstd::prelude::*;
use crate::json::{
    json_as_array, json_as_str, json_get, json_keys, json_tree, keys_in_order, lemma_ordered_keys, obj_get,
    ordered_keys, str_field, str_member, JsonTree,
};
use crate::llm::opt_view;
use crate::tasks::slice_eq;
use crate::text::{
    chars_of, decimal, join, lines, lines_of, push_all, push_decimal, push_str, string_of,
    strings_view,
};

verus! {

/// A tool that an MCP server offers: its name, description and input schema.
#[derive(Debug)]
pub struct McpTool {
    pub name: String,
    pub description: Option<String>,
    pub input_schema: serde_json::Value,
}

/// How connecting to a configured server went, as `mash mcp list` reports it.
#[derive(Debug)]
pub enum McpStatus {
    /// The server is disabled in the configuration; no connection was tried.
    Disabled,
    /// Connected; the server offers this many tools.
    Connected(usize),
    /// The connection failed with this error.
    Failed(String),
    /// The connection did not complete in time.
    TimedOut,
}

/// The lines that start `mash mcp list`, for a configuration of `n` servers.
pub open spec fn list_header_lines(n: nat) -> Seq<Seq<char>> {
    if n == 0 {
        seq!["No MCP servers configured."@, "Add servers to ~/.mash/mcp.json"@]
    } else {
        seq!["MCP Servers:\n"@]
    }
}

/// The lines that start `mash mcp list`; with no server configured they are all
/// it prints.
pub fn mcp_list_header(n: usize) -> (r: Vec<String>)
    ensures
        strings_view(r@) == list_header_lines(n as nat),
{
    let mut out: Vec<String> = Vec::new();
    if n == 0 {
        out.push("No MCP servers configured.".to_owned());
        out.push("Add servers to ~/.mash/mcp.json".to_owned());
    } else {
        out.push("MCP Servers:\n".to_owned());
    }
    proof {
        assert(strings_view(out@) =~= list_header_lines(n as nat));
    }
    out
}

/// A server's command line: the command, then its arguments separated by spaces.
pub open spec fn command_line(command: Seq<char>, args: Seq<Seq<char>>) -> Seq<char> {
    if args.len() == 0 {
        command
    } else {
        command + " "@ + join(args, " "@)
    }
}

/// What follows a server's line for each outcome of connecting to it.
pub open spec fn status_text(status: McpStatus) -> Seq<char> {
    match status {
        McpStatus::Disabled => "  — disabled"@,
        McpStatus::Connected(n) => "  — ✓ connected ("@ + decimal(n as nat) + " tools)"@,
        McpStatus::Failed(e) => "  — ✗ "@ + e@,
        McpStatus::TimedOut => "  — ✗ timeout"@,
    }
}

/// The line `mash mcp list` prints for one server.
pub open spec fn server_line(
    name: Seq<char>,
    command: Seq<char>,
    args: Seq<Seq<char>>,
    status: McpStatus,
) -> Seq<char> {
    "  "@ + name + "  ["@ + command_line(command, args) + "]"@ + status_text(status)
}

/// The line `mash mcp list` prints for the server `name`, run as `command`
/// with `args`, after trying to connect to it.
pub fn mcp_server_line(name: &str, command: &str, args: &Vec<String>, status: &McpStatus) -> (r:
    String)
    ensures
        r@ == server_line(name@, command@, strings_view(args@), *status),
{
    let mut c = chars_of("  ");
    push_str(&mut c, name);
    push_str(&mut c, "  [");
    push_str(&mut c, command);
    if args.len() > 0 {
        push_str(&mut c, " ");
        let mut i: usize = 0;
        let ghost start = c@;
        proof {
            assert(strings_view(args@).take(0) =~= Seq::<Seq<char>>::empty());
        }
        while i < args.len()
            invariant
                i <= args@.len(),
                c@ == start + join(strings_view(args@).take(i as int), " "@),
            decreases args@.len() - i,
        {
            let ghost before = c@;
            if i > 0 {
                push_str(&mut c, " ");
            }
            push_str(&mut c, args[i].as_str());
            proof {
                let t = strings_view(args@).take(i as int);
                assert(strings_view(args@).take(i + 1) =~= t.push(args@[i as int]@));
                assert(t.push(args@[i as int]@).drop_last() =~= t);
                if i == 0 {
                    assert(t.push(args@[i as int]@) =~= seq![args@[i as int]@]);
                }
            }
            i = i + 1;
        }
        proof {
            assert(strings_view(args@).take(i as int) =~= strings_view(args@));
        }
    }
    push_str(&mut c, "]");
    match status {
        McpStatus::Disabled => push_str(&mut c, "  — disabled"),
        McpStatus::Connected(n) => {
            push_str(&mut c, "  — ✓ connected (");
            push_decimal(&mut c, *n as u128);
            push_str(&mut c, " tools)");
        },
        McpStatus::Failed(e) => {
            push_str(&mut c, "  — ✗ ");
            push_str(&mut c, e.as_str());
        },
        McpStatus::TimedOut => push_str(&mut c, "  — ✗ timeout"),
    }
    let r = string_of(c.as_slice());
    proof {
        assert(r@ =~= server_line(name@, command@, strings_view(args@), *status));
    }
    r
}

/// What `mash mcp tools` prints for a server that the configuration lacks.
pub open spec fn not_found_lines(name: Seq<char>, available: Seq<Seq<char>>) -> Seq<Seq<char>> {
    seq!["MCP server '"@ + name + "' not found in config."@] + if available.len() == 0 {
        Seq::<Seq<char>>::empty()
    } else {
        seq!["Available: "@ + join(available, ", "@)]
    }
}

/// What `mash mcp tools` prints when `name` is not among the `available`
/// servers of the configuration.
pub fn mcp_not_found(name: &str, available: &Vec<String>) -> (r: Vec<String>)
    ensures
        strings_view(r@) == not_found_lines(name@, strings_view(available@)),
{
    let mut out: Vec<String> = Vec::new();
    let mut c = chars_of("MCP server '");
    push_str(&mut c, name);
    push_str(&mut c, "' not found in config.");
    out.push(string_of(c.as_slice()));
    if available.len() > 0 {
        let mut d = chars_of("Available: ");
        let ghost start = d@;
        let mut i: usize = 0;
        proof {
            assert(strings_view(available@).take(0) =~= Seq::<Seq<char>>::empty());
        }
        while i < available.len()
            invariant
                i <= available@.len(),
                d@ == start + join(strings_view(available@).take(i as int), ", "@),
            decreases available@.len() - i,
        {
            if i > 0 {
                push_str(&mut d, ", ");
            }
            push_str(&mut d, available[i].as_str());
            proof {
                let t = strings_view(available@).take(i as int);
                assert(strings_view(available@).take(i + 1) =~= t.push(available@[i as int]@));
                assert(t.push(available@[i as int]@).drop_last() =~= t);
                if i == 0 {
                    assert(t.push(available@[i as int]@) =~= seq![available@[i as int]@]);
                }
            }
            i = i + 1;
        }
        proof {
            assert(strings_view(available@).take(i as int) =~= strings_view(available@));
        }
        out.push(string_of(d.as_slice()));
    }
    proof {
        assert(strings_view(out@) =~= not_found_lines(name@, strings_view(available@)));
    }
    out
}

/// The line `mash mcp tools` prints before connecting to the server.
pub fn mcp_connecting(name: &str) -> (r: String)
    ensures
        r@ == "Connecting to '"@ + name@ + "'..."@,
{
    let mut c = chars_of("Connecting to '");
    push_str(&mut c, name);
    push_str(&mut c, "'...");
    string_of(c.as_slice())
}

/// The type that a parameter's schema names; `any` where it names none.
pub open spec fn param_type(p: JsonTree) -> Seq<char> {
    match str_member(p, "type"@) {
        Some(t) => t,
        None => "any"@,
    }
}

/// Whether the schema's `required` list holds the name `p`.
pub open spec fn is_required(schema: JsonTree, p: Seq<char>) -> bool {
    match obj_get(schema, "required"@) {
        Some(JsonTree::Arr(items)) => items.contains(JsonTree::Str(p)),
        _ => false,
    }
}

/// The line for parameter `p`: its name, its type, and ` *` when it is required.
pub open spec fn param_line(schema: JsonTree, props: Map<Seq<char>, JsonTree>, p: Seq<char>) -> Seq<
    char,
> {
    "      "@ + p + ": "@ + param_type(props[p]) + if is_required(schema, p) {
        " *"@
    } else {
        Seq::<char>::empty()
    }
}

/// The first three lines of a description (all of them if it has fewer).
pub open spec fn first_lines(d: Seq<char>) -> Seq<Seq<char>> {
    let ls = lines_of(d);
    if ls.len() <= 3 {
        ls
    } else {
        ls.take(3)
    }
}

/// The lines `mash mcp tools` prints for one tool: its name, the start of its
/// description, its parameters in key order, then an empty line.
pub open spec fn tool_lines(name: Seq<char>, desc: Option<Seq<char>>, schema: JsonTree) -> Seq<
    Seq<char>,
> {
    seq!["  "@ + name] + match desc {
        Some(d) => first_lines(d).map_values(|l: Seq<char>| "    "@ + l),
        None => Seq::<Seq<char>>::empty(),
    } + match obj_get(schema, "properties"@) {
        Some(JsonTree::Obj(props)) => seq!["    params:"@] + ordered_keys(props).map_values(
            |p: Seq<char>| param_line(schema, props, p),
        ),
        _ => Seq::<Seq<char>>::empty(),
    } + seq![Seq::<char>::empty()]
}

/// The lines of one tool, from the tool's fields.
pub open spec fn lines_of_tool(t: McpTool) -> Seq<Seq<char>> {
    tool_lines(t.name@, opt_view(t.description), json_tree(t.input_schema))
}

/// What `mash mcp tools` prints for the tools of server `server`.
pub open spec fn tools_report_lines(server: Seq<char>, tools: Seq<McpTool>) -> Seq<Seq<char>> {
    if tools.len() == 0 {
        seq!["No tools available."@]
    } else {
        seq!["\nTools for '"@ + server + "' ("@ + decimal(tools.len()) + " total):\n"@]
            + tools.map_values(|t: McpTool| lines_of_tool(t)).flatten()
    }
}

/// Whether `schema`'s `required` list holds the name `p`.
fn schema_requires(schema: &serde_json::Value, p: &str) -> (b: bool)
    ensures
        b == is_required(json_tree(*schema), p@),
{
    let req = match json_get(schema, "required") {
        Some(r) => r,
        None => return false,
    };
    let items = match json_as_array(req) {
        Some(a) => a,
        None => return false,
    };
    let ghost ts = json_tree(*req)->Arr_0;
    let mut i: usize = 0;
    while i < items.len()
        invariant
            i <= items@.len(),
            obj_get(json_tree(*schema), "required"@) == Some(JsonTree::Arr(ts)),
            items@.len() == ts.len(),
            forall|j: int| 0 <= j < items@.len() ==> json_tree(#[trigger] items@[j]) == ts[j],
            forall|j: int| 0 <= j < i ==> ts[j] != JsonTree::Str(p@),
        decreases items@.len() - i,
    {
        match json_as_str(&items[i]) {
            Some(s) => {
                let sc = chars_of(s);
                let pc = chars_of(p);
                if slice_eq(sc.as_slice(), pc.as_slice()) {
                    proof {
                        assert(ts[i as int] == JsonTree::Str(p@));
                        assert(ts.contains(JsonTree::Str(p@)));
                    }
                    return true;
                }
            },
            None => {},
        }
        i = i + 1;
    }
    proof {
        if ts.contains(JsonTree::Str(p@)) {
            let j = choose|j: int| 0 <= j < ts.len() && ts[j] == JsonTree::Str(p@);
            assert(ts[j] != JsonTree::Str(p@));
        }
    }
    false
}

/// The lines for a tool's parameters, the members of `props` in key order.
fn param_lines(schema: &serde_json::Value, props: &serde_json::Value, out: &mut Vec<String>)
    requires
        json_tree(*props) is Obj,
    ensures
        strings_view(final(out)@) == strings_view(old(out)@) + ordered_keys(
            json_tree(*props)->Obj_0,
        ).map_values(|p: Seq<char>| param_line(json_tree(*schema), json_tree(*props)->Obj_0, p)),
{
    let ghost m = json_tree(*props)->Obj_0;
    let ghost f = |p: Seq<char>| param_line(json_tree(*schema), m, p);
    let keys = match json_keys(props) {
        Some(ks) => ks,
        None => return,
    };
    proof {
        lemma_ordered_keys(strings_view(keys@), m);
    }
    let ghost ks = strings_view(keys@);
    let ghost start = strings_view(out@);
    let mut i: usize = 0;
    proof {
        assert(strings_view(out@) =~= start + ks.take(0).map_values(f));
    }
    while i < keys.len()
        invariant
            i <= keys@.len(),
            ks == strings_view(keys@),
            ks == ordered_keys(m),
            keys_in_order(ks, m),
            json_tree(*props) == JsonTree::Obj(m),
            f == (|p: Seq<char>| param_line(json_tree(*schema), m, p)),
            strings_view(out@) == start + ks.take(i as int).map_values(f),
        decreases keys@.len() - i,
    {
        let k = keys[i].as_str();
        proof {
            assert(ks[i as int] == keys@[i as int]@);
            assert(ks.contains(ks[i as int]));
            assert(m.contains_key(k@));
        }
        let mut c = chars_of("      ");
        push_str(&mut c, k);
        push_str(&mut c, ": ");
        let ty = match json_get(props, k) {
            Some(p) => str_field(p, "type"),
            None => None,
        };
        proof {
            assert(obj_get(json_tree(*props), k@) == Some(m[k@]));
            assert(opt_view(ty) == str_member(m[k@], "type"@));
        }
        match ty {
            Some(t) => push_str(&mut c, t.as_str()),
            None => push_str(&mut c, "any"),
        }
        proof {
            assert(c@ =~= "      "@ + k@ + ": "@ + param_type(m[k@]));
        }
        let ghost mid = c@;
        let rq = schema_requires(schema, k);
        if rq {
            push_str(&mut c, " *");
        }
        proof {
            assert(rq == is_required(json_tree(*schema), k@));
            if !rq {
                assert(c@ =~= mid + Seq::<char>::empty());
            }
            assert(c@ =~= param_line(json_tree(*schema), m, k@));
        }
        let line = string_of(c.as_slice());
        let ghost before = out@;
        out.push(line);
        proof {
            assert(line@ =~= f(ks[i as int]));
            assert(strings_view(out@) =~= strings_view(before).push(line@));
            assert(ks.take(i + 1).map_values(f) =~= ks.take(i as int).map_values(f).push(
                f(ks[i as int]),
            ));
        }
        i = i + 1;
    }
    proof {
        assert(ks.take(i as int) =~= ks);
    }
}

/// The lines `mash mcp tools` prints for one tool.
fn push_tool_lines(t: &McpTool, out: &mut Vec<String>)
    ensures
        strings_view(final(out)@) == strings_view(old(out)@) + lines_of_tool(*t),
{
    let ghost start = strings_view(out@);
    let mut c = chars_of("  ");
    push_str(&mut c, t.name.as_str());
    out.push(string_of(c.as_slice()));
    let ghost after_name = strings_view(out@);
    proof {
        assert(after_name =~= start + seq!["  "@ + t.name@]);
    }
    let ghost dl = match opt_view(t.description) {
        Some(d) => first_lines(d).map_values(|l: Seq<char>| "    "@ + l),
        None => Seq::<Seq<char>>::empty(),
    };
    match &t.description {
        Some(d) => {
            let dc = chars_of(d.as_str());
            let ls = lines(dc.as_slice());
            let n: usize = if ls.len() <= 3 {
                ls.len()
            } else {
                3
            };
            let ghost g = |l: Seq<char>| "    "@ + l;
            let mut j: usize = 0;
            proof {
                assert(strings_view(out@) =~= after_name + first_lines(d@).take(0).map_values(g));
            }
            while j < n
                invariant
                    j <= n,
                    n <= ls@.len(),
                    n == first_lines(d@).len(),
                    ls@.len() == lines_of(d@).len(),
                    forall|x: int| 0 <= x < ls@.len() ==> #[trigger] ls@[x]@ == lines_of(d@)[x],
                    g == (|l: Seq<char>| "    "@ + l),
                    strings_view(out@) == after_name + first_lines(d@).take(j as int).map_values(g),
                decreases n - j,
            {
                let mut e = chars_of("    ");
                push_all(&mut e, ls[j].as_slice());
                let line = string_of(e.as_slice());
                let ghost before = out@;
                out.push(line);
                proof {
                    assert(first_lines(d@)[j as int] == lines_of(d@)[j as int]);
                    assert(strings_view(out@) =~= strings_view(before).push(line@));
                    assert(first_lines(d@).take(j + 1).map_values(g) =~= first_lines(d@).take(
                        j as int,
                    ).map_values(g).push(g(first_lines(d@)[j as int])));
                }
                j = j + 1;
            }
            proof {
                assert(first_lines(d@).take(j as int) =~= first_lines(d@));
            }
        },
        None => {
            proof {
                assert(strings_view(out@) =~= after_name + dl);
            }
        },
    }
    let ghost after_desc = strings_view(out@);
    let ghost sch = json_tree(t.input_schema);
    let ghost pl = match obj_get(sch, "properties"@) {
        Some(JsonTree::Obj(props)) => seq!["    params:"@] + ordered_keys(props).map_values(
            |p: Seq<char>| param_line(sch, props, p),
        ),
        _ => Seq::<Seq<char>>::empty(),
    };
    match json_get(&t.input_schema, "properties") {
        Some(props) => {
            if crate::json::json_is_object(props) {
                out.push("    params:".to_owned());
                param_lines(&t.input_schema, props, out);
                proof {
                    assert(strings_view(out@) =~= after_desc + pl);
                }
            } else {
                proof {
                    assert(strings_view(out@) =~= after_desc + pl);
                }
            }
        },
        None => {
            proof {
                assert(strings_view(out@) =~= after_desc + pl);
            }
        },
    }
    let ghost before = out@;
    out.push(String::new());
    proof {
        assert(strings_view(out@) =~= strings_view(before).push(Seq::<char>::empty()));
        assert(after_desc == start + seq!["  "@ + t.name@] + dl);
        assert(strings_view(out@) =~= start + lines_of_tool(*t));
    }
}

/// What `mash mcp tools` prints for the tools that server `server` offers.
pub fn mcp_tools_report(server: &str, tools: &Vec<McpTool>) -> (r: Vec<String>)
    ensures
        strings_view(r@) == tools_report_lines(server@, tools@),
{
    let mut out: Vec<String> = Vec::new();
    if tools.len() == 0 {
        out.push("No tools available.".to_owned());
        proof {
            assert(strings_view(out@) =~= tools_report_lines(server@, tools@));
        }
        return out;
    }
    let mut c = chars_of("\nTools for '");
    push_str(&mut c, server);
    push_str(&mut c, "' (");
    push_decimal(&mut c, tools.len() as u128);
    push_str(&mut c, " total):\n");
    out.push(string_of(c.as_slice()));
    let ghost head = strings_view(out@);
    let ghost f = |t: McpTool| lines_of_tool(t);
    let mut i: usize = 0;
    proof {
        assert(tools@.take(0).map_values(f) =~= Seq::<Seq<Seq<char>>>::empty());
        assert(strings_view(out@) =~= head + tools@.take(0).map_values(f).flatten());
    }
    while i < tools.len()
        invariant
            i <= tools@.len(),
            f == (|t: McpTool| lines_of_tool(t)),
            strings_view(out@) == head + tools@.take(i as int).map_values(f).flatten(),
        decreases tools@.len() - i,
    {
        let ghost prev = tools@.take(i as int).map_values(f);
        push_tool_lines(&tools[i], &mut out);
        proof {
            assert(tools@.take(i + 1).map_values(f) =~= prev.push(f(tools@[i as int])));
            prev.lemma_flatten_push(f(tools@[i as int]));
        }
        i = i + 1;
    }
    proof {
        assert(tools@.take(i as int) =~= tools@);
        assert(head =~= seq!["\nTools for '"@ + server@ + "' ("@ + decimal(tools@.len()) + " total):\n"@]);
    }
    out
}

} // verus!
