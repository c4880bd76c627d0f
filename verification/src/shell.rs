//! The single-shell tool: one `bash` tool without a working directory of
//! its own, and the text it reports for a command's output.
use vstd::prelude::*;
use crate::json::{entries_view, json_tree, lemma_few_keys_distinct, JsonTree};
use crate::text::strings_view;
use crate::text::{chars_of, push_str, string_of};
use crate::tool_defs::{prop_tree, prop_value, schema_tree, schema_value, tool_def, tool_def_value};
use crate::json::push_entry;
use crate::tools::{push_signed, signed_decimal};

verus! {

/// The definition of the single-shell `bash` tool.
pub open spec fn shell_definition() -> JsonTree {
    tool_def(
        "bash"@,
        "Execute a bash command and return its output."@,
        schema_tree(
            seq![
                ("command"@, prop_tree("string"@, Some("The bash command to execute"@))),
                ("timeout"@, prop_tree("integer"@, Some("Timeout in seconds. Default 120."@))),
            ],
            seq!["command"@],
            false,
        ),
    )
}

/// The single-shell tool.
#[derive(Debug)]
pub struct BashTool;

impl BashTool {
    /// The tool's name.
    pub fn name(&self) -> (r: &'static str)
        ensures
            r@ == "bash"@,
    {
        "bash"
    }

    /// The tool's definition.
    pub fn definition(&self) -> (r: serde_json::Value)
        ensures
            json_tree(r) == shell_definition(),
    {
        let mut p: Vec<(String, serde_json::Value)> = Vec::new();
        proof {
            assert(entries_view(p@) =~= Seq::empty());
        }
        push_entry(&mut p, "command", prop_value("string", Some("The bash command to execute")));
        push_entry(&mut p, "timeout", prop_value("integer", Some("Timeout in seconds. Default 120.")));
        let ghost pv = entries_view(p@);
        let mut req: Vec<String> = Vec::new();
        req.push("command".to_owned());
        proof {
            assert(pv =~= seq![
                ("command"@, prop_tree("string"@, Some("The bash command to execute"@))),
                ("timeout"@, prop_tree("integer"@, Some("Timeout in seconds. Default 120."@))),
            ]);
            assert(strings_view(req@) =~= seq!["command"@]);
            reveal_strlit("command");
            reveal_strlit("timeout");
            assert("command"@ != "timeout"@) by {
                assert("command"@[0] != "timeout"@[0]);
            }
            lemma_few_keys_distinct(pv);
        }
        let schema = schema_value(p, req, false);
        tool_def_value("bash", "Execute a bash command and return its output.", schema)
    }
}

/// The output of a shell command as the single-shell tool reports it: the
/// standard output, then `[stderr]` and the error output (on a new line after
/// any output), then the exit code when the command failed.
pub open spec fn shell_report(stdout: Seq<char>, stderr: Seq<char>, failed_code: Option<int>) -> Seq<
    char,
> {
    let a = stdout;
    let b = if stderr.len() > 0 {
        a + (if a.len() > 0 {
            "\n"@
        } else {
            Seq::empty()
        }) + "[stderr]\n"@ + stderr
    } else {
        a
    };
    match failed_code {
        Some(c) => b + "\n[exit code: "@ + signed_decimal(c) + "]"@,
        None => b,
    }
}

/// Composes a shell command's output (`code` is the exit code of a failed
/// command, `-1` when it was killed by a signal).
pub fn shell_output(stdout: &str, stderr: &str, success: bool, code: Option<i32>) -> (r: String)
    ensures
        r@ == shell_report(
            stdout@,
            stderr@,
            if success {
                None
            } else {
                Some(
                    match code {
                        Some(c) => c as int,
                        None => -1,
                    },
                )
            },
        ),
{
    let mut c = chars_of(stdout);
    if stderr.unicode_len() > 0 {
        if c.len() > 0 {
            push_str(&mut c, "\n");
        }
        push_str(&mut c, "[stderr]\n");
        push_str(&mut c, stderr);
        proof {
            reveal_strlit("\n");
        }
    }
    if !success {
        push_str(&mut c, "\n[exit code: ");
        let n: i64 = match code {
            Some(x) => x as i64,
            None => -1,
        };
        push_signed(&mut c, n);
        push_str(&mut c, "]");
    }
    proof {
        reveal_strlit("\n");
    }
    string_of(c.as_slice())
}


} // verus!
