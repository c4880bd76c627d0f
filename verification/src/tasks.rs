//! Task lists: the task-protocol prompt, task blocks in assistant text, task
//! files (markdown checklists or TaskGraph JSONL) and their progress summary.
use vstd::prelude::*;
use crate::json::{
    as_bool, json_as_bool, json_get, json_is_object, json_parse, json_tree, obj_get, parse_json,
    str_field, str_member, JsonTree,
};
use crate::text::{
    chars_of, find, strings_view, push_str, find_chars, has_prefix, lemma_find_from, lines, lines_of, matches_at,
    replace_all, replace_chars, slice_range, starts_with, string_of, trim, trim_chars,
};

verus! {

/// The task-protocol section of the system prompt; `{task_dir}` marks where the
/// task directory goes.
pub const TASK_PROTOCOL: &'static str = r#"## TaskGraph Protocol (JSONL + TaskNode)

**TaskGraph directory (store files under this folder):**
`{task_dir}`

当目标需要多步推进（尤其是并行子任务）时，使用 TaskGraph 管理执行。简单问题不必创建 TaskGraph。

TaskGraph 以 **JSONL** 保存，每行一个 TaskNode。不要在回复正文里粘贴完整文件内容；UI 会从该目录下最新文件读取并展示。

在每一轮需要 TaskGraph 时，先在该目录下生成一个新文件名（例如 `taskgraph_<timestamp>.jsonl`），并在本轮后续读写中始终使用同一文件。

---

### TaskNode Schema

每个 TaskNode 必须包含：

- `id`: string，唯一标识（如 `task_1`）
- `desc`: string，任务描述
- `depen`: string[]，依赖任务 ID 列表，可为空
- `type`: `"inline"` 或 `"subagent"`

其中：

- `inline`：由当前主会话直接执行（串行）。
- `subagent`：必须通过 **bash** 启动子代理执行，即运行  
  `mash agent "<任务描述>"`  
  如需附加规则：`mash agent "<任务描述>" --system "<附加指令>"`。

---

### 1. TaskGraphCreate

需要多步骤任务时，先确定本轮文件路径，再调用 `write` 创建 TaskGraph JSONL。

Example:
write({
  "path": "{task_dir}/taskgraph_1710000000.jsonl",
  "content": "{\"id\":\"task_1\",\"desc\":\"明确目标\",\"depen\":[],\"type\":\"inline\"}\n{\"id\":\"task_2\",\"desc\":\"并行调研方案A\",\"depen\":[\"task_1\"],\"type\":\"subagent\"}\n{\"id\":\"task_3\",\"desc\":\"并行调研方案B\",\"depen\":[\"task_1\"],\"type\":\"subagent\"}\n{\"id\":\"task_4\",\"desc\":\"汇总并决策\",\"depen\":[\"task_2\",\"task_3\"],\"type\":\"inline\"}\n"
})

---

### 2. TaskGraphUpdate

当拆分方案变化时，使用 `read` + `edit` 修改 TaskGraph（尽量一次 edit 完成多处变更）。

Example flow:
1) read({
  "path": "{task_dir}/taskgraph_1710000000.jsonl"
})
2) edit({
  "path": "{task_dir}/taskgraph_1710000000.jsonl",
  "edits": [
    {
      "oldText": "{\"id\":\"task_3\",\"desc\":\"并行调研方案B\",\"depen\":[\"task_1\"],\"type\":\"subagent\"}",
      "newText": "{\"id\":\"task_3\",\"desc\":\"并行调研方案B（缩小范围）\",\"depen\":[\"task_1\"],\"type\":\"subagent\"}"
    }
  ]
})

---

### 3. TaskGraphList

调用 `read` 查看当前 TaskGraph。

read({
  "path": "{task_dir}/taskgraph_1710000000.jsonl"
})

---

### 4. TaskGraphGet

调用 `read` 的 `offset/limit` 分段查看大图。

read({
  "path": "{task_dir}/taskgraph_1710000000.jsonl",
  "offset": 1,
  "limit": 80
})

---

### 执行约束

- 只在依赖满足时执行节点（DAG，无环）。
- 避免多个同时就绪的 `inline` 节点；主会话只能串行处理。
- 可并行工作优先建为 `subagent` 节点。
- 遇到 `subagent` 节点时，使用 bash 启动 `mash agent ...` 执行，并在拿到结果后继续推进后续节点。
"#;


/// The task-protocol prompt with every `{task_dir}` replaced by `task_dir`.
pub fn format_task_prompt(task_dir: &str) -> (r: String)
    ensures
        r@ == replace_all(TASK_PROTOCOL@, "{task_dir}"@, task_dir@),
{
    let template = chars_of(TASK_PROTOCOL);
    let pat = chars_of("{task_dir}");
    let rep = chars_of(task_dir);
    proof {
        reveal_strlit("{task_dir}");
    }
    let out = replace_chars(template.as_slice(), pat.as_slice(), rep.as_slice());
    string_of(out.as_slice())
}

/// Marker that opens a task block in assistant text.
pub open spec fn open_marker() -> Seq<char> {
    "<!-- TASKS"@
}

/// Marker that closes a task block.
pub open spec fn close_marker() -> Seq<char> {
    "TASKS -->"@
}

/// The text between the first opening marker and the first closing marker, when
/// both occur and the closing one starts after the opening one ends.
pub open spec fn tasks_block(text: Seq<char>) -> Option<Seq<char>> {
    match (find(text, open_marker()), find(text, close_marker())) {
        (Some(s), Some(e)) => if e < s + 10 {
            None
        } else {
            Some(text.subrange(s + 10, e))
        },
        _ => None,
    }
}

/// The trimmed lines that start with `- [`, in order.
pub open spec fn task_lines(ls: Seq<Seq<char>>) -> Seq<Seq<char>>
    decreases ls.len(),
{
    if ls.len() == 0 {
        Seq::empty()
    } else {
        let r = task_lines(ls.drop_last());
        let t = trim(ls.last());
        if has_prefix(t, "- ["@) {
            r.push(t)
        } else {
            r
        }
    }
}

/// The task lines of the task block of `text`, if there is a non-empty one.
pub open spec fn parsed_tasks(text: Seq<char>) -> Option<Seq<Seq<char>>> {
    match tasks_block(text) {
        Some(b) => {
            let ls = task_lines(lines_of(b));
            if ls.len() == 0 {
                None
            } else {
                Some(ls)
            }
        },
        None => None,
    }
}

/// Keeps the trimmed lines that start with `- [`.
fn collect_task_lines(ls: &Vec<Vec<char>>) -> (r: Vec<String>)
    ensures
        strings_view(r@) == task_lines(ls@.map_values(|l: Vec<char>| l@)),
{
    let ghost lv = ls@.map_values(|l: Vec<char>| l@);
    let prefix = chars_of("- [");
    let mut out: Vec<String> = Vec::new();
    let mut i: usize = 0;
    proof {
        assert(lv.take(0) =~= Seq::<Seq<char>>::empty());
        assert(strings_view(out@) =~= Seq::<Seq<char>>::empty());
    }
    while i < ls.len()
        invariant
            i <= ls@.len(),
            lv == ls@.map_values(|l: Vec<char>| l@),
            prefix@ == "- ["@,
            strings_view(out@) == task_lines(lv.take(i as int)),
        decreases ls@.len() - i,
    {
        proof {
            assert(lv.take(i + 1).drop_last() =~= lv.take(i as int));
            assert(lv.take(i + 1).last() == ls@[i as int]@);
        }
        let t = trim_chars(ls[i].as_slice());
        if starts_with(t.as_slice(), prefix.as_slice()) {
            let s = string_of(t.as_slice());
            let ghost before = out@;
            out.push(s);
            proof {
                assert(strings_view(out@) =~= strings_view(before).push(s@));
            }
        }
        i = i + 1;
    }
    proof {
        assert(lv.take(i as int) =~= lv);
    }
    out
}

/// The task lines of a task block in assistant text: the trimmed lines starting
/// with `- [` between `<!-- TASKS` and `TASKS -->`; `None` when there is no block
/// or it holds no such line.
pub fn parse_tasks(text: &str) -> (r: Option<Vec<String>>)
    ensures
        r is Some <==> parsed_tasks(text@) is Some,
        r matches Some(v) ==> strings_view(v@) == parsed_tasks(text@)->0,
{
    let t = chars_of(text);
    let open = chars_of("<!-- TASKS");
    let close = chars_of("TASKS -->");
    proof {
        reveal_strlit("<!-- TASKS");
    }
    let start = match find_chars(t.as_slice(), open.as_slice()) {
        Some(s) => s,
        None => return None,
    };
    let end = match find_chars(t.as_slice(), close.as_slice()) {
        Some(e) => e,
        None => return None,
    };
    proof {
        lemma_find_from(t@, open@, 0);
        lemma_find_from(t@, close@, 0);
        assert(find(text@, open_marker()) == Some(start as int));
        assert(find(text@, close_marker()) == Some(end as int));
    }
    if end <= start || end - start < 10 {
        return None;
    }
    let block = slice_range(t.as_slice(), start + 10, end);
    let ls = lines(block.as_slice());
    proof {
        assert(ls@.map_values(|l: Vec<char>| l@) =~= lines_of(block@));
    }
    let found = collect_task_lines(&ls);
    if found.len() == 0 {
        None
    } else {
        Some(found)
    }
}

/// The progress counted so far over TaskGraph lines: (completed, total).
pub open spec fn graph_counts(ls: Seq<Seq<char>>) -> (nat, nat)
    decreases ls.len(),
{
    if ls.len() == 0 {
        (0, 0)
    } else {
        let (d, n) = graph_counts(ls.drop_last());
        let l = trim(ls.last());
        if l.len() == 0 {
            (d, n)
        } else {
            match json_parse(l) {
                Some(t) => if is_task_node(t) {
                    (if node_done(t) {
                        d + 1
                    } else {
                        d
                    }, n + 1)
                } else {
                    (d, n)
                },
                None => (d, n),
            }
        }
    }
}

/// A JSON object with string members `id`, `desc` and `type`.
pub open spec fn is_task_node(t: JsonTree) -> bool {
    &&& t is Obj
    &&& str_member(t, "id"@) is Some
    &&& str_member(t, "desc"@) is Some
    &&& str_member(t, "type"@) is Some
}

/// A task node counts as done when `done` is `true` or `status` is one of
/// `done`, `completed`, `success`.
pub open spec fn node_done(t: JsonTree) -> bool {
    ||| obj_get(t, "done"@) matches Some(c) && as_bool(c) == Some(true)
    ||| str_member(t, "status"@) matches Some(s) && (s == "done"@ || s == "completed"@ || s
        == "success"@)
}

/// A task node's `done` flag decides whether it counts as completed, unless its
/// `status` says done, completed or success: a node whose `done` is the
/// boolean `b` counts as completed exactly when `b` is true.
pub proof fn law_done_flag_decides(t: JsonTree, b: bool)
    requires
        obj_get(t, "done"@) == Some(JsonTree::Bool(b)),
        match str_member(t, "status"@) {
            Some(s) => s != "done"@ && s != "completed"@ && s != "success"@,
            None => true,
        },
    ensures
        node_done(t) == b,
{
}

/// A status of done, completed or success makes a node completed, whatever its
/// `done` member holds; so does a `done` member that is `true`.
pub proof fn law_done_status_counts(t: JsonTree)
    requires
        str_member(t, "status"@) == Some("done"@) || str_member(t, "status"@) == Some("completed"@)
            || str_member(t, "status"@) == Some("success"@) || obj_get(t, "done"@) == Some(
            JsonTree::Bool(true),
        ),
    ensures
        node_done(t),
{
}

/// Adding to a task file a task node line whose `done` is `false` (and whose
/// status is not done, completed or success) adds one task and no completed one.
pub proof fn law_open_node_counts_once(ls: Seq<Seq<char>>, l: Seq<char>, t: JsonTree)
    requires
        trim(l).len() > 0,
        json_parse(trim(l)) == Some(t),
        is_task_node(t),
        obj_get(t, "done"@) == Some(JsonTree::Bool(false)),
        match str_member(t, "status"@) {
            Some(s) => s != "done"@ && s != "completed"@ && s != "success"@,
            None => true,
        },
    ensures
        graph_counts(ls.push(l)) == (graph_counts(ls).0, graph_counts(ls).1 + 1),
{
    assert(ls.push(l).drop_last() =~= ls);
    law_done_flag_decides(t, false);
}

/// Adding a task node line that is completed adds one task and one completed.
pub proof fn law_done_node_counts_once(ls: Seq<Seq<char>>, l: Seq<char>, t: JsonTree)
    requires
        trim(l).len() > 0,
        json_parse(trim(l)) == Some(t),
        is_task_node(t),
        obj_get(t, "done"@) == Some(JsonTree::Bool(true)),
    ensures
        graph_counts(ls.push(l)) == (graph_counts(ls).0 + 1, graph_counts(ls).1 + 1),
{
    assert(ls.push(l).drop_last() =~= ls);
    law_done_status_counts(t);
}

/// Executable `node_done`.
pub fn task_node_done(v: &serde_json::Value) -> (b: bool)
    ensures
        b == node_done(json_tree(*v)),
{
    let by_flag = match json_get(v, "done") {
        Some(c) => match json_as_bool(c) {
            Some(x) => x,
            None => false,
        },
        None => false,
    };
    if by_flag {
        return true;
    }
    match str_field(v, "status") {
        Some(s) => {
            let sv = chars_of(s.as_str());
            let a = chars_of("done");
            let b = chars_of("completed");
            let c = chars_of("success");
            let r = slice_eq(sv.as_slice(), a.as_slice()) || slice_eq(sv.as_slice(), b.as_slice())
                || slice_eq(sv.as_slice(), c.as_slice());
            r
        },
        None => false,
    }
}

/// Executable `is_task_node`.
pub fn task_node_valid(v: &serde_json::Value) -> (b: bool)
    ensures
        b == is_task_node(json_tree(*v)),
{
    json_is_object(v) && str_field(v, "id").is_some() && str_field(v, "desc").is_some()
        && str_field(v, "type").is_some()
}

/// Whole-sequence equality of two character slices.
pub fn slice_eq(a: &[char], b: &[char]) -> (r: bool)
    ensures
        r == (a@ == b@),
{
    if a.len() != b.len() {
        return false;
    }
    let r = matches_at(a, b, 0);
    proof {
        if r {
            assert(a@.subrange(0, b@.len() as int) =~= a@);
        } else {
            assert(a@.subrange(0, b@.len() as int) =~= a@);
        }
    }
    r
}

/// TaskGraph progress of a task file's content: (completed, total) over its
/// JSONL task nodes; `None` when it holds no node.
pub open spec fn taskgraph_summary(content: Seq<char>) -> Option<(nat, nat)> {
    let (d, n) = graph_counts(lines_of(content));
    if n > 0 {
        Some((d, n))
    } else {
        None
    }
}

/// Number of lines whose trimmed text starts with `p`.
pub open spec fn count_prefixed(ls: Seq<Seq<char>>, p: Seq<char>) -> nat
    decreases ls.len(),
{
    if ls.len() == 0 {
        0
    } else {
        count_prefixed(ls.drop_last(), p) + if has_prefix(trim(ls.last()), p) {
            1nat
        } else {
            0nat
        }
    }
}

/// Progress of a task file's content: the TaskGraph summary if there is one, else
/// the markdown checklist counts (`- [x]` lines done, `- [` lines in all).
pub open spec fn task_summary(content: Seq<char>) -> Option<(nat, nat)> {
    match taskgraph_summary(content) {
        Some(s) => Some(s),
        None => {
            let ls = lines_of(content);
            let total = count_prefixed(ls, "- ["@);
            if total == 0 {
                None
            } else {
                Some((count_prefixed(ls, "- [x]"@), total))
            }
        },
    }
}

/// Executable `graph_counts`.
fn graph_counts_exec(ls: &Vec<Vec<char>>) -> (r: (usize, usize))
    ensures
        r.0 as nat == graph_counts(ls@.map_values(|l: Vec<char>| l@)).0,
        r.1 as nat == graph_counts(ls@.map_values(|l: Vec<char>| l@)).1,
{
    let ghost lv = ls@.map_values(|l: Vec<char>| l@);
    let mut done: usize = 0;
    let mut total: usize = 0;
    let mut i: usize = 0;
    proof {
        assert(lv.take(0) =~= Seq::<Seq<char>>::empty());
    }
    while i < ls.len()
        invariant
            i <= ls@.len(),
            lv == ls@.map_values(|l: Vec<char>| l@),
            done <= total <= i,
            done as nat == graph_counts(lv.take(i as int)).0,
            total as nat == graph_counts(lv.take(i as int)).1,
        decreases ls@.len() - i,
    {
        proof {
            assert(lv.take(i + 1).drop_last() =~= lv.take(i as int));
            assert(lv.take(i + 1).last() == ls@[i as int]@);
        }
        let t = trim_chars(ls[i].as_slice());
        if t.len() > 0 {
            let s = string_of(t.as_slice());
            match parse_json(s.as_str()) {
                Some(v) => {
                    if task_node_valid(&v) {
                        if task_node_done(&v) {
                            done = done + 1;
                        }
                        total = total + 1;
                    }
                },
                None => {},
            }
        }
        i = i + 1;
    }
    proof {
        assert(lv.take(i as int) =~= lv);
    }
    (done, total)
}

/// Executable `count_prefixed`.
fn count_prefixed_exec(ls: &Vec<Vec<char>>, p: &[char]) -> (r: usize)
    ensures
        r as nat == count_prefixed(ls@.map_values(|l: Vec<char>| l@), p@),
{
    let ghost lv = ls@.map_values(|l: Vec<char>| l@);
    let mut n: usize = 0;
    let mut i: usize = 0;
    proof {
        assert(lv.take(0) =~= Seq::<Seq<char>>::empty());
    }
    while i < ls.len()
        invariant
            i <= ls@.len(),
            lv == ls@.map_values(|l: Vec<char>| l@),
            n <= i,
            n as nat == count_prefixed(lv.take(i as int), p@),
        decreases ls@.len() - i,
    {
        proof {
            assert(lv.take(i + 1).drop_last() =~= lv.take(i as int));
            assert(lv.take(i + 1).last() == ls@[i as int]@);
        }
        let t = trim_chars(ls[i].as_slice());
        if starts_with(t.as_slice(), p) {
            n = n + 1;
        }
        i = i + 1;
    }
    proof {
        assert(lv.take(i as int) =~= lv);
    }
    n
}

/// No more TaskGraph nodes are done than there are nodes.
proof fn lemma_graph_counts_bound(ls: Seq<Seq<char>>)
    ensures
        graph_counts(ls).0 <= graph_counts(ls).1,
    decreases ls.len(),
{
    if ls.len() > 0 {
        lemma_graph_counts_bound(ls.drop_last());
    }
}

/// Lines starting with `- [x]` also start with `- [`, so they are no more.
proof fn lemma_checked_le_open(ls: Seq<Seq<char>>)
    ensures
        count_prefixed(ls, "- [x]"@) <= count_prefixed(ls, "- ["@),
    decreases ls.len(),
{
    reveal_strlit("- [x]");
    reveal_strlit("- [");
    if ls.len() > 0 {
        lemma_checked_le_open(ls.drop_last());
        let l = trim(ls.last());
        if has_prefix(l, "- [x]"@) {
            assert(l.subrange(0, 3) =~= l.subrange(0, 5).subrange(0, 3));
            assert("- [x]"@.subrange(0, 3) =~= "- ["@);
            assert(has_prefix(l, "- ["@));
        }
    }
}

/// A task summary counts at least one task, and no more done than in all.
pub proof fn lemma_task_summary_bound(content: Seq<char>)
    ensures
        task_summary(content) matches Some((d, t)) ==> 1 <= t && d <= t,
{
    lemma_graph_counts_bound(lines_of(content));
    lemma_checked_le_open(lines_of(content));
}

/// Progress of a task file from its content: (completed, total), with at least
/// one task and no more completed than in all.
pub fn read_task_summary(content: &str) -> (r: Option<(usize, usize)>)
    ensures
        r is Some <==> task_summary(content@) is Some,
        r matches Some(p) ==> (p.0 as nat, p.1 as nat) == task_summary(content@)->0,
        r matches Some(p) ==> 1 <= p.1 && p.0 <= p.1,
{
    proof {
        lemma_task_summary_bound(content@);
    }
    let cs = chars_of(content);
    let ls = lines(cs.as_slice());
    proof {
        assert(ls@.map_values(|l: Vec<char>| l@) =~= lines_of(content@));
    }
    let (done, total) = graph_counts_exec(&ls);
    if total > 0 {
        return Some((done, total));
    }
    let open = chars_of("- [");
    let all = count_prefixed_exec(&ls, open.as_slice());
    if all == 0 {
        return None;
    }
    let checked = chars_of("- [x]");
    let d = count_prefixed_exec(&ls, checked.as_slice());
    Some((d, all))
}


/// The final component of a path (`Path::file_name`, read lossily), if it has one.
pub uninterp spec fn path_file_name(path: Seq<char>) -> Option<Seq<char>>;

/// `Path::new(path).file_name()`, as a string.
#[verifier::external_body]
pub(crate) fn file_name_of(path: &str) -> (r: Option<String>)
    ensures
        r is Some <==> path_file_name(path@) is Some,
        r matches Some(n) ==> n@ == path_file_name(path@)->0,
{
    match std::path::Path::new(path).file_name() {
        Some(n) => Some(n.to_string_lossy().to_string()),
        None => None,
    }
}

/// The project name for a working directory: its last path component, or
/// `unknown` when it has none.
pub fn project_name_from(cwd: &str) -> (r: String)
    ensures
        r@ == match path_file_name(cwd@) {
            Some(n) => n,
            None => "unknown"@,
        },
{
    match file_name_of(cwd) {
        Some(n) => n,
        None => "unknown".to_owned(),
    }
}

/// The heading and lines of a markdown task file: `# Tasks — <project>`, a blank
/// line, then each task line followed by a newline.
pub open spec fn task_file_body(lines: Seq<Seq<char>>) -> Seq<char>
    decreases lines.len(),
{
    if lines.len() == 0 {
        Seq::empty()
    } else {
        task_file_body(lines.drop_last()) + lines.last() + seq!['\n']
    }
}

/// Text of a markdown task file for `project` holding `lines`.
pub fn task_file_text(project: &str, lines: &Vec<String>) -> (r: String)
    ensures
        r@ == "# Tasks — "@ + project@ + "\n\n"@ + task_file_body(strings_view(lines@)),
{
    let mut out: Vec<char> = Vec::new();
    push_str(&mut out, "# Tasks — ");
    push_str(&mut out, project);
    push_str(&mut out, "\n\n");
    let ghost head = out@;
    let mut i: usize = 0;
    proof {
        assert(strings_view(lines@).take(0) =~= Seq::<Seq<char>>::empty());
        assert(out@ =~= head + task_file_body(Seq::empty()));
    }
    while i < lines.len()
        invariant
            i <= lines@.len(),
            head == "# Tasks — "@ + project@ + "\n\n"@,
            out@ == head + task_file_body(strings_view(lines@).take(i as int)),
        decreases lines@.len() - i,
    {
        proof {
            assert(strings_view(lines@).take(i + 1).drop_last() =~= strings_view(lines@).take(
                i as int,
            ));
        }
        push_str(&mut out, lines[i].as_str());
        out.push('\n');
        proof {
            assert(out@ =~= head + task_file_body(strings_view(lines@).take(i + 1)));
        }
        i = i + 1;
    }
    proof {
        assert(strings_view(lines@).take(i as int) =~= strings_view(lines@));
    }
    string_of(out.as_slice())
}

/// One entry of a task directory, as the file system reported it: whether it is a
/// regular file, its modification time (nanoseconds since the epoch) when that
/// could be read, and its content when it could be read as text.
#[derive(Debug)]
pub struct TaskDirEntry {
    pub path: String,
    pub is_file: bool,
    pub modified: Option<u128>,
    pub content: Option<String>,
}

/// An entry that takes part in choosing the latest task file.
pub open spec fn is_candidate(e: TaskDirEntry) -> bool {
    e.is_file && e.modified is Some
}

/// `i` is the latest task file among `es`: a candidate whose modification time is
/// the greatest, and the last such one (as `Iterator::max_by_key` picks).
pub open spec fn is_latest(es: Seq<TaskDirEntry>, i: int) -> bool {
    &&& 0 <= i < es.len()
    &&& is_candidate(es[i])
    &&& forall|j: int|
        0 <= j < es.len() && is_candidate(#[trigger] es[j]) ==> es[j].modified->0
            <= es[i].modified->0
    &&& forall|j: int|
        i < j < es.len() && is_candidate(#[trigger] es[j]) ==> es[j].modified->0
            < es[i].modified->0
}

/// Index of the latest regular file of a task directory; `None` when there is none.
pub fn latest_task_index(es: &Vec<TaskDirEntry>) -> (r: Option<usize>)
    ensures
        r matches Some(i) ==> is_latest(es@, i as int),
        r is None ==> forall|j: int| 0 <= j < es@.len() ==> !is_candidate(#[trigger] es@[j]),
{
    let mut best: Option<usize> = None;
    let mut i: usize = 0;
    while i < es.len()
        invariant
            i <= es@.len(),
            best matches Some(b) ==> {
                &&& b < i
                &&& is_candidate(es@[b as int])
                &&& forall|j: int|
                    0 <= j < i && is_candidate(#[trigger] es@[j]) ==> es@[j].modified->0
                        <= es@[b as int].modified->0
                &&& forall|j: int|
                    b < j < i && is_candidate(#[trigger] es@[j]) ==> es@[j].modified->0
                        < es@[b as int].modified->0
            },
            best is None ==> forall|j: int| 0 <= j < i ==> !is_candidate(#[trigger] es@[j]),
        decreases es@.len() - i,
    {
        let e = &es[i];
        if e.is_file {
            match e.modified {
                Some(m) => {
                    match best {
                        Some(b) => {
                            let bm = match es[b].modified {
                                Some(x) => x,
                                None => 0,
                            };
                            if m >= bm {
                                best = Some(i);
                            }
                        },
                        None => {
                            best = Some(i);
                        },
                    }
                },
                None => {},
            }
        }
        i = i + 1;
    }
    best
}

/// Path of the latest regular file of a task directory.
pub fn latest_task_file(es: &Vec<TaskDirEntry>) -> (r: Option<String>)
    ensures
        r is Some <==> exists|j: int| 0 <= j < es@.len() && is_candidate(#[trigger] es@[j]),
        r matches Some(p) ==> exists|i: int| is_latest(es@, i) && p@ == es@[i].path@,
{
    match latest_task_index(es) {
        Some(i) => {
            proof {
                assert(is_candidate(es@[i as int]));
            }
            Some(es[i].path.clone())
        },
        None => None,
    }
}

/// Path and content of the latest task file, when its content could be read.
pub fn read_latest_task_content(es: &Vec<TaskDirEntry>) -> (r: Option<(String, String)>)
    ensures
        r matches Some(pc) ==> exists|i: int|
            is_latest(es@, i) && pc.0@ == es@[i].path@ && (es@[i].content matches Some(c) && pc.1@
                == c@),
        r is None ==> forall|i: int| is_latest(es@, i) ==> es@[i].content is None,
{
    match latest_task_index(es) {
        Some(i) => match &es[i].content {
            Some(c) => Some((es[i].path.clone(), c.clone())),
            None => {
                proof {
                    lemma_latest_unique(es@, i as int);
                }
                None
            },
        },
        None => None,
    }
}

/// There is at most one latest task file.
pub proof fn lemma_latest_unique(es: Seq<TaskDirEntry>, i: int)
    requires
        is_latest(es, i),
    ensures
        forall|k: int| is_latest(es, k) ==> k == i,
{
    assert forall|k: int| is_latest(es, k) implies k == i by {
        if k < i {
            assert(es[i].modified->0 < es[k].modified->0);
        } else if k > i {
            assert(es[k].modified->0 < es[i].modified->0);
        }
    }
}

/// Progress summary of the latest task file of a directory.
pub fn read_task_summary_from_dir(es: &Vec<TaskDirEntry>) -> (r: Option<(usize, usize)>)
    ensures
        r matches Some(p) ==> exists|i: int|
            is_latest(es@, i) && (es@[i].content matches Some(c) && task_summary(c@) == Some(
                (p.0 as nat, p.1 as nat),
            )),
        r is None ==> forall|i: int|
            is_latest(es@, i) ==> (es@[i].content matches Some(c) ==> task_summary(c@) is None),
        r matches Some(p) ==> 1 <= p.1 && p.0 <= p.1,
{
    match latest_task_index(es) {
        Some(i) => {
            proof {
                lemma_latest_unique(es@, i as int);
            }
            match &es[i].content {
                Some(c) => read_task_summary(c.as_str()),
                None => None,
            }
        },
        None => None,
    }
}

} // verus!
