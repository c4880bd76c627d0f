use mash::tasks::{
    format_task_prompt, latest_task_file, parse_tasks, project_name_from, read_latest_task_content,
    read_task_summary, read_task_summary_from_dir, task_file_text, TaskDirEntry,
};

fn entry(path: &str, modified: Option<u128>, content: Option<&str>) -> TaskDirEntry {
    TaskDirEntry {
        path: path.to_string(),
        is_file: true,
        modified,
        content: content.map(|c| c.to_string()),
    }
}

#[test]
fn task_prompt_names_the_directory() {
    let p = format_task_prompt("/home/u/.mash/tasks/proj");
    assert!(p.contains("`/home/u/.mash/tasks/proj`"));
    assert!(p.contains("/home/u/.mash/tasks/proj/taskgraph_1710000000.jsonl"));
    assert!(!p.contains("{task_dir}"));
}

#[test]
fn task_lines_between_markers() {
    let text = "intro\n<!-- TASKS\n - [ ] one\nnot a task\n- [x] two\nTASKS -->\n- [ ] outside";
    assert_eq!(parse_tasks(text), Some(vec!["- [ ] one".to_string(), "- [x] two".to_string()]));
    assert_eq!(parse_tasks("no markers"), None);
    assert_eq!(parse_tasks("TASKS --> then <!-- TASKS"), None);
    assert_eq!(parse_tasks("<!-- TASKS\nnothing\nTASKS -->"), None);
    assert_eq!(parse_tasks("<!-- TASKS -->"), None);
    assert_eq!(parse_tasks("<!-- TASKS-->"), None);
}

#[test]
fn checklist_summary() {
    assert_eq!(read_task_summary("- [x] a\n  - [ ] b\n- [x] c\n"), Some((2, 3)));
    assert_eq!(read_task_summary("nothing"), None);
}

#[test]
fn taskgraph_summary_counts_nodes() {
    let content = "{\"id\":\"1\",\"desc\":\"a\",\"type\":\"inline\",\"done\":true}\n{\"id\":\"2\",\"desc\":\"b\",\"type\":\"inline\",\"status\":\"completed\"}\n{\"id\":\"3\",\"desc\":\"c\",\"type\":\"subagent\"}\n{\"id\":4}\n";
    assert_eq!(read_task_summary(content), Some((2, 3)));
}

#[test]
fn project_names() {
    assert_eq!(project_name_from("/home/u/proj"), "proj");
    assert_eq!(project_name_from("/"), "unknown");
}

#[test]
fn task_file_text_lists_the_lines() {
    let t = task_file_text("proj", &vec!["- [ ] a".to_string(), "- [x] b".to_string()]);
    assert_eq!(t, "# Tasks — proj\n\n- [ ] a\n- [x] b\n");
    assert_eq!(read_task_summary(&t), Some((1, 2)));
}

#[test]
fn latest_task_file_is_chosen_by_time() {
    let es = vec![
        entry("/t/a.md", Some(5), Some("- [x] a")),
        entry("/t/b.md", Some(9), Some("- [ ] b\n- [x] c")),
        entry("/t/c.md", None, Some("- [x] z")),
        TaskDirEntry { path: "/t/dir".to_string(), is_file: false, modified: Some(99), content: None },
    ];
    assert_eq!(latest_task_file(&es), Some("/t/b.md".to_string()));
    assert_eq!(read_latest_task_content(&es), Some(("/t/b.md".to_string(), "- [ ] b\n- [x] c".to_string())));
    assert_eq!(read_task_summary_from_dir(&es), Some((1, 2)));
    assert_eq!(latest_task_file(&vec![]), None);
}

#[test]
fn ties_go_to_the_last_entry() {
    let es = vec![entry("/t/a.md", Some(5), None), entry("/t/b.md", Some(5), None)];
    assert_eq!(latest_task_file(&es), Some("/t/b.md".to_string()));
    assert_eq!(read_latest_task_content(&es), None);
    assert_eq!(read_task_summary_from_dir(&es), None);
}
