use mash::mcp::{
    mcp_connecting, mcp_list_header, mcp_not_found, mcp_server_line, mcp_tools_report, McpStatus,
    McpTool,
};
use mash::text::{chars_less, sort_strings};

fn chars(s: &str) -> Vec<char> {
    s.chars().collect()
}

#[test]
fn list_header_without_servers() {
    assert_eq!(
        mcp_list_header(0),
        vec!["No MCP servers configured.".to_string(), "Add servers to ~/.mash/mcp.json".to_string()]
    );
    assert_eq!(mcp_list_header(2), vec!["MCP Servers:\n".to_string()]);
}

#[test]
fn server_lines_for_each_status() {
    let args = vec!["-y".to_string(), "server-fs".to_string()];
    assert_eq!(
        mcp_server_line("fs", "npx", &args, &McpStatus::Connected(12)),
        "  fs  [npx -y server-fs]  — ✓ connected (12 tools)"
    );
    assert_eq!(
        mcp_server_line("git", "mcp-git", &Vec::new(), &McpStatus::Disabled),
        "  git  [mcp-git]  — disabled"
    );
    assert_eq!(
        mcp_server_line("db", "db-mcp", &Vec::new(), &McpStatus::Failed("spawn failed".to_string())),
        "  db  [db-mcp]  — ✗ spawn failed"
    );
    assert_eq!(
        mcp_server_line("slow", "slow", &vec!["--x".to_string()], &McpStatus::TimedOut),
        "  slow  [slow --x]  — ✗ timeout"
    );
}

#[test]
fn not_found_lists_available_servers() {
    assert_eq!(
        mcp_not_found("web", &vec!["fs".to_string(), "git".to_string()]),
        vec!["MCP server 'web' not found in config.".to_string(), "Available: fs, git".to_string()]
    );
    assert_eq!(mcp_not_found("web", &Vec::new()), vec!["MCP server 'web' not found in config.".to_string()]);
    assert_eq!(mcp_connecting("fs"), "Connecting to 'fs'...");
}

#[test]
fn tools_report_lists_params_in_key_order() {
    let schema = serde_json::from_str::<serde_json::Value>(
        r#"{"type":"object","properties":{"path":{"type":"string"},"depth":{"type":"integer"},"any":{}},"required":["path"]}"#,
    )
    .unwrap();
    let tools = vec![
        McpTool {
            name: "read_file".to_string(),
            description: Some("Read a file.\nReturns text.\nLine three\nLine four".to_string()),
            input_schema: schema,
        },
        McpTool { name: "ping".to_string(), description: None, input_schema: serde_json::Value::Null },
    ];
    let report = mcp_tools_report("fs", &tools);
    let expected: Vec<String> = vec![
        "\nTools for 'fs' (2 total):\n",
        "  read_file",
        "    Read a file.",
        "    Returns text.",
        "    Line three",
        "    params:",
        "      any: any",
        "      depth: integer",
        "      path: string *",
        "",
        "  ping",
        "",
    ]
    .into_iter()
    .map(String::from)
    .collect();
    assert_eq!(report, expected);
    assert_eq!(mcp_tools_report("fs", &Vec::new()), vec!["No tools available.".to_string()]);
}

#[test]
fn strings_sort_like_str_ord() {
    let names = vec!["git".to_string(), "fs".to_string(), "Zed".to_string(), "fs2".to_string(), "fs".to_string()];
    let mut expected = names.clone();
    expected.sort();
    assert_eq!(sort_strings(&names), expected);
    assert_eq!(sort_strings(&names), vec!["Zed", "fs", "fs", "fs2", "git"]);
    assert!(chars_less(&chars("ab"), &chars("abc")));
    assert!(!chars_less(&chars("abc"), &chars("ab")));
    assert!(chars_less(&chars("aZ"), &chars("b")));
    assert!(!chars_less(&chars("same"), &chars("same")));
    assert!(chars_less(&chars("é"), &chars("ê")));
}
