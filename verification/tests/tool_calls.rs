//! Hardening of tool calls.

use qwen2api_rs::events::ParsedToolCall;
use qwen2api_rs::execution::delivery::stage6_resolve_tools;
use qwen2api_rs::json::Json;
use qwen2api_rs::toolcalls::{
    coerce_argument_aliases, contains_path_danger, dedup_tool_calls, drop_repeats, has_path_pollution,
    is_dangerous_path, is_path_field,
};

fn json(text: &str) -> Json {
    Json::parse(text).unwrap()
}

fn call(id: &str, name: &str, arguments: &str) -> ParsedToolCall {
    ParsedToolCall { id: id.to_string(), name: name.to_string(), arguments: json(arguments) }
}

fn field<'a>(args: &'a Json, key: &str) -> Option<&'a str> {
    args.get(key).and_then(|v| v.as_str())
}

#[test]
fn dedup_removes_identical_calls() {
    let calls = vec![
        call("a", "Bash", "{\"cmd\": \"ls\"}"),
        call("b", "Bash", "{\"cmd\": \"ls\"}"),
        call("c", "Bash", "{\"cmd\": \"pwd\"}"),
    ];
    let result = dedup_tool_calls(calls);
    assert_eq!(result.len(), 2);
    assert_eq!(result[0].id, "a");
    assert_eq!(result[1].id, "c");
}

#[test]
fn dedup_keeps_unique_calls() {
    let calls = vec![
        call("a", "Read", "{\"file\": \"a.txt\"}"),
        call("b", "Read", "{\"file\": \"b.txt\"}"),
    ];
    let result = dedup_tool_calls(calls);
    assert_eq!(result.len(), 2);
}

#[test]
fn dedup_empty_input() {
    assert!(dedup_tool_calls(vec![]).is_empty());
}

#[test]
fn dedup_ignores_the_order_of_keys() {
    let calls = vec![
        call("a", "T", "{\"x\": 1, \"y\": 2}"),
        call("b", "T", "{\"y\": 2, \"x\": 1}"),
        call("c", "U", "{\"x\": 1, \"y\": 2}"),
    ];
    let ids: Vec<String> = dedup_tool_calls(calls).into_iter().map(|c| c.id).collect();
    assert_eq!(ids, vec!["a".to_string(), "c".to_string()]);
}

#[test]
fn dedup_twice_is_dedup_once() {
    let calls = vec![call("a", "T", "{}"), call("b", "T", "{}"), call("c", "U", "{}")];
    let once = dedup_tool_calls(calls);
    let ids: Vec<String> = once.iter().map(|c| c.id.clone()).collect();
    let twice: Vec<String> = dedup_tool_calls(once).into_iter().map(|c| c.id).collect();
    assert_eq!(ids, twice);
}

#[test]
fn detects_path_traversal() {
    assert!(has_path_pollution(&json("{\"path\": \"../etc/passwd\"}")));
    assert!(has_path_pollution(&json("{\"file\": \"..\\\\windows\\\\system32\"}")));
    assert!(has_path_pollution(&json("{\"dir\": \"../../root\"}")));
}

#[test]
fn detects_absolute_sensitive_paths() {
    assert!(has_path_pollution(&json("{\"path\": \"/etc/passwd\"}")));
    assert!(has_path_pollution(&json("{\"file\": \"/var/log/auth.log\"}")));
}

#[test]
fn detects_home_directory() {
    assert!(has_path_pollution(&json("{\"output\": \"~/.ssh/id_rsa\"}")));
}

#[test]
fn detects_null_byte() {
    assert!(has_path_pollution(&json("{\"file\": \"safe.txt\\u0000.php\"}")));
}

#[test]
fn allows_safe_paths() {
    assert!(!has_path_pollution(&json("{\"path\": \"data/output.txt\"}")));
    assert!(!has_path_pollution(&json("{\"file\": \"project/src/main.rs\"}")));
    assert!(!has_path_pollution(&json("{\"dir\": \"tmp/build\"}")));
}

#[test]
fn ignores_non_path_fields() {
    assert!(!has_path_pollution(&json("{\"name\": \"../etc/passwd\"}")));
    assert!(!has_path_pollution(&json("{\"query\": \"/etc/secret\"}")));
    assert!(!has_path_pollution(&json("{\"description\": \"../../root\"}")));
}

#[test]
fn nested_path_pollution() {
    assert!(has_path_pollution(&json("{\"options\": {\"path\": \"../etc/shadow\"}}")));
}

#[test]
fn pollution_is_found_in_arrays_and_under_any_case() {
    assert!(has_path_pollution(&json("[1, {\"FilePath\": \"../x\"}]")));
    assert!(has_path_pollution(&json("{\"list\": [[{\"CWD\": \"~/x\"}]]}")));
    assert!(!has_path_pollution(&json("\"../x\"")));
    assert!(!has_path_pollution(&json("{\"path\": 7}")));
}

#[test]
fn danger_of_paths() {
    assert!(contains_path_danger("C:\\Windows"));
    assert!(contains_path_danger("~\\x"));
    assert!(contains_path_danger("/root/x"));
    assert!(!contains_path_danger("/home/x"));
    assert!(!contains_path_danger("C:/Windows"));
    assert!(!contains_path_danger("x/etc/y"));
    assert!(!contains_path_danger("é:\\x"));
    assert!(!contains_path_danger(""));
    assert!(is_dangerous_path("x", "c:\\"));
    assert!(!is_dangerous_path("c:\\", "x"));
    assert!(is_path_field("my_path"));
    assert!(is_path_field("root"));
    assert!(!is_path_field("roots"));
}

#[test]
fn coerce_cmd_to_command() {
    let mut args = json("{\"cmd\": \"ls -la\"}");
    coerce_argument_aliases(&mut args);
    assert_eq!(field(&args, "command"), Some("ls -la"));
    assert!(args.get("cmd").is_none());
}

#[test]
fn coerce_shell_to_command() {
    let mut args = json("{\"shell\": \"bash script.sh\"}");
    coerce_argument_aliases(&mut args);
    assert_eq!(field(&args, "command"), Some("bash script.sh"));
}

#[test]
fn coerce_does_not_overwrite_existing() {
    let mut args = json("{\"command\": \"existing\", \"cmd\": \"should_not_override\"}");
    coerce_argument_aliases(&mut args);
    assert_eq!(field(&args, "command"), Some("existing"));
}

#[test]
fn coerce_filepath_to_file() {
    let mut args = json("{\"file_path\": \"/tmp/data.txt\"}");
    coerce_argument_aliases(&mut args);
    assert_eq!(field(&args, "file"), Some("/tmp/data.txt"));
}

#[test]
fn coerce_regex_to_query() {
    let mut args = json("{\"pattern\": \"error.*\"}");
    coerce_argument_aliases(&mut args);
    assert_eq!(field(&args, "query"), Some("error.*"));
}

#[test]
fn coerce_takes_only_the_first_alias() {
    let mut args = json("{\"run\": \"r\", \"exec\": \"e\", \"other\": 1, \"folder\": \"f\"}");
    coerce_argument_aliases(&mut args);
    assert_eq!(field(&args, "command"), Some("e"));
    assert_eq!(field(&args, "run"), Some("r"));
    assert_eq!(field(&args, "dir"), Some("f"));
    assert_eq!(args.get("other").and_then(|v| v.as_i64()), Some(1));
    let mut other = json("[{\"cmd\": 1}]");
    coerce_argument_aliases(&mut other);
    assert_eq!(other.to_text(), "[{\"cmd\":1}]");
}

#[test]
fn resolution_coerces_then_dedups() {
    let found = vec![
        call("a", "Bash", "{\"cmd\": \"ls\"}"),
        call("b", "Bash", "{\"shell\": \"ls\"}"),
        call("c", "Read", "{\"path\": \"../x\"}"),
    ];
    let r = stage6_resolve_tools("text", true, found.clone());
    let ids: Vec<String> = r.tool_calls.iter().map(|c| c.id.clone()).collect();
    assert_eq!(ids, vec!["a".to_string(), "c".to_string()]);
    assert_eq!(field(&r.tool_calls[0].arguments, "command"), Some("ls"));
    assert!(!r.yielded_content_at_end);
    assert!(!r.suspicious);
    assert_eq!(r.polluted_tools, vec!["Read".to_string()]);
    assert!(stage6_resolve_tools("", true, found.clone()).tool_calls.is_empty());
    assert!(stage6_resolve_tools("text", false, found).tool_calls.is_empty());
}

#[test]
fn repeats_are_dropped_by_name_and_arguments_text() {
    let calls = vec![
        call("a", "T", "1"),
        call("b", "T", "2"),
        call("c", "T", "3"),
        call("d", "U", "4"),
    ];
    let texts = vec!["x".to_string(), "y".to_string(), "x".to_string(), "x".to_string()];
    let ids: Vec<String> = drop_repeats(calls, texts).into_iter().map(|c| c.id).collect();
    assert_eq!(ids, vec!["a".to_string(), "b".to_string(), "d".to_string()]);

    // Joined with a bar these two would look alike.
    let calls = vec![call("a", "T|x", "1"), call("b", "T", "2")];
    let texts = vec!["y".to_string(), "x|y".to_string()];
    assert_eq!(drop_repeats(calls, texts).len(), 2);
}
