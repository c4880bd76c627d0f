use mash::edit::{
    detect_line_ending, edit_report, extract_edits, line_of_offset, plan_edits, restore_line_endings,
    truncate_for_error,
};
use mash::tools::{
    bash_report, bash_request, log_file_name, optional_positive_usize,
    read_args_in_range, read_file_output, read_target, read_text_output, required_string,
    resolve_path, write_report, write_target, DEFAULT_MAX_BYTES,
};
use mash::truncate::{truncate_head, truncate_tail, TruncatedBy};
use mash::text::base64_encode;
use serde_json::Value;

fn json(text: &str) -> Value {
    serde_json::from_str(text).unwrap()
}

#[test]
fn head_keeps_short_text_whole() {
    let r = truncate_head("a\nb\nc", 10, 100);
    assert_eq!(r.content, "a\nb\nc");
    assert!(!r.truncated);
    assert_eq!(r.truncated_by, None);
    assert_eq!(r.total_lines, 3);
    assert_eq!(r.output_lines, 3);
    assert_eq!(r.output_bytes, 5);
}

#[test]
fn head_stops_at_line_limit() {
    let r = truncate_head("1\n2\n3\n4", 2, 100);
    assert_eq!(r.content, "1\n2");
    assert!(r.truncated);
    assert_eq!(r.truncated_by, Some(TruncatedBy::Lines));
    assert_eq!(r.output_lines, 2);
    assert_eq!(r.total_lines, 4);
}

#[test]
fn head_stops_at_byte_limit() {
    let r = truncate_head("aaaa\nbbbb\ncccc", 10, 9);
    assert_eq!(r.content, "aaaa\nbbbb");
    assert_eq!(r.truncated_by, Some(TruncatedBy::Bytes));
    assert_eq!(r.output_bytes, 9);
}

#[test]
fn head_first_line_too_long() {
    let r = truncate_head("abcdef\nx", 10, 3);
    assert_eq!(r.content, "");
    assert!(r.first_line_exceeds_limit);
    assert_eq!(r.truncated_by, Some(TruncatedBy::Bytes));
    assert_eq!(r.output_lines, 0);
}

#[test]
fn tail_keeps_last_lines() {
    let r = truncate_tail("1\n2\n3\n4", 2, 100);
    assert_eq!(r.content, "3\n4");
    assert_eq!(r.truncated_by, Some(TruncatedBy::Lines));
    assert!(r.truncated);
    assert_eq!(r.output_lines, 2);
    assert!(!r.last_line_partial);
}

#[test]
fn tail_cuts_bytes_of_a_partial_line() {
    let r = truncate_tail("abcdef", 10, 3);
    assert_eq!(r.content, "def");
    assert_eq!(r.truncated_by, Some(TruncatedBy::Bytes));
    assert!(r.last_line_partial);
    assert_eq!(r.output_bytes, 3);
}

#[test]
fn tail_of_short_text_is_whole() {
    let r = truncate_tail("x\ny", 5, 50);
    assert_eq!(r.content, "x\ny");
    assert!(!r.truncated);
    assert_eq!(r.truncated_by, None);
}

#[test]
fn tail_cut_inside_a_character_moves_to_the_next_boundary() {
    let r = truncate_tail("é", 10, 1);
    assert_eq!(r.content, "");
    assert!(r.truncated);
    assert_eq!(r.output_bytes, 0);
    assert_eq!(r.truncated_by, Some(TruncatedBy::Bytes));
    let r = truncate_tail("aéb", 10, 2);
    assert_eq!(r.content, "b");
    assert_eq!(r.output_bytes, 1);
}

#[test]
fn line_endings_detected_and_restored() {
    assert_eq!(detect_line_ending("a\r\nb"), "\r\n");
    assert_eq!(detect_line_ending("a\nb"), "\n");
    assert_eq!(restore_line_endings("a\nb\n", "\r\n"), "a\r\nb\r\n");
    assert_eq!(restore_line_endings("a\nb", "\n"), "a\nb");
}

#[test]
fn line_endings_round_trip_on_crlf_text() {
    let text = "one\r\ntwo\r\n";
    let normalized = text.replace("\r\n", "\n");
    assert_eq!(restore_line_endings(&normalized, detect_line_ending(text)), text);
}

#[test]
fn line_numbers_of_offsets() {
    assert_eq!(line_of_offset("a\nb\nc", 0), 1);
    assert_eq!(line_of_offset("a\nb\nc", 2), 2);
    assert_eq!(line_of_offset("a\nb\nc", 4), 3);
    assert_eq!(line_of_offset("a\nb", 99), 2);
}

#[test]
fn error_snippets_are_shortened() {
    assert_eq!(truncate_for_error("short"), "short");
    let long = "x".repeat(130);
    let s = truncate_for_error(&long);
    assert_eq!(s, format!("{}...", "x".repeat(120)));
}

#[test]
fn edits_are_extracted_in_order() {
    let v = json(r#"{"edits":[{"oldText":"a","newText":"b"}],"oldText":"c","newText":"d"}"#);
    let e = extract_edits(&v).unwrap();
    assert_eq!(e, vec![("a".to_string(), "b".to_string()), ("c".to_string(), "d".to_string())]);
}

#[test]
fn edit_extraction_errors() {
    assert_eq!(
        extract_edits(&json(r#"{"edits":[{"newText":"b"}]}"#)).unwrap_err(),
        "each edit requires `oldText`"
    );
    assert_eq!(
        extract_edits(&json(r#"{"edits":[{"oldText":"b"}]}"#)).unwrap_err(),
        "each edit requires `newText`"
    );
    assert_eq!(
        extract_edits(&json(r#"{"path":"x"}"#)).unwrap_err(),
        "edits must contain at least one replacement"
    );
}

#[test]
fn edit_plan_replaces_and_keeps_crlf() {
    let edits = vec![("two".to_string(), "TWO".to_string())];
    let plan = plan_edits("one\r\ntwo\r\n", &edits).unwrap();
    assert_eq!(plan.content, "one\r\nTWO\r\n");
    assert_eq!(plan.normalized, "one\ntwo\n");
    assert_eq!(plan.rebuilt, "one\nTWO\n");
    assert_eq!(plan.first_changed_line, 2);
    assert_eq!(plan.blocks, 1);
}

#[test]
fn edit_plan_keeps_bom() {
    let edits = vec![("a".to_string(), "b".to_string())];
    let plan = plan_edits("\u{feff}a", &edits).unwrap();
    assert_eq!(plan.content, "\u{feff}b");
}

#[test]
fn edit_plan_errors() {
    let none = vec![("zzz".to_string(), "y".to_string())];
    let e = plan_edits("abc", &none).unwrap_err();
    assert_eq!(e, "`oldText` must match exactly once, found 0 matches for snippet: \"zzz\"");
    let twice = vec![("a".to_string(), "y".to_string())];
    let e = plan_edits("a a", &twice).unwrap_err();
    assert_eq!(e, "`oldText` must match exactly once, found 2 matches for snippet: \"a\"");
    let overlap = vec![("abc".to_string(), "x".to_string()), ("bcd".to_string(), "y".to_string())];
    assert_eq!(plan_edits("abcd", &overlap).unwrap_err(), "edit ranges overlap, which is not allowed");
}

#[test]
fn edit_report_is_json() {
    let edits = vec![("b".to_string(), "B".to_string())];
    let plan = plan_edits("a\nb\n", &edits).unwrap();
    let report: Value = serde_json::from_str(&edit_report(&plan, "f.txt")).unwrap();
    assert_eq!(report["message"], "Successfully replaced 1 block(s) in f.txt.");
    assert_eq!(report["firstChangedLine"], 2);
    let diff = report["diff"].as_str().unwrap();
    assert!(diff.contains("-b"));
    assert!(diff.contains("+B"));
}

#[test]
fn required_and_optional_arguments() {
    let v = json(r#"{"path":"p","n":3,"z":0,"s":"x"}"#);
    assert_eq!(required_string(&v, "path").unwrap(), "p");
    assert_eq!(required_string(&v, "nope").unwrap_err(), "missing required field `nope`");
    assert_eq!(optional_positive_usize(&v, "n").unwrap(), Some(3));
    assert_eq!(optional_positive_usize(&v, "absent").unwrap(), None);
    assert_eq!(optional_positive_usize(&v, "z").unwrap_err(), "`z` must be >= 1");
    assert_eq!(optional_positive_usize(&v, "s").unwrap_err(), "`s` must be a positive integer");
}

#[test]
fn paths_are_resolved() {
    assert_eq!(resolve_path("/home/u", "a.txt"), "/home/u/a.txt");
    assert_eq!(resolve_path("/home/u/", "a.txt"), "/home/u/a.txt");
    assert_eq!(resolve_path("/home/u", "/etc/x"), "/etc/x");
}

#[test]
fn write_arguments_and_report() {
    let (path, content, full) = write_target(&json(r#"{"path":"f","content":"hé"}"#), "/w").unwrap();
    assert_eq!(path, "f");
    assert_eq!(content, "hé");
    assert_eq!(full, "/w/f");
    assert_eq!(write_report("hé", "f"), "Successfully wrote 3 bytes to f");
    assert_eq!(write_target(&json(r#"{"path":"  ","content":"x"}"#), "/w").unwrap_err(), "`path` must not be empty");
    assert_eq!(
        write_target(&json(r#"{"path":"f"}"#), "/w").unwrap_err(),
        "missing required field `content`"
    );
}

#[test]
fn bash_arguments() {
    let (cmd, t) = bash_request(&json(r#"{"command":"ls","timeout":5}"#)).unwrap();
    assert_eq!(cmd, "ls");
    assert_eq!(t, Some(5));
    assert_eq!(bash_request(&json(r#"{"command":" "}"#)).unwrap_err(), "`command` must not be empty");
}

#[test]
fn bash_report_for_success_and_failure() {
    let r = truncate_tail("out", 200, DEFAULT_MAX_BYTES);
    assert_eq!(bash_report(&r, "/tmp/log", true, Some(0)).unwrap(), "out");
    assert_eq!(
        bash_report(&r, "/tmp/log", false, Some(2)).unwrap_err(),
        "out\n\nCommand exited with code 2"
    );
    let empty = truncate_tail("", 200, DEFAULT_MAX_BYTES);
    assert_eq!(bash_report(&empty, "/tmp/log", true, Some(0)).unwrap(), "(no output)");
}

#[test]
fn bash_report_notes_truncation() {
    let r = truncate_tail("1\n2\n3", 2, DEFAULT_MAX_BYTES);
    assert_eq!(
        bash_report(&r, "/tmp/log", true, Some(0)).unwrap(),
        "2\n3\n\n[Showing lines 2-3 of 3. Full output: /tmp/log]"
    );
}

#[test]
fn read_tool_selects_lines() {
    let input = json(r#"{"path":"f","offset":2,"limit":1}"#);
    assert!(read_args_in_range(&input));
    assert_eq!(
        read_text_output(&input, "f", "a\nb\nc").unwrap(),
        "b\n\n[1 more lines in file. Use offset=3 to continue.]"
    );
    let all = json(r#"{"path":"f"}"#);
    assert_eq!(read_text_output(&all, "f", "a\nb").unwrap(), "a\nb");
}

#[test]
fn read_tool_offset_past_end() {
    let input = json(r#"{"path":"f","offset":9}"#);
    assert_eq!(
        read_text_output(&input, "f", "a\nb").unwrap_err(),
        "Offset 9 is beyond end of file (2 lines total)"
    );
}

#[test]
fn read_tool_image_and_text_bytes() {
    let input = json(r#"{"path":"f"}"#);
    let png = [0x89u8, b'P', b'N', b'G', 0x0d, 0x0a, 0x1a, 0x0a, 0, 0];
    assert_eq!(read_file_output(&input, "f", "/w/f", &png).unwrap_err(), "Failed to decode image file: /w/f");
    assert_eq!(read_file_output(&input, "f", "/w/f", b"hello").unwrap(), "hello");
    assert_eq!(read_file_output(&input, "f", "/w/f", &[b'a', 0xff]).unwrap(), "a\u{fffd}");
}

#[test]
fn read_target_resolves() {
    let (p, full) = read_target(&json(r#"{"path":"x.rs"}"#), "/src").unwrap();
    assert_eq!(p, "x.rs");
    assert_eq!(full, "/src/x.rs");
    assert_eq!(read_target(&json(r#"{}"#), "/src").unwrap_err(), "missing required field `path`");
}

#[test]
fn log_file_names() {
    assert_eq!(log_file_name("mashd-bash-output", 42, 1000), "mashd-bash-output-42-1000.log");
}

fn png_bytes(w: u32, h: u32) -> Vec<u8> {
    let img = image::DynamicImage::ImageRgb8(image::RgbImage::new(w, h));
    let mut out = std::io::Cursor::new(Vec::new());
    img.write_to(&mut out, image::ImageFormat::Png).unwrap();
    out.into_inner()
}

fn b64_decode(s: &str) -> Vec<u8> {
    let alphabet = b"ABCDEFGHIJKLMNOPQRSTUVWXYZabcdefghijklmnopqrstuvwxyz0123456789+/";
    let mut bits: u32 = 0;
    let mut n = 0;
    let mut out = Vec::new();
    for c in s.bytes() {
        if c == b'=' {
            break;
        }
        let v = alphabet.iter().position(|&a| a == c).unwrap() as u32;
        bits = (bits << 6) | v;
        n += 6;
        if n >= 8 {
            n -= 8;
            out.push((bits >> n) as u8);
            bits &= (1 << n) - 1;
        }
    }
    out
}

#[test]
fn base64_encodes_groups_with_padding() {
    assert_eq!(base64_encode(b""), "");
    assert_eq!(base64_encode(b"M"), "TQ==");
    assert_eq!(base64_encode(b"Ma"), "TWE=");
    assert_eq!(base64_encode(b"Man"), "TWFu");
    assert_eq!(base64_encode(b"Many hands"), "TWFueSBoYW5kcw==");
    assert_eq!(base64_encode(&[0xfb, 0xff, 0xbf]), "+/+/");
    assert_eq!(b64_decode(&base64_encode(&[1, 2, 3, 250, 7])), vec![1, 2, 3, 250, 7]);
}

#[test]
fn read_tool_returns_small_images_as_base64() {
    let input = json(r#"{"path":"p.png"}"#);
    let data = png_bytes(3, 2);
    let out = read_file_output(&input, "p.png", "/w/p.png", &data).unwrap();
    let expected = format!("Read image file: /w/p.png [image/png]\n{}", base64_encode(&data));
    assert_eq!(out, expected);
    let b64 = out.split('\n').nth(1).unwrap();
    assert_eq!(b64_decode(b64), data);
}

#[test]
fn read_tool_scales_large_images_to_fit() {
    let input = json(r#"{"path":"big.png"}"#);
    let data = png_bytes(3000, 30);
    let out = read_file_output(&input, "big.png", "/w/big.png", &data).unwrap();
    let (head, b64) = out.split_once('\n').unwrap();
    assert_eq!(head, "Read image file: /w/big.png [image/png]");
    let img = image::load_from_memory(&b64_decode(b64)).unwrap();
    assert_eq!(img.width(), 2000);
    assert_eq!(img.height(), 20);
}
