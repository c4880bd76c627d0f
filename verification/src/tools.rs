//! The file and shell tools of the daemon: argument checking, path
//! resolution and the text each tool reports.
use vstd::prelude::*;
use image::imageops::FilterType;
use crate::edit::{extract_edits, pair_view, requested_edits};
use crate::json::{
    as_u64, json_as_u64, json_get, json_tree, obj_get, str_field, str_member, JsonTree,
};
use crate::text::{
    base64, base64_encode, chars_of, decimal, has_prefix, push_decimal, push_str, string_of, trim, trim_chars, join, lemma_join_push, lemma_join_split,
};
use crate::truncate::{text_lines, TruncatedBy, TruncationResult};

verus! {

/// Most lines a tool shows of a file or of command output.
pub const DEFAULT_MAX_LINES: usize = 200;

/// Most bytes a tool shows of a file or of command output.
pub const DEFAULT_MAX_BYTES: usize = 102400;

/// Error for a missing string field.
pub open spec fn missing_field_msg(key: Seq<char>) -> Seq<char> {
    "missing required field `"@ + key + "`"@
}

/// The string member `key` of a tool input; an error names a missing one.
pub fn required_string(input: &serde_json::Value, key: &str) -> (r: Result<String, String>)
    ensures
        r matches Ok(s) ==> str_member(json_tree(*input), key@) == Some(s@),
        r matches Err(m) ==> str_member(json_tree(*input), key@) is None && m@ == missing_field_msg(
            key@,
        ),
{
    match str_field(input, key) {
        Some(s) => Ok(s),
        None => {
            let mut m: Vec<char> = Vec::new();
            push_str(&mut m, "missing required field `");
            push_str(&mut m, key);
            push_str(&mut m, "`");
            Err(string_of(m.as_slice()))
        },
    }
}

/// What `optional_positive_usize` gives for a tool input.
pub open spec fn optional_positive(t: JsonTree, key: Seq<char>) -> Result<Option<nat>, Seq<char>> {
    match obj_get(t, key) {
        None => Ok(None),
        Some(c) => match as_u64(c) {
            None => Err("`"@ + key + "` must be a positive integer"@),
            Some(n) => if n == 0 {
                Err("`"@ + key + "` must be >= 1"@)
            } else if n > usize::MAX {
                Err("value out of range"@)
            } else {
                Ok(Some(n))
            },
        },
    }
}

/// An optional positive integer member of a tool input.
pub fn optional_positive_usize(input: &serde_json::Value, key: &str) -> (r: Result<
    Option<usize>,
    String,
>)
    ensures
        r matches Ok(o) ==> optional_positive(json_tree(*input), key@) == Ok::<
            Option<nat>,
            Seq<char>,
        >(
            match o {
                Some(n) => Some(n as nat),
                None => None,
            },
        ),
        r matches Err(m) ==> optional_positive(json_tree(*input), key@) == Err::<
            Option<nat>,
            Seq<char>,
        >(m@),
{
    match json_get(input, key) {
        None => Ok(None),
        Some(v) => match json_as_u64(v) {
            None => {
                let mut m: Vec<char> = Vec::new();
                push_str(&mut m, "`");
                push_str(&mut m, key);
                push_str(&mut m, "` must be a positive integer");
                Err(string_of(m.as_slice()))
            },
            Some(n) => {
                if n == 0 {
                    let mut m: Vec<char> = Vec::new();
                    push_str(&mut m, "`");
                    push_str(&mut m, key);
                    push_str(&mut m, "` must be >= 1");
                    Err(string_of(m.as_slice()))
                } else if n as u128 > usize::MAX as u128 {
                    Err("value out of range".to_owned())
                } else {
                    Ok(Some(n as usize))
                }
            },
        },
    }
}

/// `input` resolved against `cwd` as `Path::join` does on Unix: an absolute
/// input stands alone; otherwise it is appended with a `/` unless `cwd` is empty
/// or already ends with one.
pub open spec fn resolved(cwd: Seq<char>, input: Seq<char>) -> Seq<char> {
    if input.len() > 0 && input[0] == '/' {
        input
    } else if cwd.len() == 0 || cwd.last() == '/' {
        cwd + input
    } else {
        cwd + "/"@ + input
    }
}

/// Resolves a tool's path argument against the working directory.
pub fn resolve_path(cwd: &str, input_path: &str) -> (r: String)
    ensures
        r@ == resolved(cwd@, input_path@),
{
    let c = chars_of(cwd);
    let p = chars_of(input_path);
    if p.len() > 0 && p[0] == '/' {
        return input_path.to_owned();
    }
    let mut out: Vec<char> = Vec::new();
    push_str(&mut out, cwd);
    if !(c.len() == 0 || c[c.len() - 1] == '/') {
        out.push('/');
    }
    push_str(&mut out, input_path);
    proof {
        reveal_strlit("/");
        if !(c@.len() == 0 || c@.last() == '/') {
            assert(out@ =~= cwd@ + "/"@ + input_path@);
        }
    }
    string_of(out.as_slice())
}

/// Error for an argument that is empty or only whitespace.
pub open spec fn empty_arg_msg(key: Seq<char>) -> Seq<char> {
    "`"@ + key + "` must not be empty"@
}

/// A required, non-blank string argument.
pub open spec fn nonblank_arg(t: JsonTree, key: Seq<char>) -> Result<Seq<char>, Seq<char>> {
    match str_member(t, key) {
        None => Err(missing_field_msg(key)),
        Some(s) => if trim(s).len() == 0 {
            Err(empty_arg_msg(key))
        } else {
            Ok(s)
        },
    }
}

/// Reads a required, non-blank string argument.
pub fn nonblank_string(input: &serde_json::Value, key: &str) -> (r: Result<String, String>)
    ensures
        r matches Ok(s) ==> nonblank_arg(json_tree(*input), key@) == Ok::<Seq<char>, Seq<char>>(
            s@,
        ),
        r matches Err(m) ==> nonblank_arg(json_tree(*input), key@) == Err::<Seq<char>, Seq<char>>(
            m@,
        ),
{
    let s = required_string(input, key)?;
    let cs = chars_of(s.as_str());
    let t = trim_chars(cs.as_slice());
    if t.len() == 0 {
        let mut m: Vec<char> = Vec::new();
        push_str(&mut m, "`");
        push_str(&mut m, key);
        push_str(&mut m, "` must not be empty");
        return Err(string_of(m.as_slice()));
    }
    Ok(s)
}

/// What the write tool is asked to do: the path argument, the content and the
/// resolved path.
pub open spec fn write_args(t: JsonTree, cwd: Seq<char>) -> Result<
    (Seq<char>, Seq<char>, Seq<char>),
    Seq<char>,
> {
    match nonblank_arg(t, "path"@) {
        Err(m) => Err(m),
        Ok(p) => match str_member(t, "content"@) {
            None => Err(missing_field_msg("content"@)),
            Some(c) => Ok((p, c, resolved(cwd, p))),
        },
    }
}

/// Checks the write tool's input: (path argument, content, resolved path).
pub fn write_target(input: &serde_json::Value, cwd: &str) -> (r: Result<
    (String, String, String),
    String,
>)
    ensures
        r matches Ok(x) ==> write_args(json_tree(*input), cwd@) == Ok::<
            (Seq<char>, Seq<char>, Seq<char>),
            Seq<char>,
        >((x.0@, x.1@, x.2@)),
        r matches Err(m) ==> write_args(json_tree(*input), cwd@) == Err::<
            (Seq<char>, Seq<char>, Seq<char>),
            Seq<char>,
        >(m@),
{
    let path = nonblank_string(input, "path")?;
    let content = required_string(input, "content")?;
    let full = resolve_path(cwd, path.as_str());
    Ok((path, content, full))
}

/// The write tool's report: `Successfully wrote <bytes> bytes to <path>`.
pub fn write_report(content: &str, path: &str) -> (r: String)
    ensures
        r@ == "Successfully wrote "@ + decimal(crate::text::utf8_len(content@)) + " bytes to "@
            + path@,
{
    let cs = chars_of(content);
    let n = crate::text::utf8_len_of(cs.as_slice());
    let mut m: Vec<char> = Vec::new();
    push_str(&mut m, "Successfully wrote ");
    push_decimal(&mut m, n);
    push_str(&mut m, " bytes to ");
    push_str(&mut m, path);
    string_of(m.as_slice())
}

/// What the edit tool is asked to do: the path argument, the replacements and the
/// resolved path.
pub open spec fn edit_args(t: JsonTree, cwd: Seq<char>) -> Result<
    (Seq<char>, Seq<(Seq<char>, Seq<char>)>, Seq<char>),
    Seq<char>,
> {
    match nonblank_arg(t, "path"@) {
        Err(m) => Err(m),
        Ok(p) => match requested_edits(t) {
            Err(m) => Err(m),
            Ok(e) => Ok((p, e, resolved(cwd, p))),
        },
    }
}

/// Checks the edit tool's input: (path argument, replacements, resolved path).
pub fn edit_target(input: &serde_json::Value, cwd: &str) -> (r: Result<
    (String, Vec<(String, String)>, String),
    String,
>)
    ensures
        r matches Ok(x) ==> edit_args(json_tree(*input), cwd@) == Ok::<
            (Seq<char>, Seq<(Seq<char>, Seq<char>)>, Seq<char>),
            Seq<char>,
        >((x.0@, x.1@.map_values(|e: (String, String)| pair_view(e)), x.2@)),
        r matches Err(m) ==> edit_args(json_tree(*input), cwd@) == Err::<
            (Seq<char>, Seq<(Seq<char>, Seq<char>)>, Seq<char>),
            Seq<char>,
        >(m@),
{
    let path = nonblank_string(input, "path")?;
    let edits = extract_edits(input)?;
    let full = resolve_path(cwd, path.as_str());
    Ok((path, edits, full))
}

/// What the bash tool is asked to run: the command and an optional timeout in
/// seconds (a non-negative integer `timeout`; anything else means none).
pub open spec fn bash_args(t: JsonTree) -> Result<(Seq<char>, Option<nat>), Seq<char>> {
    match nonblank_arg(t, "command"@) {
        Err(m) => Err(m),
        Ok(c) => Ok(
            (
                c,
                match obj_get(t, "timeout"@) {
                    Some(x) => as_u64(x),
                    None => None,
                },
            ),
        ),
    }
}

/// Checks the bash tool's input: (command, timeout in seconds).
pub fn bash_request(input: &serde_json::Value) -> (r: Result<(String, Option<u64>), String>)
    ensures
        r matches Ok(x) ==> bash_args(json_tree(*input)) == Ok::<
            (Seq<char>, Option<nat>),
            Seq<char>,
        >(
            (
                x.0@,
                match x.1 {
                    Some(n) => Some(n as nat),
                    None => None,
                },
            ),
        ),
        r matches Err(m) ==> bash_args(json_tree(*input)) == Err::<
            (Seq<char>, Option<nat>),
            Seq<char>,
        >(m@),
{
    let command = nonblank_string(input, "command")?;
    let timeout = match json_get(input, "timeout") {
        Some(v) => json_as_u64(v),
        None => None,
    };
    Ok((command, timeout))
}

/// Decimal form of a signed integer, with a leading `-` when negative.
pub open spec fn signed_decimal(n: int) -> Seq<char> {
    if n < 0 {
        "-"@ + decimal((-n) as nat)
    } else {
        decimal(n as nat)
    }
}

/// Appends the decimal form of a signed integer.
pub fn push_signed(out: &mut Vec<char>, n: i64)
    ensures
        final(out)@ == old(out)@ + signed_decimal(n as int),
{
    if n < 0 {
        push_str(out, "-");
        let m: u128 = (-(n as i128)) as u128;
        push_decimal(out, m);
    } else {
        push_decimal(out, n as u128);
    }
}

/// The payload of the bash tool for truncated output: the kept text (or
/// `(no output)`) and, when truncated, a note naming the log with the full output.
pub open spec fn bash_payload(r: TruncationResult, log: Seq<char>) -> Seq<char> {
    let base = if r.content@.len() == 0 {
        "(no output)"@
    } else {
        r.content@
    };
    if !r.truncated {
        base
    } else {
        let total = r.total_lines as int;
        let start = (if total >= r.output_lines {
            total - r.output_lines
        } else {
            0
        }) + 1;
        if r.last_line_partial {
            base + "\n\n[Showing last "@ + decimal(r.output_bytes as nat) + " bytes of line "@
                + decimal(r.total_lines as nat) + ". Full output: "@ + log + "]"@
        } else if r.truncated_by == Some(TruncatedBy::Lines) {
            base + "\n\n[Showing lines "@ + decimal(start as nat) + "-"@ + decimal(
                r.total_lines as nat,
            ) + " of "@ + decimal(r.total_lines as nat) + ". Full output: "@ + log + "]"@
        } else {
            base + "\n\n[Showing lines "@ + decimal(start as nat) + "-"@ + decimal(
                r.total_lines as nat,
            ) + " of "@ + decimal(r.total_lines as nat) + " ("@ + decimal(
                DEFAULT_MAX_BYTES as nat,
            ) + " limit). Full output: "@ + log + "]"@
        }
    }
}

/// The bash tool's result: the payload, or for a failed command the payload with
/// the exit code (`-1` when the process had none).
pub open spec fn bash_result(
    r: TruncationResult,
    log: Seq<char>,
    success: bool,
    code: Option<i32>,
) -> Result<Seq<char>, Seq<char>> {
    let p = bash_payload(r, log);
    if success {
        Ok(p)
    } else {
        Err(p + "\n\nCommand exited with code "@ + signed_decimal(
            match code {
                Some(c) => c as int,
                None => -1,
            },
        ))
    }
}

/// Builds the bash tool's result from the truncated output, the path of the log
/// holding the full output (used when truncated) and the exit status.
pub fn bash_report(r: &TruncationResult, log: &str, success: bool, code: Option<i32>) -> (res:
    Result<String, String>)
    ensures
        res matches Ok(s) ==> bash_result(*r, log@, success, code) == Ok::<Seq<char>, Seq<char>>(
            s@,
        ),
        res matches Err(s) ==> bash_result(*r, log@, success, code) == Err::<
            Seq<char>,
            Seq<char>,
        >(s@),
{
    let cs = chars_of(r.content.as_str());
    let mut p: Vec<char> = Vec::new();
    if cs.len() == 0 {
        push_str(&mut p, "(no output)");
    } else {
        push_str(&mut p, r.content.as_str());
    }
    if r.truncated {
        let start: u128 = (if r.total_lines >= r.output_lines {
            r.total_lines - r.output_lines
        } else {
            0
        }) as u128 + 1;
        if r.last_line_partial {
            push_str(&mut p, "\n\n[Showing last ");
            push_decimal(&mut p, r.output_bytes as u128);
            push_str(&mut p, " bytes of line ");
            push_decimal(&mut p, r.total_lines as u128);
            push_str(&mut p, ". Full output: ");
            push_str(&mut p, log);
            push_str(&mut p, "]");
        } else if r.truncated_by == Some(TruncatedBy::Lines) {
            push_str(&mut p, "\n\n[Showing lines ");
            push_decimal(&mut p, start);
            push_str(&mut p, "-");
            push_decimal(&mut p, r.total_lines as u128);
            push_str(&mut p, " of ");
            push_decimal(&mut p, r.total_lines as u128);
            push_str(&mut p, ". Full output: ");
            push_str(&mut p, log);
            push_str(&mut p, "]");
        } else {
            push_str(&mut p, "\n\n[Showing lines ");
            push_decimal(&mut p, start);
            push_str(&mut p, "-");
            push_decimal(&mut p, r.total_lines as u128);
            push_str(&mut p, " of ");
            push_decimal(&mut p, r.total_lines as u128);
            push_str(&mut p, " (");
            push_decimal(&mut p, DEFAULT_MAX_BYTES as u128);
            push_str(&mut p, " limit). Full output: ");
            push_str(&mut p, log);
            push_str(&mut p, "]");
        }
    }
    if success {
        return Ok(string_of(p.as_slice()));
    }
    push_str(&mut p, "\n\nCommand exited with code ");
    let c: i64 = match code {
        Some(c) => c as i64,
        None => -1,
    };
    push_signed(&mut p, c);
    Err(string_of(p.as_slice()))
}


/// `image::guess_format` recognizes the data as an image.
pub uninterp spec fn image_format_known(data: Seq<u8>) -> bool;

/// The MIME type (`ImageFormat::to_mime_type`) of the format that
/// `image::guess_format` finds in the data.
pub uninterp spec fn image_mime_type(data: Seq<u8>) -> Seq<char>;

/// The MIME type of the image format the `image` crate recognizes in the data
/// (`guess_format`, then `to_mime_type`); `None` when it recognizes none.
#[verifier::external_body]
pub(crate) fn image_mime(data: &[u8]) -> (r: Option<String>)
    ensures
        r is Some <==> image_format_known(data@),
        r matches Some(m) ==> m@ == image_mime_type(data@),
{
    match image::guess_format(data) {
        Ok(f) => Some(f.to_mime_type().to_owned()),
        Err(_) => None,
    }
}

/// The width and height of the image that `image::load_from_memory` decodes
/// from the data; `None` when it cannot decode it.
pub uninterp spec fn image_size(data: Seq<u8>) -> Option<(u32, u32)>;

/// Decodes the data as an image (`image::load_from_memory`) and gives its
/// width and height; `None` when decoding fails.
#[verifier::external_body]
pub(crate) fn decoded_size(data: &[u8]) -> (r: Option<(u32, u32)>)
    ensures
        r == image_size(data@),
{
    match image::load_from_memory(data) {
        Ok(img) => Some((img.width(), img.height())),
        Err(_) => None,
    }
}

/// A resampling filter for resizing (`image::imageops::FilterType`).
#[derive(Debug, Clone, Copy, PartialEq, Eq, Structural)]
pub enum ResizeFilter {
    Nearest,
    Triangle,
    CatmullRom,
    Gaussian,
    Lanczos3,
}

/// A format to encode an image in (`image::ImageFormat`).
#[derive(Debug, Clone, Copy, PartialEq, Eq, Structural)]
pub enum ImageEncoding {
    Png,
    Jpeg,
}

/// The bytes of the image decoded from the data, scaled with its aspect ratio
/// kept to the largest size that fits within `w` by `h` using `filter`, and
/// encoded in `format`; `None` when decoding or encoding fails.
pub uninterp spec fn encoded_fitted(
    data: Seq<u8>,
    w: u32,
    h: u32,
    filter: ResizeFilter,
    format: ImageEncoding,
) -> Option<Seq<u8>>;

/// Decodes the data (`image::load_from_memory`), resizes it to fit within `w`
/// by `h` keeping its aspect ratio (`DynamicImage::resize` with `filter`) and
/// encodes the result in `format` (`DynamicImage::write_to`).
#[verifier::external_body]
pub(crate) fn fitted_image(data: &[u8], w: u32, h: u32, filter: ResizeFilter, format: ImageEncoding) -> (r:
    Option<Vec<u8>>)
    ensures
        match r {
            Some(v) => encoded_fitted(data@, w, h, filter, format) == Some(v@),
            None => encoded_fitted(data@, w, h, filter, format) is None,
        },
{
    let f = match filter { ResizeFilter::Nearest => FilterType::Nearest, ResizeFilter::Triangle => FilterType::Triangle, ResizeFilter::CatmullRom => FilterType::CatmullRom, ResizeFilter::Gaussian => FilterType::Gaussian, ResizeFilter::Lanczos3 => FilterType::Lanczos3 };
    let fmt = match format { ImageEncoding::Png => image::ImageFormat::Png, ImageEncoding::Jpeg => image::ImageFormat::Jpeg };
    let img = match image::load_from_memory(data) {
        Ok(img) => img.resize(w, h, f),
        Err(_) => return None,
    };
    let mut out = std::io::Cursor::new(Vec::new());
    match img.write_to(&mut out, fmt) {
        Ok(()) => Some(out.into_inner()),
        Err(_) => None,
    }
}

/// The largest width and height of an image that `read` returns.
pub const MAX_IMAGE_SIDE: u32 = 2000;

/// The text `read` gives for an image: the path and MIME type, then the
/// image's bytes in base64.
pub open spec fn image_text(full: Seq<char>, mime: Seq<char>, bytes: Seq<u8>) -> Seq<char> {
    "Read image file: "@ + full + " ["@ + mime + "]\n"@ + base64(bytes)
}

/// What `read` answers for image data: the image as base64, as it is when it
/// fits within 2000x2000, else scaled down to fit (Lanczos3 filter) and
/// re-encoded as PNG; an
/// error when it cannot be decoded or resized.
pub open spec fn image_answer(full: Seq<char>, data: Seq<u8>) -> Result<Seq<char>, Seq<char>> {
    match image_size(data) {
        None => Err("Failed to decode image file: "@ + full),
        Some((w, h)) => if w <= MAX_IMAGE_SIDE && h <= MAX_IMAGE_SIDE {
            Ok(image_text(full, image_mime_type(data), data))
        } else {
            match encoded_fitted(
                data,
                MAX_IMAGE_SIDE,
                MAX_IMAGE_SIDE,
                ResizeFilter::Lanczos3,
                ImageEncoding::Png,
            ) {
                Some(p) => Ok(image_text(full, "image/png"@, p)),
                None => Err("Failed to resize image file: "@ + full),
            }
        },
    }
}

/// The read tool's answer for image data whose MIME type is `mime`.
fn image_output(full: &str, data: &[u8], mime: &str) -> (r: Result<String, String>)
    requires
        mime@ == image_mime_type(data@),
    ensures
        r matches Ok(s) ==> image_answer(full@, data@) == Ok::<Seq<char>, Seq<char>>(s@),
        r matches Err(m) ==> image_answer(full@, data@) == Err::<Seq<char>, Seq<char>>(m@),
{
    let (w, h) = match decoded_size(data) {
        Some(d) => d,
        None => {
            let mut m = chars_of("Failed to decode image file: ");
            push_str(&mut m, full);
            return Err(string_of(m.as_slice()));
        },
    };
    let mut t = chars_of("Read image file: ");
    push_str(&mut t, full);
    push_str(&mut t, " [");
    if w <= MAX_IMAGE_SIDE && h <= MAX_IMAGE_SIDE {
        push_str(&mut t, mime);
        push_str(&mut t, "]\n");
        push_str(&mut t, base64_encode(data).as_str());
        return Ok(string_of(t.as_slice()));
    }
    match fitted_image(data, MAX_IMAGE_SIDE, MAX_IMAGE_SIDE, ResizeFilter::Lanczos3, ImageEncoding::Png) {
        Some(p) => {
            push_str(&mut t, "image/png");
            push_str(&mut t, "]\n");
            push_str(&mut t, base64_encode(p.as_slice()).as_str());
            Ok(string_of(t.as_slice()))
        },
        None => {
            let mut m = chars_of("Failed to resize image file: ");
            push_str(&mut m, full);
            Err(string_of(m.as_slice()))
        },
    }
}

/// The text `String::from_utf8_lossy` makes of bytes.
pub uninterp spec fn utf8_lossy(data: Seq<u8>) -> Seq<char>;

/// `String::from_utf8_lossy`, owned; valid UTF-8 is decoded unchanged.
#[verifier::external_body]
pub(crate) fn lossy_text(data: &[u8]) -> (s: String)
    ensures
        s@ == utf8_lossy(data@),
        vstd::utf8::valid_utf8(data@) ==> s@ == vstd::utf8::decode_utf8(data@),
{
    String::from_utf8_lossy(data).to_string()
}

/// The read tool's `offset` and `limit` together stay within `usize` (the
/// original adds them in `usize` arithmetic).
pub open spec fn read_args_fit(t: JsonTree) -> bool {
    match (optional_positive(t, "offset"@), optional_positive(t, "limit"@)) {
        (Ok(Some(o)), Ok(Some(l))) => o - 1 + l <= usize::MAX,
        _ => true,
    }
}

/// Executable `read_args_fit`.
pub fn read_args_in_range(input: &serde_json::Value) -> (b: bool)
    ensures
        b == read_args_fit(json_tree(*input)),
{
    match (optional_positive_usize(input, "offset"), optional_positive_usize(input, "limit")) {
        (Ok(Some(o)), Ok(Some(l))) => (o as u128) - 1 + (l as u128) <= usize::MAX as u128,
        _ => true,
    }
}

/// The note `read` adds after the text it shows.
pub open spec fn read_note(
    tr: TruncationResult,
    lines: Seq<Seq<char>>,
    start: nat,
    limit: Option<nat>,
    path: Seq<char>,
) -> Seq<char> {
    let total = lines.len();
    let end_line: nat = start + tr.output_lines as nat;
    if tr.first_line_exceeds_limit {
        "[Line "@ + decimal(start + 1) + " is "@ + decimal(crate::text::utf8_len(lines[start as int]))
            + " bytes, exceeds "@ + decimal(DEFAULT_MAX_BYTES as nat) + " limit. Use bash: sed -n '"@
            + decimal(start + 1) + "p' "@ + path + " | head -c "@ + decimal(DEFAULT_MAX_BYTES as nat)
            + "]"@
    } else if tr.truncated {
        if tr.truncated_by == Some(TruncatedBy::Lines) {
            tr.content@ + "\n\n[Showing lines "@ + decimal(start + 1) + "-"@ + decimal(end_line)
                + " of "@ + decimal(total) + ". Use offset="@ + decimal(end_line + 1)
                + " to continue.]"@
        } else {
            tr.content@ + "\n\n[Showing lines "@ + decimal(start + 1) + "-"@ + decimal(end_line)
                + " of "@ + decimal(total) + " ("@ + decimal(DEFAULT_MAX_BYTES as nat)
                + " limit). Use offset="@ + decimal(end_line + 1) + " to continue.]"@
        }
    } else {
        match limit {
            Some(l) => if start + l < total {
                tr.content@ + "\n\n["@ + decimal((total - (start + l)) as nat)
                    + " more lines in file. Use offset="@ + decimal(start + l + 1)
                    + " to continue.]"@
            } else {
                tr.content@
            },
            None => tr.content@,
        }
    }
}

/// The lines `read` selects: from the 1-based `offset` on, at most `limit` of them.
pub open spec fn read_selection(lines: Seq<Seq<char>>, start: nat, limit: Option<nat>) -> Seq<char> {
    match limit {
        Some(l) => crate::truncate::joined(
            lines.subrange(
                start as int,
                if start + l < lines.len() {
                    (start + l) as int
                } else {
                    lines.len() as int
                },
            ),
        ),
        None => crate::truncate::joined(lines.skip(start as int)),
    }
}

/// Joining two non-empty lists is joining each and putting the separator between.
proof fn lemma_join_concat(a: Seq<Seq<char>>, b: Seq<Seq<char>>, sep: Seq<char>)
    requires
        a.len() > 0,
        b.len() > 0,
    ensures
        join(a + b, sep) == join(a, sep) + sep + join(b, sep),
    decreases b.len(),
{
    if b.len() == 1 {
        assert(a + b =~= a.push(b[0]));
        lemma_join_push(a, b[0], sep);
    } else {
        let b0 = b.drop_last();
        lemma_join_concat(a, b0, sep);
        assert(a + b =~= (a + b0).push(b.last()));
        lemma_join_push(a + b0, b.last(), sep);
        assert(b =~= b0.push(b.last()));
        lemma_join_push(b0, b.last(), sep);
        assert(join(a, sep) + sep + join(b0, sep) + sep + b.last() =~= join(a, sep) + sep + (join(
            b0,
            sep,
        ) + sep + b.last()));
    }
}

/// The lines `read` shows (before truncation) are the file's own lines from
/// line `start + 1` on, and at most `limit` of them: the file's text is the
/// lines before them, a newline, the selection, and a newline with the lines
/// after it (each part there only when it has lines).
pub proof fn law_read_selection_in_place(text: Seq<char>, start: nat, limit: Option<nat>)
    requires
        start < text_lines(text).len(),
        limit matches Some(l) ==> l > 0,
    ensures
        ({
            let ls = text_lines(text);
            let end: int = match limit {
                Some(l) => if start + l < ls.len() {
                    (start + l) as int
                } else {
                    ls.len() as int
                },
                None => ls.len() as int,
            };
            text == (if start > 0 {
                crate::truncate::joined(ls.take(start as int)) + seq!['\n']
            } else {
                Seq::empty()
            }) + read_selection(ls, start, limit) + (if end < ls.len() {
                seq!['\n'] + crate::truncate::joined(ls.skip(end))
            } else {
                Seq::empty()
            })
        }),
{
    let ls = text_lines(text);
    let end: int = match limit {
        Some(l) => if start + l < ls.len() {
            (start + l) as int
        } else {
            ls.len() as int
        },
        None => ls.len() as int,
    };
    let sep = seq!['\n'];
    lemma_join_split(text, '\n');
    let pre = ls.take(start as int);
    let mid = ls.subrange(start as int, end);
    let post = ls.skip(end);
    assert(mid.len() > 0);
    assert(read_selection(ls, start, limit) == join(mid, sep)) by {
        if limit is None {
            assert(ls.skip(start as int) =~= mid);
        }
    }
    if start > 0 {
        lemma_join_concat(pre, mid, sep);
    }
    if end < ls.len() {
        if start > 0 {
            lemma_join_concat(pre + mid, post, sep);
            assert(pre + mid + post =~= ls);
            assert(join(pre + mid, sep) + sep + join(post, sep) =~= join(pre, sep) + sep + join(mid, sep)
                + (sep + join(post, sep)));
        } else {
            lemma_join_concat(mid, post, sep);
            assert(mid + post =~= ls);
            assert(join(mid, sep) + sep + join(post, sep) =~= Seq::<char>::empty() + join(mid, sep) + (sep
                + join(post, sep)));
        }
    } else {
        if start > 0 {
            assert(pre + mid =~= ls);
            assert(join(pre, sep) + sep + join(mid, sep) =~= join(pre, sep) + sep + join(mid, sep)
                + Seq::<char>::empty());
        } else {
            assert(mid =~= ls);
            assert(join(mid, sep) =~= Seq::<char>::empty() + join(mid, sep) + Seq::<char>::empty());
        }
    }
}

/// `o` is what `read` shows of the selected lines: their head truncation to
/// 200 lines / 100 KiB, with its note.
pub open spec fn read_shown(
    lines: Seq<Seq<char>>,
    start: nat,
    lim: Option<nat>,
    path: Seq<char>,
    o: Seq<char>,
) -> bool {
    exists|tr: TruncationResult|
        crate::truncate::head_spec(
            read_selection(lines, start, lim),
            DEFAULT_MAX_LINES as nat,
            DEFAULT_MAX_BYTES as nat,
            tr,
        ) && o == #[trigger] read_note(tr, lines, start, lim, path)
}

/// The read tool's answer for a file's text: an argument error, an offset past
/// the end, or the selected lines truncated to 200 lines / 100 KiB with a note.
pub open spec fn read_text_result(
    t: JsonTree,
    path: Seq<char>,
    text: Seq<char>,
    out: Result<Seq<char>, Seq<char>>,
) -> bool {
    let lines = crate::truncate::text_lines(text);
    let total = lines.len();
    match optional_positive(t, "offset"@) {
        Err(m) => out == Err::<Seq<char>, Seq<char>>(m),
        Ok(off) => {
            let start: nat = match off {
                Some(v) => (v - 1) as nat,
                None => 0,
            };
            if start >= total {
                out == Err::<Seq<char>, Seq<char>>(
                    "Offset "@ + decimal(start + 1) + " is beyond end of file ("@ + decimal(total)
                        + " lines total)"@,
                )
            } else {
                match optional_positive(t, "limit"@) {
                    Err(m) => out == Err::<Seq<char>, Seq<char>>(m),
                    Ok(lim) => out matches Ok(o) && read_shown(lines, start, lim, path, o),
                }
            }
        },
    }
}

/// What the read tool answers for a file's bytes: for an image, the image as
/// base64 (scaled to fit 2000x2000), else the text result of its lossily
/// decoded content.
pub open spec fn read_result(
    t: JsonTree,
    path: Seq<char>,
    full: Seq<char>,
    data: Seq<u8>,
    out: Result<Seq<char>, Seq<char>>,
) -> bool {
    if image_format_known(data) {
        out == image_answer(full, data)
    } else {
        read_text_result(t, path, utf8_lossy(data), out)
    }
}

/// The path the read tool is asked for: (path argument, resolved path).
pub fn read_target(input: &serde_json::Value, cwd: &str) -> (r: Result<(String, String), String>)
    ensures
        r matches Ok(x) ==> nonblank_arg(json_tree(*input), "path"@) == Ok::<
            Seq<char>,
            Seq<char>,
        >(x.0@) && x.1@ == resolved(cwd@, x.0@),
        r matches Err(m) ==> nonblank_arg(json_tree(*input), "path"@) == Err::<
            Seq<char>,
            Seq<char>,
        >(m@),
{
    let path = nonblank_string(input, "path")?;
    let full = resolve_path(cwd, path.as_str());
    Ok((path, full))
}

/// The read tool's answer once the file's bytes are in hand.
pub fn read_file_output(input: &serde_json::Value, path: &str, full: &str, data: &[u8]) -> (r:
    Result<String, String>)
    requires
        read_args_fit(json_tree(*input)),
    ensures
        r matches Ok(s) ==> read_result(
            json_tree(*input),
            path@,
            full@,
            data@,
            Ok::<Seq<char>, Seq<char>>(s@),
        ),
        r matches Err(m) ==> read_result(
            json_tree(*input),
            path@,
            full@,
            data@,
            Err::<Seq<char>, Seq<char>>(m@),
        ),
{
    match image_mime(data) {
        Some(mime) => return image_output(full, data, mime.as_str()),
        None => {},
    }
    let text = lossy_text(data);
    read_text_output(input, path, text.as_str())
}

/// The read tool's answer for a file's text.
pub fn read_text_output(input: &serde_json::Value, path: &str, text: &str) -> (r: Result<
    String,
    String,
>)
    requires
        read_args_fit(json_tree(*input)),
    ensures
        r matches Ok(s) ==> read_text_result(
            json_tree(*input),
            path@,
            text@,
            Ok::<Seq<char>, Seq<char>>(s@),
        ),
        r matches Err(m) ==> read_text_result(
            json_tree(*input),
            path@,
            text@,
            Err::<Seq<char>, Seq<char>>(m@),
        ),
{
    let ghost t = json_tree(*input);
    let cs = chars_of(text);
    let lines = crate::text::split_chars(cs.as_slice(), '\n');
    let ghost lv = crate::truncate::text_lines(text@);
    proof {
        assert(lines@.map_values(|l: Vec<char>| l@) =~= lv);
    }
    let total = lines.len();
    let start: usize = match optional_positive_usize(input, "offset")? {
        Some(v) => v - 1,
        None => 0,
    };
    if start >= total {
        let mut m: Vec<char> = Vec::new();
        push_str(&mut m, "Offset ");
        push_decimal(&mut m, start as u128 + 1);
        push_str(&mut m, " is beyond end of file (");
        push_decimal(&mut m, total as u128);
        push_str(&mut m, " lines total)");
        let e = string_of(m.as_slice());
        proof {
            assert(read_text_result(t, path@, text@, Err::<Seq<char>, Seq<char>>(e@)));
        }
        return Err(e);
    }
    let limit = optional_positive_usize(input, "limit")?;
    let sel = match limit {
        Some(l) => {
            let end: usize = if (start as u128) + (l as u128) < total as u128 {
                start + l
            } else {
                total
            };
            join_range_lines(&lines, start, end)
        },
        None => join_range_lines(&lines, start, total),
    };
    proof {
        if limit is None {
            assert(lv.subrange(start as int, total as int) =~= lv.skip(start as int));
        }
    }
    let sel_text = string_of(sel.as_slice());
    let tr = crate::truncate::truncate_head(
        sel_text.as_str(),
        DEFAULT_MAX_LINES,
        DEFAULT_MAX_BYTES,
    );
    let ghost lim: Option<nat> = match limit {
        Some(l) => Some(l as nat),
        None => None,
    };
    let out = read_note_exec(&tr, &lines, start, limit, path);
    proof {
        assert(crate::truncate::head_spec(
            read_selection(lv, start as nat, lim),
            DEFAULT_MAX_LINES as nat,
            DEFAULT_MAX_BYTES as nat,
            tr,
        ));
        assert(out@ == read_note(tr, lv, start as nat, lim, path@));
        assert(optional_positive(t, "limit"@) == Ok::<Option<nat>, Seq<char>>(lim));
        let ghost off = optional_positive(t, "offset"@);
        assert(off is Ok);
        assert(start as nat == match off->Ok_0 {
            Some(v) => (v - 1) as nat,
            None => 0,
        });
        assert(!(start as nat >= lv.len()));
        assert(crate::truncate::text_lines(text@) == lv);
        assert(read_shown(lv, start as nat, lim, path@, out@));
        assert(read_text_result(t, path@, text@, Ok::<Seq<char>, Seq<char>>(out@)));
    }
    Ok(out)
}

fn join_range_lines(ls: &Vec<Vec<char>>, from: usize, to: usize) -> (r: Vec<char>)
    requires
        from <= to <= ls@.len(),
    ensures
        r@ == crate::truncate::joined(
            ls@.map_values(|l: Vec<char>| l@).subrange(from as int, to as int),
        ),
{
    crate::truncate::join_range(ls, from, to)
}

/// Executable `read_note`.
fn read_note_exec(
    tr: &TruncationResult,
    lines: &Vec<Vec<char>>,
    start: usize,
    limit: Option<usize>,
    path: &str,
) -> (r: String)
    requires
        start < lines@.len(),
    ensures
        r@ == read_note(
            *tr,
            lines@.map_values(|l: Vec<char>| l@),
            start as nat,
            match limit {
                Some(l) => Some(l as nat),
                None => None,
            },
            path@,
        ),
{
    let total = lines.len() as u128;
    let s1 = start as u128 + 1;
    let end_line = start as u128 + tr.output_lines as u128;
    let mut m: Vec<char> = Vec::new();
    if tr.first_line_exceeds_limit {
        let size = crate::text::utf8_len_of(lines[start].as_slice());
        push_str(&mut m, "[Line ");
        push_decimal(&mut m, s1);
        push_str(&mut m, " is ");
        push_decimal(&mut m, size);
        push_str(&mut m, " bytes, exceeds ");
        push_decimal(&mut m, DEFAULT_MAX_BYTES as u128);
        push_str(&mut m, " limit. Use bash: sed -n '");
        push_decimal(&mut m, s1);
        push_str(&mut m, "p' ");
        push_str(&mut m, path);
        push_str(&mut m, " | head -c ");
        push_decimal(&mut m, DEFAULT_MAX_BYTES as u128);
        push_str(&mut m, "]");
    } else if tr.truncated {
        push_str(&mut m, tr.content.as_str());
        push_str(&mut m, "\n\n[Showing lines ");
        push_decimal(&mut m, s1);
        push_str(&mut m, "-");
        push_decimal(&mut m, end_line);
        push_str(&mut m, " of ");
        push_decimal(&mut m, total);
        if tr.truncated_by == Some(TruncatedBy::Lines) {
            push_str(&mut m, ". Use offset=");
        } else {
            push_str(&mut m, " (");
            push_decimal(&mut m, DEFAULT_MAX_BYTES as u128);
            push_str(&mut m, " limit). Use offset=");
        }
        push_decimal(&mut m, end_line + 1);
        push_str(&mut m, " to continue.]");
    } else {
        push_str(&mut m, tr.content.as_str());
        match limit {
            Some(l) => {
                let consumed = start as u128 + l as u128;
                if consumed < total {
                    push_str(&mut m, "\n\n[");
                    push_decimal(&mut m, total - consumed);
                    push_str(&mut m, " more lines in file. Use offset=");
                    push_decimal(&mut m, consumed + 1);
                    push_str(&mut m, " to continue.]");
                }
            },
            None => {},
        }
    }
    string_of(m.as_slice())
}

/// The name of the file that keeps a command's full output:
/// `<prefix>-<pid>-<millis>.log`.
pub fn log_file_name(prefix: &str, pid: u32, now_millis: u128) -> (r: String)
    ensures
        r@ == prefix@ + "-"@ + decimal(pid as nat) + "-"@ + decimal(now_millis as nat) + ".log"@,
{
    let mut c = chars_of(prefix);
    push_str(&mut c, "-");
    push_decimal(&mut c, pid as u128);
    push_str(&mut c, "-");
    push_decimal(&mut c, now_millis);
    push_str(&mut c, ".log");
    string_of(c.as_slice())
}

} // verus!
