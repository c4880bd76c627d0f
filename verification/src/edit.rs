//! Exact-text replacement edits on a file's content, and the helpers the file
//! tools share: line endings, line numbers and short error snippets.
use vstd::prelude::*;
use crate::json::{
    json_as_array, json_get, json_object, json_string, json_text, json_to_text, json_tree, json_u64,
    map_of, obj_get, str_field, str_member, JsonNum, JsonTree, entries_view, lemma_few_keys_distinct,
};
use crate::tasks::slice_eq;
use crate::text::{
    byte_prefix_chars, chars_of, lemma_prefix_bytes_strict, lemma_split_on_count, split_chars, contains, contains_chars, count_char, count_chars, find_from,
    find_chars, find, find_chars_from, lemma_find_from, occurs_at, push_all, push_decimal, push_range, push_str,
    replace_all, replace_chars, slice_range, string_of, utf8_len, decimal,
};

verus! {

/// `\r\n` when `s` contains one, else `\n`.
pub open spec fn line_ending_of(s: Seq<char>) -> Seq<char> {
    if contains(s, "\r\n"@) {
        "\r\n"@
    } else {
        "\n"@
    }
}

/// The line ending a text uses: `\r\n` if it contains one, else `\n`.
pub fn detect_line_ending(s: &str) -> (r: &'static str)
    ensures
        r@ == line_ending_of(s@),
{
    let cs = chars_of(s);
    let crlf = chars_of("\r\n");
    if contains_chars(cs.as_slice(), crlf.as_slice()) {
        "\r\n"
    } else {
        "\n"
    }
}

/// `s` with its `\n` line endings turned into `ending` (unchanged for `\n`).
pub open spec fn with_line_endings(s: Seq<char>, ending: Seq<char>) -> Seq<char> {
    if ending == "\n"@ {
        s
    } else {
        replace_all(s, "\n"@, ending)
    }
}

/// Writes `s` with the line ending `ending` in place of each `\n`.
pub fn restore_line_endings(s: &str, ending: &str) -> (r: String)
    ensures
        r@ == with_line_endings(s@, ending@),
{
    let cs = chars_of(s);
    let e = chars_of(ending);
    let nl = chars_of("\n");
    if slice_eq(e.as_slice(), nl.as_slice()) {
        return s.to_owned();
    }
    proof {
        reveal_strlit("\n");
    }
    let out = replace_chars(cs.as_slice(), nl.as_slice(), e.as_slice());
    string_of(out.as_slice())
}

/// 1-based line number of the character at position `c` (counting the `\n`s
/// before it).
pub open spec fn line_at(text: Seq<char>, c: int) -> nat {
    count_char(text.take(c), '\n') + 1
}

/// The character count of the longest prefix of `text` within `offset` bytes,
/// when `offset` is a character boundary or past the end.
pub open spec fn offset_ok(text: Seq<char>, offset: nat) -> bool {
    offset >= utf8_len(text) || exists|c: int|
        0 <= c <= text.len() && #[trigger] utf8_len(text.take(c)) == offset
}

/// 1-based line number of byte `offset` in `text`: one more than the number of
/// `\n` before it (an offset past the end counts the whole text).
pub fn line_of_offset(text: &str, offset: usize) -> (r: usize)
    requires
        offset_ok(text@, offset as nat),
    ensures
        offset >= utf8_len(text@) ==> r == line_at(text@, text@.len() as int),
        offset < utf8_len(text@) ==> exists|c: int|
            0 <= c <= text@.len() && #[trigger] utf8_len(text@.take(c)) == offset && r == line_at(
                text@,
                c,
            ),
{
    let cs = chars_of(text);
    let c = byte_prefix_chars(cs.as_slice(), offset as u128);
    let pre = slice_range(cs.as_slice(), 0, c);
    let pieces = split_chars(pre.as_slice(), '\n');
    proof {
        assert(pre@ =~= text@.take(c as int));
        lemma_split_on_count(pre@, '\n');
        if offset < utf8_len(text@) {
            let c2 = choose|c2: int|
                0 <= c2 <= text@.len() && #[trigger] utf8_len(text@.take(c2)) == offset;
            if c2 < c {
                lemma_prefix_bytes_strict(text@, c2, c as int);
            } else if c2 > c {
                lemma_prefix_bytes_strict(text@, c + 1, c2);
            }
            assert(c2 == c);
        }
    }
    pieces.len()
}

/// At most every character is a newline.
pub proof fn count_char_le(s: Seq<char>, d: char)
    ensures
        count_char(s, d) <= s.len(),
    decreases s.len(),
{
    if s.len() > 0 {
        count_char_le(s.drop_last(), d);
    }
}

/// `s` as it appears in an error: at most 120 characters, else its first 120
/// characters followed by `...`.
pub open spec fn error_snippet(s: Seq<char>) -> Seq<char> {
    if s.len() <= 120 {
        s
    } else {
        s.take(120) + "..."@
    }
}

/// Shortens `s` for an error message: `error_snippet`.
pub fn truncate_for_error(s: &str) -> (r: String)
    ensures
        r@ == error_snippet(s@),
{
    let cs = chars_of(s);
    if cs.len() <= 120 {
        return s.to_owned();
    }
    let mut out = slice_range(cs.as_slice(), 0, 120);
    push_str(&mut out, "...");
    string_of(out.as_slice())
}


/// An edit request: the text to find and the text to put in its place.
pub open spec fn pair_view(e: (String, String)) -> (Seq<char>, Seq<char>) {
    (e.0@, e.1@)
}

/// Error for an edit item without a string `oldText`.
pub open spec fn missing_old_msg() -> Seq<char> {
    "each edit requires `oldText`"@
}

/// Error for an edit item without a string `newText`.
pub open spec fn missing_new_msg() -> Seq<char> {
    "each edit requires `newText`"@
}

/// Error for a request that names no replacement at all.
pub open spec fn no_edits_msg() -> Seq<char> {
    "edits must contain at least one replacement"@
}

/// The replacements listed in the `edits` array items, in order; the first item
/// without a string `oldText` (then `newText`) is an error.
pub open spec fn item_edits(items: Seq<JsonTree>) -> Result<Seq<(Seq<char>, Seq<char>)>, Seq<char>>
    decreases items.len(),
{
    if items.len() == 0 {
        Ok(Seq::empty())
    } else {
        match item_edits(items.drop_last()) {
            Err(m) => Err(m),
            Ok(v) => {
                let it = items.last();
                match (str_member(it, "oldText"@), str_member(it, "newText"@)) {
                    (None, _) => Err(missing_old_msg()),
                    (Some(_), None) => Err(missing_new_msg()),
                    (Some(o), Some(n)) => Ok(v.push((o, n))),
                }
            },
        }
    }
}

/// The replacements an edit request asks for: the `edits` array items, then a
/// top-level `oldText`/`newText` pair when both are strings.
pub open spec fn requested_edits(t: JsonTree) -> Result<Seq<(Seq<char>, Seq<char>)>, Seq<char>> {
    let listed = match obj_get(t, "edits"@) {
        Some(JsonTree::Arr(items)) => item_edits(items),
        _ => Ok(Seq::empty()),
    };
    match listed {
        Err(m) => Err(m),
        Ok(v) => {
            let all = match (str_member(t, "oldText"@), str_member(t, "newText"@)) {
                (Some(o), Some(n)) => v.push((o, n)),
                _ => v,
            };
            if all.len() == 0 {
                Err(no_edits_msg())
            } else {
                Ok(all)
            }
        },
    }
}

/// Reads the replacements of an edit request.
pub fn extract_edits(input: &serde_json::Value) -> (r: Result<Vec<(String, String)>, String>)
    ensures
        r matches Ok(v) ==> requested_edits(json_tree(*input)) == Ok::<
            Seq<(Seq<char>, Seq<char>)>,
            Seq<char>,
        >(v@.map_values(|e: (String, String)| pair_view(e))),
        r matches Err(m) ==> requested_edits(json_tree(*input)) == Err::<
            Seq<(Seq<char>, Seq<char>)>,
            Seq<char>,
        >(m@),
{
    let mut edits: Vec<(String, String)> = Vec::new();
    let ghost t = json_tree(*input);
    proof {
        assert(edits@.map_values(|e: (String, String)| pair_view(e)) =~= Seq::<
            (Seq<char>, Seq<char>),
        >::empty());
    }
    match json_get(input, "edits") {
        Some(e) => match json_as_array(e) {
            Some(arr) => {
                let ghost items = json_tree(*e)->Arr_0;
                let mut i: usize = 0;
                proof {
                    assert(obj_get(t, "edits"@) == Some(JsonTree::Arr(items)));
                    assert(items.take(0) =~= Seq::<JsonTree>::empty());
                    assert(edits@.map_values(|e: (String, String)| pair_view(e)) =~= Seq::<
                        (Seq<char>, Seq<char>),
                    >::empty());
                }
                while i < arr.len()
                    invariant
                        i <= arr@.len(),
                        arr@.len() == items.len(),
                        t == json_tree(*input),
                        obj_get(t, "edits"@) == Some(JsonTree::Arr(items)),
                        forall|j: int| 0 <= j < arr@.len() ==> json_tree(#[trigger] arr@[j]) == items[j],
                        item_edits(items.take(i as int)) == Ok::<
                            Seq<(Seq<char>, Seq<char>)>,
                            Seq<char>,
                        >(edits@.map_values(|e: (String, String)| pair_view(e))),
                    decreases arr@.len() - i,
                {
                    proof {
                        assert(items.take(i + 1).drop_last() =~= items.take(i as int));
                        assert(items.take(i + 1).last() == items[i as int]);
                    }
                    let item = &arr[i];
                    let old = match str_field(item, "oldText") {
                        Some(o) => o,
                        None => {
                            proof {
                                assert(item_edits(items.take(i + 1)) == Err::<
                                    Seq<(Seq<char>, Seq<char>)>,
                                    Seq<char>,
                                >(missing_old_msg()));
                                lemma_item_edits_err_stays(items, i + 1);
                                assert(obj_get(t, "edits"@) == Some(JsonTree::Arr(items)));
                            }
                            return Err("each edit requires `oldText`".to_owned());
                        },
                    };
                    let new = match str_field(item, "newText") {
                        Some(n) => n,
                        None => {
                            proof {
                                assert(item_edits(items.take(i + 1)) == Err::<
                                    Seq<(Seq<char>, Seq<char>)>,
                                    Seq<char>,
                                >(missing_new_msg()));
                                lemma_item_edits_err_stays(items, i + 1);
                                assert(obj_get(t, "edits"@) == Some(JsonTree::Arr(items)));
                            }
                            return Err("each edit requires `newText`".to_owned());
                        },
                    };
                    let ghost prev = edits@;
                    proof {
                        assert(json_tree(*item) == items[i as int]);
                        assert(str_member(items[i as int], "oldText"@) == Some(old@));
                        assert(str_member(items[i as int], "newText"@) == Some(new@));
                    }
                    edits.push((old, new));
                    proof {
                        assert(edits@ == prev.push(edits@.last()));
                        assert(edits@.map_values(|e: (String, String)| pair_view(e)) =~= prev.map_values(|e: (String, String)| pair_view(e)).push(pair_view(edits@.last())));
                    }
                    i = i + 1;
                }
                proof {
                    assert(items.take(i as int) =~= items);
                    assert(obj_get(t, "edits"@) == Some(JsonTree::Arr(items)));
                }
            },
            None => {},
        },
        None => {},
    }
    let ghost listed = match obj_get(t, "edits"@) {
        Some(JsonTree::Arr(items)) => item_edits(items),
        _ => Ok(Seq::empty()),
    };
    assert(listed == Ok::<Seq<(Seq<char>, Seq<char>)>, Seq<char>>(
        edits@.map_values(|e: (String, String)| pair_view(e)),
    ));
    let top_old = str_field(input, "oldText");
    let top_new = str_field(input, "newText");
    match (top_old, top_new) {
        (Some(o), Some(n)) => {
            let ghost prev = edits@;
            edits.push((o, n));
            proof {
                assert(edits@ == prev.push(edits@.last()));
                assert(edits@.map_values(|e: (String, String)| pair_view(e)) =~= prev.map_values(|e: (String, String)| pair_view(e)).push(pair_view(edits@.last())));
            }
        },
        _ => {},
    }
    if edits.len() == 0 {
        return Err("edits must contain at least one replacement".to_owned());
    }
    Ok(edits)
}

/// Once the items up to `i` fail, the whole list fails the same way.
pub proof fn lemma_item_edits_err_stays(items: Seq<JsonTree>, i: int)
    requires
        0 <= i <= items.len(),
        item_edits(items.take(i)) is Err,
    ensures
        item_edits(items) == item_edits(items.take(i)),
    decreases items.len() - i,
{
    if i == items.len() {
        assert(items.take(i) =~= items);
    } else {
        assert(items.take(i + 1).drop_last() =~= items.take(i));
        lemma_item_edits_err_stays(items, i + 1);
    }
}


/// `s` with `\r\n` line endings turned into `\n`.
pub open spec fn crlf_normalized(s: Seq<char>) -> Seq<char> {
    replace_all(s, "\r\n"@, "\n"@)
}

/// How many matches `str::match_indices` reports for `p` in `h` from position
/// `i` on: non-overlapping, leftmost first; an empty `p` matches at every position.
pub open spec fn match_count_from(h: Seq<char>, p: Seq<char>, i: int) -> nat
    decreases h.len() + 1 - i,
{
    if i < 0 || i > h.len() {
        0
    } else if p.len() == 0 {
        (h.len() - i + 1) as nat
    } else {
        match find_from(h, p, i) {
            None => 0,
            Some(j) => {
                proof {
                    lemma_find_from(h, p, i);
                }
                1 + match_count_from(h, p, j + p.len())
            },
        }
    }
}

/// Number of matches of `p` in `h` (`h.match_indices(p).count()`).
pub open spec fn match_count(h: Seq<char>, p: Seq<char>) -> nat {
    match_count_from(h, p, 0)
}

/// Executable `match_count`.
pub fn count_matches(h: &[char], p: &[char]) -> (n: u128)
    ensures
        n == match_count(h@, p@),
{
    if p.len() == 0 {
        return h.len() as u128 + 1;
    }
    let mut i: usize = 0;
    let mut n: u128 = 0;
    loop
        invariant
            i <= h@.len(),
            p@.len() > 0,
            n <= i,
            n + match_count_from(h@, p@, i as int) == match_count(h@, p@),
        decreases h@.len() - i,
    {
        proof {
            lemma_find_from(h@, p@, i as int);
        }
        match find_chars_from(h, p, i) {
            None => {
                return n;
            },
            Some(j) => {
                let hl = h.len();
                let pl = p.len();
                proof {
                    assert(occurs_at(h@, p@, j as int));
                    assert(j + pl <= hl);
                }
                n = n + 1;
                i = j + pl;
            },
        }
    }
}

/// A pending replacement: the matched range `[start, end)` of the normalized
/// content and the text to put there.
pub open spec fn pend_view(e: (usize, usize, Vec<char>)) -> (int, int, Seq<char>) {
    (e.0 as int, e.1 as int, e.2@)
}

/// Error for an `oldText` that does not match exactly once.
pub open spec fn mismatch_msg(count: nat, old_text: Seq<char>) -> Seq<char> {
    "`oldText` must match exactly once, found "@ + decimal(count) + " matches for snippet: "@
        + debug_repr(error_snippet(old_text))
}

/// Error for replacements whose ranges overlap.
pub open spec fn overlap_msg() -> Seq<char> {
    "edit ranges overlap, which is not allowed"@
}

/// The pending replacements of `edits` on the normalized content, in request
/// order; the first `oldText` that does not match exactly once is an error.
pub open spec fn pending_of(norm: Seq<char>, edits: Seq<(Seq<char>, Seq<char>)>) -> Result<
    Seq<(int, int, Seq<char>)>,
    Seq<char>,
>
    decreases edits.len(),
{
    if edits.len() == 0 {
        Ok(Seq::empty())
    } else {
        match pending_of(norm, edits.drop_last()) {
            Err(m) => Err(m),
            Ok(v) => {
                let (o, n) = edits.last();
                let on = crlf_normalized(o);
                let c = match_count(norm, on);
                if c != 1 {
                    Err(mismatch_msg(c, o))
                } else {
                    let st = match find(norm, on) {
                        Some(x) => x,
                        None => 0,
                    };
                    Ok(v.push((st, st + on.len(), crlf_normalized(n))))
                }
            },
        }
    }
}

/// Where a replacement starting at `key` goes in a list sorted by start: after
/// every entry that starts at or before `key`.
pub open spec fn ins_pos(s: Seq<(int, int, Seq<char>)>, key: int) -> int
    decreases s.len(),
{
    if s.len() == 0 {
        0
    } else if s.last().0 > key {
        ins_pos(s.drop_last(), key)
    } else {
        s.len() as int
    }
}

/// The replacements stably sorted by start (`sort_by_key`).
pub open spec fn sort_by_start(es: Seq<(int, int, Seq<char>)>) -> Seq<(int, int, Seq<char>)>
    decreases es.len(),
{
    if es.len() == 0 {
        Seq::empty()
    } else {
        let s = sort_by_start(es.drop_last());
        s.insert(ins_pos(s, es.last().0), es.last())
    }
}

/// Two consecutive replacements overlap.
pub open spec fn has_overlap(es: Seq<(int, int, Seq<char>)>) -> bool {
    exists|k: int| 0 <= k < es.len() - 1 && #[trigger] es[k].1 > es[k + 1].0
}

/// Every replacement lies within a text of length `len`.
pub open spec fn in_bounds(es: Seq<(int, int, Seq<char>)>, len: int) -> bool {
    forall|k: int| 0 <= k < es.len() ==> 0 <= #[trigger] es[k].0 <= es[k].1 <= len
}

/// Where the text resumes after the replacements.
pub open spec fn cursor_after(es: Seq<(int, int, Seq<char>)>) -> int {
    if es.len() == 0 {
        0
    } else {
        es.last().1
    }
}

/// The text up to the end of the last replacement, with the replacements made.
pub open spec fn spliced(s: Seq<char>, es: Seq<(int, int, Seq<char>)>) -> Seq<char>
    decreases es.len(),
{
    if es.len() == 0 {
        Seq::empty()
    } else {
        spliced(s, es.drop_last()) + s.subrange(cursor_after(es.drop_last()), es.last().0)
            + es.last().2
    }
}

/// `s` with the sorted, non-overlapping replacements made.
pub open spec fn splice(s: Seq<char>, es: Seq<(int, int, Seq<char>)>) -> Seq<char> {
    spliced(s, es) + s.subrange(cursor_after(es), s.len() as int)
}

/// `raw` starts with a byte-order mark.
pub open spec fn has_bom(raw: Seq<char>) -> bool {
    raw.len() > 0 && raw[0] == '\u{feff}'
}

/// The content without its byte-order mark.
pub open spec fn bom_body(raw: Seq<char>) -> Seq<char> {
    if has_bom(raw) {
        raw.drop_first()
    } else {
        raw
    }
}

/// What planning `edits` on a file's content `raw` yields: the content to write,
/// the normalized content before and after, the first changed line and the number
/// of replacements; or the error that stops it.
pub open spec fn edit_outcome(raw: Seq<char>, edits: Seq<(Seq<char>, Seq<char>)>) -> Result<
    (Seq<char>, Seq<char>, Seq<char>, nat, nat),
    Seq<char>,
> {
    let body = bom_body(raw);
    let norm = crlf_normalized(body);
    match pending_of(norm, edits) {
        Err(m) => Err(m),
        Ok(p) => {
            let s = sort_by_start(p);
            if has_overlap(s) {
                Err(overlap_msg())
            } else {
                let rebuilt = splice(norm, s);
                let bom = if has_bom(raw) {
                    seq!['\u{feff}']
                } else {
                    Seq::empty()
                };
                Ok(
                    (
                        bom + with_line_endings(rebuilt, line_ending_of(body)),
                        norm,
                        rebuilt,
                        if s.len() == 0 {
                            1
                        } else {
                            line_at(norm, s[0].0)
                        },
                        s.len(),
                    ),
                )
            }
        },
    }
}

/// The Debug representation of a string (`format!("{:?}", s)`): quoted, with escapes.
pub uninterp spec fn debug_repr(s: Seq<char>) -> Seq<char>;

/// `format!("{:?}", s)`.
#[verifier::external_body]
pub(crate) fn debug_text(s: &str) -> (r: String)
    ensures
        r@ == debug_repr(s@),
{
    format!("{:?}", s)
}

/// A planned edit: what to write back and what to report.
#[derive(Debug)]
pub struct EditPlan {
    pub content: String,
    pub normalized: String,
    pub rebuilt: String,
    pub first_changed_line: usize,
    pub blocks: usize,
}

/// The insertion position of `key` in a list sorted by start.
fn ins_pos_exec(s: &Vec<(usize, usize, Vec<char>)>, key: usize) -> (k: usize)
    ensures
        k == ins_pos(s@.map_values(|e: (usize, usize, Vec<char>)| pend_view(e)), key as int),
        k <= s@.len(),
{
    let ghost sv = s@.map_values(|e: (usize, usize, Vec<char>)| pend_view(e));
    let mut k = s.len();
    proof {
        assert(sv.take(k as int) =~= sv);
    }
    while k > 0 && s[k - 1].0 > key
        invariant
            k <= s@.len(),
            sv == s@.map_values(|e: (usize, usize, Vec<char>)| pend_view(e)),
            ins_pos(sv.take(k as int), key as int) == ins_pos(sv, key as int),
        decreases k,
    {
        proof {
            assert(sv.take(k as int).drop_last() =~= sv.take(k - 1));
        }
        k = k - 1;
    }
    proof {
        if k > 0 {
            assert(sv.take(k as int).last().0 <= key);
        }
    }
    k
}

/// Sorting keeps every replacement within bounds.
pub proof fn lemma_sort_in_bounds(es: Seq<(int, int, Seq<char>)>, len: int)
    requires
        in_bounds(es, len),
    ensures
        in_bounds(sort_by_start(es), len),
        sort_by_start(es).len() == es.len(),
    decreases es.len(),
{
    if es.len() > 0 {
        lemma_sort_in_bounds(es.drop_last(), len);
        let s = sort_by_start(es.drop_last());
        lemma_ins_pos_bounds(s, es.last().0);
        let r = s.insert(ins_pos(s, es.last().0), es.last());
        assert forall|k: int| 0 <= k < r.len() implies 0 <= #[trigger] r[k].0 <= r[k].1 <= len by {
            let p = ins_pos(s, es.last().0);
            if k < p {
                assert(r[k] == s[k]);
            } else if k == p {
                assert(r[k] == es.last());
            } else {
                assert(r[k] == s[k - 1]);
            }
        }
    }
}

/// The insertion position lies within the list.
pub proof fn lemma_ins_pos_bounds(s: Seq<(int, int, Seq<char>)>, key: int)
    ensures
        0 <= ins_pos(s, key) <= s.len(),
    decreases s.len(),
{
    if s.len() > 0 {
        lemma_ins_pos_bounds(s.drop_last(), key);
    }
}

/// The replacements are in ascending order of start.
pub open spec fn starts_ascending(es: Seq<(int, int, Seq<char>)>) -> bool {
    forall|i: int, j: int| 0 <= i < j < es.len() ==> (#[trigger] es[i]).0 <= (#[trigger] es[j]).0
}

/// No two of the replacements' ranges share a position.
pub open spec fn ranges_disjoint(es: Seq<(int, int, Seq<char>)>) -> bool {
    forall|i: int, j: int|
        0 <= i < j < es.len() ==> (#[trigger] es[i]).1 <= (#[trigger] es[j]).0 || es[j].1 <= es[i].0
}

/// Every replacement replaces at least one character.
pub open spec fn ranges_nonempty(es: Seq<(int, int, Seq<char>)>) -> bool {
    forall|i: int| 0 <= i < es.len() ==> (#[trigger] es[i]).0 < es[i].1
}

/// In a list sorted by start, the insertion position of `key` has the starts
/// no greater than `key` before it and the greater ones from it on.
proof fn lemma_ins_pos_splits(s: Seq<(int, int, Seq<char>)>, key: int)
    requires
        starts_ascending(s),
    ensures
        0 <= ins_pos(s, key) <= s.len(),
        forall|k: int| 0 <= k < ins_pos(s, key) ==> (#[trigger] s[k]).0 <= key,
        forall|k: int| ins_pos(s, key) <= k < s.len() ==> (#[trigger] s[k]).0 > key,
    decreases s.len(),
{
    if s.len() > 0 {
        let d = s.drop_last();
        assert forall|i: int, j: int| 0 <= i < j < d.len() implies (#[trigger] d[i]).0 <= (
        #[trigger] d[j]).0 by {
            assert(d[i] == s[i] && d[j] == s[j]);
        }
        lemma_ins_pos_splits(d, key);
        if s.last().0 > key {
            assert forall|k: int| ins_pos(s, key) <= k < s.len() implies (#[trigger] s[k]).0 > key by {
                if k < s.len() - 1 {
                    assert(s[k] == d[k]);
                }
            }
            assert forall|k: int| 0 <= k < ins_pos(s, key) implies (#[trigger] s[k]).0 <= key by {
                assert(s[k] == d[k]);
            }
        } else {
            assert forall|k: int| 0 <= k < ins_pos(s, key) implies (#[trigger] s[k]).0 <= key by {
                if k < s.len() - 1 {
                    assert(s[k].0 <= s[s.len() - 1].0);
                }
            }
        }
    }
}

/// Sorting by start yields the same replacements, in ascending order of
/// start; each comes from the input, and ranges apart stay apart.
pub proof fn law_sort_by_start(es: Seq<(int, int, Seq<char>)>)
    ensures
        starts_ascending(sort_by_start(es)),
        sort_by_start(es).to_multiset() == es.to_multiset(),
        sort_by_start(es).len() == es.len(),
        forall|k: int|
            0 <= k < sort_by_start(es).len() ==> exists|j: int|
                0 <= j < es.len() && es[j] == #[trigger] sort_by_start(es)[k],
        ranges_disjoint(es) ==> ranges_disjoint(sort_by_start(es)),
    decreases es.len(),
{
    if es.len() > 0 {
        let d = es.drop_last();
        let x = es.last();
        law_sort_by_start(d);
        let s = sort_by_start(d);
        lemma_ins_pos_splits(s, x.0);
        let p = ins_pos(s, x.0);
        let r = s.insert(p, x);
        assert(r == sort_by_start(es));
        vstd::seq_lib::to_multiset_insert(s, p, x);
        vstd::seq_lib::to_multiset_build(d, x);
        assert(d.push(x) =~= es);
        assert forall|i: int, j: int| 0 <= i < j < r.len() implies (#[trigger] r[i]).0 <= (
        #[trigger] r[j]).0 by {
            if i < p && j < p {
                assert(r[i] == s[i] && r[j] == s[j]);
            } else if i < p && j == p {
                assert(r[i] == s[i]);
            } else if i < p {
                assert(r[i] == s[i] && r[j] == s[j - 1]);
            } else if i == p {
                assert(r[j] == s[j - 1]);
            } else {
                assert(r[i] == s[i - 1] && r[j] == s[j - 1]);
            }
        }
        assert forall|k: int| 0 <= k < r.len() implies exists|j: int|
            0 <= j < es.len() && es[j] == #[trigger] r[k] by {
            if k < p {
                assert(r[k] == s[k]);
                let j = choose|j: int| 0 <= j < d.len() && d[j] == s[k];
                assert(es[j] == d[j]);
            } else if k == p {
                assert(es[es.len() - 1] == r[k]);
            } else {
                assert(r[k] == s[k - 1]);
                let j = choose|j: int| 0 <= j < d.len() && d[j] == s[k - 1];
                assert(es[j] == d[j]);
            }
        }
        if ranges_disjoint(es) {
            assert(ranges_disjoint(d)) by {
                assert forall|i: int, j: int| 0 <= i < j < d.len() implies (#[trigger] d[i]).1 <= (
                #[trigger] d[j]).0 || d[j].1 <= d[i].0 by {
                    assert(d[i] == es[i] && d[j] == es[j]);
                }
            }
            assert forall|i: int, j: int| 0 <= i < j < r.len() implies (#[trigger] r[i]).1 <= (
            #[trigger] r[j]).0 || r[j].1 <= r[i].0 by {
                if i != p && j != p {
                    let i0 = if i < p { i } else { i - 1 };
                    let j0 = if j < p { j } else { j - 1 };
                    assert(r[i] == s[i0] && r[j] == s[j0]);
                } else if i == p {
                    assert(r[j] == s[j - 1]);
                    let m = choose|m: int| 0 <= m < d.len() && d[m] == s[j - 1];
                    assert(es[m] == d[m] && es[es.len() - 1] == x);
                } else {
                    assert(r[i] == s[i]);
                    let m = choose|m: int| 0 <= m < d.len() && d[m] == s[i];
                    assert(es[m] == d[m] && es[es.len() - 1] == x);
                }
            }
        }
    } else {
        assert(sort_by_start(es) =~= es);
    }
}

/// Replacements whose ranges are non-empty and pairwise apart never overlap
/// once sorted by start.
pub proof fn law_disjoint_ranges_no_overlap(es: Seq<(int, int, Seq<char>)>)
    requires
        ranges_nonempty(es),
        ranges_disjoint(es),
    ensures
        !has_overlap(sort_by_start(es)),
{
    law_sort_by_start(es);
    let s = sort_by_start(es);
    assert forall|k: int| 0 <= k < s.len() - 1 implies !(#[trigger] s[k].1 > s[k + 1].0) by {
        let j = choose|j: int| 0 <= j < es.len() && es[j] == s[k + 1];
        assert(es[j].0 < es[j].1);
        assert(s[k].0 <= s[k + 1].0);
    }
}

/// Edits whose found ranges are non-empty and pairwise apart are never refused
/// as overlapping: the edit succeeds once every `oldText` is found exactly once.
pub proof fn law_disjoint_edits_succeed(raw: Seq<char>, edits: Seq<(Seq<char>, Seq<char>)>)
    requires
        pending_of(crlf_normalized(bom_body(raw)), edits) matches Ok(p) && ranges_nonempty(p)
            && ranges_disjoint(p),
    ensures
        edit_outcome(raw, edits) is Ok,
{
    let p = pending_of(crlf_normalized(bom_body(raw)), edits)->Ok_0;
    law_disjoint_ranges_no_overlap(p);
}

/// The pending replacements of `edits` on `norm`, in request order.
fn pending_edits(norm: &Vec<char>, edits: &Vec<(String, String)>) -> (r: Result<
    Vec<(usize, usize, Vec<char>)>,
    String,
>)
    ensures
        r matches Ok(v) ==> pending_of(norm@, edits@.map_values(|e: (String, String)| pair_view(e)))
            == Ok::<Seq<(int, int, Seq<char>)>, Seq<char>>(
            v@.map_values(|e: (usize, usize, Vec<char>)| pend_view(e)),
        ) && in_bounds(v@.map_values(|e: (usize, usize, Vec<char>)| pend_view(e)), norm@.len() as int),
        r matches Err(m) ==> pending_of(norm@, edits@.map_values(|e: (String, String)| pair_view(e)))
            == Err::<Seq<(int, int, Seq<char>)>, Seq<char>>(m@),
{
    let ghost ev = edits@.map_values(|e: (String, String)| pair_view(e));
    let crlf = chars_of("\r\n");
    let lf = chars_of("\n");
    proof {
        reveal_strlit("\r\n");
    }
    let mut pending: Vec<(usize, usize, Vec<char>)> = Vec::new();
    let mut i: usize = 0;
    proof {
        assert(ev.take(0) =~= Seq::<(Seq<char>, Seq<char>)>::empty());
        assert(pending@.map_values(|e: (usize, usize, Vec<char>)| pend_view(e)) =~= Seq::<
            (int, int, Seq<char>),
        >::empty());
    }
    while i < edits.len()
        invariant
            i <= edits@.len(),
            ev == edits@.map_values(|e: (String, String)| pair_view(e)),
            crlf@ == "\r\n"@,
            lf@ == "\n"@,
            crlf@.len() > 0,
            pending_of(norm@, ev.take(i as int)) == Ok::<Seq<(int, int, Seq<char>)>, Seq<char>>(
                pending@.map_values(|e: (usize, usize, Vec<char>)| pend_view(e)),
            ),
            in_bounds(pending@.map_values(|e: (usize, usize, Vec<char>)| pend_view(e)), norm@.len() as int),
        decreases edits@.len() - i,
    {
        proof {
            assert(ev.take(i + 1).drop_last() =~= ev.take(i as int));
            assert(ev.take(i + 1).last() == pair_view(edits@[i as int]));
        }
        let oc = chars_of(edits[i].0.as_str());
        let nc = chars_of(edits[i].1.as_str());
        let on = replace_chars(oc.as_slice(), crlf.as_slice(), lf.as_slice());
        let nn = replace_chars(nc.as_slice(), crlf.as_slice(), lf.as_slice());
        let c = count_matches(norm.as_slice(), on.as_slice());
        if c != 1 {
            let mut msg: Vec<char> = Vec::new();
            push_str(&mut msg, "`oldText` must match exactly once, found ");
            push_decimal(&mut msg, c);
            push_str(&mut msg, " matches for snippet: ");
            let snippet = truncate_for_error(edits[i].0.as_str());
            let dbg = debug_text(snippet.as_str());
            push_str(&mut msg, dbg.as_str());
            proof {
                lemma_pending_err_stays(norm@, ev, i + 1);
            }
            return Err(string_of(msg.as_slice()));
        }
        proof {
            lemma_find_from(norm@, on@, 0);
            if on@.len() == 0 {
                assert(norm@.subrange(0, 0) =~= on@);
                assert(occurs_at(norm@, on@, 0));
            }
        }
        let st = match find_chars(norm.as_slice(), on.as_slice()) {
            Some(x) => x,
            None => {
                proof {
                    assert(false);
                }
                0
            },
        };
        let nl = norm.len();
        let ol = on.len();
        proof {
            assert(occurs_at(norm@, on@, st as int));
            assert(st + ol <= nl);
        }
        let ghost prev = pending@;
        pending.push((st, st + ol, nn));
        proof {
            assert(pending@.map_values(|e: (usize, usize, Vec<char>)| pend_view(e)) =~= prev.map_values(
                |e: (usize, usize, Vec<char>)| pend_view(e),
            ).push(pend_view(pending@.last())));
        }
        i = i + 1;
    }
    proof {
        assert(ev.take(i as int) =~= ev);
    }
    Ok(pending)
}

/// Stable insertion sort of pending replacements by start.
fn sort_pending(pending: Vec<(usize, usize, Vec<char>)>) -> (r: Vec<(usize, usize, Vec<char>)>)
    ensures
        r@.map_values(|e: (usize, usize, Vec<char>)| pend_view(e)) == sort_by_start(
            pending@.map_values(|e: (usize, usize, Vec<char>)| pend_view(e)),
        ),
{
    let ghost pv = pending@.map_values(|e: (usize, usize, Vec<char>)| pend_view(e));
    let mut sorted: Vec<(usize, usize, Vec<char>)> = Vec::new();
    let mut rest = pending;
    let mut taken: Vec<(usize, usize, Vec<char>)> = Vec::new();
    while rest.len() > 0
        invariant
            rest@.len() + taken@.len() == pv.len(),
            forall|j: int| 0 <= j < rest@.len() ==> pend_view(#[trigger] rest@[j]) == pv[j],
            forall|j: int|
                0 <= j < taken@.len() ==> pend_view(#[trigger] taken@[j]) == pv[pv.len() - 1 - j],
        decreases rest@.len(),
    {
        let x = rest.pop().unwrap();
        taken.push(x);
    }
    let n = taken.len();
    let mut k: usize = 0;
    proof {
        assert(pv.take(0) =~= Seq::<(int, int, Seq<char>)>::empty());
        assert(sorted@.map_values(|e: (usize, usize, Vec<char>)| pend_view(e)) =~= Seq::<
            (int, int, Seq<char>),
        >::empty());
    }
    while k < n
        invariant
            n == pv.len(),
            taken@.len() == n - k,
            k <= n,
            forall|j: int|
                0 <= j < taken@.len() ==> pend_view(#[trigger] taken@[j]) == pv[pv.len() - 1 - j],
            sorted@.map_values(|e: (usize, usize, Vec<char>)| pend_view(e)) == sort_by_start(
                pv.take(k as int),
            ),
        decreases n - k,
    {
        let x = taken.pop().unwrap();
        proof {
            assert(pend_view(x) == pv[k as int]);
            assert(pv.take(k + 1).drop_last() =~= pv.take(k as int));
            assert(pv.take(k + 1).last() == pv[k as int]);
        }
        let pos = ins_pos_exec(&sorted, x.0);
        let ghost before = sorted@;
        sorted.insert(pos, x);
        proof {
            assert(sorted@.map_values(|e: (usize, usize, Vec<char>)| pend_view(e)) =~= before.map_values(
                |e: (usize, usize, Vec<char>)| pend_view(e),
            ).insert(pos as int, pend_view(x)));
        }
        k = k + 1;
    }
    proof {
        assert(pv.take(n as int) =~= pv);
    }
    sorted
}

/// Whether two consecutive replacements overlap.
fn find_overlap(sorted: &Vec<(usize, usize, Vec<char>)>) -> (b: bool)
    ensures
        b == has_overlap(sorted@.map_values(|e: (usize, usize, Vec<char>)| pend_view(e))),
{
    let ghost sv = sorted@.map_values(|e: (usize, usize, Vec<char>)| pend_view(e));
    let mut w: usize = 0;
    while w < sorted.len() && w + 1 < sorted.len()
        invariant
            sv == sorted@.map_values(|e: (usize, usize, Vec<char>)| pend_view(e)),
            forall|j: int| 0 <= j < w && j + 1 < sv.len() ==> !(#[trigger] sv[j].1 > sv[j + 1].0),
        decreases sorted@.len() - w,
    {
        if sorted[w].1 > sorted[w + 1].0 {
            proof {
                assert(sv[w as int].1 > sv[w + 1].0);
            }
            return true;
        }
        w = w + 1;
    }
    false
}

/// Makes the sorted, non-overlapping replacements in `norm`.
fn splice_exec(norm: &Vec<char>, sorted: &Vec<(usize, usize, Vec<char>)>) -> (r: Vec<char>)
    requires
        in_bounds(sorted@.map_values(|e: (usize, usize, Vec<char>)| pend_view(e)), norm@.len() as int),
        !has_overlap(sorted@.map_values(|e: (usize, usize, Vec<char>)| pend_view(e))),
    ensures
        r@ == splice(norm@, sorted@.map_values(|e: (usize, usize, Vec<char>)| pend_view(e))),
{
    let ghost sv = sorted@.map_values(|e: (usize, usize, Vec<char>)| pend_view(e));
    let mut out: Vec<char> = Vec::new();
    let mut cursor: usize = 0;
    let mut m: usize = 0;
    proof {
        assert(sv.take(0) =~= Seq::<(int, int, Seq<char>)>::empty());
    }
    while m < sorted.len()
        invariant
            m <= sorted@.len(),
            sv == sorted@.map_values(|e: (usize, usize, Vec<char>)| pend_view(e)),
            in_bounds(sv, norm@.len() as int),
            !has_overlap(sv),
            cursor == cursor_after(sv.take(m as int)),
            cursor <= norm@.len(),
            m > 0 ==> cursor == sv[m - 1].1,
            out@ == spliced(norm@, sv.take(m as int)),
        decreases sorted@.len() - m,
    {
        proof {
            assert(sv.take(m + 1).drop_last() =~= sv.take(m as int));
            assert(sv.take(m + 1).last() == sv[m as int]);
            if m > 0 {
                assert(!(sv[m - 1].1 > sv[(m - 1) + 1].0));
            }
            assert(0 <= sv[m as int].0 <= sv[m as int].1 <= norm@.len());
        }
        let e = &sorted[m];
        push_range(&mut out, norm.as_slice(), cursor, e.0);
        push_all(&mut out, e.2.as_slice());
        cursor = e.1;
        m = m + 1;
    }
    proof {
        assert(sv.take(m as int) =~= sv);
    }
    push_range(&mut out, norm.as_slice(), cursor, norm.len());
    out
}

/// Plans the edits on a file's content: strips a byte-order mark, normalizes
/// `\r\n` to `\n`, finds each `oldText` exactly once, rejects overlapping ranges,
/// makes the replacements and restores the original line endings.
pub fn plan_edits(raw: &str, edits: &Vec<(String, String)>) -> (r: Result<EditPlan, String>)
    ensures
        r matches Ok(p) ==> edit_outcome(raw@, edits@.map_values(|e: (String, String)| pair_view(e)))
            == Ok::<(Seq<char>, Seq<char>, Seq<char>, nat, nat), Seq<char>>(
            (p.content@, p.normalized@, p.rebuilt@, p.first_changed_line as nat, p.blocks as nat),
        ),
        r matches Err(m) ==> edit_outcome(raw@, edits@.map_values(|e: (String, String)| pair_view(e)))
            == Err::<(Seq<char>, Seq<char>, Seq<char>, nat, nat), Seq<char>>(m@),
{
    let rc = chars_of(raw);
    let bom = rc.len() > 0 && rc[0] == '\u{feff}';
    let body = if bom {
        slice_range(rc.as_slice(), 1, rc.len())
    } else {
        slice_range(rc.as_slice(), 0, rc.len())
    };
    proof {
        assert(body@ =~= bom_body(raw@));
    }
    let crlf = chars_of("\r\n");
    let lf = chars_of("\n");
    proof {
        reveal_strlit("\r\n");
    }
    let ending = if contains_chars(body.as_slice(), crlf.as_slice()) {
        "\r\n"
    } else {
        "\n"
    };
    let norm = replace_chars(body.as_slice(), crlf.as_slice(), lf.as_slice());
    let pending = match pending_edits(&norm, edits) {
        Ok(v) => v,
        Err(m) => {
            return Err(m);
        },
    };
    let ghost pv = pending@.map_values(|e: (usize, usize, Vec<char>)| pend_view(e));
    let sorted = sort_pending(pending);
    proof {
        lemma_sort_in_bounds(pv, norm@.len() as int);
    }
    if find_overlap(&sorted) {
        return Err("edit ranges overlap, which is not allowed".to_owned());
    }
    let out = splice_exec(&norm, &sorted);
    let rebuilt = string_of(out.as_slice());
    let restored = restore_line_endings(rebuilt.as_str(), ending);
    let mut content: Vec<char> = Vec::new();
    if bom {
        content.push('\u{feff}');
    }
    push_str(&mut content, restored.as_str());
    let first_line: usize = if sorted.len() == 0 {
        1
    } else {
        proof {
            assert(0 <= sort_by_start(pv)[0].0 <= norm@.len());
        }
        line_at_char(norm.as_slice(), sorted[0].0)
    };
    proof {
        if bom {
            assert(content@ =~= seq!['\u{feff}'] + restored@);
        } else {
            assert(content@ =~= Seq::<char>::empty() + restored@);
        }
    }
    Ok(EditPlan {
        content: string_of(content.as_slice()),
        normalized: string_of(norm.as_slice()),
        rebuilt,
        first_changed_line: first_line,
        blocks: sorted.len(),
    })
}

/// Once the edits up to `i` fail, the whole list fails the same way.
pub proof fn lemma_pending_err_stays(norm: Seq<char>, edits: Seq<(Seq<char>, Seq<char>)>, i: int)
    requires
        0 <= i <= edits.len(),
        pending_of(norm, edits.take(i)) is Err,
    ensures
        pending_of(norm, edits) == pending_of(norm, edits.take(i)),
    decreases edits.len() - i,
{
    if i == edits.len() {
        assert(edits.take(i) =~= edits);
    } else {
        assert(edits.take(i + 1).drop_last() =~= edits.take(i));
        lemma_pending_err_stays(norm, edits, i + 1);
    }
}

/// 1-based line number of character position `c` of `text`.
pub fn line_at_char(text: &[char], c: usize) -> (r: usize)
    requires
        c <= text@.len(),
    ensures
        r == line_at(text@, c as int),
{
    let pre = slice_range(text, 0, c);
    let pieces = split_chars(pre.as_slice(), '\n');
    proof {
        assert(pre@ =~= text@.take(c as int));
        lemma_split_on_count(pre@, '\n');
    }
    pieces.len()
}


/// The unified diff (`similar`'s line diff, headers `a/file` and `b/file`,
/// three lines of context) from `old` to `new`.
pub uninterp spec fn unified_diff_of(old: Seq<char>, new: Seq<char>) -> Seq<char>;

/// `TextDiff::from_lines(old, new).unified_diff().header("a/file", "b/file").to_string()`.
#[verifier::external_body]
pub(crate) fn unified_diff(old: &str, new: &str) -> (r: String)
    ensures
        r@ == unified_diff_of(old@, new@),
{
    similar::TextDiff::from_lines(old, new).unified_diff().header("a/file", "b/file").to_string()
}

/// The report of a successful edit: a JSON object with the message, the diff of
/// the normalized content and the first changed line.
pub open spec fn edit_report_tree(
    norm: Seq<char>,
    rebuilt: Seq<char>,
    first: nat,
    blocks: nat,
    path: Seq<char>,
) -> JsonTree {
    JsonTree::Obj(
        Map::empty().insert(
            "message"@,
            JsonTree::Str("Successfully replaced "@ + decimal(blocks) + " block(s) in "@ + path + "."@),
        ).insert("diff"@, JsonTree::Str(unified_diff_of(norm, rebuilt))).insert(
            "firstChangedLine"@,
            JsonTree::Num(JsonNum::PosInt(first)),
        ),
    )
}

/// The text the edit tool returns for a planned edit on `path`.
pub fn edit_report(plan: &EditPlan, path: &str) -> (r: String)
    ensures
        r@ == json_text(
            edit_report_tree(
                plan.normalized@,
                plan.rebuilt@,
                plan.first_changed_line as nat,
                plan.blocks as nat,
                path@,
            ),
        ),
{
    let mut msg: Vec<char> = Vec::new();
    push_str(&mut msg, "Successfully replaced ");
    push_decimal(&mut msg, plan.blocks as u128);
    push_str(&mut msg, " block(s) in ");
    push_str(&mut msg, path);
    push_str(&mut msg, ".");
    let message = string_of(msg.as_slice());
    let diff = unified_diff(plan.normalized.as_str(), plan.rebuilt.as_str());
    let mut entries: Vec<(String, serde_json::Value)> = Vec::new();
    entries.push(("message".to_owned(), json_string(message.as_str())));
    entries.push(("diff".to_owned(), json_string(diff.as_str())));
    entries.push(("firstChangedLine".to_owned(), json_u64(plan.first_changed_line as u64)));
    let ghost ev = entries@.map_values(|e: (String, serde_json::Value)| (e.0@, json_tree(e.1)));
    proof {
        reveal_with_fuel(map_of, 4);
        assert(ev.drop_last().drop_last().drop_last() =~= Seq::<(Seq<char>, JsonTree)>::empty());
        assert(ev.drop_last().drop_last().last() == ev[0]);
        assert(ev.drop_last().last() == ev[1]);
        assert(map_of(ev) =~= Map::empty().insert(ev[0].0, ev[0].1).insert(ev[1].0, ev[1].1).insert(
            ev[2].0,
            ev[2].1,
        ));
        reveal_strlit("message");
        reveal_strlit("diff");
        reveal_strlit("firstChangedLine");
        assert(ev[0].0 == "message"@ && ev[1].0 == "diff"@ && ev[2].0 == "firstChangedLine"@);
        assert(ev =~= entries_view(entries@));
        lemma_few_keys_distinct(ev);
    }
    let v = json_object(entries);
    json_to_text(&v)
}

/// Every `\n` of the text ends a `\r\n`.
pub open spec fn crlf_only(s: Seq<char>) -> bool {
    forall|i: int| 0 <= i < s.len() && #[trigger] s[i] == '\n' ==> i > 0 && s[i - 1] == '\r'
}

/// A text whose `\n`s all end `\r\n`s comes back unchanged from being
/// normalized to `\n` and having `\r\n` restored.
proof fn lemma_crlf_round_trip(s: Seq<char>)
    requires
        crlf_only(s),
    ensures
        replace_all(replace_all(s, "\r\n"@, "\n"@), "\n"@, "\r\n"@) == s,
    decreases s.len(),
{
    reveal_strlit("\r\n");
    reveal_strlit("\n");
    let crlf = "\r\n"@;
    let nl = "\n"@;
    if s.len() < 2 {
        if s.len() == 1 {
            assert(s[0] != '\n');
            assert(s.take(1) != nl) by {
                assert(s.take(1)[0] == s[0]);
            }
            assert(s.skip(1) =~= Seq::<char>::empty());
            assert(seq![s[0]] + Seq::<char>::empty() =~= s);
            assert(replace_all(s, crlf, nl) == s);
            assert(replace_all(s, nl, crlf) == seq![s[0]] + replace_all(s.skip(1), nl, crlf));
        }
    } else if s.take(2) == crlf {
        let rest = s.skip(2);
        assert forall|i: int| 0 <= i < rest.len() && #[trigger] rest[i] == '\n' implies i > 0 && rest[i - 1] == '\r' by {
            assert(s[i + 2] == '\n');
            if i == 0 {
                assert(s.take(2)[1] == s[1]);
                assert(s[1] == '\n');
                assert(s[1] == '\r');
            }
        }
        lemma_crlf_round_trip(rest);
        let x = replace_all(rest, crlf, nl);
        assert(replace_all(s, crlf, nl) == nl + x);
        assert((nl + x).take(1) =~= nl);
        assert((nl + x).skip(1) =~= x);
        assert(replace_all(nl + x, nl, crlf) == crlf + replace_all(x, nl, crlf));
        assert(crlf + rest =~= s);
    } else {
        let rest = s.skip(1);
        assert(s[0] != '\n');
        assert forall|i: int| 0 <= i < rest.len() && #[trigger] rest[i] == '\n' implies i > 0 && rest[i - 1] == '\r' by {
            assert(s[i + 1] == '\n');
            if i == 0 {
                assert(s[0] == '\r');
                assert(s.take(2) =~= crlf);
            }
        }
        lemma_crlf_round_trip(rest);
        let x = replace_all(rest, crlf, nl);
        assert(replace_all(s, crlf, nl) == seq![s[0]] + x);
        let y = seq![s[0]] + x;
        assert(y.take(1) != nl) by {
            assert(y.take(1)[0] == s[0]);
        }
        assert(y.skip(1) =~= x);
        assert(replace_all(y, nl, crlf) == seq![s[0]] + replace_all(x, nl, crlf));
        assert(seq![s[0]] + rest =~= s);
    }
}

/// A text without `\r\n` is its own normal form.
proof fn lemma_no_crlf_normalized(s: Seq<char>)
    requires
        !contains(s, "\r\n"@),
    ensures
        crlf_normalized(s) == s,
    decreases s.len(),
{
    reveal_strlit("\r\n");
    if s.len() >= 2 {
        if s.take(2) == "\r\n"@ {
            assert(occurs_at(s, "\r\n"@, 0));
        }
        let rest = s.skip(1);
        assert forall|j: int| !occurs_at(rest, "\r\n"@, j) by {
            if occurs_at(rest, "\r\n"@, j) {
                assert(s.subrange(j + 1, j + 3) =~= rest.subrange(j, j + 2));
                assert(occurs_at(s, "\r\n"@, j + 1));
            }
        }
        lemma_no_crlf_normalized(rest);
        assert(seq![s[0]] + rest =~= s);
    }
}

/// The edit tool writes back the text it read when no edit changes it: a text
/// that uses `\n` alone, or `\r\n` for every line end, comes back unchanged
/// from being normalized to `\n` and having its detected line ending restored.
pub proof fn law_line_endings_round_trip(s: Seq<char>)
    requires
        crlf_only(s) || !contains(s, "\r\n"@),
    ensures
        with_line_endings(crlf_normalized(s), line_ending_of(s)) == s,
{
    reveal_strlit("\r\n");
    reveal_strlit("\n");
    if contains(s, "\r\n"@) {
        lemma_crlf_round_trip(s);
        assert("\r\n"@ != "\n"@);
    } else {
        lemma_no_crlf_normalized(s);
    }
}

} // verus!
