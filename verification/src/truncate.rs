//! Truncation of tool output: the head of a file being read, the tail of a
//! command's output, bounded by a number of lines and a number of bytes.
use vstd::prelude::*;
use crate::text::{
    chars_of, join, lemma_join_push, lemma_join_split, lemma_join_prefix, lemma_join_suffix,
    lemma_split_on_len, lemma_utf8_len_bounds, lemma_utf8_len_concat,
    lemma_prefix_bytes_strict, push_all, split_chars, split_on, string_of, utf8_len, utf8_len_of, char_width, char_len,
};

verus! {

/// Which limit cut the output short.
#[derive(Debug, Clone, Copy, PartialEq, Eq, Structural)]
pub enum TruncatedBy {
    Lines,
    Bytes,
}

/// What a truncation kept and how it relates to the input.
#[derive(Debug)]
pub struct TruncationResult {
    pub content: String,
    pub truncated: bool,
    pub truncated_by: Option<TruncatedBy>,
    pub total_lines: usize,
    pub output_lines: usize,
    pub output_bytes: usize,
    pub first_line_exceeds_limit: bool,
    pub last_line_partial: bool,
}

/// Lines joined with `\n`.
pub open spec fn joined(ls: Seq<Seq<char>>) -> Seq<char> {
    join(ls, seq!['\n'])
}

/// The lines of a text for truncation: the pieces between `\n`s.
pub open spec fn text_lines(text: Seq<char>) -> Seq<Seq<char>> {
    split_on(text, '\n')
}

/// Byte length of the first `k` lines joined.
pub open spec fn head_bytes(ls: Seq<Seq<char>>, k: int) -> nat {
    utf8_len(joined(ls.take(k)))
}

/// The result of `truncate_head(text, max_lines, max_bytes)`.
pub open spec fn head_spec(
    text: Seq<char>,
    max_lines: nat,
    max_bytes: nat,
    r: TruncationResult,
) -> bool {
    let ls = text_lines(text);
    let k = r.output_lines as int;
    &&& r.total_lines == ls.len()
    &&& !r.last_line_partial
    &&& if utf8_len(ls[0]) > max_bytes {
        &&& r.content@ == Seq::<char>::empty()
        &&& r.truncated
        &&& r.truncated_by == Some(TruncatedBy::Bytes)
        &&& r.output_lines == 0
        &&& r.output_bytes == 0
        &&& r.first_line_exceeds_limit
    } else {
        &&& !r.first_line_exceeds_limit
        &&& k <= ls.len()
        &&& k <= max_lines
        &&& r.content@ == joined(ls.take(k))
        &&& r.output_bytes == utf8_len(r.content@)
        &&& r.output_bytes <= max_bytes
        &&& (k == ls.len() || k == max_lines || head_bytes(ls, k + 1) > max_bytes)
        &&& r.truncated == (k < ls.len())
        &&& r.truncated_by == if k == ls.len() {
            None
        } else if k == max_lines {
            Some(TruncatedBy::Lines)
        } else {
            Some(TruncatedBy::Bytes)
        }
    }
}

proof fn lemma_head_bytes_step(ls: Seq<Seq<char>>, k: int)
    requires
        0 <= k < ls.len(),
    ensures
        head_bytes(ls, k + 1) == if k == 0 {
            utf8_len(ls[0])
        } else {
            head_bytes(ls, k) + 1 + utf8_len(ls[k])
        },
        joined(ls.take(k + 1)) == if k == 0 {
            ls[0]
        } else {
            joined(ls.take(k)) + seq!['\n'] + ls[k]
        },
{
    assert(ls.take(k + 1) =~= ls.take(k).push(ls[k]));
    lemma_join_push(ls.take(k), ls[k], seq!['\n']);
    if k > 0 {
        lemma_utf8_len_concat(joined(ls.take(k)) + seq!['\n'], ls[k]);
        lemma_utf8_len_concat(joined(ls.take(k)), seq!['\n']);
        lemma_newline_len();
    }
}

/// A newline takes one byte.
pub proof fn lemma_newline_len()
    ensures
        utf8_len(seq!['\n']) == 1,
{
    let s = seq!['\n'];
    reveal_with_fuel(utf8_len, 2);
    assert(s.drop_last() =~= Seq::<char>::empty());
    assert(utf8_len(Seq::<char>::empty()) == 0);
    assert(s.last() == '\n');
    assert(('\n' as u32) == 10u32);
}

/// Keeps the first lines of `text` that fit within `max_lines` lines and
/// `max_bytes` bytes; a first line longer than `max_bytes` yields nothing.
pub fn truncate_head(text: &str, max_lines: usize, max_bytes: usize) -> (r: TruncationResult)
    ensures
        head_spec(text@, max_lines as nat, max_bytes as nat, r),
{
    let cs = chars_of(text);
    let ls = split_chars(cs.as_slice(), '\n');
    let ghost lv = text_lines(text@);
    proof {
        lemma_split_on_len(text@, '\n');
    }
    let total = ls.len();
    let first = utf8_len_of(ls[0].as_slice());
    if first > max_bytes as u128 {
        return TruncationResult {
            content: String::new(),
            truncated: true,
            truncated_by: Some(TruncatedBy::Bytes),
            total_lines: total,
            output_lines: 0,
            output_bytes: 0,
            first_line_exceeds_limit: true,
            last_line_partial: false,
        };
    }
    let mut out: Vec<char> = Vec::new();
    let mut out_bytes: u128 = 0;
    let mut k: usize = 0;
    let mut by: Option<TruncatedBy> = None;
    let mut stopped = false;
    proof {
        assert(lv.take(0) =~= Seq::<Seq<char>>::empty());
        assert forall|j: int| 0 <= j < total implies #[trigger] ls@[j]@ == lv[j] by {}
    }
    while k < total && !stopped
        invariant
            total == lv.len(),
            total == ls@.len(),
            total >= 1,
            utf8_len(lv[0]) <= max_bytes,
            forall|j: int| 0 <= j < total ==> #[trigger] ls@[j]@ == lv[j],
            k <= total,
            k <= max_lines,
            out@ == joined(lv.take(k as int)),
            out_bytes == utf8_len(out@),
            out_bytes <= max_bytes,
            !stopped ==> by is None,
            stopped ==> k < total && (k == max_lines || head_bytes(lv, k + 1) > max_bytes),
            stopped ==> by == if k == max_lines {
                Some(TruncatedBy::Lines)
            } else {
                Some(TruncatedBy::Bytes)
            },
        decreases total - k + if stopped {
            0int
        } else {
            1int
        },
    {
        if k >= max_lines {
            by = Some(TruncatedBy::Lines);
            stopped = true;
        } else {
            let lb = utf8_len_of(ls[k].as_slice());
            let ll = ls[k].len();
            proof {
                lemma_head_bytes_step(lv, k as int);
                lemma_utf8_len_bounds(ls@[k as int]@);
                assert(lb <= 4 * ll);
            }
            if k > 0 && out_bytes + 1 + lb > max_bytes as u128 {
                by = Some(TruncatedBy::Bytes);
                stopped = true;
            } else {
                if k > 0 {
                    out.push('\n');
                }
                push_all(&mut out, ls[k].as_slice());
                out_bytes = if k > 0 {
                    out_bytes + 1 + lb
                } else {
                    lb
                };
                proof {
                    if k > 0 {
                        assert(out@ =~= joined(lv.take(k as int)) + seq!['\n'] + lv[k as int]);
                    } else {
                        assert(out@ =~= lv[0]);
                    }
                }
                k = k + 1;
            }
        }
    }
    let content = string_of(out.as_slice());
    let ob = out_bytes as usize;
    TruncationResult {
        content,
        truncated: k < total,
        truncated_by: by,
        total_lines: total,
        output_lines: k,
        output_bytes: ob,
        first_line_exceeds_limit: false,
        last_line_partial: false,
    }
}


/// First line kept by `truncate_tail`: the last `max_lines` lines are kept.
pub open spec fn tail_start(text: Seq<char>, max_lines: nat) -> int {
    let n = text_lines(text).len();
    if n > max_lines {
        n - max_lines
    } else {
        0
    }
}

/// The last `max_lines` lines of `text`, joined.
pub open spec fn tail_selected(text: Seq<char>, max_lines: nat) -> Seq<char> {
    joined(text_lines(text).skip(tail_start(text, max_lines)))
}

/// `c` is where cutting the first `b` bytes off `s` lands, moved forward to the
/// next character boundary when it falls inside a character: the first
/// position whose prefix holds at least `b` bytes.
pub open spec fn cut_point(s: Seq<char>, c: int, b: nat) -> bool {
    &&& 0 <= c <= s.len()
    &&& utf8_len(s.take(c)) >= b
    &&& (c == 0 || utf8_len(s.take(c - 1)) < b)
}

/// The result of `truncate_tail(text, max_lines, max_bytes)`.
pub open spec fn tail_spec(
    text: Seq<char>,
    max_lines: nat,
    max_bytes: nat,
    r: TruncationResult,
) -> bool {
    let ls = text_lines(text);
    let sel = tail_selected(text, max_lines);
    let out = r.content@;
    &&& r.total_lines == ls.len()
    &&& !r.first_line_exceeds_limit
    &&& if utf8_len(sel) > max_bytes {
        &&& exists|c: int|
            #[trigger] cut_point(sel, c, (utf8_len(sel) - max_bytes) as nat) && out == sel.skip(c)
        &&& r.truncated_by == Some(TruncatedBy::Bytes)
        &&& r.last_line_partial == !(out.len() > 0 && out[0] == '\n')
    } else {
        &&& out == sel
        &&& r.truncated_by == if tail_start(text, max_lines) > 0 {
            Some(TruncatedBy::Lines)
        } else {
            None
        }
        &&& !r.last_line_partial
    }
    &&& r.output_lines == if out.len() == 0 {
        0
    } else {
        split_on(out, '\n').len()
    }
    &&& r.output_bytes == utf8_len(out)
    &&& r.truncated == (utf8_len(out) < utf8_len(text))
}

/// Joins `ls[from..to]` with newlines.
pub fn join_range(ls: &Vec<Vec<char>>, from: usize, to: usize) -> (r: Vec<char>)
    requires
        from <= to <= ls@.len(),
    ensures
        r@ == joined(ls@.map_values(|l: Vec<char>| l@).subrange(from as int, to as int)),
{
    let ghost lv = ls@.map_values(|l: Vec<char>| l@).subrange(from as int, to as int);
    let mut out: Vec<char> = Vec::new();
    let mut i: usize = from;
    proof {
        assert(lv.take(0) =~= Seq::<Seq<char>>::empty());
    }
    while i < to
        invariant
            from <= i <= to,
            to <= ls@.len(),
            lv == ls@.map_values(|l: Vec<char>| l@).subrange(from as int, to as int),
            out@ == joined(lv.take(i - from)),
        decreases to - i,
    {
        proof {
            assert(lv.take(i - from + 1) =~= lv.take(i - from).push(ls@[i as int]@));
            lemma_join_push(lv.take(i - from), ls@[i as int]@, seq!['\n']);
        }
        if i > from {
            out.push('\n');
        }
        push_all(&mut out, ls[i].as_slice());
        i = i + 1;
    }
    proof {
        assert(lv.take(i - from) =~= lv);
    }
    out
}

/// Joins `ls[from..]` with newlines.
fn join_from(ls: &Vec<Vec<char>>, from: usize) -> (r: Vec<char>)
    requires
        from <= ls@.len(),
    ensures
        r@ == joined(ls@.map_values(|l: Vec<char>| l@).skip(from as int)),
{
    let r = join_range(ls, from, ls.len());
    proof {
        assert(ls@.map_values(|l: Vec<char>| l@).subrange(from as int, ls@.len() as int)
            =~= ls@.map_values(|l: Vec<char>| l@).skip(from as int));
    }
    r
}

/// The kept lines of a tail truncation and, when they are too long, the
/// character position from which at most `max_bytes` bytes remain.
fn tail_parts(cs: &Vec<char>, max_lines: usize, max_bytes: usize) -> (r: (
    Vec<char>,
    usize,
    u128,
    Option<usize>,
))
    ensures
        r.0@ == tail_selected(cs@, max_lines as nat),
        r.1 == text_lines(cs@).len(),
        r.2 == utf8_len(r.0@),
        r.2 > max_bytes ==> (r.3 matches Some(c) && cut_point(r.0@, c as int, (r.2 - max_bytes) as nat)),
{
    let ls = split_chars(cs.as_slice(), '\n');
    let total = ls.len();
    let st: usize = if total > max_lines {
        total - max_lines
    } else {
        0
    };
    proof {
        assert(ls@.map_values(|l: Vec<char>| l@) =~= text_lines(cs@));
    }
    let sel = join_from(&ls, st);
    let n = utf8_len_of(sel.as_slice());
    if n <= max_bytes as u128 {
        return (sel, total, n, None);
    }
    let start: u128 = n - max_bytes as u128;
    let mut acc: u128 = 0;
    let mut c: usize = 0;
    proof {
        assert(sel@.take(0) =~= Seq::<char>::empty());
    }
    while acc < start && c < sel.len()
        invariant
            c <= sel@.len(),
            acc == utf8_len(sel@.take(c as int)),
            acc <= 4 * c,
            c > 0 ==> utf8_len(sel@.take(c - 1)) < start,
        decreases sel@.len() - c,
    {
        proof {
            assert(sel@.take(c + 1).drop_last() =~= sel@.take(c as int));
        }
        acc = acc + char_width(sel[c]);
        c = c + 1;
    }
    proof {
        if c == sel@.len() {
            assert(sel@.take(c as int) =~= sel@);
        }
        assert(acc >= start);
        assert(cut_point(sel@, c as int, start as nat));
    }
    (sel, total, n, Some(c))
}

/// Keeps the last `max_lines` lines of `text`, then at most its last `max_bytes`
/// bytes; a cut that would fall inside a character moves to the next character
/// boundary, keeping fewer bytes.
pub fn truncate_tail(text: &str, max_lines: usize, max_bytes: usize) -> (r: TruncationResult)
    ensures
        tail_spec(text@, max_lines as nat, max_bytes as nat, r),
{
    let cs = chars_of(text);
    let (sel, total, n, cut) = tail_parts(&cs, max_lines, max_bytes);
    let st: usize = if total > max_lines {
        total - max_lines
    } else {
        0
    };
    let mut by: Option<TruncatedBy> = if st > 0 {
        Some(TruncatedBy::Lines)
    } else {
        None
    };
    let mut partial = false;
    let mut out = sel;
    let mut out_bytes = n;
    if n > max_bytes as u128 {
        let c = match cut {
            Some(c) => c,
            None => {
                proof {
                    assert(false);
                }
                0
            },
        };
        out = slice_tail(&out, c);
        out_bytes = utf8_len_of(out.as_slice());
        proof {
            let ghost s0 = tail_selected(text@, max_lines as nat);
            assert(s0 =~= s0.take(c as int) + s0.skip(c as int));
            lemma_utf8_len_concat(s0.take(c as int), s0.skip(c as int));
            assert(cut_point(s0, c as int, (n - max_bytes) as nat));
        }
        by = Some(TruncatedBy::Bytes);
        partial = !(out.len() > 0 && out[0] == '\n');
    }
    let lines_out: usize = if out.len() == 0 {
        0
    } else {
        let pieces = split_chars(out.as_slice(), '\n');
        pieces.len()
    };
    let all = utf8_len_of(cs.as_slice());
    let truncated = out_bytes < all;
    let content = string_of(out.as_slice());
    TruncationResult {
        content,
        truncated,
        truncated_by: by,
        total_lines: total,
        output_lines: lines_out,
        output_bytes: out_bytes as usize,
        first_line_exceeds_limit: false,
        last_line_partial: partial,
    }
}

/// Copies `s[from..]`.
fn slice_tail(s: &Vec<char>, from: usize) -> (r: Vec<char>)
    requires
        from <= s@.len(),
    ensures
        r@ == s@.skip(from as int),
{
    let mut r: Vec<char> = Vec::new();
    let mut i = from;
    while i < s.len()
        invariant
            from <= i <= s@.len(),
            r@ == s@.subrange(from as int, i as int),
        decreases s@.len() - i,
    {
        r.push(s[i]);
        i = i + 1;
    }
    r
}

/// A head truncation keeps the beginning of the text, within both limits;
/// when nothing was cut, it keeps the whole text.
pub proof fn law_head_is_prefix(text: Seq<char>, max_lines: nat, max_bytes: nat, r: TruncationResult)
    requires
        head_spec(text, max_lines, max_bytes, r),
    ensures
        r.content@.is_prefix_of(text),
        r.output_lines <= max_lines,
        r.output_bytes <= max_bytes,
        !r.truncated ==> r.content@ == text,
{
    let ls = text_lines(text);
    lemma_split_on_len(text, '\n');
    lemma_join_split(text, '\n');
    if utf8_len(ls[0]) > max_bytes {
        assert(r.content@ =~= text.subrange(0, 0));
    } else {
        let k = r.output_lines as int;
        lemma_join_prefix(ls, seq!['\n'], k);
        if k == ls.len() {
            assert(ls.take(k) =~= ls);
        }
    }
}

/// A tail truncation keeps the end of the text, within the byte limit; when
/// nothing was cut, it keeps the whole text.
pub proof fn law_tail_is_suffix(text: Seq<char>, max_lines: nat, max_bytes: nat, r: TruncationResult)
    requires
        tail_spec(text, max_lines, max_bytes, r),
    ensures
        r.content@.is_suffix_of(text),
        r.output_bytes <= max_bytes,
        !r.truncated ==> r.content@ == text,
{
    let ls = text_lines(text);
    let sel = tail_selected(text, max_lines);
    let out = r.content@;
    lemma_split_on_len(text, '\n');
    lemma_join_split(text, '\n');
    lemma_join_suffix(ls, seq!['\n'], tail_start(text, max_lines));
    assert(sel.is_suffix_of(text));
    if utf8_len(sel) > max_bytes {
        let c = choose|c: int|
            #[trigger] cut_point(sel, c, (utf8_len(sel) - max_bytes) as nat) && out == sel.skip(c);
        assert(sel =~= sel.take(c) + sel.skip(c));
        lemma_utf8_len_concat(sel.take(c), sel.skip(c));
        assert(out =~= text.subrange(text.len() - out.len(), text.len() as int));
    }
    if !r.truncated {
        let pre = text.take(text.len() - out.len());
        assert(text =~= pre + out);
        lemma_utf8_len_concat(pre, out);
        lemma_utf8_len_bounds(pre);
        assert(pre.len() == 0);
        assert(out =~= text);
    }
}

} // verus!
