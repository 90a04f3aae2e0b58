//! Limits and sanitisers: Markdown escaping, bounded descriptions, stripping
//! HTML from model output, and the checks on files read and written.
use vstd::prelude::*;
use crate::text::{
    byte_len, char_width, chars_of, contains, contains_exec, find_char, lemma_byte_len_add,
    lemma_byte_len_ellipsis, lemma_byte_len_single, lemma_find_char, push_char, byte_len_exceeds,
    push_str, starts_with, starts_with_exec, string_of, utf8_width,
};
use vstd::utf8::encode_utf8;

verus! {

/// Largest IR file accepted, in bytes (50 MiB).
pub const MAX_IR_SIZE: u64 = 52428800;

/// Largest model reply accepted, in bytes (1 MiB).
pub const MAX_LLM_RESPONSE_SIZE: usize = 1048576;

/// Longest description put in a table cell or heading, in bytes.
pub const MAX_DESCRIPTION_LENGTH: usize = 500;

// ---------------------------------------------------------------------------
// Markdown escaping
// ---------------------------------------------------------------------------

/// What one character becomes in escaped Markdown: `|` is escaped, a newline
/// becomes a space, a carriage return is dropped and a backtick becomes `'`.
pub open spec fn escape_char(c: char) -> Seq<char> {
    if c == '|' {
        seq!['\\', '|']
    } else if c == '\n' {
        seq![' ']
    } else if c == '\r' {
        Seq::empty()
    } else if c == '`' {
        seq!['\'']
    } else {
        seq![c]
    }
}

/// `s` with every character escaped.
pub open spec fn escaped(s: Seq<char>) -> Seq<char>
    decreases s.len(),
{
    if s.len() == 0 {
        Seq::empty()
    } else {
        escaped(s.drop_last()) + escape_char(s.last())
    }
}

/// Text that cannot break a Markdown table row or code span: no newline, no
/// carriage return, no backtick, and every `|` escaped by a backslash.
pub open spec fn table_safe(s: Seq<char>) -> bool {
    &&& forall|i: int| 0 <= i < s.len() ==> s[i] != '\n' && s[i] != '\r' && s[i] != '`'
    &&& forall|i: int| 0 <= i < s.len() && #[trigger] s[i] == '|' ==> i > 0 && s[i - 1] == '\\'
}

/// Escaped text is table-safe.
pub proof fn lemma_escaped_table_safe(s: Seq<char>)
    ensures
        table_safe(escaped(s)),
    decreases s.len(),
{
    if s.len() > 0 {
        lemma_escaped_table_safe(s.drop_last());
        let a = escaped(s.drop_last());
        let b = escape_char(s.last());
        assert(escaped(s) == a + b);
        assert forall|i: int| 0 <= i < (a + b).len() implies (a + b)[i] != '\n' && (a + b)[i]
            != '\r' && (a + b)[i] != '`' by {
            if i >= a.len() {
                assert((a + b)[i] == b[i - a.len()]);
            }
        }
        assert forall|i: int| 0 <= i < (a + b).len() && #[trigger] (a + b)[i] == '|' implies i > 0 && (a
            + b)[i - 1] == '\\' by {
            if i >= a.len() {
                assert((a + b)[i] == b[i - a.len()]);
                assert(i - a.len() == 1);
                assert((a + b)[i - 1] == b[0]);
            } else {
                assert((a + b)[i] == a[i]);
                assert((a + b)[i - 1] == a[i - 1]);
            }
        }
    }
}

/// A table-safe text cut short and marked with `...` stays table-safe.
proof fn lemma_table_safe_cut(s: Seq<char>, n: int)
    requires
        table_safe(s),
        0 <= n <= s.len(),
    ensures
        table_safe(s.take(n) + seq!['.', '.', '.']),
{
    let t = s.take(n) + seq!['.', '.', '.'];
    assert forall|i: int| 0 <= i < t.len() implies t[i] != '\n' && t[i] != '\r' && t[i] != '`' by {
        if i < n {
            assert(t[i] == s[i]);
        }
    }
    assert forall|i: int| 0 <= i < t.len() && #[trigger] t[i] == '|' implies i > 0 && t[i - 1] == '\\' by {
        assert(i < n);
        assert(t[i] == s[i]);
        assert(t[i - 1] == s[i - 1]);
    }
}

/// Escapes `s` for use inside Markdown tables and inline code.
pub fn escape_markdown(s: &str) -> (res: String)
    ensures
        res@ == escaped(s@),
        table_safe(res@),
{
    let v = chars_of(s);
    let mut out = String::new();
    let mut i: usize = 0;
    while i < v.len()
        invariant
            v@ == s@,
            i <= v@.len(),
            out@ == escaped(v@.take(i as int)),
        decreases v@.len() - i,
    {
        let c = v[i];
        let ghost before = out@;
        if c == '|' {
            push_char(&mut out, '\\');
            push_char(&mut out, '|');
        } else if c == '\n' {
            push_char(&mut out, ' ');
        } else if c == '\r' {
        } else if c == '`' {
            push_char(&mut out, '\'');
        } else {
            push_char(&mut out, c);
        }
        assert(out@ =~= before + escape_char(c));
        assert(v@.take(i + 1).drop_last() =~= v@.take(i as int));
        i = i + 1;
    }
    assert(v@.take(i as int) =~= v@);
    proof {
        lemma_escaped_table_safe(s@);
    }
    out
}

// ---------------------------------------------------------------------------
// Bounded descriptions
// ---------------------------------------------------------------------------

/// How many leading characters of `s` are kept when `s` is cut so that the
/// cut falls at the last character start whose byte offset is at most
/// `budget` (the last character itself is never kept).
pub open spec fn kept_chars(s: Seq<char>, budget: int) -> nat
    decreases s.len(),
{
    if s.len() <= 1 {
        0
    } else if char_width(s[0]) <= budget {
        1 + kept_chars(s.drop_first(), budget - char_width(s[0]))
    } else {
        0
    }
}

/// What `safe_description` returns: the escaped text when it fits in
/// `max_len` bytes, otherwise its start, cut at a character boundary at most
/// `max_len - 3` bytes in (or 0 when `max_len < 3`), followed by `...`.
pub open spec fn safe_description_text(desc: Seq<char>, max_len: nat) -> Seq<char> {
    let e = escaped(desc);
    if byte_len(e) <= max_len {
        e
    } else {
        let budget: int = if max_len >= 3 {
            max_len - 3
        } else {
            0
        };
        e.take(kept_chars(e, budget) as int) + seq!['.', '.', '.']
    }
}

/// The kept prefix never exceeds its byte budget.
pub proof fn lemma_kept_chars_budget(s: Seq<char>, budget: int)
    requires
        budget >= 0,
    ensures
        kept_chars(s, budget) < s.len() || s.len() == 0,
        byte_len(s.take(kept_chars(s, budget) as int)) <= budget,
    decreases s.len(),
{
    let k = kept_chars(s, budget);
    if s.len() <= 1 {
        assert(s.take(0) =~= Seq::<char>::empty());
        assert(encode_utf8(Seq::<char>::empty()) =~= Seq::<u8>::empty());
    } else if char_width(s[0]) <= budget {
        let t = s.drop_first();
        lemma_kept_chars_budget(t, budget - char_width(s[0]));
        assert(s.take(k as int) =~= seq![s[0]] + t.take(k - 1));
        lemma_byte_len_add(seq![s[0]], t.take(k - 1));
        lemma_byte_len_single(s[0]);
    } else {
        assert(s.take(0) =~= Seq::<char>::empty());
        assert(encode_utf8(Seq::<char>::empty()) =~= Seq::<u8>::empty());
    }
}

/// Keeping one more character would break the byte budget, or reach the
/// last character.
proof fn lemma_kept_chars_longest(s: Seq<char>, budget: int)
    requires
        budget >= 0,
    ensures
        kept_chars(s, budget) + 1 >= s.len() || byte_len(s.take(kept_chars(s, budget) as int + 1))
            > budget,
    decreases s.len(),
{
    let k = kept_chars(s, budget) as int;
    if s.len() > 1 {
        lemma_byte_len_single(s[0]);
        if char_width(s[0]) <= budget {
            let t = s.drop_first();
            lemma_kept_chars_longest(t, budget - char_width(s[0]));
            if k + 1 < s.len() {
                assert(s.take(k + 1) =~= seq![s[0]] + t.take(k));
                lemma_byte_len_add(seq![s[0]], t.take(k));
            }
        } else {
            assert(s.take(1) =~= seq![s[0]]);
        }
    }
}

/// Law: text without `|`, newlines, carriage returns or backticks passes
/// through escaping unchanged.
pub proof fn law_escape_keeps_plain_text(s: Seq<char>)
    requires
        forall|i: int| 0 <= i < s.len() ==> s[i] != '|' && s[i] != '\n' && s[i] != '\r' && s[i] != '`',
    ensures
        escaped(s) == s,
    decreases s.len(),
{
    if s.len() > 0 {
        law_escape_keeps_plain_text(s.drop_last());
        assert(s.drop_last() + seq![s.last()] =~= s);
    }
}

/// Law: a description too long for `max_len` bytes (at least 3) is cut at
/// the longest start of its escaped text that fits in `max_len - 3` bytes
/// and ends before its last character, and marked with `...`.
pub proof fn law_description_cut_is_longest(desc: Seq<char>, max_len: nat)
    requires
        max_len >= 3,
        byte_len(escaped(desc)) > max_len,
    ensures
        exists|k: int|
            #![trigger escaped(desc).take(k)]
            {
                &&& 0 <= k < escaped(desc).len()
                &&& safe_description_text(desc, max_len) == escaped(desc).take(k) + "..."@
                &&& byte_len(escaped(desc).take(k)) <= max_len - 3
                &&& (k + 1 == escaped(desc).len() || byte_len(escaped(desc).take(k + 1)) > max_len - 3)
            },
{
    let e = escaped(desc);
    let budget: int = max_len - 3;
    let k = kept_chars(e, budget) as int;
    reveal_strlit("...");
    assert("..."@ =~= seq!['.', '.', '.']);
    if e.len() == 0 {
        assert(encode_utf8(e) =~= Seq::<u8>::empty());
    }
    lemma_kept_chars_budget(e, budget);
    lemma_kept_chars_longest(e, budget);
    assert(0 <= k < e.len());
    assert(safe_description_text(desc, max_len) == e.take(k) + "..."@);
    assert(byte_len(escaped(desc).take(k)) <= max_len - 3);
}

/// Escapes `desc` and bounds it to `max_len` bytes, cutting at a character
/// boundary and marking the cut with `...`.
pub fn safe_description(desc: &str, max_len: usize) -> (res: String)
    ensures
        res@ == safe_description_text(desc@, max_len as nat),
        table_safe(res@),
        max_len >= 3 ==> byte_len(res@) <= max_len,
{
    let escaped_s = escape_markdown(desc);
    let e = chars_of(escaped_s.as_str());
    if !byte_len_exceeds(&e, max_len) {
        return escaped_s;
    }
    let budget: usize = if max_len >= 3 {
        max_len - 3
    } else {
        0
    };
    // Keep characters while the next one still starts within the budget.
    proof {
        if e@.len() == 0 {
            assert(encode_utf8(e@) =~= Seq::<u8>::empty());
        }
    }
    let mut kept: usize = 0;
    let mut left: usize = budget;
    assert(e@.skip(0) =~= e@);
    while kept < e.len() - 1 && utf8_width(e[kept]) <= left
        invariant
            e@ == escaped(desc@),
            kept < e@.len(),
            kept_chars(e@, budget as int) == kept + kept_chars(e@.skip(kept as int), left as int),
        decreases e@.len() - kept,
    {
        let w = utf8_width(e[kept]);
        proof {
            let r = e@.skip(kept as int);
            assert(r[0] == e@[kept as int]);
            assert(r.drop_first() =~= e@.skip(kept + 1));
        }
        left = left - w;
        kept = kept + 1;
    }
    proof {
        let r = e@.skip(kept as int);
        if e@.len() > 0 {
            assert(r.len() <= 1 || r[0] == e@[kept as int]);
        }
    }
    let mut out = string_of(&e, 0, kept);
    push_str(&mut out, "...");
    proof {
        reveal_strlit("...");
        assert(e@.subrange(0, kept as int) =~= e@.take(kept as int));
        assert(out@ =~= e@.take(kept as int) + seq!['.', '.', '.']);
        lemma_table_safe_cut(e@, kept as int);
        if max_len >= 3 {
            lemma_kept_chars_budget(e@, budget as int);
            lemma_byte_len_add(e@.take(kept as int), seq!['.', '.', '.']);
            lemma_byte_len_ellipsis();
        }
    }
    out
}

// ---------------------------------------------------------------------------
// Stripping HTML from model output
// ---------------------------------------------------------------------------

/// `s` with every match of the pattern `<[^>]+>` removed, matches taken from
/// left to right without overlap: a `<` starts a match when the first `>`
/// after it comes at least two characters later, and the match ends there.
pub open spec fn without_tags(s: Seq<char>) -> Seq<char>
    decreases s.len(),
{
    if s.len() == 0 {
        s
    } else {
        let k = find_char(s, '>');
        if s[0] == '<' && k >= 2 {
            proof {
                lemma_find_char(s, '>');
            }
            without_tags(s.skip(k + 1))
        } else {
            seq![s[0]] + without_tags(s.drop_first())
        }
    }
}

/// `s` holds an HTML-like tag: a `<`, then at least one character other than
/// `>`, then a `>`.
pub open spec fn has_tag(s: Seq<char>) -> bool {
    exists|i: int, k: int|
        #![trigger s[i], s[k]]
        0 <= i && i + 2 <= k < s.len() && s[i] == '<' && s[k] == '>' && forall|m: int|
            i < m < k ==> s[m] != '>'
}

/// Every character left by tag removal was in the input.
pub proof fn lemma_without_tags_chars(s: Seq<char>)
    ensures
        forall|j: int| 0 <= j < without_tags(s).len() ==> s.contains(#[trigger] without_tags(s)[j]),
    decreases s.len(),
{
    if s.len() > 0 {
        let k = find_char(s, '>');
        lemma_find_char(s, '>');
        if s[0] == '<' && k >= 2 {
            lemma_without_tags_chars(s.skip(k + 1));
            assert(without_tags(s) == without_tags(s.skip(k + 1)));
            assert forall|j: int| 0 <= j < without_tags(s).len() implies s.contains(
                #[trigger] without_tags(s)[j],
            ) by {
                let c = without_tags(s)[j];
                assert(s.skip(k + 1).contains(c));
                let x = choose|x: int| 0 <= x < s.skip(k + 1).len() && #[trigger] s.skip(k + 1)[x] == c;
                assert(s[x + k + 1] == c);
            }
        } else {
            let t = s.drop_first();
            lemma_without_tags_chars(t);
            assert forall|j: int| 0 <= j < without_tags(s).len() implies s.contains(
                #[trigger] without_tags(s)[j],
            ) by {
                let c = without_tags(s)[j];
                if j == 0 {
                    assert(s[0] == c);
                } else {
                    assert(c == without_tags(t)[j - 1]);
                    assert(t.contains(c));
                    let x = choose|x: int| 0 <= x < t.len() && #[trigger] t[x] == c;
                    assert(s[x + 1] == c);
                }
            }
        }
    }
}

/// Removing tags leaves no tag behind.
pub proof fn lemma_without_tags_has_no_tag(s: Seq<char>)
    ensures
        !has_tag(without_tags(s)),
    decreases s.len(),
{
    if s.len() > 0 {
        let k = find_char(s, '>');
        lemma_find_char(s, '>');
        if s[0] == '<' && k >= 2 {
            lemma_without_tags_has_no_tag(s.skip(k + 1));
        } else {
            let t = s.drop_first();
            let r = without_tags(t);
            let out = without_tags(s);
            lemma_without_tags_has_no_tag(t);
            assert(out == seq![s[0]] + r);
            if has_tag(out) {
                let (i, kk) = choose|i: int, kk: int|
                    #![trigger out[i], out[kk]]
                    0 <= i && i + 2 <= kk < out.len() && out[i] == '<' && out[kk] == '>'
                        && forall|m: int| i < m < kk ==> out[m] != '>';
                if i > 0 {
                    assert forall|m: int| i - 1 < m < kk - 1 implies r[m] != '>' by {
                        assert(out[m + 1] == r[m]);
                    }
                    assert(r[i - 1] == out[i]);
                    assert(r[kk - 1] == out[kk]);
                    assert(has_tag(r));
                } else {
                    // The tag would start with the kept `<` at the front.
                    assert(s[0] == '<');
                    if k >= 0 {
                        // The first `>` of `s` comes right after the `<`.
                        assert(k == 1);
                        assert(t[0] == '>');
                        assert(t.len() > 0);
                        assert(find_char(t, '>') == 0);
                        assert(r == seq![t[0]] + without_tags(t.drop_first()));
                        assert(out[1] == '>');
                        assert(1 < kk);
                    } else {
                        // No `>` at all in `s`, hence none in what is left.
                        lemma_without_tags_chars(t);
                        assert(r.contains(out[kk])) by {
                            assert(out[kk] == r[kk - 1]);
                        }
                        assert(t.contains(r[kk - 1]));
                        let x = choose|x: int| 0 <= x < t.len() && #[trigger] t[x] == r[kk - 1];
                        assert(s[x + 1] == '>');
                    }
                }
            }
        }
    }
}

/// `s` ends with an unclosed tag: a `<` followed by at least one character
/// and by no `>`.
pub open spec fn has_open_tag(s: Seq<char>) -> bool {
    exists|i: int|
        0 <= i && i + 1 < s.len() && #[trigger] s[i] == '<' && forall|m: int|
            i < m < s.len() ==> s[m] != '>'
}

/// A tag stays a tag when characters are appended.
proof fn lemma_has_tag_push(s: Seq<char>, c: char)
    requires
        has_tag(s),
    ensures
        has_tag(s.push(c)),
{
    let (i, k) = choose|i: int, k: int|
        #![trigger s[i], s[k]]
        0 <= i && i + 2 <= k < s.len() && s[i] == '<' && s[k] == '>' && forall|m: int|
            i < m < k ==> s[m] != '>';
    let t = s.push(c);
    assert(t[i] == s[i] && t[k] == s[k]);
    assert forall|m: int| i < m < k implies t[m] != '>' by {
        assert(t[m] == s[m]);
    }
}

/// When escaped text ends with `<`, that `<` comes from a `<` of the input
/// followed only by carriage returns.
proof fn lemma_escaped_last_open(y: Seq<char>)
    requires
        escaped(y).len() > 0,
        escaped(y).last() == '<',
    ensures
        exists|q: int|
            0 <= q < y.len() && #[trigger] y[q] == '<' && forall|m: int|
                q < m < y.len() ==> y[m] == '\r',
    decreases y.len(),
{
    let c = y.last();
    let z = y.drop_last();
    assert(escaped(y) == escaped(z) + escape_char(c));
    if escape_char(c).len() > 0 {
        assert(escaped(y).last() == escape_char(c).last());
        assert(c == '<');
        assert(y[y.len() - 1] == '<');
    } else {
        assert(escaped(y) =~= escaped(z));
        lemma_escaped_last_open(z);
        let q = choose|q: int|
            0 <= q < z.len() && #[trigger] z[q] == '<' && forall|m: int| q < m < z.len() ==> z[m] == '\r';
        assert(y[q] == '<');
        assert forall|m: int| q < m < y.len() implies y[m] == '\r' by {
            if m < z.len() {
                assert(y[m] == z[m]);
            }
        }
    }
}

/// An unclosed tag in escaped text comes from an unclosed tag in the input.
proof fn lemma_escaped_open_tag(y: Seq<char>)
    requires
        has_open_tag(escaped(y)),
    ensures
        has_open_tag(y),
    decreases y.len(),
{
    let e = escaped(y);
    let i = choose|i: int|
        0 <= i && i + 1 < e.len() && #[trigger] e[i] == '<' && forall|m: int| i < m < e.len() ==> e[m] != '>';
    let c = y.last();
    let z = y.drop_last();
    let ez = escaped(z);
    let ec = escape_char(c);
    assert(e == ez + ec);
    // The last character of the escaped text is not `>`, so `c` is not `>`.
    assert(e[e.len() - 1] != '>');
    assert(c != '>') by {
        if c == '>' {
            assert(ec == seq!['>']);
            assert(e[e.len() - 1] == '>');
        }
    }
    if i >= ez.len() {
        assert(ec[i - ez.len()] == '<');
        assert(c == '<');
        assert(ec.len() == 1);
        assert(false);
    } else if i + 1 < ez.len() {
        assert(ez[i] == '<');
        assert forall|m: int| i < m < ez.len() implies ez[m] != '>' by {
            assert(e[m] == ez[m]);
        }
        assert(has_open_tag(ez));
        lemma_escaped_open_tag(z);
        let p = choose|p: int|
            0 <= p && p + 1 < z.len() && #[trigger] z[p] == '<' && forall|m: int| p < m < z.len() ==> z[m] != '>';
        assert(y[p] == '<');
        assert forall|m: int| p < m < y.len() implies y[m] != '>' by {
            if m < z.len() {
                assert(y[m] == z[m]);
            }
        }
    } else {
        // The `<` is the last escaped character of `z`.
        assert(ez.last() == '<');
        lemma_escaped_last_open(z);
        let q = choose|q: int|
            0 <= q < z.len() && #[trigger] z[q] == '<' && forall|m: int| q < m < z.len() ==> z[m] == '\r';
        assert(y[q] == '<');
        assert forall|m: int| q < m < y.len() implies y[m] != '>' by {
            if m < z.len() {
                assert(y[m] == z[m]);
            }
        }
    }
}

/// Escaping creates no tag.
proof fn lemma_escaped_has_no_tag(x: Seq<char>)
    requires
        !has_tag(x),
    ensures
        !has_tag(escaped(x)),
    decreases x.len(),
{
    if x.len() > 0 {
        let c = x.last();
        let z = x.drop_last();
        assert(x =~= z.push(c));
        if has_tag(z) {
            lemma_has_tag_push(z, c);
        }
        lemma_escaped_has_no_tag(z);
        let ez = escaped(z);
        let ec = escape_char(c);
        let e = escaped(x);
        assert(e == ez + ec);
        if has_tag(e) {
            let (i, k) = choose|i: int, k: int|
                #![trigger e[i], e[k]]
                0 <= i && i + 2 <= k < e.len() && e[i] == '<' && e[k] == '>' && forall|m: int|
                    i < m < k ==> e[m] != '>';
            if k < ez.len() {
                assert(ez[i] == '<' && ez[k] == '>');
                assert forall|m: int| i < m < k implies ez[m] != '>' by {
                    assert(e[m] == ez[m]);
                }
                assert(has_tag(ez));
            } else {
                assert(ec[k - ez.len()] == '>');
                assert(c == '>');
                assert(ec.len() == 1);
                assert(k == ez.len());
                assert(ez[i] == '<');
                assert forall|m: int| i < m < ez.len() implies ez[m] != '>' by {
                    assert(e[m] == ez[m]);
                }
                assert(has_open_tag(ez));
                lemma_escaped_open_tag(z);
                let p = choose|p: int|
                    0 <= p && p + 1 < z.len() && #[trigger] z[p] == '<' && forall|m: int| p < m < z.len() ==> z[m] != '>';
                let kk = z.len() as int;
                assert(x[p] == '<' && x[kk] == '>');
                assert forall|m: int| p < m < kk implies x[m] != '>' by {
                    assert(x[m] == z[m]);
                }
                assert(has_tag(x));
            }
        }
    }
}

/// Removes every match of the HTML tag pattern from `text`.
///
/// Trusted: compiles `pattern` with `regex::Regex::new` and calls
/// `Regex::replace_all` with an empty replacement. For the one pattern this
/// accepts, `<[^>]+>`, the regex crate's leftmost-first, non-overlapping
/// matching removes exactly what `without_tags` describes.
#[verifier::external_body]
fn strip_html_tags(pattern: &str, text: &str) -> (res: String)
    requires
        pattern@ == "<[^>]+>"@,
    ensures
        res@ == without_tags(text@),
{
    match regex::Regex::new(pattern) {
        Ok(re) => re.replace_all(text, "").into_owned(),
        Err(_) => text.to_string(),
    }
}

/// What `sanitize_llm_response` returns: `s` without HTML tags, escaped.
pub open spec fn sanitized(s: Seq<char>) -> Seq<char> {
    escaped(without_tags(s))
}

/// Sanitises model output: strips HTML tags, then escapes Markdown.
pub fn sanitize_llm_response(s: &str) -> (res: String)
    ensures
        res@ == sanitized(s@),
        !has_tag(res@),
        table_safe(res@),
{
    let no_html = strip_html_tags("<[^>]+>", s);
    proof {
        lemma_without_tags_has_no_tag(s@);
        lemma_escaped_has_no_tag(without_tags(s@));
    }
    escape_markdown(no_html.as_str())
}

// ---------------------------------------------------------------------------
// Files read and written
// ---------------------------------------------------------------------------

/// The platform's path separator.
///
/// Trusted: reads `std::path::MAIN_SEPARATOR`, documented as `/` on Unix and
/// `\` on Windows.
#[verifier::external_body]
fn path_separator() -> (c: char)
    ensures
        c == '/' || c == '\\',
{
    std::path::MAIN_SEPARATOR
}

/// The names of the system directories that output may not be written into.
pub open spec fn system_dir_names() -> Seq<Seq<char>> {
    seq!["etc"@, "dev"@, "proc"@, "sys"@, "boot"@]
}

/// The system directories below the root that output may not be written into:
/// each name in `system_dir_names` behind the platform's path separator.
pub fn blocked_prefixes() -> (res: Vec<String>)
    ensures
        res@.len() == 5,
        res@[0]@.len() > 0,
        res@[0]@[0] == '/' || res@[0]@[0] == '\\',
        forall|i: int| 0 <= i < 5 ==> #[trigger] res@[i]@ == seq![res@[0]@[0]] + system_dir_names()[i],
{
    let sep = path_separator();
    let names = ["etc", "dev", "proc", "sys", "boot"];
    let mut out: Vec<String> = Vec::new();
    let mut i: usize = 0;
    while i < 5
        invariant
            i <= 5,
            out@.len() == i,
            names@ == seq!["etc", "dev", "proc", "sys", "boot"],
            forall|j: int| 0 <= j < i ==> #[trigger] out@[j]@ == seq![sep] + system_dir_names()[j],
        decreases 5 - i,
    {
        let mut p = String::new();
        push_char(&mut p, sep);
        push_str(&mut p, names[i]);
        assert(p@ == seq![sep] + system_dir_names()[i as int]);
        out.push(p);
        i = i + 1;
    }
    assert(out@[0]@[0] == sep);
    out
}

/// Whether an output path holds `..` and so may climb out of its directory.
pub fn has_traversal(path: &str) -> (res: bool)
    ensures
        res == contains(path@, ".."@),
{
    let p = chars_of(path);
    let dots = chars_of("..");
    contains_exec(&p, &dots)
}

/// Whether a resolved output path lies in one of the given directories: its
/// text starts with one of `prefixes`.
pub fn is_system_location(resolved: &str, prefixes: &Vec<String>) -> (res: bool)
    ensures
        res == exists|i: int| 0 <= i < prefixes@.len() && #[trigger] starts_with(resolved@, prefixes@[i]@),
{
    let r = chars_of(resolved);
    let mut i: usize = 0;
    while i < prefixes.len()
        invariant
            r@ == resolved@,
            i <= prefixes@.len(),
            forall|j: int| 0 <= j < i ==> !#[trigger] starts_with(resolved@, prefixes@[j]@),
        decreases prefixes@.len() - i,
    {
        let pv = chars_of(prefixes[i].as_str());
        if starts_with_exec(&r, &pv) {
            return true;
        }
        i = i + 1;
    }
    false
}

/// Why an output path is refused.
#[derive(Debug, Clone, Copy, PartialEq, Eq, Structural)]
pub enum OutputRefusal {
    /// The path holds `..`.
    Traversal,
    /// The path is a symbolic link.
    PathIsLink,
    /// The path's parent directory is a symbolic link.
    ParentIsLink,
    /// The resolved path lies in a system directory.
    SystemDirectory,
}

/// The message shown for a refused output path.
pub open spec fn refusal_message(r: OutputRefusal) -> Seq<char> {
    match r {
        OutputRefusal::Traversal => "Output path must not contain '..' traversal"@,
        OutputRefusal::PathIsLink => "Output path must not be a symbolic link"@,
        OutputRefusal::ParentIsLink => "Output parent directory must not be a symbolic link"@,
        OutputRefusal::SystemDirectory => "Writing to system directories is not allowed"@,
    }
}

impl OutputRefusal {
    /// The message shown for this refusal.
    pub fn message(&self) -> (res: &'static str)
        ensures
            res@ == refusal_message(*self),
    {
        match self {
            OutputRefusal::Traversal => "Output path must not contain '..' traversal",
            OutputRefusal::PathIsLink => "Output path must not be a symbolic link",
            OutputRefusal::ParentIsLink => "Output parent directory must not be a symbolic link",
            OutputRefusal::SystemDirectory => "Writing to system directories is not allowed",
        }
    }
}

/// The checks made on an output path before it is resolved, in order: no
/// `..` in its text, not a symbolic link, and its (non-empty) parent not a
/// symbolic link.
pub fn check_output_target(path: &str, path_is_link: bool, parent_is_link: bool) -> (res: Option<
    OutputRefusal,
>)
    ensures
        res == (if contains(path@, ".."@) {
            Some(OutputRefusal::Traversal)
        } else if path_is_link {
            Some(OutputRefusal::PathIsLink)
        } else if parent_is_link {
            Some(OutputRefusal::ParentIsLink)
        } else {
            None
        }),
{
    if has_traversal(path) {
        Some(OutputRefusal::Traversal)
    } else if path_is_link {
        Some(OutputRefusal::PathIsLink)
    } else if parent_is_link {
        Some(OutputRefusal::ParentIsLink)
    } else {
        None
    }
}

/// The check made on the resolved output path: it may not lie in one of the
/// given system directories (`blocked_prefixes`), that is start with one of
/// them.
pub fn check_resolved_target(resolved: &str, prefixes: &Vec<String>) -> (res: Option<OutputRefusal>)
    ensures
        res == (if exists|i: int|
            0 <= i < prefixes@.len() && #[trigger] starts_with(resolved@, prefixes@[i]@) {
            Some(OutputRefusal::SystemDirectory)
        } else {
            None
        }),
{
    if is_system_location(resolved, prefixes) {
        Some(OutputRefusal::SystemDirectory)
    } else {
        None
    }
}

/// Whether an input file of `len` bytes is small enough to load.
pub fn input_size_allowed(len: u64) -> (res: bool)
    ensures
        res == (len <= MAX_IR_SIZE),
{
    len <= MAX_IR_SIZE
}

} // verus!
