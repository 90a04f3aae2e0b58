//! Character-level text utilities shared by the guide formatter, the prompt
//! builder and the security helpers: UTF-8 byte lengths, substring tests,
//! pattern replacement and line splitting, each with its specification.
use vstd::prelude::*;
use vstd::std_specs::iter::IteratorSpec;
use vstd::utf8::*;

verus! {

// ---------------------------------------------------------------------------
// Specifications
// ---------------------------------------------------------------------------

/// Number of bytes in the UTF-8 encoding of `c`.
pub open spec fn char_width(c: char) -> nat {
    encode_scalar(c as u32).len()
}

/// Number of bytes in the UTF-8 encoding of `s` (what `str::len` returns).
pub open spec fn byte_len(s: Seq<char>) -> nat {
    encode_utf8(s).len()
}

/// `p` is a prefix of `s`.
pub open spec fn starts_with(s: Seq<char>, p: Seq<char>) -> bool {
    p.len() <= s.len() && s.take(p.len() as int) == p
}

/// `p` is a suffix of `s`.
pub open spec fn ends_with(s: Seq<char>, p: Seq<char>) -> bool {
    p.len() <= s.len() && s.skip(s.len() - p.len()) == p
}

/// `p` occurs in `s` starting at index `i`.
pub open spec fn occurs_at(s: Seq<char>, p: Seq<char>, i: int) -> bool {
    0 <= i && i + p.len() <= s.len() && s.subrange(i, i + p.len()) == p
}

/// `p` occurs somewhere in `s`.
pub open spec fn contains(s: Seq<char>, p: Seq<char>) -> bool {
    exists|i: int| occurs_at(s, p, i)
}

/// Index of the first occurrence of `c` in `s`, or -1 when there is none.
pub open spec fn find_char(s: Seq<char>, c: char) -> int
    decreases s.len(),
{
    if s.len() == 0 {
        -1
    } else if s[0] == c {
        0
    } else {
        let r = find_char(s.drop_first(), c);
        if r < 0 {
            -1
        } else {
            r + 1
        }
    }
}

/// `s` with every non-overlapping occurrence of the non-empty pattern `pat`,
/// scanned from left to right, replaced by `rep` (what `str::replace` does).
pub open spec fn replaced(s: Seq<char>, pat: Seq<char>, rep: Seq<char>) -> Seq<char>
    decreases s.len(),
{
    if s.len() == 0 {
        s
    } else if pat.len() > 0 && starts_with(s, pat) {
        rep + replaced(s.skip(pat.len() as int), pat, rep)
    } else {
        seq![s[0]] + replaced(s.drop_first(), pat, rep)
    }
}

/// A line with one trailing carriage return removed, if it has one.
pub open spec fn strip_cr(line: Seq<char>) -> Seq<char> {
    if line.len() > 0 && line.last() == '\r' {
        line.drop_last()
    } else {
        line
    }
}

/// The lines of `cur + s`, where `cur` is the part of the current line read so
/// far: split at each `\n`, a `\r` right before a `\n` dropped, and no empty
/// line after a final `\n` (what `str::lines` yields).
pub open spec fn lines_from(s: Seq<char>, cur: Seq<char>) -> Seq<Seq<char>>
    decreases s.len(),
{
    if s.len() == 0 {
        if cur.len() == 0 {
            seq![]
        } else {
            seq![cur]
        }
    } else if s[0] == '\n' {
        seq![strip_cr(cur)] + lines_from(s.drop_first(), seq![])
    } else {
        lines_from(s.drop_first(), cur.push(s[0]))
    }
}

/// The lines of `s`, as `str::lines` yields them.
pub open spec fn lines_of(s: Seq<char>) -> Seq<Seq<char>> {
    lines_from(s, seq![])
}

/// The Unicode `White_Space` characters, which `char::is_whitespace` accepts.
pub open spec fn is_white_space(c: char) -> bool {
    ||| ('\t' <= c && c <= '\r')
    ||| c == ' '
    ||| c == '\u{85}'
    ||| c == '\u{A0}'
    ||| c == '\u{1680}'
    ||| ('\u{2000}' <= c && c <= '\u{200A}')
    ||| c == '\u{2028}'
    ||| c == '\u{2029}'
    ||| c == '\u{202F}'
    ||| c == '\u{205F}'
    ||| c == '\u{3000}'
}

/// `s` without its leading white space.
pub open spec fn trim_start(s: Seq<char>) -> Seq<char>
    decreases s.len(),
{
    if s.len() > 0 && is_white_space(s[0]) {
        trim_start(s.drop_first())
    } else {
        s
    }
}

/// `s` without its trailing white space.
pub open spec fn trim_end(s: Seq<char>) -> Seq<char>
    decreases s.len(),
{
    if s.len() > 0 && is_white_space(s.last()) {
        trim_end(s.drop_last())
    } else {
        s
    }
}

/// `s` without leading and trailing white space (what `str::trim` returns).
pub open spec fn trim(s: Seq<char>) -> Seq<char> {
    trim_end(trim_start(s))
}

// ---------------------------------------------------------------------------
// Lemmas
// ---------------------------------------------------------------------------

/// The UTF-8 encoding of a concatenation is the concatenation of encodings.
pub proof fn lemma_encode_utf8_add(a: Seq<char>, b: Seq<char>)
    ensures
        encode_utf8(a + b) == encode_utf8(a) + encode_utf8(b),
    decreases a.len(),
{
    if a.len() == 0 {
        assert(a + b =~= b);
        assert(encode_utf8(a) =~= Seq::<u8>::empty());
        assert(encode_utf8(a) + encode_utf8(b) =~= encode_utf8(b));
    } else {
        assert((a + b).drop_first() =~= a.drop_first() + b);
        assert((a + b)[0] == a[0]);
        lemma_encode_utf8_add(a.drop_first(), b);
        assert(encode_utf8(a + b) =~= encode_scalar(a[0] as u32) + encode_utf8(a.drop_first() + b));
        assert(encode_utf8(a + b) =~= encode_utf8(a) + encode_utf8(b));
    }
}

/// Byte length is additive.
pub proof fn lemma_byte_len_add(a: Seq<char>, b: Seq<char>)
    ensures
        byte_len(a + b) == byte_len(a) + byte_len(b),
{
    lemma_encode_utf8_add(a, b);
}

/// The byte length of one character is its width.
pub proof fn lemma_byte_len_single(c: char)
    ensures
        byte_len(seq![c]) == char_width(c),
{
    assert(seq![c].drop_first() =~= Seq::<char>::empty());
    assert(encode_utf8(seq![c]) =~= encode_scalar(c as u32) + encode_utf8(Seq::<char>::empty()));
    assert(encode_utf8(Seq::<char>::empty()) =~= Seq::<u8>::empty());
}

/// Byte length of a sequence grown by one character.
pub proof fn lemma_byte_len_push(s: Seq<char>, c: char)
    ensures
        byte_len(s.push(c)) == byte_len(s) + char_width(c),
{
    assert(s.push(c) =~= s + seq![c]);
    lemma_byte_len_add(s, seq![c]);
    lemma_byte_len_single(c);
}

/// The byte length of `"..."`.
pub proof fn lemma_byte_len_ellipsis()
    ensures
        byte_len(seq!['.', '.', '.']) == 3,
{
    let e = seq!['.', '.', '.'];
    assert(e =~= seq!['.'] + seq!['.'] + seq!['.']);
    lemma_byte_len_add(seq!['.'] + seq!['.'], seq!['.']);
    lemma_byte_len_add(seq!['.'], seq!['.']);
    lemma_byte_len_single('.');
    assert(char_width('.') == 1) by {
        assert(('.' as u32) == 0x2Eu32);
    }
}

/// `find_char` finds the first occurrence.
pub proof fn lemma_find_char(s: Seq<char>, c: char)
    ensures
        -1 <= find_char(s, c) < s.len(),
        find_char(s, c) >= 0 ==> s[find_char(s, c)] == c,
        find_char(s, c) >= 0 ==> forall|j: int| 0 <= j < find_char(s, c) ==> s[j] != c,
        find_char(s, c) < 0 ==> forall|j: int| 0 <= j < s.len() ==> s[j] != c,
    decreases s.len(),
{
    if s.len() > 0 && s[0] != c {
        lemma_find_char(s.drop_first(), c);
        assert forall|j: int| 1 <= j < s.len() implies s[j] == s.drop_first()[j - 1] by {}
    }
}

/// No character `a` in `s` is directly followed by `b`.
pub open spec fn lacks_pair(s: Seq<char>, a: char, b: char) -> bool
    decreases s.len(),
{
    s.len() < 2 || (!(s[0] == a && s[1] == b) && lacks_pair(s.drop_first(), a, b))
}

/// A sequence in which `p`'s first two characters never meet does not hold `p`.
pub proof fn lemma_lacks_pair(s: Seq<char>, p: Seq<char>)
    requires
        p.len() >= 2,
        lacks_pair(s, p[0], p[1]),
    ensures
        !contains(s, p),
    decreases s.len(),
{
    if s.len() >= 2 {
        lemma_lacks_pair(s.drop_first(), p);
        assert forall|i: int| !occurs_at(s, p, i) by {
            if occurs_at(s, p, i) {
                assert(s.subrange(i, i + p.len())[0] == s[i]);
                assert(s.subrange(i, i + p.len())[1] == s[i + 1]);
                if i > 0 {
                    assert(s.drop_first().subrange(i - 1, i - 1 + p.len()) =~= s.subrange(i, i + p.len()));
                    assert(occurs_at(s.drop_first(), p, i - 1));
                }
            }
        }
    } else {
        assert forall|i: int| !occurs_at(s, p, i) by {}
    }
}

/// Lacking a pair survives concatenation when the seam cannot form it.
pub proof fn lemma_lacks_pair_add(x: Seq<char>, y: Seq<char>, a: char, b: char)
    requires
        lacks_pair(x, a, b),
        lacks_pair(y, a, b),
        x.len() > 0 ==> x.last() != a,
    ensures
        lacks_pair(x + y, a, b),
    decreases x.len(),
{
    if x.len() > 0 {
        assert((x + y).drop_first() =~= x.drop_first() + y);
        assert((x + y)[0] == x[0]);
        if x.len() >= 2 {
            assert((x + y)[1] == x[1]);
            assert(x.drop_first().last() == x.last());
        }
        lemma_lacks_pair_add(x.drop_first(), y, a, b);
    } else {
        assert(x + y =~= y);
    }
}

/// Replacing in a text without the pattern changes nothing.
pub proof fn lemma_replaced_absent(s: Seq<char>, pat: Seq<char>, rep: Seq<char>)
    requires
        !contains(s, pat),
    ensures
        replaced(s, pat, rep) == s,
    decreases s.len(),
{
    if s.len() > 0 {
        if pat.len() > 0 && starts_with(s, pat) {
            assert(occurs_at(s, pat, 0));
        }
        assert forall|i: int| !occurs_at(s.drop_first(), pat, i) by {
            if occurs_at(s.drop_first(), pat, i) {
                assert(s.subrange(i + 1, i + 1 + pat.len()) =~= s.drop_first().subrange(i, i + pat.len()));
                assert(occurs_at(s, pat, i + 1));
            }
        }
        lemma_replaced_absent(s.drop_first(), pat, rep);
        assert(seq![s[0]] + s.drop_first() =~= s);
    }
}

/// A pattern without a newline never spans a newline, so replacing in two
/// texts joined where a newline stands is replacing in each.
pub proof fn lemma_replaced_concat(a: Seq<char>, b: Seq<char>, pat: Seq<char>, rep: Seq<char>)
    requires
        pat.len() > 0,
        forall|j: int| 0 <= j < pat.len() ==> pat[j] != '\n',
        (a.len() > 0 ==> a.last() == '\n') || (b.len() > 0 && b[0] == '\n'),
    ensures
        replaced(a + b, pat, rep) == replaced(a, pat, rep) + replaced(b, pat, rep),
    decreases a.len(),
{
    let s = a + b;
    if a.len() == 0 {
        assert(s =~= b);
        assert(replaced(a, pat, rep) =~= Seq::<char>::empty());
    } else if starts_with(s, pat) {
        if pat.len() > a.len() {
            if a.last() == '\n' {
                assert(s.take(pat.len() as int)[a.len() - 1] == s[a.len() - 1]);
            } else {
                assert(s.take(pat.len() as int)[a.len() as int] == s[a.len() as int]);
            }
        }
        assert(pat.len() <= a.len());
        assert(a.take(pat.len() as int) =~= s.take(pat.len() as int));
        let a2 = a.skip(pat.len() as int);
        assert(s.skip(pat.len() as int) =~= a2 + b);
        if a2.len() > 0 {
            assert(a2.last() == a.last());
        }
        lemma_replaced_concat(a2, b, pat, rep);
        assert(replaced(a + b, pat, rep) =~= rep + replaced(a2 + b, pat, rep));
        assert(replaced(a, pat, rep) == rep + replaced(a2, pat, rep));
    } else {
        if pat.len() <= a.len() {
            assert(a.take(pat.len() as int) =~= s.take(pat.len() as int));
        }
        assert(!starts_with(a, pat));
        let a2 = a.drop_first();
        assert(s.drop_first() =~= a2 + b);
        assert(s[0] == a[0]);
        if a2.len() > 0 {
            assert(a2.last() == a.last());
        }
        lemma_replaced_concat(a2, b, pat, rep);
        assert(replaced(a + b, pat, rep) =~= seq![a[0]] + replaced(a2 + b, pat, rep));
        assert(replaced(a, pat, rep) == seq![a[0]] + replaced(a2, pat, rep));
    }
}

/// Replacing a pattern without a newline in `p`, a newline and `q` keeps the
/// newline and replaces in `p` and in `q`.
pub proof fn lemma_replaced_around_newline(p: Seq<char>, q: Seq<char>, pat: Seq<char>, rep: Seq<char>)
    requires
        pat.len() > 0,
        forall|j: int| 0 <= j < pat.len() ==> pat[j] != '\n',
    ensures
        replaced(p + seq!['\n'] + q, pat, rep) == replaced(p, pat, rep) + seq!['\n'] + replaced(
            q,
            pat,
            rep,
        ),
{
    let nl = seq!['\n'];
    assert(p + nl + q =~= p + (nl + q));
    lemma_replaced_concat(p, nl + q, pat, rep);
    lemma_replaced_concat(nl, q, pat, rep);
    assert(!starts_with(nl, pat)) by {
        if starts_with(nl, pat) {
            assert(nl.take(pat.len() as int)[0] == pat[0]);
        }
    }
    assert(nl.drop_first() =~= Seq::<char>::empty());
    assert(replaced(nl.drop_first(), pat, rep) =~= Seq::<char>::empty());
    assert(replaced(nl, pat, rep) =~= seq![nl[0]] + replaced(nl.drop_first(), pat, rep));
    assert(replaced(nl, pat, rep) =~= nl);
}

// ---------------------------------------------------------------------------
// Executable helpers
// ---------------------------------------------------------------------------

/// Appends one character to `s`.
///
/// Trusted: calls `String::push`, which std documents as appending the
/// character to the end of the string.
#[verifier::external_body]
pub(crate) fn push_char(s: &mut String, c: char)
    ensures
        final(s)@ == old(s)@.push(c),
{
    s.push(c);
}

/// Appends `t` to `s`.
pub fn push_str(s: &mut String, t: &str)
    ensures
        final(s)@ == old(s)@ + t@,
{
    s.append(t);
}

/// Appends the characters `v[from..to]` to `s`.
pub fn push_chars(s: &mut String, v: &Vec<char>, from: usize, to: usize)
    requires
        from <= to <= v@.len(),
    ensures
        final(s)@ == old(s)@ + v@.subrange(from as int, to as int),
{
    let mut i = from;
    while i < to
        invariant
            from <= i <= to <= v@.len(),
            s@ == old(s)@ + v@.subrange(from as int, i as int),
        decreases to - i,
    {
        push_char(s, v[i]);
        assert(v@.subrange(from as int, i + 1) =~= v@.subrange(from as int, i as int).push(v@[i as int]));
        i = i + 1;
    }
}

/// A vector holding the characters `v[from..to]`.
pub fn slice_of(v: &Vec<char>, from: usize, to: usize) -> (res: Vec<char>)
    requires
        from <= to <= v@.len(),
    ensures
        res@ == v@.subrange(from as int, to as int),
{
    let mut out: Vec<char> = Vec::new();
    let mut i = from;
    while i < to
        invariant
            from <= i <= to <= v@.len(),
            out@ == v@.subrange(from as int, i as int),
        decreases to - i,
    {
        out.push(v[i]);
        assert(v@.subrange(from as int, i + 1) =~= v@.subrange(from as int, i as int).push(v@[i as int]));
        i = i + 1;
    }
    out
}

/// A string holding the characters `v[from..to]`.
pub fn string_of(v: &Vec<char>, from: usize, to: usize) -> (res: String)
    requires
        from <= to <= v@.len(),
    ensures
        res@ == v@.subrange(from as int, to as int),
{
    let mut s = String::new();
    push_chars(&mut s, v, from, to);
    assert(s@ =~= v@.subrange(from as int, to as int));
    s
}

/// The characters of `s`, in order.
pub fn chars_of(s: &str) -> (res: Vec<char>)
    ensures
        res@ == s@,
{
    let mut out: Vec<char> = Vec::new();
    let mut it = s.chars();
    loop
        invariant
            it.remaining() == s@.skip(out@.len() as int),
            out@ == s@.take(out@.len() as int),
            out@.len() <= s@.len(),
        ensures
            out@ == s@,
        decreases s@.len() - out@.len(),
    {
        match it.next() {
            Some(c) => {
                assert(s@.skip(out@.len() as int).drop_first() =~= s@.skip(out@.len() as int + 1));
                out.push(c);
                assert(out@ =~= s@.take(out@.len() as int));
            },
            None => {
                assert(out@ =~= s@);
                break ;
            },
        }
    }
    out
}

/// Number of bytes in the UTF-8 encoding of `c`.
pub fn utf8_width(c: char) -> (w: usize)
    ensures
        w == char_width(c),
        1 <= w <= 4,
{
    let v = c as u32;
    proof {
        broadcast use char_is_scalar;

        assert(is_scalar(c as u32));
    }
    if v < 0x80 {
        1
    } else if v < 0x800 {
        2
    } else if v < 0x10000 {
        3
    } else {
        4
    }
}

/// Whether the UTF-8 encoding of `v` is longer than `limit` bytes.
pub fn byte_len_exceeds(v: &Vec<char>, limit: usize) -> (res: bool)
    ensures
        res == (byte_len(v@) > limit),
{
    let mut total: usize = 0;
    let mut i: usize = 0;
    while i < v.len()
        invariant
            i <= v@.len(),
            total == byte_len(v@.take(i as int)),
            total <= limit,
        decreases v@.len() - i,
    {
        let w = utf8_width(v[i]);
        proof {
            assert(v@.take(i + 1) =~= v@.take(i as int).push(v@[i as int]));
            lemma_byte_len_push(v@.take(i as int), v@[i as int]);
        }
        if w > limit - total {
            proof {
                assert(v@ =~= v@.take(i + 1) + v@.skip(i + 1));
                lemma_byte_len_add(v@.take(i + 1), v@.skip(i + 1));
            }
            return true;
        }
        total = total + w;
        i = i + 1;
    }
    assert(v@.take(i as int) =~= v@);
    false
}

/// Whether `p` occurs in `s` at index `i`.
pub fn occurs_at_exec(s: &Vec<char>, p: &Vec<char>, i: usize) -> (res: bool)
    ensures
        res == occurs_at(s@, p@, i as int),
{
    if i > s.len() || p.len() > s.len() - i {
        return false;
    }
    let mut j: usize = 0;
    while j < p.len()
        invariant
            i + p@.len() <= s@.len(),
            j <= p@.len(),
            s@.len() == s.len(),
            forall|k: int| 0 <= k < j ==> s@[i + k] == p@[k],
        decreases p@.len() - j,
    {
        if s[i + j] != p[j] {
            assert(s@.subrange(i as int, i + p@.len())[j as int] != p@[j as int]);
            return false;
        }
        j = j + 1;
    }
    assert(s@.subrange(i as int, i + p@.len()) =~= p@);
    true
}

/// Whether `s` starts with `p`.
pub fn starts_with_exec(s: &Vec<char>, p: &Vec<char>) -> (res: bool)
    ensures
        res == starts_with(s@, p@),
{
    let r = occurs_at_exec(s, p, 0);
    assert(s@.take(p@.len() as int) =~= s@.subrange(0, p@.len() as int));
    r
}

/// Whether `s` ends with `p`.
pub fn ends_with_exec(s: &Vec<char>, p: &Vec<char>) -> (res: bool)
    ensures
        res == ends_with(s@, p@),
{
    if p.len() > s.len() {
        return false;
    }
    let r = occurs_at_exec(s, p, s.len() - p.len());
    assert(s@.skip(s@.len() - p@.len()) =~= s@.subrange(s@.len() - p@.len(), s@.len() as int));
    r
}

/// Whether `p` occurs anywhere in `s`.
pub fn contains_exec(s: &Vec<char>, p: &Vec<char>) -> (res: bool)
    ensures
        res == contains(s@, p@),
{
    if p.len() > s.len() {
        assert forall|i: int| !occurs_at(s@, p@, i) by {}
        return false;
    }
    let last = s.len() - p.len();
    let mut i: usize = 0;
    while i < last
        invariant
            last == s@.len() - p@.len(),
            i <= last,
            forall|k: int| 0 <= k < i ==> !occurs_at(s@, p@, k),
        decreases last - i,
    {
        if occurs_at_exec(s, p, i) {
            return true;
        }
        i = i + 1;
    }
    if occurs_at_exec(s, p, last) {
        return true;
    }
    assert forall|k: int| !occurs_at(s@, p@, k) by {
        if 0 <= k && k + p@.len() <= s@.len() {
            assert(k <= last);
        }
    }
    false
}

/// `s` with every occurrence of the non-empty pattern `pat` replaced by `rep`,
/// scanning from left to right, as `str::replace` does.
pub fn replace_all(s: &str, pat: &str, rep: &str) -> (res: String)
    requires
        pat@.len() > 0,
    ensures
        res@ == replaced(s@, pat@, rep@),
{
    let sv = chars_of(s);
    let pv = chars_of(pat);
    let mut out = String::new();
    let mut i: usize = 0;
    assert(sv@.skip(0) =~= sv@);
    while i < sv.len()
        invariant
            pv@ == pat@,
            sv@ == s@,
            pat@.len() > 0,
            i <= sv@.len(),
            out@ + replaced(sv@.skip(i as int), pv@, rep@) == replaced(s@, pat@, rep@),
        decreases sv@.len() - i,
    {
        let ghost rest = sv@.skip(i as int);
        if occurs_at_exec(&sv, &pv, i) {
            assert(rest.take(pv@.len() as int) =~= sv@.subrange(i as int, i + pv@.len()));
            assert(starts_with(rest, pv@));
            assert(rest.skip(pv@.len() as int) =~= sv@.skip(i + pv@.len()));
            let ghost before = out@;
            push_str(&mut out, rep);
            assert(out@ + replaced(sv@.skip(i + pv@.len()), pv@, rep@) =~= before + (rep@
                + replaced(rest.skip(pv@.len() as int), pv@, rep@)));
            i = i + pv.len();
        } else {
            assert(!starts_with(rest, pv@)) by {
                if pv@.len() <= rest.len() {
                    assert(rest.take(pv@.len() as int) =~= sv@.subrange(i as int, i + pv@.len()));
                }
            }
            assert(rest.drop_first() =~= sv@.skip(i + 1));
            assert(rest[0] == sv@[i as int]);
            let ghost before = out@;
            push_char(&mut out, sv[i]);
            assert(out@ + replaced(sv@.skip(i + 1), pv@, rep@) =~= before + (seq![rest[0]]
                + replaced(rest.drop_first(), pv@, rep@)));
            i = i + 1;
        }
    }
    assert(sv@.skip(i as int) =~= Seq::<char>::empty());
    assert(out@ + Seq::<char>::empty() =~= out@);
    out
}

/// The lines of `s`, as `str::lines` yields them.
pub fn split_lines(s: &Vec<char>) -> (res: Vec<Vec<char>>)
    ensures
        res@.map_values(|l: Vec<char>| l@) == lines_of(s@),
{
    let mut out: Vec<Vec<char>> = Vec::new();
    let mut cur: Vec<char> = Vec::new();
    let mut i: usize = 0;
    assert(s@.skip(0) =~= s@);
    assert(out@.map_values(|l: Vec<char>| l@) =~= Seq::<Seq<char>>::empty());
    while i < s.len()
        invariant
            i <= s@.len(),
            out@.map_values(|l: Vec<char>| l@) + lines_from(s@.skip(i as int), cur@) == lines_of(
                s@,
            ),
        decreases s@.len() - i,
    {
        let c = s[i];
        let ghost rest = s@.skip(i as int);
        let ghost old_cur = cur@;
        let ghost before = out@.map_values(|l: Vec<char>| l@);
        assert(rest[0] == c);
        assert(rest.drop_first() =~= s@.skip(i + 1));
        if c == '\n' {
            let mut line = cur;
            if line.len() > 0 && line[line.len() - 1] == '\r' {
                line.pop();
            }
            assert(line@ == strip_cr(old_cur)) by {
                if old_cur.len() > 0 && old_cur.last() == '\r' {
                    assert(line@ =~= old_cur.drop_last());
                }
            }
            out.push(line);
            cur = Vec::new();
            assert(out@.map_values(|l: Vec<char>| l@) =~= before + seq![strip_cr(old_cur)]);
            assert(cur@ =~= Seq::<char>::empty());
            assert(lines_from(rest, old_cur) == seq![strip_cr(old_cur)] + lines_from(
                s@.skip(i + 1),
                cur@,
            ));
            assert(out@.map_values(|l: Vec<char>| l@) + lines_from(s@.skip(i + 1), cur@)
                =~= before + lines_from(rest, old_cur));
        } else {
            cur.push(c);
            assert(lines_from(rest, old_cur) == lines_from(s@.skip(i + 1), cur@));
        }
        i = i + 1;
    }
    assert(s@.skip(i as int) =~= Seq::<char>::empty());
    let ghost before = out@.map_values(|l: Vec<char>| l@);
    if cur.len() > 0 {
        let ghost c = cur@;
        out.push(cur);
        assert(out@.map_values(|l: Vec<char>| l@) =~= before + seq![c]);
    } else {
        assert(before + Seq::<Seq<char>>::empty() =~= before);
    }
    out
}

} // verus!
