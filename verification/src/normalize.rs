use vstd::prelude::*;

use vstd::utf8::encode_utf8;

use crate::chars::{
    chars_of, is_ws, join, join_chars, lemma_join_empty, lemma_join_push, lemma_word_len_bounds,
    string_of, word_len, words, words_of,
};
use crate::extract::ExtractedDocument;

verus! {

/// A paragraph break in normalized text: the byte offset at which the
/// `"\n\n"` separator before a paragraph starts.
#[derive(Debug, Clone, PartialEq, Eq)]
pub struct Boundary {
    pub byte_index: usize,
}

/// Cleaned text: one paragraph per block, paragraphs separated by `"\n\n"`.
#[derive(Debug, Clone, PartialEq, Eq)]
pub struct NormalizedDocument {
    pub text: String,
    pub paragraph_boundaries: Vec<Boundary>,
}

/// A space or a tab.
pub open spec fn is_blank(c: char) -> bool {
    c == ' ' || c == '\t'
}

/// The first position at or after `i` that does not hold a space or a tab.
pub open spec fn skip_blanks(s: Seq<char>, i: int) -> int
    decreases s.len() - i,
{
    if 0 <= i < s.len() && is_blank(s[i]) {
        skip_blanks(s, i + 1)
    } else {
        i
    }
}

/// Where a line break that starts at `i` ends, if one does: optional
/// spaces and tabs, then `"\r\n"`, `"\r"` or `"\n"`.
pub open spec fn line_break_end(s: Seq<char>, i: int) -> Option<int> {
    let k = skip_blanks(s, i);
    let k1 = if 0 <= k < s.len() && s[k] == '\r' { k + 1 } else { k };
    let k2 = if 0 <= k1 < s.len() && s[k1] == '\n' { k1 + 1 } else { k1 };
    if k2 > k { Some(k2) } else { None }
}

/// The text from position `i` on, with every hyphen that ends a line joined
/// to the next line: the hyphen, the line break and the spaces and tabs
/// around it are removed.
pub open spec fn dehyphenate_from(s: Seq<char>, i: int) -> Seq<char>
    decreases s.len() - i,
{
    if i < 0 || i >= s.len() {
        seq![]
    } else if s[i] == '-' && line_break_end(s, i + 1) is Some {
        let j = skip_blanks(s, line_break_end(s, i + 1)->0);
        proof {
            lemma_skip_blanks_bounds(s, i + 1);
            lemma_skip_blanks_bounds(s, line_break_end(s, i + 1)->0);
        }
        dehyphenate_from(s, j)
    } else {
        seq![s[i]] + dehyphenate_from(s, i + 1)
    }
}

pub open spec fn dehyphenate(s: Seq<char>) -> Seq<char> {
    dehyphenate_from(s, 0)
}

pub proof fn lemma_skip_blanks_bounds(s: Seq<char>, i: int)
    ensures
        skip_blanks(s, i) >= i,
        0 <= i <= s.len() ==> skip_blanks(s, i) <= s.len(),
        forall|j: int| i <= j < skip_blanks(s, i) ==> is_blank(#[trigger] s[j]),
        0 <= skip_blanks(s, i) < s.len() ==> !is_blank(s[skip_blanks(s, i)]),
    decreases s.len() - i,
{
    if 0 <= i < s.len() && is_blank(s[i]) {
        lemma_skip_blanks_bounds(s, i + 1);
    }
}

/// The first position at or after `i` in `s` that is not a space or a tab.
fn skip_blanks_exec(s: &[char], i: usize) -> (j: usize)
    requires
        i <= s@.len(),
    ensures
        j as int == skip_blanks(s@, i as int),
{
    let mut j = i;
    while j < s.len() && (s[j] == ' ' || s[j] == '\t')
        invariant
            i <= j <= s@.len(),
            skip_blanks(s@, i as int) == skip_blanks(s@, j as int),
        decreases s@.len() - j,
    {
        j += 1;
    }
    j
}

/// Joins words split across lines by a hyphen: `"hyphen-\nated"` becomes
/// `"hyphenated"`.
fn join_hyphenated_line_breaks(s: &[char]) -> (out: Vec<char>)
    ensures
        out@ == dehyphenate(s@),
{
    let mut out: Vec<char> = Vec::new();
    let mut i: usize = 0;
    while i < s.len()
        invariant
            i <= s@.len(),
            dehyphenate(s@) == out@ + dehyphenate_from(s@, i as int),
        decreases s@.len() - i,
    {
        let ch = s[i];
        if ch == '-' {
            let k = skip_blanks_exec(s, i + 1);
            let mut k2 = k;
            if k2 < s.len() && s[k2] == '\r' {
                k2 += 1;
            }
            if k2 < s.len() && s[k2] == '\n' {
                k2 += 1;
            }
            if k2 > k {
                proof {
                    lemma_skip_blanks_bounds(s@, i + 1);
                }
                let j = skip_blanks_exec(s, k2);
                proof {
                    lemma_skip_blanks_bounds(s@, k2 as int);
                }
                i = j;
                continue;
            }
        }
        out.push(ch);
        assert(dehyphenate(s@) =~= out@ + dehyphenate_from(s@, i + 1));
        i += 1;
    }
    assert(dehyphenate_from(s@, i as int) =~= Seq::<char>::empty());
    out
}


/// A line ends at `'\n'` or `'\r'`.
pub open spec fn is_line_sep(c: char) -> bool {
    c == '\n' || c == '\r'
}

/// Number of leading characters of `s` before the first line separator.
pub open spec fn line_len(s: Seq<char>) -> nat
    decreases s.len(),
{
    if s.len() == 0 || is_line_sep(s[0]) {
        0
    } else {
        1 + line_len(s.drop_first())
    }
}

/// The pieces of `s` between line separators, empty pieces included
/// (what `str::split` on `'\n'` or `'\r'` yields).
pub open spec fn split_lines(s: Seq<char>) -> Seq<Seq<char>>
    decreases s.len(),
{
    let n = line_len(s);
    proof {
        lemma_line_len_bounds(s);
    }
    if n >= s.len() {
        seq![s]
    } else {
        seq![s.take(n as int)] + split_lines(s.skip(n as int + 1))
    }
}

/// The words of `line` separated by single spaces.
pub open spec fn collapse(line: Seq<char>) -> Seq<char> {
    join(words(line), seq![' '])
}

/// The paragraphs of a document: its lines after joining hyphenated line
/// breaks, each with its whitespace collapsed, empty ones left out.
pub open spec fn paragraphs(input: Seq<char>) -> Seq<Seq<char>> {
    collapsed_lines(split_lines(dehyphenate(input)))
}

/// Each of `lines` with its whitespace collapsed, those that end up empty
/// left out.
pub open spec fn collapsed_lines(lines: Seq<Seq<char>>) -> Seq<Seq<char>>
    decreases lines.len(),
{
    if lines.len() == 0 {
        seq![]
    } else {
        let rest = collapsed_lines(lines.drop_last());
        let c = collapse(lines.last());
        if c.len() > 0 {
            rest.push(c)
        } else {
            rest
        }
    }
}

/// What separates two paragraphs in normalized text.
pub open spec fn paragraph_separator() -> Seq<char> {
    seq!['\n', '\n']
}

/// Normalized text: the paragraphs joined by blank lines.
pub open spec fn normalized_text(input: Seq<char>) -> Seq<char> {
    join(paragraphs(input), paragraph_separator())
}

/// A paragraph in normalized form: not empty, its words separated by single
/// spaces, with no other whitespace and none at either end.
pub open spec fn is_clean(p: Seq<char>) -> bool {
    &&& p.len() > 0
    &&& !is_ws(p[0])
    &&& !is_ws(p[p.len() - 1])
    &&& forall|i: int| 0 <= i < p.len() && is_ws(#[trigger] p[i]) ==> p[i] == ' ' && !is_ws(p[i + 1])
}

/// Every word of `s` is non-empty and holds no whitespace.
pub proof fn lemma_words_are_words(s: Seq<char>)
    ensures
        forall|k: int| 0 <= k < words(s).len() ==> (#[trigger] words(s)[k]).len() > 0,
        forall|k: int, j: int| 0 <= k < words(s).len() && 0 <= j < words(s)[k].len() ==> !is_ws(#[trigger] words(s)[k][j]),
    decreases s.len(),
{
    if s.len() == 0 {
    } else if is_ws(s[0]) {
        lemma_words_are_words(s.drop_first());
        assert(words(s) == words(s.drop_first()));
    } else {
        let n = word_len(s);
        lemma_word_len_bounds(s);
        lemma_words_are_words(s.skip(n as int));
        let rest = words(s.skip(n as int));
        assert(words(s) == seq![s.take(n as int)] + rest);
        assert forall|k: int, j: int| 0 <= k < words(s).len() && 0 <= j < words(s)[k].len() implies !is_ws(#[trigger] words(s)[k][j]) by {
            if k == 0 {
                assert(words(s)[0][j] == s[j]);
            } else {
                assert(words(s)[k] == rest[k - 1]);
                assert(!is_ws(rest[k - 1][j]));
            }
        }
        assert forall|k: int| 0 <= k < words(s).len() implies (#[trigger] words(s)[k]).len() > 0 by {
            if k > 0 {
                assert(words(s)[k] == rest[k - 1]);
                assert(rest[k - 1].len() > 0);
            }
        }
    }
}

/// Non-empty words without whitespace, joined by single spaces, give a
/// clean paragraph.
pub proof fn lemma_join_words_clean(parts: Seq<Seq<char>>)
    requires
        parts.len() > 0,
        forall|k: int| 0 <= k < parts.len() ==> (#[trigger] parts[k]).len() > 0,
        forall|k: int, j: int| 0 <= k < parts.len() && 0 <= j < parts[k].len() ==> !is_ws(#[trigger] parts[k][j]),
    ensures
        is_clean(join(parts, seq![' '])),
    decreases parts.len(),
{
    if parts.len() == 1 {
        let t = join(parts, seq![' ']);
        assert(t == parts[0]);
        assert forall|i: int| 0 <= i < t.len() implies !is_ws(#[trigger] t[i]) by {
            assert(!is_ws(parts[0][i]));
        }
    } else {
        let front = parts.drop_last();
        let last = parts.last();
        assert forall|k: int, j: int| 0 <= k < front.len() && 0 <= j < front[k].len() implies !is_ws(#[trigger] front[k][j]) by {
            assert(front[k] == parts[k]);
        }
        assert forall|k: int| 0 <= k < front.len() implies (#[trigger] front[k]).len() > 0 by {
            assert(front[k] == parts[k]);
        }
        lemma_join_words_clean(front);
        let a = join(front, seq![' ']);
        let t = join(parts, seq![' ']);
        assert(t == a + seq![' '] + last);
        assert(last.len() > 0);
        assert(!is_ws(last[last.len() - 1]));
        assert(!is_ws(last[0]));
        assert forall|i: int| 0 <= i < t.len() && is_ws(#[trigger] t[i]) implies t[i] == ' ' && !is_ws(t[i + 1]) by {
            if i < a.len() {
                assert(t[i] == a[i]);
                assert(is_ws(a[i]));
                assert(i + 1 < a.len());
                assert(t[i + 1] == a[i + 1]);
            } else if i == a.len() {
                assert(t[i + 1] == last[0]);
            } else {
                assert(t[i] == last[i - a.len() - 1]);
                assert(!is_ws(last[i - a.len() - 1]));
            }
        }
    }
}

/// Every paragraph that `collapsed_lines` keeps is clean.
pub proof fn lemma_collapsed_lines_clean(lines: Seq<Seq<char>>)
    ensures
        forall|k: int| 0 <= k < collapsed_lines(lines).len() ==> is_clean(#[trigger] collapsed_lines(lines)[k]),
    decreases lines.len(),
{
    if lines.len() > 0 {
        lemma_collapsed_lines_clean(lines.drop_last());
        let c = collapse(lines.last());
        if c.len() > 0 {
            let ws = words(lines.last());
            lemma_words_are_words(lines.last());
            if ws.len() == 0 {
                assert(c.len() == 0);
            }
            lemma_join_words_clean(ws);
            let rest = collapsed_lines(lines.drop_last());
            assert forall|k: int| 0 <= k < collapsed_lines(lines).len() implies is_clean(#[trigger] collapsed_lines(lines)[k]) by {
                if k < rest.len() {
                    assert(collapsed_lines(lines)[k] == rest[k]);
                }
            }
        }
    }
}

/// Normalization collapses whitespace: each paragraph of the normalized
/// text is non-empty and holds its words separated by single spaces, with
/// no tab, line break or other whitespace, and none at either end.
pub proof fn law_paragraphs_are_clean(input: Seq<char>)
    ensures
        forall|k: int| 0 <= k < paragraphs(input).len() ==> is_clean(#[trigger] paragraphs(input)[k]),
{
    lemma_collapsed_lines_clean(split_lines(dehyphenate(input)));
}

/// No hyphen of `s` is followed, after spaces or tabs, by a line break.
pub open spec fn hyphens_stay(s: Seq<char>) -> bool {
    forall|i: int| 0 <= i < s.len() && #[trigger] s[i] == '-' ==> {
        ||| i + 1 == s.len()
        ||| !is_ws(s[i + 1])
        ||| (s[i + 1] == ' ' && i + 2 < s.len() && !is_ws(s[i + 2]))
    }
}

/// Where no hyphen ends a line, joining hyphenated line breaks keeps the
/// text as it is.
pub proof fn lemma_dehyphenate_keeps(s: Seq<char>, i: int)
    requires
        hyphens_stay(s),
        0 <= i <= s.len(),
    ensures
        dehyphenate_from(s, i) == s.skip(i),
    decreases s.len() - i,
{
    if i < s.len() {
        if s[i] == '-' {
            if i + 1 == s.len() {
                assert(skip_blanks(s, i + 1) == i + 1);
            } else if !is_ws(s[i + 1]) {
                assert(skip_blanks(s, i + 1) == i + 1);
            } else {
                assert(skip_blanks(s, i + 2) == i + 2);
                assert(skip_blanks(s, i + 1) == i + 2);
            }
            assert(line_break_end(s, i + 1) is None);
        }
        lemma_dehyphenate_keeps(s, i + 1);
        assert(dehyphenate_from(s, i) =~= s.skip(i));
    } else {
        assert(s.skip(i) =~= Seq::<char>::empty());
    }
}

/// A clean paragraph has no hyphen at a line end.
pub proof fn lemma_clean_hyphens_stay(p: Seq<char>)
    requires
        is_clean(p),
    ensures
        hyphens_stay(p),
{
    assert forall|i: int| 0 <= i < p.len() && #[trigger] p[i] == '-' implies {
        ||| i + 1 == p.len()
        ||| !is_ws(p[i + 1])
        ||| (p[i + 1] == ' ' && i + 2 < p.len() && !is_ws(p[i + 2]))
    } by {
        if i + 1 < p.len() && is_ws(p[i + 1]) {
            assert(i + 1 != p.len() - 1);
        }
    }
}

/// The last character of joined parts is that of the last part.
pub proof fn lemma_join_last(parts: Seq<Seq<char>>, sep: Seq<char>)
    requires
        parts.len() > 0,
        parts.last().len() > 0,
    ensures
        join(parts, sep).len() > 0,
        join(parts, sep).last() == parts.last().last(),
{
}

/// Clean paragraphs joined by blank lines keep their hyphens, provided
/// none but the last ends with one.
pub proof fn lemma_join_hyphens_stay(paras: Seq<Seq<char>>)
    requires
        forall|k: int| 0 <= k < paras.len() ==> is_clean(#[trigger] paras[k]),
        forall|k: int| 0 <= k < paras.len() - 1 ==> (#[trigger] paras[k]).last() != '-',
    ensures
        hyphens_stay(join(paras, paragraph_separator())),
    decreases paras.len(),
{
    if paras.len() == 1 {
        assert(is_clean(paras[0]));
        lemma_clean_hyphens_stay(paras[0]);
    } else if paras.len() > 1 {
        let front = paras.drop_last();
        let last = paras.last();
        assert forall|k: int| 0 <= k < front.len() implies is_clean(#[trigger] front[k]) by {
            assert(front[k] == paras[k]);
        }
        assert forall|k: int| 0 <= k < front.len() - 1 implies (#[trigger] front[k]).last() != '-' by {
            assert(front[k] == paras[k]);
        }
        lemma_join_hyphens_stay(front);
        assert(is_clean(paras[paras.len() - 1]));
        assert(is_clean(front[front.len() - 1]));
        assert(front.last().last() != '-');
        lemma_join_last(front, paragraph_separator());
        lemma_clean_hyphens_stay(last);
        let a = join(front, paragraph_separator());
        let t = join(paras, paragraph_separator());
        assert(t == a + paragraph_separator() + last);
        assert forall|i: int| 0 <= i < t.len() && #[trigger] t[i] == '-' implies {
            ||| i + 1 == t.len()
            ||| !is_ws(t[i + 1])
            ||| (t[i + 1] == ' ' && i + 2 < t.len() && !is_ws(t[i + 2]))
        } by {
            if i < a.len() {
                assert(t[i] == a[i]);
                assert(i != a.len() - 1);
                assert(t[i + 1] == a[i + 1]);
                if i + 2 < a.len() {
                    assert(t[i + 2] == a[i + 2]);
                }
            } else if i >= a.len() + 2 {
                let j = i - a.len() - 2;
                assert(t[i] == last[j]);
                if j + 1 < last.len() {
                    assert(t[i + 1] == last[j + 1]);
                }
                if j + 2 < last.len() {
                    assert(t[i + 2] == last[j + 2]);
                }
            }
        }
    }
}

/// Splitting at a line break splits the two sides separately.
pub proof fn lemma_split_lines_at(a: Seq<char>, b: Seq<char>)
    ensures
        split_lines(a + seq!['\n'] + b) == split_lines(a) + split_lines(b),
    decreases a.len(),
{
    let s = a + seq!['\n'] + b;
    lemma_line_len_bounds(a);
    let n = line_len(a) as int;
    assert forall|j: int| 0 <= j < n implies !is_line_sep(#[trigger] s[j]) by {
        assert(s[j] == a[j]);
    }
    if n < a.len() {
        assert(s[n] == a[n]);
        lemma_line_len_exact(s, n);
        assert(s.skip(n + 1) =~= a.skip(n + 1) + seq!['\n'] + b);
        lemma_split_lines_at(a.skip(n + 1), b);
        assert(s.take(n) =~= a.take(n));
        assert(split_lines(s) =~= split_lines(a) + split_lines(b));
    } else {
        lemma_line_len_exact(s, n);
        assert(s.take(n) =~= a);
        assert(s.skip(n + 1) =~= b);
        assert(split_lines(s) =~= split_lines(a) + split_lines(b));
    }
}

/// Text without line separators is a single line.
pub proof fn lemma_split_lines_single(p: Seq<char>)
    requires
        forall|j: int| 0 <= j < p.len() ==> !is_line_sep(#[trigger] p[j]),
    ensures
        split_lines(p) == seq![p],
{
    lemma_line_len_exact(p, p.len() as int);
}

/// `collapsed_lines` works line by line.
pub proof fn lemma_collapsed_lines_append(l1: Seq<Seq<char>>, l2: Seq<Seq<char>>)
    ensures
        collapsed_lines(l1 + l2) == collapsed_lines(l1) + collapsed_lines(l2),
    decreases l2.len(),
{
    if l2.len() == 0 {
        assert(l1 + l2 =~= l1);
        assert(collapsed_lines(l1) + collapsed_lines(l2) =~= collapsed_lines(l1));
    } else {
        assert((l1 + l2).drop_last() =~= l1 + l2.drop_last());
        assert((l1 + l2).last() == l2.last());
        lemma_collapsed_lines_append(l1, l2.drop_last());
        let c = collapse(l2.last());
        if c.len() > 0 {
            assert(collapsed_lines(l1 + l2) =~= collapsed_lines(l1) + collapsed_lines(l2));
        }
    }
}

/// Joining `x` in front of non-empty `rest`.
pub proof fn lemma_join_prepend(x: Seq<char>, rest: Seq<Seq<char>>, sep: Seq<char>)
    requires
        rest.len() > 0,
    ensures
        join(seq![x] + rest, sep) == x + sep + join(rest, sep),
    decreases rest.len(),
{
    let all = seq![x] + rest;
    assert(all.drop_last() =~= seq![x] + rest.drop_last());
    assert(all.last() == rest.last());
    if rest.len() == 1 {
        assert(seq![x] + rest.drop_last() =~= seq![x]);
        assert(join(seq![x], sep) == x);
        assert(join(rest, sep) == rest[0]);
        assert(join(all, sep) == join(seq![x], sep) + sep + rest[0]);
    } else {
        lemma_join_prepend(x, rest.drop_last(), sep);
        assert(join(all, sep) =~= x + sep + join(rest, sep));
    }
}

/// A clean paragraph is its own collapsed form.
pub proof fn lemma_collapse_clean(p: Seq<char>)
    requires
        is_clean(p),
    ensures
        collapse(p) == p,
    decreases p.len(),
{
    lemma_word_len_bounds(p);
    let n = word_len(p) as int;
    assert(words(p) == seq![p.take(n)] + words(p.skip(n)));
    if n == p.len() {
        assert(p.skip(n) =~= Seq::<char>::empty());
        assert(words(p.skip(n)).len() == 0);
        assert(p.take(n) =~= p);
        assert(words(p) =~= seq![p]);
    } else {
        assert(is_ws(p[n]));
        let q = p.skip(n);
        let r = p.skip(n + 1);
        assert(q.drop_first() =~= r);
        assert(words(q) == words(r));
        assert(n + 1 < p.len());
        assert forall|i: int| 0 <= i < r.len() && is_ws(#[trigger] r[i]) implies r[i] == ' ' && !is_ws(r[i + 1]) by {
            assert(r[i] == p[n + 1 + i]);
            assert(is_ws(p[n + 1 + i]));
            assert(r[i + 1] == p[n + 1 + i + 1]);
        }
        assert(r[r.len() - 1] == p[p.len() - 1]);
        lemma_collapse_clean(r);
        assert(words(r).len() > 0) by {
            if words(r).len() == 0 {
                assert(join(words(r), seq![' ']) =~= Seq::<char>::empty());
            }
        }
        lemma_join_prepend(p.take(n), words(r), seq![' ']);
        assert(collapse(p) =~= p);
    }
}

/// Splitting clean paragraphs joined by blank lines into lines, and
/// collapsing them, gives back the paragraphs.
pub proof fn lemma_resplit(paras: Seq<Seq<char>>)
    requires
        forall|k: int| 0 <= k < paras.len() ==> is_clean(#[trigger] paras[k]),
    ensures
        collapsed_lines(split_lines(join(paras, paragraph_separator()))) == paras,
    decreases paras.len(),
{
    let empty = Seq::<char>::empty();
    assert(words(empty) =~= Seq::<Seq<char>>::empty());
    assert(collapse(empty) =~= empty);
    assert(collapsed_lines(seq![empty]) =~= Seq::<Seq<char>>::empty()) by {
        assert(seq![empty].drop_last() =~= Seq::<Seq<char>>::empty());
        assert(seq![empty].last() == empty);
        assert(collapsed_lines(Seq::<Seq<char>>::empty()) == Seq::<Seq<char>>::empty());
    }
    if paras.len() == 0 {
        lemma_split_lines_single(empty);
    } else {
        let last = paras.last();
        assert(is_clean(paras[paras.len() - 1]));
        assert forall|j: int| 0 <= j < last.len() implies !is_line_sep(#[trigger] last[j]) by {
            if is_ws(last[j]) {
                assert(last[j] == ' ');
            }
        }
        lemma_split_lines_single(last);
        lemma_collapse_clean(last);
        assert(collapsed_lines(seq![last]) =~= seq![last]) by {
            assert(seq![last].drop_last() =~= Seq::<Seq<char>>::empty());
            assert(seq![last].last() == last);
            assert(collapsed_lines(Seq::<Seq<char>>::empty()) == Seq::<Seq<char>>::empty());
            assert(collapse(last).len() > 0);
        }
        if paras.len() == 1 {
        } else {
            let front = paras.drop_last();
            assert forall|k: int| 0 <= k < front.len() implies is_clean(#[trigger] front[k]) by {
                assert(front[k] == paras[k]);
            }
            lemma_resplit(front);
            let a = join(front, paragraph_separator());
            let t = join(paras, paragraph_separator());
            assert(t =~= a + seq!['\n'] + (empty + seq!['\n'] + last));
            lemma_split_lines_at(a, empty + seq!['\n'] + last);
            lemma_split_lines_at(empty, last);
            assert(empty + seq!['\n'] + last =~= seq!['\n'] + last);
            lemma_split_lines_single(empty);
            let sa = split_lines(a);
            assert(split_lines(t) == sa + (seq![empty] + seq![last]));
            lemma_collapsed_lines_append(sa, seq![empty] + seq![last]);
            lemma_collapsed_lines_append(seq![empty], seq![last]);
            assert(collapsed_lines(split_lines(t)) =~= paras);
        }
    }
}

/// Normalizing normalized text changes nothing, provided no paragraph but
/// the last ends with a hyphen (such a hyphen would join its paragraph to
/// the next one).
pub proof fn law_normalize_idempotent(input: Seq<char>)
    requires
        forall|k: int| 0 <= k < paragraphs(input).len() - 1 ==> (#[trigger] paragraphs(input)[k]).last() != '-',
    ensures
        paragraphs(normalized_text(input)) == paragraphs(input),
        normalized_text(normalized_text(input)) == normalized_text(input),
{
    let paras = paragraphs(input);
    let t = normalized_text(input);
    law_paragraphs_are_clean(input);
    lemma_join_hyphens_stay(paras);
    lemma_dehyphenate_keeps(t, 0);
    assert(t.skip(0) =~= t);
    lemma_resplit(paras);
}

/// In joined paragraphs, every paragraph but the last is followed by a
/// line break: the returned position holds paragraph `k`'s last character
/// and the next one holds `'\n'`.
pub proof fn lemma_paragraph_end_in_join(paras: Seq<Seq<char>>, k: int) -> (i: int)
    requires
        0 <= k < paras.len() - 1,
        forall|j: int| 0 <= j < paras.len() ==> (#[trigger] paras[j]).len() > 0,
    ensures
        0 <= i,
        i + 1 < join(paras, paragraph_separator()).len(),
        join(paras, paragraph_separator())[i] == paras[k].last(),
        join(paras, paragraph_separator())[i + 1] == '\n',
    decreases paras.len(),
{
    let front = paras.drop_last();
    let a = join(front, paragraph_separator());
    let t = join(paras, paragraph_separator());
    assert(t == a + paragraph_separator() + paras.last());
    assert forall|j: int| 0 <= j < front.len() implies (#[trigger] front[j]).len() > 0 by {
        assert(front[j] == paras[j]);
    }
    if k == paras.len() - 2 {
        assert(front.last() == paras[k]);
        lemma_join_last(front, paragraph_separator());
        let i = a.len() - 1;
        assert(t[i] == a[i]);
        assert(t[i + 1] == '\n');
        i
    } else {
        let i = lemma_paragraph_end_in_join(front, k);
        assert(front[k] == paras[k]);
        assert(t[i] == a[i]);
        assert(t[i + 1] == a[i + 1]);
        i
    }
}

/// Normalizing normalized text changes nothing when that text holds no
/// hyphen directly before a line break.
pub proof fn law_normalize_idempotent_text(input: Seq<char>)
    requires
        forall|i: int| 0 <= i < normalized_text(input).len() - 1 ==> !(#[trigger] normalized_text(input)[i] == '-'
            && normalized_text(input)[i + 1] == '\n'),
    ensures
        paragraphs(normalized_text(input)) == paragraphs(input),
        normalized_text(normalized_text(input)) == normalized_text(input),
{
    let paras = paragraphs(input);
    let t = normalized_text(input);
    law_paragraphs_are_clean(input);
    assert forall|j: int| 0 <= j < paras.len() implies (#[trigger] paras[j]).len() > 0 by {
        assert(is_clean(paras[j]));
    }
    assert forall|k: int| 0 <= k < paras.len() - 1 implies (#[trigger] paras[k]).last() != '-' by {
        let i = lemma_paragraph_end_in_join(paras, k);
        assert(t[i] == paras[k].last());
    }
    law_normalize_idempotent(input);
}

/// Byte offsets, in the UTF-8 encoding of the joined text, of the separator
/// that precedes each paragraph after the first.
pub open spec fn boundary_offsets(paras: Seq<Seq<char>>) -> Seq<int> {
    Seq::new(
        if paras.len() == 0 { 0 } else { (paras.len() - 1) as nat },
        |k: int| encode_utf8(join(paras.take(k + 1), paragraph_separator())).len() as int,
    )
}

/// The boundaries `b` are those of the paragraphs `paras`.
pub open spec fn boundaries_match(b: Seq<Boundary>, paras: Seq<Seq<char>>) -> bool {
    &&& b.len() == boundary_offsets(paras).len()
    &&& forall|k: int| 0 <= k < b.len() ==> #[trigger] b[k].byte_index == boundary_offsets(paras)[k] as usize
}

pub proof fn lemma_line_len_bounds(s: Seq<char>)
    ensures
        line_len(s) <= s.len(),
        forall|k: int| 0 <= k < line_len(s) ==> !is_line_sep(#[trigger] s[k]),
        line_len(s) < s.len() ==> is_line_sep(s[line_len(s) as int]),
    decreases s.len(),
{
    if s.len() > 0 && !is_line_sep(s[0]) {
        lemma_line_len_bounds(s.drop_first());
        assert forall|k: int| 0 <= k < line_len(s) implies !is_line_sep(#[trigger] s[k]) by {
            if k > 0 {
                assert(s[k] == s.drop_first()[k - 1]);
            }
        }
    }
}

pub proof fn lemma_line_len_exact(s: Seq<char>, k: int)
    requires
        0 <= k <= s.len(),
        forall|j: int| 0 <= j < k ==> !is_line_sep(#[trigger] s[j]),
        k == s.len() || is_line_sep(s[k]),
    ensures
        line_len(s) == k,
    decreases k,
{
    if k > 0 {
        assert forall|j: int| 0 <= j < k - 1 implies !is_line_sep(#[trigger] s.drop_first()[j]) by {
            assert(s.drop_first()[j] == s[j + 1]);
        }
        if k < s.len() {
            assert(s.drop_first()[k - 1] == s[k]);
        }
        lemma_line_len_exact(s.drop_first(), k - 1);
    }
}

/// The words of `line` separated by single spaces.
fn collapse_inline_whitespace(line: &[char]) -> (out: Vec<char>)
    ensures
        out@ == collapse(line@),
{
    let ws = words_of(line);
    assert(ws@.map_values(|p: Vec<char>| p@) =~= words(line@));
    let sep = vec![' '];
    assert(sep@ =~= seq![' ']);
    join_chars(&ws, sep.as_slice())
}

/// Cleans `document`'s text; see `normalize_text`.
pub fn normalize(document: &ExtractedDocument) -> (res: NormalizedDocument)
    ensures
        res.text@ == normalized_text(document.text@),
        boundaries_match(res.paragraph_boundaries@, paragraphs(document.text@)),
{
    normalize_text(document.text.as_str())
}

/// Cleans raw text: joins hyphenated line breaks, collapses runs of
/// whitespace within each line, drops empty lines, and separates the
/// remaining lines (the paragraphs) by `"\n\n"`, recording where each
/// separator starts.
pub fn normalize_text(input: &str) -> (res: NormalizedDocument)
    ensures
        res.text@ == normalized_text(input@),
        boundaries_match(res.paragraph_boundaries@, paragraphs(input@)),
{
    let chars = chars_of(input);
    let joined = join_hyphenated_line_breaks(&chars);
    let ghost all_lines = split_lines(joined@);
    let ghost mut lines_done: Seq<Seq<char>> = seq![];
    let ghost mut paras: Seq<Seq<char>> = seq![];
    let mut text = String::new();
    let mut paragraph_boundaries: Vec<Boundary> = Vec::new();
    let sep = "\n\n";
    proof {
        reveal_strlit("\n\n");
        assert(sep@ =~= paragraph_separator());
        assert(joined@.skip(0) =~= joined@);
    }
    let mut i: usize = 0;
    loop
        invariant_except_break
            i <= joined@.len(),
            all_lines == lines_done + split_lines(joined@.skip(i as int)),
        invariant
            sep@ == paragraph_separator(),
            all_lines == split_lines(joined@),
            paras == collapsed_lines(lines_done),
            text@ == join(paras, paragraph_separator()),
            boundaries_match(paragraph_boundaries@, paras),
            forall|k: int| 0 <= k < paras.len() ==> #[trigger] paras[k].len() > 0,
        ensures
            lines_done == all_lines,
        decreases joined@.len() - i,
    {
        let ghost rest = joined@.skip(i as int);
        let start = i;
        let mut line: Vec<char> = Vec::new();
        while i < joined.len() && !(joined[i] == '\n' || joined[i] == '\r')
            invariant
                start <= i <= joined@.len(),
                line@ == joined@.subrange(start as int, i as int),
                forall|j: int| start <= j < i ==> !is_line_sep(#[trigger] joined@[j]),
            decreases joined@.len() - i,
        {
            line.push(joined[i]);
            i += 1;
        }
        proof {
            assert forall|j: int| 0 <= j < i - start implies !is_line_sep(#[trigger] rest[j]) by {
                assert(rest[j] == joined@[start + j]);
            }
            if i < joined@.len() {
                assert(rest[i - start] == joined@[i as int]);
            }
            lemma_line_len_exact(rest, i - start);
            assert(rest.take(i - start) =~= line@);
        }
        let para = collapse_inline_whitespace(line.as_slice());
        let ghost old_paras = paras;
        let ghost old_bounds = paragraph_boundaries@;
        proof {
            lemma_join_empty(old_paras, paragraph_separator());
            let old_lines = lines_done;
            lines_done = old_lines.push(line@);
            assert(lines_done.drop_last() =~= old_lines);
            if para@.len() > 0 {
                paras = old_paras.push(para@);
            }
            assert(paras == collapsed_lines(lines_done));
        }
        if para.len() > 0 {
            if !text.as_str().is_empty() {
                let byte_index = text.as_str().len();
                proof {
                    assert(paras.take(old_paras.len() as int) =~= old_paras);
                    assert(byte_index == boundary_offsets(paras)[old_paras.len() - 1] as usize);
                }
                paragraph_boundaries.push(Boundary { byte_index });
                text.append(sep);
            }
            let para_text = string_of(para.as_slice());
            text.append(para_text.as_str());
            proof {
                lemma_join_push(old_paras, para@, paragraph_separator());
                assert forall|k: int| 0 <= k < paragraph_boundaries@.len() implies
                    #[trigger] paragraph_boundaries@[k].byte_index == boundary_offsets(paras)[k] as usize by {
                    if k < old_paras.len() - 1 {
                        assert(paras.take(k + 1) =~= old_paras.take(k + 1));
                        assert(paragraph_boundaries@[k] == old_bounds[k]);
                        assert(old_bounds[k].byte_index == boundary_offsets(old_paras)[k] as usize);
                    }
                }
            }
        }
        if i >= joined.len() {
            proof {
                assert(split_lines(rest) =~= seq![line@]);
                assert(all_lines =~= lines_done);
            }
            break;
        }
        proof {
            assert(rest.skip(i - start + 1) =~= joined@.skip(i + 1));
            assert(all_lines =~= lines_done + split_lines(joined@.skip(i + 1)));
        }
        i += 1;
    }
    NormalizedDocument { text, paragraph_boundaries }
}

} // verus!
