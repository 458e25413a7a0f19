use vstd::prelude::*;

use crate::chars::{chars_of, string_of, words, words_of};
use crate::chars::{is_ws, join, lemma_word_len_bounds, word_len};
use crate::normalize::{
    collapse, collapsed_lines, dehyphenate, dehyphenate_from, lemma_line_len_bounds, lemma_skip_blanks_bounds,
    line_len, normalized_text, paragraph_separator, paragraphs, skip_blanks, split_lines, NormalizedDocument,
};

verus! {

/// One word-like display unit, with the index of the paragraph it came from.
#[derive(Debug, Clone, PartialEq, Eq)]
pub struct Token {
    pub text: String,
    pub paragraph_index: usize,
}

/// What `char::is_alphanumeric` answers for `c` (the Unicode `Alphabetic`
/// or `Numeric` properties).
pub uninterp spec fn spec_is_alphanumeric(c: char) -> bool;

/// An ASCII letter or digit.
pub open spec fn is_ascii_alphanumeric(c: char) -> bool {
    ('a' <= c && c <= 'z') || ('A' <= c && c <= 'Z') || ('0' <= c && c <= '9')
}

/// `char::is_alphanumeric`. Besides naming the result, the contract states
/// what std documents for ASCII: exactly the letters and digits are
/// alphanumeric there.
#[verifier::external_body]
pub(crate) fn is_alphanumeric(c: char) -> (res: bool)
    ensures
        res == spec_is_alphanumeric(c),
        c <= '\x7f' ==> (res <==> is_ascii_alphanumeric(c)),
{
    c.is_alphanumeric()
}

/// A word is readable when it holds at least one letter or digit.
pub open spec fn readable(w: Seq<char>) -> bool {
    exists|i: int| 0 <= i < w.len() && spec_is_alphanumeric(#[trigger] w[i])
}

/// Number of leading characters of `s` before the first `"\n\n"`.
pub open spec fn paragraph_len(s: Seq<char>) -> nat
    decreases s.len(),
{
    if s.len() < 2 {
        s.len()
    } else if s[0] == '\n' && s[1] == '\n' {
        0
    } else {
        1 + paragraph_len(s.drop_first())
    }
}

/// The pieces of `s` between occurrences of `"\n\n"`, found from the left
/// and not overlapping (what `str::split("\n\n")` yields).
pub open spec fn split_paragraphs(s: Seq<char>) -> Seq<Seq<char>>
    decreases s.len(),
{
    let n = paragraph_len(s);
    proof {
        lemma_paragraph_len_bounds(s);
    }
    if n >= s.len() {
        seq![s]
    } else {
        seq![s.take(n as int)] + split_paragraphs(s.skip(n as int + 2))
    }
}

/// The readable words of `ws`, each paired with the paragraph index `p`.
pub open spec fn word_tokens(ws: Seq<Seq<char>>, p: int) -> Seq<(Seq<char>, int)>
    decreases ws.len(),
{
    if ws.len() == 0 {
        seq![]
    } else {
        let rest = word_tokens(ws.drop_last(), p);
        if readable(ws.last()) {
            rest.push((ws.last(), p))
        } else {
            rest
        }
    }
}

/// The tokens of the paragraphs `paras`, in order.
pub open spec fn paragraph_tokens(paras: Seq<Seq<char>>) -> Seq<(Seq<char>, int)>
    decreases paras.len(),
{
    if paras.len() == 0 {
        seq![]
    } else {
        paragraph_tokens(paras.drop_last()) + word_tokens(
            words(paras.last()),
            paras.len() - 1,
        )
    }
}

/// The tokens of a text: the readable whitespace-separated words of each
/// `"\n\n"`-separated paragraph, with that paragraph's index.
pub open spec fn text_tokens(text: Seq<char>) -> Seq<(Seq<char>, int)> {
    paragraph_tokens(split_paragraphs(text))
}

/// The tokens `ts` are, one for one, the specified tokens `spec`.
pub open spec fn tokens_match(ts: Seq<Token>, spec: Seq<(Seq<char>, int)>) -> bool {
    &&& ts.len() == spec.len()
    &&& forall|k: int|
        0 <= k < ts.len() ==> (#[trigger] ts[k]).text@ == spec[k].0
            && ts[k].paragraph_index as int == spec[k].1
}

pub proof fn lemma_paragraph_len_bounds(s: Seq<char>)
    ensures
        paragraph_len(s) <= s.len(),
        paragraph_len(s) < s.len() ==> paragraph_len(s) + 2 <= s.len() && s[paragraph_len(
            s,
        ) as int] == '\n' && s[paragraph_len(s) as int + 1] == '\n',
        forall|k: int|
            0 <= k < paragraph_len(s) && k + 1 < s.len() ==> !(#[trigger] s[k] == '\n' && s[k + 1]
                == '\n'),
    decreases s.len(),
{
    if s.len() >= 2 && !(s[0] == '\n' && s[1] == '\n') {
        let t = s.drop_first();
        lemma_paragraph_len_bounds(t);
        assert forall|k: int|
            0 <= k < paragraph_len(s) && k + 1 < s.len() implies !(#[trigger] s[k] == '\n' && s[k
                + 1] == '\n') by {
            if k > 0 {
                assert(s[k] == t[k - 1] && s[k + 1] == t[k]);
            }
        }
        if paragraph_len(s) < s.len() {
            assert(s[paragraph_len(s) as int] == t[paragraph_len(t) as int]);
            assert(s[paragraph_len(s) as int + 1] == t[paragraph_len(t) as int + 1]);
        }
    }
}

pub proof fn lemma_paragraph_len_exact(s: Seq<char>, k: int)
    requires
        0 <= k <= s.len(),
        forall|j: int| 0 <= j < k && j + 1 < s.len() ==> !(#[trigger] s[j] == '\n' && s[j + 1] == '\n'),
        k == s.len() || (k + 1 < s.len() && s[k] == '\n' && s[k + 1] == '\n'),
    ensures
        paragraph_len(s) == k,
    decreases k,
{
    if k > 0 {
        if s.len() >= 2 {
            let t = s.drop_first();
            assert(!(s[0] == '\n' && s[1] == '\n'));
            assert forall|j: int| 0 <= j < k - 1 && j + 1 < t.len() implies !(#[trigger] t[j] == '\n'
                && t[j + 1] == '\n') by {
                assert(t[j] == s[j + 1] && t[j + 1] == s[j + 2]);
            }
            if k < s.len() {
                assert(t[k - 1] == s[k] && t[k] == s[k + 1]);
            }
            lemma_paragraph_len_exact(t, k - 1);
        }
    }
}

/// Whether `w` holds a letter or a digit.
fn has_readable_character(w: &[char]) -> (res: bool)
    ensures
        res == readable(w@),
{
    let mut i: usize = 0;
    while i < w.len()
        invariant
            i <= w@.len(),
            forall|j: int| 0 <= j < i ==> !spec_is_alphanumeric(#[trigger] w@[j]),
        decreases w@.len() - i,
    {
        if is_alphanumeric(w[i]) {
            return true;
        }
        i += 1;
    }
    false
}

/// Splits normalized text into tokens: each `"\n\n"`-separated paragraph
/// into its whitespace-separated words, keeping only words that hold a
/// letter or a digit. Punctuation stays attached to its word.
pub fn tokenize(document: &NormalizedDocument) -> (tokens: Vec<Token>)
    ensures
        tokens_match(tokens@, text_tokens(document.text@)),
{
    let s = chars_of(document.text.as_str());
    let ghost all = split_paragraphs(s@);
    let ghost mut done: Seq<Seq<char>> = seq![];
    let mut tokens: Vec<Token> = Vec::new();
    let mut paragraph_index: usize = 0;
    let mut i: usize = 0;
    assert(s@.skip(0) =~= s@);
    loop
        invariant_except_break
            i <= s@.len(),
            all == done + split_paragraphs(s@.skip(i as int)),
            paragraph_index == done.len(),
            paragraph_index <= i,
        invariant
            all == split_paragraphs(s@),
            tokens_match(tokens@, paragraph_tokens(done)),
        ensures
            done == all,
        decreases s@.len() - i,
    {
        let ghost rest = s@.skip(i as int);
        let start = i;
        while i < s.len() && !(i + 1 < s.len() && s[i] == '\n' && s[i + 1] == '\n')
            invariant
                start <= i <= s@.len(),
                forall|j: int|
                    start <= j < i && j + 1 < s@.len() ==> !(#[trigger] s@[j] == '\n' && s@[j + 1]
                        == '\n'),
            decreases s@.len() - i,
        {
            i += 1;
        }
        proof {
            assert forall|j: int| 0 <= j < i - start && j + 1 < rest.len() implies !(
            #[trigger] rest[j] == '\n' && rest[j + 1] == '\n') by {
                assert(rest[j] == s@[start + j] && rest[j + 1] == s@[start + j + 1]);
            }
            if i < s@.len() {
                assert(rest[i - start] == s@[i as int] && rest[i - start + 1] == s@[i + 1]);
            }
            lemma_paragraph_len_exact(rest, i - start);
        }
        let paragraph = vstd::slice::slice_subrange(s.as_slice(), start, i);
        proof {
            assert(rest.take(i - start) =~= paragraph@);
        }
        let ws = words_of(paragraph);
        let ghost before = tokens@;
        let mut k: usize = 0;
        while k < ws.len()
            invariant
                k <= ws@.len(),
                ws@.len() == words(paragraph@).len(),
                forall|m: int| 0 <= m < ws@.len() ==> #[trigger] ws@[m]@ == words(paragraph@)[m],
                tokens_match(
                    tokens@,
                    paragraph_tokens(done) + word_tokens(
                        words(paragraph@).take(k as int),
                        paragraph_index as int,
                    ),
                ),
            decreases ws@.len() - k,
        {
            proof {
                assert(words(paragraph@).take(k + 1).drop_last() =~= words(paragraph@).take(k as int));
            }
            if has_readable_character(ws[k].as_slice()) {
                let text = string_of(ws[k].as_slice());
                tokens.push(Token { text, paragraph_index });
            }
            k += 1;
        }
        proof {
            assert(words(paragraph@).take(k as int) =~= words(paragraph@));
            let old_done = done;
            done = done.push(paragraph@);
            assert(done.drop_last() =~= old_done);
        }
        if i >= s.len() {
            proof {
                assert(split_paragraphs(rest) =~= seq![paragraph@]);
                assert(all =~= done);
            }
            break;
        }
        proof {
            assert(rest.skip(i - start + 2) =~= s@.skip(i + 2));
            assert(all =~= done + split_paragraphs(s@.skip(i + 2)));
        }
        i += 2;
        paragraph_index += 1;
    }
    tokens
}


/// No character of `s` is `c`.
pub open spec fn free_of(s: Seq<char>, c: char) -> bool {
    forall|i: int| 0 <= i < s.len() ==> s[i] != c
}

pub proof fn lemma_words_have_no_whitespace(s: Seq<char>)
    ensures
        forall|k: int, i: int|
            0 <= k < words(s).len() && 0 <= i < words(s)[k].len() ==> !is_ws(#[trigger] words(s)[k][i]),
    decreases s.len(),
{
    if s.len() > 0 {
        if is_ws(s[0]) {
            lemma_words_have_no_whitespace(s.drop_first());
            assert(words(s) == words(s.drop_first()));
        } else {
            let n = word_len(s);
            lemma_word_len_bounds(s);
            lemma_words_have_no_whitespace(s.skip(n as int));
            assert forall|k: int, i: int|
                0 <= k < words(s).len() && 0 <= i < words(s)[k].len() implies !is_ws(#[trigger] words(s)[k][i]) by {
                if k == 0 {
                    assert(words(s)[0] == s.take(n as int));
                    assert(words(s)[0][i] == s[i]);
                } else {
                    assert(words(s)[k] == words(s.skip(n as int))[k - 1]);
                }
            }
        }
    }
}

pub proof fn lemma_join_free_of(parts: Seq<Seq<char>>, sep: Seq<char>, c: char)
    requires
        free_of(sep, c),
        forall|k: int| 0 <= k < parts.len() ==> free_of(#[trigger] parts[k], c),
    ensures
        free_of(join(parts, sep), c),
    decreases parts.len(),
{
    if parts.len() > 1 {
        lemma_join_free_of(parts.drop_last(), sep, c);
        assert(free_of(parts[parts.len() - 1], c));
    } else if parts.len() == 1 {
        assert(free_of(parts[0], c));
    }
}

/// Collapsed lines hold no line feed.
pub proof fn lemma_collapsed_lines_free_of_newline(lines: Seq<Seq<char>>)
    ensures
        forall|k: int| 0 <= k < collapsed_lines(lines).len() ==> free_of(#[trigger] collapsed_lines(lines)[k], '\n'),
        collapsed_lines(lines).len() <= lines.len(),
    decreases lines.len(),
{
    if lines.len() > 0 {
        lemma_collapsed_lines_free_of_newline(lines.drop_last());
        let l = lines.last();
        lemma_words_have_no_whitespace(l);
        assert forall|k: int| 0 <= k < words(l).len() implies free_of(#[trigger] words(l)[k], '\n') by {
            assert forall|i: int| 0 <= i < words(l)[k].len() implies words(l)[k][i] != '\n' by {
                assert(!is_ws(words(l)[k][i]));
            }
        }
        lemma_join_free_of(words(l), seq![' '], '\n');
    }
}

pub proof fn lemma_join_first(parts: Seq<Seq<char>>, sep: Seq<char>)
    requires
        parts.len() >= 2,
    ensures
        join(parts, sep) == parts[0] + sep + join(parts.drop_first(), sep),
    decreases parts.len(),
{
    if parts.len() == 2 {
        assert(parts.drop_last() =~= seq![parts[0]]);
        assert(parts.drop_first() =~= seq![parts[1]]);
        assert(join(parts.drop_last(), sep) == parts[0]);
        assert(join(parts.drop_first(), sep) == parts[1]);
        assert(join(parts, sep) == join(parts.drop_last(), sep) + sep + parts.last());
    } else {
        let a = parts.drop_last();
        let b = parts.drop_first();
        lemma_join_first(a, sep);
        assert(a[0] == parts[0]);
        assert(a.drop_first() =~= b.drop_last());
        assert(b.last() == parts.last());
        assert(join(parts, sep) == join(a, sep) + sep + parts.last());
        assert(join(b, sep) == join(b.drop_last(), sep) + sep + b.last());
        assert(join(parts, sep) =~= parts[0] + sep + join(b, sep));
    }
}

/// Splitting text joined with `"\n\n"` gives back the parts, provided no
/// part holds a line feed.
pub proof fn lemma_split_paragraphs_of_join(parts: Seq<Seq<char>>)
    requires
        parts.len() > 0,
        forall|k: int| 0 <= k < parts.len() ==> free_of(#[trigger] parts[k], '\n'),
    ensures
        split_paragraphs(join(parts, paragraph_separator())) == parts,
    decreases parts.len(),
{
    let sep = paragraph_separator();
    let p0 = parts[0];
    assert(free_of(p0, '\n'));
    if parts.len() == 1 {
        lemma_paragraph_len_exact(p0, p0.len() as int);
        assert(split_paragraphs(p0) =~= seq![p0]);
    } else {
        lemma_join_first(parts, sep);
        let rest = join(parts.drop_first(), sep);
        let t = p0 + sep + rest;
        assert forall|j: int| 0 <= j < p0.len() && j + 1 < t.len() implies !(#[trigger] t[j] == '\n'
            && t[j + 1] == '\n') by {
            assert(t[j] == p0[j]);
        }
        assert(t[p0.len() as int] == '\n' && t[p0.len() as int + 1] == '\n');
        lemma_paragraph_len_exact(t, p0.len() as int);
        assert(t.take(p0.len() as int) =~= p0);
        assert(t.skip(p0.len() as int + 2) =~= rest);
        assert forall|k: int| 0 <= k < parts.drop_first().len() implies free_of(
            #[trigger] parts.drop_first()[k],
            '\n',
        ) by {
            assert(parts.drop_first()[k] == parts[k + 1]);
        }
        lemma_split_paragraphs_of_join(parts.drop_first());
        assert(split_paragraphs(t) =~= parts);
    }
}

pub proof fn lemma_word_tokens_index(ws: Seq<Seq<char>>, p: int)
    ensures
        forall|k: int| 0 <= k < word_tokens(ws, p).len() ==> (#[trigger] word_tokens(ws, p)[k]).1 == p,
    decreases ws.len(),
{
    if ws.len() > 0 {
        lemma_word_tokens_index(ws.drop_last(), p);
        let rest = word_tokens(ws.drop_last(), p);
        assert forall|k: int| 0 <= k < word_tokens(ws, p).len() implies (#[trigger] word_tokens(
            ws,
            p,
        )[k]).1 == p by {
            if k < rest.len() {
                assert(word_tokens(ws, p)[k] == rest[k]);
            }
        }
    }
}

/// Every token of `paras` carries the index of a paragraph of `paras`.
pub proof fn lemma_paragraph_tokens_index(paras: Seq<Seq<char>>)
    ensures
        forall|k: int| 0 <= k < paragraph_tokens(paras).len() ==> 0 <= (
        #[trigger] paragraph_tokens(paras)[k]).1 < paras.len(),
    decreases paras.len(),
{
    if paras.len() > 0 {
        lemma_paragraph_tokens_index(paras.drop_last());
        let a = paragraph_tokens(paras.drop_last());
        let b = word_tokens(words(paras.last()), paras.len() - 1);
        lemma_word_tokens_index(words(paras.last()), paras.len() - 1);
        assert forall|k: int| 0 <= k < paragraph_tokens(paras).len() implies 0 <= (
        #[trigger] paragraph_tokens(paras)[k]).1 < paras.len() by {
            if k < a.len() {
                assert(paragraph_tokens(paras)[k] == a[k]);
            } else {
                assert(paragraph_tokens(paras)[k] == b[k - a.len()]);
            }
        }
    }
}

pub proof fn lemma_dehyphenate_len(s: Seq<char>, i: int)
    requires
        0 <= i,
    ensures
        dehyphenate_from(s, i).len() <= if i <= s.len() { s.len() - i } else { 0 },
    decreases s.len() - i,
{
    if i < s.len() {
        if s[i] == '-' && crate::normalize::line_break_end(s, i + 1) is Some {
            let j = skip_blanks(s, crate::normalize::line_break_end(s, i + 1)->0);
            lemma_skip_blanks_bounds(s, i + 1);
            lemma_skip_blanks_bounds(s, crate::normalize::line_break_end(s, i + 1)->0);
            lemma_dehyphenate_len(s, j);
        } else {
            lemma_dehyphenate_len(s, i + 1);
        }
    }
}

pub proof fn lemma_split_lines_len(s: Seq<char>)
    ensures
        split_lines(s).len() <= s.len() + 1,
    decreases s.len(),
{
    lemma_line_len_bounds(s);
    if line_len(s) < s.len() {
        lemma_split_lines_len(s.skip(line_len(s) as int + 1));
    }
}

/// The paragraph structure survives normalization: tokenizing normalized
/// text yields, in order, the readable words of each paragraph of the
/// document, each with the index of its paragraph.
pub proof fn law_tokens_follow_paragraphs(input: Seq<char>)
    ensures
        text_tokens(normalized_text(input)) == paragraph_tokens(paragraphs(input)),
        paragraphs(input).len() <= input.len() + 1,
{
    let ls = split_lines(dehyphenate(input));
    lemma_collapsed_lines_free_of_newline(ls);
    lemma_split_lines_len(dehyphenate(input));
    lemma_dehyphenate_len(input, 0);
    let ps = paragraphs(input);
    if ps.len() > 0 {
        lemma_split_paragraphs_of_join(ps);
    } else {
        let t = normalized_text(input);
        assert(t =~= Seq::<char>::empty());
        lemma_paragraph_len_exact(t, 0);
        assert(split_paragraphs(t) =~= seq![Seq::<char>::empty()]);
        assert(words(Seq::<char>::empty()) =~= Seq::<Seq<char>>::empty());
        let one = seq![Seq::<char>::empty()];
        assert(one.drop_last() =~= Seq::<Seq<char>>::empty());
        assert(one.last() == Seq::<char>::empty());
        assert(word_tokens(Seq::<Seq<char>>::empty(), 0) =~= Seq::<(Seq<char>, int)>::empty());
        assert(paragraph_tokens(one) == paragraph_tokens(one.drop_last()) + word_tokens(words(one.last()), 0));
        assert(paragraph_tokens(one) =~= Seq::<(Seq<char>, int)>::empty());
        assert(paragraph_tokens(ps) =~= Seq::<(Seq<char>, int)>::empty());
    }
}

/// The summed lengths of `parts`.
pub open spec fn total_len(parts: Seq<Seq<char>>) -> int
    decreases parts.len(),
{
    if parts.len() == 0 {
        0
    } else {
        total_len(parts.drop_last()) + parts.last().len()
    }
}

pub proof fn lemma_total_len_prepend(x: Seq<char>, rest: Seq<Seq<char>>)
    ensures
        total_len(seq![x] + rest) == x.len() + total_len(rest),
    decreases rest.len(),
{
    let all = seq![x] + rest;
    if rest.len() == 0 {
        assert(all.drop_last() =~= Seq::<Seq<char>>::empty());
        assert(all.last() == x);
        assert(total_len(Seq::<Seq<char>>::empty()) == 0);
    } else {
        assert(all.drop_last() =~= seq![x] + rest.drop_last());
        assert(all.last() == rest.last());
        lemma_total_len_prepend(x, rest.drop_last());
        assert(total_len(rest) == total_len(rest.drop_last()) + rest.last().len());
    }
}

pub proof fn lemma_total_len_nonneg(parts: Seq<Seq<char>>)
    ensures
        total_len(parts) >= 0,
    decreases parts.len(),
{
    if parts.len() > 0 {
        lemma_total_len_nonneg(parts.drop_last());
    }
}

/// The words of `s` and one separator between each two take no more room
/// than `s` itself.
pub proof fn lemma_words_room(s: Seq<char>)
    ensures
        words(s).len() > 0 ==> total_len(words(s)) + words(s).len() <= s.len() + 1,
        words(s).len() <= s.len(),
    decreases s.len(),
{
    if s.len() == 0 {
    } else if is_ws(s[0]) {
        lemma_words_room(s.drop_first());
    } else {
        let k = word_len(s) as int;
        lemma_word_len_bounds(s);
        let rest = s.skip(k);
        lemma_total_len_prepend(s.take(k), words(rest));
        lemma_total_len_nonneg(words(rest));
        if rest.len() == 0 {
            assert(words(rest).len() == 0);
        } else {
            assert(is_ws(rest[0]));
            assert(rest.drop_first() =~= s.skip(k + 1));
            lemma_words_room(s.skip(k + 1));
            assert(words(rest) == words(s.skip(k + 1)));
        }
    }
}

/// Joined parts are as long as the parts plus the separators.
pub proof fn lemma_join_len(parts: Seq<Seq<char>>, sep: Seq<char>)
    requires
        parts.len() > 0,
    ensures
        join(parts, sep).len() == total_len(parts) + (parts.len() - 1) * sep.len(),
    decreases parts.len(),
{
    if parts.len() == 1 {
        assert(parts.drop_last() =~= Seq::<Seq<char>>::empty());
        assert(total_len(Seq::<Seq<char>>::empty()) == 0);
        assert(parts.last() == parts[0]);
        assert(join(parts, sep) == parts[0]);
    } else {
        lemma_join_len(parts.drop_last(), sep);
        assert(join(parts, sep) == join(parts.drop_last(), sep) + sep + parts.last());
        assert((parts.len() - 1) * sep.len() == (parts.len() - 2) * sep.len() + sep.len()) by (nonlinear_arith);
    }
}

/// Collapsing whitespace never lengthens a line.
pub proof fn lemma_collapse_len(line: Seq<char>)
    ensures
        collapse(line).len() <= line.len(),
{
    lemma_words_room(line);
    assert(seq![' '].len() == 1);
    if words(line).len() > 0 {
        lemma_join_len(words(line), seq![' ']);
    } else {
        assert(join(words(line), seq![' ']).len() == 0);
    }
}

/// The kept, collapsed lines take no more room than the lines.
pub proof fn lemma_collapsed_lines_room(lines: Seq<Seq<char>>)
    ensures
        total_len(collapsed_lines(lines)) <= total_len(lines),
    decreases lines.len(),
{
    if lines.len() > 0 {
        lemma_collapsed_lines_room(lines.drop_last());
        lemma_collapse_len(lines.last());
        let rest = collapsed_lines(lines.drop_last());
        let c = collapse(lines.last());
        if c.len() > 0 {
            assert(rest.push(c).drop_last() =~= rest);
        }
    }
}

/// The lines of `s` take no more room than `s`.
pub proof fn lemma_split_lines_room(s: Seq<char>)
    ensures
        total_len(split_lines(s)) <= s.len(),
    decreases s.len(),
{
    lemma_line_len_bounds(s);
    let n = line_len(s) as int;
    if n >= s.len() {
        lemma_total_len_prepend(s, Seq::<Seq<char>>::empty());
        assert(seq![s] + Seq::<Seq<char>>::empty() =~= seq![s]);
        assert(total_len(Seq::<Seq<char>>::empty()) == 0);
    } else {
        lemma_split_lines_room(s.skip(n + 1));
        lemma_total_len_prepend(s.take(n), split_lines(s.skip(n + 1)));
        assert(split_lines(s) == seq![s.take(n)] + split_lines(s.skip(n + 1)));
    }
}

/// Each paragraph's readable words are at most its words.
pub proof fn lemma_word_tokens_len(ws: Seq<Seq<char>>, p: int)
    ensures
        word_tokens(ws, p).len() <= ws.len(),
    decreases ws.len(),
{
    if ws.len() > 0 {
        lemma_word_tokens_len(ws.drop_last(), p);
    }
}

/// The tokens of paragraphs are at most as many as their characters.
pub proof fn lemma_paragraph_tokens_room(paras: Seq<Seq<char>>)
    ensures
        paragraph_tokens(paras).len() <= total_len(paras),
    decreases paras.len(),
{
    if paras.len() > 0 {
        lemma_paragraph_tokens_room(paras.drop_last());
        lemma_words_room(paras.last());
        lemma_word_tokens_len(words(paras.last()), paras.len() - 1);
    }
}

/// A text never gives more tokens than it has characters.
pub proof fn lemma_token_count_bound(text: Seq<char>)
    ensures
        text_tokens(normalized_text(text)).len() <= text.len(),
{
    law_tokens_follow_paragraphs(text);
    let d = dehyphenate(text);
    lemma_dehyphenate_len(text, 0);
    lemma_split_lines_room(d);
    lemma_collapsed_lines_room(split_lines(d));
    lemma_paragraph_tokens_room(paragraphs(text));
}

/// The tokens `word_tokens(ws, p)` are the readable words of `ws`, each
/// paired with `p`.
pub proof fn lemma_word_tokens_members(ws: Seq<Seq<char>>, p: int)
    ensures
        forall|k: int| 0 <= k < word_tokens(ws, p).len() ==> {
            &&& (#[trigger] word_tokens(ws, p)[k]).1 == p
            &&& readable(word_tokens(ws, p)[k].0)
            &&& ws.contains(word_tokens(ws, p)[k].0)
        },
        forall|j: int| 0 <= j < ws.len() && readable(#[trigger] ws[j]) ==> word_tokens(ws, p).contains((ws[j], p)),
    decreases ws.len(),
{
    if ws.len() > 0 {
        let front = ws.drop_last();
        lemma_word_tokens_members(front, p);
        let rest = word_tokens(front, p);
        let wt = word_tokens(ws, p);
        assert forall|k: int| 0 <= k < wt.len() implies {
            &&& (#[trigger] wt[k]).1 == p
            &&& readable(wt[k].0)
            &&& ws.contains(wt[k].0)
        } by {
            if k < rest.len() {
                assert(wt[k] == rest[k]);
                let w = rest[k].0;
                let j = choose|j: int| 0 <= j < front.len() && front[j] == w;
                assert(ws[j] == w);
            } else {
                assert(wt[k] == (ws.last(), p));
                assert(ws[ws.len() - 1] == ws.last());
            }
        }
        assert forall|j: int| 0 <= j < ws.len() && readable(#[trigger] ws[j]) implies wt.contains((ws[j], p)) by {
            if j < front.len() {
                assert(front[j] == ws[j]);
                assert(readable(front[j]));
                let k = choose|k: int| 0 <= k < rest.len() && rest[k] == (front[j], p);
                if readable(ws.last()) {
                    assert(wt[k] == rest[k]);
                } else {
                    assert(wt[k] == rest[k]);
                }
            } else {
                assert(ws[j] == ws.last());
                assert(wt[wt.len() - 1] == (ws.last(), p));
            }
        }
    }
}

/// The tokens of `paras` are the readable words of each paragraph, paired
/// with the paragraph's index.
pub proof fn lemma_paragraph_tokens_members(paras: Seq<Seq<char>>)
    ensures
        forall|k: int| 0 <= k < paragraph_tokens(paras).len() ==> {
            &&& 0 <= (#[trigger] paragraph_tokens(paras)[k]).1 < paras.len()
            &&& readable(paragraph_tokens(paras)[k].0)
            &&& words(paras[paragraph_tokens(paras)[k].1]).contains(paragraph_tokens(paras)[k].0)
        },
        forall|q: int, j: int| 0 <= q < paras.len() && 0 <= j < words(paras[q]).len() && readable(
            #[trigger] words(paras[q])[j],
        ) ==> paragraph_tokens(paras).contains((words(paras[q])[j], q)),
    decreases paras.len(),
{
    if paras.len() > 0 {
        let front = paras.drop_last();
        lemma_paragraph_tokens_members(front);
        let q0 = paras.len() - 1;
        lemma_word_tokens_members(words(paras.last()), q0);
        let a = paragraph_tokens(front);
        let b = word_tokens(words(paras.last()), q0);
        let pt = paragraph_tokens(paras);
        assert(pt == a + b);
        assert forall|k: int| 0 <= k < pt.len() implies {
            &&& 0 <= (#[trigger] pt[k]).1 < paras.len()
            &&& readable(pt[k].0)
            &&& words(paras[pt[k].1]).contains(pt[k].0)
        } by {
            if k < a.len() {
                assert(pt[k] == a[k]);
                assert(front[a[k].1] == paras[a[k].1]);
            } else {
                assert(pt[k] == b[k - a.len()]);
                assert(paras[q0] == paras.last());
            }
        }
        assert forall|q: int, j: int| 0 <= q < paras.len() && 0 <= j < words(paras[q]).len() && readable(
            #[trigger] words(paras[q])[j],
        ) implies pt.contains((words(paras[q])[j], q)) by {
            let w = words(paras[q])[j];
            if q < front.len() {
                assert(front[q] == paras[q]);
                assert(words(front[q])[j] == w);
                let k = choose|k: int| 0 <= k < a.len() && a[k] == (words(front[q])[j], q);
                assert(pt[k] == a[k]);
            } else {
                assert(paras[q] == paras.last());
                assert(words(paras.last())[j] == w);
                let k = choose|k: int| 0 <= k < b.len() && b[k] == (words(paras.last())[j], q0);
                assert(pt[a.len() + k] == b[k]);
            }
        }
    }
}

/// Tokenizing keeps exactly the readable words: every token is a
/// whitespace-separated word of its paragraph (so punctuation stays
/// attached) that holds a letter or digit somewhere, and every word of a
/// paragraph that holds a letter or digit at any position, not only the
/// first, becomes a token with that paragraph's index.
pub proof fn law_tokens_are_readable_words(text: Seq<char>)
    ensures
        forall|k: int| 0 <= k < text_tokens(text).len() ==> {
            &&& 0 <= (#[trigger] text_tokens(text)[k]).1 < split_paragraphs(text).len()
            &&& words(split_paragraphs(text)[text_tokens(text)[k].1]).contains(text_tokens(text)[k].0)
            &&& exists|i: int| 0 <= i < text_tokens(text)[k].0.len()
                && spec_is_alphanumeric(#[trigger] text_tokens(text)[k].0[i])
        },
        forall|q: int, j: int, i: int|
            0 <= q < split_paragraphs(text).len() && 0 <= j < words(split_paragraphs(text)[q]).len()
            && 0 <= i < words(split_paragraphs(text)[q])[j].len()
            && spec_is_alphanumeric(#[trigger] words(split_paragraphs(text)[q])[j][i])
            ==> text_tokens(text).contains((words(split_paragraphs(text)[q])[j], q)),
{
    let ps = split_paragraphs(text);
    lemma_paragraph_tokens_members(ps);
    let ts = text_tokens(text);
    assert forall|k: int| 0 <= k < ts.len() implies {
        &&& 0 <= (#[trigger] ts[k]).1 < ps.len()
        &&& words(ps[ts[k].1]).contains(ts[k].0)
        &&& exists|i: int| 0 <= i < ts[k].0.len() && spec_is_alphanumeric(#[trigger] ts[k].0[i])
    } by {
        assert(readable(ts[k].0));
    }
    assert forall|q: int, j: int, i: int|
        0 <= q < ps.len() && 0 <= j < words(ps[q]).len() && 0 <= i < words(ps[q])[j].len()
        && spec_is_alphanumeric(#[trigger] words(ps[q])[j][i])
        implies ts.contains((words(ps[q])[j], q)) by {
        assert(readable(words(ps[q])[j]));
    }
}

} // verus!
