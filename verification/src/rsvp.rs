use vstd::prelude::*;
use vstd::string::StrSliceExecFns;
use unicode_segmentation::UnicodeSegmentation;
use unicode_width::UnicodeWidthStr;

use crate::tokenize::Token;

verus! {

/// How the optimal recognition point (the highlighted pivot grapheme) of a
/// word is chosen.
#[derive(Debug, Clone, Copy, PartialEq, Eq, Structural)]
pub enum OrpMode {
    /// Length-table pivoting, as popularised by Spritz.
    Spritz,
    /// The middle grapheme (the left one of two middles).
    Center,
}

/// The mode that follows `mode` when cycling.
pub open spec fn spec_next_mode(mode: OrpMode) -> OrpMode {
    match mode {
        OrpMode::Spritz => OrpMode::Center,
        OrpMode::Center => OrpMode::Spritz,
    }
}

/// The pivot position for a word of `n` graphemes.
pub open spec fn spec_pivot_index(mode: OrpMode, n: nat) -> nat {
    let last: nat = if n == 0 { 0 } else { (n - 1) as nat };
    match mode {
        OrpMode::Spritz => {
            let by_length: nat = if n <= 1 {
                0
            } else if n <= 5 {
                1
            } else if n <= 9 {
                2
            } else if n <= 13 {
                3
            } else {
                4
            };
            if by_length <= last { by_length } else { last }
        },
        OrpMode::Center => last / 2,
    }
}

impl OrpMode {
    /// The other mode: `Spritz` and `Center` alternate.
    pub fn next(self) -> (res: Self)
        ensures
            res == spec_next_mode(self),
    {
        match self {
            OrpMode::Spritz => OrpMode::Center,
            OrpMode::Center => OrpMode::Spritz,
        }
    }

    /// The mode's display name.
    pub fn label(self) -> (res: &'static str)
        ensures
            self == OrpMode::Spritz ==> res@ == "Spritz"@,
            self == OrpMode::Center ==> res@ == "Center"@,
    {
        match self {
            OrpMode::Spritz => "Spritz",
            OrpMode::Center => "Center",
        }
    }

    /// The index of the pivot among a word's `graphemes`.
    pub fn pivot_index<S>(self, graphemes: &[S]) -> (res: usize)
        ensures
            res == spec_pivot_index(self, graphemes@.len()),
    {
        let n = graphemes.len();
        let last = n.saturating_sub(1);
        match self {
            OrpMode::Spritz => {
                let by_length: usize = if n <= 1 {
                    0
                } else if n <= 5 {
                    1
                } else if n <= 9 {
                    2
                } else if n <= 13 {
                    3
                } else {
                    4
                };
                by_length.min(last)
            },
            OrpMode::Center => last / 2,
        }
    }
}

/// In either mode, the pivot of a word of `n > 0` graphemes is one of them.
pub proof fn law_pivot_within_word(mode: OrpMode, n: nat)
    requires
        n > 0,
    ensures
        spec_pivot_index(mode, n) < n,
{
}

/// What `UnicodeSegmentation::graphemes(text, true)` yields for `text`: its
/// extended grapheme clusters, in order.
pub uninterp spec fn spec_graphemes(text: Seq<char>) -> Seq<Seq<char>>;

/// What `UnicodeWidthStr::width` answers for `text`: its width in terminal
/// columns.
pub uninterp spec fn spec_width(text: Seq<char>) -> usize;

/// The extended grapheme clusters of `text` (`UnicodeSegmentation::graphemes`
/// with `is_extended` true). Besides naming the result, the contract states
/// what the crate's iterator does by construction: it yields consecutive,
/// non-empty slices of `text` that together cover it.
#[verifier::external_body]
fn graphemes(text: &str) -> (gs: Vec<&str>)
    ensures
        gs@.map_values(|g: &str| g@) == spec_graphemes(text@),
        gs@.map_values(|g: &str| g@).flatten() == text@,
        forall|k: int| 0 <= k < gs@.len() ==> (#[trigger] gs@[k])@.len() > 0,
{
    text.graphemes(true).collect()
}

/// The display width of `text` in terminal columns (`UnicodeWidthStr::width`).
#[verifier::external_body]
fn display_width(text: &str) -> (w: usize)
    ensures
        w == spec_width(text@),
{
    text.width()
}

/// The width of `text` in terminal columns, measured over the whole text
/// (which can differ from the sum over its graphemes where characters join
/// across them).
pub fn text_width(text: &str) -> (w: usize)
    ensures
        w == spec_width(text@),
{
    display_width(text)
}

/// The total width of `gs`, capped at `usize::MAX`.
pub open spec fn capped_width(gs: Seq<Seq<char>>) -> int {
    let total = width_sum(gs);
    if total <= usize::MAX { total } else { usize::MAX as int }
}

/// The sum of the widths of `gs`.
pub open spec fn width_sum(gs: Seq<Seq<char>>) -> int
    decreases gs.len(),
{
    if gs.len() == 0 {
        0
    } else {
        width_sum(gs.drop_last()) + spec_width(gs.last())
    }
}

/// A word ready for display: its text, the pivot grapheme's index and the
/// widths in columns of the part before the pivot, the pivot and the part
/// after it.
#[derive(Debug, Clone, PartialEq, Eq)]
pub struct RsvpWord {
    pub text: String,
    pub pivot_index: usize,
    pub prefix_width: usize,
    pub pivot_width: usize,
    pub suffix_width: usize,
}

/// The word that `RsvpWord::from_token` builds from `text` under `mode`.
pub open spec fn word_fields(text: Seq<char>, mode: OrpMode) -> (nat, int, int, int) {
    let gs = spec_graphemes(text);
    let p = spec_pivot_index(mode, gs.len());
    (
        p,
        capped_width(gs.take(p as int)),
        if p < gs.len() { spec_width(gs[p as int]) as int } else { 0 },
        capped_width(gs.skip(p as int + 1)),
    )
}

/// The three parts of `text` around the grapheme at `pivot`: before it, the
/// grapheme itself, after it. A pivot past the last grapheme selects the
/// whole text.
pub open spec fn split_at_pivot(text: Seq<char>, pivot: int) -> (Seq<char>, Seq<char>, Seq<char>) {
    let gs = spec_graphemes(text);
    if 0 <= pivot < gs.len() {
        (gs.take(pivot).flatten(), gs[pivot], gs.skip(pivot + 1).flatten())
    } else {
        (Seq::empty(), text, Seq::empty())
    }
}

pub proof fn lemma_flatten_append(a: Seq<Seq<char>>, b: Seq<Seq<char>>)
    ensures
        (a + b).flatten() == a.flatten() + b.flatten(),
    decreases a.len(),
{
    if a.len() == 0 {
        assert(a + b =~= b);
    } else {
        assert((a + b).drop_first() =~= a.drop_first() + b);
        lemma_flatten_append(a.drop_first(), b);
        assert((a + b).flatten() =~= a.flatten() + b.flatten());
    }
}

/// Sums the widths of `gs[from..to]`, saturating at `usize::MAX`.
fn sum_widths(gs: &Vec<&str>, from: usize, to: usize) -> (total: usize)
    requires
        from <= to <= gs@.len(),
    ensures
        total == capped_width(gs@.map_values(|g: &str| g@).subrange(from as int, to as int)),
{
    let ghost views = gs@.map_values(|g: &str| g@);
    let mut total: usize = 0;
    let mut k = from;
    while k < to
        invariant
            from <= k <= to <= gs@.len(),
            views == gs@.map_values(|g: &str| g@),
            total == capped_width(views.subrange(from as int, k as int)),
        decreases to - k,
    {
        let w = display_width(gs[k]);
        proof {
            assert(views.subrange(from as int, k + 1).drop_last() =~= views.subrange(
                from as int,
                k as int,
            ));
        }
        total = total.saturating_add(w);
        k += 1;
    }
    total
}

impl RsvpWord {
    /// Builds the display word for `token`: the pivot grapheme is chosen by
    /// `mode`, and the widths of the parts around it are measured (each sum
    /// capped at `usize::MAX`).
    pub fn from_token(token: &Token, mode: OrpMode) -> (word: Self)
        requires
            token.text@.len() > 0,
        ensures
            word.text@ == token.text@,
            word.pivot_index < spec_graphemes(token.text@).len(),
            word.pivot_index as nat == word_fields(token.text@, mode).0,
            word.prefix_width as int == word_fields(token.text@, mode).1,
            word.pivot_width as int == word_fields(token.text@, mode).2,
            word.suffix_width as int == word_fields(token.text@, mode).3,
    {
        let gs = graphemes(token.text.as_str());
        let ghost views = gs@.map_values(|g: &str| g@);
        proof {
            if gs@.len() == 0 {
                assert(views.flatten() =~= Seq::<char>::empty());
            }
            law_pivot_within_word(mode, gs@.len() as nat);
        }
        let pivot_index = mode.pivot_index(gs.as_slice());
        let prefix_width = sum_widths(&gs, 0, pivot_index);
        let pivot_width = if pivot_index < gs.len() {
            display_width(gs[pivot_index])
        } else {
            0
        };
        let suffix_width = sum_widths(&gs, pivot_index + 1, gs.len());
        proof {
            assert(views.subrange(0, pivot_index as int) =~= views.take(pivot_index as int));
            assert(views.subrange(pivot_index + 1, gs@.len() as int) =~= views.skip(pivot_index + 1));
        }
        RsvpWord { text: token.text.clone(), pivot_index, prefix_width, pivot_width, suffix_width }
    }

    /// The text before the pivot grapheme, the pivot grapheme and the text
    /// after it. When `pivot_index` is past the last grapheme, the whole text
    /// is the pivot.
    pub fn pivot_parts(&self) -> (parts: (&str, &str, &str))
        ensures
            (parts.0@, parts.1@, parts.2@) == split_at_pivot(self.text@, self.pivot_index as int),
            parts.0@ + parts.1@ + parts.2@ == self.text@,
            self.pivot_index < spec_graphemes(self.text@).len() ==> parts.1@.len() > 0,
    {
        let text = self.text.as_str();
        let gs = graphemes(text);
        let ghost views = gs@.map_values(|g: &str| g@);
        let n = text.unicode_len();
        if self.pivot_index >= gs.len() {
            let before = text.substring_char(0, 0);
            let after = text.substring_char(n, n);
            let whole = text.substring_char(0, n);
            proof {
                assert(text@.subrange(0, n as int) =~= text@);
                assert(before@ + whole@ + after@ =~= text@);
            }
            return (before, whole, after);
        }
        let p = self.pivot_index;
        let mut start: usize = 0;
        let mut k: usize = 0;
        proof {
            lemma_flatten_append(views.take(p as int), views.skip(p as int));
            assert(views.take(p as int) + views.skip(p as int) =~= views);
            assert(views.skip(p as int) =~= seq![views[p as int]] + views.skip(p + 1));
            lemma_flatten_append(seq![views[p as int]], views.skip(p + 1));
            seq![views[p as int]].lemma_flatten_one_element();
            assert(views.take(0) =~= Seq::<Seq<char>>::empty());
        }
        while k < p
            invariant
                k <= p < gs@.len(),
                views == gs@.map_values(|g: &str| g@),
                views.flatten() == text@,
                n == text@.len(),
                start == views.take(k as int).flatten().len(),
                views.take(p as int).flatten().len() + views[p as int].len() <= n,
            decreases p - k,
        {
            proof {
                assert(views.take(k + 1) =~= views.take(k as int).push(views[k as int]));
                views.take(k as int).lemma_flatten_push(views[k as int]);
                lemma_flatten_append(views.take(k + 1), views.subrange(k + 1, p as int));
                assert(views.take(k + 1) + views.subrange(k + 1, p as int) =~= views.take(p as int));
            }
            start = start + gs[k].unicode_len();
            k += 1;
        }
        let end = start + gs[p].unicode_len();
        let before = text.substring_char(0, start);
        let pivot = text.substring_char(start, end);
        let after = text.substring_char(end, n);
        proof {
            let pre = views.take(p as int).flatten();
            let post = views.skip(p + 1).flatten();
            assert(text@ == pre + views[p as int] + post);
            assert(text@.subrange(0, start as int) =~= pre);
            assert(text@.subrange(start as int, end as int) =~= views[p as int]);
            assert(text@.subrange(end as int, n as int) =~= post);
            assert(before@ + pivot@ + after@ =~= text@);
            assert(views[p as int] == gs@[p as int]@);
        }
        (before, pivot, after)
    }
}

} // verus!
