use vstd::prelude::*;
use vstd::string::StringExecFns;
use vstd::utf8::{decode_utf8, valid_utf8};

use crate::chars::chars_of;
use crate::error::OrpError;
use crate::extract::{
    epub_text, extract_epub, extract_markdown, extract_pdf, extract_txt, rendered_text,
    spec_epub_pages, spec_markdown_events, pdf_text_result,
};

verus! {

/// The kinds of document the reader accepts.
#[derive(Debug, Clone, Copy, PartialEq, Eq, Structural)]
pub enum SourceFormat {
    Text,
    Markdown,
    Pdf,
    Epub,
}

/// The position of the last `'/'` before `end`, or -1.
pub open spec fn last_slash(p: Seq<char>, end: int) -> int
    decreases end,
{
    if end <= 0 {
        -1
    } else if p[end - 1] == '/' {
        end - 1
    } else {
        last_slash(p, end - 1)
    }
}

/// Where the file name of the path `p.take(end)` lies in `p`: its last
/// component, skipping empty and `.` components; none when that component
/// is `..` or there is none (as `Path::file_name` has it).
pub open spec fn file_name_range(p: Seq<char>, end: int) -> Option<(int, int)>
    decreases end,
{
    if end <= 0 {
        None
    } else {
        let k = last_slash(p, end);
        proof {
            lemma_last_slash_bounds(p, end);
        }
        let seg = p.subrange(k + 1, end);
        if seg.len() == 0 || seg =~= seq!['.'] {
            if k < 0 {
                None
            } else {
                file_name_range(p, k)
            }
        } else if seg =~= seq!['.', '.'] {
            None
        } else {
            Some((k + 1, end))
        }
    }
}

/// The position of the last `'.'` in `name`, or -1.
pub open spec fn last_dot(name: Seq<char>) -> int
    decreases name.len(),
{
    if name.len() == 0 {
        -1
    } else if name.last() == '.' {
        name.len() - 1
    } else {
        last_dot(name.drop_last())
    }
}

/// The extension of the path `p`: what follows the last `'.'` of its file
/// name, when that dot is not the name's first character (as
/// `Path::extension` has it).
pub open spec fn extension(p: Seq<char>) -> Option<Seq<char>> {
    match file_name_range(p, p.len() as int) {
        Some((s, e)) => {
            let name = p.subrange(s, e);
            let d = last_dot(name);
            if d <= 0 { None } else { Some(name.skip(d + 1)) }
        },
        None => None,
    }
}

/// `c` with ASCII upper-case letters made lower-case.
pub open spec fn ascii_lower(c: char) -> char {
    if 'A' <= c <= 'Z' { ((c as u32) + 32) as char } else { c }
}

/// The document kind named by a lower-cased extension.
pub open spec fn format_of_extension(ext: Seq<char>) -> Option<SourceFormat> {
    let lower = ext.map_values(|c: char| ascii_lower(c));
    if lower =~= seq!['t', 'x', 't'] {
        Some(SourceFormat::Text)
    } else if lower =~= seq!['m', 'd'] || lower =~= seq!['m', 'a', 'r', 'k', 'd', 'o', 'w', 'n'] {
        Some(SourceFormat::Markdown)
    } else if lower =~= seq!['p', 'd', 'f'] {
        Some(SourceFormat::Pdf)
    } else if lower =~= seq!['e', 'p', 'u', 'b'] {
        Some(SourceFormat::Epub)
    } else {
        None
    }
}

/// The document kind of the file at `path`, by its extension, letter case
/// ignored.
pub open spec fn spec_source_format(path: Seq<char>) -> Option<SourceFormat> {
    match extension(path) {
        Some(ext) => format_of_extension(ext),
        None => None,
    }
}

/// The format depends on the extension only up to ASCII letter case: two
/// paths whose extensions differ only in the case of their ASCII letters
/// (`"x.EPUB"`, `"y.epub"`, `"z.ePub"`) have the same format; and the
/// format named by an extension is that of its lower-case spelling.
pub proof fn law_format_ignores_case(p: Seq<char>, q: Seq<char>)
    ensures
        (extension(p) matches Some(e1) && extension(q) matches Some(e2)
            && e1.map_values(|c: char| ascii_lower(c)) == e2.map_values(|c: char| ascii_lower(c)))
            ==> spec_source_format(p) == spec_source_format(q),
        extension(p) matches Some(e) ==> spec_source_format(p) == format_of_extension(
            e.map_values(|c: char| ascii_lower(c)),
        ),
{
    if let Some(e) = extension(p) {
        lemma_lower_idempotent(e);
    }
}

/// Lowering twice is lowering once.
pub proof fn lemma_lower_idempotent(e: Seq<char>)
    ensures
        e.map_values(|c: char| ascii_lower(c)).map_values(|c: char| ascii_lower(c))
            == e.map_values(|c: char| ascii_lower(c)),
{
    let l = e.map_values(|c: char| ascii_lower(c));
    assert forall|i: int| 0 <= i < l.len() implies #[trigger] ascii_lower(l[i]) == l[i] by {
        let c = e[i];
        if 'A' <= c <= 'Z' {
            assert(((c as u32) + 32) as char >= 'a');
        }
    }
    assert(l.map_values(|c: char| ascii_lower(c)) =~= l);
}

/// Each accepted extension, in any ASCII letter case, names its format:
/// `txt`, `md`, `markdown`, `pdf` and `epub`; any other extension, and a
/// path without one, is unsupported.
pub proof fn law_known_extensions(p: Seq<char>)
    ensures
        extension(p) matches Some(e) ==> {
            let l = e.map_values(|c: char| ascii_lower(c));
            &&& l =~= seq!['t', 'x', 't'] ==> spec_source_format(p) == Some(SourceFormat::Text)
            &&& (l =~= seq!['m', 'd'] || l =~= seq!['m', 'a', 'r', 'k', 'd', 'o', 'w', 'n'])
                ==> spec_source_format(p) == Some(SourceFormat::Markdown)
            &&& l =~= seq!['p', 'd', 'f'] ==> spec_source_format(p) == Some(SourceFormat::Pdf)
            &&& l =~= seq!['e', 'p', 'u', 'b'] ==> spec_source_format(p) == Some(SourceFormat::Epub)
            &&& !(l =~= seq!['t', 'x', 't'] || l =~= seq!['m', 'd'] || l =~= seq!['m', 'a', 'r', 'k', 'd', 'o', 'w', 'n']
                || l =~= seq!['p', 'd', 'f'] || l =~= seq!['e', 'p', 'u', 'b']) ==> spec_source_format(p) is None
        },
        extension(p) is None ==> spec_source_format(p) is None,
{
}

pub proof fn lemma_last_slash_bounds(p: Seq<char>, end: int)
    ensures
        -1 <= last_slash(p, end) < end || (end <= 0 && last_slash(p, end) == -1),
        last_slash(p, end) >= 0 ==> p[last_slash(p, end)] == '/',
        forall|j: int| last_slash(p, end) < j < end ==> p[j] != '/',
    decreases end,
{
    if end > 0 && p[end - 1] != '/' {
        lemma_last_slash_bounds(p, end - 1);
    }
}

/// One past the last `'/'` before `end` (0 when there is none).
fn after_last_slash(p: &[char], end: usize) -> (k: usize)
    requires
        end <= p@.len(),
    ensures
        k == last_slash(p@, end as int) + 1,
{
    let mut j = end;
    while j > 0 && p[j - 1] != '/'
        invariant
            j <= end <= p@.len(),
            last_slash(p@, end as int) == last_slash(p@, j as int),
        decreases j,
    {
        j -= 1;
    }
    j
}

fn file_name_range_exec(p: &[char], end: usize) -> (r: Option<(usize, usize)>)
    requires
        end <= p@.len(),
    ensures
        match file_name_range(p@, end as int) {
            Some((s, e)) => r == Some((s as usize, e as usize)) && 0 <= s <= e <= end,
            None => r is None,
        },
    decreases end,
{
    if end == 0 {
        return None;
    }
    let start = after_last_slash(p, end);
    proof {
        lemma_last_slash_bounds(p@, end as int);
    }
    let len = end - start;
    let ghost seg = p@.subrange(start as int, end as int);
    if len == 0 || (len == 1 && p[start] == '.') {
        proof {
            if len == 1 {
                assert(seg =~= seq!['.']);
            }
        }
        if start == 0 {
            return None;
        }
        return file_name_range_exec(p, start - 1);
    }
    proof {
        assert(!(seg =~= seq!['.'])) by {
            if seg =~= seq!['.'] {
                assert(seg[0] == p@[start as int]);
            }
        }
    }
    if len == 2 && p[start] == '.' && p[start + 1] == '.' {
        assert(seg =~= seq!['.', '.']);
        return None;
    }
    proof {
        assert(!(seg =~= seq!['.', '.'])) by {
            if seg =~= seq!['.', '.'] {
                assert(seg[0] == p@[start as int] && seg[1] == p@[start + 1]);
            }
        }
    }
    Some((start, end))
}

fn ascii_lower_exec(c: char) -> (l: char)
    ensures
        l == ascii_lower(c),
{
    if 'A' <= c && c <= 'Z' {
        let code: u8 = (c as u8) + 32;
        code as char
    } else {
        c
    }
}

/// Whether `s` equals the characters of `lit`.
fn chars_equal(s: &[char], lit: &[char]) -> (eq: bool)
    ensures
        eq == (s@ =~= lit@),
{
    if s.len() != lit.len() {
        return false;
    }
    let mut i: usize = 0;
    while i < s.len()
        invariant
            s@.len() == lit@.len(),
            i <= s@.len(),
            forall|j: int| 0 <= j < i ==> s@[j] == lit@[j],
        decreases s@.len() - i,
    {
        if s[i] != lit[i] {
            return false;
        }
        i += 1;
    }
    true
}

/// The document kind of the file at `path`, by its extension (letter case
/// ignored): `txt`, `md`/`markdown`, `pdf` or `epub`.
pub fn source_format(path: &str) -> (f: Option<SourceFormat>)
    ensures
        f == spec_source_format(path@),
{
    let p = chars_of(path);
    let (s, e) = match file_name_range_exec(p.as_slice(), p.len()) {
        Some(r) => r,
        None => return None,
    };
    let ghost name = p@.subrange(s as int, e as int);
    let mut d = e;
    assert(name.take(e - s) =~= name);
    while d > s && p[d - 1] != '.'
        invariant
            s <= d <= e <= p@.len(),
            name == p@.subrange(s as int, e as int),
            last_dot(name) == last_dot(name.take(d - s)),
        decreases d,
    {
        assert(name.take(d - s).drop_last() =~= name.take(d - s - 1));
        d -= 1;
    }
    if d - s <= 1 {
        return None;
    }
    let mut lower: Vec<char> = Vec::new();
    let mut i = d;
    while i < e
        invariant
            d <= i <= e <= p@.len(),
            lower@ == p@.subrange(d as int, i as int).map_values(|c: char| ascii_lower(c)),
        decreases e - i,
    {
        lower.push(ascii_lower_exec(p[i]));
        i += 1;
    }
    assert(name.skip(last_dot(name) + 1) =~= p@.subrange(d as int, e as int));
    if chars_equal(lower.as_slice(), &['t', 'x', 't']) {
        Some(SourceFormat::Text)
    } else if chars_equal(lower.as_slice(), &['m', 'd']) || chars_equal(
        lower.as_slice(),
        &['m', 'a', 'r', 'k', 'd', 'o', 'w', 'n'],
    ) {
        Some(SourceFormat::Markdown)
    } else if chars_equal(lower.as_slice(), &['p', 'd', 'f']) {
        Some(SourceFormat::Pdf)
    } else if chars_equal(lower.as_slice(), &['e', 'p', 'u', 'b']) {
        Some(SourceFormat::Epub)
    } else {
        None
    }
}


/// The text of a document, read from `bytes` according to the kind that
/// `path`'s extension names. An unsupported extension is an error whatever
/// the bytes.
pub fn extract_path(path: &str, bytes: Vec<u8>) -> (res: Result<String, OrpError>)
    ensures
        spec_source_format(path@) is None ==> (res matches Err(OrpError::UnsupportedExtension { path: p }) && p@ == path@),
        spec_source_format(path@) == Some(SourceFormat::Text) ==> {
            &&& res is Ok <==> valid_utf8(bytes@)
            &&& res matches Ok(t) ==> t@ == decode_utf8(bytes@)
            &&& res is Err ==> (res matches Err(OrpError::InvalidUtf8 { path: p }) && p@ == path@)
        },
        spec_source_format(path@) == Some(SourceFormat::Markdown) ==> {
            &&& res is Ok <==> valid_utf8(bytes@)
            &&& res matches Ok(t) ==> t@ == rendered_text(spec_markdown_events(decode_utf8(bytes@)))
            &&& res is Err ==> (res matches Err(OrpError::InvalidUtf8 { path: p }) && p@ == path@)
        },
        spec_source_format(path@) == Some(SourceFormat::Pdf) ==> {
            &&& res is Ok <==> pdf_text_result(bytes@) is Some
            &&& res matches Ok(t) ==> pdf_text_result(bytes@) == Some(t@)
            &&& res is Err ==> (res matches Err(OrpError::PdfExtract { path: p }) && p@ == path@)
        },
        spec_source_format(path@) == Some(SourceFormat::Epub) ==> {
            &&& res is Ok <==> spec_epub_pages(bytes@) is Some
            &&& res matches Ok(t) ==> t@ == epub_text(spec_epub_pages(bytes@)->0)
            &&& res is Err ==> (res matches Err(OrpError::EpubExtract { path: p }) && p@ == path@)
        },
{
    match source_format(path) {
        Some(SourceFormat::Text) => extract_txt(path, bytes),
        Some(SourceFormat::Markdown) => extract_markdown(path, bytes),
        Some(SourceFormat::Pdf) => extract_pdf(path, bytes.as_slice()),
        Some(SourceFormat::Epub) => extract_epub(path, bytes.as_slice()),
        None => Err(OrpError::UnsupportedExtension { path: String::from_str(path) }),
    }
}

} // verus!
