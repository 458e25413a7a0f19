use vstd::prelude::*;
use vstd::string::StringExecFns;
use vstd::utf8::{decode_utf8, valid_utf8};
use pulldown_cmark::{Event, Options, Parser, Tag, TagEnd};

use crate::chars::{chars_of, is_whitespace, is_ws, join, string_of};
use crate::error::OrpError;

verus! {

/// Text read out of a source document, before cleanup.
#[derive(Debug, Clone, PartialEq, Eq)]
pub struct ExtractedDocument {
    pub text: String,
}


/// The markdown parser's events that the text extraction tells apart.
#[derive(Debug, Clone, PartialEq, Eq)]
pub enum MarkdownEvent {
    /// A fenced or indented code block starts.
    CodeBlockStart,
    /// A code block ends.
    CodeBlockEnd,
    Text(String),
    /// Inline code.
    Code(String),
    SoftBreak,
    HardBreak,
    ParagraphEnd,
    HeadingEnd,
    /// Any other event.
    Other,
}

/// A `MarkdownEvent` with its text taken by value.
pub enum MarkdownEventView {
    CodeBlockStart,
    CodeBlockEnd,
    Text(Seq<char>),
    Code(Seq<char>),
    SoftBreak,
    HardBreak,
    ParagraphEnd,
    HeadingEnd,
    Other,
}

impl View for MarkdownEvent {
    type V = MarkdownEventView;

    open spec fn view(&self) -> MarkdownEventView {
        match self {
            MarkdownEvent::CodeBlockStart => MarkdownEventView::CodeBlockStart,
            MarkdownEvent::CodeBlockEnd => MarkdownEventView::CodeBlockEnd,
            MarkdownEvent::Text(t) => MarkdownEventView::Text(t@),
            MarkdownEvent::Code(t) => MarkdownEventView::Code(t@),
            MarkdownEvent::SoftBreak => MarkdownEventView::SoftBreak,
            MarkdownEvent::HardBreak => MarkdownEventView::HardBreak,
            MarkdownEvent::ParagraphEnd => MarkdownEventView::ParagraphEnd,
            MarkdownEvent::HeadingEnd => MarkdownEventView::HeadingEnd,
            MarkdownEvent::Other => MarkdownEventView::Other,
        }
    }
}

/// The events that `pulldown_cmark::Parser::new_ext(markdown, Options::all())`
/// yields for `markdown`, classified as `MarkdownEvent`s.
pub uninterp spec fn spec_markdown_events(markdown: Seq<char>) -> Seq<MarkdownEventView>;

/// Parses `markdown` with `pulldown_cmark` (all extensions on) and
/// classifies each event; the contract only names the result.
#[verifier::external_body]
fn markdown_events(markdown: &str) -> (events: Vec<MarkdownEvent>)
    ensures
        events@.map_values(|e: MarkdownEvent| e@) == spec_markdown_events(markdown@),
{
    let mut events = Vec::new();
    for event in Parser::new_ext(markdown, Options::all()) {
        events.push(match event {
            Event::Start(Tag::CodeBlock(_)) => MarkdownEvent::CodeBlockStart,
            Event::End(TagEnd::CodeBlock) => MarkdownEvent::CodeBlockEnd,
            Event::Text(value) => MarkdownEvent::Text(value.into_string()),
            Event::Code(value) => MarkdownEvent::Code(value.into_string()),
            Event::SoftBreak => MarkdownEvent::SoftBreak,
            Event::HardBreak => MarkdownEvent::HardBreak,
            Event::End(TagEnd::Paragraph) => MarkdownEvent::ParagraphEnd,
            Event::End(TagEnd::Heading(_)) => MarkdownEvent::HeadingEnd,
            _ => MarkdownEvent::Other,
        });
    }
    events
}

/// `text` followed by a paragraph break: it ends up ending in `"\n\n"`,
/// adding only what is missing.
pub open spec fn with_break(text: Seq<char>) -> Seq<char> {
    if text.len() >= 2 && text[text.len() - 2] == '\n' && text[text.len() - 1] == '\n' {
        text
    } else if text.len() >= 1 && text[text.len() - 1] == '\n' {
        text.push('\n')
    } else {
        text + seq!['\n', '\n']
    }
}

/// The text so far and whether a code block is being skipped, after one
/// more event.
pub open spec fn render_step(state: (Seq<char>, bool), e: MarkdownEventView) -> (Seq<char>, bool) {
    let (text, skip) = state;
    match e {
        MarkdownEventView::CodeBlockStart => (text, true),
        MarkdownEventView::CodeBlockEnd => (with_break(text), false),
        MarkdownEventView::Text(v) => if skip { state } else { (text + v, skip) },
        MarkdownEventView::Code(v) => if skip { state } else { (text + v, skip) },
        MarkdownEventView::SoftBreak => if skip { state } else { (text.push('\n'), skip) },
        MarkdownEventView::HardBreak => if skip { state } else { (text.push('\n'), skip) },
        MarkdownEventView::ParagraphEnd => if skip { state } else { (with_break(text), skip) },
        MarkdownEventView::HeadingEnd => if skip { state } else { (with_break(text), skip) },
        MarkdownEventView::Other => state,
    }
}

/// The state after all of `events`.
pub open spec fn render_state(events: Seq<MarkdownEventView>) -> (Seq<char>, bool)
    decreases events.len(),
{
    if events.len() == 0 {
        (seq![], false)
    } else {
        render_step(render_state(events.drop_last()), events.last())
    }
}

/// The readable text of a markdown event stream: text and inline code
/// outside code blocks, line breaks as `'\n'`, a blank line after each
/// paragraph, heading and code block.
pub open spec fn rendered_text(events: Seq<MarkdownEventView>) -> Seq<char> {
    render_state(events).0
}

/// Hard and soft line breaks render alike: in any event stream, replacing
/// one by the other changes nothing.
pub proof fn law_hard_break_like_soft_break(before: Seq<MarkdownEventView>, after: Seq<MarkdownEventView>)
    ensures
        rendered_text(before + seq![MarkdownEventView::HardBreak] + after) == rendered_text(
            before + seq![MarkdownEventView::SoftBreak] + after,
        ),
    decreases after.len(),
{
    let h = before + seq![MarkdownEventView::HardBreak] + after;
    let s = before + seq![MarkdownEventView::SoftBreak] + after;
    if after.len() == 0 {
        assert(h.drop_last() =~= before);
        assert(s.drop_last() =~= before);
    } else {
        law_hard_break_like_soft_break(before, after.drop_last());
        assert(h.drop_last() =~= before + seq![MarkdownEventView::HardBreak] + after.drop_last());
        assert(s.drop_last() =~= before + seq![MarkdownEventView::SoftBreak] + after.drop_last());
        lemma_hard_soft_state(before, after.drop_last());
    }
}

proof fn lemma_hard_soft_state(before: Seq<MarkdownEventView>, after: Seq<MarkdownEventView>)
    ensures
        render_state(before + seq![MarkdownEventView::HardBreak] + after) == render_state(
            before + seq![MarkdownEventView::SoftBreak] + after,
        ),
    decreases after.len(),
{
    let h = before + seq![MarkdownEventView::HardBreak] + after;
    let s = before + seq![MarkdownEventView::SoftBreak] + after;
    if after.len() == 0 {
        assert(h.drop_last() =~= before);
        assert(s.drop_last() =~= before);
    } else {
        lemma_hard_soft_state(before, after.drop_last());
        assert(h.drop_last() =~= before + seq![MarkdownEventView::HardBreak] + after.drop_last());
        assert(s.drop_last() =~= before + seq![MarkdownEventView::SoftBreak] + after.drop_last());
    }
}

/// Outside a code block, text and inline code are copied as they are, and
/// a soft or hard line break adds exactly one `'\n'` to the text rendered
/// so far; inside a code block none of them adds anything. So text `a`,
/// a line break and text `b` render as `a`, `'\n'`, `b`.
pub proof fn law_text_and_breaks(events: Seq<MarkdownEventView>, t: Seq<char>)
    ensures
        !render_state(events).1 ==> rendered_text(events.push(MarkdownEventView::Text(t))) == rendered_text(events) + t,
        !render_state(events).1 ==> rendered_text(events.push(MarkdownEventView::Code(t))) == rendered_text(events) + t,
        !render_state(events).1 ==> rendered_text(events.push(MarkdownEventView::HardBreak)) == rendered_text(events).push('\n'),
        !render_state(events).1 ==> rendered_text(events.push(MarkdownEventView::SoftBreak)) == rendered_text(events).push('\n'),
        render_state(events).1 ==> rendered_text(events.push(MarkdownEventView::Text(t))) == rendered_text(events),
        render_state(events).1 ==> rendered_text(events.push(MarkdownEventView::HardBreak)) == rendered_text(events),
{
    assert(events.push(MarkdownEventView::Text(t)).drop_last() =~= events);
    assert(events.push(MarkdownEventView::Code(t)).drop_last() =~= events);
    assert(events.push(MarkdownEventView::HardBreak).drop_last() =~= events);
    assert(events.push(MarkdownEventView::SoftBreak).drop_last() =~= events);
}

/// `[Text(a), HardBreak, Text(b)]` renders as `a + "\n" + b`.
pub proof fn law_lines_joined_by_break(a: Seq<char>, b: Seq<char>)
    ensures
        rendered_text(seq![MarkdownEventView::Text(a), MarkdownEventView::HardBreak, MarkdownEventView::Text(b)])
            == a + seq!['\n'] + b,
{
    let e0 = Seq::<MarkdownEventView>::empty();
    let e1 = e0.push(MarkdownEventView::Text(a));
    let e2 = e1.push(MarkdownEventView::HardBreak);
    let e3 = e2.push(MarkdownEventView::Text(b));
    assert(render_state(e0) == (Seq::<char>::empty(), false));
    law_text_and_breaks(e0, a);
    law_text_and_breaks(e1, a);
    law_text_and_breaks(e2, b);
    assert(render_state(e1) == (a, false)) by {
        assert(e1.drop_last() =~= e0);
        assert(Seq::<char>::empty() + a =~= a);
    }
    assert(render_state(e2) == (a.push('\n'), false)) by {
        assert(e2.drop_last() =~= e1);
    }
    assert(e3 =~= seq![MarkdownEventView::Text(a), MarkdownEventView::HardBreak, MarkdownEventView::Text(b)]);
    assert(a.push('\n') + b =~= a + seq!['\n'] + b);
}

/// Ends `text` with a paragraph break.
fn push_break(text: &mut Vec<char>)
    ensures
        final(text)@ == with_break(old(text)@),
{
    let n = text.len();
    if n >= 2 && text[n - 2] == '\n' && text[n - 1] == '\n' {
        return;
    }
    if n >= 1 && text[n - 1] == '\n' {
        text.push('\n');
    } else {
        text.push('\n');
        text.push('\n');
        assert(text@ =~= old(text)@ + seq!['\n', '\n']);
    }
}

/// The readable text of `events` (see `rendered_text`).
pub fn render_markdown_events(events: &[MarkdownEvent]) -> (text: String)
    ensures
        text@ == rendered_text(events@.map_values(|e: MarkdownEvent| e@)),
{
    let ghost views = events@.map_values(|e: MarkdownEvent| e@);
    let mut out: Vec<char> = Vec::new();
    let mut skip_code_block = false;
    let mut k: usize = 0;
    assert(views.take(0) =~= Seq::<MarkdownEventView>::empty());
    while k < events.len()
        invariant
            k <= events@.len(),
            views == events@.map_values(|e: MarkdownEvent| e@),
            (out@, skip_code_block) == render_state(views.take(k as int)),
        decreases events@.len() - k,
    {
        assert(views.take(k + 1).drop_last() =~= views.take(k as int));
        match &events[k] {
            MarkdownEvent::CodeBlockStart => {
                skip_code_block = true;
            },
            MarkdownEvent::CodeBlockEnd => {
                skip_code_block = false;
                push_break(&mut out);
            },
            MarkdownEvent::Text(value) | MarkdownEvent::Code(value) => {
                if !skip_code_block {
                    let cs = chars_of(value.as_str());
                    out.extend_from_slice(cs.as_slice());
                }
            },
            MarkdownEvent::SoftBreak | MarkdownEvent::HardBreak => {
                if !skip_code_block {
                    out.push('\n');
                }
            },
            MarkdownEvent::ParagraphEnd | MarkdownEvent::HeadingEnd => {
                if !skip_code_block {
                    push_break(&mut out);
                }
            },
            MarkdownEvent::Other => {},
        }
        k += 1;
    }
    assert(views.take(k as int) =~= views);
    string_of(out.as_slice())
}

/// Readable prose from markdown: markup removed, code blocks skipped.
pub fn markdown_to_text(markdown: &str) -> (text: String)
    ensures
        text@ == rendered_text(spec_markdown_events(markdown@)),
{
    let events = markdown_events(markdown);
    render_markdown_events(events.as_slice())
}


#[verifier::external_type_specification]
#[verifier::external_body]
pub struct ExPdfOutputError(pdf_extract::OutputError);

#[verifier::external_type_specification]
#[verifier::external_body]
pub struct ExEpubError(epub_parser::epub::Error);

/// The texts of the pages, in page order, that
/// `pdf_extract::extract_text_from_mem_by_pages` extracts from a PDF file's
/// `bytes`, or `None` when it reports an error.
pub uninterp spec fn spec_pdf_page_texts(bytes: Seq<u8>) -> Option<Seq<Seq<char>>>;

/// Whether `pdf_extract::extract_text_from_mem_by_pages` panics on `bytes`
/// (it unwraps freely while reading pages: a page without a `MediaBox`,
/// for one, makes it panic).
pub uninterp spec fn spec_pdf_page_texts_panics(bytes: Seq<u8>) -> bool;

/// `pdf_extract::extract_text_from_mem_by_pages`, run on a scoped thread
/// (`crossbeam_utils::thread::scope`) so that a panic of the crate comes
/// back as `None` instead of unwinding. The crate loads the document,
/// decrypts it with the empty password when it is encrypted, and extracts
/// pages 1, 2, ... until a page cannot be extracted. The contract names
/// the result and the panic. Failing to start the thread (the machine is
/// out of threads) still panics; that is not ruled out.
#[verifier::external_body]
fn pdf_page_texts(bytes: &[u8]) -> (res: Option<Result<Vec<String>, pdf_extract::OutputError>>)
    ensures
        res is None <==> spec_pdf_page_texts_panics(bytes@),
        res matches Some(r) ==> (r is Ok <==> spec_pdf_page_texts(bytes@) is Some),
        res matches Some(Ok(pages)) ==> spec_pdf_page_texts(bytes@) == Some(
            pages@.map_values(|p: String| p@),
        ),
{
    crossbeam_utils::thread::scope(
        |s| s.spawn(|_| pdf_extract::extract_text_from_mem_by_pages(bytes)).join(),
    ).ok().and_then(|joined| joined.ok())
}

/// The number of pages of the PDF document in `bytes`, as
/// `pdf_extract::Document::load_mem` followed by `get_pages` gives it, or
/// `None` when the document does not load.
pub uninterp spec fn spec_pdf_page_count(bytes: Seq<u8>) -> Option<usize>;

/// Whether loading the PDF document in `bytes` and listing its pages panics.
pub uninterp spec fn spec_pdf_page_count_panics(bytes: Seq<u8>) -> bool;

/// `pdf_extract::Document::load_mem` and `Document::get_pages`: how many
/// pages the document has, run on a scoped thread like `pdf_page_texts`
/// so that a panic comes back as `None`. The contract names the result and
/// the panic.
#[verifier::external_body]
fn pdf_page_count(bytes: &[u8]) -> (res: Option<Option<usize>>)
    ensures
        res is None <==> spec_pdf_page_count_panics(bytes@),
        res matches Some(n) ==> n == spec_pdf_page_count(bytes@),
{
    crossbeam_utils::thread::scope(
        |s| s.spawn(|_| pdf_extract::Document::load_mem(bytes).ok().map(|d| d.get_pages().len())).join(),
    ).ok().and_then(|joined| joined.ok())
}

/// The page texts of a PDF file, when every page was extracted: the
/// extraction and the page count return without panicking, the document
/// loads and yields as many page texts as it has pages.
pub open spec fn pdf_pages_result(bytes: Seq<u8>) -> Option<Seq<Seq<char>>> {
    if spec_pdf_page_texts_panics(bytes) || spec_pdf_page_count_panics(bytes) {
        None
    } else {
        match (spec_pdf_page_texts(bytes), spec_pdf_page_count(bytes)) {
            (Some(pages), Some(n)) => if pages.len() == n { Some(pages) } else { None },
            _ => None,
        }
    }
}

/// What `String::from_utf8` makes of `bytes`: `Some` text exactly when the
/// bytes are valid UTF-8, and then the text they encode.
#[verifier::external_body]
fn string_from_utf8(bytes: Vec<u8>) -> (s: Option<String>)
    ensures
        s is Some <==> valid_utf8(bytes@),
        s matches Some(t) ==> t@ == decode_utf8(bytes@),
{
    String::from_utf8(bytes).ok()
}

/// The text that `pdf_extract::extract_text_from_mem` extracts from a PDF
/// file's `bytes`, or `None` when it reports an error.
pub uninterp spec fn spec_pdf_text(bytes: Seq<u8>) -> Option<Seq<char>>;

/// Whether `pdf_extract::extract_text_from_mem` panics on `bytes`.
pub uninterp spec fn spec_pdf_text_panics(bytes: Seq<u8>) -> bool;

/// `pdf_extract::extract_text_from_mem`: the text of every page, in page
/// order, run on a scoped thread (`crossbeam_utils::thread::scope`) so
/// that a panic of the crate comes back as `None` instead of unwinding.
/// The contract names the result and the panic. Failing to start the
/// thread (the machine is out of threads) still panics; that is not ruled
/// out.
#[verifier::external_body]
fn pdf_text(bytes: &[u8]) -> (res: Option<Result<String, pdf_extract::OutputError>>)
    ensures
        res is None <==> spec_pdf_text_panics(bytes@),
        res matches Some(r) ==> (r is Ok <==> spec_pdf_text(bytes@) is Some),
        res matches Some(Ok(t)) ==> spec_pdf_text(bytes@) == Some(t@),
{
    crossbeam_utils::thread::scope(|s| s.spawn(|_| pdf_extract::extract_text_from_mem(bytes)).join())
        .ok()
        .and_then(|joined| joined.ok())
}

/// The text of a PDF file: what the extraction gives when it neither fails
/// nor panics.
pub open spec fn pdf_text_result(bytes: Seq<u8>) -> Option<Seq<char>> {
    if spec_pdf_text_panics(bytes) { None } else { spec_pdf_text(bytes) }
}

/// The texts of the pages, in spine order, that
/// `epub_parser::Epub::parse_from_buffer` extracts from an EPUB file's
/// `bytes`, or `None` when it reports an error.
pub uninterp spec fn spec_epub_pages(bytes: Seq<u8>) -> Option<Seq<Seq<char>>>;

/// `epub_parser::Epub::parse_from_buffer`, keeping each page's text. The
/// contract names the result.
#[verifier::external_body]
fn epub_pages(bytes: &[u8]) -> (res: Result<Vec<String>, epub_parser::epub::Error>)
    ensures
        res is Ok <==> spec_epub_pages(bytes@) is Some,
        res matches Ok(pages) ==> spec_epub_pages(bytes@) == Some(
            pages@.map_values(|p: String| p@),
        ),
{
    epub_parser::Epub::parse_from_buffer(bytes).map(
        |epub| epub.pages.into_iter().map(|page| page.content).collect(),
    )
}

/// `s` without leading whitespace.
pub open spec fn trim_start(s: Seq<char>) -> Seq<char>
    decreases s.len(),
{
    if s.len() > 0 && is_ws(s[0]) {
        trim_start(s.drop_first())
    } else {
        s
    }
}

/// `s` without trailing whitespace.
pub open spec fn trim_end(s: Seq<char>) -> Seq<char>
    decreases s.len(),
{
    if s.len() > 0 && is_ws(s.last()) {
        trim_end(s.drop_last())
    } else {
        s
    }
}

/// `s` without leading and trailing whitespace (what `str::trim` returns).
pub open spec fn trim(s: Seq<char>) -> Seq<char> {
    trim_end(trim_start(s))
}

/// Each page trimmed, the empty ones left out.
pub open spec fn trimmed_pages(pages: Seq<Seq<char>>) -> Seq<Seq<char>>
    decreases pages.len(),
{
    if pages.len() == 0 {
        seq![]
    } else {
        let rest = trimmed_pages(pages.drop_last());
        let t = trim(pages.last());
        if t.len() > 0 {
            rest.push(t)
        } else {
            rest
        }
    }
}

/// The readable text of an EPUB's pages: each page trimmed, empty pages
/// dropped, the rest separated by blank lines.
pub open spec fn epub_text(pages: Seq<Seq<char>>) -> Seq<char> {
    join(trimmed_pages(pages), seq!['\n', '\n'])
}

/// `s` with leading and trailing whitespace removed.
fn trim_chars(s: &[char]) -> (t: Vec<char>)
    ensures
        t@ == trim(s@),
{
    let mut i: usize = 0;
    assert(s@.skip(0) =~= s@);
    while i < s.len() && is_whitespace(s[i])
        invariant
            i <= s@.len(),
            trim_start(s@) == trim_start(s@.skip(i as int)),
        decreases s@.len() - i,
    {
        assert(s@.skip(i as int).drop_first() =~= s@.skip(i + 1));
        i += 1;
    }
    let mut j: usize = s.len();
    assert(s@.skip(i as int).take(j - i) =~= s@.skip(i as int));
    while j > i && is_whitespace(s[j - 1])
        invariant
            i <= j <= s@.len(),
            trim_end(trim_start(s@)) == trim_end(s@.subrange(i as int, j as int)),
        decreases j,
    {
        assert(s@.subrange(i as int, j as int).drop_last() =~= s@.subrange(i as int, j - 1));
        j -= 1;
    }
    vstd::slice::slice_to_vec(vstd::slice::slice_subrange(s, i, j))
}

/// Decodes a text file's `bytes`; `path` names the file in errors.
pub fn extract_txt(path: &str, bytes: Vec<u8>) -> (res: Result<String, OrpError>)
    ensures
        res is Ok <==> valid_utf8(bytes@),
        res matches Ok(t) ==> t@ == decode_utf8(bytes@),
        res is Err ==> (res matches Err(OrpError::InvalidUtf8 { path: p }) && p@ == path@),
{
    match string_from_utf8(bytes) {
        Some(text) => Ok(text),
        None => Err(OrpError::InvalidUtf8 { path: String::from_str(path) }),
    }
}

/// The readable prose of a markdown file's `bytes`.
pub fn extract_markdown(path: &str, bytes: Vec<u8>) -> (res: Result<String, OrpError>)
    ensures
        res is Ok <==> valid_utf8(bytes@),
        res matches Ok(t) ==> t@ == rendered_text(spec_markdown_events(decode_utf8(bytes@))),
        res is Err ==> (res matches Err(OrpError::InvalidUtf8 { path: p }) && p@ == path@),
{
    let text = extract_txt(path, bytes)?;
    Ok(markdown_to_text(text.as_str()))
}

/// The text of a PDF file's `bytes`.
pub fn extract_pdf(path: &str, bytes: &[u8]) -> (res: Result<String, OrpError>)
    ensures
        res is Ok <==> pdf_text_result(bytes@) is Some,
        res matches Ok(t) ==> pdf_text_result(bytes@) == Some(t@),
        res is Err ==> (res matches Err(OrpError::PdfExtract { path: p }) && p@ == path@),
{
    match pdf_text(bytes) {
        Some(Ok(text)) => Ok(text),
        _ => Err(OrpError::PdfExtract { path: String::from_str(path) }),
    }
}

/// The page texts that the page-by-page extraction of a PDF file gave,
/// in page order: none when it failed or panicked.
pub open spec fn pdf_pages_read(bytes: Seq<u8>) -> Seq<Seq<char>> {
    if spec_pdf_page_texts_panics(bytes) {
        Seq::empty()
    } else {
        match spec_pdf_page_texts(bytes) {
            Some(pages) => pages,
            None => Seq::empty(),
        }
    }
}

/// The texts of a PDF file's pages, in page order, for reading the file
/// page by page, and the error that stopped the reading, if one did: the
/// pages read before a page that cannot be extracted come first, then
/// `PdfExtract`. The file is read completely exactly when there is no
/// error.
pub fn extract_pdf_pages(path: &str, bytes: &[u8]) -> (res: (Vec<String>, Option<OrpError>))
    ensures
        res.0@.map_values(|p: String| p@) == pdf_pages_read(bytes@),
        res.1 is None <==> pdf_pages_result(bytes@) is Some,
        res.1 is None ==> pdf_pages_result(bytes@) == Some(pdf_pages_read(bytes@)),
        res.1 matches Some(e) ==> (e matches OrpError::PdfExtract { path: p } && p@ == path@),
{
    let pages = match pdf_page_texts(bytes) {
        Some(Ok(pages)) => pages,
        _ => {
            let none: Vec<String> = Vec::new();
            assert(none@.map_values(|p: String| p@) =~= Seq::<Seq<char>>::empty());
            return (none, Some(OrpError::PdfExtract { path: String::from_str(path) }));
        },
    };
    let complete = match pdf_page_count(bytes) {
        Some(Some(n)) => pages.len() == n,
        _ => false,
    };
    if complete {
        (pages, None)
    } else {
        (pages, Some(OrpError::PdfExtract { path: String::from_str(path) }))
    }
}

/// The readable text of an EPUB file's `bytes`: its pages in spine order,
/// each trimmed, empty ones dropped, separated by blank lines.
pub fn extract_epub(path: &str, bytes: &[u8]) -> (res: Result<String, OrpError>)
    ensures
        res is Ok <==> spec_epub_pages(bytes@) is Some,
        res matches Ok(t) ==> t@ == epub_text(spec_epub_pages(bytes@)->0),
        res is Err ==> (res matches Err(OrpError::EpubExtract { path: p }) && p@ == path@),
{
    let pages = match epub_pages(bytes) {
        Ok(pages) => pages,
        Err(_) => return Err(OrpError::EpubExtract { path: String::from_str(path) }),
    };
    Ok(join_pages(&pages))
}

/// The pages, each trimmed, empty ones dropped, separated by blank lines.
pub fn join_pages(pages: &Vec<String>) -> (text: String)
    ensures
        text@ == epub_text(pages@.map_values(|p: String| p@)),
{
    let ghost views = pages@.map_values(|p: String| p@);
    let mut kept: Vec<Vec<char>> = Vec::new();
    let mut k: usize = 0;
    assert(views.take(0) =~= Seq::<Seq<char>>::empty());
    while k < pages.len()
        invariant
            k <= pages@.len(),
            views == pages@.map_values(|p: String| p@),
            kept@.map_values(|p: Vec<char>| p@) == trimmed_pages(views.take(k as int)),
        decreases pages@.len() - k,
    {
        let cs = chars_of(pages[k].as_str());
        let t = trim_chars(cs.as_slice());
        assert(views.take(k + 1).drop_last() =~= views.take(k as int));
        if t.len() > 0 {
            kept.push(t);
            assert(kept@.map_values(|p: Vec<char>| p@) =~= trimmed_pages(views.take(k + 1)));
        }
        k += 1;
    }
    assert(views.take(k as int) =~= views);
    let sep = vec!['\n', '\n'];
    assert(sep@ =~= seq!['\n', '\n']);
    let joined = crate::chars::join_chars(&kept, sep.as_slice());
    string_of(joined.as_slice())
}

} // verus!
