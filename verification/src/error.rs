use vstd::prelude::*;
use vstd::string::StringExecFns;

use crate::chars::push_char;

verus! {

/// What can go wrong while loading and reading a document.
#[derive(Debug, Clone, PartialEq, Eq)]
pub enum OrpError {
    UnsupportedExtension { path: String },
    ReadFile { path: String },
    InvalidUtf8 { path: String },
    PdfExtract { path: String },
    EpubExtract { path: String },
    NoReadableText { path: String },
    InvalidWpm { actual: u16, min: u16, max: u16 },
    Terminal,
    StreamDisconnected,
}

/// The result of a fallible reader operation.
pub type Result<T> = core::result::Result<T, OrpError>;

/// The decimal digit for `d`.
pub open spec fn digit_char(d: int) -> char {
    if d == 0 { '0' } else if d == 1 { '1' } else if d == 2 { '2' } else if d == 3 { '3' }
    else if d == 4 { '4' } else if d == 5 { '5' } else if d == 6 { '6' } else if d == 7 { '7' }
    else if d == 8 { '8' } else { '9' }
}

/// The decimal representation of `n`, without leading zeros.
pub open spec fn decimal(n: nat) -> Seq<char>
    decreases n,
{
    if n < 10 {
        seq![digit_char(n as int)]
    } else {
        decimal(n / 10).push(digit_char((n % 10) as int))
    }
}

/// The message shown for `e`.
pub open spec fn error_message(e: OrpError) -> Seq<char> {
    match e {
        OrpError::UnsupportedExtension { path } => "unsupported file extension for "@ + path@,
        OrpError::ReadFile { path } => "failed to read "@ + path@,
        OrpError::InvalidUtf8 { path } => path@ + " is not valid UTF-8 text"@,
        OrpError::PdfExtract { path } => "failed to extract text from PDF "@ + path@,
        OrpError::EpubExtract { path } => "failed to extract text from EPUB "@ + path@,
        OrpError::NoReadableText { path } => "no readable text found in "@ + path@,
        OrpError::InvalidWpm { actual, min, max } => "WPM must be between "@ + decimal(
            min as nat,
        ) + " and "@ + decimal(max as nat) + "; got "@ + decimal(actual as nat),
        OrpError::Terminal => "terminal error"@,
        OrpError::StreamDisconnected => "text stream disconnected"@,
    }
}

/// The number that the decimal digits `s` stand for, each digit read by its
/// character code.
pub open spec fn decimal_value(s: Seq<char>) -> int
    decreases s.len(),
{
    if s.len() == 0 {
        0
    } else {
        decimal_value(s.drop_last()) * 10 + ((s.last() as int) - ('0' as int))
    }
}

/// The decimal text of a number reads back as that number: it is made of
/// the characters `'0'..='9'` only, does not start with a superfluous
/// `'0'`, and its digits, by their character codes, give `n` in base 10.
pub proof fn law_decimal_reads_back(n: nat)
    ensures
        decimal_value(decimal(n)) == n,
        decimal(n).len() > 0,
        n >= 10 ==> decimal(n).len() > 1,
        forall|i: int| 0 <= i < decimal(n).len() ==> '0' <= #[trigger] decimal(n)[i] <= '9',
        decimal(n).len() > 1 ==> decimal(n)[0] != '0',
    decreases n,
{
    if n < 10 {
        let c = digit_char(n as int);
        assert(decimal(n) =~= seq![c]);
        assert(seq![c].drop_last() =~= Seq::<char>::empty());
        assert(decimal_value(Seq::<char>::empty()) == 0);
        assert((c as int) - ('0' as int) == n);
        assert(decimal_value(seq![c]) == n);
    } else {
        let m = n / 10;
        law_decimal_reads_back(m);
        let d = (n % 10) as int;
        let s = decimal(n);
        assert(s == decimal(m).push(digit_char(d)));
        assert(s.drop_last() =~= decimal(m));
        assert(s.last() == digit_char(d));
        assert((digit_char(d) as int) - ('0' as int) == d);
        assert(decimal_value(s) == decimal_value(decimal(m)) * 10 + d);
        assert(m * 10 + d == n);
        assert forall|i: int| 0 <= i < s.len() implies '0' <= #[trigger] s[i] <= '9' by {
            if i < s.len() - 1 {
                assert(s[i] == decimal(m)[i]);
            }
        }
        assert(s[0] == decimal(m)[0]);
        if m < 10 {
            assert(decimal(m) =~= seq![digit_char(m as int)]);
            assert(m >= 1);
        }
    }
}

fn digit(d: u64) -> (c: char)
    requires
        d < 10,
    ensures
        c == digit_char(d as int),
{
    if d == 0 { '0' } else if d == 1 { '1' } else if d == 2 { '2' } else if d == 3 { '3' }
    else if d == 4 { '4' } else if d == 5 { '5' } else if d == 6 { '6' } else if d == 7 { '7' }
    else if d == 8 { '8' } else { '9' }
}

/// Appends the decimal representation of `n` to `out`.
pub(crate) fn push_decimal(out: &mut String, n: u64)
    ensures
        final(out)@ == old(out)@ + decimal(n as nat),
    decreases n,
{
    if n >= 10 {
        push_decimal(out, n / 10);
    }
    push_char(out, digit(n % 10));
    proof {
        if n < 10 {
            assert(decimal(n as nat) =~= seq![digit_char(n as int)]);
        }
    }
}

impl OrpError {
    /// The error's message, as shown to the reader.
    pub fn message(&self) -> (msg: String)
        ensures
            msg@ == error_message(*self),
    {
        match self {
            OrpError::UnsupportedExtension { path } => {
                let mut s = String::from_str("unsupported file extension for ");
                s.append(path.as_str());
                proof { reveal_strlit("unsupported file extension for "); }
                s
            },
            OrpError::ReadFile { path } => {
                let mut s = String::from_str("failed to read ");
                s.append(path.as_str());
                proof { reveal_strlit("failed to read "); }
                s
            },
            OrpError::InvalidUtf8 { path } => {
                let mut s = String::from_str(path.as_str());
                s.append(" is not valid UTF-8 text");
                proof { reveal_strlit(" is not valid UTF-8 text"); }
                s
            },
            OrpError::PdfExtract { path } => {
                let mut s = String::from_str("failed to extract text from PDF ");
                s.append(path.as_str());
                proof { reveal_strlit("failed to extract text from PDF "); }
                s
            },
            OrpError::EpubExtract { path } => {
                let mut s = String::from_str("failed to extract text from EPUB ");
                s.append(path.as_str());
                proof { reveal_strlit("failed to extract text from EPUB "); }
                s
            },
            OrpError::NoReadableText { path } => {
                let mut s = String::from_str("no readable text found in ");
                s.append(path.as_str());
                proof { reveal_strlit("no readable text found in "); }
                s
            },
            OrpError::InvalidWpm { actual, min, max } => {
                let mut s = String::from_str("WPM must be between ");
                push_decimal(&mut s, *min as u64);
                s.append(" and ");
                push_decimal(&mut s, *max as u64);
                s.append("; got ");
                push_decimal(&mut s, *actual as u64);
                proof {
                    reveal_strlit("WPM must be between ");
                    reveal_strlit(" and ");
                    reveal_strlit("; got ");
                }
                s
            },
            OrpError::Terminal => {
                let s = String::from_str("terminal error");
                proof { reveal_strlit("terminal error"); }
                s
            },
            OrpError::StreamDisconnected => {
                let s = String::from_str("text stream disconnected");
                proof { reveal_strlit("text stream disconnected"); }
                s
            },
        }
    }
}

} // verus!
