//! Line classification: turns one line of an ignore file into a blank,
//! comment, or pattern entry, and pulls classified entries off a buffered
//! sequence of lines.

use vstd::prelude::*;
use crate::pattern::{Pattern, PatternView, spec_tokenize};
use crate::text::{spec_trim_end, trim_end_chars};

verus! {

/// Declares `std::io::Error` so that a read failure of the underlying line
/// source can be carried inside [`ParseError`]; the library itself never
/// constructs or inspects one.
#[verifier::external_type_specification]
#[verifier::external_body]
pub struct ExIoError(std::io::Error);

/// A failure while parsing one line: either the underlying source could not
/// produce the line, or the pattern body was rejected by the tokenizer (the
/// latter is reserved; the current tokenizer accepts every body).
#[derive(Debug)]
pub enum ParseError {
    Io(std::io::Error),
    InvalidPattern,
}

/// One classified line of an ignore file.
#[derive(Debug)]
pub enum GitignoreEntry {
    /// A pattern line, with its flags and segments.
    Pattern(Pattern),
    /// An empty line (after trailing-whitespace trimming).
    Blank,
    /// A comment line: the text after the leading `#`, kept verbatim.
    Comment(String),
}

/// The mathematical shape of a [`GitignoreEntry`].
pub enum EntryView {
    Pattern(PatternView),
    Blank,
    Comment(Seq<char>),
}

impl View for GitignoreEntry {
    type V = EntryView;

    open spec fn view(&self) -> EntryView {
        match self {
            GitignoreEntry::Pattern(p) => EntryView::Pattern(p@),
            GitignoreEntry::Blank => EntryView::Blank,
            GitignoreEntry::Comment(s) => EntryView::Comment(s@),
        }
    }
}

impl DeepView for GitignoreEntry {
    type V = EntryView;

    open spec fn deep_view(&self) -> EntryView {
        self.view()
    }
}

/// Classification of one already-trimmed line, in strict order: an empty line
/// is blank; a line starting with `#` is a comment carrying the rest of the
/// line; anything else is a pattern, with a leading `\` recorded as an escape
/// and dropped, then a leading `!` (only if unescaped) recorded as negation
/// and dropped, and the separator flags read off the residual body.
pub open spec fn spec_classify(line: Seq<char>) -> EntryView {
    if line.len() == 0 {
        EntryView::Blank
    } else if line[0] == '#' {
        EntryView::Comment(line.skip(1))
    } else {
        let was_escaped = line[0] == '\\';
        let after_escape = if was_escaped {
            line.skip(1)
        } else {
            line
        };
        let is_negated = !was_escaped && after_escape.len() > 0 && after_escape[0] == '!';
        let body = if is_negated {
            after_escape.skip(1)
        } else {
            after_escape
        };
        EntryView::Pattern(
            PatternView {
                raw: body,
                is_negated,
                has_leading_slash: body.len() > 0 && body[0] == '/',
                has_trailing_slash: body.len() > 0 && body.last() == '/' && !(body.len() >= 2
                    && body[body.len() - 2] == '\\'),
                was_escaped,
                segments: spec_tokenize(body),
            },
        )
    }
}

/// Every pattern the classifier yields is well-formed: its segments are the
/// tokenization of its body, and it is never both escaped and negated.
pub proof fn lemma_classify_wf(line: Seq<char>)
    ensures
        spec_classify(line) matches EntryView::Pattern(p) ==> p.wf(),
{
}

/// For every non-empty line that begins with neither `#` nor `\`,
/// classification yields a pattern whose body is the line with a leading `!`
/// (if present) removed, and whose negation and separator flags follow the
/// documented prefix and suffix rules.
pub proof fn lemma_classify_plain_line(line: Seq<char>)
    requires
        line.len() > 0,
        line[0] != '#',
        line[0] != '\\',
    ensures
        spec_classify(line) matches EntryView::Pattern(p) && {
            let body = if line[0] == '!' {
                line.skip(1)
            } else {
                line
            };
            &&& p.raw == body
            &&& !p.was_escaped
            &&& p.is_negated == (line[0] == '!')
            &&& p.has_leading_slash == (body.len() > 0 && body[0] == '/')
            &&& p.has_trailing_slash == (body.len() > 0 && body.last() == '/' && !(body.len() >= 2
                && body[body.len() - 2] == '\\'))
            &&& p.segments == spec_tokenize(body)
        },
{
}

/// Pulls lines one at a time off a buffered list of input lines and
/// classifies each in turn.
pub struct Parser {
    lines: Vec<String>,
    pos: usize,
}

/// The mathematical shape of a [`Parser`]: the buffered lines and how many of
/// them have been consumed.
pub struct ParserView {
    pub lines: Seq<Seq<char>>,
    pub pos: int,
}

impl View for Parser {
    type V = ParserView;

    closed spec fn view(&self) -> ParserView {
        ParserView { lines: self.lines.deep_view(), pos: self.pos as int }
    }
}

impl Parser {
    /// A parser over the given lines (each with any line terminator already
    /// removed), positioned at the first.
    pub fn new(lines: Vec<String>) -> (p: Parser)
        ensures
            p@.lines == lines.deep_view(),
            p@.pos == 0,
    {
        Parser { lines, pos: 0 }
    }

    /// Classifies one line. The line is first stripped of all trailing
    /// whitespace; classification itself never fails.
    pub fn parse_line(line: &str) -> (r: Result<GitignoreEntry, ParseError>)
        ensures
            r matches Ok(e) && e@ == spec_classify(spec_trim_end(line@)),
    {
        let trimmed = trim_end_chars(line);
        let n = trimmed.unicode_len();
        if n == 0 {
            return Ok(GitignoreEntry::Blank);
        }
        let first = trimmed.get_char(0);
        if first == '#' {
            let comment = trimmed.substring_char(1, n);
            proof {
                assert(comment@ =~= trimmed@.skip(1));
            }
            return Ok(GitignoreEntry::Comment(String::from_str(comment)));
        }
        let was_escaped = first == '\\';
        let (after_escape, m) = if was_escaped {
            (trimmed.substring_char(1, n), n - 1)
        } else {
            (trimmed, n)
        };
        proof {
            if was_escaped {
                assert(after_escape@ =~= trimmed@.skip(1));
            }
        }
        let is_negated = !was_escaped && m > 0 && after_escape.get_char(0) == '!';
        let (body, body_len) = if is_negated {
            (after_escape.substring_char(1, m), m - 1)
        } else {
            (after_escape, m)
        };
        proof {
            if is_negated {
                assert(body@ =~= after_escape@.skip(1));
            }
        }
        let has_leading_slash = body_len > 0 && body.get_char(0) == '/';
        let has_trailing_slash = body_len > 0 && body.get_char(body_len - 1) == '/' && !(body_len
            >= 2 && body.get_char(body_len - 2) == '\\');
        let p = match Pattern::new(
            String::from_str(body),
            is_negated,
            has_leading_slash,
            has_trailing_slash,
            was_escaped,
        ) {
            Ok(p) => p,
            Err(e) => {
                return Err(e);
            },
        };
        Ok(GitignoreEntry::Pattern(p))
    }

    /// Classifies the next buffered line, or returns `None` once every line
    /// has been consumed.
    pub fn parse_next_line(&mut self) -> (r: Option<Result<GitignoreEntry, ParseError>>)
        ensures
            final(self)@.lines == old(self)@.lines,
            old(self)@.pos >= old(self)@.lines.len() ==> r is None && final(self)@.pos == old(
                self,
            )@.pos,
            old(self)@.pos < old(self)@.lines.len() ==> {
                &&& final(self)@.pos == old(self)@.pos + 1
                &&& r matches Some(entry) && entry matches Ok(e) && e@ == spec_classify(
                    spec_trim_end(old(self)@.lines[old(self)@.pos]),
                )
            },
    {
        if self.pos >= self.lines.len() {
            return None;
        }
        let line = &self.lines[self.pos];
        self.pos = self.pos + 1;
        Some(Parser::parse_line(line.as_str()))
    }
}

} // verus!
