//! The segment tokenizer: decomposes a pattern body into an ordered sequence
//! of typed segments, and the [`Pattern`] record that carries the body, its
//! flags, and its segments.

use vstd::prelude::*;
use crate::parser::ParseError;

verus! {

/// One typed token of a pattern body, in left-to-right scan order.
#[derive(Debug, PartialEq)]
pub enum Segment {
    /// A maximal run of non-special characters; escaped characters are folded
    /// in as one-character literals.
    Literal(String),
    /// A lone `*`: matches any run of characters excluding the separator.
    Wildcard,
    /// A lone `?`: matches exactly one character excluding the separator.
    SingleWildcard,
    /// A `**` recognized as a recursive wildcard: matches zero or more whole
    /// path segments.
    DoubleWildcard,
    /// A literal `/`.
    Separator,
    /// A bracketed class. The tokenizer never produces this variant (brackets
    /// scan as ordinary literal characters); it is carried for rendering.
    CharacterClass { negated: bool, chars: Vec<char>, ranges: Vec<(char, char)> },
}

/// The mathematical shape of a [`Segment`]: literal text as a character
/// sequence, the other variants as themselves.
pub enum SegView {
    Literal(Seq<char>),
    Wildcard,
    SingleWildcard,
    DoubleWildcard,
    Separator,
    CharacterClass { negated: bool, chars: Seq<char>, ranges: Seq<(char, char)> },
}

impl View for Segment {
    type V = SegView;

    open spec fn view(&self) -> SegView {
        match self {
            Segment::Literal(s) => SegView::Literal(s@),
            Segment::Wildcard => SegView::Wildcard,
            Segment::SingleWildcard => SegView::SingleWildcard,
            Segment::DoubleWildcard => SegView::DoubleWildcard,
            Segment::Separator => SegView::Separator,
            Segment::CharacterClass { negated, chars, ranges } => SegView::CharacterClass {
                negated: *negated,
                chars: chars@,
                ranges: ranges@,
            },
        }
    }
}

impl DeepView for Segment {
    type V = SegView;

    open spec fn deep_view(&self) -> SegView {
        self.view()
    }
}

/// The characters that end a literal run: each is handled by a dedicated
/// scan rule (or, for `[`, reserved for one).
pub open spec fn is_special_char(c: char) -> bool {
    c == '?' || c == '*' || c == '[' || c == '/' || c == '\\'
}

/// Length of the maximal leading run of non-special characters of `s`.
pub open spec fn literal_run_len(s: Seq<char>) -> nat
    decreases s.len(),
{
    if s.len() == 0 {
        0
    } else if is_special_char(s[0]) {
        0
    } else {
        1 + literal_run_len(s.skip(1))
    }
}

/// `literal_run_len` is the length of a maximal non-special prefix.
pub proof fn lemma_literal_run_len_bounds(s: Seq<char>)
    ensures
        literal_run_len(s) <= s.len(),
        forall|i: int| 0 <= i < literal_run_len(s) ==> !is_special_char(s[i]),
        literal_run_len(s) < s.len() ==> is_special_char(s[literal_run_len(s) as int]),
    decreases s.len(),
{
    if s.len() == 0 || is_special_char(s[0]) {
    } else {
        lemma_literal_run_len_bounds(s.skip(1));
        assert forall|i: int| 0 <= i < literal_run_len(s) implies !is_special_char(s[i]) by {
            if i > 0 {
                assert(s.skip(1)[i - 1] == s[i]);
            }
        }
        if literal_run_len(s) < s.len() {
            assert(s.skip(1)[literal_run_len(s) - 1] == s[literal_run_len(s) as int]);
        }
    }
}

/// The run length is pinned by its characteristic property: `k` non-special
/// characters followed by the end or a special character.
pub proof fn lemma_literal_run_len_is(s: Seq<char>, k: int)
    requires
        0 <= k <= s.len(),
        forall|m: int| 0 <= m < k ==> !is_special_char(s[m]),
        k < s.len() ==> is_special_char(s[k]),
    ensures
        literal_run_len(s) == k,
    decreases s.len(),
{
    if k == 0 {
    } else {
        assert(!is_special_char(s[0]));
        assert forall|m: int| 0 <= m < k - 1 implies !is_special_char(s.skip(1)[m]) by {
            assert(s.skip(1)[m] == s[m + 1]);
        }
        if k - 1 < s.skip(1).len() {
            assert(s.skip(1)[k - 1] == s[k]);
        }
        lemma_literal_run_len_is(s.skip(1), k - 1);
    }
}

#[via_fn]
proof fn spec_tokenize_from_decreases(s: Seq<char>, acc: Seq<SegView>) {
    if s.len() > 0 && !(s[0] == '?') && !(s[0] == '*') && !(s[0] == '/') && !(s[0] == '\\') {
        lemma_literal_run_len_bounds(s.skip(1));
    }
}

/// One left-to-right scan of the remaining input `s`, with `acc` the segments
/// already emitted (the double-asterisk rule looks back at the last emitted
/// segment). Returns all segments emitted by the end of the input.
pub open spec fn spec_tokenize_from(s: Seq<char>, acc: Seq<SegView>) -> Seq<SegView>
    decreases s.len(),
        via spec_tokenize_from_decreases
{
    if s.len() == 0 {
        acc
    } else if s[0] == '?' {
        spec_tokenize_from(s.skip(1), acc.push(SegView::SingleWildcard))
    } else if s[0] == '*' {
        if s.len() >= 2 && s[1] == '*' {
            if (acc.len() > 0 && acc.last() == SegView::Separator) || (s.len() >= 3 && s[2]
                == '/') {
                spec_tokenize_from(s.skip(2), acc.push(SegView::DoubleWildcard))
            } else {
                spec_tokenize_from(s.skip(2), acc.push(SegView::Wildcard).push(SegView::Wildcard))
            }
        } else {
            spec_tokenize_from(s.skip(1), acc.push(SegView::Wildcard))
        }
    } else if s[0] == '/' {
        spec_tokenize_from(s.skip(1), acc.push(SegView::Separator))
    } else if s[0] == '\\' {
        if s.len() >= 2 {
            spec_tokenize_from(s.skip(2), acc.push(SegView::Literal(seq![s[1]])))
        } else {
            acc
        }
    } else {
        let k = 1 + literal_run_len(s.skip(1));
        spec_tokenize_from(s.skip(k as int), acc.push(SegView::Literal(s.take(k as int))))
    }
}

/// The segments of a pattern body: what the tokenizer produces on `s`.
pub open spec fn spec_tokenize(s: Seq<char>) -> Seq<SegView> {
    spec_tokenize_from(s, Seq::empty())
}

/// Decides `is_special_char` on a concrete character.
fn is_special(c: char) -> (b: bool)
    ensures
        b == is_special_char(c),
{
    c == '?' || c == '*' || c == '[' || c == '/' || c == '\\'
}

/// One parsed ignore pattern: the body as written (after prefix stripping),
/// the prefix/suffix flags the classifier recorded, and the body's segments.
#[derive(Debug)]
pub struct Pattern {
    pub raw: String,
    pub is_negated: bool,
    pub has_leading_slash: bool,
    pub has_trailing_slash: bool,
    pub was_escaped: bool,
    pub segments: Vec<Segment>,
}

/// The mathematical shape of a [`Pattern`].
pub struct PatternView {
    pub raw: Seq<char>,
    pub is_negated: bool,
    pub has_leading_slash: bool,
    pub has_trailing_slash: bool,
    pub was_escaped: bool,
    pub segments: Seq<SegView>,
}

impl View for Pattern {
    type V = PatternView;

    open spec fn view(&self) -> PatternView {
        PatternView {
            raw: self.raw@,
            is_negated: self.is_negated,
            has_leading_slash: self.has_leading_slash,
            has_trailing_slash: self.has_trailing_slash,
            was_escaped: self.was_escaped,
            segments: self.segments.deep_view(),
        }
    }
}

impl DeepView for Pattern {
    type V = PatternView;

    open spec fn deep_view(&self) -> PatternView {
        self.view()
    }
}

impl PatternView {
    /// A pattern as the classifier builds it: its segments are the
    /// tokenization of its body, and an escaped pattern is never negated
    /// (the escape consumes the character before negation detection runs).
    pub open spec fn wf(self) -> bool {
        &&& self.segments == spec_tokenize(self.raw)
        &&& self.was_escaped ==> !self.is_negated
    }
}

impl Pattern {
    /// Builds a pattern record from its body and flags, tokenizing the body.
    /// Never fails: the tokenizer accepts every body.
    pub fn new(
        raw: String,
        is_negated: bool,
        has_leading_slash: bool,
        has_trailing_slash: bool,
        was_escaped: bool,
    ) -> (r: Result<Pattern, ParseError>)
        requires
            was_escaped ==> !is_negated,
        ensures
            r matches Ok(p) && p@ == (PatternView {
                raw: raw@,
                is_negated,
                has_leading_slash,
                has_trailing_slash,
                was_escaped,
                segments: spec_tokenize(raw@),
            }),
            r matches Ok(p) && p@.wf(),
    {
        let segments = match Pattern::parse_segments(raw.as_str()) {
            Ok(segments) => segments,
            Err(e) => {
                return Err(e);
            },
        };
        Ok(Pattern { raw, is_negated, has_leading_slash, has_trailing_slash, was_escaped, segments })
    }

    /// Tokenizes a pattern body in one forward scan. Never fails: every
    /// character sequence produces a segment list.
    pub fn parse_segments(raw: &str) -> (r: Result<Vec<Segment>, ParseError>)
        ensures
            r matches Ok(segments) && segments.deep_view() == spec_tokenize(raw@),
    {
        let mut segments: Vec<Segment> = Vec::new();
        let n = raw.unicode_len();
        let mut i: usize = 0;
        proof {
            assert(raw@.skip(0) =~= raw@);
            assert(segments.deep_view() =~= Seq::<SegView>::empty());
        }
        while i < n
            invariant
                i <= n,
                n == raw@.len(),
                spec_tokenize_from(raw@.skip(i as int), segments.deep_view()) == spec_tokenize(
                    raw@,
                ),
            decreases n - i,
        {
            let ghost rest = raw@.skip(i as int);
            let ghost acc = segments.deep_view();
            let c = raw.get_char(i);
            proof {
                assert(rest[0] == c);
            }
            if c == '?' {
                segments.push(Segment::SingleWildcard);
                proof {
                    assert(segments.deep_view() =~= acc.push(SegView::SingleWildcard));
                    assert(raw@.skip(i + 1) =~= rest.skip(1));
                }
                i = i + 1;
            } else if c == '*' {
                proof {
                    if i + 1 < n {
                        assert(rest[1] == raw@[i + 1]);
                    }
                }
                if i + 1 < n && raw.get_char(i + 1) == '*' {
                    let prev_is_sep = segments.len() > 0 && (match segments[segments.len() - 1] {
                        Segment::Separator => true,
                        _ => false,
                    });
                    let next_is_slash = i + 2 < n && raw.get_char(i + 2) == '/';
                    proof {
                        assert(prev_is_sep == (acc.len() > 0 && acc.last() == SegView::Separator));
                        if i + 2 < n {
                            assert(rest[2] == raw@[i + 2]);
                        }
                        assert(next_is_slash == (rest.len() >= 3 && rest[2] == '/'));
                    }
                    if prev_is_sep || next_is_slash {
                        segments.push(Segment::DoubleWildcard);
                        proof {
                            assert(segments.deep_view() =~= acc.push(SegView::DoubleWildcard));
                        }
                    } else {
                        segments.push(Segment::Wildcard);
                        segments.push(Segment::Wildcard);
                        proof {
                            assert(segments.deep_view() =~= acc.push(SegView::Wildcard).push(
                                SegView::Wildcard,
                            ));
                        }
                    }
                    proof {
                        assert(raw@.skip(i + 2) =~= rest.skip(2));
                    }
                    i = i + 2;
                } else {
                    segments.push(Segment::Wildcard);
                    proof {
                        assert(segments.deep_view() =~= acc.push(SegView::Wildcard));
                        assert(raw@.skip(i + 1) =~= rest.skip(1));
                    }
                    i = i + 1;
                }
            } else if c == '/' {
                segments.push(Segment::Separator);
                proof {
                    assert(segments.deep_view() =~= acc.push(SegView::Separator));
                    assert(raw@.skip(i + 1) =~= rest.skip(1));
                }
                i = i + 1;
            } else if c == '\\' {
                if i + 1 < n {
                    let lit = raw.substring_char(i + 1, i + 2);
                    segments.push(Segment::Literal(String::from_str(lit)));
                    proof {
                        assert(rest[1] == raw@[i + 1]);
                        assert(lit@ =~= seq![rest[1]]);
                        assert(segments.deep_view() =~= acc.push(SegView::Literal(seq![rest[1]])));
                        assert(raw@.skip(i + 2) =~= rest.skip(2));
                    }
                    i = i + 2;
                } else {
                    proof {
                        assert(rest.len() == 1);
                        assert(raw@.skip(n as int) =~= rest.skip(1));
                        assert(spec_tokenize_from(rest, acc) == acc);
                        assert(spec_tokenize_from(raw@.skip(n as int), acc) == acc);
                    }
                    i = n;
                }
            } else {
                let mut j = i + 1;
                while j < n && !is_special(raw.get_char(j))
                    invariant
                        i < j <= n,
                        n == raw@.len(),
                        forall|m: int| i < m < j ==> !is_special_char(raw@[m]),
                    decreases n - j,
                {
                    j = j + 1;
                }
                let lit = raw.substring_char(i, j);
                segments.push(Segment::Literal(String::from_str(lit)));
                proof {
                    let tail = rest.skip(1);
                    assert forall|m: int| 0 <= m < j - i - 1 implies !is_special_char(
                        tail[m],
                    ) by {
                        assert(tail[m] == raw@[i + 1 + m]);
                    }
                    if j < n {
                        assert(tail[j - i - 1] == raw@[j as int]);
                    }
                    lemma_literal_run_len_is(tail, j - i - 1);
                    assert(lit@ =~= rest.take(j - i));
                    assert(segments.deep_view() =~= acc.push(SegView::Literal(rest.take(j - i))));
                    assert(raw@.skip(j as int) =~= rest.skip(j - i));
                }
                i = j;
            }
        }
        proof {
            assert(raw@.skip(n as int) =~= Seq::<char>::empty());
        }
        Ok(segments)
    }
}

} // verus!
