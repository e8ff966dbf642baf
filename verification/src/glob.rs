//! The glob renderer: reassembles a pattern's segments into one glob string,
//! applying the anchoring rules, and the driver that maps a list of classified
//! entries to the final list of glob patterns.

use vstd::prelude::*;
use crate::parser::{EntryView, GitignoreEntry};
use crate::pattern::{
    Pattern, PatternView, SegView, Segment, literal_run_len, spec_tokenize, spec_tokenize_from,
};

verus! {

/// One rendered glob: the glob text and the negation flag carried through
/// unchanged from the pattern it was rendered from.
#[derive(Debug, PartialEq)]
pub struct GlobPattern {
    pub pattern: String,
    pub is_negated: bool,
}

/// The mathematical shape of a [`GlobPattern`].
pub struct GlobView {
    pub pattern: Seq<char>,
    pub is_negated: bool,
}

impl View for GlobPattern {
    type V = GlobView;

    open spec fn view(&self) -> GlobView {
        GlobView { pattern: self.pattern@, is_negated: self.is_negated }
    }
}

impl DeepView for GlobPattern {
    type V = GlobView;

    open spec fn deep_view(&self) -> GlobView {
        self.view()
    }
}

/// Renders the ranges of a character class, each as `start-end`.
pub open spec fn spec_render_ranges(ranges: Seq<(char, char)>) -> Seq<char>
    decreases ranges.len(),
{
    if ranges.len() == 0 {
        Seq::empty()
    } else {
        seq![ranges[0].0, '-', ranges[0].1] + spec_render_ranges(ranges.skip(1))
    }
}

/// The glob text of one segment.
pub open spec fn spec_render_segment(seg: SegView) -> Seq<char> {
    match seg {
        SegView::Literal(s) => s,
        SegView::Wildcard => seq!['*'],
        SegView::SingleWildcard => seq!['?'],
        SegView::DoubleWildcard => seq!['*', '*'],
        SegView::Separator => seq!['/'],
        SegView::CharacterClass { negated, chars, ranges } => seq!['['] + (if negated {
            seq!['^']
        } else {
            Seq::empty()
        }) + chars + spec_render_ranges(ranges) + seq![']'],
    }
}

/// The glob text of a segment sequence: each segment rendered in order.
pub open spec fn spec_render_segments(segs: Seq<SegView>) -> Seq<char>
    decreases segs.len(),
{
    if segs.len() == 0 {
        Seq::empty()
    } else {
        spec_render_segment(segs[0]) + spec_render_segments(segs.skip(1))
    }
}

/// The anchor prefix: `.` for a pattern anchored by a leading separator,
/// `**/` (match at any depth) otherwise.
pub open spec fn spec_anchor(p: PatternView) -> Seq<char> {
    if p.has_leading_slash {
        seq!['.']
    } else {
        seq!['*', '*', '/']
    }
}

/// The directory suffix: `**` for a directory-only pattern (trailing
/// separator), nothing otherwise.
pub open spec fn spec_suffix(p: PatternView) -> Seq<char> {
    if p.has_trailing_slash {
        seq!['*', '*']
    } else {
        Seq::empty()
    }
}

/// The full glob text of a pattern: anchor prefix, then every segment in
/// order, then the directory suffix.
pub open spec fn spec_render(p: PatternView) -> Seq<char> {
    spec_anchor(p) + spec_render_segments(p.segments) + spec_suffix(p)
}

/// Rendering distributes over appending one segment at the end.
pub proof fn lemma_render_segments_push(segs: Seq<SegView>, seg: SegView)
    ensures
        spec_render_segments(segs.push(seg)) == spec_render_segments(segs) + spec_render_segment(
            seg,
        ),
    decreases segs.len(),
{
    assert(segs.push(seg).len() == segs.len() + 1);
    assert(spec_render_segments(segs.push(seg)) == spec_render_segment(segs.push(seg)[0])
        + spec_render_segments(segs.push(seg).skip(1)));
    if segs.len() == 0 {
        assert(segs.push(seg)[0] == seg);
        assert(segs.push(seg).skip(1) =~= Seq::<SegView>::empty());
        assert(spec_render_segment(seg) + Seq::<char>::empty() =~= spec_render_segment(seg));
        assert(Seq::<char>::empty() + spec_render_segment(seg) =~= spec_render_segment(seg));
    } else {
        assert(segs.push(seg)[0] == segs[0]);
        assert(segs.push(seg).skip(1) =~= segs.skip(1).push(seg));
        lemma_render_segments_push(segs.skip(1), seg);
        assert(spec_render_segment(segs[0]) + (spec_render_segments(segs.skip(1))
            + spec_render_segment(seg)) =~= (spec_render_segment(segs[0]) + spec_render_segments(
            segs.skip(1),
        )) + spec_render_segment(seg));
    }
    assert(spec_render_segments(segs.push(seg)) =~= spec_render_segments(segs)
        + spec_render_segment(seg));
}

/// Rendering distributes over appending one range at the end.
pub proof fn lemma_render_ranges_push(ranges: Seq<(char, char)>, r: (char, char))
    ensures
        spec_render_ranges(ranges.push(r)) == spec_render_ranges(ranges) + seq![r.0, '-', r.1],
    decreases ranges.len(),
{
    assert(ranges.push(r).len() == ranges.len() + 1);
    assert(spec_render_ranges(ranges.push(r)) == seq![ranges.push(r)[0].0, '-', ranges.push(r)[0].1]
        + spec_render_ranges(ranges.push(r).skip(1)));
    if ranges.len() == 0 {
        assert(ranges.push(r)[0] == r);
        assert(ranges.push(r).skip(1) =~= Seq::<(char, char)>::empty());
        assert(seq![r.0, '-', r.1] + Seq::<char>::empty() =~= seq![r.0, '-', r.1]);
        assert(Seq::<char>::empty() + seq![r.0, '-', r.1] =~= seq![r.0, '-', r.1]);
    } else {
        assert(ranges.push(r)[0] == ranges[0]);
        assert(ranges.push(r).skip(1) =~= ranges.skip(1).push(r));
        lemma_render_ranges_push(ranges.skip(1), r);
        assert(seq![ranges[0].0, '-', ranges[0].1] + (spec_render_ranges(ranges.skip(1))
            + seq![r.0, '-', r.1]) =~= (seq![ranges[0].0, '-', ranges[0].1] + spec_render_ranges(
            ranges.skip(1),
        )) + seq![r.0, '-', r.1]);
    }
    assert(spec_render_ranges(ranges.push(r)) =~= spec_render_ranges(ranges)
        + seq![r.0, '-', r.1]);
}

/// Appends the rendering of one character class to `glob_str`: `[`, the
/// negation marker if any, each discrete character, each range as
/// `start-end`, and `]`.
fn append_char_class(
    glob_str: &mut String,
    negated: bool,
    chars: &Vec<char>,
    ranges: &Vec<(char, char)>,
)
    ensures
        final(glob_str)@ == old(glob_str)@ + spec_render_segment(
            SegView::CharacterClass { negated, chars: chars@, ranges: ranges@ },
        ),
{
    let ghost before = glob_str@;
    glob_str.append("[");
    if negated {
        glob_str.append("^");
    }
    proof {
        reveal_strlit("[");
        reveal_strlit("^");
        assert(glob_str@ =~= before + seq!['['] + (if negated {
            seq!['^']
        } else {
            Seq::<char>::empty()
        }));
    }
    let ghost mid = glob_str@;
    let mut a: usize = 0;
    proof {
        assert(chars@.take(0) =~= Seq::<char>::empty());
        assert(mid + chars@.take(0) =~= mid);
    }
    while a < chars.len()
        invariant
            a <= chars.len(),
            glob_str@ == mid + chars@.take(a as int),
        decreases chars.len() - a,
    {
        crate::text::push_char(glob_str, chars[a]);
        proof {
            assert(chars@.take(a + 1) =~= chars@.take(a as int).push(chars@[a as int]));
            assert(glob_str@ =~= mid + chars@.take(a + 1));
        }
        a = a + 1;
    }
    proof {
        assert(chars@.take(chars@.len() as int) =~= chars@);
    }
    let ghost mid2 = glob_str@;
    let mut b: usize = 0;
    proof {
        assert(spec_render_ranges(ranges@.take(0)) =~= Seq::<char>::empty());
        assert(mid2 + spec_render_ranges(ranges@.take(0)) =~= mid2);
    }
    while b < ranges.len()
        invariant
            b <= ranges.len(),
            glob_str@ == mid2 + spec_render_ranges(ranges@.take(b as int)),
        decreases ranges.len() - b,
    {
        let (start, end) = ranges[b];
        crate::text::push_char(glob_str, start);
        glob_str.append("-");
        crate::text::push_char(glob_str, end);
        proof {
            reveal_strlit("-");
            lemma_render_ranges_push(ranges@.take(b as int), ranges@[b as int]);
            assert(ranges@.take(b + 1) =~= ranges@.take(b as int).push(ranges@[b as int]));
            assert(glob_str@ =~= mid2 + spec_render_ranges(ranges@.take(b + 1)));
        }
        b = b + 1;
    }
    glob_str.append("]");
    proof {
        reveal_strlit("]");
        assert(ranges@.take(ranges@.len() as int) =~= ranges@);
        assert(glob_str@ =~= before + spec_render_segment(
            SegView::CharacterClass { negated, chars: chars@, ranges: ranges@ },
        ));
    }
}

/// Renders one pattern as a glob: the anchor prefix, the segments in order,
/// and the directory suffix, with the negation flag carried through.
pub fn pattern_to_glob(pattern: Pattern) -> (g: GlobPattern)
    ensures
        g@ == (GlobView { pattern: spec_render(pattern@), is_negated: pattern.is_negated }),
{
    let mut glob_str = String::new();
    if pattern.has_leading_slash {
        glob_str.append(".");
        proof {
            reveal_strlit(".");
            assert(glob_str@ =~= spec_anchor(pattern@));
        }
    } else {
        glob_str.append("**/");
        proof {
            reveal_strlit("**/");
            assert(glob_str@ =~= spec_anchor(pattern@));
        }
    }
    let n = pattern.segments.len();
    let mut k: usize = 0;
    proof {
        assert(pattern@.segments.take(0) =~= Seq::<SegView>::empty());
        assert(glob_str@ + spec_render_segments(Seq::<SegView>::empty()) =~= glob_str@);
    }
    while k < n
        invariant
            k <= n,
            n == pattern.segments.len(),
            glob_str@ == spec_anchor(pattern@) + spec_render_segments(
                pattern@.segments.take(k as int),
            ),
        decreases n - k,
    {
        let ghost before = glob_str@;
        let ghost seg_view = pattern@.segments[k as int];
        match &pattern.segments[k] {
            Segment::Literal(s) => {
                glob_str.append(s.as_str());
            },
            Segment::Wildcard => {
                glob_str.append("*");
                proof {
                    reveal_strlit("*");
                }
            },
            Segment::SingleWildcard => {
                glob_str.append("?");
                proof {
                    reveal_strlit("?");
                }
            },
            Segment::DoubleWildcard => {
                glob_str.append("**");
                proof {
                    reveal_strlit("**");
                }
            },
            Segment::Separator => {
                glob_str.append("/");
                proof {
                    reveal_strlit("/");
                }
            },
            Segment::CharacterClass { negated, chars, ranges } => {
                append_char_class(&mut glob_str, *negated, chars, ranges);
            },
        }
        proof {
            lemma_render_segments_push(pattern@.segments.take(k as int), seg_view);
            assert(pattern@.segments.take(k + 1) =~= pattern@.segments.take(k as int).push(
                seg_view,
            ));
            assert(glob_str@ =~= spec_anchor(pattern@) + spec_render_segments(
                pattern@.segments.take(k + 1),
            ));
        }
        k = k + 1;
    }
    proof {
        assert(pattern@.segments.take(n as int) =~= pattern@.segments);
    }
    if pattern.has_trailing_slash {
        glob_str.append("**");
        proof {
            reveal_strlit("**");
            assert(glob_str@ =~= spec_render(pattern@));
        }
    } else {
        proof {
            assert(glob_str@ =~= spec_render(pattern@));
        }
    }
    GlobPattern { pattern: glob_str, is_negated: pattern.is_negated }
}

/// Rendering a pattern is deterministic: any two renderings of the same
/// pattern are the same string.
pub proof fn lemma_render_deterministic(p: PatternView, r1: Seq<char>, r2: Seq<char>)
    requires
        r1 == spec_render(p),
        r2 == spec_render(p),
    ensures
        r1 == r2,
{
}

/// The glob patterns of a list of classified entries: each pattern entry
/// rendered, in input order; blank, comment, and failed entries dropped.
pub open spec fn spec_convert(entries: Seq<EntryView>) -> Seq<GlobView>
    decreases entries.len(),
{
    if entries.len() == 0 {
        Seq::empty()
    } else {
        let rest = spec_convert(entries.skip(1));
        match entries[0] {
            EntryView::Pattern(p) => seq![
                GlobView { pattern: spec_render(p), is_negated: p.is_negated },
            ] + rest,
            _ => rest,
        }
    }
}

/// Maps every pattern entry through the renderer, in input order, dropping
/// blank and comment entries.
pub fn convert_to_globs(entries: Vec<GitignoreEntry>) -> (globs: Vec<GlobPattern>)
    ensures
        globs.deep_view() == spec_convert(entries.deep_view()),
{
    let ghost all = entries.deep_view();
    let mut entries = entries;
    let mut globs: Vec<GlobPattern> = Vec::new();
    proof {
        assert(globs.deep_view() =~= Seq::<GlobView>::empty());
        assert(globs.deep_view() + spec_convert(entries.deep_view()) =~= spec_convert(all));
    }
    while entries.len() > 0
        invariant
            globs.deep_view() + spec_convert(entries.deep_view()) == spec_convert(all),
        decreases entries.len(),
    {
        let ghost pending = entries.deep_view();
        let ghost done = globs.deep_view();
        let entry = entries.remove(0);
        proof {
            assert(entries.deep_view() =~= pending.skip(1));
            assert(entry.deep_view() == pending[0]);
        }
        match entry {
            GitignoreEntry::Pattern(p) => {
                let g = pattern_to_glob(p);
                globs.push(g);
                proof {
                    assert(globs.deep_view() =~= done.push(g@));
                    assert(done.push(g@) =~= done + seq![g@]);
                    assert((done + seq![g@]) + spec_convert(pending.skip(1)) =~= done + (seq![g@]
                        + spec_convert(pending.skip(1))));
                }
            },
            _ => {},
        }
    }
    proof {
        assert(entries.deep_view() =~= Seq::<EntryView>::empty());
        assert(globs.deep_view() + spec_convert(entries.deep_view()) =~= globs.deep_view());
    }
    globs
}

/// No backslash occurs in `s`: such a body contains no escape, so every
/// scanned character is carried into some segment verbatim.
pub open spec fn escape_free(s: Seq<char>) -> bool {
    forall|i: int| 0 <= i < s.len() ==> s[i] != '\\'
}

/// Scanning the escape-free remainder `s` and rendering everything emitted
/// appends exactly `s` to the rendering of the segments emitted so far.
proof fn lemma_round_trip_from(s: Seq<char>, acc: Seq<SegView>)
    requires
        escape_free(s),
    ensures
        spec_render_segments(spec_tokenize_from(s, acc)) == spec_render_segments(acc) + s,
    decreases s.len(),
{
    if s.len() == 0 {
        assert(spec_render_segments(acc) + s =~= spec_render_segments(acc));
    } else if s[0] == '?' {
        assert(escape_free(s.skip(1)));
        lemma_round_trip_from(s.skip(1), acc.push(SegView::SingleWildcard));
        lemma_render_segments_push(acc, SegView::SingleWildcard);
        assert((spec_render_segments(acc) + seq!['?']) + s.skip(1) =~= spec_render_segments(acc)
            + s);
    } else if s[0] == '*' {
        if s.len() >= 2 && s[1] == '*' {
            assert(escape_free(s.skip(2)));
            if (acc.len() > 0 && acc.last() == SegView::Separator) || (s.len() >= 3 && s[2]
                == '/') {
                lemma_round_trip_from(s.skip(2), acc.push(SegView::DoubleWildcard));
                lemma_render_segments_push(acc, SegView::DoubleWildcard);
                assert((spec_render_segments(acc) + seq!['*', '*']) + s.skip(2)
                    =~= spec_render_segments(acc) + s);
            } else {
                lemma_round_trip_from(s.skip(2), acc.push(SegView::Wildcard).push(
                    SegView::Wildcard,
                ));
                lemma_render_segments_push(acc, SegView::Wildcard);
                lemma_render_segments_push(acc.push(SegView::Wildcard), SegView::Wildcard);
                assert(((spec_render_segments(acc) + seq!['*']) + seq!['*']) + s.skip(2)
                    =~= spec_render_segments(acc) + s);
            }
        } else {
            assert(escape_free(s.skip(1)));
            lemma_round_trip_from(s.skip(1), acc.push(SegView::Wildcard));
            lemma_render_segments_push(acc, SegView::Wildcard);
            assert((spec_render_segments(acc) + seq!['*']) + s.skip(1) =~= spec_render_segments(
                acc,
            ) + s);
        }
    } else if s[0] == '/' {
        assert(escape_free(s.skip(1)));
        lemma_round_trip_from(s.skip(1), acc.push(SegView::Separator));
        lemma_render_segments_push(acc, SegView::Separator);
        assert((spec_render_segments(acc) + seq!['/']) + s.skip(1) =~= spec_render_segments(acc)
            + s);
    } else {
        let k = 1 + literal_run_len(s.skip(1));
        crate::pattern::lemma_literal_run_len_bounds(s.skip(1));
        assert(escape_free(s.skip(k as int)));
        lemma_round_trip_from(s.skip(k as int), acc.push(SegView::Literal(s.take(k as int))));
        lemma_render_segments_push(acc, SegView::Literal(s.take(k as int)));
        assert((spec_render_segments(acc) + s.take(k as int)) + s.skip(k as int)
            =~= spec_render_segments(acc) + s);
    }
}

/// Tokenizer total-coverage: for an escape-free body, concatenating the
/// rendered text of every segment the tokenizer emits reproduces the body
/// exactly.
pub proof fn lemma_tokenize_render_round_trip(body: Seq<char>)
    requires
        escape_free(body),
    ensures
        spec_render_segments(spec_tokenize(body)) == body,
{
    lemma_round_trip_from(body, Seq::empty());
    assert(spec_render_segments(Seq::<SegView>::empty()) + body =~= body);
}

} // verus!
