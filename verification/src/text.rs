//! Character-level helpers shared by the classifier: the whitespace model and
//! trailing-whitespace trimming applied to each input line before it is
//! classified.

use vstd::prelude::*;

verus! {

/// Whether `c` has the Unicode `White_Space` property: these are exactly the
/// characters that trailing-whitespace trimming removes from a line.
pub open spec fn is_space_char(c: char) -> bool {
    c == '\u{9}' || c == '\u{a}' || c == '\u{b}' || c == '\u{c}' || c == '\u{d}' || c == ' '
        || c == '\u{85}' || c == '\u{a0}' || c == '\u{1680}'
        || (0x2000 <= c as u32 && c as u32 <= 0x200a)
        || c == '\u{2028}' || c == '\u{2029}' || c == '\u{202f}' || c == '\u{205f}'
        || c == '\u{3000}'
}

/// `line` with every trailing whitespace character removed.
pub open spec fn spec_trim_end(line: Seq<char>) -> Seq<char>
    decreases line.len(),
{
    if line.len() == 0 {
        line
    } else if is_space_char(line.last()) {
        spec_trim_end(line.drop_last())
    } else {
        line
    }
}

/// Decides `is_space_char` on a concrete character.
pub fn is_space(c: char) -> (b: bool)
    ensures
        b == is_space_char(c),
{
    let u = c as u32;
    u == 0x9 || u == 0xa || u == 0xb || u == 0xc || u == 0xd || u == 0x20 || u == 0x85
        || u == 0xa0 || u == 0x1680 || (0x2000 <= u && u <= 0x200a) || u == 0x2028 || u == 0x2029
        || u == 0x202f || u == 0x205f || u == 0x3000
}

/// The longest prefix of `line` that does not end in a whitespace character:
/// the line with all trailing whitespace trimmed away.
pub fn trim_end_chars(line: &str) -> (t: &str)
    ensures
        t@ == spec_trim_end(line@),
{
    let n = line.unicode_len();
    proof {
        assert(line@.subrange(0, n as int) =~= line@);
    }
    let mut k = n;
    while k > 0 && is_space(line.get_char(k - 1))
        invariant
            k <= n,
            n == line@.len(),
            spec_trim_end(line@.subrange(0, k as int)) == spec_trim_end(line@),
        decreases k,
    {
        proof {
            let taken = line@.subrange(0, k as int);
            assert(taken.last() == line@[k - 1]);
            assert(taken.drop_last() =~= line@.subrange(0, k - 1));
        }
        k = k - 1;
    }
    proof {
        let taken = line@.subrange(0, k as int);
        if k > 0 {
            assert(!is_space_char(taken.last()));
        }
        assert(spec_trim_end(taken) == taken);
    }
    line.substring_char(0, k)
}

/// Relies on `String::push`: appends exactly the one character `c` to `s`.
#[verifier::external_body]
pub(crate) fn push_char(s: &mut String, c: char)
    ensures
        final(s)@ == old(s)@.push(c),
{
    s.push(c)
}

} // verus!
