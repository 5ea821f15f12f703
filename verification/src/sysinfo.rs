use vstd::prelude::*;

use crate::text::{chars_of, lines_spec, matches_at, split_lines, strip_prefix_rep, strip_prefix_repeated, sub_chars};

verus! {

/// The first line of `lines` that begins with `tag`, if any.
pub open spec fn first_tagged_line(lines: Seq<Seq<char>>, tag: Seq<char>) -> Option<Seq<char>>
    decreases lines.len(),
{
    if lines.len() == 0 {
        Option::None
    } else if tag.is_prefix_of(lines[0]) {
        Option::Some(lines[0])
    } else {
        first_tagged_line(lines.drop_first(), tag)
    }
}

/// `s` with every trailing copy of `c` removed.
pub open spec fn strip_suffix_rep(s: Seq<char>, c: char) -> Seq<char>
    decreases s.len(),
{
    if s.len() > 0 && s[s.len() - 1] == c {
        strip_suffix_rep(s.drop_last(), c)
    } else {
        s
    }
}

/// The host name an OS release file reports: the first line that
/// begins `PRETTY_NAME=`, with the quoted tag stripped from its front
/// and trailing quotes removed, or `Unknown` when no such line exists.
/// An unquoted value keeps the tag, and lines are split at newline
/// characters alone, so a carriage return before the closing quote is
/// kept; both follow from reading the quoted form the format
/// prescribes.
pub open spec fn pretty_name_spec(content: Seq<char>) -> Seq<char> {
    match first_tagged_line(lines_spec(content), "PRETTY_NAME="@) {
        Option::Some(line) => strip_suffix_rep(strip_prefix_rep(line, "PRETTY_NAME=\""@), '"'),
        Option::None => "Unknown"@,
    }
}

proof fn lemma_strip_suffix_at(s: Seq<char>, c: char, b: int)
    requires
        0 <= b <= s.len(),
        forall|j: int| b <= j < s.len() ==> s[j] == c,
        b > 0 ==> s[b - 1] != c,
    ensures
        strip_suffix_rep(s, c) == s.subrange(0, b),
    decreases s.len() - b,
{
    if b == s.len() {
        assert(strip_suffix_rep(s, c) =~= s.subrange(0, b));
    } else {
        lemma_strip_suffix_at(s.drop_last(), c, b);
        assert(s.drop_last().subrange(0, b) =~= s.subrange(0, b));
    }
}

fn strip_trailing(s: &[char], c: char) -> (r: Vec<char>)
    ensures
        r@ == strip_suffix_rep(s@, c),
{
    let mut b: usize = s.len();
    while b > 0 && s[b - 1] == c
        invariant
            b <= s@.len(),
            forall|j: int| b <= j < s@.len() ==> s@[j] == c,
        decreases b,
    {
        b -= 1;
    }
    let r = sub_chars(s, 0, b);
    proof {
        lemma_strip_suffix_at(s@, c, b as int);
    }
    r
}

/// Extracts the host name from an OS release file, `Unknown` when the
/// file declares none.
pub fn parse_pretty_name(content: &[char]) -> (r: Vec<char>)
    ensures
        r@ == pretty_name_spec(content@),
{
    let lines = split_lines(content);
    let tag = chars_of("PRETTY_NAME=");
    let quoted_tag = chars_of("PRETTY_NAME=\"");
    proof {
        reveal_strlit("PRETTY_NAME=");
        reveal_strlit("PRETTY_NAME=\"");
    }
    let mut i: usize = 0;
    proof {
        assert(lines.deep_view().skip(0) =~= lines.deep_view());
    }
    while i < lines.len()
        invariant
            i <= lines@.len(),
            tag@ == "PRETTY_NAME="@ && tag@.len() > 0,
            quoted_tag@ == "PRETTY_NAME=\""@ && quoted_tag@.len() > 0,
            lines.deep_view() == lines_spec(content@),
            first_tagged_line(lines.deep_view(), tag@) == first_tagged_line(
                lines.deep_view().skip(i as int),
                tag@,
            ),
        decreases lines@.len() - i,
    {
        let ghost rest = lines.deep_view().skip(i as int);
        proof {
            assert(rest[0] == lines@[i as int].deep_view());
            assert(lines@[i as int].deep_view() =~= lines@[i as int]@);
            assert(rest.drop_first() =~= lines.deep_view().skip(i + 1));
            assert(lines@[i as int]@.skip(0) =~= lines@[i as int]@);
        }
        if matches_at(lines[i].as_slice(), tag.as_slice(), 0) {
            proof {
                assert(tag@.is_prefix_of(rest[0]));
                assert(first_tagged_line(rest, tag@) == Option::Some(rest[0]));
                assert(first_tagged_line(lines_spec(content@), "PRETTY_NAME="@)
                    == Option::Some(lines@[i as int]@));
            }
            let stripped = strip_prefix_repeated(lines[i].as_slice(), quoted_tag.as_slice());
            let out = strip_trailing(stripped.as_slice(), '"');
            proof {
                assert(out@ == pretty_name_spec(content@));
            }
            return out;
        }
        i += 1;
    }
    proof {
        assert(first_tagged_line(lines.deep_view().skip(lines@.len() as int), tag@)
            is None);
    }
    chars_of("Unknown")
}

/// The number of lines of `content` that begin with `tag`; used to
/// count installed-package records in a package manager's listing.
pub open spec fn count_tagged_lines(lines: Seq<Seq<char>>, tag: Seq<char>) -> nat
    decreases lines.len(),
{
    if lines.len() == 0 {
        0nat
    } else {
        (if tag.is_prefix_of(lines[0]) {
            1nat
        } else {
            0nat
        }) + count_tagged_lines(lines.drop_first(), tag)
    }
}

/// Counts the lines of `content` that begin with `tag`.
pub fn count_prefixed_lines(content: &[char], tag: &[char]) -> (r: usize)
    ensures
        r == count_tagged_lines(lines_spec(content@), tag@),
{
    let lines = split_lines(content);
    let mut count: usize = 0;
    let mut i: usize = 0;
    proof {
        assert(lines.deep_view().skip(0) =~= lines.deep_view());
    }
    while i < lines.len()
        invariant
            i <= lines@.len(),
            count <= i,
            count + count_tagged_lines(lines.deep_view().skip(i as int), tag@)
                == count_tagged_lines(lines.deep_view(), tag@),
        decreases lines@.len() - i,
    {
        let ghost rest = lines.deep_view().skip(i as int);
        proof {
            assert(rest[0] == lines@[i as int].deep_view());
            assert(lines@[i as int].deep_view() =~= lines@[i as int]@);
            assert(rest.drop_first() =~= lines.deep_view().skip(i + 1));
            assert(lines@[i as int]@.skip(0) =~= lines@[i as int]@);
        }
        if matches_at(lines[i].as_slice(), tag, 0) {
            count += 1;
        }
        i += 1;
    }
    proof {
        assert(count_tagged_lines(lines.deep_view().skip(lines@.len() as int), tag@) == 0nat);
    }
    count
}

/// Counts the lines of a package manager's listing output.
pub fn count_lines(content: &[char]) -> (r: usize)
    ensures
        r == lines_spec(content@).len(),
{
    let lines = split_lines(content);
    lines.len()
}

} // verus!
