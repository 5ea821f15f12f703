use vstd::prelude::*;

use crate::text::{chars_of, lines_spec, matches_at, split_lines, strip_prefix_rep, strip_prefix_repeated, trim, trim_spec};

verus! {

/// The value carried by a metadata line: the line with every copy of
/// the tag removed from its front and surrounding whitespace dropped.
pub open spec fn tag_value(line: Seq<char>, tag: Seq<char>) -> Seq<char> {
    trim_spec(strip_prefix_rep(line, tag))
}

/// The values of all lines of `lines` that begin with `tag`, in order.
pub open spec fn tagged_values(lines: Seq<Seq<char>>, tag: Seq<char>) -> Seq<Seq<char>>
    decreases lines.len(),
{
    if lines.len() == 0 {
        Seq::empty()
    } else {
        let rest = tagged_values(lines.drop_first(), tag);
        if tag.is_prefix_of(lines[0]) {
            seq![tag_value(lines[0], tag)] + rest
        } else {
            rest
        }
    }
}

/// The required dependencies a metadata file declares.
pub open spec fn depends_spec(content: Seq<char>) -> Seq<Seq<char>> {
    tagged_values(lines_spec(content), "depend = "@)
}

/// The optional dependencies a metadata file declares.
pub open spec fn optdepends_spec(content: Seq<char>) -> Seq<Seq<char>> {
    tagged_values(lines_spec(content), "optdepend = "@)
}

fn collect_tagged(lines: &Vec<Vec<char>>, tag: &[char]) -> (r: Vec<Vec<char>>)
    requires
        tag@.len() > 0,
    ensures
        r.deep_view() == tagged_values(lines.deep_view(), tag@),
{
    let mut r: Vec<Vec<char>> = Vec::new();
    let mut i: usize = 0;
    proof {
        assert(lines.deep_view().skip(0) =~= lines.deep_view());
        assert(r.deep_view() =~= Seq::<Seq<char>>::empty());
    }
    while i < lines.len()
        invariant
            i <= lines@.len(),
            tag@.len() > 0,
            tagged_values(lines.deep_view(), tag@) == r.deep_view() + tagged_values(
                lines.deep_view().skip(i as int),
                tag@,
            ),
        decreases lines@.len() - i,
    {
        let ghost prev = r.deep_view();
        let ghost rest = lines.deep_view().skip(i as int);
        let line = &lines[i];
        proof {
            assert(rest[0] == line@);
            assert(rest.drop_first() =~= lines.deep_view().skip(i + 1));
            assert(line@.skip(0) =~= line@);
        }
        if matches_at(line.as_slice(), tag, 0) {
            let stripped = strip_prefix_repeated(line.as_slice(), tag);
            let value = trim(stripped.as_slice());
            r.push(value);
            proof {
                assert(r.deep_view() =~~= prev + seq![tag_value(line@, tag@)]);
                assert(r.deep_view() + tagged_values(lines.deep_view().skip(i + 1), tag@)
                    =~= prev + tagged_values(rest, tag@));
            }
        } else {
            proof {
                assert(tagged_values(rest, tag@) == tagged_values(rest.drop_first(), tag@));
            }
        }
        i += 1;
    }
    proof {
        assert(tagged_values(lines.deep_view().skip(lines@.len() as int), tag@)
            =~= Seq::<Seq<char>>::empty());
        assert(r.deep_view() =~= tagged_values(lines.deep_view(), tag@));
    }
    r
}

/// Parses a package metadata file: each `depend = ` line contributes a
/// required dependency, each `optdepend = ` line an optional one, and
/// every other line is ignored.
pub fn parse_pkginfo(content: &[char]) -> (r: (Vec<Vec<char>>, Vec<Vec<char>>))
    ensures
        r.0.deep_view() == depends_spec(content@),
        r.1.deep_view() == optdepends_spec(content@),
{
    let lines = split_lines(content);
    let dep_tag = chars_of("depend = ");
    let opt_tag = chars_of("optdepend = ");
    proof {
        reveal_strlit("depend = ");
        reveal_strlit("optdepend = ");
    }
    let depends = collect_tagged(&lines, dep_tag.as_slice());
    let optdepends = collect_tagged(&lines, opt_tag.as_slice());
    (depends, optdepends)
}

} // verus!
