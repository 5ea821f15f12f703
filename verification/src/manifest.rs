use vstd::prelude::*;

use crate::text::{before_first, chars_of, lemma_before_first_at, lines_spec, matches_at, push_all, split_lines};

verus! {

/// The text form of a manifest: each recorded path on a line of its
/// own, every line closed by a newline character.
pub open spec fn render_spec(entries: Seq<Seq<char>>) -> Seq<char>
    decreases entries.len(),
{
    if entries.len() == 0 {
        Seq::empty()
    } else {
        entries[0] + seq!['\n'] + render_spec(entries.drop_first())
    }
}

/// Renders a manifest as text, one recorded path per line.
pub fn render_manifest(entries: &Vec<Vec<char>>) -> (r: Vec<char>)
    ensures
        r@ == render_spec(entries.deep_view()),
{
    let mut out: Vec<char> = Vec::new();
    let mut i: usize = 0;
    proof {
        assert(entries.deep_view().skip(0) =~= entries.deep_view());
    }
    while i < entries.len()
        invariant
            i <= entries@.len(),
            render_spec(entries.deep_view()) == out@ + render_spec(
                entries.deep_view().skip(i as int),
            ),
        decreases entries@.len() - i,
    {
        let ghost prev = out@;
        let ghost rest = entries.deep_view().skip(i as int);
        proof {
            assert(rest[0] == entries@[i as int].deep_view());
            assert(rest.drop_first() =~= entries.deep_view().skip(i + 1));
        }
        push_all(&mut out, entries[i].as_slice());
        out.push('\n');
        proof {
            assert(out@ =~= prev + (rest[0] + seq!['\n']));
            assert(out@ + render_spec(entries.deep_view().skip(i + 1)) =~= prev + render_spec(
                rest,
            ));
        }
        i += 1;
    }
    proof {
        assert(render_spec(entries.deep_view().skip(entries@.len() as int)) =~= Seq::<
            char,
        >::empty());
        assert(render_spec(entries.deep_view()) =~= out@);
    }
    out
}

/// Reads a manifest back from its text form: one recorded path per line.
pub fn parse_manifest(text: &[char]) -> (r: Vec<Vec<char>>)
    ensures
        r.deep_view() == lines_spec(text@),
{
    split_lines(text)
}

/// Rendering a manifest and reading it back yields the same entries,
/// provided no recorded path contains a newline character.
pub proof fn lemma_manifest_round_trip(entries: Seq<Seq<char>>)
    requires
        forall|i: int| 0 <= i < entries.len() ==> !entries[i].contains('\n'),
    ensures
        lines_spec(render_spec(entries)) == entries,
    decreases entries.len(),
{
    if entries.len() == 0 {
        assert(lines_spec(render_spec(entries)) =~= entries);
    } else {
        let e = entries[0];
        let rest = render_spec(entries.drop_first());
        let whole = e + seq!['\n'] + rest;
        assert(forall|j: int| 0 <= j < e.len() ==> whole[j] == e[j]);
        assert forall|j: int| 0 <= j < e.len() implies whole[j] != '\n' by {
            assert(e[j] == whole[j]);
            assert(!e.contains('\n'));
        }
        lemma_before_first_at(whole, '\n', e.len() as int);
        assert(whole.subrange(0, e.len() as int) =~= e);
        assert(before_first(whole, '\n') == e);
        assert(whole.subrange(e.len() as int + 1, whole.len() as int) =~= rest);
        assert(forall|i: int|
            0 <= i < entries.drop_first().len() ==> !entries.drop_first()[i].contains('\n'));
        lemma_manifest_round_trip(entries.drop_first());
        assert(lines_spec(whole) =~= seq![e] + entries.drop_first());
        assert(seq![e] + entries.drop_first() =~= entries);
    }
}

/// True exactly when a directory entry name is a manifest file name:
/// a non-empty stem followed by the `.log` extension.
pub open spec fn is_log_name_spec(n: Seq<char>) -> bool {
    n.len() > 4 && n.subrange(n.len() - 4, n.len() as int) == ".log"@
}

/// Decides whether a directory entry name is a manifest file name.
pub fn is_log_name(n: &[char]) -> (r: bool)
    ensures
        r == is_log_name_spec(n@),
{
    let suffix = chars_of(".log");
    if n.len() <= 4 {
        return false;
    }
    let r = matches_at(n, suffix.as_slice(), n.len() - 4);
    proof {
        reveal_strlit(".log");
        let sk = n@.skip(n@.len() - 4);
        assert(sk.len() == 4);
        assert(sk.subrange(0, 4) =~= n@.subrange(n@.len() - 4, n@.len() as int));
        if suffix@.is_prefix_of(sk) {
            assert(n@.subrange(n@.len() - 4, n@.len() as int) == suffix@);
        }
        if n@.subrange(n@.len() - 4, n@.len() as int) == suffix@ {
            assert(suffix@ =~= sk.subrange(0, suffix@.len() as int));
        }
    }
    r
}

/// The number of manifest file names among `names`.
pub open spec fn count_logs(names: Seq<Seq<char>>) -> nat
    decreases names.len(),
{
    if names.len() == 0 {
        0nat
    } else {
        (if is_log_name_spec(names[0]) {
            1nat
        } else {
            0nat
        }) + count_logs(names.drop_first())
    }
}

/// Counts the manifest files among a state directory's entry names.
pub fn count_log_files(names: &Vec<Vec<char>>) -> (r: usize)
    ensures
        r == count_logs(names.deep_view()),
{
    let mut count: usize = 0;
    let mut i: usize = 0;
    proof {
        assert(names.deep_view().skip(0) =~= names.deep_view());
    }
    while i < names.len()
        invariant
            i <= names@.len(),
            count <= i,
            count + count_logs(names.deep_view().skip(i as int)) == count_logs(names.deep_view()),
        decreases names@.len() - i,
    {
        let ghost rest = names.deep_view().skip(i as int);
        proof {
            assert(rest[0] == names@[i as int].deep_view());
            assert(names@[i as int].deep_view() =~= names@[i as int]@);
            assert(rest.drop_first() =~= names.deep_view().skip(i + 1));
        }
        if is_log_name(names[i].as_slice()) {
            count += 1;
        }
        i += 1;
    }
    proof {
        assert(count_logs(names.deep_view().skip(names@.len() as int)) == 0nat);
    }
    count
}

} // verus!
