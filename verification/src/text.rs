use vstd::prelude::*;

verus! {

use vstd::std_specs::iter::IteratorSpec;

/// Compares two character slices for element-wise equality.
pub fn chars_eq(a: &[char], b: &[char]) -> (r: bool)
    ensures
        r == (a@ == b@),
{
    if a.len() != b.len() {
        proof {
            assert(a@.len() != b@.len());
        }
        return false;
    }
    let mut i: usize = 0;
    while i < a.len()
        invariant
            i <= a.len(),
            a.len() == b.len(),
            forall|j: int| 0 <= j < i ==> a@[j] == b@[j],
        decreases a.len() - i,
    {
        if a[i] != b[i] {
            return false;
        }
        i += 1;
    }
    proof {
        assert(a@ =~= b@);
    }
    true
}

/// True exactly when `p` is a prefix of `s`.
pub fn starts_with(s: &[char], p: &[char]) -> (r: bool)
    ensures
        r == p@.is_prefix_of(s@),
{
    if p.len() > s.len() {
        return false;
    }
    let mut i: usize = 0;
    while i < p.len()
        invariant
            i <= p.len(),
            p.len() <= s.len(),
            forall|j: int| 0 <= j < i ==> s@[j] == p@[j],
        decreases p.len() - i,
    {
        if s[i] != p[i] {
            proof {
                assert(!p@.is_prefix_of(s@));
            }
            return false;
        }
        i += 1;
    }
    proof {
        assert(p@ =~= s@.subrange(0, p@.len() as int));
    }
    true
}

/// Appends every character of `s` to `v`.
pub fn push_all(v: &mut Vec<char>, s: &[char])
    ensures
        final(v)@ == old(v)@ + s@,
{
    let mut i: usize = 0;
    while i < s.len()
        invariant
            i <= s.len(),
            v@ == old(v)@ + s@.subrange(0, i as int),
        decreases s.len() - i,
    {
        v.push(s[i]);
        proof {
            assert(v@ =~= old(v)@ + s@.subrange(0, i + 1 as int));
        }
        i += 1;
    }
    proof {
        assert(v@ =~= old(v)@ + s@);
    }
}

/// Collects the characters of a string slice into a vector.
pub fn chars_of(s: &str) -> (r: Vec<char>)
    ensures
        r@ == s@,
{
    broadcast use vstd::string::next_postcondition;
    broadcast use vstd::string::axiom_spec_iter;

    let mut it = s.chars();
    let mut r: Vec<char> = Vec::new();
    loop
        invariant
            it.obeys_prophetic_iter_laws(),
            r@ + it.remaining() == s@,
        ensures
            r@ == s@,
        decreases s@.len() - r@.len(),
    {
        match it.next() {
            Some(c) => {
                r.push(c);
                proof {
                    assert(r@ + it.remaining() =~= s@);
                }
            },
            None => {
                proof {
                    assert(it.remaining().len() == 0);
                    assert(r@ + it.remaining() =~= s@);
                }
                break;
            },
        }
    }
    proof {
        assert(r@ =~= s@);
    }
    r
}

/// The prefix of `s` that precedes the first occurrence of `c`
/// (all of `s` when `c` does not occur).
pub open spec fn before_first(s: Seq<char>, c: char) -> Seq<char>
    decreases s.len(),
{
    if s.len() == 0 {
        s
    } else if s[0] == c {
        Seq::empty()
    } else {
        seq![s[0]] + before_first(s.drop_first(), c)
    }
}

pub proof fn lemma_before_first_at(s: Seq<char>, c: char, i: int)
    requires
        0 <= i <= s.len(),
        forall|j: int| 0 <= j < i ==> s[j] != c,
        i < s.len() ==> s[i] == c,
    ensures
        before_first(s, c) == s.subrange(0, i),
    decreases i,
{
    if s.len() == 0 {
        assert(before_first(s, c) =~= s.subrange(0, i));
    } else if i == 0 {
        assert(before_first(s, c) =~= s.subrange(0, 0));
    } else {
        lemma_before_first_at(s.drop_first(), c, i - 1);
        assert(before_first(s, c) =~= s.subrange(0, i));
    }
}

/// The division of `s` into lines at each newline character; a final
/// newline closes the last line without opening a new one.
pub open spec fn lines_spec(s: Seq<char>) -> Seq<Seq<char>>
    decreases s.len(),
{
    if s.len() == 0 {
        Seq::empty()
    } else {
        let head = before_first(s, '\n');
        if head.len() >= s.len() {
            seq![head]
        } else {
            seq![head] + lines_spec(s.subrange(head.len() as int + 1, s.len() as int))
        }
    }
}

/// Splits `s` into its lines at each newline character.
pub fn split_lines(s: &[char]) -> (r: Vec<Vec<char>>)
    ensures
        r.deep_view() == lines_spec(s@),
{
    let mut out: Vec<Vec<char>> = Vec::new();
    let mut pos: usize = 0;
    proof {
        assert(s@.subrange(0, s@.len() as int) =~= s@);
        assert(out.deep_view() =~= Seq::<Seq<char>>::empty());
    }
    while pos < s.len()
        invariant
            pos <= s@.len(),
            lines_spec(s@) == out.deep_view() + lines_spec(
                s@.subrange(pos as int, s@.len() as int),
            ),
        decreases s@.len() - pos,
    {
        let ghost prev = out.deep_view();
        let ghost rest = s@.subrange(pos as int, s@.len() as int);
        let mut i: usize = pos;
        while i < s.len() && s[i] != '\n'
            invariant
                pos <= i <= s@.len(),
                forall|j: int| pos <= j < i ==> s@[j] != '\n',
            decreases s@.len() - i,
        {
            i += 1;
        }
        let line = sub_chars(s, pos, i);
        proof {
            lemma_before_first_at(rest, '\n', i - pos);
            assert(rest.subrange(0, i - pos) =~= s@.subrange(pos as int, i as int));
            assert(before_first(rest, '\n') == line@);
        }
        out.push(line);
        proof {
            assert(out.deep_view() =~~= prev + seq![line@]);
            if i < s.len() {
                assert(rest.subrange(i - pos + 1, rest.len() as int) =~= s@.subrange(
                    i + 1 as int,
                    s@.len() as int,
                ));
                assert(lines_spec(rest) == seq![line@] + lines_spec(
                    s@.subrange(i + 1 as int, s@.len() as int),
                ));
                assert(out.deep_view() + lines_spec(s@.subrange(i + 1 as int, s@.len() as int))
                    =~= prev + lines_spec(rest));
            } else {
                assert(line@ =~= rest);
                assert(lines_spec(rest) =~= seq![line@]);
                assert(lines_spec(s@.subrange(s@.len() as int, s@.len() as int))
                    =~= Seq::<Seq<char>>::empty());
                assert(out.deep_view() + lines_spec(s@.subrange(s@.len() as int, s@.len() as int))
                    =~= prev + lines_spec(rest));
            }
        }
        pos = if i < s.len() {
            i + 1
        } else {
            i
        };
    }
    proof {
        assert(lines_spec(s@.subrange(pos as int, s@.len() as int))
            =~= Seq::<Seq<char>>::empty());
        assert(lines_spec(s@) =~= out.deep_view());
    }
    out
}

/// The white-space characters the parsers recognise: the characters
/// with the Unicode `White_Space` property.
pub open spec fn is_space(c: char) -> bool {
    ||| c == '\t'
    ||| c == '\n'
    ||| c == '\u{0B}'
    ||| c == '\u{0C}'
    ||| c == '\r'
    ||| c == ' '
    ||| c == '\u{85}'
    ||| c == '\u{A0}'
    ||| c == '\u{1680}'
    ||| c == '\u{2000}'
    ||| c == '\u{2001}'
    ||| c == '\u{2002}'
    ||| c == '\u{2003}'
    ||| c == '\u{2004}'
    ||| c == '\u{2005}'
    ||| c == '\u{2006}'
    ||| c == '\u{2007}'
    ||| c == '\u{2008}'
    ||| c == '\u{2009}'
    ||| c == '\u{200A}'
    ||| c == '\u{2028}'
    ||| c == '\u{2029}'
    ||| c == '\u{202F}'
    ||| c == '\u{205F}'
    ||| c == '\u{3000}'
}

/// Decides whether a character is white space.
pub fn is_space_char(c: char) -> (r: bool)
    ensures
        r == is_space(c),
{
    c == '\t' || c == '\n' || c == '\u{0B}' || c == '\u{0C}' || c == '\r' || c == ' ' || c
        == '\u{85}' || c == '\u{A0}' || c == '\u{1680}' || c == '\u{2000}' || c == '\u{2001}' || c
        == '\u{2002}' || c == '\u{2003}' || c == '\u{2004}' || c == '\u{2005}' || c == '\u{2006}'
        || c == '\u{2007}' || c == '\u{2008}' || c == '\u{2009}' || c == '\u{200A}' || c
        == '\u{2028}' || c == '\u{2029}' || c == '\u{202F}' || c == '\u{205F}' || c == '\u{3000}'
}

/// `s` with every leading whitespace character removed.
pub open spec fn trim_front(s: Seq<char>) -> Seq<char>
    decreases s.len(),
{
    if s.len() > 0 && is_space(s[0]) {
        trim_front(s.drop_first())
    } else {
        s
    }
}

/// `s` with every trailing whitespace character removed.
pub open spec fn trim_back(s: Seq<char>) -> Seq<char>
    decreases s.len(),
{
    if s.len() > 0 && is_space(s[s.len() - 1]) {
        trim_back(s.drop_last())
    } else {
        s
    }
}

/// `s` with surrounding whitespace removed.
pub open spec fn trim_spec(s: Seq<char>) -> Seq<char> {
    trim_back(trim_front(s))
}

proof fn lemma_trim_front_at(s: Seq<char>, a: int)
    requires
        0 <= a <= s.len(),
        forall|j: int| 0 <= j < a ==> is_space(s[j]),
        a < s.len() ==> !is_space(s[a]),
    ensures
        trim_front(s) == s.subrange(a, s.len() as int),
    decreases a,
{
    if a == 0 {
        assert(trim_front(s) =~= s.subrange(0, s.len() as int));
    } else {
        lemma_trim_front_at(s.drop_first(), a - 1);
        assert(s.drop_first().subrange(a - 1, s.drop_first().len() as int) =~= s.subrange(
            a,
            s.len() as int,
        ));
    }
}

proof fn lemma_trim_back_at(s: Seq<char>, b: int)
    requires
        0 <= b <= s.len(),
        forall|j: int| b <= j < s.len() ==> is_space(s[j]),
        b > 0 ==> !is_space(s[b - 1]),
    ensures
        trim_back(s) == s.subrange(0, b),
    decreases s.len() - b,
{
    if b == s.len() {
        assert(trim_back(s) =~= s.subrange(0, b));
    } else {
        lemma_trim_back_at(s.drop_last(), b);
        assert(s.drop_last().subrange(0, b) =~= s.subrange(0, b));
    }
}

/// Removes surrounding whitespace from `s`.
pub fn trim(s: &[char]) -> (r: Vec<char>)
    ensures
        r@ == trim_spec(s@),
{
    let mut a: usize = 0;
    while a < s.len() && is_space_char(s[a])
        invariant
            a <= s@.len(),
            forall|j: int| 0 <= j < a ==> is_space(s@[j]),
        decreases s@.len() - a,
    {
        a += 1;
    }
    let mut b: usize = s.len();
    while b > a && is_space_char(s[b - 1])
        invariant
            a <= b <= s@.len(),
            forall|j: int| b <= j < s@.len() ==> is_space(s@[j]),
        decreases b,
    {
        b -= 1;
    }
    let r = sub_chars(s, a, b);
    proof {
        lemma_trim_front_at(s@, a as int);
        let t = s@.subrange(a as int, s@.len() as int);
        lemma_trim_back_at(t, b - a);
        assert(t.subrange(0, b - a) =~= s@.subrange(a as int, b as int));
    }
    r
}

/// `s` with every copy of the prefix `p` removed from its front.
pub open spec fn strip_prefix_rep(s: Seq<char>, p: Seq<char>) -> Seq<char>
    decreases s.len(),
{
    if p.len() > 0 && p.is_prefix_of(s) {
        strip_prefix_rep(s.skip(p.len() as int), p)
    } else {
        s
    }
}

/// True exactly when `p` occurs in `s` starting at position `pos`.
pub fn matches_at(s: &[char], p: &[char], pos: usize) -> (r: bool)
    requires
        pos <= s@.len(),
    ensures
        r == p@.is_prefix_of(s@.skip(pos as int)),
{
    let slen: usize = s.len();
    let plen: usize = p.len();
    if slen - pos < plen {
        return false;
    }
    let mut i: usize = 0;
    while i < p.len()
        invariant
            i <= plen,
            plen == p@.len(),
            slen == s@.len(),
            pos + plen <= slen,
            forall|j: int| 0 <= j < i ==> s@[pos + j] == p@[j],
        decreases p@.len() - i,
    {
        if s[pos + i] != p[i] {
            proof {
                assert(s@.skip(pos as int)[i as int] != p@[i as int]);
            }
            return false;
        }
        i += 1;
    }
    proof {
        assert(p@ =~= s@.skip(pos as int).subrange(0, p@.len() as int));
    }
    true
}

/// Removes every copy of the prefix `p` from the front of `s`.
pub fn strip_prefix_repeated(s: &[char], p: &[char]) -> (r: Vec<char>)
    requires
        p@.len() > 0,
    ensures
        r@ == strip_prefix_rep(s@, p@),
{
    let mut pos: usize = 0;
    let slen: usize = s.len();
    proof {
        assert(s@.skip(0) =~= s@);
    }
    loop
        invariant
            pos <= slen,
            slen == s@.len(),
            p@.len() > 0,
            strip_prefix_rep(s@, p@) == strip_prefix_rep(s@.skip(pos as int), p@),
        ensures
            pos <= s@.len() && strip_prefix_rep(s@, p@) == s@.subrange(pos as int, s@.len() as int),
        decreases s@.len() - pos,
    {
        let ghost rest = s@.skip(pos as int);
        if matches_at(s, p, pos) {
            proof {
                assert(rest.skip(p@.len() as int) =~= s@.skip(pos + p@.len()));
            }
            pos = pos + p.len();
        } else {
            proof {
                assert(strip_prefix_rep(rest, p@) == rest);
                assert(rest =~= s@.subrange(pos as int, s@.len() as int));
            }
            break;
        }
    }
    sub_chars(s, pos, s.len())
}

/// Copies the subrange `[from, to)` of `s` into a new vector.
pub fn sub_chars(s: &[char], from: usize, to: usize) -> (r: Vec<char>)
    requires
        from <= to <= s@.len(),
    ensures
        r@ == s@.subrange(from as int, to as int),
{
    let mut r: Vec<char> = Vec::new();
    let mut i: usize = from;
    while i < to
        invariant
            from <= i <= to <= s@.len(),
            r@ == s@.subrange(from as int, i as int),
        decreases to - i,
    {
        r.push(s[i]);
        proof {
            assert(r@ =~= s@.subrange(from as int, i + 1 as int));
        }
        i += 1;
    }
    r
}

} // verus!
