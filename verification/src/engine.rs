use vstd::prelude::*;

use crate::InstallError;
use crate::classify::ContentKind;
use crate::confirm::{is_affirmative, is_affirmative_spec};
use crate::paths::{bin_dir_spec, desktop_dir_spec, icon_dir_spec, join_path, requires_root, requires_root_spec, resolve_targets};
use crate::text::{chars_eq, chars_of, matches_at, sub_chars};

verus! {

/// The three deployment categories, each with its own source subtree,
/// destination root and validity predicate.
#[derive(Clone, Copy, PartialEq, Eq, Structural, Debug)]
pub enum Category {
    Binary,
    Desktop,
    Icon,
}

/// One regular file found under a category's source tree: its path
/// relative to the category root and the content class its bytes were
/// sniffed as.
pub struct SourceFile {
    pub rel_path: Vec<char>,
    pub kind: ContentKind,
}

/// One planned deployment: the relative source path and the absolute
/// destination it is copied to.
pub struct PlannedCopy {
    pub rel_path: Vec<char>,
    pub dest: Vec<char>,
}

/// True when the last component of `p` carries the extension `e`:
/// a dot immediately before the suffix `e`, preceded by a non-empty stem.
pub open spec fn has_extension_spec(p: Seq<char>, e: Seq<char>) -> bool {
    &&& p.len() > e.len() + 1
    &&& p[p.len() - e.len() - 1] == '.'
    &&& p.subrange(p.len() - e.len(), p.len() as int) == e
    &&& p[p.len() - e.len() - 2] != '/'
}

/// Decides whether `p` carries the file extension `e`.
pub fn has_extension(p: &[char], e: &[char]) -> (r: bool)
    ensures
        r == has_extension_spec(p@, e@),
{
    let plen: usize = p.len();
    let elen: usize = e.len();
    if plen <= 1 || plen - 1 <= elen {
        return false;
    }
    if p[plen - elen - 1] != '.' || p[plen - elen - 2] == '/' {
        return false;
    }
    let r = matches_at(p, e, plen - elen);
    proof {
        let sk = p@.skip(plen - elen);
        assert(sk.subrange(0, elen as int) =~= p@.subrange(plen - elen, plen as int));
        if e@.is_prefix_of(sk) {
            assert(p@.subrange(plen - elen, plen as int) == e@);
        }
        if p@.subrange(plen - elen, plen as int) == e@ {
            assert(e@ =~= sk.subrange(0, e@.len() as int));
        }
    }
    r
}

/// The validity predicate of a deployment category: binaries must have
/// been sniffed as an executable or a shared library; desktop entries
/// are filtered by extension alone; icons must carry a matching
/// extension and be sniffed as the corresponding image type.
pub open spec fn eligible_spec(cat: Category, rel: Seq<char>, kind: ContentKind) -> bool {
    match cat {
        Category::Binary => kind == ContentKind::Executable || kind == ContentKind::SharedLibrary,
        Category::Desktop => has_extension_spec(rel, "desktop"@),
        Category::Icon => (has_extension_spec(rel, "png"@) || has_extension_spec(rel, "svg"@))
            && (kind == ContentKind::Png || kind == ContentKind::Svg),
    }
}

/// Decides whether a source file is deployed by its category.
pub fn eligible(cat: Category, rel: &[char], kind: ContentKind) -> (r: bool)
    ensures
        r == eligible_spec(cat, rel@, kind),
{
    match cat {
        Category::Binary => kind == ContentKind::Executable || kind == ContentKind::SharedLibrary,
        Category::Desktop => {
            let e = chars_of("desktop");
            has_extension(rel, e.as_slice())
        },
        Category::Icon => {
            let png = chars_of("png");
            let svg = chars_of("svg");
            (has_extension(rel, png.as_slice()) || has_extension(rel, svg.as_slice())) && (kind
                == ContentKind::Png || kind == ContentKind::Svg)
        },
    }
}

/// The (relative source, absolute destination) pairs an install of
/// `files` into `dest` deploys, in source order.
pub open spec fn plan_spec(cat: Category, files: Seq<SourceFile>, dest: Seq<char>) -> Seq<
    (Seq<char>, Seq<char>),
>
    decreases files.len(),
{
    if files.len() == 0 {
        Seq::empty()
    } else {
        let rest = plan_spec(cat, files.drop_first(), dest);
        if eligible_spec(cat, files[0].rel_path@, files[0].kind) {
            seq![(files[0].rel_path@, dest + seq!['/'] + files[0].rel_path@)] + rest
        } else {
            rest
        }
    }
}

/// The pairs a planned-copy list denotes.
pub open spec fn pairs_of(plan: Seq<PlannedCopy>) -> Seq<(Seq<char>, Seq<char>)> {
    Seq::new(plan.len(), |i: int| (plan[i].rel_path@, plan[i].dest@))
}

/// The destinations of a planned-copy list, in order.
pub open spec fn dests_of(plan: Seq<PlannedCopy>) -> Seq<Seq<char>> {
    Seq::new(plan.len(), |i: int| plan[i].dest@)
}

/// Plans one category: selects the eligible files, in order, and maps
/// each to its destination under `dest_dir`.
pub fn plan_category(cat: Category, files: &Vec<SourceFile>, dest_dir: &[char]) -> (plan: Vec<
    PlannedCopy,
>)
    ensures
        pairs_of(plan@) == plan_spec(cat, files@, dest_dir@),
{
    let mut plan: Vec<PlannedCopy> = Vec::new();
    let mut i: usize = 0;
    proof {
        assert(files@.skip(0) =~= files@);
        assert(pairs_of(plan@) =~= Seq::<(Seq<char>, Seq<char>)>::empty());
    }
    while i < files.len()
        invariant
            i <= files@.len(),
            plan_spec(cat, files@, dest_dir@) == pairs_of(plan@) + plan_spec(
                cat,
                files@.skip(i as int),
                dest_dir@,
            ),
        decreases files@.len() - i,
    {
        let ghost prev = pairs_of(plan@);
        let ghost rest = files@.skip(i as int);
        proof {
            assert(rest[0] == files@[i as int]);
            assert(rest.drop_first() =~= files@.skip(i + 1));
        }
        let f = &files[i];
        if eligible(cat, f.rel_path.as_slice(), f.kind) {
            let rel_copy = sub_chars(f.rel_path.as_slice(), 0, f.rel_path.len());
            let dest = join_path(dest_dir, f.rel_path.as_slice());
            proof {
                assert(rel_copy@ =~= files@[i as int].rel_path@);
            }
            plan.push(PlannedCopy { rel_path: rel_copy, dest });
            proof {
                assert(pairs_of(plan@) =~= prev + seq![
                    (files@[i as int].rel_path@, dest_dir@ + seq!['/'] + files@[i as int].rel_path@),
                ]);
                assert(pairs_of(plan@) + plan_spec(cat, files@.skip(i + 1), dest_dir@) =~= prev
                    + plan_spec(cat, rest, dest_dir@));
            }
        } else {
            proof {
                assert(plan_spec(cat, rest, dest_dir@) == plan_spec(
                    cat,
                    rest.drop_first(),
                    dest_dir@,
                ));
            }
        }
        i += 1;
    }
    proof {
        assert(plan_spec(cat, files@.skip(files@.len() as int), dest_dir@) =~= Seq::<
            (Seq<char>, Seq<char>),
        >::empty());
        assert(pairs_of(plan@) =~= plan_spec(cat, files@, dest_dir@));
    }
    plan
}

/// No two elements of `s` are equal.
pub open spec fn distinct_paths(s: Seq<Seq<char>>) -> bool {
    forall|i: int, j: int| 0 <= i < j < s.len() ==> s[i] != s[j]
}

/// A model of the deployed filesystem: the regular files and the
/// directories present, each path listed once.
pub struct FsModel {
    pub files: Vec<Vec<char>>,
    pub dirs: Vec<Vec<char>>,
}

impl FsModel {
    /// Each path appears at most once.
    pub open spec fn wf(self) -> bool {
        distinct_paths(self.files.deep_view()) && distinct_paths(self.dirs.deep_view())
    }

    pub open spec fn file_paths(self) -> Seq<Seq<char>> {
        self.files.deep_view()
    }

    pub open spec fn dir_paths(self) -> Seq<Seq<char>> {
        self.dirs.deep_view()
    }

    pub open spec fn has_file(self, p: Seq<char>) -> bool {
        self.file_paths().contains(p)
    }

    pub open spec fn has_dir(self, p: Seq<char>) -> bool {
        self.dir_paths().contains(p)
    }
}

proof fn lemma_push_contains(s: Seq<Seq<char>>, e: Seq<char>, x: Seq<char>)
    ensures
        s.push(e).contains(x) <==> (s.contains(x) || x == e),
{
    if s.contains(x) {
        let k = choose|k: int| 0 <= k < s.len() && s[k] == x;
        assert(s.push(e)[k] == x);
    }
    if x == e {
        assert(s.push(e)[s.len() as int] == x);
    }
    if s.push(e).contains(x) {
        let k = choose|k: int| 0 <= k < s.push(e).len() && s.push(e)[k] == x;
        if k < s.len() {
            assert(s[k] == x);
        }
    }
}

proof fn lemma_remove_contains(s: Seq<Seq<char>>, k: int, x: Seq<char>)
    requires
        distinct_paths(s),
        0 <= k < s.len(),
    ensures
        s.remove(k).contains(x) <==> (s.contains(x) && x != s[k]),
        distinct_paths(s.remove(k)),
{
    let t = s.remove(k);
    assert(forall|j: int| 0 <= j < k ==> t[j] == s[j]);
    assert(forall|j: int| k <= j < t.len() ==> t[j] == s[j + 1]);
    if t.contains(x) {
        let j = choose|j: int| 0 <= j < t.len() && t[j] == x;
        if j < k {
            assert(s[j] == x);
        } else {
            assert(s[j + 1] == x);
        }
    }
    if s.contains(x) && x != s[k] {
        let j = choose|j: int| 0 <= j < s.len() && s[j] == x;
        if j < k {
            assert(t[j] == x);
        } else {
            assert(t[j - 1] == x);
        }
    }
    assert forall|i: int, j: int| 0 <= i < j < t.len() implies t[i] != t[j] by {
        if j < k {
        } else if i < k {
            assert(t[i] == s[i] && t[j] == s[j + 1]);
        } else {
            assert(t[i] == s[i + 1] && t[j] == s[j + 1]);
        }
    }
}

/// Looks a path up in a path list.
fn find_path(v: &Vec<Vec<char>>, p: &[char]) -> (r: Option<usize>)
    ensures
        match r {
            Some(k) => k < v@.len() && v.deep_view()[k as int] == p@,
            None => !v.deep_view().contains(p@),
        },
{
    let mut i: usize = 0;
    while i < v.len()
        invariant
            i <= v@.len(),
            forall|j: int| 0 <= j < i ==> v.deep_view()[j] != p@,
        decreases v@.len() - i,
    {
        proof {
            assert(v.deep_view()[i as int] =~= v@[i as int]@);
        }
        if chars_eq(v[i].as_slice(), p) {
            return Some(i);
        }
        i += 1;
    }
    proof {
        assert forall|j: int| 0 <= j < v.deep_view().len() implies v.deep_view()[j] != p@ by {}
    }
    None
}

/// Deploys a plan onto a model filesystem: every destination is
/// recorded in the manifest, in plan order, and a destination not yet
/// present is created; an existing file is never overwritten or removed.
pub fn apply_install(fs: &mut FsModel, plan: &Vec<PlannedCopy>) -> (manifest: Vec<Vec<char>>)
    requires
        old(fs).wf(),
    ensures
        final(fs).wf(),
        final(fs).dirs == old(fs).dirs,
        manifest.deep_view() == dests_of(plan@),
        forall|p: Seq<char>|
            final(fs).has_file(p) <==> (old(fs).has_file(p) || dests_of(plan@).contains(p)),
        forall|p: Seq<char>| old(fs).has_file(p) ==> final(fs).has_file(p),
{
    let mut manifest: Vec<Vec<char>> = Vec::new();
    let ghost d = dests_of(plan@);
    let mut i: usize = 0;
    proof {
        assert(manifest.deep_view() =~= d.take(0));
    }
    while i < plan.len()
        invariant
            i <= plan@.len(),
            d == dests_of(plan@),
            fs.wf(),
            fs.dirs == old(fs).dirs,
            manifest.deep_view() == d.take(i as int),
            forall|p: Seq<char>|
                fs.has_file(p) <==> (old(fs).has_file(p) || d.take(i as int).contains(p)),
        decreases plan@.len() - i,
    {
        let ghost prev_files = fs.file_paths();
        let dest = &plan[i].dest;
        proof {
            assert(d[i as int] == dest@);
        }
        let dest_copy = sub_chars(dest.as_slice(), 0, dest.len());
        manifest.push(dest_copy);
        proof {
            assert(manifest.deep_view() =~~= d.take(i as int).push(d[i as int]));
            assert(d.take(i as int).push(d[i as int]) =~= d.take(i + 1));
        }
        match find_path(&fs.files, dest.as_slice()) {
            Some(k) => {
                proof {
                    assert(fs.file_paths()[k as int] == dest@);
                    assert(fs.has_file(dest@));
                    assert(d.take(i + 1) =~= d.take(i as int).push(d[i as int]));
                    assert forall|p: Seq<char>|
                        fs.has_file(p) <==> (old(fs).has_file(p) || d.take(i + 1).contains(
                            p,
                        )) by {
                        lemma_push_contains(d.take(i as int), d[i as int], p);
                    }
                }
            },
            None => {
                let dest_copy2 = sub_chars(dest.as_slice(), 0, dest.len());
                fs.files.push(dest_copy2);
                proof {
                    assert(fs.file_paths() =~~= prev_files.push(dest@));
                    assert forall|a: int, b: int|
                        0 <= a < b < fs.file_paths().len() implies fs.file_paths()[a]
                        != fs.file_paths()[b] by {
                        if b == prev_files.len() {
                            assert(!prev_files.contains(dest@));
                            assert(fs.file_paths()[a] == prev_files[a]);
                        }
                    }
                    assert(d.take(i + 1) =~= d.take(i as int).push(d[i as int]));
                    assert forall|p: Seq<char>|
                        fs.has_file(p) <==> (old(fs).has_file(p) || d.take(i + 1).contains(
                            p,
                        )) by {
                        lemma_push_contains(d.take(i as int), d[i as int], p);
                        lemma_push_contains(prev_files, dest@, p);
                    }
                }
            },
        }
        i += 1;
    }
    proof {
        assert(d.take(plan@.len() as int) =~= d);
    }
    manifest
}

/// Reverses a manifest on a model filesystem: every recorded path that
/// is present is removed, a recorded path no longer present is
/// tolerated, and nothing unrecorded is touched.
pub fn apply_uninstall(fs: &mut FsModel, entries: &Vec<Vec<char>>)
    requires
        old(fs).wf(),
    ensures
        final(fs).wf(),
        final(fs).dirs == old(fs).dirs,
        forall|p: Seq<char>|
            final(fs).has_file(p) <==> (old(fs).has_file(p) && !entries.deep_view().contains(p)),
{
    let ghost e = entries.deep_view();
    let mut i: usize = 0;
    proof {
        assert(e.take(0) =~= Seq::<Seq<char>>::empty());
    }
    while i < entries.len()
        invariant
            i <= entries@.len(),
            e == entries.deep_view(),
            fs.wf(),
            fs.dirs == old(fs).dirs,
            forall|p: Seq<char>|
                fs.has_file(p) <==> (old(fs).has_file(p) && !e.take(i as int).contains(p)),
        decreases entries@.len() - i,
    {
        let ghost prev_files = fs.file_paths();
        let entry = &entries[i];
        proof {
            assert(e[i as int] =~= entry@);
        }
        match find_path(&fs.files, entry.as_slice()) {
            Some(k) => {
                proof {
                    assert(prev_files[k as int] == entry@);
                }
                fs.files.remove(k);
                proof {
                    assert(fs.file_paths() =~~= prev_files.remove(k as int));
                    assert(e.take(i + 1) =~= e.take(i as int).push(e[i as int]));
                    assert forall|p: Seq<char>|
                        fs.has_file(p) <==> (old(fs).has_file(p) && !e.take(i + 1).contains(
                            p,
                        )) by {
                        lemma_remove_contains(prev_files, k as int, p);
                        lemma_push_contains(e.take(i as int), e[i as int], p);
                    }
                    lemma_remove_contains(prev_files, k as int, entry@);
                }
            },
            None => {
                proof {
                    assert(e.take(i + 1) =~= e.take(i as int).push(e[i as int]));
                    assert forall|p: Seq<char>|
                        fs.has_file(p) <==> (old(fs).has_file(p) && !e.take(i + 1).contains(
                            p,
                        )) by {
                        lemma_push_contains(e.take(i as int), e[i as int], p);
                        if p == e[i as int] {
                            assert(!fs.file_paths().contains(p));
                        }
                    }
                }
            },
        }
        i += 1;
    }
    proof {
        assert(e.take(entries@.len() as int) =~= e);
    }
}

/// True when path `p` lies strictly inside directory `d`.
pub open spec fn strictly_under(p: Seq<char>, d: Seq<char>) -> bool {
    d.len() < p.len() && p.subrange(0, d.len() as int) == d && p[d.len() as int] == '/'
}

/// No path of `paths` lies strictly inside `d`.
pub open spec fn nothing_under(paths: Seq<Seq<char>>, d: Seq<char>) -> bool {
    forall|k: int| 0 <= k < paths.len() ==> !strictly_under(paths[k], d)
}

/// A directory is empty when no file and no other directory lies
/// strictly inside it.
pub open spec fn dir_empty_spec(fs: FsModel, d: Seq<char>) -> bool {
    nothing_under(fs.file_paths(), d) && nothing_under(fs.dir_paths(), d)
}

/// Decides whether path `p` lies strictly inside directory `d`.
pub fn is_strictly_under(p: &[char], d: &[char]) -> (r: bool)
    ensures
        r == strictly_under(p@, d@),
{
    if d.len() >= p.len() {
        return false;
    }
    if p[d.len()] != '/' {
        return false;
    }
    let r = matches_at(p, d, 0);
    proof {
        assert(p@.skip(0) =~= p@);
        if d@.is_prefix_of(p@) {
            assert(p@.subrange(0, d@.len() as int) == d@);
        }
        if p@.subrange(0, d@.len() as int) == d@ {
            assert(d@.is_prefix_of(p@));
        }
    }
    r
}

fn nothing_under_exec(paths: &Vec<Vec<char>>, d: &[char]) -> (r: bool)
    ensures
        r == nothing_under(paths.deep_view(), d@),
{
    let mut i: usize = 0;
    while i < paths.len()
        invariant
            i <= paths@.len(),
            forall|k: int| 0 <= k < i ==> !strictly_under(paths.deep_view()[k], d@),
        decreases paths@.len() - i,
    {
        proof {
            assert(paths.deep_view()[i as int] =~= paths@[i as int]@);
        }
        if is_strictly_under(paths[i].as_slice(), d) {
            return false;
        }
        i += 1;
    }
    true
}

/// `d` is `root` itself or an ancestor directory of it.
pub open spec fn on_chain_of(d: Seq<char>, root: Seq<char>) -> bool {
    d == root || strictly_under(root, d)
}

proof fn lemma_nothing_under_remove(s: Seq<Seq<char>>, k: int, d: Seq<char>)
    requires
        0 <= k < s.len(),
        nothing_under(s, d),
    ensures
        nothing_under(s.remove(k), d),
{
    let t = s.remove(k);
    assert forall|j: int| 0 <= j < t.len() implies !strictly_under(t[j], d) by {
        if j < k {
            assert(t[j] == s[j]);
        } else {
            assert(t[j] == s[j + 1]);
        }
    }
}

pub proof fn lemma_nothing_under_subset(sub: Seq<Seq<char>>, sup: Seq<Seq<char>>, d: Seq<char>)
    requires
        forall|x: Seq<char>| sub.contains(x) ==> sup.contains(x),
        nothing_under(sup, d),
    ensures
        nothing_under(sub, d),
{
    assert forall|j: int| 0 <= j < sub.len() implies !strictly_under(sub[j], d) by {
        assert(sub.contains(sub[j]));
        assert(sup.contains(sub[j]));
        let m = choose|m: int| 0 <= m < sup.len() && sup[m] == sub[j];
        assert(!strictly_under(sup[m], d));
    }
}

/// The upward walk from `start` is guaranteed to reach and remove `d`:
/// `d` lies on `start`'s upward chain, every chain member from `start`
/// up to `d` is a present directory, no file lies under `d`, and every
/// directory under `d` is chain scaffolding.
pub open spec fn chain_clear_to(
    files: Seq<Seq<char>>,
    dirs: Seq<Seq<char>>,
    start: Seq<char>,
    d: Seq<char>,
) -> bool {
    &&& d.len() > 0
    &&& on_chain_of(d, start)
    &&& (forall|c: Seq<char>| on_chain_of(c, start) && on_chain_of(d, c) ==> dirs.contains(c))
    &&& nothing_under(files, d)
    &&& (forall|d2: Seq<char>| dirs.contains(d2) && strictly_under(d2, d) ==> on_chain_of(d2, start))
}

pub proof fn lemma_under_trans(x: Seq<char>, m: Seq<char>, d: Seq<char>)
    requires
        strictly_under(x, m),
        strictly_under(m, d),
    ensures
        strictly_under(x, d),
{
    assert forall|i: int| 0 <= i < d.len() implies x[i] == d[i] by {
        assert(x.subrange(0, m.len() as int)[i] == x[i]);
        assert(m.subrange(0, d.len() as int)[i] == m[i]);
    }
    assert(x.subrange(0, d.len() as int) =~= d);
    assert(x.subrange(0, m.len() as int)[d.len() as int] == x[d.len() as int]);
}

/// Prunes empty directory scaffolding upward from `start`: while the
/// current directory is present and empty it is removed and the walk
/// moves to its parent, stopping at a missing or non-empty directory or
/// at the top of the path. Every removal lies on the upward chain of
/// `start`; only a directory with nothing inside it is ever removed; a
/// missing or non-empty `start` leaves the model unchanged; and every
/// chain directory the walk is bound to reach through present, clear
/// scaffolding is removed.
pub fn prune_dirs(fs: &mut FsModel, start: &[char])
    requires
        old(fs).wf(),
    ensures
        final(fs).wf(),
        final(fs).files == old(fs).files,
        forall|d: Seq<char>| final(fs).has_dir(d) ==> old(fs).has_dir(d),
        forall|d: Seq<char>|
            old(fs).has_dir(d) && !final(fs).has_dir(d) ==> on_chain_of(d, start@),
        forall|d: Seq<char>|
            old(fs).has_dir(d) && !final(fs).has_dir(d) ==> nothing_under(
                old(fs).file_paths(),
                d,
            ) && nothing_under(final(fs).dir_paths(), d),
        old(fs).has_dir(start@) && dir_empty_spec(*old(fs), start@) ==> !final(fs).has_dir(start@),
        !(old(fs).has_dir(start@) && dir_empty_spec(*old(fs), start@)) ==> final(fs).dirs == old(
            fs,
        ).dirs,
        forall|d: Seq<char>|
            chain_clear_to(old(fs).file_paths(), old(fs).dir_paths(), start@, d)
                ==> !final(fs).has_dir(d),
{
    let mut cur: Vec<char> = sub_chars(start, 0, start.len());
    proof {
        assert(cur@ =~= start@);
    }
    loop
        invariant_except_break
            // within an iteration the walk has removed exactly the chain
            // strictly below `cur`
            forall|x: Seq<char>|
                old(fs).has_dir(x) && !fs.has_dir(x) ==> strictly_under(x, cur@),
        invariant
            fs.wf(),
            fs.files == old(fs).files,
            cur@ == start@ || strictly_under(start@, cur@),
            forall|d: Seq<char>| fs.has_dir(d) ==> old(fs).has_dir(d),
            forall|d: Seq<char>|
                old(fs).has_dir(d) && !fs.has_dir(d) ==> on_chain_of(d, start@),
            forall|d: Seq<char>|
                old(fs).has_dir(d) && !fs.has_dir(d) ==> nothing_under(old(fs).file_paths(), d)
                    && nothing_under(fs.dir_paths(), d),
            (old(fs).has_dir(start@) && dir_empty_spec(*old(fs), start@)) ==> (!fs.has_dir(start@)
                || (cur@ == start@ && fs.dirs == old(fs).dirs)),
            !(old(fs).has_dir(start@) && dir_empty_spec(*old(fs), start@)) ==> (fs.dirs == old(
                fs,
            ).dirs && cur@ == start@),
            // the walk has removed exactly the chain below `cur`
            forall|x: Seq<char>|
                on_chain_of(x, start@) && strictly_under(x, cur@) ==> old(fs).has_dir(x)
                    && !fs.has_dir(x),
            // a reachable chain directory is removed or still ahead
            forall|d: Seq<char>|
                chain_clear_to(old(fs).file_paths(), old(fs).dir_paths(), start@, d) ==> (
                !fs.has_dir(d) || d == cur@ || strictly_under(cur@, d)),
        ensures
            fs.wf(),
            fs.files == old(fs).files,
            forall|d: Seq<char>| fs.has_dir(d) ==> old(fs).has_dir(d),
            forall|d: Seq<char>|
                old(fs).has_dir(d) && !fs.has_dir(d) ==> on_chain_of(d, start@),
            forall|d: Seq<char>|
                old(fs).has_dir(d) && !fs.has_dir(d) ==> nothing_under(old(fs).file_paths(), d)
                    && nothing_under(fs.dir_paths(), d),
            (old(fs).has_dir(start@) && dir_empty_spec(*old(fs), start@)) ==> !fs.has_dir(start@),
            !(old(fs).has_dir(start@) && dir_empty_spec(*old(fs), start@)) ==> fs.dirs == old(
                fs,
            ).dirs,
            forall|d: Seq<char>|
                chain_clear_to(old(fs).file_paths(), old(fs).dir_paths(), start@, d)
                    ==> !fs.has_dir(d),
        decreases fs.dirs.len(),
    {
        let ghost prev_dirs = fs.dir_paths();
        let found = find_path(&fs.dirs, cur.as_slice());
        match found {
            Some(k) => {
                if nothing_under_exec(&fs.files, cur.as_slice()) && nothing_under_exec(
                    &fs.dirs,
                    cur.as_slice(),
                ) {
                    proof {
                        assert(prev_dirs[k as int] == cur@);
                        assert(fs.has_dir(cur@));
                    }
                    fs.dirs.remove(k);
                    proof {
                        assert(fs.dir_paths() =~~= prev_dirs.remove(k as int));
                        assert forall|d: Seq<char>| fs.has_dir(d) implies old(fs).has_dir(d) by {
                            lemma_remove_contains(prev_dirs, k as int, d);
                        }
                        lemma_remove_contains(prev_dirs, k as int, cur@);
                        assert(!fs.has_dir(cur@));
                        assert forall|d: Seq<char>|
                            old(fs).has_dir(d) && !fs.has_dir(d) implies on_chain_of(
                            d,
                            start@,
                        ) by {
                            lemma_remove_contains(prev_dirs, k as int, d);
                        }
                        assert forall|d: Seq<char>|
                            old(fs).has_dir(d) && !fs.has_dir(d) implies nothing_under(
                            old(fs).file_paths(),
                            d,
                        ) && nothing_under(fs.dir_paths(), d) by {
                            lemma_remove_contains(prev_dirs, k as int, d);
                            if d == cur@ {
                                assert(nothing_under(old(fs).file_paths(), cur@));
                                lemma_nothing_under_remove(prev_dirs, k as int, cur@);
                            } else {
                                assert(nothing_under(prev_dirs, d));
                                lemma_nothing_under_remove(prev_dirs, k as int, d);
                            }
                        }
                    }
                    // move to the parent directory, if the path has one
                    let mut j: usize = cur.len();
                    while j > 0 && cur[j - 1] != '/'
                        invariant
                            j <= cur@.len(),
                            forall|m: int| j <= m < cur@.len() ==> cur@[m] != '/',
                        decreases j,
                    {
                        j -= 1;
                    }
                    if j <= 1 {
                        proof {
                            assert forall|d: Seq<char>|
                                chain_clear_to(
                                    old(fs).file_paths(),
                                    old(fs).dir_paths(),
                                    start@,
                                    d,
                                ) implies !fs.has_dir(d) by {
                                if fs.has_dir(d) {
                                    assert(d != cur@);
                                    assert(strictly_under(cur@, d));
                                    assert(cur@[d.len() as int] == '/');
                                    assert(d.len() >= j);
                                }
                            }
                        }
                        break;
                    }
                    let ghost old_cur = cur@;
                    let parent = sub_chars(cur.as_slice(), 0, j - 1);
                    proof {
                        assert(parent@ == old_cur.subrange(0, j - 1));
                        assert(old_cur[j - 1] == '/');
                        // the parent stays on the chain
                        if old_cur == start@ {
                            assert(parent@ =~= start@.subrange(0, j - 1));
                            assert(strictly_under(start@, parent@));
                        } else {
                            assert(strictly_under(start@, old_cur));
                            assert(start@.subrange(0, old_cur.len() as int) == old_cur);
                            assert forall|m: int| 0 <= m < j - 1 implies start@[m] == old_cur[m] by {
                                assert(start@.subrange(0, old_cur.len() as int)[m] == old_cur[m]);
                            }
                            assert(start@[j - 1] == old_cur[j - 1]);
                            assert(parent@ =~= start@.subrange(0, j - 1));
                            assert(strictly_under(start@, parent@));
                        }
                        assert(strictly_under(old_cur, parent@));
                        // the chain below the parent is exactly the chain below
                        // the old position plus the old position itself
                        assert forall|x: Seq<char>|
                            on_chain_of(x, start@) && strictly_under(x, parent@) implies old(
                            fs,
                        ).has_dir(x) && !fs.has_dir(x) by {
                            if x.len() > old_cur.len() {
                                assert(x != start@ || old_cur != start@);
                                if x == start@ {
                                    assert(strictly_under(start@, old_cur));
                                    assert(strictly_under(x, old_cur));
                                } else {
                                    assert(strictly_under(start@, x));
                                    assert(start@.subrange(0, x.len() as int) == x);
                                    assert(old_cur.len() < x.len() <= start@.len());
                                    assert forall|m: int|
                                        0 <= m < old_cur.len() implies x[m] == start@[m] by {
                                        assert(start@.subrange(0, x.len() as int)[m] == x[m]);
                                    }
                                    if old_cur == start@ {
                                        assert(x.len() <= start@.len());
                                        assert(false);
                                    } else {
                                        assert(start@.subrange(0, old_cur.len() as int)
                                            == old_cur);
                                        assert(x.subrange(0, old_cur.len() as int) =~= old_cur);
                                        assert(x[old_cur.len() as int] == start@[old_cur.len() as int]);
                                        assert(strictly_under(x, old_cur));
                                    }
                                }
                            } else if x.len() == old_cur.len() {
                                if x == start@ {
                                    assert(old_cur == start@ || strictly_under(start@, old_cur));
                                    assert(x =~= old_cur);
                                } else {
                                    assert(strictly_under(start@, x));
                                    if old_cur == start@ {
                                        assert(false);
                                    } else {
                                        assert(start@.subrange(0, x.len() as int) == x);
                                        assert(start@.subrange(0, old_cur.len() as int)
                                            == old_cur);
                                        assert(x =~= old_cur);
                                    }
                                }
                                assert(old(fs).has_dir(old_cur));
                            } else {
                                // a chain member strictly between the parent and
                                // the old position would need a separator where
                                // the scan found none
                                assert(parent@.len() < x.len() < old_cur.len());
                                if x == start@ {
                                    assert(false);
                                } else {
                                    assert(strictly_under(start@, x));
                                    assert(start@[x.len() as int] == '/');
                                    if old_cur == start@ {
                                        assert(old_cur[x.len() as int] == '/');
                                    } else {
                                        assert(start@.subrange(0, old_cur.len() as int)
                                            == old_cur);
                                        assert(old_cur[x.len() as int] == start@.subrange(
                                            0,
                                            old_cur.len() as int,
                                        )[x.len() as int]);
                                        assert(old_cur[x.len() as int] == '/');
                                    }
                                    assert(x.len() >= j);
                                    assert(false);
                                }
                            }
                        }
                        // removals stay strictly below the new position
                        assert forall|x: Seq<char>|
                            old(fs).has_dir(x) && !fs.has_dir(x) implies strictly_under(
                            x,
                            parent@,
                        ) by {
                            if x == cur@ {
                            } else {
                                lemma_remove_contains(prev_dirs, k as int, x);
                                assert(strictly_under(x, old_cur));
                                lemma_under_trans(x, old_cur, parent@);
                            }
                        }
                        // a reachable chain directory is removed or still ahead
                        assert forall|d: Seq<char>|
                            chain_clear_to(
                                old(fs).file_paths(),
                                old(fs).dir_paths(),
                                start@,
                                d,
                            ) && fs.has_dir(d) implies (d == parent@ || strictly_under(
                            parent@,
                            d,
                        )) by {
                            assert(d != old_cur);
                            assert(strictly_under(old_cur, d));
                            assert(old_cur[d.len() as int] == '/');
                            assert(d.len() < j);
                            assert(d.len() <= j - 1);
                            if d.len() == j - 1 {
                                assert(old_cur.subrange(0, d.len() as int) == d);
                                assert(d =~= parent@);
                            } else {
                                assert(old_cur.subrange(0, d.len() as int) == d);
                                assert forall|m: int|
                                    0 <= m < d.len() implies parent@[m] == d[m] by {
                                    assert(old_cur.subrange(0, d.len() as int)[m] == d[m]);
                                }
                                assert(parent@.subrange(0, d.len() as int) =~= d);
                                assert(parent@[d.len() as int] == old_cur[d.len() as int]);
                                assert(strictly_under(parent@, d));
                            }
                        }
                    }
                    cur = parent;
                } else {
                    proof {
                        if old(fs).has_dir(start@) && dir_empty_spec(*old(fs), start@)
                            && fs.has_dir(start@) {
                            assert(cur@ == start@ && fs.dirs == old(fs).dirs);
                            assert(nothing_under(old(fs).file_paths(), start@));
                            assert(nothing_under(old(fs).dir_paths(), start@));
                        }
                        // a reachable chain directory would have made the
                        // current directory empty
                        assert forall|d: Seq<char>|
                            chain_clear_to(
                                old(fs).file_paths(),
                                old(fs).dir_paths(),
                                start@,
                                d,
                            ) implies !fs.has_dir(d) by {
                            if fs.has_dir(d) {
                                assert(d == cur@ || strictly_under(cur@, d));
                                assert forall|q: int|
                                    0 <= q < fs.file_paths().len() implies !strictly_under(
                                    fs.file_paths()[q],
                                    cur@,
                                ) by {
                                    if strictly_under(fs.file_paths()[q], cur@) {
                                        if d != cur@ {
                                            lemma_under_trans(fs.file_paths()[q], cur@, d);
                                        }
                                        assert(fs.file_paths() == old(fs).file_paths());
                                        assert(!nothing_under(old(fs).file_paths(), d));
                                    }
                                }
                                assert forall|q: int|
                                    0 <= q < fs.dir_paths().len() implies !strictly_under(
                                    fs.dir_paths()[q],
                                    cur@,
                                ) by {
                                    let d2 = fs.dir_paths()[q];
                                    if strictly_under(d2, cur@) {
                                        assert(fs.dir_paths().contains(d2));
                                        assert(fs.has_dir(d2));
                                        assert(old(fs).has_dir(d2));
                                        if d != cur@ {
                                            lemma_under_trans(d2, cur@, d);
                                        }
                                        assert(on_chain_of(d2, start@));
                                        assert(!fs.has_dir(d2));
                                    }
                                }
                                assert(nothing_under(fs.file_paths(), cur@));
                                assert(nothing_under(fs.dir_paths(), cur@));
                            }
                        }
                    }
                    break;
                }
            },
            None => {
                proof {
                    if old(fs).has_dir(start@) && dir_empty_spec(*old(fs), start@)
                        && fs.has_dir(start@) {
                        assert(cur@ == start@);
                        assert(!fs.dir_paths().contains(cur@));
                    }
                    // a reachable chain directory would need the current,
                    // missing directory on its way
                    assert forall|d: Seq<char>|
                        chain_clear_to(
                            old(fs).file_paths(),
                            old(fs).dir_paths(),
                            start@,
                            d,
                        ) implies !fs.has_dir(d) by {
                        if fs.has_dir(d) {
                            if d == cur@ {
                                assert(!fs.dir_paths().contains(cur@));
                            } else {
                                assert(strictly_under(cur@, d));
                                assert(on_chain_of(cur@, start@));
                                assert(on_chain_of(d, cur@));
                                assert(old(fs).dir_paths().contains(cur@));
                                assert(old(fs).has_dir(cur@));
                                assert(!fs.has_dir(cur@));
                                assert(strictly_under(cur@, cur@));
                            }
                        }
                    }
                }
                break;
            },
        }
    }
}

/// The destinations of a pair list, in order.
pub open spec fn pair_dests(pairs: Seq<(Seq<char>, Seq<char>)>) -> Seq<Seq<char>> {
    Seq::new(pairs.len(), |i: int| pairs[i].1)
}

/// Every destination an install of the three category trees under
/// `prefix` deploys, in deployment order: binaries, then desktop
/// entries, then icons.
pub open spec fn install_dests(
    prefix: Seq<char>,
    home: Seq<char>,
    bins: Seq<SourceFile>,
    desktops: Seq<SourceFile>,
    icons: Seq<SourceFile>,
) -> Seq<Seq<char>> {
    pair_dests(plan_spec(Category::Binary, bins, bin_dir_spec(prefix))) + pair_dests(
        plan_spec(Category::Desktop, desktops, desktop_dir_spec(prefix, home)),
    ) + pair_dests(plan_spec(Category::Icon, icons, icon_dir_spec(prefix, home)))
}

/// Performs a whole install on a model filesystem, in the order the
/// deployer works: the privilege gate, the metadata check, the
/// confirmation prompt, then the three categories. An error performs no
/// change; success returns the manifest, which records every
/// destination, written or skipped.
pub fn install_on_model(
    fs: &mut FsModel,
    prefix: &[char],
    home: &[char],
    is_root: bool,
    metadata_readable: bool,
    answer: &[char],
    bins: &Vec<SourceFile>,
    desktops: &Vec<SourceFile>,
    icons: &Vec<SourceFile>,
) -> (r: Result<Vec<Vec<char>>, InstallError>)
    requires
        old(fs).wf(),
    ensures
        final(fs).wf(),
        r matches Err(InstallError::PermissionPolicy) <==> (requires_root_spec(prefix@)
            && !is_root),
        r matches Err(InstallError::MetadataUnreadable) <==> (!(requires_root_spec(prefix@)
            && !is_root) && !metadata_readable),
        r matches Err(InstallError::UserCancelled) <==> (!(requires_root_spec(prefix@) && !is_root)
            && metadata_readable && !is_affirmative_spec(answer@)),
        r is Ok <==> (!(requires_root_spec(prefix@) && !is_root) && metadata_readable
            && is_affirmative_spec(answer@)),
        r is Err ==> *final(fs) == *old(fs),
        r matches Ok(m) ==> {
            &&& m.deep_view() == install_dests(prefix@, home@, bins@, desktops@, icons@)
            &&& final(fs).dirs == old(fs).dirs
            &&& (forall|p: Seq<char>|
                final(fs).has_file(p) <==> (old(fs).has_file(p) || install_dests(
                    prefix@,
                    home@,
                    bins@,
                    desktops@,
                    icons@,
                ).contains(p)))
            &&& (forall|p: Seq<char>| old(fs).has_file(p) ==> final(fs).has_file(p))
        },
{
    if requires_root(prefix) && !is_root {
        return Err(InstallError::PermissionPolicy);
    }
    if !metadata_readable {
        return Err(InstallError::MetadataUnreadable);
    }
    if !is_affirmative(answer) {
        return Err(InstallError::UserCancelled);
    }
    let targets = resolve_targets(prefix, home);
    let mut plan = plan_category(Category::Binary, bins, targets.bin_dir.as_slice());
    let mut desktop_plan = plan_category(Category::Desktop, desktops, targets.desktop_dir.as_slice());
    let mut icon_plan = plan_category(Category::Icon, icons, targets.icon_dir.as_slice());
    let ghost p1 = plan@;
    let ghost p2 = desktop_plan@;
    let ghost p3 = icon_plan@;
    plan.append(&mut desktop_plan);
    plan.append(&mut icon_plan);
    proof {
        assert(plan@ == p1 + p2 + p3);
        assert(dests_of(p1) =~= pair_dests(pairs_of(p1)));
        assert(dests_of(p2) =~= pair_dests(pairs_of(p2)));
        assert(dests_of(p3) =~= pair_dests(pairs_of(p3)));
        assert(dests_of(plan@) =~= dests_of(p1) + dests_of(p2) + dests_of(p3));
        assert(dests_of(plan@) == install_dests(prefix@, home@, bins@, desktops@, icons@));
    }
    let manifest = apply_install(fs, &plan);
    Ok(manifest)
}

/// Performs a whole uninstall on a model filesystem, in the order the
/// reverser works: the confirmation prompt, the privilege gate, the
/// manifest lookup, the removal of every recorded path that is present,
/// then the pruning of empty scaffolding above each destination root.
/// An error performs no change.
pub fn uninstall_on_model(
    fs: &mut FsModel,
    prefix: &[char],
    home: &[char],
    is_root: bool,
    answer: &[char],
    manifest: &Option<Vec<Vec<char>>>,
) -> (r: Result<(), InstallError>)
    requires
        old(fs).wf(),
    ensures
        final(fs).wf(),
        r matches Err(InstallError::UserCancelled) <==> !is_affirmative_spec(answer@),
        r matches Err(InstallError::PermissionPolicy) <==> (is_affirmative_spec(answer@)
            && requires_root_spec(prefix@) && !is_root),
        r matches Err(InstallError::ManifestNotFound) <==> (is_affirmative_spec(answer@)
            && !(requires_root_spec(prefix@) && !is_root) && manifest is None),
        r is Ok <==> (is_affirmative_spec(answer@) && !(requires_root_spec(prefix@) && !is_root)
            && manifest is Some),
        r is Err ==> *final(fs) == *old(fs),
        r is Ok ==> {
            &&& (forall|p: Seq<char>|
                final(fs).has_file(p) <==> (old(fs).has_file(p)
                    && !manifest->Some_0.deep_view().contains(p)))
            &&& (forall|d: Seq<char>| final(fs).has_dir(d) ==> old(fs).has_dir(d))
            &&& (forall|d: Seq<char>|
                old(fs).has_dir(d) && !final(fs).has_dir(d) ==> (on_chain_of(
                    d,
                    bin_dir_spec(prefix@),
                ) || on_chain_of(d, desktop_dir_spec(prefix@, home@)) || on_chain_of(
                    d,
                    icon_dir_spec(prefix@, home@),
                )))
            &&& (forall|d: Seq<char>|
                old(fs).has_dir(d) && !final(fs).has_dir(d) ==> nothing_under(
                    final(fs).file_paths(),
                    d,
                ) && nothing_under(final(fs).dir_paths(), d))
            &&& root_pruned(*old(fs), *final(fs), bin_dir_spec(prefix@))
            &&& root_pruned(*old(fs), *final(fs), desktop_dir_spec(prefix@, home@))
            &&& root_pruned(*old(fs), *final(fs), icon_dir_spec(prefix@, home@))
            &&& (forall|d: Seq<char>|
                chain_clear_to(
                    final(fs).file_paths(),
                    old(fs).dir_paths(),
                    bin_dir_spec(prefix@),
                    d,
                ) ==> !final(fs).has_dir(d))
            &&& (forall|d: Seq<char>|
                chain_clear_to(
                    final(fs).file_paths(),
                    old(fs).dir_paths(),
                    desktop_dir_spec(prefix@, home@),
                    d,
                ) && (forall|c: Seq<char>|
                    on_chain_of(c, desktop_dir_spec(prefix@, home@)) && on_chain_of(d, c)
                        ==> !on_chain_of(c, bin_dir_spec(prefix@))) ==> !final(fs).has_dir(d))
            &&& (forall|d: Seq<char>|
                chain_clear_to(
                    final(fs).file_paths(),
                    old(fs).dir_paths(),
                    icon_dir_spec(prefix@, home@),
                    d,
                ) && (forall|c: Seq<char>|
                    on_chain_of(c, icon_dir_spec(prefix@, home@)) && on_chain_of(d, c)
                        ==> !on_chain_of(c, bin_dir_spec(prefix@)) && !on_chain_of(
                            c,
                            desktop_dir_spec(prefix@, home@),
                        )) ==> !final(fs).has_dir(d))
        },
{
    if !is_affirmative(answer) {
        return Err(InstallError::UserCancelled);
    }
    if requires_root(prefix) && !is_root {
        return Err(InstallError::PermissionPolicy);
    }
    match manifest {
        None => Err(InstallError::ManifestNotFound),
        Some(entries) => {
            apply_uninstall(fs, entries);
            let ghost s1 = *fs;
            let targets = resolve_targets(prefix, home);
            let ghost broot = targets.bin_dir@;
            let ghost droot = targets.desktop_dir@;
            let ghost iroot = targets.icon_dir@;
            prune_dirs(fs, targets.bin_dir.as_slice());
            let ghost s2 = *fs;
            prune_dirs(fs, targets.desktop_dir.as_slice());
            let ghost s3 = *fs;
            prune_dirs(fs, targets.icon_dir.as_slice());
            proof {
                assert(s1.dirs == old(fs).dirs);
                assert(fs.files == s1.files);
                assert forall|x: Seq<char>|
                    fs.dir_paths().contains(x) implies s3.dir_paths().contains(x)
                        && s2.dir_paths().contains(x) && s1.dir_paths().contains(x) by {
                    assert(fs.has_dir(x));
                    assert(s3.has_dir(x));
                    assert(s2.has_dir(x));
                    assert(s1.has_dir(x));
                }
                assert forall|x: Seq<char>|
                    s3.dir_paths().contains(x) implies s2.dir_paths().contains(x)
                        && s1.dir_paths().contains(x) by {
                    assert(s3.has_dir(x));
                    assert(s2.has_dir(x));
                    assert(s1.has_dir(x));
                }
                assert forall|x: Seq<char>|
                    s2.dir_paths().contains(x) implies s1.dir_paths().contains(x) by {
                    assert(s2.has_dir(x));
                    assert(s1.has_dir(x));
                }
                // every removal lies on one root's chain, and removed only what was empty
                assert forall|d: Seq<char>|
                    old(fs).has_dir(d) && !fs.has_dir(d) implies (on_chain_of(d, broot)
                    || on_chain_of(d, droot) || on_chain_of(d, iroot)) && nothing_under(
                    fs.file_paths(),
                    d,
                ) && nothing_under(fs.dir_paths(), d) by {
                    if !s2.has_dir(d) {
                        assert(s1.has_dir(d));
                        assert(on_chain_of(d, broot));
                        assert(nothing_under(s1.file_paths(), d));
                        assert(nothing_under(s2.dir_paths(), d));
                        lemma_nothing_under_subset(fs.dir_paths(), s2.dir_paths(), d);
                    } else if !s3.has_dir(d) {
                        assert(on_chain_of(d, droot));
                        assert(nothing_under(s2.file_paths(), d));
                        assert(nothing_under(s3.dir_paths(), d));
                        lemma_nothing_under_subset(fs.dir_paths(), s3.dir_paths(), d);
                    } else {
                        assert(on_chain_of(d, iroot));
                        assert(nothing_under(s3.file_paths(), d));
                        assert(nothing_under(fs.dir_paths(), d));
                    }
                }
                // a destination root left empty by the removal is pruned
                if old(fs).has_dir(broot) && nothing_under(fs.file_paths(), broot)
                    && nothing_under(old(fs).dir_paths(), broot) {
                    assert(s1.has_dir(broot));
                    assert(dir_empty_spec(s1, broot));
                    assert(!s2.has_dir(broot));
                }
                if old(fs).has_dir(droot) && nothing_under(fs.file_paths(), droot)
                    && nothing_under(old(fs).dir_paths(), droot) {
                    if s2.has_dir(droot) {
                        lemma_nothing_under_subset(s2.dir_paths(), s1.dir_paths(), droot);
                        assert(dir_empty_spec(s2, droot));
                        assert(!s3.has_dir(droot));
                    }
                    assert(!fs.has_dir(droot));
                }
                if old(fs).has_dir(iroot) && nothing_under(fs.file_paths(), iroot)
                    && nothing_under(old(fs).dir_paths(), iroot) {
                    if s3.has_dir(iroot) {
                        lemma_nothing_under_subset(s3.dir_paths(), s1.dir_paths(), iroot);
                        assert(dir_empty_spec(s3, iroot));
                    }
                    assert(!fs.has_dir(iroot));
                }
                // the chain-completion clause of each prune, lifted to the
                // whole operation
                assert forall|d: Seq<char>|
                    chain_clear_to(
                        fs.file_paths(),
                        old(fs).dir_paths(),
                        broot,
                        d,
                    ) implies !fs.has_dir(d) by {
                    assert(chain_clear_to(s1.file_paths(), s1.dir_paths(), broot, d));
                    assert(!s2.has_dir(d));
                }
                assert forall|d: Seq<char>|
                    chain_clear_to(fs.file_paths(), old(fs).dir_paths(), droot, d) && (
                    forall|c: Seq<char>|
                        on_chain_of(c, droot) && on_chain_of(d, c) ==> !on_chain_of(
                            c,
                            broot,
                        )) implies !fs.has_dir(d) by {
                    assert forall|c: Seq<char>|
                        on_chain_of(c, droot) && on_chain_of(d, c) implies s2.dir_paths().contains(
                        c,
                    ) by {
                        assert(old(fs).dir_paths().contains(c));
                        assert(s1.has_dir(c));
                        if !s2.has_dir(c) {
                            assert(on_chain_of(c, broot));
                        }
                    }
                    assert forall|d2: Seq<char>|
                        s2.dir_paths().contains(d2) && strictly_under(d2, d) implies on_chain_of(
                        d2,
                        droot,
                    ) by {
                        assert(s2.has_dir(d2));
                        assert(s1.has_dir(d2));
                        assert(old(fs).dir_paths().contains(d2));
                    }
                    assert(chain_clear_to(s2.file_paths(), s2.dir_paths(), droot, d));
                    assert(!s3.has_dir(d));
                }
                assert forall|d: Seq<char>|
                    chain_clear_to(fs.file_paths(), old(fs).dir_paths(), iroot, d) && (
                    forall|c: Seq<char>|
                        on_chain_of(c, iroot) && on_chain_of(d, c) ==> !on_chain_of(c, broot)
                            && !on_chain_of(c, droot)) implies !fs.has_dir(d) by {
                    assert forall|c: Seq<char>|
                        on_chain_of(c, iroot) && on_chain_of(d, c) implies s3.dir_paths().contains(
                        c,
                    ) by {
                        assert(old(fs).dir_paths().contains(c));
                        assert(s1.has_dir(c));
                        if !s3.has_dir(c) {
                            if !s2.has_dir(c) {
                                assert(on_chain_of(c, broot));
                            } else {
                                assert(on_chain_of(c, droot));
                            }
                        }
                    }
                    assert forall|d2: Seq<char>|
                        s3.dir_paths().contains(d2) && strictly_under(d2, d) implies on_chain_of(
                        d2,
                        iroot,
                    ) by {
                        assert(s3.has_dir(d2));
                        assert(s2.has_dir(d2));
                        assert(s1.has_dir(d2));
                        assert(old(fs).dir_paths().contains(d2));
                    }
                    assert(chain_clear_to(s3.file_paths(), s3.dir_paths(), iroot, d));
                }
            }
            Ok(())
        },
    }
}

/// After an uninstall, a destination root that was present and was left
/// with nothing inside it — judged over the files that remain and the
/// directories present before the pruning — is removed.
pub open spec fn root_pruned(before: FsModel, after: FsModel, root: Seq<char>) -> bool {
    (before.has_dir(root) && nothing_under(after.file_paths(), root) && nothing_under(
        before.dir_paths(),
        root,
    )) ==> !after.has_dir(root)
}

/// Manifest completeness: after a clean install — one where no
/// destination was already present — the paths that are new on disk are
/// exactly the paths the manifest records.
pub proof fn lemma_manifest_completeness(
    before: FsModel,
    after: FsModel,
    manifest: Seq<Seq<char>>,
)
    requires
        forall|p: Seq<char>| after.has_file(p) <==> (before.has_file(p) || manifest.contains(p)),
        forall|p: Seq<char>| manifest.contains(p) ==> !before.has_file(p),
    ensures
        forall|p: Seq<char>|
            (after.has_file(p) && !before.has_file(p)) <==> manifest.contains(p),
{
}

/// Round trip: a clean install followed by an uninstall driven by its
/// manifest leaves exactly the files that were present before.
pub proof fn lemma_round_trip(
    before: FsModel,
    mid: FsModel,
    after: FsModel,
    manifest: Seq<Seq<char>>,
)
    requires
        forall|p: Seq<char>| mid.has_file(p) <==> (before.has_file(p) || manifest.contains(p)),
        forall|p: Seq<char>| after.has_file(p) <==> (mid.has_file(p) && !manifest.contains(p)),
        forall|p: Seq<char>| manifest.contains(p) ==> !before.has_file(p),
    ensures
        forall|p: Seq<char>| after.has_file(p) <==> before.has_file(p),
{
}

/// Idempotent skip: installing a plan over a filesystem that already
/// holds every destination changes no file.
pub proof fn lemma_idempotent_skip(before: FsModel, after: FsModel, dests: Seq<Seq<char>>)
    requires
        forall|p: Seq<char>| after.has_file(p) <==> (before.has_file(p) || dests.contains(p)),
        forall|p: Seq<char>| dests.contains(p) ==> before.has_file(p),
    ensures
        forall|p: Seq<char>| after.has_file(p) <==> before.has_file(p),
{
}

} // verus!
