use vstd::prelude::*;

use crate::text::{before_first, chars_eq, chars_of, lemma_before_first_at, push_all, starts_with, sub_chars};

verus! {

/// The suffix of `s` that follows the last occurrence of `/`
/// (all of `s` when `/` does not occur).
pub open spec fn after_last_slash(s: Seq<char>) -> Seq<char>
    decreases s.len(),
{
    if s.len() == 0 {
        s
    } else if s[s.len() - 1] == '/' {
        Seq::empty()
    } else {
        after_last_slash(s.drop_last()).push(s[s.len() - 1])
    }
}

/// `s` with trailing separators and trailing `.` components removed,
/// repeatedly: `a/.//` becomes `a`. A trailing `..` component stays.
pub open spec fn strip_cur_components(s: Seq<char>) -> Seq<char>
    decreases s.len(),
{
    if s.len() > 0 && s[s.len() - 1] == '/' {
        strip_cur_components(s.drop_last())
    } else if s.len() > 0 && s[s.len() - 1] == '.' && (s.len() == 1 || s[s.len() - 2] == '/') {
        strip_cur_components(s.drop_last())
    } else {
        s
    }
}

/// The package name derived from an archive path: the file name — the
/// last path component, ignoring trailing separators and trailing `.`
/// components — up to its first hyphen. A path with no component left,
/// or one ending in the `..` component, has no file name and yields
/// `unknown`.
pub open spec fn package_name_spec(path: Seq<char>) -> Seq<char> {
    let name = after_last_slash(strip_cur_components(path));
    if name.len() == 0 || name == seq!['.', '.'] {
        "unknown"@
    } else {
        before_first(name, '-')
    }
}

proof fn lemma_after_last_slash_at(s: Seq<char>, k: int)
    requires
        0 <= k < s.len(),
        s[k] == '/',
        forall|j: int| k < j < s.len() ==> s[j] != '/',
    ensures
        after_last_slash(s) == s.subrange(k + 1, s.len() as int),
    decreases s.len(),
{
    if k == s.len() - 1 {
        assert(after_last_slash(s) =~= s.subrange(k + 1, s.len() as int));
    } else {
        lemma_after_last_slash_at(s.drop_last(), k);
        assert(after_last_slash(s) =~= s.subrange(k + 1, s.len() as int));
    }
}

proof fn lemma_after_last_slash_none(s: Seq<char>)
    requires
        forall|j: int| 0 <= j < s.len() ==> s[j] != '/',
    ensures
        after_last_slash(s) == s,
    decreases s.len(),
{
    if s.len() > 0 {
        lemma_after_last_slash_none(s.drop_last());
        assert(after_last_slash(s) =~= s);
    }
}

/// Derives the package name from a package archive path: the file
/// name up to the first hyphen, or `unknown` when no file name exists.
pub fn get_package_name(path: &[char]) -> (r: Vec<char>)
    ensures
        r@ == package_name_spec(path@),
{
    let mut e: usize = path.len();
    proof {
        assert(path@.subrange(0, e as int) =~= path@);
    }
    while e > 0 && (path[e - 1] == '/' || (path[e - 1] == '.' && (e == 1 || path[e - 2] == '/')))
        invariant
            e <= path@.len(),
            strip_cur_components(path@) == strip_cur_components(path@.subrange(0, e as int)),
        decreases e,
    {
        proof {
            assert(path@.subrange(0, e as int).drop_last() =~= path@.subrange(0, e - 1));
        }
        e -= 1;
    }
    let ghost trimmed = path@.subrange(0, e as int);
    proof {
        assert(path@.subrange(0, path@.len() as int) =~= path@);
        assert(strip_cur_components(trimmed) == trimmed);
    }
    if e == 0 {
        let r = chars_of("unknown");
        proof {
            assert(trimmed.len() == 0);
            assert(after_last_slash(trimmed) =~= trimmed);
        }
        return r;
    }
    // locate the last separator before `e`
    let mut start: usize = e;
    let mut k: usize = e;
    let mut found = false;
    while k > 0 && !found
        invariant
            k <= e <= path@.len(),
            !found ==> forall|j: int| k <= j < e ==> path@[j] != '/',
            found ==> k < e && path@[k as int] == '/' && start == k + 1 && (forall|j: int|
                k < j < e ==> path@[j] != '/'),
        decreases k,
    {
        if path[k - 1] == '/' {
            k -= 1;
            start = k + 1;
            found = true;
        } else {
            k -= 1;
        }
    }
    let ghost name = trimmed.subrange(if found { start as int } else { 0 }, e as int);
    proof {
        if found {
            assert(trimmed[k as int] == '/');
            assert(forall|j: int| k < j < e ==> trimmed[j] != '/');
            lemma_after_last_slash_at(trimmed, k as int);
        } else {
            assert(forall|j: int| 0 <= j < e ==> trimmed[j] != '/');
            lemma_after_last_slash_none(trimmed);
            assert(trimmed.subrange(0, e as int) =~= trimmed);
        }
        assert(after_last_slash(trimmed) == name);
    }
    let name_start: usize = if found { start } else { 0 };
    if name_start == e {
        // the component is empty (the path ends in a separator run)
        let r = chars_of("unknown");
        proof {
            assert(name.len() == 0);
        }
        return r;
    }
    if e - name_start == 2 && path[name_start] == '.' && path[name_start + 1] == '.' {
        // the last component is `..`: the path has no file name
        let r = chars_of("unknown");
        proof {
            assert(name =~= seq!['.', '.']);
        }
        return r;
    }
    proof {
        if name == seq!['.', '.'] {
            assert(name[0] == '.' && name[1] == '.');
            assert(name[0] == trimmed[name_start as int] && name[1] == trimmed[name_start + 1]);
            assert(path@[name_start as int] == '.' && path@[name_start + 1] == '.');
        }
    }
    // cut at the first hyphen of the component
    let mut h: usize = name_start;
    while h < e && path[h] != '-'
        invariant
            name_start <= h <= e <= path@.len(),
            forall|j: int| name_start <= j < h ==> path@[j] != '-',
        decreases e - h,
    {
        h += 1;
    }
    let r = sub_chars(path, name_start, h);
    proof {
        assert(name.len() > 0);
        lemma_before_first_at(name, '-', h - name_start);
        assert(name.subrange(0, h - name_start) =~= path@.subrange(name_start as int, h as int));
    }
    r
}

/// True exactly when deploying under `prefix` requires elevated
/// privilege: the prefix lies under `/usr` or is exactly `/opt`.
pub open spec fn requires_root_spec(prefix: Seq<char>) -> bool {
    "/usr"@.is_prefix_of(prefix) || prefix == "/opt"@
}

/// Decides whether deploying under `prefix` requires elevated privilege.
pub fn requires_root(prefix: &[char]) -> (r: bool)
    ensures
        r == requires_root_spec(prefix@),
{
    let usr = chars_of("/usr");
    let opt = chars_of("/opt");
    starts_with(prefix, usr.as_slice()) || chars_eq(prefix, opt.as_slice())
}

/// The binary destination root under `prefix`.
pub open spec fn bin_dir_spec(prefix: Seq<char>) -> Seq<char> {
    prefix + "/bin"@
}

/// The desktop-entry destination root: system-wide under `/usr/local`,
/// otherwise the per-user data directory under `home`.
pub open spec fn desktop_dir_spec(prefix: Seq<char>, home: Seq<char>) -> Seq<char> {
    if prefix == "/usr/local"@ {
        prefix + "/share/applications"@
    } else {
        home + "/.local/share/applications"@
    }
}

/// The icon destination root: system-wide under `/usr/local`,
/// otherwise the per-user data directory under `home`.
pub open spec fn icon_dir_spec(prefix: Seq<char>, home: Seq<char>) -> Seq<char> {
    if prefix == "/usr/local"@ {
        prefix + "/share/icons"@
    } else {
        home + "/.local/share/icons"@
    }
}

/// The three destination roots and the privilege requirement derived
/// from a prefix and the invoking user's home directory.
pub struct Targets {
    pub bin_dir: Vec<char>,
    pub desktop_dir: Vec<char>,
    pub icon_dir: Vec<char>,
    pub requires_root: bool,
}

/// Derives the destination roots and privilege requirement for `prefix`.
pub fn resolve_targets(prefix: &[char], home: &[char]) -> (t: Targets)
    ensures
        t.bin_dir@ == bin_dir_spec(prefix@),
        t.desktop_dir@ == desktop_dir_spec(prefix@, home@),
        t.icon_dir@ == icon_dir_spec(prefix@, home@),
        t.requires_root == requires_root_spec(prefix@),
{
    let usr_local = chars_of("/usr/local");
    let system_wide = chars_eq(prefix, usr_local.as_slice());
    let mut bin_dir: Vec<char> = Vec::new();
    push_all(&mut bin_dir, prefix);
    let bin_suffix = chars_of("/bin");
    push_all(&mut bin_dir, bin_suffix.as_slice());
    let mut desktop_dir: Vec<char> = Vec::new();
    let mut icon_dir: Vec<char> = Vec::new();
    if system_wide {
        push_all(&mut desktop_dir, prefix);
        let d = chars_of("/share/applications");
        push_all(&mut desktop_dir, d.as_slice());
        push_all(&mut icon_dir, prefix);
        let i = chars_of("/share/icons");
        push_all(&mut icon_dir, i.as_slice());
    } else {
        push_all(&mut desktop_dir, home);
        let d = chars_of("/.local/share/applications");
        push_all(&mut desktop_dir, d.as_slice());
        push_all(&mut icon_dir, home);
        let i = chars_of("/.local/share/icons");
        push_all(&mut icon_dir, i.as_slice());
    }
    let requires_root = requires_root(prefix);
    Targets { bin_dir, desktop_dir, icon_dir, requires_root }
}

/// The directory that holds the per-package manifests under `home`.
pub fn get_log_dir(home: &[char]) -> (r: Vec<char>)
    ensures
        r@ == home@ + "/.local/share/arch-installer"@,
{
    let mut r: Vec<char> = Vec::new();
    push_all(&mut r, home);
    let rel = chars_of("/.local/share/arch-installer");
    push_all(&mut r, rel.as_slice());
    r
}

/// The manifest file path for `package` under `home`.
pub fn get_log_path(home: &[char], package: &[char]) -> (r: Vec<char>)
    ensures
        r@ == home@ + "/.local/share/arch-installer"@ + seq!['/'] + package@ + ".log"@,
{
    let mut r = get_log_dir(home);
    r.push('/');
    push_all(&mut r, package);
    let ext = chars_of(".log");
    push_all(&mut r, ext.as_slice());
    r
}

/// Joins a destination directory and a relative subpath with a separator.
pub fn join_path(dir: &[char], rel: &[char]) -> (r: Vec<char>)
    ensures
        r@ == dir@ + seq!['/'] + rel@,
{
    let mut r: Vec<char> = Vec::new();
    push_all(&mut r, dir);
    r.push('/');
    push_all(&mut r, rel);
    r
}

/// The home directory of the invoking user: the elevation wrapper's
/// original user when present, the process's home directory otherwise,
/// and a temporary directory as the last resort.
pub fn resolve_home(sudo_user: &Option<Vec<char>>) -> (r: Vec<char>)
    ensures
        match sudo_user {
            Some(u) => r@ == "/home/"@ + u@,
            None => true,
        },
{
    match sudo_user {
        Some(u) => {
            let mut r = chars_of("/home/");
            push_all(&mut r, u.as_slice());
            r
        },
        None => {
            let host = host_home_dir();
            fallback_home(&host)
        },
    }
}

/// The home directory to use when no elevation-wrapper user is set:
/// the home directory the host reports, or a temporary directory when
/// the host reports none.
pub fn fallback_home(host: &Option<Vec<char>>) -> (r: Vec<char>)
    ensures
        match host {
            Some(h) => r@ == h@,
            None => r@ == "/tmp"@,
        },
{
    match host {
        Some(h) => {
            let r = sub_chars(h.as_slice(), 0, h.len());
            proof {
                assert(r@ =~= h@);
            }
            r
        },
        None => chars_of("/tmp"),
    }
}

/// Relies on dirs::home_dir: the home directory that the system
/// reports for the current user, if any.
#[verifier::external_body]
fn host_home_dir() -> (r: Option<Vec<char>>) {
    match dirs::home_dir() {
        Some(p) => Some(p.to_string_lossy().chars().collect()),
        None => None,
    }
}

/// Relies on nix::unistd::geteuid: whether the process runs with the
/// effective user id of root.
#[verifier::external_body]
fn euid_is_root() -> bool {
    nix::unistd::geteuid().is_root()
}

/// Applies the privilege gate for `prefix`: an operation on a prefix
/// that requires elevation is refused before any change when the
/// process is not elevated; a prefix that requires none always passes.
pub fn check_privilege(prefix: &[char]) -> (r: Result<(), crate::InstallError>)
    ensures
        !requires_root_spec(prefix@) ==> r is Ok,
        r matches Err(e) ==> e == crate::InstallError::PermissionPolicy && requires_root_spec(
            prefix@,
        ),
{
    if requires_root(prefix) && !euid_is_root() {
        Err(crate::InstallError::PermissionPolicy)
    } else {
        Ok(())
    }
}

} // verus!
