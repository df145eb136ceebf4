//! The identity resolver.
//!
//! Pure path bookkeeping: where a shim's descriptor and stand-in live,
//! which generic launcher binary serves a shim, how the launcher locates
//! its descriptor from its own executable path, how a target reference is
//! resolved to a launchable path, and how a search path is searched. Paths
//! are plain strings with `/` separating their components; whether a file
//! exists is the caller's to find out and hand in.

use vstd::prelude::*;
use crate::text::{push_char, spec_split, split_char, str_eq};
use vstd::string::{StrSliceExecFns, StringExecFns};

verus! {

/// `name` placed inside `dir`.
pub open spec fn spec_join_path(dir: Seq<char>, name: Seq<char>) -> Seq<char> {
    dir + seq!['/'] + name
}

/// Joins a directory and a file name.
pub fn join_path(dir: &String, name: &String) -> (r: String)
    ensures
        r@ == spec_join_path(dir@, name@),
{
    let mut out = dir.clone();
    push_char(&mut out, '/');
    out.append(name.as_str());
    proof {
        assert(out@ =~= spec_join_path(dir@, name@));
    }
    out
}

/// The descriptor location for a shim name: `<shims_dir>/<name>.shim`.
pub fn get_shimfile(shims_dir: &String, name: &String) -> (r: String)
    ensures
        r@ == spec_join_path(shims_dir@, name@ + ".shim"@),
{
    let mut out = shims_dir.clone();
    push_char(&mut out, '/');
    out.append(name.as_str());
    out.append(".shim");
    proof {
        assert(out@ =~= spec_join_path(shims_dir@, name@ + ".shim"@));
    }
    out
}

/// The stand-in executable location for a shim name:
/// `<shims_dir>/<name>.exe`.
pub fn get_shimmed_exe(shims_dir: &String, name: &String) -> (r: String)
    ensures
        r@ == spec_join_path(shims_dir@, name@ + ".exe"@),
{
    let mut out = shims_dir.clone();
    push_char(&mut out, '/');
    out.append(name.as_str());
    out.append(".exe");
    proof {
        assert(out@ =~= spec_join_path(shims_dir@, name@ + ".exe"@));
    }
    out
}

/// The generic launcher binary that serves a shim: the windowed variant
/// when `win` is set, the console variant otherwise.
pub fn get_shim_exe(sunset_dir: &String, win: &bool) -> (r: String)
    ensures
        *win ==> r@ == spec_join_path(sunset_dir@, "shimw.exe"@),
        !*win ==> r@ == spec_join_path(sunset_dir@, "shim.exe"@),
{
    let mut out = sunset_dir.clone();
    push_char(&mut out, '/');
    if *win {
        out.append("shimw.exe");
        proof {
            assert(out@ =~= spec_join_path(sunset_dir@, "shimw.exe"@));
        }
    } else {
        out.append("shim.exe");
        proof {
            assert(out@ =~= spec_join_path(sunset_dir@, "shim.exe"@));
        }
    }
    out
}

/// The index of the last separator of `s`, or `-1` when it has none.
pub open spec fn spec_last_sep(s: Seq<char>) -> int
    decreases s.len(),
{
    if s.len() == 0 {
        -1
    } else if s.last() == '/' {
        s.len() - 1
    } else {
        spec_last_sep(s.drop_last())
    }
}

/// The index of the last dot of `s` strictly after position `m`, or `-1`.
pub open spec fn spec_last_dot_after(s: Seq<char>, m: int) -> int
    decreases s.len(),
{
    if s.len() == 0 {
        -1
    } else if s.last() == '.' && s.len() - 1 > m {
        s.len() - 1
    } else {
        spec_last_dot_after(s.drop_last(), m)
    }
}

/// `spec_last_sep` is the position characterized by "a separator with none
/// after it".
proof fn lemma_last_sep_unique(s: Seq<char>, e: int)
    requires
        0 <= e < s.len(),
        s[e] == '/',
        forall|i: int| e < i < s.len() ==> s[i] != '/',
    ensures
        spec_last_sep(s) == e,
    decreases s.len(),
{
    if e < s.len() - 1 {
        lemma_last_sep_unique(s.drop_last(), e);
    }
}

/// A text without separators has none to find.
proof fn lemma_last_sep_none(s: Seq<char>)
    requires
        forall|i: int| 0 <= i < s.len() ==> s[i] != '/',
    ensures
        spec_last_sep(s) == -1,
    decreases s.len(),
{
    if s.len() > 0 {
        lemma_last_sep_none(s.drop_last());
    }
}

/// `spec_last_dot_after` is the position characterized by "a dot after the
/// bound with no later dot after the bound".
proof fn lemma_last_dot_unique(s: Seq<char>, m: int, e: int)
    requires
        0 <= e < s.len(),
        e > m,
        s[e] == '.',
        forall|i: int| e < i < s.len() ==> s[i] != '.',
    ensures
        spec_last_dot_after(s, m) == e,
    decreases s.len(),
{
    if e < s.len() - 1 {
        lemma_last_dot_unique(s.drop_last(), m, e);
    }
}

/// A text without dots after the bound has none to find.
proof fn lemma_last_dot_none(s: Seq<char>, m: int)
    requires
        forall|i: int| 0 <= i < s.len() && i > m ==> s[i] != '.',
    ensures
        spec_last_dot_after(s, m) == -1,
    decreases s.len(),
{
    if s.len() > 0 {
        lemma_last_dot_none(s.drop_last(), m);
    }
}

/// The index of the last separator, as an option.
fn find_last_sep(s: &str) -> (r: Option<usize>)
    ensures
        match r {
            Some(e) => e < s@.len() && spec_last_sep(s@) == e,
            None => spec_last_sep(s@) == -1,
        },
{
    let len = s.unicode_len();
    let mut found: Option<usize> = None;
    let mut i: usize = 0;
    while i < len
        invariant
            len == s@.len(),
            i <= len,
            match found {
                Some(e) => e < i && s@[e as int] == '/' && forall|j: int|
                    e < j < i ==> s@[j] != '/',
                None => forall|j: int| 0 <= j < i ==> s@[j] != '/',
            },
        decreases len - i,
    {
        if s.get_char(i) == '/' {
            found = Some(i);
        }
        i = i + 1;
    }
    proof {
        match found {
            Some(e) => {
                lemma_last_sep_unique(s@, e as int);
            },
            None => {
                lemma_last_sep_none(s@);
            },
        }
    }
    found
}

/// The index of the last dot strictly after `m`, as an option.
fn find_last_dot_after(s: &str, m: usize) -> (r: Option<usize>)
    ensures
        match r {
            Some(e) => m < e < s@.len() && spec_last_dot_after(s@, m as int) == e,
            None => spec_last_dot_after(s@, m as int) == -1,
        },
{
    let len = s.unicode_len();
    let mut found: Option<usize> = None;
    let mut i: usize = 0;
    while i < len
        invariant
            len == s@.len(),
            i <= len,
            match found {
                Some(e) => m < e < i && s@[e as int] == '.' && forall|j: int|
                    e < j < i ==> s@[j] != '.',
                None => forall|j: int| 0 <= j < i && j > m ==> s@[j] != '.',
            },
        decreases len - i,
    {
        if i > m && s.get_char(i) == '.' {
            found = Some(i);
        }
        i = i + 1;
    }
    proof {
        match found {
            Some(e) => {
                lemma_last_dot_unique(s@, m as int, e as int);
            },
            None => {
                lemma_last_dot_none(s@, m as int);
            },
        }
    }
    found
}

/// `s` with its extension removed: the part before the last dot of its
/// final component, where a dot that starts the component does not count.
pub open spec fn spec_strip_ext(s: Seq<char>) -> Seq<char> {
    let j = spec_last_dot_after(s, spec_last_sep(s) + 1);
    if j < 0 {
        s
    } else {
        s.subrange(0, j)
    }
}

/// The final component of `s`, after its last separator.
pub open spec fn spec_basename(s: Seq<char>) -> Seq<char> {
    s.subrange(spec_last_sep(s) + 1, s.len() as int)
}

/// The descriptor location paired with a stand-in executable: its own
/// path with the extension replaced by `.shim`. The launcher finds its
/// descriptor this way, from its own path alone.
pub open spec fn spec_shimfile_for_exe(exe: Seq<char>) -> Seq<char> {
    spec_strip_ext(exe) + ".shim"@
}

/// Removes the extension of the final component, if any.
fn strip_ext(s: &String) -> (r: String)
    ensures
        r@ == spec_strip_ext(s@),
{
    // The length bounds the separator position, so the step past it fits.
    let len = s.as_str().unicode_len();
    let b = match find_last_sep(s.as_str()) {
        Some(e) => e + 1,
        None => 0,
    };
    proof {
        assert(b as int == spec_last_sep(s@) + 1);
    }
    match find_last_dot_after(s.as_str(), b) {
        Some(j) => {
            let r = String::from_str(s.as_str().substring_char(0, j));
            proof {
                assert(r@ =~= spec_strip_ext(s@));
            }
            r
        },
        None => {
            let r = s.clone();
            r
        },
    }
}

/// The final component of the path.
fn basename(s: &String) -> (r: String)
    ensures
        r@ == spec_basename(s@),
{
    let len = s.as_str().unicode_len();
    let b = match find_last_sep(s.as_str()) {
        Some(e) => e + 1,
        None => 0,
    };
    proof {
        assert(b as int == spec_last_sep(s@) + 1);
    }
    let r = String::from_str(s.as_str().substring_char(b, len));
    proof {
        assert(r@ =~= spec_basename(s@));
    }
    r
}

/// The descriptor location paired with a stand-in executable.
pub fn shimfile_for_exe(exe_path: &String) -> (r: String)
    ensures
        r@ == spec_shimfile_for_exe(exe_path@),
{
    let mut out = strip_ext(exe_path);
    out.append(".shim");
    out
}

/// The shim name derived from a target path: its final component with up
/// to two extensions removed.
pub open spec fn spec_shim_name(target: Seq<char>) -> Seq<char> {
    spec_strip_ext(spec_basename(spec_strip_ext(target)))
}

/// Derives the default shim name from a target path.
pub fn shim_name_for_target(target: &String) -> (r: String)
    ensures
        r@ == spec_shim_name(target@),
{
    let stripped = strip_ext(target);
    let base = basename(&stripped);
    strip_ext(&base)
}

/// Whether the reference names a directory on its way: it holds a
/// separator.
pub open spec fn spec_has_sep(s: Seq<char>) -> bool {
    exists|i: int| 0 <= i < s.len() && s[i] == '/'
}

/// Decides `spec_has_sep`.
pub fn has_dir_component(s: &String) -> (r: bool)
    ensures
        r == spec_has_sep(s@),
{
    let len = s.as_str().unicode_len();
    let mut i: usize = 0;
    while i < len
        invariant
            len == s@.len(),
            i <= len,
            forall|j: int| 0 <= j < i ==> s@[j] != '/',
        decreases len - i,
    {
        if s.as_str().get_char(i) == '/' {
            return true;
        }
        i = i + 1;
    }
    false
}

/// Lexical resolution of `.` and `..` over raw path components, read left
/// to right: empty and `.` components vanish, `..` drops the component
/// before it (nothing below the root), any other component stays.
pub open spec fn spec_norm_stack(comps: Seq<Seq<char>>) -> Seq<Seq<char>>
    decreases comps.len(),
{
    if comps.len() == 0 {
        Seq::empty()
    } else {
        let rest = spec_norm_stack(comps.drop_last());
        let c = comps.last();
        if c.len() == 0 || c == "."@ {
            rest
        } else if c == ".."@ {
            if rest.len() == 0 {
                rest
            } else {
                rest.drop_last()
            }
        } else {
            rest.push(c)
        }
    }
}

/// An absolute path from components: `/` alone for none, else each
/// component preceded by one separator.
pub open spec fn spec_render_parts(comps: Seq<Seq<char>>) -> Seq<char>
    decreases comps.len(),
{
    if comps.len() == 0 {
        Seq::empty()
    } else {
        seq!['/'] + comps[0] + spec_render_parts(comps.drop_first())
    }
}

/// See `spec_render_parts`; the empty component list is the root.
pub open spec fn spec_render_abs(comps: Seq<Seq<char>>) -> Seq<char> {
    if comps.len() == 0 {
        seq!['/']
    } else {
        spec_render_parts(comps)
    }
}

/// The absolute form of `path` against the working directory `cwd`: the
/// raw components of `path` — prefixed with those of `cwd` when `path` is
/// relative — resolved lexically and rendered absolute.
pub open spec fn spec_absolutize(cwd: Seq<char>, path: Seq<char>) -> Seq<char> {
    let raw = if path.len() > 0 && path[0] == '/' {
        spec_split(path, '/')
    } else {
        spec_split(cwd, '/') + spec_split(path, '/')
    };
    spec_render_abs(spec_norm_stack(raw))
}

/// Normalizes `path` to an absolute path against `cwd`, resolving `.` and
/// `..` lexically.
pub fn absolutize(cwd: &String, path: &String) -> (r: String)
    ensures
        r@ == spec_absolutize(cwd@, path@),
{
    let plen = path.as_str().unicode_len();
    let mut comps: Vec<String>;
    if plen >= 1 && path.as_str().get_char(0) == '/' {
        comps = split_char(path.as_str(), '/');
    } else {
        comps = split_char(cwd.as_str(), '/');
        let mut more = split_char(path.as_str(), '/');
        comps.append(&mut more);
        proof {
            assert(comps.deep_view() =~= spec_split(cwd@, '/') + spec_split(path@, '/'));
        }
    }
    let ghost raw = comps.deep_view();
    let n = comps.len();
    let mut stack: Vec<String> = Vec::new();
    let mut i: usize = 0;
    proof {
        assert(raw.take(0) =~= Seq::<Seq<char>>::empty());
        assert(stack.deep_view() =~= spec_norm_stack(raw.take(0)));
    }
    while i < n
        invariant
            n == comps@.len(),
            raw == comps.deep_view(),
            i <= n,
            stack.deep_view() == spec_norm_stack(raw.take(i as int)),
        decreases n - i,
    {
        let c = &comps[i];
        proof {
            assert(raw.take(i as int + 1).drop_last() =~= raw.take(i as int));
            assert(raw.take(i as int + 1).last() == raw[i as int]);
            assert(raw[i as int] == comps@[i as int]@);
        }
        if c.as_str().is_empty() || str_eq(c.as_str(), ".") {
        } else if str_eq(c.as_str(), "..") {
            if stack.len() > 0 {
                let ghost sv = stack.deep_view();
                stack.pop();
                proof {
                    assert(stack.deep_view() =~= sv.drop_last());
                }
            }
        } else {
            let ghost sv = stack.deep_view();
            let ghost cv = c@;
            stack.push(c.clone());
            proof {
                assert(stack.deep_view() =~= sv.push(cv));
            }
        }
        i = i + 1;
    }
    proof {
        assert(raw.take(n as int) =~= raw);
    }
    let ghost norm = spec_norm_stack(raw);
    let m = stack.len();
    let mut out = String::new();
    if m == 0 {
        push_char(&mut out, '/');
        proof {
            assert(out@ =~= spec_render_abs(norm));
        }
        return out;
    }
    let mut k: usize = 0;
    proof {
        assert(norm.skip(0) =~= norm);
        assert(out@ + spec_render_parts(norm.skip(0)) =~= spec_render_parts(norm));
    }
    while k < m
        invariant
            m == stack@.len(),
            m == norm.len(),
            norm == stack.deep_view(),
            k <= m,
            spec_render_parts(norm) == out@ + spec_render_parts(norm.skip(k as int)),
        decreases m - k,
    {
        let ghost rest = norm.skip(k as int);
        proof {
            assert(rest[0] == norm[k as int]);
            assert(norm[k as int] == stack@[k as int]@);
            assert(rest.drop_first() =~= norm.skip(k as int + 1));
        }
        push_char(&mut out, '/');
        let c = &stack[k];
        out.append(c.as_str());
        proof {
            assert(spec_render_parts(norm) =~= out@ + spec_render_parts(norm.skip(k as int + 1)));
        }
        k = k + 1;
    }
    proof {
        assert(norm.skip(m as int) =~= Seq::<Seq<char>>::empty());
        assert(out@ =~= spec_render_abs(norm));
    }
    out
}

/// The candidate locations a bare name may resolve to: the name inside
/// each search-path entry, in search order.
pub fn search_candidates(name: &String, entries: &Vec<String>) -> (r: Vec<String>)
    ensures
        r@.len() == entries@.len(),
        forall|i: int|
            0 <= i < r@.len() ==> r@[i]@ == spec_join_path(#[trigger] entries@[i]@, name@),
{
    let n = entries.len();
    let mut r: Vec<String> = Vec::new();
    let mut i: usize = 0;
    while i < n
        invariant
            n == entries@.len(),
            i <= n,
            r@.len() == i,
            forall|j: int|
                0 <= j < i ==> r@[j]@ == spec_join_path(#[trigger] entries@[j]@, name@),
        decreases n - i,
    {
        let e = &entries[i];
        r.push(join_path(e, name));
        i = i + 1;
    }
    r
}

/// The position of the first hit, in order: the search path is a total
/// order and the first entry that holds the name wins, deterministically.
pub fn first_present(present: &Vec<bool>) -> (r: Option<usize>)
    ensures
        match r {
            Some(i) => i < present@.len() && present@[i as int] && forall|j: int|
                0 <= j < i ==> !present@[j],
            None => forall|j: int| 0 <= j < present@.len() ==> !present@[j],
        },
{
    let n = present.len();
    let mut i: usize = 0;
    while i < n
        invariant
            n == present@.len(),
            i <= n,
            forall|j: int| 0 <= j < i ==> !present@[j],
        decreases n - i,
    {
        if present[i] {
            return Some(i);
        }
        i = i + 1;
    }
    None
}

/// Resolves a bare name against the search path: the candidates are the
/// name inside each entry, in order; the first one that exists wins, and
/// a name that exists nowhere is not found.
pub fn resolve_bare(name: &String, entries: &Vec<String>, present: &Vec<bool>) -> (r: Option<
    String,
>)
    requires
        entries@.len() == present@.len(),
    ensures
        match r {
            Some(p) => exists|i: int|
                0 <= i < entries@.len() && #[trigger] present@[i] && p@ == spec_join_path(
                    entries@[i]@,
                    name@,
                ) && (forall|j: int| 0 <= j < i ==> !present@[j]),
            None => forall|j: int| 0 <= j < entries@.len() ==> !present@[j],
        },
{
    match first_present(present) {
        Some(i) => {
            let e = &entries[i];
            let p = join_path(e, name);
            proof {
                assert(present@[i as int] && p@ == spec_join_path(entries@[i as int]@, name@) && (
                forall|j: int| 0 <= j < i ==> !present@[j]));
            }
            Some(p)
        },
        None => None,
    }
}

/// Whether `entry` is one of the pieces of `current` between separators,
/// and `current` with `entry` added at its end when it is not: how a shim
/// directory is ensured on a search path.
pub fn path_with_entry(current: &String, entry: &String, sep: char) -> (r: (bool, String))
    ensures
        r.0 == spec_split(current@, sep).contains(entry@),
        r.0 ==> r.1@ == current@,
        !r.0 ==> r.1@ == current@ + seq![sep] + entry@,
{
    let parts = split_char(current.as_str(), sep);
    let ghost pv = parts.deep_view();
    let n = parts.len();
    let mut i: usize = 0;
    while i < n
        invariant
            n == parts@.len(),
            pv == parts.deep_view(),
            pv == spec_split(current@, sep),
            i <= n,
            forall|j: int| 0 <= j < i ==> pv[j] != entry@,
        decreases n - i,
    {
        let p = &parts[i];
        if str_eq(p.as_str(), entry.as_str()) {
            proof {
                assert(pv[i as int] == entry@);
            }
            return (true, current.clone());
        }
        i = i + 1;
    }
    let mut out = current.clone();
    push_char(&mut out, sep);
    out.append(entry.as_str());
    proof {
        assert(!pv.contains(entry@));
        assert(out@ =~= current@ + seq![sep] + entry@);
    }
    (false, out)
}

/// Whether `s` ends in the descriptor extension.
pub open spec fn spec_ends_shim(s: Seq<char>) -> bool {
    s.len() >= 5 && s.subrange(s.len() - 5, s.len() as int) == ".shim"@
}

/// The shim names among a directory's file names, in directory order:
/// the files with the descriptor extension, each under its stem.
pub open spec fn spec_shim_names(files: Seq<Seq<char>>) -> Seq<Seq<char>>
    decreases files.len(),
{
    if files.len() == 0 {
        Seq::empty()
    } else {
        let rest = spec_shim_names(files.drop_last());
        let f = files.last();
        if spec_ends_shim(f) {
            rest.push(
                if f.len() > 5 {
                    f.subrange(0, f.len() - 5)
                } else {
                    f
                },
            )
        } else {
            rest
        }
    }
}

/// The installed shims among a directory's file names, in directory
/// order.
pub fn shim_list(files: &Vec<String>) -> (r: Vec<String>)
    ensures
        r.deep_view() == spec_shim_names(files.deep_view()),
{
    let ghost fv = files.deep_view();
    let n = files.len();
    let mut r: Vec<String> = Vec::new();
    let mut i: usize = 0;
    proof {
        assert(fv.take(0) =~= Seq::<Seq<char>>::empty());
        assert(r.deep_view() =~= spec_shim_names(fv.take(0)));
    }
    while i < n
        invariant
            n == files@.len(),
            fv == files.deep_view(),
            i <= n,
            r.deep_view() == spec_shim_names(fv.take(i as int)),
        decreases n - i,
    {
        let f = &files[i];
        proof {
            assert(fv.take(i as int + 1).drop_last() =~= fv.take(i as int));
            assert(fv.take(i as int + 1).last() == fv[i as int]);
            assert(fv[i as int] == files@[i as int]@);
        }
        let len = f.as_str().unicode_len();
        if len >= 5 && str_eq(f.as_str().substring_char(len - 5, len), ".shim") {
            proof {
                assert(f@.subrange(len as int - 5, len as int) == ".shim"@);
            }
            let ghost rv = r.deep_view();
            if len > 5 {
                let stem = String::from_str(f.as_str().substring_char(0, len - 5));
                let ghost sv = stem@;
                r.push(stem);
                proof {
                    assert(r.deep_view() =~= rv.push(sv));
                }
            } else {
                let whole = f.clone();
                r.push(whole);
                proof {
                    assert(r.deep_view() =~= rv.push(f@));
                }
            }
        } else {
            proof {
                if len >= 5 {
                    assert(!spec_ends_shim(fv[i as int]));
                }
            }
        }
        i = i + 1;
    }
    proof {
        assert(fv.take(n as int) =~= fv);
    }
    r
}

} // verus!
