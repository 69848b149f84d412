//! Where an imported module may lie.
//!
//! Paths are text with `/` between their parts, as on Unix.

use vstd::prelude::*;

use crate::text::texts;
use crate::vfs::{is_mounted, Mounts};

verus! {

/// The text begins with `p`.
pub open spec fn starts(s: Seq<char>, p: Seq<char>) -> bool {
    s.len() >= p.len() && s.take(p.len() as int) == p
}

/// The text ends with `p`.
pub open spec fn ends(s: Seq<char>, p: Seq<char>) -> bool {
    s.len() >= p.len() && s.skip(s.len() - p.len()) == p
}

/// The text after a prefix.
pub open spec fn after_prefix(s: Seq<char>, p: Seq<char>) -> Option<Seq<char>> {
    if starts(s, p) {
        Some(s.skip(p.len() as int))
    } else {
        None
    }
}

/// Whether the text begins with `p`.
pub fn has_prefix(s: &str, p: &str) -> (r: bool)
    ensures
        r == starts(s@, p@),
{
    let n: usize = p.unicode_len();
    if s.unicode_len() < n {
        return false;
    }
    let mut i: usize = 0;
    while i < n
        invariant
            n == p@.len(),
            n <= s@.len(),
            i <= n,
            forall|k: int| 0 <= k < i ==> s@[k] == p@[k],
        decreases n - i,
    {
        if s.get_char(i) != p.get_char(i) {
            assert(s@.take(n as int)[i as int] == s@[i as int]);
            return false;
        }
        i = i + 1;
    }
    assert(s@.take(n as int) =~= p@);
    true
}

/// Whether the text ends with `p`.
pub fn has_suffix(s: &str, p: &str) -> (r: bool)
    ensures
        r == ends(s@, p@),
{
    let n: usize = p.unicode_len();
    let m: usize = s.unicode_len();
    if m < n {
        return false;
    }
    let off: usize = m - n;
    let mut i: usize = 0;
    while i < n
        invariant
            n == p@.len(),
            m == s@.len(),
            n <= m,
            off == m - n,
            i <= n,
            forall|k: int| 0 <= k < i ==> s@[off + k] == p@[k],
        decreases n - i,
    {
        if s.get_char(off + i) != p.get_char(i) {
            assert(s@.skip(off as int)[i as int] == s@[off + i]);
            return false;
        }
        i = i + 1;
    }
    assert(s@.skip(off as int) =~= p@);
    true
}

/// The text from `from` up to `to`.
pub fn part(s: &str, from: usize, to: usize) -> (r: String)
    requires
        from <= to <= s@.len(),
    ensures
        r@ == s@.subrange(from as int, to as int),
{
    s.substring_char(from, to).to_string()
}

/// A path below another; an absolute one stands for itself.
pub open spec fn path_joined(a: Seq<char>, b: Seq<char>) -> Seq<char> {
    if b.len() > 0 && b[0] == '/' {
        b
    } else if a.len() == 0 || a.last() == '/' {
        a + b
    } else {
        a.push('/') + b
    }
}

/// The path `b` below `a`.
pub fn path_join(a: &str, b: &str) -> (r: String)
    ensures
        r@ == path_joined(a@, b@),
{
    if b.unicode_len() > 0 && b.get_char(0) == '/' {
        return b.to_string();
    }
    let mut out = a.to_string();
    let n: usize = a.unicode_len();
    if n > 0 && a.get_char(n - 1) != '/' {
        out.push('/');
    }
    out.append(b);
    out
}

/// The path without separators and `.` parts at its end.
pub open spec fn trimmed(s: Seq<char>) -> Seq<char>
    decreases s.len(),
{
    if s.len() > 1 && s.last() == '/' {
        trimmed(s.drop_last())
    } else if s.len() > 1 && s.last() == '.' && s[s.len() - 2] == '/' {
        trimmed(s.drop_last())
    } else {
        s
    }
}

/// Where the last separator below `n` stands, one more; zero where there is none.
pub open spec fn last_part(s: Seq<char>, n: int) -> int
    decreases n,
{
    if n <= 0 || n > s.len() {
        0
    } else if s[n - 1] == '/' {
        n
    } else {
        last_part(s, n - 1)
    }
}

/// The last part of a path; none where that is no name.
pub open spec fn leaf_of(s: Seq<char>) -> Option<Seq<char>> {
    let t = trimmed(s);
    let name = t.skip(last_part(t, t.len() as int));
    if name.len() == 0 || name == seq!['.'] || name == seq!['.', '.'] {
        None
    } else {
        Some(name)
    }
}

/// The path without its last part; none for the root and the empty path.
pub open spec fn parent_of(s: Seq<char>) -> Option<Seq<char>> {
    let t = trimmed(s);
    let at = last_part(t, t.len() as int);
    if t.len() == 0 || t == seq!['/'] {
        None
    } else if at == 0 {
        Some(Seq::empty())
    } else {
        Some(trimmed(t.take(at)))
    }
}

proof fn lemma_last_part(s: Seq<char>, n: int)
    requires
        0 <= n <= s.len(),
    ensures
        0 <= last_part(s, n) <= n,
    decreases n,
{
    if n > 0 && s[n - 1] != '/' {
        lemma_last_part(s, n - 1);
    }
}

proof fn lemma_trimmed(s: Seq<char>)
    ensures
        trimmed(s).len() <= s.len(),
        s.take(trimmed(s).len() as int) == trimmed(s),
        s.len() > 0 ==> trimmed(s).len() > 0,
    decreases s.len(),
{
    if s.len() > 1 && (s.last() == '/' || (s.last() == '.' && s[s.len() - 2] == '/')) {
        lemma_trimmed(s.drop_last());
        let n = trimmed(s.drop_last()).len() as int;
        assert(s.drop_last().take(n) =~= s.take(n));
    } else {
        assert(s.take(s.len() as int) =~= s);
    }
}

/// How much of the first `n` characters is left once their end is trimmed.
fn trim_len(s: &str, n: usize) -> (r: usize)
    requires
        n <= s@.len(),
    ensures
        r <= n,
        s@.take(r as int) == trimmed(s@.take(n as int)),
{
    let mut m: usize = n;
    while m > 1 && (s.get_char(m - 1) == '/' || (s.get_char(m - 1) == '.' && s.get_char(m - 2) == '/'))
        invariant
            m <= n,
            n <= s@.len(),
            trimmed(s@.take(m as int)) == trimmed(s@.take(n as int)),
        decreases m,
    {
        assert(s@.take(m as int).drop_last() =~= s@.take(m - 1));
        m = m - 1;
    }
    m
}

/// Where the last part of the first `n` characters begins.
fn part_start(s: &str, n: usize) -> (r: usize)
    requires
        n <= s@.len(),
    ensures
        r == last_part(s@.take(n as int), n as int),
        r <= n,
{
    let ghost t = s@.take(n as int);
    let mut m: usize = n;
    while m > 0 && s.get_char(m - 1) != '/'
        invariant
            m <= n,
            n <= s@.len(),
            t == s@.take(n as int),
            last_part(t, m as int) == last_part(t, n as int),
        decreases m,
    {
        assert(t[m - 1] == s@[m - 1]);
        m = m - 1;
    }
    if m > 0 {
        assert(t[m - 1] == s@[m - 1]);
    }
    m
}

/// The last part of a path.
pub fn file_name(s: &str) -> (r: Option<String>)
    ensures
        match r {
            Some(name) => leaf_of(s@) == Some(name@),
            None => leaf_of(s@) is None,
        },
{
    let n: usize = s.unicode_len();
    assert(s@.take(n as int) =~= s@);
    let m = trim_len(s, n);
    let at = part_start(s, m);
    let ghost t = s@.take(m as int);
    assert(t == trimmed(s@));
    let name = part(s, at, m);
    assert(name@ =~= t.skip(at as int));
    let k: usize = m - at;
    if k == 0 {
        return None;
    }
    if k == 1 && s.get_char(at) == '.' {
        assert(name@ =~= seq!['.']);
        return None;
    }
    if k == 2 && s.get_char(at) == '.' && s.get_char(at + 1) == '.' {
        assert(name@ =~= seq!['.', '.']);
        return None;
    }
    proof {
        if name@ == seq!['.'] {
            assert(name@[0] == '.' && name@.len() == 1);
        }
        if name@ == seq!['.', '.'] {
            assert(name@[0] == '.' && name@[1] == '.' && name@.len() == 2);
        }
    }
    Some(name)
}

/// The path without its last part.
pub fn parent(s: &str) -> (r: Option<String>)
    ensures
        match r {
            Some(dir) => parent_of(s@) == Some(dir@),
            None => parent_of(s@) is None,
        },
{
    let n: usize = s.unicode_len();
    assert(s@.take(n as int) =~= s@);
    let m = trim_len(s, n);
    let ghost t = s@.take(m as int);
    assert(t == trimmed(s@));
    if m == 0 {
        return None;
    }
    if m == 1 && s.get_char(0) == '/' {
        assert(t =~= seq!['/']);
        return None;
    }
    proof {
        if t == seq!['/'] {
            assert(t[0] == '/' && t.len() == 1);
        }
    }
    let at = part_start(s, m);
    if at == 0 {
        return Some(String::new());
    }
    let k = trim_len(s, at);
    proof {
        assert(t.take(at as int) =~= s@.take(at as int));
    }
    let dir = part(s, 0, k);
    assert(dir@ =~= s@.take(k as int));
    Some(dir)
}

/// The directories above a path, the nearest first.
pub open spec fn above(s: Seq<char>) -> Seq<Seq<char>>
    decreases s.len(),
{
    match parent_of(s) {
        Some(dir) => if dir.len() < s.len() {
            seq![dir] + above(dir)
        } else {
            Seq::empty()
        },
        None => Seq::empty(),
    }
}

/// The directories that the project root is looked for in, nearest to the
/// running program first: those above it.
pub fn root_candidates(program: &str) -> (r: Vec<String>)
    ensures
        texts(r@) == above(program@),
{
    let mut out: Vec<String> = Vec::new();
    let mut at: String = program.to_string();
    assert(texts(out@) + above(at@) =~= above(program@));
    loop
        invariant
            texts(out@) + above(at@) == above(program@),
        ensures
            texts(out@) == above(program@),
        decreases at@.len(),
    {
        let ghost had = out@;
        let dir = match parent(at.as_str()) {
            Some(dir) => dir,
            None => {
                assert(texts(out@) + above(at@) =~= texts(out@));
                break ;
            },
        };
        if dir.as_str().unicode_len() >= at.as_str().unicode_len() {
            assert(texts(out@) + above(at@) =~= texts(out@));
            break ;
        }
        let next = dir.clone();
        out.push(dir);
        proof {
            assert(texts(out@) =~= texts(had).push(next@));
            assert(texts(out@) + above(next@) =~= texts(had) + above(at@));
        }
        at = next;
    }
    out
}

/// The entries of a colon-separated list.
pub open spec fn entries_of(s: Seq<char>, i: int) -> Seq<Seq<char>>
    decreases s.len() - i,
{
    if i < 0 || i > s.len() {
        Seq::empty()
    } else {
        let end = colon_from(s, i);
        if end < i || end >= s.len() {
            seq![s.skip(i)]
        } else {
            seq![s.subrange(i, end)] + entries_of(s, end + 1)
        }
    }
}

/// Where the first colon from `i` on stands, or the end.
pub open spec fn colon_from(s: Seq<char>, i: int) -> int
    decreases s.len() - i,
{
    if i >= s.len() || s[i] == ':' {
        i
    } else {
        colon_from(s, i + 1)
    }
}

/// Split a search path at its colons.
pub fn split_search_path(s: &str) -> (r: Vec<String>)
    ensures
        texts(r@) == entries_of(s@, 0),
{
    let n: usize = s.unicode_len();
    let mut out: Vec<String> = Vec::new();
    let mut start: usize = 0;
    assert(texts(out@) + entries_of(s@, 0) =~= entries_of(s@, 0));
    loop
        invariant_except_break
            texts(out@) + entries_of(s@, start as int) == entries_of(s@, 0),
        invariant
            n == s@.len(),
            start <= n,
        ensures
            texts(out@) == entries_of(s@, 0),
        decreases n - start,
    {
        let ghost had = out@;
        let mut i: usize = start;
        while i < n && s.get_char(i) != ':'
            invariant
                n == s@.len(),
                start <= i <= n,
                colon_from(s@, i as int) == colon_from(s@, start as int),
            decreases n - i,
        {
            i = i + 1;
        }
        let entry = part(s, start, i);
        let ghost text = entry@;
        out.push(entry);
        assert(texts(out@) =~= texts(had).push(text));
        if i == n {
            assert(text =~= s@.skip(start as int));
            assert(texts(out@) =~= texts(had) + entries_of(s@, start as int));
            break ;
        }
        assert(texts(out@) + entries_of(s@, i + 1) =~= texts(had) + entries_of(s@, start as int));
        start = i + 1;
    }
    out
}

/// Where modules are looked for.
pub struct SearchPlaces {
    /// The project root, where there is one.
    pub root: Option<String>,
    /// The directories to search, in order.
    pub dirs: Vec<String>,
    /// The build profiles whose plugins are tried, in order.
    pub profiles: Vec<String>,
    /// The file extension of native libraries.
    pub dll_ext: String,
}

/// The file name of a plugin.
pub open spec fn plugin_file(name: Seq<char>, ext: Seq<char>) -> Seq<char> {
    "libelle_"@ + name + "."@ + ext
}

/// The plugin paths of each build profile, in order.
pub open spec fn profile_paths(
    root: Seq<char>,
    profiles: Seq<Seq<char>>,
    name: Seq<char>,
    ext: Seq<char>,
) -> Seq<Seq<char>> {
    Seq::new(
        profiles.len(),
        |i: int|
            path_joined(
                path_joined(path_joined(root, "target"@), profiles[i]),
                plugin_file(name, ext),
            ),
    )
}

/// The paths tried in one directory, in order: source, the specifier as it stands,
/// a plugin in the specifier's own directory, and a plugin beside.
pub open spec fn dir_paths(dir: Seq<char>, spec: Seq<char>, ext: Seq<char>) -> Seq<Seq<char>> {
    let leaf = match leaf_of(spec) {
        Some(name) => name,
        None => spec,
    };
    let sub = match parent_of(spec) {
        Some(p) => p,
        None => Seq::empty(),
    };
    let lib = plugin_file(leaf, ext);
    seq![
        path_joined(dir, spec + ".lisp"@),
        path_joined(dir, spec),
        path_joined(path_joined(dir, sub), lib),
        path_joined(dir, lib),
    ]
}

/// The paths tried in some directories, in order.
pub open spec fn dirs_paths(dirs: Seq<Seq<char>>, spec: Seq<char>, ext: Seq<char>) -> Seq<Seq<char>>
    decreases dirs.len(),
{
    if dirs.len() == 0 {
        Seq::empty()
    } else {
        dirs_paths(dirs.drop_last(), spec, ext) + dir_paths(dirs.last(), spec, ext)
    }
}

/// Everything a specifier may name, the preferred first.
pub open spec fn import_paths(spec: Seq<char>, places: SearchPlaces) -> Seq<Seq<char>> {
    let ext = places.dll_ext@;
    let of_std = match (places.root, after_prefix(spec, "std/"@)) {
        (Some(root), Some(rest)) => seq![
            path_joined(path_joined(root@, "lib"@), rest + ".lisp"@),
        ],
        _ => Seq::empty(),
    };
    let of_plugin = match (places.root, after_prefix(spec, "plugin/"@)) {
        (Some(root), Some(rest)) => profile_paths(root@, texts(places.profiles@), rest, ext),
        _ => Seq::empty(),
    };
    of_std + of_plugin + seq![spec] + dirs_paths(texts(places.dirs@), spec, ext)
}

/// What a specifier resolves to before any file is looked at.
pub enum Resolution {
    /// Mounted source, under the specifier itself.
    Mounted(String),
    /// The files to look for; the first one there is it.
    Probe(Vec<String>),
}

fn plugin_name(name: &str, ext: &str) -> (r: String)
    ensures
        r@ == plugin_file(name@, ext@),
{
    let mut out = "libelle_".to_string();
    out.append(name);
    out.append(".");
    out.append(ext);
    out
}

/// Resolve a module specifier. Mounted source wins over every file.
pub fn resolve_import(mounts: &Mounts, spec: &String, places: &SearchPlaces) -> (r: Resolution)
    ensures
        match r {
            Resolution::Mounted(path) => mounts@.contains_key(spec@) && path@ == spec@,
            Resolution::Probe(paths) => !mounts@.contains_key(spec@) && texts(paths@) == import_paths(
                spec@,
                *places,
            ),
        },
{
    if is_mounted(mounts, spec) {
        return Resolution::Mounted(spec.clone());
    }
    let mut out: Vec<String> = Vec::new();
    let s = spec.as_str();
    let n: usize = s.unicode_len();
    let ext = places.dll_ext.as_str();
    assert(texts(out@) =~= Seq::empty());
    if let Some(root) = &places.root {
        if has_prefix(s, "std/") {
            proof {
                reveal_strlit("std/");
            }
            let mut file = part(s, 4, n);
            assert(file@ =~= s@.skip(4));
            file.append(".lisp");
            let lib = path_join(root.as_str(), "lib");
            out.push(path_join(lib.as_str(), file.as_str()));
        }
        if has_prefix(s, "plugin/") {
            proof {
                reveal_strlit("plugin/");
            }
            let rest = part(s, 7, n);
            assert(rest@ =~= s@.skip(7));
            push_profiles(&mut out, root, &places.profiles, &rest, ext);
        }
    }
    let ghost before = texts(out@);
    assert(before =~= match (places.root, after_prefix(spec@, "std/"@)) {
        (Some(root), Some(rest)) => seq![
            path_joined(path_joined(root@, "lib"@), rest + ".lisp"@),
        ],
        _ => Seq::empty(),
    } + match (places.root, after_prefix(spec@, "plugin/"@)) {
        (Some(root), Some(rest)) => profile_paths(root@, texts(places.profiles@), rest, ext@),
        _ => Seq::empty(),
    });
    out.push(spec.clone());
    assert(texts(out@) =~= before + seq![spec@]);
    push_dirs(&mut out, &places.dirs, spec, ext);
    Resolution::Probe(out)
}

fn push_profiles(out: &mut Vec<String>, root: &String, profiles: &Vec<String>, name: &String, ext: &str)
    ensures
        texts(final(out)@) == texts(old(out)@) + profile_paths(root@, texts(profiles@), name@, ext@),
{
    let ghost had = texts(out@);
    let ghost all = profile_paths(root@, texts(profiles@), name@, ext@);
    let lib = plugin_name(name.as_str(), ext);
    let target = path_join(root.as_str(), "target");
    let mut i: usize = 0;
    assert(texts(out@) =~= had + all.take(0));
    while i < profiles.len()
        invariant
            i <= profiles@.len(),
            lib@ == plugin_file(name@, ext@),
            target@ == path_joined(root@, "target"@),
            all == profile_paths(root@, texts(profiles@), name@, ext@),
            texts(out@) == had + all.take(i as int),
        decreases profiles.len() - i,
    {
        let ghost sofar = out@;
        let dir = path_join(target.as_str(), profiles[i].as_str());
        let path = path_join(dir.as_str(), lib.as_str());
        assert(path@ == all[i as int]);
        out.push(path);
        i = i + 1;
        assert(texts(out@) =~= texts(sofar).push(all[i - 1]));
        assert(texts(out@) =~= had + all.take(i as int));
    }
    assert(all.take(i as int) =~= all);
}

fn push_dirs(out: &mut Vec<String>, dirs: &Vec<String>, spec: &String, ext: &str)
    ensures
        texts(final(out)@) == texts(old(out)@) + dirs_paths(texts(dirs@), spec@, ext@),
{
    let ghost had = texts(out@);
    let s = spec.as_str();
    let leaf = match file_name(s) {
        Some(name) => name,
        None => spec.clone(),
    };
    let sub = match parent(s) {
        Some(p) => p,
        None => String::new(),
    };
    let lib = plugin_name(leaf.as_str(), ext);
    let mut source = spec.clone();
    source.append(".lisp");
    let mut i: usize = 0;
    assert(texts(dirs@).take(0) =~= Seq::empty());
    assert(texts(out@) =~= had + dirs_paths(texts(dirs@).take(0), spec@, ext@));
    while i < dirs.len()
        invariant
            i <= dirs@.len(),
            s@ == spec@,
            source@ == spec@ + ".lisp"@,
            leaf@ == match leaf_of(spec@) {
                Some(name) => name,
                None => spec@,
            },
            sub@ == match parent_of(spec@) {
                Some(p) => p,
                None => Seq::empty(),
            },
            lib@ == plugin_file(leaf@, ext@),
            texts(out@) == had + dirs_paths(texts(dirs@).take(i as int), spec@, ext@),
        decreases dirs.len() - i,
    {
        let ghost sofar = texts(out@);
        let dir = dirs[i].as_str();
        out.push(path_join(dir, source.as_str()));
        out.push(path_join(dir, s));
        let below = path_join(dir, sub.as_str());
        out.push(path_join(below.as_str(), lib.as_str()));
        out.push(path_join(dir, lib.as_str()));
        i = i + 1;
        proof {
            let now = texts(dirs@).take(i as int);
            assert(now.drop_last() =~= texts(dirs@).take(i - 1));
            assert(now.last() == dirs@[i - 1]@);
            assert(texts(out@) =~= sofar + dir_paths(dirs@[i - 1]@, spec@, ext@));
            assert(texts(out@) =~= had + dirs_paths(now, spec@, ext@));
        }
    }
    assert(texts(dirs@).take(i as int) =~= texts(dirs@));
}

/// The path has the extension of a native shared library.
pub open spec fn is_library(path: Seq<char>) -> bool {
    ends(path, ".so"@) || ends(path, ".dylib"@) || ends(path, ".dll"@)
}

/// Whether a path has the extension of a native shared library.
pub fn is_native_library(path: &str) -> (r: bool)
    ensures
        r == is_library(path@),
{
    has_suffix(path, ".so") || has_suffix(path, ".dylib") || has_suffix(path, ".dll")
}

} // verus!
