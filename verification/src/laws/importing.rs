//! Where a module is looked for.

use vstd::prelude::*;

use crate::searchpath::{
    above, colon_from, dirs_paths, entries_of, file_name, has_prefix, has_suffix, is_native_library, parent,
    path_join, resolve_import, root_candidates, split_search_path, Resolution, SearchPlaces,
};
use crate::text::texts;
use crate::vfs::Mounts;

verus! {

/// Mounted source wins over every file, and nothing but mounted source does: a
/// specifier that is mounted is never looked for among the files.
pub proof fn lemma_mounted_source_wins(mounts: Mounts, spec: String, places: SearchPlaces, r: Resolution)
    requires
        call_ensures(resolve_import, (&mounts, &spec, &places), r),
    ensures
        mounts@.contains_key(spec@) ==> (r matches Resolution::Mounted(path) && path@ == spec@),
        !mounts@.contains_key(spec@) ==> r is Probe,
{
}

/// The paths that are looked at for a specifier.
pub open spec fn looked_at(r: Resolution) -> Seq<Seq<char>> {
    match r {
        Resolution::Probe(paths) => texts(paths@),
        Resolution::Mounted(_) => Seq::empty(),
    }
}

/// A standard module `std/X` is looked for first at `X.lisp` in the directory `lib` of
/// the project root.
pub proof fn lemma_std_modules_lie_in_lib(
    mounts: Mounts,
    spec: String,
    places: SearchPlaces,
    r: Resolution,
    root: Seq<char>,
    name: Seq<char>,
)
    requires
        call_ensures(resolve_import, (&mounts, &spec, &places), r),
        !mounts@.contains_key(spec@),
        spec@ == "std/"@ + name,
        name.len() > 0 ==> name[0] != '/',
        places.root matches Some(text) && text@ == root,
        root.len() > 0,
        root.last() != '/',
    ensures
        looked_at(r).len() >= 2,
        looked_at(r)[0] == root + "/lib/"@ + name + ".lisp"@,
        looked_at(r)[1] == spec@,
{
    reveal_strlit("std/");
    reveal_strlit("/lib/");
    reveal_strlit("lib");
    reveal_strlit(".lisp");
    reveal_strlit("plugin/");
    assert(spec@.take(4) =~= "std/"@);
    assert(spec@.skip(4) =~= name);
    assert(spec@[0] == 's');
    if spec@.len() >= 7 {
        assert(spec@.take(7)[0] == 's');
        assert("plugin/"@[0] == 'p');
    }
    let file = name + ".lisp"@;
    assert(file.len() > 0 && file[0] != '/') by {
        if name.len() > 0 {
            assert(file[0] == name[0]);
        } else {
            assert(file[0] == ".lisp"@[0]);
        }
    }
    let dir = root.push('/') + "lib"@;
    assert(dir.last() == "lib"@[2]);
    assert(dir.push('/') + file =~= root + "/lib/"@ + name + ".lisp"@);
}

/// A plugin `plugin/X` is looked for in the build directory of each profile in turn,
/// under the name of a library for `X`, before the specifier itself is.
pub proof fn lemma_plugins_lie_in_target(
    mounts: Mounts,
    spec: String,
    places: SearchPlaces,
    r: Resolution,
    root: Seq<char>,
    name: Seq<char>,
    i: int,
)
    requires
        call_ensures(resolve_import, (&mounts, &spec, &places), r),
        !mounts@.contains_key(spec@),
        spec@ == "plugin/"@ + name,
        places.root matches Some(text) && text@ == root,
        root.len() > 0,
        root.last() != '/',
        0 <= i < places.profiles@.len(),
        ({
            let profile = places.profiles@[i]@;
            profile.len() > 0 && profile[0] != '/' && profile.last() != '/'
        }),
    ensures
        looked_at(r).len() > places.profiles@.len(),
        looked_at(r)[i] == root + "/target/"@ + places.profiles@[i]@ + "/libelle_"@ + name + "."@
            + places.dll_ext@,
        looked_at(r)[places.profiles@.len() as int] == spec@,
{
    reveal_strlit("std/");
    reveal_strlit("plugin/");
    reveal_strlit("target");
    reveal_strlit("/target/");
    reveal_strlit("libelle_");
    reveal_strlit("/libelle_");
    assert(spec@.take(7) =~= "plugin/"@);
    assert(spec@.skip(7) =~= name);
    assert(spec@[0] == 'p');
    assert(spec@.take(4)[0] == 'p');
    assert("std/"@[0] == 's');
    let profile = texts(places.profiles@)[i];
    let target = root.push('/') + "target"@;
    assert(target.last() == "target"@[5]);
    let dir = target.push('/') + profile;
    assert(dir.last() == profile.last());
    let file = "libelle_"@ + name + "."@ + places.dll_ext@;
    assert(file[0] == "libelle_"@[0]);
    assert(dir.push('/') + file =~= root + "/target/"@ + profile + "/libelle_"@ + name + "."@ + places.dll_ext@);
}

/// Whatever else is looked at, the specifier itself is, as a path.
pub proof fn lemma_the_specifier_itself_is_looked_at(
    mounts: Mounts,
    spec: String,
    places: SearchPlaces,
    r: Resolution,
)
    requires
        call_ensures(resolve_import, (&mounts, &spec, &places), r),
        !mounts@.contains_key(spec@),
    ensures
        looked_at(r).contains(spec@),
        places.root is None && places.dirs@.len() == 0 ==> looked_at(r) == seq![spec@],
{
    let paths = looked_at(r);
    let tail = dirs_paths(texts(places.dirs@), spec@, places.dll_ext@);
    let k = paths.len() - tail.len() - 1;
    assert(paths[k] == spec@);
    if places.root is None && places.dirs@.len() == 0 {
        assert(paths =~= seq![spec@]);
    }
}

proof fn lemma_dirs_paths_at(dirs: Seq<Seq<char>>, spec: Seq<char>, ext: Seq<char>, i: int)
    requires
        0 <= i < dirs.len(),
    ensures
        dirs_paths(dirs, spec, ext).len() == 4 * dirs.len(),
        dirs_paths(dirs, spec, ext).subrange(4 * i, 4 * i + 4) == crate::searchpath::dir_paths(dirs[i], spec, ext),
    decreases dirs.len(),
{
    let init = dirs.drop_last();
    let before = dirs_paths(init, spec, ext);
    let last = crate::searchpath::dir_paths(dirs.last(), spec, ext);
    if init.len() > 0 {
        lemma_dirs_paths_at(init, spec, ext, 0);
    }
    assert(before.len() == 4 * init.len());
    if i < init.len() {
        lemma_dirs_paths_at(init, spec, ext, i);
        assert((before + last).subrange(4 * i, 4 * i + 4) =~= before.subrange(4 * i, 4 * i + 4));
    } else {
        assert((before + last).subrange(4 * i, 4 * i + 4) =~= last);
    }
}

/// A relative specifier is looked for in every directory of the search path, in the
/// order of that path, behind the specifier itself: first as source, `.lisp` added,
/// then as it stands. A plugin beside it is looked for after those.
pub proof fn lemma_search_path_is_followed_in_order(
    mounts: Mounts,
    spec: String,
    places: SearchPlaces,
    r: Resolution,
    i: int,
)
    requires
        call_ensures(resolve_import, (&mounts, &spec, &places), r),
        !mounts@.contains_key(spec@),
        spec@.len() > 0,
        spec@[0] != '/',
        0 <= i < places.dirs@.len(),
        places.dirs@[i]@.len() > 0,
        places.dirs@[i]@.last() != '/',
    ensures
        ({
            let paths = looked_at(r);
            let dir = places.dirs@[i]@;
            let at = paths.len() - 4 * (places.dirs@.len() - i);
            &&& at >= 1
            &&& paths[at] == dir + "/"@ + spec@ + ".lisp"@
            &&& paths[at + 1] == dir + "/"@ + spec@
            &&& paths[paths.len() - 4 * places.dirs@.len() - 1] == spec@
            &&& (forall|k: int| 0 <= k < spec@.len() ==> spec@[k] != '/' && spec@[k] != '.') ==> paths[at + 3]
                == dir + "/libelle_"@ + spec@ + "."@ + places.dll_ext@
        }),
{
    reveal_strlit("/");
    reveal_strlit(".lisp");
    reveal_strlit("libelle_");
    reveal_strlit("/libelle_");
    let paths = looked_at(r);
    let dirs = texts(places.dirs@);
    let ext = places.dll_ext@;
    let tail = dirs_paths(dirs, spec@, ext);
    lemma_dirs_paths_at(dirs, spec@, ext, i);
    let at = paths.len() - 4 * (dirs.len() - i);
    let own = tail.subrange(4 * i, 4 * i + 4);
    assert(paths[at] == own[0]);
    assert(paths[at + 1] == own[1]);
    assert(paths[at + 3] == own[3]);
    let dir = dirs[i];
    assert((spec@ + ".lisp"@)[0] == spec@[0]);
    assert(dir.push('/') + (spec@ + ".lisp"@) =~= dir + "/"@ + spec@ + ".lisp"@);
    assert(dir.push('/') + spec@ =~= dir + "/"@ + spec@);
    if forall|k: int| 0 <= k < spec@.len() ==> spec@[k] != '/' && spec@[k] != '.' {
        lemma_plain_name(spec@);
        let file = "libelle_"@ + spec@ + "."@ + ext;
        assert(file[0] == "libelle_"@[0]);
        assert(dir.push('/') + file =~= dir + "/libelle_"@ + spec@ + "."@ + ext);
    }
}

proof fn lemma_no_separator(s: Seq<char>, n: int)
    requires
        0 <= n <= s.len(),
        forall|k: int| 0 <= k < s.len() ==> s[k] != '/',
    ensures
        crate::searchpath::last_part(s, n) == 0,
    decreases n,
{
    if n > 0 {
        lemma_no_separator(s, n - 1);
    }
}

/// A name without separators and dots is its own last part.
proof fn lemma_plain_name(s: Seq<char>)
    requires
        s.len() > 0,
        forall|k: int| 0 <= k < s.len() ==> s[k] != '/' && s[k] != '.',
    ensures
        crate::searchpath::leaf_of(s) == Some(s),
{
    assert(s.last() == s[s.len() - 1]);
    lemma_no_separator(s, s.len() as int);
    assert(s.skip(0) =~= s);
    if s == seq!['.'] || s == seq!['.', '.'] {
        assert(s[0] == '.');
    }
}

/// Joining a relative path to a directory puts exactly one separator between them; an
/// absolute path stands for itself, and below nothing a path stands as it is.
pub proof fn lemma_joined_paths(a: &str, b: &str, r: String)
    requires
        call_ensures(path_join, (a, b), r),
    ensures
        b@.len() > 0 && b@[0] == '/' ==> r@ == b@,
        (b@.len() == 0 || b@[0] != '/') && a@.len() > 0 && a@.last() != '/' ==> r@ == a@ + seq!['/'] + b@,
        (b@.len() == 0 || b@[0] != '/') && (a@.len() == 0 || a@.last() == '/') ==> r@ == a@ + b@,
{
    assert(a@.push('/') + b@ =~= a@ + seq!['/'] + b@);
}

/// A directory and a plain name: the name is the last part of the path they make, and
/// the directory what is left without it.
pub proof fn lemma_joined_paths_come_apart(
    dir: &str,
    name: &str,
    joined: String,
    path: &str,
    leaf: Option<String>,
    up: Option<String>,
)
    requires
        call_ensures(path_join, (dir, name), joined),
        path@ == joined@,
        call_ensures(file_name, (path,), leaf),
        call_ensures(parent, (path,), up),
        name@.len() > 0,
        forall|k: int| 0 <= k < name@.len() ==> name@[k] != '/' && name@[k] != '.',
        dir@.len() > 0,
        dir@.last() != '/',
        dir@.last() != '.',
    ensures
        leaf matches Some(text) && text@ == name@,
        up matches Some(text) && text@ == dir@,
{
    let p = path@;
    let d = dir@.len() as int;
    assert(p.len() == d + 1 + name@.len());
    assert(p.last() == name@.last());
    assert(crate::searchpath::trimmed(p) == p);
    lemma_last_separator(p, d, p.len() as int);
    assert(p.skip(d + 1) =~= name@);
    if name@ == seq!['.'] || name@ == seq!['.', '.'] {
        assert(name@[0] == '.');
    }
    assert(p.take(d + 1) =~= dir@.push('/'));
    let t = dir@.push('/');
    assert(t.drop_last() =~= dir@);
    assert(crate::searchpath::trimmed(dir@) == dir@);
    assert(crate::searchpath::trimmed(t) == dir@);
    if p == seq!['/'] {
        assert(p.len() == 1);
    }
}

proof fn lemma_last_separator(s: Seq<char>, at: int, n: int)
    requires
        0 <= at < n <= s.len(),
        s[at] == '/',
        forall|k: int| at < k < n ==> s[k] != '/',
    ensures
        crate::searchpath::last_part(s, n) == at + 1,
    decreases n,
{
    if n - 1 > at {
        lemma_last_separator(s, at, n - 1);
    }
}

/// The entries put together again, a colon between each two.
pub open spec fn with_colons(parts: Seq<Seq<char>>) -> Seq<char>
    decreases parts.len(),
{
    if parts.len() == 0 {
        Seq::empty()
    } else if parts.len() == 1 {
        parts[0]
    } else {
        parts[0].push(':') + with_colons(parts.skip(1))
    }
}

/// Splitting a search path loses nothing: its entries hold no colon, and with colons
/// between them they are the path again.
pub proof fn lemma_search_path_is_its_entries(s: &str, r: Vec<String>)
    requires
        call_ensures(split_search_path, (s,), r),
    ensures
        r@.len() > 0,
        with_colons(texts(r@)) == s@,
        forall|i: int, k: int| 0 <= i < r@.len() && 0 <= k < r@[i]@.len() ==> #[trigger] r@[i]@[k] != ':',
{
    lemma_entries_join(s@, 0);
    assert(s@.skip(0) =~= s@);
    assert forall|i: int, k: int| 0 <= i < r@.len() && 0 <= k < r@[i]@.len() implies #[trigger] r@[i]@[k]
        != ':' by {
        assert(texts(r@)[i][k] != ':');
    }
}

proof fn lemma_colon_from(s: Seq<char>, i: int)
    requires
        0 <= i <= s.len(),
    ensures
        i <= colon_from(s, i) <= s.len(),
        colon_from(s, i) < s.len() ==> s[colon_from(s, i)] == ':',
        forall|k: int| i <= k < colon_from(s, i) ==> s[k] != ':',
    decreases s.len() - i,
{
    if i < s.len() && s[i] != ':' {
        lemma_colon_from(s, i + 1);
    }
}

proof fn lemma_entries_join(s: Seq<char>, i: int)
    requires
        0 <= i <= s.len(),
    ensures
        entries_of(s, i).len() > 0,
        with_colons(entries_of(s, i)) == s.skip(i),
        forall|n: int, k: int|
            0 <= n < entries_of(s, i).len() && 0 <= k < entries_of(s, i)[n].len() ==> #[trigger] entries_of(s, i)[n][k]
                != ':',
    decreases s.len() - i,
{
    lemma_colon_from(s, i);
    let end = colon_from(s, i);
    if end < s.len() {
        lemma_entries_join(s, end + 1);
        let rest = entries_of(s, end + 1);
        let all = entries_of(s, i);
        assert(all =~= seq![s.subrange(i, end)] + rest);
        assert(all.skip(1) =~= rest);
        assert(s.subrange(i, end).push(':') + s.skip(end + 1) =~= s.skip(i));
        assert forall|n: int, k: int| 0 <= n < all.len() && 0 <= k < all[n].len() implies #[trigger] all[n][k]
            != ':' by {
            if n > 0 {
                assert(all[n] == rest[n - 1]);
                assert(rest[n - 1][k] != ':');
            }
        }
    }
}

/// The directories that the project root is looked for in lie one above the other: the
/// first is the program's parent, and each further one the parent of the one before.
pub proof fn lemma_root_is_looked_for_upwards(program: &str, r: Vec<String>, up: Option<String>)
    requires
        call_ensures(root_candidates, (program,), r),
        call_ensures(parent, (program,), up),
    ensures
        up is None ==> r@.len() == 0,
        up matches Some(dir) ==> dir@.len() < program@.len() ==> r@.len() > 0 && r@[0]@ == dir@ && texts(r@).skip(1)
            == above(dir@),
{
    assert(texts(r@).len() == r@.len());
    if let Some(dir) = up {
        if dir@.len() < program@.len() {
            assert(texts(r@)[0] == dir@);
            assert(texts(r@).skip(1) =~= above(dir@));
        }
    }
}

/// A path names a native library exactly where it ends in one of their extensions,
/// whatever stands before it.
pub proof fn lemma_libraries_by_extension(path: &str, r: bool, stem: Seq<char>)
    requires
        call_ensures(is_native_library, (path,), r),
    ensures
        path@ == stem + ".so"@ || path@ == stem + ".dylib"@ || path@ == stem + ".dll"@ ==> r,
        path@ == stem + ".lisp"@ ==> !r,
{
    reveal_strlit(".so");
    reveal_strlit(".dylib");
    reveal_strlit(".dll");
    reveal_strlit(".lisp");
    let p = path@;
    let n = stem.len() as int;
    if p == stem + ".so"@ {
        assert(p.skip(n) =~= ".so"@);
    } else if p == stem + ".dylib"@ {
        assert(p.skip(n) =~= ".dylib"@);
    } else if p == stem + ".dll"@ {
        assert(p.skip(n) =~= ".dll"@);
    } else if p == stem + ".lisp"@ {
        assert(p[p.len() - 1] == 'p');
        assert(".so"@[2] == 'o' && ".dylib"@[5] == 'b' && ".dll"@[3] == 'l');
        if p.skip(p.len() - 3) == ".so"@ {
            assert(p.skip(p.len() - 3)[2] == 'p');
        }
        if p.len() >= 6 && p.skip(p.len() - 6) == ".dylib"@ {
            assert(p.skip(p.len() - 6)[5] == 'p');
        }
        if p.skip(p.len() - 4) == ".dll"@ {
            assert(p.skip(p.len() - 4)[3] == 'p');
        }
    }
}

/// A text begins with a prefix exactly where it is that prefix with something behind it,
/// and ends with a suffix where it is something with that behind it.
pub proof fn lemma_prefix_and_suffix(s: &str, p: &str, begins: bool, finishes: bool)
    requires
        call_ensures(has_prefix, (s, p), begins),
        call_ensures(has_suffix, (s, p), finishes),
    ensures
        begins <==> exists|rest: Seq<char>| s@ == p@ + rest,
        finishes <==> exists|rest: Seq<char>| s@ == rest + p@,
{
    let n = p@.len() as int;
    if begins {
        assert(s@ =~= p@ + s@.skip(n));
    }
    if exists|rest: Seq<char>| s@ == p@ + rest {
        assert(s@.take(n) =~= p@);
    }
    if finishes {
        assert(s@ =~= s@.take(s@.len() - n) + p@);
    }
    if exists|rest: Seq<char>| s@ == rest + p@ {
        assert(s@.skip(s@.len() - n) =~= p@);
    }
}

} // verus!
