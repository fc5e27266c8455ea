//! File paths as text, taken apart the way the standard library's paths are.

use crate::names;
use crate::strings;
use crate::text;
use vstd::prelude::*;

verus! {

/// `arg` seen from `dir`: an absolute one stands for itself.
pub open spec fn join(dir: Seq<char>, arg: Seq<char>) -> Seq<char> {
    if text::starts_with(arg, "/"@) || dir.len() == 0 {
        arg
    } else if dir.last() == '/' {
        dir + arg
    } else {
        dir + "/"@ + arg
    }
}

/// A piece between slashes that stands for a component: not empty, and a single dot only
/// at the very front of a relative path.
pub open spec fn is_component(piece: Seq<char>, front: bool) -> bool {
    piece.len() > 0 && (piece != "."@ || front)
}

/// The components among the first `n` pieces.
pub open spec fn components_upto(pieces: Seq<Seq<char>>, n: nat) -> Seq<Seq<char>>
    decreases n,
{
    if n == 0 {
        Seq::empty()
    } else {
        let before = components_upto(pieces, (n - 1) as nat);
        if is_component(pieces[n - 1], n == 1) {
            before.push(pieces[n - 1])
        } else {
            before
        }
    }
}

/// The components of a path below its root.
pub open spec fn components(path: Seq<char>) -> Seq<Seq<char>> {
    components_upto(text::split(path, '/'), text::split(path, '/').len())
}

/// The path starts at the root.
pub open spec fn is_absolute(path: Seq<char>) -> bool {
    text::starts_with(path, "/"@)
}

/// The last component, where it is a name.
pub open spec fn file_name(path: Seq<char>) -> Option<Seq<char>> {
    let c = components(path);
    if c.len() == 0 || c.last() == ".."@ || c.last() == "."@ {
        None
    } else {
        Some(c.last())
    }
}

/// The path has a parent and it is `dir`, component by component.
pub open spec fn parent_is(path: Seq<char>, dir: Seq<char>) -> bool {
    let c = components(path);
    &&& c.len() > 0
    &&& is_absolute(path) == is_absolute(dir)
    &&& c.drop_last() == components(dir)
}

/// The config name of a path that is directly `<dir>/<name>.conf` with an allow-listed
/// name: the only files that may be written.
pub open spec fn target_name(path: Seq<char>, dir: Seq<char>) -> Option<Seq<char>> {
    if !parent_is(path, dir) {
        None
    } else {
        match file_name(path) {
            None => None,
            Some(f) => match text::strip_suffix(f, ".conf"@) {
                None => None,
                Some(name) => if names::is_valid_name(name) {
                    Some(name)
                } else {
                    None
                },
            },
        }
    }
}

/// A file name that has the extension `conf`: something, a dot, and `conf`.
pub open spec fn has_conf_extension(file: Seq<char>) -> bool {
    file.len() > 5 && text::ends_with(file, ".conf"@)
}

/// `arg` seen from `dir`.
pub fn join_path(dir: &str, arg: &str) -> (r: String)
    ensures
        r@ == join(dir@, arg@),
{
    let v = strings::chars(dir);
    if strings::starts_with(arg, "/") || v.len() == 0 {
        strings::copy(arg)
    } else if v[v.len() - 1] == '/' {
        strings::cat(dir, arg)
    } else {
        strings::cat3(dir, "/", arg)
    }
}

/// The components of a path below its root.
pub fn component_list(path: &str) -> (r: Vec<String>)
    ensures
        text::texts(r@) == components(path@),
{
    let pieces = strings::split(path, '/');
    let ghost all = text::split(path@, '/');
    let mut r: Vec<String> = Vec::new();
    let mut i: usize = 0;
    assert(text::texts(r@) =~= Seq::<Seq<char>>::empty());
    while i < pieces.len()
        invariant
            i <= pieces@.len(),
            text::texts(pieces@) == all,
            text::texts(r@) == components_upto(all, i as nat),
        decreases pieces.len() - i,
    {
        let ghost before = r@;
        assert(all[i as int] == pieces@[i as int]@);
        let p = pieces[i].as_str();
        if !p.is_empty() && (!strings::same(p, ".") || i == 0) {
            r.push(strings::copy(p));
            assert(text::texts(r@) =~= text::texts(before).push(p@));
        }
        i = i + 1;
    }
    r
}

/// Whether two lists of strings are the same.
pub fn same_list(a: &Vec<String>, b: &Vec<String>) -> (r: bool)
    ensures
        r == (text::texts(a@) == text::texts(b@)),
{
    if a.len() != b.len() {
        assert(text::texts(a@).len() != text::texts(b@).len());
        return false;
    }
    let mut i: usize = 0;
    while i < a.len()
        invariant
            i <= a@.len(),
            a@.len() == b@.len(),
            forall|j: int| 0 <= j < i ==> #[trigger] a@[j]@ == b@[j]@,
        decreases a.len() - i,
    {
        if !strings::same(a[i].as_str(), b[i].as_str()) {
            assert(text::texts(a@)[i as int] != text::texts(b@)[i as int]);
            return false;
        }
        i = i + 1;
    }
    assert(text::texts(a@) =~= text::texts(b@));
    true
}

/// The last component of a path, where it is a name.
pub fn file_name_of(path: &str) -> (r: Option<String>)
    ensures
        text::opt(r) == file_name(path@),
{
    let c = component_list(path);
    let ghost all = components(path@);
    assert(c@.len() == all.len());
    if c.len() == 0 {
        return None;
    }
    let last = c[c.len() - 1].as_str();
    assert(all.last() == last@);
    if strings::same(last, "..") || strings::same(last, ".") {
        None
    } else {
        Some(strings::copy(last))
    }
}

/// Whether `dir` is the parent of the path.
pub fn is_parent(path: &str, dir: &str) -> (r: bool)
    ensures
        r == parent_is(path@, dir@),
{
    let mut c = component_list(path);
    let ghost all = components(path@);
    assert(c@.len() == all.len());
    if c.len() == 0 {
        return false;
    }
    if strings::starts_with(path, "/") != strings::starts_with(dir, "/") {
        return false;
    }
    let ghost whole = c@;
    c.pop();
    assert(text::texts(c@) =~= all.drop_last()) by {
        assert forall|i: int| 0 <= i < c@.len() implies c@[i]@ == all[i] by {
            assert(c@[i] == whole[i]);
        }
    }
    same_list(&c, &component_list(dir))
}

/// The config name of a path that is directly `<dir>/<name>.conf`.
pub fn target_of(path: &str, dir: &str) -> (r: Option<String>)
    ensures
        text::opt(r) == target_name(path@, dir@),
{
    if !is_parent(path, dir) {
        return None;
    }
    match file_name_of(path) {
        None => None,
        Some(f) => match strings::strip_suffix(f.as_str(), ".conf") {
            None => None,
            Some(name) => if names::valid_name(name.as_str()) {
                Some(name)
            } else {
                None
            },
        },
    }
}

/// Two paths are the same, component by component.
pub open spec fn same_path(a: Seq<char>, b: Seq<char>) -> bool {
    is_absolute(a) == is_absolute(b) && components(a) == components(b)
}

/// Whether two paths are the same.
pub fn is_same_path(a: &str, b: &str) -> (r: bool)
    ensures
        r == same_path(a@, b@),
{
    strings::starts_with(a, "/") == strings::starts_with(b, "/") && same_list(
        &component_list(a),
        &component_list(b),
    )
}

/// The first of the paths that is `path`, among those before `n`.
pub open spec fn path_index(all: Seq<Seq<char>>, path: Seq<char>) -> Option<int>
    decreases all.len(),
{
    if all.len() == 0 {
        None
    } else {
        match path_index(all.drop_last(), path) {
            Some(i) => Some(i),
            None => if same_path(all.last(), path) {
                Some(all.len() - 1)
            } else {
                None
            },
        }
    }
}

/// A first match stays the first whatever comes behind it.
proof fn path_index_is_stable(all: Seq<Seq<char>>, path: Seq<char>, n: int)
    requires
        0 <= n <= all.len(),
        path_index(all.subrange(0, n), path) is Some,
    ensures
        path_index(all, path) == path_index(all.subrange(0, n), path),
    decreases all.len(),
{
    if n < all.len() {
        assert(all.drop_last().subrange(0, n) =~= all.subrange(0, n));
        path_index_is_stable(all.drop_last(), path, n);
    } else {
        assert(all.subrange(0, n) =~= all);
    }
}

/// The index of the first of the paths that is `path`.
pub fn find_path(all: &Vec<String>, path: &str) -> (r: Option<usize>)
    ensures
        match r {
            Some(i) => i < all@.len() && path_index(text::texts(all@), path@) == Some(i as int),
            None => path_index(text::texts(all@), path@) is None,
        },
{
    let ghost v = text::texts(all@);
    let mut i: usize = 0;
    while i < all.len()
        invariant
            i <= all@.len(),
            v == text::texts(all@),
            path_index(v.subrange(0, i as int), path@) is None,
        decreases all.len() - i,
    {
        let ghost next = v.subrange(0, i + 1);
        assert(next.drop_last() =~= v.subrange(0, i as int));
        assert(next.last() == all@[i as int]@);
        if is_same_path(all[i].as_str(), path) {
            proof {
                path_index_is_stable(v, path@, i + 1);
            }
            return Some(i);
        }
        i = i + 1;
    }
    assert(v.subrange(0, i as int) =~= v);
    None
}

// ---------------------------------------------------------------------------
// What holds of every path
// ---------------------------------------------------------------------------

proof fn one_more_component(pieces: Seq<Seq<char>>, last: Seq<char>, n: nat)
    requires
        n <= pieces.len(),
    ensures
        components_upto(pieces.push(last), n) == components_upto(pieces, n),
    decreases n,
{
    if n > 0 {
        one_more_component(pieces, last, (n - 1) as nat);
        assert(pieces.push(last)[n - 1] == pieces[n - 1]);
    }
}

/// A file joined to a directory is the next component behind those of the directory, and
/// starts at the root exactly where that does.
pub proof fn file_in_directory(dir: Seq<char>, file: Seq<char>)
    requires
        file.len() > 0,
        file != "."@,
        !file.contains('/'),
    ensures
        components(join(dir, file)) == components(dir).push(file),
        is_absolute(join(dir, file)) == is_absolute(dir),
{
    reveal_strlit("/");
    text::split_without_separator(file, '/');
    assert(file[0] != '/') by {
        assert(file.contains(file[0]));
    }
    if text::starts_with(file, "/"@) {
        assert(file.subrange(0, 1)[0] == '/');
    }
    let none = Seq::<char>::empty();
    if dir.len() == 0 {
        assert(dir =~= none);
        assert(text::split(none, '/') =~= seq![none]);
        reveal_with_fuel(components_upto, 2);
        assert(components(dir) =~= Seq::<Seq<char>>::empty());
        assert(components(file) =~= seq![file]);
        assert(components(dir).push(file) =~= seq![file]);
    } else {
        let path = join(dir, file);
        let front = if dir.last() == '/' {
            dir.drop_last()
        } else {
            dir
        };
        let pieces = text::split(front, '/');
        text::split_has_a_piece(front, '/');
        if dir.last() == '/' {
            assert(dir =~= front.push('/') + none);
            assert(path =~= front.push('/') + file);
            text::split_at_separator(front, '/', none);
            assert(text::split(none, '/') =~= seq![none]);
            assert(text::split(dir, '/') =~= pieces.push(none));
            one_more_component(pieces, none, pieces.len());
        } else {
            assert(path =~= front.push('/') + file);
        }
        text::split_at_separator(front, '/', file);
        assert(text::split(path, '/') =~= pieces.push(file));
        one_more_component(pieces, file, pieces.len());
        assert(components(dir) == components_upto(pieces, pieces.len()));
        if text::starts_with(dir, "/"@) {
            assert(dir.subrange(0, 1)[0] == '/');
            assert(path.subrange(0, 1) =~= "/"@);
        }
        if text::starts_with(path, "/"@) {
            assert(path.subrange(0, 1)[0] == '/');
            assert(dir.subrange(0, 1) =~= "/"@);
        }
    }
}

/// The config called `name` in a directory is one that may be written there, under that
/// name, for every good name and every directory.
pub proof fn a_config_of_the_directory_is_a_target(dir: Seq<char>, name: Seq<char>)
    requires
        names::is_valid_name(name),
    ensures
        target_name(join(dir, name + ".conf"@), dir) == Some(name),
{
    reveal_strlit(".conf");
    reveal_strlit(".");
    reveal_strlit("..");
    let file = name + ".conf"@;
    names::valid_name_stays_in_its_directory(name);
    assert(!file.contains('/')) by {
        if file.contains('/') {
            let i = choose|i: int| 0 <= i < file.len() && file[i] == '/';
            if i < name.len() {
                assert(name.contains(name[i]));
            }
        }
    }
    file_in_directory(dir, file);
    let path = join(dir, file);
    assert(components(path).drop_last() =~= components(dir));
    assert(components(path).last() == file);
    assert(file.len() > 5);
    assert(file.subrange(file.len() - 5, file.len() as int) =~= ".conf"@);
    assert(file.subrange(0, file.len() - 5) =~= name);
}

/// Only a config directly in the directory may be written: its components are those of the
/// directory and a good name with `.conf` behind them, and it starts at the root exactly
/// where the directory does.
pub proof fn a_target_is_a_config_of_the_directory(path: Seq<char>, dir: Seq<char>)
    requires
        target_name(path, dir) is Some,
    ensures
        ({
            let name = target_name(path, dir)->0;
            &&& 0 < name.len() <= 64
            &&& names::is_valid_name(name)
            &&& components(path) == components(dir).push(name + ".conf"@)
            &&& text::starts_with(path, "/"@) == text::starts_with(dir, "/"@)
        }),
{
    let name = target_name(path, dir)->0;
    let c = components(path);
    let f = c.last();
    assert(f =~= f.subrange(0, f.len() - ".conf"@.len()) + ".conf"@);
    assert(c =~= c.drop_last().push(f));
}

/// A path is where it is found: the first of the paths that is the same, component by
/// component, and none only where none is.
pub proof fn the_first_same_path_is_found(all: Seq<Seq<char>>, path: Seq<char>)
    ensures
        match path_index(all, path) {
            Some(i) => {
                &&& 0 <= i < all.len()
                &&& is_absolute(all[i]) == is_absolute(path)
                &&& components(all[i]) == components(path)
                &&& forall|j: int| 0 <= j < i ==> !same_path(#[trigger] all[j], path)
            },
            None => !all.contains(path) && forall|j: int|
                0 <= j < all.len() ==> !same_path(#[trigger] all[j], path),
        },
    decreases all.len(),
{
    if all.len() > 0 {
        let t = all.drop_last();
        the_first_same_path_is_found(t, path);
        if let Some(i) = path_index(all, path) {
            assert forall|j: int| 0 <= j < i implies !same_path(#[trigger] all[j], path) by {
                assert(t[j] == all[j]);
            }
            if i < t.len() {
                assert(t[i] == all[i]);
            }
        } else {
            assert forall|j: int| 0 <= j < all.len() implies !same_path(
                #[trigger] all[j],
                path,
            ) by {
                if j < t.len() {
                    assert(t[j] == all[j]);
                }
            }
            if all.contains(path) {
                let j = choose|j: int| 0 <= j < all.len() && all[j] == path;
                assert(same_path(all[j], path));
            }
        }
    }
}

/// A relative argument is seen from the directory, with one slash between them; an absolute
/// one stands for itself. A file has the extension where something stands in front of it.
pub proof fn joining_keeps_absolute_paths(dir: Seq<char>, arg: Seq<char>)
    ensures
        arg.len() > 0 && arg[0] == '/' ==> join(dir, arg) == arg,
        (arg.len() == 0 || arg[0] != '/') && dir.len() > 0 && dir.last() == '/' ==> join(dir, arg)
            == dir + arg,
        (arg.len() == 0 || arg[0] != '/') && dir.len() > 0 && dir.last() != '/' ==> join(dir, arg)
            == dir.push('/') + arg,
        dir.len() == 0 ==> join(dir, arg) == arg,
        has_conf_extension(arg) <==> exists|stem: Seq<char>|
            stem.len() > 0 && arg == #[trigger] (stem + ".conf"@),
{
    reveal_strlit("/");
    reveal_strlit(".conf");
    if arg.len() > 0 && arg[0] == '/' {
        assert(arg.subrange(0, 1) =~= "/"@);
    }
    if text::starts_with(arg, "/"@) {
        assert(arg.subrange(0, 1)[0] == '/');
    }
    assert(dir + "/"@ + arg =~= dir.push('/') + arg);
    if has_conf_extension(arg) {
        let stem = arg.subrange(0, arg.len() - 5);
        assert(arg =~= stem + ".conf"@);
    }
    if exists|stem: Seq<char>| stem.len() > 0 && arg == #[trigger] (stem + ".conf"@) {
        assert(arg.subrange(arg.len() - 5, arg.len() as int) =~= ".conf"@);
    }
}

} // verus!
