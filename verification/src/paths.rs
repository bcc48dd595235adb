use vstd::prelude::*;
use vstd::string::StringExecFns;
use crate::error_handler::ErrorType;
use crate::text::{chars_of, texts, contains_text};
use crate::var_parser::last_index_from;

verus! {

// The paths of this module are Unix paths: `/` is the only separator, and a path
// that starts with it is absolute.

/// The path that std's `Path::join` makes of `base` and `part`.
pub uninterp spec fn path_joined(base: Seq<char>, part: Seq<char>) -> Seq<char>;

/// The final component of a path as std's `Path::file_name` finds it.
pub uninterp spec fn path_file_name(path: Seq<char>) -> Option<Seq<char>>;

/// The path that std's `Path::with_extension` makes of `path` and `extension`.
pub uninterp spec fn path_with_extension(path: Seq<char>, extension: Seq<char>) -> Seq<char>;

/// Whether `c` has Unicode's Uppercase property, as std's `char::is_uppercase` says.
pub uninterp spec fn is_uppercase(c: char) -> bool;

/// Joins `part` onto the path `base` with std's `Path::join`. The contract states
/// what std documents for Unix: a `part` that starts with `/` is absolute and
/// replaces `base`; a relative part extends the path, after a separator (std's
/// example: `/tmp` and `file.bk` give `/tmp/file.bk`). A base that is empty or
/// already ends in `/` is not described there, and its join is not stated.
#[verifier::external_body]
pub(crate) fn join_path(base: &str, part: &str) -> (res: String)
    ensures
        res@ == path_joined(base@, part@),
        part@.len() > 0 && part@[0] == '/' ==> res@ == part@,
        base@.len() > 0 && base@.last() != '/' && !(part@.len() > 0 && part@[0] == '/') ==> res@
            == base@ + seq!['/'] + part@,
{
    std::path::Path::new(base).join(part).to_string_lossy().into_owned()
}

/// The final component of the path, with std's `Path::file_name`; `None` where
/// the path has none (it ends in `..`, or it is a root or empty). A component
/// holds no separator `/`.
#[verifier::external_body]
fn file_name(path: &str) -> (res: Option<String>)
    ensures
        res is Some <==> path_file_name(path@) is Some,
        res matches Some(n) ==> n@ == path_file_name(path@)->0,
        res matches Some(n) ==> !n@.contains('/'),
{
    std::path::Path::new(path).file_name().map(|n| n.to_string_lossy().into_owned())
}

/// The path with its extension replaced by `extension`, with std's
/// `Path::with_extension`; std panics on an extension that holds a separator.
#[verifier::external_body]
fn with_extension(path: &str, extension: &str) -> (res: String)
    requires
        !extension@.contains('/'),
    ensures
        res@ == path_with_extension(path@, extension@),
{
    std::path::Path::new(path).with_extension(extension).to_string_lossy().into_owned()
}

/// Whether something exists on disk at the path, with std's `Path::exists`. The
/// answer depends on the disk at the time of the call: nothing is stated of it.
#[verifier::external_body]
pub(crate) fn path_exists(path: &str) -> bool {
    std::path::Path::new(path).exists()
}

/// Whether `c` is uppercase, with std's `char::is_uppercase`; among the ASCII
/// characters the uppercase ones are `A` to `Z`.
#[verifier::external_body]
fn char_is_uppercase(c: char) -> (res: bool)
    ensures
        res == is_uppercase(c),
        (c as u32) < 128 ==> (res <==> ('A' <= c && c <= 'Z')),
{
    c.is_uppercase()
}

/// The index of the final `.` of a file name, or -1 where there is none.
pub open spec fn last_dot(name: Seq<char>) -> int {
    last_index_from(name, '.', 0)
}

/// The stem of a file name, as std documents `Path::file_stem`: the whole name
/// where it holds no `.` or its only `.` comes first (and for `..`), else the part
/// before the final `.`.
pub open spec fn stem_of(name: Seq<char>) -> Seq<char> {
    if name == seq!['.', '.'] || last_dot(name) <= 0 {
        name
    } else {
        name.take(last_dot(name))
    }
}

/// The extension of a file name, as std documents `Path::extension`: none where
/// the name holds no `.` or its only `.` comes first (and for `..`), else the part
/// after the final `.`.
pub open spec fn extension_of(name: Seq<char>) -> Option<Seq<char>> {
    if name == seq!['.', '.'] || last_dot(name) <= 0 {
        None
    } else {
        Some(name.skip(last_dot(name) + 1))
    }
}

/// The file name of a path without its extension, if the path has a file name.
pub open spec fn name_of_path(path: Seq<char>) -> Option<Seq<char>> {
    match path_file_name(path) {
        Some(n) => Some(stem_of(n)),
        None => None,
    }
}

/// The extension of the file name of a path, if it has one.
pub open spec fn extension_of_path(path: Seq<char>) -> Option<Seq<char>> {
    match path_file_name(path) {
        Some(n) => extension_of(n),
        None => None,
    }
}

/// The index of the final `.` of a file name, if there is one.
fn find_last_dot(name: &Vec<char>) -> (res: Option<usize>)
    ensures
        res matches Some(d) ==> last_dot(name@) == d && d < name.len(),
        res is None ==> last_dot(name@) == -1,
{
    let mut k: usize = name.len();
    assert(name@.take(k as int) =~= name@);
    while k > 0
        invariant
            k <= name.len(),
            last_index_from(name@.take(k as int), '.', 0) == last_dot(name@),
        decreases k,
    {
        if name[k - 1] == '.' {
            return Some(k - 1);
        }
        assert(name@.take(k as int).drop_last() =~= name@.take(k - 1));
        k = k - 1;
    }
    None
}

/// Whether the characters are exactly `..`.
fn is_dot_dot(name: &Vec<char>) -> (res: bool)
    ensures
        res == (name@ == seq!['.', '.']),
{
    if name.len() == 2 && name[0] == '.' && name[1] == '.' {
        assert(name@ =~= seq!['.', '.']);
        true
    } else {
        false
    }
}

/// Returns the file name of the path without its extension; `None` where the path
/// has no file name.
pub fn get_name(path: &str) -> (res: Option<String>)
    ensures
        res is Some <==> name_of_path(path@) is Some,
        res matches Some(n) ==> n@ == name_of_path(path@)->0,
{
    match file_name(path) {
        None => None,
        Some(name) => {
            let chars = chars_of(name.as_str());
            if is_dot_dot(&chars) {
                return Some(name);
            }
            match find_last_dot(&chars) {
                Some(d) => {
                    if d == 0 {
                        Some(name)
                    } else {
                        Some(crate::text::string_from_chars(&crate::var_parser::slice_chars(&chars, 0, d)))
                    }
                },
                None => Some(name),
            }
        },
    }
}

/// The extension of the file name of the path, if it has one.
pub fn get_extension(path: &str) -> (res: Option<String>)
    ensures
        res is Some <==> extension_of_path(path@) is Some,
        res matches Some(e) ==> e@ == extension_of_path(path@)->0,
        res matches Some(e) ==> !e@.contains('/'),
{
    match file_name(path) {
        None => None,
        Some(name) => {
            let chars = chars_of(name.as_str());
            if is_dot_dot(&chars) {
                return None;
            }
            match find_last_dot(&chars) {
                Some(d) => {
                    if d == 0 {
                        None
                    } else {
                        let e = crate::var_parser::slice_chars(&chars, d + 1, chars.len());
                        proof {
                            lemma_no_char_subrange(chars@, '/', d + 1, chars.len() as int);
                        }
                        Some(crate::text::string_from_chars(&e))
                    }
                },
                None => None,
            }
        },
    }
}

/// Returns true if the first character of the file name is an uppercase letter:
/// such a file is a component, the others are pages.
pub fn is_component(filename: String) -> (res: bool)
    ensures
        res == (filename@.len() > 0 && is_uppercase(filename@[0])),
        filename@.len() > 0 && (filename@[0] as u32) < 128 ==> (res <==> ('A' <= filename@[0]
            && filename@[0] <= 'Z')),
{
    let chars = chars_of(filename.as_str());
    if chars.len() == 0 {
        false
    } else {
        char_is_uppercase(chars[0])
    }
}

/// What a file of the source directory is.
#[derive(Debug, Clone, Copy, PartialEq, Eq, Structural)]
pub enum FileKind {
    /// An HTML file whose name starts with a letter that is not uppercase.
    Page,
    /// An HTML file whose name starts with an uppercase letter.
    Component,
    /// A file with another extension, copied as it is.
    Asset,
}

/// Sorts a file (not a directory) of the source directory: a file whose extension
/// is other than `html` is an asset; else its name decides between component and
/// page. A file without a name is refused.
pub fn classify_file(path: &str) -> (res: Result<FileKind, ErrorType>)
    ensures
        match extension_of_path(path@) {
            Some(e) if e != "html"@ => res == Ok::<FileKind, ErrorType>(FileKind::Asset),
            _ => match name_of_path(path@) {
                None => res == Err::<FileKind, ErrorType>(
                    ErrorType::WorkDir("Can not convert filename to string"),
                ),
                Some(n) => res == Ok::<FileKind, ErrorType>(
                    if n.len() > 0 && is_uppercase(n[0]) {
                        FileKind::Component
                    } else {
                        FileKind::Page
                    },
                ),
            },
        },
        name_of_path(path@) matches Some(n) ==> (res matches Ok(k) ==> (k != FileKind::Asset
            && n.len() > 0 && (n[0] as u32) < 128 ==> (k == FileKind::Component <==> ('A' <= n[0]
            && n[0] <= 'Z')))),
{
    match get_extension(path) {
        Some(ext) => {
            if !(ext == String::from_str("html")) {
                return Ok(FileKind::Asset);
            }
        },
        None => {},
    }
    match get_name(path) {
        Some(filename) => {
            if is_component(filename) {
                Ok(FileKind::Component)
            } else {
                Ok(FileKind::Page)
            }
        },
        None => Err(ErrorType::WorkDir("Can not convert filename to string")),
    }
}

/// Characters that a sequence lacks are lacking in each of its slices.
pub proof fn lemma_no_char_subrange(s: Seq<char>, c: char, a: int, b: int)
    requires
        0 <= a <= b <= s.len(),
        !s.contains(c),
    ensures
        !s.subrange(a, b).contains(c),
{
    if s.subrange(a, b).contains(c) {
        let k = choose|k: int| 0 <= k < b - a && s.subrange(a, b)[k] == c;
        assert(s[a + k] == c);
    }
}

/// A concatenation lacks the characters that both parts lack.
pub proof fn lemma_no_char_concat(x: Seq<char>, y: Seq<char>, c: char)
    requires
        !x.contains(c),
        !y.contains(c),
    ensures
        !(x + y).contains(c),
{
    if (x + y).contains(c) {
        let k = choose|k: int| 0 <= k < (x + y).len() && (x + y)[k] == c;
        if k < x.len() {
            assert(x[k] == c);
        } else {
            assert(y[k - x.len()] == c);
        }
    }
}

/// Adds `extension` after the extension that the path has already (`a.min` and
/// `js` give `a.min.js`), or gives the path that extension where it has none. An
/// extension holds no separator `/` (std panics on one).
pub fn add_extension(path: &mut String, extension: &str)
    requires
        !extension@.contains('/'),
    ensures
        final(path)@ == path_with_extension(
            old(path)@,
            match extension_of_path(old(path)@) {
                Some(e) => e + "."@ + extension@,
                None => extension@,
            },
        ),
{
    let new_path = match get_extension(path.as_str()) {
        Some(ext) => {
            let full = ext.concat(".").concat(extension);
            proof {
                reveal_strlit(".");
                assert(!"."@.contains('/')) by {
                    if "."@.contains('/') {
                        let k = choose|k: int| 0 <= k < "."@.len() && "."@[k] == '/';
                        assert("."@[0] == '.');
                    }
                }
                lemma_no_char_concat(ext@, "."@, '/');
                lemma_no_char_concat(ext@ + "."@, extension@, '/');
            }
            with_extension(path.as_str(), full.as_str())
        },
        None => with_extension(path.as_str(), extension),
    };
    *path = new_path;
}

/// The path in the build directory to which a page is written: `<page_name>.html`
/// joined onto the build directory.
pub fn page_output_path(build_dir: &str, page_name: &str) -> (res: String)
    ensures
        res@ == path_joined(build_dir@, page_name@ + ".html"@),
        build_dir@.len() > 0 && build_dir@.last() != '/' && !(page_name@.len() > 0 && page_name@[0]
            == '/') ==> res@ == build_dir@ + seq!['/'] + page_name@ + ".html"@,
{
    let file = String::from_str(page_name).concat(".html");
    proof {
        reveal_strlit(".html");
        if page_name@.len() == 0 {
            assert(file@[0] == '.');
        } else {
            assert(file@[0] == page_name@[0]);
        }
        assert(build_dir@ + seq!['/'] + file@ =~= build_dir@ + seq!['/'] + page_name@ + ".html"@);
    }
    join_path(build_dir, file.as_str())
}

/// The path in the build directory to which an asset is copied: its name joined
/// onto the build directory, with its extension added back. `None` where the
/// asset has no name or no extension.
pub fn asset_output_path(build_dir: &str, asset: &str) -> (res: Option<String>)
    ensures
        match (name_of_path(asset@), extension_of_path(asset@)) {
            (Some(n), Some(e)) => res matches Some(p) && p@ == path_with_extension(
                path_joined(build_dir@, n),
                match extension_of_path(path_joined(build_dir@, n)) {
                    Some(e2) => e2 + "."@ + e,
                    None => e,
                },
            ),
            _ => res is None,
        },
{
    match (get_name(asset), get_extension(asset)) {
        (Some(name), Some(ext)) => {
            let mut p = join_path(build_dir, name.as_str());
            add_extension(&mut p, ext.as_str());
            Some(p)
        },
        _ => None,
    }
}

/// The component paths, in order, whose name is not among the names `used`.
pub open spec fn unused_of(components: Seq<Seq<char>>, used: Seq<Seq<char>>) -> Seq<Seq<char>>
    decreases components.len(),
{
    if components.len() == 0 {
        Seq::empty()
    } else {
        let rest = unused_of(components.drop_last(), used);
        if used.contains(name_of_path(components.last())->0) {
            rest
        } else {
            rest.push(components.last())
        }
    }
}

/// The components, among the paths given, whose name is not among the names of
/// the components that the pages use: the unused components.
pub fn unused_components(components: &Vec<String>, used: &Vec<String>) -> (res: Vec<String>)
    requires
        forall|i: int| 0 <= i < components.len() ==> name_of_path(#[trigger] components@[i]@) is Some,
    ensures
        texts(res@) == unused_of(texts(components@), texts(used@)),
{
    let ghost paths = texts(components@);
    let mut res: Vec<String> = Vec::new();
    let mut i: usize = 0;
    assert(paths.take(0) =~= Seq::<Seq<char>>::empty());
    while i < components.len()
        invariant
            i <= components.len(),
            paths == texts(components@),
            forall|i: int| 0 <= i < components.len() ==> name_of_path(#[trigger] components@[i]@) is Some,
            texts(res@) == unused_of(paths.take(i as int), texts(used@)),
        decreases components.len() - i,
    {
        assert(paths.take(i + 1).drop_last() =~= paths.take(i as int));
        assert(paths.take(i + 1).last() == components@[i as int]@);
        let name = get_name(components[i].as_str());
        match name {
            Some(n) => {
                if !contains_text(used, &n) {
                    let ghost before = texts(res@);
                    res.push(components[i].clone());
                    assert(texts(res@) =~= before.push(components@[i as int]@));
                }
            },
            None => {},
        }
        i = i + 1;
    }
    assert(paths.take(components.len() as int) =~= paths);
    res
}

/// The unused components, where each path given has a name (see
/// `unused_components`); `None` where one has none.
pub fn find_unused_components(components: &Vec<String>, used: &Vec<String>) -> (res: Option<
    Vec<String>,
>)
    ensures
        (forall|i: int| 0 <= i < components.len() ==> name_of_path(#[trigger] components@[i]@) is Some)
            ==> (res matches Some(v) && texts(v@) == unused_of(texts(components@), texts(used@))),
        !(forall|i: int| 0 <= i < components.len() ==> name_of_path(#[trigger] components@[i]@) is Some)
            ==> res is None,
{
    let mut i: usize = 0;
    while i < components.len()
        invariant
            i <= components.len(),
            forall|k: int| 0 <= k < i ==> name_of_path(#[trigger] components@[k]@) is Some,
        decreases components.len() - i,
    {
        if get_name(components[i].as_str()).is_none() {
            return None;
        }
        i = i + 1;
    }
    Some(unused_components(components, used))
}

/// A component path is listed as unused exactly when it is one of the paths given
/// and its name is not among the used names, wherever that name stands among them.
pub proof fn law_unused_membership(components: Seq<Seq<char>>, used: Seq<Seq<char>>, p: Seq<char>)
    ensures
        unused_of(components, used).contains(p) <==> (components.contains(p) && !used.contains(
            name_of_path(p)->0,
        )),
    decreases components.len(),
{
    if components.len() > 0 {
        let rest = components.drop_last();
        law_unused_membership(rest, used, p);
        assert(components =~= rest.push(components.last()));
        let r = unused_of(rest, used);
        if components.contains(p) {
            let k = choose|k: int| 0 <= k < components.len() && components[k] == p;
            if k < components.len() - 1 {
                assert(rest[k] == p);
                assert(rest.contains(p));
            }
        }
        if rest.contains(p) {
            let k = choose|k: int| 0 <= k < rest.len() && rest[k] == p;
            assert(components[k] == p);
        }
        if !used.contains(name_of_path(components.last())->0) {
            let r2 = r.push(components.last());
            assert(r2[r.len() as int] == components.last());
            if r.contains(p) {
                let k = choose|k: int| 0 <= k < r.len() && r[k] == p;
                assert(r2[k] == p);
            }
            if r2.contains(p) {
                let k = choose|k: int| 0 <= k < r2.len() && r2[k] == p;
                if k < r.len() {
                    assert(r[k] == p);
                }
            }
        }
        assert(components[components.len() - 1] == components.last());
    }
}

/// Which components are unused does not depend on the order of the used names,
/// nor on names given twice: two lists of used names with the same names give the
/// same result.
pub proof fn law_unused_order(components: Seq<Seq<char>>, used1: Seq<Seq<char>>, used2: Seq<Seq<char>>)
    requires
        forall|x: Seq<char>| used1.contains(x) <==> used2.contains(x),
    ensures
        unused_of(components, used1) == unused_of(components, used2),
    decreases components.len(),
{
    if components.len() > 0 {
        law_unused_order(components.drop_last(), used1, used2);
        assert(used1.contains(name_of_path(components.last())->0) == used2.contains(
            name_of_path(components.last())->0,
        ));
    }
}

} // verus!
