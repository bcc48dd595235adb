use vstd::prelude::*;
use crate::text::{chars_of, string_from_chars, texts};
use crate::var_parser::slice_chars;
use crate::error_handler::ErrorType;
use crate::paths::{join_path, path_joined};

verus! {

/// Whether `c` has Unicode's White_Space property, as std's `char::is_whitespace`
/// says: U+0009 to U+000D, U+0020, U+0085, U+00A0, U+1680, U+2000 to U+200A,
/// U+2028, U+2029, U+202F, U+205F and U+3000.
pub open spec fn is_whitespace(c: char) -> bool {
    let u = c as u32;
    (0x9 <= u && u <= 0xd) || u == 0x20 || u == 0x85 || u == 0xa0 || u == 0x1680 || (0x2000 <= u
        && u <= 0x200a) || u == 0x2028 || u == 0x2029 || u == 0x202f || u == 0x205f || u == 0x3000
}

/// Whether `c` is white space, as std's `char::is_whitespace` decides it.
fn char_is_whitespace(c: char) -> (res: bool)
    ensures
        res == is_whitespace(c),
{
    let u = c as u32;
    (0x9 <= u && u <= 0xd) || u == 0x20 || u == 0x85 || u == 0xa0 || u == 0x1680 || (0x2000 <= u
        && u <= 0x200a) || u == 0x2028 || u == 0x2029 || u == 0x202f || u == 0x205f || u == 0x3000
}

/// The end of the run of white space of `s` that starts at `j`.
pub open spec fn space_run_end(s: Seq<char>, j: int) -> int
    decreases s.len() - j,
{
    if j < 0 || j >= s.len() || !is_whitespace(s[j]) {
        j
    } else {
        space_run_end(s, j + 1)
    }
}

/// The path that an import statement names: the line is `import`, white space,
/// then the path, which holds no white space and runs to the end of the line (the
/// pattern `^import\s+(\S+)$`). `None` for any other line.
pub open spec fn import_target(line: Seq<char>) -> Option<Seq<char>> {
    let j = space_run_end(line, 6);
    if line.len() > 6 && line.take(6) == "import"@ && j > 6 && j < line.len() && (forall|k: int|
        j <= k < line.len() ==> !is_whitespace(#[trigger] line[k])) {
        Some(line.skip(j))
    } else {
        None
    }
}

/// The paths that the import statements among the lines name, in order.
pub open spec fn import_targets(lines: Seq<Seq<char>>) -> Seq<Seq<char>>
    decreases lines.len(),
{
    if lines.len() == 0 {
        Seq::empty()
    } else {
        match import_target(lines.last()) {
            Some(t) => import_targets(lines.drop_last()).push(t),
            None => import_targets(lines.drop_last()),
        }
    }
}

/// The lines with each import statement blanked out.
pub open spec fn without_imports(lines: Seq<Seq<char>>) -> Seq<Seq<char>> {
    lines.map_values(|l: Seq<char>| if import_target(l) is Some { Seq::empty() } else { l })
}

/// Whether the first characters of `s` are `import`.
fn starts_with_import(s: &Vec<char>) -> (res: bool)
    ensures
        res == (s.len() >= 6 && s@.take(6) == "import"@),
{
    proof {
        reveal_strlit("import");
    }
    if s.len() < 6 {
        return false;
    }
    let res = s[0] == 'i' && s[1] == 'm' && s[2] == 'p' && s[3] == 'o' && s[4] == 'r' && s[5] == 't';
    if res {
        assert(s@.take(6) =~= "import"@);
    } else {
        assert(s@.take(6) != "import"@) by {
            if s@.take(6) == "import"@ {
                assert(s@.take(6)[0] == 'i');
                assert(s@.take(6)[1] == 'm');
                assert(s@.take(6)[2] == 'p');
                assert(s@.take(6)[3] == 'o');
                assert(s@.take(6)[4] == 'r');
                assert(s@.take(6)[5] == 't');
            }
        }
    }
    res
}

/// The path that an import statement names, if the line is one.
pub fn import_target_of(line: &str) -> (res: Option<String>)
    ensures
        match import_target(line@) {
            Some(t) => res matches Some(r) && r@ == t,
            None => res is None,
        },
{
    let s = chars_of(line);
    if !starts_with_import(&s) || s.len() == 6 {
        return None;
    }
    let mut j: usize = 6;
    while j < s.len() && char_is_whitespace(s[j])
        invariant
            6 <= j <= s.len(),
            space_run_end(s@, j as int) == space_run_end(s@, 6),
        decreases s.len() - j,
    {
        j = j + 1;
    }
    if j == 6 || j == s.len() {
        return None;
    }
    let mut k: usize = j;
    while k < s.len()
        invariant
            j <= k <= s.len(),
            s@ == line@,
            j == space_run_end(s@, 6),
            forall|m: int| j <= m < k ==> !is_whitespace(#[trigger] s@[m]),
        decreases s.len() - k,
    {
        if char_is_whitespace(s[k]) {
            assert(is_whitespace(line@[k as int]));
            return None;
        }
        k = k + 1;
    }
    Some(string_from_chars(&slice_chars(&s, j, s.len())))
}

/// Removes the import statements from `content` (each becomes an empty line) and
/// returns the paths that they name, in order.
pub fn take_imports(content: &mut Vec<String>) -> (res: Vec<String>)
    ensures
        texts(res@) == import_targets(texts(old(content)@)),
        texts(final(content)@) == without_imports(texts(old(content)@)),
{
    let ghost lines = texts(content@);
    let mut targets: Vec<String> = Vec::new();
    let mut i: usize = 0;
    assert(lines.take(0) =~= Seq::<Seq<char>>::empty());
    while i < content.len()
        invariant
            i <= content.len(),
            content.len() == lines.len(),
            lines == texts(old(content)@),
            texts(targets@) == import_targets(lines.take(i as int)),
            forall|k: int| 0 <= k < i ==> #[trigger] content@[k]@ == without_imports(lines)[k],
            forall|k: int| i <= k < content.len() ==> #[trigger] content@[k]@ == lines[k],
        decreases content.len() - i,
    {
        assert(lines.take(i + 1).drop_last() =~= lines.take(i as int));
        match import_target_of(content[i].as_str()) {
            Some(t) => {
                let ghost before = texts(targets@);
                targets.push(t);
                assert(texts(targets@) =~= before.push(t@));
                content.set(i, String::new());
            },
            None => {},
        }
        i = i + 1;
    }
    assert(lines.take(lines.len() as int) =~= lines);
    assert(texts(content@) =~= without_imports(lines));
    targets
}

/// The path at which the file that an import names is looked for: the path of
/// the import joined onto the directory of the importing file.
pub fn import_candidate(dir: &str, target: &str) -> (res: String)
    ensures
        res@ == path_joined(dir@, target@),
        target@.len() > 0 && target@[0] == '/' ==> res@ == target@,
        dir@.len() > 0 && dir@.last() != '/' && !(target@.len() > 0 && target@[0] == '/') ==> res@
            == dir@ + seq!['/'] + target@,
{
    join_path(dir, target)
}

/// The file that an import names, from what the disk says of its candidate path:
/// the absolute path that it resolves to (`None` where it cannot be resolved) and
/// whether that path exists. An import whose file cannot be found is refused.
pub fn resolve_import(resolved: Option<String>, exists: bool) -> (res: Result<String, ErrorType>)
    ensures
        match resolved {
            Some(p) if exists => res matches Ok(q) && q@ == p@,
            _ => res == Err::<String, ErrorType>(ErrorType::Parse("Can not find file/directory")),
        },
{
    match resolved {
        Some(p) => {
            if exists {
                Ok(p)
            } else {
                Err(ErrorType::Parse("Can not find file/directory"))
            }
        },
        None => Err(ErrorType::Parse("Can not find file/directory")),
    }
}

} // verus!
