use vstd::prelude::*;
use crate::error_handler::ErrorType;
use crate::table::{find_key, distinct_keys, lookup_key, insert_key, lemma_find_key, lemma_find_key_unique, lemma_insert_key_distinct, key_index};
use crate::text::{chars_of, string_from_chars, replace_all, replace_all_chars};

verus! {

/// A variable definition: its name and its value.
pub type EntryView = (Seq<char>, Seq<char>);

/// Defines each entry of `more`, in order, on top of `es`.
pub open spec fn extend_entries(es: Seq<EntryView>, more: Seq<EntryView>) -> Seq<EntryView>
    decreases more.len(),
{
    if more.len() == 0 {
        es
    } else {
        let base = extend_entries(es, more.drop_last());
        insert_key(base, more.last().0, more.last().1)
    }
}

/// The text by which a variable is used: its name in round brackets.
pub open spec fn reference(name: Seq<char>) -> Seq<char> {
    seq!['('] + name + seq![')']
}

/// `s` with the references to each variable replaced by its value, the variables
/// taken in the order of the entries.
pub open spec fn replace_vars(s: Seq<char>, es: Seq<EntryView>) -> Seq<char>
    decreases es.len(),
{
    if es.len() == 0 {
        s
    } else {
        replace_all(replace_vars(s, es.drop_last()), reference(es.last().0), es.last().1)
    }
}

/// A character that may stand in a variable name: `[a-zA-Z0-9_-]`.
pub open spec fn is_name_char(c: char) -> bool {
    ('a' <= c && c <= 'z') || ('A' <= c && c <= 'Z') || ('0' <= c && c <= '9') || c == '_'
        || c == '-'
}

/// The end of the run of name characters of `s` that starts at `j`.
pub open spec fn name_run_end(s: Seq<char>, j: int) -> int
    decreases s.len() - j,
{
    if j < 0 || j >= s.len() || !is_name_char(s[j]) {
        j
    } else {
        name_run_end(s, j + 1)
    }
}

/// The index of the last `c` in `s` at or after `lo`, or -1 where there is none.
pub open spec fn last_index_from(s: Seq<char>, c: char, lo: int) -> int
    decreases s.len(),
{
    if s.len() == 0 || s.len() <= lo {
        -1
    } else if s.last() == c {
        s.len() - 1
    } else {
        last_index_from(s.drop_last(), c, lo)
    }
}

/// The definition `{name||value}` that starts at index `i` of `s`, if one does.
/// The name is the longest run of name characters after `{` and may be empty;
/// `||` follows it; the value runs up to the last `}` of `s` and is not empty.
pub open spec fn definition_at(s: Seq<char>, i: int) -> Option<EntryView> {
    if 0 <= i < s.len() && s[i] == '{' {
        let j = name_run_end(s, i + 1);
        if j + 1 < s.len() && s[j] == '|' && s[j + 1] == '|' {
            let e = last_index_from(s, '}', j + 3);
            if e >= 0 {
                Some((s.subrange(i + 1, j), s.subrange(j + 2, e)))
            } else {
                None
            }
        } else {
            None
        }
    } else {
        None
    }
}

/// The leftmost definition of `s` that starts at or after `i`.
pub open spec fn definition_from(s: Seq<char>, i: int) -> Option<EntryView>
    decreases s.len() - i,
{
    if i < 0 || i >= s.len() {
        None
    } else {
        match definition_at(s, i) {
            Some(d) => Some(d),
            None => definition_from(s, i + 1),
        }
    }
}

/// The definition that a line holds: its leftmost one, as the pattern
/// `\{([a-zA-Z0-9_-]*)\|\|([\s\S]+)\}` finds it.
pub open spec fn line_definition(line: Seq<char>) -> Option<EntryView> {
    definition_from(line, 0)
}

/// The variables that the lines define, a later definition overriding an earlier
/// one; `Err` where a line defines a variable with an empty name.
pub open spec fn definitions_of(lines: Seq<Seq<char>>) -> Result<Seq<EntryView>, ()>
    decreases lines.len(),
{
    if lines.len() == 0 {
        Ok(Seq::empty())
    } else {
        match definitions_of(lines.drop_last()) {
            Err(()) => Err(()),
            Ok(es) => match line_definition(lines.last()) {
                None => Ok(es),
                Some(d) => if d.0.len() == 0 {
                    Err(())
                } else {
                    Ok(insert_key(es, d.0, d.1))
                },
            },
        }
    }
}

/// The entries of a vector of name and value pairs, as text.
pub open spec fn entries_view(v: Seq<(String, String)>) -> Seq<EntryView> {
    v.map_values(|e: (String, String)| (e.0@, e.1@))
}

/// The index of the first entry named `name`, if there is one.
fn entry_index(entries: &Vec<(String, String)>, name: &String) -> (res: Option<usize>)
    ensures
        res matches Some(i) ==> find_key(entries_view(entries@), name@) == i && i < entries@.len(),
        res is None ==> find_key(entries_view(entries@), name@) == -1,
{
    let res = key_index(entries, name);
    proof {
        let es = entries_view(entries@);
        assert forall|k: int| 0 <= k < es.len() implies #[trigger] es[k].0 == entries@[k].0@ by {}
        match res {
            Some(i) => lemma_find_key_unique(es, name@, i as int),
            None => lemma_find_key_unique(es, name@, -1),
        }
    }
    res
}

/// A set of variables and their values, each name defined once.
pub struct Variables {
    entries: Vec<(String, String)>,
}

impl View for Variables {
    type V = Seq<EntryView>;

    closed spec fn view(&self) -> Seq<EntryView> {
        entries_view(self.entries@)
    }
}

impl Variables {
    #[verifier::type_invariant]
    spec fn names_distinct(self) -> bool {
        distinct_keys(self@)
    }

    /// No variables.
    pub fn new() -> (res: Variables)
        ensures
            res@ == Seq::<EntryView>::empty(),
    {
        let res = Variables { entries: Vec::new() };
        assert(res@ =~= Seq::<EntryView>::empty());
        res
    }

    /// The number of variables.
    pub fn len(&self) -> (res: usize)
        ensures
            res == self@.len(),
    {
        self.entries.len()
    }

    /// The value of the variable named `name`, if there is one.
    pub fn get(&self, name: &str) -> (res: Option<String>)
        ensures
            res matches Some(v) ==> lookup_key(self@, name@) == Some(v@),
            res is None ==> lookup_key(self@, name@) is None,
    {
        let key = string_from_chars(&chars_of(name));
        proof {
            lemma_find_key(self@, name@);
        }
        match entry_index(&self.entries, &key) {
            Some(i) => {
                assert(self@[i as int].1 == self.entries@[i as int].1@);
                Some(self.entries[i].1.clone())
            },
            None => None,
        }
    }

    /// Defines `name` as `value`, overriding an earlier definition of `name`.
    pub fn insert(&mut self, name: String, value: String)
        ensures
            final(self)@ == insert_key(old(self)@, name@, value@),
    {
        proof {
            use_type_invariant(&*self);
            lemma_insert_key_distinct(self@, name@, value@);
        }
        let ghost target = insert_key(self@, name@, value@);
        proof {
            lemma_find_key(self@, name@);
        }
        let mut entries: Vec<(String, String)> = Vec::new();
        std::mem::swap(&mut entries, &mut self.entries);
        match entry_index(&entries, &name) {
            Some(i) => {
                entries.set(i, (name, value));
            },
            None => {
                entries.push((name, value));
            },
        }
        assert(entries_view(entries@) =~= target);
        self.entries = entries;
    }

    /// Defines each variable of `more`, in its order, on top of these.
    pub fn extend(&mut self, more: &Variables)
        ensures
            final(self)@ == extend_entries(old(self)@, more@),
    {
        let mut i: usize = 0;
        assert(more@.take(0) =~= Seq::<EntryView>::empty());
        while i < more.entries.len()
            invariant
                i <= more.entries.len(),
                more@.len() == more.entries.len(),
                self@ == extend_entries(old(self)@, more@.take(i as int)),
            decreases more.entries.len() - i,
        {
            assert(more@.take(i + 1).drop_last() =~= more@.take(i as int));
            assert(more@[i as int] == (more.entries@[i as int].0@, more.entries@[i as int].1@));
            let name = more.entries[i].0.clone();
            let value = more.entries[i].1.clone();
            self.insert(name, value);
            i = i + 1;
        }
        assert(more@.take(more.entries.len() as int) =~= more@);
    }

    /// A copy of these variables.
    pub fn duplicate(&self) -> (res: Variables)
        ensures
            res@ == self@,
    {
        proof {
            use_type_invariant(self);
        }
        let res = Variables { entries: self.entries() };
        res
    }

    /// The name and value of each variable, in order.
    pub fn entries(&self) -> (res: Vec<(String, String)>)
        ensures
            entries_view(res@) == self@,
    {
        let mut res: Vec<(String, String)> = Vec::new();
        let mut i: usize = 0;
        while i < self.entries.len()
            invariant
                i <= self.entries.len(),
                entries_view(res@) == self@.take(i as int),
                res@.len() == i,
                self@.len() == self.entries.len(),
            decreases self.entries.len() - i,
        {
            assert(self@[i as int] == (self.entries@[i as int].0@, self.entries@[i as int].1@));
            let name = self.entries[i].0.clone();
            let value = self.entries[i].1.clone();
            let ghost before = res@;
            res.push((name, value));
            i = i + 1;
            assert(res@ == before.push(res@.last()));
            assert forall|k: int| 0 <= k < i implies #[trigger] entries_view(res@)[k]
                == self@.take(i as int)[k] by {
                if k < i - 1 {
                    assert(res@[k] == before[k]);
                }
            }
            assert(entries_view(res@) =~= self@.take(i as int));
        }
        assert(self@.take(self.entries.len() as int) =~= self@);
        res
    }
}

/// The text of each line.
pub open spec fn lines_view(lines: Seq<&str>) -> Seq<Seq<char>> {
    lines.map_values(|l: &str| l@)
}

/// Whether `c` may stand in a variable name.
fn name_char(c: char) -> (res: bool)
    ensures
        res == is_name_char(c),
{
    ('a' <= c && c <= 'z') || ('A' <= c && c <= 'Z') || ('0' <= c && c <= '9') || c == '_'
        || c == '-'
}

/// The characters of `s` from index `a` up to, not including, `b`.
pub fn slice_chars(s: &Vec<char>, a: usize, b: usize) -> (res: Vec<char>)
    requires
        a <= b <= s.len(),
    ensures
        res@ == s@.subrange(a as int, b as int),
{
    let mut res: Vec<char> = Vec::new();
    let mut k: usize = a;
    while k < b
        invariant
            a <= k <= b <= s.len(),
            res@ == s@.subrange(a as int, k as int),
        decreases b - k,
    {
        res.push(s[k]);
        k = k + 1;
        assert(res@ =~= s@.subrange(a as int, k as int));
    }
    res
}

/// The end of the run of name characters that starts at `j`.
fn run_end(s: &Vec<char>, j: usize) -> (res: usize)
    requires
        j <= s.len(),
    ensures
        res == name_run_end(s@, j as int),
        j <= res <= s.len(),
{
    let mut k = j;
    while k < s.len() && name_char(s[k])
        invariant
            j <= k <= s.len(),
            name_run_end(s@, k as int) == name_run_end(s@, j as int),
        decreases s.len() - k,
    {
        k = k + 1;
    }
    k
}

/// The index of the last `c` of `s` at or after `lo`, if there is one.
fn last_index(s: &Vec<char>, c: char, lo: usize) -> (res: Option<usize>)
    ensures
        res matches Some(e) ==> last_index_from(s@, c, lo as int) == e && lo <= e < s.len(),
        res is None ==> last_index_from(s@, c, lo as int) == -1,
{
    let mut k: usize = s.len();
    assert(s@.take(k as int) =~= s@);
    while k > lo && k > 0
        invariant
            k <= s.len(),
            last_index_from(s@.take(k as int), c, lo as int) == last_index_from(s@, c, lo as int),
        decreases k,
    {
        if s[k - 1] == c {
            return Some(k - 1);
        }
        assert(s@.take(k as int).drop_last() =~= s@.take(k - 1));
        k = k - 1;
    }
    None
}

/// The definition that starts at index `i` of `s`, if one does.
fn definition_at_exec(s: &Vec<char>, i: usize) -> (res: Option<(Vec<char>, Vec<char>)>)
    requires
        i < s.len(),
    ensures
        match definition_at(s@, i as int) {
            Some(d) => res matches Some(r) && r.0@ == d.0 && r.1@ == d.1,
            None => res is None,
        },
{
    if s[i] != '{' {
        return None;
    }
    let j = run_end(s, i + 1);
    if s.len() - j >= 2 && s[j] == '|' && s[j + 1] == '|' {
        if s.len() - j == 2 {
            return None;
        }
        match last_index(s, '}', j + 3) {
            Some(e) => Some((slice_chars(s, i + 1, j), slice_chars(s, j + 2, e))),
            None => None,
        }
    } else {
        None
    }
}

/// The definition that a line holds, if any.
pub fn line_definition_exec(s: &Vec<char>) -> (res: Option<(Vec<char>, Vec<char>)>)
    ensures
        match line_definition(s@) {
            Some(d) => res matches Some(r) && r.0@ == d.0 && r.1@ == d.1,
            None => res is None,
        },
{
    let mut i: usize = 0;
    while i < s.len()
        invariant
            i <= s.len(),
            definition_from(s@, i as int) == line_definition(s@),
        decreases s.len() - i,
    {
        match definition_at_exec(s, i) {
            Some(d) => {
                return Some(d);
            },
            None => {},
        }
        i = i + 1;
    }
    None
}

/// A prefix whose definitions fail makes the whole fail.
proof fn lemma_definitions_err(lines: Seq<Seq<char>>, k: int)
    requires
        0 <= k <= lines.len(),
        definitions_of(lines.take(k)) is Err,
    ensures
        definitions_of(lines) is Err,
    decreases lines.len(),
{
    if k < lines.len() {
        assert(lines.drop_last().take(k) =~= lines.take(k));
        lemma_definitions_err(lines.drop_last(), k);
    } else {
        assert(lines.take(k) =~= lines);
    }
}

/// The variables that lines of characters define; `Err` where a line defines a
/// variable with an empty name.
pub fn definitions_of_lines(lines: &Vec<Vec<char>>) -> (res: Result<Variables, ErrorType>)
    ensures
        match definitions_of(lines@.map_values(|l: Vec<char>| l@)) {
            Ok(es) => res matches Ok(v) && v@ == es,
            Err(_) => res matches Err(e) && e == ErrorType::Parse("Empty variable name"),
        },
{
    let ghost ls = lines@.map_values(|l: Vec<char>| l@);
    let mut vars = Variables::new();
    let mut i: usize = 0;
    assert(ls.take(0) =~= Seq::<Seq<char>>::empty());
    while i < lines.len()
        invariant
            i <= lines.len(),
            ls == lines@.map_values(|l: Vec<char>| l@),
            definitions_of(ls.take(i as int)) == Ok::<Seq<EntryView>, ()>(vars@),
        decreases lines.len() - i,
    {
        assert(ls.take(i + 1).drop_last() =~= ls.take(i as int));
        assert(lines[i as int]@ == ls.take(i + 1).last());
        match line_definition_exec(&lines[i]) {
            None => {},
            Some(d) => {
                if d.0.len() == 0 {
                    proof {
                        lemma_definitions_err(ls, i + 1);
                    }
                    return Err(ErrorType::Parse("Empty variable name"));
                }
                vars.insert(string_from_chars(&d.0), string_from_chars(&d.1));
            },
        }
        i = i + 1;
    }
    assert(ls.take(lines.len() as int) =~= ls);
    Ok(vars)
}

/// Gets all the variable definitions present in the content, one line after the other.
///
/// Syntax: `{var_name||var_value}`; a later definition of a name overrides an
/// earlier one.
///
/// Error: if a variable name is empty.
pub fn get_variables(content: &[&str]) -> (res: Result<Variables, ErrorType>)
    ensures
        match definitions_of(lines_view(content@)) {
            Ok(es) => res matches Ok(v) && v@ == es,
            Err(_) => res matches Err(e) && e == ErrorType::Parse("Empty variable name"),
        },
{
    let mut lines: Vec<Vec<char>> = Vec::new();
    let mut i: usize = 0;
    while i < content.len()
        invariant
            i <= content.len(),
            lines.len() == i,
            lines@.map_values(|l: Vec<char>| l@) == lines_view(content@).take(i as int),
        decreases content.len() - i,
    {
        let ghost before = lines@;
        lines.push(chars_of(content[i]));
        i = i + 1;
        assert forall|k: int| 0 <= k < i - 1 implies lines@[k] == before[k] by {}
        assert(lines@.map_values(|l: Vec<char>| l@) =~= lines_view(content@).take(i as int));
    }
    assert(lines_view(content@).take(content.len() as int) =~= lines_view(content@));
    definitions_of_lines(&lines)
}

/// The text `(name)` by which the variable `name` is used.
fn reference_chars(name: &String) -> (res: Vec<char>)
    ensures
        res@ == reference(name@),
        res.len() > 0,
{
    let mut res: Vec<char> = Vec::new();
    res.push('(');
    crate::text::push_all(&mut res, &chars_of(name.as_str()));
    res.push(')');
    assert(res@ =~= reference(name@));
    res
}

/// `content` with each use `(var_name)` of a variable replaced by its value, the
/// variables taken one after the other.
pub fn substitute(content: &str, variables: &Variables) -> (res: String)
    ensures
        res@ == replace_vars(content@, variables@),
{
    let mut c = chars_of(content);
    let mut i: usize = 0;
    assert(variables@.take(0) =~= Seq::<EntryView>::empty());
    while i < variables.entries.len()
        invariant
            i <= variables.entries.len(),
            variables@.len() == variables.entries.len(),
            c@ == replace_vars(content@, variables@.take(i as int)),
        decreases variables.entries.len() - i,
    {
        assert(variables@.take(i + 1).drop_last() =~= variables@.take(i as int));
        assert(variables@[i as int] == (
            variables.entries@[i as int].0@,
            variables.entries@[i as int].1@,
        ));
        let pat = reference_chars(&variables.entries[i].0);
        let value = chars_of(variables.entries[i].1.as_str());
        c = replace_all_chars(&c, &pat, &value);
        i = i + 1;
    }
    assert(variables@.take(variables.entries.len() as int) =~= variables@);
    string_from_chars(&c)
}

/// Replaces each use `(var_name)` of a variable in `content` by its value, the
/// variables taken one after the other; the result is always `Ok`.
pub fn replace_variables(content: &str, variables: Variables) -> (res: Result<String, ErrorType>)
    ensures
        res matches Ok(s) && s@ == replace_vars(content@, variables@),
{
    Ok(substitute(content, &variables))
}

/// Defining a variable gives it the new value, overriding an earlier definition,
/// and leaves the value of every other variable as it was.
pub proof fn law_insert_lookup(es: Seq<EntryView>, name: Seq<char>, value: Seq<char>, other: Seq<char>)
    requires
        other != name,
    ensures
        lookup_key(insert_key(es, name, value), name) == Some(value),
        lookup_key(insert_key(es, name, value), other) == lookup_key(es, other),
{
    lemma_find_key(es, name);
    lemma_find_key(es, other);
    let r = insert_key(es, name, value);
    let i = find_key(es, name);
    lemma_find_key_unique(r, name, if i >= 0 { i } else { es.len() as int });
    lemma_find_key_unique(r, other, find_key(es, other));
}

/// In the variables that lines define, the name that the last line defines has
/// the value given there.
pub proof fn law_last_definition_wins(lines: Seq<Seq<char>>)
    requires
        lines.len() > 0,
        definitions_of(lines) is Ok,
        line_definition(lines.last()) is Some,
    ensures
        lookup_key(definitions_of(lines)->Ok_0, line_definition(lines.last())->Some_0.0) == Some(
            line_definition(lines.last())->Some_0.1,
        ),
{
    let d = line_definition(lines.last())->Some_0;
    law_insert_lookup(definitions_of(lines.drop_last())->Ok_0, d.0, d.1, d.0 + seq!['x']);
}

/// `replace_all` leaves a text alone where the pattern starts with a character
/// that the text does not hold.
proof fn lemma_replace_absent(s: Seq<char>, pat: Seq<char>, rep: Seq<char>)
    requires
        pat.len() > 0,
        !s.contains(pat[0]),
    ensures
        replace_all(s, pat, rep) == s,
    decreases s.len(),
{
    if s.len() >= pat.len() {
        assert(s.take(pat.len() as int)[0] == s[0]);
        assert(s.contains(s[0]));
        lemma_replace_absent(s.skip(1), pat, rep);
        assert(seq![s[0]] + s.skip(1) =~= s);
    }
}

/// A text without `(` uses no variable: replacing the variables leaves it as it is.
pub proof fn law_replace_without_references(s: Seq<char>, es: Seq<EntryView>)
    requires
        !s.contains('('),
    ensures
        replace_vars(s, es) == s,
    decreases es.len(),
{
    if es.len() > 0 {
        law_replace_without_references(s, es.drop_last());
        lemma_replace_absent(s, reference(es.last().0), es.last().1);
    }
}

/// Each use `(name)` of a variable between texts without `(` is replaced by its value.
pub proof fn law_replace_reference(a: Seq<char>, b: Seq<char>, name: Seq<char>, value: Seq<char>)
    requires
        !a.contains('('),
        !b.contains('('),
    ensures
        replace_vars(a + reference(name) + b, seq![(name, value)]) == a + value + b,
    decreases a.len(),
{
    let es = seq![(name, value)];
    let pat = reference(name);
    assert(es.drop_last() =~= Seq::<EntryView>::empty());
    assert(replace_vars(a + pat + b, es.drop_last()) == a + pat + b);
    lemma_replace_use(a, b, pat, value);
}

/// `replace_all` on a text that holds the pattern once, between texts without its
/// first character.
proof fn lemma_replace_use(a: Seq<char>, b: Seq<char>, pat: Seq<char>, rep: Seq<char>)
    requires
        pat.len() > 0,
        !a.contains(pat[0]),
        !b.contains(pat[0]),
    ensures
        replace_all(a + pat + b, pat, rep) == a + rep + b,
    decreases a.len(),
{
    let s = a + pat + b;
    if a.len() == 0 {
        assert(s =~= pat + b);
        assert(s.take(pat.len() as int) =~= pat);
        assert(s.skip(pat.len() as int) =~= b);
        lemma_replace_absent(b, pat, rep);
        assert(a + rep + b =~= rep + b);
    } else {
        assert(s.take(pat.len() as int)[0] == a[0]);
        assert(a.contains(a[0]));
        assert(s.skip(1) =~= a.skip(1) + pat + b);
        assert forall|c: char| a.skip(1).contains(c) implies a.contains(c) by {
            let k = choose|k: int| 0 <= k < a.skip(1).len() && a.skip(1)[k] == c;
            assert(a[k + 1] == c);
        }
        lemma_replace_use(a.skip(1), b, pat, rep);
        assert(seq![a[0]] + (a.skip(1) + rep + b) =~= a + rep + b);
    }
}

/// Whether `c` is an ASCII letter of either case, an ASCII digit, `_` or `-`.
pub open spec fn ascii_word_or_dash(c: char) -> bool {
    ('a' <= c && c <= 'z') || ('A' <= c && c <= 'Z') || ('0' <= c && c <= '9') || c == '_'
        || c == '-'
}

/// The run of name characters that starts just after `{` in a definition line
/// ends at the `||` that follows the name.
proof fn lemma_name_run(line: Seq<char>, n: Seq<char>, j: int)
    requires
        1 <= j <= 1 + n.len(),
        line.len() > n.len() + 1,
        line[n.len() as int + 1] == '|',
        forall|k: int| 0 <= k < n.len() ==> line[k + 1] == n[k],
        forall|k: int| 0 <= k < n.len() ==> ascii_word_or_dash(#[trigger] n[k]),
    ensures
        name_run_end(line, j) == 1 + n.len(),
    decreases 1 + n.len() - j,
{
    if j < 1 + n.len() {
        assert(line[j] == n[j - 1]);
        assert(ascii_word_or_dash(n[j - 1]));
        lemma_name_run(line, n, j + 1);
    }
}

/// A line `{name||value}`, whose name is a non-empty run of ASCII letters (of
/// either case), digits, `_` and `-` and whose value is not empty, defines that
/// name as that value, and lines made of it alone define that variable alone.
pub proof fn law_definition_line(n: Seq<char>, v: Seq<char>)
    requires
        n.len() > 0,
        v.len() > 0,
        forall|k: int| 0 <= k < n.len() ==> ascii_word_or_dash(#[trigger] n[k]),
    ensures
        line_definition(seq!['{'] + n + seq!['|', '|'] + v + seq!['}']) == Some((n, v)),
        definitions_of(seq![seq!['{'] + n + seq!['|', '|'] + v + seq!['}']]) matches Ok(es)
            && es == seq![(n, v)],
{
    let line = seq!['{'] + n + seq!['|', '|'] + v + seq!['}'];
    let j: int = 1 + n.len() as int;
    assert forall|k: int| 0 <= k < n.len() implies line[k + 1] == n[k] by {}
    assert(line[j] == '|');
    assert(line[j + 1] == '|');
    lemma_name_run(line, n, 1);
    assert(line.last() == '}');
    assert(last_index_from(line, '}', j + 3) == line.len() - 1);
    assert(line.subrange(1, j) =~= n);
    assert(line.subrange(j + 2, line.len() - 1) =~= v);
    assert(definition_at(line, 0) == Some((n, v)));
    let lines = seq![line];
    assert(lines.drop_last() =~= Seq::<Seq<char>>::empty());
    assert(lines.last() == line);
    assert(find_key(Seq::<EntryView>::empty(), n) == -1);
    assert(insert_key(Seq::<EntryView>::empty(), n, v) =~= seq![(n, v)]);
    assert(definitions_of(lines.drop_last()) matches Ok(es) && es.len() == 0);
    assert(line_definition(lines.last()) == Some((n, v)));
}

} // verus!
