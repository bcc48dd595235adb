use vstd::prelude::*;
use vstd::string::StringExecFns;
use crate::dom::{
    DomNode, DomElement, ElementVariant, NodeView, ElementView, view_node, view_nodes, opt_text,
    attrs_view, clone_nodes, html_nodes, dom_tree_to_html, clone_strings, lemma_view_nodes, lemma_view_nodes_push, lemma_view_nodes_take,
    lemma_view_nodes_concat,
};
use crate::text::{texts, split_on, split_chars, chars_of, join_with, join_strings, contains_text};
use crate::table::{find_key, distinct_keys, lookup_key, insert_key, lemma_find_key, lemma_find_key_unique, lemma_insert_key_distinct, key_index};
use crate::var_parser::{
    EntryView, Variables, definitions_of, definitions_of_lines, extend_entries, replace_vars,
    substitute, reference, law_replace_reference, ascii_word_or_dash, law_definition_line,
};

verus! {

/// A component: its name and its tree.
pub type ComponentView = (Seq<char>, Seq<NodeView>);

/// Adds the component `name` unless there is one of that name already.
pub open spec fn insert_component_if_absent(
    cs: Seq<ComponentView>,
    name: Seq<char>,
    tree: Seq<NodeView>,
) -> Seq<ComponentView> {
    if find_key(cs, name) >= 0 {
        cs
    } else {
        cs.push((name, tree))
    }
}

/// The view of a list of components.
pub open spec fn components_view(v: Seq<(String, Vec<DomNode>)>) -> Seq<ComponentView> {
    v.map_values(|c: (String, Vec<DomNode>)| (c.0@, view_nodes(c.1@)))
}

/// The index of the first component named `name`, if there is one.
fn component_index(entries: &Vec<(String, Vec<DomNode>)>, name: &String) -> (res: Option<usize>)
    ensures
        res matches Some(i) ==> find_key(components_view(entries@), name@) == i && i < entries@.len(),
        res is None ==> find_key(components_view(entries@), name@) == -1,
{
    let res = key_index(entries, name);
    proof {
        let cs = components_view(entries@);
        assert forall|k: int| 0 <= k < cs.len() implies #[trigger] cs[k].0 == entries@[k].0@ by {}
        match res {
            Some(i) => lemma_find_key_unique(cs, name@, i as int),
            None => lemma_find_key_unique(cs, name@, -1),
        }
    }
    res
}

/// The components of a page: each name with its tree, each name once.
pub struct Components {
    entries: Vec<(String, Vec<DomNode>)>,
}

impl View for Components {
    type V = Seq<ComponentView>;

    closed spec fn view(&self) -> Seq<ComponentView> {
        components_view(self.entries@)
    }
}

impl Components {
    #[verifier::type_invariant]
    spec fn names_distinct(self) -> bool {
        distinct_keys(self@)
    }

    /// No components.
    pub fn new() -> (res: Components)
        ensures
            res@ == Seq::<ComponentView>::empty(),
    {
        let res = Components { entries: Vec::new() };
        assert(res@ =~= Seq::<ComponentView>::empty());
        res
    }

    /// The number of components.
    pub fn len(&self) -> (res: usize)
        ensures
            res == self@.len(),
    {
        self.entries.len()
    }

    /// Whether there is a component named `name`.
    pub fn contains(&self, name: &String) -> (res: bool)
        ensures
            res == (lookup_key(self@, name@) is Some),
    {
        component_index(&self.entries, name).is_some()
    }

    /// A copy of the tree of the component named `name`, if there is one.
    pub fn get(&self, name: &String) -> (res: Option<Vec<DomNode>>)
        ensures
            res matches Some(t) ==> lookup_key(self@, name@) == Some(view_nodes(t@)),
            res is None ==> lookup_key(self@, name@) is None,
    {
        match component_index(&self.entries, name) {
            Some(i) => Some(clone_nodes(&self.entries[i].1)),
            None => None,
        }
    }

    /// Adds the component `name`, replacing the tree of a component of that name.
    pub fn insert(&mut self, name: String, tree: Vec<DomNode>)
        ensures
            final(self)@ == insert_key(old(self)@, name@, view_nodes(tree@)),
    {
        proof {
            use_type_invariant(&*self);
            lemma_find_key(self@, name@);
            lemma_insert_key_distinct(self@, name@, view_nodes(tree@));
        }
        let ghost target = insert_key(self@, name@, view_nodes(tree@));
        let mut entries: Vec<(String, Vec<DomNode>)> = Vec::new();
        std::mem::swap(&mut entries, &mut self.entries);
        match component_index(&entries, &name) {
            Some(i) => {
                entries.set(i, (name, tree));
            },
            None => {
                entries.push((name, tree));
            },
        }
        assert(components_view(entries@) =~= target);
        self.entries = entries;
    }

    /// The components, each name with its tree, in order.
    pub fn into_entries(self) -> (res: Vec<(String, Vec<DomNode>)>)
        ensures
            components_view(res@) == self@,
    {
        self.entries
    }

    /// Adds the component `name` unless there is one of that name already.
    pub fn insert_if_absent(&mut self, name: String, tree: Vec<DomNode>)
        ensures
            final(self)@ == insert_component_if_absent(old(self)@, name@, view_nodes(tree@)),
    {
        proof {
            use_type_invariant(&*self);
            lemma_find_key(self@, name@);
        }
        if self.contains(&name) {
            return;
        }
        self.insert(name, tree);
    }
}

/// The variables in scope inside a use of a component: those of the enclosing
/// scope, extended by the definitions in each text child of the use, in order.
/// `None` where a child is an element or a text defines a variable without a name:
/// such a use is refused.
pub open spec fn use_scope(children: Seq<NodeView>, vars: Seq<EntryView>) -> Option<Seq<EntryView>>
    decreases children.len(),
{
    if children.len() == 0 {
        Some(vars)
    } else {
        match use_scope(children.drop_last(), vars) {
            None => None,
            Some(scope) => match children.last() {
                NodeView::Element(_) => None,
                NodeView::Text(t) => match definitions_of(split_on(t, '\n')) {
                    Ok(defs) => Some(extend_entries(scope, defs)),
                    Err(_) => None,
                },
                NodeView::Comment(_) => Some(scope),
            },
        }
    }
}

/// Each class with the variables replaced.
pub open spec fn classes_with(classes: Seq<Seq<char>>, vars: Seq<EntryView>) -> Seq<Seq<char>> {
    classes.map_values(|c: Seq<char>| replace_vars(c, vars))
}

/// The id with the variables replaced.
pub open spec fn id_with(id: Option<Seq<char>>, vars: Seq<EntryView>) -> Option<Seq<char>> {
    match id {
        Some(i) => Some(replace_vars(i, vars)),
        None => None,
    }
}

/// Each attribute value with the variables replaced.
pub open spec fn attributes_with(
    attributes: Seq<(Seq<char>, Option<Seq<char>>)>,
    vars: Seq<EntryView>,
) -> Seq<(Seq<char>, Option<Seq<char>>)> {
    attributes.map_values(|a: (Seq<char>, Option<Seq<char>>)| (a.0, id_with(a.1, vars)))
}

/// The nodes that result from a sequence of nodes once the components are expanded
/// and the variables replaced; `within` holds the names of the components whose
/// expansion encloses these nodes. `None` where a use of a component is refused
/// (see `use_scope`) or a component is used inside its own expansion, where the
/// expansion would never end.
pub open spec fn expand_nodes(
    ns: Seq<NodeView>,
    comps: Seq<ComponentView>,
    vars: Seq<EntryView>,
    within: Seq<Seq<char>>,
) -> Option<Seq<NodeView>>
    decreases comps.len() - within.len(), ns,
{
    if ns.len() == 0 {
        Some(Seq::empty())
    } else {
        match expand_nodes(ns.drop_last(), comps, vars, within) {
            None => None,
            Some(front) => match expand_node(ns.last(), comps, vars, within) {
                None => None,
                Some(back) => Some(front + back),
            },
        }
    }
}

/// The nodes that result from one node: a text with its variables replaced; no
/// node for a comment; an element with the variables replaced in its classes, id
/// and attribute values. An element named as a component is a use of it: it
/// becomes a `div` whose children are the expanded tree of the component, in the
/// scope of the variables that the use defines; other elements keep their name and
/// have their children expanded. (The test on the length of `within` never decides
/// where the names of the components are distinct: see `law_enclosing_uses_fit`.)
pub open spec fn expand_node(
    n: NodeView,
    comps: Seq<ComponentView>,
    vars: Seq<EntryView>,
    within: Seq<Seq<char>>,
) -> Option<Seq<NodeView>>
    decreases comps.len() - within.len(), n,
{
    match n {
        NodeView::Text(t) => Some(seq![NodeView::Text(replace_vars(t, vars))]),
        NodeView::Comment(_) => Some(Seq::empty()),
        NodeView::Element(e) => {
            let classes = classes_with(e.classes, vars);
            let id = id_with(e.id, vars);
            let attributes = attributes_with(e.attributes, vars);
            match lookup_key(comps, e.name) {
                Some(tree) => match use_scope(e.children, vars) {
                    None => None,
                    Some(scope) => if within.contains(e.name) || within.len() >= comps.len() {
                        None
                    } else {
                        match expand_nodes(tree, comps, scope, within.push(e.name)) {
                            None => None,
                            Some(children) => Some(
                                seq![
                                    NodeView::Element(
                                        ElementView {
                                            id,
                                            name: "div"@,
                                            variant: ElementVariant::Normal,
                                            attributes,
                                            classes,
                                            children,
                                        },
                                    ),
                                ],
                            ),
                        }
                    },
                },
                None => match expand_nodes(e.children, comps, vars, within) {
                    None => None,
                    Some(children) => Some(
                        seq![
                            NodeView::Element(
                                ElementView {
                                    id,
                                    name: e.name,
                                    variant: e.variant,
                                    attributes,
                                    classes,
                                    children,
                                },
                            ),
                        ],
                    ),
                },
            }
        },
    }
}

/// The classes with the variables replaced.
fn substitute_classes(classes: &Vec<String>, vars: &Variables) -> (res: Vec<String>)
    ensures
        texts(res@) == classes_with(texts(classes@), vars@),
{
    let mut res: Vec<String> = Vec::new();
    let mut i: usize = 0;
    while i < classes.len()
        invariant
            i <= classes.len(),
            res.len() == i,
            texts(res@) == classes_with(texts(classes@), vars@).take(i as int),
        decreases classes.len() - i,
    {
        let ghost before = res@;
        res.push(substitute(classes[i].as_str(), vars));
        i = i + 1;
        assert forall|k: int| 0 <= k < i - 1 implies res@[k] == before[k] by {}
        assert(texts(res@) =~= classes_with(texts(classes@), vars@).take(i as int));
    }
    assert(classes_with(texts(classes@), vars@).take(classes.len() as int) =~= classes_with(
        texts(classes@),
        vars@,
    ));
    res
}

/// An optional text with the variables replaced.
fn substitute_opt(o: &Option<String>, vars: &Variables) -> (res: Option<String>)
    ensures
        opt_text(res) == id_with(opt_text(*o), vars@),
{
    match o {
        Some(s) => Some(substitute(s.as_str(), vars)),
        None => None,
    }
}

/// The attributes with their values' variables replaced.
fn substitute_attributes(attributes: &Vec<(String, Option<String>)>, vars: &Variables) -> (res: Vec<
    (String, Option<String>),
>)
    ensures
        attrs_view(res@) == attributes_with(attrs_view(attributes@), vars@),
{
    let mut res: Vec<(String, Option<String>)> = Vec::new();
    let mut i: usize = 0;
    while i < attributes.len()
        invariant
            i <= attributes.len(),
            res.len() == i,
            attrs_view(res@) == attributes_with(attrs_view(attributes@), vars@).take(i as int),
        decreases attributes.len() - i,
    {
        let ghost before = res@;
        res.push((attributes[i].0.clone(), substitute_opt(&attributes[i].1, vars)));
        i = i + 1;
        assert forall|k: int| 0 <= k < i - 1 implies res@[k] == before[k] by {}
        assert(attrs_view(res@) =~= attributes_with(attrs_view(attributes@), vars@).take(
            i as int,
        ));
    }
    assert(attributes_with(attrs_view(attributes@), vars@).take(attributes.len() as int)
        =~= attributes_with(attrs_view(attributes@), vars@));
    res
}

/// The variables in scope inside a use of a component whose children are `children`.
fn scope_of_use(children: &Vec<DomNode>, vars: &Variables) -> (res: Option<Variables>)
    ensures
        match use_scope(view_nodes(children@), vars@) {
            Some(scope) => res matches Some(v) && v@ == scope,
            None => res is None,
        },
{
    let mut scope = vars.duplicate();
    let mut i: usize = 0;
    assert(view_nodes(children@.take(0)) =~= Seq::<NodeView>::empty());
    while i < children.len()
        invariant
            i <= children.len(),
            use_scope(view_nodes(children@.take(i as int)), vars@) == Some(scope@),
        decreases children.len() - i,
    {
        proof {
            assert(children@.take(i + 1) =~= children@.take(i as int).push(children@[i as int]));
            lemma_view_nodes_push(children@.take(i as int), children@[i as int]);
            let vs = view_nodes(children@.take(i as int));
            assert(vs.push(view_node(children@[i as int])).drop_last() =~= vs);
        }
        match &children[i] {
            DomNode::Element(_) => {
                proof {
                    lemma_view_nodes(children@);
                    lemma_view_nodes_take(children@, i + 1);
                    lemma_use_scope_none(view_nodes(children@), vars@, i + 1);
                }
                return None;
            },
            DomNode::Text(t) => {
                let lines = split_chars(&chars_of(t.as_str()), '\n');
                match definitions_of_lines(&lines) {
                    Ok(defs) => {
                        scope.extend(&defs);
                    },
                    Err(_) => {
                        proof {
                            lemma_view_nodes(children@);
                    lemma_view_nodes_take(children@, i + 1);
                    lemma_use_scope_none(view_nodes(children@), vars@, i + 1);
                        }
                        return None;
                    },
                }
            },
            DomNode::Comment(_) => {},
        }
        i = i + 1;
    }
    assert(children@.take(children.len() as int) =~= children@);
    Some(scope)
}

/// A refused prefix makes the whole use refused.
proof fn lemma_use_scope_none(children: Seq<NodeView>, vars: Seq<EntryView>, k: int)
    requires
        0 <= k <= children.len(),
        use_scope(children.take(k), vars) is None,
    ensures
        use_scope(children, vars) is None,
    decreases children.len(),
{
    if k < children.len() {
        assert(children.drop_last().take(k) =~= children.take(k));
        lemma_use_scope_none(children.drop_last(), vars, k);
    } else {
        assert(children.take(k) =~= children);
    }
}

/// A prefix that cannot be expanded makes the whole fail.
proof fn lemma_expand_none(
    ns: Seq<NodeView>,
    comps: Seq<ComponentView>,
    vars: Seq<EntryView>,
    within: Seq<Seq<char>>,
    k: int,
)
    requires
        0 <= k <= ns.len(),
        expand_nodes(ns.take(k), comps, vars, within) is None,
    ensures
        expand_nodes(ns, comps, vars, within) is None,
    decreases ns.len(),
{
    if k < ns.len() {
        assert(ns.drop_last().take(k) =~= ns.take(k));
        lemma_expand_none(ns.drop_last(), comps, vars, within, k);
    } else {
        assert(ns.take(k) =~= ns);
    }
}

/// The view of a one-node vector.
proof fn lemma_view_single(n: DomNode)
    ensures
        view_nodes(seq![n]) == seq![view_node(n)],
{
    lemma_view_nodes_push(Seq::empty(), n);
    assert(Seq::<DomNode>::empty().push(n) =~= seq![n]);
    assert(view_nodes(Seq::<DomNode>::empty()) =~= Seq::<NodeView>::empty());
}

/// A vector that holds one node.
fn single(n: DomNode) -> (res: Vec<DomNode>)
    ensures
        view_nodes(res@) == seq![view_node(n)],
{
    let mut v: Vec<DomNode> = Vec::new();
    v.push(n);
    proof {
        lemma_view_single(n);
        assert(v@ =~= seq![n]);
    }
    v
}

/// Expands one node.
fn expand_one(node: &DomNode, comps: &Components, vars: &Variables, within: &Vec<String>) -> (res:
    Option<Vec<DomNode>>)
    ensures
        match expand_node(view_node(*node), comps@, vars@, texts(within@)) {
            Some(r) => res matches Some(v) && view_nodes(v@) == r,
            None => res is None,
        },
    decreases comps@.len() - within@.len(), node,
{
    match node {
        DomNode::Text(t) => Some(single(DomNode::Text(substitute(t.as_str(), vars)))),
        DomNode::Comment(_) => {
            let v: Vec<DomNode> = Vec::new();
            assert(view_nodes(v@) =~= Seq::<NodeView>::empty());
            Some(v)
        },
        DomNode::Element(e) => {
            let classes = substitute_classes(&e.classes, vars);
            let id = substitute_opt(&e.id, vars);
            let attributes = substitute_attributes(&e.attributes, vars);
            match comps.get(&e.name) {
                Some(tree) => match scope_of_use(&e.children, vars) {
                    None => None,
                    Some(scope) => {
                        if contains_text(within, &e.name) || within.len() >= comps.len() {
                            return None;
                        }
                        let mut inner = clone_strings(within);
                        inner.push(e.name.clone());
                        assert(texts(inner@) =~= texts(within@).push(e.name@));
                        match expand_many(&tree, comps, &scope, &inner) {
                            None => None,
                            Some(children) => Some(
                                single(
                                    DomNode::Element(
                                        DomElement {
                                            id,
                                            name: String::from_str("div"),
                                            variant: ElementVariant::Normal,
                                            attributes,
                                            classes,
                                            children,
                                        },
                                    ),
                                ),
                            ),
                        }
                    },
                },
                None => match expand_many(&e.children, comps, vars, within) {
                    None => None,
                    Some(children) => Some(
                        single(
                            DomNode::Element(
                                DomElement {
                                    id,
                                    name: e.name.clone(),
                                    variant: e.variant,
                                    attributes,
                                    classes,
                                    children,
                                },
                            ),
                        ),
                    ),
                },
            }
        },
    }
}

/// Expands a sequence of nodes.
fn expand_many(nodes: &Vec<DomNode>, comps: &Components, vars: &Variables, within: &Vec<String>) -> (res:
    Option<Vec<DomNode>>)
    ensures
        match expand_nodes(view_nodes(nodes@), comps@, vars@, texts(within@)) {
            Some(r) => res matches Some(v) && view_nodes(v@) == r,
            None => res is None,
        },
    decreases comps@.len() - within@.len(), nodes,
{
    let mut acc: Vec<DomNode> = Vec::new();
    let mut i: usize = 0;
    assert(nodes@.take(0) =~= acc@);
    while i < nodes.len()
        invariant
            i <= nodes.len(),
            expand_nodes(view_nodes(nodes@.take(i as int)), comps@, vars@, texts(within@)) == Some(
                view_nodes(acc@),
            ),
        decreases nodes.len() - i,
    {
        proof {
            assert(decreases_to!(nodes => nodes@));
            assert(decreases_to!(nodes@ => nodes@[i as int]));
            assert(nodes@.take(i + 1) =~= nodes@.take(i as int).push(nodes@[i as int]));
            lemma_view_nodes_push(nodes@.take(i as int), nodes@[i as int]);
            let vs = view_nodes(nodes@.take(i as int));
            assert(vs.push(view_node(nodes@[i as int])).drop_last() =~= vs);
        }
        match expand_one(&nodes[i], comps, vars, within) {
            None => {
                proof {
                    lemma_view_nodes(nodes@);
                    lemma_view_nodes_take(nodes@, i + 1);
                    lemma_expand_none(view_nodes(nodes@), comps@, vars@, texts(within@), i + 1);
                }
                return None;
            },
            Some(mut more) => {
                proof {
                    lemma_view_nodes_concat(acc@, more@);
                }
                acc.append(&mut more);
            },
        }
        i = i + 1;
    }
    assert(nodes@.take(nodes.len() as int) =~= nodes@);
    Some(acc)
}

/// Whether the uses of components in a tree can be expanded from the variables
/// `vars`: no use of a component holds an element or a variable without a name,
/// and no component is used inside its own expansion.
pub open spec fn expandable(
    dom_tree: Seq<NodeView>,
    map: Seq<ComponentView>,
    vars: Seq<EntryView>,
) -> bool {
    expand_nodes(dom_tree, map, vars, Seq::empty()) is Some
}

/// Expands the uses of components in a tree where that can be done (see
/// `expandable`), else `None`; see `replace_dom`.
pub fn try_replace_dom(dom_tree: Vec<DomNode>, map: &Components, vars: Variables) -> (res: Option<
    Vec<DomNode>,
>)
    ensures
        match expand_nodes(view_nodes(dom_tree@), map@, vars@, Seq::empty()) {
            Some(r) => res matches Some(v) && view_nodes(v@) == r,
            None => res is None,
        },
{
    let within: Vec<String> = Vec::new();
    assert(texts(within@) =~= Seq::<Seq<char>>::empty());
    expand_many(&dom_tree, map, &vars, &within)
}

/// Expands the uses of components in a tree and replaces the variables in its
/// texts, classes, ids and attribute values, starting from the variables `vars`.
///
/// Each use `<Name>...</Name>` of a component becomes a `div` that holds the
/// expanded tree of the component; the variables that the texts inside the use
/// define are in scope there alone. Comments are left out. A use of a component
/// that holds an element or a variable without a name, and a component used inside
/// its own expansion (which would never end), are left out by `requires`;
/// `try_replace_dom` tests for them.
pub fn replace_dom(dom_tree: Vec<DomNode>, map: &Components, vars: Variables) -> (res: Vec<DomNode>)
    requires
        expandable(view_nodes(dom_tree@), map@, vars@),
    ensures
        Some(view_nodes(res@)) == expand_nodes(view_nodes(dom_tree@), map@, vars@, Seq::empty()),
{
    match try_replace_dom(dom_tree, map, vars) {
        Some(v) => v,
        None => Vec::new(),
    }
}

/// Compiles a page: expands its components, with no variable defined at the
/// start, renders the result as HTML and joins the pieces with line breaks. `None`
/// where the expansion is refused.
pub fn compile_page(dom_tree: Vec<DomNode>, components: &Components) -> (res: Option<String>)
    ensures
        match expand_nodes(view_nodes(dom_tree@), components@, Seq::empty(), Seq::empty()) {
            Some(r) => res matches Some(s) && s@ == join_with(html_nodes(r), "\n"@),
            None => res is None,
        },
{
    match try_replace_dom(dom_tree, components, Variables::new()) {
        None => None,
        Some(expanded) => {
            let pieces = dom_tree_to_html(expanded);
            Some(join_strings(&pieces, "\n"))
        },
    }
}

/// Expanding an element, whether a use of a component or not, keeps its
/// attributes in order and replaces the uses of the variables in their values:
/// where a value is `a(name)b`, with no `(` in `a` or `b`, and `name` is defined as
/// `value`, the value after the expansion is `a` + `value` + `b`.
pub proof fn law_expand_replaces_attribute(
    e: ElementView,
    comps: Seq<ComponentView>,
    within: Seq<Seq<char>>,
    i: int,
    a: Seq<char>,
    b: Seq<char>,
    name: Seq<char>,
    value: Seq<char>,
)
    requires
        0 <= i < e.attributes.len(),
        e.attributes[i].1 == Some(a + seq!['('] + name + seq![')'] + b),
        !a.contains('('),
        !b.contains('('),
        expand_node(NodeView::Element(e), comps, seq![(name, value)], within) is Some,
    ensures
        ({
            let r = expand_node(NodeView::Element(e), comps, seq![(name, value)], within)->Some_0;
            &&& r.len() == 1
            &&& r[0] matches NodeView::Element(f) && f.attributes.len() == e.attributes.len()
                && f.attributes[i] == (e.attributes[i].0, Some(a + value + b))
        }),
{
    let vars = seq![(name, value)];
    assert(a + seq!['('] + name + seq![')'] + b == a + reference(name) + b);
    law_replace_reference(a, b, name, value);
    let attributes = attributes_with(e.attributes, vars);
    assert(attributes[i] == (e.attributes[i].0, Some(a + value + b)));
}

/// Expanding an element, whether a use of a component or not, replaces the uses
/// of the variables in its classes and its id as in its attribute values: where a
/// class, or the id, is `a(name)b`, with no `(` in `a` or `b`, and `name` is
/// defined as `value`, it becomes `a` + `value` + `b`.
pub proof fn law_expand_replaces_class_and_id(
    e: ElementView,
    comps: Seq<ComponentView>,
    within: Seq<Seq<char>>,
    j: int,
    a: Seq<char>,
    b: Seq<char>,
    name: Seq<char>,
    value: Seq<char>,
)
    requires
        !a.contains('('),
        !b.contains('('),
        expand_node(NodeView::Element(e), comps, seq![(name, value)], within) is Some,
    ensures
        ({
            let r = expand_node(NodeView::Element(e), comps, seq![(name, value)], within)->Some_0;
            &&& r.len() == 1
            &&& r[0] matches NodeView::Element(f) && f.classes.len() == e.classes.len()
                && (0 <= j < e.classes.len() && e.classes[j] == a + seq!['('] + name + seq![')'] + b
                ==> f.classes[j] == a + value + b)
                && (e.id == Some(a + seq!['('] + name + seq![')'] + b) ==> f.id == Some(a + value + b))
        }),
{
    assert(a + seq!['('] + name + seq![')'] + b == a + reference(name) + b);
    law_replace_reference(a, b, name, value);
}

/// Expanding a text `a(name)b`, with no `(` in `a` or `b`, where `name` is defined
/// as `value`, gives the one text `a` + `value` + `b`.
pub proof fn law_expand_replaces_text(
    comps: Seq<ComponentView>,
    within: Seq<Seq<char>>,
    a: Seq<char>,
    b: Seq<char>,
    name: Seq<char>,
    value: Seq<char>,
)
    requires
        !a.contains('('),
        !b.contains('('),
    ensures
        expand_node(
            NodeView::Text(a + seq!['('] + name + seq![')'] + b),
            comps,
            seq![(name, value)],
            within,
        ) == Some(seq![NodeView::Text(a + value + b)]),
{
    assert(a + seq!['('] + name + seq![')'] + b == a + reference(name) + b);
    law_replace_reference(a, b, name, value);
}

/// A text without line breaks is one line.
proof fn lemma_split_without_sep(s: Seq<char>, sep: char)
    requires
        !s.contains(sep),
    ensures
        split_on(s, sep) == seq![s],
    decreases s.len(),
{
    if s.len() > 0 {
        let d = s.drop_last();
        assert forall|c: char| d.contains(c) implies s.contains(c) by {
            let k = choose|k: int| 0 <= k < d.len() && d[k] == c;
            assert(s[k] == c);
        }
        lemma_split_without_sep(d, sep);
        assert(s[s.len() - 1] == s.last());
        assert(s.last() != sep);
        assert(d.push(s.last()) =~= s);
        assert(seq![d].update(0, d.push(s.last())) =~= seq![s]);
    } else {
        assert(s =~= Seq::<char>::empty());
    }
}

/// A use of a component whose only child is the text `{name||value}` expands to
/// a `div` that holds the expanded tree of the component with `name` defined as
/// `value`: where that tree is one element with an attribute value `a(name)b`
/// (no `(` in `a` or `b`) and not a use of a component, the expanded element has
/// the value `a` + `value` + `b`.
/// The name is a non-empty run of ASCII letters (of either case), digits, `_` and
/// `-`; the value is not empty and holds no line break.
pub proof fn law_use_defines_attribute(
    u: ElementView,
    g: ElementView,
    comps: Seq<ComponentView>,
    within: Seq<Seq<char>>,
    i: int,
    a: Seq<char>,
    b: Seq<char>,
    name: Seq<char>,
    value: Seq<char>,
)
    requires
        lookup_key(comps, u.name) == Some(seq![NodeView::Element(g)]),
        lookup_key(comps, g.name) is None,
        u.children == seq![
            NodeView::Text(seq!['{'] + name + seq!['|', '|'] + value + seq!['}']),
        ],
        name.len() > 0,
        forall|k: int| 0 <= k < name.len() ==> ascii_word_or_dash(#[trigger] name[k]),
        value.len() > 0,
        !value.contains('\n'),
        0 <= i < g.attributes.len(),
        g.attributes[i].1 == Some(a + seq!['('] + name + seq![')'] + b),
        !a.contains('('),
        !b.contains('('),
        expand_node(NodeView::Element(u), comps, Seq::empty(), within) is Some,
    ensures
        ({
            let r = expand_node(NodeView::Element(u), comps, Seq::empty(), within)->Some_0;
            &&& r.len() == 1
            &&& r[0] matches NodeView::Element(d) && d.name == "div"@ && d.children.len() == 1
                && (d.children[0] matches NodeView::Element(f) && f.name == g.name
                && f.attributes[i] == (g.attributes[i].0, Some(a + value + b)))
        }),
{
    let t = seq!['{'] + name + seq!['|', '|'] + value + seq!['}'];
    assert forall|k: int| 0 <= k < t.len() implies t[k] != '\n' by {
        if 1 <= k < 1 + name.len() {
            assert(t[k] == name[k - 1]);
            assert(ascii_word_or_dash(name[k - 1]));
        } else if 3 + name.len() <= k < t.len() - 1 {
            assert(t[k] == value[k - 3 - name.len()]);
            assert(value.contains(value[k - 3 - name.len()]));
        }
    }
    lemma_split_without_sep(t, '\n');
    law_definition_line(name, value);
    let vars = seq![(name, value)];
    let empty = Seq::<EntryView>::empty();
    assert(u.children.drop_last() =~= Seq::<NodeView>::empty());
    assert(use_scope(u.children.drop_last(), empty) == Some(empty));
    assert(extend_entries(empty, vars.drop_last()) == empty) by {
        assert(vars.drop_last() =~= empty);
    }
    assert(find_key(empty, name) == -1);
    assert(insert_key(empty, name, value) =~= vars);
    assert(extend_entries(empty, vars) == vars);
    assert(use_scope(u.children, empty) == Some(vars));
    let tree = seq![NodeView::Element(g)];
    let inner = within.push(u.name);
    assert(tree.drop_last() =~= Seq::<NodeView>::empty());
    assert(expand_nodes(tree.drop_last(), comps, vars, inner) == Some(Seq::<NodeView>::empty()));
    assert(expand_nodes(tree, comps, vars, inner) is Some);
    assert(expand_node(NodeView::Element(g), comps, vars, inner) is Some);
    law_expand_replaces_attribute(g, comps, inner, i, a, b, name, value);
    let back = expand_node(NodeView::Element(g), comps, vars, inner)->Some_0;
    assert(Seq::<NodeView>::empty() + back =~= back);
    assert(back[0] matches NodeView::Element(f) && f.name == g.name);
}

/// A sequence of nodes holds no comment, at any depth.
pub open spec fn free_of_comments(ns: Seq<NodeView>) -> bool
    decreases ns,
{
    ns.len() == 0 || (free_of_comments(ns.drop_last()) && node_free_of_comments(ns.last()))
}

/// A node is no comment and holds none, at any depth.
pub open spec fn node_free_of_comments(n: NodeView) -> bool
    decreases n,
{
    match n {
        NodeView::Comment(_) => false,
        NodeView::Text(_) => true,
        NodeView::Element(e) => free_of_comments(e.children),
    }
}

/// A concatenation is free of comments when both parts are.
pub proof fn lemma_free_of_comments_concat(a: Seq<NodeView>, b: Seq<NodeView>)
    ensures
        free_of_comments(a + b) == (free_of_comments(a) && free_of_comments(b)),
    decreases b.len(),
{
    if b.len() == 0 {
        assert(a + b =~= a);
    } else {
        lemma_free_of_comments_concat(a, b.drop_last());
        assert((a + b).drop_last() =~= a + b.drop_last());
        assert((a + b).last() == b.last());
    }
}

/// Expanding the sequence `a + b` expands `a` and `b` on their own, in the same
/// scope, and concatenates the results: a variable defined inside one use of a
/// component does not reach its siblings.
pub proof fn law_expand_concat(
    a: Seq<NodeView>,
    b: Seq<NodeView>,
    comps: Seq<ComponentView>,
    vars: Seq<EntryView>,
    within: Seq<Seq<char>>,
)
    ensures
        expand_nodes(a + b, comps, vars, within) == match (
            expand_nodes(a, comps, vars, within),
            expand_nodes(b, comps, vars, within),
        ) {
            (Some(x), Some(y)) => Some(x + y),
            _ => None::<Seq<NodeView>>,
        },
    decreases b.len(),
{
    if b.len() == 0 {
        assert(a + b =~= a);
        if let Some(x) = expand_nodes(a, comps, vars, within) {
            assert(x + Seq::<NodeView>::empty() =~= x);
        }
    } else {
        law_expand_concat(a, b.drop_last(), comps, vars, within);
        assert((a + b).drop_last() =~= a + b.drop_last());
        assert((a + b).last() == b.last());
        if let Some(x) = expand_nodes(a, comps, vars, within) {
            if let Some(y) = expand_nodes(b.drop_last(), comps, vars, within) {
                if let Some(z) = expand_node(b.last(), comps, vars, within) {
                    assert(x + y + z =~= x + (y + z));
                }
            }
        }
    }
}

/// The expansion of a tree holds no comment.
pub proof fn law_expand_free_of_comments(
    ns: Seq<NodeView>,
    comps: Seq<ComponentView>,
    vars: Seq<EntryView>,
    within: Seq<Seq<char>>,
)
    ensures
        expand_nodes(ns, comps, vars, within) matches Some(r) ==> free_of_comments(r),
    decreases comps.len() - within.len(), ns,
{
    if ns.len() > 0 {
        law_expand_free_of_comments(ns.drop_last(), comps, vars, within);
        law_expand_node_free_of_comments(ns.last(), comps, vars, within);
        if let Some(x) = expand_nodes(ns.drop_last(), comps, vars, within) {
            if let Some(y) = expand_node(ns.last(), comps, vars, within) {
                lemma_free_of_comments_concat(x, y);
            }
        }
    }
}

/// `law_expand_free_of_comments` for one node.
pub proof fn law_expand_node_free_of_comments(
    n: NodeView,
    comps: Seq<ComponentView>,
    vars: Seq<EntryView>,
    within: Seq<Seq<char>>,
)
    ensures
        expand_node(n, comps, vars, within) matches Some(r) ==> free_of_comments(r),
    decreases comps.len() - within.len(), n,
{
    match n {
        NodeView::Element(e) => {
            match lookup_key(comps, e.name) {
                Some(tree) => {
                    if let Some(scope) = use_scope(e.children, vars) {
                        if !(within.contains(e.name) || within.len() >= comps.len()) {
                            law_expand_free_of_comments(tree, comps, scope, within.push(e.name));
                        }
                    }
                },
                None => {
                    law_expand_free_of_comments(e.children, comps, vars, within);
                },
            }
            if let Some(r) = expand_node(n, comps, vars, within) {
                assert(r.len() == 1);
                assert(r.drop_last() =~= Seq::<NodeView>::empty());
                assert(free_of_comments(r.drop_last()));
                if let NodeView::Element(e2) = r.last() {
                    assert(free_of_comments(e2.children));
                    assert(node_free_of_comments(r.last()));
                }
                assert(r.last() is Element);
            }
        },
        NodeView::Text(_) => {
            if let Some(r) = expand_node(n, comps, vars, within) {
                assert(r.drop_last() =~= Seq::<NodeView>::empty());
                assert(free_of_comments(r.drop_last()));
                assert(node_free_of_comments(r.last()));
            }
        },
        NodeView::Comment(_) => {
            if let Some(r) = expand_node(n, comps, vars, within) {
                assert(r.len() == 0);
            }
        },
    }
}

/// The names of the components whose expansion encloses a node are distinct
/// components; one more such component, not among them, still leaves them fewer
/// than the components: the test on the length of `within` in `expand_node` never
/// decides where the names of the components are distinct.
pub proof fn law_enclosing_uses_fit(comps: Seq<ComponentView>, within: Seq<Seq<char>>, name: Seq<char>)
    requires
        distinct_keys(comps),
        within.no_duplicates(),
        forall|i: int| 0 <= i < within.len() ==> find_key(comps, #[trigger] within[i]) >= 0,
        find_key(comps, name) >= 0,
        !within.contains(name),
    ensures
        within.len() < comps.len(),
{
    let all = within.push(name);
    let idx = all.map_values(|n: Seq<char>| find_key(comps, n));
    assert forall|i: int| 0 <= i < all.len() implies #[trigger] find_key(comps, all[i]) >= 0
        && comps[find_key(comps, all[i])].0 == all[i] by {
        lemma_find_key(comps, all[i]);
        if i < within.len() {
            assert(all[i] == within[i]);
        }
    }
    assert(idx.no_duplicates()) by {
        assert forall|i: int, j: int| 0 <= i < idx.len() && 0 <= j < idx.len() && i != j implies idx[i]
            != idx[j] by {
            assert(idx[i] == find_key(comps, all[i]));
            assert(idx[j] == find_key(comps, all[j]));
            if i < within.len() && j < within.len() {
                assert(within[i] != within[j]);
            } else if i < within.len() {
                assert(all[j] == name);
                assert(within.contains(within[i]));
            } else {
                assert(all[i] == name);
                assert(within.contains(within[j]));
            }
        }
    }
    idx.unique_seq_to_set();
    vstd::set_lib::lemma_int_range(0, comps.len() as int);
    assert forall|x: int| idx.to_set().contains(x) implies vstd::set_lib::set_int_range(0, comps.len() as int).contains(x) by {
        let i = choose|i: int| 0 <= i < idx.len() && idx[i] == x;
        lemma_find_key(comps, all[i]);
    }
    vstd::set_lib::lemma_len_subset(idx.to_set(), vstd::set_lib::set_int_range(0, comps.len() as int));
}

/// What reading a page or a component gives: its tree, the components that it
/// knows (itself and those that it imports, directly or not) and the names of the
/// components that it imports, directly or not.
pub struct CraineHash {
    /// The tree of the file.
    pub dom_tree: Vec<DomNode>,
    /// The components that the file knows.
    pub component_hash: Components,
    /// The names of the components that the file imports.
    pub used_components: Vec<String>,
}

/// The components `cs` with each of `more` added, in order, unless one of its
/// name is there already.
pub open spec fn insert_all_if_absent(cs: Seq<ComponentView>, more: Seq<ComponentView>) -> Seq<
    ComponentView,
>
    decreases more.len(),
{
    if more.len() == 0 {
        cs
    } else {
        let base = insert_all_if_absent(cs, more.drop_last());
        insert_component_if_absent(base, more.last().0, more.last().1)
    }
}

/// Takes in what reading an imported file gave: its name joins the used names,
/// followed by the names that it uses; its components join `components`, where
/// the first one of a name to come is kept.
pub fn absorb_import(
    components: &mut Components,
    used: &mut Vec<String>,
    import_name: String,
    imported: CraineHash,
)
    ensures
        final(components)@ == insert_all_if_absent(old(components)@, imported.component_hash@),
        texts(final(used)@) == texts(old(used)@).push(import_name@) + texts(
            imported.used_components@,
        ),
{
    let ghost more = imported.component_hash@;
    let entries = imported.component_hash.into_entries();
    let mut i: usize = 0;
    assert(more.take(0) =~= Seq::<ComponentView>::empty());
    while i < entries.len()
        invariant
            i <= entries.len(),
            components_view(entries@) == more,
            components@ == insert_all_if_absent(old(components)@, more.take(i as int)),
        decreases entries.len() - i,
    {
        assert(more.take(i + 1).drop_last() =~= more.take(i as int));
        assert(more[i as int] == (entries@[i as int].0@, view_nodes(entries@[i as int].1@)));
        components.insert_if_absent(entries[i].0.clone(), clone_nodes(&entries[i].1));
        i = i + 1;
    }
    assert(more.take(entries.len() as int) =~= more);
    let ghost start = texts(used@).push(import_name@);
    used.push(import_name);
    assert(texts(used@) =~= start);
    let mut k: usize = 0;
    let ghost others = texts(imported.used_components@);
    assert(start + others.take(0) =~= start);
    while k < imported.used_components.len()
        invariant
            k <= imported.used_components.len(),
            others == texts(imported.used_components@),
            texts(used@) == start + others.take(k as int),
        decreases imported.used_components.len() - k,
    {
        let ghost before = texts(used@);
        used.push(imported.used_components[k].clone());
        assert(texts(used@) =~= before.push(others[k as int]));
        k = k + 1;
        assert(start + others.take(k as int) =~= (start + others.take(k - 1)).push(others[k - 1]));
    }
    assert(others.take(imported.used_components.len() as int) =~= others);
}

/// What reading a file gives, once its imports are taken in: its own tree joins
/// the components under its name, replacing a component of that name.
pub fn finish_file(
    components: Components,
    used: Vec<String>,
    name: String,
    dom_tree: Vec<DomNode>,
) -> (res: CraineHash)
    ensures
        res.component_hash@ == insert_key(components@, name@, view_nodes(dom_tree@)),
        view_nodes(res.dom_tree@) == view_nodes(dom_tree@),
        texts(res.used_components@) == texts(used@),
{
    let mut component_hash = components;
    component_hash.insert(name, clone_nodes(&dom_tree));
    CraineHash { dom_tree, component_hash, used_components: used }
}

} // verus!
