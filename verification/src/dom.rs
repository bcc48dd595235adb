use vstd::prelude::*;
use vstd::string::StringExecFns;
use crate::text::texts;
use crate::error_handler::ErrorType;

verus! {

/// Whether an element can have children (`<div></div>`) or not (`<meta/>`).
#[derive(Debug, Clone, Copy, PartialEq, Eq, Structural)]
pub enum ElementVariant {
    /// An element that can have children.
    Normal,
    /// An element that cannot have children.
    Void,
}

/// An HTML element with its attributes and children.
#[derive(Debug, PartialEq)]
pub struct DomElement {
    /// The id of the element.
    pub id: Option<String>,
    /// The name (tag) of the element.
    pub name: String,
    /// Whether the element is void.
    pub variant: ElementVariant,
    /// The attributes other than id and class, in order, with their values if any.
    pub attributes: Vec<(String, Option<String>)>,
    /// The classes of the element.
    pub classes: Vec<String>,
    /// The child nodes of the element.
    pub children: Vec<DomNode>,
}

/// A node of an HTML tree.
#[derive(Debug, PartialEq)]
pub enum DomNode {
    /// Text.
    Text(String),
    /// An element.
    Element(DomElement),
    /// A comment.
    Comment(String),
}

/// The text of an element, as the contracts see it.
pub struct ElementView {
    pub id: Option<Seq<char>>,
    pub name: Seq<char>,
    pub variant: ElementVariant,
    pub attributes: Seq<(Seq<char>, Option<Seq<char>>)>,
    pub classes: Seq<Seq<char>>,
    pub children: Seq<NodeView>,
}

/// A node, as the contracts see it.
pub enum NodeView {
    Text(Seq<char>),
    Element(ElementView),
    Comment(Seq<char>),
}

/// The text of an optional string.
pub open spec fn opt_text(o: Option<String>) -> Option<Seq<char>> {
    match o {
        Some(s) => Some(s@),
        None => None,
    }
}

/// The text of a list of attributes.
pub open spec fn attrs_view(a: Seq<(String, Option<String>)>) -> Seq<(Seq<char>, Option<Seq<char>>)> {
    a.map_values(|p: (String, Option<String>)| (p.0@, opt_text(p.1)))
}

/// The view of a node.
pub open spec fn view_node(n: DomNode) -> NodeView
    decreases n,
{
    match n {
        DomNode::Text(t) => NodeView::Text(t@),
        DomNode::Comment(c) => NodeView::Comment(c@),
        DomNode::Element(e) => NodeView::Element(
            ElementView {
                id: opt_text(e.id),
                name: e.name@,
                variant: e.variant,
                attributes: attrs_view(e.attributes@),
                classes: texts(e.classes@),
                children: view_nodes(e.children@),
            },
        ),
    }
}

/// The views of a sequence of nodes.
pub open spec fn view_nodes(ns: Seq<DomNode>) -> Seq<NodeView>
    decreases ns,
{
    if ns.len() == 0 {
        Seq::empty()
    } else {
        view_nodes(ns.drop_last()).push(view_node(ns.last()))
    }
}

/// `view_nodes` views each node.
pub proof fn lemma_view_nodes(ns: Seq<DomNode>)
    ensures
        view_nodes(ns).len() == ns.len(),
        forall|i: int| 0 <= i < ns.len() ==> #[trigger] view_nodes(ns)[i] == view_node(ns[i]),
    decreases ns.len(),
{
    if ns.len() > 0 {
        lemma_view_nodes(ns.drop_last());
        assert forall|i: int| 0 <= i < ns.len() implies #[trigger] view_nodes(ns)[i] == view_node(
            ns[i],
        ) by {
            if i < ns.len() - 1 {
                assert(ns.drop_last()[i] == ns[i]);
            }
        }
    }
}

/// `view_nodes` of a prefix is the prefix of `view_nodes`.
pub proof fn lemma_view_nodes_take(ns: Seq<DomNode>, k: int)
    requires
        0 <= k <= ns.len(),
    ensures
        view_nodes(ns.take(k)) == view_nodes(ns).take(k),
{
    lemma_view_nodes(ns);
    lemma_view_nodes(ns.take(k));
    assert(view_nodes(ns.take(k)) =~= view_nodes(ns).take(k));
}

/// `view_nodes` of a concatenation.
pub proof fn lemma_view_nodes_concat(a: Seq<DomNode>, b: Seq<DomNode>)
    ensures
        view_nodes(a + b) == view_nodes(a) + view_nodes(b),
{
    lemma_view_nodes(a);
    lemma_view_nodes(b);
    lemma_view_nodes(a + b);
    assert(view_nodes(a + b) =~= view_nodes(a) + view_nodes(b));
}

/// `view_nodes` of a longer sequence.
pub proof fn lemma_view_nodes_push(ns: Seq<DomNode>, n: DomNode)
    ensures
        view_nodes(ns.push(n)) == view_nodes(ns).push(view_node(n)),
{
    assert(ns.push(n).drop_last() =~= ns);
}

/// The pieces of HTML that `dom_tree_to_html` writes for a sequence of nodes.
pub open spec fn html_nodes(ns: Seq<NodeView>) -> Seq<Seq<char>>
    decreases ns,
{
    if ns.len() == 0 {
        Seq::empty()
    } else {
        html_nodes(ns.drop_last()) + html_node(ns.last())
    }
}

/// The pieces for the classes: none without classes, else `class="`, each class
/// followed by a space, and `"`.
pub open spec fn class_pieces(classes: Seq<Seq<char>>) -> Seq<Seq<char>> {
    if classes.len() == 0 {
        Seq::empty()
    } else {
        seq!["class=\""@] + classes.map_values(|c: Seq<char>| c + " "@) + seq!["\""@]
    }
}

/// The piece for the id: `id="..."`, if there is one.
pub open spec fn id_pieces(id: Option<Seq<char>>) -> Seq<Seq<char>> {
    match id {
        Some(i) => seq!["id=\""@ + i + "\""@],
        None => Seq::empty(),
    }
}

/// The piece for one attribute: `name="value" ` or, without a value, `name `.
pub open spec fn attr_piece(a: (Seq<char>, Option<Seq<char>>)) -> Seq<char> {
    match a.1 {
        Some(v) => a.0 + "=\""@ + v + "\" "@,
        None => a.0 + " "@,
    }
}

/// The pieces that open an element: `<name `, its classes, its id, its attributes.
pub open spec fn open_pieces(e: ElementView) -> Seq<Seq<char>> {
    seq!["<"@ + e.name + " "@] + class_pieces(e.classes) + id_pieces(e.id) + e.attributes.map_values(
        |a: (Seq<char>, Option<Seq<char>>)| attr_piece(a),
    )
}

/// The pieces of HTML for one node: a text as it is, nothing for a comment; an
/// element is opened, then closed by `/>` where it is void, else by `>`, the
/// pieces of its children and `</name>`.
pub open spec fn html_node(n: NodeView) -> Seq<Seq<char>>
    decreases n,
{
    match n {
        NodeView::Text(t) => seq![t],
        NodeView::Comment(_) => Seq::empty(),
        NodeView::Element(e) => if e.variant == ElementVariant::Void {
            open_pieces(e) + seq!["/>"@]
        } else {
            open_pieces(e) + seq![">"@] + html_nodes(e.children) + seq!["</"@ + e.name + ">"@]
        },
    }
}

/// Adds one string at the end of `out`.
fn push_text(out: &mut Vec<String>, s: String)
    ensures
        texts(final(out)@) == texts(old(out)@).push(s@),
{
    out.push(s);
    assert(texts(out@) =~= texts(old(out)@).push(s@));
}

/// Writes the pieces for the classes.
fn write_classes(classes: &Vec<String>, out: &mut Vec<String>)
    ensures
        texts(final(out)@) == texts(old(out)@) + class_pieces(texts(classes@)),
{
    if classes.len() == 0 {
        assert(texts(out@) =~= texts(out@) + class_pieces(texts(classes@)));
        return;
    }
    let ghost start = texts(out@);
    let ghost cs = texts(classes@);
    push_text(out, String::from_str("class=\""));
    let mut i: usize = 0;
    while i < classes.len()
        invariant
            i <= classes.len(),
            cs == texts(classes@),
            texts(out@) == start + seq!["class=\""@] + cs.take(i as int).map_values(
                |c: Seq<char>| c + " "@,
            ),
        decreases classes.len() - i,
    {
        let piece = classes[i].clone().concat(" ");
        push_text(out, piece);
        i = i + 1;
        assert(cs.take(i as int).map_values(|c: Seq<char>| c + " "@) =~= cs.take(i - 1).map_values(
            |c: Seq<char>| c + " "@,
        ).push(cs[i - 1] + " "@));
    }
    push_text(out, String::from_str("\""));
    assert(cs.take(classes.len() as int) =~= cs);
    assert(texts(out@) =~= start + class_pieces(cs));
}

/// Writes the pieces for the attributes.
fn write_attributes(attributes: &Vec<(String, Option<String>)>, out: &mut Vec<String>)
    ensures
        texts(final(out)@) == texts(old(out)@) + attrs_view(attributes@).map_values(
            |a: (Seq<char>, Option<Seq<char>>)| attr_piece(a),
        ),
{
    let ghost start = texts(out@);
    let ghost avs = attrs_view(attributes@);
    let mut i: usize = 0;
    assert(avs.take(0).map_values(|a: (Seq<char>, Option<Seq<char>>)| attr_piece(a)) =~= Seq::<
        Seq<char>,
    >::empty());
    assert(texts(out@) =~= start + Seq::<Seq<char>>::empty());
    while i < attributes.len()
        invariant
            i <= attributes.len(),
            avs == attrs_view(attributes@),
            texts(out@) == start + avs.take(i as int).map_values(
                |a: (Seq<char>, Option<Seq<char>>)| attr_piece(a),
            ),
        decreases attributes.len() - i,
    {
        let piece = match &attributes[i].1 {
            Some(v) => attributes[i].0.clone().concat("=\"").concat(v.as_str()).concat("\" "),
            None => attributes[i].0.clone().concat(" "),
        };
        assert(piece@ == attr_piece(avs[i as int]));
        push_text(out, piece);
        i = i + 1;
        assert(avs.take(i as int).map_values(|a: (Seq<char>, Option<Seq<char>>)| attr_piece(a))
            =~= avs.take(i - 1).map_values(|a: (Seq<char>, Option<Seq<char>>)| attr_piece(a)).push(
            attr_piece(avs[i - 1]),
        ));
    }
    assert(avs.take(attributes.len() as int) =~= avs);
}

/// Writes the pieces of HTML for one node.
fn write_node(node: &DomNode, out: &mut Vec<String>)
    ensures
        texts(final(out)@) == texts(old(out)@) + html_node(view_node(*node)),
    decreases node,
{
    match node {
        DomNode::Text(t) => {
            push_text(out, t.clone());
            assert(texts(out@) =~= texts(old(out)@) + html_node(view_node(*node)));
        },
        DomNode::Comment(_) => {
            assert(texts(out@) =~= texts(old(out)@) + html_node(view_node(*node)));
        },
        DomNode::Element(e) => {
            let ghost ev = match view_node(*node) {
                NodeView::Element(ev) => ev,
                _ => arbitrary(),
            };
            push_text(out, String::from_str("<").concat(e.name.as_str()).concat(" "));
            write_classes(&e.classes, out);
            match &e.id {
                Some(id) => {
                    push_text(out, String::from_str("id=\"").concat(id.as_str()).concat("\""));
                },
                None => {},
            }
            write_attributes(&e.attributes, out);
            assert(texts(out@) =~= texts(old(out)@) + open_pieces(ev));
            if e.variant == ElementVariant::Void {
                push_text(out, String::from_str("/>"));
                assert(texts(out@) =~= texts(old(out)@) + html_node(view_node(*node)));
                return;
            }
            push_text(out, String::from_str(">"));
            write_nodes(&e.children, out);
            push_text(out, String::from_str("</").concat(e.name.as_str()).concat(">"));
            assert(texts(out@) =~= texts(old(out)@) + html_node(view_node(*node)));
        },
    }
}

/// Writes the pieces of HTML for a sequence of nodes.
fn write_nodes(nodes: &Vec<DomNode>, out: &mut Vec<String>)
    ensures
        texts(final(out)@) == texts(old(out)@) + html_nodes(view_nodes(nodes@)),
    decreases nodes,
{
    let ghost start = texts(out@);
    let mut i: usize = 0;
    assert(texts(out@) =~= start + html_nodes(view_nodes(nodes@.take(0))));
    while i < nodes.len()
        invariant
            i <= nodes.len(),
            texts(out@) == start + html_nodes(view_nodes(nodes@.take(i as int))),
        decreases nodes.len() - i,
    {
        proof {
            assert(decreases_to!(nodes => nodes@));
            assert(decreases_to!(nodes@ => nodes@[i as int]));
        }
        write_node(&nodes[i], out);
        proof {
            assert(nodes@.take(i + 1) =~= nodes@.take(i as int).push(nodes@[i as int]));
            lemma_view_nodes_push(nodes@.take(i as int), nodes@[i as int]);
            let vs = view_nodes(nodes@.take(i as int));
            assert(vs.push(view_node(nodes@[i as int])).drop_last() =~= vs);
        }
        i = i + 1;
        assert(texts(out@) =~= start + html_nodes(view_nodes(nodes@.take(i as int))));
    }
    assert(nodes@.take(nodes.len() as int) =~= nodes@);
}

/// Renders a tree of nodes as pieces of HTML, in order: comments are left out,
/// texts are written as they are, elements with their classes, id and attributes,
/// a void element closed by `/>`.
pub fn dom_tree_to_html(dom_tree: Vec<DomNode>) -> (res: Vec<String>)
    ensures
        texts(res@) == html_nodes(view_nodes(dom_tree@)),
{
    let mut out: Vec<String> = Vec::new();
    assert(texts(out@) =~= Seq::<Seq<char>>::empty());
    write_nodes(&dom_tree, &mut out);
    assert(texts(out@) =~= html_nodes(view_nodes(dom_tree@)));
    out
}

/// A copy of an optional string.
pub fn clone_opt(o: &Option<String>) -> (res: Option<String>)
    ensures
        opt_text(res) == opt_text(*o),
{
    match o {
        Some(s) => Some(s.clone()),
        None => None,
    }
}

/// A copy of a list of strings.
pub fn clone_strings(v: &Vec<String>) -> (res: Vec<String>)
    ensures
        texts(res@) == texts(v@),
{
    let mut res: Vec<String> = Vec::new();
    let mut i: usize = 0;
    while i < v.len()
        invariant
            i <= v.len(),
            texts(res@) == texts(v@).take(i as int),
        decreases v.len() - i,
    {
        push_text(&mut res, v[i].clone());
        i = i + 1;
        assert(texts(res@) =~= texts(v@).take(i as int));
    }
    assert(texts(v@).take(v.len() as int) =~= texts(v@));
    res
}

/// A copy of a list of attributes.
pub fn clone_attributes(v: &Vec<(String, Option<String>)>) -> (res: Vec<(String, Option<String>)>)
    ensures
        attrs_view(res@) == attrs_view(v@),
{
    let mut res: Vec<(String, Option<String>)> = Vec::new();
    let mut i: usize = 0;
    while i < v.len()
        invariant
            i <= v.len(),
            res.len() == i,
            attrs_view(res@) == attrs_view(v@).take(i as int),
        decreases v.len() - i,
    {
        let ghost before = res@;
        res.push((v[i].0.clone(), clone_opt(&v[i].1)));
        i = i + 1;
        assert forall|k: int| 0 <= k < i - 1 implies res@[k] == before[k] by {}
        assert(attrs_view(res@) =~= attrs_view(v@).take(i as int));
    }
    assert(attrs_view(v@).take(v.len() as int) =~= attrs_view(v@));
    res
}

/// A copy of a node and all that it holds.
pub fn clone_node(n: &DomNode) -> (res: DomNode)
    ensures
        view_node(res) == view_node(*n),
    decreases n,
{
    match n {
        DomNode::Text(t) => DomNode::Text(t.clone()),
        DomNode::Comment(c) => DomNode::Comment(c.clone()),
        DomNode::Element(e) => DomNode::Element(
            DomElement {
                id: clone_opt(&e.id),
                name: e.name.clone(),
                variant: e.variant,
                attributes: clone_attributes(&e.attributes),
                classes: clone_strings(&e.classes),
                children: clone_nodes(&e.children),
            },
        ),
    }
}

/// A copy of a list of nodes and all that they hold.
pub fn clone_nodes(ns: &Vec<DomNode>) -> (res: Vec<DomNode>)
    ensures
        view_nodes(res@) == view_nodes(ns@),
    decreases ns,
{
    let mut res: Vec<DomNode> = Vec::new();
    let mut i: usize = 0;
    assert(ns@.take(0) =~= res@);
    while i < ns.len()
        invariant
            i <= ns.len(),
            view_nodes(res@) == view_nodes(ns@.take(i as int)),
        decreases ns.len() - i,
    {
        proof {
            assert(decreases_to!(ns => ns@));
            assert(decreases_to!(ns@ => ns@[i as int]));
        }
        let c = clone_node(&ns[i]);
        proof {
            lemma_view_nodes_push(res@, c);
            lemma_view_nodes_push(ns@.take(i as int), ns@[i as int]);
            assert(ns@.take(i + 1) =~= ns@.take(i as int).push(ns@[i as int]));
        }
        res.push(c);
        i = i + 1;
    }
    assert(ns@.take(ns.len() as int) =~= ns@);
    res
}

/// The HTML of two sequences of nodes, one after the other, is the HTML of the
/// first followed by that of the second.
pub proof fn law_html_concat(a: Seq<NodeView>, b: Seq<NodeView>)
    ensures
        html_nodes(a + b) == html_nodes(a) + html_nodes(b),
    decreases b.len(),
{
    if b.len() == 0 {
        assert(a + b =~= a);
        assert(html_nodes(a) + html_nodes(b) =~= html_nodes(a));
    } else {
        law_html_concat(a, b.drop_last());
        assert((a + b).drop_last() =~= a + b.drop_last());
        assert((a + b).last() == b.last());
        assert(html_nodes(a) + html_nodes(b.drop_last()) + html_node(b.last()) =~= html_nodes(a) + (
        html_nodes(b.drop_last()) + html_node(b.last())));
    }
}

/// Every element is written the same way up to its end, void or not: first
/// `<name `, then, after the pieces of its classes (none without classes, else
/// one for each class and two more), the piece `id="..."` where it has an id. A
/// void element is written as the same element with children would be without
/// its last two pieces (`>` and the closing tag), followed by `/>`.
pub proof fn law_element_pieces(e: ElementView)
    ensures
        ({
            let out = html_node(NodeView::Element(e));
            let c: int = if e.classes.len() == 0 { 0 } else { e.classes.len() as int + 2 };
            &&& out.len() >= 2 + c
            &&& out[0] == "<"@ + e.name + " "@
            &&& e.id matches Some(i) ==> out[1 + c] == "id=\""@ + i + "\""@
        }),
        e.variant == ElementVariant::Void ==> ({
            let open = html_node(
                NodeView::Element(
                    ElementView {
                        id: e.id,
                        name: e.name,
                        variant: ElementVariant::Normal,
                        attributes: e.attributes,
                        classes: e.classes,
                        children: Seq::empty(),
                    },
                ),
            );
            html_node(NodeView::Element(e)) == open.take(open.len() - 2) + seq!["/>"@]
        }),
{
    let out = html_node(NodeView::Element(e));
    let c: int = class_pieces(e.classes).len() as int;
    let attrs = e.attributes.map_values(|a: (Seq<char>, Option<Seq<char>>)| attr_piece(a));
    assert(open_pieces(e) == seq!["<"@ + e.name + " "@] + class_pieces(e.classes) + id_pieces(e.id)
        + attrs);
    assert(open_pieces(e)[0] == "<"@ + e.name + " "@);
    if e.id is Some {
        assert(open_pieces(e)[1 + c] == id_pieces(e.id)[0]);
    }
    let n = ElementView {
        id: e.id,
        name: e.name,
        variant: ElementVariant::Normal,
        attributes: e.attributes,
        classes: e.classes,
        children: Seq::empty(),
    };
    assert(open_pieces(n) == open_pieces(e));
    assert(html_nodes(n.children) =~= Seq::<Seq<char>>::empty());
    let open = html_node(NodeView::Element(n));
    assert(open.take(open.len() - 2) =~= open_pieces(e));
}

/// The classes of an element are written after `<name ` as `class="`, each class
/// followed by a space, and `"`; then, after the id, each attribute in order, as
/// `name="value" ` or, without a value, `name `.
pub proof fn law_element_class_and_attribute_pieces(e: ElementView)
    ensures
        ({
            let out = html_node(NodeView::Element(e));
            let c: int = if e.classes.len() == 0 { 0 } else { e.classes.len() as int + 2 };
            let d: int = if e.id is Some { 1 } else { 0 };
            &&& out.len() >= 1 + c + d + e.attributes.len()
            &&& e.classes.len() > 0 ==> out[1] == "class=\""@ && out[c] == "\""@
            &&& forall|k: int| 0 <= k < e.classes.len() ==> out[2 + k] == #[trigger] e.classes[k] + " "@
            &&& forall|k: int|
                0 <= k < e.attributes.len() ==> out[1 + c + d + k] == match #[trigger] e.attributes[k].1 {
                    Some(v) => e.attributes[k].0 + "=\""@ + v + "\" "@,
                    None => e.attributes[k].0 + " "@,
                }
        }),
{
    let c: int = class_pieces(e.classes).len() as int;
    let d: int = id_pieces(e.id).len() as int;
    let attrs = e.attributes.map_values(|a: (Seq<char>, Option<Seq<char>>)| attr_piece(a));
    let o = open_pieces(e);
    assert(o == seq!["<"@ + e.name + " "@] + class_pieces(e.classes) + id_pieces(e.id) + attrs);
    assert forall|k: int| 0 <= k < e.classes.len() implies o[2 + k] == e.classes[k] + " "@ by {
        assert(o[2 + k] == class_pieces(e.classes)[1 + k]);
    }
    assert forall|k: int| 0 <= k < e.attributes.len() implies o[1 + c + d + k] == attr_piece(
        e.attributes[k],
    ) by {
        assert(o[1 + c + d + k] == attrs[k]);
    }
    if e.classes.len() > 0 {
        assert(o[1] == class_pieces(e.classes)[0]);
        assert(o[c] == class_pieces(e.classes)[c - 1]);
    }
}

/// An element as the HTML parser describes it: its attributes form a set, as the
/// parser keeps them in a map, with no order among them.
pub struct ElementShape {
    pub id: Option<Seq<char>>,
    pub name: Seq<char>,
    pub variant: ElementVariant,
    pub attributes: Set<(Seq<char>, Option<Seq<char>>)>,
    pub classes: Seq<Seq<char>>,
    pub children: Seq<NodeShape>,
}

/// A node as the HTML parser describes it.
pub enum NodeShape {
    Text(Seq<char>),
    Element(ElementShape),
    Comment(Seq<char>),
}

/// A node without the order of the attributes of its elements.
pub open spec fn shape_node(n: NodeView) -> NodeShape
    decreases n,
{
    match n {
        NodeView::Text(t) => NodeShape::Text(t),
        NodeView::Comment(c) => NodeShape::Comment(c),
        NodeView::Element(e) => NodeShape::Element(
            ElementShape {
                id: e.id,
                name: e.name,
                variant: e.variant,
                attributes: e.attributes.to_set(),
                classes: e.classes,
                children: shape_nodes(e.children),
            },
        ),
    }
}

/// A sequence of nodes without the order of the attributes of their elements.
pub open spec fn shape_nodes(ns: Seq<NodeView>) -> Seq<NodeShape>
    decreases ns,
{
    if ns.len() == 0 {
        Seq::empty()
    } else {
        shape_nodes(ns.drop_last()).push(shape_node(ns.last()))
    }
}

/// The root nodes of the tree that `html_parser::Dom::parse` builds of a text, or
/// `None` where it refuses the text.
pub uninterp spec fn parsed_html(input: Seq<char>) -> Option<Seq<NodeShape>>;

/// A node of a tree that html_parser built.
#[verifier::external_type_specification]
#[verifier::external_body]
pub struct ExParsedNode(html_parser::Node);

/// The error that html_parser reports.
#[verifier::external_type_specification]
#[verifier::external_body]
pub struct ExParseError(html_parser::Error);

/// Converts a node that html_parser built into a node of this library, field by
/// field and child by child, for `dom_parse`; its attributes come in the order in
/// which the parser's attribute map hands them out, which std leaves open.
#[verifier::external_body]
fn node_from_parsed(node: html_parser::Node) -> DomNode {
    match node {
        html_parser::Node::Text(t) => DomNode::Text(t),
        html_parser::Node::Comment(c) => DomNode::Comment(c),
        html_parser::Node::Element(e) => DomNode::Element(DomElement {
            variant: match e.variant {
                html_parser::ElementVariant::Void => ElementVariant::Void,
                html_parser::ElementVariant::Normal => ElementVariant::Normal,
            },
            attributes: e.attributes.into_iter().collect(),
            children: e.children.into_iter().map(node_from_parsed).collect(),
            id: e.id, name: e.name, classes: e.classes,
        }),
    }
}

/// Parses HTML text with `html_parser::Dom::parse` and hands back the root
/// children of the tree, converted node by node, or the parser's error. The
/// contract claims that the parser's result depends on the text alone (named
/// `parsed_html`); the order in which the attributes of an element come out is
/// not stated, as it follows the parser's hash map.
#[verifier::external_body]
fn dom_parse(input: &str) -> (res: Result<Vec<DomNode>, html_parser::Error>)
    ensures
        res is Ok <==> parsed_html(input@) is Some,
        res matches Ok(v) ==> shape_nodes(view_nodes(v@)) == parsed_html(input@)->Some_0,
{
    html_parser::Dom::parse(input).map(|dom| dom.children.into_iter().map(node_from_parsed).collect())
}

/// Parses HTML text into a tree of nodes: the tree that the HTML parser builds of
/// it (the attributes of an element in some order); a text that the parser
/// refuses gives `ErrorType::Parse("Unable to parse dom tree")`.
pub fn parse_dom(input: &str) -> (res: Result<Vec<DomNode>, ErrorType>)
    ensures
        match parsed_html(input@) {
            Some(t) => res matches Ok(v) && shape_nodes(view_nodes(v@)) == t,
            None => res == Err::<Vec<DomNode>, ErrorType>(
                ErrorType::Parse("Unable to parse dom tree"),
            ),
        },
{
    match dom_parse(input) {
        Ok(nodes) => Ok(nodes),
        Err(_) => Err(ErrorType::Parse("Unable to parse dom tree")),
    }
}

} // verus!
