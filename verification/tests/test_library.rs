use craine::cmd_params::Command;
use craine::compose::{absorb_import, compile_page, finish_file, replace_dom, try_replace_dom, Components, CraineHash};
use craine::dom::{dom_tree_to_html, parse_dom, DomElement, DomNode, ElementVariant};
use craine::error_handler::ErrorType;
use craine::imports::{import_candidate, import_target_of, resolve_import, take_imports};
use craine::paths::{
    add_extension, asset_output_path, classify_file, get_extension, get_name, is_component,
    page_output_path, unused_components, find_unused_components, FileKind,
};
use craine::text::{chars_of, join_strings, replace_all_chars, split_chars};
use craine::var_parser::{get_variables, replace_variables, substitute, Variables};
use craine::workspace::{
    config_path_choice, configured_src_dir, configured_src_dir_choice, get_configured_src_dir, get_src_dir,
    get_workspace_config_path, src_dir_choice, WorkspaceConfig,
};

fn s(x: &str) -> String {
    x.to_string()
}

fn vars(pairs: &[(&str, &str)]) -> Variables {
    let mut v = Variables::new();
    for (n, x) in pairs {
        v.insert(s(n), s(x));
    }
    v
}

fn text(t: &str) -> DomNode {
    DomNode::Text(s(t))
}

fn element(name: &str, children: Vec<DomNode>) -> DomNode {
    DomNode::Element(DomElement {
        id: None,
        name: s(name),
        variant: ElementVariant::Normal,
        attributes: vec![],
        classes: vec![],
        children,
    })
}

fn html(nodes: Vec<DomNode>) -> String {
    dom_tree_to_html(nodes).join("")
}

#[test]
fn error_messages_carry_their_tag() {
    assert_eq!(ErrorType::WorkDir("a").message(), "[work_dir] a");
    assert_eq!(ErrorType::Workspace("b").message(), "[workspace] b");
    assert_eq!(ErrorType::BuildDir("c").message(), "[build_dir] c");
    assert_eq!(ErrorType::Parse("Empty variable name").message(), "[parse] Empty variable name");
}

#[test]
fn replace_variables_replaces_each_use() {
    let r = replace_variables("color: (color); border: (border) (color)", vars(&[("color", "blue"), ("border", "1px")]));
    assert_eq!(r.unwrap(), "color: blue; border: 1px blue");
}

#[test]
fn replace_variables_without_uses_keeps_text() {
    let r = replace_variables("plain text, no uses", vars(&[("color", "blue")]));
    assert_eq!(r.unwrap(), "plain text, no uses");
    assert_eq!(replace_variables("(color)", Variables::new()).unwrap(), "(color)");
}

#[test]
fn replace_variables_takes_variables_in_order() {
    // a value that holds a use of a later variable is replaced again
    let r = replace_variables("(a)", vars(&[("a", "(b)"), ("b", "x")]));
    assert_eq!(r.unwrap(), "x");
    let r = replace_variables("(a)", vars(&[("b", "x"), ("a", "(b)")]));
    assert_eq!(r.unwrap(), "(b)");
}

#[test]
fn replace_all_is_left_to_right_without_overlap() {
    let out = replace_all_chars(&chars_of("aaaa"), &chars_of("aa"), &chars_of("b"));
    assert_eq!(out.into_iter().collect::<String>(), "bb");
    let out = replace_all_chars(&chars_of("aaa"), &chars_of("aa"), &chars_of("b"));
    assert_eq!(out.into_iter().collect::<String>(), "ba");
}

#[test]
fn get_variables_edge_cases() {
    let v = get_variables(&["{a||b}}"]).unwrap();
    assert_eq!(v.get("a"), Some(s("b}")));
    let v = get_variables(&["{a b||c}"]).unwrap();
    assert_eq!(v.len(), 0);
    let v = get_variables(&["{{x||y}"]).unwrap();
    assert_eq!(v.get("x"), Some(s("y")));
    let v = get_variables(&["{x||}"]).unwrap();
    assert_eq!(v.len(), 0);
    let v = get_variables(&["text {x||1} more"]).unwrap();
    assert_eq!(v.get("x"), Some(s("1")));
    let v = get_variables(&["{x||1}", "{y||2}", "{x||3}"]).unwrap();
    assert_eq!(v.get("x"), Some(s("3")));
    assert_eq!(v.get("y"), Some(s("2")));
    assert_eq!(v.len(), 2);
    match get_variables(&["{a||1}", "{||2}"]) {
        Err(ErrorType::Parse(m)) => assert_eq!(m, "Empty variable name"),
        _ => panic!("expected a parse error"),
    }
}

#[test]
fn variables_insert_and_extend() {
    let mut a = vars(&[("x", "1"), ("y", "2")]);
    let b = vars(&[("y", "3"), ("z", "4")]);
    a.extend(&b);
    assert_eq!(a.entries(), vec![(s("x"), s("1")), (s("y"), s("3")), (s("z"), s("4"))]);
    assert_eq!(a.duplicate().entries(), a.entries());
    assert_eq!(a.get("w"), None);
    assert_eq!(substitute("(x)(y)(z)", &a), "134");
}

#[test]
fn html_of_elements() {
    let node = DomNode::Element(DomElement {
        id: Some(s("main")),
        name: s("div"),
        variant: ElementVariant::Normal,
        attributes: vec![(s("lang"), Some(s("en"))), (s("hidden"), None)],
        classes: vec![s("a"), s("b")],
        children: vec![text("hi"), DomNode::Comment(s("note"))],
    });
    assert_eq!(
        dom_tree_to_html(vec![node]),
        vec![
            "<div ", "class=\"", "a ", "b ", "\"", "id=\"main\"", "lang=\"en\" ", "hidden ", ">", "hi",
            "</div>"
        ]
    );
    let void = DomNode::Element(DomElement {
        id: None,
        name: s("meta"),
        variant: ElementVariant::Void,
        attributes: vec![(s("charset"), Some(s("UTF-8")))],
        classes: vec![],
        children: vec![text("dropped")],
    });
    assert_eq!(dom_tree_to_html(vec![void]), vec!["<meta ", "charset=\"UTF-8\" ", "/>"]);
}

#[test]
fn html_of_a_concatenation() {
    let a = vec![element("p", vec![text("x")])];
    let b = vec![text("y"), DomNode::Comment(s("c"))];
    let mut ab = vec![element("p", vec![text("x")])];
    ab.extend(vec![text("y"), DomNode::Comment(s("c"))]);
    let mut both = dom_tree_to_html(a);
    both.extend(dom_tree_to_html(b));
    assert_eq!(dom_tree_to_html(ab), both);
}

#[test]
fn parse_then_render() {
    let tree = parse_dom("<div id=\"a\" class=\"b c\">Hello</div>").unwrap();
    assert_eq!(html(tree), "<div class=\"b c \"id=\"a\">Hello</div>");
}

#[test]
fn parse_refused() {
    match parse_dom("<body>\n<p>x</p>\n</body>") {
        Err(ErrorType::Parse(m)) => assert_eq!(m, "Unable to parse dom tree"),
        _ => panic!("expected a parse error"),
    }
}

fn fancy_button() -> Components {
    let mut c = Components::new();
    c.insert(
        s("FancyButton"),
        vec![DomNode::Element(DomElement {
            id: None,
            name: s("button"),
            variant: ElementVariant::Normal,
            attributes: vec![],
            classes: vec![s("(color)")],
            children: vec![text("Click me!!")],
        })],
    );
    c
}

#[test]
fn a_component_becomes_a_div() {
    let page = vec![element("FancyButton", vec![text("{color||blue}")])];
    let out = replace_dom(page, &fancy_button(), Variables::new());
    assert_eq!(html(out), "<div ><button class=\"blue \">Click me!!</button></div>");
}

#[test]
fn variables_are_scoped_to_their_use() {
    let page = vec![
        element("FancyButton", vec![text("{color||blue}")]),
        element("FancyButton", vec![]),
        text("(color)"),
    ];
    let out = replace_dom(page, &fancy_button(), vars(&[("color", "red")]));
    assert_eq!(
        html(out),
        "<div ><button class=\"blue \">Click me!!</button></div><div ><button class=\"red \">Click me!!</button></div>red"
    );
}

#[test]
fn refused_uses() {
    let page = vec![element("FancyButton", vec![element("b", vec![])])];
    assert!(try_replace_dom(page, &fancy_button(), Variables::new()).is_none());
    let page = vec![element("FancyButton", vec![text("{||blue}")])];
    assert!(try_replace_dom(page, &fancy_button(), Variables::new()).is_none());
}

#[test]
fn a_component_used_in_its_own_expansion_is_refused() {
    let mut c = Components::new();
    c.insert(s("Loop"), vec![element("Loop", vec![])]);
    assert!(try_replace_dom(vec![element("Loop", vec![])], &c, Variables::new()).is_none());
    let mut c = Components::new();
    c.insert(s("A"), vec![element("p", vec![element("B", vec![])])]);
    c.insert(s("B"), vec![element("A", vec![])]);
    assert!(try_replace_dom(vec![element("A", vec![])], &c, Variables::new()).is_none());
    let mut c = Components::new();
    c.insert(s("A"), vec![element("B", vec![]), element("B", vec![])]);
    c.insert(s("B"), vec![text("b")]);
    let out = replace_dom(vec![element("A", vec![])], &c, Variables::new());
    assert_eq!(html(out), "<div ><div >b</div><div >b</div></div>");
}

#[test]
fn expansion_drops_comments() {
    let page = vec![DomNode::Comment(s("x")), element("p", vec![DomNode::Comment(s("y")), text("t")])];
    let out = replace_dom(page, &Components::new(), Variables::new());
    assert_eq!(out, vec![element("p", vec![text("t")])]);
}

#[test]
fn components_insert_if_absent() {
    let mut c = Components::new();
    c.insert_if_absent(s("A"), vec![text("1")]);
    c.insert_if_absent(s("A"), vec![text("2")]);
    assert_eq!(c.get(&s("A")), Some(vec![text("1")]));
    c.insert(s("A"), vec![text("3")]);
    assert_eq!(c.get(&s("A")), Some(vec![text("3")]));
    assert!(c.contains(&s("A")));
    assert!(!c.contains(&s("B")));
    assert_eq!(c.len(), 1);
    assert_eq!(c.into_entries(), vec![(s("A"), vec![text("3")])]);
}

#[test]
fn compile_the_readme_page() {
    let page = parse_dom("<main>\n<FancyButton>\n{color||blue}\n</FancyButton>\n</main>").unwrap();
    let component = parse_dom("<button class=\"fancy\">(color)</button>").unwrap();
    let mut c = Components::new();
    c.insert(s("FancyButton"), component);
    let out = compile_page(page, &c).unwrap();
    assert_eq!(out, "<main \n>\n<div \n>\n<button \nclass=\"\nfancy \n\"\n>\nblue\n</button>\n</div>\n</main>");
}

#[test]
fn file_names() {
    assert_eq!(get_name("a/b.tar.gz"), Some(s("b.tar")));
    assert_eq!(get_name(".craine"), Some(s(".craine")));
    assert_eq!(get_name("dir/file"), Some(s("file")));
    assert_eq!(get_name("/"), None);
    assert_eq!(get_name("a/.."), None);
    assert_eq!(get_extension("a/b.tar.gz"), Some(s("gz")));
    assert_eq!(get_extension(".craine"), None);
    assert_eq!(get_extension("a/b."), Some(s("")));
    assert!(!is_component(s("")));
}

#[test]
fn files_are_sorted() {
    assert_eq!(classify_file("src/FancyButton.html").unwrap(), FileKind::Component);
    assert_eq!(classify_file("src/index.html").unwrap(), FileKind::Page);
    assert_eq!(classify_file("src/style.css").unwrap(), FileKind::Asset);
    assert_eq!(classify_file("src/README").unwrap(), FileKind::Component);
    match classify_file("/") {
        Err(ErrorType::WorkDir(m)) => assert_eq!(m, "Can not convert filename to string"),
        _ => panic!("expected an error"),
    }
}

#[test]
fn output_paths() {
    assert_eq!(page_output_path("/", "index"), "/index.html");
    assert_eq!(page_output_path("build", "index"), "build/index.html");
    let mut p = s("build/jquery.min");
    add_extension(&mut p, "js");
    assert_eq!(p, "build/jquery.min.js");
    let mut p = s("build/logo");
    add_extension(&mut p, "png");
    assert_eq!(p, "build/logo.png");
    assert_eq!(asset_output_path("build", "src/js/jquery.min.js"), Some(s("build/jquery.min.js")));
    assert_eq!(asset_output_path("build", "src/LICENSE"), None);
}

#[test]
fn unused_components_are_listed() {
    let comps = vec![s("src/A.html"), s("src/B.html"), s("src/C.html")];
    let used = vec![s("B")];
    assert_eq!(unused_components(&comps, &used), vec![s("src/A.html"), s("src/C.html")]);
}

#[test]
fn workspace_layout() {
    let w = WorkspaceConfig::new();
    assert_eq!(w.build_dir, Some(s("./build")));
    assert_eq!(w.src_dir, Some(s("./src")));
    assert_eq!(config_path_choice("ws", true, true), Some(s("ws/.craine")));
    assert_eq!(config_path_choice("ws", false, true), Some(s("ws/craine.json")));
    assert_eq!(config_path_choice("ws", false, false), None);
    assert_eq!(get_src_dir(s("/no/such/workspace/here")), None);
    assert_eq!(src_dir_choice("ws", true), Some(s("ws/src/")));
    assert_eq!(src_dir_choice("ws", false), None);
    assert_eq!(get_workspace_config_path(s("/no/such/workspace/here")), None);
}

#[test]
fn import_statements() {
    assert_eq!(import_target_of("import ./components/FancyButton.html"), Some(s("./components/FancyButton.html")));
    assert_eq!(import_target_of("import \t x"), Some(s("x")));
    assert_eq!(import_target_of("import x y"), None);
    assert_eq!(import_target_of("imports x"), None);
    assert_eq!(import_target_of("import"), None);
    assert_eq!(import_target_of("import "), None);
    assert_eq!(import_target_of(" import x"), None);
    let mut lines = vec![s("import a.html"), s("<p>"), s("import b.html"), s("</p>")];
    let targets = take_imports(&mut lines);
    assert_eq!(targets, vec![s("a.html"), s("b.html")]);
    assert_eq!(lines, vec![s(""), s("<p>"), s(""), s("</p>")]);
}

#[test]
fn text_helpers() {
    let pieces = split_chars(&chars_of("a\nb\n"), '\n');
    assert_eq!(pieces, vec![vec!['a'], vec!['b'], vec![]]);
    assert_eq!(join_strings(&vec![s("a"), s("b")], "\n"), "a\nb");
    assert_eq!(join_strings(&vec![], "\n"), "");
}

#[test]
fn command_paths() {
    let c = Command::Compile { path: s("ws"), autorun: false };
    assert_eq!(c.path(), "ws");
    let c = Command::Init { path: s("new") };
    assert_eq!(c.path(), "new");
}

#[test]
fn unused_components_checked() {
    let comps = vec![s("src/A.html"), s("src/B.html")];
    assert_eq!(find_unused_components(&comps, &vec![s("A")]), Some(vec![s("src/B.html")]));
    let comps = vec![s("src/A.html"), s("/")];
    assert_eq!(find_unused_components(&comps, &vec![]), None);
}

#[test]
fn imports_resolve() {
    assert_eq!(import_candidate("src/components", "Button.html"), "src/components/Button.html");
    assert_eq!(resolve_import(Some(s("/w/src/B.html")), true).unwrap(), "/w/src/B.html");
    match resolve_import(None, false) {
        Err(ErrorType::Parse(m)) => assert_eq!(m, "Can not find file/directory"),
        _ => panic!("expected a parse error"),
    }
    assert!(resolve_import(Some(s("/gone")), false).is_err());
}

#[test]
fn configured_source_directory() {
    let w = WorkspaceConfig { build_dir: None, src_dir: Some(s("./pages")) };
    assert_eq!(configured_src_dir(&w, "ws"), "./pages");
    let w2 = WorkspaceConfig { build_dir: None, src_dir: None };
    assert_eq!(configured_src_dir(&w2, "ws"), "ws/src/");
    assert_eq!(configured_src_dir_choice(&w, "ws", true), Some(s("./pages")));
    assert_eq!(configured_src_dir_choice(&w, "ws", false), None);
    let w3 = WorkspaceConfig { build_dir: None, src_dir: Some(s("/no/such/source/dir")) };
    assert_eq!(get_configured_src_dir(&w3, "ws"), None);
}

#[test]
fn combining_imported_files() {
    let mut comps = Components::new();
    comps.insert(s("A"), vec![text("mine")]);
    let mut used = vec![s("X")];
    let mut theirs = Components::new();
    theirs.insert(s("A"), vec![text("theirs")]);
    theirs.insert(s("B"), vec![text("b")]);
    let imported = CraineHash { dom_tree: vec![], component_hash: theirs, used_components: vec![s("C")] };
    absorb_import(&mut comps, &mut used, s("B"), imported);
    assert_eq!(used, vec![s("X"), s("B"), s("C")]);
    assert_eq!(comps.get(&s("A")), Some(vec![text("mine")]));
    assert_eq!(comps.get(&s("B")), Some(vec![text("b")]));
    let done = finish_file(comps, used, s("A"), vec![text("own")]);
    assert_eq!(done.component_hash.get(&s("A")), Some(vec![text("own")]));
    assert_eq!(done.dom_tree, vec![text("own")]);
    assert_eq!(done.used_components, vec![s("X"), s("B"), s("C")]);
}

#[test]
fn white_space_in_imports() {
    assert_eq!(import_target_of("import\u{3000}x"), Some(s("x")));
    assert_eq!(import_target_of("import\u{1c}x"), None);
}
