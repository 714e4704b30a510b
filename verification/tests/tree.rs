use lssg::sitemap::{Node, NodeType, SiteMap, Token};
use lssg::stylesheet::{Stylesheet, DEFAULT_STYLESHEET};
use lssg::LssgError;

fn page(tokens: Vec<&str>, input: &str, keep_name: bool) -> NodeType {
    NodeType::Page {
        tokens: tokens.into_iter().map(|t| Token { text: t.to_owned() }).collect(),
        input: input.to_owned(),
        keep_name,
    }
}

fn child(map: &mut SiteMap, name: &str, node_type: NodeType, parent: usize) -> usize {
    map.add(
        Node { name: name.to_owned(), parent: Some(parent), children: vec![], node_type },
        parent,
    )
    .unwrap()
}

#[test]
fn root_is_fixed_and_has_empty_path() {
    let map = SiteMap::new("index".to_owned(), page(vec![], "index.md", false));
    assert_eq!(map.root(), 0);
    assert_eq!(map.path(0), String::new());
}

#[test]
fn every_non_root_node_has_its_parent() {
    let mut map = SiteMap::new("index".to_owned(), page(vec![], "index.md", false));
    let a = child(&mut map, "a", NodeType::Folder, 0);
    let b = child(&mut map, "b", NodeType::Folder, a);
    assert_eq!(map.get(0).unwrap().parent, None);
    assert_eq!(map.get(a).unwrap().parent, Some(0));
    assert_eq!(map.get(b).unwrap().parent, Some(a));
    assert!(map.get(0).unwrap().children.contains(&a));
    assert!(map.get(a).unwrap().children.contains(&b));
}

#[test]
fn ids_are_fresh_and_stable() {
    let mut map = SiteMap::new("index".to_owned(), page(vec![], "index.md", false));
    let a = child(&mut map, "a", NodeType::Folder, 0);
    let b = child(&mut map, "b", NodeType::Folder, 0);
    assert_eq!(a, 1);
    assert_eq!(b, 2);
    assert_eq!(map.get(a).unwrap().name, "a".to_owned());
    assert_eq!(map.get(b).unwrap().name, "b".to_owned());
}

#[test]
fn lookup_of_a_missing_id_names_it() {
    let mut map = SiteMap::new("index".to_owned(), page(vec![], "index.md", false));
    match map.get(7) {
        Err(LssgError::TreeLookup(id)) => assert_eq!(id, 7),
        other => panic!("expected a lookup failure, got {:?}", other.map(|_| ())),
    }
    let r = map.add(
        Node {
            name: "x".to_owned(),
            parent: Some(9),
            children: vec![],
            node_type: NodeType::Folder,
        },
        9,
    );
    assert_eq!(r, Err(LssgError::TreeLookup(9)));
}

#[test]
fn paths_join_names_root_to_leaf() {
    let mut map = SiteMap::new("index".to_owned(), page(vec![], "index.md", false));
    let a = child(&mut map, "a", NodeType::Folder, 0);
    let b = child(&mut map, "b", NodeType::Folder, a);
    let x = child(&mut map, "x", page(vec![], "x.md", false), b);
    assert_eq!(map.path(a), "a".to_owned());
    assert_eq!(map.path(b), "a/b".to_owned());
    assert_eq!(map.path(x), "a/b/x".to_owned());
}

#[test]
fn sibling_relative_path_is_one_step_up() {
    let mut map = SiteMap::new("index".to_owned(), page(vec![], "index.md", false));
    let a = child(&mut map, "a", NodeType::Folder, 0);
    let b = child(&mut map, "b", NodeType::Folder, a);
    let x = child(&mut map, "x", page(vec![], "x.md", false), b);
    let y = child(&mut map, "y", page(vec![], "y.md", false), b);
    assert_eq!(map.rel_path(x, y), "../y".to_owned());
    assert_eq!(map.rel_path(y, x), "../x".to_owned());
}

#[test]
fn relative_path_counts_steps_to_the_common_ancestor() {
    let mut map = SiteMap::new("index".to_owned(), page(vec![], "index.md", false));
    let a = child(&mut map, "a", NodeType::Folder, 0);
    let b = child(&mut map, "b", NodeType::Folder, a);
    let x = child(&mut map, "x", page(vec![], "x.md", false), b);
    let css = child(&mut map, "main.css", NodeType::Stylesheet(Stylesheet::new()), 0);
    // x sits three levels deep; the stylesheet hangs off the root
    assert_eq!(map.rel_path(x, css), "../../../main.css".to_owned());
    // a descendant needs no `..` at all
    assert_eq!(map.rel_path(0, x), "a/b/x".to_owned());
    // an ancestor needs only `..` segments
    assert_eq!(map.rel_path(x, 0), "../../..".to_owned());
    assert_eq!(map.rel_path(x, x), "".to_owned());
}

#[test]
fn add_stylesheet_creates_a_stylesheet_node() {
    let mut map = SiteMap::new("index".to_owned(), page(vec![], "index.md", false));
    let mut sheet = Stylesheet::new();
    sheet.append("p{margin:0;}");
    let css = map.add_stylesheet("main.css".to_owned(), sheet, 0).unwrap();
    assert_eq!(css, 1);
    match &map.get(css).unwrap().node_type {
        NodeType::Stylesheet(s) => assert_eq!(s.text(), &"p{margin:0;}".to_owned()),
        _ => panic!("expected a stylesheet node"),
    }
}

#[test]
fn stylesheet_concatenates_in_order() {
    let mut sheet = Stylesheet::new();
    assert_eq!(sheet.text(), &String::new());
    sheet.append("a{color:red;}");
    sheet.append("b{color:blue;}");
    assert_eq!(sheet.text(), &"a{color:red;}b{color:blue;}".to_owned());
}

#[test]
fn default_stylesheet_holds_the_builtin_text() {
    let sheet = Stylesheet::default();
    assert_eq!(sheet.text(), &DEFAULT_STYLESHEET.to_owned());
}
