use lssg::render::{Rel, RenderAction};
use lssg::sitemap::{Node, NodeType, SiteMap, Token};
use lssg::stylesheet::Stylesheet;
use lssg::{Link, Lssg, LssgError, LssgOptions, ParseError, StylesheetSource};

fn options() -> LssgOptions {
    LssgOptions {
        index: "index.md".to_owned(),
        output_directory: "out".to_owned(),
        not_found_page: None,
        global_stylesheet: None,
        favicon: None,
        overwrite_default_stylesheet: false,
        links: vec![],
        title: "A Site".to_owned(),
        keywords: vec![],
        language: "en".to_owned(),
    }
}

fn demo_tree() -> (SiteMap, usize) {
    let mut map = SiteMap::new(
        "index".to_owned(),
        NodeType::Page {
            tokens: vec![Token { text: "hello".to_owned() }],
            input: "index.md".to_owned(),
            keep_name: false,
        },
    );
    let css = map.add_stylesheet("main.css".to_owned(), Stylesheet::default(), 0).unwrap();
    (map, css)
}

#[test]
fn plan_emits_one_action_per_node() {
    let (mut map, css) = demo_tree();
    let docs = map
        .add(
            Node {
                name: "docs".to_owned(),
                parent: Some(0),
                children: vec![],
                node_type: NodeType::Folder,
            },
            0,
        )
        .unwrap();
    let _logo = map
        .add(
            Node {
                name: "logo.png".to_owned(),
                parent: Some(docs),
                children: vec![],
                node_type: NodeType::Resource { input: "assets/logo.png".to_owned() },
            },
            docs,
        )
        .unwrap();
    let plan = map.render_plan(css);
    assert_eq!(plan.len(), 4);
    assert!(plan.contains(&RenderAction::MakeDir { path: "docs".to_owned() }));
    assert!(plan.contains(&RenderAction::CopyResource {
        source: "assets/logo.png".to_owned(),
        path: "docs/logo.png".to_owned(),
    }));
    assert!(plan.contains(&RenderAction::WriteStylesheet {
        path: "main.css".to_owned(),
        text: Stylesheet::default().text().clone(),
    }));
    assert!(plan.contains(&RenderAction::WritePage {
        id: 0,
        page_dir: Some(String::new()),
        file: "index.html".to_owned(),
        stylesheet_href: "main.css".to_owned(),
    }));
}

#[test]
fn keep_name_pages_land_beside_their_siblings() {
    let (mut map, css) = demo_tree();
    let not_found = map
        .add(
            Node {
                name: "404".to_owned(),
                parent: Some(0),
                children: vec![],
                node_type: NodeType::Page {
                    tokens: vec![],
                    input: "404.md".to_owned(),
                    keep_name: true,
                },
            },
            0,
        )
        .unwrap();
    let plan = map.render_plan(css);
    // the href walks up from the page's tree location, as `rel_path` defines
    assert!(plan.contains(&RenderAction::WritePage {
        id: not_found,
        page_dir: None,
        file: "404.html".to_owned(),
        stylesheet_href: "../main.css".to_owned(),
    }));
}

#[test]
fn two_renders_of_one_configuration_agree() {
    let (mut first, css1) = demo_tree();
    let (mut second, css2) = demo_tree();
    for map in [&mut first, &mut second] {
        map.add(
            Node {
                name: "a".to_owned(),
                parent: Some(0),
                children: vec![],
                node_type: NodeType::Folder,
            },
            0,
        )
        .unwrap();
    }
    let plan1 = first.render_plan(css1);
    let plan2 = second.render_plan(css2);
    assert_eq!(plan1, plan2);
    // and every action of one appears in the other, whatever the order
    for action in &plan1 {
        assert!(plan2.contains(action));
    }
}

#[test]
fn stylesheet_sources_start_from_the_default() {
    let lssg = Lssg::new(options());
    assert_eq!(lssg.stylesheet_sources(), vec![StylesheetSource::BuiltinDefault]);
}

#[test]
fn a_global_stylesheet_extends_or_overwrites_the_default() {
    let mut with_global = options();
    with_global.global_stylesheet = Some("my.css".to_owned());
    assert_eq!(
        Lssg::new(with_global).stylesheet_sources(),
        vec![StylesheetSource::BuiltinDefault, StylesheetSource::File("my.css".to_owned())],
    );

    let mut overwriting = options();
    overwriting.global_stylesheet = Some("my.css".to_owned());
    overwriting.overwrite_default_stylesheet = true;
    assert_eq!(
        Lssg::new(overwriting).stylesheet_sources(),
        vec![StylesheetSource::File("my.css".to_owned())],
    );
}

#[test]
fn only_stylesheet_links_are_merged() {
    let mut opts = options();
    opts.links = vec![
        Link { rel: Rel::Stylesheet, path: "extra.css".to_owned() },
        Link { rel: Rel::Icon, path: "icon.png".to_owned() },
        Link { rel: Rel::Stylesheet, path: "more.css".to_owned() },
    ];
    assert_eq!(
        Lssg::new(opts).stylesheet_sources(),
        vec![
            StylesheetSource::BuiltinDefault,
            StylesheetSource::File("extra.css".to_owned()),
            StylesheetSource::File("more.css".to_owned()),
        ],
    );
}

#[test]
fn render_options_carry_the_configuration() {
    let mut opts = options();
    opts.keywords = vec![
        ("author".to_owned(), "someone".to_owned()),
        ("description".to_owned(), "a site".to_owned()),
    ];
    let lssg = Lssg::new(opts);
    let ro = lssg.render_options(Some(3));
    assert!(ro.links.is_empty());
    assert_eq!(ro.title, "A Site".to_owned());
    assert_eq!(ro.favicon, Some(3));
    assert_eq!(ro.language, "en".to_owned());
    assert_eq!(ro.meta.len(), 2);
    assert_eq!(ro.meta[0].name, "author".to_owned());
    assert_eq!(ro.meta[0].content, "someone".to_owned());
    assert_eq!(ro.meta[1].name, "description".to_owned());
    assert_eq!(ro.meta[1].content, "a site".to_owned());
}

#[test]
fn errors_carry_their_causes() {
    assert_eq!(LssgError::render("boom"), LssgError::Render("boom".to_owned()));
    assert_eq!(LssgError::from(ParseError::Eof), LssgError::Parse(ParseError::Eof));
    let io = LssgError::Io("disk gone".to_owned());
    assert_eq!(io, LssgError::Io("disk gone".to_owned()));
    assert_eq!(
        LssgError::Parse(ParseError::Io("short read".to_owned())),
        LssgError::Parse(ParseError::Io("short read".to_owned())),
    );
}

#[test]
fn install_extras_places_the_fixed_nodes() {
    let mut opts = options();
    opts.favicon = Some("icon.ico".to_owned());
    let lssg = Lssg::new(opts);
    let mut map = SiteMap::new(
        "index".to_owned(),
        NodeType::Page { tokens: vec![], input: "index.md".to_owned(), keep_name: false },
    );
    let (css, fav) = lssg.install_extras(
        &mut map,
        Stylesheet::default(),
        Some(("404".to_owned(), vec![], "404.md".to_owned())),
    );
    assert_eq!(css, 1);
    assert_eq!(fav, Some(2));
    assert_eq!(map.get(css).unwrap().name, "main.css".to_owned());
    assert_eq!(map.get(2).unwrap().name, "favicon.ico".to_owned());
    let nf = map.get(3).unwrap();
    assert_eq!(nf.name, "404".to_owned());
    assert_eq!(nf.parent, Some(0));
    match &nf.node_type {
        NodeType::Page { keep_name, .. } => assert!(*keep_name),
        _ => panic!("expected a page node"),
    }
}

#[test]
fn generator_keeps_its_options() {
    let lssg = Lssg::new(options());
    assert_eq!(lssg.options().title, "A Site".to_owned());
    assert_eq!(lssg.options().output_directory, "out".to_owned());
}
