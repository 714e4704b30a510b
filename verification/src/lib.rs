//! A small static-site library: a buffered incremental reader that document
//! parsers are built on, and an identity-stable site tree with relative-path
//! resolution, plus the planning logic that turns a tree into output actions.

pub mod char_reader;
pub mod render;
pub mod sitemap;
pub mod stylesheet;

use crate::sitemap::SiteMap;
use vstd::prelude::*;

verus! {

/// A failure while reading or parsing a source document: the input ended
/// early, held text that is not valid UTF-8, was malformed, or the
/// underlying byte source failed.
#[derive(Debug, PartialEq)]
pub enum ParseError {
    /// The input ended before the requested bytes were available.
    Eof,
    /// The requested bytes are not well-formed UTF-8 text.
    InvalidText,
    /// The document is malformed; the message describes how.
    Syntax(String),
    /// The underlying byte source failed; the message describes how.
    Io(String),
}

impl ParseError {
    /// A syntax failure carrying a description, for tokenizers built on the reader.
    pub fn invalid(message: &str) -> (r: ParseError)
        ensures
            r matches ParseError::Syntax(m) && m@ == message@,
    {
        ParseError::Syntax(message.to_owned())
    }
}

/// Any failure the library reports: a parse failure, a lookup of a site-tree
/// node that does not exist, a renderer failure with its description, or a
/// filesystem failure with its description.
#[derive(Debug, PartialEq)]
pub enum LssgError {
    Parse(ParseError),
    /// The node id that was looked up but does not exist in the tree.
    TreeLookup(usize),
    Render(String),
    Io(String),
}

impl LssgError {
    /// A render failure carrying the renderer's description.
    pub fn render(error: &str) -> (r: LssgError)
        ensures
            r matches LssgError::Render(m) && m@ == error@,
    {
        LssgError::Render(error.to_owned())
    }
}

impl From<ParseError> for LssgError {
    fn from(error: ParseError) -> (r: LssgError)
        ensures
            r == LssgError::Parse(error),
    {
        LssgError::Parse(error)
    }
}

impl vstd::std_specs::convert::FromSpecImpl<ParseError> for LssgError {
    open spec fn obeys_from_spec() -> bool {
        true
    }

    open spec fn from_spec(t: ParseError) -> LssgError {
        LssgError::Parse(t)
    }
}

/// An extra resource to link from every page: its relation kind and the
/// path of its source file.
#[derive(Debug)]
pub struct Link {
    pub rel: render::Rel,
    pub path: String,
}

/// Everything a render needs: where the site starts, where the output goes,
/// the optional extras, and what ends up in every page's head.
#[derive(Debug)]
pub struct LssgOptions {
    /// Path of the index document the site is built from.
    pub index: String,
    /// Path of the output directory, recreated on every render.
    pub output_directory: String,
    /// Path to a document rendered as a separate page usable as a
    /// not-found page.
    pub not_found_page: Option<String>,
    /// Path to a stylesheet merged into the site's stylesheet.
    pub global_stylesheet: Option<String>,
    /// Path to a favicon copied into the output root.
    pub favicon: Option<String>,
    /// Replace the built-in default stylesheet instead of extending it.
    pub overwrite_default_stylesheet: bool,
    /// Extra resources to link; stylesheet links are merged, other kinds
    /// pass through to the render options.
    pub links: Vec<Link>,
    pub title: String,
    /// Meta name/content pairs for every page's head.
    pub keywords: Vec<(String, String)>,
    /// The language attribute of every page, such as `en`.
    pub language: String,
}

/// One stylesheet source of a render, in merge order.
#[derive(Debug, PartialEq)]
pub enum StylesheetSource {
    /// The built-in default stylesheet text.
    BuiltinDefault,
    /// The text of the file at this path.
    File(String),
}

/// The stylesheet sources contributed by the extra links, in order: one
/// entry per link whose relation is `Stylesheet`.
pub open spec fn spec_link_sources(links: Seq<Link>) -> Seq<StylesheetSource>
    decreases links.len(),
{
    if links.len() == 0 {
        Seq::empty()
    } else {
        let rest = spec_link_sources(links.drop_last());
        if links.last().rel is Stylesheet {
            rest.push(StylesheetSource::File(links.last().path))
        } else {
            rest
        }
    }
}

/// The whole static-site generator: holds the options of one render.
pub struct Lssg {
    options: LssgOptions,
}

impl Lssg {
    /// The options this generator renders with.
    pub closed spec fn options_spec(&self) -> LssgOptions {
        self.options
    }

    /// The stylesheet sources of a render governed by `options`, in merge
    /// order: the built-in default unless a global stylesheet overwrites it,
    /// then the global stylesheet, then every stylesheet link in turn.
    pub open spec fn spec_stylesheet_sources(&self) -> Seq<StylesheetSource> {
        let base = match self.options_spec().global_stylesheet {
            Some(p) => if self.options_spec().overwrite_default_stylesheet {
                seq![StylesheetSource::File(p)]
            } else {
                seq![StylesheetSource::BuiltinDefault, StylesheetSource::File(p)]
            },
            None => seq![StylesheetSource::BuiltinDefault],
        };
        base + spec_link_sources(self.options_spec().links@)
    }

    /// A generator for one render with the given options.
    pub fn new(options: LssgOptions) -> (r: Lssg)
        ensures
            r.options_spec() == options,
    {
        Lssg { options }
    }

    /// The options this generator renders with.
    pub fn options(&self) -> (r: &LssgOptions)
        ensures
            *r == self.options_spec(),
    {
        &self.options
    }

    /// The ordered list of stylesheet sources this render merges.
    pub fn stylesheet_sources(&self) -> (r: Vec<StylesheetSource>)
        ensures
            r@ == self.spec_stylesheet_sources(),
    {
        let mut r: Vec<StylesheetSource> = Vec::new();
        match &self.options.global_stylesheet {
            Some(p) => {
                if !self.options.overwrite_default_stylesheet {
                    r.push(StylesheetSource::BuiltinDefault);
                }
                r.push(StylesheetSource::File(p.clone()));
            },
            None => {
                r.push(StylesheetSource::BuiltinDefault);
            },
        }
        let ghost base = r@;
        let mut i: usize = 0;
        while i < self.options.links.len()
            invariant
                i <= self.options.links@.len(),
                r@ == base + spec_link_sources(self.options.links@.take(i as int)),
            decreases self.options.links@.len() - i,
        {
            let ghost prev = self.options.links@.take(i as int);
            let link = &self.options.links[i];
            if matches!(link.rel, render::Rel::Stylesheet) {
                r.push(StylesheetSource::File(link.path.clone()));
            }
            i = i + 1;
            proof {
                let cur = self.options.links@.take(i as int);
                assert(cur.drop_last() =~= prev);
                assert(cur.last() == self.options.links@[i - 1]);
                if self.options.links@[i - 1].rel is Stylesheet {
                    assert(r@ =~= base + spec_link_sources(cur));
                } else {
                    assert(r@ =~= base + spec_link_sources(cur));
                }
            }
        }
        proof {
            assert(self.options.links@.take(self.options.links@.len() as int)
                =~= self.options.links@);
        }
        r
    }

    /// Installs the render's fixed nodes under the tree's root: the merged
    /// stylesheet as `main.css`, then — when the options configure one — the
    /// favicon as a `favicon.ico` resource, and finally the parsed not-found
    /// document (its name and token sequence in `not_found`) as a page kept
    /// beside its siblings under its own name. Returns the stylesheet node's
    /// id and the favicon node's id, if any.
    pub fn install_extras(
        &self,
        site_map: &mut SiteMap,
        stylesheet: stylesheet::Stylesheet,
        not_found: Option<(String, Vec<sitemap::Token>, String)>,
    ) -> (r: (usize, Option<usize>))
        requires
            old(site_map).wf(),
        ensures
            final(site_map).wf(),
            ({
                let (css, fav) = r;
                &&& css == old(site_map).node_count()
                &&& final(site_map).spec_nodes()[css as int].name@ == "main.css"@
                &&& final(site_map).spec_nodes()[css as int].node_type
                    == sitemap::NodeType::Stylesheet(stylesheet)
                &&& final(site_map).spec_nodes()[css as int].parent == Some(0usize)
                &&& match self.options_spec().favicon {
                    Some(p) => {
                        &&& fav == Some((css + 1) as usize)
                        &&& final(site_map).spec_nodes()[css + 1].name@ == "favicon.ico"@
                        &&& final(site_map).spec_nodes()[css + 1].node_type
                            == sitemap::NodeType::Resource { input: p }
                        &&& final(site_map).spec_nodes()[css + 1].parent == Some(0usize)
                    },
                    None => fav is None,
                }
                &&& match not_found {
                    Some((name, tokens, input)) => {
                        let nf = final(site_map).node_count() - 1;
                        &&& final(site_map).spec_nodes()[nf as int].name == name
                        &&& final(site_map).spec_nodes()[nf as int].node_type
                            == sitemap::NodeType::Page { tokens, input, keep_name: true }
                        &&& final(site_map).spec_nodes()[nf as int].parent == Some(0usize)
                    },
                    None => true,
                }
                &&& final(site_map).node_count() == old(site_map).node_count() + 1 + (
                if self.options_spec().favicon is Some {
                    1int
                } else {
                    0int
                }) + (if not_found is Some {
                    1int
                } else {
                    0int
                })
            }),
    {
        let root = site_map.root();
        let css = match site_map.add_stylesheet("main.css".to_owned(), stylesheet, root) {
            Ok(id) => id,
            Err(_) => unreached(),
        };
        let fav = match &self.options.favicon {
            Some(input) => {
                let id = match site_map.add(
                    sitemap::Node {
                        name: "favicon.ico".to_owned(),
                        parent: Some(root),
                        children: Vec::new(),
                        node_type: sitemap::NodeType::Resource { input: input.clone() },
                    },
                    root,
                ) {
                    Ok(id) => id,
                    Err(_) => unreached(),
                };
                Some(id)
            },
            None => None,
        };
        match not_found {
            Some((name, tokens, input)) => {
                let added = site_map.add(
                    sitemap::Node {
                        name,
                        parent: Some(root),
                        children: Vec::new(),
                        node_type: sitemap::NodeType::Page { tokens, input, keep_name: true },
                    },
                    root,
                );
                match added {
                    Ok(_) => (),
                    Err(_) => unreached(),
                }
            },
            None => (),
        }
        (css, fav)
    }

    /// The render options shared by every page of this render: no links yet
    /// — each page adds its own stylesheet link — the configured title,
    /// favicon node, one meta pair per keyword, and the configured language.
    pub fn render_options(&self, favicon: Option<usize>) -> (r: render::HtmlRenderOptions)
        ensures
            r.links@ == Seq::<render::HtmlLink>::empty(),
            r.title@ == self.options_spec().title@,
            r.favicon == favicon,
            r.language@ == self.options_spec().language@,
            r.meta@.len() == self.options_spec().keywords@.len(),
            forall|i: int|
                0 <= i < r.meta@.len() ==> (#[trigger] r.meta@[i]).name@
                    == self.options_spec().keywords@[i].0@ && r.meta@[i].content@
                    == self.options_spec().keywords@[i].1@,
    {
        let mut meta: Vec<render::Meta> = Vec::new();
        let mut i: usize = 0;
        while i < self.options.keywords.len()
            invariant
                i <= self.options.keywords@.len(),
                meta@.len() == i,
                forall|j: int|
                    0 <= j < i ==> (#[trigger] meta@[j]).name@ == self.options.keywords@[j].0@
                        && meta@[j].content@ == self.options.keywords@[j].1@,
            decreases self.options.keywords@.len() - i,
        {
            let pair = &self.options.keywords[i];
            meta.push(render::Meta { name: pair.0.clone(), content: pair.1.clone() });
            i = i + 1;
        }
        render::HtmlRenderOptions {
            links: Vec::new(),
            title: self.options.title.clone(),
            favicon,
            meta,
            language: self.options.language.clone(),
        }
    }
}

} // verus!
