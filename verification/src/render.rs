//! Render planning: turning a site tree into the sequence of output actions
//! — write the merged stylesheet, copy a resource byte-for-byte, create an
//! empty directory, render a page — that materialize the tree in an output
//! directory.
//!
//! The walk is depth-first with an explicit stack, so siblings are visited
//! last-pushed-first; but every node's on-disk content depends only on the
//! node and the tree, never on the visitation order, and the plan's contract
//! states exactly that: it is, as a collection, the set of per-node actions.
//! Two plans for the same tree therefore write byte-identical output.

use crate::sitemap::{NodeType, SiteMap};
use vstd::prelude::*;
use vstd::seq_lib::seq_to_set_is_finite;
use vstd::set_lib::{lemma_int_range, lemma_len_subset, set_int_range};
use vstd::string::StringExecFns;

verus! {

/// The relation kind of an extra link resource; only stylesheets are merged,
/// other kinds pass through to the render options.
#[derive(Debug, PartialEq, Eq, Structural, Clone, Copy)]
pub enum Rel {
    Stylesheet,
    Icon,
}

/// One meta name/content pair for a rendered page's head.
#[derive(Debug)]
pub struct Meta {
    pub name: String,
    pub content: String,
}

/// One link tag of a rendered page: its relation kind and target.
#[derive(Debug)]
pub struct HtmlLink {
    pub rel: Rel,
    pub href: String,
}

/// Everything the HTML renderer needs besides the tree: link tags, title,
/// the favicon node if any, meta pairs, and the page language.
#[derive(Debug)]
pub struct HtmlRenderOptions {
    pub links: Vec<HtmlLink>,
    pub title: String,
    pub favicon: Option<usize>,
    pub meta: Vec<Meta>,
    pub language: String,
}

/// One output action of a render: everything the walk decides about a node,
/// with every path relative to the output directory.
#[derive(Debug, PartialEq)]
pub enum RenderAction {
    /// Write the merged stylesheet text to `path`.
    WriteStylesheet { path: String, text: String },
    /// Byte-copy the source file `source` to `path`.
    CopyResource { source: String, path: String },
    /// Create the empty directory `path`.
    MakeDir { path: String },
    /// Render the page node `id` and write the document to `file`; create
    /// `page_dir` first when the page materializes as a directory. The
    /// page's stylesheet link must point at `stylesheet_href`.
    WritePage { id: usize, page_dir: Option<String>, file: String, stylesheet_href: String },
}

/// A [`RenderAction`] as a mathematical value, with paths as character
/// sequences.
pub enum ActionView {
    WriteStylesheet { path: Seq<char>, text: Seq<char> },
    CopyResource { source: Seq<char>, path: Seq<char> },
    MakeDir { path: Seq<char> },
    WritePage { id: int, page_dir: Option<Seq<char>>, file: Seq<char>, stylesheet_href: Seq<char> },
}

impl View for RenderAction {
    type V = ActionView;

    open spec fn view(&self) -> ActionView {
        match self {
            RenderAction::WriteStylesheet { path, text } => ActionView::WriteStylesheet {
                path: path@,
                text: text@,
            },
            RenderAction::CopyResource { source, path } => ActionView::CopyResource {
                source: source@,
                path: path@,
            },
            RenderAction::MakeDir { path } => ActionView::MakeDir { path: path@ },
            RenderAction::WritePage { id, page_dir, file, stylesheet_href } => {
                ActionView::WritePage {
                    id: *id as int,
                    page_dir: match page_dir {
                        Some(d) => Some(d@),
                        None => None,
                    },
                    file: file@,
                    stylesheet_href: stylesheet_href@,
                }
            },
        }
    }
}

/// `leaf` placed under the directory path `dir`: just `leaf` at the output
/// root, `dir/leaf` elsewhere.
pub open spec fn join_rooted(dir: Seq<char>, leaf: Seq<char>) -> Seq<char> {
    if dir.len() == 0 {
        leaf
    } else {
        dir + seq!['/'] + leaf
    }
}

/// The one output action a render performs for node `id` of tree `t`, with
/// `css_id` the tree's merged-stylesheet node: a stylesheet is written at its
/// tree path, a resource copied to its tree path, a folder created at its
/// tree path, and a page rendered to `name.html` beside its siblings when its
/// keep-name flag is set, else to `index.html` inside its own directory.
pub open spec fn spec_node_action(t: &SiteMap, css_id: int, id: int) -> ActionView {
    let node = t.spec_nodes()[id];
    let p = t.spec_path(id);
    match node.node_type {
        NodeType::Stylesheet(s) => ActionView::WriteStylesheet { path: p, text: s.text_spec() },
        NodeType::Resource { input } => ActionView::CopyResource { source: input@, path: p },
        NodeType::Folder => ActionView::MakeDir { path: p },
        NodeType::Page { keep_name, .. } => {
            if keep_name {
                let parent_path = if id == 0 {
                    Seq::<char>::empty()
                } else {
                    t.spec_path(t.parent_of(id))
                };
                ActionView::WritePage {
                    id,
                    page_dir: None,
                    file: join_rooted(parent_path, node.name@ + seq!['.', 'h', 't', 'm', 'l']),
                    stylesheet_href: t.spec_rel_path(id, css_id),
                }
            } else {
                ActionView::WritePage {
                    id,
                    page_dir: Some(p),
                    file: join_rooted(p, seq!['i', 'n', 'd', 'e', 'x', '.', 'h', 't', 'm', 'l']),
                    stylesheet_href: t.spec_rel_path(id, css_id),
                }
            }
        },
    }
}

/// What any correct plan for tree `t` is: one action per node — exactly the
/// per-node actions, each appearing somewhere — in whatever order the walk
/// happened to visit them.
pub open spec fn is_plan_for(t: &SiteMap, css_id: int, plan: Seq<ActionView>) -> bool {
    &&& plan.len() == t.node_count()
    &&& forall|j: int|
        0 <= j < plan.len() ==> exists|id: int|
            t.valid_id(id) && #[trigger] plan[j] == spec_node_action(t, css_id, id)
    &&& forall|id: int|
        t.valid_id(id) ==> plan.contains(#[trigger] spec_node_action(t, css_id, id))
}

/// Determinism of a render: any two plans for the same tree perform the same
/// actions — each action of one appears in the other — so two full renders of
/// the same configuration write byte-identical output, whatever order their
/// walks visited siblings in.
pub proof fn lemma_plan_deterministic(
    t: &SiteMap,
    css_id: int,
    plan1: Seq<ActionView>,
    plan2: Seq<ActionView>,
)
    requires
        is_plan_for(t, css_id, plan1),
        is_plan_for(t, css_id, plan2),
    ensures
        forall|a: ActionView| plan1.contains(a) <==> plan2.contains(a),
{
    assert forall|a: ActionView| plan1.contains(a) implies plan2.contains(a) by {
        let j = choose|j: int| 0 <= j < plan1.len() && plan1[j] == a;
        let id = choose|id: int| t.valid_id(id) && plan1[j] == spec_node_action(t, css_id, id);
        assert(plan2.contains(spec_node_action(t, css_id, id)));
    }
    assert forall|a: ActionView| plan2.contains(a) implies plan1.contains(a) by {
        let j = choose|j: int| 0 <= j < plan2.len() && plan2[j] == a;
        let id = choose|id: int| t.valid_id(id) && plan2[j] == spec_node_action(t, css_id, id);
        assert(plan1.contains(spec_node_action(t, css_id, id)));
    }
}

/// `leaf` placed under the directory path `dir`.
fn join_under(dir: String, leaf: &str) -> (r: String)
    ensures
        r@ == join_rooted(dir@, leaf@),
{
    if dir.as_str().is_empty() {
        leaf.to_owned()
    } else {
        let mut s = dir;
        s.append("/");
        s.append(leaf);
        proof {
            reveal_strlit("/");
            assert(s@ =~= join_rooted(dir@, leaf@));
        }
        s
    }
}

/// A sequence of ids holds `n`.
spec fn in_id_seq(q: Seq<usize>, n: int) -> bool {
    exists|j: int| 0 <= j < q.len() && q[j] as int == n
}

/// The walk's frontier invariant at one node: `n` has been emitted (`done`)
/// or waits on the stack (`q`) exactly when it is the root or its parent has
/// been emitted.
spec fn frontier_node_ok(t: &SiteMap, done: Seq<int>, q: Seq<usize>, n: int) -> bool {
    (done.contains(n) || in_id_seq(q, n)) <==> (n == 0 || done.contains(t.parent_of(n)))
}

/// The walk's frontier invariant, for every node of the tree.
spec fn frontier_ok(t: &SiteMap, done: Seq<int>, q: Seq<usize>) -> bool {
    forall|n: int| 0 <= n < t.node_count() ==> #[trigger] frontier_node_ok(t, done, q, n)
}

/// One instance of the frontier property, for a single node.
proof fn lemma_frontier_instance(t: &SiteMap, done: Seq<int>, q: Seq<usize>, n: int)
    requires
        frontier_ok(t, done, q),
        0 <= n < t.node_count(),
    ensures
        frontier_node_ok(t, done, q, n),
        (done.contains(n) || in_id_seq(q, n)) <==> (n == 0 || done.contains(t.parent_of(n))),
{
    assert(frontier_node_ok(t, done, q, n));
}

/// A sequence of distinct ids below `n` holds at most `n` of them.
proof fn lemma_distinct_ids_bounded(s: Seq<int>, n: int)
    requires
        0 <= n,
        s.no_duplicates(),
        forall|j: int| 0 <= j < s.len() ==> 0 <= #[trigger] s[j] < n,
    ensures
        s.len() <= n,
{
    broadcast use seq_to_set_is_finite;

    s.unique_seq_to_set();
    assert(s.to_set().subset_of(set_int_range(0, n)));
    lemma_int_range(0, n);
    lemma_len_subset(s.to_set(), set_int_range(0, n));
}

/// A set of ids closed under "holds the parent, holds the child" and holding
/// the root holds every id: walking parents strictly descends, so induction
/// over the id reaches the root.
proof fn lemma_closed_set_is_full(t: &SiteMap, done: Seq<int>, id: int)
    requires
        t.wf(),
        done.contains(0),
        forall|m: int|
            0 < m < t.node_count() ==> (#[trigger] done.contains(m) <==> done.contains(
                t.parent_of(m),
            )),
        0 <= id < t.node_count(),
    ensures
        done.contains(id),
    decreases id,
{
    if id > 0 {
        lemma_closed_set_is_full(t, done, t.parent_of(id));
    }
}

impl SiteMap {
    /// The one output action for node `id`, with `stylesheet_id` the node
    /// whose path every page's stylesheet link points at.
    fn node_action(&self, stylesheet_id: usize, id: usize) -> (r: RenderAction)
        requires
            self.wf(),
            self.valid_id(stylesheet_id as int),
            self.valid_id(id as int),
        ensures
            r@ == spec_node_action(self, stylesheet_id as int, id as int),
    {
        let p = self.path(id);
        let node = match self.get(id) {
            Ok(n) => n,
            Err(_) => unreached(),
        };
        match &node.node_type {
            NodeType::Stylesheet(s) => RenderAction::WriteStylesheet {
                path: p,
                text: s.text().clone(),
            },
            NodeType::Resource { input } => RenderAction::CopyResource {
                source: input.clone(),
                path: p,
            },
            NodeType::Folder => RenderAction::MakeDir { path: p },
            NodeType::Page { keep_name, .. } => {
                let href = self.rel_path(id, stylesheet_id);
                if *keep_name {
                    let parent_path = if id == 0 {
                        String::new()
                    } else {
                        match node.parent {
                            Some(pp) => self.path(pp),
                            None => {
                                proof {
                                    assert(false);
                                }
                                unreached()
                            },
                        }
                    };
                    let mut leaf = node.name.clone();
                    leaf.append(".html");
                    proof {
                        reveal_strlit(".html");
                        assert(leaf@ =~= self.spec_nodes()[id as int].name@ + seq![
                            '.',
                            'h',
                            't',
                            'm',
                            'l',
                        ]);
                    }
                    RenderAction::WritePage {
                        id,
                        page_dir: None,
                        file: join_under(parent_path, leaf.as_str()),
                        stylesheet_href: href,
                    }
                } else {
                    proof {
                        reveal_strlit("index.html");
                        assert("index.html"@ =~= seq![
                            'i',
                            'n',
                            'd',
                            'e',
                            'x',
                            '.',
                            'h',
                            't',
                            'm',
                            'l',
                        ]);
                    }
                    RenderAction::WritePage {
                        id,
                        page_dir: Some(p.clone()),
                        file: join_under(p, "index.html"),
                        stylesheet_href: href,
                    }
                }
            },
        }
    }

    /// The full render plan for this tree: a depth-first walk from the root
    /// with an explicit stack — a node's children are pushed together, so the
    /// last-pushed sibling is visited first — emitting the one action of
    /// every node exactly once. The contract says nothing about the order:
    /// any plan for this tree performs the same actions.
    #[verifier::loop_isolation(false)]
    #[verifier::spinoff_prover]
    #[verifier::rlimit(100)]
    pub fn render_plan(&self, stylesheet_id: usize) -> (r: Vec<RenderAction>)
        requires
            self.wf(),
            self.valid_id(stylesheet_id as int),
        ensures
            is_plan_for(self, stylesheet_id as int, r@.map_values(|a: RenderAction| a@)),
    {
        let ghost cssi = stylesheet_id as int;
        let ghost cnt = self.node_count() as int;
        proof {
            self.lemma_count_bound();
        }
        let mut queue: Vec<usize> = Vec::new();
        queue.push(0usize);
        let mut r: Vec<RenderAction> = Vec::new();
        let ghost mut done: Seq<int> = Seq::empty();
        proof {
            assert(queue@[0] == 0usize);
            assert(in_id_seq(queue@, 0));
            assert forall|n: int| 0 <= n < cnt implies frontier_node_ok(self, done, queue@, n) by {
                if n == 0 {
                    assert(in_id_seq(queue@, 0));
                } else {
                    if in_id_seq(queue@, n) {
                        let j = choose|j: int| 0 <= j < queue@.len() && queue@[j] as int == n;
                        assert(queue@[j] == 0usize);
                    }
                }
            }
            assert(frontier_ok(self, done, queue@));
        }
        while queue.len() > 0
            invariant
                forall|j: int| 0 <= j < queue@.len() ==> (#[trigger] queue@[j] as int) < cnt,
                queue@.no_duplicates(),
                done.no_duplicates(),
                forall|j: int| 0 <= j < done.len() ==> 0 <= #[trigger] done[j] < cnt,
                forall|j1: int, j2: int|
                    0 <= j1 < done.len() && 0 <= j2 < queue@.len() ==> #[trigger] done[j1]
                        != #[trigger] queue@[j2] as int,
                frontier_ok(self, done, queue@),
                r@.len() == done.len(),
                forall|j: int|
                    0 <= j < done.len() ==> (#[trigger] r@[j])@ == spec_node_action(
                        self,
                        cssi,
                        done[j],
                    ),
            decreases cnt - done.len(),
        {
            let ghost old_queue = queue@;
            let ghost old_done = done;
            let id = match queue.pop() {
                Some(i) => i,
                None => unreached(),
            };
            let ghost pre_queue = queue@;
            let ghost idn = id as int;
            proof {
                assert(frontier_ok(self, old_done, old_queue));
                assert(old_queue == pre_queue.push(id));
                assert(old_queue[old_queue.len() - 1] == id);
                assert(in_id_seq(old_queue, idn));
                assert(!old_done.contains(idn)) by {
                    if old_done.contains(idn) {
                        let jd = choose|jd: int|
                            0 <= jd < old_done.len() && old_done[jd] == idn;
                        assert(old_done[jd] != old_queue[old_queue.len() - 1] as int);
                    }
                }
            }
            let action = self.node_action(stylesheet_id, id);
            r.push(action);
            proof {
                done = old_done.push(idn);
                lemma_distinct_ids_bounded(done, cnt);
            }
            let node = match self.get(id) {
                Ok(n) => n,
                Err(_) => unreached(),
            };
            let ghost kids = node.children@;
            let ghost pre_len = pre_queue.len() as int;
            let mut ci: usize = 0;
            while ci < node.children.len()
                invariant
                    ci <= kids.len(),
                    queue@.len() == pre_len + ci,
                    forall|j: int| 0 <= j < pre_len ==> #[trigger] queue@[j] == pre_queue[j],
                    forall|j: int|
                        pre_len <= j < queue@.len() ==> #[trigger] queue@[j] == kids[j - pre_len],
                decreases kids.len() - ci,
            {
                let c = node.children[ci];
                queue.push(c);
                ci = ci + 1;
            }
            proof {
                assert(kids == self.spec_nodes()[idn].children@);
                // the children are fresh: not yet emitted, not yet on the stack
                assert forall|j: int|
                    0 <= j < kids.len() implies !old_done.contains(kids[j] as int) && !in_id_seq(
                    old_queue,
                    kids[j] as int,
                ) by {
                    let c = kids[j] as int;
                    assert(idn < c < cnt);
                    assert(self.parent_of(c) == idn);
                    lemma_frontier_instance(self, old_done, old_queue, c);
                    if old_done.contains(c) || in_id_seq(old_queue, c) {
                        assert(old_done.contains(idn));
                    }
                }
                // stack entries stay valid and distinct
                assert forall|j: int| 0 <= j < queue@.len() implies (queue@[j] as int) < cnt by {
                    if j < pre_len {
                        assert(old_queue[j] == pre_queue[j]);
                    } else {
                        assert(queue@[j] == kids[j - pre_len]);
                    }
                }
                assert forall|j1: int, j2: int| 0 <= j1 < j2 < queue@.len() implies queue@[j1] != queue@[j2] by {
                    if j2 < pre_len {
                        assert(old_queue[j1] == pre_queue[j1] && old_queue[j2] == pre_queue[j2]);
                    } else if j1 < pre_len {
                        if queue@[j1] == queue@[j2] {
                            assert(old_queue[j1] as int == kids[j2 - pre_len] as int);
                            assert(in_id_seq(old_queue, kids[j2 - pre_len] as int));
                        }
                    } else {
                        assert(kids[j1 - pre_len] != kids[j2 - pre_len]);
                    }
                }
                assert(queue@.no_duplicates());
                // emitted ids and stack stay disjoint
                assert forall|j1: int, j2: int|
                    0 <= j1 < done.len() && 0 <= j2 < queue@.len() implies done[j1] != queue@[j2] as int by {
                    if j1 < old_done.len() {
                        if j2 < pre_len {
                            assert(old_done[j1] != old_queue[j2] as int);
                        } else {
                            assert(!old_done.contains(kids[j2 - pre_len] as int));
                        }
                    } else {
                        assert(done[j1] == idn);
                        if j2 < pre_len {
                            assert(old_queue[j2] == pre_queue[j2]);
                            assert(old_queue[old_queue.len() - 1] == id);
                        } else {
                            assert(idn < kids[j2 - pre_len] as int);
                        }
                    }
                }
                // the frontier property: a node is emitted or on the stack
                // exactly when it is the root or its parent was emitted
                assert forall|n: int|
                    0 <= n < cnt implies frontier_node_ok(self, done, queue@, n) by {
                    lemma_frontier_instance(self, old_done, old_queue, n);
                    if n == idn {
                        assert(done[done.len() - 1] == n);
                        assert(done.contains(n));
                        assert(old_done.contains(n) || in_id_seq(old_queue, n));
                        assert(n == 0 || old_done.contains(self.parent_of(n)));
                        if n != 0 {
                            let jd = choose|jd: int|
                                0 <= jd < old_done.len() && old_done[jd] == self.parent_of(n);
                            assert(done[jd] == self.parent_of(n));
                            assert(done.contains(self.parent_of(n)));
                        }
                    } else if 0 < n && self.parent_of(n) == idn {
                        assert(self.spec_nodes()[n].parent is Some);
                        assert(self.spec_nodes()[idn].children@.contains(n as usize));
                        let jk = choose|jk: int|
                            0 <= jk < kids.len() && kids[jk] == n as usize;
                        assert(queue@[pre_len + jk] as int == n);
                        assert(in_id_seq(queue@, n));
                        assert(done[done.len() - 1] == idn);
                        assert(done.contains(self.parent_of(n)));
                    } else {
                        // untouched nodes: both sides as before the step
                        assert(done.contains(n) <==> old_done.contains(n)) by {
                            if old_done.contains(n) {
                                let jd = choose|jd: int|
                                    0 <= jd < old_done.len() && old_done[jd] == n;
                                assert(done[jd] == n);
                            }
                            if done.contains(n) {
                                let jd = choose|jd: int| 0 <= jd < done.len() && done[jd] == n;
                                assert(jd < old_done.len());
                                assert(old_done[jd] == n);
                            }
                        }
                        assert(in_id_seq(queue@, n) <==> in_id_seq(old_queue, n)) by {
                            if in_id_seq(queue@, n) {
                                let jq = choose|jq: int|
                                    0 <= jq < queue@.len() && queue@[jq] as int == n;
                                if jq < pre_len {
                                    assert(old_queue[jq] as int == n);
                                    assert(in_id_seq(old_queue, n));
                                } else {
                                    assert(self.parent_of(kids[jq - pre_len] as int) == idn);
                                }
                            }
                            if in_id_seq(old_queue, n) {
                                let jq = choose|jq: int|
                                    0 <= jq < old_queue.len() && old_queue[jq] as int == n;
                                assert(jq < pre_len);
                                assert(queue@[jq] as int == n);
                            }
                        }
                        if n != 0 {
                            assert(done.contains(self.parent_of(n)) <==> old_done.contains(
                                self.parent_of(n),
                            )) by {
                                let p = self.parent_of(n);
                                if old_done.contains(p) {
                                    let jd = choose|jd: int|
                                        0 <= jd < old_done.len() && old_done[jd] == p;
                                    assert(done[jd] == p);
                                }
                                if done.contains(p) {
                                    let jd = choose|jd: int| 0 <= jd < done.len() && done[jd] == p;
                                    if jd == old_done.len() {
                                        assert(p == idn);
                                        assert(false);
                                    }
                                    assert(old_done[jd] == p);
                                }
                            }
                        }
                    }
                }
                assert(frontier_ok(self, done, queue@));
            }
        }
        proof {
            // the stack is empty: the emitted set is parent-closed and holds
            // the root, hence every node, exactly once each
            assert forall|n: int| 0 < n < cnt implies (done.contains(n) <==> done.contains(
                self.parent_of(n),
            )) by {
                lemma_frontier_instance(self, done, queue@, n);
                assert(!in_id_seq(queue@, n));
            }
            assert(done.contains(0)) by {
                lemma_frontier_instance(self, done, queue@, 0);
            }
            assert forall|id: int| 0 <= id < cnt implies done.contains(id) by {
                lemma_closed_set_is_full(self, done, id);
            }
            lemma_distinct_ids_bounded(done, cnt);
            broadcast use seq_to_set_is_finite;

            done.unique_seq_to_set();
            lemma_int_range(0, cnt);
            assert(set_int_range(0, cnt).subset_of(done.to_set()));
            lemma_len_subset(set_int_range(0, cnt), done.to_set());
            assert(done.len() == cnt);
            let plan = r@.map_values(|a: RenderAction| a@);
            assert(plan.len() == cnt);
            assert forall|j: int| 0 <= j < plan.len() implies exists|id: int|
                self.valid_id(id) && #[trigger] plan[j] == spec_node_action(self, cssi, id) by {
                assert(plan[j] == spec_node_action(self, cssi, done[j]));
                assert(self.valid_id(done[j]));
            }
            assert forall|id: int| self.valid_id(id) implies plan.contains(
                #[trigger] spec_node_action(self, cssi, id),
            ) by {
                assert(done.contains(id));
                let j = choose|j: int| 0 <= j < done.len() && done[j] == id;
                assert(plan[j] == spec_node_action(self, cssi, id));
            }
        }
        r
    }
}

} // verus!
