//! The site tree: an arena of identity-stable nodes with parent/child links,
//! a content variant per node, and path resolution between arbitrary nodes.
//!
//! Ids are indices into an append-only arena. The root is created with the
//! tree and always has id 0; every later node is appended under an existing
//! parent and keeps its id forever. Because a node's parent is always created
//! before it, every parent id is smaller than its child's id, and the
//! parent/child relation is a rooted tree by construction: no cycles, and
//! every node reaches the root through its parent chain.

use crate::stylesheet::Stylesheet;
use crate::LssgError;
use vstd::prelude::*;
use vstd::string::StringExecFns;

verus! {

/// One document token, produced by an external tokenizer and stored opaquely:
/// the tree never looks inside it.
pub struct Token {
    pub text: String,
}

/// What a node materializes as in the output directory.
pub enum NodeType {
    /// A parsed document: its token sequence, the source path it came from,
    /// and whether it materializes as `name.html` (flag set) or as a
    /// directory `name/index.html` (flag unset).
    Page { tokens: Vec<Token>, input: String, keep_name: bool },
    /// A file byte-copied verbatim from `input`.
    Resource { input: String },
    /// A pre-merged stylesheet written as text.
    Stylesheet(Stylesheet),
    /// A pure container producing an empty directory.
    Folder,
}

/// One entry of the site tree: identity is its arena index, hierarchy is the
/// parent id (`None` only for the root) and the ordered child ids.
pub struct Node {
    pub name: String,
    pub parent: Option<usize>,
    pub children: Vec<usize>,
    pub node_type: NodeType,
}

/// The site tree itself: owns all nodes in an arena indexed by id.
pub struct SiteMap {
    nodes: Vec<Node>,
}

/// The length of the longest common prefix of two id chains.
pub open spec fn lcp_len(a: Seq<int>, b: Seq<int>) -> int
    decreases a.len(),
{
    if a.len() == 0 || b.len() == 0 || a[0] != b[0] {
        0
    } else {
        1 + lcp_len(a.skip(1), b.skip(1))
    }
}

/// The longest common prefix is the unique cut where the chains agree before
/// it and end or differ at it.
proof fn lemma_lcp_len_unique(a: Seq<int>, b: Seq<int>, k: int)
    requires
        0 <= k <= a.len(),
        k <= b.len(),
        forall|j: int| 0 <= j < k ==> a[j] == b[j],
        k == a.len() || k == b.len() || a[k] != b[k],
    ensures
        lcp_len(a, b) == k,
    decreases k,
{
    if k == 0 {
    } else {
        assert(a[0] == b[0]);
        assert forall|j: int| 0 <= j < k - 1 implies a.skip(1)[j] == b.skip(1)[j] by {
            assert(a[j + 1] == b[j + 1]);
        }
        if k < a.len() && k < b.len() {
            assert(a.skip(1)[k - 1] != b.skip(1)[k - 1]);
        }
        lemma_lcp_len_unique(a.skip(1), b.skip(1), k - 1);
    }
}

/// Path segments joined with `/`: empty for no segments, no leading or
/// trailing separator.
pub open spec fn join_segments(parts: Seq<Seq<char>>) -> Seq<char>
    decreases parts.len(),
{
    if parts.len() == 0 {
        Seq::empty()
    } else if parts.len() == 1 {
        parts[0]
    } else {
        parts[0] + seq!['/'] + join_segments(parts.skip(1))
    }
}

/// Appending one more segment appends a separator and the segment, unless
/// there was nothing yet.
proof fn lemma_join_snoc(parts: Seq<Seq<char>>, last: Seq<char>)
    ensures
        join_segments(parts.push(last)) == if parts.len() == 0 {
            last
        } else {
            join_segments(parts) + seq!['/'] + last
        },
    decreases parts.len(),
{
    if parts.len() == 0 {
        assert(parts.push(last) =~= seq![last]);
    } else {
        lemma_join_snoc(parts.skip(1), last);
        assert(parts.push(last).skip(1) =~= parts.skip(1).push(last));
        if parts.len() == 1 {
            assert(join_segments(parts.push(last)) == parts[0] + seq!['/'] + last);
        } else {
            assert(join_segments(parts.push(last)) =~= join_segments(parts) + seq!['/'] + last);
        }
    }
}

/// Joins path segments with `/` into one string, with no leading or trailing
/// separator; `gp` is the same segments as mathematical character sequences.
fn join_parts(parts: &Vec<String>, Ghost(gp): Ghost<Seq<Seq<char>>>) -> (r: String)
    requires
        gp.len() == parts@.len(),
        forall|j: int| 0 <= j < gp.len() ==> (#[trigger] parts@[j])@ == gp[j],
    ensures
        r@ == join_segments(gp),
{
    let mut r = String::new();
    let mut i: usize = 0;
    while i < parts.len()
        invariant
            i <= parts@.len(),
            gp.len() == parts@.len(),
            forall|j: int| 0 <= j < gp.len() ==> (#[trigger] parts@[j])@ == gp[j],
            r@ == join_segments(gp.take(i as int)),
        decreases parts@.len() - i,
    {
        proof {
            reveal_strlit("/");
            assert("/"@ =~= seq!['/']);
            lemma_join_snoc(gp.take(i as int), gp[i as int]);
            assert(gp.take(i as int + 1) =~= gp.take(i as int).push(gp[i as int]));
        }
        if i > 0 {
            r.append("/");
        }
        r.append(parts[i].as_str());
        i = i + 1;
    }
    proof {
        assert(gp.take(parts@.len() as int) =~= gp);
    }
    r
}

/// How many leading entries two id vectors share; `ga` and `gb` are the same
/// vectors as mathematical integer sequences.
fn common_prefix_len(a: &Vec<usize>, b: &Vec<usize>, Ghost(ga): Ghost<Seq<int>>, Ghost(
    gb,
): Ghost<Seq<int>>) -> (k: usize)
    requires
        ga.len() == a@.len(),
        forall|j: int| 0 <= j < ga.len() ==> #[trigger] ga[j] == a@[j] as int,
        gb.len() == b@.len(),
        forall|j: int| 0 <= j < gb.len() ==> #[trigger] gb[j] == b@[j] as int,
    ensures
        k as int == lcp_len(ga, gb),
        k <= a@.len(),
        k <= b@.len(),
{
    let mut k: usize = 0;
    while k < a.len() && k < b.len() && a[k] == b[k]
        invariant
            k <= a@.len(),
            k <= b@.len(),
            forall|j: int| 0 <= j < k ==> a@[j] == b@[j],
        decreases a@.len() - k,
    {
        k = k + 1;
    }
    proof {
        assert forall|j: int| 0 <= j < k implies ga[j] == gb[j] by {
            assert(a@[j] == b@[j]);
        }
        if (k as int) < ga.len() && (k as int) < gb.len() {
            assert(a@[k as int] != b@[k as int]);
        }
        lemma_lcp_len_unique(ga, gb, k as int);
    }
    k
}

/// `n` segments of `..`.
fn dotdot_segments(n: usize) -> (r: Vec<String>)
    ensures
        r@.len() == n,
        forall|j: int| 0 <= j < n ==> (#[trigger] r@[j])@ == seq!['.', '.'],
{
    let mut r: Vec<String> = Vec::new();
    let mut u: usize = 0;
    while u < n
        invariant
            u <= n,
            r@.len() == u,
            forall|j: int| 0 <= j < u ==> (#[trigger] r@[j])@ == seq!['.', '.'],
        decreases n - u,
    {
        r.push("..".to_owned());
        u = u + 1;
        proof {
            reveal_strlit("..");
            assert(".."@ =~= seq!['.', '.']);
        }
    }
    r
}

impl SiteMap {
    /// The arena, as a mathematical sequence of nodes indexed by id.
    pub closed spec fn spec_nodes(&self) -> Seq<Node> {
        self.nodes@
    }

    /// How many nodes the tree holds; ids are exactly `0 .. node_count()`.
    pub open spec fn node_count(&self) -> nat {
        self.spec_nodes().len()
    }

    /// Whether `id` names a node of this tree.
    pub open spec fn valid_id(&self, id: int) -> bool {
        0 <= id < self.spec_nodes().len()
    }

    /// The parent of `id` as an id, or -1 for the root (and for a malformed
    /// node, which a well-formed tree does not hold).
    pub open spec fn parent_of(&self, id: int) -> int {
        match self.spec_nodes()[id].parent {
            Some(p) => p as int,
            None => -1,
        }
    }

    /// Well-formedness: ids form a rooted tree. The root has no parent; every
    /// other node has exactly one parent, created before it and listing it as
    /// a child; every child entry names a node created after its parent that
    /// points back to it; and no node is listed as a child twice.
    pub open spec fn wf(&self) -> bool {
        &&& self.spec_nodes().len() >= 1
        &&& self.spec_nodes()[0].parent is None
        &&& forall|i: int|
            1 <= i < self.spec_nodes().len() ==> 0 <= self.parent_of(i) < i
                && (#[trigger] self.spec_nodes()[i]).parent is Some
                && self.spec_nodes()[self.parent_of(i)].children@.contains(i as usize)
        &&& forall|i: int, j: int|
            0 <= i < self.spec_nodes().len() && 0 <= j < self.spec_nodes()[i].children@.len()
                ==> {
                let c = #[trigger] self.spec_nodes()[i].children@[j];
                &&& i < c < self.spec_nodes().len()
                &&& self.spec_nodes()[c as int].parent == Some(i as usize)
            }
        &&& forall|i: int, j1: int, j2: int|
            0 <= i < self.spec_nodes().len() && 0 <= j1 < self.spec_nodes()[i].children@.len()
                && 0 <= j2 < self.spec_nodes()[i].children@.len() && j1 != j2
                ==> #[trigger] self.spec_nodes()[i].children@[j1]
                != #[trigger] self.spec_nodes()[i].children@[j2]
    }

    /// A fresh tree holding only its root: a node with the given name and
    /// content, no parent and no children, under the fixed root id.
    pub fn new(name: String, node_type: NodeType) -> (r: SiteMap)
        ensures
            r.wf(),
            r.node_count() == 1,
            r.spec_nodes()[0].name == name,
            r.spec_nodes()[0].node_type == node_type,
            r.spec_nodes()[0].parent is None,
            r.spec_nodes()[0].children@ == Seq::<usize>::empty(),
    {
        let mut nodes: Vec<Node> = Vec::new();
        nodes.push(Node { name, parent: None, children: Vec::new(), node_type });
        SiteMap { nodes }
    }

    /// The arena is a vector, so ids always fit in a machine word.
    pub proof fn lemma_count_bound(&self)
        ensures
            self.node_count() <= usize::MAX,
    {
        broadcast use vstd::std_specs::vec::axiom_spec_len;

        assert(vstd::std_specs::vec::spec_vec_len(&self.nodes) == self.nodes@.len());
    }

    /// The fixed id of the root node.
    pub fn root(&self) -> (r: usize)
        ensures
            r == 0,
    {
        0
    }

    /// The node for `id`, or a lookup failure naming the id exactly when no
    /// such node exists.
    pub fn get(&self, id: usize) -> (r: Result<&Node, LssgError>)
        ensures
            r is Ok <==> self.valid_id(id as int),
            r matches Ok(n) ==> *n == self.spec_nodes()[id as int],
            r matches Err(e) ==> e == LssgError::TreeLookup(id),
    {
        if id < self.nodes.len() {
            Ok(&self.nodes[id])
        } else {
            Err(LssgError::TreeLookup(id))
        }
    }

    /// Appends `node` as a new child of `parent_id` under a fresh id — the
    /// next unused index, so ids never change or get reused. The node's
    /// hierarchy links are set here: its parent becomes `parent_id` and it
    /// starts with no children, whatever the caller passed in those fields.
    /// Fails with a lookup failure exactly when `parent_id` does not exist,
    /// leaving the tree unchanged.
    pub fn add(&mut self, node: Node, parent_id: usize) -> (r: Result<usize, LssgError>)
        requires
            old(self).wf(),
        ensures
            final(self).wf(),
            r is Ok <==> old(self).valid_id(parent_id as int),
            r matches Ok(id) ==> {
                &&& id == old(self).node_count()
                &&& final(self).node_count() == old(self).node_count() + 1
                &&& final(self).spec_nodes()[id as int].name == node.name
                &&& final(self).spec_nodes()[id as int].node_type == node.node_type
                &&& final(self).spec_nodes()[id as int].parent == Some(parent_id)
                &&& final(self).spec_nodes()[id as int].children@ == Seq::<usize>::empty()
                &&& forall|i: int|
                    0 <= i < old(self).node_count() && i != parent_id
                        ==> final(self).spec_nodes()[i] == old(self).spec_nodes()[i]
                &&& final(self).spec_nodes()[parent_id as int].name == old(self).spec_nodes()[
                    parent_id as int].name
                &&& final(self).spec_nodes()[parent_id as int].parent == old(self).spec_nodes()[
                    parent_id as int].parent
                &&& final(self).spec_nodes()[parent_id as int].node_type == old(
                    self,
                ).spec_nodes()[parent_id as int].node_type
                &&& final(self).spec_nodes()[parent_id as int].children@ == old(
                    self,
                ).spec_nodes()[parent_id as int].children@.push(id)
            },
            r is Err ==> *final(self) == *old(self),
            r matches Err(e) ==> e == LssgError::TreeLookup(parent_id),
    {
        if parent_id >= self.nodes.len() {
            return Err(LssgError::TreeLookup(parent_id));
        }
        let id = self.nodes.len();
        self.nodes.push(
            Node {
                name: node.name,
                parent: Some(parent_id),
                children: Vec::new(),
                node_type: node.node_type,
            },
        );
        self.nodes[parent_id].children.push(id);
        proof {
            let on = old(self).spec_nodes();
            let s = self.spec_nodes();
            let idi = id as int;
            let pi = parent_id as int;
            assert(s[idi].children@ =~= Seq::<usize>::empty());
            assert(s[pi].children@ == on[pi].children@.push(id));
            assert forall|i: int|
                1 <= i < s.len() implies 0 <= self.parent_of(i) < i && (#[trigger] s[i]).parent
                is Some && s[self.parent_of(i)].children@.contains(i as usize) by {
                if i == idi {
                    assert(s[pi].children@[on[pi].children@.len() as int] == id);
                    assert(s[pi].children@.contains(id));
                } else {
                    let p = old(self).parent_of(i);
                    assert(on[p].children@.contains(i as usize));
                    let j = choose|j: int|
                        0 <= j < on[p].children@.len() && on[p].children@[j] == i as usize;
                    assert(s[p].children@[j] == i as usize);
                    assert(s[p].children@.contains(i as usize));
                }
            }
            assert forall|i: int, j: int|
                0 <= i < s.len() && 0 <= j < s[i].children@.len() implies {
                    let c = #[trigger] s[i].children@[j];
                    &&& i < c < s.len()
                    &&& s[c as int].parent == Some(i as usize)
                } by {
                if i == pi && j == on[pi].children@.len() {
                    assert(s[i].children@[j] == id);
                } else if i != idi {
                    let c = on[i].children@[j];
                    assert(i < c < on.len());
                    assert(s[c as int].parent == on[c as int].parent);
                }
            }
            assert forall|i: int, j1: int, j2: int|
                0 <= i < s.len() && 0 <= j1 < s[i].children@.len() && 0 <= j2
                    < s[i].children@.len() && j1 != j2 implies #[trigger] s[i].children@[j1]
                != #[trigger] s[i].children@[j2] by {
                if i == pi {
                    if j1 < on[pi].children@.len() && j2 < on[pi].children@.len() {
                        assert(on[pi].children@[j1] != on[pi].children@[j2]);
                    } else if j1 < on[pi].children@.len() {
                        assert(on[pi].children@[j1] < id);
                    } else {
                        assert(j2 < on[pi].children@.len());
                        assert(on[pi].children@[j2] < id);
                    }
                } else if i != idi {
                    assert(on[i].children@[j1] != on[i].children@[j2]);
                }
            }
        }
        Ok(id)
    }

    /// The ancestor chain of `id`: the ids along the parent walk from the
    /// root down to `id` itself, root first.
    pub open spec fn spec_chain(&self, id: int) -> Seq<int>
        decreases id,
    {
        if 0 < id && 0 <= self.parent_of(id) < id {
            self.spec_chain(self.parent_of(id)).push(id)
        } else {
            seq![id]
        }
    }

    /// In a well-formed tree every ancestor chain starts at the root, ends at
    /// the node, strictly ascends in id, and steps along the parent links.
    pub proof fn lemma_chain(&self, id: int)
        requires
            self.wf(),
            self.valid_id(id),
        ensures
            ({
                let ch = self.spec_chain(id);
                &&& ch.len() >= 1
                &&& ch[0] == 0
                &&& ch[ch.len() - 1] == id
                &&& forall|j: int|
                    0 <= j < ch.len() ==> 0 <= #[trigger] ch[j] <= id && self.valid_id(ch[j])
                &&& forall|j1: int, j2: int| 0 <= j1 < j2 < ch.len() ==> ch[j1] < ch[j2]
                &&& forall|j: int|
                    1 <= j < ch.len() ==> #[trigger] self.parent_of(ch[j]) == ch[j - 1]
            }),
        decreases id,
    {
        if id > 0 {
            self.lemma_chain(self.parent_of(id));
        }
    }

    /// Tree invariant: no node is its own ancestor. Every entry of a node's
    /// chain except the last names a strictly smaller id, so the parent walk
    /// can never come back to where it started.
    pub proof fn lemma_no_self_ancestor(&self, id: int)
        requires
            self.wf(),
            self.valid_id(id),
        ensures
            forall|j: int|
                0 <= j < self.spec_chain(id).len() - 1 ==> #[trigger] self.spec_chain(id)[j] != id,
    {
        self.lemma_chain(id);
    }

    /// The filesystem path of `id` as characters: the names along the parent
    /// chain joined root-to-leaf with `/`, the root contributing no segment.
    pub open spec fn spec_path(&self, id: int) -> Seq<char>
        decreases id,
    {
        if 0 < id && 0 <= self.parent_of(id) < id {
            if self.parent_of(id) == 0 {
                self.spec_nodes()[id].name@
            } else {
                self.spec_path(self.parent_of(id)) + seq!['/'] + self.spec_nodes()[id].name@
            }
        } else {
            Seq::empty()
        }
    }

    /// The filesystem path for `id`, built by walking the parent chain from
    /// `id` to the root and joining the names in root-to-leaf order with `/`.
    /// The root contributes no segment, so its path is the empty string.
    pub fn path(&self, id: usize) -> (r: String)
        requires
            self.wf(),
            self.valid_id(id as int),
        ensures
            r@ == self.spec_path(id as int),
        decreases id,
    {
        if id == 0 {
            String::new()
        } else {
            if let Some(p) = self.nodes[id].parent {
                if p == 0 {
                    self.nodes[id].name.clone()
                } else {
                    let mut s = self.path(p);
                    s.append("/");
                    s.append(self.nodes[id].name.as_str());
                    proof {
                        reveal_strlit("/");
                        assert(s@ =~= self.spec_path(id as int));
                    }
                    s
                }
            } else {
                proof {
                    assert(false);
                }
                unreached()
            }
        }
    }

    /// The ancestor chain of `id` as a vector of ids, root first.
    fn ancestor_chain(&self, id: usize) -> (r: Vec<usize>)
        requires
            self.wf(),
            self.valid_id(id as int),
        ensures
            r@.len() == self.spec_chain(id as int).len(),
            forall|j: int|
                0 <= j < r@.len() ==> #[trigger] r@[j] as int == self.spec_chain(id as int)[j],
            r@.len() >= 1,
        decreases id,
    {
        if id == 0 {
            let mut v: Vec<usize> = Vec::new();
            v.push(0);
            v
        } else {
            if let Some(p) = self.nodes[id].parent {
                let mut v = self.ancestor_chain(p);
                v.push(id);
                v
            } else {
                proof {
                    assert(false);
                }
                unreached()
            }
        }
    }

    /// The segments of the relative path from `from` to `to`: one `..` per
    /// step from `from` up to the lowest common ancestor — so the number of
    /// `..` segments is exactly the depth difference between `from` and that
    /// ancestor — then the names from the common ancestor down to `to`.
    pub open spec fn spec_rel_segments(&self, from: int, to: int) -> Seq<Seq<char>> {
        let cf = self.spec_chain(from);
        let ct = self.spec_chain(to);
        let k = lcp_len(cf, ct);
        Seq::new((cf.len() - k) as nat, |j: int| seq!['.', '.']) + Seq::new(
            (ct.len() - k) as nat,
            |j: int| self.spec_nodes()[ct[k + j]].name@,
        )
    }

    /// The relative path from `from` to `to` as characters: the `..` and name
    /// segments joined with `/`.
    pub open spec fn spec_rel_path(&self, from: int, to: int) -> Seq<char> {
        join_segments(self.spec_rel_segments(from, to))
    }

    /// A relative filesystem path usable inside the output location of `from`
    /// to reach the output location of `to`: walk up from `from` to the
    /// lowest common ancestor with one `..` per step, then follow the path
    /// segments down to `to`.
    /// The names of the nodes `ids[k..]`, in order.
    fn name_segments(&self, ids: &Vec<usize>, k: usize) -> (r: Vec<String>)
        requires
            k <= ids@.len(),
            forall|j: int| 0 <= j < ids@.len() ==> self.valid_id(#[trigger] ids@[j] as int),
        ensures
            r@.len() == ids@.len() - k,
            forall|j: int|
                0 <= j < r@.len() ==> (#[trigger] r@[j])@ == self.spec_nodes()[ids@[k + j] as int].name@,
    {
        let mut r: Vec<String> = Vec::new();
        let mut d: usize = 0;
        while d < ids.len() - k
            invariant
                k <= ids@.len(),
                d <= ids@.len() - k,
                forall|j: int| 0 <= j < ids@.len() ==> self.valid_id(#[trigger] ids@[j] as int),
                r@.len() == d,
                forall|j: int|
                    0 <= j < d ==> (#[trigger] r@[j])@ == self.spec_nodes()[ids@[k + j] as int].name@,
            decreases ids@.len() - k - d,
        {
            let id = ids[k + d];
            r.push(self.nodes[id].name.clone());
            d = d + 1;
        }
        r
    }

    /// The `..` and name segments of the relative path from `from` to `to`,
    /// in order, one string per segment.
    fn rel_segments(&self, from: usize, to: usize) -> (r: Vec<String>)
        requires
            self.wf(),
            self.valid_id(from as int),
            self.valid_id(to as int),
        ensures
            r@.len() == self.spec_rel_segments(from as int, to as int).len(),
            forall|j: int|
                0 <= j < r@.len() ==> (#[trigger] r@[j])@ == self.spec_rel_segments(
                    from as int,
                    to as int,
                )[j],
    {
        proof {
            self.lemma_chain(from as int);
            self.lemma_chain(to as int);
        }
        let cf = self.ancestor_chain(from);
        let ct = self.ancestor_chain(to);
        let ghost gcf = self.spec_chain(from as int);
        let ghost gct = self.spec_chain(to as int);
        let k = common_prefix_len(&cf, &ct, Ghost(gcf), Ghost(gct));
        let mut r = dotdot_segments(cf.len() - k);
        let mut names = self.name_segments(&ct, k);
        let ghost ups = cf@.len() - k;
        r.append(&mut names);
        proof {
            let parts = self.spec_rel_segments(from as int, to as int);
            assert(parts.len() == ups + (gct.len() - k));
            assert forall|j: int| 0 <= j < r@.len() implies (#[trigger] r@[j])@ == parts[j] by {
                if j < ups {
                    assert(parts[j] == seq!['.', '.']);
                } else {
                    assert(parts[j] == self.spec_nodes()[gct[k + (j - ups)]].name@);
                    assert(gct[k + (j - ups)] == ct@[k + (j - ups)] as int);
                }
            }
        }
        r
    }

    /// A relative filesystem path usable inside the output location of `from`
    /// to reach the output location of `to`: walk up from `from` to the
    /// lowest common ancestor with one `..` per step, then follow the path
    /// segments down to `to`.
    pub fn rel_path(&self, from: usize, to: usize) -> (r: String)
        requires
            self.wf(),
            self.valid_id(from as int),
            self.valid_id(to as int),
        ensures
            r@ == self.spec_rel_path(from as int, to as int),
    {
        let parts = self.rel_segments(from, to);
        join_parts(&parts, Ghost(self.spec_rel_segments(from as int, to as int)))
    }

    /// Relative-path correctness for siblings: from one child to a different
    /// child of the same parent, the relative path is exactly one `..`
    /// followed by the sibling's name.
    #[verifier::spinoff_prover]
    #[verifier::rlimit(100)]
    pub proof fn lemma_sibling_rel_path(&self, x: int, y: int)
        requires
            self.wf(),
            self.valid_id(x),
            self.valid_id(y),
            x != 0,
            y != 0,
            x != y,
            self.parent_of(x) == self.parent_of(y),
        ensures
            self.spec_rel_path(x, y) == seq!['.', '.', '/'] + self.spec_nodes()[y].name@,
    {
        let p = self.parent_of(x);
        self.lemma_chain(x);
        self.lemma_chain(y);
        let cp = self.spec_chain(p);
        let cx = self.spec_chain(x);
        let cy = self.spec_chain(y);
        assert(cx == cp.push(x));
        assert(cy == cp.push(y));
        assert forall|j: int| 0 <= j < cp.len() implies cx[j] == cy[j] by {}
        assert(cx[cp.len() as int] != cy[cp.len() as int]);
        lemma_lcp_len_unique(cx, cy, cp.len() as int);
        let parts = self.spec_rel_segments(x, y);
        let name = self.spec_nodes()[y].name@;
        assert(parts =~= seq![seq!['.', '.'], name]);
        assert(parts.skip(1) =~= seq![name]);
        assert(join_segments(parts.skip(1)) == name);
        assert(join_segments(parts) == seq!['.', '.'] + seq!['/'] + name);
        assert(seq!['.', '.'] + seq!['/'] + name =~= seq!['.', '.', '/'] + name);
    }

    /// Creates a `Stylesheet` node with the given name and content as a child
    /// of `parent_id` and returns its fresh id; fails with a lookup failure
    /// exactly when `parent_id` does not exist, leaving the tree unchanged.
    pub fn add_stylesheet(&mut self, name: String, stylesheet: Stylesheet, parent_id: usize) -> (r:
        Result<usize, LssgError>)
        requires
            old(self).wf(),
        ensures
            final(self).wf(),
            r is Ok <==> old(self).valid_id(parent_id as int),
            r matches Ok(id) ==> {
                &&& id == old(self).node_count()
                &&& final(self).node_count() == old(self).node_count() + 1
                &&& final(self).spec_nodes()[id as int].name == name
                &&& final(self).spec_nodes()[id as int].node_type == NodeType::Stylesheet(
                    stylesheet,
                )
                &&& final(self).spec_nodes()[id as int].parent == Some(parent_id)
                &&& final(self).spec_nodes()[id as int].children@ == Seq::<usize>::empty()
                &&& forall|i: int|
                    0 <= i < old(self).node_count() && i != parent_id
                        ==> final(self).spec_nodes()[i] == old(self).spec_nodes()[i]
                &&& final(self).spec_nodes()[parent_id as int].children@ == old(
                    self,
                ).spec_nodes()[parent_id as int].children@.push(id)
            },
            r is Err ==> *final(self) == *old(self),
            r matches Err(e) ==> e == LssgError::TreeLookup(parent_id),
    {
        self.add(
            Node {
                name,
                parent: Some(parent_id),
                children: Vec::new(),
                node_type: NodeType::Stylesheet(stylesheet),
            },
            parent_id,
        )
    }
}

} // verus!
