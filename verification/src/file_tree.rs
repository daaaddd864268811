use vstd::prelude::*;
use crate::browser::{trim_chars, trim_str};

verus! {

/// The link value that points at no node.
pub const NO_NODE: u32 = 0xFFFF_FFFFu32;

/// What a node of the workspace tree stands for.
#[derive(Clone, Copy, Debug, PartialEq, Eq, Structural)]
pub enum FileKind {
    File,
    Directory,
}

/// A node of the workspace tree: its name and its links to its parent,
/// its first child and its next sibling (`NO_NODE` where there is none).
pub struct FileNode {
    pub kind: FileKind,
    pub name: String,
    pub parent_idx: u32,
    pub first_child: u32,
    pub next_sibling: u32,
    pub is_expanded: bool,
}

/// The workspace tree, its nodes stored in one vector and linked by index;
/// the top-level nodes form the sibling chain that starts at `first_root`.
pub struct FileTree {
    pub nodes: Vec<FileNode>,
    pub first_root: u32,
}

impl FileTree {
    /// Well-formed: every index fits below `NO_NODE`; the nodes are stored in
    /// the order a scan appends them (a parent before its children, a node
    /// before its later siblings); and the links agree with the parents: the
    /// first top-level node has no parent, a first child names its parent,
    /// and a next sibling has the same parent.
    pub open spec fn wf(self) -> bool {
        &&& self.nodes@.len() < NO_NODE
        &&& self.has(self.first_root as int) ==> self.nodes@[self.first_root as int].parent_idx
            == NO_NODE
        &&& forall|i: int|
            0 <= i < self.nodes@.len() ==> {
                let n = #[trigger] self.nodes@[i];
                &&& (n.parent_idx == NO_NODE || n.parent_idx < i)
                &&& (n.first_child == NO_NODE || i < n.first_child)
                &&& (n.next_sibling == NO_NODE || i < n.next_sibling)
            }
        &&& forall|i: int| 0 <= i < self.nodes@.len() ==> #[trigger] self.links_agree(i)
    }

    /// Node `i`'s first child names `i` as its parent, and its next sibling
    /// has the same parent as `i`.
    pub open spec fn links_agree(self, i: int) -> bool {
        let n = self.nodes@[i];
        &&& (n.first_child < self.nodes@.len() ==> self.nodes@[n.first_child as int].parent_idx
            == i)
        &&& (n.next_sibling < self.nodes@.len() ==> self.nodes@[n.next_sibling as int].parent_idx
            == n.parent_idx)
    }

    /// Whether the tree is well-formed (see `wf`): a tree read from an
    /// outside source is checked before the functions that need it.
    pub fn check_wf(&self) -> (r: bool)
        ensures
            r == self.wf(),
    {
        let n = self.nodes.len();
        if n >= NO_NODE as usize {
            return false;
        }
        if (self.first_root as usize) < n && self.nodes[self.first_root as usize].parent_idx != NO_NODE {
            return false;
        }
        let mut i: usize = 0;
        while i < n
            invariant
                n == self.nodes@.len() < NO_NODE,
                i <= n,
                self.has(self.first_root as int) ==> self.nodes@[self.first_root as int].parent_idx
                    == NO_NODE,
                forall|j: int|
                    0 <= j < i ==> {
                        let m = #[trigger] self.nodes@[j];
                        &&& (m.parent_idx == NO_NODE || m.parent_idx < j)
                        &&& (m.first_child == NO_NODE || j < m.first_child)
                        &&& (m.next_sibling == NO_NODE || j < m.next_sibling)
                    },
                forall|j: int| 0 <= j < i ==> #[trigger] self.links_agree(j),
            decreases n - i,
        {
            let m = &self.nodes[i];
            if !(m.parent_idx == NO_NODE || (m.parent_idx as usize) < i) {
                return false;
            }
            if !(m.first_child == NO_NODE || i < (m.first_child as usize)) {
                return false;
            }
            if !(m.next_sibling == NO_NODE || i < (m.next_sibling as usize)) {
                return false;
            }
            if (m.first_child as usize) < n && self.nodes[m.first_child as usize].parent_idx != i as u32 {
                proof {
                    assert(!self.links_agree(i as int));
                }
                return false;
            }
            if (m.next_sibling as usize) < n && self.nodes[m.next_sibling as usize].parent_idx
                != m.parent_idx {
                proof {
                    assert(!self.links_agree(i as int));
                }
                return false;
            }
            i = i + 1;
        }
        true
    }

    /// Whether `i` is the index of a node.
    pub open spec fn has(self, i: int) -> bool {
        0 <= i < self.nodes@.len()
    }

    /// The rows shown for the sibling chain that starts at `c`, in display
    /// order: each node, then (for an expanded directory) the rows of its
    /// children, then the rows of its later siblings.
    pub open spec fn rows_from(self, c: int) -> Seq<u32>
        decreases self.nodes@.len() - c,
    {
        if !self.has(c) {
            Seq::empty()
        } else {
            let n = self.nodes@[c];
            seq![c as u32] + self.child_rows(c) + (if c < n.next_sibling && self.has(
                n.next_sibling as int,
            ) {
                self.rows_from(n.next_sibling as int)
            } else {
                Seq::empty()
            })
        }
    }

    /// The rows shown under node `c`: those of its children when it is an
    /// expanded directory, else none.
    pub open spec fn child_rows(self, c: int) -> Seq<u32>
        decreases self.nodes@.len() - c, 0int,
    {
        if !self.has(c) {
            Seq::empty()
        } else {
            let n = self.nodes@[c];
            if n.kind == FileKind::Directory && n.is_expanded && c < n.first_child && self.has(
                n.first_child as int,
            ) {
                self.rows_from(n.first_child as int)
            } else {
                Seq::empty()
            }
        }
    }

    /// All the rows shown of the tree, in display order.
    pub open spec fn visible_rows_spec(self) -> Seq<u32> {
        if self.first_root == NO_NODE {
            Seq::empty()
        } else {
            self.rows_from(self.first_root as int)
        }
    }

    /// The names from the top-level ancestor of node `i` down to `i`
    /// itself; `None` when a node on the way is missing.
    pub open spec fn path_parts(self, i: int) -> Option<Seq<Seq<char>>>
        decreases i,
    {
        if !self.has(i) {
            None
        } else {
            let n = self.nodes@[i];
            if n.parent_idx == NO_NODE {
                Some(seq![n.name@])
            } else if 0 <= n.parent_idx < i {
                match self.path_parts(n.parent_idx as int) {
                    Some(p) => Some(p.push(n.name@)),
                    None => None,
                }
            } else {
                None
            }
        }
    }

    /// The first node named `name` on the sibling chain that starts at `c`.
    pub open spec fn find_sibling(self, c: int, name: Seq<char>) -> Option<u32>
        decreases self.nodes@.len() - c,
    {
        if !self.has(c) {
            None
        } else {
            let n = self.nodes@[c];
            if n.name@ == name {
                Some(c as u32)
            } else if c < n.next_sibling && self.has(n.next_sibling as int) {
                self.find_sibling(n.next_sibling as int, name)
            } else {
                None
            }
        }
    }

    /// The node reached by looking up `comps[i]` on the sibling chain that
    /// starts at `c`, then each later name among the children of the node
    /// found before it.
    pub open spec fn find_from(self, c: int, comps: Seq<Seq<char>>, i: int) -> Option<u32>
        decreases comps.len() - i,
    {
        if i < 0 || i >= comps.len() {
            None
        } else {
            match self.find_sibling(c, comps[i]) {
                None => None,
                Some(idx) => if i == comps.len() - 1 {
                    Some(idx)
                } else {
                    let first = self.nodes@[idx as int].first_child;
                    if first == NO_NODE {
                        None
                    } else {
                        self.find_from(first as int, comps, i + 1)
                    }
                },
            }
        }
    }

    /// The node of the path whose components below the workspace folder are
    /// `comps`: the first one is looked up among the top-level nodes, each
    /// later one among the children of the node before it.
    pub open spec fn find_path(self, comps: Seq<Seq<char>>) -> Option<u32> {
        if comps.len() == 0 || self.first_root == NO_NODE {
            None
        } else {
            self.find_from(self.first_root as int, comps, 0)
        }
    }

    proof fn lemma_rows_from_unfold(self, c: int)
        requires
            self.has(c),
        ensures
            self.rows_from(c) == seq![c as u32] + self.child_rows(c) + (if c
                < self.nodes@[c].next_sibling && self.has(self.nodes@[c].next_sibling as int) {
                self.rows_from(self.nodes@[c].next_sibling as int)
            } else {
                Seq::empty()
            }),
    {
    }

    /// Appends to `out` the rows shown for the sibling chain that starts at
    /// `start` (see `rows_from`).
    fn collect_rows(&self, start: u32, out: &mut Vec<u32>)
        requires
            self.wf(),
        ensures
            final(out)@ == old(out)@ + self.rows_from(start as int),
        decreases self.nodes@.len() - start,
    {
        let n = self.nodes.len();
        let mut cur = start;
        while cur != NO_NODE && (cur as usize) < n
            invariant
                self.wf(),
                n == self.nodes@.len(),
                start <= cur,
                out@ + self.rows_from(cur as int) == old(out)@ + self.rows_from(start as int),
            decreases (if cur < n { n - cur } else { 0 }),
        {
            let node = &self.nodes[cur as usize];
            proof {
                self.lemma_rows_from_unfold(cur as int);
            }
            let ghost before = out@;
            out.push(cur);
            if node.kind == FileKind::Directory && node.is_expanded && node.first_child != NO_NODE
                && (node.first_child as usize) < n {
                self.collect_rows(node.first_child, out);
            }
            proof {
                assert(out@ == before + seq![cur] + self.child_rows(cur as int));
            }
            let next = node.next_sibling;
            proof {
                assert(out@ + self.rows_from(next as int) =~= before + self.rows_from(cur as int));
            }
            cur = next;
        }
        proof {
            assert(out@ + self.rows_from(cur as int) =~= out@);
        }
    }

    /// The nodes shown, in display order: depth first, descending only into
    /// expanded directories.
    pub fn visible_rows(&self) -> (r: Vec<u32>)
        requires
            self.wf(),
        ensures
            r@ == self.visible_rows_spec(),
    {
        let mut out: Vec<u32> = Vec::new();
        if self.first_root != NO_NODE {
            self.collect_rows(self.first_root, &mut out);
            proof {
                assert(out@ =~= self.visible_rows_spec());
            }
        }
        out
    }

    /// The names from the top-level ancestor of node `idx` down to the node,
    /// which joined below the workspace folder give its path; `None` when a
    /// node on the way is missing.
    pub fn node_path_parts(&self, idx: u32) -> (r: Option<Vec<String>>)
        requires
            self.wf(),
        ensures
            match r {
                Some(v) => self.path_parts(idx as int) == Some(v@.map_values(|s: String| s@)),
                None => self.path_parts(idx as int) is None,
            },
        decreases idx,
    {
        if (idx as usize) >= self.nodes.len() {
            return None;
        }
        let node = &self.nodes[idx as usize];
        if node.parent_idx == NO_NODE {
            let mut v: Vec<String> = Vec::new();
            v.push(node.name.clone());
            proof {
                assert(v@.map_values(|s: String| s@) =~= seq![node.name@]);
            }
            Some(v)
        } else {
            match self.node_path_parts(node.parent_idx) {
                None => None,
                Some(mut v) => {
                    let ghost before = v@;
                    v.push(node.name.clone());
                    proof {
                        assert(v@.map_values(|s: String| s@) =~= before.map_values(
                            |s: String| s@,
                        ).push(node.name@));
                    }
                    Some(v)
                },
            }
        }
    }

    /// The first node named `name` on the sibling chain from `c`.
    fn find_sibling_exec(&self, c: u32, name: &String) -> (r: Option<u32>)
        requires
            self.wf(),
        ensures
            r == self.find_sibling(c as int, name@),
    {
        let n = self.nodes.len();
        let mut cur = c;
        while cur != NO_NODE && (cur as usize) < n
            invariant
                self.wf(),
                n == self.nodes@.len(),
                self.find_sibling(cur as int, name@) == self.find_sibling(c as int, name@),
            decreases (if cur < n { n - cur } else { 0 }),
        {
            let node = &self.nodes[cur as usize];
            if node.name == *name {
                return Some(cur);
            }
            cur = node.next_sibling;
        }
        None
    }

    /// The node of the path whose components below the workspace folder are
    /// `comps` (see `find_path`).
    pub fn find_node_by_path(&self, comps: &Vec<String>) -> (r: Option<u32>)
        requires
            self.wf(),
        ensures
            r == self.find_path(comps@.map_values(|s: String| s@)),
            r matches Some(m) ==> self.path_parts(m as int) == Some(
                comps@.map_values(|s: String| s@),
            ),
    {
        let ghost cs = comps@.map_values(|s: String| s@);
        proof {
            law_found_node_has_the_path(*self, cs);
        }
        if comps.len() == 0 || self.first_root == NO_NODE {
            return None;
        }
        let mut cur = self.first_root;
        let mut i: usize = 0;
        while i < comps.len()
            invariant
                self.wf(),
                cs == comps@.map_values(|s: String| s@),
                i < comps@.len(),
                self.find_from(cur as int, cs, i as int) == self.find_path(cs),
                self.find_path(cs) matches Some(m) ==> self.path_parts(m as int) == Some(cs),
            decreases comps@.len() - i,
        {
            match self.find_sibling_exec(cur, &comps[i]) {
                None => {
                    return None;
                },
                Some(idx) => {
                    if i == comps.len() - 1 {
                        return Some(idx);
                    }
                    proof {
                        lemma_found_sibling_is_node(*self, cur as int, cs[i as int]);
                    }
                    let first = self.nodes[idx as usize].first_child;
                    if first == NO_NODE {
                        return None;
                    }
                    cur = first;
                },
            }
            i = i + 1;
        }
        None
    }
}

/// A node found on a sibling chain is a node of the tree.
proof fn lemma_found_sibling_is_node(t: FileTree, c: int, name: Seq<char>)
    ensures
        t.find_sibling(c, name) matches Some(i) ==> t.has(i as int),
    decreases t.nodes@.len() - c,
{
    if t.has(c) {
        let n = t.nodes@[c];
        if n.name@ != name && c < n.next_sibling && t.has(n.next_sibling as int) {
            lemma_found_sibling_is_node(t, n.next_sibling as int, name);
        }
    }
}

/// The path of the parent `p` (none for the top level).
pub open spec fn parent_path(t: FileTree, p: u32) -> Seq<Seq<char>> {
    if p == NO_NODE {
        Seq::empty()
    } else {
        match t.path_parts(p as int) {
            Some(v) => v,
            None => Seq::empty(),
        }
    }
}

/// Every node of a well-formed tree has a path.
proof fn lemma_path_parts_some(t: FileTree, i: int)
    requires
        t.wf(),
        t.has(i),
    ensures
        t.path_parts(i) is Some,
    decreases i,
{
    let n = t.nodes@[i];
    if n.parent_idx != NO_NODE {
        lemma_path_parts_some(t, n.parent_idx as int);
    }
}

/// A node found on a sibling chain is a node, has the name looked for, and
/// has the parent of the chain's first node.
proof fn lemma_sibling_found(t: FileTree, c: int, name: Seq<char>)
    requires
        t.wf(),
    ensures
        t.find_sibling(c, name) matches Some(m) ==> t.has(m as int) && t.nodes@[m as int].name@
            == name && t.nodes@[m as int].parent_idx == t.nodes@[c].parent_idx,
    decreases t.nodes@.len() - c,
{
    if t.has(c) {
        let n = t.nodes@[c];
        if n.name@ != name && c < n.next_sibling && t.has(n.next_sibling as int) {
            assert(t.links_agree(c));
            lemma_sibling_found(t, n.next_sibling as int, name);
        }
    }
}

/// The node found from the chain at `c` for the names `comps[i..]` has the
/// path of the chain's parent followed by those names.
proof fn lemma_find_from_path(t: FileTree, c: int, comps: Seq<Seq<char>>, i: int)
    requires
        t.wf(),
        0 <= i,
    ensures
        t.find_from(c, comps, i) matches Some(m) ==> t.path_parts(m as int) == Some(
            parent_path(t, t.nodes@[c].parent_idx) + comps.subrange(i, comps.len() as int),
        ),
    decreases comps.len() - i,
{
    if i < comps.len() {
        lemma_sibling_found(t, c, comps[i]);
        if let Some(m0) = t.find_sibling(c, comps[i]) {
            let p = t.nodes@[c].parent_idx;
            let m0i = m0 as int;
            assert(t.nodes@[m0i].parent_idx == p);
            let pp = parent_path(t, p);
            if p != NO_NODE {
                lemma_path_parts_some(t, p as int);
            }
            assert(t.path_parts(m0i) == Some(pp.push(comps[i])));
            if i == comps.len() - 1 {
                assert(comps.subrange(i, comps.len() as int) =~= seq![comps[i]]);
                assert(pp.push(comps[i]) =~= pp + seq![comps[i]]);
            } else {
                let first = t.nodes@[m0i].first_child;
                if first != NO_NODE {
                    lemma_find_from_path(t, first as int, comps, i + 1);
                    if t.find_from(first as int, comps, i + 1) is Some {
                        lemma_sibling_found(t, first as int, comps[i + 1]);
                        assert(t.has(first as int));
                        assert(t.links_agree(m0i));
                        assert(t.nodes@[first as int].parent_idx == m0);
                        assert(parent_path(t, m0) == pp.push(comps[i]));
                        assert(pp.push(comps[i]) + comps.subrange(i + 1, comps.len() as int)
                            =~= pp + comps.subrange(i, comps.len() as int));
                    }
                }
            }
        }
    }
}

/// The node found for a path has that path: the names from its top-level
/// ancestor down to it are the path's components.
pub proof fn law_found_node_has_the_path(t: FileTree, comps: Seq<Seq<char>>)
    requires
        t.wf(),
    ensures
        t.find_path(comps) matches Some(m) ==> t.path_parts(m as int) == Some(comps),
{
    if comps.len() > 0 && t.first_root != NO_NODE {
        lemma_find_from_path(t, t.first_root as int, comps, 0);
        if t.find_path(comps) is Some {
            lemma_sibling_found(t, t.first_root as int, comps[0]);
            assert(t.has(t.first_root as int));
            assert(Seq::<Seq<char>>::empty() + comps.subrange(0, comps.len() as int) =~= comps);
        }
    }
}

/// The first node of the chain that holds the children of `p` (the
/// top-level nodes when `p` is `NO_NODE`).
pub open spec fn chain_start(t: FileTree, p: u32) -> int {
    if p == NO_NODE {
        t.first_root as int
    } else if t.has(p as int) {
        t.nodes@[p as int].first_child as int
    } else {
        -1
    }
}

/// Whether node `i` is on the sibling chain that starts at `c`.
pub open spec fn on_chain(t: FileTree, c: int, i: int) -> bool
    decreases t.nodes@.len() - c,
{
    &&& t.has(c)
    &&& (c == i || {
        let nx = t.nodes@[c].next_sibling as int;
        c < nx && t.has(nx) && on_chain(t, nx, i)
    })
}

/// Node `i` is linked into the tree: it starts the chain of its parent's
/// children, or it is some node's next sibling.
pub open spec fn linked(t: FileTree, i: int) -> bool {
    i == chain_start(t, t.nodes@[i].parent_idx) || exists|j: int|
        0 <= j < t.nodes@.len() && t.nodes@[j].next_sibling == i
}

/// A tree as a file system gives it: every node is linked in, and no two
/// children of one parent share a name.
pub open spec fn complete_tree(t: FileTree) -> bool {
    &&& t.wf()
    &&& forall|i: int| 0 <= i < t.nodes@.len() ==> #[trigger] linked(t, i)
    &&& forall|i: int, j: int|
        0 <= i < t.nodes@.len() && 0 <= j < t.nodes@.len() && i != j && t.nodes@[i].parent_idx
            == t.nodes@[j].parent_idx ==> #[trigger] t.nodes@[i].name@ != #[trigger] t.nodes@[j].name@
}

/// A chain that reaches node `j` also reaches `j`'s next sibling.
proof fn lemma_chain_extends(t: FileTree, c: int, j: int)
    requires
        t.wf(),
        on_chain(t, c, j),
        t.has(t.nodes@[j].next_sibling as int),
    ensures
        on_chain(t, c, t.nodes@[j].next_sibling as int),
    decreases t.nodes@.len() - c,
{
    let i = t.nodes@[j].next_sibling as int;
    if c != j {
        let nx = t.nodes@[c].next_sibling as int;
        lemma_chain_extends(t, nx, j);
    } else {
        assert(on_chain(t, i, i));
    }
}

/// In a complete tree every node is on the chain of its parent's children.
proof fn lemma_node_on_chain(t: FileTree, i: int)
    requires
        complete_tree(t),
        t.has(i),
    ensures
        on_chain(t, chain_start(t, t.nodes@[i].parent_idx), i),
    decreases i,
{
    assert(linked(t, i));
    let p = t.nodes@[i].parent_idx;
    if i == chain_start(t, p) {
    } else {
        let j = choose|j: int| 0 <= j < t.nodes@.len() && t.nodes@[j].next_sibling == i;
        assert(t.links_agree(j));
        assert(t.nodes@[j].parent_idx == p);
        lemma_node_on_chain(t, j);
        lemma_chain_extends(t, chain_start(t, p), j);
    }
}

/// On a chain that reaches node `i`, in a complete tree, the lookup of
/// `i`'s name finds `i`, and every node of the chain has `i`'s parent.
proof fn lemma_chain_finds(t: FileTree, c: int, i: int)
    requires
        complete_tree(t),
        on_chain(t, c, i),
    ensures
        t.has(i),
        t.nodes@[c].parent_idx == t.nodes@[i].parent_idx,
        t.find_sibling(c, t.nodes@[i].name@) == Some(i as u32),
    decreases t.nodes@.len() - c,
{
    if c != i {
        let nx = t.nodes@[c].next_sibling as int;
        lemma_chain_finds(t, nx, i);
        assert(t.links_agree(c));
        assert(t.nodes@[c].name@ != t.nodes@[i].name@);
    }
}

/// The search for `comps` reaches node `n` at step `k` when `n`'s path is
/// `comps[..k + 1]`: it then gives `n` if `k` is the last step, else it goes
/// on among `n`'s children.
proof fn lemma_search_reaches(t: FileTree, n: int, comps: Seq<Seq<char>>, k: int)
    requires
        complete_tree(t),
        t.has(n),
        0 <= k < comps.len(),
        t.path_parts(n) == Some(comps.subrange(0, k + 1)),
    ensures
        t.find_path(comps) == (if k == comps.len() - 1 {
            Some(n as u32)
        } else if t.nodes@[n].first_child == NO_NODE {
            None
        } else {
            t.find_from(t.nodes@[n].first_child as int, comps, k + 1)
        }),
    decreases n,
{
    let p = t.nodes@[n].parent_idx;
    lemma_node_on_chain(t, n);
    let c = chain_start(t, p);
    lemma_chain_finds(t, c, n);
    if p == NO_NODE {
        assert(t.path_parts(n) == Some(seq![t.nodes@[n].name@]));
        assert(comps.subrange(0, k + 1).len() == 1);
        assert(k == 0);
        assert(comps.subrange(0, 1)[0] == comps[0]);
        assert(comps[0] == t.nodes@[n].name@);
    } else {
        let pp = t.path_parts(p as int).unwrap();
        assert(t.path_parts(n) == Some(pp.push(t.nodes@[n].name@)));
        assert(comps.subrange(0, k) =~= comps.subrange(0, k + 1).drop_last());
        assert(pp =~= comps.subrange(0, k));
        assert(comps[k] == comps.subrange(0, k + 1)[k]);
        lemma_search_reaches(t, p as int, comps, k - 1);
    }
}

/// In a complete tree (see `complete_tree`) the node at a path is found by
/// the lookup of that path: with the law above, the lookup gives exactly
/// the node whose path it is.
pub proof fn law_node_at_path_is_found(t: FileTree, n: u32)
    requires
        complete_tree(t),
        t.has(n as int),
    ensures
        t.path_parts(n as int) matches Some(comps) && t.find_path(comps) == Some(n),
{
    lemma_path_parts_some(t, n as int);
    let comps = t.path_parts(n as int).unwrap();
    lemma_path_len(t, n as int);
    assert(comps.subrange(0, comps.len() as int) =~= comps);
    lemma_search_reaches(t, n as int, comps, comps.len() - 1);
}

/// A path has at least one name.
proof fn lemma_path_len(t: FileTree, i: int)
    requires
        t.wf(),
        t.has(i),
    ensures
        t.path_parts(i) matches Some(v) && v.len() >= 1,
    decreases i,
{
    let n = t.nodes@[i];
    if n.parent_idx != NO_NODE {
        lemma_path_len(t, n.parent_idx as int);
    }
}

/// Every row shown names a node of the tree.
pub proof fn law_visible_rows_are_nodes(t: FileTree)
    requires
        t.wf(),
    ensures
        forall|k: int|
            0 <= k < t.visible_rows_spec().len() ==> t.has(#[trigger] t.visible_rows_spec()[k] as int),
{
    if t.first_root != NO_NODE {
        lemma_rows_are_nodes(t, t.first_root as int);
    }
}

/// The rows from `c` are nodes at `c` or after.
proof fn lemma_rows_are_nodes(t: FileTree, c: int)
    requires
        t.wf(),
        0 <= c,
    ensures
        forall|k: int|
            0 <= k < t.rows_from(c).len() ==> t.has(#[trigger] t.rows_from(c)[k] as int) && c
                <= t.rows_from(c)[k],
    decreases t.nodes@.len() - c,
{
    if t.has(c) {
        let n = t.nodes@[c];
        let kids = t.child_rows(c);
        let rest = if c < n.next_sibling && t.has(n.next_sibling as int) {
            t.rows_from(n.next_sibling as int)
        } else {
            Seq::empty()
        };
        if n.kind == FileKind::Directory && n.is_expanded && c < n.first_child && t.has(
            n.first_child as int,
        ) {
            lemma_rows_are_nodes(t, n.first_child as int);
        }
        if c < n.next_sibling && t.has(n.next_sibling as int) {
            lemma_rows_are_nodes(t, n.next_sibling as int);
        }
        assert(t.rows_from(c) == seq![c as u32] + kids + rest);
        assert forall|k: int| 0 <= k < t.rows_from(c).len() implies t.has(
            #[trigger] t.rows_from(c)[k] as int,
        ) && c <= t.rows_from(c)[k] by {
            if k == 0 {
            } else if k < 1 + kids.len() {
                assert(t.rows_from(c)[k] == kids[k - 1]);
                assert(kids == t.rows_from(n.first_child as int));
                assert(t.has(t.rows_from(n.first_child as int)[k - 1] as int));
            } else {
                assert(t.rows_from(c)[k] == rest[k - 1 - kids.len()]);
                assert(rest == t.rows_from(n.next_sibling as int));
                assert(t.has(t.rows_from(n.next_sibling as int)[k - 1 - kids.len()] as int));
            }
        }
    }
}

/// The paths (by names) of the expanded directories among the first `k`
/// nodes, in index order.
pub open spec fn expanded_paths(t: FileTree, k: int) -> Seq<Seq<Seq<char>>>
    decreases k,
{
    if k <= 0 {
        Seq::empty()
    } else {
        let n = t.nodes@[k - 1];
        expanded_paths(t, k - 1) + (if n.kind == FileKind::Directory && n.is_expanded {
            match t.path_parts(k - 1) {
                Some(p) => seq![p],
                None => Seq::empty(),
            }
        } else {
            Seq::empty()
        })
    }
}

impl FileTree {
    /// The paths (by names below the workspace folder) of the expanded
    /// directories, in index order; they go into the workspace signature.
    pub fn expanded_dir_parts(&self) -> (r: Vec<Vec<String>>)
        requires
            self.wf(),
        ensures
            r@.map_values(|v: Vec<String>| v@.map_values(|s: String| s@)) == expanded_paths(
                *self,
                self.nodes@.len() as int,
            ),
    {
        let mut out: Vec<Vec<String>> = Vec::new();
        let mut i: usize = 0;
        while i < self.nodes.len()
            invariant
                self.wf(),
                i <= self.nodes@.len(),
                out@.map_values(|v: Vec<String>| v@.map_values(|s: String| s@)) == expanded_paths(
                    *self,
                    i as int,
                ),
            decreases self.nodes@.len() - i,
        {
            let node = &self.nodes[i];
            let ghost before = out@;
            if node.kind == FileKind::Directory && node.is_expanded {
                match self.node_path_parts(i as u32) {
                    Some(parts) => {
                        out.push(parts);
                        proof {
                            assert(out@.map_values(|v: Vec<String>| v@.map_values(|s: String| s@))
                                =~= before.map_values(
                                |v: Vec<String>| v@.map_values(|s: String| s@),
                            ).push(parts@.map_values(|s: String| s@)));
                        }
                    },
                    None => {},
                }
            }
            proof {
                assert(out@.map_values(|v: Vec<String>| v@.map_values(|s: String| s@))
                    =~= expanded_paths(*self, i + 1));
            }
            i = i + 1;
        }
        out
    }
}

/// Where a new file or folder goes: in the selected directory; beside the
/// selected file (in its parent); at the workspace root (`None`) when
/// nothing is selected, the selected node is missing or it is a top-level
/// file.
pub open spec fn spec_new_target_dir(tree: Option<FileTree>, selected: Option<u32>) -> Option<u32> {
    match (tree, selected) {
        (Some(t), Some(i)) => if !t.has(i as int) {
            None
        } else if t.nodes@[i as int].kind == FileKind::Directory {
            Some(i)
        } else if t.nodes@[i as int].parent_idx != NO_NODE {
            Some(t.nodes@[i as int].parent_idx)
        } else {
            None
        },
        _ => None,
    }
}

/// The directory node in which a new file or folder is created (see
/// `spec_new_target_dir`).
pub fn file_tree_new_target_dir(tree: &Option<FileTree>, selected: Option<u32>) -> (r: Option<u32>)
    ensures
        r == spec_new_target_dir(*tree, selected),
{
    let idx = match selected {
        Some(i) => i,
        None => {
            return None;
        },
    };
    let t = match tree {
        Some(t) => t,
        None => {
            return None;
        },
    };
    if (idx as usize) >= t.nodes.len() {
        return None;
    }
    let node = &t.nodes[idx as usize];
    if node.kind == FileKind::Directory {
        Some(idx)
    } else if node.parent_idx != NO_NODE {
        Some(node.parent_idx)
    } else {
        None
    }
}

/// Selects the node of the open file, when the tree has one at the file's
/// path below the workspace folder (`rel`, by components; see `find_path`):
/// a node that changes the selection has exactly that path, and in a
/// complete tree the node with that path is selected.  Otherwise the
/// selection stays.
pub fn sync_file_tree_selection(
    selected: &mut Option<u32>,
    tree: &Option<FileTree>,
    rel: &Option<Vec<String>>,
)
    requires
        tree matches Some(t) ==> t.wf(),
    ensures
        *final(selected) == (match (*tree, *rel) {
            (Some(t), Some(c)) => match t.find_path(c@.map_values(|s: String| s@)) {
                Some(m) => Some(m),
                None => *old(selected),
            },
            _ => *old(selected),
        }),
        *final(selected) != *old(selected) ==> (match (*tree, *final(selected), *rel) {
            (Some(t), Some(m), Some(c)) => t.path_parts(m as int) == Some(
                c@.map_values(|s: String| s@),
            ),
            _ => false,
        }),
        match (*tree, *rel) {
            (Some(t), Some(c)) => complete_tree(t) ==> forall|n: u32|
                t.has(n as int) && #[trigger] t.path_parts(n as int) == Some(
                    c@.map_values(|s: String| s@),
                ) ==> *final(selected) == Some(n),
            _ => true,
        },
{
    if let (Some(t), Some(c)) = (tree, rel) {
        proof {
            if complete_tree(*t) {
                assert forall|n: u32|
                    t.has(n as int) && #[trigger] t.path_parts(n as int) == Some(
                        c@.map_values(|s: String| s@),
                    ) implies t.find_path(c@.map_values(|s: String| s@)) == Some(n) by {
                    law_node_at_path_is_found(*t, n);
                }
            }
        }
        if let Some(m) = t.find_node_by_path(c) {
            *selected = Some(m);
        }
    }
}

/// The characters a file name cannot hold.
pub open spec fn invalid_name_char(c: char) -> bool {
    c == '/' || c == '\\' || c == ':' || c == '*' || c == '?' || c == '"' || c == '<' || c == '>'
        || c == '|'
}

/// The characters of `s` that a file name cannot hold, in order.
pub open spec fn invalid_chars_of(s: Seq<char>) -> Seq<char>
    decreases s.len(),
{
    if s.len() == 0 {
        Seq::empty()
    } else {
        invalid_chars_of(s.drop_last()) + (if invalid_name_char(s.last()) {
            seq![s.last()]
        } else {
            Seq::empty()
        })
    }
}

/// What becomes of the name typed into the tree's input row.
#[derive(Debug, PartialEq, Eq)]
pub enum NameCheck {
    /// Only white space: the input is dropped without a message.
    Cancel,
    /// A character a file name cannot hold: the message names them all,
    /// and the input stays for another try.
    Invalid(String),
    /// The trimmed name to create or rename to.
    Accept(String),
}

/// The outcome of a name typed as `value`: white space only cancels; a name
/// with characters that a file name cannot hold is refused with a message
/// that lists them; otherwise the trimmed name is taken.
pub open spec fn spec_check_new_name(value: Seq<char>) -> (Option<Seq<char>>, Seq<char>) {
    let t = trim_chars(value);
    if t.len() == 0 {
        (None, Seq::empty())
    } else if invalid_chars_of(t).len() > 0 {
        (None, "文件名不能包含: "@ + invalid_chars_of(t))
    } else {
        (Some(t), Seq::empty())
    }
}

/// The characters of `s` include none that a file name cannot hold exactly
/// when none are listed.
proof fn lemma_invalid_chars_empty(s: Seq<char>)
    ensures
        invalid_chars_of(s).len() == 0 <==> forall|i: int|
            0 <= i < s.len() ==> !invalid_name_char(#[trigger] s[i]),
    decreases s.len(),
{
    if s.len() > 0 {
        lemma_invalid_chars_empty(s.drop_last());
        if invalid_chars_of(s).len() == 0 {
            assert forall|i: int| 0 <= i < s.len() implies !invalid_name_char(#[trigger] s[i]) by {
                if i < s.len() - 1 {
                    assert(s[i] == s.drop_last()[i]);
                }
            }
        } else if forall|i: int| 0 <= i < s.len() ==> !invalid_name_char(#[trigger] s[i]) {
            assert forall|i: int| 0 <= i < s.drop_last().len() implies !invalid_name_char(
                #[trigger] s.drop_last()[i],
            ) by {
                assert(s.drop_last()[i] == s[i]);
            }
            assert(!invalid_name_char(s[s.len() - 1]));
        }
    }
}

/// A name the input row accepts is the typed text without its surrounding
/// white space, is not empty, and holds none of the characters that Windows
/// forbids in file names (`/ \ : * ? " < > |`); a typed name that holds one
/// of them is refused with a message.
pub proof fn law_accepted_names_are_clean(value: Seq<char>)
    ensures
        spec_check_new_name(value).0 matches Some(n) ==> {
            &&& n == trim_chars(value)
            &&& n.len() > 0
            &&& forall|i: int|
                0 <= i < n.len() ==> {
                    let c = #[trigger] n[i];
                    c != '/' && c != '\\' && c != ':' && c != '*' && c != '?' && c != '"' && c
                        != '<' && c != '>' && c != '|'
                }
        },
        ({
            let t = trim_chars(value);
            (exists|i: int|
                0 <= i < t.len() && {
                    let c = #[trigger] t[i];
                    c == '/' || c == '\\' || c == ':' || c == '*' || c == '?' || c == '"' || c
                        == '<' || c == '>' || c == '|'
                }) ==> spec_check_new_name(value).0 is None && spec_check_new_name(value).1.len()
                > 0
        }),
{
    let t = trim_chars(value);
    lemma_invalid_chars_empty(t);
    if exists|i: int|
        0 <= i < t.len() && {
            let c = #[trigger] t[i];
            c == '/' || c == '\\' || c == ':' || c == '*' || c == '?' || c == '"' || c == '<' || c
                == '>' || c == '|'
        } {
        let i = choose|i: int|
            0 <= i < t.len() && {
                let c = #[trigger] t[i];
                c == '/' || c == '\\' || c == ':' || c == '*' || c == '?' || c == '"' || c == '<'
                    || c == '>' || c == '|'
            };
        assert(invalid_name_char(t[i]));
        assert(t.len() > 0);
    }
}

/// Checks a name typed into the tree's input row (see
/// `spec_check_new_name`).
pub fn check_new_name(value: &str) -> (r: NameCheck)
    ensures
        match r {
            NameCheck::Cancel => trim_chars(value@).len() == 0,
            NameCheck::Invalid(m) => trim_chars(value@).len() > 0 && spec_check_new_name(value@)
                == (None::<Seq<char>>, m@),
            NameCheck::Accept(n) => spec_check_new_name(value@) == (Some(n@), Seq::<char>::empty())
                && forall|i: int|
                0 <= i < n@.len() ==> {
                    let c = #[trigger] n@[i];
                    c != '/' && c != '\\' && c != ':' && c != '*' && c != '?' && c != '"' && c
                        != '<' && c != '>' && c != '|'
                },
        },
{
    proof {
        law_accepted_names_are_clean(value@);
    }
    let t = trim_str(value);
    let len = t.unicode_len();
    if len == 0 {
        return NameCheck::Cancel;
    }
    let mut bad = String::new();
    let mut i: usize = 0;
    while i < len
        invariant
            i <= len == t@.len(),
            bad@ == invalid_chars_of(t@.take(i as int)),
        decreases len - i,
    {
        let c = t.get_char(i);
        proof {
            assert(t@.take(i + 1).drop_last() =~= t@.take(i as int));
        }
        if c == '/' || c == '\\' || c == ':' || c == '*' || c == '?' || c == '"' || c == '<' || c
            == '>' || c == '|' {
            let one = t.substring_char(i, i + 1);
            proof {
                assert(one@ =~= seq![c]);
            }
            bad.append(one);
        }
        i = i + 1;
    }
    proof {
        assert(t@.take(len as int) =~= t@);
    }
    if bad.as_str().unicode_len() > 0 {
        NameCheck::Invalid(String::from_str("文件名不能包含: ").concat(bad.as_str()))
    } else {
        NameCheck::Accept(String::from_str(t))
    }
}

/// What the tree's inline input row is for.
#[derive(Clone, Copy, Debug, PartialEq, Eq, Structural)]
pub enum FileTreeInputKind {
    NewFile,
    NewFolder,
    Rename,
}

/// The tree's inline input row: what it is for, the text typed so far and
/// the node it is about (the directory to create in, or the node to rename).
pub struct FileTreeInput {
    pub kind: FileTreeInputKind,
    pub value: String,
    pub caret_visible: bool,
    pub target_node: Option<u32>,
}

/// The explorer side bar: the tree, its selection, whether the workspace
/// root row is expanded, whether the visible rows must be collected again,
/// and the inline input row.
pub struct FileTreeState {
    pub tree: Option<FileTree>,
    pub selected: Option<u32>,
    pub root_expanded: bool,
    pub rows_dirty: bool,
    pub input: Option<FileTreeInput>,
}

/// The name shown in the input row when renaming: the selected node's name,
/// or nothing when no node is selected.
pub open spec fn rename_default(s: FileTreeState) -> Seq<char> {
    match (s.tree, s.selected) {
        (Some(t), Some(i)) => if t.has(i as int) {
            t.nodes@[i as int].name@
        } else {
            Seq::empty()
        },
        _ => Seq::empty(),
    }
}

/// The tree view `v` with node `p` (when there is one) marked expanded.
pub open spec fn expand_view(
    v: Option<(Seq<(FileKind, Seq<char>, u32, u32, u32, bool)>, u32)>,
    p: Option<u32>,
) -> Option<(Seq<(FileKind, Seq<char>, u32, u32, u32, bool)>, u32)> {
    match (v, p) {
        (Some((ns, r)), Some(i)) => if i < ns.len() {
            let x = ns[i as int];
            Some((ns.update(i as int, (x.0, x.1, x.2, x.3, x.4, true)), r))
        } else {
            v
        },
        _ => v,
    }
}

/// `n` is `o` after the inline input row of kind `kind` was opened with
/// `parent_node` as the directory to create in (see
/// `start_file_tree_input_in`).
pub open spec fn input_started(
    o: FileTreeState,
    n: FileTreeState,
    kind: FileTreeInputKind,
    parent_node: Option<u32>,
) -> bool {
    let target = if kind == FileTreeInputKind::Rename {
        o.selected
    } else {
        parent_node
    };
    &&& n.selected == o.selected
    &&& n.input matches Some(inp) && inp.kind == kind && inp.caret_visible && inp.target_node
        == target && inp.value@ == (if kind == FileTreeInputKind::Rename {
        rename_default(o)
    } else {
        Seq::empty()
    })
    &&& if kind == FileTreeInputKind::Rename {
        &&& n.tree == o.tree
        &&& n.root_expanded == o.root_expanded
        &&& n.rows_dirty == o.rows_dirty
    } else {
        &&& n.root_expanded
        &&& n.rows_dirty
        &&& tree_view(n.tree) == expand_view(tree_view(o.tree), target)
    }
}

/// Opens the inline input row of kind `kind`: for a new file or folder it
/// starts empty, is about `parent_node` (`None`: the workspace root), and the
/// root row and that directory are expanded so that the row shows; for a
/// rename it starts with the selected node's name and is about that node.
/// Without an open workspace folder nothing changes and `false` comes back,
/// for the caller to ask for a folder first.
pub fn start_file_tree_input_in(
    s: &mut FileTreeState,
    folder_open: bool,
    kind: FileTreeInputKind,
    parent_node: Option<u32>,
) -> (started: bool)
    ensures
        started == folder_open,
        !folder_open ==> *final(s) == *old(s),
        folder_open ==> input_started(*old(s), *final(s), kind, parent_node),
{
    let ghost o = *s;
    if !folder_open {
        return false;
    }
    let (value, target) = if kind == FileTreeInputKind::Rename {
        let mut name = String::new();
        if let (Some(t), Some(i)) = (&s.tree, s.selected) {
            if (i as usize) < t.nodes.len() {
                name = t.nodes[i as usize].name.clone();
            }
        }
        (name, s.selected)
    } else {
        (String::new(), parent_node)
    };
    if kind != FileTreeInputKind::Rename {
        s.root_expanded = true;
        if let Some(p) = target {
            if let Some(t) = &mut s.tree {
                if (p as usize) < t.nodes.len() {
                    let ghost before = t.nodes@;
                    let mut node = t.nodes.remove(p as usize);
                    node.is_expanded = true;
                    t.nodes.insert(p as usize, node);
                    proof {
                        assert(t.nodes@ =~= before.update(p as int, node));
                        assert(tree_view(Some(*t)).unwrap().0 =~= expand_view(
                            tree_view(o.tree),
                            target,
                        ).unwrap().0);
                    }
                }
            }
        }
        s.rows_dirty = true;
    }
    s.input = Some(
        FileTreeInput { kind, value, caret_visible: true, target_node: target },
    );
    true
}

/// Opens the inline input row of kind `kind` in the directory that
/// `file_tree_new_target_dir` picks for the current selection.
pub fn start_file_tree_input(s: &mut FileTreeState, folder_open: bool, kind: FileTreeInputKind) -> (started: bool)
    ensures
        started == folder_open,
        !folder_open ==> *final(s) == *old(s),
        folder_open ==> input_started(
            *old(s),
            *final(s),
            kind,
            spec_new_target_dir(old(s).tree, old(s).selected),
        ),
{
    let parent = file_tree_new_target_dir(&s.tree, s.selected);
    start_file_tree_input_in(s, folder_open, kind, parent)
}

/// The items of a tree node's context menu.
#[derive(Clone, Copy, Debug, PartialEq, Eq, Structural)]
pub enum FileNodeMenuItem {
    NewFileInside,
    NewFolderInside,
    Rename,
    Delete,
    RevealInExplorer,
    CopyPath,
    CopyRelativePath,
}

/// The items of the explorer's context menu on its empty area.
#[derive(Clone, Copy, Debug, PartialEq, Eq, Structural)]
pub enum ExplorerMenuItem {
    NewFile,
    NewFolder,
    Refresh,
    RevealInExplorer,
    CopyPath,
}

/// What the window does after a context-menu item was taken: nothing more
/// (an input row was opened), ask for a workspace folder first, or the disk
/// or clipboard work of the item, for a node or for the workspace folder.
#[derive(Clone, Copy, Debug, PartialEq, Eq, Structural)]
pub enum MenuFollowUp {
    Done,
    NeedFolder,
    DeleteNode(u32),
    RevealNode(u32),
    CopyNodePath(u32),
    CopyNodeRelativePath(u32),
    RefreshTree,
    RevealFolder,
    CopyFolderPath,
}

/// Takes the item `item` of the context menu of node `node_idx`: the new
/// items select the node and open an input row inside it, renaming selects
/// it and opens a rename row; the other items are left to the window for
/// that node.  Without a workspace folder no input row opens (the node is
/// still selected) and the window asks for a folder.
pub fn execute_file_node_context_action(
    s: &mut FileTreeState,
    folder_open: bool,
    item: FileNodeMenuItem,
    node_idx: u32,
) -> (r: MenuFollowUp)
    ensures
        match item {
            FileNodeMenuItem::NewFileInside | FileNodeMenuItem::NewFolderInside
            | FileNodeMenuItem::Rename => {
                let selected = FileTreeState { selected: Some(node_idx), ..*old(s) };
                let kind = match item {
                    FileNodeMenuItem::NewFileInside => FileTreeInputKind::NewFile,
                    FileNodeMenuItem::NewFolderInside => FileTreeInputKind::NewFolder,
                    _ => FileTreeInputKind::Rename,
                };
                &&& r == (if folder_open {
                    MenuFollowUp::Done
                } else {
                    MenuFollowUp::NeedFolder
                })
                &&& !folder_open ==> *final(s) == selected
                &&& folder_open ==> input_started(selected, *final(s), kind, Some(node_idx))
            },
            FileNodeMenuItem::Delete => r == MenuFollowUp::DeleteNode(node_idx) && *final(s)
                == *old(s),
            FileNodeMenuItem::RevealInExplorer => r == MenuFollowUp::RevealNode(node_idx)
                && *final(s) == *old(s),
            FileNodeMenuItem::CopyPath => r == MenuFollowUp::CopyNodePath(node_idx) && *final(s)
                == *old(s),
            FileNodeMenuItem::CopyRelativePath => r == MenuFollowUp::CopyNodeRelativePath(node_idx)
                && *final(s) == *old(s),
        },
{
    let kind = match item {
        FileNodeMenuItem::NewFileInside => FileTreeInputKind::NewFile,
        FileNodeMenuItem::NewFolderInside => FileTreeInputKind::NewFolder,
        FileNodeMenuItem::Rename => FileTreeInputKind::Rename,
        FileNodeMenuItem::Delete => {
            return MenuFollowUp::DeleteNode(node_idx);
        },
        FileNodeMenuItem::RevealInExplorer => {
            return MenuFollowUp::RevealNode(node_idx);
        },
        FileNodeMenuItem::CopyPath => {
            return MenuFollowUp::CopyNodePath(node_idx);
        },
        FileNodeMenuItem::CopyRelativePath => {
            return MenuFollowUp::CopyNodeRelativePath(node_idx);
        },
    };
    s.selected = Some(node_idx);
    if start_file_tree_input_in(s, folder_open, kind, Some(node_idx)) {
        MenuFollowUp::Done
    } else {
        MenuFollowUp::NeedFolder
    }
}

/// Takes the item `item` of the explorer's context menu on its empty area:
/// the new items open an input row where `start_file_tree_input` puts it;
/// the other items are left to the window.
pub fn execute_explorer_context_action(
    s: &mut FileTreeState,
    folder_open: bool,
    item: ExplorerMenuItem,
) -> (r: MenuFollowUp)
    ensures
        match item {
            ExplorerMenuItem::NewFile | ExplorerMenuItem::NewFolder => {
                let kind = if item == ExplorerMenuItem::NewFile {
                    FileTreeInputKind::NewFile
                } else {
                    FileTreeInputKind::NewFolder
                };
                &&& r == (if folder_open {
                    MenuFollowUp::Done
                } else {
                    MenuFollowUp::NeedFolder
                })
                &&& !folder_open ==> *final(s) == *old(s)
                &&& folder_open ==> input_started(
                    *old(s),
                    *final(s),
                    kind,
                    spec_new_target_dir(old(s).tree, old(s).selected),
                )
            },
            ExplorerMenuItem::Refresh => r == MenuFollowUp::RefreshTree && *final(s) == *old(s),
            ExplorerMenuItem::RevealInExplorer => r == MenuFollowUp::RevealFolder && *final(s)
                == *old(s),
            ExplorerMenuItem::CopyPath => r == MenuFollowUp::CopyFolderPath && *final(s) == *old(s),
        },
{
    let kind = match item {
        ExplorerMenuItem::NewFile => FileTreeInputKind::NewFile,
        ExplorerMenuItem::NewFolder => FileTreeInputKind::NewFolder,
        ExplorerMenuItem::Refresh => {
            return MenuFollowUp::RefreshTree;
        },
        ExplorerMenuItem::RevealInExplorer => {
            return MenuFollowUp::RevealFolder;
        },
        ExplorerMenuItem::CopyPath => {
            return MenuFollowUp::CopyFolderPath;
        },
    };
    if start_file_tree_input(s, folder_open, kind) {
        MenuFollowUp::Done
    } else {
        MenuFollowUp::NeedFolder
    }
}

/// A tree as plain values: its nodes' kinds, names, links and expansion,
/// and its first top-level node.
pub open spec fn tree_view(t: Option<FileTree>) -> Option<
    (Seq<(FileKind, Seq<char>, u32, u32, u32, bool)>, u32),
> {
    match t {
        Some(t) => Some(
            (
                t.nodes@.map_values(
                    |n: FileNode|
                        (n.kind, n.name@, n.parent_idx, n.first_child, n.next_sibling, n.is_expanded),
                ),
                t.first_root,
            ),
        ),
        None => None,
    }
}

/// Closes the inline input row without acting on it; `true` when one was
/// open (the side bar then needs redrawing).
pub fn cancel_file_tree_input(s: &mut FileTreeState) -> (was_open: bool)
    ensures
        was_open == old(s).input.is_some(),
        *final(s) == (FileTreeState { input: None, ..*old(s) }),
{
    s.input.take().is_some()
}

} // verus!
