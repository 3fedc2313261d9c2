//! The story graph and its two-pass builder.
//!
//! A graph holds one node per block, in block order, with edges kept as
//! indices into the node table. The builder first rejects duplicate ids, then
//! resolves every choice's target id to a node index (a miss is a dangling
//! reference), and finally locates the entry node, the one whose id is
//! `START`. Nothing mutates a graph after a successful build.

use vstd::prelude::*;

use crate::errors::BuildError;
use crate::parser::{blocks_view, BlockModel, RawBlock};

verus! {

/// One outgoing edge of a node: the index of the node it leads to, the
/// command word that takes it, and a human-readable label.
pub struct Edge {
    pub target: usize,
    pub command: String,
    pub label: String,
}

/// The mathematical value of an [`Edge`].
pub ghost struct EdgeModel {
    pub target: int,
    pub command: Seq<char>,
    pub label: Seq<char>,
}

impl View for Edge {
    type V = EdgeModel;

    open spec fn view(&self) -> EdgeModel {
        EdgeModel { target: self.target as int, command: self.command@, label: self.label@ }
    }
}

/// One node of a story graph: its id, its display content, and its outgoing
/// edges in declaration order.
pub struct StoryNode {
    pub id: String,
    pub content: String,
    pub edges: Vec<Edge>,
}

/// The mathematical value of a [`StoryNode`].
pub ghost struct NodeModel {
    pub id: Seq<char>,
    pub content: Seq<char>,
    pub edges: Seq<EdgeModel>,
}

impl View for StoryNode {
    type V = NodeModel;

    open spec fn view(&self) -> NodeModel {
        NodeModel {
            id: self.id@,
            content: self.content@,
            edges: self.edges@.map_values(|e: Edge| e@),
        }
    }
}

/// The values of a sequence of story nodes.
pub open spec fn nodes_view(ns: Seq<StoryNode>) -> Seq<NodeModel> {
    ns.map_values(|n: StoryNode| n@)
}

/// The id of the entry node.
pub open spec fn start_id() -> Seq<char> {
    "START"@
}

/// The mathematical value of a [`StoryGraph`].
pub ghost struct GraphModel {
    pub nodes: Seq<NodeModel>,
    pub entry: int,
}

impl GraphModel {
    /// Well-formedness: the entry index is in range and names the node whose
    /// id is `START`, ids are unique, and every edge's target is in range.
    pub open spec fn wf(self) -> bool {
        &&& 0 <= self.entry < self.nodes.len()
        &&& self.nodes[self.entry].id == start_id()
        &&& forall|p: int, q: int|
            0 <= p < q < self.nodes.len() ==> self.nodes[p].id != self.nodes[q].id
        &&& forall|i: int, j: int|
            0 <= i < self.nodes.len() && 0 <= j < self.nodes[i].edges.len() ==> 0 <= #[trigger] self.nodes[i].edges[j].target
                < self.nodes.len()
    }
}

/// A resolved, immutable story graph: a node table and the index of the
/// entry node. Only [`build`] constructs one.
pub struct StoryGraph {
    nodes: Vec<StoryNode>,
    entry: usize,
}

impl View for StoryGraph {
    type V = GraphModel;

    closed spec fn view(&self) -> GraphModel {
        GraphModel { nodes: nodes_view(self.nodes@), entry: self.entry as int }
    }
}

/// Two blocks of `bs` declare the same id.
pub open spec fn has_duplicate_id(bs: Seq<BlockModel>) -> bool {
    exists|p: int, q: int| 0 <= p < q < bs.len() && bs[p].id == bs[q].id
}

/// `id` is declared by both of two distinct blocks of `bs`.
pub open spec fn duplicated_id(bs: Seq<BlockModel>, id: Seq<char>) -> bool {
    exists|p: int, q: int| 0 <= p < q < bs.len() && bs[p].id == id && bs[q].id == id
}

/// Some block of `bs` declares `id`.
pub open spec fn id_declared(bs: Seq<BlockModel>, id: Seq<char>) -> bool {
    exists|k: int| 0 <= k < bs.len() && bs[k].id == id
}

/// Some choice of `bs` names a target id that no block declares.
pub open spec fn has_dangling(bs: Seq<BlockModel>) -> bool {
    exists|i: int, j: int|
        0 <= i < bs.len() && 0 <= j < bs[i].children.len() && !id_declared(
            bs,
            bs[i].children[j].target_id,
        )
}

/// `t` is named as a target by some choice of `bs` and declared by no block.
pub open spec fn dangling_target(bs: Seq<BlockModel>, t: Seq<char>) -> bool {
    &&& exists|i: int, j: int|
        0 <= i < bs.len() && 0 <= j < bs[i].children.len() && bs[i].children[j].target_id == t
    &&& !id_declared(bs, t)
}

/// Some block of `bs` declares the entry id.
pub open spec fn has_entry(bs: Seq<BlockModel>) -> bool {
    id_declared(bs, start_id())
}

/// How building a sequence of blocks must end, checked in this order:
/// duplicate ids first, then unresolved targets, then a missing entry node.
pub ghost enum BuildOutcome {
    DuplicateId,
    DanglingReference,
    NoEntryPoint,
    Valid,
}

/// The outcome [`build`] owes to `bs`.
pub open spec fn build_outcome(bs: Seq<BlockModel>) -> BuildOutcome {
    if has_duplicate_id(bs) {
        BuildOutcome::DuplicateId
    } else if has_dangling(bs) {
        BuildOutcome::DanglingReference
    } else if !has_entry(bs) {
        BuildOutcome::NoEntryPoint
    } else {
        BuildOutcome::Valid
    }
}

/// Node `n` mirrors block `b`, with every edge's target resolved within
/// `nodes` to a node declaring the choice's target id.
pub open spec fn node_matches(nodes: Seq<NodeModel>, n: NodeModel, b: BlockModel) -> bool {
    &&& n.id == b.id
    &&& n.content == b.content
    &&& n.edges.len() == b.children.len()
    &&& forall|j: int|
        0 <= j < b.children.len() ==> {
            &&& (#[trigger] n.edges[j]).command == b.children[j].command
            &&& n.edges[j].label == b.children[j].label
            &&& 0 <= n.edges[j].target < nodes.len()
            &&& nodes[n.edges[j].target].id == b.children[j].target_id
        }
}

/// The graph `g` is exactly the resolution of the blocks `bs`: one node per
/// block in order, contents copied, and one edge per choice in order.
pub open spec fn graph_matches(g: GraphModel, bs: Seq<BlockModel>) -> bool {
    &&& g.nodes.len() == bs.len()
    &&& forall|i: int| 0 <= i < bs.len() ==> node_matches(g.nodes, #[trigger] g.nodes[i], bs[i])
}

/// First block of `blocks` whose id equals `id`, if any.
fn find_block(blocks: &Vec<RawBlock>, id: &String) -> (r: Option<usize>)
    ensures
        match r {
            Some(k) => k < blocks@.len() && blocks_view(blocks@)[k as int].id == id@,
            None => !id_declared(blocks_view(blocks@), id@),
        },
{
    let ghost bs = blocks_view(blocks@);
    let mut k: usize = 0;
    while k < blocks.len()
        invariant
            k <= blocks.len(),
            bs == blocks_view(blocks@),
            forall|t: int| 0 <= t < k ==> bs[t].id != id@,
        decreases blocks.len() - k,
    {
        if blocks[k].id.eq(id) {
            return Some(k);
        }
        k = k + 1;
    }
    None
}

/// Resolves parsed blocks into a story graph, or reports the first
/// structural fault: a duplicate id, then a dangling target reference, then
/// a missing entry block. On success the graph mirrors the blocks exactly.
pub fn build(blocks: &Vec<RawBlock>) -> (r: Result<StoryGraph, BuildError>)
    ensures
        match r {
            Ok(g) => {
                &&& build_outcome(blocks_view(blocks@)) == BuildOutcome::Valid
                &&& g@.wf()
                &&& graph_matches(g@, blocks_view(blocks@))
            },
            Err(e) => match e {
                BuildError::DuplicateId(id) => {
                    &&& build_outcome(blocks_view(blocks@)) == BuildOutcome::DuplicateId
                    &&& duplicated_id(blocks_view(blocks@), id@)
                },
                BuildError::DanglingReference(t) => {
                    &&& build_outcome(blocks_view(blocks@)) == BuildOutcome::DanglingReference
                    &&& dangling_target(blocks_view(blocks@), t@)
                },
                BuildError::NoEntryPoint => build_outcome(blocks_view(blocks@))
                    == BuildOutcome::NoEntryPoint,
            },
        },
{
    let ghost bs = blocks_view(blocks@);
    // Materialize pass: reject duplicate ids.
    let mut i: usize = 0;
    while i < blocks.len()
        invariant
            i <= blocks.len(),
            bs == blocks_view(blocks@),
            forall|p: int, q: int| 0 <= p < q < i ==> bs[p].id != bs[q].id,
        decreases blocks.len() - i,
    {
        let mut k: usize = 0;
        while k < i
            invariant
                k <= i,
                i < blocks.len(),
                bs == blocks_view(blocks@),
                forall|t: int| 0 <= t < k ==> bs[t].id != bs[i as int].id,
            decreases i - k,
        {
            if blocks[k].id.eq(&blocks[i].id) {
                proof {
                    assert(bs[k as int].id == bs[i as int].id);
                    assert(duplicated_id(bs, blocks@[i as int].id@));
                }
                return Err(BuildError::DuplicateId(blocks[i].id.clone()));
            }
            k = k + 1;
        }
        i = i + 1;
    }
    // Link pass: one node per block, every choice resolved to an index.
    let mut nodes: Vec<StoryNode> = Vec::new();
    let mut i: usize = 0;
    while i < blocks.len()
        invariant
            i <= blocks.len(),
            bs == blocks_view(blocks@),
            forall|p: int, q: int| 0 <= p < q < bs.len() ==> bs[p].id != bs[q].id,
            nodes@.len() == i,
            forall|p: int|
                0 <= p < i ==> node_matches(bs_as_nodes(bs), nodes_view(nodes@)[p], bs[p]),
        decreases blocks.len() - i,
    {
        let mut edges: Vec<Edge> = Vec::new();
        let mut j: usize = 0;
        while j < blocks[i].children.len()
            invariant
                i < blocks.len(),
                j <= blocks@[i as int].children@.len(),
                bs == blocks_view(blocks@),
                forall|p: int, q: int| 0 <= p < q < bs.len() ==> bs[p].id != bs[q].id,
                edges@.len() == j,
                forall|t: int|
                    0 <= t < j ==> {
                        &&& (#[trigger] edges@[t])@.command == bs[i as int].children[t].command
                        &&& edges@[t]@.label == bs[i as int].children[t].label
                        &&& 0 <= edges@[t]@.target < bs.len()
                        &&& bs[edges@[t]@.target].id == bs[i as int].children[t].target_id
                    },
            decreases blocks@[i as int].children@.len() - j,
        {
            let target_id = &blocks[i].children[j].target_id;
            match find_block(blocks, target_id) {
                Some(t) => {
                    let ghost old_edges = edges@;
                    edges.push(
                        Edge {
                            target: t,
                            command: blocks[i].children[j].command.clone(),
                            label: blocks[i].children[j].label.clone(),
                        },
                    );
                    proof {
                        assert(edges@.map_values(|e: Edge| e@) =~= old_edges.map_values(
                            |e: Edge| e@,
                        ).push(edges@[edges@.len() - 1]@));
                        assert(bs[i as int].children[j as int] == blocks@[i as int]@.children[
                            j as int
                        ]);
                    }
                },
                None => {
                    proof {
                        assert(bs[i as int].children[j as int].target_id == target_id@);
                        assert(dangling_target(bs, target_id@));
                        assert(has_dangling(bs));
                    }
                    return Err(BuildError::DanglingReference(target_id.clone()));
                },
            }
            j = j + 1;
        }
        let ghost old_nodes = nodes@;
        nodes.push(
            StoryNode {
                id: blocks[i].id.clone(),
                content: blocks[i].content.clone(),
                edges: edges,
            },
        );
        proof {
            assert(nodes_view(nodes@) =~= nodes_view(old_nodes).push(nodes@[nodes@.len() - 1]@));
            assert(node_matches(
                bs_as_nodes(bs),
                nodes_view(nodes@)[i as int],
                bs[i as int],
            ));
        }
        i = i + 1;
    }
    // Entry resolution: the last node whose id is the entry id.
    let start = String::new().concat("START");
    let mut entry_opt: Option<usize> = None;
    let mut k: usize = 0;
    while k < nodes.len()
        invariant
            k <= nodes.len(),
            nodes@.len() == bs.len(),
            forall|p: int| 0 <= p < bs.len() ==> nodes_view(nodes@)[p].id == bs[p].id,
            start@ == start_id(),
            match entry_opt {
                Some(e) => e < k && nodes_view(nodes@)[e as int].id == start_id(),
                None => forall|t: int| 0 <= t < k ==> nodes_view(nodes@)[t].id != start_id(),
            },
        decreases nodes.len() - k,
    {
        if nodes[k].id.eq(&start) {
            entry_opt = Some(k);
        }
        k = k + 1;
    }
    match entry_opt {
        Some(e) => {
            let g = StoryGraph { nodes: nodes, entry: e };
            proof {
                assert forall|ii: int, jj: int|
                    0 <= ii < bs.len() && 0 <= jj < bs[ii].children.len() implies id_declared(
                    bs,
                    bs[ii].children[jj].target_id,
                ) by {
                    let t = g@.nodes[ii].edges[jj].target;
                    assert(bs[t].id == bs[ii].children[jj].target_id);
                }
                assert(graph_matches(g@, bs));
                assert(g@.wf());
            }
            Ok(g)
        },
        None => {
            proof {
                assert(!has_entry(bs));
                assert forall|ii: int, jj: int|
                    0 <= ii < bs.len() && 0 <= jj < bs[ii].children.len() implies id_declared(
                    bs,
                    bs[ii].children[jj].target_id,
                ) by {
                    let t = nodes_view(nodes@)[ii].edges[jj].target;
                    assert(bs[t].id == bs[ii].children[jj].target_id);
                }
            }
            Err(BuildError::NoEntryPoint)
        },
    }
}

/// Uniqueness: any block sequence in which some id is declared twice builds
/// to `DuplicateId`, whatever else it holds.
pub proof fn lemma_uniqueness(bs: Seq<BlockModel>)
    requires
        has_duplicate_id(bs),
    ensures
        build_outcome(bs) == BuildOutcome::DuplicateId,
{
}

/// Resolution, for block sequences with unique ids: when every choice's
/// target id is declared and an entry block exists, the build succeeds; when
/// some target id is undeclared, it fails with `DanglingReference`.
pub proof fn lemma_resolution(bs: Seq<BlockModel>)
    requires
        !has_duplicate_id(bs),
    ensures
        !has_dangling(bs) && has_entry(bs) ==> build_outcome(bs) == BuildOutcome::Valid,
        has_dangling(bs) ==> build_outcome(bs) == BuildOutcome::DanglingReference,
{
}

/// Entry requirement, for block sequences with unique, resolved ids: without
/// a block declaring the entry id the build fails with `NoEntryPoint`; with
/// one it succeeds, and `build`'s contract then puts the entry node at that
/// id.
pub proof fn lemma_entry_requirement(bs: Seq<BlockModel>)
    requires
        !has_duplicate_id(bs),
        !has_dangling(bs),
    ensures
        !has_entry(bs) ==> build_outcome(bs) == BuildOutcome::NoEntryPoint,
        has_entry(bs) ==> build_outcome(bs) == BuildOutcome::Valid,
{
}

/// The ids of `bs` read as a node table, for stating target resolution
/// before the real nodes exist.
spec fn bs_as_nodes(bs: Seq<BlockModel>) -> Seq<NodeModel> {
    bs.map_values(|b: BlockModel| NodeModel { id: b.id, content: b.content, edges: Seq::empty() })
}

/// The line presenting one choice: its command word in brackets, then its
/// label.
pub open spec fn edge_text(e: EdgeModel) -> Seq<char> {
    "\n["@ + e.command + "] "@ + e.label
}

/// The lines presenting the first `n` choices of `es`, in declaration order.
pub open spec fn edges_text(es: Seq<EdgeModel>, n: int) -> Seq<char>
    decreases n,
{
    if n <= 0 {
        Seq::empty()
    } else {
        edges_text(es, n - 1) + edge_text(es[n - 1])
    }
}

/// The text shown to a user positioned at node `i` of `g`: the node's
/// content followed by one line per outgoing choice.
pub open spec fn present_text(g: GraphModel, i: int) -> Seq<char> {
    g.nodes[i].content + edges_text(g.nodes[i].edges, g.nodes[i].edges.len() as int)
}

impl StoryGraph {
    /// How many nodes the graph holds.
    pub fn node_count(&self) -> (r: usize)
        ensures
            r == self@.nodes.len(),
    {
        self.nodes.len()
    }

    /// The index of the entry node.
    pub fn entry(&self) -> (r: usize)
        ensures
            r == self@.entry,
    {
        self.entry
    }

    /// The id of node `node`.
    pub fn node_id(&self, node: usize) -> (r: &String)
        requires
            node < self@.nodes.len(),
        ensures
            r@ == self@.nodes[node as int].id,
    {
        &self.nodes[node].id
    }

    /// How many outgoing edges node `node` has.
    pub fn edge_count(&self, node: usize) -> (r: usize)
        requires
            node < self@.nodes.len(),
        ensures
            r == self@.nodes[node as int].edges.len(),
    {
        self.nodes[node].edges.len()
    }

    /// The command word of edge `j` of node `node`.
    pub fn edge_command(&self, node: usize, j: usize) -> (r: &String)
        requires
            node < self@.nodes.len(),
            j < self@.nodes[node as int].edges.len(),
        ensures
            r@ == self@.nodes[node as int].edges[j as int].command,
    {
        &self.nodes[node].edges[j].command
    }

    /// The target node index of edge `j` of node `node`.
    pub fn edge_target(&self, node: usize, j: usize) -> (r: usize)
        requires
            node < self@.nodes.len(),
            j < self@.nodes[node as int].edges.len(),
        ensures
            r == self@.nodes[node as int].edges[j as int].target,
    {
        self.nodes[node].edges[j].target
    }

    /// Renders the text shown to a user positioned at node `node`: the
    /// node's content, then one line per choice. A pure read; the graph is
    /// never mutated.
    pub fn present(&self, node: usize) -> (r: String)
        requires
            node < self@.nodes.len(),
        ensures
            r@ == present_text(self@, node as int),
    {
        let ghost em = self@.nodes[node as int].edges;
        let n = &self.nodes[node];
        let mut out = n.content.clone();
        let mut j: usize = 0;
        while j < n.edges.len()
            invariant
                j <= n.edges.len(),
                em == n@.edges,
                n.edges@.len() == em.len(),
                out@ == n@.content + edges_text(em, j as int),
            decreases n.edges.len() - j,
        {
            out.append("\n[");
            out.append(n.edges[j].command.as_str());
            out.append("] ");
            out.append(n.edges[j].label.as_str());
            proof {
                assert(em[j as int] == n.edges@[j as int]@);
                assert(out@ =~= n@.content + edges_text(em, j as int + 1));
            }
            j = j + 1;
        }
        out
    }

    /// An exact copy of the graph. Sessions anchor to their own copy, so a
    /// story later replaced in the registry keeps serving sessions already
    /// anchored to it.
    pub fn duplicate(&self) -> (r: StoryGraph)
        ensures
            r@ == self@,
    {
        let mut nodes: Vec<StoryNode> = Vec::new();
        let mut i: usize = 0;
        while i < self.nodes.len()
            invariant
                i <= self.nodes.len(),
                nodes@.len() == i,
                forall|p: int| 0 <= p < i ==> nodes@[p]@ == #[trigger] self.nodes@[p]@,
            decreases self.nodes.len() - i,
        {
            let n = &self.nodes[i];
            let mut edges: Vec<Edge> = Vec::new();
            let mut j: usize = 0;
            while j < n.edges.len()
                invariant
                    j <= n.edges.len(),
                    edges@.len() == j,
                    forall|t: int| 0 <= t < j ==> edges@[t]@ == #[trigger] n.edges@[t]@,
                decreases n.edges.len() - j,
            {
                edges.push(
                    Edge {
                        target: n.edges[j].target,
                        command: n.edges[j].command.clone(),
                        label: n.edges[j].label.clone(),
                    },
                );
                j = j + 1;
            }
            nodes.push(StoryNode { id: n.id.clone(), content: n.content.clone(), edges: edges });
            proof {
                assert(nodes@[i as int]@.edges =~= self.nodes@[i as int]@.edges);
                assert(nodes@[i as int]@ == self.nodes@[i as int]@);
            }
            i = i + 1;
        }
        let r = StoryGraph { nodes: nodes, entry: self.entry };
        proof {
            assert(nodes_view(r.nodes@) =~= nodes_view(self.nodes@));
        }
        r
    }
}

} // verus!
