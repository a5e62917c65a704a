//! Identifiers and fine-grid adjacency of the mixed search graph.
//!
//! Four node kinds share one identifier space: fine grid cells, PRM
//! waypoints, connector endpoints and coarse blocks. A node identifier packs
//! the kind into its top three bits and the index inside the kind below.

use vstd::prelude::*;
use crate::field::{chebyshev, GridShape, HardMask};
use std::collections::HashMap;

verus! {

/// Kind of a graph node.
#[derive(Debug, Clone, Copy, PartialEq, Eq, Structural)]
pub enum NodeKind {
    /// Fine grid cell of a structured area.
    Grid,
    /// PRM waypoint in an open area.
    Prm,
    /// Endpoint of a Z-axis connector.
    Connector,
    /// Uniform block of an open area, taken from the map's quadtree skeleton.
    Coarse,
}

impl NodeKind {
    /// Tag stored in the top bits of a node identifier.
    pub open spec fn tag(self) -> u32 {
        match self {
            NodeKind::Grid => 0,
            NodeKind::Prm => 1,
            NodeKind::Connector => 2,
            NodeKind::Coarse => 3,
        }
    }
}

/// Kind encoded by the top bits of an identifier; unknown tags read as grid.
pub open spec fn kind_of_tag(tag: u32) -> NodeKind {
    if tag == 1 {
        NodeKind::Prm
    } else if tag == 2 {
        NodeKind::Connector
    } else if tag == 3 {
        NodeKind::Coarse
    } else {
        NodeKind::Grid
    }
}

/// Bits of an identifier of the given kind and index.
pub open spec fn pack_node(kind: NodeKind, index: u32) -> u32 {
    (kind.tag() << 29u32) | (index & 0x1FFF_FFFFu32)
}

/// Node identifier: kind in the top three bits, index below.
#[derive(Debug, Clone, Copy, PartialEq, Eq, Structural, Hash, PartialOrd, Ord)]
pub struct NodeId(pub u32);

impl NodeId {
    /// Bits reserved for the node kind start here.
    pub const KIND_SHIFT: u32 = 29;

    /// Mask of the index part.
    pub const INDEX_MASK: u32 = 0x1FFF_FFFF;

    /// Kind of this node.
    pub open spec fn kind_spec(self) -> NodeKind {
        kind_of_tag(self.0 >> 29u32)
    }

    /// Index inside the node kind.
    pub open spec fn index_spec(self) -> u32 {
        self.0 & 0x1FFF_FFFFu32
    }

    /// Grid node of a cell index.
    pub fn grid(cell: u32) -> (r: Self)
        ensures
            r.0 == pack_node(NodeKind::Grid, cell),
    {
        assert(((0u32 << 29u32) | (cell & 0x1FFF_FFFFu32)) == cell & 0x1FFF_FFFFu32) by (bit_vector);
        NodeId(cell & Self::INDEX_MASK)
    }

    /// PRM node of a waypoint index.
    pub fn prm(index: u32) -> (r: Self)
        ensures
            r.0 == pack_node(NodeKind::Prm, index),
    {
        NodeId((1u32 << Self::KIND_SHIFT) | (index & Self::INDEX_MASK))
    }

    /// Connector endpoint node.
    pub fn connector(index: u32) -> (r: Self)
        ensures
            r.0 == pack_node(NodeKind::Connector, index),
    {
        NodeId((2u32 << Self::KIND_SHIFT) | (index & Self::INDEX_MASK))
    }

    /// Coarse block node.
    pub fn coarse(index: u32) -> (r: Self)
        ensures
            r.0 == pack_node(NodeKind::Coarse, index),
    {
        NodeId((3u32 << Self::KIND_SHIFT) | (index & Self::INDEX_MASK))
    }

    /// Kind of this node.
    pub fn kind(self) -> (r: NodeKind)
        ensures
            r == self.kind_spec(),
    {
        match self.0 >> Self::KIND_SHIFT {
            1 => NodeKind::Prm,
            2 => NodeKind::Connector,
            3 => NodeKind::Coarse,
            _ => NodeKind::Grid,
        }
    }

    /// Index inside the node kind.
    pub fn index(self) -> (r: u32)
        ensures
            r == self.index_spec(),
    {
        self.0 & Self::INDEX_MASK
    }

    /// True for fine grid nodes.
    pub fn is_grid(self) -> (r: bool)
        ensures
            r == (self.kind_spec() == NodeKind::Grid),
    {
        match self.kind() {
            NodeKind::Grid => true,
            _ => false,
        }
    }
}

proof fn lemma_pack_bits(tag: u32, index: u32)
    by (bit_vector)
    requires
        tag < 4,
    ensures
        ((tag << 29u32) | (index & 0x1FFF_FFFFu32)) >> 29u32 == tag,
        ((tag << 29u32) | (index & 0x1FFF_FFFFu32)) & 0x1FFF_FFFFu32 == index & 0x1FFF_FFFFu32,
{
}

/// Law: an identifier built for a kind and an index reads back that kind,
/// and the index reduced to the 29 bits the identifier keeps.
pub proof fn lemma_node_id_roundtrip(kind: NodeKind, index: u32)
    ensures
        NodeId(pack_node(kind, index)).kind_spec() == kind,
        NodeId(pack_node(kind, index)).index_spec() == index & 0x1FFF_FFFFu32,
        index <= 0x1FFF_FFFFu32 ==> NodeId(pack_node(kind, index)).index_spec() == index,
{
    lemma_pack_bits(kind.tag(), index);
    assert(index <= 0x1FFF_FFFFu32 ==> index & 0x1FFF_FFFFu32 == index) by (bit_vector);
}

/// Law: two identifiers of in-range indices are equal exactly when their
/// kinds and indices are, so the kinds never share an identifier.
pub proof fn lemma_node_id_distinct(k1: NodeKind, i1: u32, k2: NodeKind, i2: u32)
    requires
        i1 <= 0x1FFF_FFFFu32,
        i2 <= 0x1FFF_FFFFu32,
    ensures
        (pack_node(k1, i1) == pack_node(k2, i2)) <==> (k1 == k2 && i1 == i2),
{
    lemma_node_id_roundtrip(k1, i1);
    lemma_node_id_roundtrip(k2, i2);
}

/// Connector entry and side a connector node index refers to: entry
/// `index / 2`, endpoint A for even indices, endpoint B for odd ones.
pub fn connector_slot(index: u32) -> (r: (usize, bool))
    ensures
        r.0 == index / 2,
        r.1 == (index % 2 == 0),
{
    ((index / 2) as usize, index % 2 == 0)
}

/// The other endpoint of the same connector: the link from endpoint A leads
/// to the next index, the link from endpoint B to the previous one.
pub fn connector_partner(index: u32) -> (r: u32)
    ensures
        r == if index % 2 == 0 { index + 1 } else { index - 1 },
{
    if index % 2 == 0 {
        index + 1
    } else {
        index - 1
    }
}

/// Law: the partner of a connector endpoint belongs to the same connector, on
/// the opposite side, and its own partner is the endpoint itself.
pub proof fn lemma_connector_partner_involution(index: u32)
    ensures
        ({
            let p = if index % 2 == 0 { index + 1 } else { index - 1 };
            &&& p / 2 == index / 2
            &&& (p % 2 == 0) != (index % 2 == 0)
            &&& (if p % 2 == 0 { p + 1 } else { p - 1 }) == index
        }),
{
}

/// How an edge is traversed.
#[derive(Debug, Clone, Copy, PartialEq, Eq, Structural)]
pub enum EdgeKind {
    /// Ordinary movement over the plane.
    Plane,
    /// A Z-axis link: fixed equivalent speed and cost.
    Connector,
}


/// The eight neighbour offsets of a fine cell, in the order they are tried:
/// the four edge neighbours, then the four diagonals.
pub open spec fn step_offset(k: int) -> (int, int) {
    if k == 0 {
        (1, 0)
    } else if k == 1 {
        (-1, 0)
    } else if k == 2 {
        (0, 1)
    } else if k == 3 {
        (0, -1)
    } else if k == 4 {
        (1, 1)
    } else if k == 5 {
        (1, -1)
    } else if k == 6 {
        (-1, 1)
    } else {
        (-1, -1)
    }
}

/// The `k`-th neighbour of `(x, y)` when it lies on the grid and is passable.
pub open spec fn step_target(shape: GridShape, cells: Seq<bool>, x: int, y: int, k: int) -> Option<(usize, usize)> {
    let nx = x + step_offset(k).0;
    let ny = y + step_offset(k).1;
    if 0 <= nx < shape.width && 0 <= ny < shape.height && !cells[shape.index_spec(nx, ny)] {
        Some((nx as usize, ny as usize))
    } else {
        None
    }
}

/// The passable neighbours among the first `n` offsets, in offset order.
pub open spec fn grid_steps_spec(shape: GridShape, cells: Seq<bool>, x: int, y: int, n: nat) -> Seq<(usize, usize)>
    decreases n,
{
    if n == 0 {
        Seq::empty()
    } else {
        let prev = grid_steps_spec(shape, cells, x, y, (n - 1) as nat);
        match step_target(shape, cells, x, y, n - 1) {
            Some(cell) => prev.push(cell),
            None => prev,
        }
    }
}

/// True when `c` is a move out of `(x, y)`: a passable grid cell one king
/// move away.
pub open spec fn is_step(shape: GridShape, cells: Seq<bool>, x: int, y: int, c: (usize, usize)) -> bool {
    &&& (c.0 as int) < shape.width
    &&& (c.1 as int) < shape.height
    &&& !cells[shape.index_spec(c.0 as int, c.1 as int)]
    &&& chebyshev(c.0 as int, c.1 as int, x, y) == 1
}

/// Position of the offset `(dx, dy)` in the order the neighbours are tried.
pub open spec fn offset_index(dx: int, dy: int) -> int {
    if dx == 1 && dy == 0 {
        0
    } else if dx == -1 && dy == 0 {
        1
    } else if dx == 0 && dy == 1 {
        2
    } else if dx == 0 && dy == -1 {
        3
    } else if dx == 1 && dy == 1 {
        4
    } else if dx == 1 && dy == -1 {
        5
    } else if dx == -1 && dy == 1 {
        6
    } else {
        7
    }
}

/// The eight offsets are the eight distinct non-zero vectors of `{-1, 0, 1}^2`.
proof fn lemma_step_offsets()
    ensures
        forall|k: int| 0 <= k < 8 ==> {
            let (dx, dy) = #[trigger] step_offset(k);
            &&& -1 <= dx <= 1
            &&& -1 <= dy <= 1
            &&& (dx != 0 || dy != 0)
            &&& offset_index(dx, dy) == k
        },
        forall|dx: int, dy: int| -1 <= dx <= 1 && -1 <= dy <= 1 && (dx != 0 || dy != 0) ==> {
            &&& 0 <= #[trigger] offset_index(dx, dy) < 8
            &&& step_offset(offset_index(dx, dy)) == (dx, dy)
        },
{
}

/// A target found at offset `k` is a move, and every move is the target at
/// its own offset.
proof fn lemma_step_target_is_step(shape: GridShape, cells: Seq<bool>, x: int, y: int)
    ensures
        forall|k: int| 0 <= k < 8 && (#[trigger] step_target(shape, cells, x, y, k)) is Some ==>
            is_step(shape, cells, x, y, step_target(shape, cells, x, y, k)->0),
        forall|c: (usize, usize)| #[trigger] is_step(shape, cells, x, y, c) ==> {
            &&& 0 <= offset_index(c.0 - x, c.1 - y) < 8
            &&& step_target(shape, cells, x, y, offset_index(c.0 - x, c.1 - y)) == Some(c)
        },
{
    lemma_step_offsets();
    assert forall|c: (usize, usize)| #[trigger] is_step(shape, cells, x, y, c) implies {
        &&& 0 <= offset_index(c.0 - x, c.1 - y) < 8
        &&& step_target(shape, cells, x, y, offset_index(c.0 - x, c.1 - y)) == Some(c)
    } by {
        let dx = c.0 - x;
        let dy = c.1 - y;
        assert(-1 <= dx <= 1 && -1 <= dy <= 1 && (dx != 0 || dy != 0));
        assert(step_offset(offset_index(dx, dy)) == (dx, dy));
    }
}

/// What the first `n` offsets contribute: moves only, each offset's move,
/// and no cell twice.
proof fn lemma_grid_steps_prefix(shape: GridShape, cells: Seq<bool>, x: int, y: int, n: nat)
    requires
        n <= 8,
    ensures
        forall|i: int| 0 <= i < grid_steps_spec(shape, cells, x, y, n).len() ==> {
            &&& is_step(shape, cells, x, y, #[trigger] grid_steps_spec(shape, cells, x, y, n)[i])
            &&& 0 <= offset_index(grid_steps_spec(shape, cells, x, y, n)[i].0 - x, grid_steps_spec(shape, cells, x, y, n)[i].1 - y) < n
        },
        forall|k: int| 0 <= k < n && (#[trigger] step_target(shape, cells, x, y, k)) is Some ==>
            grid_steps_spec(shape, cells, x, y, n).contains(step_target(shape, cells, x, y, k)->0),
        grid_steps_spec(shape, cells, x, y, n).no_duplicates(),
    decreases n,
{
    lemma_step_target_is_step(shape, cells, x, y);
    lemma_step_offsets();
    if n > 0 {
        lemma_grid_steps_prefix(shape, cells, x, y, (n - 1) as nat);
        let prev = grid_steps_spec(shape, cells, x, y, (n - 1) as nat);
        let cur = grid_steps_spec(shape, cells, x, y, n);
        let t = step_target(shape, cells, x, y, n - 1);
        if t is Some {
            let c = t->0;
            assert(cur == prev.push(c));
            assert(is_step(shape, cells, x, y, c));
            assert(offset_index(c.0 - x, c.1 - y) == n - 1);
            assert forall|i: int| 0 <= i < prev.len() implies prev[i] != c by {
                assert(offset_index(prev[i].0 - x, prev[i].1 - y) < n - 1);
            }
            assert forall|k: int| 0 <= k < n && (#[trigger] step_target(shape, cells, x, y, k)) is Some implies
                cur.contains(step_target(shape, cells, x, y, k)->0) by {
                if k < n - 1 {
                    let j = choose|j: int| 0 <= j < prev.len() && prev[j] == step_target(shape, cells, x, y, k)->0;
                    assert(cur[j] == prev[j]);
                } else {
                    assert(cur[prev.len() as int] == c);
                }
            }
            assert forall|i: int, j: int| 0 <= i < cur.len() && 0 <= j < cur.len() && i != j implies cur[i] != cur[j] by {
                if i < prev.len() && j < prev.len() {
                } else if i < prev.len() {
                    assert(cur[j] == c);
                } else {
                    assert(cur[i] == c);
                }
            }
        }
    }
}

/// Law: the moves out of a cell are exactly its passable on-grid king
/// neighbours, each offered once.
pub proof fn lemma_grid_steps_are_the_neighbours(shape: GridShape, cells: Seq<bool>, x: int, y: int)
    ensures
        forall|i: int| 0 <= i < grid_steps_spec(shape, cells, x, y, 8).len() ==>
            is_step(shape, cells, x, y, #[trigger] grid_steps_spec(shape, cells, x, y, 8)[i]),
        forall|c: (usize, usize)| #[trigger] is_step(shape, cells, x, y, c) ==> grid_steps_spec(shape, cells, x, y, 8).contains(c),
        grid_steps_spec(shape, cells, x, y, 8).no_duplicates(),
{
    lemma_grid_steps_prefix(shape, cells, x, y, 8);
    lemma_step_target_is_step(shape, cells, x, y);
    assert forall|c: (usize, usize)| #[trigger] is_step(shape, cells, x, y, c) implies grid_steps_spec(shape, cells, x, y, 8).contains(c) by {
        let k = offset_index(c.0 - x, c.1 - y);
        assert(step_target(shape, cells, x, y, k) == Some(c));
    }
}

fn step_delta(k: usize) -> (r: (i8, i8))
    requires
        k < 8,
    ensures
        r.0 == step_offset(k as int).0,
        r.1 == step_offset(k as int).1,
{
    if k == 0 {
        (1, 0)
    } else if k == 1 {
        (-1, 0)
    } else if k == 2 {
        (0, 1)
    } else if k == 3 {
        (0, -1)
    } else if k == 4 {
        (1, 1)
    } else if k == 5 {
        (1, -1)
    } else if k == 6 {
        (-1, 1)
    } else {
        (-1, -1)
    }
}

/// Fine-grid moves out of the cell `(x, y)`: the neighbours among the eight
/// surrounding cells that lie on the grid and are not forbidden, edge
/// neighbours first, then diagonals.
///
/// Each candidate still has to pass the cost-integrated line-of-sight test
/// before it becomes an edge of the graph.
pub fn grid_steps(hard: &HardMask, x: usize, y: usize) -> (r: Vec<(usize, usize)>)
    ensures
        r@ == grid_steps_spec(hard.shape(), hard.cells(), x as int, y as int, 8),
        forall|i: int| 0 <= i < r@.len() ==> is_step(hard.shape(), hard.cells(), x as int, y as int, #[trigger] r@[i]),
        forall|c: (usize, usize)| #[trigger] is_step(hard.shape(), hard.cells(), x as int, y as int, c) ==> r@.contains(c),
        r@.no_duplicates(),
{
    proof {
        lemma_grid_steps_are_the_neighbours(hard.shape(), hard.cells(), x as int, y as int);
    }
    let shape = hard.grid();
    let mask = hard.mask();
    let total = mask.len();
    let mut out: Vec<(usize, usize)> = Vec::new();
    let mut k: usize = 0;
    while k < 8
        invariant
            k <= 8,
            total == mask@.len(),
            *shape == hard.shape(),
            mask@ == hard.cells(),
            mask@.len() == shape.cell_count(),
            out@ == grid_steps_spec(hard.shape(), hard.cells(), x as int, y as int, k as nat),
        decreases 8 - k,
    {
        let (dx, dy) = step_delta(k);
        let nx = x as i128 + dx as i128;
        let ny = y as i128 + dy as i128;
        if 0 <= nx && nx < shape.width as i128 && 0 <= ny && ny < shape.height as i128 {
            let (cx, cy) = (nx as usize, ny as usize);
            let target = shape.index(cx, cy);
            if !mask[target] {
                out.push((cx, cy));
            }
        }
        k = k + 1;
    }
    out
}


/// Plane-to-endpoint lists after attaching `links` in order.
pub open spec fn plane_links_of(links: Seq<(u32, NodeId)>) -> Map<u32, Seq<u32>>
    decreases links.len(),
{
    if links.len() == 0 {
        Map::empty()
    } else {
        let prev = plane_links_of(links.drop_last());
        let (endpoint, plane) = links.last();
        prev.insert(plane.0, if prev.contains_key(plane.0) { prev[plane.0].push(endpoint) } else { seq![endpoint] })
    }
}

/// Endpoint-to-plane map after attaching `links` in order: the last
/// attachment of an endpoint wins.
pub open spec fn connector_links_of(links: Seq<(u32, NodeId)>) -> Map<u32, NodeId>
    decreases links.len(),
{
    if links.len() == 0 {
        Map::empty()
    } else {
        connector_links_of(links.drop_last()).insert(links.last().0, links.last().1)
    }
}

/// Attachment table between connector endpoints and the plane network.
///
/// The graph is directed, so an endpoint that is only reachable *from* the
/// plane could never be entered and a Z-axis link would exist without ever
/// being used. Both directions of every attachment are therefore recorded:
/// plane node to the connector endpoints it reaches, and connector endpoint to
/// the plane node it attaches to.
#[derive(Debug)]
pub struct ConnectorAttachments {
    from_plane: HashMap<u32, Vec<u32>>,
    from_connector: HashMap<u32, NodeId>,
}

impl ConnectorAttachments {
    /// Endpoints reachable from each plane node, keyed by the node's bits.
    pub closed spec fn plane_links(&self) -> Map<u32, Seq<u32>> {
        self.from_plane@.map_values(|list: Vec<u32>| list@)
    }

    /// Plane node of each attached connector endpoint.
    pub closed spec fn connector_links(&self) -> Map<u32, NodeId> {
        self.from_connector@
    }

    /// Every attached endpoint is listed under its plane node, and every
    /// listed endpoint is attached.
    pub open spec fn wf(&self) -> bool {
        &&& forall|e: u32| #[trigger] self.connector_links().contains_key(e) ==> {
            &&& self.plane_links().contains_key(self.connector_links()[e].0)
            &&& self.plane_links()[self.connector_links()[e].0].contains(e)
        }
        &&& forall|p: u32, i: int| #![trigger self.plane_links()[p][i]]
            self.plane_links().contains_key(p) && 0 <= i < self.plane_links()[p].len()
            ==> self.connector_links().contains_key(self.plane_links()[p][i])
    }

    /// An empty table.
    pub fn new() -> (r: Self)
        ensures
            r.wf(),
            r.plane_links() == Map::<u32, Seq<u32>>::empty(),
            r.connector_links() == Map::<u32, NodeId>::empty(),
    {
        let r = ConnectorAttachments { from_plane: HashMap::new(), from_connector: HashMap::new() };
        assert(r.plane_links() =~= Map::<u32, Seq<u32>>::empty());
        r
    }

    /// Records that connector endpoint `endpoint` attaches to plane node
    /// `plane`: the endpoint is appended to the plane node's list and the
    /// endpoint's plane node is set.
    pub fn attach(&mut self, endpoint: u32, plane: NodeId)
        requires
            old(self).wf(),
        ensures
            final(self).wf(),
            final(self).connector_links() == old(self).connector_links().insert(endpoint, plane),
            final(self).plane_links() == old(self).plane_links().insert(
                plane.0,
                if old(self).plane_links().contains_key(plane.0) {
                    old(self).plane_links()[plane.0].push(endpoint)
                } else {
                    seq![endpoint]
                },
            ),
    {
        let ghost old_plane = self.plane_links();
        let ghost old_conn = self.connector_links();
        let mut list = match self.from_plane.remove(&plane.0) {
            Some(list) => list,
            None => Vec::new(),
        };
        list.push(endpoint);
        self.from_plane.insert(plane.0, list);
        self.from_connector.insert(endpoint, plane);
        let ghost new_list = if old_plane.contains_key(plane.0) { old_plane[plane.0].push(endpoint) } else { seq![endpoint] };
        assert(self.plane_links() =~= old_plane.insert(plane.0, new_list));
        assert forall|e: u32| #[trigger] self.connector_links().contains_key(e) implies {
            &&& self.plane_links().contains_key(self.connector_links()[e].0)
            &&& self.plane_links()[self.connector_links()[e].0].contains(e)
        } by {
            if e == endpoint {
                assert(new_list[new_list.len() - 1] == endpoint);
            } else {
                let q = old_conn[e].0;
                assert(old_plane[q].contains(e));
                if q == plane.0 {
                    let k = choose|k: int| 0 <= k < old_plane[q].len() && old_plane[q][k] == e;
                    assert(new_list[k] == e);
                }
            }
        }
        assert forall|p: u32, i: int| #![trigger self.plane_links()[p][i]]
            self.plane_links().contains_key(p) && 0 <= i < self.plane_links()[p].len()
            implies self.connector_links().contains_key(self.plane_links()[p][i]) by {
            if p == plane.0 {
                if i < new_list.len() - 1 {
                    assert(old_plane[p][i] == new_list[i]);
                }
            }
        }
    }

    /// Builds the table from `(endpoint, plane node)` pairs, attaching them
    /// in order.
    pub fn build(links: &[(u32, NodeId)]) -> (r: Self)
        ensures
            r.wf(),
            r.plane_links() == plane_links_of(links@),
            r.connector_links() == connector_links_of(links@),
    {
        let mut table = Self::new();
        let mut i: usize = 0;
        while i < links.len()
            invariant
                i <= links@.len(),
                table.wf(),
                table.plane_links() == plane_links_of(links@.subrange(0, i as int)),
                table.connector_links() == connector_links_of(links@.subrange(0, i as int)),
            decreases links@.len() - i,
        {
            let (endpoint, plane) = links[i];
            assert(links@.subrange(0, i + 1).drop_last() =~= links@.subrange(0, i as int));
            table.attach(endpoint, plane);
            i = i + 1;
        }
        assert(links@.subrange(0, links@.len() as int) =~= links@);
        table
    }

    /// Connector endpoints a plane node can reach, in attachment order.
    pub fn endpoints_from(&self, plane: u32) -> (r: Option<&Vec<u32>>)
        ensures
            r is Some <==> self.plane_links().contains_key(plane),
            r matches Some(list) ==> list@ == self.plane_links()[plane],
    {
        self.from_plane.get(&plane)
    }

    /// Plane node a connector endpoint attaches to.
    pub fn plane_of(&self, endpoint: u32) -> (r: Option<NodeId>)
        ensures
            r is Some <==> self.connector_links().contains_key(endpoint),
            r matches Some(node) ==> node == self.connector_links()[endpoint],
    {
        match self.from_connector.get(&endpoint) {
            Some(node) => Some(*node),
            None => None,
        }
    }
}

/// Law: an attached endpoint is reachable from the plane node it attaches
/// to, so every Z-axis link that can be left can also be entered.
pub proof fn lemma_attachment_both_ways(table: &ConnectorAttachments, endpoint: u32)
    requires
        table.wf(),
        table.connector_links().contains_key(endpoint),
    ensures
        table.plane_links().contains_key(table.connector_links()[endpoint].0),
        table.plane_links()[table.connector_links()[endpoint].0].contains(endpoint),
{
}

} // verus!
