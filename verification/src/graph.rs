//! The scene graph: an arena of named nodes, and the clone-with-filter
//! step that rebuilds it.
//!
//! Cloning a graph through a filter keeps only the nodes the filter
//! accepts and packs them into a fresh arena; alongside the new graph it
//! returns a remap table from old handles to new ones.  Every
//! cross-reference recorded against the old graph (animation tracks,
//! physics links) must be pushed through that table — a plain copy of an
//! old handle would be meaningless against the new arena.

use core::marker::PhantomData;
use vstd::prelude::*;

use crate::handle::{Handle, NONE_INDEX};
use crate::pool::{Pool, PoolModel, Slot};

verus! {

/// One scene entity: flat payload data addressed through the graph's
/// arena.
#[derive(Debug)]
pub struct Node {
    pub name: String,
}

impl Node {
    /// Builds a node carrying `name`.
    pub fn new(name: String) -> (n: Node)
        ensures
            n.name == name,
    {
        Node { name }
    }

    /// An exact copy of the node.
    pub fn duplicate(&self) -> (n: Node)
        ensures
            n == *self,
    {
        Node { name: self.name.clone() }
    }
}

/// One remap-table entry: the generation the old slot had at clone time,
/// and the handle of the copied node in the new graph.
pub struct RemapEntry {
    pub old_generation: u32,
    pub new_handle: Handle<Node>,
}

/// The old-handle to new-handle table built while cloning a graph through
/// a filter.  A lookup succeeds only for a handle that was valid at clone
/// time and whose node the filter kept.
pub struct RemapTable {
    entries: Vec<Option<RemapEntry>>,
}

/// What a remap lookup yields against table `t`.
pub open spec fn lookup_m(t: Seq<Option<RemapEntry>>, h: Handle<Node>) -> Option<Handle<Node>> {
    if 0 <= h.index < t.len() && t[h.index as int] is Some && t[h.index as int].unwrap().old_generation
        == h.generation {
        Some(t[h.index as int].unwrap().new_handle)
    } else {
        None
    }
}

impl View for RemapTable {
    type V = Seq<Option<RemapEntry>>;

    closed spec fn view(&self) -> Seq<Option<RemapEntry>> {
        self.entries@
    }
}

impl RemapTable {
    /// The new-graph handle standing for old handle `h`, or nothing when
    /// `h` was stale at clone time or its node was filtered out.
    pub fn lookup(&self, h: Handle<Node>) -> (r: Option<Handle<Node>>)
        ensures
            r == lookup_m(self@, h),
    {
        let iu = h.index as usize;
        if iu < self.entries.len() {
            match &self.entries[iu] {
                Some(entry) => {
                    if entry.old_generation == h.generation {
                        proof {
                            assert(h.index as int == iu as int);
                        }
                        Some(entry.new_handle)
                    } else {
                        None
                    }
                },
                None => None,
            }
        } else {
            None
        }
    }
}

/// How many nodes among the first `n` slots the clone keeps: occupied and
/// accepted by the filter.
pub open spec fn kept_count(m: PoolModel<Node>, keep: Seq<bool>, n: int) -> int
    decreases n,
{
    if n <= 0 {
        0
    } else {
        kept_count(m, keep, n - 1) + if m.occupied(n - 1) && keep[n - 1] {
            1int
        } else {
            0int
        }
    }
}

/// The kept nodes among the first `n` slots, in index order.
pub open spec fn kept_prefix(m: PoolModel<Node>, keep: Seq<bool>, n: int) -> Seq<Node>
    decreases n,
{
    if n <= 0 {
        Seq::empty()
    } else {
        let rest = kept_prefix(m, keep, n - 1);
        if m.occupied(n - 1) && keep[n - 1] {
            rest.push(m.slots[n - 1].payload.unwrap())
        } else {
            rest
        }
    }
}

/// The model of the graph a filtered clone builds: the kept nodes packed
/// into fresh slots, all generations zero, nothing on the free stack.
pub open spec fn cloned_graph_m(m: PoolModel<Node>, keep: Seq<bool>) -> PoolModel<Node> {
    PoolModel {
        slots: kept_prefix(m, keep, m.num_slots()).map_values(
            |nd: Node| Slot { payload: Some(nd), generation: 0u32 },
        ),
        free: Seq::empty(),
    }
}

/// The remap-table entry a filtered clone records for old slot `i`.
pub open spec fn remap_entry_m(m: PoolModel<Node>, keep: Seq<bool>, i: int) -> Option<
    RemapEntry,
> {
    if m.occupied(i) && keep[i] {
        Some(
            RemapEntry {
                old_generation: m.slots[i].generation,
                new_handle: Handle {
                    index: kept_count(m, keep, i) as u32,
                    generation: 0,
                    entity_kind: PhantomData,
                },
            },
        )
    } else {
        None
    }
}

/// The model of the remap table a filtered clone builds.
pub open spec fn remap_table_m(m: PoolModel<Node>, keep: Seq<bool>) -> Seq<Option<RemapEntry>> {
    Seq::new(m.num_slots() as nat, |i: int| remap_entry_m(m, keep, i))
}

/// An arena of scene nodes.
pub struct Graph {
    pool: Pool<Node>,
}

impl View for Graph {
    type V = PoolModel<Node>;

    closed spec fn view(&self) -> PoolModel<Node> {
        self.pool@
    }
}

impl Graph {
    /// Well-formedness of the underlying arena.
    pub open spec fn wf(self) -> bool {
        self@.wf()
    }

    /// Creates an empty graph.
    pub fn new() -> (g: Graph)
        ensures
            g@ == PoolModel::<Node>::empty(),
            g.wf(),
    {
        Graph { pool: Pool::new() }
    }

    /// Adds a node and returns the handle that names it.
    pub fn add_node(&mut self, node: Node) -> (h: Handle<Node>)
        requires
            old(self).wf(),
            old(self)@.can_spawn(),
        ensures
            final(self)@ == old(self)@.spawn_m(node),
            h == old(self)@.spawn_handle(),
            final(self).wf(),
            final(self)@.valid(h),
    {
        self.pool.spawn(node)
    }

    /// Frees the node named by `h`; a stale or out-of-range handle changes
    /// nothing.
    pub fn remove_node(&mut self, h: Handle<Node>)
        requires
            old(self).wf(),
        ensures
            final(self)@ == old(self)@.free_m(h),
            final(self).wf(),
    {
        self.pool.free(h);
    }

    /// Whether `h` names a live node.
    pub fn is_valid_handle(&self, h: Handle<Node>) -> (b: bool)
        ensures
            b == self@.valid(h),
    {
        self.pool.is_valid(h)
    }

    /// Handle-validated read of a node.
    pub fn borrow(&self, h: Handle<Node>) -> (r: Option<&Node>)
        ensures
            r.is_some() == self@.valid(h),
            r.is_some() ==> Some(*r.unwrap()) == self@.borrow_m(h),
    {
        self.pool.borrow(h)
    }

    /// The handle that currently names slot `index`.
    pub fn handle_from_index(&self, index: u32) -> (h: Handle<Node>)
        requires
            0 <= index < self@.num_slots(),
        ensures
            h == self@.handle_at(index as int),
    {
        self.pool.handle_from_index(index)
    }

    /// The number of slots the graph's arena owns.
    pub fn get_capacity(&self) -> (n: usize)
        ensures
            n == self@.num_slots(),
    {
        self.pool.get_capacity()
    }

    /// Rebuilds a graph from persisted occupancy: slot `i` gets entry
    /// `i`'s node (`None` marks a gap), generations start over at zero,
    /// and the free stack is rebuilt from the gaps.  Handles persisted
    /// alongside must be re-validated by a resolve pass, not trusted.
    pub fn restore_from(entries: Vec<Option<Node>>) -> (g: Graph)
        requires
            entries@.len() <= NONE_INDEX as int,
        ensures
            g@ == PoolModel::restored(entries@),
            g.wf(),
    {
        Graph { pool: Pool::restore_from(entries) }
    }

    /// Rebuilds the graph through `filter`: nodes the filter accepts are
    /// copied, in index order, into a fresh arena; the returned table maps
    /// each kept node's old handle to its new one.  Which nodes are kept
    /// is whatever the filter answered, recorded in the `keep` witness of
    /// the contract.
    pub fn clone_filtered<F: Fn(&Node) -> bool>(&self, filter: &F) -> (r: (Graph, RemapTable))
        requires
            self.wf(),
            forall|nd: &Node| #[trigger] call_requires(filter, (nd,)),
        ensures
            r.0.wf(),
            exists|keep: Seq<bool>|
                {
                    &&& keep.len() == self@.num_slots()
                    &&& (forall|i: int|
                        0 <= i < keep.len() && self@.occupied(i) ==> #[trigger] call_ensures(
                            filter,
                            (&self@.slots[i].payload.unwrap(),),
                            keep[i],
                        ))
                    &&& r.0@ == cloned_graph_m(self@, keep)
                    &&& r.1@ == remap_table_m(self@, keep)
                },
    {
        let n = self.pool.get_capacity();
        let mut out = Graph::new();
        let mut entries: Vec<Option<RemapEntry>> = Vec::new();
        let ghost mut keep: Seq<bool> = Seq::empty();
        let mut i: usize = 0;
        while i < n
            invariant
                self.wf(),
                forall|nd: &Node| #[trigger] call_requires(filter, (nd,)),
                n == self@.num_slots(),
                0 <= i <= n,
                keep.len() == i,
                forall|j: int|
                    0 <= j < i as int && self@.occupied(j) ==> #[trigger] call_ensures(
                        filter,
                        (&self@.slots[j].payload.unwrap(),),
                        keep[j],
                    ),
                out@.free == Seq::<u32>::empty(),
                out@.slots == kept_prefix(self@, keep, i as int).map_values(
                    |nd: Node| Slot { payload: Some(nd), generation: 0u32 },
                ),
                out.wf(),
                entries@.len() == i,
                forall|j: int| 0 <= j < i as int ==> entries@[j] == remap_entry_m(self@, keep, j),
            decreases n - i,
        {
            let ghost keep_before = keep;
            match self.pool.at(i as u32) {
                Some(node) => {
                    let keep_node = filter(node);
                    proof {
                        keep = keep.push(keep_node);
                    }
                    if keep_node {
                        let old_handle = self.pool.handle_from_index(i as u32);
                        proof {
                            lemma_kept_prefix_len(self@, keep_before, i as int);
                            assert(out@.num_slots() == kept_count(self@, keep_before, i as int));
                            lemma_kept_count_bound(self@, keep_before, i as int);
                        }
                        let new_handle = out.pool.spawn(node.duplicate());
                        entries.push(
                            Some(
                                RemapEntry {
                                    old_generation: old_handle.generation,
                                    new_handle,
                                },
                            ),
                        );
                    } else {
                        entries.push(None);
                    }
                },
                None => {
                    proof {
                        keep = keep.push(false);
                    }
                    entries.push(None);
                },
            }
            proof {
                lemma_kept_prefix_stable(self@, keep_before, keep, i as int);
                assert(kept_prefix(self@, keep, (i + 1) as int).map_values(
                    |nd: Node| Slot { payload: Some(nd), generation: 0u32 },
                ) =~= out@.slots);
                assert forall|j: int| 0 <= j < i + 1 implies entries@[j] == remap_entry_m(
                    self@,
                    keep,
                    j,
                ) by {
                    lemma_kept_count_stable(self@, keep_before, keep, j);
                }
            }
            i += 1;
        }
        let table = RemapTable { entries };
        proof {
            assert(out@.slots =~= cloned_graph_m(self@, keep).slots);
            assert(out@ =~= cloned_graph_m(self@, keep));
            assert(table@ =~= remap_table_m(self@, keep));
        }
        (out, table)
    }
}

/// The kept prefix holds exactly `kept_count` nodes.
pub proof fn lemma_kept_prefix_len(m: PoolModel<Node>, keep: Seq<bool>, n: int)
    ensures
        kept_prefix(m, keep, n).len() == if n >= 0 {
            kept_count(m, keep, n)
        } else {
            0
        },
    decreases n,
{
    if n > 0 {
        lemma_kept_prefix_len(m, keep, n - 1);
    }
}

/// The kept count never exceeds the number of slots scanned.
pub proof fn lemma_kept_count_bound(m: PoolModel<Node>, keep: Seq<bool>, n: int)
    requires
        n >= 0,
    ensures
        0 <= kept_count(m, keep, n) <= n,
    decreases n,
{
    if n > 0 {
        lemma_kept_count_bound(m, keep, n - 1);
    }
}

/// `kept_prefix` over the first `n` slots only reads the first `n` keep
/// flags.
pub proof fn lemma_kept_prefix_stable(
    m: PoolModel<Node>,
    keep1: Seq<bool>,
    keep2: Seq<bool>,
    n: int,
)
    requires
        forall|j: int| 0 <= j < n ==> keep1[j] == keep2[j],
    ensures
        kept_prefix(m, keep1, n) == kept_prefix(m, keep2, n),
    decreases n,
{
    if n > 0 {
        lemma_kept_prefix_stable(m, keep1, keep2, n - 1);
    }
}

/// The kept count grows with the prefix.
pub proof fn lemma_kept_count_mono(m: PoolModel<Node>, keep: Seq<bool>, i: int, j: int)
    requires
        0 <= i <= j,
    ensures
        kept_count(m, keep, i) <= kept_count(m, keep, j),
    decreases j - i,
{
    if i < j {
        lemma_kept_count_mono(m, keep, i, j - 1);
    }
}

/// A kept slot strictly raises the count of every longer prefix.
pub proof fn lemma_kept_count_strict(m: PoolModel<Node>, keep: Seq<bool>, i: int, j: int)
    requires
        0 <= i < j,
        m.occupied(i),
        keep[i],
    ensures
        kept_count(m, keep, i) < kept_count(m, keep, j),
{
    assert(kept_count(m, keep, i + 1) == kept_count(m, keep, i) + 1);
    lemma_kept_count_mono(m, keep, i + 1, j);
}

/// The kept prefix places the node of kept slot `i` at position
/// `kept_count(i)`.
pub proof fn lemma_kept_prefix_index(m: PoolModel<Node>, keep: Seq<bool>, i: int, n: int)
    requires
        0 <= i < n,
        m.occupied(i),
        keep[i],
    ensures
        0 <= kept_count(m, keep, i) < kept_prefix(m, keep, n).len(),
        kept_prefix(m, keep, n)[kept_count(m, keep, i)] == m.slots[i].payload.unwrap(),
    decreases n,
{
    lemma_kept_count_bound(m, keep, i);
    lemma_kept_prefix_len(m, keep, n);
    lemma_kept_count_strict(m, keep, i, n);
    if i < n - 1 {
        lemma_kept_prefix_index(m, keep, i, n - 1);
    } else {
        lemma_kept_prefix_len(m, keep, n - 1);
    }
}

/// A successful remap lookup certifies everything the consumer needs: the
/// old handle was valid and kept, and the new handle is valid in the
/// cloned graph and reaches the very node the old handle reached.
pub proof fn lemma_lookup_valid(m: PoolModel<Node>, keep: Seq<bool>, h: Handle<Node>)
    requires
        m.wf(),
        keep.len() == m.num_slots(),
    ensures
        ({
            let t = remap_table_m(m, keep);
            let g1 = cloned_graph_m(m, keep);
            lookup_m(t, h) is Some ==> {
                let nh = lookup_m(t, h).unwrap();
                &&& m.valid(h)
                &&& keep[h.index as int]
                &&& g1.valid(nh)
                &&& g1.borrow_m(nh) == m.borrow_m(h)
                &&& nh.index == kept_count(m, keep, h.index as int)
                &&& nh.generation == 0
            }
        }),
{
    let t = remap_table_m(m, keep);
    let g1 = cloned_graph_m(m, keep);
    if lookup_m(t, h) is Some {
        let i = h.index as int;
        assert(t[i] == remap_entry_m(m, keep, i));
        assert(m.occupied(i) && keep[i]);
        assert(m.slots[i].generation == h.generation);
        lemma_kept_prefix_index(m, keep, i, m.num_slots());
        lemma_kept_count_bound(m, keep, i);
        assert(g1.slots[kept_count(m, keep, i)] == (Slot {
            payload: Some(m.slots[i].payload.unwrap()),
            generation: 0u32,
        }));
    }
}

/// Distinct old handles that both survive the remap get distinct new
/// handles: the table never merges two live nodes.
pub proof fn lemma_lookup_injective(
    m: PoolModel<Node>,
    keep: Seq<bool>,
    h1: Handle<Node>,
    h2: Handle<Node>,
)
    requires
        m.wf(),
        keep.len() == m.num_slots(),
        lookup_m(remap_table_m(m, keep), h1) is Some,
        lookup_m(remap_table_m(m, keep), h2) is Some,
        h1 != h2,
    ensures
        lookup_m(remap_table_m(m, keep), h1).unwrap() != lookup_m(
            remap_table_m(m, keep),
            h2,
        ).unwrap(),
{
    let t = remap_table_m(m, keep);
    let i1 = h1.index as int;
    let i2 = h2.index as int;
    lemma_lookup_valid(m, keep, h1);
    lemma_lookup_valid(m, keep, h2);
    if i1 == i2 {
        assert(h1.generation == t[i1].unwrap().old_generation);
        assert(h2.generation == t[i1].unwrap().old_generation);
        assert(h1 == h2);
    } else if i1 < i2 {
        lemma_kept_count_strict(m, keep, i1, i2);
    } else {
        lemma_kept_count_strict(m, keep, i2, i1);
    }
}

/// `kept_count` over the first `n` slots only reads the first `n` keep
/// flags.
pub proof fn lemma_kept_count_stable(
    m: PoolModel<Node>,
    keep1: Seq<bool>,
    keep2: Seq<bool>,
    n: int,
)
    requires
        forall|j: int| 0 <= j < n ==> keep1[j] == keep2[j],
    ensures
        kept_count(m, keep1, n) == kept_count(m, keep2, n),
    decreases n,
{
    if n > 0 {
        lemma_kept_count_stable(m, keep1, keep2, n - 1);
    }
}

} // verus!
