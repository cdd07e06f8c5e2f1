//! The cross-pool link table between scene nodes and rigid bodies.
//!
//! A binder records a weak mapping from node handles (arena A) to body
//! handles (arena B), two independently owned arenas.  A link is allowed
//! to go stale — either endpoint may be freed behind the table's back —
//! and that is a normal condition, not an error: the prune pass drops
//! every pair with a dead endpoint and must run before any consumer
//! dereferences link targets.

use vstd::prelude::*;

use crate::graph::{Graph, Node};
use crate::handle::Handle;
use crate::physics::{Physics, RigidBody};
use crate::pool::PoolModel;

verus! {

/// One node-to-body link.
pub type Link = (Handle<Node>, Handle<RigidBody>);

/// Whether `s` holds a link for key `a`.
pub open spec fn has_key(s: Seq<Link>, a: Handle<Node>) -> bool {
    exists|k: int| 0 <= k < s.len() && s[k].0 == a
}

/// The position of the link for key `a` at or after `k`, or `-1`.
pub open spec fn key_index_from(s: Seq<Link>, a: Handle<Node>, k: int) -> int
    decreases s.len() - k,
{
    if k < 0 || k >= s.len() {
        -1
    } else if s[k].0 == a {
        k
    } else {
        key_index_from(s, a, k + 1)
    }
}

/// The body bound to `a`, if any.
pub open spec fn bound_m(s: Seq<Link>, a: Handle<Node>) -> Option<Handle<RigidBody>> {
    let k = key_index_from(s, a, 0);
    if k >= 0 {
        Some(s[k].1)
    } else {
        None
    }
}

/// The table after binding `a` to `b`: an existing link for `a` is
/// replaced in place, otherwise the pair is appended.
pub open spec fn bind_m(s: Seq<Link>, a: Handle<Node>, b: Handle<RigidBody>) -> Seq<Link> {
    let k = key_index_from(s, a, 0);
    if k >= 0 {
        s.update(k, (a, b))
    } else {
        s.push((a, b))
    }
}

/// The table after unbinding `a`.
pub open spec fn unbind_m(s: Seq<Link>, a: Handle<Node>) -> Seq<Link> {
    let k = key_index_from(s, a, 0);
    if k >= 0 {
        s.remove(k)
    } else {
        s
    }
}

/// The first `n` links that survive a prune against graph `g` and physics
/// `p`: both endpoints still valid, order kept.
pub open spec fn pruned_prefix(
    s: Seq<Link>,
    g: PoolModel<Node>,
    p: PoolModel<RigidBody>,
    n: int,
) -> Seq<Link>
    decreases n,
{
    if n <= 0 {
        Seq::empty()
    } else {
        let rest = pruned_prefix(s, g, p, n - 1);
        if g.valid(s[n - 1].0) && p.valid(s[n - 1].1) {
            rest.push(s[n - 1])
        } else {
            rest
        }
    }
}

/// The whole table after a prune pass.
pub open spec fn prune_m(s: Seq<Link>, g: PoolModel<Node>, p: PoolModel<RigidBody>) -> Seq<
    Link,
> {
    pruned_prefix(s, g, p, s.len() as int)
}

/// No key is bound twice.
pub open spec fn keys_unique(s: Seq<Link>) -> bool {
    forall|k1: int, k2: int| 0 <= k1 < k2 < s.len() ==> (#[trigger] s[k1]).0 != (#[trigger] s[k2]).0
}

/// The weak node-to-body link table.
pub struct PhysicsBinder {
    map: Vec<Link>,
}

impl View for PhysicsBinder {
    type V = Seq<Link>;

    closed spec fn view(&self) -> Seq<Link> {
        self.map@
    }
}

impl PhysicsBinder {
    /// Well-formedness: each node is bound at most once.
    pub open spec fn wf(self) -> bool {
        keys_unique(self@)
    }

    /// Creates an empty binder.
    pub fn new() -> (b: PhysicsBinder)
        ensures
            b@ == Seq::<Link>::empty(),
            b.wf(),
    {
        let b = PhysicsBinder { map: Vec::new() };
        proof {
            assert(b@ =~= Seq::<Link>::empty());
        }
        b
    }

    /// Binds `rigid_body` to `node`, replacing and returning any body the
    /// node was bound to before.
    pub fn bind(&mut self, node: Handle<Node>, rigid_body: Handle<RigidBody>) -> (prev: Option<
        Handle<RigidBody>,
    >)
        requires
            old(self).wf(),
        ensures
            final(self)@ == bind_m(old(self)@, node, rigid_body),
            prev == bound_m(old(self)@, node),
            final(self).wf(),
            bound_m(final(self)@, node) == Some(rigid_body),
    {
        let n = self.map.len();
        let mut i: usize = 0;
        while i < n
            invariant
                old(self).wf(),
                self@ == old(self)@,
                n == self@.len(),
                0 <= i <= n,
                key_index_from(self@, node, 0) == key_index_from(self@, node, i as int),
            decreases n - i,
        {
            let (a, b) = self.map[i];
            if a.index == node.index && a.generation == node.generation {
                proof {
                    assert(self@[i as int].0 == node);
                    assert(key_index_from(self@, node, i as int) == i as int);
                    lemma_bind_unique(old(self)@, node, rigid_body, i as int);
                }
                self.map[i] = (node, rigid_body);
                proof {
                    lemma_key_index_update(old(self)@, node, rigid_body, i as int);
                }
                return Some(b);
            }
            i += 1;
        }
        proof {
            lemma_key_index_none(self@, node);
            lemma_bind_push_unique(old(self)@, node, rigid_body);
        }
        self.map.push((node, rigid_body));
        proof {
            lemma_key_index_push(old(self)@, node, rigid_body);
        }
        None
    }

    /// Removes and returns the body bound to `node`, if any.
    pub fn unbind(&mut self, node: Handle<Node>) -> (prev: Option<Handle<RigidBody>>)
        requires
            old(self).wf(),
        ensures
            final(self)@ == unbind_m(old(self)@, node),
            prev == bound_m(old(self)@, node),
            final(self).wf(),
    {
        let n = self.map.len();
        let mut i: usize = 0;
        while i < n
            invariant
                old(self).wf(),
                self@ == old(self)@,
                n == self@.len(),
                0 <= i <= n,
                key_index_from(self@, node, 0) == key_index_from(self@, node, i as int),
            decreases n - i,
        {
            let (a, b) = self.map[i];
            if a.index == node.index && a.generation == node.generation {
                proof {
                    assert(self@[i as int].0 == node);
                    assert(key_index_from(self@, node, i as int) == i as int);
                    lemma_remove_unique(old(self)@, i as int);
                }
                self.map.remove(i);
                return Some(b);
            }
            i += 1;
        }
        proof {
            lemma_key_index_none(self@, node);
        }
        None
    }

    /// The body currently bound to `node`, if any; no side effects.
    pub fn bound_body(&self, node: Handle<Node>) -> (r: Option<Handle<RigidBody>>)
        ensures
            r == bound_m(self@, node),
    {
        let n = self.map.len();
        let mut i: usize = 0;
        while i < n
            invariant
                n == self@.len(),
                0 <= i <= n,
                key_index_from(self@, node, 0) == key_index_from(self@, node, i as int),
            decreases n - i,
        {
            let (a, b) = self.map[i];
            if a.index == node.index && a.generation == node.generation {
                proof {
                    assert(self@[i as int].0 == node);
                }
                return Some(b);
            }
            i += 1;
        }
        None
    }

    /// The links, in table order; stale pairs included until the next
    /// prune.
    pub fn links(&self) -> (r: &Vec<Link>)
        ensures
            r@ == self@,
    {
        &self.map
    }

    /// Wraps an already-built link list whose keys are unique — as the
    /// clone pass produces.
    pub fn from_links(links: Vec<Link>) -> (b: PhysicsBinder)
        requires
            keys_unique(links@),
        ensures
            b@ == links@,
            b.wf(),
    {
        PhysicsBinder { map: links }
    }

    /// The prune pass: drops every link with a dead endpoint — a freed
    /// node or a freed body — keeping the rest in order.  Run it before
    /// any consumer dereferences link targets.
    pub fn prune(&mut self, graph: &Graph, physics: &Physics)
        requires
            old(self).wf(),
        ensures
            final(self)@ == prune_m(old(self)@, graph@, physics@),
            final(self).wf(),
    {
        let n = self.map.len();
        let mut kept: Vec<Link> = Vec::new();
        let mut i: usize = 0;
        while i < n
            invariant
                old(self).wf(),
                self@ == old(self)@,
                n == self@.len(),
                0 <= i <= n,
                kept@ == pruned_prefix(old(self)@, graph@, physics@, i as int),
            decreases n - i,
        {
            let (a, b) = self.map[i];
            if graph.is_valid_handle(a) && physics.is_valid_body_handle(b) {
                kept.push((a, b));
            }
            i += 1;
        }
        proof {
            lemma_prune_unique(old(self)@, graph@, physics@, n as int);
        }
        self.map = kept;
    }
}

/// A scan that reached `k` without its key holds `key_index_from(0) ==
/// key_index_from(k)`; a full scan without a hit means the key is absent.
proof fn lemma_key_index_none(s: Seq<Link>, a: Handle<Node>)
    requires
        key_index_from(s, a, 0) == key_index_from(s, a, s.len() as int),
    ensures
        key_index_from(s, a, 0) == -1,
        bound_m(s, a) is None,
{
}

/// Replacing the link at its key's position keeps keys unique.
proof fn lemma_bind_unique(s: Seq<Link>, a: Handle<Node>, b: Handle<RigidBody>, k: int)
    requires
        keys_unique(s),
        0 <= k < s.len(),
        s[k].0 == a,
    ensures
        keys_unique(s.update(k, (a, b))),
{
    let s1 = s.update(k, (a, b));
    assert forall|k1: int, k2: int| 0 <= k1 < k2 < s1.len() implies (s1[k1]).0 != (s1[k2]).0 by {
        assert(s[k1].0 != s[k2].0);
    }
}

/// After an in-place rebind the key still resolves to its position.
proof fn lemma_key_index_update(s: Seq<Link>, a: Handle<Node>, b: Handle<RigidBody>, k: int)
    requires
        keys_unique(s),
        0 <= k < s.len(),
        s[k].0 == a,
        key_index_from(s, a, 0) == k,
    ensures
        key_index_from(s.update(k, (a, b)), a, 0) == k,
        bound_m(s.update(k, (a, b)), a) == Some(b),
{
    let s1 = s.update(k, (a, b));
    lemma_key_scan_prefix(s, s1, a, k);
}

/// Two tables that agree below `k`, where neither holds the key, and
/// where `s1[k].0 == a`, resolve the key to `k`.
proof fn lemma_key_scan_prefix(s: Seq<Link>, s1: Seq<Link>, a: Handle<Node>, k: int)
    requires
        0 <= k < s1.len(),
        s1.len() == s.len(),
        forall|j: int| 0 <= j < k ==> s1[j] == s[j],
        key_index_from(s, a, 0) == k,
        s[k].0 == a,
        s1[k].0 == a,
    ensures
        key_index_from(s1, a, 0) == k,
{
    lemma_key_index_lands(s1, a, k, 0, s, k);
}

/// A scan over `s1` lands on `k` when no earlier position holds the key.
proof fn lemma_key_index_lands(
    s1: Seq<Link>,
    a: Handle<Node>,
    k: int,
    i: int,
    s: Seq<Link>,
    orig: int,
)
    requires
        0 <= i <= k < s1.len(),
        s1.len() == s.len(),
        forall|j: int| 0 <= j < k ==> s1[j] == s[j],
        key_index_from(s, a, 0) == orig,
        orig == k,
        s[k].0 == a,
        s1[k].0 == a,
        key_index_from(s, a, i) == orig,
    ensures
        key_index_from(s1, a, i) == k,
    decreases k - i,
{
    if i < k {
        assert(s[i].0 != a) by {
            if s[i].0 == a {
                assert(key_index_from(s, a, i) == i);
            }
        }
        lemma_key_index_lands(s1, a, k, i + 1, s, orig);
    }
}

/// Appending a key that is absent keeps keys unique.
proof fn lemma_bind_push_unique(s: Seq<Link>, a: Handle<Node>, b: Handle<RigidBody>)
    requires
        keys_unique(s),
        key_index_from(s, a, 0) == -1,
    ensures
        keys_unique(s.push((a, b))),
{
    lemma_key_absent(s, a, 0);
    let s1 = s.push((a, b));
    assert forall|k1: int, k2: int| 0 <= k1 < k2 < s1.len() implies (s1[k1]).0 != (s1[k2]).0 by {
        if k2 == s.len() {
            assert(s[k1].0 != a);
        } else {
            assert(s[k1].0 != s[k2].0);
        }
    }
}

/// A `-1` scan result means no position at or after `i` holds the key.
proof fn lemma_key_absent(s: Seq<Link>, a: Handle<Node>, i: int)
    requires
        0 <= i,
        key_index_from(s, a, i) == -1,
    ensures
        forall|j: int| i <= j < s.len() ==> (#[trigger] s[j]).0 != a,
    decreases s.len() - i,
{
    if i < s.len() {
        lemma_key_absent(s, a, i + 1);
    }
}

/// After appending the key it resolves to the appended position.
proof fn lemma_key_index_push(s: Seq<Link>, a: Handle<Node>, b: Handle<RigidBody>)
    requires
        key_index_from(s, a, 0) == -1,
    ensures
        key_index_from(s.push((a, b)), a, 0) == s.len(),
        bound_m(s.push((a, b)), a) == Some(b),
{
    lemma_key_push_scan(s, a, b, 0);
}

/// Scanning the appended table from `i` skips the old misses and lands on
/// the appended pair.
proof fn lemma_key_push_scan(s: Seq<Link>, a: Handle<Node>, b: Handle<RigidBody>, i: int)
    requires
        0 <= i <= s.len(),
        key_index_from(s, a, i) == -1,
    ensures
        key_index_from(s.push((a, b)), a, i) == s.len(),
    decreases s.len() - i,
{
    if i < s.len() {
        assert(s[i].0 != a) by {
            if s[i].0 == a {
                assert(key_index_from(s, a, i) == i);
            }
        }
        lemma_key_push_scan(s, a, b, i + 1);
    }
}

/// Removing a link keeps keys unique.
proof fn lemma_remove_unique(s: Seq<Link>, k: int)
    requires
        keys_unique(s),
        0 <= k < s.len(),
    ensures
        keys_unique(s.remove(k)),
{
    let s1 = s.remove(k);
    assert forall|k1: int, k2: int| 0 <= k1 < k2 < s1.len() implies (s1[k1]).0 != (s1[k2]).0 by {
        let o1 = if k1 < k {
            k1
        } else {
            k1 + 1
        };
        let o2 = if k2 < k {
            k2
        } else {
            k2 + 1
        };
        assert(s1[k1] == s[o1]);
        assert(s1[k2] == s[o2]);
        assert(s[o1].0 != s[o2].0);
    }
}

/// A pruned prefix holds only links of the original table, valid at both
/// ends, and keeps keys unique.
pub proof fn lemma_prune_unique(
    s: Seq<Link>,
    g: PoolModel<Node>,
    p: PoolModel<RigidBody>,
    n: int,
)
    requires
        keys_unique(s),
        n <= s.len(),
    ensures
        ({
            let s1 = pruned_prefix(s, g, p, n);
            &&& forall|k: int|
                0 <= k < s1.len() ==> g.valid((#[trigger] s1[k]).0) && p.valid(s1[k].1)
            &&& forall|k: int|
                0 <= k < s1.len() ==> exists|j: int| 0 <= j < n && s[j] == #[trigger] s1[k]
            &&& keys_unique(s1)
        }),
    decreases n,
{
    if n > 0 {
        lemma_prune_unique(s, g, p, n - 1);
        let rest = pruned_prefix(s, g, p, n - 1);
        let s1 = pruned_prefix(s, g, p, n);
        if g.valid(s[n - 1].0) && p.valid(s[n - 1].1) {
            assert forall|k: int| 0 <= k < s1.len() implies exists|j: int|
                0 <= j < n && s[j] == #[trigger] s1[k] by {
                if k < rest.len() {
                    let j = choose|j: int| 0 <= j < n - 1 && s[j] == rest[k];
                    assert(s[j] == s1[k]);
                } else {
                    assert(s[n - 1] == s1[k]);
                }
            }
            assert forall|k1: int, k2: int|
                0 <= k1 < k2 < s1.len() implies (s1[k1]).0 != (s1[k2]).0 by {
                if k2 == s1.len() - 1 {
                    let j1 = choose|j: int| 0 <= j < n - 1 && s[j] == rest[k1];
                    assert(s1[k1] == s[j1]);
                    assert(s1[k2] == s[n - 1]);
                    assert(s[j1].0 != s[n - 1].0);
                } else {
                    assert(rest[k1] == s1[k1] && rest[k2] == s1[k2]);
                }
            }
        }
    }
}

/// Link pruning: a bound pair whose body end is freed does not survive
/// the next prune pass — afterwards no link mentions the freed body, so
/// no consumer can observe a dangling target.
pub proof fn lemma_link_pruning(
    s: Seq<Link>,
    g: PoolModel<Node>,
    p: PoolModel<RigidBody>,
    a: Handle<Node>,
    b: Handle<RigidBody>,
)
    requires
        keys_unique(s),
        p.wf(),
        p.valid(b),
    ensures
        ({
            let p1 = p.free_m(b);
            let s1 = prune_m(s, g, p1);
            &&& forall|k: int| 0 <= k < s1.len() ==> (#[trigger] s1[k]).1 != b
            &&& !s1.contains((a, b))
            &&& forall|k: int|
                0 <= k < s1.len() ==> g.valid((#[trigger] s1[k]).0) && p1.valid(s1[k].1)
        }),
{
    let p1 = p.free_m(b);
    crate::pool::lemma_free_wf(p, b);
    let s1 = prune_m(s, g, p1);
    lemma_prune_unique(s, g, p1, s.len() as int);
    assert forall|k: int| 0 <= k < s1.len() implies (#[trigger] s1[k]).1 != b by {
        assert(p1.valid(s1[k].1));
        assert(!p1.valid(b));
    }
    if s1.contains((a, b)) {
        let k = choose|k: int| 0 <= k < s1.len() && s1[k] == (a, b);
        assert(s1[k].1 == b);
        assert(false);
    }
}

} // verus!
