//! Dependency-chain hot reload: which parent assets hold handles to which
//! children, and the queue of parent refreshes a child change triggers.

use crate::event::UntypedKey;
use vstd::prelude::*;

verus! {

/// One dependency edge: `parent` holds a handle to `child`.
#[derive(Clone, Copy, Debug, PartialEq, Eq, Structural)]
pub struct DependencyEdge {
    /// The referenced asset.
    pub child: UntypedKey,
    /// The asset holding the reference.
    pub parent: UntypedKey,
}

/// `edges` without the edges whose parent is `parent`, order kept.
pub open spec fn without_parent(edges: Seq<DependencyEdge>, parent: UntypedKey) -> Seq<
    DependencyEdge,
>
    decreases edges.len(),
{
    if edges.len() == 0 {
        Seq::empty()
    } else {
        let rest = without_parent(edges.drop_last(), parent);
        if edges.last().parent == parent {
            rest
        } else {
            rest.push(edges.last())
        }
    }
}

/// `edges` without the edges that touch `id` as child or parent.
pub open spec fn without_asset(edges: Seq<DependencyEdge>, id: UntypedKey) -> Seq<DependencyEdge>
    decreases edges.len(),
{
    if edges.len() == 0 {
        Seq::empty()
    } else {
        let rest = without_asset(edges.drop_last(), id);
        if edges.last().parent == id || edges.last().child == id {
            rest
        } else {
            rest.push(edges.last())
        }
    }
}

/// The first occurrence of each element of `s`, in order.
pub open spec fn first_occurrences(s: Seq<UntypedKey>) -> Seq<UntypedKey>
    decreases s.len(),
{
    if s.len() == 0 {
        Seq::empty()
    } else {
        let rest = first_occurrences(s.drop_last());
        if rest.contains(s.last()) {
            rest
        } else {
            rest.push(s.last())
        }
    }
}

/// The edges from `parent` to each of `children`.
pub open spec fn edges_to(children: Seq<UntypedKey>, parent: UntypedKey) -> Seq<DependencyEdge> {
    children.map_values(|c: UntypedKey| DependencyEdge { child: c, parent })
}

/// The parents of `child` along `edges`, in edge order.
pub open spec fn parents_along(edges: Seq<DependencyEdge>, child: UntypedKey) -> Seq<UntypedKey>
    decreases edges.len(),
{
    if edges.len() == 0 {
        Seq::empty()
    } else {
        let rest = parents_along(edges.drop_last(), child);
        if edges.last().child == child {
            rest.push(edges.last().parent)
        } else {
            rest
        }
    }
}

/// Dependency map: for every child asset, the parent assets that hold a
/// handle to it. Kept as an edge list in insertion order; no edge appears
/// twice.
pub struct DependencyGraph {
    /// The dependency edges.
    pub edges: Vec<DependencyEdge>,
}

proof fn lemma_without_parent_subset(edges: Seq<DependencyEdge>, parent: UntypedKey)
    ensures
        forall|e: DependencyEdge| #[trigger]
            without_parent(edges, parent).contains(e) <==> edges.contains(e) && e.parent != parent,
        edges.no_duplicates() ==> without_parent(edges, parent).no_duplicates(),
    decreases edges.len(),
{
    if edges.len() > 0 {
        lemma_without_parent_subset(edges.drop_last(), parent);
        assert forall|e: DependencyEdge| #[trigger] edges.contains(e) <==> edges.drop_last().contains(
            e,
        ) || edges.last() == e by {
            if edges.contains(e) {
                let i = choose|i: int| 0 <= i < edges.len() && edges[i] == e;
                if i < edges.len() - 1 {
                    assert(edges.drop_last()[i] == e);
                }
            }
            if edges.drop_last().contains(e) {
                let i = choose|i: int| 0 <= i < edges.len() - 1 && edges.drop_last()[i] == e;
                assert(edges[i] == e);
            }
        }
        let rest = without_parent(edges.drop_last(), parent);
        assert forall|e: DependencyEdge| #[trigger] rest.push(edges.last()).contains(e) <==> rest.contains(
            e,
        ) || edges.last() == e by {
            vstd::seq_lib::lemma_seq_contains_after_push(rest, edges.last(), e);
        }
        if edges.no_duplicates() {
            assert(edges.drop_last().no_duplicates());
            assert(!edges.drop_last().contains(edges.last())) by {
                if edges.drop_last().contains(edges.last()) {
                    let i = choose|i: int|
                        0 <= i < edges.len() - 1 && edges.drop_last()[i] == edges.last();
                    assert(edges[i] == edges[edges.len() - 1]);
                }
            }
            if edges.last().parent != parent {
                let pushed = rest.push(edges.last());
                assert forall|a: int, b: int|
                    0 <= a < pushed.len() && 0 <= b < pushed.len() && a != b implies pushed[a]
                    != pushed[b] by {
                    if a < rest.len() && b < rest.len() {
                    } else if a < rest.len() {
                        assert(rest.contains(rest[a]));
                    } else {
                        assert(rest.contains(rest[b]));
                    }
                }
            }
        }
    } else {
        assert(without_parent(edges, parent) =~= Seq::<DependencyEdge>::empty());
    }
}

proof fn lemma_first_occurrences(s: Seq<UntypedKey>)
    ensures
        first_occurrences(s).no_duplicates(),
        forall|k: UntypedKey| #[trigger] first_occurrences(s).contains(k) <==> s.contains(k),
    decreases s.len(),
{
    if s.len() > 0 {
        lemma_first_occurrences(s.drop_last());
        let rest = first_occurrences(s.drop_last());
        assert forall|k: UntypedKey| #[trigger] rest.push(s.last()).contains(k) <==> rest.contains(k)
            || s.last() == k by {
            vstd::seq_lib::lemma_seq_contains_after_push(rest, s.last(), k);
        }
        if !rest.contains(s.last()) {
            let pushed = rest.push(s.last());
            assert forall|a: int, b: int|
                0 <= a < pushed.len() && 0 <= b < pushed.len() && a != b implies pushed[a]
                != pushed[b] by {
                if a < rest.len() && b < rest.len() {
                } else if a < rest.len() {
                    assert(rest.contains(rest[a]));
                } else {
                    assert(rest.contains(rest[b]));
                }
            }
        }
        assert forall|k: UntypedKey| #[trigger] s.contains(k) <==> s.drop_last().contains(k)
            || s.last() == k by {
            if s.contains(k) {
                let i = choose|i: int| 0 <= i < s.len() && s[i] == k;
                if i < s.len() - 1 {
                    assert(s.drop_last()[i] == k);
                }
            }
            if s.drop_last().contains(k) {
                let i = choose|i: int| 0 <= i < s.len() - 1 && s.drop_last()[i] == k;
                assert(s[i] == k);
            }
        }
    }
}

impl DependencyGraph {
    /// No dependency edge appears twice.
    pub open spec fn wf(&self) -> bool {
        self.edges@.no_duplicates()
    }

    /// An empty graph.
    pub fn new() -> (graph: Self)
        ensures
            graph.wf(),
            graph.edges@ == Seq::<DependencyEdge>::empty(),
    {
        DependencyGraph { edges: Vec::new() }
    }

    /// Record the dependency edges of `parent`, whose handles refer to
    /// `children` (in visit order, duplicates allowed). Earlier edges of this
    /// parent are dropped first; each child gets a single edge.
    pub fn rebuild_for(&mut self, parent: UntypedKey, children: &Vec<UntypedKey>)
        requires
            old(self).wf(),
        ensures
            final(self).wf(),
            final(self).edges@ == without_parent(old(self).edges@, parent) + edges_to(
                first_occurrences(children@),
                parent,
            ),
    {
        let mut kept: Vec<DependencyEdge> = Vec::new();
        let mut i: usize = 0;
        while i < self.edges.len()
            invariant
                i <= self.edges@.len(),
                kept@ == without_parent(self.edges@.take(i as int), parent),
            decreases self.edges@.len() - i,
        {
            let e = self.edges[i];
            assert(self.edges@.take(i + 1).drop_last() =~= self.edges@.take(i as int));
            if e.parent != parent {
                kept.push(e);
            }
            i = i + 1;
        }
        assert(self.edges@.take(self.edges@.len() as int) =~= self.edges@);
        let ghost base = kept@;
        let mut seen: Vec<UntypedKey> = Vec::new();
        let mut j: usize = 0;
        while j < children.len()
            invariant
                j <= children@.len(),
                seen@ == first_occurrences(children@.take(j as int)),
                kept@ == base + edges_to(seen@, parent),
            decreases children@.len() - j,
        {
            let c = children[j];
            assert(children@.take(j + 1).drop_last() =~= children@.take(j as int));
            let mut present = false;
            let mut k: usize = 0;
            while k < seen.len()
                invariant
                    k <= seen@.len(),
                    present == seen@.take(k as int).contains(c),
                decreases seen@.len() - k,
            {
                proof {
                    assert(seen@.take(k + 1) =~= seen@.take(k as int).push(seen@[k as int]));
                    vstd::seq_lib::lemma_seq_contains_after_push(
                        seen@.take(k as int),
                        seen@[k as int],
                        c,
                    );
                }
                if seen[k] == c {
                    present = true;
                }
                k = k + 1;
            }
            assert(seen@.take(seen@.len() as int) =~= seen@);
            if !present {
                seen.push(c);
                kept.push(DependencyEdge { child: c, parent });
                assert(edges_to(seen@, parent) =~= edges_to(seen@.drop_last(), parent).push(
                    DependencyEdge { child: c, parent },
                ));
            }
            j = j + 1;
        }
        assert(children@.take(children@.len() as int) =~= children@);
        proof {
            lemma_without_parent_subset(old(self).edges@, parent);
            lemma_first_occurrences(children@);
            let left = without_parent(old(self).edges@, parent);
            let right = edges_to(seen@, parent);
            assert forall|a: int, b: int|
                0 <= a < kept@.len() && 0 <= b < kept@.len() && a != b implies kept@[a]
                != kept@[b] by {
                if a < left.len() && b < left.len() {
                    assert(left[a] != left[b]);
                } else if a >= left.len() && b >= left.len() {
                    assert(seen@[a - left.len()] != seen@[b - left.len()]);
                } else if a < left.len() {
                    assert(left.contains(left[a]));
                    assert(left[a].parent != parent);
                } else {
                    assert(left.contains(left[b]));
                    assert(left[b].parent != parent);
                }
            }
        }
        self.edges = kept;
    }

    /// Remove every edge that involves `id`, as child or as parent.
    pub fn remove(&mut self, id: UntypedKey)
        requires
            old(self).wf(),
        ensures
            final(self).wf(),
            final(self).edges@ == without_asset(old(self).edges@, id),
    {
        let mut kept: Vec<DependencyEdge> = Vec::new();
        let mut i: usize = 0;
        let ghost keep = |e: DependencyEdge| e.parent != id && e.child != id;
        while i < self.edges.len()
            invariant
                i <= self.edges@.len(),
                kept@ == without_asset(self.edges@.take(i as int), id),
                forall|a: int, b: int|
                    0 <= a < kept@.len() && 0 <= b < kept@.len() && a != b ==> kept@[a]
                        != kept@[b],
                forall|a: int|
                    #![trigger kept@[a]]
                    0 <= a < kept@.len() ==> exists|b: int|
                        0 <= b < i && self.edges@[b] == kept@[a],
                self.wf(),
            decreases self.edges@.len() - i,
        {
            let e = self.edges[i];
            assert(self.edges@.take(i + 1).drop_last() =~= self.edges@.take(i as int));
            if e.parent != id && e.child != id {
                proof {
                    assert forall|a: int| 0 <= a < kept@.len() implies kept@[a] != e by {
                        let b = choose|b: int| 0 <= b < i && self.edges@[b] == kept@[a];
                        assert(self.edges@[b] != self.edges@[i as int]);
                    }
                }
                kept.push(e);
                proof {
                    assert forall|a: int|
                        #![trigger kept@[a]]
                        0 <= a < kept@.len() implies exists|b: int|
                        0 <= b < i + 1 && self.edges@[b] == kept@[a] by {
                        if a == kept@.len() - 1 {
                            assert(self.edges@[i as int] == kept@[a]);
                        } else {
                            let b = choose|b: int| 0 <= b < i && self.edges@[b] == kept@[a];
                            assert(self.edges@[b] == kept@[a]);
                        }
                    }
                }
            }
            i = i + 1;
        }
        assert(self.edges@.take(self.edges@.len() as int) =~= self.edges@);
        self.edges = kept;
    }

    /// All parents of `child`, in edge order.
    pub fn parents_of(&self, child: UntypedKey) -> (parents: Vec<UntypedKey>)
        ensures
            parents@ == parents_along(self.edges@, child),
    {
        let mut parents: Vec<UntypedKey> = Vec::new();
        let mut i: usize = 0;
        while i < self.edges.len()
            invariant
                i <= self.edges@.len(),
                parents@ == parents_along(self.edges@.take(i as int), child),
            decreases self.edges@.len() - i,
        {
            let e = self.edges[i];
            assert(self.edges@.take(i + 1).drop_last() =~= self.edges@.take(i as int));
            if e.child == child {
                parents.push(e.parent);
            }
            i = i + 1;
        }
        assert(self.edges@.take(self.edges@.len() as int) =~= self.edges@);
        parents
    }
}

impl Default for DependencyGraph {
    fn default() -> (graph: Self)
        ensures
            graph.wf(),
            graph.edges@ == Seq::<DependencyEdge>::empty(),
    {
        Self::new()
    }
}

/// One dependency-triggered parent refresh request.
#[derive(Clone, Copy, Debug, PartialEq, Eq, Structural)]
pub struct CascadeRequest {
    /// The parent to refresh (its type tag selects the dispatcher).
    pub parent: UntypedKey,
    /// The child whose change triggered the request.
    pub triggered_by: UntypedKey,
}

/// The requests that `child` changing sends to each of its parents.
pub open spec fn requests_for(parents: Seq<UntypedKey>, child: UntypedKey) -> Seq<CascadeRequest> {
    parents.map_values(|p: UntypedKey| CascadeRequest { parent: p, triggered_by: child })
}

/// The requests of `reqs` whose parent has type `type_tag` (`keep ==
/// true`) or another type (`keep == false`), order kept.
pub open spec fn of_type(reqs: Seq<CascadeRequest>, type_tag: u64, keep: bool) -> Seq<
    CascadeRequest,
>
    decreases reqs.len(),
{
    if reqs.len() == 0 {
        Seq::empty()
    } else {
        let rest = of_type(reqs.drop_last(), type_tag, keep);
        if (reqs.last().parent.type_tag == type_tag) == keep {
            rest.push(reqs.last())
        } else {
            rest
        }
    }
}

/// Index of the last occurrence of `key` in `keys`, or -1.
pub open spec fn key_index(keys: Seq<u128>, key: u128) -> int
    decreases keys.len(),
{
    if keys.len() == 0 {
        -1
    } else if keys.last() == key {
        keys.len() - 1
    } else {
        key_index(keys.drop_last(), key)
    }
}

/// The parent keys of `groups`, in order.
pub open spec fn group_keys(groups: Seq<(u128, Seq<UntypedKey>)>) -> Seq<u128> {
    groups.map_values(|g: (u128, Seq<UntypedKey>)| g.0)
}

proof fn lemma_key_index_bounds(keys: Seq<u128>, key: u128)
    ensures
        -1 <= key_index(keys, key) < keys.len(),
        key_index(keys, key) >= 0 ==> keys[key_index(keys, key)] == key,
    decreases keys.len(),
{
    if keys.len() > 0 {
        lemma_key_index_bounds(keys.drop_last(), key);
    }
}

/// `groups` with `trigger` added (once) to the group of parent `key`,
/// creating the group after the others when it is new.
pub open spec fn add_to_group(groups: Seq<(u128, Seq<UntypedKey>)>, key: u128, trigger: UntypedKey) -> Seq<
    (u128, Seq<UntypedKey>),
> {
    let i = key_index(group_keys(groups), key);
    if i < 0 {
        groups.push((key, seq![trigger]))
    } else if groups[i].1.contains(trigger) {
        groups
    } else {
        groups.update(i, (key, groups[i].1.push(trigger)))
    }
}

/// The requests grouped by parent key, in order of first appearance, each
/// group listing its triggering children once, in order of first
/// appearance.
pub open spec fn grouped(reqs: Seq<CascadeRequest>) -> Seq<(u128, Seq<UntypedKey>)>
    decreases reqs.len(),
{
    if reqs.len() == 0 {
        Seq::empty()
    } else {
        add_to_group(grouped(reqs.drop_last()), reqs.last().parent.key, reqs.last().triggered_by)
    }
}

/// Pending cascade requests, drained every frame by the dispatcher of each
/// parent type.
pub struct CascadeQueue {
    /// Requests pending dispatch, in arrival order.
    pub pending: Vec<CascadeRequest>,
}

/// Index of the last occurrence of `key` in `keys`, or `None`.
fn find_group(keys: &Vec<u128>, key: u128) -> (index: Option<usize>)
    ensures
        match index {
            Some(i) => i < keys@.len() && key_index(keys@, key) == i as int,
            None => key_index(keys@, key) == -1,
        },
{
    let mut i: usize = keys.len();
    assert(keys@.take(keys@.len() as int) =~= keys@);
    while i > 0
        invariant
            i <= keys@.len(),
            key_index(keys@, key) == key_index(keys@.take(i as int), key),
        decreases i,
    {
        let k = keys[i - 1];
        assert(keys@.take(i as int).drop_last() =~= keys@.take(i - 1));
        assert(keys@.take(i as int).last() == k);
        if k == key {
            return Some(i - 1);
        }
        i = i - 1;
    }
    None
}

impl CascadeQueue {
    /// An empty queue.
    pub fn new() -> (queue: Self)
        ensures
            queue.pending@ == Seq::<CascadeRequest>::empty(),
    {
        CascadeQueue { pending: Vec::new() }
    }

    /// Queue one request for each parent of `child`, in edge order.
    pub fn enqueue_parents(&mut self, graph: &DependencyGraph, child: UntypedKey)
        ensures
            final(self).pending@ == old(self).pending@ + requests_for(
                parents_along(graph.edges@, child),
                child,
            ),
    {
        let parents = graph.parents_of(child);
        let mut i: usize = 0;
        while i < parents.len()
            invariant
                i <= parents@.len(),
                self.pending@ == old(self).pending@ + requests_for(parents@.take(i as int), child),
            decreases parents@.len() - i,
        {
            self.pending.push(CascadeRequest { parent: parents[i], triggered_by: child });
            assert(requests_for(parents@.take(i + 1), child) =~= requests_for(
                parents@.take(i as int),
                child,
            ).push(CascadeRequest { parent: parents@[i as int], triggered_by: child }));
            i = i + 1;
        }
        assert(parents@.take(parents@.len() as int) =~= parents@);
    }

    /// Drain the requests whose parent has type `type_tag`, keeping the
    /// others in order, and group the drained ones by parent.
    pub fn take_for_type(&mut self, type_tag: u64) -> (groups: Vec<(u128, Vec<UntypedKey>)>)
        ensures
            final(self).pending@ == of_type(old(self).pending@, type_tag, false),
            groups@.map_values(|g: (u128, Vec<UntypedKey>)| (g.0, g.1@)) == grouped(
                of_type(old(self).pending@, type_tag, true),
            ),
    {
        let ghost all = self.pending@;
        let mut kept: Vec<CascadeRequest> = Vec::new();
        let mut keys: Vec<u128> = Vec::new();
        let mut lists: Vec<Vec<UntypedKey>> = Vec::new();
        let mut i: usize = 0;
        while i < self.pending.len()
            invariant
                all == self.pending@,
                i <= all.len(),
                kept@ == of_type(all.take(i as int), type_tag, false),
                keys@.len() == lists@.len(),
                ({
                    let g = grouped(of_type(all.take(i as int), type_tag, true));
                    &&& g.len() == keys@.len()
                    &&& forall|j: int|
                        #![trigger g[j]]
                        0 <= j < g.len() ==> g[j].0 == keys@[j] && g[j].1 == lists@[j]@
                }),
            decreases all.len() - i,
        {
            let req = self.pending[i];
            assert(all.take(i + 1).drop_last() =~= all.take(i as int));
            if req.parent.type_tag == type_tag {
                let ghost before = grouped(of_type(all.take(i as int), type_tag, true));
                let ghost after = add_to_group(before, req.parent.key, req.triggered_by);
                proof {
                    let sel = of_type(all.take(i as int), type_tag, true);
                    assert(of_type(all.take(i + 1), type_tag, true) == sel.push(req));
                    assert(sel.push(req).drop_last() =~= sel);
                    assert(grouped(sel.push(req)) == after);
                    assert(group_keys(before) =~= keys@);
                    lemma_key_index_bounds(keys@, req.parent.key);
                }
                match find_group(&keys, req.parent.key) {
                    Some(at) => {
                        let mut present = false;
                        let mut k: usize = 0;
                        while k < lists[at].len()
                            invariant
                                at < lists@.len(),
                                k <= lists@[at as int]@.len(),
                                present == lists@[at as int]@.take(k as int).contains(
                                    req.triggered_by,
                                ),
                            decreases lists@[at as int]@.len() - k,
                        {
                            proof {
                                let l = lists@[at as int]@;
                                assert(l.take(k + 1) =~= l.take(k as int).push(l[k as int]));
                                vstd::seq_lib::lemma_seq_contains_after_push(
                                    l.take(k as int),
                                    l[k as int],
                                    req.triggered_by,
                                );
                            }
                            if lists[at][k] == req.triggered_by {
                                present = true;
                            }
                            k = k + 1;
                        }
                        assert(lists@[at as int]@.take(lists@[at as int]@.len() as int)
                            =~= lists@[at as int]@);
                        if !present {
                            let mut grown: Vec<UntypedKey> = Vec::new();
                            let mut m: usize = 0;
                            while m < lists[at].len()
                                invariant
                                    at < lists@.len(),
                                    m <= lists@[at as int]@.len(),
                                    grown@ == lists@[at as int]@.take(m as int),
                                decreases lists@[at as int]@.len() - m,
                            {
                                grown.push(lists[at][m]);
                                assert(lists@[at as int]@.take(m + 1) =~= lists@[at as int]@.take(
                                    m as int,
                                ).push(lists@[at as int]@[m as int]));
                                m = m + 1;
                            }
                            assert(lists@[at as int]@.take(lists@[at as int]@.len() as int)
                                =~= lists@[at as int]@);
                            grown.push(req.triggered_by);
                            lists.set(at, grown);
                        }
                        proof {
                            assert(after.len() == keys@.len());
                            assert forall|x: int| #![trigger after[x]] 0 <= x < after.len() implies after[x].0
                                == keys@[x] && after[x].1 == lists@[x]@ by {
                                if x != at as int {
                                    assert(before[x].0 == keys@[x]);
                                }
                            }
                        }
                    },
                    None => {
                        keys.push(req.parent.key);
                        let mut fresh: Vec<UntypedKey> = Vec::new();
                        fresh.push(req.triggered_by);
                        lists.push(fresh);
                        assert(fresh@ =~= seq![req.triggered_by]);
                        proof {
                            assert forall|x: int| #![trigger after[x]] 0 <= x < after.len() implies after[x].0
                                == keys@[x] && after[x].1 == lists@[x]@ by {
                                if x < before.len() {
                                    assert(before[x].0 == keys@[x]);
                                }
                            }
                        }
                    },
                }
            } else {
                kept.push(req);
                proof {
                    let sel = of_type(all.take(i as int), type_tag, true);
                    assert(of_type(all.take(i + 1), type_tag, true) == sel);
                }
            }
            i = i + 1;
        }
        assert(all.take(all.len() as int) =~= all);
        self.pending = kept;
        let mut groups: Vec<(u128, Vec<UntypedKey>)> = Vec::new();
        let ghost g = grouped(of_type(all, type_tag, true));
        let mut lists = lists;
        let mut j: usize = keys.len();
        let mut reversed: Vec<(u128, Vec<UntypedKey>)> = Vec::new();
        while j > 0
            invariant
                j <= keys@.len(),
                keys@.len() == g.len(),
                lists@.len() == j,
                forall|x: int| #![trigger lists@[x]] 0 <= x < j ==> g[x].1 == lists@[x]@,
                forall|x: int| #![trigger g[x]] 0 <= x < g.len() ==> g[x].0 == keys@[x],
                reversed@.len() == g.len() - j,
                forall|x: int|
                    #![trigger reversed@[x]]
                    0 <= x < reversed@.len() ==> reversed@[x].0 == g[g.len() - 1 - x].0
                        && reversed@[x].1@ == g[g.len() - 1 - x].1,
            decreases j,
        {
            let list = lists.pop().unwrap();
            reversed.push((keys[j - 1], list));
            j = j - 1;
        }
        while reversed.len() > 0
            invariant
                groups@.len() + reversed@.len() == g.len(),
                forall|x: int|
                    #![trigger reversed@[x]]
                    0 <= x < reversed@.len() ==> reversed@[x].0 == g[g.len() - 1 - x].0
                        && reversed@[x].1@ == g[g.len() - 1 - x].1,
                forall|x: int|
                    #![trigger groups@[x]]
                    0 <= x < groups@.len() ==> groups@[x].0 == g[x].0 && groups@[x].1@ == g[x].1,
            decreases reversed@.len(),
        {
            let item = reversed.pop().unwrap();
            groups.push(item);
        }
        assert(groups@.map_values(|g: (u128, Vec<UntypedKey>)| (g.0, g.1@)) =~= g);
        groups
    }
}

impl Default for CascadeQueue {
    fn default() -> (queue: Self)
        ensures
            queue.pending@ == Seq::<CascadeRequest>::empty(),
    {
        Self::new()
    }
}

} // verus!
