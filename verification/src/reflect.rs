//! Discovery of asset handles inside reflected component values.
//!
//! A reflected value is handed in as a tree: each node is a registered asset
//! handle, a handle type whose reflection data is missing, or a composite
//! whose reflected children (struct and tuple fields, list, array and set
//! items, map keys and values, enum variant fields) follow in visit order.

use crate::event::UntypedKey;
use std::collections::HashSet;
use vstd::prelude::*;

verus! {

/// Default maximum depth for the recursive walk of a reflected value.
pub const DEFAULT_MAX_REFLECT_DEPTH: usize = 32;

/// One node of a reflected value.
pub enum ReflectedValue {
    /// A handle whose type carries handle reflection data.
    Handle { id: UntypedKey },
    /// A handle-typed value whose type lacks handle reflection data.
    UnregisteredHandle { type_tag: u64 },
    /// Any other value, with its reflected children in visit order (none for
    /// an opaque value).
    Composite { children: Vec<ReflectedValue> },
}

/// What a walk has found so far: the handles, the number of visited nodes
/// (staying at the maximum of `u64`), whether the depth limit stopped it,
/// and the handle types lacking reflection data.
pub type WalkFindings = (Set<UntypedKey>, nat, bool, Set<u64>);

/// The findings after visiting `value` at `depth` with limit `max`.
pub open spec fn walk(value: ReflectedValue, depth: nat, max: nat, acc: WalkFindings) -> WalkFindings
    decreases value,
{
    if depth > max {
        (acc.0, acc.1, true, acc.3)
    } else {
        let counted = (acc.0, if acc.1 < u64::MAX { acc.1 + 1 } else { acc.1 }, acc.2, acc.3);
        match value {
            ReflectedValue::Handle { id } => (counted.0.insert(id), counted.1, counted.2, counted.3),
            ReflectedValue::UnregisteredHandle { type_tag } => (
                counted.0,
                counted.1,
                counted.2,
                counted.3.insert(type_tag),
            ),
            ReflectedValue::Composite { children } => walk_items(
                children@,
                depth + 1,
                max,
                counted,
            ),
        }
    }
}

/// The findings after visiting each of `items`, in order, at `depth`.
pub open spec fn walk_items(items: Seq<ReflectedValue>, depth: nat, max: nat, acc: WalkFindings) -> WalkFindings
    decreases items,
{
    if items.len() == 0 {
        acc
    } else {
        walk(items.last(), depth, max, walk_items(items.drop_last(), depth, max, acc))
    }
}

/// Result of extracting handles from one reflected value.
pub struct ReflectHandleExtraction {
    /// The asset ids found, each once.
    pub handles: Vec<UntypedKey>,
    /// Number of reflected nodes visited, containers and leaves alike.
    pub visited_values: u64,
    /// Whether the walk stopped somewhere because the depth limit was passed.
    pub max_depth_reached: bool,
    /// Tags of handle types that lack handle reflection data.
    pub missing_handle_type_data: HashSet<u64>,
}

impl ReflectHandleExtraction {
    /// The findings this extraction holds.
    pub open spec fn findings(&self) -> WalkFindings {
        (
            self.handles@.to_set(),
            self.visited_values as nat,
            self.max_depth_reached,
            self.missing_handle_type_data@,
        )
    }
}

/// Beyond the depth limit, each item only marks the limit as reached.
proof fn lemma_items_beyond_limit(items: Seq<ReflectedValue>, depth: nat, max: nat, acc: WalkFindings)
    requires
        depth > max,
    ensures
        walk_items(items, depth, max, acc) == (acc.0, acc.1, acc.2 || items.len() > 0, acc.3),
    decreases items.len(),
{
    if items.len() > 0 {
        lemma_items_beyond_limit(items.drop_last(), depth, max, acc);
        let before = walk_items(items.drop_last(), depth, max, acc);
        assert(walk(items.last(), depth, max, before) == (before.0, before.1, true, before.3));
    } else {
        assert(walk_items(items, depth, max, acc) == acc);
    }
}

/// Append `id` to `handles` unless it is already there.
pub(crate) fn push_handle(handles: &mut Vec<UntypedKey>, id: UntypedKey)
    requires
        old(handles)@.no_duplicates(),
    ensures
        final(handles)@.no_duplicates(),
        final(handles)@.to_set() == old(handles)@.to_set().insert(id),
{
    let mut i: usize = 0;
    while i < handles.len()
        invariant
            i <= handles@.len(),
            handles@ == old(handles)@,
            handles@.no_duplicates(),
            forall|j: int| 0 <= j < i ==> handles@[j] != id,
        decreases handles@.len() - i,
    {
        if handles[i] == id {
            proof {
                assert(handles@.to_set().contains(id));
                assert(handles@.to_set().insert(id) =~= handles@.to_set());
            }
            return;
        }
        i = i + 1;
    }
    let ghost before = handles@;
    handles.push(id);
    proof {
        before.lemma_push_to_set_commute(id);
        assert(!before.contains(id));
    }
}

/// Visit `value` at `depth` under limit `max_depth`, adding to `out`.
fn visit(value: &ReflectedValue, max_depth: usize, depth: usize, out: &mut ReflectHandleExtraction)
    requires
        old(out).handles@.no_duplicates(),
    ensures
        final(out).handles@.no_duplicates(),
        final(out).findings() == walk(*value, depth as nat, max_depth as nat, old(out).findings()),
    decreases value,
{
    if depth > max_depth {
        out.max_depth_reached = true;
        return;
    }
    out.visited_values = out.visited_values.saturating_add(1);
    match value {
        ReflectedValue::Handle { id } => {
            push_handle(&mut out.handles, *id);
        },
        ReflectedValue::UnregisteredHandle { type_tag } => {
            out.missing_handle_type_data.insert(*type_tag);
        },
        ReflectedValue::Composite { children } => {
            if depth == usize::MAX {
                proof {
                    lemma_items_beyond_limit(children@, (depth + 1) as nat, max_depth as nat, out.findings());
                }
                if children.len() > 0 {
                    out.max_depth_reached = true;
                }
            } else {
                let next = depth + 1;
                let ghost start = out.findings();
                let mut i: usize = 0;
                while i < children.len()
                    invariant
                        i <= children@.len(),
                        next == depth + 1,
                        *value == (ReflectedValue::Composite { children: *children }),
                        out.handles@.no_duplicates(),
                        out.findings() == walk_items(
                            children@.take(i as int),
                            next as nat,
                            max_depth as nat,
                            start,
                        ),
                    decreases children@.len() - i,
                {
                    proof {
                        let kids = value->children;
                        assert(decreases_to!(*value => value->children));
                        assert(decreases_to!(kids => kids@));
                        assert(decreases_to!(kids@ => kids@[i as int]));
                        assert(kids@[i as int] == children@[i as int]);
                    }
                    visit(&children[i], max_depth, next, out);
                    proof {
                        assert(children@.take(i + 1).drop_last() =~= children@.take(i as int));
                        assert(children@.take(i + 1).last() == children@[i as int]);
                    }
                    i = i + 1;
                }
                assert(children@.take(children@.len() as int) =~= children@);
            }
        },
    }
}

/// Extract every registered handle from a reflected value, walking at most
/// `max_depth` levels below it.
pub fn extract_reflected_handles(value: &ReflectedValue, max_depth: usize) -> (extraction:
    ReflectHandleExtraction)
    ensures
        extraction.handles@.no_duplicates(),
        extraction.findings() == walk(
            *value,
            0,
            max_depth as nat,
            (Set::empty(), 0, false, Set::empty()),
        ),
{
    let mut extraction = ReflectHandleExtraction {
        handles: Vec::new(),
        visited_values: 0,
        max_depth_reached: false,
        missing_handle_type_data: HashSet::new(),
    };
    assert(extraction.findings() =~= (Set::<UntypedKey>::empty(), 0nat, false, Set::<u64>::empty()));
    visit(value, max_depth, 0, &mut extraction);
    extraction
}

} // verus!
