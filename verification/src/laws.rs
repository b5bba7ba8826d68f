//! Properties of prefab resolution, stated and proved once for all
//! inputs: what a node without a prefab resolves to, that the instancing
//! node's components win over the prefab's, how name-valued references
//! are qualified across collection boundaries, and that resolved
//! component sets are ordered by type priority.
use vstd::prelude::*;

verus! {

use crate::collection::{CollView, parent_name_of};
use crate::qualified::qualify_name;
use crate::scene::{
    CompView,
    kind_entry,
    lemma_find_kind,
    lemma_kind_entry_step,
    lemma_set_comp_entries,
    lemma_sort_comps_sorted,
    lemma_sort_preserves_entries,
    lemma_sorted_unique_entries_equal,
    priority_of,
    set_comp,
    sort_comps,
    sorted_by_priority,
    unique_kinds,
};
use crate::store::{
    apply_components,
    apply_one,
    build_node_spec,
    build_prefab_spec,
    node_lookup,
    tag_children,
    total_nodes,
};

/// A name-valued component as resolution rewrites it: qualified with its
/// defining collection when that differs from the spawn target, bare
/// otherwise. Transforms carry no names and pass through unchanged.
pub open spec fn adjust_comp(c: CompView, defining: Seq<char>, qualify: bool) -> CompView {
    match c {
        CompView::Mesh(nm) => CompView::Mesh(
            if qualify {
                qualify_name(defining, nm)
            } else {
                nm
            },
        ),
        CompView::RigidBody(nm) => CompView::RigidBody(
            if qualify {
                qualify_name(defining, nm)
            } else {
                nm
            },
        ),
        CompView::Collider(nm) => CompView::Collider(
            if qualify {
                qualify_name(defining, nm)
            } else {
                nm
            },
        ),
        _ => c,
    }
}

/// Applying a node's components over an inherited base, kind by kind:
/// every non-Parent kind the node defines ends up holding the node's own
/// value, rewritten by `adjust_comp`; every other kind keeps what the
/// base held. Parent components contribute nothing during merging.
pub proof fn lemma_apply_entries(
    base: Seq<CompView>,
    comps: Seq<CompView>,
    defining: Seq<char>,
    qualify: bool,
)
    requires
        unique_kinds(base),
        unique_kinds(comps),
    ensures
        unique_kinds(apply_components(base, comps, defining, qualify)),
        forall|k: int|
            #[trigger] kind_entry(apply_components(base, comps, defining, qualify), k) == (
            if k != 1 && kind_entry(comps, k) is Some {
                Some(adjust_comp(kind_entry(comps, k)->Some_0, defining, qualify))
            } else {
                kind_entry(base, k)
            }),
    decreases comps.len(),
{
    if comps.len() == 0 {
    } else {
        let c0 = comps[0];
        let k0 = priority_of(c0);
        let rest = comps.skip(1);
        assert forall|i: int, j: int| 0 <= i < j < rest.len() implies priority_of(
            #[trigger] rest[i],
        ) != priority_of(#[trigger] rest[j]) by {
            assert(rest[i] == comps[i + 1]);
            assert(rest[j] == comps[j + 1]);
        }
        assert forall|j: int| 0 <= j < rest.len() implies priority_of(#[trigger] rest[j])
            != k0 by {
            assert(rest[j] == comps[j + 1]);
        }
        crate::scene::lemma_find_kind_none(rest, k0);
        if k0 == 1 {
            assert(apply_one(base, c0, defining, qualify) == base);
            lemma_apply_entries(base, rest, defining, qualify);
            assert forall|k: int|
                #[trigger] kind_entry(apply_components(base, comps, defining, qualify), k) == (
                if k != 1 && kind_entry(comps, k) is Some {
                    Some(adjust_comp(kind_entry(comps, k)->Some_0, defining, qualify))
                } else {
                    kind_entry(base, k)
                }) by {
                lemma_kind_entry_step(comps, k);
            }
        } else {
            let c0a = adjust_comp(c0, defining, qualify);
            assert(priority_of(c0a) == k0);
            assert(apply_one(base, c0, defining, qualify) == set_comp(base, c0a));
            let base1 = set_comp(base, c0a);
            lemma_set_comp_entries(base, c0a);
            lemma_apply_entries(base1, rest, defining, qualify);
            assert forall|k: int|
                #[trigger] kind_entry(apply_components(base, comps, defining, qualify), k) == (
                if k != 1 && kind_entry(comps, k) is Some {
                    Some(adjust_comp(kind_entry(comps, k)->Some_0, defining, qualify))
                } else {
                    kind_entry(base, k)
                }) by {
                lemma_kind_entry_step(comps, k);
                if k == k0 {
                    assert(kind_entry(rest, k0) is None);
                    assert(kind_entry(comps, k0) == Some(c0));
                }
            }
        }
    }
}

/// Override determinism: when the instancing node defines a component
/// variant, the resolved set holds the instancing node's value for that
/// variant, whatever the prefab's inherited base held for it.
pub proof fn lemma_override_deterministic(
    base: Seq<CompView>,
    comps: Seq<CompView>,
    defining: Seq<char>,
    qualify: bool,
    k: int,
)
    requires
        unique_kinds(base),
        unique_kinds(comps),
        k != 1,
        kind_entry(comps, k) is Some,
    ensures
        kind_entry(apply_components(base, comps, defining, qualify), k) == Some(
            adjust_comp(kind_entry(comps, k)->Some_0, defining, qualify),
        ),
{
    lemma_apply_entries(base, comps, defining, qualify);
}

/// The total node count is never negative.
pub proof fn lemma_total_nodes_nonneg(colls: Seq<CollView>)
    ensures
        total_nodes(colls) >= 0,
    decreases colls.len(),
{
    if colls.len() > 0 {
        lemma_total_nodes_nonneg(colls.drop_last());
    }
}

/// The total node count covers each collection's own nodes.
pub proof fn lemma_total_nodes_at_least(colls: Seq<CollView>, c: int)
    requires
        0 <= c < colls.len(),
    ensures
        total_nodes(colls) >= colls[c].nodes.len(),
    decreases colls.len(),
{
    lemma_total_nodes_nonneg(colls.drop_last());
    if c < colls.len() - 1 {
        lemma_total_nodes_at_least(colls.drop_last(), c);
        assert(colls.drop_last()[c] == colls[c]);
    }
}

/// Resolving a node without a prefab reference: the resolved set holds
/// exactly the node's own components, rewritten relative to the target
/// and re-sorted by type priority; the child list is the node's own,
/// with no inherited prefix.
pub proof fn lemma_build_node_without_prefab(colls: Seq<CollView>, name: Seq<char>, target: int)
    requires
        0 <= target < colls.len(),
        node_lookup(colls, name, target) is Ok,
        ({
            let (c, ni) = node_lookup(colls, name, target)->Ok_0;
            &&& colls[c].nodes[ni].prefab.len() == 0
            &&& unique_kinds(colls[c].nodes[ni].components)
        }),
    ensures
        build_node_spec(colls, name, target) is Ok,
        ({
            let p = build_node_spec(colls, name, target)->Ok_0;
            let (c, ni) = node_lookup(colls, name, target)->Ok_0;
            let node = colls[c].nodes[ni];
            &&& p.0.name == node.name
            &&& sorted_by_priority(p.0.components)
            &&& unique_kinds(p.0.components)
            &&& p.1 == tag_children(node.children, c as usize)
            &&& kind_entry(p.0.components, 1) == (match parent_name_of(node) {
                Some(pn) => Some(CompView::Parent(pn)),
                None => None,
            })
            &&& forall|k: int|
                k != 1 ==> #[trigger] kind_entry(p.0.components, k) == (match kind_entry(
                    node.components,
                    k,
                ) {
                    Some(e) => Some(adjust_comp(e, colls[c].name, c != target)),
                    None => None,
                })
        }),
{
    lemma_total_nodes_nonneg(colls);
    let fuel = (total_nodes(colls) + 1) as nat;
    let (c, ni) = node_lookup(colls, name, target)->Ok_0;
    let node = colls[c].nodes[ni];
    let comps = apply_components(
        Seq::<CompView>::empty(),
        node.components,
        colls[c].name,
        c != target,
    );
    assert(build_prefab_spec(colls, name, target, target, fuel) == Ok::<_, crate::errors::ErrView>(
        (comps, Seq::<(usize, usize)>::empty() + tag_children(node.children, c as usize)),
    ));
    assert(Seq::<(usize, usize)>::empty() + tag_children(node.children, c as usize)
        =~= tag_children(node.children, c as usize));
    lemma_apply_entries(Seq::<CompView>::empty(), node.components, colls[c].name, c != target);
    let with_parent = match parent_name_of(node) {
        Some(pn) => set_comp(comps, CompView::Parent(pn)),
        None => comps,
    };
    match parent_name_of(node) {
        Some(pn) => {
            lemma_set_comp_entries(comps, CompView::Parent(pn));
        },
        None => {},
    }
    lemma_sort_preserves_entries(with_parent);
    lemma_sort_comps_sorted(with_parent);
}

/// Qualified-name rewriting across one prefab step. When a node's prefab
/// lives in another collection, the components the prefab contributes
/// keep their own values but their name-valued references are rewritten
/// relative to the spawn target: qualified with the prefab's collection
/// name when that collection is not the target, bare when it is. The
/// instancing node's own components override the prefab's, and only the
/// instancing node's name and Parent component survive to the top level.
pub proof fn lemma_prefab_qualification(colls: Seq<CollView>, name: Seq<char>, target: int)
    requires
        0 <= target < colls.len(),
        node_lookup(colls, name, target) is Ok,
        ({
            let (a, ni) = node_lookup(colls, name, target)->Ok_0;
            let top = colls[a].nodes[ni];
            &&& top.prefab.len() > 0
            &&& unique_kinds(top.components)
            &&& node_lookup(colls, top.prefab, a) is Ok
            &&& {
                let (b, pi) = node_lookup(colls, top.prefab, a)->Ok_0;
                let prefab = colls[b].nodes[pi];
                &&& prefab.prefab.len() == 0
                &&& unique_kinds(prefab.components)
            }
        }),
    ensures
        build_node_spec(colls, name, target) is Ok,
        ({
            let p = build_node_spec(colls, name, target)->Ok_0;
            let (a, ni) = node_lookup(colls, name, target)->Ok_0;
            let top = colls[a].nodes[ni];
            let (b, pi) = node_lookup(colls, top.prefab, a)->Ok_0;
            let prefab = colls[b].nodes[pi];
            &&& p.0.name == top.name
            &&& sorted_by_priority(p.0.components)
            &&& unique_kinds(p.0.components)
            &&& p.1 == tag_children(prefab.children, b as usize) + tag_children(
                top.children,
                a as usize,
            )
            &&& kind_entry(p.0.components, 1) == (match parent_name_of(top) {
                Some(pn) => Some(CompView::Parent(pn)),
                None => None,
            })
            &&& forall|k: int|
                k != 1 ==> #[trigger] kind_entry(p.0.components, k) == (match kind_entry(
                    top.components,
                    k,
                ) {
                    Some(e) => Some(adjust_comp(e, colls[a].name, a != target)),
                    None => match kind_entry(prefab.components, k) {
                        Some(e) => Some(adjust_comp(e, colls[b].name, b != target)),
                        None => None,
                    },
                })
        }),
{
    let (a, ni) = node_lookup(colls, name, target)->Ok_0;
    let top = colls[a].nodes[ni];
    let (b, pi) = node_lookup(colls, top.prefab, a)->Ok_0;
    let prefab = colls[b].nodes[pi];
    crate::store::lemma_node_lookup_in_range(colls, name, target);
    crate::store::lemma_node_lookup_in_range(colls, top.prefab, a);
    lemma_total_nodes_at_least(colls, a);
    let fuel = (total_nodes(colls) + 1) as nat;
    assert(fuel >= 2);
    reveal_with_fuel(build_prefab_spec, 3);

    // The prefab level: its own components over an empty base.
    let comps_p = apply_components(
        Seq::<CompView>::empty(),
        prefab.components,
        colls[b].name,
        b != target,
    );
    assert(build_prefab_spec(colls, top.prefab, target, a, (fuel - 1) as nat) == Ok::<
        _,
        crate::errors::ErrView,
    >(
        (comps_p, Seq::<(usize, usize)>::empty() + tag_children(prefab.children, b as usize)),
    ));
    lemma_apply_entries(Seq::<CompView>::empty(), prefab.components, colls[b].name, b != target);

    // The instancing level: the node's own components over the prefab's.
    let comps_t = apply_components(comps_p, top.components, colls[a].name, a != target);
    assert(build_prefab_spec(colls, name, target, target, fuel) == Ok::<
        _,
        crate::errors::ErrView,
    >(
        (
            comps_t,
            (Seq::<(usize, usize)>::empty() + tag_children(prefab.children, b as usize))
                + tag_children(top.children, a as usize),
        ),
    ));
    assert((Seq::<(usize, usize)>::empty() + tag_children(prefab.children, b as usize))
        + tag_children(top.children, a as usize) =~= tag_children(prefab.children, b as usize)
        + tag_children(top.children, a as usize));
    lemma_apply_entries(comps_p, top.components, colls[a].name, a != target);

    let with_parent = match parent_name_of(top) {
        Some(pn) => set_comp(comps_t, CompView::Parent(pn)),
        None => comps_t,
    };
    match parent_name_of(top) {
        Some(pn) => {
            lemma_set_comp_entries(comps_t, CompView::Parent(pn));
        },
        None => {},
    }
    lemma_sort_preserves_entries(with_parent);
    lemma_sort_comps_sorted(with_parent);
}

/// Component ordering: every successfully resolved node's component set
/// is ordered by type priority, so Transform precedes Parent precedes
/// Mesh precedes RigidBody precedes Collider.
pub proof fn lemma_resolved_components_ordered(colls: Seq<CollView>, name: Seq<char>, target: int)
    ensures
        build_node_spec(colls, name, target) matches Ok(p) ==> sorted_by_priority(
            p.0.components,
        ),
{
    let fuel = (total_nodes(colls) + 1) as nat;
    match build_prefab_spec(colls, name, target, target, fuel) {
        Err(_) => {},
        Ok(pre) => {
            match node_lookup(colls, name, target) {
                Err(_) => {},
                Ok(loc) => {
                    let top = colls[loc.0].nodes[loc.1];
                    let with_parent = match parent_name_of(top) {
                        Some(pn) => set_comp(pre.0, CompView::Parent(pn)),
                        None => pre.0,
                    };
                    lemma_sort_comps_sorted(with_parent);
                },
            }
        },
    }
}


/// The sharpest form of resolving a node without a prefab, in its own
/// collection: the result is exactly the node's own component list,
/// re-sorted by type priority, and exactly its own children.
pub proof fn lemma_build_node_bare_identity(colls: Seq<CollView>, name: Seq<char>, target: int)
    requires
        0 <= target < colls.len(),
        node_lookup(colls, name, target) is Ok,
        node_lookup(colls, name, target)->Ok_0.0 == target,
        ({
            let (c, ni) = node_lookup(colls, name, target)->Ok_0;
            &&& colls[c].nodes[ni].prefab.len() == 0
            &&& unique_kinds(colls[c].nodes[ni].components)
        }),
    ensures
        build_node_spec(colls, name, target) is Ok,
        ({
            let p = build_node_spec(colls, name, target)->Ok_0;
            let (c, ni) = node_lookup(colls, name, target)->Ok_0;
            let node = colls[c].nodes[ni];
            &&& p.0.components == sort_comps(node.components)
            &&& p.1 == tag_children(node.children, c as usize)
        }),
{
    lemma_build_node_without_prefab(colls, name, target);
    let p = build_node_spec(colls, name, target)->Ok_0;
    let (c, ni) = node_lookup(colls, name, target)->Ok_0;
    let node = colls[c].nodes[ni];
    lemma_sort_preserves_entries(node.components);
    lemma_sort_comps_sorted(node.components);
    assert forall|k: int| #[trigger] kind_entry(p.0.components, k) == kind_entry(
        sort_comps(node.components),
        k,
    ) by {
        if k == 1 {
            lemma_find_kind(node.components, 1);
            match crate::scene::find_kind(node.components, 1) {
                Some(i) => {
                    match node.components[i] {
                        CompView::Parent(_) => {},
                        _ => {
                            assert(false);
                        },
                    }
                },
                None => {},
            }
        } else if 0 <= k <= 4 {
            match kind_entry(node.components, k) {
                Some(e) => {
                    assert(adjust_comp(e, colls[c].name, false) == e) by {
                        match e {
                            CompView::Mesh(_) => {},
                            CompView::RigidBody(_) => {},
                            CompView::Collider(_) => {},
                            _ => {},
                        }
                    }
                },
                None => {},
            }
        } else {
            lemma_find_kind(node.components, k);
            match crate::scene::find_kind(node.components, k) {
                Some(i) => {
                    assert(0 <= priority_of(node.components[i]) <= 4);
                },
                None => {},
            }
        }
    }
    lemma_sorted_unique_entries_equal(p.0.components, sort_comps(node.components));
}


/// Merging never creates duplicates: applying any authored component
/// list, duplicate kinds and all, over a base with unique kinds yields a
/// set with unique kinds.
pub proof fn lemma_apply_preserves_unique(
    base: Seq<CompView>,
    comps: Seq<CompView>,
    defining: Seq<char>,
    qualify: bool,
)
    requires
        unique_kinds(base),
    ensures
        unique_kinds(apply_components(base, comps, defining, qualify)),
    decreases comps.len(),
{
    if comps.len() > 0 {
        let c0 = comps[0];
        if priority_of(c0) == 1 {
            assert(apply_one(base, c0, defining, qualify) == base);
            lemma_apply_preserves_unique(base, comps.skip(1), defining, qualify);
        } else {
            let c0a = adjust_comp(c0, defining, qualify);
            assert(apply_one(base, c0, defining, qualify) == set_comp(base, c0a));
            lemma_set_comp_entries(base, c0a);
            lemma_apply_preserves_unique(set_comp(base, c0a), comps.skip(1), defining, qualify);
        }
    }
}

/// Every resolved prefab chain carries at most one component per kind,
/// whatever the authored lists held.
pub proof fn lemma_build_prefab_unique(
    colls: Seq<CollView>,
    name: Seq<char>,
    target: int,
    prefab_ctx: int,
    fuel: nat,
)
    ensures
        build_prefab_spec(colls, name, target, prefab_ctx, fuel) matches Ok(p) ==> unique_kinds(
            p.0,
        ),
    decreases fuel,
{
    if fuel > 0 {
        match node_lookup(colls, name, prefab_ctx) {
            Ok(loc) => {
                let node = colls[loc.0].nodes[loc.1];
                if node.prefab.len() > 0 {
                    lemma_build_prefab_unique(colls, node.prefab, target, loc.0, (fuel - 1) as nat);
                    match build_prefab_spec(colls, node.prefab, target, loc.0, (fuel - 1) as nat) {
                        Ok(b) => {
                            lemma_apply_preserves_unique(
                                b.0,
                                node.components,
                                colls[loc.0].name,
                                loc.0 != target,
                            );
                        },
                        Err(_) => {},
                    }
                } else {
                    assert(unique_kinds(Seq::<CompView>::empty()));
                    lemma_apply_preserves_unique(
                        Seq::<CompView>::empty(),
                        node.components,
                        colls[loc.0].name,
                        loc.0 != target,
                    );
                }
            },
            Err(_) => {},
        }
    }
}

/// Every fully resolved node carries at most one component per kind: the
/// data model's one-per-kind invariant holds of everything resolution
/// produces, whatever the authored lists held.
pub proof fn lemma_build_node_unique_kinds(colls: Seq<CollView>, name: Seq<char>, target: int)
    ensures
        build_node_spec(colls, name, target) matches Ok(p) ==> unique_kinds(p.0.components),
{
    let fuel = (total_nodes(colls) + 1) as nat;
    lemma_build_prefab_unique(colls, name, target, target, fuel);
    match build_prefab_spec(colls, name, target, target, fuel) {
        Err(_) => {},
        Ok(pre) => {
            match node_lookup(colls, name, target) {
                Err(_) => {},
                Ok(loc) => {
                    let top = colls[loc.0].nodes[loc.1];
                    let with_parent = match parent_name_of(top) {
                        Some(pn) => set_comp(pre.0, CompView::Parent(pn)),
                        None => pre.0,
                    };
                    match parent_name_of(top) {
                        Some(pn) => {
                            lemma_set_comp_entries(pre.0, CompView::Parent(pn));
                        },
                        None => {},
                    }
                    lemma_sort_preserves_entries(with_parent);
                },
            }
        },
    }
}

} // verus!
