//! Scene node templates and their components.
//!
//! A component is a tagged variant: a transform, a parent reference, or a
//! named mesh, rigid-body or collider reference. A node holds at most one
//! meaningful component of each variant; setting a variant that is already
//! present overwrites the first occurrence in place. Component lists are
//! kept sorted by a fixed type priority - Transform, Parent, Mesh,
//! RigidBody, Collider - so instantiation never attaches a component before
//! the data it depends on.
use vstd::prelude::*;

verus! {

use core::cmp::Ordering;
use crate::svec::{ChildList, sv_contents};
use crate::transform::Vec2I;

/// A component of a scene node. Name-valued variants hold either a bare
/// name, resolved in the current collection, or a qualified
/// `collection/name` reference.
#[derive(Debug)]
pub enum Component {
    Transform { translation: Vec2I, rotation: i64 },
    Parent(String),
    Mesh(String),
    RigidBody(String),
    Collider(String),
}

/// The mathematical value of a component.
pub enum CompView {
    Transform { tx: int, ty: int, rot: int },
    Parent(Seq<char>),
    Mesh(Seq<char>),
    RigidBody(Seq<char>),
    Collider(Seq<char>),
}

impl View for Component {
    type V = CompView;

    open spec fn view(&self) -> CompView {
        match self {
            Component::Transform { translation, rotation } => CompView::Transform {
                tx: translation.x as int,
                ty: translation.y as int,
                rot: *rotation as int,
            },
            Component::Parent(n) => CompView::Parent(n@),
            Component::Mesh(n) => CompView::Mesh(n@),
            Component::RigidBody(n) => CompView::RigidBody(n@),
            Component::Collider(n) => CompView::Collider(n@),
        }
    }
}

impl Clone for Component {
    /// A clone has the same value as the original.
    fn clone(&self) -> (r: Self)
        ensures
            r@ == self@,
    {
        match self {
            Component::Transform { translation, rotation } => Component::Transform {
                translation: *translation,
                rotation: *rotation,
            },
            Component::Parent(n) => Component::Parent(n.clone()),
            Component::Mesh(n) => Component::Mesh(n.clone()),
            Component::RigidBody(n) => Component::RigidBody(n.clone()),
            Component::Collider(n) => Component::Collider(n.clone()),
        }
    }
}

/// The fixed type priority of a component: Transform, Parent, Mesh,
/// RigidBody, Collider, in that order.
pub open spec fn priority_of(c: CompView) -> int {
    match c {
        CompView::Transform { .. } => 0,
        CompView::Parent(_) => 1,
        CompView::Mesh(_) => 2,
        CompView::RigidBody(_) => 3,
        CompView::Collider(_) => 4,
    }
}

/// The value sequence of a component list.
pub open spec fn comps_view(s: Seq<Component>) -> Seq<CompView> {
    s.map_values(|c: Component| c@)
}

/// The first index in `s` holding a component of priority `k`, if any.
pub open spec fn find_kind(s: Seq<CompView>, k: int) -> Option<int>
    decreases s.len(),
{
    if s.len() == 0 {
        None
    } else if priority_of(s[0]) == k {
        Some(0int)
    } else {
        match find_kind(s.skip(1), k) {
            Some(i) => Some(i + 1),
            None => None,
        }
    }
}

/// What `find_kind` returns: the first index of its kind, or nothing when
/// the kind is absent.
pub proof fn lemma_find_kind(s: Seq<CompView>, k: int)
    ensures
        match find_kind(s, k) {
            Some(i) => 0 <= i < s.len() && priority_of(s[i]) == k && (forall|j: int|
                0 <= j < i ==> priority_of(s[j]) != k),
            None => forall|j: int| 0 <= j < s.len() ==> priority_of(s[j]) != k,
        },
    decreases s.len(),
{
    if s.len() > 0 && priority_of(s[0]) != k {
        lemma_find_kind(s.skip(1), k);
        match find_kind(s.skip(1), k) {
            Some(i) => {
                assert(find_kind(s, k) == Some(i + 1));
                assert(s.skip(1)[i] == s[i + 1]);
                assert forall|j: int| 0 <= j < i + 1 implies priority_of(s[j]) != k by {
                    if j > 0 {
                        assert(s.skip(1)[j - 1] == s[j]);
                    }
                }
            },
            None => {
                assert forall|j: int| 0 <= j < s.len() implies priority_of(s[j]) != k by {
                    if j > 0 {
                        assert(s.skip(1)[j - 1] == s[j]);
                    }
                }
            },
        }
    }
}

/// The first index of kind `k` is `i` exactly when `s[i]` has kind `k` and
/// nothing before it does.
pub proof fn lemma_find_kind_at(s: Seq<CompView>, k: int, i: int)
    requires
        0 <= i < s.len(),
        priority_of(s[i]) == k,
        forall|j: int| 0 <= j < i ==> priority_of(s[j]) != k,
    ensures
        find_kind(s, k) == Some(i),
    decreases i,
{
    if i > 0 {
        lemma_find_kind_at(s.skip(1), k, i - 1);
    }
}

/// No component in `s` has kind `k`.
pub proof fn lemma_find_kind_none(s: Seq<CompView>, k: int)
    requires
        forall|j: int| 0 <= j < s.len() ==> priority_of(s[j]) != k,
    ensures
        find_kind(s, k) == Option::<int>::None,
    decreases s.len(),
{
    if s.len() > 0 {
        lemma_find_kind_none(s.skip(1), k);
    }
}

/// Setting a component: the first component of the same kind is replaced
/// in place; when the kind is absent the component is appended.
pub open spec fn set_comp(s: Seq<CompView>, c: CompView) -> Seq<CompView> {
    match find_kind(s, priority_of(c)) {
        Some(i) => s.update(i, c),
        None => s.push(c),
    }
}

/// A scene node: a named template holding an optional prefab reference, an
/// ordered component list, and the indices of its child nodes, computed
/// after loading.
#[derive(Debug)]
pub struct SceneNode {
    pub name: String,
    pub prefab: String,
    pub components: Vec<Component>,
    pub children: ChildList,
}

/// The mathematical value of a scene node.
pub struct NodeView {
    pub name: Seq<char>,
    pub prefab: Seq<char>,
    pub components: Seq<CompView>,
    pub children: Seq<usize>,
}

impl View for SceneNode {
    type V = NodeView;

    open spec fn view(&self) -> NodeView {
        NodeView {
            name: self.name@,
            prefab: self.prefab@,
            components: comps_view(self.components@),
            children: sv_contents(self.children),
        }
    }
}

impl SceneNode {
    /// An empty node: no name, no prefab, no components, no children.
    pub fn empty() -> (r: SceneNode)
        ensures
            r@.name == Seq::<char>::empty(),
            r@.prefab == Seq::<char>::empty(),
            r@.components == Seq::<CompView>::empty(),
            r@.children == Seq::<usize>::empty(),
    {
        let r = SceneNode {
            name: String::new(),
            prefab: String::new(),
            components: Vec::new(),
            children: ChildList::new(),
        };
        proof {
            assert(comps_view(r.components@) =~= Seq::<CompView>::empty());
        }
        r
    }

    /// The name of the node's Parent component, when one is present: the
    /// first Parent component in the list.
    pub fn get_parent(&self) -> (r: Option<&String>)
        ensures
            r is Some <==> find_kind(self@.components, 1) is Some,
            r matches Some(name) ==> self@.components[find_kind(self@.components, 1).unwrap()]
                == CompView::Parent(name@),
    {
        let n = self.components.len();
        for i in 0..n
            invariant
                n == self.components.len(),
                forall|j: int| 0 <= j < i ==> priority_of(self@.components[j]) != 1,
        {
            if let Component::Parent(name) = &self.components[i] {
                proof {
                    lemma_find_kind_at(self@.components, 1, i as int);
                }
                return Some(name);
            }
        }
        proof {
            lemma_find_kind_none(self@.components, 1);
        }
        None
    }

    /// Sets the Parent component.
    pub fn set_parent(&mut self, parent_name: String)
        ensures
            final(self)@.components == set_comp(old(self)@.components, CompView::Parent(parent_name@)),
            final(self)@.name == old(self)@.name,
            final(self)@.prefab == old(self)@.prefab,
            final(self)@.children == old(self)@.children,
    {
        set_component(&mut self.components, Component::Parent(parent_name));
    }

    /// Sets the Transform component.
    pub fn set_transform(&mut self, new_translation: Vec2I, new_rotation: i64)
        ensures
            final(self)@.components == set_comp(
                old(self)@.components,
                CompView::Transform {
                    tx: new_translation.x as int,
                    ty: new_translation.y as int,
                    rot: new_rotation as int,
                },
            ),
            final(self)@.name == old(self)@.name,
            final(self)@.prefab == old(self)@.prefab,
            final(self)@.children == old(self)@.children,
    {
        set_component(
            &mut self.components,
            Component::Transform { translation: new_translation, rotation: new_rotation },
        );
    }

    /// Sets the Mesh component.
    pub fn set_mesh(&mut self, mesh_name: String)
        ensures
            final(self)@.components == set_comp(old(self)@.components, CompView::Mesh(mesh_name@)),
            final(self)@.name == old(self)@.name,
            final(self)@.prefab == old(self)@.prefab,
            final(self)@.children == old(self)@.children,
    {
        set_component(&mut self.components, Component::Mesh(mesh_name));
    }

    /// Sets the RigidBody component.
    pub fn set_rigid_body(&mut self, rigid_body_name: String)
        ensures
            final(self)@.components == set_comp(
                old(self)@.components,
                CompView::RigidBody(rigid_body_name@),
            ),
            final(self)@.name == old(self)@.name,
            final(self)@.prefab == old(self)@.prefab,
            final(self)@.children == old(self)@.children,
    {
        set_component(&mut self.components, Component::RigidBody(rigid_body_name));
    }

    /// Sets the Collider component.
    pub fn set_collider(&mut self, collider_name: String)
        ensures
            final(self)@.components == set_comp(
                old(self)@.components,
                CompView::Collider(collider_name@),
            ),
            final(self)@.name == old(self)@.name,
            final(self)@.prefab == old(self)@.prefab,
            final(self)@.children == old(self)@.children,
    {
        set_component(&mut self.components, Component::Collider(collider_name));
    }
}

/// The priority of a component, as executable code.
pub fn component_priority(c: &Component) -> (r: u8)
    ensures
        r as int == priority_of(c@),
{
    match c {
        Component::Transform { .. } => 0,
        Component::Parent(_) => 1,
        Component::Mesh(_) => 2,
        Component::RigidBody(_) => 3,
        Component::Collider(_) => 4,
    }
}

/// Orders two components by type priority alone; components of the same
/// variant compare equal.
pub fn compare_components(component_1: &Component, component_2: &Component) -> (r: Ordering)
    ensures
        r == Ordering::Less <==> priority_of(component_1@) < priority_of(component_2@),
        r == Ordering::Greater <==> priority_of(component_1@) > priority_of(component_2@),
        r == Ordering::Equal <==> priority_of(component_1@) == priority_of(component_2@),
{
    let priority_1 = component_priority(component_1);
    let priority_2 = component_priority(component_2);
    if priority_1 < priority_2 {
        Ordering::Less
    } else if priority_1 > priority_2 {
        Ordering::Greater
    } else {
        Ordering::Equal
    }
}

/// Replaces the first component of the same kind, or appends.
fn set_component(comps: &mut Vec<Component>, c: Component)
    ensures
        comps_view(final(comps)@) == set_comp(comps_view(old(comps)@), c@),
{
    let k = component_priority(&c);
    let n = comps.len();
    for i in 0..n
        invariant
            n == comps.len(),
            *comps == *old(comps),
            k as int == priority_of(c@),
            forall|j: int| 0 <= j < i ==> priority_of(comps_view(comps@)[j]) != k as int,
    {
        if component_priority(&comps[i]) == k {
            proof {
                lemma_find_kind_at(comps_view(comps@), k as int, i as int);
            }
            comps[i] = c;
            proof {
                assert(comps_view(comps@) =~= comps_view(old(comps)@).update(i as int, c@));
            }
            return ;
        }
    }
    proof {
        lemma_find_kind_none(comps_view(comps@), k as int);
    }
    comps.push(c);
    proof {
        assert(comps_view(comps@) =~= comps_view(old(comps)@).push(c@));
    }
}

/// The components of priority `k`, in their original order.
pub open spec fn filter_pr(s: Seq<CompView>, k: int) -> Seq<CompView> {
    s.filter(|c: CompView| priority_of(c) == k)
}

/// A stable sort of a component list by type priority: the components of
/// each priority keep their relative order, and lower priorities come
/// first.
pub open spec fn sort_comps(s: Seq<CompView>) -> Seq<CompView> {
    filter_pr(s, 0) + filter_pr(s, 1) + filter_pr(s, 2) + filter_pr(s, 3) + filter_pr(s, 4)
}

/// Whether a component list is ordered by type priority.
pub open spec fn sorted_by_priority(s: Seq<CompView>) -> bool {
    forall|i: int, j: int|
        0 <= i < j < s.len() ==> priority_of(s[i]) <= priority_of(s[j])
}

/// One filtering pass: the components of priority `k`, cloned in order.
fn filter_pass(comps: &Vec<Component>, k: u8, out: &mut Vec<Component>)
    requires
        k <= 4,
    ensures
        final(out)@.len() >= old(out)@.len(),
        comps_view(final(out)@) == comps_view(old(out)@) + filter_pr(comps_view(comps@), k as int),
{
    let n = comps.len();
    proof {
        assert(comps_view(comps@).subrange(0, 0) =~= Seq::<CompView>::empty());
        assert(Seq::<CompView>::empty().filter(|c: CompView| priority_of(c) == k as int)
            =~= Seq::<CompView>::empty());
        assert(comps_view(out@) =~= comps_view(out@) + filter_pr(
            comps_view(comps@).subrange(0, 0),
            k as int,
        ));
    }
    for i in 0..n
        invariant
            n == comps.len(),
            k <= 4,
            out@.len() >= old(out)@.len(),
            comps_view(out@) == comps_view(old(out)@) + filter_pr(
                comps_view(comps@).subrange(0, i as int),
                k as int,
            ),
    {
        proof {
            lemma_filter_pr_step(comps_view(comps@), k as int, i as int);
        }
        if component_priority(&comps[i]) == k {
            let ghost out0 = out@;
            let c = comps[i].clone();
            out.push(c);
            proof {
                assert(comps_view(out@) =~= comps_view(out0).push(comps_view(comps@)[i as int]));
                assert(comps_view(out@) =~= comps_view(old(out)@) + filter_pr(
                    comps_view(comps@).subrange(0, i as int + 1),
                    k as int,
                ));
            }
        }
    }
    proof {
        assert(comps_view(comps@).subrange(0, n as int) =~= comps_view(comps@));
    }
}

/// One step of filtering: extending the scanned prefix by one element
/// either appends that element to the filtered sequence or leaves it
/// unchanged, depending on its priority.
proof fn lemma_filter_pr_step(s: Seq<CompView>, k: int, i: int)
    requires
        0 <= i < s.len(),
    ensures
        filter_pr(s.subrange(0, i + 1), k) == if priority_of(s[i]) == k {
            filter_pr(s.subrange(0, i), k).push(s[i])
        } else {
            filter_pr(s.subrange(0, i), k)
        },
{
    let cur = s.subrange(0, i + 1);
    let pre = s.subrange(0, i);
    assert(cur.drop_last() =~= pre);
    assert(cur.last() == s[i]);
    reveal_with_fuel(Seq::<_>::filter, 2);
    assert(cur.filter(|c: CompView| priority_of(c) == k) == if priority_of(s[i]) == k {
        pre.filter(|c: CompView| priority_of(c) == k).push(s[i])
    } else {
        pre.filter(|c: CompView| priority_of(c) == k)
    });
}

/// Sorts a component list by type priority. The sort is stable: components
/// of equal priority keep their relative order.
pub fn sort_components(comps: &Vec<Component>) -> (r: Vec<Component>)
    ensures
        comps_view(r@) == sort_comps(comps_view(comps@)),
{
    let mut out: Vec<Component> = Vec::new();
    proof {
        assert(comps_view(out@) =~= Seq::<CompView>::empty());
    }
    filter_pass(comps, 0, &mut out);
    filter_pass(comps, 1, &mut out);
    filter_pass(comps, 2, &mut out);
    filter_pass(comps, 3, &mut out);
    filter_pass(comps, 4, &mut out);
    proof {
        let s = comps_view(comps@);
        assert(comps_view(out@) =~= Seq::<CompView>::empty() + filter_pr(s, 0) + filter_pr(s, 1)
            + filter_pr(s, 2) + filter_pr(s, 3) + filter_pr(s, 4));
        assert(Seq::<CompView>::empty() + filter_pr(s, 0) =~= filter_pr(s, 0));
        assert(comps_view(out@) =~= sort_comps(s));
    }
    out
}

/// After sorting, Transform precedes Parent precedes Mesh precedes
/// RigidBody precedes Collider: the sorted list is ordered by type
/// priority.
pub proof fn lemma_sort_comps_sorted(s: Seq<CompView>)
    ensures
        sorted_by_priority(sort_comps(s)),
{
    let t = sort_comps(s);
    assert forall|i: int, j: int| 0 <= i < j < t.len() implies priority_of(t[i]) <= priority_of(
        t[j],
    ) by {
        lemma_segment_priority(s, i);
        lemma_segment_priority(s, j);
    }
}

/// Every element of the sorted list drawn from the segment for priority
/// `k` has priority `k`; segment membership is monotone in the index.
proof fn lemma_segment_priority(s: Seq<CompView>, i: int)
    requires
        0 <= i < sort_comps(s).len(),
    ensures
        priority_of(sort_comps(s)[i]) == segment_of(s, i),
        0 <= segment_of(s, i) <= 4,
        forall|j: int| 0 <= j < i ==> #[trigger] segment_of(s, j) <= segment_of(s, i),
{
    let f0 = filter_pr(s, 0);
    let f1 = filter_pr(s, 1);
    let f2 = filter_pr(s, 2);
    let f3 = filter_pr(s, 3);
    let f4 = filter_pr(s, 4);
    if i < f0.len() {
        lemma_filter_pr_pred(s, 0, i);
    } else if i < f0.len() + f1.len() {
        lemma_filter_pr_pred(s, 1, i - f0.len());
    } else if i < f0.len() + f1.len() + f2.len() {
        lemma_filter_pr_pred(s, 2, i - f0.len() - f1.len());
    } else if i < f0.len() + f1.len() + f2.len() + f3.len() {
        lemma_filter_pr_pred(s, 3, i - f0.len() - f1.len() - f2.len());
    } else {
        lemma_filter_pr_pred(s, 4, i - f0.len() - f1.len() - f2.len() - f3.len());
    }
}

/// Every component the priority-`k` pass keeps has priority `k`.
proof fn lemma_filter_pr_pred(s: Seq<CompView>, k: int, i: int)
    requires
        0 <= i < filter_pr(s, k).len(),
    ensures
        priority_of(filter_pr(s, k)[i]) == k,
{
    s.lemma_filter_pred(|c: CompView| priority_of(c) == k, i);
}

/// Which priority segment of the sorted list the index `i` falls in.
pub open spec fn segment_of(s: Seq<CompView>, i: int) -> int {
    let f0 = filter_pr(s, 0);
    let f1 = filter_pr(s, 1);
    let f2 = filter_pr(s, 2);
    let f3 = filter_pr(s, 3);
    if i < f0.len() {
        0
    } else if i < f0.len() + f1.len() {
        1
    } else if i < f0.len() + f1.len() + f2.len() {
        2
    } else if i < f0.len() + f1.len() + f2.len() + f3.len() {
        3
    } else {
        4
    }
}


/// Whether a component list holds at most one component of each kind.
pub open spec fn unique_kinds(s: Seq<CompView>) -> bool {
    forall|i: int, j: int|
        0 <= i < j < s.len() ==> priority_of(#[trigger] s[i]) != priority_of(#[trigger] s[j])
}

/// The component of kind `k` a list holds, when it holds one: the first,
/// which under `unique_kinds` is the only one.
pub open spec fn kind_entry(s: Seq<CompView>, k: int) -> Option<CompView> {
    match find_kind(s, k) {
        Some(i) => Some(s[i]),
        None => None,
    }
}

/// Peeling the head off a kind lookup.
pub proof fn lemma_kind_entry_step(s: Seq<CompView>, k: int)
    requires
        s.len() > 0,
    ensures
        kind_entry(s, k) == (if priority_of(s[0]) == k {
            Some(s[0])
        } else {
            kind_entry(s.skip(1), k)
        }),
{
    if priority_of(s[0]) != k {
        lemma_find_kind(s.skip(1), k);
        match find_kind(s.skip(1), k) {
            Some(i) => {
                assert(find_kind(s, k) == Some(i + 1));
                assert(s[i + 1] == s.skip(1)[i]);
            },
            None => {},
        }
    }
}

/// What setting a component does to each kind: the set kind now holds
/// exactly the new component, every other kind is untouched, and
/// uniqueness of kinds is preserved.
pub proof fn lemma_set_comp_entries(s: Seq<CompView>, c: CompView)
    requires
        unique_kinds(s),
    ensures
        unique_kinds(set_comp(s, c)),
        kind_entry(set_comp(s, c), priority_of(c)) == Some(c),
        forall|k: int|
            k != priority_of(c) ==> #[trigger] kind_entry(set_comp(s, c), k) == kind_entry(s, k),
{
    let pc = priority_of(c);
    let r = set_comp(s, c);
    lemma_find_kind(s, pc);
    match find_kind(s, pc) {
        Some(i) => {
            assert(r == s.update(i, c));
            lemma_find_kind_at(r, pc, i);
            assert(kind_entry(r, pc) == Some(c));
            assert forall|k: int| k != pc implies #[trigger] kind_entry(r, k) == kind_entry(
                s,
                k,
            ) by {
                lemma_find_kind(s, k);
                match find_kind(s, k) {
                    Some(m) => {
                        assert(m != i);
                        assert(r[m] == s[m]);
                        lemma_find_kind_at(r, k, m);
                    },
                    None => {
                        lemma_find_kind_none(r, k);
                    },
                }
            }
        },
        None => {
            assert(r == s.push(c));
            lemma_find_kind(s, pc);
            lemma_find_kind_at(r, pc, s.len() as int);
            assert(kind_entry(r, pc) == Some(c));
            assert forall|k: int| k != pc implies #[trigger] kind_entry(r, k) == kind_entry(
                s,
                k,
            ) by {
                lemma_find_kind(s, k);
                match find_kind(s, k) {
                    Some(m) => {
                        assert(r[m] == s[m]);
                        lemma_find_kind_at(r, k, m);
                    },
                    None => {
                        lemma_find_kind_none(r, k);
                    },
                }
            }
        },
    }
}

/// In a list with unique kinds, filtering for a kind leaves exactly its
/// entry, or nothing.
pub proof fn lemma_unique_filter(s: Seq<CompView>, k: int)
    requires
        unique_kinds(s),
    ensures
        filter_pr(s, k) == (match kind_entry(s, k) {
            Some(e) => seq![e],
            None => Seq::<CompView>::empty(),
        }),
    decreases s.len(),
{
    reveal_with_fuel(Seq::<_>::filter, 2);
    if s.len() == 0 {
        assert(filter_pr(s, k) =~= Seq::<CompView>::empty());
        lemma_find_kind_none(s, k);
    } else {
        let d = s.drop_last();
        assert(unique_kinds(d));
        lemma_unique_filter(d, k);
        lemma_find_kind(s, k);
        lemma_find_kind(d, k);
        assert forall|j: int| 0 <= j < d.len() implies d[j] == s[j] by {}
        if priority_of(s.last()) == k {
            assert forall|j: int| 0 <= j < s.len() - 1 implies priority_of(s[j]) != k by {}
            lemma_find_kind_at(s, k, s.len() - 1);
            lemma_find_kind_none(d, k);
            assert(filter_pr(s, k) =~= seq![s.last()]);
        } else {
            assert(filter_pr(s, k) == filter_pr(d, k));
            match find_kind(d, k) {
                Some(m) => {
                    lemma_find_kind_at(s, k, m);
                },
                None => {
                    lemma_find_kind_none(s, k);
                },
            }
        }
    }
}

/// Sorting by priority neither adds nor loses nor reorders what each
/// kind holds: under unique kinds, each kind's entry is untouched, and
/// uniqueness survives.
pub proof fn lemma_sort_preserves_entries(s: Seq<CompView>)
    requires
        unique_kinds(s),
    ensures
        unique_kinds(sort_comps(s)),
        forall|k: int| 0 <= k <= 4 ==> #[trigger] kind_entry(sort_comps(s), k) == kind_entry(s, k),
        forall|k: int|
            !(0 <= k <= 4) ==> #[trigger] kind_entry(sort_comps(s), k) is None && kind_entry(
                s,
                k,
            ) is None,
{
    let t = sort_comps(s);
    assert forall|i: int, j: int| 0 <= i < j < t.len() implies priority_of(#[trigger] t[i])
        != priority_of(#[trigger] t[j]) by {
        lemma_segment_entries(s, i);
        lemma_segment_entries(s, j);
        if segment_of(s, i) == segment_of(s, j) {
            let k = segment_of(s, i);
            lemma_unique_filter(s, k);
        }
    }
    assert forall|k: int| 0 <= k <= 4 implies #[trigger] kind_entry(t, k) == kind_entry(s, k) by {
        lemma_kind_entry_sorted(s, k);
    }
    assert forall|k: int| !(0 <= k <= 4) implies #[trigger] kind_entry(t, k) is None
        && kind_entry(s, k) is None by {
        lemma_find_kind(t, k);
        lemma_find_kind(s, k);
        match find_kind(t, k) {
            Some(i) => {
                lemma_segment_entries(s, i);
            },
            None => {},
        }
        match find_kind(s, k) {
            Some(i) => {
                assert(0 <= priority_of(s[i]) <= 4);
            },
            None => {},
        }
    }
}

/// The sorted list's entry for one in-range kind equals the unsorted
/// list's entry.
proof fn lemma_kind_entry_sorted(s: Seq<CompView>, k: int)
    requires
        unique_kinds(s),
        0 <= k <= 4,
    ensures
        kind_entry(sort_comps(s), k) == kind_entry(s, k),
{
    let t = sort_comps(s);
    lemma_unique_filter(s, k);
    match kind_entry(s, k) {
        Some(e) => {
            // The kind's segment of the sorted list is exactly [e]; its
            // first index in the whole sorted list is the segment start.
            let f0 = filter_pr(s, 0);
            let f1 = filter_pr(s, 1);
            let f2 = filter_pr(s, 2);
            let f3 = filter_pr(s, 3);
            let f4 = filter_pr(s, 4);
            let start: int = if k == 0 {
                0
            } else if k == 1 {
                f0.len() as int
            } else if k == 2 {
                f0.len() + f1.len() as int
            } else if k == 3 {
                f0.len() + f1.len() + f2.len() as int
            } else {
                f0.len() + f1.len() + f2.len() + f3.len() as int
            };
            assert(t[start] == e);
            assert forall|j: int| 0 <= j < start implies priority_of(t[j]) != k by {
                lemma_segment_entries(s, j);
            }
            lemma_find_kind_at(t, k, start);
        },
        None => {
            assert forall|j: int| 0 <= j < t.len() implies priority_of(t[j]) != k by {
                lemma_segment_entries(s, j);
                if segment_of(s, j) == k {
                    lemma_unique_filter(s, k);
                }
            }
            lemma_find_kind_none(t, k);
        },
    }
}

/// The element at index `i` of the sorted list comes from its segment's
/// filter, and has that segment's priority.
proof fn lemma_segment_entries(s: Seq<CompView>, i: int)
    requires
        0 <= i < sort_comps(s).len(),
    ensures
        priority_of(sort_comps(s)[i]) == segment_of(s, i),
        0 <= segment_of(s, i) <= 4,
        forall|j: int| 0 <= j < i ==> #[trigger] segment_of(s, j) <= segment_of(s, i),
{
    lemma_segment_priority(s, i);
}


/// Two component lists that are sorted by priority, hold at most one
/// component per kind, and agree on what every kind holds, are the same
/// list.
pub proof fn lemma_sorted_unique_entries_equal(a: Seq<CompView>, b: Seq<CompView>)
    requires
        sorted_by_priority(a),
        sorted_by_priority(b),
        unique_kinds(a),
        unique_kinds(b),
        forall|k: int| #[trigger] kind_entry(a, k) == kind_entry(b, k),
    ensures
        a == b,
    decreases a.len(),
{
    if a.len() == 0 {
        if b.len() > 0 {
            assert(kind_entry(b, priority_of(b[0])) == Some(b[0]));
            lemma_find_kind_none(a, priority_of(b[0]));
            assert(kind_entry(a, priority_of(b[0])) is None);
        }
        assert(a =~= b);
    } else {
        let k0 = priority_of(a[0]);
        assert(kind_entry(a, k0) == Some(a[0]));
        assert(b.len() > 0) by {
            if b.len() == 0 {
                lemma_find_kind_none(b, k0);
            }
        }
        let k1 = priority_of(b[0]);
        assert(kind_entry(b, k1) == Some(b[0]));
        // The heads carry each list's least kind, so the kinds agree.
        lemma_find_kind(a, k1);
        match find_kind(a, k1) {
            Some(i) => {
                assert(k0 <= k1);
            },
            None => {
                assert(kind_entry(a, k1) is None);
            },
        }
        lemma_find_kind(b, k0);
        match find_kind(b, k0) {
            Some(i) => {
                assert(k1 <= k0);
            },
            None => {
                assert(kind_entry(b, k0) is None);
            },
        }
        assert(k0 == k1);
        assert(b[0] == a[0]);
        // Strip the equal heads and recurse.
        let at = a.skip(1);
        let bt = b.skip(1);
        assert forall|i: int, j: int| 0 <= i < j < at.len() implies priority_of(
            #[trigger] at[i],
        ) != priority_of(#[trigger] at[j]) by {
            assert(at[i] == a[i + 1]);
            assert(at[j] == a[j + 1]);
        }
        assert forall|i: int, j: int| 0 <= i < j < bt.len() implies priority_of(
            #[trigger] bt[i],
        ) != priority_of(#[trigger] bt[j]) by {
            assert(bt[i] == b[i + 1]);
            assert(bt[j] == b[j + 1]);
        }
        assert forall|i: int, j: int| 0 <= i < j < at.len() implies priority_of(at[i])
            <= priority_of(at[j]) by {
            assert(at[i] == a[i + 1]);
            assert(at[j] == a[j + 1]);
        }
        assert forall|i: int, j: int| 0 <= i < j < bt.len() implies priority_of(bt[i])
            <= priority_of(bt[j]) by {
            assert(bt[i] == b[i + 1]);
            assert(bt[j] == b[j + 1]);
        }
        assert forall|k: int| #[trigger] kind_entry(at, k) == kind_entry(bt, k) by {
            lemma_kind_entry_step(a, k);
            lemma_kind_entry_step(b, k);
            if k == k0 {
                assert forall|j: int| 0 <= j < at.len() implies priority_of(
                    #[trigger] at[j],
                ) != k0 by {
                    assert(at[j] == a[j + 1]);
                }
                assert forall|j: int| 0 <= j < bt.len() implies priority_of(
                    #[trigger] bt[j],
                ) != k0 by {
                    assert(bt[j] == b[j + 1]);
                }
                lemma_find_kind_none(at, k0);
                lemma_find_kind_none(bt, k0);
            }
        }
        lemma_sorted_unique_entries_equal(at, bt);
        assert forall|i: int| 0 <= i < a.len() implies a[i] == b[i] by {
            if i > 0 {
                assert(a[i] == at[i - 1]);
                assert(b[i] == bt[i - 1]);
            }
        }
        assert(a =~= b);
    }
}

} // verus!
