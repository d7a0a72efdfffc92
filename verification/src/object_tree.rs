use vstd::prelude::*;
use crate::expression_tree::Expression;
use crate::expression_tree::object_field_ty;
use crate::ident::str_eq;
use crate::langtype::Ty;
use crate::langtype::TyM;
use crate::langtype::clone_ty;
use crate::langtype::pairs_vec_view;
use crate::langtype::lemma_pairs_seq_view;

verus! {

broadcast use vstd::std_specs::vec::group_vec_axioms;

/// The repeater metadata of a `for`/`if` element: the model expression
/// and the two identifiers it brings into the body's scope.
pub struct RepeatedElementInfo {
    /// The model binding; unresolved before the pass, resolved after.
    pub model: Expression,
    /// The name bound to the repetition index inside the body.
    pub index_id: String,
    /// The name bound to the model data inside the body.
    pub model_data_id: String,
}

/// One node of a component's element tree.  Elements live in the
/// document's arena and refer to each other by index; children always
/// have a larger index than their parent, which keeps the tree acyclic.
pub struct Element {
    /// The `id:` of the element, empty when it has none.
    pub id: String,
    /// The element's base: a component handle, or `Void` for the root of
    /// a global singleton.
    pub base_type: Ty,
    /// Handle of the component this element belongs to.
    pub enclosing_component: usize,
    /// Every property, callback and member function reachable on this
    /// element, each with its type.
    pub properties: Vec<(String, Ty)>,
    /// The property bindings, in declaration order.
    pub bindings: Vec<(String, Expression)>,
    /// Repeater metadata when this element is the root of a repetition.
    pub repeated: Option<RepeatedElementInfo>,
    /// Child elements, by arena handle.
    pub children: Vec<usize>,
}

/// A named, reusable definition with a root element.
pub struct Component {
    pub id: String,
    pub root_element: usize,
    pub is_global: bool,
}

/// Read-only lookup table for global singletons and named types.
pub struct TypeRegister {
    pub entries: Vec<(String, Ty)>,
}

impl TypeRegister {
    pub fn new() -> (r: TypeRegister)
        ensures
            r.entries@.len() == 0,
    {
        TypeRegister { entries: Vec::new() }
    }

    /// Register a name; later entries shadow earlier ones are not
    /// allowed, the first match wins.
    pub fn add(&mut self, name: String, ty: Ty)
        ensures
            final(self).entries@ == old(self).entries@.push((name, ty)),
    {
        self.entries.push((name, ty));
    }

    /// Look a name up; unknown names have the `Invalid` type.
    pub fn lookup(&self, name: &str) -> (r: Ty)
        ensures
            r@ == object_field_ty(pairs_vec_view(self.entries), name@),
    {
        crate::expression_tree::field_ty_lookup(&self.entries, name)
    }
}

/// A compilation unit: the element arena, the components defined in it,
/// and its type registry.
pub struct Document {
    pub elements: Vec<Element>,
    pub components: Vec<Component>,
    pub local_registry: TypeRegister,
}

/// Arena invariants of one element: its component handle is valid and
/// its children sit strictly after it in the arena.
pub open spec fn elem_ok(d: Document, i: int) -> bool {
    &&& d.elements[i].enclosing_component < d.components.len()
    &&& forall|k: int|
        0 <= k < d.elements[i].children.len() ==> i < #[trigger] d.elements[i].children[k]
            < d.elements.len()
}

/// A well-formed document: all handles in range, every child after its
/// parent, so the element graph is a forest.
pub open spec fn doc_wf(d: Document) -> bool {
    &&& forall|i: int| 0 <= i < d.elements.len() ==> #[trigger] elem_ok(d, i)
    &&& forall|c: int|
        0 <= c < d.components.len() ==> #[trigger] d.components[c].root_element
            < d.elements.len()
}

/// Decide the arena invariants at run time, for callers that assemble a
/// document by hand.
#[verifier::loop_isolation(false)]
pub fn check_document(d: &Document) -> (r: bool)
    ensures
        r == doc_wf(*d),
{
    let ne: usize = d.elements.len();
    let nc: usize = d.components.len();
    let mut i: usize = 0;
    while i < ne
        invariant
            i <= ne,
            ne == d.elements.len(),
            nc == d.components.len(),
            forall|j: int| 0 <= j < i ==> #[trigger] elem_ok(*d, j),
        decreases ne - i,
    {
        if d.elements[i].enclosing_component >= nc {
            proof {
                assert(!elem_ok(*d, i as int));
            }
            return false;
        }
        let nk: usize = d.elements[i].children.len();
        let mut k: usize = 0;
        while k < nk
            invariant
                i < ne,
                k <= nk,
                nk == d.elements[i as int].children.len(),
                forall|m: int|
                    0 <= m < k ==> i < #[trigger] d.elements[i as int].children[m]
                        < d.elements.len(),
            decreases nk - k,
        {
            let c = d.elements[i].children[k];
            if c <= i || c >= ne {
                proof {
                    assert(!elem_ok(*d, i as int));
                }
                return false;
            }
            k += 1;
        }
        proof {
            assert(elem_ok(*d, i as int));
        }
        i += 1;
    }
    let mut c: usize = 0;
    while c < nc
        invariant
            c <= nc,
            nc == d.components.len(),
            forall|j: int| 0 <= j < c ==> #[trigger] d.components[j].root_element < d.elements.len(),
            forall|j: int| 0 <= j < d.elements.len() ==> #[trigger] elem_ok(*d, j),
        decreases nc - c,
    {
        if d.components[c].root_element >= ne {
            return false;
        }
        c += 1;
    }
    true
}

/// The type of the named property on an element; `Invalid` when the
/// element has no such property.
pub open spec fn spec_lookup_property(d: Document, e: int, name: Seq<char>) -> TyM {
    object_field_ty(pairs_vec_view(d.elements[e].properties), name)
}

/// Look a property, callback or member function up on one element.
pub fn lookup_property(d: &Document, e: usize, name: &str) -> (r: Ty)
    requires
        e < d.elements@.len(),
    ensures
        r@ == spec_lookup_property(*d, e as int, name@),
{
    crate::expression_tree::field_ty_lookup(&d.elements[e].properties, name)
}

/// Where `find_element_by_id` looks inside one subtree: the root's own
/// id first, then each child's subtree in order, never entering a
/// repeated child.
pub open spec fn subtree_find(d: Document, root: int, name: Seq<char>) -> Option<int>
    decreases d.elements.len() - root, d.elements[root].children.len() + 1,
        when doc_wf(d) && 0 <= root < d.elements.len()
{
    if d.elements[root].id@ == name {
        Some(root)
    } else {
        children_find(d, root, 0, name)
    }
}

/// Search the subtrees of `d.elements[root].children[k..]`.
pub open spec fn children_find(d: Document, root: int, k: int, name: Seq<char>) -> Option<int>
    decreases d.elements.len() - root, d.elements[root].children.len() - k,
        when doc_wf(d) && 0 <= root < d.elements.len() && 0 <= k
        via children_find_decreases
{
    if k >= d.elements[root].children.len() {
        None
    } else {
        let c = d.elements[root].children[k] as int;
        if d.elements[c].repeated is Some {
            children_find(d, root, k + 1, name)
        } else {
            match subtree_find(d, c, name) {
                Some(found) => Some(found),
                None => children_find(d, root, k + 1, name),
            }
        }
    }
}

#[via_fn]
proof fn children_find_decreases(d: Document, root: int, k: int, name: Seq<char>) {
    assert(elem_ok(d, root));
}

/// Where `find_element_by_id` looks over a scope stack: innermost scope
/// first, each scope searched as one subtree.
pub open spec fn scopes_find(d: Document, scopes: Seq<usize>, name: Seq<char>) -> Option<int>
    decreases scopes.len(),
{
    if scopes.len() == 0 {
        None
    } else {
        match subtree_find(d, scopes.last() as int, name) {
            Some(found) => Some(found),
            None => scopes_find(d, scopes.drop_last(), name),
        }
    }
}

/// All entries of a scope stack are valid element handles.
pub open spec fn scopes_ok(d: Document, scopes: Seq<usize>) -> bool {
    forall|i: int| 0 <= i < scopes.len() ==> #[trigger] scopes[i] < d.elements.len()
}

/// Search one subtree for an element with the given id.
#[verifier::loop_isolation(false)]
fn find_in_subtree(d: &Document, root: usize, name: &str) -> (r: Option<usize>)
    requires
        doc_wf(*d),
        root < d.elements@.len(),
    ensures
        match r {
            Some(i) => subtree_find(*d, root as int, name@) == Some(i as int),
            None => subtree_find(*d, root as int, name@) is None,
        },
    decreases d.elements@.len() - root,
{
    if str_eq(d.elements[root].id.as_str(), name) {
        return Some(root);
    }
    let nk: usize = d.elements[root].children.len();
    let mut k: usize = 0;
    while k < nk
        invariant
            k <= nk,
            children_find(*d, root as int, 0, name@) == children_find(
                *d,
                root as int,
                k as int,
                name@,
            ),
        decreases nk - k,
    {
        proof {
            assert(elem_ok(*d, root as int));
        }
        let c = d.elements[root].children[k];
        let skip = match &d.elements[c].repeated {
            Option::Some(_) => true,
            Option::None => false,
        };
        if !skip {
            match find_in_subtree(d, c, name) {
                Option::Some(found) => {
                    proof {
                        assert(children_find(*d, root as int, k as int, name@) == Some(
                            found as int,
                        ));
                    }
                    return Some(found);
                },
                Option::None => {},
            }
        }
        proof {
            assert(children_find(*d, root as int, k as int, name@) == children_find(
                *d,
                root as int,
                k + 1 as int,
                name@,
            ));
        }
        k += 1;
    }
    None
}

/// Find the element a (normalized) identifier names, searching the scope
/// stack innermost-first; inside each scope the subtree is walked depth
/// first, without entering repeated children.
#[verifier::loop_isolation(false)]
pub fn find_element_by_id(d: &Document, scopes: &Vec<usize>, name: &str) -> (r: Option<usize>)
    requires
        doc_wf(*d),
        scopes_ok(*d, scopes@),
    ensures
        match r {
            Some(i) => scopes_find(*d, scopes@, name@) == Some(i as int) && i < d.elements@.len(),
            None => scopes_find(*d, scopes@, name@) is None,
        },
{
    let n: usize = scopes.len();
    proof {
        assert(scopes@.subrange(0, n as int) =~= scopes@);
    }
    let mut k: usize = n;
    while k > 0
        invariant
            k <= n,
            scopes_find(*d, scopes@, name@) == scopes_find(*d, scopes@.subrange(0, k as int), name@),
        decreases k,
    {
        k -= 1;
        let root = scopes[k];
        proof {
            assert(scopes@.subrange(0, k + 1 as int).last() == scopes@[k as int]);
            assert(scopes@.subrange(0, k + 1 as int).drop_last() =~= scopes@.subrange(0, k as int));
        }
        match find_in_subtree(d, root, name) {
            Option::Some(found) => {
                proof {
                    lemma_subtree_find_in_range(*d, root as int, name@);
                }
                return Some(found);
            },
            Option::None => {},
        }
    }
    proof {
        assert(scopes@.subrange(0, 0) =~= Seq::<usize>::empty());
    }
    None
}

/// Whatever the subtree search returns is a valid element handle.
pub proof fn lemma_subtree_find_in_range(d: Document, root: int, name: Seq<char>)
    requires
        doc_wf(d),
        0 <= root < d.elements.len(),
    ensures
        match subtree_find(d, root, name) {
            Some(i) => 0 <= i < d.elements.len(),
            None => true,
        },
    decreases d.elements.len() - root, d.elements[root].children.len() + 1,
{
    if d.elements[root].id@ != name {
        lemma_children_find_in_range(d, root, 0, name);
    }
}

pub proof fn lemma_children_find_in_range(d: Document, root: int, k: int, name: Seq<char>)
    requires
        doc_wf(d),
        0 <= root < d.elements.len(),
        0 <= k,
    ensures
        match children_find(d, root, k, name) {
            Some(i) => 0 <= i < d.elements.len(),
            None => true,
        },
    decreases d.elements.len() - root, d.elements[root].children.len() - k,
{
    if k < d.elements[root].children.len() {
        assert(elem_ok(d, root));
        let c = d.elements[root].children[k] as int;
        if d.elements[c].repeated is Some {
            lemma_children_find_in_range(d, root, k + 1, name);
        } else {
            lemma_subtree_find_in_range(d, c, name);
            lemma_children_find_in_range(d, root, k + 1, name);
        }
    }
}

/// Where the parent search looks: walk down from `base` and return the
/// element whose child list holds `e`.
pub open spec fn parent_search(d: Document, base: int, e: int) -> Option<int>
    decreases d.elements.len() - base, d.elements[base].children.len() + 1,
        when doc_wf(d) && 0 <= base < d.elements.len()
{
    parent_search_from(d, base, 0, e)
}

pub open spec fn parent_search_from(d: Document, base: int, k: int, e: int) -> Option<int>
    decreases d.elements.len() - base, d.elements[base].children.len() - k,
        when doc_wf(d) && 0 <= base < d.elements.len() && 0 <= k
        via parent_search_from_decreases
{
    if k >= d.elements[base].children.len() {
        None
    } else {
        let c = d.elements[base].children[k] as int;
        if c == e {
            Some(base)
        } else {
            match parent_search(d, c, e) {
                Some(p) => Some(p),
                None => parent_search_from(d, base, k + 1, e),
            }
        }
    }
}

#[via_fn]
proof fn parent_search_from_decreases(d: Document, base: int, k: int, e: int) {
    assert(elem_ok(d, base));
}

/// What `find_parent_element` returns: nothing for the component root,
/// else the parent found by an exhaustive top-down search from the root
/// of the element's enclosing component.
pub open spec fn spec_find_parent(d: Document, e: int) -> Option<int> {
    let root = d.components[d.elements[e].enclosing_component as int].root_element as int;
    if root == e {
        None
    } else {
        parent_search(d, root, e)
    }
}

#[verifier::loop_isolation(false)]
fn parent_search_exec(d: &Document, base: usize, e: usize) -> (r: Option<usize>)
    requires
        doc_wf(*d),
        base < d.elements@.len(),
    ensures
        match r {
            Some(p) => parent_search(*d, base as int, e as int) == Some(p as int) && p
                < d.elements@.len(),
            None => parent_search(*d, base as int, e as int) is None,
        },
    decreases d.elements@.len() - base,
{
    let nk: usize = d.elements[base].children.len();
    let mut k: usize = 0;
    while k < nk
        invariant
            k <= nk,
            parent_search(*d, base as int, e as int) == parent_search_from(
                *d,
                base as int,
                k as int,
                e as int,
            ),
        decreases nk - k,
    {
        proof {
            assert(elem_ok(*d, base as int));
        }
        let c = d.elements[base].children[k];
        if c == e {
            return Some(base);
        }
        match parent_search_exec(d, c, e) {
            Option::Some(p) => {
                proof {
                    assert(parent_search_from(*d, base as int, k as int, e as int) == Some(
                        p as int,
                    ));
                }
                return Some(p);
            },
            Option::None => {},
        }
        proof {
            assert(parent_search_from(*d, base as int, k as int, e as int) == parent_search_from(
                *d,
                base as int,
                k + 1 as int,
                e as int,
            ));
        }
        k += 1;
    }
    None
}

/// Find the parent of an element.  No parent edge is stored, so this is
/// an exhaustive search from the enclosing component's root; the root
/// itself has no parent.
pub fn find_parent_element(d: &Document, e: usize) -> (r: Option<usize>)
    requires
        doc_wf(*d),
        e < d.elements@.len(),
    ensures
        match r {
            Some(p) => spec_find_parent(*d, e as int) == Some(p as int) && p < d.elements@.len(),
            None => spec_find_parent(*d, e as int) is None,
        },
{
    let cid = d.elements[e].enclosing_component;
    proof {
        assert(elem_ok(*d, e as int));
    }
    let root = d.components[cid].root_element;
    if root == e {
        return None;
    }
    parent_search_exec(d, root, e)
}


impl Document {
    /// An empty document: no elements, no components, empty registry.
    pub fn new() -> (r: Document)
        ensures
            doc_wf(r),
            r.elements@.len() == 0,
            r.components@.len() == 0,
            r.local_registry.entries@.len() == 0,
    {
        Document {
            elements: Vec::new(),
            components: Vec::new(),
            local_registry: TypeRegister::new(),
        }
    }

    /// Add a component together with its fresh root element; the new
    /// component and element handles are returned.
    pub fn add_component(&mut self, id: String, is_global: bool) -> (r: (usize, usize))
        requires
            doc_wf(*old(self)),
        ensures
            doc_wf(*final(self)),
            r.0 == old(self).components@.len(),
            r.1 == old(self).elements@.len(),
            final(self).components@.len() == old(self).components@.len() + 1,
            final(self).elements@.len() == old(self).elements@.len() + 1,
            final(self).elements@.subrange(0, old(self).elements@.len() as int) == old(
                self,
            ).elements@,
            final(self).components@.subrange(0, old(self).components@.len() as int) == old(
                self,
            ).components@,
            final(self).local_registry == old(self).local_registry,
    {
        let cid = self.components.len();
        let eid = self.elements.len();
        let root = Element {
            id: String::new(),
            base_type: if is_global {
                Ty::Void
            } else {
                Ty::Component(cid)
            },
            enclosing_component: cid,
            properties: Vec::new(),
            bindings: Vec::new(),
            repeated: Option::None,
            children: Vec::new(),
        };
        self.elements.push(root);
        self.components.push(Component { id, root_element: eid, is_global });
        proof {
            assert forall|i: int|
                0 <= i < self.elements.len() implies #[trigger] elem_ok(*self, i) by {
                if i < old(self).elements@.len() {
                    assert(elem_ok(*old(self), i));
                }
            }
            assert(final(self).elements@.subrange(0, old(self).elements@.len() as int)
                =~= old(self).elements@);
            assert(final(self).components@.subrange(0, old(self).components@.len() as int)
                =~= old(self).components@);
        }
        (cid, eid)
    }

    /// Add a child element under `parent`; the new handle is returned.
    /// Children always get larger handles than their parent, which is
    /// what keeps the arena a forest.
    pub fn add_element(&mut self, parent: usize, id: String) -> (eid: usize)
        requires
            doc_wf(*old(self)),
            parent < old(self).elements@.len(),
        ensures
            doc_wf(*final(self)),
            eid == old(self).elements@.len(),
            final(self).elements@.len() == old(self).elements@.len() + 1,
            final(self).elements@[eid as int].id == id,
            final(self).elements@[eid as int].enclosing_component == old(self).elements@[
                parent as int
            ].enclosing_component,
            final(self).elements@[eid as int].properties@.len() == 0,
            final(self).elements@[eid as int].bindings@.len() == 0,
            final(self).elements@[eid as int].repeated is None,
            final(self).elements@[eid as int].children@.len() == 0,
            final(self).elements@[parent as int].children@ == old(self).elements@[
                parent as int
            ].children@.push(eid),
            forall|i: int|
                0 <= i < old(self).elements@.len() && i != parent
                    ==> #[trigger] final(self).elements@[i] == old(self).elements@[i],
            final(self).components == old(self).components,
            final(self).local_registry == old(self).local_registry,
    {
        let eid = self.elements.len();
        let enclosing = self.elements[parent].enclosing_component;
        proof {
            assert(elem_ok(*old(self), parent as int));
        }
        let child = Element {
            id,
            base_type: Ty::Void,
            enclosing_component: enclosing,
            properties: Vec::new(),
            bindings: Vec::new(),
            repeated: Option::None,
            children: Vec::new(),
        };
        self.elements.push(child);
        let parent_ref = &mut self.elements[parent];
        parent_ref.children.push(eid);
        proof {
            assert forall|i: int|
                0 <= i < self.elements.len() implies #[trigger] elem_ok(*self, i) by {
                if i < old(self).elements@.len() && i != parent {
                    assert(self.elements@[i] == old(self).elements@[i]);
                    assert(elem_ok(*old(self), i));
                } else if i == parent {
                    assert(elem_ok(*old(self), i));
                    assert(self.elements@[i].children@ == old(self).elements@[
                        i
                    ].children@.push(eid));
                }
            }
            assert forall|c: int|
                0 <= c < self.components.len() implies #[trigger] self.components[c].root_element
                < self.elements.len() by {
                assert(old(self).components[c].root_element < old(self).elements.len());
            }
        }
        eid
    }

    /// Declare a property, callback or member function on an element.
    pub fn add_property(&mut self, e: usize, name: String, ty: Ty)
        requires
            doc_wf(*old(self)),
            e < old(self).elements@.len(),
        ensures
            doc_wf(*final(self)),
            final(self).elements@.len() == old(self).elements@.len(),
            final(self).elements@[e as int].properties@ == old(self).elements@[
                e as int
            ].properties@.push((name, ty)),
            forall|i: int|
                0 <= i < old(self).elements@.len() && i != e ==> #[trigger] final(self).elements@[
                    i
                ] == old(self).elements@[i],
            final(self).elements@[e as int].bindings == old(self).elements@[e as int].bindings,
            final(self).elements@[e as int].repeated == old(self).elements@[e as int].repeated,
            final(self).elements@[e as int].children == old(self).elements@[e as int].children,
            final(self).elements@[e as int].id == old(self).elements@[e as int].id,
            final(self).components == old(self).components,
            final(self).local_registry == old(self).local_registry,
    {
        let element = &mut self.elements[e];
        element.properties.push((name, ty));
        proof {
            assert forall|i: int|
                0 <= i < self.elements.len() implies #[trigger] elem_ok(*self, i) by {
                assert(elem_ok(*old(self), i));
                if i != e {
                    assert(self.elements@[i] == old(self).elements@[i]);
                }
            }
            assert forall|c: int|
                0 <= c < self.components.len() implies #[trigger] self.components[c].root_element
                < self.elements.len() by {
                assert(old(self).components[c].root_element < old(self).elements.len());
            }
        }
    }

    /// Attach an unresolved binding to a property of an element.
    pub fn add_binding(&mut self, e: usize, name: String, node: crate::syntax::UnresolvedNode)
        requires
            doc_wf(*old(self)),
            e < old(self).elements@.len(),
        ensures
            doc_wf(*final(self)),
            final(self).elements@.len() == old(self).elements@.len(),
            final(self).elements@[e as int].bindings@ == old(self).elements@[
                e as int
            ].bindings@.push((name, Expression::Uncompiled(node))),
            forall|i: int|
                0 <= i < old(self).elements@.len() && i != e ==> #[trigger] final(self).elements@[
                    i
                ] == old(self).elements@[i],
            final(self).elements@[e as int].properties == old(self).elements@[
                e as int
            ].properties,
            final(self).elements@[e as int].repeated == old(self).elements@[e as int].repeated,
            final(self).elements@[e as int].children == old(self).elements@[e as int].children,
            final(self).components == old(self).components,
            final(self).local_registry == old(self).local_registry,
    {
        let element = &mut self.elements[e];
        element.bindings.push((name, Expression::Uncompiled(node)));
        proof {
            assert forall|i: int|
                0 <= i < self.elements.len() implies #[trigger] elem_ok(*self, i) by {
                assert(elem_ok(*old(self), i));
                if i != e {
                    assert(self.elements@[i] == old(self).elements@[i]);
                }
            }
            assert forall|c: int|
                0 <= c < self.components.len() implies #[trigger] self.components[c].root_element
                < self.elements.len() by {
                assert(old(self).components[c].root_element < old(self).elements.len());
            }
        }
    }

    /// Mark an element as the root of a repetition, with its index and
    /// model-data identifiers and the unresolved model expression.
    pub fn set_repeated(
        &mut self,
        e: usize,
        index_id: String,
        model_data_id: String,
        model: crate::syntax::UnresolvedNode,
    )
        requires
            doc_wf(*old(self)),
            e < old(self).elements@.len(),
        ensures
            doc_wf(*final(self)),
            final(self).elements@.len() == old(self).elements@.len(),
            final(self).elements@[e as int].repeated matches Some(rep) && rep.index_id == index_id
                && rep.model_data_id == model_data_id && rep.model == Expression::Uncompiled(
                model,
            ),
            forall|i: int|
                0 <= i < old(self).elements@.len() && i != e ==> #[trigger] final(self).elements@[
                    i
                ] == old(self).elements@[i],
            final(self).elements@[e as int].bindings == old(self).elements@[e as int].bindings,
            final(self).elements@[e as int].properties == old(self).elements@[
                e as int
            ].properties,
            final(self).elements@[e as int].children == old(self).elements@[e as int].children,
            final(self).components == old(self).components,
            final(self).local_registry == old(self).local_registry,
    {
        let element = &mut self.elements[e];
        element.repeated = Option::Some(
            RepeatedElementInfo {
                model: Expression::Uncompiled(model),
                index_id,
                model_data_id,
            },
        );
        proof {
            assert forall|i: int|
                0 <= i < self.elements.len() implies #[trigger] elem_ok(*self, i) by {
                assert(elem_ok(*old(self), i));
                if i != e {
                    assert(self.elements@[i] == old(self).elements@[i]);
                }
            }
            assert forall|c: int|
                0 <= c < self.components.len() implies #[trigger] self.components[c].root_element
                < self.elements.len() by {
                assert(old(self).components[c].root_element < old(self).elements.len());
            }
        }
    }

    /// Register a name in the document's type registry.
    pub fn register_type(&mut self, name: String, ty: Ty)
        requires
            doc_wf(*old(self)),
        ensures
            doc_wf(*final(self)),
            final(self).elements == old(self).elements,
            final(self).components == old(self).components,
    {
        self.local_registry.add(name, ty);
        proof {
            assert forall|i: int|
                0 <= i < self.elements.len() implies #[trigger] elem_ok(*self, i) by {
                assert(elem_ok(*old(self), i));
            }
            assert forall|c: int|
                0 <= c < self.components.len() implies #[trigger] self.components[c].root_element
                < self.elements.len() by {
                assert(old(self).components[c].root_element < old(self).elements.len());
            }
        }
    }

    /// Read one binding of an element: its property name's characters
    /// are matched by the caller, the expression is borrowed.
    pub fn binding_at(&self, e: usize, k: usize) -> (r: &(String, Expression))
        requires
            e < self.elements@.len(),
            k < self.elements@[e as int].bindings@.len(),
        ensures
            *r == self.elements@[e as int].bindings@[k as int],
    {
        &self.elements[e].bindings[k]
    }

    /// How many bindings an element has.
    pub fn binding_count(&self, e: usize) -> (r: usize)
        requires
            e < self.elements@.len(),
        ensures
            r == self.elements@[e as int].bindings@.len(),
    {
        self.elements[e].bindings.len()
    }
}

} // verus!
