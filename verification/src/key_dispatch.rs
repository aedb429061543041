use std::any::TypeId;

use rustc_hash::{FxBuildHasher, FxHashMap};
use smallvec::SmallVec;
use vstd::prelude::*;

use crate::interactive::PlatformInput;

verus! {

/// The hasher state of `rustc_hash`'s maps.
#[verifier::external_type_specification]
#[verifier::external_body]
pub struct ExFxBuildHasher(FxBuildHasher);

/// A dispatch path: node ids, root first, kept in a `smallvec::SmallVec`
/// with room for 32 ids inline.
#[verifier::external_body]
pub struct DispatchPath {
    items: SmallVec<[DispatchNodeId; 32]>,
}

/// The node ids that a dispatch path holds, in order.
pub uninterp spec fn path_items(p: DispatchPath) -> Seq<DispatchNodeId>;

/// Calls `SmallVec::from_vec`, which moves the items of the vector into the
/// small vector in their order.
#[verifier::external_body]
fn path_from_vec(v: Vec<DispatchNodeId>) -> (r: DispatchPath)
    ensures
        path_items(r) == v@,
{
    DispatchPath { items: SmallVec::from_vec(v) }
}

impl DispatchPath {
    /// Calls `SmallVec::as_slice`, which views all items of the small vector.
    #[verifier::external_body]
    pub(crate) fn as_slice(&self) -> (r: &[DispatchNodeId])
        ensures
            r@ == path_items(*self),
    {
        self.items.as_slice()
    }

    /// The node ids of the path, root first.
    pub fn ids(&self) -> (r: Vec<DispatchNodeId>)
        ensures
            r@ == path_items(*self),
    {
        let s = self.as_slice();
        let mut r: Vec<DispatchNodeId> = Vec::new();
        let mut i: usize = 0;
        while i < s.len()
            invariant
                i <= s@.len(),
                s@ == path_items(*self),
                r@ == s@.take(i as int),
            decreases s@.len() - i,
        {
            r.push(s[i]);
            proof {
                assert(r@ =~= s@.take(i + 1));
            }
            i = i + 1;
        }
        proof {
            assert(r@ =~= s@);
        }
        r
    }
}

/// Calls `HashMap::insert` on a map keyed by type: afterwards the key maps
/// to the new value and every other key keeps its value. `TypeId` compares
/// and hashes by the identity of the type.
#[verifier::external_body]
fn insert_by_type<V>(m: &mut FxHashMap<TypeId, V>, k: TypeId, v: V)
    ensures
        final(m)@ == old(m)@.insert(k, v),
{
    m.insert(k, v);
}

/// Calls `HashMap::get` on a map keyed by type: the value of the key if the
/// map holds it, else `None`.
#[verifier::external_body]
fn get_by_type<'a, V>(m: &'a FxHashMap<TypeId, V>, k: &TypeId) -> (r: Option<&'a V>)
    ensures
        r is Some <==> m@.contains_key(*k),
        r matches Some(v) ==> *v == m@[*k],
{
    m.get(k)
}

/// Calls `HashMap::get` on a map keyed by focus id: the value of the key if
/// the map holds it, else `None`. `FocusId` compares and hashes by its
/// number, as its derived `Eq` and `Hash` do.
#[verifier::external_body]
fn get_by_focus(m: &FxHashMap<FocusId, DispatchNodeId>, k: &FocusId) -> (r: Option<DispatchNodeId>)
    ensures
        r is Some <==> m@.contains_key(*k),
        r matches Some(v) ==> v == m@[*k],
{
    m.get(k).copied()
}

/// The key of a focusable element, as the focus table hands it out.
#[derive(Debug, Clone, Copy, PartialEq, Eq, Hash, Structural)]
pub struct FocusId(pub u64);

/// The name of a key context, such as `input`.
#[derive(Debug)]
pub struct KeyContext {
    pub name: String,
}

impl View for KeyContext {
    type V = Seq<char>;

    open spec fn view(&self) -> Seq<char> {
        self.name@
    }
}

impl Clone for KeyContext {
    fn clone(&self) -> (r: Self)
        ensures
            r == *self,
    {
        KeyContext { name: self.name.clone() }
    }
}

/// The place of a node in its dispatch tree.
#[derive(Debug, Clone, Copy, PartialEq, Eq, Structural)]
pub struct DispatchNodeId(pub usize);

/// Listeners first see an event on the way from the root to the target
/// (capture), then on the way back (bubble).
#[derive(Debug, Clone, Copy, PartialEq, Eq, Structural)]
pub enum DispatchPhase {
    Capture,
    Bubble,
}

/// One node of the dispatch tree: its listeners, what it focuses, its key
/// context and its parent.
#[derive(Debug)]
pub struct DispatchNode<K, A> {
    pub key_listeners: Vec<K>,
    pub action_listeners: FxHashMap<TypeId, A>,
    pub focus_id: Option<FocusId>,
    pub context: Option<KeyContext>,
    pub parent: Option<DispatchNodeId>,
}

pub struct DispatchNodeView<K, A> {
    pub key_listeners: Seq<K>,
    pub action_listeners: Map<TypeId, A>,
    pub focus_id: Option<FocusId>,
    pub context: Option<Seq<char>>,
    pub parent: Option<DispatchNodeId>,
}

pub open spec fn context_view(c: Option<KeyContext>) -> Option<Seq<char>> {
    match c {
        Some(c) => Some(c@),
        None => None,
    }
}

impl<K, A> View for DispatchNode<K, A> {
    type V = DispatchNodeView<K, A>;

    open spec fn view(&self) -> DispatchNodeView<K, A> {
        DispatchNodeView {
            key_listeners: self.key_listeners@,
            action_listeners: self.action_listeners@,
            focus_id: self.focus_id,
            context: context_view(self.context),
            parent: self.parent,
        }
    }
}

/// A node with no listeners, focus or context.
pub open spec fn empty_node<K, A>(parent: Option<DispatchNodeId>) -> DispatchNodeView<K, A> {
    DispatchNodeView {
        key_listeners: Seq::empty(),
        action_listeners: Map::empty(),
        focus_id: None,
        context: None,
        parent,
    }
}

impl<K, A> DispatchNode<K, A> {
    fn new(parent: Option<DispatchNodeId>) -> (n: Self)
        ensures
            n@ == empty_node::<K, A>(parent),
    {
        DispatchNode {
            key_listeners: Vec::new(),
            action_listeners: FxHashMap::default(),
            focus_id: None,
            context: None,
            parent,
        }
    }
}

pub struct DispatchTreeView<K, A> {
    pub node_stack: Seq<DispatchNodeId>,
    pub context_stack: Seq<Seq<char>>,
    pub nodes: Seq<DispatchNodeView<K, A>>,
    pub focusable_node_ids: Map<FocusId, DispatchNodeId>,
}

impl<K, A> DispatchTreeView<K, A> {
    pub open spec fn has(self, id: DispatchNodeId) -> bool {
        id.0 < self.nodes.len()
    }

    pub open spec fn node(self, id: DispatchNodeId) -> DispatchNodeView<K, A> {
        self.nodes[id.0 as int]
    }

    /// The contexts of the given nodes that have one, in order.
    pub open spec fn contexts_on(self, ids: Seq<DispatchNodeId>) -> Seq<Seq<char>>
        decreases ids.len(),
    {
        if ids.len() == 0 {
            Seq::empty()
        } else {
            let rest = self.contexts_on(ids.drop_last());
            match self.node(ids.last()).context {
                Some(c) => rest.push(c),
                None => rest,
            }
        }
    }

    /// The nodes from a root down to `t`, each the parent of the next.
    pub open spec fn path_to(self, t: DispatchNodeId) -> Seq<DispatchNodeId>
        decreases t.0,
    {
        match self.node(t).parent {
            Some(p) => if p.0 < t.0 {
                self.path_to(p).push(t)
            } else {
                seq![t]
            },
            None => seq![t],
        }
    }

    /// The active node: the one last pushed and not yet popped.
    pub open spec fn active(self) -> Option<DispatchNodeId> {
        if self.node_stack.len() == 0 {
            None
        } else {
            Some(self.node_stack.last())
        }
    }

    /// The tree's shape: node 0 is a root, a parent comes before its child,
    /// the stack of open nodes runs from a root down through parents in
    /// order, and the context stack holds the contexts of the open nodes.
    pub open spec fn wf(self) -> bool {
        &&& self.nodes.len() > 0
        &&& self.nodes[0].parent is None
        &&& forall|i: int|
            0 <= i < self.nodes.len() ==> match (#[trigger] self.nodes[i]).parent {
                Some(p) => p.0 < i,
                None => true,
            }
        &&& forall|k: int| 0 <= k < self.node_stack.len() ==> self.has(#[trigger] self.node_stack[k])
        &&& self.node_stack.len() > 0 ==> self.node(self.node_stack[0]).parent is None
        &&& forall|k: int|
            0 < k < self.node_stack.len() ==> self.node(#[trigger] self.node_stack[k]).parent == Some(
                self.node_stack[k - 1],
            )
        &&& forall|j: int, k: int|
            0 <= j < k < self.node_stack.len() ==> (#[trigger] self.node_stack[j]).0
                < (#[trigger] self.node_stack[k]).0
        &&& self.context_stack == self.contexts_on(self.node_stack)
        &&& forall|f: FocusId| #[trigger]
            self.focusable_node_ids.contains_key(f) ==> self.has(self.focusable_node_ids[f])
    }

    /// The key listeners of the first `n` nodes, node by node.
    pub open spec fn key_listeners_upto(self, n: nat) -> Seq<K>
        decreases n,
    {
        if n == 0 {
            Seq::empty()
        } else {
            self.key_listeners_upto((n - 1) as nat) + self.nodes[n - 1].key_listeners
        }
    }

    /// The listeners for `ty` of the first `n` nodes that have one, node by node.
    pub open spec fn action_listeners_upto(self, ty: TypeId, n: nat) -> Seq<A>
        decreases n,
    {
        if n == 0 {
            Seq::empty()
        } else {
            let rest = self.action_listeners_upto(ty, (n - 1) as nat);
            if self.nodes[n - 1].action_listeners.contains_key(ty) {
                rest.push(self.nodes[n - 1].action_listeners[ty])
            } else {
                rest
            }
        }
    }
}

impl<K, A> DispatchTreeView<K, A> {
    /// The node that keyboard events go to: the node registered for the
    /// focused element if there is one, else the root.
    pub open spec fn dispatch_target(self, focus: Option<FocusId>) -> DispatchNodeId {
        match focus {
            Some(f) => if self.focusable_node_ids.contains_key(f) {
                self.focusable_node_ids[f]
            } else {
                DispatchNodeId(0)
            },
            None => DispatchNodeId(0),
        }
    }

    /// The tree after a new node is opened under the active one.
    pub open spec fn pushed(self) -> DispatchTreeView<K, A> {
        DispatchTreeView {
            nodes: self.nodes.push(empty_node::<K, A>(self.active())),
            node_stack: self.node_stack.push(DispatchNodeId(self.nodes.len() as usize)),
            ..self
        }
    }

    /// The tree after the active node is closed.
    pub open spec fn popped(self) -> DispatchTreeView<K, A> {
        DispatchTreeView {
            node_stack: self.node_stack.drop_last(),
            context_stack: if self.node(self.node_stack.last()).context is Some {
                self.context_stack.drop_last()
            } else {
                self.context_stack
            },
            ..self
        }
    }

    /// The tree with the active node replaced by `n`.
    pub open spec fn with_active(
        self,
        n: DispatchNodeView<K, A>,
    ) -> DispatchTreeView<K, A> {
        DispatchTreeView { nodes: self.nodes.update(self.node_stack.last().0 as int, n), ..self }
    }

    /// The tree after the active node gets the key context `c`.
    pub open spec fn with_key_context(self, c: Seq<char>) -> DispatchTreeView<K, A> {
        let active = self.node(self.node_stack.last());
        DispatchTreeView {
            context_stack: (if active.context is Some {
                self.context_stack.drop_last()
            } else {
                self.context_stack
            }).push(c),
            ..self.with_active(DispatchNodeView { context: Some(c), ..active })
        }
    }

    /// The tree after the active node gets each key context of `cs` in turn.
    pub open spec fn with_key_contexts(self, cs: Seq<Seq<char>>) -> DispatchTreeView<K, A>
        decreases cs.len(),
    {
        if cs.len() == 0 {
            self
        } else {
            self.with_key_contexts(cs.drop_last()).with_key_context(cs.last())
        }
    }

    /// The tree after the active node gets one more key listener.
    pub open spec fn with_key_listener(self, l: K) -> DispatchTreeView<K, A> {
        let active = self.node(self.node_stack.last());
        self.with_active(DispatchNodeView { key_listeners: active.key_listeners.push(l), ..active })
    }

    /// The tree after the active node's listener for `ty` becomes `l`.
    pub open spec fn with_action_listener(self, ty: TypeId, l: A) -> DispatchTreeView<K, A> {
        let active = self.node(self.node_stack.last());
        self.with_active(
            DispatchNodeView { action_listeners: active.action_listeners.insert(ty, l), ..active },
        )
    }

    /// The tree after the active node gets the key listeners `keys`, in
    /// order, and then each listener of `actions` for its type, in order.
    pub open spec fn with_listeners(self, keys: Seq<K>, actions: Seq<(TypeId, A)>) -> DispatchTreeView<
        K,
        A,
    > {
        let active = self.node(self.node_stack.last());
        self.with_active(
            DispatchNodeView {
                key_listeners: active.key_listeners + keys,
                action_listeners: insert_all(active.action_listeners, actions),
                ..active
            },
        )
    }
}

/// The listeners by type after each pair of `ls` is registered in turn: a
/// later listener for a type replaces an earlier one.
pub open spec fn insert_all<A>(m: Map<TypeId, A>, ls: Seq<(TypeId, A)>) -> Map<TypeId, A>
    decreases ls.len(),
{
    if ls.len() == 0 {
        m
    } else {
        insert_all(m, ls.drop_last()).insert(ls.last().0, ls.last().1)
    }
}

/// Changing only the listeners of nodes keeps a tree well formed.
proof fn lemma_wf_same_shape<K, A>(v0: DispatchTreeView<K, A>, v1: DispatchTreeView<K, A>)
    requires
        v0.wf(),
        v1.node_stack == v0.node_stack,
        v1.context_stack == v0.context_stack,
        v1.focusable_node_ids == v0.focusable_node_ids,
        v1.nodes.len() == v0.nodes.len(),
        forall|i: int|
            0 <= i < v0.nodes.len() ==> (#[trigger] v1.nodes[i]).parent == v0.nodes[i].parent
                && v1.nodes[i].context == v0.nodes[i].context,
    ensures
        v1.wf(),
{
    assert forall|k: int| 0 <= k < v0.node_stack.len() implies v1.node(
        #[trigger] v0.node_stack[k],
    ).context == v0.node(v0.node_stack[k]).context by {
        assert(v0.has(v0.node_stack[k]));
    }
    lemma_contexts_frame(v1, v0, v0.node_stack);
    assert forall|i: int| 0 <= i < v1.nodes.len() implies match (#[trigger] v1.nodes[i]).parent {
        Some(p) => p.0 < i,
        None => true,
    } by {
        assert(v0.nodes[i].parent == v1.nodes[i].parent);
    }
    assert forall|k: int| 0 < k < v1.node_stack.len() implies v1.node(
        #[trigger] v1.node_stack[k],
    ).parent == Some(v1.node_stack[k - 1]) by {
        assert(v0.has(v0.node_stack[k]));
    }
    if v1.node_stack.len() > 0 {
        assert(v0.has(v0.node_stack[0]));
    }
}

/// Giving the active node a key context keeps a tree well formed.
proof fn lemma_with_key_context_wf<K, A>(v0: DispatchTreeView<K, A>, c: Seq<char>)
    requires
        v0.wf(),
        v0.node_stack.len() > 0,
    ensures
        v0.with_key_context(c).wf(),
{
    let v1 = v0.with_key_context(c);
    let n = v0.node_stack.len();
    let active = v0.node_stack.last();
    assert(active == v0.node_stack[n - 1]);
    assert(v0.has(v0.node_stack[n - 1]));
    let prefix = v0.node_stack.drop_last();
    assert forall|k: int| 0 <= k < prefix.len() implies v1.node(#[trigger] prefix[k]).context
        == v0.node(prefix[k]).context by {
        assert(prefix[k] == v0.node_stack[k]);
        assert(v0.node_stack[k].0 < v0.node_stack[n - 1].0);
        assert(v0.has(v0.node_stack[k]));
    }
    lemma_contexts_frame(v1, v0, prefix);
    assert(v1.node_stack.drop_last() =~= prefix);
    assert(v1.node(v1.node_stack.last()).context == Some(c));
    assert(v1.context_stack =~= v1.contexts_on(v1.node_stack));
    assert forall|i: int| 0 <= i < v1.nodes.len() implies match (#[trigger] v1.nodes[i]).parent {
        Some(p) => p.0 < i,
        None => true,
    } by {
        assert(v0.nodes[i].parent == v1.nodes[i].parent);
    }
    assert forall|k: int| 0 < k < v1.node_stack.len() implies v1.node(
        #[trigger] v1.node_stack[k],
    ).parent == Some(v1.node_stack[k - 1]) by {
        assert(v0.has(v0.node_stack[k]));
    }
    assert(v0.has(v0.node_stack[0]));
    assert forall|f: FocusId| #[trigger] v1.focusable_node_ids.contains_key(f) implies v1.has(
        v1.focusable_node_ids[f],
    ) by {
        assert(v0.focusable_node_ids.contains_key(f));
    }
}

/// The contexts along a sequence of nodes depend only on those nodes.
proof fn lemma_contexts_frame<K, A>(
    v1: DispatchTreeView<K, A>,
    v2: DispatchTreeView<K, A>,
    ids: Seq<DispatchNodeId>,
)
    requires
        forall|k: int|
            0 <= k < ids.len() ==> v1.node(#[trigger] ids[k]).context == v2.node(ids[k]).context,
    ensures
        v1.contexts_on(ids) == v2.contexts_on(ids),
    decreases ids.len(),
{
    if ids.len() > 0 {
        let rest = ids.drop_last();
        assert forall|k: int| 0 <= k < rest.len() implies v1.node(#[trigger] rest[k]).context
            == v2.node(rest[k]).context by {
            assert(rest[k] == ids[k]);
        }
        lemma_contexts_frame(v1, v2, rest);
        assert(ids.last() == ids[ids.len() - 1]);
    }
}

/// Adding one more key listener after a batch adds it at the end of the batch.
proof fn lemma_listeners_push_key<K, A>(
    v: DispatchTreeView<K, A>,
    keys: Seq<K>,
    actions: Seq<(TypeId, A)>,
    l: K,
)
    requires
        v.wf(),
        v.node_stack.len() > 0,
    ensures
        v.with_listeners(keys, actions).with_key_listener(l) == v.with_listeners(keys.push(l), actions),
{
    let i = v.node_stack.last().0 as int;
    assert(v.has(v.node_stack[v.node_stack.len() - 1]));
    let w = v.with_listeners(keys, actions);
    let lhs = w.with_key_listener(l);
    let rhs = v.with_listeners(keys.push(l), actions);
    assert(w.node(w.node_stack.last()) == w.nodes[i]);
    assert(v.node(v.node_stack.last()).key_listeners + keys.push(l) =~= (v.node(
        v.node_stack.last(),
    ).key_listeners + keys).push(l));
    assert(lhs.nodes =~= rhs.nodes);
}

/// Registering one more action listener after a batch adds it at the end of
/// the batch.
proof fn lemma_listeners_push_action<K, A>(
    v: DispatchTreeView<K, A>,
    keys: Seq<K>,
    actions: Seq<(TypeId, A)>,
    ty: TypeId,
    l: A,
)
    requires
        v.wf(),
        v.node_stack.len() > 0,
    ensures
        v.with_listeners(keys, actions).with_action_listener(ty, l) == v.with_listeners(
            keys,
            actions.push((ty, l)),
        ),
{
    let i = v.node_stack.last().0 as int;
    assert(v.has(v.node_stack[v.node_stack.len() - 1]));
    let w = v.with_listeners(keys, actions);
    let lhs = w.with_action_listener(ty, l);
    let rhs = v.with_listeners(keys, actions.push((ty, l)));
    assert(w.node(w.node_stack.last()) == w.nodes[i]);
    assert(actions.push((ty, l)).drop_last() =~= actions);
    assert(lhs.nodes =~= rhs.nodes);
}

/// After listeners are registered in turn, a type that some pair names is
/// served by the listener of the last pair that names it; a type that no
/// pair names keeps what it had.
pub proof fn lemma_last_action_listener_wins<A>(m: Map<TypeId, A>, ls: Seq<(TypeId, A)>, ty: TypeId)
    ensures
        forall|k: int|
            0 <= k < ls.len() && #[trigger] ls[k].0 == ty && (forall|j: int|
                k < j < ls.len() ==> ls[j].0 != ty) ==> insert_all(m, ls).contains_key(ty)
                && insert_all(m, ls)[ty] == ls[k].1,
        (forall|k: int| 0 <= k < ls.len() ==> #[trigger] ls[k].0 != ty) ==> (insert_all(
            m,
            ls,
        ).contains_key(ty) == m.contains_key(ty) && (m.contains_key(ty) ==> insert_all(m, ls)[ty]
            == m[ty])),
    decreases ls.len(),
{
    if ls.len() > 0 {
        let rest = ls.drop_last();
        lemma_last_action_listener_wins(m, rest, ty);
        assert forall|k: int|
            0 <= k < ls.len() && #[trigger] ls[k].0 == ty && (forall|j: int|
                k < j < ls.len() ==> ls[j].0 != ty) implies insert_all(m, ls).contains_key(ty)
            && insert_all(m, ls)[ty] == ls[k].1 by {
            if k < ls.len() - 1 {
                assert(ls[ls.len() - 1].0 != ty);
                assert(rest[k] == ls[k]);
                assert forall|j: int| k < j < rest.len() implies rest[j].0 != ty by {
                    assert(rest[j] == ls[j]);
                }
            }
        }
        if forall|k: int| 0 <= k < ls.len() ==> #[trigger] ls[k].0 != ty {
            assert forall|k: int| 0 <= k < rest.len() implies #[trigger] rest[k].0 != ty by {
                assert(rest[k] == ls[k]);
            }
            assert(ls[ls.len() - 1].0 != ty);
        }
    }
}

/// The tree that holds the listeners registered while a frame is drawn, and
/// routes keyboard events through it.
pub struct DispatchTree<K, A> {
    node_stack: Vec<DispatchNodeId>,
    context_stack: Vec<KeyContext>,
    nodes: Vec<DispatchNode<K, A>>,
    focusable_node_ids: FxHashMap<FocusId, DispatchNodeId>,
}

pub open spec fn contexts_view(cs: Seq<KeyContext>) -> Seq<Seq<char>> {
    cs.map_values(|c: KeyContext| c@)
}

pub open spec fn nodes_view<K, A>(ns: Seq<DispatchNode<K, A>>) -> Seq<DispatchNodeView<K, A>> {
    ns.map_values(|n: DispatchNode<K, A>| n@)
}

impl<K, A> View for DispatchTree<K, A> {
    type V = DispatchTreeView<K, A>;

    closed spec fn view(&self) -> DispatchTreeView<K, A> {
        DispatchTreeView {
            node_stack: self.node_stack@,
            context_stack: contexts_view(self.context_stack@),
            nodes: nodes_view(self.nodes@),
            focusable_node_ids: self.focusable_node_ids@,
        }
    }
}

/// The fields of a dispatch tree while an operation rearranges them.
struct TreeParts<K, A> {
    node_stack: Vec<DispatchNodeId>,
    context_stack: Vec<KeyContext>,
    nodes: Vec<DispatchNode<K, A>>,
    focusable_node_ids: FxHashMap<FocusId, DispatchNodeId>,
}

impl<K, A> TreeParts<K, A> {
    spec fn view(&self) -> DispatchTreeView<K, A> {
        DispatchTreeView {
            node_stack: self.node_stack@,
            context_stack: contexts_view(self.context_stack@),
            nodes: nodes_view(self.nodes@),
            focusable_node_ids: self.focusable_node_ids@,
        }
    }
}

impl<K, A> DispatchTree<K, A> {
    #[verifier::type_invariant]
    spec fn inv(self) -> bool {
        self@.wf()
    }

    /// A tree that holds only the root, which is open.
    pub fn new() -> (t: Self)
        ensures
            t@.wf(),
            t@.node_stack == seq![DispatchNodeId(0)],
            t@.context_stack == Seq::<Seq<char>>::empty(),
            t@.nodes == seq![empty_node::<K, A>(None)],
            t@.focusable_node_ids == Map::<FocusId, DispatchNodeId>::empty(),
    {
        let mut node_stack: Vec<DispatchNodeId> = Vec::new();
        node_stack.push(DispatchNodeId(0));
        let mut nodes: Vec<DispatchNode<K, A>> = Vec::new();
        nodes.push(DispatchNode::new(None));
        let p = TreeParts {
            node_stack,
            context_stack: Vec::new(),
            nodes,
            focusable_node_ids: FxHashMap::default(),
        };
        proof {
            let v = p.view();
            assert(v.nodes =~= seq![empty_node::<K, A>(None)]);
            assert(v.context_stack =~= Seq::<Seq<char>>::empty());
            let ids = v.node_stack;
            assert(ids.drop_last() =~= Seq::<DispatchNodeId>::empty());
            assert(v.contexts_on(ids.drop_last()) =~= Seq::<Seq<char>>::empty());
            assert(v.node(ids.last()).context is None);
            assert(v.contexts_on(ids) =~= Seq::<Seq<char>>::empty());
            assert(v.wf());
        }
        Self::from_parts(p)
    }

    fn take_parts(&mut self) -> (p: TreeParts<K, A>)
        ensures
            p.view() == old(self)@,
            p.view().wf(),
    {
        proof {
            use_type_invariant(&*self);
        }
        let mut t = DispatchTree::new();
        std::mem::swap(self, &mut t);
        let DispatchTree { node_stack, context_stack, nodes, focusable_node_ids } = t;
        TreeParts { node_stack, context_stack, nodes, focusable_node_ids }
    }

    fn from_parts(p: TreeParts<K, A>) -> (t: Self)
        requires
            p.view().wf(),
        ensures
            t@ == p.view(),
    {
        let TreeParts { node_stack, context_stack, nodes, focusable_node_ids } = p;
        DispatchTree { node_stack, context_stack, nodes, focusable_node_ids }
    }

    /// The id of the active node, if a node is open.
    pub fn active_node_id(&self) -> (r: Option<DispatchNodeId>)
        ensures
            self@.wf(),
            r == self@.active(),
    {
        proof {
            use_type_invariant(self);
        }
        let n = self.node_stack.len();
        if n == 0 {
            None
        } else {
            Some(self.node_stack[n - 1])
        }
    }

    /// The root's id.
    pub fn root_node_id(&self) -> (r: DispatchNodeId)
        ensures
            self@.wf(),
            r == DispatchNodeId(0),
            self@.has(r),
    {
        proof {
            use_type_invariant(self);
        }
        DispatchNodeId(0)
    }

    /// The node with the given id.
    pub fn node(&self, id: DispatchNodeId) -> (n: &DispatchNode<K, A>)
        requires
            self@.has(id),
        ensures
            self@.wf(),
            n@ == self@.node(id),
    {
        proof {
            use_type_invariant(self);
        }
        &self.nodes[id.0]
    }

    /// The node that the element with this focus id registered, if any.
    pub fn focusable_node_id(&self, focus_id: FocusId) -> (r: Option<DispatchNodeId>)
        ensures
            self@.wf(),
            r is Some <==> self@.focusable_node_ids.contains_key(focus_id),
            r matches Some(id) ==> id == self@.focusable_node_ids[focus_id],
    {
        proof {
            use_type_invariant(self);
        }
        get_by_focus(&self.focusable_node_ids, &focus_id)
    }

    /// Opens a new node as a child of the active node (or as a new root when
    /// no node is open) and makes it active.
    pub fn push_node(&mut self) -> (id: DispatchNodeId)
        ensures
            old(self)@.wf(),
            final(self)@.wf(),
            id == DispatchNodeId(old(self)@.nodes.len() as usize),
            final(self)@ == old(self)@.pushed(),
    {
        let mut p = self.take_parts();
        let ghost v0 = p.view();
        let n = p.node_stack.len();
        let parent = if n == 0 {
            None
        } else {
            Some(p.node_stack[n - 1])
        };
        let node_id = DispatchNodeId(p.nodes.len());
        p.nodes.push(DispatchNode::new(parent));
        p.node_stack.push(node_id);
        proof {
            let v1 = p.view();
            assert(v1.nodes =~= v0.nodes.push(empty_node::<K, A>(v0.active())));
            assert(v1.node_stack =~= v0.node_stack.push(node_id));
            assert forall|k: int| 0 <= k < v0.node_stack.len() implies v1.node(
                #[trigger] v0.node_stack[k],
            ).context == v0.node(v0.node_stack[k]).context by {
                assert(v0.has(v0.node_stack[k]));
            }
            lemma_contexts_frame(v1, v0, v0.node_stack);
            assert(v1.node_stack.drop_last() =~= v0.node_stack);
            assert(v1.contexts_on(v1.node_stack) == v0.contexts_on(v0.node_stack));
            assert forall|f: FocusId| #[trigger] v1.focusable_node_ids.contains_key(f) implies v1.has(
                v1.focusable_node_ids[f],
            ) by {
                assert(v0.focusable_node_ids.contains_key(f));
            }
            assert(v1.wf());
        }
        *self = Self::from_parts(p);
        node_id
    }

    /// Closes the active node; the context stack loses the node's context if
    /// it had one.
    pub fn pop_node(&mut self)
        requires
            old(self)@.node_stack.len() > 0,
        ensures
            old(self)@.wf(),
            final(self)@.wf(),
            final(self)@ == old(self)@.popped(),
    {
        let mut p = self.take_parts();
        let ghost v0 = p.view();
        let n = p.node_stack.len();
        let active = p.node_stack[n - 1];
        if p.nodes[active.0].context.is_some() {
            p.context_stack.pop();
        }
        p.node_stack.pop();
        proof {
            let v1 = p.view();
            assert(v1.node_stack =~= v0.node_stack.drop_last());
            assert(v0.has(v0.node_stack[n - 1]));
            assert(v1.nodes == v0.nodes);
            lemma_contexts_frame(v1, v0, v1.node_stack);
            assert(v0.node_stack.last() == v0.node_stack[n - 1]);
            if v0.node(v0.node_stack.last()).context is Some {
                assert(v1.context_stack =~= v0.context_stack.drop_last());
            } else {
                assert(v1.context_stack =~= v0.context_stack);
            }
            assert(v1.context_stack =~= v1.contexts_on(v1.node_stack));
            assert forall|f: FocusId| #[trigger] v1.focusable_node_ids.contains_key(f) implies v1.has(
                v1.focusable_node_ids[f],
            ) by {
                assert(v0.focusable_node_ids.contains_key(f));
            }
            assert(v1.wf());
        }
        *self = Self::from_parts(p);
    }

    /// Gives the active node a key context, replacing the one it had on the
    /// context stack.
    #[verifier::spinoff_prover]
    pub fn set_key_context(&mut self, context: KeyContext)
        requires
            old(self)@.node_stack.len() > 0,
        ensures
            old(self)@.wf(),
            final(self)@.wf(),
            final(self)@ == old(self)@.with_key_context(context@),
    {
        let mut p = self.take_parts();
        let ghost v0 = p.view();
        let n = p.node_stack.len();
        let active = p.node_stack[n - 1];
        proof {
            assert(v0.has(v0.node_stack[n - 1]));
        }
        let had_context = p.nodes[active.0].context.is_some();
        if had_context {
            p.context_stack.pop();
        }
        let mut node = p.nodes.remove(active.0);
        node.context = Some(context.clone());
        p.nodes.insert(active.0, node);
        p.context_stack.push(context);
        proof {
            let v1 = p.view();
            assert(v0.node_stack.last() == v0.node_stack[n - 1]);
            assert(v1.nodes =~= v0.with_key_context(context@).nodes);
            if had_context {
                assert(v1.context_stack =~= v0.context_stack.drop_last().push(context@));
            } else {
                assert(v1.context_stack =~= v0.context_stack.push(context@));
            }
            assert(v1 =~~= v0.with_key_context(context@));
            lemma_with_key_context_wf(v0, context@);
        }
        *self = Self::from_parts(p);
    }

    /// Adds a key listener to the active node.
    pub fn on_key_event(&mut self, listener: K)
        requires
            old(self)@.node_stack.len() > 0,
        ensures
            old(self)@.wf(),
            final(self)@.wf(),
            final(self)@ == old(self)@.with_key_listener(listener),
    {
        let mut p = self.take_parts();
        let ghost v0 = p.view();
        let n = p.node_stack.len();
        let active = p.node_stack[n - 1];
        proof {
            assert(v0.has(v0.node_stack[n - 1]));
        }
        let mut node = p.nodes.remove(active.0);
        node.key_listeners.push(listener);
        p.nodes.insert(active.0, node);
        proof {
            let v1 = p.view();
            assert(v1.nodes =~= v0.nodes.update(
                active.0 as int,
                DispatchNodeView {
                    key_listeners: v0.node(active).key_listeners.push(listener),
                    ..v0.node(active)
                },
            ));
            assert forall|i: int| 0 <= i < v0.nodes.len() implies (#[trigger] v1.nodes[i]).parent
                == v0.nodes[i].parent && v1.nodes[i].context == v0.nodes[i].context by {
                if i != active.0 {
                    assert(v1.nodes[i] == v0.nodes[i]);
                }
            }
            lemma_wf_same_shape(v0, v1);
            assert(v1 =~~= v0.with_key_listener(listener));
        }
        *self = Self::from_parts(p);
    }

    /// Registers the active node's listener for actions of type `action_ty`,
    /// replacing any it had for that type.
    pub fn on_action(&mut self, action_ty: TypeId, listener: A)
        requires
            old(self)@.node_stack.len() > 0,
        ensures
            old(self)@.wf(),
            final(self)@.wf(),
            final(self)@ == old(self)@.with_action_listener(action_ty, listener),
    {
        let mut p = self.take_parts();
        let ghost v0 = p.view();
        let n = p.node_stack.len();
        let active = p.node_stack[n - 1];
        proof {
            assert(v0.has(v0.node_stack[n - 1]));
        }
        let mut node = p.nodes.remove(active.0);
        insert_by_type(&mut node.action_listeners, action_ty, listener);
        p.nodes.insert(active.0, node);
        proof {
            let v1 = p.view();
            assert(v1.nodes =~= v0.nodes.update(
                active.0 as int,
                DispatchNodeView {
                    action_listeners: v0.node(active).action_listeners.insert(action_ty, listener),
                    ..v0.node(active)
                },
            ));
            assert forall|i: int| 0 <= i < v0.nodes.len() implies (#[trigger] v1.nodes[i]).parent
                == v0.nodes[i].parent && v1.nodes[i].context == v0.nodes[i].context by {
                if i != active.0 {
                    assert(v1.nodes[i] == v0.nodes[i]);
                }
            }
            lemma_wf_same_shape(v0, v1);
            assert(v1 =~~= v0.with_action_listener(action_ty, listener));
        }
        *self = Self::from_parts(p);
    }

    /// Gives the active node the key listeners `key_listeners`, in order,
    /// and then registers each listener of `action_listeners` for its type,
    /// in order, so that a later one for a type replaces an earlier one.
    pub fn register_listeners(&mut self, key_listeners: Vec<K>, action_listeners: Vec<(TypeId, A)>)
        requires
            old(self)@.node_stack.len() > 0,
        ensures
            old(self)@.wf(),
            final(self)@.wf(),
            final(self)@ == old(self)@.with_listeners(key_listeners@, action_listeners@),
    {
        proof {
            use_type_invariant(&*self);
            let v = old(self)@;
            assert(v.has(v.node_stack[v.node_stack.len() - 1]));
            let n = v.node(v.node_stack.last());
            assert(n.key_listeners + Seq::<K>::empty() =~= n.key_listeners);
            assert(v.with_listeners(Seq::empty(), Seq::empty()).nodes =~= v.nodes);
        }
        let ghost v0 = self@;
        let ghost keys = key_listeners@;
        let ghost actions = action_listeners@;
        let mut keys_left = key_listeners;
        let mut i: usize = 0;
        let n = keys_left.len();
        while i < n
            invariant
                i <= n,
                n == keys.len(),
                keys_left@ == keys.skip(i as int),
                v0.wf(),
                v0.node_stack.len() > 0,
                self@ == v0.with_listeners(keys.take(i as int), Seq::empty()),
            decreases n - i,
        {
            let l = keys_left.remove(0);
            proof {
                lemma_listeners_push_key(v0, keys.take(i as int), Seq::empty(), l);
                assert(keys.take(i as int).push(l) =~= keys.take(i + 1));
                assert(keys_left@ =~= keys.skip(i + 1));
            }
            self.on_key_event(l);
            i = i + 1;
        }
        proof {
            assert(keys.take(n as int) =~= keys);
        }
        let mut actions_left = action_listeners;
        let mut j: usize = 0;
        let m = actions_left.len();
        while j < m
            invariant
                j <= m,
                m == actions.len(),
                actions_left@ == actions.skip(j as int),
                v0.wf(),
                v0.node_stack.len() > 0,
                self@ == v0.with_listeners(keys, actions.take(j as int)),
            decreases m - j,
        {
            let (ty, l) = actions_left.remove(0);
            proof {
                lemma_listeners_push_action(v0, keys, actions.take(j as int), ty, l);
                assert(actions.take(j as int).push((ty, l)) =~= actions.take(j + 1));
                assert(actions_left@ =~= actions.skip(j + 1));
            }
            self.on_action(ty, l);
            j = j + 1;
        }
        proof {
            assert(actions.take(m as int) =~= actions);
            use_type_invariant(&*self);
        }
    }

    /// The nodes from the root of `target`'s tree down to `target`.
    pub fn dispatch_path(&self, target: DispatchNodeId) -> (path: DispatchPath)
        requires
            self@.has(target),
        ensures
            self@.wf(),
            path_items(path) == self@.path_to(target),
    {
        proof {
            use_type_invariant(self);
        }
        let ghost full = self@.path_to(target);
        proof {
            lemma_path_to_shape(self@, target);
        }
        let mut rev: Vec<DispatchNodeId> = Vec::new();
        let mut current: Option<DispatchNodeId> = Some(target);
        while current.is_some()
            invariant
                self@.wf(),
                full == self@.path_to(target),
                rev@.len() <= full.len(),
                forall|i: int| 0 <= i < rev@.len() ==> #[trigger] rev@[i] == full[full.len() - 1 - i],
                match current {
                    Some(c) => self@.has(c) && self@.path_to(c) == full.take(
                        full.len() - rev@.len(),
                    ) && rev@.len() < full.len(),
                    None => rev@.len() == full.len(),
                },
            decreases
                match current {
                    Some(c) => c.0 + 1,
                    None => 0,
                },
        {
            let node_id = current.unwrap();
            let ghost k = full.len() - rev@.len();
            proof {
                lemma_path_to_shape(self@, node_id);
                assert(full.take(k).last() == full[k - 1]);
            }
            rev.push(node_id);
            current = self.nodes[node_id.0].parent;
            proof {
                let pc = self@.path_to(node_id);
                match current {
                    Some(par) => {
                        assert(par.0 < node_id.0);
                        assert(pc == self@.path_to(par).push(node_id));
                        assert(self@.path_to(par) =~= full.take(k - 1));
                    },
                    None => {
                        assert(pc == seq![node_id]);
                    },
                }
            }
        }
        let n = rev.len();
        let mut out: Vec<DispatchNodeId> = Vec::new();
        let mut i: usize = 0;
        while i < n
            invariant
                i <= n,
                n == rev@.len(),
                n == full.len(),
                forall|j: int| 0 <= j < n ==> #[trigger] rev@[j] == full[full.len() - 1 - j],
                out@ == full.take(i as int),
            decreases n - i,
        {
            out.push(rev[n - 1 - i]);
            proof {
                assert(out@ =~= full.take(i + 1));
            }
            i = i + 1;
        }
        proof {
            assert(out@ =~= full);
        }
        path_from_vec(out)
    }

    /// The node that keyboard events go to: the node registered for the
    /// focused element if there is one, else the root.
    pub fn dispatch_target(&self, focus: Option<FocusId>) -> (id: DispatchNodeId)
        ensures
            self@.wf(),
            self@.has(id),
            id == self@.dispatch_target(focus),
    {
        proof {
            use_type_invariant(self);
        }
        match focus {
            Some(f) => match self.focusable_node_id(f) {
                Some(id) => id,
                None => self.root_node_id(),
            },
            None => self.root_node_id(),
        }
    }

    /// The visits with which a keyboard input is delivered: a key-down goes
    /// along the dispatch path of the target node, root to target in the
    /// capture phase and back in the bubble phase; a key-up is not delivered.
    pub fn key_dispatch_schedule(&self, focus: Option<FocusId>, input: &PlatformInput) -> (r: Vec<
        (DispatchNodeId, DispatchPhase),
    >)
        requires
            input.is_keyboard(),
        ensures
            self@.wf(),
            r@ == (if input is KeyDown {
                spec_dispatch_phases(self@.path_to(self@.dispatch_target(focus)))
            } else {
                Seq::empty()
            }),
    {
        let target = self.dispatch_target(focus);
        let path = self.dispatch_path(target);
        match input {
            PlatformInput::KeyDown(_) => dispatch_phases(path.as_slice()),
            _ => Vec::new(),
        }
    }

    /// The key listeners of all nodes, node by node, in the order they were
    /// added.
    pub fn all_key_listeners(&self) -> (r: Vec<&K>)
        ensures
            self@.wf(),
            r@.len() == self@.key_listeners_upto(self@.nodes.len()).len(),
            forall|i: int|
                0 <= i < r@.len() ==> *#[trigger] r@[i] == self@.key_listeners_upto(
                    self@.nodes.len(),
                )[i],
    {
        proof {
            use_type_invariant(self);
        }
        let mut r: Vec<&K> = Vec::new();
        let n = self.nodes.len();
        let mut i: usize = 0;
        while i < n
            invariant
                i <= n,
                n == self@.nodes.len(),
                r@.len() == self@.key_listeners_upto(i as nat).len(),
                forall|j: int|
                    0 <= j < r@.len() ==> *#[trigger] r@[j] == self@.key_listeners_upto(i as nat)[j],
            decreases n - i,
        {
            let node = &self.nodes[i];
            let m = node.key_listeners.len();
            let ghost base = self@.key_listeners_upto(i as nat);
            let ghost ls = self@.nodes[i as int].key_listeners;
            assert(ls == node.key_listeners@);
            let mut j: usize = 0;
            while j < m
                invariant
                    j <= m,
                    m == ls.len(),
                    ls == node.key_listeners@,
                    r@.len() == base.len() + j,
                    forall|q: int| 0 <= q < base.len() ==> *#[trigger] r@[q] == base[q],
                    forall|q: int| 0 <= q < j ==> *#[trigger] r@[base.len() + q] == ls[q],
                decreases m - j,
            {
                r.push(&node.key_listeners[j]);
                j = j + 1;
            }
            proof {
                let next = self@.key_listeners_upto((i + 1) as nat);
                assert(next == base + ls);
                assert forall|q: int| 0 <= q < r@.len() implies *#[trigger] r@[q] == next[q] by {
                    if q >= base.len() {
                        assert(*r@[base.len() + (q - base.len())] == ls[q - base.len()]);
                    }
                }
            }
            i = i + 1;
        }
        r
    }

    /// The listeners for actions of type `action_ty`, one from each node that
    /// has one, node by node.
    pub fn all_action_listeners_for(&self, action_ty: TypeId) -> (r: Vec<&A>)
        ensures
            self@.wf(),
            r@.len() == self@.action_listeners_upto(action_ty, self@.nodes.len()).len(),
            forall|i: int|
                0 <= i < r@.len() ==> *#[trigger] r@[i] == self@.action_listeners_upto(
                    action_ty,
                    self@.nodes.len(),
                )[i],
    {
        proof {
            use_type_invariant(self);
        }
        let mut r: Vec<&A> = Vec::new();
        let n = self.nodes.len();
        let mut i: usize = 0;
        while i < n
            invariant
                i <= n,
                n == self@.nodes.len(),
                r@.len() == self@.action_listeners_upto(action_ty, i as nat).len(),
                forall|j: int|
                    0 <= j < r@.len() ==> *#[trigger] r@[j] == self@.action_listeners_upto(
                        action_ty,
                        i as nat,
                    )[j],
            decreases n - i,
        {
            let node = &self.nodes[i];
            assert(node@ == self@.nodes[i as int]);
            match get_by_type(&node.action_listeners, &action_ty) {
                Some(l) => {
                    r.push(l);
                },
                None => {},
            }
            i = i + 1;
        }
        r
    }
}

/// The order in which the listeners along a dispatch path see a key event:
/// every node from the root to the target in the capture phase, then every
/// node from the target back to the root in the bubble phase.
pub open spec fn spec_dispatch_phases(path: Seq<DispatchNodeId>) -> Seq<(DispatchNodeId, DispatchPhase)> {
    Seq::new(
        2 * path.len(),
        |i: int|
            if i < path.len() {
                (path[i], DispatchPhase::Capture)
            } else {
                (path[2 * path.len() - 1 - i], DispatchPhase::Bubble)
            },
    )
}

/// A key event visits every node of a path of length `n` twice: visit `k`
/// is the `k`-th node from the root, in the capture phase, and visit `n + k`
/// is the `k`-th node from the target, in the bubble phase; there are no
/// other visits.
pub proof fn lemma_dispatch_phases_order(path: Seq<DispatchNodeId>)
    ensures
        spec_dispatch_phases(path).len() == 2 * path.len(),
        forall|k: int|
            0 <= k < path.len() ==> #[trigger] spec_dispatch_phases(path)[k] == (
                path[k],
                DispatchPhase::Capture,
            ),
        forall|k: int|
            0 <= k < path.len() ==> #[trigger] spec_dispatch_phases(path)[path.len() + k] == (
                path[path.len() - 1 - k],
                DispatchPhase::Bubble,
            ),
{
}

/// The (node, phase) pairs in which a key event visits a dispatch path.
pub fn dispatch_phases(path: &[DispatchNodeId]) -> (r: Vec<(DispatchNodeId, DispatchPhase)>)
    ensures
        r@ == spec_dispatch_phases(path@),
{
    let n = path.len();
    let mut r: Vec<(DispatchNodeId, DispatchPhase)> = Vec::new();
    let mut i: usize = 0;
    while i < n
        invariant
            i <= n,
            n == path@.len(),
            r@ == spec_dispatch_phases(path@).take(i as int),
        decreases n - i,
    {
        r.push((path[i], DispatchPhase::Capture));
        proof {
            assert(r@ =~= spec_dispatch_phases(path@).take(i + 1));
        }
        i = i + 1;
    }
    let mut j: usize = n;
    while j > 0
        invariant
            j <= n,
            n == path@.len(),
            r@ == spec_dispatch_phases(path@).take(2 * n - j),
        decreases j,
    {
        j = j - 1;
        r.push((path[j], DispatchPhase::Bubble));
        proof {
            assert(r@ =~= spec_dispatch_phases(path@).take(2 * n - j));
        }
    }
    proof {
        assert(r@ =~= spec_dispatch_phases(path@));
    }
    r
}

/// The path to a node runs from a root, each node the parent of the next,
/// and ends at the node; every node on it is in the tree.
pub proof fn lemma_path_to_shape<K, A>(v: DispatchTreeView<K, A>, t: DispatchNodeId)
    requires
        v.wf(),
        v.has(t),
    ensures
        v.path_to(t).len() >= 1,
        v.path_to(t).last() == t,
        v.node(v.path_to(t)[0]).parent is None,
        forall|k: int| 0 <= k < v.path_to(t).len() ==> v.has(#[trigger] v.path_to(t)[k]),
        forall|k: int|
            0 < k < v.path_to(t).len() ==> v.node(#[trigger] v.path_to(t)[k]).parent == Some(
                v.path_to(t)[k - 1],
            ),
    decreases t.0,
{
    let i = t.0 as int;
    assert(v.nodes[i] == v.node(t));
    match v.node(t).parent {
        Some(p) => {
            assert(p.0 < t.0);
            lemma_path_to_shape(v, p);
            let pp = v.path_to(p);
            assert(v.path_to(t) == pp.push(t));
            assert forall|k: int| 0 < k < v.path_to(t).len() implies v.node(
                #[trigger] v.path_to(t)[k],
            ).parent == Some(v.path_to(t)[k - 1]) by {
                if k < pp.len() {
                    assert(v.path_to(t)[k] == pp[k]);
                    assert(v.path_to(t)[k - 1] == pp[k - 1]);
                } else {
                    assert(v.path_to(t)[k - 1] == pp.last());
                }
            }
        },
        None => {},
    }
}

/// The dispatch path of the active node is exactly the stack of open nodes,
/// and the context stack holds the contexts along that path.
pub proof fn lemma_active_path<K, A>(v: DispatchTreeView<K, A>)
    requires
        v.wf(),
        v.node_stack.len() > 0,
    ensures
        v.path_to(v.node_stack.last()) == v.node_stack,
        v.context_stack == v.contexts_on(v.path_to(v.node_stack.last())),
{
    lemma_stack_prefix_paths(v, (v.node_stack.len() - 1) as nat);
    assert(v.node_stack.take(v.node_stack.len() as int) =~= v.node_stack);
}

proof fn lemma_stack_prefix_paths<K, A>(v: DispatchTreeView<K, A>, k: nat)
    requires
        v.wf(),
        k < v.node_stack.len(),
    ensures
        v.path_to(v.node_stack[k as int]) == v.node_stack.take(k as int + 1),
    decreases k,
{
    let t = v.node_stack[k as int];
    assert(v.has(t));
    assert(v.nodes[t.0 as int] == v.node(t));
    if k == 0 {
        assert(v.node_stack.take(1) =~= seq![t]);
    } else {
        lemma_stack_prefix_paths(v, (k - 1) as nat);
        let p = v.node_stack[k - 1];
        assert(v.node(t).parent == Some(p));
        assert(p.0 < t.0);
        assert(v.node_stack.take(k as int + 1) =~= v.node_stack.take(k as int).push(t));
    }
}

/// Opening a node and closing it again leaves the stack of open nodes and
/// the context stack as they were; the tree keeps the new, empty node.
pub proof fn lemma_push_then_pop<K, A>(v: DispatchTreeView<K, A>)
    requires
        v.wf(),
        v.nodes.len() < usize::MAX,
    ensures
        v.pushed().popped().node_stack == v.node_stack,
        v.pushed().popped().context_stack == v.context_stack,
        v.pushed().popped().nodes == v.nodes.push(empty_node::<K, A>(v.active())),
{
    let w = v.pushed();
    assert(w.node_stack.drop_last() =~= v.node_stack);
    assert(w.node(w.node_stack.last()) == empty_node::<K, A>(v.active()));
}

/// After the active node gets a key context, that context is on top of the
/// context stack; giving it another one replaces it rather than stacking.
pub proof fn lemma_key_context_replaces<K, A>(v: DispatchTreeView<K, A>, c1: Seq<char>, c2: Seq<char>)
    requires
        v.wf(),
        v.node_stack.len() > 0,
    ensures
        v.with_key_context(c1).context_stack.last() == c1,
        v.with_key_context(c1).with_key_context(c2).context_stack == v.with_key_context(
            c2,
        ).context_stack,
{
    let w = v.with_key_context(c1);
    let active = v.node_stack.last();
    assert(v.has(v.node_stack[v.node_stack.len() - 1]));
    assert(w.node_stack == v.node_stack);
    assert(w.node(active).context == Some(c1));
    let base = if v.node(active).context is Some {
        v.context_stack.drop_last()
    } else {
        v.context_stack
    };
    assert(w.context_stack == base.push(c1));
    assert(w.context_stack.drop_last() =~= base);
}

/// Opening a node under the active one keeps a tree well formed.
proof fn lemma_pushed_wf<K, A>(v: DispatchTreeView<K, A>)
    requires
        v.wf(),
        v.nodes.len() < usize::MAX,
    ensures
        v.pushed().wf(),
{
    let v1 = v.pushed();
    let id = DispatchNodeId(v.nodes.len() as usize);
    assert forall|k: int| 0 <= k < v.node_stack.len() implies v1.node(
        #[trigger] v.node_stack[k],
    ).context == v.node(v.node_stack[k]).context by {
        assert(v.has(v.node_stack[k]));
    }
    lemma_contexts_frame(v1, v, v.node_stack);
    assert(v1.node_stack.drop_last() =~= v.node_stack);
    assert(v1.node_stack.last() == id);
    assert(v1.node(id).context is None);
    assert(v1.contexts_on(v1.node_stack) == v.contexts_on(v.node_stack));
    assert forall|i: int| 0 <= i < v1.nodes.len() implies match (#[trigger] v1.nodes[i]).parent {
        Some(p) => p.0 < i,
        None => true,
    } by {
        if i < v.nodes.len() {
            assert(v1.nodes[i] == v.nodes[i]);
        } else {
            if v.node_stack.len() > 0 {
                assert(v.has(v.node_stack[v.node_stack.len() - 1]));
            }
        }
    }
    assert forall|k: int| 0 <= k < v1.node_stack.len() implies v1.has(#[trigger] v1.node_stack[k]) by {
        if k < v.node_stack.len() {
            assert(v1.node_stack[k] == v.node_stack[k]);
        }
    }
    assert forall|k: int| 0 < k < v1.node_stack.len() implies v1.node(
        #[trigger] v1.node_stack[k],
    ).parent == Some(v1.node_stack[k - 1]) by {
        if k < v.node_stack.len() {
            assert(v1.node_stack[k] == v.node_stack[k]);
            assert(v.has(v.node_stack[k]));
        }
    }
    assert forall|j: int, k: int| 0 <= j < k < v1.node_stack.len() implies (#[trigger] v1.node_stack[
        j
    ]).0 < (#[trigger] v1.node_stack[k]).0 by {
        assert(v.has(v1.node_stack[j]));
    }
    if v.node_stack.len() > 0 {
        assert(v.has(v.node_stack[0]));
        assert(v1.node_stack[0] == v.node_stack[0]);
    }
    assert forall|f: FocusId| #[trigger] v1.focusable_node_ids.contains_key(f) implies v1.has(
        v1.focusable_node_ids[f],
    ) by {
        assert(v.focusable_node_ids.contains_key(f));
    }
}

/// Giving the active node key contexts keeps the tree well formed, keeps
/// the stack of open nodes and the number of nodes, and changes no node but
/// the active one.
proof fn lemma_key_contexts_frame<K, A>(v: DispatchTreeView<K, A>, cs: Seq<Seq<char>>)
    requires
        v.wf(),
        v.node_stack.len() > 0,
    ensures
        v.with_key_contexts(cs).wf(),
        v.with_key_contexts(cs).node_stack == v.node_stack,
        v.with_key_contexts(cs).nodes.len() == v.nodes.len(),
        forall|i: int|
            0 <= i < v.nodes.len() && i != v.node_stack.last().0 ==> #[trigger] v.with_key_contexts(
                cs,
            ).nodes[i] == v.nodes[i],
    decreases cs.len(),
{
    if cs.len() > 0 {
        let u = v.with_key_contexts(cs.drop_last());
        lemma_key_contexts_frame(v, cs.drop_last());
        lemma_with_key_context_wf(u, cs.last());
    }
}

/// Opening a node, giving it any number of key contexts and closing it
/// again leaves the stack of open nodes and the context stack as they were;
/// the tree keeps the new node, so it has one node more.
pub proof fn lemma_push_contexts_pop<K, A>(v: DispatchTreeView<K, A>, cs: Seq<Seq<char>>)
    requires
        v.wf(),
        v.nodes.len() < usize::MAX,
    ensures
        v.pushed().with_key_contexts(cs).popped().node_stack == v.node_stack,
        v.pushed().with_key_contexts(cs).popped().context_stack == v.context_stack,
        v.pushed().with_key_contexts(cs).popped().nodes.len() == v.nodes.len() + 1,
{
    let w = v.pushed();
    lemma_pushed_wf(v);
    lemma_key_contexts_frame(w, cs);
    let u = w.with_key_contexts(cs);
    let id = DispatchNodeId(v.nodes.len() as usize);
    assert(w.node_stack.last() == id);
    assert(u.node_stack =~= v.node_stack.push(id));
    assert(u.node_stack.drop_last() =~= v.node_stack);
    assert forall|k: int| 0 <= k < v.node_stack.len() implies u.node(#[trigger] v.node_stack[k]).context
        == v.node(v.node_stack[k]).context by {
        assert(v.has(v.node_stack[k]));
        assert(w.nodes[v.node_stack[k].0 as int] == v.nodes[v.node_stack[k].0 as int]);
    }
    lemma_contexts_frame(u, v, v.node_stack);
    assert(u.context_stack == u.contexts_on(u.node_stack));
    assert(u.node_stack.last() == id);
    if u.node(id).context is Some {
        assert(u.context_stack.drop_last() =~= u.contexts_on(v.node_stack));
    } else {
        assert(u.context_stack =~= u.contexts_on(v.node_stack));
    }
}

} // verus!
