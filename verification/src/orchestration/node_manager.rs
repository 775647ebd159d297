use vstd::prelude::*;
use vstd::hash_map::StringHashMap;

use crate::event_bus::{Event, EventBus, EventView};

verus! {

/// A node of the mesh as the orchestrator knows it.
#[derive(Clone, Debug)]
pub struct Node {
    pub id: String,
    pub status: String,
}

/// The events that upserting the node `id` into the registry `m` publishes:
/// a `NodeJoined` for an identifier that was not registered, none otherwise.
pub open spec fn upsert_events(m: Map<Seq<char>, Seq<char>>, id: Seq<char>) -> Seq<EventView> {
    if m.contains_key(id) {
        seq![]
    } else {
        seq![EventView::NodeJoined { node_id: id }]
    }
}

/// The registry `m` after upserting each `(identifier, status)` of `ups` in
/// turn; a later status for an identifier replaces an earlier one.
pub open spec fn apply_upserts(
    m: Map<Seq<char>, Seq<char>>,
    ups: Seq<(Seq<char>, Seq<char>)>,
) -> Map<Seq<char>, Seq<char>>
    decreases ups.len(),
{
    if ups.len() == 0 {
        m
    } else {
        apply_upserts(m, ups.drop_last()).insert(ups.last().0, ups.last().1)
    }
}

/// The events published while upserting `ups` in turn into `m`: one
/// `NodeJoined` for each identifier at the moment it first appears.
pub open spec fn upserts_events(
    m: Map<Seq<char>, Seq<char>>,
    ups: Seq<(Seq<char>, Seq<char>)>,
) -> Seq<EventView>
    decreases ups.len(),
{
    if ups.len() == 0 {
        seq![]
    } else {
        upserts_events(m, ups.drop_last()) + upsert_events(
            apply_upserts(m, ups.drop_last()),
            ups.last().0,
        )
    }
}

/// Every key of `nodes` stands in `ids`.
spec fn ids_cover(nodes: Map<Seq<char>, Node>, ids: Seq<String>) -> bool {
    forall|k: Seq<char>| #[trigger] nodes.contains_key(k) ==> exists|i: int|
        0 <= i < ids.len() && #[trigger] ids[i]@ == k
}

/// The nodes by identifier, with the identifiers in the order in which they
/// were first registered.
struct Registry {
    nodes: StringHashMap<Node>,
    ids: Vec<String>,
}

impl Registry {
    /// Each node is stored under its own identifier, and `ids` lists every
    /// registered identifier once.
    #[verifier::type_invariant]
    spec fn well_formed(self) -> bool {
        &&& forall|k: Seq<char>| #[trigger] self.nodes@.contains_key(k) ==> self.nodes@[k].id@ == k
        &&& forall|i: int| 0 <= i < self.ids.len() ==> self.nodes@.contains_key(#[trigger] self.ids@[i]@)
        &&& ids_cover(self.nodes@, self.ids@)
        &&& forall|i: int, j: int|
            0 <= i < j < self.ids.len() ==> #[trigger] self.ids@[i]@ != #[trigger] self.ids@[j]@
    }

    spec fn statuses(self) -> Map<Seq<char>, Seq<char>> {
        self.nodes@.map_values(|n: Node| n.status@)
    }

    spec fn order(self) -> Seq<Seq<char>> {
        self.ids@.map_values(|s: String| s@)
    }

    fn empty() -> (r: Registry)
        ensures
            r.statuses() == Map::<Seq<char>, Seq<char>>::empty(),
            r.order() == Seq::<Seq<char>>::empty(),
    {
        let r = Registry { nodes: StringHashMap::new(), ids: Vec::new() };
        assert(r.statuses() =~= Map::<Seq<char>, Seq<char>>::empty());
        assert(r.order() =~= Seq::<Seq<char>>::empty());
        r
    }

    /// This registry with `node` stored under its identifier, and whether the
    /// identifier is new.
    fn upserted(self, node: Node) -> (r: (Registry, bool))
        ensures
            r.0.statuses() == self.statuses().insert(node.id@, node.status@),
            r.1 == !self.statuses().contains_key(node.id@),
            r.0.order() == if r.1 {
                self.order().push(node.id@)
            } else {
                self.order()
            },
    {
        proof {
            use_type_invariant(&self);
        }
        let ghost old_nodes = self.nodes@;
        let ghost old_ids = self.ids@;
        let ghost new_node = node;
        let Registry { mut nodes, mut ids } = self;
        let known = nodes.contains_key(node.id.as_str());
        if !known {
            ids.push(node.id.clone());
        }
        let key = node.id.clone();
        nodes.insert(key, node);
        proof {
            assert(nodes@[new_node.id@] == new_node);
            assert forall|k: Seq<char>| #[trigger] nodes@.contains_key(k) implies nodes@[k].id@ == k by {
                if k != new_node.id@ {
                    assert(old_nodes.contains_key(k));
                }
            }
            assert(ids_cover(old_nodes, old_ids));
            assert forall|k: Seq<char>| #[trigger] nodes@.contains_key(k) implies exists|i: int|
                0 <= i < ids@.len() && #[trigger] ids@[i]@ == k by {
                if k != new_node.id@ {
                    let i = choose|i: int| 0 <= i < old_ids.len() && #[trigger] old_ids[i]@ == k;
                    assert(ids@[i] == old_ids[i]);
                } else if known {
                    let i = choose|i: int| 0 <= i < old_ids.len() && #[trigger] old_ids[i]@ == k;
                    assert(ids@[i] == old_ids[i]);
                } else {
                    assert(ids@[old_ids.len() as int]@ == k);
                }
            }
            assert(ids_cover(nodes@, ids@));
            assert forall|i: int| 0 <= i < ids.len() implies nodes@.contains_key(#[trigger] ids@[i]@) by {
                if i < old_ids.len() {
                    assert(ids@[i] == old_ids[i]);
                }
            }
            assert forall|i: int, j: int|
                0 <= i < j < ids.len() implies #[trigger] ids@[i]@ != #[trigger] ids@[j]@ by {
                assert(ids@[i] == old_ids[i]);
                if j < old_ids.len() {
                    assert(ids@[j] == old_ids[j]);
                } else {
                    assert(old_nodes.contains_key(old_ids[i]@));
                }
            }
        }
        let r = Registry { nodes, ids };
        proof {
            assert(r.statuses() =~= old_nodes.map_values(|n: Node| n.status@).insert(
                new_node.id@,
                new_node.status@,
            ));
            if known {
                assert(r.order() =~= old_ids.map_values(|s: String| s@));
            } else {
                assert(r.order() =~= old_ids.map_values(|s: String| s@).push(new_node.id@));
            }
        }
        (r, !known)
    }

    fn get(&self, id: &str) -> (found: Option<&Node>)
        ensures
            match found {
                Some(node) => self.statuses().contains_key(id@) && node.id@ == id@ && node.status@
                    == self.statuses()[id@],
                None => !self.statuses().contains_key(id@),
            },
    {
        proof {
            use_type_invariant(self);
        }
        self.nodes.get(id)
    }

    fn identifiers(&self) -> (list: Vec<String>)
        ensures
            forall|i: int| 0 <= i < list.len() ==> self.statuses().contains_key(#[trigger] list@[i]@),
            forall|k: Seq<char>| #[trigger] self.statuses().contains_key(k) ==> exists|i: int|
                0 <= i < list.len() && #[trigger] list@[i]@ == k,
            forall|i: int, j: int| 0 <= i < j < list.len() ==> #[trigger] list@[i]@ != #[trigger] list@[j]@,
            list@.map_values(|s: String| s@) == self.order(),
    {
        proof {
            use_type_invariant(self);
        }
        let n = self.ids.len();
        let mut list: Vec<String> = Vec::new();
        let mut i: usize = 0;
        while i < n
            invariant
                n == self.ids.len(),
                i <= n,
                list.len() == i,
                forall|j: int| 0 <= j < i ==> #[trigger] list@[j] == self.ids@[j],
            decreases n - i,
        {
            list.push(self.ids[i].clone());
            i = i + 1;
        }
        proof {
            assert(ids_cover(self.nodes@, self.ids@));
            assert forall|k: Seq<char>| #[trigger] self.statuses().contains_key(k) implies exists|i: int|
                0 <= i < list.len() && #[trigger] list@[i]@ == k by {
                assert(self.nodes@.contains_key(k));
                let i = choose|i: int| 0 <= i < self.ids.len() && #[trigger] self.ids@[i]@ == k;
                assert(list@[i] == self.ids@[i]);
            }
            assert forall|i: int, j: int| 0 <= i < j < list.len() implies #[trigger] list@[i]@ != #[trigger] list@[j]@ by {
                assert(list@[i] == self.ids@[i]);
                assert(list@[j] == self.ids@[j]);
            }
            assert forall|i: int| 0 <= i < list.len() implies self.statuses().contains_key(#[trigger] list@[i]@) by {
                assert(list@[i] == self.ids@[i]);
            }
            assert(list@.map_values(|s: String| s@) =~= self.order());
        }
        list
    }
}

/// The order of first registrations after registering `id` into a registry
/// `m` whose order was `order`: a new identifier goes last.
pub open spec fn first_registrations(
    order: Seq<Seq<char>>,
    m: Map<Seq<char>, Seq<char>>,
    id: Seq<char>,
) -> Seq<Seq<char>> {
    if m.contains_key(id) {
        order
    } else {
        order.push(id)
    }
}

/// Registry of the nodes of the mesh, keyed by node identifier.
pub struct NodeManager {
    registry: Registry,
    event_bus: EventBus,
}

impl View for NodeManager {
    /// The status of each registered node, by identifier.
    type V = Map<Seq<char>, Seq<char>>;

    closed spec fn view(&self) -> Map<Seq<char>, Seq<char>> {
        self.registry.statuses()
    }
}

impl NodeManager {
    /// The bus on which this registry publishes.
    pub closed spec fn event_bus(&self) -> EventBus {
        self.event_bus
    }

    /// The identifiers of the registered nodes in the order in which they
    /// were first registered.
    pub closed spec fn registration_order(&self) -> Seq<Seq<char>> {
        self.registry.order()
    }

    /// The events sent through this registry's bus, oldest first.
    pub open spec fn published_events(&self) -> Seq<EventView> {
        self.event_bus().sent_events()
    }

    /// An empty registry that publishes on `event_bus`.
    pub fn new(event_bus: EventBus) -> (manager: Self)
        ensures
            manager@ == Map::<Seq<char>, Seq<char>>::empty(),
            manager.registration_order() == Seq::<Seq<char>>::empty(),
            manager.event_bus() == event_bus,
    {
        NodeManager { registry: Registry::empty(), event_bus }
    }

    /// Stores `node` in the registry and tells whether its identifier is new.
    fn store(&mut self, node: Node) -> (is_new: bool)
        ensures
            final(self)@ == old(self)@.insert(node.id@, node.status@),
            is_new == !old(self)@.contains_key(node.id@),
            final(self).event_bus() == old(self).event_bus(),
            final(self).registration_order() == first_registrations(
                old(self).registration_order(),
                old(self)@,
                node.id@,
            ),
    {
        let mut registry = Registry::empty();
        std::mem::swap(&mut registry, &mut self.registry);
        let (registry, is_new) = registry.upserted(node);
        self.registry = registry;
        is_new
    }

    /// Stores `node` under its identifier, replacing any node registered with
    /// that identifier, and publishes `NodeJoined` for it.
    pub fn register_node(&mut self, node: Node)
        ensures
            final(self)@ == old(self)@.insert(node.id@, node.status@),
            final(self).registration_order() == first_registrations(
                old(self).registration_order(),
                old(self)@,
                node.id@,
            ),
            final(self).published_events() == old(self).published_events().push(
                EventView::NodeJoined { node_id: node.id@ },
            ),
            final(self).event_bus().continues(&old(self).event_bus()),
    {
        let id = node.id.clone();
        self.store(node);
        self.event_bus.publish(Event::NodeJoined { node_id: id });
    }

    /// The node registered under `id`, if any.
    pub fn get_node(&self, id: &str) -> (found: Option<&Node>)
        ensures
            match found {
                Some(node) => self@.contains_key(id@) && node.id@ == id@ && node.status@ == self@[id@],
                None => !self@.contains_key(id@),
            },
    {
        self.registry.get(id)
    }

    /// The identifiers of all registered nodes, each once, in the order in
    /// which they were first registered.
    pub fn node_ids(&self) -> (ids: Vec<String>)
        ensures
            forall|i: int| 0 <= i < ids.len() ==> self@.contains_key(#[trigger] ids@[i]@),
            forall|k: Seq<char>| #[trigger] self@.contains_key(k) ==> exists|i: int|
                0 <= i < ids.len() && #[trigger] ids@[i]@ == k,
            forall|i: int, j: int| 0 <= i < j < ids.len() ==> #[trigger] ids@[i]@ != #[trigger] ids@[j]@,
            ids@.map_values(|s: String| s@) == self.registration_order(),
    {
        self.registry.identifiers()
    }

    /// Sets the status of the node `id`. A node not yet registered is
    /// registered with that status, and `NodeJoined` is published for it;
    /// for a known node only the status changes.
    pub fn register_or_update_node(&mut self, id: String, status: String)
        ensures
            final(self)@ == old(self)@.insert(id@, status@),
            final(self).registration_order() == first_registrations(
                old(self).registration_order(),
                old(self)@,
                id@,
            ),
            final(self).published_events() == old(self).published_events() + upsert_events(
                old(self)@,
                id@,
            ),
            final(self).event_bus().continues(&old(self).event_bus()),
    {
        let key = id.clone();
        let is_new = self.store(Node { id, status });
        if is_new {
            self.event_bus.publish(Event::NodeJoined { node_id: key });
        }
        assert(self.published_events() =~= old(self).published_events() + upsert_events(old(self)@, id@));
    }
}

/// The registry that upserting `ups` into an empty registry yields.
pub open spec fn upserts_alone(ups: Seq<(Seq<char>, Seq<char>)>) -> Map<Seq<char>, Seq<char>> {
    apply_upserts(Map::empty(), ups)
}

/// A read gives back what a write wrote, and leaves the other nodes as they
/// were: after registering `id` with `status`, `id` is found with `status`.
pub proof fn lemma_read_after_register(m: Map<Seq<char>, Seq<char>>, id: Seq<char>, status: Seq<char>)
    ensures
        m.insert(id, status).contains_key(id),
        m.insert(id, status)[id] == status,
        forall|k: Seq<char>|
            k != id ==> (#[trigger] m.insert(id, status).contains_key(k) == m.contains_key(k)
                && (m.contains_key(k) ==> m.insert(id, status)[k] == m[k])),
{
}

/// Upserting a sequence keeps every node it does not name and sets each node
/// it names to the last status named for it.
pub proof fn lemma_upserts_override(
    m: Map<Seq<char>, Seq<char>>,
    ups: Seq<(Seq<char>, Seq<char>)>,
)
    ensures
        apply_upserts(m, ups) =~= m.union_prefer_right(upserts_alone(ups)),
    decreases ups.len(),
{
    if ups.len() > 0 {
        lemma_upserts_override(m, ups.drop_last());
        lemma_upserts_override(Map::empty(), ups.drop_last());
        assert(Map::<Seq<char>, Seq<char>>::empty().union_prefer_right(upserts_alone(ups.drop_last()))
            =~= upserts_alone(ups.drop_last()));
    }
}

/// Every node that a sequence of upserts names is registered afterwards.
pub proof fn lemma_upserted_ids_registered(
    m: Map<Seq<char>, Seq<char>>,
    ups: Seq<(Seq<char>, Seq<char>)>,
)
    ensures
        forall|i: int| 0 <= i < ups.len() ==> #[trigger] apply_upserts(m, ups).contains_key(ups[i].0),
    decreases ups.len(),
{
    if ups.len() > 0 {
        let front = ups.drop_last();
        lemma_upserted_ids_registered(m, front);
        assert(apply_upserts(m, ups) == apply_upserts(m, front).insert(ups.last().0, ups.last().1));
        assert forall|i: int| 0 <= i < ups.len() implies #[trigger] apply_upserts(m, ups).contains_key(ups[i].0) by {
            if i < ups.len() - 1 {
                assert(front[i] == ups[i]);
                assert(apply_upserts(m, front).contains_key(front[i].0));
            }
        }
    }
}

/// Upserting only nodes that are registered already publishes nothing.
pub proof fn lemma_upserts_of_known_nodes_publish_nothing(
    m: Map<Seq<char>, Seq<char>>,
    ups: Seq<(Seq<char>, Seq<char>)>,
)
    requires
        forall|i: int| 0 <= i < ups.len() ==> m.contains_key(#[trigger] ups[i].0),
    ensures
        upserts_events(m, ups) =~= Seq::<EventView>::empty(),
    decreases ups.len(),
{
    if ups.len() > 0 {
        let front = ups.drop_last();
        assert forall|i: int| 0 <= i < front.len() implies m.contains_key(#[trigger] front[i].0) by {
            assert(front[i] == ups[i]);
        }
        lemma_upserts_of_known_nodes_publish_nothing(m, front);
        lemma_upserts_override(m, front);
        assert(m.contains_key(ups[ups.len() - 1].0));
    }
}

/// Applying the same upserts twice is applying them once: the registry does
/// not change the second time and no event is published.
pub proof fn lemma_upserts_idempotent(
    m: Map<Seq<char>, Seq<char>>,
    ups: Seq<(Seq<char>, Seq<char>)>,
)
    ensures
        apply_upserts(apply_upserts(m, ups), ups) == apply_upserts(m, ups),
        upserts_events(apply_upserts(m, ups), ups) =~= Seq::<EventView>::empty(),
{
    let once = apply_upserts(m, ups);
    lemma_upserts_override(m, ups);
    lemma_upserts_override(once, ups);
    assert(once.union_prefer_right(upserts_alone(ups)) =~= once);
    lemma_upserted_ids_registered(m, ups);
    lemma_upserts_of_known_nodes_publish_nothing(once, ups);
}

/// After registering the nodes `ups` in turn into an empty registry, a node
/// is found exactly when it was registered, and with the status of its last
/// registration.
pub proof fn lemma_lookup_after_registrations(ups: Seq<(Seq<char>, Seq<char>)>)
    ensures
        forall|k: Seq<char>|
            #[trigger] upserts_alone(ups).contains_key(k) <==> exists|i: int|
                0 <= i < ups.len() && #[trigger] ups[i].0 == k,
        forall|i: int|
            0 <= i < ups.len() && (forall|j: int| i < j < ups.len() ==> #[trigger] ups[j].0 != ups[i].0)
                ==> #[trigger] upserts_alone(ups)[ups[i].0] == ups[i].1,
    decreases ups.len(),
{
    if ups.len() > 0 {
        let front = ups.drop_last();
        lemma_lookup_after_registrations(front);
        let m = upserts_alone(ups);
        assert(m == upserts_alone(front).insert(ups.last().0, ups.last().1));
        assert forall|k: Seq<char>| #[trigger] m.contains_key(k) <==> exists|i: int|
            0 <= i < ups.len() && #[trigger] ups[i].0 == k by {
            if m.contains_key(k) && k != ups.last().0 {
                let i = choose|i: int| 0 <= i < front.len() && #[trigger] front[i].0 == k;
                assert(ups[i] == front[i]);
            }
            if exists|i: int| 0 <= i < ups.len() && #[trigger] ups[i].0 == k {
                let i = choose|i: int| 0 <= i < ups.len() && #[trigger] ups[i].0 == k;
                if i < front.len() {
                    assert(front[i] == ups[i]);
                    assert(upserts_alone(front).contains_key(front[i].0));
                }
            }
        }
        assert forall|i: int|
            0 <= i < ups.len() && (forall|j: int| i < j < ups.len() ==> #[trigger] ups[j].0 != ups[i].0)
                implies #[trigger] m[ups[i].0] == ups[i].1 by {
            if i < front.len() {
                assert(front[i] == ups[i]);
                assert(ups[ups.len() - 1].0 != ups[i].0);
                assert forall|j: int| i < j < front.len() implies #[trigger] front[j].0 != front[i].0 by {
                    assert(front[j] == ups[j]);
                }
            }
        }
    }
}

/// Upserting a sequence registers no identifier that it does not name.
pub proof fn lemma_upserts_add_only_named(m: Map<Seq<char>, Seq<char>>, ups: Seq<(Seq<char>, Seq<char>)>)
    ensures
        forall|k: Seq<char>|
            #[trigger] apply_upserts(m, ups).contains_key(k) ==> m.contains_key(k) || exists|i: int|
                0 <= i < ups.len() && #[trigger] ups[i].0 == k,
    decreases ups.len(),
{
    if ups.len() > 0 {
        let front = ups.drop_last();
        lemma_upserts_add_only_named(m, front);
        assert forall|k: Seq<char>|
            #[trigger] apply_upserts(m, ups).contains_key(k) implies m.contains_key(k) || exists|i: int|
                0 <= i < ups.len() && #[trigger] ups[i].0 == k by {
            if k == ups.last().0 {
                assert(ups[ups.len() - 1].0 == k);
            } else {
                assert(apply_upserts(m, front).contains_key(k));
                if !m.contains_key(k) {
                    let i = choose|i: int| 0 <= i < front.len() && #[trigger] front[i].0 == k;
                    assert(ups[i] == front[i]);
                }
            }
        }
    }
}

/// Upserting a sequence publishes only `NodeJoined`, each for an identifier
/// that it names and that was not registered before.
pub proof fn lemma_upserts_announce_only_new_named(
    m: Map<Seq<char>, Seq<char>>,
    ups: Seq<(Seq<char>, Seq<char>)>,
)
    ensures
        forall|j: int|
            0 <= j < upserts_events(m, ups).len() ==> {
                &&& #[trigger] upserts_events(m, ups)[j] is NodeJoined
                &&& !m.contains_key(upserts_events(m, ups)[j]->NodeJoined_node_id)
                &&& exists|i: int|
                    0 <= i < ups.len() && #[trigger] ups[i].0 == upserts_events(m, ups)[j]->NodeJoined_node_id
            },
    decreases ups.len(),
{
    if ups.len() > 0 {
        let front = ups.drop_last();
        lemma_upserts_announce_only_new_named(m, front);
        lemma_upserts_override(m, front);
        let ev = upserts_events(m, ups);
        let prev = upserts_events(m, front);
        assert forall|j: int| 0 <= j < ev.len() implies {
            &&& #[trigger] ev[j] is NodeJoined
            &&& !m.contains_key(ev[j]->NodeJoined_node_id)
            &&& exists|i: int| 0 <= i < ups.len() && #[trigger] ups[i].0 == ev[j]->NodeJoined_node_id
        } by {
            if j < prev.len() {
                assert(ev[j] == prev[j]);
                let i = choose|i: int| 0 <= i < front.len() && #[trigger] front[i].0 == prev[j]->NodeJoined_node_id;
                assert(ups[i] == front[i]);
            } else {
                assert(ev[j] == EventView::NodeJoined { node_id: ups.last().0 });
                assert(ups[ups.len() - 1].0 == ev[j]->NodeJoined_node_id);
            }
        }
    }
}

} // verus!
