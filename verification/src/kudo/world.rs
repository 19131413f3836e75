use vstd::prelude::*;

verus! {

/// Identifies a kind of component.
pub type ComponentId = u64;

/// A handle to an entity in a [World].
#[derive(Clone, Copy, Debug, PartialEq, Eq, Structural)]
pub struct Entity {
    pub index: u32,
    pub generation: u32,
}

/// The generation an index takes when its entity is despawned: one more,
/// wrapping around at `u32::MAX`.
pub open spec fn next_generation(g: u32) -> u32 {
    if g == u32::MAX {
        0
    } else {
        (g + 1) as u32
    }
}

/// Where an entity's components are stored.
#[derive(Clone, Copy, Debug, PartialEq, Eq, Structural)]
pub struct EntityLocation {
    pub archetype_index: usize,
    pub index_within_archetype: usize,
}

/// Errors reported by [World] operations and queries.
#[derive(Clone, Copy, Debug, PartialEq, Eq, Structural)]
pub enum KudoError {
    /// The entity was despawned, or never existed in this world.
    EntityMissing,
    /// No component of the requested kind was found.
    NoMatchingComponent,
}

/// Strictly increasing, hence free of duplicates.
pub open spec fn strictly_sorted(s: Seq<ComponentId>) -> bool {
    forall|i: int, j: int| 0 <= i < j < s.len() ==> #[trigger] s[i] < #[trigger] s[j]
}

/// The components held by one row: each id maps to the value beside it.
pub open spec fn row_map<V>(ids: Seq<ComponentId>, row: Seq<V>) -> Map<ComponentId, V>
    decreases ids.len(),
{
    if ids.len() == 0 || row.len() == 0 {
        Map::empty()
    } else {
        row_map(ids.drop_last(), row.drop_last()).insert(ids.last(), row.last())
    }
}

/// The components of a bundle, where a later entry for an id replaces an
/// earlier one.
pub open spec fn bundle_map<V>(bundle: Seq<(ComponentId, V)>) -> Map<ComponentId, V>
    decreases bundle.len(),
{
    if bundle.len() == 0 {
        Map::empty()
    } else {
        bundle_map(bundle.drop_last()).insert(bundle.last().0, bundle.last().1)
    }
}

pub proof fn lemma_row_map_dom<V>(ids: Seq<ComponentId>, row: Seq<V>)
    requires
        ids.len() == row.len(),
    ensures
        row_map(ids, row).dom() == ids.to_set(),
    decreases ids.len(),
{
    if ids.len() > 0 {
        lemma_row_map_dom(ids.drop_last(), row.drop_last());
        assert forall|c: ComponentId| #[trigger] ids.to_set().contains(c) <==> ids.drop_last().to_set().insert(ids.last()).contains(c) by {
            if ids.contains(c) {
                let k = choose|k: int| 0 <= k < ids.len() && ids[k] == c;
                if k < ids.len() - 1 {
                    assert(ids.drop_last()[k] == c);
                }
            }
            if ids.drop_last().contains(c) {
                let k = choose|k: int| 0 <= k < ids.drop_last().len() && ids.drop_last()[k] == c;
                assert(ids[k] == c);
            }
            if c == ids.last() {
                assert(ids[ids.len() - 1] == c);
            }
        }
        assert(ids.to_set() =~= ids.drop_last().to_set().insert(ids.last()));
    } else {
        assert(ids.to_set() =~= Set::empty());
    }
}

pub proof fn lemma_row_map_value<V>(ids: Seq<ComponentId>, row: Seq<V>, k: int)
    requires
        ids.len() == row.len(),
        ids.no_duplicates(),
        0 <= k < ids.len(),
    ensures
        row_map(ids, row).contains_key(ids[k]),
        row_map(ids, row)[ids[k]] == row[k],
    decreases ids.len(),
{
    if k < ids.len() - 1 {
        lemma_row_map_value(ids.drop_last(), row.drop_last(), k);
        assert(ids.drop_last()[k] == ids[k]);
        assert(ids[k] != ids.last());
    }
}

pub proof fn lemma_sorted_no_duplicates(s: Seq<ComponentId>)
    requires
        strictly_sorted(s),
    ensures
        s.no_duplicates(),
{
    assert forall|i: int, j: int| 0 <= i < s.len() && 0 <= j < s.len() && i != j implies s[i] != s[j] by {
        if i < j {
            assert(s[i] < s[j]);
        } else {
            assert(s[j] < s[i]);
        }
    }
}

/// Two rows describe the same components when they agree at every index.
pub proof fn lemma_row_map_ext<V>(
    ids1: Seq<ComponentId>,
    row1: Seq<V>,
    ids2: Seq<ComponentId>,
    row2: Seq<V>,
    m: Map<ComponentId, V>,
)
    requires
        ids1.len() == row1.len(),
        ids2.len() == row2.len(),
        ids2.no_duplicates(),
        ids2.to_set() == m.dom(),
        forall|k: int| 0 <= k < ids2.len() ==> m[#[trigger] ids2[k]] == row2[k],
    ensures
        row_map(ids2, row2) == m,
{
    lemma_row_map_dom(ids2, row2);
    assert forall|c: ComponentId| #[trigger] m.contains_key(c) implies row_map(ids2, row2)[c] == m[c] by {
        assert(ids2.to_set().contains(c));
        let k = choose|k: int| 0 <= k < ids2.len() && ids2[k] == c;
        lemma_row_map_value(ids2, row2, k);
    }
    assert(row_map(ids2, row2) =~= m);
}

/// Inserting `c` at position `p` of a sorted id list, with `v` beside it,
/// adds `c -> v` to the row's components and keeps the list sorted.
pub proof fn lemma_row_insert<V>(ids: Seq<ComponentId>, row: Seq<V>, p: int, c: ComponentId, v: V)
    requires
        ids.len() == row.len(),
        strictly_sorted(ids),
        0 <= p <= ids.len(),
        forall|j: int| 0 <= j < p ==> #[trigger] ids[j] < c,
        forall|j: int| p <= j < ids.len() ==> c < #[trigger] ids[j],
    ensures
        strictly_sorted(ids.insert(p, c)),
        row_map(ids.insert(p, c), row.insert(p, v)) == row_map(ids, row).insert(c, v),
{
    let ids2 = ids.insert(p, c);
    let row2 = row.insert(p, v);
    assert forall|i: int, j: int| 0 <= i < j < ids2.len() implies #[trigger] ids2[i] < #[trigger] ids2[j] by {
        if j < p {
        } else if j == p {
            assert(ids2[i] == ids[i]);
        } else if i < p {
            assert(ids2[j] == ids[j - 1]);
        } else if i == p {
            assert(ids2[j] == ids[j - 1]);
        } else {
            assert(ids2[i] == ids[i - 1]);
            assert(ids2[j] == ids[j - 1]);
        }
    }
    lemma_sorted_no_duplicates(ids);
    lemma_sorted_no_duplicates(ids2);
    lemma_row_map_dom(ids, row);
    let m = row_map(ids, row).insert(c, v);
    assert forall|x: ComponentId| ids2.to_set().contains(x) <==> #[trigger] m.dom().contains(x) by {
        if ids2.contains(x) {
            let k = choose|k: int| 0 <= k < ids2.len() && ids2[k] == x;
            if k < p {
                assert(ids[k] == x);
            } else if k > p {
                assert(ids[k - 1] == x);
            }
        }
        if ids.contains(x) {
            let k = choose|k: int| 0 <= k < ids.len() && ids[k] == x;
            if k < p {
                assert(ids2[k] == x);
            } else {
                assert(ids2[k + 1] == x);
            }
        }
        if x == c {
            assert(ids2[p] == x);
        }
    }
    assert(ids2.to_set() =~= m.dom());
    assert forall|k: int| 0 <= k < ids2.len() implies m[#[trigger] ids2[k]] == row2[k] by {
        if k < p {
            lemma_row_map_value(ids, row, k);
        } else if k > p {
            lemma_row_map_value(ids, row, k - 1);
        }
    }
    lemma_row_map_ext(ids, row, ids2, row2, m);
}

/// Replacing the value beside `ids[p]` replaces that component's value.
pub proof fn lemma_row_update<V>(ids: Seq<ComponentId>, row: Seq<V>, p: int, v: V)
    requires
        ids.len() == row.len(),
        ids.no_duplicates(),
        0 <= p < ids.len(),
    ensures
        row_map(ids, row.update(p, v)) == row_map(ids, row).insert(ids[p], v),
{
    let row2 = row.update(p, v);
    let m = row_map(ids, row).insert(ids[p], v);
    lemma_row_map_dom(ids, row);
    assert forall|x: ComponentId| ids.to_set().contains(x) <==> #[trigger] m.dom().contains(x) by {
        if x == ids[p] {
            assert(ids.contains(x));
        }
    }
    assert(ids.to_set() =~= m.dom());
    assert forall|k: int| 0 <= k < ids.len() implies m[#[trigger] ids[k]] == row2[k] by {
        if k != p {
            lemma_row_map_value(ids, row, k);
        }
    }
    lemma_row_map_ext(ids, row, ids, row2, m);
}

/// Removing position `p` of both lists removes that component.
pub proof fn lemma_row_remove<V>(ids: Seq<ComponentId>, row: Seq<V>, p: int)
    requires
        ids.len() == row.len(),
        strictly_sorted(ids),
        0 <= p < ids.len(),
    ensures
        strictly_sorted(ids.remove(p)),
        row_map(ids.remove(p), row.remove(p)) == row_map(ids, row).remove(ids[p]),
{
    let ids2 = ids.remove(p);
    let row2 = row.remove(p);
    assert forall|i: int, j: int| 0 <= i < j < ids2.len() implies #[trigger] ids2[i] < #[trigger] ids2[j] by {
        if j < p {
        } else if i < p {
            assert(ids2[j] == ids[j + 1]);
        } else {
            assert(ids2[i] == ids[i + 1]);
            assert(ids2[j] == ids[j + 1]);
        }
    }
    lemma_sorted_no_duplicates(ids);
    lemma_sorted_no_duplicates(ids2);
    lemma_row_map_dom(ids, row);
    let m = row_map(ids, row).remove(ids[p]);
    assert forall|x: ComponentId| ids2.to_set().contains(x) <==> #[trigger] m.dom().contains(x) by {
        if ids2.contains(x) {
            let k = choose|k: int| 0 <= k < ids2.len() && ids2[k] == x;
            if k < p {
                assert(ids[k] == x);
            } else {
                assert(ids[k + 1] == x);
                assert(ids[p] < ids[k + 1]);
            }
        }
        if ids.contains(x) && x != ids[p] {
            let k = choose|k: int| 0 <= k < ids.len() && ids[k] == x;
            if k < p {
                assert(ids2[k] == x);
            } else {
                assert(k != p);
                assert(ids2[k - 1] == x);
            }
        }
    }
    assert(ids2.to_set() =~= m.dom());
    assert forall|k: int| 0 <= k < ids2.len() implies m[#[trigger] ids2[k]] == row2[k] by {
        if k < p {
            lemma_row_map_value(ids, row, k);
        } else {
            lemma_row_map_value(ids, row, k + 1);
        }
    }
    lemma_row_map_ext(ids, row, ids2, row2, m);
}

/// Adds `c -> v` to a row kept in id order: the value is replaced where the
/// id is already present, and inserted at its place otherwise.
fn row_insert<V>(ids: &mut Vec<ComponentId>, row: &mut Vec<V>, c: ComponentId, v: V)
    requires
        strictly_sorted(old(ids)@),
        old(ids)@.len() == old(row)@.len(),
    ensures
        strictly_sorted(final(ids)@),
        final(ids)@.len() == final(row)@.len(),
        row_map(final(ids)@, final(row)@) == row_map(old(ids)@, old(row)@).insert(c, v),
{
    let mut p: usize = 0;
    while p < ids.len() && ids[p] < c
        invariant
            p <= ids@.len(),
            forall|j: int| 0 <= j < p ==> #[trigger] ids@[j] < c,
        decreases ids@.len() - p,
    {
        p += 1;
    }
    if p < ids.len() && ids[p] == c {
        proof {
            lemma_sorted_no_duplicates(ids@);
            lemma_row_update(ids@, row@, p as int, v);
        }
        row.set(p, v);
    } else {
        proof {
            assert forall|j: int| p <= j < ids@.len() implies c < #[trigger] ids@[j] by {
                assert(ids@[p as int] > c);
                if j > p {
                    assert(ids@[p as int] < ids@[j]);
                }
            }
            lemma_row_insert(ids@, row@, p as int, c, v);
        }
        ids.insert(p, c);
        row.insert(p, v);
    }
}

/// Adds every component of `bundle` to a row kept in id order.
fn row_insert_all<V: Copy>(ids: &mut Vec<ComponentId>, row: &mut Vec<V>, bundle: &Vec<(ComponentId, V)>)
    requires
        strictly_sorted(old(ids)@),
        old(ids)@.len() == old(row)@.len(),
    ensures
        strictly_sorted(final(ids)@),
        final(ids)@.len() == final(row)@.len(),
        row_map(final(ids)@, final(row)@) == row_map(old(ids)@, old(row)@).union_prefer_right(
            bundle_map(bundle@),
        ),
{
    let ghost start = row_map(ids@, row@);
    let mut k: usize = 0;
    assert(start.union_prefer_right(bundle_map(bundle@.take(0))) =~= start) by {
        assert(bundle@.take(0).len() == 0);
    }
    while k < bundle.len()
        invariant
            k <= bundle@.len(),
            strictly_sorted(ids@),
            ids@.len() == row@.len(),
            row_map(ids@, row@) == start.union_prefer_right(bundle_map(bundle@.take(k as int))),
        decreases bundle@.len() - k,
    {
        let (c, v) = bundle[k];
        row_insert(ids, row, c, v);
        proof {
            assert(bundle@.take(k + 1).drop_last() =~= bundle@.take(k as int));
            assert(start.union_prefer_right(bundle_map(bundle@.take(k + 1))) =~= start.union_prefer_right(
                bundle_map(bundle@.take(k as int)),
            ).insert(c, v));
        }
        k += 1;
    }
    assert(bundle@.take(bundle@.len() as int) =~= bundle@);
}


/// Entities that share one set of component kinds, stored row by row:
/// `rows[r]` holds the values of `entities[r]`, in the order of
/// `component_ids`.
pub struct Archetype<V> {
    pub index_in_world: usize,
    pub component_ids: Vec<ComponentId>,
    pub entities: Vec<Entity>,
    pub rows: Vec<Vec<V>>,
}

impl<V> Archetype<V> {
    pub open spec fn shape_ok(&self, index: int) -> bool {
        &&& self.index_in_world == index
        &&& strictly_sorted(self.component_ids@)
        &&& self.rows@.len() == self.entities@.len()
        &&& forall|r: int|
            0 <= r < self.rows@.len() ==> (#[trigger] self.rows@[r])@.len()
                == self.component_ids@.len()
    }

    fn new(index_in_world: usize, component_ids: Vec<ComponentId>) -> (a: Self)
        requires
            strictly_sorted(component_ids@),
        ensures
            a.shape_ok(index_in_world as int),
            a.component_ids@ == component_ids@,
            a.entities@.len() == 0,
    {
        Archetype { index_in_world, component_ids, entities: Vec::new(), rows: Vec::new() }
    }
}

/// A store of entities and their components, grouped into archetypes by
/// the set of component kinds each entity has.
pub struct World<V> {
    archetypes: Vec<Archetype<V>>,
    locations: Vec<Option<EntityLocation>>,
    generations: Vec<u32>,
    free_indices: Vec<u32>,
}

impl<V: Copy> World<V> {
    pub closed spec fn archetype_seq(&self) -> Seq<Archetype<V>> {
        self.archetypes@
    }

    /// Where `index`'s location points, the entity recorded there is the
    /// live entity with that index.
    pub closed spec fn location_ok(&self, index: int) -> bool {
        let loc = self.locations@[index]->Some_0;
        &&& loc.archetype_index < self.archetypes@.len()
        &&& loc.index_within_archetype < self.archetypes@[loc.archetype_index as int].entities@.len()
        &&& self.archetypes@[loc.archetype_index as int].entities@[loc.index_within_archetype as int]
            == Entity { index: index as u32, generation: self.generations@[index] }
    }

    /// The entity stored at row `r` of archetype `a` is live and located there.
    pub closed spec fn entry_ok(&self, a: int, r: int) -> bool {
        let e = self.archetypes@[a].entities@[r];
        &&& (e.index as int) < self.locations@.len()
        &&& self.locations@[e.index as int] == Some(
            EntityLocation { archetype_index: a as usize, index_within_archetype: r as usize },
        )
        &&& self.generations@[e.index as int] == e.generation
    }

    pub closed spec fn wf(&self) -> bool {
        &&& self.archetypes@.len() >= 1
        &&& self.archetypes@[0].component_ids@.len() == 0
        &&& forall|a: int|
            0 <= a < self.archetypes@.len() ==> (#[trigger] self.archetypes@[a]).shape_ok(a)
        &&& forall|a: int, b: int|
            0 <= a < b < self.archetypes@.len() ==> (#[trigger] self.archetypes@[a]).component_ids@
                != (#[trigger] self.archetypes@[b]).component_ids@
        &&& self.locations@.len() == self.generations@.len()
        &&& self.locations@.len() <= u32::MAX
        &&& self.free_indices@.no_duplicates()
        &&& forall|f: int|
            0 <= f < self.free_indices@.len() ==> (#[trigger] self.free_indices@[f] as int)
                < self.locations@.len() && self.locations@[self.free_indices@[f] as int] is None
        &&& forall|i: int|
            0 <= i < self.locations@.len() && (#[trigger] self.locations@[i]) is Some
                ==> self.location_ok(i)
        &&& forall|a: int, r: int|
            0 <= a < self.archetypes@.len() && 0 <= r < self.archetypes@[a].entities@.len()
                ==> #[trigger] self.entry_ok(a, r)
    }

    /// The entity is alive in this world.
    pub closed spec fn is_live(&self, e: Entity) -> bool {
        &&& (e.index as int) < self.locations@.len()
        &&& self.locations@[e.index as int] is Some
        &&& self.generations@[e.index as int] == e.generation
    }

    /// The recorded location of a live entity.
    pub closed spec fn spec_location(&self, e: Entity) -> EntityLocation {
        self.locations@[e.index as int]->Some_0
    }

    /// The components of a live entity.
    pub closed spec fn components_of(&self, e: Entity) -> Map<ComponentId, V> {
        let loc = self.locations@[e.index as int]->Some_0;
        let arch = self.archetypes@[loc.archetype_index as int];
        row_map(arch.component_ids@, arch.rows@[loc.index_within_archetype as int]@)
    }

    /// Every live entity and its components.
    pub closed spec fn view(&self) -> Map<Entity, Map<ComponentId, V>> {
        Map::new(|e: Entity| self.is_live(e), |e: Entity| self.components_of(e))
    }

    /// The number of archetypes.
    pub closed spec fn spec_archetype_count(&self) -> int {
        self.archetypes@.len() as int
    }

    /// An empty world with a single archetype, the one for entities
    /// without components.
    pub fn new() -> (w: Self)
        ensures
            w.wf(),
            w.view() == Map::<Entity, Map<ComponentId, V>>::empty(),
            w.spec_archetype_count() == 1,
            w.can_spawn(),
            w.spare_indices() == u32::MAX,
    {
        let mut archetypes = Vec::new();
        archetypes.push(Archetype::new(0, Vec::new()));
        let w = World {
            archetypes,
            locations: Vec::new(),
            generations: Vec::new(),
            free_indices: Vec::new(),
        };
        assert(w.view() =~= Map::<Entity, Map<ComponentId, V>>::empty());
        w
    }

    /// The archetypes, in creation order.
    pub fn archetypes(&self) -> (r: &Vec<Archetype<V>>)
        ensures
            r@ == self.archetype_seq(),
            r@.len() == self.spec_archetype_count(),
    {
        &self.archetypes
    }

    /// Where a live entity is stored.
    pub fn get_entity_location(&self, e: Entity) -> (r: Option<EntityLocation>)
        requires
            self.wf(),
        ensures
            r is Some <==> self.is_live(e),
            r matches Some(loc) ==> loc == self.spec_location(e),
    {
        let i = e.index as usize;
        if i < self.locations.len() && self.generations[i] == e.generation {
            self.locations[i]
        } else {
            None
        }
    }

    /// The archetype whose component kinds are exactly `ids`, if there is one.
    fn find_archetype(&self, ids: &Vec<ComponentId>) -> (r: Option<usize>)
        requires
            self.wf(),
        ensures
            r matches Some(a) ==> a < self.archetypes@.len() && self.archetypes@[a as int].component_ids@
                == ids@,
            r is None ==> forall|a: int|
                0 <= a < self.archetypes@.len() ==> (#[trigger] self.archetypes@[a]).component_ids@
                    != ids@,
    {
        let mut a: usize = 0;
        while a < self.archetypes.len()
            invariant
                a <= self.archetypes@.len(),
                forall|b: int|
                    0 <= b < a ==> (#[trigger] self.archetypes@[b]).component_ids@ != ids@,
            decreases self.archetypes@.len() - a,
        {
            if ids_equal(&self.archetypes[a].component_ids, ids) {
                return Some(a);
            }
            a += 1;
        }
        None
    }
}

impl<V: Copy> World<V> {
    /// Every archetype keeps its component kinds, and no archetype is removed.
    pub closed spec fn keeps_archetypes(&self, old: &Self) -> bool {
        &&& self.archetypes@.len() >= old.archetypes@.len()
        &&& forall|a: int|
            0 <= a < old.archetypes@.len() ==> (#[trigger] self.archetypes@[a]).component_ids@
                == old.archetypes@[a].component_ids@
    }

    /// Creates a live entity without components, stored in archetype 0.
    fn alloc_entity(&mut self) -> (e: Entity)
        requires
            old(self).wf(),
            old(self).free_indices@.len() > 0 || old(self).locations@.len() < u32::MAX,
        ensures
            final(self).wf(),
            !old(self).is_live(e),
            final(self).is_live(e),
            final(self).view() == old(self).view().insert(e, Map::empty()),
            final(self).archetypes@.len() == old(self).archetypes@.len(),
            final(self).keeps_archetypes(old(self)),
            final(self).locations@.len() <= old(self).locations@.len() + 1,
            final(self).free_indices@.len() + 1 >= old(self).free_indices@.len(),
            final(self).spare_indices() == old(self).spare_indices() - 1,
            e == old(self).next_entity(),
            final(self).ids_after_spawn(old(self)),
    {
        let index: u32;
        if self.free_indices.len() > 0 {
            let last = self.free_indices.len() - 1;
            index = self.free_indices[last];
            self.free_indices.pop();
            assert(self.free_indices@ =~= old(self).free_indices@.drop_last());
            assert forall|f: int| 0 <= f < self.free_indices@.len() implies #[trigger] self.free_indices@[f] != index by {
                assert(old(self).free_indices@[f] == self.free_indices@[f]);
            }
        } else {
            index = self.locations.len() as u32;
            self.locations.push(None);
            self.generations.push(0);
        }
        let generation = self.generations[index as usize];
        let e = Entity { index, generation };
        let row_index = self.archetypes[0].entities.len();
        self.archetypes[0].entities.push(e);
        self.archetypes[0].rows.push(Vec::new());
        self.locations.set(
            index as usize,
            Some(EntityLocation { archetype_index: 0, index_within_archetype: row_index }),
        );
        proof {
            let o = old(self);
            assert(self.archetypes@[0].shape_ok(0));
            assert forall|a: int| 0 <= a < self.archetypes@.len() implies (#[trigger] self.archetypes@[a]).shape_ok(a) by {
                if a != 0 {
                    assert(self.archetypes@[a] == o.archetypes@[a]);
                }
            }
            assert forall|a: int, b: int|
                0 <= a < b < self.archetypes@.len() implies (#[trigger] self.archetypes@[a]).component_ids@
                != (#[trigger] self.archetypes@[b]).component_ids@ by {
                assert(o.archetypes@[a].component_ids@ != o.archetypes@[b].component_ids@);
            }
            assert forall|i: int|
                0 <= i < self.locations@.len() && (#[trigger] self.locations@[i]) is Some implies self.location_ok(i) by {
                if i != index {
                    assert(o.locations@[i] == self.locations@[i]);
                    assert(o.location_ok(i));
                }
            }
            assert forall|a: int, r: int|
                0 <= a < self.archetypes@.len() && 0 <= r < self.archetypes@[a].entities@.len()
                implies #[trigger] self.entry_ok(a, r) by {
                if a != 0 || r != row_index {
                    assert(o.entry_ok(a, r));
                    assert(self.archetypes@[a].entities@[r] == o.archetypes@[a].entities@[r]);
                    let ent = o.archetypes@[a].entities@[r];
                    assert(ent.index != index);
                }
            }
            assert forall|f: int| 0 <= f < self.free_indices@.len() implies (#[trigger] self.free_indices@[f] as int)
                < self.locations@.len() && self.locations@[self.free_indices@[f] as int] is None by {
                if o.free_indices@.len() > 0 {
                    assert(self.free_indices@[f] == o.free_indices@[f]);
                } else {
                    assert(false);
                }
            }
            assert forall|x: Entity| #[trigger] self.view().contains_key(x) <==> o.view().insert(e, Map::empty()).contains_key(x) by {
                if x != e && x.index == index {
                    assert(!self.is_live(x));
                }
            }
            assert forall|x: Entity| #[trigger] self.view().contains_key(x) implies self.view()[x] == o.view().insert(e, Map::empty())[x] by {
                if x != e {
                    assert(x.index != index);
                    assert(o.location_ok(x.index as int));
                } else {
                    assert(self.archetypes@[0].rows@[row_index as int]@.len() == 0);
                }
            }
            assert(self.view() =~= o.view().insert(e, Map::empty()));
        }
        e
    }
}

impl<V: Copy> World<V> {
    /// Stores `ids`/`row` as the components of the live entity `e`, moving
    /// it to the archetype for `ids` and creating that archetype if needed.
    #[verifier::rlimit(80)]
    #[verifier::spinoff_prover]
    fn set_components(&mut self, e: Entity, ids: Vec<ComponentId>, row: Vec<V>)
        requires
            old(self).wf(),
            old(self).is_live(e),
            strictly_sorted(ids@),
            ids@.len() == row@.len(),
        ensures
            final(self).wf(),
            final(self).view() == old(self).view().insert(e, row_map(ids@, row@)),
            final(self).keeps_archetypes(old(self)),
            final(self).archetypes@.len() <= old(self).archetypes@.len() + 1,
            (exists|a: int|
                0 <= a < old(self).archetypes@.len() && (#[trigger] old(self).archetypes@[a]).component_ids@
                    == ids@) ==> final(self).archetypes@.len() == old(self).archetypes@.len(),
            final(self).archetypes@.len() > old(self).archetypes@.len()
                ==> final(self).archetypes@.last().component_ids@ == ids@,
            final(self).archetypes@.len() == old(self).archetypes@.len() ==> exists|a: int|
                0 <= a < old(self).archetypes@.len() && (#[trigger] old(self).archetypes@[a]).component_ids@
                    == ids@,
            final(self).locations@.len() == old(self).locations@.len(),
            final(self).free_indices@ == old(self).free_indices@,
            final(self).generations@ == old(self).generations@,
    {
        let ghost o = *self;
        let loc = self.locations[e.index as usize].unwrap();
        let a_old = loc.archetype_index;
        let i = loc.index_within_archetype;
        proof {
            assert(o.location_ok(e.index as int));
        }
        let target = match self.find_archetype(&ids) {
            Some(t) => t,
            None => {
                let t = self.archetypes.len();
                let ids_copy = copy_ids(&ids);
                self.archetypes.push(Archetype::new(t, ids_copy));
                proof {
                    assert forall|a: int| 0 <= a < t implies (#[trigger] self.archetypes@[a]) == o.archetypes@[a] by {}
                }
                t
            },
        };
        let ghost mid = *self;
        proof {
            assert(mid.archetypes@.len() == o.archetypes@.len() || mid.archetypes@.len() == o.archetypes@.len() + 1);
            assert forall|a: int| 0 <= a < o.archetypes@.len() implies (#[trigger] mid.archetypes@[a]) == o.archetypes@[a] by {}
            if mid.archetypes@.len() == o.archetypes@.len() {
                assert(o.archetypes@[target as int].component_ids@ == ids@);
            }
        }
        if target == a_old {
            self.archetypes[a_old].rows.set(i, row);
            proof {
                let n = *self;
                assert forall|a: int| 0 <= a < n.archetypes@.len() implies (#[trigger] n.archetypes@[a]).shape_ok(a) by {
                    if a != a_old {
                        assert(n.archetypes@[a] == o.archetypes@[a]);
                    } else {
                        assert forall|r: int| 0 <= r < n.archetypes@[a].rows@.len() implies (#[trigger] n.archetypes@[a].rows@[r])@.len()
                            == n.archetypes@[a].component_ids@.len() by {
                            if r != i {
                                assert(n.archetypes@[a].rows@[r] == o.archetypes@[a].rows@[r]);
                            }
                        }
                    }
                }
                assert forall|a: int, b: int|
                    0 <= a < b < n.archetypes@.len() implies (#[trigger] n.archetypes@[a]).component_ids@
                    != (#[trigger] n.archetypes@[b]).component_ids@ by {
                    assert(o.archetypes@[a].component_ids@ != o.archetypes@[b].component_ids@);
                }
                assert forall|k: int|
                    0 <= k < n.locations@.len() && (#[trigger] n.locations@[k]) is Some implies n.location_ok(k) by {
                    assert(o.location_ok(k));
                }
                assert forall|a: int, r: int|
                    0 <= a < n.archetypes@.len() && 0 <= r < n.archetypes@[a].entities@.len()
                    implies #[trigger] n.entry_ok(a, r) by {
                    assert(o.entry_ok(a, r));
                }
                assert forall|x: Entity| #[trigger] n.view().contains_key(x) <==> o.view().insert(e, row_map(ids@, row@)).contains_key(x) by {}
                assert forall|x: Entity| #[trigger] n.view().contains_key(x) implies n.view()[x] == o.view().insert(e, row_map(ids@, row@))[x] by {
                    if x != e {
                        assert(o.location_ok(x.index as int));
                        let lx = o.locations@[x.index as int]->Some_0;
                        if lx.archetype_index == a_old && lx.index_within_archetype == i {
                            assert(x.index == e.index);
                        }
                    }
                }
                assert(n.view() =~= o.view().insert(e, row_map(ids@, row@)));
            }
        } else {
            let last = self.archetypes[a_old].entities.len() - 1;
            self.archetypes[a_old].entities.swap_remove(i);
            self.archetypes[a_old].rows.swap_remove(i);
            if i < last {
                let moved = self.archetypes[a_old].entities[i];
                proof {
                    assert(o.entry_ok(a_old as int, last as int));
                }
                self.locations.set(
                    moved.index as usize,
                    Some(EntityLocation { archetype_index: a_old, index_within_archetype: i }),
                );
            }
            let new_index = self.archetypes[target].entities.len();
            self.archetypes[target].entities.push(e);
            self.archetypes[target].rows.push(row);
            self.locations.set(
                e.index as usize,
                Some(EntityLocation { archetype_index: target, index_within_archetype: new_index }),
            );
            proof {
                let n = *self;
                let moved = mid.archetypes@[a_old as int].entities@[last as int];
                assert(o.entry_ok(a_old as int, last as int));
                assert(moved.index == e.index ==> i == last);
                assert forall|a: int| 0 <= a < n.archetypes@.len() implies (#[trigger] n.archetypes@[a]).shape_ok(a) by {
                    if a == a_old as int {
                        assert forall|r: int| 0 <= r < n.archetypes@[a].rows@.len() implies (#[trigger] n.archetypes@[a].rows@[r])@.len()
                            == n.archetypes@[a].component_ids@.len() by {
                            if r == i {
                                assert(n.archetypes@[a].rows@[r] == mid.archetypes@[a].rows@[last as int]);
                            } else {
                                assert(n.archetypes@[a].rows@[r] == mid.archetypes@[a].rows@[r]);
                            }
                        }
                    } else if a == target as int {
                        assert forall|r: int| 0 <= r < n.archetypes@[a].rows@.len() implies (#[trigger] n.archetypes@[a].rows@[r])@.len()
                            == n.archetypes@[a].component_ids@.len() by {
                            if r < new_index {
                                assert(n.archetypes@[a].rows@[r] == mid.archetypes@[a].rows@[r]);
                            }
                        }
                    } else {
                        assert(n.archetypes@[a] == mid.archetypes@[a]);
                    }
                }
                assert forall|a: int, b: int|
                    0 <= a < b < n.archetypes@.len() implies (#[trigger] n.archetypes@[a]).component_ids@
                    != (#[trigger] n.archetypes@[b]).component_ids@ by {
                    if b < o.archetypes@.len() {
                        assert(o.archetypes@[a].component_ids@ != o.archetypes@[b].component_ids@);
                    } else {
                        assert(o.archetypes@[a].component_ids@ != ids@);
                    }
                }
                assert forall|k: int|
                    0 <= k < n.locations@.len() && (#[trigger] n.locations@[k]) is Some implies n.location_ok(k) by {
                    if k == e.index as int {
                    } else if i < last && k == moved.index as int {
                        assert(n.archetypes@[a_old as int].entities@[i as int] == moved);
                    } else {
                        assert(o.location_ok(k));
                        let lk = o.locations@[k]->Some_0;
                        if lk.archetype_index == a_old {
                            assert(lk.index_within_archetype != i);
                            assert(lk.index_within_archetype != last);
                            assert(n.archetypes@[a_old as int].entities@[lk.index_within_archetype as int]
                                == mid.archetypes@[a_old as int].entities@[lk.index_within_archetype as int]);
                        } else if lk.archetype_index == target {
                            assert(n.archetypes@[target as int].entities@[lk.index_within_archetype as int]
                                == mid.archetypes@[target as int].entities@[lk.index_within_archetype as int]);
                        } else {
                            assert(n.archetypes@[lk.archetype_index as int] == mid.archetypes@[lk.archetype_index as int]);
                        }
                    }
                }
                assert forall|a: int, r: int|
                    0 <= a < n.archetypes@.len() && 0 <= r < n.archetypes@[a].entities@.len()
                    implies #[trigger] n.entry_ok(a, r) by {
                    if a == target as int && r == new_index as int {
                    } else if a == a_old as int && r == i as int {
                        assert(n.archetypes@[a].entities@[r] == moved);
                    } else if a == a_old as int {
                        assert(o.entry_ok(a, r));
                        assert(n.archetypes@[a].entities@[r] == mid.archetypes@[a].entities@[r]);
                        let ent = mid.archetypes@[a].entities@[r];
                        assert(ent.index != e.index);
                        assert(ent.index != moved.index);
                    } else if a == target as int {
                        assert(o.entry_ok(a, r));
                        assert(n.archetypes@[a].entities@[r] == mid.archetypes@[a].entities@[r]);
                        let ent = mid.archetypes@[a].entities@[r];
                        assert(ent.index != e.index);
                        assert(ent.index != moved.index);
                    } else {
                        assert(o.entry_ok(a, r));
                        assert(n.archetypes@[a] == mid.archetypes@[a]);
                        let ent = mid.archetypes@[a].entities@[r];
                        assert(ent.index != e.index);
                        assert(ent.index != moved.index);
                    }
                }
                assert forall|f: int| 0 <= f < n.free_indices@.len() implies (#[trigger] n.free_indices@[f] as int)
                    < n.locations@.len() && n.locations@[n.free_indices@[f] as int] is None by {
                    let fi = n.free_indices@[f] as int;
                    assert(o.locations@[fi] is None);
                    assert(fi != e.index as int);
                    if i < last {
                        assert(fi != moved.index as int);
                    }
                }
                assert forall|x: Entity| #[trigger] n.view().contains_key(x) <==> o.view().insert(e, row_map(ids@, row@)).contains_key(x) by {}
                assert forall|x: Entity| #[trigger] n.view().contains_key(x) implies n.view()[x] == o.view().insert(e, row_map(ids@, row@))[x] by {
                    if x != e {
                        assert(o.location_ok(x.index as int));
                        let lx = o.locations@[x.index as int]->Some_0;
                        if i < last && x.index == moved.index {
                            assert(n.archetypes@[a_old as int].rows@[i as int] == mid.archetypes@[a_old as int].rows@[last as int]);
                        } else if lx.archetype_index == a_old {
                            assert(n.archetypes@[a_old as int].rows@[lx.index_within_archetype as int]
                                == mid.archetypes@[a_old as int].rows@[lx.index_within_archetype as int]);
                        } else if lx.archetype_index == target {
                            assert(n.archetypes@[target as int].rows@[lx.index_within_archetype as int]
                                == mid.archetypes@[target as int].rows@[lx.index_within_archetype as int]);
                        }
                    } else {
                        assert(n.archetypes@[target as int].component_ids@ == ids@);
                    }
                }
                assert(n.view() =~= o.view().insert(e, row_map(ids@, row@)));
            }
        }
    }
}

/// Two sorted id lists with the same elements are the same list.
pub proof fn lemma_sorted_set_eq(a: Seq<ComponentId>, b: Seq<ComponentId>)
    requires
        strictly_sorted(a),
        strictly_sorted(b),
        a.to_set() == b.to_set(),
    ensures
        a == b,
    decreases a.len(),
{
    if a.len() == 0 {
        if b.len() > 0 {
            assert(b.to_set().contains(b[0]));
            assert(!a.to_set().contains(b[0]));
        }
        assert(a =~= b);
    } else {
        assert(a.to_set().contains(a[0]));
        if b.len() == 0 {
            assert(!b.to_set().contains(a[0]));
        }
        assert(b.to_set().contains(b[0]));
        let j = choose|j: int| 0 <= j < b.len() && b[j] == a[0];
        let i = choose|i: int| 0 <= i < a.len() && a[i] == b[0];
        if j > 0 {
            assert(b[0] < b[j]);
        }
        if i > 0 {
            assert(a[0] < a[i]);
        }
        assert(a[0] == b[0]);
        let a2 = a.drop_first();
        let b2 = b.drop_first();
        assert forall|x: ComponentId| #[trigger] a2.to_set().contains(x) <==> b2.to_set().contains(x) by {
            if a2.contains(x) {
                let k = choose|k: int| 0 <= k < a2.len() && a2[k] == x;
                assert(a[k + 1] == x);
                assert(a[0] < a[k + 1]);
                assert(a.to_set().contains(x));
                assert(b.to_set().contains(x));
                assert(b.contains(x));
                let m = choose|m: int| 0 <= m < b.len() && b[m] == x;
                assert(m != 0);
                assert(b2[m - 1] == x);
            }
            if b2.contains(x) {
                let k = choose|k: int| 0 <= k < b2.len() && b2[k] == x;
                assert(b[k + 1] == x);
                assert(b[0] < b[k + 1]);
                assert(b.to_set().contains(x));
                assert(a.to_set().contains(x));
                assert(a.contains(x));
                let m = choose|m: int| 0 <= m < a.len() && a[m] == x;
                assert(m != 0);
                assert(a2[m - 1] == x);
            }
        }
        assert(a2.to_set() =~= b2.to_set());
        lemma_sorted_set_eq(a2, b2);
        assert forall|k: int| 0 <= k < a.len() implies a[k] == b[k] by {
            if k > 0 {
                assert(a[k] == a2[k - 1]);
                assert(b[k] == b2[k - 1]);
            }
        }
        assert(a =~= b);
    }
}

impl<V: Copy> World<V> {
    /// Room is left for one more entity index.
    pub closed spec fn can_spawn(&self) -> bool {
        self.free_indices@.len() > 0 || self.locations@.len() < u32::MAX
    }

    /// How many more entities can be spawned before entity indices run out.
    pub closed spec fn spare_indices(&self) -> int {
        self.free_indices@.len() + (u32::MAX - self.locations@.len())
    }

    /// The indices freed by despawning that are not reused yet, in the
    /// order they were freed.
    pub closed spec fn free_list(&self) -> Seq<u32> {
        self.free_indices@
    }

    /// The current generation of each index ever handed out.
    pub closed spec fn generation_list(&self) -> Seq<u32> {
        self.generations@
    }

    /// The entity that the next spawn gives: the index freed last, with its
    /// current generation, or else a new index with generation 0.
    pub open spec fn next_entity(&self) -> Entity {
        let free = self.free_list();
        if free.len() > 0 {
            Entity { index: free.last(), generation: self.generation_list()[free.last() as int] }
        } else {
            Entity { index: self.generation_list().len() as u32, generation: 0 }
        }
    }

    /// How a spawn changes the free indices and the generations.
    pub open spec fn ids_after_spawn(&self, before: &Self) -> bool {
        if before.free_list().len() > 0 {
            &&& self.free_list() == before.free_list().drop_last()
            &&& self.generation_list() == before.generation_list()
        } else {
            &&& self.free_list() == before.free_list()
            &&& self.generation_list() == before.generation_list().push(0)
        }
    }

    /// The free indices and the generations are those of `before`.
    pub open spec fn keeps_ids(&self, before: &Self) -> bool {
        &&& self.free_list() == before.free_list()
        &&& self.generation_list() == before.generation_list()
    }

    /// An entity can be spawned exactly while indices are spare.
    pub proof fn lemma_can_spawn(&self)
        requires
            self.wf(),
        ensures
            self.spare_indices() >= 0,
            self.can_spawn() <==> self.spare_indices() > 0,
    {
    }

    /// Some archetype has exactly the component kinds in `kinds`.
    pub closed spec fn has_archetype_for(&self, kinds: Set<ComponentId>) -> bool {
        exists|a: int|
            0 <= a < self.archetypes@.len() && (#[trigger] self.archetypes@[a]).component_ids@.to_set()
                == kinds
    }

    /// Copies of the sorted component kinds and values of a live entity.
    fn entity_row(&self, e: Entity) -> (r: (Vec<ComponentId>, Vec<V>))
        requires
            self.wf(),
            self.is_live(e),
        ensures
            strictly_sorted(r.0@),
            r.0@.len() == r.1@.len(),
            row_map(r.0@, r.1@) == self.view()[e],
    {
        let loc = self.locations[e.index as usize].unwrap();
        proof {
            assert(self.location_ok(e.index as int));
        }
        let arch = &self.archetypes[loc.archetype_index];
        let ids = copy_ids(&arch.component_ids);
        let src = &arch.rows[loc.index_within_archetype];
        let mut row: Vec<V> = Vec::new();
        let mut k: usize = 0;
        while k < src.len()
            invariant
                k <= src@.len(),
                row@ == src@.take(k as int),
            decreases src@.len() - k,
        {
            row.push(src[k]);
            k += 1;
            assert(row@ =~= src@.take(k as int));
        }
        assert(src@.take(src@.len() as int) =~= src@);
        proof {
            assert(self.archetypes@[loc.archetype_index as int].shape_ok(loc.archetype_index as int));
        }
        (ids, row)
    }

    /// Sets the components of a live entity, with the archetype count
    /// growing exactly when no archetype had its kinds before.
    fn store_components(&mut self, e: Entity, ids: Vec<ComponentId>, row: Vec<V>)
        requires
            old(self).wf(),
            old(self).is_live(e),
            strictly_sorted(ids@),
            ids@.len() == row@.len(),
        ensures
            final(self).wf(),
            final(self).view() == old(self).view().insert(e, row_map(ids@, row@)),
            final(self).keeps_archetypes(old(self)),
            final(self).spec_archetype_count() == old(self).spec_archetype_count() + if old(
                self,
            ).has_archetype_for(ids@.to_set()) {
                0int
            } else {
                1int
            },
            final(self).locations@.len() == old(self).locations@.len(),
            final(self).free_indices@ == old(self).free_indices@,
            final(self).generations@ == old(self).generations@,
    {
        proof {
            if old(self).has_archetype_for(ids@.to_set()) {
                let a = choose|a: int|
                    0 <= a < old(self).archetypes@.len() && (#[trigger] old(self).archetypes@[a]).component_ids@.to_set()
                        == ids@.to_set();
                assert(old(self).archetypes@[a].shape_ok(a));
                lemma_sorted_set_eq(old(self).archetypes@[a].component_ids@, ids@);
            }
        }
        let ghost o = *self;
        self.set_components(e, ids, row);
        proof {
            if self.archetypes@.len() > o.archetypes@.len() {
                assert(self.archetypes@.last().component_ids@ == ids@);
                if o.has_archetype_for(ids@.to_set()) {
                    let a = choose|a: int|
                        0 <= a < o.archetypes@.len() && (#[trigger] o.archetypes@[a]).component_ids@.to_set()
                            == ids@.to_set();
                    assert(o.archetypes@[a].shape_ok(a));
                    lemma_sorted_set_eq(o.archetypes@[a].component_ids@, ids@);
                }
            } else {
                let a = choose|a: int|
                    0 <= a < o.archetypes@.len() && (#[trigger] o.archetypes@[a]).component_ids@ == ids@;
                assert(o.archetypes@[a].component_ids@.to_set() == ids@.to_set());
                assert(o.has_archetype_for(ids@.to_set()));
            }
        }
    }

    /// Spawns a new entity with the components of `bundle`; where the
    /// bundle names a kind twice, the later value is kept.
    pub fn spawn(&mut self, bundle: Vec<(ComponentId, V)>) -> (e: Entity)
        requires
            old(self).wf(),
            old(self).can_spawn(),
        ensures
            final(self).wf(),
            !old(self).view().contains_key(e),
            final(self).view() == old(self).view().insert(e, bundle_map(bundle@)),
            final(self).spec_archetype_count() == old(self).spec_archetype_count() + if old(
                self,
            ).has_archetype_for(bundle_map(bundle@).dom()) {
                0int
            } else {
                1int
            },
            final(self).spare_indices() == old(self).spare_indices() - 1,
            e == old(self).next_entity(),
            final(self).ids_after_spawn(old(self)),
    {
        let e = self.alloc_entity();
        let ghost mid = *self;
        let mut ids: Vec<ComponentId> = Vec::new();
        let mut row: Vec<V> = Vec::new();
        row_insert_all(&mut ids, &mut row, &bundle);
        proof {
            assert(row_map(Seq::<ComponentId>::empty(), Seq::<V>::empty()).union_prefer_right(bundle_map(bundle@))
                =~= bundle_map(bundle@));
            lemma_row_map_dom(ids@, row@);
            assert(mid.has_archetype_for(ids@.to_set()) == old(self).has_archetype_for(ids@.to_set())) by {
                if mid.has_archetype_for(ids@.to_set()) {
                    let a = choose|a: int|
                        0 <= a < mid.archetypes@.len() && (#[trigger] mid.archetypes@[a]).component_ids@.to_set()
                            == ids@.to_set();
                    assert(old(self).archetypes@[a].component_ids@ == mid.archetypes@[a].component_ids@);
                }
                if old(self).has_archetype_for(ids@.to_set()) {
                    let a = choose|a: int|
                        0 <= a < old(self).archetypes@.len() && (#[trigger] old(self).archetypes@[a]).component_ids@.to_set()
                            == ids@.to_set();
                    assert(old(self).archetypes@[a].component_ids@ == mid.archetypes@[a].component_ids@);
                }
            }
        }
        self.store_components(e, ids, row);
        e
    }

    /// Adds the components of `bundle` to a live entity, replacing the
    /// values of kinds it already has.
    pub fn add_components(&mut self, entity: Entity, bundle: Vec<(ComponentId, V)>) -> (r: Result<
        (),
        KudoError,
    >)
        requires
            old(self).wf(),
        ensures
            final(self).wf(),
            final(self).keeps_ids(old(self)),
            r is Err <==> !old(self).view().contains_key(entity),
            r matches Err(err) ==> err == KudoError::EntityMissing && final(self).view() == old(
                self,
            ).view(),
            r is Ok ==> final(self).view() == old(self).view().insert(
                entity,
                old(self).view()[entity].union_prefer_right(bundle_map(bundle@)),
            ),
    {
        if self.get_entity_location(entity).is_none() {
            return Err(KudoError::EntityMissing);
        }
        let (mut ids, mut row) = self.entity_row(entity);
        row_insert_all(&mut ids, &mut row, &bundle);
        self.store_components(entity, ids, row);
        Ok(())
    }

    /// Adds one component to a live entity, replacing its value if the
    /// entity already has a component of that kind.
    pub fn add_component(&mut self, entity: Entity, component_id: ComponentId, value: V) -> (r:
        Result<(), KudoError>)
        requires
            old(self).wf(),
        ensures
            final(self).wf(),
            final(self).keeps_ids(old(self)),
            r is Err <==> !old(self).view().contains_key(entity),
            r matches Err(err) ==> err == KudoError::EntityMissing && final(self).view() == old(
                self,
            ).view(),
            r is Ok ==> final(self).view() == old(self).view().insert(
                entity,
                old(self).view()[entity].insert(component_id, value),
            ),
    {
        let mut bundle = Vec::new();
        bundle.push((component_id, value));
        proof {
            assert(bundle@.drop_last() =~= Seq::<(ComponentId, V)>::empty());
            assert(bundle@.last() == (component_id, value));
            assert(bundle_map(bundle@.drop_last()) == Map::<ComponentId, V>::empty());
            assert(bundle_map(bundle@) =~= Map::<ComponentId, V>::empty().insert(component_id, value));
            if self.view().contains_key(entity) {
                let m = self.view()[entity];
                assert(m.union_prefer_right(bundle_map(bundle@)) =~= m.insert(component_id, value));
            }
        }
        self.add_components(entity, bundle)
    }

    /// Removes the component of kind `component_id` from a live entity and
    /// returns its value.
    pub fn remove_component(&mut self, entity: Entity, component_id: ComponentId) -> (r: Result<
        V,
        KudoError,
    >)
        requires
            old(self).wf(),
        ensures
            final(self).wf(),
            final(self).keeps_ids(old(self)),
            r == Err::<V, KudoError>(KudoError::EntityMissing) <==> !old(self).view().contains_key(
                entity,
            ),
            r == Err::<V, KudoError>(KudoError::NoMatchingComponent) <==> old(self).view().contains_key(
                entity,
            ) && !old(self).view()[entity].contains_key(component_id),
            r is Err ==> final(self).view() == old(self).view(),
            r matches Ok(v) ==> old(self).view()[entity].contains_key(component_id) && v == old(
                self,
            ).view()[entity][component_id] && final(self).view() == old(self).view().insert(
                entity,
                old(self).view()[entity].remove(component_id),
            ),
    {
        if self.get_entity_location(entity).is_none() {
            return Err(KudoError::EntityMissing);
        }
        let (mut ids, mut row) = self.entity_row(entity);
        let mut p: usize = 0;
        while p < ids.len() && ids[p] != component_id
            invariant
                p <= ids@.len(),
                forall|j: int| 0 <= j < p ==> #[trigger] ids@[j] != component_id,
            decreases ids@.len() - p,
        {
            p += 1;
        }
        proof {
            lemma_row_map_dom(ids@, row@);
            lemma_sorted_no_duplicates(ids@);
        }
        if p == ids.len() {
            proof {
                assert(!ids@.contains(component_id));
            }
            return Err(KudoError::NoMatchingComponent);
        }
        proof {
            lemma_row_map_value(ids@, row@, p as int);
            lemma_row_remove(ids@, row@, p as int);
        }
        let value = row[p];
        ids.remove(p);
        row.remove(p);
        self.store_components(entity, ids, row);
        Ok(value)
    }

    /// The value of one component of a live entity.
    pub fn get_component(&self, entity: Entity, component_id: ComponentId) -> (r: Option<V>)
        requires
            self.wf(),
        ensures
            r is Some <==> self.view().contains_key(entity) && self.view()[entity].contains_key(
                component_id,
            ),
            r matches Some(v) ==> v == self.view()[entity][component_id],
    {
        let loc = match self.get_entity_location(entity) {
            Some(loc) => loc,
            None => return None,
        };
        proof {
            assert(self.location_ok(entity.index as int));
        }
        let arch = &self.archetypes[loc.archetype_index];
        proof {
            assert(arch.shape_ok(loc.archetype_index as int));
            assert(arch.rows@[loc.index_within_archetype as int]@.len() == arch.component_ids@.len());
            lemma_row_map_dom(arch.component_ids@, arch.rows@[loc.index_within_archetype as int]@);
            lemma_sorted_no_duplicates(arch.component_ids@);
            assert(self.view().contains_key(entity));
        }
        let mut p: usize = 0;
        while p < arch.component_ids.len()
            invariant
                p <= arch.component_ids@.len(),
                forall|j: int| 0 <= j < p ==> #[trigger] arch.component_ids@[j] != component_id,
                loc.index_within_archetype < arch.rows@.len(),
                arch.rows@[loc.index_within_archetype as int]@.len() == arch.component_ids@.len(),
                arch.component_ids@.no_duplicates(),
                self.view().contains_key(entity),
                self.view()[entity] == row_map(arch.component_ids@, arch.rows@[loc.index_within_archetype as int]@),
                row_map(arch.component_ids@, arch.rows@[loc.index_within_archetype as int]@).dom() == arch.component_ids@.to_set(),
            decreases arch.component_ids@.len() - p,
        {
            if arch.component_ids[p] == component_id {
                proof {
                    lemma_row_map_value(arch.component_ids@, arch.rows@[loc.index_within_archetype as int]@, p as int);
                }
                return Some(arch.rows[loc.index_within_archetype][p]);
            }
            p += 1;
        }
        None
    }
}

impl<V: Copy> World<V> {
    /// Removes a live entity and all of its components.
    pub fn despawn(&mut self, entity: Entity) -> (r: Result<(), KudoError>)
        requires
            old(self).wf(),
        ensures
            final(self).wf(),
            r is Err <==> !old(self).view().contains_key(entity),
            r matches Err(err) ==> err == KudoError::EntityMissing && final(self).view() == old(
                self,
            ).view(),
            r is Ok ==> final(self).view() == old(self).view().remove(entity),
            final(self).keeps_archetypes(old(self)),
            final(self).spec_archetype_count() == old(self).spec_archetype_count(),
            old(self).can_spawn() ==> final(self).can_spawn(),
            r is Err ==> final(self).keeps_ids(old(self)),
            r is Ok ==> final(self).free_list() == old(self).free_list().push(entity.index)
                && final(self).generation_list() == old(self).generation_list().update(
                entity.index as int,
                next_generation(entity.generation),
            ),
    {
        let loc = match self.get_entity_location(entity) {
            Some(loc) => loc,
            None => return Err(KudoError::EntityMissing),
        };
        let ghost o = *self;
        proof {
            assert(o.location_ok(entity.index as int));
        }
        let a_old = loc.archetype_index;
        let i = loc.index_within_archetype;
        let last = self.archetypes[a_old].entities.len() - 1;
        self.archetypes[a_old].entities.swap_remove(i);
        self.archetypes[a_old].rows.swap_remove(i);
        if i < last {
            let moved = self.archetypes[a_old].entities[i];
            proof {
                assert(o.entry_ok(a_old as int, last as int));
            }
            self.locations.set(
                moved.index as usize,
                Some(EntityLocation { archetype_index: a_old, index_within_archetype: i }),
            );
        }
        let index = entity.index as usize;
        self.locations.set(index, None);
        let next_generation = self.generations[index].wrapping_add(1);
        self.generations.set(index, next_generation);
        self.free_indices.push(entity.index);
        proof {
            let n = *self;
            let moved = o.archetypes@[a_old as int].entities@[last as int];
            assert(o.entry_ok(a_old as int, last as int));
            assert(moved.index == entity.index ==> i == last);
            assert forall|a: int| 0 <= a < n.archetypes@.len() implies (#[trigger] n.archetypes@[a]).shape_ok(a) by {
                if a == a_old as int {
                    assert forall|r: int| 0 <= r < n.archetypes@[a].rows@.len() implies (#[trigger] n.archetypes@[a].rows@[r])@.len()
                        == n.archetypes@[a].component_ids@.len() by {
                        if r == i {
                            assert(n.archetypes@[a].rows@[r] == o.archetypes@[a].rows@[last as int]);
                        } else {
                            assert(n.archetypes@[a].rows@[r] == o.archetypes@[a].rows@[r]);
                        }
                    }
                } else {
                    assert(n.archetypes@[a] == o.archetypes@[a]);
                }
            }
            assert forall|a: int, b: int|
                0 <= a < b < n.archetypes@.len() implies (#[trigger] n.archetypes@[a]).component_ids@
                != (#[trigger] n.archetypes@[b]).component_ids@ by {
                assert(o.archetypes@[a].component_ids@ != o.archetypes@[b].component_ids@);
            }
            assert forall|k: int|
                0 <= k < n.locations@.len() && (#[trigger] n.locations@[k]) is Some implies n.location_ok(k) by {
                if i < last && k == moved.index as int {
                    assert(n.archetypes@[a_old as int].entities@[i as int] == moved);
                } else {
                    assert(k != index);
                    assert(o.location_ok(k));
                    let lk = o.locations@[k]->Some_0;
                    if lk.archetype_index == a_old {
                        assert(lk.index_within_archetype != i);
                        assert(lk.index_within_archetype != last);
                        assert(n.archetypes@[a_old as int].entities@[lk.index_within_archetype as int]
                            == o.archetypes@[a_old as int].entities@[lk.index_within_archetype as int]);
                    } else {
                        assert(n.archetypes@[lk.archetype_index as int] == o.archetypes@[lk.archetype_index as int]);
                    }
                }
            }
            assert forall|a: int, r: int|
                0 <= a < n.archetypes@.len() && 0 <= r < n.archetypes@[a].entities@.len()
                implies #[trigger] n.entry_ok(a, r) by {
                if a == a_old as int && r == i as int {
                    assert(n.archetypes@[a].entities@[r] == moved);
                } else if a == a_old as int {
                    assert(o.entry_ok(a, r));
                    assert(n.archetypes@[a].entities@[r] == o.archetypes@[a].entities@[r]);
                    let ent = o.archetypes@[a].entities@[r];
                    assert(ent.index != entity.index);
                    assert(ent.index != moved.index);
                } else {
                    assert(o.entry_ok(a, r));
                    assert(n.archetypes@[a] == o.archetypes@[a]);
                    let ent = o.archetypes@[a].entities@[r];
                    assert(ent.index != entity.index);
                    assert(ent.index != moved.index);
                }
            }
            assert forall|f: int| 0 <= f < n.free_indices@.len() implies (#[trigger] n.free_indices@[f] as int)
                < n.locations@.len() && n.locations@[n.free_indices@[f] as int] is None by {
                if f < o.free_indices@.len() {
                    let fi = n.free_indices@[f] as int;
                    assert(fi == o.free_indices@[f] as int);
                    assert(o.locations@[fi] is None);
                    if i < last {
                        assert(fi != moved.index as int);
                    }
                }
            }
            assert(n.free_indices@.no_duplicates()) by {
                assert forall|f: int, g: int| 0 <= f < n.free_indices@.len() && 0 <= g < n.free_indices@.len() && f != g
                    implies n.free_indices@[f] != n.free_indices@[g] by {
                    if f < o.free_indices@.len() && g < o.free_indices@.len() {
                        assert(o.free_indices@[f] != o.free_indices@[g]);
                    } else if f < o.free_indices@.len() {
                        assert(o.locations@[o.free_indices@[f] as int] is None);
                    } else {
                        assert(o.locations@[o.free_indices@[g] as int] is None);
                    }
                }
            }
            assert forall|x: Entity| #[trigger] n.view().contains_key(x) <==> o.view().remove(entity).contains_key(x) by {}
            assert forall|x: Entity| #[trigger] n.view().contains_key(x) implies n.view()[x] == o.view().remove(entity)[x] by {
                assert(o.location_ok(x.index as int));
                let lx = o.locations@[x.index as int]->Some_0;
                if i < last && x.index == moved.index {
                    assert(n.archetypes@[a_old as int].rows@[i as int] == o.archetypes@[a_old as int].rows@[last as int]);
                } else if lx.archetype_index == a_old {
                    assert(n.archetypes@[a_old as int].rows@[lx.index_within_archetype as int]
                        == o.archetypes@[a_old as int].rows@[lx.index_within_archetype as int]);
                }
            }
            assert(n.view() =~= o.view().remove(entity));
        }
        Ok(())
    }

    /// The value of a component of kind `component_id`, taken from the
    /// first archetype that holds one (the system parameter `&T`).
    pub fn single_component(&self, component_id: ComponentId) -> (r: Result<V, KudoError>)
        requires
            self.wf(),
        ensures
            r is Err <==> forall|e: Entity|
                #[trigger] self.view().contains_key(e) ==> !self.view()[e].contains_key(component_id),
            r matches Err(err) ==> err == KudoError::NoMatchingComponent,
            r matches Ok(v) ==> exists|e: Entity|
                #[trigger] self.view().contains_key(e) && self.view()[e].contains_key(component_id)
                    && self.view()[e][component_id] == v,
            r matches Ok(v) ==> v == self.view()[self.matching_entities(
                seq![Filter { component_id, filter_type: FilterType::With }],
            )[0]][component_id],
    {
        let ghost fs = seq![Filter { component_id, filter_type: FilterType::With }];
        let mut a: usize = 0;
        while a < self.archetypes.len()
            invariant
                self.wf(),
                a <= self.archetypes@.len(),
                fs == seq![Filter { component_id, filter_type: FilterType::With }],
                forall|b: int|
                    0 <= b < a ==> !((#[trigger] self.archetypes@[b]).component_ids@.contains(
                        component_id,
                    ) && self.archetypes@[b].entities@.len() > 0),
            decreases self.archetypes@.len() - a,
        {
            let arch = &self.archetypes[a];
            if arch.entities.len() > 0 {
                let mut p: usize = 0;
                while p < arch.component_ids.len()
                    invariant
                        self.wf(),
                        a < self.archetypes@.len(),
                        *arch == self.archetypes@[a as int],
                        arch.entities@.len() > 0,
                        fs == seq![Filter { component_id, filter_type: FilterType::With }],
                        forall|b: int|
                            0 <= b < a ==> !((#[trigger] self.archetypes@[b]).component_ids@.contains(
                                component_id,
                            ) && self.archetypes@[b].entities@.len() > 0),
                        p <= arch.component_ids@.len(),
                        forall|j: int| 0 <= j < p ==> #[trigger] arch.component_ids@[j] != component_id,
                    decreases arch.component_ids@.len() - p,
                {
                    if arch.component_ids[p] == component_id {
                        proof {
                            assert(self.archetypes@[a as int].shape_ok(a as int));
                            assert(self.entry_ok(a as int, 0));
                            let e = arch.entities@[0];
                            let row = arch.rows@[0]@;
                            assert(row.len() == arch.component_ids@.len());
                            lemma_sorted_no_duplicates(arch.component_ids@);
                            lemma_row_map_value(arch.component_ids@, row, p as int);
                            assert(self.view().contains_key(e));
                            assert(self.view()[e] == row_map(arch.component_ids@, row));
                            let archs = self.archetypes@;
                            assert forall|b: int| 0 <= b < a implies !(filters_hold(
                                #[trigger] archs[b].component_ids@.to_set(),
                                fs,
                            ) && archs[b].entities@.len() > 0) by {
                                if filters_hold(archs[b].component_ids@.to_set(), fs) {
                                    assert(filter_holds(archs[b].component_ids@.to_set(), fs[0]));
                                    assert(archs[b].component_ids@.to_set().contains(component_id));
                                    assert(archs[b].component_ids@.contains(component_id));
                                }
                            }
                            lemma_matching_prefix_empty(archs, a as int, fs);
                            assert(arch.component_ids@.contains(component_id)) by {
                                assert(arch.component_ids@[p as int] == component_id);
                            }
                            assert(filter_holds(archs[a as int].component_ids@.to_set(), fs[0]));
                            assert(filters_hold(archs[a as int].component_ids@.to_set(), fs));
                            assert(matching_prefix(archs, a + 1, fs) =~= archs[a as int].entities@);
                            lemma_matching_prefix_grows(archs, a + 1, archs.len() as int, fs);
                            assert(self.matching_entities(fs)[0] == e);
                        }
                        return Ok(arch.rows[0][p]);
                    }
                    p += 1;
                }
                assert(!arch.component_ids@.contains(component_id));
            }
            a += 1;
        }
        proof {
            assert forall|e: Entity| #[trigger] self.view().contains_key(e) implies !self.view()[e].contains_key(component_id) by {
                assert(self.location_ok(e.index as int));
                let l = self.locations@[e.index as int]->Some_0;
                let arch = self.archetypes@[l.archetype_index as int];
                assert(arch.shape_ok(l.archetype_index as int));
                assert(arch.rows@[l.index_within_archetype as int]@.len() == arch.component_ids@.len());
                lemma_row_map_dom(arch.component_ids@, arch.rows@[l.index_within_archetype as int]@);
            }
        }
        Err(KudoError::NoMatchingComponent)
    }
}

/// How a query treats one component kind.
#[derive(Clone, Copy, Debug, PartialEq, Eq, Structural)]
pub enum FilterType {
    /// The entity must have a component of this kind.
    With,
    /// The entity must not have a component of this kind.
    Without,
    /// The component is fetched where present; entities without it still match.
    Optional,
}

/// One condition of a query on a component kind.
#[derive(Clone, Copy, Debug, PartialEq, Eq, Structural)]
pub struct Filter {
    pub component_id: ComponentId,
    pub filter_type: FilterType,
}

/// An entity with components of kinds `kinds` satisfies `f`.
pub open spec fn filter_holds(kinds: Set<ComponentId>, f: Filter) -> bool {
    match f.filter_type {
        FilterType::With => kinds.contains(f.component_id),
        FilterType::Without => !kinds.contains(f.component_id),
        FilterType::Optional => true,
    }
}

/// An entity with components of kinds `kinds` satisfies every filter.
pub open spec fn filters_hold(kinds: Set<ComponentId>, fs: Seq<Filter>) -> bool {
    forall|k: int| 0 <= k < fs.len() ==> #[trigger] filter_holds(kinds, fs[k])
}

/// The entities of the first `k` archetypes whose kinds satisfy `fs`, in
/// archetype order and row order.
pub open spec fn matching_prefix<V>(archs: Seq<Archetype<V>>, k: int, fs: Seq<Filter>) -> Seq<Entity>
    decreases k,
{
    if k <= 0 {
        Seq::empty()
    } else {
        matching_prefix(archs, k - 1, fs) + if filters_hold(archs[k - 1].component_ids@.to_set(), fs) {
            archs[k - 1].entities@
        } else {
            Seq::empty()
        }
    }
}

/// The values a query fetches from an entity with components `m`: one per
/// parameter, `None` where the entity has no component of that kind.
pub open spec fn parameter_values<V>(m: Map<ComponentId, V>, ps: Seq<Filter>) -> Seq<Option<V>> {
    Seq::new(
        ps.len(),
        |j: int|
            if m.contains_key(ps[j].component_id) {
                Some(m[ps[j].component_id])
            } else {
                None
            },
    )
}

/// Archetypes that match no filter or hold no entity add nothing.
proof fn lemma_matching_prefix_empty<V>(archs: Seq<Archetype<V>>, k: int, fs: Seq<Filter>)
    requires
        0 <= k <= archs.len(),
        forall|b: int|
            0 <= b < k ==> !(filters_hold(#[trigger] archs[b].component_ids@.to_set(), fs)
                && archs[b].entities@.len() > 0),
    ensures
        matching_prefix(archs, k, fs).len() == 0,
    decreases k,
{
    if k > 0 {
        lemma_matching_prefix_empty(archs, k - 1, fs);
        assert(!(filters_hold(archs[k - 1].component_ids@.to_set(), fs) && archs[k - 1].entities@.len() > 0));
    }
}

/// The entities of more archetypes start with those of fewer.
proof fn lemma_matching_prefix_grows<V>(archs: Seq<Archetype<V>>, k1: int, k2: int, fs: Seq<Filter>)
    requires
        0 <= k1 <= k2 <= archs.len(),
    ensures
        matching_prefix(archs, k1, fs).len() <= matching_prefix(archs, k2, fs).len(),
        forall|i: int|
            0 <= i < matching_prefix(archs, k1, fs).len() ==> #[trigger] matching_prefix(archs, k2, fs)[i]
                == matching_prefix(archs, k1, fs)[i],
    decreases k2 - k1,
{
    if k1 < k2 {
        lemma_matching_prefix_grows(archs, k1, k2 - 1, fs);
    }
}

proof fn lemma_matching_prefix_contains<V>(archs: Seq<Archetype<V>>, k: int, fs: Seq<Filter>, x: Entity)
    requires
        0 <= k <= archs.len(),
    ensures
        matching_prefix(archs, k, fs).contains(x) <==> exists|a: int, r: int|
            0 <= a < k && 0 <= r < archs[a].entities@.len() && filters_hold(
                archs[a].component_ids@.to_set(),
                fs,
            ) && #[trigger] archs[a].entities@[r] == x,
    decreases k,
{
    if k > 0 {
        lemma_matching_prefix_contains(archs, k - 1, fs, x);
        let prev = matching_prefix(archs, k - 1, fs);
        let here = if filters_hold(archs[k - 1].component_ids@.to_set(), fs) {
            archs[k - 1].entities@
        } else {
            Seq::empty()
        };
        let whole = matching_prefix(archs, k, fs);
        assert(whole == prev + here);
        if whole.contains(x) {
            let j = choose|j: int| 0 <= j < whole.len() && whole[j] == x;
            if j < prev.len() {
                assert(prev[j] == x);
                assert(prev.contains(x));
            } else {
                assert(here[j - prev.len()] == x);
                assert(archs[k - 1].entities@[j - prev.len()] == x);
            }
        }
        if exists|a: int, r: int|
            0 <= a < k && 0 <= r < archs[a].entities@.len() && filters_hold(
                archs[a].component_ids@.to_set(),
                fs,
            ) && #[trigger] archs[a].entities@[r] == x {
            let (a, r) = choose|a: int, r: int|
                0 <= a < k && 0 <= r < archs[a].entities@.len() && filters_hold(
                    archs[a].component_ids@.to_set(),
                    fs,
                ) && #[trigger] archs[a].entities@[r] == x;
            if a < k - 1 {
                assert(prev.contains(x));
                let j = choose|j: int| 0 <= j < prev.len() && prev[j] == x;
                assert(whole[j] == x);
            } else {
                assert(whole[prev.len() + r] == x);
            }
        }
    }
}

impl<V: Copy> World<V> {
    /// The live entities whose components satisfy `fs`, in archetype order.
    pub closed spec fn matching_entities(&self, fs: Seq<Filter>) -> Seq<Entity> {
        matching_prefix(self.archetypes@, self.archetypes@.len() as int, fs)
    }

    proof fn lemma_live_kinds(&self, x: Entity)
        requires
            self.wf(),
            self.view().contains_key(x),
        ensures
            self.view()[x].dom() == self.archetypes@[self.spec_location(x).archetype_index as int].component_ids@.to_set(),
            self.location_ok(x.index as int),
    {
        assert(self.location_ok(x.index as int));
        let l = self.locations@[x.index as int]->Some_0;
        let arch = self.archetypes@[l.archetype_index as int];
        assert(arch.shape_ok(l.archetype_index as int));
        assert(arch.rows@[l.index_within_archetype as int]@.len() == arch.component_ids@.len());
        lemma_row_map_dom(arch.component_ids@, arch.rows@[l.index_within_archetype as int]@);
    }

    /// An entity is among the matching entities exactly when it is live
    /// and its components satisfy the filters.
    pub proof fn lemma_matching_entities(&self, fs: Seq<Filter>, x: Entity)
        requires
            self.wf(),
        ensures
            self.matching_entities(fs).contains(x) <==> self.view().contains_key(x) && filters_hold(
                self.view()[x].dom(),
                fs,
            ),
    {
        lemma_matching_prefix_contains(self.archetypes@, self.archetypes@.len() as int, fs, x);
        if self.matching_entities(fs).contains(x) {
            let (a, r) = choose|a: int, r: int|
                0 <= a < self.archetypes@.len() && 0 <= r < self.archetypes@[a].entities@.len()
                    && filters_hold(self.archetypes@[a].component_ids@.to_set(), fs)
                    && #[trigger] self.archetypes@[a].entities@[r] == x;
            assert(self.entry_ok(a, r));
            assert(self.view().contains_key(x));
            self.lemma_live_kinds(x);
        }
        if self.view().contains_key(x) && filters_hold(self.view()[x].dom(), fs) {
            self.lemma_live_kinds(x);
            let l = self.locations@[x.index as int]->Some_0;
            assert(self.archetypes@[l.archetype_index as int].entities@[l.index_within_archetype as int] == x);
        }
    }

    /// No entity appears twice among the matching entities.
    pub proof fn lemma_matching_no_duplicates(&self, fs: Seq<Filter>)
        requires
            self.wf(),
        ensures
            self.matching_entities(fs).no_duplicates(),
    {
        self.lemma_prefix_no_duplicates(fs, self.archetypes@.len() as int);
    }

    proof fn lemma_prefix_no_duplicates(&self, fs: Seq<Filter>, k: int)
        requires
            self.wf(),
            0 <= k <= self.archetypes@.len(),
        ensures
            matching_prefix(self.archetypes@, k, fs).no_duplicates(),
        decreases k,
    {
        if k > 0 {
            self.lemma_prefix_no_duplicates(fs, k - 1);
            let archs = self.archetypes@;
            let prev = matching_prefix(archs, k - 1, fs);
            let here = if filters_hold(archs[k - 1].component_ids@.to_set(), fs) {
                archs[k - 1].entities@
            } else {
                Seq::empty()
            };
            let whole = matching_prefix(archs, k, fs);
            assert(whole == prev + here);
            if filters_hold(archs[k - 1].component_ids@.to_set(), fs) {
                assert(here == archs[k - 1].entities@);
                assert forall|i: int, j: int| 0 <= i < j < whole.len() implies whole[i] != whole[j] by {
                    if j >= prev.len() {
                        let rj = j - prev.len();
                        assert(whole[j] == archs[k - 1].entities@[rj]);
                        assert(self.entry_ok(k - 1, rj));
                        if i >= prev.len() {
                            let ri = i - prev.len();
                            assert(whole[i] == archs[k - 1].entities@[ri]);
                            assert(self.entry_ok(k - 1, ri));
                            assert(archs[k - 1].entities.len() == archs[k - 1].entities@.len());
                            assert(whole[i] != whole[j]);
                        } else {
                            assert(whole[i] == prev[i]);
                            assert(prev.contains(whole[i]));
                            lemma_matching_prefix_contains(archs, k - 1, fs, whole[i]);
                            let (a, r) = choose|a: int, r: int|
                                0 <= a < k - 1 && 0 <= r < archs[a].entities@.len() && filters_hold(
                                    archs[a].component_ids@.to_set(),
                                    fs,
                                ) && #[trigger] archs[a].entities@[r] == whole[i];
                            assert(self.entry_ok(a, r));
                            assert(whole[i] != whole[j]);
                        }
                    } else {
                        assert(prev[i] == whole[i] && prev[j] == whole[j]);
                        assert(whole[i] != whole[j]);
                    }
                }
            } else {
                assert(whole =~= prev);
            }
        }
    }
}

/// True when `ids` holds `c`.
fn ids_contain(ids: &Vec<ComponentId>, c: ComponentId) -> (r: bool)
    ensures
        r == ids@.contains(c),
{
    let mut i: usize = 0;
    while i < ids.len()
        invariant
            i <= ids@.len(),
            forall|j: int| 0 <= j < i ==> ids@[j] != c,
        decreases ids@.len() - i,
    {
        if ids[i] == c {
            return true;
        }
        i += 1;
    }
    false
}

/// True when an archetype with kinds `ids` satisfies every filter.
fn archetype_matches(ids: &Vec<ComponentId>, filters: &Vec<Filter>) -> (r: bool)
    ensures
        r == filters_hold(ids@.to_set(), filters@),
{
    let mut k: usize = 0;
    while k < filters.len()
        invariant
            k <= filters@.len(),
            forall|j: int| 0 <= j < k ==> #[trigger] filter_holds(ids@.to_set(), filters@[j]),
        decreases filters@.len() - k,
    {
        let f = filters[k];
        let present = ids_contain(ids, f.component_id);
        let ok = match f.filter_type {
            FilterType::With => present,
            FilterType::Without => !present,
            FilterType::Optional => true,
        };
        if !ok {
            assert(!filter_holds(ids@.to_set(), filters@[k as int]));
            return false;
        }
        k += 1;
    }
    true
}

/// The fetched values of one row, one per parameter.
fn row_values<V: Copy>(ids: &Vec<ComponentId>, row: &Vec<V>, parameters: &Vec<Filter>) -> (r: Vec<Option<V>>)
    requires
        strictly_sorted(ids@),
        ids@.len() == row@.len(),
    ensures
        r@ == parameter_values(row_map(ids@, row@), parameters@),
{
    proof {
        lemma_row_map_dom(ids@, row@);
        lemma_sorted_no_duplicates(ids@);
    }
    let mut out: Vec<Option<V>> = Vec::new();
    let mut k: usize = 0;
    while k < parameters.len()
        invariant
            k <= parameters@.len(),
            ids@.len() == row@.len(),
            ids@.no_duplicates(),
            row_map(ids@, row@).dom() == ids@.to_set(),
            out@ == parameter_values(row_map(ids@, row@), parameters@).take(k as int),
        decreases parameters@.len() - k,
    {
        let c = parameters[k].component_id;
        let mut p: usize = 0;
        while p < ids.len() && ids[p] != c
            invariant
                p <= ids@.len(),
                forall|j: int| 0 <= j < p ==> #[trigger] ids@[j] != c,
            decreases ids@.len() - p,
        {
            p += 1;
        }
        if p < ids.len() {
            proof {
                lemma_row_map_value(ids@, row@, p as int);
            }
            out.push(Some(row[p]));
        } else {
            assert(!ids@.contains(c));
            out.push(None);
        }
        k += 1;
        assert(out@ =~= parameter_values(row_map(ids@, row@), parameters@).take(k as int));
    }
    assert(parameter_values(row_map(ids@, row@), parameters@).take(parameters@.len() as int)
        =~= parameter_values(row_map(ids@, row@), parameters@));
    out
}

/// A view of the entities of a world that match a set of filters, and of
/// the components named by the query's parameters.
pub struct Query<'a, V> {
    pub world: &'a World<V>,
    /// The fetched kinds, in order; `With` and `Optional` filters.
    pub parameters: Vec<Filter>,
    /// Further conditions that fetch nothing.
    pub filters: Vec<Filter>,
}

impl<'a, V: Copy> Query<'a, V> {
    /// All conditions of the query: its parameters, then its filters.
    pub open spec fn all_filters(&self) -> Seq<Filter> {
        self.parameters@ + self.filters@
    }

    /// The matching entities, in archetype order.
    pub open spec fn spec_entities(&self) -> Seq<Entity> {
        self.world.matching_entities(self.all_filters())
    }

    fn all_filters_vec(&self) -> (r: Vec<Filter>)
        ensures
            r@ == self.all_filters(),
    {
        let mut r: Vec<Filter> = Vec::new();
        let mut k: usize = 0;
        while k < self.parameters.len()
            invariant
                k <= self.parameters@.len(),
                r@ == self.parameters@.take(k as int),
            decreases self.parameters@.len() - k,
        {
            r.push(self.parameters[k]);
            k += 1;
            assert(r@ =~= self.parameters@.take(k as int));
        }
        let mut k: usize = 0;
        while k < self.filters.len()
            invariant
                k <= self.filters@.len(),
                r@ == self.parameters@ + self.filters@.take(k as int),
            decreases self.filters@.len() - k,
        {
            r.push(self.filters[k]);
            k += 1;
            assert(r@ =~= self.parameters@ + self.filters@.take(k as int));
        }
        assert(self.parameters@.take(self.parameters@.len() as int) =~= self.parameters@);
        assert(self.filters@.take(self.filters@.len() as int) =~= self.filters@);
        r
    }

    /// Produces the matching entities together with their fetched components.
    pub fn entities_and_components(&self) -> (r: Vec<(Entity, Vec<Option<V>>)>)
        requires
            self.world.wf(),
        ensures
            r@.len() == self.spec_entities().len(),
            forall|k: int|
                0 <= k < r@.len() ==> (#[trigger] r@[k]).0 == self.spec_entities()[k] && r@[k].1@
                    == parameter_values(self.world.view()[r@[k].0], self.parameters@),
    {
        let world = self.world;
        let fs = self.all_filters_vec();
        let mut out: Vec<(Entity, Vec<Option<V>>)> = Vec::new();
        let mut a: usize = 0;
        while a < world.archetypes.len()
            invariant
                world.wf(),
                *world == *self.world,
                fs@ == self.all_filters(),
                a <= world.archetypes@.len(),
                out@.len() == matching_prefix(world.archetypes@, a as int, fs@).len(),
                forall|k: int|
                    0 <= k < out@.len() ==> (#[trigger] out@[k]).0 == matching_prefix(
                        world.archetypes@,
                        a as int,
                        fs@,
                    )[k] && out@[k].1@ == parameter_values(world.view()[out@[k].0], self.parameters@),
            decreases world.archetypes@.len() - a,
        {
            let arch = &world.archetypes[a];
            let ghost before = out@;
            if archetype_matches(&arch.component_ids, &fs) {
                proof {
                    assert(arch.shape_ok(a as int));
                }
                let mut r: usize = 0;
                while r < arch.entities.len()
                    invariant
                        world.wf(),
                        a < world.archetypes@.len(),
                        *arch == world.archetypes@[a as int],
                        arch.shape_ok(a as int),
                        r <= arch.entities@.len(),
                        out@.len() == before.len() + r,
                        forall|k: int| 0 <= k < before.len() ==> #[trigger] out@[k] == before[k],
                        forall|k: int|
                            0 <= k < r ==> (#[trigger] out@[before.len() + k]).0 == arch.entities@[k]
                                && out@[before.len() + k].1@ == parameter_values(
                                world.view()[arch.entities@[k]],
                                self.parameters@,
                            ),
                    decreases arch.entities@.len() - r,
                {
                    proof {
                        assert(world.entry_ok(a as int, r as int));
                        assert(arch.rows@[r as int]@.len() == arch.component_ids@.len());
                        let x = arch.entities@[r as int];
                        assert(world.view().contains_key(x));
                    }
                    let values = row_values(&arch.component_ids, &arch.rows[r], &self.parameters);
                    out.push((arch.entities[r], values));
                    r += 1;
                }
            }
            proof {
                let next = matching_prefix(world.archetypes@, a + 1, fs@);
                let prev = matching_prefix(world.archetypes@, a as int, fs@);
                assert forall|k: int|
                    0 <= k < out@.len() implies (#[trigger] out@[k]).0 == next[k] && out@[k].1@
                    == parameter_values(world.view()[out@[k].0], self.parameters@) by {
                    if k < before.len() {
                        assert(out@[k] == before[k]);
                    } else {
                        assert(out@[before.len() + (k - before.len())] == out@[k]);
                    }
                }
            }
            a += 1;
        }
        out
    }

    /// Produces the fetched components of every matching entity, in order.
    pub fn iter(&self) -> (r: Vec<Vec<Option<V>>>)
        requires
            self.world.wf(),
        ensures
            r@.len() == self.spec_entities().len(),
            forall|k: int|
                0 <= k < r@.len() ==> (#[trigger] r@[k])@ == parameter_values(
                    self.world.view()[self.spec_entities()[k]],
                    self.parameters@,
                ),
    {
        let pairs = self.entities_and_components();
        let mut out: Vec<Vec<Option<V>>> = Vec::new();
        let mut k: usize = 0;
        while k < pairs.len()
            invariant
                k <= pairs@.len(),
                out@.len() == k,
                forall|j: int| 0 <= j < k ==> (#[trigger] out@[j])@ == pairs@[j].1@,
            decreases pairs@.len() - k,
        {
            let values = copy_values(&pairs[k].1);
            out.push(values);
            k += 1;
        }
        out
    }

    /// The number of matching entities.
    pub fn len(&self) -> (r: usize)
        requires
            self.world.wf(),
        ensures
            r == self.spec_entities().len(),
    {
        self.entities_and_components().len()
    }

    /// The fetched components of `entity`, if it is live and matches the query.
    pub fn get_entity_components(&self, entity: Entity) -> (r: Option<Vec<Option<V>>>)
        requires
            self.world.wf(),
        ensures
            r is Some <==> self.world.view().contains_key(entity) && filters_hold(
                self.world.view()[entity].dom(),
                self.all_filters(),
            ),
            r matches Some(values) ==> values@ == parameter_values(
                self.world.view()[entity],
                self.parameters@,
            ),
    {
        let world = self.world;
        let loc = match world.get_entity_location(entity) {
            Some(loc) => loc,
            None => return None,
        };
        proof {
            world.lemma_live_kinds(entity);
        }
        let arch = &world.archetypes[loc.archetype_index];
        let fs = self.all_filters_vec();
        if !archetype_matches(&arch.component_ids, &fs) {
            return None;
        }
        proof {
            assert(arch.shape_ok(loc.archetype_index as int));
            assert(arch.rows@[loc.index_within_archetype as int]@.len() == arch.component_ids@.len());
        }
        Some(row_values(&arch.component_ids, &arch.rows[loc.index_within_archetype], &self.parameters))
    }
}

impl<V: Copy> World<V> {
    /// A query over this world that fetches the kinds of `parameters` and
    /// also requires `filters` to hold.
    pub fn query(&self, parameters: Vec<Filter>, filters: Vec<Filter>) -> (q: Query<'_, V>)
        ensures
            *q.world == *self,
            q.parameters@ == parameters@,
            q.filters@ == filters@,
    {
        Query { world: self, parameters, filters }
    }
}

impl<V: Copy> Archetype<V> {
    /// Both archetypes hold the same data.
    pub open spec fn same_as(&self, other: &Self) -> bool {
        &&& self.index_in_world == other.index_in_world
        &&& self.component_ids@ == other.component_ids@
        &&& self.entities@ == other.entities@
        &&& self.rows@.len() == other.rows@.len()
        &&& forall|r: int| 0 <= r < self.rows@.len() ==> (#[trigger] self.rows@[r])@ == other.rows@[r]@
    }

    /// A copy of this archetype.
    fn copy(&self) -> (r: Self)
        ensures
            r.same_as(self),
    {
        let mut entities: Vec<Entity> = Vec::new();
        let mut rows: Vec<Vec<V>> = Vec::new();
        let mut k: usize = 0;
        while k < self.entities.len()
            invariant
                k <= self.entities@.len(),
                entities@ == self.entities@.take(k as int),
            decreases self.entities@.len() - k,
        {
            entities.push(self.entities[k]);
            k += 1;
            assert(entities@ =~= self.entities@.take(k as int));
        }
        assert(self.entities@.take(self.entities@.len() as int) =~= self.entities@);
        let mut k: usize = 0;
        while k < self.rows.len()
            invariant
                k <= self.rows@.len(),
                rows@.len() == k,
                forall|j: int| 0 <= j < k ==> (#[trigger] rows@[j])@ == self.rows@[j]@,
            decreases self.rows@.len() - k,
        {
            rows.push(copy_row(&self.rows[k]));
            k += 1;
        }
        Archetype {
            index_in_world: self.index_in_world,
            component_ids: copy_ids(&self.component_ids),
            entities,
            rows,
        }
    }
}

/// A copy of a row of values.
fn copy_row<V: Copy>(row: &Vec<V>) -> (r: Vec<V>)
    ensures
        r@ == row@,
{
    let mut r = Vec::new();
    let mut i: usize = 0;
    while i < row.len()
        invariant
            i <= row@.len(),
            r@ == row@.take(i as int),
        decreases row@.len() - i,
    {
        r.push(row[i]);
        i += 1;
        assert(r@ =~= row@.take(i as int));
    }
    assert(row@.take(row@.len() as int) =~= row@);
    r
}

/// A copy of a list of small integers.
fn copy_u32s(values: &Vec<u32>) -> (r: Vec<u32>)
    ensures
        r@ == values@,
{
    let mut r = Vec::new();
    let mut i: usize = 0;
    while i < values.len()
        invariant
            i <= values@.len(),
            r@ == values@.take(i as int),
        decreases values@.len() - i,
    {
        r.push(values[i]);
        i += 1;
        assert(r@ =~= values@.take(i as int));
    }
    assert(values@.take(values@.len() as int) =~= values@);
    r
}

impl<V: Copy> World<V> {
    /// Both worlds hold the same data.
    closed spec fn same_as(&self, other: &Self) -> bool {
        &&& self.archetypes@.len() == other.archetypes@.len()
        &&& forall|a: int|
            0 <= a < self.archetypes@.len() ==> (#[trigger] self.archetypes@[a]).same_as(
                &other.archetypes@[a],
            )
        &&& self.locations@ == other.locations@
        &&& self.generations@ == other.generations@
        &&& self.free_indices@ == other.free_indices@
    }

    proof fn lemma_same_as(&self, other: &Self)
        requires
            other.wf(),
            self.same_as(other),
        ensures
            self.wf(),
            self.view() == other.view(),
            self.spec_archetype_count() == other.spec_archetype_count(),
            self.can_spawn() == other.can_spawn(),
    {
        assert forall|a: int| 0 <= a < self.archetypes@.len() implies (#[trigger] self.archetypes@[a]).shape_ok(a) by {
            let x = self.archetypes@[a];
            let y = other.archetypes@[a];
            assert(x.same_as(&y));
            assert(y.shape_ok(a));
            assert forall|r: int| 0 <= r < x.rows@.len() implies (#[trigger] x.rows@[r])@.len() == x.component_ids@.len() by {
                assert(y.rows@[r]@.len() == y.component_ids@.len());
            }
        }
        assert forall|a: int, b: int|
            0 <= a < b < self.archetypes@.len() implies (#[trigger] self.archetypes@[a]).component_ids@
            != (#[trigger] self.archetypes@[b]).component_ids@ by {
            assert(self.archetypes@[a].same_as(&other.archetypes@[a]));
            assert(self.archetypes@[b].same_as(&other.archetypes@[b]));
            assert(other.archetypes@[a].component_ids@ != other.archetypes@[b].component_ids@);
        }
        assert forall|i: int|
            0 <= i < self.locations@.len() && (#[trigger] self.locations@[i]) is Some implies self.location_ok(i) by {
            assert(other.location_ok(i));
            let l = other.locations@[i]->Some_0;
            assert(self.archetypes@[l.archetype_index as int].same_as(&other.archetypes@[l.archetype_index as int]));
        }
        assert forall|a: int, r: int|
            0 <= a < self.archetypes@.len() && 0 <= r < self.archetypes@[a].entities@.len()
            implies #[trigger] self.entry_ok(a, r) by {
            assert(self.archetypes@[a].same_as(&other.archetypes@[a]));
            assert(other.entry_ok(a, r));
        }
        assert(self.archetypes@[0].same_as(&other.archetypes@[0]));
        assert forall|x: Entity| #[trigger] self.view().contains_key(x) implies self.view()[x] == other.view()[x] by {
            assert(other.location_ok(x.index as int));
            let l = other.locations@[x.index as int]->Some_0;
            let sa = self.archetypes@[l.archetype_index as int];
            assert(sa.same_as(&other.archetypes@[l.archetype_index as int]));
            assert(sa.rows@[l.index_within_archetype as int]@ == other.archetypes@[l.archetype_index as int].rows@[l.index_within_archetype as int]@);
        }
        assert(self.view() =~= other.view());
    }

    /// A copy of this world and all of its entities.
    pub fn clone_world(&self) -> (w: Self)
        requires
            self.wf(),
        ensures
            w.wf(),
            w.view() == self.view(),
            w.spec_archetype_count() == self.spec_archetype_count(),
            w.can_spawn() == self.can_spawn(),
    {
        let mut archetypes: Vec<Archetype<V>> = Vec::new();
        let mut a: usize = 0;
        while a < self.archetypes.len()
            invariant
                a <= self.archetypes@.len(),
                archetypes@.len() == a,
                forall|b: int| 0 <= b < a ==> (#[trigger] archetypes@[b]).same_as(&self.archetypes@[b]),
            decreases self.archetypes@.len() - a,
        {
            archetypes.push(self.archetypes[a].copy());
            a += 1;
        }
        let mut locations: Vec<Option<EntityLocation>> = Vec::new();
        let mut k: usize = 0;
        while k < self.locations.len()
            invariant
                k <= self.locations@.len(),
                locations@ == self.locations@.take(k as int),
            decreases self.locations@.len() - k,
        {
            locations.push(self.locations[k]);
            k += 1;
            assert(locations@ =~= self.locations@.take(k as int));
        }
        assert(self.locations@.take(self.locations@.len() as int) =~= self.locations@);
        let w = World {
            archetypes,
            locations,
            generations: copy_u32s(&self.generations),
            free_indices: copy_u32s(&self.free_indices),
        };
        proof {
            w.lemma_same_as(self);
        }
        w
    }
}

/// `m` with `keys[k] -> values[k]` inserted for each `k` in order.
pub open spec fn insert_all<K, W>(m: Map<K, W>, keys: Seq<K>, values: Seq<W>) -> Map<K, W>
    decreases keys.len(),
{
    if keys.len() == 0 {
        m
    } else {
        insert_all(m, keys.drop_last(), values.drop_last()).insert(keys.last(), values.last())
    }
}

/// The components, in the world `w`, of each entity of `es`.
pub open spec fn components_list<V: Copy>(w: World<V>, es: Seq<Entity>) -> Seq<Map<ComponentId, V>> {
    Seq::new(es.len(), |k: int| w.view()[es[k]])
}

/// The pairs of a row, as a bundle.
fn row_bundle<V: Copy>(ids: &Vec<ComponentId>, row: &Vec<V>) -> (r: Vec<(ComponentId, V)>)
    requires
        ids@.len() == row@.len(),
    ensures
        bundle_map(r@) == row_map(ids@, row@),
{
    let mut r: Vec<(ComponentId, V)> = Vec::new();
    let mut k: usize = 0;
    while k < ids.len()
        invariant
            k <= ids@.len(),
            ids@.len() == row@.len(),
            r@.len() == k,
            bundle_map(r@) == row_map(ids@.take(k as int), row@.take(k as int)),
        decreases ids@.len() - k,
    {
        let ghost before = r@;
        r.push((ids[k], row[k]));
        proof {
            assert(r@.drop_last() == before);
            assert(ids@.take(k + 1).drop_last() =~= ids@.take(k as int));
            assert(row@.take(k + 1).drop_last() =~= row@.take(k as int));
        }
        k += 1;
    }
    assert(ids@.take(ids@.len() as int) =~= ids@);
    assert(row@.take(row@.len() as int) =~= row@);
    r
}

impl<V: Copy> World<V> {
    /// Moves every entity of `other` into this world, as new entities with
    /// the same components, in archetype order; `other` is left empty.
    pub fn add_world(&mut self, other: &mut World<V>)
        requires
            old(self).wf(),
            old(other).wf(),
            old(other).matching_entities(Seq::empty()).len() <= old(self).spare_indices(),
        ensures
            final(self).wf(),
            final(other).wf(),
            final(other).view() == Map::<Entity, Map<ComponentId, V>>::empty(),
            exists|spawned: Seq<Entity>|
                {
                    &&& spawned.len() == old(other).matching_entities(Seq::empty()).len()
                    &&& spawned.no_duplicates()
                    &&& forall|k: int|
                        0 <= k < spawned.len() ==> !old(self).view().contains_key(#[trigger] spawned[k])
                    &&& final(self).view() == insert_all(
                        old(self).view(),
                        spawned,
                        components_list(*old(other), old(other).matching_entities(Seq::empty())),
                    )
                },
    {
        let ghost src = old(other).matching_entities(Seq::empty());
        let ghost o = *other;
        let ghost mut spawned: Seq<Entity> = Seq::empty();
        let mut a: usize = 0;
        while a < other.archetypes.len()
            invariant
                self.wf(),
                other.wf(),
                *other == o,
                a <= other.archetypes@.len(),
                spawned.len() == matching_prefix(other.archetypes@, a as int, Seq::empty()).len(),
                src == matching_prefix(other.archetypes@, other.archetypes@.len() as int, Seq::empty()),
                src.len() <= old(self).spare_indices(),
                self.spare_indices() == old(self).spare_indices() - spawned.len(),
                spawned.no_duplicates(),
                forall|k: int| 0 <= k < spawned.len() ==> !old(self).view().contains_key(#[trigger] spawned[k]),
                self.view() == insert_all(
                    old(self).view(),
                    spawned,
                    components_list(o, matching_prefix(other.archetypes@, a as int, Seq::empty())),
                ),
            decreases other.archetypes@.len() - a,
        {
            let arch = &other.archetypes[a];
            let ghost before = spawned;
            let ghost prefix = matching_prefix(other.archetypes@, a as int, Seq::empty());
            proof {
                assert(filters_hold(arch.component_ids@.to_set(), Seq::<Filter>::empty()));
                assert(matching_prefix(other.archetypes@, a + 1, Seq::empty()) == prefix + arch.entities@);
                assert(arch.shape_ok(a as int));
            }
            let mut r: usize = 0;
            while r < arch.entities.len()
                invariant
                    self.wf(),
                    other.wf(),
                    *other == o,
                    a < other.archetypes@.len(),
                    *arch == other.archetypes@[a as int],
                    arch.shape_ok(a as int),
                    r <= arch.entities@.len(),
                    prefix == matching_prefix(other.archetypes@, a as int, Seq::empty()),
                    matching_prefix(other.archetypes@, a + 1, Seq::empty()) == prefix + arch.entities@,
                    src == matching_prefix(other.archetypes@, other.archetypes@.len() as int, Seq::empty()),
                    src.len() <= old(self).spare_indices(),
                    spawned.len() == prefix.len() + r,
                    self.spare_indices() == old(self).spare_indices() - spawned.len(),
                    spawned.no_duplicates(),
                    forall|k: int| 0 <= k < spawned.len() ==> !old(self).view().contains_key(#[trigger] spawned[k]),
                    self.view() == insert_all(
                        old(self).view(),
                        spawned,
                        components_list(o, prefix + arch.entities@.take(r as int)),
                    ),
                decreases arch.entities@.len() - r,
            {
                proof {
                    o.lemma_prefix_len_bound_entities(a as int, r as int);
                    assert(self.can_spawn());
                    assert(arch.rows@[r as int]@.len() == arch.component_ids@.len());
                }
                let bundle = row_bundle(&arch.component_ids, &arch.rows[r]);
                let ghost view_before = self.view();
                let e = self.spawn(bundle);
                proof {
                    let x = arch.entities@[r as int];
                    assert(o.entry_ok(a as int, r as int));
                    assert(o.view()[x] == row_map(arch.component_ids@, arch.rows@[r as int]@));
                    let es = prefix + arch.entities@.take(r as int);
                    let es2 = prefix + arch.entities@.take(r + 1);
                    assert(es2.drop_last() =~= es);
                    assert(es2.last() == x);
                    assert(components_list(o, es2).drop_last() =~= components_list(o, es));
                    let old_spawned = spawned;
                    spawned = spawned.push(e);
                    assert(spawned.drop_last() == old_spawned);
                    assert(insert_all(old(self).view(), old_spawned, components_list(o, es)) == view_before);
                    assert forall|k: int| 0 <= k < old_spawned.len() implies #[trigger] old_spawned[k] != e by {
                        lemma_insert_all_contains(old(self).view(), old_spawned, components_list(o, es), k);
                    }
                    assert(spawned.no_duplicates()) by {
                        assert forall|i: int, j: int| 0 <= i < j < spawned.len() implies spawned[i] != spawned[j] by {
                            if j < old_spawned.len() {
                                assert(old_spawned[i] != old_spawned[j]);
                            } else {
                                assert(spawned[j] == e);
                                assert(spawned[i] == old_spawned[i]);
                            }
                        }
                    }
                    assert forall|k: int| 0 <= k < spawned.len() implies !old(self).view().contains_key(#[trigger] spawned[k]) by {
                        if k == old_spawned.len() {
                            lemma_insert_all_keeps(old(self).view(), old_spawned, components_list(o, es), e);
                        } else {
                            assert(spawned[k] == old_spawned[k]);
                        }
                    }
                }
                r += 1;
            }
            proof {
                assert(arch.entities@.take(arch.entities@.len() as int) =~= arch.entities@);
            }
            a += 1;
        }
        *other = World::new();
        assert(src == matching_prefix(o.archetypes@, o.archetypes@.len() as int, Seq::empty()));
    }

    /// The entities before row `r` of archetype `a` number no more than the
    /// world's entities.
    proof fn lemma_prefix_len_bound_entities(&self, a: int, r: int)
        requires
            self.wf(),
            0 <= a < self.archetypes@.len(),
            0 <= r < self.archetypes@[a].entities@.len(),
        ensures
            matching_prefix(self.archetypes@, a, Seq::empty()).len() + r < self.matching_entities(Seq::empty()).len(),
    {
        self.lemma_prefix_monotone(a + 1, self.archetypes@.len() as int);
        assert(filters_hold(self.archetypes@[a].component_ids@.to_set(), Seq::<Filter>::empty()));
    }

    proof fn lemma_prefix_monotone(&self, j: int, k: int)
        requires
            0 <= j <= k <= self.archetypes@.len(),
        ensures
            matching_prefix(self.archetypes@, j, Seq::empty()).len() <= matching_prefix(self.archetypes@, k, Seq::empty()).len(),
        decreases k - j,
    {
        if j < k {
            self.lemma_prefix_monotone(j, k - 1);
        }
    }
}

/// Inserting keys never removes one that was present.
proof fn lemma_insert_all_keeps<K, W>(m: Map<K, W>, keys: Seq<K>, values: Seq<W>, x: K)
    requires
        !insert_all(m, keys, values).contains_key(x),
    ensures
        !m.contains_key(x),
    decreases keys.len(),
{
    if keys.len() > 0 {
        lemma_insert_all_keeps(m, keys.drop_last(), values.drop_last(), x);
    }
}

/// Every inserted key is present afterwards.
proof fn lemma_insert_all_contains<K, W>(m: Map<K, W>, keys: Seq<K>, values: Seq<W>, k: int)
    requires
        0 <= k < keys.len(),
    ensures
        insert_all(m, keys, values).contains_key(keys[k]),
    decreases keys.len(),
{
    if k < keys.len() - 1 {
        lemma_insert_all_contains(m, keys.drop_last(), values.drop_last(), k);
        assert(keys.drop_last()[k] == keys[k]);
    }
}

impl<V: Copy> World<V> {
    /// A mutable reference to one component of a live entity.
    pub fn get_component_mut(&mut self, entity: Entity, component_id: ComponentId) -> (r: Option<&mut V>)
        requires
            old(self).wf(),
        ensures
            r is Some <==> old(self).view().contains_key(entity) && old(self).view()[entity].contains_key(
                component_id,
            ),
            r is None ==> *final(self) == *old(self),
            r matches Some(v) ==> *v == old(self).view()[entity][component_id],
            r matches Some(v) ==> final(self).wf() && final(self).view() == old(self).view().insert(
                entity,
                old(self).view()[entity].insert(component_id, *final(v)),
            ),
    {
        let loc = match self.get_entity_location(entity) {
            Some(loc) => loc,
            None => return None,
        };
        proof {
            self.lemma_live_kinds(entity);
        }
        let a = loc.archetype_index;
        let i = loc.index_within_archetype;
        let found = {
            let arch = &self.archetypes[a];
            let mut p: usize = 0;
            while p < arch.component_ids.len() && arch.component_ids[p] != component_id
                invariant
                    p <= arch.component_ids@.len(),
                    forall|j: int| 0 <= j < p ==> #[trigger] arch.component_ids@[j] != component_id,
                decreases arch.component_ids@.len() - p,
            {
                p += 1;
            }
            p
        };
        if found == self.archetypes[a].component_ids.len() {
            return None;
        }
        proof {
            assert(self.archetypes@[a as int].shape_ok(a as int));
            assert(self.archetypes@[a as int].rows@[i as int]@.len() == self.archetypes@[a as int].component_ids@.len());
            assert(self.archetypes@[a as int].component_ids@[found as int] == component_id);
            lemma_sorted_no_duplicates(self.archetypes@[a as int].component_ids@);
            lemma_row_map_value(self.archetypes@[a as int].component_ids@, self.archetypes@[a as int].rows@[i as int]@, found as int);
            self.lemma_value_update(a as int, i as int, found as int, entity);
        }
        Some(world_value_mut(self, a, i, found))
    }
}

/// A mutable reference to the value at row `i`, position `p` of archetype `a`.
fn world_value_mut<V: Copy>(w: &mut World<V>, a: usize, i: usize, p: usize) -> (r: &mut V)
    requires
        a < old(w).archetypes@.len(),
        i < old(w).archetypes@[a as int].rows@.len(),
        p < old(w).archetypes@[a as int].rows@[i as int]@.len(),
    ensures
        *r == old(w).archetypes@[a as int].rows@[i as int]@[p as int],
        old(w).value_updated(&*final(w), a as int, i as int, p as int),
        final(w).archetypes@[a as int].rows@[i as int]@[p as int] == *final(r),
{
    row_value_mut(&mut w.archetypes[a], i, p)
}

/// A mutable reference to the value at row `i`, position `p` of an archetype.
fn row_value_mut<V: Copy>(arch: &mut Archetype<V>, i: usize, p: usize) -> (r: &mut V)
    requires
        i < old(arch).rows@.len(),
        p < old(arch).rows@[i as int]@.len(),
    ensures
        *r == old(arch).rows@[i as int]@[p as int],
        final(arch).index_in_world == old(arch).index_in_world,
        final(arch).component_ids == old(arch).component_ids,
        final(arch).entities == old(arch).entities,
        final(arch).rows@.len() == old(arch).rows@.len(),
        forall|k: int| 0 <= k < old(arch).rows@.len() && k != i ==> #[trigger] final(arch).rows@[k] == old(arch).rows@[k],
        final(arch).rows@[i as int]@ == old(arch).rows@[i as int]@.update(p as int, *final(r)),
{
    &mut arch.rows[i][p]
}

impl<V: Copy> World<V> {
    /// `n` is this world with only the value at row `i`, position `p` of
    /// archetype `a` changed.
    pub closed spec fn value_updated(&self, n: &Self, a: int, i: int, p: int) -> bool {
        &&& n.archetypes@.len() == self.archetypes@.len()
        &&& forall|b: int| 0 <= b < self.archetypes@.len() && b != a ==> #[trigger] n.archetypes@[b] == self.archetypes@[b]
        &&& n.archetypes@[a].index_in_world == self.archetypes@[a].index_in_world
        &&& n.archetypes@[a].component_ids == self.archetypes@[a].component_ids
        &&& n.archetypes@[a].entities == self.archetypes@[a].entities
        &&& n.archetypes@[a].rows@.len() == self.archetypes@[a].rows@.len()
        &&& forall|r: int| 0 <= r < self.archetypes@[a].rows@.len() && r != i ==> #[trigger] n.archetypes@[a].rows@[r] == self.archetypes@[a].rows@[r]
        &&& n.archetypes@[a].rows@[i]@ == self.archetypes@[a].rows@[i]@.update(p, n.archetypes@[a].rows@[i]@[p])
        &&& n.locations == self.locations
        &&& n.generations == self.generations
        &&& n.free_indices == self.free_indices
    }

    proof fn lemma_value_update(&self, a: int, i: int, p: int, e: Entity)
        requires
            self.wf(),
            self.view().contains_key(e),
            self.spec_location(e).archetype_index == a,
            self.spec_location(e).index_within_archetype == i,
            0 <= a < self.archetypes@.len(),
            0 <= i < self.archetypes@[a].rows@.len(),
            0 <= p < self.archetypes@[a].component_ids@.len(),
        ensures
            forall|n: Self| #[trigger] self.value_updated(&n, a, i, p) ==> n.wf() && n.view() == self.view().insert(
                e,
                self.view()[e].insert(self.archetypes@[a].component_ids@[p], n.archetypes@[a].rows@[i]@[p]),
            ),
    {
        assert forall|n: Self| #[trigger] self.value_updated(&n, a, i, p) implies n.wf() && n.view() == self.view().insert(
            e,
            self.view()[e].insert(self.archetypes@[a].component_ids@[p], n.archetypes@[a].rows@[i]@[p]),
        ) by {
            let ids = self.archetypes@[a].component_ids@;
            let old_row = self.archetypes@[a].rows@[i]@;
            let nv = n.archetypes@[a].rows@[i]@[p];
            assert(self.archetypes@[a].shape_ok(a));
            assert(old_row.len() == ids.len());
            assert forall|b: int| 0 <= b < n.archetypes@.len() implies (#[trigger] n.archetypes@[b]).shape_ok(b) by {
                assert(self.archetypes@[b].shape_ok(b));
                if b == a {
                    assert forall|r: int| 0 <= r < n.archetypes@[b].rows@.len() implies (#[trigger] n.archetypes@[b].rows@[r])@.len()
                        == n.archetypes@[b].component_ids@.len() by {
                        if r != i {
                            assert(n.archetypes@[b].rows@[r] == self.archetypes@[b].rows@[r]);
                        }
                    }
                }
            }
            assert forall|b1: int, b2: int|
                0 <= b1 < b2 < n.archetypes@.len() implies (#[trigger] n.archetypes@[b1]).component_ids@
                != (#[trigger] n.archetypes@[b2]).component_ids@ by {
                assert(self.archetypes@[b1].component_ids@ != self.archetypes@[b2].component_ids@);
            }
            assert forall|k: int|
                0 <= k < n.locations@.len() && (#[trigger] n.locations@[k]) is Some implies n.location_ok(k) by {
                assert(self.location_ok(k));
            }
            assert forall|b: int, r: int|
                0 <= b < n.archetypes@.len() && 0 <= r < n.archetypes@[b].entities@.len()
                implies #[trigger] n.entry_ok(b, r) by {
                assert(self.entry_ok(b, r));
            }
            assert(n.wf());
            lemma_sorted_no_duplicates(ids);
            lemma_row_update(ids, old_row, p, nv);
            assert(n.archetypes@[a].rows@[i]@ == old_row.update(p, nv));
            assert forall|x: Entity| #[trigger] n.view().contains_key(x) implies n.view()[x] == self.view().insert(
                e,
                self.view()[e].insert(ids[p], nv),
            )[x] by {
                assert(self.location_ok(x.index as int));
                let lx = self.locations@[x.index as int]->Some_0;
                if x != e && lx.archetype_index == a {
                    assert(lx.index_within_archetype != i);
                    assert(n.archetypes@[a].rows@[lx.index_within_archetype as int] == self.archetypes@[a].rows@[lx.index_within_archetype as int]);
                }
                if x == e {
                    assert(n.view()[e] == row_map(ids, old_row.update(p, nv)));
                }
            }
            assert(n.view() =~= self.view().insert(e, self.view()[e].insert(ids[p], nv)));
        }
    }
}

/// A copy of a list of fetched values.
fn copy_values<V: Copy>(values: &Vec<Option<V>>) -> (r: Vec<Option<V>>)
    ensures
        r@ == values@,
{
    let mut r = Vec::new();
    let mut i: usize = 0;
    while i < values.len()
        invariant
            i <= values@.len(),
            r@ == values@.take(i as int),
        decreases values@.len() - i,
    {
        r.push(values[i]);
        i += 1;
        assert(r@ =~= values@.take(i as int));
    }
    assert(values@.take(values@.len() as int) =~= values@);
    r
}

/// A copy of an id list.
fn copy_ids(ids: &Vec<ComponentId>) -> (r: Vec<ComponentId>)
    ensures
        r@ == ids@,
{
    let mut r = Vec::new();
    let mut i: usize = 0;
    while i < ids.len()
        invariant
            i <= ids@.len(),
            r@ == ids@.take(i as int),
        decreases ids@.len() - i,
    {
        r.push(ids[i]);
        i += 1;
        assert(r@ =~= ids@.take(i as int));
    }
    assert(ids@.take(ids@.len() as int) =~= ids@);
    r
}

/// True when both id lists are the same.
fn ids_equal(a: &Vec<ComponentId>, b: &Vec<ComponentId>) -> (r: bool)
    ensures
        r == (a@ == b@),
{
    if a.len() != b.len() {
        return false;
    }
    let mut i: usize = 0;
    while i < a.len()
        invariant
            i <= a@.len(),
            a@.len() == b@.len(),
            forall|j: int| 0 <= j < i ==> a@[j] == b@[j],
        decreases a@.len() - i,
    {
        if a[i] != b[i] {
            return false;
        }
        i += 1;
    }
    assert(a@ =~= b@);
    true
}

} // verus!
