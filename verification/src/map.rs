use vstd::prelude::*;

verus! {

/// A layer of the map.
#[derive(Clone, Copy, Debug, PartialEq, Eq, Structural)]
pub enum Layer {
    Floor,
    Wall,
    Stationary,
    Entity,
}

/// Tiles of one layer: each grid position holds one entity. Positions are kept in the
/// order they were first placed; placing on a taken position replaces its entity.
#[derive(Clone, Debug)]
pub struct TileMap {
    positions: Vec<(i32, i32)>,
    ents: Vec<u64>,
}

/// The table that `positions` and `ents`, read pairwise, describe.
pub open spec fn pairs_to_map(positions: Seq<(i32, i32)>, ents: Seq<u64>) -> Map<(i32, i32), u64>
    decreases positions.len(),
{
    if positions.len() == 0 || ents.len() == 0 {
        Map::empty()
    } else {
        pairs_to_map(positions.drop_last(), ents.drop_last()).insert(positions.last(), ents.last())
    }
}

/// The positions and entities of a layer, in order, after `ent` is put at `pos`: a taken
/// position keeps its place and gets the new entity; a new position goes after all the
/// others.
pub open spec fn place_tile(positions: Seq<(i32, i32)>, ents: Seq<u64>, pos: (i32, i32), ent: u64) -> (Seq<(i32, i32)>, Seq<u64>) {
    if positions.contains(pos) {
        (positions, ents.update(positions.index_of(pos), ent))
    } else {
        (positions.push(pos), ents.push(ent))
    }
}

impl TileMap {
    /// Each position is listed once, beside its entity.
    pub closed spec fn wf(&self) -> bool {
        &&& self.positions@.len() == self.ents@.len()
        &&& self.positions@.no_duplicates()
    }

    /// The taken positions, in the order they were first placed.
    pub closed spec fn positions(&self) -> Seq<(i32, i32)> {
        self.positions@
    }

    /// The entities, in the order of `positions`.
    pub closed spec fn ents(&self) -> Seq<u64> {
        self.ents@
    }

    /// An empty layer.
    pub fn new() -> (t: TileMap)
        ensures
            t.wf(),
            t@ == Map::<(i32, i32), u64>::empty(),
            t.positions() == Seq::<(i32, i32)>::empty(),
            t.ents() == Seq::<u64>::empty(),
    {
        TileMap { positions: Vec::new(), ents: Vec::new() }
    }

    /// The entity at `pos`, if the position is taken.
    pub fn get(&self, pos: (i32, i32)) -> (r: Option<u64>)
        requires
            self.wf(),
        ensures
            r == if self@.contains_key(pos) { Some(self@[pos]) } else { None },
    {
        match self.find(pos) {
            Some(i) => {
                proof {
                    lemma_pairs_lookup(self.positions@, self.ents@, i as int);
                }
                Some(self.ents[i])
            },
            None => {
                proof {
                    lemma_pairs_absent(self.positions@, self.ents@, pos);
                }
                None
            },
        }
    }

    fn find(&self, pos: (i32, i32)) -> (r: Option<usize>)
        ensures
            match r {
                Some(i) => i < self.positions@.len() && self.positions@[i as int] == pos,
                None => !self.positions@.contains(pos),
            },
    {
        let mut i: usize = 0;
        while i < self.positions.len()
            invariant
                0 <= i <= self.positions@.len(),
                forall|j: int| 0 <= j < i ==> self.positions@[j] != pos,
            decreases self.positions@.len() - i,
        {
            let p = self.positions[i];
            if p.0 == pos.0 && p.1 == pos.1 {
                return Some(i);
            }
            i = i + 1;
        }
        None
    }

    /// Puts `ent` at `pos` and gives back the entity that was there, if any. A new
    /// position goes after all taken ones; a taken one keeps its place.
    pub fn insert(&mut self, pos: (i32, i32), ent: u64) -> (r: Option<u64>)
        requires
            old(self).wf(),
        ensures
            final(self).wf(),
            final(self)@ == old(self)@.insert(pos, ent),
            r == if old(self)@.contains_key(pos) { Some(old(self)@[pos]) } else { None },
            (final(self).positions(), final(self).ents())
                == place_tile(old(self).positions(), old(self).ents(), pos, ent),
    {
        match self.find(pos) {
            Some(i) => {
                proof {
                    let j = self.positions@.index_of(pos);
                    assert(self.positions@.contains(pos));
                    assert(self.positions@[j] == pos);
                    assert(j == i);
                    lemma_pairs_lookup(self.positions@, self.ents@, i as int);
                    lemma_pairs_update(self.positions@, self.ents@, i as int, ent);
                }
                let previous = self.ents[i];
                self.ents.set(i, ent);
                Some(previous)
            },
            None => {
                proof {
                    lemma_pairs_absent(self.positions@, self.ents@, pos);
                    assert(self.positions@.push(pos).drop_last() =~= self.positions@);
                    assert(self.ents@.push(ent).drop_last() =~= self.ents@);
                }
                let ghost before = *self;
                self.positions.push(pos);
                self.ents.push(ent);
                proof {
                    assert(self.positions@.no_duplicates()) by {
                        assert forall|a: int, b: int| 0 <= a < self.positions@.len() && 0 <= b < self.positions@.len() && a != b
                            implies self.positions@[a] != self.positions@[b] by {
                            if a < before.positions@.len() && b < before.positions@.len() {
                            } else if a == before.positions@.len() {
                                assert(before.positions@[b] != pos);
                            } else {
                                assert(before.positions@[a] != pos);
                            }
                        }
                    }
                }
                None
            },
        }
    }

    /// The entities of this layer, in order.
    fn into_ents(self) -> (v: Vec<u64>)
        ensures
            v@ == self.ents(),
    {
        self.ents
    }
}

impl View for TileMap {
    type V = Map<(i32, i32), u64>;

    closed spec fn view(&self) -> Map<(i32, i32), u64> {
        pairs_to_map(self.positions@, self.ents@)
    }
}

/// Law: after putting `ent` at `pos`, reading `pos` gives `ent` and every other position
/// reads as before.
pub proof fn lemma_tile_insert_then_get(before: TileMap, after: TileMap, pos: (i32, i32), ent: u64, other: (i32, i32))
    requires
        after@ == before@.insert(pos, ent),
    ensures
        after@.contains_key(pos) && after@[pos] == ent,
        other != pos ==> after@.contains_key(other) == before@.contains_key(other)
            && (before@.contains_key(other) ==> after@[other] == before@[other]),
{
}

/// Law: the positions of a layer list each taken position once, and its entities, read
/// in the same order, are the entities at those positions; so the layer holds exactly the
/// entities of its tiles, one for each tile.
pub proof fn lemma_tile_contents(t: TileMap)
    requires
        t.wf(),
    ensures
        t.positions().no_duplicates(),
        t.positions().len() == t.ents().len(),
        forall|p: (i32, i32)| #[trigger] t@.contains_key(p) <==> t.positions().contains(p),
        forall|i: int| 0 <= i < t.positions().len() ==> t@[#[trigger] t.positions()[i]] == t.ents()[i],
{
    assert forall|p: (i32, i32)| #[trigger] t@.contains_key(p) <==> t.positions().contains(p) by {
        if t.positions().contains(p) {
            let i = choose|i: int| 0 <= i < t.positions@.len() && t.positions@[i] == p;
            lemma_pairs_lookup(t.positions@, t.ents@, i);
        } else {
            lemma_pairs_absent(t.positions@, t.ents@, p);
        }
    }
    assert forall|i: int| 0 <= i < t.positions().len() implies t@[#[trigger] t.positions()[i]] == t.ents()[i] by {
        lemma_pairs_lookup(t.positions@, t.ents@, i);
    }
}

proof fn lemma_pairs_lookup(positions: Seq<(i32, i32)>, ents: Seq<u64>, i: int)
    requires
        positions.len() == ents.len(),
        positions.no_duplicates(),
        0 <= i < positions.len(),
    ensures
        pairs_to_map(positions, ents).contains_key(positions[i]),
        pairs_to_map(positions, ents)[positions[i]] == ents[i],
    decreases positions.len(),
{
    if i < positions.len() - 1 {
        lemma_drop_last_no_dups(positions);
        lemma_pairs_lookup(positions.drop_last(), ents.drop_last(), i);
    }
}

proof fn lemma_pairs_absent(positions: Seq<(i32, i32)>, ents: Seq<u64>, pos: (i32, i32))
    requires
        positions.len() == ents.len(),
        !positions.contains(pos),
    ensures
        !pairs_to_map(positions, ents).contains_key(pos),
    decreases positions.len(),
{
    if positions.len() > 0 {
        assert(!positions.drop_last().contains(pos)) by {
            if positions.drop_last().contains(pos) {
                let k = choose|k: int| 0 <= k < positions.drop_last().len() && positions.drop_last()[k] == pos;
                assert(positions[k] == pos);
            }
        }
        assert(positions.last() != pos) by {
            assert(positions[positions.len() - 1] == positions.last());
        }
        lemma_pairs_absent(positions.drop_last(), ents.drop_last(), pos);
    }
}

proof fn lemma_pairs_update(positions: Seq<(i32, i32)>, ents: Seq<u64>, i: int, ent: u64)
    requires
        positions.len() == ents.len(),
        positions.no_duplicates(),
        0 <= i < positions.len(),
    ensures
        pairs_to_map(positions, ents.update(i, ent)) == pairs_to_map(positions, ents).insert(positions[i], ent),
    decreases positions.len(),
{
    let n = positions.len() - 1;
    lemma_drop_last_no_dups(positions);
    if i < n {
        assert(ents.update(i, ent).drop_last() =~= ents.drop_last().update(i, ent));
        lemma_pairs_update(positions.drop_last(), ents.drop_last(), i, ent);
        assert(positions.last() != positions[i]) by {
            assert(positions[n] == positions.last());
        }
        assert(pairs_to_map(positions, ents.update(i, ent)) =~= pairs_to_map(positions, ents).insert(positions[i], ent));
    } else {
        assert(ents.update(i, ent).drop_last() =~= ents.drop_last());
        assert(pairs_to_map(positions, ents.update(i, ent)) =~= pairs_to_map(positions, ents).insert(positions[i], ent));
    }
}

proof fn lemma_drop_last_no_dups(s: Seq<(i32, i32)>)
    requires
        s.no_duplicates(),
        s.len() > 0,
    ensures
        s.drop_last().no_duplicates(),
{
    assert forall|a: int, b: int| 0 <= a < s.drop_last().len() && 0 <= b < s.drop_last().len() && a != b
        implies s.drop_last()[a] != s.drop_last()[b] by {
        assert(s[a] == s.drop_last()[a] && s[b] == s.drop_last()[b]);
    }
}


/// The map: floor, wall and stationary-object tiles, and free entities.
#[derive(Clone, Debug)]
pub struct WorldMap {
    pub floor: TileMap,
    pub wall: TileMap,
    pub stationary_objects: TileMap,
    pub entities: Vec<u64>,
}

impl Default for WorldMap {
    fn default() -> (m: WorldMap)
        ensures
            m.floor.positions() == Seq::<(i32, i32)>::empty(),
            m.wall.positions() == Seq::<(i32, i32)>::empty(),
            m.stationary_objects.positions() == Seq::<(i32, i32)>::empty(),
            m.wf(),
            m.all_entities() == Seq::<u64>::empty(),
            m.floor@ == Map::<(i32, i32), u64>::empty(),
            m.wall@ == Map::<(i32, i32), u64>::empty(),
            m.stationary_objects@ == Map::<(i32, i32), u64>::empty(),
    {
        WorldMap::new()
    }
}

/// The order in which layers are walked.
pub open spec fn layer_rank(l: Layer) -> int {
    match l {
        Layer::Floor => 0,
        Layer::Wall => 1,
        Layer::Stationary => 2,
        Layer::Entity => 3,
    }
}

impl WorldMap {
    /// Each tile layer lists each position once.
    pub open spec fn wf(&self) -> bool {
        &&& self.floor.wf()
        &&& self.wall.wf()
        &&& self.stationary_objects.wf()
    }

    /// Every entity of the map in walking order: floor, wall, stationary objects, free
    /// entities.
    pub open spec fn all_entities(&self) -> Seq<u64> {
        self.floor.ents() + self.wall.ents() + self.stationary_objects.ents() + self.entities@
    }

    /// An empty map.
    pub fn new() -> (m: WorldMap)
        ensures
            m.floor.positions() == Seq::<(i32, i32)>::empty(),
            m.wall.positions() == Seq::<(i32, i32)>::empty(),
            m.stationary_objects.positions() == Seq::<(i32, i32)>::empty(),
            m.wf(),
            m.floor@ == Map::<(i32, i32), u64>::empty(),
            m.wall@ == Map::<(i32, i32), u64>::empty(),
            m.stationary_objects@ == Map::<(i32, i32), u64>::empty(),
            m.entities@ == Seq::<u64>::empty(),
            m.all_entities() == Seq::<u64>::empty(),
    {
        let m = WorldMap { floor: TileMap::new(), wall: TileMap::new(), stationary_objects: TileMap::new(), entities: Vec::new() };
        assert(m.all_entities() =~= Seq::<u64>::empty());
        m
    }

    /// Walks the map by reference, layer by layer.
    pub fn iter(&self) -> (it: MapRefIterator<'_>)
        ensures
            it.walk_state() == walk_start(*self),
            it.remaining() == self.all_entities(),
            it.current_layer_spec() == Layer::Floor,
    {
        MapRefIterator::new(self)
    }

    /// Walks the map by reference, layer by layer, with the layer of each step.
    pub fn iter_with_layer(&self) -> (it: MapLayerRefIterator<'_>)
        ensures
            it.inner_iter().walk_state() == walk_start(*self),
            it.inner_iter().remaining() == self.all_entities(),
            it.inner_iter().current_layer_spec() == Layer::Floor,
    {
        MapLayerRefIterator::new(self)
    }

    /// Walks the map by value, layer by layer.
    pub fn into_iter(self) -> (it: MapIterator)
        ensures
            it.walk_state() == walk_start(self),
            it.remaining() == self.all_entities(),
            it.current_layer_spec() == Layer::Floor,
    {
        MapIterator::new(self)
    }
}

/// The layer that the next step of a walk takes its entity from, given what is left of
/// each layer; `Entity` when nothing is left.
pub open spec fn source_layer(floor_left: nat, wall_left: nat, stationary_left: nat) -> Layer {
    if floor_left > 0 {
        Layer::Floor
    } else if wall_left > 0 {
        Layer::Wall
    } else if stationary_left > 0 {
        Layer::Stationary
    } else {
        Layer::Entity
    }
}

/// Where a walk over a map stands: what is left of each layer, and the layer it is on.
pub struct WalkState {
    pub floor: Seq<u64>,
    pub wall: Seq<u64>,
    pub stationary: Seq<u64>,
    pub entities: Seq<u64>,
    pub layer: Layer,
}

/// A fresh walk over `map`: every layer whole, standing on the floor.
pub open spec fn walk_start(map: WorldMap) -> WalkState {
    WalkState {
        floor: map.floor.ents(),
        wall: map.wall.ents(),
        stationary: map.stationary_objects.ents(),
        entities: map.entities@,
        layer: Layer::Floor,
    }
}

/// One step of a walk: the first entity of the first layer that has any left, the walk
/// then standing on that layer; at the end nothing, the walk standing on `Entity`.
pub open spec fn walk_next(s: WalkState) -> (WalkState, Option<u64>) {
    if s.floor.len() > 0 {
        (WalkState { floor: s.floor.drop_first(), wall: s.wall, stationary: s.stationary, entities: s.entities, layer: Layer::Floor },
         Some(s.floor[0]))
    } else if s.wall.len() > 0 {
        (WalkState { floor: s.floor, wall: s.wall.drop_first(), stationary: s.stationary, entities: s.entities, layer: Layer::Wall },
         Some(s.wall[0]))
    } else if s.stationary.len() > 0 {
        (WalkState { floor: s.floor, wall: s.wall, stationary: s.stationary.drop_first(), entities: s.entities, layer: Layer::Stationary },
         Some(s.stationary[0]))
    } else if s.entities.len() > 0 {
        (WalkState { floor: s.floor, wall: s.wall, stationary: s.stationary, entities: s.entities.drop_first(), layer: Layer::Entity },
         Some(s.entities[0]))
    } else {
        (WalkState { floor: s.floor, wall: s.wall, stationary: s.stationary, entities: s.entities, layer: Layer::Entity }, None)
    }
}

/// The walk after `n` steps from `s`.
pub open spec fn walk_run(s: WalkState, n: nat) -> WalkState
    decreases n,
{
    if n == 0 {
        s
    } else {
        walk_next(walk_run(s, (n - 1) as nat)).0
    }
}

/// What step `k` (counting from 0) of the walk from `s` gives.
pub open spec fn walk_item(s: WalkState, k: nat) -> Option<u64> {
    walk_next(walk_run(s, k)).1
}

/// The value behind a reference handed out by a walk.
pub open spec fn item_value(r: Option<&u64>) -> Option<u64> {
    match r {
        Some(e) => Some(*e),
        None => None,
    }
}

/// Everything a walk from `s` has yet to give, in order: the floor, the wall and the
/// stationary entities left, then the free entities.
pub open spec fn walk_all(s: WalkState) -> Seq<u64> {
    s.floor + s.wall + s.stationary + s.entities
}

/// The layer that step `k` of a walk from `s` takes its entity from; `Entity` past the
/// end.
pub open spec fn walk_layer_at(s: WalkState, k: int) -> Layer {
    if k < s.floor.len() {
        Layer::Floor
    } else if k < s.floor.len() + s.wall.len() {
        Layer::Wall
    } else if k < s.floor.len() + s.wall.len() + s.stationary.len() {
        Layer::Stationary
    } else {
        Layer::Entity
    }
}

spec fn clamp(x: int, hi: int) -> int {
    if x < 0 {
        0
    } else if x > hi {
        hi
    } else {
        x
    }
}

proof fn lemma_skip_drop_first(q: Seq<u64>, i: int)
    requires
        0 <= i < q.len(),
    ensures
        q.skip(i).drop_first() == q.skip(i + 1),
        q.skip(i)[0] == q[i],
{
    assert(q.skip(i).drop_first() =~= q.skip(i + 1));
}

proof fn lemma_walk_run_shape(s: WalkState, k: nat)
    ensures
        walk_run(s, k).floor == s.floor.skip(clamp(k as int, s.floor.len() as int)),
        walk_run(s, k).wall == s.wall.skip(clamp(k - s.floor.len(), s.wall.len() as int)),
        walk_run(s, k).stationary == s.stationary.skip(
            clamp(k - s.floor.len() - s.wall.len(), s.stationary.len() as int)),
        walk_run(s, k).entities == s.entities.skip(
            clamp(k - s.floor.len() - s.wall.len() - s.stationary.len(), s.entities.len() as int)),
        k > 0 ==> walk_run(s, k).layer == walk_layer_at(s, k - 1),
    decreases k,
{
    let f = s.floor.len() as int;
    let w = s.wall.len() as int;
    let st = s.stationary.len() as int;
    let e = s.entities.len() as int;
    if k == 0 {
        assert(s.floor.skip(0) =~= s.floor);
        assert(s.wall.skip(0) =~= s.wall);
        assert(s.stationary.skip(0) =~= s.stationary);
        assert(s.entities.skip(0) =~= s.entities);
    } else {
        let j = k - 1;
        lemma_walk_run_shape(s, j as nat);
        let t = walk_run(s, j as nat);
        if j < f {
            lemma_skip_drop_first(s.floor, j);
        } else if j < f + w {
            lemma_skip_drop_first(s.wall, j - f);
        } else if j < f + w + st {
            lemma_skip_drop_first(s.stationary, j - f - w);
        } else if j < f + w + st + e {
            lemma_skip_drop_first(s.entities, j - f - w - st);
        }
    }
}

/// Law: step `k` of a fresh walk gives the `k`-th entity of all its layers laid end to
/// end, and the walk then stands on the layer that entity came from; past the end every
/// step gives nothing and the walk stands on `Entity`. The layer never moves back.
pub proof fn lemma_walk_in_order(s: WalkState, k: nat)
    requires
        s.layer == Layer::Floor,
    ensures
        walk_item(s, k) == if k < walk_all(s).len() { Some(walk_all(s)[k as int]) } else { None },
        walk_run(s, k + 1).layer == walk_layer_at(s, k as int),
        layer_rank(walk_run(s, k).layer) <= layer_rank(walk_run(s, k + 1).layer),
{
    let f = s.floor.len() as int;
    let w = s.wall.len() as int;
    let st = s.stationary.len() as int;
    let e = s.entities.len() as int;
    lemma_walk_run_shape(s, k);
    lemma_walk_run_shape(s, k + 1);
    let all = walk_all(s);
    if k < f {
        lemma_skip_drop_first(s.floor, k as int);
        assert(all[k as int] == s.floor[k as int]);
    } else if k < f + w {
        lemma_skip_drop_first(s.wall, k - f);
        assert(all[k as int] == s.wall[k - f]);
    } else if k < f + w + st {
        lemma_skip_drop_first(s.stationary, k - f - w);
        assert(all[k as int] == s.stationary[k - f - w]);
    } else if k < f + w + st + e {
        lemma_skip_drop_first(s.entities, k - f - w - st);
        assert(all[k as int] == s.entities[k - f - w - st]);
    }
}

/// The positions of `t` list each of its tiles once.
pub open spec fn lists_tiles(t: TileMap) -> bool {
    &&& t.positions().no_duplicates()
    &&& forall|p: (i32, i32)| #[trigger] t@.contains_key(p) <==> t.positions().contains(p)
}

/// Law: a full walk over a map gives, for each floor tile in the order the tiles were
/// first placed, the entity on it, then likewise for each wall tile and each stationary
/// tile, then the free entities in order; each tile of a layer is listed once. After
/// each step the walk stands on the layer the entity came from, and it never moves back.
/// After the last entity every step gives nothing and the walk stands on `Entity`.
pub proof fn lemma_map_walk(m: WorldMap, k: nat)
    requires
        m.wf(),
    ensures
        lists_tiles(m.floor),
        lists_tiles(m.wall),
        lists_tiles(m.stationary_objects),
        ({
            let s = walk_start(m);
            let f = m.floor.positions().len();
            let w = m.wall.positions().len();
            let st = m.stationary_objects.positions().len();
            let e = m.entities@.len();
            &&& k < f ==> walk_item(s, k) == Some(m.floor@[m.floor.positions()[k as int]])
                && walk_run(s, k + 1).layer == Layer::Floor
            &&& f <= k < f + w ==> walk_item(s, k) == Some(m.wall@[m.wall.positions()[k - f]])
                && walk_run(s, k + 1).layer == Layer::Wall
            &&& f + w <= k < f + w + st ==> walk_item(s, k) == Some(
                m.stationary_objects@[m.stationary_objects.positions()[k - f - w]])
                && walk_run(s, k + 1).layer == Layer::Stationary
            &&& f + w + st <= k < f + w + st + e ==> walk_item(s, k) == Some(m.entities@[k - f - w - st])
                && walk_run(s, k + 1).layer == Layer::Entity
            &&& f + w + st + e <= k ==> walk_item(s, k) is None && walk_run(s, k + 1).layer == Layer::Entity
            &&& layer_rank(walk_run(s, k).layer) <= layer_rank(walk_run(s, k + 1).layer)
        }),
{
    lemma_tile_contents(m.floor);
    lemma_tile_contents(m.wall);
    lemma_tile_contents(m.stationary_objects);
    let s = walk_start(m);
    lemma_walk_in_order(s, k);
    let f = m.floor.positions().len() as int;
    let w = m.wall.positions().len() as int;
    let st = m.stationary_objects.positions().len() as int;
    let all = walk_all(s);
    if k < f {
        assert(all[k as int] == m.floor.ents()[k as int]);
    } else if k < f + w {
        assert(all[k as int] == m.wall.ents()[k - f]);
    } else if k < f + w + st {
        assert(all[k as int] == m.stationary_objects.ents()[k - f - w]);
    } else if k < f + w + st + m.entities@.len() {
        assert(all[k as int] == m.entities@[k - f - w - st]);
    }
}

/// A walk over the entities of a map, taken by value: all floor entities, then wall,
/// then stationary objects, then free entities. The walk stays on a layer until a step
/// finds it empty.
pub struct MapIterator {
    floor: Vec<u64>,
    wall: Vec<u64>,
    stationary: Vec<u64>,
    entities: Vec<u64>,
    floor_pos: usize,
    wall_pos: usize,
    stationary_pos: usize,
    entities_pos: usize,
    current_layer: Layer,
}

impl MapIterator {
    #[verifier::type_invariant]
    spec fn well_formed(&self) -> bool {
        &&& self.floor_pos <= self.floor@.len()
        &&& self.wall_pos <= self.wall@.len()
        &&& self.stationary_pos <= self.stationary@.len()
        &&& self.entities_pos <= self.entities@.len()
        &&& layer_rank(self.current_layer) > 0 ==> self.floor_pos == self.floor@.len()
        &&& layer_rank(self.current_layer) > 1 ==> self.wall_pos == self.wall@.len()
        &&& layer_rank(self.current_layer) > 2 ==> self.stationary_pos == self.stationary@.len()
    }

    /// What is left of the floor layer.
    pub closed spec fn floor_left(&self) -> Seq<u64> {
        self.floor@.skip(self.floor_pos as int)
    }

    /// What is left of the wall layer.
    pub closed spec fn wall_left(&self) -> Seq<u64> {
        self.wall@.skip(self.wall_pos as int)
    }

    /// What is left of the stationary layer.
    pub closed spec fn stationary_left(&self) -> Seq<u64> {
        self.stationary@.skip(self.stationary_pos as int)
    }

    /// What is left of the free entities.
    pub closed spec fn entities_left(&self) -> Seq<u64> {
        self.entities@.skip(self.entities_pos as int)
    }

    /// The entities the walk has yet to give, in order.
    pub open spec fn remaining(&self) -> Seq<u64> {
        self.floor_left() + self.wall_left() + self.stationary_left() + self.entities_left()
    }

    /// The layer the walk stands on.
    pub closed spec fn current_layer_spec(&self) -> Layer {
        self.current_layer
    }

    /// The layer the next entity comes from.
    pub open spec fn next_source(&self) -> Layer {
        source_layer(self.floor_left().len(), self.wall_left().len(), self.stationary_left().len())
    }

    /// Where the walk stands.
    pub open spec fn walk_state(&self) -> WalkState {
        WalkState {
            floor: self.floor_left(),
            wall: self.wall_left(),
            stationary: self.stationary_left(),
            entities: self.entities_left(),
            layer: self.current_layer_spec(),
        }
    }

    /// Starts a walk over `map`.
    pub fn new(map: WorldMap) -> (it: MapIterator)
        ensures
            it.walk_state() == walk_start(map),
            it.remaining() == map.all_entities(),
            it.current_layer_spec() == Layer::Floor,
    {
        let it = MapIterator {
            floor: map.floor.into_ents(),
            wall: map.wall.into_ents(),
            stationary: map.stationary_objects.into_ents(),
            entities: map.entities,
            floor_pos: 0,
            wall_pos: 0,
            stationary_pos: 0,
            entities_pos: 0,
            current_layer: Layer::Floor,
        };
        proof {
            assert(it.floor@.skip(0) =~= it.floor@);
            assert(it.wall@.skip(0) =~= it.wall@);
            assert(it.stationary@.skip(0) =~= it.stationary@);
            assert(it.entities@.skip(0) =~= it.entities@);
        }
        it
    }

    /// Pairs each later entity with the layer the walk stood on before the step.
    pub fn with_layer(self) -> (it: MapLayerIterator)
        ensures
            it.inner_iter() == self,
    {
        MapLayerIterator { inner: self }
    }

    /// The layer the walk stands on.
    pub fn current_layer(&self) -> (l: Layer)
        ensures
            l == self.current_layer_spec(),
    {
        self.current_layer
    }

    /// Gives the next entity, moving on to later layers as earlier ones run out; `None`
    /// once every layer is used up.
    pub fn next(&mut self) -> (r: Option<u64>)
        ensures
            (final(self).walk_state(), r) == walk_next(old(self).walk_state()),
            old(self).remaining().len() == 0 ==> {
                &&& r is None
                &&& final(self).remaining().len() == 0
                &&& final(self).current_layer_spec() == Layer::Entity
            },
            old(self).remaining().len() > 0 ==> {
                &&& r == Some(old(self).remaining()[0])
                &&& final(self).remaining() == old(self).remaining().drop_first()
                &&& final(self).current_layer_spec() == old(self).next_source()
            },
            layer_rank(old(self).current_layer_spec()) <= layer_rank(old(self).next_source()),
    {
        proof {
            use_type_invariant(&*self);
        }
        loop
            invariant
                self.remaining() == old(self).remaining(),
                self.next_source() == old(self).next_source(),
                layer_rank(self.current_layer) <= layer_rank(old(self).next_source()),
                layer_rank(old(self).current_layer_spec()) <= layer_rank(old(self).next_source()),
                self.floor_left() == old(self).floor_left(),
                self.wall_left() == old(self).wall_left(),
                self.stationary_left() == old(self).stationary_left(),
                self.entities_left() == old(self).entities_left(),
            decreases 3 - layer_rank(self.current_layer),
        {
            proof {
                use_type_invariant(&*self);
            }
            match self.current_layer {
                Layer::Floor => {
                    if self.floor_pos < self.floor.len() {
                        let e = self.floor[self.floor_pos];
                        proof {
                            lemma_skip_step(self.floor@, self.floor_pos as int);
                        }
                        self.floor_pos = self.floor_pos + 1;
                        proof {
                            lemma_concat4_drop_first(old(self).floor_left(), old(self).wall_left(), old(self).stationary_left(), old(self).entities_left());
                        }
                        return Some(e);
                    } else {
                        self.current_layer = Layer::Wall;
                    }
                },
                Layer::Wall => {
                    if self.wall_pos < self.wall.len() {
                        let e = self.wall[self.wall_pos];
                        proof {
                            lemma_skip_step(self.wall@, self.wall_pos as int);
                        }
                        self.wall_pos = self.wall_pos + 1;
                        proof {
                            lemma_concat4_drop_first(old(self).floor_left(), old(self).wall_left(), old(self).stationary_left(), old(self).entities_left());
                        }
                        return Some(e);
                    } else {
                        self.current_layer = Layer::Stationary;
                    }
                },
                Layer::Stationary => {
                    if self.stationary_pos < self.stationary.len() {
                        let e = self.stationary[self.stationary_pos];
                        proof {
                            lemma_skip_step(self.stationary@, self.stationary_pos as int);
                        }
                        self.stationary_pos = self.stationary_pos + 1;
                        proof {
                            lemma_concat4_drop_first(old(self).floor_left(), old(self).wall_left(), old(self).stationary_left(), old(self).entities_left());
                        }
                        return Some(e);
                    } else {
                        self.current_layer = Layer::Entity;
                    }
                },
                Layer::Entity => {
                    if self.entities_pos < self.entities.len() {
                        let e = self.entities[self.entities_pos];
                        proof {
                            lemma_skip_step(self.entities@, self.entities_pos as int);
                        }
                        self.entities_pos = self.entities_pos + 1;
                        proof {
                            lemma_concat4_drop_first(old(self).floor_left(), old(self).wall_left(), old(self).stationary_left(), old(self).entities_left());
                        }
                        return Some(e);
                    } else {
                        return None;
                    }
                },
            }
        }
    }
}

/// A walk over the entities of a map that gives each entity with the layer the walk
/// stood on before the step.
pub struct MapLayerIterator {
    inner: MapIterator,
}

impl MapLayerIterator {
    /// The underlying walk.
    pub closed spec fn inner_iter(&self) -> MapIterator {
        self.inner
    }

    /// Gives the next entity with the layer the walk stood on before this step.
    pub fn next(&mut self) -> (r: Option<(Layer, u64)>)
        ensures
            final(self).inner_iter().walk_state() == walk_next(old(self).inner_iter().walk_state()).0,
            old(self).inner_iter().remaining().len() == 0 ==> r is None,
            old(self).inner_iter().remaining().len() > 0 ==> r == Some(
                (old(self).inner_iter().current_layer_spec(), old(self).inner_iter().remaining()[0]),
            ),
            final(self).inner_iter().remaining() == if old(self).inner_iter().remaining().len() > 0 {
                old(self).inner_iter().remaining().drop_first()
            } else {
                old(self).inner_iter().remaining()
            },
            old(self).inner_iter().remaining().len() > 0 ==> final(self).inner_iter().current_layer_spec()
                == old(self).inner_iter().next_source(),
            old(self).inner_iter().remaining().len() == 0 ==> final(self).inner_iter().current_layer_spec()
                == Layer::Entity,
            layer_rank(old(self).inner_iter().current_layer_spec()) <= layer_rank(old(self).inner_iter().next_source()),
    {
        let layer = self.inner.current_layer();
        match self.inner.next() {
            Some(entity) => Some((layer, entity)),
            None => None,
        }
    }
}

proof fn lemma_skip_step(s: Seq<u64>, i: int)
    requires
        0 <= i < s.len(),
    ensures
        s.skip(i)[0] == s[i],
        s.skip(i + 1) == s.skip(i).drop_first(),
{
    assert(s.skip(i + 1) =~= s.skip(i).drop_first());
}

proof fn lemma_concat4_drop_first(a: Seq<u64>, b: Seq<u64>, c: Seq<u64>, d: Seq<u64>)
    ensures
        a.len() > 0 ==> (a + b + c + d).drop_first() == a.drop_first() + b + c + d && (a + b + c + d)[0] == a[0],
        a.len() == 0 && b.len() > 0 ==> (a + b + c + d).drop_first() == b.drop_first() + c + d && (a + b + c + d)[0] == b[0],
        a.len() == 0 && b.len() == 0 && c.len() > 0 ==> (a + b + c + d).drop_first() == c.drop_first() + d && (a + b + c + d)[0] == c[0],
        a.len() == 0 && b.len() == 0 && c.len() == 0 && d.len() > 0 ==> (a + b + c + d).drop_first() == d.drop_first() && (a + b + c + d)[0] == d[0],
{
    if a.len() > 0 {
        assert((a + b + c + d).drop_first() =~= a.drop_first() + b + c + d);
    } else if b.len() > 0 {
        assert((a + b + c + d).drop_first() =~= b.drop_first() + c + d);
    } else if c.len() > 0 {
        assert((a + b + c + d).drop_first() =~= c.drop_first() + d);
    } else if d.len() > 0 {
        assert((a + b + c + d).drop_first() =~= d.drop_first());
    }
}

/// A walk over the entities of a map, by reference: all floor entities, then wall, then
/// stationary objects, then free entities. The walk stays on a layer until a step finds
/// it empty.
pub struct MapRefIterator<'a> {
    map: &'a WorldMap,
    floor_pos: usize,
    wall_pos: usize,
    stationary_pos: usize,
    entities_pos: usize,
    current_layer: Layer,
}

impl<'a> MapRefIterator<'a> {
    #[verifier::type_invariant]
    spec fn well_formed(&self) -> bool {
        &&& self.floor_pos <= self.map.floor.ents@.len()
        &&& self.wall_pos <= self.map.wall.ents@.len()
        &&& self.stationary_pos <= self.map.stationary_objects.ents@.len()
        &&& self.entities_pos <= self.map.entities@.len()
        &&& layer_rank(self.current_layer) > 0 ==> self.floor_pos == self.map.floor.ents@.len()
        &&& layer_rank(self.current_layer) > 1 ==> self.wall_pos == self.map.wall.ents@.len()
        &&& layer_rank(self.current_layer) > 2 ==> self.stationary_pos == self.map.stationary_objects.ents@.len()
    }

    /// What is left of the floor layer.
    pub closed spec fn floor_left(&self) -> Seq<u64> {
        self.map.floor.ents@.skip(self.floor_pos as int)
    }

    /// What is left of the wall layer.
    pub closed spec fn wall_left(&self) -> Seq<u64> {
        self.map.wall.ents@.skip(self.wall_pos as int)
    }

    /// What is left of the stationary layer.
    pub closed spec fn stationary_left(&self) -> Seq<u64> {
        self.map.stationary_objects.ents@.skip(self.stationary_pos as int)
    }

    /// What is left of the free entities.
    pub closed spec fn entities_left(&self) -> Seq<u64> {
        self.map.entities@.skip(self.entities_pos as int)
    }

    /// The entities the walk has yet to give, in order.
    pub open spec fn remaining(&self) -> Seq<u64> {
        self.floor_left() + self.wall_left() + self.stationary_left() + self.entities_left()
    }

    /// The layer the walk stands on.
    pub closed spec fn current_layer_spec(&self) -> Layer {
        self.current_layer
    }

    /// The layer the next entity comes from.
    pub open spec fn next_source(&self) -> Layer {
        source_layer(self.floor_left().len(), self.wall_left().len(), self.stationary_left().len())
    }

    /// Where the walk stands.
    pub open spec fn walk_state(&self) -> WalkState {
        WalkState {
            floor: self.floor_left(),
            wall: self.wall_left(),
            stationary: self.stationary_left(),
            entities: self.entities_left(),
            layer: self.current_layer_spec(),
        }
    }

    /// Starts a walk over `map`.
    pub fn new(map: &'a WorldMap) -> (it: MapRefIterator<'a>)
        ensures
            it.walk_state() == walk_start(*map),
            it.remaining() == map.all_entities(),
            it.current_layer_spec() == Layer::Floor,
    {
        let it = MapRefIterator { map, floor_pos: 0, wall_pos: 0, stationary_pos: 0, entities_pos: 0, current_layer: Layer::Floor };
        proof {
            assert(map.floor.ents@.skip(0) =~= map.floor.ents@);
            assert(map.wall.ents@.skip(0) =~= map.wall.ents@);
            assert(map.stationary_objects.ents@.skip(0) =~= map.stationary_objects.ents@);
            assert(map.entities@.skip(0) =~= map.entities@);
        }
        it
    }

    /// Pairs each later entity with the layer the walk stood on before the step.
    pub fn with_layer(self) -> (it: MapLayerRefIterator<'a>)
        ensures
            it.inner_iter() == self,
    {
        MapLayerRefIterator { inner: self }
    }

    /// The layer the walk stands on.
    pub fn current_layer(&self) -> (l: Layer)
        ensures
            l == self.current_layer_spec(),
    {
        self.current_layer
    }

    /// Gives the next entity, moving on to later layers as earlier ones run out; `None`
    /// once every layer is used up.
    pub fn next(&mut self) -> (r: Option<&'a u64>)
        ensures
            (final(self).walk_state(), item_value(r)) == walk_next(old(self).walk_state()),
            old(self).remaining().len() == 0 ==> {
                &&& r is None
                &&& final(self).remaining().len() == 0
                &&& final(self).current_layer_spec() == Layer::Entity
            },
            old(self).remaining().len() > 0 ==> {
                &&& r is Some && *r.unwrap() == old(self).remaining()[0]
                &&& final(self).remaining() == old(self).remaining().drop_first()
                &&& final(self).current_layer_spec() == old(self).next_source()
            },
            layer_rank(old(self).current_layer_spec()) <= layer_rank(old(self).next_source()),
    {
        proof {
            use_type_invariant(&*self);
        }
        let map: &'a WorldMap = self.map;
        loop
            invariant
                self.map == map,
                self.remaining() == old(self).remaining(),
                self.next_source() == old(self).next_source(),
                layer_rank(self.current_layer) <= layer_rank(old(self).next_source()),
                layer_rank(old(self).current_layer_spec()) <= layer_rank(old(self).next_source()),
                self.floor_left() == old(self).floor_left(),
                self.wall_left() == old(self).wall_left(),
                self.stationary_left() == old(self).stationary_left(),
                self.entities_left() == old(self).entities_left(),
            decreases 3 - layer_rank(self.current_layer),
        {
            proof {
                use_type_invariant(&*self);
            }
            match self.current_layer {
                Layer::Floor => {
                    if self.floor_pos < map.floor.ents.len() {
                        let e: &'a u64 = &map.floor.ents[self.floor_pos];
                        proof {
                            lemma_skip_step(map.floor.ents@, self.floor_pos as int);
                        }
                        self.floor_pos = self.floor_pos + 1;
                        proof {
                            lemma_concat4_drop_first(old(self).floor_left(), old(self).wall_left(), old(self).stationary_left(), old(self).entities_left());
                        }
                        return Some(e);
                    } else {
                        self.current_layer = Layer::Wall;
                    }
                },
                Layer::Wall => {
                    if self.wall_pos < map.wall.ents.len() {
                        let e: &'a u64 = &map.wall.ents[self.wall_pos];
                        proof {
                            lemma_skip_step(map.wall.ents@, self.wall_pos as int);
                        }
                        self.wall_pos = self.wall_pos + 1;
                        proof {
                            lemma_concat4_drop_first(old(self).floor_left(), old(self).wall_left(), old(self).stationary_left(), old(self).entities_left());
                        }
                        return Some(e);
                    } else {
                        self.current_layer = Layer::Stationary;
                    }
                },
                Layer::Stationary => {
                    if self.stationary_pos < map.stationary_objects.ents.len() {
                        let e: &'a u64 = &map.stationary_objects.ents[self.stationary_pos];
                        proof {
                            lemma_skip_step(map.stationary_objects.ents@, self.stationary_pos as int);
                        }
                        self.stationary_pos = self.stationary_pos + 1;
                        proof {
                            lemma_concat4_drop_first(old(self).floor_left(), old(self).wall_left(), old(self).stationary_left(), old(self).entities_left());
                        }
                        return Some(e);
                    } else {
                        self.current_layer = Layer::Entity;
                    }
                },
                Layer::Entity => {
                    if self.entities_pos < map.entities.len() {
                        let e: &'a u64 = &map.entities[self.entities_pos];
                        proof {
                            lemma_skip_step(map.entities@, self.entities_pos as int);
                        }
                        self.entities_pos = self.entities_pos + 1;
                        proof {
                            lemma_concat4_drop_first(old(self).floor_left(), old(self).wall_left(), old(self).stationary_left(), old(self).entities_left());
                        }
                        return Some(e);
                    } else {
                        return None;
                    }
                },
            }
        }
    }
}

/// A walk over the entities of a map, by reference, that gives each entity with the
/// layer the walk stood on before the step.
pub struct MapLayerRefIterator<'a> {
    inner: MapRefIterator<'a>,
}

impl<'a> MapLayerRefIterator<'a> {
    /// The underlying walk.
    pub closed spec fn inner_iter(&self) -> MapRefIterator<'a> {
        self.inner
    }

    /// Starts a walk over `map`.
    pub fn new(map: &'a WorldMap) -> (it: MapLayerRefIterator<'a>)
        ensures
            it.inner_iter().walk_state() == walk_start(*map),
            it.inner_iter().remaining() == map.all_entities(),
            it.inner_iter().current_layer_spec() == Layer::Floor,
    {
        MapLayerRefIterator { inner: MapRefIterator::new(map) }
    }

    /// Gives the next entity with the layer the walk stood on before this step.
    pub fn next(&mut self) -> (r: Option<(Layer, &'a u64)>)
        ensures
            final(self).inner_iter().walk_state() == walk_next(old(self).inner_iter().walk_state()).0,
            old(self).inner_iter().remaining().len() == 0 ==> r is None,
            old(self).inner_iter().remaining().len() > 0 ==> r is Some
                && r.unwrap().0 == old(self).inner_iter().current_layer_spec()
                && *r.unwrap().1 == old(self).inner_iter().remaining()[0],
            final(self).inner_iter().remaining() == if old(self).inner_iter().remaining().len() > 0 {
                old(self).inner_iter().remaining().drop_first()
            } else {
                old(self).inner_iter().remaining()
            },
            old(self).inner_iter().remaining().len() > 0 ==> final(self).inner_iter().current_layer_spec()
                == old(self).inner_iter().next_source(),
            old(self).inner_iter().remaining().len() == 0 ==> final(self).inner_iter().current_layer_spec()
                == Layer::Entity,
            layer_rank(old(self).inner_iter().current_layer_spec()) <= layer_rank(old(self).inner_iter().next_source()),
    {
        let layer = self.inner.current_layer();
        match self.inner.next() {
            Some(entity) => Some((layer, entity)),
            None => None,
        }
    }
}

/// A tile of the temporary map: where it lies and on which layer.
#[derive(Clone, Copy, Debug)]
pub struct MapTile {
    pub coords: (i32, i32),
    pub layer: Layer,
}

/// Tile `k` of the temporary map, a five-by-five square of 64-unit tiles walked row by
/// row: row `k / 5`, column `k % 5`. Tiles in the first row or the first column are wall,
/// the others floor.
pub open spec fn tmp_tile(k: int) -> MapTile {
    let i = k / 5;
    let j = k % 5;
    MapTile {
        coords: ((i * 64) as i32, (j * 64) as i32),
        layer: if j == 0 || i == 0 || i == 5 || j == 5 { Layer::Wall } else { Layer::Floor },
    }
}

/// The number of tiles of the temporary map.
pub const TMP_MAP_TILES: usize = 25;

/// The tiles of the temporary map, in the order they are placed.
pub fn tmp_map_tiles() -> (tiles: Vec<MapTile>)
    ensures
        tiles@.len() == TMP_MAP_TILES,
        forall|k: int| 0 <= k < TMP_MAP_TILES ==> #[trigger] tiles@[k] == tmp_tile(k),
{
    let mut tiles: Vec<MapTile> = Vec::new();
    let mut k: usize = 0;
    while k < TMP_MAP_TILES
        invariant
            0 <= k <= TMP_MAP_TILES,
            tiles@.len() == k,
            forall|m: int| 0 <= m < k ==> #[trigger] tiles@[m] == tmp_tile(m),
        decreases TMP_MAP_TILES - k,
    {
        let i: i32 = (k / 5) as i32;
        let j: i32 = (k % 5) as i32;
        let coords = (i * 64, j * 64);
        let layer = if j == 0 || i == 0 || i == 5 || j == 5 { Layer::Wall } else { Layer::Floor };
        tiles.push(MapTile { coords, layer });
        k = k + 1;
    }
    tiles
}

/// A tile layer after the tiles `0 .. n` of the temporary map that belong to `layer` were
/// placed on it, tile `k` holding `spawned[k]`.
pub open spec fn with_tmp_tiles(before: Map<(i32, i32), u64>, layer: Layer, spawned: Seq<u64>, n: nat) -> Map<(i32, i32), u64>
    decreases n,
{
    if n == 0 {
        before
    } else {
        let placed = with_tmp_tiles(before, layer, spawned, (n - 1) as nat);
        let t = tmp_tile(n - 1);
        if t.layer == layer {
            placed.insert(t.coords, spawned[n - 1])
        } else {
            placed
        }
    }
}

/// The positions and entities of a layer, in order, after the tiles `0 .. n` of the
/// temporary map that belong to `layer` were put on it one after another, tile `k`
/// holding `spawned[k]`.
pub open spec fn tmp_tiles_placed(
    positions: Seq<(i32, i32)>,
    ents: Seq<u64>,
    layer: Layer,
    spawned: Seq<u64>,
    n: nat,
) -> (Seq<(i32, i32)>, Seq<u64>)
    decreases n,
{
    if n == 0 {
        (positions, ents)
    } else {
        let placed = tmp_tiles_placed(positions, ents, layer, spawned, (n - 1) as nat);
        let t = tmp_tile(n - 1);
        if t.layer == layer {
            place_tile(placed.0, placed.1, t.coords, spawned[n - 1])
        } else {
            placed
        }
    }
}

/// Lays out the temporary map: tile `k` of `tmp_map_tiles` goes to its layer with the
/// entity `spawned[k]` that was spawned for it.
pub fn load_map_tmp(map: &mut WorldMap, spawned: &Vec<u64>)
    requires
        old(map).wf(),
        spawned@.len() == TMP_MAP_TILES,
    ensures
        final(map).wf(),
        final(map).floor@ == with_tmp_tiles(old(map).floor@, Layer::Floor, spawned@, TMP_MAP_TILES as nat),
        final(map).wall@ == with_tmp_tiles(old(map).wall@, Layer::Wall, spawned@, TMP_MAP_TILES as nat),
        (final(map).floor.positions(), final(map).floor.ents()) == tmp_tiles_placed(
            old(map).floor.positions(), old(map).floor.ents(), Layer::Floor, spawned@, TMP_MAP_TILES as nat),
        (final(map).wall.positions(), final(map).wall.ents()) == tmp_tiles_placed(
            old(map).wall.positions(), old(map).wall.ents(), Layer::Wall, spawned@, TMP_MAP_TILES as nat),
        final(map).stationary_objects == old(map).stationary_objects,
        final(map).entities@ == old(map).entities@,
{
    let tiles = tmp_map_tiles();
    let mut k: usize = 0;
    while k < TMP_MAP_TILES
        invariant
            0 <= k <= TMP_MAP_TILES,
            tiles@.len() == TMP_MAP_TILES,
            spawned@.len() == TMP_MAP_TILES,
            forall|m: int| 0 <= m < TMP_MAP_TILES ==> #[trigger] tiles@[m] == tmp_tile(m),
            map.wf(),
            map.floor@ == with_tmp_tiles(old(map).floor@, Layer::Floor, spawned@, k as nat),
            map.wall@ == with_tmp_tiles(old(map).wall@, Layer::Wall, spawned@, k as nat),
            (map.floor.positions(), map.floor.ents()) == tmp_tiles_placed(
                old(map).floor.positions(), old(map).floor.ents(), Layer::Floor, spawned@, k as nat),
            (map.wall.positions(), map.wall.ents()) == tmp_tiles_placed(
                old(map).wall.positions(), old(map).wall.ents(), Layer::Wall, spawned@, k as nat),
            map.stationary_objects == old(map).stationary_objects,
            map.entities@ == old(map).entities@,
        decreases TMP_MAP_TILES - k,
    {
        let tile = tiles[k];
        let ent = spawned[k];
        assert(tile == tmp_tile(k as int));
        match tile.layer {
            Layer::Wall => {
                let _ = map.wall.insert(tile.coords, ent);
            },
            _ => {
                let _ = map.floor.insert(tile.coords, ent);
            },
        }
        proof {
            assert(tmp_tile(k as int).layer == Layer::Wall || tmp_tile(k as int).layer == Layer::Floor);
        }
        k = k + 1;
    }
}

/// Law: the temporary map has 25 tiles at 25 distinct positions, so placing it puts
/// every spawned entity at its tile's position on its tile's layer; the tiles of the
/// first row and the first column are wall and the others floor.
pub proof fn lemma_tmp_map_places_every_tile(before: Map<(i32, i32), u64>, layer: Layer, spawned: Seq<u64>, k: int)
    requires
        0 <= k < TMP_MAP_TILES,
        tmp_tile(k).layer == layer,
    ensures
        with_tmp_tiles(before, layer, spawned, TMP_MAP_TILES as nat).contains_key(tmp_tile(k).coords),
        with_tmp_tiles(before, layer, spawned, TMP_MAP_TILES as nat)[tmp_tile(k).coords] == spawned[k],
        tmp_tile(k).layer == Layer::Wall <==> (k / 5 == 0 || k % 5 == 0),
{
    lemma_placed_stays(before, layer, spawned, k, TMP_MAP_TILES as nat);
}

/// Law: the temporary map is a five-by-five square of 64-unit tiles laid row by row:
/// tile `5a + b` lies at `(64a, 64b)`, so the next tile in a row lies 64 further along
/// the second axis and the same tile of the next row 64 further along the first, and
/// every tile lies within `0 ..= 256` on both axes. A tile is wall exactly when it is in
/// the first row or the first column.
pub proof fn lemma_tmp_tiles_grid(a: int, b: int)
    requires
        0 <= a < 5,
        0 <= b < 5,
    ensures
        tmp_tile(5 * a + b).coords.0 == 64 * a,
        tmp_tile(5 * a + b).coords.1 == 64 * b,
        b < 4 ==> tmp_tile(5 * a + b + 1).coords.0 == tmp_tile(5 * a + b).coords.0
            && tmp_tile(5 * a + b + 1).coords.1 == tmp_tile(5 * a + b).coords.1 + 64,
        a < 4 ==> tmp_tile(5 * (a + 1) + b).coords.0 == tmp_tile(5 * a + b).coords.0 + 64
            && tmp_tile(5 * (a + 1) + b).coords.1 == tmp_tile(5 * a + b).coords.1,
        0 <= tmp_tile(5 * a + b).coords.0 <= 256,
        0 <= tmp_tile(5 * a + b).coords.1 <= 256,
        tmp_tile(5 * a + b).layer == (if a == 0 || b == 0 { Layer::Wall } else { Layer::Floor }),
{
    vstd::arithmetic::div_mod::lemma_fundamental_div_mod_converse(5 * a + b, 5, a, b);
    if b < 4 {
        vstd::arithmetic::div_mod::lemma_fundamental_div_mod_converse(5 * a + b + 1, 5, a, b + 1);
    }
    if a < 4 {
        vstd::arithmetic::div_mod::lemma_fundamental_div_mod_converse(5 * (a + 1) + b, 5, a + 1, b);
    }
}

proof fn lemma_tmp_coords_distinct(a: int, b: int)
    requires
        0 <= a < TMP_MAP_TILES,
        0 <= b < TMP_MAP_TILES,
        a != b,
    ensures
        tmp_tile(a).coords != tmp_tile(b).coords,
{
    vstd::arithmetic::div_mod::lemma_fundamental_div_mod(a, 5);
    vstd::arithmetic::div_mod::lemma_fundamental_div_mod(b, 5);
    assert(0 <= a / 5 < 5 && 0 <= b / 5 < 5) by {
        vstd::arithmetic::div_mod::lemma_div_pos_is_pos(a, 5);
        vstd::arithmetic::div_mod::lemma_div_pos_is_pos(b, 5);
        vstd::arithmetic::div_mod::lemma_div_is_ordered(a, 24, 5);
        vstd::arithmetic::div_mod::lemma_div_is_ordered(b, 24, 5);
    }
    if a / 5 == b / 5 {
        assert(a % 5 != b % 5);
    }
}

proof fn lemma_placed_stays(before: Map<(i32, i32), u64>, layer: Layer, spawned: Seq<u64>, k: int, n: nat)
    requires
        0 <= k < n <= TMP_MAP_TILES,
        tmp_tile(k).layer == layer,
    ensures
        with_tmp_tiles(before, layer, spawned, n).contains_key(tmp_tile(k).coords),
        with_tmp_tiles(before, layer, spawned, n)[tmp_tile(k).coords] == spawned[k],
    decreases n,
{
    if k < n - 1 {
        lemma_placed_stays(before, layer, spawned, k, (n - 1) as nat);
        lemma_tmp_coords_distinct(k, n - 1);
    }
}

} // verus!
