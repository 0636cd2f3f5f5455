//! The entity registry and the set of entities marked for removal.

use vstd::prelude::*;
use std::collections::HashMap;
use crate::game_lib::{GameObjConfig, GameObjSide, GameObjType};
use crate::game_map::MapPos;
use crate::mytypes::{valid_body_pos, valid_direction, valid_span, valid_unit, Vec2};

verus! {

/// The simulation state of one entity.
#[derive(Clone, Copy, Debug)]
pub struct GameObjInfo {
    pub config_index: usize,
    pub pos: Vec2,
    pub map_pos: MapPos,
    pub direction: Vec2,
    pub side: GameObjSide,
    pub obj_type: GameObjType,
    pub collide_span: i64,
    pub speed: i64,
    pub hp: Option<u32>,
}

impl GameObjInfo {
    /// The state holds numbers the engine can compute with.
    pub open spec fn valid(self) -> bool {
        &&& valid_body_pos(self.pos)
        &&& valid_direction(self.direction)
        &&& valid_span(self.collide_span)
        &&& valid_unit(self.speed)
    }

    /// The body stops blocking movers and is hit by projectiles.
    pub open spec fn is_obstacle(self) -> bool {
        self.obj_type.is_solid_spec() && self.collide_span != 0
    }

    /// The state of a new entity of the type `obj_config`, standing at `pos`
    /// in the cell `map_pos` and heading along `direction`.
    pub fn new(
        config_index: usize,
        pos: &Vec2,
        map_pos: &MapPos,
        direction: &Vec2,
        obj_config: &GameObjConfig,
    ) -> (obj: GameObjInfo)
        ensures
            obj == (GameObjInfo {
                config_index,
                pos: *pos,
                map_pos: *map_pos,
                direction: *direction,
                side: obj_config.side,
                obj_type: obj_config.obj_type,
                collide_span: obj_config.collide_span,
                speed: obj_config.speed,
                hp: obj_config.max_hp,
            }),
    {
        GameObjInfo {
            config_index,
            pos: *pos,
            map_pos: *map_pos,
            direction: *direction,
            side: obj_config.side,
            obj_type: obj_config.obj_type,
            collide_span: obj_config.collide_span,
            speed: obj_config.speed,
            hp: obj_config.max_hp,
        }
    }
}

/// What is kept of an entity marked dead: the cell it stood in when it was
/// marked, and whether it fades out before it is taken away or goes at once.
#[derive(Clone, Copy, Debug)]
pub struct DeadGameObjInfo {
    pub map_pos: MapPos,
    pub is_phasing: bool,
}

/// The registry: the state of every entity, by identifier.
#[derive(Debug)]
pub struct GameObjInfoLib(pub HashMap<u64, GameObjInfo>);

impl View for GameObjInfoLib {
    type V = Map<u64, GameObjInfo>;

    open spec fn view(&self) -> Map<u64, GameObjInfo> {
        self.0@
    }
}

impl GameObjInfoLib {
    pub fn new() -> (lib: GameObjInfoLib)
        ensures
            lib@ == Map::<u64, GameObjInfo>::empty(),
    {
        GameObjInfoLib(HashMap::new())
    }

    /// The state of `entity`, if it is registered.
    pub fn get(&self, entity: u64) -> (obj: Option<GameObjInfo>)
        ensures
            obj == if self@.contains_key(entity) {
                Some(self@[entity])
            } else {
                None
            },
    {
        broadcast use vstd::std_specs::hash::group_hash_axioms;

        match self.0.get(&entity) {
            Some(obj) => Some(*obj),
            None => None,
        }
    }

    /// Whether `entity` is registered.
    pub fn contains(&self, entity: u64) -> (b: bool)
        ensures
            b == self@.contains_key(entity),
    {
        broadcast use vstd::std_specs::hash::group_hash_axioms;

        self.0.contains_key(&entity)
    }

    /// Number of registered entities.
    pub fn len(&self) -> (n: usize)
        ensures
            n == self@.len(),
    {
        broadcast use vstd::std_specs::hash::group_hash_axioms;

        self.0.len()
    }
}

/// The despawn set: the entities marked dead in the current tick, each
/// with what was recorded of it. A marked entity counts as absent for every
/// query, though it keeps its cell and its registry entry until the tick's
/// cleanup. Marks are only added; they leave together, when the set is
/// drained.
#[derive(Debug)]
pub struct DespawnPool {
    marked: HashMap<u64, DeadGameObjInfo>,
    pending: Vec<u64>,
}

impl View for DespawnPool {
    type V = Map<u64, DeadGameObjInfo>;

    closed spec fn view(&self) -> Map<u64, DeadGameObjInfo> {
        self.marked@
    }
}

impl DespawnPool {
    /// The marked entities in the order in which they were marked.
    pub closed spec fn order(&self) -> Seq<u64> {
        self.pending@
    }

    /// Every marked entity stands in the order of marks exactly once.
    pub open spec fn wf(&self) -> bool {
        &&& self.order().no_duplicates()
        &&& self.order().to_set() == self@.dom()
    }

    pub fn new() -> (pool: DespawnPool)
        ensures
            pool.wf(),
            pool@ == Map::<u64, DeadGameObjInfo>::empty(),
            pool.order() == Seq::<u64>::empty(),
    {
        let pool = DespawnPool { marked: HashMap::new(), pending: Vec::new() };
        assert(pool.order().to_set() =~= pool@.dom());
        pool
    }

    /// Whether `entity` is marked dead.
    pub fn contains(&self, entity: u64) -> (b: bool)
        ensures
            b == self@.contains_key(entity),
    {
        broadcast use vstd::std_specs::hash::group_hash_axioms;

        self.marked.contains_key(&entity)
    }

    /// What was recorded of `entity` when it was marked, if it is marked.
    pub fn get(&self, entity: u64) -> (info: Option<DeadGameObjInfo>)
        ensures
            info == if self@.contains_key(entity) {
                Some(self@[entity])
            } else {
                None
            },
    {
        broadcast use vstd::std_specs::hash::group_hash_axioms;

        match self.marked.get(&entity) {
            Some(info) => Some(*info),
            None => None,
        }
    }

    /// Number of marked entities.
    pub fn len(&self) -> (n: usize)
        requires
            self.wf(),
        ensures
            n == self@.dom().len(),
            n == self.order().len(),
    {
        proof {
            self.order().unique_seq_to_set();
        }
        self.pending.len()
    }

    /// Marks `entity` dead. An entity already marked keeps its first mark.
    /// Returns whether the entity was newly marked.
    pub fn insert(&mut self, entity: u64, info: DeadGameObjInfo) -> (fresh: bool)
        requires
            old(self).wf(),
        ensures
            final(self).wf(),
            fresh == !old(self)@.contains_key(entity),
            final(self)@ == if fresh {
                old(self)@.insert(entity, info)
            } else {
                old(self)@
            },
            final(self).order() == if fresh {
                old(self).order().push(entity)
            } else {
                old(self).order()
            },
    {
        broadcast use vstd::std_specs::hash::group_hash_axioms;

        if self.marked.contains_key(&entity) {
            return false;
        }
        self.marked.insert(entity, info);
        self.pending.push(entity);
        proof {
            let before = old(self).order();
            assert(!before.contains(entity)) by {
                if before.contains(entity) {
                    assert(before.to_set().contains(entity));
                }
            }
            assert(self.order().to_set() =~= self@.dom()) by {
                assert forall|e: u64| self.order().to_set().contains(e) <==> self@.dom().contains(
                    e,
                ) by {
                    if self.order().contains(e) {
                        let i = choose|i: int| 0 <= i < self.order().len() && self.order()[i] == e;
                        if i < before.len() {
                            assert(before[i] == e);
                            assert(before.to_set().contains(e));
                        }
                    }
                    if self@.dom().contains(e) {
                        if e == entity {
                            assert(self.order()[before.len() as int] == e);
                        } else {
                            assert(before.to_set().contains(e));
                            let i = choose|i: int| 0 <= i < before.len() && before[i] == e;
                            assert(self.order()[i] == e);
                        }
                    }
                }
            }
        }
        true
    }

    /// Takes every mark out and hands them back, oldest first: each marked
    /// entity once, with what was recorded of it.
    pub fn drain(&mut self) -> (taken: Vec<(u64, DeadGameObjInfo)>)
        requires
            old(self).wf(),
        ensures
            final(self).wf(),
            final(self)@ == Map::<u64, DeadGameObjInfo>::empty(),
            final(self).order() == Seq::<u64>::empty(),
            taken@.len() == old(self).order().len(),
            forall|i: int|
                0 <= i < taken@.len() ==> (#[trigger] taken@[i]).0 == old(self).order()[i]
                    && old(self)@.contains_key(taken@[i].0) && taken@[i].1 == old(self)@[taken@[i].0],
    {
        broadcast use vstd::std_specs::hash::group_hash_axioms;

        let mut taken: Vec<(u64, DeadGameObjInfo)> = Vec::new();
        let n = self.pending.len();
        let mut i: usize = 0;
        while i < n
            invariant
                self.wf(),
                *self == *old(self),
                n == self.pending@.len(),
                i <= n,
                taken@.len() == i,
                forall|k: int|
                    0 <= k < i ==> (#[trigger] taken@[k]).0 == self.order()[k]
                        && self@.contains_key(taken@[k].0) && taken@[k].1 == self@[taken@[k].0],
            decreases n - i,
        {
            let entity = self.pending[i];
            assert(self.order().to_set().contains(entity));
            match self.marked.get(&entity) {
                Some(info) => {
                    taken.push((entity, *info));
                },
                None => {
                    assert(false);
                },
            }
            i += 1;
        }
        self.marked.clear();
        self.pending.clear();
        assert(self.order().to_set() =~= self@.dom());
        taken
    }
}

} // verus!
