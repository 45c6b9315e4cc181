use vstd::prelude::*;

use crate::model::select::lemma_first_where;
use crate::model::state::{Beaver, Construction, EnemyPlantation, GameState, MeteoForecast, Plantation, Pos};
use crate::model::store::{IdMap, PosMap, PosSet};
use crate::planner::tasks::{Assignment, TaskKind, TurnPlan};
use crate::text::str_eq;

verus! {

/// What the bot keeps from turn to turn.
///
/// State-specific fields are wiped when our network respawns:
/// `birth_turn`, `our_construction_ever`, `construction_prev`, `our_prev_hp`,
/// `last_seen_enemy`, `last_seen_beaver`, `enemy_first_seen`. The others are
/// kept: `known_mountains`, `storm_history`, the counters, `last_submitted_turn`
/// and `last_main_id`.
#[derive(Debug)]
pub struct Memory {
    /// First turn on which each of our plantations was observed.
    pub birth_turn: IdMap<u32>,
    /// Every mountain ever seen (the server only reports those in vision).
    pub known_mountains: PosSet,
    /// id → (pos, hp, turn of the last sighting)
    pub last_seen_enemy: IdMap<(Pos, i32, u32)>,
    pub last_seen_beaver: IdMap<(Pos, i32, u32)>,
    /// Turn on which an enemy id was first seen (immunity heuristic).
    pub enemy_first_seen: IdMap<u32>,
    /// Progress of constructions on the previous turn.
    pub construction_prev: PosMap<(i32, u32)>,
    /// Our hp on the previous turn.
    pub our_prev_hp: IdMap<(i32, u32)>,
    /// Observed centers of each sandstorm.
    pub storm_history: IdMap<Vec<(u32, Pos)>>,
    pub sabotages_done: u32,
    pub beavers_killed: u32,
    pub mains_lost: u32,
    /// Guards against a second submission on the same turn.
    pub last_submitted_turn: Option<u32>,
    /// Cells where we ever started a construction: tells ours from the others'.
    pub our_construction_ever: PosSet,
    /// Id of the main plantation on the last turn that had one.
    pub last_main_id: Option<String>,
}

impl Default for Memory {
    fn default() -> (m: Self)
        ensures
            m.birth_turn@ == Map::<Seq<char>, u32>::empty(),
            m.known_mountains@ == Set::<Pos>::empty(),
            m.last_seen_enemy@ == Map::<Seq<char>, (Pos, i32, u32)>::empty(),
            m.last_seen_beaver@ == Map::<Seq<char>, (Pos, i32, u32)>::empty(),
            m.enemy_first_seen@ == Map::<Seq<char>, u32>::empty(),
            m.construction_prev@ == Map::<Pos, (i32, u32)>::empty(),
            m.our_prev_hp@ == Map::<Seq<char>, (i32, u32)>::empty(),
            m.storm_history@ == Map::<Seq<char>, Vec<(u32, Pos)>>::empty(),
            m.sabotages_done == 0,
            m.beavers_killed == 0,
            m.mains_lost == 0,
            m.last_submitted_turn is None,
            m.our_construction_ever@ == Set::<Pos>::empty(),
            m.last_main_id is None,
    {
        Memory {
            birth_turn: IdMap::new(),
            known_mountains: PosSet::new(),
            last_seen_enemy: IdMap::new(),
            last_seen_beaver: IdMap::new(),
            enemy_first_seen: IdMap::new(),
            construction_prev: PosMap::new(),
            our_prev_hp: IdMap::new(),
            storm_history: IdMap::new(),
            sabotages_done: 0,
            beavers_killed: 0,
            mains_lost: 0,
            last_submitted_turn: None,
            our_construction_ever: PosSet::new(),
            last_main_id: None,
        }
    }
}

/// The main plantation changed to an id we never saw among ours: the server
/// destroyed our network and spawned a fresh main. A relocation hands the
/// main role to a known neighbour, and the first sighting of a main is a
/// spawn; neither is a respawn.
pub open spec fn spec_is_respawn(mem: Memory, state: GameState) -> bool {
    match state.spec_main_idx() {
        Some(i) => match mem.last_main_id {
            Some(old) => state.plantations@[i].id@ != old@ && !mem.birth_turn@.dom().contains(state.plantations@[i].id@),
            None => false,
        },
        None => false,
    }
}

/// `mem` after a respawn: the state-specific fields are emptied, the lost
/// main is counted, the rest is kept.
pub open spec fn spec_after_respawn(old: Memory, new: Memory) -> bool {
    &&& new.mains_lost == old.mains_lost + 1
    &&& new.birth_turn@ == Map::<Seq<char>, u32>::empty()
    &&& new.our_construction_ever@ == Set::<Pos>::empty()
    &&& new.construction_prev@ == Map::<Pos, (i32, u32)>::empty()
    &&& new.our_prev_hp@ == Map::<Seq<char>, (i32, u32)>::empty()
    &&& new.last_seen_enemy@ == Map::<Seq<char>, (Pos, i32, u32)>::empty()
    &&& new.last_seen_beaver@ == Map::<Seq<char>, (Pos, i32, u32)>::empty()
    &&& new.enemy_first_seen@ == Map::<Seq<char>, u32>::empty()
    &&& new.known_mountains == old.known_mountains
    &&& new.storm_history == old.storm_history
    &&& new.sabotages_done == old.sabotages_done
    &&& new.beavers_killed == old.beavers_killed
    &&& new.last_submitted_turn == old.last_submitted_turn
    &&& new.last_main_id == old.last_main_id
}

/// Targets of the build commands among `asg[0..n)`.
pub open spec fn build_targets(asg: Seq<Assignment>, n: int) -> Set<Pos> {
    Set::new(|p: Pos| exists|k: int| 0 <= k < n && (#[trigger] asg[k]).kind is Build && asg[k].target_pos == p)
}

impl Memory {
    /// Records the cells on which the plan starts constructions, so that
    /// they are later told apart from the other players' constructions.
    pub fn note_started_builds(&mut self, plan: &TurnPlan)
        ensures
            final(self).our_construction_ever@ == old(self).our_construction_ever@.union(
                build_targets(plan.assignments@, plan.assignments@.len() as int),
            ),
            *final(self) == (Memory { our_construction_ever: final(self).our_construction_ever, ..*old(self) }),
    {
        let ghost start = self.our_construction_ever@;
        let n = plan.assignments.len();
        let mut i: usize = 0;
        while i < n
            invariant
                n == plan.assignments@.len(),
                i <= n,
                self.our_construction_ever@ == start.union(build_targets(plan.assignments@, i as int)),
                *self == (Memory { our_construction_ever: self.our_construction_ever, ..*old(self) }),
            decreases n - i,
        {
            let a = &plan.assignments[i];
            if matches!(a.kind, TaskKind::Build) {
                self.our_construction_ever.insert(a.target_pos);
            }
            proof {
                assert(self.our_construction_ever@ =~= start.union(build_targets(plan.assignments@, i + 1)));
            }
            i = i + 1;
        }
    }

    /// Whether `state` shows a respawn (see `spec_is_respawn`).
    pub fn is_respawn(&self, state: &GameState) -> (b: bool)
        ensures
            b == spec_is_respawn(*self, *state),
    {
        match state.main() {
            Some(m) => match &self.last_main_id {
                Some(old_id) => !str_eq(m.id.as_str(), old_id.as_str()) && !self.birth_turn.contains_key(m.id.as_str()),
                None => false,
            },
            None => false,
        }
    }

    /// Detects a respawn and, on one, clears the state-specific memory.
    /// Called before `update`, while `birth_turn` still lists last turn's
    /// plantations (among them the neighbour that a relocation made main).
    pub fn handle_respawn_if_detected(&mut self, state: &GameState)
        requires
            spec_is_respawn(*old(self), *state) ==> old(self).mains_lost < u32::MAX,
        ensures
            spec_is_respawn(*old(self), *state) ==> spec_after_respawn(*old(self), *final(self)),
            !spec_is_respawn(*old(self), *state) ==> *final(self) == *old(self),
    {
        if self.is_respawn(state) {
            self.mains_lost = self.mains_lost + 1;
            self.birth_turn.clear();
            self.our_construction_ever.clear();
            self.construction_prev.clear();
            self.our_prev_hp.clear();
            self.last_seen_enemy.clear();
            self.last_seen_beaver.clear();
            self.enemy_first_seen.clear();
        }
    }

    pub fn is_our_construction(&self, pos: Pos) -> (b: bool)
        ensures
            b == self.our_construction_ever@.contains(pos),
    {
        self.our_construction_ever.contains(&pos)
    }

    /// Conservative immunity guess: an enemy id seen for the first time with
    /// full hp (≥ 50) is probably freshly built and still immune; on any later
    /// sighting the immunity is assumed over.
    pub fn suspected_enemy_immunity(&self, enemy_id: &str, hp: i32) -> (b: bool)
        ensures
            b == (!self.enemy_first_seen@.dom().contains(enemy_id@) && hp >= 50),
    {
        if self.enemy_first_seen.contains_key(enemy_id) {
            false
        } else {
            hp >= 50
        }
    }
}

pub open spec fn has_id(ps: Seq<Plantation>, k: Seq<char>) -> bool {
    exists|i: int| 0 <= i < ps.len() && (#[trigger] ps[i]).id@ == k
}

pub open spec fn has_enemy_id(es: Seq<EnemyPlantation>, k: Seq<char>) -> bool {
    exists|i: int| 0 <= i < es.len() && (#[trigger] es[i]).id@ == k
}

pub open spec fn has_plantation_at(ps: Seq<Plantation>, p: Pos) -> bool {
    exists|i: int| 0 <= i < ps.len() && (#[trigger] ps[i]).pos == p
}

pub open spec fn has_construction_at(cs: Seq<Construction>, p: Pos) -> bool {
    exists|i: int| 0 <= i < cs.len() && (#[trigger] cs[i]).pos == p
}

/// Birth turns after observing `ps` on turn `t`: kept for plantations still
/// alive, `t` for new ones, dropped for the gone.
pub open spec fn spec_births(old: Map<Seq<char>, u32>, ps: Seq<Plantation>, t: u32) -> Map<Seq<char>, u32> {
    Map::new(|k: Seq<char>| has_id(ps, k), |k: Seq<char>| if old.dom().contains(k) { old[k] } else { t })
}

/// Sightings of enemies, the later entry of an id winning.
pub open spec fn enemies_seen(m: Map<Seq<char>, (Pos, i32, u32)>, es: Seq<EnemyPlantation>, t: u32, n: int) -> Map<Seq<char>, (Pos, i32, u32)>
    decreases n,
{
    if n <= 0 {
        m
    } else {
        enemies_seen(m, es, t, n - 1).insert(es[n - 1].id@, (es[n - 1].pos, es[n - 1].hp, t))
    }
}

pub open spec fn beavers_seen(m: Map<Seq<char>, (Pos, i32, u32)>, bs: Seq<Beaver>, t: u32, n: int) -> Map<Seq<char>, (Pos, i32, u32)>
    decreases n,
{
    if n <= 0 {
        m
    } else {
        beavers_seen(m, bs, t, n - 1).insert(bs[n - 1].id@, (bs[n - 1].pos, bs[n - 1].hp, t))
    }
}

pub open spec fn sat_sub(a: u32, b: u32) -> int {
    if a >= b {
        a - b
    } else {
        0
    }
}

/// Sightings younger than 50 turns at turn `t`.
pub open spec fn recent(m: Map<Seq<char>, (Pos, i32, u32)>, t: u32) -> Map<Seq<char>, (Pos, i32, u32)> {
    Map::new(|k: Seq<char>| m.dom().contains(k) && sat_sub(t, m[k].2) < 50, |k: Seq<char>| m[k])
}

/// First sightings: kept or set to `t` for the ids in `es`, restricted to the
/// ids that `seen` still tracks.
pub open spec fn spec_first_seen(old: Map<Seq<char>, u32>, es: Seq<EnemyPlantation>, t: u32, seen: Map<Seq<char>, (Pos, i32, u32)>) -> Map<Seq<char>, u32> {
    Map::new(
        |k: Seq<char>| (old.dom().contains(k) || has_enemy_id(es, k)) && seen.dom().contains(k),
        |k: Seq<char>| if old.dom().contains(k) { old[k] } else { t },
    )
}

pub open spec fn constructions_seen(cs: Seq<Construction>, t: u32, n: int) -> Map<Pos, (i32, u32)>
    decreases n,
{
    if n <= 0 {
        Map::empty()
    } else {
        constructions_seen(cs, t, n - 1).insert(cs[n - 1].pos, (cs[n - 1].progress, t))
    }
}

pub open spec fn hp_seen(ps: Seq<Plantation>, t: u32, n: int) -> Map<Seq<char>, (i32, u32)>
    decreases n,
{
    if n <= 0 {
        Map::empty()
    } else {
        hp_seen(ps, t, n - 1).insert(ps[n - 1].id@, (ps[n - 1].hp, t))
    }
}

/// A moving or forming sandstorm with an id and a center.
pub open spec fn is_tracked_storm(m: MeteoForecast) -> bool {
    m.kind@ == "sandstorm"@ && m.id is Some && m.position is Some
}

pub open spec fn storm_view(h: Map<Seq<char>, Vec<(u32, Pos)>>) -> Map<Seq<char>, Seq<(u32, Pos)>> {
    Map::new(|k: Seq<char>| h.dom().contains(k), |k: Seq<char>| h[k]@)
}

/// Storm tracks after appending `(t, center)` for each tracked storm.
pub open spec fn storms_seen(h: Map<Seq<char>, Seq<(u32, Pos)>>, ms: Seq<MeteoForecast>, t: u32, n: int) -> Map<Seq<char>, Seq<(u32, Pos)>>
    decreases n,
{
    if n <= 0 {
        h
    } else {
        let prev = storms_seen(h, ms, t, n - 1);
        let m = ms[n - 1];
        if is_tracked_storm(m) {
            let k = m.id->0@;
            let track = if prev.dom().contains(k) { prev[k] } else { Seq::empty() };
            prev.insert(k, track.push((t, m.position->0)))
        } else {
            prev
        }
    }
}

/// Everything `update` does to the memory, field by field.
pub open spec fn spec_update(old: Memory, new: Memory, state: GameState) -> bool {
    let t = state.turn_no;
    let seen_e = recent(enemies_seen(old.last_seen_enemy@, state.enemies@, t, state.enemies@.len() as int), t);
    &&& new.birth_turn@ == spec_births(old.birth_turn@, state.plantations@, t)
    &&& new.known_mountains@ == old.known_mountains@.union(state.mountains@.to_set())
    &&& new.last_seen_enemy@ == seen_e
    &&& new.last_seen_beaver@ == recent(beavers_seen(old.last_seen_beaver@, state.beavers@, t, state.beavers@.len() as int), t)
    &&& new.enemy_first_seen@ == spec_first_seen(old.enemy_first_seen@, state.enemies@, t, seen_e)
    &&& new.construction_prev@ == constructions_seen(state.construction@, t, state.construction@.len() as int)
    &&& new.our_prev_hp@ == hp_seen(state.plantations@, t, state.plantations@.len() as int)
    &&& storm_view(new.storm_history@) == storms_seen(storm_view(old.storm_history@), state.meteo@, t, state.meteo@.len() as int)
    &&& new.our_construction_ever@ == old.our_construction_ever@.filter(
        |p: Pos| has_construction_at(state.construction@, p) || has_plantation_at(state.plantations@, p))
    &&& new.last_main_id == (match state.spec_main_idx() {
        Some(i) => Some(state.plantations@[i].id),
        None => old.last_main_id,
    })
    &&& new.sabotages_done == old.sabotages_done
    &&& new.beavers_killed == old.beavers_killed
    &&& new.mains_lost == old.mains_lost
    &&& new.last_submitted_turn == old.last_submitted_turn
}

fn note_births(birth: &mut IdMap<u32>, ps: &Vec<Plantation>, t: u32)
    ensures
        final(birth)@ == spec_births(old(birth)@, ps@, t),
{
    let ghost m0 = birth@;
    let n = ps.len();
    let mut i: usize = 0;
    while i < n
        invariant
            n == ps@.len(),
            i <= n,
            birth@ == Map::new(
                |k: Seq<char>| m0.dom().contains(k) || exists|j: int| 0 <= j < i && (#[trigger] ps@[j]).id@ == k,
                |k: Seq<char>| if m0.dom().contains(k) { m0[k] } else { t },
            ),
        decreases n - i,
    {
        let ghost b0 = birth@;
        if !birth.contains_key(ps[i].id.as_str()) {
            birth.insert(ps[i].id.clone(), t);
        }
        proof {
            let target = Map::new(
                |k: Seq<char>| m0.dom().contains(k) || exists|j: int| 0 <= j < i + 1 && (#[trigger] ps@[j]).id@ == k,
                |k: Seq<char>| if m0.dom().contains(k) { m0[k] } else { t },
            );
            assert forall|k: Seq<char>| #[trigger] birth@.dom().contains(k) <==> target.dom().contains(k) by {
                if k == ps@[i as int].id@ {
                    assert(ps@[i as int].id@ == k);
                } else if exists|j: int| 0 <= j < i + 1 && (#[trigger] ps@[j]).id@ == k {
                    let j = choose|j: int| 0 <= j < i + 1 && (#[trigger] ps@[j]).id@ == k;
                    assert(j < i);
                }
            }
            assert(birth@ =~= target);
        }
        i = i + 1;
    }
    let mut alive: Vec<String> = Vec::new();
    let mut i: usize = 0;
    while i < n
        invariant
            n == ps@.len(),
            i <= n,
            alive@.len() == i,
            forall|j: int| 0 <= j < i ==> (#[trigger] alive@[j])@ == ps@[j].id@,
        decreases n - i,
    {
        alive.push(ps[i].id.clone());
        i = i + 1;
    }
    let ghost m1 = birth@;
    birth.retain_listed(&alive);
    proof {
        assert forall|k: Seq<char>| #[trigger] birth@.dom().contains(k) <==> spec_births(m0, ps@, t).dom().contains(k) by {
            if exists|j: int| 0 <= j < alive@.len() && (#[trigger] alive@[j])@ == k {
                let j = choose|j: int| 0 <= j < alive@.len() && (#[trigger] alive@[j])@ == k;
                assert(ps@[j].id@ == k);
            }
            if has_id(ps@, k) {
                let j = choose|j: int| 0 <= j < ps@.len() && (#[trigger] ps@[j]).id@ == k;
                assert(alive@[j]@ == k);
            }
        }
        assert(birth@ =~= spec_births(m0, ps@, t));
    }
}

fn note_enemies(seen: &mut IdMap<(Pos, i32, u32)>, es: &Vec<EnemyPlantation>, t: u32)
    ensures
        final(seen)@ == enemies_seen(old(seen)@, es@, t, es@.len() as int),
{
    let ghost m0 = seen@;
    let n = es.len();
    let mut i: usize = 0;
    while i < n
        invariant
            n == es@.len(),
            i <= n,
            seen@ == enemies_seen(m0, es@, t, i as int),
        decreases n - i,
    {
        seen.insert(es[i].id.clone(), (es[i].pos, es[i].hp, t));
        i = i + 1;
    }
}

fn note_beavers(seen: &mut IdMap<(Pos, i32, u32)>, bs: &Vec<Beaver>, t: u32)
    ensures
        final(seen)@ == beavers_seen(old(seen)@, bs@, t, bs@.len() as int),
{
    let ghost m0 = seen@;
    let n = bs.len();
    let mut i: usize = 0;
    while i < n
        invariant
            n == bs@.len(),
            i <= n,
            seen@ == beavers_seen(m0, bs@, t, i as int),
        decreases n - i,
    {
        seen.insert(bs[i].id.clone(), (bs[i].pos, bs[i].hp, t));
        i = i + 1;
    }
}

fn forget_stale(seen: &mut IdMap<(Pos, i32, u32)>, t: u32)
    ensures
        final(seen)@ == recent(old(seen)@, t),
{
    let ghost m0 = seen@;
    let ks = seen.keys();
    let n = ks.len();
    let mut i: usize = 0;
    while i < n
        invariant
            n == ks@.len(),
            i <= n,
            forall|j: int| 0 <= j < ks@.len() ==> m0.dom().contains(#[trigger] ks@[j]@),
            forall|k: Seq<char>| #[trigger] m0.dom().contains(k) ==> exists|j: int| 0 <= j < ks@.len() && ks@[j]@ == k,
            forall|k: Seq<char>| #[trigger] seen@.dom().contains(k) ==> m0.dom().contains(k) && seen@[k] == m0[k],
            forall|k: Seq<char>| #[trigger] m0.dom().contains(k) ==> (seen@.dom().contains(k) <==> (
                sat_sub(t, m0[k].2) < 50 || !(exists|j: int| 0 <= j < i && (#[trigger] ks@[j])@ == k))),
        decreases n - i,
    {
        let stale = match seen.get(ks[i].as_str()) {
            Some(v) => t.saturating_sub(v.2) >= 50,
            None => false,
        };
        if stale {
            let _ = seen.remove(ks[i].as_str());
        }
        proof {
            assert forall|k: Seq<char>| #[trigger] m0.dom().contains(k) implies (seen@.dom().contains(k) <==> (
                sat_sub(t, m0[k].2) < 50 || !(exists|q: int| 0 <= q < i + 1 && (#[trigger] ks@[q])@ == k))) by {
                if k == ks@[i as int]@ {
                    assert(ks@[i as int]@ == k);
                } else {
                    if exists|q: int| 0 <= q < i + 1 && (#[trigger] ks@[q])@ == k {
                        let q = choose|q: int| 0 <= q < i + 1 && (#[trigger] ks@[q])@ == k;
                        assert(q < i);
                    }
                }
            }
        }
        i = i + 1;
    }
    proof {
        assert forall|k: Seq<char>| #[trigger] m0.dom().contains(k) implies exists|q: int| 0 <= q < n && (#[trigger] ks@[q])@ == k by {
            let q = choose|q: int| 0 <= q < ks@.len() && ks@[q]@ == k;
            assert(ks@[q]@ == k);
        }
    }
    assert(seen@ =~= recent(m0, t));
}

fn note_first_seen(first: &mut IdMap<u32>, es: &Vec<EnemyPlantation>, t: u32, seen: &IdMap<(Pos, i32, u32)>)
    ensures
        final(first)@ == spec_first_seen(old(first)@, es@, t, seen@),
{
    let ghost m0 = first@;
    let n = es.len();
    let mut i: usize = 0;
    while i < n
        invariant
            n == es@.len(),
            i <= n,
            first@ == Map::new(
                |k: Seq<char>| m0.dom().contains(k) || exists|j: int| 0 <= j < i && (#[trigger] es@[j]).id@ == k,
                |k: Seq<char>| if m0.dom().contains(k) { m0[k] } else { t },
            ),
        decreases n - i,
    {
        if !first.contains_key(es[i].id.as_str()) {
            first.insert(es[i].id.clone(), t);
        }
        proof {
            let target = Map::new(
                |k: Seq<char>| m0.dom().contains(k) || exists|j: int| 0 <= j < i + 1 && (#[trigger] es@[j]).id@ == k,
                |k: Seq<char>| if m0.dom().contains(k) { m0[k] } else { t },
            );
            assert forall|k: Seq<char>| #[trigger] first@.dom().contains(k) <==> target.dom().contains(k) by {
                if k == es@[i as int].id@ {
                    assert(es@[i as int].id@ == k);
                } else if exists|j: int| 0 <= j < i + 1 && (#[trigger] es@[j]).id@ == k {
                    let j = choose|j: int| 0 <= j < i + 1 && (#[trigger] es@[j]).id@ == k;
                    assert(j < i);
                }
            }
            assert(first@ =~= target);
        }
        i = i + 1;
    }
    let known = seen.keys();
    first.retain_listed(&known);
    proof {
        let target = spec_first_seen(m0, es@, t, seen@);
        assert forall|k: Seq<char>| #[trigger] first@.dom().contains(k) <==> target.dom().contains(k) by {
            if exists|j: int| 0 <= j < known@.len() && (#[trigger] known@[j])@ == k {
                let j = choose|j: int| 0 <= j < known@.len() && (#[trigger] known@[j])@ == k;
                assert(seen@.dom().contains(known@[j]@));
            }
            if seen@.dom().contains(k) {
                let j = choose|j: int| 0 <= j < known@.len() && known@[j]@ == k;
                assert(known@[j]@ == k);
            }
            if has_enemy_id(es@, k) {
                let j = choose|j: int| 0 <= j < es@.len() && (#[trigger] es@[j]).id@ == k;
                assert(es@[j].id@ == k);
            }
        }
        assert(first@ =~= target);
    }
}

fn snapshot_constructions(cs: &Vec<Construction>, t: u32) -> (m: PosMap<(i32, u32)>)
    ensures
        m@ == constructions_seen(cs@, t, cs@.len() as int),
{
    let mut m = PosMap::new();
    let n = cs.len();
    let mut i: usize = 0;
    while i < n
        invariant
            n == cs@.len(),
            i <= n,
            m@ == constructions_seen(cs@, t, i as int),
        decreases n - i,
    {
        m.insert(cs[i].pos, (cs[i].progress, t));
        i = i + 1;
    }
    m
}

fn snapshot_hp(ps: &Vec<Plantation>, t: u32) -> (m: IdMap<(i32, u32)>)
    ensures
        m@ == hp_seen(ps@, t, ps@.len() as int),
{
    let mut m = IdMap::new();
    let n = ps.len();
    let mut i: usize = 0;
    while i < n
        invariant
            n == ps@.len(),
            i <= n,
            m@ == hp_seen(ps@, t, i as int),
        decreases n - i,
    {
        m.insert(ps[i].id.clone(), (ps[i].hp, t));
        i = i + 1;
    }
    m
}

fn note_storms(h: &mut IdMap<Vec<(u32, Pos)>>, ms: &Vec<MeteoForecast>, t: u32)
    ensures
        storm_view(final(h)@) == storms_seen(storm_view(old(h)@), ms@, t, ms@.len() as int),
{
    let ghost m0 = storm_view(h@);
    let n = ms.len();
    let mut i: usize = 0;
    while i < n
        invariant
            n == ms@.len(),
            i <= n,
            storm_view(h@) == storms_seen(m0, ms@, t, i as int),
        decreases n - i,
    {
        let m = &ms[i];
        if str_eq(m.kind.as_str(), "sandstorm") {
            match (&m.id, m.position) {
                (Some(id), Some(pos)) => {
                    let ghost before = storm_view(h@);
                    let mut track = match h.remove(id.as_str()) {
                        Some(v) => v,
                        None => Vec::new(),
                    };
                    track.push((t, pos));
                    h.insert(id.clone(), track);
                    proof {
                        assert(storm_view(h@) =~= storms_seen(m0, ms@, t, i + 1));
                    }
                },
                _ => {},
            }
        }
        i = i + 1;
    }
}

fn keep_live_construction_cells(ever: &mut PosSet, cs: &Vec<Construction>, ps: &Vec<Plantation>)
    ensures
        final(ever)@ == old(ever)@.filter(|p: Pos| has_construction_at(cs@, p) || has_plantation_at(ps@, p)),
{
    let ghost s0 = ever@;
    let cells = ever.elements();
    let n = cells.len();
    let mut i: usize = 0;
    while i < n
        invariant
            n == cells@.len(),
            i <= n,
            forall|j: int| 0 <= j < cells@.len() ==> s0.contains(#[trigger] cells@[j]),
            forall|k: Pos| #[trigger] s0.contains(k) ==> cells@.contains(k),
            forall|k: Pos| #[trigger] ever@.contains(k) ==> s0.contains(k),
            forall|k: Pos| #[trigger] s0.contains(k) ==> (ever@.contains(k) <==> (
                has_construction_at(cs@, k) || has_plantation_at(ps@, k) || !cells@.subrange(0, i as int).contains(k))),
        decreases n - i,
    {
        let p = cells[i];
        let mut keep = false;
        let mut j: usize = 0;
        while j < cs.len()
            invariant
                j <= cs@.len(),
                keep == exists|q: int| 0 <= q < j && (#[trigger] cs@[q]).pos == p,
            decreases cs.len() - j,
        {
            if cs[j].pos == p {
                keep = true;
            }
            j = j + 1;
        }
        let mut j: usize = 0;
        while j < ps.len()
            invariant
                j <= ps@.len(),
                keep == (has_construction_at(cs@, p) || exists|q: int| 0 <= q < j && (#[trigger] ps@[q]).pos == p),
            decreases ps.len() - j,
        {
            if ps[j].pos == p {
                keep = true;
            }
            j = j + 1;
        }
        if !keep {
            ever.remove(p);
        }
        proof {
            assert forall|k: Pos| #[trigger] s0.contains(k) implies (ever@.contains(k) <==> (
                has_construction_at(cs@, k) || has_plantation_at(ps@, k) || !cells@.subrange(0, i + 1).contains(k))) by {
                if k == p {
                    assert(cells@.subrange(0, i + 1)[i as int] == k);
                } else {
                    if cells@.subrange(0, i + 1).contains(k) {
                        let q = choose|q: int| 0 <= q < i + 1 && #[trigger] cells@.subrange(0, i + 1)[q] == k;
                        assert(q < i);
                        assert(cells@.subrange(0, i as int)[q] == k);
                    }
                    if cells@.subrange(0, i as int).contains(k) {
                        let q = choose|q: int| 0 <= q < i && #[trigger] cells@.subrange(0, i as int)[q] == k;
                        assert(cells@.subrange(0, i + 1)[q] == k);
                    }
                }
            }
        }
        i = i + 1;
    }
    proof {
        assert(cells@.subrange(0, n as int) =~= cells@);
    }
    assert(ever@ =~= s0.filter(|p: Pos| has_construction_at(cs@, p) || has_plantation_at(ps@, p)));
}

fn add_mountains(known: &mut PosSet, ms: &Vec<Pos>)
    ensures
        final(known)@ == old(known)@.union(ms@.to_set()),
{
    let ghost s0 = known@;
    let n = ms.len();
    let mut i: usize = 0;
    while i < n
        invariant
            n == ms@.len(),
            i <= n,
            known@ == s0.union(ms@.subrange(0, i as int).to_set()),
        decreases n - i,
    {
        known.insert(ms[i]);
        proof {
            assert(ms@.subrange(0, i + 1) =~= ms@.subrange(0, i as int).push(ms@[i as int]));
            assert(ms@.subrange(0, i + 1).to_set() =~= ms@.subrange(0, i as int).to_set().insert(ms@[i as int])) by {
                broadcast use vstd::seq_lib::group_seq_properties;
                assert forall|x: Pos| #[trigger] ms@.subrange(0, i + 1).to_set().contains(x) <==> ms@.subrange(0, i as int).to_set().insert(ms@[i as int]).contains(x) by {
                    if ms@.subrange(0, i + 1).contains(x) {
                        let q = choose|q: int| 0 <= q < i + 1 && #[trigger] ms@.subrange(0, i + 1)[q] == x;
                        if q < i {
                            assert(ms@.subrange(0, i as int)[q] == x);
                        }
                    }
                    if ms@.subrange(0, i as int).contains(x) {
                        let q = choose|q: int| 0 <= q < i && #[trigger] ms@.subrange(0, i as int)[q] == x;
                        assert(ms@.subrange(0, i + 1)[q] == x);
                    }
                    if x == ms@[i as int] {
                        assert(ms@.subrange(0, i + 1)[i as int] == x);
                    }
                }
            }
            assert(known@ =~= s0.union(ms@.subrange(0, i + 1).to_set()));
        }
        i = i + 1;
    }
    assert(ms@.subrange(0, n as int) =~= ms@);
}

impl Memory {
    /// Folds the observation of one turn into the memory. Called on every
    /// turn, after `handle_respawn_if_detected`.
    pub fn update(&mut self, state: &GameState)
        ensures
            spec_update(*old(self), *final(self), *state),
    {
        let t = state.turn_no;
        note_births(&mut self.birth_turn, &state.plantations, t);
        add_mountains(&mut self.known_mountains, &state.mountains);
        note_enemies(&mut self.last_seen_enemy, &state.enemies, t);
        note_beavers(&mut self.last_seen_beaver, &state.beavers, t);
        forget_stale(&mut self.last_seen_enemy, t);
        forget_stale(&mut self.last_seen_beaver, t);
        note_first_seen(&mut self.enemy_first_seen, &state.enemies, t, &self.last_seen_enemy);
        self.construction_prev = snapshot_constructions(&state.construction, t);
        self.our_prev_hp = snapshot_hp(&state.plantations, t);
        note_storms(&mut self.storm_history, &state.meteo, t);
        keep_live_construction_cells(&mut self.our_construction_ever, &state.construction, &state.plantations);
        // A turn without a main (the pause between rounds) keeps the last id,
        // so that a new main at the start of the next round is still noticed.
        match state.main() {
            Some(m) => {
                self.last_main_id = Some(m.id.clone());
            },
            None => {},
        }
    }
}

/// Age key of a plantation: its birth turn, `u32::MAX` when unknown.
pub open spec fn birth_key(birth: Map<Seq<char>, u32>, p: Plantation) -> u32 {
    if birth.dom().contains(p.id@) {
        birth[p.id@]
    } else {
        u32::MAX
    }
}

/// Index of the first plantation among `ps[0..n)` with the smallest age key.
pub open spec fn oldest_upto(ps: Seq<Plantation>, birth: Map<Seq<char>, u32>, n: int) -> Option<int>
    decreases n,
{
    if n <= 0 {
        None
    } else {
        match oldest_upto(ps, birth, n - 1) {
            None => Some(n - 1),
            Some(b) => if birth_key(birth, ps[n - 1]) < birth_key(birth, ps[b]) {
                Some(n - 1)
            } else {
                Some(b)
            },
        }
    }
}

pub proof fn lemma_oldest_upto(ps: Seq<Plantation>, birth: Map<Seq<char>, u32>, n: int)
    requires
        0 <= n <= ps.len(),
    ensures
        oldest_upto(ps, birth, n) is None <==> n == 0,
        oldest_upto(ps, birth, n) matches Some(b) ==> 0 <= b < n
            && (forall|j: int| 0 <= j < n ==> birth_key(birth, ps[b]) <= #[trigger] birth_key(birth, ps[j]))
            && (forall|j: int| 0 <= j < b ==> birth_key(birth, ps[b]) < #[trigger] birth_key(birth, ps[j])),
    decreases n,
{
    if n > 0 {
        lemma_oldest_upto(ps, birth, n - 1);
    }
}

impl Memory {
    /// The plantation observed earliest (the first of the oldest ones);
    /// unknown plantations count as youngest.
    pub fn oldest_plantation<'a>(&self, state: &'a GameState) -> (r: Option<&'a Plantation>)
        ensures
            match oldest_upto(state.plantations@, self.birth_turn@, state.plantations@.len() as int) {
                Some(b) => r matches Some(p) && *p == state.plantations@[b],
                None => r is None,
            },
    {
        let ps = &state.plantations;
        let n = ps.len();
        let mut best: Option<usize> = None;
        let mut best_key: u32 = u32::MAX;
        let mut i: usize = 0;
        while i < n
            invariant
                n == ps@.len(),
                i <= n,
                best == (match oldest_upto(ps@, self.birth_turn@, i as int) {
                    Some(b) => Some(b as usize),
                    None => None,
                }),
                best matches Some(b) ==> b < i && best_key == birth_key(self.birth_turn@, ps@[b as int]),
            decreases n - i,
        {
            proof {
                lemma_oldest_upto(ps@, self.birth_turn@, i as int);
                lemma_oldest_upto(ps@, self.birth_turn@, i + 1);
            }
            let key = match self.birth_turn.get(ps[i].id.as_str()) {
                Some(v) => *v,
                None => u32::MAX,
            };
            match best {
                None => {
                    best = Some(i);
                    best_key = key;
                },
                Some(_) => {
                    if key < best_key {
                        best = Some(i);
                        best_key = key;
                    }
                },
            }
            i = i + 1;
        }
        proof {
            lemma_oldest_upto(ps@, self.birth_turn@, n as int);
        }
        match best {
            Some(b) => Some(&ps[b]),
            None => None,
        }
    }
}

/// Observing the same state twice never counts as a respawn: `update` records
/// the main plantation of the state, which `handle_respawn_if_detected` then
/// recognizes.
pub proof fn law_same_state_is_not_a_respawn(old: Memory, new: Memory, state: GameState)
    requires
        spec_update(old, new, state),
    ensures
        !spec_is_respawn(new, state),
{
    match state.spec_main_idx() {
        Some(i) => {
            lemma_first_where(state.plantations@, crate::model::state::main_pred(), state.plantations@.len() as int);
            assert(new.last_main_id == Some(state.plantations@[i].id));
        },
        None => {},
    }
}

/// A main plantation that was already ours (a relocation) is not a respawn.
pub proof fn law_relocation_is_not_a_respawn(mem: Memory, state: GameState)
    requires
        state.spec_main_idx() matches Some(i) && mem.birth_turn@.dom().contains(state.plantations@[i].id@),
    ensures
        !spec_is_respawn(mem, state),
{
}

/// After `update` has seen an enemy, it is no longer suspected of immunity,
/// whatever its hp.
pub proof fn law_seen_enemy_is_not_suspected(old: Memory, new: Memory, state: GameState, k: int)
    requires
        spec_update(old, new, state),
        0 <= k < state.enemies@.len(),
    ensures
        new.enemy_first_seen@.dom().contains(state.enemies@[k].id@),
{
    let t = state.turn_no;
    let es = state.enemies@;
    let id = es[k].id@;
    lemma_enemies_seen_contains(old.last_seen_enemy@, es, t, es.len() as int, k);
    assert(has_enemy_id(es, id));
}

proof fn lemma_enemies_seen_contains(m: Map<Seq<char>, (Pos, i32, u32)>, es: Seq<EnemyPlantation>, t: u32, n: int, k: int)
    requires
        0 <= k < n <= es.len(),
    ensures
        enemies_seen(m, es, t, n).dom().contains(es[k].id@),
        enemies_seen(m, es, t, n)[es[k].id@].2 == t,
    decreases n,
{
    if n - 1 != k {
        if es[n - 1].id@ != es[k].id@ {
            lemma_enemies_seen_contains(m, es, t, n - 1, k);
        }
    }
}

/// A turn without a main plantation leaves the remembered main id alone.
pub proof fn law_pause_keeps_main_id(old: Memory, new: Memory, state: GameState)
    requires
        spec_update(old, new, state),
        state.spec_main_idx() is None,
    ensures
        new.last_main_id == old.last_main_id,
{
}

pub open spec fn ids_distinct(ps: Seq<Plantation>) -> bool {
    forall|i: int, j: int| 0 <= i < j < ps.len() ==> (#[trigger] ps[i]).id@ != (#[trigger] ps[j]).id@
}

pub open spec fn enemy_ids_distinct(es: Seq<EnemyPlantation>) -> bool {
    forall|i: int, j: int| 0 <= i < j < es.len() ==> (#[trigger] es[i]).id@ != (#[trigger] es[j]).id@
}

pub open spec fn construction_cells_distinct(cs: Seq<Construction>) -> bool {
    forall|i: int, j: int| 0 <= i < j < cs.len() ==> (#[trigger] cs[i]).pos != (#[trigger] cs[j]).pos
}

proof fn lemma_hp_seen(ps: Seq<Plantation>, t: u32, n: int)
    requires
        0 <= n <= ps.len(),
        ids_distinct(ps),
    ensures
        forall|k: Seq<char>| #[trigger] hp_seen(ps, t, n).dom().contains(k) ==> exists|j: int| 0 <= j < n && ps[j].id@ == k,
        forall|j: int| 0 <= j < n ==> hp_seen(ps, t, n).dom().contains((#[trigger] ps[j]).id@)
            && hp_seen(ps, t, n)[ps[j].id@] == (ps[j].hp, t),
    decreases n,
{
    if n > 0 {
        lemma_hp_seen(ps, t, n - 1);
        assert forall|j: int| 0 <= j < n - 1 implies (#[trigger] ps[j]).id@ != ps[n - 1].id@ by {}
        assert forall|k: Seq<char>| #[trigger] hp_seen(ps, t, n).dom().contains(k) implies exists|j: int| 0 <= j < n && ps[j].id@ == k by {
            if k == ps[n - 1].id@ {
                assert(ps[n - 1].id@ == k);
            } else {
                assert(hp_seen(ps, t, n - 1).dom().contains(k));
                let j = choose|j: int| 0 <= j < n - 1 && ps[j].id@ == k;
                assert(ps[j].id@ == k);
            }
        }
    }
}

proof fn lemma_constructions_seen(cs: Seq<Construction>, t: u32, n: int)
    requires
        0 <= n <= cs.len(),
        construction_cells_distinct(cs),
    ensures
        forall|p: Pos| #[trigger] constructions_seen(cs, t, n).dom().contains(p) ==> exists|j: int| 0 <= j < n && cs[j].pos == p,
        forall|j: int| 0 <= j < n ==> constructions_seen(cs, t, n).dom().contains((#[trigger] cs[j]).pos)
            && constructions_seen(cs, t, n)[cs[j].pos] == (cs[j].progress, t),
    decreases n,
{
    if n > 0 {
        lemma_constructions_seen(cs, t, n - 1);
        assert forall|j: int| 0 <= j < n - 1 implies (#[trigger] cs[j]).pos != cs[n - 1].pos by {}
        assert forall|p: Pos| #[trigger] constructions_seen(cs, t, n).dom().contains(p) implies exists|j: int| 0 <= j < n && cs[j].pos == p by {
            if p == cs[n - 1].pos {
                assert(cs[n - 1].pos == p);
            } else {
                assert(constructions_seen(cs, t, n - 1).dom().contains(p));
                let j = choose|j: int| 0 <= j < n - 1 && cs[j].pos == p;
                assert(cs[j].pos == p);
            }
        }
    }
}

proof fn lemma_enemies_seen_value(m: Map<Seq<char>, (Pos, i32, u32)>, es: Seq<EnemyPlantation>, t: u32, n: int)
    requires
        0 <= n <= es.len(),
        enemy_ids_distinct(es),
    ensures
        forall|j: int| 0 <= j < n ==> enemies_seen(m, es, t, n).dom().contains((#[trigger] es[j]).id@)
            && enemies_seen(m, es, t, n)[es[j].id@] == (es[j].pos, es[j].hp, t),
    decreases n,
{
    if n > 0 {
        lemma_enemies_seen_value(m, es, t, n - 1);
        assert forall|j: int| 0 <= j < n - 1 implies (#[trigger] es[j]).id@ != es[n - 1].id@ by {}
    }
}

/// What `update` keeps of our own side, stated per plantation and per
/// construction (ids and construction cells unique, as the server sends
/// them): a birth turn for exactly the living plantations (the old one, or
/// this turn for newcomers), this turn's hp and construction progress, every
/// mountain ever seen, and our constructions only where a construction or a
/// plantation still stands.
pub proof fn law_update_tracks_our_side(old: Memory, new: Memory, state: GameState)
    requires
        spec_update(old, new, state),
        ids_distinct(state.plantations@),
        construction_cells_distinct(state.construction@),
    ensures
        ({
            let ps = state.plantations@;
            let cs = state.construction@;
            let t = state.turn_no;
            &&& forall|k: Seq<char>| #[trigger] new.birth_turn@.dom().contains(k) <==> has_id(ps, k)
            &&& forall|j: int| 0 <= j < ps.len() ==> new.birth_turn@[(#[trigger] ps[j]).id@]
                == (if old.birth_turn@.dom().contains(ps[j].id@) { old.birth_turn@[ps[j].id@] } else { t })
            &&& forall|k: Seq<char>| #[trigger] new.our_prev_hp@.dom().contains(k) <==> has_id(ps, k)
            &&& forall|j: int| 0 <= j < ps.len() ==> new.our_prev_hp@[(#[trigger] ps[j]).id@] == (ps[j].hp, t)
            &&& forall|p: Pos| #[trigger] new.construction_prev@.dom().contains(p) <==> has_construction_at(cs, p)
            &&& forall|j: int| 0 <= j < cs.len() ==> new.construction_prev@[(#[trigger] cs[j]).pos] == (cs[j].progress, t)
            &&& new.known_mountains@ == old.known_mountains@.union(state.mountains@.to_set())
            &&& forall|p: Pos| #[trigger] new.our_construction_ever@.contains(p) <==> (old.our_construction_ever@.contains(p)
                && (has_construction_at(cs, p) || has_plantation_at(ps, p)))
        }),
{
    let ps = state.plantations@;
    let cs = state.construction@;
    let t = state.turn_no;
    lemma_hp_seen(ps, t, ps.len() as int);
    lemma_constructions_seen(cs, t, cs.len() as int);
    assert forall|k: Seq<char>| #[trigger] new.our_prev_hp@.dom().contains(k) <==> has_id(ps, k) by {
        if has_id(ps, k) {
            let j = choose|j: int| 0 <= j < ps.len() && (#[trigger] ps[j]).id@ == k;
            assert(new.our_prev_hp@.dom().contains(ps[j].id@));
        }
    }
    assert forall|p: Pos| #[trigger] new.construction_prev@.dom().contains(p) <==> has_construction_at(cs, p) by {
        if has_construction_at(cs, p) {
            let j = choose|j: int| 0 <= j < cs.len() && (#[trigger] cs[j]).pos == p;
            assert(new.construction_prev@.dom().contains(cs[j].pos));
        }
    }
    assert forall|j: int| 0 <= j < ps.len() implies new.birth_turn@[(#[trigger] ps[j]).id@]
        == (if old.birth_turn@.dom().contains(ps[j].id@) { old.birth_turn@[ps[j].id@] } else { t }) by {
        assert(has_id(ps, ps[j].id@));
    }
}

/// What `update` keeps of the others (enemy ids unique, as the server sends
/// them): every enemy in sight with this turn's position and hp, its first
/// sighting (kept, or this turn), sightings only younger than 50 turns, and
/// first sightings only for the enemies still tracked; counters and the
/// submitted turn stay, and the main id follows the state's main plantation.
pub proof fn law_update_tracks_the_others(old: Memory, new: Memory, state: GameState)
    requires
        spec_update(old, new, state),
        enemy_ids_distinct(state.enemies@),
    ensures
        ({
            let es = state.enemies@;
            let t = state.turn_no;
            &&& forall|j: int| 0 <= j < es.len() ==> new.last_seen_enemy@.dom().contains((#[trigger] es[j]).id@)
                && new.last_seen_enemy@[es[j].id@] == (es[j].pos, es[j].hp, t)
            &&& forall|j: int| 0 <= j < es.len() ==> new.enemy_first_seen@.dom().contains((#[trigger] es[j]).id@)
                && new.enemy_first_seen@[es[j].id@]
                    == (if old.enemy_first_seen@.dom().contains(es[j].id@) { old.enemy_first_seen@[es[j].id@] } else { t })
            &&& forall|k: Seq<char>| #[trigger] new.last_seen_enemy@.dom().contains(k) ==> sat_sub(t, new.last_seen_enemy@[k].2) < 50
            &&& forall|k: Seq<char>| #[trigger] new.last_seen_beaver@.dom().contains(k) ==> sat_sub(t, new.last_seen_beaver@[k].2) < 50
            &&& forall|k: Seq<char>| #[trigger] new.enemy_first_seen@.dom().contains(k) ==> new.last_seen_enemy@.dom().contains(k)
            &&& new.last_main_id == (match state.spec_main_idx() {
                Some(i) => Some(state.plantations@[i].id),
                None => old.last_main_id,
            })
            &&& new.mains_lost == old.mains_lost
            &&& new.sabotages_done == old.sabotages_done
            &&& new.beavers_killed == old.beavers_killed
            &&& new.last_submitted_turn == old.last_submitted_turn
        }),
{
    let es = state.enemies@;
    let t = state.turn_no;
    lemma_enemies_seen_value(old.last_seen_enemy@, es, t, es.len() as int);
    assert forall|j: int| 0 <= j < es.len() implies new.enemy_first_seen@.dom().contains((#[trigger] es[j]).id@) by {
        assert(has_enemy_id(es, es[j].id@));
    }
}

} // verus!
