use vstd::prelude::*;

use vstd::string::*;

use crate::api::dto::{ConstructionDTO, EnemyPlantationDTO, MeteoForecastDTO, PlantationDTO, PlantationUpgradeTierItemDTO, PlantationUpgradesState, PlayerBeaverDTO, PlayerResponse, TerraformedCellDTO};
use crate::error::BotError;
use crate::model::params::DerivedParams;
use crate::model::select::{filter_upto, first_where, lemma_first_where_stable};
use crate::predict::completion::{spec_will_complete_this_turn, will_complete_this_turn};
use crate::text::str_eq;

verus! {

/// A cell of the map.
#[derive(Debug, Clone, Copy, PartialEq, Eq, Hash, Structural)]
pub struct Pos {
    pub x: i32,
    pub y: i32,
}

pub open spec fn spec_pos_from(a: [i32; 2]) -> Pos {
    Pos { x: a[0], y: a[1] }
}

impl Pos {
    pub fn new(x: i32, y: i32) -> (p: Self)
        ensures
            p.x == x,
            p.y == y,
    {
        Self { x, y }
    }

    pub fn from_arr(a: [i32; 2]) -> (p: Self)
        ensures
            p == spec_pos_from(a),
    {
        Self { x: a[0], y: a[1] }
    }

    pub fn to_arr(self) -> (a: [i32; 2])
        ensures
            a@ == seq![self.x, self.y],
    {
        [self.x, self.y]
    }
}

/// One of our plantations.
#[derive(Debug, Clone)]
pub struct Plantation {
    pub id: String,
    pub pos: Pos,
    pub hp: i32,
    pub is_main: bool,
    pub is_isolated: bool,
    /// 0 means no immunity.
    pub immunity_until_turn: u32,
}

#[derive(Debug, Clone)]
pub struct EnemyPlantation {
    pub id: String,
    pub pos: Pos,
    pub hp: i32,
}

/// A plantation under construction.
#[derive(Debug, Clone)]
pub struct Construction {
    pub pos: Pos,
    pub progress: i32,
}

/// A beaver lair.
#[derive(Debug, Clone)]
pub struct Beaver {
    pub id: String,
    pub pos: Pos,
    pub hp: i32,
}

/// A terraformed cell.
#[derive(Debug, Clone)]
pub struct Cell {
    pub pos: Pos,
    pub terraformation_progress: i32,
    pub turns_until_degradation: Option<i32>,
}

#[derive(Debug, Clone)]
pub struct UpgradeTier {
    pub name: String,
    pub current: i32,
    pub max: i32,
}

#[derive(Debug, Clone)]
pub struct UpgradesState {
    pub points: i32,
    pub interval_turns: u32,
    pub turns_until_points: u32,
    pub max_points: i32,
    pub tiers: Vec<UpgradeTier>,
}

#[derive(Debug, Clone)]
pub struct MeteoForecast {
    pub kind: String,
    pub turns_until: Option<u32>,
    pub id: Option<String>,
    pub forming: Option<bool>,
    pub position: Option<Pos>,
    pub next_position: Option<Pos>,
    pub radius: Option<i32>,
}

/// The normalized view of one turn of the arena.
#[derive(Debug)]
pub struct GameState {
    pub turn_no: u32,
    pub map_size: (i32, i32),
    pub action_range: i32,
    pub plantations: Vec<Plantation>,
    pub enemies: Vec<EnemyPlantation>,
    pub mountains: Vec<Pos>,
    pub cells: Vec<Cell>,
    pub construction: Vec<Construction>,
    pub beavers: Vec<Beaver>,
    pub upgrades: UpgradesState,
    pub meteo: Vec<MeteoForecast>,
}

impl Clone for GameState {
    fn clone(&self) -> (c: Self)
        ensures
            c.turn_no == self.turn_no,
            c.map_size == self.map_size,
            c.action_range == self.action_range,
    {
        GameState {
            turn_no: self.turn_no,
            map_size: self.map_size,
            action_range: self.action_range,
            plantations: self.plantations.clone(),
            enemies: self.enemies.clone(),
            mountains: self.mountains.clone(),
            cells: self.cells.clone(),
            construction: self.construction.clone(),
            beavers: self.beavers.clone(),
            upgrades: self.upgrades.clone(),
            meteo: self.meteo.clone(),
        }
    }
}

pub open spec fn spec_opt_pos_from(a: Option<[i32; 2]>) -> Option<Pos> {
    match a {
        Some(v) => Some(spec_pos_from(v)),
        None => None,
    }
}

pub open spec fn spec_plantation_from(d: PlantationDTO) -> Plantation {
    Plantation {
        id: d.id,
        pos: spec_pos_from(d.position),
        hp: d.hp,
        is_main: d.is_main,
        is_isolated: d.is_isolated,
        immunity_until_turn: match d.immunity_until_turn {
            Some(v) => v,
            None => 0,
        },
    }
}

pub open spec fn spec_enemy_from(d: EnemyPlantationDTO) -> EnemyPlantation {
    EnemyPlantation { id: d.id, pos: spec_pos_from(d.position), hp: d.hp }
}

pub open spec fn spec_construction_from(d: ConstructionDTO) -> Construction {
    Construction { pos: spec_pos_from(d.position), progress: d.progress }
}

pub open spec fn spec_beaver_from(d: PlayerBeaverDTO) -> Beaver {
    Beaver { id: d.id, pos: spec_pos_from(d.position), hp: d.hp }
}

pub open spec fn spec_cell_from(d: TerraformedCellDTO) -> Cell {
    Cell {
        pos: spec_pos_from(d.position),
        terraformation_progress: d.terraformation_progress,
        turns_until_degradation: d.turns_until_degradation,
    }
}

pub open spec fn spec_tier_from(d: PlantationUpgradeTierItemDTO) -> UpgradeTier {
    UpgradeTier { name: d.name, current: d.current, max: d.max }
}

pub open spec fn spec_meteo_from(d: MeteoForecastDTO) -> MeteoForecast {
    MeteoForecast {
        kind: d.kind,
        turns_until: d.turns_until,
        id: d.id,
        forming: d.forming,
        position: spec_opt_pos_from(d.position),
        next_position: spec_opt_pos_from(d.next_position),
        radius: d.radius,
    }
}

impl Plantation {
    /// A missing immunity turn becomes 0 (no immunity).
    pub fn from_dto(dto: PlantationDTO) -> (p: Self)
        ensures
            p == spec_plantation_from(dto),
    {
        Self {
            id: dto.id,
            pos: Pos::from_arr(dto.position),
            hp: dto.hp,
            is_main: dto.is_main,
            is_isolated: dto.is_isolated,
            immunity_until_turn: match dto.immunity_until_turn {
                Some(v) => v,
                None => 0,
            },
        }
    }
}

impl EnemyPlantation {
    pub fn from_dto(dto: EnemyPlantationDTO) -> (e: Self)
        ensures
            e == spec_enemy_from(dto),
    {
        Self { id: dto.id, pos: Pos::from_arr(dto.position), hp: dto.hp }
    }
}

impl Construction {
    pub fn from_dto(dto: ConstructionDTO) -> (c: Self)
        ensures
            c == spec_construction_from(dto),
    {
        Self { pos: Pos::from_arr(dto.position), progress: dto.progress }
    }
}

impl Beaver {
    pub fn from_dto(dto: PlayerBeaverDTO) -> (b: Self)
        ensures
            b == spec_beaver_from(dto),
    {
        Self { id: dto.id, pos: Pos::from_arr(dto.position), hp: dto.hp }
    }
}

impl Cell {
    pub fn from_dto(dto: TerraformedCellDTO) -> (c: Self)
        ensures
            c == spec_cell_from(dto),
    {
        Self {
            pos: Pos::from_arr(dto.position),
            terraformation_progress: dto.terraformation_progress,
            turns_until_degradation: dto.turns_until_degradation,
        }
    }
}

impl UpgradeTier {
    pub fn from_dto(dto: PlantationUpgradeTierItemDTO) -> (t: Self)
        ensures
            t == spec_tier_from(dto),
    {
        Self { name: dto.name, current: dto.current, max: dto.max }
    }
}

fn opt_pos_from(a: Option<[i32; 2]>) -> (p: Option<Pos>)
    ensures
        p == spec_opt_pos_from(a),
{
    match a {
        Some(v) => Some(Pos::from_arr(v)),
        None => None,
    }
}

impl MeteoForecast {
    pub fn from_dto(dto: MeteoForecastDTO) -> (m: Self)
        ensures
            m == spec_meteo_from(dto),
    {
        Self {
            kind: dto.kind,
            turns_until: dto.turns_until,
            id: dto.id,
            forming: dto.forming,
            position: opt_pos_from(dto.position),
            next_position: opt_pos_from(dto.next_position),
            radius: dto.radius,
        }
    }
}

fn tiers_from(v: Vec<PlantationUpgradeTierItemDTO>) -> (r: Vec<UpgradeTier>)
    ensures
        r@ == v@.map_values(|d: PlantationUpgradeTierItemDTO| spec_tier_from(d)),
{
    let ghost src = v@;
    let mut out: Vec<UpgradeTier> = Vec::new();
    for d in it: v.into_iter()
        invariant
            it.seq() == src,
            out@.len() == it.index(),
            forall|k: int| 0 <= k < out@.len() ==> out@[k] == spec_tier_from(src[k]),
    {
        out.push(UpgradeTier::from_dto(d));
    }
    assert(out@ =~= src.map_values(|d: PlantationUpgradeTierItemDTO| spec_tier_from(d)));
    out
}

fn plantations_from(v: Vec<PlantationDTO>) -> (r: Vec<Plantation>)
    ensures
        r@ == v@.map_values(|d: PlantationDTO| spec_plantation_from(d)),
{
    let ghost src = v@;
    let mut out: Vec<Plantation> = Vec::new();
    for d in it: v.into_iter()
        invariant
            it.seq() == src,
            out@.len() == it.index(),
            forall|k: int| 0 <= k < out@.len() ==> out@[k] == spec_plantation_from(src[k]),
    {
        out.push(Plantation::from_dto(d));
    }
    assert(out@ =~= src.map_values(|d: PlantationDTO| spec_plantation_from(d)));
    out
}

fn enemies_from(v: Vec<EnemyPlantationDTO>) -> (r: Vec<EnemyPlantation>)
    ensures
        r@ == v@.map_values(|d: EnemyPlantationDTO| spec_enemy_from(d)),
{
    let ghost src = v@;
    let mut out: Vec<EnemyPlantation> = Vec::new();
    for d in it: v.into_iter()
        invariant
            it.seq() == src,
            out@.len() == it.index(),
            forall|k: int| 0 <= k < out@.len() ==> out@[k] == spec_enemy_from(src[k]),
    {
        out.push(EnemyPlantation::from_dto(d));
    }
    assert(out@ =~= src.map_values(|d: EnemyPlantationDTO| spec_enemy_from(d)));
    out
}

fn positions_from(v: Vec<[i32; 2]>) -> (r: Vec<Pos>)
    ensures
        r@ == v@.map_values(|d: [i32; 2]| spec_pos_from(d)),
{
    let ghost src = v@;
    let mut out: Vec<Pos> = Vec::new();
    for d in it: v.into_iter()
        invariant
            it.seq() == src,
            out@.len() == it.index(),
            forall|k: int| 0 <= k < out@.len() ==> out@[k] == spec_pos_from(src[k]),
    {
        out.push(Pos::from_arr(d));
    }
    assert(out@ =~= src.map_values(|d: [i32; 2]| spec_pos_from(d)));
    out
}

fn cells_from(v: Vec<TerraformedCellDTO>) -> (r: Vec<Cell>)
    ensures
        r@ == v@.map_values(|d: TerraformedCellDTO| spec_cell_from(d)),
{
    let ghost src = v@;
    let mut out: Vec<Cell> = Vec::new();
    for d in it: v.into_iter()
        invariant
            it.seq() == src,
            out@.len() == it.index(),
            forall|k: int| 0 <= k < out@.len() ==> out@[k] == spec_cell_from(src[k]),
    {
        out.push(Cell::from_dto(d));
    }
    assert(out@ =~= src.map_values(|d: TerraformedCellDTO| spec_cell_from(d)));
    out
}

fn constructions_from(v: Vec<ConstructionDTO>) -> (r: Vec<Construction>)
    ensures
        r@ == v@.map_values(|d: ConstructionDTO| spec_construction_from(d)),
{
    let ghost src = v@;
    let mut out: Vec<Construction> = Vec::new();
    for d in it: v.into_iter()
        invariant
            it.seq() == src,
            out@.len() == it.index(),
            forall|k: int| 0 <= k < out@.len() ==> out@[k] == spec_construction_from(src[k]),
    {
        out.push(Construction::from_dto(d));
    }
    assert(out@ =~= src.map_values(|d: ConstructionDTO| spec_construction_from(d)));
    out
}

fn beavers_from(v: Vec<PlayerBeaverDTO>) -> (r: Vec<Beaver>)
    ensures
        r@ == v@.map_values(|d: PlayerBeaverDTO| spec_beaver_from(d)),
{
    let ghost src = v@;
    let mut out: Vec<Beaver> = Vec::new();
    for d in it: v.into_iter()
        invariant
            it.seq() == src,
            out@.len() == it.index(),
            forall|k: int| 0 <= k < out@.len() ==> out@[k] == spec_beaver_from(src[k]),
    {
        out.push(Beaver::from_dto(d));
    }
    assert(out@ =~= src.map_values(|d: PlayerBeaverDTO| spec_beaver_from(d)));
    out
}

fn meteo_from(v: Vec<MeteoForecastDTO>) -> (r: Vec<MeteoForecast>)
    ensures
        r@ == v@.map_values(|d: MeteoForecastDTO| spec_meteo_from(d)),
{
    let ghost src = v@;
    let mut out: Vec<MeteoForecast> = Vec::new();
    for d in it: v.into_iter()
        invariant
            it.seq() == src,
            out@.len() == it.index(),
            forall|k: int| 0 <= k < out@.len() ==> out@[k] == spec_meteo_from(src[k]),
    {
        out.push(MeteoForecast::from_dto(d));
    }
    assert(out@ =~= src.map_values(|d: MeteoForecastDTO| spec_meteo_from(d)));
    out
}

impl UpgradesState {
    /// Missing values default to a 30-turn interval, 0 turns to wait and 15
    /// points at most.
    pub fn from_dto(dto: PlantationUpgradesState) -> (u: Self)
        ensures
            u.points == dto.points,
            u.interval_turns == (match dto.interval_turns { Some(v) => v, None => 30u32 }),
            u.turns_until_points == (match dto.turns_until_points { Some(v) => v, None => 0u32 }),
            u.max_points == (match dto.max_points { Some(v) => v, None => 15i32 }),
            u.tiers@ == dto.tiers@.map_values(|d: PlantationUpgradeTierItemDTO| spec_tier_from(d)),
    {
        Self {
            points: dto.points,
            interval_turns: match dto.interval_turns {
                Some(v) => v,
                None => 30,
            },
            turns_until_points: match dto.turns_until_points {
                Some(v) => v,
                None => 0,
            },
            max_points: match dto.max_points {
                Some(v) => v,
                None => 15,
            },
            tiers: tiers_from(dto.tiers),
        }
    }
}

impl Default for UpgradesState {
    fn default() -> (u: Self)
        ensures
            u.points == 0,
            u.interval_turns == 0,
            u.turns_until_points == 0,
            u.max_points == 0,
            u.tiers@.len() == 0,
    {
        Self { points: 0, interval_turns: 0, turns_until_points: 0, max_points: 0, tiers: Vec::new() }
    }
}

impl GameState {
    /// Normalizes an arena response; refused when the response carries no
    /// turn number (before registration).
    pub fn from_api(resp: PlayerResponse) -> (r: Result<Self, BotError>)
        ensures
            resp.turn_no is None <==> r is Err,
            r matches Err(e) ==> e is Config,
            r matches Ok(s) ==> {
                &&& s.turn_no == resp.turn_no->0
                &&& s.map_size == (match resp.size { Some(a) => (a[0], a[1]), None => (0i32, 0i32) })
                &&& s.action_range == (match resp.action_range { Some(v) => v, None => 2i32 })
                &&& s.plantations@ == resp.plantations@.map_values(|d: PlantationDTO| spec_plantation_from(d))
                &&& s.enemies@ == resp.enemy@.map_values(|d: EnemyPlantationDTO| spec_enemy_from(d))
                &&& s.mountains@ == resp.mountains@.map_values(|d: [i32; 2]| spec_pos_from(d))
                &&& s.cells@ == resp.cells@.map_values(|d: TerraformedCellDTO| spec_cell_from(d))
                &&& s.construction@ == resp.construction@.map_values(|d: ConstructionDTO| spec_construction_from(d))
                &&& s.beavers@ == resp.beavers@.map_values(|d: PlayerBeaverDTO| spec_beaver_from(d))
                &&& s.meteo@ == resp.meteo_forecasts@.map_values(|d: MeteoForecastDTO| spec_meteo_from(d))
                &&& match resp.plantation_upgrades {
                    Some(u) => {
                        &&& s.upgrades.points == u.points
                        &&& s.upgrades.interval_turns == (match u.interval_turns { Some(v) => v, None => 30u32 })
                        &&& s.upgrades.turns_until_points == (match u.turns_until_points { Some(v) => v, None => 0u32 })
                        &&& s.upgrades.max_points == (match u.max_points { Some(v) => v, None => 15i32 })
                        &&& s.upgrades.tiers@ == u.tiers@.map_values(|d: PlantationUpgradeTierItemDTO| spec_tier_from(d))
                    },
                    None => {
                        &&& s.upgrades.points == 0
                        &&& s.upgrades.interval_turns == 0
                        &&& s.upgrades.turns_until_points == 0
                        &&& s.upgrades.max_points == 0
                        &&& s.upgrades.tiers@.len() == 0
                    },
                }
            },
    {
        let turn_no = match resp.turn_no {
            Some(t) => t,
            None => {
                return Err(BotError::Config(String::from_str("arena response missing turnNo (not registered yet?)")));
            },
        };
        let map_size = match resp.size {
            Some(a) => (a[0], a[1]),
            None => (0, 0),
        };
        let action_range = match resp.action_range {
            Some(v) => v,
            None => 2,
        };
        let upgrades = match resp.plantation_upgrades {
            Some(u) => UpgradesState::from_dto(u),
            None => UpgradesState::default(),
        };
        Ok(Self {
            turn_no,
            map_size,
            action_range,
            plantations: plantations_from(resp.plantations),
            enemies: enemies_from(resp.enemy),
            mountains: positions_from(resp.mountains),
            cells: cells_from(resp.cells),
            construction: constructions_from(resp.construction),
            beavers: beavers_from(resp.beavers),
            upgrades,
            meteo: meteo_from(resp.meteo_forecasts),
        })
    }
}

pub open spec fn main_pred() -> spec_fn(Plantation) -> bool {
    |p: Plantation| p.is_main
}

pub open spec fn id_pred(id: Seq<char>) -> spec_fn(Plantation) -> bool {
    |p: Plantation| p.id@ == id
}

pub open spec fn plantation_pos_pred(pos: Pos) -> spec_fn(Plantation) -> bool {
    |p: Plantation| p.pos == pos
}

pub open spec fn cell_pos_pred(pos: Pos) -> spec_fn(Cell) -> bool {
    |c: Cell| c.pos == pos
}

pub open spec fn construction_pos_pred(pos: Pos) -> spec_fn(Construction) -> bool {
    |c: Construction| c.pos == pos
}

pub open spec fn controllable_pred() -> spec_fn(Plantation) -> bool {
    |p: Plantation| !p.is_isolated
}

pub open spec fn useful_pred(state: GameState, params: DerivedParams) -> spec_fn(Plantation) -> bool {
    |p: Plantation| !p.is_isolated && !spec_will_complete_this_turn(p, state, params)
}

/// `r` holds references to exactly the elements of `s`, in order.
pub open spec fn refs_of<T>(r: Seq<&T>, s: Seq<T>) -> bool {
    r.len() == s.len() && forall|k: int| 0 <= k < r.len() ==> *r[k] == s[k]
}

/// The element that a first-match search returns.
pub open spec fn found<T>(r: Option<&T>, s: Seq<T>, idx: Option<int>) -> bool {
    match idx {
        Some(i) => r matches Some(x) && *x == s[i],
        None => r is None,
    }
}

impl GameState {
    pub open spec fn spec_main_idx(self) -> Option<int> {
        first_where(self.plantations@, main_pred(), self.plantations@.len() as int)
    }

    pub open spec fn spec_cell_idx(self, pos: Pos) -> Option<int> {
        first_where(self.cells@, cell_pos_pred(pos), self.cells@.len() as int)
    }

    /// The main plantation (the first one flagged main).
    pub fn main(&self) -> (r: Option<&Plantation>)
        ensures
            found(r, self.plantations@, self.spec_main_idx()),
    {
        let n = self.plantations.len();
        let mut i: usize = 0;
        while i < n
            invariant
                n == self.plantations@.len(),
                i <= n,
                first_where(self.plantations@, main_pred(), i as int) is None,
            decreases n - i,
        {
            if self.plantations[i].is_main {
                proof {
                    assert(first_where(self.plantations@, main_pred(), i + 1) == Some(i as int));
                    lemma_first_where_stable(self.plantations@, main_pred(), i + 1, n as int);
                }
                return Some(&self.plantations[i]);
            }
            i = i + 1;
        }
        None
    }

    pub fn by_id(&self, id: &str) -> (r: Option<&Plantation>)
        ensures
            found(r, self.plantations@, first_where(self.plantations@, id_pred(id@), self.plantations@.len() as int)),
    {
        let n = self.plantations.len();
        let mut i: usize = 0;
        while i < n
            invariant
                n == self.plantations@.len(),
                i <= n,
                first_where(self.plantations@, id_pred(id@), i as int) is None,
            decreases n - i,
        {
            if str_eq(self.plantations[i].id.as_str(), id) {
                proof {
                    assert(first_where(self.plantations@, id_pred(id@), i + 1) == Some(i as int));
                    lemma_first_where_stable(self.plantations@, id_pred(id@), i + 1, n as int);
                }
                return Some(&self.plantations[i]);
            }
            i = i + 1;
        }
        None
    }

    pub fn plantation_at(&self, pos: Pos) -> (r: Option<&Plantation>)
        ensures
            found(r, self.plantations@, first_where(self.plantations@, plantation_pos_pred(pos), self.plantations@.len() as int)),
    {
        let n = self.plantations.len();
        let mut i: usize = 0;
        while i < n
            invariant
                n == self.plantations@.len(),
                i <= n,
                first_where(self.plantations@, plantation_pos_pred(pos), i as int) is None,
            decreases n - i,
        {
            if self.plantations[i].pos == pos {
                proof {
                    assert(first_where(self.plantations@, plantation_pos_pred(pos), i + 1) == Some(i as int));
                    lemma_first_where_stable(self.plantations@, plantation_pos_pred(pos), i + 1, n as int);
                }
                return Some(&self.plantations[i]);
            }
            i = i + 1;
        }
        None
    }

    pub fn cell_at(&self, pos: Pos) -> (r: Option<&Cell>)
        ensures
            found(r, self.cells@, self.spec_cell_idx(pos)),
    {
        let n = self.cells.len();
        let mut i: usize = 0;
        while i < n
            invariant
                n == self.cells@.len(),
                i <= n,
                first_where(self.cells@, cell_pos_pred(pos), i as int) is None,
            decreases n - i,
        {
            if self.cells[i].pos == pos {
                proof {
                    assert(first_where(self.cells@, cell_pos_pred(pos), i + 1) == Some(i as int));
                    lemma_first_where_stable(self.cells@, cell_pos_pred(pos), i + 1, n as int);
                }
                return Some(&self.cells[i]);
            }
            i = i + 1;
        }
        None
    }

    pub fn construction_at(&self, pos: Pos) -> (r: Option<&Construction>)
        ensures
            found(r, self.construction@, first_where(self.construction@, construction_pos_pred(pos), self.construction@.len() as int)),
    {
        let n = self.construction.len();
        let mut i: usize = 0;
        while i < n
            invariant
                n == self.construction@.len(),
                i <= n,
                first_where(self.construction@, construction_pos_pred(pos), i as int) is None,
            decreases n - i,
        {
            if self.construction[i].pos == pos {
                proof {
                    assert(first_where(self.construction@, construction_pos_pred(pos), i + 1) == Some(i as int));
                    lemma_first_where_stable(self.construction@, construction_pos_pred(pos), i + 1, n as int);
                }
                return Some(&self.construction[i]);
            }
            i = i + 1;
        }
        None
    }

    /// The plantations that are connected to the network (not isolated).
    pub fn controllable(&self) -> (r: Vec<&Plantation>)
        ensures
            refs_of(r@, filter_upto(self.plantations@, controllable_pred(), self.plantations@.len() as int)),
    {
        let n = self.plantations.len();
        let mut out: Vec<&Plantation> = Vec::new();
        let mut i: usize = 0;
        while i < n
            invariant
                n == self.plantations@.len(),
                i <= n,
                refs_of(out@, filter_upto(self.plantations@, controllable_pred(), i as int)),
            decreases n - i,
        {
            if !self.plantations[i].is_isolated {
                out.push(&self.plantations[i]);
            }
            i = i + 1;
        }
        out
    }

    /// Controllable plantations that will not vanish at the end of this turn
    /// (their cell does not reach 100% now): safe authors of new tasks.
    pub fn useful_authors<'a>(&'a self, params: &'a DerivedParams) -> (r: Vec<&'a Plantation>)
        ensures
            refs_of(r@, filter_upto(self.plantations@, useful_pred(*self, *params), self.plantations@.len() as int)),
    {
        let n = self.plantations.len();
        let mut out: Vec<&Plantation> = Vec::new();
        let mut i: usize = 0;
        while i < n
            invariant
                n == self.plantations@.len(),
                i <= n,
                refs_of(out@, filter_upto(self.plantations@, useful_pred(*self, *params), i as int)),
            decreases n - i,
        {
            let p = &self.plantations[i];
            if !p.is_isolated && !will_complete_this_turn(p, self, params) {
                out.push(p);
            }
            i = i + 1;
        }
        out
    }
}

} // verus!
