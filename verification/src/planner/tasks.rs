use vstd::prelude::*;

use crate::api::dto::{PlantationActionDTO, PlayerDTO};
use crate::config::Config;
use crate::model::params::DerivedParams;
use crate::model::state::Pos;

verus! {

/// What a task does to its target.
#[derive(Debug, Clone)]
pub enum TaskKind {
    Build,
    Repair { target_id: String },
    Sabotage { target_id: String },
    BeaverAttack { target_id: String },
}

pub open spec fn spec_base_stat(kind: TaskKind, params: DerivedParams) -> i32 {
    match kind {
        TaskKind::Build => params.cs,
        TaskKind::Repair { .. } => params.rs,
        TaskKind::Sabotage { .. } => params.se,
        TaskKind::BeaverAttack { .. } => params.be,
    }
}

impl TaskKind {
    /// Effect of one command of this kind: construction, repair, sabotage or
    /// beaver-elimination speed.
    pub fn base_stat(&self, params: &DerivedParams) -> (v: i32)
        ensures
            v == spec_base_stat(*self, *params),
    {
        match self {
            TaskKind::Build => params.cs,
            TaskKind::Repair { .. } => params.rs,
            TaskKind::Sabotage { .. } => params.se,
            TaskKind::BeaverAttack { .. } => params.be,
        }
    }

    /// A copy of this kind.
    pub fn copied(&self) -> (k: TaskKind)
        ensures
            k == *self,
    {
        match self {
            TaskKind::Build => TaskKind::Build,
            TaskKind::Repair { target_id } => TaskKind::Repair { target_id: target_id.clone() },
            TaskKind::Sabotage { target_id } => TaskKind::Sabotage { target_id: target_id.clone() },
            TaskKind::BeaverAttack { target_id } => TaskKind::BeaverAttack { target_id: target_id.clone() },
        }
    }
}

/// The name of a task kind in the turn logs.
pub fn kind_name(k: &TaskKind) -> (s: &'static str)
    ensures
        s@ == (match *k {
            TaskKind::Build => "build"@,
            TaskKind::Repair { .. } => "repair"@,
            TaskKind::Sabotage { .. } => "sabotage"@,
            TaskKind::BeaverAttack { .. } => "beaver_attack"@,
        }),
{
    match k {
        TaskKind::Build => "build",
        TaskKind::Repair { .. } => "repair",
        TaskKind::Sabotage { .. } => "sabotage",
        TaskKind::BeaverAttack { .. } => "beaver_attack",
    }
}

/// A task as the assignment reads it: what to do, and where. The planner
/// hands the tasks over in priority order.
#[derive(Debug, Clone)]
pub struct TaskSpot {
    pub kind: TaskKind,
    pub target: Pos,
}

/// A command for one plantation: `[author, relay, target]`.
#[derive(Debug, Clone)]
pub struct Assignment {
    pub author_id: String,
    pub author_pos: Pos,
    pub relay_pos: Pos,
    pub target_pos: Pos,
    pub kind: TaskKind,
    pub expected_effect: i32,
}

#[derive(Debug, Clone, Copy, PartialEq, Eq, Structural)]
pub enum Phase {
    Early,
    Growth,
    Harvest,
    Endgame,
}

pub open spec fn spec_phase(turn: u32, cfg: Config) -> Phase {
    if turn < cfg.phases.early_end {
        Phase::Early
    } else if turn < cfg.phases.growth_end {
        Phase::Growth
    } else if turn < cfg.phases.harvest_end {
        Phase::Harvest
    } else {
        Phase::Endgame
    }
}

impl Phase {
    pub fn from_turn(turn: u32, cfg: &Config) -> (p: Self)
        ensures
            p == spec_phase(turn, *cfg),
    {
        if turn < cfg.phases.early_end {
            Phase::Early
        } else if turn < cfg.phases.growth_end {
            Phase::Growth
        } else if turn < cfg.phases.harvest_end {
            Phase::Harvest
        } else {
            Phase::Endgame
        }
    }
}

/// Everything decided for one turn.
#[derive(Debug, Clone)]
pub struct TurnPlan {
    pub assignments: Vec<Assignment>,
    pub upgrade: Option<String>,
    pub relocate_main: Option<Vec<Pos>>,
}

pub open spec fn is_arr_of(a: [i32; 2], p: Pos) -> bool {
    a@ == seq![p.x, p.y]
}

impl Default for TurnPlan {
    fn default() -> (p: Self)
        ensures
            p.assignments@.len() == 0,
            p.upgrade is None,
            p.relocate_main is None,
    {
        TurnPlan { assignments: Vec::new(), upgrade: None, relocate_main: None }
    }
}

impl TurnPlan {
    /// The command body: one `[author, relay, target]` path per assignment,
    /// the upgrade name (empty when none) and the relocation cells.
    pub fn into_player_dto(self) -> (dto: PlayerDTO)
        ensures
            dto.command@.len() == self.assignments@.len(),
            forall|k: int| 0 <= k < dto.command@.len() ==> {
                let path = (#[trigger] dto.command@[k]).path@;
                let a = self.assignments@[k];
                &&& path.len() == 3
                &&& is_arr_of(path[0], a.author_pos)
                &&& is_arr_of(path[1], a.relay_pos)
                &&& is_arr_of(path[2], a.target_pos)
            },
            dto.plantation_upgrade@ == (match self.upgrade {
                Some(u) => u@,
                None => Seq::<char>::empty(),
            }),
            match self.relocate_main {
                Some(v) => dto.relocate_main@.len() == v@.len() && forall|k: int|
                    0 <= k < v@.len() ==> is_arr_of(#[trigger] dto.relocate_main@[k], v@[k]),
                None => dto.relocate_main@.len() == 0,
            },
    {
        let ghost asg = self.assignments@;
        let mut command: Vec<PlantationActionDTO> = Vec::new();
        for a in it: self.assignments.into_iter()
            invariant
                it.seq() == asg,
                command@.len() == it.index(),
                forall|k: int| 0 <= k < command@.len() ==> {
                    let path = (#[trigger] command@[k]).path@;
                    &&& path.len() == 3
                    &&& is_arr_of(path[0], asg[k].author_pos)
                    &&& is_arr_of(path[1], asg[k].relay_pos)
                    &&& is_arr_of(path[2], asg[k].target_pos)
                },
        {
            let path = vec![a.author_pos.to_arr(), a.relay_pos.to_arr(), a.target_pos.to_arr()];
            command.push(PlantationActionDTO { path });
        }
        let plantation_upgrade = match self.upgrade {
            Some(u) => u,
            None => String::new(),
        };
        let relocate_main = match self.relocate_main {
            Some(v) => {
                let mut out: Vec<[i32; 2]> = Vec::new();
                let mut i: usize = 0;
                while i < v.len()
                    invariant
                        i <= v@.len(),
                        out@.len() == i,
                        forall|k: int| 0 <= k < i ==> is_arr_of(#[trigger] out@[k], v@[k]),
                    decreases v.len() - i,
                {
                    out.push(v[i].to_arr());
                    i = i + 1;
                }
                out
            },
            None => Vec::new(),
        };
        PlayerDTO { command, plantation_upgrade, relocate_main }
    }

    pub fn is_empty(&self) -> (b: bool)
        ensures
            b == (self.assignments@.len() == 0 && self.upgrade is None && self.relocate_main is None),
    {
        self.assignments.len() == 0 && self.upgrade.is_none() && self.relocate_main.is_none()
    }
}

} // verus!
