use vstd::prelude::*;

use crate::model::memory::{has_construction_at, has_plantation_at};
use crate::model::state::{Beaver, Construction, EnemyPlantation, Plantation, Pos};

verus! {

pub open spec fn has_beaver_at(bs: Seq<Beaver>, p: Pos) -> bool {
    exists|i: int| 0 <= i < bs.len() && (#[trigger] bs[i]).pos == p
}

pub open spec fn has_enemy_at(es: Seq<EnemyPlantation>, p: Pos) -> bool {
    exists|i: int| 0 <= i < es.len() && (#[trigger] es[i]).pos == p
}

pub fn plantation_at_pos(ps: &Vec<Plantation>, p: Pos) -> (b: bool)
    ensures
        b == has_plantation_at(ps@, p),
{
    let mut i: usize = 0;
    while i < ps.len()
        invariant
            i <= ps@.len(),
            forall|j: int| 0 <= j < i ==> (#[trigger] ps@[j]).pos != p,
        decreases ps.len() - i,
    {
        if ps[i].pos == p {
            return true;
        }
        i = i + 1;
    }
    false
}

pub fn construction_at_pos(cs: &Vec<Construction>, p: Pos) -> (b: bool)
    ensures
        b == has_construction_at(cs@, p),
{
    let mut i: usize = 0;
    while i < cs.len()
        invariant
            i <= cs@.len(),
            forall|j: int| 0 <= j < i ==> (#[trigger] cs@[j]).pos != p,
        decreases cs.len() - i,
    {
        if cs[i].pos == p {
            return true;
        }
        i = i + 1;
    }
    false
}

pub fn beaver_at_pos(bs: &Vec<Beaver>, p: Pos) -> (b: bool)
    ensures
        b == has_beaver_at(bs@, p),
{
    let mut i: usize = 0;
    while i < bs.len()
        invariant
            i <= bs@.len(),
            forall|j: int| 0 <= j < i ==> (#[trigger] bs@[j]).pos != p,
        decreases bs.len() - i,
    {
        if bs[i].pos == p {
            return true;
        }
        i = i + 1;
    }
    false
}

pub fn enemy_at_pos(es: &Vec<EnemyPlantation>, p: Pos) -> (b: bool)
    ensures
        b == has_enemy_at(es@, p),
{
    let mut i: usize = 0;
    while i < es.len()
        invariant
            i <= es@.len(),
            forall|j: int| 0 <= j < i ==> (#[trigger] es@[j]).pos != p,
        decreases es.len() - i,
    {
        if es[i].pos == p {
            return true;
        }
        i = i + 1;
    }
    false
}

pub fn pos_listed(ms: &Vec<Pos>, p: Pos) -> (b: bool)
    ensures
        b == ms@.contains(p),
{
    let mut i: usize = 0;
    while i < ms.len()
        invariant
            i <= ms@.len(),
            forall|j: int| 0 <= j < i ==> ms@[j] != p,
        decreases ms.len() - i,
    {
        if ms[i] == p {
            assert(ms@[i as int] == p);
            return true;
        }
        i = i + 1;
    }
    false
}

} // verus!
