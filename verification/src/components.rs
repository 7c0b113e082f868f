//! Data attached to entities.

use vstd::prelude::*;
use crate::geom::Vec2i;

verus! {

/// Current and maximum hit points.  Death is `current <= 0`; the current
/// value may go below zero within a tick before death resolution runs.
#[derive(Clone, Copy, PartialEq, Eq, Structural, Debug)]
pub struct Health {
    pub current: i64,
    pub max: i64,
}

impl Health {
    pub open spec fn wf(self) -> bool {
        self.current <= self.max
    }

    pub open spec fn spec_dead(self) -> bool {
        self.current <= 0
    }

    pub open spec fn spec_full(max: i64) -> Health {
        Health { current: max, max }
    }

    pub fn full(max: i64) -> (h: Health)
        ensures
            h == Health::spec_full(max),
    {
        Health { current: max, max }
    }

    /// One point of damage.  The decrement saturates at the bottom of the
    /// machine range, which normal play never reaches.
    pub open spec fn spec_damaged(self) -> Health {
        if self.current > i64::MIN {
            Health { current: (self.current - 1) as i64, ..self }
        } else {
            self
        }
    }

    pub fn damaged(self) -> (h: Health)
        ensures
            h == self.spec_damaged(),
            self.wf() ==> h.wf(),
    {
        if self.current > i64::MIN {
            Health { current: self.current - 1, ..self }
        } else {
            self
        }
    }
}

/// Transient forced displacement: while present the entity's velocity is
/// the knockback vector, and normal steering is suppressed.
#[derive(Clone, Copy, PartialEq, Eq, Structural, Debug)]
pub struct Knockback {
    /// Per-tick displacement forced on the entity.
    pub velocity: Vec2i,
    /// Position of the entity at the moment the knockback started.
    pub start_position: Vec2i,
    /// Displacement from the start at which the knockback ends.
    pub distance: i64,
}

} // verus!
