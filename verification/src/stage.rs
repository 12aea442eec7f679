//! How far a chunk has come on its way into the world.

use std::cmp::Ordering;
use vstd::prelude::*;
use vstd::std_specs::cmp::PartialOrdSpecImpl;

verus! {

/// The stage of a chunk. A chunk that the world does not hold is
/// `Absent`; once its blocks are known it is `Loaded`; once its visible faces
/// have been derived as well it is `Meshed`. The stages are ordered in that
/// sequence.
#[derive(Debug, Clone, Copy, PartialEq, Eq, Structural, Hash, Ord)]
pub enum ChunkStage {
    Absent,
    Loaded,
    Meshed,
}

impl ChunkStage {
    /// Position of the stage in the sequence, from 0.
    pub open spec fn rank(self) -> int {
        match self {
            ChunkStage::Absent => 0,
            ChunkStage::Loaded => 1,
            ChunkStage::Meshed => 2,
        }
    }

    /// True if this stage is `other` or comes after it.
    pub open spec fn at_least(self, other: ChunkStage) -> bool {
        self.rank() >= other.rank()
    }

    /// The stage just before this one, if there is one.
    pub open spec fn before(self) -> Option<ChunkStage> {
        match self {
            ChunkStage::Absent => None,
            ChunkStage::Loaded => Some(ChunkStage::Absent),
            ChunkStage::Meshed => Some(ChunkStage::Loaded),
        }
    }

    /// Returns the stage just before this one; the first stage has none.
    pub fn previous(self) -> (r: Option<Self>)
        ensures
            r == self.before(),
            r matches Some(p) ==> p.rank() == self.rank() - 1,
            r is None <==> self == ChunkStage::Absent,
    {
        match self {
            Self::Absent => None,
            Self::Loaded => Some(Self::Absent),
            Self::Meshed => Some(Self::Loaded),
        }
    }

    /// Returns the position of the stage in the sequence, from 0.
    pub fn level(self) -> (r: u8)
        ensures
            r == self.rank(),
    {
        match self {
            Self::Absent => 0,
            Self::Loaded => 1,
            Self::Meshed => 2,
        }
    }

    /// The order of the stages is total: of two different stages one comes
    /// first, and the order carries over from one pair to the next.
    pub proof fn lemma_order_total(self, second: ChunkStage, third: ChunkStage)
        ensures
            self.at_least(second) || second.at_least(self),
            self.at_least(second) && second.at_least(self) ==> self == second,
            self.at_least(second) && second.at_least(third) ==> self.at_least(third),
            self.at_least(ChunkStage::Absent),
            ChunkStage::Meshed.at_least(self),
    {
    }
}

impl PartialOrd for ChunkStage {
    /// Compares two stages by their position in the sequence.
    fn partial_cmp(&self, other: &Self) -> (r: Option<Ordering>) {
        let mine = self.level();
        let theirs = other.level();
        if mine < theirs {
            Some(Ordering::Less)
        } else if mine > theirs {
            Some(Ordering::Greater)
        } else {
            Some(Ordering::Equal)
        }
    }
}

impl PartialOrdSpecImpl for ChunkStage {
    open spec fn obeys_partial_cmp_spec() -> bool {
        true
    }

    open spec fn partial_cmp_spec(&self, other: &Self) -> Option<Ordering> {
        if self.rank() < other.rank() {
            Some(Ordering::Less)
        } else if self.rank() > other.rank() {
            Some(Ordering::Greater)
        } else {
            Some(Ordering::Equal)
        }
    }
}

} // verus!
