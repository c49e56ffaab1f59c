//! Frags: fights between the commander and another player, in which one of
//! them destroyed the other.

use vstd::prelude::*;
use crate::ship::Ship;
use crate::time::Timestamp;

verus! {

/// One side of a fight: the commander who wrote the journal, or another
/// player by name.
#[derive(Debug, PartialEq, Eq)]
pub enum Target {
    You,
    Player(String),
}

/// A side of a fight with the player's name as text.
pub enum TargetView {
    You,
    Player(Seq<char>),
}

impl View for Target {
    type V = TargetView;

    open spec fn view(&self) -> TargetView {
        match self {
            Target::You => TargetView::You,
            Target::Player(name) => TargetView::Player(name@),
        }
    }
}

impl Clone for Target {
    fn clone(&self) -> (res: Self)
        ensures
            res == *self,
    {
        match self {
            Target::You => Target::You,
            Target::Player(name) => Target::Player(name.clone()),
        }
    }
}

/// A fight that ended with a destruction: when it happened, who killed whom,
/// in which star system and in which ship of the commander, where known.
#[derive(Debug, PartialEq, Eq)]
pub struct Frag {
    pub timestamp: Timestamp,
    pub killer: Target,
    pub victim: Target,
    pub star_system: Option<String>,
    pub ship: Option<Ship>,
}

/// A frag with the players' names as text.
pub struct FragView {
    pub timestamp: Timestamp,
    pub killer: TargetView,
    pub victim: TargetView,
    pub star_system: Option<String>,
    pub ship: Option<Ship>,
}

impl View for Frag {
    type V = FragView;

    open spec fn view(&self) -> FragView {
        FragView {
            timestamp: self.timestamp,
            killer: self.killer@,
            victim: self.victim@,
            star_system: self.star_system,
            ship: self.ship,
        }
    }
}

impl FragView {
    /// A frag is a kill when the commander is not its victim.
    pub open spec fn is_kill(self) -> bool {
        !(self.victim is You)
    }
}

impl Clone for Frag {
    fn clone(&self) -> (res: Self)
        ensures
            res == *self,
    {
        Frag {
            timestamp: self.timestamp,
            killer: self.killer.clone(),
            victim: self.victim.clone(),
            star_system: self.star_system.clone(),
            ship: self.ship.clone(),
        }
    }
}

impl Frag {
    /// A frag is a kill when the commander is not its victim.
    pub open spec fn spec_is_kill(self) -> bool {
        !(self.victim is You)
    }

    /// Whether the commander won this fight.
    pub fn is_kill(&self) -> (res: bool)
        ensures
            res == self.spec_is_kill(),
    {
        match self.victim {
            Target::You => false,
            Target::Player(_) => true,
        }
    }

    /// The frag in which `player` destroyed the commander.
    pub fn death(
        timestamp: Timestamp,
        star_system: Option<String>,
        ship: Option<Ship>,
        player: String,
    ) -> (frag: Frag)
        ensures
            frag == (Frag {
                timestamp,
                star_system,
                ship,
                killer: Target::Player(player),
                victim: Target::You,
            }),
            !frag.spec_is_kill(),
    {
        Frag { timestamp, star_system, ship, killer: Target::Player(player), victim: Target::You }
    }

    /// The frag in which the commander destroyed `player`.
    pub fn kill(
        timestamp: Timestamp,
        star_system: Option<String>,
        ship: Option<Ship>,
        player: String,
    ) -> (frag: Frag)
        ensures
            frag == (Frag {
                timestamp,
                star_system,
                ship,
                killer: Target::You,
                victim: Target::Player(player),
            }),
            frag.spec_is_kill(),
    {
        Frag { timestamp, star_system, ship, killer: Target::You, victim: Target::Player(player) }
    }
}

} // verus!
