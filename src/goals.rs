use vstd::prelude::*;

verus! {

/// What an agent may be driven by.
#[derive(Debug, Clone, Copy, PartialEq, Eq, Structural)]
pub enum UrgeType {
    Hunger,
    Thirst,
    Tiredness,
    Safety,
    PersonalWealth,
    FactionLoyalty,
    SocialConnection,
    Curiosity,
    Revenge,
    Comfort,
}

/// A goal handed to the planner: a condition to make true.
#[derive(Debug, Clone, PartialEq, Eq, Hash)]
pub struct Goal {
    pub condition: String,
}

impl Goal {
    pub fn new(condition: &str) -> (g: Goal)
        ensures
            g.condition@ == condition@,
    {
        Goal { condition: condition.to_string() }
    }
}

} // verus!
