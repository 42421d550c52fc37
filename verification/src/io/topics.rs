//! Topics: the addresses under which messages travel.
use vstd::prelude::*;

pub mod component_topic;
pub mod lifecycle_topic;

verus! {

/// The error for a topic that was asked for its team before one was set.
#[derive(Clone, Copy, Debug, Eq, PartialEq, Structural)]
pub struct NoTeamIdSet;

/// What every topic offers: it belongs to a team, which can be set.
pub trait Topic: Sized {
    /// The team of the topic, as far as one is set.
    spec fn team(&self) -> Option<i32>;

    /// The team of the topic; an error where none is set.
    fn team_id(&self) -> (team: Result<i32, NoTeamIdSet>)
        ensures
            team == match self.team() {
                Some(t) => Ok::<i32, NoTeamIdSet>(t),
                None => Err::<i32, NoTeamIdSet>(NoTeamIdSet),
            },
    ;

    /// Sets the team of the topic.
    fn set_team_id(&mut self, team_id: i32)
        ensures
            final(self).team() == Some(team_id),
    ;
}

} // verus!
