//! What the client reports of a running champion select.

use vstd::prelude::*;

verus! {

/// One player of the local player's team.
#[derive(Clone, Copy, Debug, PartialEq, Eq, Structural)]
pub struct TeamMember {
    pub cell_id: i64,
    /// The champion that the player has locked in; zero or less before that.
    pub champion_id: i64,
}

/// A snapshot of champion select.
#[derive(Clone, Debug, PartialEq, Eq)]
pub struct ChampSelectSession {
    pub local_player_cell_id: i64,
    pub my_team: Vec<TeamMember>,
}

/// The first member of `team` that sits in `cell`.
pub open spec fn member_in_cell(team: Seq<TeamMember>, cell: i64) -> Option<TeamMember>
    decreases team.len(),
{
    if team.len() == 0 {
        None
    } else if team[0].cell_id == cell {
        Some(team[0])
    } else {
        member_in_cell(team.skip(1), cell)
    }
}

impl ChampSelectSession {
    /// The champion that the local player has locked in, if any.
    pub open spec fn locked(&self) -> Option<i64> {
        match member_in_cell(self.my_team@, self.local_player_cell_id) {
            Some(me) => if me.champion_id > 0 {
                Some(me.champion_id)
            } else {
                None
            },
            None => None,
        }
    }

    /// The champion that the local player has locked in: the champion id
    /// of the first team member in the local player's cell, if it is above
    /// zero.
    pub fn locked_champion(&self) -> (r: Option<i64>)
        ensures
            r == self.locked(),
    {
        let mut k: usize = 0;
        assert(self.my_team@.skip(0) =~= self.my_team@);
        while k < self.my_team.len()
            invariant
                k <= self.my_team.len(),
                member_in_cell(self.my_team@, self.local_player_cell_id) == member_in_cell(
                    self.my_team@.skip(k as int),
                    self.local_player_cell_id,
                ),
            decreases self.my_team.len() - k,
        {
            let member = self.my_team[k];
            assert(self.my_team@.skip(k as int)[0] == member);
            if member.cell_id == self.local_player_cell_id {
                if member.champion_id > 0 {
                    return Some(member.champion_id);
                } else {
                    return None;
                }
            }
            assert(self.my_team@.skip(k as int).skip(1) =~= self.my_team@.skip(k + 1));
            k = k + 1;
        }
        None
    }
}

} // verus!
