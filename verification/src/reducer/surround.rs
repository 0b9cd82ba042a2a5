use vstd::prelude::*;
use crate::content::{ContentPack, SurroundRule};
use crate::state::WorldState;
use crate::state::stats::bonus_sum;

verus! {

pub open spec fn nonneg(x: int) -> int {
    if x < 0 { 0 } else { x }
}

/// Whether the pack's surround rule lets an encircled actor convert. With
/// no rule every candidate converts; with a resistance rule the player must
/// out-score the target on the configured stat: the player's effective
/// stat plus level must reach the target's stat plus twice its level,
/// negative stats counting as zero.
pub open spec fn spec_surround_rule_passes(content: &ContentPack, state: &WorldState, target_actor_id: Seq<char>) -> bool {
    match content.settings.surround_rule {
        SurroundRule::Unrestricted => true,
        SurroundRule::Resistance { stat } => {
            let player = content.settings.combat.player_actor_id@;
            nonneg(state.spec_effective_actor_stat(content, player, stat@)) + state.spec_actor_level(player)
                >= nonneg(state.spec_actor_stat(target_actor_id, stat@)) + 2 * state.spec_actor_level(target_actor_id)
        },
    }
}

pub fn surround_rule_passes(state: &WorldState, content: &ContentPack, target_actor_id: &str) -> (r: bool)
    requires
        state.wf(),
        content.wf(),
        content.settings.surround_rule matches SurroundRule::Resistance { stat } ==> {
            let player = content.settings.combat.player_actor_id@;
            &&& forall|n: int| 0 <= n <= state.equipped_ids().len() ==> i32::MIN <= #[trigger] bonus_sum(content, state.equipped_ids(), stat@, n) <= i32::MAX
            &&& i32::MIN <= state.spec_effective_actor_stat(content, player, stat@) <= i32::MAX
            &&& nonneg(state.spec_effective_actor_stat(content, player, stat@)) + state.spec_actor_level(player) <= u32::MAX
            &&& 2 * state.spec_actor_level(target_actor_id@) <= u32::MAX
            &&& nonneg(state.spec_actor_stat(target_actor_id@, stat@)) + 2 * state.spec_actor_level(target_actor_id@) <= u32::MAX
        },
    ensures
        r == spec_surround_rule_passes(content, state, target_actor_id@),
{
    let stat = match &content.settings.surround_rule {
        SurroundRule::Resistance { stat } => stat.as_str(),
        SurroundRule::Unrestricted => return true,
    };
    let player_id = content.settings.combat.player_actor_id.as_str();
    let player_value = state.effective_actor_stat(content, player_id, stat);
    let player_stat: u32 = if player_value < 0 { 0 } else { player_value as u32 };
    let player_level = state.actor_level(player_id);
    let target_value = state.actor_stat(target_actor_id, stat);
    let target_stat: u32 = if target_value < 0 { 0 } else { target_value as u32 };
    let target_level = state.actor_level(target_actor_id);
    player_stat + player_level >= target_stat + 2 * target_level
}

} // verus!
