use vstd::prelude::*;
use crate::text::str_eq;

verus! {

/// The role a workflow step plays in a turn.
#[derive(Clone, Copy, Debug, PartialEq, Eq, Structural)]
pub enum RoleHandler {
    Dispatch,
    CommandParser,
    StateReader,
    Aggregation,
    Planner,
    MenuIntentClarifier,
    DialogueGrounder,
    ActorDialogue,
    Reducer,
    Narrator,
}

/// The role named by a workflow's text, if the text names one.
pub open spec fn role_named(value: Seq<char>) -> Option<RoleHandler> {
    if value == "dispatch"@ {
        Some(RoleHandler::Dispatch)
    } else if value == "command_parser"@ {
        Some(RoleHandler::CommandParser)
    } else if value == "state_reader"@ {
        Some(RoleHandler::StateReader)
    } else if value == "aggregation"@ {
        Some(RoleHandler::Aggregation)
    } else if value == "planner"@ {
        Some(RoleHandler::Planner)
    } else if value == "menu_intent_clarifier"@ {
        Some(RoleHandler::MenuIntentClarifier)
    } else if value == "dialogue_grounder"@ {
        Some(RoleHandler::DialogueGrounder)
    } else if value == "actor_dialogue"@ {
        Some(RoleHandler::ActorDialogue)
    } else if value == "reducer"@ {
        Some(RoleHandler::Reducer)
    } else if value == "narrator"@ {
        Some(RoleHandler::Narrator)
    } else {
        None
    }
}

impl RoleHandler {
    pub fn parse(value: &str) -> (r: Option<Self>)
        ensures
            r == role_named(value@),
    {
        if str_eq(value, "dispatch") {
            Some(RoleHandler::Dispatch)
        } else if str_eq(value, "command_parser") {
            Some(RoleHandler::CommandParser)
        } else if str_eq(value, "state_reader") {
            Some(RoleHandler::StateReader)
        } else if str_eq(value, "aggregation") {
            Some(RoleHandler::Aggregation)
        } else if str_eq(value, "planner") {
            Some(RoleHandler::Planner)
        } else if str_eq(value, "menu_intent_clarifier") {
            Some(RoleHandler::MenuIntentClarifier)
        } else if str_eq(value, "dialogue_grounder") {
            Some(RoleHandler::DialogueGrounder)
        } else if str_eq(value, "actor_dialogue") {
            Some(RoleHandler::ActorDialogue)
        } else if str_eq(value, "reducer") {
            Some(RoleHandler::Reducer)
        } else if str_eq(value, "narrator") {
            Some(RoleHandler::Narrator)
        } else {
            None
        }
    }
}

} // verus!
