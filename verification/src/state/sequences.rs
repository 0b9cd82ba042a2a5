use vstd::prelude::*;
use super::WorldState;
use crate::text::string_of;

verus! {

/// Where a scripted sequence's playback stands.
#[derive(Clone, Copy, Debug, PartialEq, Eq, Structural)]
pub struct ScriptedSequencePlayhead {
    /// The next step index into the sequence's steps.
    pub next_step: usize,
    /// Whether playback has run out of steps.
    pub finished: bool,
    /// Whether the sequence is advancing one line per turn.
    pub running: bool,
}

impl ScriptedSequencePlayhead {
    /// A playhead at the start of its sequence, running.
    pub fn queued() -> (r: Self)
        ensures
            r == (ScriptedSequencePlayhead { next_step: 0, finished: false, running: true }),
    {
        ScriptedSequencePlayhead { next_step: 0, finished: false, running: true }
    }

    /// Moves to `next_step`; a finished sequence stops running.
    pub fn advance_to(&mut self, next_step: usize, finished: bool)
        ensures
            final(self).next_step == next_step,
            final(self).finished == finished,
            final(self).running == (old(self).running && !finished),
    {
        self.next_step = next_step;
        self.finished = finished;
        if finished {
            self.running = false;
        }
    }
}

impl Default for ScriptedSequencePlayhead {
    fn default() -> (r: Self)
        ensures
            r == (ScriptedSequencePlayhead { next_step: 0, finished: false, running: false }),
    {
        ScriptedSequencePlayhead { next_step: 0, finished: false, running: false }
    }
}

impl WorldState {
    /// Queues a known scripted sequence to play from its start; an unknown id
    /// is refused.
    pub fn queue_scripted_sequence(&mut self, sequence_id: &str) -> (r: Result<(), String>)
        requires
            old(self).wf(),
        ensures
            final(self).wf(),
            r is Ok == old(self).scripted_sequences@.dom().contains(sequence_id@),
            r is Ok ==> final(self).scripted_sequences@ == old(self).scripted_sequences@.insert(
                sequence_id@, ScriptedSequencePlayhead { next_step: 0, finished: false, running: true }),
            r is Err ==> final(self).scripted_sequences@ == old(self).scripted_sequences@,
            r matches Err(e) ==> e@ == seq!['u','n','k','n','o','w','n',' ','s','c','r','i','p','t','e','d',' ','s','e','q','u','e','n','c','e',' ','\''] + sequence_id@ + seq!['\''],
            r is Err ==> *final(self) == *old(self),
            r is Ok ==> *final(self) == (WorldState { scripted_sequences: final(self).scripted_sequences, ..*old(self) }),
    {
        if !self.scripted_sequences.contains_str(sequence_id) {
            let mut msg: Vec<char> = vec!['u','n','k','n','o','w','n',' ','s','c','r','i','p','t','e','d',' ','s','e','q','u','e','n','c','e',' ','\''];
            crate::text::append_chars(&mut msg, &crate::text::chars_of(sequence_id));
            msg.push('\'');
            return Err(crate::text::string_from_chars(&msg));
        }
        self.scripted_sequences.insert_str(sequence_id, ScriptedSequencePlayhead::queued());
        Ok(())
    }

    pub fn scripted_sequence_playhead(&self, sequence_id: &str) -> (r: Option<&ScriptedSequencePlayhead>)
        requires
            self.wf(),
        ensures
            r == (if self.scripted_sequences@.dom().contains(sequence_id@) { Some(&self.scripted_sequences@[sequence_id@]) } else { None::<&ScriptedSequencePlayhead> }),
    {
        self.scripted_sequences.get_str(sequence_id)
    }

    /// Commits a played step of a known sequence; unknown ids are ignored.
    pub fn apply_scripted_sequence_progress(&mut self, sequence_id: &str, next_step: usize, finished: bool)
        requires
            old(self).wf(),
        ensures
            final(self).wf(),
            old(self).scripted_sequences@.dom().contains(sequence_id@) ==> final(self).scripted_sequences@
                == old(self).scripted_sequences@.insert(sequence_id@, ScriptedSequencePlayhead {
                    next_step: next_step,
                    finished: finished,
                    running: old(self).scripted_sequences@[sequence_id@].running && !finished,
                }),
            !old(self).scripted_sequences@.dom().contains(sequence_id@) ==> *final(self) == *old(self),
            *final(self) == (WorldState { scripted_sequences: final(self).scripted_sequences, ..*old(self) }),
    {
        match self.scripted_sequences.get_str(sequence_id) {
            Some(p) => {
                let mut playhead = *p;
                playhead.advance_to(next_step, finished);
                self.scripted_sequences.insert_str(sequence_id, playhead);
            },
            None => {},
        }
    }
}

} // verus!
