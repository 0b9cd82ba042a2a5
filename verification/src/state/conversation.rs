use vstd::prelude::*;
use super::{conv_key, conversation_key_chars, ConversationMemoryLine, ConversationSummaryState, PendingReplyState, WorldState};
use crate::smap::StrMap;
use crate::text::{chars_of, key_sep, string_from_chars, string_of};

verus! {

/// Recent lines kept per pair of participants.
pub open spec fn max_conversation_recent_lines() -> nat {
    4
}

/// Unsummarised lines after which a conversation wants a new summary.
pub open spec fn conversation_summary_trigger_lines() -> nat {
    4
}

/// The keys, among the first `n` summary entries, whose pending line count
/// has reached the trigger, in key order.
pub open spec fn keys_needing_summary_upto(keys: Seq<Seq<char>>, states: Seq<ConversationSummaryState>, n: int) -> Seq<Seq<char>>
    decreases n,
{
    if n <= 0 {
        Seq::empty()
    } else {
        let prev = keys_needing_summary_upto(keys, states, n - 1);
        if states[n - 1].pending_line_count >= conversation_summary_trigger_lines() { prev.push(keys[n - 1]) } else { prev }
    }
}

/// Whether `k` holds `sep` at position `i`, with no earlier occurrence.
pub open spec fn first_sep_at(k: Seq<char>, i: int) -> bool {
    &&& 0 <= i && i + 2 <= k.len()
    &&& k.subrange(i, i + 2) == key_sep()
    &&& forall|j: int| 0 <= j < i ==> #[trigger] k.subrange(j, j + 2) != key_sep()
}

impl WorldState {
    pub open spec fn spec_history(&self, a: Seq<char>, b: Seq<char>) -> Seq<ConversationMemoryLine> {
        let k = conv_key(a, b);
        if self.conversation_memory@.dom().contains(k) { self.conversation_memory@[k]@ } else { Seq::empty() }
    }

    pub fn conversation_history(&self, first_participant_id: &str, second_participant_id: &str) -> (r: &[ConversationMemoryLine])
        requires
            self.wf(),
        ensures
            r@ == self.spec_history(first_participant_id@, second_participant_id@),
    {
        match self.conversation_memory.get(&conversation_key_chars(first_participant_id, second_participant_id)) {
            Some(lines) => lines.as_slice(),
            None => {
                let empty: &[ConversationMemoryLine] = &[];
                assert(empty@ =~= Seq::<ConversationMemoryLine>::empty());
                empty
            },
        }
    }

    /// Records a line for a pair: it takes the next event sequence number,
    /// only the four most recent lines are kept, and the pair's count of
    /// unsummarised lines grows by one.
    pub fn push_conversation_line(&mut self, first_participant_id: &str, second_participant_id: &str, line: ConversationMemoryLine)
        requires
            old(self).wf(),
            ({
                let k = conv_key(first_participant_id@, second_participant_id@);
                old(self).conversation_summaries@.dom().contains(k) ==> old(self).conversation_summaries@[k].pending_line_count < usize::MAX
            }),
        ensures
            final(self).wf(),
            final(self).conversation_event_sequence == if old(self).conversation_event_sequence == u64::MAX { u64::MAX }
                else { (old(self).conversation_event_sequence + 1) as u64 },
            ({
                let k = conv_key(first_participant_id@, second_participant_id@);
                let all = old(self).spec_history(first_participant_id@, second_participant_id@).push(ConversationMemoryLine {
                    event_sequence: old(self).conversation_event_sequence, ..line });
                let kept = if all.len() > max_conversation_recent_lines() { all.skip(all.len() - max_conversation_recent_lines()) } else { all };
                let pending = if old(self).conversation_summaries@.dom().contains(k) { old(self).conversation_summaries@[k].pending_line_count } else { 0 };
                &&& final(self).conversation_memory@.dom() == old(self).conversation_memory@.dom().insert(k)
                &&& final(self).conversation_memory@[k]@ == kept
                &&& forall|o: Seq<char>| o != k && #[trigger] old(self).conversation_memory@.dom().contains(o)
                    ==> final(self).conversation_memory@[o] == old(self).conversation_memory@[o]
                &&& final(self).conversation_summaries@.dom() == old(self).conversation_summaries@.dom().insert(k)
                &&& final(self).conversation_summaries@[k].pending_line_count == pending + 1
                &&& (old(self).conversation_summaries@.dom().contains(k) ==> final(self).conversation_summaries@[k].summary == old(self).conversation_summaries@[k].summary)
                &&& (!old(self).conversation_summaries@.dom().contains(k) ==> final(self).conversation_summaries@[k].summary is None)
                &&& forall|o: Seq<char>| o != k && #[trigger] old(self).conversation_summaries@.dom().contains(o)
                    ==> final(self).conversation_summaries@[o] == old(self).conversation_summaries@[o]
            }),
    {
        let mut line = line;
        line.event_sequence = self.conversation_event_sequence;
        self.conversation_event_sequence = self.conversation_event_sequence.saturating_add(1);
        let key = conversation_key_chars(first_participant_id, second_participant_id);
        let mut lines = match self.conversation_memory.remove(&key) {
            Some(l) => l,
            None => Vec::new(),
        };
        lines.push(line);
        let ghost all = lines@;
        if lines.len() > 4 {
            let drop = lines.len() - 4;
            let kept = lines.split_off(drop);
            assert(kept@ =~= all.skip(drop as int));
            lines = kept;
        }
        self.conversation_memory.insert(key.clone(), lines);
        let mut state = match self.conversation_summaries.remove(&key) {
            Some(s) => s,
            None => ConversationSummaryState { summary: None, pending_line_count: 0 },
        };
        state.pending_line_count = state.pending_line_count + 1;
        self.conversation_summaries.insert(key, state);
        assert(self.conversation_memory@.dom() =~= old(self).conversation_memory@.dom().insert(key@));
        assert(self.conversation_summaries@.dom() =~= old(self).conversation_summaries@.dom().insert(key@));
    }
}

impl WorldState {
    pub fn conversation_summary(&self, first_participant_id: &str, second_participant_id: &str) -> (r: Option<&str>)
        requires
            self.wf(),
        ensures
            ({
                let k = conv_key(first_participant_id@, second_participant_id@);
                &&& r is Some == (self.conversation_summaries@.dom().contains(k) && self.conversation_summaries@[k].summary is Some)
                &&& r matches Some(s) ==> s@ == self.conversation_summaries@[k].summary->0@
            }),
    {
        match self.conversation_summaries.get(&conversation_key_chars(first_participant_id, second_participant_id)) {
            Some(state) => match &state.summary {
                Some(s) => Some(s.as_str()),
                None => None,
            },
            None => None,
        }
    }

    /// Stores a pair's summary and resets its count of unsummarised lines.
    pub fn set_conversation_summary(&mut self, first_participant_id: &str, second_participant_id: &str, summary: String)
        requires
            old(self).wf(),
        ensures
            final(self).wf(),
            final(self).conversation_summaries@ == old(self).conversation_summaries@.insert(
                conv_key(first_participant_id@, second_participant_id@),
                ConversationSummaryState { summary: Some(summary), pending_line_count: 0 }),
            *final(self) == (WorldState { conversation_summaries: final(self).conversation_summaries, ..*old(self) }),
    {
        let key = conversation_key_chars(first_participant_id, second_participant_id);
        self.conversation_summaries.insert(key, ConversationSummaryState { summary: Some(summary), pending_line_count: 0 });
    }

    /// Keys of the conversations whose unsummarised lines reached the
    /// trigger, in key order.
    pub fn conversation_keys_needing_summary(&self) -> (r: Vec<String>)
        requires
            self.wf(),
        ensures
            r@.map_values(|s: String| s@) == keys_needing_summary_upto(self.conversation_summaries.key_seq(),
                self.conversation_summaries.val_seq(), self.conversation_summaries.key_seq().len() as int),
    {
        let n = self.conversation_summaries.len();
        proof { self.conversation_summaries.lemma_contents(); }
        let mut r: Vec<String> = Vec::new();
        let mut i: usize = 0;
        while i < n
            invariant
                self.wf(),
                n == self.conversation_summaries.key_seq().len(),
                n == self.conversation_summaries.val_seq().len(),
                i <= n,
                r@.map_values(|s: String| s@) == keys_needing_summary_upto(self.conversation_summaries.key_seq(),
                    self.conversation_summaries.val_seq(), i as int),
            decreases n - i,
        {
            if self.conversation_summaries.value_at(i).pending_line_count >= 4 {
                let ghost before = r@;
                let k = string_from_chars(self.conversation_summaries.key_at(i));
                r.push(k);
                proof { crate::text::lemma_map_values_push(before, k, |s: String| s@); }
            }
            i = i + 1;
        }
        r
    }

    /// Splits a conversation key at its first `::` into the two participants.
    pub fn conversation_participants(key: &str) -> (r: Option<(&str, &str)>)
        ensures
            r is Some == exists|i: int| first_sep_at(key@, i),
            r matches Some(p) ==> exists|i: int| first_sep_at(key@, i) && p.0@ == key@.take(i) && p.1@ == key@.skip(i + 2),
    {
        let k = chars_of(key);
        let sep = crate::text::key_sep_chars();
        let n = k.len();
        let mut i: usize = 0;
        while n >= 2 && i <= n - 2
            invariant
                i <= n,
                n == key@.len(),
                k@ == key@,
                sep@ == key_sep(),
                forall|j: int| 0 <= j < i && j + 2 <= n ==> #[trigger] key@.subrange(j, j + 2) != key_sep(),
            decreases n - i,
        {
            let found = crate::text::matches_at(&k, i, &sep);
            if found {
                assert(key@.skip(i as int).take(2) =~= key@.subrange(i as int, i + 2));
                let first = key.substring_char(0, i);
                let second = key.substring_char(i + 2, n);
                assert(first_sep_at(key@, i as int));
                assert(first@ =~= key@.take(i as int));
                assert(second@ =~= key@.skip(i + 2));
                return Some((first, second));
            }
            assert(key@.skip(i as int).take(2) =~= key@.subrange(i as int, i + 2));
            i = i + 1;
        }
        proof {
            if exists|j: int| first_sep_at(key@, j) {
                let j = choose|j: int| first_sep_at(key@, j);
                assert(key@.subrange(j, j + 2) == key_sep());
            }
        }
        None
    }

    pub fn set_pending_reply(&mut self, speaker_id: &str, listener_id: &str, room_id: &str, turn_number: u32)
        requires
            old(self).wf(),
        ensures
            final(self).wf(),
            final(self).pending_replies@.dom() == old(self).pending_replies@.dom().insert(conv_key(speaker_id@, listener_id@)),
            ({
                let p = final(self).pending_replies@[conv_key(speaker_id@, listener_id@)];
                p.speaker_id@ == speaker_id@ && p.listener_id@ == listener_id@ && p.room_id@ == room_id@ && p.turn_number == turn_number
            }),
            forall|o: Seq<char>| o != conv_key(speaker_id@, listener_id@) && #[trigger] old(self).pending_replies@.dom().contains(o)
                ==> final(self).pending_replies@[o] == old(self).pending_replies@[o],
    {
        let key = conversation_key_chars(speaker_id, listener_id);
        self.pending_replies.insert(key, PendingReplyState {
            speaker_id: string_of(speaker_id),
            listener_id: string_of(listener_id),
            room_id: string_of(room_id),
            turn_number,
        });
    }

    pub fn pending_reply(&self, first_participant_id: &str, second_participant_id: &str) -> (r: Option<&PendingReplyState>)
        requires
            self.wf(),
        ensures
            ({
                let k = conv_key(first_participant_id@, second_participant_id@);
                r == (if self.pending_replies@.dom().contains(k) { Some(&self.pending_replies@[k]) } else { None::<&PendingReplyState> })
            }),
    {
        self.pending_replies.get(&conversation_key_chars(first_participant_id, second_participant_id))
    }

    pub fn clear_pending_reply(&mut self, first_participant_id: &str, second_participant_id: &str)
        requires
            old(self).wf(),
        ensures
            final(self).wf(),
            final(self).pending_replies@ == old(self).pending_replies@.remove(conv_key(first_participant_id@, second_participant_id@)),
    {
        self.pending_replies.remove(&conversation_key_chars(first_participant_id, second_participant_id));
    }

    /// Drops the replies still pending from before the previous turn.
    pub fn clear_stale_pending_replies(&mut self)
        requires
            old(self).wf(),
            forall|k: Seq<char>| #[trigger] old(self).pending_replies@.dom().contains(k) ==> old(self).pending_replies@[k].turn_number < u32::MAX,
        ensures
            final(self).wf(),
            final(self).pending_replies@ == fresh_replies(old(self).pending_replies@, old(self).turn_number),
            *final(self) == (WorldState { pending_replies: final(self).pending_replies, ..*old(self) }),
    {
        let turn_number = self.turn_number;
        let n = self.pending_replies.len();
        proof { self.pending_replies.lemma_contents(); }
        let ghost stale_set = Set::new(|k: Seq<char>| old(self).pending_replies@.dom().contains(k)
            && old(self).pending_replies@[k].turn_number + 1 < old(self).turn_number);
        let mut stale: Vec<Vec<char>> = Vec::new();
        let mut i: usize = 0;
        while i < n
            invariant
                self.wf(),
                *self == (WorldState { pending_replies: self.pending_replies, ..*old(self) }),
                self.pending_replies == old(self).pending_replies,
                turn_number == old(self).turn_number,
                n == self.pending_replies.key_seq().len(),
                i <= n,
                forall|k: Seq<char>| #[trigger] old(self).pending_replies@.dom().contains(k) ==> old(self).pending_replies@[k].turn_number < u32::MAX,
                stale_set == Set::new(|k: Seq<char>| old(self).pending_replies@.dom().contains(k)
                    && old(self).pending_replies@[k].turn_number + 1 < old(self).turn_number),
                forall|j: int| 0 <= j < stale.len() ==> #[trigger] stale_set.contains(stale@[j]@),
                forall|j: int| 0 <= j < i && stale_set.contains(#[trigger] self.pending_replies.key_seq()[j])
                    ==> exists|m: int| 0 <= m < stale.len() && stale@[m]@ == self.pending_replies.key_seq()[j],
            decreases n - i,
        {
            proof { self.pending_replies.lemma_contents(); }
            let pending = self.pending_replies.value_at(i);
            assert(old(self).pending_replies@.dom().contains(self.pending_replies.key_seq()[i as int]));
            let ghost old_stale = stale@;
            if pending.turn_number + 1 < turn_number {
                let key = self.pending_replies.key_at(i).clone();
                stale.push(key);
                assert(stale@[stale.len() - 1]@ == self.pending_replies.key_seq()[i as int]);
            }
            assert forall|j: int| 0 <= j < i + 1 && stale_set.contains(#[trigger] self.pending_replies.key_seq()[j])
                implies exists|m: int| 0 <= m < stale.len() && stale@[m]@ == self.pending_replies.key_seq()[j] by {
                if j < i {
                    let m = choose|m: int| 0 <= m < old_stale.len() && old_stale[m]@ == self.pending_replies.key_seq()[j];
                    assert(stale@[m] == old_stale[m]);
                } else {
                    assert(stale@[stale.len() - 1]@ == self.pending_replies.key_seq()[i as int]);
                }
            }
            i = i + 1;
        }
        let mut j: usize = 0;
        while j < stale.len()
            invariant
                self.wf(),
                *self == (WorldState { pending_replies: self.pending_replies, ..*old(self) }),
                j <= stale.len(),
                forall|m: int| 0 <= m < stale.len() ==> #[trigger] stale_set.contains(stale@[m]@),
                self.pending_replies@ == old(self).pending_replies@.remove_keys(Set::new(|k: Seq<char>| exists|m: int| 0 <= m < j && stale@[m]@ == k)),
            decreases stale.len() - j,
        {
            let ghost before = self.pending_replies@;
            self.pending_replies.remove(&stale[j]);
            assert(self.pending_replies@ =~= old(self).pending_replies@.remove_keys(Set::new(|k: Seq<char>| exists|m: int| 0 <= m < j + 1 && stale@[m]@ == k)));
            j = j + 1;
        }
        proof {
            old(self).pending_replies.lemma_contents();
            let removed = Set::new(|k: Seq<char>| exists|m: int| 0 <= m < stale.len() && stale@[m]@ == k);
            assert forall|k: Seq<char>| old(self).pending_replies@.dom().contains(k) implies (removed.contains(k) <==> stale_set.contains(k)) by {
                if stale_set.contains(k) {
                    let jj = choose|jj: int| 0 <= jj < n && old(self).pending_replies.key_seq()[jj] == k;
                    assert(stale_set.contains(old(self).pending_replies.key_seq()[jj]));
                }
                if removed.contains(k) {
                    let m = choose|m: int| 0 <= m < stale.len() && stale@[m]@ == k;
                    assert(stale_set.contains(stale@[m]@));
                }
            }
        }
        assert(self.pending_replies@ =~= old(self).pending_replies@.restrict(
                Set::new(|k: Seq<char>| old(self).pending_replies@.dom().contains(k)
                    && old(self).pending_replies@[k].turn_number + 1 >= old(self).turn_number)));
    }
}


/// The pending replies that are not stale at `turn`: those from this turn
/// or the one before.
pub open spec fn fresh_replies(replies: Map<Seq<char>, PendingReplyState>, turn: u32) -> Map<Seq<char>, PendingReplyState> {
    replies.restrict(Set::new(|k: Seq<char>| replies.dom().contains(k) && replies[k].turn_number + 1 >= turn))
}

/// Clearing stale replies twice in the same turn clears nothing more the
/// second time.
pub proof fn law_clearing_stale_replies_is_idempotent(replies: Map<Seq<char>, PendingReplyState>, turn: u32)
    ensures
        fresh_replies(fresh_replies(replies, turn), turn) == fresh_replies(replies, turn),
{
    assert(fresh_replies(fresh_replies(replies, turn), turn) =~= fresh_replies(replies, turn));
}

} // verus!
