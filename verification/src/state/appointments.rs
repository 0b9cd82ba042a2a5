use vstd::prelude::*;
use super::WorldState;
use crate::content::{ActCastMember, ActorDefinition, ActorPromptContext, ContentPack, StatDefinition};
use crate::smap::{copy_texts, entries_upto, StrMap};
use crate::text::{append_chars, chars_eq, chars_of, matches_at, seq_starts_with, int_text, nat_text, replace_all, replace_all_chars, string_from_chars, string_of, u64_chars};

verus! {

/// Progress through a series of acts, each centred on one cast member.
pub struct ActSeriesState {
    pub current_act_number: u32,
    pub current_patient_id: String,
    pub next_seed_index: usize,
    pub patients: StrMap<CastMemberRecord>,
    pub act_history: Vec<ActHistoryEntry>,
}

impl ActSeriesState {
    pub open spec fn wf(&self) -> bool {
        &&& self.patients.wf()
        &&& forall|k: Seq<char>| #[trigger] self.patients@.dom().contains(k) ==> self.patients@[k].wf()
    }
}

/// What the series remembers of one cast member.
pub struct CastMemberRecord {
    pub id: String,
    pub name: String,
    pub actor_id: String,
    pub inspect_blurb: String,
    pub intro_blurb: String,
    pub return_blurb: String,
    pub metadata: StrMap<String>,
    pub act_count: u32,
    pub last_seen_act: Option<u32>,
    pub last_feedback_rating: Option<u32>,
    pub last_feedback_review: Option<String>,
    pub actor_stats: StrMap<i32>,
}

impl CastMemberRecord {
    pub open spec fn wf(&self) -> bool {
        self.metadata.wf() && self.actor_stats.wf()
    }
}

pub struct ActHistoryEntry {
    pub act_number: u32,
    pub patient_id: String,
    pub patient_name: String,
    pub feedback_rating: Option<u32>,
}

pub struct ActFeedbackSummary {
    pub rating: u32,
    pub review_text: String,
}

pub open spec fn cast_name_var() -> Seq<char> {
    "act_cast_name"@
}

pub open spec fn cast_actor_id_var() -> Seq<char> {
    "act_cast_actor_id"@
}

pub open spec fn cast_template_actor_id_var() -> Seq<char> {
    "act_cast_template_actor_id"@
}

pub open spec fn cast_slot_base_name_var() -> Seq<char> {
    "act_cast_slot_base_name"@
}

impl WorldState {
    /// The actor an authored id stands for in the current act: the template
    /// cast actor is played by the current cast member's actor.
    pub open spec fn spec_remap(&self, id: Seq<char>) -> Seq<char> {
        let vals = self.story_vars.vals();
        if vals.dom().contains(cast_template_actor_id_var()) && vals.dom().contains(cast_actor_id_var())
            && vals[cast_template_actor_id_var()] == id {
            vals[cast_actor_id_var()]
        } else {
            id
        }
    }

    /// The record of the current cast member, if the series has one.
    pub open spec fn spec_current_patient(&self) -> Option<CastMemberRecord> {
        match self.act_series {
            Some(series) => if series.patients@.dom().contains(series.current_patient_id@) {
                Some(series.patients@[series.current_patient_id@])
            } else {
                None
            },
            None => None,
        }
    }

    /// The current act number; one when no series is running.
    pub open spec fn spec_current_act_number(&self) -> u32 {
        match self.act_series {
            Some(series) => series.current_act_number,
            None => 1,
        }
    }

    /// Whether `actor_id` names the current cast member, directly or through
    /// the template actor.
    pub open spec fn spec_is_current_patient_reference(&self, actor_id: Seq<char>) -> bool {
        match self.spec_current_patient() {
            Some(p) => p.actor_id@ == actor_id || (self.story_vars.vals().dom().contains(cast_template_actor_id_var())
                && self.story_vars.vals()[cast_template_actor_id_var()] == actor_id),
            None => false,
        }
    }
}

pub fn remap_story_actor_id<'a>(state: &'a WorldState, actor_id: &'a str) -> (r: &'a str)
    requires
        state.wf(),
    ensures
        r@ == state.spec_remap(actor_id@),
{
    match (state.story_vars.get("act_cast_template_actor_id"), state.story_vars.get("act_cast_actor_id")) {
        (Some(template_actor_id), Some(current_actor_id)) => {
            if crate::text::str_eq(template_actor_id, actor_id) {
                current_actor_id
            } else {
                actor_id
            }
        },
        _ => actor_id,
    }
}

/// Whether an authored actor id stands for `runtime_actor_id` in this act.
pub fn story_actor_matches(state: &WorldState, runtime_actor_id: &str, authored_actor_id: &str) -> (r: bool)
    requires
        state.wf(),
    ensures
        r == (state.spec_remap(authored_actor_id@) == runtime_actor_id@),
{
    crate::text::str_eq(remap_story_actor_id(state, authored_actor_id), runtime_actor_id)
}

fn current_patient(state: &WorldState) -> (r: Option<&CastMemberRecord>)
    requires
        state.wf(),
    ensures
        r matches Some(p) ==> state.spec_current_patient() == Some(*p),
        r is None ==> state.spec_current_patient() is None,
{
    match &state.act_series {
        Some(series) => series.patients.get_str(series.current_patient_id.as_str()),
        None => None,
    }
}

fn current_act_number(state: &WorldState) -> (r: u32)
    ensures
        r == state.spec_current_act_number(),
{
    match &state.act_series {
        Some(series) => series.current_act_number,
        None => 1,
    }
}

/// The name of the cast member the current act is about, if any.
pub open spec fn current_patient_view(state: &WorldState) -> Option<Seq<char>> {
    match state.spec_current_patient() {
        Some(p) => Some(p.name@),
        None => None,
    }
}

pub fn current_patient_name(state: &WorldState) -> (r: Option<String>)
    requires
        state.wf(),
    ensures
        r is Some == state.spec_current_patient() is Some,
        r matches Some(n) ==> n@ == state.spec_current_patient()->0.name@,
{
    match current_patient(state) {
        Some(p) => Some(p.name.clone()),
        None => None,
    }
}

pub fn current_patient_actor_id(state: &WorldState) -> (r: Option<&str>)
    requires
        state.wf(),
    ensures
        r is Some == state.spec_current_patient() is Some,
        r matches Some(a) ==> a@ == state.spec_current_patient()->0.actor_id@,
{
    match current_patient(state) {
        Some(p) => Some(p.actor_id.as_str()),
        None => None,
    }
}

fn is_current_patient_reference(state: &WorldState, actor_id: &str) -> (r: bool)
    requires
        state.wf(),
    ensures
        r == state.spec_is_current_patient_reference(actor_id@),
{
    match current_patient_actor_id(state) {
        Some(current) => {
            crate::text::str_eq(current, actor_id) || match state.story_vars.get("act_cast_template_actor_id") {
                Some(t) => crate::text::str_eq(t, actor_id),
                None => false,
            }
        },
        None => false,
    }
}

/// The name an actor goes by: the current cast member's name when the actor
/// stands for that member, otherwise its authored name.
pub open spec fn spec_display_actor_name(state: &WorldState, actor: &ActorDefinition) -> Seq<char> {
    if state.spec_is_current_patient_reference(actor.id@) && state.story_vars.vals().dom().contains(cast_name_var()) {
        state.story_vars.vals()[cast_name_var()]
    } else {
        actor.name@
    }
}

pub fn display_actor_name(state: &WorldState, actor: &ActorDefinition) -> (r: String)
    requires
        state.wf(),
    ensures
        r@ == spec_display_actor_name(state, actor),
{
    if is_current_patient_reference(state, actor.id.as_str()) {
        match state.story_vars.get("act_cast_name") {
            Some(name) => return crate::text::string_of(name),
            None => {},
        }
    }
    actor.name.clone()
}

/// The texts of a list of strings.
pub open spec fn note_texts(v: Seq<String>) -> Seq<Seq<char>> {
    v.map_values(|s: String| s@)
}

/// A prompt context as text: character notes, subtext notes, response
/// notes and behaviour examples.
pub type PromptView = (Seq<Seq<char>>, Seq<Seq<char>>, Seq<Seq<char>>, Seq<Seq<char>>);

pub open spec fn prompt_view(c: ActorPromptContext) -> PromptView {
    (note_texts(c.character_notes@), note_texts(c.subtext_notes@), note_texts(c.response_notes@), note_texts(c.behavior_examples@))
}

/// Notes for the first `n` metadata entries whose keys start with `prefix`,
/// in key order: the key without the prefix, a colon, the value and a stop.
pub open spec fn prefixed_notes(keys: Seq<Seq<char>>, values: Map<Seq<char>, String>, prefix: Seq<char>, n: int) -> Seq<Seq<char>>
    decreases n,
{
    if n <= 0 {
        Seq::empty()
    } else {
        let prev = prefixed_notes(keys, values, prefix, n - 1);
        let k = keys[n - 1];
        if seq_starts_with(k, prefix) {
            prev.push(k.skip(prefix.len() as int) + ": "@ + values[k]@ + "."@)
        } else {
            prev
        }
    }
}

/// The prompt context an actor speaks from: its own, unless it stands for the
/// current cast member, whose behaviour actor's context then gains who they
/// are, their `char_` and `sub_` metadata, the emotional residue they carry,
/// the act they are in and the takeaway of their last act.
pub open spec fn spec_resolved_prompt(content: &ContentPack, state: &WorldState, actor: &ActorDefinition) -> PromptView {
    match state.spec_current_patient() {
        Some(p) if state.spec_is_current_patient_reference(actor.id@) => {
            let behavior = if content.has_actor(p.actor_id@) { content.spec_actor(p.actor_id@) } else { *actor };
            let pc = prompt_view(behavior.prompt_context);
            let keys = p.metadata.key_seq();
            let n = keys.len() as int;
            let review = match p.last_feedback_review {
                Some(r) => seq!["Last act takeaway: "@ + r@],
                None => Seq::empty(),
            };
            (pc.0.push("You are "@ + p.name@ + "."@) + prefixed_notes(keys, p.metadata@, "char_"@, n),
             pc.1.push("Carry the emotional residue of "@ + p.intro_blurb@ + "."@) + prefixed_notes(keys, p.metadata@, "sub_"@, n),
             pc.2.push("You are in act "@ + nat_text(state.spec_current_act_number() as nat) + ". Respond as "@ + p.name@
                + " would, without narrating future sessions."@) + review,
             pc.3)
        },
        _ => prompt_view(actor.prompt_context),
    }
}

fn copy_notes(v: &Vec<String>) -> (r: Vec<String>)
    ensures
        note_texts(r@) == note_texts(v@),
{
    let mut out: Vec<String> = Vec::new();
    let mut i: usize = 0;
    while i < v.len()
        invariant
            i <= v.len(),
            note_texts(out@) == note_texts(v@).take(i as int),
        decreases v.len() - i,
    {
        let ghost before = out@;
        let t = string_of(v[i].as_str());
        out.push(t);
        assert(note_texts(out@) =~= note_texts(v@).take(i as int + 1)) by {
            assert(out@ == before.push(t));
            assert(note_texts(out@) =~= note_texts(before).push(t@));
        }
        i = i + 1;
    }
    assert(note_texts(v@).take(v.len() as int) =~= note_texts(v@));
    out
}

fn copy_prompt_context(c: &ActorPromptContext) -> (r: ActorPromptContext)
    ensures
        prompt_view(r) == prompt_view(*c),
{
    ActorPromptContext {
        character_notes: copy_notes(&c.character_notes),
        subtext_notes: copy_notes(&c.subtext_notes),
        response_notes: copy_notes(&c.response_notes),
        behavior_examples: copy_notes(&c.behavior_examples),
    }
}

/// Appends the notes for the metadata entries whose keys start with `prefix`.
fn push_prefixed_notes(notes: &mut Vec<String>, metadata: &StrMap<String>, prefix: &str)
    requires
        metadata.wf(),
    ensures
        note_texts(final(notes)@) == note_texts(old(notes)@)
            + prefixed_notes(metadata.key_seq(), metadata@, prefix@, metadata.key_seq().len() as int),
{
    let p = chars_of(prefix);
    let n = metadata.len();
    let mut i: usize = 0;
    assert(note_texts(notes@) =~= note_texts(old(notes)@) + prefixed_notes(metadata.key_seq(), metadata@, prefix@, 0));
    while i < n
        invariant
            metadata.wf(),
            n == metadata.key_seq().len(),
            i <= n,
            p@ == prefix@,
            note_texts(notes@) == note_texts(old(notes)@) + prefixed_notes(metadata.key_seq(), metadata@, prefix@, i as int),
        decreases n - i,
    {
        let key = metadata.key_at(i);
        let value = metadata.value_at(i);
        if matches_at(key, 0, &p) {
            assert(key@.skip(0) =~= key@);
            let mut text: Vec<char> = Vec::new();
            let mut j: usize = p.len();
            while j < key.len()
                invariant
                    p.len() <= j <= key.len(),
                    text@ == key@.subrange(p.len() as int, j as int),
                decreases key.len() - j,
            {
                text.push(key[j]);
                j = j + 1;
                assert(text@ =~= key@.subrange(p.len() as int, j as int));
            }
            assert(key@.subrange(p.len() as int, key.len() as int) =~= key@.skip(p.len() as int));
            append_chars(&mut text, &chars_of(": "));
            append_chars(&mut text, &chars_of(value.as_str()));
            append_chars(&mut text, &chars_of("."));
            let ghost before = notes@;
            let note = string_from_chars(&text);
            notes.push(note);
            assert(note_texts(notes@) =~= note_texts(before).push(note@));
        } else {
            assert(key@.skip(0) =~= key@);
        }
        i = i + 1;
    }
}

/// The prompt context an actor speaks from (see `spec_resolved_prompt`).
pub fn resolved_actor_prompt_context(content: &ContentPack, state: &WorldState, actor: &ActorDefinition) -> (r: ActorPromptContext)
    requires
        state.wf(),
    ensures
        prompt_view(r) == spec_resolved_prompt(content, state, actor),
{
    if !is_current_patient_reference(state, actor.id.as_str()) {
        return copy_prompt_context(&actor.prompt_context);
    }
    let patient = match current_patient(state) {
        Some(p) => p,
        None => return copy_prompt_context(&actor.prompt_context),
    };
    proof {
        let series = state.act_series->0;
        assert(series.wf());
    }
    let behavior_actor = match content.actor(patient.actor_id.as_str()) {
        Some(a) => a,
        None => actor,
    };
    let act_number = current_act_number(state);
    let mut character_notes = copy_notes(&behavior_actor.prompt_context.character_notes);
    character_notes.push(cat3("You are ", patient.name.as_str(), "."));
    push_prefixed_notes(&mut character_notes, &patient.metadata, "char_");
    let mut subtext_notes = copy_notes(&behavior_actor.prompt_context.subtext_notes);
    subtext_notes.push(cat3("Carry the emotional residue of ", patient.intro_blurb.as_str(), "."));
    push_prefixed_notes(&mut subtext_notes, &patient.metadata, "sub_");
    let mut response_notes = copy_notes(&behavior_actor.prompt_context.response_notes);
    let act_text = string_from_chars(&u64_chars(act_number as u64));
    let opening = cat3("You are in act ", act_text.as_str(), ". Respond as ");
    response_notes.push(cat3(opening.as_str(), patient.name.as_str(), " would, without narrating future sessions."));
    match &patient.last_feedback_review {
        Some(review) => response_notes.push(crate::text::cat("Last act takeaway: ", review.as_str())),
        None => {},
    }
    let r = ActorPromptContext {
        character_notes,
        subtext_notes,
        response_notes,
        behavior_examples: copy_notes(&behavior_actor.prompt_context.behavior_examples),
    };
    proof {
        let p = state.spec_current_patient()->0;
        let keys = p.metadata.key_seq();
        let view = spec_resolved_prompt(content, state, actor);
        assert(prompt_view(r).0 =~= view.0);
        assert(prompt_view(r).1 =~= view.1);
        assert(prompt_view(r).2 =~= view.2);
    }
    r
}

/// Three texts joined.
fn cat3(a: &str, b: &str, c: &str) -> (r: String)
    ensures
        r@ == a@ + b@ + c@,
{
    crate::text::cat(crate::text::cat(a, b).as_str(), c)
}

/// A horizontal rule of twenty box-drawing characters.
pub open spec fn act_rule() -> Seq<char> {
    Seq::new(20, |i: int| '━')
}

/// The introduction shown at the start of an act.
pub open spec fn spec_act_intro(act_number: u32, p: CastMemberRecord) -> Seq<char> {
    let header = act_rule() + "\nAct "@ + nat_text(act_number as nat) + ": "@ + p.name@ + "\n"@ + act_rule();
    if p.act_count > 0 {
        let prior = match p.last_feedback_review {
            Some(r) => r@,
            None => "they are still sorting through what happened last time"@,
        };
        header + "\n\n"@ + p.name@ + " returns. "@ + p.return_blurb@ + " They arrive carrying the aftertaste of last time: "@ + prior
    } else {
        header + "\n\n"@ + p.name@ + " arrives. "@ + p.intro_blurb@
    }
}

fn push_rule(out: &mut Vec<char>)
    ensures
        final(out)@ == old(out)@ + act_rule(),
{
    let mut i: usize = 0;
    let ghost start = out@;
    while i < 20
        invariant
            i <= 20,
            out@ == start + Seq::new(i as nat, |k: int| '━'),
        decreases 20 - i,
    {
        out.push('━');
        i = i + 1;
        assert(out@ =~= start + Seq::new(i as nat, |k: int| '━'));
    }
}

/// The act introduction, absent for the first appearance of the first act.
pub fn current_act_intro(state: &WorldState) -> (r: Option<String>)
    requires
        state.wf(),
    ensures
        r is Some == (state.spec_current_patient() is Some
            && !(state.spec_current_act_number() == 1 && state.spec_current_patient()->0.act_count == 0)),
        r matches Some(t) ==> t@ == spec_act_intro(state.spec_current_act_number(), state.spec_current_patient()->0),
{
    let patient = match current_patient(state) {
        Some(p) => p,
        None => return None,
    };
    let act_number = current_act_number(state);
    if act_number == 1 && patient.act_count == 0 {
        return None;
    }
    let mut out: Vec<char> = Vec::new();
    push_rule(&mut out);
    append_chars(&mut out, &chars_of("\nAct "));
    append_chars(&mut out, &u64_chars(act_number as u64));
    append_chars(&mut out, &chars_of(": "));
    append_chars(&mut out, &chars_of(patient.name.as_str()));
    append_chars(&mut out, &chars_of("\n"));
    push_rule(&mut out);
    append_chars(&mut out, &chars_of("\n\n"));
    append_chars(&mut out, &chars_of(patient.name.as_str()));
    if patient.act_count > 0 {
        append_chars(&mut out, &chars_of(" returns. "));
        append_chars(&mut out, &chars_of(patient.return_blurb.as_str()));
        append_chars(&mut out, &chars_of(" They arrive carrying the aftertaste of last time: "));
        match &patient.last_feedback_review {
            Some(review) => append_chars(&mut out, &chars_of(review.as_str())),
            None => append_chars(&mut out, &chars_of("they are still sorting through what happened last time")),
        }
    } else {
        append_chars(&mut out, &chars_of(" arrives. "));
        append_chars(&mut out, &chars_of(patient.intro_blurb.as_str()));
    }
    let r = string_from_chars(&out);
    assert(r@ =~= spec_act_intro(act_number, *patient));
    Some(r)
}


/// Where cast actors who are not in the current act wait.
pub open spec fn offstage_room() -> Seq<char> {
    "acts-offstage"@
}

/// The actor that plays the template cast slot: the first cast member's.
pub open spec fn template_actor_of(content: &ContentPack) -> Option<Seq<char>> {
    if content.act_cast.len() > 0 { Some(content.act_cast@[0].actor_id@) } else { None }
}

/// A cast member's starting stats before the declared stats are applied:
/// its actor's initial stats, overridden by the member's own.
pub open spec fn base_patient_stats(content: &ContentPack, def: ActCastMember) -> Map<Seq<char>, i32> {
    let initial = if content.has_actor(def.actor_id@) { content.spec_actor(def.actor_id@).initial_stats@ } else { Map::empty() };
    initial.union_prefer_right(def.actor_stats@)
}

/// A cast member's starting stats: every declared stat held within its
/// bounds (or at its default when unset), other stats as they are.
pub open spec fn patient_stats(content: &ContentPack, defs: Map<Seq<char>, StatDefinition>, def: ActCastMember) -> Map<Seq<char>, i32> {
    let base = base_patient_stats(content, def);
    Map::new(|k: Seq<char>| base.dom().contains(k) || defs.dom().contains(k),
        |k: Seq<char>| if defs.dom().contains(k) {
            if base.dom().contains(k) { defs[k].spec_clamp(base[k] as int) as i32 } else { defs[k].default }
        } else {
            base[k]
        })
}

/// Whether `rec` is the fresh record of cast member `def`.
pub open spec fn record_built(content: &ContentPack, state: &WorldState, def: ActCastMember, rec: CastMemberRecord) -> bool {
    &&& rec.wf()
    &&& rec.id@ == def.id@
    &&& rec.name@ == def.name@
    &&& rec.actor_id@ == def.actor_id@
    &&& rec.inspect_blurb@ == def.inspect_blurb@
    &&& rec.intro_blurb@ == def.intro_blurb@
    &&& rec.return_blurb@ == def.return_blurb@
    &&& rec.metadata@.dom() == def.metadata@.dom()
    &&& forall|k: Seq<char>| #[trigger] rec.metadata@.dom().contains(k) ==> rec.metadata@[k]@ == def.metadata@[k]@
    &&& rec.act_count == 0
    &&& rec.last_seen_act is None
    &&& rec.last_feedback_rating is None
    &&& rec.last_feedback_review is None
    &&& rec.actor_stats@ == patient_stats(content, state.actor_stat_defs@, def)
}

fn copy_stat_map(m: &StrMap<i32>) -> (r: StrMap<i32>)
    requires
        m.wf(),
    ensures
        r.wf(),
        r@ == m@,
{
    m.copied()
}

/// The record a cast member starts the series with.
fn build_patient_record(content: &ContentPack, state: &WorldState, def: &ActCastMember) -> (r: CastMemberRecord)
    requires
        content.wf(),
        state.wf(),
        def.metadata.wf(),
        def.actor_stats.wf(),
    ensures
        record_built(content, state, *def, r),
{
    let initial = match content.actor(def.actor_id.as_str()) {
        Some(actor) => {
            proof { content.lemma_actor_wf(def.actor_id@); }
            copy_stat_map(&actor.initial_stats)
        },
        None => StrMap::new(),
    };
    let ghost initial_view = initial@;
    let mut stats = initial;
    let n = def.actor_stats.len();
    proof { def.actor_stats.lemma_contents(); }
    let mut i: usize = 0;
    assert(entries_upto(def.actor_stats, 0) =~= Map::<Seq<char>, i32>::empty());
    assert(initial_view.union_prefer_right(Map::empty()) =~= initial_view);
    while i < n
        invariant
            def.actor_stats.wf(),
            stats.wf(),
            n == def.actor_stats.key_seq().len(),
            i <= n,
            stats@ == initial_view.union_prefer_right(entries_upto(def.actor_stats, i as int)),
        decreases n - i,
    {
        let key = crate::text::concat_chars(&Vec::new(), def.actor_stats.key_at(i));
        assert(key@ =~= def.actor_stats.key_seq()[i as int]);
        let value = *def.actor_stats.value_at(i);
        proof { def.actor_stats.lemma_entries_step(i as int); }
        stats.insert(key, value);
        assert(stats@ =~= initial_view.union_prefer_right(entries_upto(def.actor_stats, i + 1)));
        i = i + 1;
    }
    proof { def.actor_stats.lemma_entries_all(); }
    let ghost base = stats@;
    assert(base == base_patient_stats(content, *def));
    let defs = &state.actor_stat_defs;
    let m = defs.len();
    proof { defs.lemma_contents(); }
    let mut j: usize = 0;
    while j < m
        invariant
            defs.wf(),
            stats.wf(),
            m == defs.key_seq().len(),
            j <= m,
            forall|a: int, b: int| 0 <= a < b < defs.key_seq().len() ==> crate::text::lex_lt(#[trigger] defs.key_seq()[a], #[trigger] defs.key_seq()[b]),
            stats@ == Map::new(|k: Seq<char>| base.dom().contains(k) || entries_upto(*defs, j as int).dom().contains(k),
                |k: Seq<char>| if entries_upto(*defs, j as int).dom().contains(k) {
                    if base.dom().contains(k) { defs@[k].spec_clamp(base[k] as int) as i32 } else { defs@[k].default }
                } else {
                    base[k]
                }),
        decreases m - j,
    {
        let key = crate::text::concat_chars(&Vec::new(), defs.key_at(j));
        assert(key@ =~= defs.key_seq()[j as int]);
        let definition = *defs.value_at(j);
        proof {
            defs.lemma_entries_step(j as int);
            assert(!entries_upto(*defs, j as int).dom().contains(key@)) by {
                if entries_upto(*defs, j as int).dom().contains(key@) {
                    let q = choose|q: int| 0 <= q < j && defs.key_seq()[q] == key@;
                    crate::text::lemma_lex_irrefl(key@);
                }
            }
        }
        let value = match stats.get(&key) {
            Some(v) => definition.clamp(*v),
            None => definition.default,
        };
        stats.insert(key, value);
        proof {
            let target = Map::new(|k: Seq<char>| base.dom().contains(k) || entries_upto(*defs, j + 1).dom().contains(k),
                |k: Seq<char>| if entries_upto(*defs, j + 1).dom().contains(k) {
                    if base.dom().contains(k) { defs@[k].spec_clamp(base[k] as int) as i32 } else { defs@[k].default }
                } else {
                    base[k]
                });
            assert(stats@ =~= target);
        }
        j = j + 1;
    }
    proof {
        defs.lemma_entries_all();
        assert(stats@ =~= patient_stats(content, state.actor_stat_defs@, *def));
    }
    CastMemberRecord {
        id: string_from_chars(&chars_of(def.id.as_str())),
        name: string_from_chars(&chars_of(def.name.as_str())),
        actor_id: string_from_chars(&chars_of(def.actor_id.as_str())),
        inspect_blurb: string_from_chars(&chars_of(def.inspect_blurb.as_str())),
        intro_blurb: string_from_chars(&chars_of(def.intro_blurb.as_str())),
        return_blurb: string_from_chars(&chars_of(def.return_blurb.as_str())),
        metadata: copy_texts(&def.metadata),
        act_count: 0,
        last_seen_act: None,
        last_feedback_rating: None,
        last_feedback_review: None,
        actor_stats: stats,
    }
}


/// The texts of a map of strings.
pub open spec fn text_view(m: Map<Seq<char>, String>) -> Map<Seq<char>, Seq<char>> {
    Map::new(|k: Seq<char>| m.dom().contains(k), |k: Seq<char>| m[k]@)
}

/// Actor placements after settling the first `n` cast actors for an act:
/// the current member's actor returns to its own room, every other cast
/// actor waits offstage.
pub open spec fn cast_overrides(m: Map<Seq<char>, Seq<char>>, cast: Seq<ActCastMember>, current: Seq<char>, n: int)
    -> Map<Seq<char>, Seq<char>>
    decreases n,
{
    if n <= 0 {
        m
    } else {
        let prev = cast_overrides(m, cast, current, n - 1);
        let a = cast[n - 1].actor_id@;
        if a == current { prev.remove(a) } else { prev.insert(a, offstage_room()) }
    }
}

/// Story variables after exposing the first `n` metadata entries as
/// `patient_<key>`.
pub open spec fn meta_vars(vals: Map<Seq<char>, Seq<char>>, keys: Seq<Seq<char>>, values: Map<Seq<char>, String>, n: int)
    -> Map<Seq<char>, Seq<char>>
    decreases n,
{
    if n <= 0 {
        vals
    } else {
        meta_vars(vals, keys, values, n - 1).insert("patient_"@ + keys[n - 1], values[keys[n - 1]]@)
    }
}

/// Story variables once the current cast member is exposed: its actor, the
/// template actor, the template's base name, its name, the act number, its
/// metadata, and whether it is returning.
pub open spec fn injected_vars(vals: Map<Seq<char>, Seq<char>>, p: CastMemberRecord, template: Seq<char>, base: Seq<char>, act: u32)
    -> Map<Seq<char>, Seq<char>> {
    let v1 = vals.insert(cast_actor_id_var(), p.actor_id@).insert(cast_template_actor_id_var(), template)
        .insert(cast_slot_base_name_var(), base).insert(cast_name_var(), p.name@).insert("act_number"@, nat_text(act as nat));
    let v2 = meta_vars(v1, p.metadata.key_seq(), p.metadata@, p.metadata.key_seq().len() as int);
    v2.insert("patient_returning"@, if p.act_count > 0 { "true"@ } else { "false"@ })
}

/// Whether a map of stats has the cast member's stats in place of its
/// actor's (when it had any), and is otherwise unchanged.
pub open spec fn stats_replaced(before: Map<Seq<char>, StrMap<i32>>, after: Map<Seq<char>, StrMap<i32>>, p: CastMemberRecord) -> bool {
    &&& after.dom() == before.dom()
    &&& forall|k: Seq<char>| #[trigger] after.dom().contains(k) ==>
        if k == p.actor_id@ { after[k]@ == p.actor_stats@ } else { after[k] == before[k] }
}

/// What exposing a cast member for an act does to the world.
pub open spec fn cast_injected(content: &ContentPack, before: &WorldState, p: CastMemberRecord, act: u32, after: &WorldState) -> bool {
    let template = match template_actor_of(content) { Some(t) => t, None => p.actor_id@ };
    let base = if content.has_actor(template) { content.spec_actor(template).name@ } else { p.name@ };
    &&& *after == (WorldState {
        story_vars: after.story_vars,
        actor_stats: after.actor_stats,
        initial_actor_stats: after.initial_actor_stats,
        actor_room_overrides: after.actor_room_overrides,
        ..*before
    })
    &&& after.story_vars.decls() == before.story_vars.decls()
    &&& after.story_vars.vals() == injected_vars(before.story_vars.vals(), p, template, base, act)
    &&& stats_replaced(before.actor_stats@, after.actor_stats@, p)
    &&& stats_replaced(before.initial_actor_stats@, after.initial_actor_stats@, p)
    &&& text_view(after.actor_room_overrides@) == cast_overrides(text_view(before.actor_room_overrides@), content.act_cast@,
        p.actor_id@, content.act_cast.len() as int)
}

fn replace_stats(m: &mut StrMap<StrMap<i32>>, actor_id: &str, stats: &StrMap<i32>)
    requires
        crate::state::nested_wf(*old(m)),
        stats.wf(),
    ensures
        crate::state::nested_wf(*final(m)),
        final(m)@.dom() == old(m)@.dom(),
        forall|k: Seq<char>| #[trigger] final(m)@.dom().contains(k) ==>
            if k == actor_id@ { final(m)@[k]@ == stats@ } else { final(m)@[k] == old(m)@[k] },
{
    if m.contains_str(actor_id) {
        m.insert_str(actor_id, stats.copied());
        assert(final(m)@.dom() =~= old(m)@.dom());
    }
}

/// Exposes the current cast member to the story: its variables, its stats
/// on its actor, and every other cast actor sent offstage.
fn inject_act_cast_vars(content: &ContentPack, state: &mut WorldState)
    requires
        content.wf(),
        old(state).wf(),
    ensures
        final(state).wf(),
        match old(state).spec_current_patient() {
            None => *final(state) == *old(state),
            Some(p) => cast_injected(content, old(state), p, old(state).spec_current_act_number(), final(state)),
        },
{
    let act = current_act_number(state);
    let series = match &state.act_series {
        Some(series) => series,
        None => return,
    };
    let patient = match series.patients.get_str(series.current_patient_id.as_str()) {
        Some(p) => p,
        None => return,
    };
    let ghost p = *patient;
    assert(old(state).spec_current_patient() == Some(p));
    proof { assert(series.patients@.dom().contains(series.current_patient_id@)); }
    let template = if content.act_cast.len() > 0 { content.act_cast[0].actor_id.as_str() } else { patient.actor_id.as_str() };
    let base_name = match content.actor(template) {
        Some(actor) => actor.name.as_str(),
        None => patient.name.as_str(),
    };
    let ghost before = *state;
    state.story_vars.set_unchecked("act_cast_actor_id", patient.actor_id.as_str());
    state.story_vars.set_unchecked("act_cast_template_actor_id", template);
    state.story_vars.set_unchecked("act_cast_slot_base_name", base_name);
    state.story_vars.set_unchecked("act_cast_name", patient.name.as_str());
    let act_text = string_from_chars(&u64_chars(act as u64));
    state.story_vars.set_unchecked("act_number", act_text.as_str());
    let ghost v1 = state.story_vars.vals();
    let metadata = &patient.metadata;
    let n = metadata.len();
    let mut i: usize = 0;
    while i < n
        invariant
            state.story_vars.wf(),
            metadata.wf(),
            *metadata == p.metadata,
            n == metadata.key_seq().len(),
            i <= n,
            state.story_vars.vals() == meta_vars(v1, metadata.key_seq(), metadata@, i as int),
            state.story_vars.decls() == before.story_vars.decls(),
            *state == (WorldState { story_vars: state.story_vars, ..before }),
        decreases n - i,
    {
        let mut key = chars_of("patient_");
        append_chars(&mut key, metadata.key_at(i));
        let key_text = string_from_chars(&key);
        proof { metadata.lemma_contents(); }
        state.story_vars.set_unchecked(key_text.as_str(), metadata.value_at(i).as_str());
        i = i + 1;
    }
    state.story_vars.set_unchecked("patient_returning", if patient.act_count > 0 { "true" } else { "false" });
    replace_stats(&mut state.actor_stats, patient.actor_id.as_str(), &patient.actor_stats);
    replace_stats(&mut state.initial_actor_stats, patient.actor_id.as_str(), &patient.actor_stats);
    let ghost overrides_start = text_view(state.actor_room_overrides@);
    let ghost mid = *state;
    let mut c: usize = 0;
    while c < content.act_cast.len()
        invariant
            content.wf(),
            state.wf(),
            *state == (WorldState { actor_room_overrides: state.actor_room_overrides, ..mid }),
            c <= content.act_cast.len(),
            patient.actor_id@ == p.actor_id@,
            text_view(state.actor_room_overrides@) == cast_overrides(overrides_start, content.act_cast@, p.actor_id@, c as int),
        decreases content.act_cast.len() - c,
    {
        let cast_actor = content.act_cast[c].actor_id.as_str();
        let ghost prev = state.actor_room_overrides@;
        if crate::text::str_eq(cast_actor, patient.actor_id.as_str()) {
            state.actor_room_overrides.remove(&chars_of(cast_actor));
            assert(text_view(state.actor_room_overrides@) =~= text_view(prev).remove(cast_actor@));
        } else {
            state.actor_room_overrides.insert_str(cast_actor, string_of("acts-offstage"));
            assert(text_view(state.actor_room_overrides@) =~= text_view(prev).insert(cast_actor@, offstage_room()));
        }
        c = c + 1;
    }
}


/// What exposing the current cast member (if any) does to the world.
pub open spec fn cast_refreshed(content: &ContentPack, before: &WorldState, after: &WorldState) -> bool {
    match before.spec_current_patient() {
        None => *after == *before,
        Some(p) => cast_injected(content, before, p, before.spec_current_act_number(), after),
    }
}

/// What starting the first act does: the first cast member gets a fresh
/// record and becomes the current one in act one, then is exposed to the
/// story. Without a series nothing changes.
pub open spec fn first_act_started(content: &ContentPack, before: &WorldState, after: &WorldState) -> bool {
    match before.act_series {
        None => *after == *before,
        Some(s0) => exists|rec: CastMemberRecord, s1: ActSeriesState| {
            &&& #[trigger] record_built(content, before, content.act_cast@[0], rec)
            &&& s1.wf()
            &&& s1.current_act_number == 1
            &&& s1.current_patient_id@ == rec.id@
            &&& s1.next_seed_index == 1
            &&& s1.patients@ == s0.patients@.insert(rec.id@, rec)
            &&& s1.act_history == s0.act_history
            &&& #[trigger] cast_injected(content, &WorldState { act_series: Some(s1), ..*before }, rec, 1, after)
        },
    }
}

/// Starts the first act with the first cast member.
fn bootstrap_first_act(content: &ContentPack, state: &mut WorldState)
    requires
        content.wf(),
        old(state).wf(),
        content.act_cast.len() > 0,
    ensures
        final(state).wf(),
        first_act_started(content, old(state), final(state)),
{
    let patient = build_patient_record(content, state, &content.act_cast[0]);
    let ghost rec = patient;
    let mut series = match state.act_series.take() {
        Some(series) => series,
        None => return,
    };
    let ghost s0 = series;
    let id = string_of(patient.id.as_str());
    series.current_act_number = 1;
    series.current_patient_id = string_of(patient.id.as_str());
    series.next_seed_index = 1;
    series.patients.insert_str(id.as_str(), patient);
    let ghost s1 = series;
    state.act_series = Some(series);
    let ghost mid = *state;
    assert(mid == (WorldState { act_series: Some(s1), ..*old(state) }));
    assert(mid.spec_current_patient() == Some(rec));
    inject_act_cast_vars(content, state);
    assert(record_built(content, old(state), content.act_cast@[0], rec));
    assert(cast_injected(content, &WorldState { act_series: Some(s1), ..*old(state) }, rec, 1, state));
}

/// Whether a series has yet to start its first act.
pub open spec fn needs_first_act(s: ActSeriesState) -> bool {
    s.current_act_number == 0 || s.current_patient_id@.len() == 0
}

/// Whether a series is a fresh one: no act, no cast member, no records.
pub open spec fn fresh_series(s: ActSeriesState) -> bool {
    &&& s.current_act_number == 0
    &&& s.current_patient_id@.len() == 0
    &&& s.next_seed_index == 0
    &&& s.patients@ == Map::<Seq<char>, CastMemberRecord>::empty()
    &&& s.act_history@.len() == 0
}

/// What preparing the acts did, given the series it started from (the
/// world's own, or a fresh one when it had none).
pub open spec fn act_state_prepared(content: &ContentPack, before: &WorldState, s: ActSeriesState, after: &WorldState) -> bool {
    &&& s.wf()
    &&& match before.act_series { Some(o) => s == o, None => fresh_series(s) }
    &&& if needs_first_act(s) {
        first_act_started(content, &WorldState { act_series: Some(s), ..*before }, after)
    } else {
        cast_refreshed(content, before, after)
    }
}

/// Prepares the act series of a pack with a cast: starts a series if there
/// is none, starts the first act if it has not begun, and otherwise exposes
/// the current cast member again.
pub fn initialize_act_state(content: &ContentPack, state: &mut WorldState)
    requires
        content.wf(),
        old(state).wf(),
    ensures
        final(state).wf(),
        content.act_cast.len() == 0 ==> *final(state) == *old(state),
        content.act_cast.len() > 0 ==> exists|s: ActSeriesState| #[trigger] act_state_prepared(content, old(state), s, final(state)),
{
    if content.act_cast.len() == 0 {
        return;
    }
    if state.act_series.is_none() {
        state.act_series = Some(ActSeriesState {
            current_act_number: 0,
            current_patient_id: String::new(),
            next_seed_index: 0,
            patients: StrMap::new(),
            act_history: Vec::new(),
        });
    }
    let ghost s = state.act_series->0;
    let needs = match &state.act_series {
        Some(series) => series.current_act_number == 0 || chars_of(series.current_patient_id.as_str()).len() == 0,
        None => false,
    };
    let ghost state1 = *state;
    assert(state1 == (WorldState { act_series: Some(s), ..*old(state) }));
    if needs {
        bootstrap_first_act(content, state);
    } else {
        inject_act_cast_vars(content, state);
    }
    assert(act_state_prepared(content, old(state), s, state));
}


/// The act in which a record was last seen; zero when never.
pub open spec fn seen_key(rec: CastMemberRecord) -> int {
    match rec.last_seen_act { Some(a) => a as int, None => 0 }
}

/// Among the first `n` records in id order, the one other than the current
/// member seen least recently; the first of equals wins.
pub open spec fn least_recent_upto(series: ActSeriesState, n: int) -> Option<Seq<char>>
    decreases n,
{
    if n <= 0 {
        None
    } else {
        let prev = least_recent_upto(series, n - 1);
        let k = series.patients.key_seq()[n - 1];
        if k == series.current_patient_id@ {
            prev
        } else {
            match prev {
                None => Some(k),
                Some(pk) => if seen_key(series.patients@[k]) < seen_key(series.patients@[pk]) { Some(k) } else { prev },
            }
        }
    }
}

/// The member seen least recently, other than the current one.
pub open spec fn least_recent(series: ActSeriesState) -> Option<Seq<char>> {
    least_recent_upto(series, series.patients.key_seq().len() as int)
}

/// Who leads the next act: from the third act on, every other act brings
/// back the member seen least recently; otherwise the next member in cast
/// order, and once the cast is exhausted the least recent one again (or the
/// current one when there is no other).
pub open spec fn next_cast_member(content: &ContentPack, series: ActSeriesState) -> Seq<char> {
    let least = least_recent(series);
    if series.current_act_number >= 3 && series.current_act_number % 2 == 1 && least is Some {
        least->0
    } else if series.next_seed_index < content.act_cast.len() {
        content.act_cast@[series.next_seed_index as int].id@
    } else {
        match least { Some(k) => k, None => series.current_patient_id@ }
    }
}

fn least_recent_member(series: &ActSeriesState) -> (r: Option<String>)
    requires
        series.wf(),
    ensures
        match r {
            Some(k) => least_recent(*series) == Some(k@),
            None => least_recent(*series) is None,
        },
{
    let n = series.patients.len();
    proof { series.patients.lemma_contents(); }
    let current = chars_of(series.current_patient_id.as_str());
    let mut best: Option<(usize, u32)> = None;
    let mut i: usize = 0;
    while i < n
        invariant
            series.wf(),
            n == series.patients.key_seq().len(),
            i <= n,
            current@ == series.current_patient_id@,
            forall|a: int| 0 <= a < series.patients.key_seq().len() ==>
                series.patients@[series.patients.key_seq()[a]] == #[trigger] series.patients.val_seq()[a],
            match best {
                None => least_recent_upto(*series, i as int) is None,
                Some((b, seen)) => b < i && least_recent_upto(*series, i as int) == Some(series.patients.key_seq()[b as int])
                    && seen as int == seen_key(series.patients@[series.patients.key_seq()[b as int]]),
            },
        decreases n - i,
    {
        let key = series.patients.key_at(i);
        let rec = series.patients.value_at(i);
        if !chars_eq(key, &current) {
            let seen = match rec.last_seen_act { Some(a) => a, None => 0 };
            best = match best {
                None => Some((i, seen)),
                Some((b, bs)) => if seen < bs { Some((i, seen)) } else { Some((b, bs)) },
            };
        }
        i = i + 1;
    }
    match best {
        Some((b, _)) => Some(string_from_chars(series.patients.key_at(b))),
        None => None,
    }
}

/// The id of the member who leads the next act.
fn choose_next_cast_member_id(content: &ContentPack, series: &ActSeriesState) -> (r: String)
    requires
        series.wf(),
    ensures
        r@ == next_cast_member(content, *series),
{
    let least = least_recent_member(series);
    if series.current_act_number >= 3 && series.current_act_number % 2 == 1 {
        match &least {
            Some(k) => return string_of(k.as_str()),
            None => {},
        }
    }
    if series.next_seed_index < content.act_cast.len() {
        return string_of(content.act_cast[series.next_seed_index].id.as_str());
    }
    match least {
        Some(k) => k,
        None => string_of(series.current_patient_id.as_str()),
    }
}


/// Whether the member leading the current act can always be found again:
/// it has a record, or the cast defines it.
pub open spec fn series_consistent(content: &ContentPack, s: ActSeriesState) -> bool {
    s.patients@.dom().contains(s.current_patient_id@)
        || exists|i: int| 0 <= i < content.act_cast.len() && (#[trigger] content.act_cast@[i]).id@ == s.current_patient_id@
}

/// Whether the world's series has yet to start its first act.
pub open spec fn series_starting(state: WorldState) -> bool {
    match state.act_series { Some(s) => needs_first_act(s), None => false }
}

/// Whether the world's series is under way.
pub open spec fn series_rolling(state: WorldState) -> bool {
    match state.act_series { Some(s) => !needs_first_act(s), None => false }
}

/// The rating a review gave, if there is one.
pub open spec fn feedback_rating(feedback: Option<&ActFeedbackSummary>) -> Option<u32> {
    match feedback { Some(f) => Some(f.rating), None => None }
}

/// `x + 1`, or `x` at the largest `u32`.
pub open spec fn bump(x: u32) -> u32 {
    if x == u32::MAX { x } else { (x + 1) as u32 }
}

/// The introduction the world shows for its act: the act's own, or the
/// opening's when the act has none.
pub open spec fn intro_text(content: &ContentPack, state: &WorldState) -> Seq<char> {
    if state.spec_current_patient() is Some
        && !(state.spec_current_act_number() == 1 && state.spec_current_patient()->0.act_count == 0) {
        spec_act_intro(state.spec_current_act_number(), state.spec_current_patient()->0)
    } else {
        content.opening.intro_text@
    }
}

/// How a series looks once an act is closed: the act number moves on, and
/// the member who led it is marked as seen in it, with the feedback it got.
pub open spec fn act_closed(s: ActSeriesState, mid: ActSeriesState, rating: Option<u32>) -> bool {
    let cur = s.current_patient_id@;
    &&& mid.current_act_number == bump(s.current_act_number)
    &&& mid.current_patient_id@ == cur
    &&& mid.next_seed_index == s.next_seed_index
    &&& mid.patients@.dom() == s.patients@.dom()
    &&& forall|k: Seq<char>| #[trigger] mid.patients@.dom().contains(k) && k != cur ==> mid.patients@[k] == s.patients@[k]
    &&& s.patients@.dom().contains(cur) ==> {
        let before = s.patients@[cur];
        let after = mid.patients@[cur];
        &&& after.last_seen_act == Some(s.current_act_number)
        &&& after.act_count == bump(before.act_count)
        &&& after.last_feedback_rating == rating
        &&& after.id == before.id
        &&& after.name == before.name
        &&& after.actor_id == before.actor_id
    }
}

fn copy_opt_text(t: &Option<String>) -> (r: Option<String>)
    ensures
        r is Some == t is Some,
        r matches Some(a) ==> a@ == t->0@,
{
    match t {
        Some(s) => Some(string_of(s.as_str())),
        None => None,
    }
}

/// Closes the current act and opens the next in a fresh world: the leading
/// member's record takes the act's stats and feedback, the act enters the
/// history, the next member (see `next_cast_member`) is chosen and, when
/// new, gets a record, and the clock starts the day of the new act. Returns
/// the new act's introduction; `None` when the pack has no cast or the
/// world no series.
pub fn advance_to_next_act(content: &ContentPack, state: &mut WorldState, feedback: Option<&ActFeedbackSummary>) -> (r: Option<String>)
    requires
        content.wf(),
        old(state).wf(),
        old(state).act_series matches Some(s) ==> needs_first_act(s) || (series_consistent(content, s)
            && content.opening.start_time_minutes + s.current_act_number * 1440 <= u32::MAX),
    ensures
        final(state).wf(),
        content.act_cast.len() == 0 || old(state).act_series is None ==> r is None && *final(state) == *old(state),
        content.act_cast.len() > 0 && old(state).act_series is Some ==> (r matches Some(t) && t@ == intro_text(content, final(state))),
        content.act_cast.len() > 0 && series_starting(*old(state)) ==> first_act_started(content, old(state), final(state)),
        content.act_cast.len() > 0 && series_rolling(*old(state)) ==> {
            let s = old(state).act_series->0;
            &&& final(state).act_series matches Some(s2) && {
                &&& s2.current_act_number == bump(s.current_act_number)
                &&& s2.act_history@.len() == s.act_history@.len() + if s.patients@.dom().contains(s.current_patient_id@) { 1int } else { 0int }
                &&& exists|mid: ActSeriesState| #[trigger] act_closed(s, mid, feedback_rating(feedback))
                    && s2.current_patient_id@ == next_cast_member(content, mid)
            }
            &&& final(state).current_time_minutes == content.opening.start_time_minutes + s.current_act_number * 1440
                || s.current_act_number == u32::MAX
            &&& final(state).last_transcript_line is Some == old(state).last_transcript_line is Some
        },
{
    if content.act_cast.len() == 0 {
        return None;
    }
    let needs = match &state.act_series {
        Some(series) => series.current_act_number == 0 || chars_of(series.current_patient_id.as_str()).len() == 0,
        None => return None,
    };
    if needs {
        bootstrap_first_act(content, state);
        return Some(match current_act_intro(state) {
            Some(t) => t,
            None => string_of(content.opening.intro_text.as_str()),
        });
    }
    let ghost s = state.act_series->0;
    let mut series = match state.act_series.take() {
        Some(series) => series,
        None => return None,
    };
    let rating = match feedback { Some(f) => Some(f.rating), None => None };
    let current_key = chars_of(series.current_patient_id.as_str());
    match series.patients.remove(&current_key) {
        Some(mut current) => {
            current.act_count = current.act_count.saturating_add(1);
            current.last_seen_act = Some(series.current_act_number);
            current.last_feedback_rating = rating;
            current.last_feedback_review = match feedback { Some(f) => Some(string_of(f.review_text.as_str())), None => None };
            current.actor_stats = state.actor_stats_snapshot(current.actor_id.as_str());
            series.act_history.push(ActHistoryEntry {
                act_number: series.current_act_number,
                patient_id: string_of(current.id.as_str()),
                patient_name: string_of(current.name.as_str()),
                feedback_rating: rating,
            });
            series.patients.insert(current_key, current);
        },
        None => {},
    }
    series.current_act_number = series.current_act_number.saturating_add(1);
    let ghost mid = series;
    assert(mid.patients@.dom() =~= s.patients@.dom());
    assert(act_closed(s, mid, rating));
    let next_patient_id = choose_next_cast_member_id(content, &series);
    if !series.patients.contains_str(next_patient_id.as_str()) {
        let mut k: usize = 0;
        while k < content.act_cast.len() && !crate::text::str_eq(content.act_cast[k].id.as_str(), next_patient_id.as_str())
            invariant
                k <= content.act_cast.len(),
                forall|q: int| 0 <= q < k ==> content.act_cast@[q].id@ != next_patient_id@,
            decreases content.act_cast.len() - k,
        {
            k = k + 1;
        }
        if k >= content.act_cast.len() {
            proof {
                assert(false) by {
                    if next_patient_id@ == mid.current_patient_id@ {
                        if mid.patients@.dom().contains(mid.current_patient_id@) {
                        } else {
                            let i = choose|i: int| 0 <= i < content.act_cast.len() && (#[trigger] content.act_cast@[i]).id@ == s.current_patient_id@;
                        }
                    } else {
                        lemma_least_recent_member(mid);
                    }
                }
            }
            return None;
        }
        proof { content.act_cast@[k as int]; }
        let patient = build_patient_record(content, state, &content.act_cast[k]);
        series.next_seed_index = series.next_seed_index.saturating_add(1);
        let id = string_of(patient.id.as_str());
        series.patients.insert_str(id.as_str(), patient);
    }
    series.current_patient_id = next_patient_id;
    let mut next_state = WorldState::new(content);
    let act = series.current_act_number;
    next_state.act_series = Some(series);
    next_state.last_transcript_line = copy_opt_text(&state.last_transcript_line);
    next_state.current_time_minutes = content.opening.start_time_minutes + (act - 1) * 1440;
    inject_act_cast_vars(content, &mut next_state);
    *state = next_state;
    Some(match current_act_intro(state) {
        Some(t) => t,
        None => string_of(content.opening.intro_text.as_str()),
    })
}

proof fn lemma_least_recent_member(series: ActSeriesState)
    requires
        series.wf(),
    ensures
        least_recent(series) matches Some(k) ==> series.patients@.dom().contains(k),
{
    series.patients.lemma_contents();
    lemma_least_recent_upto_in(series, series.patients.key_seq().len() as int);
}

proof fn lemma_least_recent_upto_in(series: ActSeriesState, n: int)
    requires
        series.wf(),
        0 <= n <= series.patients.key_seq().len(),
    ensures
        least_recent_upto(series, n) matches Some(k) ==> series.patients@.dom().contains(k),
    decreases n,
{
    series.patients.lemma_contents();
    if n > 0 {
        lemma_least_recent_upto_in(series, n - 1);
    }
}


/// Story text as the acts render it: story variables substituted, the
/// template cast slot's base name replaced by the current member's name
/// (when they differ), then every actor stat placeholder.
pub open spec fn dynamic_story_text(template: Seq<char>, state: &WorldState) -> Seq<char> {
    let vars = crate::variable_store::render_steps(template, state.story_vars.val_keys(), state.story_vars.val_texts(),
        state.story_vars.val_keys().len());
    let vals = state.story_vars.vals();
    let swapped = if vals.dom().contains(cast_slot_base_name_var()) && vals.dom().contains(cast_name_var())
        && vals[cast_slot_base_name_var()] != vals[cast_name_var()] {
        crate::text::str_replace(vars, vals[cast_slot_base_name_var()], vals[cast_name_var()])
    } else {
        vars
    };
    crate::reducer::observation::replace_all_stat_values(swapped, state.actor_stats.key_seq(), state.actor_stats.val_seq(),
        state.actor_stats.key_seq().len() as int)
}

pub fn render_dynamic_story_text(template: &str, state: &WorldState) -> (r: String)
    requires
        state.wf(),
    ensures
        r@ == dynamic_story_text(template@, state),
{
    let rendered = state.story_vars.render_template(template);
    let mut text = chars_of(rendered.as_str());
    match (state.story_vars.get("act_cast_slot_base_name"), state.story_vars.get("act_cast_name")) {
        (Some(base_name), Some(current_name)) => {
            if !crate::text::str_eq(base_name, current_name) {
                text = crate::text::replace_text(&text, &chars_of(base_name), &chars_of(current_name));
            }
        },
        _ => {},
    }
    let out = crate::reducer::observation::replace_stat_placeholders(text, &state.actor_stats);
    string_from_chars(&out)
}


/// Whether the first `n` metadata keys write story variable `k`.
pub open spec fn meta_writes(keys: Seq<Seq<char>>, n: int, k: Seq<char>) -> bool {
    exists|j: int| 0 <= j < n && #[trigger] keys[j] == keys[j] && "patient_"@ + keys[j] == k
}

proof fn lemma_meta_at(x: Map<Seq<char>, Seq<char>>, y: Map<Seq<char>, Seq<char>>, keys: Seq<Seq<char>>,
    values: Map<Seq<char>, String>, n: int, k: Seq<char>)
    requires
        0 <= n <= keys.len(),
    ensures
        meta_writes(keys, n, k) ==> meta_vars(x, keys, values, n).dom().contains(k) && meta_vars(y, keys, values, n).dom().contains(k)
            && meta_vars(x, keys, values, n)[k] == meta_vars(y, keys, values, n)[k],
        !meta_writes(keys, n, k) ==> (meta_vars(x, keys, values, n).dom().contains(k) == x.dom().contains(k))
            && (x.dom().contains(k) ==> meta_vars(x, keys, values, n)[k] == x[k]),
    decreases n,
{
    if n > 0 {
        lemma_meta_at(x, y, keys, values, n - 1, k);
        if "patient_"@ + keys[n - 1] != k {
            if meta_writes(keys, n, k) {
                let j = choose|j: int| 0 <= j < n && #[trigger] keys[j] == keys[j] && "patient_"@ + keys[j] == k;
                assert(j < n - 1);
                assert(meta_writes(keys, n - 1, k));
            }
            if meta_writes(keys, n - 1, k) {
                let j = choose|j: int| 0 <= j < n - 1 && #[trigger] keys[j] == keys[j] && "patient_"@ + keys[j] == k;
                assert(meta_writes(keys, n, k));
            }
        } else {
            assert(keys[n - 1] == keys[n - 1]);
            assert(meta_writes(keys, n, k));
        }
    }
}

/// Exposing a cast member twice gives the story variables of exposing it
/// once.
proof fn lemma_injected_twice(v: Map<Seq<char>, Seq<char>>, p: CastMemberRecord, template: Seq<char>, base: Seq<char>, act: u32)
    ensures
        injected_vars(injected_vars(v, p, template, base, act), p, template, base, act) == injected_vars(v, p, template, base, act),
{
    let u = injected_vars(v, p, template, base, act);
    let keys = p.metadata.key_seq();
    let n = keys.len() as int;
    let w = |m: Map<Seq<char>, Seq<char>>| m.insert(cast_actor_id_var(), p.actor_id@).insert(cast_template_actor_id_var(), template)
        .insert(cast_slot_base_name_var(), base).insert(cast_name_var(), p.name@).insert("act_number"@, nat_text(act as nat));
    let a = meta_vars(w(u), keys, p.metadata@, n);
    let b = meta_vars(w(v), keys, p.metadata@, n);
    assert forall|k: Seq<char>| k != "patient_returning"@ implies (a.dom().contains(k) <==> b.dom().contains(k)) by {
        lemma_meta_at(w(u), w(v), keys, p.metadata@, n, k);
        lemma_meta_at(w(v), w(u), keys, p.metadata@, n, k);
        lemma_meta_at(w(v), w(v), keys, p.metadata@, n, k);
    }
    assert forall|k: Seq<char>| a.dom().contains(k) && k != "patient_returning"@ implies a[k] == b[k] by {
        lemma_meta_at(w(u), w(v), keys, p.metadata@, n, k);
        lemma_meta_at(w(v), w(u), keys, p.metadata@, n, k);
        lemma_meta_at(w(v), w(v), keys, p.metadata@, n, k);
    }
    assert(a.insert("patient_returning"@, if p.act_count > 0 { "true"@ } else { "false"@ })
        =~= b.insert("patient_returning"@, if p.act_count > 0 { "true"@ } else { "false"@ }));
}

/// Whether one of the first `n` cast actors is `k`.
pub open spec fn cast_touches(cast: Seq<ActCastMember>, n: int, k: Seq<char>) -> bool {
    exists|j: int| 0 <= j < n && #[trigger] cast[j].actor_id@ == k
}

proof fn lemma_overrides_at(x: Map<Seq<char>, Seq<char>>, y: Map<Seq<char>, Seq<char>>, cast: Seq<ActCastMember>, current: Seq<char>,
    n: int, k: Seq<char>)
    requires
        0 <= n <= cast.len(),
    ensures
        cast_touches(cast, n, k) ==> (cast_overrides(x, cast, current, n).dom().contains(k) == cast_overrides(y, cast, current, n).dom().contains(k))
            && (cast_overrides(x, cast, current, n).dom().contains(k) ==> cast_overrides(x, cast, current, n)[k] == cast_overrides(y, cast, current, n)[k]),
        !cast_touches(cast, n, k) ==> (cast_overrides(x, cast, current, n).dom().contains(k) == x.dom().contains(k))
            && (x.dom().contains(k) ==> cast_overrides(x, cast, current, n)[k] == x[k]),
    decreases n,
{
    if n > 0 {
        lemma_overrides_at(x, y, cast, current, n - 1, k);
        if cast[n - 1].actor_id@ != k {
            if cast_touches(cast, n, k) {
                let j = choose|j: int| 0 <= j < n && #[trigger] cast[j].actor_id@ == k;
                assert(cast_touches(cast, n - 1, k));
            }
            if cast_touches(cast, n - 1, k) {
                let j = choose|j: int| 0 <= j < n - 1 && #[trigger] cast[j].actor_id@ == k;
                assert(cast_touches(cast, n, k));
            }
        } else {
            assert(cast_touches(cast, n, k));
        }
    }
}

proof fn lemma_overrides_twice(m: Map<Seq<char>, Seq<char>>, cast: Seq<ActCastMember>, current: Seq<char>)
    ensures
        cast_overrides(cast_overrides(m, cast, current, cast.len() as int), cast, current, cast.len() as int)
            == cast_overrides(m, cast, current, cast.len() as int),
{
    let n = cast.len() as int;
    let once = cast_overrides(m, cast, current, n);
    let twice = cast_overrides(once, cast, current, n);
    assert forall|k: Seq<char>| twice.dom().contains(k) <==> once.dom().contains(k) by {
        lemma_overrides_at(once, m, cast, current, n, k);
    }
    assert forall|k: Seq<char>| twice.dom().contains(k) implies twice[k] == once[k] by {
        lemma_overrides_at(once, m, cast, current, n, k);
    }
    assert(twice =~= once);
}

/// Exposing the same cast member for the same act a second time leaves the
/// world as the first time left it (story variables, stats and placements
/// read the same; every other part is unchanged).
pub proof fn lemma_inject_twice(content: &ContentPack, x: &WorldState, p: CastMemberRecord, act: u32, s1: &WorldState, s2: &WorldState)
    requires
        cast_injected(content, x, p, act, s1),
        cast_injected(content, s1, p, act, s2),
    ensures
        *s2 == (WorldState { story_vars: s2.story_vars, actor_stats: s2.actor_stats, initial_actor_stats: s2.initial_actor_stats,
            actor_room_overrides: s2.actor_room_overrides, ..*s1 }),
        s2.story_vars.decls() == s1.story_vars.decls(),
        s2.story_vars.vals() == s1.story_vars.vals(),
        text_view(s2.actor_room_overrides@) == text_view(s1.actor_room_overrides@),
        s2.actor_stats@.dom() == s1.actor_stats@.dom(),
        forall|k: Seq<char>| #[trigger] s2.actor_stats@.dom().contains(k) ==> s2.actor_stats@[k]@ == s1.actor_stats@[k]@,
        s2.initial_actor_stats@.dom() == s1.initial_actor_stats@.dom(),
        forall|k: Seq<char>| #[trigger] s2.initial_actor_stats@.dom().contains(k) ==> s2.initial_actor_stats@[k]@ == s1.initial_actor_stats@[k]@,
{
    let template = match template_actor_of(content) { Some(t) => t, None => p.actor_id@ };
    let base = if content.has_actor(template) { content.spec_actor(template).name@ } else { p.name@ };
    lemma_injected_twice(x.story_vars.vals(), p, template, base, act);
    lemma_overrides_twice(text_view(x.actor_room_overrides@), content.act_cast@, p.actor_id@);
}

/// Preparing the acts twice in a row changes nothing more the second time,
/// once the first act has begun under a cast member with an id: the series
/// stays, the story variables, stats and actor placements read the same, and
/// every other part of the world is unchanged.
pub proof fn law_preparing_acts_twice_changes_nothing(content: &ContentPack, s0: &WorldState, a: ActSeriesState, s1: &WorldState,
    b: ActSeriesState, s2: &WorldState)
    requires
        content.act_cast.len() > 0,
        act_state_prepared(content, s0, a, s1),
        act_state_prepared(content, s1, b, s2),
        !needs_first_act(b),
    ensures
        *s2 == (WorldState { story_vars: s2.story_vars, actor_stats: s2.actor_stats, initial_actor_stats: s2.initial_actor_stats,
            actor_room_overrides: s2.actor_room_overrides, ..*s1 }),
        s2.act_series == s1.act_series,
        s2.story_vars.vals() == s1.story_vars.vals(),
        text_view(s2.actor_room_overrides@) == text_view(s1.actor_room_overrides@),
        forall|k: Seq<char>| #[trigger] s2.actor_stats@.dom().contains(k) ==> s2.actor_stats@[k]@ == s1.actor_stats@[k]@,
{
    assert(s1.act_series == Some(b));
    if needs_first_act(a) {
        let x0 = WorldState { act_series: Some(a), ..*s0 };
        let (rec, s1series) = choose|rec: CastMemberRecord, s1series: ActSeriesState| {
            &&& #[trigger] record_built(content, &x0, content.act_cast@[0], rec)
            &&& s1series.wf()
            &&& s1series.current_act_number == 1
            &&& s1series.current_patient_id@ == rec.id@
            &&& s1series.next_seed_index == 1
            &&& s1series.patients@ == a.patients@.insert(rec.id@, rec)
            &&& s1series.act_history == a.act_history
            &&& #[trigger] cast_injected(content, &WorldState { act_series: Some(s1series), ..x0 }, rec, 1, s1)
        };
        assert(s1.act_series == Some(s1series));
        assert(s1.spec_current_patient() == Some(rec));
        lemma_inject_twice(content, &WorldState { act_series: Some(s1series), ..x0 }, rec, 1, s1, s2);
    } else {
        let p = s0.spec_current_patient()->0;
        if s0.spec_current_patient() is Some {
            assert(s1.spec_current_patient() == Some(p));
            lemma_inject_twice(content, s0, p, s0.spec_current_act_number(), s1, s2);
        } else {
            assert(s2 == s1);
        }
    }
}

} // verus!
