use vstd::prelude::*;
use crate::content::{find_option, option_title, ContentPack, OpeningMenuDefinition, OpeningMenuOptionDefinition};
use crate::panels::{panel_view, panel_views, PanelOption, PanelView};
use crate::state::WorldState;
use crate::text::{nat_text, str_eq, string_from_chars, string_of, u64_chars};
use super::{opt_view, CinderRuntime};

verus! {

/// The title that a menu's stored pick reads as now: from the options
/// written for this play when they hold it, else from the menu's own.
pub open spec fn chosen_title(menu: OpeningMenuDefinition, generated: Map<Seq<char>, Vec<OpeningMenuOptionDefinition>>, id: Seq<char>)
    -> Option<Seq<char>> {
    let written = if generated.dom().contains(menu.id@) { option_title(generated[menu.id@]@, id) } else { None };
    match written {
        Some(t) => Some(t),
        None => option_title(menu.options@, id),
    }
}

/// The story variables once the first `n` menus have re-read their picks:
/// a menu that keeps both the pick's id and its title, and whose stored id
/// names one of its options, writes that option's title to its title key and
/// to `selection_title`.
pub open spec fn relocalized(vars: Map<Seq<char>, Seq<char>>, generated: Map<Seq<char>, Vec<OpeningMenuOptionDefinition>>,
    menus: Seq<OpeningMenuDefinition>, n: int) -> Map<Seq<char>, Seq<char>>
    decreases n,
{
    if n <= 0 {
        vars
    } else {
        let prev = relocalized(vars, generated, menus, n - 1);
        let menu = menus[n - 1];
        if menu.selection_var_key@.len() == 0 || menu.selection_id_var_key@.len() == 0
            || !prev.dom().contains(menu.selection_id_var_key@) {
            prev
        } else {
            match chosen_title(menu, generated, prev[menu.selection_id_var_key@]) {
                Some(t) => prev.insert(menu.selection_var_key@, t).insert("selection_title"@, t),
                None => prev,
            }
        }
    }
}

/// The options a menu shows: those written for this play when the menu is
/// written afresh and they exist, otherwise its own.
pub open spec fn shown_menu_options(state: &WorldState, menu: OpeningMenuDefinition) -> Seq<OpeningMenuOptionDefinition> {
    if menu.dynamic && state.generated_menu_options@.dom().contains(menu.id@) {
        state.generated_menu_options@[menu.id@]@
    } else {
        menu.options@
    }
}

/// An option as a panel entry, chosen by its number counted from 1.
pub open spec fn choice_view(o: OpeningMenuOptionDefinition, i: int) -> PanelView {
    (o.id@, o.title@, nat_text((i + 1) as nat), o.menu_text@)
}

/// The panel entries of a menu: its options, numbered, then a closing
/// entry when the menu takes several picks.
pub open spec fn menu_choice_views(menu: OpeningMenuDefinition, options: Seq<OpeningMenuOptionDefinition>) -> Seq<PanelView> {
    let numbered = Seq::new(options.len(), |i: int| choice_view(options[i], i));
    if menu.max_selections > 0 {
        numbered.push(("done"@, "Done"@, "done"@, "Confirm selection"@))
    } else {
        numbered
    }
}

/// Whether an option was written from a generated (id, title, menu text)
/// triple, with nothing else set.
pub open spec fn written_from(d: OpeningMenuOptionDefinition, o: (String, String, String)) -> bool {
    &&& d.id@ == o.0@
    &&& d.title@ == o.1@
    &&& d.menu_text@ == o.2@
    &&& d.narrative_lines@.len() == 0
    &&& d.room_id@.len() == 0
    &&& d.host_actor_id@.len() == 0
}

fn find_option_title(options: &Vec<OpeningMenuOptionDefinition>, id: &str) -> (r: Option<String>)
    ensures
        opt_view(r) == option_title(options@, id@),
{
    match find_option(options, id) {
        Some(o) => Some(string_of(o.title.as_str())),
        None => None,
    }
}

/// The panel entries for a menu's options.
fn render_menu_choice_options(menu: &OpeningMenuDefinition, options: &Vec<OpeningMenuOptionDefinition>) -> (r: Vec<PanelOption>)
    ensures
        panel_views(r@) == menu_choice_views(*menu, options@),
{
    let mut out: Vec<PanelOption> = Vec::new();
    let mut i: usize = 0;
    while i < options.len()
        invariant
            i <= options.len(),
            panel_views(out@) == Seq::new(i as nat, |j: int| choice_view(options@[j], j)),
        decreases options.len() - i,
    {
        let option = &options[i];
        let number = string_from_chars(&u64_chars((i + 1) as u64));
        let entry = PanelOption {
            id: string_of(option.id.as_str()),
            title: string_of(option.title.as_str()),
            command: number,
            menu_text: string_of(option.menu_text.as_str()),
        };
        let ghost before = out@;
        proof {
            assert(((i + 1) as u64) as nat == (i + 1) as nat);
            assert(panel_view(entry) == choice_view(options@[i as int], i as int));
        }
        out.push(entry);
        assert(panel_views(out@) =~= panel_views(before).push(panel_view(entry)));
        assert(panel_views(out@) =~= Seq::new((i + 1) as nat, |j: int| choice_view(options@[j], j)));
        i = i + 1;
    }
    if menu.max_selections > 0 {
        let ghost before = out@;
        out.push(PanelOption {
            id: string_of("done"),
            title: string_of("Done"),
            command: string_of("done"),
            menu_text: string_of("Confirm selection"),
        });
        assert(panel_views(out@) =~= panel_views(before).push(("done"@, "Done"@, "done"@, "Confirm selection"@)));
    }
    out
}

impl CinderRuntime {
    /// Re-reads each menu's stored pick: where a menu keeps the id of its
    /// pick and a key for its title, and the id names one of its options,
    /// the option's title is written again (to the menu's title key and to
    /// `selection_title`), so that titles follow the options in force.
    pub fn relocalize_story_vars(&mut self)
        requires
            old(self).wf(),
        ensures
            final(self).wf(),
            final(self).spec_content() == old(self).spec_content(),
            final(self).cached_act_closure() == old(self).cached_act_closure(),
            final(self).cached_game_closure() == old(self).cached_game_closure(),
            final(self).spec_state() == (WorldState { story_vars: final(self).spec_state().story_vars, ..old(self).spec_state() }),
            final(self).spec_state().story_vars.decls() == old(self).spec_state().story_vars.decls(),
            final(self).spec_state().story_vars.vals() == relocalized(old(self).spec_state().story_vars.vals(),
                old(self).spec_state().generated_menu_options@, old(self).spec_content().menus@,
                old(self).spec_content().menus.len() as int),
    {
        let ghost start = self.state;
        let mut i: usize = 0;
        while i < self.content.menus.len()
            invariant
                i <= self.content.menus.len(),
                self.content == old(self).spec_content(),
                self.act_closure == old(self).act_closure,
                self.game_closure == old(self).game_closure,
                start == old(self).spec_state(),
                self.content.wf(),
                self.state.wf(),
                self.state == (WorldState { story_vars: self.state.story_vars, ..start }),
                self.state.story_vars.decls() == start.story_vars.decls(),
                self.state.story_vars.vals() == relocalized(start.story_vars.vals(), start.generated_menu_options@,
                    self.content.menus@, i as int),
            decreases self.content.menus.len() - i,
        {
            let menu = &self.content.menus[i];
            if menu.selection_var_key.as_str().unicode_len() > 0 && menu.selection_id_var_key.as_str().unicode_len() > 0 {
                let stored = self.state.story_vars.get(menu.selection_id_var_key.as_str());
                match stored {
                    Some(s) => {
                        let selected = string_of(s);
                        let written = match self.state.generated_menu_options.get_str(menu.id.as_str()) {
                            Some(options) => find_option_title(options, selected.as_str()),
                            None => None,
                        };
                        let title = match written {
                            Some(t) => Some(t),
                            None => find_option_title(&menu.options, selected.as_str()),
                        };
                        match title {
                            Some(t) => {
                                self.state.story_vars.set_unchecked(menu.selection_var_key.as_str(), t.as_str());
                                self.state.story_vars.set_unchecked("selection_title", t.as_str());
                            },
                            None => {},
                        }
                    },
                    None => {},
                }
            }
            i = i + 1;
        }
    }

    /// The active menu's options as panel entries, numbered from 1, with a
    /// closing entry when it takes several picks; `None` when no menu is
    /// open or the pack lacks it.
    pub fn menu_choice_options(&self) -> (r: Option<Vec<PanelOption>>)
        requires
            self.wf(),
        ensures
            ({
                let content = self.spec_content();
                let state = self.spec_state();
                match state.active_menu_id {
                    Some(id) if content.has_menu(id@) => r matches Some(v)
                        && panel_views(v@) == menu_choice_views(content.spec_menu(id@), shown_menu_options(&state, content.spec_menu(id@))),
                    _ => r is None,
                }
            }),
    {
        let menu_id = match &self.state.active_menu_id {
            Some(id) => id,
            None => return None,
        };
        let menu = match self.content.menu(menu_id.as_str()) {
            Some(m) => m,
            None => return None,
        };
        if menu.dynamic {
            match self.state.generated_menu_options.get_str(menu.id.as_str()) {
                Some(options) => return Some(render_menu_choice_options(menu, options)),
                None => {},
            }
        }
        Some(render_menu_choice_options(menu, &menu.options))
    }

    /// The id of the open menu when its options are to be written afresh
    /// for this play and have not been yet.
    pub fn pending_menu_generation(&self) -> (r: Option<String>)
        requires
            self.wf(),
        ensures
            ({
                let content = self.spec_content();
                let state = self.spec_state();
                match state.active_menu_id {
                    Some(id) if content.has_menu(id@) && content.spec_menu(id@).dynamic
                        && !state.generated_menu_options@.dom().contains(id@) => r matches Some(m) && m@ == id@,
                    _ => r is None,
                }
            }),
    {
        let menu_id = match &self.state.active_menu_id {
            Some(id) => id,
            None => return None,
        };
        match self.content.menu(menu_id.as_str()) {
            Some(menu) => {
                if menu.dynamic && self.state.generated_menu_options.get_str(menu_id.as_str()).is_none() {
                    Some(string_of(menu_id.as_str()))
                } else {
                    None
                }
            },
            None => None,
        }
    }

    /// Keeps the options written for a menu in this play, each from its
    /// (id, title, menu text).
    pub fn record_generated_menu_options(&mut self, menu_id: &str, options: Vec<(String, String, String)>)
        requires
            old(self).wf(),
        ensures
            final(self).wf(),
            final(self).spec_content() == old(self).spec_content(),
            final(self).cached_act_closure() == old(self).cached_act_closure(),
            final(self).cached_game_closure() == old(self).cached_game_closure(),
            ({
                let before = old(self).spec_state();
                let after = final(self).spec_state();
                let written = after.generated_menu_options@[menu_id@]@;
                &&& after == (WorldState { generated_menu_options: after.generated_menu_options, ..before })
                &&& after.generated_menu_options@ == before.generated_menu_options@.insert(menu_id@, after.generated_menu_options@[menu_id@])
                &&& written.len() == options@.len()
                &&& forall|i: int| 0 <= i < options@.len() ==> written_from(#[trigger] written[i], options@[i])
            }),
    {
        let mut defs: Vec<OpeningMenuOptionDefinition> = Vec::new();
        let mut i: usize = 0;
        while i < options.len()
            invariant
                i <= options.len(),
                defs@.len() == i,
                forall|j: int| 0 <= j < i ==> written_from(#[trigger] defs@[j], options@[j]),
            decreases options.len() - i,
        {
            let (id, title, menu_text) = &options[i];
            defs.push(OpeningMenuOptionDefinition {
                id: string_of(id.as_str()),
                title: string_of(title.as_str()),
                menu_text: string_of(menu_text.as_str()),
                narrative_lines: Vec::new(),
                room_id: String::new(),
                host_actor_id: String::new(),
            });
            i = i + 1;
        }
        self.state.generated_menu_options.insert_str(menu_id, defs);
    }
}

} // verus!
