//! Actions, and the keys and commands that trigger them.
use vstd::prelude::*;

use crate::config::{
    Action, Config, KeyPress, ModifiersState, Settings, TilingConfig, VT_SWITCH_1, VT_SWITCH_12,
};
use crate::effect::Effect;
use crate::output::{find_layout, Direction, TagId};
use crate::scalar::Scalar;
use crate::state::tags::tag_direction;
use crate::state::Alice;
use crate::window::WindowId;
use crate::world::{sound_settings, World};
use crate::world_actions::{slide_direction, RATIO_CEILING, RATIO_FLOOR};
use crate::world_laws::{
    lemma_focus_shifted_wf, lemma_moved_to_output_wf, lemma_moved_to_tag_wf, lemma_nearest,
    lemma_output_focused_wf, lemma_relaid_wf, lemma_rendered_registered, lemma_slid_wf,
    lemma_toggled_wf, lemma_window_shifted_wf,
};

verus! {

broadcast use crate::table::group_keys_distinct;

/// An action that can be carried out keeps the state sound.
pub proof fn lemma_acted_wf(w: World, action: Action)
    requires
        w.wf(),
        w.ready(action),
    ensures
        w.acted(action).wf(),
        w.acted(action).outputs.infos.len() == w.outputs.infos.len(),
{
    reveal(World::acted);
    match action {
        Action::Close => {
            lemma_closed_wf(w);
        },
        Action::FullScreen => {
            if w.windows.focused is Some {
                lemma_toggled_wf(w, w.windows.focused->0);
            }
        },
        Action::FocusTag(tag) => {
            lemma_slid_wf(w, tag, slide_direction(w.outputs.current_tag(), tag), None);
        },
        Action::MoveToTag(tag) => {
            lemma_moved_to_tag_wf(w, tag, slide_direction(w.outputs.current_tag(), tag));
        },
        Action::FocusNextTag => {
            if w.outputs.current_tag() is Some {
                let tag = w.outputs.current_tag()->0;
                lemma_slid_wf(w, TagId((tag.0 + 1) as u32), 1, None);
            }
        },
        Action::FocusPreviousTag => {
            if w.outputs.current_tag() is Some {
                let tag = w.outputs.current_tag()->0;
                lemma_slid_wf(
                    w,
                    TagId((tag.0 - 1) as u32),
                    (-1int) as i32,
                    None,
                );
            }
        },
        Action::MoveNextTag => {
            if w.outputs.current_tag() is Some {
                let tag = w.outputs.current_tag()->0;
                lemma_moved_to_tag_wf(w, TagId((tag.0 + 1) as u32), 1);
            }
        },
        Action::MovePreviousTag => {
            if w.outputs.current_tag() is Some {
                let tag = w.outputs.current_tag()->0;
                lemma_moved_to_tag_wf(
                    w,
                    TagId((tag.0 - 1) as u32),
                    (-1int) as i32,
                );
            }
        },
        Action::FocusDownStack => lemma_focus_shifted_wf(w, false),
        Action::FocusUpStack => lemma_focus_shifted_wf(w, true),
        Action::MoveDownStack => lemma_window_shifted_wf(w, false),
        Action::MoveUpStack => lemma_window_shifted_wf(w, true),
        Action::FocusOutputLeft => lemma_focused_towards_wf(w, Direction::Left),
        Action::FocusOutputRight => lemma_focused_towards_wf(w, Direction::Right),
        Action::FocusOutputUp => lemma_focused_towards_wf(w, Direction::Up),
        Action::FocusOutputDown => lemma_focused_towards_wf(w, Direction::Down),
        Action::MoveOutputLeft => lemma_moved_to_output_wf(w, Direction::Left),
        Action::MoveOutputRight => lemma_moved_to_output_wf(w, Direction::Right),
        Action::MoveOutputUp => lemma_moved_to_output_wf(w, Direction::Up),
        Action::MoveOutputDown => lemma_moved_to_output_wf(w, Direction::Down),
        Action::HideTabletWindows
        | Action::ShowTabletWindows
        | Action::ToggleTabletWindows
        | Action::MakeRightHanded
        | Action::MakeLeftHanded
        | Action::FlipHandedness => {
            assert forall|tiling: TilingConfig| (#[trigger] w.tiling_changed(tiling)).wf()
                && w.tiling_changed(tiling).outputs == w.outputs by {
                lemma_tiling_changed_wf(w, tiling);
            }
        },
        _ => {},
    }
}

proof fn lemma_focused_towards_wf(w: World, direction: Direction)
    requires
        w.wf(),
        w.outputs.has(w.outputs.focused),
    ensures
        w.output_focused_towards(direction).wf(),
        w.output_focused_towards(direction).outputs.infos.len() == w.outputs.infos.len(),
{
    if w.nearest(direction) is Some {
        lemma_nearest(w, direction);
        lemma_output_focused_wf(w, w.nearest(direction)->0);
    }
}

pub proof fn lemma_tiling_changed_wf(w: World, tiling: TilingConfig)
    requires
        w.wf(),
    ensures
        w.tiling_changed(tiling).wf(),
        w.tiling_changed(tiling).outputs == w.outputs,
{
    let changed = World { config: Settings { tiling, ..w.config }, ..w };
    lemma_relaid_wf(changed, None, true);
}

proof fn lemma_closed_wf(w: World)
    requires
        w.wf(),
    ensures
        w.closed().wf(),
        w.closed().outputs == w.outputs,
{
    if w.windows.focused_info() is Some {
        let info = w.windows.focused_info()->0;
        lemma_first_unfocused(w, w.windows.rendered(info.home()));
        match w.first_unfocused(w.windows.rendered(info.home())) {
            Some(id) => {
                lemma_rendered_registered(w, info.home(), id);
            },
            None => {},
        }
    }
}

proof fn lemma_first_unfocused(w: World, ids: Seq<WindowId>)
    ensures
        w.first_unfocused(ids) matches Some(id) ==> ids.contains(id) && w.windows.focused != Some(
            id,
        ),
    decreases ids.len(),
{
    if ids.len() > 0 {
        if w.windows.focused != Some(ids[0]) {
            assert(ids.contains(ids[0]));
        } else {
            lemma_first_unfocused(w, ids.skip(1));
            match w.first_unfocused(ids.skip(1)) {
                Some(id) => {
                    let k = choose|k: int| 0 <= k < ids.skip(1).len() && ids.skip(1)[k] == id;
                    assert(ids[k + 1] == id);
                },
                None => {},
            }
        }
    }
}

impl Alice {
    /// Whether `action` can be carried out now.
    pub fn is_ready(&self, action: &Action) -> (r: bool)
        ensures
            r == self@.ready(*action),
    {
        match action {
            Action::SetLayout(name) => find_layout(name.as_str()).is_some() && self.has_focused_output(),
            Action::FocusOutputLeft
            | Action::FocusOutputRight
            | Action::FocusOutputUp
            | Action::FocusOutputDown
            | Action::MoveOutputLeft
            | Action::MoveOutputRight
            | Action::MoveOutputUp
            | Action::MoveOutputDown => self.has_focused_output(),
            Action::FocusNextTag | Action::MoveNextTag => self.can_step(),
            _ => true,
        }
    }

    /// Whether there is a focused output.
    pub fn has_focused_output(&self) -> (r: bool)
        ensures
            r == self@.outputs.has(self@.outputs.focused),
    {
        self.outputs.current_focused_tag().is_some()
    }

    /// Asks the focused window to close, and marks another window of its
    /// scope as focused.
    fn close_focused(&mut self)
        requires
            old(self)@.wf(),
        ensures
            final(self)@ == old(self)@.closed(),
            final(self)@.wf(),
    {
        proof {
            lemma_closed_wf(self@);
        }
        let info = match self.window_registry.get_focused() {
            Some(info) => *info,
            None => return,
        };
        self.emit(Effect::Close(info.window.surface));
        let ids = self.window_registry.filter(&info.scope());
        let mut i: usize = 0;
        assert(ids@.skip(0) =~= ids@);
        while i < ids.len()
            invariant
                i <= ids.len(),
                self@ == old(self)@.emit(Effect::Close(info.window.surface)),
                old(self)@.windows.focused_info() == Some(info),
                ids@ == old(self)@.windows.rendered(info.home()),
                old(self)@.closed().wf(),
                old(self)@.first_unfocused(ids@) == old(self)@.first_unfocused(
                    ids@.skip(i as int),
                ),
            decreases ids.len() - i,
        {
            assert(ids@.skip(i as int).skip(1) =~= ids@.skip(i + 1));
            if Some(ids[i]) != self.window_registry.focused_window() {
                self.window_registry.change_focus(Some(ids[i]));
                return;
            }
            i += 1;
        }
    }

    fn change_tiling(&mut self, tiling: TilingConfig)
        requires
            old(self)@.wf(),
        ensures
            final(self)@ == old(self)@.tiling_changed(tiling),
            final(self)@.wf(),
    {
        proof {
            lemma_tiling_changed_wf(self@, tiling);
        }
        self.config.set_tiling(tiling);
        self.relayout(None);
    }

    /// Carries out an action.
    pub fn handle_action(&mut self, action: Action)
        requires
            old(self)@.wf(),
            old(self)@.ready(action),
        ensures
            final(self)@ == old(self)@.acted(action),
            final(self)@.wf(),
            final(self)@.outputs.infos.len() == old(self)@.outputs.infos.len(),
    {
        proof {
            reveal(World::acted);
            lemma_acted_wf(self@, action);
        }
        let tiling = self.config.tiling();
        match action {
            Action::Quit => {
                self.emit(Effect::Quit);
            },
            Action::ReloadConfig => {
                self.emit(Effect::ReloadConfig);
            },
            Action::Close => {
                self.close_focused();
            },
            Action::FullScreen => {
                if let Some(id) = self.window_registry.focused_window() {
                    self.toggle_fullscreen(id);
                }
            },
            Action::Spawn(command) => {
                self.emit(Effect::Spawn(command));
            },
            Action::FocusTag(tag) => {
                let direction = self.direction_to(tag);
                self.slide_tag(tag, direction);
            },
            Action::MoveToTag(tag) => {
                let direction = self.direction_to(tag);
                self.move_to_tag(tag, direction);
            },
            Action::FocusNextTag => {
                self.focus_next_tag();
            },
            Action::FocusPreviousTag => {
                self.focus_prevous_tag();
            },
            Action::MoveNextTag => {
                self.move_next_tag();
            },
            Action::MovePreviousTag => {
                self.move_prevous_tag();
            },
            Action::SetLayout(name) => {
                self.change_layout(name.as_str());
            },
            Action::FocusDownStack => {
                self.focus_down();
            },
            Action::FocusUpStack => {
                self.focus_up();
            },
            Action::MoveDownStack => {
                self.move_down();
            },
            Action::MoveUpStack => {
                self.move_up();
            },
            Action::FocusOutputLeft => {
                self.focus_output_direction(Direction::Left);
            },
            Action::FocusOutputRight => {
                self.focus_output_direction(Direction::Right);
            },
            Action::FocusOutputUp => {
                self.focus_output_direction(Direction::Up);
            },
            Action::FocusOutputDown => {
                self.focus_output_direction(Direction::Down);
            },
            Action::MoveOutputLeft => {
                self.move_to_output(Direction::Left);
            },
            Action::MoveOutputRight => {
                self.move_to_output(Direction::Right);
            },
            Action::MoveOutputUp => {
                self.move_to_output(Direction::Up);
            },
            Action::MoveOutputDown => {
                self.move_to_output(Direction::Down);
            },
            Action::IncrementMasterRatio(amount) => {
                self.emit(Effect::RaiseMasterRatio(amount));
            },
            Action::DecrementMasterRatio(amount) => {
                self.emit(Effect::LowerMasterRatio(amount));
            },
            Action::HideTabletWindows => {
                self.change_tiling(TilingConfig { tablet_hide_minimized: true, ..tiling });
            },
            Action::ShowTabletWindows => {
                self.change_tiling(TilingConfig { tablet_hide_minimized: false, ..tiling });
            },
            Action::ToggleTabletWindows => {
                self.change_tiling(
                    TilingConfig {
                        tablet_hide_minimized: !tiling.tablet_hide_minimized,
                        ..tiling
                    },
                );
            },
            Action::MakeRightHanded => {
                self.change_tiling(TilingConfig { right_handed: true, ..tiling });
            },
            Action::MakeLeftHanded => {
                self.change_tiling(TilingConfig { right_handed: false, ..tiling });
            },
            Action::FlipHandedness => {
                self.change_tiling(
                    TilingConfig { right_handed: !tiling.right_handed, ..tiling },
                );
            },
        }
    }

    fn direction_to(&self, tag: TagId) -> (direction: i32)
        ensures
            direction == slide_direction(self@.outputs.current_tag(), tag),
            direction == 1 || direction == -1,
    {
        match self.outputs.current_focused_tag() {
            Some(current) => tag_direction(current, tag),
            None => 1,
        }
    }

    /// Takes over a raised master ratio, unless it reaches the ceiling.
    pub fn raise_master_ratio(&mut self, ratio: Scalar)
        requires
            old(self)@.wf(),
        ensures
            final(self)@ == old(self)@.ratio_raised(ratio),
            final(self)@.wf(),
    {
        let mut tiling = self.config.tiling();
        if ratio.lt(&Scalar { bits: RATIO_CEILING }) {
            tiling.master_ratio = ratio;
        }
        self.change_tiling(tiling);
    }

    /// Takes over a lowered master ratio, unless it reaches the floor.
    pub fn lower_master_ratio(&mut self, ratio: Scalar)
        requires
            old(self)@.wf(),
        ensures
            final(self)@ == old(self)@.ratio_lowered(ratio),
            final(self)@.wf(),
    {
        let mut tiling = self.config.tiling();
        if (Scalar { bits: RATIO_FLOOR }).lt(&ratio) {
            tiling.master_ratio = ratio;
        }
        self.change_tiling(tiling);
    }

    /// The action that a key triggers.
    pub fn key_action(&self, mods: &ModifiersState, sym: u32) -> (action: Option<Action>)
        ensures
            action == self@.key_action(*mods, sym),
    {
        let press = KeyPress::from(mods, sym);
        let action = if self.locked {
            self.config.get_lock_keypress(&press)
        } else {
            self.config.get_keypress(&press)
        };
        match action {
            Some(action) => Some(action.clone()),
            None => None,
        }
    }

    /// Does what a key is bound to. Returns whether it is bound to anything.
    pub fn try_handle_keypress(&mut self, mods: &ModifiersState, sym: u32) -> (handled: bool)
        requires
            old(self)@.wf(),
            !World::switches_vt(sym) && old(self)@.key_action(*mods, sym) is Some
                ==> old(self)@.ready(old(self)@.key_action(*mods, sym)->0),
        ensures
            handled == (World::switches_vt(sym) || old(self)@.key_action(*mods, sym) is Some),
            final(self)@ == old(self)@.key_handled(*mods, sym),
            final(self)@.wf(),
    {
        if sym >= VT_SWITCH_1 && sym <= VT_SWITCH_12 {
            let vt = (sym - VT_SWITCH_1 + 1) as i32;
            self.emit(Effect::ChangeVt(vt));
            return true;
        }
        match self.key_action(mods, sym) {
            Some(action) => {
                self.handle_action(action);
                true
            },
            None => false,
        }
    }

    /// Puts the configured commands first among those to be carried out.
    fn execute_commands(&mut self)
        requires
            old(self)@.wf(),
        ensures
            final(self)@ == old(self)@.commands_queued(),
            final(self)@.wf(),
    {
        let mut commands = self.config.execute_actions();
        let ghost first = commands@;
        let ghost rest = self.backlog@;
        commands.append(&mut self.backlog);
        self.backlog = commands;
        assert(self@.backlog =~= first + rest);
    }

    /// Carries out the first of the pending actions. Returns whether there
    /// was one.
    pub fn carry_out_next(&mut self) -> (done: bool)
        requires
            old(self)@.wf(),
            old(self)@.backlog.len() > 0 ==> old(self)@.ready(old(self)@.backlog[0]),
        ensures
            done == (old(self)@.backlog.len() > 0),
            final(self)@ == if old(self)@.backlog.len() > 0 {
                (World { backlog: old(self)@.backlog.skip(1), ..old(self)@ }).acted(
                    old(self)@.backlog[0],
                )
            } else {
                old(self)@
            },
            final(self)@.wf(),
    {
        if self.backlog.len() == 0 {
            return false;
        }
        let action = self.backlog.remove(0);
        proof {
            assert(self@.backlog =~= old(self)@.backlog.skip(1));
        }
        self.handle_action(action);
        true
    }

    /// The first of the pending actions.
    pub fn next_action(&self) -> (action: Option<&Action>)
        ensures
            match action {
                Some(action) => self@.backlog.len() > 0 && *action == self@.backlog[0],
                None => self@.backlog.len() == 0,
            },
    {
        if self.backlog.len() == 0 {
            None
        } else {
            Some(&self.backlog[0])
        }
    }

    /// Takes over a configuration that was loaded anew.
    pub fn config_reloaded(&mut self, config: Config)
        requires
            old(self)@.wf(),
            sound_settings(config@, old(self)@.windows.roll.len()),
        ensures
            final(self)@ == old(self)@.reconfigured(config@),
            final(self)@.wf(),
    {
        self.config = config;
        self.emit(Effect::ApplyKeyboardLayout);
        self.execute_commands();
    }

    /// Runs the autostart commands, the first time that it is called.
    pub fn do_autostart_if_needed(&mut self)
        requires
            old(self)@.wf(),
        ensures
            final(self)@ == old(self)@.autostarted(),
            final(self)@.wf(),
    {
        if self.done_autostart {
            return;
        }
        let n = self.config.autostarts().len();
        let ghost commands = self@.config.autostarts;
        let mut i: usize = 0;
        assert(commands.take(0) =~= Seq::<String>::empty());
        while i < n
            invariant
                i <= n,
                n == commands.len(),
                commands == old(self)@.config.autostarts,
                self@.config == old(self)@.config,
                self@ == old(self)@.spawned_all(commands.take(i as int)),
                self@ == (World { effects: self@.effects, ..old(self)@ }),
            decreases n - i,
        {
            assert(commands.take(i + 1).drop_last() =~= commands.take(i as int));
            let command = self.config.autostarts()[i].clone();
            self.emit(Effect::Spawn(command));
            i += 1;
        }
        assert(commands.take(i as int) =~= commands);
        self.done_autostart = true;
        self.execute_commands();
    }
}

} // verus!
