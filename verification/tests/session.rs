//! Windows, tags and outputs, from the requests that the session makes.
use alice_wm::animation::{Point, MORPH_DURATION, SLIDE_DURATION};
use alice_wm::config::{
    Action, Config, KeyPress, ModMask, ModifiersState, OutputPosition, VT_SWITCH_1, VT_SWITCH_12,
};
use alice_wm::effect::Effect;
use alice_wm::gesture::GestureDirection;
use alice_wm::layout::Rect;
use alice_wm::layout_laws::is_roomy;
use alice_wm::output::{Direction, LayoutScope, OutputId, TagId};
use alice_wm::scalar::Scalar;
use alice_wm::state::focus::axis_gap;
use alice_wm::state::tags::tag_direction;
use alice_wm::state::Alice;
use alice_wm::window::{SurfaceId, WindowId};

fn scalar(v: f64) -> Scalar {
    Scalar { bits: v.to_bits() }
}

fn rect(x: i32, y: i32, width: i32, height: i32) -> Rect {
    Rect { x, y, width, height }
}

fn connect(alice: &mut Alice, name: &str, x: i32, y: i32) -> OutputId {
    alice.output_connected(String::from(name), rect(x, y, 1920, 1080), rect(0, 0, 1920, 1080))
}

/// A session on one output.
fn session_with(config: Config) -> Alice {
    let mut alice = Alice::new(config);
    assert_eq!(alice.take_effects(), vec![Effect::ApplyKeyboardLayout]);
    assert_eq!(connect(&mut alice, "DP-1", 0, 0), OutputId(0));
    assert_eq!(alice.take_effects(), Vec::new());
    alice
}

fn session() -> Alice {
    session_with(Config::default())
}

fn open(alice: &mut Alice, surface: u64) {
    alice.new_toplevel(SurfaceId(surface), scalar(100.0), scalar(100.0));
}

fn place(surface: u64, x: i32, y: i32, activate: bool) -> Effect {
    Effect::Place { surface: SurfaceId(surface), at: Point { x, y }, activate }
}

fn unplace(surface: u64) -> Effect {
    Effect::Unplace { surface: SurfaceId(surface) }
}

fn enter(surface: u64, output: u32) -> Effect {
    Effect::EnterOutput { surface: SurfaceId(surface), output: OutputId(output) }
}

fn configure(surface: u64, width: i32, height: i32, fullscreen: bool) -> Effect {
    Effect::Configure { surface: SurfaceId(surface), size: Some((width, height)), fullscreen }
}

fn focus(surface: u64) -> Effect {
    Effect::Focus(Some(SurfaceId(surface)))
}

/// Lets every box arrive.
fn settle(alice: &mut Alice, id: OutputId) {
    let then = alice.now + MORPH_DURATION;
    alice.tick(then);
    assert!(alice.advance_window_morphs(id, &Vec::new()).is_empty());
    alice.take_effects();
}

#[test]
fn first_window_fills_the_output() {
    let mut alice = session();
    assert_eq!(alice.usable_area(OutputId(0)), rect(15, 15, 1890, 1050));
    open(&mut alice, 1);
    assert_eq!(
        alice.take_effects(),
        vec![
            place(1, 0, 0, true),
            configure(1, 1890, 1050, false),
            place(1, 15, 15, false),
            Effect::Render,
            focus(1),
        ],
    );
}

#[test]
fn second_window_takes_the_lead_and_the_first_makes_room() {
    let mut alice = session();
    open(&mut alice, 1);
    alice.take_effects();
    open(&mut alice, 2);
    assert_eq!(
        alice.take_effects(),
        vec![
            place(2, 0, 0, true),
            configure(2, 930, 1050, false),
            place(2, 15, 15, false),
            configure(1, 945, 1050, false),
            unplace(1),
            enter(1, 0),
            Effect::Render,
            Effect::Render,
            focus(2),
        ],
    );
    let drawn = alice.advance_window_morphs(OutputId(0), &Vec::new());
    assert_eq!(drawn.len(), 1);
    assert_eq!(drawn[0].from, rect(15, 15, 1890, 1050));
    assert_eq!(drawn[0].to, rect(960, 15, 945, 1050));
    assert_eq!(alice.take_effects(), Vec::new());
    alice.tick(MORPH_DURATION);
    assert!(alice.advance_window_morphs(OutputId(0), &Vec::new()).is_empty());
    assert_eq!(alice.take_effects(), vec![place(1, 960, 15, false)]);
}

#[test]
fn second_layout_is_quiet() {
    let mut alice = session();
    open(&mut alice, 1);
    open(&mut alice, 2);
    settle(&mut alice, OutputId(0));
    let scope = LayoutScope { output: OutputId(0), tag: TagId(0) };
    alice.relayout(Some(scope));
    assert_eq!(
        alice.take_effects(),
        vec![place(2, 15, 15, false), place(1, 960, 15, false), Effect::Render],
    );
    alice.relayout(None);
    assert_eq!(
        alice.take_effects(),
        vec![place(2, 15, 15, false), place(1, 960, 15, false), Effect::Render],
    );
}

#[test]
fn size_is_sent_only_when_it_changes() {
    let mut alice = session();
    open(&mut alice, 1);
    let sizes = |effects: Vec<Effect>| {
        effects.into_iter().filter(|e| matches!(e, Effect::Configure { .. })).collect::<Vec<_>>()
    };
    assert_eq!(sizes(alice.take_effects()), vec![configure(1, 1890, 1050, false)]);
    alice.relayout(None);
    assert_eq!(sizes(alice.take_effects()), Vec::new());
    open(&mut alice, 2);
    let sent = sizes(alice.take_effects());
    assert_eq!(sent.len(), 2);
    alice.relayout(None);
    assert_eq!(sizes(alice.take_effects()), Vec::new());
}

#[test]
fn tiling_a_window_tells_it_news_only() {
    let mut alice = session();
    open(&mut alice, 1);
    let id = alice.window_registry.focused_id().unwrap();
    settle(&mut alice, OutputId(0));
    alice.apply_rects(id, rect(10, 20, 300, 400), false);
    assert_eq!(alice.take_effects(), vec![configure(1, 300, 400, false), place(1, 10, 20, false)]);
    let told = alice.window_registry.get(&id).unwrap().last_configured;
    assert_eq!(told, Some((rect(10, 20, 300, 400), false)));
    alice.apply_rects(id, rect(10, 20, 300, 400), false);
    assert_eq!(alice.take_effects(), vec![place(1, 10, 20, false)]);
    alice.apply_rects(WindowId(77), rect(10, 20, 300, 400), false);
    assert_eq!(alice.take_effects(), Vec::new());
}

#[test]
fn wide_gaps_leave_room_for_fewer_windows() {
    assert!(is_roomy(15, 1_000_000));
    assert!(is_roomy(2000, 60_000));
    assert!(!is_roomy(2000, 70_000));
    assert!(is_roomy(-2000, 60_000));
    assert!(!is_roomy(-2000, 70_000));
    assert!(is_roomy(8_388_608, 15));
    assert!(!is_roomy(8_388_608, 16));
    assert!(!is_roomy(8_388_609, 0));
    assert!(!is_roomy(i32::MIN, 0));
    assert!(!is_roomy(0, usize::MAX));
    let mut config = Config::default();
    config.set_gap_size(3000);
    let mut alice = session_with(config);
    open(&mut alice, 1);
    assert!(alice.take_effects().contains(&configure(1, -4080, -4920, false)));
}

#[test]
fn committed_window_grows_out_of_its_placeholder() {
    let mut alice = session();
    connect(&mut alice, "DP-2", 1920, 0);
    alice.new_toplevel(SurfaceId(7), scalar(2000.0), scalar(10.0));
    alice.note_size(SurfaceId(7), 300, 200);
    assert_eq!(alice.get_window(SurfaceId(7)).unwrap().1.width, 300);
    alice.take_effects();
    // A dialog is centered at its own size.
    alice.first_commit(SurfaceId(7), true);
    assert_eq!(
        alice.take_effects(),
        vec![
            Effect::Configure { surface: SurfaceId(7), size: None, fullscreen: false },
            place(7, 1920 + 15 + (1890 - 300) / 2, 15 + (1050 - 200) / 2, false),
            Effect::Render,
            Effect::FirstConfigure { surface: SurfaceId(7) },
        ],
    );
    alice.first_commit(SurfaceId(7), true);
    assert_eq!(alice.take_effects(), vec![Effect::FirstConfigure { surface: SurfaceId(7) }]);
}

#[test]
fn unsized_dialog_gets_a_fallback_size() {
    let mut alice = session();
    open(&mut alice, 1);
    alice.take_effects();
    alice.first_commit(SurfaceId(1), true);
    assert_eq!(
        alice.take_effects(),
        vec![
            Effect::Configure { surface: SurfaceId(1), size: None, fullscreen: false },
            place(1, 15 + (1890 - 640) / 2, 15 + (1050 - 480) / 2, false),
            Effect::Render,
            Effect::FirstConfigure { surface: SurfaceId(1) },
        ],
    );
}

#[test]
fn closed_window_shrinks_and_the_next_is_focused() {
    let mut alice = session();
    open(&mut alice, 1);
    open(&mut alice, 2);
    settle(&mut alice, OutputId(0));
    alice.toplevel_destroyed(SurfaceId(2));
    assert_eq!(
        alice.take_effects(),
        vec![
            unplace(2),
            enter(2, 0),
            Effect::Render,
            focus(1),
            configure(1, 1890, 1050, false),
            unplace(1),
            enter(1, 0),
            Effect::Render,
            Effect::Render,
            Effect::Render,
        ],
    );
    assert!(alice.get_window(SurfaceId(2)).is_none());
    let drawn = alice.advance_window_morphs(OutputId(0), &Vec::new());
    assert_eq!(drawn.len(), 2);
    let closing = drawn.iter().find(|m| m.window.surface == SurfaceId(2)).unwrap();
    assert_eq!(closing.from, rect(15, 15, 930, 1050));
    assert_eq!(closing.to, rect(317, 356, 326, 368));
    let then = alice.now + MORPH_DURATION;
    alice.tick(then);
    alice.advance_window_morphs(OutputId(0), &Vec::new());
    assert_eq!(alice.take_effects(), vec![unplace(2), place(1, 15, 15, false)]);
    alice.toplevel_destroyed(SurfaceId(1));
    let effects = alice.take_effects();
    assert!(effects.contains(&Effect::Focus(None)));
    alice.toplevel_destroyed(SurfaceId(99));
    assert_eq!(alice.take_effects(), vec![Effect::Render]);
}

#[test]
fn dead_surface_is_done_at_once() {
    let mut alice = session();
    open(&mut alice, 1);
    open(&mut alice, 2);
    alice.take_effects();
    assert!(alice.advance_window_morphs(OutputId(0), &vec![SurfaceId(1)]).is_empty());
    assert_eq!(alice.take_effects(), vec![place(1, 960, 15, false)]);
}

#[test]
fn moving_up_and_down_are_inverse() {
    let mut alice = session();
    for surface in 1..=3 {
        open(&mut alice, surface);
    }
    settle(&mut alice, OutputId(0));
    let scope = LayoutScope { output: OutputId(0), tag: TagId(0) };
    let before = alice.window_registry.filter(&scope);
    assert_eq!(before, vec![WindowId(2), WindowId(1), WindowId(0)]);
    assert_eq!(alice.move_down(), Some(()));
    assert_eq!(
        alice.window_registry.filter(&scope),
        vec![WindowId(1), WindowId(2), WindowId(0)],
    );
    assert_eq!(alice.window_registry.focused_id(), Some(WindowId(2)));
    assert_eq!(alice.move_up(), Some(()));
    assert_eq!(alice.window_registry.filter(&scope), before);
    // Going round the stack.
    assert_eq!(alice.move_up(), Some(()));
    assert_eq!(
        alice.window_registry.filter(&scope),
        vec![WindowId(0), WindowId(1), WindowId(2)],
    );
}

#[test]
fn focus_goes_round_the_stack() {
    let mut alice = session();
    assert_eq!(alice.focus_up(), None);
    assert_eq!(alice.focus_down(), None);
    for surface in 1..=3 {
        open(&mut alice, surface);
    }
    assert_eq!(alice.focus_down(), Some(()));
    assert_eq!(alice.window_registry.focused_id(), Some(WindowId(1)));
    assert_eq!(alice.focus_up(), Some(()));
    assert_eq!(alice.window_registry.focused_id(), Some(WindowId(2)));
    assert_eq!(alice.focus_up(), Some(()));
    assert_eq!(alice.window_registry.focused_id(), Some(WindowId(0)));
    alice.take_effects();
    alice.focus_window(SurfaceId(2));
    assert_eq!(alice.take_effects(), vec![focus(2)]);
    alice.focus_window(SurfaceId(2));
    assert_eq!(alice.take_effects(), Vec::new());
    alice.focus_window(SurfaceId(42));
    assert_eq!(alice.take_effects(), Vec::new());
}

#[test]
fn fullscreen_covers_the_output_and_goes_back() {
    let mut alice = session();
    open(&mut alice, 1);
    open(&mut alice, 2);
    settle(&mut alice, OutputId(0));
    alice.handle_action(Action::FullScreen);
    assert_eq!(
        alice.take_effects(),
        vec![configure(2, 1920, 1080, true), place(2, 0, 0, false), unplace(1), Effect::Render],
    );
    let scope = LayoutScope { output: OutputId(0), tag: TagId(0) };
    assert_eq!(
        alice.window_registry.fullscreen_window_for_output(&scope).unwrap().surface,
        SurfaceId(2),
    );
    alice.handle_action(Action::FullScreen);
    assert_eq!(
        alice.take_effects(),
        vec![
            configure(2, 930, 1050, false),
            unplace(2),
            enter(2, 0),
            Effect::Render,
            place(1, 960, 15, false),
            Effect::Render,
        ],
    );
    assert!(alice.window_registry.fullscreen_window_for_output(&scope).is_none());
    assert_eq!(alice.toggle_fullscreen(WindowId(77)), None);
}

#[test]
fn new_window_ends_fullscreen() {
    let mut alice = session();
    open(&mut alice, 1);
    alice.handle_action(Action::FullScreen);
    assert!(alice.window_registry.get(&WindowId(0)).unwrap().fullscreen);
    open(&mut alice, 2);
    assert!(!alice.window_registry.get(&WindowId(0)).unwrap().fullscreen);
    assert_eq!(alice.undo_all_fullscreen(), Some(()));
}

#[test]
fn lower_tags_slide_as_next_and_higher_ones_as_previous() {
    assert_eq!(tag_direction(TagId(4), TagId(2)), 1);
    assert_eq!(tag_direction(TagId(2), TagId(4)), -1);
}

#[test]
fn next_tag_slides_in_from_the_right() {
    let mut alice = session();
    open(&mut alice, 1);
    alice.handle_action(Action::MoveNextTag);
    alice.take_effects();
    let then = alice.now + SLIDE_DURATION;
    alice.tick(then);
    alice.sample_slide(OutputId(0), scalar(1.0), 0);
    alice.advance_tag_animations();
    settle(&mut alice, OutputId(0));
    alice.handle_action(Action::FocusPreviousTag);
    alice.take_effects();
    let then = alice.now + SLIDE_DURATION;
    alice.tick(then);
    alice.sample_slide(OutputId(0), scalar(1.0), 0);
    alice.advance_tag_animations();
    assert_eq!(alice.take_effects(), vec![unplace(1)]);
    open(&mut alice, 2);
    alice.take_effects();
    // Tag 0 shows window 2, tag 1 holds window 1.
    alice.handle_action(Action::FocusNextTag);
    assert_eq!(
        alice.take_effects(),
        vec![
            place(1, 0, 0, false),
            place(1, 15, 15, false),
            Effect::Render,
            focus(1),
            place(1, 1935, 15, false),
            Effect::Render,
        ],
    );
    assert_eq!(alice.outputs.current_focused_tag(), Some(TagId(1)));
    alice.sample_slide(OutputId(0), scalar(0.5), 960);
    alice.advance_tag_animations();
    assert_eq!(alice.take_effects(), vec![place(2, -945, 15, false), place(1, 975, 15, false)]);
    let then = alice.now + SLIDE_DURATION;
    alice.tick(then);
    alice.sample_slide(OutputId(0), scalar(1.0), 0);
    alice.advance_tag_animations();
    assert_eq!(alice.take_effects(), vec![unplace(2), place(1, 15, 15, false)]);
    alice.advance_tag_animations();
    assert_eq!(alice.take_effects(), Vec::new());
}

#[test]
fn tag_steps_stay_in_range() {
    let mut alice = session();
    alice.handle_action(Action::FocusPreviousTag);
    assert_eq!(alice.outputs.current_focused_tag(), Some(TagId(0)));
    for _ in 0..12 {
        assert!(alice.can_step());
        alice.handle_action(Action::FocusNextTag);
    }
    assert_eq!(alice.outputs.current_focused_tag(), Some(TagId(8)));
    alice.handle_action(Action::FocusTag(TagId(3)));
    assert_eq!(alice.outputs.current_focused_tag(), Some(TagId(3)));
}

#[test]
fn plain_tag_change_is_instant() {
    let mut alice = session();
    open(&mut alice, 1);
    alice.take_effects();
    assert_eq!(alice.change_tag(TagId(4)), Some(()));
    assert_eq!(alice.take_effects(), vec![unplace(1), Effect::Focus(None), Effect::Render]);
    assert_eq!(alice.change_tag(TagId(0)), Some(()));
    assert_eq!(
        alice.take_effects(),
        vec![place(1, 0, 0, false), focus(1), place(1, 15, 15, false), Effect::Render],
    );
}

#[test]
fn window_follows_to_another_tag() {
    let mut alice = session();
    open(&mut alice, 1);
    open(&mut alice, 2);
    settle(&mut alice, OutputId(0));
    alice.handle_action(Action::MoveToTag(TagId(2)));
    assert_eq!(alice.outputs.current_focused_tag(), Some(TagId(2)));
    let effects = alice.take_effects();
    assert_eq!(
        effects,
        vec![
            place(2, 0, 0, false),
            configure(2, 1890, 1050, false),
            place(2, 15, 15, false),
            Effect::Render,
            focus(2),
            Effect::Render,
            unplace(2),
            enter(2, 0),
            Effect::Render,
        ],
    );
    let scope = LayoutScope { output: OutputId(0), tag: TagId(2) };
    assert_eq!(alice.window_registry.filter(&scope), vec![WindowId(1)]);
    // Sending it where it already is does nothing.
    alice.handle_action(Action::MoveToTag(TagId(2)));
    assert_eq!(alice.take_effects(), Vec::new());
}

#[test]
fn outputs_are_found_by_direction() {
    let mut alice = session();
    let right = connect(&mut alice, "DP-2", 1920, 0);
    let above = connect(&mut alice, "DP-3", 0, -1080);
    let far = connect(&mut alice, "DP-4", 3840, 0);
    assert_eq!(alice.select_output_direction(Direction::Right), Some(right));
    assert_eq!(alice.select_output_direction(Direction::Up), Some(above));
    assert_eq!(alice.select_output_direction(Direction::Left), None);
    assert_eq!(alice.select_output_direction(Direction::Down), None);
    alice.focus_output(right);
    assert_eq!(alice.select_output_direction(Direction::Right), Some(far));
    assert_eq!(alice.select_output_direction(Direction::Left), Some(OutputId(0)));
    assert_eq!(axis_gap(0, 10, 5, 10), 0);
    assert_eq!(axis_gap(0, 10, 10, 10), 0);
    assert_eq!(axis_gap(0, 10, 13, 10), 3);
    assert_eq!(axis_gap(20, 10, 0, 4), 16);
}

#[test]
fn focusing_an_output_warps_the_pointer() {
    let mut alice = session();
    let right = connect(&mut alice, "DP-2", 1920, 0);
    alice.new_toplevel(SurfaceId(5), scalar(2000.0), scalar(10.0));
    alice.sense_centre(right, vec![SurfaceId(5)]);
    alice.take_effects();
    assert_eq!(alice.focus_output_direction(Direction::Right), Some(()));
    let centre = Point { x: 2880, y: 540 };
    assert_eq!(
        alice.take_effects(),
        vec![Effect::Aim(centre), Effect::Warp(centre), focus(5)],
    );
    assert_eq!(alice.outputs.get_focused().id, right);
    alice.focus_output(right);
    assert_eq!(alice.take_effects(), Vec::new());
    assert_eq!(alice.focus_output_direction(Direction::Left), Some(()));
    let centre = Point { x: 960, y: 540 };
    assert_eq!(
        alice.take_effects(),
        vec![Effect::Aim(centre), Effect::Warp(centre), Effect::Focus(None)],
    );
}

#[test]
fn window_can_be_sent_to_another_output() {
    let mut alice = session();
    let right = connect(&mut alice, "DP-2", 1920, 0);
    open(&mut alice, 1);
    open(&mut alice, 2);
    settle(&mut alice, OutputId(0));
    assert_eq!(alice.move_to_output(Direction::Up), None);
    assert_eq!(alice.move_to_output(Direction::Right), Some(()));
    let scope = LayoutScope { output: right, tag: TagId(0) };
    assert_eq!(alice.window_registry.filter(&scope), vec![WindowId(1)]);
    assert_eq!(alice.window_registry.get(&WindowId(1)).unwrap().output, right);
    let old = LayoutScope { output: OutputId(0), tag: TagId(0) };
    assert_eq!(alice.window_registry.filter(&old), vec![WindowId(0)]);
    assert_eq!(alice.outputs.get_focused().id, right);
    let morph = alice.window_morphs.get(SurfaceId(2)).unwrap();
    assert_eq!(morph.from, rect(15, 15, 930, 1050));
    assert_eq!(morph.to, rect(1935, 15, 1890, 1050));
    assert_eq!(morph.output, right);
    let morph = alice.window_morphs.get(SurfaceId(1)).unwrap();
    assert_eq!(morph.to, rect(15, 15, 1890, 1050));
}

#[test]
fn tablet_layout_promotes_the_clicked_window() {
    let mut alice = session();
    for surface in 1..=3 {
        open(&mut alice, surface);
    }
    settle(&mut alice, OutputId(0));
    assert!(!alice.swap_to_master(SurfaceId(1)));
    assert_eq!(alice.change_layout("Tablet"), Some(()));
    let scope = LayoutScope { output: OutputId(0), tag: TagId(0) };
    assert!(!alice.swap_to_master(SurfaceId(3)));
    assert!(!alice.swap_to_master(SurfaceId(9)));
    assert!(alice.swap_to_master(SurfaceId(1)));
    assert_eq!(alice.window_registry.master(&scope), Some(WindowId(0)));
    assert_eq!(
        alice.window_registry.filter(&scope),
        vec![WindowId(0), WindowId(1), WindowId(2)],
    );
    assert_eq!(alice.window_registry.focused_id(), Some(WindowId(0)));
    let morph = alice.window_morphs.get(SurfaceId(1)).unwrap();
    assert_eq!(morph.to, rect(15, 15, 1401, 1050));
}

#[test]
fn closing_marks_another_window() {
    let mut alice = session();
    alice.handle_action(Action::Close);
    assert_eq!(alice.take_effects(), Vec::new());
    open(&mut alice, 1);
    open(&mut alice, 2);
    alice.take_effects();
    alice.handle_action(Action::Close);
    assert_eq!(alice.take_effects(), vec![Effect::Close(SurfaceId(2))]);
    assert_eq!(alice.window_registry.focused_id(), Some(WindowId(0)));
}

fn held(alt: bool, shift: bool) -> ModifiersState {
    ModifiersState { ctrl: false, alt, shift, caps_lock: false, logo: false, num_lock: true }
}

#[test]
fn keys_do_what_they_are_bound_to() {
    let mut alice = session();
    assert!(alice.try_handle_keypress(&held(true, true), 'q' as u32));
    assert!(alice.try_handle_keypress(&held(true, false), 0xff0d));
    assert!(alice.try_handle_keypress(&held(true, false), 'r' as u32));
    assert!(!alice.try_handle_keypress(&held(false, false), 'q' as u32));
    assert_eq!(
        alice.take_effects(),
        vec![Effect::Quit, Effect::Spawn(String::from("alacritty")), Effect::ReloadConfig],
    );
    assert!(alice.try_handle_keypress(&held(false, false), VT_SWITCH_1));
    assert!(alice.try_handle_keypress(&held(true, false), VT_SWITCH_12));
    assert_eq!(alice.take_effects(), vec![Effect::ChangeVt(1), Effect::ChangeVt(12)]);
    assert!(!alice.try_handle_keypress(&held(false, false), VT_SWITCH_12 + 1));
}

#[test]
fn locked_session_heeds_its_own_keys_only() {
    let mut config = Config::default();
    let press = KeyPress { modifiers: ModMask::empty(), keysym: 'l' as u32 };
    config.insert_lock_keypress(press, Action::Spawn(String::from("help")));
    let mut alice = session_with(config);
    assert_eq!(alice.key_action(&held(false, false), 'l' as u32), None);
    alice.lock();
    assert_eq!(
        alice.key_action(&held(false, false), 'l' as u32),
        Some(Action::Spawn(String::from("help"))),
    );
    assert!(!alice.try_handle_keypress(&held(true, true), 'q' as u32));
    assert!(alice.try_handle_keypress(&held(false, false), 'l' as u32));
    assert_eq!(alice.take_effects(), vec![Effect::Spawn(String::from("help"))]);
}

#[test]
fn lock_is_confirmed_once_every_output_is_blank() {
    let mut alice = session();
    let right = connect(&mut alice, "DP-2", 1920, 0);
    open(&mut alice, 1);
    alice.take_effects();
    alice.output_presented(OutputId(0));
    alice.lock();
    assert_eq!(alice.take_effects(), Vec::new());
    alice.output_presented(OutputId(0));
    alice.output_presented(OutputId(0));
    assert_eq!(alice.take_effects(), Vec::new());
    alice.output_presented(right);
    assert_eq!(alice.take_effects(), vec![Effect::ConfirmLock]);
    alice.output_presented(right);
    assert_eq!(alice.take_effects(), Vec::new());
    alice.new_lock_surface(right, SurfaceId(50));
    alice.unlock();
    assert_eq!(alice.take_effects(), vec![focus(1), Effect::Render]);
    alice.unlock();
    assert_eq!(alice.take_effects(), Vec::new());
}

#[test]
fn master_ratio_stays_in_bounds() {
    let mut alice = session();
    alice.handle_action(Action::IncrementMasterRatio(scalar(0.1)));
    assert_eq!(alice.take_effects(), vec![Effect::RaiseMasterRatio(scalar(0.1))]);
    alice.raise_master_ratio(scalar(0.6));
    assert_eq!(alice.take_effects(), vec![Effect::Render]);
    assert_eq!(alice.config.tiling().master_ratio, scalar(0.6));
    alice.raise_master_ratio(scalar(0.95));
    assert_eq!(alice.config.tiling().master_ratio, scalar(0.6));
    alice.lower_master_ratio(scalar(0.05));
    assert_eq!(alice.config.tiling().master_ratio, scalar(0.6));
    alice.lower_master_ratio(scalar(0.06));
    assert_eq!(alice.config.tiling().master_ratio, scalar(0.06));
    alice.handle_action(Action::ToggleTabletWindows);
    assert!(alice.config.tiling().tablet_hide_minimized);
    alice.handle_action(Action::ShowTabletWindows);
    assert!(!alice.config.tiling().tablet_hide_minimized);
    alice.handle_action(Action::MakeRightHanded);
    assert!(alice.config.tiling().right_handed);
    alice.handle_action(Action::FlipHandedness);
    assert!(!alice.config.tiling().right_handed);
}

#[test]
fn autostart_happens_once() {
    let mut config = Config::new();
    config.push_autostart(String::from("bar"));
    config.push_autostart(String::from("wallpaper"));
    config.push_execute_action(Action::FocusNextTag);
    let mut alice = session_with(config);
    alice.do_autostart_if_needed();
    assert_eq!(
        alice.take_effects(),
        vec![
            Effect::Spawn(String::from("bar")),
            Effect::Spawn(String::from("wallpaper")),
        ],
    );
    assert_eq!(alice.next_action(), Some(&Action::FocusNextTag));
    assert!(alice.carry_out_next());
    assert_eq!(alice.outputs.current_focused_tag(), Some(TagId(1)));
    assert!(!alice.carry_out_next());
    alice.take_effects();
    alice.do_autostart_if_needed();
    assert_eq!(alice.take_effects(), Vec::new());
}

#[test]
fn reloaded_commands_come_before_the_rest() {
    let mut config = Config::new();
    config.push_execute_action(Action::ReloadConfig);
    config.push_execute_action(Action::Spawn(String::from("after")));
    let mut alice = session_with(config);
    alice.do_autostart_if_needed();
    assert!(alice.carry_out_next());
    assert_eq!(alice.take_effects(), vec![Effect::ReloadConfig]);
    let mut fresh = Config::new();
    fresh.push_execute_action(Action::Spawn(String::from("fresh")));
    alice.config_reloaded(fresh);
    assert_eq!(alice.take_effects(), vec![Effect::ApplyKeyboardLayout]);
    while alice.carry_out_next() {}
    assert_eq!(
        alice.take_effects(),
        vec![Effect::Spawn(String::from("fresh")), Effect::Spawn(String::from("after"))],
    );
}

#[test]
fn unknown_layouts_and_missing_outputs_are_not_ready() {
    let mut alice = Alice::new(Config::default());
    assert!(!alice.has_focused_output());
    assert!(!alice.is_ready(&Action::FocusOutputLeft));
    assert!(alice.is_ready(&Action::Quit));
    connect(&mut alice, "DP-1", 0, 0);
    assert!(alice.has_focused_output());
    assert!(alice.is_ready(&Action::FocusOutputLeft));
    assert!(alice.is_ready(&Action::SetLayout(String::from("Fibonacci"))));
    assert!(!alice.is_ready(&Action::SetLayout(String::from("Spiral"))));
}

fn swiping() -> Alice {
    let mut config = Config::default();
    config.insert_gesture(3, GestureDirection::Left, Action::FocusNextTag);
    config.insert_gesture(3, GestureDirection::Up, Action::MoveUpStack);
    config.insert_gesture(3, GestureDirection::Down, Action::Spawn(String::from("menu")));
    config.insert_gesture(4, GestureDirection::Right, Action::MoveOutputRight);
    let mut alice = session_with(config);
    open(&mut alice, 1);
    open(&mut alice, 2);
    settle(&mut alice, OutputId(0));
    alice
}

fn swipe(alice: &mut Alice, x: f64, y: f64) {
    let total = (scalar(x), scalar(y));
    if let Some(action) = alice.swipe_action(total) {
        assert!(alice.is_swipe_ready(&action));
    }
    alice.gesture_update(total, scalar(x.abs() / 220.0), scalar(y.abs() / 220.0));
}

#[test]
fn short_swipe_is_dropped() {
    let mut alice = swiping();
    alice.gesture_begin(3);
    swipe(&mut alice, -5.0, 0.0);
    alice.gesture_end(false);
    assert_eq!(alice.take_effects(), Vec::new());
    assert!(alice.gesture.is_none());
    alice.gesture_end(false);
    assert_eq!(alice.take_effects(), Vec::new());
}

#[test]
fn tag_swipe_follows_the_finger_and_commits() {
    let mut alice = swiping();
    alice.gesture_begin(3);
    swipe(&mut alice, -22.0, 3.0);
    assert_eq!(alice.outputs.current_focused_tag(), Some(TagId(1)));
    let slide = alice.tag_animations.get(OutputId(0)).unwrap();
    assert_eq!(slide.animation.eased_progress(scalar(0.9)), scalar(22.0 / 220.0));
    assert!(!slide.animation.is_finished(u64::MAX));
    swipe(&mut alice, -110.0, 3.0);
    alice.gesture_end(false);
    let then = alice.now + 200_000_000;
    alice.tick(then);
    alice.sample_slide(OutputId(0), scalar(1.0), 0);
    alice.take_effects();
    alice.advance_tag_animations();
    assert_eq!(alice.outputs.current_focused_tag(), Some(TagId(1)));
    assert_eq!(alice.take_effects(), vec![unplace(2), unplace(1)]);
}

#[test]
fn tag_swipe_released_early_goes_back() {
    let mut alice = swiping();
    alice.gesture_begin(3);
    swipe(&mut alice, -60.0, 3.0);
    assert_eq!(alice.outputs.current_focused_tag(), Some(TagId(1)));
    alice.gesture_end(false);
    let then = alice.now + 200_000_000;
    alice.tick(then);
    alice.sample_slide(OutputId(0), scalar(0.0), 1920);
    alice.take_effects();
    alice.advance_tag_animations();
    assert_eq!(alice.outputs.current_focused_tag(), Some(TagId(0)));
    assert_eq!(
        alice.take_effects(),
        vec![place(2, 15, 15, false), place(1, 960, 15, false), focus(2)],
    );
}

#[test]
fn interrupted_switch_arrives_however_early() {
    let mut alice = session();
    open(&mut alice, 1);
    settle(&mut alice, OutputId(0));
    alice.handle_action(Action::FocusNextTag);
    alice.sample_slide(OutputId(0), scalar(0.1), 1728);
    alice.take_effects();
    alice.handle_action(Action::FocusNextTag);
    assert_eq!(alice.outputs.current_focused_tag(), Some(TagId(2)));
    let slide = alice.tag_animations.get(OutputId(0)).unwrap();
    assert_eq!(slide.old_tag, TagId(1));
    assert_eq!(alice.take_effects()[0], unplace(1));
    assert!(alice.space.elements.get(SurfaceId(1)).is_none());
}

#[test]
fn interrupted_switch_on_its_way_back_goes_back() {
    let mut alice = swiping();
    alice.gesture_begin(3);
    swipe(&mut alice, -60.0, 3.0);
    alice.gesture_end(true);
    alice.sample_slide(OutputId(0), scalar(0.9), 192);
    alice.take_effects();
    alice.handle_action(Action::FocusTag(TagId(4)));
    let effects = alice.take_effects();
    assert_eq!(effects[0], place(2, 15, 15, false));
    assert_eq!(effects[1], place(1, 960, 15, false));
    assert_eq!(alice.outputs.current_focused_tag(), Some(TagId(4)));
}

#[test]
fn dropped_swipe_turns_its_own_output_back() {
    let mut alice = swiping();
    let other = connect(&mut alice, "DP-2", 1920, 0);
    alice.gesture_begin(3);
    swipe(&mut alice, -60.0, 3.0);
    alice.gesture_end(true);
    alice.focus_output(other);
    let then = alice.now + 200_000_000;
    alice.tick(then);
    alice.sample_slide(OutputId(0), scalar(0.0), 1920);
    alice.advance_tag_animations();
    assert_eq!(alice.outputs.get_focused_tag(OutputId(0)), Some(TagId(0)));
    assert_eq!(alice.outputs.get_focused_tag(other), Some(TagId(0)));
    alice.change_tag(TagId(3));
    assert_eq!(alice.outputs.get_focused_tag(OutputId(0)), Some(TagId(0)));
    assert_eq!(alice.outputs.get_focused_tag(other), Some(TagId(3)));
}

#[test]
fn stack_swipe_released_early_is_undone() {
    let mut alice = swiping();
    let scope = LayoutScope { output: OutputId(0), tag: TagId(0) };
    let before = alice.window_registry.filter(&scope);
    alice.gesture_begin(3);
    swipe(&mut alice, 0.0, -30.0);
    assert_ne!(alice.window_registry.filter(&scope), before);
    assert_eq!(alice.release_action(false), Some(Action::MoveDownStack));
    alice.gesture_end(false);
    assert_eq!(alice.window_registry.filter(&scope), before);
    alice.gesture_begin(3);
    swipe(&mut alice, 0.0, -150.0);
    assert_eq!(alice.release_action(false), None);
    assert_eq!(alice.release_action(true), Some(Action::MoveDownStack));
    alice.gesture_end(false);
    assert_ne!(alice.window_registry.filter(&scope), before);
}

#[test]
fn output_swipe_released_early_is_undone() {
    let mut alice = swiping();
    let right = connect(&mut alice, "DP-2", 1920, 0);
    alice.take_effects();
    alice.gesture_begin(4);
    swipe(&mut alice, 40.0, 0.0);
    assert_eq!(alice.window_registry.get(&WindowId(1)).unwrap().output, right);
    assert_eq!(alice.outputs.get_focused().id, right);
    assert_eq!(alice.release_action(false), Some(Action::MoveOutputLeft));
    alice.gesture_end(false);
    assert_eq!(alice.window_registry.get(&WindowId(1)).unwrap().output, OutputId(0));
    assert_eq!(alice.outputs.get_focused().id, OutputId(0));
}

#[test]
fn boxes_in_motion_are_sent_no_size() {
    let mut alice = session();
    for surface in 1..=4 {
        open(&mut alice, surface);
    }
    alice.take_effects();
    for step in 0..20 {
        alice.tick(step * MORPH_DURATION / 10);
        alice.advance_window_morphs(OutputId(0), &Vec::new());
    }
    let effects = alice.take_effects();
    assert!(!effects.is_empty());
    assert!(!effects.iter().any(|effect| matches!(effect, Effect::Configure { .. })));
}

#[test]
fn other_swipes_act_on_release() {
    let mut alice = swiping();
    alice.gesture_begin(3);
    swipe(&mut alice, 0.0, 40.0);
    assert_eq!(alice.take_effects(), vec![Effect::Render]);
    swipe(&mut alice, 0.0, 120.0);
    alice.take_effects();
    alice.gesture_end(false);
    assert_eq!(
        alice.take_effects(),
        vec![Effect::Spawn(String::from("menu")), Effect::Render],
    );
    alice.gesture_begin(3);
    swipe(&mut alice, 0.0, 120.0);
    alice.take_effects();
    alice.gesture_end(true);
    assert_eq!(alice.take_effects(), vec![Effect::Render]);
    // No output lies to the right.
    alice.gesture_begin(4);
    swipe(&mut alice, 200.0, 0.0);
    alice.take_effects();
    assert_eq!(alice.release_action(false), None);
    alice.gesture_end(false);
    assert_eq!(alice.take_effects(), vec![Effect::Render]);
}

#[test]
fn outputs_are_placed_side_by_side_unless_configured() {
    let mut config = Config::new();
    config.set_output_position(String::from("HDMI-A-1"), OutputPosition::new(-500, 40));
    let mut alice = session_with(config);
    assert_eq!(alice.output_place("DP-2"), (1920, 0));
    assert_eq!(alice.output_place("HDMI-A-1"), (-500, 40));
    assert_eq!(alice.window_place("winit"), (0, 0));
    assert_eq!(alice.window_place("HDMI-A-1"), (-500, 40));
    connect(&mut alice, "DP-2", 1920, 0);
    assert_eq!(alice.output_place("DP-3"), (3840, 0));
    alice.output_disconnected("DP-1");
    assert_eq!(alice.output_place("DP-3"), (1920, 0));
}

#[test]
fn reconnected_output_keeps_its_tag() {
    let mut alice = session();
    alice.handle_action(Action::FocusTag(TagId(3)));
    alice.output_disconnected("DP-1");
    assert_eq!(connect(&mut alice, "DP-1", 0, 0), OutputId(0));
    assert_eq!(alice.outputs.get_focused_tag(OutputId(0)), Some(TagId(3)));
    let scope = LayoutScope { output: OutputId(0), tag: TagId(3) };
    assert_eq!(alice.output_scope("DP-1"), Some(scope));
    assert_eq!(alice.output_scope("DP-9"), None);
}

#[test]
fn resized_output_is_laid_out_at_its_new_size() {
    let mut alice = session();
    open(&mut alice, 1);
    alice.take_effects();
    alice.output_resized(OutputId(0), rect(0, 0, 800, 600), rect(0, 20, 800, 580));
    assert_eq!(alice.take_effects(), Vec::new());
    alice.relayout(None);
    assert_eq!(
        alice.take_effects(),
        vec![
            configure(1, 770, 550, false),
            unplace(1),
            enter(1, 0),
            Effect::Render,
            Effect::Render,
        ],
    );
    assert_eq!(alice.window_morphs.get(SurfaceId(1)).unwrap().to, rect(15, 35, 770, 550));
}

#[test]
fn popups_are_kept_on_the_first_output() {
    let mut alice = session();
    open(&mut alice, 1);
    assert_eq!(
        alice.unconstrain_popup(SurfaceId(1), Point { x: 10, y: 20 }),
        Some(rect(-25, -35, 1920, 1080)),
    );
    assert_eq!(alice.unconstrain_popup(SurfaceId(2), Point { x: 10, y: 20 }), None);
}
