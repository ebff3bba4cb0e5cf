//! Layers, bars, scales, commits and the pointer.
use alice_wm::config::Config;
use alice_wm::cursor::{
    cursor_hotspot, draw_default_cursor, reset_cursor_if_dead, CursorImageStatus, PointerElement,
    PointerRenderElement, CURSOR_PIXELS, CURSOR_SIZE,
};
use alice_wm::effect::Effect;
use alice_wm::handlers::compositor::Commit;
use alice_wm::handlers::wlr_shell::suggested_size;
use alice_wm::handlers::workspace::workspace_state;
use alice_wm::layout::Rect;
use alice_wm::output::{LayoutScope, OutputId, TagId};
use alice_wm::scalar::Scalar;
use alice_wm::state::pointer::{rect_holds, Hit, KeyboardInteractivity, Probes};
use alice_wm::state::Alice;
use alice_wm::window::SurfaceId;
use alice_wm::world_events::{Anchors, NUM_TAGS};

fn scalar(v: f64) -> Scalar {
    Scalar { bits: v.to_bits() }
}

fn rect(x: i32, y: i32, width: i32, height: i32) -> Rect {
    Rect { x, y, width, height }
}

const FULL: Rect = Rect { x: 0, y: 0, width: 1920, height: 1080 };

fn session() -> Alice {
    let mut alice = Alice::new(Config::default());
    alice.output_connected(String::from("DP-1"), FULL, FULL);
    alice.take_effects();
    alice
}

fn anchors(top: bool, bottom: bool, left: bool, right: bool) -> Anchors {
    Anchors { top, bottom, left, right }
}

fn scope(output: u32, tag: u32) -> LayoutScope {
    LayoutScope { output: OutputId(output), tag: TagId(tag) }
}

#[test]
fn layers_anchored_to_both_edges_get_the_zone() {
    let zone = rect(0, 30, 1920, 1050);
    assert_eq!(suggested_size(anchors(true, false, true, true), zone), (1920, 0));
    assert_eq!(suggested_size(anchors(true, true, true, true), zone), (1920, 1050));
    assert_eq!(suggested_size(anchors(true, true, true, false), zone), (0, 1050));
    assert_eq!(suggested_size(anchors(false, false, false, false), zone), (0, 0));
}

#[test]
fn layer_is_configured_once_and_reflows_when_the_zone_changes() {
    let mut alice = session();
    assert_eq!(alice.layer_output(None), OutputId(0));
    assert_eq!(alice.layer_output(Some(OutputId(4))), OutputId(4));
    alice.new_layer_surface(SurfaceId(9), OutputId(0), FULL);
    assert_eq!(alice.take_effects(), vec![Effect::Render]);
    assert_eq!(alice.layer_host(SurfaceId(9)), Some(OutputId(0)));
    assert_eq!(alice.layer_host(SurfaceId(8)), None);
    let top = anchors(true, false, true, true);
    alice.layer_commit(SurfaceId(9), top, FULL);
    let sized = Effect::ConfigureLayer { surface: SurfaceId(9), width: 1920, height: 0 };
    assert_eq!(alice.take_effects(), vec![sized]);
    // Nothing has changed: the commit is quiet.
    alice.layer_commit(SurfaceId(9), top, FULL);
    assert_eq!(alice.take_effects(), Vec::new());
    let zone = rect(0, 30, 1920, 1050);
    alice.layer_commit(SurfaceId(9), top, zone);
    assert_eq!(alice.take_effects(), vec![Effect::Render]);
    assert_eq!(alice.usable_area(OutputId(0)), rect(15, 45, 1890, 1020));
    alice.layer_commit(SurfaceId(77), top, FULL);
    assert_eq!(alice.take_effects(), Vec::new());
    alice.layer_destroyed(SurfaceId(9), FULL);
    assert_eq!(alice.take_effects(), vec![Effect::Render]);
    assert_eq!(alice.usable_area(OutputId(0)), rect(15, 15, 1890, 1050));
    assert_eq!(alice.layer_host(SurfaceId(9)), None);
}

fn commit(surface: u64, root: u64) -> Commit {
    Commit {
        surface: SurfaceId(surface),
        root: SurfaceId(root),
        sync: false,
        width: 400,
        height: 300,
        configured: true,
        has_parent: false,
        anchors: anchors(false, false, false, false),
        zone: FULL,
    }
}

#[test]
fn commits_draw_the_output_concerned() {
    let mut alice = session();
    alice.new_toplevel(SurfaceId(1), scalar(0.0), scalar(0.0));
    alice.take_effects();
    alice.commit(&commit(2, 1));
    assert_eq!(alice.take_effects(), vec![Effect::RenderOutput(OutputId(0))]);
    assert_eq!(alice.get_window(SurfaceId(1)).unwrap().1.height, 300);
    alice.commit(&commit(5, 5));
    assert_eq!(alice.take_effects(), vec![Effect::Render]);
    alice.commit(&Commit { sync: true, width: 1, ..commit(2, 1) });
    assert_eq!(alice.take_effects(), vec![Effect::Render]);
    assert_eq!(alice.get_window(SurfaceId(1)).unwrap().1.width, 400);
    alice.commit(&Commit { configured: false, ..commit(1, 1) });
    assert_eq!(
        alice.take_effects(),
        vec![
            Effect::FirstConfigure { surface: SurfaceId(1) },
            Effect::RenderOutput(OutputId(0)),
        ],
    );
}

#[test]
fn scale_is_told_once() {
    let mut alice = session();
    alice.new_toplevel(SurfaceId(1), scalar(0.0), scalar(0.0));
    alice.new_layer_surface(SurfaceId(9), OutputId(0), FULL);
    alice.take_effects();
    alice.refresh_fractional_scale_for_output("DP-1", scalar(1.5));
    let told = |surface: u64| Effect::PreferScale { surface: SurfaceId(surface), scale: scalar(1.5) };
    assert_eq!(alice.take_effects(), vec![told(1), told(9)]);
    alice.refresh_fractional_scale_for_output("DP-1", scalar(1.5));
    assert_eq!(alice.take_effects(), vec![told(9)]);
    alice.refresh_fractional_scale_for_output("DP-2", scalar(2.0));
    assert_eq!(alice.take_effects(), Vec::new());
    alice.refresh_fractional_scale_for_output("DP-1", scalar(2.0));
    assert_eq!(alice.take_effects().len(), 2);
}

#[test]
fn new_surface_takes_the_scale_of_its_output() {
    let mut alice = Alice::new(Config::default());
    assert_eq!(alice.new_fractional_scale(SurfaceId(1), None), None);
    alice.output_connected(String::from("DP-1"), FULL, FULL);
    let right = alice.output_connected(String::from("DP-2"), rect(1920, 0, 1920, 1080), FULL);
    alice.new_toplevel(SurfaceId(1), scalar(2000.0), scalar(0.0));
    assert_eq!(alice.new_fractional_scale(SurfaceId(1), Some(right)), Some(right));
    assert_eq!(alice.new_fractional_scale(SurfaceId(1), None), Some(OutputId(0)));
    assert_eq!(alice.new_fractional_scale(SurfaceId(2), Some(right)), Some(OutputId(0)));
}

/// Answers what a bar is told about new groups and workspaces.
fn answer(alice: &mut Alice, effects: &[Effect], entered: bool) {
    for effect in effects {
        match effect {
            Effect::AnnounceGroup { bar, output } => alice.group_announced(*bar, *output, entered),
            Effect::AnnounceWorkspace { bar, scope, .. } => alice.workspace_announced(*bar, *scope),
            _ => {}
        }
    }
}

#[test]
fn bar_learns_every_tag_of_every_output() {
    let mut alice = session();
    alice.new_toplevel(SurfaceId(1), scalar(0.0), scalar(0.0));
    alice.take_effects();
    alice.bind_bar(7);
    let effects = alice.take_effects();
    assert_eq!(effects.len(), NUM_TAGS as usize + 2);
    assert_eq!(effects[0], Effect::AnnounceGroup { bar: 7, output: OutputId(0) });
    for tag in 0..NUM_TAGS {
        assert_eq!(
            effects[tag as usize + 1],
            Effect::AnnounceWorkspace {
                bar: 7,
                scope: scope(0, tag),
                number: tag + 1,
                active: tag == 0,
                hidden: tag != 0,
            },
        );
    }
    assert_eq!(effects[10], Effect::WorkspaceDone { bar: 7 });
    answer(&mut alice, &effects, false);
    // Exactly one tag of the output is active.
    let active = (0..NUM_TAGS)
        .filter(|tag| workspace_state(&alice.outputs, &alice.window_registry, scope(0, *tag)).0)
        .count();
    assert_eq!(active, 1);
    assert_eq!(
        workspace_state(&alice.outputs, &alice.window_registry, scope(0, 0)),
        (true, false),
    );
    assert_eq!(
        workspace_state(&alice.outputs, &alice.window_registry, scope(0, 5)),
        (false, true),
    );
    alice.change_tag(TagId(5));
    assert_eq!(
        workspace_state(&alice.outputs, &alice.window_registry, scope(0, 0)),
        (false, false),
    );
}

#[test]
fn bar_hears_of_changes() {
    let mut alice = session();
    alice.bind_bar(7);
    let effects = alice.take_effects();
    answer(&mut alice, &effects, false);
    // The group could not be placed yet: the next commit does it.
    alice.commit_bar(7);
    assert_eq!(
        alice.take_effects(),
        vec![
            Effect::EnterGroup { bar: 7, output: OutputId(0) },
            Effect::WorkspaceDone { bar: 7 },
        ],
    );
    alice.group_entered(7, OutputId(0));
    alice.commit_bar(7);
    assert_eq!(alice.take_effects(), vec![Effect::WorkspaceDone { bar: 7 }]);
    alice.activate_workspace(scope(0, 3));
    assert_eq!(alice.outputs.current_focused_tag(), Some(TagId(3)));
    let effects = alice.take_effects();
    let told = Effect::WorkspaceState { bar: 7, scope: scope(0, 3), active: true, hidden: false };
    assert!(effects.contains(&told));
    assert_eq!(effects.last(), Some(&Effect::WorkspaceDone { bar: 7 }));
    alice.workspace_destroyed(7, scope(0, 8));
    alice.broadcast_workspace_state();
    let effects = alice.take_effects();
    assert_eq!(effects.len(), 9);
    alice.stop_bar(7);
    assert_eq!(alice.take_effects(), vec![Effect::FinishBar { bar: 7 }]);
    alice.bar_destroyed(7);
    alice.broadcast_workspace_state();
    assert_eq!(alice.take_effects(), Vec::new());
    alice.commit_bar(7);
    assert_eq!(alice.take_effects(), Vec::new());
}

#[test]
fn bar_hears_of_outputs_that_come_and_go() {
    let mut alice = session();
    alice.bind_bar(7);
    let effects = alice.take_effects();
    answer(&mut alice, &effects, true);
    let right = alice.output_connected(String::from("DP-2"), rect(1920, 0, 1920, 1080), FULL);
    let effects = alice.take_effects();
    assert_eq!(effects.len(), 11);
    assert_eq!(effects[0], Effect::AnnounceGroup { bar: 7, output: right });
    answer(&mut alice, &effects, true);
    alice.output_disconnected("DP-2");
    let effects = alice.take_effects();
    assert_eq!(effects.len(), 11);
    assert_eq!(effects[0], Effect::RemoveWorkspace { bar: 7, scope: scope(1, 0) });
    assert_eq!(effects[9], Effect::RemoveGroup { bar: 7, output: right });
    assert_eq!(effects[10], Effect::WorkspaceDone { bar: 7 });
    alice.workspace_output_removed(right);
    assert_eq!(alice.take_effects(), Vec::new());
    alice.workspace_output_added(right);
    assert_eq!(alice.take_effects().len(), 11);
}

fn hit(surface: u64) -> Option<Hit> {
    Some(Hit { surface: SurfaceId(surface), x: scalar(1.0), y: scalar(2.0) })
}

#[test]
fn points_are_held_half_open() {
    let area = rect(10, 20, 100, 50);
    assert!(rect_holds(&area, &scalar(10.0), &scalar(20.0)));
    assert!(rect_holds(&area, &scalar(109.9), &scalar(69.9)));
    assert!(!rect_holds(&area, &scalar(110.0), &scalar(30.0)));
    assert!(!rect_holds(&area, &scalar(9.9), &scalar(30.0)));
    assert!(!rect_holds(&area, &scalar(f64::NAN), &scalar(30.0)));
}

#[test]
fn topmost_surface_takes_the_pointer() {
    let mut alice = session();
    let origin = (scalar(0.0), scalar(0.0));
    let mut probes = Probes {
        origin,
        overlay: hit(1),
        top: hit(2),
        window: hit(3),
        bottom: hit(4),
        background: hit(5),
    };
    let (x, y) = (scalar(5.0), scalar(5.0));
    assert_eq!(alice.surface_under(x, y, &probes), hit(1));
    probes.overlay = None;
    assert_eq!(alice.surface_under(x, y, &probes), hit(2));
    probes.top = None;
    assert_eq!(alice.surface_under(x, y, &probes), hit(3));
    probes.window = None;
    assert_eq!(alice.surface_under(x, y, &probes), hit(4));
    probes.bottom = None;
    assert_eq!(alice.surface_under(x, y, &probes), hit(5));
    assert_eq!(alice.surface_under(scalar(-1.0), y, &probes), None);
    assert_eq!(alice.layer_under(x, y, &vec![None, Some(SurfaceId(4))]), Some(SurfaceId(4)));
    assert_eq!(alice.layer_under(scalar(-1.0), y, &vec![Some(SurfaceId(4))]), None);
    alice.lock();
    assert_eq!(alice.surface_under(x, y, &probes), hit(5));
    alice.new_lock_surface(OutputId(0), SurfaceId(50));
    let lock = Hit { surface: SurfaceId(50), x: origin.0, y: origin.1 };
    assert_eq!(alice.surface_under(x, y, &probes), Some(lock));
}

#[test]
fn only_layers_that_ask_for_it_get_the_keyboard() {
    let mut alice = session();
    alice.focus_layer_on_demand(SurfaceId(3), KeyboardInteractivity::Never);
    alice.focus_layer_on_demand(SurfaceId(3), KeyboardInteractivity::Exclusive);
    assert_eq!(alice.take_effects(), Vec::new());
    alice.focus_layer_on_demand(SurfaceId(3), KeyboardInteractivity::OnDemand);
    assert_eq!(alice.take_effects(), vec![Effect::Focus(Some(SurfaceId(3)))]);
}

#[test]
fn pointer_stays_on_the_outputs() {
    let mut alice = Alice::new(Config::default());
    let far = (scalar(-3.0), scalar(1.0e9));
    assert_eq!(alice.clamp_to_outputs(far.0, far.1), far);
    alice.output_connected(String::from("DP-1"), FULL, FULL);
    alice.output_connected(String::from("DP-2"), rect(1920, 0, 800, 600), FULL);
    assert_eq!(
        alice.clamp_to_outputs(far.0, far.1),
        (scalar(0.0), scalar(1080.0)),
    );
    assert_eq!(
        alice.clamp_to_outputs(scalar(5000.0), scalar(700.0)),
        (scalar(2720.0), scalar(600.0)),
    );
    assert_eq!(
        alice.clamp_to_outputs(scalar(10.5), scalar(20.25)),
        (scalar(10.5), scalar(20.25)),
    );
    let (x, y) = alice.clamp_to_outputs(scalar(5000.0), scalar(700.0));
    assert_eq!(alice.clamp_to_outputs(x, y), (x, y));
    assert_eq!(alice.output_at(scalar(1920.0), scalar(5.0)), Some(OutputId(1)));
    assert_eq!(alice.output_at(scalar(1919.5), scalar(5.0)), Some(OutputId(0)));
    assert_eq!(alice.last_output_at(scalar(2720.0), scalar(5.0)), None);
}

#[test]
fn focus_follows_the_pointer_quietly() {
    let mut alice = session();
    let right = alice.output_connected(String::from("DP-2"), rect(1920, 0, 1920, 1080), FULL);
    alice.take_effects();
    alice.follow_pointer_output_focus(scalar(2000.0), scalar(3.0));
    assert_eq!(alice.outputs.get_focused().id, right);
    alice.follow_pointer_output_focus(scalar(-2000.0), scalar(3.0));
    assert_eq!(alice.outputs.get_focused().id, right);
    alice.follow_pointer_output_focus(scalar(2.0), scalar(3.0));
    assert_eq!(alice.outputs.get_focused().id, OutputId(0));
    assert_eq!(alice.take_effects(), Vec::new());
}

#[test]
fn arrow_is_black_with_a_white_outline() {
    assert_eq!(CURSOR_SIZE * CURSOR_SIZE, CURSOR_PIXELS);
    let mut fill = vec![false; CURSOR_PIXELS];
    let mut outline = vec![false; CURSOR_PIXELS];
    fill[0] = true;
    outline[0] = true;
    outline[1] = true;
    let image = draw_default_cursor(&fill, &outline);
    assert_eq!(image.len(), 24 * 24 * 4);
    assert_eq!(&image[0..4], &[0, 0, 0, 255]);
    assert_eq!(&image[4..8], &[255, 255, 255, 255]);
    assert!(image[8..].iter().all(|b| *b == 0));
}

#[test]
fn pointer_shows_what_the_client_wants() {
    let blank = vec![false; CURSOR_PIXELS];
    let mut element = PointerElement::new(&blank, &blank);
    assert_eq!(element.render_elements(), vec![PointerRenderElement::Memory]);
    element.set_status(CursorImageStatus::Hidden);
    assert_eq!(element.render_elements(), Vec::new());
    let mut shown = CursorImageStatus::Surface { surface: SurfaceId(6), hotspot: (3, 4) };
    element.set_status(shown);
    assert_eq!(element.render_elements(), vec![PointerRenderElement::Surface(SurfaceId(6))]);
    assert_eq!(cursor_hotspot(&shown), (3, 4));
    assert_eq!(cursor_hotspot(&CursorImageStatus::Named), (0, 0));
    reset_cursor_if_dead(&mut shown, true);
    assert_eq!(cursor_hotspot(&shown), (3, 4));
    reset_cursor_if_dead(&mut shown, false);
    assert_eq!(shown, CursorImageStatus::Named);
    let mut hidden = CursorImageStatus::Hidden;
    reset_cursor_if_dead(&mut hidden, false);
    assert_eq!(hidden, CursorImageStatus::Hidden);
}
