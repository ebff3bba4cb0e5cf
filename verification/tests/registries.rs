//! Window stacks, the window registry, outputs, layouts and layers.
use alice_wm::layer::{LayerEntry, LayerRegistry};
use alice_wm::layout::Layout;
use alice_wm::output::{
    find_layout, LayoutKind, LayoutRegistry, LayoutScope, OutputId, OutputInfo, Outputs, TagId,
};
use alice_wm::table::{Roster, Table};
use alice_wm::window::{LayoutInfo, SurfaceId, Window, WindowId, WindowInfo, WindowRegistry};

fn order(stack: &LayoutInfo) -> Vec<u64> {
    (0..stack.len()).map(|i| stack.at(i).0).collect()
}

fn stack(ids: &[u64]) -> LayoutInfo {
    LayoutInfo::new(ids.iter().map(|id| WindowId(*id)).collect())
}

fn window(surface: u64) -> Window {
    Window { surface: SurfaceId(surface), width: 0, height: 0 }
}

fn scope(output: u32, tag: u32) -> LayoutScope {
    LayoutScope { output: OutputId(output), tag: TagId(tag) }
}

fn info(surface: u64, output: u32, tag: u32, floating: bool) -> WindowInfo {
    WindowInfo::new(TagId(tag), OutputId(output), window(surface), floating)
}

#[test]
fn last_of_a_stack_is_focused() {
    assert_eq!(stack(&[4, 5, 6]).focused(), Some(WindowId(6)));
    assert_eq!(stack(&[]).focused(), None);
    let mut s = stack(&[4]);
    s.push(WindowId(9));
    assert_eq!(s.focused(), Some(WindowId(9)));
    assert_eq!(s.pop(), Some(WindowId(9)));
    assert_eq!(s.focused(), Some(WindowId(4)));
    assert_eq!(s.pop(), Some(WindowId(4)));
    assert_eq!(s.pop(), None);
    assert_eq!(s.focused(), None);
}

#[test]
fn focus_up_and_down_are_inverse() {
    let mut s = stack(&[1, 2, 3]);
    s.focus_up();
    assert_eq!(s.focused(), Some(WindowId(1)));
    s.focus_down();
    assert_eq!(s.focused(), Some(WindowId(3)));
    s.focus_down();
    assert_eq!(s.focused(), Some(WindowId(2)));
    s.focus_down();
    s.focus_down();
    assert_eq!(s.focused(), Some(WindowId(3)));
}

#[test]
fn shifting_carries_the_focus_along() {
    let mut s = stack(&[1, 2, 3]);
    s.move_down();
    assert_eq!(order(&s), vec![1, 3, 2]);
    assert_eq!(s.focused(), Some(WindowId(3)));
    s.move_up();
    assert_eq!(order(&s), vec![1, 2, 3]);
    assert_eq!(s.focused(), Some(WindowId(3)));
    s.move_up();
    assert_eq!(order(&s), vec![3, 2, 1]);
    assert_eq!(s.focused(), Some(WindowId(3)));
    s.move_down();
    assert_eq!(order(&s), vec![1, 2, 3]);
    assert_eq!(s.focused(), Some(WindowId(3)));
}

#[test]
fn removal_keeps_the_focus_in_range() {
    let mut s = stack(&[1, 2, 3]);
    s.remove_window(WindowId(3));
    assert_eq!(s.focused(), Some(WindowId(2)));
    s.change_focus(WindowId(1));
    s.remove_window(WindowId(1));
    assert_eq!(s.focused(), Some(WindowId(2)));
    s.remove_window(WindowId(7));
    assert_eq!(order(&s), vec![2]);
    s.remove_window(WindowId(2));
    assert_eq!(s.focused(), None);
}

#[test]
fn swapping_twice_changes_nothing() {
    let mut s = stack(&[1, 2, 3]);
    s.swap_ids(WindowId(1), WindowId(3));
    assert_eq!(order(&s), vec![3, 2, 1]);
    assert_eq!(s.focused(), Some(WindowId(3)));
    s.swap_ids(WindowId(1), WindowId(3));
    assert_eq!(order(&s), vec![1, 2, 3]);
    assert_eq!(s.focused(), Some(WindowId(3)));
    s.swap_ids(WindowId(1), WindowId(1));
    s.swap_ids(WindowId(1), WindowId(8));
    s.swap_ids(WindowId(8), WindowId(1));
    assert_eq!(order(&s), vec![1, 2, 3]);
}

#[test]
fn window_ids_count_up() {
    let mut id = WindowId(4);
    assert_eq!(id.next(), WindowId(4));
    assert_eq!(id, WindowId(5));
}

#[test]
fn registry_recycles_ids() {
    let mut registry = WindowRegistry::new();
    assert_eq!(registry.insert(info(10, 0, 0, false)), WindowId(0));
    assert_eq!(registry.insert(info(11, 0, 0, false)), WindowId(1));
    assert_eq!(registry.insert(info(12, 0, 1, false)), WindowId(2));
    assert_eq!(registry.len(), 3);
    assert_eq!(registry.focused_id(), Some(WindowId(2)));
    assert_eq!(registry.filter(&scope(0, 0)), vec![WindowId(1), WindowId(0)]);
    registry.remove(WindowId(1));
    assert_eq!(registry.len(), 2);
    assert_eq!(registry.focused_window(), Some(WindowId(2)));
    assert_eq!(registry.filter(&scope(0, 0)), vec![WindowId(0)]);
    assert_eq!(registry.find_by_surface(&SurfaceId(11)), None);
    assert_eq!(registry.insert(info(13, 1, 0, false)), WindowId(1));
    assert_eq!(registry.find_by_surface(&SurfaceId(13)), Some(WindowId(1)));
    assert_eq!(registry.find(window(10)), Some(WindowId(0)));
    assert_eq!(registry.find(window(11)), None);
    registry.remove(WindowId(1));
    assert_eq!(registry.focused_id(), None);
    assert!(registry.get_focused().is_none());
    assert_eq!(registry.filter(&scope(5, 5)), Vec::new());
}

#[test]
fn registry_keeps_the_facts_of_a_window() {
    let mut registry = WindowRegistry::new();
    let id = registry.insert(info(10, 2, 3, true));
    let known = registry.get(&id).unwrap();
    assert_eq!(known.scope(), scope(2, 3));
    assert!(known.floating && !known.fullscreen);
    assert!(known.last_configured.is_none() && known.last_fractional_scale.is_none());
    registry.get_mut(&id).unwrap().fullscreen = true;
    assert_eq!(
        registry.fullscreen_window_for_output(&scope(2, 3)),
        Some(window(10)),
    );
    assert_eq!(registry.fullscreen_window_for_output(&scope(2, 4)), None);
    registry.get_focused_mut().unwrap().fullscreen = false;
    assert_eq!(registry.fullscreen_window_for_output(&scope(2, 3)), None);
    assert!(registry.get(&WindowId(8)).is_none());
    assert_eq!(registry.iter(), vec![id]);
    registry.change_focus(None);
    assert_eq!(registry.focused_id(), None);
}

#[test]
fn master_is_the_first_tiled_window() {
    let mut registry = WindowRegistry::new();
    registry.insert(info(1, 0, 0, false));
    registry.insert(info(2, 0, 0, false));
    registry.insert(info(3, 0, 0, true));
    assert_eq!(registry.master(&scope(0, 0)), Some(WindowId(1)));
    assert_eq!(registry.master(&scope(0, 1)), None);
    registry.get_stack_mut(&scope(0, 0)).unwrap().swap_ids(WindowId(0), WindowId(1));
    assert_eq!(registry.master(&scope(0, 0)), Some(WindowId(0)));
    assert!(registry.get_stack(&scope(0, 1)).is_none());
}

#[test]
fn stack_entries_are_made_on_demand() {
    let mut registry = WindowRegistry::new();
    let id = registry.insert(info(1, 0, 0, false));
    registry.stack_entry(scope(0, 4), id);
    assert_eq!(registry.filter(&scope(0, 4)), vec![id]);
    assert_eq!(registry.get_stack(&scope(0, 4)).unwrap().focused(), Some(id));
}

#[test]
fn outputs_are_numbered_by_name() {
    let mut outputs = Outputs::new();
    assert_eq!(outputs.len(), 0);
    assert_eq!(outputs.insert(String::from("A")), OutputId(0));
    assert_eq!(outputs.insert(String::from("B")), OutputId(1));
    assert_eq!(outputs.insert(String::from("A")), OutputId(0));
    assert_eq!(outputs.len(), 2);
    assert_eq!(outputs.get("B").unwrap().id, OutputId(1));
    assert!(outputs.get("C").is_none());
    assert!(outputs.has(OutputId(1)) && !outputs.has(OutputId(2)));
    assert_eq!(outputs.get_focused().name, "A");
    outputs.change_focus(OutputId(1));
    assert_eq!(outputs.get_focused().name, "B");
    outputs.change_tag(TagId(6));
    assert_eq!(outputs.current_focused_tag(), Some(TagId(6)));
    assert_eq!(outputs.get_focused_tag(OutputId(0)), Some(TagId(0)));
    assert_eq!(outputs.get_focused_tag(OutputId(9)), None);
    outputs.deactivate("B");
    assert_eq!(outputs.iter(), vec![OutputId(0)]);
    assert!(!outputs.get_id(OutputId(1)).active);
    assert_eq!(outputs.insert(String::from("B")), OutputId(1));
    assert_eq!(outputs.get_id(OutputId(1)).current_tag, TagId(6));
    assert_eq!(outputs.iter(), vec![OutputId(0), OutputId(1)]);
}

#[test]
fn fresh_output_shows_the_first_tag() {
    let output = OutputInfo::new(String::from("A"), OutputId(3));
    assert_eq!(output.name, "A");
    assert_eq!(output.id, OutputId(3));
    assert_eq!(output.current_tag, TagId(0));
    assert!(output.active);
}

#[test]
fn layouts_are_chosen_by_name() {
    assert_eq!(find_layout("MasterStack"), Some(LayoutKind::MasterStack));
    assert_eq!(find_layout("Fibonacci"), Some(LayoutKind::Fibonacci));
    assert_eq!(find_layout("Tablet"), Some(LayoutKind::Tablet));
    assert_eq!(find_layout("tablet"), None);
    let mut registry = LayoutRegistry::new();
    assert_eq!(registry.get_layout(&scope(0, 0)), LayoutKind::MasterStack);
    registry.set_active(scope(0, 1), "Tablet");
    assert_eq!(registry.get_layout(&scope(0, 1)), LayoutKind::Tablet);
    assert_eq!(registry.get_layout(&scope(0, 0)), LayoutKind::MasterStack);
    registry.set_active(scope(0, 1), "Fibonacci");
    assert_eq!(registry.get_layout(&scope(0, 1)), LayoutKind::Fibonacci);
    assert_eq!(LayoutKind::Tablet.name(), "Tablet");
}

#[test]
fn layers_are_listed_by_output() {
    let mut layers = LayerRegistry::new();
    layers.insert(OutputId(0), SurfaceId(1));
    layers.insert(OutputId(1), SurfaceId(2));
    layers.insert(OutputId(0), SurfaceId(3));
    let fresh = |surface: u64| LayerEntry { surface: SurfaceId(surface), init_config: false };
    assert_eq!(layers.get(&OutputId(0)), vec![fresh(1), fresh(3)]);
    assert_eq!(layers.get(&OutputId(7)), Vec::new());
    assert_eq!(layers.find(&SurfaceId(2)), Some((OutputId(1), fresh(2))));
    assert_eq!(layers.find(&SurfaceId(9)), None);
    layers.mark_configured(SurfaceId(2));
    assert!(layers.find(&SurfaceId(2)).unwrap().1.init_config);
    layers.remove(OutputId(0), SurfaceId(1));
    assert_eq!(layers.get(&OutputId(0)), vec![fresh(3)]);
}

#[test]
fn rosters_keep_the_order_of_arrival() {
    let mut roster: Roster<SurfaceId, WindowId> = Roster::new();
    roster.insert(SurfaceId(1), WindowId(10));
    roster.insert(SurfaceId(2), WindowId(20));
    roster.insert(SurfaceId(1), WindowId(11));
    assert_eq!(roster.len(), 2);
    assert_eq!(roster.at(0), (SurfaceId(1), &WindowId(11)));
    roster.raise(SurfaceId(1), WindowId(12));
    assert_eq!(roster.at(1), (SurfaceId(1), &WindowId(12)));
    assert!(roster.contains(SurfaceId(2)));
    assert_eq!(roster.remove(SurfaceId(2)), Some(WindowId(20)));
    assert_eq!(roster.remove(SurfaceId(2)), None);
    assert_eq!(roster.get(SurfaceId(1)), Some(&WindowId(12)));
    *roster.get_mut(SurfaceId(1)).unwrap() = WindowId(13);
    assert_eq!(roster.drain(), vec![(SurfaceId(1), WindowId(13))]);
    assert_eq!(roster.len(), 0);
}

#[test]
fn tables_hold_one_value_per_key() {
    let mut table: Table<LayoutScope, WindowId> = Table::new();
    table.insert(scope(1, 2), WindowId(1));
    table.insert(scope(2, 1), WindowId(2));
    table.insert(scope(1, 2), WindowId(3));
    assert_eq!(table.get(scope(1, 2)), Some(&WindowId(3)));
    assert_eq!(table.get(scope(2, 1)), Some(&WindowId(2)));
    assert!(!table.contains(scope(0, 0)));
    *table.get_mut(scope(2, 1)).unwrap() = WindowId(9);
    assert_eq!(table.remove(scope(2, 1)), Some(WindowId(9)));
    assert_eq!(table.remove(scope(2, 1)), None);
    table.clear();
    assert!(table.get(scope(1, 2)).is_none());
}
