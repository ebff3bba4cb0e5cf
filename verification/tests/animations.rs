//! Animations, slides and morphs.
use alice_wm::animation::{
    Animation, AnimationKind, Fraction, MorphFinish, Point, TagSlideAnimation, WindowMorph,
    MILLISECOND, MORPH_DURATION, SLIDE_DURATION,
};
use alice_wm::gesture::{
    direction_of, is_undecided, undo_of, ActiveGesture, GestureDirection, RELEASE_DURATION_MS,
};
use alice_wm::config::Action;
use alice_wm::layout::Rect;
use alice_wm::output::{OutputId, TagId};
use alice_wm::scalar::Scalar;
use alice_wm::window::{SurfaceId, Window};

fn scalar(v: f64) -> Scalar {
    Scalar { bits: v.to_bits() }
}

fn slide(direction: i32, animation: Animation, eased: f64, offset: i32) -> TagSlideAnimation {
    TagSlideAnimation {
        direction,
        distance: 1920,
        animation,
        old_tag: TagId(0),
        new_tag: TagId(1),
        outgoing: Vec::new(),
        incoming: Vec::new(),
        eased: scalar(eased),
        offset,
    }
}

#[test]
fn durations_are_milliseconds() {
    assert_eq!(MILLISECOND, 1_000_000);
    assert_eq!(SLIDE_DURATION, 250 * MILLISECOND);
    assert_eq!(MORPH_DURATION, 180 * MILLISECOND);
    assert_eq!(RELEASE_DURATION_MS, 200);
}

#[test]
fn timed_animation_follows_the_clock() {
    let animation = Animation::new(1_000, 400);
    assert_eq!(
        animation.0,
        AnimationKind::Timed { start: 1_000, duration: 400, from: scalar(0.0), to: scalar(1.0) },
    );
    assert_eq!(animation.progress(0), Fraction { part: 0, whole: 400 });
    assert_eq!(animation.progress(1_100), Fraction { part: 100, whole: 400 });
    assert_eq!(animation.progress(9_000), Fraction { part: 400, whole: 400 });
    assert!(!animation.is_finished(1_399));
    assert!(animation.is_finished(1_400));
    assert_eq!(animation.eased_progress(scalar(0.7)), scalar(0.7));
}

#[test]
fn animation_without_duration_is_over_at_once() {
    let animation = Animation::new(1_000, 0);
    assert_eq!(animation.progress(0), Fraction { part: 1, whole: 1 });
    assert!(animation.is_finished(0));
}

#[test]
fn held_animation_stays_where_it_is() {
    let mut animation = Animation::manual(scalar(3.0));
    assert_eq!(animation.eased_progress(scalar(0.1)), scalar(1.0));
    animation.set_manual_progress(scalar(-0.5));
    assert_eq!(animation.eased_progress(scalar(0.1)), scalar(0.0));
    animation.set_manual_progress(scalar(0.25));
    assert_eq!(animation.eased_progress(scalar(0.1)), scalar(0.25));
    assert!(!animation.is_finished(u64::MAX));
    assert_eq!(animation.progress(5), Fraction { part: 1, whole: 1 });
    let mut timed = Animation::new(0, 10);
    timed.set_manual_progress(scalar(0.25));
    assert_eq!(timed, Animation::new(0, 10));
}

#[test]
fn release_starts_where_the_finger_was() {
    let held = Animation::manual(scalar(0.4));
    let settling = held.release_to(70, scalar(1.0), 200, scalar(0.9));
    assert_eq!(
        settling.0,
        AnimationKind::Timed { start: 70, duration: 200, from: scalar(0.4), to: scalar(1.0) },
    );
    let again = settling.release_to(100, scalar(0.0), 200, scalar(0.6));
    assert_eq!(
        again.0,
        AnimationKind::Timed { start: 100, duration: 200, from: scalar(0.6), to: scalar(0.0) },
    );
    assert!(!settling.is_finished(269));
    assert!(settling.is_finished(270));
}

#[test]
fn slide_moves_both_tags_as_one_strip() {
    let base = Point { x: 15, y: 20 };
    let starting = slide(1, Animation::new(0, 10), 0.0, 1920);
    assert_eq!(starting.place_outgoing(base), base);
    assert_eq!(starting.place_incoming(base), Point { x: 1935, y: 20 });
    let half_way = slide(1, Animation::new(0, 10), 0.5, 960);
    assert_eq!(half_way.place_outgoing(base), Point { x: -945, y: 20 });
    assert_eq!(half_way.place_incoming(base), Point { x: 975, y: 20 });
    let over = slide(1, Animation::new(0, 10), 1.0, 0);
    assert_eq!(over.place_outgoing(base), Point { x: -1905, y: 20 });
    assert_eq!(over.place_incoming(base), base);
    let backwards = slide(-1, Animation::new(0, 10), 0.0, -1920);
    assert_eq!(backwards.place_outgoing(base), base);
    assert_eq!(backwards.place_incoming(base), Point { x: -1905, y: 20 });
}

#[test]
fn slide_has_arrived_from_one_half_on() {
    assert!(slide(1, Animation::new(0, 10), 0.5, 0).completed());
    assert!(!slide(1, Animation::new(0, 10), 0.49, 0).completed());
    assert!(slide(1, Animation::manual(scalar(0.8)), 0.0, 0).completed());
    assert!(!slide(1, Animation::manual(scalar(0.2)), 1.0, 0).completed());
    let mut moving = slide(1, Animation::new(0, 10), 0.0, 1920);
    assert!(!moving.completed());
    moving.sample(scalar(0.9), 192);
    assert!(moving.completed());
    assert_eq!(moving.offset, 192);
    assert!(moving.is_finished(10));
    assert!(!moving.is_finished(9));
}

#[test]
fn morph_reports_the_box_it_was_given() {
    let from = Rect { x: 0, y: 0, width: 10, height: 10 };
    let to = Rect { x: 100, y: 0, width: 30, height: 20 };
    let mut morph = WindowMorph {
        window: Window { surface: SurfaceId(1), width: 30, height: 20 },
        output: OutputId(0),
        animation: Animation::new(0, MORPH_DURATION),
        from,
        to,
        on_finish: MorphFinish::Remap,
        base: (30, 20),
        current: from,
        eased: scalar(0.0),
    };
    assert_eq!(morph.current_rect(), from);
    let middle = Rect { x: 50, y: 0, width: 20, height: 15 };
    morph.sample(scalar(0.5), middle);
    assert_eq!(morph.current_rect(), middle);
    assert!(!morph.is_finished(MORPH_DURATION - 1));
    assert!(morph.is_finished(MORPH_DURATION));
}

#[test]
fn swipe_is_undecided_inside_the_dead_zone() {
    assert!(is_undecided((scalar(11.9), scalar(-11.9))));
    assert!(!is_undecided((scalar(12.0), scalar(0.0))));
    assert!(!is_undecided((scalar(0.0), scalar(-12.0))));
}

#[test]
fn swipe_heads_along_the_longer_axis() {
    assert_eq!(direction_of((scalar(20.0), scalar(3.0))), GestureDirection::Right);
    assert_eq!(direction_of((scalar(-20.0), scalar(3.0))), GestureDirection::Left);
    assert_eq!(direction_of((scalar(2.0), scalar(30.0))), GestureDirection::Down);
    assert_eq!(direction_of((scalar(2.0), scalar(-30.0))), GestureDirection::Up);
    assert_eq!(direction_of((scalar(15.0), scalar(-15.0))), GestureDirection::Up);
}

#[test]
fn undoing_is_mutual() {
    for action in [
        Action::MoveUpStack,
        Action::MoveDownStack,
        Action::MoveOutputLeft,
        Action::MoveOutputRight,
        Action::MoveOutputUp,
        Action::MoveOutputDown,
    ] {
        let undo = undo_of(&action).unwrap();
        assert_ne!(undo, action);
        assert_eq!(undo_of(&undo), Some(action));
    }
    assert_eq!(undo_of(&Action::FocusNextTag), None);
    assert_eq!(undo_of(&Action::Quit), None);
}

#[test]
fn fresh_swipe_has_gone_nowhere() {
    let gesture = ActiveGesture::new(3);
    assert_eq!(gesture.fingers, 3);
    assert_eq!(gesture.total, (scalar(0.0), scalar(0.0)));
    assert!(gesture.resolved.is_none());
}

#[test]
fn slide_is_headed_to_where_it_eases_to() {
    let starting = Animation::new(0, 10);
    assert!(slide(1, starting, 0.0, 1920).is_headed());
    let back = starting.release_to(3, scalar(0.0), 10, scalar(0.9));
    assert!(!slide(1, back, 0.9, 192).is_headed());
    assert!(slide(1, Animation::manual(scalar(0.5)), 0.0, 0).is_headed());
    assert!(!slide(1, Animation::manual(scalar(0.4)), 1.0, 0).is_headed());
}
