//! Modes, cards, frames and screen captures.
use alice_wm::config::Config;
use alice_wm::effect::Effect;
use alice_wm::handlers::capture::{
    capture_output, capture_output_region, clamp_region, copy_events, copy_frame, requested_box,
    BufferInfo, CopyError, FrameData, FrameEvent, BUFFER_DONE_SINCE, SCREENCOPY_VERSION,
};
use alice_wm::layout::Rect;
use alice_wm::output::{LayoutScope, OutputId, TagId};
use alice_wm::scalar::Scalar;
use alice_wm::state::backend::udev::{
    DeviceStep, FrameOutcome, HeadId, KmsPlan, NodeId, UdevData,
};
use alice_wm::state::backend::winit::{
    RESIZED_REFRESH, WINDOW_HEIGHT, WINDOW_REFRESH, WINDOW_WIDTH,
};
use alice_wm::state::backend::{millihertz, select_mode, LayerKind, ModeInfo, SceneItem};
use alice_wm::state::Alice;
use alice_wm::window::SurfaceId;

fn scalar(v: f64) -> Scalar {
    Scalar { bits: v.to_bits() }
}

fn rect(x: i32, y: i32, width: i32, height: i32) -> Rect {
    Rect { x, y, width, height }
}

const FULL: Rect = Rect { x: 0, y: 0, width: 1920, height: 1080 };

fn mode(width: u16, height: u16, refresh: u32, preferred: bool, wanted: f64) -> ModeInfo {
    let distance = scalar((refresh as f64 - wanted).abs());
    ModeInfo { width, height, refresh, preferred, distance }
}

#[test]
fn preferred_mode_is_the_default() {
    assert_eq!(select_mode(&Vec::new(), false), None);
    assert_eq!(select_mode(&Vec::new(), true), None);
    let modes = vec![
        mode(1280, 720, 60, false, 120.0),
        mode(1920, 1080, 60, true, 120.0),
        mode(1920, 1080, 144, true, 120.0),
    ];
    assert_eq!(select_mode(&modes, false), Some(1));
    let modes = vec![mode(800, 600, 60, false, 0.0), mode(640, 480, 60, false, 0.0)];
    assert_eq!(select_mode(&modes, false), Some(0));
}

#[test]
fn wanted_refresh_picks_the_closest_mode_of_that_size() {
    let modes = vec![
        mode(1280, 720, 120, false, 120.0),
        mode(1920, 1080, 60, true, 120.0),
        mode(1920, 1080, 100, false, 120.0),
        mode(1920, 1080, 140, false, 120.0),
        mode(1920, 1080, 165, false, 120.0),
    ];
    assert_eq!(select_mode(&modes, true), Some(2));
    assert_eq!(millihertz(60), 60_000);
    assert_eq!(WINDOW_REFRESH, 60);
    assert_eq!(RESIZED_REFRESH, 60_000);
    assert_eq!((WINDOW_WIDTH, WINDOW_HEIGHT), (1920, 1080));
}

fn session() -> Alice {
    let mut alice = Alice::new(Config::default());
    alice.output_connected(String::from("DP-1"), FULL, FULL);
    alice.take_effects();
    alice
}

#[test]
fn frame_shows_the_plane_or_the_window_that_covers_it() {
    let mut alice = session();
    let scope = LayoutScope { output: OutputId(0), tag: TagId(0) };
    assert_eq!(
        alice.frame_plan(scope, true, true),
        vec![SceneItem::Cursor, SceneItem::Morphs, SceneItem::Plane],
    );
    alice.new_toplevel(SurfaceId(1), scalar(0.0), scalar(0.0));
    assert_eq!(alice.frame_plan(scope, false, false), vec![SceneItem::Plane]);
    let id = alice.window_registry.focused_id().unwrap();
    alice.toggle_fullscreen(id);
    assert_eq!(
        alice.frame_plan(scope, true, false),
        vec![
            SceneItem::Cursor,
            SceneItem::Layers(LayerKind::Overlay),
            SceneItem::Window(SurfaceId(1)),
            SceneItem::Layers(LayerKind::Bottom),
            SceneItem::Layers(LayerKind::Background),
        ],
    );
}

#[test]
fn locked_frame_hides_the_session() {
    let mut alice = session();
    let scope = LayoutScope { output: OutputId(0), tag: TagId(0) };
    alice.new_toplevel(SurfaceId(1), scalar(0.0), scalar(0.0));
    alice.new_layer_surface(SurfaceId(9), OutputId(0), FULL);
    alice.lock();
    assert_eq!(alice.frame_plan(scope, true, false), vec![SceneItem::Cursor]);
    assert_eq!(
        alice.frame_plan(scope, true, true),
        vec![SceneItem::Cursor, SceneItem::Morphs],
    );
    alice.new_lock_surface(OutputId(0), SurfaceId(50));
    assert_eq!(
        alice.frame_plan(scope, false, false),
        vec![SceneItem::Layers(LayerKind::Overlay), SceneItem::Lock(SurfaceId(50))],
    );
    assert_eq!(
        alice.frame_audience(OutputId(0)),
        vec![SurfaceId(1), SurfaceId(9), SurfaceId(50)],
    );
}

const CARD: NodeId = NodeId(1);
const RENDER: NodeId = NodeId(128);

#[test]
fn cards_are_set_up_once_they_can_render() {
    let mut cards = UdevData::new(RENDER);
    // A display-only card waits for the primary renderer.
    assert_eq!(cards.device_added(CARD, None, true), DeviceStep::Defer);
    assert_eq!(cards.plan_kms_device(None), None);
    assert_eq!(cards.device_added(NodeId(2), Some(RENDER), false), DeviceStep::RenderOnly(RENDER));
    assert_eq!(cards.device_added(NodeId(2), Some(RENDER), false), DeviceStep::RenderOnly(RENDER));
    assert_eq!(cards.render_gbm_devices, vec![RENDER]);
    assert_eq!(
        cards.device_added(NodeId(3), None, false),
        DeviceStep::RenderOnly(NodeId(3)),
    );
    assert_eq!(cards.device_added(CARD, None, true), DeviceStep::Finish);
    assert_eq!(
        cards.plan_kms_device(None),
        Some(KmsPlan { render_node: RENDER, own_allocator: false }),
    );
    let own = NodeId(129);
    assert_eq!(
        cards.plan_kms_device(Some(own)),
        Some(KmsPlan { render_node: own, own_allocator: true }),
    );
    assert_eq!(cards.render_node(CARD), None);
    cards.finish_kms_device(CARD, RENDER);
    assert_eq!(cards.render_node(CARD), Some(RENDER));
}

#[test]
fn one_frame_is_on_its_way_at_a_time() {
    let mut alice = session();
    let mut cards = UdevData::new(RENDER);
    let head = HeadId { node: CARD, crtc: 40 };
    let other = HeadId { node: CARD, crtc: 41 };
    cards.finish_kms_device(CARD, RENDER);
    cards.surface_created(head, String::from("DP-1"));
    cards.surface_created(other, String::from("DP-2"));
    assert_eq!(cards.schedule_render(), vec![head, other]);
    assert!(!cards.frame_rendered(head, FrameOutcome::Unchanged));
    assert!(!cards.frame_rendered(head, FrameOutcome::Failed));
    assert!(cards.frame_rendered(head, FrameOutcome::Queued));
    assert_eq!(cards.schedule_render(), vec![other]);
    assert_eq!(cards.schedule_render_output(Some(head)), Vec::new());
    assert_eq!(cards.schedule_render_output(Some(other)), vec![other]);
    assert_eq!(cards.schedule_render_output(None), vec![other]);
    assert!(!alice.frame_finish(&mut cards, head, false));
    assert_eq!(cards.schedule_render(), vec![other]);
    assert!(alice.frame_finish(&mut cards, head, true));
    assert_eq!(cards.schedule_render(), vec![head, other]);
    assert!(!alice.frame_finish(&mut cards, HeadId { node: CARD, crtc: 99 }, true));
}

#[test]
fn shown_frame_of_a_locked_session_counts_as_blank() {
    let mut alice = session();
    let mut cards = UdevData::new(RENDER);
    let head = HeadId { node: CARD, crtc: 40 };
    cards.finish_kms_device(CARD, RENDER);
    cards.surface_created(head, String::from("DP-1"));
    alice.lock();
    assert_eq!(alice.take_effects(), Vec::new());
    assert!(cards.frame_rendered(head, FrameOutcome::Queued));
    assert!(alice.frame_finish(&mut cards, head, true));
    assert_eq!(alice.take_effects(), vec![Effect::ConfirmLock]);
}

#[test]
fn outputs_go_with_their_card() {
    let mut alice = session();
    alice.output_connected(String::from("DP-2"), rect(1920, 0, 1920, 1080), FULL);
    alice.output_connected(String::from("DP-3"), rect(3840, 0, 1920, 1080), FULL);
    let mut cards = UdevData::new(RENDER);
    cards.finish_kms_device(CARD, RENDER);
    cards.finish_kms_device(NodeId(5), RENDER);
    let heads = [
        (HeadId { node: CARD, crtc: 1 }, "DP-1"),
        (HeadId { node: CARD, crtc: 2 }, "DP-2"),
        (HeadId { node: NodeId(5), crtc: 1 }, "DP-3"),
    ];
    for (head, name) in heads {
        cards.surface_created(head, String::from(name));
    }
    alice.connector_disconnected(&mut cards, heads[0].0);
    assert_eq!(alice.outputs.iter(), vec![OutputId(1), OutputId(2)]);
    alice.connector_disconnected(&mut cards, heads[0].0);
    assert_eq!(alice.outputs.iter(), vec![OutputId(1), OutputId(2)]);
    assert_eq!(alice.device_removed(&mut cards, CARD), (Some(RENDER), false));
    assert_eq!(alice.outputs.iter(), vec![OutputId(2)]);
    assert_eq!(cards.schedule_render(), vec![heads[2].0]);
    assert_eq!(alice.device_removed(&mut cards, CARD), (None, false));
    cards.device_added(NodeId(7), None, false);
    assert_eq!(alice.device_removed(&mut cards, NodeId(7)), (None, true));
}

#[test]
fn captured_region_is_clamped_to_the_output() {
    assert_eq!(requested_box(-5, 7, -3, 9), rect(-5, 7, 0, 9));
    assert_eq!(clamp_region(rect(-10, -10, 100, 50), 1920, 1080), Some(rect(0, 0, 90, 40)));
    assert_eq!(clamp_region(rect(1900, 0, 100, 50), 1920, 1080), Some(rect(1900, 0, 20, 50)));
    assert_eq!(clamp_region(rect(1920, 0, 100, 50), 1920, 1080), None);
    assert_eq!(clamp_region(rect(5, 5, 0, 50), 1920, 1080), None);
}

#[test]
fn capture_offers_a_buffer() {
    let (frame, events) = capture_output(OutputId(2), true, 1920, 1080, SCREENCOPY_VERSION);
    assert_eq!(
        frame,
        FrameData { output: OutputId(2), overlay_cursor: true, region: None, copied: false },
    );
    let buffer = FrameEvent::Buffer { width: 1920, height: 1080, stride: 7680 };
    assert_eq!(events, vec![buffer, FrameEvent::BufferDone]);
    let (_, events) = capture_output(OutputId(2), true, 1920, 1080, BUFFER_DONE_SINCE - 1);
    assert_eq!(events, vec![buffer]);
    let (mut frame, events) =
        capture_output_region(OutputId(0), true, rect(-10, 0, 50, 50), 1920, 1080, 3);
    assert_eq!(frame.region, Some(rect(0, 0, 40, 50)));
    assert_eq!(events[0], FrameEvent::Buffer { width: 40, height: 50, stride: 160 });
    assert!(frame.begin_copy());
    assert!(!frame.begin_copy());
    let (mut frame, events) =
        capture_output_region(OutputId(0), true, rect(5000, 0, 50, 50), 1920, 1080, 3);
    assert_eq!(events, vec![FrameEvent::Failed]);
    assert!(!frame.begin_copy());
}

#[test]
fn finished_copy_tells_the_time_in_halves() {
    assert_eq!(
        copy_events(true, 0x0000_0003_0000_0007, 9),
        vec![FrameEvent::Flags, FrameEvent::Ready { high: 3, low: 7, nanoseconds: 9 }],
    );
    assert_eq!(copy_events(false, 1, 2), vec![FrameEvent::Failed]);
}

/// A picture whose bytes tell where they are from.
fn picture(width: usize, height: usize) -> Vec<u8> {
    (0..width * height * 4).map(|i| (i % 251) as u8).collect()
}

#[test]
fn copy_takes_the_whole_picture() {
    let pixels = picture(4, 3);
    let mut contents = vec![0u8; 48];
    let buffer = BufferInfo { width: 4, height: 3, stride: 16 };
    assert_eq!(copy_frame(&pixels, 4, 3, None, &mut contents, buffer), Ok(()));
    assert_eq!(contents, pixels);
}

#[test]
fn copy_takes_a_region_row_by_row() {
    let pixels = picture(4, 3);
    let mut contents = vec![255u8; 24];
    let buffer = BufferInfo { width: 2, height: 2, stride: 12 };
    let region = Some(rect(1, 1, 2, 2));
    assert_eq!(copy_frame(&pixels, 4, 3, region, &mut contents, buffer), Ok(()));
    assert_eq!(&contents[0..8], &pixels[20..28]);
    assert_eq!(&contents[8..12], &[255; 4]);
    assert_eq!(&contents[12..20], &pixels[36..44]);
    assert_eq!(&contents[20..24], &[255; 4]);
}

#[test]
fn copy_refuses_buffers_that_do_not_fit() {
    let pixels = picture(4, 3);
    let mut contents = vec![7u8; 40];
    let narrow = BufferInfo { width: 3, height: 3, stride: 16 };
    assert_eq!(
        copy_frame(&pixels, 4, 3, None, &mut contents, narrow),
        Err(CopyError::TooLarge),
    );
    let short = BufferInfo { width: 4, height: 3, stride: 16 };
    assert_eq!(
        copy_frame(&pixels, 4, 3, None, &mut contents, short),
        Err(CopyError::TooShort),
    );
    let backwards = BufferInfo { width: 4, height: 3, stride: -16 };
    assert_eq!(
        copy_frame(&pixels, 4, 3, None, &mut contents, backwards),
        Err(CopyError::TooShort),
    );
    assert_eq!(contents, vec![7u8; 40]);
}

#[test]
fn copy_refuses_regions_that_the_picture_lacks() {
    let pixels = picture(4, 3);
    let mut contents = vec![7u8; 64];
    let buffer = BufferInfo { width: 8, height: 8, stride: 8 };
    for region in [rect(-1, 0, 2, 2), rect(0, -1, 2, 2), rect(3, 1, 2, 2), rect(0, 2, 2, 2)] {
        assert_eq!(
            copy_frame(&pixels, 4, 3, Some(region), &mut contents, buffer),
            Err(CopyError::OffPicture),
        );
    }
    assert_eq!(
        copy_frame(&pixels, 4, 3, Some(rect(i32::MAX, 0, 2, 2)), &mut contents, buffer),
        Err(CopyError::OffPicture),
    );
    assert_eq!(
        copy_frame(&pixels, 4, 3, Some(rect(0, i32::MAX, 2, 2)), &mut contents, buffer),
        Err(CopyError::OffPicture),
    );
    assert_eq!(
        copy_frame(&pixels[..47], 4, 3, Some(rect(2, 1, 2, 2)), &mut contents, buffer),
        Err(CopyError::OffPicture),
    );
    for region in [rect(1, 1, -1, 2), rect(1, 1, 2, -1), rect(0, 0, 9, 1)] {
        assert_eq!(
            copy_frame(&pixels, 4, 3, Some(region), &mut contents, buffer),
            Err(CopyError::TooLarge),
        );
    }
    assert_eq!(contents, vec![7u8; 64]);
}

#[test]
fn copy_goes_on_in_the_next_row() {
    let pixels = picture(4, 3);
    let mut contents = vec![7u8; 16];
    let buffer = BufferInfo { width: 2, height: 2, stride: 8 };
    let region = Some(rect(3, 0, 2, 2));
    assert_eq!(copy_frame(&pixels, 4, 3, region, &mut contents, buffer), Ok(()));
    assert_eq!(&contents[0..8], &pixels[12..20]);
    assert_eq!(&contents[8..16], &pixels[28..36]);
}

#[test]
fn copy_of_nothing_reads_nothing() {
    let pixels = picture(4, 3);
    let mut contents = vec![7u8; 16];
    let buffer = BufferInfo { width: 2, height: 2, stride: 8 };
    for region in [rect(50, 50, 0, 2), rect(50, 50, 2, 0)] {
        assert_eq!(copy_frame(&pixels, 4, 3, Some(region), &mut contents, buffer), Ok(()));
    }
    assert_eq!(contents, vec![7u8; 16]);
}
