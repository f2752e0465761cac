use blackwall_api::driver::{Driver, EscapeQuitDriver, IdleDriver, Run};
use blackwall_api::event_loop::{App, Viewport, WindowEvent};
use blackwall_api::input::{Key, KeyAction, LogicalKey};
use std::cell::Cell;

/// A driver that counts its render calls and quits when a released key
/// counts as Escape.
struct CountingEscapeDriver {
    renders: Cell<u32>,
}

impl Driver for CountingEscapeDriver {
    fn render(&self) {
        self.renders.set(self.renders.get() + 1);
    }

    fn key_pressed(&mut self, _key: Key) -> Run {
        Run::Continue
    }

    fn key_released(&mut self, key: Key) -> Run {
        if key.is_escape() {
            Run::Quit
        } else {
            Run::Continue
        }
    }
}

fn escape_key() -> Key {
    Key { logical: LogicalKey::Escape, scancode: 1, modifiers: 0 }
}

fn plain_key(code: i32) -> Key {
    Key { logical: LogicalKey::Other(code), scancode: 38, modifiers: 0 }
}

#[test]
fn new_app_starts_with_close_flag_unlatched() {
    let app = App::new();
    assert!(!app.should_close);
}

#[test]
fn quit_signal_latches_close_flag() {
    let mut app = App::new();
    app.note_signal(Run::Continue);
    assert!(!app.should_close);
    app.note_signal(Run::Quit);
    assert!(app.should_close);
    app.note_signal(Run::Continue);
    assert!(app.should_close);
}

#[test]
fn resize_event_hands_back_exact_viewport() {
    let mut app = App::new();
    let mut driver = IdleDriver;
    let vp = app.handle_event(&mut driver, WindowEvent::FramebufferSize(800, 600));
    assert_eq!(vp, Some(Viewport { x: 0, y: 0, width: 800, height: 600 }));
    assert!(!app.should_close);
}

#[test]
fn key_event_hands_back_no_viewport() {
    let mut app = App::new();
    let mut driver = IdleDriver;
    let vp = app.handle_event(&mut driver, WindowEvent::Key(plain_key(65), KeyAction::Press));
    assert_eq!(vp, None);
}

#[test]
fn resize_batch_updates_viewports_in_order_without_clamping() {
    let mut app = App::new();
    let mut driver = IdleDriver;
    let events = vec![
        WindowEvent::FramebufferSize(800, 600),
        WindowEvent::Other,
        WindowEvent::Key(plain_key(65), KeyAction::Press),
        WindowEvent::FramebufferSize(0, 0),
        WindowEvent::FramebufferSize(2147483647, -5),
    ];
    let viewports = app.process_events(&mut driver, &events);
    assert_eq!(
        viewports,
        vec![
            Viewport { x: 0, y: 0, width: 800, height: 600 },
            Viewport { x: 0, y: 0, width: 0, height: 0 },
            Viewport { x: 0, y: 0, width: 2147483647, height: -5 },
        ]
    );
}

#[test]
fn escape_release_ends_run_after_current_frame() {
    let mut app = App::new();
    let mut driver = CountingEscapeDriver { renders: Cell::new(0) };
    let batches = vec![
        vec![WindowEvent::Key(plain_key(65), KeyAction::Release)],
        vec![
            WindowEvent::Key(escape_key(), KeyAction::Release),
            WindowEvent::FramebufferSize(640, 480),
        ],
        vec![WindowEvent::Other],
        vec![],
    ];
    let frames = app.run(&mut driver, &batches);
    assert_eq!(frames, 2);
    assert!(app.should_close);
    assert_eq!(driver.renders.get(), 1);
}

#[test]
fn no_render_happens_once_close_flag_is_latched() {
    let mut app = App::new();
    let mut driver = CountingEscapeDriver { renders: Cell::new(0) };
    let batches = vec![
        vec![WindowEvent::Key(escape_key(), KeyAction::Release)],
        vec![],
        vec![],
    ];
    let frames = app.run(&mut driver, &batches);
    assert_eq!(frames, 1);
    assert_eq!(driver.renders.get(), 0);
    let more = app.run(&mut driver, &batches);
    assert_eq!(more, 0);
    assert_eq!(driver.renders.get(), 0);
}

#[test]
fn escape_repeat_counts_as_release_and_quits() {
    let mut app = App::new();
    let mut driver = EscapeQuitDriver;
    let batches = vec![vec![WindowEvent::Key(escape_key(), KeyAction::Repeat)], vec![]];
    let frames = app.run(&mut driver, &batches);
    assert_eq!(frames, 1);
    assert!(app.should_close);
}

#[test]
fn escape_press_does_not_quit_a_release_only_driver() {
    let mut app = App::new();
    let mut driver = EscapeQuitDriver;
    let batches = vec![vec![WindowEvent::Key(escape_key(), KeyAction::Press)], vec![]];
    let frames = app.run(&mut driver, &batches);
    assert_eq!(frames, 2);
    assert!(!app.should_close);
}

#[test]
fn scancode_nine_release_quits_even_with_unmapped_logical_key() {
    let mut app = App::new();
    let mut driver = EscapeQuitDriver;
    let key = Key { logical: LogicalKey::Other(65), scancode: 9, modifiers: 0 };
    let batches = vec![vec![WindowEvent::Key(key, KeyAction::Release)], vec![]];
    let frames = app.run(&mut driver, &batches);
    assert_eq!(frames, 1);
    assert!(app.should_close);
}

#[test]
fn idle_driver_never_quits_whatever_the_script_holds() {
    let mut app = App::new();
    let mut driver = IdleDriver;
    let mut batches = Vec::new();
    for i in 0..50 {
        batches.push(vec![
            WindowEvent::Key(escape_key(), KeyAction::Release),
            WindowEvent::Key(plain_key(i), KeyAction::Press),
            WindowEvent::FramebufferSize(i, i),
        ]);
    }
    let frames = app.run(&mut driver, &batches);
    assert_eq!(frames, 50);
    assert!(!app.should_close);
}

#[test]
fn escape_quit_driver_runs_whole_script_without_escape_events() {
    let mut app = App::new();
    let mut driver = EscapeQuitDriver;
    let mut batches = Vec::new();
    for i in 0..50 {
        batches.push(vec![
            WindowEvent::Key(plain_key(i), KeyAction::Release),
            WindowEvent::Key(plain_key(i), KeyAction::Press),
            WindowEvent::Other,
        ]);
    }
    let frames = app.run(&mut driver, &batches);
    assert_eq!(frames, 50);
    assert!(!app.should_close);
}

#[test]
fn empty_script_runs_no_frames() {
    let mut app = App::new();
    let mut driver = IdleDriver;
    let batches: Vec<Vec<WindowEvent>> = Vec::new();
    let frames = app.run(&mut driver, &batches);
    assert_eq!(frames, 0);
    assert!(!app.should_close);
}
