use vstd::prelude::*;
use vstd::seq_lib::*;
use crate::driver::{Driver, EscapeQuitDriver, IdleDriver, Run};
use crate::input::{Key, KeyAction};

verus! {

/// An event drained from the window's queue, as the loop core understands
/// it: a framebuffer resize (new width and height in pixels), a key event,
/// or anything else, which the loop ignores.
#[derive(Clone, Copy, PartialEq, Eq, Structural, Debug)]
pub enum WindowEvent {
    FramebufferSize(i32, i32),
    Key(Key, KeyAction),
    Other,
}

/// A viewport update the host must apply to its graphics context. The loop
/// answers a framebuffer resize with a viewport anchored at the origin and
/// of exactly the reported size: no clamping, no aspect correction.
#[derive(Clone, Copy, PartialEq, Eq, Structural, Debug)]
pub struct Viewport {
    pub x: i32,
    pub y: i32,
    pub width: i32,
    pub height: i32,
}

/// The viewport update, if any, that one event demands.
pub open spec fn viewport_of(event: WindowEvent) -> Option<Viewport> {
    match event {
        WindowEvent::FramebufferSize(w, h) => Some(Viewport { x: 0, y: 0, width: w, height: h }),
        _ => None,
    }
}

/// The viewport updates a whole batch of events demands, in event order.
pub open spec fn viewports_of(events: Seq<WindowEvent>) -> Seq<Viewport>
    decreases events.len(),
{
    if events.len() == 0 {
        Seq::empty()
    } else {
        match viewport_of(events[0]) {
            Some(v) => seq![v] + viewports_of(events.skip(1)),
            None => viewports_of(events.skip(1)),
        }
    }
}

/// How one event changes the loop state: a key press is dispatched to the
/// driver's `key_pressed`, a release or repeat to its `key_released`, and a
/// Quit answer latches the close flag; every other event leaves the driver
/// and the flag alone.
pub open spec fn event_step<D: Driver>(d: D, closed: bool, event: WindowEvent) -> (D, bool) {
    match event {
        WindowEvent::Key(key, action) => {
            let (d2, r) = if action is Press {
                d.pressed_spec(key)
            } else {
                d.released_spec(key)
            };
            (d2, closed || r is Quit)
        },
        _ => (d, closed),
    }
}

/// The loop state after draining a whole batch of events, front to back.
pub open spec fn drain_steps<D: Driver>(d: D, closed: bool, events: Seq<WindowEvent>) -> (D, bool)
    decreases events.len(),
{
    if events.len() == 0 {
        (d, closed)
    } else {
        let (d2, c2) = event_step(d, closed, events[0]);
        drain_steps(d2, c2, events.skip(1))
    }
}

/// The outcome of running the loop over a script of event batches, one batch
/// per frame: the driver state and close flag at the end, and how many
/// frames ran. A frame drains its whole batch even when an event of it
/// latches the close flag; the driver renders only when the drain left the
/// flag unlatched, so no render follows a latched flag, while the host still
/// swaps buffers and polls once for that final frame.
pub open spec fn run_steps<D: Driver>(d: D, closed: bool, batches: Seq<Seq<WindowEvent>>) -> (D, bool, nat)
    decreases batches.len(),
{
    if closed || batches.len() == 0 {
        (d, closed, 0)
    } else {
        let (d2, c2) = drain_steps(d, closed, batches[0]);
        let (d3, c3, n) = run_steps(d2, c2, batches.skip(1));
        (d3, c3, n + 1)
    }
}

/// Whether an event is a key event that counts as Escape.
pub open spec fn is_escape_event(event: WindowEvent) -> bool {
    match event {
        WindowEvent::Key(k, _) => k.is_escape_spec(),
        _ => false,
    }
}

/// The loop state (driver and close flag) after the first `j` frames of a
/// script, were the loop to drain them unconditionally.
pub open spec fn state_after_frames<D: Driver>(
    d: D,
    closed: bool,
    batches: Seq<Seq<WindowEvent>>,
    j: int,
) -> (D, bool)
    decreases j,
{
    if j <= 0 {
        (d, closed)
    } else {
        let (dp, cp) = state_after_frames(d, closed, batches, j - 1);
        drain_steps(dp, cp, batches[j - 1])
    }
}

/// Once the close flag is latched, draining more events never unlatches it.
pub proof fn lemma_drain_keeps_close<D: Driver>(d: D, events: Seq<WindowEvent>)
    ensures
        drain_steps(d, true, events).1,
    decreases events.len(),
{
    if events.len() > 0 {
        let (d2, c2) = event_step(d, true, events[0]);
        lemma_drain_keeps_close(d2, events.skip(1));
    }
}

/// Nor does running more frames: the close flag only ever goes from
/// unlatched to latched.
pub proof fn lemma_frames_keep_close<D: Driver>(
    d: D,
    closed: bool,
    batches: Seq<Seq<WindowEvent>>,
    i: int,
    j: int,
)
    requires
        0 <= i <= j,
        state_after_frames(d, closed, batches, i).1,
    ensures
        state_after_frames(d, closed, batches, j).1,
    decreases j - i,
{
    if i < j {
        let (dp, cp) = state_after_frames(d, closed, batches, j - 1);
        lemma_frames_keep_close(d, closed, batches, i, j - 1);
        lemma_drain_keeps_close(dp, batches[j - 1]);
    }
}

/// A latched close flag stops the loop at once: no frame runs, so the driver
/// is never asked to render again.
pub proof fn lemma_closed_runs_no_frames<D: Driver>(d: D, batches: Seq<Seq<WindowEvent>>)
    ensures
        run_steps(d, true, batches) == (d, true, 0nat),
{
}

/// Running a script is one frame and then the rest of the script, as long as
/// the close flag is unlatched going in.
pub proof fn lemma_state_after_frames_shift<D: Driver>(
    d: D,
    closed: bool,
    batches: Seq<Seq<WindowEvent>>,
    j: int,
)
    requires
        0 <= j < batches.len(),
    ensures
        ({
            let (d1, c1) = drain_steps(d, closed, batches[0]);
            state_after_frames(d1, c1, batches.skip(1), j) == state_after_frames(
                d,
                closed,
                batches,
                j + 1,
            )
        }),
    decreases j,
{
    assert(state_after_frames(d, closed, batches, 0) == (d, closed));
    if j > 0 {
        lemma_state_after_frames_shift(d, closed, batches, j - 1);
        assert(batches.skip(1)[j - 1] == batches[j]);
    }
}

/// A Quit answer ends the run with the frame that produced it: if the close
/// flag is still unlatched going into frame `j` and draining frame `j`'s
/// batch latches it, the loop runs exactly `j + 1` frames. The batch whose
/// events produced the quit is still drained to its end, but its frame does
/// not render, and no frame follows it.
pub proof fn lemma_quit_ends_run_after_current_frame<D: Driver>(
    d: D,
    batches: Seq<Seq<WindowEvent>>,
    j: int,
)
    requires
        0 <= j < batches.len(),
        !state_after_frames(d, false, batches, j).1,
        state_after_frames(d, false, batches, j + 1).1,
    ensures
        run_steps(d, false, batches) == (
            state_after_frames(d, false, batches, j + 1).0,
            true,
            (j + 1) as nat,
        ),
    decreases j,
{
    let (d1, c1) = drain_steps(d, false, batches[0]);
    assert(state_after_frames(d, false, batches, 0) == (d, false));
    assert(state_after_frames(d, false, batches, 1) == drain_steps(d, false, batches[0]));
    if j == 0 {
        lemma_closed_runs_no_frames(d1, batches.skip(1));
    } else {
        if c1 {
            lemma_frames_keep_close(d, false, batches, 1, j);
        }
        lemma_state_after_frames_shift(d, false, batches, j - 1);
        lemma_state_after_frames_shift(d, false, batches, j);
        lemma_quit_ends_run_after_current_frame(d1, batches.skip(1), j - 1);
    }
}

/// A driver whose handlers always answer Continue never latches the close
/// flag while draining a batch.
pub proof fn lemma_continue_driver_drain<D: Driver>(d: D, events: Seq<WindowEvent>)
    requires
        forall|s: D, k: Key| !((#[trigger] s.pressed_spec(k)).1 is Quit),
        forall|s: D, k: Key| !((#[trigger] s.released_spec(k)).1 is Quit),
    ensures
        !drain_steps(d, false, events).1,
    decreases events.len(),
{
    if events.len() > 0 {
        let (d2, c2) = event_step(d, false, events[0]);
        lemma_continue_driver_drain(d2, events.skip(1));
    }
}

/// A driver whose handlers always answer Continue never quits: the loop
/// processes every batch of the script, rendering one frame for each, and
/// the close flag stays unlatched however long the script is and whatever
/// keys it holds.
pub proof fn lemma_continue_driver_never_quits<D: Driver>(d: D, batches: Seq<Seq<WindowEvent>>)
    requires
        forall|s: D, k: Key| !((#[trigger] s.pressed_spec(k)).1 is Quit),
        forall|s: D, k: Key| !((#[trigger] s.released_spec(k)).1 is Quit),
    ensures
        !run_steps(d, false, batches).1,
        run_steps(d, false, batches).2 == batches.len(),
    decreases batches.len(),
{
    if batches.len() > 0 {
        let (d2, c2) = drain_steps(d, false, batches[0]);
        lemma_continue_driver_drain(d, batches[0]);
        lemma_continue_driver_never_quits(d2, batches.skip(1));
    }
}

/// Under [`IdleDriver`], whose handlers ignore every key, the loop never
/// quits: it processes every batch of any script, rendering one frame for
/// each, and the close flag stays unlatched.
pub proof fn lemma_idle_driver_never_quits(d: IdleDriver, batches: Seq<Seq<WindowEvent>>)
    ensures
        !run_steps(d, false, batches).1,
        run_steps(d, false, batches).2 == batches.len(),
{
    lemma_continue_driver_never_quits(d, batches);
}

/// Under [`EscapeQuitDriver`], draining a batch in which no key event counts
/// as Escape leaves the close flag unlatched.
pub proof fn lemma_escape_quit_drain_without_escape(d: EscapeQuitDriver, events: Seq<WindowEvent>)
    requires
        forall|j: int| 0 <= j < events.len() ==> !is_escape_event(#[trigger] events[j]),
    ensures
        !drain_steps(d, false, events).1,
    decreases events.len(),
{
    if events.len() > 0 {
        let (d2, c2) = event_step(d, false, events[0]);
        assert(!is_escape_event(events[0]));
        assert(forall|j: int|
            0 <= j < events.skip(1).len() ==> !is_escape_event(#[trigger] events.skip(1)[j]));
        lemma_escape_quit_drain_without_escape(d2, events.skip(1));
    }
}

/// Under [`EscapeQuitDriver`], a script in which no key event counts as
/// Escape never closes the window: every batch is processed and one frame
/// renders for each.
pub proof fn lemma_escape_quit_runs_without_escape(
    d: EscapeQuitDriver,
    batches: Seq<Seq<WindowEvent>>,
)
    requires
        forall|i: int, j: int|
            0 <= i < batches.len() && 0 <= j < batches[i].len() ==> !is_escape_event(
                #[trigger] batches[i][j],
            ),
    ensures
        !run_steps(d, false, batches).1,
        run_steps(d, false, batches).2 == batches.len(),
    decreases batches.len(),
{
    if batches.len() > 0 {
        let (d2, c2) = drain_steps(d, false, batches[0]);
        lemma_escape_quit_drain_without_escape(d, batches[0]);
        assert(forall|i: int, j: int|
            0 <= i < batches.skip(1).len() && 0 <= j < batches.skip(1)[i].len()
                ==> !is_escape_event(#[trigger] batches.skip(1)[i][j]));
        lemma_escape_quit_runs_without_escape(d2, batches.skip(1));
    }
}

/// The part of a windowed application's state that the loop core owns:
/// whether the close flag has been latched. The host owns the window, the
/// graphics context, and the OS event queue; it feeds drained events here
/// and applies the viewport updates handed back.
pub struct App {
    pub should_close: bool,
}

impl App {
    /// A fresh loop state: the close flag starts unlatched.
    pub fn new() -> (a: App)
        ensures
            !a.should_close,
    {
        App { should_close: false }
    }

    /// Latch the close flag when a driver answers Quit. The flag never
    /// unlatches: once set, it stays set.
    pub fn note_signal(&mut self, run: Run)
        ensures
            final(self).should_close == (old(self).should_close || run is Quit),
    {
        if let Run::Quit = run {
            self.should_close = true;
        }
    }

    /// Handle one drained event: dispatch a key event to the driver and
    /// latch the close flag on a Quit answer, and hand back the viewport
    /// update a framebuffer resize demands.
    pub fn handle_event<D: Driver>(&mut self, driver: &mut D, event: WindowEvent) -> (vp: Option<Viewport>)
        ensures
            (*final(driver), final(self).should_close) == event_step(
                *old(driver),
                old(self).should_close,
                event,
            ),
            vp == viewport_of(event),
    {
        match event {
            WindowEvent::FramebufferSize(width, height) => {
                Some(Viewport { x: 0, y: 0, width, height })
            },
            WindowEvent::Key(key, action) => {
                let run = match action {
                    KeyAction::Press => driver.key_pressed(key),
                    _ => driver.key_released(key),
                };
                self.note_signal(run);
                None
            },
            WindowEvent::Other => None,
        }
    }

    /// Drain one batch of events front to back, dispatching each to the
    /// driver, and hand back the viewport updates the batch demands, in
    /// order.
    pub fn process_events<D: Driver>(&mut self, driver: &mut D, events: &Vec<WindowEvent>) -> (vps: Vec<Viewport>)
        ensures
            (*final(driver), final(self).should_close) == drain_steps(
                *old(driver),
                old(self).should_close,
                events@,
            ),
            vps@ == viewports_of(events@),
    {
        let ghost d0 = *driver;
        let ghost c0 = self.should_close;
        let mut vps: Vec<Viewport> = Vec::new();
        let mut i: usize = 0;
        proof {
            assert(events@.skip(0) =~= events@);
            assert_seqs_equal!(Seq::<Viewport>::empty() + viewports_of(events@) == viewports_of(events@));
        }
        while i < events.len()
            invariant
                i <= events.len(),
                drain_steps(d0, c0, events@) == drain_steps(
                    *driver,
                    self.should_close,
                    events@.skip(i as int),
                ),
                viewports_of(events@) == vps@ + viewports_of(events@.skip(i as int)),
            decreases events.len() - i,
        {
            proof {
                events@.lemma_seq_skip_skip(i as int);
            }
            let ghost tail = events@.skip(i as int);
            let event = events[i];
            assert(tail[0] == event);
            let vp = self.handle_event(driver, event);
            if let Some(v) = vp {
                vps.push(v);
            }
            proof {
                assert(viewports_of(events@) == vps@ + viewports_of(tail.skip(1))) by {
                    if viewport_of(event) is Some {
                        assert_seqs_equal!(
                            vps@ + viewports_of(tail.skip(1)) ==
                            (vps@.drop_last() + seq![vps@.last()]) + viewports_of(tail.skip(1))
                        );
                    }
                }
            }
            i += 1;
        }
        proof {
            assert(events@.skip(events.len() as int) =~= Seq::<WindowEvent>::empty());
            assert_seqs_equal!(vps@ + viewports_of(Seq::<WindowEvent>::empty()) == vps@);
        }
        vps
    }

    /// Run the loop over a script of event batches, one batch per frame:
    /// while the close flag is unlatched and the script has batches left,
    /// drain the next batch, ask the driver to render the frame — unless the
    /// drain latched the close flag, after which the driver is never asked
    /// to render again — and go round again. Returns how many frames ran.
    pub fn run<D: Driver>(&mut self, driver: &mut D, batches: &Vec<Vec<WindowEvent>>) -> (frames: usize)
        ensures
            ({
                let (d2, c2, n) = run_steps(
                    *old(driver),
                    old(self).should_close,
                    batches@.map_values(|b: Vec<WindowEvent>| b@),
                );
                *final(driver) == d2 && final(self).should_close == c2 && frames == n
            }),
    {
        let ghost script = batches@.map_values(|b: Vec<WindowEvent>| b@);
        let ghost d0 = *driver;
        let ghost c0 = self.should_close;
        let mut frames: usize = 0;
        proof {
            assert(script.skip(0) =~= script);
        }
        while frames < batches.len() && !self.should_close
            invariant
                frames <= batches.len(),
                script == batches@.map_values(|b: Vec<WindowEvent>| b@),
                ({
                    let (d2, c2, n) = run_steps(
                        *driver,
                        self.should_close,
                        script.skip(frames as int),
                    );
                    run_steps(d0, c0, script) == (d2, c2, (n + frames) as nat)
                }),
            decreases batches.len() - frames,
        {
            proof {
                script.lemma_seq_skip_skip(frames as int);
                assert(script.skip(frames as int)[0] == batches@[frames as int]@);
            }
            let _vps = self.process_events(driver, &batches[frames]);
            if !self.should_close {
                driver.render();
            }
            frames += 1;
        }
        proof {
            if frames == batches.len() {
                assert(script.skip(frames as int) =~= Seq::<Seq<WindowEvent>>::empty());
            }
        }
        frames
    }
}

} // verus!
