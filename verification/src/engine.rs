//! The transmission engine: the state machine of `machine`, carried out.
//!
//! The driver owns the socket and the clock. It hands the engine one event at
//! a time and does what the engine answers:
//!
//! ```text
//! let mut action = engine.step(Event::Started);
//! loop {
//!     let event = match action {
//!         Action::Receive => /* try to receive */,
//!         Action::SendRequest(bytes) | Action::SendResponse(bytes) => /* send */,
//!         Action::Pause => /* sleep, then */ Event::Resumed,
//!         Action::Finish | Action::Abort => break,
//!     };
//!     action = engine.step(event);
//! }
//! ```

use crate::challenge::respond_to_challenge;
use crate::challenge::Outcome;
use crate::grid::lemma_area_bound;
use crate::grid::PixelGrid;
use crate::machine::all_coordinates;
use crate::machine::count_true;
use crate::machine::is_opaque;
use crate::machine::lemma_coordinate_of_index;
use crate::machine::lemma_count_true_bound;
use crate::machine::lemma_count_true_set;
use crate::machine::transparency;
use crate::machine::Action;
use crate::machine::Canvas;
use crate::machine::EngineState;
use crate::machine::Event;
use crate::machine::Phase;
use crate::wire::encode_request;
use crate::wire::PixelCoordinate;
use crate::wire::REQUEST_LEN;
use crate::wire::RESPONSE_LEN;
use vstd::prelude::*;

verus! {

/// The transmission engine for one image.
#[derive(Debug)]
pub struct Engine {
    grid: PixelGrid,
    canvas: Canvas,
    work: Vec<PixelCoordinate>,
    cursor: usize,
    confirmed: Vec<bool>,
    phase: Phase,
    done: u64,
    sent: u64,
}

impl View for Engine {
    type V = EngineState;

    closed spec fn view(&self) -> EngineState {
        EngineState {
            grid: self.grid,
            canvas: self.canvas,
            work: self.work@,
            cursor: self.cursor as nat,
            confirmed: self.confirmed@,
            phase: self.phase,
            pixels_confirmed: self.done as nat,
            packets_sent: self.sent as nat,
        }
    }
}

impl Engine {
    /// The engine is in a state that the state machine can be in.
    pub open spec fn wf(&self) -> bool {
        self@.wf()
    }

    /// Sets up the engine for an image and a canvas. Nothing has been sent:
    /// the work set holds every pixel that is not fully transparent.
    pub fn new(grid: PixelGrid, canvas: Canvas) -> (engine: Engine)
        requires
            grid.wf(),
        ensures
            engine.wf(),
            engine@ == EngineState::initial(grid, canvas),
    {
        let w: u32 = grid.width();
        let h: u32 = grid.height();
        let ghost all = all_coordinates(grid);
        let ghost keep = is_opaque(grid);
        let ghost clear = transparency(grid);
        let mut work: Vec<PixelCoordinate> = Vec::new();
        let mut confirmed: Vec<bool> = Vec::new();
        let mut done: u64 = 0;
        let mut y: u32 = 0;
        proof {
            reveal(Seq::filter);
            assert(all.take(0) =~= Seq::<PixelCoordinate>::empty());
            assert(clear.take(0) =~= Seq::<bool>::empty());
            assert(0 * w == 0) by (nonlinear_arith);
        }
        while y < h
            invariant
                grid.wf(),
                w == grid.spec_width(),
                h == grid.spec_height(),
                all == all_coordinates(grid),
                keep == is_opaque(grid),
                clear == transparency(grid),
                y <= h,
                0 <= y * w <= grid.area(),
                confirmed@ == clear.take(y * w),
                work@ == all.take(y * w).filter(keep),
                done == count_true(confirmed@),
            decreases h - y,
        {
            let mut x: u32 = 0;
            while x < w
                invariant
                    grid.wf(),
                    w == grid.spec_width(),
                    h == grid.spec_height(),
                    all == all_coordinates(grid),
                    keep == is_opaque(grid),
                    clear == transparency(grid),
                    y < h,
                    x <= w,
                    0 <= y * w + x <= grid.area(),
                    confirmed@ == clear.take(y * w + x),
                    work@ == all.take(y * w + x).filter(keep),
                    done == count_true(confirmed@),
                decreases w - x,
            {
                let c = PixelCoordinate { x: x as u16, y: y as u16 };
                let color = grid.pixel(c);
                proof {
                    let n = y * w + x;
                    lemma_coordinate_of_index(grid, c);
                    assert(n == grid.index_of(c));
                    assert(all[n] == c);
                    assert(clear[n] == grid.is_transparent(c));
                    assert(all.take(n + 1).drop_last() =~= all.take(n));
                    assert(clear.take(n + 1) =~= clear.take(n).push(clear[n]));
                    assert(clear.take(n).push(clear[n]).drop_last() =~= clear.take(n));
                    reveal(Seq::filter);
                    lemma_count_true_bound(confirmed@);
                    lemma_area_bound(grid);
                }
                if color.a == 0 {
                    confirmed.push(true);
                    done = done + 1;
                } else {
                    confirmed.push(false);
                    work.push(c);
                }
                x = x + 1;
            }
            proof {
                assert(y * w + w == (y + 1) * w) by (nonlinear_arith);
            }
            y = y + 1;
        }
        proof {
            assert(h * w == grid.area()) by (nonlinear_arith)
                requires
                    grid.area() == w * h,
            ;
            assert(all.take(h * w) =~= all);
            assert(clear.take(h * w) =~= clear);
            EngineState::lemma_initial(grid, canvas);
        }
        Engine { grid, canvas, work, cursor: 0, confirmed, phase: Phase::Idle, done, sent: 0 }
    }

    /// What the engine is waiting for.
    pub fn phase(&self) -> (phase: Phase)
        ensures
            phase == self@.phase,
    {
        self.phase
    }

    /// Tells whether every pixel is confirmed and the engine has stopped.
    pub fn is_finished(&self) -> (finished: bool)
        ensures
            finished == (self@.phase == Phase::Finished),
    {
        match self.phase {
            Phase::Finished => true,
            _ => false,
        }
    }

    /// The progress counter of confirmed pixels.
    pub fn pixels_confirmed(&self) -> (count: u64)
        ensures
            count == self@.pixels_confirmed,
    {
        self.done
    }

    /// The progress counter of datagrams sent.
    pub fn packets_sent(&self) -> (count: u64)
        ensures
            count == self@.packets_sent,
    {
        self.sent
    }

    /// Number of pixels of the image: where the counter of confirmed pixels
    /// ends.
    pub fn total_pixels(&self) -> (count: u64)
        requires
            self.wf(),
        ensures
            count == self@.grid.area(),
    {
        let w: u32 = self.grid.width();
        let h: u32 = self.grid.height();
        proof {
            lemma_area_bound(self.grid);
        }
        (w as u64) * (h as u64)
    }

    /// The work set of the current pass, in the order it is walked.
    pub fn pending(&self) -> (work: Vec<PixelCoordinate>)
        ensures
            work@ == self@.work,
    {
        let mut work: Vec<PixelCoordinate> = Vec::new();
        let mut i: usize = 0;
        while i < self.work.len()
            invariant
                i <= self.work@.len(),
                work@ == self.work@.take(i as int),
            decreases self.work@.len() - i,
        {
            work.push(self.work[i]);
            proof {
                assert(self.work@.take(i + 1) =~= self.work@.take(i as int).push(
                    self.work@[i as int],
                ));
            }
            i = i + 1;
        }
        proof {
            assert(self.work@.take(i as int) =~= self.work@);
        }
        work
    }

    /// Tells whether the pixel at `c` is a pixel of the image that is
    /// confirmed.
    pub fn is_confirmed(&self, c: PixelCoordinate) -> (confirmed: bool)
        requires
            self.wf(),
        ensures
            confirmed == (self@.grid.contains(c) && self@.is_confirmed(c)),
    {
        if self.grid.has_pixel(c) {
            let at: usize = self.grid.position(c);
            self.confirmed[at]
        } else {
            false
        }
    }

    /// Confirms the pixel at `c`, counting it if it was not confirmed before.
    fn mark(&mut self, c: PixelCoordinate)
        requires
            old(self)@.inv(),
            old(self)@.grid.contains(c),
        ensures
            final(self)@ == old(self)@.confirm(c),
            final(self)@.inv(),
    {
        proof {
            self@.lemma_confirm(c);
            lemma_count_true_bound(self.confirmed@);
            lemma_area_bound(self.grid);
        }
        let at: usize = self.grid.position(c);
        if !self.confirmed[at] {
            proof {
                lemma_count_true_set(self.confirmed@, at as int);
            }
            self.confirmed.set(at, true);
            self.done = self.done + 1;
        }
    }

    /// Counts one datagram as sent.
    fn count_packet(&mut self)
        requires
            old(self)@.inv(),
        ensures
            final(self)@ == old(self)@.count_packet(),
            final(self)@.inv(),
    {
        if self.sent < u64::MAX {
            self.sent = self.sent + 1;
        }
    }

    /// Moves the pass on to the next pixel that may be asked for, or to the
    /// end of the work set.
    fn settle(&mut self)
        requires
            old(self)@.inv(),
        ensures
            final(self)@ == old(self)@.settle(),
            final(self)@.inv(),
    {
        let mut live: bool = false;
        while !live && self.cursor < self.work.len()
            invariant
                self@.inv(),
                self@.settle() == old(self)@.settle(),
                live ==> self@.settle() == self@,
            decreases
                    self.work@.len() - self.cursor,
                    (if live {
                        0int
                    } else {
                        1int
                    }),
        {
            let c = self.work[self.cursor];
            assert(self@.grid.contains(self@.work[self.cursor as int]));
            let at: usize = self.grid.position(c);
            if self.confirmed[at] {
                self.cursor = self.cursor + 1;
            } else if !self.canvas.has_pixel(c) || self.grid.pixel(c).a == 0 {
                self.mark(c);
                self.cursor = self.cursor + 1;
            } else {
                live = true;
            }
        }
    }

    /// Begins a new pass over the pixels that are still not confirmed.
    fn next_pass(&mut self)
        requires
            old(self)@.inv(),
        ensures
            final(self)@ == old(self)@.next_pass(),
            final(self)@.inv(),
    {
        let ghost keep = self@.is_pending();
        let mut kept: Vec<PixelCoordinate> = Vec::new();
        let mut i: usize = 0;
        proof {
            reveal(Seq::filter);
            assert(self.work@.take(0) =~= Seq::<PixelCoordinate>::empty());
        }
        while i < self.work.len()
            invariant
                self@ == old(self)@,
                self@.inv(),
                keep == self@.is_pending(),
                i <= self.work@.len(),
                kept@ == self.work@.take(i as int).filter(keep),
            decreases self.work@.len() - i,
        {
            let c = self.work[i];
            assert(self@.grid.contains(self@.work[i as int]));
            let at: usize = self.grid.position(c);
            proof {
                reveal(Seq::filter);
                assert(self.work@.take(i + 1).drop_last() =~= self.work@.take(i as int));
            }
            if !self.confirmed[at] {
                kept.push(c);
            }
            i = i + 1;
        }
        proof {
            assert(self.work@.take(i as int) =~= self.work@);
            self@.lemma_next_pass();
        }
        self.work = kept;
        self.cursor = 0;
    }

    /// Finds the next pixel to work on, or finishes.
    fn advance(&mut self) -> (action: Action)
        requires
            old(self)@.inv(),
        ensures
            final(self)@ == old(self)@.advance(),
            final(self)@.wf(),
            action == (if final(self)@.phase == Phase::Receiving {
                Action::Receive
            } else {
                Action::Finish
            }),
    {
        proof {
            self@.lemma_advance();
        }
        self.settle();
        if self.cursor < self.work.len() {
            self.phase = Phase::Receiving;
            return Action::Receive;
        }
        self.next_pass();
        self.settle();
        if self.cursor < self.work.len() {
            self.phase = Phase::Receiving;
            return Action::Receive;
        }
        self.next_pass();
        self.phase = Phase::Finished;
        Action::Finish
    }

    /// Leaves the current pixel for this pass and finds the next one.
    fn move_on(&mut self) -> (action: Action)
        requires
            old(self)@.inv(),
            old(self)@.cursor < old(self)@.work.len(),
        ensures
            final(self)@ == old(self)@.skip().advance(),
            final(self)@.wf(),
            action == (if final(self)@.phase == Phase::Receiving {
                Action::Receive
            } else {
                Action::Finish
            }),
    {
        let len: usize = self.work.len();
        self.cursor = self.cursor + 1;
        self.advance()
    }

    /// Gives up: the protocol was broken.
    fn abort(&mut self) -> (action: Action)
        requires
            old(self)@.inv(),
        ensures
            final(self)@ == old(self)@.abort(),
            final(self)@.wf(),
            action == Action::Abort,
    {
        self.phase = Phase::Aborted;
        Action::Abort
    }

    /// Takes one event from the driver and says what the driver does next.
    ///
    /// The new state is the one the state machine gives for the event, and
    /// the action is the one that belongs to the new state: a receive while
    /// receiving, the request for the current pixel while requesting, a
    /// well-made response to the datagram just received while answering, a
    /// pause while paused, and the end when finished or failed.
    pub fn step(&mut self, event: Event) -> (action: Action)
        requires
            old(self).wf(),
        ensures
            final(self).wf(),
            final(self)@ == old(self)@.step(event),
            final(self)@.issues(event, action),
    {
        proof {
            self@.lemma_step_keeps_wf(event);
        }
        match self.phase {
            Phase::Idle => match event {
                Event::Started => self.advance(),
                _ => self.abort(),
            },
            Phase::Receiving => match event {
                Event::Received(datagram) => {
                    match respond_to_challenge(&self.grid, datagram.as_slice()) {
                        Ok(Outcome::Confirmed(c)) => {
                            self.mark(c);
                            Action::Receive
                        },
                        Ok(Outcome::Respond(response)) => {
                            self.phase = Phase::Answering;
                            Action::SendResponse(response)
                        },
                        Err(_) => Action::Receive,
                    }
                },
                Event::WouldBlock => {
                    let c = self.work[self.cursor];
                    assert(self@.grid.contains(self@.work[self.cursor as int]));
                    let at: usize = self.grid.position(c);
                    if self.confirmed[at] {
                        self.move_on()
                    } else {
                        self.phase = Phase::Requesting;
                        Action::SendRequest(encode_request(c))
                    }
                },
                Event::Busy => {
                    self.phase = Phase::PausedBeforeReceive;
                    Action::Pause
                },
                Event::Failed => Action::Receive,
                _ => self.abort(),
            },
            Phase::Answering => match event {
                Event::Sent(n) => {
                    if n == RESPONSE_LEN {
                        self.count_packet();
                        self.phase = Phase::Receiving;
                        Action::Receive
                    } else {
                        self.abort()
                    }
                },
                Event::WouldBlock => {
                    self.phase = Phase::PausedBeforeReceive;
                    Action::Pause
                },
                Event::Busy => {
                    self.phase = Phase::PausedBeforeReceive;
                    Action::Pause
                },
                Event::Failed => {
                    self.phase = Phase::Receiving;
                    Action::Receive
                },
                _ => self.abort(),
            },
            Phase::Requesting => match event {
                Event::Sent(n) => {
                    if n == REQUEST_LEN {
                        self.count_packet();
                        self.move_on()
                    } else {
                        self.abort()
                    }
                },
                Event::WouldBlock => {
                    self.phase = Phase::PausedBeforeNext;
                    Action::Pause
                },
                Event::Busy => {
                    self.phase = Phase::PausedBeforeNext;
                    Action::Pause
                },
                Event::Failed => self.move_on(),
                _ => self.abort(),
            },
            Phase::PausedBeforeReceive => match event {
                Event::Resumed => {
                    self.phase = Phase::Receiving;
                    Action::Receive
                },
                _ => self.abort(),
            },
            Phase::PausedBeforeNext => match event {
                Event::Resumed => self.move_on(),
                _ => self.abort(),
            },
            Phase::Finished => Action::Finish,
            Phase::Aborted => Action::Abort,
        }
    }
}

} // verus!
