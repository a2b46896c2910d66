//! The transmission engine as a mathematical state machine.
//!
//! The engine owns the pixels that are not yet confirmed and decides, event by
//! event, what the driver does next: try to receive, send a request or a
//! response, pause, or stop. This module says what each step does; `engine`
//! holds the code that carries the steps out.
//!
//! The work set is walked in passes. At each pixel of a pass the engine first
//! drains what the server has sent, answering every challenge, and then asks
//! for the pixel. A pass over, the pixels confirmed meanwhile leave the work
//! set, and the next pass begins; the engine finishes when the work set is
//! empty.
//!
//! | waiting for            | event                   | then                              |
//! |------------------------|-------------------------|-----------------------------------|
//! | the start              | `Started`               | find a pixel, receive             |
//! | a receive              | `Received`, confirming  | confirm the pixel, receive        |
//! | a receive              | `Received`, demanding   | send the response                 |
//! | a receive              | `Received`, other       | drop the datagram, receive        |
//! | a receive              | `WouldBlock`            | send the request for the pixel    |
//! | a receive              | `Busy`                  | pause, then receive               |
//! | a receive              | `Failed`                | receive                           |
//! | a response to be sent  | `Sent(43)`              | count it, receive                 |
//! | a response to be sent  | `WouldBlock`, `Busy`    | pause, then receive               |
//! | a response to be sent  | `Failed`                | receive                           |
//! | a request to be sent   | `Sent(4)`               | count it, find the next pixel     |
//! | a request to be sent   | `WouldBlock`, `Busy`    | pause, then find the next pixel   |
//! | a request to be sent   | `Failed`                | find the next pixel               |
//! | the end of a pause     | `Resumed`               | what the pause was put before     |
//!
//! A send that takes another number of bytes, and an event that answers
//! nothing the engine asked for, abort the engine. A pixel that was confirmed
//! while the engine drained is not asked for.

use crate::challenge::confirms;
use crate::challenge::demands_work;
use crate::challenge::is_response;
use crate::grid::lemma_pixel_index_bound;
use crate::grid::lemma_pixel_index_injective;
use crate::grid::PixelGrid;
use crate::wire::request_bytes;
use crate::wire::target_of;
use crate::wire::PixelCoordinate;
use crate::wire::REQUEST_LEN;
use crate::wire::RESPONSE_LEN;
use vstd::arithmetic::div_mod::lemma_fundamental_div_mod;
use vstd::arithmetic::div_mod::lemma_fundamental_div_mod_converse;
use vstd::prelude::*;

verus! {

/// Width of the canvas that the server of this protocol keeps.
pub const CANVAS_WIDTH: u32 = 384;

/// Height of the canvas that the server of this protocol keeps.
pub const CANVAS_HEIGHT: u32 = 256;

/// Length of a pause, in milliseconds.
pub const BACKOFF_MILLIS: u64 = 1;

/// The rectangle of the server's canvas. A pixel outside it is never asked
/// for.
#[derive(Clone, Copy, Debug, PartialEq, Eq, Structural)]
pub struct Canvas {
    pub width: u32,
    pub height: u32,
}

impl Canvas {
    /// `c` lies on the canvas.
    pub open spec fn contains(&self, c: PixelCoordinate) -> bool {
        c.x < self.width && c.y < self.height
    }

    /// Tells whether `c` lies on the canvas.
    pub fn has_pixel(&self, c: PixelCoordinate) -> (inside: bool)
        ensures
            inside == self.contains(c),
    {
        (c.x as u32) < self.width && (c.y as u32) < self.height
    }
}

/// What the engine is waiting for.
#[derive(Clone, Copy, Debug, PartialEq, Eq, Structural)]
pub enum Phase {
    /// Nothing yet: the engine has not been started.
    Idle,
    /// The outcome of a receive.
    Receiving,
    /// The outcome of sending a challenge response.
    Answering,
    /// The outcome of sending a pixel request.
    Requesting,
    /// The end of a pause, after which it receives again.
    PausedBeforeReceive,
    /// The end of a pause, after which it turns to the next pixel.
    PausedBeforeNext,
    /// Nothing any more: every pixel is confirmed.
    Finished,
    /// Nothing any more: the transport or the driver broke the protocol.
    Aborted,
}

/// What the driver reports back to the engine.
#[derive(Debug, PartialEq, Eq)]
pub enum Event {
    /// The driver is ready to begin.
    Started,
    /// A datagram arrived; these are its bytes.
    Received(Vec<u8>),
    /// The transport took this many bytes of the datagram handed to it.
    Sent(usize),
    /// The operation would have blocked.
    WouldBlock,
    /// The transport was busy.
    Busy,
    /// The operation failed for another reason.
    Failed,
    /// The pause is over.
    Resumed,
}

/// What the engine asks the driver to do next.
#[derive(Debug, PartialEq, Eq)]
pub enum Action {
    /// Try to receive one datagram without blocking.
    Receive,
    /// Send these four bytes: a pixel request.
    SendRequest(Vec<u8>),
    /// Send these 43 bytes: a challenge response.
    SendResponse(Vec<u8>),
    /// Pause for the backoff time.
    Pause,
    /// Stop: every pixel is confirmed.
    Finish,
    /// Stop: the protocol was broken.
    Abort,
}

/// The engine's state.
#[verifier::ext_equal]
pub struct EngineState {
    /// The image being sent.
    pub grid: PixelGrid,
    /// The server's canvas.
    pub canvas: Canvas,
    /// The work set of the current pass, in the order it is walked.
    pub work: Seq<PixelCoordinate>,
    /// How many entries of `work` this pass is done with.
    pub cursor: nat,
    /// For each pixel of the image, by row-major index: is it confirmed?
    pub confirmed: Seq<bool>,
    /// What the engine is waiting for.
    pub phase: Phase,
    /// The progress counter of confirmed pixels.
    pub pixels_confirmed: nat,
    /// The progress counter of datagrams sent; it stops at `u64::MAX`.
    pub packets_sent: nat,
}

/// Number of `true` entries.
pub open spec fn count_true(flags: Seq<bool>) -> nat
    decreases flags.len(),
{
    if flags.len() == 0 {
        0
    } else {
        count_true(flags.drop_last()) + if flags.last() {
            1nat
        } else {
            0nat
        }
    }
}

/// The pixel with row-major index `i` in an image `width` pixels wide.
pub open spec fn coordinate_at(width: nat, i: int) -> PixelCoordinate {
    PixelCoordinate { x: (i % width as int) as u16, y: (i / width as int) as u16 }
}

/// Every pixel of the image, row by row.
pub open spec fn all_coordinates(grid: PixelGrid) -> Seq<PixelCoordinate> {
    Seq::new(grid.area(), |i: int| coordinate_at(grid.spec_width(), i))
}

/// Picks the pixels that are not fully transparent.
pub open spec fn is_opaque(grid: PixelGrid) -> spec_fn(PixelCoordinate) -> bool {
    |c: PixelCoordinate| !grid.is_transparent(c)
}

/// Which pixels count as confirmed before anything is sent: the fully
/// transparent ones.
pub open spec fn transparency(grid: PixelGrid) -> Seq<bool> {
    Seq::new(grid.area(), |i: int| grid.is_transparent(coordinate_at(grid.spec_width(), i)))
}

impl EngineState {
    /// The state before the first step: the work set holds every pixel that
    /// is not fully transparent, and the transparent ones count as confirmed.
    pub open spec fn initial(grid: PixelGrid, canvas: Canvas) -> EngineState {
        EngineState {
            grid,
            canvas,
            work: all_coordinates(grid).filter(is_opaque(grid)),
            cursor: 0,
            confirmed: transparency(grid),
            phase: Phase::Idle,
            pixels_confirmed: count_true(transparency(grid)),
            packets_sent: 0,
        }
    }

    /// The pixel at `c` is confirmed.
    pub open spec fn is_confirmed(self, c: PixelCoordinate) -> bool {
        self.confirmed[self.grid.index_of(c)]
    }

    /// The pixel that this pass has reached.
    pub open spec fn current(self) -> PixelCoordinate {
        self.work[self.cursor as int]
    }

    /// The pixel needs no request: it lies off the canvas or is fully
    /// transparent.
    pub open spec fn skippable(self, c: PixelCoordinate) -> bool {
        !self.canvas.contains(c) || self.grid.is_transparent(c)
    }

    /// Picks the pixels that are not confirmed.
    pub open spec fn is_pending(self) -> spec_fn(PixelCoordinate) -> bool {
        |c: PixelCoordinate| !self.is_confirmed(c)
    }

    /// What holds in every phase.
    pub open spec fn inv(self) -> bool {
        &&& self.grid.wf()
        &&& self.confirmed.len() == self.grid.area()
        &&& self.cursor <= self.work.len()
        &&& self.work.no_duplicates()
        &&& forall|i: int| 0 <= i < self.work.len() ==> self.grid.contains(#[trigger] self.work[i])
        &&& forall|c: PixelCoordinate|
            self.grid.contains(c) && !self.is_confirmed(c) ==> #[trigger] self.work.contains(c)
        &&& self.pixels_confirmed == count_true(self.confirmed)
        &&& self.packets_sent <= u64::MAX
    }

    /// The pass stands at a pixel that may be asked for.
    pub open spec fn at_live_pixel(self) -> bool {
        self.cursor < self.work.len() && !self.skippable(self.current())
    }

    /// The state is one that the engine can be in.
    pub open spec fn wf(self) -> bool {
        &&& self.inv()
        &&& match self.phase {
            Phase::Idle => true,
            Phase::Receiving => self.at_live_pixel(),
            Phase::Answering => self.at_live_pixel(),
            Phase::PausedBeforeReceive => self.at_live_pixel(),
            Phase::Requesting => self.at_live_pixel() && !self.is_confirmed(self.current()),
            Phase::PausedBeforeNext => self.at_live_pixel() && !self.is_confirmed(self.current()),
            Phase::Finished => self.work.len() == 0,
            Phase::Aborted => true,
        }
    }

    /// The same state in another phase.
    pub open spec fn with_phase(self, phase: Phase) -> EngineState {
        EngineState { phase, ..self }
    }

    /// The state after the protocol was broken.
    pub open spec fn abort(self) -> EngineState {
        self.with_phase(Phase::Aborted)
    }

    /// The state with the pixel at `c` confirmed. A pixel is counted once.
    pub open spec fn confirm(self, c: PixelCoordinate) -> EngineState {
        if self.is_confirmed(c) {
            self
        } else {
            EngineState {
                confirmed: self.confirmed.update(self.grid.index_of(c), true),
                pixels_confirmed: self.pixels_confirmed + 1,
                ..self
            }
        }
    }

    /// The state with one more datagram counted as sent.
    pub open spec fn count_packet(self) -> EngineState {
        if self.packets_sent < u64::MAX {
            EngineState { packets_sent: self.packets_sent + 1, ..self }
        } else {
            self
        }
    }

    /// The state with the pass moved on by one pixel.
    pub open spec fn skip(self) -> EngineState {
        EngineState { cursor: self.cursor + 1, ..self }
    }

    /// Moves the pass on to the next pixel that may be asked for, or to the
    /// end of the work set. Pixels that are confirmed are passed over; pixels
    /// that need no request are confirmed and passed over.
    pub open spec fn settle(self) -> EngineState
        decreases self.work.len() - self.cursor,
    {
        if self.cursor >= self.work.len() {
            self
        } else if self.is_confirmed(self.current()) {
            self.skip().settle()
        } else if self.skippable(self.current()) {
            self.confirm(self.current()).skip().settle()
        } else {
            self
        }
    }

    /// Begins a new pass: the work set loses the pixels confirmed so far.
    pub open spec fn next_pass(self) -> EngineState {
        EngineState { work: self.work.filter(self.is_pending()), cursor: 0, ..self }
    }

    /// Finds the next pixel to work on, beginning a new pass when this one is
    /// over, and finishes when the work set is empty.
    pub open spec fn advance(self) -> EngineState {
        let rest = self.settle();
        if rest.cursor < rest.work.len() {
            rest.with_phase(Phase::Receiving)
        } else {
            let again = rest.next_pass().settle();
            if again.cursor < again.work.len() {
                again.with_phase(Phase::Receiving)
            } else {
                again.next_pass().with_phase(Phase::Finished)
            }
        }
    }

    /// The state after a datagram arrived while the engine was receiving.
    pub open spec fn on_datagram(self, datagram: Seq<u8>) -> EngineState {
        if confirms(self.grid, datagram) {
            self.confirm(target_of(datagram))
        } else if demands_work(self.grid, datagram) {
            self.with_phase(Phase::Answering)
        } else {
            self
        }
    }

    /// The state after one event.
    pub open spec fn step(self, event: Event) -> EngineState {
        match self.phase {
            Phase::Idle => match event {
                Event::Started => self.advance(),
                _ => self.abort(),
            },
            Phase::Receiving => match event {
                Event::Received(datagram) => self.on_datagram(datagram@),
                Event::WouldBlock => if self.is_confirmed(self.current()) {
                    self.skip().advance()
                } else {
                    self.with_phase(Phase::Requesting)
                },
                Event::Busy => self.with_phase(Phase::PausedBeforeReceive),
                Event::Failed => self,
                _ => self.abort(),
            },
            Phase::Answering => match event {
                Event::Sent(n) => if n == RESPONSE_LEN {
                    self.count_packet().with_phase(Phase::Receiving)
                } else {
                    self.abort()
                },
                Event::WouldBlock => self.with_phase(Phase::PausedBeforeReceive),
                Event::Busy => self.with_phase(Phase::PausedBeforeReceive),
                Event::Failed => self.with_phase(Phase::Receiving),
                _ => self.abort(),
            },
            Phase::Requesting => match event {
                Event::Sent(n) => if n == REQUEST_LEN {
                    self.count_packet().skip().advance()
                } else {
                    self.abort()
                },
                Event::WouldBlock => self.with_phase(Phase::PausedBeforeNext),
                Event::Busy => self.with_phase(Phase::PausedBeforeNext),
                Event::Failed => self.skip().advance(),
                _ => self.abort(),
            },
            Phase::PausedBeforeReceive => match event {
                Event::Resumed => self.with_phase(Phase::Receiving),
                _ => self.abort(),
            },
            Phase::PausedBeforeNext => match event {
                Event::Resumed => self.skip().advance(),
                _ => self.abort(),
            },
            Phase::Finished => self,
            Phase::Aborted => self,
        }
    }

    /// `action` is what the engine asks for on reaching this state through
    /// `event`.
    pub open spec fn issues(self, event: Event, action: Action) -> bool {
        match action {
            Action::Receive => self.phase == Phase::Receiving,
            Action::SendRequest(bytes) => self.phase == Phase::Requesting && bytes@
                == request_bytes(self.current()),
            Action::SendResponse(bytes) => self.phase == Phase::Answering && (
            event matches Event::Received(datagram) && demands_work(self.grid, datagram@)
                && is_response(self.grid, datagram@, bytes@)),
            Action::Pause => self.phase == Phase::PausedBeforeReceive || self.phase
                == Phase::PausedBeforeNext,
            Action::Finish => self.phase == Phase::Finished,
            Action::Abort => self.phase == Phase::Aborted,
        }
    }
}

/// No more entries are `true` than there are entries.
pub proof fn lemma_count_true_bound(flags: Seq<bool>)
    ensures
        count_true(flags) <= flags.len(),
    decreases flags.len(),
{
    if flags.len() > 0 {
        lemma_count_true_bound(flags.drop_last());
    }
}

/// Where every entry is `true`, the count is the length; and only there.
pub proof fn lemma_count_true_full(flags: Seq<bool>)
    ensures
        count_true(flags) == flags.len() <==> forall|i: int|
            0 <= i < flags.len() ==> #[trigger] flags[i],
    decreases flags.len(),
{
    if flags.len() > 0 {
        let rest = flags.drop_last();
        lemma_count_true_full(rest);
        lemma_count_true_bound(rest);
        if count_true(flags) == flags.len() {
            assert forall|i: int| 0 <= i < flags.len() implies #[trigger] flags[i] by {
                if i < rest.len() {
                    assert(rest[i]);
                }
            }
        }
        if forall|i: int| 0 <= i < flags.len() ==> #[trigger] flags[i] {
            assert forall|i: int| 0 <= i < rest.len() implies #[trigger] rest[i] by {
                assert(flags[i]);
            }
            assert(flags.last());
        }
    }
}

/// Setting one `false` entry raises the count by one.
pub proof fn lemma_count_true_set(flags: Seq<bool>, i: int)
    requires
        0 <= i < flags.len(),
        !flags[i],
    ensures
        count_true(flags.update(i, true)) == count_true(flags) + 1,
    decreases flags.len(),
{
    let set = flags.update(i, true);
    if i == flags.len() - 1 {
        assert(set.drop_last() =~= flags.drop_last());
    } else {
        assert(set.drop_last() =~= flags.drop_last().update(i, true));
        lemma_count_true_set(flags.drop_last(), i);
    }
}

/// A pixel of the image is the pixel at its own index.
pub proof fn lemma_coordinate_of_index(grid: PixelGrid, c: PixelCoordinate)
    requires
        grid.wf(),
        grid.contains(c),
    ensures
        0 <= grid.index_of(c) < grid.area(),
        coordinate_at(grid.spec_width(), grid.index_of(c)) == c,
{
    let w = grid.spec_width() as int;
    lemma_pixel_index_bound(grid.spec_width(), grid.spec_height(), c);
    lemma_fundamental_div_mod_converse(grid.index_of(c), w, c.y as int, c.x as int);
}

/// Every index below the area is the index of a pixel of the image.
pub proof fn lemma_index_of_coordinate(grid: PixelGrid, i: int)
    requires
        grid.wf(),
        0 <= i < grid.area(),
    ensures
        grid.contains(coordinate_at(grid.spec_width(), i)),
        grid.index_of(coordinate_at(grid.spec_width(), i)) == i,
{
    let w = grid.spec_width() as int;
    let h = grid.spec_height() as int;
    assert(w > 0) by (nonlinear_arith)
        requires
            0 <= i < w * h,
            w >= 0,
    ;
    lemma_fundamental_div_mod(i, w);
    let q = i / w;
    let r = i % w;
    assert(0 <= r < w);
    assert(0 <= q < h) by (nonlinear_arith)
        requires
            i == w * q + r,
            0 <= r < w,
            0 <= i < w * h,
            w > 0,
    ;
    assert(q * w == w * q) by (nonlinear_arith);
}

/// Filtering leaves a sequence without duplicates without duplicates.
pub proof fn lemma_filter_no_duplicates(
    s: Seq<PixelCoordinate>,
    keep: spec_fn(PixelCoordinate) -> bool,
)
    requires
        s.no_duplicates(),
    ensures
        s.filter(keep).no_duplicates(),
    decreases s.len(),
{
    reveal(Seq::filter);
    if s.len() > 0 {
        let rest = s.drop_last();
        let kept = rest.filter(keep);
        lemma_filter_no_duplicates(rest, keep);
        if keep(s.last()) {
            if kept.contains(s.last()) {
                rest.lemma_filter_contains_rev(keep, s.last());
                let j = choose|j: int| 0 <= j < rest.len() && rest[j] == s.last();
                assert(s[j] == s[s.len() - 1]);
            }
            let out = kept.push(s.last());
            assert forall|i: int, j: int|
                0 <= i < out.len() && 0 <= j < out.len() && i != j implies out[i] != out[j] by {
                if i < kept.len() && j < kept.len() {
                } else if i < kept.len() {
                    assert(kept.contains(kept[i]));
                } else {
                    assert(kept.contains(kept[j]));
                }
            }
        }
    }
}

/// Every pixel of the image occurs once among all its coordinates.
pub proof fn lemma_all_coordinates(grid: PixelGrid)
    requires
        grid.wf(),
    ensures
        all_coordinates(grid).no_duplicates(),
        forall|c: PixelCoordinate| #[trigger]
            all_coordinates(grid).contains(c) <==> grid.contains(c),
{
    let all = all_coordinates(grid);
    assert forall|i: int, j: int| 0 <= i < all.len() && 0 <= j < all.len() && i != j implies all[i]
        != all[j] by {
        lemma_index_of_coordinate(grid, i);
        lemma_index_of_coordinate(grid, j);
    }
    assert forall|c: PixelCoordinate| #[trigger] all.contains(c) <==> grid.contains(c) by {
        if all.contains(c) {
            let i = choose|i: int| 0 <= i < all.len() && all[i] == c;
            lemma_index_of_coordinate(grid, i);
        }
        if grid.contains(c) {
            lemma_coordinate_of_index(grid, c);
            assert(all[grid.index_of(c)] == c);
        }
    }
}

impl EngineState {
    /// Confirming a pixel of the image keeps the state sound, confirms that
    /// pixel and touches no other.
    pub proof fn lemma_confirm(self, c: PixelCoordinate)
        requires
            self.inv(),
            self.grid.contains(c),
        ensures
            self.confirm(c).inv(),
            self.confirm(c).is_confirmed(c),
            self.confirm(c).pixels_confirmed >= self.pixels_confirmed,
            forall|other: PixelCoordinate|
                self.grid.contains(other) && other != c ==> (
                #[trigger] self.confirm(c).is_confirmed(other) == self.is_confirmed(other)),
    {
        let after = self.confirm(c);
        let at = self.grid.index_of(c);
        lemma_pixel_index_bound(self.grid.spec_width(), self.grid.spec_height(), c);
        assert forall|other: PixelCoordinate|
            self.grid.contains(other) && other != c implies (#[trigger] after.is_confirmed(other)
            == self.is_confirmed(other)) by {
            lemma_pixel_index_bound(self.grid.spec_width(), self.grid.spec_height(), other);
            if self.grid.index_of(other) == at {
                lemma_pixel_index_injective(self.grid.spec_width(), other, c);
            }
        }
        if !self.is_confirmed(c) {
            lemma_count_true_set(self.confirmed, at);
            assert forall|other: PixelCoordinate|
                after.grid.contains(other) && !after.is_confirmed(other) implies #[trigger]
                after.work.contains(other) by {
                assert(other != c);
                assert(after.is_confirmed(other) == self.is_confirmed(other));
                assert(self.work.contains(other));
            }
        }
    }

    /// A new pass keeps the state sound, and its work set holds exactly the
    /// pixels of the old one that are not confirmed.
    pub proof fn lemma_next_pass(self)
        requires
            self.inv(),
        ensures
            self.next_pass().inv(),
            forall|c: PixelCoordinate| #[trigger]
                self.next_pass().work.contains(c) <==> self.work.contains(c) && !self.is_confirmed(
                    c,
                ),
    {
        let next = self.next_pass();
        let keep = self.is_pending();
        lemma_filter_no_duplicates(self.work, keep);
        assert forall|c: PixelCoordinate| #[trigger]
            next.work.contains(c) <==> self.work.contains(c) && !self.is_confirmed(c) by {
            if next.work.contains(c) {
                self.work.lemma_filter_contains_rev(keep, c);
                let i = choose|i: int| 0 <= i < next.work.len() && next.work[i] == c;
                self.work.lemma_filter_pred(keep, i);
            }
            if self.work.contains(c) && !self.is_confirmed(c) {
                let j = choose|j: int| 0 <= j < self.work.len() && self.work[j] == c;
                self.work.lemma_filter_contains(keep, j);
            }
        }
        assert forall|i: int| 0 <= i < next.work.len() implies self.grid.contains(
            #[trigger] next.work[i],
        ) by {
            assert(next.work.contains(next.work[i]));
            let j = choose|j: int| 0 <= j < self.work.len() && self.work[j] == next.work[i];
            assert(self.grid.contains(self.work[j]));
        }
        assert forall|c: PixelCoordinate|
            next.grid.contains(c) && !next.is_confirmed(c) implies #[trigger] next.work.contains(
            c,
        ) by {
            assert(self.work.contains(c));
        }
    }

    /// Settling keeps the state sound. It touches neither the work set nor
    /// the phase, passes over confirmed pixels only, and stops at a pixel
    /// that is pending and may be asked for.
    pub proof fn lemma_settle(self)
        requires
            self.inv(),
        ensures
            self.settle().inv(),
            self.settle().grid == self.grid,
            self.settle().canvas == self.canvas,
            self.settle().work == self.work,
            self.settle().phase == self.phase,
            self.settle().packets_sent == self.packets_sent,
            self.settle().pixels_confirmed >= self.pixels_confirmed,
            self.cursor <= self.settle().cursor,
            self.settle().cursor < self.work.len() ==> !self.settle().is_confirmed(
                self.settle().current(),
            ) && !self.settle().skippable(self.settle().current()),
            forall|i: int|
                self.cursor <= i < self.settle().cursor ==> self.settle().is_confirmed(
                    #[trigger] self.work[i],
                ),
            forall|c: PixelCoordinate|
                self.grid.contains(c) && self.is_confirmed(c) ==> #[trigger] self.settle()
                    .is_confirmed(c),
            forall|c: PixelCoordinate|
                self.grid.contains(c) && #[trigger] self.settle().is_confirmed(c)
                    ==> self.is_confirmed(c) || self.skippable(c),
        decreases self.work.len() - self.cursor,
    {
        if self.cursor < self.work.len() {
            let cur = self.current();
            assert(self.grid.contains(self.work[self.cursor as int]));
            if self.is_confirmed(cur) {
                let moved = self.skip();
                moved.lemma_settle();
                let end = moved.settle();
                assert forall|i: int| self.cursor <= i < end.cursor implies end.is_confirmed(
                    #[trigger] self.work[i],
                ) by {
                    if i == self.cursor {
                        assert(end.is_confirmed(cur));
                    }
                }
                assert forall|c: PixelCoordinate|
                    self.grid.contains(c) && #[trigger] end.is_confirmed(c) implies self
                        .is_confirmed(c) || self.skippable(c) by {
                    assert(moved.is_confirmed(c) || moved.skippable(c));
                }
            } else if self.skippable(cur) {
                self.lemma_confirm(cur);
                let marked = self.confirm(cur);
                let moved = marked.skip();
                moved.lemma_settle();
                let end = moved.settle();
                assert forall|i: int| self.cursor <= i < end.cursor implies end.is_confirmed(
                    #[trigger] self.work[i],
                ) by {
                    if i == self.cursor {
                        assert(moved.is_confirmed(cur));
                        assert(end.is_confirmed(cur));
                    }
                }
                assert forall|c: PixelCoordinate|
                    self.grid.contains(c) && self.is_confirmed(c) implies #[trigger] end
                        .is_confirmed(c) by {
                    assert(marked.is_confirmed(c) == self.is_confirmed(c));
                    assert(moved.is_confirmed(c));
                }
                assert forall|c: PixelCoordinate|
                    self.grid.contains(c) && #[trigger] end.is_confirmed(c) implies self
                        .is_confirmed(c) || self.skippable(c) by {
                    assert(moved.is_confirmed(c) || moved.skippable(c));
                    if c != cur {
                        assert(marked.is_confirmed(c) == self.is_confirmed(c));
                    }
                }
            }
        }
    }

    /// Advancing leads to a sound state that is receiving or finished.
    pub proof fn lemma_advance(self)
        requires
            self.inv(),
        ensures
            self.advance().wf(),
            self.advance().phase == Phase::Receiving || self.advance().phase == Phase::Finished,
            self.advance().grid == self.grid,
            self.advance().canvas == self.canvas,
            self.advance().packets_sent == self.packets_sent,
            self.advance().pixels_confirmed >= self.pixels_confirmed,
            forall|c: PixelCoordinate|
                self.grid.contains(c) && self.is_confirmed(c) ==> #[trigger] self.advance()
                    .is_confirmed(c),
            forall|c: PixelCoordinate|
                self.grid.contains(c) && #[trigger] self.advance().is_confirmed(c)
                    ==> self.is_confirmed(c) || self.skippable(c),
            forall|c: PixelCoordinate| #[trigger]
                self.advance().work.contains(c) ==> self.work.contains(c),
            forall|c: PixelCoordinate|
                self.work.contains(c) && !self.advance().work.contains(c) ==> #[trigger] self
                    .advance().is_confirmed(c),
    {
        self.lemma_settle();
        let rest = self.settle();
        let end = self.advance();
        assert forall|c: PixelCoordinate| self.work.contains(c) implies self.grid.contains(c) by {
            let i = choose|i: int| 0 <= i < self.work.len() && self.work[i] == c;
            assert(self.grid.contains(self.work[i]));
        }
        if rest.cursor < rest.work.len() {
            assert forall|c: PixelCoordinate|
                self.grid.contains(c) && self.is_confirmed(c) implies #[trigger] end.is_confirmed(
                c,
            ) by {
                assert(rest.is_confirmed(c));
            }
            assert forall|c: PixelCoordinate|
                self.grid.contains(c) && #[trigger] end.is_confirmed(c) implies self.is_confirmed(
                c,
            ) || self.skippable(c) by {
                assert(rest.is_confirmed(c));
            }
        } else {
            rest.lemma_next_pass();
            let fresh = rest.next_pass();
            fresh.lemma_settle();
            let again = fresh.settle();
            assert forall|c: PixelCoordinate|
                self.grid.contains(c) && #[trigger] end.is_confirmed(c) implies self.is_confirmed(
                c,
            ) || self.skippable(c) by {
                assert(again.is_confirmed(c));
                assert(fresh.is_confirmed(c) || fresh.skippable(c));
                if fresh.is_confirmed(c) {
                    assert(rest.is_confirmed(c));
                }
            }
            assert forall|c: PixelCoordinate|
                self.grid.contains(c) && self.is_confirmed(c) implies #[trigger] end.is_confirmed(
                c,
            ) by {
                assert(rest.is_confirmed(c));
                assert(fresh.is_confirmed(c));
                assert(again.is_confirmed(c));
            }
            assert forall|c: PixelCoordinate|
                self.work.contains(c) && !fresh.work.contains(c) implies again.is_confirmed(c) by {
                assert(rest.is_confirmed(c));
                assert(fresh.is_confirmed(c));
            }
            if again.cursor >= again.work.len() {
                again.lemma_next_pass();
                let last = again.next_pass();
                if last.work.len() > 0 {
                    let c = last.work[0];
                    assert(last.work.contains(c));
                    assert(again.work.contains(c) && !again.is_confirmed(c));
                    let i = choose|i: int| 0 <= i < again.work.len() && again.work[i] == c;
                    assert(again.is_confirmed(fresh.work[i]));
                }
                assert forall|c: PixelCoordinate|
                    self.work.contains(c) && !end.work.contains(c) implies #[trigger] end
                        .is_confirmed(c) by {
                    if fresh.work.contains(c) {
                        assert(again.work.contains(c));
                        assert(again.is_confirmed(c));
                    } else {
                        assert(again.is_confirmed(c));
                    }
                    assert(last.is_confirmed(c) == again.is_confirmed(c));
                }
            } else {
                assert forall|c: PixelCoordinate|
                    self.work.contains(c) && !end.work.contains(c) implies #[trigger] end
                        .is_confirmed(c) by {
                    assert(!fresh.work.contains(c));
                    assert(again.is_confirmed(c));
                }
            }
        }
    }

    /// Every step leads from a sound state to a sound state.
    pub proof fn lemma_step_keeps_wf(self, event: Event)
        requires
            self.wf(),
        ensures
            self.step(event).wf(),
            self.step(event).grid == self.grid,
            self.step(event).canvas == self.canvas,
    {
        match self.phase {
            Phase::Idle => {
                self.lemma_advance();
            },
            Phase::Receiving => {
                match event {
                    Event::Received(datagram) => {
                        if confirms(self.grid, datagram@) {
                            self.lemma_confirm(target_of(datagram@));
                        }
                    },
                    Event::WouldBlock => {
                        if self.is_confirmed(self.current()) {
                            self.skip().lemma_advance();
                        }
                    },
                    _ => {},
                }
            },
            Phase::Answering => {},
            Phase::Requesting => {
                self.skip().lemma_advance();
                self.count_packet().skip().lemma_advance();
            },
            Phase::PausedBeforeReceive => {},
            Phase::PausedBeforeNext => {
                self.skip().lemma_advance();
            },
            Phase::Finished => {},
            Phase::Aborted => {},
        }
    }

    /// The first state is sound, and its work set holds exactly the pixels of
    /// the image that are not fully transparent.
    pub proof fn lemma_initial(grid: PixelGrid, canvas: Canvas)
        requires
            grid.wf(),
        ensures
            Self::initial(grid, canvas).wf(),
            forall|c: PixelCoordinate| #[trigger]
                Self::initial(grid, canvas).work.contains(c) <==> grid.contains(c)
                    && !grid.is_transparent(c),
            forall|c: PixelCoordinate|
                grid.contains(c) ==> (#[trigger] Self::initial(grid, canvas).is_confirmed(c)
                    <==> grid.is_transparent(c)),
    {
        let first = Self::initial(grid, canvas);
        let all = all_coordinates(grid);
        let keep = is_opaque(grid);
        lemma_all_coordinates(grid);
        lemma_filter_no_duplicates(all, keep);
        assert forall|c: PixelCoordinate| #[trigger]
            first.work.contains(c) <==> grid.contains(c) && !grid.is_transparent(c) by {
            if first.work.contains(c) {
                all.lemma_filter_contains_rev(keep, c);
                assert(all.contains(c));
                let i = choose|i: int| 0 <= i < first.work.len() && first.work[i] == c;
                all.lemma_filter_pred(keep, i);
            }
            if grid.contains(c) && !grid.is_transparent(c) {
                assert(all.contains(c));
                let j = choose|j: int| 0 <= j < all.len() && all[j] == c;
                all.lemma_filter_contains(keep, j);
            }
        }
        assert forall|c: PixelCoordinate| grid.contains(c) implies (#[trigger] first.is_confirmed(
            c,
        ) <==> grid.is_transparent(c)) by {
            lemma_coordinate_of_index(grid, c);
        }
        assert forall|i: int| 0 <= i < first.work.len() implies grid.contains(
            #[trigger] first.work[i],
        ) by {
            assert(first.work.contains(first.work[i]));
        }
        assert forall|c: PixelCoordinate|
            first.grid.contains(c) && !first.is_confirmed(c) implies #[trigger] first.work.contains(
            c,
        ) by {
            assert(first.is_confirmed(c) <==> grid.is_transparent(c));
        }
    }
}

} // verus!
