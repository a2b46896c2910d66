//! What holds of the engine whatever the network does.

use crate::challenge::challenge_prefix;
use crate::challenge::confirms;
use crate::challenge::is_challenge;
use crate::grid::lemma_area_bound;
use crate::machine::coordinate_at;
use crate::machine::lemma_count_true_bound;
use crate::machine::lemma_count_true_full;
use crate::machine::lemma_index_of_coordinate;
use crate::machine::Action;
use crate::machine::EngineState;
use crate::machine::Event;
use crate::machine::Phase;
use crate::wire::lemma_request_names_target;
use crate::wire::target_of;
use crate::wire::PixelCoordinate;
use crate::wire::CHALLENGE_LEN;
use crate::wire::NONCE_LEN;
use crate::wire::RESPONSE_LEN;
use vstd::prelude::*;

verus! {

/// The engine has stopped for good.
pub open spec fn stopped(s: EngineState) -> bool {
    s.phase == Phase::Finished || s.phase == Phase::Aborted
}

/// A step never takes a confirmation back, never lowers a counter, and never
/// adds to the work set; what leaves the work set is confirmed.
pub proof fn lemma_progress_is_kept(s: EngineState, event: Event)
    requires
        s.wf(),
    ensures
        s.step(event).wf(),
        s.step(event).pixels_confirmed >= s.pixels_confirmed,
        s.step(event).packets_sent >= s.packets_sent,
        forall|c: PixelCoordinate|
            s.grid.contains(c) && s.is_confirmed(c) ==> #[trigger] s.step(event).is_confirmed(c),
        forall|c: PixelCoordinate| #[trigger] s.step(event).work.contains(c) ==> s.work.contains(c),
        forall|c: PixelCoordinate|
            s.work.contains(c) && !s.step(event).work.contains(c) ==> #[trigger] s.step(
                event,
            ).is_confirmed(c),
{
    s.lemma_step_keeps_wf(event);
    let t = s.step(event);
    match s.phase {
        Phase::Idle => {
            s.lemma_advance();
        },
        Phase::Receiving => {
            match event {
                Event::Received(datagram) => {
                    if confirms(s.grid, datagram@) {
                        let c = target_of(datagram@);
                        s.lemma_confirm(c);
                        assert forall|o: PixelCoordinate|
                            s.grid.contains(o) && s.is_confirmed(o) implies #[trigger] t
                                .is_confirmed(o) by {
                            if o != c {
                                assert(t.is_confirmed(o) == s.is_confirmed(o));
                            }
                        }
                    }
                },
                Event::WouldBlock => {
                    if s.is_confirmed(s.current()) {
                        s.skip().lemma_advance();
                        assert forall|c: PixelCoordinate|
                            s.grid.contains(c) && s.is_confirmed(c) implies #[trigger] t
                                .is_confirmed(c) by {
                            assert(s.skip().is_confirmed(c));
                        }
                    }
                },
                _ => {},
            }
        },
        Phase::Answering => {},
        Phase::Requesting => {
            let moved = match event {
                Event::Sent(_) => s.count_packet().skip(),
                _ => s.skip(),
            };
            moved.lemma_advance();
            assert forall|c: PixelCoordinate|
                s.grid.contains(c) && s.is_confirmed(c) implies #[trigger] t.is_confirmed(c) by {
                assert(moved.is_confirmed(c));
            }
        },
        Phase::PausedBeforeReceive => {},
        Phase::PausedBeforeNext => {
            s.skip().lemma_advance();
            assert forall|c: PixelCoordinate|
                s.grid.contains(c) && s.is_confirmed(c) implies #[trigger] t.is_confirmed(c) by {
                assert(s.skip().is_confirmed(c));
            }
        },
        Phase::Finished => {},
        Phase::Aborted => {},
    }
}

/// A pixel is confirmed for one of two reasons only: it needs no request,
/// lying off the canvas or being fully transparent, or a challenge that
/// settles it arrived while the engine was receiving. Sending confirms
/// nothing.
pub proof fn lemma_confirmation_has_a_cause(s: EngineState, event: Event, c: PixelCoordinate)
    requires
        s.wf(),
        s.grid.contains(c),
        !s.is_confirmed(c),
        s.step(event).is_confirmed(c),
    ensures
        s.skippable(c) || (s.phase == Phase::Receiving && (event matches Event::Received(datagram)
            && confirms(s.grid, datagram@) && target_of(datagram@) == c)),
{
    match s.phase {
        Phase::Idle => {
            s.lemma_advance();
        },
        Phase::Receiving => {
            match event {
                Event::Received(datagram) => {
                    if confirms(s.grid, datagram@) {
                        s.lemma_confirm(target_of(datagram@));
                    }
                },
                Event::WouldBlock => {
                    if s.is_confirmed(s.current()) {
                        s.skip().lemma_advance();
                        assert(s.skip().is_confirmed(c) || s.skip().skippable(c));
                    }
                },
                _ => {},
            }
        },
        Phase::Answering => {},
        Phase::Requesting => {
            let moved = match event {
                Event::Sent(_) => s.count_packet().skip(),
                _ => s.skip(),
            };
            moved.lemma_advance();
            assert(s.step(event).is_confirmed(c) ==> moved.is_confirmed(c) || moved.skippable(c));
        },
        Phase::PausedBeforeReceive => {},
        Phase::PausedBeforeNext => {
            s.skip().lemma_advance();
            assert(s.step(event).is_confirmed(c) ==> s.skip().is_confirmed(c) || s.skip().skippable(
                c,
            ));
        },
        Phase::Finished => {},
        Phase::Aborted => {},
    }
}

/// The counter of confirmed pixels never passes the number of pixels.
pub proof fn lemma_confirmed_count_is_bounded(s: EngineState)
    requires
        s.wf(),
    ensures
        s.pixels_confirmed <= s.grid.area() <= 0x1_0000_0000,
{
    lemma_count_true_bound(s.confirmed);
    lemma_area_bound(s.grid);
}

/// The engine finishes only when nothing is left: the work set is empty,
/// every pixel of the image is confirmed, and the counter of confirmed pixels
/// stands at the number of pixels.
pub proof fn lemma_finished_means_all_confirmed(s: EngineState)
    requires
        s.wf(),
        s.phase == Phase::Finished,
    ensures
        s.work.len() == 0,
        forall|c: PixelCoordinate| s.grid.contains(c) ==> #[trigger] s.is_confirmed(c),
        s.pixels_confirmed == s.grid.area(),
{
    assert forall|c: PixelCoordinate| s.grid.contains(c) implies #[trigger] s.is_confirmed(c) by {
        if !s.is_confirmed(c) {
            assert(s.work.contains(c));
        }
    }
    assert forall|i: int| 0 <= i < s.confirmed.len() implies #[trigger] s.confirmed[i] by {
        lemma_index_of_coordinate(s.grid, i);
        let c = coordinate_at(s.grid.spec_width(), i);
        assert(s.is_confirmed(c));
    }
    lemma_count_true_full(s.confirmed);
}

/// Once stopped, the engine stays as it is.
pub proof fn lemma_stopped_stays_stopped(s: EngineState, event: Event)
    requires
        stopped(s),
    ensures
        s.step(event) == s,
{
}

/// A pixel request is only ever made for the pixel the pass stands at, and
/// that pixel lies in the image and on the canvas, is not fully transparent,
/// belongs to the work set and is not confirmed.
pub proof fn lemma_requests_are_for_pending_pixels(
    s: EngineState,
    event: Event,
    request: Vec<u8>,
)
    requires
        s.wf(),
        s.issues(event, Action::SendRequest(request)),
    ensures
        target_of(request@) == s.current(),
        s.work.contains(s.current()),
        s.grid.contains(s.current()),
        s.canvas.contains(s.current()),
        !s.grid.is_transparent(s.current()),
        !s.is_confirmed(s.current()),
{
    let c = s.current();
    lemma_request_names_target(c);
    assert(s.work[s.cursor as int] == c);
    assert(s.grid.contains(s.work[s.cursor as int]));
}

/// A datagram shorter than a challenge changes nothing and is not answered:
/// the engine goes on receiving.
pub proof fn lemma_short_datagram_is_dropped(s: EngineState, datagram: Vec<u8>)
    requires
        s.phase == Phase::Receiving,
        !is_challenge(datagram@),
    ensures
        s.step(Event::Received(datagram)) == s,
{
}

/// A challenge that already shows the wanted colour confirms its pixel and
/// is not answered: the engine goes on receiving, and the counter of sent
/// datagrams stands still.
pub proof fn lemma_matching_challenge_confirms_without_sending(s: EngineState, datagram: Vec<u8>)
    requires
        s.wf(),
        s.phase == Phase::Receiving,
        confirms(s.grid, datagram@),
    ensures
        s.step(Event::Received(datagram)).is_confirmed(target_of(datagram@)),
        s.step(Event::Received(datagram)).phase == Phase::Receiving,
        s.step(Event::Received(datagram)).packets_sent == s.packets_sent,
        s.step(Event::Received(datagram)).work == s.work,
{
    s.lemma_confirm(target_of(datagram@));
}

/// Delivering a confirming challenge a second time changes nothing: the pixel
/// is counted once, and again nothing is sent.
pub proof fn lemma_confirming_twice_is_confirming_once(s: EngineState, datagram: Vec<u8>)
    requires
        s.wf(),
        s.phase == Phase::Receiving,
        confirms(s.grid, datagram@),
    ensures
        s.step(Event::Received(datagram)).step(Event::Received(datagram)) == s.step(
            Event::Received(datagram),
        ),
{
    s.lemma_confirm(target_of(datagram@));
}

/// A challenge for a pixel that is already confirmed, delivered while the
/// engine receives, leaves that pixel confirmed and every counter of
/// confirmed pixels as it was.
pub proof fn lemma_confirmed_pixel_is_not_counted_again(s: EngineState, datagram: Vec<u8>)
    requires
        s.wf(),
        s.phase == Phase::Receiving,
        confirms(s.grid, datagram@),
        s.is_confirmed(target_of(datagram@)),
    ensures
        s.step(Event::Received(datagram)) == s,
{
}

/// A challenge response is only ever made for a datagram that is a whole
/// challenge for a pixel of the image whose colour the server does not show
/// yet; it is 43 bytes long, begins with the challenge and ends with the
/// colour to write.
pub proof fn lemma_responses_answer_challenges(s: EngineState, event: Event, response: Vec<u8>)
    requires
        s.issues(event, Action::SendResponse(response)),
    ensures
        event matches Event::Received(datagram) && is_challenge(datagram@) && s.grid.contains(
            target_of(datagram@),
        ) && !confirms(s.grid, datagram@) && response@.len() == RESPONSE_LEN && response@.take(
            CHALLENGE_LEN as int,
        ) == challenge_prefix(datagram@) && response@.subrange(40, 43) == seq![
            s.grid.color_at(target_of(datagram@)).r,
            s.grid.color_at(target_of(datagram@)).g,
            s.grid.color_at(target_of(datagram@)).b,
        ],
{
    match event {
        Event::Received(datagram) => {
            let color = s.grid.color_at(target_of(datagram@));
            let nonce = response@.subrange(CHALLENGE_LEN as int, CHALLENGE_LEN + NONCE_LEN);
            assert(response@ == challenge_prefix(datagram@) + nonce + seq![
                color.r,
                color.g,
                color.b,
            ]);
            assert(response@.take(CHALLENGE_LEN as int) =~= challenge_prefix(datagram@));
            assert(response@.subrange(40, 43) =~= seq![color.r, color.g, color.b]);
        },
        _ => {},
    }
}

/// Sending confirms nothing: while a response is under way, no event
/// changes which pixels are confirmed or what the work set holds.
pub proof fn lemma_sending_confirms_nothing(s: EngineState, event: Event)
    requires
        s.phase == Phase::Answering,
    ensures
        s.step(event).confirmed == s.confirmed,
        s.step(event).pixels_confirmed == s.pixels_confirmed,
        s.step(event).work == s.work,
        s.step(event).cursor == s.cursor,
{
}

} // verus!
