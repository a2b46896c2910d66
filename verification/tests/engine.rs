use max_image_sender::engine::Engine;
use max_image_sender::grid::PixelGrid;
use max_image_sender::machine::Action;
use max_image_sender::machine::Canvas;
use max_image_sender::machine::Event;
use max_image_sender::machine::Phase;
use max_image_sender::machine::BACKOFF_MILLIS;
use max_image_sender::machine::CANVAS_HEIGHT;
use max_image_sender::machine::CANVAS_WIDTH;
use max_image_sender::pow::check_nonce;
use max_image_sender::wire::PixelCoordinate;
use sha2::Digest;
use sha2::Sha256;
use std::collections::VecDeque;

fn at(x: u16, y: u16) -> PixelCoordinate {
    PixelCoordinate { x, y }
}

fn canvas() -> Canvas {
    Canvas { width: CANVAS_WIDTH, height: CANVAS_HEIGHT }
}

/// Red and opaque at (0, 0), fully transparent at (1, 0).
fn two_pixels() -> Engine {
    let grid = PixelGrid::new(2, 1, vec![255, 0, 0, 255, 0, 0, 0, 0]).expect("a grid");
    Engine::new(grid, canvas())
}

fn challenge(x: u16, y: u16, observed: [u8; 3], difficulty: u8) -> Vec<u8> {
    let mut bytes = Vec::new();
    bytes.extend_from_slice(&x.to_le_bytes());
    bytes.extend_from_slice(&y.to_le_bytes());
    bytes.extend_from_slice(&observed);
    bytes.push(difficulty);
    bytes.extend_from_slice(&[7u8; 16]);
    bytes
}

fn low_bits_of_digest_are_zero(prefix: &[u8], nonce: &[u8], bits: u32) -> bool {
    let mut hasher = Sha256::new();
    hasher.update(prefix);
    hasher.update(nonce);
    let mut hash = hasher.finalize().to_vec();
    hash.reverse();
    let mut num = 0u128;
    for byte in &hash {
        num = (num << 8) | u128::from(*byte);
    }
    num & ((1u128 << bits) - 1) == 0
}

#[test]
fn the_canvas_of_the_protocol_is_384_by_256() {
    assert_eq!(BACKOFF_MILLIS, 1);
    assert_eq!(CANVAS_WIDTH, 384);
    assert_eq!(CANVAS_HEIGHT, 256);
    assert!(canvas().has_pixel(at(383, 255)));
    assert!(!canvas().has_pixel(at(384, 0)));
    assert!(!canvas().has_pixel(at(0, 256)));
}

#[test]
fn the_work_set_starts_with_the_pixels_that_are_not_transparent() {
    let engine = two_pixels();
    assert_eq!(engine.pending(), vec![at(0, 0)]);
    assert_eq!(engine.phase(), Phase::Idle);
    assert!(!engine.is_confirmed(at(0, 0)));
    assert!(engine.is_confirmed(at(1, 0)));
    assert!(!engine.is_confirmed(at(2, 0)));
    assert_eq!(engine.total_pixels(), 2);
    assert_eq!(engine.pixels_confirmed(), 1);
    assert_eq!(engine.packets_sent(), 0);
}

#[test]
fn a_transparent_pixel_is_never_requested() {
    let mut engine = two_pixels();
    let mut action = engine.step(Event::Started);
    let mut requests = 0;
    for _ in 0..40 {
        let event = match action {
            Action::Receive => Event::WouldBlock,
            Action::SendRequest(bytes) => {
                assert_eq!(bytes, vec![0, 0, 0, 0]);
                requests += 1;
                Event::Sent(4)
            }
            other => panic!("unexpected {:?}", other),
        };
        action = engine.step(event);
    }
    assert_eq!(requests, 20);
    assert_eq!(engine.packets_sent(), 20);
    assert_eq!(engine.pending(), vec![at(0, 0)]);
}

#[test]
fn a_matching_challenge_confirms_without_a_response() {
    let mut engine = two_pixels();
    assert_eq!(engine.step(Event::Started), Action::Receive);
    assert_eq!(engine.step(Event::WouldBlock), Action::SendRequest(vec![0, 0, 0, 0]));
    assert_eq!(engine.step(Event::Sent(4)), Action::Receive);
    assert_eq!(engine.packets_sent(), 1);
    let echo = challenge(0, 0, [255, 0, 0], 8);
    assert_eq!(engine.step(Event::Received(echo)), Action::Receive);
    assert!(engine.is_confirmed(at(0, 0)));
    assert_eq!(engine.pixels_confirmed(), 2);
    assert_eq!(engine.step(Event::WouldBlock), Action::Finish);
    assert!(engine.is_finished());
    assert_eq!(engine.pending(), vec![]);
    assert_eq!(engine.packets_sent(), 1);
    assert_eq!(engine.pixels_confirmed(), engine.total_pixels());
}

#[test]
fn a_mismatch_at_difficulty_8_is_answered_once() {
    let mut engine = two_pixels();
    assert_eq!(engine.step(Event::Started), Action::Receive);
    let datagram = challenge(0, 0, [0, 0, 255], 8);
    let response = match engine.step(Event::Received(datagram.clone())) {
        Action::SendResponse(bytes) => bytes,
        other => panic!("expected a response, got {:?}", other),
    };
    assert_eq!(response.len(), 43);
    assert_eq!(&response[..24], &datagram[..]);
    assert_eq!(&response[40..], &[255, 0, 0]);
    assert!(low_bits_of_digest_are_zero(&datagram, &response[24..40], 8));
    assert!(check_nonce(&datagram, &response[24..40], 8));
    assert_eq!(engine.phase(), Phase::Answering);
    assert_eq!(engine.packets_sent(), 0);

    assert_eq!(engine.step(Event::Sent(43)), Action::Receive);
    assert_eq!(engine.packets_sent(), 1);
    assert!(!engine.is_confirmed(at(0, 0)));
    assert_eq!(engine.pixels_confirmed(), 1);
    assert_eq!(engine.step(Event::WouldBlock), Action::SendRequest(vec![0, 0, 0, 0]));
    assert_eq!(engine.step(Event::Sent(4)), Action::Receive);
    assert_eq!(engine.packets_sent(), 2);
    assert_eq!(engine.pending(), vec![at(0, 0)]);
}

#[test]
fn the_same_confirming_challenge_twice_is_counted_once() {
    let mut engine = two_pixels();
    assert_eq!(engine.step(Event::Started), Action::Receive);
    let echo = challenge(0, 0, [255, 0, 0], 3);
    assert_eq!(engine.step(Event::Received(echo.clone())), Action::Receive);
    assert_eq!(engine.pixels_confirmed(), 2);
    assert_eq!(engine.step(Event::Received(echo.clone())), Action::Receive);
    assert_eq!(engine.pixels_confirmed(), 2);
    assert_eq!(engine.packets_sent(), 0);
    assert_eq!(engine.phase(), Phase::Receiving);
    assert_eq!(engine.step(Event::WouldBlock), Action::Finish);
    assert_eq!(engine.step(Event::Received(echo)), Action::Finish);
    assert_eq!(engine.pixels_confirmed(), 2);
    assert_eq!(engine.packets_sent(), 0);
}

#[test]
fn a_short_datagram_is_dropped() {
    let mut engine = two_pixels();
    assert_eq!(engine.step(Event::Started), Action::Receive);
    assert_eq!(engine.step(Event::Received(vec![0u8; 10])), Action::Receive);
    assert_eq!(engine.step(Event::Received(vec![])), Action::Receive);
    assert_eq!(engine.step(Event::Received(vec![0u8; 23])), Action::Receive);
    assert_eq!(engine.phase(), Phase::Receiving);
    assert_eq!(engine.packets_sent(), 0);
    assert_eq!(engine.pixels_confirmed(), 1);
    assert_eq!(engine.pending(), vec![at(0, 0)]);
}

#[test]
fn a_challenge_for_a_pixel_outside_the_image_is_dropped() {
    let mut engine = two_pixels();
    assert_eq!(engine.step(Event::Started), Action::Receive);
    assert_eq!(engine.step(Event::Received(challenge(5, 5, [255, 0, 0], 0))), Action::Receive);
    assert_eq!(engine.step(Event::Received(challenge(2, 0, [0, 0, 0], 0))), Action::Receive);
    assert_eq!(engine.packets_sent(), 0);
    assert_eq!(engine.pixels_confirmed(), 1);
}

#[test]
fn a_short_send_is_fatal() {
    let mut engine = two_pixels();
    assert_eq!(engine.step(Event::Started), Action::Receive);
    assert_eq!(engine.step(Event::WouldBlock), Action::SendRequest(vec![0, 0, 0, 0]));
    assert_eq!(engine.step(Event::Sent(3)), Action::Abort);
    assert_eq!(engine.phase(), Phase::Aborted);
    assert_eq!(engine.step(Event::Sent(4)), Action::Abort);
    assert_eq!(engine.step(Event::Started), Action::Abort);
    assert_eq!(engine.packets_sent(), 0);

    let mut engine = two_pixels();
    assert_eq!(engine.step(Event::Started), Action::Receive);
    match engine.step(Event::Received(challenge(0, 0, [1, 2, 3], 0))) {
        Action::SendResponse(bytes) => assert_eq!(bytes.len(), 43),
        other => panic!("expected a response, got {:?}", other),
    }
    assert_eq!(engine.step(Event::Sent(42)), Action::Abort);
    assert_eq!(engine.phase(), Phase::Aborted);
}

#[test]
fn a_blocked_or_busy_send_pauses() {
    let mut engine = two_pixels();
    assert_eq!(engine.step(Event::Started), Action::Receive);
    assert_eq!(engine.step(Event::WouldBlock), Action::SendRequest(vec![0, 0, 0, 0]));
    assert_eq!(engine.step(Event::WouldBlock), Action::Pause);
    assert_eq!(engine.phase(), Phase::PausedBeforeNext);
    assert_eq!(engine.step(Event::Resumed), Action::Receive);
    assert_eq!(engine.step(Event::WouldBlock), Action::SendRequest(vec![0, 0, 0, 0]));
    assert_eq!(engine.step(Event::Busy), Action::Pause);
    assert_eq!(engine.step(Event::Resumed), Action::Receive);
    assert_eq!(engine.packets_sent(), 0);

    match engine.step(Event::Received(challenge(0, 0, [1, 2, 3], 1))) {
        Action::SendResponse(bytes) => assert_eq!(bytes.len(), 43),
        other => panic!("expected a response, got {:?}", other),
    }
    assert_eq!(engine.step(Event::WouldBlock), Action::Pause);
    assert_eq!(engine.phase(), Phase::PausedBeforeReceive);
    assert_eq!(engine.step(Event::Resumed), Action::Receive);
    assert_eq!(engine.packets_sent(), 0);
}

#[test]
fn other_transport_errors_do_not_stop_the_engine() {
    let mut engine = two_pixels();
    assert_eq!(engine.step(Event::Started), Action::Receive);
    assert_eq!(engine.step(Event::Failed), Action::Receive);
    assert_eq!(engine.step(Event::Busy), Action::Pause);
    assert_eq!(engine.step(Event::Resumed), Action::Receive);
    assert_eq!(engine.step(Event::WouldBlock), Action::SendRequest(vec![0, 0, 0, 0]));
    assert_eq!(engine.step(Event::Failed), Action::Receive);
    match engine.step(Event::Received(challenge(0, 0, [1, 2, 3], 2))) {
        Action::SendResponse(bytes) => assert_eq!(bytes.len(), 43),
        other => panic!("expected a response, got {:?}", other),
    }
    assert_eq!(engine.step(Event::Failed), Action::Receive);
    assert_eq!(engine.packets_sent(), 0);
    assert_eq!(engine.pending(), vec![at(0, 0)]);
}

#[test]
fn an_event_that_answers_nothing_is_fatal() {
    let mut engine = two_pixels();
    assert_eq!(engine.step(Event::Resumed), Action::Abort);

    let mut engine = two_pixels();
    assert_eq!(engine.step(Event::Started), Action::Receive);
    assert_eq!(engine.step(Event::Sent(4)), Action::Abort);

    let mut engine = two_pixels();
    assert_eq!(engine.step(Event::Started), Action::Receive);
    assert_eq!(engine.step(Event::WouldBlock), Action::SendRequest(vec![0, 0, 0, 0]));
    assert_eq!(engine.step(Event::Received(vec![0u8; 24])), Action::Abort);
}

#[test]
fn an_image_without_opaque_pixels_finishes_at_once() {
    let grid = PixelGrid::new(2, 2, vec![0u8; 16]).expect("a grid");
    let mut engine = Engine::new(grid, canvas());
    assert_eq!(engine.pending(), vec![]);
    assert_eq!(engine.pixels_confirmed(), 4);
    assert_eq!(engine.step(Event::Started), Action::Finish);
    assert!(engine.is_finished());

    let grid = PixelGrid::new(0, 0, vec![]).expect("a grid");
    let mut engine = Engine::new(grid, canvas());
    assert_eq!(engine.total_pixels(), 0);
    assert_eq!(engine.step(Event::Started), Action::Finish);
}

#[test]
fn pixels_off_the_canvas_are_confirmed_without_a_request() {
    let grid = PixelGrid::new(3, 2, vec![200u8; 24]).expect("a grid");
    let mut engine = Engine::new(grid, Canvas { width: 2, height: 1 });
    assert_eq!(
        engine.pending(),
        vec![at(0, 0), at(1, 0), at(2, 0), at(0, 1), at(1, 1), at(2, 1)]
    );
    assert_eq!(engine.pixels_confirmed(), 0);
    let mut action = engine.step(Event::Started);
    let mut requested = Vec::new();
    for _ in 0..12 {
        let event = match action {
            Action::Receive => Event::WouldBlock,
            Action::SendRequest(bytes) => {
                requested.push(bytes);
                Event::Sent(4)
            }
            other => panic!("unexpected {:?}", other),
        };
        action = engine.step(event);
    }
    assert_eq!(
        requested,
        vec![
            vec![0, 0, 0, 0],
            vec![1, 0, 0, 0],
            vec![0, 0, 0, 0],
            vec![1, 0, 0, 0],
            vec![0, 0, 0, 0],
            vec![1, 0, 0, 0]
        ]
    );
    assert_eq!(engine.pending(), vec![at(0, 0), at(1, 0)]);
    assert_eq!(engine.pixels_confirmed(), 4);
    assert!(engine.is_confirmed(at(2, 0)));
    assert!(engine.is_confirmed(at(1, 1)));
    assert!(!engine.is_confirmed(at(1, 0)));
}

/// A server that keeps a canvas, challenges every request at a fixed
/// difficulty, checks every response and paints what it accepts.
struct Server {
    width: u16,
    shown: Vec<[u8; 3]>,
    difficulty: u8,
    queue: VecDeque<Vec<u8>>,
    entropy: u8,
    painted: usize,
}

impl Server {
    fn new(width: u16, height: u16, difficulty: u8) -> Server {
        Server {
            width,
            shown: vec![[0, 0, 0]; usize::from(width) * usize::from(height)],
            difficulty,
            queue: VecDeque::new(),
            entropy: 0,
            painted: 0,
        }
    }

    fn index(&self, x: u16, y: u16) -> usize {
        usize::from(y) * usize::from(self.width) + usize::from(x)
    }

    fn request(&mut self, bytes: &[u8]) {
        assert_eq!(bytes.len(), 4);
        let x = u16::from_le_bytes([bytes[0], bytes[1]]);
        let y = u16::from_le_bytes([bytes[2], bytes[3]]);
        let mut datagram = Vec::new();
        datagram.extend_from_slice(&bytes[..4]);
        datagram.extend_from_slice(&self.shown[self.index(x, y)]);
        datagram.push(self.difficulty);
        self.entropy = self.entropy.wrapping_add(1);
        datagram.extend_from_slice(&[self.entropy; 16]);
        self.queue.push_back(datagram);
    }

    fn respond(&mut self, bytes: &[u8]) {
        assert_eq!(bytes.len(), 43);
        assert!(low_bits_of_digest_are_zero(&bytes[..24], &bytes[24..40], u32::from(self.difficulty)));
        let x = u16::from_le_bytes([bytes[0], bytes[1]]);
        let y = u16::from_le_bytes([bytes[2], bytes[3]]);
        let at = self.index(x, y);
        self.shown[at] = [bytes[40], bytes[41], bytes[42]];
        self.painted += 1;
    }
}

#[test]
fn the_whole_image_arrives_on_the_canvas() {
    let (width, height) = (4u16, 3u16);
    let mut samples = Vec::new();
    for i in 0..(width * height) {
        let shade = (i as u8) * 10 + 1;
        let alpha = if i % 5 == 4 { 0 } else { 255 };
        samples.extend_from_slice(&[shade, shade + 1, shade + 2, alpha]);
    }
    let grid = PixelGrid::new(u32::from(width), u32::from(height), samples.clone()).expect("a grid");
    let mut engine = Engine::new(grid, canvas());
    let mut server = Server::new(width, height, 5);
    let mut action = engine.step(Event::Started);
    let mut steps = 0;
    loop {
        steps += 1;
        assert!(steps < 10_000, "the engine does not finish");
        let event = match action {
            Action::Receive => match server.queue.pop_front() {
                Some(datagram) => Event::Received(datagram),
                None => Event::WouldBlock,
            },
            Action::SendRequest(bytes) => {
                server.request(&bytes);
                Event::Sent(bytes.len())
            }
            Action::SendResponse(bytes) => {
                server.respond(&bytes);
                Event::Sent(bytes.len())
            }
            Action::Pause => Event::Resumed,
            Action::Finish => break,
            Action::Abort => panic!("the engine gave up"),
        };
        action = engine.step(event);
    }
    assert!(engine.is_finished());
    assert_eq!(engine.pending(), vec![]);
    assert_eq!(engine.pixels_confirmed(), 12);
    for i in 0..usize::from(width * height) {
        if samples[4 * i + 3] == 0 {
            assert_eq!(server.shown[i], [0, 0, 0], "pixel {}", i);
        } else {
            assert_eq!(server.shown[i], [samples[4 * i], samples[4 * i + 1], samples[4 * i + 2]]);
        }
    }
    assert_eq!(server.painted, 10);
}

#[test]
fn lost_datagrams_are_made_up_for() {
    let grid = PixelGrid::new(3, 1, vec![1, 2, 3, 255, 4, 5, 6, 255, 7, 8, 9, 255]).expect("a grid");
    let mut engine = Engine::new(grid, canvas());
    let mut server = Server::new(3, 1, 3);
    let mut action = engine.step(Event::Started);
    let mut sends = 0u32;
    let mut steps = 0;
    loop {
        steps += 1;
        assert!(steps < 10_000, "the engine does not finish");
        let event = match action {
            Action::Receive => match server.queue.pop_front() {
                Some(datagram) => Event::Received(datagram),
                None => Event::WouldBlock,
            },
            Action::SendRequest(bytes) => {
                sends += 1;
                if sends % 3 != 0 {
                    server.request(&bytes);
                }
                Event::Sent(bytes.len())
            }
            Action::SendResponse(bytes) => {
                sends += 1;
                if sends % 3 != 0 {
                    server.respond(&bytes);
                }
                Event::Sent(bytes.len())
            }
            Action::Pause => Event::Resumed,
            Action::Finish => break,
            Action::Abort => panic!("the engine gave up"),
        };
        action = engine.step(event);
    }
    assert_eq!(server.shown, vec![[1, 2, 3], [4, 5, 6], [7, 8, 9]]);
    assert_eq!(engine.pixels_confirmed(), 3);
    assert_eq!(engine.packets_sent(), u64::from(sends));
}
