use max_image_sender::wire::decode_target;
use max_image_sender::wire::encode_request;
use max_image_sender::wire::PixelCoordinate;
use max_image_sender::wire::CHALLENGE_LEN;
use max_image_sender::wire::NONCE_LEN;
use max_image_sender::wire::REQUEST_LEN;
use max_image_sender::wire::RESPONSE_LEN;

#[test]
fn the_lengths_add_up() {
    assert_eq!(REQUEST_LEN, 4);
    assert_eq!(CHALLENGE_LEN, 24);
    assert_eq!(NONCE_LEN, 16);
    assert_eq!(RESPONSE_LEN, 43);
    assert_eq!(CHALLENGE_LEN + NONCE_LEN + 3, RESPONSE_LEN);
}

#[test]
fn a_request_is_x_then_y_little_endian() {
    assert_eq!(encode_request(PixelCoordinate { x: 0, y: 0 }), vec![0, 0, 0, 0]);
    assert_eq!(encode_request(PixelCoordinate { x: 1, y: 2 }), vec![1, 0, 2, 0]);
    assert_eq!(encode_request(PixelCoordinate { x: 383, y: 255 }), vec![0x7f, 0x01, 0xff, 0x00]);
    assert_eq!(encode_request(PixelCoordinate { x: 0x1234, y: 0xabcd }), vec![0x34, 0x12, 0xcd, 0xab]);
    assert_eq!(encode_request(PixelCoordinate { x: 65535, y: 256 }), vec![0xff, 0xff, 0x00, 0x01]);
}

#[test]
fn a_request_agrees_with_to_le_bytes() {
    for (x, y) in [(0u16, 0u16), (7, 9), (255, 256), (40000, 123), (65535, 65535)] {
        let mut expect = Vec::new();
        expect.extend_from_slice(&x.to_le_bytes());
        expect.extend_from_slice(&y.to_le_bytes());
        assert_eq!(encode_request(PixelCoordinate { x, y }), expect);
    }
}

#[test]
fn the_target_is_read_from_the_first_four_bytes() {
    assert_eq!(decode_target(&[0x34, 0x12, 0xcd, 0xab]), PixelCoordinate { x: 0x1234, y: 0xabcd });
    assert_eq!(decode_target(&[1, 0, 2, 0, 99, 98, 97]), PixelCoordinate { x: 1, y: 2 });
    assert_eq!(decode_target(&[0xff, 0xff, 0xff, 0xff]), PixelCoordinate { x: 65535, y: 65535 });
}

#[test]
fn a_request_names_the_pixel_it_was_made_for() {
    for x in [0u16, 1, 255, 256, 383, 4096, 65535] {
        for y in [0u16, 1, 255, 256, 1000, 65535] {
            let c = PixelCoordinate { x, y };
            assert_eq!(decode_target(&encode_request(c)), c);
        }
    }
}
