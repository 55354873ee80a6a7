use browser_ext::frame::{frame_length, frame_prefix, read_body, write_frame};
use browser_ext::json::value::Json;

#[test]
fn frame_is_length_and_body() {
    assert_eq!(write_frame(Json::Null), Ok(b"\x04\x00\x00\x00null".to_vec()));
    let message = Json::Object(vec![("id".to_string(), Json::Unsigned(1))]);
    assert_eq!(write_frame(message), Ok(b"\x08\x00\x00\x00{\"id\":1}".to_vec()));
}

#[test]
fn frame_length_is_little_endian() {
    assert_eq!(frame_length([0, 0, 0, 0]), 0);
    assert_eq!(frame_length([1, 2, 3, 4]), 0x04030201);
    assert_eq!(frame_length([255, 255, 255, 255]), u32::MAX);
}

#[test]
fn frame_prefix_counts_bytes() {
    let frame = write_frame(Json::String("é".repeat(200))).unwrap();
    assert_eq!(frame_length([frame[0], frame[1], frame[2], frame[3]]), 402);
    assert_eq!(frame.len(), 406);
}

#[test]
fn frame_is_read_back() {
    let build = || Json::Object(vec![
        ("id".to_string(), Json::Unsigned(9)),
        ("result".to_string(), Json::Array(vec![Json::String("x\ny".to_string())])),
    ]);
    let frame = write_frame(build()).unwrap();
    assert_eq!(frame_length([frame[0], frame[1], frame[2], frame[3]]) as usize, frame.len() - 4);
    assert_eq!(read_body(&frame[4..]), Ok(build()));
}

#[test]
fn frame_body_must_be_json() {
    assert!(read_body(b"").is_err());
    assert!(read_body(b"nul").is_err());
    assert!(read_body(b"\xff").is_err());
}

#[test]
fn frame_prefix_is_the_length() {
    assert_eq!(frame_prefix(0), Ok(vec![0, 0, 0, 0]));
    assert_eq!(frame_prefix(0x04030201), Ok(vec![1, 2, 3, 4]));
    assert_eq!(frame_prefix(0xffff_ffff), Ok(vec![255, 255, 255, 255]));
}

#[test]
fn frame_prefix_refuses_what_does_not_fit() {
    for length in [0x1_0000_0000, 0x1_0000_0003, usize::MAX] {
        assert_eq!(frame_prefix(length), Err("message too long for a frame".to_string()));
    }
}

#[test]
fn frame_of_a_long_message_tells_its_length() {
    let frame = write_frame(Json::String("x".repeat(70_000))).unwrap();
    assert_eq!(frame[..4], [0x72, 0x11, 0x01, 0x00]);
    assert_eq!(frame.len(), 70_006);
}
