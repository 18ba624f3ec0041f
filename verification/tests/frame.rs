use portos_kernel::chunk::ByteCursor;
use portos_kernel::frame::{read_frame, write_frame, FrameError, MAX_FRAME};

#[test]
fn roundtrip() {
    let mut object = serde_json::Map::new();
    object.insert("m".to_string(), serde_json::Value::from("hello"));
    object.insert("n".to_string(), serde_json::Value::from(42));
    let v = serde_json::Value::Object(object);
    let mut buf = Vec::new();
    write_frame(&mut buf, &serde_json::to_vec(&v).unwrap()).unwrap();
    let text = read_frame(&mut ByteCursor::new(buf)).unwrap();
    let out: serde_json::Value = serde_json::from_slice(&text).unwrap();
    assert_eq!(v, out);
}

#[test]
fn rejects_oversize_header() {
    let mut buf = Vec::new();
    buf.extend_from_slice(&(MAX_FRAME + 1).to_le_bytes());
    assert!(matches!(
        read_frame(&mut ByteCursor::new(buf)),
        Err(FrameError::TooLarge(_))
    ));
}

#[test]
fn an_oversize_frame_is_not_written() {
    let mut buf = Vec::new();
    let big = vec![b' '; MAX_FRAME as usize + 1];
    assert_eq!(
        write_frame(&mut buf, &big),
        Err(FrameError::TooLarge(MAX_FRAME + 1))
    );
    assert!(buf.is_empty());
}

#[test]
fn a_short_frame_is_an_error() {
    assert_eq!(
        read_frame(&mut ByteCursor::new(vec![4, 0, 0, 0, b'{'])),
        Err(FrameError::Io)
    );
    assert_eq!(FrameError::Io.message(), "frame io: failed to fill whole buffer");
    assert_eq!(FrameError::TooLarge(7).message(), "frame too large: 7");
    assert_eq!(FrameError::Json("bad".to_string()).message(), "frame json: bad");
}

#[test]
fn a_refused_frame_leaves_what_follows_its_length() {
    let mut buf = (MAX_FRAME + 1).to_le_bytes().to_vec();
    buf.extend_from_slice(b"rest");
    let mut r = ByteCursor::new(buf);
    assert_eq!(read_frame(&mut r), Err(FrameError::TooLarge(MAX_FRAME + 1)));
    assert_eq!(r.read_up_to(100), b"rest");
    let mut r = ByteCursor::new(vec![4, 0, 0, 0, b'{']);
    assert_eq!(read_frame(&mut r), Err(FrameError::Io));
    assert!(r.read_up_to(100).is_empty());
}
