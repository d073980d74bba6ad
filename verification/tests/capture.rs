use skill_transform::capture::{capture_frames, CaptureError};

fn be32(v: &mut Vec<u8>, x: u32) {
    v.extend_from_slice(&x.to_be_bytes());
}

/// A big-endian pcapng capture: a section header, then one enhanced packet per payload.
fn capture(payloads: &[&[u8]]) -> Vec<u8> {
    let mut v = Vec::new();
    be32(&mut v, 0x0A0D0D0A);
    be32(&mut v, 28);
    be32(&mut v, 0x1A2B3C4D);
    v.extend_from_slice(&1u16.to_be_bytes());
    v.extend_from_slice(&0u16.to_be_bytes());
    v.extend_from_slice(&(-1i64).to_be_bytes());
    be32(&mut v, 28);
    for p in payloads {
        let pad = (4 - p.len() % 4) % 4;
        let total = 12 + 20 + p.len() + pad;
        be32(&mut v, 6);
        be32(&mut v, total as u32);
        be32(&mut v, 0);
        v.extend_from_slice(&0u64.to_be_bytes());
        be32(&mut v, p.len() as u32);
        be32(&mut v, p.len() as u32);
        v.extend_from_slice(p);
        v.extend(std::iter::repeat(0u8).take(pad));
        be32(&mut v, total as u32);
    }
    v
}

#[test]
fn capture_frames_of_packets() {
    let bytes = capture(&[
        b"(time (now 1.0))(HJ (n laj1) (ax 2.5))(HJ (n rlj7) (ax 0))(HJ (n llj1) (ax -1))",
        b"hello",
        b"(he1 1)(raj2 0.5)(syn)",
    ]);
    let (sensors, speeds) = capture_frames(&bytes).unwrap();
    assert_eq!(sensors.len(), 1);
    assert_eq!(speeds.len(), 1);
    assert_eq!(sensors[0][0].as_deref(), Some("2.5"));
    assert_eq!(sensors[0][4].as_deref(), Some("-1"));
    assert_eq!(speeds[0][17].as_deref(), Some("0.5"));
}

#[test]
fn capture_frames_decode_lossily() {
    let bytes = capture(&[b"(time (now 1))(HJ (n laj2) (ax 3\xff))"]);
    let (sensors, _) = capture_frames(&bytes).unwrap();
    assert_eq!(sensors[0][1].as_deref(), Some("3\u{FFFD}"));
}

#[test]
fn capture_frames_errors() {
    assert_eq!(capture_frames(&[]), Err(CaptureError::Unreadable));
    assert_eq!(capture_frames(b"not a capture at all"), Err(CaptureError::Unreadable));
    let mut truncated = capture(&[b"(he1 1)(syn)"]);
    truncated.truncate(truncated.len() - 3);
    assert_eq!(capture_frames(&truncated), Err(CaptureError::Unreadable));
    let bad = capture(&[b"(time (now 1)) no joints"]);
    assert_eq!(capture_frames(&bad), Err(CaptureError::BadMessage));
    let empty = capture(&[]);
    assert_eq!(capture_frames(&empty), Ok((vec![], vec![])));
}

/// A simple packet block holding `data`, padded to four bytes.
fn simple_packet(v: &mut Vec<u8>, data: &[u8]) {
    let pad = (4 - data.len() % 4) % 4;
    let total = 12 + 4 + data.len() + pad;
    be32(v, 3);
    be32(v, total as u32);
    be32(v, data.len() as u32);
    v.extend_from_slice(data);
    v.extend(std::iter::repeat(0u8).take(pad));
    be32(v, total as u32);
}

#[test]
fn capture_frames_read_enhanced_packets_only() {
    let mut bytes = capture(&[]);
    // An interface description block.
    be32(&mut bytes, 1);
    be32(&mut bytes, 20);
    bytes.extend_from_slice(&1u16.to_be_bytes());
    bytes.extend_from_slice(&0u16.to_be_bytes());
    be32(&mut bytes, 65535);
    be32(&mut bytes, 20);
    simple_packet(&mut bytes, b"(time (now 2))(HJ (n laj3) (ax 8))");
    let tail = capture(&[b"(time (now 1))(HJ (n laj1) (ax 4))"]);
    bytes.extend_from_slice(&tail[28..]);
    let (sensors, speeds) = capture_frames(&bytes).unwrap();
    assert_eq!(sensors.len(), 1);
    assert_eq!(speeds.len(), 0);
    assert_eq!(sensors[0][0].as_deref(), Some("4"));
    assert_eq!(sensors[0][2], None);
}
