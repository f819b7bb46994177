use p1meter::frame::FrameAssembler;

fn feed_all(framer: &mut FrameAssembler, chunks: &[&str]) -> Vec<String> {
    let mut out = Vec::new();
    for c in chunks {
        if let Some(t) = framer.push_text(c) {
            out.push(t);
        }
    }
    out
}

#[test]
fn single_chunk_telegram_is_emitted() {
    let mut framer = FrameAssembler::new();
    let out = framer.push_text("/METER\r\n1-0:1.7.0(00.131*kW)\r\n!8234\r\n");
    assert_eq!(out, Some("/METER\r\n1-0:1.7.0(00.131*kW)\r\n!8234\r\n".to_string()));
    assert_eq!(framer.pending(), "");
}

#[test]
fn telegram_spanning_chunks_is_their_concatenation() {
    let mut framer = FrameAssembler::new();
    let out = feed_all(&mut framer, &["/MET", "ER\r\n1-0:1.", "7.0(00.131*kW)\r\n", "!8234\r\n"]);
    assert_eq!(out, vec!["/METER\r\n1-0:1.7.0(00.131*kW)\r\n!8234\r\n".to_string()]);
}

#[test]
fn continuation_without_markers_is_buffered() {
    let mut framer = FrameAssembler::new();
    assert_eq!(framer.push_text("/AB"), None);
    assert_eq!(framer.push_text("CD"), None);
    assert_eq!(framer.pending(), "/ABCD");
}

#[test]
fn start_marker_discards_partial_frame() {
    let mut framer = FrameAssembler::new();
    let out = feed_all(&mut framer, &["/OLD\r\n1-0:1.7.0(", "/NEW\r\n", "!00\r\n"]);
    assert_eq!(out, vec!["/NEW\r\n!00\r\n".to_string()]);
}

#[test]
fn bytes_before_start_marker_are_dropped() {
    let mut framer = FrameAssembler::new();
    let out = feed_all(&mut framer, &["garbage", "!x", "/A", "B!"]);
    assert_eq!(out, vec!["garbage!x".to_string(), "/AB!".to_string()]);
}

#[test]
fn chunk_boundaries_between_markers_do_not_matter() {
    let total = "/X\r\n1-0:1.8.1(007392.132*kWh)\r\n!12\r\n";
    let mut a = FrameAssembler::new();
    let one = feed_all(&mut a, &[total]);
    let mut b = FrameAssembler::new();
    let many = feed_all(&mut b, &["/X\r", "\n1-0:1.8", ".1(007392", ".132*kWh)\r\n", "!12\r\n"]);
    let mut c = FrameAssembler::new();
    let bytes: Vec<String> = total.chars().map(|ch| ch.to_string()).collect();
    let refs: Vec<&str> = bytes.iter().map(|s| s.as_str()).collect();
    let singles = feed_all(&mut c, &refs[..]);
    assert_eq!(one, many);
    assert_eq!(one, vec![total.to_string()]);
    assert_eq!(singles, vec!["/X\r\n1-0:1.8.1(007392.132*kWh)\r\n!".to_string()]);
}

#[test]
fn two_telegrams_in_sequence() {
    let mut framer = FrameAssembler::new();
    let out = feed_all(&mut framer, &["/A\r\n", "!1\r\n", "/B\r\n!2\r\n"]);
    assert_eq!(out, vec!["/A\r\n!1\r\n".to_string(), "/B\r\n!2\r\n".to_string()]);
}

#[test]
fn raw_chunks_are_decoded_leniently() {
    let mut framer = FrameAssembler::new();
    assert_eq!(framer.push_chunk(&[b'/', b'A', 0xFF]), None);
    assert_eq!(framer.pending(), "/A\u{FFFD}");
    let out = framer.push_chunk(b"B!\r\n");
    assert_eq!(out, Some("/A\u{FFFD}B!\r\n".to_string()));
}

#[test]
fn empty_chunk_changes_nothing() {
    let mut framer = FrameAssembler::new();
    assert_eq!(framer.push_chunk(b"/A"), None);
    assert_eq!(framer.push_chunk(b""), None);
    assert_eq!(framer.pending(), "/A");
}
