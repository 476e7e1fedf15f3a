use rust_boot_test::console::{console_write_fits, debugcon_bytes, ConsoleBuffer};

/// Writes `text` through a `ConsoleBuffer` and collects the chunks it hands out.
fn console_chunks(text: &[u8]) -> Vec<Vec<u16>> {
    let mut buffer = ConsoleBuffer::new();
    let mut chunks = Vec::new();
    for &b in text {
        assert!(buffer.accepts(b));
        if buffer.push_byte(b) {
            chunks.push(buffer.units().to_vec());
        }
    }
    if buffer.finish() {
        let units = buffer.units();
        let end = units.iter().position(|&u| u == 0).unwrap();
        chunks.push(units[..=end].to_vec());
    }
    chunks
}

fn debugcon(text: &[u8]) -> Vec<u8> {
    let mut out = Vec::new();
    for &b in text {
        let (bytes, count) = debugcon_bytes(b);
        out.extend_from_slice(&bytes[..count]);
    }
    out
}

fn units(s: &str) -> Vec<u16> {
    s.bytes().map(|b| b as u16).collect()
}

#[test]
fn debugcon_inserts_carriage_returns() {
    assert_eq!(debugcon(b""), b"".to_vec());
    assert_eq!(debugcon(b"phase=loop_live\n"), b"phase=loop_live\r\n".to_vec());
    assert_eq!(debugcon(b"a\n\nb"), b"a\r\n\r\nb".to_vec());
    assert_eq!(debugcon(b"\r\n"), b"\r\r\n".to_vec());
}

#[test]
fn panic_handler_message() {
    assert_eq!(rust_boot_test::console::panic(), *b"panic\r\n");
}

#[test]
fn console_short_line() {
    let chunks = console_chunks(b"uefi direct load\n");
    let mut want = units("uefi direct load\r\n");
    want.push(0);
    assert_eq!(chunks, vec![want]);
}

#[test]
fn console_empty_text_sends_nothing() {
    assert!(console_chunks(b"").is_empty());
}

#[test]
fn console_splits_at_127_units() {
    let text = vec![b'x'; 300];
    let chunks = console_chunks(&text);
    assert_eq!(chunks.len(), 3);
    assert_eq!(chunks[0].len(), 128);
    assert_eq!(chunks[1].len(), 128);
    assert_eq!(chunks[2].len(), 300 - 254 + 1);
    for c in &chunks {
        assert_eq!(*c.last().unwrap(), 0);
        assert!(c[..c.len() - 1].iter().all(|&u| u == b'x' as u16));
    }
}

#[test]
fn console_exactly_127_units_leaves_nothing_pending() {
    let text = vec![b'y'; 127];
    let chunks = console_chunks(&text);
    assert_eq!(chunks.len(), 1);
    assert_eq!(chunks[0].len(), 128);
}

#[test]
fn console_newline_at_125_fills_the_buffer() {
    let mut text = vec![b'z'; 125];
    text.push(b'\n');
    text.push(b'q');
    let chunks = console_chunks(&text);
    assert_eq!(chunks.len(), 2);
    assert_eq!(chunks[0][125], 13);
    assert_eq!(chunks[0][126], 10);
    assert_eq!(chunks[0][127], 0);
    assert_eq!(chunks[1], vec![b'q' as u16, 0]);
}

#[test]
fn console_newline_at_126_would_overrun() {
    let mut text = vec![b'z'; 126];
    text.push(b'\n');
    assert!(!console_write_fits(&text));
    let mut text = vec![b'z'; 125];
    text.push(b'\n');
    assert!(console_write_fits(&text));
    // Each line feed takes two units: the 64th arrives with 126 pending.
    assert!(console_write_fits(&vec![b'\n'; 63]));
    assert!(!console_write_fits(&vec![b'\n'; 64]));
}

#[test]
fn console_chunks_cover_the_text() {
    let text: Vec<u8> = (0..400u32).map(|i| if i % 38 == 0 { b'\n' } else { b'a' + (i % 26) as u8 }).collect();
    assert!(console_write_fits(&text));
    let chunks = console_chunks(&text);
    let mut joined = Vec::new();
    for c in &chunks {
        assert!(c.len() >= 2 && c.len() <= 128);
        assert_eq!(*c.last().unwrap(), 0);
        joined.extend_from_slice(&c[..c.len() - 1]);
    }
    let mut want = Vec::new();
    for &b in &text {
        if b == b'\n' {
            want.push(13u16);
        }
        want.push(b as u16);
    }
    assert_eq!(joined, want);
}

#[test]
fn console_text_with_line_feed_at_126_is_refused() {
    let text: Vec<u8> = (0..400u32).map(|i| if i % 37 == 0 { b'\n' } else { b'a' }).collect();
    assert!(!console_write_fits(&text));
}

#[test]
fn console_buffer_refuses_line_feed_at_126() {
    let mut buffer = ConsoleBuffer::new();
    for _ in 0..126 {
        assert!(buffer.accepts(b'z'));
        assert!(!buffer.push_byte(b'z'));
    }
    assert!(!buffer.accepts(b'\n'));
    assert!(buffer.accepts(b'z'));
    assert!(buffer.push_byte(b'z'));
    assert_eq!(buffer.units()[127], 0);
    assert!(buffer.accepts(b'\n'));
    assert!(!buffer.finish());
}

#[test]
fn debugcon_single_bytes() {
    assert_eq!(debugcon_bytes(b'a').1, 1);
    assert_eq!(debugcon_bytes(b'a').0[0], b'a');
    assert_eq!(debugcon_bytes(b'\n'), ([b'\r', b'\n'], 2));
}

#[test]
fn debugcon_writes_concatenate() {
    let a = b"loop=10000 last=7\n";
    let b = b"\nmin=3 max=9\n";
    let mut joined = a.to_vec();
    joined.extend_from_slice(b);
    let mut separate = debugcon(a);
    separate.extend(debugcon(b));
    assert_eq!(separate, debugcon(&joined));
}

#[test]
fn console_writes_concatenate() {
    let a = vec![b'a'; 100];
    let b: Vec<u8> = (0..90u32).map(|i| if i % 10 == 0 { b'\n' } else { b'b' }).collect();
    let mut joined = a.clone();
    joined.extend_from_slice(&b);
    assert!(console_write_fits(&a) && console_write_fits(&b) && console_write_fits(&joined));
    let text = |chunks: Vec<Vec<u16>>| -> Vec<u16> {
        chunks.iter().flat_map(|c| c[..c.len() - 1].to_vec()).collect()
    };
    let mut separate = text(console_chunks(&a));
    separate.extend(text(console_chunks(&b)));
    assert_eq!(separate, text(console_chunks(&joined)));
}
