use rtt_log::channel::{ControlBlock, Output, BUFFER_SIZE, ID_LEN};

const MAGIC: &[u8] = b"SEGGER RTT";

fn contains(haystack: &[u8], needle: &[u8]) -> bool {
    haystack.windows(needle.len()).any(|w| w == needle)
}

#[test]
fn placeholder_hides_tag() {
    let cb = ControlBlock::placeholder();
    assert_eq!(cb.id.len(), ID_LEN);
    assert!(cb.id.iter().all(|&b| b == 0));
    assert!(!contains(&cb.id, MAGIC));
    assert_eq!(cb.up_buffers, 1);
    assert_eq!(cb.down_buffers, 0);
    assert_eq!(&cb.up.name[..], b"Terminal\0");
    assert_eq!(cb.up.buf.len(), BUFFER_SIZE);
    assert_eq!(cb.up.size_of_buffer, 1024);
    assert_eq!(cb.up.write_offset, 0);
    assert_eq!(cb.up.read_offset, 0);
    assert_eq!(cb.up.flags, 0);
}

#[test]
fn initialize_assembles_tag() {
    let out = Output::new();
    assert_eq!(&out.control.id[..], b"SEGGER RTT\0\0\0\0\0\0");
    assert!(contains(&out.control.id, MAGIC));
}

#[test]
fn initialize_twice_idempotent() {
    let mut cb = ControlBlock::placeholder();
    cb.initialize_channel();
    let id_once = cb.id.clone();
    let buf_once = cb.up.buf.clone();
    let wo_once = cb.up.write_offset;
    cb.initialize_channel();
    assert_eq!(cb.id, id_once);
    assert_eq!(cb.up.buf, buf_once);
    assert_eq!(cb.up.write_offset, wo_once);
    assert_eq!(cb.up.read_offset, 0);
    assert_eq!(cb.up.size_of_buffer, 1024);
    assert_eq!(&cb.up.name[..], b"Terminal\0");
}

#[test]
fn write_no_wrap_lands_at_start() {
    let mut out = Output::new();
    out.write(b"hello");
    assert_eq!(&out.control.up.buf[0..5], b"hello");
    assert_eq!(out.control.up.write_offset, 5);
    assert!(out.control.up.buf[5..].iter().all(|&b| b == 0));
}

#[test]
fn writes_append_in_order() {
    let mut out = Output::new();
    out.write(b"abc");
    out.write(b"defg");
    assert_eq!(&out.control.up.buf[0..7], b"abcdefg");
    assert_eq!(out.control.up.write_offset, 7);
}

#[test]
fn write_to_margin_resets_cursor() {
    let mut out = Output::new();
    let data = vec![0xaau8; BUFFER_SIZE - 1];
    out.write(&data);
    assert_eq!(out.control.up.write_offset, 0);
    assert!(out.control.up.buf[..BUFFER_SIZE - 1].iter().all(|&b| b == 0xaa));
    // The reserved margin byte is never written.
    assert_eq!(out.control.up.buf[BUFFER_SIZE - 1], 0);
}

#[test]
fn write_wraps_across_margin() {
    let mut out = Output::new();
    out.write(&vec![0x11u8; 1000]);
    assert_eq!(out.control.up.write_offset, 1000);
    let tail: Vec<u8> = (0..50).map(|i| 0x40 + i as u8).collect();
    out.write(&tail);
    // 23 bytes fill the run up to the margin, the cursor resets, and the
    // remaining 27 land at the start: (1000 + 50) % 1023 == 27.
    assert_eq!(out.control.up.write_offset, 27);
    assert_eq!(&out.control.up.buf[1000..1023], &tail[..23]);
    assert_eq!(&out.control.up.buf[0..27], &tail[23..]);
    assert_eq!(out.control.up.buf[1023], 0);
}

#[test]
fn write_longer_than_buffer_is_lossy() {
    let mut out = Output::new();
    let data: Vec<u8> = (0..2500u32).map(|i| (i % 251) as u8).collect();
    out.write(&data);
    // 2500 % 1023 == 454.
    assert_eq!(out.control.up.write_offset, 454);
    // The final pass starts with input byte 2046 at offset 0.
    for k in 0..454usize {
        assert_eq!(out.control.up.buf[k], data[2046 + k]);
    }
    // Between the final cursor and the margin, the previous pass survives:
    // that pass started with input byte 1023 at offset 0.
    for k in 454..1023usize {
        assert_eq!(out.control.up.buf[k], data[1023 + k]);
    }
    assert_eq!(out.control.up.buf[1023], 0);
}

#[test]
fn writer_leaves_reader_cursor_alone() {
    let mut out = Output::new();
    out.control.up.read_offset = 17;
    out.write(&vec![1u8; 2000]);
    assert_eq!(out.control.up.read_offset, 17);
    assert_eq!(out.control.up.flags, 0);
    assert_eq!(out.control.up.size_of_buffer, 1024);
}
