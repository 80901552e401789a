use really_notify::event::{decode_events, WatchHandle};

fn record(wd: i32, mask: u32, cookie: u32, name: &[u8], pad: usize, big_endian: bool) -> Vec<u8> {
    let mut out = Vec::new();
    let len = (name.len() + pad) as u32;
    if big_endian {
        out.extend_from_slice(&wd.to_be_bytes());
        out.extend_from_slice(&mask.to_be_bytes());
        out.extend_from_slice(&cookie.to_be_bytes());
        out.extend_from_slice(&len.to_be_bytes());
    } else {
        out.extend_from_slice(&wd.to_le_bytes());
        out.extend_from_slice(&mask.to_le_bytes());
        out.extend_from_slice(&cookie.to_le_bytes());
        out.extend_from_slice(&len.to_le_bytes());
    }
    out.extend_from_slice(name);
    out.extend(std::iter::repeat(0u8).take(pad));
    out
}

#[test]
fn decodes_one_record_and_trims_padding() {
    for big_endian in [false, true] {
        let buf = record(3, 0x8, 0x1234_5678, b"cfg", 13, big_endian);
        let read = decode_events(&buf, big_endian);
        assert_eq!(read.consumed, buf.len());
        assert_eq!(read.events.len(), 1);
        let event = &read.events[0];
        assert_eq!(event.watch_descriptor, WatchHandle(3));
        assert_eq!(event.mask.bits(), 0x8);
        assert_eq!(event.cookie, 0x1234_5678);
        assert_eq!(event.name, b"cfg".to_vec());
    }
}

#[test]
fn decodes_records_in_order() {
    let mut buf = record(1, 0x2, 0, b"", 0, false);
    buf.extend(record(2, 0x80, 7, b"cfg.new", 9, false));
    buf.extend(record(-1, 0x4000, 0, b"", 0, false));
    let read = decode_events(&buf, false);
    assert_eq!(read.consumed, buf.len());
    let seen: Vec<(i32, u32, u32, Vec<u8>)> = read
        .events
        .iter()
        .map(|e| (e.watch_descriptor.descriptor(), e.mask.bits(), e.cookie, e.name.clone()))
        .collect();
    assert_eq!(
        seen,
        vec![
            (1, 0x2, 0, b"".to_vec()),
            (2, 0x80, 7, b"cfg.new".to_vec()),
            (-1, 0x4000, 0, b"".to_vec()),
        ]
    );
}

#[test]
fn negative_descriptor_is_read_as_signed() {
    let buf = record(i32::MIN, 0xffff_ffff, 0xffff_ffff, b"", 0, true);
    let read = decode_events(&buf, true);
    assert_eq!(read.events[0].watch_descriptor.descriptor(), i32::MIN);
    assert_eq!(read.events[0].mask.bits(), 0xffff_ffff);
    assert_eq!(read.events[0].cookie, 0xffff_ffff);
}

#[test]
fn byte_order_matters() {
    let buf = record(1, 0x0100_0000, 0, b"", 0, false);
    assert_eq!(decode_events(&buf, false).events[0].mask.bits(), 0x0100_0000);
    let other = decode_events(&buf, true);
    assert_eq!(other.events[0].mask.bits(), 0x1);
    assert_eq!(other.events[0].watch_descriptor.descriptor(), 0x0100_0000);
    let named = record(1, 0x2, 0, b"ab", 2, false);
    let misread = decode_events(&named, true);
    assert_eq!(misread.events.len(), 0);
    assert_eq!(misread.consumed, 0);
}

#[test]
fn partial_header_is_left_alone() {
    let mut buf = record(1, 0x2, 0, b"a", 3, false);
    let whole = buf.len();
    buf.extend_from_slice(&[1, 0, 0, 0, 2, 0]);
    let read = decode_events(&buf, false);
    assert_eq!(read.events.len(), 1);
    assert_eq!(read.consumed, whole);
}

#[test]
fn name_longer_than_the_rest_ends_decoding() {
    let mut buf = record(1, 0x2, 0, b"a", 3, false);
    let whole = buf.len();
    let mut broken = record(2, 0x2, 0, b"abcdefgh", 8, false);
    broken.truncate(20);
    buf.extend(broken);
    let read = decode_events(&buf, false);
    assert_eq!(read.events.len(), 1);
    assert_eq!(read.consumed, whole);
    assert!(read.consumed < buf.len());
}

#[test]
fn empty_read_holds_nothing() {
    let read = decode_events(&Vec::new(), false);
    assert_eq!(read.events.len(), 0);
    assert_eq!(read.consumed, 0);
}

#[test]
fn name_of_only_padding_is_empty() {
    let buf = record(5, 0x400, 0, b"", 16, false);
    let read = decode_events(&buf, false);
    assert_eq!(read.events[0].name, Vec::<u8>::new());
    assert_eq!(read.consumed, 32);
}

#[test]
fn inner_zero_bytes_are_kept() {
    let buf = record(5, 0x400, 0, b"a\0b", 5, false);
    let read = decode_events(&buf, false);
    assert_eq!(read.events[0].name, b"a\0b".to_vec());
}
