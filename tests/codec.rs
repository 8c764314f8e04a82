use netcode::{read_header, Header, ReplayVerdict, ReplayWindow, REPLAY_WINDOW};

#[test]
fn header_reads_little_endian_sequence() {
    assert_eq!(read_header(&[0x15, 0x01]), Some(Header { packet_type: 5, sequence: 1 }));
    assert_eq!(
        read_header(&[0x34, 0x01, 0x02, 0x03, 0xFF]),
        Some(Header { packet_type: 4, sequence: 0x030201 })
    );
    assert_eq!(
        read_header(&[0x86, 0xFF, 0xFF, 0xFF, 0xFF, 0xFF, 0xFF, 0xFF, 0xFF]),
        Some(Header { packet_type: 6, sequence: u64::MAX })
    );
}

#[test]
fn header_rejects_bad_lengths() {
    assert_eq!(read_header(&[]), None);
    assert_eq!(read_header(&[0x05]), None);
    assert_eq!(read_header(&[0x95, 1, 2, 3, 4, 5, 6, 7, 8, 9]), None);
    assert_eq!(read_header(&[0x25, 1]), None);
}

#[test]
fn replay_window_verdicts() {
    let mut w = ReplayWindow::new();
    assert_eq!(w.check(0), ReplayVerdict::Fresh);
    w.mark(5);
    assert_eq!(w.check(5), ReplayVerdict::Duplicate);
    assert_eq!(w.check(5 + REPLAY_WINDOW), ReplayVerdict::Fresh);
    w.mark(5 + REPLAY_WINDOW);
    assert_eq!(w.check(5), ReplayVerdict::Stale);
    assert_eq!(w.check(6), ReplayVerdict::Fresh);
    assert_eq!(w.check(5 + REPLAY_WINDOW), ReplayVerdict::Duplicate);
}

#[test]
fn version_tag_matches_exactly() {
    assert!(netcode::packet::version_matches(&b"NETCODE 1.01\0".to_vec()));
    assert!(!netcode::packet::version_matches(&b"NETCODE 1.01".to_vec()));
    assert!(!netcode::packet::version_matches(&b"NETCODE 1.02\0".to_vec()));
}
