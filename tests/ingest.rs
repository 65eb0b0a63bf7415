use txradar::ingest::{hashblock_event, parse_sequence_message, rawtx_event, sequence_body, SequenceTracker, ZmqConfig};
use txradar::model::{MempoolEvent, RemovalReason};

fn seq_body(label: u8, counter: u64) -> Vec<u8> {
    let mut b = vec![0x11u8; 32];
    b.push(label);
    b.extend_from_slice(&counter.to_le_bytes());
    b
}

#[test]
fn parse_sequence_message_fields() {
    let body = seq_body(b'R', 0x0102_0304_0506_0708);
    let (hash, label, seq) = parse_sequence_message(&body).unwrap();
    assert_eq!(hash, [0x11u8; 32]);
    assert_eq!(label, b'R');
    assert_eq!(seq, 0x0102_0304_0506_0708);
}

#[test]
fn parse_sequence_message_wrong_length() {
    assert!(parse_sequence_message(&[0u8; 40]).is_none());
    assert!(parse_sequence_message(&[0u8; 42]).is_none());
}

#[test]
fn sequence_labels_and_gaps() {
    let mut t = SequenceTracker::new();
    let h = [5u8; 32];
    let a = t.on_sequence(h, b'A', 10);
    assert!(a.event.is_none());
    assert!(a.gap.is_none());
    let r = t.on_sequence(h, b'R', 11);
    assert!(matches!(r.event, Some(MempoolEvent::TxRemoved { reason: RemovalReason::Unknown, .. })));
    assert!(r.gap.is_none());
    let c = t.on_sequence(h, b'C', 15);
    assert!(matches!(c.event, Some(MempoolEvent::BlockConnected { height: 0, .. })));
    assert_eq!(c.gap, Some(3));
    let d = t.on_sequence(h, b'D', 16);
    assert!(matches!(d.event, Some(MempoolEvent::BlockDisconnected { height: 0, .. })));
    let x = t.on_sequence(h, b'X', 17);
    assert!(x.event.is_none());
    assert!(x.unknown_label);
}

#[test]
fn rawtx_frame_hashes_body() {
    let parts = vec![b"rawtx".to_vec(), vec![1, 2, 3]];
    match rawtx_event(&parts) {
        Some(MempoolEvent::TxAdded { txid, raw }) => {
            assert_eq!(raw, vec![1, 2, 3]);
            assert_ne!(txid, [0u8; 32]);
            let again = rawtx_event(&parts);
            assert!(matches!(again, Some(MempoolEvent::TxAdded { txid: t2, .. }) if t2 == txid));
        },
        _ => panic!("expected TxAdded"),
    }
    assert!(rawtx_event(&[b"rawtx".to_vec()]).is_none());
    assert!(rawtx_event(&[b"other".to_vec(), vec![1]]).is_none());
}

#[test]
fn rawtx_empty_body_known_hash() {
    // Double SHA-256 of the empty string starts with 5d f6 e0 e2.
    let parts = vec![b"rawtx".to_vec(), vec![]];
    match rawtx_event(&parts) {
        Some(MempoolEvent::TxAdded { txid, .. }) => assert_eq!(&txid[..4], &[0x5d, 0xf6, 0xe0, 0xe2]),
        _ => panic!("expected TxAdded"),
    }
}

#[test]
fn hashblock_frame_requires_32_bytes() {
    let ok = vec![b"hashblock".to_vec(), vec![9u8; 32]];
    assert!(matches!(hashblock_event(&ok), Some(MempoolEvent::BlockConnected { height: 0, .. })));
    let short = vec![b"hashblock".to_vec(), vec![9u8; 31]];
    assert!(hashblock_event(&short).is_none());
}

#[test]
fn sequence_frame_body() {
    let parts = vec![b"sequence".to_vec(), seq_body(b'C', 1)];
    assert_eq!(sequence_body(&parts).unwrap().len(), 41);
    assert!(sequence_body(&[b"rawtx".to_vec(), vec![]]).is_none());
}

#[test]
fn zmq_default_endpoints() {
    let c = ZmqConfig::default();
    assert_eq!(c.rawtx_endpoint, "tcp://127.0.0.1:28333");
    assert_eq!(c.sequence_endpoint.as_deref(), Some("tcp://127.0.0.1:28336"));
}
