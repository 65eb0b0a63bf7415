use vstd::prelude::*;

use crate::model::{MempoolEvent, RemovalReason};

verus! {

/// Endpoints of the node's event stream.
#[derive(Debug)]
pub struct ZmqConfig {
    pub rawtx_endpoint: String,
    pub hashblock_endpoint: String,
    /// Endpoint of the sequence topic (removals and block events), if used.
    pub sequence_endpoint: Option<String>,
}

impl Default for ZmqConfig {
    fn default() -> (r: ZmqConfig)
        ensures
            r.rawtx_endpoint@ == "tcp://127.0.0.1:28333"@,
            r.hashblock_endpoint@ == "tcp://127.0.0.1:28332"@,
            r.sequence_endpoint.is_some() && r.sequence_endpoint.unwrap()@ == "tcp://127.0.0.1:28336"@,
    {
        ZmqConfig {
            rawtx_endpoint: "tcp://127.0.0.1:28333".to_string(),
            hashblock_endpoint: "tcp://127.0.0.1:28332".to_string(),
            sequence_endpoint: Some("tcp://127.0.0.1:28336".to_string()),
        }
    }
}

/// Little-endian value of the bytes.
pub open spec fn le_value(b: Seq<u8>) -> int
    decreases b.len(),
{
    if b.len() == 0 {
        0
    } else {
        b[0] + 256 * le_value(b.drop_first())
    }
}

proof fn lemma_le_bound(b: Seq<u8>)
    ensures
        0 <= le_value(b),
        le_value(b) < pow256(b.len()),
    decreases b.len(),
{
    if b.len() > 0 {
        lemma_le_bound(b.drop_first());
        let r = le_value(b.drop_first());
        let p = pow256((b.len() - 1) as nat);
        assert(b[0] + 256 * r < 256 * p) by (nonlinear_arith)
            requires
                0 <= r < p,
                0 <= b[0] < 256,
        ;
    }
}

pub open spec fn pow256(n: nat) -> int
    decreases n,
{
    if n == 0 {
        1
    } else {
        256 * pow256((n - 1) as nat)
    }
}

/// A parsed sequence-topic body: hash, label byte and counter.
pub open spec fn sequence_parts(body: Seq<u8>) -> Option<(Seq<u8>, u8, int)> {
    if body.len() != 41 {
        None
    } else {
        Some((body.subrange(0, 32), body[32], le_value(body.subrange(33, 41))))
    }
}

/// Parse a sequence-topic body: 32-byte hash, 1-byte label, 8-byte
/// little-endian counter; `None` for any other length.
pub fn parse_sequence_message(body: &[u8]) -> (r: Option<([u8; 32], u8, u64)>)
    ensures
        match sequence_parts(body@) {
            None => r.is_none(),
            Some(p) => r.is_some() && r.unwrap().0@ == p.0 && r.unwrap().1 == p.1 && r.unwrap().2 == p.2,
        },
{
    if body.len() != 41 {
        return None;
    }
    let mut hash = [0u8; 32];
    let mut i: usize = 0;
    while i < 32
        invariant
            i <= 32,
            body@.len() == 41,
            hash@.len() == 32,
            forall|k: int| 0 <= k < i ==> hash@[k] == body@[k],
        decreases 32 - i,
    {
        hash[i] = body[i];
        i = i + 1;
    }
    assert(hash@ =~= body@.subrange(0, 32));
    let label = body[32];
    let mut seq: u64 = 0;
    let mut j: usize = 41;
    while j > 33
        invariant
            33 <= j <= 41,
            body@.len() == 41,
            seq == le_value(body@.subrange(j as int, 41)),
            seq < pow256((41 - j) as nat),
        decreases j,
    {
        let ghost tail = body@.subrange(j as int - 1, 41);
        proof {
            assert(tail.drop_first() =~= body@.subrange(j as int, 41));
            assert(tail[0] == body@[j as int - 1]);
            assert(pow256((41 - j + 1) as nat) == 256 * pow256((41 - j) as nat));
            lemma_pow_values();
            assert(pow256((41 - j) as nat) <= pow256(7)) by {
                lemma_pow_mono((41 - j) as nat, 7);
            }
            lemma_le_bound(tail);
            lemma_pow_mono((41 - j + 1) as nat, 8);
            assert(seq * 256 + body@[j as int - 1] < 0x1_0000_0000_0000_0000) by (nonlinear_arith)
                requires
                    seq < pow256((41 - j) as nat),
                    pow256((41 - j) as nat) <= 0x100_0000_0000_0000,
                    body@[j as int - 1] < 256,
            ;
        }
        seq = seq * 256 + body[j - 1] as u64;
        j = j - 1;
    }
    Some((hash, label, seq))
}

proof fn lemma_pow_values()
    ensures
        pow256(7) == 0x100_0000_0000_0000,
        pow256(8) == 0x1_0000_0000_0000_0000,
{
    reveal_with_fuel(pow256, 9);
}

proof fn lemma_pow_mono(a: nat, b: nat)
    requires
        a <= b,
    ensures
        pow256(a) <= pow256(b),
        pow256(a) >= 1,
    decreases b,
{
    if b > 0 && a < b {
        lemma_pow_mono(a, (b - 1) as nat);
    } else if a > 0 {
        lemma_pow_mono((a - 1) as nat, (a - 1) as nat);
    }
}

/// Gap tracking over the sequence counter.
#[derive(Clone, Copy, Debug, PartialEq, Eq, Structural)]
pub struct SequenceTracker {
    pub last_seq: Option<u64>,
}

/// Outcome of one sequence-topic frame.
#[derive(Debug)]
pub struct SequenceOutcome {
    /// The event to emit, if any.
    pub event: Option<MempoolEvent>,
    /// Number of counter values skipped since the previous frame, when not consecutive.
    pub gap: Option<u64>,
    /// Whether the label was none of `A`, `R`, `C`, `D`.
    pub unknown_label: bool,
}

/// Counter values missed between `prev` and `seq`: `seq - (prev + 1)`, floored at 0.
pub open spec fn missed(prev: u64, seq: u64) -> int {
    if seq as int > prev as int + 1 {
        seq as int - (prev as int + 1)
    } else {
        0
    }
}

impl SequenceTracker {
    pub fn new() -> (r: SequenceTracker)
        ensures
            r.last_seq.is_none(),
    {
        SequenceTracker { last_seq: None }
    }

    /// Handle a parsed sequence frame: record its counter (reporting a gap
    /// when it does not follow the previous one) and map its label: `A` to
    /// nothing (raw transactions are authoritative), `R` to a removal with
    /// reason Unknown, `C` and `D` to block connected and disconnected with
    /// height 0.
    pub fn on_sequence(&mut self, hash: [u8; 32], label: u8, seq: u64) -> (r: SequenceOutcome)
        ensures
            final(self).last_seq == Some(seq),
            r.gap == match old(self).last_seq {
                Some(prev) => if seq as int != prev as int + 1 { Some(missed(prev, seq) as u64) } else { None },
                None => None,
            },
            label == 65 ==> r.event.is_none() && !r.unknown_label,
            label == 82 ==> r.event == Some(MempoolEvent::TxRemoved { txid: hash, reason: RemovalReason::Unknown }) && !r.unknown_label,
            label == 67 ==> r.event == Some(MempoolEvent::BlockConnected { block_hash: hash, height: 0 }) && !r.unknown_label,
            label == 68 ==> r.event == Some(MempoolEvent::BlockDisconnected { block_hash: hash, height: 0 }) && !r.unknown_label,
            label != 65 && label != 82 && label != 67 && label != 68 ==> r.event.is_none() && r.unknown_label,
    {
        let gap = match self.last_seq {
            Some(prev) => {
                if prev == u64::MAX || seq != prev + 1 {
                    let m: u64 = if prev < u64::MAX && seq > prev + 1 { seq - (prev + 1) } else { 0 };
                    Some(m)
                } else {
                    None
                }
            },
            None => None,
        };
        self.last_seq = Some(seq);
        let (event, unknown_label) = if label == 65 {
            (None, false)
        } else if label == 82 {
            (Some(MempoolEvent::TxRemoved { txid: hash, reason: RemovalReason::Unknown }), false)
        } else if label == 67 {
            (Some(MempoolEvent::BlockConnected { block_hash: hash, height: 0 }), false)
        } else if label == 68 {
            (Some(MempoolEvent::BlockDisconnected { block_hash: hash, height: 0 }), false)
        } else {
            (None, true)
        };
        SequenceOutcome { event, gap, unknown_label }
    }
}

/// Double SHA-256 of the bytes.
pub uninterp spec fn sha256d_of(b: Seq<u8>) -> Seq<u8>;

/// Relies on bitcoin::hashes::sha256d::Hash::hash: the 32-byte double SHA-256
/// of the data, in hash byte order.
#[verifier::external_body]
fn sha256d(data: &[u8]) -> (r: [u8; 32])
    ensures
        r@ == sha256d_of(data@),
{
    bitcoin::hashes::Hash::to_byte_array(<bitcoin::hashes::sha256d::Hash as bitcoin::hashes::Hash>::hash(data))
}

fn bytes_equal(a: &[u8], b: &[u8]) -> (r: bool)
    ensures
        r == (a@ == b@),
{
    if a.len() != b.len() {
        return false;
    }
    let mut i: usize = 0;
    while i < a.len()
        invariant
            i <= a.len(),
            a@.len() == b@.len(),
            forall|k: int| 0 <= k < i ==> a@[k] == b@[k],
        decreases a.len() - i,
    {
        if a[i] != b[i] {
            return false;
        }
        i = i + 1;
    }
    assert(a@ =~= b@);
    true
}

/// The event of a raw-transaction frame: at least two parts, the first being
/// the topic `rawtx`; the txid is the double SHA-256 of the body.
pub fn rawtx_event(parts: &[Vec<u8>]) -> (r: Option<MempoolEvent>)
    ensures
        (parts@.len() >= 2 && parts@[0]@ == "rawtx"@.map_values(|c: char| c as u8)) ==> r.is_some() && match r.unwrap() {
            MempoolEvent::TxAdded { txid, raw } => raw@ == parts@[1]@ && txid@ == sha256d_of(parts@[1]@),
            _ => false,
        },
        !(parts@.len() >= 2 && parts@[0]@ == "rawtx"@.map_values(|c: char| c as u8)) ==> r.is_none(),
{
    if parts.len() < 2 {
        return None;
    }
    let topic: [u8; 5] = [114, 97, 119, 116, 120];
    proof {
        reveal_strlit("rawtx");
        assert(topic@ =~= "rawtx"@.map_values(|c: char| c as u8));
    }
    if !bytes_equal(parts[0].as_slice(), topic.as_slice()) {
        return None;
    }
    let body = &parts[1];
    let txid = sha256d(body.as_slice());
    Some(MempoolEvent::TxAdded { txid, raw: body.clone() })
}

/// The event of a block-hash frame: at least two parts, the first being the
/// topic `hashblock` and the second 32 bytes; height 0.
pub fn hashblock_event(parts: &[Vec<u8>]) -> (r: Option<MempoolEvent>)
    ensures
        (parts@.len() >= 2 && parts@[0]@ == "hashblock"@.map_values(|c: char| c as u8) && parts@[1]@.len() == 32)
            ==> r.is_some() && match r.unwrap() {
            MempoolEvent::BlockConnected { block_hash, height } => block_hash@ == parts@[1]@ && height == 0,
            _ => false,
        },
        !(parts@.len() >= 2 && parts@[0]@ == "hashblock"@.map_values(|c: char| c as u8) && parts@[1]@.len() == 32)
            ==> r.is_none(),
{
    if parts.len() < 2 {
        return None;
    }
    let topic: [u8; 9] = [104, 97, 115, 104, 98, 108, 111, 99, 107];
    proof {
        reveal_strlit("hashblock");
        assert(topic@ =~= "hashblock"@.map_values(|c: char| c as u8));
    }
    if !bytes_equal(parts[0].as_slice(), topic.as_slice()) {
        return None;
    }
    let body = &parts[1];
    if body.len() != 32 {
        return None;
    }
    let mut block_hash = [0u8; 32];
    let mut i: usize = 0;
    while i < 32
        invariant
            i <= 32,
            body@.len() == 32,
            block_hash@.len() == 32,
            forall|k: int| 0 <= k < i ==> block_hash@[k] == body@[k],
        decreases 32 - i,
    {
        block_hash[i] = body[i];
        i = i + 1;
    }
    assert(block_hash@ =~= body@);
    Some(MempoolEvent::BlockConnected { block_hash, height: 0 })
}

/// The body of a sequence-topic frame: at least two parts, the first being `sequence`.
pub fn sequence_body(parts: &[Vec<u8>]) -> (r: Option<&Vec<u8>>)
    ensures
        (parts@.len() >= 2 && parts@[0]@ == "sequence"@.map_values(|c: char| c as u8)) ==> r.is_some() && r.unwrap()@
            == parts@[1]@,
        !(parts@.len() >= 2 && parts@[0]@ == "sequence"@.map_values(|c: char| c as u8)) ==> r.is_none(),
{
    if parts.len() < 2 {
        return None;
    }
    let topic: [u8; 8] = [115, 101, 113, 117, 101, 110, 99, 101];
    proof {
        reveal_strlit("sequence");
        assert(topic@ =~= "sequence"@.map_values(|c: char| c as u8));
    }
    if !bytes_equal(parts[0].as_slice(), topic.as_slice()) {
        return None;
    }
    Some(&parts[1])
}

} // verus!
