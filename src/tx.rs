use vstd::prelude::*;
use vstd::string::*;

verus! {

/// One input of a decoded transaction.
#[derive(Clone, Copy, Debug)]
pub struct TxInput {
    /// Txid of the spent output, in internal byte order.
    pub prev_txid: [u8; 32],
    pub prev_vout: u32,
    pub sequence: u32,
}

/// One output of a decoded transaction.
#[derive(Clone, Debug)]
pub struct TxOutput {
    pub value_sats: u64,
    pub script: Vec<u8>,
}

/// A consensus-decoded transaction, held as plain values.
#[derive(Clone, Debug)]
pub struct ParsedTx {
    /// Txid in internal byte order.
    pub txid: [u8; 32],
    pub version: i32,
    pub lock_time: u32,
    pub inputs: Vec<TxInput>,
    pub outputs: Vec<TxOutput>,
    /// Weight in weight units.
    pub weight: u64,
}

impl ParsedTx {
    /// The values of the outputs, in order.
    pub open spec fn output_values(&self) -> Seq<u64> {
        self.outputs@.map_values(|o: TxOutput| o.value_sats)
    }
}

/// Whether `raw` is the complete consensus encoding of a transaction.
pub uninterp spec fn decodes_as_tx(raw: Seq<u8>) -> bool;

/// Txid (internal byte order) of the transaction encoded by `raw`.
pub uninterp spec fn decoded_txid(raw: Seq<u8>) -> Seq<u8>;

/// Weight, in weight units, of the transaction encoded by `raw`.
pub uninterp spec fn decoded_weight(raw: Seq<u8>) -> u64;

/// Version of the transaction encoded by `raw`.
pub uninterp spec fn decoded_version(raw: Seq<u8>) -> i32;

/// Consensus lock time of the transaction encoded by `raw`.
pub uninterp spec fn decoded_lock_time(raw: Seq<u8>) -> u32;

/// Inputs (previous txid, previous output index, sequence) of the transaction encoded by `raw`.
pub uninterp spec fn decoded_inputs(raw: Seq<u8>) -> Seq<(Seq<u8>, u32, u32)>;

/// Outputs (value in satoshis, script bytes) of the transaction encoded by `raw`.
pub uninterp spec fn decoded_outputs(raw: Seq<u8>) -> Seq<(u64, Seq<u8>)>;

pub open spec fn input_view(i: TxInput) -> (Seq<u8>, u32, u32) {
    (i.prev_txid@, i.prev_vout, i.sequence)
}

pub open spec fn output_view(o: TxOutput) -> (u64, Seq<u8>) {
    (o.value_sats, o.script@)
}

/// Relies on bitcoin::consensus::deserialize::<Transaction>, which fails
/// unless the bytes are exactly one encoded transaction; the decoded
/// transaction's fields are copied out as plain values, with its txid from
/// Transaction::compute_txid and its weight from Transaction::weight.
#[verifier::external_body]
fn decode_transaction(raw: &[u8]) -> (r: Option<ParsedTx>)
    ensures
        r.is_some() == decodes_as_tx(raw@),
        r matches Some(t) ==> {
            &&& t.txid@ == decoded_txid(raw@)
            &&& t.weight == decoded_weight(raw@)
            &&& t.version == decoded_version(raw@)
            &&& t.lock_time == decoded_lock_time(raw@)
            &&& t.inputs@.map_values(|i: TxInput| input_view(i)) == decoded_inputs(raw@)
            &&& t.outputs@.map_values(|o: TxOutput| output_view(o)) == decoded_outputs(raw@)
        },
{
    let t: bitcoin::Transaction = bitcoin::consensus::deserialize(raw).ok()?;
    let inputs = t.input.iter().map(|i| TxInput {
        prev_txid: bitcoin::hashes::Hash::to_byte_array(i.previous_output.txid),
        prev_vout: i.previous_output.vout,
        sequence: i.sequence.0,
    }).collect();
    let outputs = t.output.iter().map(|o| TxOutput { value_sats: o.value.to_sat(), script: o.script_pubkey.to_bytes() }).collect();
    let txid = bitcoin::hashes::Hash::to_byte_array(t.compute_txid());
    Some(ParsedTx { txid, version: t.version.0, lock_time: t.lock_time.to_consensus_u32(), inputs, outputs, weight: t.weight().to_wu() })
}

/// Decode a raw transaction; `None` when the bytes are not one encoded transaction.
pub fn parse_raw_tx(raw: &[u8]) -> (r: Option<ParsedTx>)
    ensures
        r.is_some() == decodes_as_tx(raw@),
        r matches Some(t) ==> {
            &&& t.txid@ == decoded_txid(raw@)
            &&& t.weight == decoded_weight(raw@)
            &&& t.version == decoded_version(raw@)
            &&& t.lock_time == decoded_lock_time(raw@)
            &&& t.inputs@.map_values(|i: TxInput| input_view(i)) == decoded_inputs(raw@)
            &&& t.outputs@.map_values(|o: TxOutput| output_view(o)) == decoded_outputs(raw@)
        },
{
    decode_transaction(raw)
}

/// Whether some input signals replace-by-fee (sequence below 0xFFFFFFFE).
pub open spec fn signals_rbf(inputs: Seq<TxInput>) -> bool {
    exists|i: int| 0 <= i < inputs.len() && (#[trigger] inputs[i]).sequence < 0xFFFF_FFFE
}

/// Check if any input signals RBF (sequence < 0xFFFFFFFE).
pub fn is_rbf_signaling(tx: &ParsedTx) -> (r: bool)
    ensures
        r == signals_rbf(tx.inputs@),
{
    let mut i: usize = 0;
    while i < tx.inputs.len()
        invariant
            i <= tx.inputs.len(),
            forall|j: int| 0 <= j < i ==> (#[trigger] tx.inputs@[j]).sequence >= 0xFFFF_FFFE,
        decreases tx.inputs.len() - i,
    {
        if tx.inputs[i].sequence < 0xFFFF_FFFE {
            return true;
        }
        i = i + 1;
    }
    false
}

/// Virtual size: the weight divided by 4, rounded up.
pub open spec fn vsize_of(weight: u64) -> int {
    (weight as int + 3) / 4
}

/// Calculate the virtual size (weight / 4, rounded up).
pub fn vsize(tx: &ParsedTx) -> (r: usize)
    requires
        vsize_of(tx.weight) <= usize::MAX,
    ensures
        r == vsize_of(tx.weight),
{
    let q = tx.weight / 4;
    let v: u64 = if tx.weight % 4 == 0 { q } else { q + 1 };
    v as usize
}

/// Lower-case hex digit of a nibble.
pub open spec fn hex_char(n: u8) -> char {
    if n < 10 {
        (('0' as u8) + n) as char
    } else {
        (('a' as u8) + (n - 10)) as char
    }
}

/// Lower-case hex of `b`, two digits per byte.
pub open spec fn hex_of(b: Seq<u8>) -> Seq<char>
    decreases b.len(),
{
    if b.len() == 0 {
        Seq::empty()
    } else {
        hex_of(b.drop_last()) + seq![hex_char(b.last() / 16), hex_char(b.last() % 16)]
    }
}

/// The bytes in reverse order.
pub open spec fn reversed(b: Seq<u8>) -> Seq<u8> {
    Seq::new(b.len(), |i: int| b[b.len() - 1 - i])
}

fn hex_digit(n: u8) -> (r: &'static str)
    requires
        n < 16,
    ensures
        r@ == seq![hex_char(n)],
{
    proof {
        reveal_strlit("0");
        reveal_strlit("1");
        reveal_strlit("2");
        reveal_strlit("3");
        reveal_strlit("4");
        reveal_strlit("5");
        reveal_strlit("6");
        reveal_strlit("7");
        reveal_strlit("8");
        reveal_strlit("9");
        reveal_strlit("a");
        reveal_strlit("b");
        reveal_strlit("c");
        reveal_strlit("d");
        reveal_strlit("e");
        reveal_strlit("f");
    }
    let r = match n {
        0 => "0",
        1 => "1",
        2 => "2",
        3 => "3",
        4 => "4",
        5 => "5",
        6 => "6",
        7 => "7",
        8 => "8",
        9 => "9",
        10 => "a",
        11 => "b",
        12 => "c",
        13 => "d",
        14 => "e",
        _ => "f",
    };
    assert(r@ =~= seq![hex_char(n)]);
    r
}

/// Hex of a 32-byte hash in display order (bytes reversed), as bitcoin shows txids.
pub fn display_hex(hash: &[u8; 32]) -> (r: String)
    ensures
        r@ == hex_of(reversed(hash@)),
{
    let mut s = String::new();
    let mut i: usize = 0;
    while i < 32
        invariant
            i <= 32,
            hash@.len() == 32,
            s@ == hex_of(reversed(hash@).subrange(0, i as int)),
        decreases 32 - i,
    {
        let b = hash[31 - i];
        let ghost rv = reversed(hash@);
        proof {
            assert(rv.subrange(0, i as int + 1).drop_last() =~= rv.subrange(0, i as int));
            assert(rv.subrange(0, i as int + 1).last() == b);
        }
        s = s.concat(hex_digit(b / 16));
        s = s.concat(hex_digit(b % 16));
        proof {
            assert(s@ =~= hex_of(rv.subrange(0, i as int + 1)));
        }
        i = i + 1;
    }
    proof {
        assert(reversed(hash@).subrange(0, 32) =~= reversed(hash@));
    }
    s
}

/// The transaction's txid as hex in display order.
pub fn txid_hex(tx: &ParsedTx) -> (r: String)
    ensures
        r@ == hex_of(reversed(tx.txid@)),
{
    display_hex(&tx.txid)
}

/// The mainnet address that an output script pays to, if it has one.
pub uninterp spec fn mainnet_address(script: Seq<u8>) -> Option<Seq<char>>;

/// The mainnet addresses that the outputs pay to, in order (`None` where none).
pub open spec fn output_addresses(tx: ParsedTx) -> Seq<Option<Seq<char>>> {
    tx.outputs@.map_values(|o: TxOutput| mainnet_address(o.script@))
}

/// Relies on bitcoin::Address::from_script with Network::Bitcoin (the address
/// that a P2PKH, P2SH or witness-program script pays to; an error for other
/// scripts) and on Address's Display for its text.
#[verifier::external_body]
pub(crate) fn script_address(script: &[u8]) -> (r: Option<String>)
    ensures
        match r {
            Some(a) => mainnet_address(script@) == Some(a@),
            None => mainnet_address(script@).is_none(),
        },
{
    bitcoin::Address::from_script(bitcoin::Script::from_bytes(script), bitcoin::Network::Bitcoin).ok().map(|a| a.to_string())
}

} // verus!
