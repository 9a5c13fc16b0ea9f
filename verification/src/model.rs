//! Shared value types: normalized transfer records, block input structures,
//! and the error taxonomy.

use vstd::prelude::*;

verus! {

use crate::numeric::dec_rep;
use crate::numeric::dec_digits;
use crate::hex::hex_char_val;
use vstd::string::StringExecFns;

/// A block timestamp, seconds and nanoseconds since the epoch.
#[derive(Clone, Copy, PartialEq, Eq, Structural, Debug)]
pub struct Timestamp {
    pub seconds: i64,
    pub nanos: i32,
}

/// The token standard that produced a transfer record.
#[derive(Clone, Copy, PartialEq, Eq, Structural, Debug)]
pub enum Schema {
    SingleAsset,
    NonFungible,
    SemiFungible,
}

/// Tag rendered into the schema column: the conventional name of the token
/// standard on the originating chain.
pub open spec fn spec_schema_str(s: Schema) -> Seq<char> {
    match s {
        Schema::SingleAsset => "erc20"@,
        Schema::NonFungible => "erc721"@,
        Schema::SemiFungible => "erc1155"@,
    }
}

/// Renders the schema tag written to the destination table.
pub fn schema_to_string(schema: Schema) -> (r: String)
    ensures
        r@ == spec_schema_str(schema),
{
    match schema {
        Schema::SingleAsset => String::from_str("erc20"),
        Schema::NonFungible => String::from_str("erc721"),
        Schema::SemiFungible => String::from_str("erc1155"),
    }
}

/// The element views of a sequence of byte vectors.
pub open spec fn views_of(s: Seq<Vec<u8>>) -> Seq<Seq<u8>> {
    s.map_values(|v: Vec<u8>| v@)
}

/// Mathematical image of a normalized transfer record.
pub ghost struct TransferV {
    pub schema: Schema,
    pub contract_address: Seq<u8>,
    pub from_address: Seq<u8>,
    pub to_address: Seq<u8>,
    pub operator_address: Seq<u8>,
    pub token_id: Seq<u8>,
    pub quantity: Seq<char>,
    pub tx_hash: Seq<u8>,
    pub block_number: u64,
    pub ordinal: u64,
    pub timestamp: Timestamp,
}

/// The unified record produced by extraction, one per decoded transfer.
#[derive(Debug)]
pub struct NormalizedTransfer {
    pub schema: Schema,
    pub contract_address: Vec<u8>,
    pub from_address: Vec<u8>,
    pub to_address: Vec<u8>,
    pub operator_address: Vec<u8>,
    pub token_id: Vec<u8>,
    pub quantity: String,
    pub tx_hash: Vec<u8>,
    pub block_number: u64,
    pub ordinal: u64,
    pub timestamp: Timestamp,
}

impl View for NormalizedTransfer {
    type V = TransferV;

    open spec fn view(&self) -> TransferV {
        TransferV {
            schema: self.schema,
            contract_address: self.contract_address@,
            from_address: self.from_address@,
            to_address: self.to_address@,
            operator_address: self.operator_address@,
            token_id: self.token_id@,
            quantity: self.quantity@,
            tx_hash: self.tx_hash@,
            block_number: self.block_number,
            ordinal: self.ordinal,
            timestamp: self.timestamp,
        }
    }
}

/// A well-formed decimal quantity: at least one digit, digits only, and no
/// leading zero unless the quantity is exactly `"0"`.
pub open spec fn dec_seq_wf(q: Seq<char>) -> bool {
    &&& q.len() > 0
    &&& forall|i: int| 0 <= i < q.len() ==> hex_char_val(#[trigger] q[i]) < 10
    &&& (q.len() > 1 ==> q[0] != '0')
}

/// Record invariant: the token id is absent exactly for the fungible
/// standard, an operator occurs only on semi-fungible transfers, and the
/// quantity is a well-formed decimal numeral.
pub open spec fn wf_transfer(t: TransferV) -> bool {
    &&& (t.schema is SingleAsset <==> t.token_id.len() == 0)
    &&& (!(t.schema is SemiFungible) ==> t.operator_address.len() == 0)
    &&& dec_seq_wf(t.quantity)
}

/// The canonical decimal rendering is a well-formed quantity numeral.
pub proof fn lemma_dec_rep_wf(n: nat)
    ensures
        dec_seq_wf(dec_rep(n)),
{
    if n == 0 {
    } else {
        lemma_dec_digits_wf(n);
    }
}

proof fn lemma_dec_digits_wf(n: nat)
    requires
        n > 0,
    ensures
        dec_digits(n).len() > 0,
        forall|i: int| 0 <= i < dec_digits(n).len() ==> hex_char_val(#[trigger] dec_digits(n)[i])
            < 10,
        dec_digits(n)[0] != '0',
    decreases n,
{
    if n < 10 {
        assert(n / 10 == 0 && n % 10 == n);
        assert(dec_digits(0) =~= Seq::<char>::empty());
        assert(dec_digits(n) =~= seq![crate::numeric::dec_digit(n)]);
    } else {
        lemma_dec_digits_wf(n / 10);
        assert forall|i: int| 0 <= i < dec_digits(n).len() implies hex_char_val(
            #[trigger] dec_digits(n)[i],
        ) < 10 by {
            if i < dec_digits(n / 10).len() {
                assert(dec_digits(n)[i] == dec_digits(n / 10)[i]);
            }
        }
        assert(dec_digits(n)[0] == dec_digits(n / 10)[0]);
    }
}

/// One event log: emitting address, position in the block, raw topics and
/// payload.
#[derive(Debug)]
pub struct Log {
    pub address: Vec<u8>,
    pub block_index: u32,
    pub topics: Vec<Vec<u8>>,
    pub data: Vec<u8>,
}

/// Mathematical image of a log.
pub ghost struct LogV {
    pub address: Seq<u8>,
    pub block_index: u32,
    pub topics: Seq<Seq<u8>>,
    pub data: Seq<u8>,
}

impl View for Log {
    type V = LogV;

    open spec fn view(&self) -> LogV {
        LogV {
            address: self.address@,
            block_index: self.block_index,
            topics: self.topics@.map_values(|t: Vec<u8>| t@),
            data: self.data@,
        }
    }
}

/// One transaction receipt: the transaction hash and its ordered logs.
#[derive(Debug)]
pub struct Receipt {
    pub tx_hash: Vec<u8>,
    pub logs: Vec<Log>,
}

/// Mathematical image of a receipt.
pub ghost struct ReceiptV {
    pub tx_hash: Seq<u8>,
    pub logs: Seq<LogV>,
}

impl View for Receipt {
    type V = ReceiptV;

    open spec fn view(&self) -> ReceiptV {
        ReceiptV { tx_hash: self.tx_hash@, logs: self.logs@.map_values(|l: Log| l@) }
    }
}

/// A block header; the timestamp is mandatory for processing but may be
/// absent in malformed input.
#[derive(Clone, Copy, PartialEq, Eq, Structural, Debug)]
pub struct BlockHeader {
    pub timestamp: Option<Timestamp>,
}

/// One block of execution data: number, header, and ordered receipts.
#[derive(Debug)]
pub struct Block {
    pub number: u64,
    pub header: Option<BlockHeader>,
    pub receipts: Vec<Receipt>,
}

/// Mathematical image of a block.
pub ghost struct BlockV {
    pub number: u64,
    pub header: Option<BlockHeader>,
    pub receipts: Seq<ReceiptV>,
}

impl View for Block {
    type V = BlockV;

    open spec fn view(&self) -> BlockV {
        BlockV {
            number: self.number,
            header: self.header,
            receipts: self.receipts@.map_values(|r: Receipt| r@),
        }
    }
}

/// A diagnostic recorded for a dropped semi-fungible batch whose id and
/// value sequences disagree in length.
#[derive(Debug)]
pub struct Diagnostic {
    pub tx_hash: Vec<u8>,
    pub ordinal: u64,
    pub ids_len: usize,
    pub values_len: usize,
}

/// Mathematical image of a diagnostic.
pub ghost struct DiagnosticV {
    pub tx_hash: Seq<u8>,
    pub ordinal: u64,
    pub ids_len: nat,
    pub values_len: nat,
}

impl View for Diagnostic {
    type V = DiagnosticV;

    open spec fn view(&self) -> DiagnosticV {
        DiagnosticV {
            tx_hash: self.tx_hash@,
            ordinal: self.ordinal,
            ids_len: self.ids_len as nat,
            values_len: self.values_len as nat,
        }
    }
}

/// A mandatorily expected upstream field is missing: the block is malformed
/// at the source and processing cannot proceed.
#[derive(Clone, Copy, PartialEq, Eq, Structural, Debug)]
pub enum ExtractError {
    MissingHeader,
    MissingTimestamp,
}

/// A store write violated the monotonic ordinal precondition.
#[derive(Clone, Copy, PartialEq, Eq, Structural, Debug)]
pub enum StoreError {
    OrdinalRegression,
}

/// A delta carried an operation the projector does not implement.
#[derive(Clone, Copy, PartialEq, Eq, Structural, Debug)]
pub enum ProjectError {
    DeleteUnsupported,
}

/// Copies a byte vector; the copy denotes the same sequence.
pub fn clone_bytes(v: &Vec<u8>) -> (r: Vec<u8>)
    ensures
        r@ == v@,
{
    let r = v.clone();
    proof {
        assert(r@ =~= v@);
    }
    r
}

/// Copies a transfer record; the copy denotes the same record.
pub fn clone_transfer(t: &NormalizedTransfer) -> (r: NormalizedTransfer)
    ensures
        r@ == t@,
{
    NormalizedTransfer {
        schema: t.schema,
        contract_address: clone_bytes(&t.contract_address),
        from_address: clone_bytes(&t.from_address),
        to_address: clone_bytes(&t.to_address),
        operator_address: clone_bytes(&t.operator_address),
        token_id: clone_bytes(&t.token_id),
        quantity: t.quantity.clone(),
        tx_hash: clone_bytes(&t.tx_hash),
        block_number: t.block_number,
        ordinal: t.ordinal,
        timestamp: t.timestamp,
    }
}

} // verus!
