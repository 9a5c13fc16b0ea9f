use nft_loader::decode::SEMI_BATCH_SIG;
use nft_loader::decode::SEMI_SINGLE_SIG;
use nft_loader::decode::TRANSFER_SIG;
use nft_loader::hex::hex_decode;
use nft_loader::hex::hex_encode;
use nft_loader::model::Block;
use nft_loader::model::BlockHeader;
use nft_loader::model::ExtractError;
use nft_loader::model::Log;
use nft_loader::model::Receipt;
use nft_loader::model::Schema;
use nft_loader::model::Timestamp;
use nft_loader::model::schema_to_string;
use nft_loader::normalize::transform_block_to_transfers;

fn word(n: u64) -> Vec<u8> {
    let mut w = vec![0u8; 32];
    w[24..].copy_from_slice(&n.to_be_bytes());
    w
}

fn addr_topic(last: u8) -> Vec<u8> {
    let mut t = vec![0u8; 32];
    t[31] = last;
    t
}

fn addr20(last: u8) -> Vec<u8> {
    let mut a = vec![0u8; 20];
    a[19] = last;
    a
}

fn single_asset_log(ordinal: u32, from: u8, to: u8, value: u64) -> Log {
    Log {
        address: vec![0xaa; 20],
        block_index: ordinal,
        topics: vec![TRANSFER_SIG.to_vec(), addr_topic(from), addr_topic(to)],
        data: word(value),
    }
}

fn non_fungible_log(ordinal: u32, from: u8, to: u8, token_id: u64) -> Log {
    Log {
        address: vec![0xaa; 20],
        block_index: ordinal,
        topics: vec![TRANSFER_SIG.to_vec(), addr_topic(from), addr_topic(to), word(token_id)],
        data: Vec::new(),
    }
}

fn semi_single_log(ordinal: u32, operator: u8, from: u8, to: u8, id: u64, value: u64) -> Log {
    let mut data = word(id);
    data.extend_from_slice(&word(value));
    Log {
        address: vec![0xaa; 20],
        block_index: ordinal,
        topics: vec![
            SEMI_SINGLE_SIG.to_vec(),
            addr_topic(operator),
            addr_topic(from),
            addr_topic(to),
        ],
        data,
    }
}

fn batch_data(ids: &[u64], values: &[u64]) -> Vec<u8> {
    let mut d = word(64);
    d.extend_from_slice(&word(96 + 32 * ids.len() as u64));
    d.extend_from_slice(&word(ids.len() as u64));
    for id in ids {
        d.extend_from_slice(&word(*id));
    }
    d.extend_from_slice(&word(values.len() as u64));
    for v in values {
        d.extend_from_slice(&word(*v));
    }
    d
}

fn semi_batch_log(ordinal: u32, operator: u8, from: u8, to: u8, ids: &[u64], values: &[u64]) -> Log {
    Log {
        address: vec![0xaa; 20],
        block_index: ordinal,
        topics: vec![
            SEMI_BATCH_SIG.to_vec(),
            addr_topic(operator),
            addr_topic(from),
            addr_topic(to),
        ],
        data: batch_data(ids, values),
    }
}

fn block_with(logs: Vec<Log>) -> Block {
    Block {
        number: 41,
        header: Some(BlockHeader { timestamp: Some(Timestamp { seconds: 1700000000, nanos: 5 }) }),
        receipts: vec![Receipt { tx_hash: vec![0xbb; 32], logs }],
    }
}

#[test]
fn single_asset_transfer_normalizes() {
    let blk = block_with(vec![single_asset_log(3, 1, 2, 1000)]);
    let (transfers, diags) = transform_block_to_transfers(&blk).unwrap();
    assert_eq!(transfers.len(), 1);
    assert!(diags.is_empty());
    let t = &transfers[0];
    assert_eq!(t.schema, Schema::SingleAsset);
    assert_eq!(t.quantity.as_str(), "1000");
    assert!(t.token_id.is_empty());
    assert!(t.operator_address.is_empty());
    assert_eq!(t.from_address, addr20(1));
    assert_eq!(t.to_address, addr20(2));
    assert_eq!(t.contract_address, vec![0xaa; 20]);
    assert_eq!(t.tx_hash, vec![0xbb; 32]);
    assert_eq!(t.block_number, 41);
    assert_eq!(t.ordinal, 3);
    assert_eq!(t.timestamp, Timestamp { seconds: 1700000000, nanos: 5 });
}

#[test]
fn non_fungible_token_id_big_endian() {
    let blk = block_with(vec![non_fungible_log(0, 1, 2, 7)]);
    let (transfers, _) = transform_block_to_transfers(&blk).unwrap();
    assert_eq!(transfers.len(), 1);
    let t = &transfers[0];
    assert_eq!(t.schema, Schema::NonFungible);
    assert_eq!(t.token_id, vec![0x07]);
    assert_eq!(t.quantity.as_str(), "1");
}

#[test]
fn non_fungible_token_id_zero_keeps_one_byte() {
    let blk = block_with(vec![non_fungible_log(0, 1, 2, 0)]);
    let (transfers, _) = transform_block_to_transfers(&blk).unwrap();
    assert_eq!(transfers[0].token_id, vec![0x00]);
}

#[test]
fn semi_fungible_single_transfer_carries_operator() {
    let blk = block_with(vec![semi_single_log(2, 9, 1, 2, 5, 6)]);
    let (transfers, _) = transform_block_to_transfers(&blk).unwrap();
    assert_eq!(transfers.len(), 1);
    let t = &transfers[0];
    assert_eq!(t.schema, Schema::SemiFungible);
    assert_eq!(t.operator_address, addr20(9));
    assert_eq!(t.from_address, addr20(1));
    assert_eq!(t.to_address, addr20(2));
    assert_eq!(t.token_id, vec![0x05]);
    assert_eq!(t.quantity.as_str(), "6");
}

#[test]
fn semi_fungible_batch_emits_one_record_per_index() {
    let blk = block_with(vec![semi_batch_log(4, 9, 1, 2, &[1, 2], &[10, 20])]);
    let (transfers, diags) = transform_block_to_transfers(&blk).unwrap();
    assert_eq!(transfers.len(), 2);
    assert!(diags.is_empty());
    assert_eq!(transfers[0].token_id, vec![0x01]);
    assert_eq!(transfers[0].quantity.as_str(), "10");
    assert_eq!(transfers[1].token_id, vec![0x02]);
    assert_eq!(transfers[1].quantity.as_str(), "20");
    assert_eq!(transfers[0].ordinal, 4);
    assert_eq!(transfers[1].ordinal, 4);
    assert_eq!(transfers[0].operator_address, addr20(9));
}

#[test]
fn batch_mismatch_drops_log_and_continues() {
    let blk = block_with(vec![
        semi_batch_log(1, 9, 1, 2, &[1, 2, 3], &[10, 20]),
        single_asset_log(2, 3, 4, 50),
    ]);
    let (transfers, diags) = transform_block_to_transfers(&blk).unwrap();
    assert_eq!(transfers.len(), 1);
    assert_eq!(transfers[0].schema, Schema::SingleAsset);
    assert_eq!(transfers[0].quantity.as_str(), "50");
    assert_eq!(diags.len(), 1);
    assert_eq!(diags[0].ids_len, 3);
    assert_eq!(diags[0].values_len, 2);
    assert_eq!(diags[0].ordinal, 1);
    assert_eq!(diags[0].tx_hash, vec![0xbb; 32]);
}

#[test]
fn unmatched_log_is_ignored() {
    let mut log = single_asset_log(0, 1, 2, 5);
    log.topics[0] = vec![0x11; 32];
    let blk = block_with(vec![log]);
    let (transfers, diags) = transform_block_to_transfers(&blk).unwrap();
    assert!(transfers.is_empty());
    assert!(diags.is_empty());
}

#[test]
fn quantity_zero_renders_as_zero() {
    let blk = block_with(vec![single_asset_log(0, 1, 2, 0)]);
    let (transfers, _) = transform_block_to_transfers(&blk).unwrap();
    assert_eq!(transfers[0].quantity.as_str(), "0");
}

#[test]
fn quantity_multi_byte_value_renders_decimally() {
    let mut log = single_asset_log(0, 1, 2, 0);
    let mut data = vec![0u8; 32];
    data[30] = 0x01;
    data[31] = 0x00;
    log.data = data;
    let blk = block_with(vec![log]);
    let (transfers, _) = transform_block_to_transfers(&blk).unwrap();
    assert_eq!(transfers[0].quantity.as_str(), "256");
}

#[test]
fn missing_header_is_fatal() {
    let blk = Block { number: 1, header: None, receipts: Vec::new() };
    let r = transform_block_to_transfers(&blk);
    assert_eq!(r.unwrap_err(), ExtractError::MissingHeader);
}

#[test]
fn missing_timestamp_is_fatal() {
    let blk = Block {
        number: 1,
        header: Some(BlockHeader { timestamp: None }),
        receipts: Vec::new(),
    };
    let r = transform_block_to_transfers(&blk);
    assert_eq!(r.unwrap_err(), ExtractError::MissingTimestamp);
}

#[test]
fn hex_round_trip_recovers_bytes() {
    let samples: Vec<Vec<u8>> = vec![
        Vec::new(),
        vec![0x00],
        vec![0xff],
        vec![0x00, 0xff, 0x10, 0xab],
        (0u8..=255).collect(),
    ];
    for b in samples {
        let encoded = hex_encode(&b);
        let decoded = hex_decode(encoded.as_str()).unwrap();
        assert_eq!(decoded, b);
    }
}

#[test]
fn hex_encode_is_lowercase_two_digits_per_byte() {
    assert_eq!(hex_encode(&vec![0xde, 0xad, 0x01]).as_str(), "dead01");
    assert_eq!(hex_encode(&Vec::new()).as_str(), "");
}

#[test]
fn hex_decode_rejects_malformed_input() {
    assert!(hex_decode("abc").is_none());
    assert!(hex_decode("zz").is_none());
    assert!(hex_decode("0g").is_none());
    assert_eq!(hex_decode("").unwrap(), Vec::<u8>::new());
}

#[test]
fn schema_tags_name_the_token_standards() {
    assert_eq!(schema_to_string(Schema::SingleAsset).as_str(), "erc20");
    assert_eq!(schema_to_string(Schema::NonFungible).as_str(), "erc721");
    assert_eq!(schema_to_string(Schema::SemiFungible).as_str(), "erc1155");
}

#[test]
fn one_record_per_matching_log_across_shapes() {
    let blk = block_with(vec![
        single_asset_log(0, 1, 2, 5),
        non_fungible_log(1, 1, 2, 9),
        semi_single_log(2, 9, 1, 2, 3, 4),
    ]);
    let (transfers, _) = transform_block_to_transfers(&blk).unwrap();
    assert_eq!(transfers.len(), 3);
    assert_eq!(transfers[0].schema, Schema::SingleAsset);
    assert_eq!(transfers[1].schema, Schema::NonFungible);
    assert_eq!(transfers[2].schema, Schema::SemiFungible);
}
