use nft_loader::decode::TRANSFER_SIG;
use nft_loader::model::Block;
use nft_loader::model::BlockHeader;
use nft_loader::model::Log;
use nft_loader::model::NormalizedTransfer;
use nft_loader::model::ProjectError;
use nft_loader::model::Receipt;
use nft_loader::model::Schema;
use nft_loader::model::StoreError;
use nft_loader::model::Timestamp;
use nft_loader::pipeline::PipelineError;
use nft_loader::pipeline::process_block;
use nft_loader::pipeline::unique_key;
use nft_loader::project::ColumnValue;
use nft_loader::project::project_delta;
use nft_loader::store::AppendStore;
use nft_loader::store::Operation;
use nft_loader::store::StoreDelta;

fn transfer(ordinal: u64, to_last: u8, quantity: &str) -> NormalizedTransfer {
    NormalizedTransfer {
        schema: Schema::NonFungible,
        contract_address: vec![0x0a, 0x0b],
        from_address: vec![0x01],
        to_address: vec![to_last],
        operator_address: Vec::new(),
        token_id: vec![0x07],
        quantity: quantity.to_string(),
        tx_hash: vec![0xcc, 0xdd],
        block_number: 41,
        ordinal,
        timestamp: Timestamp { seconds: 1700000000, nanos: 0 },
    }
}

fn word(n: u64) -> Vec<u8> {
    let mut w = vec![0u8; 32];
    w[24..].copy_from_slice(&n.to_be_bytes());
    w
}

fn addr_topic(last: u8) -> Vec<u8> {
    let mut t = vec![0u8; 32];
    t[31] = last;
    t
}

fn single_asset_log(ordinal: u32, from: u8, to: u8, value: u64) -> Log {
    Log {
        address: vec![0xaa; 20],
        block_index: ordinal,
        topics: vec![TRANSFER_SIG.to_vec(), addr_topic(from), addr_topic(to)],
        data: word(value),
    }
}

fn block_with(logs: Vec<Log>) -> Block {
    Block {
        number: 41,
        header: Some(BlockHeader { timestamp: Some(Timestamp { seconds: 1700000000, nanos: 5 }) }),
        receipts: vec![Receipt { tx_hash: vec![0xbb; 32], logs }],
    }
}

fn text_of(v: &ColumnValue) -> String {
    match v {
        ColumnValue::Text(s) => s.clone(),
        _ => panic!("expected a text column"),
    }
}

#[test]
fn unique_key_joins_hex_fields_and_ordinal() {
    let t = transfer(12, 0x02, "1");
    let key = unique_key(&t);
    assert_eq!(key.as_str(), "0a0b-07-01-02-ccdd-12");
}

#[test]
fn set_if_not_exists_is_first_write_wins() {
    let mut store = AppendStore::new();
    let t1 = transfer(1, 2, "1");
    let t2 = transfer(2, 9, "1");
    let key = unique_key(&t1);
    assert!(store.set_if_not_exists(1, key.clone(), t1).is_ok());
    assert!(store.set_if_not_exists(2, key.clone(), t2).is_ok());
    assert_eq!(store.len(), 1);
    let deltas = store.deltas();
    assert_eq!(deltas.len(), 1);
    assert_eq!(deltas[0].operation, Operation::Create);
    assert!(deltas[0].old_value.is_none());
    assert_eq!(deltas[0].new_value.to_address, vec![2u8]);
}

#[test]
fn rerunning_an_identical_pass_changes_nothing() {
    let mut store = AppendStore::new();
    let writes: Vec<(String, NormalizedTransfer)> = vec![
        (unique_key(&transfer(1, 2, "1")), transfer(1, 2, "1")),
        (unique_key(&transfer(2, 3, "1")), transfer(2, 3, "1")),
    ];
    assert!(store.set_if_not_exists(1, writes[0].0.clone(), transfer(1, 2, "1")).is_ok());
    assert!(store.set_if_not_exists(2, writes[1].0.clone(), transfer(2, 3, "1")).is_ok());
    assert_eq!(store.len(), 2);
    assert_eq!(store.deltas().len(), 2);
    store.begin_pass();
    assert!(store.set_if_not_exists(1, writes[0].0.clone(), transfer(1, 2, "1")).is_ok());
    assert!(store.set_if_not_exists(2, writes[1].0.clone(), transfer(2, 3, "1")).is_ok());
    assert_eq!(store.len(), 2);
    assert_eq!(store.deltas().len(), 0);
}

#[test]
fn strictly_increasing_ordinals_are_accepted() {
    let mut store = AppendStore::new();
    for ord in [1u64, 2, 3, 7, 100] {
        let t = transfer(ord, ord as u8, "1");
        let key = unique_key(&t);
        assert!(store.set_if_not_exists(ord, key, t).is_ok());
    }
    assert_eq!(store.len(), 5);
}

#[test]
fn ordinal_regression_is_fatal_and_mutates_nothing() {
    let mut store = AppendStore::new();
    let t5 = transfer(5, 1, "1");
    let t3 = transfer(3, 2, "1");
    let k5 = unique_key(&t5);
    let k3 = unique_key(&t3);
    assert!(store.set_if_not_exists(5, k5, t5).is_ok());
    let r = store.set_if_not_exists(3, k3, t3);
    assert_eq!(r.unwrap_err(), StoreError::OrdinalRegression);
    assert_eq!(store.len(), 1);
    assert_eq!(store.deltas().len(), 1);
}

#[test]
fn pipeline_ordinal_regression_leaves_store_untouched() {
    let mut store = AppendStore::new();
    let blk = block_with(vec![single_asset_log(5, 1, 2, 10), single_asset_log(3, 3, 4, 20)]);
    let r = process_block(&mut store, &blk);
    assert_eq!(r.unwrap_err(), PipelineError::Store(StoreError::OrdinalRegression));
    assert_eq!(store.len(), 0);
    assert_eq!(store.deltas().len(), 0);
}

#[test]
fn create_projection_has_null_old_sides() {
    let mut store = AppendStore::new();
    let blk = block_with(vec![single_asset_log(3, 1, 2, 1000)]);
    let (changes, diags) = process_block(&mut store, &blk).unwrap();
    assert!(diags.is_empty());
    assert_eq!(changes.len(), 1);
    let c = &changes[0];
    assert_eq!(c.table_name.as_str(), "transfers");
    assert_eq!(c.operation, Operation::Create);
    assert_eq!(c.ordinal, 3);
    assert_eq!(c.fields.len(), 11);
    let names: Vec<&str> = c.fields.iter().map(|f| f.name.as_str()).collect();
    assert_eq!(
        names,
        vec![
            "schema",
            "block_number",
            "from_address",
            "to_address",
            "operator",
            "quantity",
            "token_id",
            "contract_address",
            "tx_hash",
            "ordinal",
            "timestamp",
        ],
    );
    for f in &c.fields {
        assert!(f.old_value.is_none());
    }
    assert_eq!(text_of(&c.fields[0].new_value).as_str(), "erc20");
    assert_eq!(text_of(&c.fields[5].new_value).as_str(), "1000");
    match &c.fields[1].new_value {
        ColumnValue::Unsigned(n) => assert_eq!(*n, 41),
        _ => panic!("block number must be numeric"),
    }
    match &c.fields[10].new_value {
        ColumnValue::Time(ts) => assert_eq!(*ts, Timestamp { seconds: 1700000000, nanos: 5 }),
        _ => panic!("timestamp must be structured"),
    }
}

#[test]
fn update_projection_reports_old_and_new_sides() {
    let mut store = AppendStore::new();
    let before = transfer(1, 0x02, "1");
    let after = transfer(1, 0x09, "1");
    let key = unique_key(&before);
    assert!(store.put(1, key.clone(), before).is_ok());
    assert!(store.put(2, key.clone(), after).is_ok());
    let deltas = store.deltas();
    assert_eq!(deltas.len(), 2);
    assert_eq!(deltas[1].operation, Operation::Update);
    let c = project_delta(&deltas[1]).unwrap();
    assert_eq!(c.operation, Operation::Update);
    assert_eq!(c.fields.len(), 11);
    let to_field = &c.fields[3];
    assert_eq!(to_field.name.as_str(), "to_address");
    assert_eq!(text_of(to_field.old_value.as_ref().unwrap()).as_str(), "02");
    assert_eq!(text_of(&to_field.new_value).as_str(), "09");
    for f in &c.fields {
        assert!(f.old_value.is_some());
    }
    let from_field = &c.fields[2];
    assert_eq!(text_of(from_field.old_value.as_ref().unwrap()).as_str(), "01");
    assert_eq!(text_of(&from_field.new_value).as_str(), "01");
}

#[test]
fn delete_delta_is_unsupported() {
    let d = StoreDelta {
        key: "k".to_string(),
        ordinal: 1,
        operation: Operation::Delete,
        old_value: None,
        new_value: transfer(1, 2, "1"),
    };
    assert_eq!(project_delta(&d).unwrap_err(), ProjectError::DeleteUnsupported);
}

#[test]
fn identical_logs_in_one_block_deduplicate() {
    let mut store = AppendStore::new();
    let blk = block_with(vec![single_asset_log(3, 1, 2, 1000), single_asset_log(3, 1, 2, 1000)]);
    let (changes, _) = process_block(&mut store, &blk).unwrap();
    assert_eq!(changes.len(), 1);
    assert_eq!(store.len(), 1);
}

#[test]
fn empty_block_yields_no_changes() {
    let mut store = AppendStore::new();
    let blk = block_with(Vec::new());
    let (changes, diags) = process_block(&mut store, &blk).unwrap();
    assert!(changes.is_empty());
    assert!(diags.is_empty());
    assert_eq!(store.len(), 0);
}

#[test]
fn repeated_block_yields_no_second_changes() {
    let mut store = AppendStore::new();
    let blk = block_with(vec![single_asset_log(3, 1, 2, 1000)]);
    let (first, _) = process_block(&mut store, &blk).unwrap();
    assert_eq!(first.len(), 1);
    assert_eq!(store.len(), 1);
    let (second, _) = process_block(&mut store, &blk).unwrap();
    assert!(second.is_empty());
    assert_eq!(store.len(), 1);
}
