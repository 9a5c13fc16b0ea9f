//! The delta projector: translates each store delta into one relational
//! change with a fixed, complete set of named columns.
//!
//! Every projection emits the full row image: for a create, each column's
//! old side is null; for an update, each column carries the old and the new
//! value whether or not that column changed.  Binary columns are rendered as
//! lowercase hexadecimal, numeric columns pass through natively, and the
//! timestamp passes through as a structured value.

use vstd::prelude::*;

verus! {

use crate::hex::hex_encode;
use crate::hex::hex_of;
use crate::model::NormalizedTransfer;
use crate::model::ProjectError;
use crate::model::Timestamp;
use crate::model::TransferV;
use crate::model::schema_to_string;
use crate::model::spec_schema_str;
use crate::store::DeltaV;
use crate::store::Operation;
use crate::store::StoreDelta;
use vstd::string::StringExecFns;

/// One projected column value.
#[derive(Debug)]
pub enum ColumnValue {
    Text(String),
    Unsigned(u64),
    Time(Timestamp),
}

/// Mathematical image of a column value.
pub ghost enum ColumnV {
    Text(Seq<char>),
    Unsigned(u64),
    Time(Timestamp),
}

impl View for ColumnValue {
    type V = ColumnV;

    open spec fn view(&self) -> ColumnV {
        match self {
            ColumnValue::Text(s) => ColumnV::Text(s@),
            ColumnValue::Unsigned(n) => ColumnV::Unsigned(*n),
            ColumnValue::Time(t) => ColumnV::Time(*t),
        }
    }
}

/// One column of a relational change: name, old value, new value.
#[derive(Debug)]
pub struct FieldChange {
    pub name: String,
    pub old_value: Option<ColumnValue>,
    pub new_value: ColumnValue,
}

/// Mathematical image of a column change.
pub ghost struct FieldChangeV {
    pub name: Seq<char>,
    pub old_value: Option<ColumnV>,
    pub new_value: ColumnV,
}

impl View for FieldChange {
    type V = FieldChangeV;

    open spec fn view(&self) -> FieldChangeV {
        FieldChangeV {
            name: self.name@,
            old_value: match &self.old_value {
                None => None,
                Some(v) => Some(v@),
            },
            new_value: self.new_value@,
        }
    }
}

/// One emitted change to the destination table.
#[derive(Debug)]
pub struct RelationalChange {
    pub table_name: String,
    pub key: String,
    pub ordinal: u64,
    pub operation: Operation,
    pub fields: Vec<FieldChange>,
}

/// Mathematical image of a relational change.
pub ghost struct RelationalChangeV {
    pub table_name: Seq<char>,
    pub key: Seq<char>,
    pub ordinal: u64,
    pub operation: Operation,
    pub fields: Seq<FieldChangeV>,
}

/// The element views of a sequence of column changes.
pub open spec fn field_views(s: Seq<FieldChange>) -> Seq<FieldChangeV> {
    s.map_values(|f: FieldChange| f@)
}

impl View for RelationalChange {
    type V = RelationalChangeV;

    open spec fn view(&self) -> RelationalChangeV {
        RelationalChangeV {
            table_name: self.table_name@,
            key: self.key@,
            ordinal: self.ordinal,
            operation: self.operation,
            fields: field_views(self.fields@),
        }
    }
}

/// The projected row of one record: the fixed column list, in its fixed
/// order, with each value rendered for the destination table.
pub open spec fn spec_row(t: TransferV) -> Seq<(Seq<char>, ColumnV)> {
    seq![
        ("schema"@, ColumnV::Text(spec_schema_str(t.schema))),
        ("block_number"@, ColumnV::Unsigned(t.block_number)),
        ("from_address"@, ColumnV::Text(hex_of(t.from_address))),
        ("to_address"@, ColumnV::Text(hex_of(t.to_address))),
        ("operator"@, ColumnV::Text(hex_of(t.operator_address))),
        ("quantity"@, ColumnV::Text(t.quantity)),
        ("token_id"@, ColumnV::Text(hex_of(t.token_id))),
        ("contract_address"@, ColumnV::Text(hex_of(t.contract_address))),
        ("tx_hash"@, ColumnV::Text(hex_of(t.tx_hash))),
        ("ordinal"@, ColumnV::Unsigned(t.ordinal)),
        ("timestamp"@, ColumnV::Time(t.timestamp)),
    ]
}

/// The relational change projected from one delta: the full row image, with
/// old sides taken from the delta's old value when there is one.
pub open spec fn spec_project(d: DeltaV) -> RelationalChangeV {
    RelationalChangeV {
        table_name: "transfers"@,
        key: d.key,
        ordinal: d.ordinal,
        operation: d.operation,
        fields: Seq::new(
            11,
            |i: int|
                FieldChangeV {
                    name: spec_row(d.new_value)[i].0,
                    old_value: match d.old_value {
                        None => None,
                        Some(o) => Some(spec_row(o)[i].1),
                    },
                    new_value: spec_row(d.new_value)[i].1,
                },
        ),
    }
}

/// A delta the projector can be handed: the old value is present exactly
/// for an update.  A delete is admitted as input and rejected as
/// unsupported.
pub open spec fn delta_input_ok(d: DeltaV) -> bool {
    match d.operation {
        Operation::Create => d.old_value is None,
        Operation::Update => d.old_value is Some,
        Operation::Delete => true,
    }
}

fn row_values(t: &NormalizedTransfer) -> (r: Vec<ColumnValue>)
    ensures
        r@.len() == 11,
        forall|i: int| 0 <= i < 11 ==> (#[trigger] r@[i])@ == spec_row(t@)[i].1,
{
    let mut r: Vec<ColumnValue> = Vec::new();
    r.push(ColumnValue::Text(schema_to_string(t.schema)));
    r.push(ColumnValue::Unsigned(t.block_number));
    r.push(ColumnValue::Text(hex_encode(&t.from_address)));
    r.push(ColumnValue::Text(hex_encode(&t.to_address)));
    r.push(ColumnValue::Text(hex_encode(&t.operator_address)));
    r.push(ColumnValue::Text(t.quantity.clone()));
    r.push(ColumnValue::Text(hex_encode(&t.token_id)));
    r.push(ColumnValue::Text(hex_encode(&t.contract_address)));
    r.push(ColumnValue::Text(hex_encode(&t.tx_hash)));
    r.push(ColumnValue::Unsigned(t.ordinal));
    r.push(ColumnValue::Time(t.timestamp));
    r
}

fn field_name(i: usize) -> (r: String)
    requires
        i < 11,
    ensures
        forall|t: TransferV| r@ == (#[trigger] spec_row(t))[i as int].0,
{
    let r: &'static str = match i {
        0 => "schema",
        1 => "block_number",
        2 => "from_address",
        3 => "to_address",
        4 => "operator",
        5 => "quantity",
        6 => "token_id",
        7 => "contract_address",
        8 => "tx_hash",
        9 => "ordinal",
        _ => "timestamp",
    };
    String::from_str(r)
}

/// Projects one delta into a relational change; a delete, which the store
/// never produces, is rejected as unsupported.
pub fn project_delta(d: &StoreDelta) -> (r: Result<RelationalChange, ProjectError>)
    requires
        delta_input_ok(d@),
    ensures
        match r {
            Ok(c) => !(d@.operation is Delete) && c@ == spec_project(d@),
            Err(e) => d@.operation is Delete && e == ProjectError::DeleteUnsupported,
        },
{
    match d.operation {
        Operation::Delete => {
            return Err(ProjectError::DeleteUnsupported);
        },
        _ => {},
    }
    let new_row = row_values(&d.new_value);
    let mut fields: Vec<FieldChange> = Vec::new();
    let mut i: usize = 0;
    match &d.old_value {
        Some(o) => {
            let old_row = row_values(o);
            while i < 11
                invariant
                    i <= 11,
                    new_row@.len() == 11,
                    old_row@.len() == 11,
                    forall|q: int| 0 <= q < 11 ==> (#[trigger] new_row@[q])@ == spec_row(
                        d@.new_value,
                    )[q].1,
                    forall|q: int|
                        0 <= q < 11 ==> (#[trigger] old_row@[q])@ == spec_row(
                            d@.old_value.unwrap(),
                        )[q].1,
                    d@.old_value is Some,
                    fields@.len() == i,
                    forall|q: int|
                        0 <= q < i ==> (#[trigger] fields@[q])@ == spec_project(d@).fields[q],
                decreases 11 - i,
            {
                let name = field_name(i);
                let f = FieldChange {
                    name,
                    old_value: Some(clone_column(&old_row[i])),
                    new_value: clone_column(&new_row[i]),
                };
                let ghost fsnap = f;
                fields.push(f);
                proof {
                    assert(fsnap@ == spec_project(d@).fields[i as int]);
                }
                i = i + 1;
            }
        },
        None => {
            while i < 11
                invariant
                    i <= 11,
                    new_row@.len() == 11,
                    forall|q: int| 0 <= q < 11 ==> (#[trigger] new_row@[q])@ == spec_row(
                        d@.new_value,
                    )[q].1,
                    d@.old_value is None,
                    fields@.len() == i,
                    forall|q: int|
                        0 <= q < i ==> (#[trigger] fields@[q])@ == spec_project(d@).fields[q],
                decreases 11 - i,
            {
                let name = field_name(i);
                let f = FieldChange {
                    name,
                    old_value: None,
                    new_value: clone_column(&new_row[i]),
                };
                let ghost fsnap = f;
                fields.push(f);
                proof {
                    assert(fsnap@ == spec_project(d@).fields[i as int]);
                }
                i = i + 1;
            }
        },
    }
    let c = RelationalChange {
        table_name: String::from_str("transfers"),
        key: d.key.clone(),
        ordinal: d.ordinal,
        operation: d.operation,
        fields,
    };
    proof {
        assert(c@.fields =~= spec_project(d@).fields);
    }
    Ok(c)
}

fn clone_column(v: &ColumnValue) -> (r: ColumnValue)
    ensures
        r@ == v@,
{
    match v {
        ColumnValue::Text(s) => ColumnValue::Text(s.clone()),
        ColumnValue::Unsigned(n) => ColumnValue::Unsigned(*n),
        ColumnValue::Time(t) => ColumnValue::Time(*t),
    }
}

/// Projects a whole delta stream in order; fails on the first delete.
pub fn project_deltas(deltas: &Vec<StoreDelta>) -> (r: Result<Vec<RelationalChange>, ProjectError>)
    requires
        forall|i: int| 0 <= i < deltas@.len() ==> delta_input_ok((#[trigger] deltas@[i])@),
    ensures
        match r {
            Ok(cs) => cs@.len() == deltas@.len() && forall|i: int|
                0 <= i < deltas@.len() ==> (#[trigger] cs@[i])@ == spec_project(deltas@[i]@),
            Err(e) => e == ProjectError::DeleteUnsupported && exists|i: int|
                0 <= i < deltas@.len() && (#[trigger] deltas@[i])@.operation is Delete,
        },
{
    let mut out: Vec<RelationalChange> = Vec::new();
    let mut i: usize = 0;
    while i < deltas.len()
        invariant
            i <= deltas@.len(),
            out@.len() == i,
            forall|q: int| 0 <= q < deltas@.len() ==> delta_input_ok((#[trigger] deltas@[q])@),
            forall|q: int| 0 <= q < i ==> (#[trigger] out@[q])@ == spec_project(deltas@[q]@),
        decreases deltas@.len() - i,
    {
        match project_delta(&deltas[i]) {
            Ok(c) => {
                out.push(c);
            },
            Err(e) => {
                return Err(e);
            },
        }
        i = i + 1;
    }
    Ok(out)
}

} // verus!
