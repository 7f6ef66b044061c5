//! What a predicate reads of the transaction that it validates, as plain values.
use vstd::prelude::*;
use crate::model::{Script, ScriptModel, OutPoint, OutPointModel};

verus! {

/// A consumed cell.
pub struct InputCell {
    pub previous_output: OutPoint,
    pub lock: Script,
    /// Hash of the lock script, as the ledger computes it.
    pub lock_hash: Vec<u8>,
    /// Hash of the type script, when the cell has one.
    pub type_hash: Option<Vec<u8>>,
}

pub ghost struct InputModel {
    pub previous_output: OutPointModel,
    pub lock: ScriptModel,
    pub lock_hash: Seq<u8>,
    pub type_hash: Option<Seq<u8>>,
}

impl View for InputCell {
    type V = InputModel;

    open spec fn view(&self) -> InputModel {
        InputModel {
            previous_output: self.previous_output@,
            lock: self.lock@,
            lock_hash: self.lock_hash@,
            type_hash: match self.type_hash {
                Some(h) => Some(h@),
                None => None,
            },
        }
    }
}

/// A produced cell.
pub struct OutputCell {
    pub lock: Script,
    /// Hash of the lock script, as the ledger computes it.
    pub lock_hash: Vec<u8>,
    pub type_script: Option<Script>,
    pub capacity: u64,
    pub data: Vec<u8>,
}

pub ghost struct OutputModel {
    pub lock: ScriptModel,
    pub lock_hash: Seq<u8>,
    pub type_script: Option<ScriptModel>,
    pub capacity: u64,
    pub data: Seq<u8>,
}

impl View for OutputCell {
    type V = OutputModel;

    open spec fn view(&self) -> OutputModel {
        OutputModel {
            lock: self.lock@,
            lock_hash: self.lock_hash@,
            type_script: match self.type_script {
                Some(s) => Some(s@),
                None => None,
            },
            capacity: self.capacity,
            data: self.data@,
        }
    }
}

/// The inputs, outputs and header timestamps of a transaction.
pub struct Transaction {
    pub inputs: Vec<InputCell>,
    pub outputs: Vec<OutputCell>,
    /// Timestamps of the headers that the transaction lists as header dependencies.
    pub header_dep_timestamps: Vec<u64>,
}

pub ghost struct TxModel {
    pub inputs: Seq<InputModel>,
    pub outputs: Seq<OutputModel>,
    pub header_dep_timestamps: Seq<u64>,
}

impl View for Transaction {
    type V = TxModel;

    open spec fn view(&self) -> TxModel {
        TxModel {
            inputs: self.inputs@.map_values(|c: InputCell| c@),
            outputs: self.outputs@.map_values(|c: OutputCell| c@),
            header_dep_timestamps: self.header_dep_timestamps@,
        }
    }
}

/// Whether two byte strings are equal.
pub fn bytes_eq(a: &[u8], b: &[u8]) -> (r: bool)
    ensures
        r == (a@ == b@),
{
    if a.len() != b.len() {
        return false;
    }
    let mut i: usize = 0;
    while i < a.len()
        invariant
            a@.len() == b@.len(),
            i <= a@.len(),
            a@.subrange(0, i as int) == b@.subrange(0, i as int),
        decreases a@.len() - i,
    {
        if a[i] != b[i] {
            assert(a@[i as int] != b@[i as int]);
            return false;
        }
        i = i + 1;
        assert(a@.subrange(0, i as int) =~= a@.subrange(0, i - 1) + seq![a@[i - 1]]);
        assert(b@.subrange(0, i as int) =~= b@.subrange(0, i - 1) + seq![b@[i - 1]]);
    }
    assert(a@ =~= a@.subrange(0, i as int));
    assert(b@ =~= b@.subrange(0, i as int));
    true
}

/// Whether two scripts are equal.
pub fn script_eq(a: &Script, b: &Script) -> (r: bool)
    ensures
        r == (a@ == b@),
{
    bytes_eq(a.code_hash.as_slice(), b.code_hash.as_slice()) && a.hash_type == b.hash_type
        && bytes_eq(a.args.as_slice(), b.args.as_slice())
}

/// Whether two out points are equal.
pub fn out_point_eq(a: &OutPoint, b: &OutPoint) -> (r: bool)
    ensures
        r == (a@ == b@),
{
    bytes_eq(a.tx_hash.as_slice(), b.tx_hash.as_slice()) && a.index == b.index
}

} // verus!
