//! Building the payout cells of a channel state, one per party and asset.
use vstd::prelude::*;
use crate::balances::{ck_get, clone_script, sudt_get};
use crate::bytes::{push_le, lemma_pow256_values};
use crate::model::{Script, ScriptModel, CKByteDistribution, SudtModel, SUDTAllocation, Balances, ChannelState, ChannelStatus, ChannelParameters, u128_bytes};

verus! {

/// A cell to be created: capacity, lock, optional type script and data.
pub struct NewCell {
    pub capacity: u64,
    pub lock: Script,
    pub type_script: Option<Script>,
    pub data: Vec<u8>,
}

pub ghost struct NewCellModel {
    pub capacity: u64,
    pub lock: ScriptModel,
    pub type_script: Option<ScriptModel>,
    pub data: Seq<u8>,
}

impl View for NewCell {
    type V = NewCellModel;

    open spec fn view(&self) -> NewCellModel {
        NewCellModel {
            capacity: self.capacity,
            lock: self.lock@,
            type_script: match self.type_script {
                Some(s) => Some(s@),
                None => None,
            },
            data: self.data@,
        }
    }
}

pub open spec fn cells_view(v: Seq<NewCell>) -> Seq<NewCellModel> {
    v.map_values(|c: NewCell| c@)
}

/// Party indices that name a party (0 or 1) with a lock script.
pub open spec fn indices_ok(locks: Seq<Script>, indices: Seq<u8>) -> bool {
    forall|i: int| 0 <= i < indices.len() ==> #[trigger] indices[i] < 2 && indices[i] < locks.len()
}

/// One native payout cell per index: the party's amount, locked by its lock script.
pub open spec fn ckbyte_cells(d: CKByteDistribution, locks: Seq<Script>, indices: Seq<u8>) -> Seq<
    NewCellModel,
> {
    Seq::new(
        indices.len(),
        |i: int|
            NewCellModel {
                capacity: ck_get(d, indices[i] as int) as u64,
                lock: locks[indices[i] as int]@,
                type_script: None,
                data: seq![],
            },
    )
}

/// One token cell per index: the token's cell capacity, locked by the party's lock script;
/// it carries the token and the party's amount unless that amount is zero.
pub open spec fn token_cells(s: SudtModel, locks: Seq<Script>, indices: Seq<u8>) -> Seq<NewCellModel> {
    Seq::new(
        indices.len(),
        |i: int|
            {
                let amount = sudt_get(s.distribution, indices[i] as int);
                NewCellModel {
                    capacity: s.asset.max_capacity,
                    lock: locks[indices[i] as int]@,
                    type_script: if amount == 0 {
                        None
                    } else {
                        Some(s.asset.type_script)
                    },
                    data: if amount == 0 {
                        seq![]
                    } else {
                        u128_bytes(amount as u128)
                    },
                }
            },
    )
}

/// The token cells of every token, token by token.
pub open spec fn allocation_cells(sudts: Seq<SudtModel>, locks: Seq<Script>, indices: Seq<u8>) -> Seq<
    NewCellModel,
>
    decreases sudts.len(),
{
    if sudts.len() == 0 {
        seq![]
    } else {
        allocation_cells(sudts.drop_last(), locks, indices) + token_cells(
            sudts.last(),
            locks,
            indices,
        )
    }
}

impl CKByteDistribution {
    /// One native payout cell per index, locked by `locks[index]`.
    pub fn mk_outputs(&self, locks: &Vec<Script>, indices: &Vec<u8>) -> (r: Vec<NewCell>)
        requires
            indices_ok(locks@, indices@),
        ensures
            cells_view(r@) == ckbyte_cells(*self, locks@, indices@),
    {
        let mut out: Vec<NewCell> = Vec::new();
        let mut i: usize = 0;
        while i < indices.len()
            invariant
                i <= indices@.len(),
                indices_ok(locks@, indices@),
                cells_view(out@) == ckbyte_cells(*self, locks@, indices@).take(i as int),
            decreases indices@.len() - i,
        {
            let f = indices[i];
            let cap = match self.get(f as usize) {
                Ok(c) => c,
                Err(_) => 0,
            };
            let cell = NewCell {
                capacity: cap,
                lock: clone_script(&locks[f as usize]),
                type_script: None,
                data: Vec::new(),
            };
            let ghost before = out@;
            out.push(cell);
            proof {
                assert(cell@.data =~= Seq::<u8>::empty());
                assert(cells_view(out@) =~= cells_view(before).push(cell@));
                assert(ckbyte_cells(*self, locks@, indices@).take(i + 1) =~= ckbyte_cells(
                    *self,
                    locks@,
                    indices@,
                ).take(i as int).push(cell@));
            }
            i = i + 1;
        }
        assert(ckbyte_cells(*self, locks@, indices@).take(i as int) =~= ckbyte_cells(
            *self,
            locks@,
            indices@,
        ));
        out
    }
}

impl SUDTAllocation {
    /// One cell per token and index: the token's cell capacity, locked by `locks[index]`,
    /// carrying the party's amount of the token when that amount is not zero.
    pub fn mk_outputs(&self, locks: &Vec<Script>, indices: &Vec<u8>) -> (r: Vec<NewCell>)
        requires
            indices_ok(locks@, indices@),
        ensures
            cells_view(r@) == allocation_cells(self@, locks@, indices@),
    {
        let mut out: Vec<NewCell> = Vec::new();
        let mut k: usize = 0;
        proof {
            assert(self@.take(0) =~= Seq::<SudtModel>::empty());
            assert(cells_view(out@) =~= Seq::<NewCellModel>::empty());
        }
        while k < self.entries.len()
            invariant
                k <= self@.len(),
                self@.len() == self.entries@.len(),
                indices_ok(locks@, indices@),
                cells_view(out@) == allocation_cells(self@.take(k as int), locks@, indices@),
            decreases self@.len() - k,
        {
            let balance = &self.entries[k];
            assert(self@[k as int] == balance@);
            let ghost start = cells_view(out@);
            let ghost block = token_cells(balance@, locks@, indices@);
            let mut i: usize = 0;
            while i < indices.len()
                invariant
                    i <= indices@.len(),
                    indices_ok(locks@, indices@),
                    block == token_cells(balance@, locks@, indices@),
                    cells_view(out@) == start + block.take(i as int),
                decreases indices@.len() - i,
            {
                let f = indices[i];
                let amount = match balance.distribution.get(f as usize) {
                    Ok(a) => a,
                    Err(_) => 0,
                };
                let cell = if amount == 0 {
                    NewCell {
                        capacity: balance.asset.max_capacity,
                        lock: clone_script(&locks[f as usize]),
                        type_script: None,
                        data: Vec::new(),
                    }
                } else {
                    let mut data: Vec<u8> = Vec::new();
                    proof {
                        lemma_pow256_values();
                    }
                    push_le(&mut data, amount, 16);
                    NewCell {
                        capacity: balance.asset.max_capacity,
                        lock: clone_script(&locks[f as usize]),
                        type_script: Some(clone_script(&balance.asset.type_script)),
                        data,
                    }
                };
                let ghost before = out@;
                out.push(cell);
                proof {
                    if amount == 0 {
                        assert(cell@.data =~= Seq::<u8>::empty());
                    } else {
                        assert(cell@.data =~= u128_bytes(amount));
                    }
                    assert(cell@ == block[i as int]);
                    assert(cells_view(out@) =~= cells_view(before).push(cell@));
                    assert(block.take(i + 1) =~= block.take(i as int).push(cell@));
                    assert(start + block.take(i + 1) =~= (start + block.take(i as int)).push(
                        cell@,
                    ));
                }
                i = i + 1;
            }
            proof {
                assert(block.take(i as int) =~= block);
                assert(self@.take(k + 1).drop_last() =~= self@.take(k as int));
                assert(self@.take(k + 1).last() == balance@);
            }
            k = k + 1;
        }
        assert(self@.take(k as int) =~= self@);
        out
    }
}

impl Balances {
    /// The native payout cells, then the token cells.
    pub fn mk_outputs(&self, locks: &Vec<Script>, indices: &Vec<u8>) -> (r: Vec<NewCell>)
        requires
            indices_ok(locks@, indices@),
        ensures
            cells_view(r@) == ckbyte_cells(self.ckbytes, locks@, indices@) + allocation_cells(
                self.sudts@,
                locks@,
                indices@,
            ),
    {
        let mut ckbytes = self.ckbytes.mk_outputs(locks, indices);
        let mut sudts = self.sudts.mk_outputs(locks, indices);
        let ghost a = cells_view(ckbytes@);
        let ghost b = cells_view(sudts@);
        ckbytes.append(&mut sudts);
        assert(cells_view(ckbytes@) =~= a + b);
        ckbytes
    }
}

/// The two parties, in order.
pub open spec fn both_parties() -> Seq<u8> {
    seq![0u8, 1u8]
}

impl ChannelState {
    /// The payout cells of both parties for this state's balances.
    pub fn mk_outputs(&self, locks: &Vec<Script>) -> (r: Vec<NewCell>)
        requires
            locks@.len() >= 2,
        ensures
            cells_view(r@) == ckbyte_cells(self.balances.ckbytes, locks@, both_parties())
                + allocation_cells(self.balances.sudts@, locks@, both_parties()),
    {
        let mut indices: Vec<u8> = Vec::new();
        indices.push(0);
        indices.push(1);
        assert(indices@ =~= both_parties());
        self.balances.mk_outputs(locks, &indices)
    }
}

impl ChannelStatus {
    /// The status with the funded bit set.
    pub fn mk_funded(self) -> (r: ChannelStatus)
        ensures
            r@ == (crate::model::StatusModel { funded: true, ..self@ }),
    {
        ChannelStatus { funded: true, ..self }
    }

    /// The payout cells that close the channel in its current state.
    pub fn mk_close_outputs(&self, locks: &Vec<Script>) -> (r: Vec<NewCell>)
        requires
            locks@.len() >= 2,
        ensures
            cells_view(r@) == ckbyte_cells(self.state.balances.ckbytes, locks@, both_parties())
                + allocation_cells(self.state.balances.sudts@, locks@, both_parties()),
    {
        self.state.mk_outputs(locks)
    }
}

impl ChannelParameters {
    /// The parties' public keys, party A first.
    pub fn mk_party_pubkeys(&self) -> (r: Vec<Vec<u8>>)
        ensures
            r@.len() == 2,
            r@[0]@ == self.party_a.pub_key@,
            r@[1]@ == self.party_b.pub_key@,
    {
        let mut keys: Vec<Vec<u8>> = Vec::new();
        keys.push(crate::codec::copy_vec(&self.party_a.pub_key));
        keys.push(crate::codec::copy_vec(&self.party_b.pub_key));
        keys
    }
}

/// Whether `fst` gives each party at least what `snd` does.
pub fn geq_components(fst: &CKByteDistribution, snd: &CKByteDistribution) -> (r: bool)
    ensures
        r == (fst.nth0 >= snd.nth0 && fst.nth1 >= snd.nth1),
{
    fst.nth0 >= snd.nth0 && fst.nth1 >= snd.nth1
}

} // verus!
