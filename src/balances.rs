//! Operations on balances: per-party amounts, token lists, sums.
use vstd::prelude::*;
use crate::error::Error;
use crate::model::{Script, ScriptModel, CKByteDistribution, SUDTDistribution, SUDTAsset, SUDTBalances, SudtModel, SUDTAllocation, Balances, BalancesModel};
use crate::tx::script_eq;
use crate::codec::copy_vec;

verus! {

/// Amount of party `i` (0 or 1) in a native distribution.
pub open spec fn ck_get(d: CKByteDistribution, i: int) -> int {
    if i == 0 {
        d.nth0 as int
    } else {
        d.nth1 as int
    }
}

/// Amount of party `i` (0 or 1) in a token distribution.
pub open spec fn sudt_get(d: SUDTDistribution, i: int) -> int {
    if i == 0 {
        d.nth0 as int
    } else {
        d.nth1 as int
    }
}

/// Sum of the cell capacities that the tokens `sudts` need.
pub open spec fn locked_ckbytes(sudts: Seq<SudtModel>) -> int
    decreases sudts.len(),
{
    if sudts.len() == 0 {
        0
    } else {
        locked_ckbytes(sudts.drop_last()) + sudts.last().asset.max_capacity
    }
}

/// Index of the first token whose type script is `t`, or -1.
pub open spec fn find_asset(sudts: Seq<SudtModel>, t: ScriptModel) -> int
    decreases sudts.len(),
{
    if sudts.len() == 0 {
        -1
    } else if find_asset(sudts.drop_last(), t) >= 0 {
        find_asset(sudts.drop_last(), t)
    } else if sudts.last().asset.type_script == t {
        sudts.len() - 1
    } else {
        -1
    }
}

/// Both parties' amounts at `idx` are zero in every asset.
pub open spec fn zero_at(b: BalancesModel, idx: int) -> bool {
    &&& ck_get(b.ckbytes, idx) == 0
    &&& forall|k: int| 0 <= k < b.sudts.len() ==> sudt_get(#[trigger] b.sudts[k].distribution, idx) == 0
}

/// The same assets in the same order, with the same total per asset.
pub open spec fn equal_in_sum(a: BalancesModel, b: BalancesModel) -> bool {
    &&& a.ckbytes.nth0 + a.ckbytes.nth1 == b.ckbytes.nth0 + b.ckbytes.nth1
    &&& a.sudts.len() == b.sudts.len()
    &&& forall|k: int|
        0 <= k < a.sudts.len() ==> (#[trigger] a.sudts[k]).asset == b.sudts[k].asset
            && a.sudts[k].distribution.nth0 + a.sudts[k].distribution.nth1
            == b.sudts[k].distribution.nth0 + b.sudts[k].distribution.nth1
}

/// The same assets in the same order, with the same amounts of party `idx`.
pub open spec fn equal_at(a: BalancesModel, b: BalancesModel, idx: int) -> bool {
    &&& ck_get(a.ckbytes, idx) == ck_get(b.ckbytes, idx)
    &&& a.sudts.len() == b.sudts.len()
    &&& forall|k: int|
        0 <= k < a.sudts.len() ==> (#[trigger] a.sudts[k]).asset == b.sudts[k].asset && sudt_get(
            a.sudts[k].distribution,
            idx,
        ) == sudt_get(b.sudts[k].distribution, idx)
}

pub open spec fn ck_cleared(d: CKByteDistribution, idx: int) -> CKByteDistribution {
    if idx == 0 {
        CKByteDistribution { nth0: 0, nth1: d.nth1 }
    } else {
        CKByteDistribution { nth0: d.nth0, nth1: 0 }
    }
}

pub open spec fn sudt_cleared(d: SUDTDistribution, idx: int) -> SUDTDistribution {
    if idx == 0 {
        SUDTDistribution { nth0: 0, nth1: d.nth1 }
    } else {
        SUDTDistribution { nth0: d.nth0, nth1: 0 }
    }
}

/// The balances with every amount of party `idx` set to zero.
pub open spec fn cleared(b: BalancesModel, idx: int) -> BalancesModel {
    BalancesModel {
        ckbytes: ck_cleared(b.ckbytes, idx),
        sudts: Seq::new(
            b.sudts.len(),
            |k: int|
                SudtModel {
                    asset: b.sudts[k].asset,
                    distribution: sudt_cleared(b.sudts[k].distribution, idx),
                },
        ),
    }
}

/// Party `idx`'s amount of every token is covered by `values`.
pub open spec fn fully_represented(sudts: Seq<SudtModel>, idx: int, values: Seq<int>) -> bool {
    &&& values.len() >= sudts.len()
    &&& forall|k: int|
        0 <= k < sudts.len() ==> values[k] >= sudt_get(#[trigger] sudts[k].distribution, idx)
}

/// Party `idx` is paid its amount of every token by `values`, except amounts below its
/// minimum payment, which may be forfeited.
pub open spec fn tokens_paid(sudts: Seq<SudtModel>, idx: int, values: Seq<int>, min_payment: u64) -> bool {
    &&& values.len() >= sudts.len()
    &&& forall|k: int|
        0 <= k < sudts.len() ==> values[k] >= sudt_get(#[trigger] sudts[k].distribution, idx)
            || sudt_get(sudts[k].distribution, idx) < min_payment
}

pub proof fn lemma_locked_bound(sudts: Seq<SudtModel>)
    ensures
        0 <= locked_ckbytes(sudts) <= sudts.len() * 0xffff_ffff_ffff_ffff,
    decreases sudts.len(),
{
    if sudts.len() > 0 {
        lemma_locked_bound(sudts.drop_last());
    }
}

pub proof fn lemma_find_asset_range(sudts: Seq<SudtModel>, t: ScriptModel)
    ensures
        -1 <= find_asset(sudts, t) < sudts.len(),
        find_asset(sudts, t) >= 0 ==> sudts[find_asset(sudts, t)].asset.type_script == t,
        find_asset(sudts, t) < 0 ==> forall|k: int|
            0 <= k < sudts.len() ==> (#[trigger] sudts[k]).asset.type_script != t,
        find_asset(sudts, t) >= 0 ==> forall|k: int|
            0 <= k < find_asset(sudts, t) ==> (#[trigger] sudts[k]).asset.type_script != t,
    decreases sudts.len(),
{
    if sudts.len() > 0 {
        let p = sudts.drop_last();
        lemma_find_asset_range(p, t);
        assert forall|k: int| 0 <= k < p.len() implies p[k] == sudts[k] by {}
    }
}

impl CKByteDistribution {
    /// Total of both parties.
    pub fn sum(&self) -> (r: u128)
        ensures
            r == self.nth0 + self.nth1,
    {
        self.nth0 as u128 + self.nth1 as u128
    }

    /// Whether both distributions are the same.
    pub fn equal(&self, other: &CKByteDistribution) -> (r: bool)
        ensures
            r == (*self == *other),
    {
        self.nth0 == other.nth0 && self.nth1 == other.nth1
    }

    /// Amount of party `i`.
    pub fn get(&self, i: usize) -> (r: Result<u64, Error>)
        ensures
            i < 2 ==> r == Ok::<u64, Error>(ck_get(*self, i as int) as u64),
            i >= 2 ==> r == Err::<u64, Error>(Error::IndexOutOfBound),
    {
        if i == 0 {
            Ok(self.nth0)
        } else if i == 1 {
            Ok(self.nth1)
        } else {
            Err(Error::IndexOutOfBound)
        }
    }

    /// The distribution with party `idx`'s amount set to zero.
    pub fn clear_index(&self, idx: usize) -> (r: Result<CKByteDistribution, Error>)
        ensures
            idx < 2 ==> r == Ok::<CKByteDistribution, Error>(ck_cleared(*self, idx as int)),
            idx >= 2 ==> r == Err::<CKByteDistribution, Error>(Error::IndexOutOfBound),
    {
        if idx == 0 {
            Ok(CKByteDistribution { nth0: 0, nth1: self.nth1 })
        } else if idx == 1 {
            Ok(CKByteDistribution { nth0: self.nth0, nth1: 0 })
        } else {
            Err(Error::IndexOutOfBound)
        }
    }

    pub fn from_array(a: [u64; 2]) -> (r: CKByteDistribution)
        ensures
            r.nth0 == a[0] && r.nth1 == a[1],
    {
        CKByteDistribution { nth0: a[0], nth1: a[1] }
    }

    pub fn to_array(&self) -> (r: [u64; 2])
        ensures
            r[0] == self.nth0 && r[1] == self.nth1,
    {
        [self.nth0, self.nth1]
    }
}

impl SUDTDistribution {
    /// Total of both parties; the two amounts must not overflow together.
    pub fn sum(&self) -> (r: u128)
        requires
            self.nth0 + self.nth1 <= u128::MAX,
        ensures
            r == self.nth0 + self.nth1,
    {
        self.nth0 + self.nth1
    }

    /// Whether both distributions add up to the same total (computed without overflow).
    pub fn equal_sum(&self, other: &SUDTDistribution) -> (r: bool)
        ensures
            r == (self.nth0 + self.nth1 == other.nth0 + other.nth1),
    {
        if self.nth0 >= other.nth0 {
            other.nth1 >= self.nth1 && self.nth0 - other.nth0 == other.nth1 - self.nth1
        } else {
            self.nth1 >= other.nth1 && other.nth0 - self.nth0 == self.nth1 - other.nth1
        }
    }

    /// Whether both distributions are the same.
    pub fn equal(&self, other: &SUDTDistribution) -> (r: bool)
        ensures
            r == (*self == *other),
    {
        self.nth0 == other.nth0 && self.nth1 == other.nth1
    }

    /// Amount of party `i`.
    pub fn get(&self, i: usize) -> (r: Result<u128, Error>)
        ensures
            i < 2 ==> r == Ok::<u128, Error>(sudt_get(*self, i as int) as u128),
            i >= 2 ==> r == Err::<u128, Error>(Error::IndexOutOfBound),
    {
        if i == 0 {
            Ok(self.nth0)
        } else if i == 1 {
            Ok(self.nth1)
        } else {
            Err(Error::IndexOutOfBound)
        }
    }

    /// The distribution with party `idx`'s amount set to zero.
    pub fn clear_index(&self, idx: usize) -> (r: Result<SUDTDistribution, Error>)
        ensures
            idx < 2 ==> r == Ok::<SUDTDistribution, Error>(sudt_cleared(*self, idx as int)),
            idx >= 2 ==> r == Err::<SUDTDistribution, Error>(Error::IndexOutOfBound),
    {
        if idx == 0 {
            Ok(SUDTDistribution { nth0: 0, nth1: self.nth1 })
        } else if idx == 1 {
            Ok(SUDTDistribution { nth0: self.nth0, nth1: 0 })
        } else {
            Err(Error::IndexOutOfBound)
        }
    }

    pub fn from_array(a: [u128; 2]) -> (r: SUDTDistribution)
        ensures
            r.nth0 == a[0] && r.nth1 == a[1],
    {
        SUDTDistribution { nth0: a[0], nth1: a[1] }
    }

    pub fn to_array(&self) -> (r: [u128; 2])
        ensures
            r[0] == self.nth0 && r[1] == self.nth1,
    {
        [self.nth0, self.nth1]
    }
}

/// A copy of a script.
pub fn clone_script(s: &Script) -> (r: Script)
    ensures
        r@ == s@,
{
    Script { code_hash: copy_vec(&s.code_hash), hash_type: s.hash_type, args: copy_vec(&s.args) }
}

impl SUDTAllocation {
    /// The capacity that the token cells of this list need, in total.
    pub fn get_locked_ckbytes(&self) -> (r: u128)
        ensures
            r == locked_ckbytes(self@),
    {
        let mut sum: u128 = 0;
        let mut i: usize = 0;
        while i < self.entries.len()
            invariant
                i <= self@.len(),
                self@.len() == self.entries@.len(),
                sum == locked_ckbytes(self@.take(i as int)),
            decreases self@.len() - i,
        {
            proof {
                let t = self@.take(i + 1);
                assert(t.drop_last() =~= self@.take(i as int));
                lemma_locked_bound(self@.take(i as int));
                assert(i * 0xffff_ffff_ffff_ffff <= 0xffff_ffff_ffff_ffff * 0xffff_ffff_ffff_ffff)
                    by (nonlinear_arith)
                    requires
                        i <= 0xffff_ffff_ffff_ffff,
                ;
            }
            sum = sum + self.entries[i].asset.max_capacity as u128;
            i = i + 1;
        }
        assert(self@.take(i as int) =~= self@);
        sum
    }

    /// The first token with type script `sudt`, with its index.
    pub fn get_distribution(&self, sudt: &Script) -> (r: Result<(usize, SUDTDistribution), Error>)
        ensures
            find_asset(self@, sudt@) < 0 ==> r == Err::<(usize, SUDTDistribution), Error>(
                Error::InvalidSUDT,
            ),
            find_asset(self@, sudt@) >= 0 ==> r is Ok && r->Ok_0.0 == find_asset(self@, sudt@)
                && r->Ok_0.1 == self@[find_asset(self@, sudt@)].distribution,
    {
        proof {
            lemma_find_asset_range(self@, sudt@);
        }
        let mut i: usize = 0;
        while i < self.entries.len()
            invariant
                i <= self@.len(),
                self@.len() == self.entries@.len(),
                forall|k: int| 0 <= k < i ==> (#[trigger] self@[k]).asset.type_script != sudt@,
                -1 <= find_asset(self@, sudt@) < self@.len(),
                find_asset(self@, sudt@) >= 0 ==> self@[find_asset(self@, sudt@)].asset.type_script
                    == sudt@,
                find_asset(self@, sudt@) >= 0 ==> forall|k: int|
                    0 <= k < find_asset(self@, sudt@) ==> (#[trigger] self@[k]).asset.type_script
                        != sudt@,
                find_asset(self@, sudt@) < 0 ==> forall|k: int|
                    0 <= k < self@.len() ==> (#[trigger] self@[k]).asset.type_script != sudt@,
            decreases self@.len() - i,
        {
            assert(self@[i as int] == self.entries@[i as int]@);
            if script_eq(&self.entries[i].asset.type_script, sudt) {
                return Ok((i, self.entries[i].distribution));
            }
            i = i + 1;
        }
        Err(Error::InvalidSUDT)
    }

    /// Whether `values` pays party `idx` its amount of every token, except amounts below
    /// `min_payment`.
    pub fn paid_in_tokens(&self, idx: usize, values: &[u128], min_payment: u64) -> (r: bool)
        requires
            idx < 2,
        ensures
            r == tokens_paid(self@, idx as int, values@.map_values(|v: u128| v as int), min_payment),
    {
        if values.len() < self.entries.len() {
            return false;
        }
        let mut i: usize = 0;
        while i < self.entries.len()
            invariant
                idx < 2,
                i <= self@.len(),
                self@.len() == self.entries@.len(),
                values@.len() >= self@.len(),
                forall|k: int|
                    0 <= k < i ==> values@[k] >= sudt_get(#[trigger] self@[k].distribution, idx as int)
                        || sudt_get(self@[k].distribution, idx as int) < min_payment,
            decreases self@.len() - i,
        {
            let d = if idx == 0 {
                self.entries[i].distribution.nth0
            } else {
                self.entries[i].distribution.nth1
            };
            assert(self@[i as int] == self.entries@[i as int]@);
            assert(sudt_get(self@[i as int].distribution, idx as int) == d);
            if values[i] < d && d >= min_payment as u128 {
                let ghost m = values@.map_values(|v: u128| v as int);
                assert(m[i as int] == values@[i as int]);
                assert(!(m[i as int] >= sudt_get(self@[i as int].distribution, idx as int)
                    || sudt_get(self@[i as int].distribution, idx as int) < min_payment));
                return false;
            }
            i = i + 1;
        }
        proof {
            let m = values@.map_values(|v: u128| v as int);
            assert forall|k: int| 0 <= k < self@.len() implies m[k] >= sudt_get(
                #[trigger] self@[k].distribution,
                idx as int,
            ) || sudt_get(self@[k].distribution, idx as int) < min_payment by {
                assert(m[k] == values@[k]);
            }
        }
        true
    }

    /// Whether `values` covers party `idx`'s amount of every token.
    pub fn fully_represented(&self, idx: usize, values: &[u128]) -> (r: Result<bool, Error>)
        ensures
            idx >= 2 && values@.len() >= self@.len() && self@.len() > 0 ==> r == Err::<bool, Error>(
                Error::IndexOutOfBound,
            ),
            idx >= 2 && values@.len() < self@.len() ==> r == Ok::<bool, Error>(false),
            idx >= 2 && self@.len() == 0 ==> r == Ok::<bool, Error>(true),
            idx < 2 ==> r == Ok::<bool, Error>(
                fully_represented(self@, idx as int, values@.map_values(|v: u128| v as int)),
            ),
    {
        if values.len() < self.entries.len() {
            return Ok(false);
        }
        let mut i: usize = 0;
        while i < self.entries.len()
            invariant
                i <= self@.len(),
                self@.len() == self.entries@.len(),
                values@.len() >= self@.len(),
                idx < 2 ==> forall|k: int|
                    0 <= k < i ==> values@[k] >= sudt_get(#[trigger] self@[k].distribution, idx as int),
                idx >= 2 ==> i == 0,
            decreases self@.len() - i,
        {
            let v = match self.entries[i].distribution.get(idx) {
                Ok(x) => x,
                Err(e) => {
                    return Err(e);
                },
            };
            assert(self@[i as int] == self.entries@[i as int]@);
            if values[i] < v {
                assert(values@.map_values(|v: u128| v as int)[i as int] < sudt_get(
                    self@[i as int].distribution,
                    idx as int,
                ));
                return Ok(false);
            }
            i = i + 1;
        }
        proof {
            let m = values@.map_values(|v: u128| v as int);
            assert forall|k: int| 0 <= k < self@.len() implies m[k] >= sudt_get(
                #[trigger] self@[k].distribution,
                idx as int,
            ) by {}
        }
        Ok(true)
    }
}

impl Balances {
    /// The balances with every amount of party `idx` set to zero.
    pub fn clear_index(&self, idx: usize) -> (r: Result<Balances, Error>)
        ensures
            idx < 2 ==> r is Ok && r->Ok_0@ == cleared(self@, idx as int),
            idx >= 2 ==> r is Err && r->Err_0 == Error::IndexOutOfBound,
    {
        let ckbytes = match self.ckbytes.clear_index(idx) {
            Ok(c) => c,
            Err(e) => {
                return Err(e);
            },
        };
        let mut sudts: Vec<SUDTBalances> = Vec::new();
        let mut i: usize = 0;
        while i < self.sudts.entries.len()
            invariant
                idx < 2,
                i <= self.sudts@.len(),
                self.sudts@.len() == self.sudts.entries@.len(),
                sudts@.len() == i,
                forall|k: int|
                    0 <= k < i ==> (#[trigger] sudts@[k])@ == cleared(self@, idx as int).sudts[k],
            decreases self.sudts@.len() - i,
        {
            let sb = &self.sudts.entries[i];
            assert(self.sudts@[i as int] == sb@);
            let d = match sb.distribution.clear_index(idx) {
                Ok(d) => d,
                Err(e) => {
                    return Err(e);
                },
            };
            sudts.push(
                SUDTBalances {
                    asset: SUDTAsset {
                        type_script: clone_script(&sb.asset.type_script),
                        max_capacity: sb.asset.max_capacity,
                    },
                    distribution: d,
                },
            );
            i = i + 1;
        }
        let r = Balances { ckbytes, sudts: SUDTAllocation { entries: sudts } };
        assert(r@.sudts =~= cleared(self@, idx as int).sudts);
        Ok(r)
    }

    /// Whether every amount of party `idx` is zero.
    pub fn zero_at_index(&self, idx: usize) -> (r: Result<bool, Error>)
        ensures
            idx < 2 ==> r == Ok::<bool, Error>(zero_at(self@, idx as int)),
            idx >= 2 ==> r == Err::<bool, Error>(Error::IndexOutOfBound),
    {
        let c = match self.ckbytes.get(idx) {
            Ok(c) => c,
            Err(e) => {
                return Err(e);
            },
        };
        if c != 0 {
            return Ok(false);
        }
        let mut i: usize = 0;
        while i < self.sudts.entries.len()
            invariant
                idx < 2,
                i <= self.sudts@.len(),
                self.sudts@.len() == self.sudts.entries@.len(),
                forall|k: int|
                    0 <= k < i ==> sudt_get(#[trigger] self@.sudts[k].distribution, idx as int) == 0,
            decreases self.sudts@.len() - i,
        {
            assert(self.sudts@[i as int] == self.sudts.entries@[i as int]@);
            let v = match self.sudts.entries[i].distribution.get(idx) {
                Ok(x) => x,
                Err(e) => {
                    return Err(e);
                },
            };
            if v != 0 {
                assert(sudt_get(self@.sudts[i as int].distribution, idx as int) != 0);
                return Ok(false);
            }
            i = i + 1;
        }
        Ok(true)
    }

    /// Whether both balances list the same assets and give party `idx` the same amounts.
    pub fn equal_at_index(&self, other: &Balances, idx: usize) -> (r: Result<bool, Error>)
        ensures
            idx < 2 ==> r == Ok::<bool, Error>(equal_at(self@, other@, idx as int)),
            idx >= 2 ==> r == Err::<bool, Error>(Error::IndexOutOfBound),
    {
        let a = match self.ckbytes.get(idx) {
            Ok(c) => c,
            Err(e) => {
                return Err(e);
            },
        };
        let b = match other.ckbytes.get(idx) {
            Ok(c) => c,
            Err(e) => {
                return Err(e);
            },
        };
        if a != b {
            return Ok(false);
        }
        if self.sudts.entries.len() != other.sudts.entries.len() {
            return Ok(false);
        }
        let mut i: usize = 0;
        while i < self.sudts.entries.len()
            invariant
                idx < 2,
                i <= self.sudts@.len(),
                self.sudts@.len() == self.sudts.entries@.len(),
                other.sudts@.len() == other.sudts.entries@.len(),
                self.sudts@.len() == other.sudts@.len(),
                forall|k: int|
                    0 <= k < i ==> (#[trigger] self@.sudts[k]).asset == other@.sudts[k].asset
                        && sudt_get(self@.sudts[k].distribution, idx as int) == sudt_get(
                        other@.sudts[k].distribution,
                        idx as int,
                    ),
            decreases self.sudts@.len() - i,
        {
            let x = &self.sudts.entries[i];
            let y = &other.sudts.entries[i];
            assert(self.sudts@[i as int] == x@);
            assert(other.sudts@[i as int] == y@);
            if !(script_eq(&x.asset.type_script, &y.asset.type_script) && x.asset.max_capacity
                == y.asset.max_capacity) {
                return Ok(false);
            }
            let u = match x.distribution.get(idx) {
                Ok(v) => v,
                Err(e) => {
                    return Err(e);
                },
            };
            let v = match y.distribution.get(idx) {
                Ok(v) => v,
                Err(e) => {
                    return Err(e);
                },
            };
            if u != v {
                return Ok(false);
            }
            i = i + 1;
        }
        Ok(true)
    }

    /// Whether both balances are the same.
    pub fn equal(&self, other: &Balances) -> (r: bool)
        ensures
            r == (self@ == other@),
    {
        if !self.ckbytes.equal(&other.ckbytes) {
            assert(self@.ckbytes != other@.ckbytes);
            return false;
        }
        if self.sudts.entries.len() != other.sudts.entries.len() {
            assert(self@.sudts.len() != other@.sudts.len());
            return false;
        }
        let mut i: usize = 0;
        while i < self.sudts.entries.len()
            invariant
                i <= self.sudts@.len(),
                self.sudts@.len() == self.sudts.entries@.len(),
                other.sudts@.len() == other.sudts.entries@.len(),
                self.sudts@.len() == other.sudts@.len(),
                forall|k: int| 0 <= k < i ==> #[trigger] self@.sudts[k] == other@.sudts[k],
            decreases self.sudts@.len() - i,
        {
            let x = &self.sudts.entries[i];
            let y = &other.sudts.entries[i];
            assert(self.sudts@[i as int] == x@);
            assert(other.sudts@[i as int] == y@);
            if !(script_eq(&x.asset.type_script, &y.asset.type_script) && x.asset.max_capacity
                == y.asset.max_capacity && x.distribution.equal(&y.distribution)) {
                assert(self@.sudts[i as int] != other@.sudts[i as int]);
                return false;
            }
            i = i + 1;
        }
        assert(self@.sudts =~= other@.sudts);
        true
    }

    /// Whether both balances list the same assets with the same total per asset.
    pub fn equal_in_sum(&self, other: &Balances) -> (r: Result<bool, Error>)
        ensures
            r == Ok::<bool, Error>(equal_in_sum(self@, other@)),
    {
        if self.ckbytes.sum() != other.ckbytes.sum() {
            return Ok(false);
        }
        if self.sudts.entries.len() != other.sudts.entries.len() {
            return Ok(false);
        }
        let mut i: usize = 0;
        while i < self.sudts.entries.len()
            invariant
                i <= self.sudts@.len(),
                self.sudts@.len() == self.sudts.entries@.len(),
                other.sudts@.len() == other.sudts.entries@.len(),
                self.sudts@.len() == other.sudts@.len(),
                self.ckbytes.nth0 + self.ckbytes.nth1 == other.ckbytes.nth0 + other.ckbytes.nth1,
                forall|k: int|
                    0 <= k < i ==> (#[trigger] self@.sudts[k]).asset == other@.sudts[k].asset
                        && self@.sudts[k].distribution.nth0 + self@.sudts[k].distribution.nth1
                        == other@.sudts[k].distribution.nth0 + other@.sudts[k].distribution.nth1,
            decreases self.sudts@.len() - i,
        {
            let x = &self.sudts.entries[i];
            let y = &other.sudts.entries[i];
            assert(self.sudts@[i as int] == x@);
            assert(other.sudts@[i as int] == y@);
            if !(script_eq(&x.asset.type_script, &y.asset.type_script) && x.asset.max_capacity
                == y.asset.max_capacity) {
                return Ok(false);
            }
            if !x.distribution.equal_sum(&y.distribution) {
                return Ok(false);
            }
            i = i + 1;
        }
        Ok(true)
    }
}

} // verus!
