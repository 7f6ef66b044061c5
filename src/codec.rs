//! Reading and writing the channel's records. Each reader accepts exactly the bytes
//! that the matching writer produces, and gives back the value that was written.
use vstd::prelude::*;
use crate::bytes::{le_value, le_bytes, word, read_le, read_word, push_le, lemma_word, lemma_le_value_of_bytes, lemma_le_bytes_of_value, lemma_pow256_values};
use crate::error::Error;
use crate::layout::{framed, slices, offsets_ok, parse_frame, table_bytes, table_fits, views, write_table, push_all, push_word, concat, offset_words};
use crate::model::{Script, ScriptModel, OutPoint, OutPointModel, ChannelToken, Participant, ParticipantModel, ChannelParameters, ParamsModel, opt_view, ChannelConstants, ConstantsModel, CKByteDistribution, SUDTDistribution, SUDTAsset, AssetModel, SUDTBalances, SudtModel, SUDTAllocation, Balances, BalancesModel, ChannelState, StateModel, ChannelStatus, StatusModel, ChannelWitness, WitnessModel, u32_bytes, u64_bytes, bytes_field, bytes_fits, bool_bytes, opt_bytes, opt_fits, script_fields, ser_script, wf_script, ser_out_point, wf_out_point, participant_fields, ser_participant, wf_participant, params_fields, ser_params, wf_params, constants_fields, ser_constants, wf_constants, ser_ckbytes, ser_sudt_distribution, asset_fields, ser_asset, wf_asset, sudt_fields, ser_sudt, wf_sudt, allocation_items, ser_allocation, wf_allocation, balances_fields, ser_balances, wf_balances, state_fields, ser_state, wf_state, status_fields, ser_status, wf_status, witness_tag, witness_fields, ser_witness, wf_witness};

verus! {

/// A copy of `b[lo..hi]`.
pub fn copy_range(b: &[u8], lo: usize, hi: usize) -> (r: Vec<u8>)
    requires
        lo <= hi <= b@.len(),
    ensures
        r@ == b@.subrange(lo as int, hi as int),
{
    let mut out: Vec<u8> = Vec::new();
    let mut i: usize = lo;
    while i < hi
        invariant
            lo <= i <= hi <= b@.len(),
            out@ == b@.subrange(lo as int, i as int),
        decreases hi - i,
    {
        out.push(b[i]);
        i = i + 1;
        assert(out@ =~= b@.subrange(lo as int, i as int));
    }
    out
}

/// `b[lo..hi]` as a field of exactly `n` bytes.
pub fn parse_fixed(b: &[u8], lo: usize, hi: usize, n: usize) -> (r: Result<Vec<u8>, Error>)
    requires
        lo <= hi <= b@.len(),
    ensures
        r is Ok <==> hi - lo == n,
        r is Ok ==> r->Ok_0@ == b@.subrange(lo as int, hi as int),
        r is Err ==> r->Err_0 == Error::TotalSizeNotMatch,
{
    if hi - lo != n {
        return Err(Error::TotalSizeNotMatch);
    }
    Ok(copy_range(b, lo, hi))
}

/// `b[lo..hi]` as one byte.
pub fn parse_byte(b: &[u8], lo: usize, hi: usize) -> (r: Result<u8, Error>)
    requires
        lo <= hi <= b@.len(),
    ensures
        r is Ok <==> hi - lo == 1,
        r is Ok ==> seq![r->Ok_0] == b@.subrange(lo as int, hi as int),
        r is Err ==> r->Err_0 == Error::TotalSizeNotMatch,
        forall|x: u8| seq![x] == b@.subrange(lo as int, hi as int) ==> r == Ok::<u8, Error>(x),
{
    proof {
        assert forall|y: u8| seq![y] == b@.subrange(lo as int, hi as int) implies hi - lo == 1 by {
            assert(seq![y].len() == 1);
        }
    }
    if hi - lo != 1 {
        return Err(Error::TotalSizeNotMatch);
    }
    let x = b[lo];
    assert(seq![x] =~= b@.subrange(lo as int, hi as int));
    proof {
        assert forall|y: u8| seq![y] == b@.subrange(lo as int, hi as int) implies y == x by {
            assert(seq![y][0] == y);
        }
    }
    Ok(x)
}

/// `b[lo..hi]` as an 8-byte little-endian number.
pub fn parse_u64(b: &[u8], lo: usize, hi: usize) -> (r: Result<u64, Error>)
    requires
        lo <= hi <= b@.len(),
    ensures
        r is Ok <==> hi - lo == 8,
        r is Ok ==> u64_bytes(r->Ok_0) == b@.subrange(lo as int, hi as int),
        r is Err ==> r->Err_0 == Error::TotalSizeNotMatch,
        forall|x: u64| #[trigger]
            u64_bytes(x) == b@.subrange(lo as int, hi as int) ==> r == Ok::<u64, Error>(x),
{
    proof {
        lemma_pow256_values();
        assert forall|x: u64| #[trigger] u64_bytes(x) == b@.subrange(lo as int, hi as int) implies hi
            - lo == 8 && le_value(b@.subrange(lo as int, hi as int)) == x by {
            lemma_le_value_of_bytes(x as nat, 8);
        }
    }
    if hi - lo != 8 {
        return Err(Error::TotalSizeNotMatch);
    }
    let v = read_le(b, lo, 8);
    proof {
        lemma_le_bytes_of_value(b@.subrange(lo as int, hi as int));
    }
    Ok(v as u64)
}

/// `b[lo..hi]` as a byte string with its 4-byte length in front.
pub fn parse_bytes(b: &[u8], lo: usize, hi: usize) -> (r: Result<Vec<u8>, Error>)
    requires
        lo <= hi <= b@.len(),
    ensures
        r is Ok ==> bytes_fits(r->Ok_0@) && bytes_field(r->Ok_0@) == b@.subrange(
            lo as int,
            hi as int,
        ),
        r is Err ==> r->Err_0.is_format_error(),
        forall|s: Seq<u8>|
            bytes_fits(s) && #[trigger] bytes_field(s) == b@.subrange(lo as int, hi as int) ==> r
                is Ok && r->Ok_0@ == s,
{
    let ghost sub = b@.subrange(lo as int, hi as int);
    proof {
        assert forall|s: Seq<u8>| bytes_fits(s) && #[trigger] bytes_field(s) == sub implies hi - lo
            == 4 + s.len() && sub.subrange(0, 4) == word(s.len()) && sub.subrange(4, sub.len() as int)
            == s by {
            lemma_word(s.len());
            assert(sub.subrange(0, 4) =~= word(s.len()));
            assert(sub.subrange(4, sub.len() as int) =~= s);
        }
    }
    if hi - lo < 4 {
        return Err(Error::HeaderIsBroken);
    }
    let n = read_word(b, lo);
    proof {
        assert(b@.subrange(lo as int, lo + 4) =~= sub.subrange(0, 4));
        assert forall|s: Seq<u8>| bytes_fits(s) && #[trigger] bytes_field(s) == sub implies n
            == s.len() by {
            lemma_word(s.len());
        }
    }
    if hi - lo - 4 != n || n > 0xffff_fffb {
        return Err(Error::TotalSizeNotMatch);
    }
    let data = copy_range(b, lo + 4, hi);
    proof {
        lemma_word(n as nat);
        assert(sub =~= word(n as nat) + data@);
        assert forall|s: Seq<u8>| bytes_fits(s) && #[trigger] bytes_field(s) == sub implies data@
            == s by {
            assert(b@.subrange(lo + 4, hi as int) =~= sub.subrange(4, sub.len() as int));
        }
    }
    Ok(data)
}

/// `b[lo..hi]` as an absent (empty) or present byte string.
pub fn parse_opt_bytes(b: &[u8], lo: usize, hi: usize) -> (r: Result<Option<Vec<u8>>, Error>)
    requires
        lo <= hi <= b@.len(),
    ensures
        r is Ok ==> opt_fits(opt_view(r->Ok_0)) && opt_bytes(opt_view(r->Ok_0)) == b@.subrange(
            lo as int,
            hi as int,
        ),
        r is Err ==> r->Err_0.is_format_error(),
        forall|o: Option<Seq<u8>>|
            opt_fits(o) && #[trigger] opt_bytes(o) == b@.subrange(lo as int, hi as int) ==> r is Ok
                && opt_view(r->Ok_0) == o,
{
    let ghost sub = b@.subrange(lo as int, hi as int);
    proof {
        assert forall|o: Option<Seq<u8>>| opt_fits(o) && #[trigger] opt_bytes(o) == sub implies (
        hi == lo <==> o is None) by {
            assert(sub.len() == hi - lo);
            match o {
                Some(s) => {
                    lemma_word(s.len());
                    assert(opt_bytes(o).len() >= 4);
                },
                None => {},
            }
        }
    }
    if hi == lo {
        assert(sub =~= Seq::<u8>::empty());
        return Ok(None);
    }
    match parse_bytes(b, lo, hi) {
        Ok(v) => Ok(Some(v)),
        Err(e) => Err(e),
    }
}

pub proof fn lemma_empty_table()
    ensures
        table_bytes(Seq::<Seq<u8>>::empty()) == word(4),
        table_fits(Seq::<Seq<u8>>::empty()),
{
    reveal(table_bytes);
    let e = Seq::<Seq<u8>>::empty();
    assert(e.take(0) =~= e);
    assert(concat(e) =~= Seq::<u8>::empty());
    assert(offset_words(e, 0) =~= Seq::<u8>::empty());
    lemma_word(4);
    assert(word(4) + Seq::<u8>::empty() + Seq::<u8>::empty() =~= word(4));
}

/// `b[lo..hi]` as a boolean.
pub fn parse_bool(b: &[u8], lo: usize, hi: usize) -> (r: Result<bool, Error>)
    requires
        lo <= hi <= b@.len(),
    ensures
        r is Ok ==> bool_bytes(r->Ok_0) == b@.subrange(lo as int, hi as int),
        r is Err ==> r->Err_0.is_format_error(),
        forall|x: bool| #[trigger]
            bool_bytes(x) == b@.subrange(lo as int, hi as int) ==> r == Ok::<bool, Error>(x),
{
    let ghost sub = b@.subrange(lo as int, hi as int);
    proof {
        lemma_empty_table();
        lemma_word(0);
        lemma_word(1);
        lemma_word(4);
        assert forall|x: bool| #[trigger] bool_bytes(x) == sub implies hi - lo == 8 && sub.subrange(
            0,
            4,
        ) == word(if x { 0 } else { 1 }) && framed(
            b@,
            lo + 4,
            hi as int,
            Seq::<Seq<u8>>::empty(),
        ) by {
            reveal(framed);
            let w = word(if x { 0 } else { 1 });
            assert(w.len() == 4);
            assert(sub.len() == hi - lo);
            assert(sub.len() == 8);
            assert(sub.subrange(0, 4) =~= word(if x { 0 } else { 1 }));
            assert(b@.subrange(lo + 4, hi as int) =~= sub.subrange(4, 8));
            assert(sub.subrange(4, 8) =~= word(4));
        }
    }
    if hi - lo < 4 {
        return Err(Error::HeaderIsBroken);
    }
    let id = read_word(b, lo);
    proof {
        assert(b@.subrange(lo as int, lo + 4) =~= sub.subrange(0, 4));
    }
    if id > 1 {
        return Err(Error::UnknownItem);
    }
    match parse_frame(b, lo + 4, hi, Some(0)) {
        Ok(offs) => {
            proof {
                reveal(framed);
                assert(slices(b@, offs@) =~= Seq::<Seq<u8>>::empty());
                assert(sub =~= b@.subrange(lo as int, lo + 4) + b@.subrange(lo + 4, hi as int));
                assert(word(id as nat) == word(if id == 0 { 0 } else { 1 }));
                assert forall|x: bool| #[trigger] bool_bytes(x) == sub implies x == (id == 0) by {
                    if x != (id == 0) {
                        assert(le_value(word(if x { 0 } else { 1 })) == le_value(word(id as nat)));
                    }
                }
            }
            Ok(id == 0)
        },
        Err(e) => Err(e),
    }
}

/// Appends the serialized form of a byte string with its length.
pub fn write_bytes_field(s: &[u8]) -> (r: Vec<u8>)
    requires
        bytes_fits(s@),
    ensures
        r@ == bytes_field(s@),
{
    let mut out: Vec<u8> = Vec::new();
    push_word(&mut out, s.len());
    push_all(&mut out, s);
    out
}

pub fn write_u64(x: u64) -> (r: Vec<u8>)
    ensures
        r@ == u64_bytes(x),
{
    let mut out: Vec<u8> = Vec::new();
    proof {
        lemma_pow256_values();
    }
    push_le(&mut out, x as u128, 8);
    assert(out@ =~= u64_bytes(x));
    out
}

pub fn write_bool(x: bool) -> (r: Vec<u8>)
    ensures
        r@ == bool_bytes(x),
{
    let mut out: Vec<u8> = Vec::new();
    push_word(&mut out, if x { 0 } else { 1 });
    push_word(&mut out, 4);
    assert(out@ =~= bool_bytes(x));
    out
}

pub fn copy_vec(v: &Vec<u8>) -> (r: Vec<u8>)
    ensures
        r@ == v@,
{
    copy_range(v.as_slice(), 0, v.len())
}

pub open spec fn script_at(b: Seq<u8>, lo: int, hi: int, v: ScriptModel) -> bool {
    wf_script(v) && b.subrange(lo, hi) == ser_script(v)
}

/// The serialized form of a script.
pub fn write_script(s: &Script) -> (r: Vec<u8>)
    requires
        wf_script(s@),
    ensures
        r@ == ser_script(s@),
{
    let mut fields: Vec<Vec<u8>> = Vec::new();
    fields.push(copy_vec(&s.code_hash));
    let mut t: Vec<u8> = Vec::new();
    t.push(s.hash_type);
    fields.push(t);
    fields.push(write_bytes_field(s.args.as_slice()));
    assert(views(fields@) =~= script_fields(s@));
    write_table(&fields)
}

/// Reads a script from `b[lo..hi]`.
pub fn parse_script(b: &[u8], lo: usize, hi: usize) -> (r: Result<Script, Error>)
    requires
        lo <= hi <= b@.len(),
    ensures
        r is Ok ==> script_at(b@, lo as int, hi as int, r->Ok_0@),
        r is Err ==> r->Err_0.is_format_error(),
        forall|v: ScriptModel| #[trigger]
            script_at(b@, lo as int, hi as int, v) ==> r is Ok && r->Ok_0@ == v,
{
    proof {
        assert forall|v: ScriptModel| #[trigger] script_at(b@, lo as int, hi as int, v) implies framed(
            b@,
            lo as int,
            hi as int,
            script_fields(v),
        ) by {
            reveal(framed);
        }
    }
    let offs = match parse_frame(b, lo, hi, Some(3)) {
        Ok(o) => o,
        Err(e) => {
            return Err(e);
        },
    };
    let ghost f = slices(b@, offs@);
    proof {
        assert(offs@[0] <= offs@[1] && offs@[1] <= offs@[2] && offs@[2] <= offs@[3]);
        assert(f.len() == 3);
        assert(f[0] == b@.subrange(offs@[0] as int, offs@[1] as int));
        assert(f[1] == b@.subrange(offs@[1] as int, offs@[2] as int));
        assert(f[2] == b@.subrange(offs@[2] as int, offs@[3] as int));
        assert forall|v: ScriptModel| #[trigger] script_at(b@, lo as int, hi as int, v) implies {
            &&& f[0] == v.code_hash
            &&& f[1] == seq![v.hash_type]
            &&& f[2] == bytes_field(v.args)
            &&& bytes_fits(v.args)
        } by {
            assert(f == script_fields(v));
        }
    }
    let code_hash = match parse_fixed(b, offs[0], offs[1], 32) {
        Ok(x) => x,
        Err(e) => {
            return Err(e);
        },
    };
    let hash_type = match parse_byte(b, offs[1], offs[2]) {
        Ok(x) => x,
        Err(e) => {
            return Err(e);
        },
    };
    let args = match parse_bytes(b, offs[2], offs[3]) {
        Ok(x) => x,
        Err(e) => {
            return Err(e);
        },
    };
    let r = Script { code_hash, hash_type, args };
    proof {
        assert(f =~= script_fields(r@));
        reveal(framed);
    }
    Ok(r)
}

pub fn write_byte(x: u8) -> (r: Vec<u8>)
    ensures
        r@ == seq![x],
{
    let mut out: Vec<u8> = Vec::new();
    out.push(x);
    assert(out@ =~= seq![x]);
    out
}

pub fn write_opt_bytes(o: &Option<Vec<u8>>) -> (r: Vec<u8>)
    requires
        opt_fits(opt_view(*o)),
    ensures
        r@ == opt_bytes(opt_view(*o)),
{
    match o {
        Some(v) => write_bytes_field(v.as_slice()),
        None => {
            let out: Vec<u8> = Vec::new();
            assert(out@ =~= Seq::<u8>::empty());
            out
        },
    }
}

/// Reads the two little-endian numbers of `k` bytes each that fill `b[lo..lo + 2k]`.
fn read_pair(b: &[u8], lo: usize, k: usize) -> (r: (u128, u128))
    requires
        k == 8 || k == 16,
        lo + 2 * k <= b@.len(),
    ensures
        b@.subrange(lo as int, lo + 2 * k) == le_bytes(r.0 as nat, k as nat) + le_bytes(
            r.1 as nat,
            k as nat,
        ),
        k == 8 ==> r.0 < 0x1_0000_0000_0000_0000 && r.1 < 0x1_0000_0000_0000_0000,
        forall|x: nat, y: nat|
            x < crate::bytes::pow256(k as nat) && y < crate::bytes::pow256(k as nat) && #[trigger] (
            le_bytes(x, k as nat) + le_bytes(y, k as nat)) == b@.subrange(lo as int, lo + 2 * k)
                ==> r.0 == x && r.1 == y,
{
    let _len = b.len();
    let x0 = read_le(b, lo, k);
    let x1 = read_le(b, lo + k, k);
    proof {
        lemma_pow256_values();
        let s = b@.subrange(lo as int, lo + 2 * k);
        let s0 = b@.subrange(lo as int, lo + k);
        let s1 = b@.subrange(lo + k, lo + 2 * k);
        lemma_le_bytes_of_value(s0);
        lemma_le_bytes_of_value(s1);
        assert(s =~= s0 + s1);
        assert forall|x: nat, y: nat|
            x < crate::bytes::pow256(k as nat) && y < crate::bytes::pow256(k as nat) && #[trigger] (
            le_bytes(x, k as nat) + le_bytes(y, k as nat)) == s implies x0 == x && x1 == y by {
            lemma_le_value_of_bytes(x, k as nat);
            lemma_le_value_of_bytes(y, k as nat);
            assert(s0 =~= s.subrange(0, k as int));
            assert(s1 =~= s.subrange(k as int, 2 * k as int));
            assert(le_bytes(x, k as nat) =~= s.subrange(0, k as int));
            assert(le_bytes(y, k as nat) =~= s.subrange(k as int, 2 * k as int));
        }
    }
    (x0, x1)
}

pub open spec fn ckbytes_at(b: Seq<u8>, lo: int, hi: int, v: CKByteDistribution) -> bool {
    b.subrange(lo, hi) == ser_ckbytes(v)
}

pub fn write_ckbytes(d: CKByteDistribution) -> (r: Vec<u8>)
    ensures
        r@ == ser_ckbytes(d),
{
    let mut out = write_u64(d.nth0);
    let second = write_u64(d.nth1);
    push_all(&mut out, second.as_slice());
    out
}

/// Reads a native-asset distribution from `b[lo..hi]`.
pub fn parse_ckbytes(b: &[u8], lo: usize, hi: usize) -> (r: Result<CKByteDistribution, Error>)
    requires
        lo <= hi <= b@.len(),
    ensures
        r is Ok ==> ckbytes_at(b@, lo as int, hi as int, r->Ok_0),
        r is Err ==> r->Err_0.is_format_error(),
        forall|v: CKByteDistribution| #[trigger]
            ckbytes_at(b@, lo as int, hi as int, v) ==> r == Ok::<CKByteDistribution, Error>(v),
{
    proof {
        assert forall|v: CKByteDistribution| #[trigger] ckbytes_at(b@, lo as int, hi as int, v) implies hi
            - lo == 16 by {
            crate::bytes::lemma_le_bytes_len(v.nth0 as nat, 8);
            crate::bytes::lemma_le_bytes_len(v.nth1 as nat, 8);
            assert(ser_ckbytes(v).len() == 16);
            assert(b@.subrange(lo as int, hi as int).len() == hi - lo);
        }
    }
    if hi - lo != 16 {
        return Err(Error::TotalSizeNotMatch);
    }
    let (x0, x1) = read_pair(b, lo, 8);
    let d = CKByteDistribution { nth0: x0 as u64, nth1: x1 as u64 };
    proof {
        lemma_pow256_values();
        assert forall|v: CKByteDistribution| #[trigger] ckbytes_at(b@, lo as int, hi as int, v) implies v
            == d by {
            assert(le_bytes(v.nth0 as nat, 8) + le_bytes(v.nth1 as nat, 8) == b@.subrange(
                lo as int,
                lo + 16,
            ));
        }
    }
    Ok(d)
}

pub open spec fn sudt_distribution_at(b: Seq<u8>, lo: int, hi: int, v: SUDTDistribution) -> bool {
    b.subrange(lo, hi) == ser_sudt_distribution(v)
}

pub fn write_sudt_distribution(d: SUDTDistribution) -> (r: Vec<u8>)
    ensures
        r@ == ser_sudt_distribution(d),
{
    let mut out: Vec<u8> = Vec::new();
    proof {
        lemma_pow256_values();
    }
    push_le(&mut out, d.nth0, 16);
    push_le(&mut out, d.nth1, 16);
    out
}

/// Reads a token distribution from `b[lo..hi]`.
pub fn parse_sudt_distribution(b: &[u8], lo: usize, hi: usize) -> (r: Result<
    SUDTDistribution,
    Error,
>)
    requires
        lo <= hi <= b@.len(),
    ensures
        r is Ok ==> sudt_distribution_at(b@, lo as int, hi as int, r->Ok_0),
        r is Err ==> r->Err_0.is_format_error(),
        forall|v: SUDTDistribution| #[trigger]
            sudt_distribution_at(b@, lo as int, hi as int, v) ==> r == Ok::<SUDTDistribution, Error>(
                v,
            ),
{
    proof {
        assert forall|v: SUDTDistribution| #[trigger]
            sudt_distribution_at(b@, lo as int, hi as int, v) implies hi - lo == 32 by {
            crate::bytes::lemma_le_bytes_len(v.nth0 as nat, 16);
            crate::bytes::lemma_le_bytes_len(v.nth1 as nat, 16);
            assert(ser_sudt_distribution(v).len() == 32);
            assert(b@.subrange(lo as int, hi as int).len() == hi - lo);
        }
    }
    if hi - lo != 32 {
        return Err(Error::TotalSizeNotMatch);
    }
    let (x0, x1) = read_pair(b, lo, 16);
    let d = SUDTDistribution { nth0: x0, nth1: x1 };
    proof {
        lemma_pow256_values();
        assert forall|v: SUDTDistribution| #[trigger]
            sudt_distribution_at(b@, lo as int, hi as int, v) implies v == d by {
            assert(le_bytes(v.nth0 as nat, 16) + le_bytes(v.nth1 as nat, 16) == b@.subrange(
                lo as int,
                lo + 32,
            ));
        }
    }
    Ok(d)
}

pub open spec fn out_point_at(b: Seq<u8>, lo: int, hi: int, v: OutPointModel) -> bool {
    wf_out_point(v) && b.subrange(lo, hi) == ser_out_point(v)
}

pub fn write_out_point(o: &OutPoint) -> (r: Vec<u8>)
    requires
        wf_out_point(o@),
    ensures
        r@ == ser_out_point(o@),
{
    let mut out = copy_vec(&o.tx_hash);
    proof {
        lemma_pow256_values();
    }
    push_le(&mut out, o.index as u128, 4);
    out
}

/// Reads an out point from `b[lo..hi]`.
pub fn parse_out_point(b: &[u8], lo: usize, hi: usize) -> (r: Result<OutPoint, Error>)
    requires
        lo <= hi <= b@.len(),
    ensures
        r is Ok ==> out_point_at(b@, lo as int, hi as int, r->Ok_0@),
        r is Err ==> r->Err_0.is_format_error(),
        forall|v: OutPointModel| #[trigger]
            out_point_at(b@, lo as int, hi as int, v) ==> r is Ok && r->Ok_0@ == v,
{
    proof {
        assert forall|v: OutPointModel| #[trigger] out_point_at(b@, lo as int, hi as int, v) implies hi
            - lo == 36 by {
            crate::bytes::lemma_le_bytes_len(v.index as nat, 4);
            assert(ser_out_point(v).len() == 36);
            assert(b@.subrange(lo as int, hi as int).len() == hi - lo);
        }
    }
    if hi - lo != 36 {
        return Err(Error::TotalSizeNotMatch);
    }
    let tx_hash = copy_range(b, lo, lo + 32);
    let index = read_le(b, lo + 32, 4);
    let ghost s = b@.subrange(lo as int, hi as int);
    proof {
        lemma_pow256_values();
        lemma_le_bytes_of_value(b@.subrange(lo + 32, hi as int));
        assert(s =~= tx_hash@ + b@.subrange(lo + 32, hi as int));
    }
    let o = OutPoint { tx_hash, index: index as u32 };
    proof {
        assert forall|v: OutPointModel| #[trigger] out_point_at(b@, lo as int, hi as int, v) implies v
            == o@ by {
            lemma_le_value_of_bytes(v.index as nat, 4);
            assert(v.tx_hash =~= s.subrange(0, 32));
            assert(u32_bytes(v.index) =~= s.subrange(32, 36));
            assert(tx_hash@ =~= s.subrange(0, 32));
            assert(b@.subrange(lo + 32, hi as int) =~= s.subrange(32, 36));
        }
    }
    Ok(o)
}

pub open spec fn allocation_at(b: Seq<u8>, lo: int, hi: int, v: Seq<SudtModel>) -> bool {
    wf_allocation(v) && b.subrange(lo, hi) == ser_allocation(v)
}

/// The serialized form of a token list.
pub fn write_allocation(a: &SUDTAllocation) -> (r: Vec<u8>)
    requires
        wf_allocation(a@),
    ensures
        r@ == ser_allocation(a@),
{
    let mut items: Vec<Vec<u8>> = Vec::new();
    let mut i: usize = 0;
    while i < a.entries.len()
        invariant
            i <= a.entries@.len(),
            wf_allocation(a@),
            items@.len() == i,
            forall|j: int| 0 <= j < i ==> (#[trigger] items@[j])@ == ser_sudt(a@[j]),
        decreases a.entries@.len() - i,
    {
        assert(wf_sudt(a@[i as int]));
        items.push(write_sudt(&a.entries[i]));
        i = i + 1;
    }
    assert(views(items@) =~= allocation_items(a@));
    write_table(&items)
}

/// Reads a token list from `b[lo..hi]`.
pub fn parse_allocation(b: &[u8], lo: usize, hi: usize) -> (r: Result<SUDTAllocation, Error>)
    requires
        lo <= hi <= b@.len(),
    ensures
        r is Ok ==> allocation_at(b@, lo as int, hi as int, r->Ok_0@),
        r is Err ==> r->Err_0.is_format_error(),
        forall|v: Seq<SudtModel>| #[trigger]
            allocation_at(b@, lo as int, hi as int, v) ==> r is Ok && r->Ok_0@ == v,
{
    proof {
        assert forall|v: Seq<SudtModel>| #[trigger] allocation_at(b@, lo as int, hi as int, v) implies framed(
            b@,
            lo as int,
            hi as int,
            allocation_items(v),
        ) by {
            reveal(framed);
        }
    }
    let offs = match parse_frame(b, lo, hi, None) {
        Ok(o) => o,
        Err(e) => {
            return Err(e);
        },
    };
    let ghost f = slices(b@, offs@);
    let n = offs.len() - 1;
    proof {
        assert forall|v: Seq<SudtModel>| #[trigger] allocation_at(b@, lo as int, hi as int, v) implies v.len()
            == n && forall|j: int|
            0 <= j < n ==> #[trigger] sudt_at(b@, offs@[j] as int, offs@[j + 1] as int, v[j]) by {
            assert(f == allocation_items(v));
            assert forall|j: int| 0 <= j < n implies #[trigger] sudt_at(
                b@,
                offs@[j] as int,
                offs@[j + 1] as int,
                v[j],
            ) by {
                assert(f[j] == ser_sudt(v[j]));
                assert(wf_sudt(v[j]));
            }
        }
    }
    let mut entries: Vec<SUDTBalances> = Vec::new();
    let mut i: usize = 0;
    while i < n
        invariant
            offsets_ok(offs@, lo as int, hi as int),
            n == offs@.len() - 1,
            hi <= b@.len(),
            i <= n,
            entries@.len() == i,
            forall|j: int|
                0 <= j < i ==> sudt_at(b@, offs@[j] as int, offs@[j + 1] as int, #[trigger] entries@[j]@),
            forall|v: Seq<SudtModel>| #[trigger]
                allocation_at(b@, lo as int, hi as int, v) ==> v.len() == n && forall|j: int|
                    0 <= j < n ==> #[trigger] sudt_at(b@, offs@[j] as int, offs@[j + 1] as int, v[j]),
            forall|v: Seq<SudtModel>| #[trigger]
                allocation_at(b@, lo as int, hi as int, v) ==> forall|j: int|
                    0 <= j < i ==> #[trigger] entries@[j]@ == v[j],
        decreases n - i,
    {
        assert(offs@[i as int] <= offs@[i + 1]);
        let e = match parse_sudt(b, offs[i], offs[i + 1]) {
            Ok(x) => x,
            Err(e) => {
                proof {
                    assert forall|v: Seq<SudtModel>| #[trigger]
                        allocation_at(b@, lo as int, hi as int, v) implies false by {
                        assert(sudt_at(b@, offs@[i as int] as int, offs@[i + 1] as int, v[i as int]));
                    }
                }
                return Err(e);
            },
        };
        proof {
            assert forall|v: Seq<SudtModel>| #[trigger] allocation_at(b@, lo as int, hi as int, v) implies e@
                == v[i as int] by {
                assert(sudt_at(b@, offs@[i as int] as int, offs@[i + 1] as int, v[i as int]));
            }
        }
        entries.push(e);
        i = i + 1;
    }
    let a = SUDTAllocation { entries };
    proof {
        assert forall|j: int| 0 <= j < n implies #[trigger] f[j] == ser_sudt(a@[j]) && wf_sudt(a@[j]) by {
            assert(sudt_at(b@, offs@[j] as int, offs@[j + 1] as int, a.entries@[j]@));
        }
        assert(f =~= allocation_items(a@));
        reveal(framed);
        assert forall|v: Seq<SudtModel>| #[trigger] allocation_at(b@, lo as int, hi as int, v) implies a@
            == v by {
            assert(a@ =~= v);
        }
    }
    Ok(a)
}

pub open spec fn participant_at(b: Seq<u8>, lo: int, hi: int, v: ParticipantModel) -> bool {
    wf_participant(v) && b.subrange(lo, hi) == ser_participant(v)
}

/// The serialized form of a participant.
pub fn write_participant(s: &Participant) -> (r: Vec<u8>)
    requires
        wf_participant(s@),
    ensures
        r@ == ser_participant(s@),
{
    let mut fields: Vec<Vec<u8>> = Vec::new();
    fields.push(copy_vec(&s.pub_key));
    fields.push(copy_vec(&s.payment_script_hash));
    fields.push(write_u64(s.payment_min_capacity));
    fields.push(copy_vec(&s.unlock_script_hash));
    assert(views(fields@) =~= participant_fields(s@));
    write_table(&fields)
}

/// Reads a participant from `b[lo..hi]`.
pub fn parse_participant(b: &[u8], lo: usize, hi: usize) -> (r: Result<Participant, Error>)
    requires
        lo <= hi <= b@.len(),
    ensures
        r is Ok ==> participant_at(b@, lo as int, hi as int, r->Ok_0@),
        r is Err ==> r->Err_0.is_format_error(),
        forall|v: ParticipantModel| #[trigger]
            participant_at(b@, lo as int, hi as int, v) ==> r is Ok && r->Ok_0@ == v,
{
    proof {
        assert forall|v: ParticipantModel| #[trigger] participant_at(b@, lo as int, hi as int, v) implies framed(
            b@,
            lo as int,
            hi as int,
            participant_fields(v),
        ) by {
            reveal(framed);
        }
    }
    let offs = match parse_frame(b, lo, hi, Some(4)) {
        Ok(o) => o,
        Err(e) => {
            return Err(e);
        },
    };
    let ghost f = slices(b@, offs@);
    proof {
        assert(offs@[0] <= offs@[1]);
        assert(f[0] == b@.subrange(offs@[0] as int, offs@[1] as int));
        assert(offs@[1] <= offs@[2]);
        assert(f[1] == b@.subrange(offs@[1] as int, offs@[2] as int));
        assert(offs@[2] <= offs@[3]);
        assert(f[2] == b@.subrange(offs@[2] as int, offs@[3] as int));
        assert(offs@[3] <= offs@[4]);
        assert(f[3] == b@.subrange(offs@[3] as int, offs@[4] as int));
        assert forall|v: ParticipantModel| #[trigger] participant_at(b@, lo as int, hi as int, v) implies {
            &&& f[0] == v.pub_key
            &&& f[1] == v.payment_script_hash
            &&& f[2] == u64_bytes(v.payment_min_capacity)
            &&& f[3] == v.unlock_script_hash
        } by {
            assert(f == participant_fields(v));
        }
    }
    let pub_key = match parse_fixed(b, offs[0], offs[1], 33) {
        Ok(x) => x,
        Err(e) => {
            return Err(e);
        },
    };
    let payment_script_hash = match parse_fixed(b, offs[1], offs[2], 32) {
        Ok(x) => x,
        Err(e) => {
            return Err(e);
        },
    };
    let payment_min_capacity = match parse_u64(b, offs[2], offs[3]) {
        Ok(x) => x,
        Err(e) => {
            return Err(e);
        },
    };
    let unlock_script_hash = match parse_fixed(b, offs[3], offs[4], 32) {
        Ok(x) => x,
        Err(e) => {
            return Err(e);
        },
    };
    let r = Participant { pub_key, payment_script_hash, payment_min_capacity, unlock_script_hash };
    proof {
        assert(f =~= participant_fields(r@));
        reveal(framed);
    }
    Ok(r)
}

pub open spec fn params_at(b: Seq<u8>, lo: int, hi: int, v: ParamsModel) -> bool {
    wf_params(v) && b.subrange(lo, hi) == ser_params(v)
}

/// The serialized form of channel parameters.
pub fn write_params(s: &ChannelParameters) -> (r: Vec<u8>)
    requires
        wf_params(s@),
    ensures
        r@ == ser_params(s@),
{
    let mut fields: Vec<Vec<u8>> = Vec::new();
    fields.push(write_participant(&s.party_a));
    fields.push(write_participant(&s.party_b));
    fields.push(copy_vec(&s.nonce));
    fields.push(write_u64(s.challenge_duration));
    fields.push(write_opt_bytes(&s.app));
    fields.push(write_bool(s.is_ledger_channel));
    fields.push(write_bool(s.is_virtual_channel));
    assert(views(fields@) =~= params_fields(s@));
    write_table(&fields)
}

/// Reads channel parameters from `b[lo..hi]`.
pub fn parse_params(b: &[u8], lo: usize, hi: usize) -> (r: Result<ChannelParameters, Error>)
    requires
        lo <= hi <= b@.len(),
    ensures
        r is Ok ==> params_at(b@, lo as int, hi as int, r->Ok_0@),
        r is Err ==> r->Err_0.is_format_error(),
        forall|v: ParamsModel| #[trigger]
            params_at(b@, lo as int, hi as int, v) ==> r is Ok && r->Ok_0@ == v,
{
    proof {
        assert forall|v: ParamsModel| #[trigger] params_at(b@, lo as int, hi as int, v) implies framed(
            b@,
            lo as int,
            hi as int,
            params_fields(v),
        ) by {
            reveal(framed);
        }
    }
    let offs = match parse_frame(b, lo, hi, Some(7)) {
        Ok(o) => o,
        Err(e) => {
            return Err(e);
        },
    };
    let ghost f = slices(b@, offs@);
    proof {
        assert(offs@[0] <= offs@[1]);
        assert(f[0] == b@.subrange(offs@[0] as int, offs@[1] as int));
        assert(offs@[1] <= offs@[2]);
        assert(f[1] == b@.subrange(offs@[1] as int, offs@[2] as int));
        assert(offs@[2] <= offs@[3]);
        assert(f[2] == b@.subrange(offs@[2] as int, offs@[3] as int));
        assert(offs@[3] <= offs@[4]);
        assert(f[3] == b@.subrange(offs@[3] as int, offs@[4] as int));
        assert(offs@[4] <= offs@[5]);
        assert(f[4] == b@.subrange(offs@[4] as int, offs@[5] as int));
        assert(offs@[5] <= offs@[6]);
        assert(f[5] == b@.subrange(offs@[5] as int, offs@[6] as int));
        assert(offs@[6] <= offs@[7]);
        assert(f[6] == b@.subrange(offs@[6] as int, offs@[7] as int));
        assert forall|v: ParamsModel| #[trigger] params_at(b@, lo as int, hi as int, v) implies {
            &&& f[0] == ser_participant(v.party_a)
            &&& participant_at(b@, offs@[0] as int, offs@[1] as int, v.party_a)
            &&& f[1] == ser_participant(v.party_b)
            &&& participant_at(b@, offs@[1] as int, offs@[2] as int, v.party_b)
            &&& f[2] == v.nonce
            &&& f[3] == u64_bytes(v.challenge_duration)
            &&& f[4] == opt_bytes(v.app)
            &&& opt_fits(v.app)
            &&& f[5] == bool_bytes(v.is_ledger_channel)
            &&& f[6] == bool_bytes(v.is_virtual_channel)
        } by {
            assert(f == params_fields(v));
        }
    }
    let party_a = match parse_participant(b, offs[0], offs[1]) {
        Ok(x) => x,
        Err(e) => {
            return Err(e);
        },
    };
    let party_b = match parse_participant(b, offs[1], offs[2]) {
        Ok(x) => x,
        Err(e) => {
            return Err(e);
        },
    };
    let nonce = match parse_fixed(b, offs[2], offs[3], 32) {
        Ok(x) => x,
        Err(e) => {
            return Err(e);
        },
    };
    let challenge_duration = match parse_u64(b, offs[3], offs[4]) {
        Ok(x) => x,
        Err(e) => {
            return Err(e);
        },
    };
    let app = match parse_opt_bytes(b, offs[4], offs[5]) {
        Ok(x) => x,
        Err(e) => {
            return Err(e);
        },
    };
    let is_ledger_channel = match parse_bool(b, offs[5], offs[6]) {
        Ok(x) => x,
        Err(e) => {
            return Err(e);
        },
    };
    let is_virtual_channel = match parse_bool(b, offs[6], offs[7]) {
        Ok(x) => x,
        Err(e) => {
            return Err(e);
        },
    };
    let r = ChannelParameters { party_a, party_b, nonce, challenge_duration, app, is_ledger_channel, is_virtual_channel };
    proof {
        assert(f =~= params_fields(r@));
        reveal(framed);
    }
    Ok(r)
}

pub open spec fn constants_at(b: Seq<u8>, lo: int, hi: int, v: ConstantsModel) -> bool {
    wf_constants(v) && b.subrange(lo, hi) == ser_constants(v)
}

/// The serialized form of channel constants.
pub fn write_constants(s: &ChannelConstants) -> (r: Vec<u8>)
    requires
        wf_constants(s@),
    ensures
        r@ == ser_constants(s@),
{
    let mut fields: Vec<Vec<u8>> = Vec::new();
    fields.push(write_params(&s.params));
    fields.push(copy_vec(&s.pfls_code_hash));
    fields.push(write_byte(s.pfls_hash_type));
    fields.push(write_u64(s.pfls_min_capacity));
    fields.push(copy_vec(&s.pcls_code_hash));
    fields.push(write_byte(s.pcls_hash_type));
    fields.push(write_out_point(&s.thread_token.out_point));
    assert(views(fields@) =~= constants_fields(s@));
    write_table(&fields)
}

/// Reads channel constants from `b[lo..hi]`.
pub fn parse_constants(b: &[u8], lo: usize, hi: usize) -> (r: Result<ChannelConstants, Error>)
    requires
        lo <= hi <= b@.len(),
    ensures
        r is Ok ==> constants_at(b@, lo as int, hi as int, r->Ok_0@),
        r is Err ==> r->Err_0.is_format_error(),
        forall|v: ConstantsModel| #[trigger]
            constants_at(b@, lo as int, hi as int, v) ==> r is Ok && r->Ok_0@ == v,
{
    proof {
        assert forall|v: ConstantsModel| #[trigger] constants_at(b@, lo as int, hi as int, v) implies framed(
            b@,
            lo as int,
            hi as int,
            constants_fields(v),
        ) by {
            reveal(framed);
        }
    }
    let offs = match parse_frame(b, lo, hi, Some(7)) {
        Ok(o) => o,
        Err(e) => {
            return Err(e);
        },
    };
    let ghost f = slices(b@, offs@);
    proof {
        assert(offs@[0] <= offs@[1]);
        assert(f[0] == b@.subrange(offs@[0] as int, offs@[1] as int));
        assert(offs@[1] <= offs@[2]);
        assert(f[1] == b@.subrange(offs@[1] as int, offs@[2] as int));
        assert(offs@[2] <= offs@[3]);
        assert(f[2] == b@.subrange(offs@[2] as int, offs@[3] as int));
        assert(offs@[3] <= offs@[4]);
        assert(f[3] == b@.subrange(offs@[3] as int, offs@[4] as int));
        assert(offs@[4] <= offs@[5]);
        assert(f[4] == b@.subrange(offs@[4] as int, offs@[5] as int));
        assert(offs@[5] <= offs@[6]);
        assert(f[5] == b@.subrange(offs@[5] as int, offs@[6] as int));
        assert(offs@[6] <= offs@[7]);
        assert(f[6] == b@.subrange(offs@[6] as int, offs@[7] as int));
        assert forall|v: ConstantsModel| #[trigger] constants_at(b@, lo as int, hi as int, v) implies {
            &&& f[0] == ser_params(v.params)
            &&& params_at(b@, offs@[0] as int, offs@[1] as int, v.params)
            &&& f[1] == v.pfls_code_hash
            &&& f[2] == seq![v.pfls_hash_type]
            &&& f[3] == u64_bytes(v.pfls_min_capacity)
            &&& f[4] == v.pcls_code_hash
            &&& f[5] == seq![v.pcls_hash_type]
            &&& f[6] == ser_out_point(v.thread_token)
            &&& out_point_at(b@, offs@[6] as int, offs@[7] as int, v.thread_token)
        } by {
            assert(f == constants_fields(v));
        }
    }
    let params = match parse_params(b, offs[0], offs[1]) {
        Ok(x) => x,
        Err(e) => {
            return Err(e);
        },
    };
    let pfls_code_hash = match parse_fixed(b, offs[1], offs[2], 32) {
        Ok(x) => x,
        Err(e) => {
            return Err(e);
        },
    };
    let pfls_hash_type = match parse_byte(b, offs[2], offs[3]) {
        Ok(x) => x,
        Err(e) => {
            return Err(e);
        },
    };
    let pfls_min_capacity = match parse_u64(b, offs[3], offs[4]) {
        Ok(x) => x,
        Err(e) => {
            return Err(e);
        },
    };
    let pcls_code_hash = match parse_fixed(b, offs[4], offs[5], 32) {
        Ok(x) => x,
        Err(e) => {
            return Err(e);
        },
    };
    let pcls_hash_type = match parse_byte(b, offs[5], offs[6]) {
        Ok(x) => x,
        Err(e) => {
            return Err(e);
        },
    };
    let thread_token = match parse_out_point(b, offs[6], offs[7]) {
        Ok(x) => x,
        Err(e) => {
            return Err(e);
        },
    };
    let r = ChannelConstants { params, pfls_code_hash, pfls_hash_type, pfls_min_capacity, pcls_code_hash, pcls_hash_type, thread_token: ChannelToken { out_point: thread_token } };
    proof {
        assert(f =~= constants_fields(r@));
        reveal(framed);
    }
    Ok(r)
}

pub open spec fn asset_at(b: Seq<u8>, lo: int, hi: int, v: AssetModel) -> bool {
    wf_asset(v) && b.subrange(lo, hi) == ser_asset(v)
}

/// The serialized form of a token asset.
pub fn write_asset(s: &SUDTAsset) -> (r: Vec<u8>)
    requires
        wf_asset(s@),
    ensures
        r@ == ser_asset(s@),
{
    let mut fields: Vec<Vec<u8>> = Vec::new();
    fields.push(write_script(&s.type_script));
    fields.push(write_u64(s.max_capacity));
    assert(views(fields@) =~= asset_fields(s@));
    write_table(&fields)
}

/// Reads a token asset from `b[lo..hi]`.
pub fn parse_asset(b: &[u8], lo: usize, hi: usize) -> (r: Result<SUDTAsset, Error>)
    requires
        lo <= hi <= b@.len(),
    ensures
        r is Ok ==> asset_at(b@, lo as int, hi as int, r->Ok_0@),
        r is Err ==> r->Err_0.is_format_error(),
        forall|v: AssetModel| #[trigger]
            asset_at(b@, lo as int, hi as int, v) ==> r is Ok && r->Ok_0@ == v,
{
    proof {
        assert forall|v: AssetModel| #[trigger] asset_at(b@, lo as int, hi as int, v) implies framed(
            b@,
            lo as int,
            hi as int,
            asset_fields(v),
        ) by {
            reveal(framed);
        }
    }
    let offs = match parse_frame(b, lo, hi, Some(2)) {
        Ok(o) => o,
        Err(e) => {
            return Err(e);
        },
    };
    let ghost f = slices(b@, offs@);
    proof {
        assert(offs@[0] <= offs@[1]);
        assert(f[0] == b@.subrange(offs@[0] as int, offs@[1] as int));
        assert(offs@[1] <= offs@[2]);
        assert(f[1] == b@.subrange(offs@[1] as int, offs@[2] as int));
        assert forall|v: AssetModel| #[trigger] asset_at(b@, lo as int, hi as int, v) implies {
            &&& f[0] == ser_script(v.type_script)
            &&& script_at(b@, offs@[0] as int, offs@[1] as int, v.type_script)
            &&& f[1] == u64_bytes(v.max_capacity)
        } by {
            assert(f == asset_fields(v));
        }
    }
    let type_script = match parse_script(b, offs[0], offs[1]) {
        Ok(x) => x,
        Err(e) => {
            return Err(e);
        },
    };
    let max_capacity = match parse_u64(b, offs[1], offs[2]) {
        Ok(x) => x,
        Err(e) => {
            return Err(e);
        },
    };
    let r = SUDTAsset { type_script, max_capacity };
    proof {
        assert(f =~= asset_fields(r@));
        reveal(framed);
    }
    Ok(r)
}

pub open spec fn sudt_at(b: Seq<u8>, lo: int, hi: int, v: SudtModel) -> bool {
    wf_sudt(v) && b.subrange(lo, hi) == ser_sudt(v)
}

/// The serialized form of a token with its distribution.
pub fn write_sudt(s: &SUDTBalances) -> (r: Vec<u8>)
    requires
        wf_sudt(s@),
    ensures
        r@ == ser_sudt(s@),
{
    let mut fields: Vec<Vec<u8>> = Vec::new();
    fields.push(write_asset(&s.asset));
    fields.push(write_sudt_distribution(s.distribution));
    assert(views(fields@) =~= sudt_fields(s@));
    write_table(&fields)
}

/// Reads a token with its distribution from `b[lo..hi]`.
pub fn parse_sudt(b: &[u8], lo: usize, hi: usize) -> (r: Result<SUDTBalances, Error>)
    requires
        lo <= hi <= b@.len(),
    ensures
        r is Ok ==> sudt_at(b@, lo as int, hi as int, r->Ok_0@),
        r is Err ==> r->Err_0.is_format_error(),
        forall|v: SudtModel| #[trigger]
            sudt_at(b@, lo as int, hi as int, v) ==> r is Ok && r->Ok_0@ == v,
{
    proof {
        assert forall|v: SudtModel| #[trigger] sudt_at(b@, lo as int, hi as int, v) implies framed(
            b@,
            lo as int,
            hi as int,
            sudt_fields(v),
        ) by {
            reveal(framed);
        }
    }
    let offs = match parse_frame(b, lo, hi, Some(2)) {
        Ok(o) => o,
        Err(e) => {
            return Err(e);
        },
    };
    let ghost f = slices(b@, offs@);
    proof {
        assert(offs@[0] <= offs@[1]);
        assert(f[0] == b@.subrange(offs@[0] as int, offs@[1] as int));
        assert(offs@[1] <= offs@[2]);
        assert(f[1] == b@.subrange(offs@[1] as int, offs@[2] as int));
        assert forall|v: SudtModel| #[trigger] sudt_at(b@, lo as int, hi as int, v) implies {
            &&& f[0] == ser_asset(v.asset)
            &&& asset_at(b@, offs@[0] as int, offs@[1] as int, v.asset)
            &&& f[1] == ser_sudt_distribution(v.distribution)
            &&& sudt_distribution_at(b@, offs@[1] as int, offs@[2] as int, v.distribution)
        } by {
            assert(f == sudt_fields(v));
        }
    }
    let asset = match parse_asset(b, offs[0], offs[1]) {
        Ok(x) => x,
        Err(e) => {
            return Err(e);
        },
    };
    let distribution = match parse_sudt_distribution(b, offs[1], offs[2]) {
        Ok(x) => x,
        Err(e) => {
            return Err(e);
        },
    };
    let r = SUDTBalances { asset, distribution };
    proof {
        assert(f =~= sudt_fields(r@));
        reveal(framed);
    }
    Ok(r)
}

pub open spec fn balances_at(b: Seq<u8>, lo: int, hi: int, v: BalancesModel) -> bool {
    wf_balances(v) && b.subrange(lo, hi) == ser_balances(v)
}

/// The serialized form of balances.
pub fn write_balances(s: &Balances) -> (r: Vec<u8>)
    requires
        wf_balances(s@),
    ensures
        r@ == ser_balances(s@),
{
    let mut fields: Vec<Vec<u8>> = Vec::new();
    fields.push(write_ckbytes(s.ckbytes));
    fields.push(write_allocation(&s.sudts));
    assert(views(fields@) =~= balances_fields(s@));
    write_table(&fields)
}

/// Reads balances from `b[lo..hi]`.
pub fn parse_balances(b: &[u8], lo: usize, hi: usize) -> (r: Result<Balances, Error>)
    requires
        lo <= hi <= b@.len(),
    ensures
        r is Ok ==> balances_at(b@, lo as int, hi as int, r->Ok_0@),
        r is Err ==> r->Err_0.is_format_error(),
        forall|v: BalancesModel| #[trigger]
            balances_at(b@, lo as int, hi as int, v) ==> r is Ok && r->Ok_0@ == v,
{
    proof {
        assert forall|v: BalancesModel| #[trigger] balances_at(b@, lo as int, hi as int, v) implies framed(
            b@,
            lo as int,
            hi as int,
            balances_fields(v),
        ) by {
            reveal(framed);
        }
    }
    let offs = match parse_frame(b, lo, hi, Some(2)) {
        Ok(o) => o,
        Err(e) => {
            return Err(e);
        },
    };
    let ghost f = slices(b@, offs@);
    proof {
        assert(offs@[0] <= offs@[1]);
        assert(f[0] == b@.subrange(offs@[0] as int, offs@[1] as int));
        assert(offs@[1] <= offs@[2]);
        assert(f[1] == b@.subrange(offs@[1] as int, offs@[2] as int));
        assert forall|v: BalancesModel| #[trigger] balances_at(b@, lo as int, hi as int, v) implies {
            &&& f[0] == ser_ckbytes(v.ckbytes)
            &&& ckbytes_at(b@, offs@[0] as int, offs@[1] as int, v.ckbytes)
            &&& f[1] == ser_allocation(v.sudts)
            &&& allocation_at(b@, offs@[1] as int, offs@[2] as int, v.sudts)
        } by {
            assert(f == balances_fields(v));
        }
    }
    let ckbytes = match parse_ckbytes(b, offs[0], offs[1]) {
        Ok(x) => x,
        Err(e) => {
            return Err(e);
        },
    };
    let sudts = match parse_allocation(b, offs[1], offs[2]) {
        Ok(x) => x,
        Err(e) => {
            return Err(e);
        },
    };
    let r = Balances { ckbytes, sudts };
    proof {
        assert(f =~= balances_fields(r@));
        reveal(framed);
    }
    Ok(r)
}

pub open spec fn state_at(b: Seq<u8>, lo: int, hi: int, v: StateModel) -> bool {
    wf_state(v) && b.subrange(lo, hi) == ser_state(v)
}

/// The serialized form of a channel state.
pub fn write_state(s: &ChannelState) -> (r: Vec<u8>)
    requires
        wf_state(s@),
    ensures
        r@ == ser_state(s@),
{
    let mut fields: Vec<Vec<u8>> = Vec::new();
    fields.push(copy_vec(&s.channel_id));
    fields.push(write_u64(s.version));
    fields.push(write_balances(&s.balances));
    fields.push(write_bool(s.is_final));
    assert(views(fields@) =~= state_fields(s@));
    write_table(&fields)
}

/// Reads a channel state from `b[lo..hi]`.
pub fn parse_state(b: &[u8], lo: usize, hi: usize) -> (r: Result<ChannelState, Error>)
    requires
        lo <= hi <= b@.len(),
    ensures
        r is Ok ==> state_at(b@, lo as int, hi as int, r->Ok_0@),
        r is Err ==> r->Err_0.is_format_error(),
        forall|v: StateModel| #[trigger]
            state_at(b@, lo as int, hi as int, v) ==> r is Ok && r->Ok_0@ == v,
{
    proof {
        assert forall|v: StateModel| #[trigger] state_at(b@, lo as int, hi as int, v) implies framed(
            b@,
            lo as int,
            hi as int,
            state_fields(v),
        ) by {
            reveal(framed);
        }
    }
    let offs = match parse_frame(b, lo, hi, Some(4)) {
        Ok(o) => o,
        Err(e) => {
            return Err(e);
        },
    };
    let ghost f = slices(b@, offs@);
    proof {
        assert(offs@[0] <= offs@[1]);
        assert(f[0] == b@.subrange(offs@[0] as int, offs@[1] as int));
        assert(offs@[1] <= offs@[2]);
        assert(f[1] == b@.subrange(offs@[1] as int, offs@[2] as int));
        assert(offs@[2] <= offs@[3]);
        assert(f[2] == b@.subrange(offs@[2] as int, offs@[3] as int));
        assert(offs@[3] <= offs@[4]);
        assert(f[3] == b@.subrange(offs@[3] as int, offs@[4] as int));
        assert forall|v: StateModel| #[trigger] state_at(b@, lo as int, hi as int, v) implies {
            &&& f[0] == v.channel_id
            &&& f[1] == u64_bytes(v.version)
            &&& f[2] == ser_balances(v.balances)
            &&& balances_at(b@, offs@[2] as int, offs@[3] as int, v.balances)
            &&& f[3] == bool_bytes(v.is_final)
        } by {
            assert(f == state_fields(v));
        }
    }
    let channel_id = match parse_fixed(b, offs[0], offs[1], 32) {
        Ok(x) => x,
        Err(e) => {
            return Err(e);
        },
    };
    let version = match parse_u64(b, offs[1], offs[2]) {
        Ok(x) => x,
        Err(e) => {
            return Err(e);
        },
    };
    let balances = match parse_balances(b, offs[2], offs[3]) {
        Ok(x) => x,
        Err(e) => {
            return Err(e);
        },
    };
    let is_final = match parse_bool(b, offs[3], offs[4]) {
        Ok(x) => x,
        Err(e) => {
            return Err(e);
        },
    };
    let r = ChannelState { channel_id, version, balances, is_final };
    proof {
        assert(f =~= state_fields(r@));
        reveal(framed);
    }
    Ok(r)
}

pub open spec fn status_at(b: Seq<u8>, lo: int, hi: int, v: StatusModel) -> bool {
    wf_status(v) && b.subrange(lo, hi) == ser_status(v)
}

/// The serialized form of a channel status.
pub fn write_status(s: &ChannelStatus) -> (r: Vec<u8>)
    requires
        wf_status(s@),
    ensures
        r@ == ser_status(s@),
{
    let mut fields: Vec<Vec<u8>> = Vec::new();
    fields.push(write_state(&s.state));
    fields.push(write_bool(s.funded));
    fields.push(write_bool(s.disputed));
    assert(views(fields@) =~= status_fields(s@));
    write_table(&fields)
}

/// Reads a channel status from `b[lo..hi]`.
pub fn parse_status(b: &[u8], lo: usize, hi: usize) -> (r: Result<ChannelStatus, Error>)
    requires
        lo <= hi <= b@.len(),
    ensures
        r is Ok ==> status_at(b@, lo as int, hi as int, r->Ok_0@),
        r is Err ==> r->Err_0.is_format_error(),
        forall|v: StatusModel| #[trigger]
            status_at(b@, lo as int, hi as int, v) ==> r is Ok && r->Ok_0@ == v,
{
    proof {
        assert forall|v: StatusModel| #[trigger] status_at(b@, lo as int, hi as int, v) implies framed(
            b@,
            lo as int,
            hi as int,
            status_fields(v),
        ) by {
            reveal(framed);
        }
    }
    let offs = match parse_frame(b, lo, hi, Some(3)) {
        Ok(o) => o,
        Err(e) => {
            return Err(e);
        },
    };
    let ghost f = slices(b@, offs@);
    proof {
        assert(offs@[0] <= offs@[1]);
        assert(f[0] == b@.subrange(offs@[0] as int, offs@[1] as int));
        assert(offs@[1] <= offs@[2]);
        assert(f[1] == b@.subrange(offs@[1] as int, offs@[2] as int));
        assert(offs@[2] <= offs@[3]);
        assert(f[2] == b@.subrange(offs@[2] as int, offs@[3] as int));
        assert forall|v: StatusModel| #[trigger] status_at(b@, lo as int, hi as int, v) implies {
            &&& f[0] == ser_state(v.state)
            &&& state_at(b@, offs@[0] as int, offs@[1] as int, v.state)
            &&& f[1] == bool_bytes(v.funded)
            &&& f[2] == bool_bytes(v.disputed)
        } by {
            assert(f == status_fields(v));
        }
    }
    let state = match parse_state(b, offs[0], offs[1]) {
        Ok(x) => x,
        Err(e) => {
            return Err(e);
        },
    };
    let funded = match parse_bool(b, offs[1], offs[2]) {
        Ok(x) => x,
        Err(e) => {
            return Err(e);
        },
    };
    let disputed = match parse_bool(b, offs[2], offs[3]) {
        Ok(x) => x,
        Err(e) => {
            return Err(e);
        },
    };
    let r = ChannelStatus { state, funded, disputed };
    proof {
        assert(f =~= status_fields(r@));
        reveal(framed);
    }
    Ok(r)
}

pub open spec fn witness_at(b: Seq<u8>, lo: int, hi: int, v: WitnessModel) -> bool {
    wf_witness(v) && b.subrange(lo, hi) == ser_witness(v)
}

/// The serialized form of a witness.
pub fn write_witness(w: &ChannelWitness) -> (r: Vec<u8>)
    requires
        wf_witness(w@),
    ensures
        r@ == ser_witness(w@),
{
    let mut fields: Vec<Vec<u8>> = Vec::new();
    let tag: usize = match w {
        ChannelWitness::Fund => 0,
        ChannelWitness::Dispute { sig_a, sig_b } => {
            fields.push(write_bytes_field(sig_a.as_slice()));
            fields.push(write_bytes_field(sig_b.as_slice()));
            1
        },
        ChannelWitness::Close { state, sig_a, sig_b } => {
            fields.push(write_state(state));
            fields.push(write_bytes_field(sig_a.as_slice()));
            fields.push(write_bytes_field(sig_b.as_slice()));
            2
        },
        ChannelWitness::ForceClose => 3,
        ChannelWitness::Abort => 4,
    };
    assert(views(fields@) =~= witness_fields(w@));
    let body = write_table(&fields);
    let mut out: Vec<u8> = Vec::new();
    push_word(&mut out, tag);
    push_all(&mut out, body.as_slice());
    out
}

/// Reads a witness from `b[lo..hi]`: a variant number, then the variant's table.
pub fn parse_witness(b: &[u8], lo: usize, hi: usize) -> (r: Result<ChannelWitness, Error>)
    requires
        lo <= hi <= b@.len(),
    ensures
        r is Ok ==> witness_at(b@, lo as int, hi as int, r->Ok_0@),
        r is Err ==> r->Err_0.is_format_error(),
        forall|v: WitnessModel| #[trigger]
            witness_at(b@, lo as int, hi as int, v) ==> r is Ok && r->Ok_0@ == v,
{
    let ghost sub = b@.subrange(lo as int, hi as int);
    proof {
        assert forall|v: WitnessModel| #[trigger] witness_at(b@, lo as int, hi as int, v) implies hi
            - lo >= 4 && sub.subrange(0, 4) == word(witness_tag(v)) && le_value(word(witness_tag(v)))
            == witness_tag(v) && framed(b@, lo + 4, hi as int, witness_fields(v)) by {
            lemma_word(witness_tag(v));
            reveal(framed);
            assert(sub.len() == hi - lo);
            assert(sub.subrange(0, 4) =~= word(witness_tag(v)));
            assert(b@.subrange(lo + 4, hi as int) =~= sub.subrange(4, sub.len() as int));
            assert(sub.subrange(4, sub.len() as int) =~= table_bytes(witness_fields(v)));
        }
    }
    if hi - lo < 4 {
        return Err(Error::HeaderIsBroken);
    }
    let tag = read_word(b, lo);
    proof {
        assert(b@.subrange(lo as int, lo + 4) =~= sub.subrange(0, 4));
    }
    if tag > 4 {
        return Err(Error::UnknownItem);
    }
    let count: usize = if tag == 1 {
        2
    } else if tag == 2 {
        3
    } else {
        0
    };
    let offs = match parse_frame(b, lo + 4, hi, Some(count)) {
        Ok(o) => o,
        Err(e) => {
            return Err(e);
        },
    };
    let ghost f = slices(b@, offs@);
    proof {
        assert(offs@[0] <= offs@[count as int]);
    }
    let w = if tag == 1 {
        proof {
            assert(offs@[0] <= offs@[1] && offs@[1] <= offs@[2]);
            assert(f[0] == b@.subrange(offs@[0] as int, offs@[1] as int));
            assert(f[1] == b@.subrange(offs@[1] as int, offs@[2] as int));
        }
        let sig_a = match parse_bytes(b, offs[0], offs[1]) {
            Ok(x) => x,
            Err(e) => {
                return Err(e);
            },
        };
        let sig_b = match parse_bytes(b, offs[1], offs[2]) {
            Ok(x) => x,
            Err(e) => {
                return Err(e);
            },
        };
        ChannelWitness::Dispute { sig_a, sig_b }
    } else if tag == 2 {
        proof {
            assert(offs@[0] <= offs@[1] && offs@[1] <= offs@[2] && offs@[2] <= offs@[3]);
            assert(f[0] == b@.subrange(offs@[0] as int, offs@[1] as int));
            assert(f[1] == b@.subrange(offs@[1] as int, offs@[2] as int));
            assert(f[2] == b@.subrange(offs@[2] as int, offs@[3] as int));
            assert forall|v: WitnessModel| #[trigger] witness_at(b@, lo as int, hi as int, v) implies (
            v is Close && state_at(b@, offs@[0] as int, offs@[1] as int, v->Close_state)) by {
                lemma_word(witness_tag(v));
                lemma_word(2);
                assert(witness_tag(v) == 2);
                assert(f == witness_fields(v));
            }
        }
        let state = match parse_state(b, offs[0], offs[1]) {
            Ok(x) => x,
            Err(e) => {
                return Err(e);
            },
        };
        let sig_a = match parse_bytes(b, offs[1], offs[2]) {
            Ok(x) => x,
            Err(e) => {
                return Err(e);
            },
        };
        let sig_b = match parse_bytes(b, offs[2], offs[3]) {
            Ok(x) => x,
            Err(e) => {
                return Err(e);
            },
        };
        ChannelWitness::Close { state, sig_a, sig_b }
    } else if tag == 0 {
        ChannelWitness::Fund
    } else if tag == 3 {
        ChannelWitness::ForceClose
    } else {
        ChannelWitness::Abort
    };
    proof {
        assert(f =~= witness_fields(w@));
        reveal(framed);
        assert(sub =~= b@.subrange(lo as int, lo + 4) + b@.subrange(lo + 4, hi as int));
        assert(witness_tag(w@) == tag);
        assert forall|v: WitnessModel| #[trigger] witness_at(b@, lo as int, hi as int, v) implies w@
            == v by {
            lemma_word(witness_tag(v));
            assert(witness_tag(v) == tag);
            assert(f == witness_fields(v));
        }
    }
    Ok(w)
}

impl Script {
    /// Reads the value that `b` holds, which must be exactly its serialized form.
    pub fn from_slice(b: &[u8]) -> (r: Result<Script, Error>)
        ensures
            r is Ok ==> script_at(b@, 0, b@.len() as int, r->Ok_0@),
            r is Err ==> r->Err_0.is_format_error(),
            forall|v: ScriptModel| #[trigger] script_at(b@, 0, b@.len() as int, v) ==> r is Ok && r->Ok_0@ == v,
    {
        parse_script(b, 0, b.len())
    }

    /// The serialized form.
    pub fn to_bytes(&self) -> (r: Vec<u8>)
        requires
            wf_script(self@),
        ensures
            r@ == ser_script(self@),
    {
        write_script(self)
    }
}

impl ChannelParameters {
    /// Reads the value that `b` holds, which must be exactly its serialized form.
    pub fn from_slice(b: &[u8]) -> (r: Result<ChannelParameters, Error>)
        ensures
            r is Ok ==> params_at(b@, 0, b@.len() as int, r->Ok_0@),
            r is Err ==> r->Err_0.is_format_error(),
            forall|v: ParamsModel| #[trigger] params_at(b@, 0, b@.len() as int, v) ==> r is Ok && r->Ok_0@ == v,
    {
        parse_params(b, 0, b.len())
    }

    /// The serialized form.
    pub fn to_bytes(&self) -> (r: Vec<u8>)
        requires
            wf_params(self@),
        ensures
            r@ == ser_params(self@),
    {
        write_params(self)
    }
}

impl ChannelConstants {
    /// Reads the value that `b` holds, which must be exactly its serialized form.
    pub fn from_slice(b: &[u8]) -> (r: Result<ChannelConstants, Error>)
        ensures
            r is Ok ==> constants_at(b@, 0, b@.len() as int, r->Ok_0@),
            r is Err ==> r->Err_0.is_format_error(),
            forall|v: ConstantsModel| #[trigger] constants_at(b@, 0, b@.len() as int, v) ==> r is Ok && r->Ok_0@ == v,
    {
        parse_constants(b, 0, b.len())
    }

    /// The serialized form.
    pub fn to_bytes(&self) -> (r: Vec<u8>)
        requires
            wf_constants(self@),
        ensures
            r@ == ser_constants(self@),
    {
        write_constants(self)
    }
}

impl ChannelState {
    /// Reads the value that `b` holds, which must be exactly its serialized form.
    pub fn from_slice(b: &[u8]) -> (r: Result<ChannelState, Error>)
        ensures
            r is Ok ==> state_at(b@, 0, b@.len() as int, r->Ok_0@),
            r is Err ==> r->Err_0.is_format_error(),
            forall|v: StateModel| #[trigger] state_at(b@, 0, b@.len() as int, v) ==> r is Ok && r->Ok_0@ == v,
    {
        parse_state(b, 0, b.len())
    }

    /// The serialized form.
    pub fn to_bytes(&self) -> (r: Vec<u8>)
        requires
            wf_state(self@),
        ensures
            r@ == ser_state(self@),
    {
        write_state(self)
    }
}

impl ChannelStatus {
    /// Reads the value that `b` holds, which must be exactly its serialized form.
    pub fn from_slice(b: &[u8]) -> (r: Result<ChannelStatus, Error>)
        ensures
            r is Ok ==> status_at(b@, 0, b@.len() as int, r->Ok_0@),
            r is Err ==> r->Err_0.is_format_error(),
            forall|v: StatusModel| #[trigger] status_at(b@, 0, b@.len() as int, v) ==> r is Ok && r->Ok_0@ == v,
    {
        parse_status(b, 0, b.len())
    }

    /// The serialized form.
    pub fn to_bytes(&self) -> (r: Vec<u8>)
        requires
            wf_status(self@),
        ensures
            r@ == ser_status(self@),
    {
        write_status(self)
    }
}

impl ChannelWitness {
    /// Reads the value that `b` holds, which must be exactly its serialized form.
    pub fn from_slice(b: &[u8]) -> (r: Result<ChannelWitness, Error>)
        ensures
            r is Ok ==> witness_at(b@, 0, b@.len() as int, r->Ok_0@),
            r is Err ==> r->Err_0.is_format_error(),
            forall|v: WitnessModel| #[trigger] witness_at(b@, 0, b@.len() as int, v) ==> r is Ok && r->Ok_0@ == v,
    {
        parse_witness(b, 0, b.len())
    }

    /// The serialized form.
    pub fn to_bytes(&self) -> (r: Vec<u8>)
        requires
            wf_witness(self@),
        ensures
            r@ == ser_witness(self@),
    {
        write_witness(self)
    }
}

} // verus!
