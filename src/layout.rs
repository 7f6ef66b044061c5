//! The length-prefixed layout of records: a table (and a vector of variable-size items)
//! is a 4-byte total size, one 4-byte offset per field, then the fields' bytes.
use vstd::prelude::*;
use crate::bytes::{word, le_value, read_word, push_le, lemma_word};
use crate::error::Error;

verus! {

/// The fields' bytes one after the other.
pub open spec fn concat(fs: Seq<Seq<u8>>) -> Seq<u8>
    decreases fs.len(),
{
    if fs.len() == 0 {
        seq![]
    } else {
        concat(fs.drop_last()) + fs.last()
    }
}

/// Size of the header of a table with `n` fields.
pub open spec fn header_size(n: nat) -> nat {
    4 * (n + 1)
}

/// Where field `i` starts, counted from the start of the table.
pub open spec fn field_offset(fs: Seq<Seq<u8>>, i: int) -> nat {
    header_size(fs.len()) + concat(fs.take(i)).len()
}

/// Total size of the table that holds `fs`.
pub open spec fn table_size(fs: Seq<Seq<u8>>) -> nat {
    field_offset(fs, fs.len() as int)
}

/// The offset words of the first `k` fields.
pub open spec fn offset_words(fs: Seq<Seq<u8>>, k: nat) -> Seq<u8>
    decreases k,
{
    if k == 0 {
        seq![]
    } else {
        offset_words(fs, (k - 1) as nat) + word(field_offset(fs, k - 1))
    }
}

/// The table (or vector) whose fields (or items) are `fs`.
#[verifier::opaque]
pub open spec fn table_bytes(fs: Seq<Seq<u8>>) -> Seq<u8> {
    word(table_size(fs)) + offset_words(fs, fs.len()) + concat(fs)
}

/// A table fits the layout when its size fits in a 4-byte word.
pub open spec fn table_fits(fs: Seq<Seq<u8>>) -> bool {
    table_size(fs) < 0x1_0000_0000
}

/// `b[lo..hi]` is exactly the table of the fields `fs`.
#[verifier::opaque]
pub open spec fn framed(b: Seq<u8>, lo: int, hi: int, fs: Seq<Seq<u8>>) -> bool {
    &&& table_fits(fs)
    &&& b.subrange(lo, hi) == table_bytes(fs)
}

/// The pieces of `b` between consecutive offsets.
pub open spec fn slices(b: Seq<u8>, offs: Seq<usize>) -> Seq<Seq<u8>> {
    Seq::new((offs.len() - 1) as nat, |i: int| b.subrange(offs[i] as int, offs[i + 1] as int))
}

/// Offsets that lie in `[lo, hi]`, ascend, and end at `hi`.
pub open spec fn offsets_ok(offs: Seq<usize>, lo: int, hi: int) -> bool {
    &&& offs.len() >= 1
    &&& offs[0] == lo + header_size((offs.len() - 1) as nat)
    &&& offs.last() == hi
    &&& forall|i: int| 0 <= i < offs.len() ==> lo <= #[trigger] offs[i] <= hi
    &&& forall|i: int, j: int| 0 <= i <= j < offs.len() ==> #[trigger] offs[i] <= #[trigger] offs[j]
}

pub proof fn lemma_concat_step(fs: Seq<Seq<u8>>, i: int)
    requires
        0 <= i < fs.len(),
    ensures
        concat(fs.take(i + 1)) == concat(fs.take(i)) + fs[i],
{
    let t = fs.take(i + 1);
    assert(t.drop_last() =~= fs.take(i));
}

pub proof fn lemma_concat_prefix(fs: Seq<Seq<u8>>, j: int, k: int)
    requires
        0 <= j <= k <= fs.len(),
    ensures
        concat(fs.take(j)).len() <= concat(fs.take(k)).len(),
        concat(fs.take(k)).subrange(0, concat(fs.take(j)).len() as int) == concat(fs.take(j)),
    decreases k - j,
{
    if j < k {
        lemma_concat_prefix(fs, j, k - 1);
        lemma_concat_step(fs, k - 1);
        let a = concat(fs.take(k - 1));
        assert((a + fs[k - 1]).subrange(0, concat(fs.take(j)).len() as int) =~= a.subrange(
            0,
            concat(fs.take(j)).len() as int,
        ));
    } else {
        assert(concat(fs.take(k)).subrange(0, concat(fs.take(k)).len() as int) =~= concat(
            fs.take(k),
        ));
    }
}

/// Field `i` sits between its offset and the next one.
pub proof fn lemma_concat_piece(fs: Seq<Seq<u8>>, i: int)
    requires
        0 <= i < fs.len(),
    ensures
        concat(fs).subrange(
            concat(fs.take(i)).len() as int,
            concat(fs.take(i + 1)).len() as int,
        ) == fs[i],
        concat(fs.take(i + 1)).len() == concat(fs.take(i)).len() + fs[i].len(),
        concat(fs.take(i + 1)).len() <= concat(fs).len(),
{
    assert(fs.take(fs.len() as int) =~= fs);
    lemma_concat_prefix(fs, i + 1, fs.len() as int);
    lemma_concat_step(fs, i);
    let a = concat(fs.take(i));
    let c = concat(fs);
    let e = concat(fs.take(i + 1)).len() as int;
    assert(c.subrange(a.len() as int, e) =~= c.subrange(0, e).subrange(a.len() as int, e));
    assert((a + fs[i]).subrange(a.len() as int, e) =~= fs[i]);
}

pub proof fn lemma_offset_words(fs: Seq<Seq<u8>>, k: nat, i: int)
    requires
        0 <= i < k,
    ensures
        offset_words(fs, k).len() == 4 * k,
        offset_words(fs, k).subrange(4 * i, 4 * i + 4) == word(field_offset(fs, i)),
    decreases k,
{
    lemma_offset_words_len(fs, k);
    lemma_word(field_offset(fs, k - 1));
    let prev = offset_words(fs, (k - 1) as nat);
    let w = word(field_offset(fs, k - 1));
    if i < k - 1 {
        lemma_offset_words(fs, (k - 1) as nat, i);
        assert((prev + w).subrange(4 * i, 4 * i + 4) =~= prev.subrange(4 * i, 4 * i + 4));
    } else {
        lemma_offset_words_len(fs, (k - 1) as nat);
        assert((prev + w).subrange(4 * i, 4 * i + 4) =~= w);
    }
}

pub proof fn lemma_offset_words_len(fs: Seq<Seq<u8>>, k: nat)
    ensures
        offset_words(fs, k).len() == 4 * k,
    decreases k,
{
    if k > 0 {
        lemma_offset_words_len(fs, (k - 1) as nat);
        lemma_word(field_offset(fs, k - 1));
    }
}

/// What a reader of a table finds in it: its size word, each offset word, each field.
#[verifier::rlimit(100)]
pub proof fn lemma_table_parts(fs: Seq<Seq<u8>>)
    requires
        table_fits(fs),
    ensures
        table_bytes(fs).len() == table_size(fs),
        table_bytes(fs).subrange(0, 4) == word(table_size(fs)),
        le_value(word(table_size(fs))) == table_size(fs),
        forall|i: int|
            0 <= i < fs.len() ==> {
                &&& table_bytes(fs).subrange(4 + 4 * i, 8 + 4 * i) == word(
                    #[trigger] field_offset(fs, i),
                )
                &&& le_value(word(field_offset(fs, i))) == field_offset(fs, i)
            },
        forall|i: int, j: int|
            0 <= i <= j <= fs.len() ==> #[trigger] field_offset(fs, i) <= #[trigger] field_offset(
                fs,
                j,
            ),
        forall|i: int|
            0 <= i < fs.len() ==> table_bytes(fs).subrange(
                field_offset(fs, i) as int,
                field_offset(fs, i + 1) as int,
            ) == #[trigger] fs[i],
{
    reveal(table_bytes);
    let n = fs.len();
    let t = table_bytes(fs);
    let h = word(table_size(fs));
    let ow = offset_words(fs, n);
    let c = concat(fs);
    lemma_word(table_size(fs));
    lemma_offset_words_len(fs, n);
    assert(fs.take(n as int) =~= fs);
    assert(t.subrange(0, 4) =~= h);
    assert forall|i: int| 0 <= i < fs.len() implies {
        &&& t.subrange(4 + 4 * i, 8 + 4 * i) == word(#[trigger] field_offset(fs, i))
        &&& le_value(word(field_offset(fs, i))) == field_offset(fs, i)
    } by {
        lemma_offset_words(fs, n, i);
        assert(t.subrange(4 + 4 * i, 8 + 4 * i) =~= ow.subrange(4 * i, 4 * i + 4));
        lemma_concat_prefix(fs, i, n as int);
        lemma_word(field_offset(fs, i));
    }
    assert forall|i: int, j: int| 0 <= i <= j <= fs.len() implies #[trigger] field_offset(fs, i)
        <= #[trigger] field_offset(fs, j) by {
        lemma_concat_prefix(fs, i, j);
    }
    assert forall|i: int| 0 <= i < fs.len() implies t.subrange(
        field_offset(fs, i) as int,
        field_offset(fs, i + 1) as int,
    ) == #[trigger] fs[i] by {
        lemma_concat_piece(fs, i);
        let a = field_offset(fs, i) as int;
        let e = field_offset(fs, i + 1) as int;
        let hs = header_size(n) as int;
        assert(t.subrange(a, e) =~= c.subrange(a - hs, e - hs));
    }
}

/// What `b[lo..hi]` holds when it is the table of `fs`.
#[verifier::rlimit(100)]
pub proof fn lemma_framed_parts(b: Seq<u8>, lo: int, hi: int, fs: Seq<Seq<u8>>)
    requires
        0 <= lo <= hi <= b.len(),
        framed(b, lo, hi, fs),
    ensures
        hi - lo == table_size(fs),
        table_size(fs) < 0x1_0000_0000,
        b.subrange(lo, lo + 4) == word(table_size(fs)),
        le_value(word(table_size(fs))) == table_size(fs),
        field_offset(fs, 0) == header_size(fs.len()),
        field_offset(fs, fs.len() as int) == table_size(fs),
        forall|i: int|
            0 <= i < fs.len() ==> {
                &&& b.subrange(lo + 4 + 4 * i, lo + 8 + 4 * i) == word(
                    #[trigger] field_offset(fs, i),
                )
                &&& le_value(word(field_offset(fs, i))) == field_offset(fs, i)
            },
        forall|i: int, j: int|
            0 <= i <= j <= fs.len() ==> #[trigger] field_offset(fs, i) <= #[trigger] field_offset(
                fs,
                j,
            ),
        forall|i: int|
            0 <= i < fs.len() ==> b.subrange(lo + field_offset(fs, i), lo + field_offset(fs, i + 1))
                == #[trigger] fs[i],
{
    lemma_framed_basic(b, lo, hi, fs);
    assert forall|i: int| 0 <= i < fs.len() implies {
        &&& b.subrange(lo + 4 + 4 * i, lo + 8 + 4 * i) == word(#[trigger] field_offset(fs, i))
        &&& le_value(word(field_offset(fs, i))) == field_offset(fs, i)
    } by {
        lemma_framed_word(b, lo, hi, fs, i);
    }
    assert forall|i: int| 0 <= i < fs.len() implies b.subrange(
        lo + field_offset(fs, i),
        lo + field_offset(fs, i + 1),
    ) == #[trigger] fs[i] by {
        lemma_framed_field(b, lo, hi, fs, i);
    }
}

proof fn lemma_framed_basic(b: Seq<u8>, lo: int, hi: int, fs: Seq<Seq<u8>>)
    requires
        0 <= lo <= hi <= b.len(),
        framed(b, lo, hi, fs),
    ensures
        hi - lo == table_size(fs),
        table_size(fs) < 0x1_0000_0000,
        b.subrange(lo, lo + 4) == word(table_size(fs)),
        le_value(word(table_size(fs))) == table_size(fs),
        field_offset(fs, 0) == header_size(fs.len()),
        field_offset(fs, fs.len() as int) == table_size(fs),
        forall|i: int, j: int|
            0 <= i <= j <= fs.len() ==> #[trigger] field_offset(fs, i) <= #[trigger] field_offset(
                fs,
                j,
            ),
{
    reveal(framed);
    lemma_table_parts(fs);
    assert(fs.take(0) =~= Seq::<Seq<u8>>::empty());
    lemma_sub_of_sub(b, lo, hi, 0, 4);
}

proof fn lemma_framed_word(b: Seq<u8>, lo: int, hi: int, fs: Seq<Seq<u8>>, i: int)
    requires
        0 <= lo <= hi <= b.len(),
        framed(b, lo, hi, fs),
        0 <= i < fs.len(),
    ensures
        b.subrange(lo + 4 + 4 * i, lo + 8 + 4 * i) == word(field_offset(fs, i)),
        le_value(word(field_offset(fs, i))) == field_offset(fs, i),
{
    reveal(framed);
    lemma_table_parts(fs);
    assert(table_bytes(fs).subrange(4 + 4 * i, 8 + 4 * i) == word(field_offset(fs, i)));
    lemma_sub_of_sub(b, lo, hi, 4 + 4 * i, 8 + 4 * i);
}

proof fn lemma_framed_field(b: Seq<u8>, lo: int, hi: int, fs: Seq<Seq<u8>>, i: int)
    requires
        0 <= lo <= hi <= b.len(),
        framed(b, lo, hi, fs),
        0 <= i < fs.len(),
    ensures
        b.subrange(lo + field_offset(fs, i), lo + field_offset(fs, i + 1)) == fs[i],
{
    reveal(framed);
    lemma_table_parts(fs);
    assert(table_bytes(fs).subrange(field_offset(fs, i) as int, field_offset(fs, i + 1) as int)
        == fs[i]);
    assert(field_offset(fs, i) <= field_offset(fs, i + 1));
    assert(field_offset(fs, i + 1) <= field_offset(fs, fs.len() as int));
    lemma_sub_of_sub(b, lo, hi, field_offset(fs, i) as int, field_offset(fs, i + 1) as int);
}

pub proof fn lemma_sub_of_sub(b: Seq<u8>, lo: int, hi: int, a: int, e: int)
    requires
        0 <= lo <= hi <= b.len(),
        0 <= a <= e <= hi - lo,
    ensures
        b.subrange(lo, hi).subrange(a, e) == b.subrange(lo + a, lo + e),
{
    assert(b.subrange(lo, hi).subrange(a, e) =~= b.subrange(lo + a, lo + e));
}

/// The bytes read from a frame are the table of its slices.
#[verifier::rlimit(50)]
pub proof fn lemma_frame_sound(b: Seq<u8>, lo: int, hi: int, offs: Seq<usize>)
    requires
        0 <= lo <= hi <= b.len(),
        hi - lo < 0x1_0000_0000,
        offsets_ok(offs, lo, hi),
        b.subrange(lo, lo + 4) == word((hi - lo) as nat),
        forall|i: int|
            0 <= i < offs.len() - 1 ==> b.subrange(lo + 4 + 4 * i, lo + 8 + 4 * i) == word(
                (#[trigger] offs[i] - lo) as nat,
            ),
    ensures
        framed(b, lo, hi, slices(b, offs)),
{
    reveal(framed);
    reveal(table_bytes);
    let fs = slices(b, offs);
    let n = fs.len();
    let hs = header_size(n) as int;
    assert forall|k: int| 0 <= k <= n implies {
        &&& concat(fs.take(k)) == b.subrange(offs[0] as int, #[trigger] offs[k] as int)
        &&& offset_words(fs, k as nat) == b.subrange(lo + 4, lo + 4 + 4 * k)
    } by {
        lemma_frame_prefix(b, lo, hi, offs, k);
    }
    assert(fs.take(n as int) =~= fs);
    assert(table_size(fs) == hi - lo);
    assert(b.subrange(lo, hi) =~= b.subrange(lo, lo + 4) + b.subrange(lo + 4, lo + hs)
        + b.subrange(lo + hs, hi));
}

#[verifier::rlimit(50)]
pub proof fn lemma_frame_prefix(b: Seq<u8>, lo: int, hi: int, offs: Seq<usize>, k: int)
    requires
        0 <= lo <= hi <= b.len(),
        offsets_ok(offs, lo, hi),
        0 <= k < offs.len(),
        forall|i: int|
            0 <= i < offs.len() - 1 ==> b.subrange(lo + 4 + 4 * i, lo + 8 + 4 * i) == word(
                (#[trigger] offs[i] - lo) as nat,
            ),
    ensures
        concat(slices(b, offs).take(k)) == b.subrange(offs[0] as int, offs[k] as int),
        offset_words(slices(b, offs), k as nat) == b.subrange(lo + 4, lo + 4 + 4 * k),
    decreases k,
{
    let fs = slices(b, offs);
    if k == 0 {
        assert(concat(fs.take(0)) =~= b.subrange(offs[0] as int, offs[0] as int));
        assert(offset_words(fs, 0) =~= b.subrange(lo + 4, lo + 4));
    } else {
        lemma_frame_prefix(b, lo, hi, offs, k - 1);
        lemma_concat_step(fs, k - 1);
        assert(offs[k - 1] <= offs[k]);
        assert(b.subrange(offs[0] as int, offs[k] as int) =~= b.subrange(
            offs[0] as int,
            offs[k - 1] as int,
        ) + b.subrange(offs[k - 1] as int, offs[k] as int));
        assert(field_offset(fs, k - 1) == offs[k - 1] - lo);
        assert(b.subrange(lo + 4, lo + 4 + 4 * k) =~= b.subrange(lo + 4, lo + 4 * k) + b.subrange(
            lo + 4 * k,
            lo + 4 + 4 * k,
        ));
    }
}

#[verifier::rlimit(100)]
/// Splits `b[lo..hi]` as a table with `count` fields, or, with no count given, as a
/// vector of variable-size items. Returns the offsets of the fields, then `hi`.
pub fn parse_frame(b: &[u8], lo: usize, hi: usize, count: Option<usize>) -> (r: Result<
    Vec<usize>,
    Error,
>)
    requires
        lo <= hi <= b@.len(),
    ensures
        r is Ok ==> {
            &&& offsets_ok(r->Ok_0@, lo as int, hi as int)
            &&& count is Some ==> r->Ok_0@.len() == count->0 + 1
            &&& framed(b@, lo as int, hi as int, slices(b@, r->Ok_0@))
        },
        r is Err ==> r->Err_0.is_format_error(),
        forall|fs: Seq<Seq<u8>>|
            (count is Some ==> fs.len() == count->0) && #[trigger] framed(
                b@,
                lo as int,
                hi as int,
                fs,
            ) ==> r is Ok && slices(b@, r->Ok_0@) == fs,
{
    let ghost bs = b@;
    let len = hi - lo;
    if len < 4 {
        proof {
            assert forall|fs: Seq<Seq<u8>>| #[trigger]
                framed(bs, lo as int, hi as int, fs) implies false by {
                lemma_framed_parts(bs, lo as int, hi as int, fs);
            }
        }
        return Err(Error::HeaderIsBroken);
    }
    let total = read_word(b, lo);
    if total != len {
        proof {
            assert forall|fs: Seq<Seq<u8>>| #[trigger]
                framed(bs, lo as int, hi as int, fs) implies false by {
                lemma_framed_parts(bs, lo as int, hi as int, fs);
            }
        }
        return Err(Error::TotalSizeNotMatch);
    }
    if len == 4 {
        let empty_ok = match count {
            Some(n) => n == 0,
            None => true,
        };
        proof {
            assert forall|fs: Seq<Seq<u8>>| #[trigger]
                framed(bs, lo as int, hi as int, fs) implies fs.len() == 0 by {
                lemma_framed_parts(bs, lo as int, hi as int, fs);
            }
        }
        if !empty_ok {
            return Err(Error::HeaderIsBroken);
        }
        let mut offs: Vec<usize> = Vec::new();
        offs.push(hi);
        proof {
            let e = Seq::<Seq<u8>>::empty();
            assert(slices(bs, offs@) =~= e);
            assert(concat(e) =~= Seq::<u8>::empty());
            assert(e.take(0) =~= e);
            assert(table_size(e) == 4);
            lemma_offset_words_len(e, 0);
            reveal(table_bytes);
            assert(bs.subrange(lo as int, hi as int) =~= table_bytes(e));
            reveal(framed);
            assert forall|fs: Seq<Seq<u8>>| #[trigger]
                framed(bs, lo as int, hi as int, fs) implies slices(bs, offs@) == fs by {
                lemma_framed_parts(bs, lo as int, hi as int, fs);
                assert(fs =~= e);
            }
        }
        return Ok(offs);
    }
    if len < 8 {
        proof {
            assert forall|fs: Seq<Seq<u8>>| #[trigger]
                framed(bs, lo as int, hi as int, fs) implies false by {
                lemma_framed_parts(bs, lo as int, hi as int, fs);
            }
        }
        return Err(Error::HeaderIsBroken);
    }
    let first = read_word(b, lo + 4);
    proof {
        assert forall|fs: Seq<Seq<u8>>| #[trigger]
            framed(bs, lo as int, hi as int, fs) implies first == header_size(fs.len()) && fs.len()
            > 0 && first <= len by {
            lemma_framed_parts(bs, lo as int, hi as int, fs);
            if fs.len() == 0 {
                assert(concat(fs) =~= Seq::<u8>::empty());
                assert(fs.take(0) =~= fs);
                assert(table_size(fs) == 4);
            } else {
                lemma_concat_prefix(fs, 0, fs.len() as int);
            }
            assert(field_offset(fs, 0) == header_size(fs.len()));
        }
    }
    if first % 4 != 0 || first < 8 {
        return Err(Error::OffsetsNotMatch);
    }
    if len < first {
        return Err(Error::HeaderIsBroken);
    }
    let n = first / 4 - 1;
    match count {
        Some(c) => {
            if c != n {
                return Err(Error::FieldCountNotMatch);
            }
        },
        None => {},
    }
    let mut offs: Vec<usize> = Vec::new();
    let mut i: usize = 0;
    while i < n
        invariant
            lo <= hi <= bs.len(),
            bs == b@,
            len == hi - lo,
            len < 0x1_0000_0000,
            first == 4 * (n + 1),
            first as nat == le_value(bs.subrange(lo + 4, lo + 8)),
            first <= len,
            i <= n,
            offs@.len() == i,
            forall|fs: Seq<Seq<u8>>| #[trigger] framed(bs, lo as int, hi as int, fs) ==> fs.len() == n,
            forall|j: int|
                0 <= j < i ==> bs.subrange(lo + 4 + 4 * j, lo + 8 + 4 * j) == word(
                    (#[trigger] offs@[j] - lo) as nat,
                ),
            forall|j: int|
                0 <= j < i ==> #[trigger] offs@[j] - lo == le_value(
                    bs.subrange(lo + 4 + 4 * j, lo + 8 + 4 * j),
                ),
            forall|j: int| 0 <= j < i ==> lo <= #[trigger] offs@[j] <= hi,
            i > 0 ==> offs@[0] == lo + first,
        decreases n - i,
    {
        let o = read_word(b, lo + 4 + 4 * i);
        if o > len {
            proof {
                assert forall|fs: Seq<Seq<u8>>| #[trigger]
                    framed(bs, lo as int, hi as int, fs) implies false by {
                    lemma_framed_parts(bs, lo as int, hi as int, fs);
                    lemma_concat_prefix(fs, i as int, fs.len() as int);
                    assert(field_offset(fs, i as int) <= table_size(fs));
                }
            }
            return Err(Error::OffsetsNotMatch);
        }
        offs.push(lo + o);
        i = i + 1;
    }
    offs.push(hi);
    proof {
        assert forall|fs: Seq<Seq<u8>>| #[trigger] framed(bs, lo as int, hi as int, fs) implies (
        fs.len() == n && forall|j: int|
            0 <= j <= n ==> #[trigger] offs@[j] == lo + field_offset(fs, j)) by {
            lemma_framed_parts(bs, lo as int, hi as int, fs);
            assert forall|j: int| 0 <= j <= n implies #[trigger] offs@[j] == lo + field_offset(
                fs,
                j,
            ) by {
                if j < n {
                    assert(field_offset(fs, j) == le_value(word(field_offset(fs, j))));
                }
            }
        }
    }
    let mut k: usize = 0;
    while k < n
        invariant
            k <= n,
            offs@.len() == n + 1,
            lo <= hi <= bs.len(),
            bs == b@,
            offs@[n as int] == hi,
            forall|j: int| 0 <= j <= n ==> lo <= #[trigger] offs@[j] <= hi,
            forall|a: int, j: int| 0 <= a <= j <= k ==> #[trigger] offs@[a] <= #[trigger] offs@[j],
            forall|fs: Seq<Seq<u8>>| #[trigger]
                framed(bs, lo as int, hi as int, fs) ==> (fs.len() == n && forall|j: int|
                    0 <= j <= n ==> #[trigger] offs@[j] == lo + field_offset(fs, j)),
        decreases n - k,
    {
        if offs[k] > offs[k + 1] {
            proof {
                assert forall|fs: Seq<Seq<u8>>| #[trigger]
                    framed(bs, lo as int, hi as int, fs) implies false by {
                    lemma_framed_parts(bs, lo as int, hi as int, fs);
                    assert(offs@[k as int] == lo + field_offset(fs, k as int));
                    assert(offs@[k + 1] == lo + field_offset(fs, k + 1));
                }
            }
            return Err(Error::OffsetsNotMatch);
        }
        k = k + 1;
    }
    proof {
        assert forall|j: int| 0 <= j < offs@.len() - 1 implies bs.subrange(
            lo + 4 + 4 * j,
            lo + 8 + 4 * j,
        ) == word((#[trigger] offs@[j] - lo) as nat) by {}
        assert(word(len as nat) == bs.subrange(lo as int, lo + 4));
        lemma_frame_sound(bs, lo as int, hi as int, offs@);
        assert forall|fs: Seq<Seq<u8>>| #[trigger] framed(bs, lo as int, hi as int, fs) implies slices(
            bs,
            offs@,
        ) == fs by {
            lemma_framed_parts(bs, lo as int, hi as int, fs);
            assert forall|j: int| 0 <= j < fs.len() implies #[trigger] slices(bs, offs@)[j]
                == fs[j] by {
                assert(offs@[j] == lo + field_offset(fs, j));
                assert(offs@[j + 1] == lo + field_offset(fs, j + 1));
            }
            assert(slices(bs, offs@) =~= fs);
        }
    }
    Ok(offs)
}

/// The views of a list of byte vectors.
pub open spec fn views(fs: Seq<Vec<u8>>) -> Seq<Seq<u8>> {
    fs.map_values(|f: Vec<u8>| f@)
}

/// Appends all bytes of `src`.
pub fn push_all(out: &mut Vec<u8>, src: &[u8])
    ensures
        final(out)@ == old(out)@ + src@,
{
    let mut i: usize = 0;
    while i < src.len()
        invariant
            i <= src@.len(),
            out@ == old(out)@ + src@.subrange(0, i as int),
        decreases src@.len() - i,
    {
        out.push(src[i]);
        i = i + 1;
        assert(out@ =~= old(out)@ + src@.subrange(0, i as int));
    }
    assert(src@.subrange(0, i as int) =~= src@);
}

/// Appends the 4-byte word `x`.
pub fn push_word(out: &mut Vec<u8>, x: usize)
    requires
        x < 0x1_0000_0000,
    ensures
        final(out)@ == old(out)@ + word(x as nat),
{
    proof {
        crate::bytes::lemma_pow256_values();
        reveal(word);
    }
    push_le(out, x as u128, 4);
}

/// The table (or vector) whose fields (or items) are `fields`.
pub fn write_table(fields: &Vec<Vec<u8>>) -> (r: Vec<u8>)
    requires
        table_fits(views(fields@)),
    ensures
        r@ == table_bytes(views(fields@)),
{
    let ghost fs = views(fields@);
    let n = fields.len();
    proof {
        lemma_concat_prefix(fs, 0, n as int);
        assert(fs.take(0) =~= Seq::<Seq<u8>>::empty());
        assert(fs.take(n as int) =~= fs);
    }
    let mut size: usize = 4 * (n + 1);
    let mut i: usize = 0;
    while i < n
        invariant
            n == fields@.len(),
            fs == views(fields@),
            table_fits(fs),
            fs.take(n as int) =~= fs,
            i <= n,
            size == field_offset(fs, i as int),
        decreases n - i,
    {
        proof {
            lemma_concat_step(fs, i as int);
            lemma_concat_prefix(fs, i + 1, n as int);
        }
        size = size + fields[i].len();
        i = i + 1;
    }
    let mut out: Vec<u8> = Vec::new();
    push_word(&mut out, size);
    let mut off: usize = 4 * (n + 1);
    i = 0;
    while i < n
        invariant
            n == fields@.len(),
            fs == views(fields@),
            table_fits(fs),
            fs.take(n as int) =~= fs,
            i <= n,
            off == field_offset(fs, i as int),
            out@ == word(table_size(fs)) + offset_words(fs, i as nat),
        decreases n - i,
    {
        proof {
            lemma_concat_step(fs, i as int);
            lemma_concat_prefix(fs, i + 1, n as int);
            lemma_concat_prefix(fs, i as int, n as int);
        }
        push_word(&mut out, off);
        off = off + fields[i].len();
        i = i + 1;
    }
    i = 0;
    while i < n
        invariant
            n == fields@.len(),
            fs == views(fields@),
            i <= n,
            out@ == word(table_size(fs)) + offset_words(fs, n as nat) + concat(fs.take(i as int)),
        decreases n - i,
    {
        proof {
            lemma_concat_step(fs, i as int);
        }
        let ghost before = out@;
        push_all(&mut out, fields[i].as_slice());
        assert(out@ =~= before + fs[i as int]);
        i = i + 1;
    }
    proof {
        assert(fs.take(n as int) =~= fs);
        reveal(table_bytes);
    }
    out
}

} // verus!
