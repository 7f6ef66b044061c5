//! Little-endian integers inside byte strings.
use vstd::prelude::*;

verus! {

/// `256^n`.
pub open spec fn pow256(n: nat) -> nat
    decreases n,
{
    if n == 0 {
        1
    } else {
        256 * pow256((n - 1) as nat)
    }
}

/// The number that the bytes `s` encode, least significant byte first.
pub open spec fn le_value(s: Seq<u8>) -> nat
    decreases s.len(),
{
    if s.len() == 0 {
        0
    } else {
        s[0] as nat + 256 * le_value(s.drop_first())
    }
}

/// The `n` least significant bytes of `x`, least significant first.
pub open spec fn le_bytes(x: nat, n: nat) -> Seq<u8>
    decreases n,
{
    if n == 0 {
        seq![]
    } else {
        seq![(x % 256) as u8] + le_bytes(x / 256, (n - 1) as nat)
    }
}

pub proof fn lemma_pow256_values()
    ensures
        pow256(4) == 0x1_0000_0000,
        pow256(8) == 0x1_0000_0000_0000_0000,
        pow256(16) == 0x1_0000_0000_0000_0000_0000_0000_0000_0000,
{
    reveal_with_fuel(pow256, 17);
}

pub proof fn lemma_pow256_positive(n: nat)
    ensures
        pow256(n) >= 1,
    decreases n,
{
    if n > 0 {
        lemma_pow256_positive((n - 1) as nat);
    }
}

pub proof fn lemma_le_bytes_len(x: nat, n: nat)
    ensures
        le_bytes(x, n).len() == n,
    decreases n,
{
    if n > 0 {
        lemma_le_bytes_len(x / 256, (n - 1) as nat);
    }
}

/// Encoding a number that fits and decoding it again gives the number back.
pub proof fn lemma_le_value_of_bytes(x: nat, n: nat)
    requires
        x < pow256(n),
    ensures
        le_value(le_bytes(x, n)) == x,
        le_bytes(x, n).len() == n,
    decreases n,
{
    lemma_le_bytes_len(x, n);
    if n > 0 {
        let rest = le_bytes(x / 256, (n - 1) as nat);
        assert(x / 256 < pow256((n - 1) as nat)) by (nonlinear_arith)
            requires
                x < 256 * pow256((n - 1) as nat),
        ;
        lemma_le_value_of_bytes(x / 256, (n - 1) as nat);
        let s = le_bytes(x, n);
        assert(s.drop_first() =~= rest);
        assert(x == (x % 256) + 256 * (x / 256)) by (nonlinear_arith);
    }
}

/// Decoding bytes and encoding the number again gives the bytes back.
pub proof fn lemma_le_bytes_of_value(s: Seq<u8>)
    ensures
        le_bytes(le_value(s), s.len()) == s,
        le_value(s) < pow256(s.len()),
    decreases s.len(),
{
    if s.len() > 0 {
        let t = s.drop_first();
        lemma_le_bytes_of_value(t);
        let v = le_value(s);
        let w = le_value(t);
        let h = s[0] as nat;
        assert(v == h + 256 * w);
        assert(v % 256 == h && v / 256 == w) by (nonlinear_arith)
            requires
                v == h + 256 * w,
                h < 256,
        ;
        assert(v < pow256(s.len())) by (nonlinear_arith)
            requires
                v == h + 256 * w,
                h < 256,
                w < pow256(t.len()),
                pow256(s.len()) == 256 * pow256(t.len()),
        ;
        assert(le_bytes(v, s.len()) =~= seq![s[0]] + t);
        assert(s =~= seq![s[0]] + t);
    }
}

/// Reads the `n`-byte little-endian number at `pos`.
pub fn read_le(b: &[u8], pos: usize, n: usize) -> (r: u128)
    requires
        n <= 16,
        pos + n <= b@.len(),
    ensures
        r as nat == le_value(b@.subrange(pos as int, pos + n)),
{
    proof {
        lemma_pow256_values();
    }
    let blen = b.len();
    let mut acc: u128 = 0;
    let mut i: usize = n;
    while i > 0
        invariant
            n <= 16,
            b@.len() == blen,
            pos + n <= b@.len(),
            i <= n,
            acc as nat == le_value(b@.subrange(pos + i, pos + n)),
            acc < pow256((n - i) as nat),
            pow256(16) == 0x1_0000_0000_0000_0000_0000_0000_0000_0000,
        decreases i,
    {
        i = i - 1;
        let byte = b[pos + i];
        let ghost s = b@.subrange(pos + i, pos + n);
        assert(s.drop_first() =~= b@.subrange(pos + i + 1, pos + n));
        assert(pow256((n - i) as nat) == 256 * pow256((n - i - 1) as nat));
        assert(pow256((n - i) as nat) <= pow256(16)) by {
            lemma_pow256_mono((n - i) as nat, 16);
        }
        assert(256 * (acc as nat) + (byte as nat) < pow256((n - i) as nat)) by (nonlinear_arith)
            requires
                acc < pow256((n - i - 1) as nat),
                byte < 256,
                pow256((n - i) as nat) == 256 * pow256((n - i - 1) as nat),
        ;
        acc = acc * 256 + byte as u128;
    }
    acc
}

pub proof fn lemma_pow256_mono(a: nat, b: nat)
    requires
        a <= b,
    ensures
        pow256(a) <= pow256(b),
    decreases b,
{
    if a < b {
        lemma_pow256_mono(a, (b - 1) as nat);
        lemma_pow256_positive((b - 1) as nat);
    }
}

/// Appends the `n`-byte little-endian encoding of `x`.
pub fn push_le(out: &mut Vec<u8>, x: u128, n: usize)
    requires
        n <= 16,
        x < pow256(n as nat),
    ensures
        final(out)@ == old(out)@ + le_bytes(x as nat, n as nat),
{
    let mut v: u128 = x;
    let mut i: usize = 0;
    while i < n
        invariant
            i <= n,
            out@ + le_bytes(v as nat, (n - i) as nat) == old(out)@ + le_bytes(x as nat, n as nat),
        decreases n - i,
    {
        let ghost before = out@;
        let ghost rest = le_bytes((v / 256) as nat, (n - i - 1) as nat);
        assert(le_bytes(v as nat, (n - i) as nat) == seq![(v % 256) as u8] + rest);
        out.push((v % 256) as u8);
        assert(out@ + rest =~= before + le_bytes(v as nat, (n - i) as nat));
        v = v / 256;
        i = i + 1;
    }
    assert(le_bytes(v as nat, 0) =~= seq![]);
    assert(out@ + le_bytes(v as nat, 0) =~= out@);
}

/// The 4-byte little-endian encoding of `x`, the length and offset word of the layout.
#[verifier::opaque]
pub open spec fn word(x: nat) -> Seq<u8> {
    le_bytes(x, 4)
}

pub proof fn lemma_word(x: nat)
    ensures
        word(x).len() == 4,
        x < 0x1_0000_0000 ==> le_value(word(x)) == x,
{
    reveal(word);
    lemma_le_bytes_len(x, 4);
    lemma_pow256_values();
    if x < 0x1_0000_0000 {
        lemma_le_value_of_bytes(x, 4);
    }
}

/// Reads the 4-byte little-endian word at `pos`.
pub fn read_word(b: &[u8], pos: usize) -> (r: usize)
    requires
        pos + 4 <= b@.len(),
    ensures
        r as nat == le_value(b@.subrange(pos as int, pos + 4)),
        r < 0x1_0000_0000,
        word(r as nat) == b@.subrange(pos as int, pos + 4),
{
    let v = read_le(b, pos, 4);
    proof {
        reveal(word);
        lemma_le_bytes_of_value(b@.subrange(pos as int, pos + 4));
        lemma_pow256_values();
    }
    v as usize
}

} // verus!
