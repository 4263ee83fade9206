use vstd::prelude::*;

use super::context::{BinContext, Endian};
use super::{BinField, BinFieldError, load_pod_bin_field};

verus! {

/// `256` raised to the power `n`: one more than the largest value of `n` bytes.
pub open spec fn pow256(n: nat) -> nat
    decreases n,
{
    if n == 0 {
        1
    } else {
        256 * pow256((n - 1) as nat)
    }
}

/// The value of `bytes` read least significant byte first.
pub open spec fn le_value(bytes: Seq<u8>) -> nat
    decreases bytes.len(),
{
    if bytes.len() == 0 {
        0
    } else {
        bytes[0] as nat + 256 * le_value(bytes.drop_first())
    }
}

/// The value of `bytes` read most significant byte first.
pub open spec fn be_value(bytes: Seq<u8>) -> nat
    decreases bytes.len(),
{
    if bytes.len() == 0 {
        0
    } else {
        256 * be_value(bytes.drop_last()) + bytes.last() as nat
    }
}

/// The value of `bytes` in the byte order `endian`.
pub open spec fn uint_value(bytes: Seq<u8>, endian: Endian) -> nat {
    match endian {
        Endian::Little => le_value(bytes),
        Endian::Big => be_value(bytes),
    }
}

pub proof fn lemma_pow256_values()
    ensures
        pow256(1) == 0x100,
        pow256(2) == 0x1_0000,
        pow256(4) == 0x1_0000_0000,
        pow256(8) == 0x1_0000_0000_0000_0000,
{
    reveal_with_fuel(pow256, 9);
}

pub proof fn lemma_pow256_monotone(a: nat, b: nat)
    requires
        a <= b,
    ensures
        pow256(a) <= pow256(b),
    decreases b,
{
    if a < b {
        lemma_pow256_monotone(a, (b - 1) as nat);
    }
}

pub proof fn lemma_le_value_bound(bytes: Seq<u8>)
    ensures
        le_value(bytes) < pow256(bytes.len()),
    decreases bytes.len(),
{
    if bytes.len() > 0 {
        lemma_le_value_bound(bytes.drop_first());
    }
}

pub proof fn lemma_be_value_bound(bytes: Seq<u8>)
    ensures
        be_value(bytes) < pow256(bytes.len()),
    decreases bytes.len(),
{
    if bytes.len() > 0 {
        lemma_be_value_bound(bytes.drop_last());
    }
}

pub proof fn lemma_uint_value_bound(bytes: Seq<u8>, endian: Endian)
    ensures
        uint_value(bytes, endian) < pow256(bytes.len()),
{
    lemma_le_value_bound(bytes);
    lemma_be_value_bound(bytes);
}

/// Reading bytes most significant first gives what reading them in reverse
/// order least significant first gives.
pub proof fn lemma_big_endian_is_reversed_little_endian(bytes: Seq<u8>)
    ensures
        be_value(bytes) == le_value(bytes.reverse()),
    decreases bytes.len(),
{
    if bytes.len() > 0 {
        lemma_big_endian_is_reversed_little_endian(bytes.drop_last());
        let r = bytes.reverse();
        assert(r[0] == bytes.last());
        assert(r.drop_first() =~= bytes.drop_last().reverse());
    }
}

/// Least significant byte first: a byte added after the others counts
/// `256^n` times, where `n` is the number of bytes before it.
pub proof fn lemma_little_endian_last_byte_is_most_significant(bytes: Seq<u8>, b: u8)
    ensures
        le_value(bytes.push(b)) == le_value(bytes) + b * pow256(bytes.len()),
    decreases bytes.len(),
{
    if bytes.len() > 0 {
        let d = bytes.drop_first();
        lemma_little_endian_last_byte_is_most_significant(d, b);
        assert(bytes.push(b).drop_first() =~= d.push(b));
        assert(bytes.push(b)[0] == bytes[0]);
        let p = pow256(d.len());
        assert(pow256(bytes.len()) == 256 * p);
        assert(le_value(bytes.push(b)) == bytes[0] + 256 * le_value(d.push(b)));
        assert(le_value(d.push(b)) == le_value(d) + b * p);
        assert(le_value(bytes) == bytes[0] + 256 * le_value(d));
        assert(256 * (le_value(d) + b * p) == 256 * le_value(d) + b * (256 * p)) by (nonlinear_arith);
        assert(b * pow256(bytes.len()) == b * (256 * p));
    } else {
        reveal_with_fuel(le_value, 2);
        assert(bytes.push(b).drop_first() =~= Seq::<u8>::empty());
        assert(bytes.push(b)[0] == b);
        assert(le_value(bytes.push(b)) == b);
        assert(le_value(bytes) == 0);
        assert(pow256(0) == 1);
        assert(b * pow256(bytes.len()) == b);
    }
}

/// Most significant byte first: a byte put before the others counts `256^n`
/// times, where `n` is the number of bytes after it.
pub proof fn lemma_big_endian_first_byte_is_most_significant(bytes: Seq<u8>, b: u8)
    ensures
        be_value(seq![b] + bytes) == b * pow256(bytes.len()) + be_value(bytes),
    decreases bytes.len(),
{
    if bytes.len() > 0 {
        let d = bytes.drop_last();
        lemma_big_endian_first_byte_is_most_significant(d, b);
        let t = seq![b] + bytes;
        assert(t.drop_last() =~= seq![b] + d);
        assert(t.last() == bytes.last());
        let p = pow256(d.len());
        assert(pow256(bytes.len()) == 256 * p);
        assert(be_value(t) == 256 * be_value(seq![b] + d) + bytes.last());
        assert(be_value(seq![b] + d) == b * p + be_value(d));
        assert(be_value(bytes) == 256 * be_value(d) + bytes.last());
        assert(256 * (b * p + be_value(d)) == b * (256 * p) + 256 * be_value(d)) by (nonlinear_arith);
        assert(b * pow256(bytes.len()) == b * (256 * p));
    } else {
        reveal_with_fuel(be_value, 2);
        let t = seq![b] + bytes;
        assert(t =~= seq![b]);
        assert(t.drop_last() =~= Seq::<u8>::empty());
        assert(t.last() == b);
        assert(be_value(t) == b);
        assert(be_value(bytes) == 0);
        assert(pow256(0) == 1);
        assert(b * pow256(bytes.len()) == b);
    }
}

/// One byte has its own value in either byte order.
pub proof fn lemma_uint_value_single(bytes: Seq<u8>, endian: Endian)
    requires
        bytes.len() == 1,
    ensures
        uint_value(bytes, endian) == bytes[0],
{
    reveal_with_fuel(le_value, 2);
    reveal_with_fuel(be_value, 2);
    assert(bytes.drop_first() =~= Seq::<u8>::empty());
    assert(bytes.drop_last() =~= Seq::<u8>::empty());
}

/// Reads the unsigned integer stored in `bytes` in the byte order `endian`.
pub fn decode_uint(bytes: &[u8], endian: Endian) -> (r: u64)
    requires
        bytes@.len() <= 8,
    ensures
        r == uint_value(bytes@, endian),
{
    let len = bytes.len();
    proof {
        lemma_pow256_values();
    }
    let mut v: u64 = 0;
    match endian {
        Endian::Little => {
            let mut i = len;
            while i > 0
                invariant
                    len == bytes@.len(),
                    len <= 8,
                    i <= len,
                    v == le_value(bytes@.subrange(i as int, len as int)),
                    v < pow256((len - i) as nat),
                    pow256(8) == 0x1_0000_0000_0000_0000,
                decreases i,
            {
                i = i - 1;
                proof {
                    let s = bytes@.subrange(i as int, len as int);
                    assert(s.drop_first() =~= bytes@.subrange(i + 1, len as int));
                    lemma_pow256_monotone((len - i) as nat, 8);
                }
                v = v * 256 + bytes[i] as u64;
            }
            assert(bytes@.subrange(0, len as int) =~= bytes@);
        },
        Endian::Big => {
            let mut i: usize = 0;
            while i < len
                invariant
                    len == bytes@.len(),
                    len <= 8,
                    i <= len,
                    v == be_value(bytes@.subrange(0, i as int)),
                    v < pow256(i as nat),
                    pow256(8) == 0x1_0000_0000_0000_0000,
                decreases len - i,
            {
                proof {
                    let s = bytes@.subrange(0, i + 1);
                    assert(s.drop_last() =~= bytes@.subrange(0, i as int));
                    lemma_pow256_monotone((i + 1) as nat, 8);
                }
                v = v * 256 + bytes[i] as u64;
                i = i + 1;
            }
            assert(bytes@.subrange(0, len as int) =~= bytes@);
        },
    }
    v
}


/// A `u8` field, kept as the 1 byte of the file and read in the
/// byte order of the context.
#[derive(Clone, Copy, Debug)]
pub struct U8([u8; 1]);

impl View for U8 {
    type V = Seq<u8>;

    closed spec fn view(&self) -> Seq<u8> {
        self.0@
    }
}

impl BinField for U8 {
    type ValidateParams = ();

    type Data = u8;

    open spec fn fits(off: int, file: Seq<u8>) -> bool {
        0 <= off && off + 1 <= file.len()
    }

    open spec fn loaded_from(&self, off: int, file: Seq<u8>) -> bool {
        self@ == file.subrange(off, off + 1)
    }

    open spec fn validation(&self, params: &(), endian: Endian) -> (Result<(), Seq<char>>, Endian) {
        (Ok(()), endian)
    }

    open spec fn read_spec(&self, endian: Endian) -> u8 {
        uint_value(self@, endian) as u8
    }

    fn load(off: usize, context: &BinContext<'_>) -> (r: Self) {
        U8(load_pod_bin_field(off, context))
    }

    fn validate(&self, params: &(), context: &mut BinContext<'_>) -> (r: Result<(), BinFieldError>) {
        Ok(())
    }

    fn read(&self, context: &BinContext<'_>) -> (r: u8) {
        let v = decode_uint(self.0.as_slice(), context.endian);
        proof {
            lemma_uint_value_bound(self.0@, context.endian);
            lemma_pow256_values();
            assert(pow256(1) == 0x100);
        }
        v as u8
    }
}

/// A `u16` field, kept as the 2 bytes of the file and read in the
/// byte order of the context.
#[derive(Clone, Copy, Debug)]
pub struct U16([u8; 2]);

impl View for U16 {
    type V = Seq<u8>;

    closed spec fn view(&self) -> Seq<u8> {
        self.0@
    }
}

impl BinField for U16 {
    type ValidateParams = ();

    type Data = u16;

    open spec fn fits(off: int, file: Seq<u8>) -> bool {
        0 <= off && off + 2 <= file.len()
    }

    open spec fn loaded_from(&self, off: int, file: Seq<u8>) -> bool {
        self@ == file.subrange(off, off + 2)
    }

    open spec fn validation(&self, params: &(), endian: Endian) -> (Result<(), Seq<char>>, Endian) {
        (Ok(()), endian)
    }

    open spec fn read_spec(&self, endian: Endian) -> u16 {
        uint_value(self@, endian) as u16
    }

    fn load(off: usize, context: &BinContext<'_>) -> (r: Self) {
        U16(load_pod_bin_field(off, context))
    }

    fn validate(&self, params: &(), context: &mut BinContext<'_>) -> (r: Result<(), BinFieldError>) {
        Ok(())
    }

    fn read(&self, context: &BinContext<'_>) -> (r: u16) {
        let v = decode_uint(self.0.as_slice(), context.endian);
        proof {
            lemma_uint_value_bound(self.0@, context.endian);
            lemma_pow256_values();
            assert(pow256(2) == 0x1_0000);
        }
        v as u16
    }
}

/// A `u32` field, kept as the 4 bytes of the file and read in the
/// byte order of the context.
#[derive(Clone, Copy, Debug)]
pub struct U32([u8; 4]);

impl View for U32 {
    type V = Seq<u8>;

    closed spec fn view(&self) -> Seq<u8> {
        self.0@
    }
}

impl BinField for U32 {
    type ValidateParams = ();

    type Data = u32;

    open spec fn fits(off: int, file: Seq<u8>) -> bool {
        0 <= off && off + 4 <= file.len()
    }

    open spec fn loaded_from(&self, off: int, file: Seq<u8>) -> bool {
        self@ == file.subrange(off, off + 4)
    }

    open spec fn validation(&self, params: &(), endian: Endian) -> (Result<(), Seq<char>>, Endian) {
        (Ok(()), endian)
    }

    open spec fn read_spec(&self, endian: Endian) -> u32 {
        uint_value(self@, endian) as u32
    }

    fn load(off: usize, context: &BinContext<'_>) -> (r: Self) {
        U32(load_pod_bin_field(off, context))
    }

    fn validate(&self, params: &(), context: &mut BinContext<'_>) -> (r: Result<(), BinFieldError>) {
        Ok(())
    }

    fn read(&self, context: &BinContext<'_>) -> (r: u32) {
        let v = decode_uint(self.0.as_slice(), context.endian);
        proof {
            lemma_uint_value_bound(self.0@, context.endian);
            lemma_pow256_values();
            assert(pow256(4) == 0x1_0000_0000);
        }
        v as u32
    }
}

/// A `u64` field, kept as the 8 bytes of the file and read in the
/// byte order of the context.
#[derive(Clone, Copy, Debug)]
pub struct U64([u8; 8]);

impl View for U64 {
    type V = Seq<u8>;

    closed spec fn view(&self) -> Seq<u8> {
        self.0@
    }
}

impl BinField for U64 {
    type ValidateParams = ();

    type Data = u64;

    open spec fn fits(off: int, file: Seq<u8>) -> bool {
        0 <= off && off + 8 <= file.len()
    }

    open spec fn loaded_from(&self, off: int, file: Seq<u8>) -> bool {
        self@ == file.subrange(off, off + 8)
    }

    open spec fn validation(&self, params: &(), endian: Endian) -> (Result<(), Seq<char>>, Endian) {
        (Ok(()), endian)
    }

    open spec fn read_spec(&self, endian: Endian) -> u64 {
        uint_value(self@, endian) as u64
    }

    fn load(off: usize, context: &BinContext<'_>) -> (r: Self) {
        U64(load_pod_bin_field(off, context))
    }

    fn validate(&self, params: &(), context: &mut BinContext<'_>) -> (r: Result<(), BinFieldError>) {
        Ok(())
    }

    fn read(&self, context: &BinContext<'_>) -> (r: u64) {
        let v = decode_uint(self.0.as_slice(), context.endian);
        proof {
            lemma_uint_value_bound(self.0@, context.endian);
            lemma_pow256_values();
            assert(pow256(8) == 0x1_0000_0000_0000_0000);
        }
        v as u64
    }
}

} // verus!
