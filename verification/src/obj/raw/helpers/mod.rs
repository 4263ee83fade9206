pub mod context;
pub mod primitives;
pub mod text;

use vstd::prelude::*;

use context::{BinContext, Endian};
use text::{byte_list, hex_width2, push_byte_list, push_hex_width2};
use vstd::string::*;

verus! {

/// Why a loaded field was rejected.
#[derive(Clone, Debug, PartialEq)]
pub struct BinFieldError {
    pub error: String,
}

/// A value laid out at a known place in a binary file: it can be loaded from
/// the file's bytes, validated, and read.
pub trait BinField: Sized {
    type ValidateParams: ?Sized;

    type Data;

    /// The bytes of the file at `off` are enough to load a value.
    spec fn fits(off: int, file: Seq<u8>) -> bool;

    /// `self` is the value laid out in `file` at `off`.
    spec fn loaded_from(&self, off: int, file: Seq<u8>) -> bool;

    /// What validating `self` against `params` gives when the fields are read
    /// in the byte order `endian`: the verdict (with the error message), and
    /// the byte order afterwards.
    spec fn validation(&self, params: &Self::ValidateParams, endian: Endian) -> (Result<
        (),
        Seq<char>,
    >, Endian);

    /// The data that `self` holds when read in the byte order `endian`.
    spec fn read_spec(&self, endian: Endian) -> Self::Data;

    fn load(off: usize, context: &BinContext<'_>) -> (r: Self)
        requires
            Self::fits(off as int, context.raw_file@),
        ensures
            r.loaded_from(off as int, context.raw_file@),
    ;

    fn validate(&self, params: &Self::ValidateParams, context: &mut BinContext<'_>) -> (r: Result<
        (),
        BinFieldError,
    >)
        ensures
            final(context).raw_file == old(context).raw_file,
            final(context).endian == self.validation(params, old(context).endian).1,
            match r {
                Ok(_) => self.validation(params, old(context).endian).0 == Ok::<(), Seq<char>>(()),
                Err(e) => self.validation(params, old(context).endian).0 == Err::<(), Seq<char>>(
                    e.error@,
                ),
            },
    ;

    fn read(&self, context: &BinContext<'_>) -> (r: Self::Data)
        ensures
            r == self.read_spec(context.endian),
    ;
}

/// bytemuck's `from_bytes`, read at the array type `[u8; N]`: the `N` bytes
/// themselves (an array of bytes has alignment 1, so only the length is
/// checked, and it is required here).
#[verifier::external_body]
pub(crate) fn pod_array<const N: usize>(bytes: &[u8]) -> (r: [u8; N])
    requires
        bytes@.len() == N,
    ensures
        r@ == bytes@,
{
    *bytemuck::from_bytes::<[u8; N]>(bytes)
}

/// The `N` bytes of the file at `off`.
pub fn load_pod_bin_field<const N: usize>(off: usize, context: &BinContext<'_>) -> (r: [u8; N])
    requires
        off + N <= context.raw_file@.len(),
    ensures
        r@ == context.raw_file@.subrange(off as int, off + N),
{
    assert(context.raw_file@.len() == context.raw_file.len());
    pod_array(vstd::slice::slice_subrange(context.raw_file, off, off + N))
}


/// Whether the arrays `a` and `b` hold the same bytes.
pub(crate) fn same_bytes<const N: usize>(a: &[u8; N], b: &[u8; N]) -> (r: bool)
    ensures
        r == (a@ == b@),
{
    let mut i: usize = 0;
    while i < N
        invariant
            i <= N,
            a@.len() == N,
            b@.len() == N,
            a@.subrange(0, i as int) == b@.subrange(0, i as int),
        decreases N - i,
    {
        if a[i] != b[i] {
            assert(a@[i as int] != b@[i as int]);
            return false;
        }
        assert(a@.subrange(0, i + 1) =~= a@.subrange(0, i as int).push(a@[i as int]));
        assert(b@.subrange(0, i + 1) =~= b@.subrange(0, i as int).push(b@[i as int]));
        i = i + 1;
    }
    assert(a@ =~= a@.subrange(0, N as int));
    assert(b@ =~= b@.subrange(0, N as int));
    true
}

/// The message with which a magic value that no accepted value matches is
/// rejected.
pub open spec fn magic_message(bytes: Seq<u8>) -> Seq<char> {
    "magic "@ + byte_list(bytes) + " is not recognized"@
}

/// The message with which an endian flag of unknown value is rejected.
pub open spec fn endian_flag_message(v: u8) -> Seq<char> {
    "endian flag has unrecognized value 0x"@ + hex_width2(v)
}

/// `N` bytes that must equal one of a given set of values.
#[derive(Clone, Copy, Debug, PartialEq, Eq)]
pub struct Magic<const N: usize>(pub [u8; N]);

impl<const N: usize> BinField for Magic<N> {
    type ValidateParams = [[u8; N]];

    type Data = Self;

    open spec fn fits(off: int, file: Seq<u8>) -> bool {
        0 <= off && off + N <= file.len()
    }

    open spec fn loaded_from(&self, off: int, file: Seq<u8>) -> bool {
        self.0@ == file.subrange(off, off + N)
    }

    open spec fn validation(&self, params: &[[u8; N]], endian: Endian) -> (Result<(), Seq<char>>, Endian) {
        (
            if exists|i: int| 0 <= i < params@.len() && #[trigger] params@[i]@ == self.0@ {
                Ok(())
            } else {
                Err(magic_message(self.0@))
            },
            endian,
        )
    }

    open spec fn read_spec(&self, endian: Endian) -> Self {
        *self
    }

    fn load(off: usize, context: &BinContext<'_>) -> (r: Self) {
        Magic(load_pod_bin_field(off, context))
    }

    fn validate(&self, params: &[[u8; N]], context: &mut BinContext<'_>) -> (r: Result<(), BinFieldError>) {
        let mut i: usize = 0;
        while i < params.len()
            invariant
                i <= params@.len(),
                forall|j: int| 0 <= j < i ==> #[trigger] params@[j]@ != self.0@,
            decreases params@.len() - i,
        {
            if same_bytes(&params[i], &self.0) {
                return Ok(());
            }
            i = i + 1;
        }
        let mut s = String::from_str("magic ");
        push_byte_list(&mut s, self.0.as_slice());
        s.append(" is not recognized");
        Err(BinFieldError { error: s })
    }

    fn read(&self, context: &BinContext<'_>) -> (r: Self) {
        *self
    }
}

/// A byte that selects the byte order of the file: `LE` for little-endian,
/// `BE` for big-endian.
#[derive(Clone, Copy, Debug, PartialEq, Eq)]
pub struct EndianFlag<const LE: u8, const BE: u8>(pub u8);

impl<const LE: u8, const BE: u8> BinField for EndianFlag<LE, BE> {
    type ValidateParams = ();

    type Data = Self;

    open spec fn fits(off: int, file: Seq<u8>) -> bool {
        0 <= off && off + 1 <= file.len()
    }

    open spec fn loaded_from(&self, off: int, file: Seq<u8>) -> bool {
        self.0 == file[off]
    }

    open spec fn validation(&self, params: &(), endian: Endian) -> (Result<(), Seq<char>>, Endian) {
        if self.0 == LE {
            (Ok(()), Endian::Little)
        } else if self.0 == BE {
            (Ok(()), Endian::Big)
        } else {
            (Err(endian_flag_message(self.0)), endian)
        }
    }

    open spec fn read_spec(&self, endian: Endian) -> Self {
        *self
    }

    fn load(off: usize, context: &BinContext<'_>) -> (r: Self) {
        let bytes: [u8; 1] = load_pod_bin_field(off, context);
        EndianFlag(bytes[0])
    }

    fn validate(&self, params: &(), context: &mut BinContext<'_>) -> (r: Result<(), BinFieldError>) {
        if self.0 == LE {
            context.set_endian(Endian::Little);
            Ok(())
        } else if self.0 == BE {
            context.set_endian(Endian::Big);
            Ok(())
        } else {
            let mut s = String::from_str("endian flag has unrecognized value 0x");
            push_hex_width2(&mut s, self.0);
            Err(BinFieldError { error: s })
        }
    }

    fn read(&self, context: &BinContext<'_>) -> (r: Self) {
        *self
    }
}

/// `N` bytes of padding, accepted whatever they hold.
#[derive(Clone, Copy, Debug, PartialEq, Eq)]
pub struct Pad<const N: usize>(pub [u8; N]);

impl<const N: usize> BinField for Pad<N> {
    type ValidateParams = ();

    type Data = Self;

    open spec fn fits(off: int, file: Seq<u8>) -> bool {
        0 <= off && off + N <= file.len()
    }

    open spec fn loaded_from(&self, off: int, file: Seq<u8>) -> bool {
        self.0@ == file.subrange(off, off + N)
    }

    open spec fn validation(&self, params: &(), endian: Endian) -> (Result<(), Seq<char>>, Endian) {
        (Ok(()), endian)
    }

    open spec fn read_spec(&self, endian: Endian) -> Self {
        *self
    }

    fn load(off: usize, context: &BinContext<'_>) -> (r: Self) {
        Pad(load_pod_bin_field(off, context))
    }

    fn validate(&self, params: &(), context: &mut BinContext<'_>) -> (r: Result<(), BinFieldError>) {
        Ok(())
    }

    fn read(&self, context: &BinContext<'_>) -> (r: Self) {
        *self
    }
}

} // verus!
