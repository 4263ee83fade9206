use vstd::prelude::*;

use super::{BinField, BinFieldError};

verus! {

/// Byte order of the multi-byte fields of a binary file.
#[derive(Clone, Copy, Debug, PartialEq, Eq)]
pub enum Endian {
    Little,
    Big,
}

/// The bytes of a file being loaded, and the byte order in which its
/// multi-byte fields are read.
#[derive(Clone, Copy, Debug)]
pub struct BinContext<'a> {
    pub raw_file: &'a [u8],
    pub endian: Endian,
}

impl<'a> BinContext<'a> {
    /// A context over `file`, reading little-endian until a field says otherwise.
    pub fn new(file: &'a [u8]) -> (r: Self)
        ensures
            r.raw_file == file,
            r.endian == Endian::Little,
    {
        Self { raw_file: file, endian: Endian::Little }
    }

    /// Loads a `T` from the start of the file and validates it.
    pub fn load<T: BinField<ValidateParams = ()>>(&mut self) -> (r: Result<T, BinFieldError>)
        requires
            T::fits(0, old(self).raw_file@),
        ensures
            final(self).raw_file == old(self).raw_file,
            match r {
                Ok(v) => {
                    &&& v.loaded_from(0, old(self).raw_file@)
                    &&& v.validation(&(), old(self).endian) == (
                    Ok::<(), Seq<char>>(()),
                    final(self).endian,
                    )
                },
                Err(e) => exists|v: T|
                    #[trigger] v.loaded_from(0, old(self).raw_file@) && v.validation(
                        &(),
                        old(self).endian,
                    ) == (Err::<(), Seq<char>>(e.error@), final(self).endian),
            },
    {
        self.load_with_params(&())
    }

    /// Loads a `T` from the start of the file and validates it against `params`.
    pub fn load_with_params<P: ?Sized, T: BinField<ValidateParams = P>>(&mut self, params: &P) -> (r:
        Result<T, BinFieldError>)
        requires
            T::fits(0, old(self).raw_file@),
        ensures
            final(self).raw_file == old(self).raw_file,
            match r {
                Ok(v) => {
                    &&& v.loaded_from(0, old(self).raw_file@)
                    &&& v.validation(params, old(self).endian) == (
                    Ok::<(), Seq<char>>(()),
                    final(self).endian,
                    )
                },
                Err(e) => exists|v: T|
                    #[trigger] v.loaded_from(0, old(self).raw_file@) && v.validation(
                        params,
                        old(self).endian,
                    ) == (Err::<(), Seq<char>>(e.error@), final(self).endian),
            },
    {
        let result = T::load(0, self);
        let ghost e0 = old(self).endian;
        match result.validate(params, self) {
            Ok(()) => {
                assert(result.validation(params, e0).0 == Ok::<(), Seq<char>>(()));
                Ok(result)
            },
            Err(e) => Err(e),
        }
    }

    /// Sets the byte order of the fields read after this call.
    pub fn set_endian(&mut self, endian: Endian)
        ensures
            final(self).raw_file == old(self).raw_file,
            final(self).endian == endian,
    {
        self.endian = endian;
    }
}

} // verus!
