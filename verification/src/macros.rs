use vstd::prelude::*;

verus! {

/// A byte buffer together with a zero-length array of `Align`, which gives the
/// whole value at least the alignment of `Align`.
pub struct AlignedAs<Align, Bytes> {
    pub _align: [Align; 0],
    pub bytes: Bytes,
}

} // verus!
