pub mod elf;
pub mod raw;

use vstd::prelude::*;
use vstd::utf8::{decode_utf8, valid_utf8};

verus! {

/// How a section may be used once loaded: bit `0b01` writable, bit `0b10`
/// executable.
#[derive(Clone, Copy, Debug, PartialEq, Eq)]
pub struct SectionFlags {
    pub bits: u16,
}

/// The flag bit of a writable section.
pub const SECTION_WRITE: u16 = 0b0000_0001;

/// The flag bit of an executable section.
pub const SECTION_EXEC: u16 = 0b0000_0010;

/// Reads the properties of one section of an object file.
pub trait SectionReader: Sized {
    /// `name` can be called.
    spec fn name_ok(&self) -> bool;

    /// The bytes of the section's name, if it has one.
    spec fn name_spec(&self) -> Option<Seq<u8>>;

    /// `flags` can be called.
    spec fn flags_ok(&self) -> bool;

    spec fn flags_spec(&self) -> SectionFlags;

    /// `mem_size` can be called.
    spec fn mem_size_ok(&self) -> bool;

    /// The size of the section in memory.
    spec fn mem_size_spec(&self) -> u64;

    /// `data` can be called.
    spec fn data_ok(&self) -> bool;

    /// The contents of the section.
    spec fn data_spec(&self) -> Seq<u8>;

    fn name(&mut self) -> (r: Option<Vec<u8>>)
        requires
            old(self).name_ok(),
        ensures
            *final(self) == *old(self),
            match r {
                Some(v) => old(self).name_spec() == Some(v@),
                None => old(self).name_spec() is None,
            },
    ;

    fn flags(&mut self) -> (r: SectionFlags)
        requires
            old(self).flags_ok(),
        ensures
            *final(self) == *old(self),
            r == old(self).flags_spec(),
    ;

    fn mem_size(&mut self) -> (r: u64)
        requires
            old(self).mem_size_ok(),
        ensures
            *final(self) == *old(self),
            r == old(self).mem_size_spec(),
    ;

    fn data(&mut self) -> (r: Vec<u8>)
        requires
            old(self).data_ok(),
        ensures
            *final(self) == *old(self),
            r@ == old(self).data_spec(),
    ;
}

/// Hands out the readers of the sections of an object file, one at a time.
pub trait SectionVisitor: Sized {
    type Reader: SectionReader;

    /// Every remaining call of `accept_next` can be made.
    spec fn ready(&self) -> bool;

    /// The readers that the remaining calls of `accept_next` hand out, in order.
    spec fn readers(&self) -> Seq<Self::Reader>;

    fn accept_next(&mut self) -> (r: Option<Self::Reader>)
        requires
            old(self).ready(),
        ensures
            final(self).ready(),
            match r {
                None => {
                    &&& old(self).readers().len() == 0
                    &&& final(self).readers() == old(self).readers()
                },
                Some(s) => {
                    &&& old(self).readers().len() > 0
                    &&& s == old(self).readers()[0]
                    &&& final(self).readers() == old(self).readers().drop_first()
                },
            },
    ;
}

/// An object file whose sections can be visited.
pub trait ObjectFileReader: Sized {
    type Visitor: SectionVisitor;

    /// `sections` can be called, and the visitor it returns can be walked to
    /// its end.
    spec fn sections_ok(&self) -> bool;

    /// The readers of the sections that the visitor hands out, in order.
    spec fn section_readers(&self) -> Seq<<Self::Visitor as SectionVisitor>::Reader>;

    fn sections(&mut self) -> (v: Self::Visitor)
        requires
            old(self).sections_ok(),
        ensures
            *final(self) == *old(self),
            v.ready(),
            v.readers() == old(self).section_readers(),
    ;
}

/// std's `String::from_utf8`: the string that the bytes encode where they are
/// valid UTF-8, and nothing where they are not.
#[verifier::external_body]
fn string_from_utf8(bytes: Vec<u8>) -> (r: Option<String>)
    ensures
        match r {
            Some(s) => valid_utf8(bytes@) && s@ == decode_utf8(bytes@),
            None => !valid_utf8(bytes@),
        },
{
    String::from_utf8(bytes).ok()
}

/// Every property of the section that `r` reads can be read, and its name,
/// where it has one, is UTF-8.
pub open spec fn readable_section<S: SectionReader>(r: S) -> bool {
    &&& r.name_ok()
    &&& r.flags_ok()
    &&& r.mem_size_ok()
    &&& r.data_ok()
    &&& (r.name_spec() matches Some(n) ==> valid_utf8(n))
}

/// A section of an object file.
#[derive(Clone, Debug)]
pub struct Section {
    pub name: Option<String>,
    pub flags: SectionFlags,
    pub mem_size: u64,
    pub data: Vec<u8>,
}

impl Section {
    /// `self` holds what `r` reads: the name decoded from UTF-8, the flags, the
    /// size in memory and the contents.
    pub open spec fn describes<S: SectionReader>(&self, r: S) -> bool {
        &&& match r.name_spec() {
            None => self.name is None,
            Some(n) => self.name matches Some(s) && s@ == decode_utf8(n),
        }
        &&& self.flags == r.flags_spec()
        &&& self.mem_size == r.mem_size_spec()
        &&& self.data@ == r.data_spec()
    }

    /// Reads every property of a section.
    pub fn from_reader<S: SectionReader>(mut reader: S) -> (r: Self)
        requires
            readable_section(reader),
        ensures
            r.describes(reader),
    {
        let name = match reader.name() {
            Some(bytes) => Some(string_from_utf8(bytes).unwrap()),
            None => None,
        };
        let flags = reader.flags();
        let mem_size = reader.mem_size();
        let data = reader.data();
        Section { name, flags, mem_size, data }
    }
}

/// The sections of an object file.
#[derive(Clone, Debug)]
pub struct ObjectFile {
    pub sections: Vec<Section>,
}

impl ObjectFile {
    /// Reads every section that `reader` visits, in order.
    pub fn from_reader<R: ObjectFileReader>(mut reader: R) -> (r: Self)
        requires
            reader.sections_ok(),
            forall|i: int|
                0 <= i < reader.section_readers().len() ==> readable_section(
                    #[trigger] reader.section_readers()[i],
                ),
        ensures
            r.sections@.len() == reader.section_readers().len(),
            forall|i: int|
                0 <= i < r.sections@.len() ==> #[trigger] r.sections@[i].describes(
                    reader.section_readers()[i],
                ),
    {
        let ghost all = reader.section_readers();
        let mut sections: Vec<Section> = Vec::new();
        let mut visitor = reader.sections();
        loop
            invariant_except_break
                visitor.ready(),
                sections@.len() + visitor.readers().len() == all.len(),
                visitor.readers() == all.skip(sections@.len() as int),
                forall|i: int| 0 <= i < all.len() ==> readable_section(#[trigger] all[i]),
                forall|i: int|
                    0 <= i < sections@.len() ==> #[trigger] sections@[i].describes(all[i]),
            ensures
                sections@.len() == all.len(),
                forall|i: int|
                    0 <= i < sections@.len() ==> #[trigger] sections@[i].describes(all[i]),
            decreases visitor.readers().len(),
        {
            match visitor.accept_next() {
                Some(section) => {
                    let ghost k = sections@.len() as int;
                    assert(all[k] == section);
                    sections.push(Section::from_reader(section));
                    assert(all.skip(k).drop_first() =~= all.skip(k + 1));
                },
                None => {
                    break;
                },
            }
        }
        ObjectFile { sections }
    }
}

} // verus!
