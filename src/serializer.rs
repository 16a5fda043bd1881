use vstd::prelude::*;
use crate::file::File;

verus! {

/// The version of a saved state.
#[derive(Clone, Copy, Debug, PartialEq, Eq, Structural)]
pub struct Ver(pub u16);

/// The version this engine writes.
pub const CUR_VER: u16 = 2;

#[derive(Clone, Copy, Debug, PartialEq, Eq, Structural)]
pub enum Mode {
    Save,
    Load,
}

/// A saved state being written or read.
#[derive(Debug)]
pub struct Serializer {
    pub stream: File,
    pub mode: Mode,
    pub save_ver: Ver,
}

impl Serializer {
    pub fn new(stream: File, mode: Mode, save_ver: Ver) -> (r: Self)
        ensures
            r.stream == stream,
            r.mode == mode,
            r.save_ver == save_ver,
    {
        Serializer { stream, mode, save_ver }
    }

    pub fn mode(&self) -> (r: Mode)
        ensures
            r == self.mode,
    {
        self.mode
    }

    /// Entries that saved states hold from version `min_ver` on: always written,
    /// and read from states of versions `min_ver` to the current one.
    pub open spec fn has_entries_spec(&self, min_ver: Ver) -> bool {
        self.mode == Mode::Save || (min_ver.0 <= self.save_ver.0 && self.save_ver.0 <= CUR_VER)
    }

    pub fn has_entries(&self, min_ver: Ver) -> (r: bool)
        ensures
            r == self.has_entries_spec(min_ver),
    {
        self.mode == Mode::Save || (min_ver.0 <= self.save_ver.0 && self.save_ver.0 <= CUR_VER)
    }
}

} // verus!
