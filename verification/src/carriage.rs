use vstd::prelude::*;
use vstd::hash_map::StringHashMap;

verus! {

/// Marks that a gate put on a passing ticket: text keys to text values.
pub struct Stamp {
    pub entries: StringHashMap<String>,
}

impl Stamp {
    /// A stamp without marks.
    pub fn new() -> (res: Self)
        ensures
            res.entries@ == Map::<Seq<char>, String>::empty(),
    {
        Stamp { entries: StringHashMap::new() }
    }

    /// Marks `key` with `value`, replacing an earlier mark of that key.
    pub fn add(&mut self, key: String, value: String)
        ensures
            final(self).entries@ == old(self).entries@.insert(key@, value),
    {
        self.entries.insert(key, value);
    }
}

/// What a gate decided of a ticket: the stamp it put on it.
pub struct GateVerdict {
    pub stamp: Stamp,
}

/// Where a carriage came in.
#[derive(Clone, Copy, Debug, PartialEq, Eq)]
pub enum IngressSource {
    TerminatedTcpPacket,
    TerminatedHttpPacket,
    TlsTcpPacket,
    TlsHttpPacket,
}

/// The metadata of a carriage, as a gate sees it.
pub trait Manifest {
    type Metadata: Send + Sync + Unpin;

    fn get_id(&self) -> &'static str;
}

/// A unit of data moving through a carriage.
pub trait DataFrame {
    type BufferedFrame: Send + Sync + Unpin;

    fn is_derived(&self) -> bool;

    fn get_id(&self) -> &'static str;
}

/// A frame that can be turned into another, derived one.
pub trait DerivedDataFrame {
    type D: DataFrame;

    fn derived(self) -> Self::D;
}

/// What a conductor found on inspecting a frame: whether it passes, and
/// notes keyed by name.
pub struct FrameInspection {
    pass: bool,
    detail: StringHashMap<String>,
}

} // verus!
