//! What an encoding run reports about itself.

use std::collections::BTreeMap;
use vstd::prelude::*;

verus! {

/// Totals of one encoding run.
#[derive(Debug)]
pub struct Stats {
    /// Bytes written to the output, the geometry packet included.
    pub bytes: usize,
    /// Frames written to the output.
    pub frames: usize,
    /// How many packets of each type tag were written.
    pub packets: BTreeMap<u8, usize>,
}

impl Stats {
    /// How many packets of each type tag were written, as plain numbers.
    pub open spec fn counts(&self) -> Map<u8, nat> {
        Map::new(|tag: u8| self.packets@.contains_key(tag), |tag: u8| self.packets@[tag] as nat)
    }

    /// How many packets with tag `tag` were written.
    pub open spec fn count(&self, tag: u8) -> nat {
        tally(self.counts(), tag)
    }

    /// Counts one more packet of `len` bytes with tag `ty`.
    pub fn record(&mut self, ty: u8, len: usize)
        requires
            old(self).bytes + len <= usize::MAX,
            old(self).count(ty) < usize::MAX,
        ensures
            final(self).bytes == old(self).bytes + len,
            final(self).frames == old(self).frames,
            final(self).counts() == old(self).counts().insert(ty, old(self).count(ty) + 1),
    {
        broadcast use vstd::std_specs::btree::group_btree_axioms;

        let seen: usize = match self.packets.get(&ty) {
            Some(n) => *n,
            None => 0,
        };
        self.packets.insert(ty, seen + 1);
        self.bytes = self.bytes + len;
        assert(self.counts() =~= old(self).counts().insert(ty, old(self).count(ty) + 1));
    }

    /// How many packets with tag `ty` were written.
    pub fn packets_of(&self, ty: u8) -> (n: usize)
        ensures
            n == self.count(ty),
    {
        broadcast use vstd::std_specs::btree::group_btree_axioms;

        match self.packets.get(&ty) {
            Some(n) => *n,
            None => 0,
        }
    }
}

/// The number that `counts` holds for `tag`; 0 where it holds none.
pub open spec fn tally(counts: Map<u8, nat>, tag: u8) -> nat {
    if counts.contains_key(tag) {
        counts[tag]
    } else {
        0
    }
}

impl Default for Stats {
    /// Nothing written yet.
    fn default() -> (stats: Stats)
        ensures
            stats.bytes == 0,
            stats.frames == 0,
            stats.counts() == Map::<u8, nat>::empty(),
    {
        let stats = Stats { bytes: 0, frames: 0, packets: BTreeMap::new() };
        assert(stats.counts() =~= Map::<u8, nat>::empty());
        stats
    }
}

} // verus!
