//! The glyph cache: rasterized bitmaps keyed by code point, filled lazily
//! and never evicted, so a code point is rasterized at most once per
//! session.
//!
//! The cache itself holds plain data; asking the font engine for a missing
//! glyph is the caller's work, and an entry, once stored, is returned
//! bit-identical on every later request.

use std::collections::BTreeMap;
use vstd::prelude::*;
use crate::types::CharData;

verus! {

/// Rasterized glyphs by code point.
pub struct GlyphCache {
    map: BTreeMap<u32, CharData>,
}

impl View for GlyphCache {
    type V = Map<u32, CharData>;

    closed spec fn view(&self) -> Map<u32, CharData> {
        self.map@
    }
}

impl GlyphCache {
    /// Every stored entry is a well-formed bitmap.
    pub open spec fn wf(self) -> bool {
        forall|cp: u32| self@.contains_key(cp) ==> (#[trigger] self@[cp]).wf()
    }

    /// An empty cache: no code point rasterized yet.
    pub fn new() -> (c: GlyphCache)
        ensures
            c@ == Map::<u32, CharData>::empty(),
            c.wf(),
    {
        GlyphCache { map: BTreeMap::new() }
    }

    /// How many distinct code points have been rasterized.
    pub fn len(&self) -> (n: usize)
        ensures
            n == self@.dom().len(),
    {
        proof {
            broadcast use vstd::laws_cmp::group_laws_cmp;

        }
        self.map.len()
    }

    /// Whether a code point already has a rasterized entry.
    pub fn contains(&self, cp: u32) -> (b: bool)
        ensures
            b == self@.contains_key(cp),
    {
        proof {
            broadcast use vstd::laws_cmp::group_laws_cmp;
            broadcast use vstd::std_specs::btree::axiom_contains_deref_key;

        }
        self.map.contains_key(&cp)
    }

    /// The stored entry for a code point: a hit returns exactly what was
    /// inserted, with no side effect; a miss returns nothing and the caller
    /// rasterizes.
    pub fn get(&self, cp: u32) -> (r: Option<&CharData>)
        ensures
            match r {
                Some(d) => self@.contains_key(cp) && *d == self@[cp],
                None => !self@.contains_key(cp),
            },
    {
        proof {
            broadcast use vstd::laws_cmp::group_laws_cmp;
            broadcast use vstd::std_specs::btree::axiom_contains_deref_key;
            broadcast use vstd::std_specs::btree::axiom_maps_deref_key_to_value;

        }
        self.map.get(&cp)
    }

    /// Stores the rasterized entry for a code point that had none. Entries
    /// are created once and never replaced or dropped, so the cache only
    /// grows, by one code point at a time.
    pub fn insert(&mut self, cp: u32, data: CharData)
        requires
            !old(self)@.contains_key(cp),
            data.wf(),
            old(self).wf(),
        ensures
            final(self)@ == old(self)@.insert(cp, data),
            final(self).wf(),
    {
        proof {
            broadcast use vstd::laws_cmp::group_laws_cmp;

        }
        self.map.insert(cp, data);
    }
}

/// Entries are stable: once a code point is cached, inserting any other code
/// point leaves its entry untouched, so a later request for it returns the
/// bit-identical bitmap and the font engine is never asked for it again.
pub proof fn lemma_entry_stable(m: Map<u32, CharData>, cp: u32, other: u32, d: CharData)
    requires
        m.contains_key(cp),
        other != cp,
    ensures
        m.insert(other, d).contains_key(cp),
        m.insert(other, d)[cp] == m[cp],
{
}

} // verus!
