//! The custom-version registry: a revision number per feature identifier, consulted to
//! choose between alternate field layouts.
use vstd::prelude::*;

use crate::types::Guid;

verus! {

/// One feature's revision.
#[derive(Debug, Clone, Copy, PartialEq, Eq, Structural)]
pub struct CustomVersion {
    pub guid: Guid,
    pub version: i32,
}

/// Whether some entry of `entries` is keyed by `key`.
pub open spec fn has_key(entries: Seq<CustomVersion>, key: Guid) -> bool {
    exists|i: int| 0 <= i < entries.len() && entries[i].guid == key
}

/// No feature is registered twice.
pub open spec fn keys_unique(entries: Seq<CustomVersion>) -> bool {
    forall|i: int, j: int|
        0 <= i < entries.len() && 0 <= j < entries.len() && i != j ==> entries[i].guid
            != entries[j].guid
}

/// The revision registered for `key`, if any.
pub open spec fn spec_get(entries: Seq<CustomVersion>, key: Guid) -> Option<i32> {
    if has_key(entries, key) {
        Some(entries[choose|i: int| 0 <= i < entries.len() && entries[i].guid == key].version)
    } else {
        None
    }
}

/// The feature revisions of one package, in the order they were registered.
pub struct CustomVersionSet {
    pub entries: Vec<CustomVersion>,
}

impl CustomVersionSet {
    pub open spec fn wf(&self) -> bool {
        keys_unique(self.entries@)
    }

    /// A registry with no feature in it.
    pub fn new() -> (r: CustomVersionSet)
        ensures
            r.wf(),
            r.entries@ == Seq::<CustomVersion>::empty(),
    {
        CustomVersionSet { entries: Vec::new() }
    }

    /// The position of `key`'s entry, if it has one.
    fn position_of(&self, key: Guid) -> (r: Option<usize>)
        ensures
            r is None <==> !has_key(self.entries@, key),
            r matches Some(i) ==> i < self.entries@.len() && self.entries@[i as int].guid == key,
    {
        let mut i: usize = 0;
        while i < self.entries.len()
            invariant
                i <= self.entries@.len(),
                forall|j: int| 0 <= j < i ==> self.entries@[j].guid != key,
            decreases self.entries@.len() - i,
        {
            if self.entries[i].guid == key {
                return Some(i);
            }
            i = i + 1;
        }
        None
    }

    /// The revision registered for `key`; `None` where the feature is absent.
    pub fn get(&self, key: Guid) -> (r: Option<i32>)
        requires
            self.wf(),
        ensures
            r == spec_get(self.entries@, key),
    {
        match self.position_of(key) {
            Some(i) => {
                let ghost k = choose|k: int|
                    0 <= k < self.entries@.len() && self.entries@[k].guid == key;
                assert(k == i);
                Some(self.entries[i].version)
            },
            None => None,
        }
    }

    /// Registers `version` for `key`, overwriting in place an earlier revision of it.
    pub fn set(&mut self, key: Guid, version: i32)
        requires
            old(self).wf(),
        ensures
            final(self).wf(),
            has_key(old(self).entries@, key) ==> exists|i: int|
                0 <= i < old(self).entries@.len() && old(self).entries@[i].guid == key
                    && final(self).entries@ == old(self).entries@.update(
                    i,
                    CustomVersion { guid: key, version },
                ),
            !has_key(old(self).entries@, key) ==> final(self).entries@ == old(
                self,
            ).entries@.push(CustomVersion { guid: key, version }),
    {
        match self.position_of(key) {
            Some(i) => {
                self.entries.set(i, CustomVersion { guid: key, version });
            },
            None => {
                self.entries.push(CustomVersion { guid: key, version });
            },
        }
    }
}

/// After a feature is set, looking it up gives what was set, and every other
/// feature keeps its revision; setting a feature twice keeps only the second value.
pub proof fn lemma_set_then_get(entries: Seq<CustomVersion>, key: Guid, version: i32, i: int)
    requires
        keys_unique(entries),
        0 <= i < entries.len(),
        entries[i].guid == key,
    ensures
        keys_unique(entries.update(i, CustomVersion { guid: key, version })),
        spec_get(entries.update(i, CustomVersion { guid: key, version }), key) == Some(version),
        forall|k: Guid|
            k != key ==> spec_get(entries.update(i, CustomVersion { guid: key, version }), k)
                == spec_get(entries, k),
{
    let e2 = entries.update(i, CustomVersion { guid: key, version });
    assert(e2[i].guid == key);
    assert forall|k: Guid| k != key implies spec_get(e2, k) == spec_get(entries, k) by {
        if has_key(entries, k) {
            let j = choose|j: int| 0 <= j < entries.len() && entries[j].guid == k;
            assert(e2[j].guid == k);
        }
        if has_key(e2, k) {
            let j = choose|j: int| 0 <= j < e2.len() && e2[j].guid == k;
            assert(entries[j].guid == k);
        }
    }
}

/// Registering a new feature makes it visible and leaves every other feature as it was.
pub proof fn lemma_push_then_get(entries: Seq<CustomVersion>, key: Guid, version: i32)
    requires
        keys_unique(entries),
        !has_key(entries, key),
    ensures
        keys_unique(entries.push(CustomVersion { guid: key, version })),
        spec_get(entries.push(CustomVersion { guid: key, version }), key) == Some(version),
        forall|k: Guid|
            k != key ==> spec_get(entries.push(CustomVersion { guid: key, version }), k)
                == spec_get(entries, k),
{
    let e2 = entries.push(CustomVersion { guid: key, version });
    assert(e2[entries.len() as int].guid == key);
    assert forall|k: Guid| k != key implies spec_get(e2, k) == spec_get(entries, k) by {
        if has_key(entries, k) {
            let j = choose|j: int| 0 <= j < entries.len() && entries[j].guid == k;
            assert(e2[j].guid == k);
        }
        if has_key(e2, k) {
            let j = choose|j: int| 0 <= j < e2.len() && e2[j].guid == k;
            assert(entries[j].guid == k);
        }
    }
}

/// The feature that puts an optional identifier into each property header.
pub open spec fn spec_property_guid_feature() -> Guid {
    Guid { a: 0x4750_5250, b: 0x5254_5950, c: 0x4449_5547, d: 0x0000_0001 }
}

pub fn property_guid_feature() -> (r: Guid)
    ensures
        r == spec_property_guid_feature(),
{
    Guid { a: 0x4750_5250, b: 0x5254_5950, c: 0x4449_5547, d: 0x0000_0001 }
}

/// Whether a property header carries the optional identifier: only where the caller's
/// context asks for headers and the feature is registered at a revision of at least one.
/// An absent feature means the layout from before the feature.
pub open spec fn spec_has_property_guid(include_header: bool, entries: Seq<CustomVersion>) -> bool {
    include_header && match spec_get(entries, spec_property_guid_feature()) {
        Some(v) => v >= 1,
        None => false,
    }
}

impl CustomVersionSet {
    pub fn has_property_guid(&self, include_header: bool) -> (r: bool)
        requires
            self.wf(),
        ensures
            r == spec_has_property_guid(include_header, self.entries@),
    {
        if !include_header {
            return false;
        }
        match self.get(property_guid_feature()) {
            Some(v) => v >= 1,
            None => false,
        }
    }
}

} // verus!
