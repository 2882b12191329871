//! The last usage data fetched, shared by all keys.

use vstd::prelude::*;
use crate::usage::UsageData;

verus! {

/// The cache after storing `usage` in it.
pub open spec fn stored(before: Option<UsageData>, usage: UsageData) -> Option<UsageData> {
    Some(usage)
}

/// What reading the cache gives.
pub open spec fn read(cache: Option<UsageData>) -> Option<UsageData> {
    cache
}

/// Remember `usage` as the latest data, replacing what was there.
pub fn store(cache: &mut Option<UsageData>, usage: UsageData)
    ensures
        *final(cache) == stored(*old(cache), usage),
{
    *cache = Some(usage);
}

/// A copy of the latest data, if any was stored.
pub fn get(cache: &Option<UsageData>) -> (usage: Option<UsageData>)
    ensures
        usage == read(*cache),
{
    match cache {
        Some(u) => Some(u.clone()),
        None => None,
    }
}

/// Reading the cache gives back what the last store wrote, whatever was
/// there before.
pub proof fn lemma_get_after_store(before: Option<UsageData>, usage: UsageData)
    ensures
        read(stored(before, usage)) == Some(usage),
{
}

/// An empty cache reads as nothing.
pub proof fn lemma_get_empty()
    ensures
        read(None) is None,
{
}

} // verus!
