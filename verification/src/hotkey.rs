use vstd::prelude::*;

verus! {

// ---------------------------------------------------------------------------
// The hotkey decision: a registered key set fires when every one of its
// keys is in the current sample, and only on the sample that changed —
// edge-triggered, so a held combination fires once. Key codes are plain
// numbers here; the sampler hands them in.
// ---------------------------------------------------------------------------

/// Every key of `need` is held in `have`.
pub open spec fn key_subset(need: Seq<u16>, have: Seq<u16>) -> bool {
    forall|i: int| 0 <= i < need.len() ==> have.contains(#[trigger] need[i])
}

fn contains_key(keys: &Vec<u16>, k: u16) -> (r: bool)
    ensures
        r == keys@.contains(k),
{
    let n = keys.len();
    let mut i: usize = 0;
    while i < n
        invariant
            n == keys@.len(),
            i <= n,
            forall|j: int| 0 <= j < i ==> keys@[j] != k,
        decreases n - i,
    {
        if keys[i] == k {
            return true;
        }
        i = i + 1;
    }
    false
}

/// Whether every registered key of a hotkey is currently held.
pub fn match_keys(keys: &Vec<u16>, hot_keys: &Vec<u16>) -> (r: bool)
    ensures
        r == key_subset(hot_keys@, keys@),
{
    let n = hot_keys.len();
    let mut i: usize = 0;
    while i < n
        invariant
            n == hot_keys@.len(),
            i <= n,
            forall|j: int| 0 <= j < i ==> keys@.contains(#[trigger] hot_keys@[j]),
        decreases n - i,
    {
        if !contains_key(keys, hot_keys[i]) {
            return false;
        }
        i = i + 1;
    }
    true
}

/// Whether the sampled key set differs from the previous sample.
pub fn keys_changed(current: &Vec<u16>, previous: &Vec<u16>) -> (r: bool)
    ensures
        r == (current@ != previous@),
{
    let n = current.len();
    if n != previous.len() {
        return true;
    }
    let mut i: usize = 0;
    while i < n
        invariant
            n == current@.len(),
            n == previous@.len(),
            i <= n,
            forall|j: int| 0 <= j < i ==> current@[j] == previous@[j],
        decreases n - i,
    {
        if current[i] != previous[i] {
            return true;
        }
        i = i + 1;
    }
    proof {
        assert(current@ =~= previous@);
    }
    false
}

/// The edge-triggered firing rule: a hotkey fires on a sample exactly
/// when the sample differs from the previous one and holds every one of
/// the hotkey's keys.
pub fn should_fire(current: &Vec<u16>, previous: &Vec<u16>, hot_keys: &Vec<u16>) -> (r: bool)
    ensures
        r == (current@ != previous@ && key_subset(hot_keys@, current@)),
{
    keys_changed(current, previous) && match_keys(current, hot_keys)
}

} // verus!
