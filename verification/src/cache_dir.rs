//! Choosing the latest generation of the web cache.
//!
//! The client keeps each generation of its web cache in a folder of its
//! own. The one to read is the folder that was modified last.

use vstd::prelude::*;

verus! {

/// One entry of a directory listing.
#[derive(Debug, PartialEq, Eq)]
pub struct FolderEntry {
    /// The entry's name within the listed directory.
    pub name: String,
    /// Whether the entry is a directory.
    pub is_dir: bool,
    /// When the entry was last modified, in nanoseconds since the Unix
    /// epoch; `None` where that could not be read.
    pub modified: Option<i128>,
}

impl FolderEntry {
    /// The entry can hold a cache generation: it is a directory and its
    /// modification time is known.
    pub open spec fn usable(self) -> bool {
        self.is_dir && self.modified is Some
    }
}

/// `entries[at]` is the usable entry that was modified last; of several
/// modified at the same instant, the one listed last.
pub open spec fn is_latest(entries: Seq<FolderEntry>, at: int) -> bool {
    &&& 0 <= at < entries.len()
    &&& entries[at].usable()
    &&& forall|j: int|
        0 <= j < entries.len() && (#[trigger] entries[j]).usable() ==> {
            ||| entries[j].modified->0 < entries[at].modified->0
            ||| entries[j].modified->0 == entries[at].modified->0 && j <= at
        }
}

/// No two usable entries were modified at the same instant.
pub open spec fn distinct_times(entries: Seq<FolderEntry>) -> bool {
    forall|i: int, j: int|
        0 <= i < j < entries.len() && (#[trigger] entries[i]).usable() && (
        #[trigger] entries[j]).usable() ==> entries[i].modified != entries[j].modified
}

/// The position of the cache generation to read: the usable entry modified
/// last. `None` where no entry is usable.
pub fn get_latest_folder(entries: &Vec<FolderEntry>) -> (latest: Option<usize>)
    ensures
        match latest {
            Some(at) => is_latest(entries@, at as int),
            None => forall|j: int| 0 <= j < entries.len() ==> !(#[trigger] entries[j]).usable(),
        },
{
    let mut latest: Option<usize> = None;
    let mut best: i128 = 0;
    let mut i: usize = 0;
    while i < entries.len()
        invariant
            i <= entries.len(),
            match latest {
                Some(at) => at < i && best == entries[at as int].modified->0 && is_latest(
                    entries@.take(i as int),
                    at as int,
                ),
                None => forall|j: int| 0 <= j < i ==> !(#[trigger] entries[j]).usable(),
            },
        decreases entries.len() - i,
    {
        let entry = &entries[i];
        if entry.is_dir {
            match entry.modified {
                Some(time) => {
                    if latest.is_none() || time >= best {
                        latest = Some(i);
                        best = time;
                    }
                },
                None => {},
            }
        }
        proof {
            let before = entries@.take(i as int);
            let after = entries@.take(i + 1);
            assert forall|j: int| 0 <= j < i implies before[j] == after[j] by {}
        }
        i += 1;
    }
    proof {
        assert(entries@.take(entries.len() as int) =~= entries@);
    }
    latest
}

/// The choice does not depend on the order of the listing: where no two
/// usable entries share a modification time, two listings of the same
/// entries give the same latest entry.
pub proof fn lemma_latest_in_any_order(
    first: Seq<FolderEntry>,
    second: Seq<FolderEntry>,
    i: int,
    j: int,
)
    requires
        first.to_multiset() == second.to_multiset(),
        distinct_times(first),
        is_latest(first, i),
        is_latest(second, j),
    ensures
        first[i] == second[j],
{
    broadcast use vstd::seq_lib::group_to_multiset_ensures;

    assert(second.contains(second[j]));
    assert(second.to_multiset().count(second[j]) > 0);
    assert(first.contains(second[j]));
    let i2 = choose|k: int| 0 <= k < first.len() && first[k] == second[j];
    assert(first[i2].usable());

    assert(first.contains(first[i]));
    assert(first.to_multiset().count(first[i]) > 0);
    assert(second.contains(first[i]));
    let j2 = choose|k: int| 0 <= k < second.len() && second[k] == first[i];
    assert(second[j2].usable());

    assert(first[i2].modified->0 == first[i].modified->0);
    if i2 != i {
        if i2 < i {
            assert(first[i2].modified != first[i].modified);
        } else {
            assert(first[i].modified != first[i2].modified);
        }
    }
}

} // verus!
