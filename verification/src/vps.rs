//! Which disk the host collector reports.

use vstd::prelude::*;

use vstd::utf8::encode_utf8;

verus! {

/// A mounted disk as the system reports it.
#[derive(Debug, Clone)]
pub struct DiskInfo {
    /// Where the disk is mounted.
    pub mount_point: String,
    /// Size, in bytes.
    pub total_space: u64,
    /// Free space available, in bytes.
    pub available_space: u64,
}

/// Whether `std::path::Path::new(path).starts_with(base)`: `base` is a prefix of
/// `path` made of whole path components.
pub uninterp spec fn path_starts_with(path: Seq<char>, base: Seq<char>) -> bool;

/// `Path::new(path).starts_with(base)`. Its result is named, not described,
/// but for one fact that std's documentation shows: a path starts with itself.
#[verifier::external_body]
fn path_has_prefix(path: &str, base: &str) -> (r: bool)
    ensures
        r == path_starts_with(path@, base@),
        base@ == path@ ==> r,
{
    std::path::Path::new(path).starts_with(base)
}

/// Length in bytes of the disk's mount point, as `str::len` gives it.
pub open spec fn mount_len(d: DiskInfo) -> usize {
    encode_utf8(d.mount_point@).len() as usize
}

/// The disk mounted at the longest mount point that prefixes `target`
/// (the last one listed among equally long ones), by its index.
pub open spec fn best_disk(disks: Seq<DiskInfo>, target: Seq<char>) -> Option<int>
    decreases disks.len(),
{
    if disks.len() == 0 {
        None
    } else {
        let prev = best_disk(disks.drop_last(), target);
        let i = disks.len() - 1;
        if path_starts_with(target, disks[i].mount_point@) {
            match prev {
                Some(j) => if mount_len(disks[i]) >= mount_len(disks[j]) {
                    Some(i)
                } else {
                    Some(j)
                },
                None => Some(i),
            }
        } else {
            prev
        }
    }
}

/// A disk whose mount point prefixes `target` is always a candidate: the disk
/// chosen has a mount point at least as long, so the sum over all disks is not
/// used.
pub proof fn lemma_matching_mount_is_candidate(disks: Seq<DiskInfo>, target: Seq<char>, k: int)
    requires
        0 <= k < disks.len(),
        path_starts_with(target, disks[k].mount_point@),
    ensures
        best_disk(disks, target) is Some,
        0 <= best_disk(disks, target)->0 < disks.len(),
        mount_len(disks[best_disk(disks, target)->0]) >= mount_len(disks[k]),
    decreases disks.len(),
{
    lemma_best_disk_in_range(disks, target);
    let t = disks.drop_last();
    if k < disks.len() - 1 {
        assert(t[k] == disks[k]);
        lemma_matching_mount_is_candidate(t, target, k);
        lemma_best_disk_in_range(t, target);
        let j = best_disk(t, target)->0;
        assert(t[j] == disks[j]);
    } else {
        lemma_best_disk_in_range(t, target);
        match best_disk(t, target) {
            Some(j) => {
                assert(t[j] == disks[j]);
            },
            None => {},
        }
    }
}

proof fn lemma_best_disk_in_range(disks: Seq<DiskInfo>, target: Seq<char>)
    ensures
        best_disk(disks, target) matches Some(i) ==> 0 <= i < disks.len(),
    decreases disks.len(),
{
    if disks.len() > 0 {
        lemma_best_disk_in_range(disks.drop_last(), target);
    }
}

/// The disk chosen is the one with the longest mount point among those that
/// are path prefixes of `target`, the last listed among equally long ones:
/// its own mount point prefixes `target`, every other disk whose mount point
/// prefixes `target` has one no longer, and every such disk listed after it
/// has one strictly shorter. No disk is chosen only when no mount point
/// prefixes `target`.
pub proof fn lemma_best_disk_is_longest_prefix(disks: Seq<DiskInfo>, target: Seq<char>)
    ensures
        match best_disk(disks, target) {
            Some(i) => {
                &&& 0 <= i < disks.len()
                &&& path_starts_with(target, disks[i].mount_point@)
                &&& forall|j: int|
                    0 <= j < disks.len() && path_starts_with(target, (#[trigger] disks[j]).mount_point@)
                        ==> mount_len(disks[j]) <= mount_len(disks[i])
                &&& forall|j: int|
                    i < j < disks.len() && path_starts_with(target, (#[trigger] disks[j]).mount_point@)
                        ==> mount_len(disks[j]) < mount_len(disks[i])
            },
            None => forall|j: int|
                0 <= j < disks.len() ==> !path_starts_with(target, (#[trigger] disks[j]).mount_point@),
        },
    decreases disks.len(),
{
    if disks.len() > 0 {
        let t = disks.drop_last();
        let n = disks.len() - 1;
        lemma_best_disk_is_longest_prefix(t, target);
        assert forall|j: int| 0 <= j < n implies t[j] == disks[j] by {}
        match best_disk(t, target) {
            Some(p) => {
                assert(t[p] == disks[p]);
            },
            None => {},
        }
    }
}

/// Used bytes over all disks.
pub open spec fn sum_used(disks: Seq<DiskInfo>) -> int
    decreases disks.len(),
{
    if disks.len() == 0 {
        0
    } else {
        sum_used(disks.drop_last()) + disks.last().total_space - disks.last().available_space
    }
}

/// Size over all disks.
pub open spec fn sum_total(disks: Seq<DiskInfo>) -> int
    decreases disks.len(),
{
    if disks.len() == 0 {
        0
    } else {
        sum_total(disks.drop_last()) + disks.last().total_space
    }
}

/// `(used, total)` bytes of the disk that best matches `target`: the one with
/// the longest mount point that prefixes it; when none does, the sum over all
/// disks.
pub open spec fn spec_disk_usage(disks: Seq<DiskInfo>, target: Seq<char>) -> (int, int) {
    match best_disk(disks, target) {
        Some(i) => (disks[i].total_space - disks[i].available_space, disks[i].total_space as int),
        None => (sum_used(disks), sum_total(disks)),
    }
}

/// The `u64` computation of `spec_disk_usage` does not underflow or overflow:
/// the chosen disk has no more free than total space, and when the disks are
/// summed, each has no more free than total space and the sums fit.
pub open spec fn disk_usage_fits(disks: Seq<DiskInfo>, target: Seq<char>) -> bool {
    match best_disk(disks, target) {
        Some(i) => disks[i].available_space <= disks[i].total_space,
        None => {
            &&& forall|k: int|
                0 <= k < disks.len() ==> (#[trigger] disks[k]).available_space
                    <= disks[k].total_space
            &&& sum_used(disks) <= u64::MAX
            &&& sum_total(disks) <= u64::MAX
        },
    }
}

proof fn lemma_sums_grow(disks: Seq<DiskInfo>, k: int)
    requires
        0 <= k <= disks.len(),
        forall|j: int| 0 <= j < disks.len() ==> (#[trigger] disks[j]).available_space <= disks[j].total_space,
    ensures
        0 <= sum_used(disks.subrange(0, k)) <= sum_used(disks),
        0 <= sum_total(disks.subrange(0, k)) <= sum_total(disks),
    decreases disks.len(),
{
    if disks.len() > 0 {
        let t = disks.drop_last();
        if k < disks.len() {
            lemma_sums_grow(t, k);
            assert(t.subrange(0, k) =~= disks.subrange(0, k));
        } else {
            assert(disks.subrange(0, k) =~= disks);
            lemma_sums_grow(t, 0);
        }
    } else {
        assert(disks.subrange(0, k) =~= disks);
    }
}

fn best_disk_index(disks: &Vec<DiskInfo>, target: &str) -> (r: Option<usize>)
    ensures
        match r {
            Some(i) => best_disk(disks@, target@) == Some(i as int) && i < disks@.len(),
            None => best_disk(disks@, target@) is None,
        },
        forall|k: int|
            0 <= k < disks@.len() && (#[trigger] disks@[k]).mount_point@ == target@
                ==> path_starts_with(target@, disks@[k].mount_point@),
{
    let mut best: Option<usize> = None;
    let mut best_len: usize = 0;
    let mut i: usize = 0;
    while i < disks.len()
        invariant
            i <= disks@.len(),
            match best {
                Some(j) => {
                    &&& best_disk(disks@.subrange(0, i as int), target@) == Some(j as int)
                    &&& j < i
                    &&& best_len == mount_len(disks@[j as int])
                },
                None => best_disk(disks@.subrange(0, i as int), target@) is None,
            },
            forall|k: int|
                0 <= k < i && (#[trigger] disks@[k]).mount_point@ == target@ ==> path_starts_with(
                    target@,
                    disks@[k].mount_point@,
                ),
        decreases disks@.len() - i,
    {
        let ghost pre = disks@.subrange(0, i as int);
        let ghost next = disks@.subrange(0, i + 1);
        assert(next.drop_last() =~= pre);
        assert(next[i as int] == disks@[i as int]);
        if path_has_prefix(target, disks[i].mount_point.as_str()) {
            let len = disks[i].mount_point.as_str().len();
            assert(len == mount_len(disks@[i as int]));
            match best {
                Some(j) => {
                    assert(pre[j as int] == disks@[j as int]);
                    if len >= best_len {
                        best = Some(i);
                        best_len = len;
                    }
                },
                None => {
                    best = Some(i);
                    best_len = len;
                },
            }
        }
        i = i + 1;
    }
    assert(disks@.subrange(0, disks@.len() as int) =~= disks@);
    best
}

/// A disk mounted exactly at `target` takes part in the choice: the disk chosen
/// has a mount point at least as long as it.
pub open spec fn exact_match_preferred(disks: Seq<DiskInfo>, target: Seq<char>) -> bool {
    forall|k: int|
        0 <= k < disks.len() && (#[trigger] disks[k]).mount_point@ == target ==> {
            &&& best_disk(disks, target) is Some
            &&& mount_len(disks[best_disk(disks, target)->0]) >= mount_len(disks[k])
        }
}

/// `(used, total)` bytes of the disk that best matches `disk_path`: the one
/// whose mount point is the longest that prefixes it (exact match included,
/// which handles nested mounts); when none does, the sum over all disks, so
/// that the metrics degrade gracefully rather than reporting zero.
pub fn disk_usage_at(disks: &Vec<DiskInfo>, disk_path: &str) -> (r: (u64, u64))
    requires
        disk_usage_fits(disks@, disk_path@),
    ensures
        (r.0 as int, r.1 as int) == spec_disk_usage(disks@, disk_path@),
        exact_match_preferred(disks@, disk_path@),
{
    let best = best_disk_index(disks, disk_path);
    proof {
        assert forall|k: int|
            0 <= k < disks@.len() && (#[trigger] disks@[k]).mount_point@ == disk_path@ implies {
                &&& best_disk(disks@, disk_path@) is Some
                &&& mount_len(disks@[best_disk(disks@, disk_path@)->0]) >= mount_len(disks@[k])
            } by {
            lemma_matching_mount_is_candidate(disks@, disk_path@, k);
        }
    }
    match best {
        Some(i) => {
            let total = disks[i].total_space;
            let available = disks[i].available_space;
            (total - available, total)
        },
        None => {
            let mut used: u64 = 0;
            let mut total: u64 = 0;
            let mut k: usize = 0;
            while k < disks.len()
                invariant
                    k <= disks@.len(),
                    disk_usage_fits(disks@, disk_path@),
                    best_disk(disks@, disk_path@) is None,
                    used as int == sum_used(disks@.subrange(0, k as int)),
                    total as int == sum_total(disks@.subrange(0, k as int)),
                decreases disks@.len() - k,
            {
                proof {
                    lemma_sums_grow(disks@, k + 1);
                    assert(disks@.subrange(0, k + 1).drop_last() =~= disks@.subrange(0, k as int));
                    assert(disks@[k as int].available_space <= disks@[k as int].total_space);
                }
                let t = disks[k].total_space;
                let a = disks[k].available_space;
                used = used + (t - a);
                total = total + t;
                k = k + 1;
            }
            assert(disks@.subrange(0, disks@.len() as int) =~= disks@);
            (used, total)
        },
    }
}

/// `disk_usage_at` where its arithmetic stays within `u64`, `None` where it
/// would not (a disk reporting more free than total space, or sizes whose sum
/// exceeds `u64`).
pub fn checked_disk_usage_at(disks: &Vec<DiskInfo>, disk_path: &str) -> (r: Option<(u64, u64)>)
    ensures
        match r {
            Some(p) => disk_usage_fits(disks@, disk_path@) && (p.0 as int, p.1 as int)
                == spec_disk_usage(disks@, disk_path@),
            None => !disk_usage_fits(disks@, disk_path@),
        },
        exact_match_preferred(disks@, disk_path@),
{
    let best = best_disk_index(disks, disk_path);
    proof {
        assert forall|k: int|
            0 <= k < disks@.len() && (#[trigger] disks@[k]).mount_point@ == disk_path@ implies {
                &&& best_disk(disks@, disk_path@) is Some
                &&& mount_len(disks@[best_disk(disks@, disk_path@)->0]) >= mount_len(disks@[k])
            } by {
            lemma_matching_mount_is_candidate(disks@, disk_path@, k);
        }
    }
    let fits = match best {
        Some(i) => disks[i].available_space <= disks[i].total_space,
        None => {
            let mut ok = true;
            let mut used: u128 = 0;
            let mut total: u128 = 0;
            let mut k: usize = 0;
            while k < disks.len()
                invariant
                    k <= disks@.len(),
                    ok == forall|j: int|
                        0 <= j < k ==> (#[trigger] disks@[j]).available_space
                            <= disks@[j].total_space,
                    ok ==> used as int == sum_used(disks@.subrange(0, k as int)),
                    total as int == sum_total(disks@.subrange(0, k as int)),
                    total <= k * 18446744073709551615,
                    used <= k * 18446744073709551615,
                    k <= usize::MAX,
                decreases disks@.len() - k,
            {
                assert(disks@.subrange(0, k + 1).drop_last() =~= disks@.subrange(0, k as int));
                let t = disks[k].total_space;
                let a = disks[k].available_space;
                if a > t {
                    ok = false;
                } else {
                    used = used + ((t - a) as u128);
                }
                total = total + (t as u128);
                k = k + 1;
            }
            assert(disks@.subrange(0, disks@.len() as int) =~= disks@);
            ok && used <= 18446744073709551615u128 && total <= 18446744073709551615u128
        },
    };
    if fits {
        Some(disk_usage_at(disks, disk_path))
    } else {
        None
    }
}

} // verus!
