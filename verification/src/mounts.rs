//! The transient mount-status map. A device being provisioned has an entry:
//! empty while the mount worker is still at it, a terminal message once it
//! finished or failed for good. No entry means no mount is under way. The
//! status poll consumes a terminal message; an in-progress entry stays.

use vstd::prelude::*;

verus! {

/// How many times the mount worker tries before giving up.
pub const MOUNT_ATTEMPTS: u8 = 5;

/// One device's mount status.
pub struct MountEntry {
    pub udid: String,
    pub message: String,
}

/// Some entry in `s` belongs to this udid.
pub open spec fn has_mount(s: Seq<MountEntry>, udid: Seq<char>) -> bool {
    exists|i: int| 0 <= i < s.len() && (#[trigger] s[i]).udid@ == udid
}

/// The first entry for this udid, if any.
pub open spec fn find_mount(s: Seq<MountEntry>, udid: Seq<char>) -> Option<MountEntry>
    decreases s.len(),
{
    if s.len() == 0 {
        None
    } else if s[0].udid@ == udid {
        Some(s[0])
    } else {
        find_mount(s.skip(1), udid)
    }
}

/// The entries left after a udid's entry is removed.
pub open spec fn without_mount(s: Seq<MountEntry>, udid: Seq<char>) -> Seq<MountEntry>
    decreases s.len(),
{
    if s.len() == 0 {
        Seq::empty()
    } else if s.last().udid@ == udid {
        without_mount(s.drop_last(), udid)
    } else {
        without_mount(s.drop_last(), udid).push(s.last())
    }
}

/// At most one entry per udid.
pub open spec fn mounts_wf(s: Seq<MountEntry>) -> bool {
    forall|i: int, j: int|
        0 <= i < j < s.len() ==> (#[trigger] s[i]).udid@ != (#[trigger] s[j]).udid@
}

/// Removing a udid keeps the map well formed and leaves no entry for it.
pub proof fn lemma_without_mount_gone(s: Seq<MountEntry>, udid: Seq<char>)
    requires
        mounts_wf(s),
    ensures
        mounts_wf(without_mount(s, udid)),
        !has_mount(without_mount(s, udid), udid),
        forall|i: int|
            0 <= i < without_mount(s, udid).len() ==> has_mount(
                s,
                (#[trigger] without_mount(s, udid)[i]).udid@,
            ),
    decreases s.len(),
{
    if s.len() > 0 {
        let pre = s.drop_last();
        assert(mounts_wf(pre)) by {
            assert(forall|i: int| 0 <= i < pre.len() ==> pre[i] == s[i]);
        }
        lemma_without_mount_gone(pre, udid);
        let out = without_mount(s, udid);
        let sub = without_mount(pre, udid);
        assert(forall|i: int|
            0 <= i < sub.len() && has_mount(pre, (#[trigger] sub[i]).udid@) ==> has_mount(
                s,
                sub[i].udid@,
            )) by {
            assert(forall|i: int| 0 <= i < pre.len() ==> pre[i] == s[i]);
        }
        if s.last().udid@ != udid {
            assert forall|i: int, j: int| 0 <= i < j < out.len() implies (
            #[trigger] out[i]).udid@ != (#[trigger] out[j]).udid@ by {
                if j < out.len() - 1 {
                    assert(out[i] == sub[i] && out[j] == sub[j]);
                } else {
                    assert(out[i] == sub[i] && out[j] == s.last());
                    let w = choose|w: int|
                        0 <= w < pre.len() && (#[trigger] pre[w]).udid@ == sub[i].udid@;
                    assert(pre[w] == s[w]);
                    assert(s[w].udid@ != s[s.len() - 1].udid@);
                }
            }
            assert forall|i: int| 0 <= i < out.len() implies (#[trigger] out[i]).udid@ != udid by {
                if i < out.len() - 1 {
                    assert(out[i] == sub[i]);
                } else {
                    assert(out[i] == s.last());
                }
            }
            assert forall|i: int| 0 <= i < out.len() implies has_mount(
                s,
                (#[trigger] out[i]).udid@,
            ) by {
                if i < out.len() - 1 {
                    assert(out[i] == sub[i]);
                } else {
                    assert(out[i] == s.last());
                    assert(s[s.len() - 1].udid@ == out[i].udid@);
                }
            }
        }
    }
}

/// What a status poll finds for a device.
pub enum MountPoll {
    /// No mount is under way.
    NotMounting,
    /// The worker is still mounting; check back later.
    InProgress,
    /// The mount reached a terminal message, now handed over and cleared.
    Finished(String),
}

/// The mount-status map itself.
pub struct MountStatus {
    pub entries: Vec<MountEntry>,
}

impl MountStatus {
    pub open spec fn wf(self) -> bool {
        mounts_wf(self.entries@)
    }

    pub open spec fn view_entries(self) -> Seq<MountEntry> {
        self.entries@
    }

    /// An empty map.
    pub fn new() -> (m: MountStatus)
        ensures
            m.wf(),
            m.view_entries().len() == 0,
    {
        MountStatus { entries: Vec::new() }
    }

    /// Writes a device's status, replacing any earlier one: the worker
    /// publishes the empty message when it begins and a terminal message
    /// when it ends.
    pub fn set(&mut self, udid: &str, message: String)
        requires
            old(self).wf(),
        ensures
            final(self).wf(),
            final(self).view_entries().len() == without_mount(old(self).view_entries(), udid@).len()
                + 1,
            final(self).view_entries().drop_last() == without_mount(
                old(self).view_entries(),
                udid@,
            ),
            final(self).view_entries().last().udid@ == udid@,
            final(self).view_entries().last().message == message,
            has_mount(final(self).view_entries(), udid@),
    {
        self.remove(udid);
        self.entries.push(MountEntry { udid: udid.to_owned(), message });
        proof {
            let now = final(self).entries@;
            let sub = without_mount(old(self).entries@, udid@);
            lemma_without_mount_gone(old(self).entries@, udid@);
            assert forall|i: int, j: int| 0 <= i < j < now.len() implies (
            #[trigger] now[i]).udid@ != (#[trigger] now[j]).udid@ by {
                if j < now.len() - 1 {
                    assert(now[i] == sub[i] && now[j] == sub[j]);
                } else {
                    assert(now[i] == sub[i]);
                    assert(now[j].udid@ == udid@);
                }
            }
            assert(now[now.len() - 1].udid@ == udid@);
        }
    }

    /// Clears a device's status: the worker finished cleanly, or a terminal
    /// message was handed over.
    pub fn remove(&mut self, udid: &str)
        requires
            old(self).wf(),
        ensures
            final(self).wf(),
            final(self).view_entries() == without_mount(old(self).view_entries(), udid@),
            !has_mount(final(self).view_entries(), udid@),
    {
        let ghost orig = old(self).entries@;
        let mut rest: Vec<MountEntry> = Vec::new();
        core::mem::swap(&mut self.entries, &mut rest);
        let ghost mut k: int = 0;
        proof {
            assert(orig.take(0) =~= Seq::<MountEntry>::empty());
        }
        let key: String = udid.to_owned();
        while rest.len() > 0
            invariant
                key@ == udid@,
                rest@ == orig.skip(k),
                0 <= k <= orig.len(),
                self.entries@ == without_mount(orig.take(k), udid@),
            decreases rest@.len(),
        {
            let p = rest.remove(0);
            proof {
                assert(orig.skip(k)[0] == orig[k]);
                assert(p == orig[k]);
                assert(rest@ =~= orig.skip(k + 1));
                assert(orig.take(k + 1).drop_last() =~= orig.take(k));
                assert(orig.take(k + 1).last() == orig[k]);
            }
            if !(p.udid == key) {
                self.entries.push(p);
            }
            proof {
                k = k + 1;
            }
        }
        proof {
            assert(orig.skip(k).len() == orig.len() - k);
            assert(orig.take(k) =~= orig);
            lemma_without_mount_gone(orig, udid@);
        }
    }

    /// Reads a device's mount status: nothing when no mount is under way, a
    /// pending answer while the worker runs, and the terminal message once
    /// there is one — which this consumes, clearing the entry.
    pub fn poll(&mut self, udid: &str) -> (r: MountPoll)
        requires
            old(self).wf(),
        ensures
            final(self).wf(),
            match find_mount(old(self).view_entries(), udid@) {
                None => r == MountPoll::NotMounting && final(self).view_entries() == old(
                    self,
                ).view_entries(),
                Some(e) => if e.message@.len() == 0 {
                    r == MountPoll::InProgress && final(self).view_entries() == old(
                        self,
                    ).view_entries()
                } else {
                    r == MountPoll::Finished(e.message) && final(self).view_entries()
                        == without_mount(old(self).view_entries(), udid@)
                },
            },
    {
        match mount_index(&self.entries, udid) {
            Some(i) => {
                proof {
                    lemma_find_mount_hit(self.entries@, udid@, i as int);
                }
                if self.entries[i].message.as_str().is_empty() {
                    MountPoll::InProgress
                } else {
                    let msg = self.entries[i].message.clone();
                    self.remove(udid);
                    MountPoll::Finished(msg)
                }
            },
            None => {
                proof {
                    lemma_find_mount_none(self.entries@, udid@);
                }
                MountPoll::NotMounting
            },
        }
    }
}

/// The index of the first entry for this udid, if any.
fn mount_index(entries: &Vec<MountEntry>, udid: &str) -> (r: Option<usize>)
    ensures
        match r {
            Some(i) => i < entries@.len() && entries@[i as int].udid@ == udid@ && forall|j: int|
                0 <= j < i ==> (#[trigger] entries@[j]).udid@ != udid@,
            None => !has_mount(entries@, udid@) && forall|j: int|
                0 <= j < entries@.len() ==> (#[trigger] entries@[j]).udid@ != udid@,
        },
{
    let key: String = udid.to_owned();
    let n = entries.len();
    let mut i: usize = 0;
    while i < n
        invariant
            key@ == udid@,
            n == entries@.len(),
            0 <= i <= n,
            forall|j: int| 0 <= j < i ==> (#[trigger] entries@[j]).udid@ != udid@,
        decreases n - i,
    {
        if entries[i].udid == key {
            return Some(i);
        }
        i = i + 1;
    }
    None
}

/// Skipping a prefix with no matching udid does not change what a status
/// read finds.
proof fn lemma_find_mount_skip(s: Seq<MountEntry>, udid: Seq<char>, i: int)
    requires
        0 <= i <= s.len(),
        forall|j: int| 0 <= j < i ==> (#[trigger] s[j]).udid@ != udid,
    ensures
        find_mount(s, udid) == find_mount(s.skip(i), udid),
    decreases i,
{
    if i == 0 {
        assert(s.skip(0) =~= s);
    } else {
        lemma_find_mount_skip(s, udid, i - 1);
        assert(s.skip(i - 1)[0] == s[i - 1]);
        assert(s.skip(i - 1).skip(1) =~= s.skip(i));
    }
}

/// If no entry carries the udid, a status read finds nothing.
proof fn lemma_find_mount_none(s: Seq<MountEntry>, udid: Seq<char>)
    requires
        forall|j: int| 0 <= j < s.len() ==> (#[trigger] s[j]).udid@ != udid,
    ensures
        find_mount(s, udid) is None,
{
    lemma_find_mount_skip(s, udid, s.len() as int);
    assert(s.skip(s.len() as int) =~= Seq::<MountEntry>::empty());
}

/// If the entries before `i` miss the udid and `s[i]` carries it, a status
/// read finds `s[i]`.
proof fn lemma_find_mount_hit(s: Seq<MountEntry>, udid: Seq<char>, i: int)
    requires
        0 <= i < s.len(),
        forall|j: int| 0 <= j < i ==> (#[trigger] s[j]).udid@ != udid,
        s[i].udid@ == udid,
    ensures
        find_mount(s, udid) == Some(s[i]),
{
    lemma_find_mount_skip(s, udid, i);
    assert(s.skip(i)[0] == s[i]);
}

/// The mount worker's retry budget: it tries the upload-and-mount up to
/// `MOUNT_ATTEMPTS` times with no backoff, then gives up.
pub struct MountWorker {
    pub attempts_left: u8,
}

impl MountWorker {
    /// A worker with its full budget.
    pub fn new() -> (w: MountWorker)
        ensures
            w.attempts_left == MOUNT_ATTEMPTS,
    {
        MountWorker { attempts_left: MOUNT_ATTEMPTS }
    }

    /// After a failed attempt: whether to try again. The budget shrinks by
    /// one, and the worker retries exactly while budget remains.
    pub fn retry_after_failure(&mut self) -> (again: bool)
        requires
            old(self).attempts_left >= 1,
        ensures
            final(self).attempts_left == old(self).attempts_left - 1,
            again == (final(self).attempts_left >= 1),
    {
        self.attempts_left = self.attempts_left - 1;
        self.attempts_left >= 1
    }
}

} // verus!
