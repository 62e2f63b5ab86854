//! The heartbeat supervisor: at most one keep-alive loop per device. The
//! supervisor owns the udid-to-session map; the loops themselves run outside
//! and observe a shared stop flag. Starting an already-supervised device is
//! a no-op, killing raises the flag and clears the entry, and a loop that
//! loses its connection reports back so its entry is cleared too.

use vstd::prelude::*;

use core::sync::atomic::AtomicBool;
use std::sync::Arc;

verus! {

/// A shared stop signal handed to the keep-alive loop of one session. The
/// flag is shared mutable state: nothing is promised of what a read returns,
/// and the supervisor's contracts speak only of its own map.
pub struct StopFlag {
    flag: Arc<AtomicBool>,
}

impl StopFlag {
    /// A fresh, lowered flag.
    pub fn new() -> StopFlag {
        StopFlag { flag: Arc::new(AtomicBool::new(false)) }
    }

    /// Another handle on the same flag.
    /// Relies on Arc::clone: the clone shares the flag.
    #[verifier::external_body]
    pub fn share(&self) -> StopFlag {
        StopFlag { flag: Arc::clone(&self.flag) }
    }

    /// Asks the loop holding this flag to stop.
    /// Relies on core's AtomicBool::store.
    #[verifier::external_body]
    pub fn raise(&self) {
        self.flag.store(true, core::sync::atomic::Ordering::SeqCst);
    }

    /// Whether a stop was requested. The flag is shared, so the result says
    /// nothing about later reads.
    /// Relies on core's AtomicBool::load.
    #[verifier::external_body]
    pub fn is_raised(&self) -> bool {
        self.flag.load(core::sync::atomic::Ordering::SeqCst)
    }
}

/// One supervised keep-alive session.
pub struct HeartSession {
    pub udid: String,
    pub stop: StopFlag,
}

/// Some session in `s` belongs to this udid.
pub open spec fn has_session(s: Seq<HeartSession>, udid: Seq<char>) -> bool {
    exists|i: int| 0 <= i < s.len() && (#[trigger] s[i]).udid@ == udid
}

/// At most one session per udid.
pub open spec fn sessions_wf(s: Seq<HeartSession>) -> bool {
    forall|i: int, j: int|
        0 <= i < j < s.len() ==> (#[trigger] s[i]).udid@ != (#[trigger] s[j]).udid@
}

/// The sessions left after a udid's session is removed.
pub open spec fn without_udid(s: Seq<HeartSession>, udid: Seq<char>) -> Seq<HeartSession>
    decreases s.len(),
{
    if s.len() == 0 {
        Seq::empty()
    } else if s.last().udid@ == udid {
        without_udid(s.drop_last(), udid)
    } else {
        without_udid(s.drop_last(), udid).push(s.last())
    }
}

/// Removing a udid keeps the map well formed and leaves no session for it,
/// so a killed device is no longer supervised.
pub proof fn lemma_without_udid_gone(s: Seq<HeartSession>, udid: Seq<char>)
    requires
        sessions_wf(s),
    ensures
        sessions_wf(without_udid(s, udid)),
        !has_session(without_udid(s, udid), udid),
        forall|i: int|
            0 <= i < without_udid(s, udid).len() ==> has_session(
                s,
                (#[trigger] without_udid(s, udid)[i]).udid@,
            ),
    decreases s.len(),
{
    if s.len() > 0 {
        let pre = s.drop_last();
        assert(sessions_wf(pre)) by {
            assert(forall|i: int| 0 <= i < pre.len() ==> pre[i] == s[i]);
        }
        lemma_without_udid_gone(pre, udid);
        let out = without_udid(s, udid);
        let sub = without_udid(pre, udid);
        assert(forall|i: int|
            0 <= i < sub.len() && has_session(pre, (#[trigger] sub[i]).udid@) ==> has_session(
                s,
                sub[i].udid@,
            )) by {
            assert(forall|i: int| 0 <= i < pre.len() ==> pre[i] == s[i]);
        }
        if s.last().udid@ != udid {
            assert forall|i: int, j: int| 0 <= i < j < out.len() implies (
            #[trigger] out[i]).udid@ != (#[trigger] out[j]).udid@ by {
                if j < out.len() - 1 {
                    assert(out[i] == sub[i] && out[j] == sub[j]);
                } else {
                    assert(out[i] == sub[i] && out[j] == s.last());
                    let w = choose|w: int|
                        0 <= w < pre.len() && (#[trigger] pre[w]).udid@ == sub[i].udid@;
                    assert(pre[w] == s[w]);
                    assert(s[w].udid@ != s[s.len() - 1].udid@);
                }
            }
            assert forall|i: int| 0 <= i < out.len() implies (#[trigger] out[i]).udid@ != udid by {
                if i < out.len() - 1 {
                    assert(out[i] == sub[i]);
                } else {
                    assert(out[i] == s.last());
                }
            }
            assert(!has_session(out, udid));
            assert forall|i: int| 0 <= i < out.len() implies has_session(
                s,
                (#[trigger] out[i]).udid@,
            ) by {
                if i < out.len() - 1 {
                    assert(out[i] == sub[i]);
                } else {
                    assert(out[i] == s.last());
                    assert(s[s.len() - 1].udid@ == out[i].udid@);
                }
            }
        }
    }
}

/// The supervisor: one stop flag per device with a live keep-alive loop.
pub struct Heart {
    pub devices: Vec<HeartSession>,
}

impl Heart {
    /// The map invariant: at most one session per udid.
    pub open spec fn wf(self) -> bool {
        sessions_wf(self.devices@)
    }

    /// The supervised sessions.
    pub open spec fn sessions(self) -> Seq<HeartSession> {
        self.devices@
    }

    /// An empty supervisor.
    pub fn new() -> (h: Heart)
        ensures
            h.wf(),
            h.sessions().len() == 0,
    {
        Heart { devices: Vec::new() }
    }

    /// Whether this udid has a live session.
    pub fn is_active(&self, udid: &str) -> (r: bool)
        ensures
            r == has_session(self.sessions(), udid@),
    {
        match session_index(&self.devices, udid) {
            Some(_) => true,
            None => false,
        }
    }

    /// Starts supervision of a device: a no-op when the device already has a
    /// session, else a fresh session is recorded and its stop flag handed
    /// back, for the caller to give to exactly one new keep-alive loop.
    pub fn start(&mut self, udid: &str) -> (r: Option<StopFlag>)
        requires
            old(self).wf(),
        ensures
            final(self).wf(),
            has_session(old(self).sessions(), udid@) ==> r is None && final(self).sessions() == old(
                self,
            ).sessions(),
            !has_session(old(self).sessions(), udid@) ==> r is Some && final(self).sessions().len()
                == old(self).sessions().len() + 1 && final(self).sessions().drop_last() == old(
                self,
            ).sessions() && final(self).sessions().last().udid@ == udid@,
            has_session(final(self).sessions(), udid@),
    {
        match session_index(&self.devices, udid) {
            Some(_) => None,
            None => {
                let flag = StopFlag::new();
                let handle = flag.share();
                let ghost before = self.devices@;
                self.devices.push(HeartSession { udid: udid.to_owned(), stop: flag });
                proof {
                    let now = final(self).devices@;
                    assert(now.drop_last() =~= before);
                    assert forall|i: int, j: int| 0 <= i < j < now.len() implies (
                    #[trigger] now[i]).udid@ != (#[trigger] now[j]).udid@ by {
                        if j < now.len() - 1 {
                            assert(now[i] == before[i] && now[j] == before[j]);
                        } else {
                            assert(now[i] == before[i]);
                        }
                    }
                    assert(now[now.len() - 1].udid@ == udid@);
                }
                Some(handle)
            },
        }
    }

    /// Stops supervision of a device: raises the session's stop flag, so its
    /// loop winds down, and clears the entry. A udid with no session is a
    /// no-op.
    pub fn kill(&mut self, udid: &str)
        requires
            old(self).wf(),
        ensures
            final(self).wf(),
            final(self).sessions() == without_udid(old(self).sessions(), udid@),
            !has_session(final(self).sessions(), udid@),
    {
        let ghost orig = old(self).devices@;
        let mut rest: Vec<HeartSession> = Vec::new();
        core::mem::swap(&mut self.devices, &mut rest);
        let ghost mut k: int = 0;
        proof {
            assert(orig.take(0) =~= Seq::<HeartSession>::empty());
        }
        let key: String = udid.to_owned();
        while rest.len() > 0
            invariant
                key@ == udid@,
                rest@ == orig.skip(k),
                0 <= k <= orig.len(),
                self.devices@ == without_udid(orig.take(k), udid@),
            decreases rest@.len(),
        {
            let p = rest.remove(0);
            proof {
                assert(orig.skip(k)[0] == orig[k]);
                assert(p == orig[k]);
                assert(rest@ =~= orig.skip(k + 1));
                assert(orig.take(k + 1).drop_last() =~= orig.take(k));
                assert(orig.take(k + 1).last() == orig[k]);
            }
            if p.udid == key {
                p.stop.raise();
            } else {
                self.devices.push(p);
            }
            proof {
                k = k + 1;
            }
        }
        proof {
            assert(orig.skip(k).len() == orig.len() - k);
            assert(orig.take(k) =~= orig);
            lemma_without_udid_gone(orig, udid@);
        }
    }
}

/// What the keep-alive loop does after one receive attempt: a lost
/// connection ends the loop; otherwise the probe is echoed back, and the
/// loop goes on unless a stop was requested.
pub enum HeartbeatStep {
    /// Echo the probe and wait for the next one.
    EchoThenContinue,
    /// Echo the probe, then wind the loop down.
    EchoThenStop,
    /// The connection is gone: wind the loop down and clear the entry.
    Disconnect,
}

/// The keep-alive loop's decision for one iteration, from whether a probe
/// arrived and whether a stop was requested.
pub fn heartbeat_next(received: bool, stop_requested: bool) -> (r: HeartbeatStep)
    ensures
        !received ==> r == HeartbeatStep::Disconnect,
        received && stop_requested ==> r == HeartbeatStep::EchoThenStop,
        received && !stop_requested ==> r == HeartbeatStep::EchoThenContinue,
{
    if !received {
        HeartbeatStep::Disconnect
    } else if stop_requested {
        HeartbeatStep::EchoThenStop
    } else {
        HeartbeatStep::EchoThenContinue
    }
}

/// Law: a well-formed supervisor holds at most one session per device, so
/// two live keep-alive loops for one udid cannot both be supervised.
pub proof fn lemma_session_exclusive(s: Seq<HeartSession>, i: int, j: int)
    requires
        sessions_wf(s),
        0 <= i < s.len(),
        0 <= j < s.len(),
        s[i].udid@ == s[j].udid@,
    ensures
        i == j,
{
}

/// The index of the first session for this udid, if any.
fn session_index(devices: &Vec<HeartSession>, udid: &str) -> (r: Option<usize>)
    ensures
        match r {
            Some(i) => i < devices@.len() && devices@[i as int].udid@ == udid@,
            None => !has_session(devices@, udid@),
        },
{
    let key: String = udid.to_owned();
    let n = devices.len();
    let mut i: usize = 0;
    while i < n
        invariant
            key@ == udid@,
            n == devices@.len(),
            0 <= i <= n,
            forall|j: int| 0 <= j < i ==> (#[trigger] devices@[j]).udid@ != udid@,
        decreases n - i,
    {
        if devices[i].udid == key {
            return Some(i);
        }
        i = i + 1;
    }
    None
}

} // verus!
