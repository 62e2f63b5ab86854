//! Per-device sessions. A `Client` is what a registry lookup hands a
//! request: the device's addresses and paths. Its operations are little
//! protocols with the device — connect and keep alive, enable JIT by
//! launching, attach to a running process — whose decisions run here as
//! state machines with exact transitions. The caller performs the device
//! call an action asks for and feeds the outcome back; every terminal state
//! is the caller's cue to release the device's heartbeat.

use vstd::prelude::*;

use crate::heartbeat::{has_session, Heart, StopFlag};
use crate::protocol::{jit_sequence, DebugStep, ProtocolRun};
use crate::subnet::{ipv4_value, parse_ipv4, valid_ipv4};

verus! {

/// How many times the launch path tries to open a debug server.
pub const DEBUG_SERVER_ATTEMPTS: u8 = 3;

/// How many times the attach path tries to open a debug server, mounting
/// between attempts.
pub const ATTACH_ATTEMPTS: u8 = 5;

/// A device session: everything a request handler needs to talk to one
/// registered device. Built by a registry lookup; holds no live connection.
pub struct Client {
    pub ip: String,
    pub udid: String,
    pub pairing_file: String,
    pub dmg_path: String,
}

impl Client {
    pub fn new(ip: String, udid: String, pairing_file: String, dmg_path: String) -> (c: Client)
        ensures
            c.ip == ip,
            c.udid == udid,
            c.pairing_file == pairing_file,
            c.dmg_path == dmg_path,
    {
        Client { ip, udid, pairing_file, dmg_path }
    }

    /// Prepares a device connection: checks that the stored ip is a
    /// well-formed IPv4 address and starts the device's heartbeat. The
    /// parsed address comes back with the stop flag of a freshly started
    /// keep-alive loop, or with nothing when one was already running.
    pub fn connect(&self, heart: &mut Heart) -> (r: Result<(u32, Option<StopFlag>), String>)
        requires
            old(heart).wf(),
        ensures
            final(heart).wf(),
            !valid_ipv4(self.ip@) ==> (r matches Err(m) && m@ == "Unable to parse ip"@) && final(heart).sessions() == old(heart).sessions(),
            valid_ipv4(self.ip@) ==> (r matches Ok(v) && v.0 == ipv4_value(self.ip@)
                && has_session(final(heart).sessions(), self.udid@) && (v.1 is Some
                <==> !has_session(old(heart).sessions(), self.udid@))),
            valid_ipv4(self.ip@) && has_session(old(heart).sessions(), self.udid@) ==> final(heart).sessions() == old(heart).sessions(),
            valid_ipv4(self.ip@) && !has_session(old(heart).sessions(), self.udid@) ==> final(heart).sessions().len() == old(heart).sessions().len() + 1 && final(heart).sessions().drop_last() == old(heart).sessions() && final(heart).sessions().last().udid@ == self.udid@,
    {
        match parse_ipv4(self.ip.as_str()) {
            Some(addr) => {
                let flag = heart.start(self.udid.as_str());
                Ok((addr, flag))
            },
            None => Err("Unable to parse ip".to_owned()),
        }
    }

    /// Begins the JIT-enable-by-launch flow for a bundle id. The caller
    /// drives the returned session against the device.
    pub fn debug_app(&self) -> (s: JitSession)
        ensures
            s.wf(),
            s.phase == JitPhase::LookupApp,
    {
        JitSession { run: None, attempts_left: 0, phase: JitPhase::LookupApp }
    }

    /// Begins the attach flow for a running process. The caller drives the
    /// returned session against the device.
    pub fn attach_debugger(&self, pid: u16) -> (s: AttachSession)
        ensures
            s.wf(),
            s.phase == AttachPhase::TryDebugServer,
            s.attempts_left == ATTACH_ATTEMPTS,
            s.pid == pid,
    {
        AttachSession {
            pid,
            run: None,
            attempts_left: ATTACH_ATTEMPTS,
            phase: AttachPhase::TryDebugServer,
        }
    }
}

/// How a JIT-enable-by-launch flow ended.
pub enum JitOutcome {
    /// The whole launch sequence went through: JIT is enabled.
    Launched,
    /// The installation proxy knows no such app.
    AppNotFound,
    /// An image is already mounted, yet no debug server opens: mounting
    /// again cannot help, so this is fatal.
    StartFailed,
    /// No image is mounted: a mount worker should be started and the caller
    /// answered with the pending state, not an error.
    Mounting,
    /// The exchange at this step failed; no later step was issued.
    StepFailed(usize),
}

/// Where the launch flow stands.
pub enum JitPhase {
    /// Waiting for the app's container and executable paths.
    LookupApp,
    /// Waiting for a debug-server open attempt.
    TryDebugServer,
    /// No debug server after all attempts: waiting for the count of
    /// already-mounted image signatures.
    CheckMounted,
    /// Issuing the launch sequence step by step.
    Exchange,
    /// Over, one way or the other.
    Finished(JitOutcome),
}

/// The JIT-enable-by-launch flow.
pub struct JitSession {
    pub run: Option<ProtocolRun>,
    pub attempts_left: u8,
    pub phase: JitPhase,
}

impl JitSession {
    pub open spec fn wf(self) -> bool {
        &&& self.phase is TryDebugServer ==> 1 <= self.attempts_left <= DEBUG_SERVER_ATTEMPTS
            && (self.run matches Some(run) && run.wf() && !run.done())
        &&& self.phase is Exchange ==> (self.run matches Some(run) && run.wf() && !run.done())
    }

    /// Feeds in what the installation proxy said of the app: its container
    /// (working directory) and executable path. An app without both is not
    /// found; otherwise the launch sequence is drawn up and the debug-server
    /// attempts begin.
    pub fn app_info(&mut self, container: Option<String>, executable: Option<String>)
        requires
            old(self).wf(),
            old(self).phase == JitPhase::LookupApp,
        ensures
            final(self).wf(),
            container is None || executable is None ==> final(self).phase == JitPhase::Finished(
                JitOutcome::AppNotFound,
            ),
            container is Some && executable is Some ==> final(self).phase
                == JitPhase::TryDebugServer && final(self).attempts_left == DEBUG_SERVER_ATTEMPTS
                && (final(self).run matches Some(run) && run.next == 0 && !run.failed
                && run.steps@.len() == 5 && (run.steps@[0] matches DebugStep::Send(c) && c@
                == "QSetMaxPacketSize: 1024"@) && (run.steps@[1] matches DebugStep::Send(c) && c@
                == "QSetWorkingDir: "@ + container->Some_0@) && (run.steps@[2]
                matches DebugStep::SetArgv(v) && v@.len() == 2 && v@[0]@ == executable->Some_0@
                && v@[1]@ == executable->Some_0@) && (run.steps@[3] matches DebugStep::Send(c)
                && c@ == "qLaunchSuccess"@) && (run.steps@[4] matches DebugStep::Send(c) && c@
                == "D"@)),
    {
        match (container, executable) {
            (Some(container), Some(executable)) => {
                let steps = jit_sequence(container.as_str(), executable.as_str());
                self.run = Some(ProtocolRun::new(steps));
                self.attempts_left = DEBUG_SERVER_ATTEMPTS;
                self.phase = JitPhase::TryDebugServer;
            },
            _ => {
                self.phase = JitPhase::Finished(JitOutcome::AppNotFound);
            },
        }
    }

    /// Feeds in whether a debug server opened. An open server starts the
    /// exchange; a refusal burns one attempt, and after the last one the
    /// mounted images are checked instead.
    pub fn debug_server_attempt(&mut self, opened: bool)
        requires
            old(self).wf(),
            old(self).phase == JitPhase::TryDebugServer,
        ensures
            final(self).wf(),
            final(self).run == old(self).run,
            opened ==> final(self).phase == JitPhase::Exchange,
            !opened && old(self).attempts_left > 1 ==> final(self).phase
                == JitPhase::TryDebugServer && final(self).attempts_left == old(self).attempts_left
                - 1,
            !opened && old(self).attempts_left == 1 ==> final(self).phase == JitPhase::CheckMounted,
    {
        if opened {
            self.phase = JitPhase::Exchange;
        } else if self.attempts_left > 1 {
            self.attempts_left = self.attempts_left - 1;
        } else {
            self.phase = JitPhase::CheckMounted;
        }
    }

    /// Feeds in how many image signatures the image mounter reports. Any
    /// mounted image with a refusing debug server is fatal — mounting again
    /// cannot help; none means a mount worker should be started and the
    /// pending state reported.
    pub fn mounted_images(&mut self, count: u64)
        requires
            old(self).wf(),
            old(self).phase == JitPhase::CheckMounted,
        ensures
            final(self).wf(),
            count > 0 ==> final(self).phase == JitPhase::Finished(JitOutcome::StartFailed),
            count == 0 ==> final(self).phase == JitPhase::Finished(JitOutcome::Mounting),
    {
        if count > 0 {
            self.phase = JitPhase::Finished(JitOutcome::StartFailed);
        } else {
            self.phase = JitPhase::Finished(JitOutcome::Mounting);
        }
    }

    /// The exchange to issue now.
    pub fn current_step(&self) -> (r: &DebugStep)
        requires
            self.wf(),
            self.phase == JitPhase::Exchange,
        ensures
            self.run matches Some(run) && r == &run.steps@[run.next as int],
    {
        match &self.run {
            Some(run) => {
                match run.current_step() {
                    Some(step) => step,
                    None => unreached(),
                }
            },
            None => unreached(),
        }
    }

    /// Feeds in whether the exchange went through. A failure ends the run at
    /// that step and withholds every later one; after the last successful
    /// step the launch is done.
    pub fn step_result(&mut self, ok: bool)
        requires
            old(self).wf(),
            old(self).phase == JitPhase::Exchange,
        ensures
            final(self).wf(),
            !ok ==> final(self).phase == JitPhase::Finished(
                JitOutcome::StepFailed(old(self).run->Some_0.next as usize),
            ),
            ok && old(self).run->Some_0.next + 1 == old(self).run->Some_0.steps@.len() ==> final(self).phase == JitPhase::Finished(JitOutcome::Launched),
            ok && old(self).run->Some_0.next + 1 < old(self).run->Some_0.steps@.len() ==> final(self).phase == JitPhase::Exchange && (final(self).run matches Some(run) && run.next == old(self).run->Some_0.next + 1 && run.steps == old(self).run->Some_0.steps),
    {
        let mut taken: Option<ProtocolRun> = None;
        core::mem::swap(&mut self.run, &mut taken);
        let mut run = match taken {
            Some(run) => run,
            None => unreached(),
        };
        run.report(ok);
        if !ok {
            self.phase = JitPhase::Finished(JitOutcome::StepFailed(run.next));
            self.run = Some(run);
        } else if run.next == run.steps.len() {
            self.phase = JitPhase::Finished(JitOutcome::Launched);
            self.run = Some(run);
        } else {
            self.run = Some(run);
        }
    }
}

/// How an attach flow ended.
pub enum AttachOutcome {
    /// Attach and detach both went through: JIT is enabled for the process.
    Attached,
    /// Mounting the image failed, so no debug server will open.
    MountFailed,
    /// No debug server after all attempts.
    NoDebugServer,
    /// The exchange at this step failed; no later step was issued.
    StepFailed(usize),
}

/// Where the attach flow stands.
pub enum AttachPhase {
    /// Waiting for a debug-server open attempt.
    TryDebugServer,
    /// Waiting for a synchronous provision-and-mount to finish.
    MountSync,
    /// Issuing the attach sequence step by step.
    Exchange,
    /// Over, one way or the other.
    Finished(AttachOutcome),
}

/// The attach flow: unlike the launch flow it blocks its caller, mounting
/// synchronously between debug-server attempts, because the target process
/// is already running and the caller expects a bounded wait.
pub struct AttachSession {
    pub pid: u16,
    pub run: Option<ProtocolRun>,
    pub attempts_left: u8,
    pub phase: AttachPhase,
}

impl AttachSession {
    pub open spec fn wf(self) -> bool {
        &&& self.phase is TryDebugServer ==> 1 <= self.attempts_left <= ATTACH_ATTEMPTS
        &&& self.phase is MountSync ==> 1 <= self.attempts_left <= ATTACH_ATTEMPTS
        &&& self.phase is Exchange ==> (self.run matches Some(run) && run.wf() && !run.done()
            && run.steps@.len() == 2 && (run.steps@[0] matches DebugStep::Send(c) && c@
            == "vAttach;"@ + crate::protocol::pid_hex8(self.pid)) && (run.steps@[1]
            matches DebugStep::Send(c) && c@ == "D"@))
    }

    /// Feeds in whether a debug server opened. An open server starts the
    /// attach exchange; a refusal burns one attempt and asks for a
    /// synchronous mount, and after the last attempt the flow gives up.
    pub fn debug_server_attempt(&mut self, opened: bool)
        requires
            old(self).wf(),
            old(self).phase == AttachPhase::TryDebugServer,
        ensures
            final(self).wf(),
            final(self).pid == old(self).pid,
            opened ==> final(self).phase == AttachPhase::Exchange && (final(self).run matches Some(
                run,
            ) && run.next == 0 && !run.failed),
            !opened && old(self).attempts_left > 1 ==> final(self).phase == AttachPhase::MountSync
                && final(self).attempts_left == old(self).attempts_left - 1,
            !opened && old(self).attempts_left == 1 ==> final(self).phase == AttachPhase::Finished(
                AttachOutcome::NoDebugServer,
            ),
    {
        if opened {
            let steps = crate::protocol::attach_sequence(self.pid);
            self.run = Some(ProtocolRun::new(steps));
            self.phase = AttachPhase::Exchange;
        } else if self.attempts_left > 1 {
            self.attempts_left = self.attempts_left - 1;
            self.phase = AttachPhase::MountSync;
        } else {
            self.phase = AttachPhase::Finished(AttachOutcome::NoDebugServer);
        }
    }

    /// Feeds in whether the synchronous mount went through: a mounted image
    /// earns another debug-server attempt, a failed mount ends the flow.
    pub fn mount_result(&mut self, ok: bool)
        requires
            old(self).wf(),
            old(self).phase == AttachPhase::MountSync,
            old(self).attempts_left >= 1,
        ensures
            final(self).wf(),
            final(self).pid == old(self).pid,
            ok ==> final(self).phase == AttachPhase::TryDebugServer && final(self).attempts_left
                == old(self).attempts_left,
            !ok ==> final(self).phase == AttachPhase::Finished(AttachOutcome::MountFailed),
    {
        if ok {
            self.phase = AttachPhase::TryDebugServer;
        } else {
            self.phase = AttachPhase::Finished(AttachOutcome::MountFailed);
        }
    }

    /// The exchange to issue now.
    pub fn current_step(&self) -> (r: &DebugStep)
        requires
            self.wf(),
            self.phase == AttachPhase::Exchange,
        ensures
            self.run matches Some(run) && r == &run.steps@[run.next as int],
    {
        match &self.run {
            Some(run) => {
                match run.current_step() {
                    Some(step) => step,
                    None => unreached(),
                }
            },
            None => unreached(),
        }
    }

    /// Feeds in whether the exchange went through; as in the launch flow, a
    /// failure withholds every later step.
    pub fn step_result(&mut self, ok: bool)
        requires
            old(self).wf(),
            old(self).phase == AttachPhase::Exchange,
        ensures
            final(self).wf(),
            final(self).pid == old(self).pid,
            !ok ==> final(self).phase == AttachPhase::Finished(
                AttachOutcome::StepFailed(old(self).run->Some_0.next as usize),
            ),
            ok && old(self).run->Some_0.next + 1 == old(self).run->Some_0.steps@.len() ==> final(self).phase == AttachPhase::Finished(AttachOutcome::Attached),
            ok && old(self).run->Some_0.next + 1 < old(self).run->Some_0.steps@.len() ==> final(self).phase == AttachPhase::Exchange && (final(self).run matches Some(run) && run.next
                == old(self).run->Some_0.next + 1 && run.steps == old(self).run->Some_0.steps),
    {
        let mut taken: Option<ProtocolRun> = None;
        core::mem::swap(&mut self.run, &mut taken);
        let mut run = match taken {
            Some(run) => run,
            None => unreached(),
        };
        run.report(ok);
        if !ok {
            self.phase = AttachPhase::Finished(AttachOutcome::StepFailed(run.next));
            self.run = Some(run);
        } else if run.next == run.steps.len() {
            self.phase = AttachPhase::Finished(AttachOutcome::Attached);
            self.run = Some(run);
        } else {
            self.run = Some(run);
        }
    }
}

} // verus!
