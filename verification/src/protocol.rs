//! The debug-protocol command engine. Enabling JIT is one exact, ordered
//! command sequence: set the packet size, set the working directory, set the
//! argv twice over with the executable path, confirm the launch, detach.
//! Attaching to a running process is a `vAttach` with the pid as eight
//! uppercase hex digits, then a detach. A run issues its steps strictly in
//! order and a failure at any step withholds every later one.

use vstd::prelude::*;

verus! {

/// One exchange with the on-device debug server.
pub enum DebugStep {
    /// A text command sent over the debug connection.
    Send(String),
    /// Setting the argv of the process to launch.
    SetArgv(Vec<String>),
}

/// The uppercase hex digit for a value below sixteen.
pub open spec fn hex_digit_char(d: int) -> char {
    if d == 0 {
        '0'
    } else if d == 1 {
        '1'
    } else if d == 2 {
        '2'
    } else if d == 3 {
        '3'
    } else if d == 4 {
        '4'
    } else if d == 5 {
        '5'
    } else if d == 6 {
        '6'
    } else if d == 7 {
        '7'
    } else if d == 8 {
        '8'
    } else if d == 9 {
        '9'
    } else if d == 10 {
        'A'
    } else if d == 11 {
        'B'
    } else if d == 12 {
        'C'
    } else if d == 13 {
        'D'
    } else if d == 14 {
        'E'
    } else {
        'F'
    }
}

/// A pid as eight uppercase hex digits, zero-padded, most significant first.
pub open spec fn pid_hex8(pid: u16) -> Seq<char> {
    Seq::new(8, |i: int| hex_digit_char(((pid as u32) >> (((7 - i) * 4) as u32) & 0xf) as int))
}

/// The uppercase hex digit for a value below sixteen.
pub(crate) fn hex_digit_str(d: u32) -> (r: &'static str)
    requires
        d < 16,
    ensures
        r@.len() == 1,
        r@[0] == hex_digit_char(d as int),
{
    proof {
        reveal_strlit("0");
        reveal_strlit("1");
        reveal_strlit("2");
        reveal_strlit("3");
        reveal_strlit("4");
        reveal_strlit("5");
        reveal_strlit("6");
        reveal_strlit("7");
        reveal_strlit("8");
        reveal_strlit("9");
        reveal_strlit("A");
        reveal_strlit("B");
        reveal_strlit("C");
        reveal_strlit("D");
        reveal_strlit("E");
        reveal_strlit("F");
    }
    if d == 0 {
        "0"
    } else if d == 1 {
        "1"
    } else if d == 2 {
        "2"
    } else if d == 3 {
        "3"
    } else if d == 4 {
        "4"
    } else if d == 5 {
        "5"
    } else if d == 6 {
        "6"
    } else if d == 7 {
        "7"
    } else if d == 8 {
        "8"
    } else if d == 9 {
        "9"
    } else if d == 10 {
        "A"
    } else if d == 11 {
        "B"
    } else if d == 12 {
        "C"
    } else if d == 13 {
        "D"
    } else if d == 14 {
        "E"
    } else {
        "F"
    }
}

/// The attach command for a pid: `vAttach;` followed by the pid as eight
/// uppercase, zero-padded hex digits.
pub fn attach_command(pid: u16) -> (r: String)
    ensures
        r@ == "vAttach;"@ + pid_hex8(pid),
{
    let mut r: String = "vAttach;".to_owned();
    let mut i: u32 = 0;
    proof {
        assert(pid_hex8(pid).subrange(0, 0) =~= Seq::<char>::empty());
        assert(r@ + pid_hex8(pid).subrange(0, 0) =~= r@);
    }
    while i < 8
        invariant
            0 <= i <= 8,
            r@ == "vAttach;"@ + pid_hex8(pid).subrange(0, i as int),
        decreases 8 - i,
    {
        let sh: u32 = (7 - i) * 4;
        let x: u32 = pid as u32;
        let d: u32 = (x >> sh) & 0xf;
        proof {
            assert((x >> sh) & 0xf < 16) by (bit_vector);
        }
        let ghost before = r@;
        r.append(hex_digit_str(d));
        proof {
            assert(pid_hex8(pid)[i as int] == hex_digit_char(d as int));
            assert(pid_hex8(pid).subrange(0, i + 1) =~= pid_hex8(pid).subrange(0, i as int).push(
                pid_hex8(pid)[i as int],
            ));
            assert(r@ =~= "vAttach;"@ + pid_hex8(pid).subrange(0, i + 1));
        }
        i = i + 1;
    }
    proof {
        assert(pid_hex8(pid).subrange(0, 8) =~= pid_hex8(pid));
    }
    r
}

/// The launch sequence for enabling JIT: packet size, working directory,
/// argv with the executable path twice, launch confirmation, detach —
/// exactly these five, in this order.
pub fn jit_sequence(container: &str, executable: &str) -> (steps: Vec<DebugStep>)
    ensures
        steps@.len() == 5,
        steps@[0] matches DebugStep::Send(c) && c@ == "QSetMaxPacketSize: 1024"@,
        steps@[1] matches DebugStep::Send(c) && c@ == "QSetWorkingDir: "@ + container@,
        steps@[2] matches DebugStep::SetArgv(v) && v@.len() == 2 && v@[0]@ == executable@
            && v@[1]@ == executable@,
        steps@[3] matches DebugStep::Send(c) && c@ == "qLaunchSuccess"@,
        steps@[4] matches DebugStep::Send(c) && c@ == "D"@,
{
    let mut steps: Vec<DebugStep> = Vec::new();
    let workdir: String = "QSetWorkingDir: ".to_owned().concat(container);
    let mut argv: Vec<String> = Vec::new();
    argv.push(executable.to_owned());
    argv.push(executable.to_owned());
    steps.push(DebugStep::Send("QSetMaxPacketSize: 1024".to_owned()));
    steps.push(DebugStep::Send(workdir));
    steps.push(DebugStep::SetArgv(argv));
    steps.push(DebugStep::Send("qLaunchSuccess".to_owned()));
    steps.push(DebugStep::Send("D".to_owned()));
    steps
}

/// The attach sequence for a running process: the `vAttach` command, then a
/// detach — exactly these two, in this order.
pub fn attach_sequence(pid: u16) -> (steps: Vec<DebugStep>)
    ensures
        steps@.len() == 2,
        steps@[0] matches DebugStep::Send(c) && c@ == "vAttach;"@ + pid_hex8(pid),
        steps@[1] matches DebugStep::Send(c) && c@ == "D"@,
{
    let mut steps: Vec<DebugStep> = Vec::new();
    steps.push(DebugStep::Send(attach_command(pid)));
    steps.push(DebugStep::Send("D".to_owned()));
    steps
}

/// A run of a debug-protocol sequence. The steps are issued strictly in
/// order; reporting a failed exchange ends the run, and an ended run hands
/// out no further step.
pub struct ProtocolRun {
    pub steps: Vec<DebugStep>,
    pub next: usize,
    pub failed: bool,
}

impl ProtocolRun {
    pub open spec fn wf(self) -> bool {
        self.next <= self.steps@.len()
    }

    /// The run is over: every step was issued, or one failed.
    pub open spec fn done(self) -> bool {
        self.failed || self.next == self.steps@.len()
    }

    /// Every step was issued and none failed.
    pub open spec fn succeeded(self) -> bool {
        !self.failed && self.next == self.steps@.len()
    }

    /// A run at the first step of a sequence.
    pub fn new(steps: Vec<DebugStep>) -> (r: ProtocolRun)
        ensures
            r.wf(),
            r.steps == steps,
            r.next == 0,
            !r.failed,
    {
        ProtocolRun { steps, next: 0, failed: false }
    }

    /// The step to issue now: the next unissued step, or nothing once the
    /// run is done — in particular, nothing after any failure.
    pub fn current_step(&self) -> (r: Option<&DebugStep>)
        requires
            self.wf(),
        ensures
            self.done() ==> r is None,
            !self.done() ==> (r matches Some(s) && s == &self.steps@[self.next as int]),
    {
        if self.failed || self.next >= self.steps.len() {
            None
        } else {
            Some(&self.steps[self.next])
        }
    }

    /// Records the outcome of the step just issued: on success the run moves
    /// to the next step, on failure it ends, withholding every later step.
    pub fn report(&mut self, ok: bool)
        requires
            old(self).wf(),
            !old(self).done(),
        ensures
            final(self).wf(),
            final(self).steps == old(self).steps,
            ok ==> final(self).next == old(self).next + 1 && !final(self).failed,
            !ok ==> final(self).failed && final(self).next == old(self).next && final(self).done(),
    {
        if ok {
            if self.next < self.steps.len() {
                self.next = self.next + 1;
            }
        } else {
            self.failed = true;
        }
    }
}

/// Law: a failure at any step prevents every later step from being issued —
/// a failed run's current step is nothing, whatever remains unissued.
pub proof fn lemma_failure_withholds_rest(run: ProtocolRun)
    requires
        run.wf(),
        run.failed,
    ensures
        run.done(),
{
}

} // verus!
