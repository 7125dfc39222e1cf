//! Process identity and lifecycle: liveness probing, start-time
//! fingerprinting to guard against PID reuse, and graceful-then-forceful
//! termination of a process or a whole process group. The OS calls are
//! trusted wrappers over `nix` and `sysinfo`; every decision around them is
//! verified.

use vstd::prelude::*;

use crate::strutil::{
    chars_eq, chars_to_string, contains_seq, is_digit, is_space, lemma_dec_val_prefix_le,
    push_u64_dec, spec_contains_seq, spec_dec_val, spec_digit_val, spec_is_digit, spec_trim_start,
    spec_u64_dec, to_char_vec,
};

verus! {

/// Seconds granted between the graceful and the forceful signal.
pub const TERMINATION_GRACE_SECS: u32 = 2;

/// Errors from process identity and termination.
#[derive(Clone, Copy, PartialEq, Eq, Structural, Debug)]
pub enum ProcessError {
    /// The OS process does not currently exist.
    ProcessNotFound,
    /// A termination signal was rejected for a reason other than the target
    /// being gone; the payload is the OS error number.
    SignalDeliveryFailure(i32),
}

/// The two signals of two-phase termination.
#[derive(Clone, Copy, PartialEq, Eq, Structural, Debug)]
pub enum Sig {
    /// The graceful request to terminate.
    Term,
    /// The forceful kill.
    Kill,
}

/// What the OS reported for one signal send.
#[derive(Clone, Copy, PartialEq, Eq, Structural, Debug)]
pub enum SignalOutcome {
    /// The signal was delivered.
    Delivered,
    /// No such process or group exists.
    NoSuchProcess,
    /// Delivery was rejected; the payload is the OS error number.
    Failed(i32),
}

/// Relies on `nix::sys::signal::kill` with no signal: error checking is
/// performed but nothing is delivered, so this probes existence without
/// affecting the target.
#[verifier::external_body]
fn probe_alive(pid: i32) -> bool {
    nix::sys::signal::kill(nix::unistd::Pid::from_raw(pid), None).is_ok()
}

/// Relies on `nix::sys::signal::kill`: sends the chosen signal to one
/// process and reports how the OS answered.
#[verifier::external_body]
fn send_signal(pid: i32, sig: Sig) -> SignalOutcome {
    let signal = match sig {
        Sig::Term => nix::sys::signal::Signal::SIGTERM,
        Sig::Kill => nix::sys::signal::Signal::SIGKILL,
    };
    match nix::sys::signal::kill(nix::unistd::Pid::from_raw(pid), signal) {
        Ok(()) => SignalOutcome::Delivered,
        Err(nix::errno::Errno::ESRCH) => SignalOutcome::NoSuchProcess,
        Err(e) => SignalOutcome::Failed(e as i32),
    }
}

/// Relies on `nix::sys::signal::killpg`: the same, for a whole process
/// group.
#[verifier::external_body]
fn send_group_signal(pgid: i32, sig: Sig) -> SignalOutcome {
    let signal = match sig {
        Sig::Term => nix::sys::signal::Signal::SIGTERM,
        Sig::Kill => nix::sys::signal::Signal::SIGKILL,
    };
    match nix::sys::signal::killpg(nix::unistd::Pid::from_raw(pgid), signal) {
        Ok(()) => SignalOutcome::Delivered,
        Err(nix::errno::Errno::ESRCH) => SignalOutcome::NoSuchProcess,
        Err(e) => SignalOutcome::Failed(e as i32),
    }
}

/// Relies on `nix::unistd::sleep`: suspends this thread for the given
/// number of seconds.
#[verifier::external_body]
fn sleep_seconds(seconds: u32) {
    nix::unistd::sleep(seconds);
}

/// Relies on `sysinfo::System::new_all` and `Process::start_time`: the
/// process-table creation instant of the process, in seconds from the
/// epoch, if the process currently exists.
#[verifier::external_body]
fn process_start_time(pid: u32) -> Option<u64> {
    let sys = sysinfo::System::new_all();
    match sys.process(sysinfo::Pid::from_u32(pid)) {
        Some(p) => Some(p.start_time()),
        None => None,
    }
}

/// How one signal outcome is reported: a target that is already gone counts
/// as success; any other rejection is surfaced with its error number.
pub fn classify_outcome(o: SignalOutcome) -> (r: Result<(), ProcessError>)
    ensures
        r == (match o {
            SignalOutcome::Delivered => Ok::<(), ProcessError>(()),
            SignalOutcome::NoSuchProcess => Ok::<(), ProcessError>(()),
            SignalOutcome::Failed(e) => Err::<(), ProcessError>(
                ProcessError::SignalDeliveryFailure(e),
            ),
        }),
{
    match o {
        SignalOutcome::Delivered => Ok(()),
        SignalOutcome::NoSuchProcess => Ok(()),
        SignalOutcome::Failed(e) => Err(ProcessError::SignalDeliveryFailure(e)),
    }
}

/// Manager of native OS processes.
pub struct ProcessManager;

impl ProcessManager {
    /// Whether the process currently exists, by a non-destructive probe.
    /// A PID that names a different, recycled process also answers yes:
    /// callers guard against that with [`Self::validate_process`].
    pub fn is_alive(pid: i32) -> bool {
        probe_alive(pid)
    }

    /// The start-time fingerprint of the process: an opaque token for the
    /// instant the OS created it. A negative PID is rejected before any OS
    /// query; any successful answer is the decimal numeral of that instant.
    pub fn get_start_time(pid: i32) -> (r: Result<String, ProcessError>)
        ensures
            pid < 0 ==> r is Err,
            match r {
                Ok(fp) => exists|t: u64| fp@ == spec_u64_dec(t as nat),
                Err(e) => e == ProcessError::ProcessNotFound,
            },
    {
        if pid < 0 {
            return Err(ProcessError::ProcessNotFound);
        }
        match process_start_time(pid as u32) {
            Some(t) => {
                let mut buf: Vec<char> = Vec::new();
                push_u64_dec(&mut buf, t);
                let fp = chars_to_string(&buf);
                proof {
                    assert(fp@ == spec_u64_dec(t as nat));
                }
                Ok(fp)
            },
            None => Err(ProcessError::ProcessNotFound),
        }
    }

    /// Whether a freshly probed fingerprint equals the recorded one: true
    /// exactly when a fingerprint was obtained and its characters match.
    /// Whenever the live fingerprint differs from the recorded one — the
    /// mark of a recycled PID — this answers false, however alive the PID
    /// looks.
    pub fn fingerprint_matches(actual: &Option<String>, expected: &str) -> (r: bool)
        ensures
            r == (actual is Some && actual->0@ == expected@),
    {
        match actual {
            Some(a) => chars_eq(&to_char_vec(a.as_str()), &to_char_vec(expected)),
            None => false,
        }
    }

    /// Whether `pid` still names the process whose fingerprint was recorded
    /// at registration: probes the current fingerprint and accepts only an
    /// exact match (see [`Self::fingerprint_matches`], which carries the
    /// exact comparison contract). What the probe answers is the OS's to
    /// decide; what is statable here is that only a numeral fingerprint can
    /// ever validate.
    pub fn validate_process(pid: i32, expected_start: &str) -> (r: bool)
        ensures
            r ==> exists|t: u64| expected_start@ == spec_u64_dec(t as nat),
    {
        match Self::get_start_time(pid) {
            Ok(a) => {
                let ghost av = a@;
                let actual = Some(a);
                let m = Self::fingerprint_matches(&actual, expected_start);
                proof {
                    if m {
                        let t = choose|t: u64| av == spec_u64_dec(t as nat);
                        assert(expected_start@ == spec_u64_dec(t as nat));
                    }
                }
                m
            },
            Err(_) => Self::fingerprint_matches(&None, expected_start),
        }
    }

    /// Two-phase termination of one process: the graceful signal, the fixed
    /// grace window, then the forceful signal only if the target is still
    /// alive. Idempotent: a target that is already gone is success.
    pub fn kill_process(pid: i32) -> (r: Result<(), ProcessError>)
        ensures
            match r {
                Ok(u) => true,
                Err(e) => e is SignalDeliveryFailure,
            },
    {
        match send_signal(pid, Sig::Term) {
            SignalOutcome::Delivered => {
                sleep_seconds(TERMINATION_GRACE_SECS);
                if Self::is_alive(pid) {
                    classify_outcome(send_signal(pid, Sig::Kill))
                } else {
                    Ok(())
                }
            },
            other => classify_outcome(other),
        }
    }

    /// Two-phase termination of a whole process group, so that children of
    /// the supervised task are reaped with it. Idempotent in the same way.
    pub fn kill_process_group(pgid: i32) -> (r: Result<(), ProcessError>)
        ensures
            match r {
                Ok(u) => true,
                Err(e) => e is SignalDeliveryFailure,
            },
    {
        match send_group_signal(pgid, Sig::Term) {
            SignalOutcome::Delivered => {
                sleep_seconds(TERMINATION_GRACE_SECS);
                if Self::is_alive(pgid) {
                    classify_outcome(send_group_signal(pgid, Sig::Kill))
                } else {
                    Ok(())
                }
            },
            other => classify_outcome(other),
        }
    }

    /// The PIDs named in a process listing on lines that mention
    /// `env_key=env_value`; see [`spec_env_pids`]. The caller obtains the
    /// listing (for example from `ps` with environments shown) and hands it
    /// in as text.
    pub fn find_processes_by_env(listing: &str, env_key: &str, env_value: &str) -> (r: Vec<i32>)
        ensures
            Seq::new(r@.len(), |i: int| r@[i] as int) == spec_env_pids(
                listing@,
                env_key@ + "="@ + env_value@,
            ),
    {
        let mut search = env_key.to_owned();
        search.append("=");
        search.append(env_value);
        let sv = to_char_vec(search.as_str());
        let s = to_char_vec(listing);
        let n = s.len();
        let mut out: Vec<i32> = Vec::new();
        let mut cur: usize = 0;
        while cur < n
            invariant
                n == s@.len(),
                sv@ == env_key@ + "="@ + env_value@,
                spec_env_pids(listing@, sv@) == Seq::new(out@.len(), |i: int| out@[i] as int)
                    + spec_env_pids_from(s@, cur as int, sv@),
                s@ == listing@,
            decreases n - cur,
        {
            let e = line_end(&s, cur);
            let mut line: Vec<char> = Vec::new();
            for j in cur..e
                invariant
                    cur <= e <= n,
                    n == s@.len(),
                    line@ =~= s@.subrange(cur as int, j as int),
            {
                line.push(s[j]);
                proof {
                    assert(line@ =~= s@.subrange(cur as int, j + 1));
                }
            }
            let ghost pids0 = Seq::new(out@.len(), |i: int| out@[i] as int);
            let matched = contains_seq(&line, &sv);
            if matched {
                match token_pid(&line) {
                    Some(p) => {
                        out.push(p);
                        proof {
                            assert(Seq::new(out@.len(), |i: int| out@[i] as int) =~= pids0.push(
                                p as int,
                            ));
                        }
                    },
                    None => {},
                }
            }
            proof {
                let head = match spec_line_pid(s@.subrange(cur as int, e as int), sv@) {
                    Some(p) => seq![p],
                    None => Seq::<int>::empty(),
                };
                assert(spec_env_pids_from(s@, cur as int, sv@) == (if cur < e + 1 <= s@.len() {
                    head + spec_env_pids_from(s@, e + 1, sv@)
                } else {
                    head
                }));
                assert(Seq::new(out@.len(), |i: int| out@[i] as int) =~= pids0 + head);
                if e + 1 > n {
                    assert(spec_env_pids_from(s@, e + 1, sv@) == Seq::<int>::empty());
                    assert(pids0 + (head + spec_env_pids_from(s@, e + 1, sv@)) =~= pids0 + head);
                }
                assert(pids0 + (head + spec_env_pids_from(s@, e + 1, sv@)) =~= (pids0 + head)
                    + spec_env_pids_from(s@, e + 1, sv@));
            }
            cur = if e < n {
                e + 1
            } else {
                n
            };
            proof {
                if e >= n {
                    assert(spec_env_pids_from(s@, e + 1, sv@) == Seq::<int>::empty());
                    assert(spec_env_pids_from(s@, n as int, sv@) == Seq::<int>::empty());
                }
            }
        }
        proof {
            assert(spec_env_pids_from(s@, cur as int, sv@) == Seq::<int>::empty());
            assert(Seq::new(out@.len(), |i: int| out@[i] as int) + Seq::<int>::empty()
                =~= Seq::new(out@.len(), |i: int| out@[i] as int));
        }
        out
    }
}

/// Position of the first newline at or after `i`, or the end of the text.
pub open spec fn spec_line_end(s: Seq<char>, i: int) -> int
    decreases s.len() - i,
{
    if 0 <= i < s.len() && s[i] != '\n' {
        spec_line_end(s, i + 1)
    } else {
        i
    }
}

/// Position of the first blank or tab at or after `i` within a line, or its
/// end.
pub open spec fn spec_token_end(line: Seq<char>, i: int) -> int
    decreases line.len() - i,
{
    if 0 <= i < line.len() && line[i] != ' ' && line[i] != '\t' {
        spec_token_end(line, i + 1)
    } else {
        i
    }
}

/// Value of a listing's leading token read as a PID: one or more digits
/// whose value fits `i32`.
pub open spec fn spec_token_pid(tok: Seq<char>) -> Option<int> {
    if tok.len() >= 1 && (forall|i: int| 0 <= i < tok.len() ==> spec_is_digit(#[trigger] tok[i]))
        && spec_dec_val(tok) <= (i32::MAX as int) {
        Some(spec_dec_val(tok))
    } else {
        None
    }
}

/// The PID a listing line contributes: its first whitespace-delimited
/// token, provided the line mentions the search text.
pub open spec fn spec_line_pid(line: Seq<char>, search: Seq<char>) -> Option<int> {
    if spec_contains_seq(line, search) {
        let st = spec_trim_start(line, 0);
        if 0 <= st <= spec_token_end(line, st) <= line.len() {
            spec_token_pid(line.subrange(st, spec_token_end(line, st)))
        } else {
            None
        }
    } else {
        None
    }
}

/// The PIDs contributed by the lines from position `i` on.
pub open spec fn spec_env_pids_from(s: Seq<char>, i: int, search: Seq<char>) -> Seq<int>
    decreases s.len() - i,
{
    if 0 <= i < s.len() {
        let e = spec_line_end(s, i);
        let head = match spec_line_pid(s.subrange(i, e), search) {
            Some(p) => seq![p],
            None => Seq::<int>::empty(),
        };
        if i < e + 1 <= s.len() {
            head + spec_env_pids_from(s, e + 1, search)
        } else {
            head
        }
    } else {
        Seq::empty()
    }
}

/// The PIDs named by a whole listing.
pub open spec fn spec_env_pids(s: Seq<char>, search: Seq<char>) -> Seq<int> {
    spec_env_pids_from(s, 0, search)
}

/// Find the end of the line starting at `i`; mirrors [`spec_line_end`].
fn line_end(s: &Vec<char>, i: usize) -> (e: usize)
    requires
        i <= s@.len(),
    ensures
        e == spec_line_end(s@, i as int),
        i <= e <= s@.len(),
{
    let n = s.len();
    let mut e: usize = i;
    while e < n && s[e] != '\n'
        invariant
            i <= e <= n,
            n == s@.len(),
            spec_line_end(s@, i as int) == spec_line_end(s@, e as int),
        decreases n - e,
    {
        e = e + 1;
    }
    e
}

/// Read the line's first whitespace-delimited token as a PID; mirrors
/// [`spec_token_pid`] applied to that token.
fn token_pid(line: &Vec<char>) -> (r: Option<i32>)
    ensures
        ({
            let st = spec_trim_start(line@, 0);
            let tok = line@.subrange(st, spec_token_end(line@, st));
            match r {
                Some(p) => 0 <= st <= spec_token_end(line@, st) <= line@.len() && spec_token_pid(
                    tok,
                ) == Some(p as int),
                None => !(0 <= st <= spec_token_end(line@, st) <= line@.len()) || spec_token_pid(
                    tok,
                ) is None,
            }
        }),
{
    let n = line.len();
    let mut start: usize = 0;
    while start < n && is_space(line[start])
        invariant
            start <= n,
            n == line@.len(),
            spec_trim_start(line@, 0) == spec_trim_start(line@, start as int),
        decreases n - start,
    {
        start = start + 1;
    }
    proof {
        assert(spec_trim_start(line@, start as int) == start);
    }
    let mut e: usize = start;
    while e < n && line[e] != ' ' && line[e] != '\t'
        invariant
            start <= e <= n,
            n == line@.len(),
            spec_token_end(line@, start as int) == spec_token_end(line@, e as int),
        decreases n - e,
    {
        e = e + 1;
    }
    proof {
        assert(spec_token_end(line@, e as int) == e);
    }
    let ghost tok = line@.subrange(start as int, e as int);
    if e == start {
        return None;
    }
    let mut acc: i64 = 0;
    let mut j: usize = start;
    while j < e
        invariant
            start <= j <= e <= n,
            e >= start + 1,
            n == line@.len(),
            spec_trim_start(line@, 0) == start,
            spec_token_end(line@, start as int) == e,
            tok == line@.subrange(start as int, e as int),
            forall|x: int| 0 <= x < j - start ==> spec_is_digit(#[trigger] tok[x]),
            acc as int == spec_dec_val(tok.subrange(0, j - start)),
            0 <= acc <= i32::MAX,
        decreases e - j,
    {
        let c = line[j];
        if !is_digit(c) {
            proof {
                assert(tok[j - start] == line@[j as int]);
                assert(!spec_is_digit(tok[j - start]));
                assert(!(forall|x: int| 0 <= x < tok.len() ==> spec_is_digit(#[trigger] tok[x])));
                assert(spec_token_pid(tok) is None);
            }
            return None;
        }
        let d: i64 = (c as u32 as i64) - 48;
        proof {
            assert(tok[j - start] == line@[j as int]);
            assert(d == spec_digit_val(c));
            assert(tok.subrange(0, j + 1 - start).drop_last() =~= tok.subrange(0, j - start));
            assert(tok.subrange(0, j + 1 - start).last() == c);
            assert(spec_dec_val(tok.subrange(0, j + 1 - start)) == acc * 10 + d);
        }
        let next = acc * 10 + d;
        if next > 2147483647i64 {
            proof {
                if forall|x: int| 0 <= x < tok.len() ==> spec_is_digit(#[trigger] tok[x]) {
                    lemma_dec_val_prefix_le(tok, j + 1 - start, tok.len() as int);
                    assert(tok.subrange(0, tok.len() as int) =~= tok);
                    assert(spec_dec_val(tok.subrange(0, j + 1 - start)) <= spec_dec_val(tok));
                    assert(spec_dec_val(tok) > (i32::MAX as int));
                }
                assert(spec_token_pid(tok) is None);
            }
            return None;
        }
        acc = next;
        j = j + 1;
    }
    proof {
        assert(tok.subrange(0, e - start) =~= tok);
        assert(spec_token_pid(tok) == Some(acc as int));
    }
    Some(acc as i32)
}

} // verus!
