//! Scheduled tasks: which hosts run them, validation before they are stored, the local
//! file access an SFTP task needs, when a task is due, which due tasks start on a tick
//! (never two runs of one task at once), and how a run's result is recorded.

use vstd::prelude::*;
use crate::local_paths::Intent;
use crate::text::{
    char_utf8_width, char_utf8_len, chars_eq_ignore_ascii_case, eq_ignore_ascii_case, owned,
    push_char, str_chars, str_eq, string_from_chars, trim, trim_chars, utf8_len,
};
use crate::validation::validate_path;

verus! {

/// Seconds between scheduler ticks.
pub const CHECK_INTERVAL_SECS: i64 = 60;

/// Longest stored run output, in bytes (before the `...` marker).
pub const MAX_OUTPUT_LEN: usize = 4096;

/// Longest task name, in bytes.
pub const MAX_TASK_NAME_LEN: usize = 200;

/// Longest task command, in bytes.
pub const MAX_TASK_COMMAND_LEN: usize = 16384;

/// Result of a single task run (scheduled or manual).
#[derive(Clone, Debug)]
pub struct TaskRunResult {
    pub success: bool,
    pub output: Option<String>,
    pub error: Option<String>,
}

/// A scheduled task as the UI sees it.
#[derive(Clone, Debug)]
pub struct ScheduledTask {
    pub id: String,
    pub name: String,
    pub cron_expression: String,
    pub host_id: String,
    pub command: String,
    pub credential_id: Option<String>,
    pub enabled: bool,
    pub last_run_at: Option<i64>,
    pub last_run_status: Option<String>,
    pub last_run_error: Option<String>,
    pub last_run_output: Option<String>,
    pub created_at: i64,
    pub updated_at: i64,
    pub task_type: String,
    pub local_path: Option<String>,
    pub remote_path: Option<String>,
}

/// A stored task as the scheduler runs it.
#[derive(Clone, Debug)]
pub struct TaskRow {
    pub id: String,
    pub name: String,
    pub cron_expression: String,
    pub host_id: String,
    pub command: String,
    pub credential_id: Option<String>,
    pub enabled: i64,
    pub last_run_at: Option<i64>,
    pub created_at: i64,
    pub updated_at: i64,
    pub task_type: String,
    pub local_path: Option<String>,
    pub remote_path: Option<String>,
}

/// Whether a saved host's protocol lets scheduled tasks (SSH exec and SFTP) run against
/// it. Other protocols are inventory-only.
pub fn host_protocol_runs_tasks(protocol: &str) -> (r: bool)
    ensures
        r == eq_ignore_ascii_case(trim(protocol@), "ssh"@),
{
    let v = str_chars(protocol);
    let t = trim_chars(&v);
    let ssh = str_chars("ssh");
    chars_eq_ignore_ascii_case(&t, &ssh)
}

/// The task types a scheduled task may have.
pub open spec fn is_task_type(t: Seq<char>) -> bool {
    t == "ssh"@ || t == "sftp_upload"@ || t == "sftp_download"@
}

pub open spec fn opt_view(o: Option<&str>) -> Option<Seq<char>> {
    match o {
        Some(s) => Some(s@),
        None => None,
    }
}

/// The first rule a task breaks, in the order they are checked (`None` when it is
/// valid apart from its host). Paths are checked with `validate_path`.
pub open spec fn task_fields_error(
    name: Seq<char>,
    name_bytes: nat,
    command: Seq<char>,
    command_bytes: nat,
    task_type: Seq<char>,
    local_path: Option<Seq<char>>,
    remote_path: Option<Seq<char>>,
    path_error: Option<Seq<char>>,
) -> Option<Seq<char>> {
    if !is_task_type(task_type) {
        Some("Unknown task type: "@ + task_type)
    } else if trim(name).len() == 0 || name_bytes > MAX_TASK_NAME_LEN {
        Some("Task name must be 1-200 characters"@)
    } else if command_bytes > MAX_TASK_COMMAND_LEN {
        Some("Task command is too long"@)
    } else if task_type == "ssh"@ && trim(command).len() == 0 {
        Some("An SSH task needs a command"@)
    } else if task_type != "ssh"@ && (local_path is None || remote_path is None) {
        Some("SFTP tasks need both a local and a remote path"@)
    } else if task_type != "ssh"@ {
        path_error
    } else {
        None
    }
}

/// The error `validate_path` reports for the first of the two paths that fails.
pub open spec fn first_path_error(local: Seq<char>, remote: Seq<char>) -> Option<Seq<char>> {
    if crate::validation::path_error(local) is Some {
        crate::validation::path_error(local)
    } else {
        crate::validation::path_error(remote)
    }
}

/// Validates a scheduled task before it's stored: a known task type (default
/// `ssh`), a bounded name and command, a command for SSH tasks, and valid local and remote
/// paths for SFTP tasks. Then the host: it must exist (`host_protocol` is its protocol as
/// stored) and run tasks. Returns the task type.
pub fn validate_scheduled_task(
    name: &str,
    command: &str,
    task_type: Option<&str>,
    local_path: Option<&str>,
    remote_path: Option<&str>,
    host_protocol: Option<&str>,
) -> (r: Result<String, String>)
    ensures
        ({
            let tt = match task_type {
                Some(t) => t@,
                None => "ssh"@,
            };
            let perr = match (local_path, remote_path) {
                (Some(l), Some(rp)) => first_path_error(l@, rp@),
                _ => None,
            };
            let ferr = task_fields_error(
                name@,
                name.len() as nat,
                command@,
                command.len() as nat,
                tt,
                opt_view(local_path),
                opt_view(remote_path),
                perr,
            );
            match r {
                Ok(t) => ferr is None && t@ == tt && host_protocol is Some
                    && eq_ignore_ascii_case(trim(host_protocol.unwrap()@), "ssh"@),
                Err(e) => if ferr is Some {
                    e@ == ferr.unwrap()
                } else if host_protocol is None {
                    e@ == "Host not found"@
                } else {
                    !eq_ignore_ascii_case(trim(host_protocol.unwrap()@), "ssh"@)
                        && e@ == "Scheduled tasks run over SSH: choose an SSH host"@
                },
            }
        }),
{
    let tt: &str = match task_type {
        Some(t) => t,
        None => "ssh",
    };
    let is_ssh = str_eq(tt, "ssh");
    if !(is_ssh || str_eq(tt, "sftp_upload") || str_eq(tt, "sftp_download")) {
        let mut m = owned("Unknown task type: ");
        m.append(tt);
        return Err(m);
    }
    let nv = str_chars(name);
    if trim_chars(&nv).len() == 0 || name.len() > MAX_TASK_NAME_LEN {
        return Err(owned("Task name must be 1-200 characters"));
    }
    if command.len() > MAX_TASK_COMMAND_LEN {
        return Err(owned("Task command is too long"));
    }
    if is_ssh {
        let cv = str_chars(command);
        if trim_chars(&cv).len() == 0 {
            return Err(owned("An SSH task needs a command"));
        }
    } else {
        match (local_path, remote_path) {
            (Some(lp), Some(rp)) => {
                validate_path(lp)?;
                validate_path(rp)?;
            },
            _ => {
                return Err(owned("SFTP tasks need both a local and a remote path"));
            },
        }
    }
    match host_protocol {
        None => Err(owned("Host not found")),
        Some(p) => {
            if !host_protocol_runs_tasks(p) {
                Err(owned("Scheduled tasks run over SSH: choose an SSH host"))
            } else {
                Ok(owned(tt))
            }
        },
    }
}

/// The local-file access a task type needs: uploads read the file, downloads write it.
pub fn task_local_intent(task_type: &str) -> (r: Option<Intent>)
    ensures
        r == (if task_type@ == "sftp_upload"@ {
            Some(Intent::Read)
        } else if task_type@ == "sftp_download"@ {
            Some(Intent::Write)
        } else {
            None::<Intent>
        }),
{
    if str_eq(task_type, "sftp_upload") {
        Some(Intent::Read)
    } else if str_eq(task_type, "sftp_download") {
        Some(Intent::Write)
    } else {
        None
    }
}

/// A saved SFTP task's transfer: local path, task type, host id, remote path.
pub struct StoredTransfer {
    pub local_path: Option<String>,
    pub task_type: Option<String>,
    pub host_id: String,
    pub remote_path: Option<String>,
}

/// Whether an edited SFTP task keeps the whole transfer its grant was given for: the
/// same file, direction, host and remote path. Any change needs a new pick.
pub fn task_transfer_unchanged(
    stored: Option<StoredTransfer>,
    local_path: &str,
    task_type: &str,
    host_id: &str,
    remote_path: Option<&str>,
) -> (r: bool)
    ensures
        r == (match stored {
            Some(s) => (s.local_path matches Some(p) && p@ == local_path@) && (s.task_type matches Some(
                t,
            ) && t@ == task_type@) && s.host_id@ == host_id@ && (match (s.remote_path, remote_path) {
                (Some(a), Some(b)) => a@ == b@,
                (None, None) => true,
                _ => false,
            }),
            None => false,
        }),
{
    match stored {
        None => false,
        Some(s) => {
            let same_local = match &s.local_path {
                Some(p) => str_eq(p.as_str(), local_path),
                None => false,
            };
            let same_type = match &s.task_type {
                Some(t) => str_eq(t.as_str(), task_type),
                None => false,
            };
            let same_remote = match (&s.remote_path, remote_path) {
                (Some(a), Some(b)) => str_eq(a.as_str(), b),
                (None, None) => true,
                _ => false,
            };
            same_local && same_type && str_eq(s.host_id.as_str(), host_id) && same_remote
        },
    }
}

/// A port from the database as a usable port number (1-65535).
pub fn clamp_port(port: i64) -> (r: u16)
    ensures
        r as int == (if port < 1 {
            1
        } else if port > 65535 {
            65535
        } else {
            port as int
        }),
{
    if port < 1 {
        1
    } else if port > 65535 {
        65535
    } else {
        port as u16
    }
}

/// How many leading characters of `s` fit in `budget` UTF-8 bytes.
pub open spec fn fit_count(s: Seq<char>, budget: nat) -> nat
    decreases s.len(),
{
    if s.len() == 0 {
        0
    } else if char_utf8_len(s[0]) <= budget {
        1 + fit_count(s.drop_first(), (budget - char_utf8_len(s[0])) as nat)
    } else {
        0
    }
}

/// Stored run output: at most `MAX_OUTPUT_LEN` bytes, cut on a character boundary and
/// marked with `...` when cut.
pub open spec fn truncated_output(s: Seq<char>) -> Seq<char> {
    if utf8_len(s) > MAX_OUTPUT_LEN {
        s.subrange(0, fit_count(s, MAX_OUTPUT_LEN as nat) as int) + "..."@
    } else {
        s
    }
}

proof fn lemma_fit_count_bound(s: Seq<char>, budget: nat)
    ensures
        fit_count(s, budget) <= s.len(),
        utf8_len(s.subrange(0, fit_count(s, budget) as int)) <= budget,
    decreases s.len(),
{
    if s.len() > 0 && char_utf8_len(s[0]) <= budget {
        let b2 = (budget - char_utf8_len(s[0])) as nat;
        lemma_fit_count_bound(s.drop_first(), b2);
        let k = fit_count(s.drop_first(), b2);
        assert(s.subrange(0, (k + 1) as int).drop_first() =~= s.drop_first().subrange(0, k as int));
    } else {
        assert(s.subrange(0, 0) =~= Seq::<char>::empty());
    }
}

proof fn lemma_fit_count_step(s: Seq<char>, i: int, budget: nat)
    requires
        0 <= i < s.len(),
        char_utf8_len(s[i]) <= budget,
    ensures
        fit_count(s.subrange(i, s.len() as int), budget) == 1 + fit_count(
            s.subrange(i + 1, s.len() as int),
            (budget - char_utf8_len(s[i])) as nat,
        ),
{
    assert(s.subrange(i, s.len() as int).drop_first() =~= s.subrange(i + 1, s.len() as int));
}

/// Run output as stored: cut to `MAX_OUTPUT_LEN` bytes on a character boundary, with
/// `...` appended when cut. Remote output is arbitrary text, so the cut never splits a
/// character.
pub fn truncate_output(s: &str) -> (r: String)
    ensures
        r@ == truncated_output(s@),
        utf8_len(r@) <= MAX_OUTPUT_LEN + 3,
{
    let v = str_chars(s);
    let n = v.len();
    let mut used: usize = 0;
    let mut i: usize = 0;
    let mut total: usize = 0;
    let mut cut = false;
    assert(s@.subrange(0, n as int) =~= s@);
    while i < n
        invariant_except_break
            !cut,
        invariant
            v@ == s@,
            n == v.len(),
            i <= n,
            used <= MAX_OUTPUT_LEN,
            used == utf8_len(s@.subrange(0, i as int)),
            fit_count(s@, MAX_OUTPUT_LEN as nat) == i + fit_count(
                s@.subrange(i as int, n as int),
                (MAX_OUTPUT_LEN - used) as nat,
            ),
        ensures
            used <= MAX_OUTPUT_LEN,
            used == utf8_len(s@.subrange(0, i as int)),
            fit_count(s@, MAX_OUTPUT_LEN as nat) == i + fit_count(
                s@.subrange(i as int, n as int),
                (MAX_OUTPUT_LEN - used) as nat,
            ),
            i <= n,
            !cut ==> i == n,
            cut ==> i < n && char_utf8_len(s@[i as int]) > MAX_OUTPUT_LEN - used,
        decreases n - i,
    {
        let w = char_utf8_width(v[i]);
        if w > MAX_OUTPUT_LEN - used {
            cut = true;
            break;
        }
        proof {
            lemma_fit_count_step(s@, i as int, (MAX_OUTPUT_LEN - used) as nat);
            crate::text::lemma_utf8_len_push(s@.subrange(0, i as int), v@[i as int]);
            assert(s@.subrange(0, i as int).push(v@[i as int]) =~= s@.subrange(0, i + 1));
        }
        used = used + w;
        i = i + 1;
    }
    if !cut {
        assert(s@.subrange(0, n as int) =~= s@);
        return string_from_chars(&v);
    }
    // The character at `i` does not fit.
    proof {
        assert(fit_count(s@.subrange(i as int, n as int), (MAX_OUTPUT_LEN - used) as nat) == 0);
        crate::text::lemma_utf8_len_append(s@.subrange(0, i as int), s@.subrange(i as int, n as int));
        assert(s@.subrange(0, i as int) + s@.subrange(i as int, n as int) =~= s@);
        crate::text::lemma_utf8_len_append(seq![v@[i as int]], s@.subrange(i + 1, n as int));
        assert(seq![v@[i as int]] + s@.subrange(i + 1, n as int) =~= s@.subrange(i as int, n as int));
        assert(utf8_len(seq![v@[i as int]]) == char_utf8_len(v@[i as int]) + utf8_len(
            seq![v@[i as int]].drop_first(),
        ));
        assert(seq![v@[i as int]].drop_first() =~= Seq::<char>::empty());
    }
    let mut out: Vec<char> = Vec::new();
    let mut j: usize = 0;
    while j < i
        invariant
            j <= i <= n,
            n == v.len(),
            v@ == s@,
            out@ == s@.subrange(0, j as int),
        decreases i - j,
    {
        out.push(v[j]);
        j = j + 1;
        assert(out@ =~= s@.subrange(0, j as int));
    }
    let mut r = string_from_chars(&out);
    push_char(&mut r, '.');
    push_char(&mut r, '.');
    push_char(&mut r, '.');
    proof {
        assert(r@ =~= s@.subrange(0, i as int) + "..."@) by {
            reveal_strlit("...");
        }
        reveal_strlit("...");
        crate::text::lemma_utf8_len_append(s@.subrange(0, i as int), "..."@);
        assert(utf8_len("..."@) == 3) by {
            reveal_with_fuel(utf8_len, 4);
            assert("..."@.drop_first().drop_first().drop_first() =~= Seq::<char>::empty());
        }
    }
    r
}

/// The status stored for a run.
pub fn run_status(success: bool) -> (r: &'static str)
    ensures
        r@ == (if success { "success"@ } else { "failure"@ }),
{
    if success {
        "success"
    } else {
        "failure"
    }
}

/// What a task does when it runs.
pub enum TaskAction {
    Upload { local: String, remote: String },
    Download { remote: String, local: String },
    Ssh,
}

/// The action a task type calls for; SFTP transfers need both paths, and an unknown type
/// is refused (it used to fall through to SSH exec).
pub fn task_action(task_type: &str, local_path: Option<&str>, remote_path: Option<&str>) -> (r: Result<TaskAction, String>)
    ensures
        task_type@ == "sftp_upload"@ ==> match r {
            Ok(TaskAction::Upload { local, remote }) => local_path is Some && remote_path is Some
                && local@ == local_path.unwrap()@ && remote@ == remote_path.unwrap()@,
            Err(e) => (local_path is None || remote_path is None)
                && e@ == "SFTP upload requires local_path and remote_path"@,
            _ => false,
        },
        task_type@ == "sftp_download"@ ==> match r {
            Ok(TaskAction::Download { remote, local }) => local_path is Some && remote_path is Some
                && local@ == local_path.unwrap()@ && remote@ == remote_path.unwrap()@,
            Err(e) => (local_path is None || remote_path is None)
                && e@ == "SFTP download requires remote_path and local_path"@,
            _ => false,
        },
        task_type@ == "ssh"@ ==> r matches Ok(TaskAction::Ssh),
        !is_task_type(task_type@) ==> (r matches Err(e) && e@ == "Unknown task type: "@ + task_type@),
{
    proof {
        reveal_strlit("sftp_upload");
        reveal_strlit("sftp_download");
        reveal_strlit("ssh");
        assert("ssh"@.len() == 3 && "sftp_upload"@.len() == 11 && "sftp_download"@.len() == 13);
    }
    if str_eq(task_type, "sftp_upload") {
        match (local_path, remote_path) {
            (Some(l), Some(rp)) => Ok(TaskAction::Upload { local: owned(l), remote: owned(rp) }),
            _ => Err(owned("SFTP upload requires local_path and remote_path")),
        }
    } else if str_eq(task_type, "sftp_download") {
        match (remote_path, local_path) {
            (Some(rp), Some(l)) => Ok(TaskAction::Download { remote: owned(rp), local: owned(l) }),
            _ => Err(owned("SFTP download requires remote_path and local_path")),
        }
    } else if str_eq(task_type, "ssh") {
        Ok(TaskAction::Ssh)
    } else {
        let mut m = owned("Unknown task type: ");
        m.append(task_type);
        Err(m)
    }
}

/// The run result of an action's outcome: for SSH the command output, for transfers a
/// completion message; a failure carries its error.
pub fn run_result(action: &TaskAction, outcome: Result<String, String>) -> (r: TaskRunResult)
    ensures
        r.success == outcome is Ok,
        match outcome {
            Ok(out) => r.error is None && (r.output matches Some(o) && o@ == (match action {
                TaskAction::Upload { .. } => "Upload completed."@,
                TaskAction::Download { .. } => "Download completed."@,
                TaskAction::Ssh => out@,
            })),
            Err(e) => r.output is None && (r.error matches Some(x) && x@ == e@),
        },
{
    match outcome {
        Ok(out) => {
            let text = match action {
                TaskAction::Upload { .. } => owned("Upload completed."),
                TaskAction::Download { .. } => owned("Download completed."),
                TaskAction::Ssh => out,
            };
            TaskRunResult { success: true, output: Some(text), error: None }
        },
        Err(e) => TaskRunResult { success: false, output: None, error: Some(e) },
    }
}

/// The row a finished run writes: its status, error and (truncated) output, and the time
/// it ran, which also becomes the task's last update.
pub struct RunRecord {
    pub ran_at: i64,
    pub status: String,
    pub error: Option<String>,
    pub output: Option<String>,
}

/// What the scheduler keeps of a run at `ran_at`: nothing when the task's host was not
/// found (`run` is `None`: the run never started, no result is stored and the start does
/// not count for the re-run guard); otherwise the record to store, "success" or
/// "failure" with the run's error and its output cut to `MAX_OUTPUT_LEN` bytes, and a
/// run that could not be carried out at all is a failure with that error and no output.
pub fn record_run(run: Option<Result<TaskRunResult, String>>, ran_at: i64) -> (r: Option<RunRecord>)
    ensures
        r is None <==> run is None,
        r matches Some(rec) ==> rec.ran_at == ran_at && match run {
            Some(Ok(res)) => rec.status@ == (if res.success { "success"@ } else { "failure"@ })
                && rec.error == res.error && match res.output {
                    Some(o) => rec.output matches Some(t) && t@ == truncated_output(o@),
                    None => rec.output is None,
                },
            Some(Err(e)) => rec.status@ == "failure"@ && rec.error == Some(e) && rec.output is None,
            None => false,
        },
{
    match run {
        None => None,
        Some(Ok(res)) => {
            let output = match &res.output {
                Some(o) => Some(truncate_output(o.as_str())),
                None => None,
            };
            Some(RunRecord { ran_at, status: owned(run_status(res.success)), error: res.error, output })
        },
        Some(Err(e)) => Some(RunRecord { ran_at, status: owned("failure"), error: Some(e), output: None }),
    }
}

/// Ids of tasks with a run in progress, from the scheduler or "Run now".
pub struct InFlight {
    running: Vec<String>,
}

/// Marks one task as running until it is released.
pub struct InFlightGuard {
    task_id: String,
}

impl InFlightGuard {
    pub closed spec fn id(&self) -> Seq<char> {
        self.task_id@
    }

    /// The run has ended: the task may run again.
    pub fn release(self, set: &mut InFlight)
        requires
            old(set).wf(),
        ensures
            final(set).wf(),
            final(set)@ == old(set)@.remove(self.id()),
    {
        set.remove(self.task_id.as_str());
    }
}

impl InFlight {
    pub closed spec fn view(&self) -> Set<Seq<char>> {
        Set::new(|id: Seq<char>| exists|k: int| 0 <= k < self.running@.len() && #[trigger] self.running@[k]@ == id)
    }

    pub closed spec fn wf(&self) -> bool {
        forall|a: int, b: int|
            0 <= a < b < self.running@.len() ==> #[trigger] self.running@[a]@ != #[trigger] self.running@[b]@
    }

    pub fn new() -> (r: Self)
        ensures
            r.wf(),
            r@ == Set::<Seq<char>>::empty(),
    {
        let r = InFlight { running: Vec::new() };
        assert(r@ =~= Set::<Seq<char>>::empty());
        r
    }

    fn position(&self, id: &str) -> (r: Option<usize>)
        ensures
            r matches Some(k) ==> k < self.running@.len() && self.running@[k as int]@ == id@,
            r is None ==> !self@.contains(id@),
    {
        let mut k: usize = 0;
        while k < self.running.len()
            invariant
                k <= self.running@.len(),
                forall|q: int| 0 <= q < k ==> self.running@[q]@ != id@,
            decreases self.running@.len() - k,
        {
            if str_eq(self.running[k].as_str(), id) {
                return Some(k);
            }
            k = k + 1;
        }
        None
    }

    pub fn is_running(&self, task_id: &str) -> (r: bool)
        ensures
            r == self@.contains(task_id@),
    {
        self.position(task_id).is_some()
    }

    /// Claims a task for one run; `None` while it already runs.
    pub fn claim(&mut self, task_id: &str) -> (r: Option<InFlightGuard>)
        requires
            old(self).wf(),
        ensures
            final(self).wf(),
            r is Some <==> !old(self)@.contains(task_id@),
            final(self)@ == old(self)@.insert(task_id@),
            r matches Some(g) ==> g.id() == task_id@,
    {
        match self.position(task_id) {
            Some(k) => {
                assert(self@.contains(task_id@));
                assert(self@ =~= self@.insert(task_id@));
                None
            },
            None => {
                let ghost before = self.running@;
                self.running.push(owned(task_id));
                assert(self@ =~= old(self)@.insert(task_id@)) by {
                    assert forall|id: Seq<char>| self@.contains(id) implies old(self)@.insert(task_id@).contains(id) by {
                        let k = choose|k: int| 0 <= k < self.running@.len() && #[trigger] self.running@[k]@ == id;
                        if k < before.len() {
                            assert(self.running@[k] == before[k]);
                        }
                    }
                    assert forall|id: Seq<char>| old(self)@.insert(task_id@).contains(id) implies self@.contains(id) by {
                        if id != task_id@ {
                            let k = choose|k: int| 0 <= k < before.len() && #[trigger] before[k]@ == id;
                            assert(self.running@[k] == before[k]);
                        } else {
                            assert(self.running@[before.len() as int]@ == id);
                        }
                    }
                }
                Some(InFlightGuard { task_id: owned(task_id) })
            },
        }
    }

    fn remove(&mut self, task_id: &str)
        requires
            old(self).wf(),
        ensures
            final(self).wf(),
            final(self)@ == old(self)@.remove(task_id@),
    {
        match self.position(task_id) {
            None => {
                assert(self@ =~= self@.remove(task_id@));
            },
            Some(k) => {
                let ghost before = self.running@;
                self.running.remove(k);
                assert(self.running@ =~= before.remove(k as int));
                assert(self@ =~= old(self)@.remove(task_id@)) by {
                    assert forall|id: Seq<char>| self@.contains(id) implies old(self)@.remove(task_id@).contains(id) by {
                        let q = choose|q: int| 0 <= q < self.running@.len() && #[trigger] self.running@[q]@ == id;
                        let q2 = if q < k { q } else { q + 1 };
                        assert(self.running@[q] == before[q2]);
                        if id == task_id@ {
                            if q2 < k {
                                assert(before[q2]@ != before[k as int]@);
                            } else {
                                assert(before[k as int]@ != before[q2]@);
                            }
                        }
                    }
                    assert forall|id: Seq<char>| old(self)@.remove(task_id@).contains(id) implies self@.contains(id) by {
                        let q = choose|q: int| 0 <= q < before.len() && #[trigger] before[q]@ == id;
                        assert(q != k);
                        let q2 = if q < k { q } else { q - 1 };
                        assert(self.running@[q2] == before[q]);
                    }
                }
            },
        }
    }
}

/// Whether `DateTime::<Utc>::from_timestamp(t, 0)` (chrono) accepts `t`: the second
/// lies between the first second of year -262143 and the last second of year 262142,
/// the years `NaiveDate` represents (`MIN_YEAR`, `MAX_YEAR`).
pub open spec fn chrono_timestamp_valid(t: i64) -> bool {
    -8_334_601_228_800 <= t <= 8_210_266_876_799
}

/// What `cron::Schedule::from_str` makes of `expr`: `Ok`, or the text of its error.
pub uninterp spec fn cron_parse(expr: Seq<char>) -> Result<(), Seq<char>>;

/// The first time after `after` (seconds since the epoch, UTC) at which the schedule
/// `expr` fires, as `Schedule::after(..).next()` (cron) yields it.
pub uninterp spec fn cron_next_fire(expr: Seq<char>, after: i64) -> Option<i64>;

/// Calls `chrono::DateTime::from_timestamp(t, 0)`; claims that it accepts exactly the
/// seconds `chrono_timestamp_valid` names.
#[verifier::external_body]
fn timestamp_valid(t: i64) -> (r: bool)
    ensures
        r == chrono_timestamp_valid(t),
{
    chrono::DateTime::from_timestamp(t, 0).is_some()
}

/// Calls `cron::Schedule::from_str`; claims only that the outcome is `cron_parse`.
#[verifier::external_body]
fn parse_cron(expr: &str) -> (r: Result<(), String>)
    ensures
        match r {
            Ok(()) => cron_parse(expr@) is Ok,
            Err(e) => cron_parse(expr@) == Err::<(), Seq<char>>(e@),
        },
{
    match <cron::Schedule as std::str::FromStr>::from_str(expr) {
        Ok(_) => Ok(()),
        Err(e) => Err(e.to_string()),
    }
}

/// The clock library represents `t` and the second after it. The cron query starts one
/// second after the time it is given and adds that second with chrono's `+`, which
/// panics past the last representable time.
pub open spec fn steppable(t: i64) -> bool {
    t < i64::MAX && chrono_timestamp_valid(t) && chrono_timestamp_valid((t + 1) as i64)
}

/// Parses `expr` with `cron::Schedule::from_str` and asks for the first fire time after
/// `after` (UTC). `None` when the expression does not parse; otherwise the fire time,
/// claimed to be `cron_next_fire`.
#[verifier::external_body]
fn next_fire_after(expr: &str, after: i64) -> (r: Option<Option<i64>>)
    requires
        steppable(after),
    ensures
        r is Some <==> cron_parse(expr@) is Ok,
        r matches Some(n) ==> n == cron_next_fire(expr@, after),
{
    let schedule = <cron::Schedule as std::str::FromStr>::from_str(expr).ok()?;
    let start = chrono::DateTime::from_timestamp(after, 0)?;
    Some(schedule.after(&start).next().map(|t| t.timestamp()))
}

/// Checks a cron expression before a task is stored.
pub fn check_cron_expression(expr: &str) -> (r: Result<(), String>)
    ensures
        r is Ok <==> cron_parse(expr@) is Ok,
        r matches Err(e) ==> cron_parse(expr@) matches Err(m) && e@ == "Invalid cron expression: "@ + m,
{
    match parse_cron(expr) {
        Ok(()) => Ok(()),
        Err(e) => {
            let mut m = owned("Invalid cron expression: ");
            m.append(e.as_str());
            Err(m)
        },
    }
}

/// The time a schedule is looked up from: the last run when it is a valid time, otherwise
/// two check intervals before now.
pub open spec fn due_base(last_run_at: Option<i64>, now: i64) -> i64 {
    match last_run_at {
        Some(t) => if chrono_timestamp_valid(t) {
            t
        } else {
            (now - 2 * CHECK_INTERVAL_SECS) as i64
        },
        None => (now - 2 * CHECK_INTERVAL_SECS) as i64,
    }
}

/// The inputs on which deciding whether a task is due does not panic: when the schedule
/// parses, the time it is looked up from (the last run, or two check intervals before
/// now) and the second after it are representable.
pub open spec fn due_defined(expr: Seq<char>, last_run_at: Option<i64>, now: i64) -> bool {
    cron_parse(expr) is Ok ==> match last_run_at {
        Some(t) if chrono_timestamp_valid(t) => steppable(t),
        _ => now >= i64::MIN + 2 * CHECK_INTERVAL_SECS && steppable((now - 2 * CHECK_INTERVAL_SECS) as i64),
    }
}

/// A task is due when its schedule parses and its next fire time after the base is not
/// later than now. All cron expressions are evaluated in UTC.
pub open spec fn is_due_spec(expr: Seq<char>, last_run_at: Option<i64>, now: i64) -> bool {
    cron_parse(expr) is Ok && (cron_next_fire(expr, due_base(last_run_at, now)) matches Some(t)
        && t <= now)
}

/// Whether a task with schedule `expr`, last run at `last_run_at`, is due at `now`
/// (seconds, UTC).
pub fn is_due(expr: &str, last_run_at: Option<i64>, now: i64) -> (r: bool)
    requires
        due_defined(expr@, last_run_at, now),
    ensures
        r == is_due_spec(expr@, last_run_at, now),
{
    if parse_cron(expr).is_err() {
        return false;
    }
    let base = match last_run_at {
        Some(t) => if timestamp_valid(t) {
            t
        } else {
            now - 2 * CHECK_INTERVAL_SECS
        },
        None => now - 2 * CHECK_INTERVAL_SECS,
    };
    match next_fire_after(expr, base) {
        None => false,
        Some(None) => false,
        Some(Some(t)) => t <= now,
    }
}

/// Whether `is_due` applies to these inputs (see `due_defined`).
pub fn due_is_defined(expr: &str, last_run_at: Option<i64>, now: i64) -> (r: bool)
    ensures
        r == due_defined(expr@, last_run_at, now),
{
    if parse_cron(expr).is_err() {
        return true;
    }
    let valid_last = match last_run_at {
        Some(t) => timestamp_valid(t),
        None => false,
    };
    let base = match last_run_at {
        Some(t) => if valid_last {
            t
        } else {
            if now < i64::MIN + 2 * CHECK_INTERVAL_SECS {
                return false;
            }
            now - 2 * CHECK_INTERVAL_SECS
        },
        None => {
            if now < i64::MIN + 2 * CHECK_INTERVAL_SECS {
                return false;
            }
            now - 2 * CHECK_INTERVAL_SECS
        },
    };
    base < i64::MAX && timestamp_valid(base) && timestamp_valid(base + 1)
}

/// `is_due`, or `None` where deciding it would panic (see `due_defined`).
pub fn is_due_checked(expr: &str, last_run_at: Option<i64>, now: i64) -> (r: Option<bool>)
    ensures
        r is Some <==> due_defined(expr@, last_run_at, now),
        r matches Some(b) ==> b == is_due_spec(expr@, last_run_at, now),
{
    if due_is_defined(expr, last_run_at, now) {
        Some(is_due(expr, last_run_at, now))
    } else {
        None
    }
}

/// When each task last started, by task id. Guards against re-running a task whose
/// `last_run_at` couldn't be persisted.
pub struct SchedulerState {
    last_executed: Vec<(String, i64)>,
}

/// A task started less than one check interval ago.
pub open spec fn recently_started(last: Map<Seq<char>, i64>, id: Seq<char>, now: i64) -> bool {
    last.contains_key(id) && now - last[id] < CHECK_INTERVAL_SECS
}

/// Whether the tick at `now` starts `task`, given when tasks last started and which run.
pub open spec fn starts(task: TaskRow, now: i64, last: Map<Seq<char>, i64>, running: Set<Seq<char>>) -> bool {
    is_due_spec(task.cron_expression@, task.last_run_at, now) && !recently_started(last, task.id@, now)
        && !running.contains(task.id@)
}

impl SchedulerState {
    pub closed spec fn view(&self) -> Map<Seq<char>, i64> {
        Map::new(
            |id: Seq<char>| exists|k: int| 0 <= k < self.last_executed@.len() && #[trigger] self.last_executed@[k].0@ == id,
            |id: Seq<char>| self.last_executed@[choose|k: int| 0 <= k < self.last_executed@.len() && #[trigger] self.last_executed@[k].0@ == id].1,
        )
    }

    pub closed spec fn wf(&self) -> bool {
        forall|a: int, b: int|
            0 <= a < b < self.last_executed@.len() ==> #[trigger] self.last_executed@[a].0@ != #[trigger] self.last_executed@[b].0@
    }

    pub fn new() -> (r: Self)
        ensures
            r.wf(),
            r@ == Map::<Seq<char>, i64>::empty(),
    {
        let r = SchedulerState { last_executed: Vec::new() };
        assert(r@ =~= Map::<Seq<char>, i64>::empty());
        r
    }

    fn position(&self, id: &str) -> (r: Option<usize>)
        requires
            self.wf(),
        ensures
            r matches Some(k) ==> k < self.last_executed@.len() && self.last_executed@[k as int].0@ == id@
                && self@.contains_key(id@) && self@[id@] == self.last_executed@[k as int].1,
            r is None ==> !self@.contains_key(id@),
    {
        let mut k: usize = 0;
        while k < self.last_executed.len()
            invariant
                self.wf(),
                k <= self.last_executed@.len(),
                forall|q: int| 0 <= q < k ==> self.last_executed@[q].0@ != id@,
            decreases self.last_executed@.len() - k,
        {
            if str_eq(self.last_executed[k].0.as_str(), id) {
                assert(self@.contains_key(id@));
                let ghost c = choose|q: int| 0 <= q < self.last_executed@.len() && #[trigger] self.last_executed@[q].0@ == id@;
                assert(0 <= c < self.last_executed@.len() && self.last_executed@[c].0@ == id@);
                assert(c == k as int) by {
                    if c < k as int {
                        assert(self.last_executed@[c].0@ != self.last_executed@[k as int].0@);
                    } else if c > k as int {
                        assert(self.last_executed@[k as int].0@ != self.last_executed@[c].0@);
                    }
                }
                return Some(k);
            }
            k = k + 1;
        }
        None
    }

    /// Records that task `task_id` started at `ran_at`.
    pub fn record_start(&mut self, task_id: &str, ran_at: i64)
        requires
            old(self).wf(),
        ensures
            final(self).wf(),
            final(self)@ == old(self)@.insert(task_id@, ran_at),
    {
        match self.position(task_id) {
            Some(k) => {
                let ghost before = self.last_executed@;
                self.last_executed.set(k, (owned(task_id), ran_at));
                assert forall|a: int, b: int| 0 <= a < b < self.last_executed@.len() implies #[trigger] self.last_executed@[a].0@ != #[trigger] self.last_executed@[b].0@ by {
                    assert(self.last_executed@[a].0@ == before[a].0@);
                    assert(self.last_executed@[b].0@ == before[b].0@);
                }
                assert(self@ =~= old(self)@.insert(task_id@, ran_at)) by {
                    assert forall|id: Seq<char>| #[trigger] self@.contains_key(id) <==> old(self)@.insert(task_id@, ran_at).contains_key(id) by {
                        if self@.contains_key(id) {
                            let q = choose|q: int| 0 <= q < self.last_executed@.len() && #[trigger] self.last_executed@[q].0@ == id;
                            if q != k as int {
                                assert(self.last_executed@[q] == before[q]);
                            }
                        }
                        if old(self)@.contains_key(id) && id != task_id@ {
                            let q = choose|q: int| 0 <= q < before.len() && #[trigger] before[q].0@ == id;
                            assert(q != k as int);
                            assert(self.last_executed@[q] == before[q]);
                        }
                        if id == task_id@ {
                            assert(self.last_executed@[k as int].0@ == id);
                        }
                    }
                    assert forall|id: Seq<char>| #[trigger] self@.contains_key(id) implies self@[id] == old(self)@.insert(task_id@, ran_at)[id] by {
                        let q = choose|q: int| 0 <= q < self.last_executed@.len() && #[trigger] self.last_executed@[q].0@ == id;
                        if id == task_id@ {
                            assert(q == k as int) by {
                                if q != k as int {
                                    assert(self.last_executed@[q].0@ == self.last_executed@[k as int].0@);
                                }
                            }
                        } else {
                            assert(q != k as int);
                            assert(self.last_executed@[q] == before[q]);
                            let q0 = choose|q0: int| 0 <= q0 < before.len() && #[trigger] before[q0].0@ == id;
                            assert(q0 == q) by {
                                if q0 != q {
                                    assert(before[q0].0@ == before[q].0@);
                                }
                            }
                        }
                    }
                }
            },
            None => {
                let ghost before = self.last_executed@;
                self.last_executed.push((owned(task_id), ran_at));
                assert forall|a: int, b: int| 0 <= a < b < self.last_executed@.len() implies #[trigger] self.last_executed@[a].0@ != #[trigger] self.last_executed@[b].0@ by {
                    assert(self.last_executed@[a] == before[a]);
                    if b < before.len() {
                        assert(self.last_executed@[b] == before[b]);
                    } else {
                        assert(old(self)@.contains_key(before[a].0@));
                    }
                }
                assert(self@ =~= old(self)@.insert(task_id@, ran_at)) by {
                    assert forall|id: Seq<char>| #[trigger] self@.contains_key(id) <==> old(self)@.insert(task_id@, ran_at).contains_key(id) by {
                        if self@.contains_key(id) && id != task_id@ {
                            let q = choose|q: int| 0 <= q < self.last_executed@.len() && #[trigger] self.last_executed@[q].0@ == id;
                            assert(q < before.len());
                            assert(self.last_executed@[q] == before[q]);
                        }
                        if old(self)@.contains_key(id) {
                            let q = choose|q: int| 0 <= q < before.len() && #[trigger] before[q].0@ == id;
                            assert(self.last_executed@[q] == before[q]);
                        }
                        if id == task_id@ {
                            assert(self.last_executed@[before.len() as int].0@ == id);
                        }
                    }
                    assert forall|id: Seq<char>| #[trigger] self@.contains_key(id) implies self@[id] == old(self)@.insert(task_id@, ran_at)[id] by {
                        let q = choose|q: int| 0 <= q < self.last_executed@.len() && #[trigger] self.last_executed@[q].0@ == id;
                        if id == task_id@ {
                            assert(q == before.len()) by {
                                if q < before.len() {
                                    assert(self.last_executed@[q] == before[q]);
                                }
                            }
                        } else {
                            assert(q < before.len());
                            assert(self.last_executed@[q] == before[q]);
                            let q0 = choose|q0: int| 0 <= q0 < before.len() && #[trigger] before[q0].0@ == id;
                            assert(q0 == q) by {
                                if q0 != q {
                                    assert(before[q0].0@ == before[q].0@);
                                }
                            }
                        }
                    }
                }
            },
        }
    }

    /// The tasks the tick at `now` starts, in order, each with its claim: due, not started
    /// within the last check interval, and not already running (nor claimed earlier in
    /// this tick). Every started task is claimed in `in_flight`.
    pub fn plan_due_runs(&self, tasks: &Vec<TaskRow>, now: i64, in_flight: &mut InFlight) -> (r: Vec<(usize, InFlightGuard)>)
        requires
            self.wf(),
            old(in_flight).wf(),
            forall|i: int| 0 <= i < tasks@.len() ==> #[trigger] due_defined(tasks@[i].cron_expression@, tasks@[i].last_run_at, now),
        ensures
            final(in_flight).wf(),
            forall|j: int| 0 <= j < r@.len() ==> (#[trigger] r@[j]).0 < tasks@.len() && r@[j].1.id() == tasks@[r@[j].0 as int].id@,
            forall|a: int, b: int| 0 <= a < b < r@.len() ==> (#[trigger] r@[a]).0 < (#[trigger] r@[b]).0,
            forall|j: int| 0 <= j < r@.len() ==> starts(tasks@[(#[trigger] r@[j]).0 as int], now, self@, old(in_flight)@)
                && forall|a: int| 0 <= a < j ==> tasks@[r@[a].0 as int].id@ != tasks@[r@[j].0 as int].id@,
            forall|i: int| 0 <= i < tasks@.len() && starts(#[trigger] tasks@[i], now, self@, old(in_flight)@)
                ==> exists|j: int| 0 <= j < r@.len() && tasks@[(#[trigger] r@[j]).0 as int].id@ == tasks@[i].id@,
            final(in_flight)@ == old(in_flight)@.union(Set::new(|id: Seq<char>| exists|j: int| 0 <= j < r@.len() && tasks@[(#[trigger] r@[j]).0 as int].id@ == id)),
    {
        let mut out: Vec<(usize, InFlightGuard)> = Vec::new();
        let mut i: usize = 0;
        while i < tasks.len()
            invariant
                self.wf(),
                in_flight.wf(),
                i <= tasks@.len(),
                forall|q: int| 0 <= q < tasks@.len() ==> #[trigger] due_defined(tasks@[q].cron_expression@, tasks@[q].last_run_at, now),
                forall|j: int| 0 <= j < out@.len() ==> (#[trigger] out@[j]).0 < i && out@[j].1.id() == tasks@[out@[j].0 as int].id@,
                forall|a: int, b: int| 0 <= a < b < out@.len() ==> (#[trigger] out@[a]).0 < (#[trigger] out@[b]).0,
                forall|j: int| 0 <= j < out@.len() ==> starts(tasks@[(#[trigger] out@[j]).0 as int], now, self@, old(in_flight)@)
                    && forall|a: int| 0 <= a < j ==> tasks@[out@[a].0 as int].id@ != tasks@[out@[j].0 as int].id@,
                forall|q: int| 0 <= q < i && starts(#[trigger] tasks@[q], now, self@, old(in_flight)@)
                    ==> exists|j: int| 0 <= j < out@.len() && tasks@[(#[trigger] out@[j]).0 as int].id@ == tasks@[q].id@,
                in_flight@ == old(in_flight)@.union(Set::new(|id: Seq<char>| exists|j: int| 0 <= j < out@.len() && tasks@[(#[trigger] out@[j]).0 as int].id@ == id)),
            decreases tasks@.len() - i,
        {
            let task = &tasks[i];
            assert(due_defined(tasks@[i as int].cron_expression@, tasks@[i as int].last_run_at, now));
            let ghost claimed = Set::new(|id: Seq<char>| exists|j: int| 0 <= j < out@.len() && tasks@[(#[trigger] out@[j]).0 as int].id@ == id);
            if is_due(task.cron_expression.as_str(), task.last_run_at, now) {
                let recent = match self.position(task.id.as_str()) {
                    Some(k) => (now as i128) - (self.last_executed[k].1 as i128) < (CHECK_INTERVAL_SECS as i128),
                    None => false,
                };
                assert(recent == recently_started(self@, task.id@, now));
                if !recent {
                    let ghost before_out = out@;
                    let ghost before_flight = in_flight@;
                    match in_flight.claim(task.id.as_str()) {
                        Some(g) => {
                            assert(!old(in_flight)@.contains(task.id@));
                            assert(!claimed.contains(task.id@));
                            out.push((i, g));
                            assert forall|a: int| 0 <= a < out@.len() - 1 implies tasks@[(#[trigger] out@[a]).0 as int].id@ != tasks@[out@[out@.len() - 1].0 as int].id@ by {
                                assert(out@[a] == before_out[a]);
                                if tasks@[out@[a].0 as int].id@ == task.id@ {
                                    assert(claimed.contains(task.id@));
                                }
                            }
                            let ghost claimed2 = Set::new(|id: Seq<char>| exists|j: int| 0 <= j < out@.len() && tasks@[(#[trigger] out@[j]).0 as int].id@ == id);
                            assert(claimed2 =~= claimed.insert(task.id@)) by {
                                assert forall|id: Seq<char>| claimed2.contains(id) implies claimed.insert(task.id@).contains(id) by {
                                    let j = choose|j: int| 0 <= j < out@.len() && tasks@[(#[trigger] out@[j]).0 as int].id@ == id;
                                    if j < before_out.len() {
                                        assert(out@[j] == before_out[j]);
                                    }
                                }
                                assert forall|id: Seq<char>| claimed.insert(task.id@).contains(id) implies claimed2.contains(id) by {
                                    if id == task.id@ {
                                        assert(tasks@[out@[before_out.len() as int].0 as int].id@ == id);
                                    } else {
                                        let j = choose|j: int| 0 <= j < before_out.len() && tasks@[(#[trigger] before_out[j]).0 as int].id@ == id;
                                        assert(out@[j] == before_out[j]);
                                    }
                                }
                            }
                            assert(in_flight@ =~= old(in_flight)@.union(claimed2));
                            assert forall|q: int| 0 <= q < i + 1 && starts(#[trigger] tasks@[q], now, self@, old(in_flight)@)
                                implies exists|j: int| 0 <= j < out@.len() && tasks@[(#[trigger] out@[j]).0 as int].id@ == tasks@[q].id@ by {
                                if q < i {
                                    let j = choose|j: int| 0 <= j < before_out.len() && tasks@[(#[trigger] before_out[j]).0 as int].id@ == tasks@[q].id@;
                                    assert(out@[j] == before_out[j]);
                                } else {
                                    assert(tasks@[out@[before_out.len() as int].0 as int].id@ == tasks@[q].id@);
                                }
                            }
                        },
                        None => {
                            assert(in_flight@ =~= before_flight);
                            assert forall|q: int| 0 <= q < i + 1 && starts(#[trigger] tasks@[q], now, self@, old(in_flight)@)
                                implies exists|j: int| 0 <= j < out@.len() && tasks@[(#[trigger] out@[j]).0 as int].id@ == tasks@[q].id@ by {
                                if q == i {
                                    assert(before_flight.contains(task.id@));
                                    assert(claimed.contains(task.id@));
                                }
                            }
                        },
                    }
                }
            }
            i = i + 1;
        }
        out
    }

    /// `plan_due_runs` where the time window it looks at is one the clock library
    /// represents; `None`, with nothing claimed, otherwise.
    pub fn plan_due_runs_checked(&self, tasks: &Vec<TaskRow>, now: i64, in_flight: &mut InFlight) -> (r: Option<Vec<(usize, InFlightGuard)>>)
        requires
            self.wf(),
            old(in_flight).wf(),
        ensures
            final(in_flight).wf(),
            r is Some <==> forall|i: int| 0 <= i < tasks@.len() ==> #[trigger] due_defined(tasks@[i].cron_expression@, tasks@[i].last_run_at, now),
            r is None ==> final(in_flight)@ == old(in_flight)@,
            r matches Some(runs) ==> {
                &&& forall|j: int| 0 <= j < runs@.len() ==> (#[trigger] runs@[j]).0 < tasks@.len() && runs@[j].1.id() == tasks@[runs@[j].0 as int].id@
                &&& forall|a: int, b: int| 0 <= a < b < runs@.len() ==> (#[trigger] runs@[a]).0 < (#[trigger] runs@[b]).0
                &&& forall|j: int| 0 <= j < runs@.len() ==> starts(tasks@[(#[trigger] runs@[j]).0 as int], now, self@, old(in_flight)@)
                    && forall|a: int| 0 <= a < j ==> tasks@[runs@[a].0 as int].id@ != tasks@[runs@[j].0 as int].id@
                &&& forall|i: int| 0 <= i < tasks@.len() && starts(#[trigger] tasks@[i], now, self@, old(in_flight)@)
                    ==> exists|j: int| 0 <= j < runs@.len() && tasks@[(#[trigger] runs@[j]).0 as int].id@ == tasks@[i].id@
                &&& final(in_flight)@ == old(in_flight)@.union(Set::new(|id: Seq<char>| exists|j: int| 0 <= j < runs@.len() && tasks@[(#[trigger] runs@[j]).0 as int].id@ == id))
            },
    {
        let mut i: usize = 0;
        while i < tasks.len()
            invariant
                i <= tasks@.len(),
                in_flight.wf(),
                in_flight@ == old(in_flight)@,
                forall|q: int| 0 <= q < i ==> #[trigger] due_defined(tasks@[q].cron_expression@, tasks@[q].last_run_at, now),
            decreases tasks@.len() - i,
        {
            if !due_is_defined(tasks[i].cron_expression.as_str(), tasks[i].last_run_at, now) {
                return None;
            }
            i = i + 1;
        }
        Some(self.plan_due_runs(tasks, now, in_flight))
    }
}

/// A claim is exclusive until its guard is released: claiming a running task fails,
/// other tasks are unaffected, and after the release the task can be claimed again.
pub proof fn law_in_flight_claims_are_exclusive(running: Set<Seq<char>>, a: Seq<char>, b: Seq<char>)
    requires
        !running.contains(a),
        !running.contains(b),
        a != b,
    ensures
        running.insert(a).contains(a),
        !running.insert(a).contains(b),
        !running.insert(a).remove(a).contains(a),
{
}

} // verus!
