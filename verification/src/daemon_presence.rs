//! Whether anything else could be writing to a store right now.
//!
//! Three facts are kept apart. The LaunchAgent may be loaded before the daemon
//! answers; a daemon started by hand answers without any LaunchAgent; and a
//! daemon on another address holds the store open while neither of the first two
//! says anything. Only who has the file open is independent of how the daemon
//! was started.
use crate::text::{
    blank, chars_of, concat2, concat3, decimal, decimal_text, ended_lines, is_blank, join, joined,
    parse_number, parsed_number, signed_decimal, signed_decimal_text, slice_string,
    split_ended_lines, texts, trim, trimmed,
};
use vstd::prelude::*;

verus! {

pub const DAEMON_LAUNCH_AGENT_LABEL: &'static str = "dev.statsai.daemon";

pub const DAEMON_LOOPBACK_ADDRESS: &'static str = "127.0.0.1:8765";

/// The status that `lsof` exits with when it looked and found nothing.
pub const LSOF_NOTHING_FOUND: i32 = 1;

/// The status that `launchctl print` exits with when the domain holds no such
/// service.
pub const LAUNCHCTL_NO_SUCH_SERVICE: i32 = 113;

/// Whether the daemon's LaunchAgent is loaded.
#[derive(Debug, Clone, Copy, PartialEq, Eq, Structural)]
pub enum LaunchAgentState {
    Loaded,
    NotLoaded,
    /// The probe could not be run, so this says nothing either way.
    Unknown,
}

#[derive(Debug, Clone, Copy, PartialEq, Eq, Structural)]
pub struct DaemonPresence {
    pub launch_agent: LaunchAgentState,
    pub reachable: bool,
}

impl DaemonPresence {
    /// Whether anything could be writing to the store on this host, or that could
    /// not be established.
    pub fn any(self) -> (r: bool)
        ensures
            r == !(self.launch_agent == LaunchAgentState::NotLoaded && !self.reachable),
    {
        self.launch_agent != LaunchAgentState::NotLoaded || self.reachable
    }
}

/// How a program ended: its exit status, or nothing where a signal ended it.
#[derive(Debug, Clone, Copy, PartialEq, Eq, Structural)]
pub struct Exit {
    pub code: Option<i32>,
}

impl Exit {
    pub open spec fn succeeded(self) -> bool {
        self.code == Some(0i32)
    }

    pub fn success(self) -> (r: bool)
        ensures
            r == self.succeeded(),
    {
        match self.code {
            Some(c) => c == 0,
            None => false,
        }
    }
}

/// What `launchctl print` says by how it ends. Only one failure means that the
/// LaunchAgent is not loaded.
pub open spec fn launchctl_says(exit: Exit) -> LaunchAgentState {
    if exit.succeeded() {
        LaunchAgentState::Loaded
    } else if exit.code == Some(LAUNCHCTL_NO_SUCH_SERVICE) {
        LaunchAgentState::NotLoaded
    } else {
        LaunchAgentState::Unknown
    }
}

pub fn classify_launchctl(exit: Exit) -> (r: LaunchAgentState)
    ensures
        r == launchctl_says(exit),
{
    if exit.success() {
        return LaunchAgentState::Loaded;
    }
    match exit.code {
        Some(c) => if c == LAUNCHCTL_NO_SUCH_SERVICE {
            LaunchAgentState::NotLoaded
        } else {
            LaunchAgentState::Unknown
        },
        None => LaunchAgentState::Unknown,
    }
}

pub open spec fn agent_state_in(macos: bool, printed: Option<Exit>) -> LaunchAgentState {
    if !macos {
        LaunchAgentState::NotLoaded
    } else {
        match printed {
            Some(exit) => launchctl_says(exit),
            None => LaunchAgentState::Unknown,
        }
    }
}

/// The LaunchAgent's state in a domain. `printed` is how `launchctl print` ended,
/// missing where it could not be run. Only macOS has LaunchAgents.
pub fn launch_agent_state_in(macos: bool, printed: Option<Exit>) -> (r: LaunchAgentState)
    ensures
        r == agent_state_in(macos, printed),
{
    if !macos {
        return LaunchAgentState::NotLoaded;
    }
    match printed {
        Some(exit) => classify_launchctl(exit),
        None => LaunchAgentState::Unknown,
    }
}

/// The state in the user's own domain. A domain that cannot be read says nothing
/// of the LaunchAgent.
pub fn launch_agent_state(macos: bool, domain: Option<&str>, printed: Option<Exit>) -> (r:
    LaunchAgentState)
    ensures
        r == if macos && domain is None {
            LaunchAgentState::Unknown
        } else {
            agent_state_in(macos, printed)
        },
{
    if macos && domain.is_none() {
        return LaunchAgentState::Unknown;
    }
    launch_agent_state_in(macos, printed)
}

/// For callers to whom "could not tell" and "not loaded" are the same.
pub fn launch_agent_loaded_in(macos: bool, printed: Option<Exit>) -> (r: bool)
    ensures
        r == (agent_state_in(macos, printed) == LaunchAgentState::Loaded),
{
    launch_agent_state_in(macos, printed) == LaunchAgentState::Loaded
}

/// The presence that the probes at the default label and address show.
pub fn daemon_presence(macos: bool, domain: Option<&str>, printed: Option<Exit>, reachable: bool) -> (r:
    DaemonPresence)
    ensures
        r.reachable == reachable,
        r.launch_agent == if macos && domain is None {
            LaunchAgentState::Unknown
        } else {
            agent_state_in(macos, printed)
        },
{
    DaemonPresence { launch_agent: launch_agent_state(macos, domain, printed), reachable }
}

/// What `launchctl` is asked for.
pub fn launch_agent_target(domain: &str) -> (r: String)
    ensures
        r@ == domain@ + "/"@ + DAEMON_LAUNCH_AGENT_LABEL@,
{
    concat3(domain, "/", DAEMON_LAUNCH_AGENT_LABEL)
}

/// The user's domain on macOS, from what `id -u` printed where it succeeded.
pub fn gui_domain(macos: bool, printed: Option<&str>) -> (r: Option<String>)
    ensures
        match printed {
            Some(p) => if macos && !blank(p@) {
                r matches Some(d) && d@ == "gui/"@ + trimmed(p@)
            } else {
                r is None
            },
            None => r is None,
        },
{
    let p = match printed {
        Some(p) => p,
        None => return None,
    };
    if !macos || is_blank(p) {
        return None;
    }
    let uid = trim(p);
    Some(concat2("gui/", uid.as_str()))
}

// ---------------------------------------------------------------------------
// Who has the store open
// ---------------------------------------------------------------------------

/// A process that holds a store's files open.
#[derive(Debug, Clone, PartialEq, Eq)]
pub struct StoreOpener {
    pub pid: u32,
    pub command: String,
}

impl StoreOpener {
    pub fn text(&self) -> (r: String)
        ensures
            r@ == "pid "@ + decimal(self.pid as nat) + " ("@ + self.command@ + ")"@,
    {
        let pid = decimal_text(self.pid as u64);
        let a = concat3("pid ", pid.as_str(), " (");
        concat3(a.as_str(), self.command.as_str(), ")")
    }
}

/// What has been read of an answer: the openers so far, and the process that the
/// next lines speak of.
pub struct ReadOpeners {
    pub openers: Seq<(u32, Seq<char>)>,
    pub pid: Option<u32>,
}

pub open spec fn lists_pid(v: Seq<(u32, Seq<char>)>, pid: u32) -> bool {
    exists|k: int| 0 <= k < v.len() && (#[trigger] v[k]).0 == pid
}

pub open spec fn pid_of(s: Seq<char>) -> Option<u32> {
    match parsed_number(trimmed(s), u32::MAX as nat) {
        Some(n) => Some(n as u32),
        None => None,
    }
}

/// One line more. A line that begins with `p` names a process, and one with `c`
/// its command; a process stands once, by its first command.
pub open spec fn read_opener_line(s: ReadOpeners, line: Seq<char>, own: u32) -> ReadOpeners {
    if line.len() == 0 {
        s
    } else if line[0] == 'p' {
        ReadOpeners { pid: pid_of(line.skip(1)), ..s }
    } else if line[0] == 'c' {
        match s.pid {
            Some(pid) => if pid == own || lists_pid(s.openers, pid) {
                s
            } else {
                ReadOpeners { openers: s.openers.push((pid, trimmed(line.skip(1)))), ..s }
            },
            None => s,
        }
    } else {
        s
    }
}

pub open spec fn read_openers(lines: Seq<Seq<char>>, own: u32) -> ReadOpeners
    decreases lines.len(),
{
    if lines.len() == 0 {
        ReadOpeners { openers: Seq::empty(), pid: None }
    } else {
        read_opener_line(read_openers(lines.drop_last(), own), lines.last(), own)
    }
}

/// The openers that an answer of `lsof -F pc` lists, but for the process `own`.
pub open spec fn openers_of(output: Seq<char>, own: u32) -> Seq<(u32, Seq<char>)> {
    read_openers(ended_lines(output), own).openers
}

pub open spec fn opener_views(v: Seq<StoreOpener>) -> Seq<(u32, Seq<char>)> {
    v.map_values(|o: StoreOpener| (o.pid, o.command@))
}

fn knows_pid(v: &[StoreOpener], pid: u32) -> (r: bool)
    ensures
        r == lists_pid(opener_views(v@), pid),
{
    let mut i: usize = 0;
    while i < v.len()
        invariant
            i <= v.len(),
            forall|k: int| 0 <= k < i ==> (#[trigger] opener_views(v@)[k]).0 != pid,
        decreases v.len() - i,
    {
        if v[i].pid == pid {
            proof {
                assert(opener_views(v@)[i as int].0 == pid);
            }
            return true;
        }
        i = i + 1;
    }
    false
}

pub fn parse_lsof_openers(output: &str, exclude_pid: u32) -> (r: Vec<StoreOpener>)
    ensures
        opener_views(r@) == openers_of(output@, exclude_pid),
{
    let lines = split_ended_lines(output);
    let ghost all = ended_lines(output@);
    let mut openers: Vec<StoreOpener> = Vec::new();
    let mut pid: Option<u32> = None;
    let mut i: usize = 0;
    proof {
        assert(all.take(0) =~= Seq::empty());
        assert(opener_views(openers@) =~= Seq::empty());
    }
    while i < lines.len()
        invariant
            all == texts(lines@),
            i <= lines.len(),
            read_openers(all.take(i as int), exclude_pid) == (ReadOpeners {
                openers: opener_views(openers@),
                pid,
            }),
        decreases lines.len() - i,
    {
        proof {
            assert(all.take(i + 1).drop_last() =~= all.take(i as int));
            assert(all.take(i + 1).last() == lines@[i as int]@);
        }
        let cs = chars_of(lines[i].as_str());
        if cs.len() > 0 && (cs[0] == 'p' || cs[0] == 'c') {
            let rest = slice_string(&cs, 1, cs.len());
            proof {
                assert(lines@[i as int]@.subrange(1, cs@.len() as int) =~= lines@[i as int]@.skip(
                    1,
                ));
            }
            let value = trim(rest.as_str());
            if cs[0] == 'p' {
                pid =
                match parse_number(value.as_str(), u32::MAX as u64) {
                    Some(n) => Some(n as u32),
                    None => None,
                };
            } else {
                match pid {
                    Some(p) => {
                        if p != exclude_pid && !knows_pid(&openers, p) {
                            let ghost before = opener_views(openers@);
                            openers.push(StoreOpener { pid: p, command: value });
                            proof {
                                assert(opener_views(openers@) =~= before.push((p, value@)));
                            }
                        }
                    },
                    None => {},
                }
            }
        }
        i = i + 1;
    }
    proof {
        assert(all.take(i as int) =~= all);
    }
    openers
}

/// No process is listed twice, and never the own one.
pub proof fn openers_are_other_processes(output: Seq<char>, own: u32)
    ensures
        !lists_pid(openers_of(output, own), own),
        forall|i: int, j: int|
            0 <= i < j < openers_of(output, own).len() ==> openers_of(output, own)[i].0
                != openers_of(output, own)[j].0,
{
    lemma_openers(ended_lines(output), own);
}

proof fn lemma_openers(lines: Seq<Seq<char>>, own: u32)
    ensures
        !lists_pid(read_openers(lines, own).openers, own),
        forall|i: int, j: int|
            0 <= i < j < read_openers(lines, own).openers.len() ==> read_openers(
                lines,
                own,
            ).openers[i].0 != read_openers(lines, own).openers[j].0,
    decreases lines.len(),
{
    if lines.len() > 0 {
        lemma_openers(lines.drop_last(), own);
        let before = read_openers(lines.drop_last(), own);
        let after = read_openers(lines, own);
        if after.openers != before.openers {
            let pid = before.pid->0;
            assert forall|k: int| 0 <= k < after.openers.len() implies (#[trigger]
            after.openers[k]).0 != own by {
                if k < before.openers.len() {
                    assert(after.openers[k] == before.openers[k]);
                }
            }
            assert forall|i: int, j: int| 0 <= i < j < after.openers.len() implies
                after.openers[i].0 != after.openers[j].0 by {
                assert(after.openers[i] == before.openers[i]);
                if j < before.openers.len() {
                    assert(after.openers[j] == before.openers[j]);
                } else {
                    assert(after.openers[j].0 == pid);
                }
            }
        }
    }
}

pub open spec fn exit_text(exit: Exit) -> Seq<char> {
    match exit.code {
        Some(code) => "exit status "@ + signed_decimal(code as int),
        None => "terminated by a signal"@,
    }
}

pub fn describe_status(exit: Exit) -> (r: String)
    ensures
        r@ == exit_text(exit),
{
    match exit.code {
        Some(code) => {
            let n = signed_decimal_text(code as i64);
            concat2("exit status ", n.as_str())
        },
        None => "terminated by a signal".to_owned(),
    }
}

/// The first line of what a program complained of.
pub open spec fn complaint_of(stderr: Seq<char>) -> Seq<char> {
    let lines = ended_lines(stderr);
    if lines.len() == 0 {
        Seq::empty()
    } else {
        trimmed(lines[0])
    }
}

pub open spec fn probe_error(files: Seq<Seq<char>>, exit: Exit, stderr: Seq<char>) -> Seq<char> {
    "lsof could not report who has "@ + joined(files, ", "@) + " open ("@ + exit_text(exit) + "): "@
        + (if complaint_of(stderr).len() == 0 {
        "no output"@
    } else {
        complaint_of(stderr)
    })
}

/// Decides what one run of `lsof` said. Silence means that nobody has the files
/// open only together with the status that `lsof` has for that answer; every
/// other outcome without openers is no answer, and an error, but for a success
/// that lists this process alone.
pub fn interpret_probe(exit: Exit, stdout: &str, stderr: &str, files: &[String], own_pid: u32) -> (r:
    Result<Vec<StoreOpener>, String>)
    ensures
        ({
            let openers = openers_of(stdout@, own_pid);
            let answered = openers.len() > 0 || (exit.succeeded() && !blank(stdout@)) || (
            complaint_of(stderr@).len() == 0 && exit.code == Some(LSOF_NOTHING_FOUND));
            match r {
                Ok(v) => answered && opener_views(v@) == openers,
                Err(e) => !answered && e@ == probe_error(texts(files@), exit, stderr@),
            }
        }),
{
    let openers = parse_lsof_openers(stdout, own_pid);
    proof {
        assert(opener_views(openers@).len() == openers@.len());
    }
    if openers.len() > 0 || (exit.success() && !is_blank(stdout)) {
        return Ok(openers);
    }
    let lines = split_ended_lines(stderr);
    proof {
        assert(texts(lines@).len() == lines@.len());
    }
    let complaint = if lines.len() == 0 {
        String::new()
    } else {
        proof {
            assert(texts(lines@)[0] == lines@[0]@);
        }
        trim(lines[0].as_str())
    };
    let silent = complaint.as_str().is_empty();
    let nothing_found = match exit.code {
        Some(c) => c == LSOF_NOTHING_FOUND,
        None => false,
    };
    if silent && nothing_found {
        return Ok(openers);
    }
    let said = if silent {
        "no output"
    } else {
        complaint.as_str()
    };
    let names = join(files, ", ");
    let status = describe_status(exit);
    let a = concat3("lsof could not report who has ", names.as_str(), " open (");
    let b = concat3(a.as_str(), status.as_str(), "): ");
    Err(concat2(b.as_str(), said))
}

pub open spec fn store_files_spec(store: Seq<char>) -> Seq<Seq<char>> {
    seq![store, store + "-wal"@, store + "-shm"@, store + "-journal"@]
}

/// A store's files: the database and what SQLite keeps beside it.
pub fn store_files(store: &str) -> (r: Vec<String>)
    ensures
        texts(r@) == store_files_spec(store@),
{
    let mut r: Vec<String> = Vec::new();
    r.push(store.to_owned());
    r.push(concat2(store, "-wal"));
    r.push(concat2(store, "-shm"));
    r.push(concat2(store, "-journal"));
    proof {
        assert(texts(r@) =~= store_files_spec(store@));
    }
    r
}

/// What to do after a probe of a store's files.
#[derive(Debug, PartialEq, Eq)]
pub enum OpenersStep {
    /// The answer.
    Done(Result<Vec<StoreOpener>, String>),
    /// Probe these files once more.
    Probe(Vec<String>),
}

/// The first step: where none of the files exists, nobody has them open.
pub fn store_openers(existing: Vec<String>) -> (r: OpenersStep)
    ensures
        match r {
            OpenersStep::Done(Ok(v)) => existing@.len() == 0 && v@.len() == 0,
            OpenersStep::Done(Err(_)) => false,
            OpenersStep::Probe(files) => existing@.len() > 0 && files == existing,
        },
{
    if existing.len() == 0 {
        return OpenersStep::Done(Ok(Vec::new()));
    }
    OpenersStep::Probe(existing)
}

/// The step after the first probe of `probed` files. A file that vanished
/// meanwhile makes a probe fail, so a failed probe is repeated, once, where fewer
/// files are left and not none.
pub fn after_probe(
    probed: usize,
    answer: Result<Vec<StoreOpener>, String>,
    remaining: Vec<String>,
) -> (r: OpenersStep)
    ensures
        r == if answer is Err && 0 < remaining@.len() < probed {
            OpenersStep::Probe(remaining)
        } else {
            OpenersStep::Done(answer)
        },
{
    if answer.is_err() && remaining.len() > 0 && remaining.len() < probed {
        return OpenersStep::Probe(remaining);
    }
    OpenersStep::Done(answer)
}

} // verus!
