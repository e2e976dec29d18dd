//! Coordination of the runners: discovery, the barriers before and after each spawn,
//! and the exchange of manifests.
//!
//! Each phase is a function from what is known so far and an event to what is known
//! then and the step to take. The caller sends, receives and keeps time: after `Send` it
//! broadcasts the phase's message and receives for one interval, handing in each message
//! as `Received`, and then reports the end of the interval.

use crate::clock_sync::{answers_probe, is_probe_for, probe_reply, ClockSyncEngine, ProbeReply};
use crate::message::Message;
use crate::names::{
    clone_names, first_index, listing, listing_holds, name_set, position_of, texts, NameMap, NameSet,
};
use crate::text::{name_lt, same, show_list, shown_list};
use crate::time::{Duration, MAX_NANOS, NANOS_PER_SEC};
use vstd::prelude::*;
use vstd::utf8::{decode_utf8, encode_utf8, encode_utf8_decode_utf8, is_char_boundary};

verus! {

// ---------------------------------------------------------------------
// Timeouts
// ---------------------------------------------------------------------

/// A barrier that was not reached in time.
#[derive(Debug, Clone, PartialEq, Eq)]
pub struct BarrierTimeoutError {
    /// Which barrier: `ready`, `done` or `resume_manifest`.
    pub kind: &'static str,
    /// The spawn, or an empty text where the barrier belongs to none.
    pub variant: String,
    /// How long the barrier was waited for.
    pub elapsed: Duration,
    /// The runners that have not reported, in the order of their names.
    pub missing_peers: Vec<String>,
}

/// Seconds with one decimal, of a span of whole seconds and nanoseconds.
pub uninterp spec fn seconds_text(secs: u64, nanos: u32) -> Seq<char>;

/// The span in seconds with one decimal, as `format!` shows the floating-point number
/// that `std::time::Duration::as_secs_f64` gives.
#[verifier::external_body]
fn seconds_shown(secs: u64, nanos: u32) -> (r: String)
    requires
        nanos < 1_000_000_000,
    ensures
        r@ == seconds_text(secs, nanos),
{
    format!("{:.1}", std::time::Duration::new(secs, nanos).as_secs_f64())
}

impl BarrierTimeoutError {
    /// The text of the error.
    pub open spec fn text(&self) -> Seq<char> {
        "barrier '"@ + self.kind@ + "'"@ + (if self.variant@.len() == 0 {
            Seq::empty()
        } else {
            " for variant '"@ + self.variant@ + "'"@
        }) + " timed out after "@ + seconds_text(
            (self.elapsed.nanos as int / NANOS_PER_SEC as int) as u64,
            (self.elapsed.nanos as int % NANOS_PER_SEC as int) as u32,
        ) + "s waiting for peer(s): "@ + shown_list(texts(self.missing_peers@))
    }

    /// The text of the error.
    pub fn message(&self) -> (r: String)
        requires
            self.elapsed.nanos <= MAX_NANOS,
        ensures
            r@ == self.text(),
    {
        let mut s = "barrier '".to_owned();
        s.append(self.kind);
        s.append("'");
        let ghost start = s@;
        if !self.variant.as_str().is_empty() {
            s.append(" for variant '");
            s.append(self.variant.as_str());
            s.append("'");
        }
        assert(s@ =~= start + (if self.variant@.len() == 0 {
            Seq::empty()
        } else {
            " for variant '"@ + self.variant@ + "'"@
        }));
        s.append(" timed out after ");
        let secs: u64 = (self.elapsed.nanos / NANOS_PER_SEC) as u64;
        let nanos: u32 = (self.elapsed.nanos % NANOS_PER_SEC) as u32;
        s.append(seconds_shown(secs, nanos).as_str());
        s.append("s waiting for peer(s): ");
        s.append(show_list(self.missing_peers.as_slice()).as_str());
        s
    }
}

// ---------------------------------------------------------------------
// The coordinator
// ---------------------------------------------------------------------

/// The runners of a run, as one of them knows them.
#[derive(Debug, PartialEq, Eq)]
struct Group {
    name: String,
    expected: NameSet,
    runners_order: Vec<String>,
    single_runner: bool,
    port: u16,
}

impl Group {
    #[verifier::type_invariant]
    spec fn consistent(&self) -> bool {
        &&& self.port + self.runners_order@.len() <= 0x1_0000
        &&& self.expected@ == name_set(self.runners_order@)
        &&& self.single_runner == (texts(self.runners_order@) == seq![self.name@])
    }
}

/// One runner's side of the coordination.
#[derive(Debug, PartialEq, Eq)]
pub struct Coordinator {
    group: Group,
    config_hash: String,
    run: String,
    proposed_log_subdir: String,
    resume: bool,
    /// The hosts of the runners that are known so far.
    peer_hosts: NameMap<String>,
}

/// What a coordinator is.
pub struct CoordinatorView {
    pub name: Seq<char>,
    /// The runners of the config; the first is the leader.
    pub runners: Seq<Seq<char>>,
    pub config_hash: Seq<char>,
    pub run: Seq<char>,
    pub proposed_log_subdir: Seq<char>,
    pub resume: bool,
    pub port: u16,
    pub hosts: Map<Seq<char>, Seq<char>>,
}

impl CoordinatorView {
    /// The runners that take part.
    pub open spec fn expected(self) -> Set<Seq<char>> {
        self.runners.to_set()
    }

    /// The runner takes part alone.
    pub open spec fn single_runner(self) -> bool {
        self.runners == seq![self.name]
    }

    /// The runner whose log folder all adopt.
    pub open spec fn leader(self) -> Seq<char> {
        self.runners[0]
    }
}

/// Where a message is sent to.
#[derive(Debug, Clone, Copy, PartialEq, Eq, Structural)]
pub enum PeerAddr {
    /// The multicast group of the runners, at this port.
    Multicast(u16),
    /// This machine, at this port.
    Localhost(u16),
}

/// The texts of a map of strings.
pub open spec fn text_map(m: Map<Seq<char>, String>) -> Map<Seq<char>, Seq<char>> {
    m.map_values(|s: String| s@)
}

/// Whether the runner is the only one.
pub fn runs_alone(name: &str, runners: &[String]) -> (r: bool)
    ensures
        r == (texts(runners@) == seq![name@]),
{
    let r = runners.len() == 1 && same(runners[0].as_str(), name);
    proof {
        let t = texts(runners@);
        if r {
            assert(t =~= seq![name@]);
        } else if t == seq![name@] {
            assert(t.len() == 1 && t[0] == name@);
            assert(runners@[0]@ == t[0]);
        }
    }
    r
}

impl Coordinator {
    pub closed spec fn view(&self) -> CoordinatorView {
        CoordinatorView {
            name: self.group.name@,
            runners: texts(self.group.runners_order@),
            config_hash: self.config_hash@,
            run: self.run@,
            proposed_log_subdir: self.proposed_log_subdir@,
            resume: self.resume,
            port: self.group.port,
            hosts: text_map(self.peer_hosts@),
        }
    }

    /// A coordinator that knows only its own host. Each runner has the base port plus
    /// its place among the runners as its own port.
    pub fn new(
        name: String,
        runners: &[String],
        config_hash: String,
        port: u16,
        log_subdir: String,
        run: String,
        resume: bool,
    ) -> (r: Self)
        requires
            port + runners@.len() <= 0x1_0000,
        ensures
            r@ == (CoordinatorView {
                name: name@,
                runners: texts(runners@),
                config_hash: config_hash@,
                run: run@,
                proposed_log_subdir: log_subdir@,
                resume,
                port,
                hosts: Map::empty().insert(name@, "127.0.0.1"@),
            }),
    {
        let mut peer_hosts: NameMap<String> = NameMap::new();
        peer_hosts.insert(name.clone(), "127.0.0.1".to_owned());
        assert(text_map(peer_hosts@) =~= Map::empty().insert(name@, "127.0.0.1"@));
        let single_runner = runs_alone(name.as_str(), runners);
        Coordinator {
            group: Group {
                name,
                expected: NameSet::of(runners),
                runners_order: clone_names(runners),
                single_runner,
                port,
            },
            config_hash,
            run,
            proposed_log_subdir: log_subdir,
            resume,
            peer_hosts,
        }
    }

    /// The hosts that are known so far, by runner.
    pub fn peer_hosts(&self) -> (r: NameMap<String>)
        ensures
            text_map(r@) == self@.hosts,
    {
        let r = self.peer_hosts.clone();
        proof {
            assert forall|k: Seq<char>| self.peer_hosts@.contains_key(k) implies r@[k]@
                == self.peer_hosts@[k]@ by {
                assert(cloned(self.peer_hosts@[k], r@[k]));
            }
            assert(text_map(r@) =~= text_map(self.peer_hosts@));
        }
        r
    }

    /// Whether the runner takes part alone.
    pub fn is_single_runner(&self) -> (r: bool)
        ensures
            r == self@.single_runner(),
    {
        proof {
            use_type_invariant(&self.group);
        }
        self.group.single_runner
    }

    /// An engine to measure the peers' clocks with; none where the runner is alone.
    pub fn clock_sync_engine(&self) -> (r: Option<ClockSyncEngine>)
        ensures
            match r {
                Some(e) => !self@.single_runner() && e.name() == self@.name && e.next() == 1,
                None => self@.single_runner(),
            },
    {
        if self.is_single_runner() {
            None
        } else {
            Some(ClockSyncEngine::new(self.group.name.clone()))
        }
    }

    /// The port of this runner: its own place behind the base port, or the base port
    /// where it is not among the runners.
    pub fn own_port(&self) -> (r: u16)
        ensures
            r == self@.port + (match first_index(self@.runners, self@.name) {
                Some(i) => i,
                None => 0,
            }),
    {
        proof {
            use_type_invariant(&self.group);
        }
        match position_of(self.group.runners_order.as_slice(), self.group.name.as_str()) {
            Some(i) => self.group.port + i as u16,
            None => self.group.port,
        }
    }

    /// Where messages are sent to: for each runner its port at the multicast group and
    /// at this machine.
    pub fn peer_addrs(&self) -> (r: Vec<PeerAddr>)
        ensures
            r@ == Seq::new(
                2 * self@.runners.len(),
                |i: int|
                    if i % 2 == 0 {
                        PeerAddr::Multicast((self@.port + i / 2) as u16)
                    } else {
                        PeerAddr::Localhost((self@.port + i / 2) as u16)
                    },
            ),
    {
        proof {
            use_type_invariant(&self.group);
        }
        let mut r: Vec<PeerAddr> = Vec::new();
        let n: usize = self.group.runners_order.len();
        for i in 0..n
            invariant
                n == self@.runners.len(),
                self@.port + n <= 0x1_0000,
                self@.port == self.group.port,
                r@.len() == 2 * i,
                forall|k: int|
                    0 <= k < 2 * i ==> r@[k] == (if k % 2 == 0 {
                        PeerAddr::Multicast((self@.port + k / 2) as u16)
                    } else {
                        PeerAddr::Localhost((self@.port + k / 2) as u16)
                    }),
        {
            let port: u16 = self.group.port + i as u16;
            r.push(PeerAddr::Multicast(port));
            r.push(PeerAddr::Localhost(port));
        }
        assert(r@ =~= Seq::new(
            2 * self@.runners.len(),
            |i: int|
                if i % 2 == 0 {
                    PeerAddr::Multicast((self@.port + i / 2) as u16)
                } else {
                    PeerAddr::Localhost((self@.port + i / 2) as u16)
                },
        ));
        r
    }

    /// The message that a runner announces itself with.
    pub fn discover_message(&self) -> (r: Message)
        ensures
            match r {
                Message::Discover { name, config_hash, log_subdir, resume } => {
                    &&& name@ == self@.name
                    &&& config_hash@ == self@.config_hash
                    &&& log_subdir@ == self@.proposed_log_subdir
                    &&& resume == self@.resume
                },
                _ => false,
            },
    {
        Message::Discover {
            name: self.group.name.clone(),
            config_hash: self.config_hash.clone(),
            log_subdir: self.proposed_log_subdir.clone(),
            resume: self.resume,
        }
    }

    /// The message that the runner is ready for a spawn.
    pub fn ready_message(&self, variant_name: &str) -> (r: Message)
        ensures
            match r {
                Message::Ready { name, variant, run } => name@ == self@.name && variant@ == variant_name@
                    && run@ == self@.run,
                _ => false,
            },
    {
        Message::Ready {
            name: self.group.name.clone(),
            variant: variant_name.to_owned(),
            run: self.run.clone(),
        }
    }

    /// The message that the runner's spawn has ended.
    pub fn done_message(&self, variant_name: &str, outcome: &str, code: i32) -> (r: Message)
        ensures
            match r {
                Message::Done { name, variant, run, status, exit_code } => {
                    &&& name@ == self@.name
                    &&& variant@ == variant_name@
                    &&& run@ == self@.run
                    &&& status@ == outcome@
                    &&& exit_code == code
                },
                _ => false,
            },
    {
        Message::Done {
            name: self.group.name.clone(),
            variant: variant_name.to_owned(),
            run: self.run.clone(),
            status: outcome.to_owned(),
            exit_code: code,
        }
    }

    /// The message with the jobs that the runner has complete.
    pub fn manifest_message(&self, jobs: &[String]) -> (r: Message)
        ensures
            match r {
                Message::ResumeManifest { name, run, complete_jobs } => name@ == self@.name && run@
                    == self@.run && texts(complete_jobs@) == texts(jobs@),
                _ => false,
            },
    {
        Message::ResumeManifest {
            name: self.group.name.clone(),
            run: self.run.clone(),
            complete_jobs: clone_names(jobs),
        }
    }
}

// ---------------------------------------------------------------------
// Discovery
// ---------------------------------------------------------------------

/// What a runner knows while it looks for the others.
#[derive(Debug, PartialEq, Eq)]
pub struct Discovery {
    seen: NameSet,
    leader_log_subdir: Option<String>,
}

/// What a `Discovery` is.
pub struct DiscoveryView {
    /// The runners that were heard of.
    pub seen: Set<Seq<char>>,
    /// The log folder that the leader proposes, once it is known.
    pub leader_log_subdir: Option<Seq<char>>,
}

impl Discovery {
    pub closed spec fn view(&self) -> DiscoveryView {
        DiscoveryView {
            seen: self.seen@,
            leader_log_subdir: match self.leader_log_subdir {
                Some(s) => Some(s@),
                None => None,
            },
        }
    }

    /// Nothing is known yet.
    pub fn new() -> (r: Self)
        ensures
            r@ == (DiscoveryView { seen: Set::empty(), leader_log_subdir: None }),
    {
        Discovery { seen: NameSet::new(), leader_log_subdir: None }
    }
}

/// Why discovery is given up.
#[derive(Debug, Clone, PartialEq, Eq)]
pub enum DiscoverError {
    /// A runner of the run has another config.
    ConfigHashMismatch { runner: String, expected: String, got: String },
    /// A runner of the run resumes and this one does not, or the other way round.
    ResumeMismatch { runner: String, expected: bool, got: bool },
}

/// What a `DiscoverError` is.
pub enum DiscoverFault {
    ConfigHashMismatch { runner: Seq<char>, expected: Seq<char>, got: Seq<char> },
    ResumeMismatch { runner: Seq<char>, expected: bool, got: bool },
}

/// The eighth byte ends a character, or the text is no longer than that.
pub open spec fn can_shorten(hash: Seq<char>) -> bool {
    encode_utf8(hash).len() <= 8 || is_char_boundary(encode_utf8(hash), 8)
}

/// The first eight bytes, or all where there are fewer.
pub open spec fn short(hash: Seq<char>) -> Seq<char> {
    if encode_utf8(hash).len() <= 8 {
        hash
    } else {
        decode_utf8(encode_utf8(hash).subrange(0, 8))
    }
}

/// A truth value as a word.
pub open spec fn bool_text(b: bool) -> Seq<char> {
    if b {
        "true"@
    } else {
        "false"@
    }
}

impl DiscoverError {
    pub open spec fn view(&self) -> DiscoverFault {
        match self {
            DiscoverError::ConfigHashMismatch { runner, expected, got } => DiscoverFault::ConfigHashMismatch {
                runner: runner@,
                expected: expected@,
                got: got@,
            },
            DiscoverError::ResumeMismatch { runner, expected, got } => DiscoverFault::ResumeMismatch {
                runner: runner@,
                expected: *expected,
                got: *got,
            },
        }
    }

    /// The text of the error.
    pub open spec fn text(&self) -> Seq<char> {
        match self@ {
            DiscoverFault::ConfigHashMismatch { runner, expected, got } =>
                "config hash mismatch from runner '"@ + runner + "': expected "@ + short(expected)
                    + ", got "@ + short(got),
            DiscoverFault::ResumeMismatch { runner, expected, got } =>
                "resume-flag mismatch from runner '"@ + runner + "': expected "@ + bool_text(expected)
                    + ", got "@ + bool_text(got),
        }
    }

    /// The text of the error. Hashes are shown by their first eight bytes, which cut no
    /// character in two; the own hash has at least as many.
    pub fn message(&self) -> (r: String)
        requires
            match self@ {
                DiscoverFault::ConfigHashMismatch { runner, expected, got } => encode_utf8(
                    expected,
                ).len() >= 8 && can_shorten(expected) && can_shorten(got),
                _ => true,
            },
        ensures
            r@ == self.text(),
    {
        match self {
            DiscoverError::ConfigHashMismatch { runner, expected, got } => {
                let mut s = "config hash mismatch from runner '".to_owned();
                s.append(runner.as_str());
                s.append("': expected ");
                s.append(shortened(expected.as_str()).as_str());
                s.append(", got ");
                s.append(shortened(got.as_str()).as_str());
                s
            },
            DiscoverError::ResumeMismatch { runner, expected, got } => {
                let mut s = "resume-flag mismatch from runner '".to_owned();
                s.append(runner.as_str());
                s.append("': expected ");
                s.append(bool_word(*expected));
                s.append(", got ");
                s.append(bool_word(*got));
                s
            },
        }
    }
}

fn bool_word(b: bool) -> (r: &'static str)
    ensures
        r@ == bool_text(b),
{
    if b {
        "true"
    } else {
        "false"
    }
}

fn shortened(hash: &str) -> (r: String)
    requires
        can_shorten(hash@),
    ensures
        r@ == short(hash@),
{
    if hash.as_bytes().len() <= 8 {
        hash.to_owned()
    } else {
        let head = hash.split_at(8).0;
        proof {
            encode_utf8_decode_utf8(head@);
        }
        head.to_owned()
    }
}

/// What happens while a runner looks for the others.
pub enum DiscoverEvent<'a> {
    /// The phase begins.
    Start,
    /// A message came in from a host.
    Received { msg: &'a Message, host: &'a str },
    /// An interval of receiving is over.
    WindowEnd,
}

/// What to do next.
pub enum DiscoverStep {
    /// Broadcast the announcement and receive for an interval.
    Send,
    /// Go on receiving.
    Wait,
    /// Answer a probe and go on receiving.
    Reply(ProbeReply),
    /// All runners are known, and this is the log folder of the leader.
    Finish(String),
    /// Give up.
    Fail(DiscoverError),
}

/// The runner that a message shows to be there.
pub open spec fn sender(msg: Message) -> Option<Seq<char>> {
    match msg {
        Message::Discover { name, config_hash, log_subdir, resume } => Some(name@),
        Message::ResumeManifest { name, run, complete_jobs } => Some(name@),
        Message::Ready { name, variant, run } => Some(name@),
        Message::Done { name, variant, run, status, exit_code } => Some(name@),
        _ => None,
    }
}

/// Why a message ends discovery, if it does: it announces a runner of the run with
/// another config or another resume flag.
pub open spec fn discover_fault(c: CoordinatorView, msg: Message) -> Option<DiscoverFault> {
    match msg {
        Message::Discover { name, config_hash, log_subdir, resume } => if !c.expected().contains(name@) {
            None
        } else if config_hash@ != c.config_hash {
            Some(
                DiscoverFault::ConfigHashMismatch {
                    runner: name@,
                    expected: c.config_hash,
                    got: config_hash@,
                },
            )
        } else if resume != c.resume {
            Some(DiscoverFault::ResumeMismatch { runner: name@, expected: c.resume, got: resume })
        } else {
            None
        },
        _ => None,
    }
}

/// The log folder that the message says the leader proposes.
pub open spec fn leader_proposal(c: CoordinatorView, msg: Message) -> Option<Seq<char>> {
    match msg {
        Message::Discover { name, config_hash, log_subdir, resume } => if name@ == c.leader() {
            Some(log_subdir@)
        } else {
            None
        },
        _ => None,
    }
}

/// What is known after a message that does not end discovery. The first proposal of the
/// leader stands.
pub open spec fn discovery_after(c: CoordinatorView, d: DiscoveryView, msg: Message) -> DiscoveryView {
    DiscoveryView {
        seen: match sender(msg) {
            Some(n) => if c.expected().contains(n) {
                d.seen.insert(n)
            } else {
                d.seen
            },
            None => d.seen,
        },
        leader_log_subdir: match d.leader_log_subdir {
            Some(s) => Some(s),
            None => leader_proposal(c, msg),
        },
    }
}

/// The hosts that are known after a message from `host`. The first host of a runner
/// stands, and so does the runner's own.
pub open spec fn hosts_after(c: CoordinatorView, msg: Message, host: Seq<char>) -> Map<Seq<char>, Seq<char>> {
    match sender(msg) {
        Some(n) => if c.expected().contains(n) && n != c.name && !c.hosts.contains_key(n) {
            c.hosts.insert(n, host)
        } else {
            c.hosts
        },
        None => c.hosts,
    }
}

/// What is known when discovery begins.
pub open spec fn discovery_start(c: CoordinatorView) -> DiscoveryView {
    DiscoveryView {
        seen: Set::empty().insert(c.name),
        leader_log_subdir: if c.leader() == c.name {
            Some(c.proposed_log_subdir)
        } else {
            None
        },
    }
}

/// All runners were heard of and their hosts are known.
pub open spec fn discovery_complete(c: CoordinatorView, d: DiscoveryView) -> bool {
    d.seen == c.expected() && (forall|n: Seq<char>| #[trigger]
        c.expected().contains(n) ==> c.hosts.contains_key(n))
}

/// The coordinator with other hosts.
pub open spec fn with_hosts(c: CoordinatorView, hosts: Map<Seq<char>, Seq<char>>) -> CoordinatorView {
    CoordinatorView { hosts, ..c }
}

/// One step of discovery.
pub open spec fn discover_step(
    before: CoordinatorView,
    after: CoordinatorView,
    d: DiscoveryView,
    e: DiscoveryView,
    event: DiscoverEvent<'_>,
    r: DiscoverStep,
) -> bool {
    match event {
        DiscoverEvent::Start => {
            &&& after == before
            &&& e == discovery_start(before)
            &&& if before.single_runner() {
                r is Finish && r->Finish_0@ == before.proposed_log_subdir
            } else {
                r is Send
            }
        },
        DiscoverEvent::Received { msg, host } => match discover_fault(before, *msg) {
            Some(fault) => after == before && e == d && r is Fail && r->Fail_0@ == fault,
            None => {
                &&& after == with_hosts(before, hosts_after(before, *msg, host@))
                &&& e == discovery_after(before, d, *msg)
                &&& if is_probe_for(before.name, *msg) {
                    r is Reply && answers_probe(before.name, *msg, r->Reply_0)
                } else {
                    r is Wait
                }
            },
        },
        DiscoverEvent::WindowEnd => {
            &&& after == before
            &&& e == d
            &&& if discovery_complete(before, d) && d.leader_log_subdir is Some {
                r is Finish && r->Finish_0@ == d.leader_log_subdir->0
            } else {
                r is Send
            }
        },
    }
}

impl Coordinator {
    fn hosts_known(&self) -> (r: bool)
        ensures
            r == (forall|n: Seq<char>| #[trigger]
                self@.expected().contains(n) ==> self@.hosts.contains_key(n)),
    {
        let names = &self.group.runners_order;
        let ghost t = texts(names@);
        for i in 0..names.len()
            invariant
                t == texts(names@),
                *names == self.group.runners_order,
                forall|j: int| 0 <= j < i ==> self@.hosts.contains_key(#[trigger] t[j]),
        {
            assert(t[i as int] == names@[i as int]@);
            if !self.peer_hosts.contains_key(names[i].as_str()) {
                proof {
                    assert(self@.expected().contains(t[i as int]));
                    assert(!self@.hosts.contains_key(t[i as int]));
                }
                return false;
            }
        }
        proof {
            assert forall|n: Seq<char>| #[trigger] self@.expected().contains(n) implies self@.hosts.contains_key(
                n,
            ) by {
                let j = choose|j: int| 0 <= j < t.len() && t[j] == n;
                assert(self@.hosts.contains_key(t[j]));
            }
        }
        true
    }

    fn note_sender(&mut self, state: &mut Discovery, name: &String, host: &str)
        ensures
            ({
                let c = old(self)@;
                &&& final(self)@ == with_hosts(
                    c,
                    if c.expected().contains(name@) && name@ != c.name && !c.hosts.contains_key(name@) {
                        c.hosts.insert(name@, host@)
                    } else {
                        c.hosts
                    },
                )
                &&& final(state)@ == (DiscoveryView {
                    seen: if c.expected().contains(name@) {
                        old(state)@.seen.insert(name@)
                    } else {
                        old(state)@.seen
                    },
                    leader_log_subdir: old(state)@.leader_log_subdir,
                })
            }),
    {
        proof {
            use_type_invariant(&self.group);
        }
        if self.group.expected.contains(name.as_str()) {
            state.seen.insert(name.clone());
            if !same(name.as_str(), self.group.name.as_str()) {
                let ghost before = self.peer_hosts@;
                self.peer_hosts.insert_new(name.clone(), host.to_owned());
                assert(text_map(self.peer_hosts@) =~= (if before.contains_key(name@) {
                    text_map(before)
                } else {
                    text_map(before).insert(name@, host@)
                }));
            }
        }
    }

    fn announcement_fault(
        &self,
        name: &String,
        config_hash: &String,
        resume: bool,
    ) -> (r: Option<DiscoverError>)
        ensures
            ({
                let c = self@;
                match r {
                    None => !c.expected().contains(name@) || (config_hash@ == c.config_hash && resume
                        == c.resume),
                    Some(e) => c.expected().contains(name@) && e@ == (if config_hash@ != c.config_hash {
                        DiscoverFault::ConfigHashMismatch {
                            runner: name@,
                            expected: c.config_hash,
                            got: config_hash@,
                        }
                    } else {
                        DiscoverFault::ResumeMismatch { runner: name@, expected: c.resume, got: resume }
                    }) && (config_hash@ != c.config_hash || resume != c.resume),
                }
            }),
    {
        proof {
            use_type_invariant(&self.group);
        }
        if !self.group.expected.contains(name.as_str()) {
            None
        } else if !same(config_hash.as_str(), self.config_hash.as_str()) {
            Some(
                DiscoverError::ConfigHashMismatch {
                    runner: name.clone(),
                    expected: self.config_hash.clone(),
                    got: config_hash.clone(),
                },
            )
        } else if resume != self.resume {
            Some(
                DiscoverError::ResumeMismatch { runner: name.clone(), expected: self.resume, got: resume },
            )
        } else {
            None
        }
    }

    /// One step of discovery: announce until every runner was heard of, its host is known
    /// and the leader has announced its log folder, give up where a runner has another config or another resume flag, and
    /// adopt the log folder of the leader.
    pub fn discover(&mut self, state: &mut Discovery, event: DiscoverEvent<'_>) -> (r: DiscoverStep)
        requires
            old(self)@.runners.len() > 0,
        ensures
            discover_step(old(self)@, final(self)@, old(state)@, final(state)@, event, r),
    {
        proof {
            use_type_invariant(&self.group);
        }
        match event {
            DiscoverEvent::Start => {
                let mut seen = NameSet::new();
                seen.insert(self.group.name.clone());
                let leads = same(self.group.runners_order[0].as_str(), self.group.name.as_str());
                assert(self@.leader() == self.group.runners_order@[0]@);
                state.seen = seen;
                state.leader_log_subdir = if leads {
                    Some(self.proposed_log_subdir.clone())
                } else {
                    None
                };
                if self.group.single_runner {
                    DiscoverStep::Finish(self.proposed_log_subdir.clone())
                } else {
                    DiscoverStep::Send
                }
            },
            DiscoverEvent::Received { msg, host } => {
                match msg {
                    Message::Discover { name, config_hash, log_subdir, resume } => {
                        match self.announcement_fault(name, config_hash, *resume) {
                            Some(e) => return DiscoverStep::Fail(e),
                            None => {},
                        }
                        assert(self@.leader() == self.group.runners_order@[0]@);
                        if same(name.as_str(), self.group.runners_order[0].as_str())
                            && state.leader_log_subdir.is_none() {
                            state.leader_log_subdir = Some(log_subdir.clone());
                        }
                        self.note_sender(state, name, host);
                    },
                    Message::ResumeManifest { name, run, complete_jobs } => {
                        self.note_sender(state, name, host);
                    },
                    Message::Ready { name, variant, run } => {
                        self.note_sender(state, name, host);
                    },
                    Message::Done { name, variant, run, status, exit_code } => {
                        self.note_sender(state, name, host);
                    },
                    _ => {},
                }
                assert(self@.name == old(self)@.name);
                match probe_reply(self.group.name.as_str(), msg) {
                    Some(reply) => DiscoverStep::Reply(reply),
                    None => DiscoverStep::Wait,
                }
            },
            DiscoverEvent::WindowEnd => {
                if state.seen.equals(&self.group.expected) && self.hosts_known() {
                    match &state.leader_log_subdir {
                        Some(s) => DiscoverStep::Finish(s.clone()),
                        None => DiscoverStep::Send,
                    }
                } else {
                    DiscoverStep::Send
                }
            },
        }
    }
}

/// What is known after discovery began and these messages came in, each from its host.
pub open spec fn discovered(
    c: CoordinatorView,
    msgs: Seq<(Message, Seq<char>)>,
) -> (CoordinatorView, DiscoveryView)
    decreases msgs.len(),
{
    if msgs.len() == 0 {
        (c, discovery_start(c))
    } else {
        let (before, d) = discovered(c, msgs.drop_last());
        let (msg, host) = msgs.last();
        (with_hosts(before, hosts_after(before, msg, host)), discovery_after(before, d, msg))
    }
}

proof fn discovered_keeps_identity(c: CoordinatorView, msgs: Seq<(Message, Seq<char>)>)
    ensures
        discovered(c, msgs).0 == with_hosts(c, discovered(c, msgs).0.hosts),
    decreases msgs.len(),
{
    if msgs.len() > 0 {
        discovered_keeps_identity(c, msgs.drop_last());
    }
}

/// The log folder that discovery ends with is the leader's: its own proposal on the
/// leader, and on every other runner one that the leader announced.
pub proof fn folder_is_the_leaders(c: CoordinatorView, msgs: Seq<(Message, Seq<char>)>, folder: Seq<char>)
    requires
        discovered(c, msgs).1.leader_log_subdir == Some(folder),
    ensures
        c.leader() == c.name ==> folder == c.proposed_log_subdir,
        c.leader() != c.name ==> exists|i: int|
            0 <= i < msgs.len() && #[trigger] leader_proposal(c, msgs[i].0) == Some(folder),
    decreases msgs.len(),
{
    if msgs.len() > 0 {
        let t = msgs.drop_last();
        let (before, d) = discovered(c, t);
        discovered_keeps_identity(c, t);
        match d.leader_log_subdir {
            Some(s) => {
                folder_is_the_leaders(c, t, folder);
                if c.leader() != c.name {
                    let i = choose|i: int|
                        0 <= i < t.len() && #[trigger] leader_proposal(c, t[i].0) == Some(folder);
                    assert(leader_proposal(c, msgs[i].0) == Some(folder));
                }
            },
            None => {
                assert(leader_proposal(before, msgs.last().0) == leader_proposal(c, msgs.last().0));
                assert(leader_proposal(c, msgs[msgs.len() - 1].0) == Some(folder));
                if c.leader() == c.name {
                    leader_knows_its_folder(c, t);
                }
            },
        }
    }
}

proof fn leader_knows_its_folder(c: CoordinatorView, msgs: Seq<(Message, Seq<char>)>)
    requires
        c.leader() == c.name,
    ensures
        discovered(c, msgs).1.leader_log_subdir == Some(c.proposed_log_subdir),
    decreases msgs.len(),
{
    if msgs.len() > 0 {
        leader_knows_its_folder(c, msgs.drop_last());
    }
}

/// While discovery lasts, only runners of the run and the runner itself are counted, and
/// a host that is known stays; the runner's own does in particular.
pub proof fn discovery_keeps_what_it_knows(
    c: CoordinatorView,
    msgs: Seq<(Message, Seq<char>)>,
    runner: Seq<char>,
)
    ensures
        discovered(c, msgs).1.seen.contains(runner) ==> runner == c.name || c.expected().contains(runner),
        c.hosts.contains_key(runner) ==> discovered(c, msgs).0.hosts.contains_key(runner)
            && discovered(c, msgs).0.hosts[runner] == c.hosts[runner],
    decreases msgs.len(),
{
    if msgs.len() > 0 {
        discovery_keeps_what_it_knows(c, msgs.drop_last(), runner);
        discovered_keeps_identity(c, msgs.drop_last());
    }
}

/// A runner of the run that has another config or another resume flag is never taken
/// in: its announcement ends discovery.
pub proof fn mismatch_is_never_passed_over(c: CoordinatorView, msg: Message)
    requires
        match msg {
            Message::Discover { name, config_hash, log_subdir, resume } => c.expected().contains(name@) && (
            config_hash@ != c.config_hash || resume != c.resume),
            _ => false,
        },
    ensures
        discover_fault(c, msg) is Some,
{
}

// ---------------------------------------------------------------------
// Barriers
// ---------------------------------------------------------------------

/// How often a phase's message is broadcast.
pub const BROADCAST_INTERVAL_NANOS: u128 = 500_000_000;

/// How long to receive after a broadcast, so long after the barrier began: an interval,
/// but not past the barrier's deadline.
pub fn receive_window(elapsed: Duration, timeout: Duration) -> (r: Duration)
    ensures
        r.nanos == (if timeout.nanos <= elapsed.nanos {
            0
        } else if timeout.nanos - elapsed.nanos < BROADCAST_INTERVAL_NANOS {
            timeout.nanos - elapsed.nanos
        } else {
            BROADCAST_INTERVAL_NANOS as int
        }),
{
    let left = timeout.saturating_sub(elapsed);
    if left.nanos < BROADCAST_INTERVAL_NANOS {
        left
    } else {
        Duration { nanos: BROADCAST_INTERVAL_NANOS }
    }
}

/// Whether a runner that got through a phase so long ago broadcasts once more, so that
/// slower peers get through too.
pub fn linger_step(elapsed: Duration) -> (r: bool)
    ensures
        r == (elapsed.nanos < 2 * NANOS_PER_SEC),
{
    elapsed.nanos < 2 * NANOS_PER_SEC
}

/// What happens at a barrier.
pub enum BarrierEvent<'a> {
    /// The barrier begins.
    Start,
    /// A message came in.
    Received(&'a Message),
    /// An interval of receiving is over, so long after the barrier began.
    WindowEnd { elapsed: Duration },
}

/// What to do next.
pub enum BarrierStep {
    /// Broadcast the barrier's message and receive for an interval.
    Send,
    /// Go on receiving.
    Wait,
    /// Answer a probe and go on receiving.
    Reply(ProbeReply),
    /// The barrier is reached.
    Finish,
    /// The barrier was not reached in time.
    TimedOut(BarrierTimeoutError),
}

/// The step after a message: probes that are addressed to the runner are answered.
pub open spec fn step_after_message(c: CoordinatorView, msg: Message, r: BarrierStep) -> bool {
    if is_probe_for(c.name, msg) {
        r is Reply && answers_probe(c.name, msg, r->Reply_0)
    } else {
        r is Wait
    }
}

/// The step at the end of an interval.
pub open spec fn step_after_window(
    complete: bool,
    kind: Seq<char>,
    variant: Seq<char>,
    missing: Set<Seq<char>>,
    elapsed: Duration,
    timeout: Duration,
    r: BarrierStep,
) -> bool {
    if complete {
        r is Finish
    } else if elapsed.nanos >= timeout.nanos {
        &&& r is TimedOut
        &&& r->TimedOut_0.kind@ == kind
        &&& r->TimedOut_0.variant@ == variant
        &&& r->TimedOut_0.elapsed == elapsed
        &&& texts(r->TimedOut_0.missing_peers@) == listing(missing)
    } else {
        r is Send
    }
}

/// The runner that a message says is ready for this spawn of this run.
pub open spec fn ready_from(c: CoordinatorView, variant_name: Seq<char>, msg: Message) -> Option<Seq<char>> {
    match msg {
        Message::Ready { name, variant, run } => if variant@ == variant_name && run@ == c.run
            && c.expected().contains(name@) {
            Some(name@)
        } else {
            None
        },
        _ => None,
    }
}

/// The runners that are ready after a message.
pub open spec fn ready_after(
    c: CoordinatorView,
    variant_name: Seq<char>,
    seen: Set<Seq<char>>,
    msg: Message,
) -> Set<Seq<char>> {
    match ready_from(c, variant_name, msg) {
        Some(n) => seen.insert(n),
        None => seen,
    }
}

/// A runner's outcome of a spawn.
pub type Outcome = (Seq<char>, i32);

/// The outcome that a message reports of this spawn of this run.
pub open spec fn done_from(
    c: CoordinatorView,
    variant_name: Seq<char>,
    msg: Message,
) -> Option<(Seq<char>, Outcome)> {
    match msg {
        Message::Done { name, variant, run, status, exit_code } => if variant@ == variant_name && run@ == c.run
            && c.expected().contains(name@) {
            Some((name@, (status@, exit_code)))
        } else {
            None
        },
        _ => None,
    }
}

/// The outcomes that are known after a message; a later report takes the place of an
/// earlier one.
pub open spec fn done_after(
    c: CoordinatorView,
    variant_name: Seq<char>,
    results: Map<Seq<char>, Outcome>,
    msg: Message,
) -> Map<Seq<char>, Outcome> {
    match done_from(c, variant_name, msg) {
        Some((n, outcome)) => results.insert(n, outcome),
        None => results,
    }
}

/// The outcomes, by runner.
pub open spec fn outcomes(m: NameMap<(String, i32)>) -> Map<Seq<char>, Outcome> {
    m@.map_values(|o: (String, i32)| (o.0@, o.1))
}

/// The jobs, by runner.
pub open spec fn manifests(m: NameMap<Vec<String>>) -> Map<Seq<char>, Seq<Seq<char>>> {
    m@.map_values(|v: Vec<String>| texts(v@))
}

/// The jobs that a message reports of this run.
pub open spec fn manifest_from(c: CoordinatorView, msg: Message) -> Option<(Seq<char>, Seq<Seq<char>>)> {
    match msg {
        Message::ResumeManifest { name, run, complete_jobs } => if run@ == c.run && c.expected().contains(
            name@,
        ) {
            Some((name@, texts(complete_jobs@)))
        } else {
            None
        },
        _ => None,
    }
}

/// The manifests that are known after a message; the first report of a runner stands.
pub open spec fn manifests_after(
    c: CoordinatorView,
    all: Map<Seq<char>, Seq<Seq<char>>>,
    msg: Message,
) -> Map<Seq<char>, Seq<Seq<char>>> {
    match manifest_from(c, msg) {
        Some((n, jobs)) => if all.contains_key(n) {
            all
        } else {
            all.insert(n, jobs)
        },
        None => all,
    }
}

/// One step of the barrier before a spawn: `seen` and `after` are the runners that are
/// ready before it and after it.
pub open spec fn ready_step(
    c: CoordinatorView,
    variant_name: Seq<char>,
    timeout: Duration,
    seen: Set<Seq<char>>,
    after: Set<Seq<char>>,
    event: BarrierEvent<'_>,
    r: BarrierStep,
) -> bool {
    match event {
        BarrierEvent::Start => {
            &&& after == Set::empty().insert(c.name)
            &&& if c.single_runner() {
                r is Finish
            } else {
                r is Send
            }
        },
        BarrierEvent::Received(msg) => {
            &&& after == ready_after(c, variant_name, seen, *msg)
            &&& step_after_message(c, *msg, r)
        },
        BarrierEvent::WindowEnd { elapsed } => {
            &&& after == seen
            &&& step_after_window(
                seen == c.expected(),
                "ready"@,
                variant_name,
                c.expected().difference(seen),
                elapsed,
                timeout,
                r,
            )
        },
    }
}

/// One step of the barrier after a spawn: `results` and `after` are the outcomes that are
/// known before it and after it, `own` is this runner's.
pub open spec fn done_step(
    c: CoordinatorView,
    variant_name: Seq<char>,
    own: Outcome,
    timeout: Duration,
    results: Map<Seq<char>, Outcome>,
    after: Map<Seq<char>, Outcome>,
    event: BarrierEvent<'_>,
    r: BarrierStep,
) -> bool {
    match event {
        BarrierEvent::Start => {
            &&& after == Map::empty().insert(c.name, own)
            &&& if c.single_runner() {
                r is Finish
            } else {
                r is Send
            }
        },
        BarrierEvent::Received(msg) => {
            &&& after == done_after(c, variant_name, results, *msg)
            &&& step_after_message(c, *msg, r)
        },
        BarrierEvent::WindowEnd { elapsed } => {
            &&& after == results
            &&& step_after_window(
                results.dom().len() == c.expected().len(),
                "done"@,
                variant_name,
                c.expected().difference(results.dom()),
                elapsed,
                timeout,
                r,
            )
        },
    }
}

/// One step of the exchange of manifests: `all` and `after` are the manifests that are
/// known before it and after it, `own` is this runner's.
pub open spec fn manifest_step(
    c: CoordinatorView,
    own: Seq<Seq<char>>,
    timeout: Duration,
    all: Map<Seq<char>, Seq<Seq<char>>>,
    after: Map<Seq<char>, Seq<Seq<char>>>,
    event: BarrierEvent<'_>,
    r: BarrierStep,
) -> bool {
    match event {
        BarrierEvent::Start => {
            &&& after == Map::empty().insert(c.name, own)
            &&& if c.single_runner() {
                r is Finish
            } else {
                r is Send
            }
        },
        BarrierEvent::Received(msg) => {
            &&& after == manifests_after(c, all, *msg)
            &&& step_after_message(c, *msg, r)
        },
        BarrierEvent::WindowEnd { elapsed } => {
            &&& after == all
            &&& step_after_window(
                all.dom().len() == c.expected().len(),
                "resume_manifest"@,
                Seq::empty(),
                c.expected().difference(all.dom()),
                elapsed,
                timeout,
                r,
            )
        },
    }
}

impl Coordinator {
    fn reply_or_wait(&self, msg: &Message) -> (r: BarrierStep)
        ensures
            step_after_message(self@, *msg, r),
    {
        match probe_reply(self.group.name.as_str(), msg) {
            Some(reply) => BarrierStep::Reply(reply),
            None => BarrierStep::Wait,
        }
    }

    fn missing(&self, present: &NameSet) -> (r: Vec<String>)
        ensures
            texts(r@) == listing(self@.expected().difference(present@)),
    {
        proof {
            use_type_invariant(&self.group);
        }
        let mut set = self.group.expected.clone();
        let names = present.to_vec();
        let ghost t = texts(names@);
        let ghost all = self@.expected();
        assert(set@ =~= all.difference(t.take(0).to_set()));
        for i in 0..names.len()
            invariant
                t == texts(names@),
                set@ == all.difference(t.take(i as int).to_set()),
        {
            set.remove(names[i].as_str());
            proof {
                assert(t.take(i + 1) =~= t.take(i as int).push(t[i as int]));
                crate::names::to_set_push(t.take(i as int), t[i as int]);
                assert(set@ =~= all.difference(t.take(i + 1).to_set()));
            }
        }
        assert(t.take(t.len() as int) =~= t);
        set.to_vec()
    }

    fn window_end(
        &self,
        complete: bool,
        kind: &'static str,
        variant: &str,
        present: &NameSet,
        elapsed: Duration,
        timeout: Duration,
    ) -> (r: BarrierStep)
        ensures
            step_after_window(
                complete,
                kind@,
                variant@,
                self@.expected().difference(present@),
                elapsed,
                timeout,
                r,
            ),
    {
        if complete {
            BarrierStep::Finish
        } else if elapsed.nanos >= timeout.nanos {
            BarrierStep::TimedOut(
                BarrierTimeoutError {
                    kind,
                    variant: variant.to_owned(),
                    elapsed,
                    missing_peers: self.missing(present),
                },
            )
        } else {
            BarrierStep::Send
        }
    }

    /// One step of the barrier before a spawn. `seen` holds the runners that are ready;
    /// the barrier is reached when all are, and at once where the runner is alone.
    pub fn ready_barrier(
        &self,
        variant_name: &str,
        timeout: Duration,
        seen: &mut NameSet,
        event: BarrierEvent<'_>,
    ) -> (r: BarrierStep)
        ensures
            ready_step(self@, variant_name@, timeout, old(seen)@, final(seen)@, event, r),
    {
        proof {
            use_type_invariant(&self.group);
        }
        match event {
            BarrierEvent::Start => {
                let mut fresh = NameSet::new();
                fresh.insert(self.group.name.clone());
                *seen = fresh;
                if self.group.single_runner {
                    BarrierStep::Finish
                } else {
                    BarrierStep::Send
                }
            },
            BarrierEvent::Received(msg) => {
                match msg {
                    Message::Ready { name, variant, run } => {
                        if same(variant.as_str(), variant_name) && same(run.as_str(), self.run.as_str())
                            && self.group.expected.contains(name.as_str()) {
                            seen.insert(name.clone());
                        }
                    },
                    _ => {},
                }
                self.reply_or_wait(msg)
            },
            BarrierEvent::WindowEnd { elapsed } => {
                let complete = seen.equals(&self.group.expected);
                self.window_end(complete, "ready", variant_name, seen, elapsed, timeout)
            },
        }
    }

    /// One step of the barrier after a spawn. `results` holds the outcomes that are
    /// known, this runner's from the start; the barrier is reached when there are as many
    /// as runners, and at once where the runner is alone.
    pub fn done_barrier(
        &self,
        variant_name: &str,
        status: &str,
        exit_code: i32,
        timeout: Duration,
        results: &mut NameMap<(String, i32)>,
        event: BarrierEvent<'_>,
    ) -> (r: BarrierStep)
        ensures
            done_step(
                self@,
                variant_name@,
                (status@, exit_code),
                timeout,
                outcomes(*old(results)),
                outcomes(*final(results)),
                event,
                r,
            ),
    {
        proof {
            use_type_invariant(&self.group);
        }
        match event {
            BarrierEvent::Start => {
                let mut fresh: NameMap<(String, i32)> = NameMap::new();
                fresh.insert(self.group.name.clone(), (status.to_owned(), exit_code));
                assert(outcomes(fresh) =~= Map::empty().insert(self@.name, (status@, exit_code)));
                *results = fresh;
                if self.group.single_runner {
                    BarrierStep::Finish
                } else {
                    BarrierStep::Send
                }
            },
            BarrierEvent::Received(msg) => {
                match msg {
                    Message::Done { name, variant, run, status: s, exit_code: code } => {
                        if same(variant.as_str(), variant_name) && same(run.as_str(), self.run.as_str())
                            && self.group.expected.contains(name.as_str()) {
                            let ghost before = outcomes(*results);
                            results.insert(name.clone(), (s.clone(), *code));
                            assert(outcomes(*results) =~= before.insert(name@, (s@, *code)));
                        }
                    },
                    _ => {},
                }
                self.reply_or_wait(msg)
            },
            BarrierEvent::WindowEnd { elapsed } => {
                let complete = results.len() == self.group.expected.len();
                let names = results.keys();
                let present = NameSet::of(names.as_slice());
                assert(outcomes(*results).dom() =~= results@.dom());
                self.window_end(complete, "done", variant_name, &present, elapsed, timeout)
            },
        }
    }

    /// One step of the exchange of manifests. `all` holds the manifests that are known,
    /// this runner's from the start; the exchange is over when there are as many as
    /// runners, and at once where the runner is alone.
    pub fn exchange_resume_manifest(
        &self,
        local_complete_jobs: &[String],
        timeout: Duration,
        all: &mut NameMap<Vec<String>>,
        event: BarrierEvent<'_>,
    ) -> (r: BarrierStep)
        ensures
            manifest_step(
                self@,
                texts(local_complete_jobs@),
                timeout,
                manifests(*old(all)),
                manifests(*final(all)),
                event,
                r,
            ),
    {
        proof {
            use_type_invariant(&self.group);
        }
        match event {
            BarrierEvent::Start => {
                let mut fresh: NameMap<Vec<String>> = NameMap::new();
                fresh.insert(self.group.name.clone(), clone_names(local_complete_jobs));
                assert(manifests(fresh) =~= Map::empty().insert(self@.name, texts(local_complete_jobs@)));
                *all = fresh;
                if self.group.single_runner {
                    BarrierStep::Finish
                } else {
                    BarrierStep::Send
                }
            },
            BarrierEvent::Received(msg) => {
                match msg {
                    Message::ResumeManifest { name, run, complete_jobs } => {
                        if same(run.as_str(), self.run.as_str()) && self.group.expected.contains(
                            name.as_str(),
                        ) {
                            let ghost before = manifests(*all);
                            let jobs = clone_names(complete_jobs.as_slice());
                            all.insert_new(name.clone(), jobs);
                            assert(manifests(*all) =~= (if before.contains_key(name@) {
                                before
                            } else {
                                before.insert(name@, texts(complete_jobs@))
                            }));
                        }
                    },
                    _ => {},
                }
                self.reply_or_wait(msg)
            },
            BarrierEvent::WindowEnd { elapsed } => {
                let complete = all.len() == self.group.expected.len();
                let names = all.keys();
                let present = NameSet::of(names.as_slice());
                assert(manifests(*all).dom() =~= all@.dom());
                proof {
                    reveal_strlit("");
                    assert(""@ =~= Seq::<char>::empty());
                }
                self.window_end(complete, "resume_manifest", "", &present, elapsed, timeout)
            },
        }
    }
}

// ---------------------------------------------------------------------
// Laws of the barriers
// ---------------------------------------------------------------------

/// The runners that are ready after the barrier began and these messages came in.
pub open spec fn ready_runners(c: CoordinatorView, variant_name: Seq<char>, msgs: Seq<Message>) -> Set<Seq<char>>
    decreases msgs.len(),
{
    if msgs.len() == 0 {
        Set::empty().insert(c.name)
    } else {
        ready_after(c, variant_name, ready_runners(c, variant_name, msgs.drop_last()), msgs.last())
    }
}

/// The outcomes that are known after the barrier began and these messages came in.
pub open spec fn known_outcomes(
    c: CoordinatorView,
    variant_name: Seq<char>,
    own: Outcome,
    msgs: Seq<Message>,
) -> Map<Seq<char>, Outcome>
    decreases msgs.len(),
{
    if msgs.len() == 0 {
        Map::empty().insert(c.name, own)
    } else {
        done_after(c, variant_name, known_outcomes(c, variant_name, own, msgs.drop_last()), msgs.last())
    }
}

/// The manifests that are known after the exchange began and these messages came in.
pub open spec fn known_manifests(
    c: CoordinatorView,
    own: Seq<Seq<char>>,
    msgs: Seq<Message>,
) -> Map<Seq<char>, Seq<Seq<char>>>
    decreases msgs.len(),
{
    if msgs.len() == 0 {
        Map::empty().insert(c.name, own)
    } else {
        manifests_after(c, known_manifests(c, own, msgs.drop_last()), msgs.last())
    }
}

/// A runner counts as ready just where it is this one or has said so for this spawn of
/// this run. So the barrier is reached only after every other runner has said so.
pub proof fn ready_means_signalled(
    c: CoordinatorView,
    variant_name: Seq<char>,
    msgs: Seq<Message>,
    runner: Seq<char>,
)
    ensures
        ready_runners(c, variant_name, msgs).contains(runner) <==> runner == c.name || exists|i: int|
            0 <= i < msgs.len() && #[trigger] ready_from(c, variant_name, msgs[i]) == Some(runner),
    decreases msgs.len(),
{
    if msgs.len() > 0 {
        let t = msgs.drop_last();
        ready_means_signalled(c, variant_name, t, runner);
        if ready_runners(c, variant_name, t).contains(runner) && runner != c.name {
            let i = choose|i: int|
                0 <= i < t.len() && #[trigger] ready_from(c, variant_name, t[i]) == Some(runner);
            assert(ready_from(c, variant_name, msgs[i]) == Some(runner));
        }
        if ready_from(c, variant_name, msgs.last()) == Some(runner) {
            assert(ready_from(c, variant_name, msgs[msgs.len() - 1]) == Some(runner));
        }
        if exists|i: int|
            0 <= i < msgs.len() && #[trigger] ready_from(c, variant_name, msgs[i]) == Some(runner) {
            let i = choose|i: int|
                0 <= i < msgs.len() && #[trigger] ready_from(c, variant_name, msgs[i]) == Some(runner);
            if i < t.len() {
                assert(ready_from(c, variant_name, t[i]) == Some(runner));
            }
        }
    }
}

/// A message of another run, of another spawn or of a runner outside the run changes
/// nothing at a barrier.
pub proof fn stale_message_changes_nothing(
    c: CoordinatorView,
    variant_name: Seq<char>,
    seen: Set<Seq<char>>,
    results: Map<Seq<char>, Outcome>,
    all: Map<Seq<char>, Seq<Seq<char>>>,
    msg: Message,
)
    requires
        match msg {
            Message::Ready { name, variant, run } => run@ != c.run || variant@ != variant_name
                || !c.expected().contains(name@),
            Message::Done { name, variant, run, status, exit_code } => run@ != c.run || variant@
                != variant_name || !c.expected().contains(name@),
            Message::ResumeManifest { name, run, complete_jobs } => run@ != c.run || !c.expected().contains(
                name@,
            ),
            _ => true,
        },
    ensures
        ready_after(c, variant_name, seen, msg) == seen,
        done_after(c, variant_name, results, msg) == results,
        manifests_after(c, all, msg) == all,
{
}

proof fn outcomes_are_of_runners(
    c: CoordinatorView,
    variant_name: Seq<char>,
    own: Outcome,
    msgs: Seq<Message>,
)
    requires
        c.expected().contains(c.name),
    ensures
        known_outcomes(c, variant_name, own, msgs).dom().subset_of(c.expected()),
    decreases msgs.len(),
{
    if msgs.len() > 0 {
        outcomes_are_of_runners(c, variant_name, own, msgs.drop_last());
    }
}

/// Counting the outcomes is enough: there are as many as runners just where every runner
/// has one.
pub proof fn count_of_outcomes_is_exact(
    c: CoordinatorView,
    variant_name: Seq<char>,
    own: Outcome,
    msgs: Seq<Message>,
)
    requires
        c.expected().contains(c.name),
    ensures
        known_outcomes(c, variant_name, own, msgs).dom().len() == c.expected().len() <==> known_outcomes(
            c,
            variant_name,
            own,
            msgs,
        ).dom() == c.expected(),
{
    outcomes_are_of_runners(c, variant_name, own, msgs);
    c.runners.lemma_cardinality_of_set();
    same_size_subset_is_all(known_outcomes(c, variant_name, own, msgs).dom(), c.expected());
}

proof fn manifests_are_of_runners(c: CoordinatorView, own: Seq<Seq<char>>, msgs: Seq<Message>)
    requires
        c.expected().contains(c.name),
    ensures
        known_manifests(c, own, msgs).dom().subset_of(c.expected()),
    decreases msgs.len(),
{
    if msgs.len() > 0 {
        manifests_are_of_runners(c, own, msgs.drop_last());
    }
}

/// Counting the manifests is enough: there are as many as runners just where every
/// runner has one.
pub proof fn count_of_manifests_is_exact(c: CoordinatorView, own: Seq<Seq<char>>, msgs: Seq<Message>)
    requires
        c.expected().contains(c.name),
    ensures
        known_manifests(c, own, msgs).dom().len() == c.expected().len() <==> known_manifests(
            c,
            own,
            msgs,
        ).dom() == c.expected(),
{
    manifests_are_of_runners(c, own, msgs);
    c.runners.lemma_cardinality_of_set();
    same_size_subset_is_all(known_manifests(c, own, msgs).dom(), c.expected());
}

proof fn same_size_subset_is_all(a: Set<Seq<char>>, b: Set<Seq<char>>)
    requires
        b.finite(),
        a.subset_of(b),
    ensures
        a.len() == b.len() <==> a == b,
{
    if a.len() == b.len() {
        vstd::set_lib::lemma_subset_equality(a, b);
    }
}

/// The first manifest of a runner stands, whatever it sends later.
pub proof fn first_manifest_stands(
    c: CoordinatorView,
    all: Map<Seq<char>, Seq<Seq<char>>>,
    msg: Message,
    runner: Seq<char>,
)
    requires
        all.contains_key(runner),
    ensures
        manifests_after(c, all, msg).contains_key(runner),
        manifests_after(c, all, msg)[runner] == all[runner],
{
}

// ---------------------------------------------------------------------
// Laws of whole runs
// ---------------------------------------------------------------------

/// The event is a message of `runner`: it announces the runner or reports something of it.
pub open spec fn heard_from(event: DiscoverEvent<'_>, runner: Seq<char>) -> bool {
    match event {
        DiscoverEvent::Received { msg, host } => match *msg {
            Message::Discover { name, .. } => name@ == runner,
            Message::ResumeManifest { name, .. } => name@ == runner,
            Message::Ready { name, .. } => name@ == runner,
            Message::Done { name, .. } => name@ == runner,
            _ => false,
        },
        _ => false,
    }
}

/// The event is the announcement of `runner` with this log folder.
pub open spec fn announces(event: DiscoverEvent<'_>, runner: Seq<char>, folder: Seq<char>) -> bool {
    match event {
        DiscoverEvent::Received { msg, host } => match *msg {
            Message::Discover { name, log_subdir, .. } => name@ == runner && log_subdir@ == folder,
            _ => false,
        },
        _ => false,
    }
}

/// Discovery from its beginning on, through these events, none of which ended it with an
/// error. `cs` and `ds` are what is known before each event and at the end, `rs` are the
/// steps.
pub open spec fn discovery_run(
    cs: Seq<CoordinatorView>,
    ds: Seq<DiscoveryView>,
    events: Seq<DiscoverEvent<'_>>,
    rs: Seq<DiscoverStep>,
) -> bool {
    &&& events.len() > 0
    &&& events[0] is Start
    &&& cs.len() == events.len() + 1
    &&& ds.len() == events.len() + 1
    &&& rs.len() == events.len()
    &&& forall|i: int|
        0 <= i < events.len() ==> discover_step(
            cs[i],
            cs[i + 1],
            ds[i],
            ds[i + 1],
            #[trigger] events[i],
            rs[i],
        )
    &&& forall|i: int| 0 <= i < rs.len() ==> !(#[trigger] rs[i] is Fail)
    &&& forall|i: int| 1 <= i < events.len() ==> !(#[trigger] events[i] is Start)
}

proof fn shorter_discovery_run(
    cs: Seq<CoordinatorView>,
    ds: Seq<DiscoveryView>,
    events: Seq<DiscoverEvent<'_>>,
    rs: Seq<DiscoverStep>,
)
    requires
        discovery_run(cs, ds, events, rs),
        events.len() > 1,
    ensures
        discovery_run(cs.drop_last(), ds.drop_last(), events.drop_last(), rs.drop_last()),
        ({
            let n = events.len() - 1;
            discover_step(cs[n], cs[n + 1], ds[n], ds[n + 1], events[n], rs[n]) && !(events[n] is Start) && !(
            rs[n] is Fail)
        }),
{
    let (cs2, ds2, events2, rs2) = (cs.drop_last(), ds.drop_last(), events.drop_last(), rs.drop_last());
    assert forall|i: int| 0 <= i < events2.len() implies discover_step(
        cs2[i],
        cs2[i + 1],
        ds2[i],
        ds2[i + 1],
        #[trigger] events2[i],
        rs2[i],
    ) by {
        assert(events2[i] == events[i]);
    }
    assert forall|i: int| 0 <= i < rs2.len() implies !(#[trigger] rs2[i] is Fail) by {
        assert(rs2[i] == rs[i]);
    }
    assert forall|i: int| 1 <= i < events2.len() implies !(#[trigger] events2[i] is Start) by {
        assert(events2[i] == events[i]);
    }
    let n = events.len() - 1;
    assert(events[n] is Start || !(events[n] is Start));
    assert(!(rs[n] is Fail));
}

/// While discovery lasts, a runner stays who it is.
proof fn discovery_keeps_the_runner(
    cs: Seq<CoordinatorView>,
    ds: Seq<DiscoveryView>,
    events: Seq<DiscoverEvent<'_>>,
    rs: Seq<DiscoverStep>,
)
    requires
        discovery_run(cs, ds, events, rs),
    ensures
        cs.last() == with_hosts(cs[0], cs.last().hosts),
    decreases events.len(),
{
    let n = events.len() - 1;
    if n == 0 {
        assert(discover_step(cs[0], cs[1], ds[0], ds[1], events[0], rs[0]));
    } else {
        shorter_discovery_run(cs, ds, events, rs);
        discovery_keeps_the_runner(cs.drop_last(), ds.drop_last(), events.drop_last(), rs.drop_last());
    }
}

/// The host that is known of another runner of the run is the one that the first of its
/// messages came from; it is known as soon as a message came, and so is that the runner is
/// there.
pub proof fn hosts_are_where_runners_were_first_heard(
    cs: Seq<CoordinatorView>,
    ds: Seq<DiscoveryView>,
    events: Seq<DiscoverEvent<'_>>,
    rs: Seq<DiscoverStep>,
    runner: Seq<char>,
)
    requires
        discovery_run(cs, ds, events, rs),
        cs[0].runners.contains(runner),
        runner != cs[0].name,
        !cs[0].hosts.contains_key(runner),
    ensures
        cs.last().hosts.contains_key(runner) <==> exists|i: int|
            0 <= i < events.len() && #[trigger] heard_from(events[i], runner),
        ds.last().seen.contains(runner) <==> cs.last().hosts.contains_key(runner),
        cs.last().hosts.contains_key(runner) ==> exists|i: int|
            {
                &&& 0 <= i < events.len()
                &&& #[trigger] heard_from(events[i], runner)
                &&& events[i]->Received_host@ == cs.last().hosts[runner]
                &&& forall|j: int| 0 <= j < i ==> !#[trigger] heard_from(events[j], runner)
            },
    decreases events.len(),
{
    let n = events.len() - 1;
    if n == 0 {
        assert(discover_step(cs[0], cs[1], ds[0], ds[1], events[0], rs[0]));
        assert(!heard_from(events[0], runner));
    } else {
        let (cs2, ds2, events2, rs2) = (cs.drop_last(), ds.drop_last(), events.drop_last(), rs.drop_last());
        shorter_discovery_run(cs, ds, events, rs);
        hosts_are_where_runners_were_first_heard(cs2, ds2, events2, rs2, runner);
        discovery_keeps_the_runner(cs2, ds2, events2, rs2);
        let before = cs[n];
        assert(cs2.last() == before && ds2.last() == ds[n]);
        assert(before.expected().contains(runner));
        assert forall|i: int| 0 <= i < n implies heard_from(events2[i], runner) == #[trigger] heard_from(
            events[i],
            runner,
        ) by {}
        if before.hosts.contains_key(runner) {
            let i = choose|i: int|
                {
                    &&& 0 <= i < events2.len()
                    &&& #[trigger] heard_from(events2[i], runner)
                    &&& events2[i]->Received_host@ == before.hosts[runner]
                    &&& forall|j: int| 0 <= j < i ==> !#[trigger] heard_from(events2[j], runner)
                };
            assert(heard_from(events[i], runner));
            assert forall|j: int| 0 <= j < i implies !#[trigger] heard_from(events[j], runner) by {
                assert(!heard_from(events2[j], runner));
            }
            assert(cs.last().hosts[runner] == before.hosts[runner]);
        } else {
            assert forall|j: int| 0 <= j < n implies !#[trigger] heard_from(events[j], runner) by {
                assert(!heard_from(events2[j], runner));
            }
            if heard_from(events[n], runner) {
                assert(cs.last().hosts[runner] == events[n]->Received_host@);
            }
        }
        if exists|i: int| 0 <= i < events.len() && #[trigger] heard_from(events[i], runner) {
            let i = choose|i: int| 0 <= i < events.len() && #[trigger] heard_from(events[i], runner);
            if i < n {
                assert(heard_from(events2[i], runner));
            }
        }
    }
}

/// The host of the runner itself, and that of any name outside the run, stay as they were.
pub proof fn other_hosts_stay(
    cs: Seq<CoordinatorView>,
    ds: Seq<DiscoveryView>,
    events: Seq<DiscoverEvent<'_>>,
    rs: Seq<DiscoverStep>,
    name: Seq<char>,
)
    requires
        discovery_run(cs, ds, events, rs),
        name == cs[0].name || !cs[0].runners.contains(name),
    ensures
        cs.last().hosts.contains_key(name) == cs[0].hosts.contains_key(name),
        cs[0].hosts.contains_key(name) ==> cs.last().hosts[name] == cs[0].hosts[name],
        ds.last().seen.contains(name) <==> name == cs[0].name,
    decreases events.len(),
{
    let n = events.len() - 1;
    if n == 0 {
        assert(discover_step(cs[0], cs[1], ds[0], ds[1], events[0], rs[0]));
    } else {
        let (cs2, ds2, events2, rs2) = (cs.drop_last(), ds.drop_last(), events.drop_last(), rs.drop_last());
        shorter_discovery_run(cs, ds, events, rs);
        other_hosts_stay(cs2, ds2, events2, rs2, name);
        discovery_keeps_the_runner(cs2, ds2, events2, rs2);
        assert(cs[n].expected().contains(name) ==> cs[n].runners.contains(name));
    }
}

/// The log folder that is known is the leader's: on the leader its own proposal, and on any
/// other runner the one of the first announcement that came from the leader; until one
/// came, none is known.
pub proof fn folder_is_the_leaders_first(
    cs: Seq<CoordinatorView>,
    ds: Seq<DiscoveryView>,
    events: Seq<DiscoverEvent<'_>>,
    rs: Seq<DiscoverStep>,
)
    requires
        discovery_run(cs, ds, events, rs),
        cs[0].runners.len() > 0,
    ensures
        ({
            let leader = cs[0].runners[0];
            let folder = ds.last().leader_log_subdir;
            if leader == cs[0].name {
                folder == Some(cs[0].proposed_log_subdir)
            } else {
                &&& folder is Some ==> exists|i: int|
                    {
                        &&& 0 <= i < events.len()
                        &&& #[trigger] announces(events[i], leader, folder->0)
                        &&& forall|j: int, f: Seq<char>|
                            0 <= j < i ==> !#[trigger] announces(events[j], leader, f)
                    }
                &&& folder is None ==> forall|j: int, f: Seq<char>|
                    0 <= j < events.len() ==> !#[trigger] announces(events[j], leader, f)
            }
        }),
    decreases events.len(),
{
    let n = events.len() - 1;
    let leader = cs[0].runners[0];
    if n == 0 {
        assert(discover_step(cs[0], cs[1], ds[0], ds[1], events[0], rs[0]));
    } else {
        let (cs2, ds2, events2, rs2) = (cs.drop_last(), ds.drop_last(), events.drop_last(), rs.drop_last());
        shorter_discovery_run(cs, ds, events, rs);
        folder_is_the_leaders_first(cs2, ds2, events2, rs2);
        discovery_keeps_the_runner(cs2, ds2, events2, rs2);
        assert(cs2.last() == cs[n] && ds2.last() == ds[n]);
        if leader != cs[0].name {
            let known = ds[n].leader_log_subdir;
            let folder = ds.last().leader_log_subdir;
            if known is Some {
                assert(folder == known);
                let i = choose|i: int|
                    {
                        &&& 0 <= i < events2.len()
                        &&& #[trigger] announces(events2[i], leader, known->0)
                        &&& forall|j: int, f: Seq<char>|
                            0 <= j < i ==> !#[trigger] announces(events2[j], leader, f)
                    };
                assert(announces(events[i], leader, folder->0));
                assert forall|j: int, f: Seq<char>| 0 <= j < i implies !#[trigger] announces(
                    events[j],
                    leader,
                    f,
                ) by {
                    assert(!announces(events2[j], leader, f));
                }
            } else {
                assert forall|j: int, f: Seq<char>| 0 <= j < n implies !#[trigger] announces(
                    events[j],
                    leader,
                    f,
                ) by {
                    assert(!announces(events2[j], leader, f));
                }
                if folder is Some {
                    assert(announces(events[n], leader, folder->0));
                }
            }
        }
    }
}

/// When discovery ends, and with what: at the end of an interval, just where every other
/// runner was heard of and the leader, where it is another runner, has announced its log
/// folder; and it ends with that folder, or with its own where the runner leads.
pub proof fn discovery_ends_when_all_were_heard(
    cs: Seq<CoordinatorView>,
    ds: Seq<DiscoveryView>,
    events: Seq<DiscoverEvent<'_>>,
    rs: Seq<DiscoverStep>,
)
    requires
        discovery_run(cs, ds, events, rs),
        cs[0].runners.contains(cs[0].name),
        cs[0].hosts.dom() == Set::empty().insert(cs[0].name),
        events.last() is WindowEnd,
    ensures
        rs.last() is Finish || rs.last() is Send,
        rs.last() is Finish <==> {
            &&& forall|runner: Seq<char>|
                cs[0].runners.contains(runner) && runner != cs[0].name ==> exists|i: int|
                    0 <= i < events.len() && #[trigger] heard_from(events[i], runner)
            &&& cs[0].runners[0] == cs[0].name || exists|i: int, f: Seq<char>|
                0 <= i < events.len() && #[trigger] announces(events[i], cs[0].runners[0], f)
        },
        rs.last() is Finish && cs[0].runners[0] == cs[0].name ==> rs.last()->Finish_0@
            == cs[0].proposed_log_subdir,
        rs.last() is Finish && cs[0].runners[0] != cs[0].name ==> exists|i: int|
            {
                &&& 0 <= i < events.len()
                &&& #[trigger] announces(events[i], cs[0].runners[0], rs.last()->Finish_0@)
                &&& forall|j: int, f: Seq<char>|
                    0 <= j < i ==> !#[trigger] announces(events[j], cs[0].runners[0], f)
            },
{
    let n = events.len() - 1;
    let c = cs[0];
    assert(events[n] == events.last() && rs[n] == rs.last());
    assert(n > 0);
    let (cs2, ds2, events2, rs2) = (cs.drop_last(), ds.drop_last(), events.drop_last(), rs.drop_last());
    shorter_discovery_run(cs, ds, events, rs);
    discovery_keeps_the_runner(cs2, ds2, events2, rs2);
    discovery_keeps_the_runner(cs, ds, events, rs);
    folder_is_the_leaders_first(cs, ds, events, rs);
    assert(cs.last() == cs[n] && ds.last() == ds[n]);
    assert(c.expected().contains(c.name));
    assert forall|runner: Seq<char>| ds[n].seen.contains(runner) implies c.expected().contains(runner) by {
        if runner != c.name && !c.runners.contains(runner) {
            other_hosts_stay(cs, ds, events, rs, runner);
        }
    }
    other_hosts_stay(cs, ds, events, rs, c.name);
    let all_heard = forall|runner: Seq<char>|
        c.runners.contains(runner) && runner != c.name ==> exists|i: int|
            0 <= i < events.len() && #[trigger] heard_from(events[i], runner);
    if all_heard {
        assert forall|runner: Seq<char>| c.expected().contains(runner) implies ds[n].seen.contains(runner)
            && cs[n].hosts.contains_key(runner) by {
            if runner != c.name {
                assert(c.runners.contains(runner));
                hosts_are_where_runners_were_first_heard(cs, ds, events, rs, runner);
            }
        }
        assert(ds[n].seen =~= c.expected());
        assert(discovery_complete(cs[n], ds[n]));
    }
    if discovery_complete(cs[n], ds[n]) {
        assert forall|runner: Seq<char>| c.runners.contains(runner) && runner != c.name implies exists|i: int|
            0 <= i < events.len() && #[trigger] heard_from(events[i], runner) by {
            assert(c.expected().contains(runner));
            assert(cs[n].hosts.contains_key(runner));
            hosts_are_where_runners_were_first_heard(cs, ds, events, rs, runner);
        }
    }
}

/// What a message that comes in while a runner looks for the others leads to: the end with
/// an error just where it announces a runner of the run with another config or, with the
/// same config, with another resume flag; an answer just where it is a probe of this
/// runner.
pub proof fn announcements_are_checked(
    before: CoordinatorView,
    after: CoordinatorView,
    d: DiscoveryView,
    e: DiscoveryView,
    msg: &Message,
    host: &str,
    r: DiscoverStep,
)
    requires
        discover_step(before, after, d, e, (DiscoverEvent::Received { msg, host }), r),
    ensures
        match *msg {
            Message::Discover { name, config_hash, resume, .. } => if before.runners.contains(name@)
                && config_hash@ != before.config_hash {
                match r {
                    DiscoverStep::Fail(
                        DiscoverError::ConfigHashMismatch { runner, expected, got },
                    ) => runner@ == name@ && expected@ == before.config_hash && got@ == config_hash@,
                    _ => false,
                }
            } else if before.runners.contains(name@) && resume != before.resume {
                match r {
                    DiscoverStep::Fail(DiscoverError::ResumeMismatch { runner, expected, got }) => runner@
                        == name@ && expected == before.resume && got == resume,
                    _ => false,
                }
            } else {
                r is Wait
            },
            Message::ProbeRequest { from, to, id, t1 } => if to@ == before.name {
                match r {
                    DiscoverStep::Reply(reply) => reply.to@ == from@ && reply.id == id && reply.t1@ == t1@,
                    _ => false,
                }
            } else {
                r is Wait
            },
            _ => r is Wait,
        },
{
    match *msg {
        Message::Discover { name, .. } => {
            assert(before.expected().contains(name@) <==> before.runners.contains(name@));
        },
        _ => {},
    }
}

/// The event is the message that `runner` is ready for this spawn of this run.
pub open spec fn reports_ready(event: BarrierEvent<'_>, runner: Seq<char>, spawn: Seq<char>, run_id: Seq<char>) -> bool {
    match event {
        BarrierEvent::Received(msg) => match *msg {
            Message::Ready { name, variant, run } => name@ == runner && variant@ == spawn && run@ == run_id,
            _ => false,
        },
        _ => false,
    }
}

/// The event is the message that this spawn of this run has ended on `runner`.
pub open spec fn reports_done(event: BarrierEvent<'_>, runner: Seq<char>, spawn: Seq<char>, run_id: Seq<char>) -> bool {
    match event {
        BarrierEvent::Received(msg) => match *msg {
            Message::Done { name, variant, run, .. } => name@ == runner && variant@ == spawn && run@ == run_id,
            _ => false,
        },
        _ => false,
    }
}

/// The event is the message with the jobs that `runner` has complete in this run.
pub open spec fn reports_jobs(event: BarrierEvent<'_>, runner: Seq<char>, run_id: Seq<char>) -> bool {
    match event {
        BarrierEvent::Received(msg) => match *msg {
            Message::ResumeManifest { name, run, .. } => name@ == runner && run@ == run_id,
            _ => false,
        },
        _ => false,
    }
}

/// Only the first event is a beginning.
pub open spec fn begins_once(events: Seq<BarrierEvent<'_>>) -> bool {
    &&& events.len() > 0
    &&& events[0] is Start
    &&& forall|i: int| 1 <= i < events.len() ==> !(#[trigger] events[i] is Start)
}

/// The barrier before a spawn from its beginning on, through these events.
pub open spec fn ready_run(
    c: CoordinatorView,
    spawn: Seq<char>,
    timeout: Duration,
    seen: Seq<Set<Seq<char>>>,
    events: Seq<BarrierEvent<'_>>,
    rs: Seq<BarrierStep>,
) -> bool {
    &&& begins_once(events)
    &&& seen.len() == events.len() + 1
    &&& rs.len() == events.len()
    &&& forall|i: int|
        0 <= i < events.len() ==> ready_step(c, spawn, timeout, seen[i], seen[i + 1], #[trigger] events[i], rs[i])
}

/// The barrier after a spawn from its beginning on, through these events.
pub open spec fn done_run(
    c: CoordinatorView,
    spawn: Seq<char>,
    own: Outcome,
    timeout: Duration,
    results: Seq<Map<Seq<char>, Outcome>>,
    events: Seq<BarrierEvent<'_>>,
    rs: Seq<BarrierStep>,
) -> bool {
    &&& begins_once(events)
    &&& results.len() == events.len() + 1
    &&& rs.len() == events.len()
    &&& forall|i: int|
        0 <= i < events.len() ==> done_step(
            c,
            spawn,
            own,
            timeout,
            results[i],
            results[i + 1],
            #[trigger] events[i],
            rs[i],
        )
}

/// The exchange of manifests from its beginning on, through these events.
pub open spec fn manifest_run(
    c: CoordinatorView,
    own: Seq<Seq<char>>,
    timeout: Duration,
    all: Seq<Map<Seq<char>, Seq<Seq<char>>>>,
    events: Seq<BarrierEvent<'_>>,
    rs: Seq<BarrierStep>,
) -> bool {
    &&& begins_once(events)
    &&& all.len() == events.len() + 1
    &&& rs.len() == events.len()
    &&& forall|i: int|
        0 <= i < events.len() ==> manifest_step(c, own, timeout, all[i], all[i + 1], #[trigger] events[i], rs[i])
}

/// A runner counts as ready just where it is this one, or one of the run that has said so
/// for this spawn of this run.
pub proof fn ready_are_those_that_said_so(
    c: CoordinatorView,
    spawn: Seq<char>,
    timeout: Duration,
    seen: Seq<Set<Seq<char>>>,
    events: Seq<BarrierEvent<'_>>,
    rs: Seq<BarrierStep>,
    runner: Seq<char>,
)
    requires
        ready_run(c, spawn, timeout, seen, events, rs),
    ensures
        seen.last().contains(runner) <==> runner == c.name || (c.runners.contains(runner) && exists|i: int|
            0 <= i < events.len() && #[trigger] reports_ready(events[i], runner, spawn, c.run)),
{
    ready_so_far(c, spawn, timeout, seen, events, rs, runner, events.len() as int);
}

proof fn ready_so_far(
    c: CoordinatorView,
    spawn: Seq<char>,
    timeout: Duration,
    seen: Seq<Set<Seq<char>>>,
    events: Seq<BarrierEvent<'_>>,
    rs: Seq<BarrierStep>,
    runner: Seq<char>,
    k: int,
)
    requires
        ready_run(c, spawn, timeout, seen, events, rs),
        1 <= k <= events.len(),
    ensures
        seen[k].contains(runner) <==> runner == c.name || (c.runners.contains(runner) && exists|i: int|
            0 <= i < k && #[trigger] reports_ready(events[i], runner, spawn, c.run)),
    decreases k,
{
    let n = k - 1;
    assert(ready_step(c, spawn, timeout, seen[n], seen[n + 1], events[n], rs[n]));
    assert(c.expected().contains(runner) <==> c.runners.contains(runner));
    if n > 0 {
        ready_so_far(c, spawn, timeout, seen, events, rs, runner, n);
        assert(!(events[n] is Start));
        if reports_ready(events[n], runner, spawn, c.run) && c.runners.contains(runner) {
            assert(seen[k].contains(runner));
        }
    } else {
        assert(!reports_ready(events[0], runner, spawn, c.run));
    }
}

/// The outcome that is known of another runner is the status and the exit code of the last
/// message in which it reported this spawn of this run, and none is known before there is
/// one. A runner that has not reported on itself has its own outcome.
pub proof fn outcomes_are_the_last_reported(
    c: CoordinatorView,
    spawn: Seq<char>,
    own: Outcome,
    timeout: Duration,
    results: Seq<Map<Seq<char>, Outcome>>,
    events: Seq<BarrierEvent<'_>>,
    rs: Seq<BarrierStep>,
    runner: Seq<char>,
)
    requires
        done_run(c, spawn, own, timeout, results, events, rs),
    ensures
        results.last().contains_key(runner) <==> runner == c.name || (c.runners.contains(runner) && exists|
            i: int,
        |
            0 <= i < events.len() && #[trigger] reports_done(events[i], runner, spawn, c.run)),
        forall|i: int|
            0 <= i < events.len() && #[trigger] reports_done(events[i], runner, spawn, c.run) && (forall|j: int|
                i < j < events.len() ==> !#[trigger] reports_done(events[j], runner, spawn, c.run))
                && c.runners.contains(runner) ==> {
                let msg = *(events[i]->Received_0);
                results.last()[runner] == (msg->Done_status@, msg->Done_exit_code)
            },
        runner == c.name && !(c.runners.contains(runner) && exists|i: int|
            0 <= i < events.len() && #[trigger] reports_done(events[i], runner, spawn, c.run))
            ==> results.last()[runner] == own,
{
    let n = events.len() as int;
    outcomes_are_reported(c, spawn, own, timeout, results, events, rs, runner, n);
    assert(results[n] == results.last());
    assert forall|i: int|
        0 <= i < events.len() && #[trigger] reports_done(events[i], runner, spawn, c.run) && (forall|j: int|
            i < j < events.len() ==> !#[trigger] reports_done(events[j], runner, spawn, c.run))
            && c.runners.contains(runner) implies {
        let msg = *(events[i]->Received_0);
        results.last()[runner] == (msg->Done_status@, msg->Done_exit_code)
    } by {
        last_outcome_stays(c, spawn, own, timeout, results, events, rs, runner, i, n);
    }
}

proof fn outcomes_are_reported(
    c: CoordinatorView,
    spawn: Seq<char>,
    own: Outcome,
    timeout: Duration,
    results: Seq<Map<Seq<char>, Outcome>>,
    events: Seq<BarrierEvent<'_>>,
    rs: Seq<BarrierStep>,
    runner: Seq<char>,
    k: int,
)
    requires
        done_run(c, spawn, own, timeout, results, events, rs),
        1 <= k <= events.len(),
    ensures
        results[k].contains_key(runner) <==> runner == c.name || (c.runners.contains(runner) && exists|i: int|
            0 <= i < k && #[trigger] reports_done(events[i], runner, spawn, c.run)),
        runner == c.name && !(c.runners.contains(runner) && exists|i: int|
            0 <= i < k && #[trigger] reports_done(events[i], runner, spawn, c.run)) ==> results[k][runner]
            == own,
    decreases k,
{
    let n = k - 1;
    assert(done_step(c, spawn, own, timeout, results[n], results[n + 1], events[n], rs[n]));
    assert(c.expected().contains(runner) <==> c.runners.contains(runner));
    if n > 0 {
        outcomes_are_reported(c, spawn, own, timeout, results, events, rs, runner, n);
        assert(!(events[n] is Start));
        if reports_done(events[n], runner, spawn, c.run) && c.runners.contains(runner) {
            assert(results[k].contains_key(runner));
        }
    } else {
        assert(!reports_done(events[0], runner, spawn, c.run));
    }
}

proof fn last_outcome_stays(
    c: CoordinatorView,
    spawn: Seq<char>,
    own: Outcome,
    timeout: Duration,
    results: Seq<Map<Seq<char>, Outcome>>,
    events: Seq<BarrierEvent<'_>>,
    rs: Seq<BarrierStep>,
    runner: Seq<char>,
    i: int,
    k: int,
)
    requires
        done_run(c, spawn, own, timeout, results, events, rs),
        0 <= i < k <= events.len(),
        c.runners.contains(runner),
        reports_done(events[i], runner, spawn, c.run),
        forall|j: int| i < j < k ==> !#[trigger] reports_done(events[j], runner, spawn, c.run),
    ensures
        ({
            let msg = *(events[i]->Received_0);
            results[k].contains_key(runner) && results[k][runner] == (msg->Done_status@, msg->Done_exit_code)
        }),
    decreases k,
{
    let n = k - 1;
    assert(done_step(c, spawn, own, timeout, results[n], results[n + 1], events[n], rs[n]));
    assert(c.expected().contains(runner));
    if i < n {
        last_outcome_stays(c, spawn, own, timeout, results, events, rs, runner, i, n);
        assert(!(events[n] is Start));
        assert(!reports_done(events[n], runner, spawn, c.run));
    }
}

/// The manifest that is known of another runner is the one of the first message in which
/// it listed its jobs of this run, and none is known before there is one; this runner's
/// own stands from the beginning.
pub proof fn manifests_are_the_first_reported(
    c: CoordinatorView,
    own: Seq<Seq<char>>,
    timeout: Duration,
    all: Seq<Map<Seq<char>, Seq<Seq<char>>>>,
    events: Seq<BarrierEvent<'_>>,
    rs: Seq<BarrierStep>,
    runner: Seq<char>,
)
    requires
        manifest_run(c, own, timeout, all, events, rs),
    ensures
        all.last().contains_key(runner) <==> runner == c.name || (c.runners.contains(runner) && exists|i: int|
            0 <= i < events.len() && #[trigger] reports_jobs(events[i], runner, c.run)),
        runner == c.name ==> all.last()[runner] == own,
        forall|i: int|
            0 <= i < events.len() && #[trigger] reports_jobs(events[i], runner, c.run) && (forall|j: int|
                0 <= j < i ==> !#[trigger] reports_jobs(events[j], runner, c.run)) && c.runners.contains(runner)
                && runner != c.name ==> {
                let msg = *(events[i]->Received_0);
                let jobs = msg->ResumeManifest_complete_jobs@;
                &&& all.last()[runner].len() == jobs.len()
                &&& forall|k: int| 0 <= k < jobs.len() ==> all.last()[runner][k] == (#[trigger] jobs[k])@
            },
{
    let n = events.len() as int;
    manifests_are_reported(c, own, timeout, all, events, rs, runner, n);
    assert(all[n] == all.last());
    assert forall|i: int|
        0 <= i < events.len() && #[trigger] reports_jobs(events[i], runner, c.run) && (forall|j: int|
            0 <= j < i ==> !#[trigger] reports_jobs(events[j], runner, c.run)) && c.runners.contains(runner)
            && runner != c.name implies {
        let msg = *(events[i]->Received_0);
        let jobs = msg->ResumeManifest_complete_jobs@;
        &&& all.last()[runner].len() == jobs.len()
        &&& forall|k: int| 0 <= k < jobs.len() ==> all.last()[runner][k] == (#[trigger] jobs[k])@
    } by {
        first_manifest_is_kept(c, own, timeout, all, events, rs, runner, i, n);
    }
}

proof fn manifests_are_reported(
    c: CoordinatorView,
    own: Seq<Seq<char>>,
    timeout: Duration,
    all: Seq<Map<Seq<char>, Seq<Seq<char>>>>,
    events: Seq<BarrierEvent<'_>>,
    rs: Seq<BarrierStep>,
    runner: Seq<char>,
    k: int,
)
    requires
        manifest_run(c, own, timeout, all, events, rs),
        1 <= k <= events.len(),
    ensures
        all[k].contains_key(runner) <==> runner == c.name || (c.runners.contains(runner) && exists|i: int|
            0 <= i < k && #[trigger] reports_jobs(events[i], runner, c.run)),
        runner == c.name ==> all[k][runner] == own,
    decreases k,
{
    let n = k - 1;
    assert(manifest_step(c, own, timeout, all[n], all[n + 1], events[n], rs[n]));
    assert(c.expected().contains(runner) <==> c.runners.contains(runner));
    if n > 0 {
        manifests_are_reported(c, own, timeout, all, events, rs, runner, n);
        assert(!(events[n] is Start));
        if reports_jobs(events[n], runner, c.run) && c.runners.contains(runner) {
            assert(all[k].contains_key(runner));
        }
    } else {
        assert(!reports_jobs(events[0], runner, c.run));
    }
}

proof fn first_manifest_is_kept(
    c: CoordinatorView,
    own: Seq<Seq<char>>,
    timeout: Duration,
    all: Seq<Map<Seq<char>, Seq<Seq<char>>>>,
    events: Seq<BarrierEvent<'_>>,
    rs: Seq<BarrierStep>,
    runner: Seq<char>,
    i: int,
    k: int,
)
    requires
        manifest_run(c, own, timeout, all, events, rs),
        0 <= i < k <= events.len(),
        c.runners.contains(runner),
        runner != c.name,
        reports_jobs(events[i], runner, c.run),
        forall|j: int| 0 <= j < i ==> !#[trigger] reports_jobs(events[j], runner, c.run),
    ensures
        ({
            let msg = *(events[i]->Received_0);
            all[k].contains_key(runner) && all[k][runner] == texts(msg->ResumeManifest_complete_jobs@)
        }),
    decreases k,
{
    let n = k - 1;
    assert(manifest_step(c, own, timeout, all[n], all[n + 1], events[n], rs[n]));
    assert(c.expected().contains(runner));
    if i < n {
        first_manifest_is_kept(c, own, timeout, all, events, rs, runner, i, n);
        assert(!(events[n] is Start));
    } else {
        assert(n > 0);
        manifests_are_reported(c, own, timeout, all, events, rs, runner, n);
        assert(!all[n].contains_key(runner));
    }
}

/// How a barrier ends: `present` are the runners that have reported. It is reached at the
/// end of the first interval at which all have; it is given up at one that ends when the
/// time is over, and the error lists, in the order of the names, just the runners that are
/// missing; else it goes on.
pub proof fn barrier_ends_when_all_are_there(
    c: CoordinatorView,
    complete: bool,
    kind: Seq<char>,
    spawn: Seq<char>,
    present: Set<Seq<char>>,
    elapsed: Duration,
    timeout: Duration,
    r: BarrierStep,
)
    requires
        step_after_window(complete, kind, spawn, c.expected().difference(present), elapsed, timeout, r),
        complete == (present == c.expected()) || complete == (present.len() == c.expected().len()),
        forall|n: Seq<char>| #[trigger] present.contains(n) ==> c.runners.contains(n),
    ensures
        r is Finish <==> forall|n: Seq<char>| c.runners.contains(n) ==> #[trigger] present.contains(n),
        r is TimedOut <==> !(r is Finish) && elapsed.nanos >= timeout.nanos,
        r is Finish || r is TimedOut || r is Send,
        r is TimedOut ==> r->TimedOut_0.kind@ == kind && r->TimedOut_0.variant@ == spawn
            && r->TimedOut_0.elapsed == elapsed,
        r is TimedOut ==> forall|n: Seq<char>|
            #[trigger] texts(r->TimedOut_0.missing_peers@).contains(n) <==> (c.runners.contains(n)
                && !present.contains(n)),
        r is TimedOut ==> forall|i: int, j: int|
            0 <= i < j < r->TimedOut_0.missing_peers@.len() ==> name_lt(
                (#[trigger] r->TimedOut_0.missing_peers@[i])@,
                (#[trigger] r->TimedOut_0.missing_peers@[j])@,
            ),
{
    let all = c.expected();
    c.runners.lemma_cardinality_of_set();
    assert(present.subset_of(all)) by {
        assert forall|n: Seq<char>| present.contains(n) implies all.contains(n) by {
            assert(c.runners.contains(n));
        }
    }
    same_size_subset_is_all(present, all);
    assert((forall|n: Seq<char>| c.runners.contains(n) ==> #[trigger] present.contains(n)) <==> present
        == all) by {
        if forall|n: Seq<char>| c.runners.contains(n) ==> #[trigger] present.contains(n) {
            assert forall|n: Seq<char>| all.contains(n) implies present.contains(n) by {
                assert(c.runners.contains(n));
            }
            assert(present =~= all);
        }
        if present == all {
            assert forall|n: Seq<char>| c.runners.contains(n) implies #[trigger] present.contains(n) by {
                assert(all.contains(n));
            }
        }
    }
    if r is TimedOut {
        let e = r->TimedOut_0;
        let missing = all.difference(present);
        let t = texts(e.missing_peers@);
        listing_holds(missing);
        assert(t.to_set() == missing);
        assert forall|n: Seq<char>| #[trigger] t.contains(n) <==> (c.runners.contains(n)
            && !present.contains(n)) by {
            assert(t.to_set().contains(n) <==> t.contains(n));
            assert(missing.contains(n) <==> all.contains(n) && !present.contains(n));
            assert(all.contains(n) <==> c.runners.contains(n));
        }
        assert forall|i: int, j: int| 0 <= i < j < e.missing_peers@.len() implies name_lt(
            (#[trigger] e.missing_peers@[i])@,
            (#[trigger] e.missing_peers@[j])@,
        ) by {
            assert(t[i] == e.missing_peers@[i]@ && t[j] == e.missing_peers@[j]@);
        }
    }
}

/// What a message at a barrier leads to: a probe of this runner is answered, and any other
/// message is only taken note of.
pub proof fn barriers_answer_probes(c: CoordinatorView, msg: Message, r: BarrierStep)
    requires
        step_after_message(c, msg, r),
    ensures
        match msg {
            Message::ProbeRequest { from, to, id, t1 } => if to@ == c.name {
                match r {
                    BarrierStep::Reply(reply) => reply.to@ == from@ && reply.id == id && reply.t1@ == t1@,
                    _ => false,
                }
            } else {
                r is Wait
            },
            _ => r is Wait,
        },
{
}

/// How the barrier before a spawn goes on after its event number `k`: it is over at once just
/// where the runner is alone, and else at the end of an interval just where every other
/// runner has said that it is ready for this spawn of this run; where the time is over it is
/// given up, with just the runners that are missing.
pub proof fn ready_barrier_holds_until_all_are_ready(
    c: CoordinatorView,
    spawn: Seq<char>,
    timeout: Duration,
    seen: Seq<Set<Seq<char>>>,
    events: Seq<BarrierEvent<'_>>,
    rs: Seq<BarrierStep>,
    k: int,
)
    requires
        ready_run(c, spawn, timeout, seen, events, rs),
        c.runners.contains(c.name),
        0 <= k < events.len(),
    ensures
        k == 0 ==> (rs[k] is Finish <==> c.runners == seq![c.name]) && (rs[k] is Finish || rs[k] is Send),
        events[k] is Received ==> step_after_message(c, *(events[k]->Received_0), rs[k]),
        events[k] is WindowEnd ==> {
            let waited = events[k]->elapsed;
            &&& rs[k] is Finish || rs[k] is TimedOut || rs[k] is Send
            &&& rs[k] is Finish <==> forall|n: Seq<char>|
                #[trigger] c.runners.contains(n) && n != c.name ==> exists|i: int|
                    0 <= i < k && #[trigger] reports_ready(events[i], n, spawn, c.run)
            &&& rs[k] is TimedOut <==> !(rs[k] is Finish) && waited.nanos >= timeout.nanos
            &&& rs[k] is TimedOut ==> {
                let e = rs[k]->TimedOut_0;
                &&& e.kind@ == "ready"@ && e.variant@ == spawn && e.elapsed == waited
                &&& forall|n: Seq<char>|
                    #[trigger] texts(e.missing_peers@).contains(n) <==> (c.runners.contains(n) && n != c.name
                        && !exists|i: int| 0 <= i < k && #[trigger] reports_ready(events[i], n, spawn, c.run))
                &&& forall|i: int, j: int|
                    0 <= i < j < e.missing_peers@.len() ==> name_lt(
                        (#[trigger] e.missing_peers@[i])@,
                        (#[trigger] e.missing_peers@[j])@,
                    )
            }
        },
{
    assert(ready_step(c, spawn, timeout, seen[k], seen[k + 1], events[k], rs[k]));
    if events[k] is WindowEnd {
        assert(k > 0);
        let present = seen[k];
        assert forall|n: Seq<char>| #[trigger] present.contains(n) <==> (n == c.name || (c.runners.contains(n)
            && exists|i: int| 0 <= i < k && #[trigger] reports_ready(events[i], n, spawn, c.run))) by {
            ready_so_far(c, spawn, timeout, seen, events, rs, n, k);
        }
        assert forall|n: Seq<char>| #[trigger] present.contains(n) implies c.runners.contains(n) by {}
        let complete = present == c.expected();
        barrier_ends_when_all_are_there(
            c,
            complete,
            "ready"@,
            spawn,
            present,
            events[k]->elapsed,
            timeout,
            rs[k],
        );
        let all_reported = forall|n: Seq<char>|
            #[trigger] c.runners.contains(n) && n != c.name ==> exists|i: int|
                0 <= i < k && #[trigger] reports_ready(events[i], n, spawn, c.run);
        if all_reported {
            assert forall|n: Seq<char>| c.runners.contains(n) implies #[trigger] present.contains(n) by {}
        }
        if rs[k] is Finish {
            assert forall|n: Seq<char>| #[trigger] c.runners.contains(n) && n != c.name implies exists|i: int|
                0 <= i < k && #[trigger] reports_ready(events[i], n, spawn, c.run) by {
                assert(present.contains(n));
            }
        }
        if rs[k] is TimedOut {
            let e = rs[k]->TimedOut_0;
            assert forall|n: Seq<char>| #[trigger] texts(e.missing_peers@).contains(n) <==> (
            c.runners.contains(n) && n != c.name && !exists|i: int|
                0 <= i < k && #[trigger] reports_ready(events[i], n, spawn, c.run)) by {
                assert(present.contains(n) <==> (n == c.name || (c.runners.contains(n) && exists|i: int|
                    0 <= i < k && #[trigger] reports_ready(events[i], n, spawn, c.run))));
            }
        }
    }
}

/// How the barrier after a spawn goes on after its event number `k`: it is over at once just
/// where the runner is alone, and else at the end of an interval just where every other
/// runner has reported how this spawn of this run ended; where the time is over it is given
/// up, with just the runners that are missing.
pub proof fn done_barrier_holds_until_all_are_done(
    c: CoordinatorView,
    spawn: Seq<char>,
    own: Outcome,
    timeout: Duration,
    results: Seq<Map<Seq<char>, Outcome>>,
    events: Seq<BarrierEvent<'_>>,
    rs: Seq<BarrierStep>,
    k: int,
)
    requires
        done_run(c, spawn, own, timeout, results, events, rs),
        c.runners.contains(c.name),
        0 <= k < events.len(),
    ensures
        k == 0 ==> (rs[k] is Finish <==> c.runners == seq![c.name]) && (rs[k] is Finish || rs[k] is Send),
        events[k] is Received ==> step_after_message(c, *(events[k]->Received_0), rs[k]),
        events[k] is WindowEnd ==> {
            let waited = events[k]->elapsed;
            &&& rs[k] is Finish || rs[k] is TimedOut || rs[k] is Send
            &&& rs[k] is Finish <==> forall|n: Seq<char>|
                #[trigger] c.runners.contains(n) && n != c.name ==> exists|i: int|
                    0 <= i < k && #[trigger] reports_done(events[i], n, spawn, c.run)
            &&& rs[k] is TimedOut <==> !(rs[k] is Finish) && waited.nanos >= timeout.nanos
            &&& rs[k] is TimedOut ==> {
                let e = rs[k]->TimedOut_0;
                &&& e.kind@ == "done"@ && e.variant@ == spawn && e.elapsed == waited
                &&& forall|n: Seq<char>|
                    #[trigger] texts(e.missing_peers@).contains(n) <==> (c.runners.contains(n) && n != c.name
                        && !exists|i: int| 0 <= i < k && #[trigger] reports_done(events[i], n, spawn, c.run))
                &&& forall|i: int, j: int|
                    0 <= i < j < e.missing_peers@.len() ==> name_lt(
                        (#[trigger] e.missing_peers@[i])@,
                        (#[trigger] e.missing_peers@[j])@,
                    )
            }
        },
{
    assert(done_step(c, spawn, own, timeout, results[k], results[k + 1], events[k], rs[k]));
    if events[k] is WindowEnd {
        assert(k > 0);
        let present = results[k].dom();
        assert forall|n: Seq<char>| #[trigger] present.contains(n) <==> (n == c.name || (c.runners.contains(n)
            && exists|i: int| 0 <= i < k && #[trigger] reports_done(events[i], n, spawn, c.run))) by {
            outcomes_are_reported(c, spawn, own, timeout, results, events, rs, n, k);
        }
        assert forall|n: Seq<char>| #[trigger] present.contains(n) implies c.runners.contains(n) by {}
        let complete = present.len() == c.expected().len();
        barrier_ends_when_all_are_there(
            c,
            complete,
            "done"@,
            spawn,
            present,
            events[k]->elapsed,
            timeout,
            rs[k],
        );
        let all_reported = forall|n: Seq<char>|
            #[trigger] c.runners.contains(n) && n != c.name ==> exists|i: int|
                0 <= i < k && #[trigger] reports_done(events[i], n, spawn, c.run);
        if all_reported {
            assert forall|n: Seq<char>| c.runners.contains(n) implies #[trigger] present.contains(n) by {}
        }
        if rs[k] is Finish {
            assert forall|n: Seq<char>| #[trigger] c.runners.contains(n) && n != c.name implies exists|i: int|
                0 <= i < k && #[trigger] reports_done(events[i], n, spawn, c.run) by {
                assert(present.contains(n));
            }
        }
        if rs[k] is TimedOut {
            let e = rs[k]->TimedOut_0;
            assert forall|n: Seq<char>| #[trigger] texts(e.missing_peers@).contains(n) <==> (
            c.runners.contains(n) && n != c.name && !exists|i: int|
                0 <= i < k && #[trigger] reports_done(events[i], n, spawn, c.run)) by {
                assert(present.contains(n) <==> (n == c.name || (c.runners.contains(n) && exists|i: int|
                    0 <= i < k && #[trigger] reports_done(events[i], n, spawn, c.run))));
            }
        }
    }
}

/// How the exchange of manifests goes on after its event number `k`: it is over at once just
/// where the runner is alone, and else at the end of an interval just where every other
/// runner has listed its jobs of this run; where the time is over it is given up, with just
/// the runners that are missing.
pub proof fn exchange_holds_until_all_have_reported(
    c: CoordinatorView,
    own: Seq<Seq<char>>,
    timeout: Duration,
    all: Seq<Map<Seq<char>, Seq<Seq<char>>>>,
    events: Seq<BarrierEvent<'_>>,
    rs: Seq<BarrierStep>,
    k: int,
)
    requires
        manifest_run(c, own, timeout, all, events, rs),
        c.runners.contains(c.name),
        0 <= k < events.len(),
    ensures
        k == 0 ==> (rs[k] is Finish <==> c.runners == seq![c.name]) && (rs[k] is Finish || rs[k] is Send),
        events[k] is Received ==> step_after_message(c, *(events[k]->Received_0), rs[k]),
        events[k] is WindowEnd ==> {
            let waited = events[k]->elapsed;
            &&& rs[k] is Finish || rs[k] is TimedOut || rs[k] is Send
            &&& rs[k] is Finish <==> forall|n: Seq<char>|
                #[trigger] c.runners.contains(n) && n != c.name ==> exists|i: int|
                    0 <= i < k && #[trigger] reports_jobs(events[i], n, c.run)
            &&& rs[k] is TimedOut <==> !(rs[k] is Finish) && waited.nanos >= timeout.nanos
            &&& rs[k] is TimedOut ==> {
                let e = rs[k]->TimedOut_0;
                &&& e.kind@ == "resume_manifest"@ && e.variant@ == Seq::<char>::empty() && e.elapsed == waited
                &&& forall|n: Seq<char>|
                    #[trigger] texts(e.missing_peers@).contains(n) <==> (c.runners.contains(n) && n != c.name
                        && !exists|i: int| 0 <= i < k && #[trigger] reports_jobs(events[i], n, c.run))
                &&& forall|i: int, j: int|
                    0 <= i < j < e.missing_peers@.len() ==> name_lt(
                        (#[trigger] e.missing_peers@[i])@,
                        (#[trigger] e.missing_peers@[j])@,
                    )
            }
        },
{
    assert(manifest_step(c, own, timeout, all[k], all[k + 1], events[k], rs[k]));
    if events[k] is WindowEnd {
        assert(k > 0);
        let present = all[k].dom();
        assert forall|n: Seq<char>| #[trigger] present.contains(n) <==> (n == c.name || (c.runners.contains(n)
            && exists|i: int| 0 <= i < k && #[trigger] reports_jobs(events[i], n, c.run))) by {
            manifests_are_reported(c, own, timeout, all, events, rs, n, k);
        }
        assert forall|n: Seq<char>| #[trigger] present.contains(n) implies c.runners.contains(n) by {}
        let complete = present.len() == c.expected().len();
        barrier_ends_when_all_are_there(
            c,
            complete,
            "resume_manifest"@,
            Seq::<char>::empty(),
            present,
            events[k]->elapsed,
            timeout,
            rs[k],
        );
        let all_reported = forall|n: Seq<char>|
            #[trigger] c.runners.contains(n) && n != c.name ==> exists|i: int|
                0 <= i < k && #[trigger] reports_jobs(events[i], n, c.run);
        if all_reported {
            assert forall|n: Seq<char>| c.runners.contains(n) implies #[trigger] present.contains(n) by {}
        }
        if rs[k] is Finish {
            assert forall|n: Seq<char>| #[trigger] c.runners.contains(n) && n != c.name implies exists|i: int|
                0 <= i < k && #[trigger] reports_jobs(events[i], n, c.run) by {
                assert(present.contains(n));
            }
        }
        if rs[k] is TimedOut {
            let e = rs[k]->TimedOut_0;
            assert forall|n: Seq<char>| #[trigger] texts(e.missing_peers@).contains(n) <==> (
            c.runners.contains(n) && n != c.name && !exists|i: int|
                0 <= i < k && #[trigger] reports_jobs(events[i], n, c.run)) by {
                assert(present.contains(n) <==> (n == c.name || (c.runners.contains(n) && exists|i: int|
                    0 <= i < k && #[trigger] reports_jobs(events[i], n, c.run))));
            }
        }
    }
}

/// What a runner announces and reports is what it is and what it was told to report, under
/// its own name and for its own run, so that the other runners take it for that.
pub proof fn messages_say_who_and_what(
    c: &Coordinator,
    variant: &str,
    status: &str,
    code: i32,
    jobs: &[String],
    discover: Message,
    ready: Message,
    done: Message,
    manifest: Message,
)
    requires
        call_ensures(Coordinator::discover_message, (c,), discover),
        call_ensures(Coordinator::ready_message, (c, variant), ready),
        call_ensures(Coordinator::done_message, (c, variant, status, code), done),
        call_ensures(Coordinator::manifest_message, (c, jobs), manifest),
    ensures
        discover is Discover && discover->Discover_name@ == c@.name,
        discover->Discover_config_hash@ == c@.config_hash && discover->Discover_resume == c@.resume,
        discover->Discover_log_subdir@ == c@.proposed_log_subdir,
        reports_ready(BarrierEvent::Received(&ready), c@.name, variant@, c@.run),
        reports_done(BarrierEvent::Received(&done), c@.name, variant@, c@.run),
        done->Done_status@ == status@ && done->Done_exit_code == code,
        reports_jobs(BarrierEvent::Received(&manifest), c@.name, c@.run),
        manifest->ResumeManifest_complete_jobs@.len() == jobs@.len(),
        forall|k: int|
            0 <= k < jobs@.len() ==> (#[trigger] manifest->ResumeManifest_complete_jobs@[k])@ == jobs@[k]@,
{
    let t = texts(manifest->ResumeManifest_complete_jobs@);
    assert(t == texts(jobs@));
    assert(t.len() == jobs@.len());
    assert forall|k: int| 0 <= k < jobs@.len() implies (
    #[trigger] manifest->ResumeManifest_complete_jobs@[k])@ == jobs@[k]@ by {
        assert(t[k] == texts(jobs@)[k]);
    }
}

/// Every runner is reached: what one runner of a run sends goes to the very port at which
/// each other one listens, both over the network and on this machine.
pub proof fn every_runner_is_sent_to(
    from: &Coordinator,
    to: &Coordinator,
    addrs: Vec<PeerAddr>,
    port: u16,
)
    requires
        from@.runners == to@.runners,
        from@.port == to@.port,
        from@.port + from@.runners.len() <= 0x1_0000,
        to@.runners.contains(to@.name),
        call_ensures(Coordinator::peer_addrs, (from,), addrs),
        call_ensures(Coordinator::own_port, (to,), port),
    ensures
        addrs@.contains(PeerAddr::Multicast(port)),
        addrs@.contains(PeerAddr::Localhost(port)),
        port >= to@.port,
        to@.runners[port - to@.port] == to@.name,
{
    crate::names::first_index_facts(to@.runners, to@.name);
    let i = first_index(to@.runners, to@.name)->0;
    let (j, k) = (2 * i, 2 * i + 1);
    assert(j / 2 == i && k / 2 == i && j % 2 == 0 && k % 2 == 1);
    assert(addrs@[j] == PeerAddr::Multicast(port));
    assert(addrs@[k] == PeerAddr::Localhost(port));
}

/// No two runners of a run share a port.
pub proof fn runners_have_ports_of_their_own(a: &Coordinator, b: &Coordinator, p: u16, q: u16)
    requires
        a@.runners == b@.runners,
        a@.port == b@.port,
        a@.runners.contains(a@.name),
        b@.runners.contains(b@.name),
        a@.name != b@.name,
        call_ensures(Coordinator::own_port, (a,), p),
        call_ensures(Coordinator::own_port, (b,), q),
    ensures
        p != q,
{
    crate::names::first_index_facts(a@.runners, a@.name);
    crate::names::first_index_facts(b@.runners, b@.name);
}

/// After a broadcast a runner receives for half a second, but never past the deadline of the
/// barrier; and when it is through it goes on sending for two seconds.
pub proof fn times_of_a_barrier(elapsed: Duration, timeout: Duration, window: Duration, again: bool)
    requires
        call_ensures(receive_window, (elapsed, timeout), window),
        call_ensures(linger_step, (elapsed,), again),
    ensures
        window.nanos <= 500_000_000,
        elapsed.nanos <= timeout.nanos ==> elapsed.nanos + window.nanos <= timeout.nanos,
        window.nanos < 500_000_000 && elapsed.nanos <= timeout.nanos ==> elapsed.nanos + window.nanos
            == timeout.nanos,
        elapsed.nanos >= timeout.nanos ==> window.nanos == 0,
        again <==> elapsed.nanos < 2_000_000_000,
{
}

/// A hash is shown by its first eight bytes, or whole where it has no more.
pub proof fn hashes_are_shown_by_eight_bytes(hash: Seq<char>)
    requires
        can_shorten(hash),
    ensures
        encode_utf8(hash).len() <= 8 ==> short(hash) == hash,
        encode_utf8(hash).len() > 8 ==> encode_utf8(short(hash)) == encode_utf8(hash).take(8),
{
    let bytes = encode_utf8(hash);
    if bytes.len() > 8 {
        vstd::utf8::encode_utf8_valid_utf8(hash);
        vstd::utf8::valid_utf8_split(bytes, 8);
        vstd::utf8::decode_utf8_encode_utf8(bytes.subrange(0, 8));
        assert(bytes.subrange(0, 8) =~= bytes.take(8));
    }
}

/// How discovery begins: a runner that is alone is through at once, with its own log folder;
/// any other announces itself, and knows of itself only.
pub proof fn discovery_begins_with_the_runner_itself(
    before: CoordinatorView,
    after: CoordinatorView,
    d: DiscoveryView,
    e: DiscoveryView,
    r: DiscoverStep,
)
    requires
        discover_step(before, after, d, e, DiscoverEvent::Start, r),
    ensures
        after == before,
        forall|n: Seq<char>| #[trigger] e.seen.contains(n) <==> n == before.name,
        before.runners == seq![before.name] ==> r is Finish && r->Finish_0@ == before.proposed_log_subdir,
        before.runners != seq![before.name] ==> r is Send,
{
}

/// What the first announcement of another runner leads to, as long as it has the same config
/// and the same resume flag: its host is the one that it came from and, where the runner
/// leads, the log folder is the one that it proposes.
pub proof fn announcement_is_taken_up(
    before: CoordinatorView,
    after: CoordinatorView,
    d: DiscoveryView,
    e: DiscoveryView,
    msg: &Message,
    host: &str,
    r: DiscoverStep,
)
    requires
        discover_step(before, after, d, e, (DiscoverEvent::Received { msg, host }), r),
        msg is Discover,
        before.runners.contains(msg->Discover_name@),
        msg->Discover_name@ != before.name,
        msg->Discover_config_hash@ == before.config_hash,
        msg->Discover_resume == before.resume,
    ensures
        e.seen.contains(msg->Discover_name@),
        !before.hosts.contains_key(msg->Discover_name@) ==> after.hosts == before.hosts.insert(
            msg->Discover_name@,
            host@,
        ),
        before.hosts.contains_key(msg->Discover_name@) ==> after.hosts == before.hosts,
        d.leader_log_subdir is None && before.runners[0] == msg->Discover_name@ ==> e.leader_log_subdir
            == Some(msg->Discover_log_subdir@),
        d.leader_log_subdir is Some ==> e.leader_log_subdir == d.leader_log_subdir,
        before.runners[0] != msg->Discover_name@ ==> e.leader_log_subdir == d.leader_log_subdir,
{
    assert(before.expected().contains(msg->Discover_name@));
}

/// The outcomes, the manifests and the hosts are those that are kept under the names of the
/// runners, with nothing changed.
pub proof fn what_is_kept_is_what_is_known(
    results: NameMap<(String, i32)>,
    all: NameMap<Vec<String>>,
    hosts: Map<Seq<char>, String>,
    name: Seq<char>,
)
    ensures
        outcomes(results).contains_key(name) <==> results@.contains_key(name),
        results@.contains_key(name) ==> outcomes(results)[name].0 == results@[name].0@ && outcomes(
            results,
        )[name].1 == results@[name].1,
        manifests(all).contains_key(name) <==> all@.contains_key(name),
        all@.contains_key(name) ==> manifests(all)[name].len() == all@[name]@.len() && (forall|k: int|
            0 <= k < all@[name]@.len() ==> manifests(all)[name][k] == (#[trigger] all@[name]@[k])@),
        text_map(hosts).contains_key(name) <==> hosts.contains_key(name),
        hosts.contains_key(name) ==> text_map(hosts)[name] == hosts[name]@,
{
}

/// What one event of discovery changes of the hosts: the one of a runner that is heard of for
/// the first time is where that was sent from, and no other host changes.
pub proof fn discovery_notes_where_a_runner_was_heard(
    c: &mut Coordinator,
    state: &mut Discovery,
    event: DiscoverEvent<'_>,
    r: DiscoverStep,
    runner: Seq<char>,
)
    requires
        call_ensures(Coordinator::discover, (c, state, event), r),
    ensures
        old(c)@.hosts.contains_key(runner) ==> final(c)@.hosts.contains_key(runner)
            && final(c)@.hosts[runner] == old(c)@.hosts[runner],
        !old(c)@.hosts.contains_key(runner) ==> (final(c)@.hosts.contains_key(runner) <==> {
            &&& heard_from(event, runner)
            &&& old(c)@.runners.contains(runner)
            &&& runner != old(c)@.name
            &&& !(r is Fail)
        }),
        !old(c)@.hosts.contains_key(runner) && final(c)@.hosts.contains_key(runner) ==> match event {
            DiscoverEvent::Received { msg, host } => final(c)@.hosts[runner] == host@,
            _ => false,
        },
        final(c)@.name == old(c)@.name,
        final(c)@.runners == old(c)@.runners,
        final(c)@.run == old(c)@.run,
        final(c)@.config_hash == old(c)@.config_hash,
        final(c)@.resume == old(c)@.resume,
        final(c)@.port == old(c)@.port,
        final(c)@.proposed_log_subdir == old(c)@.proposed_log_subdir,
{
    assert(old(c)@.expected().contains(runner) <==> old(c)@.runners.contains(runner));
}

/// What one message changes of the outcomes at the barrier after a spawn: the runner that
/// reports this spawn of this run has the outcome that it reports, and no other outcome
/// changes.
pub proof fn done_barrier_notes_what_was_reported(
    c: &Coordinator,
    spawn: &str,
    status: &str,
    code: i32,
    timeout: Duration,
    results: &mut NameMap<(String, i32)>,
    msg: &Message,
    r: BarrierStep,
    runner: Seq<char>,
)
    requires
        call_ensures(
            Coordinator::done_barrier,
            (c, spawn, status, code, timeout, results, BarrierEvent::Received(msg)),
            r,
        ),
    ensures
        match *msg {
            Message::Done { name, variant, run, status: s, exit_code } => if name@ == runner && variant@
                == spawn@ && run@ == c@.run && c@.runners.contains(runner) {
                &&& final(results)@.contains_key(runner)
                &&& final(results)@[runner].0@ == s@
                &&& final(results)@[runner].1 == exit_code
            } else {
                &&& final(results)@.contains_key(runner) <==> old(results)@.contains_key(runner)
                &&& old(results)@.contains_key(runner) ==> {
                    &&& final(results)@[runner].0@ == old(results)@[runner].0@
                    &&& final(results)@[runner].1 == old(results)@[runner].1
                }
            },
            _ => {
                &&& final(results)@.contains_key(runner) <==> old(results)@.contains_key(runner)
                &&& old(results)@.contains_key(runner) ==> {
                    &&& final(results)@[runner].0@ == old(results)@[runner].0@
                    &&& final(results)@[runner].1 == old(results)@[runner].1
                }
            },
        },
{
    let (before, after) = (outcomes(*old(results)), outcomes(*final(results)));
    assert(c@.expected().contains(runner) <==> c@.runners.contains(runner));
    assert(before.contains_key(runner) <==> old(results)@.contains_key(runner));
    assert(after.contains_key(runner) <==> final(results)@.contains_key(runner));
    if before.contains_key(runner) {
        assert(before[runner] == (old(results)@[runner].0@, old(results)@[runner].1));
    }
    if after.contains_key(runner) {
        assert(after[runner] == (final(results)@[runner].0@, final(results)@[runner].1));
    }
}

/// What one message changes of who is ready at the barrier before a spawn: the runner that
/// says so of this spawn of this run is ready, and nobody else changes.
pub proof fn ready_barrier_notes_who_is_ready(
    c: &Coordinator,
    spawn: &str,
    timeout: Duration,
    seen: &mut NameSet,
    msg: &Message,
    r: BarrierStep,
    runner: Seq<char>,
)
    requires
        call_ensures(
            Coordinator::ready_barrier,
            (c, spawn, timeout, seen, BarrierEvent::Received(msg)),
            r,
        ),
    ensures
        final(seen)@.contains(runner) <==> old(seen)@.contains(runner) || match *msg {
            Message::Ready { name, variant, run } => name@ == runner && variant@ == spawn@ && run@
                == c@.run && c@.runners.contains(runner),
            _ => false,
        },
{
    assert(c@.expected().contains(runner) <==> c@.runners.contains(runner));
}

/// What one message changes of the manifests in their exchange: the runner that reports its
/// jobs of this run for the first time has those, and no other manifest changes.
pub proof fn exchange_notes_the_first_manifest(
    c: &Coordinator,
    jobs: &[String],
    timeout: Duration,
    all: &mut NameMap<Vec<String>>,
    msg: &Message,
    r: BarrierStep,
    runner: Seq<char>,
)
    requires
        call_ensures(
            Coordinator::exchange_resume_manifest,
            (c, jobs, timeout, all, BarrierEvent::Received(msg)),
            r,
        ),
    ensures
        old(all)@.contains_key(runner) ==> final(all)@.contains_key(runner) && texts(
            final(all)@[runner]@,
        ) == texts(old(all)@[runner]@),
        !old(all)@.contains_key(runner) ==> match *msg {
            Message::ResumeManifest { name, run, complete_jobs } => if name@ == runner && run@ == c@.run
                && c@.runners.contains(runner) {
                final(all)@.contains_key(runner) && texts(final(all)@[runner]@) == texts(
                    complete_jobs@,
                )
            } else {
                !final(all)@.contains_key(runner)
            },
            _ => !final(all)@.contains_key(runner),
        },
{
    let (before, after) = (manifests(*old(all)), manifests(*final(all)));
    assert(c@.expected().contains(runner) <==> c@.runners.contains(runner));
    assert(before.contains_key(runner) <==> old(all)@.contains_key(runner));
    assert(after.contains_key(runner) <==> final(all)@.contains_key(runner));
    if before.contains_key(runner) {
        assert(before[runner] == texts(old(all)@[runner]@));
    }
    if after.contains_key(runner) {
        assert(after[runner] == texts(final(all)@[runner]@));
    }
}

/// A runner is alone just where it is the only one in the list.
pub proof fn runner_is_alone_in_its_own_list(c: &Coordinator, r: bool)
    requires
        call_ensures(Coordinator::is_single_runner, (c,), r),
    ensures
        r <==> c@.runners.len() == 1 && c@.runners[0] == c@.name,
{
    if c@.runners.len() == 1 && c@.runners[0] == c@.name {
        assert(c@.runners =~= seq![c@.name]);
    }
}

/// The hosts that are handed out are those that are known, runner by runner.
pub proof fn known_hosts_are_handed_out(c: &Coordinator, r: NameMap<String>, runner: Seq<char>)
    requires
        call_ensures(Coordinator::peer_hosts, (c,), r),
    ensures
        r@.contains_key(runner) <==> c@.hosts.contains_key(runner),
        r@.contains_key(runner) ==> r@[runner]@ == c@.hosts[runner],
{
    assert(text_map(r@).contains_key(runner) <==> r@.contains_key(runner));
}

} // verus!
