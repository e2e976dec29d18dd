//! The progress channel: a link to each peer over which runners tell each other how
//! their spawns go on.

use crate::barrier_coord::FrameNote;
use crate::clock_sync::{is_stamp, stamp_now};
use crate::message::Message;
use crate::names::{first_index_facts, texts, NameMap};
use crate::peer_link::{
    decode_frame, encode_frame, frame_read, framed, FrameRead, LinksView, PeerLinks, Startup,
};
use crate::peer_link::{
    lower_names_accept, overflow_text, peers_to_accept, peers_to_connect, port_of, ports_are_sums,
};
use crate::progress::{
    updated, ProgressUpdateRef, RemoteProgressView, RemoteProgressViewHandle, SpawnStates,
    UpdateView,
};
use crate::text::name_lt;
use crate::time::Timestamp;
use vstd::prelude::*;

verus! {

/// The offset of the ports of the progress channel behind the base port.
pub const PROGRESS_TCP_OFFSET: u16 = 64;

/// The longest frame on the progress channel.
pub const PROGRESS_FRAME_MAX_BYTES: u32 = 65536;

/// A runner's side of the progress channel.
pub struct ProgressCoordinator {
    links: PeerLinks,
    view: RemoteProgressViewHandle,
}

/// How the links are opened.
pub enum ProgressStart {
    /// The runner is alone: there is nothing to open.
    Alone,
    /// Listen at the port and open the links.
    Open { port: u16, startup: Startup },
}

/// What a progress message says, apart from its time.
pub open spec fn says_progress(
    msg: Message,
    runner: Seq<char>,
    spawn: Seq<char>,
    phase: Seq<char>,
    sent: u64,
    received: u64,
    eot_sent: bool,
    eot_received: bool,
) -> bool {
    match msg {
        Message::ProgressUpdate {
            runner: r,
            spawn: s,
            phase: p,
            sent: x,
            received: y,
            eot_sent: es,
            eot_received: er,
            ts,
        } => {
            &&& r@ == runner
            &&& s@ == spawn
            &&& p@ == phase
            &&& x == sent
            &&& y == received
            &&& es == eot_sent
            &&& er == eot_received
        },
        _ => false,
    }
}

/// `u` is the update that a message carries.
pub open spec fn is_update(msg: Message, u: ProgressUpdateRef<'_>) -> bool {
    &&& says_progress(msg, u.runner@, u.spawn@, u.phase@, u.sent, u.received, u.eot_sent, u.eot_received)
    &&& msg->ProgressUpdate_ts@ == u.ts@
}

/// The update that a message carries, if it carries one.
pub open spec fn update_in(msg: Message) -> Option<UpdateView> {
    match msg {
        Message::ProgressUpdate { runner, spawn, phase, sent, received, eot_sent, eot_received, ts } => Some(
            UpdateView {
                runner: runner@,
                spawn: spawn@,
                phase: phase@,
                sent,
                received,
                eot_sent,
                eot_received,
                ts: ts@,
            },
        ),
        _ => None,
    }
}

/// The update that a message carries, if it carries one.
pub fn update_of(msg: &Message) -> (r: Option<ProgressUpdateRef<'_>>)
    ensures
        match r {
            Some(u) => is_update(*msg, u) && update_in(*msg) == Some(u@),
            None => update_in(*msg) is None,
        },
{
    match msg {
        Message::ProgressUpdate { runner, spawn, phase, sent, received, eot_sent, eot_received, ts } => Some(
            ProgressUpdateRef {
                runner: runner.as_str(),
                spawn: spawn.as_str(),
                phase: phase.as_str(),
                sent: *sent,
                received: *received,
                eot_sent: *eot_sent,
                eot_received: *eot_received,
                ts: ts.as_str(),
            },
        ),
        _ => None,
    }
}

/// Folds a frame of a peer, with a message or without one, into the view. An update goes
/// in; anything else is turned away and leaves the view as it is.
pub fn fold_frame(view: &mut RemoteProgressView, msg: Option<&Message>, now: Timestamp) -> (r: FrameNote)
    ensures
        match msg {
            None => r == FrameNote::Malformed && final(view)@ == old(view)@,
            Some(m) => match update_in(*m) {
                Some(update) => r == FrameNote::Kept && final(view)@ == updated(old(view)@, update, now),
                None => r == FrameNote::Unexpected && final(view)@ == old(view)@,
            },
        },
{
    match msg {
        None => FrameNote::Malformed,
        Some(m) => match update_of(m) {
            Some(update) => {
                view.apply_update(update, now);
                FrameNote::Kept
            },
            None => FrameNote::Unexpected,
        },
    }
}

/// The message with a runner's progress at the time `ts`.
pub fn progress_update(
    runner: &str,
    spawn: &str,
    phase: &str,
    sent: u64,
    received: u64,
    eot_sent: bool,
    eot_received: bool,
    ts: String,
) -> (r: Message)
    ensures
        says_progress(r, runner@, spawn@, phase@, sent, received, eot_sent, eot_received),
        r->ProgressUpdate_ts@ == ts@,
{
    Message::ProgressUpdate {
        runner: runner.to_owned(),
        spawn: spawn.to_owned(),
        phase: phase.to_owned(),
        sent,
        received,
        eot_sent,
        eot_received,
        ts,
    }
}

impl ProgressCoordinator {
    /// The links of the channel.
    pub closed spec fn links_view(&self) -> LinksView {
        self.links@
    }

    /// The shared view that the updates go into.
    pub closed spec fn shared_view(&self) -> RemoteProgressViewHandle {
        self.view
    }

    /// A channel without any link, whose updates go into `view`.
    pub fn new(
        name: String,
        runners_order: Vec<String>,
        base_port: u16,
        view: RemoteProgressViewHandle,
    ) -> (r: Self)
        ensures
            r.links_view() == (LinksView {
                name: name@,
                runners: texts(runners_order@),
                base_port,
                offset: PROGRESS_TCP_OFFSET,
                connected: Set::empty(),
            }),
            r.shared_view() == view,
    {
        ProgressCoordinator {
            links: PeerLinks::new(name, runners_order, base_port, PROGRESS_TCP_OFFSET),
            view,
        }
    }

    /// Whether the runner takes part alone.
    pub fn is_single_runner(&self) -> (r: bool)
        ensures
            r == self.links_view().single_runner(),
    {
        self.links.is_single_runner()
    }

    /// The links of the channel.
    pub fn links(&self) -> (r: &PeerLinks)
        ensures
            r@ == self.links_view(),
    {
        &self.links
    }

    /// How the links are opened: at which port to listen, whose connection to wait for
    /// and whom to connect to. Where the port runs over, the text of the error.
    pub fn start(&self) -> (r: Result<ProgressStart, String>)
        ensures
            ({
                let l = self.links_view();
                if l.single_runner() {
                    r is Ok && r->Ok_0 is Alone
                } else {
                    match port_of(l.base_port, l.offset, l.own_index()) {
                        None => r is Err && r->Err_0@ == overflow_text(
                            l.base_port,
                            l.offset,
                            l.own_index(),
                        ),
                        Some(p) => {
                            &&& r is Ok
                            &&& r->Ok_0 is Open
                            &&& r->Ok_0->port == p
                            &&& r->Ok_0->startup.accepting() == peers_to_accept(
                                l.runners.to_set(),
                                l.name,
                            )
                            &&& r->Ok_0->startup.connecting() == peers_to_connect(
                                l.runners.to_set(),
                                l.name,
                            )
                        },
                    }
                }
            }),
    {
        if self.links.is_single_runner() {
            return Ok(ProgressStart::Alone);
        }
        match self.links.own_port() {
            Ok(port) => Ok(ProgressStart::Open { port, startup: self.links.startup() }),
            Err(e) => Err(e),
        }
    }

    /// A link to a peer was opened.
    pub fn install_peer(&mut self, peer: &str)
        ensures
            final(self).links_view() == old(self).links_view().with_connected(
                old(self).links_view().connected.insert(peer@),
            ),
            final(self).shared_view() == old(self).shared_view(),
    {
        self.links.install_peer(peer);
    }

    /// The message with the progress of a spawn as of now, for every connected peer; none
    /// where the runner is alone. Its time stamp is that of the clock at the call; which
    /// instant it shows depends on the clock.
    pub fn publish(
        &self,
        spawn: &str,
        phase: &str,
        sent: u64,
        received: u64,
        eot_sent: bool,
        eot_received: bool,
    ) -> (r: Option<Message>)
        ensures
            match r {
                None => self.links_view().single_runner(),
                Some(m) => !self.links_view().single_runner() && says_progress(
                    m,
                    self.links_view().name,
                    spawn@,
                    phase@,
                    sent,
                    received,
                    eot_sent,
                    eot_received,
                ) && is_stamp(m->ProgressUpdate_ts@),
            },
    {
        if self.links.is_single_runner() {
            return None;
        }
        let ts = stamp_now();
        Some(
            progress_update(
                self.links.name(),
                spawn,
                phase,
                sent,
                received,
                eot_sent,
                eot_received,
                ts,
            ),
        )
    }

    /// Takes note of what became of writing to the peers: those that failed are no longer
    /// connected.
    pub fn wrote(&mut self, written: &NameMap<bool>)
        ensures
            final(self).links_view() == old(self).links_view().with_connected(
                old(self).links_view().connected.filter(
                    |p: Seq<char>| !(written@.contains_key(p) && !written@[p]),
                ),
            ),
            final(self).shared_view() == old(self).shared_view(),
    {
        let _ = self.links.wrote(written);
    }

    /// A frame of a peer came in, with a message or without one. It is folded into the
    /// shared view, as `fold_frame` does while no other thread has it.
    pub fn receive(&self, msg: Option<&Message>, now: Timestamp) -> (r: FrameNote)
        ensures
            r == (match msg {
                None => FrameNote::Malformed,
                Some(m) => if m is ProgressUpdate {
                    FrameNote::Kept
                } else {
                    FrameNote::Unexpected
                },
            }),
    {
        self.view.receive(msg, now)
    }

    /// All links are closed; nothing is to be done where the runner is alone.
    pub fn shutdown(&mut self)
        ensures
            final(self).links_view() == (if old(self).links_view().single_runner() {
                old(self).links_view()
            } else {
                old(self).links_view().with_connected(Set::empty())
            }),
            final(self).shared_view() == old(self).shared_view(),
    {
        if self.links.is_single_runner() {
            return;
        }
        self.links.close();
    }

    /// A handle to the shared view that the updates go into: the one that the channel was
    /// made with.
    pub fn view(&self) -> (r: RemoteProgressViewHandle)
        ensures
            r == self.shared_view(),
    {
        self.view.clone()
    }
}

/// The update that a peer reads out of a published message says just what was published.
pub proof fn published_update_is_read_back(
    msg: Message,
    u: ProgressUpdateRef<'_>,
    runner: Seq<char>,
    spawn: Seq<char>,
    phase: Seq<char>,
    sent: u64,
    received: u64,
    eot_sent: bool,
    eot_received: bool,
)
    requires
        says_progress(msg, runner, spawn, phase, sent, received, eot_sent, eot_received),
        is_update(msg, u),
    ensures
        u.runner@ == runner && u.spawn@ == spawn && u.phase@ == phase,
        u.sent == sent && u.received == received,
        u.eot_sent == eot_sent && u.eot_received == eot_received,
{
}

/// A payload as it goes over the progress channel.
pub fn write_progress_frame(payload: &[u8]) -> (r: Vec<u8>)
    ensures
        r@ == framed(payload@),
{
    encode_frame(payload)
}

/// The frame at the beginning of what came in over the progress channel.
pub fn read_progress_frame(bytes: &[u8]) -> (r: FrameRead)
    ensures
        frame_read(bytes@, PROGRESS_FRAME_MAX_BYTES, r),
{
    decode_frame(bytes, PROGRESS_FRAME_MAX_BYTES)
}

/// What a message carries for the view: a progress message all that it says, and any other
/// message nothing.
pub proof fn messages_carry_what_they_say(msg: Message)
    ensures
        match msg {
            Message::ProgressUpdate { runner, spawn, phase, sent, received, eot_sent, eot_received, ts } => {
                let u = update_in(msg)->0;
                &&& update_in(msg) is Some
                &&& u.runner == runner@ && u.spawn == spawn@ && u.phase == phase@ && u.ts == ts@
                &&& u.sent == sent && u.received == received
                &&& u.eot_sent == eot_sent && u.eot_received == eot_received
            },
            _ => update_in(msg) is None,
        },
{
}

/// What one runner publishes another finds in its view, once the message is folded in: the
/// phase of the spawn, and counters and marks that are no less than those that were
/// published.
pub proof fn published_progress_is_seen(
    msg: Message,
    runner: Seq<char>,
    spawn: Seq<char>,
    phase: Seq<char>,
    sent: u64,
    received: u64,
    eot_sent: bool,
    eot_received: bool,
    view: Map<Seq<char>, SpawnStates>,
    now: Timestamp,
)
    requires
        says_progress(msg, runner, spawn, phase, sent, received, eot_sent, eot_received),
    ensures
        update_in(msg) is Some,
        ({
            let after = updated(view, update_in(msg)->0, now);
            let is = after[runner][spawn];
            &&& after.contains_key(runner) && after[runner].contains_key(spawn)
            &&& is.phase == phase && is.last_update_ts == now
            &&& is.sent >= sent && is.received >= received
            &&& eot_sent ==> is.eot_sent
            &&& eot_received ==> is.eot_received
            &&& !view.contains_key(runner) ==> is.sent == sent && is.received == received && is.eot_sent
                == eot_sent && is.eot_received == eot_received
        }),
{
}

/// The ports of the progress channel begin 64 behind the base port, and its frames have at
/// most 65536 bytes.
pub proof fn measures_of_the_progress_channel()
    ensures
        PROGRESS_TCP_OFFSET == 64,
        PROGRESS_FRAME_MAX_BYTES == 65_536,
{
}

/// A frame is told apart by its message: one with progress changes the view as the update that
/// it carries does, and any other changes nothing.
pub proof fn frames_are_folded_in(
    view: &mut RemoteProgressView,
    msg: Option<&Message>,
    now: Timestamp,
    r: FrameNote,
)
    requires
        call_ensures(fold_frame, (view, msg, now), r),
    ensures
        r == FrameNote::Malformed <==> msg is None,
        r == FrameNote::Kept <==> msg is Some && *msg->0 is ProgressUpdate,
        r != FrameNote::Kept ==> final(view)@ == old(view)@,
        r == FrameNote::Kept ==> {
            let m = *msg->0;
            let (runner, spawn) = (m->ProgressUpdate_runner@, m->ProgressUpdate_spawn@);
            let is = final(view)@[runner][spawn];
            &&& final(view)@.contains_key(runner) && final(view)@[runner].contains_key(spawn)
            &&& is.phase == m->ProgressUpdate_phase@ && is.ts == m->ProgressUpdate_ts@
            &&& is.last_update_ts == now
            &&& is.sent >= m->ProgressUpdate_sent && is.received >= m->ProgressUpdate_received
            &&& !old(view)@.contains_key(runner) ==> is.sent == m->ProgressUpdate_sent && is.received
                == m->ProgressUpdate_received
        },
{
}

/// What is published, by every runner that is not alone: who publishes, the spawn, its phase,
/// both counters and both marks.
pub proof fn progress_is_published_in_full(
    c: &ProgressCoordinator,
    spawn: &str,
    phase: &str,
    sent: u64,
    received: u64,
    eot_sent: bool,
    eot_received: bool,
    r: Option<Message>,
)
    requires
        call_ensures(
            ProgressCoordinator::publish,
            (c, spawn, phase, sent, received, eot_sent, eot_received),
            r,
        ),
    ensures
        ({
            let l = c.links_view();
            r is None <==> l.runners.len() == 1 && l.runners[0] == l.name
        }),
        r is Some ==> {
            let m = r->0;
            &&& m is ProgressUpdate
            &&& m->ProgressUpdate_runner@ == c.links_view().name
            &&& m->ProgressUpdate_spawn@ == spawn@
            &&& m->ProgressUpdate_phase@ == phase@
            &&& m->ProgressUpdate_sent == sent
            &&& m->ProgressUpdate_received == received
            &&& m->ProgressUpdate_eot_sent == eot_sent
            &&& m->ProgressUpdate_eot_received == eot_received
        },
{
    let l = c.links_view();
    if l.runners.len() == 1 && l.runners[0] == l.name {
        assert(l.runners =~= seq![l.name]);
    }
}

/// The links of the channel change as they are opened, written to and closed: a peer is
/// connected once its link was opened and until writing to it fails; shutting down leaves no
/// link, where the runner is not alone.
pub proof fn progress_links_are_kept(
    a: &mut ProgressCoordinator,
    b: &mut ProgressCoordinator,
    c: &mut ProgressCoordinator,
    peer: &str,
    written: &NameMap<bool>,
    other: Seq<char>,
    ra: (),
    rb: (),
    rc: (),
)
    requires
        call_ensures(ProgressCoordinator::install_peer, (a, peer), ra),
        call_ensures(ProgressCoordinator::wrote, (b, written), rb),
        call_ensures(ProgressCoordinator::shutdown, (c,), rc),
    ensures
        final(a).links_view().connected.contains(other) <==> other == peer@ || old(a).links_view().connected.contains(other),
        final(b).links_view().connected.contains(other) <==> old(b).links_view().connected.contains(other)
            && (!written@.contains_key(other) || written@[other] == true),
        ({
            let l = old(c).links_view();
            let alone = l.runners.len() == 1 && l.runners[0] == l.name;
            final(c).links_view().connected.contains(other) <==> alone && l.connected.contains(other)
        }),
        final(a).links_view().runners == old(a).links_view().runners,
        final(a).links_view().name == old(a).links_view().name,
        final(b).links_view().runners == old(b).links_view().runners,
        final(b).links_view().name == old(b).links_view().name,
        final(c).links_view().runners == old(c).links_view().runners,
        final(c).links_view().name == old(c).links_view().name,
{
    let l = old(c).links_view();
    if l.runners.len() == 1 && l.runners[0] == l.name {
        assert(l.runners =~= seq![l.name]);
    }
}

/// The channel begins with no link and with the view that it was given. A runner that is alone
/// opens nothing; any other listens at the base port plus 64 plus its place in the list, where
/// that is a port.
pub proof fn progress_channel_is_opened(
    name: String,
    runners: Vec<String>,
    base_port: u16,
    view: RemoteProgressViewHandle,
    c: ProgressCoordinator,
    r: Result<ProgressStart, String>,
    alone: bool,
    shared: RemoteProgressViewHandle,
    place: int,
    peer: Seq<char>,
)
    requires
        call_ensures(ProgressCoordinator::new, (name, runners, base_port, view), c),
        call_ensures(ProgressCoordinator::start, (&c,), r),
        call_ensures(ProgressCoordinator::is_single_runner, (&c,), alone),
        call_ensures(ProgressCoordinator::view, (&c,), shared),
        0 <= place < runners@.len(),
        runners@[place]@ == name@,
        texts(runners@).no_duplicates(),
    ensures
        shared == view,
        !c.links_view().connected.contains(peer),
        alone <==> runners@.len() == 1,
        alone ==> r is Ok && r->Ok_0 is Alone,
        !alone && base_port + 64 + place <= 65_535 ==> {
            &&& r is Ok
            &&& r->Ok_0 is Open
            &&& r->Ok_0->port == base_port + 64 + place
            &&& r->Ok_0->startup.accepting().contains(peer) <==> texts(runners@).contains(peer)
                && name_lt(name@, peer)
            &&& r->Ok_0->startup.connecting().contains(peer) <==> texts(runners@).contains(peer)
                && name_lt(peer, name@)
        },
        !alone && base_port + 64 + place > 65_535 ==> r is Err,
{
    let t = texts(runners@);
    assert(t[place] == name@);
    if runners@.len() == 1 {
        assert(t =~= seq![name@]);
    }
    first_index_facts(t, name@);
    ports_are_sums(base_port, PROGRESS_TCP_OFFSET, place);
    lower_names_accept(t.to_set(), name@, peer);
}

} // verus!
