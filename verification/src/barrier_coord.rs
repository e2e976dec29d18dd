//! The barrier channel: a link to each peer that carries `Ready` and `Done`, and for each
//! peer an inbox of what has come in.

use crate::message::Message;
use crate::names::{first_index_facts, texts, to_set_push, NameMap, NameSet};
use crate::peer_link::{
    decode_frame, encode_frame, frame_read, framed, FrameRead, LinksView, PeerLinks, Startup,
};
use crate::peer_link::{
    lower_names_accept, overflow_text, peers_to_accept, peers_to_connect, port_of, ports_are_sums,
};
use crate::text::name_lt;
use vstd::prelude::*;

verus! {

/// The offset of the ports of the barrier channel behind the base port.
pub const BARRIER_TCP_OFFSET: u16 = 96;

/// The longest frame on the barrier channel.
pub const BARRIER_FRAME_MAX_BYTES: u32 = 16384;

/// A runner's side of the barrier channel.
#[derive(Debug, PartialEq, Eq)]
pub struct BarrierCoordinator {
    links: PeerLinks,
    inboxes: NameMap<Vec<Message>>,
}

/// The messages of each inbox, the first that came in first.
pub open spec fn inbox_views(m: Map<Seq<char>, Vec<Message>>) -> Map<Seq<char>, Seq<Message>> {
    m.map_values(|v: Vec<Message>| v@)
}

/// What a `BarrierCoordinator` is.
pub struct BarrierView {
    pub links: LinksView,
    pub inboxes: Map<Seq<char>, Seq<Message>>,
}

/// The message belongs on the barrier channel.
pub open spec fn is_barrier_message(msg: Message) -> bool {
    msg is Ready || msg is Done
}

/// What became of a frame.
#[derive(Debug, Clone, Copy, PartialEq, Eq, Structural)]
pub enum FrameNote {
    /// It went into the inbox.
    Kept,
    /// It holds no message.
    Malformed,
    /// It holds a message that does not belong here.
    Unexpected,
}

/// The inboxes after a frame of `peer` came in, which holds `msg`.
pub open spec fn inboxes_after(
    inboxes: Map<Seq<char>, Seq<Message>>,
    peer: Seq<char>,
    msg: Option<Message>,
) -> Map<Seq<char>, Seq<Message>> {
    match msg {
        Some(m) => if is_barrier_message(m) && inboxes.contains_key(peer) {
            inboxes.insert(peer, inboxes[peer].push(m))
        } else {
            inboxes
        },
        None => inboxes,
    }
}

/// How the links are opened.
pub enum BarrierStart {
    /// The runner is alone: there is nothing to open.
    Alone,
    /// Listen at the port and open the links.
    Open { port: u16, startup: Startup },
}

impl BarrierCoordinator {
    pub closed spec fn view(&self) -> BarrierView {
        BarrierView { links: self.links@, inboxes: inbox_views(self.inboxes@) }
    }

    /// A channel without any link.
    pub fn new(name: String, runners_order: Vec<String>, base_port: u16) -> (r: Self)
        ensures
            r@ == (BarrierView {
                links: (LinksView {
                    name: name@,
                    runners: texts(runners_order@),
                    base_port,
                    offset: BARRIER_TCP_OFFSET,
                    connected: Set::empty(),
                }),
                inboxes: Map::empty(),
            }),
    {
        let r = BarrierCoordinator {
            links: PeerLinks::new(name, runners_order, base_port, BARRIER_TCP_OFFSET),
            inboxes: NameMap::new(),
        };
        assert(inbox_views(r.inboxes@) =~= Map::empty());
        r
    }

    /// Whether the runner takes part alone.
    pub fn is_single_runner(&self) -> (r: bool)
        ensures
            r == self@.links.single_runner(),
    {
        self.links.is_single_runner()
    }

    /// The peers that are connected.
    pub fn connected_peers(&self) -> (r: NameSet)
        ensures
            r@ == self@.links.connected,
    {
        self.links.connected_peers()
    }

    /// The links of the channel.
    pub fn links(&self) -> (r: &PeerLinks)
        ensures
            r@ == self@.links,
    {
        &self.links
    }

    /// How the links are opened: at which port to listen, whose connection to wait for
    /// and whom to connect to. Where the port runs over, the text of the error.
    pub fn start(&self) -> (r: Result<BarrierStart, String>)
        ensures
            ({
                let l = self@.links;
                if l.single_runner() {
                    r is Ok && r->Ok_0 is Alone
                } else {
                    match port_of(l.base_port, l.offset, l.own_index()) {
                        None => r is Err && r->Err_0@ == overflow_text(
                            l.base_port,
                            l.offset,
                            l.own_index(),
                        ),
                        Some(p) => {
                            &&& r is Ok
                            &&& r->Ok_0 is Open
                            &&& r->Ok_0->port == p
                            &&& r->Ok_0->startup.accepting() == peers_to_accept(
                                l.runners.to_set(),
                                l.name,
                            )
                            &&& r->Ok_0->startup.connecting() == peers_to_connect(
                                l.runners.to_set(),
                                l.name,
                            )
                        },
                    }
                }
            }),
    {
        if self.links.is_single_runner() {
            return Ok(BarrierStart::Alone);
        }
        match self.links.own_port() {
            Ok(port) => Ok(BarrierStart::Open { port, startup: self.links.startup() }),
            Err(e) => Err(e),
        }
    }

    /// A link to a peer was opened; its inbox is empty.
    pub fn install_peer(&mut self, peer: &str)
        ensures
            final(self)@ == (BarrierView {
                links: old(self)@.links.with_connected(old(self)@.links.connected.insert(peer@)),
                inboxes: old(self)@.inboxes.insert(peer@, Seq::empty()),
            }),
    {
        let ghost before = inbox_views(self.inboxes@);
        self.links.install_peer(peer);
        let empty: Vec<Message> = Vec::new();
        assert(empty@ =~= Seq::empty());
        self.inboxes.insert(peer.to_owned(), empty);
        assert(inbox_views(self.inboxes@) =~= before.insert(peer@, Seq::empty()));
    }

    /// A frame of a peer came in, with a message or without one. Only `Ready` and `Done`
    /// go into the inbox.
    pub fn receive(&mut self, peer: &str, msg: Option<Message>) -> (r: FrameNote)
        ensures
            final(self)@ == (BarrierView {
                links: old(self)@.links,
                inboxes: inboxes_after(old(self)@.inboxes, peer@, msg),
            }),
            r == (match msg {
                None => FrameNote::Malformed,
                Some(m) => if is_barrier_message(m) {
                    FrameNote::Kept
                } else {
                    FrameNote::Unexpected
                },
            }),
    {
        let ghost before = inbox_views(self.inboxes@);
        match msg {
            None => FrameNote::Malformed,
            Some(m) => {
                let belongs = match &m {
                    Message::Ready { .. } => true,
                    Message::Done { .. } => true,
                    _ => false,
                };
                if !belongs {
                    return FrameNote::Unexpected;
                }
                match self.inboxes.remove(peer) {
                    Some(mut inbox) => {
                        let ghost had = inbox@;
                        assert(before[peer@] == had);
                        inbox.push(m);
                        self.inboxes.insert(peer.to_owned(), inbox);
                        assert(inbox_views(self.inboxes@) =~= before.insert(peer@, had.push(m)));
                    },
                    None => {
                        assert(inbox_views(self.inboxes@) =~= before);
                    },
                }
                FrameNote::Kept
            },
        }
    }

    /// Takes note of what became of a broadcast: which peers were written to, and which
    /// failed and are no longer connected. Nothing is sent where the runner is alone.
    pub fn broadcast(&mut self, written: &NameMap<bool>) -> (r: NameSet)
        ensures
            old(self)@.links.single_runner() ==> r@ == Set::<Seq<char>>::empty() && final(self)@
                == old(self)@,
            !old(self)@.links.single_runner() ==> {
                &&& r@ == old(self)@.links.connected.filter(
                    |p: Seq<char>| written@.contains_key(p) && written@[p],
                )
                &&& final(self)@ == (BarrierView {
                    links: old(self)@.links.with_connected(
                        old(self)@.links.connected.filter(
                            |p: Seq<char>| !(written@.contains_key(p) && !written@[p]),
                        ),
                    ),
                    inboxes: old(self)@.inboxes,
                })
            },
    {
        if self.links.is_single_runner() {
            return NameSet::new();
        }
        self.links.wrote(written)
    }

    /// Takes what is in a peer's inbox, and nothing where the peer has none.
    pub fn drain_inbox(&mut self, peer: &str) -> (r: Vec<Message>)
        ensures
            r@ == (if old(self)@.inboxes.contains_key(peer@) {
                old(self)@.inboxes[peer@]
            } else {
                Seq::empty()
            }),
            final(self)@ == (BarrierView {
                links: old(self)@.links,
                inboxes: if old(self)@.inboxes.contains_key(peer@) {
                    old(self)@.inboxes.insert(peer@, Seq::empty())
                } else {
                    old(self)@.inboxes
                },
            }),
    {
        let ghost before = inbox_views(self.inboxes@);
        match self.inboxes.remove(peer) {
            Some(inbox) => {
                let empty: Vec<Message> = Vec::new();
                assert(empty@ =~= Seq::empty());
                self.inboxes.insert(peer.to_owned(), empty);
                assert(inbox_views(self.inboxes@) =~= before.insert(peer@, Seq::empty()));
                inbox
            },
            None => {
                assert(inbox_views(self.inboxes@) =~= before);
                let empty: Vec<Message> = Vec::new();
                assert(empty@ =~= Seq::empty());
                empty
            },
        }
    }

    /// Takes what is in all inboxes, by peer; peers with an empty inbox are left out.
    pub fn drain_all_inboxes(&mut self) -> (r: NameMap<Vec<Message>>)
        ensures
            inbox_views(r@) == old(self)@.inboxes.restrict(
                old(self)@.inboxes.dom().filter(|p: Seq<char>| old(self)@.inboxes[p].len() > 0),
            ),
            final(self)@ == (BarrierView {
                links: old(self)@.links,
                inboxes: old(self)@.inboxes.map_values(|v: Seq<Message>| Seq::<Message>::empty()),
            }),
    {
        let ghost before = inbox_views(self.inboxes@);
        let ghost links = self.links@;
        let peers = self.inboxes.keys();
        let ghost t = texts(peers@);
        assert(before.dom() =~= self.inboxes@.dom());
        let mut out: NameMap<Vec<Message>> = NameMap::new();
        let n: usize = peers.len();
        proof {
            assert(t.take(0).to_set() =~= Set::empty());
            assert(inbox_views(out@) =~= drained_part(before, t.take(0).to_set()));
            assert(inbox_views(self.inboxes@) =~= emptied_part(before, t.take(0).to_set()));
        }
        for i in 0..n
            invariant
                n == peers@.len(),
                t == texts(peers@),
                t.to_set() == before.dom(),
                self.links@ == links,
                inbox_views(out@) == drained_part(before, t.take(i as int).to_set()),
                inbox_views(self.inboxes@) == emptied_part(before, t.take(i as int).to_set()),
        {
            let peer = peers[i].as_str();
            let ghost done = t.take(i as int).to_set();
            let ghost next = t.take(i + 1).to_set();
            let ghost out_before = inbox_views(out@);
            let ghost boxes_before = inbox_views(self.inboxes@);
            proof {
                assert(t[i as int] == peer@);
                assert(t.to_set().contains(t[i as int]));
                assert(t.take(i + 1) =~= t.take(i as int).push(t[i as int]));
                to_set_push(t.take(i as int), t[i as int]);
                assert(boxes_before.contains_key(peer@));
            }
            let ghost had = boxes_before[peer@];
            let inbox = self.drain_inbox(peer);
            assert(inbox@ == had);
            assert(inbox_views(self.inboxes@) =~= emptied_part(before, next));
            if inbox.len() > 0 {
                assert(!done.contains(peer@)) by {
                    if done.contains(peer@) {
                        assert(had =~= Seq::<Message>::empty());
                    }
                }
                assert(had == before[peer@]);
                out.insert(peers[i].clone(), inbox);
                assert(inbox_views(out@) =~= out_before.insert(peer@, had));
                assert(inbox_views(out@) =~= drained_part(before, next));
            } else {
                assert(inbox_views(out@) =~= drained_part(before, next)) by {
                    if !done.contains(peer@) {
                        assert(had == before[peer@]);
                    }
                }
            }
        }
        proof {
            assert(t.take(t.len() as int) =~= t);
            assert(inbox_views(out@) =~= before.restrict(
                before.dom().filter(|p: Seq<char>| before[p].len() > 0),
            ));
            assert(inbox_views(self.inboxes@) =~= before.map_values(
                |v: Seq<Message>| Seq::<Message>::empty(),
            ));
        }
        out
    }

    /// All links are closed; nothing is to be done where the runner is alone.
    pub fn shutdown(&mut self)
        ensures
            final(self)@ == (if old(self)@.links.single_runner() {
                old(self)@
            } else {
                BarrierView {
                    links: old(self)@.links.with_connected(Set::empty()),
                    inboxes: old(self)@.inboxes,
                }
            }),
    {
        if self.links.is_single_runner() {
            return;
        }
        self.links.close();
    }
}

spec fn drained_part(
    before: Map<Seq<char>, Seq<Message>>,
    done: Set<Seq<char>>,
) -> Map<Seq<char>, Seq<Message>> {
    before.restrict(
        before.dom().filter(|p: Seq<char>| done.contains(p) && before[p].len() > 0),
    )
}

spec fn emptied_part(
    before: Map<Seq<char>, Seq<Message>>,
    done: Set<Seq<char>>,
) -> Map<Seq<char>, Seq<Message>> {
    Map::new(
        |p: Seq<char>| before.contains_key(p),
        |p: Seq<char>|
            if done.contains(p) {
                Seq::<Message>::empty()
            } else {
                before[p]
            },
    )
}

/// The inboxes after these frames of `peer` came in.
pub open spec fn inboxes_after_all(
    inboxes: Map<Seq<char>, Seq<Message>>,
    peer: Seq<char>,
    msgs: Seq<Message>,
) -> Map<Seq<char>, Seq<Message>>
    decreases msgs.len(),
{
    if msgs.len() == 0 {
        inboxes
    } else {
        inboxes_after(
            inboxes_after_all(inboxes, peer, msgs.drop_last()),
            peer,
            Some(msgs.last()),
        )
    }
}

/// No barrier message is lost: what a connected peer sends stands behind what was in its
/// inbox, in the order in which it came in, and no other inbox changes.
pub proof fn no_barrier_message_is_lost(
    inboxes: Map<Seq<char>, Seq<Message>>,
    peer: Seq<char>,
    msgs: Seq<Message>,
)
    requires
        inboxes.contains_key(peer),
        forall|i: int| 0 <= i < msgs.len() ==> is_barrier_message(#[trigger] msgs[i]),
    ensures
        inboxes_after_all(inboxes, peer, msgs) == inboxes.insert(peer, inboxes[peer] + msgs),
    decreases msgs.len(),
{
    if msgs.len() == 0 {
        assert(inboxes[peer] + msgs =~= inboxes[peer]);
        assert(inboxes.insert(peer, inboxes[peer]) =~= inboxes);
    } else {
        let t = msgs.drop_last();
        assert forall|i: int| 0 <= i < t.len() implies is_barrier_message(#[trigger] t[i]) by {
            assert(t[i] == msgs[i]);
        }
        no_barrier_message_is_lost(inboxes, peer, t);
        assert(is_barrier_message(msgs[msgs.len() - 1]));
        assert((inboxes[peer] + t).push(msgs.last()) =~= inboxes[peer] + msgs);
        assert(inboxes_after_all(inboxes, peer, msgs) =~= inboxes.insert(peer, inboxes[peer] + msgs));
    }
}

/// A payload as it goes over the barrier channel.
pub fn write_barrier_frame(payload: &[u8]) -> (r: Vec<u8>)
    ensures
        r@ == framed(payload@),
{
    encode_frame(payload)
}

/// The frame at the beginning of what came in over the barrier channel.
pub fn read_barrier_frame(bytes: &[u8]) -> (r: FrameRead)
    ensures
        frame_read(bytes@, BARRIER_FRAME_MAX_BYTES, r),
{
    decode_frame(bytes, BARRIER_FRAME_MAX_BYTES)
}

/// What is put into an inbox: just the messages that a runner is ready or done, and only
/// where the peer that sent them is connected; it goes behind what is there, and the
/// inboxes of the other peers stay as they are.
pub proof fn inboxes_take_barrier_messages(
    inboxes: Map<Seq<char>, Seq<Message>>,
    peer: Seq<char>,
    msg: Option<Message>,
    other: Seq<char>,
)
    ensures
        ({
            let after = inboxes_after(inboxes, peer, msg);
            let taken = msg is Some && (msg->0 is Ready || msg->0 is Done) && inboxes.contains_key(peer);
            &&& after.dom() == inboxes.dom()
            &&& taken ==> after[peer].len() == inboxes[peer].len() + 1 && after[peer].last() == msg->0
                && after[peer].drop_last() == inboxes[peer]
            &&& !taken ==> after == inboxes
            &&& other != peer && inboxes.contains_key(other) ==> after[other] == inboxes[other]
        }),
{
    let after = inboxes_after(inboxes, peer, msg);
    assert(after.dom() =~= inboxes.dom());
    if msg is Some && is_barrier_message(msg->0) && inboxes.contains_key(peer) {
        assert(after[peer].drop_last() =~= inboxes[peer]);
    }
}

/// The ports of the barrier channel begin 96 behind the base port, and its frames have at
/// most 16384 bytes.
pub proof fn measures_of_the_barrier_channel()
    ensures
        BARRIER_TCP_OFFSET == 96,
        BARRIER_FRAME_MAX_BYTES == 16_384,
{
}

/// An inbox holds the messages that are kept in it, in their order.
pub proof fn inboxes_hold_what_is_kept(m: Map<Seq<char>, Vec<Message>>, peer: Seq<char>)
    ensures
        inbox_views(m).contains_key(peer) <==> m.contains_key(peer),
        m.contains_key(peer) ==> inbox_views(m)[peer] == m[peer]@,
{
}

/// A frame of a peer is told apart by its message, and only what belongs to a barrier is put
/// behind what the inbox of its sender holds; the links stay as they are.
pub proof fn frames_are_told_apart(
    c: &mut BarrierCoordinator,
    peer: &str,
    msg: Option<Message>,
    other: Seq<char>,
    r: FrameNote,
)
    requires
        call_ensures(BarrierCoordinator::receive, (c, peer, msg), r),
    ensures
        r == FrameNote::Malformed <==> msg is None,
        r == FrameNote::Kept <==> msg is Some && (msg->0 is Ready || msg->0 is Done),
        final(c)@.links == old(c)@.links,
        final(c)@.inboxes.dom() == old(c)@.inboxes.dom(),
        old(c)@.inboxes.contains_key(other) ==> final(c)@.inboxes[other] == if r == FrameNote::Kept
            && other == peer@ {
            old(c)@.inboxes[other].push(msg->0)
        } else {
            old(c)@.inboxes[other]
        },
{
    inboxes_take_barrier_messages(old(c)@.inboxes, peer@, msg, other);
}

/// A peer whose link was opened is connected and has an inbox with nothing in it; the other
/// links and inboxes stay as they are.
pub proof fn opened_links_have_an_inbox(c: &mut BarrierCoordinator, peer: &str, other: Seq<char>, r: ())
    requires
        call_ensures(BarrierCoordinator::install_peer, (c, peer), r),
    ensures
        final(c)@.links.connected.contains(other) <==> other == peer@
            || old(c)@.links.connected.contains(other),
        final(c)@.inboxes.contains_key(other) <==> other == peer@ || old(c)@.inboxes.contains_key(other),
        final(c)@.inboxes[peer@].len() == 0,
        other != peer@ && old(c)@.inboxes.contains_key(other) ==> final(c)@.inboxes[other]
            == old(c)@.inboxes[other],
        final(c)@.links.name == old(c)@.links.name,
        final(c)@.links.runners == old(c)@.links.runners,
        final(c)@.links.base_port == old(c)@.links.base_port,
        final(c)@.links.offset == old(c)@.links.offset,
{
}

/// What was broadcast is handed back by the peers that it was written to, and those that
/// writing failed for are no longer connected; a runner that is alone sends nothing and
/// loses nobody. The inboxes stay as they are.
pub proof fn broadcasts_drop_links_that_fail(
    c: &mut BarrierCoordinator,
    written: &NameMap<bool>,
    peer: Seq<char>,
    r: NameSet,
)
    requires
        call_ensures(BarrierCoordinator::broadcast, (c, written), r),
    ensures
        ({
            let l = old(c)@.links;
            let alone = l.runners.len() == 1 && l.runners[0] == l.name;
            &&& r@.contains(peer) <==> !alone && l.connected.contains(peer) && written@.contains_key(peer)
                && written@[peer] == true
            &&& final(c)@.links.connected.contains(peer) <==> l.connected.contains(peer) && (alone
                || !written@.contains_key(peer) || written@[peer] == true)
            &&& final(c)@.inboxes == old(c)@.inboxes
            &&& final(c)@.links.name == l.name
            &&& final(c)@.links.runners == l.runners
            &&& final(c)@.links.base_port == l.base_port
            &&& final(c)@.links.offset == l.offset
        }),
{
    let l = old(c)@.links;
    if l.runners.len() == 1 && l.runners[0] == l.name {
        assert(l.runners =~= seq![l.name]);
    }
}

/// What an inbox holds is handed out in its order and is there no longer; the other inboxes
/// and the links stay as they are.
pub proof fn drained_inboxes_are_empty(
    c: &mut BarrierCoordinator,
    peer: &str,
    other: Seq<char>,
    r: Vec<Message>,
)
    requires
        call_ensures(BarrierCoordinator::drain_inbox, (c, peer), r),
    ensures
        old(c)@.inboxes.contains_key(peer@) ==> r@ == old(c)@.inboxes[peer@],
        !old(c)@.inboxes.contains_key(peer@) ==> r@.len() == 0,
        final(c)@.inboxes.contains_key(other) <==> old(c)@.inboxes.contains_key(other),
        old(c)@.inboxes.contains_key(peer@) ==> final(c)@.inboxes[peer@].len() == 0,
        other != peer@ && old(c)@.inboxes.contains_key(other) ==> final(c)@.inboxes[other]
            == old(c)@.inboxes[other],
        final(c)@.links == old(c)@.links,
{
}

/// Where all inboxes are drained, just those that hold something are handed out, each with
/// what it holds, and all of them are empty.
pub proof fn all_inboxes_are_drained(
    c: &mut BarrierCoordinator,
    peer: Seq<char>,
    r: NameMap<Vec<Message>>,
)
    requires
        call_ensures(BarrierCoordinator::drain_all_inboxes, (c,), r),
    ensures
        r@.contains_key(peer) <==> old(c)@.inboxes.contains_key(peer) && old(c)@.inboxes[peer].len() > 0,
        r@.contains_key(peer) ==> r@[peer]@ == old(c)@.inboxes[peer],
        final(c)@.inboxes.contains_key(peer) <==> old(c)@.inboxes.contains_key(peer),
        final(c)@.inboxes.contains_key(peer) ==> final(c)@.inboxes[peer].len() == 0,
        final(c)@.links == old(c)@.links,
{
    inboxes_hold_what_is_kept(r@, peer);
}

/// Shutting down closes every link, where the runner is not alone, and leaves the inboxes.
pub proof fn shutdown_closes_the_links(c: &mut BarrierCoordinator, peer: Seq<char>, r: ())
    requires
        call_ensures(BarrierCoordinator::shutdown, (c,), r),
    ensures
        ({
            let l = old(c)@.links;
            let alone = l.runners.len() == 1 && l.runners[0] == l.name;
            &&& final(c)@.links.connected.contains(peer) <==> alone && l.connected.contains(peer)
            &&& final(c)@.inboxes == old(c)@.inboxes
            &&& final(c)@.links.name == l.name
            &&& final(c)@.links.runners == l.runners
            &&& final(c)@.links.base_port == l.base_port
            &&& final(c)@.links.offset == l.offset
        }),
{
    let l = old(c)@.links;
    if l.runners.len() == 1 && l.runners[0] == l.name {
        assert(l.runners =~= seq![l.name]);
    }
}

/// The channel begins with no link and no inbox. A runner that is alone opens nothing; any
/// other listens at the base port plus 96 plus its place in the list, where that is a port.
pub proof fn barrier_channel_is_opened(
    name: String,
    runners: Vec<String>,
    base_port: u16,
    c: BarrierCoordinator,
    r: Result<BarrierStart, String>,
    alone: bool,
    place: int,
    peer: Seq<char>,
)
    requires
        call_ensures(BarrierCoordinator::new, (name, runners, base_port), c),
        call_ensures(BarrierCoordinator::start, (&c,), r),
        call_ensures(BarrierCoordinator::is_single_runner, (&c,), alone),
        0 <= place < runners@.len(),
        runners@[place]@ == name@,
        texts(runners@).no_duplicates(),
    ensures
        !c@.links.connected.contains(peer),
        !c@.inboxes.contains_key(peer),
        alone <==> runners@.len() == 1,
        alone ==> r is Ok && r->Ok_0 is Alone,
        !alone && base_port + 96 + place <= 65_535 ==> {
            &&& r is Ok
            &&& r->Ok_0 is Open
            &&& r->Ok_0->port == base_port + 96 + place
            &&& r->Ok_0->startup.accepting().contains(peer) <==> texts(runners@).contains(peer) && name_lt(
                name@,
                peer,
            )
            &&& r->Ok_0->startup.connecting().contains(peer) <==> texts(runners@).contains(peer) && name_lt(
                peer,
                name@,
            )
        },
        !alone && base_port + 96 + place > 65_535 ==> r is Err,
{
    let t = texts(runners@);
    assert(t[place] == name@);
    if runners@.len() == 1 {
        assert(t =~= seq![name@]);
    }
    first_index_facts(t, name@);
    ports_are_sums(base_port, BARRIER_TCP_OFFSET, place);
    lower_names_accept(t.to_set(), name@, peer);
}

} // verus!
