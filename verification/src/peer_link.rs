//! The links between pairs of runners: who connects to whom, at which port, how a link
//! opens, and how bytes are framed on it.

use crate::names::{
    clone_names, first_index, first_index_facts, listing, position_of, texts, to_set_push, NameMap,
    NameSet,
};
use crate::protocol::{runs_alone, text_map};
use crate::text::{
    decimal, decimal_u64, name_less, name_lt, name_lt_asymmetric, name_lt_total, same,
};
use crate::time::Duration;
use vstd::prelude::*;
use vstd::string::StringSliceAdditionalSpecFns;
use vstd::utf8::{decode_utf8, encode_utf8, valid_utf8};

verus! {

// ---------------------------------------------------------------------
// Frames
// ---------------------------------------------------------------------

/// A number of 32 bits as four bytes, the highest first.
pub open spec fn be_bytes(n: int) -> Seq<u8> {
    seq![
        (n / 0x100_0000) as u8,
        (n / 0x1_0000 % 0x100) as u8,
        (n / 0x100 % 0x100) as u8,
        (n % 0x100) as u8,
    ]
}

/// The number that four bytes stand for, the highest first.
pub open spec fn be_value(b: Seq<u8>) -> int {
    b[0] * 0x100_0000 + b[1] * 0x1_0000 + b[2] * 0x100 + b[3]
}

/// Four bytes give back the number that they were made of.
pub proof fn be_round_trip(n: int)
    requires
        0 <= n < 0x1_0000_0000,
    ensures
        be_value(be_bytes(n)) == n,
        be_bytes(n).len() == 4,
{
    let q = n / 0x100;
    let p = n / 0x1_0000;
    let a = n / 0x100_0000;
    let b = p % 0x100;
    let c = q % 0x100;
    let d = n % 0x100;
    vstd::arithmetic::div_mod::lemma_div_denominator(n, 0x100, 0x100);
    vstd::arithmetic::div_mod::lemma_div_denominator(n, 0x1_0000, 0x100);
    assert(p == q / 0x100 && a == p / 0x100);
    assert(n == 0x100 * q + d && q == 0x100 * p + c && p == 0x100 * a + b);
    assert(0 <= a < 0x100 && 0 <= b < 0x100 && 0 <= c < 0x100 && 0 <= d < 0x100);
    let bytes = be_bytes(n);
    assert(bytes[0] == a && bytes[1] == b && bytes[2] == c && bytes[3] == d);
}

/// A payload behind its length in four bytes.
pub open spec fn framed(payload: Seq<u8>) -> Seq<u8> {
    be_bytes(payload.len() as int % 0x1_0000_0000) + payload
}

/// Puts the length in front of a payload.
pub fn encode_frame(payload: &[u8]) -> (r: Vec<u8>)
    ensures
        r@ == framed(payload@),
{
    let len: u64 = payload.len() as u64 % 0x1_0000_0000;
    let mut r: Vec<u8> = Vec::new();
    r.push((len / 0x100_0000) as u8);
    r.push((len / 0x1_0000 % 0x100) as u8);
    r.push((len / 0x100 % 0x100) as u8);
    r.push((len % 0x100) as u8);
    assert(r@ =~= be_bytes(len as int));
    for i in 0..payload.len()
        invariant
            r@ == be_bytes(len as int) + payload@.take(i as int),
    {
        r.push(payload[i]);
        assert(r@ =~= be_bytes(len as int) + payload@.take(i + 1));
    }
    assert(r@ =~= framed(payload@));
    r
}

/// What the beginning of a stream holds.
#[derive(Debug, Clone, PartialEq, Eq)]
pub enum FrameRead {
    /// Not yet a whole frame.
    Incomplete,
    /// A frame that is longer than allowed.
    TooLong(u32),
    /// A frame.
    Payload(Vec<u8>),
}

/// The length that four bytes announce; none where it is more than `cap`.
pub fn frame_length(prefix: [u8; 4], cap: u32) -> (r: Result<u32, u32>)
    ensures
        match r {
            Ok(n) => n == be_value(prefix@) && n <= cap,
            Err(n) => n == be_value(prefix@) && n > cap,
        },
{
    let a: u64 = prefix[0] as u64;
    let b: u64 = prefix[1] as u64;
    let c: u64 = prefix[2] as u64;
    let d: u64 = prefix[3] as u64;
    let n: u32 = (a * 0x100_0000 + b * 0x1_0000 + c * 0x100 + d) as u32;
    if n > cap {
        Err(n)
    } else {
        Ok(n)
    }
}

/// What a reader with the limit `cap` finds at the beginning of a stream.
pub open spec fn frame_read(bytes: Seq<u8>, cap: u32, r: FrameRead) -> bool {
    if bytes.len() < 4 {
        r is Incomplete
    } else {
        let n = be_value(bytes.take(4));
        if n > cap {
            r is TooLong && r->TooLong_0 == n
        } else if bytes.len() < 4 + n {
            r is Incomplete
        } else {
            r is Payload && r->Payload_0@ == bytes.subrange(4, 4 + n)
        }
    }
}

/// Reads a frame of at most `cap` bytes from the beginning of a stream.
pub fn decode_frame(bytes: &[u8], cap: u32) -> (r: FrameRead)
    ensures
        frame_read(bytes@, cap, r),
{
    if bytes.len() < 4 {
        return FrameRead::Incomplete;
    }
    let prefix: [u8; 4] = [bytes[0], bytes[1], bytes[2], bytes[3]];
    assert(prefix@ =~= bytes@.take(4));
    let n: usize = match frame_length(prefix, cap) {
        Ok(n) => n as usize,
        Err(n) => return FrameRead::TooLong(n),
    };
    if bytes.len() - 4 < n {
        return FrameRead::Incomplete;
    }
    let mut payload: Vec<u8> = Vec::new();
    let total: usize = bytes.len();
    for i in 0..n
        invariant
            total == bytes@.len(),
            4 + n <= total,
            payload@ == bytes@.subrange(4, 4 + i),
    {
        payload.push(bytes[4 + i]);
        assert(payload@ =~= bytes@.subrange(4, 4 + i + 1));
    }
    FrameRead::Payload(payload)
}

/// What was framed is read back, whatever follows it on the stream, as long as it is
/// within the limit.
pub proof fn frame_is_read_back(payload: Seq<u8>, rest: Seq<u8>, cap: u32, r: FrameRead)
    requires
        payload.len() <= cap,
        frame_read(framed(payload) + rest, cap, r),
    ensures
        r is Payload,
        r->Payload_0@ == payload,
{
    let n = payload.len() as int;
    be_round_trip(n);
    let bytes = framed(payload) + rest;
    assert(bytes.take(4) =~= be_bytes(n));
    assert(bytes.subrange(4, 4 + n) =~= payload);
}

/// A frame that is longer than the limit is turned away with its length, before its payload
/// is read.
pub proof fn long_frame_is_turned_away(payload: Seq<u8>, rest: Seq<u8>, cap: u32, r: FrameRead)
    requires
        cap < payload.len() < 0x1_0000_0000,
        frame_read(framed(payload) + rest, cap, r),
    ensures
        r is TooLong,
        r->TooLong_0 == payload.len(),
{
    let n = payload.len() as int;
    be_round_trip(n);
    let bytes = framed(payload) + rest;
    assert(bytes.take(4) =~= be_bytes(n));
}

/// The text of the error about a frame that is too long.
pub fn too_long_message(channel: &str, len: u32, cap: u32) -> (r: String)
    ensures
        r@ == channel@ + " frame length "@ + decimal(len as nat) + " exceeds cap "@ + decimal(cap as nat),
{
    let mut s = channel.to_owned();
    s.append(" frame length ");
    s.append(decimal_u64(len as u64).as_str());
    s.append(" exceeds cap ");
    s.append(decimal_u64(cap as u64).as_str());
    s
}

// ---------------------------------------------------------------------
// Handshake
// ---------------------------------------------------------------------

/// The longest name that a handshake carries, in bytes.
pub const HANDSHAKE_NAME_MAX_BYTES: u32 = 256;

/// Why a link does not open.
#[derive(Debug, Clone, PartialEq, Eq)]
pub enum HandshakeError {
    /// The runner's own name is too long.
    OwnNameTooLong { bytes: usize },
    /// The peer announces a name that is too long.
    NameTooLong { len: u32 },
    /// The peer's name has not come in whole.
    Incomplete,
    /// The peer's name is not UTF-8.
    NotUtf8,
    /// No runner of the run has that name.
    Unexpected { name: String },
}

/// The text that bytes encode in UTF-8, as `String::from_utf8` gives it; none where they
/// encode none.
#[verifier::external_body]
fn utf8_text(bytes: Vec<u8>) -> (r: Option<String>)
    ensures
        match r {
            Some(s) => valid_utf8(bytes@) && s@ == decode_utf8(bytes@),
            None => !valid_utf8(bytes@),
        },
{
    String::from_utf8(bytes).ok()
}

/// What the connecting side sends: its name, framed.
pub fn connect_and_handshake(self_name: &str) -> (r: Result<Vec<u8>, HandshakeError>)
    ensures
        match r {
            Ok(bytes) => encode_utf8(self_name@).len() <= HANDSHAKE_NAME_MAX_BYTES && bytes@ == framed(
                encode_utf8(self_name@),
            ),
            Err(e) => encode_utf8(self_name@).len() > HANDSHAKE_NAME_MAX_BYTES && e == (
            HandshakeError::OwnNameTooLong { bytes: encode_utf8(self_name@).len() as usize }),
        },
{
    let bytes = self_name.as_bytes();
    if bytes.len() > HANDSHAKE_NAME_MAX_BYTES as usize {
        return Err(HandshakeError::OwnNameTooLong { bytes: bytes.len() });
    }
    Ok(encode_frame(bytes))
}

/// What the accepting side makes of the bytes that came in: the peer's name, where a
/// whole name came in that is short enough, is UTF-8 and belongs to a runner of the run.
pub open spec fn handshake_result(
    bytes: Seq<u8>,
    expected: Set<Seq<char>>,
    r: Result<String, HandshakeError>,
) -> bool {
    if bytes.len() < 4 {
        r == Err::<String, HandshakeError>(HandshakeError::Incomplete)
    } else {
        let n = be_value(bytes.take(4));
        let name = bytes.subrange(4, 4 + n);
        if n > HANDSHAKE_NAME_MAX_BYTES {
            r == Err::<String, HandshakeError>(HandshakeError::NameTooLong { len: n as u32 })
        } else if bytes.len() < 4 + n {
            r == Err::<String, HandshakeError>(HandshakeError::Incomplete)
        } else if !valid_utf8(name) {
            r == Err::<String, HandshakeError>(HandshakeError::NotUtf8)
        } else if !expected.contains(decode_utf8(name)) {
            r is Err && r->Err_0 is Unexpected && r->Err_0->Unexpected_name@ == decode_utf8(name)
        } else {
            r is Ok && r->Ok_0@ == decode_utf8(name)
        }
    }
}

/// Reads the peer's name on the accepting side.
pub fn accept_and_handshake(bytes: &[u8], expected: &NameSet) -> (r: Result<String, HandshakeError>)
    ensures
        handshake_result(bytes@, expected@, r),
{
    match decode_frame(bytes, HANDSHAKE_NAME_MAX_BYTES) {
        FrameRead::Incomplete => Err(HandshakeError::Incomplete),
        FrameRead::TooLong(len) => Err(HandshakeError::NameTooLong { len }),
        FrameRead::Payload(name) => match utf8_text(name) {
            None => Err(HandshakeError::NotUtf8),
            Some(s) => if expected.contains(s.as_str()) {
                Ok(s)
            } else {
                Err(HandshakeError::Unexpected { name: s })
            },
        },
    }
}

/// The accepting side reads just the name that the connecting side sent, where that is a
/// runner of the run.
pub proof fn handshake_gives_the_name(
    name: Seq<char>,
    rest: Seq<u8>,
    expected: Set<Seq<char>>,
    r: Result<String, HandshakeError>,
)
    requires
        encode_utf8(name).len() <= HANDSHAKE_NAME_MAX_BYTES,
        expected.contains(name),
        handshake_result(framed(encode_utf8(name)) + rest, expected, r),
    ensures
        r is Ok,
        r->Ok_0@ == name,
{
    let payload = encode_utf8(name);
    let n = payload.len() as int;
    be_round_trip(n);
    let bytes = framed(payload) + rest;
    assert(bytes.take(4) =~= be_bytes(n));
    assert(bytes.subrange(4, 4 + n) =~= payload);
    vstd::utf8::encode_utf8_valid_utf8(name);
    vstd::utf8::encode_utf8_decode_utf8(name);
}

impl HandshakeError {
    /// The text of the error.
    pub open spec fn text(&self, channel: Seq<char>) -> Seq<char> {
        match self {
            HandshakeError::OwnNameTooLong { bytes } => channel + " connect: self name too long ("@
                + decimal(*bytes as nat) + " bytes)"@,
            HandshakeError::NameTooLong { len } => channel + " accept: handshake name length "@ + decimal(
                *len as nat,
            ) + " exceeds cap 256"@,
            HandshakeError::Incomplete => channel + " accept: handshake name read failed"@,
            HandshakeError::NotUtf8 => channel + " accept: peer name not UTF-8"@,
            HandshakeError::Unexpected { name } => channel + " accept: peer '"@ + name@
                + "' is not in expected runners set"@,
        }
    }

    /// The text of the error.
    pub fn message(&self, channel: &str) -> (r: String)
        ensures
            r@ == self.text(channel@),
    {
        let mut s = channel.to_owned();
        match self {
            HandshakeError::OwnNameTooLong { bytes } => {
                s.append(" connect: self name too long (");
                s.append(decimal_u64(*bytes as u64).as_str());
                s.append(" bytes)");
            },
            HandshakeError::NameTooLong { len } => {
                s.append(" accept: handshake name length ");
                s.append(decimal_u64(*len as u64).as_str());
                s.append(" exceeds cap 256");
            },
            HandshakeError::Incomplete => {
                s.append(" accept: handshake name read failed");
            },
            HandshakeError::NotUtf8 => {
                s.append(" accept: peer name not UTF-8");
            },
            HandshakeError::Unexpected { name } => {
                s.append(" accept: peer '");
                s.append(name.as_str());
                s.append("' is not in expected runners set");
            },
        }
        s
    }
}

// ---------------------------------------------------------------------
// Ports
// ---------------------------------------------------------------------

/// The port at which the runner with this index listens, if there is one.
pub open spec fn port_of(base: u16, offset: u16, index: int) -> Option<u16> {
    let port = base + offset + index;
    if port > u16::MAX {
        None
    } else {
        Some(port as u16)
    }
}

/// The port at which the runner with this index listens: the base port, plus the offset
/// of the channel, plus the index.
pub fn listener_port(base: u16, offset: u16, index: usize) -> (r: Option<u16>)
    ensures
        r == port_of(base, offset, index as int),
{
    let port: u128 = base as u128 + offset as u128 + index as u128;
    if port > u16::MAX as u128 {
        None
    } else {
        Some(port as u16)
    }
}

/// Runners with different indices never share a port, neither on one channel nor, as
/// long as there are no more of them than the channels are apart, on two.
pub proof fn ports_do_not_meet(base: u16, low: u16, high: u16, i: int, j: int)
    requires
        low <= high,
        0 <= i,
        0 <= j,
        port_of(base, low, i) is Some,
        port_of(base, high, j) is Some,
        (low == high && i != j) || i < high - low,
    ensures
        port_of(base, low, i) != port_of(base, high, j),
{
}

// ---------------------------------------------------------------------
// Pairs
// ---------------------------------------------------------------------

/// Of each pair the runner whose name stands first accepts, and the other connects.
pub open spec fn accepts(runner: Seq<char>, peer: Seq<char>) -> bool {
    name_lt(runner, peer)
}

/// Of two different runners just one accepts the link.
pub proof fn one_side_accepts(a: Seq<char>, b: Seq<char>)
    requires
        a != b,
    ensures
        accepts(a, b) != accepts(b, a),
{
    name_lt_total(a, b);
    if accepts(a, b) {
        name_lt_asymmetric(a, b);
    }
}

/// The peers that a runner waits for to connect.
pub open spec fn peers_to_accept(runners: Set<Seq<char>>, name: Seq<char>) -> Set<Seq<char>> {
    runners.filter(|p: Seq<char>| p != name && accepts(name, p))
}

/// The peers that a runner connects to.
pub open spec fn peers_to_connect(runners: Set<Seq<char>>, name: Seq<char>) -> Set<Seq<char>> {
    runners.filter(|p: Seq<char>| p != name && !accepts(name, p))
}

/// If one runner of a pair waits for the other, that one connects.
pub proof fn both_sides_agree(runners: Set<Seq<char>>, a: Seq<char>, b: Seq<char>)
    requires
        runners.contains(a),
        runners.contains(b),
        a != b,
    ensures
        peers_to_accept(runners, a).contains(b) == peers_to_connect(runners, b).contains(a),
        peers_to_accept(runners, a).contains(b) != peers_to_connect(runners, a).contains(b),
{
    one_side_accepts(a, b);
}

// ---------------------------------------------------------------------
// Opening the links
// ---------------------------------------------------------------------

/// A peer to connect to.
#[derive(Debug, Clone, PartialEq, Eq)]
pub struct ConnectTarget {
    pub peer: String,
    pub host: String,
    pub port: u16,
}

/// What a target is.
pub struct TargetView {
    pub peer: Seq<char>,
    pub host: Seq<char>,
    pub port: u16,
}

/// The targets.
pub open spec fn target_views(v: Seq<ConnectTarget>) -> Seq<TargetView> {
    Seq::new(
        v.len(),
        |i: int| TargetView { peer: v[i].peer@, host: v[i].host@, port: v[i].port },
    )
}

/// The target of one peer: it has to be among the runners, to have a port, and its host
/// has to be known.
pub open spec fn target_of(
    peer: Seq<char>,
    runners: Seq<Seq<char>>,
    base: u16,
    offset: u16,
    hosts: Map<Seq<char>, Seq<char>>,
) -> Option<TargetView> {
    match first_index(runners, peer) {
        None => None,
        Some(i) => match port_of(base, offset, i) {
            None => None,
            Some(port) => if hosts.contains_key(peer) {
                Some(TargetView { peer, host: hosts[peer], port })
            } else {
                None
            },
        },
    }
}

/// The targets of the peers that have one.
pub open spec fn targets(
    peers: Seq<Seq<char>>,
    runners: Seq<Seq<char>>,
    base: u16,
    offset: u16,
    hosts: Map<Seq<char>, Seq<char>>,
) -> Seq<TargetView>
    decreases peers.len(),
{
    if peers.len() == 0 {
        Seq::empty()
    } else {
        let before = targets(peers.drop_last(), runners, base, offset, hosts);
        match target_of(peers.last(), runners, base, offset, hosts) {
            Some(t) => before.push(t),
            None => before,
        }
    }
}

/// The links that are still to be opened.
#[derive(Debug, PartialEq, Eq)]
pub struct Startup {
    accept_pending: NameSet,
    connect_pending: NameSet,
}

/// What to do while links are being opened.
pub enum StartupStep {
    /// Try to connect and to accept, then ask again.
    Try,
    /// All links are open.
    Done,
    /// The time is up, and these peers are missing.
    GiveUp(Vec<String>),
}

impl Startup {
    /// The peers whose connection is awaited.
    pub closed spec fn accepting(&self) -> Set<Seq<char>> {
        self.accept_pending@
    }

    /// The peers that are to be connected to.
    pub closed spec fn connecting(&self) -> Set<Seq<char>> {
        self.connect_pending@
    }

    /// What to do after `elapsed` of the time that opening the links may take.
    pub fn step(&self, elapsed: Duration, budget: Duration) -> (r: StartupStep)
        ensures
            ({
                let done = self.accepting() == Set::<Seq<char>>::empty() && self.connecting() == Set::<
                    Seq<char>,
                >::empty();
                match r {
                    StartupStep::Done => done,
                    StartupStep::GiveUp(missing) => !done && elapsed.nanos >= budget.nanos && texts(
                        missing@,
                    ) == listing(self.accepting()) + listing(self.connecting()),
                    StartupStep::Try => !done && elapsed.nanos < budget.nanos,
                }
            }),
    {
        if self.accept_pending.is_empty() && self.connect_pending.is_empty() {
            StartupStep::Done
        } else if elapsed.nanos >= budget.nanos {
            let mut missing = self.accept_pending.to_vec();
            let mut more = self.connect_pending.to_vec();
            let ghost a = missing@;
            let ghost b = more@;
            missing.append(&mut more);
            assert(texts(missing@) =~= texts(a) + texts(b));
            StartupStep::GiveUp(missing)
        } else {
            StartupStep::Try
        }
    }

    /// A peer was connected to.
    pub fn connected(&mut self, peer: &str)
        ensures
            final(self).connecting() == old(self).connecting().remove(peer@),
            final(self).accepting() == old(self).accepting(),
    {
        self.connect_pending.remove(peer);
    }

    /// A peer has connected; tells whether it was awaited. A second connection of a peer
    /// is not.
    pub fn accepted(&mut self, peer: &str) -> (r: bool)
        ensures
            r == old(self).accepting().contains(peer@),
            final(self).accepting() == old(self).accepting().remove(peer@),
            final(self).connecting() == old(self).connecting(),
    {
        let r = self.accept_pending.contains(peer);
        self.accept_pending.remove(peer);
        r
    }
}

// ---------------------------------------------------------------------
// The links of a runner
// ---------------------------------------------------------------------

/// The links of a runner on one channel.
#[derive(Debug, PartialEq, Eq)]
pub struct PeerLinks {
    name: String,
    runners_order: Vec<String>,
    base_port: u16,
    /// The offset of the channel's ports.
    offset: u16,
    connected: NameSet,
}

/// What the links of a runner are.
pub struct LinksView {
    pub name: Seq<char>,
    pub runners: Seq<Seq<char>>,
    pub base_port: u16,
    pub offset: u16,
    pub connected: Set<Seq<char>>,
}

impl LinksView {
    /// The runner takes part alone.
    pub open spec fn single_runner(self) -> bool {
        self.runners == seq![self.name]
    }

    /// The index of the runner, or zero where it is not among the runners.
    pub open spec fn own_index(self) -> int {
        match first_index(self.runners, self.name) {
            Some(i) => i,
            None => 0,
        }
    }

    /// The same links with other peers connected.
    pub open spec fn with_connected(self, connected: Set<Seq<char>>) -> LinksView {
        LinksView { connected, ..self }
    }
}

/// The text of the error about ports that run over.
pub open spec fn overflow_text(base: u16, offset: u16, index: int) -> Seq<char> {
    "base port "@ + decimal(base as nat) + " + offset "@ + decimal(offset as nat) + " + index "@ + decimal(
        index as nat,
    ) + " overflows u16"@
}

impl PeerLinks {
    pub closed spec fn view(&self) -> LinksView {
        LinksView {
            name: self.name@,
            runners: texts(self.runners_order@),
            base_port: self.base_port,
            offset: self.offset,
            connected: self.connected@,
        }
    }

    /// The links of a runner, none of them open.
    pub fn new(name: String, runners_order: Vec<String>, base_port: u16, offset: u16) -> (r: Self)
        ensures
            r@ == (LinksView {
                name: name@,
                runners: texts(runners_order@),
                base_port,
                offset,
                connected: Set::empty(),
            }),
    {
        PeerLinks { name, runners_order, base_port, offset, connected: NameSet::new() }
    }

    /// Whether the runner takes part alone.
    pub fn is_single_runner(&self) -> (r: bool)
        ensures
            r == self@.single_runner(),
    {
        runs_alone(self.name.as_str(), self.runners_order.as_slice())
    }

    /// The runner's own name.
    pub fn name(&self) -> (r: &str)
        ensures
            r@ == self@.name,
    {
        self.name.as_str()
    }

    /// The runners that take part.
    pub fn expected(&self) -> (r: NameSet)
        ensures
            r@ == self@.runners.to_set(),
    {
        NameSet::of(self.runners_order.as_slice())
    }

    /// The peers that are connected.
    pub fn connected_peers(&self) -> (r: NameSet)
        ensures
            r@ == self@.connected,
    {
        self.connected.clone()
    }

    /// The port at which the runner listens, or the text of the error where there is
    /// none.
    pub fn own_port(&self) -> (r: Result<u16, String>)
        ensures
            match r {
                Ok(p) => port_of(self@.base_port, self@.offset, self@.own_index()) == Some(p),
                Err(e) => port_of(self@.base_port, self@.offset, self@.own_index()) is None && e@
                    == overflow_text(self@.base_port, self@.offset, self@.own_index()),
            },
    {
        let index: usize = match position_of(self.runners_order.as_slice(), self.name.as_str()) {
            Some(i) => i,
            None => 0,
        };
        match listener_port(self.base_port, self.offset, index) {
            Some(p) => Ok(p),
            None => {
                let mut s = "base port ".to_owned();
                s.append(decimal_u64(self.base_port as u64).as_str());
                s.append(" + offset ");
                s.append(decimal_u64(self.offset as u64).as_str());
                s.append(" + index ");
                s.append(decimal_u64(index as u64).as_str());
                s.append(" overflows u16");
                Err(s)
            },
        }
    }

    /// The links that are to be opened.
    pub fn startup(&self) -> (r: Startup)
        ensures
            r.accepting() == peers_to_accept(self@.runners.to_set(), self@.name),
            r.connecting() == peers_to_connect(self@.runners.to_set(), self@.name),
    {
        let ghost t = texts(self.runners_order@);
        let mut accept_pending = NameSet::new();
        let mut connect_pending = NameSet::new();
        assert(t.take(0).to_set() =~= Set::empty());
        assert(accept_pending@ =~= peers_to_accept(t.take(0).to_set(), self.name@));
        assert(connect_pending@ =~= peers_to_connect(t.take(0).to_set(), self.name@));
        for i in 0..self.runners_order.len()
            invariant
                t == texts(self.runners_order@),
                accept_pending@ == peers_to_accept(t.take(i as int).to_set(), self.name@),
                connect_pending@ == peers_to_connect(t.take(i as int).to_set(), self.name@),
        {
            let peer = self.runners_order[i].as_str();
            proof {
                assert(t[i as int] == peer@);
                assert(t.take(i + 1) =~= t.take(i as int).push(t[i as int]));
                to_set_push(t.take(i as int), t[i as int]);
            }
            if !same(peer, self.name.as_str()) {
                if name_less(self.name.as_str(), peer) {
                    accept_pending.insert(self.runners_order[i].clone());
                } else {
                    connect_pending.insert(self.runners_order[i].clone());
                }
            }
            proof {
                assert(accept_pending@ =~= peers_to_accept(t.take(i + 1).to_set(), self.name@));
                assert(connect_pending@ =~= peers_to_connect(t.take(i + 1).to_set(), self.name@));
            }
        }
        assert(t.take(t.len() as int) =~= t);
        Startup { accept_pending, connect_pending }
    }

    /// Where the peers are found that are still to be connected to.
    pub fn connect_targets(&self, startup: &Startup, hosts: &NameMap<String>) -> (r: Vec<ConnectTarget>)
        ensures
            target_views(r@) == targets(
                listing(startup.connecting()),
                self@.runners,
                self@.base_port,
                self@.offset,
                text_map(hosts@),
            ),
    {
        let peers = startup.connect_pending.to_vec();
        let ghost t = texts(peers@);
        let mut out: Vec<ConnectTarget> = Vec::new();
        let ghost runners = texts(self.runners_order@);
        let ghost hosts_view = text_map(hosts@);
        assert(target_views(out@) =~= targets(
            t.take(0),
            runners,
            self.base_port,
            self.offset,
            hosts_view,
        ));
        for i in 0..peers.len()
            invariant
                t == texts(peers@),
                runners == texts(self.runners_order@),
                hosts_view == text_map(hosts@),
                target_views(out@) == targets(
                    t.take(i as int),
                    runners,
                    self.base_port,
                    self.offset,
                    hosts_view,
                ),
        {
            let peer = peers[i].as_str();
            let ghost before = out@;
            proof {
                assert(t.take(i + 1).drop_last() =~= t.take(i as int));
                assert(t.take(i + 1).last() == peer@);
            }
            match position_of(self.runners_order.as_slice(), peer) {
                None => {},
                Some(index) => match listener_port(self.base_port, self.offset, index) {
                    None => {},
                    Some(port) => match hosts.get(peer) {
                        None => {},
                        Some(host) => {
                            out.push(ConnectTarget { peer: peers[i].clone(), host: host.clone(), port });
                            assert(target_views(out@) =~= target_views(before).push(
                                TargetView { peer: peer@, host: host@, port },
                            ));
                        },
                    },
                },
            }
        }
        assert(t.take(t.len() as int) =~= t);
        out
    }

    /// A link to a peer was opened.
    pub fn install_peer(&mut self, peer: &str)
        ensures
            final(self)@ == old(self)@.with_connected(old(self)@.connected.insert(peer@)),
    {
        self.connected.insert(peer.to_owned());
    }

    /// Takes note of what became of writing to the peers: those that failed are no
    /// longer connected, and those that did not are handed back.
    pub fn wrote(&mut self, written: &NameMap<bool>) -> (r: NameSet)
        ensures
            r@ == old(self)@.connected.filter(
                |p: Seq<char>| written@.contains_key(p) && written@[p],
            ),
            final(self)@ == old(self)@.with_connected(
                old(self)@.connected.filter(
                    |p: Seq<char>| !(written@.contains_key(p) && !written@[p]),
                ),
            ),
    {
        let peers = self.connected.to_vec();
        let ghost t = texts(peers@);
        let ghost before = self.connected@;
        let mut ok = NameSet::new();
        let mut kept = NameSet::new();
        let ghost good = |p: Seq<char>| written@.contains_key(p) && written@[p];
        let ghost stays = |p: Seq<char>| !(written@.contains_key(p) && !written@[p]);
        assert(t.take(0).to_set() =~= Set::empty());
        assert(ok@ =~= t.take(0).to_set().filter(good));
        assert(kept@ =~= t.take(0).to_set().filter(stays));
        for i in 0..peers.len()
            invariant
                t == texts(peers@),
                good == (|p: Seq<char>| written@.contains_key(p) && written@[p]),
                stays == (|p: Seq<char>| !(written@.contains_key(p) && !written@[p])),
                ok@ == t.take(i as int).to_set().filter(good),
                kept@ == t.take(i as int).to_set().filter(stays),
        {
            let peer = peers[i].as_str();
            proof {
                assert(t[i as int] == peer@);
                assert(t.take(i + 1) =~= t.take(i as int).push(t[i as int]));
                to_set_push(t.take(i as int), t[i as int]);
            }
            match written.get(peer) {
                Some(done) => if *done {
                    ok.insert(peers[i].clone());
                    kept.insert(peers[i].clone());
                },
                None => {
                    kept.insert(peers[i].clone());
                },
            }
            proof {
                assert(ok@ =~= t.take(i + 1).to_set().filter(good));
                assert(kept@ =~= t.take(i + 1).to_set().filter(stays));
            }
        }
        assert(t.take(t.len() as int) =~= t);
        self.connected = kept;
        ok
    }

    /// All links are closed.
    pub fn close(&mut self)
        ensures
            final(self)@ == old(self)@.with_connected(Set::empty()),
    {
        self.connected = NameSet::new();
    }
}

impl Clone for PeerLinks {
    fn clone(&self) -> (r: Self)
        ensures
            r@ == self@,
    {
        PeerLinks {
            name: self.name.clone(),
            runners_order: clone_names(self.runners_order.as_slice()),
            base_port: self.base_port,
            offset: self.offset,
            connected: self.connected.clone(),
        }
    }
}

/// How reading from a link failed.
#[derive(Debug, Clone, Copy, PartialEq, Eq, Structural)]
pub enum ReadFault {
    /// Nothing came in for a while.
    TimedOut,
    /// The peer has closed the link.
    Closed,
    /// Anything else.
    Other,
}

/// What a reader does after a failure.
#[derive(Debug, Clone, Copy, PartialEq, Eq, Structural)]
pub enum ReaderStep {
    /// Read on.
    Continue,
    /// Stop without a word.
    Quit,
    /// Report the failure and stop.
    Report,
}

/// What a reader does after a failure: a timeout is none, and a closed link or a failure
/// during shutdown is not worth a word.
pub fn after_read_fault(fault: ReadFault, stopping: bool) -> (r: ReaderStep)
    ensures
        r == (match fault {
            ReadFault::TimedOut => ReaderStep::Continue,
            ReadFault::Closed => ReaderStep::Quit,
            ReadFault::Other => if stopping {
                ReaderStep::Quit
            } else {
                ReaderStep::Report
            },
        }),
{
    match fault {
        ReadFault::TimedOut => ReaderStep::Continue,
        ReadFault::Closed => ReaderStep::Quit,
        ReadFault::Other => if stopping {
            ReaderStep::Quit
        } else {
            ReaderStep::Report
        },
    }
}

// ---------------------------------------------------------------------
// Laws of the links
// ---------------------------------------------------------------------

/// A frame is the payload behind four bytes with its length, the highest byte first.
pub proof fn frame_begins_with_the_length(payload: Seq<u8>)
    requires
        payload.len() < 0x1_0000_0000,
    ensures
        framed(payload).len() == payload.len() + 4,
        framed(payload).skip(4) == payload,
        framed(payload)[0] * 16_777_216 + framed(payload)[1] * 65_536 + framed(payload)[2] * 256
            + framed(payload)[3] == payload.len(),
{
    let n = payload.len() as int;
    be_round_trip(n);
    assert(framed(payload).skip(4) =~= payload);
    assert(be_value(be_bytes(n)) == n);
}

/// Of a frame that has not come in whole nothing is read.
pub proof fn part_of_a_frame_is_incomplete(payload: Seq<u8>, k: int, cap: u32, r: FrameRead)
    requires
        payload.len() <= cap,
        0 <= k < payload.len() + 4,
        frame_read(framed(payload).take(k), cap, r),
    ensures
        r is Incomplete,
{
    let n = payload.len() as int;
    be_round_trip(n);
    if k >= 4 {
        assert(framed(payload).take(k).take(4) =~= be_bytes(n));
    }
}

/// A peer is let in only under the name of a runner of the run, and only where it sent just
/// that name in a frame.
pub proof fn only_runners_are_let_in(
    bytes: Seq<u8>,
    expected: Set<Seq<char>>,
    r: Result<String, HandshakeError>,
)
    requires
        handshake_result(bytes, expected, r),
        r is Ok,
    ensures
        expected.contains(r->Ok_0@),
        encode_utf8(r->Ok_0@).len() <= 256,
        bytes.len() >= 4 + encode_utf8(r->Ok_0@).len(),
        bytes[0] * 16_777_216 + bytes[1] * 65_536 + bytes[2] * 256 + bytes[3] == encode_utf8(r->Ok_0@).len(),
        bytes.subrange(4, 4 + encode_utf8(r->Ok_0@).len() as int) == encode_utf8(r->Ok_0@),
{
    let n = be_value(bytes.take(4));
    let name = bytes.subrange(4, 4 + n);
    vstd::utf8::decode_utf8_encode_utf8(name);
}

/// A runner listens at the base port plus the offset of the channel plus its place among the
/// runners, where that is a port at all.
pub proof fn ports_are_sums(base: u16, offset: u16, index: int)
    requires
        index >= 0,
    ensures
        base + offset + index <= 65_535 ==> port_of(base, offset, index) is Some && port_of(
            base,
            offset,
            index,
        )->0 == base + offset + index,
        base + offset + index > 65_535 ==> port_of(base, offset, index) is None,
{
}

/// A runner waits for the peers whose names stand behind its own and connects to those whose
/// names stand before it.
pub proof fn lower_names_accept(runners: Set<Seq<char>>, name: Seq<char>, peer: Seq<char>)
    ensures
        peers_to_accept(runners, name).contains(peer) <==> (runners.contains(peer) && name_lt(name, peer)),
        peers_to_connect(runners, name).contains(peer) <==> (runners.contains(peer) && name_lt(peer, name)),
{
    crate::text::name_lt_irreflexive(name);
    name_lt_total(name, peer);
    if name_lt(name, peer) {
        name_lt_asymmetric(name, peer);
    }
    if name_lt(peer, name) {
        name_lt_asymmetric(peer, name);
    }
}

/// Where peers are connected to, in full: each that is among the runners, whose host is known
/// and that has a port is looked for at that host and at the port at which it listens, and
/// nothing else is.
pub proof fn peers_are_looked_for_where_they_listen(
    peers: Seq<Seq<char>>,
    runners: Seq<Seq<char>>,
    base: u16,
    offset: u16,
    hosts: Map<Seq<char>, Seq<char>>,
    t: TargetView,
)
    ensures
        targets(peers, runners, base, offset, hosts).contains(t) <==> {
            &&& peers.contains(t.peer)
            &&& hosts.contains_key(t.peer)
            &&& t.host == hosts[t.peer]
            &&& exists|i: int|
                {
                    &&& 0 <= i < runners.len()
                    &&& #[trigger] runners[i] == t.peer
                    &&& t.port == base + offset + i
                    &&& forall|j: int| 0 <= j < i ==> #[trigger] runners[j] != t.peer
                }
        },
    decreases peers.len(),
{
    let all = targets(peers, runners, base, offset, hosts);
    if peers.len() > 0 {
        let u = peers.drop_last();
        let before = targets(u, runners, base, offset, hosts);
        let last = peers.last();
        peers_are_looked_for_where_they_listen(u, runners, base, offset, hosts, t);
        first_index_facts(runners, last);
        assert(peers[peers.len() - 1] == last);
        let this = target_of(last, runners, base, offset, hosts);
        if before.contains(t) {
            let k = choose|k: int| 0 <= k < before.len() && before[k] == t;
            assert(all[k] == t);
            let k = choose|k: int| 0 <= k < u.len() && u[k] == t.peer;
            assert(peers[k] == t.peer);
        }
        if all.contains(t) && !before.contains(t) {
            let k = choose|k: int| 0 <= k < all.len() && all[k] == t;
            if k < before.len() {
                assert(before[k] == t);
            }
            assert(this == Some(t));
            let i = first_index(runners, last)->0;
            assert(runners[i] == t.peer);
        }
        if peers.contains(t.peer) {
            let k = choose|k: int| 0 <= k < peers.len() && peers[k] == t.peer;
            if k < u.len() {
                assert(u[k] == t.peer);
            }
        }
        if last == t.peer && hosts.contains_key(t.peer) && t.host == hosts[t.peer] && exists|i: int|
            {
                &&& 0 <= i < runners.len()
                &&& #[trigger] runners[i] == t.peer
                &&& t.port == base + offset + i
                &&& forall|j: int| 0 <= j < i ==> #[trigger] runners[j] != t.peer
            } {
            let i = choose|i: int|
                {
                    &&& 0 <= i < runners.len()
                    &&& #[trigger] runners[i] == t.peer
                    &&& t.port == base + offset + i
                    &&& forall|j: int| 0 <= j < i ==> #[trigger] runners[j] != t.peer
                };
            assert(runners.contains(runners[i]));
            let m = first_index(runners, last)->0;
            assert(m == i) by {
                if m < i {
                    assert(runners[m] != t.peer);
                }
                if i < m {
                    assert(runners[i] != last);
                }
            }
            assert(this == Some(t));
            assert(all[before.len() as int] == t);
        }
    }
}

/// How the opening of links goes on: it is done just where no peer is awaited and none is to
/// be connected to; it is given up where the time is over, with just the peers that are
/// missing; and else it is tried again.
pub proof fn links_are_opened_until_the_time_is_over(
    s: &Startup,
    elapsed: Duration,
    budget: Duration,
    r: StartupStep,
)
    requires
        call_ensures(Startup::step, (s, elapsed, budget), r),
        s.accepting().finite(),
        s.connecting().finite(),
    ensures
        r is Done <==> (forall|p: Seq<char>|
            !#[trigger] s.accepting().contains(p) && !s.connecting().contains(p)),
        r is GiveUp <==> !(r is Done) && elapsed.nanos >= budget.nanos,
        r is GiveUp ==> (forall|p: Seq<char>|
            #[trigger] texts(r->GiveUp_0@).contains(p) <==> (s.accepting().contains(p) || s.connecting().contains(
                p,
            ))),
{
    let (a, b) = (s.accepting(), s.connecting());
    let none = forall|p: Seq<char>| !#[trigger] a.contains(p) && !b.contains(p);
    if none {
        assert forall|p: Seq<char>| !b.contains(p) by {
            assert(!a.contains(p));
        }
        assert(a =~= Set::empty());
        assert(b =~= Set::empty());
    }
    if a == Set::<Seq<char>>::empty() && b == Set::<Seq<char>>::empty() {
        assert forall|p: Seq<char>| !#[trigger] a.contains(p) && !b.contains(p) by {}
        assert(none);
    }
    assert(none <==> a == Set::<Seq<char>>::empty() && b == Set::<Seq<char>>::empty());
    assert(r is Done <==> none);
    if r is GiveUp {
        crate::names::listing_holds(a);
        crate::names::listing_holds(b);
        let (x, y) = (listing(a), listing(b));
        let t = texts(r->GiveUp_0@);
        assert(t == x + y);
        assert forall|p: Seq<char>| #[trigger] t.contains(p) <==> (a.contains(p) || b.contains(p)) by {
            assert(x.to_set().contains(p) <==> x.contains(p));
            assert(y.to_set().contains(p) <==> y.contains(p));
            side_by_side_hold(x, y, p);
        }
    }
}

proof fn side_by_side_hold(x: Seq<Seq<char>>, y: Seq<Seq<char>>, p: Seq<char>)
    ensures
        (x + y).contains(p) <==> x.contains(p) || y.contains(p),
{
    let t = x + y;
    if x.contains(p) {
        let i = choose|i: int| 0 <= i < x.len() && x[i] == p;
        assert(t[i] == p);
    }
    if y.contains(p) {
        let i = choose|i: int| 0 <= i < y.len() && y[i] == p;
        assert(t[x.len() + i] == p);
    }
    if t.contains(p) {
        let i = choose|i: int| 0 <= i < t.len() && t[i] == p;
        if i < x.len() {
            assert(x[i] == p);
        } else {
            assert(y[i - x.len()] == p);
        }
    }
}

/// A runner introduces itself with its own name, as long as that has no more than 256 bytes.
pub proof fn runners_introduce_themselves(self_name: &str, r: Result<Vec<u8>, HandshakeError>)
    requires
        call_ensures(connect_and_handshake, (self_name,), r),
    ensures
        r is Ok <==> encode_utf8(self_name@).len() <= 256,
        r is Ok ==> r->Ok_0@ == framed(encode_utf8(self_name@)),
{
}

/// A link that times out is read on; one that is closed, or fails while the runner stops, is
/// left without a word; and any other failure is reported.
pub proof fn failures_of_a_link(fault: ReadFault, stopping: bool, r: ReaderStep)
    requires
        call_ensures(after_read_fault, (fault, stopping), r),
    ensures
        r is Continue <==> fault is TimedOut,
        r is Report <==> fault is Other && !stopping,
{
}

/// The targets are those that are kept, each in its place.
pub proof fn targets_are_those_that_are_kept(v: Seq<ConnectTarget>)
    ensures
        target_views(v).len() == v.len(),
        forall|i: int|
            0 <= i < v.len() ==> target_views(v)[i].peer == (#[trigger] v[i]).peer@ && target_views(v)[i].host
                == v[i].host@ && target_views(v)[i].port == v[i].port,
{
}

/// What is read at the beginning of a stream: the first four bytes are the length, the most
/// significant first; a length above the limit is reported, and else the payload is just as
/// many bytes behind them, as soon as they are there.
pub proof fn frames_are_read_in_full(bytes: &[u8], cap: u32, r: FrameRead)
    requires
        call_ensures(decode_frame, (bytes, cap), r),
    ensures
        bytes@.len() < 4 ==> r is Incomplete,
        bytes@.len() >= 4 ==> {
            let n = bytes@[0] * 16_777_216 + bytes@[1] * 65_536 + bytes@[2] * 256 + bytes@[3];
            match r {
                FrameRead::TooLong(len) => n > cap && len == n,
                FrameRead::Incomplete => n <= cap && bytes@.len() < 4 + n,
                FrameRead::Payload(p) => {
                    &&& n <= cap
                    &&& p@.len() == n
                    &&& bytes@.len() >= 4 + n
                    &&& forall|i: int| 0 <= i < n ==> #[trigger] p@[i] == bytes@[4 + i]
                },
            }
        },
{
}

/// The length that four bytes announce, the most significant first, is within the limit just
/// where it is not turned away.
pub proof fn lengths_are_read_in_full(prefix: [u8; 4], cap: u32, r: Result<u32, u32>)
    requires
        call_ensures(frame_length, (prefix, cap), r),
    ensures
        ({
            let n = prefix@[0] * 16_777_216 + prefix@[1] * 65_536 + prefix@[2] * 256 + prefix@[3];
            if n <= cap {
                r is Ok && r->Ok_0 == n
            } else {
                r is Err && r->Err_0 == n
            }
        }),
{
}

/// The error about a frame that is too long tells the channel, the length and the limit.
pub proof fn long_frames_are_reported(channel: &str, len: u32, cap: u32, r: String)
    requires
        call_ensures(too_long_message, (channel, len, cap), r),
    ensures
        r@ == channel@ + " frame length "@ + decimal(len as nat) + " exceeds cap "@ + decimal(cap as nat),
{
}

/// What comes of a handshake, by the name that came in: nothing is let in before the whole
/// name is there, and a name that is too long, no text or that of no runner is turned away
/// as what it is.
pub proof fn handshakes_in_full(bytes: &[u8], expected: &NameSet, r: Result<String, HandshakeError>)
    requires
        call_ensures(accept_and_handshake, (bytes, expected), r),
    ensures
        bytes@.len() < 4 ==> r is Err && r->Err_0 is Incomplete,
        bytes@.len() >= 4 ==> {
            let n = bytes@[0] * 16_777_216 + bytes@[1] * 65_536 + bytes@[2] * 256 + bytes@[3];
            let name = bytes@.subrange(4, 4 + n);
            match r {
                Ok(s) => n <= 256 && bytes@.len() >= 4 + n && encode_utf8(s@) == name
                    && expected@.contains(s@),
                Err(HandshakeError::NameTooLong { len }) => n > 256 && len == n,
                Err(HandshakeError::Incomplete) => n <= 256 && bytes@.len() < 4 + n,
                Err(HandshakeError::NotUtf8) => n <= 256 && bytes@.len() >= 4 + n && !valid_utf8(name),
                Err(HandshakeError::Unexpected { name: s }) => n <= 256 && bytes@.len() >= 4 + n
                    && encode_utf8(s@) == name && !expected@.contains(s@),
                Err(HandshakeError::OwnNameTooLong { .. }) => false,
            }
        },
{
    if bytes@.len() >= 4 {
        let n = be_value(bytes@.take(4));
        if n <= 256 && bytes@.len() >= 4 + n && valid_utf8(bytes@.subrange(4, 4 + n)) {
            vstd::utf8::decode_utf8_encode_utf8(bytes@.subrange(4, 4 + n));
        }
    }
}

/// The errors of a handshake tell the channel and what was wrong.
pub proof fn handshake_errors_in_full(e: &HandshakeError, channel: &str, r: String)
    requires
        call_ensures(HandshakeError::message, (e, channel), r),
    ensures
        match *e {
            HandshakeError::OwnNameTooLong { bytes } => r@ == channel@ + " connect: self name too long ("@
                + decimal(bytes as nat) + " bytes)"@,
            HandshakeError::NameTooLong { len } => r@ == channel@ + " accept: handshake name length "@
                + decimal(len as nat) + " exceeds cap 256"@,
            HandshakeError::Incomplete => r@ == channel@ + " accept: handshake name read failed"@,
            HandshakeError::NotUtf8 => r@ == channel@ + " accept: peer name not UTF-8"@,
            HandshakeError::Unexpected { name } => r@ == channel@ + " accept: peer '"@ + name@
                + "' is not in expected runners set"@,
        },
{
}

/// A link that was opened is there, and no other link and nothing else changes.
pub proof fn opened_links_are_there(links: &mut PeerLinks, peer: &str, other: Seq<char>, r: ())
    requires
        call_ensures(PeerLinks::install_peer, (links, peer), r),
    ensures
        final(links)@.connected.contains(other) <==> other == peer@ || old(links)@.connected.contains(other),
        final(links)@.name == old(links)@.name,
        final(links)@.runners == old(links)@.runners,
        final(links)@.base_port == old(links)@.base_port,
        final(links)@.offset == old(links)@.offset,
{
}

/// Just the peers that writing failed for lose their link, and just those that it went well
/// for are handed back; a peer that nothing was written to keeps its link.
pub proof fn links_that_fail_are_dropped(
    links: &mut PeerLinks,
    written: &NameMap<bool>,
    peer: Seq<char>,
    r: NameSet,
)
    requires
        call_ensures(PeerLinks::wrote, (links, written), r),
    ensures
        r@.contains(peer) <==> old(links)@.connected.contains(peer) && written@.contains_key(peer)
            && written@[peer] == true,
        final(links)@.connected.contains(peer) <==> old(links)@.connected.contains(peer) && (
        !written@.contains_key(peer) || written@[peer] == true),
        final(links)@.name == old(links)@.name,
        final(links)@.runners == old(links)@.runners,
        final(links)@.base_port == old(links)@.base_port,
        final(links)@.offset == old(links)@.offset,
{
}

/// No link is left once they are closed, and nothing else changes.
pub proof fn closed_links_are_gone(links: &mut PeerLinks, peer: Seq<char>, r: ())
    requires
        call_ensures(PeerLinks::close, (links,), r),
    ensures
        !final(links)@.connected.contains(peer),
        final(links)@.name == old(links)@.name,
        final(links)@.runners == old(links)@.runners,
        final(links)@.base_port == old(links)@.base_port,
        final(links)@.offset == old(links)@.offset,
{
}

/// What is asked of the links: whether the runner is the only one in the list, who is in the
/// list, and which links are open.
pub proof fn links_tell_who_takes_part(
    links: &PeerLinks,
    alone: bool,
    expected: NameSet,
    connected: NameSet,
    name: &str,
    peer: Seq<char>,
)
    requires
        call_ensures(PeerLinks::is_single_runner, (links,), alone),
        call_ensures(PeerLinks::expected, (links,), expected),
        call_ensures(PeerLinks::connected_peers, (links,), connected),
        call_ensures(PeerLinks::name, (links,), name),
    ensures
        alone <==> links@.runners.len() == 1 && links@.runners[0] == links@.name,
        expected@.contains(peer) <==> links@.runners.contains(peer),
        connected@.contains(peer) <==> links@.connected.contains(peer),
        name@ == links@.name,
{
    if links@.runners.len() == 1 && links@.runners[0] == links@.name {
        assert(links@.runners =~= seq![links@.name]);
    }
}

/// Links begin with none open, for the runner and the ports that they were made for.
pub proof fn links_begin_closed(
    name: String,
    runners: Vec<String>,
    base_port: u16,
    offset: u16,
    links: PeerLinks,
    peer: Seq<char>,
)
    requires
        call_ensures(PeerLinks::new, (name, runners, base_port, offset), links),
    ensures
        !links@.connected.contains(peer),
        links@.name == name@,
        links@.runners.len() == runners@.len(),
        forall|i: int| 0 <= i < runners@.len() ==> #[trigger] links@.runners[i] == runners@[i]@,
        links@.base_port == base_port,
        links@.offset == offset,
{
}

/// A runner listens at the base port plus the offset plus its place in the list, where that
/// is a port, and waits for just the runners whose names are above its own, while it connects
/// to those below.
pub proof fn runners_wait_for_higher_names(
    links: &PeerLinks,
    port: Result<u16, String>,
    startup: Startup,
    place: int,
    peer: Seq<char>,
)
    requires
        call_ensures(PeerLinks::own_port, (links,), port),
        call_ensures(PeerLinks::startup, (links,), startup),
        0 <= place < links@.runners.len(),
        links@.runners[place] == links@.name,
        links@.runners.no_duplicates(),
    ensures
        links@.base_port + links@.offset + place <= 65_535 ==> port is Ok && port->Ok_0
            == links@.base_port + links@.offset + place,
        links@.base_port + links@.offset + place > 65_535 ==> port is Err,
        startup.accepting().contains(peer) <==> links@.runners.contains(peer) && name_lt(
            links@.name,
            peer,
        ),
        startup.connecting().contains(peer) <==> links@.runners.contains(peer) && name_lt(
            peer,
            links@.name,
        ),
{
    ports_are_sums(links@.base_port, links@.offset, place);
    first_index_facts(links@.runners, links@.name);
    lower_names_accept(links@.runners.to_set(), links@.name, peer);
}

/// A peer that is connected to, or that has connected, is waited for no longer, and every
/// other one as before; one that has connected was awaited just where it was waited for.
pub proof fn awaited_links_are_crossed_off(
    s: &mut Startup,
    t: &mut Startup,
    peer: &str,
    other: Seq<char>,
    r: (),
    awaited: bool,
)
    requires
        call_ensures(Startup::connected, (s, peer), r),
        call_ensures(Startup::accepted, (t, peer), awaited),
    ensures
        final(s).connecting().contains(other) <==> old(s).connecting().contains(other) && other != peer@,
        final(s).accepting().contains(other) <==> old(s).accepting().contains(other),
        awaited <==> old(t).accepting().contains(peer@),
        final(t).accepting().contains(other) <==> old(t).accepting().contains(other) && other != peer@,
        final(t).connecting().contains(other) <==> old(t).connecting().contains(other),
{
}

} // verus!
