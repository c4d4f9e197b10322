//! The discovery protocol: announcements sent over UDP broadcast, and what a
//! peer does with each datagram it receives.
//!
//! A datagram is one line of four fields separated by `|`, without a line
//! end: the verb `DISCOVER` or `HERE`, the sender's device id, its display
//! name and its control port in decimal.

use crate::net::{
    broadcast_addresses, broadcast_list, broadcast_of, dotted_quad_text, dotted_quads_of,
    enumerate_broadcasts, lemma_single_interface_list, Ipv4Net, NetInterface, DOT,
};
use crate::wire::{
    ascii_text, bytes_equal, decimal, field_text, join, lemma_ascii_in_encoding,
    lemma_decimal_is_digits, lemma_join_written_out, lemma_parse_decimal_round_trip,
    lemma_split_join, parse_decimal, parse_number, push_bytes,
    push_decimal, push_decimal_text, read_text, separator_free, split, split_fields,
    FIELD_SEPARATOR,
};
use vstd::prelude::*;
use vstd::string::*;
use vstd::utf8::{encode_utf8, encode_utf8_decode_utf8, encode_utf8_valid_utf8};

verus! {

/// The UDP port that discovery uses unless the host chooses another.
pub const DEFAULT_DISCOVERY_PORT: u16 = 4060;

/// The number of seconds between two rounds of periodic announcements.
pub const ANNOUNCE_INTERVAL_SECS: u64 = 5;

// ---------------------------------------------------------------------------
// Data
// ---------------------------------------------------------------------------

/// A peer as seen on the network.
#[derive(Clone, Debug)]
pub struct DeviceInfo {
    /// The identity that the peer announced.
    pub device_id: String,
    /// The display name that the peer announced.
    pub name: String,
    /// The address that the datagram came from, never an announced one.
    pub ip: String,
    /// The TCP port that the peer announced for transfers.
    pub control_port: u16,
}

/// The mathematical value of a `DeviceInfo`.
pub struct DeviceView {
    pub device_id: Seq<char>,
    pub name: Seq<char>,
    pub ip: Seq<char>,
    pub control_port: u16,
}

impl View for DeviceInfo {
    type V = DeviceView;

    open spec fn view(&self) -> DeviceView {
        DeviceView {
            device_id: self.device_id@,
            name: self.name@,
            ip: self.ip@,
            control_port: self.control_port,
        }
    }
}

/// What the host implements to learn of peers.
pub trait DiscoveryCallback: Send + Sync {
    /// Called once for every announcement received from another peer. The
    /// same peer is reported again each time it announces itself.
    fn on_device_found(&self, device_info: DeviceInfo);
}

/// The identity under which this peer announces itself, the port that it
/// announces, and the port on which discovery takes place.
pub struct LocalPeer {
    /// The identity of this peer, by which it recognises its own datagrams.
    pub device_id: String,
    /// The display name of this peer.
    pub name: String,
    /// The TCP port that this peer announces for transfers.
    pub control_port: u16,
    /// The UDP port that announcements are sent to, and that stands in for a
    /// peer's control port where the announced one cannot be read.
    pub discovery_port: u16,
}

/// The mathematical value of a `LocalPeer`.
pub struct PeerView {
    pub device_id: Seq<char>,
    pub name: Seq<char>,
    pub control_port: u16,
    pub discovery_port: u16,
}

impl View for LocalPeer {
    type V = PeerView;

    open spec fn view(&self) -> PeerView {
        PeerView {
            device_id: self.device_id@,
            name: self.name@,
            control_port: self.control_port,
            discovery_port: self.discovery_port,
        }
    }
}

/// The two verbs of the discovery protocol.
#[derive(Clone, Copy, Debug, PartialEq, Eq, Structural)]
pub enum DatagramKind {
    /// A question: who is there? The receiver answers with `Here`.
    Discover,
    /// An announcement that expects no answer.
    Here,
}

/// A well-formed datagram.
#[derive(Debug)]
pub struct Datagram {
    pub kind: DatagramKind,
    pub device_id: String,
    pub display_name: String,
    /// The announced port, or `None` where the field is no 16-bit numeral.
    pub control_port: Option<u16>,
}

/// The mathematical value of a `Datagram`.
pub struct DatagramView {
    pub kind: DatagramKind,
    pub device_id: Seq<char>,
    pub display_name: Seq<char>,
    pub control_port: Option<u16>,
}

impl View for Datagram {
    type V = DatagramView;

    open spec fn view(&self) -> DatagramView {
        DatagramView {
            kind: self.kind,
            device_id: self.device_id@,
            display_name: self.display_name@,
            control_port: self.control_port,
        }
    }
}

/// What a peer does with a datagram it received.
#[derive(Debug)]
pub enum DiscoveryAction {
    /// Nothing: the datagram is malformed, or it is this peer's own.
    Ignore,
    /// Report the device to the host.
    Report { device: DeviceInfo },
    /// Report the device to the host, then send `reply` to the device's
    /// address and control port.
    ReportAndReply { device: DeviceInfo, reply: Vec<u8> },
}

/// The mathematical value of a `DiscoveryAction`.
pub enum ActionView {
    Ignore,
    Report { device: DeviceView },
    ReportAndReply { device: DeviceView, reply: Seq<u8> },
}

impl View for DiscoveryAction {
    type V = ActionView;

    open spec fn view(&self) -> ActionView {
        match self {
            DiscoveryAction::Ignore => ActionView::Ignore,
            DiscoveryAction::Report { device } => ActionView::Report { device: device@ },
            DiscoveryAction::ReportAndReply { device, reply } => ActionView::ReportAndReply {
                device: device@,
                reply: reply@,
            },
        }
    }
}

/// A datagram to send to one peer.
#[derive(Debug)]
pub struct Reply {
    pub ip: String,
    pub port: u16,
    pub payload: Vec<u8>,
}

/// The mathematical value of a `Reply`.
pub struct ReplyView {
    pub ip: Seq<char>,
    pub port: u16,
    pub payload: Seq<u8>,
}

impl View for Reply {
    type V = ReplyView;

    open spec fn view(&self) -> ReplyView {
        ReplyView { ip: self.ip@, port: self.port, payload: self.payload@ }
    }
}

/// One round of announcements: `payload` goes to `port` at each of `targets`.
#[derive(Debug)]
pub struct AnnounceRound {
    /// The addresses to send to, as dotted quads.
    pub targets: Vec<String>,
    /// The UDP port to send to at each address.
    pub port: u16,
    /// The datagram to send.
    pub payload: Vec<u8>,
}

// ---------------------------------------------------------------------------
// The wire format
// ---------------------------------------------------------------------------

/// The bytes of the verb `DISCOVER`.
pub open spec fn verb_discover() -> Seq<u8> {
    "DISCOVER".spec_bytes()
}

/// The bytes of the verb `HERE`.
pub open spec fn verb_here() -> Seq<u8> {
    "HERE".spec_bytes()
}

/// The bytes of a verb.
pub open spec fn verb_bytes(kind: DatagramKind) -> Seq<u8> {
    match kind {
        DatagramKind::Discover => verb_discover(),
        DatagramKind::Here => verb_here(),
    }
}

/// The datagram by which a peer announces itself: verb, device id, display
/// name and control port.
pub open spec fn announcement(kind: DatagramKind, peer: PeerView) -> Seq<u8> {
    join(
        seq![
            verb_bytes(kind),
            encode_utf8(peer.device_id),
            encode_utf8(peer.name),
            decimal(peer.control_port as nat),
        ],
        FIELD_SEPARATOR,
    )
}

/// The port that a port field announces, if it is a numeral of 16 bits.
pub open spec fn announced_port(field: Seq<u8>) -> Option<u16> {
    match parse_decimal(field, 0xFFFF) {
        Some(n) => Some(n as u16),
        None => None,
    }
}

/// What a payload says, if it is a well-formed datagram: exactly four
/// fields, the first of them one of the two verbs.
pub open spec fn parsed_datagram(payload: Seq<u8>) -> Option<DatagramView> {
    let fields = split(payload, FIELD_SEPARATOR);
    if fields.len() != 4 {
        None
    } else if fields[0] != verb_discover() && fields[0] != verb_here() {
        None
    } else {
        Some(
            DatagramView {
                kind: if fields[0] == verb_discover() {
                    DatagramKind::Discover
                } else {
                    DatagramKind::Here
                },
                device_id: field_text(fields[1]),
                display_name: field_text(fields[2]),
                control_port: announced_port(fields[3]),
            },
        )
    }
}

/// The descriptor of the peer that sent `datagram` from `source_ip`. A port
/// that could not be read is taken to be `fallback_port`.
pub open spec fn described_device(
    datagram: DatagramView,
    source_ip: Seq<char>,
    fallback_port: u16,
) -> DeviceView {
    DeviceView {
        device_id: datagram.device_id,
        name: datagram.display_name,
        ip: source_ip,
        control_port: match datagram.control_port {
            Some(port) => port,
            None => fallback_port,
        },
    }
}

/// What the peer `local` does with `payload` received from `source_ip`.
///
/// A payload that is no well-formed datagram is ignored, and so is one that
/// carries the peer's own device id. Every other datagram has its sender
/// reported, with the discovery port in place of a control port that cannot
/// be read; a `DISCOVER` is answered with the peer's own `HERE`.
pub open spec fn datagram_action(
    payload: Seq<u8>,
    source_ip: Seq<char>,
    local: PeerView,
) -> ActionView {
    match parsed_datagram(payload) {
        None => ActionView::Ignore,
        Some(datagram) => if datagram.device_id == local.device_id {
            ActionView::Ignore
        } else {
            let device = described_device(datagram, source_ip, local.discovery_port);
            match datagram.kind {
                DatagramKind::Discover => ActionView::ReportAndReply {
                    device,
                    reply: announcement(DatagramKind::Here, local),
                },
                DatagramKind::Here => ActionView::Report { device },
            }
        },
    }
}

/// The datagram that an action sends back, if any, and where it goes.
pub open spec fn reply_of(action: ActionView) -> Option<ReplyView> {
    match action {
        ActionView::ReportAndReply { device, reply } => Some(
            ReplyView { ip: device.ip, port: device.control_port, payload: reply },
        ),
        _ => None,
    }
}

/// The two verbs as bytes: neither holds a separator, and they differ.
pub proof fn lemma_verbs()
    ensures
        verb_discover() == seq![0x44u8, 0x49, 0x53, 0x43, 0x4F, 0x56, 0x45, 0x52],
        verb_here() == seq![0x48u8, 0x45, 0x52, 0x45],
        !verb_discover().contains(FIELD_SEPARATOR),
        !verb_here().contains(FIELD_SEPARATOR),
        verb_discover() != verb_here(),
{
    reveal_strlit("DISCOVER");
    reveal_strlit("HERE");
    is_ascii_spec_bytes("DISCOVER");
    is_ascii_spec_bytes("HERE");
    assert(verb_discover() =~= seq![0x44u8, 0x49, 0x53, 0x43, 0x4F, 0x56, 0x45, 0x52]);
    assert(verb_here() =~= seq![0x48u8, 0x45, 0x52, 0x45]);
    assert(verb_discover().len() != verb_here().len());
}

// ---------------------------------------------------------------------------
// Writing and reading datagrams
// ---------------------------------------------------------------------------

/// Writes the announcement of `local` under the given verb.
pub fn announce(kind: DatagramKind, local: &LocalPeer) -> (payload: Vec<u8>)
    ensures
        payload@ == announcement(kind, local@),
{
    let mut payload: Vec<u8> = Vec::new();
    match kind {
        DatagramKind::Discover => push_bytes(&mut payload, "DISCOVER".as_bytes()),
        DatagramKind::Here => push_bytes(&mut payload, "HERE".as_bytes()),
    }
    payload.push(FIELD_SEPARATOR);
    push_bytes(&mut payload, local.device_id.as_str().as_bytes());
    payload.push(FIELD_SEPARATOR);
    push_bytes(&mut payload, local.name.as_str().as_bytes());
    payload.push(FIELD_SEPARATOR);
    push_decimal(&mut payload, local.control_port as u64);
    proof {
        lemma_join_written_out(
            verb_bytes(kind),
            encode_utf8(local@.device_id),
            encode_utf8(local@.name),
            decimal(local@.control_port as nat),
            FIELD_SEPARATOR,
        );
        assert(payload@ =~= announcement(kind, local@));
    }
    payload
}

/// Writes the `DISCOVER` datagram of `local`.
pub fn discover_message(local: &LocalPeer) -> (payload: Vec<u8>)
    ensures
        payload@ == announcement(DatagramKind::Discover, local@),
{
    announce(DatagramKind::Discover, local)
}

/// Writes the `HERE` datagram of `local`.
pub fn here_message(local: &LocalPeer) -> (payload: Vec<u8>)
    ensures
        payload@ == announcement(DatagramKind::Here, local@),
{
    announce(DatagramKind::Here, local)
}

/// Reads a port field.
pub fn read_port(field: &[u8]) -> (port: Option<u16>)
    ensures
        port == announced_port(field@),
{
    match parse_number(field, 0xFFFF) {
        Some(n) => Some(n as u16),
        None => None,
    }
}

/// Reads a payload as a datagram. Succeeds exactly on payloads of four fields
/// that begin with one of the two verbs.
pub fn parse_datagram(payload: &[u8]) -> (parsed: Option<Datagram>)
    ensures
        match parsed_datagram(payload@) {
            Some(datagram) => parsed matches Some(d) && d@ == datagram,
            None => parsed is None,
        },
{
    let fields = split_fields(payload, FIELD_SEPARATOR);
    assert(fields@.len() == split(payload@, FIELD_SEPARATOR).len());
    if fields.len() != 4 {
        return None;
    }
    assert(forall|i: int| 0 <= i < 4 ==> (#[trigger] fields@[i])@ == split(
        payload@,
        FIELD_SEPARATOR,
    )[i]);
    let kind = if bytes_equal(fields[0].as_slice(), "DISCOVER".as_bytes()) {
        DatagramKind::Discover
    } else if bytes_equal(fields[0].as_slice(), "HERE".as_bytes()) {
        DatagramKind::Here
    } else {
        return None;
    };
    Some(
        Datagram {
            kind,
            device_id: read_text(fields[1].as_slice()),
            display_name: read_text(fields[2].as_slice()),
            control_port: read_port(fields[3].as_slice()),
        },
    )
}

/// Describes the peer that sent `datagram` from `source_ip`.
pub fn describe_device(datagram: Datagram, source_ip: &str, fallback_port: u16) -> (device:
    DeviceInfo)
    ensures
        device@ == described_device(datagram@, source_ip@, fallback_port),
{
    let control_port = match datagram.control_port {
        Some(port) => port,
        None => fallback_port,
    };
    DeviceInfo {
        device_id: datagram.device_id,
        name: datagram.display_name,
        ip: source_ip.to_owned(),
        control_port,
    }
}

/// Decides what to do with a datagram received from `source_ip`.
pub fn handle_datagram(payload: &[u8], source_ip: &str, local: &LocalPeer) -> (action:
    DiscoveryAction)
    ensures
        action@ == datagram_action(payload@, source_ip@, local@),
{
    match parse_datagram(payload) {
        None => DiscoveryAction::Ignore,
        Some(datagram) => {
            if datagram.device_id == local.device_id {
                return DiscoveryAction::Ignore;
            }
            let kind = datagram.kind;
            let device = describe_device(datagram, source_ip, local.discovery_port);
            match kind {
                DatagramKind::Discover => DiscoveryAction::ReportAndReply {
                    device,
                    reply: here_message(local),
                },
                DatagramKind::Here => DiscoveryAction::Report { device },
            }
        },
    }
}

/// Handles one received datagram: reports its sender to the host where
/// `handle_datagram` says so, and returns the datagram to send back, if any.
/// The host is called at most once, and not at all for a datagram that is
/// ignored.
pub fn dispatch_datagram(
    payload: &[u8],
    source_ip: &str,
    local: &LocalPeer,
    callback: &dyn DiscoveryCallback,
) -> (reply: Option<Reply>)
    ensures
        match reply_of(datagram_action(payload@, source_ip@, local@)) {
            Some(expected) => reply matches Some(r) && r@ == expected,
            None => reply is None,
        },
{
    match handle_datagram(payload, source_ip, local) {
        DiscoveryAction::Ignore => None,
        DiscoveryAction::Report { device } => {
            callback.on_device_found(device);
            None
        },
        DiscoveryAction::ReportAndReply { device, reply } => {
            let ip = device.ip.clone();
            let port = device.control_port;
            callback.on_device_found(device);
            Some(Reply { ip, port, payload: reply })
        },
    }
}

/// The one-line record of a device that hosts behind a plain string
/// interface are handed: id, name, address and port, separated by `|`.
pub open spec fn device_record(device: DeviceView) -> Seq<char> {
    device.device_id + "|"@ + device.name + "|"@ + device.ip + "|"@ + ascii_text(
        decimal(device.control_port as nat),
    )
}

/// Writes the one-line record of a device.
pub fn device_line(device: &DeviceInfo) -> (line: String)
    ensures
        line@ == device_record(device@),
{
    let mut line = String::new();
    line.append(device.device_id.as_str());
    line.append("|");
    line.append(device.name.as_str());
    line.append("|");
    line.append(device.ip.as_str());
    line.append("|");
    push_decimal_text(&mut line, device.control_port as u64);
    assert(line@ =~= device_record(device@));
    line
}

/// Where a round of announcements goes: to the discovery port at each of the
/// addresses to announce on.
pub open spec fn round_destinations(local: PeerView, ifaces: Seq<NetInterface>) -> Seq<
    (u32, u16),
> {
    broadcast_list(ifaces).map_values(|address: u32| (address, local.discovery_port))
}

/// Whether `round` is the round of announcements of `local` on a machine
/// with the interfaces `ifaces`: the peer's `DISCOVER` datagram, which
/// carries its control port, goes to the discovery port at each address to
/// announce on.
pub open spec fn is_round_of(
    round: &AnnounceRound,
    local: PeerView,
    ifaces: Seq<NetInterface>,
) -> bool {
    &&& round.payload@ == announcement(DatagramKind::Discover, local)
    &&& round.port == local.discovery_port
    &&& dotted_quads_of(round.targets@, broadcast_list(ifaces))
}

/// Plans one round of announcements of `local` on a machine with the
/// interfaces `ifaces`.
pub fn round_for(local: &LocalPeer, ifaces: &Vec<NetInterface>) -> (round: AnnounceRound)
    ensures
        is_round_of(&round, local@, ifaces@),
        round.targets@.len() > 0,
{
    AnnounceRound {
        targets: broadcast_addresses(ifaces),
        port: local.discovery_port,
        payload: discover_message(local),
    }
}

/// Plans one round of announcements of `local` on this machine: its
/// `DISCOVER` datagram, to be sent to the discovery port at every broadcast
/// address of this machine. Whatever interfaces the machine reports, the
/// round is what `round_for` makes of some list of interfaces.
pub fn announce_round(local: &LocalPeer) -> (round: AnnounceRound)
    ensures
        exists|ifaces: Seq<NetInterface>| is_round_of(&round, local@, ifaces),
        round.payload@ == announcement(DatagramKind::Discover, local@),
        round.port == local.discovery_port,
        round.targets@.len() > 0,
{
    let round = AnnounceRound {
        targets: enumerate_broadcasts(),
        port: local.discovery_port,
        payload: discover_message(local),
    };
    proof {
        let ifaces = choose|ifaces: Seq<NetInterface>|
            dotted_quads_of(round.targets@, broadcast_list(ifaces));
        assert(is_round_of(&round, local@, ifaces));
    }
    round
}

// ---------------------------------------------------------------------------
// Laws
// ---------------------------------------------------------------------------

/// A payload that does not have exactly four fields is no datagram: it is
/// ignored, so nothing is reported and nothing is sent back.
pub proof fn lemma_wrong_field_count_ignored(
    payload: Seq<u8>,
    source_ip: Seq<char>,
    local: PeerView,
)
    requires
        split(payload, FIELD_SEPARATOR).len() != 4,
    ensures
        parsed_datagram(payload) is None,
        datagram_action(payload, source_ip, local) is Ignore,
        reply_of(datagram_action(payload, source_ip, local)) is None,
{
}

/// A datagram that carries the receiver's own device id is ignored: nothing
/// is reported and nothing is sent back.
pub proof fn lemma_self_echo_ignored(payload: Seq<u8>, source_ip: Seq<char>, local: PeerView)
    requires
        split(payload, FIELD_SEPARATOR).len() > 1,
        field_text(split(payload, FIELD_SEPARATOR)[1]) == local.device_id,
    ensures
        datagram_action(payload, source_ip, local) is Ignore,
        reply_of(datagram_action(payload, source_ip, local)) is None,
{
}

/// Whether the fields that a peer announces hold no separator, as the
/// protocol demands.
pub open spec fn announceable(peer: PeerView) -> bool {
    !peer.device_id.contains('|') && !peer.name.contains('|')
}

/// An announcement reads back as the datagram it was written for.
pub proof fn lemma_announcement_round_trip(kind: DatagramKind, peer: PeerView)
    requires
        announceable(peer),
    ensures
        parsed_datagram(announcement(kind, peer)) == Some(
            DatagramView {
                kind,
                device_id: peer.device_id,
                display_name: peer.name,
                control_port: Some(peer.control_port),
            },
        ),
{
    lemma_verbs();
    lemma_decimal_is_digits(peer.control_port as nat);
    lemma_parse_decimal_round_trip(peer.control_port as nat, 0xFFFF);
    lemma_ascii_in_encoding(peer.device_id, FIELD_SEPARATOR);
    lemma_ascii_in_encoding(peer.name, FIELD_SEPARATOR);
    assert(FIELD_SEPARATOR as char == '|');
    let fields = seq![
        verb_bytes(kind),
        encode_utf8(peer.device_id),
        encode_utf8(peer.name),
        decimal(peer.control_port as nat),
    ];
    assert(separator_free(fields, FIELD_SEPARATOR));
    lemma_split_join(fields, FIELD_SEPARATOR);
    encode_utf8_valid_utf8(peer.device_id);
    encode_utf8_decode_utf8(peer.device_id);
    encode_utf8_valid_utf8(peer.name);
    encode_utf8_decode_utf8(peer.name);
}

/// A peer ignores its own announcements, whichever address they come from.
pub proof fn lemma_own_announcement_ignored(
    kind: DatagramKind,
    source_ip: Seq<char>,
    local: PeerView,
)
    requires
        announceable(local),
    ensures
        datagram_action(announcement(kind, local), source_ip, local) is Ignore,
{
    lemma_announcement_round_trip(kind, local);
}

/// Discovery between two peers on one network. The asker, whose one
/// interface has the configuration `asker_net`, sends its `DISCOVER`, which
/// carries its control port, to the discovery port at the broadcast address
/// of that network. When the datagram arrives from `asker_ip`, another peer
/// `answerer` reports the asker with every field as announced and answers
/// with its own `HERE` to the asker's address and control port. When that
/// answer arrives from `answerer_ip`, the asker reports the answerer and
/// sends nothing.
pub proof fn lemma_discover_then_here(
    asker: PeerView,
    asker_net: Ipv4Net,
    asker_ip: Seq<char>,
    answerer: PeerView,
    answerer_ip: Seq<char>,
)
    requires
        announceable(asker),
        announceable(answerer),
        asker.device_id != answerer.device_id,
        broadcast_of(asker_net.ip, asker_net.netmask) != 0,
    ensures
        round_destinations(asker, seq![NetInterface { loopback: false, v4: Some(asker_net) }])
            == seq![(broadcast_of(asker_net.ip, asker_net.netmask), asker.discovery_port)],
        datagram_action(announcement(DatagramKind::Discover, asker), asker_ip, answerer)
            == (ActionView::ReportAndReply {
            device: DeviceView {
                device_id: asker.device_id,
                name: asker.name,
                ip: asker_ip,
                control_port: asker.control_port,
            },
            reply: announcement(DatagramKind::Here, answerer),
        }),
        reply_of(
            datagram_action(announcement(DatagramKind::Discover, asker), asker_ip, answerer),
        ) == Some(
            ReplyView {
                ip: asker_ip,
                port: asker.control_port,
                payload: announcement(DatagramKind::Here, answerer),
            },
        ),
        datagram_action(announcement(DatagramKind::Here, answerer), answerer_ip, asker)
            == (ActionView::Report {
            device: DeviceView {
                device_id: answerer.device_id,
                name: answerer.name,
                ip: answerer_ip,
                control_port: answerer.control_port,
            },
        }),
{
    lemma_announcement_round_trip(DatagramKind::Discover, asker);
    lemma_announcement_round_trip(DatagramKind::Here, answerer);
    let iface = NetInterface { loopback: false, v4: Some(asker_net) };
    lemma_single_interface_list(iface);
    assert(round_destinations(asker, seq![iface]) =~= seq![
        (broadcast_of(asker_net.ip, asker_net.netmask), asker.discovery_port),
    ]);
}

/// A peer whose announced port cannot be read is reported with the
/// receiver's discovery port in its place, and a `DISCOVER` of such a peer is
/// answered to that port.
pub proof fn lemma_unreadable_port_falls_back(
    payload: Seq<u8>,
    source_ip: Seq<char>,
    local: PeerView,
)
    requires
        parsed_datagram(payload) matches Some(datagram) && datagram.control_port is None
            && datagram.device_id != local.device_id,
    ensures
        match datagram_action(payload, source_ip, local) {
            ActionView::Report { device } => device.control_port == local.discovery_port,
            ActionView::ReportAndReply { device, reply } => device.control_port
                == local.discovery_port && reply_of(
                datagram_action(payload, source_ip, local),
            )->0.port == local.discovery_port,
            ActionView::Ignore => false,
        },
{
}

/// Discovery worked out for two hosts on the network `10.0.0.0/24`, where
/// discovery is on port 4060. Alpha, with id `A` and control port 4061,
/// sends `DISCOVER|A|Alpha|4061` to `10.0.0.255:4060`. Beta, with id `B` and
/// control port 4061, receives it from `10.0.0.5`, reports Alpha and sends
/// `HERE|B|Beta|4061` to `10.0.0.5:4061`. Alpha receives that from
/// `10.0.0.6` and reports Beta.
pub proof fn lemma_alpha_discovers_beta()
    ensures
        ({
            let alpha = PeerView {
                device_id: "A"@,
                name: "Alpha"@,
                control_port: 4061,
                discovery_port: 4060,
            };
            let beta = PeerView {
                device_id: "B"@,
                name: "Beta"@,
                control_port: 4061,
                discovery_port: 4060,
            };
            let net = Ipv4Net { ip: 0x0A00_0005, netmask: 0xFFFF_FF00 };
            let question = "DISCOVER|A|Alpha|4061".spec_bytes();
            let answer = "HERE|B|Beta|4061".spec_bytes();
            &&& announcement(DatagramKind::Discover, alpha) == question
            &&& round_destinations(alpha, seq![NetInterface { loopback: false, v4: Some(net) }])
                == seq![(0x0A00_00FFu32, 4060u16)]
            &&& dotted_quad_text(0x0A00_00FFu32) == "10.0.0.255"@
            &&& datagram_action(question, "10.0.0.5"@, beta) == (ActionView::ReportAndReply {
                device: DeviceView {
                    device_id: "A"@,
                    name: "Alpha"@,
                    ip: "10.0.0.5"@,
                    control_port: 4061,
                },
                reply: answer,
            })
            &&& reply_of(datagram_action(question, "10.0.0.5"@, beta)) == Some(
                ReplyView { ip: "10.0.0.5"@, port: 4061, payload: answer },
            )
            &&& datagram_action(answer, "10.0.0.6"@, alpha) == (ActionView::Report {
                device: DeviceView {
                    device_id: "B"@,
                    name: "Beta"@,
                    ip: "10.0.0.6"@,
                    control_port: 4061,
                },
            })
        }),
{
    let alpha = PeerView {
        device_id: "A"@,
        name: "Alpha"@,
        control_port: 4061,
        discovery_port: 4060,
    };
    let beta = PeerView {
        device_id: "B"@,
        name: "Beta"@,
        control_port: 4061,
        discovery_port: 4060,
    };
    let net = Ipv4Net { ip: 0x0A00_0005, netmask: 0xFFFF_FF00 };
    reveal_strlit("A");
    reveal_strlit("Alpha");
    reveal_strlit("B");
    reveal_strlit("Beta");
    reveal_strlit("DISCOVER|A|Alpha|4061");
    reveal_strlit("HERE|B|Beta|4061");
    is_ascii_spec_bytes("A");
    is_ascii_spec_bytes("Alpha");
    is_ascii_spec_bytes("B");
    is_ascii_spec_bytes("Beta");
    is_ascii_spec_bytes("DISCOVER|A|Alpha|4061");
    is_ascii_spec_bytes("HERE|B|Beta|4061");
    lemma_verbs();
    let port = decimal(4061);
    assert(port =~= seq![0x34u8, 0x30, 0x36, 0x31]) by {
        assert(decimal(4) =~= seq![0x34u8]);
        assert(decimal(40) =~= seq![0x34u8, 0x30]);
        assert(decimal(406) =~= seq![0x34u8, 0x30, 0x36]);
    }
    assert(encode_utf8("A"@) =~= seq![0x41u8]);
    assert(encode_utf8("Alpha"@) =~= seq![0x41u8, 0x6C, 0x70, 0x68, 0x61]);
    assert(encode_utf8("B"@) =~= seq![0x42u8]);
    assert(encode_utf8("Beta"@) =~= seq![0x42u8, 0x65, 0x74, 0x61]);
    lemma_join_written_out(
        verb_discover(),
        encode_utf8("A"@),
        encode_utf8("Alpha"@),
        port,
        FIELD_SEPARATOR,
    );
    lemma_join_written_out(
        verb_here(),
        encode_utf8("B"@),
        encode_utf8("Beta"@),
        port,
        FIELD_SEPARATOR,
    );
    assert(announcement(DatagramKind::Discover, alpha) =~= "DISCOVER|A|Alpha|4061".spec_bytes());
    assert(announcement(DatagramKind::Here, beta) =~= "HERE|B|Beta|4061".spec_bytes());
    assert(broadcast_of(net.ip, net.netmask) == 0x0A00_00FFu32) by {
        assert((0x0A00_0005u32 | !0xFFFF_FF00u32) == 0x0A00_00FFu32) by (bit_vector);
    }
    assert(dotted_quad_text(0x0A00_00FFu32) =~= "10.0.0.255"@) by {
        reveal_strlit("10.0.0.255");
        assert(decimal(10) =~= seq![0x31u8, 0x30]) by {
            assert(decimal(1) =~= seq![0x31u8]);
        }
        assert(decimal(0) =~= seq![0x30u8]);
        assert(decimal(255) =~= seq![0x32u8, 0x35, 0x35]) by {
            assert(decimal(2) =~= seq![0x32u8]);
            assert(decimal(25) =~= seq![0x32u8, 0x35]);
        }
        lemma_join_written_out(decimal(10), decimal(0), decimal(0), decimal(255), DOT);
    }
    assert(alpha.device_id != beta.device_id) by {
        assert("A"@[0] != "B"@[0]);
    }
    lemma_discover_then_here(alpha, net, "10.0.0.5"@, beta, "10.0.0.6"@);
}

} // verus!
