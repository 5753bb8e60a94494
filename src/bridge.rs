//! The correlation engine: classifies content lines, keeps the caches, and
//! decides which text messages become notifications.
use vstd::prelude::*;
use crate::envelope::{envelope_of, parse_envelope, EnvelopeError};
use crate::lines::{
    is_range_test, metadata_of, nodeinfo_of, parse_handle_received, parse_nodeinfo,
    parse_text_message, range_test, text_of, MetadataLine, MetadataView, TextLine,
};
use crate::tables::{
    index_of, is_stale, lemma_index_of, observed, without_sighting, MetaView, NodeDirectory,
    NodeInfo, NodeInfoView, PendingTable, PendingView, Taken, TransportMeta, MAX_AGE_SECS,
};
use crate::text::{chars_of, find_char, find_from, hex8, hex8_chars, lemma_find_from, slice_of, string_of};

verus! {

/// The destination that addresses every node.
pub const BROADCAST: u32 = 0xffff_ffff;

/// Which text messages are forwarded.
pub struct Policy {
    /// The channel whose broadcasts are forwarded; none when no broadcast is.
    pub channel: Option<u32>,
    /// Whether direct messages are forwarded.
    pub dm: bool,
}

/// A broadcast is forwarded when its channel is the configured one; a direct
/// message when direct messages are on and it came on channel 0.
pub open spec fn forwards(channel: Option<u32>, dm: bool, to: u32, ch: u32) -> bool {
    if to == BROADCAST {
        channel == Some(ch)
    } else {
        dm && ch == 0
    }
}

/// Whether a message to `to` on channel `ch` is forwarded.
pub fn should_forward(policy: &Policy, to: u32, ch: u32) -> (r: bool)
    ensures
        r == forwards(policy.channel, policy.dm, to, ch),
{
    if to == BROADCAST {
        match policy.channel {
            Some(c) => c == ch,
            None => false,
        }
    } else {
        policy.dm && ch == 0
    }
}

/// How many hops a packet travelled: its hop start less its hop limit, at
/// least zero, when both are known.
pub open spec fn hops_of(hop_start: Option<u32>, hop_limit: Option<u32>) -> Option<u32> {
    match (hop_start, hop_limit) {
        (Some(s), Some(l)) => Some(if s >= l { (s - l) as u32 } else { 0 }),
        _ => None,
    }
}

/// How many hops a packet travelled.
pub fn hops_away(hop_start: Option<u32>, hop_limit: Option<u32>) -> (r: Option<u32>)
    ensures
        r == hops_of(hop_start, hop_limit),
{
    match (hop_start, hop_limit) {
        (Some(s), Some(l)) => Some(s.saturating_sub(l)),
        _ => None,
    }
}

/// The short name of the local node that `ident` names: its text before the
/// first `_`, or all of it when it holds none.
pub open spec fn local_short_name(ident: Seq<char>) -> Seq<char> {
    let u = find_from(ident, '_', 0);
    if u == -1 {
        ident
    } else {
        ident.take(u)
    }
}

/// The name shown for sender `from`: the local node's label for 0, else its
/// long name where known, else its id in hexadecimal.
pub open spec fn display_name_of(from: u32, ident: Seq<char>, nodes: Map<u32, NodeInfoView>) -> Seq<
    char,
> {
    if from == 0 {
        local_short_name(ident) + " (Local)"@
    } else if nodes.contains_key(from) {
        nodes[from].longname
    } else {
        "0x"@ + hex8(from)
    }
}

/// The name shown for sender `from`, seen through `ident`.
pub fn display_name(from: u32, ident: &str, nodes: &NodeDirectory) -> (r: String)
    ensures
        r@ == display_name_of(from, ident@, nodes@),
{
    if from == 0 {
        let v = chars_of(ident);
        let mut short: Vec<char> = match find_char(&v, '_', 0) {
            Some(u) => {
                proof {
                    lemma_find_from(v@, '_', 0);
                }
                slice_of(&v, 0, u)
            },
            None => v,
        };
        let mut tail = chars_of(" (Local)");
        short.append(&mut tail);
        return string_of(&short);
    }
    match nodes.get(from) {
        Some(info) => info.longname.clone(),
        None => {
            let mut out = chars_of("0x");
            let mut digits = hex8_chars(from);
            out.append(&mut digits);
            string_of(&out)
        },
    }
}

/// A notification for the outside sender.
pub struct MessageData {
    /// The sender's display name.
    pub from: String,
    /// The identifier the packet came through.
    pub via: String,
    pub text: String,
    /// Signal-to-noise ratio, as the metadata line wrote it.
    pub snr: Option<String>,
    pub rssi: Option<i32>,
    pub hops_away: Option<u32>,
}

pub struct MessageView {
    pub from: Seq<char>,
    pub via: Seq<char>,
    pub text: Seq<char>,
    pub snr: Option<Seq<char>>,
    pub rssi: Option<i32>,
    pub hops_away: Option<u32>,
}

impl View for MessageData {
    type V = MessageView;

    open spec fn view(&self) -> MessageView {
        MessageView {
            from: self.from@,
            via: self.via@,
            text: self.text@,
            snr: crate::lines::opt_view(self.snr),
            rssi: self.rssi,
            hops_away: self.hops_away,
        }
    }
}

/// What became of a text message.
pub enum TextOutcome {
    /// A range-test heartbeat, dropped.
    RangeTest,
    /// No metadata was ever seen for the packet.
    NoPacket,
    /// The packet was not seen through this identifier.
    NoSighting,
    /// The metadata is older than `MAX_AGE_SECS`.
    Stale,
    /// The packet came through the MQTT relay.
    Relayed,
    /// The forwarding policy declines a message to `to` on channel `ch`.
    Filtered { to: u32, ch: u32 },
    /// To be sent.
    Forward(MessageData),
}

/// The notification for a text message from `from` with body `text`, through
/// `ident`, observed with `meta`.
pub open spec fn message_of(
    from: u32,
    ident: Seq<char>,
    text: Seq<char>,
    meta: MetaView,
    nodes: Map<u32, NodeInfoView>,
) -> MessageView {
    MessageView {
        from: display_name_of(from, ident, nodes),
        via: ident,
        text,
        snr: meta.radio.snr,
        rssi: meta.radio.rssi,
        hops_away: hops_of(meta.radio.hop_start, meta.radio.hop_limit),
    }
}

/// What becomes of text message (`from`, `id`, `text`) that arrives through
/// `ident` at `now`, given the pending table `m` and the directory `nodes`.
pub open spec fn text_outcome_of(
    m: Map<u32, PendingView>,
    nodes: Map<u32, NodeInfoView>,
    channel: Option<u32>,
    dm: bool,
    ident: Seq<char>,
    from: u32,
    id: u32,
    text: Seq<char>,
    now: u64,
    r: TextOutcome,
) -> bool {
    if is_range_test(text) {
        r is RangeTest
    } else if !m.contains_key(id) {
        r is NoPacket
    } else {
        let i = index_of(m[id].sightings, ident);
        if i == -1 {
            r is NoSighting
        } else {
            let meta = m[id].sightings[i].meta;
            if is_stale(meta.recorded_at, now) {
                r is Stale
            } else if m[id].relayed {
                r is Relayed
            } else if !forwards(channel, dm, meta.radio.to, meta.radio.ch) {
                r == TextOutcome::Filtered { to: meta.radio.to, ch: meta.radio.ch }
            } else {
                r matches TextOutcome::Forward(msg) && msg@ == message_of(
                    from,
                    ident,
                    text,
                    meta,
                    nodes,
                )
            }
        }
    }
}

/// The pending table after a text message for packet `id` through `ident`:
/// unchanged for a heartbeat, else without that observation.
pub open spec fn after_text(m: Map<u32, PendingView>, ident: Seq<char>, id: u32, text: Seq<char>) -> Map<
    u32,
    PendingView,
> {
    if is_range_test(text) {
        m
    } else {
        without_sighting(m, id, ident)
    }
}

/// Joins a text message with the metadata of its packet.
pub fn process_text(
    pending: &mut PendingTable,
    nodes: &NodeDirectory,
    policy: &Policy,
    ident: &str,
    line: TextLine,
    now: u64,
) -> (r: TextOutcome)
    requires
        old(pending).wf(),
    ensures
        final(pending).wf(),
        final(pending)@ == after_text(old(pending)@, ident@, line.id, line.text@),
        text_outcome_of(
            old(pending)@,
            nodes@,
            policy.channel,
            policy.dm,
            ident@,
            line.from,
            line.id,
            line.text@,
            now,
            r,
        ),
{
    if range_test(line.text.as_str()) {
        return TextOutcome::RangeTest;
    }
    let key = string_of(&chars_of(ident));
    let ghost m = pending@;
    let taken = pending.take(line.id, &key);
    proof {
        if m.contains_key(line.id) {
            lemma_index_of(m[line.id].sightings, ident@);
        }
    }
    match taken {
        Taken::NoPacket => TextOutcome::NoPacket,
        Taken::NoSighting => TextOutcome::NoSighting,
        Taken::Found { relayed, meta } => {
            if now > meta.recorded_at && now - meta.recorded_at > MAX_AGE_SECS {
                return TextOutcome::Stale;
            }
            if relayed {
                return TextOutcome::Relayed;
            }
            if !should_forward(policy, meta.radio.to, meta.radio.ch) {
                return TextOutcome::Filtered { to: meta.radio.to, ch: meta.radio.ch };
            }
            let from = display_name(line.from, ident, nodes);
            let hops = hops_away(meta.radio.hop_start, meta.radio.hop_limit);
            TextOutcome::Forward(
                MessageData {
                    from,
                    via: key,
                    text: line.text,
                    snr: meta.radio.snr,
                    rssi: meta.radio.rssi,
                    hops_away: hops,
                },
            )
        },
    }
}

/// What a content line was, and what was done with it.
pub enum Dispatch {
    /// A node-info update for node `id`; not `stored` while a pending packet
    /// with that id is flagged as relayed.
    NodeInfo { id: u32, stored: bool },
    /// Transport metadata of a packet of another port than text messages.
    OtherPort,
    /// Transport metadata of text packet `id`, recorded.
    Observed { id: u32, relayed: bool },
    /// A text message from node `from` in packet `packet`, and what became of it.
    Text { from: u32, packet: u32, text: String, outcome: TextOutcome },
    /// None of the three kinds.
    Unmatched,
}

/// Packet `id` is pending and flagged as relayed.
pub open spec fn relay_flagged(m: Map<u32, PendingView>, id: u32) -> bool {
    m.contains_key(id) && m[id].relayed
}

/// `r` is what handling `content` through `ident` at `now` returns, and the
/// caches go from `tab0`, `dir0` to `tab1`, `dir1`. The node-info form is tried first,
/// then the metadata form, then the text form.
pub open spec fn handled(
    tab0: Map<u32, PendingView>,
    tab1: Map<u32, PendingView>,
    dir0: Map<u32, NodeInfoView>,
    dir1: Map<u32, NodeInfoView>,
    channel: Option<u32>,
    dm: bool,
    ident: Seq<char>,
    content: Seq<char>,
    now: u64,
    r: Dispatch,
) -> bool {
    match nodeinfo_of(content) {
        Some((id, longname, shortname)) => {
            &&& tab1 == tab0
            &&& r == Dispatch::NodeInfo { id, stored: !relay_flagged(tab0, id) }
            &&& dir1 == if relay_flagged(tab0, id) {
                dir0
            } else {
                dir0.insert(id, NodeInfoView { shortname, longname })
            }
        },
        None => match metadata_of(content) {
            Some(MetadataView::OtherPort) => tab1 == tab0 && dir1 == dir0 && r is OtherPort,
            Some(MetadataView::Text { id, relayed, radio }) => {
                &&& tab1 == observed(tab0, id, ident, relayed, MetaView { radio, recorded_at: now })
                &&& dir1 == dir0
                &&& r == Dispatch::Observed { id, relayed }
            },
            None => match text_of(content) {
                Some((from, id, text)) => {
                    &&& tab1 == after_text(tab0, ident, id, text)
                    &&& dir1 == dir0
                    &&& r is Text
                    &&& r->from == from && r->packet == id && r->text@ == text
                    &&& text_outcome_of(
                        tab0,
                        dir0,
                        channel,
                        dm,
                        ident,
                        from,
                        id,
                        text,
                        now,
                        r->outcome,
                    )
                },
                None => tab1 == tab0 && dir1 == dir0 && r is Unmatched,
            },
        },
    }
}

/// Handles one content line that arrived through `ident` at `now`.
pub fn handle_line(
    pending: &mut PendingTable,
    nodes: &mut NodeDirectory,
    policy: &Policy,
    ident: &str,
    content: &str,
    now: u64,
) -> (r: Dispatch)
    requires
        old(pending).wf(),
    ensures
        final(pending).wf(),
        handled(
            old(pending)@,
            final(pending)@,
            old(nodes)@,
            final(nodes)@,
            policy.channel,
            policy.dm,
            ident@,
            content@,
            now,
            r,
        ),
{
    if let Some(l) = parse_nodeinfo(content) {
        if pending.is_relayed(l.id) {
            return Dispatch::NodeInfo { id: l.id, stored: false };
        }
        let id = l.id;
        nodes.insert(id, NodeInfo { shortname: l.shortname, longname: l.longname });
        return Dispatch::NodeInfo { id, stored: true };
    }
    match parse_handle_received(content) {
        Some(MetadataLine::OtherPort) => {
            return Dispatch::OtherPort;
        },
        Some(MetadataLine::Text { id, relayed, radio }) => {
            let key = string_of(&chars_of(ident));
            pending.observe(id, key, relayed, TransportMeta { radio, recorded_at: now });
            return Dispatch::Observed { id, relayed };
        },
        None => {},
    }
    match parse_text_message(content) {
        Some(line) => {
            let from = line.from;
            let id = line.id;
            let text = line.text.clone();
            let outcome = process_text(pending, nodes, policy, ident, line, now);
            Dispatch::Text { from, packet: id, text, outcome }
        },
        None => Dispatch::Unmatched,
    }
}

/// Handles one syslog line that arrived at `now`: splits off its envelope,
/// then handles its content. A line without an envelope changes nothing.
pub fn handle_datagram(
    pending: &mut PendingTable,
    nodes: &mut NodeDirectory,
    policy: &Policy,
    text: &str,
    now: u64,
) -> (r: Result<(String, Dispatch), EnvelopeError>)
    requires
        old(pending).wf(),
    ensures
        final(pending).wf(),
        match envelope_of(text@) {
            Err(e) => r == Err::<(String, Dispatch), EnvelopeError>(e) && final(pending)@ == old(
                pending,
            )@ && final(nodes)@ == old(nodes)@,
            Ok((ident, content)) => r matches Ok((i, d)) && i@ == ident && handled(
                old(pending)@,
                final(pending)@,
                old(nodes)@,
                final(nodes)@,
                policy.channel,
                policy.dm,
                ident,
                content,
                now,
                d,
            ),
        },
{
    match parse_envelope(text) {
        Err(e) => Err(e),
        Ok((ident, content)) => {
            let d = handle_line(pending, nodes, policy, ident.as_str(), content.as_str(), now);
            Ok((ident, d))
        },
    }
}

} // verus!
