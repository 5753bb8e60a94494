//! Properties of the engine that span several lines or every state.
use vstd::prelude::*;
use crate::bridge::{forwards, handled, hops_of, message_of, relay_flagged, Dispatch, TextOutcome};
use crate::lines::{is_range_test, metadata_of, nodeinfo_of, text_of, MetadataView, RadioView};
use crate::tables::{
    fresh_only, index_of, is_stale, lemma_index_of, packet_wf, swept, table_wf, upsert, MetaView,
    NodeInfoView, PendingView, SightingView, MAX_AGE_SECS,
};

verus! {

/// After an upsert, the observation through `ident` is the new one.
pub proof fn lemma_upsert_finds(s: Seq<SightingView>, ident: Seq<char>, meta: MetaView)
    ensures
        index_of(upsert(s, ident, meta), ident) >= 0,
        upsert(s, ident, meta)[index_of(upsert(s, ident, meta), ident)].meta == meta,
{
    let i = index_of(s, ident);
    let u = upsert(s, ident, meta);
    lemma_index_of(s, ident);
    if i != -1 {
        lemma_index_of_is_last(s, ident);
        lemma_last_match(u, ident, i);
    }
}

/// No observation after the one `index_of` finds has the same identifier.
proof fn lemma_index_of_is_last(s: Seq<SightingView>, ident: Seq<char>)
    ensures
        forall|j: int| index_of(s, ident) < j < s.len() ==> (#[trigger] s[j]).ident != ident,
    decreases s.len(),
{
    lemma_index_of(s, ident);
    if s.len() > 0 && s.last().ident != ident {
        lemma_index_of_is_last(s.drop_last(), ident);
        assert forall|j: int| index_of(s, ident) < j < s.len() - 1 implies (#[trigger] s[j]).ident
            != ident by {
            assert(s[j] == s.drop_last()[j]);
        }
    }
}

/// `index_of` finds the last observation through `ident`.
proof fn lemma_last_match(s: Seq<SightingView>, ident: Seq<char>, i: int)
    requires
        0 <= i < s.len(),
        s[i].ident == ident,
        forall|j: int| i < j < s.len() ==> (#[trigger] s[j]).ident != ident,
    ensures
        index_of(s, ident) == i,
    decreases s.len(),
{
    if i < s.len() - 1 {
        assert(s[s.len() - 1].ident != ident);
        assert forall|j: int| i < j < s.drop_last().len() implies (
        #[trigger] s.drop_last()[j]).ident != ident by {
            assert(s.drop_last()[j] == s[j]);
        }
        lemma_last_match(s.drop_last(), ident, i);
    }
}

/// A text packet observed through `ident` without the relay marker, for a
/// destination and channel that the policy forwards, and followed within
/// `MAX_AGE_SECS` by its text line through the same identifier, gives exactly
/// one notification: none at the metadata line, one at the text line, whose
/// hop count is the hop start less the hop limit (at least zero) when both
/// are known.
pub proof fn law_matched_pair_forwards(
    tab0: Map<u32, PendingView>,
    tab1: Map<u32, PendingView>,
    tab2: Map<u32, PendingView>,
    dir0: Map<u32, NodeInfoView>,
    dir1: Map<u32, NodeInfoView>,
    dir2: Map<u32, NodeInfoView>,
    channel: Option<u32>,
    dm: bool,
    ident: Seq<char>,
    meta_line: Seq<char>,
    text_line: Seq<char>,
    id: u32,
    radio: RadioView,
    from: u32,
    text: Seq<char>,
    t1: u64,
    t2: u64,
    r1: Dispatch,
    r2: Dispatch,
)
    requires
        handled(tab0, tab1, dir0, dir1, channel, dm, ident, meta_line, t1, r1),
        handled(tab1, tab2, dir1, dir2, channel, dm, ident, text_line, t2, r2),
        nodeinfo_of(meta_line) is None,
        (metadata_of(meta_line) == Some(MetadataView::Text { id, relayed: false, radio })),
        nodeinfo_of(text_line) is None,
        metadata_of(text_line) is None,
        text_of(text_line) == Some((from, id, text)),
        !is_range_test(text),
        forwards(channel, dm, radio.to, radio.ch),
        t2 - t1 <= MAX_AGE_SECS,
    ensures
        (r1 == Dispatch::Observed { id, relayed: false }),
        r2 is Text,
        (r2->outcome matches TextOutcome::Forward(msg) && msg@ == message_of(
            from,
            ident,
            text,
            (MetaView { radio, recorded_at: t1 }),
            dir1,
        ) && msg@.hops_away == hops_of(radio.hop_start, radio.hop_limit)),
{
    let meta = MetaView { radio, recorded_at: t1 };
    let s0 = if tab0.contains_key(id) {
        tab0[id].sightings
    } else {
        Seq::empty()
    };
    lemma_upsert_finds(s0, ident, meta);
    assert(tab1.contains_key(id));
    assert(tab1[id].sightings == upsert(s0, ident, meta));
}

/// A text line whose observation is older than `MAX_AGE_SECS` when it
/// arrives gives no notification, and that observation leaves the table.
pub proof fn law_stale_dropped(
    tab1: Map<u32, PendingView>,
    tab2: Map<u32, PendingView>,
    dir1: Map<u32, NodeInfoView>,
    dir2: Map<u32, NodeInfoView>,
    channel: Option<u32>,
    dm: bool,
    ident: Seq<char>,
    text_line: Seq<char>,
    from: u32,
    id: u32,
    text: Seq<char>,
    now: u64,
    r: Dispatch,
)
    requires
        table_wf(tab1),
        handled(tab1, tab2, dir1, dir2, channel, dm, ident, text_line, now, r),
        nodeinfo_of(text_line) is None,
        metadata_of(text_line) is None,
        text_of(text_line) == Some((from, id, text)),
        !is_range_test(text),
        tab1.contains_key(id),
        index_of(tab1[id].sightings, ident) != -1,
        is_stale(tab1[id].sightings[index_of(tab1[id].sightings, ident)].meta.recorded_at, now),
    ensures
        r is Text && r->outcome is Stale,
        !(tab2.contains_key(id) && index_of(tab2[id].sightings, ident) != -1),
{
    law_text_consumes_sighting(
        tab1,
        tab2,
        dir1,
        dir2,
        channel,
        dm,
        ident,
        text_line,
        from,
        id,
        text,
        now,
        r,
    );
}

/// An observation is taken by at most one text line: after any text line for
/// packet `id` through `ident` other than a heartbeat, whatever became of it,
/// no observation of that packet through that identifier is left.
pub proof fn law_text_consumes_sighting(
    tab1: Map<u32, PendingView>,
    tab2: Map<u32, PendingView>,
    dir1: Map<u32, NodeInfoView>,
    dir2: Map<u32, NodeInfoView>,
    channel: Option<u32>,
    dm: bool,
    ident: Seq<char>,
    text_line: Seq<char>,
    from: u32,
    id: u32,
    text: Seq<char>,
    now: u64,
    r: Dispatch,
)
    requires
        table_wf(tab1),
        handled(tab1, tab2, dir1, dir2, channel, dm, ident, text_line, now, r),
        nodeinfo_of(text_line) is None,
        metadata_of(text_line) is None,
        text_of(text_line) == Some((from, id, text)),
        !is_range_test(text),
    ensures
        !(tab2.contains_key(id) && index_of(tab2[id].sightings, ident) != -1),
{
    if tab1.contains_key(id) {
        let s = tab1[id].sightings;
        let i = index_of(s, ident);
        lemma_index_of(s, ident);
        assert(packet_wf(tab1[id]));
        if i == -1 {
            assert(tab2[id].sightings == s);
        } else {
            let rest = s.remove(i);
            if rest.len() > 0 {
                assert(tab2[id].sightings == rest);
                assert forall|j: int| 0 <= j < rest.len() implies (#[trigger] rest[j]).ident
                    != ident by {
                    if j < i {
                        assert(rest[j] == s[j]);
                    } else {
                        assert(rest[j] == s[j + 1]);
                    }
                }
                lemma_index_of(rest, ident);
            }
        }
    }
}

/// A metadata line with the relay marker flags its packet as relayed.
pub proof fn law_relay_marker_flags(
    tab0: Map<u32, PendingView>,
    tab1: Map<u32, PendingView>,
    dir0: Map<u32, NodeInfoView>,
    dir1: Map<u32, NodeInfoView>,
    channel: Option<u32>,
    dm: bool,
    ident: Seq<char>,
    meta_line: Seq<char>,
    id: u32,
    radio: RadioView,
    now: u64,
    r: Dispatch,
)
    requires
        handled(tab0, tab1, dir0, dir1, channel, dm, ident, meta_line, now, r),
        nodeinfo_of(meta_line) is None,
        (metadata_of(meta_line) == Some(MetadataView::Text { id, relayed: true, radio })),
    ensures
        relay_flagged(tab1, id),
{
}

/// While packet `id` is flagged as relayed, a text line for it gives no
/// notification.
pub proof fn law_relayed_text_dropped(
    tab1: Map<u32, PendingView>,
    tab2: Map<u32, PendingView>,
    dir1: Map<u32, NodeInfoView>,
    dir2: Map<u32, NodeInfoView>,
    channel: Option<u32>,
    dm: bool,
    ident: Seq<char>,
    text_line: Seq<char>,
    from: u32,
    id: u32,
    text: Seq<char>,
    now: u64,
    r: Dispatch,
)
    requires
        handled(tab1, tab2, dir1, dir2, channel, dm, ident, text_line, now, r),
        nodeinfo_of(text_line) is None,
        metadata_of(text_line) is None,
        text_of(text_line) == Some((from, id, text)),
        relay_flagged(tab1, id),
    ensures
        r is Text && !(r->outcome is Forward),
{
}

/// While packet `id` is flagged as relayed, a node-info update for node `id`
/// leaves both caches as they are.
pub proof fn law_relayed_nodeinfo_ignored(
    tab1: Map<u32, PendingView>,
    tab2: Map<u32, PendingView>,
    dir1: Map<u32, NodeInfoView>,
    dir2: Map<u32, NodeInfoView>,
    channel: Option<u32>,
    dm: bool,
    ident: Seq<char>,
    line: Seq<char>,
    id: u32,
    longname: Seq<char>,
    shortname: Seq<char>,
    now: u64,
    r: Dispatch,
)
    requires
        handled(tab1, tab2, dir1, dir2, channel, dm, ident, line, now, r),
        nodeinfo_of(line) == Some((id, longname, shortname)),
        relay_flagged(tab1, id),
    ensures
        dir2 == dir1,
        tab2 == tab1,
        (r == Dispatch::NodeInfo { id, stored: false }),
{
}

/// A range-test heartbeat is dropped whatever metadata is pending for its
/// packet, and leaves both caches as they are.
pub proof fn law_heartbeat_dropped(
    tab1: Map<u32, PendingView>,
    tab2: Map<u32, PendingView>,
    dir1: Map<u32, NodeInfoView>,
    dir2: Map<u32, NodeInfoView>,
    channel: Option<u32>,
    dm: bool,
    ident: Seq<char>,
    line: Seq<char>,
    from: u32,
    id: u32,
    text: Seq<char>,
    now: u64,
    r: Dispatch,
)
    requires
        handled(tab1, tab2, dir1, dir2, channel, dm, ident, line, now, r),
        nodeinfo_of(line) is None,
        metadata_of(line) is None,
        text_of(line) == Some((from, id, text)),
        is_range_test(text),
    ensures
        r is Text && r->outcome is RangeTest,
        tab2 == tab1,
        dir2 == dir1,
{
}

/// Keeping the fresh observations of a list with none stale keeps it whole.
proof fn lemma_all_fresh(s: Seq<SightingView>, now: u64)
    requires
        forall|i: int| 0 <= i < s.len() ==> !is_stale(#[trigger] s[i].meta.recorded_at, now),
    ensures
        fresh_only(s, now) == s,
    decreases s.len(),
{
    if s.len() > 0 {
        assert forall|i: int| 0 <= i < s.drop_last().len() implies !is_stale(
            #[trigger] s.drop_last()[i].meta.recorded_at,
            now,
        ) by {
            assert(s.drop_last()[i] == s[i]);
        }
        lemma_all_fresh(s.drop_last(), now);
        assert(!is_stale(s[s.len() - 1].meta.recorded_at, now));
        assert(s.drop_last().push(s.last()) =~= s);
    }
}

/// A sweep when no observation is older than `MAX_AGE_SECS` leaves the
/// table as it is.
pub proof fn law_sweep_without_stale_is_identity(m: Map<u32, PendingView>, now: u64)
    requires
        table_wf(m),
        forall|id: u32, i: int|
            m.contains_key(id) && 0 <= i < m[id].sightings.len() ==> !is_stale(
                #[trigger] m[id].sightings[i].meta.recorded_at,
                now,
            ),
    ensures
        swept(m, now) == m,
{
    assert forall|id: u32| #[trigger] m.contains_key(id) implies fresh_only(m[id].sightings, now)
        == m[id].sightings by {
        lemma_all_fresh(m[id].sightings, now);
    }
    assert forall|id: u32| #[trigger] m.contains_key(id) implies swept(m, now).contains_key(id) by {
        assert(packet_wf(m[id]));
    }
    assert(swept(m, now) =~= m);
}

} // verus!
