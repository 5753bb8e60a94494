//! The two caches of the bridge: the node directory and the pending-packet
//! table.
use vstd::prelude::*;
use std::collections::HashMap;
use vstd::std_specs::hash::spec_keys_iter;
use vstd::std_specs::iter::IteratorSpec;
use crate::lines::{Radio, RadioView};

verus! {

broadcast use vstd::std_specs::hash::group_hash_axioms;

/// How long, in seconds, an observation of a packet waits for its text.
pub const MAX_AGE_SECS: u64 = 180;

/// A node's names.
pub struct NodeInfo {
    pub shortname: String,
    pub longname: String,
}

pub struct NodeInfoView {
    pub shortname: Seq<char>,
    pub longname: Seq<char>,
}

impl View for NodeInfo {
    type V = NodeInfoView;

    open spec fn view(&self) -> NodeInfoView {
        NodeInfoView { shortname: self.shortname@, longname: self.longname@ }
    }
}

/// Resolved names of nodes, by node id.
pub struct NodeDirectory {
    nodes: HashMap<u32, NodeInfo>,
}

impl View for NodeDirectory {
    type V = Map<u32, NodeInfoView>;

    closed spec fn view(&self) -> Map<u32, NodeInfoView> {
        self.nodes@.map_values(|n: NodeInfo| n@)
    }
}

impl NodeDirectory {
    /// An empty directory.
    pub fn new() -> (r: NodeDirectory)
        ensures
            r@ == Map::<u32, NodeInfoView>::empty(),
    {
        let r = NodeDirectory { nodes: HashMap::new() };
        assert(r@ =~= Map::<u32, NodeInfoView>::empty());
        r
    }

    /// Records the names of node `id`, replacing earlier ones.
    pub fn insert(&mut self, id: u32, info: NodeInfo)
        ensures
            final(self)@ == old(self)@.insert(id, info@),
    {
        self.nodes.insert(id, info);
        assert(self@ =~= old(self)@.insert(id, info@));
    }

    /// The names of node `id`.
    pub fn get(&self, id: u32) -> (r: Option<&NodeInfo>)
        ensures
            match r {
                Some(info) => self@.contains_key(id) && self@[id] == info@,
                None => !self@.contains_key(id),
            },
    {
        self.nodes.get(&id)
    }
}

/// When a packet was observed, and with which radio parameters.
pub struct TransportMeta {
    pub radio: Radio,
    /// Seconds since the Unix epoch.
    pub recorded_at: u64,
}

pub struct MetaView {
    pub radio: RadioView,
    pub recorded_at: u64,
}

impl View for TransportMeta {
    type V = MetaView;

    open spec fn view(&self) -> MetaView {
        MetaView { radio: self.radio@, recorded_at: self.recorded_at }
    }
}

/// One observation of a packet through one identifier.
pub struct Sighting {
    pub ident: String,
    pub meta: TransportMeta,
}

pub struct SightingView {
    pub ident: Seq<char>,
    pub meta: MetaView,
}

impl View for Sighting {
    type V = SightingView;

    open spec fn view(&self) -> SightingView {
        SightingView { ident: self.ident@, meta: self.meta@ }
    }
}

/// The views of a list of observations.
pub open spec fn sightings_view(s: Seq<Sighting>) -> Seq<SightingView> {
    s.map_values(|x: Sighting| x@)
}

/// A packet whose text has not arrived yet.
pub struct PendingPacket {
    /// The last observation came through the MQTT relay.
    pub relayed: bool,
    /// The observations, at most one per identifier. They stand in a vector:
    /// identifiers are strings, and vstd specifies hash maps only for keys of
    /// integer or boolean type.
    pub sightings: Vec<Sighting>,
}

pub struct PendingView {
    pub relayed: bool,
    pub sightings: Seq<SightingView>,
}

impl View for PendingPacket {
    type V = PendingView;

    open spec fn view(&self) -> PendingView {
        PendingView { relayed: self.relayed, sightings: sightings_view(self.sightings@) }
    }
}

/// Packets whose text has not arrived yet, by packet id.
pub struct PendingTable {
    packets: HashMap<u32, PendingPacket>,
}

/// Observations made more than `MAX_AGE_SECS` before `now` are stale.
pub open spec fn is_stale(recorded_at: u64, now: u64) -> bool {
    now - recorded_at > MAX_AGE_SECS
}

/// No two observations share an identifier.
pub open spec fn idents_unique(s: Seq<SightingView>) -> bool {
    forall|i: int, j: int|
        0 <= i < j < s.len() ==> (#[trigger] s[i]).ident != (#[trigger] s[j]).ident
}

/// A pending packet has at least one observation, one per identifier.
pub open spec fn packet_wf(p: PendingView) -> bool {
    p.sightings.len() > 0 && idents_unique(p.sightings)
}

/// The position of the observation through `ident`, or -1.
pub open spec fn index_of(s: Seq<SightingView>, ident: Seq<char>) -> int
    decreases s.len(),
{
    if s.len() == 0 {
        -1
    } else if s.last().ident == ident {
        s.len() - 1
    } else {
        index_of(s.drop_last(), ident)
    }
}

pub proof fn lemma_index_of(s: Seq<SightingView>, ident: Seq<char>)
    ensures
        -1 <= index_of(s, ident) < s.len(),
        index_of(s, ident) >= 0 ==> s[index_of(s, ident)].ident == ident,
        index_of(s, ident) == -1 ==> forall|i: int| 0 <= i < s.len() ==> (#[trigger] s[i]).ident != ident,
    decreases s.len(),
{
    if s.len() > 0 && s.last().ident != ident {
        lemma_index_of(s.drop_last(), ident);
        assert forall|i: int| 0 <= i < s.len() - 1 implies #[trigger] s[i] == s.drop_last()[i] by {}
    }
}

/// The observations of `old` with the one through `ident` set to `meta`: in
/// place where there is one, else at the end.
pub open spec fn upsert(old: Seq<SightingView>, ident: Seq<char>, meta: MetaView) -> Seq<SightingView> {
    let i = index_of(old, ident);
    if i == -1 {
        old.push(SightingView { ident, meta })
    } else {
        old.update(i, SightingView { ident, meta })
    }
}

/// The observations of packet `id`, none where the table has no such packet.
pub open spec fn sightings_in(m: Map<u32, PendingView>, id: u32) -> Seq<SightingView> {
    if m.contains_key(id) {
        m[id].sightings
    } else {
        Seq::empty()
    }
}

/// The table after an observation of packet `id` through `ident`.
pub open spec fn observed(
    m: Map<u32, PendingView>,
    id: u32,
    ident: Seq<char>,
    relayed: bool,
    meta: MetaView,
) -> Map<u32, PendingView> {
    m.insert(id, PendingView { relayed, sightings: upsert(sightings_in(m, id), ident, meta) })
}

/// What taking an observation out of the table found.
pub enum Taken {
    /// No packet with that id is pending.
    NoPacket,
    /// The packet is pending, but was not observed through that identifier.
    NoSighting,
    /// The observation, and whether the packet came through the relay.
    Found { relayed: bool, meta: TransportMeta },
}

/// The table after the observation of packet `id` through `ident` is taken
/// out: a packet left with no observation leaves the table.
pub open spec fn without_sighting(m: Map<u32, PendingView>, id: u32, ident: Seq<char>) -> Map<
    u32,
    PendingView,
> {
    if !m.contains_key(id) {
        m
    } else {
        let s = m[id].sightings;
        let i = index_of(s, ident);
        let rest = if i == -1 {
            s
        } else {
            s.remove(i)
        };
        if rest.len() == 0 {
            m.remove(id)
        } else {
            m.insert(id, PendingView { relayed: m[id].relayed, sightings: rest })
        }
    }
}

/// What `take` returns for packet `id` and `ident` on the table `m`.
pub open spec fn taken_of(m: Map<u32, PendingView>, id: u32, ident: Seq<char>, t: Taken) -> bool {
    if !m.contains_key(id) {
        t is NoPacket
    } else {
        let i = index_of(m[id].sightings, ident);
        if i == -1 {
            t is NoSighting
        } else {
            t matches Taken::Found { relayed, meta } && relayed == m[id].relayed && meta@
                == m[id].sightings[i].meta
        }
    }
}

/// The observations that are not stale at `now`, in order.
pub open spec fn fresh_only(s: Seq<SightingView>, now: u64) -> Seq<SightingView>
    decreases s.len(),
{
    if s.len() == 0 {
        s
    } else {
        let r = fresh_only(s.drop_last(), now);
        if is_stale(s.last().meta.recorded_at, now) {
            r
        } else {
            r.push(s.last())
        }
    }
}

/// The table after a sweep at `now`: stale observations go, and so do the
/// packets left without any.
pub open spec fn swept(m: Map<u32, PendingView>, now: u64) -> Map<u32, PendingView> {
    Map::new(
        |id: u32| m.contains_key(id) && fresh_only(m[id].sightings, now).len() > 0,
        |id: u32| PendingView { relayed: m[id].relayed, sightings: fresh_only(m[id].sightings, now) },
    )
}

/// Every pending packet has at least one observation, one per identifier.
pub open spec fn table_wf(m: Map<u32, PendingView>) -> bool {
    forall|id: u32| #[trigger] m.contains_key(id) ==> packet_wf(m[id])
}

impl View for PendingTable {
    type V = Map<u32, PendingView>;

    closed spec fn view(&self) -> Map<u32, PendingView> {
        self.packets@.map_values(|p: PendingPacket| p@)
    }
}

impl PendingTable {
    /// Every pending packet has at least one observation, one per identifier.
    pub open spec fn wf(&self) -> bool {
        table_wf(self@)
    }

    /// An empty table.
    pub fn new() -> (r: PendingTable)
        ensures
            r@ == Map::<u32, PendingView>::empty(),
            r.wf(),
    {
        let r = PendingTable { packets: HashMap::new() };
        assert(r@ =~= Map::<u32, PendingView>::empty());
        r
    }

    /// Whether packet `id` is pending and came through the relay.
    pub fn is_relayed(&self, id: u32) -> (r: bool)
        ensures
            r == (self@.contains_key(id) && self@[id].relayed),
    {
        match self.packets.get(&id) {
            Some(p) => p.relayed,
            None => false,
        }
    }

    /// Takes packet `id` out of the table.
    fn take_packet(&mut self, id: u32) -> (r: Option<PendingPacket>)
        ensures
            final(self)@ == old(self)@.remove(id),
            match r {
                Some(p) => old(self)@.contains_key(id) && p@ == old(self)@[id],
                None => !old(self)@.contains_key(id),
            },
    {
        let r = self.packets.remove(&id);
        assert(self@ =~= old(self)@.remove(id));
        r
    }

    /// Puts packet `id` into the table.
    fn put_packet(&mut self, id: u32, p: PendingPacket)
        ensures
            final(self)@ == old(self)@.insert(id, p@),
    {
        self.packets.insert(id, p);
        assert(self@ =~= old(self)@.insert(id, p@));
    }

    /// Records that packet `id` was seen through `ident`, and whether it came
    /// through the relay.
    pub fn observe(&mut self, id: u32, ident: String, relayed: bool, meta: TransportMeta)
        requires
            old(self).wf(),
        ensures
            final(self).wf(),
            final(self)@ == observed(old(self)@, id, ident@, relayed, meta@),
    {
        let ghost m = self@;
        let mut sightings: Vec<Sighting> = match self.take_packet(id) {
            Some(p) => p.sightings,
            None => Vec::new(),
        };
        assert(sightings_view(sightings@) =~= sightings_in(m, id));
        let ghost before = sightings_view(sightings@);
        let pos = find_sighting(&sightings, &ident);
        proof {
            lemma_index_of(before, ident@);
        }
        let ghost new = SightingView { ident: ident@, meta: meta@ };
        match pos {
            Some(i) => {
                sightings.set(i, Sighting { ident, meta });
                assert(sightings_view(sightings@) =~= before.update(i as int, new));
            },
            None => {
                sightings.push(Sighting { ident, meta });
                assert(sightings_view(sightings@) =~= before.push(new));
            },
        }
        assert(sightings_view(sightings@) == upsert(before, new.ident, new.meta));
        assert(idents_unique(sightings_view(sightings@))) by {
            let sv = sightings_view(sightings@);
            assert forall|a: int, b: int| 0 <= a < b < sv.len() implies (#[trigger] sv[a]).ident
                != (#[trigger] sv[b]).ident by {
                if m.contains_key(id) {
                    assert(packet_wf(m[id]));
                }
            }
        }
        self.put_packet(id, PendingPacket { relayed, sightings });
        proof {
            assert forall|k: u32| #[trigger] self@.contains_key(k) implies packet_wf(self@[k]) by {
                if k != id {
                    assert(m.contains_key(k));
                }
            }
        }
    }

    /// Takes out the observation of packet `id` through `ident`.
    pub fn take(&mut self, id: u32, ident: &String) -> (r: Taken)
        requires
            old(self).wf(),
        ensures
            final(self).wf(),
            final(self)@ == without_sighting(old(self)@, id, ident@),
            taken_of(old(self)@, id, ident@, r),
    {
        let ghost m = self@;
        match self.take_packet(id) {
            None => {
                assert(self@ =~= m);
                Taken::NoPacket
            },
            Some(p) => {
                let relayed = p.relayed;
                let mut sightings = p.sightings;
                let ghost s = sightings_view(sightings@);
                assert(packet_wf(m[id]));
                proof {
                    lemma_index_of(s, ident@);
                }
                let found = match find_sighting(&sightings, ident) {
                    Some(i) => {
                        let x = sightings.remove(i);
                        assert(sightings_view(sightings@) =~= s.remove(i as int));
                        Some(x)
                    },
                    None => None,
                };
                assert(idents_unique(sightings_view(sightings@))) by {
                    let sv = sightings_view(sightings@);
                    assert forall|a: int, b: int| 0 <= a < b < sv.len() implies (
                    #[trigger] sv[a]).ident != (#[trigger] sv[b]).ident by {
                        if found is Some {
                            let i = index_of(s, ident@);
                            let a2 = if a < i { a } else { a + 1 };
                            let b2 = if b < i { b } else { b + 1 };
                            assert(sv[a] == s[a2]);
                            assert(sv[b] == s[b2]);
                        }
                    }
                }
                if sightings.len() > 0 {
                    self.put_packet(id, PendingPacket { relayed, sightings });
                } else {
                    assert(self@ =~= m.remove(id));
                }
                proof {
                    assert forall|k: u32| #[trigger] self@.contains_key(k) implies packet_wf(
                        self@[k],
                    ) by {
                        if k != id {
                            assert(m.contains_key(k));
                        }
                    }
                }
                match found {
                    Some(x) => Taken::Found { relayed, meta: x.meta },
                    None => Taken::NoSighting,
                }
            },
        }
    }

    /// The ids of the pending packets.
    fn ids(&self) -> (r: Vec<u32>)
        ensures
            r@.to_set() == self@.dom(),
            r@.no_duplicates(),
    {
        let mut r: Vec<u32> = Vec::new();
        for k in it: self.packets.keys()
            invariant
                it.seq() == spec_keys_iter(&self.packets).remaining(),
                r@ == it.seq().take(it.index()).unref(),
        {
            r.push(*k);
            assert(r@ =~= it.seq().take(it.index() + 1).unref());
        }
        assert(r@ =~= spec_keys_iter(&self.packets).remaining().unref());
        assert(self@.dom() =~= self.packets@.dom());
        proof {
            let ks = spec_keys_iter(&self.packets).remaining();
            assert forall|i: int, j: int| 0 <= i < j < r@.len() implies r@[i] != r@[j] by {
                assert(ks[i] != ks[j]);
            }
        }
        r
    }

    /// Drops the observations that are stale at `now`, and the packets left
    /// without any.
    pub fn sweep(&mut self, now: u64)
        requires
            old(self).wf(),
        ensures
            final(self).wf(),
            final(self)@ == swept(old(self)@, now),
    {
        let ghost m = self@;
        let ghost t = swept(m, now);
        let ids = self.ids();
        let mut i: usize = 0;
        while i < ids.len()
            invariant
                ids@.to_set() == m.dom(),
                ids@.no_duplicates(),
                i <= ids@.len(),
                t == swept(m, now),
                forall|k: u32|
                    #![trigger self@.contains_key(k)]
                    ids@.take(i as int).contains(k) ==> (self@.contains_key(k) == t.contains_key(k)
                        && (t.contains_key(k) ==> self@[k] == t[k])),
                forall|k: u32|
                    #![trigger self@.contains_key(k)]
                    !ids@.take(i as int).contains(k) ==> (self@.contains_key(k) == m.contains_key(k)
                        && (m.contains_key(k) ==> self@[k] == m[k])),
            decreases ids.len() - i,
        {
            let id = ids[i];
            assert(ids@.contains(id));
            assert(!ids@.take(i as int).contains(id)) by {
                if ids@.take(i as int).contains(id) {
                    let j = choose|j: int| 0 <= j < i && #[trigger] ids@.take(i as int)[j] == id;
                    assert(ids@[j] == ids@[i as int]);
                }
            }
            let ghost before = self@;
            let taken = self.take_packet(id);
            match taken {
                Some(p) => {
                    let relayed = p.relayed;
                    let kept = keep_fresh(p.sightings, now);
                    if kept.len() > 0 {
                        self.put_packet(id, PendingPacket { relayed, sightings: kept });
                    }
                },
                None => {},
            }
            proof {
                assert(ids@.take(i + 1) =~= ids@.take(i as int).push(id));
                assert forall|k: u32| #[trigger] ids@.take(i + 1).contains(k) && k != id implies ids@.take(
                    i as int,
                ).contains(k) by {
                    let j = choose|j: int| 0 <= j < i + 1 && #[trigger] ids@.take(i + 1)[j] == k;
                    assert(ids@.take(i as int)[j] == k);
                }
                assert forall|k: u32| #[trigger] ids@.take(i as int).contains(k) implies ids@.take(
                    i + 1,
                ).contains(k) by {
                    let j = choose|j: int| 0 <= j < i && #[trigger] ids@.take(i as int)[j] == k;
                    assert(ids@.take(i + 1)[j] == k);
                }
                assert(ids@.take(i + 1)[i as int] == id);
            }
            i = i + 1;
        }
        proof {
            assert(ids@.take(i as int) =~= ids@);
            assert forall|k: u32| #[trigger] m.contains_key(k) implies ids@.contains(k) by {
                assert(ids@.to_set().contains(k));
            }
            assert forall|k: u32| #[trigger] ids@.contains(k) implies m.contains_key(k) by {
                assert(ids@.to_set().contains(k));
            }
        }
        assert(self@ =~= t);
        proof {
            assert forall|k: u32| #[trigger] self@.contains_key(k) implies packet_wf(self@[k]) by {
                assert(packet_wf(m[k]));
                lemma_fresh_only(m[k].sightings, now);
            }
        }
    }
}

/// The position of the observation through `ident`.
fn find_sighting(s: &Vec<Sighting>, ident: &String) -> (r: Option<usize>)
    ensures
        match r {
            Some(i) => i as int == index_of(sightings_view(s@), ident@),
            None => index_of(sightings_view(s@), ident@) == -1,
        },
{
    let ghost sv = sightings_view(s@);
    let mut i: usize = s.len();
    assert(sv.take(i as int) =~= sv);
    while i > 0
        invariant
            i <= s@.len(),
            sv == sightings_view(s@),
            index_of(sv, ident@) == index_of(sv.take(i as int), ident@),
        decreases i,
    {
        assert(sv.take(i as int).drop_last() =~= sv.take(i - 1));
        assert(sv.take(i as int).last() == s@[i - 1]@);
        if s[i - 1].ident == *ident {
            return Some(i - 1);
        }
        i = i - 1;
    }
    None
}

/// Every observation that a sweep keeps was there before, and they still have
/// distinct identifiers.
pub proof fn lemma_fresh_only(s: Seq<SightingView>, now: u64)
    ensures
        forall|x: SightingView| #[trigger] fresh_only(s, now).contains(x) ==> s.contains(x),
        idents_unique(s) ==> idents_unique(fresh_only(s, now)),
        fresh_only(s, now).len() <= s.len(),
    decreases s.len(),
{
    if s.len() > 0 {
        let init = s.drop_last();
        lemma_fresh_only(init, now);
        let r = fresh_only(init, now);
        assert forall|x: SightingView| #[trigger] init.contains(x) implies s.contains(x) by {
            let j = choose|j: int| 0 <= j < init.len() && #[trigger] init[j] == x;
            assert(s[j] == x);
        }
        if !is_stale(s.last().meta.recorded_at, now) {
            let f = r.push(s.last());
            assert forall|x: SightingView| #[trigger] f.contains(x) implies s.contains(x) by {
                let j = choose|j: int| 0 <= j < f.len() && #[trigger] f[j] == x;
                if j == r.len() {
                    assert(s[s.len() - 1] == x);
                } else {
                    assert(r[j] == x);
                    assert(r.contains(x));
                }
            }
            if idents_unique(s) {
                assert(idents_unique(init)) by {
                    assert forall|a: int, b: int| 0 <= a < b < init.len() implies (
                    #[trigger] init[a]).ident != (#[trigger] init[b]).ident by {
                        assert(init[a] == s[a]);
                        assert(init[b] == s[b]);
                    }
                }
                assert forall|a: int, b: int| 0 <= a < b < f.len() implies (#[trigger] f[a]).ident
                    != (#[trigger] f[b]).ident by {
                    if b == r.len() {
                        assert(r.contains(f[a]));
                        assert(init.contains(f[a]));
                        let j = choose|j: int| 0 <= j < init.len() && #[trigger] init[j] == f[a];
                        assert(s[j] == f[a]);
                        assert(s[s.len() - 1] == f[b]);
                    } else {
                        assert(f[a] == r[a]);
                        assert(f[b] == r[b]);
                    }
                }
            }
        } else {
            if idents_unique(s) {
                assert(idents_unique(init)) by {
                    assert forall|a: int, b: int| 0 <= a < b < init.len() implies (
                    #[trigger] init[a]).ident != (#[trigger] init[b]).ident by {
                        assert(init[a] == s[a]);
                        assert(init[b] == s[b]);
                    }
                }
            }
        }
    }
}

/// The observations that are not stale at `now`, in order.
fn keep_fresh(v: Vec<Sighting>, now: u64) -> (r: Vec<Sighting>)
    ensures
        sightings_view(r@) == fresh_only(sightings_view(v@), now),
{
    let ghost s = v@;
    let ghost sv = sightings_view(v@);
    let total: usize = v.len();
    let mut v = v;
    let mut out: Vec<Sighting> = Vec::new();
    let mut i: usize = 0;
    assert(sv.take(0) =~= Seq::<SightingView>::empty());
    assert(sightings_view(out@) =~= Seq::<SightingView>::empty());
    while v.len() > 0
        invariant
            i + v@.len() == s.len(),
            s.len() == total,
            v@ == s.skip(i as int),
            sv == sightings_view(s),
            sightings_view(out@) == fresh_only(sv.take(i as int), now),
        decreases v.len(),
    {
        let x = v.remove(0);
        assert(sv.take(i + 1).drop_last() =~= sv.take(i as int));
        assert(x == s[i as int]);
        assert(sv.take(i + 1).last() == x@);
        let ghost prev = out@;
        if !(now > x.meta.recorded_at && now - x.meta.recorded_at > MAX_AGE_SECS) {
            out.push(x);
            assert(sightings_view(out@) =~= sightings_view(prev).push(x@));
        }
        i = i + 1;
        assert(v@ =~= s.skip(i as int));
    }
    assert(sv.take(i as int) =~= sv);
    out
}

} // verus!
