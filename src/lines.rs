//! The three kinds of content line that the bridge understands.
use vstd::prelude::*;
use crate::fields::{field, field_of, field_words, normalize, split_words, views};
use crate::text::{
    all_radix_digits, chars_of, contains_in, digit_run_end, equals_text, find_char, find_from,
    has_at, hex_at, hex_run, lemma_find_from, lemma_run_end, matches_at, parse_signed,
    parse_unsigned, run_end, signed_of, slice_of, string_of, trim, trimmed, unsigned_of,
};

verus! {

/// A node's names, as announced by a node-info update line.
pub struct NodeInfoLine {
    pub id: u32,
    pub longname: String,
    pub shortname: String,
}

/// The radio parameters of one observation of a packet.
pub struct Radio {
    /// Destination; 0 where the line names none.
    pub to: u32,
    /// Channel; 0 where the line names none.
    pub ch: u32,
    /// Signal-to-noise ratio, as the line writes it.
    pub snr: Option<String>,
    pub rssi: Option<i32>,
    pub hop_limit: Option<u32>,
    pub hop_start: Option<u32>,
    /// The node the packet came from.
    pub origin: Option<u32>,
}

pub struct RadioView {
    pub to: u32,
    pub ch: u32,
    pub snr: Option<Seq<char>>,
    pub rssi: Option<i32>,
    pub hop_limit: Option<u32>,
    pub hop_start: Option<u32>,
    pub origin: Option<u32>,
}

pub open spec fn opt_view(s: Option<String>) -> Option<Seq<char>> {
    match s {
        Some(t) => Some(t@),
        None => None,
    }
}

impl View for Radio {
    type V = RadioView;

    open spec fn view(&self) -> RadioView {
        RadioView {
            to: self.to,
            ch: self.ch,
            snr: opt_view(self.snr),
            rssi: self.rssi,
            hop_limit: self.hop_limit,
            hop_start: self.hop_start,
            origin: self.origin,
        }
    }
}

/// What a transport-metadata line says.
pub enum MetadataLine {
    /// A packet of another port than text messages.
    OtherPort,
    /// A text packet `id`, seen with `radio`; `relayed` when it came through
    /// the MQTT relay.
    Text { id: u32, relayed: bool, radio: Radio },
}

pub enum MetadataView {
    OtherPort,
    Text { id: u32, relayed: bool, radio: RadioView },
}

impl View for MetadataLine {
    type V = MetadataView;

    open spec fn view(&self) -> MetadataView {
        match self {
            MetadataLine::OtherPort => MetadataView::OtherPort,
            MetadataLine::Text { id, relayed, radio } => MetadataView::Text {
                id: *id,
                relayed: *relayed,
                radio: radio@,
            },
        }
    }
}

/// A text message: its sender, its packet id and its body.
pub struct TextLine {
    pub from: u32,
    pub id: u32,
    pub text: String,
}

/// The end of the run of characters other than `,` and `/` that starts at `i`.
pub open spec fn short_end(s: Seq<char>, i: int) -> int
    decreases s.len() - i,
{
    if i < 0 || i >= s.len() || s[i] == ',' || s[i] == '/' {
        i
    } else {
        short_end(s, i + 1)
    }
}

proof fn lemma_short_end(s: Seq<char>, i: int)
    requires
        0 <= i <= s.len(),
    ensures
        i <= short_end(s, i) <= s.len(),
    decreases s.len() - i,
{
    if i < s.len() && s[i] != ',' && s[i] != '/' {
        lemma_short_end(s, i + 1);
    }
}

/// Where the names of an update that begins at `p` start: just after
/// `Update changed=<digits> user `; -1 when that prefix does not stand at `p`.
pub open spec fn names_start(s: Seq<char>, p: int) -> int {
    let d0 = p + "Update changed="@.len();
    let d1 = run_end(s, d0, 10);
    if has_at(s, p, "Update changed="@) && d1 > d0 && has_at(s, d1, " user "@) {
        d1 + " user "@.len()
    } else {
        -1
    }
}

/// The `/` at `q` can end a long name that starts at `u`: the long name is
/// not empty and holds no line feed, and the `/` is followed by a non-empty
/// short name without `,` or `/`, then `, id=0x<hex>, channel=<digits>`.
pub open spec fn split_fits(s: Seq<char>, u: int, q: int) -> bool {
    let e = short_end(s, q + 1);
    let h0 = e + ", id=0x"@.len();
    let h1 = run_end(s, h0, 16);
    let c0 = h1 + ", channel="@.len();
    &&& u < q < s.len()
    &&& s[q] == '/'
    &&& !s.subrange(u, q).contains('\n')
    &&& e > q + 1
    &&& has_at(s, e, ", id=0x"@)
    &&& h1 > h0
    &&& has_at(s, h1, ", channel="@)
    &&& run_end(s, c0, 10) > c0
}

/// The last `/` before `hi` that can end a long name starting at `u`, or -1.
pub open spec fn last_split(s: Seq<char>, u: int, hi: int) -> int
    decreases hi - u,
{
    if hi <= u {
        -1
    } else if split_fits(s, u, hi - 1) {
        hi - 1
    } else {
        last_split(s, u, hi - 1)
    }
}

proof fn lemma_last_split(s: Seq<char>, u: int, hi: int)
    ensures
        last_split(s, u, hi) == -1 || (u <= last_split(s, u, hi) < hi && split_fits(
            s,
            u,
            last_split(s, u, hi),
        )),
    decreases hi - u,
{
    if hi > u && !split_fits(s, u, hi - 1) {
        lemma_last_split(s, u, hi - 1);
    }
}

/// A whole node-info update begins at `p`.
pub open spec fn update_at(s: Seq<char>, p: int) -> bool {
    names_start(s, p) != -1 && last_split(s, names_start(s, p), s.len() as int) != -1
}

/// The first position at or after `p` where a node-info update begins, or -1.
pub open spec fn first_update(s: Seq<char>, p: int) -> int
    decreases s.len() + 1 - p,
{
    if p < 0 || p > s.len() {
        -1
    } else if update_at(s, p) {
        p
    } else {
        first_update(s, p + 1)
    }
}

/// A node-info update:
/// `Update changed=<digits> user <longname>/<shortname>, id=0x<hex>, channel=<digits>`,
/// read at the first position where that shape stands. The long name reaches
/// as far as it can: it ends at the last `/` after which the rest of the
/// shape follows. The id of that reading must fit in `u32`.
pub open spec fn nodeinfo_of(s: Seq<char>) -> Option<(u32, Seq<char>, Seq<char>)> {
    let p = first_update(s, 0);
    if p == -1 {
        None
    } else {
        let u = names_start(s, p);
        let q = last_split(s, u, s.len() as int);
        let e = short_end(s, q + 1);
        match hex_at(s, e + ", id=0x"@.len()) {
            Some((id, _)) => Some((id, s.subrange(u, q), s.subrange(q + 1, e))),
            None => None,
        }
    }
}

/// The end of the run of characters other than `,` and `/` that starts at `i`.
fn short_run_end(v: &[char], i: usize) -> (r: usize)
    requires
        i <= v@.len(),
    ensures
        r as int == short_end(v@, i as int),
{
    let mut j: usize = i;
    while j < v.len() && v[j] != ',' && v[j] != '/'
        invariant
            i <= j <= v@.len(),
            short_end(v@, i as int) == short_end(v@, j as int),
        decreases v.len() - j,
    {
        j = j + 1;
    }
    j
}

/// Where the names of an update that begins at `p` start.
fn names_start_at(v: &[char], p: usize) -> (r: Option<usize>)
    requires
        p <= v@.len(),
    ensures
        match r {
            Some(u) => u as int == names_start(v@, p as int),
            None => names_start(v@, p as int) == -1,
        },
{
    let total = v.len();
    let head = "Update changed=";
    let user = " user ";
    if !matches_at(v, p, head) {
        return None;
    }
    let d0 = p + head.unicode_len();
    let d1 = digit_run_end(v, d0, 10);
    proof {
        lemma_run_end(v@, d0 as int, 10);
    }
    if d1 == d0 || !matches_at(v, d1, user) {
        return None;
    }
    Some(d1 + user.unicode_len())
}

/// Whether the `/` at `q` can end a long name that starts at `u`.
fn split_fits_at(v: &[char], u: usize, q: usize) -> (r: bool)
    requires
        u <= v@.len(),
    ensures
        r == split_fits(v@, u as int, q as int),
{
    let total = v.len();
    if !(u < q && q < total) || v[q] != '/' || contains_in(v, '\n', u, q) {
        return false;
    }
    let e = short_run_end(v, q + 1);
    proof {
        lemma_short_end(v@, q + 1);
    }
    let id_lit = ", id=0x";
    let channel_lit = ", channel=";
    if e == q + 1 || !matches_at(v, e, id_lit) {
        return false;
    }
    let h0 = e + id_lit.unicode_len();
    let h1 = digit_run_end(v, h0, 16);
    proof {
        lemma_run_end(v@, h0 as int, 16);
    }
    if h1 == h0 || !matches_at(v, h1, channel_lit) {
        return false;
    }
    let c0 = h1 + channel_lit.unicode_len();
    proof {
        lemma_run_end(v@, c0 as int, 10);
    }
    digit_run_end(v, c0, 10) != c0
}

/// The last `/` that can end a long name starting at `u`.
fn last_split_at(v: &[char], u: usize) -> (r: Option<usize>)
    requires
        u <= v@.len(),
    ensures
        match r {
            Some(q) => q as int == last_split(v@, u as int, v@.len() as int),
            None => last_split(v@, u as int, v@.len() as int) == -1,
        },
{
    let mut hi: usize = v.len();
    while hi > u
        invariant
            u <= hi <= v@.len(),
            last_split(v@, u as int, v@.len() as int) == last_split(v@, u as int, hi as int),
        decreases hi,
    {
        if split_fits_at(v, u, hi - 1) {
            return Some(hi - 1);
        }
        hi = hi - 1;
    }
    None
}

/// Reads a node-info update line.
pub fn parse_nodeinfo(content: &str) -> (r: Option<NodeInfoLine>)
    ensures
        match r {
            Some(l) => nodeinfo_of(content@) == Some((l.id, l.longname@, l.shortname@)),
            None => nodeinfo_of(content@) is None,
        },
{
    let v = chars_of(content);
    let ghost s = v@;
    let total = v.len();
    let mut p: usize = 0;
    loop
        invariant
            p <= v@.len(),
            v@ == s,
            s == content@,
            total == s.len(),
            first_update(s, 0) == first_update(s, p as int),
        decreases v@.len() - p,
    {
        if let Some(u) = names_start_at(&v, p) {
            if let Some(q) = last_split_at(&v, u) {
                proof {
                    lemma_last_split(s, u as int, s.len() as int);
                }
                assert(split_fits(s, u as int, q as int));
                assert(update_at(s, p as int));
                assert(first_update(s, p as int) == p as int);
                let e = short_run_end(&v, q + 1);
                let id_lit = ", id=0x";
                let h0 = e + id_lit.unicode_len();
                return match hex_run(&v, h0) {
                    Some((id, _)) => Some(
                        NodeInfoLine {
                            id,
                            longname: string_of(&slice_of(&v, u, q)),
                            shortname: string_of(&slice_of(&v, q + 1, e)),
                        },
                    ),
                    None => None,
                };
            }
        }
        if p == total {
            assert(first_update(s, p + 1) == -1);
            return None;
        }
        p = p + 1;
    }
}

/// The field list of a `handleReceived(<type>) (<fields>)` line: the type is
/// not empty and runs to the first `)`, the list runs to the `)` that ends
/// the line and holds no line feed.
pub open spec fn handle_received_body(s: Seq<char>) -> Option<Seq<char>> {
    let n = "handleReceived("@.len();
    let t = find_from(s, ')', n as int);
    if !has_at(s, 0, "handleReceived("@) || t == -1 || t == n || !has_at(s, t, ") ("@) || s.len()
        < t + ") ("@.len() + 1 || s.last() != ')' {
        None
    } else {
        let body = s.subrange(t + ") ("@.len(), s.len() - 1);
        if body.contains('\n') {
            None
        } else {
            Some(body)
        }
    }
}

/// A hexadecimal field: its value after the first two characters (the `0x`).
pub open spec fn prefixed_hex(v: Option<Seq<char>>) -> Option<u32> {
    match v {
        Some(t) => if t.len() >= 2 {
            unsigned_of(t.skip(2), 16)
        } else {
            None
        },
        None => None,
    }
}

pub open spec fn decimal_u32(v: Option<Seq<char>>) -> Option<u32> {
    match v {
        Some(t) => unsigned_of(t, 10),
        None => None,
    }
}

pub open spec fn decimal_i32(v: Option<Seq<char>>) -> Option<i32> {
    match v {
        Some(t) => signed_of(t),
        None => None,
    }
}

pub open spec fn or_zero(v: Option<u32>) -> u32 {
    match v {
        Some(x) => x,
        None => 0,
    }
}

/// The radio parameters that the field list gives.
pub open spec fn radio_of(ws: Seq<Seq<char>>) -> RadioView {
    RadioView {
        to: or_zero(prefixed_hex(field_of(ws, "to"@))),
        ch: or_zero(prefixed_hex(field_of(ws, "Ch"@))),
        snr: field_of(ws, "rxSNR"@),
        rssi: decimal_i32(field_of(ws, "rxRSSI"@)),
        hop_limit: decimal_u32(field_of(ws, "HopLim"@)),
        hop_start: decimal_u32(field_of(ws, "hopStart"@)),
        origin: prefixed_hex(field_of(ws, "fr"@)),
    }
}

/// A transport-metadata line. One whose `Portnum` is not `1` is of another
/// port; a text packet needs an `id` field in hexadecimal, and is relayed when
/// its `via` is `MQTT`.
pub open spec fn metadata_of(s: Seq<char>) -> Option<MetadataView> {
    match handle_received_body(s) {
        None => None,
        Some(body) => {
            let ws = field_words(body);
            if field_of(ws, "Portnum"@) != Some("1"@) {
                Some(MetadataView::OtherPort)
            } else {
                match prefixed_hex(field_of(ws, "id"@)) {
                    None => None,
                    Some(id) => Some(
                        MetadataView::Text {
                            id,
                            relayed: field_of(ws, "via"@) == Some("MQTT"@),
                            radio: radio_of(ws),
                        },
                    ),
                }
            }
        },
    }
}

/// The hexadecimal value of field `key`.
fn hex_field(ws: &Vec<Vec<char>>, key: &str) -> (r: Option<u32>)
    ensures
        r == prefixed_hex(field_of(views(ws@), key@)),
{
    match field(ws, key) {
        Some(v) => {
            if v.len() >= 2 {
                let d = slice_of(&v, 2, v.len());
                assert(d@ =~= v@.skip(2));
                parse_unsigned(&d, 16)
            } else {
                None
            }
        },
        None => None,
    }
}

/// The decimal `u32` value of field `key`.
fn u32_field(ws: &Vec<Vec<char>>, key: &str) -> (r: Option<u32>)
    ensures
        r == decimal_u32(field_of(views(ws@), key@)),
{
    match field(ws, key) {
        Some(v) => parse_unsigned(&v, 10),
        None => None,
    }
}

/// The decimal `i32` value of field `key`.
fn i32_field(ws: &Vec<Vec<char>>, key: &str) -> (r: Option<i32>)
    ensures
        r == decimal_i32(field_of(views(ws@), key@)),
{
    match field(ws, key) {
        Some(v) => parse_signed(&v),
        None => None,
    }
}

/// Whether field `key` is exactly `value`.
fn field_is(ws: &Vec<Vec<char>>, key: &str, value: &str) -> (r: bool)
    ensures
        r == (field_of(views(ws@), key@) == Some(value@)),
{
    match field(ws, key) {
        Some(v) => equals_text(&v, value),
        None => false,
    }
}

/// Reads a transport-metadata line.
pub fn parse_handle_received(content: &str) -> (r: Option<MetadataLine>)
    ensures
        match r {
            Some(m) => metadata_of(content@) == Some(m@),
            None => metadata_of(content@) is None,
        },
{
    let v = chars_of(content);
    let ghost s = v@;
    let head = "handleReceived(";
    let close = ") (";
    if !matches_at(&v, 0, head) {
        return None;
    }
    let n = head.unicode_len();
    let t = match find_char(&v, ')', n) {
        Some(t) => t,
        None => {
            return None;
        },
    };
    proof {
        lemma_find_from(s, ')', n as int);
    }
    if t == n || !matches_at(&v, t, close) {
        return None;
    }
    let b0 = t + close.unicode_len();
    if v.len() <= b0 || v[v.len() - 1] != ')' {
        return None;
    }
    if contains_in(&v, '\n', b0, v.len() - 1) {
        return None;
    }
    let body = slice_of(&v, b0, v.len() - 1);
    assert(handle_received_body(s) == Some(body@));
    let ws = split_words(&normalize(&body));
    if !field_is(&ws, "Portnum", "1") {
        return Some(MetadataLine::OtherPort);
    }
    let id = match hex_field(&ws, "id") {
        Some(id) => id,
        None => {
            return None;
        },
    };
    let to = match hex_field(&ws, "to") {
        Some(x) => x,
        None => 0,
    };
    let ch = match hex_field(&ws, "Ch") {
        Some(x) => x,
        None => 0,
    };
    let snr = match field(&ws, "rxSNR") {
        Some(x) => Some(string_of(&x)),
        None => None,
    };
    let radio = Radio {
        to,
        ch,
        snr,
        rssi: i32_field(&ws, "rxRSSI"),
        hop_limit: u32_field(&ws, "HopLim"),
        hop_start: u32_field(&ws, "hopStart"),
        origin: hex_field(&ws, "fr"),
    };
    let relayed = field_is(&ws, "via", "MQTT");
    Some(MetadataLine::Text { id, relayed, radio })
}

/// A text message begins at `p`:
/// `Received text msg from=0x<hex>, id=0x<hex>, msg=` followed by a character
/// other than a line feed.
pub open spec fn text_at(s: Seq<char>, p: int) -> bool {
    let f0 = p + "Received text msg from=0x"@.len();
    let f1 = run_end(s, f0, 16);
    let i0 = f1 + ", id=0x"@.len();
    let i1 = run_end(s, i0, 16);
    let m0 = i1 + ", msg="@.len();
    &&& has_at(s, p, "Received text msg from=0x"@)
    &&& f1 > f0
    &&& has_at(s, f1, ", id=0x"@)
    &&& i1 > i0
    &&& has_at(s, i1, ", msg="@)
    &&& m0 < s.len()
    &&& s[m0] != '\n'
}

/// The first position at or after `p` where a text message begins, or -1.
pub open spec fn first_text(s: Seq<char>, p: int) -> int
    decreases s.len() + 1 - p,
{
    if p < 0 || p > s.len() {
        -1
    } else if text_at(s, p) {
        p
    } else {
        first_text(s, p + 1)
    }
}

/// A text message, read at the first position where its shape stands:
/// `Received text msg from=0x<hex>, id=0x<hex>, msg=<text>`, where the text
/// runs to the first line feed or the end. Both numbers must fit in `u32`.
pub open spec fn text_of(s: Seq<char>) -> Option<(u32, u32, Seq<char>)> {
    let p = first_text(s, 0);
    let f0 = p + "Received text msg from=0x"@.len();
    let i0 = run_end(s, f0, 16) + ", id=0x"@.len();
    let m0 = run_end(s, i0, 16) + ", msg="@.len();
    let nl = find_from(s, '\n', m0);
    let m1 = if nl == -1 {
        s.len() as int
    } else {
        nl
    };
    if p == -1 {
        None
    } else {
        match (hex_at(s, f0), hex_at(s, i0)) {
            (Some((from, _)), Some((id, _))) => Some((from, id, s.subrange(m0, m1))),
            _ => None,
        }
    }
}

/// Whether a text message begins at `p`.
fn text_at_pos(v: &[char], p: usize) -> (r: bool)
    requires
        p <= v@.len(),
    ensures
        r == text_at(v@, p as int),
{
    let total = v.len();
    let head = "Received text msg from=0x";
    let id_lit = ", id=0x";
    let msg_lit = ", msg=";
    if !matches_at(v, p, head) {
        return false;
    }
    let f0 = p + head.unicode_len();
    let f1 = digit_run_end(v, f0, 16);
    proof {
        lemma_run_end(v@, f0 as int, 16);
    }
    if f1 == f0 || !matches_at(v, f1, id_lit) {
        return false;
    }
    let i0 = f1 + id_lit.unicode_len();
    let i1 = digit_run_end(v, i0, 16);
    proof {
        lemma_run_end(v@, i0 as int, 16);
    }
    if i1 == i0 || !matches_at(v, i1, msg_lit) {
        return false;
    }
    let m0 = i1 + msg_lit.unicode_len();
    m0 < total && v[m0] != '\n'
}

/// Reads a text-message line.
pub fn parse_text_message(content: &str) -> (r: Option<TextLine>)
    ensures
        match r {
            Some(l) => text_of(content@) == Some((l.from, l.id, l.text@)),
            None => text_of(content@) is None,
        },
{
    let v = chars_of(content);
    let ghost s = v@;
    let total = v.len();
    let mut p: usize = 0;
    loop
        invariant
            p <= v@.len(),
            v@ == s,
            s == content@,
            total == s.len(),
            first_text(s, 0) == first_text(s, p as int),
        decreases v@.len() - p,
    {
        if text_at_pos(&v, p) {
            assert(first_text(s, p as int) == p as int);
            let head = "Received text msg from=0x";
            let id_lit = ", id=0x";
            let msg_lit = ", msg=";
            let f0 = p + head.unicode_len();
            let f1 = digit_run_end(&v, f0, 16);
            let i0 = f1 + id_lit.unicode_len();
            let i1 = digit_run_end(&v, i0, 16);
            let m0 = i1 + msg_lit.unicode_len();
            let m1 = match find_char(&v, '\n', m0) {
                Some(nl) => nl,
                None => total,
            };
            proof {
                lemma_find_from(s, '\n', m0 as int);
            }
            return match (hex_run(&v, f0), hex_run(&v, i0)) {
                (Some((from, _)), Some((id, _))) => Some(
                    TextLine { from, id, text: string_of(&slice_of(&v, m0, m1)) },
                ),
                _ => None,
            };
        }
        if p == total {
            assert(first_text(s, p + 1) == -1);
            return None;
        }
        p = p + 1;
    }
}

/// A range-test heartbeat: once trimmed, `seq ` followed by one digit or more.
pub open spec fn is_range_test(text: Seq<char>) -> bool {
    let t = trimmed(text);
    t.len() > "seq "@.len() && has_at(t, 0, "seq "@) && all_radix_digits(
        t.skip("seq "@.len() as int),
        10,
    )
}

/// Whether a message body is a range-test heartbeat.
pub fn range_test(text: &str) -> (r: bool)
    ensures
        r == is_range_test(text@),
{
    let v = chars_of(text);
    let t = trim(&v);
    let lit = "seq ";
    let n = lit.unicode_len();
    if t.len() <= n || !matches_at(&t, 0, lit) {
        return false;
    }
    let e = digit_run_end(&t, n, 10);
    proof {
        lemma_run_end(t@, n as int, 10);
    }
    if e == t.len() {
        assert(all_radix_digits(t@.skip(n as int), 10)) by {
            assert forall|k: int| 0 <= k < t@.skip(n as int).len() implies crate::text::is_radix_digit(
                #[trigger] t@.skip(n as int)[k],
                10,
            ) by {
                assert(t@.skip(n as int)[k] == t@[n + k]);
            }
        }
        true
    } else {
        assert(t@.skip(n as int)[e - n] == t@[e as int]);
        false
    }
}

} // verus!
