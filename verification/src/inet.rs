//! Network family: per-interface receive/transmit activity with an interface
//! kind glyph, plus address and connection-count context in the tooltip.

use vstd::prelude::*;
use crate::gradient::Ratio;
use crate::gradient::get_color;
use crate::magnitude::humanize;
use crate::magnitude::spec_digits;
use crate::magnitude::spec_humanize;
use crate::magnitude::u64_to_string;
use crate::normalize::RATIO_SCALE;
use crate::normalize::normalize;
use crate::normalize::spec_normalize;
use crate::reconcile::contains_view;
use crate::reconcile::is_prefix;
use crate::reconcile::lex_lt;
use crate::reconcile::sort_keys;
use crate::reconcile::views_of;
use crate::render::join_parts;
use crate::render::ratio_color;
use crate::render::span;
use crate::render::spec_join;
use crate::render::spec_span;
use crate::snapshot::Snapshot;
use crate::snapshot::Stat;
use crate::snapshot::diff;
use crate::snapshot::lemma_keys_match_dom;
use crate::snapshot::spec_delta;

verus! {

/// Reference byte-per-interval scale for received traffic.
pub const INET_RX_SCALE: u64 = 37500000;

/// Reference byte-per-interval scale for transmitted traffic.
pub const INET_TX_SCALE: u64 = 12500000;

/// The ratio received traffic normalizes to.
pub open spec fn rx_ratio(value: u64) -> Ratio {
    Ratio { num: spec_normalize(value as int, INET_RX_SCALE as int) as u64, den: RATIO_SCALE }
}

/// The ratio transmitted traffic normalizes to.
pub open spec fn tx_ratio(value: u64) -> Ratio {
    Ratio { num: spec_normalize(value as int, INET_TX_SCALE as int) as u64, den: RATIO_SCALE }
}

/// The kind glyph an interface name renders as, by its name prefix.
pub open spec fn spec_symbol(k: Seq<char>) -> char {
    if "wlp"@.is_prefix_of(k) || "wlan"@.is_prefix_of(k) {
        '\u{f1eb}'
    } else if "eth"@.is_prefix_of(k) || "eno"@.is_prefix_of(k) || "enp"@.is_prefix_of(k) {
        '\u{f0201}'
    } else if "tun"@.is_prefix_of(k) {
        '\u{f023}'
    } else if "wg"@.is_prefix_of(k) {
        '\u{f510}'
    } else if "wwan"@.is_prefix_of(k) {
        '\u{f08bf}'
    } else if "br-"@.is_prefix_of(k) || k == "docker0"@ {
        '\u{f0618}'
    } else if "veth"@.is_prefix_of(k) {
        '\u{e734}'
    } else {
        ' '
    }
}

fn str_eq(a: &str, b: &str) -> (r: bool)
    ensures
        r == (a@ == b@),
{
    let r = is_prefix(a, b) && is_prefix(b, a);
    proof {
        if r {
            assert(a@.subrange(0, a@.len() as int) =~= a@);
            assert(a@ =~= b@);
        } else {
            if a@ == b@ {
                assert(a@.subrange(0, b@.len() as int) =~= b@);
            }
        }
    }
    r
}

fn symbol_str(devname: &String) -> (r: &'static str)
    ensures
        r@ =~= seq![spec_symbol(devname@)],
{
    proof {
        reveal_strlit("\u{f1eb}");
        reveal_strlit("\u{f0201}");
        reveal_strlit("\u{f023}");
        reveal_strlit("\u{f510}");
        reveal_strlit("\u{f08bf}");
        reveal_strlit("\u{f0618}");
        reveal_strlit("\u{e734}");
        reveal_strlit(" ");
    }
    let s = devname.as_str();
    if is_prefix("wlp", s) || is_prefix("wlan", s) {
        "\u{f1eb}"
    } else if is_prefix("eth", s) || is_prefix("eno", s) || is_prefix("enp", s) {
        "\u{f0201}"
    } else if is_prefix("tun", s) {
        "\u{f023}"
    } else if is_prefix("wg", s) {
        "\u{f510}"
    } else if is_prefix("wwan", s) {
        "\u{f08bf}"
    } else if is_prefix("br-", s) || str_eq(s, "docker0") {
        "\u{f0618}"
    } else if is_prefix("veth", s) {
        "\u{e734}"
    } else {
        " "
    }
}

/// The kind glyph for an interface name.
pub fn get_symbol(devname: &String) -> (c: char)
    ensures
        c == spec_symbol(devname@),
{
    let s = symbol_str(devname);
    s.get_char(0)
}

/// An address is a unique-local IPv6 address exactly when its first 16-bit
/// segment starts with the seven bits `1111110`.
pub fn is_ula(first_segment: u16) -> (r: bool)
    ensures
        r == (first_segment & 0xfe00 == 0xfc00),
{
    (first_segment & 0xfe00) == 0xfc00
}

/// Open connection counts per protocol and address family.
#[derive(Clone, Copy, PartialEq, Eq, Structural, Debug)]
pub struct Connections {
    pub tcp4: u32,
    pub tcp6: u32,
    pub udp4: u32,
    pub udp6: u32,
}

/// Newlines in a character sequence.
pub open spec fn spec_newlines(s: Seq<char>) -> int
    decreases s.len(),
{
    if s.len() == 0 {
        0
    } else {
        spec_newlines(s.drop_last()) + if s.last() == '\n' {
            1int
        } else {
            0int
        }
    }
}

/// Lines in a text: newline count, plus one for a final unterminated line.
pub open spec fn spec_line_count(s: Seq<char>) -> int {
    spec_newlines(s) + if s.len() > 0 && s.last() != '\n' {
        1int
    } else {
        0int
    }
}

/// Connections listed in one table text: every line but the header.
pub open spec fn spec_connection_count(s: Seq<char>) -> int {
    if spec_line_count(s) == 0 {
        0
    } else {
        spec_line_count(s) - 1
    }
}

#[verifier::loop_isolation(false)]
fn count_newlines(contents: &str) -> (r: usize)
    ensures
        r == spec_newlines(contents@),
        r <= contents@.len(),
{
    let len = contents.unicode_len();
    let mut cnt: usize = 0;
    let mut i: usize = 0;
    while i < len
        invariant
            i <= len,
            len == contents@.len(),
            cnt == spec_newlines(contents@.take(i as int)),
            cnt <= i,
        decreases len - i,
    {
        let c = contents.get_char(i);
        proof {
            assert(contents@.take(i as int + 1).drop_last() =~= contents@.take(i as int));
            assert(contents@.take(i as int + 1).last() == contents@[i as int]);
        }
        if c == '\n' {
            cnt = cnt + 1;
        }
        i = i + 1;
    }
    proof {
        assert(contents@.take(len as int) =~= contents@);
    }
    cnt
}

fn connection_count(contents: &str) -> (r: u32)
    requires
        contents@.len() < 0xFFFFFFFF,
    ensures
        r == spec_connection_count(contents@),
{
    let len = contents.unicode_len();
    let nl = count_newlines(contents);
    let lines: usize = if len == 0 {
        0
    } else if contents.get_char(len - 1) == '\n' {
        nl
    } else {
        nl + 1
    };
    if lines == 0 {
        0
    } else {
        (lines - 1) as u32
    }
}

/// Connection counts from the four protocol table texts, each counted as its
/// line count less the header line.
pub fn get_connections(tcp: &str, tcp6: &str, udp: &str, udp6: &str) -> (r: Connections)
    requires
        tcp@.len() < 0xFFFFFFFF,
        tcp6@.len() < 0xFFFFFFFF,
        udp@.len() < 0xFFFFFFFF,
        udp6@.len() < 0xFFFFFFFF,
    ensures
        r.tcp4 == spec_connection_count(tcp@),
        r.tcp6 == spec_connection_count(tcp6@),
        r.udp4 == spec_connection_count(udp@),
        r.udp6 == spec_connection_count(udp6@),
{
    Connections {
        tcp4: connection_count(tcp),
        tcp6: connection_count(tcp6),
        udp4: connection_count(udp),
        udp6: connection_count(udp6),
    }
}

/// The compact per-interface field: the kind glyph, then a down glyph
/// colored by receive activity and an up glyph colored by transmit activity.
pub open spec fn spec_inet_text(k: Seq<char>, st: Stat) -> Seq<char> {
    seq![spec_symbol(k)] + spec_span(ratio_color(rx_ratio(st.rx)), "\u{f063}"@) + spec_span(
        ratio_color(tx_ratio(st.tx)),
        "\u{f062}"@,
    )
}

/// The per-interface tooltip record: glyph, name, then the received and
/// transmitted magnitudes, each colored by its activity.
pub open spec fn spec_inet_tooltip(k: Seq<char>, st: Stat) -> Seq<char> {
    seq![spec_symbol(k)] + " "@ + k + ": "@ + spec_span(
        ratio_color(rx_ratio(st.rx)),
        spec_humanize(st.rx as nat) + "\u{f063}"@,
    ) + " "@ + spec_span(ratio_color(tx_ratio(st.tx)), spec_humanize(st.tx as nat) + "\u{f062}"@)
}

pub open spec fn spec_inet_texts(
    ks: Seq<Seq<char>>,
    p: Map<Seq<char>, Stat>,
    c: Map<Seq<char>, Stat>,
) -> Seq<Seq<char>> {
    ks.map_values(|k: Seq<char>| spec_inet_text(k, spec_delta(p[k], c[k])))
}

pub open spec fn spec_inet_tooltips(
    ks: Seq<Seq<char>>,
    p: Map<Seq<char>, Stat>,
    c: Map<Seq<char>, Stat>,
) -> Seq<Seq<char>> {
    ks.map_values(|k: Seq<char>| spec_inet_tooltip(k, spec_delta(p[k], c[k])))
}

/// The whole wire record for one tick: both joined fields, then the resolved
/// addresses and the connection counts appended to the tooltip.
pub open spec fn spec_inet_line(
    ks: Seq<Seq<char>>,
    p: Map<Seq<char>, Stat>,
    c: Map<Seq<char>, Stat>,
    ip4: Seq<char>,
    ip6: Seq<char>,
    conn: Connections,
) -> Seq<char> {
    "{\"text\": \""@ + spec_join(spec_inet_texts(ks, p, c), " "@) + "\", \"tooltip\": \""@
        + spec_join(spec_inet_tooltips(ks, p, c), "\r"@) + "\r\rIPv4: "@ + ip4 + "\rIPv6: "@
        + ip6 + "\r\rTCP: "@ + spec_digits(conn.tcp4 as nat) + "\rTCP6: "@ + spec_digits(
        conn.tcp6 as nat,
    ) + "\r\rUDP: "@ + spec_digits(conn.udp4 as nat) + "\rUDP6: "@ + spec_digits(
        conn.udp6 as nat,
    ) + "\"}"@
}

/// The compact field for one interface of the delta snapshot; `None` exactly
/// when the interface is absent.
pub fn format_text(key: &String, dictionary: &Snapshot) -> (r: Option<String>)
    requires
        dictionary.wf(),
    ensures
        match r {
            Some(s) => dictionary@.contains_key(key@) && s@ == spec_inet_text(
                key@,
                dictionary@[key@],
            ),
            None => !dictionary@.contains_key(key@),
        },
{
    match dictionary.get(key) {
        Some(st) => {
            let c_rx = get_color(&normalize(st.rx, INET_RX_SCALE));
            let c_tx = get_color(&normalize(st.tx, INET_TX_SCALE));
            Some(
                String::from_str(symbol_str(key)).concat(
                    span(&c_rx, "\u{f063}").as_str(),
                ).concat(span(&c_tx, "\u{f062}").as_str()),
            )
        },
        None => None,
    }
}

/// The tooltip record for one interface of the delta snapshot; `None`
/// exactly when the interface is absent.
pub fn format_tooltip(key: &String, dictionary: &Snapshot) -> (r: Option<String>)
    requires
        dictionary.wf(),
    ensures
        match r {
            Some(s) => dictionary@.contains_key(key@) && s@ == spec_inet_tooltip(
                key@,
                dictionary@[key@],
            ),
            None => !dictionary@.contains_key(key@),
        },
{
    match dictionary.get(key) {
        Some(st) => {
            let c_rx = get_color(&normalize(st.rx, INET_RX_SCALE));
            let c_tx = get_color(&normalize(st.tx, INET_TX_SCALE));
            let rx_inner = humanize(st.rx).concat("\u{f063}");
            let tx_inner = humanize(st.tx).concat("\u{f062}");
            Some(
                String::from_str(symbol_str(key)).concat(" ").concat(key.as_str()).concat(
                    ": ",
                ).concat(span(&c_rx, rx_inner.as_str()).as_str()).concat(" ").concat(
                    span(&c_tx, tx_inner.as_str()).as_str(),
                ),
            )
        },
        None => None,
    }
}

/// One tick's full output record: the delta of the two snapshots over every
/// shared interface, sorted, rendered, and joined with the address and
/// connection context.  The reported keys `ks` are pinned exactly: sorted
/// strictly, and holding precisely the identifiers shared by both snapshots.
#[verifier::loop_isolation(false)]
pub fn get_diff(
    previous: &Snapshot,
    current: &Snapshot,
    ip4: &String,
    ip6: &String,
    connections: &Connections,
) -> (r: String)
    requires
        previous.wf(),
        current.wf(),
    ensures
        (exists|ks: Seq<Seq<char>>|
            {
                &&& (forall|p: int, q: int| 0 <= p < q < ks.len() ==> lex_lt(ks[p], ks[q]))
                &&& (forall|k: Seq<char>|
                    #[trigger] ks.contains(k) <==> previous@.dom().intersect(
                        current@.dom(),
                    ).contains(k))
                &&& r@ == spec_inet_line(ks, previous@, current@, ip4@, ip6@, *connections)
            }),
{
    let d = diff(previous, current);
    let dkeys = d.keys();
    proof {
        lemma_keys_match_dom(&d, dkeys@);
    }
    let sorted = sort_keys(dkeys);
    let ghost ks = views_of(sorted@);
    proof {
        assert forall|k: Seq<char>| #[trigger] ks.contains(k) implies contains_view(
            sorted@,
            k,
        ) by {
            let i = choose|i: int| 0 <= i < ks.len() && #[trigger] ks[i] == k;
            assert(views_of(sorted@)[i] == k);
        }
        assert forall|k: Seq<char>| contains_view(sorted@, k) implies #[trigger] ks.contains(
            k,
        ) by {
            let i = choose|i: int| 0 <= i < sorted@.len() && #[trigger] views_of(sorted@)[i] == k;
            assert(ks[i] == k);
        }
        assert(d@.dom() =~= previous@.dom().intersect(current@.dom()));
    }
    let n = sorted.len();
    let mut texts: Vec<String> = Vec::new();
    let mut tips: Vec<String> = Vec::new();
    let mut i: usize = 0;
    while i < n
        invariant
            i <= n,
            n == sorted@.len(),
            texts@.len() == i,
            tips@.len() == i,
            forall|j: int|
                0 <= j < i ==> #[trigger] texts@[j]@ == spec_inet_text(
                    ks[j],
                    spec_delta(previous@[ks[j]], current@[ks[j]]),
                ),
            forall|j: int|
                0 <= j < i ==> #[trigger] tips@[j]@ == spec_inet_tooltip(
                    ks[j],
                    spec_delta(previous@[ks[j]], current@[ks[j]]),
                ),
        decreases n - i,
    {
        let key = &sorted[i];
        proof {
            assert(ks[i as int] == key@);
            assert(contains_view(sorted@, key@));
            assert(d@.contains_key(key@));
        }
        match format_text(key, &d) {
            Some(t) => { texts.push(t) },
            None => {
                proof {
                    assert(false);
                }
            },
        }
        match format_tooltip(key, &d) {
            Some(t) => { tips.push(t) },
            None => {
                proof {
                    assert(false);
                }
            },
        }
        i = i + 1;
    }
    let text = join_parts(&texts, " ");
    let tip = join_parts(&tips, "\r");
    proof {
        assert(texts@.map_values(|s: String| s@) =~= spec_inet_texts(ks, previous@, current@));
        assert(tips@.map_values(|s: String| s@) =~= spec_inet_tooltips(ks, previous@, current@));
    }
    let r = String::from_str("{\"text\": \"").concat(text.as_str()).concat(
        "\", \"tooltip\": \"",
    ).concat(tip.as_str()).concat("\r\rIPv4: ").concat(ip4.as_str()).concat("\rIPv6: ").concat(
        ip6.as_str(),
    ).concat("\r\rTCP: ").concat(u64_to_string(connections.tcp4 as u64).as_str()).concat(
        "\rTCP6: ",
    ).concat(u64_to_string(connections.tcp6 as u64).as_str()).concat("\r\rUDP: ").concat(
        u64_to_string(connections.udp4 as u64).as_str(),
    ).concat("\rUDP6: ").concat(u64_to_string(connections.udp6 as u64).as_str()).concat("\"}");
    proof {
        assert(r@ == spec_inet_line(ks, previous@, current@, ip4@, ip6@, *connections));
    }
    r
}

/// Law: whatever the address resolution yielded for a period, the emitted
/// record carries both address strings verbatim; a failed or timed-out
/// lookup degrades to whatever value the caller retained, never to a
/// malformed record.
pub proof fn lemma_line_carries_addresses(
    ks: Seq<Seq<char>>,
    p: Map<Seq<char>, Stat>,
    c: Map<Seq<char>, Stat>,
    ip4: Seq<char>,
    ip6: Seq<char>,
    conn: Connections,
)
    ensures
        (exists|i: int|
            {
                &&& 0 <= i
                &&& i + ip4.len() <= spec_inet_line(ks, p, c, ip4, ip6, conn).len()
                &&& #[trigger] spec_inet_line(ks, p, c, ip4, ip6, conn).subrange(i, i + ip4.len())
                    == ip4
            }),
        (exists|i: int|
            {
                &&& 0 <= i
                &&& i + ip6.len() <= spec_inet_line(ks, p, c, ip4, ip6, conn).len()
                &&& #[trigger] spec_inet_line(ks, p, c, ip4, ip6, conn).subrange(i, i + ip6.len())
                    == ip6
            }),
{
    let line = spec_inet_line(ks, p, c, ip4, ip6, conn);
    let pre4 = "{\"text\": \""@ + spec_join(spec_inet_texts(ks, p, c), " "@)
        + "\", \"tooltip\": \""@ + spec_join(spec_inet_tooltips(ks, p, c), "\r"@)
        + "\r\rIPv4: "@;
    let o4 = pre4.len() as int;
    assert(line.subrange(o4, o4 + ip4.len()) =~= ip4);
    assert((exists|i: int|
        {
            &&& 0 <= i
            &&& i + ip4.len() <= line.len()
            &&& #[trigger] line.subrange(i, i + ip4.len()) == ip4
        })) by {
        assert(0 <= o4 && o4 + ip4.len() <= line.len() && line.subrange(o4, o4 + ip4.len())
            == ip4);
    }
    let pre6 = pre4 + ip4 + "\rIPv6: "@;
    let o6 = pre6.len() as int;
    assert(line.subrange(o6, o6 + ip6.len()) =~= ip6);
    assert((exists|i: int|
        {
            &&& 0 <= i
            &&& i + ip6.len() <= line.len()
            &&& #[trigger] line.subrange(i, i + ip6.len()) == ip6
        })) by {
        assert(0 <= o6 && o6 + ip6.len() <= line.len() && line.subrange(o6, o6 + ip6.len())
            == ip6);
    }
}

} // verus!
