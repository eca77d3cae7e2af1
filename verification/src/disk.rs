//! Disk family: per-device read/write activity rendered as colored glyphs,
//! partitions and device-mapper shadows suppressed in favor of their disks.

use vstd::prelude::*;
use crate::gradient::Ratio;
use crate::gradient::get_color;
use crate::magnitude::humanize;
use crate::magnitude::spec_humanize;
use crate::normalize::RATIO_SCALE;
use crate::normalize::normalize;
use crate::normalize::spec_normalize;
use crate::reconcile::contains_view;
use crate::reconcile::lemma_canonical_set;
use crate::reconcile::lex_lt;
use crate::reconcile::reconcile;
use crate::reconcile::spec_canonical;
use crate::reconcile::spec_canonical_in;
use crate::reconcile::views_of;
use crate::render::join_parts;
use crate::render::ratio_color;
use crate::render::span;
use crate::render::spec_join;
use crate::render::spec_span;
use crate::snapshot::Snapshot;
use crate::snapshot::Stat;
use crate::snapshot::diff;
use crate::snapshot::lemma_keys_match_dom;
use crate::snapshot::spec_delta;

verus! {

/// Reference byte-per-interval scale for disk activity.
pub const DISK_SCALE: u64 = 100000000;

/// The ratio a raw per-interval byte count normalizes to for this family.
pub open spec fn disk_ratio(value: u64) -> Ratio {
    Ratio { num: spec_normalize(value as int, DISK_SCALE as int) as u64, den: RATIO_SCALE }
}

/// The compact per-device field: an up glyph colored by read activity and a
/// down glyph colored by write activity.
pub open spec fn spec_disk_text(st: Stat) -> Seq<char> {
    spec_span(ratio_color(disk_ratio(st.rx)), "\u{f0d8}"@) + " "@ + spec_span(
        ratio_color(disk_ratio(st.tx)),
        "\u{f0d7}"@,
    )
}

/// The per-device tooltip record: device name, then the read and the write
/// magnitude, each colored by its activity.
pub open spec fn spec_disk_tooltip(k: Seq<char>, st: Stat) -> Seq<char> {
    k + ": "@ + spec_span(
        ratio_color(disk_ratio(st.rx)),
        spec_humanize(st.rx as nat) + "\u{f0d8}"@,
    ) + spec_span(ratio_color(disk_ratio(st.tx)), spec_humanize(st.tx as nat) + "\u{f0d7}"@)
}

/// The delta each reported key renders, taken between the two snapshots.
pub open spec fn spec_disk_texts(
    ks: Seq<Seq<char>>,
    p: Map<Seq<char>, Stat>,
    c: Map<Seq<char>, Stat>,
) -> Seq<Seq<char>> {
    ks.map_values(|k: Seq<char>| spec_disk_text(spec_delta(p[k], c[k])))
}

pub open spec fn spec_disk_tooltips(
    ks: Seq<Seq<char>>,
    p: Map<Seq<char>, Stat>,
    c: Map<Seq<char>, Stat>,
) -> Seq<Seq<char>> {
    ks.map_values(|k: Seq<char>| spec_disk_tooltip(k, spec_delta(p[k], c[k])))
}

/// The whole wire record for one tick, given the reported keys in order.
pub open spec fn spec_disk_line(
    ks: Seq<Seq<char>>,
    p: Map<Seq<char>, Stat>,
    c: Map<Seq<char>, Stat>,
) -> Seq<char> {
    "{\"text\": \"\u{f0a0} "@ + spec_join(spec_disk_texts(ks, p, c), " "@)
        + "\", \"tooltip\": \""@ + spec_join(spec_disk_tooltips(ks, p, c), "\r"@) + "\"}"@
}

/// The compact field for one device of the delta snapshot; `None` exactly
/// when the device is absent.
pub fn format_text(key: &String, dictionary: &Snapshot) -> (r: Option<String>)
    requires
        dictionary.wf(),
    ensures
        match r {
            Some(s) => dictionary@.contains_key(key@) && s@ == spec_disk_text(
                dictionary@[key@],
            ),
            None => !dictionary@.contains_key(key@),
        },
{
    match dictionary.get(key) {
        Some(st) => {
            let c_rx = get_color(&normalize(st.rx, DISK_SCALE));
            let c_tx = get_color(&normalize(st.tx, DISK_SCALE));
            Some(
                span(&c_rx, "\u{f0d8}").concat(" ").concat(span(&c_tx, "\u{f0d7}").as_str()),
            )
        },
        None => None,
    }
}

/// The tooltip record for one device of the delta snapshot; `None` exactly
/// when the device is absent.
pub fn format_tooltip(key: &String, dictionary: &Snapshot) -> (r: Option<String>)
    requires
        dictionary.wf(),
    ensures
        match r {
            Some(s) => dictionary@.contains_key(key@) && s@ == spec_disk_tooltip(
                key@,
                dictionary@[key@],
            ),
            None => !dictionary@.contains_key(key@),
        },
{
    match dictionary.get(key) {
        Some(st) => {
            let c_rx = get_color(&normalize(st.rx, DISK_SCALE));
            let c_tx = get_color(&normalize(st.tx, DISK_SCALE));
            let rx_inner = humanize(st.rx).concat("\u{f0d8}");
            let tx_inner = humanize(st.tx).concat("\u{f0d7}");
            Some(
                String::from_str(key.as_str()).concat(": ").concat(
                    span(&c_rx, rx_inner.as_str()).as_str(),
                ).concat(span(&c_tx, tx_inner.as_str()).as_str()),
            )
        },
        None => None,
    }
}

/// One tick's full output record: the delta of the two snapshots, reduced to
/// the canonical devices, sorted, and rendered into the two fields.  The
/// reported keys `ks` are pinned exactly: sorted strictly, and holding
/// precisely the canonical identifiers shared by both snapshots.
#[verifier::loop_isolation(false)]
pub fn get_diff(previous: &Snapshot, current: &Snapshot) -> (r: String)
    requires
        previous.wf(),
        current.wf(),
    ensures
        (exists|ks: Seq<Seq<char>>|
            {
                &&& (forall|p: int, q: int| 0 <= p < q < ks.len() ==> lex_lt(ks[p], ks[q]))
                &&& (forall|k: Seq<char>|
                    #[trigger] ks.contains(k) <==> (previous@.dom().intersect(
                        current@.dom(),
                    ).contains(k) && spec_canonical_in(
                        k,
                        previous@.dom().intersect(current@.dom()),
                    )))
                &&& r@ == spec_disk_line(ks, previous@, current@)
            }),
{
    let d = diff(previous, current);
    let dkeys = d.keys();
    proof {
        lemma_keys_match_dom(&d, dkeys@);
        assert forall|k: Seq<char>| #[trigger] spec_canonical(k, views_of(dkeys@))
            == spec_canonical_in(k, d@.dom()) by {
            assert forall|o: Seq<char>| #[trigger] d@.dom().contains(o) <==> views_of(
                dkeys@,
            ).contains(o) by {
                if d@.dom().contains(o) {
                    assert(contains_view(dkeys@, o));
                    let i = choose|i: int|
                        0 <= i < dkeys@.len() && #[trigger] views_of(dkeys@)[i] == o;
                    assert(views_of(dkeys@).contains(o));
                }
                if views_of(dkeys@).contains(o) {
                    assert(contains_view(dkeys@, o));
                }
            }
            lemma_canonical_set(k, views_of(dkeys@), d@.dom());
        }
    }
    let sorted = reconcile(&dkeys);
    let ghost ks = views_of(sorted@);
    proof {
        assert forall|k: Seq<char>| #[trigger] ks.contains(k) implies contains_view(
            sorted@,
            k,
        ) by {
            let i = choose|i: int| 0 <= i < ks.len() && #[trigger] ks[i] == k;
            assert(views_of(sorted@)[i] == k);
        }
        assert forall|k: Seq<char>| contains_view(sorted@, k) implies #[trigger] ks.contains(
            k,
        ) by {
            let i = choose|i: int| 0 <= i < sorted@.len() && #[trigger] views_of(sorted@)[i] == k;
            assert(ks[i] == k);
        }
        assert(d@.dom() =~= previous@.dom().intersect(current@.dom()));
    }
    let n = sorted.len();
    let mut texts: Vec<String> = Vec::new();
    let mut tips: Vec<String> = Vec::new();
    let mut i: usize = 0;
    while i < n
        invariant
            i <= n,
            n == sorted@.len(),
            texts@.len() == i,
            tips@.len() == i,
            forall|j: int|
                0 <= j < i ==> #[trigger] texts@[j]@ == spec_disk_text(
                    spec_delta(previous@[ks[j]], current@[ks[j]]),
                ),
            forall|j: int|
                0 <= j < i ==> #[trigger] tips@[j]@ == spec_disk_tooltip(
                    ks[j],
                    spec_delta(previous@[ks[j]], current@[ks[j]]),
                ),
        decreases n - i,
    {
        let key = &sorted[i];
        proof {
            assert(ks[i as int] == key@);
            assert(contains_view(sorted@, key@));
            assert(d@.contains_key(key@));
        }
        match format_text(key, &d) {
            Some(t) => { texts.push(t) },
            None => {
                proof {
                    assert(false);
                }
            },
        }
        match format_tooltip(key, &d) {
            Some(t) => { tips.push(t) },
            None => {
                proof {
                    assert(false);
                }
            },
        }
        i = i + 1;
    }
    let text = join_parts(&texts, " ");
    let tip = join_parts(&tips, "\r");
    proof {
        assert(texts@.map_values(|s: String| s@) =~= spec_disk_texts(ks, previous@, current@));
        assert(tips@.map_values(|s: String| s@) =~= spec_disk_tooltips(ks, previous@, current@));
    }
    let r = String::from_str("{\"text\": \"\u{f0a0} ").concat(text.as_str()).concat(
        "\", \"tooltip\": \"",
    ).concat(tip.as_str()).concat("\"}");
    proof {
        assert(r@ == spec_disk_line(ks, previous@, current@));
    }
    r
}

} // verus!
