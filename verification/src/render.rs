//! Shared output-building pieces: the colored markup span and the
//! separator-joined field.

use vstd::prelude::*;
use crate::gradient::Ratio;
use crate::gradient::spec_color;

verus! {

/// The color a ratio renders as.
pub open spec fn ratio_color(r: Ratio) -> Seq<char> {
    spec_color(r.num as int, r.den as int)
}

/// A markup span painting `inner` with the color `color`.
pub open spec fn spec_span(color: Seq<char>, inner: Seq<char>) -> Seq<char> {
    "<span foreground='#"@ + color + "'>"@ + inner + "</span>"@
}

/// `parts` joined by `sep`.
pub open spec fn spec_join(parts: Seq<Seq<char>>, sep: Seq<char>) -> Seq<char>
    decreases parts.len(),
{
    if parts.len() == 0 {
        Seq::empty()
    } else if parts.len() == 1 {
        parts[0]
    } else {
        spec_join(parts.drop_last(), sep) + sep + parts.last()
    }
}

pub(crate) fn span(color: &String, inner: &str) -> (r: String)
    ensures
        r@ =~= spec_span(color@, inner@),
{
    String::from_str("<span foreground='#").concat(color.as_str()).concat("'>").concat(
        inner,
    ).concat("</span>")
}

#[verifier::loop_isolation(false)]
pub(crate) fn join_parts(parts: &Vec<String>, sep: &'static str) -> (r: String)
    ensures
        r@ =~= spec_join(parts@.map_values(|s: String| s@), sep@),
{
    let n = parts.len();
    let mut r = String::new();
    let mut i: usize = 0;
    while i < n
        invariant
            i <= n,
            n == parts@.len(),
            r@ =~= spec_join(parts@.take(i as int).map_values(|s: String| s@), sep@),
        decreases n - i,
    {
        if i == 0 {
            r = parts[0].clone();
        } else {
            r.append(sep);
            r.append(parts[i].as_str());
        }
        proof {
            let vs = parts@.take(i + 1 as int).map_values(|s: String| s@);
            assert(vs.drop_last() =~= parts@.take(i as int).map_values(|s: String| s@));
            assert(vs.last() == parts@[i as int]@);
            if i == 0 {
                assert(vs.len() == 1);
            }
        }
        i = i + 1;
    }
    proof {
        assert(parts@.take(n as int) =~= parts@);
    }
    r
}

} // verus!
