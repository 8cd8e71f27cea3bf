//! The diff aggregator: one traversal of two equal-sized grids, per-color
//! accumulation, and the deterministically ordered report.
//!
//! The report is pinned down by the spec function [`report_spec`]: one entry
//! per palette name that appears among non-transparent template pixels,
//! carrying that color's total and mismatch counts (and, on request, the
//! mismatching coordinates in row-major traversal order), the entries ordered
//! by descending total and, on ties, ascending name.
use vstd::prelude::*;
use crate::palette::Pixel;
use crate::palette::rgb_of;
use crate::palette::classify_rgb;
use crate::palette::palette_name;
use crate::palette::lex_lt;
use crate::palette::PALETTE_LEN;
use crate::palette::palette_entry;
use crate::palette::classify_index;
use crate::grid::PixelGrid;
use crate::grid::lemma_row_major_in_range;
use vstd::arithmetic::div_mod::lemma_fundamental_div_mod_converse;

verus! {

/// Why a comparison failed.
#[derive(Clone, PartialEq, Eq, Debug)]
pub enum CompareError {
    /// An input buffer could not be decoded into an image.
    DecodeError(String),
    /// The two grids do not share the same dimensions.
    DimensionMismatch {
        template_width: usize,
        template_height: usize,
        actual_width: usize,
        actual_height: usize,
    },
}

/// One report row: the aggregation record of a single palette name.
#[derive(Clone, PartialEq, Eq, Debug)]
pub struct ColorEntry {
    pub name: &'static str,
    pub count: usize,
    pub total: usize,
    pub pixels: Vec<(usize, usize)>,
}

/// The mathematical model of a report row.
#[verifier::ext_equal]
pub struct EntryModel {
    pub name: Seq<char>,
    pub count: int,
    pub total: int,
    pub pixels: Seq<(usize, usize)>,
}

impl View for ColorEntry {
    type V = EntryModel;

    open spec fn view(&self) -> EntryModel {
        EntryModel {
            name: self.name@,
            count: self.count as int,
            total: self.total as int,
            pixels: self.pixels@,
        }
    }
}

impl ColorEntry {
    /// Creates an empty aggregation record for `name`.
    pub fn new(name: &'static str) -> (e: ColorEntry)
        ensures
            e@.name == name@,
            e@.count == 0,
            e@.total == 0,
            e@.pixels == Seq::<(usize, usize)>::empty(),
    {
        ColorEntry { name, count: 0, total: 0, pixels: Vec::new() }
    }
}

/// The models of a sequence of report rows.
pub open spec fn view_report(s: Seq<ColorEntry>) -> Seq<EntryModel> {
    Seq::new(s.len(), |k: int| s[k]@)
}

/// A template pixel and the actual pixel at the same position disagree:
/// their RGB values differ (alpha ignored), or the actual pixel is fully
/// transparent.
pub open spec fn pixel_mismatch(t: Pixel, a: Pixel) -> bool {
    rgb_of(t) != rgb_of(a) || a.a == 0
}

/// The template pixel is counted under palette index `p`.
pub open spec fn counted(t: Pixel, p: int) -> bool {
    t.a != 0 && classify_rgb(rgb_of(t)) == p
}

/// How many of the first `n` template pixels are counted under `p`.
pub open spec fn total_upto(t: Seq<Pixel>, p: int, n: int) -> int
    decreases n,
{
    if n <= 0 {
        0
    } else {
        total_upto(t, p, n - 1) + if counted(t[n - 1], p) {
            1int
        } else {
            0int
        }
    }
}

/// How many of the first `n` template pixels are counted under `p` and
/// disagree with the actual pixel at the same position.
pub open spec fn mismatch_upto(t: Seq<Pixel>, a: Seq<Pixel>, p: int, n: int) -> int
    decreases n,
{
    if n <= 0 {
        0
    } else {
        mismatch_upto(t, a, p, n - 1) + if counted(t[n - 1], p) && pixel_mismatch(
            t[n - 1],
            a[n - 1],
        ) {
            1int
        } else {
            0int
        }
    }
}

/// The `(x, y)` coordinates of flattened position `n` in a grid of width `w`.
pub open spec fn coord_of(n: int, w: int) -> (usize, usize) {
    ((n % w) as usize, (n / w) as usize)
}

/// The coordinates, in traversal order, of the first `n` positions counted
/// under `p` whose pixels disagree.
pub open spec fn pixels_upto(t: Seq<Pixel>, a: Seq<Pixel>, p: int, w: int, n: int) -> Seq<
    (usize, usize),
>
    decreases n,
{
    if n <= 0 {
        Seq::empty()
    } else {
        let rest = pixels_upto(t, a, p, w, n - 1);
        if counted(t[n - 1], p) && pixel_mismatch(t[n - 1], a[n - 1]) {
            rest.push(coord_of(n - 1, w))
        } else {
            rest
        }
    }
}

/// How many of the first `n` template pixels are non-transparent.
pub open spec fn nontransparent_upto(t: Seq<Pixel>, n: int) -> int
    decreases n,
{
    if n <= 0 {
        0
    } else {
        nontransparent_upto(t, n - 1) + if t[n - 1].a != 0 {
            1int
        } else {
            0int
        }
    }
}

/// The finished report row of palette index `p`.
pub open spec fn entry_model_of(t: Seq<Pixel>, a: Seq<Pixel>, w: int, ip: bool, p: int) -> EntryModel {
    EntryModel {
        name: palette_name(p),
        count: mismatch_upto(t, a, p, t.len() as int),
        total: total_upto(t, p, t.len() as int),
        pixels: if ip {
            pixels_upto(t, a, p, w, t.len() as int)
        } else {
            Seq::empty()
        },
    }
}

/// The report's order: larger totals first, names ascending on equal totals.
pub open spec fn entry_lt(x: EntryModel, y: EntryModel) -> bool {
    x.total > y.total || (x.total == y.total && lex_lt(x.name, y.name))
}

/// Inserts `e` into `s` before the first element that `e` precedes.
pub open spec fn insert_sorted(s: Seq<EntryModel>, e: EntryModel) -> Seq<EntryModel>
    decreases s.len(),
{
    if s.len() == 0 {
        seq![e]
    } else if entry_lt(e, s[0]) {
        seq![e] + s
    } else {
        seq![s[0]] + insert_sorted(s.drop_first(), e)
    }
}

/// The report built from the palette indices below `p`: rows of the indices
/// whose total is positive, kept ordered by `entry_lt`.
pub open spec fn report_upto(t: Seq<Pixel>, a: Seq<Pixel>, w: int, ip: bool, p: int) -> Seq<
    EntryModel,
>
    decreases p,
{
    if p <= 0 {
        Seq::empty()
    } else {
        let rest = report_upto(t, a, w, ip, p - 1);
        if total_upto(t, p - 1, t.len() as int) > 0 {
            insert_sorted(rest, entry_model_of(t, a, w, ip, p - 1))
        } else {
            rest
        }
    }
}

/// The whole report of a comparison of flattened grids `t` and `a`.
pub open spec fn report_spec(t: Seq<Pixel>, a: Seq<Pixel>, w: int, ip: bool) -> Seq<EntryModel> {
    report_upto(t, a, w, ip, PALETTE_LEN as int)
}


/// The sum of the totals of a sequence of report rows.
pub open spec fn sum_totals(s: Seq<EntryModel>) -> int
    decreases s.len(),
{
    if s.len() == 0 {
        0
    } else {
        s[0].total + sum_totals(s.drop_first())
    }
}

/// The sum, over the palette indices below `p`, of the totals counted among
/// the first `n` template pixels.
pub open spec fn partial_totals(t: Seq<Pixel>, p: int, n: int) -> int
    decreases p,
{
    if p <= 0 {
        0
    } else {
        partial_totals(t, p - 1, n) + total_upto(t, p - 1, n)
    }
}

proof fn lemma_counts_bounded(t: Seq<Pixel>, a: Seq<Pixel>, p: int, w: int, n: int)
    requires
        n >= 0,
    ensures
        0 <= mismatch_upto(t, a, p, n) <= total_upto(t, p, n) <= n,
        pixels_upto(t, a, p, w, n).len() == mismatch_upto(t, a, p, n),
    decreases n,
{
    if n > 0 {
        lemma_counts_bounded(t, a, p, w, n - 1);
    }
}

proof fn lemma_entry_lt_trans(x: EntryModel, y: EntryModel, z: EntryModel)
    requires
        entry_lt(x, y),
        entry_lt(y, z),
    ensures
        entry_lt(x, z),
{
    if x.total == y.total && y.total == z.total {
        crate::palette::lemma_lex_lt_trans(x.name, y.name, z.name);
    }
}

proof fn lemma_insert_sorted_elems(s: Seq<EntryModel>, e: EntryModel)
    ensures
        insert_sorted(s, e).len() == s.len() + 1,
        forall|k: int|
            0 <= k < insert_sorted(s, e).len() ==> (#[trigger] insert_sorted(s, e)[k] == e
                || s.contains(insert_sorted(s, e)[k])),
        insert_sorted(s, e).contains(e),
        forall|x: EntryModel| s.contains(x) ==> #[trigger] insert_sorted(s, e).contains(x),
        sum_totals(insert_sorted(s, e)) == sum_totals(s) + e.total,
    decreases s.len(),
{
    let r = insert_sorted(s, e);
    if s.len() == 0 {
        assert(r =~= seq![e]);
        assert(r[0] == e);
        assert(r.drop_first() =~= Seq::<EntryModel>::empty());
        assert(sum_totals(r.drop_first()) == 0);
        assert(sum_totals(s) == 0);
        assert(sum_totals(r) == e.total);
    } else if entry_lt(e, s[0]) {
        assert(r =~= seq![e] + s);
        assert(r[0] == e);
        assert forall|k: int| 0 <= k < r.len() implies (#[trigger] r[k] == e || s.contains(
            r[k],
        )) by {
            if k > 0 {
                assert(r[k] == s[k - 1]);
            }
        }
        assert forall|x: EntryModel| s.contains(x) implies #[trigger] r.contains(x) by {
            let i = choose|i: int| 0 <= i < s.len() && s[i] == x;
            assert(r[i + 1] == x);
        }
        assert(r.drop_first() =~= s);
        assert(sum_totals(r) == r[0].total + sum_totals(r.drop_first()));
        assert(sum_totals(r) == e.total + sum_totals(s));
    } else {
        lemma_insert_sorted_elems(s.drop_first(), e);
        let rr = insert_sorted(s.drop_first(), e);
        assert(r =~= seq![s[0]] + rr);
        assert forall|k: int| 0 <= k < r.len() implies (#[trigger] r[k] == e || s.contains(
            r[k],
        )) by {
            if k == 0 {
                assert(s.contains(s[0]));
            } else {
                assert(r[k] == rr[k - 1]);
                if rr[k - 1] != e {
                    let i = choose|i: int|
                        0 <= i < s.drop_first().len() && s.drop_first()[i] == rr[k - 1];
                    assert(s[i + 1] == rr[k - 1]);
                }
            }
        }
        let ie = choose|i: int| 0 <= i < rr.len() && rr[i] == e;
        assert(r[ie + 1] == e);
        assert forall|x: EntryModel| s.contains(x) implies #[trigger] r.contains(x) by {
            let i = choose|i: int| 0 <= i < s.len() && s[i] == x;
            if i == 0 {
                assert(r[0] == x);
            } else {
                assert(s.drop_first()[i - 1] == x);
                assert(rr.contains(x));
                let j = choose|j: int| 0 <= j < rr.len() && rr[j] == x;
                assert(r[j + 1] == x);
            }
        }
        assert(r.drop_first() =~= rr);
        assert(sum_totals(r) == r[0].total + sum_totals(r.drop_first()));
        assert(r[0] == s[0]);
        assert(sum_totals(rr) == sum_totals(s.drop_first()) + e.total);
        assert(sum_totals(s) == s[0].total + sum_totals(s.drop_first()));
    }
}

proof fn lemma_insert_sorted_sorted(s: Seq<EntryModel>, e: EntryModel)
    requires
        forall|k1: int, k2: int|
            0 <= k1 < k2 < s.len() ==> entry_lt(#[trigger] s[k1], #[trigger] s[k2]),
        forall|k: int|
            0 <= k < s.len() ==> entry_lt(e, #[trigger] s[k]) || entry_lt(s[k], e),
    ensures
        forall|k1: int, k2: int|
            0 <= k1 < k2 < insert_sorted(s, e).len() ==> entry_lt(
                #[trigger] insert_sorted(s, e)[k1],
                #[trigger] insert_sorted(s, e)[k2],
            ),
    decreases s.len(),
{
    let r = insert_sorted(s, e);
    if s.len() == 0 {
    } else if entry_lt(e, s[0]) {
        assert(r =~= seq![e] + s);
        assert forall|k1: int, k2: int| 0 <= k1 < k2 < r.len() implies entry_lt(
            #[trigger] r[k1],
            #[trigger] r[k2],
        ) by {
            if k1 == 0 {
                if k2 > 1 {
                    lemma_entry_lt_trans(e, s[0], s[k2 - 1]);
                }
            }
        }
    } else {
        assert(entry_lt(s[0], e));
        lemma_insert_sorted_sorted(s.drop_first(), e);
        lemma_insert_sorted_elems(s.drop_first(), e);
        let rr = insert_sorted(s.drop_first(), e);
        assert(r =~= seq![s[0]] + rr);
        assert forall|k1: int, k2: int| 0 <= k1 < k2 < r.len() implies entry_lt(
            #[trigger] r[k1],
            #[trigger] r[k2],
        ) by {
            if k1 == 0 {
                assert(r[k2] == rr[k2 - 1]);
                if rr[k2 - 1] == e {
                } else {
                    let i = choose|i: int|
                        0 <= i < s.drop_first().len() && s.drop_first()[i] == rr[k2 - 1];
                    assert(s[i + 1] == rr[k2 - 1]);
                }
            } else {
                assert(r[k1] == rr[k1 - 1] && r[k2] == rr[k2 - 1]);
            }
        }
    }
}

proof fn lemma_insert_sorted_at(s: Seq<EntryModel>, e: EntryModel, j: int)
    requires
        0 <= j <= s.len(),
        forall|k: int| 0 <= k < j ==> !entry_lt(e, #[trigger] s[k]),
        j < s.len() ==> entry_lt(e, s[j]),
    ensures
        insert_sorted(s, e) =~= s.subrange(0, j) + seq![e] + s.subrange(j, s.len() as int),
    decreases s.len(),
{
    if s.len() == 0 {
    } else if entry_lt(e, s[0]) {
        assert(j == 0);
    } else {
        assert(j >= 1);
        lemma_insert_sorted_at(s.drop_first(), e, j - 1);
        assert(s.drop_first().subrange(0, j - 1) =~= s.subrange(1, j));
        assert(s.drop_first().subrange(j - 1, s.drop_first().len() as int) =~= s.subrange(
            j,
            s.len() as int,
        ));
    }
}


/// Every row of `r` is the finished row of a palette index below `p` whose
/// total is positive.
pub open spec fn report_elems_ok(
    t: Seq<Pixel>,
    a: Seq<Pixel>,
    w: int,
    ip: bool,
    r: Seq<EntryModel>,
    p: int,
) -> bool {
    forall|k: int|
        0 <= k < r.len() ==> exists|q: int|
            0 <= q < p && total_upto(t, q, t.len() as int) > 0 && #[trigger] r[k]
                == entry_model_of(t, a, w, ip, q)
}

proof fn lemma_report_upto_props(t: Seq<Pixel>, a: Seq<Pixel>, w: int, ip: bool, p: int)
    requires
        0 <= p <= PALETTE_LEN as int,
    ensures
        report_elems_ok(t, a, w, ip, report_upto(t, a, w, ip, p), p),
        forall|k1: int, k2: int|
            0 <= k1 < k2 < report_upto(t, a, w, ip, p).len() ==> entry_lt(
                #[trigger] report_upto(t, a, w, ip, p)[k1],
                #[trigger] report_upto(t, a, w, ip, p)[k2],
            ),
        sum_totals(report_upto(t, a, w, ip, p)) == partial_totals(t, p, t.len() as int),
        forall|q: int|
            0 <= q < p && #[trigger] total_upto(t, q, t.len() as int) > 0 ==> report_upto(
                t,
                a,
                w,
                ip,
                p,
            ).contains(entry_model_of(t, a, w, ip, q)),
    decreases p,
{
    let nn = t.len() as int;
    if p <= 0 {
        assert(sum_totals(report_upto(t, a, w, ip, p)) == 0);
        assert(partial_totals(t, p, nn) == 0);
    } else {
        lemma_report_upto_props(t, a, w, ip, p - 1);
        let rest = report_upto(t, a, w, ip, p - 1);
        let r = report_upto(t, a, w, ip, p);
        if total_upto(t, p - 1, nn) > 0 {
            let e = entry_model_of(t, a, w, ip, p - 1);
            crate::palette::lemma_palette_names_sorted();
            assert forall|k: int| 0 <= k < rest.len() implies entry_lt(e, #[trigger] rest[k])
                || entry_lt(rest[k], e) by {
                let q = choose|q: int|
                    0 <= q < p - 1 && total_upto(t, q, nn) > 0 && rest[k] == entry_model_of(
                        t,
                        a,
                        w,
                        ip,
                        q,
                    );
                assert(lex_lt(palette_name(q), palette_name(p - 1)));
            }
            lemma_insert_sorted_sorted(rest, e);
            lemma_insert_sorted_elems(rest, e);
            assert(r == insert_sorted(rest, e));
            assert forall|k: int| 0 <= k < r.len() implies exists|q: int|
                0 <= q < p && total_upto(t, q, nn) > 0 && #[trigger] r[k] == entry_model_of(
                    t,
                    a,
                    w,
                    ip,
                    q,
                ) by {
                if r[k] == e {
                    assert(0 <= p - 1 < p && total_upto(t, p - 1, nn) > 0 && r[k]
                        == entry_model_of(t, a, w, ip, p - 1));
                } else {
                    assert(rest.contains(r[k]));
                    let i = choose|i: int| 0 <= i < rest.len() && rest[i] == r[k];
                    let q = choose|q: int|
                        0 <= q < p - 1 && total_upto(t, q, nn) > 0 && rest[i] == entry_model_of(
                            t,
                            a,
                            w,
                            ip,
                            q,
                        );
                    assert(0 <= q < p && total_upto(t, q, nn) > 0 && r[k] == entry_model_of(
                        t,
                        a,
                        w,
                        ip,
                        q,
                    ));
                }
            }
        } else {
            lemma_counts_bounded(t, a, p - 1, w, nn);
            assert(total_upto(t, p - 1, nn) == 0);
            assert(r == rest);
            assert forall|k: int| 0 <= k < r.len() implies exists|q: int|
                0 <= q < p && total_upto(t, q, nn) > 0 && #[trigger] r[k] == entry_model_of(
                    t,
                    a,
                    w,
                    ip,
                    q,
                ) by {
                let q = choose|q: int|
                    0 <= q < p - 1 && total_upto(t, q, nn) > 0 && rest[k] == entry_model_of(
                        t,
                        a,
                        w,
                        ip,
                        q,
                    );
                assert(0 <= q < p && total_upto(t, q, nn) > 0 && r[k] == entry_model_of(
                    t,
                    a,
                    w,
                    ip,
                    q,
                ));
            }
        }
    }
}

proof fn lemma_partial_totals_step(t: Seq<Pixel>, p: int, n: int)
    requires
        0 <= n < t.len(),
    ensures
        partial_totals(t, p, n + 1) == partial_totals(t, p, n) + if t[n].a != 0 && 0
            <= classify_rgb(rgb_of(t[n])) < p {
            1int
        } else {
            0int
        },
    decreases p,
{
    if p > 0 {
        lemma_partial_totals_step(t, p - 1, n);
        assert(total_upto(t, p - 1, n + 1) == total_upto(t, p - 1, n) + if counted(t[n], p - 1) {
            1int
        } else {
            0int
        });
    }
}

proof fn lemma_partial_totals_zero(t: Seq<Pixel>, p: int)
    requires
        p >= 0,
    ensures
        partial_totals(t, p, 0) == 0,
    decreases p,
{
    if p > 0 {
        lemma_partial_totals_zero(t, p - 1);
        assert(total_upto(t, p - 1, 0) == 0);
    }
}

proof fn lemma_partial_totals_all(t: Seq<Pixel>, n: int)
    requires
        0 <= n <= t.len(),
    ensures
        partial_totals(t, PALETTE_LEN as int, n) == nontransparent_upto(t, n),
    decreases n,
{
    if n == 0 {
        lemma_partial_totals_zero(t, PALETTE_LEN as int);
    } else {
        lemma_partial_totals_all(t, n - 1);
        lemma_partial_totals_step(t, PALETTE_LEN as int, n - 1);
        assert(nontransparent_upto(t, n) == nontransparent_upto(t, n - 1) + if t[n - 1].a != 0 {
            1int
        } else {
            0int
        });
        if t[n - 1].a != 0 {
            crate::palette::lemma_classify_nearest(rgb_of(t[n - 1]));
            assert(0 <= classify_rgb(rgb_of(t[n - 1])) < PALETTE_LEN as int);
        }
    }
}

/// Totals law: every report row keeps its mismatch count between zero and
/// its total, and the totals of all rows add up to the number of
/// non-transparent template pixels.
pub proof fn lemma_report_totals(t: Seq<Pixel>, a: Seq<Pixel>, w: int, ip: bool)
    ensures
        forall|k: int|
            0 <= k < report_spec(t, a, w, ip).len() ==> 0 <= #[trigger] report_spec(
                t,
                a,
                w,
                ip,
            )[k].count <= report_spec(t, a, w, ip)[k].total,
        sum_totals(report_spec(t, a, w, ip)) == nontransparent_upto(t, t.len() as int),
{
    let nn = t.len() as int;
    lemma_report_upto_props(t, a, w, ip, PALETTE_LEN as int);
    let r = report_spec(t, a, w, ip);
    assert forall|k: int| 0 <= k < r.len() implies 0 <= #[trigger] r[k].count <= r[k].total by {
        let q = choose|q: int|
            0 <= q < PALETTE_LEN && total_upto(t, q, nn) > 0 && r[k] == entry_model_of(
                t,
                a,
                w,
                ip,
                q,
            );
        lemma_counts_bounded(t, a, q, w, nn);
    }
    lemma_partial_totals_all(t, nn);
}

/// Ordering law: along the report the totals never increase, and rows with
/// equal totals carry strictly increasing (hence distinct) names.
pub proof fn lemma_report_sorted(t: Seq<Pixel>, a: Seq<Pixel>, w: int, ip: bool)
    ensures
        forall|k1: int, k2: int|
            0 <= k1 < k2 < report_spec(t, a, w, ip).len() ==> (#[trigger] report_spec(
                t,
                a,
                w,
                ip,
            )[k1].total > #[trigger] report_spec(t, a, w, ip)[k2].total || (report_spec(
                t,
                a,
                w,
                ip,
            )[k1].total == report_spec(t, a, w, ip)[k2].total && lex_lt(
                report_spec(t, a, w, ip)[k1].name,
                report_spec(t, a, w, ip)[k2].name,
            ))),
{
    lemma_report_upto_props(t, a, w, ip, PALETTE_LEN as int);
}

/// One row per appearing color: a palette index with a positive total has
/// its row in the report, and every row is the finished row of such an index.
pub proof fn lemma_report_rows(t: Seq<Pixel>, a: Seq<Pixel>, w: int, ip: bool)
    ensures
        forall|q: int|
            0 <= q < PALETTE_LEN && #[trigger] total_upto(t, q, t.len() as int) > 0
                ==> report_spec(t, a, w, ip).contains(entry_model_of(t, a, w, ip, q)),
        report_elems_ok(t, a, w, ip, report_spec(t, a, w, ip), PALETTE_LEN as int),
{
    lemma_report_upto_props(t, a, w, ip, PALETTE_LEN as int);
}

/// Idempotence law: the report is a function of the two grids and the flag
/// alone, so comparing identical inputs twice yields identical reports.
pub proof fn lemma_compare_deterministic(
    t: Seq<Pixel>,
    a: Seq<Pixel>,
    w: int,
    ip: bool,
    r1: Seq<EntryModel>,
    r2: Seq<EntryModel>,
)
    requires
        r1 == report_spec(t, a, w, ip),
        r2 == report_spec(t, a, w, ip),
    ensures
        r1 == r2,
{
}


/// The accumulation record of palette index `q` after the first `n` cells of
/// the traversal.
pub open spec fn acc_entry_ok(
    t: Seq<Pixel>,
    a: Seq<Pixel>,
    w: int,
    ip: bool,
    em: EntryModel,
    q: int,
    n: int,
) -> bool {
    &&& em.name == palette_name(q)
    &&& em.count == mismatch_upto(t, a, q, n)
    &&& em.total == total_upto(t, q, n)
    &&& em.pixels == if ip {
        pixels_upto(t, a, q, w, n)
    } else {
        Seq::<(usize, usize)>::empty()
    }
}

/// Compares two grids cell by cell and returns the ordered report: one row
/// per palette name appearing among non-transparent template pixels, rows
/// ordered by descending total and, on equal totals, ascending name. When the
/// grids' dimensions differ, returns the `DimensionMismatch` error instead.
#[verifier::loop_isolation(false)]
pub fn compare(template: &PixelGrid, actual: &PixelGrid, include_pixels: bool) -> (r: Result<
    Vec<ColorEntry>,
    CompareError,
>)
    requires
        template.wf(),
        actual.wf(),
    ensures
        match r {
            Ok(rep) => template.width == actual.width && template.height == actual.height
                && view_report(rep@) == report_spec(
                template.pixels@,
                actual.pixels@,
                template.width as int,
                include_pixels,
            ),
            Err(e) => (template.width != actual.width || template.height != actual.height) && e
                == (CompareError::DimensionMismatch {
                template_width: template.width,
                template_height: template.height,
                actual_width: actual.width,
                actual_height: actual.height,
            }),
        },
{
    if template.width != actual.width || template.height != actual.height {
        return Err(
            CompareError::DimensionMismatch {
                template_width: template.width,
                template_height: template.height,
                actual_width: actual.width,
                actual_height: actual.height,
            },
        );
    }
    let w = template.width;
    let h = template.height;
    let np = template.pixels.len();
    let na = actual.pixels.len();
    let ghost t = template.pixels@;
    let ghost av = actual.pixels@;
    let ghost wint = w as int;
    let ghost nn = t.len() as int;

    let mut acc: Vec<ColorEntry> = Vec::new();
    let mut p: usize = 0;
    while p < PALETTE_LEN
        invariant
            p <= PALETTE_LEN,
            acc@.len() == p as int,
            forall|q: int|
                0 <= q < p ==> acc_entry_ok(t, av, wint, include_pixels, (#[trigger] acc@[q])@, q, 0),
        decreases PALETTE_LEN - p,
    {
        acc.push(ColorEntry::new(palette_entry(p).0));
        p = p + 1;
    }

    let mut y: usize = 0;
    while y < h
        invariant
            y <= h,
            acc@.len() == PALETTE_LEN as int,
            forall|q: int|
                0 <= q < PALETTE_LEN ==> acc_entry_ok(
                    t,
                    av,
                    wint,
                    include_pixels,
                    (#[trigger] acc@[q])@,
                    q,
                    y as int * wint,
                ),
        decreases h - y,
    {
        let mut x: usize = 0;
        proof {
            assert(y as int * wint >= 0) by (nonlinear_arith)
                requires
                    y as int >= 0 && wint >= 0,
            ;
        }
        while x < w
            invariant
                x <= w,
                acc@.len() == PALETTE_LEN as int,
                forall|q: int|
                    0 <= q < PALETTE_LEN ==> acc_entry_ok(
                        t,
                        av,
                        wint,
                        include_pixels,
                        (#[trigger] acc@[q])@,
                        q,
                        y as int * wint + x as int,
                    ),
            decreases w - x,
        {
            let ghost n = y as int * wint + x as int;
            proof {
                lemma_row_major_in_range(x as int, y as int, wint, h as int);
            }
            let tp = template.get(x, y);
            assert(tp == t[n]);
            if tp.a != 0 {
                let pi = classify_index((tp.r, tp.g, tp.b));
                let ap = actual.get(x, y);
                assert(ap == av[n]);
                proof {
                    lemma_counts_bounded(t, av, pi as int, wint, n);
                    if tp.r == ap.r && tp.g == ap.g && tp.b == ap.b {
                        assert(rgb_of(tp) =~= rgb_of(ap));
                    }
                    assert(counted(t[n], pi as int));
                }
                acc[pi].total = acc[pi].total + 1;
                let mism = tp.r != ap.r || tp.g != ap.g || tp.b != ap.b || ap.a == 0;
                assert(mism == pixel_mismatch(t[n], av[n]));
                if mism {
                    acc[pi].count = acc[pi].count + 1;
                    if include_pixels {
                        acc[pi].pixels.push((x, y));
                        proof {
                            lemma_fundamental_div_mod_converse(n, wint, y as int, x as int);
                            assert(coord_of(n, wint) == (x, y));
                        }
                    }
                }
                assert forall|q: int| 0 <= q < PALETTE_LEN implies acc_entry_ok(
                    t,
                    av,
                    wint,
                    include_pixels,
                    (#[trigger] acc@[q])@,
                    q,
                    n + 1,
                ) by {
                    if q != pi as int {
                        assert(!counted(t[n], q));
                    }
                }
            } else {
                assert forall|q: int| 0 <= q < PALETTE_LEN implies acc_entry_ok(
                    t,
                    av,
                    wint,
                    include_pixels,
                    (#[trigger] acc@[q])@,
                    q,
                    n + 1,
                ) by {
                    assert(!counted(t[n], q));
                }
            }
            x = x + 1;
        }
        proof {
            assert((y as int + 1) * wint == y as int * wint + wint) by (nonlinear_arith);
        }
        y = y + 1;
    }
    proof {
        assert(h as int * wint == wint * h as int) by (nonlinear_arith);
        assert(t.len() as int == h as int * wint);
    }

    let mut report: Vec<ColorEntry> = Vec::new();
    let mut pr: usize = 0;
    while pr < PALETTE_LEN
        invariant
            pr <= PALETTE_LEN,
            acc@.len() == PALETTE_LEN as int - pr as int,
            forall|j: int|
                0 <= j < acc@.len() ==> acc_entry_ok(
                    t,
                    av,
                    wint,
                    include_pixels,
                    (#[trigger] acc@[j])@,
                    j + pr as int,
                    nn,
                ),
            view_report(report@) == report_upto(t, av, wint, include_pixels, pr as int),
        decreases PALETTE_LEN - pr,
    {
        let ghost old_acc = acc@;
        let e = acc.remove(0);
        proof {
            old_acc.remove_ensures(0);
            assert(e@ == old_acc[0]@);
            assert(acc_entry_ok(t, av, wint, include_pixels, e@, pr as int, nn));
            assert forall|j: int| 0 <= j < acc@.len() implies acc_entry_ok(
                t,
                av,
                wint,
                include_pixels,
                (#[trigger] acc@[j])@,
                j + pr as int + 1,
                nn,
            ) by {
                assert(acc@[j] == old_acc[j + 1]);
            }
        }
        if e.total > 0 {
            proof {
                lemma_report_upto_props(t, av, wint, include_pixels, pr as int);
                crate::palette::lemma_palette_names_sorted();
            }
            let ghost oldm = view_report(report@);
            let rlen = report.len();
            let mut j: usize = 0;
            while j < rlen && e.total <= report[j].total
                invariant
                    j <= rlen,
                    forall|k: int| 0 <= k < j ==> !entry_lt(e@, #[trigger] oldm[k]),
                decreases rlen - j,
            {
                proof {
                    let q = choose|q: int|
                        0 <= q < pr && total_upto(t, q, nn) > 0 && oldm[j as int]
                            == entry_model_of(t, av, wint, include_pixels, q);
                    crate::palette::lemma_lex_lt_order(palette_name(q), palette_name(pr as int));
                    assert(!entry_lt(e@, oldm[j as int]));
                }
                j = j + 1;
            }
            proof {
                if j < rlen {
                    assert(entry_lt(e@, oldm[j as int]));
                }
                lemma_insert_sorted_at(oldm, e@, j as int);
            }
            report.insert(j, e);
            proof {
                let newm = view_report(report@);
                let ins = insert_sorted(oldm, e@);
                oldm.insert_ensures(j as int, e@);
                assert forall|k: int| 0 <= k < newm.len() implies newm[k] == ins[k] by {
                    if k < j {
                        assert(report@[k] == report@.subrange(0, j as int).push(e)[k]);
                    }
                }
                assert(newm =~= ins);
                assert(e@ =~= entry_model_of(t, av, wint, include_pixels, pr as int));
            }
        } else {
            proof {
                lemma_counts_bounded(t, av, pr as int, wint, nn);
                assert(total_upto(t, pr as int, nn) == 0);
            }
        }
        pr = pr + 1;
    }
    Ok(report)
}

} // verus!
