//! The figures of the Apache dashboard, from the rows of its queries.

use crate::decimal::{signed_decimal, signed_decimal_text};
use crate::figures::{error_rate, error_rate_text, human_bytes, human_bytes_text};
use vstd::prelude::*;
use vstd::string::StringExecFns;

verus! {

/// Headline counters shown as KPI cards.
pub struct Kpis {
    pub requests: i64,
    pub unique_ips: i64,
    /// Human-readable.
    pub total_bytes: String,
    /// Such as `4.2%`.
    pub error_rate: String,
}

/// One bar of a chart or list: a label, its count, and a percentage from 0 to
/// 100 that is the size of the bar relative to the largest of its series.
pub struct Bar {
    pub label: String,
    pub count: i64,
    pub pct: i64,
    /// Colour class, used by the status breakdown.
    pub css: String,
}

/// What the dashboard shows.
pub struct Dashboard {
    pub kpis: Kpis,
    pub timeline: Vec<Bar>,
    pub statuses: Vec<Bar>,
    pub top_urls: Vec<Bar>,
    pub top_ips: Vec<Bar>,
    pub has_data: bool,
}

/// `count` relative to `max` in whole percent, held between 0 and 100.
pub open spec fn percent(count: int, max: int) -> int {
    if max <= 0 {
        0
    } else {
        let ratio = count * 100 / max;
        if ratio < 0 {
            0
        } else if ratio > 100 {
            100
        } else {
            ratio
        }
    }
}

/// Percentage of `count` relative to `max`, clamped to [0, 100].
pub fn pct(count: i64, max: i64) -> (r: i64)
    ensures
        r == percent(count as int, max as int),
        0 < count <= max ==> r * max <= 100 * count < (r + 1) * max,
        0 < max < count ==> r == 100,
        count <= 0 || max <= 0 ==> r == 0,
{
    proof {
        law_percent_is_proportional(count as int, max as int);
    }
    if max <= 0 || count <= 0 {
        proof {
            if max > 0 {
                assert(count * 100 / (max as int) <= 0) by (nonlinear_arith)
                    requires
                        count <= 0,
                        max > 0,
                ;
            }
        }
        0
    } else {
        let ratio: i128 = count as i128 * 100 / max as i128;
        if ratio > 100 {
            100
        } else {
            ratio as i64
        }
    }
}

/// The counts of a series of rows.
pub open spec fn counts<T>(rows: Seq<(T, i64)>) -> Seq<i64> {
    rows.map_values(|row: (T, i64)| row.1)
}

/// The largest count of a series, or 0 where the series is empty.
pub open spec fn series_max(counts: Seq<i64>) -> int
    decreases counts.len(),
{
    if counts.len() == 0 {
        0
    } else if counts.len() == 1 || series_max(counts.drop_last()) < counts.last() {
        counts.last() as int
    } else {
        series_max(counts.drop_last())
    }
}

fn max_count<T>(rows: &Vec<(T, i64)>) -> (r: i64)
    ensures
        r == series_max(counts(rows@)),
{
    let mut max: i64 = 0;
    let mut i: usize = 0;
    while i < rows.len()
        invariant
            i <= rows.len(),
            max == series_max(counts(rows@).take(i as int)),
        decreases rows.len() - i,
    {
        assert(counts(rows@).take(i + 1).drop_last() =~= counts(rows@).take(i as int));
        if i == 0 || max < rows[i].1 {
            max = rows[i].1;
        }
        i = i + 1;
    }
    assert(counts(rows@).take(i as int) =~= counts(rows@));
    max
}

/// A bar with the given label and colour class, scaled to `max`.
pub open spec fn is_bar(bar: Bar, label: Seq<char>, count: int, max: int, css: Seq<char>) -> bool {
    &&& bar.label@ == label
    &&& bar.count == count
    &&& bar.pct == percent(count, max)
    &&& bar.css@ == css
}

/// One bar for each labelled count, in the same order, scaled to the largest.
pub open spec fn are_bars(bars: Seq<Bar>, pairs: Seq<(String, i64)>, css: Seq<char>) -> bool {
    &&& bars.len() == pairs.len()
    &&& forall|i: int|
        0 <= i < bars.len() ==> is_bar(
            #[trigger] bars[i],
            pairs[i].0@,
            pairs[i].1 as int,
            series_max(counts(pairs)),
            css,
        )
}

/// Converts "(label, count)" pairs into bars, scaling each percentage to the
/// largest count.
pub fn to_bars(pairs: Vec<(String, i64)>, css: &str) -> (r: Vec<Bar>)
    ensures
        are_bars(r@, pairs@, css@),
{
    let max = max_count(&pairs);
    let mut bars: Vec<Bar> = Vec::new();
    for pair in it: pairs.into_iter()
        invariant
            it.seq() == pairs@,
            max == series_max(counts(pairs@)),
            bars@.len() == it.index(),
            forall|i: int|
                0 <= i < bars@.len() ==> is_bar(
                    #[trigger] bars@[i],
                    pairs@[i].0@,
                    pairs@[i].1 as int,
                    max as int,
                    css@,
                ),
    {
        let (label, count) = pair;
        bars.push(Bar { label, count, pct: pct(count, max), css: css.to_string() });
    }
    bars
}

/// The colour class of an HTTP status class.
pub open spec fn status_css(klass: int) -> Seq<char> {
    if klass == 2 {
        "ok"@
    } else if klass == 3 {
        "redir"@
    } else if klass == 4 {
        "warn"@
    } else {
        "err"@
    }
}

/// Maps an HTTP status class (2, 3, 4, 5) to a CSS colour class.
pub fn status_class(klass: i32) -> (r: String)
    ensures
        r@ == status_css(klass as int),
{
    match klass {
        2 => "ok",
        3 => "redir",
        4 => "warn",
        _ => "err",
    }.to_string()
}

/// One bar for each status class, in the same order, scaled to the largest
/// count.
pub open spec fn are_status_bars(bars: Seq<Bar>, rows: Seq<(i32, i64)>) -> bool {
    &&& bars.len() == rows.len()
    &&& forall|i: int|
        0 <= i < bars.len() ==> is_bar(
            #[trigger] bars[i],
            signed_decimal(rows[i].0 as int) + "xx"@,
            rows[i].1 as int,
            series_max(counts(rows)),
            status_css(rows[i].0 as int),
        )
}

/// Converts "(status class, count)" rows into bars such as `4xx`, each with
/// the colour of its class.
pub fn status_bars(rows: Vec<(i32, i64)>) -> (r: Vec<Bar>)
    ensures
        are_status_bars(r@, rows@),
{
    let max = max_count(&rows);
    let mut bars: Vec<Bar> = Vec::new();
    for row in it: rows.into_iter()
        invariant
            it.seq() == rows@,
            max == series_max(counts(rows@)),
            bars@.len() == it.index(),
            forall|i: int|
                0 <= i < bars@.len() ==> is_bar(
                    #[trigger] bars@[i],
                    signed_decimal(rows@[i].0 as int) + "xx"@,
                    rows@[i].1 as int,
                    max as int,
                    status_css(rows@[i].0 as int),
                ),
    {
        let (klass, count) = row;
        let mut label = signed_decimal_text(klass as i64);
        label.append("xx");
        bars.push(Bar { label, count, pct: pct(count, max), css: status_class(klass) });
    }
    bars
}

/// The figures of the KPI query: requests, distinct client hosts, bytes served
/// and requests with an error status. All are 0 where the query gave no row.
pub open spec fn kpi_figures(row: Option<(i64, i64, i64, i64)>) -> (i64, i64, i64, i64) {
    match row {
        Some(figures) => figures,
        None => (0, 0, 0, 0),
    }
}

/// The KPI cards for the figures of a row.
pub open spec fn are_kpis(kpis: Kpis, figures: (i64, i64, i64, i64)) -> bool {
    &&& kpis.requests == figures.0
    &&& kpis.unique_ips == figures.1
    &&& kpis.total_bytes@ == human_bytes_text(figures.2 as int)
    &&& kpis.error_rate@ == error_rate_text(figures.3 as int, figures.0 as int)
}

/// Builds what the dashboard shows from the rows of its queries: the KPI row
/// (requests, distinct hosts, bytes, errors), the timeline, the status classes,
/// the top paths and the top client hosts.
pub fn dashboard(
    kpi_row: Option<(i64, i64, i64, i64)>,
    timeline: Vec<(String, i64)>,
    statuses: Vec<(i32, i64)>,
    top_urls: Vec<(String, i64)>,
    top_ips: Vec<(String, i64)>,
) -> (r: Dashboard)
    ensures
        are_kpis(r.kpis, kpi_figures(kpi_row)),
        are_bars(r.timeline@, timeline@, Seq::<char>::empty()),
        are_status_bars(r.statuses@, statuses@),
        are_bars(r.top_urls@, top_urls@, Seq::<char>::empty()),
        are_bars(r.top_ips@, top_ips@, Seq::<char>::empty()),
        r.has_data <==> kpi_figures(kpi_row).0 > 0,
        kpi_row matches Some(row) ==> {
            &&& r.kpis.requests == row.0
            &&& r.kpis.unique_ips == row.1
            &&& r.kpis.total_bytes@ == human_bytes_text(row.2 as int)
            &&& r.kpis.error_rate@ == error_rate_text(row.3 as int, row.0 as int)
            &&& r.has_data <==> row.0 > 0
        },
        kpi_row is None ==> !r.has_data && r.kpis.requests == 0 && r.kpis.unique_ips == 0,
{
    let (requests, unique_ips, total_bytes, errors) = match kpi_row {
        Some(figures) => figures,
        None => (0, 0, 0, 0),
    };
    proof {
        reveal_strlit("");
        assert(""@ =~= Seq::<char>::empty());
    }
    Dashboard {
        kpis: Kpis {
            requests,
            unique_ips,
            total_bytes: human_bytes(total_bytes),
            error_rate: error_rate(errors, requests),
        },
        timeline: to_bars(timeline, ""),
        statuses: status_bars(statuses),
        top_urls: to_bars(top_urls, ""),
        top_ips: to_bars(top_ips, ""),
        has_data: requests > 0,
    }
}

/// The largest count bounds the series from above and is one of its counts.
proof fn lemma_series_max(counts: Seq<i64>)
    ensures
        forall|i: int| 0 <= i < counts.len() ==> (#[trigger] counts[i]) <= series_max(counts),
        counts.len() > 0 ==> exists|i: int|
            0 <= i < counts.len() && #[trigger] counts[i] == series_max(counts),
    decreases counts.len(),
{
    if counts.len() == 1 {
        assert(counts[0] == series_max(counts));
    } else if counts.len() > 1 {
        let front = counts.drop_last();
        lemma_series_max(front);
        assert forall|i: int| 0 <= i < counts.len() implies (#[trigger] counts[i])
            <= series_max(counts) by {
            if i < front.len() {
                assert(front[i] <= series_max(front));
            }
        }
        if series_max(front) < counts.last() {
            assert(counts[counts.len() - 1] == series_max(counts));
        } else {
            let i = choose|i: int|
                0 <= i < front.len() && #[trigger] front[i] == series_max(front);
            assert(counts[i] == series_max(counts));
        }
    }
}

/// A percentage lies between 0 and 100, and is 100 for the largest count where
/// that is positive.
pub proof fn law_percent_range(count: int, max: int)
    ensures
        0 <= percent(count, max) <= 100,
        max > 0 ==> percent(max, max) == 100,
{
    if max > 0 {
        assert(max * 100 / max == 100) by (nonlinear_arith)
            requires
                max > 0,
        ;
    }
}

/// A larger count has no smaller percentage.
pub proof fn law_percent_monotone(lesser: int, greater: int, max: int)
    requires
        lesser <= greater,
    ensures
        percent(lesser, max) <= percent(greater, max),
{
    if max > 0 {
        vstd::arithmetic::div_mod::lemma_div_is_ordered(lesser * 100, greater * 100, max);
    }
}

/// The bars of a series are sized from 0 to 100, relative to the largest
/// count: a bar with that count is full if the count is positive, and there is
/// one, and the bars are ordered as their counts are.
pub proof fn law_bars_scaled(bars: Seq<Bar>, pairs: Seq<(String, i64)>, css: Seq<char>)
    requires
        are_bars(bars, pairs, css),
    ensures
        well_scaled(bars),
{
    lemma_well_scaled(bars, counts(pairs));
}

/// The bars of the status breakdown are scaled in the same way.
pub proof fn law_status_bars_scaled(bars: Seq<Bar>, rows: Seq<(i32, i64)>)
    requires
        are_status_bars(bars, rows),
    ensures
        well_scaled(bars),
{
    lemma_well_scaled(bars, counts(rows));
}

/// Bars that are sized from 0 to 100 relative to the largest among them.
pub open spec fn well_scaled(bars: Seq<Bar>) -> bool {
    &&& forall|i: int| 0 <= i < bars.len() ==> 0 <= (#[trigger] bars[i]).pct <= 100
    &&& forall|i: int, j: int|
        0 <= i < bars.len() && 0 <= j < bars.len() && bars[i].count <= bars[j].count ==> (
        #[trigger] bars[i]).pct <= (#[trigger] bars[j]).pct
    &&& (exists|i: int| 0 <= i < bars.len() && (#[trigger] bars[i]).count > 0) ==> exists|i: int|
        0 <= i < bars.len() && (#[trigger] bars[i]).pct == 100
    &&& forall|i: int|
        0 <= i < bars.len() && (#[trigger] bars[i]).count <= 0 ==> bars[i].pct == 0
}

proof fn lemma_well_scaled(bars: Seq<Bar>, counts: Seq<i64>)
    requires
        bars.len() == counts.len(),
        forall|i: int|
            #![trigger bars[i]]
            0 <= i < bars.len() ==> bars[i].count == counts[i] && bars[i].pct == percent(
                counts[i] as int,
                series_max(counts),
            ),
    ensures
        well_scaled(bars),
{
    let max = series_max(counts);
    lemma_series_max(counts);
    assert forall|i: int| 0 <= i < bars.len() implies 0 <= (#[trigger] bars[i]).pct <= 100 by {
        law_percent_range(counts[i] as int, max);
    }
    assert forall|i: int, j: int|
        0 <= i < bars.len() && 0 <= j < bars.len() && bars[i].count <= bars[j].count implies (
    #[trigger] bars[i]).pct <= (#[trigger] bars[j]).pct by {
        law_percent_monotone(counts[i] as int, counts[j] as int, max);
    }
    assert forall|i: int|
        0 <= i < bars.len() && (#[trigger] bars[i]).count <= 0 implies bars[i].pct == 0 by {
        law_percent_range(0, max);
        law_percent_monotone(counts[i] as int, 0, max);
        if max > 0 {
            assert(0int / max == 0) by (nonlinear_arith)
                requires
                    max > 0,
            ;
        }
        law_percent_range(counts[i] as int, max);
    }
    if exists|i: int| 0 <= i < bars.len() && (#[trigger] bars[i]).count > 0 {
        let i = choose|i: int| 0 <= i < bars.len() && (#[trigger] bars[i]).count > 0;
        assert(counts[i] <= max);
        let j = choose|j: int| 0 <= j < counts.len() && #[trigger] counts[j] == max;
        law_percent_range(max, max);
        assert(bars[j].pct == 100);
    }
}

/// The size of a bar is proportional to its count: for a count within the series
/// it is the share of the largest in percent, rounded down.
pub proof fn law_percent_is_proportional(count: int, max: int)
    ensures
        0 <= count <= max && max > 0 ==> percent(count, max) * max <= 100 * count < (percent(
            count,
            max,
        ) + 1) * max,
        0 < max <= count ==> percent(count, max) == 100,
        count <= 0 || max <= 0 ==> percent(count, max) == 0,
{
    if max > 0 {
        let ratio = count * 100 / max;
        vstd::arithmetic::div_mod::lemma_fundamental_div_mod(count * 100, max);
        vstd::arithmetic::div_mod::lemma_mod_bound(count * 100, max);
        assert(max * ratio == ratio * max && (ratio + 1) * max == ratio * max + max)
            by (nonlinear_arith);
        if count <= 0 {
            assert(ratio <= 0) by (nonlinear_arith)
                requires
                    ratio * max <= count * 100,
                    count <= 0,
                    max > 0,
            ;
        } else {
            assert(ratio >= 0) by (nonlinear_arith)
                requires
                    ratio * max + max > 0,
                    max > 0,
            ;
        }
        if 0 <= count <= max {
            assert(ratio <= 100) by (nonlinear_arith)
                requires
                    ratio * max <= count * 100,
                    count <= max,
                    max > 0,
            ;
        }
        if count >= max {
            assert(ratio >= 100) by (nonlinear_arith)
                requires
                    ratio * max + max > count * 100,
                    count >= max,
                    max > 0,
            ;
        }
        if count == 0 {
            assert(ratio == 0) by (nonlinear_arith)
                requires
                    0 <= ratio,
                    ratio * max <= 0,
                    max > 0,
            ;
        }
    }
}

/// What a series is scaled to is its largest count: no count is above it, and it
/// is one of them. An empty series is scaled to 0.
pub proof fn law_series_max_is_the_largest(counts: Seq<i64>)
    ensures
        forall|i: int| 0 <= i < counts.len() ==> (#[trigger] counts[i]) <= series_max(counts),
        counts.len() > 0 ==> exists|i: int|
            0 <= i < counts.len() && #[trigger] counts[i] == series_max(counts),
        counts.len() == 0 ==> series_max(counts) == 0,
{
    lemma_series_max(counts);
}

/// Each row has its bar, in the same place: with its label and count and the
/// colour class of the series, and with the size that its count has relative to
/// the largest of the rows.
pub proof fn law_bars_show_the_rows(
    bars: Seq<Bar>,
    pairs: Seq<(String, i64)>,
    css: Seq<char>,
    largest: int,
)
    requires
        are_bars(bars, pairs, css),
        pairs.len() > 0 ==> 0 <= largest < pairs.len(),
        forall|j: int| 0 <= j < pairs.len() ==> (#[trigger] pairs[j]).1 <= pairs[largest].1,
    ensures
        bars.len() == pairs.len(),
        forall|i: int|
            0 <= i < pairs.len() ==> {
                let max = pairs[largest].1;
                &&& (#[trigger] bars[i]).label@ == pairs[i].0@
                &&& bars[i].count == pairs[i].1
                &&& bars[i].css@ == css
                &&& 0 < pairs[i].1 ==> bars[i].pct * max <= 100 * pairs[i].1 < (bars[i].pct + 1)
                    * max
                &&& pairs[i].1 <= 0 ==> bars[i].pct == 0
            },
{
    let max = series_max(counts(pairs));
    if pairs.len() > 0 {
        lemma_largest(counts(pairs), largest, |j: int| pairs[j].1);
    }
    assert forall|i: int| 0 <= i < pairs.len() implies {
        &&& (#[trigger] bars[i]).label@ == pairs[i].0@
        &&& bars[i].count == pairs[i].1
        &&& bars[i].css@ == css
        &&& 0 < pairs[i].1 ==> bars[i].pct * max <= 100 * pairs[i].1 < (bars[i].pct + 1) * max
        &&& pairs[i].1 <= 0 ==> bars[i].pct == 0
    } by {
        law_percent_is_proportional(pairs[i].1 as int, max);
        assert(pairs[i].1 <= pairs[largest].1);
    }
}

/// Each status class has its bar, in the same place: labelled with the class and
/// `xx`, in its colour, and with the size that its count has relative to the
/// largest of the rows.
pub proof fn law_status_bars_show_the_rows(bars: Seq<Bar>, rows: Seq<(i32, i64)>, largest: int)
    requires
        are_status_bars(bars, rows),
        rows.len() > 0 ==> 0 <= largest < rows.len(),
        forall|j: int| 0 <= j < rows.len() ==> (#[trigger] rows[j]).1 <= rows[largest].1,
    ensures
        bars.len() == rows.len(),
        forall|i: int|
            0 <= i < rows.len() ==> {
                let max = rows[largest].1;
                &&& (#[trigger] bars[i]).label@ == signed_decimal(rows[i].0 as int) + "xx"@
                &&& bars[i].count == rows[i].1
                &&& bars[i].css@ == "ok"@ <==> rows[i].0 == 2
                &&& bars[i].css@ == "redir"@ <==> rows[i].0 == 3
                &&& bars[i].css@ == "warn"@ <==> rows[i].0 == 4
                &&& bars[i].css@ == "err"@ <==> rows[i].0 < 2 || rows[i].0 > 4
                &&& 0 < rows[i].1 ==> bars[i].pct * max <= 100 * rows[i].1 < (bars[i].pct + 1) * max
                &&& rows[i].1 <= 0 ==> bars[i].pct == 0
            },
{
    let max = series_max(counts(rows));
    if rows.len() > 0 {
        lemma_largest(counts(rows), largest, |j: int| rows[j].1);
    }
    assert forall|i: int| 0 <= i < rows.len() implies {
        &&& (#[trigger] bars[i]).label@ == signed_decimal(rows[i].0 as int) + "xx"@
        &&& bars[i].count == rows[i].1
        &&& bars[i].css@ == "ok"@ <==> rows[i].0 == 2
        &&& bars[i].css@ == "redir"@ <==> rows[i].0 == 3
        &&& bars[i].css@ == "warn"@ <==> rows[i].0 == 4
        &&& bars[i].css@ == "err"@ <==> rows[i].0 < 2 || rows[i].0 > 4
        &&& 0 < rows[i].1 ==> bars[i].pct * max <= 100 * rows[i].1 < (bars[i].pct + 1) * max
        &&& rows[i].1 <= 0 ==> bars[i].pct == 0
    } by {
        law_percent_is_proportional(rows[i].1 as int, max);
        law_status_colours(rows[i].0 as int);
        assert(rows[i].1 <= rows[largest].1);
    }
}

/// The colour class tells the status classes 2, 3 and 4 from each other and from
/// every other, which is an error.
pub proof fn law_status_colours(klass: int)
    ensures
        status_css(klass) == "ok"@ <==> klass == 2,
        status_css(klass) == "redir"@ <==> klass == 3,
        status_css(klass) == "warn"@ <==> klass == 4,
        status_css(klass) == "err"@ <==> klass < 2 || klass > 4,
{
    reveal_strlit("ok");
    reveal_strlit("redir");
    reveal_strlit("warn");
    reveal_strlit("err");
    assert("ok"@.len() == 2 && "err"@.len() == 3 && "warn"@.len() == 4 && "redir"@.len() == 5);
}

/// A count that none exceeds is what the series is scaled to.
proof fn lemma_largest(counts: Seq<i64>, largest: int, count: spec_fn(int) -> i64)
    requires
        0 <= largest < counts.len(),
        forall|j: int| 0 <= j < counts.len() ==> #[trigger] counts[j] == count(j),
        forall|j: int| 0 <= j < counts.len() ==> #[trigger] count(j) <= count(largest),
    ensures
        series_max(counts) == counts[largest],
{
    lemma_series_max(counts);
    let j = choose|j: int| 0 <= j < counts.len() && #[trigger] counts[j] == series_max(counts);
    assert(count(j) <= count(largest));
    assert(counts[largest] == count(largest));
}

/// The cards show the row that the query gave, whatever it holds: its requests,
/// its hosts, its bytes, and its errors in relation to its requests. Without a
/// row they show zeros.
pub proof fn law_kpis_show_the_row(kpis: Kpis, kpi_row: Option<(i64, i64, i64, i64)>)
    requires
        are_kpis(kpis, kpi_figures(kpi_row)),
    ensures
        kpi_row matches Some(row) ==> {
            &&& kpi_figures(kpi_row) == row
            &&& kpis.requests == row.0
            &&& kpis.unique_ips == row.1
            &&& kpis.total_bytes@ == human_bytes_text(row.2 as int)
            &&& kpis.error_rate@ == error_rate_text(row.3 as int, row.0 as int)
        },
        kpi_row is None ==> {
            &&& kpi_figures(kpi_row) == (0i64, 0i64, 0i64, 0i64)
            &&& kpis.requests == 0 && kpis.unique_ips == 0
            &&& kpis.total_bytes@ == human_bytes_text(0)
            &&& kpis.error_rate@ == error_rate_text(0, 0)
        },
{
}

} // verus!
