//! Row alignment and merging: wrapped panes of possibly different heights
//! are aligned into row groups (one group per original line index), and each
//! row group is joined horizontally, padding every pane's sub-lines to the
//! pane's fixed width and inserting the caller's delimiters between panes.

use vstd::prelude::*;

use crate::widths::{char_width, str_width, spaces, width_within, make_spaces};
use crate::wrap::{Pane, WrappedLine, WrappedPane, wrap_spec};
use vstd::string::StringExecFns;

verus! {

/// The sub-lines of each entry of a row group, in pane order.
pub open spec fn group_subs(g: Seq<WrappedLine>) -> Seq<Seq<Seq<char>>> {
    g.map_values(|wl: WrappedLine| wl@)
}

/// The fixed width of each entry of a row group, in pane order.
pub open spec fn group_widths(g: Seq<WrappedLine>) -> Seq<nat> {
    g.map_values(|wl: WrappedLine| wl.width as nat)
}

/// The text lines of each pane, in pane order.
pub open spec fn pane_lines(ps: Seq<Pane>) -> Seq<Seq<Seq<char>>> {
    ps.map_values(|p: Pane| p.lines.deep_view())
}

/// The fixed width of each pane, in pane order.
pub open spec fn pane_widths(ps: Seq<Pane>) -> Seq<nat> {
    ps.map_values(|p: Pane| p.width as nat)
}

/// The wrapped panes as nested sequences: per pane, per original line, the
/// wrapped sub-lines.
pub open spec fn wrap_all(pls: Seq<Seq<Seq<char>>>, ws: Seq<nat>) -> Seq<Seq<Seq<Seq<char>>>> {
    Seq::new(pls.len(), |p: int| Seq::new(pls[p].len(), |l: int| wrap_spec(pls[p][l], ws[p])))
}

/// The greatest length among the inner sequences.
pub open spec fn max_height<A>(ss: Seq<Seq<A>>) -> nat
    decreases ss.len(),
{
    if ss.len() == 0 {
        0nat
    } else {
        let rest = max_height(ss.drop_last());
        if ss.last().len() > rest {
            ss.last().len()
        } else {
            rest
        }
    }
}

/// Row group `r`: for each pane in order, its wrapped line at index `r`,
/// or no sub-lines at all when the pane has fewer lines.
pub open spec fn group_at(wrapped: Seq<Seq<Seq<Seq<char>>>>, r: int) -> Seq<Seq<Seq<char>>> {
    Seq::new(
        wrapped.len(),
        |p: int|
            if 0 <= r < wrapped[p].len() {
                wrapped[p][r]
            } else {
                Seq::<Seq<char>>::empty()
            },
    )
}

/// The row groups of the whole layout, one per original line index up to
/// the tallest pane's line count.
pub open spec fn row_groups(pls: Seq<Seq<Seq<char>>>, ws: Seq<nat>) -> Seq<
    Seq<Seq<Seq<char>>>,
> {
    Seq::new(max_height(wrap_all(pls, ws)), |r: int| group_at(wrap_all(pls, ws), r))
}

/// A sub-line right-padded with spaces to `w` columns; one already wider
/// than `w` (a lone over-wide character) is left as it is.
pub open spec fn pad_to(s: Seq<char>, w: nat) -> Seq<char> {
    if str_width(s) <= w {
        s + spaces((w - str_width(s)) as nat)
    } else {
        s
    }
}

/// Pane `p`'s contribution to merged row line `i`: its `i`-th sub-line
/// padded to the pane's width, or a full run of spaces when the pane has no
/// `i`-th sub-line.
pub open spec fn cell_at(subs: Seq<Seq<Seq<char>>>, ws: Seq<nat>, p: int, i: int) -> Seq<char> {
    pad_to(
        if 0 <= i < subs[p].len() {
            subs[p][i]
        } else {
            Seq::<char>::empty()
        },
        ws[p],
    )
}

/// The prefix of merged row line `i` covering the first `p` panes and the
/// delimiters standing between them.
pub open spec fn merged_prefix(
    subs: Seq<Seq<Seq<char>>>,
    ws: Seq<nat>,
    ds: Seq<Seq<char>>,
    i: int,
    p: int,
) -> Seq<char>
    decreases p,
{
    if p <= 0 {
        Seq::empty()
    } else if p == 1 {
        cell_at(subs, ws, 0, i)
    } else {
        merged_prefix(subs, ws, ds, i, p - 1) + ds[p - 2] + cell_at(subs, ws, p - 1, i)
    }
}

/// Line `i` of a merged row group: every pane's padded contribution in pane
/// order, with each delimiter inserted verbatim between adjacent panes.
pub open spec fn merged_row_at(
    subs: Seq<Seq<Seq<char>>>,
    ws: Seq<nat>,
    ds: Seq<Seq<char>>,
    i: int,
) -> Seq<char> {
    merged_prefix(subs, ws, ds, i, subs.len() as int)
}

/// All lines of a merged row group, in sub-line order: as many as the
/// tallest entry's sub-line count.
pub open spec fn merged_rows(subs: Seq<Seq<Seq<char>>>, ws: Seq<nat>, ds: Seq<Seq<char>>) -> Seq<
    Seq<char>,
> {
    Seq::new(max_height(subs), |i: int| merged_row_at(subs, ws, ds, i))
}

/// The whole pipeline: wrap every pane, group the wrapped lines by original
/// line index, merge every group, and flatten the merged rows in order.
pub open spec fn vsplit_spec(
    pls: Seq<Seq<Seq<char>>>,
    ws: Seq<nat>,
    ds: Seq<Seq<char>>,
) -> Seq<Seq<char>> {
    row_groups(pls, ws).map_values(|g: Seq<Seq<Seq<char>>>| merged_rows(g, ws, ds)).flatten()
}

/// Extending a sequence by one inner sequence caps the height at that
/// sequence's length or keeps the old maximum, whichever is greater.
proof fn lemma_max_height_take_succ<A>(ss: Seq<Seq<A>>, p: int)
    requires
        0 <= p < ss.len(),
    ensures
        max_height(ss.take(p + 1)) == if ss[p].len() > max_height(ss.take(p)) {
            ss[p].len()
        } else {
            max_height(ss.take(p))
        },
{
    assert(ss.take(p + 1).drop_last() =~= ss.take(p));
    assert(ss.take(p + 1).last() == ss[p]);
}

/// Two nested sequences whose inner lengths agree have the same height.
proof fn lemma_max_height_congruence<A, B>(a: Seq<Seq<A>>, b: Seq<Seq<B>>)
    requires
        a.len() == b.len(),
        forall|p: int| 0 <= p < a.len() ==> a[p].len() == b[p].len(),
    ensures
        max_height(a) == max_height(b),
    decreases a.len(),
{
    if a.len() > 0 {
        assert(forall|p: int|
            0 <= p < a.drop_last().len() ==> a.drop_last()[p].len() == b.drop_last()[p].len());
        lemma_max_height_congruence(a.drop_last(), b.drop_last());
        assert(a.last().len() == b.last().len());
    }
}

/// One row group of wrapped lines, one entry per pane, in pane order.
pub struct RowGroup {
    /// Each pane's wrapped line for this row, blank entries included.
    pub panes: Vec<WrappedLine>,
}

/// The wrapped panes as nested sequences, for stating what `transpose`
/// builds.
pub open spec fn wrapped_model(wps: Seq<WrappedPane>) -> Seq<Seq<Seq<Seq<char>>>> {
    wps.map_values(|wp: WrappedPane| wp.lines@.map_values(|wl: WrappedLine| wl@))
}

/// Aligns wrapped panes of differing heights into row groups: one group per
/// original line index, each holding every pane's wrapped line at that
/// index, with an empty wrapped line standing in for panes that have fewer
/// lines.
pub fn transpose(wrapped: Vec<WrappedPane>) -> (r: Vec<RowGroup>)
    requires
        forall|p: int| 0 <= p < wrapped@.len() ==> (#[trigger] wrapped@[p]).wf(),
    ensures
        r@.len() == max_height(wrapped_model(wrapped@)),
        forall|rr: int| 0 <= rr < r@.len() ==> (#[trigger] r@[rr]).panes@.len() == wrapped@.len(),
        forall|rr: int|
            0 <= rr < r@.len() ==> group_subs((#[trigger] r@[rr]).panes@) == group_at(
                wrapped_model(wrapped@),
                rr,
            ),
        forall|rr: int, p: int|
            0 <= rr < r@.len() && 0 <= p < wrapped@.len() ==> (#[trigger] r@[rr].panes@[p]).width
                == wrapped@[p].width,
{
    let ghost model = wrapped_model(wrapped@);
    let n = wrapped.len();

    let mut max_lines: usize = 0;
    let mut p: usize = 0;
    while p < n
        invariant
            p <= n,
            n == wrapped@.len(),
            model == wrapped_model(wrapped@),
            max_lines as nat == max_height(model.take(p as int)),
        decreases n - p,
    {
        proof {
            lemma_max_height_take_succ(model, p as int);
        }
        if wrapped[p].lines.len() > max_lines {
            max_lines = wrapped[p].lines.len();
        }
        p = p + 1;
    }
    proof {
        assert(model.take(n as int) =~= model);
    }

    let mut groups: Vec<RowGroup> = Vec::new();
    let mut rr: usize = 0;
    while rr < max_lines
        invariant
            rr <= max_lines,
            n == wrapped@.len(),
            model == wrapped_model(wrapped@),
            max_lines as nat == max_height(model),
            forall|p: int| 0 <= p < wrapped@.len() ==> (#[trigger] wrapped@[p]).wf(),
            groups@.len() == rr,
            forall|k: int| 0 <= k < rr ==> (#[trigger] groups@[k]).panes@.len() == n,
            forall|k: int|
                0 <= k < rr ==> group_subs((#[trigger] groups@[k]).panes@) == group_at(model, k),
            forall|k: int, p: int|
                0 <= k < rr && 0 <= p < n ==> (#[trigger] groups@[k].panes@[p]).width
                    == wrapped@[p].width,
        decreases max_lines - rr,
    {
        let mut row: Vec<WrappedLine> = Vec::new();
        let mut p: usize = 0;
        while p < n
            invariant
                p <= n,
                rr < max_lines,
                n == wrapped@.len(),
                model == wrapped_model(wrapped@),
                forall|q: int| 0 <= q < wrapped@.len() ==> (#[trigger] wrapped@[q]).wf(),
                row@.len() == p,
                forall|q: int|
                    0 <= q < p ==> (#[trigger] row@[q])@ == group_at(model, rr as int)[q],
                forall|q: int| 0 <= q < p ==> (#[trigger] row@[q]).width == wrapped@[q].width,
            decreases n - p,
        {
            if rr < wrapped[p].lines.len() {
                let wl = wrapped[p].lines[rr].clone();
                row.push(wl);
            } else {
                row.push(WrappedLine::new(wrapped[p].width));
            }
            p = p + 1;
        }
        proof {
            assert(group_subs(row@) =~= group_at(model, rr as int));
        }
        groups.push(RowGroup { panes: row });
        rr = rr + 1;
    }
    groups
}

/// Merges one row group into its physical output lines: for each sub-line
/// index up to the tallest entry, every pane's padded contribution in pane
/// order with the delimiters inserted between adjacent panes.
pub fn merge(row: &RowGroup, delims: &Vec<String>) -> (out: Vec<String>)
    requires
        row.panes@.len() == delims@.len() + 1,
    ensures
        out.deep_view() == merged_rows(
            group_subs(row.panes@),
            group_widths(row.panes@),
            delims.deep_view(),
        ),
{
    let ghost subs = group_subs(row.panes@);
    let ghost ws = group_widths(row.panes@);
    let ghost ds = delims.deep_view();
    let n = row.panes.len();

    let mut k: usize = 0;
    let mut p: usize = 0;
    while p < n
        invariant
            p <= n,
            n == row.panes@.len(),
            subs == group_subs(row.panes@),
            k as nat == max_height(subs.take(p as int)),
        decreases n - p,
    {
        proof {
            lemma_max_height_take_succ(subs, p as int);
            assert(subs[p as int] == row.panes@[p as int]@);
        }
        if row.panes[p].subs.len() > k {
            k = row.panes[p].subs.len();
        }
        p = p + 1;
    }
    proof {
        assert(subs.take(n as int) =~= subs);
    }

    let mut out: Vec<String> = Vec::new();
    let mut i: usize = 0;
    while i < k
        invariant
            i <= k,
            n == row.panes@.len(),
            n == delims@.len() + 1,
            subs == group_subs(row.panes@),
            ws == group_widths(row.panes@),
            ds == delims.deep_view(),
            k as nat == max_height(subs),
            out@.len() == i,
            forall|j: int|
                0 <= j < i ==> (#[trigger] out@[j])@ == merged_row_at(subs, ws, ds, j),
        decreases k - i,
    {
        let mut line = String::new();
        let mut p: usize = 0;
        while p < n
            invariant
                p <= n,
                i < k,
                n == row.panes@.len(),
                n == delims@.len() + 1,
                subs == group_subs(row.panes@),
                ws == group_widths(row.panes@),
                ds == delims.deep_view(),
                line@ == merged_prefix(subs, ws, ds, i as int, p as int),
            decreases n - p,
        {
            let ghost prev = line@;
            if p > 0 {
                line.append(delims[p - 1].as_str());
            }
            let ghost start = line@;
            let pane = &row.panes[p];
            proof {
                assert(subs[p as int] == row.panes@[p as int]@);
                assert(ws[p as int] == row.panes@[p as int].width as nat);
            }
            if i < pane.subs.len() {
                let sub = &pane.subs[i];
                proof {
                    assert(sub@ == subs[p as int][i as int]);
                }
                line.append(sub.as_str());
                match width_within(sub.as_str(), pane.width) {
                    Some(sw) => {
                        let pad = make_spaces(pane.width - sw);
                        line.append(pad.as_str());
                        proof {
                            assert(line@ =~= start + cell_at(subs, ws, p as int, i as int));
                        }
                    },
                    None => {
                        proof {
                            assert(line@ =~= start + cell_at(subs, ws, p as int, i as int));
                        }
                    },
                }
            } else {
                let pad = make_spaces(pane.width);
                line.append(pad.as_str());
                proof {
                    assert(Seq::<char>::empty() + spaces(ws[p as int]) =~= spaces(
                        ws[p as int],
                    ));
                    assert(line@ =~= start + cell_at(subs, ws, p as int, i as int));
                }
            }
            proof {
                let cell = cell_at(subs, ws, p as int, i as int);
                if p == 0 {
                    assert(line@ =~= cell);
                } else {
                    assert(start =~= prev + ds[p - 1]);
                    assert(line@ =~= merged_prefix(subs, ws, ds, i as int, p as int) + ds[p
                        - 1] + cell);
                }
            }
            p = p + 1;
        }
        proof {
            assert(line@ == merged_row_at(subs, ws, ds, i as int));
        }
        out.push(line);
        i = i + 1;
    }
    proof {
        assert(out.deep_view() =~= merged_rows(subs, ws, ds));
    }
    out
}

/// Renders the panes side by side: wraps every pane to its own width,
/// aligns the wrapped panes row by row, merges each row group with the
/// delimiters, and flattens the merged rows, in top-to-bottom order, into
/// the final output lines. There must be exactly one delimiter fewer than
/// there are panes.
pub fn vsplit(panes: Vec<Pane>, delims: Vec<String>) -> (r: Vec<String>)
    requires
        panes@.len() == delims@.len() + 1,
    ensures
        r.deep_view() == vsplit_spec(pane_lines(panes@), pane_widths(panes@), delims.deep_view()),
{
    let ghost panes0 = panes@;
    let ghost pls = pane_lines(panes@);
    let ghost ws = pane_widths(panes@);
    let ghost ds = delims.deep_view();

    let mut remaining = panes;
    let mut wrapped: Vec<WrappedPane> = Vec::new();
    while remaining.len() > 0
        invariant
            wrapped@.len() + remaining@.len() == panes0.len(),
            remaining@ == panes0.skip(wrapped@.len() as int),
            forall|q: int|
                0 <= q < wrapped@.len() ==> (#[trigger] wrapped@[q]).width == panes0[q].width,
            forall|q: int| 0 <= q < wrapped@.len() ==> (#[trigger] wrapped@[q]).wf(),
            forall|q: int|
                0 <= q < wrapped@.len() ==> (#[trigger] wrapped@[q]).lines@.len()
                    == panes0[q].lines@.len(),
            forall|q: int, l: int|
                0 <= q < wrapped@.len() && 0 <= l < panes0[q].lines@.len()
                    ==> (#[trigger] wrapped@[q].lines@[l])@ == wrap_spec(
                    panes0[q].lines@[l]@,
                    panes0[q].width as nat,
                ),
        decreases remaining@.len(),
    {
        let ghost j = wrapped@.len() as int;
        let pane = remaining.remove(0);
        proof {
            assert(pane == panes0[j]);
            assert(remaining@ =~= panes0.skip(j + 1));
        }
        let wp = crate::wrap::wrap_pane(pane);
        wrapped.push(wp);
    }

    proof {
        assert forall|p: int| 0 <= p < panes0.len() implies wrapped_model(wrapped@)[p]
            =~= wrap_all(pls, ws)[p] by {
            assert(wrapped_model(wrapped@)[p] == wrapped@[p].lines@.map_values(
                |wl: WrappedLine| wl@,
            ));
            assert forall|l: int| 0 <= l < panes0[p].lines@.len() implies wrapped_model(
                wrapped@,
            )[p][l] == wrap_all(pls, ws)[p][l] by {
                assert(pls[p] == panes0[p].lines.deep_view());
                assert(pls[p][l] == panes0[p].lines@[l]@);
                assert(ws[p] == panes0[p].width as nat);
            }
        }
        assert(wrapped_model(wrapped@) =~= wrap_all(pls, ws));
    }

    let groups = transpose(wrapped);

    let ghost blocks = row_groups(pls, ws).map_values(
        |g: Seq<Seq<Seq<char>>>| merged_rows(g, ws, ds),
    );
    let mut out: Vec<String> = Vec::new();
    let mut r: usize = 0;
    while r < groups.len()
        invariant
            r <= groups@.len(),
            groups@.len() == blocks.len(),
            blocks == row_groups(pls, ws).map_values(
                |g: Seq<Seq<Seq<char>>>| merged_rows(g, ws, ds),
            ),
            ds == delims.deep_view(),
            delims@.len() + 1 == panes0.len(),
            ws == pane_widths(panes0),
            forall|rr: int|
                0 <= rr < groups@.len() ==> (#[trigger] groups@[rr]).panes@.len() == panes0.len(),
            forall|rr: int|
                0 <= rr < groups@.len() ==> group_subs((#[trigger] groups@[rr]).panes@)
                    == row_groups(pls, ws)[rr],
            forall|rr: int, p: int|
                0 <= rr < groups@.len() && 0 <= p < panes0.len()
                    ==> (#[trigger] groups@[rr].panes@[p]).width as nat == ws[p],
            out.deep_view() == blocks.take(r as int).flatten(),
        decreases groups@.len() - r,
    {
        let ghost out_before = out.deep_view();
        let mut merged = merge(&groups[r], &delims);
        proof {
            assert(group_widths(groups@[r as int].panes@) =~= ws);
            assert(merged.deep_view() == merged_rows(row_groups(pls, ws)[r as int], ws, ds));
            assert(blocks[r as int] == merged_rows(row_groups(pls, ws)[r as int], ws, ds));
        }
        let ghost merged_dv = merged.deep_view();
        out.append(&mut merged);
        proof {
            assert(out.deep_view() =~= out_before + merged_dv);
            blocks.take(r as int).lemma_flatten_push(blocks[r as int]);
            assert(blocks.take(r as int).push(blocks[r as int]) =~= blocks.take(r as int + 1));
        }
        r = r + 1;
    }
    proof {
        assert(blocks.take(groups@.len() as int) =~= blocks);
    }
    out
}

/// The sum of the first `p` pane widths.
pub open spec fn width_sum(ws: Seq<nat>, p: int) -> nat
    decreases p,
{
    if p <= 0 {
        0nat
    } else {
        width_sum(ws, p - 1) + ws[p - 1]
    }
}

/// The sum of the display widths of the first `p` delimiters.
pub open spec fn delim_width_sum(ds: Seq<Seq<char>>, p: int) -> nat
    decreases p,
{
    if p <= 0 {
        0nat
    } else {
        delim_width_sum(ds, p - 1) + str_width(ds[p - 1])
    }
}

/// The display width of every merged output line: the sum of all pane
/// widths plus the display widths of all delimiters.
pub open spec fn total_width(ws: Seq<nat>, ds: Seq<Seq<char>>) -> nat {
    width_sum(ws, ws.len() as int) + delim_width_sum(ds, ds.len() as int)
}

/// Row-count law: the pipeline builds one row group per original line
/// index, so exactly as many groups as the tallest pane has lines; a group
/// holds each pane's wrapped line at that index, and a pane with fewer
/// lines contributes an empty entry to each of the remaining groups.
pub proof fn lemma_row_count(pls: Seq<Seq<Seq<char>>>, ws: Seq<nat>)
    ensures
        row_groups(pls, ws).len() == max_height(pls),
        forall|r: int, p: int|
            0 <= r < max_height(pls) && 0 <= p < pls.len() && r < pls[p].len() ==> row_groups(
                pls,
                ws,
            )[r][p] == wrap_spec(pls[p][r], ws[p]),
        forall|r: int, p: int|
            0 <= r < max_height(pls) && 0 <= p < pls.len() && pls[p].len() <= r ==> row_groups(
                pls,
                ws,
            )[r][p] == Seq::<Seq<char>>::empty(),
{
    let wrapped = wrap_all(pls, ws);
    assert(forall|p: int| 0 <= p < pls.len() ==> (#[trigger] wrapped[p]).len() == pls[p].len());
    lemma_max_height_congruence(wrapped, pls);
}

/// A sub-line that fits is padded to exactly the target width.
proof fn lemma_pad_to_width(s: Seq<char>, w: nat)
    requires
        str_width(s) <= w,
    ensures
        str_width(pad_to(s, w)) == w,
{
    crate::widths::lemma_spaces_width((w - str_width(s)) as nat);
    crate::widths::lemma_str_width_concat(s, spaces((w - str_width(s)) as nat));
}

/// When every sub-line of pane `p` fits the pane's width, the pane's
/// contribution to any merged line is exactly the pane's width.
proof fn lemma_cell_width(subs: Seq<Seq<Seq<char>>>, ws: Seq<nat>, p: int, i: int)
    requires
        0 <= p < subs.len(),
        forall|t: int| 0 <= t < subs[p].len() ==> str_width(#[trigger] subs[p][t]) <= ws[p],
    ensures
        str_width(cell_at(subs, ws, p, i)) == ws[p],
{
    if 0 <= i < subs[p].len() {
        lemma_pad_to_width(subs[p][i], ws[p]);
    } else {
        assert(str_width(Seq::<char>::empty()) == 0);
        lemma_pad_to_width(Seq::<char>::empty(), ws[p]);
    }
}

proof fn lemma_merged_prefix_width(
    subs: Seq<Seq<Seq<char>>>,
    ws: Seq<nat>,
    ds: Seq<Seq<char>>,
    i: int,
    p: int,
)
    requires
        1 <= p <= subs.len(),
        ws.len() == subs.len(),
        ds.len() + 1 == subs.len(),
        forall|q: int, t: int|
            0 <= q < subs.len() && 0 <= t < subs[q].len() ==> str_width(#[trigger] subs[q][t])
                <= ws[q],
    ensures
        str_width(merged_prefix(subs, ws, ds, i, p)) == width_sum(ws, p) + delim_width_sum(
            ds,
            p - 1,
        ),
    decreases p,
{
    if p == 1 {
        lemma_cell_width(subs, ws, 0, i);
        assert(merged_prefix(subs, ws, ds, i, p) == cell_at(subs, ws, 0, i));
        assert(width_sum(ws, 1) == width_sum(ws, 0) + ws[0]);
        assert(delim_width_sum(ds, 0) == 0);
    } else {
        lemma_merged_prefix_width(subs, ws, ds, i, p - 1);
        lemma_cell_width(subs, ws, p - 1, i);
        let prev = merged_prefix(subs, ws, ds, i, p - 1);
        let cell = cell_at(subs, ws, p - 1, i);
        assert(merged_prefix(subs, ws, ds, i, p) == prev + ds[p - 2] + cell);
        crate::widths::lemma_str_width_concat(prev, ds[p - 2]);
        crate::widths::lemma_str_width_concat(prev + ds[p - 2], cell);
        assert(width_sum(ws, p) == width_sum(ws, p - 1) + ws[p - 1]);
        assert(delim_width_sum(ds, p - 1) == delim_width_sum(ds, p - 2) + str_width(ds[p - 2]));
    }
}

/// Every element of the flattening of blocks of uniformly `w`-wide lines
/// is `w` wide.
proof fn lemma_flatten_uniform_width(bs: Seq<Seq<Seq<char>>>, w: nat)
    requires
        forall|r: int, t: int|
            0 <= r < bs.len() && 0 <= t < bs[r].len() ==> str_width(#[trigger] bs[r][t]) == w,
    ensures
        forall|k: int|
            0 <= k < bs.flatten().len() ==> str_width(#[trigger] bs.flatten()[k]) == w,
    decreases bs.len(),
{
    if bs.len() == 0 {
        assert(bs.flatten() =~= Seq::<Seq<char>>::empty());
    } else {
        let tail = bs.drop_first();
        assert(forall|r: int, t: int|
            0 <= r < tail.len() && 0 <= t < tail[r].len() ==> str_width(#[trigger] tail[r][t])
                == w) by {
            assert(forall|r: int| 0 <= r < tail.len() ==> #[trigger] tail[r] == bs[r + 1]);
        }
        lemma_flatten_uniform_width(tail, w);
        assert(bs.flatten() == bs.first() + tail.flatten());
        assert forall|k: int| 0 <= k < bs.flatten().len() implies str_width(
            #[trigger] bs.flatten()[k],
        ) == w by {
            if k < bs.first().len() {
                assert(bs.flatten()[k] == bs.first()[k]);
                assert(bs.first() == bs[0]);
            } else {
                assert(bs.flatten()[k] == tail.flatten()[k - bs.first().len()]);
            }
        }
    }
}

/// Width-sum law: when every character of every pane line fits within its
/// own pane's width, every output line of the pipeline is exactly as wide
/// as the sum of the pane widths plus the widths of the delimiters.
pub proof fn lemma_width_sum(pls: Seq<Seq<Seq<char>>>, ws: Seq<nat>, ds: Seq<Seq<char>>)
    requires
        ws.len() == pls.len(),
        ds.len() + 1 == pls.len(),
        forall|p: int, l: int, j: int|
            0 <= p < pls.len() && 0 <= l < pls[p].len() && 0 <= j < pls[p][l].len()
                ==> char_width(#[trigger] pls[p][l][j]) <= ws[p],
    ensures
        forall|k: int|
            0 <= k < vsplit_spec(pls, ws, ds).len() ==> str_width(
                #[trigger] vsplit_spec(pls, ws, ds)[k],
            ) == total_width(ws, ds),
{
    let blocks = row_groups(pls, ws).map_values(
        |g: Seq<Seq<Seq<char>>>| merged_rows(g, ws, ds),
    );
    assert forall|r: int, t: int|
        0 <= r < blocks.len() && 0 <= t < blocks[r].len() implies str_width(
        #[trigger] blocks[r][t],
    ) == total_width(ws, ds) by {
        let g = row_groups(pls, ws)[r];
        assert(blocks[r] == merged_rows(g, ws, ds));
        assert forall|q: int, u: int|
            0 <= q < g.len() && 0 <= u < g[q].len() implies str_width(#[trigger] g[q][u])
            <= ws[q] by {
            let wrapped = wrap_all(pls, ws);
            assert(g == group_at(wrapped, r));
            if r < wrapped[q].len() {
                assert(g[q] == wrap_spec(pls[q][r], ws[q]));
                assert(forall|j: int|
                    0 <= j < pls[q][r].len() ==> char_width(#[trigger] pls[q][r][j]) <= ws[q]);
                crate::wrap::lemma_wrap_width_fits(pls[q][r], ws[q]);
            } else {
                assert(g[q] == Seq::<Seq<char>>::empty());
            }
        }
        assert(g.len() == pls.len());
        assert(blocks[r][t] == merged_row_at(g, ws, ds, t));
        lemma_merged_prefix_width(g, ws, ds, t, g.len() as int);
    }
    lemma_flatten_uniform_width(blocks, total_width(ws, ds));
}

/// Like [`vsplit`], but checks the delimiter count instead of requiring
/// it: `None` exactly when the number of delimiters is not one fewer than
/// the number of panes, and the rendered lines otherwise.
pub fn vsplit_checked(panes: Vec<Pane>, delims: Vec<String>) -> (r: Option<Vec<String>>)
    ensures
        match r {
            Some(out) => panes@.len() == delims@.len() + 1 && out.deep_view() == vsplit_spec(
                pane_lines(panes@),
                pane_widths(panes@),
                delims.deep_view(),
            ),
            None => panes@.len() != delims@.len() + 1,
        },
{
    if panes.len() > 0 && panes.len() - 1 == delims.len() {
        Some(vsplit(panes, delims))
    } else {
        None
    }
}

} // verus!
