use vstd::prelude::*;

use crate::scan::{ContentResult, RecordV};
use crate::strutil::{dec_rep, push_char, push_str, u64_to_dec};

verus! {

// ---------------------------------------------------------------------------
// The spec-level model: records, display lines, display ranges.
// ---------------------------------------------------------------------------

/// One rendered line of a display range.
pub struct RangeLine {
    /// 1-based line number in the file.
    pub number: u64,
    /// The line's text.
    pub text: String,
    /// Whether the line is a match line (sticky: a match is never downgraded
    /// to context).
    pub is_match: bool,
}

/// The mathematical content of a `RangeLine`.
pub struct LineV {
    pub number: int,
    pub text: Seq<char>,
    pub is_match: bool,
}

impl View for RangeLine {
    type V = LineV;

    open spec fn view(&self) -> LineV {
        LineV { number: self.number as int, text: self.text@, is_match: self.is_match }
    }
}

impl DeepView for RangeLine {
    type V = LineV;

    open spec fn deep_view(&self) -> LineV {
        self@
    }
}

/// A contiguous display span: the merged lines of one or more overlapping or
/// adjacent match windows of one file.
pub struct DisplayRange {
    /// Inclusive first line of the span.
    pub start: u64,
    /// Inclusive last line of the span.
    pub end: u64,
    /// The retained lines, ascending by number; a merged span may omit line
    /// numbers no record's window touched.
    pub lines: Vec<RangeLine>,
}

/// The mathematical content of a `DisplayRange`.
pub struct RangeV {
    pub start: int,
    pub end: int,
    pub lines: Seq<LineV>,
}

impl View for DisplayRange {
    type V = RangeV;

    open spec fn view(&self) -> RangeV {
        RangeV { start: self.start as int, end: self.end as int, lines: self.lines.deep_view() }
    }
}

impl DeepView for DisplayRange {
    type V = RangeV;

    open spec fn deep_view(&self) -> RangeV {
        self@
    }
}

/// A record is well formed when its before-window cannot reach below line 1
/// and its display interval stays within the line-number type.
pub open spec fn rec_wf(r: RecordV) -> bool {
    &&& 1 <= r.line_number
    &&& r.before.len() < r.line_number
    &&& r.line_number + r.after.len() <= u64::MAX
}

/// First line of a record's display interval. The subtraction is deliberately
/// not clamped: a well-formed record's before-window never reaches below the
/// first line, and silently saturating here would change the merge decision.
pub open spec fn rec_start(r: RecordV) -> int {
    r.line_number - r.before.len()
}

/// Last line of a record's display interval.
pub open spec fn rec_end(r: RecordV) -> int {
    if r.after.len() == 0 {
        r.line_number
    } else {
        r.line_number + r.after.len()
    }
}

// ---------------------------------------------------------------------------
// Inserting lines into a range's line list (ascending, no duplicates).
// ---------------------------------------------------------------------------

/// Line numbers strictly ascending.
pub open spec fn lines_sorted(ls: Seq<LineV>) -> bool {
    forall|i: int, j: int| 0 <= i < j < ls.len() ==> ls[i].number < ls[j].number
}

/// Inserts a context line: only if the number is not already present.
pub open spec fn ctx_insert(ls: Seq<LineV>, n: int, t: Seq<char>) -> Seq<LineV>
    decreases ls.len(),
{
    if ls.len() == 0 {
        seq![LineV { number: n, text: t, is_match: false }]
    } else if ls[0].number < n {
        seq![ls[0]] + ctx_insert(ls.drop_first(), n, t)
    } else if ls[0].number == n {
        ls
    } else {
        seq![LineV { number: n, text: t, is_match: false }] + ls
    }
}

/// Inserts the match line: inserted if absent, and an existing context line
/// is overwritten and marked as a match; an existing match line is left
/// alone. Match status is sticky.
pub open spec fn match_insert(ls: Seq<LineV>, n: int, t: Seq<char>) -> Seq<LineV>
    decreases ls.len(),
{
    if ls.len() == 0 {
        seq![LineV { number: n, text: t, is_match: true }]
    } else if ls[0].number < n {
        seq![ls[0]] + match_insert(ls.drop_first(), n, t)
    } else if ls[0].number == n {
        if ls[0].is_match {
            ls
        } else {
            seq![LineV { number: n, text: t, is_match: true }] + ls.drop_first()
        }
    } else {
        seq![LineV { number: n, text: t, is_match: true }] + ls
    }
}

/// Inserts a run of consecutive context lines starting at line `start`.
pub open spec fn ctx_insert_run(ls: Seq<LineV>, start: int, texts: Seq<Seq<char>>) -> Seq<LineV>
    decreases texts.len(),
{
    if texts.len() == 0 {
        ls
    } else {
        ctx_insert_run(ctx_insert(ls, start, texts[0]), start + 1, texts.drop_first())
    }
}

/// Merges one record's lines into a range's line list: before-context lines
/// (inserted only if absent), then the match line (sticky), then
/// after-context lines (only if absent).
pub open spec fn rec_lines_into(ls: Seq<LineV>, r: RecordV) -> Seq<LineV> {
    let ls1 = ctx_insert_run(ls, r.line_number - r.before.len(), r.before);
    let ls2 = match_insert(ls1, r.line_number, r.content);
    ctx_insert_run(ls2, r.line_number + 1, r.after)
}

/// Where `ctx_insert` puts the new line: at the first position whose number
/// is not below `n`, and nowhere if that position already holds `n`.
pub proof fn lemma_ctx_insert_pos(ls: Seq<LineV>, n: int, t: Seq<char>, j: int)
    requires
        lines_sorted(ls),
        0 <= j <= ls.len(),
        forall|i: int| 0 <= i < j ==> ls[i].number < n,
        j < ls.len() ==> ls[j].number >= n,
    ensures
        j < ls.len() && ls[j].number == n ==> ctx_insert(ls, n, t) == ls,
        !(j < ls.len() && ls[j].number == n) ==> ctx_insert(ls, n, t) =~= ls.take(j) + seq![
            LineV { number: n, text: t, is_match: false },
        ] + ls.skip(j),
        lines_sorted(ctx_insert(ls, n, t)),
    decreases ls.len(),
{
    if ls.len() == 0 {
        assert(ctx_insert(ls, n, t) =~= ls.take(0) + seq![
            LineV { number: n, text: t, is_match: false },
        ] + ls.skip(0));
    } else if ls[0].number < n {
        assert(j >= 1) by {
            assert(ls[0].number < n);
        }
        lemma_ctx_insert_pos(ls.drop_first(), n, t, j - 1);
        if j < ls.len() && ls[j].number == n {
            assert(ls.drop_first()[j - 1].number == n);
            assert(ctx_insert(ls, n, t) =~= seq![ls[0]] + ls.drop_first());
            assert(seq![ls[0]] + ls.drop_first() =~= ls);
        } else {
            assert(ctx_insert(ls, n, t) =~= ls.take(j) + seq![
                LineV { number: n, text: t, is_match: false },
            ] + ls.skip(j));
        }
        assert(lines_sorted(ctx_insert(ls, n, t)));
    } else if ls[0].number == n {
        // j must be 0 here.
    } else {
        assert(j == 0);
        assert(ctx_insert(ls, n, t) =~= ls.take(0) + seq![
            LineV { number: n, text: t, is_match: false },
        ] + ls.skip(0));
    }
}

/// Where `match_insert` puts or upgrades the match line.
pub proof fn lemma_match_insert_pos(ls: Seq<LineV>, n: int, t: Seq<char>, j: int)
    requires
        lines_sorted(ls),
        0 <= j <= ls.len(),
        forall|i: int| 0 <= i < j ==> ls[i].number < n,
        j < ls.len() ==> ls[j].number >= n,
    ensures
        j < ls.len() && ls[j].number == n && ls[j].is_match ==> match_insert(ls, n, t) == ls,
        j < ls.len() && ls[j].number == n && !ls[j].is_match ==> match_insert(ls, n, t)
            =~= ls.update(j, LineV { number: n, text: t, is_match: true }),
        !(j < ls.len() && ls[j].number == n) ==> match_insert(ls, n, t) =~= ls.take(j) + seq![
            LineV { number: n, text: t, is_match: true },
        ] + ls.skip(j),
        lines_sorted(match_insert(ls, n, t)),
    decreases ls.len(),
{
    if ls.len() == 0 {
        assert(match_insert(ls, n, t) =~= ls.take(0) + seq![
            LineV { number: n, text: t, is_match: true },
        ] + ls.skip(0));
    } else if ls[0].number < n {
        assert(j >= 1) by {
            assert(ls[0].number < n);
        }
        lemma_match_insert_pos(ls.drop_first(), n, t, j - 1);
        if j < ls.len() && ls[j].number == n {
            assert(ls.drop_first()[j - 1].number == n);
            if ls[j].is_match {
                assert(match_insert(ls, n, t) =~= seq![ls[0]] + ls.drop_first());
                assert(seq![ls[0]] + ls.drop_first() =~= ls);
            } else {
                assert(match_insert(ls, n, t) =~= ls.update(
                    j,
                    LineV { number: n, text: t, is_match: true },
                ));
            }
        } else {
            assert(match_insert(ls, n, t) =~= ls.take(j) + seq![
                LineV { number: n, text: t, is_match: true },
            ] + ls.skip(j));
        }
        assert(lines_sorted(match_insert(ls, n, t)));
    } else if ls[0].number == n {
        assert(j == 0);
        if !ls[0].is_match {
            assert(match_insert(ls, n, t) =~= ls.update(
                0,
                LineV { number: n, text: t, is_match: true },
            ));
        }
    } else {
        assert(j == 0);
        assert(match_insert(ls, n, t) =~= ls.take(0) + seq![
            LineV { number: n, text: t, is_match: true },
        ] + ls.skip(0));
    }
}

// ---------------------------------------------------------------------------
// Merging records into display ranges.
// ---------------------------------------------------------------------------

/// The fold state while merging a file's records: finished ranges and the
/// range still being extended.
pub struct AggV {
    pub done: Seq<RangeV>,
    pub cur: Option<RangeV>,
}

/// One merge step. A new range begins when the record's interval starts more
/// than one untouched line past the current range's end; a gap of exactly
/// one untouched line still merges. Otherwise the current range is extended
/// and the record's lines are folded in.
pub open spec fn agg_step(st: AggV, r: RecordV) -> AggV {
    match st.cur {
        None => AggV {
            done: st.done,
            cur: Some(
                RangeV {
                    start: rec_start(r),
                    end: rec_end(r),
                    lines: rec_lines_into(Seq::empty(), r),
                },
            ),
        },
        Some(c) => {
            if rec_start(r) > c.end + 2 {
                AggV {
                    done: st.done.push(c),
                    cur: Some(
                        RangeV {
                            start: rec_start(r),
                            end: rec_end(r),
                            lines: rec_lines_into(Seq::empty(), r),
                        },
                    ),
                }
            } else {
                AggV {
                    done: st.done,
                    cur: Some(
                        RangeV {
                            start: c.start,
                            end: if rec_end(r) > c.end {
                                rec_end(r)
                            } else {
                                c.end
                            },
                            lines: rec_lines_into(c.lines, r),
                        },
                    ),
                }
            }
        },
    }
}

/// The fold of `agg_step` over a file's records, in order.
pub open spec fn agg_run(rs: Seq<RecordV>) -> AggV
    decreases rs.len(),
{
    if rs.len() == 0 {
        AggV { done: Seq::empty(), cur: None }
    } else {
        agg_step(agg_run(rs.drop_last()), rs.last())
    }
}

/// The display ranges of a file's records: the fold's finished ranges,
/// closed by the one still open.
pub open spec fn ranges_of(rs: Seq<RecordV>) -> Seq<RangeV> {
    let st = agg_run(rs);
    match st.cur {
        None => st.done,
        Some(c) => st.done.push(c),
    }
}

// ---------------------------------------------------------------------------
// Sorting a file's records by match line number (stable).
// ---------------------------------------------------------------------------

/// Records ascending by match line number.
pub open spec fn records_sorted(rs: Seq<RecordV>) -> bool {
    forall|i: int, j: int| 0 <= i < j < rs.len() ==> rs[i].line_number <= rs[j].line_number
}

/// Inserts a record after every record with a line number not above its own:
/// the insertion step of a stable sort.
pub open spec fn sorted_insert(rs: Seq<RecordV>, r: RecordV) -> Seq<RecordV>
    decreases rs.len(),
{
    if rs.len() == 0 {
        seq![r]
    } else if rs[0].line_number <= r.line_number {
        seq![rs[0]] + sorted_insert(rs.drop_first(), r)
    } else {
        seq![r] + rs
    }
}

/// Stable sort of a file's records by match line number.
pub open spec fn sort_records(rs: Seq<RecordV>) -> Seq<RecordV>
    decreases rs.len(),
{
    if rs.len() == 0 {
        Seq::empty()
    } else {
        sorted_insert(sort_records(rs.drop_last()), rs.last())
    }
}

/// Where `sorted_insert` puts the record: at the first position whose line
/// number is strictly greater.
pub proof fn lemma_sorted_insert_pos(rs: Seq<RecordV>, r: RecordV, j: int)
    requires
        records_sorted(rs),
        0 <= j <= rs.len(),
        forall|i: int| 0 <= i < j ==> rs[i].line_number <= r.line_number,
        j < rs.len() ==> rs[j].line_number > r.line_number,
    ensures
        sorted_insert(rs, r) =~= rs.take(j) + seq![r] + rs.skip(j),
        records_sorted(sorted_insert(rs, r)),
    decreases rs.len(),
{
    if rs.len() == 0 {
        assert(sorted_insert(rs, r) =~= rs.take(0) + seq![r] + rs.skip(0));
    } else if rs[0].line_number <= r.line_number {
        assert(j >= 1);
        lemma_sorted_insert_pos(rs.drop_first(), r, j - 1);
        assert(sorted_insert(rs, r) =~= rs.take(j) + seq![r] + rs.skip(j));
        assert(records_sorted(sorted_insert(rs, r)));
    } else {
        assert(j == 0);
        assert(sorted_insert(rs, r) =~= rs.take(0) + seq![r] + rs.skip(0));
    }
}

// ---------------------------------------------------------------------------
// Grouping records of one traversal into per-file runs.
// ---------------------------------------------------------------------------

/// Length of the leading run of records sharing the first record's path.
pub open spec fn run_len(rs: Seq<RecordV>) -> int
    decreases rs.len(),
{
    if rs.len() <= 1 {
        rs.len() as int
    } else if rs[1].path == rs[0].path {
        1 + run_len(rs.drop_first())
    } else {
        1
    }
}

/// The leading run is nonempty and no longer than the whole.
pub proof fn lemma_run_len(rs: Seq<RecordV>)
    requires
        rs.len() > 0,
    ensures
        1 <= run_len(rs) <= rs.len(),
    decreases rs.len(),
{
    if rs.len() > 1 && rs[1].path == rs[0].path {
        lemma_run_len(rs.drop_first());
    }
}

/// Splits records into consecutive runs of equal path. Records of one file
/// are contiguous in a single traversal, so runs are whole files, in the
/// order the traversal first touched them.
pub open spec fn grouped(rs: Seq<RecordV>) -> Seq<Seq<RecordV>>
    decreases rs.len(),
    via grouped_dec
{
    if rs.len() == 0 {
        Seq::empty()
    } else {
        seq![rs.take(run_len(rs))] + grouped(rs.skip(run_len(rs)))
    }
}

#[via_fn]
proof fn grouped_dec(rs: Seq<RecordV>) {
    if rs.len() > 0 {
        lemma_run_len(rs);
    }
}

// ---------------------------------------------------------------------------
// Rendering.
// ---------------------------------------------------------------------------

/// One rendered line. With line numbers, a match line reads
/// `path:number:text` and a context line `path-number:text`: the separator
/// before the number alone distinguishes them. Without line numbers every
/// line reads `path:text`.
pub open spec fn render_line(path: Seq<char>, l: LineV, show: bool) -> Seq<char> {
    if show {
        path + seq![if l.is_match {
            ':'
        } else {
            '-'
        }] + dec_rep(l.number) + seq![':'] + l.text
    } else {
        path + seq![':'] + l.text
    }
}

/// The rendered lines of one range, in order.
pub open spec fn render_lines(path: Seq<char>, ls: Seq<LineV>, show: bool) -> Seq<Seq<char>> {
    Seq::new(ls.len(), |i: int| render_line(path, ls[i], show))
}

/// The rendered ranges of one file, a `--` separator line between ranges.
pub open spec fn render_ranges(path: Seq<char>, ranges: Seq<RangeV>, show: bool) -> Seq<
    Seq<char>,
>
    decreases ranges.len(),
{
    if ranges.len() == 0 {
        Seq::empty()
    } else if ranges.len() == 1 {
        render_lines(path, ranges[0].lines, show)
    } else {
        render_ranges(path, ranges.drop_last(), show) + seq!["--"@] + render_lines(
            path,
            ranges.last().lines,
            show,
        )
    }
}

/// The rendered output of one file's records: sorted by line number, merged
/// into ranges, rendered under the file's path.
pub open spec fn group_output(g: Seq<RecordV>, show: bool) -> Seq<Seq<char>> {
    render_ranges(g[0].path, ranges_of(sort_records(g)), show)
}

/// The rendered output of all files, a `--` separator line between files.
pub open spec fn content_output(groups: Seq<Seq<RecordV>>, show: bool) -> Seq<Seq<char>>
    decreases groups.len(),
{
    if groups.len() == 0 {
        Seq::empty()
    } else if groups.len() == 1 {
        group_output(groups[0], show)
    } else {
        content_output(groups.drop_last(), show) + seq!["--"@] + group_output(
            groups.last(),
            show,
        )
    }
}

/// The full content-mode rendering: per-file grouping, merging and
/// rendering, truncated at the head limit if one is set; the cap counts
/// every emitted line, separators included.
pub open spec fn format_spec(rs: Seq<RecordV>, show: bool, limit: Option<usize>) -> Seq<
    Seq<char>,
> {
    let full = content_output(grouped(rs), show);
    match limit {
        None => full,
        Some(n) => {
            if n < full.len() {
                full.take(n as int)
            } else {
                full
            }
        },
    }
}

// ---------------------------------------------------------------------------
// Laws of the merge.
// ---------------------------------------------------------------------------

/// The line list has an entry for line `n` that is marked as a match.
pub open spec fn marked_match(ls: Seq<LineV>, n: int) -> bool {
    exists|i: int| 0 <= i < ls.len() && (#[trigger] ls[i]).number == n && ls[i].is_match
}

/// Inserting a context line never unmarks a match line.
pub proof fn lemma_ctx_insert_keeps_match(ls: Seq<LineV>, n: int, t: Seq<char>, n0: int)
    requires
        marked_match(ls, n0),
    ensures
        marked_match(ctx_insert(ls, n, t), n0),
    decreases ls.len(),
{
    let i = choose|i: int| 0 <= i < ls.len() && (#[trigger] ls[i]).number == n0 && ls[i].is_match;
    if ls.len() == 0 {
    } else if ls[0].number < n {
        if i == 0 {
            assert(ctx_insert(ls, n, t)[0] == ls[0]);
        } else {
            assert(ls.drop_first()[i - 1] == ls[i]);
            assert(marked_match(ls.drop_first(), n0));
            lemma_ctx_insert_keeps_match(ls.drop_first(), n, t, n0);
            let j = choose|j: int|
                0 <= j < ctx_insert(ls.drop_first(), n, t).len() && (#[trigger] ctx_insert(
                    ls.drop_first(),
                    n,
                    t,
                )[j]).number == n0 && ctx_insert(ls.drop_first(), n, t)[j].is_match;
            assert(ctx_insert(ls, n, t)[j + 1] == ctx_insert(ls.drop_first(), n, t)[j]);
        }
    } else if ls[0].number == n {
    } else {
        assert(ctx_insert(ls, n, t)[i + 1] == ls[i]);
    }
}

/// Inserting a run of context lines never unmarks a match line.
pub proof fn lemma_ctx_run_keeps_match(ls: Seq<LineV>, start: int, texts: Seq<Seq<char>>, n0: int)
    requires
        marked_match(ls, n0),
    ensures
        marked_match(ctx_insert_run(ls, start, texts), n0),
    decreases texts.len(),
{
    if texts.len() > 0 {
        lemma_ctx_insert_keeps_match(ls, start, texts[0], n0);
        lemma_ctx_run_keeps_match(ctx_insert(ls, start, texts[0]), start + 1, texts.drop_first(), n0);
    }
}

/// Inserting the match line marks it, and never unmarks any other match
/// line: match status wins over context status and is never downgraded.
pub proof fn lemma_match_insert_marks(ls: Seq<LineV>, n: int, t: Seq<char>, n0: int)
    ensures
        marked_match(match_insert(ls, n, t), n),
        marked_match(ls, n0) ==> marked_match(match_insert(ls, n, t), n0),
    decreases ls.len(),
{
    if ls.len() == 0 {
        assert(match_insert(ls, n, t)[0].number == n);
    } else if ls[0].number < n {
        lemma_match_insert_marks(ls.drop_first(), n, t, n0);
        let j = choose|j: int|
            0 <= j < match_insert(ls.drop_first(), n, t).len() && (#[trigger] match_insert(
                ls.drop_first(),
                n,
                t,
            )[j]).number == n && match_insert(ls.drop_first(), n, t)[j].is_match;
        assert(match_insert(ls, n, t)[j + 1] == match_insert(ls.drop_first(), n, t)[j]);
        if marked_match(ls, n0) {
            let i = choose|i: int|
                0 <= i < ls.len() && (#[trigger] ls[i]).number == n0 && ls[i].is_match;
            if i == 0 {
                assert(match_insert(ls, n, t)[0] == ls[0]);
            } else {
                assert(ls.drop_first()[i - 1] == ls[i]);
                assert(marked_match(ls.drop_first(), n0));
                lemma_match_insert_marks(ls.drop_first(), n, t, n0);
                let j2 = choose|j2: int|
                    0 <= j2 < match_insert(ls.drop_first(), n, t).len() && (
                    #[trigger] match_insert(ls.drop_first(), n, t)[j2]).number == n0
                        && match_insert(ls.drop_first(), n, t)[j2].is_match;
                assert(match_insert(ls, n, t)[j2 + 1] == match_insert(ls.drop_first(), n, t)[j2]);
            }
        }
    } else if ls[0].number == n {
        if ls[0].is_match {
            assert(match_insert(ls, n, t) == ls);
            assert(marked_match(ls, n));
        } else {
            let r = match_insert(ls, n, t);
            assert(r[0].number == n && r[0].is_match);
            if marked_match(ls, n0) {
                let i = choose|i: int|
                    0 <= i < ls.len() && (#[trigger] ls[i]).number == n0 && ls[i].is_match;
                assert(i != 0);
                assert(r[i] == ls.drop_first()[i - 1]);
                assert(r[i] == ls[i]);
            }
        }
    } else {
        let r = match_insert(ls, n, t);
        assert(r[0].number == n && r[0].is_match);
        if marked_match(ls, n0) {
            let i = choose|i: int|
                0 <= i < ls.len() && (#[trigger] ls[i]).number == n0 && ls[i].is_match;
            assert(r[i + 1] == ls[i]);
        }
    }
}

/// Folding a record into a line list marks its match line and never unmarks
/// an already marked one.
pub proof fn lemma_rec_lines_sticky(ls: Seq<LineV>, r: RecordV, n0: int)
    ensures
        marked_match(rec_lines_into(ls, r), r.line_number),
        marked_match(ls, n0) ==> marked_match(rec_lines_into(ls, r), n0),
{
    let ls1 = ctx_insert_run(ls, r.line_number - r.before.len(), r.before);
    let ls2 = match_insert(ls1, r.line_number, r.content);
    if marked_match(ls, n0) {
        lemma_ctx_run_keeps_match(ls, r.line_number - r.before.len(), r.before, n0);
        lemma_match_insert_marks(ls1, r.line_number, r.content, n0);
        lemma_ctx_run_keeps_match(ls2, r.line_number + 1, r.after, n0);
    }
    lemma_match_insert_marks(ls1, r.line_number, r.content, r.line_number);
    lemma_ctx_run_keeps_match(ls2, r.line_number + 1, r.after, r.line_number);
}

/// After any number of merge steps, every processed record's match line is
/// marked in a finished range or in the open one.
proof fn lemma_agg_run_sticky(rs: Seq<RecordV>, kidx: int)
    requires
        0 <= kidx < rs.len(),
    ensures
        (exists|g: int|
            0 <= g < agg_run(rs).done.len() && marked_match(
                (#[trigger] agg_run(rs).done[g]).lines,
                rs[kidx].line_number,
            )) || (agg_run(rs).cur matches Some(c) && marked_match(
            c.lines,
            rs[kidx].line_number,
        )),
    decreases rs.len(),
{
    let st0 = agg_run(rs.drop_last());
    let r = rs.last();
    let n = rs[kidx].line_number;
    if kidx == rs.len() - 1 {
        lemma_rec_lines_sticky(
            match st0.cur {
                Some(c) => {
                    if rec_start(r) > c.end + 2 {
                        Seq::empty()
                    } else {
                        c.lines
                    }
                },
                None => Seq::empty(),
            },
            r,
            n,
        );
    } else {
        assert(rs.drop_last()[kidx] == rs[kidx]);
        lemma_agg_run_sticky(rs.drop_last(), kidx);
        if exists|g: int|
            0 <= g < st0.done.len() && marked_match((#[trigger] st0.done[g]).lines, n) {
            let g = choose|g: int|
                0 <= g < st0.done.len() && marked_match((#[trigger] st0.done[g]).lines, n);
            assert(agg_run(rs).done[g] == st0.done[g]);
        } else {
            let c0 = st0.cur->0;
            if rec_start(r) > c0.end + 2 {
                assert(agg_run(rs).done[st0.done.len() as int] == c0);
            } else {
                lemma_rec_lines_sticky(c0.lines, r, n);
            }
        }
    }
}

/// Match status is sticky: whatever other records say about a line, every
/// record's own match line appears in the display ranges marked as a match,
/// never downgraded to context.
pub proof fn lemma_match_sticky(rs: Seq<RecordV>, kidx: int)
    requires
        0 <= kidx < rs.len(),
    ensures
        exists|g: int|
            0 <= g < ranges_of(rs).len() && marked_match(
                (#[trigger] ranges_of(rs)[g]).lines,
                rs[kidx].line_number,
            ),
{
    lemma_agg_run_sticky(rs, kidx);
    let st = agg_run(rs);
    let n = rs[kidx].line_number;
    if exists|g: int| 0 <= g < st.done.len() && marked_match((#[trigger] st.done[g]).lines, n) {
        let g = choose|g: int|
            0 <= g < st.done.len() && marked_match((#[trigger] st.done[g]).lines, n);
        assert(ranges_of(rs)[g] == st.done[g]);
    } else {
        let c = st.cur->0;
        assert(ranges_of(rs)[st.done.len() as int] == c);
    }
}

/// A line marked as a match renders with the `:` separator before its
/// number, never with the context `-`: so a sticky match stays visible as
/// a match in the rendered output.
pub proof fn lemma_marked_renders_as_match(path: Seq<char>, ls: Seq<LineV>, n: int)
    requires
        marked_match(ls, n),
    ensures
        exists|i: int|
            0 <= i < render_lines(path, ls, true).len() && (#[trigger] render_lines(
                path,
                ls,
                true,
            )[i]) == path + seq![':'] + dec_rep(n) + seq![':'] + ls[i].text,
{
    let i = choose|i: int| 0 <= i < ls.len() && (#[trigger] ls[i]).number == n && ls[i].is_match;
    assert(render_lines(path, ls, true)[i] == render_line(path, ls[i], true));
}

/// With zero requested context, two matches of one file separated by
/// exactly one non-matching line still merge into one display range;
/// separated by two or more, they make two ranges, and rendering joins two
/// ranges with exactly one `--` line.
pub proof fn lemma_gap_merge(r1: RecordV, r2: RecordV, p: Seq<char>, show: bool)
    requires
        r1.before.len() == 0,
        r1.after.len() == 0,
        r2.before.len() == 0,
        r2.after.len() == 0,
        r1.line_number < r2.line_number,
    ensures
        r2.line_number <= r1.line_number + 2 ==> ranges_of(seq![r1, r2]).len() == 1,
        r2.line_number > r1.line_number + 2 ==> ranges_of(seq![r1, r2]).len() == 2,
        r2.line_number <= r1.line_number + 2 ==> render_ranges(
            p,
            ranges_of(seq![r1, r2]),
            show,
        ) == render_lines(p, ranges_of(seq![r1, r2])[0].lines, show),
        r2.line_number > r1.line_number + 2 ==> render_ranges(p, ranges_of(seq![r1, r2]), show)
            == render_lines(p, ranges_of(seq![r1, r2])[0].lines, show) + seq!["--"@]
            + render_lines(p, ranges_of(seq![r1, r2])[1].lines, show),
{
    let rs = seq![r1, r2];
    assert(rs.drop_last() =~= seq![r1]);
    assert(seq![r1].drop_last() =~= Seq::<RecordV>::empty());
    assert(rs.last() == r2);
    assert(seq![r1].last() == r1);
    let st0 = agg_run(Seq::<RecordV>::empty());
    assert(st0.cur is None && st0.done.len() == 0);
    let st1 = agg_run(seq![r1]);
    assert(st1 == agg_step(st0, r1));
    assert(st1.cur matches Some(c) && c.end == r1.line_number && st1.done.len() == 0);
    let st2 = agg_run(rs);
    assert(st2 == agg_step(st1, r2));
    if r2.line_number > r1.line_number + 2 {
        assert(st2.done.len() == 1);
        assert(ranges_of(rs).len() == 2);
        assert(ranges_of(rs).drop_last() =~= seq![ranges_of(rs)[0]]);
        assert(render_ranges(p, ranges_of(rs), show) == render_ranges(
            p,
            ranges_of(rs).drop_last(),
            show,
        ) + seq!["--"@] + render_lines(p, ranges_of(rs).last().lines, show));
        assert(render_ranges(p, seq![ranges_of(rs)[0]], show) == render_lines(
            p,
            ranges_of(rs)[0].lines,
            show,
        ));
    } else {
        assert(st2.done.len() == 0);
        assert(ranges_of(rs).len() == 1);
    }
}

// ---------------------------------------------------------------------------
// Executable merging.
// ---------------------------------------------------------------------------

/// First position whose line number is at least `n`.
fn find_line_pos(lines: &Vec<RangeLine>, n: u64) -> (j: usize)
    ensures
        j <= lines@.len(),
        forall|i: int| 0 <= i < j ==> lines.deep_view()[i].number < n,
        j < lines@.len() ==> lines.deep_view()[j as int].number >= n,
{
    let mut j: usize = 0;
    while j < lines.len()
        invariant
            j <= lines@.len(),
            forall|i: int| 0 <= i < j ==> lines.deep_view()[i].number < n,
        decreases lines@.len() - j,
    {
        if lines[j].number >= n {
            return j;
        }
        assert(lines.deep_view()[j as int].number < n);
        j = j + 1;
    }
    j
}

/// Inserts one context line, only if its number is absent.
fn ctx_insert_exec(lines: &mut Vec<RangeLine>, n: u64, t: &String)
    requires
        lines_sorted(old(lines).deep_view()),
    ensures
        final(lines).deep_view() == ctx_insert(old(lines).deep_view(), n as int, t@),
        lines_sorted(final(lines).deep_view()),
{
    let ghost lv = lines.deep_view();
    let j = find_line_pos(lines, n);
    proof {
        lemma_ctx_insert_pos(lv, n as int, t@, j as int);
    }
    if j < lines.len() && lines[j].number == n {
        // already present: nothing to do
    } else {
        lines.insert(j, RangeLine { number: n, text: t.clone(), is_match: false });
        assert(lines.deep_view() =~= lv.take(j as int) + seq![
            LineV { number: n as int, text: t@, is_match: false },
        ] + lv.skip(j as int));
    }
}

/// Inserts or upgrades the match line; match status is sticky.
fn match_insert_exec(lines: &mut Vec<RangeLine>, n: u64, t: &String)
    requires
        lines_sorted(old(lines).deep_view()),
    ensures
        final(lines).deep_view() == match_insert(old(lines).deep_view(), n as int, t@),
        lines_sorted(final(lines).deep_view()),
{
    let ghost lv = lines.deep_view();
    let j = find_line_pos(lines, n);
    proof {
        lemma_match_insert_pos(lv, n as int, t@, j as int);
    }
    if j < lines.len() && lines[j].number == n {
        if lines[j].is_match {
            // already a match line: left alone
        } else {
            lines.remove(j);
            lines.insert(j, RangeLine { number: n, text: t.clone(), is_match: true });
            assert(lines.deep_view() =~= lv.update(
                j as int,
                LineV { number: n as int, text: t@, is_match: true },
            ));
        }
    } else {
        lines.insert(j, RangeLine { number: n, text: t.clone(), is_match: true });
        assert(lines.deep_view() =~= lv.take(j as int) + seq![
            LineV { number: n as int, text: t@, is_match: true },
        ] + lv.skip(j as int));
    }
}

/// Folds one record's lines into a range's line list.
fn merge_record_lines(lines: &mut Vec<RangeLine>, rec: &ContentResult)
    requires
        lines_sorted(old(lines).deep_view()),
        rec_wf(rec@),
    ensures
        final(lines).deep_view() == rec_lines_into(old(lines).deep_view(), rec@),
        lines_sorted(final(lines).deep_view()),
{
    let ghost lv0 = lines.deep_view();
    let ghost rv = rec@;
    // Before-context lines.
    let bl: usize = rec.before_context.len();
    assert(rv.before.len() == bl as int);
    let start: u64 = rec.line_number - bl as u64;
    let mut idx: usize = 0;
    proof {
        assert(rv.before.skip(0) =~= rv.before);
        assert(start as int == rv.line_number - rv.before.len());
    }
    while idx < bl
        invariant
            idx <= bl,
            bl < rec.line_number,
            start == rec.line_number - bl as u64,
            rv == rec@,
            rv.before.len() == bl as int,
            lines_sorted(lines.deep_view()),
            ctx_insert_run(lv0, rv.line_number - rv.before.len(), rv.before) == ctx_insert_run(
                lines.deep_view(),
                start as int + idx,
                rv.before.skip(idx as int),
            ),
        decreases bl - idx,
    {
        let ghost cur = lines.deep_view();
        let ghost rem = rv.before.skip(idx as int);
        assert(rem[0] == rv.before[idx as int]);
        assert(rv.before[idx as int] == rec.before_context.deep_view()[idx as int]);
        ctx_insert_exec(lines, start + idx as u64, &rec.before_context[idx]);
        proof {
            assert(rem.drop_first() =~= rv.before.skip(idx + 1));
            assert(ctx_insert_run(cur, start as int + idx, rem) == ctx_insert_run(
                lines.deep_view(),
                start as int + (idx + 1),
                rv.before.skip(idx + 1),
            ));
        }
        idx = idx + 1;
    }
    proof {
        assert(rv.before.skip(bl as int) =~= Seq::<Seq<char>>::empty());
        assert(ctx_insert_run(lv0, rv.line_number - rv.before.len(), rv.before)
            == lines.deep_view());
    }
    // The match line itself.
    let ghost ls1 = lines.deep_view();
    assert(rv.content == rec.content@);
    match_insert_exec(lines, rec.line_number, &rec.content);
    assert(lines.deep_view() == match_insert(ls1, rv.line_number, rv.content));
    // After-context lines.
    let ghost ls2 = lines.deep_view();
    let al: usize = rec.after_context.len();
    assert(rv.after.len() == al as int);
    let mut adx: usize = 0;
    proof {
        assert(rv.after.skip(0) =~= rv.after);
    }
    while adx < al
        invariant
            adx <= al,
            rec.line_number + al as u64 <= u64::MAX,
            rv == rec@,
            rv.after.len() == al as int,
            lines_sorted(lines.deep_view()),
            ctx_insert_run(ls2, rv.line_number + 1, rv.after) == ctx_insert_run(
                lines.deep_view(),
                rv.line_number + 1 + adx,
                rv.after.skip(adx as int),
            ),
        decreases al - adx,
    {
        let ghost cur = lines.deep_view();
        let ghost rem = rv.after.skip(adx as int);
        assert(rem[0] == rv.after[adx as int]);
        assert(rv.after[adx as int] == rec.after_context.deep_view()[adx as int]);
        ctx_insert_exec(lines, rec.line_number + 1 + adx as u64, &rec.after_context[adx]);
        proof {
            assert(rem.drop_first() =~= rv.after.skip(adx + 1));
            assert(ctx_insert_run(cur, rv.line_number + 1 + adx, rem) == ctx_insert_run(
                lines.deep_view(),
                rv.line_number + 1 + (adx + 1),
                rv.after.skip(adx + 1),
            ));
        }
        adx = adx + 1;
    }
    proof {
        assert(rv.after.skip(al as int) =~= Seq::<Seq<char>>::empty());
        assert(lines.deep_view() == rec_lines_into(lv0, rv));
    }
}

/// Merges a file's records into display ranges, in the order given.
fn build_ranges(group: &Vec<ContentResult>) -> (r: Vec<DisplayRange>)
    requires
        forall|i: int| 0 <= i < group.deep_view().len() ==> rec_wf(#[trigger] group.deep_view()[i]),
    ensures
        r.deep_view() == ranges_of(group.deep_view()),
{
    let ghost gv = group.deep_view();
    let mut done: Vec<DisplayRange> = Vec::new();
    let mut cur: Option<DisplayRange> = None;
    let mut i: usize = 0;
    proof {
        assert(gv.take(0) =~= Seq::<RecordV>::empty());
    }
    while i < group.len()
        invariant
            i <= group@.len(),
            gv == group.deep_view(),
            gv.len() == group@.len(),
            forall|k: int| 0 <= k < gv.len() ==> rec_wf(#[trigger] gv[k]),
            done.deep_view() == agg_run(gv.take(i as int)).done,
            (cur is None) == (agg_run(gv.take(i as int)).cur is None),
            cur matches Some(c) ==> (agg_run(gv.take(i as int)).cur matches Some(cv) && c@ == cv
                && lines_sorted(c@.lines) && 0 <= c.start && c.end <= u64::MAX),
        decreases group@.len() - i,
    {
        let ghost st = agg_run(gv.take(i as int));
        let rec = &group[i];
        assert(rec@ == gv[i as int]);
        assert(rec_wf(rec@));
        let bl: usize = rec.before_context.len();
        assert(rec@.before.len() == bl as int);
        let rstart: u64 = rec.line_number - bl as u64;
        let al: usize = rec.after_context.len();
        assert(rec@.after.len() == al as int);
        let rend: u64 = if al == 0 {
            rec.line_number
        } else {
            rec.line_number + al as u64
        };
        assert(rstart as int == rec_start(rec@));
        assert(rend as int == rec_end(rec@));
        cur = match cur {
            None => {
                let mut ls: Vec<RangeLine> = Vec::new();
                assert(ls.deep_view() =~= Seq::<LineV>::empty());
                merge_record_lines(&mut ls, rec);
                Some(DisplayRange { start: rstart, end: rend, lines: ls })
            },
            Some(c) => {
                if rstart > c.end && rstart - c.end > 2 {
                    let mut ls: Vec<RangeLine> = Vec::new();
                    assert(ls.deep_view() =~= Seq::<LineV>::empty());
                    merge_record_lines(&mut ls, rec);
                    done.push(c);
                    Some(DisplayRange { start: rstart, end: rend, lines: ls })
                } else {
                    let mut c2 = c;
                    if rend > c2.end {
                        c2.end = rend;
                    }
                    merge_record_lines(&mut c2.lines, rec);
                    Some(c2)
                }
            },
        };
        proof {
            assert(gv.take(i + 1).drop_last() =~= gv.take(i as int));
            assert(gv.take(i + 1).last() == gv[i as int]);
            assert(agg_run(gv.take(i + 1)) == agg_step(st, gv[i as int]));
            if st.cur matches Some(cv) && !(rec_start(gv[i as int]) > cv.end + 2) {
                assert(done.deep_view() == agg_run(gv.take(i + 1)).done);
            } else {
                assert(done.deep_view() =~= agg_run(gv.take(i + 1)).done);
            }
        }
        i = i + 1;
    }
    proof {
        assert(gv.take(gv.len() as int) =~= gv);
    }
    let r = match cur {
        None => done,
        Some(c) => {
            let mut d = done;
            d.push(c);
            d
        },
    };
    assert(r.deep_view() =~= ranges_of(gv));
    r
}

// ---------------------------------------------------------------------------
// Executable sorting and grouping.
// ---------------------------------------------------------------------------

/// Stable insertion sort of one file's records by match line number.
fn sort_group(input: &Vec<ContentResult>) -> (r: Vec<ContentResult>)
    ensures
        r.deep_view() == sort_records(input.deep_view()),
        records_sorted(r.deep_view()),
        (forall|k: int|
            0 <= k < input.deep_view().len() ==> rec_wf(#[trigger] input.deep_view()[k]))
            ==> (forall|k: int|
            0 <= k < r.deep_view().len() ==> rec_wf(#[trigger] r.deep_view()[k])),
{
    let ghost iv = input.deep_view();
    let mut out: Vec<ContentResult> = Vec::new();
    let mut i: usize = 0;
    proof {
        assert(iv.take(0) =~= Seq::<RecordV>::empty());
    }
    while i < input.len()
        invariant
            i <= input@.len(),
            iv == input.deep_view(),
            iv.len() == input@.len(),
            out.deep_view() == sort_records(iv.take(i as int)),
            records_sorted(out.deep_view()),
            (forall|k: int| 0 <= k < iv.len() ==> rec_wf(#[trigger] iv[k])) ==> (forall|k: int|
                0 <= k < out.deep_view().len() ==> rec_wf(#[trigger] out.deep_view()[k])),
        decreases input@.len() - i,
    {
        let x = input[i].clone();
        assert(x@ == iv[i as int]);
        let mut j: usize = 0;
        while j < out.len() && out[j].line_number <= x.line_number
            invariant
                j <= out@.len(),
                iv == input.deep_view(),
                x@ == iv[i as int],
                out.deep_view().len() == out@.len(),
                forall|k: int|
                    0 <= k < j ==> #[trigger] out.deep_view()[k].line_number <= x@.line_number,
            decreases out@.len() - j,
        {
            assert(out.deep_view()[j as int].line_number == out@[j as int].line_number as int);
            j = j + 1;
        }
        let ghost prev = out.deep_view();
        proof {
            if (j as int) < prev.len() {
                assert(out@[j as int].line_number > x.line_number);
                assert(prev[j as int].line_number > x@.line_number);
            }
            lemma_sorted_insert_pos(prev, x@, j as int);
        }
        out.insert(j, x);
        proof {
            assert(out.deep_view() =~= prev.take(j as int) + seq![iv[i as int]] + prev.skip(
                j as int,
            ));
            assert(out.deep_view() == sorted_insert(prev, iv[i as int]));
            assert(iv.take(i + 1).drop_last() =~= iv.take(i as int));
            assert(iv.take(i + 1).last() == iv[i as int]);
            assert(out.deep_view() == sort_records(iv.take(i + 1)));
            if (forall|k: int| 0 <= k < iv.len() ==> rec_wf(#[trigger] iv[k])) {
                assert forall|k: int| 0 <= k < out.deep_view().len() implies rec_wf(
                    #[trigger] out.deep_view()[k],
                ) by {
                    if k < j {
                        assert(out.deep_view()[k] == prev[k]);
                    } else if k == j {
                        assert(out.deep_view()[k] == iv[i as int]);
                    } else {
                        assert(out.deep_view()[k] == prev[k - 1]);
                    }
                }
            }
        }
        i = i + 1;
    }
    proof {
        assert(iv.take(iv.len() as int) =~= iv);
    }
    out
}

/// The leading run is exactly the records up to the first path change.
pub proof fn lemma_run_len_at(rs: Seq<RecordV>, k: int)
    requires
        1 <= k <= rs.len(),
        forall|i: int| 0 <= i < k ==> #[trigger] rs[i].path == rs[0].path,
        k < rs.len() ==> rs[k].path != rs[0].path,
    ensures
        run_len(rs) == k,
    decreases rs.len(),
{
    if k == 1 {
    } else {
        assert(rs[1].path == rs[0].path);
        assert forall|i: int| 0 <= i < k - 1 implies #[trigger] rs.drop_first()[i].path
            == rs.drop_first()[0].path by {
            assert(rs.drop_first()[i] == rs[i + 1]);
            assert(rs[i + 1].path == rs[0].path);
        }
        if k - 1 < rs.drop_first().len() {
            assert(rs.drop_first()[k - 1] == rs[k]);
        }
        lemma_run_len_at(rs.drop_first(), k - 1);
    }
}

/// Every group of `grouped` is a nonempty run whose records come from the
/// ungrouped sequence, so well-formedness carries into every group.
pub proof fn lemma_grouped_wf(rs: Seq<RecordV>)
    requires
        forall|i: int| 0 <= i < rs.len() ==> rec_wf(#[trigger] rs[i]),
    ensures
        forall|g: int| 0 <= g < grouped(rs).len() ==> (#[trigger] grouped(rs)[g]).len() > 0,
        forall|g: int, k: int|
            0 <= g < grouped(rs).len() && 0 <= k < grouped(rs)[g].len() ==> rec_wf(
                #[trigger] grouped(rs)[g][k],
            ),
    decreases rs.len(),
{
    if rs.len() > 0 {
        lemma_run_len(rs);
        let n = run_len(rs);
        assert forall|i: int| 0 <= i < rs.skip(n).len() implies rec_wf(
            #[trigger] rs.skip(n)[i],
        ) by {
            assert(rs.skip(n)[i] == rs[n + i]);
        }
        lemma_grouped_wf(rs.skip(n));
        assert forall|g: int| 0 <= g < grouped(rs).len() implies (#[trigger] grouped(
            rs,
        )[g]).len() > 0 by {
            if g == 0 {
                assert(grouped(rs)[0] == rs.take(n));
            } else {
                assert(grouped(rs)[g] == grouped(rs.skip(n))[g - 1]);
            }
        }
        assert forall|g: int, k: int|
            0 <= g < grouped(rs).len() && 0 <= k < grouped(rs)[g].len() implies rec_wf(
            #[trigger] grouped(rs)[g][k]) by {
            if g == 0 {
                assert(grouped(rs)[0] == rs.take(n));
                assert(rs.take(n)[k] == rs[k]);
            } else {
                assert(grouped(rs)[g] == grouped(rs.skip(n))[g - 1]);
            }
        }
    }
}

/// Splits the collected records into consecutive per-file runs.
fn split_groups(results: &Vec<ContentResult>) -> (groups: Vec<Vec<ContentResult>>)
    ensures
        groups.deep_view() == grouped(results.deep_view()),
{
    let ghost rv = results.deep_view();
    let mut groups: Vec<Vec<ContentResult>> = Vec::new();
    let mut idx: usize = 0;
    proof {
        assert(rv.skip(0) =~= rv);
        assert(groups.deep_view() + grouped(rv) =~= grouped(rv));
    }
    while idx < results.len()
        invariant
            idx <= results@.len(),
            rv == results.deep_view(),
            rv.len() == results@.len(),
            grouped(rv) == groups.deep_view() + grouped(rv.skip(idx as int)),
        decreases results@.len() - idx,
    {
        let mut end: usize = idx + 1;
        while end < results.len() && results[end].path == results[idx].path
            invariant
                idx < end <= results@.len(),
                rv == results.deep_view(),
                rv.len() == results@.len(),
                idx < results@.len(),
                forall|k: int| idx <= k < end ==> #[trigger] rv[k].path == rv[idx as int].path,
            decreases results@.len() - end,
        {
            assert(rv[end as int].path == results@[end as int].path@);
            end = end + 1;
        }
        proof {
            let sub = rv.skip(idx as int);
            assert forall|i: int| 0 <= i < end - idx implies #[trigger] sub[i].path
                == sub[0].path by {
                assert(sub[i] == rv[idx + i]);
            }
            if end < results@.len() {
                assert(rv[end as int].path != rv[idx as int].path);
                assert(sub[end - idx] == rv[end as int]);
            }
            lemma_run_len_at(sub, end - idx);
        }
        let mut g: Vec<ContentResult> = Vec::new();
        let mut j: usize = idx;
        proof {
            assert(g.deep_view() =~= rv.subrange(idx as int, idx as int));
        }
        while j < end
            invariant
                idx <= j <= end <= results@.len(),
                rv == results.deep_view(),
                rv.len() == results@.len(),
                g.deep_view() == rv.subrange(idx as int, j as int),
            decreases end - j,
        {
            let ghost prev = g.deep_view();
            g.push(results[j].clone());
            proof {
                assert(g.deep_view() =~= prev.push(rv[j as int]));
                assert(g.deep_view() =~= rv.subrange(idx as int, j + 1));
            }
            j = j + 1;
        }
        let ghost prevg = groups.deep_view();
        groups.push(g);
        proof {
            let sub = rv.skip(idx as int);
            let n = end - idx;
            assert(groups.deep_view() =~= prevg.push(rv.subrange(idx as int, end as int)));
            assert(sub.take(n) =~= rv.subrange(idx as int, end as int));
            assert(sub.skip(n) =~= rv.skip(end as int));
            assert(grouped(sub) == seq![sub.take(n)] + grouped(sub.skip(n)));
            assert(grouped(rv) =~= groups.deep_view() + grouped(rv.skip(end as int)));
        }
        idx = end;
    }
    proof {
        assert(rv.skip(rv.len() as int) =~= Seq::<RecordV>::empty());
        assert(groups.deep_view() + grouped(rv.skip(rv.len() as int)) =~= groups.deep_view());
    }
    groups
}

// ---------------------------------------------------------------------------
// Executable rendering.
// ---------------------------------------------------------------------------

/// Renders one retained line.
fn render_line_exec(path: &String, l: &RangeLine, show: bool) -> (r: String)
    ensures
        r@ == render_line(path@, l@, show),
{
    let mut s = path.clone();
    if show {
        if l.is_match {
            push_char(&mut s, ':');
        } else {
            push_char(&mut s, '-');
        }
        let num = u64_to_dec(l.number);
        push_str(&mut s, num.as_str());
        push_char(&mut s, ':');
    } else {
        push_char(&mut s, ':');
    }
    push_str(&mut s, l.text.as_str());
    proof {
        assert(s@ =~= render_line(path@, l@, show));
    }
    s
}

/// The literal block-separator line.
fn separator() -> (r: String)
    ensures
        r@ == "--"@,
{
    "--".to_owned()
}

/// Appends one file's rendered ranges, a `--` line between ranges.
fn render_ranges_into(path: &String, ranges: &Vec<DisplayRange>, show: bool, out: &mut Vec<
    String,
>)
    ensures
        final(out).deep_view() == old(out).deep_view() + render_ranges(
            path@,
            ranges.deep_view(),
            show,
        ),
{
    let ghost base = out.deep_view();
    let ghost rgs = ranges.deep_view();
    let mut gi: usize = 0;
    proof {
        assert(rgs.take(0) =~= Seq::<RangeV>::empty());
        assert(base + render_ranges(path@, rgs.take(0), show) =~= base);
    }
    while gi < ranges.len()
        invariant
            gi <= ranges@.len(),
            rgs == ranges.deep_view(),
            rgs.len() == ranges@.len(),
            out.deep_view() == base + render_ranges(path@, rgs.take(gi as int), show),
        decreases ranges@.len() - gi,
    {
        if gi > 0 {
            let ghost prev = out.deep_view();
            out.push(separator());
            assert(out.deep_view() =~= prev.push("--"@));
        }
        let ghost base2 = out.deep_view();
        let mut li: usize = 0;
        proof {
            assert(render_lines(path@, rgs[gi as int].lines, show).take(0) =~= Seq::<
                Seq<char>,
            >::empty());
            assert(base2 + render_lines(path@, rgs[gi as int].lines, show).take(0) =~= base2);
        }
        while li < ranges[gi].lines.len()
            invariant
                gi < ranges@.len(),
                li <= ranges@[gi as int].lines@.len(),
                rgs == ranges.deep_view(),
                rgs.len() == ranges@.len(),
                rgs[gi as int].lines.len() == ranges@[gi as int].lines@.len(),
                out.deep_view() == base2 + render_lines(path@, rgs[gi as int].lines, show).take(
                    li as int,
                ),
            decreases ranges@[gi as int].lines@.len() - li,
        {
            let rl = render_line_exec(path, &ranges[gi].lines[li], show);
            let ghost prev = out.deep_view();
            assert(ranges@[gi as int].lines@[li as int]@ == rgs[gi as int].lines[li as int]);
            out.push(rl);
            proof {
                assert(out.deep_view() =~= prev.push(
                    render_line(path@, rgs[gi as int].lines[li as int], show),
                ));
                assert(out.deep_view() =~= base2 + render_lines(
                    path@,
                    rgs[gi as int].lines,
                    show,
                ).take(li + 1));
            }
            li = li + 1;
        }
        proof {
            assert(render_lines(path@, rgs[gi as int].lines, show).take(
                rgs[gi as int].lines.len() as int,
            ) =~= render_lines(path@, rgs[gi as int].lines, show));
            assert(rgs.take(gi + 1).drop_last() =~= rgs.take(gi as int));
            assert(rgs.take(gi + 1).last() == rgs[gi as int]);
            if gi == 0 {
                assert(render_ranges(path@, rgs.take(1), show) == render_lines(
                    path@,
                    rgs.take(1)[0].lines,
                    show,
                ));
                assert(out.deep_view() =~= base + render_ranges(path@, rgs.take(1), show));
            } else {
                assert(render_ranges(path@, rgs.take(gi + 1), show) == render_ranges(
                    path@,
                    rgs.take(gi as int),
                    show,
                ) + seq!["--"@] + render_lines(path@, rgs[gi as int].lines, show));
                assert(out.deep_view() =~= base + render_ranges(path@, rgs.take(gi + 1), show));
            }
        }
        gi = gi + 1;
    }
    proof {
        assert(rgs.take(rgs.len() as int) =~= rgs);
    }
}

/// Appends one file's whole rendered output: records sorted, merged into
/// ranges, rendered under the file's path.
fn render_group_into(g: &Vec<ContentResult>, show: bool, out: &mut Vec<String>)
    requires
        g.deep_view().len() > 0,
        forall|k: int| 0 <= k < g.deep_view().len() ==> rec_wf(#[trigger] g.deep_view()[k]),
    ensures
        final(out).deep_view() == old(out).deep_view() + group_output(g.deep_view(), show),
{
    let path = g[0].path.clone();
    assert(path@ == g.deep_view()[0].path);
    let sorted = sort_group(g);
    let ranges = build_ranges(&sorted);
    render_ranges_into(&path, &ranges, show, out);
}

/// Renders the collected content records in the order the traversal
/// produced them: per-file grouping, sorting, range merging, rendering with
/// `--` separators between files and between ranges, and truncation at the
/// head limit, separators counted.
pub fn format_content_results(
    results: &Vec<ContentResult>,
    show_line_numbers: bool,
    head_limit: Option<usize>,
) -> (r: Vec<String>)
    requires
        forall|i: int|
            0 <= i < results.deep_view().len() ==> rec_wf(#[trigger] results.deep_view()[i]),
    ensures
        r.deep_view() == format_spec(results.deep_view(), show_line_numbers, head_limit),
{
    let ghost rv = results.deep_view();
    let groups = split_groups(results);
    proof {
        lemma_grouped_wf(rv);
    }
    let ghost gsv = groups.deep_view();
    let mut out: Vec<String> = Vec::new();
    let mut gi: usize = 0;
    proof {
        assert(gsv.take(0) =~= Seq::<Seq<RecordV>>::empty());
    }
    while gi < groups.len()
        invariant
            gi <= groups@.len(),
            gsv == groups.deep_view(),
            gsv.len() == groups@.len(),
            gsv == grouped(rv),
            forall|g: int| 0 <= g < gsv.len() ==> (#[trigger] gsv[g]).len() > 0,
            forall|g: int, k: int|
                0 <= g < gsv.len() && 0 <= k < gsv[g].len() ==> rec_wf(#[trigger] gsv[g][k]),
            out.deep_view() == content_output(gsv.take(gi as int), show_line_numbers),
        decreases groups@.len() - gi,
    {
        if gi > 0 {
            let ghost prev = out.deep_view();
            out.push(separator());
            assert(out.deep_view() =~= prev.push("--"@));
        }
        assert(groups@[gi as int].deep_view() == gsv[gi as int]);
        render_group_into(&groups[gi], show_line_numbers, &mut out);
        proof {
            assert(gsv.take(gi + 1).drop_last() =~= gsv.take(gi as int));
            assert(gsv.take(gi + 1).last() == gsv[gi as int]);
            if gi == 0 {
                assert(content_output(gsv.take(1), show_line_numbers) == group_output(
                    gsv.take(1)[0],
                    show_line_numbers,
                ));
                assert(out.deep_view() =~= content_output(gsv.take(1), show_line_numbers));
            } else {
                assert(content_output(gsv.take(gi + 1), show_line_numbers) == content_output(
                    gsv.take(gi as int),
                    show_line_numbers,
                ) + seq!["--"@] + group_output(gsv[gi as int], show_line_numbers));
                assert(out.deep_view() =~= content_output(gsv.take(gi + 1), show_line_numbers));
            }
        }
        gi = gi + 1;
    }
    proof {
        assert(gsv.take(gsv.len() as int) =~= gsv);
    }
    match head_limit {
        None => {},
        Some(n) => {
            if n < out.len() {
                let ghost full = out.deep_view();
                out.truncate(n);
                proof {
                    assert(out.deep_view() =~= full.take(n as int));
                }
            }
        },
    }
    out
}

} // verus!
