use vstd::prelude::*;

use crate::aggregate::{format_content_results, format_spec, rec_wf};
use crate::errors::SearchError;
use crate::filters::{
    glob_ok, glob_view, spec_admits, types_ok, types_view, GlobFilter, TypeFilter,
};
use crate::guard::{cap_reached, deadline_from, sat_add_u64, spec_timed_out};
use crate::pattern::{pattern_ok, MatchSpec, Matcher};
use crate::query::{map_types, mode_of, parse_types, resolve_context, OutputMode, SearchOptions};
use crate::scan::{
    after_window, before_window, count_file_matches, file_has_match, has_match, match_count,
    match_indices, scan_file_content, ContentResult, CountResult, CountV, RecordV,
};

verus! {

/// One observed traversal event: a directory entry together with the clock
/// reading taken before work on it began, or a failure of the enumerator
/// itself, which is fatal to the whole call.
pub enum WalkItem {
    /// A directory entry. `lines` holds the file's lines when it could be
    /// read as text; an unreadable or undecodable file carries `None` and is
    /// silently skipped.
    Entry { now: u64, path: String, is_file: bool, lines: Option<Vec<String>> },
    /// The enumerator failed on this entry.
    Failure { now: u64, message: String },
}

impl WalkItem {
    /// The clock reading taken before this entry was processed.
    pub open spec fn spec_now(&self) -> int {
        match self {
            WalkItem::Entry { now, .. } => *now as int,
            WalkItem::Failure { now, .. } => *now as int,
        }
    }
}

/// How a traversal ends early: the deadline passed, or the enumerator
/// failed; either way partial results are discarded.
pub enum RunErrV {
    Timeout,
    Walk(Seq<char>),
}

/// The record the content scan produces for the match at 0-based index `i`.
pub open spec fn record_at(
    path: Seq<char>,
    lines: Seq<Seq<char>>,
    b: int,
    a: int,
    i: int,
) -> RecordV {
    RecordV {
        path: path,
        line_number: i + 1,
        content: lines[i],
        before: before_window(lines, i, b),
        after: after_window(lines, i, a),
    }
}

/// All content records of one file, one per matching line, in line order.
pub open spec fn file_records(
    k: MatchSpec,
    path: Seq<char>,
    lines: Seq<Seq<char>>,
    b: int,
    a: int,
) -> Seq<RecordV> {
    Seq::new(
        match_indices(k, lines).len(),
        |j: int| record_at(path, lines, b, a, match_indices(k, lines)[j]),
    )
}

/// The files-with-matches traversal: before each entry the deadline is
/// checked, then the cap on distinct paths; a failure of the enumerator is
/// fatal; an admitted, readable file with a match adds its path once.
pub open spec fn files_run(
    k: MatchSpec,
    glob: Option<Seq<char>>,
    types: Option<Seq<Seq<char>>>,
    items: Seq<WalkItem>,
    limit: Option<usize>,
    deadline: Option<u64>,
    acc: Seq<Seq<char>>,
) -> Result<Seq<Seq<char>>, RunErrV>
    decreases items.len(),
{
    if items.len() == 0 {
        Ok(acc)
    } else if spec_timed_out(items[0].spec_now(), deadline) {
        Err(RunErrV::Timeout)
    } else if cap_reached(acc.len() as int, limit) {
        Ok(acc)
    } else {
        match items[0] {
            WalkItem::Failure { message, .. } => Err(RunErrV::Walk(message@)),
            WalkItem::Entry { path, is_file, lines, .. } => {
                let take = is_file && spec_admits(glob, types, path@) && lines is Some
                    && has_match(k, lines->0.deep_view()) && !acc.contains(path@);
                files_run(
                    k,
                    glob,
                    types,
                    items.drop_first(),
                    limit,
                    deadline,
                    if take {
                        acc.push(path@)
                    } else {
                        acc
                    },
                )
            },
        }
    }
}

/// The count traversal: like the files traversal, but the cap counts
/// records, and an admitted, readable file is kept exactly when its match
/// count is positive.
pub open spec fn count_run(
    k: MatchSpec,
    glob: Option<Seq<char>>,
    types: Option<Seq<Seq<char>>>,
    items: Seq<WalkItem>,
    limit: Option<usize>,
    deadline: Option<u64>,
    acc: Seq<CountV>,
) -> Result<Seq<CountV>, RunErrV>
    decreases items.len(),
{
    if items.len() == 0 {
        Ok(acc)
    } else if spec_timed_out(items[0].spec_now(), deadline) {
        Err(RunErrV::Timeout)
    } else if cap_reached(acc.len() as int, limit) {
        Ok(acc)
    } else {
        match items[0] {
            WalkItem::Failure { message, .. } => Err(RunErrV::Walk(message@)),
            WalkItem::Entry { path, is_file, lines, .. } => {
                let take = is_file && spec_admits(glob, types, path@) && lines is Some
                    && match_count(k, lines->0.deep_view()) > 0;
                count_run(
                    k,
                    glob,
                    types,
                    items.drop_first(),
                    limit,
                    deadline,
                    if take {
                        acc.push(
                            CountV {
                                path: path@,
                                count: match_count(k, lines->0.deep_view()) as int,
                            },
                        )
                    } else {
                        acc
                    },
                )
            },
        }
    }
}

/// The content traversal: the deadline is checked before each entry, a
/// failure is fatal, and every admitted, readable file contributes one
/// record per matching line. No cap applies while collecting; the head
/// limit is applied later, to the rendered lines.
pub open spec fn content_run(
    k: MatchSpec,
    glob: Option<Seq<char>>,
    types: Option<Seq<Seq<char>>>,
    items: Seq<WalkItem>,
    b: int,
    a: int,
    deadline: Option<u64>,
    acc: Seq<RecordV>,
) -> Result<Seq<RecordV>, RunErrV>
    decreases items.len(),
{
    if items.len() == 0 {
        Ok(acc)
    } else if spec_timed_out(items[0].spec_now(), deadline) {
        Err(RunErrV::Timeout)
    } else {
        match items[0] {
            WalkItem::Failure { message, .. } => Err(RunErrV::Walk(message@)),
            WalkItem::Entry { path, is_file, lines, .. } => {
                let take = is_file && spec_admits(glob, types, path@) && lines is Some;
                content_run(
                    k,
                    glob,
                    types,
                    items.drop_first(),
                    b,
                    a,
                    deadline,
                    if take {
                        acc + file_records(k, path@, lines->0.deep_view(), b, a)
                    } else {
                        acc
                    },
                )
            },
        }
    }
}

/// Relates an executable files-mode result to the traversal it models.
pub open spec fn files_result_matches(
    r: Result<Vec<String>, SearchError>,
    s: Result<Seq<Seq<char>>, RunErrV>,
) -> bool {
    match s {
        Ok(paths) => r matches Ok(v) && v.deep_view() == paths,
        Err(RunErrV::Timeout) => r matches Err(e) && e is Timeout,
        Err(RunErrV::Walk(msg)) => r matches Err(e) && e matches SearchError::Traversal(t) && t@
            == msg,
    }
}

/// Relates an executable count-mode result to the traversal it models.
pub open spec fn count_result_matches(
    r: Result<Vec<CountResult>, SearchError>,
    s: Result<Seq<CountV>, RunErrV>,
) -> bool {
    match s {
        Ok(counts) => r matches Ok(v) && v.deep_view() == counts,
        Err(RunErrV::Timeout) => r matches Err(e) && e is Timeout,
        Err(RunErrV::Walk(msg)) => r matches Err(e) && e matches SearchError::Traversal(t) && t@
            == msg,
    }
}

/// Relates an executable record collection to the traversal it models.
pub open spec fn content_result_matches(
    r: Result<Vec<ContentResult>, SearchError>,
    s: Result<Seq<RecordV>, RunErrV>,
) -> bool {
    match s {
        Ok(recs) => r matches Ok(v) && v.deep_view() == recs,
        Err(RunErrV::Timeout) => r matches Err(e) && e is Timeout,
        Err(RunErrV::Walk(msg)) => r matches Err(e) && e matches SearchError::Traversal(t) && t@
            == msg,
    }
}

/// Whether a path is already among the collected ones.
fn path_contained(files: &Vec<String>, path: &String) -> (r: bool)
    ensures
        r == files.deep_view().contains(path@),
{
    let mut i: usize = 0;
    while i < files.len()
        invariant
            i <= files@.len(),
            forall|j: int| 0 <= j < i ==> files.deep_view()[j] != path@,
        decreases files@.len() - i,
    {
        if files[i] == *path {
            assert(files.deep_view()[i as int] == path@);
            return true;
        }
        assert(files.deep_view()[i as int] != path@);
        i = i + 1;
    }
    assert(!files.deep_view().contains(path@));
    false
}

/// Whether the cap on emitted result units has been reached.
fn cap_reached_exec(len: usize, limit: Option<usize>) -> (r: bool)
    ensures
        r == cap_reached(len as int, limit),
{
    match limit {
        Some(n) => len >= n,
        None => false,
    }
}

/// Every record the content scan produces is well formed.
pub proof fn lemma_file_records_wf(
    k: MatchSpec,
    path: Seq<char>,
    lines: Seq<Seq<char>>,
    b: int,
    a: int,
)
    requires
        b >= 0,
        a >= 0,
        lines.len() <= u64::MAX,
    ensures
        forall|j: int|
            0 <= j < file_records(k, path, lines, b, a).len() ==> rec_wf(
                #[trigger] file_records(k, path, lines, b, a)[j],
            ),
{
    crate::scan::lemma_match_indices_range(k, lines, lines.len() as int);
    assert forall|j: int| 0 <= j < file_records(k, path, lines, b, a).len() implies rec_wf(
        #[trigger] file_records(k, path, lines, b, a)[j],
    ) by {
        let i = match_indices(k, lines)[j];
        assert(0 <= i < lines.len());
        let r = record_at(path, lines, b, a, i);
        assert(r.before.len() == i - (if i - b > 0 {
            i - b
        } else {
            0
        }));
        assert(r.after.len() == (if i + 1 + a < lines.len() {
            i + 1 + a
        } else {
            lines.len() as int
        }) - (i + 1));
    }
}

/// The result of a search call, in the shape the output mode asks for.
#[derive(Debug)]
pub enum SearchOutput {
    /// Rendered lines and `--` separators, per the content-mode rendering.
    Content(Vec<String>),
    /// Distinct paths of files containing a match; no order is promised.
    Files(Vec<String>),
    /// One record per file with a positive match count.
    Counts(Vec<CountResult>),
}

/// The output-mode string a search call goes by: the one supplied, else the
/// documented default.
pub open spec fn mode_view(opts: &SearchOptions) -> Seq<char> {
    match opts.output_mode {
        Some(s) => s@,
        None => "files_with_matches"@,
    }
}

/// The effective case-insensitive flag.
pub open spec fn ci_of(opts: &SearchOptions) -> bool {
    match opts.case_insensitive {
        Some(b) => b,
        None => false,
    }
}

/// The effective multiline flag.
pub open spec fn ml_of(opts: &SearchOptions) -> bool {
    match opts.multiline {
        Some(b) => b,
        None => false,
    }
}

/// The effective line-number flag.
pub open spec fn show_of(opts: &SearchOptions) -> bool {
    match opts.line_numbers {
        Some(b) => b,
        None => false,
    }
}

/// The effective before-context count: a combined context always wins.
pub open spec fn before_of(opts: &SearchOptions) -> u64 {
    match opts.context {
        Some(c) => c,
        None => match opts.before {
            Some(b) => b,
            None => 0u64,
        },
    }
}

/// The effective after-context count: a combined context always wins.
pub open spec fn after_of(opts: &SearchOptions) -> u64 {
    match opts.context {
        Some(c) => c,
        None => match opts.after {
            Some(a) => a,
            None => 0u64,
        },
    }
}

/// The compilation key a search call hands to the pattern engine.
pub open spec fn key_of(pattern: Seq<char>, opts: &SearchOptions) -> MatchSpec {
    MatchSpec { pattern: pattern, ci: ci_of(opts), ml: ml_of(opts) }
}

/// Whether the requested type names all pass the alias table.
pub open spec fn types_parse_ok(opts: &SearchOptions) -> bool {
    match opts.types {
        Some(v) => map_types(v.deep_view()) is Ok,
        None => true,
    }
}

/// The canonical type names of the request; empty when none were asked for.
pub open spec fn canon_types(opts: &SearchOptions) -> Seq<Seq<char>> {
    match opts.types {
        Some(v) => map_types(v.deep_view())->Ok_0,
        None => Seq::empty(),
    }
}

/// The type filter the traversal runs under: present only when canonical
/// names were selected.
pub open spec fn types_filter_view(opts: &SearchOptions) -> Option<Seq<Seq<char>>> {
    if canon_types(opts).len() > 0 {
        Some(canon_types(opts))
    } else {
        None
    }
}

/// The glob override of the request, if any.
pub open spec fn glob_arg(opts: &SearchOptions) -> Option<Seq<char>> {
    match opts.glob {
        Some(g) => Some(g@),
        None => None,
    }
}

/// The deadline of a call begun at `start_now`: start plus timeout,
/// saturating; no timeout means no deadline.
pub open spec fn deadline_view(start_now: u64, opts: &SearchOptions) -> Option<u64> {
    match opts.timeout_ms {
        Some(t) => Some(sat_add_u64(start_now as int, t as int) as u64),
        None => None,
    }
}

/// All validation stages pass: known mode, known type names, a pattern the
/// engine accepts, a buildable type filter, an acceptable glob.
pub open spec fn valid_query(pattern: Seq<char>, opts: &SearchOptions) -> bool {
    &&& mode_of(mode_view(opts)) is Some
    &&& types_parse_ok(opts)
    &&& pattern_ok(pattern, ci_of(opts), ml_of(opts))
    &&& (canon_types(opts).len() > 0 ==> types_ok(canon_types(opts)))
    &&& (glob_arg(opts) matches Some(g) ==> glob_ok(g))
}

/// Relates a whole search result to the files-mode traversal it models.
pub open spec fn files_outcome(
    r: Result<SearchOutput, SearchError>,
    s: Result<Seq<Seq<char>>, RunErrV>,
) -> bool {
    match s {
        Ok(paths) => r matches Ok(o) && o matches SearchOutput::Files(v) && v.deep_view()
            == paths,
        Err(RunErrV::Timeout) => r matches Err(e) && e is Timeout,
        Err(RunErrV::Walk(msg)) => r matches Err(e) && e matches SearchError::Traversal(t) && t@
            == msg,
    }
}

/// Relates a whole search result to the count-mode traversal it models.
pub open spec fn count_outcome(
    r: Result<SearchOutput, SearchError>,
    s: Result<Seq<CountV>, RunErrV>,
) -> bool {
    match s {
        Ok(counts) => r matches Ok(o) && o matches SearchOutput::Counts(v) && v.deep_view()
            == counts,
        Err(RunErrV::Timeout) => r matches Err(e) && e is Timeout,
        Err(RunErrV::Walk(msg)) => r matches Err(e) && e matches SearchError::Traversal(t) && t@
            == msg,
    }
}

/// Relates a whole search result to the content-mode traversal it models:
/// the collected records are rendered and truncated at the head limit.
pub open spec fn content_outcome(
    r: Result<SearchOutput, SearchError>,
    s: Result<Seq<RecordV>, RunErrV>,
    show: bool,
    limit: Option<usize>,
) -> bool {
    match s {
        Ok(recs) => r matches Ok(o) && o matches SearchOutput::Content(v) && v.deep_view()
            == format_spec(recs, show, limit),
        Err(RunErrV::Timeout) => r matches Err(e) && e is Timeout,
        Err(RunErrV::Walk(msg)) => r matches Err(e) && e matches SearchError::Traversal(t) && t@
            == msg,
    }
}

/// No sequence of paths without duplicates gains one: the files traversal
/// adds a path only after checking it is absent, so files-with-matches
/// never contains duplicate paths, even when a file matches on many lines.
pub proof fn lemma_files_no_duplicates(
    k: MatchSpec,
    glob: Option<Seq<char>>,
    types: Option<Seq<Seq<char>>>,
    items: Seq<WalkItem>,
    limit: Option<usize>,
    deadline: Option<u64>,
    acc: Seq<Seq<char>>,
)
    requires
        forall|i: int, j: int| 0 <= i < j < acc.len() ==> acc[i] != acc[j],
    ensures
        files_run(k, glob, types, items, limit, deadline, acc) matches Ok(v) ==> forall|
            i: int,
            j: int,
        | 0 <= i < j < v.len() ==> v[i] != v[j],
    decreases items.len(),
{
    if items.len() == 0 {
    } else if spec_timed_out(items[0].spec_now(), deadline) {
    } else if cap_reached(acc.len() as int, limit) {
    } else {
        match items[0] {
            WalkItem::Failure { .. } => {},
            WalkItem::Entry { path, is_file, lines, .. } => {
                let take = is_file && spec_admits(glob, types, path@) && lines is Some
                    && has_match(k, lines->0.deep_view()) && !acc.contains(path@);
                if take {
                    assert forall|i: int, j: int|
                        0 <= i < j < acc.push(path@).len() implies acc.push(path@)[i]
                        != acc.push(path@)[j] by {
                        if j == acc.len() {
                            assert(!acc.contains(path@));
                            assert(acc[i] != path@);
                        }
                    }
                    lemma_files_no_duplicates(
                        k,
                        glob,
                        types,
                        items.drop_first(),
                        limit,
                        deadline,
                        acc.push(path@),
                    );
                } else {
                    lemma_files_no_duplicates(
                        k,
                        glob,
                        types,
                        items.drop_first(),
                        limit,
                        deadline,
                        acc,
                    );
                }
            },
        }
    }
}

/// A head limit caps the files traversal: starting within the cap, the
/// distinct paths returned never exceed it.
pub proof fn lemma_files_head_limit(
    k: MatchSpec,
    glob: Option<Seq<char>>,
    types: Option<Seq<Seq<char>>>,
    items: Seq<WalkItem>,
    n: usize,
    deadline: Option<u64>,
    acc: Seq<Seq<char>>,
)
    requires
        acc.len() <= n,
    ensures
        files_run(k, glob, types, items, Some(n), deadline, acc) matches Ok(v) ==> v.len() <= n,
    decreases items.len(),
{
    if items.len() == 0 {
    } else if spec_timed_out(items[0].spec_now(), deadline) {
    } else if cap_reached(acc.len() as int, Some(n)) {
    } else {
        match items[0] {
            WalkItem::Failure { .. } => {},
            WalkItem::Entry { path, is_file, lines, .. } => {
                let take = is_file && spec_admits(glob, types, path@) && lines is Some
                    && has_match(k, lines->0.deep_view()) && !acc.contains(path@);
                if take {
                    lemma_files_head_limit(
                        k,
                        glob,
                        types,
                        items.drop_first(),
                        n,
                        deadline,
                        acc.push(path@),
                    );
                } else {
                    lemma_files_head_limit(k, glob, types, items.drop_first(), n, deadline, acc);
                }
            },
        }
    }
}

/// A head limit caps the count traversal at that many records.
pub proof fn lemma_count_head_limit(
    k: MatchSpec,
    glob: Option<Seq<char>>,
    types: Option<Seq<Seq<char>>>,
    items: Seq<WalkItem>,
    n: usize,
    deadline: Option<u64>,
    acc: Seq<CountV>,
)
    requires
        acc.len() <= n,
    ensures
        count_run(k, glob, types, items, Some(n), deadline, acc) matches Ok(v) ==> v.len() <= n,
    decreases items.len(),
{
    if items.len() == 0 {
    } else if spec_timed_out(items[0].spec_now(), deadline) {
    } else if cap_reached(acc.len() as int, Some(n)) {
    } else {
        match items[0] {
            WalkItem::Failure { .. } => {},
            WalkItem::Entry { path, is_file, lines, .. } => {
                let take = is_file && spec_admits(glob, types, path@) && lines is Some
                    && match_count(k, lines->0.deep_view()) > 0;
                if take {
                    lemma_count_head_limit(
                        k,
                        glob,
                        types,
                        items.drop_first(),
                        n,
                        deadline,
                        acc.push(
                            CountV {
                                path: path@,
                                count: match_count(k, lines->0.deep_view()) as int,
                            },
                        ),
                    );
                } else {
                    lemma_count_head_limit(k, glob, types, items.drop_first(), n, deadline, acc);
                }
            },
        }
    }
}

/// Count mode never includes a file with a zero count: every record the
/// count traversal keeps has a positive count.
pub proof fn lemma_count_positive(
    k: MatchSpec,
    glob: Option<Seq<char>>,
    types: Option<Seq<Seq<char>>>,
    items: Seq<WalkItem>,
    limit: Option<usize>,
    deadline: Option<u64>,
    acc: Seq<CountV>,
)
    requires
        forall|i: int| 0 <= i < acc.len() ==> acc[i].count > 0,
    ensures
        count_run(k, glob, types, items, limit, deadline, acc) matches Ok(v) ==> forall|i: int|
            0 <= i < v.len() ==> v[i].count > 0,
    decreases items.len(),
{
    if items.len() == 0 {
    } else if spec_timed_out(items[0].spec_now(), deadline) {
    } else if cap_reached(acc.len() as int, limit) {
    } else {
        match items[0] {
            WalkItem::Failure { .. } => {},
            WalkItem::Entry { path, is_file, lines, .. } => {
                let take = is_file && spec_admits(glob, types, path@) && lines is Some
                    && match_count(k, lines->0.deep_view()) > 0;
                if take {
                    let c = CountV { path: path@, count: match_count(k, lines->0.deep_view()) as int };
                    assert forall|i: int| 0 <= i < acc.push(c).len() implies acc.push(c)[i].count
                        > 0 by {
                        if i < acc.len() {
                            assert(acc.push(c)[i] == acc[i]);
                        }
                    }
                    lemma_count_positive(
                        k,
                        glob,
                        types,
                        items.drop_first(),
                        limit,
                        deadline,
                        acc.push(c),
                    );
                } else {
                    lemma_count_positive(k, glob, types, items.drop_first(), limit, deadline, acc);
                }
            },
        }
    }
}

/// A deadline already passed at the first traversal entry aborts every mode
/// at once with the dedicated timeout signal: nothing is scanned and no
/// partial result survives.
pub proof fn lemma_immediate_timeout(
    k: MatchSpec,
    glob: Option<Seq<char>>,
    types: Option<Seq<Seq<char>>>,
    items: Seq<WalkItem>,
    limit: Option<usize>,
    b: int,
    a: int,
    deadline: Option<u64>,
)
    requires
        items.len() > 0,
        spec_timed_out(items[0].spec_now(), deadline),
    ensures
        files_run(k, glob, types, items, limit, deadline, Seq::empty()) == Err::<
            Seq<Seq<char>>,
            RunErrV,
        >(RunErrV::Timeout),
        count_run(k, glob, types, items, limit, deadline, Seq::empty()) == Err::<
            Seq<CountV>,
            RunErrV,
        >(RunErrV::Timeout),
        content_run(k, glob, types, items, b, a, deadline, Seq::empty()) == Err::<
            Seq<RecordV>,
            RunErrV,
        >(RunErrV::Timeout),
{
}

/// The head limit in content mode caps the emitted lines and separators.
pub proof fn lemma_content_head_limit(rs: Seq<RecordV>, show: bool, n: usize)
    ensures
        format_spec(rs, show, Some(n)).len() <= n,
{
}

/// Main search interface. Stateless: every call walks anew and allocates
/// its own result state, so concurrent calls never share mutable state.
pub struct Grep {}

impl Grep {
    /// Creates the search interface.
    pub fn new() -> (r: Grep) {
        Grep {  }
    }

    /// The single entry point: validates and canonicalizes the raw options,
    /// compiles the pattern, builds the two file filters, and runs the
    /// traversal the output mode asks for over the observed walk events.
    /// Validation errors come in a fixed order, before any traversal:
    /// unknown output mode, unknown type name, malformed pattern, type
    /// filter build failure, malformed glob.
    pub fn search(
        &self,
        pattern: &str,
        opts: &SearchOptions,
        start_now: u64,
        items: &Vec<WalkItem>,
    ) -> (r: Result<SearchOutput, SearchError>)
        ensures
            mode_of(mode_view(opts)) is None ==> (r matches Err(e)
                && e matches SearchError::InvalidOutputMode(t) && t@ == mode_view(opts)),
            mode_of(mode_view(opts)) is Some ==> (opts.types matches Some(tv0) ==> (map_types(
                tv0.deep_view(),
            ) matches Err(bad) ==> (r matches Err(e)
                && e matches SearchError::UnknownFileType(u) && u@ == bad))),
            (mode_of(mode_view(opts)) is Some && types_parse_ok(opts) && !pattern_ok(
                pattern@,
                ci_of(opts),
                ml_of(opts),
            )) ==> (r matches Err(e) && e is InvalidPattern),
            (mode_of(mode_view(opts)) is Some && types_parse_ok(opts) && pattern_ok(
                pattern@,
                ci_of(opts),
                ml_of(opts),
            ) && canon_types(opts).len() > 0 && !types_ok(canon_types(opts))) ==> (r matches Err(
                e,
            ) && e is InvalidTypeConfig),
            (mode_of(mode_view(opts)) is Some && types_parse_ok(opts) && pattern_ok(
                pattern@,
                ci_of(opts),
                ml_of(opts),
            ) && (canon_types(opts).len() > 0 ==> types_ok(canon_types(opts)))) ==> (glob_arg(
                opts,
            ) matches Some(g) && !glob_ok(g) ==> (r matches Err(e) && e is InvalidGlob)),
            (valid_query(pattern@, opts) && mode_of(mode_view(opts)) == Some(
                OutputMode::FilesWithMatches,
            )) ==> files_outcome(
                r,
                files_run(
                    key_of(pattern@, opts),
                    glob_arg(opts),
                    types_filter_view(opts),
                    items@,
                    opts.head_limit,
                    deadline_view(start_now, opts),
                    Seq::empty(),
                ),
            ),
            (valid_query(pattern@, opts) && mode_of(mode_view(opts)) == Some(OutputMode::Count))
                ==> count_outcome(
                r,
                count_run(
                    key_of(pattern@, opts),
                    glob_arg(opts),
                    types_filter_view(opts),
                    items@,
                    opts.head_limit,
                    deadline_view(start_now, opts),
                    Seq::empty(),
                ),
            ),
            (valid_query(pattern@, opts) && mode_of(mode_view(opts)) == Some(
                OutputMode::Content,
            )) ==> content_outcome(
                r,
                content_run(
                    key_of(pattern@, opts),
                    glob_arg(opts),
                    types_filter_view(opts),
                    items@,
                    before_of(opts) as int,
                    after_of(opts) as int,
                    deadline_view(start_now, opts),
                    Seq::empty(),
                ),
                show_of(opts),
                opts.head_limit,
            ),
    {
        // Output mode: unknown strings are rejected first.
        let mode: OutputMode = match &opts.output_mode {
            Some(s) => {
                match OutputMode::from_str(s.as_str()) {
                    Ok(mo) => mo,
                    Err(e) => {
                        return Err(e);
                    },
                }
            },
            None => {
                proof {
                    reveal_strlit("content");
                    reveal_strlit("files_with_matches");
                    reveal_strlit("count");
                    assert("files_with_matches"@.len() == 18);
                    assert("content"@.len() == 7);
                    assert("files_with_matches"@ != "content"@);
                    assert(mode_of("files_with_matches"@) == Some(
                        OutputMode::FilesWithMatches,
                    ));
                }
                OutputMode::FilesWithMatches
            },
        };
        assert(mode_of(mode_view(opts)) == Some(mode));
        // Context: a combined value overrides before/after.
        let (before, after) = resolve_context(opts.before, opts.after, opts.context);
        assert(before == before_of(opts) && after == after_of(opts));
        // File types through the alias table.
        let parsed: Vec<String> = match parse_types(opts.types.as_ref()) {
            Ok(v) => v,
            Err(e) => {
                return Err(e);
            },
        };
        assert(types_parse_ok(opts) && parsed.deep_view() == canon_types(opts));
        // The compiled matcher; failure aborts before any traversal.
        let case_insensitive = match opts.case_insensitive {
            Some(b) => b,
            None => false,
        };
        let multiline = match opts.multiline {
            Some(b) => b,
            None => false,
        };
        let m: Matcher = match Matcher::compile(pattern, case_insensitive, multiline) {
            Ok(m) => m,
            Err(e) => {
                return Err(e);
            },
        };
        assert(m.key() == key_of(pattern@, opts));
        // The post-enumeration type filter, only when types were selected.
        let tf: Option<TypeFilter> = if parsed.len() > 0 {
            match TypeFilter::new(&parsed) {
                Ok(t) => Some(t),
                Err(e) => {
                    return Err(e);
                },
            }
        } else {
            None
        };
        assert(types_view(&tf) == types_filter_view(opts));
        // The traversal-time glob override, only when one was given.
        let gf: Option<GlobFilter> = match &opts.glob {
            Some(g) => {
                match GlobFilter::new(g.as_str()) {
                    Ok(f) => Some(f),
                    Err(e) => {
                        return Err(e);
                    },
                }
            },
            None => None,
        };
        assert(glob_view(&gf) == glob_arg(opts));
        // The deadline of this call.
        let deadline = deadline_from(start_now, opts.timeout_ms);
        assert(deadline == deadline_view(start_now, opts));
        match mode {
            OutputMode::Content => {
                let recs = match self.search_content(
                    &m,
                    &gf,
                    &tf,
                    items,
                    before,
                    after,
                    deadline,
                ) {
                    Ok(v) => v,
                    Err(e) => {
                        return Err(e);
                    },
                };
                let show = match opts.line_numbers {
                    Some(b) => b,
                    None => false,
                };
                let out = format_content_results(&recs, show, opts.head_limit);
                Ok(SearchOutput::Content(out))
            },
            OutputMode::FilesWithMatches => {
                match self.search_files(&m, &gf, &tf, items, opts.head_limit, deadline) {
                    Ok(v) => Ok(SearchOutput::Files(v)),
                    Err(e) => Err(e),
                }
            },
            OutputMode::Count => {
                match self.search_count(&m, &gf, &tf, items, opts.head_limit, deadline) {
                    Ok(v) => Ok(SearchOutput::Counts(v)),
                    Err(e) => Err(e),
                }
            },
        }
    }

    /// Files-with-matches traversal over the observed walk events: the
    /// deadline is checked before each entry, the enumerator's failures are
    /// fatal, matching files are collected without duplicates, and the
    /// traversal stops once the cap is reached.
    pub fn search_files(
        &self,
        m: &Matcher,
        glob: &Option<GlobFilter>,
        types: &Option<TypeFilter>,
        items: &Vec<WalkItem>,
        head_limit: Option<usize>,
        deadline: Option<u64>,
    ) -> (r: Result<Vec<String>, SearchError>)
        ensures
            files_result_matches(
                r,
                files_run(
                    m.key(),
                    glob_view(glob),
                    types_view(types),
                    items@,
                    head_limit,
                    deadline,
                    Seq::empty(),
                ),
            ),
    {
        let ghost k = m.key();
        let ghost gv = glob_view(glob);
        let ghost tv = types_view(types);
        let ghost iv = items@;
        let mut files: Vec<String> = Vec::new();
        let mut i: usize = 0;
        proof {
            assert(iv.skip(0) =~= iv);
            assert(files.deep_view() =~= Seq::<Seq<char>>::empty());
        }
        while i < items.len()
            invariant
                i <= items@.len(),
                iv == items@,
                k == m.key(),
                gv == glob_view(glob),
                tv == types_view(types),
                files_run(k, gv, tv, iv, head_limit, deadline, Seq::empty()) == files_run(
                    k,
                    gv,
                    tv,
                    iv.skip(i as int),
                    head_limit,
                    deadline,
                    files.deep_view(),
                ),
            decreases items@.len() - i,
        {
            let ghost rem = iv.skip(i as int);
            let ghost acc0 = files.deep_view();
            proof {
                assert(rem[0] == iv[i as int]);
                assert(rem.drop_first() =~= iv.skip(i + 1));
            }
            let now = match &items[i] {
                WalkItem::Entry { now, .. } => *now,
                WalkItem::Failure { now, .. } => *now,
            };
            assert(now as int == iv[i as int].spec_now());
            if crate::guard::timed_out(now, deadline) {
                return Err(SearchError::Timeout);
            }
            if cap_reached_exec(files.len(), head_limit) {
                return Ok(files);
            }
            match &items[i] {
                WalkItem::Failure { message, .. } => {
                    let msg = message.clone();
                    assert(iv[i as int] matches WalkItem::Failure { message: mm, .. } && msg@
                        == mm@);
                    return Err(SearchError::Traversal(msg));
                },
                WalkItem::Entry { path, is_file, lines, .. } => {
                    if *is_file {
                        if crate::filters::entry_admitted(glob, types, path.as_str()) {
                            match lines {
                                Some(ls) => {
                                    if file_has_match(m, ls) {
                                        if !path_contained(&files, path) {
                                            let ghost prevf = files.deep_view();
                                            files.push(path.clone());
                                            proof {
                                                assert(files.deep_view() =~= prevf.push(path@));
                                            }
                                        }
                                    }
                                },
                                None => {},
                            }
                        }
                    }
                    proof {
                        assert(files_run(k, gv, tv, rem, head_limit, deadline, acc0)
                            == files_run(
                            k,
                            gv,
                            tv,
                            iv.skip(i + 1),
                            head_limit,
                            deadline,
                            files.deep_view(),
                        ));
                    }
                },
            }
            i = i + 1;
        }
        proof {
            assert(iv.skip(iv.len() as int) =~= Seq::<WalkItem>::empty());
        }
        Ok(files)
    }

    /// Count traversal over the observed walk events: per-file match counts,
    /// only files with a positive count kept, capped at the record limit.
    pub fn search_count(
        &self,
        m: &Matcher,
        glob: &Option<GlobFilter>,
        types: &Option<TypeFilter>,
        items: &Vec<WalkItem>,
        head_limit: Option<usize>,
        deadline: Option<u64>,
    ) -> (r: Result<Vec<CountResult>, SearchError>)
        ensures
            count_result_matches(
                r,
                count_run(
                    m.key(),
                    glob_view(glob),
                    types_view(types),
                    items@,
                    head_limit,
                    deadline,
                    Seq::empty(),
                ),
            ),
    {
        let ghost k = m.key();
        let ghost gv = glob_view(glob);
        let ghost tv = types_view(types);
        let ghost iv = items@;
        let mut counts: Vec<CountResult> = Vec::new();
        let mut i: usize = 0;
        proof {
            assert(iv.skip(0) =~= iv);
            assert(counts.deep_view() =~= Seq::<CountV>::empty());
        }
        while i < items.len()
            invariant
                i <= items@.len(),
                iv == items@,
                k == m.key(),
                gv == glob_view(glob),
                tv == types_view(types),
                count_run(k, gv, tv, iv, head_limit, deadline, Seq::empty()) == count_run(
                    k,
                    gv,
                    tv,
                    iv.skip(i as int),
                    head_limit,
                    deadline,
                    counts.deep_view(),
                ),
            decreases items@.len() - i,
        {
            let ghost rem = iv.skip(i as int);
            let ghost acc0 = counts.deep_view();
            proof {
                assert(rem[0] == iv[i as int]);
                assert(rem.drop_first() =~= iv.skip(i + 1));
            }
            let now = match &items[i] {
                WalkItem::Entry { now, .. } => *now,
                WalkItem::Failure { now, .. } => *now,
            };
            assert(now as int == iv[i as int].spec_now());
            if crate::guard::timed_out(now, deadline) {
                return Err(SearchError::Timeout);
            }
            if cap_reached_exec(counts.len(), head_limit) {
                return Ok(counts);
            }
            match &items[i] {
                WalkItem::Failure { message, .. } => {
                    let msg = message.clone();
                    assert(iv[i as int] matches WalkItem::Failure { message: mm, .. } && msg@
                        == mm@);
                    return Err(SearchError::Traversal(msg));
                },
                WalkItem::Entry { path, is_file, lines, .. } => {
                    if *is_file {
                        if crate::filters::entry_admitted(glob, types, path.as_str()) {
                            match lines {
                                Some(ls) => {
                                    let c = count_file_matches(m, ls);
                                    if c > 0 {
                                        let ghost prevc = counts.deep_view();
                                        counts.push(
                                            CountResult { path: path.clone(), count: c },
                                        );
                                        proof {
                                            assert(counts.deep_view() =~= prevc.push(
                                                CountV { path: path@, count: c as int },
                                            ));
                                        }
                                    }
                                },
                                None => {},
                            }
                        }
                    }
                    proof {
                        assert(count_run(k, gv, tv, rem, head_limit, deadline, acc0)
                            == count_run(
                            k,
                            gv,
                            tv,
                            iv.skip(i + 1),
                            head_limit,
                            deadline,
                            counts.deep_view(),
                        ));
                    }
                },
            }
            i = i + 1;
        }
        proof {
            assert(iv.skip(iv.len() as int) =~= Seq::<WalkItem>::empty());
        }
        Ok(counts)
    }

    /// Content traversal over the observed walk events: every admitted,
    /// readable file contributes one record per matching line, with context
    /// windows bounded by the requested before/after counts.
    pub fn search_content(
        &self,
        m: &Matcher,
        glob: &Option<GlobFilter>,
        types: &Option<TypeFilter>,
        items: &Vec<WalkItem>,
        before: u64,
        after: u64,
        deadline: Option<u64>,
    ) -> (r: Result<Vec<ContentResult>, SearchError>)
        ensures
            content_result_matches(
                r,
                content_run(
                    m.key(),
                    glob_view(glob),
                    types_view(types),
                    items@,
                    before as int,
                    after as int,
                    deadline,
                    Seq::empty(),
                ),
            ),
            r matches Ok(v) ==> forall|j: int|
                0 <= j < v.deep_view().len() ==> rec_wf(#[trigger] v.deep_view()[j]),
    {
        let ghost k = m.key();
        let ghost gv = glob_view(glob);
        let ghost tv = types_view(types);
        let ghost iv = items@;
        let mut results: Vec<ContentResult> = Vec::new();
        let mut i: usize = 0;
        proof {
            assert(iv.skip(0) =~= iv);
            assert(results.deep_view() =~= Seq::<RecordV>::empty());
        }
        while i < items.len()
            invariant
                i <= items@.len(),
                iv == items@,
                k == m.key(),
                gv == glob_view(glob),
                tv == types_view(types),
                content_run(k, gv, tv, iv, before as int, after as int, deadline, Seq::empty())
                    == content_run(
                    k,
                    gv,
                    tv,
                    iv.skip(i as int),
                    before as int,
                    after as int,
                    deadline,
                    results.deep_view(),
                ),
                forall|j: int|
                    0 <= j < results.deep_view().len() ==> rec_wf(
                        #[trigger] results.deep_view()[j],
                    ),
            decreases items@.len() - i,
        {
            let ghost rem = iv.skip(i as int);
            let ghost acc0 = results.deep_view();
            proof {
                assert(rem[0] == iv[i as int]);
                assert(rem.drop_first() =~= iv.skip(i + 1));
            }
            let now = match &items[i] {
                WalkItem::Entry { now, .. } => *now,
                WalkItem::Failure { now, .. } => *now,
            };
            assert(now as int == iv[i as int].spec_now());
            if crate::guard::timed_out(now, deadline) {
                return Err(SearchError::Timeout);
            }
            match &items[i] {
                WalkItem::Failure { message, .. } => {
                    let msg = message.clone();
                    assert(iv[i as int] matches WalkItem::Failure { message: mm, .. } && msg@
                        == mm@);
                    return Err(SearchError::Traversal(msg));
                },
                WalkItem::Entry { path, is_file, lines, .. } => {
                    if *is_file {
                        if crate::filters::entry_admitted(glob, types, path.as_str()) {
                            match lines {
                                Some(ls) => {
                                    scan_file_content(m, path, ls, before, after, &mut results);
                                    proof {
                                        let fr = file_records(
                                            k,
                                            path@,
                                            ls.deep_view(),
                                            before as int,
                                            after as int,
                                        );
                                        assert forall|j: int| 0 <= j < fr.len() implies results
                                            .deep_view()[acc0.len() + j] == fr[j] by {
                                            assert(results@[acc0.len() + j]@ == record_at(
                                                path@,
                                                ls.deep_view(),
                                                before as int,
                                                after as int,
                                                match_indices(k, ls.deep_view())[j],
                                            ));
                                        }
                                        assert(results.deep_view() =~= acc0 + fr);
                                        assert(vstd::std_specs::vec::spec_vec_len(ls) == ls@.len());
                                        assert(ls.deep_view().len() <= u64::MAX);
                                        lemma_file_records_wf(
                                            k,
                                            path@,
                                            ls.deep_view(),
                                            before as int,
                                            after as int,
                                        );
                                    }
                                },
                                None => {},
                            }
                        }
                    }
                    proof {
                        assert(content_run(
                            k,
                            gv,
                            tv,
                            rem,
                            before as int,
                            after as int,
                            deadline,
                            acc0,
                        ) == content_run(
                            k,
                            gv,
                            tv,
                            iv.skip(i + 1),
                            before as int,
                            after as int,
                            deadline,
                            results.deep_view(),
                        ));
                    }
                },
            }
            i = i + 1;
        }
        proof {
            assert(iv.skip(iv.len() as int) =~= Seq::<WalkItem>::empty());
        }
        Ok(results)
    }
}

} // verus!
