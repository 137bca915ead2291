use vstd::prelude::*;

use crate::pattern::{line_hits, MatchSpec, Matcher};

verus! {

/// Search result for content mode: one match line with its context windows.
#[derive(Debug)]
pub struct ContentResult {
    /// Path of the file the match was found in.
    pub path: String,
    /// 1-based line number of the match.
    pub line_number: u64,
    /// The match line itself, line terminator stripped.
    pub content: String,
    /// Up to the requested number of preceding lines, oldest first.
    pub before_context: Vec<String>,
    /// Up to the requested number of following lines, nearest first.
    pub after_context: Vec<String>,
}

/// Search result for count mode: a file and its positive match count.
#[derive(Debug)]
pub struct CountResult {
    /// Path of the file.
    pub path: String,
    /// Number of matching lines; only files with a positive count are kept.
    pub count: u64,
}

/// An element-for-element copy of a vector of strings.
pub fn clone_string_vec(v: &Vec<String>) -> (r: Vec<String>)
    ensures
        r.deep_view() == v.deep_view(),
{
    let mut r: Vec<String> = Vec::new();
    let mut i: usize = 0;
    while i < v.len()
        invariant
            i <= v@.len(),
            r.deep_view() =~= v.deep_view().take(i as int),
        decreases v@.len() - i,
    {
        let cl = v[i].clone();
        let ghost prev = r.deep_view();
        r.push(cl);
        assert(r.deep_view() =~= prev.push(v.deep_view()[i as int]));
        assert(r.deep_view() =~= v.deep_view().take(i + 1));
        i = i + 1;
    }
    assert(v.deep_view().take(v@.len() as int) =~= v.deep_view());
    r
}

/// The mathematical content of a `ContentResult`.
pub struct RecordV {
    pub path: Seq<char>,
    pub line_number: int,
    pub content: Seq<char>,
    pub before: Seq<Seq<char>>,
    pub after: Seq<Seq<char>>,
}

impl View for ContentResult {
    type V = RecordV;

    open spec fn view(&self) -> RecordV {
        RecordV {
            path: self.path@,
            line_number: self.line_number as int,
            content: self.content@,
            before: self.before_context.deep_view(),
            after: self.after_context.deep_view(),
        }
    }
}

impl DeepView for ContentResult {
    type V = RecordV;

    open spec fn deep_view(&self) -> RecordV {
        self@
    }
}

impl Clone for ContentResult {
    /// A copy with the same mathematical content.
    fn clone(&self) -> (r: Self)
        ensures
            r@ == self@,
    {
        ContentResult {
            path: self.path.clone(),
            line_number: self.line_number,
            content: self.content.clone(),
            before_context: clone_string_vec(&self.before_context),
            after_context: clone_string_vec(&self.after_context),
        }
    }
}

/// The mathematical content of a `CountResult`.
pub struct CountV {
    pub path: Seq<char>,
    pub count: int,
}

impl View for CountResult {
    type V = CountV;

    open spec fn view(&self) -> CountV {
        CountV { path: self.path@, count: self.count as int }
    }
}

impl DeepView for CountResult {
    type V = CountV;

    open spec fn deep_view(&self) -> CountV {
        self@
    }
}

/// How many of the first `n` lines match.
pub open spec fn match_count_prefix(k: MatchSpec, lines: Seq<Seq<char>>, n: int) -> nat
    decreases n,
{
    if n <= 0 {
        0
    } else {
        match_count_prefix(k, lines, n - 1) + (if line_hits(k, lines[n - 1]) {
            1nat
        } else {
            0nat
        })
    }
}

/// How many lines of the file match.
pub open spec fn match_count(k: MatchSpec, lines: Seq<Seq<char>>) -> nat {
    match_count_prefix(k, lines, lines.len() as int)
}

/// Whether any line of the file matches.
pub open spec fn has_match(k: MatchSpec, lines: Seq<Seq<char>>) -> bool {
    exists|i: int| 0 <= i < lines.len() && line_hits(k, lines[i])
}

/// The 0-based indices of the matching lines among the first `n`, ascending.
pub open spec fn match_indices_prefix(k: MatchSpec, lines: Seq<Seq<char>>, n: int) -> Seq<int>
    decreases n,
{
    if n <= 0 {
        Seq::empty()
    } else {
        match_indices_prefix(k, lines, n - 1) + (if line_hits(k, lines[n - 1]) {
            seq![n - 1]
        } else {
            Seq::empty()
        })
    }
}

/// The 0-based indices of all matching lines, ascending.
pub open spec fn match_indices(k: MatchSpec, lines: Seq<Seq<char>>) -> Seq<int> {
    match_indices_prefix(k, lines, lines.len() as int)
}

/// The before-context window of a match at 0-based index `i`: up to `b`
/// preceding lines, clamped at the start of the file, oldest first.
pub open spec fn before_window(lines: Seq<Seq<char>>, i: int, b: int) -> Seq<Seq<char>> {
    lines.subrange(if i - b > 0 {
        i - b
    } else {
        0
    }, i)
}

/// The after-context window of a match at 0-based index `i`: up to `a`
/// following lines, clamped at the end of the file, nearest first.
pub open spec fn after_window(lines: Seq<Seq<char>>, i: int, a: int) -> Seq<Seq<char>> {
    lines.subrange(i + 1, if i + 1 + a < lines.len() {
        i + 1 + a
    } else {
        lines.len() as int
    })
}

/// `r` is exactly the content record for the match at 0-based index `i` of
/// the given file, with context bounds `b` and `a`.
pub open spec fn is_record_for(
    r: ContentResult,
    path: Seq<char>,
    lines: Seq<Seq<char>>,
    b: int,
    a: int,
    i: int,
) -> bool {
    &&& r.path@ == path
    &&& r.line_number == i + 1
    &&& r.content@ == lines[i]
    &&& r.before_context.deep_view() == before_window(lines, i, b)
    &&& r.after_context.deep_view() == after_window(lines, i, a)
}

/// Every matching index lies among the lines scanned.
pub proof fn lemma_match_indices_range(k: MatchSpec, lines: Seq<Seq<char>>, n: int)
    ensures
        forall|j: int|
            0 <= j < match_indices_prefix(k, lines, n).len() ==> 0 <= #[trigger] match_indices_prefix(
                k,
                lines,
                n,
            )[j] < n,
    decreases n,
{
    if n > 0 {
        lemma_match_indices_range(k, lines, n - 1);
        let pre = match_indices_prefix(k, lines, n - 1);
        assert forall|j: int| 0 <= j < match_indices_prefix(k, lines, n).len() implies 0 <= (
        #[trigger] match_indices_prefix(k, lines, n)[j]) < n by {
            if j < pre.len() {
                assert(match_indices_prefix(k, lines, n)[j] == pre[j]);
            } else {
                assert(match_indices_prefix(k, lines, n)[j] == n - 1);
            }
        }
    }
}

/// The number of matching lines equals the number of matching indices.
pub proof fn lemma_match_indices_count(k: MatchSpec, lines: Seq<Seq<char>>, n: int)
    ensures
        match_indices_prefix(k, lines, n).len() == match_count_prefix(k, lines, n),
    decreases n,
{
    if n > 0 {
        lemma_match_indices_count(k, lines, n - 1);
    }
}

/// A file has a match exactly when its match count is positive.
pub proof fn lemma_has_match_count(k: MatchSpec, lines: Seq<Seq<char>>)
    ensures
        has_match(k, lines) <==> match_count(k, lines) > 0,
{
    lemma_has_match_count_prefix(k, lines, lines.len() as int);
}

proof fn lemma_has_match_count_prefix(k: MatchSpec, lines: Seq<Seq<char>>, n: int)
    requires
        n <= lines.len(),
    ensures
        (exists|i: int| 0 <= i < n && line_hits(k, lines[i])) <==> match_count_prefix(
            k,
            lines,
            n,
        ) > 0,
    decreases n,
{
    if n > 0 {
        lemma_has_match_count_prefix(k, lines, n - 1);
        if line_hits(k, lines[n - 1]) {
            assert(0 <= n - 1 < n && line_hits(k, lines[n - 1]));
        } else {
            assert((exists|i: int| 0 <= i < n && line_hits(k, lines[i])) ==> (exists|i: int|
                0 <= i < n - 1 && line_hits(k, lines[i])));
        }
    }
}

/// Content scan of one file: reads the lines as given, tests every line, and
/// appends one record per matching line, even if context windows overlap a
/// neighboring match's window; overlap is resolved later, by the aggregator.
pub fn scan_file_content(
    m: &Matcher,
    path: &String,
    lines: &Vec<String>,
    before: u64,
    after: u64,
    results: &mut Vec<ContentResult>,
)
    ensures
        final(results)@.len() == old(results)@.len() + match_indices(
            m.key(),
            lines.deep_view(),
        ).len(),
        forall|j: int|
            0 <= j < old(results)@.len() ==> final(results)@[j] == old(results)@[j],
        forall|j: int|
            0 <= j < match_indices(m.key(), lines.deep_view()).len() ==> is_record_for(
                final(results)@[old(results)@.len() + j],
                path@,
                lines.deep_view(),
                before as int,
                after as int,
                match_indices(m.key(), lines.deep_view())[j],
            ),
{
    let ghost k = m.key();
    let ghost lv = lines.deep_view();
    let ghost base = results@.len() as int;
    let mut i: usize = 0;
    while i < lines.len()
        invariant
            i <= lines.len(),
            lv == lines.deep_view(),
            k == m.key(),
            base == old(results)@.len(),
            results@.len() == base + match_indices_prefix(k, lv, i as int).len(),
            forall|j: int| 0 <= j < base ==> results@[j] == old(results)@[j],
            forall|j: int|
                0 <= j < match_indices_prefix(k, lv, i as int).len() ==> is_record_for(
                    results@[base + j],
                    path@,
                    lv,
                    before as int,
                    after as int,
                    match_indices_prefix(k, lv, i as int)[j],
                ),
        decreases lines.len() - i,
    {
        let ghost pre = match_indices_prefix(k, lv, i as int);
        assert(lv[i as int] == lines@[i as int]@);
        if m.is_match(lines[i].as_str()) {
            // Gather the before-context window, clamped at the first line.
            let bwin: usize = if before >= i as u64 {
                i
            } else {
                before as usize
            };
            let bstart: usize = i - bwin;
            let mut before_ctx: Vec<String> = Vec::new();
            let mut bj: usize = bstart;
            while bj < i
                invariant
                    bstart <= bj <= i < lines@.len(),
                    lv == lines.deep_view(),
                    before_ctx.deep_view() =~= lv.subrange(bstart as int, bj as int),
                decreases i - bj,
            {
                let cl = lines[bj].clone();
                assert(cl@ == lv[bj as int]);
                let ghost prev = before_ctx.deep_view();
                before_ctx.push(cl);
                assert(before_ctx.deep_view() =~= prev.push(lv[bj as int]));
                assert(before_ctx.deep_view() =~= lv.subrange(bstart as int, bj + 1));
                bj = bj + 1;
            }
            // Gather the after-context window, clamped at the last line.
            let rem: usize = lines.len() - (i + 1);
            let awin: usize = if after >= rem as u64 {
                rem
            } else {
                after as usize
            };
            let aend: usize = i + 1 + awin;
            let mut after_ctx: Vec<String> = Vec::new();
            let mut aj: usize = i + 1;
            while aj < aend
                invariant
                    i + 1 <= aj <= aend <= lines@.len(),
                    lv == lines.deep_view(),
                    after_ctx.deep_view() =~= lv.subrange(i + 1, aj as int),
                decreases aend - aj,
            {
                let cl = lines[aj].clone();
                assert(cl@ == lv[aj as int]);
                let ghost prev = after_ctx.deep_view();
                after_ctx.push(cl);
                assert(after_ctx.deep_view() =~= prev.push(lv[aj as int]));
                assert(after_ctx.deep_view() =~= lv.subrange(i + 1, aj + 1));
                aj = aj + 1;
            }
            let rec = ContentResult {
                path: path.clone(),
                line_number: (i as u64) + 1,
                content: lines[i].clone(),
                before_context: before_ctx,
                after_context: after_ctx,
            };
            proof {
                assert(before_ctx.deep_view() =~= before_window(lv, i as int, before as int));
                assert(after_ctx.deep_view() =~= after_window(lv, i as int, after as int));
                assert(is_record_for(rec, path@, lv, before as int, after as int, i as int));
            }
            results.push(rec);
            proof {
                assert(match_indices_prefix(k, lv, i + 1) =~= pre + seq![i as int]);
            }
        } else {
            proof {
                assert(match_indices_prefix(k, lv, i + 1) =~= pre);
            }
        }
        i = i + 1;
    }
}

/// Existence scan of one file: true exactly when some line matches; stops at
/// the first hit.
pub fn file_has_match(m: &Matcher, lines: &Vec<String>) -> (r: bool)
    ensures
        r == has_match(m.key(), lines.deep_view()),
{
    let ghost k = m.key();
    let ghost lv = lines.deep_view();
    let mut i: usize = 0;
    while i < lines.len()
        invariant
            i <= lines.len(),
            lv == lines.deep_view(),
            k == m.key(),
            forall|j: int| 0 <= j < i ==> !line_hits(k, lv[j]),
        decreases lines.len() - i,
    {
        assert(lv[i as int] == lines@[i as int]@);
        if m.is_match(lines[i].as_str()) {
            return true;
        }
        i = i + 1;
    }
    false
}

/// Count scan of one file: the number of matching lines; does not stop early.
pub fn count_file_matches(m: &Matcher, lines: &Vec<String>) -> (r: u64)
    ensures
        r == match_count(m.key(), lines.deep_view()),
{
    let ghost k = m.key();
    let ghost lv = lines.deep_view();
    let mut count: u64 = 0;
    let mut i: usize = 0;
    while i < lines.len()
        invariant
            i <= lines.len(),
            lv == lines.deep_view(),
            k == m.key(),
            count == match_count_prefix(k, lv, i as int),
            count <= i,
        decreases lines.len() - i,
    {
        assert(lv[i as int] == lines@[i as int]@);
        if m.is_match(lines[i].as_str()) {
            count = count + 1;
        }
        i = i + 1;
    }
    count
}

} // verus!
