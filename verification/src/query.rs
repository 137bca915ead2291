use vstd::prelude::*;

use crate::errors::SearchError;
use crate::strutil::str_is;

verus! {

/// The three shapes a search result can take.
#[derive(Debug, Clone, Copy, PartialEq, Eq, Structural)]
pub enum OutputMode {
    /// Matched lines with their surrounding context.
    Content,
    /// The distinct set of files containing a match.
    FilesWithMatches,
    /// Per-file match counts.
    Count,
}

/// The mode a raw option string names, if any.
pub open spec fn mode_of(s: Seq<char>) -> Option<OutputMode> {
    if s == "content"@ {
        Some(OutputMode::Content)
    } else if s == "files_with_matches"@ {
        Some(OutputMode::FilesWithMatches)
    } else if s == "count"@ {
        Some(OutputMode::Count)
    } else {
        None
    }
}

impl OutputMode {
    /// Parses a raw output-mode string; an unknown string is a validation
    /// error carrying the offending value.
    pub fn from_str(s: &str) -> (r: Result<OutputMode, SearchError>)
        ensures
            mode_of(s@) matches Some(m) ==> (r matches Ok(v) && v == m),
            mode_of(s@) is None ==> (r matches Err(e)
                && e matches SearchError::InvalidOutputMode(t) && t@ == s@),
    {
        if str_is(s, "content") {
            Ok(OutputMode::Content)
        } else if str_is(s, "files_with_matches") {
            Ok(OutputMode::FilesWithMatches)
        } else if str_is(s, "count") {
            Ok(OutputMode::Count)
        } else {
            Err(SearchError::InvalidOutputMode(s.to_owned()))
        }
    }
}

/// The fixed alias table from colloquial file-type names to the canonical
/// tags understood by the file-type matcher.
pub open spec fn type_alias(name: Seq<char>) -> Option<Seq<char>> {
    if name == "python"@ {
        Some("py"@)
    } else if name == "javascript"@ {
        Some("js"@)
    } else if name == "rust"@ {
        Some("rust"@)
    } else if name == "typescript"@ {
        Some("ts"@)
    } else if name == "markdown"@ {
        Some("md"@)
    } else if name == "c++"@ {
        Some("cpp"@)
    } else if name == "ruby"@ {
        Some("rb"@)
    } else if name == "py"@ {
        Some("py"@)
    } else if name == "js"@ {
        Some("js"@)
    } else if name == "ts"@ {
        Some("ts"@)
    } else if name == "rs"@ {
        Some("rust"@)
    } else if name == "cpp"@ {
        Some("cpp"@)
    } else if name == "c"@ {
        Some("c"@)
    } else if name == "go"@ {
        Some("go"@)
    } else if name == "java"@ {
        Some("java"@)
    } else if name == "php"@ {
        Some("php"@)
    } else if name == "rb"@ {
        Some("rb"@)
    } else if name == "md"@ {
        Some("md"@)
    } else if name == "txt"@ {
        Some("txt"@)
    } else if name == "json"@ {
        Some("json"@)
    } else if name == "xml"@ {
        Some("xml"@)
    } else if name == "yaml"@ {
        Some("yaml"@)
    } else if name == "yml"@ {
        Some("yaml"@)
    } else if name == "toml"@ {
        Some("toml"@)
    } else {
        None
    }
}

/// Maps a raw file-type name through the alias table.
pub fn canonical_type(name: &str) -> (r: Option<String>)
    ensures
        type_alias(name@) matches Some(t) ==> (r matches Some(v) && v@ == t),
        type_alias(name@) is None ==> r is None,
{
    if str_is(name, "python") {
        Some("py".to_owned())
    } else if str_is(name, "javascript") {
        Some("js".to_owned())
    } else if str_is(name, "rust") {
        Some("rust".to_owned())
    } else if str_is(name, "typescript") {
        Some("ts".to_owned())
    } else if str_is(name, "markdown") {
        Some("md".to_owned())
    } else if str_is(name, "c++") {
        Some("cpp".to_owned())
    } else if str_is(name, "ruby") {
        Some("rb".to_owned())
    } else if str_is(name, "py") {
        Some("py".to_owned())
    } else if str_is(name, "js") {
        Some("js".to_owned())
    } else if str_is(name, "ts") {
        Some("ts".to_owned())
    } else if str_is(name, "rs") {
        Some("rust".to_owned())
    } else if str_is(name, "cpp") {
        Some("cpp".to_owned())
    } else if str_is(name, "c") {
        Some("c".to_owned())
    } else if str_is(name, "go") {
        Some("go".to_owned())
    } else if str_is(name, "java") {
        Some("java".to_owned())
    } else if str_is(name, "php") {
        Some("php".to_owned())
    } else if str_is(name, "rb") {
        Some("rb".to_owned())
    } else if str_is(name, "md") {
        Some("md".to_owned())
    } else if str_is(name, "txt") {
        Some("txt".to_owned())
    } else if str_is(name, "json") {
        Some("json".to_owned())
    } else if str_is(name, "xml") {
        Some("xml".to_owned())
    } else if str_is(name, "yaml") {
        Some("yaml".to_owned())
    } else if str_is(name, "yml") {
        Some("yaml".to_owned())
    } else if str_is(name, "toml") {
        Some("toml".to_owned())
    } else {
        None
    }
}

/// The canonical tags for a whole list of raw names, or the first name the
/// alias table does not know.
pub open spec fn map_types(names: Seq<Seq<char>>) -> Result<Seq<Seq<char>>, Seq<char>>
    decreases names.len(),
{
    if names.len() == 0 {
        Ok(Seq::empty())
    } else {
        match type_alias(names[0]) {
            None => Err(names[0]),
            Some(t) => match map_types(names.drop_first()) {
                Ok(rest) => Ok(seq![t] + rest),
                Err(e) => Err(e),
            },
        }
    }
}

/// Validates and canonicalizes the requested file types; an unrecognized
/// name is a validation error, not a silent skip. No request means no type
/// filter.
pub fn parse_types(types: Option<&Vec<String>>) -> (r: Result<Vec<String>, SearchError>)
    ensures
        types is None ==> (r matches Ok(v) && v@.len() == 0),
        types matches Some(ns) ==> match map_types(ns.deep_view()) {
            Ok(ts) => r matches Ok(v) && v.deep_view() == ts,
            Err(n) => r matches Err(e) && e matches SearchError::UnknownFileType(u) && u@ == n,
        },
{
    match types {
        None => Ok(Vec::new()),
        Some(ns) => {
            let mut out: Vec<String> = Vec::new();
            let mut i: usize = 0;
            proof {
                assert(ns.deep_view().skip(0) =~= ns.deep_view());
                if map_types(ns.deep_view()) is Ok {
                    assert(out.deep_view() + map_types(ns.deep_view())->Ok_0 =~= map_types(
                        ns.deep_view(),
                    )->Ok_0);
                }
            }
            while i < ns.len()
                invariant
                    types == Some(ns),
                    i <= ns.len(),
                    map_types(ns.deep_view()) == match map_types(
                        ns.deep_view().skip(i as int),
                    ) {
                        Ok(rest) => Ok::<Seq<Seq<char>>, Seq<char>>(out.deep_view() + rest),
                        Err(e) => Err::<Seq<Seq<char>>, Seq<char>>(e),
                    },
                decreases ns.len() - i,
            {
                let ghost pre = out.deep_view();
                let ghost rem = ns.deep_view().skip(i as int);
                match canonical_type(ns[i].as_str()) {
                    None => {
                        proof {
                            assert(rem[0] == ns.deep_view()[i as int]);
                            assert(ns.deep_view()[i as int] == ns@[i as int]@);
                            assert(map_types(rem) == Err::<Seq<Seq<char>>, Seq<char>>(
                                ns.deep_view()[i as int],
                            ));
                            assert(map_types(ns.deep_view()) == Err::<
                                Seq<Seq<char>>,
                                Seq<char>,
                            >(ns@[i as int]@));
                        }
                        let u0: String = ns[i].clone();
                        assert(u0@ == map_types(ns.deep_view())->Err_0);
                        return Err(SearchError::UnknownFileType(u0));
                    },
                    Some(t) => {
                        out.push(t);
                        proof {
                            assert(rem.drop_first() =~= ns.deep_view().skip(i + 1));
                            assert(out.deep_view() =~= pre + seq![
                                type_alias(rem[0])->Some_0,
                            ]);
                            assert(map_types(rem) matches Ok(all) ==> {
                                &&& map_types(rem.drop_first()) matches Ok(rest)
                                &&& all == seq![type_alias(rem[0])->Some_0] + rest
                            });
                            assert(map_types(rem) matches Ok(all) ==> pre + all
                                =~= out.deep_view() + map_types(rem.drop_first())->Ok_0);
                        }
                    },
                }
                i = i + 1;
            }
            assert(ns.deep_view().skip(ns.len() as int) =~= Seq::<Seq<char>>::empty());
            assert(out.deep_view() + Seq::<Seq<char>>::empty() =~= out.deep_view());
            Ok(out)
        },
    }
}

/// Resolves the context-line options: a combined value always overrides the
/// independently supplied before/after values; absent values mean zero.
pub fn resolve_context(before: Option<u64>, after: Option<u64>, combined: Option<u64>) -> (r: (
    u64,
    u64,
))
    ensures
        combined matches Some(c) ==> (r.0 == c && r.1 == c),
        combined is None ==> r.0 == (match before {
            Some(b) => b,
            None => 0u64,
        }) && r.1 == (match after {
            Some(a) => a,
            None => 0u64,
        }),
{
    match combined {
        Some(c) => (c, c),
        None => (
            match before {
                Some(b) => b,
                None => 0,
            },
            match after {
                Some(a) => a,
                None => 0,
            },
        ),
    }
}

/// The raw options of a search call, before normalization. Absent values
/// take the documented defaults.
pub struct SearchOptions {
    /// Glob override applied during traversal.
    pub glob: Option<String>,
    /// Raw output-mode string; absent means "files_with_matches".
    pub output_mode: Option<String>,
    /// Context lines before a match.
    pub before: Option<u64>,
    /// Context lines after a match.
    pub after: Option<u64>,
    /// Combined context; overrides both `before` and `after`.
    pub context: Option<u64>,
    /// Whether rendered content lines carry line numbers.
    pub line_numbers: Option<bool>,
    /// Case-insensitive matching.
    pub case_insensitive: Option<bool>,
    /// Raw file-type names to filter by.
    pub types: Option<Vec<String>>,
    /// Cap on emitted result units.
    pub head_limit: Option<usize>,
    /// Multiline matching: "any character" also matches line terminators.
    pub multiline: Option<bool>,
    /// Wall-clock budget for the whole call, in milliseconds.
    pub timeout_ms: Option<u64>,
}

impl Default for SearchOptions {
    /// All options absent: every behavior takes its documented default.
    fn default() -> (r: SearchOptions)
        ensures
            r.glob is None,
            r.output_mode is None,
            r.before is None,
            r.after is None,
            r.context is None,
            r.line_numbers is None,
            r.case_insensitive is None,
            r.types is None,
            r.head_limit is None,
            r.multiline is None,
            r.timeout_ms is None,
    {
        SearchOptions {
            glob: None,
            output_mode: None,
            before: None,
            after: None,
            context: None,
            line_numbers: None,
            case_insensitive: None,
            types: None,
            head_limit: None,
            multiline: None,
            timeout_ms: None,
        }
    }
}

} // verus!
