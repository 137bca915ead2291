use vstd::prelude::*;

use crate::errors::SearchError;

verus! {

#[verifier::external_type_specification]
#[verifier::external_body]
pub struct ExTypes(ignore::types::Types);

#[verifier::external_type_specification]
#[verifier::external_body]
pub struct ExOverride(ignore::overrides::Override);

/// Whether the file-type matcher can be built from these canonical type
/// names: every selected name must be among the default type definitions.
pub uninterp spec fn types_ok(names: Seq<Seq<char>>) -> bool;

/// Whether a path belongs to one of the selected file types: a function of
/// the selected names and the path alone.
pub uninterp spec fn type_selected(names: Seq<Seq<char>>, path: Seq<char>) -> bool;

/// Whether the glob engine accepts `pattern` as an override glob.
pub uninterp spec fn glob_ok(pattern: Seq<char>) -> bool;

/// Whether a path matches the glob override built from `pattern`: a function
/// of the pattern and the path alone.
pub uninterp spec fn glob_selects(pattern: Seq<char>, path: Seq<char>) -> bool;

/// The post-enumeration file-type predicate: membership of a path's file
/// name in the extension classes selected by canonical type names. Kept
/// separate from the glob override so the two filters AND together.
pub struct TypeFilter {
    types: ignore::types::Types,
    names: Vec<String>,
}

impl TypeFilter {
    /// The canonical type names this filter selects.
    pub closed spec fn names(&self) -> Seq<Seq<char>> {
        self.names.deep_view()
    }

    /// Relies on `ignore::types::TypesBuilder`: with the default definitions
    /// added, `build` fails exactly when a selected name is not a defined
    /// type, and the matcher it returns is determined by the selections.
    #[verifier::external_body]
    fn build_raw(names: &Vec<String>) -> (r: Result<TypeFilter, String>)
        ensures
            r is Ok <==> types_ok(names.deep_view()),
            r matches Ok(t) ==> t.names() == names.deep_view(),
    {
        let mut tb = ignore::types::TypesBuilder::new();
        tb.add_defaults();
        for t in names.iter() {
            tb.select(t);
        }
        match tb.build() {
            Ok(types) => Ok(TypeFilter { types, names: names.clone() }),
            Err(e) => Err(format!("{}", e)),
        }
    }

    /// Builds the type predicate from canonical names; failure is the
    /// validation error `InvalidTypeConfig`.
    pub fn new(names: &Vec<String>) -> (r: Result<TypeFilter, SearchError>)
        ensures
            r is Ok <==> types_ok(names.deep_view()),
            r matches Ok(t) ==> t.names() == names.deep_view(),
            r matches Err(e) ==> e is InvalidTypeConfig,
    {
        match Self::build_raw(names) {
            Ok(t) => Ok(t),
            Err(msg) => Err(SearchError::InvalidTypeConfig(msg)),
        }
    }

    /// Relies on `ignore::types::Types::matched` with `is_dir == false`: the
    /// whitelist answer is a function of the selections and the path alone.
    /// The fields are private and only `build_raw` constructs a `TypeFilter`,
    /// so `types` is always the matcher built from `names`.
    #[verifier::external_body]
    pub(crate) fn admits(&self, path: &str) -> (r: bool)
        ensures
            r == type_selected(self.names(), path@),
    {
        self.types.matched(path, false).is_whitelist()
    }
}

/// The traversal-time glob override: everything is excluded, then the given
/// pattern is re-included, so the override composes with the default ignore
/// rules instead of replacing them.
pub struct GlobFilter {
    over: ignore::overrides::Override,
    pattern: String,
}

impl GlobFilter {
    /// The override glob this filter was built from.
    pub closed spec fn pattern(&self) -> Seq<char> {
        self.pattern@
    }

    /// Relies on `ignore::overrides::OverrideBuilder`: `add` rejects exactly
    /// the malformed globs, and the matcher built from a fixed root with the
    /// globs `!**` and `pattern` is determined by `pattern`. The `!**` line
    /// ignores every path, so only re-included matches of `pattern` survive.
    #[verifier::external_body]
    fn build_raw(pattern: &str) -> (r: Result<GlobFilter, String>)
        ensures
            r is Ok <==> glob_ok(pattern@),
            r matches Ok(g) ==> g.pattern() == pattern@,
    {
        let mut ob = ignore::overrides::OverrideBuilder::new(".");
        if let Err(e) = ob.add("!**") {
            return Err(format!("{}", e));
        }
        if let Err(e) = ob.add(pattern) {
            return Err(format!("{}", e));
        }
        match ob.build() {
            Ok(over) => Ok(GlobFilter { over, pattern: pattern.to_owned() }),
            Err(e) => Err(format!("{}", e)),
        }
    }

    /// Builds the glob override predicate; failure is the validation error
    /// `InvalidGlob`.
    pub fn new(pattern: &str) -> (r: Result<GlobFilter, SearchError>)
        ensures
            r is Ok <==> glob_ok(pattern@),
            r matches Ok(g) ==> g.pattern() == pattern@,
            r matches Err(e) ==> e is InvalidGlob,
    {
        match Self::build_raw(pattern) {
            Ok(g) => Ok(g),
            Err(msg) => Err(SearchError::InvalidGlob(msg)),
        }
    }

    /// Relies on `ignore::overrides::Override::matched` with `is_dir ==
    /// false`: the whitelist answer is a function of the override globs and
    /// the path alone, paths taken relative to the fixed root. The fields
    /// are private and only `build_raw` constructs a `GlobFilter`, so `over`
    /// is always the override built from `pattern`.
    #[verifier::external_body]
    pub(crate) fn admits(&self, path: &str) -> (r: bool)
        ensures
            r == glob_selects(self.pattern(), path@),
    {
        self.over.matched(path, false).is_whitelist()
    }
}

/// Whether the filter combination admits a regular file at `path`: the
/// optional glob override and the optional type filter must both hold.
pub open spec fn spec_admits(
    glob: Option<Seq<char>>,
    types: Option<Seq<Seq<char>>>,
    path: Seq<char>,
) -> bool {
    &&& (glob matches Some(g) ==> glob_selects(g, path))
    &&& (types matches Some(ns) ==> type_selected(ns, path))
}

/// The spec-level view of an optional glob filter.
pub open spec fn glob_view(glob: &Option<GlobFilter>) -> Option<Seq<char>> {
    match glob {
        Some(g) => Some(g.pattern()),
        None => None,
    }
}

/// The spec-level view of an optional type filter.
pub open spec fn types_view(types: &Option<TypeFilter>) -> Option<Seq<Seq<char>>> {
    match types {
        Some(t) => Some(t.names()),
        None => None,
    }
}

/// The conjunction of the two independent file predicates, evaluated
/// separately so that glob and type filters AND together.
pub fn entry_admitted(glob: &Option<GlobFilter>, types: &Option<TypeFilter>, path: &str) -> (r:
    bool)
    ensures
        r == spec_admits(glob_view(glob), types_view(types), path@),
{
    let glob_ok_here = match glob {
        Some(g) => g.admits(path),
        None => true,
    };
    let type_ok_here = match types {
        Some(t) => t.admits(path),
        None => true,
    };
    glob_ok_here && type_ok_here
}

} // verus!
