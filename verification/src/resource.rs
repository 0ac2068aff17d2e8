//! Parsed message resources and the append-only map that caches them.

use elsa::FrozenMap;
use fluent_bundle::FluentResource;
use vstd::prelude::*;

verus! {

/// `fluent_bundle::FluentResource`: a source text together with the entries
/// that the Fluent parser found in it. Opaque to the verifier.
#[verifier::external_type_specification]
#[verifier::external_body]
pub struct ExFluentResource(FluentResource);

/// `elsa::FrozenMap`: a hash map that only ever grows. Opaque to the verifier.
#[verifier::external_type_specification]
#[verifier::external_body]
#[verifier::reject_recursive_types(K)]
#[verifier::reject_recursive_types(V)]
#[verifier::reject_recursive_types(S)]
pub struct ExFrozenMap<K, V, S>(FrozenMap<K, V, S>);

/// One syntax error that the parser reported. All positions are byte offsets
/// into the source text.
#[derive(Clone, Copy, Debug, PartialEq, Eq)]
pub struct SyntaxError {
    /// Where the text that the parser could not read begins.
    pub start: usize,
    /// Where it ends.
    pub end: usize,
    /// The portion of the source that was skipped because of the error: from
    /// the end of the last entry that parsed to the start of the next.
    pub skipped: Option<(usize, usize)>,
}

/// What a resource holds: the source text that its entries were parsed from,
/// as `FluentResource::source` returns it.
pub uninterp spec fn resource_source(resource: FluentResource) -> Seq<char>;

/// The syntax errors that the Fluent parser reports for `source`, in the
/// order of the text.
pub uninterp spec fn syntax_errors(source: Seq<char>) -> Seq<SyntaxError>;

/// `FluentResource::try_new`: parses `source`. The parser never gives up on a
/// text: where it reports errors, the resource still holds every entry that
/// could be parsed, and that resource is returned together with the errors.
/// The resource owns `source` unchanged.
#[verifier::external_body]
fn parse_resource(source: String) -> (parsed: (FluentResource, Vec<SyntaxError>))
    ensures
        resource_source(parsed.0) == source@,
        parsed.1@ == syntax_errors(source@),
{
    match FluentResource::try_new(source) {
        Ok(resource) => (resource, Vec::new()),
        Err((resource, errors)) => {
            let found = errors.into_iter().map(
                |e| SyntaxError {
                    start: e.pos.start,
                    end: e.pos.end,
                    skipped: e.slice.map(|range| (range.start, range.end)),
                },
            );
            (resource, found.collect())
        },
    }
}

/// A parsed resource: the entries that the parser found in one source text,
/// with the syntax errors that it met on the way.
pub struct ParsedResource {
    resource: FluentResource,
    errors: Vec<SyntaxError>,
}

impl ParsedResource {
    /// The errors are those of the resource's own source.
    #[verifier::type_invariant]
    spec fn consistent(&self) -> bool {
        self.errors@ == syntax_errors(resource_source(self.resource))
    }

    /// The source text that the resource was parsed from.
    pub closed spec fn source(&self) -> Seq<char> {
        resource_source(self.resource)
    }

    /// Parses `source`. Parsing does not fail: a text with syntax errors
    /// gives a resource with the entries that could be parsed, and with the
    /// errors.
    pub fn parse(source: String) -> (parsed: ParsedResource)
        ensures
            parsed.source() == source@,
    {
        let (resource, errors) = parse_resource(source);
        ParsedResource { resource, errors }
    }

    /// The entries, as `fluent_bundle` holds them.
    pub fn resource(&self) -> (resource: &FluentResource)
        ensures
            resource_source(*resource) == self.source(),
    {
        &self.resource
    }

    /// The entries, without the errors.
    pub fn into_resource(self) -> (resource: FluentResource)
        ensures
            resource_source(resource) == self.source(),
    {
        self.resource
    }

    /// The syntax errors of the source, in the order of the text.
    pub fn syntax_errors(&self) -> (errors: &Vec<SyntaxError>)
        ensures
            errors@ == syntax_errors(self.source()),
    {
        proof {
            use_type_invariant(self);
        }
        &self.errors
    }
}

/// A copy of a list of errors.
pub fn copy_errors(errors: &Vec<SyntaxError>) -> (copy: Vec<SyntaxError>)
    ensures
        copy@ == errors@,
{
    let mut copy: Vec<SyntaxError> = Vec::new();
    let mut i: usize = 0;
    while i < errors.len()
        invariant
            i <= errors.len(),
            copy@ == errors@.take(i as int),
        decreases errors.len() - i,
    {
        copy.push(errors[i]);
        assert(errors@.take(i + 1) =~= errors@.take(i as int).push(errors@[i as int]));
        i += 1;
    }
    assert(errors@.take(i as int) =~= errors@);
    copy
}

/// What a map of resources holds: for each key, the source text of the
/// resource stored under it.
pub uninterp spec fn cached_sources(map: FrozenMap<String, Box<ParsedResource>>) -> Map<
    Seq<char>,
    Seq<char>,
>;

/// A cache after `source` was offered for `path`: an entry that the cache
/// already holds for `path` stays, and `source` is dropped.
pub open spec fn with_source(
    cached: Map<Seq<char>, Seq<char>>,
    path: Seq<char>,
    source: Seq<char>,
) -> Map<Seq<char>, Seq<char>> {
    if cached.contains_key(path) {
        cached
    } else {
        cached.insert(path, source)
    }
}

/// `FrozenMap::new`: a map that holds nothing.
#[verifier::external_body]
pub(crate) fn map_new() -> (fresh: FrozenMap<String, Box<ParsedResource>>)
    ensures
        cached_sources(fresh).dom() == Set::<Seq<char>>::empty(),
{
    FrozenMap::new()
}

/// `FrozenMap::get`: the resource stored under `path`, if there is one.
#[verifier::external_body]
pub(crate) fn map_get<'a>(map: &'a FrozenMap<String, Box<ParsedResource>>, path: &str) -> (found:
    Option<&'a ParsedResource>)
    ensures
        found.is_some() == cached_sources(*map).contains_key(path@),
        found matches Some(resource) ==> resource.source() == cached_sources(*map)[path@],
{
    map.get(path)
}

/// `FrozenMap::insert`: stores `resource` under `path` unless the map already
/// holds an entry for `path`, in which case `resource` is dropped and the map
/// stays as it was. The map is taken by exclusive reference so that the
/// contract can speak of its contents before and after.
#[verifier::external_body]
pub(crate) fn map_insert(
    map: &mut FrozenMap<String, Box<ParsedResource>>,
    path: String,
    resource: ParsedResource,
)
    ensures
        cached_sources(*final(map)) == with_source(
            cached_sources(*old(map)),
            path@,
            resource.source(),
        ),
{
    map.insert(path, Box::new(resource));
}

} // verus!
