//! The resource manager: a cache of parsed resources, keyed by the paths that
//! a scheme assigns to them, and the bundles built from it.
//!
//! The manager reads no files. A resource that the cache lacks is named by its
//! path; the caller reads the text at that path and hands it to
//! [`ResourceManager::insert_source`]. A bundle is built from cached
//! resources alone, and building fails on the first resource that is missing.
//!
//! The cache only grows: a resource that it holds stays in it, at the same
//! place and with the same content, for as long as the manager lives.
//! Supplying a text takes the manager by exclusive reference, so that a
//! contract can speak of the cache before and after; a bundle, which borrows
//! its resources from the manager, is therefore given up before the next text
//! is supplied.

use crate::bundle::{
    bundle_add, bundle_entries, bundle_new, bundle_sources, defining, duplicate_ids, entries_of,
    gathered, lemma_entries_push, lemma_gathered_push, locale_sources, missing_flags, tags_of,
    Bundle, DuplicateMessageId,
};
use crate::locale::Locale;
use crate::path::{resolve_path, resource_path};
use crate::resource::{
    cached_sources, copy_errors, map_get, map_insert, map_new, resource_source, syntax_errors,
    with_source, ParsedResource, SyntaxError,
};
use crate::search::{first_hit, lemma_first_hit_found, lemma_first_hit_missing, lemma_first_hit_none};
use elsa::FrozenMap;
use fluent_bundle::{FluentBundle, FluentResource};
use vstd::prelude::*;

verus! {

/// A cache of parsed resources under a path scheme.
pub struct ResourceManager {
    resources: FrozenMap<String, Box<ParsedResource>>,
    path_scheme: String,
}

/// What the cache holds for one resource.
pub enum Lookup<'a> {
    /// The resource, as it was parsed when its text was first supplied.
    Cached(&'a ParsedResource),
    /// Nothing yet: the text at this path has to be read and supplied.
    Missing(String),
}

/// A resource could not be had: the text at `path` was never supplied.
#[derive(Debug)]
pub struct ResourceReadFailure {
    pub path: String,
}

/// A sequence of bundles, one for each locale of a chain, built one at a time
/// as they are asked for.
pub struct BundleIter {
    locales: Vec<Locale>,
    resource_ids: Vec<String>,
    position: usize,
}

impl ResourceManager {
    /// The source text cached for each path.
    pub closed spec fn cached(&self) -> Map<Seq<char>, Seq<char>> {
        cached_sources(self.resources)
    }

    /// The path scheme.
    pub closed spec fn scheme(&self) -> Seq<char> {
        self.path_scheme@
    }

    /// The path of a resource under the manager's scheme.
    pub open spec fn path_of(&self, res_id: Seq<char>, locale: Seq<char>) -> Seq<char> {
        resource_path(self.scheme(), res_id, locale)
    }

    /// A manager with an empty cache.
    pub fn new(path_scheme: String) -> (manager: Self)
        ensures
            manager.scheme() == path_scheme@,
            manager.cached() == Map::<Seq<char>, Seq<char>>::empty(),
    {
        let manager = ResourceManager { resources: map_new(), path_scheme };
        assert(manager.cached() =~= Map::<Seq<char>, Seq<char>>::empty());
        manager
    }

    /// The path of a resource under the manager's scheme.
    pub fn resource_path(&self, res_id: &str, locale: &str) -> (path: String)
        ensures
            path@ == self.path_of(res_id@, locale@),
    {
        resolve_path(self.path_scheme.as_str(), res_id, locale)
    }

    /// Looks a resource up in the cache. A hit returns the cached resource
    /// and reads nothing; a miss returns the path to read.
    pub fn get_resource(&self, res_id: &str, locale: &str) -> (found: Lookup<'_>)
        ensures
            match found {
                Lookup::Cached(resource) => self.cached().contains_key(
                    self.path_of(res_id@, locale@),
                ) && resource.source() == self.cached()[self.path_of(res_id@, locale@)],
                Lookup::Missing(path) => !self.cached().contains_key(
                    self.path_of(res_id@, locale@),
                ) && path@ == self.path_of(res_id@, locale@),
            },
    {
        let path = self.resource_path(res_id, locale);
        match map_get(&self.resources, path.as_str()) {
            Some(resource) => Lookup::Cached(resource),
            None => Lookup::Missing(path),
        }
    }

    /// Parses `source` and caches the resource under `path`, unless the cache
    /// already holds a resource for `path`: then that resource stays and
    /// `source` is dropped. Parsing does not fail: a text with syntax errors
    /// gives a resource with the entries that could be parsed. Returns the
    /// syntax errors of `source`; a resource that is cached keeps its own.
    pub fn insert_source(&mut self, path: String, source: String) -> (errors: Vec<SyntaxError>)
        ensures
            final(self).scheme() == old(self).scheme(),
            final(self).cached() == with_source(old(self).cached(), path@, source@),
            errors@ == syntax_errors(source@),
    {
        let parsed = ParsedResource::parse(source);
        let errors = copy_errors(parsed.syntax_errors());
        map_insert(&mut self.resources, path, parsed);
        errors
    }

    /// The path of the first of the resources `resource_ids` of `locale` that
    /// the cache lacks, if it lacks any.
    pub fn missing_resource(&self, locale: &Locale, resource_ids: &Vec<String>) -> (path: Option<
        String,
    >)
        ensures
            match first_hit(
                missing_flags(self.cached(), self.scheme(), resource_ids@, locale@),
                0,
            ) {
                Some(i) => path matches Some(p) && p@ == self.path_of(resource_ids@[i]@, locale@),
                None => path is None,
            },
    {
        let ghost flags = missing_flags(self.cached(), self.scheme(), resource_ids@, locale@);
        let mut i: usize = 0;
        while i < resource_ids.len()
            invariant
                i <= resource_ids.len(),
                flags == missing_flags(self.cached(), self.scheme(), resource_ids@, locale@),
                first_hit(flags, 0) == first_hit(flags, i as int),
            decreases resource_ids.len() - i,
        {
            match self.get_resource(resource_ids[i].as_str(), locale.tag()) {
                Lookup::Cached(_) => {},
                Lookup::Missing(path) => {
                    return Some(path);
                },
            }
            i += 1;
        }
        None
    }

    /// Gathers the cached resources `resource_ids` of `locale` into a bundle
    /// for the chain `chain`.
    fn assemble<'a>(
        &'a self,
        chain: &Vec<Locale>,
        locale: &Locale,
        resource_ids: &Vec<String>,
    ) -> (built: Result<
        (FluentBundle<&'a FluentResource>, Vec<DuplicateMessageId>),
        ResourceReadFailure,
    >)
        ensures
            match first_hit(
                missing_flags(self.cached(), self.scheme(), resource_ids@, locale@),
                0,
            ) {
                Some(i) => built matches Err(failure) && failure.path@ == self.path_of(
                    resource_ids@[i]@,
                    locale@,
                ),
                None => built matches Ok((messages, duplicates)) && gathered(
                    messages,
                    duplicates@,
                    tags_of(chain@),
                    locale_sources(self.cached(), self.scheme(), resource_ids@, locale@),
                ),
            },
    {
        let ghost flags = missing_flags(self.cached(), self.scheme(), resource_ids@, locale@);
        let ghost planned = locale_sources(self.cached(), self.scheme(), resource_ids@, locale@);
        let mut messages = bundle_new(chain);
        let mut duplicates: Vec<DuplicateMessageId> = Vec::new();
        let mut i: usize = 0;
        proof {
            assert(bundle_sources(messages) =~= planned.take(0));
            assert(duplicate_ids(duplicates@) =~= Seq::<Seq<char>>::empty());
            assert forall|id: Seq<char>| !entries_of(planned.take(0)).contains_key(id) by {
                lemma_first_hit_none(defining(planned.take(0), id), 0);
            }
            assert(bundle_entries(messages) =~= entries_of(planned.take(0)));
        }
        while i < resource_ids.len()
            invariant
                i <= resource_ids.len(),
                flags == missing_flags(self.cached(), self.scheme(), resource_ids@, locale@),
                planned == locale_sources(self.cached(), self.scheme(), resource_ids@, locale@),
                first_hit(flags, 0) == first_hit(flags, i as int),
                gathered(messages, duplicates@, tags_of(chain@), planned.take(i as int)),
            decreases resource_ids.len() - i,
        {
            match self.get_resource(resource_ids[i].as_str(), locale.tag()) {
                Lookup::Cached(parsed) => {
                    let resource = parsed.resource();
                    let ghost sources = bundle_sources(messages);
                    let ghost before = duplicates@;
                    let mut ignored = bundle_add(&mut messages, resource);
                    let ghost added = ignored@;
                    duplicates.append(&mut ignored);
                    proof {
                        let source = resource_source(*resource);
                        assert(planned.take(i + 1) =~= planned.take(i as int).push(source));
                        lemma_entries_push(sources, source);
                        lemma_gathered_push(
                            sources,
                            source,
                            duplicate_ids(before),
                            duplicate_ids(added),
                        );
                        assert(duplicate_ids(before + added) =~= duplicate_ids(before)
                            + duplicate_ids(added));
                    }
                },
                Lookup::Missing(path) => {
                    return Err(ResourceReadFailure { path });
                },
            }
            i += 1;
        }
        assert(planned.take(i as int) =~= planned);
        Ok((messages, duplicates))
    }

    /// Builds the bundle of the most preferred locale, `locales[0]`: it holds
    /// the resources `resource_ids` of that locale, in the order given, and
    /// formats for that locale alone. The locales after the first play no
    /// part in it. Where two entries have the same identifier the first one
    /// is kept and the later one is recorded among the bundle's duplicates.
    ///
    /// Every resource has to be in the cache. The bundle is not built where
    /// one is missing: the error names the path of the first such resource.
    pub fn get_bundle(&self, locales: Vec<Locale>, resource_ids: Vec<String>) -> (built: Result<
        Bundle<'_>,
        ResourceReadFailure,
    >)
        requires
            locales@.len() > 0,
        ensures
            match first_hit(
                missing_flags(self.cached(), self.scheme(), resource_ids@, locales@[0]@),
                0,
            ) {
                Some(i) => built matches Err(failure) && failure.path@ == self.path_of(
                    resource_ids@[i]@,
                    locales@[0]@,
                ),
                None => built matches Ok(bundle) && bundle.built_from(
                    seq![locales@[0]@],
                    resource_ids@,
                    locale_sources(self.cached(), self.scheme(), resource_ids@, locales@[0]@),
                ),
            },
    {
        let mut chain: Vec<Locale> = Vec::new();
        chain.push(locales[0].clone());
        assert(tags_of(chain@) =~= seq![locales@[0]@]);
        match self.assemble(&chain, &locales[0], &resource_ids) {
            Ok((messages, duplicates)) => Ok(Bundle { messages, resource_ids, duplicates }),
            Err(failure) => Err(failure),
        }
    }

    /// The bundles of `locales`, one for each locale and in their order, for
    /// the resources `resource_ids`. Nothing is built until a bundle is asked
    /// for.
    pub fn get_bundles(&self, locales: Vec<Locale>, resource_ids: Vec<String>) -> (bundles:
        BundleIter)
        ensures
            bundles.locales() == locales@,
            bundles.resource_ids() == resource_ids@,
            bundles.position() == 0,
    {
        BundleIter { locales, resource_ids, position: 0 }
    }
}

/// A copy of a list of resource ids.
fn clone_ids(resource_ids: &Vec<String>) -> (copy: Vec<String>)
    ensures
        copy@ == resource_ids@,
{
    let mut copy: Vec<String> = Vec::new();
    let mut i: usize = 0;
    while i < resource_ids.len()
        invariant
            i <= resource_ids.len(),
            copy@ == resource_ids@.take(i as int),
        decreases resource_ids.len() - i,
    {
        copy.push(resource_ids[i].clone());
        assert(resource_ids@.take(i + 1) =~= resource_ids@.take(i as int).push(resource_ids@[i as int]));
        i += 1;
    }
    assert(resource_ids@.take(i as int) =~= resource_ids@);
    copy
}

impl BundleIter {
    /// The chain of locales that the sequence runs through.
    pub closed spec fn locales(&self) -> Seq<Locale> {
        self.locales@
    }

    /// The ids of the resources that each bundle is built from.
    pub closed spec fn resource_ids(&self) -> Seq<String> {
        self.resource_ids@
    }

    /// How many bundles the sequence has yielded.
    pub closed spec fn position(&self) -> nat {
        self.position as nat
    }

    /// The locale of the bundle that comes next, or `None` where the sequence
    /// has ended.
    pub open spec fn pending(&self) -> Option<Locale> {
        if self.position() < self.locales().len() {
            Some(self.locales()[self.position() as int])
        } else {
            None
        }
    }

    /// The locale of the bundle that comes next, or `None` where the sequence
    /// has ended.
    pub fn pending_locale(&self) -> (locale: Option<&Locale>)
        ensures
            match locale {
                Some(l) => self.pending() == Some(*l),
                None => self.pending() is None,
            },
    {
        if self.position < self.locales.len() {
            Some(&self.locales[self.position])
        } else {
            None
        }
    }

    /// The path of the first resource that the bundle that comes next needs
    /// and that the cache of `manager` lacks. `None` where it lacks none, or
    /// where the sequence has ended.
    pub fn missing_resource(&self, manager: &ResourceManager) -> (path: Option<String>)
        ensures
            match self.pending() {
                Some(locale) => match first_hit(
                    missing_flags(manager.cached(), manager.scheme(), self.resource_ids(), locale@),
                    0,
                ) {
                    Some(i) => path matches Some(p) && p@ == manager.path_of(
                        self.resource_ids()[i]@,
                        locale@,
                    ),
                    None => path is None,
                },
                None => path is None,
            },
    {
        if self.position < self.locales.len() {
            manager.missing_resource(&self.locales[self.position], &self.resource_ids)
        } else {
            None
        }
    }

    /// Builds and yields the bundle that comes next: that of the locale at
    /// the sequence's position, with the resources of that locale alone, for
    /// a chain that holds that locale alone. Returns `None` once every locale
    /// has had its bundle. A bundle that was yielded is not built again.
    ///
    /// Every resource of the bundle has to be in the cache of `manager`.
    /// Where one is missing, the error names the path of the first such
    /// resource and the sequence stays where it is, so that the bundle can be
    /// asked for again once the resource was supplied.
    pub fn next<'a>(&mut self, manager: &'a ResourceManager) -> (item: Option<
        Result<Bundle<'a>, ResourceReadFailure>,
    >)
        ensures
            final(self).locales() == old(self).locales(),
            final(self).resource_ids() == old(self).resource_ids(),
            match old(self).pending() {
                Some(locale) => match first_hit(
                    missing_flags(
                        manager.cached(),
                        manager.scheme(),
                        old(self).resource_ids(),
                        locale@,
                    ),
                    0,
                ) {
                    Some(i) => item matches Some(Err(failure)) && failure.path@ == manager.path_of(
                        old(self).resource_ids()[i]@,
                        locale@,
                    ) && final(self).position() == old(self).position(),
                    None => item matches Some(Ok(bundle)) && bundle.built_from(
                        seq![locale@],
                        old(self).resource_ids(),
                        locale_sources(
                            manager.cached(),
                            manager.scheme(),
                            old(self).resource_ids(),
                            locale@,
                        ),
                    ) && final(self).position() == old(self).position() + 1,
                },
                None => item is None && final(self).position() == old(self).position(),
            },
    {
        if self.position >= self.locales.len() {
            return None;
        }
        let mut chain: Vec<Locale> = Vec::new();
        chain.push(self.locales[self.position].clone());
        assert(tags_of(chain@) =~= seq![self.locales@[self.position as int]@]);
        match manager.assemble(&chain, &self.locales[self.position], &self.resource_ids) {
            Ok((messages, duplicates)) => {
                let resource_ids = clone_ids(&self.resource_ids);
                self.position += 1;
                Some(Ok(Bundle { messages, resource_ids, duplicates }))
            },
            Err(failure) => Some(Err(failure)),
        }
    }
}

/// A resource that the cache holds stays in it, unchanged, whatever is
/// supplied later: the cache only grows.
pub proof fn law_cached_resource_stays(
    cached: Map<Seq<char>, Seq<char>>,
    path: Seq<char>,
    source: Seq<char>,
    key: Seq<char>,
)
    requires
        cached.contains_key(key),
    ensures
        with_source(cached, path, source).contains_key(key),
        with_source(cached, path, source)[key] == cached[key],
{
}

/// A resource that was supplied is in the cache from then on, and supplying
/// another text for its path changes nothing: every later lookup finds the
/// resource that was cached first.
pub proof fn law_first_supply_wins(
    cached: Map<Seq<char>, Seq<char>>,
    path: Seq<char>,
    first: Seq<char>,
    second: Seq<char>,
)
    ensures
        with_source(cached, path, first).contains_key(path),
        !cached.contains_key(path) ==> with_source(cached, path, first)[path] == first,
        with_source(with_source(cached, path, first), path, second) == with_source(
            cached,
            path,
            first,
        ),
{
}

/// The bundle of a locale whose resources are all cached is built from the
/// same sources after any further supply: bundles that were built stay what
/// they are while the cache grows.
pub proof fn law_bundle_sources_stay(
    cached: Map<Seq<char>, Seq<char>>,
    scheme: Seq<char>,
    resource_ids: Seq<String>,
    locale: Seq<char>,
    path: Seq<char>,
    source: Seq<char>,
)
    requires
        first_hit(missing_flags(cached, scheme, resource_ids, locale), 0) is None,
    ensures
        first_hit(
            missing_flags(with_source(cached, path, source), scheme, resource_ids, locale),
            0,
        ) is None,
        locale_sources(with_source(cached, path, source), scheme, resource_ids, locale)
            == locale_sources(cached, scheme, resource_ids, locale),
{
    let before = missing_flags(cached, scheme, resource_ids, locale);
    let grown = with_source(cached, path, source);
    let after = missing_flags(grown, scheme, resource_ids, locale);
    lemma_first_hit_missing(before, 0);
    assert forall|i: int| 0 <= i < after.len() implies !#[trigger] after[i] by {
        assert(!before[i]);
    }
    lemma_first_hit_none(after, 0);
    assert forall|i: int| 0 <= i < resource_ids.len() implies locale_sources(
        grown,
        scheme,
        resource_ids,
        locale,
    )[i] == locale_sources(cached, scheme, resource_ids, locale)[i] by {
        assert(!before[i]);
    }
    assert(locale_sources(grown, scheme, resource_ids, locale) =~= locale_sources(
        cached,
        scheme,
        resource_ids,
        locale,
    ));
}

/// Supplying the resource that is reported missing makes progress: the
/// resource is missing no longer, and none that was cached goes missing.
pub proof fn law_supply_makes_progress(
    cached: Map<Seq<char>, Seq<char>>,
    scheme: Seq<char>,
    resource_ids: Seq<String>,
    locale: Seq<char>,
    source: Seq<char>,
    at: int,
)
    requires
        first_hit(missing_flags(cached, scheme, resource_ids, locale), 0) == Some(at),
    ensures
        ({
            let path = resource_path(scheme, resource_ids[at]@, locale);
            let after = missing_flags(
                with_source(cached, path, source),
                scheme,
                resource_ids,
                locale,
            );
            match first_hit(after, 0) {
                Some(next) => at < next,
                None => true,
            }
        }),
{
    let before = missing_flags(cached, scheme, resource_ids, locale);
    let path = resource_path(scheme, resource_ids[at]@, locale);
    let after = missing_flags(with_source(cached, path, source), scheme, resource_ids, locale);
    lemma_first_hit_found(before, 0, at);
    if let Some(next) = first_hit(after, 0) {
        lemma_first_hit_found(after, 0, next);
        if next <= at {
            if next < at {
                assert(!before[next]);
            }
            assert(after[next]);
            assert(false);
        }
    }
}

} // verus!
