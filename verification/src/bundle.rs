//! Bundles: the resources of one locale, gathered for formatting.

use crate::locale::Locale;
use crate::path::resource_path;
use crate::resource::{copy_errors, resource_source, syntax_errors, ParsedResource, SyntaxError};
use crate::search::{
    first_hit, lemma_first_hit_at, lemma_first_hit_found, lemma_first_hit_missing,
    lemma_first_hit_none,
};
use fluent_bundle::{FluentBundle, FluentError, FluentResource};
use vstd::prelude::*;

verus! {

/// `fluent_bundle::bundle::FluentBundle`: the messages of the resources added
/// to it, for one chain of locales. Opaque to the verifier.
#[verifier::external_type_specification]
#[verifier::external_body]
#[verifier::reject_recursive_types(R)]
#[verifier::reject_recursive_types(M)]
pub struct ExFluentBundle<R, M>(fluent_bundle::bundle::FluentBundle<R, M>);

/// `intl_memoizer::IntlLangMemoizer`: the formatter cache that a
/// `FluentBundle` carries. Opaque to the verifier.
#[verifier::external_type_specification]
#[verifier::external_body]
pub struct ExIntlLangMemoizer(intl_memoizer::IntlLangMemoizer);

/// The chain of locales that a bundle was made with, each in canonical form.
pub uninterp spec fn bundle_locales(bundle: FluentBundle<&FluentResource>) -> Seq<Seq<char>>;

/// What a bundle holds: the source texts of the resources added to it, in the
/// order in which they were added.
pub uninterp spec fn bundle_sources(bundle: FluentBundle<&FluentResource>) -> Seq<Seq<char>>;

/// The entries that a bundle formats: for each identifier that the bundle
/// knows, the resource that defines it, by its position among the bundle's
/// resources, and the entry in that resource, by its position among the
/// entries that `entry_ids` lists for the resource.
pub uninterp spec fn bundle_entries(bundle: FluentBundle<&FluentResource>) -> Map<
    Seq<char>,
    (int, int),
>;

/// The chain of locales that a bundle which owns its resources was made
/// with, each in canonical form.
pub uninterp spec fn owned_locales(bundle: FluentBundle<FluentResource>) -> Seq<Seq<char>>;

/// What a bundle which owns its resources holds: the source texts of the
/// resources added to it, in the order in which they were added.
pub uninterp spec fn owned_sources(bundle: FluentBundle<FluentResource>) -> Seq<Seq<char>>;

/// The entries that a bundle which owns its resources formats, as
/// `bundle_entries` gives them for one that borrows them.
pub uninterp spec fn owned_entries(bundle: FluentBundle<FluentResource>) -> Map<
    Seq<char>,
    (int, int),
>;

/// The identifiers of the messages and terms that the Fluent parser finds in
/// `source`, in the order of their definitions. A term is listed without its
/// leading dash.
pub uninterp spec fn entry_ids(source: Seq<char>) -> Seq<Seq<char>>;

/// The identifiers of all entries of `sources`, one source after the other.
pub open spec fn all_entry_ids(sources: Seq<Seq<char>>) -> Seq<Seq<char>>
    decreases sources.len(),
{
    if sources.len() == 0 {
        Seq::empty()
    } else {
        all_entry_ids(sources.drop_last()) + entry_ids(sources.last())
    }
}

/// The identifiers among `offered` that define nothing new, in order: each
/// one that is already `known`, or that was offered before.
pub open spec fn repeated(known: Set<Seq<char>>, offered: Seq<Seq<char>>) -> Seq<Seq<char>>
    decreases offered.len(),
{
    if offered.len() == 0 {
        Seq::empty()
    } else {
        let before = offered.drop_last();
        let id = offered.last();
        if known.contains(id) || before.contains(id) {
            repeated(known, before).push(id)
        } else {
            repeated(known, before)
        }
    }
}

/// The entries of a bundle after a resource with the identifiers `offered`
/// was added at position `resource`: an identifier that the bundle knows
/// keeps its entry, and a new one gets the first entry offered for it.
pub open spec fn with_entries(
    known: Map<Seq<char>, (int, int)>,
    resource: int,
    offered: Seq<Seq<char>>,
) -> Map<Seq<char>, (int, int)> {
    Map::new(
        |id: Seq<char>| known.contains_key(id) || offered.contains(id),
        |id: Seq<char>|
            if known.contains_key(id) {
                known[id]
            } else {
                (resource, offered.index_of_first(id).unwrap())
            },
    )
}

/// For each of `sources`, whether it defines `id`.
pub open spec fn defining(sources: Seq<Seq<char>>, id: Seq<char>) -> Seq<bool> {
    Seq::new(sources.len(), |r: int| entry_ids(sources[r]).contains(id))
}

/// The entries that a bundle of `sources` formats: for each identifier that
/// any of them defines, the first entry of that name in the first source that
/// has one.
pub open spec fn entries_of(sources: Seq<Seq<char>>) -> Map<Seq<char>, (int, int)> {
    Map::new(
        |id: Seq<char>| first_hit(defining(sources, id), 0) is Some,
        |id: Seq<char>|
            {
                let r = first_hit(defining(sources, id), 0).unwrap();
                (r, entry_ids(sources[r]).index_of_first(id).unwrap())
            },
    )
}

/// The record of an entry that was ignored because an earlier entry of the
/// bundle has the same identifier.
#[derive(Debug)]
pub struct DuplicateMessageId {
    pub id: String,
}

/// The identifiers that a list of records names.
pub open spec fn duplicate_ids(duplicates: Seq<DuplicateMessageId>) -> Seq<Seq<char>> {
    Seq::new(duplicates.len(), |i: int| duplicates[i].id@)
}

/// The canonical tags of a list of locales.
pub open spec fn tags_of(locales: Seq<Locale>) -> Seq<Seq<char>> {
    Seq::new(locales.len(), |i: int| locales[i]@)
}

/// The sources that a cache holds for the resources `resource_ids` of one
/// locale, in the order of the ids.
pub open spec fn locale_sources(
    cached: Map<Seq<char>, Seq<char>>,
    scheme: Seq<char>,
    resource_ids: Seq<String>,
    locale: Seq<char>,
) -> Seq<Seq<char>> {
    Seq::new(
        resource_ids.len(),
        |i: int| cached[resource_path(scheme, resource_ids[i]@, locale)],
    )
}

/// For each of the resources `resource_ids` of one locale, whether the cache
/// lacks it.
pub open spec fn missing_flags(
    cached: Map<Seq<char>, Seq<char>>,
    scheme: Seq<char>,
    resource_ids: Seq<String>,
    locale: Seq<char>,
) -> Seq<bool> {
    Seq::new(
        resource_ids.len(),
        |i: int| !cached.contains_key(resource_path(scheme, resource_ids[i]@, locale)),
    )
}

/// `FluentBundle::new`: an empty bundle for a chain of locales. Every
/// `Locale` holds a tag that reads back as itself, so the bundle's chain is
/// the chain given.
#[verifier::external_body]
pub(crate) fn bundle_new<'a>(locales: &Vec<Locale>) -> (bundle: FluentBundle<&'a FluentResource>)
    ensures
        bundle_locales(bundle) == tags_of(locales@),
        bundle_sources(bundle) == Seq::<Seq<char>>::empty(),
        bundle_entries(bundle).dom() == Set::<Seq<char>>::empty(),
{
    FluentBundle::new(locales.iter().map(|locale| locale.tag().parse().unwrap_or_default()).collect())
}

/// `FluentBundle::add_resource`: adds `resource` as the bundle's next
/// resource, and its entries to the entries that the bundle formats. An entry
/// whose identifier the bundle already knows, from an earlier resource or
/// from an earlier entry of this one, is ignored and reported; the other
/// entries are still added. The reports are returned in the order of the
/// entries.
#[verifier::external_body]
pub(crate) fn bundle_add<'a>(
    bundle: &mut FluentBundle<&'a FluentResource>,
    resource: &'a FluentResource,
) -> (ignored: Vec<DuplicateMessageId>)
    ensures
        bundle_locales(*final(bundle)) == bundle_locales(*old(bundle)),
        bundle_sources(*final(bundle)) == bundle_sources(*old(bundle)).push(
            resource_source(*resource),
        ),
        bundle_entries(*final(bundle)) == with_entries(
            bundle_entries(*old(bundle)),
            bundle_sources(*old(bundle)).len() as int,
            entry_ids(resource_source(*resource)),
        ),
        duplicate_ids(ignored@) == repeated(
            bundle_entries(*old(bundle)).dom(),
            entry_ids(resource_source(*resource)),
        ),
{
    let mut ignored = Vec::new();
    if let Err(errors) = bundle.add_resource(resource) {
        for error in errors {
            match error {
                FluentError::Overriding { id, .. } => ignored.push(DuplicateMessageId { id }),
                FluentError::ParserError(_) => {},
                FluentError::ResolverError(_) => {},
            }
        }
    }
    ignored
}

/// `FluentBundle::new`, for a bundle that owns its resources: an empty
/// bundle for a chain of locales. Every `Locale` holds a tag that reads back
/// as itself, so the bundle's chain is the chain given.
#[verifier::external_body]
pub(crate) fn owned_new(locales: &Vec<Locale>) -> (bundle: FluentBundle<FluentResource>)
    ensures
        owned_locales(bundle) == tags_of(locales@),
        owned_sources(bundle) == Seq::<Seq<char>>::empty(),
        owned_entries(bundle).dom() == Set::<Seq<char>>::empty(),
{
    FluentBundle::new(locales.iter().map(|locale| locale.tag().parse().unwrap_or_default()).collect())
}

/// `FluentBundle::add_resource`, for a bundle that owns its resources: adds
/// `resource` as the bundle's next resource, and its entries to the entries
/// that the bundle formats. An entry whose identifier the bundle already
/// knows is ignored and reported; the other entries are still added. The
/// reports are returned in the order of the entries.
#[verifier::external_body]
pub(crate) fn owned_add(bundle: &mut FluentBundle<FluentResource>, resource: FluentResource) -> (ignored:
    Vec<DuplicateMessageId>)
    ensures
        owned_locales(*final(bundle)) == owned_locales(*old(bundle)),
        owned_sources(*final(bundle)) == owned_sources(*old(bundle)).push(
            resource_source(resource),
        ),
        owned_entries(*final(bundle)) == with_entries(
            owned_entries(*old(bundle)),
            owned_sources(*old(bundle)).len() as int,
            entry_ids(resource_source(resource)),
        ),
        duplicate_ids(ignored@) == repeated(
            owned_entries(*old(bundle)).dom(),
            entry_ids(resource_source(resource)),
        ),
{
    let mut ignored = Vec::new();
    if let Err(errors) = bundle.add_resource(resource) {
        for error in errors {
            match error {
                FluentError::Overriding { id, .. } => ignored.push(DuplicateMessageId { id }),
                FluentError::ParserError(_) => {},
                FluentError::ResolverError(_) => {},
            }
        }
    }
    ignored
}

/// The resources of one locale, gathered for formatting. The bundle borrows
/// its resources from the manager that built it.
pub struct Bundle<'a> {
    /// The messages, ready for formatting. Formatting is the work of
    /// `fluent_bundle`, which resolves the select expressions of a pattern by
    /// its own rules.
    pub messages: FluentBundle<&'a FluentResource>,
    /// The ids of the resources that the bundle was built from.
    pub resource_ids: Vec<String>,
    /// The entries that were ignored as duplicates.
    pub duplicates: Vec<DuplicateMessageId>,
}

/// The resources of one locale, gathered for formatting. The bundle owns its
/// resources.
pub struct OwnedBundle {
    /// The messages, ready for formatting.
    pub messages: FluentBundle<FluentResource>,
    /// The entries that were ignored as duplicates.
    pub duplicates: Vec<DuplicateMessageId>,
    /// The syntax errors of each source, in the order of the sources.
    pub syntax_errors: Vec<Vec<SyntaxError>>,
}

/// Whether a bundle with the chain `locales`, the sources `held` and the
/// entries `entries`, together with the recorded identifiers `recorded`, is
/// what gathering `sources` for the chain `chain` gives: the bundle holds the
/// sources in order and formats the first entry of each identifier, and every
/// later entry of an identifier is recorded, in the order of the entries.
pub open spec fn gathers(
    locales: Seq<Seq<char>>,
    held: Seq<Seq<char>>,
    entries: Map<Seq<char>, (int, int)>,
    recorded: Seq<Seq<char>>,
    chain: Seq<Seq<char>>,
    sources: Seq<Seq<char>>,
) -> bool {
    &&& locales == chain
    &&& held == sources
    &&& entries == entries_of(sources)
    &&& recorded == repeated(Set::empty(), all_entry_ids(sources))
}

/// Whether `messages` and `duplicates` are what gathering `sources` for the
/// chain `chain` gives.
pub open spec fn gathered(
    messages: FluentBundle<&FluentResource>,
    duplicates: Seq<DuplicateMessageId>,
    chain: Seq<Seq<char>>,
    sources: Seq<Seq<char>>,
) -> bool {
    gathers(
        bundle_locales(messages),
        bundle_sources(messages),
        bundle_entries(messages),
        duplicate_ids(duplicates),
        chain,
        sources,
    )
}

/// Whether `messages`, which owns its resources, and `duplicates` are what
/// gathering `sources` for the chain `chain` gives.
pub open spec fn gathered_owned(
    messages: FluentBundle<FluentResource>,
    duplicates: Seq<DuplicateMessageId>,
    chain: Seq<Seq<char>>,
    sources: Seq<Seq<char>>,
) -> bool {
    gathers(
        owned_locales(messages),
        owned_sources(messages),
        owned_entries(messages),
        duplicate_ids(duplicates),
        chain,
        sources,
    )
}

/// The texts of a list of sources.
pub open spec fn texts_of(sources: Seq<String>) -> Seq<Seq<char>> {
    Seq::new(sources.len(), |i: int| sources[i]@)
}

/// Parses `sources` and gathers them, in order, into a bundle for `locale`
/// that owns its resources. Where two entries have the same identifier the
/// first one is kept and the later one is recorded among the duplicates. A
/// source with syntax errors gives the entries that could be parsed, and its
/// errors are returned beside the bundle.
pub fn owned_bundle(locale: &Locale, sources: Vec<String>) -> (built: OwnedBundle)
    ensures
        gathered_owned(built.messages, built.duplicates@, seq![locale@], texts_of(sources@)),
        built.syntax_errors@.len() == sources@.len(),
        forall|i: int|
            0 <= i < sources@.len() ==> (#[trigger] built.syntax_errors@[i])@ == syntax_errors(
                sources@[i]@,
            ),
{
    let ghost texts = texts_of(sources@);
    let mut chain: Vec<Locale> = Vec::new();
    chain.push(locale.clone());
    let mut messages = owned_new(&chain);
    let mut duplicates: Vec<DuplicateMessageId> = Vec::new();
    let mut syntax: Vec<Vec<SyntaxError>> = Vec::new();
    let mut i: usize = 0;
    proof {
        assert(tags_of(chain@) =~= seq![locale@]);
        assert(owned_sources(messages) =~= texts.take(0));
        assert(duplicate_ids(duplicates@) =~= Seq::<Seq<char>>::empty());
        assert forall|id: Seq<char>| !entries_of(texts.take(0)).contains_key(id) by {
            lemma_first_hit_none(defining(texts.take(0), id), 0);
        }
        assert(owned_entries(messages) =~= entries_of(texts.take(0)));
    }
    while i < sources.len()
        invariant
            i <= sources.len(),
            texts == texts_of(sources@),
            gathered_owned(messages, duplicates@, seq![locale@], texts.take(i as int)),
            syntax@.len() == i,
            forall|j: int|
                0 <= j < i ==> (#[trigger] syntax@[j])@ == syntax_errors(sources@[j]@),
        decreases sources.len() - i,
    {
        let parsed = ParsedResource::parse(sources[i].clone());
        syntax.push(copy_errors(parsed.syntax_errors()));
        let resource = parsed.into_resource();
        let ghost held = owned_sources(messages);
        let ghost before = duplicates@;
        let mut ignored = owned_add(&mut messages, resource);
        let ghost added = ignored@;
        duplicates.append(&mut ignored);
        proof {
            let source = sources@[i as int]@;
            assert(texts.take(i + 1) =~= texts.take(i as int).push(source));
            lemma_entries_push(held, source);
            lemma_gathered_push(held, source, duplicate_ids(before), duplicate_ids(added));
            assert(duplicate_ids(before + added) =~= duplicate_ids(before) + duplicate_ids(added));
        }
        i += 1;
    }
    assert(texts.take(i as int) =~= texts);
    OwnedBundle { messages, duplicates, syntax_errors: syntax }
}

impl<'a> Bundle<'a> {
    /// The chain of locales that the bundle formats for.
    pub open spec fn locales(&self) -> Seq<Seq<char>> {
        bundle_locales(self.messages)
    }

    /// The source texts of the bundle's resources, in order.
    pub open spec fn sources(&self) -> Seq<Seq<char>> {
        bundle_sources(self.messages)
    }

    /// The entries that the bundle formats.
    pub open spec fn entries(&self) -> Map<Seq<char>, (int, int)> {
        bundle_entries(self.messages)
    }

    /// Whether the bundle is the one of the resources `resource_ids` with the
    /// sources `sources`, for the chain `chain`.
    pub open spec fn built_from(
        &self,
        chain: Seq<Seq<char>>,
        resource_ids: Seq<String>,
        sources: Seq<Seq<char>>,
    ) -> bool {
        &&& self.resource_ids@ == resource_ids
        &&& gathered(self.messages, self.duplicates@, chain, sources)
    }
}

/// The identifiers of one more source follow those of the sources before it.
pub proof fn lemma_entry_ids_push(sources: Seq<Seq<char>>, source: Seq<char>)
    ensures
        all_entry_ids(sources.push(source)) == all_entry_ids(sources) + entry_ids(source),
{
    assert(sources.push(source).drop_last() =~= sources);
}

/// What two lists hold together is what either holds.
pub proof fn lemma_contains_concat(first: Seq<Seq<char>>, second: Seq<Seq<char>>, id: Seq<char>)
    ensures
        (first + second).contains(id) == (first.contains(id) || second.contains(id)),
{
    if first.contains(id) {
        let i = choose|i: int| 0 <= i < first.len() && first[i] == id;
        assert((first + second)[i] == id);
    }
    if second.contains(id) {
        let i = choose|i: int| 0 <= i < second.len() && second[i] == id;
        assert((first + second)[first.len() + i] == id);
    }
    if (first + second).contains(id) {
        let i = choose|i: int| 0 <= i < (first + second).len() && (first + second)[i] == id;
        if i < first.len() {
            assert(first[i] == id);
        } else {
            assert(second[i - first.len()] == id);
        }
    }
}

/// What is repeated in two lists offered one after the other is what is
/// repeated in the first, and then what is repeated in the second when the
/// first is known.
pub proof fn lemma_repeated_concat(
    known: Set<Seq<char>>,
    first: Seq<Seq<char>>,
    second: Seq<Seq<char>>,
)
    ensures
        repeated(known, first + second) == repeated(known, first) + repeated(
            known.union(first.to_set()),
            second,
        ),
    decreases second.len(),
{
    if second.len() == 0 {
        assert(first + second =~= first);
        assert(repeated(known, first) + Seq::<Seq<char>>::empty() =~= repeated(known, first));
    } else {
        let before = second.drop_last();
        let id = second.last();
        lemma_repeated_concat(known, first, before);
        assert((first + second).drop_last() =~= first + before);
        assert((first + second).last() == id);
        lemma_contains_concat(first, before, id);
        let head = repeated(known, first);
        let tail = repeated(known.union(first.to_set()), before);
        assert((head + tail).push(id) =~= head + tail.push(id));
    }
}

/// Adding one more source to a bundle gives the entries of the longer list
/// of sources.
pub proof fn lemma_entries_push(sources: Seq<Seq<char>>, source: Seq<char>)
    ensures
        entries_of(sources.push(source)) == with_entries(
            entries_of(sources),
            sources.len() as int,
            entry_ids(source),
        ),
{
    let longer = sources.push(source);
    let left = entries_of(longer);
    let right = with_entries(entries_of(sources), sources.len() as int, entry_ids(source));
    assert forall|id: Seq<char>|
        #![trigger left.dom().contains(id)]
        #![trigger right.dom().contains(id)]
        left.dom().contains(id) == right.dom().contains(id) && (left.dom().contains(id)
            ==> left[id] == right[id]) by {
        let hits = defining(sources, id);
        let more = defining(longer, id);
        assert forall|r: int| 0 <= r < sources.len() implies more[r] == hits[r] by {
            assert(longer[r] == sources[r]);
        }
        assert(more[sources.len() as int] == entry_ids(source).contains(id));
        match first_hit(hits, 0) {
            Some(r) => {
                lemma_first_hit_found(hits, 0, r);
                assert(more[r]);
                assert forall|j: int| 0 <= j < r implies !#[trigger] more[j] by {
                    assert(!hits[j]);
                }
                lemma_first_hit_at(more, 0, r);
                assert(longer[r] == sources[r]);
            },
            None => {
                lemma_first_hit_missing(hits, 0);
                assert forall|j: int| 0 <= j < sources.len() implies !#[trigger] more[j] by {
                    assert(!hits[j]);
                }
                if entry_ids(source).contains(id) {
                    lemma_first_hit_at(more, 0, sources.len() as int);
                } else {
                    lemma_first_hit_none(more, 0);
                }
            },
        }
    }
    assert(left =~= right);
}

/// The identifiers that a bundle knows are those of the entries of its
/// sources.
pub proof fn lemma_known_ids(sources: Seq<Seq<char>>)
    ensures
        entries_of(sources).dom() == all_entry_ids(sources).to_set(),
    decreases sources.len(),
{
    if sources.len() == 0 {
        assert forall|id: Seq<char>| !entries_of(sources).contains_key(id) by {
            lemma_first_hit_none(defining(sources, id), 0);
        }
        assert(entries_of(sources).dom() =~= all_entry_ids(sources).to_set());
    } else {
        let before = sources.drop_last();
        let source = sources.last();
        assert(before.push(source) =~= sources);
        lemma_known_ids(before);
        lemma_entries_push(before, source);
        assert forall|id: Seq<char>|
            entries_of(sources).dom().contains(id) == all_entry_ids(sources).to_set().contains(
                id,
            ) by {
            lemma_contains_concat(all_entry_ids(before), entry_ids(source), id);
            assert(entries_of(before).dom().contains(id) == all_entry_ids(before).to_set().contains(
                id,
            ));
        }
        assert(entries_of(sources).dom() =~= all_entry_ids(sources).to_set());
    }
}

/// Adding one more source to what was gathered gives what gathering the
/// longer list of sources gives.
pub proof fn lemma_gathered_push(
    sources: Seq<Seq<char>>,
    source: Seq<char>,
    recorded: Seq<Seq<char>>,
    ignored: Seq<Seq<char>>,
)
    requires
        recorded == repeated(Set::empty(), all_entry_ids(sources)),
        ignored == repeated(entries_of(sources).dom(), entry_ids(source)),
    ensures
        recorded + ignored == repeated(Set::empty(), all_entry_ids(sources.push(source))),
{
    lemma_entry_ids_push(sources, source);
    lemma_known_ids(sources);
    lemma_repeated_concat(Set::empty(), all_entry_ids(sources), entry_ids(source));
    assert(Set::<Seq<char>>::empty().union(all_entry_ids(sources).to_set())
        =~= all_entry_ids(sources).to_set());
}

/// A bundle formats the first entry of each identifier: the entry lies in
/// the first source that defines the identifier, and no entry before it in
/// that source has the same identifier.
pub proof fn law_first_entry_kept(sources: Seq<Seq<char>>, id: Seq<char>)
    requires
        entries_of(sources).contains_key(id),
    ensures
        ({
            let (r, k) = entries_of(sources)[id];
            &&& 0 <= r < sources.len()
            &&& 0 <= k < entry_ids(sources[r]).len()
            &&& entry_ids(sources[r])[k] == id
            &&& forall|j: int| 0 <= j < k ==> entry_ids(sources[r])[j] != id
            &&& forall|q: int| 0 <= q < r ==> !(#[trigger] entry_ids(sources[q])).contains(id)
        }),
{
    let hits = defining(sources, id);
    let r = first_hit(hits, 0).unwrap();
    lemma_first_hit_found(hits, 0, r);
    entry_ids(sources[r]).index_of_first_ensures(id);
    assert forall|q: int| 0 <= q < r implies !(#[trigger] entry_ids(sources[q])).contains(id) by {
        assert(!hits[q]);
    }
}

/// A bundle knows exactly the identifiers that its sources define.
pub proof fn law_defined_ids_known(sources: Seq<Seq<char>>, id: Seq<char>)
    ensures
        entries_of(sources).contains_key(id) == all_entry_ids(sources).contains(id),
{
    lemma_known_ids(sources);
    assert(entries_of(sources).dom().contains(id) == all_entry_ids(sources).to_set().contains(id));
}

} // verus!
