//! Selection of one variant of a select expression by the value of its
//! selector.
//!
//! A key matches a selector either exactly, as a literal of the selector's own
//! kind, or, for a number, as the plural category of that number. Exact
//! matches take precedence over category matches, and within each kind the
//! variant declared first wins. Where no key matches, the default variant is
//! selected.

use crate::number::Number;
use crate::plural::{categorize, category_named, plural_category, PluralCategory};
use crate::search::{first_hit, lemma_first_hit_at, lemma_first_hit_found, lemma_first_hit_none};
use vstd::prelude::*;

verus! {

/// The value that a select expression branches on.
#[derive(Debug)]
pub enum SelectorValue {
    /// A text.
    String(String),
    /// A number, with the literal it was written as.
    Number(Number),
    /// A selector that could not be computed, such as a missing argument.
    Unresolved,
}

/// The key of a variant.
#[derive(Debug)]
pub enum VariantKey {
    /// A text literal.
    String(String),
    /// A number literal.
    Number(Number),
    /// The name of a plural category.
    Category(PluralCategory),
}

/// One alternative of a select expression.
#[derive(Debug)]
pub struct Variant {
    pub key: VariantKey,
    pub text: String,
    pub default: bool,
}

/// Whether `key` is a literal of the selector's kind and equal to it: texts
/// by their characters, numbers by their numeric values.
pub open spec fn exact_match(selector: SelectorValue, key: VariantKey) -> bool {
    match (selector, key) {
        (SelectorValue::String(s), VariantKey::String(k)) => s@ == k@,
        (SelectorValue::Number(n), VariantKey::Number(k)) => n.value().same_number(k.value()),
        _ => false,
    }
}

/// Whether `key` names the plural category of a number selector. `category`
/// is the category of the selector, where it has one.
pub open spec fn category_match(
    selector: SelectorValue,
    category: Option<PluralCategory>,
    key: VariantKey,
) -> bool {
    selector is Number && match key {
        VariantKey::Category(c) => category == Some(c),
        _ => false,
    }
}

/// Whether `key` matches the selector in either way.
pub open spec fn key_matches(
    selector: SelectorValue,
    category: Option<PluralCategory>,
    key: VariantKey,
) -> bool {
    exact_match(selector, key) || category_match(selector, category, key)
}

pub open spec fn exact_hits(selector: SelectorValue, variants: Seq<Variant>) -> Seq<bool> {
    Seq::new(variants.len(), |i: int| exact_match(selector, variants[i].key))
}

pub open spec fn category_hits(
    selector: SelectorValue,
    category: Option<PluralCategory>,
    variants: Seq<Variant>,
) -> Seq<bool> {
    Seq::new(variants.len(), |i: int| category_match(selector, category, variants[i].key))
}

pub open spec fn default_flags(variants: Seq<Variant>) -> Seq<bool> {
    Seq::new(variants.len(), |i: int| variants[i].default)
}

/// The position of the default variant: the first one flagged as default, or
/// the first variant where none is flagged.
pub open spec fn default_index(variants: Seq<Variant>) -> int {
    match first_hit(default_flags(variants), 0) {
        Some(i) => i,
        None => 0,
    }
}

/// The position of the variant that the selector selects: the first exact
/// match; failing that, the first category match; failing that, the default.
pub open spec fn selected_index(
    selector: SelectorValue,
    category: Option<PluralCategory>,
    variants: Seq<Variant>,
) -> int {
    match first_hit(exact_hits(selector, variants), 0) {
        Some(i) => i,
        None => match first_hit(category_hits(selector, category, variants), 0) {
            Some(i) => i,
            None => default_index(variants),
        },
    }
}

/// The plural category of the selector for a reader of `locale`: that of its
/// literal where it is a number, none otherwise.
pub open spec fn selector_category(locale: Seq<char>, selector: SelectorValue) -> Option<
    PluralCategory,
> {
    match selector {
        SelectorValue::Number(n) => plural_category(locale, n.text()),
        _ => None,
    }
}

impl VariantKey {
    /// The key that an identifier stands for: a plural category where it
    /// names one, a text otherwise.
    pub fn from_identifier(name: &str) -> (key: VariantKey)
        ensures
            match category_named(name@) {
                Some(category) => key == VariantKey::Category(category),
                None => key matches VariantKey::String(text) && text@ == name@,
            },
    {
        match PluralCategory::from_name(name) {
            Some(category) => VariantKey::Category(category),
            None => VariantKey::String(name.to_owned()),
        }
    }
}

fn is_exact_match(selector: &SelectorValue, key: &VariantKey) -> (hit: bool)
    ensures
        hit == exact_match(*selector, *key),
{
    match selector {
        SelectorValue::String(s) => match key {
            VariantKey::String(k) => *s == *k,
            _ => false,
        },
        SelectorValue::Number(n) => match key {
            VariantKey::Number(k) => n.same_number(k),
            _ => false,
        },
        SelectorValue::Unresolved => false,
    }
}

fn is_category_match(
    selector: &SelectorValue,
    category: Option<PluralCategory>,
    key: &VariantKey,
) -> (hit: bool)
    ensures
        hit == category_match(*selector, category, *key),
{
    match selector {
        SelectorValue::Number(_) => match key {
            VariantKey::Category(c) => match category {
                Some(found) => found == *c,
                None => false,
            },
            _ => false,
        },
        _ => false,
    }
}

fn find_exact(selector: &SelectorValue, variants: &Vec<Variant>) -> (found: Option<usize>)
    ensures
        match found {
            Some(i) => first_hit(exact_hits(*selector, variants@), 0) == Some(i as int),
            None => first_hit(exact_hits(*selector, variants@), 0) is None,
        },
{
    let ghost hits = exact_hits(*selector, variants@);
    let mut i: usize = 0;
    while i < variants.len()
        invariant
            i <= variants.len(),
            hits == exact_hits(*selector, variants@),
            first_hit(hits, 0) == first_hit(hits, i as int),
        decreases variants.len() - i,
    {
        if is_exact_match(selector, &variants[i].key) {
            return Some(i);
        }
        i += 1;
    }
    None
}

fn find_category(
    selector: &SelectorValue,
    category: Option<PluralCategory>,
    variants: &Vec<Variant>,
) -> (found: Option<usize>)
    ensures
        match found {
            Some(i) => first_hit(category_hits(*selector, category, variants@), 0) == Some(
                i as int,
            ),
            None => first_hit(category_hits(*selector, category, variants@), 0) is None,
        },
{
    let ghost hits = category_hits(*selector, category, variants@);
    let mut i: usize = 0;
    while i < variants.len()
        invariant
            i <= variants.len(),
            hits == category_hits(*selector, category, variants@),
            first_hit(hits, 0) == first_hit(hits, i as int),
        decreases variants.len() - i,
    {
        if is_category_match(selector, category, &variants[i].key) {
            return Some(i);
        }
        i += 1;
    }
    None
}

fn find_default(variants: &Vec<Variant>) -> (index: usize)
    ensures
        index == default_index(variants@),
{
    let ghost flags = default_flags(variants@);
    let mut i: usize = 0;
    while i < variants.len()
        invariant
            i <= variants.len(),
            flags == default_flags(variants@),
            first_hit(flags, 0) == first_hit(flags, i as int),
        decreases variants.len() - i,
    {
        if variants[i].default {
            return i;
        }
        i += 1;
    }
    0
}

/// Selects a variant for a selector whose plural category is known. Returns
/// the position of the selected variant, or `None` where there is no variant
/// at all.
pub fn select_variant(
    selector: &SelectorValue,
    category: Option<PluralCategory>,
    variants: &Vec<Variant>,
) -> (index: Option<usize>)
    ensures
        index is Some == (variants@.len() > 0),
        index matches Some(i) ==> i < variants@.len() && i == selected_index(
            *selector,
            category,
            variants@,
        ),
{
    if variants.len() == 0 {
        return None;
    }
    proof {
        lemma_selected_in_range(*selector, category, variants@);
    }
    match find_exact(selector, variants) {
        Some(i) => Some(i),
        None => match find_category(selector, category, variants) {
            Some(i) => Some(i),
            None => Some(find_default(variants)),
        },
    }
}

/// Selects a variant under the plural rules of `locale` and returns its text,
/// or `None` where there is no variant at all. The plural rules are asked only
/// where no key matches the selector exactly.
pub fn resolve_variant<'a>(
    locale: &str,
    selector: &SelectorValue,
    variants: &'a Vec<Variant>,
) -> (text: Option<&'a str>)
    ensures
        text is Some == (variants@.len() > 0),
        text matches Some(t) ==> t@ == variants@[selected_index(
            *selector,
            selector_category(locale@, *selector),
            variants@,
        )].text@,
{
    if variants.len() == 0 {
        return None;
    }
    proof {
        lemma_selected_in_range(*selector, selector_category(locale@, *selector), variants@);
    }
    let index = match find_exact(selector, variants) {
        Some(i) => i,
        None => {
            let category = match selector {
                SelectorValue::Number(n) => categorize(locale, n.literal()),
                _ => None,
            };
            match find_category(selector, category, variants) {
                Some(i) => i,
                None => find_default(variants),
            }
        },
    };
    Some(variants[index].text.as_str())
}

/// The selected position is a position of the list.
pub proof fn lemma_selected_in_range(
    selector: SelectorValue,
    category: Option<PluralCategory>,
    variants: Seq<Variant>,
)
    requires
        variants.len() > 0,
    ensures
        0 <= selected_index(selector, category, variants) < variants.len(),
{
    let exact = exact_hits(selector, variants);
    let by_category = category_hits(selector, category, variants);
    let flags = default_flags(variants);
    if let Some(i) = first_hit(exact, 0) {
        lemma_first_hit_found(exact, 0, i);
    } else if let Some(i) = first_hit(by_category, 0) {
        lemma_first_hit_found(by_category, 0, i);
    } else if let Some(i) = first_hit(flags, 0) {
        lemma_first_hit_found(flags, 0, i);
    }
}

/// A number key whose value equals that of a number selector is selected,
/// provided that no key declared before it equals the selector too. A key
/// declared before it that names the selector's plural category does not
/// stand in the way: exact matches take precedence.
pub proof fn law_equal_number_selected(
    selector: SelectorValue,
    category: Option<PluralCategory>,
    variants: Seq<Variant>,
    at: int,
)
    requires
        0 <= at < variants.len(),
        selector matches SelectorValue::Number(n) && variants[at].key matches VariantKey::Number(k)
            && n.value().same_number(k.value()),
        forall|j: int| 0 <= j < at ==> !exact_match(selector, #[trigger] variants[j].key),
    ensures
        selected_index(selector, category, variants) == at,
{
    let hits = exact_hits(selector, variants);
    assert(hits[at]);
    assert forall|j: int| 0 <= j < at implies !#[trigger] hits[j] by {
        assert(!exact_match(selector, variants[j].key));
    }
    lemma_first_hit_at(hits, 0, at);
}

/// A selector that no key matches selects the default variant.
pub proof fn law_unmatched_selects_default(
    selector: SelectorValue,
    category: Option<PluralCategory>,
    variants: Seq<Variant>,
)
    requires
        forall|i: int|
            0 <= i < variants.len() ==> !key_matches(selector, category, #[trigger] variants[i].key),
    ensures
        selected_index(selector, category, variants) == default_index(variants),
{
    let exact = exact_hits(selector, variants);
    let by_category = category_hits(selector, category, variants);
    assert forall|i: int| 0 <= i < exact.len() implies !#[trigger] exact[i] by {
        assert(!key_matches(selector, category, variants[i].key));
    }
    assert forall|i: int| 0 <= i < by_category.len() implies !#[trigger] by_category[i] by {
        assert(!key_matches(selector, category, variants[i].key));
    }
    lemma_first_hit_none(exact, 0);
    lemma_first_hit_none(by_category, 0);
}

/// Whether a key is of a kind that the selector can match at all: a text key
/// for a text, a number key or a category name for a number, and nothing for
/// an unresolved selector.
pub open spec fn kinds_agree(selector: SelectorValue, key: VariantKey) -> bool {
    match (selector, key) {
        (SelectorValue::String(_), VariantKey::String(_)) => true,
        (SelectorValue::Number(_), VariantKey::Number(_)) => true,
        (SelectorValue::Number(_), VariantKey::Category(_)) => true,
        _ => false,
    }
}

/// A selector whose kind agrees with none of the keys selects the default
/// variant, whatever the keys and the selector hold. This is so in
/// particular for every unresolved selector.
pub proof fn law_wrong_kind_selects_default(
    selector: SelectorValue,
    category: Option<PluralCategory>,
    variants: Seq<Variant>,
)
    requires
        forall|i: int|
            0 <= i < variants.len() ==> !kinds_agree(selector, #[trigger] variants[i].key),
    ensures
        selected_index(selector, category, variants) == default_index(variants),
{
    assert forall|i: int| 0 <= i < variants.len() implies !key_matches(
        selector,
        category,
        #[trigger] variants[i].key,
    ) by {
        assert(!kinds_agree(selector, variants[i].key));
    }
    law_unmatched_selects_default(selector, category, variants);
}

/// An unresolved selector selects the default variant.
pub proof fn law_unresolved_selects_default(
    category: Option<PluralCategory>,
    variants: Seq<Variant>,
)
    ensures
        selected_index(SelectorValue::Unresolved, category, variants) == default_index(variants),
{
    law_wrong_kind_selects_default(SelectorValue::Unresolved, category, variants);
}

/// A text selector matches no category name, not even one that spells the
/// same as the text.
pub proof fn law_text_never_matches_category(
    text: String,
    category: Option<PluralCategory>,
    name: PluralCategory,
)
    ensures
        !key_matches(SelectorValue::String(text), category, VariantKey::Category(name)),
{
}

/// Where exactly one variant is flagged as default, it is the default
/// variant.
pub proof fn law_single_default(variants: Seq<Variant>, at: int)
    requires
        0 <= at < variants.len(),
        variants[at].default,
        forall|j: int| 0 <= j < variants.len() && j != at ==> !(#[trigger] variants[j]).default,
    ensures
        default_index(variants) == at,
{
    let flags = default_flags(variants);
    assert(flags[at]);
    assert forall|j: int| 0 <= j < at implies !#[trigger] flags[j] by {
        assert(!variants[j].default);
    }
    lemma_first_hit_at(flags, 0, at);
}

} // verus!
