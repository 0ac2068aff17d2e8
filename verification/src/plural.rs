//! Plural categories and the CLDR rules that assign them to numbers.

use crate::text::same_text;
use fluent_langneg::{negotiate_languages, NegotiationStrategy};
use intl_pluralrules::{PluralCategory as CldrCategory, PluralRuleType, PluralRules};
use unic_langid::LanguageIdentifier;
use vstd::prelude::*;

verus! {

/// The grammatical buckets into which a language sorts numbers.
#[derive(Clone, Copy, Debug, PartialEq, Eq, Structural)]
pub enum PluralCategory {
    Zero,
    One,
    Two,
    Few,
    Many,
    Other,
}

/// The category that an identifier names, if it names one.
pub open spec fn category_named(name: Seq<char>) -> Option<PluralCategory> {
    if name == "zero"@ {
        Some(PluralCategory::Zero)
    } else if name == "one"@ {
        Some(PluralCategory::One)
    } else if name == "two"@ {
        Some(PluralCategory::Two)
    } else if name == "few"@ {
        Some(PluralCategory::Few)
    } else if name == "many"@ {
        Some(PluralCategory::Many)
    } else if name == "other"@ {
        Some(PluralCategory::Other)
    } else {
        None
    }
}

impl PluralCategory {
    /// Reads a category's name. Any other text names none.
    pub fn from_name(name: &str) -> (category: Option<PluralCategory>)
        ensures
            category == category_named(name@),
    {
        if same_text(name, "zero") {
            Some(PluralCategory::Zero)
        } else if same_text(name, "one") {
            Some(PluralCategory::One)
        } else if same_text(name, "two") {
            Some(PluralCategory::Two)
        } else if same_text(name, "few") {
            Some(PluralCategory::Few)
        } else if same_text(name, "many") {
            Some(PluralCategory::Many)
        } else if same_text(name, "other") {
            Some(PluralCategory::Other)
        } else {
            None
        }
    }
}

/// The locale whose cardinal rules serve `requested`: among the locales that
/// CLDR has cardinal rules for, the one that `fluent_langneg` finds nearest to
/// `requested` under its lookup strategy, or `fallback` where none is near.
/// `None` where either text is no language identifier.
pub uninterp spec fn rules_locale(requested: Seq<char>, fallback: Seq<char>) -> Option<Seq<char>>;

/// `fluent_langneg::negotiate_languages`, with the lookup strategy, for the
/// one locale `requested` among the locales that
/// `intl_pluralrules::PluralRules::get_locales` lists for cardinal rules, and
/// with `fallback` as the default. The result is a function of the two texts
/// alone: the locales and the likely subtags are tables compiled into the
/// crates.
#[verifier::external_body]
pub(crate) fn negotiate_rules(requested: &str, fallback: &str) -> (chosen: Option<String>)
    ensures
        chosen is Some == rules_locale(requested@, fallback@) is Some,
        chosen matches Some(tag) ==> rules_locale(requested@, fallback@) == Some(tag@),
{
    let requested: LanguageIdentifier = requested.parse().ok()?;
    let fallback: LanguageIdentifier = fallback.parse().ok()?;
    let available = PluralRules::get_locales(PluralRuleType::CARDINAL);
    let strategy = NegotiationStrategy::Lookup;
    let chosen = negotiate_languages(&[requested], &available, Some(&fallback), strategy);
    chosen.first().map(|locale| locale.to_string())
}

/// The category that the CLDR cardinal rules of the language `locale` give
/// to the number written as `literal`. `None` where `locale` is no language
/// identifier, where CLDR has no cardinal rules under exactly that
/// identifier, or where `literal` cannot be read as plural operands.
pub uninterp spec fn cardinal_category(locale: Seq<char>, literal: Seq<char>) -> Option<
    PluralCategory,
>;

/// `intl_pluralrules::PluralRules::select`, on the cardinal rules that
/// `PluralRules::create` finds for `locale`. The result is a function of the
/// two texts alone: the rules are tables compiled into the crate.
#[verifier::external_body]
pub(crate) fn select_category(locale: &str, literal: &str) -> (category: Option<PluralCategory>)
    ensures
        category == cardinal_category(locale@, literal@),
{
    let langid: LanguageIdentifier = locale.parse().ok()?;
    let rules = PluralRules::create(langid, PluralRuleType::CARDINAL).ok()?;
    match rules.select(literal).ok()? {
        CldrCategory::ZERO => Some(PluralCategory::Zero),
        CldrCategory::ONE => Some(PluralCategory::One),
        CldrCategory::TWO => Some(PluralCategory::Two),
        CldrCategory::FEW => Some(PluralCategory::Few),
        CldrCategory::MANY => Some(PluralCategory::Many),
        CldrCategory::OTHER => Some(PluralCategory::Other),
    }
}

/// The plural category of the number written as `literal` for a reader of
/// `locale`: the category under the cardinal rules of the locale nearest to
/// `locale` that has such rules, and under those of English where none is
/// near. `None` where `locale` is no language identifier or `literal` cannot
/// be read as plural operands.
pub open spec fn plural_category(locale: Seq<char>, literal: Seq<char>) -> Option<PluralCategory> {
    match rules_locale(locale, "en"@) {
        Some(tag) => cardinal_category(tag, literal),
        None => None,
    }
}

/// The plural category of the number written as `literal` for a reader of
/// `locale`.
pub fn categorize(locale: &str, literal: &str) -> (category: Option<PluralCategory>)
    ensures
        category == plural_category(locale@, literal@),
{
    match negotiate_rules(locale, "en") {
        Some(tag) => select_category(tag.as_str(), literal),
        None => None,
    }
}

} // verus!
