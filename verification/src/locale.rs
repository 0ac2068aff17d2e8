//! Locales: canonical Unicode language identifiers.

use vstd::prelude::*;

verus! {

/// The canonical form of a language identifier, as `unic_langid` writes it,
/// or `None` where `text` is no well-formed language identifier.
pub uninterp spec fn canonical_tag(text: Seq<char>) -> Option<Seq<char>>;

/// `unic_langid::canonicalize`: parses `text` as a language identifier and
/// writes the identifier out again, with the casing and the separators of the
/// canonical form. Fails where `text` is no language identifier.
#[verifier::external_body]
fn canonicalize(text: &str) -> (tag: Option<String>)
    ensures
        tag is Some == canonical_tag(text@) is Some,
        tag matches Some(t) ==> canonical_tag(text@) == Some(t@),
{
    match unic_langid::canonicalize(text) {
        Ok(tag) => Some(tag),
        Err(_) => None,
    }
}

/// A language identifier in canonical form, such as `en-US` or `pl`.
#[derive(Debug)]
pub struct Locale {
    tag: String,
}

impl View for Locale {
    type V = Seq<char>;

    closed spec fn view(&self) -> Seq<char> {
        self.tag@
    }
}

impl Locale {
    /// The tag is a language identifier, and it is its own canonical form.
    #[verifier::type_invariant]
    spec fn canonical(&self) -> bool {
        canonical_tag(self.tag@) == Some(self.tag@)
    }

    /// Reads a language identifier and brings it into canonical form. Fails
    /// where `text` is no language identifier, or where its canonical form
    /// would not read back as itself.
    pub fn parse(text: &str) -> (locale: Option<Locale>)
        ensures
            locale is Some == (canonical_tag(text@) matches Some(tag) && canonical_tag(tag)
                == Some(tag)),
            locale matches Some(l) ==> canonical_tag(text@) == Some(l@),
    {
        match canonicalize(text) {
            Some(tag) => match canonicalize(tag.as_str()) {
                Some(again) => if again == tag {
                    Some(Locale { tag })
                } else {
                    None
                },
                None => None,
            },
            None => None,
        }
    }

    /// The identifier in canonical form.
    pub fn tag(&self) -> (tag: &str)
        ensures
            tag@ == self@,
    {
        self.tag.as_str()
    }
}

impl Clone for Locale {
    fn clone(&self) -> (copy: Self)
        ensures
            copy == *self,
    {
        proof {
            use_type_invariant(self);
        }
        Locale { tag: self.tag.clone() }
    }
}

} // verus!
