//! Locale tags and the mapping from a requested locale to the canonical
//! bundle-set name used by the catalog.

use vstd::prelude::*;
use vstd::string::StringExecFns;

verus! {

/// A parsed locale: a language subtag plus an optional region subtag.
///
/// Both subtags are stored in the normalized form produced by the locale
/// parser (lower-case language, upper-case region).
pub struct LocaleTag {
    pub lang: String,
    pub region: Option<String>,
}

impl View for LocaleTag {
    type V = (Seq<char>, Option<Seq<char>>);

    open spec fn view(&self) -> Self::V {
        (
            self.lang@,
            match self.region {
                Some(r) => Some(r@),
                None => None,
            },
        )
    }
}

impl DeepView for LocaleTag {
    type V = (Seq<char>, Option<Seq<char>>);

    open spec fn deep_view(&self) -> Self::V {
        self.view()
    }
}

impl Clone for LocaleTag {
    fn clone(&self) -> (r: Self)
        ensures
            r@ == self@,
    {
        LocaleTag { lang: self.lang.clone(), region: self.region.clone() }
    }
}

impl LocaleTag {
    /// Builds a tag directly from its two subtags.
    pub fn new(lang: String, region: Option<String>) -> (r: LocaleTag)
        ensures
            r.lang == lang,
            r.region == region,
    {
        LocaleTag { lang, region }
    }

    /// Parses a user-supplied locale code such as `"pt-BR"` or `"ja_JP"`.
    /// Returns `None` when the code is not a well-formed locale.
    pub fn from_code(code: &str) -> (r: Option<LocaleTag>)
        ensures
            r.is_some() == spec_parse_locale(code@) is Some,
            r matches Some(t) ==> spec_parse_locale(code@) == Some(t@),
    {
        parse_locale_code(code)
    }

    /// The display form of the tag: the language subtag, then `-` and the
    /// region subtag when a region is present.
    pub fn to_code(&self) -> (r: String)
        ensures
            r@ == spec_tag_code(self@),
    {
        let mut out = String::new();
        out.append(self.lang.as_str());
        match &self.region {
            Some(reg) => {
                out.append("-");
                out.append(reg.as_str());
            },
            None => {},
        }
        out
    }
}

/// The display form of a locale tag.
pub open spec fn spec_tag_code(t: (Seq<char>, Option<Seq<char>>)) -> Seq<char> {
    match t.1 {
        Some(r) => t.0 + "-"@ + r,
        None => t.0,
    }
}

/// What the locale parser yields for a given code: the normalized language
/// subtag and optional region subtag, or `None` for a malformed code.
pub uninterp spec fn spec_parse_locale(code: Seq<char>) -> Option<(Seq<char>, Option<Seq<char>>)>;

#[verifier::external_type_specification]
#[verifier::external_body]
pub struct ExLanguageIdentifier(unic_langid::LanguageIdentifier);

/// Relies on unic_langid's `LanguageIdentifier` parser and its `Default`
/// (the root identifier): total — a malformed code yields the root
/// identifier instead of failing. Nothing is claimed of the result; it
/// only scopes a bundle's plural rules.
#[verifier::external_body]
pub(crate) fn parse_lang_id(code: &str) -> unic_langid::LanguageIdentifier {
    code.parse().unwrap_or_default()
}

/// Relies on unic_langid's `LanguageIdentifier` parser (`str::parse`): the
/// normalized language and region subtags are functions of the input string
/// alone, and parsing fails exactly on malformed codes.
#[verifier::external_body]
pub(crate) fn parse_locale_code(code: &str) -> (r: Option<LocaleTag>)
    ensures
        r.is_some() == spec_parse_locale(code@) is Some,
        r matches Some(t) ==> spec_parse_locale(code@) == Some(t@),
{
    match code.parse::<unic_langid::LanguageIdentifier>() {
        Ok(id) => Some(LocaleTag {
            lang: id.language.as_str().to_string(),
            region: id.region.map(|r| r.as_str().to_string()),
        }),
        Err(_) => None,
    }
}

/// String equality, usable where the compared texts are not both `String`s.
pub fn str_eq(a: &str, b: &str) -> (r: bool)
    ensures
        r == (a@ == b@),
{
    let sa = String::from_str(a);
    let sb = String::from_str(b);
    sa == sb
}

/// The canonical bundle-set name for a requested locale, as a function of
/// the language and region subtags.
pub open spec fn spec_remapped_lang_name(lang: Seq<char>, region: Option<Seq<char>>) -> Seq<
    char,
> {
    if lang == "en"@ {
        if region == Some("GB"@) || region == Some("AU"@) {
            "en-GB"@
        } else {
            "templates"@
        }
    } else if lang == "zh"@ {
        if region == Some("TW"@) || region == Some("HK"@) {
            "zh-TW"@
        } else {
            "zh-CN"@
        }
    } else if lang == "pt"@ {
        if region == Some("PT"@) {
            "pt-PT"@
        } else {
            "pt-BR"@
        }
    } else if lang == "ga"@ {
        "ga-IE"@
    } else if lang == "hy"@ {
        "hy-AM"@
    } else if lang == "nb"@ {
        "nb-NO"@
    } else if lang == "sv"@ {
        "sv-SE"@
    } else {
        lang
    }
}

/// Maps a locale tag to the canonical bundle-set name used by the catalog.
///
/// English outside Great Britain and Australia goes straight to the
/// reference template set; Chinese is consolidated into a Traditional and a
/// Simplified set; Portuguese into a European and a Brazilian set; a few
/// languages shipped with exactly one regional variant are remapped to that
/// variant; every other language passes through unchanged.
pub fn remapped_lang_name<'a>(tag: &'a LocaleTag) -> (r: &'a str)
    ensures
        r@ == spec_remapped_lang_name(tag.lang@, tag@.1),
{
    if str_eq(tag.lang.as_str(), "en") {
        match &tag.region {
            Some(reg) => if str_eq(reg.as_str(), "GB") || str_eq(reg.as_str(), "AU") {
                "en-GB"
            } else {
                "templates"
            },
            None => "templates",
        }
    } else if str_eq(tag.lang.as_str(), "zh") {
        match &tag.region {
            Some(reg) => if str_eq(reg.as_str(), "TW") || str_eq(reg.as_str(), "HK") {
                "zh-TW"
            } else {
                "zh-CN"
            },
            None => "zh-CN",
        }
    } else if str_eq(tag.lang.as_str(), "pt") {
        match &tag.region {
            Some(reg) => if str_eq(reg.as_str(), "PT") {
                "pt-PT"
            } else {
                "pt-BR"
            },
            None => "pt-BR",
        }
    } else if str_eq(tag.lang.as_str(), "ga") {
        "ga-IE"
    } else if str_eq(tag.lang.as_str(), "hy") {
        "hy-AM"
    } else if str_eq(tag.lang.as_str(), "nb") {
        "nb-NO"
    } else if str_eq(tag.lang.as_str(), "sv") {
        "sv-SE"
    } else {
        self_lang(tag)
    }
}

/// The language subtag itself, for languages that keep their own name.
fn self_lang<'a>(tag: &'a LocaleTag) -> (r: &'a str)
    ensures
        r@ == tag.lang@,
{
    tag.lang.as_str()
}

} // verus!
