//! Chain-level guarantees of the engine, stated and proved once for every
//! instance: the terminal reference entry, the unreachability of
//! preferences after the reference language, the chain-global separator
//! choice, and the English region remapping.

use vstd::prelude::*;
use crate::bundle::ConcurrentBundle;
use crate::bundle::spec_bundle_comma;
use crate::bundle::spec_bundle_usable;
use crate::engine::I18n;
use crate::engine::lemma_reference_truncates;
use crate::engine::spec_effective_tags;
use crate::engine::spec_first_usable;
use crate::engine::spec_reference_tag;
use crate::locale::spec_parse_locale;
use crate::locale::spec_remapped_lang_name;

verus! {

/// A key that no bundle of the chain can format is missing everywhere, so
/// a lookup reaches no bundle and, by the lookup's own contract, returns
/// the literal key string as its sentinel.
pub proof fn lemma_unknown_key_reaches_no_bundle(bs: Seq<ConcurrentBundle>, key: Seq<char>)
    requires
        forall|i: int| 0 <= i < bs.len() ==> !spec_bundle_usable(bs[i], key),
    ensures
        spec_first_usable(bs, key) is None,
    decreases bs.len(),
{
    if bs.len() > 0 {
        assert(!spec_bundle_usable(bs.first(), key));
        assert forall|i: int|
            0 <= i < bs.drop_first().len() implies !spec_bundle_usable(
            bs.drop_first()[i],
            key,
        ) by {
            assert(bs.drop_first()[i] == bs[i + 1]);
        }
        lemma_unknown_key_reaches_no_bundle(bs.drop_first(), key);
    }
}

/// For every well-formed engine the chain's last entry is the reference
/// language, whatever the preference list held — even nothing at all.
pub proof fn lemma_chain_ends_in_reference(e: &I18n)
    requires
        e.wf(),
    ensures
        e.spec_langs().len() >= 1,
        e.spec_langs().last() == spec_reference_tag(),
{
}

/// Once a preference parses to the reference language, every later
/// preference is unreachable: two code lists that agree up to and
/// including that entry have the same effective list, so they build the
/// same chain from the same catalog.
pub proof fn lemma_later_preferences_unreachable(
    codes1: Seq<Seq<char>>,
    codes2: Seq<Seq<char>>,
    i: int,
)
    requires
        0 <= i < codes1.len(),
        i < codes2.len(),
        codes1.take(i + 1) == codes2.take(i + 1),
        spec_parse_locale(codes1[i]) matches Some(t) && t.0 == "en"@,
    ensures
        spec_effective_tags(codes1) == spec_effective_tags(codes2),
{
    lemma_reference_truncates(codes1, i);
    assert(codes1.take(i + 1)[i] == codes1[i]);
    assert(codes2.take(i + 1)[i] == codes2[i]);
    assert(codes2[i] == codes1[i]);
    lemma_reference_truncates(codes2, i);
}

/// The separator choice is chain-global: any two bundles of one engine's
/// chain carry the same comma-or-period choice, so two keys resolved
/// through the same engine render their numbers alike.
pub proof fn lemma_separator_chain_global(e: &I18n, i: int, j: int)
    requires
        e.wf(),
        0 <= i < e.spec_bundles().len(),
        0 <= j < e.spec_bundles().len(),
    ensures
        spec_bundle_comma(e.spec_bundles()[i]) == spec_bundle_comma(e.spec_bundles()[j]),
{
}

/// Region remapping for English: Great Britain and Australia share one
/// non-template set, while plain English and every other region resolve
/// straight to the reference template set.
pub proof fn lemma_english_region_remapping(region: Option<Seq<char>>)
    ensures
        spec_remapped_lang_name("en"@, Some("GB"@)) == spec_remapped_lang_name(
            "en"@,
            Some("AU"@),
        ),
        spec_remapped_lang_name("en"@, Some("GB"@)) == "en-GB"@,
        spec_remapped_lang_name("en"@, None) == "templates"@,
        (region != Some("GB"@) && region != Some("AU"@)) ==> spec_remapped_lang_name(
            "en"@,
            region,
        ) == "templates"@,
        "en-GB"@ != "templates"@,
{
    reveal_strlit("en-GB");
    reveal_strlit("templates");
    assert("en-GB"@.len() != "templates"@.len());
}

} // verus!
