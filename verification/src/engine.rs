//! The translation engine: parses and filters the user's locale
//! preferences, builds one bundle per resolved locale plus the mandatory
//! terminal reference-language bundle, and serves key lookups across that
//! chain.

use vstd::prelude::*;
use vstd::string::StringExecFns;
use crate::bundle::ArgValue;
use crate::bundle::ConcurrentBundle;
use crate::bundle::TrArgs;
use crate::bundle::format_in_bundle;
use crate::bundle::get_bundle_with_extra;
use crate::bundle::new_fluent_args;
use crate::bundle::set_bundle_formatter;
use crate::bundle::set_fluent_arg;
use crate::bundle::spec_args_model;
use crate::bundle::spec_args_of_pairs;
use crate::bundle::spec_built_usable;
use crate::bundle::spec_bundle_comma;
use crate::bundle::spec_bundle_format;
use crate::bundle::spec_bundle_isolating;
use crate::bundle::spec_bundle_ok;
use crate::bundle::spec_bundle_usable;
use crate::catalog::Catalog;
use crate::catalog::Overrides;
use crate::catalog::ftl_localized_text;
use crate::catalog::get_key_legacy;
use crate::catalog::spec_catalog_text;
use crate::catalog::spec_get_key;
use crate::catalog::spec_override_text;
use crate::locale::LocaleTag;
use crate::locale::parse_locale_code;
use crate::locale::spec_parse_locale;
use crate::locale::spec_remapped_lang_name;
use crate::locale::spec_tag_code;
use crate::locale::str_eq;
use crate::numbers::spec_want_comma;
use crate::numbers::want_comma_as_decimal_separator;

verus! {

/// The effective preference list: each code that parses contributes its
/// tag, in order, and the list is cut immediately after the first
/// reference-language ("en") entry, whose template set covers every key.
pub open spec fn spec_effective_tags(codes: Seq<Seq<char>>) -> Seq<
    (Seq<char>, Option<Seq<char>>),
>
    decreases codes.len(),
{
    if codes.len() == 0 {
        Seq::empty()
    } else {
        match spec_parse_locale(codes.first()) {
            Some(t) => if t.0 == "en"@ {
                seq![t]
            } else {
                seq![t] + spec_effective_tags(codes.drop_first())
            },
            None => spec_effective_tags(codes.drop_first()),
        }
    }
}

/// Whether a tag contributes a bundle: its bundle-set name must be in the
/// catalog, and the catalog text must build cleanly.
pub open spec fn spec_tag_resolves(
    catalog: Seq<(Seq<char>, Seq<(Seq<char>, Seq<char>)>)>,
    t: (Seq<char>, Option<Seq<char>>),
) -> bool {
    match spec_catalog_text(catalog, spec_remapped_lang_name(t.0, t.1)) {
        Some(text) => spec_bundle_ok(text),
        None => false,
    }
}

/// The tags, in order, that contribute a bundle to the chain.
pub open spec fn spec_resolved_tags(
    catalog: Seq<(Seq<char>, Seq<(Seq<char>, Seq<char>)>)>,
    tags: Seq<(Seq<char>, Option<Seq<char>>)>,
) -> Seq<(Seq<char>, Option<Seq<char>>)>
    decreases tags.len(),
{
    if tags.len() == 0 {
        Seq::empty()
    } else {
        (if spec_tag_resolves(catalog, tags.first()) {
            seq![tags.first()]
        } else {
            Seq::empty()
        }) + spec_resolved_tags(catalog, tags.drop_first())
    }
}

/// The view of the terminal reference-language tag.
pub open spec fn spec_reference_tag() -> (Seq<char>, Option<Seq<char>>) {
    ("en"@, Some("US"@))
}

/// The catalog text of the reference template set, whose successful build
/// is the one fatal initialization requirement.
pub open spec fn spec_template_ok(catalog: Seq<(Seq<char>, Seq<(Seq<char>, Seq<char>)>)>) -> bool {
    match spec_catalog_text(catalog, "templates"@) {
        Some(text) => spec_bundle_ok(text),
        None => false,
    }
}

proof fn lemma_effective_take_step(codes: Seq<Seq<char>>, i: int)
    requires
        0 <= i < codes.len(),
        forall|j: int|
            0 <= j < spec_effective_tags(codes.take(i)).len() ==> spec_effective_tags(
                codes.take(i),
            )[j].0 != "en"@,
    ensures
        spec_effective_tags(codes.take(i + 1)) == (match spec_parse_locale(codes[i]) {
            Some(t) => spec_effective_tags(codes.take(i)).push(t),
            None => spec_effective_tags(codes.take(i)),
        }),
    decreases i,
{
    let empty_tags: Seq<(Seq<char>, Option<Seq<char>>)> = Seq::empty();
    let empty_codes: Seq<Seq<char>> = Seq::empty();
    assert(spec_effective_tags(empty_codes) == empty_tags);
    if i == 0 {
        let one = codes.take(1);
        assert(one.len() == 1);
        assert(one.first() == codes[0]);
        assert(one.drop_first() =~= empty_codes);
        assert(codes.take(0) =~= empty_codes);
        match spec_parse_locale(codes[0]) {
            Some(t) => {
                if t.0 == "en"@ {
                    assert(spec_effective_tags(one) == seq![t]);
                } else {
                    assert(spec_effective_tags(one) == seq![t] + spec_effective_tags(
                        one.drop_first(),
                    ));
                }
                assert(spec_effective_tags(one) =~= spec_effective_tags(codes.take(0)).push(t));
            },
            None => {
                assert(spec_effective_tags(one) == spec_effective_tags(one.drop_first()));
                assert(spec_effective_tags(one) =~= spec_effective_tags(codes.take(0)));
            },
        }
    } else {
        let pre = codes.take(i);
        let post = codes.take(i + 1);
        let rest = codes.drop_first();
        assert(pre.len() == i);
        assert(pre.first() == codes[0]);
        assert(post.first() == codes[0]);
        assert(pre.drop_first() =~= rest.take(i - 1));
        assert(post.drop_first() =~= rest.take(i));
        assert(rest[i - 1] == codes[i]);
        let pre_rest = spec_effective_tags(rest.take(i - 1));
        match spec_parse_locale(codes[0]) {
            Some(t0) => {
                if t0.0 == "en"@ {
                    assert(spec_effective_tags(pre) == seq![t0]);
                    assert(spec_effective_tags(pre)[0].0 == "en"@);
                    assert(false);
                }
                assert(spec_effective_tags(pre) == seq![t0] + pre_rest);
                assert(spec_effective_tags(post) == seq![t0] + spec_effective_tags(
                    rest.take(i),
                ));
                assert forall|j: int| 0 <= j < pre_rest.len() implies pre_rest[j].0 != "en"@ by {
                    assert(spec_effective_tags(pre)[j + 1] == pre_rest[j]);
                }
                lemma_effective_take_step(rest, i - 1);
                match spec_parse_locale(codes[i]) {
                    Some(t) => {
                        assert(spec_effective_tags(rest.take(i)) == pre_rest.push(t));
                        assert(spec_effective_tags(post) =~= spec_effective_tags(pre).push(t));
                    },
                    None => {
                        assert(spec_effective_tags(post) =~= spec_effective_tags(pre));
                    },
                }
            },
            None => {
                assert(spec_effective_tags(pre) == pre_rest);
                assert(spec_effective_tags(post) == spec_effective_tags(rest.take(i)));
                lemma_effective_take_step(rest, i - 1);
                match spec_parse_locale(codes[i]) {
                    Some(t) => {
                        assert(spec_effective_tags(post) =~= spec_effective_tags(pre).push(t));
                    },
                    None => {
                        assert(spec_effective_tags(post) =~= spec_effective_tags(pre));
                    },
                }
            },
        }
    }
}

/// Once a preference parses to the reference language, everything after
/// it is ignored: the effective list of the whole code list is already
/// complete right after that entry.
pub proof fn lemma_reference_truncates(codes: Seq<Seq<char>>, i: int)
    requires
        0 <= i < codes.len(),
        spec_parse_locale(codes[i]) matches Some(t) && t.0 == "en"@,
    ensures
        spec_effective_tags(codes) == spec_effective_tags(codes.take(i + 1)),
    decreases i,
{
    let post = codes.take(i + 1);
    assert(post.first() == codes[0]);
    match spec_parse_locale(codes[0]) {
        Some(t0) => {
            if t0.0 == "en"@ {
                assert(spec_effective_tags(codes) == seq![t0]);
                assert(spec_effective_tags(post) == seq![t0]);
            } else {
                assert(i > 0);
                assert(post.drop_first() =~= codes.drop_first().take(i));
                assert(codes.drop_first()[i - 1] == codes[i]);
                lemma_reference_truncates(codes.drop_first(), i - 1);
                assert(spec_effective_tags(codes) == seq![t0] + spec_effective_tags(
                    codes.drop_first(),
                ));
                assert(spec_effective_tags(post) == seq![t0] + spec_effective_tags(
                    post.drop_first(),
                ));
            }
        },
        None => {
            assert(i > 0);
            assert(post.drop_first() =~= codes.drop_first().take(i));
            assert(codes.drop_first()[i - 1] == codes[i]);
            lemma_reference_truncates(codes.drop_first(), i - 1);
        },
    }
}

proof fn lemma_resolved_push(
    catalog: Seq<(Seq<char>, Seq<(Seq<char>, Seq<char>)>)>,
    tags: Seq<(Seq<char>, Option<Seq<char>>)>,
    t: (Seq<char>, Option<Seq<char>>),
)
    ensures
        spec_resolved_tags(catalog, tags.push(t)) == (if spec_tag_resolves(catalog, t) {
            spec_resolved_tags(catalog, tags).push(t)
        } else {
            spec_resolved_tags(catalog, tags)
        }),
    decreases tags.len(),
{
    let empty_tags: Seq<(Seq<char>, Option<Seq<char>>)> = Seq::empty();
    assert(spec_resolved_tags(catalog, empty_tags) == empty_tags);
    if tags.len() == 0 {
        assert(tags.push(t).first() == t);
        assert(tags.push(t).drop_first() =~= empty_tags);
        assert(spec_resolved_tags(catalog, tags.push(t)) == (if spec_tag_resolves(
            catalog,
            t,
        ) {
            seq![t]
        } else {
            empty_tags
        }) + spec_resolved_tags(catalog, empty_tags));
        assert(tags =~= empty_tags);
        if spec_tag_resolves(catalog, t) {
            assert(spec_resolved_tags(catalog, tags.push(t)) =~= spec_resolved_tags(
                catalog,
                tags,
            ).push(t));
        } else {
            assert(spec_resolved_tags(catalog, tags.push(t)) =~= spec_resolved_tags(
                catalog,
                tags,
            ));
        }
    } else {
        assert(tags.push(t).first() == tags.first());
        assert(tags.push(t).drop_first() =~= tags.drop_first().push(t));
        lemma_resolved_push(catalog, tags.drop_first(), t);
        if spec_tag_resolves(catalog, t) {
            assert(spec_resolved_tags(catalog, tags.push(t)) =~= spec_resolved_tags(
                catalog,
                tags,
            ).push(t));
        } else {
            assert(spec_resolved_tags(catalog, tags.push(t)) =~= spec_resolved_tags(
                catalog,
                tags,
            ));
        }
    }
}

/// The index of the first bundle in the chain with a usable pattern for
/// `key`, if any.
pub open spec fn spec_first_usable(bs: Seq<ConcurrentBundle>, key: Seq<char>) -> Option<int>
    decreases bs.len(),
{
    if bs.len() == 0 {
        None
    } else if spec_bundle_usable(bs.first(), key) {
        Some(0int)
    } else {
        match spec_first_usable(bs.drop_first(), key) {
            Some(i) => Some(i + 1),
            None => None,
        }
    }
}

proof fn lemma_first_usable_found(bs: Seq<ConcurrentBundle>, key: Seq<char>, i: int)
    requires
        0 <= i < bs.len(),
        spec_bundle_usable(bs[i], key),
        forall|j: int| 0 <= j < i ==> !spec_bundle_usable(bs[j], key),
    ensures
        spec_first_usable(bs, key) == Some(i),
    decreases i,
{
    if i == 0 {
    } else {
        lemma_first_usable_found(bs.drop_first(), key, i - 1);
    }
}

proof fn lemma_first_usable_push(bs: Seq<ConcurrentBundle>, b: ConcurrentBundle, key: Seq<char>)
    requires
        spec_first_usable(bs, key) is None,
        !spec_bundle_usable(b, key),
    ensures
        spec_first_usable(bs.push(b), key) is None,
    decreases bs.len(),
{
    if bs.len() == 0 {
        assert(bs.push(b).first() == b);
        assert(bs.push(b).drop_first() =~= Seq::<ConcurrentBundle>::empty());
        assert(spec_first_usable(Seq::<ConcurrentBundle>::empty(), key) is None);
        assert(spec_first_usable(bs.push(b), key) == spec_first_usable(
            bs.push(b).drop_first(),
            key,
        ));
    } else {
        assert(bs.push(b).first() == bs.first());
        assert(bs.push(b).drop_first() =~= bs.drop_first().push(b));
        lemma_first_usable_push(bs.drop_first(), b, key);
    }
}

proof fn lemma_first_usable_none_all(bs: Seq<ConcurrentBundle>, key: Seq<char>)
    requires
        spec_first_usable(bs, key) is None,
    ensures
        forall|j: int| 0 <= j < bs.len() ==> !spec_bundle_usable(bs[j], key),
    decreases bs.len(),
{
    if bs.len() > 0 {
        lemma_first_usable_none_all(bs.drop_first(), key);
        assert forall|j: int| 0 <= j < bs.len() implies !spec_bundle_usable(bs[j], key) by {
            if j > 0 {
                assert(bs.drop_first()[j - 1] == bs[j]);
            }
        }
    }
}

/// The argument-map view of an optional argument list.
pub open spec fn spec_args_view(args: Option<&TrArgs>) -> Option<
    Map<Seq<char>, (bool, Seq<char>)>,
> {
    match args {
        Some(a) => Some(spec_args_of_pairs(a.pairs@)),
        None => None,
    }
}

/// The ordered language codes and raw resource texts of one engine, for a
/// secondary consumer that builds its own bundle chain.
pub struct ResourcesForJavascript {
    pub langs: Vec<String>,
    pub resources: Vec<String>,
}

/// The state shared by every handle of one engine.
struct I18nInner {
    bundles: Vec<ConcurrentBundle>,
    langs: Vec<LocaleTag>,
    resource_text: Vec<String>,
    keys_by_module: Vec<Vec<String>>,
    comma: bool,
}

/// The translation engine: an immutable fallback chain of bundles in
/// preference order, with template English as the last entry, the raw
/// resource text per entry, the legacy key table, and the chain-global
/// separator choice. The state is reference-counted: cloning a handle
/// shares the one immutable chain rather than duplicating it, so every
/// clone observes the same state and the same invariants.
#[derive(Clone)]
pub struct I18n {
    inner: std::sync::Arc<I18nInner>,
}

impl I18n {
    /// The resolved chain tags, in lookup order.
    pub closed spec fn spec_langs(&self) -> Seq<(Seq<char>, Option<Seq<char>>)> {
        self.inner.langs.deep_view()
    }

    /// The chain's bundles, in lookup order.
    pub closed spec fn spec_bundles(&self) -> Seq<ConcurrentBundle> {
        self.inner.bundles@
    }

    /// The raw resource text retained per chain entry.
    pub closed spec fn spec_resources(&self) -> Seq<Seq<char>> {
        self.inner.resource_text.deep_view()
    }

    /// The legacy numeric-key table.
    pub closed spec fn spec_keys(&self) -> Seq<Seq<Seq<char>>> {
        self.inner.keys_by_module.deep_view()
    }

    /// The chain-global separator choice.
    pub closed spec fn spec_comma(&self) -> bool {
        self.inner.comma
    }

    /// The engine's invariant: one bundle and one resource text per chain
    /// entry, at least the terminal entry, the terminal entry is the
    /// reference language, and every bundle carries the one chain-global
    /// separator choice.
    pub open spec fn wf(&self) -> bool {
        &&& self.spec_bundles().len() == self.spec_langs().len()
        &&& self.spec_resources().len() == self.spec_langs().len()
        &&& self.spec_langs().len() >= 1
        &&& self.spec_langs().last() == spec_reference_tag()
        &&& forall|i: int|
            0 <= i < self.spec_bundles().len() ==> spec_bundle_comma(self.spec_bundles()[i])
                == self.spec_comma()
    }

    /// Builds an engine with an explicit isolation-marking choice.
    ///
    /// Each preference code is parsed (unparseable codes are dropped), the
    /// list is cut after the first reference-language entry, each
    /// surviving tag with catalog text that builds cleanly contributes one
    /// bundle, and the terminal reference bundle is appended. Failure to
    /// build the terminal bundle is the one fatal outcome (`None`). The
    /// separator policy is chosen once, from the tags that produced
    /// bundles, and attached to every bundle of the chain.
    pub fn with_isolation(
        locale_codes: &Vec<String>,
        catalog: Catalog,
        overrides: &Overrides,
        use_isolating: bool,
    ) -> (r: Option<I18n>)
        ensures
            r.is_some() == spec_template_ok(catalog.sets.deep_view()),
            r matches Some(e) ==> {
                let cat = catalog.sets.deep_view();
                let resolved = spec_resolved_tags(
                    cat,
                    spec_effective_tags(locale_codes.deep_view()),
                );
                &&& e.wf()
                &&& e.spec_langs() == resolved.push(spec_reference_tag())
                &&& e.spec_comma() == spec_want_comma(resolved)
                &&& e.spec_keys() == catalog.keys_by_module.deep_view()
                &&& forall|i: int|
                    0 <= i < e.spec_bundles().len() ==> spec_bundle_isolating(
                        e.spec_bundles()[i],
                    ) == use_isolating
                &&& forall|i: int|
                    0 <= i < e.spec_langs().len() ==> spec_catalog_text(
                        cat,
                        spec_remapped_lang_name(e.spec_langs()[i].0, e.spec_langs()[i].1),
                    ) == Some(e.spec_resources()[i])
                &&& forall|i: int, k: Seq<char>|
                    0 <= i < e.spec_bundles().len() ==> spec_bundle_usable(
                        e.spec_bundles()[i],
                        k,
                    ) == spec_built_usable(
                        e.spec_resources()[i],
                        spec_override_text(
                            overrides.entries.deep_view(),
                            if i == e.spec_langs().len() - 1 {
                                None
                            } else {
                                Some(e.spec_langs()[i].0)
                            },
                        ),
                        k,
                    )
            },
    {
        let ghost codes = locale_codes.deep_view();
        let ghost cat = catalog.sets.deep_view();
        let ghost ov = overrides.entries.deep_view();

        // parse the preferences; stop right after a reference-language entry
        let mut input_tags: Vec<LocaleTag> = Vec::new();
        let mut idx: usize = 0;
        let mut stopped = false;
        while idx < locale_codes.len() && !stopped
            invariant
                idx <= codes.len(),
                codes == locale_codes.deep_view(),
                codes.len() == locale_codes@.len(),
                forall|j: int| 0 <= j < codes.len() ==> codes[j] == locale_codes@[j]@,
                forall|j: int|
                    0 <= j < input_tags@.len() ==> input_tags.deep_view()[j]
                        == input_tags@[j]@,
                input_tags.deep_view().len() == input_tags@.len(),
                !stopped ==> input_tags.deep_view() == spec_effective_tags(
                    codes.take(idx as int),
                ),
                !stopped ==> forall|j: int|
                    0 <= j < input_tags.deep_view().len() ==> input_tags.deep_view()[j].0
                        != "en"@,
                stopped ==> input_tags.deep_view() == spec_effective_tags(codes),
            decreases codes.len() - idx,
        {
            let parsed = parse_locale_code(locale_codes[idx].as_str());
            match parsed {
                Some(tag) => {
                    let is_en = str_eq(tag.lang.as_str(), "en");
                    let ghost tv = tag@;
                    input_tags.push(tag);
                    proof {
                        lemma_effective_take_step(codes, idx as int);
                        assert(input_tags.deep_view() =~= spec_effective_tags(
                            codes.take(idx as int),
                        ).push(tv));
                    }
                    if is_en {
                        stopped = true;
                        proof {
                            lemma_reference_truncates(codes, idx as int);
                            assert(spec_effective_tags(codes) == spec_effective_tags(
                                codes.take(idx + 1),
                            ));
                        }
                    }
                },
                None => {
                    proof {
                        lemma_effective_take_step(codes, idx as int);
                        assert(input_tags.deep_view() =~= spec_effective_tags(
                            codes.take(idx + 1),
                        ));
                    }
                },
            }
            idx = idx + 1;
        }
        proof {
            if !stopped {
                assert(idx as int == codes.len());
                assert(codes.take(codes.len() as int) =~= codes);
            }
            assert(input_tags.deep_view() == spec_effective_tags(codes));
        }

        // build one bundle per tag whose catalog text builds cleanly
        let mut bundles: Vec<ConcurrentBundle> = Vec::new();
        let mut output_langs: Vec<LocaleTag> = Vec::new();
        let mut resource_text: Vec<String> = Vec::new();
        let ghost eff = input_tags.deep_view();
        let mut t_i: usize = 0;
        while t_i < input_tags.len()
            invariant
                t_i <= input_tags@.len(),
                eff == input_tags.deep_view(),
                eff.len() == input_tags@.len(),
                forall|j: int| 0 <= j < eff.len() ==> eff[j] == input_tags@[j]@,
                output_langs.deep_view() == spec_resolved_tags(cat, eff.take(t_i as int)),
                output_langs.deep_view().len() == output_langs@.len(),
                forall|j: int|
                    0 <= j < output_langs@.len() ==> output_langs.deep_view()[j]
                        == output_langs@[j]@,
                bundles@.len() == output_langs@.len(),
                resource_text@.len() == output_langs@.len(),
                resource_text.deep_view().len() == resource_text@.len(),
                forall|j: int|
                    0 <= j < resource_text@.len() ==> resource_text.deep_view()[j]
                        == resource_text@[j]@,
                cat == catalog.sets.deep_view(),
                ov == overrides.entries.deep_view(),
                forall|i: int|
                    0 <= i < output_langs@.len() ==> spec_catalog_text(
                        cat,
                        spec_remapped_lang_name(
                            output_langs.deep_view()[i].0,
                            output_langs.deep_view()[i].1,
                        ),
                    ) == Some(resource_text.deep_view()[i]),
                forall|i: int|
                    0 <= i < bundles@.len() ==> spec_bundle_comma(bundles@[i]) == false
                        && spec_bundle_isolating(bundles@[i]) == use_isolating,
                forall|i: int, k: Seq<char>|
                    0 <= i < bundles@.len() ==> spec_bundle_usable(bundles@[i], k)
                        == spec_built_usable(
                        resource_text.deep_view()[i],
                        spec_override_text(ov, Some(output_langs.deep_view()[i].0)),
                        k,
                    ),
            decreases input_tags@.len() - t_i,
        {
            let tag = &input_tags[t_i];
            let ghost old_out = output_langs.deep_view();
            let ghost old_res = resource_text.deep_view();
            let ghost old_bun = bundles@;
            let ghost old_len = output_langs@.len() as int;
            match ftl_localized_text(&catalog, tag) {
                Some(text) => {
                    let ghost text_view = text@;
                    match get_bundle_with_extra(
                        text.as_str(),
                        Some(tag),
                        overrides,
                        use_isolating,
                    ) {
                        Some(b) => {
                            resource_text.push(text);
                            bundles.push(b);
                            output_langs.push(tag.clone());
                            proof {
                                assert(output_langs.deep_view() =~= old_out.push(
                                    eff[t_i as int],
                                ));
                                assert(resource_text.deep_view() =~= old_res.push(text_view));
                                assert(output_langs.deep_view() =~= spec_resolved_tags(
                                    cat,
                                    eff.take(t_i as int),
                                ).push(eff[t_i as int]));
                                assert forall|i: int|
                                    0 <= i < output_langs@.len() implies spec_catalog_text(
                                    cat,
                                    spec_remapped_lang_name(
                                        output_langs.deep_view()[i].0,
                                        output_langs.deep_view()[i].1,
                                    ),
                                ) == Some(resource_text.deep_view()[i]) by {
                                    if i < old_len {
                                        assert(output_langs.deep_view()[i] == old_out[i]);
                                        assert(resource_text.deep_view()[i] == old_res[i]);
                                    }
                                }
                                assert forall|i: int, k: Seq<char>|
                                    0 <= i < bundles@.len() implies spec_bundle_usable(
                                    bundles@[i],
                                    k,
                                ) == spec_built_usable(
                                    resource_text.deep_view()[i],
                                    spec_override_text(
                                        ov,
                                        Some(output_langs.deep_view()[i].0),
                                    ),
                                    k,
                                ) by {
                                    if i < old_len {
                                        assert(bundles@[i] == old_bun[i]);
                                        assert(output_langs.deep_view()[i] == old_out[i]);
                                        assert(resource_text.deep_view()[i] == old_res[i]);
                                    } else {
                                        assert(bundles@[i] == b);
                                        assert(resource_text.deep_view()[i] == text_view);
                                        assert(output_langs.deep_view()[i] == eff[
                                            t_i as int
                                        ]);
                                    }
                                }
                            }
                        },
                        None => {},
                    }
                },
                None => {},
            }
            proof {
                lemma_resolved_push(cat, eff.take(t_i as int), eff[t_i as int]);
                assert(eff.take(t_i + 1) =~= eff.take(t_i as int).push(eff[t_i as int]));
            }
            t_i = t_i + 1;
        }
        proof {
            assert(eff.take(eff.len() as int) =~= eff);
        }
        let ghost resolved = spec_resolved_tags(cat, eff);

        // the chain-global separator policy, from the resolved tags alone
        let comma = want_comma_as_decimal_separator(&output_langs);
        assert(comma == spec_want_comma(resolved));
        let ghost pre_out = output_langs.deep_view();
        let ghost pre_res = resource_text.deep_view();
        let ghost pre_bun = bundles@;
        let ghost pre_len = output_langs@.len() as int;

        // the mandatory terminal reference-language entry
        let en_us = LocaleTag {
            lang: String::from_str("en"),
            region: Some(String::from_str("US")),
        };
        proof {
            reveal_strlit("en");
            reveal_strlit("US");
            reveal_strlit("GB");
            reveal_strlit("AU");
            reveal_strlit("templates");
            assert(en_us@ == spec_reference_tag());
            assert("US"@[0] != "GB"@[0]);
            assert("US"@ != "GB"@);
            assert("US"@[0] != "AU"@[0]);
            assert("US"@ != "AU"@);
            assert(spec_remapped_lang_name("en"@, Some("US"@)) == "templates"@);
        }
        let template_text = match ftl_localized_text(&catalog, &en_us) {
            Some(t) => t,
            None => {
                return None;
            },
        };
        let template_bundle = match get_bundle_with_extra(
            template_text.as_str(),
            None,
            overrides,
            use_isolating,
        ) {
            Some(b) => b,
            None => {
                return None;
            },
        };
        let ghost ttext_view = template_text@;
        let ghost tb = template_bundle;
        resource_text.push(template_text);
        bundles.push(template_bundle);
        output_langs.push(en_us);
        proof {
            assert(output_langs.deep_view() =~= pre_out.push(spec_reference_tag()));
            assert(resource_text.deep_view() =~= pre_res.push(ttext_view));
            assert(output_langs.deep_view() =~= resolved.push(spec_reference_tag()));
        }

        // attach the one separator choice to every bundle of the chain
        let ghost built = bundles@;
        let mut formatted: Vec<ConcurrentBundle> = Vec::new();
        let mut rest = bundles;
        while rest.len() > 0
            invariant
                formatted@.len() + rest@.len() == built.len(),
                forall|j: int|
                    0 <= j < rest@.len() ==> rest@[j] == built[formatted@.len() + j],
                forall|i: int|
                    0 <= i < formatted@.len() ==> spec_bundle_comma(formatted@[i]) == comma,
                forall|i: int|
                    0 <= i < formatted@.len() ==> spec_bundle_isolating(formatted@[i])
                        == spec_bundle_isolating(built[i]),
                forall|i: int, k: Seq<char>|
                    0 <= i < formatted@.len() ==> spec_bundle_usable(formatted@[i], k)
                        == spec_bundle_usable(built[i], k),
            decreases rest@.len(),
        {
            let mut b = rest.remove(0);
            set_bundle_formatter(&mut b, comma);
            formatted.push(b);
        }

        let engine = I18n {
            inner: std::sync::Arc::new(
                I18nInner {
                    bundles: formatted,
                    langs: output_langs,
                    resource_text,
                    keys_by_module: catalog.keys_by_module,
                    comma,
                },
            ),
        };
        proof {
            assert(engine.spec_langs() =~= resolved.push(spec_reference_tag()));
            assert(engine.spec_comma() == spec_want_comma(resolved));
            assert(engine.spec_bundles().len() == engine.spec_langs().len());
            assert(engine.spec_langs().last() == spec_reference_tag());
            assert forall|i: int|
                0 <= i < engine.spec_bundles().len() implies spec_bundle_comma(
                engine.spec_bundles()[i],
            ) == engine.spec_comma() by {}
            assert(engine.wf());
            assert forall|i: int|
                0 <= i < engine.spec_bundles().len() implies spec_bundle_isolating(
                engine.spec_bundles()[i],
            ) == use_isolating by {
                assert(spec_bundle_isolating(engine.spec_bundles()[i]) == spec_bundle_isolating(
                    built[i],
                ));
                if i < pre_len {
                    assert(built[i] == pre_bun[i]);
                } else {
                    assert(built[i] == tb);
                }
            }
            assert forall|i: int|
                0 <= i < engine.spec_langs().len() implies spec_catalog_text(
                cat,
                spec_remapped_lang_name(engine.spec_langs()[i].0, engine.spec_langs()[i].1),
            ) == Some(engine.spec_resources()[i]) by {
                if i < pre_len {
                    assert(engine.spec_langs()[i] == pre_out[i]);
                    assert(engine.spec_resources()[i] == pre_res[i]);
                } else {
                    assert(engine.spec_langs()[i] == spec_reference_tag());
                    assert(engine.spec_resources()[i] == ttext_view);
                }
            }
            assert forall|i: int, k: Seq<char>|
                0 <= i < engine.spec_bundles().len() implies spec_bundle_usable(
                engine.spec_bundles()[i],
                k,
            ) == spec_built_usable(
                engine.spec_resources()[i],
                spec_override_text(
                    ov,
                    if i == engine.spec_langs().len() - 1 {
                        None
                    } else {
                        Some(engine.spec_langs()[i].0)
                    },
                ),
                k,
            ) by {
                assert(spec_bundle_usable(engine.spec_bundles()[i], k) == spec_bundle_usable(
                    built[i],
                    k,
                ));
                if i < pre_len {
                    assert(built[i] == pre_bun[i]);
                    assert(engine.spec_langs()[i] == pre_out[i]);
                    assert(engine.spec_resources()[i] == pre_res[i]);
                } else {
                    assert(built[i] == tb);
                    assert(engine.spec_resources()[i] == ttext_view);
                }
            }
        }
        Some(engine)
    }

    /// Builds an engine from the user's ordered locale preferences.
    /// Isolation marking is disabled exactly when the preference list is
    /// empty (no explicit locale was requested).
    pub fn new(locale_codes: &Vec<String>, catalog: Catalog, overrides: &Overrides) -> (r: Option<
        I18n,
    >)
        ensures
            r.is_some() == spec_template_ok(catalog.sets.deep_view()),
            r matches Some(e) ==> {
                let cat = catalog.sets.deep_view();
                let resolved = spec_resolved_tags(
                    cat,
                    spec_effective_tags(locale_codes.deep_view()),
                );
                &&& e.wf()
                &&& e.spec_langs() == resolved.push(spec_reference_tag())
                &&& e.spec_comma() == spec_want_comma(resolved)
                &&& e.spec_keys() == catalog.keys_by_module.deep_view()
                &&& forall|i: int|
                    0 <= i < e.spec_bundles().len() ==> spec_bundle_isolating(
                        e.spec_bundles()[i],
                    ) == (locale_codes.deep_view().len() > 0)
                &&& forall|i: int|
                    0 <= i < e.spec_langs().len() ==> spec_catalog_text(
                        cat,
                        spec_remapped_lang_name(e.spec_langs()[i].0, e.spec_langs()[i].1),
                    ) == Some(e.spec_resources()[i])
                &&& forall|i: int, k: Seq<char>|
                    0 <= i < e.spec_bundles().len() ==> spec_bundle_usable(
                        e.spec_bundles()[i],
                        k,
                    ) == spec_built_usable(
                        e.spec_resources()[i],
                        spec_override_text(
                            overrides.entries.deep_view(),
                            if i == e.spec_langs().len() - 1 {
                                None
                            } else {
                                Some(e.spec_langs()[i].0)
                            },
                        ),
                        k,
                    )
            },
    {
        let use_isolating = locale_codes.len() > 0;
        Self::with_isolation(locale_codes, catalog, overrides, use_isolating)
    }

    /// Translates a message key with optional named arguments.
    ///
    /// Walks the chain in construction order and returns the text the
    /// first bundle with a usable pattern for `key` renders; when no
    /// bundle in the whole chain has the key, the literal key string
    /// itself is returned as a visible missing-translation sentinel.
    pub fn tr_(&self, key: &str, args: Option<&TrArgs>) -> (r: String)
        ensures
            match spec_first_usable(self.spec_bundles(), key@) {
                Some(i) => r@ == spec_bundle_format(
                    self.spec_bundles()[i],
                    key@,
                    spec_args_view(args),
                ),
                None => r@ == key@,
            },
    {
        let fargs: Option<fluent_bundle::FluentArgs<'static>> = match args {
            Some(a) => {
                let mut fa = new_fluent_args();
                proof {
                    assert(spec_args_model(fa) =~= spec_args_of_pairs(a.pairs@.take(0)));
                }
                let mut j: usize = 0;
                while j < a.pairs.len()
                    invariant
                        j <= a.pairs@.len(),
                        spec_args_model(fa) == spec_args_of_pairs(a.pairs@.take(j as int)),
                    decreases a.pairs@.len() - j,
                {
                    set_fluent_arg(&mut fa, &a.pairs[j].0, &a.pairs[j].1);
                    proof {
                        assert(a.pairs@.take(j + 1).drop_last() =~= a.pairs@.take(j as int));
                        assert(a.pairs@.take(j + 1).last() == a.pairs@[j as int]);
                    }
                    j = j + 1;
                }
                proof {
                    assert(a.pairs@.take(a.pairs@.len() as int) =~= a.pairs@);
                }
                Some(fa)
            },
            None => None,
        };
        let ghost av = spec_args_view(args);

        let mut i: usize = 0;
        while i < self.inner.bundles.len()
            invariant
                i <= self.inner.bundles@.len(),
                spec_first_usable(self.inner.bundles@.take(i as int), key@) is None,
                av == spec_args_view(args),
                match args {
                    Some(a) => fargs matches Some(fa) && spec_args_model(fa)
                        == spec_args_of_pairs(a.pairs@),
                    None => fargs is None,
                },
            decreases self.inner.bundles@.len() - i,
        {
            match format_in_bundle(&self.inner.bundles[i], key, fargs.as_ref()) {
                Some(out) => {
                    proof {
                        lemma_first_usable_none_all(self.inner.bundles@.take(i as int), key@);
                        assert forall|j: int|
                            0 <= j < i implies !spec_bundle_usable(self.inner.bundles@[j], key@) by {
                            assert(self.inner.bundles@.take(i as int)[j] == self.inner.bundles@[j]);
                        }
                        lemma_first_usable_found(self.inner.bundles@, key@, i as int);
                    }
                    return out;
                },
                None => {},
            }
            proof {
                lemma_first_usable_push(
                    self.inner.bundles@.take(i as int),
                    self.inner.bundles@[i as int],
                    key@,
                );
                assert(self.inner.bundles@.take(i + 1) =~= self.inner.bundles@.take(i as int).push(
                    self.inner.bundles@[i as int],
                ));
            }
            i = i + 1;
        }
        proof {
            assert(self.inner.bundles@.take(self.inner.bundles@.len() as int) =~= self.inner.bundles@);
        }
        String::from_str(key)
    }

    /// Translates a legacy numeric key with zero arguments.
    pub fn tr(&self, key: usize) -> (r: String)
        ensures
            ({
                let k = spec_get_key(
                    self.spec_keys(),
                    (key / 1000) as int,
                    (key % 1000) as int,
                );
                match spec_first_usable(self.spec_bundles(), k) {
                    Some(i) => r@ == spec_bundle_format(self.spec_bundles()[i], k, None),
                    None => r@ == k,
                }
            }),
    {
        let k = get_key_legacy(key, &self.inner.keys_by_module);
        self.tr_(k.as_str(), None)
    }

    /// Translates a legacy numeric key with one or more named arguments.
    pub fn trn(&self, key: usize, args: TrArgs) -> (r: String)
        ensures
            ({
                let k = spec_get_key(
                    self.spec_keys(),
                    (key / 1000) as int,
                    (key % 1000) as int,
                );
                match spec_first_usable(self.spec_bundles(), k) {
                    Some(i) => r@ == spec_bundle_format(
                        self.spec_bundles()[i],
                        k,
                        Some(spec_args_of_pairs(args.pairs@)),
                    ),
                    None => r@ == k,
                }
            }),
    {
        let k = get_key_legacy(key, &self.inner.keys_by_module);
        self.tr_(k.as_str(), Some(&args))
    }

    /// Translates a legacy numeric key given as a plain integer, with one
    /// or more named arguments.
    pub fn trn2(&self, key: usize, args: TrArgs) -> (r: String)
        ensures
            ({
                let k = spec_get_key(
                    self.spec_keys(),
                    (key / 1000) as int,
                    (key % 1000) as int,
                );
                match spec_first_usable(self.spec_bundles(), k) {
                    Some(i) => r@ == spec_bundle_format(
                        self.spec_bundles()[i],
                        k,
                        Some(spec_args_of_pairs(args.pairs@)),
                    ),
                    None => r@ == k,
                }
            }),
    {
        let k = get_key_legacy(key, &self.inner.keys_by_module);
        self.tr_(k.as_str(), Some(&args))
    }

    /// Returns the configured locales' display codes and the raw resource
    /// text per chain entry, for a downstream renderer that re-parses the
    /// same resources independently.
    pub fn resources_for_js(&self) -> (r: ResourcesForJavascript)
        ensures
            r.langs.deep_view() == Seq::new(
                self.spec_langs().len(),
                |i: int| spec_tag_code(self.spec_langs()[i]),
            ),
            r.resources.deep_view() == self.spec_resources(),
    {
        let mut langs: Vec<String> = Vec::new();
        let mut i: usize = 0;
        while i < self.inner.langs.len()
            invariant
                i <= self.inner.langs@.len(),
                self.spec_langs().len() == self.inner.langs@.len(),
                forall|j: int|
                    0 <= j < self.inner.langs@.len() ==> self.spec_langs()[j] == self.inner.langs@[j]@,
                langs.deep_view().len() == i,
                forall|j: int|
                    0 <= j < i ==> langs.deep_view()[j] == spec_tag_code(self.spec_langs()[j]),
            decreases self.inner.langs@.len() - i,
        {
            let ghost prev_langs = langs.deep_view();
            let code = self.inner.langs[i].to_code();
            let ghost cv = code@;
            langs.push(code);
            proof {
                assert(langs.deep_view() =~= prev_langs.push(cv));
            }
            i = i + 1;
        }
        let mut resources: Vec<String> = Vec::new();
        let mut j: usize = 0;
        while j < self.inner.resource_text.len()
            invariant
                j <= self.inner.resource_text@.len(),
                self.spec_resources().len() == self.inner.resource_text@.len(),
                forall|p: int|
                    0 <= p < self.inner.resource_text@.len() ==> self.spec_resources()[p]
                        == self.inner.resource_text@[p]@,
                resources.deep_view().len() == j,
                forall|p: int|
                    0 <= p < j ==> resources.deep_view()[p] == self.spec_resources()[p],
            decreases self.inner.resource_text@.len() - j,
        {
            let ghost prev_res = resources.deep_view();
            let text = self.inner.resource_text[j].clone();
            let ghost tv = text@;
            resources.push(text);
            proof {
                assert(resources.deep_view() =~= prev_res.push(tv));
            }
            j = j + 1;
        }
        let r = ResourcesForJavascript { langs, resources };
        proof {
            assert(r.langs.deep_view() =~= Seq::new(
                self.spec_langs().len(),
                |i: int| spec_tag_code(self.spec_langs()[i]),
            ));
            assert(r.resources.deep_view() =~= self.spec_resources());
        }
        r
    }

    /// Builds an engine from the template set alone, with no preferred
    /// locales: lookups go straight to the reference language.
    pub fn template_only(catalog: Catalog, overrides: &Overrides) -> (r: Option<I18n>)
        ensures
            r.is_some() == spec_template_ok(catalog.sets.deep_view()),
            r matches Some(e) ==> {
                &&& e.wf()
                &&& e.spec_langs() == Seq::empty().push(spec_reference_tag())
                &&& e.spec_comma() == false
                &&& forall|i: int|
                    0 <= i < e.spec_bundles().len() ==> spec_bundle_isolating(
                        e.spec_bundles()[i],
                    ) == false
            },
    {
        let no_codes: Vec<String> = Vec::new();
        let r = Self::new(&no_codes, catalog, overrides);
        proof {
            assert(no_codes.deep_view() =~= Seq::<Seq<char>>::empty());
            assert(spec_effective_tags(Seq::empty()) =~= Seq::<
                (Seq<char>, Option<Seq<char>>),
            >::empty());
            assert(spec_resolved_tags(
                catalog.sets.deep_view(),
                Seq::empty(),
            ) =~= Seq::<(Seq<char>, Option<Seq<char>>)>::empty());
        }
        r
    }
}

} // verus!
