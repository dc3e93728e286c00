//! The compiled catalog of translation texts, injected into the engine at
//! construction: bundle-set names mapped to ordered module texts, plus the
//! legacy table mapping dense numeric keys to canonical string keys.

use vstd::prelude::*;
use vstd::string::StringExecFns;
use crate::locale::LocaleTag;
use crate::locale::remapped_lang_name;
use crate::locale::spec_remapped_lang_name;
use crate::locale::str_eq;

verus! {

/// One module's translation text within a bundle set.
pub struct Module {
    pub name: String,
    pub text: String,
}

impl View for Module {
    type V = (Seq<char>, Seq<char>);

    open spec fn view(&self) -> Self::V {
        (self.name@, self.text@)
    }
}

impl DeepView for Module {
    type V = (Seq<char>, Seq<char>);

    open spec fn deep_view(&self) -> Self::V {
        self.view()
    }
}

/// One language's bundle set: its canonical name and its module texts, in
/// stable declaration order.
pub struct CatalogSet {
    pub name: String,
    pub modules: Vec<Module>,
}

impl View for CatalogSet {
    type V = (Seq<char>, Seq<(Seq<char>, Seq<char>)>);

    open spec fn view(&self) -> Self::V {
        (self.name@, self.modules.deep_view())
    }
}

impl DeepView for CatalogSet {
    type V = (Seq<char>, Seq<(Seq<char>, Seq<char>)>);

    open spec fn deep_view(&self) -> Self::V {
        self.view()
    }
}

/// The read-only translation catalog: every shipped bundle set, and the
/// legacy numeric-key table (`keys_by_module[module][index]` is the string
/// key of a legacy dense key).
pub struct Catalog {
    pub sets: Vec<CatalogSet>,
    pub keys_by_module: Vec<Vec<String>>,
}

/// One runtime override: resource text applied on top of the catalog text
/// of the bundle whose language subtag matches `lang` (`None` matches the
/// terminal reference-template bundle).
pub struct OverrideEntry {
    pub lang: Option<String>,
    pub text: String,
}

impl View for OverrideEntry {
    type V = (Option<Seq<char>>, Seq<char>);

    open spec fn view(&self) -> Self::V {
        (
            match self.lang {
                Some(l) => Some(l@),
                None => None,
            },
            self.text@,
        )
    }
}

impl DeepView for OverrideEntry {
    type V = (Option<Seq<char>>, Seq<char>);

    open spec fn deep_view(&self) -> Self::V {
        self.view()
    }
}

/// Runtime-supplied override texts, best-effort additions on top of the
/// catalog texts.
pub struct Overrides {
    pub entries: Vec<OverrideEntry>,
}

impl Overrides {
    /// No overrides at all.
    pub fn none() -> (r: Overrides)
        ensures
            r.entries@.len() == 0,
    {
        Overrides { entries: Vec::new() }
    }

    /// The override text for one bundle: the concatenation, in order, of
    /// every entry whose language matches.
    pub fn text_for(&self, lang: Option<&String>) -> (r: String)
        ensures
            r@ == spec_override_text(
                self.entries.deep_view(),
                match lang {
                    Some(l) => Some(l@),
                    None => None::<Seq<char>>,
                },
            ),
    {
        let ghost target: Option<Seq<char>> = match lang {
            Some(l) => Some(l@),
            None => None,
        };
        let mut out = String::new();
        let mut i: usize = 0;
        while i < self.entries.len()
            invariant
                i <= self.entries@.len(),
                self.entries.deep_view().len() == self.entries@.len(),
                forall|j: int|
                    0 <= j < self.entries@.len() ==> self.entries.deep_view()[j]
                        == self.entries@[j]@,
                target == match lang {
                    Some(l) => Some(l@),
                    None => None::<Seq<char>>,
                },
                out@ == spec_override_text(self.entries.deep_view().take(i as int), target),
            decreases self.entries@.len() - i,
        {
            let e = &self.entries[i];
            let hit: bool = match (&e.lang, lang) {
                (Some(a), Some(b)) => str_eq(a.as_str(), b.as_str()),
                (None, None) => true,
                _ => false,
            };
            assert(hit == (e@.0 == target));
            if hit {
                out.append(e.text.as_str());
            }
            proof {
                let dv = self.entries.deep_view();
                lemma_override_text_push(dv.take(i as int), dv[i as int], target);
                assert(dv.take(i + 1) =~= dv.take(i as int).push(dv[i as int]));
                assert(dv[i as int] == e@);
                if hit {
                    assert(out@ =~= spec_override_text(dv.take(i as int), target) + dv[
                        i as int
                    ].1);
                } else {
                    assert(out@ =~= spec_override_text(dv.take(i as int), target)
                        + Seq::<char>::empty());
                }
                assert(out@ =~= spec_override_text(dv.take(i + 1), target));
            }
            i = i + 1;
        }
        proof {
            assert(self.entries.deep_view().take(self.entries@.len() as int)
                =~= self.entries.deep_view());
        }
        out
    }
}

/// The concatenation of every override text whose language matches `lang`.
pub open spec fn spec_override_text(
    entries: Seq<(Option<Seq<char>>, Seq<char>)>,
    lang: Option<Seq<char>>,
) -> Seq<char>
    decreases entries.len(),
{
    if entries.len() == 0 {
        Seq::empty()
    } else {
        (if entries.first().0 == lang {
            entries.first().1
        } else {
            Seq::empty()
        }) + spec_override_text(entries.drop_first(), lang)
    }
}

proof fn lemma_override_text_push(
    entries: Seq<(Option<Seq<char>>, Seq<char>)>,
    e: (Option<Seq<char>>, Seq<char>),
    lang: Option<Seq<char>>,
)
    ensures
        spec_override_text(entries.push(e), lang) == spec_override_text(entries, lang) + (
        if e.0 == lang {
            e.1
        } else {
            Seq::<char>::empty()
        }),
    decreases entries.len(),
{
    if entries.len() == 0 {
        assert(entries.push(e).first() == e);
        assert(entries.push(e).drop_first() =~= Seq::<(Option<Seq<char>>, Seq<char>)>::empty());
        assert(spec_override_text(Seq::<(Option<Seq<char>>, Seq<char>)>::empty(), lang)
            =~= Seq::<char>::empty());
        assert(spec_override_text(entries, lang) =~= Seq::<char>::empty());
        assert(spec_override_text(entries.push(e), lang) =~= (if e.0 == lang {
            e.1
        } else {
            Seq::<char>::empty()
        }));
    } else {
        assert(entries.push(e).first() == entries.first());
        assert(entries.push(e).drop_first() =~= entries.drop_first().push(e));
        lemma_override_text_push(entries.drop_first(), e, lang);
        assert(spec_override_text(entries.push(e), lang) =~= spec_override_text(entries, lang) + (
        if e.0 == lang {
            e.1
        } else {
            Seq::<char>::empty()
        }));
    }
}

/// The concatenation of a set's module texts, in declaration order.
pub open spec fn spec_concat_texts(mods: Seq<(Seq<char>, Seq<char>)>) -> Seq<char>
    decreases mods.len(),
{
    if mods.len() == 0 {
        Seq::empty()
    } else {
        mods.first().1 + spec_concat_texts(mods.drop_first())
    }
}

proof fn lemma_concat_texts_push(mods: Seq<(Seq<char>, Seq<char>)>, m: (Seq<char>, Seq<char>))
    ensures
        spec_concat_texts(mods.push(m)) == spec_concat_texts(mods) + m.1,
    decreases mods.len(),
{
    if mods.len() == 0 {
        assert(mods.push(m).first() == m);
        assert(mods.push(m).drop_first() =~= Seq::<(Seq<char>, Seq<char>)>::empty());
        assert(spec_concat_texts(Seq::<(Seq<char>, Seq<char>)>::empty())
            == Seq::<char>::empty());
        assert(spec_concat_texts(mods.push(m)) == m.1 + Seq::<char>::empty());
        assert(m.1 + Seq::<char>::empty() =~= m.1);
        assert(spec_concat_texts(mods) + m.1 =~= m.1);
    } else {
        assert(mods.push(m).first() == mods.first());
        assert(mods.push(m).drop_first() =~= mods.drop_first().push(m));
        lemma_concat_texts_push(mods.drop_first(), m);
        assert(spec_concat_texts(mods.push(m)) == mods.first().1 + (spec_concat_texts(
            mods.drop_first(),
        ) + m.1));
        assert(mods.first().1 + (spec_concat_texts(mods.drop_first()) + m.1) =~= (mods.first().1
            + spec_concat_texts(mods.drop_first())) + m.1);
    }
}

/// The catalog text for a bundle-set name: the concatenated module texts of
/// the first set with that name, or `None` when the catalog has no such set.
pub open spec fn spec_catalog_text(
    sets: Seq<(Seq<char>, Seq<(Seq<char>, Seq<char>)>)>,
    name: Seq<char>,
) -> Option<Seq<char>>
    decreases sets.len(),
{
    if sets.len() == 0 {
        None
    } else if sets.first().0 == name {
        Some(spec_concat_texts(sets.first().1))
    } else {
        spec_catalog_text(sets.drop_first(), name)
    }
}

proof fn lemma_catalog_text_found(
    sets: Seq<(Seq<char>, Seq<(Seq<char>, Seq<char>)>)>,
    name: Seq<char>,
    i: int,
)
    requires
        0 <= i < sets.len(),
        forall|j: int| 0 <= j < i ==> sets[j].0 != name,
        sets[i].0 == name,
    ensures
        spec_catalog_text(sets, name) == Some(spec_concat_texts(sets[i].1)),
    decreases i,
{
    if i == 0 {
    } else {
        lemma_catalog_text_found(sets.drop_first(), name, i - 1);
    }
}

proof fn lemma_catalog_text_none(
    sets: Seq<(Seq<char>, Seq<(Seq<char>, Seq<char>)>)>,
    name: Seq<char>,
)
    requires
        forall|j: int| 0 <= j < sets.len() ==> sets[j].0 != name,
    ensures
        spec_catalog_text(sets, name) is None,
    decreases sets.len(),
{
    if sets.len() > 0 {
        lemma_catalog_text_none(sets.drop_first(), name);
    }
}

/// Fetches the catalog text for the bundle-set name a locale tag resolves
/// to: the concatenation of that set's module texts, in stable order, or
/// `None` when the catalog knows no such set.
pub fn ftl_localized_text(catalog: &Catalog, tag: &LocaleTag) -> (r: Option<String>)
    ensures
        r.is_some() == spec_catalog_text(
            catalog.sets.deep_view(),
            spec_remapped_lang_name(tag.lang@, tag@.1),
        ) is Some,
        r matches Some(s) ==> spec_catalog_text(
            catalog.sets.deep_view(),
            spec_remapped_lang_name(tag.lang@, tag@.1),
        ) == Some(s@),
{
    let name = remapped_lang_name(tag);
    let mut i: usize = 0;
    while i < catalog.sets.len()
        invariant
            i <= catalog.sets@.len(),
            catalog.sets.deep_view().len() == catalog.sets@.len(),
            forall|j: int|
                0 <= j < catalog.sets@.len() ==> catalog.sets.deep_view()[j]
                    == catalog.sets@[j]@,
            name@ == spec_remapped_lang_name(tag.lang@, tag@.1),
            forall|j: int| 0 <= j < i ==> catalog.sets.deep_view()[j].0 != name@,
        decreases catalog.sets@.len() - i,
    {
        if str_eq(catalog.sets[i].name.as_str(), name) {
            let set = &catalog.sets[i];
            let mut text = String::new();
            let mut j: usize = 0;
            while j < set.modules.len()
                invariant
                    j <= set.modules@.len(),
                    set.modules.deep_view().len() == set.modules@.len(),
                    forall|k: int|
                        0 <= k < set.modules@.len() ==> set.modules.deep_view()[k]
                            == set.modules@[k]@,
                    text@ == spec_concat_texts(set.modules.deep_view().take(j as int)),
                decreases set.modules@.len() - j,
            {
                text.append(set.modules[j].text.as_str());
                proof {
                    let dv = set.modules.deep_view();
                    lemma_concat_texts_push(dv.take(j as int), dv[j as int]);
                    assert(dv.take(j + 1) =~= dv.take(j as int).push(dv[j as int]));
                }
                j = j + 1;
            }
            proof {
                let dv = set.modules.deep_view();
                assert(dv.take(dv.len() as int) =~= dv);
                lemma_catalog_text_found(catalog.sets.deep_view(), name@, i as int);
            }
            return Some(text);
        }
        i = i + 1;
    }
    proof {
        lemma_catalog_text_none(catalog.sets.deep_view(), name@);
    }
    None
}

/// The canonical string key for a legacy (module, index) pair, or the
/// visible invalid-key sentinel when either index is out of range.
pub open spec fn spec_get_key(keys: Seq<Seq<Seq<char>>>, m: int, t: int) -> Seq<char> {
    if 0 <= m < keys.len() && 0 <= t < keys[m].len() {
        keys[m][t]
    } else {
        "invalid-module-or-translation-index"@
    }
}

/// Looks a legacy (module, index) pair up in the key table; out-of-range
/// indices yield the invalid-key sentinel, never an error.
pub fn get_key(module_idx: usize, translation_idx: usize, keys_by_module: &Vec<Vec<String>>) -> (r:
    String)
    ensures
        r@ == spec_get_key(
            keys_by_module.deep_view(),
            module_idx as int,
            translation_idx as int,
        ),
{
    if module_idx < keys_by_module.len() {
        let row = &keys_by_module[module_idx];
        if translation_idx < row.len() {
            return row[translation_idx].clone();
        }
    }
    String::from_str("invalid-module-or-translation-index")
}

/// Splits a legacy dense key (`module * 1000 + index`) and looks it up.
pub fn get_key_legacy(val: usize, keys_by_module: &Vec<Vec<String>>) -> (r: String)
    ensures
        r@ == spec_get_key(
            keys_by_module.deep_view(),
            (val / 1000) as int,
            (val % 1000) as int,
        ),
{
    get_key(val / 1000, val % 1000, keys_by_module)
}

/// Some sample text for testing purposes.
pub fn test_en_text() -> (r: &'static str)
    ensures
        r@ == "
valid-key = a valid key
only-in-english = not translated
two-args-key = two args: {$one} and {$two}
plural = You have {$hats ->
    [one]   1 hat
   *[other] {$hats} hats
}.
"@,
{
    "
valid-key = a valid key
only-in-english = not translated
two-args-key = two args: {$one} and {$two}
plural = You have {$hats ->
    [one]   1 hat
   *[other] {$hats} hats
}.
"
}

/// Some sample text for testing purposes.
pub fn test_jp_text() -> (r: &'static str)
    ensures
        r@ == "
valid-key = キー
two-args-key = {$one}と{$two}
"@,
{
    "
valid-key = キー
two-args-key = {$one}と{$two}
"
}

/// Some sample text for testing purposes.
pub fn test_pl_text() -> (r: &'static str)
    ensures
        r@ == "
one-arg-key = fake Polish {$one}
"@,
{
    "
one-arg-key = fake Polish {$one}
"
}

} // verus!
