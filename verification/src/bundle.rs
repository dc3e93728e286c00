//! Building formatting bundles from resource text, and the trusted surface
//! over the external localization-format engine (fluent) that parses and
//! formats message patterns.

use vstd::prelude::*;
use vstd::string::StringExecFns;
use crate::catalog::Overrides;
use crate::catalog::spec_override_text;
use crate::locale::LocaleTag;
use crate::locale::parse_lang_id;

verus! {

/// One compiled pattern-set with its locale chain and value formatter.
pub type ConcurrentBundle = fluent_bundle::bundle::FluentBundle<
    fluent_bundle::FluentResource,
    intl_memoizer::concurrent::IntlLangMemoizer,
>;

#[verifier::external_type_specification]
#[verifier::external_body]
#[verifier::reject_recursive_types(R)]
#[verifier::reject_recursive_types(M)]
pub struct ExFluentBundle<R, M>(fluent_bundle::bundle::FluentBundle<R, M>);

#[verifier::external_type_specification]
#[verifier::external_body]
pub struct ExFluentResource(fluent_bundle::FluentResource);

#[verifier::external_type_specification]
#[verifier::external_body]
pub struct ExIntlLangMemoizer(intl_memoizer::concurrent::IntlLangMemoizer);

#[verifier::external_type_specification]
#[verifier::external_body]
pub struct ExFluentValue<'a>(fluent_bundle::FluentValue<'a>);

#[verifier::external_type_specification]
#[verifier::external_body]
pub struct ExFluentArgs<'a>(fluent_bundle::FluentArgs<'a>);

/// One named argument handed to a message pattern: plain text, or a number
/// given by its decimal text.
pub enum ArgValue {
    Text(String),
    Number(String),
}

impl View for ArgValue {
    type V = (bool, Seq<char>);

    open spec fn view(&self) -> Self::V {
        match self {
            ArgValue::Text(s) => (false, s@),
            ArgValue::Number(s) => (true, s@),
        }
    }
}

/// The named arguments of one lookup, in the order they were set.
pub struct TrArgs {
    pub pairs: Vec<(String, ArgValue)>,
}

/// The stored-argument map an argument list denotes: each pair as the
/// external store retains it (`spec_stored_arg`), later entries winning
/// over earlier ones with the same name, as they do in the store.
pub open spec fn spec_args_of_pairs(pairs: Seq<(String, ArgValue)>) -> Map<
    Seq<char>,
    (bool, Seq<char>),
>
    decreases pairs.len(),
{
    if pairs.len() == 0 {
        Map::empty()
    } else {
        spec_args_of_pairs(pairs.drop_last()).insert(
            pairs.last().0@,
            spec_stored_arg(pairs.last().1@),
        )
    }
}

impl TrArgs {
    /// An empty argument list.
    pub fn new() -> (r: TrArgs)
        ensures
            r.pairs@.len() == 0,
    {
        TrArgs { pairs: Vec::new() }
    }

    /// Appends one named argument.
    pub fn set(&mut self, key: String, value: ArgValue)
        ensures
            final(self).pairs@ == old(self).pairs@.push((key, value)),
    {
        self.pairs.push((key, value));
    }
}

/// Whether the external pattern-grammar engine parses this resource text.
pub uninterp spec fn spec_ftl_parses(text: Seq<char>) -> bool;

/// The source text a parsed resource was made from.
pub uninterp spec fn spec_res_source(res: fluent_bundle::FluentResource) -> Seq<char>;

/// Whether a fresh bundle accepts the parsed resource of this text, that
/// is, whether no message or term id occurs twice in it.
pub uninterp spec fn spec_text_addable(text: Seq<char>) -> bool;

/// Whether the parsed text defines an entry (a message or a term) under
/// the name `key` at all.
pub uninterp spec fn spec_text_has_msg(text: Seq<char>, key: Seq<char>) -> bool;

/// Whether the parsed text defines a message named `key` with a value
/// pattern (not only attributes).
pub uninterp spec fn spec_text_has_value(text: Seq<char>, key: Seq<char>) -> bool;

/// Which keys of the bundle have a usable (value-bearing) pattern.
pub uninterp spec fn spec_bundle_usable(b: ConcurrentBundle, key: Seq<char>) -> bool;

/// Whether the bundle's attached value formatter renders decimal numbers
/// with a comma (no formatter, or a period formatter: false).
pub uninterp spec fn spec_bundle_comma(b: ConcurrentBundle) -> bool;

/// Whether the bundle inserts directional isolation marks around
/// substituted values.
pub uninterp spec fn spec_bundle_isolating(b: ConcurrentBundle) -> bool;

/// The contents of an external argument store, keyed by argument name:
/// whether the stored value is numeric, and its text.
pub uninterp spec fn spec_args_model(a: fluent_bundle::FluentArgs<'static>) -> Map<
    Seq<char>,
    (bool, Seq<char>),
>;

/// What the external argument store retains for one handed argument pair
/// (numeric?, text). Storing canonicalizes: numeric text goes through the
/// external number parser, so two texts of one number are stored alike,
/// and text that is no number at all is stored as a plain string value,
/// indistinguishable from a text argument of the same characters. The
/// stored value is a function of the handed pair alone.
pub uninterp spec fn spec_stored_arg(v: (bool, Seq<char>)) -> (bool, Seq<char>);

/// The text the bundle renders for a usable key under the given arguments;
/// a function of the bundle (messages, locales, formatter, isolation
/// flag), the key and the arguments.
pub uninterp spec fn spec_bundle_format(
    b: ConcurrentBundle,
    key: Seq<char>,
    args: Option<Map<Seq<char>, (bool, Seq<char>)>>,
) -> Seq<char>;

/// Relies on fluent's `FluentResource::try_new`: parsing is a function of
/// the resource text alone, and a parsed resource retains its source text
/// (`FluentResource::source`).
#[verifier::external_body]
pub(crate) fn parse_ftl(text: String) -> (r: Option<fluent_bundle::FluentResource>)
    ensures
        r.is_some() == spec_ftl_parses(text@),
        r matches Some(res) ==> spec_res_source(res) == text@,
{
    match fluent_bundle::FluentResource::try_new(text) {
        Ok(res) => Some(res),
        Err(_) => None,
    }
}

/// Relies on `FluentBundle::new_concurrent`, `FluentBundle::add_resource`
/// and `FluentBundle::set_use_isolating`: a fresh bundle scoped to the
/// given locale chain holds exactly the resource's value-bearing messages
/// when no id in the resource is duplicated, and `add_resource` reports
/// duplicates; no value formatter is attached yet, so decimals keep their
/// default period rendering.
#[verifier::external_body]
pub(crate) fn new_bundle_with_resource(
    res: fluent_bundle::FluentResource,
    locales: Vec<unic_langid::LanguageIdentifier>,
    isolating: bool,
) -> (r: Option<ConcurrentBundle>)
    ensures
        r.is_some() == spec_text_addable(spec_res_source(res)),
        r matches Some(b) ==> (forall|k: Seq<char>|
            spec_bundle_usable(b, k) == spec_text_has_value(spec_res_source(res), k)),
        r matches Some(b) ==> spec_bundle_comma(b) == false && spec_bundle_isolating(b)
            == isolating,
{
    let mut b = fluent_bundle::concurrent::FluentBundle::new_concurrent(locales);
    if b.add_resource(res).is_err() {
        return None;
    }
    b.set_use_isolating(isolating);
    Some(b)
}

/// Relies on `FluentBundle::add_resource_overriding`: every entry of the
/// override resource replaces any same-name entry, every other message is
/// kept, and neither the value formatter nor the isolation flag changes.
#[verifier::external_body]
pub(crate) fn add_override_resource(b: &mut ConcurrentBundle, res: fluent_bundle::FluentResource)
    ensures
        forall|k: Seq<char>|
            spec_bundle_usable(*final(b), k) == (if spec_text_has_msg(
                spec_res_source(res),
                k,
            ) {
                spec_text_has_value(spec_res_source(res), k)
            } else {
                spec_bundle_usable(*old(b), k)
            }),
        spec_bundle_comma(*final(b)) == spec_bundle_comma(*old(b)),
        spec_bundle_isolating(*final(b)) == spec_bundle_isolating(*old(b)),
{
    b.add_resource_overriding(res);
}

/// Relies on `FluentBundle::set_formatter`: attaching a value formatter
/// changes no message and not the isolation flag. The attached function is
/// the comma or the period variant of the number formatter, whose digit
/// pipeline is the verified `render_decimal`.
#[verifier::external_body]
pub(crate) fn set_bundle_formatter(b: &mut ConcurrentBundle, comma: bool)
    ensures
        spec_bundle_comma(*final(b)) == comma,
        spec_bundle_isolating(*final(b)) == spec_bundle_isolating(*old(b)),
        forall|k: Seq<char>|
            spec_bundle_usable(*final(b), k) == spec_bundle_usable(*old(b), k),
{
    if comma {
        b.set_formatter(Some(crate::numbers::format_decimal_with_comma));
    } else {
        b.set_formatter(Some(crate::numbers::format_decimal_with_period));
    }
}

/// Relies on `FluentArgs::new`: a fresh argument store is empty.
#[verifier::external_body]
pub(crate) fn new_fluent_args() -> (r: fluent_bundle::FluentArgs<'static>)
    ensures
        forall|k: Seq<char>| !spec_args_model(r).dom().contains(k),
{
    fluent_bundle::FluentArgs::new()
}

/// Relies on `FluentArgs::set`: the store keeps exactly one value per
/// name, the newly set one. A `Number` argument is stored as a fluent
/// number with default options parsed from its decimal text (via
/// `FluentNumber`'s `from_str`); text that does not parse as a number, and
/// every `Text` argument, is stored as a string value — hence the stored
/// value is `spec_stored_arg` of the handed pair, not the pair itself.
#[verifier::external_body]
pub(crate) fn set_fluent_arg(
    a: &mut fluent_bundle::FluentArgs<'static>,
    key: &String,
    value: &ArgValue,
)
    ensures
        spec_args_model(*final(a)) == spec_args_model(*old(a)).insert(
            key@,
            spec_stored_arg(value@),
        ),
{
    let v: fluent_bundle::FluentValue<'static> = match value {
        ArgValue::Text(s) => fluent_bundle::FluentValue::String(s.clone().into()),
        ArgValue::Number(s) => match s.parse::<fluent_bundle::types::FluentNumber>() {
            Ok(n) => fluent_bundle::FluentValue::Number(fluent_bundle::types::FluentNumber::new(
                n.value,
                Default::default(),
            )),
            Err(_) => fluent_bundle::FluentValue::String(s.clone().into()),
        },
    };
    a.set(key.clone(), v);
}

/// Relies on `FluentBundle::get_message`, `FluentMessage::value` and
/// `FluentBundle::format_pattern`: a message with a value pattern exists
/// exactly for the bundle's usable keys, formatting is deterministic in
/// the bundle, the key and the arguments, and formatting errors still
/// yield best-effort text.
#[verifier::external_body]
pub(crate) fn format_in_bundle(
    b: &ConcurrentBundle,
    key: &str,
    args: Option<&fluent_bundle::FluentArgs<'static>>,
) -> (r: Option<String>)
    ensures
        r.is_some() == spec_bundle_usable(*b, key@),
        r matches Some(s) ==> s@ == spec_bundle_format(
            *b,
            key@,
            match args {
                Some(a) => Some(spec_args_model(*a)),
                None => None,
            },
        ),
{
    let msg = b.get_message(key)?;
    let pat = msg.value()?;
    let mut errs = vec![];
    Some(b.format_pattern(pat, args, &mut errs).to_string())
}

/// Whether one bundle can be built from this catalog text: it must parse,
/// and contain no duplicated id.
pub open spec fn spec_bundle_ok(text: Seq<char>) -> bool {
    spec_ftl_parses(text) && spec_text_addable(text)
}

/// The usable keys of a bundle built from `text` with best-effort override
/// text `extra`: a non-empty, parseable override replaces the entries it
/// defines; everything else comes from the catalog text.
pub open spec fn spec_built_usable(text: Seq<char>, extra: Seq<char>, k: Seq<char>) -> bool {
    if extra.len() > 0 && spec_ftl_parses(extra) && spec_text_has_msg(extra, k) {
        spec_text_has_value(extra, k)
    } else {
        spec_text_has_value(text, k)
    }
}

/// Parses resource text into a pattern-set for inclusion in one bundle.
///
/// Returns `None` when the catalog text has parse errors or duplicate
/// keys; that chain entry then contributes nothing. `extra_text` may hold
/// runtime-supplied resources: its errors never prevent a bundle built
/// from the catalog text alone (override content is best-effort). No value
/// formatter is attached yet; the chain-global one is attached once the
/// whole chain is known.
pub fn get_bundle(text: &str, extra_text: String, tag: Option<&LocaleTag>, isolating: bool) -> (r:
    Option<ConcurrentBundle>)
    ensures
        r.is_some() == spec_bundle_ok(text@),
        r matches Some(b) ==> (forall|k: Seq<char>|
            spec_bundle_usable(b, k) == spec_built_usable(text@, extra_text@, k)),
        r matches Some(b) ==> spec_bundle_comma(b) == false && spec_bundle_isolating(b)
            == isolating,
{
    let ghost extra_view = extra_text@;
    let res = match parse_ftl(String::from_str(text)) {
        Some(res) => res,
        None => {
            return None;
        },
    };
    // the bundle's locale chain: the entry's own locale first, then the
    // reference language, which scopes plural-rule selection
    let mut locales: Vec<unic_langid::LanguageIdentifier> = Vec::new();
    match tag {
        Some(t) => {
            let code = t.to_code();
            locales.push(parse_lang_id(code.as_str()));
        },
        None => {},
    }
    locales.push(parse_lang_id("en-US"));
    let mut bundle = match new_bundle_with_resource(res, locales, isolating) {
        Some(b) => b,
        None => {
            return None;
        },
    };
    if !extra_text.as_str().is_empty() {
        match parse_ftl(extra_text) {
            Some(res2) => add_override_resource(&mut bundle, res2),
            None => {},
        }
    }
    Some(bundle)
}

/// Builds the bundle for one chain entry, applying any runtime overrides
/// recorded for its language (`None`: the terminal reference-template
/// entry).
pub fn get_bundle_with_extra(
    text: &str,
    lang: Option<&LocaleTag>,
    overrides: &Overrides,
    isolating: bool,
) -> (r: Option<ConcurrentBundle>)
    ensures
        r.is_some() == spec_bundle_ok(text@),
        r matches Some(b) ==> (forall|k: Seq<char>|
            spec_bundle_usable(b, k) == spec_built_usable(
                text@,
                spec_override_text(
                    overrides.entries.deep_view(),
                    match lang {
                        Some(t) => Some(t.lang@),
                        None => None,
                    },
                ),
                k,
            )),
        r matches Some(b) ==> spec_bundle_comma(b) == false && spec_bundle_isolating(b)
            == isolating,
{
    let extra_text = match lang {
        Some(t) => overrides.text_for(Some(&t.lang)),
        None => overrides.text_for(None),
    };
    get_bundle(text, extra_text, lang, isolating)
}

} // verus!
