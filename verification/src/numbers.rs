//! The numeric formatting policy: which decimal separator a fallback chain
//! uses, and how a fixed-precision decimal rendering is reduced to the text
//! that is substituted into a message.

use vstd::prelude::*;
use vstd::string::StringExecFns;
use crate::locale::LocaleTag;
use crate::locale::str_eq;

verus! {

/// The byte `'.'`.
pub const DOT: u8 = 46;

/// The byte `','`.
pub const COMMA: u8 = 44;

/// The byte `'0'`.
pub const ZERO: u8 = 48;

/// `s` with every trailing occurrence of `c` removed.
pub open spec fn spec_trim_trailing(s: Seq<u8>, c: u8) -> Seq<u8>
    decreases s.len(),
{
    if s.len() > 0 && s.last() == c {
        spec_trim_trailing(s.drop_last(), c)
    } else {
        s
    }
}

/// The index of the first `'.'` in `s`, if any.
pub open spec fn spec_first_dot(s: Seq<u8>) -> Option<int>
    decreases s.len(),
{
    if s.len() == 0 {
        None
    } else if s.first() == DOT {
        Some(0int)
    } else {
        match spec_first_dot(s.drop_first()) {
            Some(i) => Some(i + 1),
            None => None,
        }
    }
}

/// `n` zero digits.
pub open spec fn spec_zeros(n: nat) -> Seq<u8>
    decreases n,
{
    if n == 0 {
        Seq::empty()
    } else {
        spec_zeros((n - 1) as nat).push(ZERO)
    }
}

/// Right-pads the fractional part (after the first `'.'`) with zeros until it
/// holds at least `minfd` digits; text without a `'.'` is left unchanged.
pub open spec fn spec_pad_min_frac(s: Seq<u8>, minfd: nat) -> Seq<u8> {
    match spec_first_dot(s) {
        Some(p) => {
            let frac = s.len() - p - 1;
            if minfd > frac {
                s + spec_zeros((minfd - frac) as nat)
            } else {
                s
            }
        },
        None => s,
    }
}

/// `s` with every `'.'` replaced by `','` when `comma` holds.
pub open spec fn spec_replace_dots(s: Seq<u8>, comma: bool) -> Seq<u8> {
    if comma {
        s.map_values(|b: u8| if b == DOT { COMMA } else { b })
    } else {
        s
    }
}

/// The full rendering rule applied to a fixed-precision decimal text:
/// strip trailing zeros, pad the fraction back up to any required minimum,
/// strip a dangling `'.'`, then apply the separator choice.
pub open spec fn spec_render_decimal(s: Seq<u8>, minfd: Option<usize>, comma: bool) -> Seq<u8> {
    let trimmed = spec_trim_trailing(s, ZERO);
    let padded = match minfd {
        Some(m) => spec_pad_min_frac(trimmed, m as nat),
        None => trimmed,
    };
    spec_replace_dots(spec_trim_trailing(padded, DOT), comma)
}

proof fn lemma_trim_suffix(s: Seq<u8>, c: u8, n: int)
    requires
        0 <= n <= s.len(),
        forall|j: int| n <= j < s.len() ==> s[j] == c,
        n > 0 ==> s[n - 1] != c,
    ensures
        spec_trim_trailing(s, c) == s.take(n),
    decreases s.len() - n,
{
    if n == s.len() {
        if s.len() == 0 || s.last() != c {
            assert(s.take(n) =~= s);
        } else {
            assert(false);
        }
    } else {
        assert(s.last() == c);
        lemma_trim_suffix(s.drop_last(), c, n);
        assert(s.drop_last().take(n) =~= s.take(n));
    }
}

proof fn lemma_first_dot_at(s: Seq<u8>, p: int)
    requires
        0 <= p < s.len(),
        s[p] == DOT,
        forall|j: int| 0 <= j < p ==> s[j] != DOT,
    ensures
        spec_first_dot(s) == Some(p),
    decreases p,
{
    if p == 0 {
    } else {
        lemma_first_dot_at(s.drop_first(), p - 1);
    }
}

proof fn lemma_first_dot_none(s: Seq<u8>)
    requires
        forall|j: int| 0 <= j < s.len() ==> s[j] != DOT,
    ensures
        spec_first_dot(s) is None,
    decreases s.len(),
{
    if s.len() > 0 {
        lemma_first_dot_none(s.drop_first());
    }
}

/// Renders a fixed-precision decimal text (digits with a `'.'` and a fixed
/// number of fractional digits) down to its final form: trailing zeros are
/// stripped, the fractional part is padded back up to `minfd` digits when a
/// minimum is demanded, a then-dangling `'.'` is removed, and `'.'` becomes
/// `','` when `comma` holds.
pub fn render_decimal(digits: &[u8], minfd: Option<usize>, comma: bool) -> (r: Vec<u8>)
    ensures
        r@ == spec_render_decimal(digits@, minfd, comma),
{
    // strip trailing zero digits
    let mut n: usize = digits.len();
    while n > 0 && digits[n - 1] == ZERO
        invariant
            n <= digits@.len(),
            forall|j: int| n <= j < digits@.len() ==> digits@[j] == ZERO,
        decreases n,
    {
        n = n - 1;
    }
    proof {
        lemma_trim_suffix(digits@, ZERO, n as int);
    }
    let mut out: Vec<u8> = Vec::new();
    let mut i: usize = 0;
    while i < n
        invariant
            i <= n <= digits@.len(),
            out@ == digits@.take(i as int),
        decreases n - i,
    {
        out.push(digits[i]);
        proof {
            assert(digits@.take(i + 1) =~= digits@.take(i as int).push(digits@[i as int]));
        }
        i = i + 1;
    }
    assert(out@ == spec_trim_trailing(digits@, ZERO));

    // pad the fraction back up to any required minimum
    if let Some(m) = minfd {
        let mut p: usize = 0;
        let mut dot: Option<usize> = None;
        while p < out.len()
            invariant_except_break
                dot is None,
            invariant
                p <= out@.len(),
                forall|j: int| 0 <= j < p ==> out@[j] != DOT,
            ensures
                match dot {
                    Some(d) => 0 <= d < out@.len() && out@[d as int] == DOT && (forall|j: int|
                        0 <= j < d ==> out@[j] != DOT),
                    None => forall|j: int| 0 <= j < out@.len() ==> out@[j] != DOT,
                },
            decreases out@.len() - p,
        {
            if out[p] == DOT {
                dot = Some(p);
                break;
            }
            p = p + 1;
        }
        match dot {
            Some(d) => {
                proof {
                    lemma_first_dot_at(out@, d as int);
                }
                let frac = out.len() - d - 1;
                if m > frac {
                    let ghost base = out@;
                    let need = m - frac;
                    let mut k: usize = 0;
                    while k < need
                        invariant
                            k <= need,
                            out@ == base + spec_zeros(k as nat),
                        decreases need - k,
                    {
                        out.push(ZERO);
                        proof {
                            assert(base + spec_zeros((k + 1) as nat) =~= (base + spec_zeros(
                                k as nat,
                            )).push(ZERO));
                        }
                        k = k + 1;
                    }
                }
            },
            None => {
                proof {
                    lemma_first_dot_none(out@);
                }
            },
        }
    }

    // strip a dangling '.'
    let mut n2: usize = out.len();
    while n2 > 0 && out[n2 - 1] == DOT
        invariant
            n2 <= out@.len(),
            forall|j: int| n2 <= j < out@.len() ==> out@[j] == DOT,
        decreases n2,
    {
        n2 = n2 - 1;
    }
    proof {
        lemma_trim_suffix(out@, DOT, n2 as int);
    }

    // apply the separator choice
    let mut res: Vec<u8> = Vec::new();
    let mut i2: usize = 0;
    while i2 < n2
        invariant
            i2 <= n2 <= out@.len(),
            res@ == spec_replace_dots(out@.take(n2 as int), comma).take(i2 as int),
        decreases n2 - i2,
    {
        let b = out[i2];
        if comma && b == DOT {
            res.push(COMMA);
        } else {
            res.push(b);
        }
        proof {
            let whole = spec_replace_dots(out@.take(n2 as int), comma);
            assert(whole.take(i2 + 1) =~= whole.take(i2 as int).push(whole[i2 as int]));
        }
        i2 = i2 + 1;
    }
    proof {
        let whole = spec_replace_dots(out@.take(n2 as int), comma);
        assert(res@ =~= whole);
    }
    res
}

proof fn lemma_no_dot_when_none(s: Seq<u8>)
    requires
        spec_first_dot(s) is None,
    ensures
        forall|j: int| 0 <= j < s.len() ==> s[j] != DOT,
    decreases s.len(),
{
    if s.len() > 0 {
        assert(s.first() != DOT);
        lemma_no_dot_when_none(s.drop_first());
        assert forall|j: int| 0 <= j < s.len() implies s[j] != DOT by {
            if j > 0 {
                assert(s.drop_first()[j - 1] == s[j]);
            }
        }
    }
}

/// Decimal text that is already in its final shape: either no decimal
/// point at all, or one point followed by one or two fractional digits of
/// which the last is not a zero.
pub open spec fn spec_minimal_decimal(s: Seq<u8>) -> bool {
    match spec_first_dot(s) {
        Some(p) => {
            &&& 1 <= s.len() - p - 1 <= 2
            &&& s.last() != ZERO
            &&& s.last() != DOT
            &&& forall|j: int| p < j < s.len() ==> s[j] != DOT
        },
        None => true,
    }
}

/// The fixed two-fraction-digit form of a minimal decimal text: the
/// fraction is filled up with zeros, and integers gain a `.00` tail.
pub open spec fn spec_pad_to_two(s: Seq<u8>) -> Seq<u8> {
    match spec_first_dot(s) {
        Some(p) => s + spec_zeros((2 - (s.len() - p - 1)) as nat),
        None => (s + seq![DOT]) + spec_zeros(2),
    }
}

/// Number rendering is idempotent on already-minimal text: a value whose
/// decimal text has at most two fractional digits and no trailing zeros
/// comes back with exactly the same digits, modulo the separator choice.
pub proof fn lemma_render_idempotent_on_minimal(s: Seq<u8>, comma: bool)
    requires
        spec_minimal_decimal(s),
    ensures
        spec_render_decimal(spec_pad_to_two(s), None, comma) == spec_replace_dots(s, comma),
{
    match spec_first_dot(s) {
        Some(p) => {
            let f = s.len() - p - 1;
            if f == 2 {
                assert(spec_pad_to_two(s) =~= s);
                assert(spec_trim_trailing(s, ZERO) == s);
                assert(spec_trim_trailing(s, DOT) == s);
            } else {
                assert(f == 1);
                assert(spec_zeros(0) == Seq::<u8>::empty());
                assert(spec_zeros(1) == spec_zeros(0).push(ZERO));
                assert(spec_zeros(1) =~= Seq::empty().push(ZERO));
                assert(spec_pad_to_two(s) =~= s.push(ZERO));
                assert(s.push(ZERO).last() == ZERO);
                assert(s.push(ZERO).drop_last() =~= s);
                assert(spec_trim_trailing(s.push(ZERO), ZERO) == spec_trim_trailing(s, ZERO));
                assert(spec_trim_trailing(s, ZERO) == s);
                assert(spec_trim_trailing(s, DOT) == s);
            }
        },
        None => {
            lemma_no_dot_when_none(s);
            let with_dot = s.push(DOT);
            assert(spec_zeros(0) == Seq::<u8>::empty());
            assert(spec_zeros(1) == spec_zeros(0).push(ZERO));
            assert(spec_zeros(2) == spec_zeros(1).push(ZERO));
            assert(spec_zeros(2) =~= Seq::empty().push(ZERO).push(ZERO));
            assert(spec_pad_to_two(s) =~= with_dot.push(ZERO).push(ZERO));
            assert(with_dot.push(ZERO).push(ZERO).drop_last() =~= with_dot.push(ZERO));
            assert(with_dot.push(ZERO).drop_last() =~= with_dot);
            assert(spec_trim_trailing(with_dot.push(ZERO).push(ZERO), ZERO)
                == spec_trim_trailing(with_dot.push(ZERO), ZERO));
            assert(spec_trim_trailing(with_dot.push(ZERO), ZERO) == spec_trim_trailing(
                with_dot,
                ZERO,
            ));
            assert(spec_trim_trailing(spec_pad_to_two(s), ZERO) == spec_trim_trailing(
                with_dot,
                ZERO,
            ));
            assert(with_dot.last() == DOT);
            assert(spec_trim_trailing(with_dot, ZERO) == with_dot);
            assert(with_dot.drop_last() =~= s);
            assert(spec_trim_trailing(with_dot, DOT) == spec_trim_trailing(s, DOT));
            if s.len() > 0 {
                assert(s.last() != DOT);
            }
            assert(spec_trim_trailing(s, DOT) == s);
        },
    }
}

/// What num_format's static locale table gives as the decimal separator of
/// the numeric locale with this name, or `None` for an unknown name.
pub uninterp spec fn spec_num_locale_decimal(name: Seq<char>) -> Option<Seq<char>>;

/// Relies on num_format's `Locale::from_name` and `Locale::decimal`: the
/// locale table is static data, so the decimal separator is a function of
/// the name alone, and unknown names are rejected.
#[verifier::external_body]
fn num_format_decimal(name: &str) -> (r: Option<String>)
    ensures
        r.is_some() == spec_num_locale_decimal(name@) is Some,
        r matches Some(s) ==> spec_num_locale_decimal(name@) == Some(s@),
{
    match num_format::Locale::from_name(name) {
        Ok(loc) => Some(loc.decimal().to_string()),
        Err(_) => None,
    }
}

/// The separator the numeric-locale table yields for one tag: first the
/// combined `language_REGION` name is tried, then the language alone.
pub open spec fn spec_locale_separator(t: (Seq<char>, Option<Seq<char>>)) -> Option<Seq<char>> {
    match t.1 {
        Some(r) => match spec_num_locale_decimal(t.0 + "_"@ + r) {
            Some(sep) => Some(sep),
            None => spec_num_locale_decimal(t.0),
        },
        None => spec_num_locale_decimal(t.0),
    }
}

/// Locates a numeric locale for the tag (language plus region first, then
/// the language alone) and returns that locale's decimal separator.
pub fn num_format_locale_separator(tag: &LocaleTag) -> (r: Option<String>)
    ensures
        r.is_some() == spec_locale_separator(tag@) is Some,
        r matches Some(s) ==> spec_locale_separator(tag@) == Some(s@),
{
    match &tag.region {
        Some(reg) => {
            let mut code = String::new();
            code.append(tag.lang.as_str());
            code.append("_");
            code.append(reg.as_str());
            match num_format_decimal(code.as_str()) {
                Some(sep) => Some(sep),
                None => num_format_decimal(tag.lang.as_str()),
            }
        },
        None => num_format_decimal(tag.lang.as_str()),
    }
}

/// The separator of the first tag in the list that resolves to a known
/// numeric locale.
pub open spec fn spec_first_separator(tags: Seq<(Seq<char>, Option<Seq<char>>)>) -> Option<
    Seq<char>,
>
    decreases tags.len(),
{
    if tags.len() == 0 {
        None
    } else {
        match spec_locale_separator(tags.first()) {
            Some(s) => Some(s),
            None => spec_first_separator(tags.drop_first()),
        }
    }
}

pub proof fn lemma_first_separator_push(tags: Seq<(Seq<char>, Option<Seq<char>>)>, t: (
    Seq<char>,
    Option<Seq<char>>,
))
    ensures
        spec_first_separator(tags.push(t)) == match spec_first_separator(tags) {
            Some(s) => Some(s),
            None => spec_locale_separator(t),
        },
    decreases tags.len(),
{
    if tags.len() == 0 {
        assert(tags.push(t).first() == t);
        assert(tags.push(t).drop_first() =~= Seq::<(Seq<char>, Option<Seq<char>>)>::empty());
        assert(spec_first_separator(Seq::<(Seq<char>, Option<Seq<char>>)>::empty()) is None);
        match spec_locale_separator(t) {
            Some(s) => {
                assert(spec_first_separator(tags.push(t)) == Some(s));
            },
            None => {
                assert(spec_first_separator(tags.push(t)) == spec_first_separator(
                    tags.push(t).drop_first(),
                ));
            },
        }
    } else {
        assert(tags.push(t).first() == tags.first());
        assert(tags.push(t).drop_first() =~= tags.drop_first().push(t));
        lemma_first_separator_push(tags.drop_first(), t);
    }
}

/// Walks the tags in order and returns the first known numeric locale's
/// decimal separator, if any tag has one.
pub fn first_available_separator(langs: &Vec<LocaleTag>) -> (r: Option<String>)
    ensures
        r.is_some() == spec_first_separator(langs.deep_view()) is Some,
        r matches Some(s) ==> spec_first_separator(langs.deep_view()) == Some(s@),
{
    let mut i: usize = 0;
    while i < langs.len()
        invariant
            i <= langs.deep_view().len(),
            langs.deep_view().len() == langs@.len(),
            spec_first_separator(langs.deep_view().take(i as int)) is None,
            forall|j: int| 0 <= j < langs@.len() ==> langs.deep_view()[j] == langs@[j]@,
        decreases langs@.len() - i,
    {
        let r = num_format_locale_separator(&langs[i]);
        proof {
            let dv = langs.deep_view();
            lemma_first_separator_push(dv.take(i as int), dv[i as int]);
            assert(dv.take(i + 1) =~= dv.take(i as int).push(dv[i as int]));
        }
        match r {
            Some(sep) => {
                proof {
                    let dv = langs.deep_view();
                    assert(dv.take(dv.len() as int) =~= dv);
                    if (i + 1) as int != dv.len() as int {
                        lemma_first_separator_some_prefix(dv, (i + 1) as int);
                    }
                }
                return Some(sep);
            },
            None => {
                i = i + 1;
            },
        }
    }
    proof {
        assert(langs.deep_view().take(i as int) =~= langs.deep_view());
    }
    None
}

proof fn lemma_first_separator_some_prefix(tags: Seq<(Seq<char>, Option<Seq<char>>)>, i: int)
    requires
        0 < i <= tags.len(),
        spec_first_separator(tags.take(i)) is Some,
    ensures
        spec_first_separator(tags) == spec_first_separator(tags.take(i)),
    decreases i,
{
    if tags.first() == tags.take(i).first() && spec_locale_separator(tags.first()) is Some {
        assert(spec_first_separator(tags) == Some(spec_locale_separator(tags.first())->0));
    } else {
        assert(tags.take(i).first() == tags.first());
        if spec_locale_separator(tags.first()) is Some {
        } else {
            assert(spec_first_separator(tags.take(i)) == spec_first_separator(
                tags.take(i).drop_first(),
            ));
            assert(tags.take(i).drop_first() =~= tags.drop_first().take(i - 1));
            if i - 1 == 0 {
                assert(spec_first_separator(tags.take(i).drop_first()) is None);
                assert(false);
            } else {
                lemma_first_separator_some_prefix(tags.drop_first(), i - 1);
            }
        }
    }
}

/// The chain-global separator policy: the chain uses a comma exactly when
/// the first locale in the list with a known numeric locale uses one; with
/// no such locale the period is the default.
pub open spec fn spec_want_comma(tags: Seq<(Seq<char>, Option<Seq<char>>)>) -> bool {
    match spec_first_separator(tags) {
        Some(s) => s == ","@,
        None => false,
    }
}

/// Decides, for a resolved locale list, whether the whole chain renders
/// decimals with a comma instead of a period.
pub fn want_comma_as_decimal_separator(langs: &Vec<LocaleTag>) -> (r: bool)
    ensures
        r == spec_want_comma(langs.deep_view()),
{
    match first_available_separator(langs) {
        Some(sep) => str_eq(sep.as_str(), ","),
        None => false,
    }
}

/// The value formatter attached to every bundle of a chain whose policy
/// chose the comma separator.
///
/// Relies on the external formatter contract (`FluentBundle::set_formatter`):
/// returning `None` keeps a value's default rendering, `Some` replaces it.
#[verifier::external_body]
pub(crate) fn format_decimal_with_comma(
    val: &fluent_bundle::FluentValue,
    _intl: &intl_memoizer::concurrent::IntlLangMemoizer,
) -> (r: Option<String>) {
    format_number_values(val, true)
}

/// The value formatter attached to every bundle of a chain whose policy
/// kept the period separator.
///
/// Relies on the external formatter contract (`FluentBundle::set_formatter`):
/// returning `None` keeps a value's default rendering, `Some` replaces it.
#[verifier::external_body]
pub(crate) fn format_decimal_with_period(
    val: &fluent_bundle::FluentValue,
    _intl: &intl_memoizer::concurrent::IntlLangMemoizer,
) -> (r: Option<String>) {
    format_number_values(val, false)
}

/// Renders a numeric fluent value: the value is written with exactly two
/// fractional digits and then reduced by the verified `render_decimal`
/// pipeline; non-numeric values pass through to the pattern engine's
/// default stringification.
///
/// Relies on the standard fixed-precision formatting of the numeric value
/// and on `FluentNumber`'s public fields.
#[verifier::external_body]
fn format_number_values(val: &fluent_bundle::FluentValue, comma: bool) -> (r: Option<String>) {
    match val {
        fluent_bundle::FluentValue::Number(num) => {
            let fixed = format!("{number:.2}", number = num.value);
            let rendered = render_decimal(
                fixed.as_bytes(),
                num.options.minimum_fraction_digits,
                comma,
            );
            Some(String::from_utf8(rendered).unwrap_or_default())
        },
        _ => None,
    }
}

} // verus!
