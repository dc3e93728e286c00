use i18n::ArgValue;
use i18n::Catalog;
use i18n::CatalogSet;
use i18n::I18n;
use i18n::LocaleTag;
use i18n::Module;
use i18n::OverrideEntry;
use i18n::Overrides;
use i18n::TrArgs;
use i18n::test_en_text;
use i18n::test_jp_text;
use i18n::test_pl_text;
use i18n::want_comma_as_decimal_separator;

fn set(name: &str, text: &str) -> CatalogSet {
    CatalogSet {
        name: name.to_string(),
        modules: vec![Module { name: "test".to_string(), text: text.to_string() }],
    }
}

fn test_catalog() -> Catalog {
    Catalog {
        sets: vec![
            set("templates", test_en_text()),
            set("ja", test_jp_text()),
            set("pl", test_pl_text()),
        ],
        keys_by_module: vec![
            vec!["valid-key".to_string(), "two-args-key".to_string()],
            vec!["plural".to_string()],
        ],
    }
}

fn no_overrides() -> Overrides {
    Overrides::none()
}

fn args1(k: &str, v: ArgValue) -> TrArgs {
    let mut a = TrArgs::new();
    a.set(k.to_string(), v);
    a
}

fn args2(k1: &str, v1: ArgValue, k2: &str, v2: ArgValue) -> TrArgs {
    let mut a = TrArgs::new();
    a.set(k1.to_string(), v1);
    a.set(k2.to_string(), v2);
    a
}

fn num(s: &str) -> ArgValue {
    ArgValue::Number(s.to_string())
}

fn text(s: &str) -> ArgValue {
    ArgValue::Text(s.to_string())
}

fn engine(codes: &[&str]) -> I18n {
    let codes: Vec<String> = codes.iter().map(|c| c.to_string()).collect();
    I18n::with_isolation(&codes, test_catalog(), &no_overrides(), false).unwrap()
}

#[test]
fn numbers() {
    let en = LocaleTag::from_code("en-US").unwrap();
    let pl = LocaleTag::from_code("pl-PL").unwrap();
    assert_eq!(want_comma_as_decimal_separator(&vec![en]), false);
    assert_eq!(want_comma_as_decimal_separator(&vec![pl]), true);
}

#[test]
fn i18n() {
    // English template
    let eng = engine(&["zz"]);
    assert_eq!(eng.tr_("valid-key", None), "a valid key");
    assert_eq!(eng.tr_("invalid-key", None), "invalid-key");

    assert_eq!(
        eng.tr_("two-args-key", Some(&args2("one", num("1.1"), "two", text("2")))),
        "two args: 1.1 and 2"
    );

    assert_eq!(eng.tr_("plural", Some(&args1("hats", num("1.0")))), "You have 1 hat.");
    assert_eq!(eng.tr_("plural", Some(&args1("hats", num("1.1")))), "You have 1.1 hats.");
    assert_eq!(eng.tr_("plural", Some(&args1("hats", num("3")))), "You have 3 hats.");

    // Another language
    let eng = engine(&["ja_JP"]);
    assert_eq!(eng.tr_("valid-key", None), "キー");
    assert_eq!(eng.tr_("only-in-english", None), "not translated");
    assert_eq!(eng.tr_("invalid-key", None), "invalid-key");

    assert_eq!(eng.tr_("two-args-key", Some(&args2("one", num("1"), "two", text("2")))), "1と2");

    // Decimal separator
    let eng = engine(&["pl-PL"]);
    // Polish will use a comma if the string is translated
    assert_eq!(eng.tr_("one-arg-key", Some(&args1("one", num("2.07")))), "fake Polish 2,07");

    // the separator choice is chain-global, so the English fallback bundle
    // renders numbers with the comma as well
    assert_eq!(
        eng.tr_("two-args-key", Some(&args2("one", num("1"), "two", num("2.07")))),
        "two args: 1 and 2,07"
    );
}

#[test]
fn two_args_in_preferred_locale_set() {
    let catalog = Catalog {
        sets: vec![
            set("templates", test_en_text()),
            set("xx", "two-args-key = two args: {$one} and {$two}\n"),
        ],
        keys_by_module: vec![],
    };
    let eng = I18n::with_isolation(
        &vec!["xx".to_string()],
        catalog,
        &no_overrides(),
        false,
    )
    .unwrap();
    assert_eq!(
        eng.tr_("two-args-key", Some(&args2("one", num("1.1"), "two", text("2")))),
        "two args: 1.1 and 2"
    );
}

#[test]
fn template_only_lookups() {
    let eng = I18n::template_only(test_catalog(), &no_overrides()).unwrap();
    assert_eq!(eng.tr_("valid-key", None), "a valid key");
    assert_eq!(eng.tr_("missing-key", None), "missing-key");
}

#[test]
fn chain_always_ends_in_reference_language() {
    for codes in [&[][..], &["zz"][..], &["ja_JP", "pl-PL"][..], &["!!bad!!"][..]] {
        let codes: Vec<String> = codes.iter().map(|c| c.to_string()).collect();
        let eng = I18n::new(&codes, test_catalog(), &no_overrides()).unwrap();
        let res = eng.resources_for_js();
        assert_eq!(res.langs.last().unwrap(), "en-US");
    }
}

#[test]
fn preferences_after_english_are_ignored() {
    let eng = engine(&["en", "ja_JP"]);
    let res = eng.resources_for_js();
    // the ja preference comes after English and must contribute nothing
    assert_eq!(res.langs, vec!["en".to_string(), "en-US".to_string()]);
    assert_eq!(eng.tr_("valid-key", None), "a valid key");
}

#[test]
fn unparseable_codes_are_dropped() {
    let eng = engine(&["not a code!!", "ja"]);
    assert_eq!(eng.tr_("valid-key", None), "キー");
}

#[test]
fn unknown_set_contributes_nothing() {
    let eng = engine(&["zz-ZZ"]);
    let res = eng.resources_for_js();
    assert_eq!(res.langs, vec!["en-US".to_string()]);
}

#[test]
fn missing_template_set_is_fatal() {
    let catalog = Catalog { sets: vec![set("ja", test_jp_text())], keys_by_module: vec![] };
    assert!(I18n::template_only(catalog, &no_overrides()).is_none());
}

#[test]
fn bad_template_text_is_fatal() {
    let catalog = Catalog {
        sets: vec![set("templates", "= no key at all =")],
        keys_by_module: vec![],
    };
    assert!(I18n::template_only(catalog, &no_overrides()).is_none());
}

#[test]
fn bad_locale_text_drops_only_that_bundle() {
    let catalog = Catalog {
        sets: vec![set("templates", test_en_text()), set("ja", "= broken =")],
        keys_by_module: vec![],
    };
    let eng = I18n::with_isolation(
        &vec!["ja".to_string()],
        catalog,
        &no_overrides(),
        false,
    )
    .unwrap();
    // the broken bundle contributes nothing; the template still answers
    assert_eq!(eng.tr_("valid-key", None), "a valid key");
    let res = eng.resources_for_js();
    assert_eq!(res.langs, vec!["en-US".to_string()]);
}

#[test]
fn duplicate_key_drops_the_bundle() {
    let catalog = Catalog {
        sets: vec![
            set("templates", test_en_text()),
            set("ja", "dup-key = one\ndup-key = two\n"),
        ],
        keys_by_module: vec![],
    };
    let eng = I18n::with_isolation(
        &vec!["ja".to_string()],
        catalog,
        &no_overrides(),
        false,
    )
    .unwrap();
    assert_eq!(eng.tr_("dup-key", None), "dup-key");
    assert_eq!(eng.resources_for_js().langs, vec!["en-US".to_string()]);
}

#[test]
fn overrides_replace_catalog_keys() {
    let overrides = Overrides {
        entries: vec![OverrideEntry {
            lang: None,
            text: "valid-key = overridden\n".to_string(),
        }],
    };
    let eng = I18n::template_only(test_catalog(), &overrides).unwrap();
    assert_eq!(eng.tr_("valid-key", None), "overridden");
    // keys the override does not define keep their catalog text
    assert_eq!(eng.tr_("only-in-english", None), "not translated");
}

#[test]
fn broken_override_keeps_catalog_behavior() {
    let overrides = Overrides {
        entries: vec![OverrideEntry { lang: None, text: "= broken =".to_string() }],
    };
    let eng = I18n::template_only(test_catalog(), &overrides).unwrap();
    assert_eq!(eng.tr_("valid-key", None), "a valid key");
}

#[test]
fn override_targets_one_language() {
    let overrides = Overrides {
        entries: vec![OverrideEntry {
            lang: Some("ja".to_string()),
            text: "valid-key = からの\n".to_string(),
        }],
    };
    let eng = I18n::with_isolation(
        &vec!["ja".to_string()],
        test_catalog(),
        &overrides,
        false,
    )
    .unwrap();
    assert_eq!(eng.tr_("valid-key", None), "からの");
}

#[test]
fn region_remapping_for_english() {
    let gb_text = "colour-key = colour\n";
    let catalog = || Catalog {
        sets: vec![set("templates", test_en_text()), set("en-GB", gb_text)],
        keys_by_module: vec![],
    };
    for code in ["en-GB", "en-AU"] {
        let eng = I18n::with_isolation(
            &vec![code.to_string()],
            catalog(),
            &no_overrides(),
            false,
        )
        .unwrap();
        assert_eq!(eng.tr_("colour-key", None), "colour");
    }
    // plain English and any other region go straight to the template set
    for code in ["en", "en-NZ", "en-US"] {
        let eng = I18n::with_isolation(
            &vec![code.to_string()],
            catalog(),
            &no_overrides(),
            false,
        )
        .unwrap();
        assert_eq!(eng.tr_("colour-key", None), "colour-key");
        assert_eq!(eng.tr_("valid-key", None), "a valid key");
    }
}

#[test]
fn legacy_numeric_keys() {
    let eng = engine(&[]);
    assert_eq!(eng.tr(0), "a valid key");
    assert_eq!(
        eng.trn(1, args2("one", num("1"), "two", text("x"))),
        "two args: 1 and x"
    );
    assert_eq!(
        eng.trn2(1, args2("one", num("1"), "two", text("x"))),
        "two args: 1 and x"
    );
    // out-of-range legacy keys yield the visible sentinel
    assert_eq!(eng.tr(9999), "invalid-module-or-translation-index");
}

#[test]
fn resources_for_js_exports_the_chain() {
    let eng = engine(&["pl-PL"]);
    let res = eng.resources_for_js();
    assert_eq!(res.langs, vec!["pl-PL".to_string(), "en-US".to_string()]);
    assert_eq!(res.resources, vec![test_pl_text().to_string(), test_en_text().to_string()]);
}

#[test]
fn cloned_handles_share_the_chain() {
    let eng = engine(&["pl-PL"]);
    let eng2 = eng.clone();
    assert_eq!(eng.tr_("one-arg-key", Some(&args1("one", num("2.07")))), "fake Polish 2,07");
    assert_eq!(eng2.tr_("one-arg-key", Some(&args1("one", num("2.07")))), "fake Polish 2,07");
    assert_eq!(eng2.resources_for_js().langs, eng.resources_for_js().langs);
}

#[test]
fn numeric_argument_text_is_canonicalized() {
    let eng = engine(&["zz"]);
    // two texts of one number are stored alike
    assert_eq!(
        eng.tr_("two-args-key", Some(&args2("one", num("1.10"), "two", num("1.1")))),
        "two args: 1.1 and 1.1"
    );
    // numeric text that is no number falls back to a plain string value
    assert_eq!(
        eng.tr_("two-args-key", Some(&args2("one", num("abc"), "two", text("abc")))),
        "two args: abc and abc"
    );
}

#[test]
fn parsed_tags_are_normalized() {
    let tag = LocaleTag::from_code("ja_JP").unwrap();
    assert_eq!(tag.lang, "ja");
    assert_eq!(tag.region, Some("JP".to_string()));
    assert_eq!(tag.to_code(), "ja-JP");
    assert!(LocaleTag::from_code("not a code!!").is_none());
}
