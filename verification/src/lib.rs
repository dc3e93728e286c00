//! A locale resolution and translation-lookup engine.
//!
//! Given an ordered list of user-preferred locales, the engine maps each
//! locale to the best available bundled translation set, builds a fallback
//! chain that always ends in the complete reference language, looks message
//! keys up across that chain, substitutes named arguments into message
//! patterns, and renders numeric arguments with a locale-appropriate decimal
//! separator.

pub mod bundle;
pub mod catalog;
pub mod engine;
pub mod laws;
pub mod locale;
pub mod numbers;

pub use bundle::ArgValue;
pub use bundle::TrArgs;
pub use engine::I18n;
pub use engine::ResourcesForJavascript;

pub use catalog::Catalog;
pub use catalog::CatalogSet;
pub use catalog::Module;
pub use catalog::OverrideEntry;
pub use catalog::Overrides;
pub use catalog::get_key;
pub use catalog::get_key_legacy;
pub use catalog::test_en_text;
pub use catalog::test_jp_text;
pub use catalog::test_pl_text;
pub use locale::LocaleTag;
pub use numbers::render_decimal;
pub use numbers::want_comma_as_decimal_separator;
