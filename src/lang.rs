//! Localised words.
use vstd::prelude::*;
use i18n_embed::fluent::FluentLanguageLoader;

verus! {

#[verifier::external_type_specification]
#[verifier::external_body]
pub struct ExFluentLanguageLoader(FluentLanguageLoader);

/// Relies on `FluentLanguageLoader::get`: the message with that id in the
/// loaded languages. It depends on which languages were loaded, so nothing is
/// promised of it.
pub assume_specification[ FluentLanguageLoader::get ](
    loader: &FluentLanguageLoader,
    message_id: &str,
) -> String;

/// The localised word for a boolean: the message `true-value` or
/// `false-value`.
pub fn localize_bool(loader: &FluentLanguageLoader, value: bool) -> String {
    if value {
        loader.get("true-value")
    } else {
        loader.get("false-value")
    }
}

} // verus!
