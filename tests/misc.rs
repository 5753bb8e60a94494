use emtt::lang::localize_bool;
use emtt::text::{parse_signed, parse_unsigned};
use emtt::{now, unescape_template, Config, TelegramConfig};
use i18n_embed::fluent::FluentLanguageLoader;
use i18n_embed::{I18nAssets, LanguageLoader};
use std::borrow::Cow;

#[test]
fn template_escapes() {
    assert_eq!(unescape_template("a\\nb\\tc\\rd\\\\e".to_string()), "a\nb\tc\rd\\e");
    assert_eq!(unescape_template("keep \\x and end\\".to_string()), "keep \\x and end\\");
    assert_eq!(unescape_template("".to_string()), "");
}

#[test]
fn clock_is_after_epoch() {
    assert!(now() > 1_600_000_000);
}

struct FrenchCatalogue;

impl I18nAssets for FrenchCatalogue {
    fn get_files(&self, file_path: &str) -> Vec<Cow<'_, [u8]>> {
        if file_path == "fr/emtt.ftl" {
            vec![Cow::Borrowed(b"true-value = oui\nfalse-value = non\n".as_slice())]
        } else {
            Vec::new()
        }
    }

    fn filenames_iter(&self) -> Box<dyn Iterator<Item = String> + '_> {
        Box::new(std::iter::once("fr/emtt.ftl".to_string()))
    }
}

#[test]
fn bool_words_are_localized() {
    let loader = FluentLanguageLoader::new("emtt", "fr".parse().unwrap());
    loader.load_languages(&FrenchCatalogue, &["fr".parse().unwrap()]).unwrap();
    assert_eq!(localize_bool(&loader, true), "oui");
    assert_eq!(localize_bool(&loader, false), "non");
}

#[test]
fn numbers_as_std_reads_them() {
    let c = |s: &str| s.chars().collect::<Vec<char>>();
    assert_eq!(parse_unsigned(&c("+ff"), 16), Some(255));
    assert_eq!(parse_unsigned(&c("ffffffff"), 16), Some(u32::MAX));
    assert_eq!(parse_unsigned(&c("100000000"), 16), None);
    assert_eq!(parse_unsigned(&c("-1"), 10), None);
    assert_eq!(parse_unsigned(&c(""), 10), None);
    assert_eq!(parse_signed(&c("-2147483648")), Some(i32::MIN));
    assert_eq!(parse_signed(&c("2147483648")), None);
    assert_eq!(parse_signed(&c("+12")), Some(12));
    assert_eq!(parse_signed(&c("-")), None);
}

#[test]
fn config_holds_telegram_settings() {
    let c = Config { telegram: TelegramConfig { bot_token: "SECRET-REDACTED".to_string(), chat_id: "42".to_string() } };
    assert_eq!(c.telegram.chat_id, "42");
}
