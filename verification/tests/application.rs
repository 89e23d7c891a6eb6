use dxtr_imgs::application::{EnglishTranslator, MessageKey, Translator};

#[test]
fn english_translator_texts() {
    let tr = EnglishTranslator;
    assert_eq!(tr.tr(MessageKey::AppName), "Dextryx Images");
    assert_eq!(tr.tr(MessageKey::Workplace), "Workplace");
    assert_eq!(tr.tr(MessageKey::Catalog), "Catalog");
    assert_eq!(tr.tr(MessageKey::AllPhotos), "All photos");
    assert_eq!(tr.tr(MessageKey::Missing), "Missing");
    assert_eq!(tr.tr(MessageKey::RecentImports), "Recent imports");
    assert_eq!(tr.tr(MessageKey::Develop), "Develop");
}

#[test]
fn default_english_translator_translates() {
    let tr = EnglishTranslator::default();
    assert_eq!(tr.tr(MessageKey::Develop), "Develop");
}
