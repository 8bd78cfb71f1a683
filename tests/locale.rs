use formatto::locale::{get_locale_string, replace_text, LocaleCategory, LocaleTable};

fn example_locales() -> LocaleTable {
    let mut t = LocaleTable::new();
    t.insert(
        LocaleCategory::Parsing,
        "Failed to parse the document. [Line: {LINE_NUMBER}]".to_string(),
        "문서를 읽지 못했습니다. [줄: {LINE_NUMBER}]".to_string(),
    );
    t.insert(
        LocaleCategory::Parsing,
        "Failed to parse the document.".to_string(),
        "문서를 읽지 못했습니다.".to_string(),
    );
    t.insert(
        LocaleCategory::Formatting,
        "Failed to read options. Please make sure there is no option with an empty value."
            .to_string(),
        "옵션을 읽지 못했습니다. 값이 비어있는 옵션이 없는지 다시 확인해주세요.".to_string(),
    );
    t.insert(
        LocaleCategory::Formatting,
        "Failed to read options. Some of them are possibly not positive number values."
            .to_string(),
        "설정을 읽지 못했습니다. 양수가 아닌 값이 있을수도 있습니다.".to_string(),
    );
    t.insert(
        LocaleCategory::Formatting,
        "Failed to read option properties.".to_string(),
        "옵션 프로퍼티를 읽지 못했습니다.".to_string(),
    );
    t
}

#[test]
fn parsing_1() {
    let locales = example_locales();
    let mut left = get_locale_string(
        &locales,
        LocaleCategory::Parsing,
        "Failed to parse the document. [Line: {LINE_NUMBER}]",
    );
    left = replace_text(left.as_str(), "{LINE_NUMBER}", &vec!['1']);
    let right = String::from("문서를 읽지 못했습니다. [줄: 1]");
    assert_eq!(left, right);
}

#[test]
fn parsing_2() {
    let locales = example_locales();
    let left = get_locale_string(&locales, LocaleCategory::Parsing, "Failed to parse the document.");
    let right = String::from("문서를 읽지 못했습니다.");
    assert_eq!(left, right);
}

#[test]
fn formatting_1() {
    let locales = example_locales();
    let left = get_locale_string(
        &locales,
        LocaleCategory::Formatting,
        "Failed to read options. Please make sure there is no option with an empty value.",
    );
    let right =
        String::from("옵션을 읽지 못했습니다. 값이 비어있는 옵션이 없는지 다시 확인해주세요.");
    assert_eq!(left, right);
}

#[test]
fn formatting_2() {
    let locales = example_locales();
    let left =
        get_locale_string(&locales, LocaleCategory::Formatting, "Failed to read option properties.");
    let right = String::from("옵션 프로퍼티를 읽지 못했습니다.");
    assert_eq!(left, right);
}

#[test]
fn missing_or_empty_translation_falls_back_to_key() {
    let mut locales = example_locales();
    assert_eq!(get_locale_string(&locales, LocaleCategory::Parsing, "Unknown key"), "Unknown key");
    locales.insert(LocaleCategory::Parsing, "Blank".to_string(), String::new());
    assert_eq!(get_locale_string(&locales, LocaleCategory::Parsing, "Blank"), "Blank");
    assert_eq!(
        get_locale_string(&locales, LocaleCategory::Formatting, "Failed to parse the document."),
        "Failed to parse the document."
    );
}

#[test]
fn replace_text_replaces_every_occurrence() {
    assert_eq!(replace_text("a{X}b{X}", "{X}", &vec!['4', '2']), "a42b42");
    assert_eq!(replace_text("none here", "{X}", &vec!['1']), "none here");
}
