use markterm::pages::{get_languages, page_candidates};

#[test]
fn should_return_en_if_no_variable_set() {
    let result = get_languages(None, None);
    assert_eq!("en", result[0]);
    assert_eq!(1, result.len())
}

#[test]
fn should_extract_language_from_lang() {
    let result = get_languages(Some("de_US.UTF-8"), None);
    assert_eq!("de", result[0]);
    assert_eq!("en", result[1]);
}

#[test]
fn should_merge_language_and_lang() {
    let language = "it:de:cz";
    let lang = "fr";
    let result = get_languages(Some(lang), Some(language));
    assert_eq!("it", result[0]);
    assert_eq!("de", result[1]);
    assert_eq!("cz", result[2]);
    assert_eq!("fr", result[3]);
    assert_eq!("en", result[4]);
    assert_eq!(5, result.len());
}

#[test]
fn should_merge_language_and_lang_without_duplicates() {
    let language = "it:de:cz:fr";
    let lang = "fr";
    let result = get_languages(Some(lang), Some(language));
    assert_eq!("it", result[0]);
    assert_eq!("de", result[1]);
    assert_eq!("cz", result[2]);
    assert_eq!("fr", result[3]);
    assert_eq!("en", result[4]);
    assert_eq!(5, result.len());
}

#[test]
fn get_language_should_ignore_language_if_lang_not_set() {
    let lang = "it:de:cz";
    let result = get_languages(None, Some(lang));
    assert_eq!("en", result[0]);
    assert_eq!(1, result.len());
}

#[test]
fn repeated_and_empty_entries_are_kept_once() {
    let result = get_languages(Some("en_GB"), Some("de::de:en"));
    assert_eq!(result, vec!["de".to_string(), "".to_string(), "en".to_string()]);
}

#[test]
fn english_listed_first_stays_first() {
    let result = get_languages(Some("pt_BR"), Some("en"));
    assert_eq!(result, vec!["en".to_string(), "pt".to_string()]);
}

#[test]
fn candidates_try_every_folder_per_language() {
    let langs = vec!["de".to_string(), "en".to_string()];
    let c = page_candidates("tar", Some("osx"), "linux", &langs);
    assert_eq!(c.len(), 20);
    assert_eq!(c[0], ("pages.de/osx/tar.md".to_string(), "osx".to_string()));
    assert_eq!(c[1], ("pages.de/common/tar.md".to_string(), "common".to_string()));
    assert_eq!(c[9], ("pages.de/windows/tar.md".to_string(), "windows".to_string()));
    assert_eq!(c[10], ("pages.en/osx/tar.md".to_string(), "osx".to_string()));
    assert_eq!(c[14], ("pages.en/linux/tar.md".to_string(), "linux".to_string()));
}

#[test]
fn candidates_start_with_running_system_by_default() {
    let langs = vec!["en".to_string()];
    let c = page_candidates("git-log", None, "linux", &langs);
    assert_eq!(c[0], ("pages.en/linux/git-log.md".to_string(), "linux".to_string()));
    assert_eq!(c.len(), 10);
    assert!(page_candidates("x", None, "linux", &vec![]).is_empty());
}
