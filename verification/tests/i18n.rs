use mesh_viewer::i18n::locales::translate;
use mesh_viewer::i18n::{language_of_locale, match_lowercase_tag, Language, ResolvedLanguage, TextKey};

#[test]
fn test_language_fallback_resolution() {
    assert_eq!(Language::En.resolve(), ResolvedLanguage::En);
    assert_eq!(Language::PtBr.resolve(), ResolvedLanguage::PtBr);
    assert_eq!(Language::Es.resolve(), ResolvedLanguage::Es);
    assert_eq!(Language::Zh.resolve(), ResolvedLanguage::Zh);

    let resolved_auto = Language::Auto.resolve();
    assert!(matches!(
        resolved_auto,
        ResolvedLanguage::En
            | ResolvedLanguage::PtBr
            | ResolvedLanguage::PtPt
            | ResolvedLanguage::Es
            | ResolvedLanguage::Fr
            | ResolvedLanguage::De
            | ResolvedLanguage::It
            | ResolvedLanguage::Ja
            | ResolvedLanguage::Zh
            | ResolvedLanguage::ZhTw
            | ResolvedLanguage::Ru
            | ResolvedLanguage::Ko
            | ResolvedLanguage::Nl
            | ResolvedLanguage::Pl
            | ResolvedLanguage::Tr
    ));
}

#[test]
fn test_translation_keys() {
    assert_eq!(Language::En.t(TextKey::About), "About");
    assert_eq!(Language::PtBr.t(TextKey::About), "Sobre");
    assert_eq!(Language::Es.t(TextKey::About), "Acerca de");
    assert_eq!(Language::Fr.t(TextKey::About), "À propos");
    assert_eq!(Language::De.t(TextKey::About), "Über");
    assert_eq!(Language::Zh.t(TextKey::About), "关于");
    assert_eq!(Language::ZhTw.t(TextKey::About), "關於");
    assert_eq!(Language::Ru.t(TextKey::About), "О программе");
    assert_eq!(Language::Ja.t(TextKey::About), "情報");
}

#[test]
fn explicit_choices_resolve_to_themselves() {
    let pairs = [
        (Language::PtPt, ResolvedLanguage::PtPt),
        (Language::Fr, ResolvedLanguage::Fr),
        (Language::De, ResolvedLanguage::De),
        (Language::It, ResolvedLanguage::It),
        (Language::Ja, ResolvedLanguage::Ja),
        (Language::ZhTw, ResolvedLanguage::ZhTw),
        (Language::Ru, ResolvedLanguage::Ru),
        (Language::Ko, ResolvedLanguage::Ko),
        (Language::Nl, ResolvedLanguage::Nl),
        (Language::Pl, ResolvedLanguage::Pl),
        (Language::Tr, ResolvedLanguage::Tr),
    ];
    for (choice, shown) in pairs {
        assert_eq!(choice.resolve(), shown);
        assert_eq!(choice.t(TextKey::About), translate(shown, TextKey::About));
    }
}

#[test]
fn all_lists_every_choice_once_auto_first() {
    let all = Language::all();
    assert_eq!(all.len(), 16);
    assert_eq!(all[0], Language::Auto);
    for i in 0..all.len() {
        for j in (i + 1)..all.len() {
            assert_ne!(all[i], all[j]);
        }
    }
    assert_eq!(Language::default(), Language::Auto);
}

#[test]
fn display_names_are_native() {
    assert_eq!(Language::En.display_name(Language::Fr), "English");
    assert_eq!(Language::PtBr.display_name(Language::En), "Português (Brasil)");
    assert_eq!(Language::Ja.display_name(Language::En), "日本語");
    assert_eq!(Language::Tr.display_name(Language::De), "Türkçe");
    assert_eq!(
        Language::Auto.display_name(Language::En),
        translate(ResolvedLanguage::En, TextKey::SystemDefault)
    );
    assert_eq!(
        Language::Auto.display_name(Language::De),
        translate(ResolvedLanguage::De, TextKey::SystemDefault)
    );
}

#[test]
fn locale_tags_designate_languages() {
    assert_eq!(language_of_locale("pt_BR"), Some(ResolvedLanguage::PtBr));
    assert_eq!(language_of_locale("PT"), Some(ResolvedLanguage::PtBr));
    assert_eq!(language_of_locale("pt-PT"), Some(ResolvedLanguage::PtPt));
    assert_eq!(language_of_locale("zh_HK"), Some(ResolvedLanguage::ZhTw));
    assert_eq!(language_of_locale("zh-TW"), Some(ResolvedLanguage::ZhTw));
    assert_eq!(language_of_locale("zh_CN"), Some(ResolvedLanguage::Zh));
    assert_eq!(language_of_locale("en-GB"), Some(ResolvedLanguage::En));
    assert_eq!(language_of_locale("tr_TR.UTF-8"), Some(ResolvedLanguage::Tr));
    assert_eq!(language_of_locale("ptx"), None);
    assert_eq!(language_of_locale("C"), None);
    assert_eq!(language_of_locale(""), None);
    assert_eq!(match_lowercase_tag("de-at"), Some(ResolvedLanguage::De));
    assert_eq!(match_lowercase_tag("DE"), None);
}

#[test]
fn detection_takes_the_first_usable_locale() {
    assert_eq!(
        Language::detect_from(Some("ko_KR".to_string()), vec![Some("fr_FR".to_string())]),
        ResolvedLanguage::Ko
    );
    assert_eq!(
        Language::detect_from(
            Some("C".to_string()),
            vec![None, Some("POSIX".to_string()), Some("nl_NL".to_string()), Some("fr".to_string())]
        ),
        ResolvedLanguage::Nl
    );
    assert_eq!(Language::detect_from(None, vec![Some("pl".to_string())]), ResolvedLanguage::Pl);
    assert_eq!(Language::detect_from(None, vec![]), ResolvedLanguage::En);
    assert_eq!(
        Language::detect_from(Some("xx".to_string()), vec![Some("yy".to_string())]),
        ResolvedLanguage::En
    );
}

#[test]
fn window_titles_exist_in_every_language() {
    let langs = [
        ResolvedLanguage::En,
        ResolvedLanguage::PtBr,
        ResolvedLanguage::PtPt,
        ResolvedLanguage::Es,
        ResolvedLanguage::Fr,
        ResolvedLanguage::De,
        ResolvedLanguage::It,
        ResolvedLanguage::Ja,
        ResolvedLanguage::Zh,
        ResolvedLanguage::ZhTw,
        ResolvedLanguage::Ru,
        ResolvedLanguage::Ko,
        ResolvedLanguage::Nl,
        ResolvedLanguage::Pl,
        ResolvedLanguage::Tr,
    ];
    for l in langs {
        assert!(!translate(l, TextKey::WindowTitle).is_empty());
        assert!(!translate(l, TextKey::WindowLoadingTitle).is_empty());
        assert!(!translate(l, TextKey::About).is_empty());
    }
    assert_eq!(translate(ResolvedLanguage::En, TextKey::WindowTitle), "Mesh");
}

#[test]
fn auto_resolves_from_the_given_locales() {
    let vars = |v: [Option<&str>; 3]| -> Vec<Option<String>> { v.iter().map(|x| x.map(|s| s.to_string())).collect() };
    assert_eq!(
        Language::Auto.resolve_from(Some("C".to_string()), vars([Some("POSIX"), None, Some("es_MX.UTF-8")])),
        ResolvedLanguage::Es
    );
    assert_eq!(Language::Auto.resolve_from(None, vars([None, None, Some("sv_SE")])), ResolvedLanguage::En);
    assert_eq!(Language::Auto.resolve_from(None, vars([None, None, Some("pt_AO")])), ResolvedLanguage::En);
    assert_eq!(
        Language::Auto.resolve_from(Some("de-DE".to_string()), vars([Some("fr_FR"), None, None])),
        ResolvedLanguage::De
    );
    assert_eq!(Language::Ko.resolve_from(Some("de-DE".to_string()), vars([None, None, None])), ResolvedLanguage::Ko);
}
