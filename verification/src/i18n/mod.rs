//! Interface languages: the user's choice (`Language`), the language that
//! is actually shown (`ResolvedLanguage`), detection of the system
//! language from locale tags, and lookup of translated texts.

pub mod keys;
pub mod locales;

pub use keys::TextKey;

use vstd::prelude::*;

use crate::text::{
    ascii_lower, chars_of, is_ascii_text, eq_chars, replace_char, replace_char_vec, seq_starts_with, starts_with_chars,
    to_lowercase, unicode_lowercase,
};
use locales::{translate, translation};

verus! {

/// The language chosen in the settings; `Auto` follows the system.
#[derive(Debug, Clone, Copy, PartialEq, Eq, Structural, Default)]
pub enum Language {
    #[default]
    Auto,
    En,
    PtBr,
    PtPt,
    Es,
    Fr,
    De,
    It,
    Ja,
    Zh,
    ZhTw,
    Ru,
    Ko,
    Nl,
    Pl,
    Tr,
}

/// A language in which the interface is actually shown.
#[derive(Debug, Clone, Copy, PartialEq, Eq, Structural)]
pub enum ResolvedLanguage {
    En,
    PtBr,
    PtPt,
    Es,
    Fr,
    De,
    It,
    Ja,
    Zh,
    ZhTw,
    Ru,
    Ko,
    Nl,
    Pl,
    Tr,
}

/// The resolved language that an explicit choice stands for; `None` for `Auto`.
pub open spec fn explicit_language(lang: Language) -> Option<ResolvedLanguage> {
    match lang {
        Language::Auto => None,
        Language::En => Some(ResolvedLanguage::En),
        Language::PtBr => Some(ResolvedLanguage::PtBr),
        Language::PtPt => Some(ResolvedLanguage::PtPt),
        Language::Es => Some(ResolvedLanguage::Es),
        Language::Fr => Some(ResolvedLanguage::Fr),
        Language::De => Some(ResolvedLanguage::De),
        Language::It => Some(ResolvedLanguage::It),
        Language::Ja => Some(ResolvedLanguage::Ja),
        Language::Zh => Some(ResolvedLanguage::Zh),
        Language::ZhTw => Some(ResolvedLanguage::ZhTw),
        Language::Ru => Some(ResolvedLanguage::Ru),
        Language::Ko => Some(ResolvedLanguage::Ko),
        Language::Nl => Some(ResolvedLanguage::Nl),
        Language::Pl => Some(ResolvedLanguage::Pl),
        Language::Tr => Some(ResolvedLanguage::Tr),
    }
}

/// The explicit choice that selects a resolved language.
pub open spec fn choice_of(lang: ResolvedLanguage) -> Language {
    match lang {
        ResolvedLanguage::En => Language::En,
        ResolvedLanguage::PtBr => Language::PtBr,
        ResolvedLanguage::PtPt => Language::PtPt,
        ResolvedLanguage::Es => Language::Es,
        ResolvedLanguage::Fr => Language::Fr,
        ResolvedLanguage::De => Language::De,
        ResolvedLanguage::It => Language::It,
        ResolvedLanguage::Ja => Language::Ja,
        ResolvedLanguage::Zh => Language::Zh,
        ResolvedLanguage::ZhTw => Language::ZhTw,
        ResolvedLanguage::Ru => Language::Ru,
        ResolvedLanguage::Ko => Language::Ko,
        ResolvedLanguage::Nl => Language::Nl,
        ResolvedLanguage::Pl => Language::Pl,
        ResolvedLanguage::Tr => Language::Tr,
    }
}

/// The language that a lowercased locale tag, with `_` already turned into
/// `-`, designates; prefixes are tried in this order.
pub open spec fn tag_language(lower: Seq<char>) -> Option<ResolvedLanguage> {
    if seq_starts_with(lower, "pt-br"@) || lower == "pt"@ {
        Some(ResolvedLanguage::PtBr)
    } else if seq_starts_with(lower, "pt-pt"@) {
        Some(ResolvedLanguage::PtPt)
    } else if seq_starts_with(lower, "es"@) {
        Some(ResolvedLanguage::Es)
    } else if seq_starts_with(lower, "fr"@) {
        Some(ResolvedLanguage::Fr)
    } else if seq_starts_with(lower, "de"@) {
        Some(ResolvedLanguage::De)
    } else if seq_starts_with(lower, "it"@) {
        Some(ResolvedLanguage::It)
    } else if seq_starts_with(lower, "ja"@) {
        Some(ResolvedLanguage::Ja)
    } else if seq_starts_with(lower, "zh-tw"@) || seq_starts_with(lower, "zh-hk"@) {
        Some(ResolvedLanguage::ZhTw)
    } else if seq_starts_with(lower, "zh"@) {
        Some(ResolvedLanguage::Zh)
    } else if seq_starts_with(lower, "ru"@) {
        Some(ResolvedLanguage::Ru)
    } else if seq_starts_with(lower, "ko"@) {
        Some(ResolvedLanguage::Ko)
    } else if seq_starts_with(lower, "nl"@) {
        Some(ResolvedLanguage::Nl)
    } else if seq_starts_with(lower, "pl"@) {
        Some(ResolvedLanguage::Pl)
    } else if seq_starts_with(lower, "tr"@) {
        Some(ResolvedLanguage::Tr)
    } else if seq_starts_with(lower, "en"@) {
        Some(ResolvedLanguage::En)
    } else {
        None
    }
}

/// A locale tag as the detection compares it: lowercased, `_` read as `-`.
pub open spec fn normalized_tag(tag: Seq<char>) -> Seq<char> {
    replace_char(unicode_lowercase(tag), '_', '-')
}

/// The language of a raw locale tag, if it designates one.
pub open spec fn locale_language(tag: Seq<char>) -> Option<ResolvedLanguage> {
    tag_language(normalized_tag(tag))
}

/// The first fallback locale, from index `i` on, that designates a language.
pub open spec fn first_fallback_language(fallbacks: Seq<Option<String>>, i: int) -> Option<
    ResolvedLanguage,
>
    decreases fallbacks.len() - i,
{
    if i < 0 || i >= fallbacks.len() {
        None
    } else {
        match fallbacks[i] {
            Some(v) => match locale_language(v@) {
                Some(l) => Some(l),
                None => first_fallback_language(fallbacks, i + 1),
            },
            None => first_fallback_language(fallbacks, i + 1),
        }
    }
}

/// The language detected from the system's preferred locale and the
/// fallback locales, in that order; English when none designates one.
pub open spec fn detected_language(system: Option<String>, fallbacks: Seq<Option<String>>) -> ResolvedLanguage {
    match system {
        Some(s) if locale_language(s@) is Some => locale_language(s@)->0,
        _ => match first_fallback_language(fallbacks, 0) {
            Some(l) => l,
            None => ResolvedLanguage::En,
        },
    }
}

/// Where a language tag, already lowercased, leads (see `tag_language`).
pub fn match_lowercase_tag(lower: &str) -> (res: Option<ResolvedLanguage>)
    ensures
        res == tag_language(replace_char(lower@, '_', '-')),
{
    let raw = chars_of(lower);
    let l = replace_char_vec(&raw, '_', '-');
    if starts_with_chars(&l, "pt-br") || eq_chars(&l, "pt") {
        Some(ResolvedLanguage::PtBr)
    } else if starts_with_chars(&l, "pt-pt") {
        Some(ResolvedLanguage::PtPt)
    } else if starts_with_chars(&l, "es") {
        Some(ResolvedLanguage::Es)
    } else if starts_with_chars(&l, "fr") {
        Some(ResolvedLanguage::Fr)
    } else if starts_with_chars(&l, "de") {
        Some(ResolvedLanguage::De)
    } else if starts_with_chars(&l, "it") {
        Some(ResolvedLanguage::It)
    } else if starts_with_chars(&l, "ja") {
        Some(ResolvedLanguage::Ja)
    } else if starts_with_chars(&l, "zh-tw") || starts_with_chars(&l, "zh-hk") {
        Some(ResolvedLanguage::ZhTw)
    } else if starts_with_chars(&l, "zh") {
        Some(ResolvedLanguage::Zh)
    } else if starts_with_chars(&l, "ru") {
        Some(ResolvedLanguage::Ru)
    } else if starts_with_chars(&l, "ko") {
        Some(ResolvedLanguage::Ko)
    } else if starts_with_chars(&l, "nl") {
        Some(ResolvedLanguage::Nl)
    } else if starts_with_chars(&l, "pl") {
        Some(ResolvedLanguage::Pl)
    } else if starts_with_chars(&l, "tr") {
        Some(ResolvedLanguage::Tr)
    } else if starts_with_chars(&l, "en") {
        Some(ResolvedLanguage::En)
    } else {
        None
    }
}

/// The language that a raw locale tag (such as `pt_BR.UTF-8`) designates.
pub fn language_of_locale(tag: &str) -> (res: Option<ResolvedLanguage>)
    ensures
        res == locale_language(tag@),
        is_ascii_text(tag@) ==> res == tag_language(
            replace_char(tag@.map_values(|c: char| ascii_lower(c)), '_', '-'),
        ),
{
    let lower = to_lowercase(tag);
    match_lowercase_tag(lower.as_str())
}

/// Calls `sys_locale::get_locale`: the system's most preferred locale, if
/// it can be read. What it returns depends on the machine and the
/// environment, so nothing is stated of it.
#[verifier::external_body]
fn system_locale() -> (res: Option<String>) {
    sys_locale::get_locale()
}

/// Calls `sys_locale::get_locales`: all locales that the system prefers,
/// most preferred first. What it returns depends on the machine and the
/// environment, so nothing is stated of it.
#[verifier::external_body]
fn system_locales() -> (res: Vec<Option<String>>) {
    sys_locale::get_locales().map(Some).collect()
}

impl Language {
    /// Every choice, `Auto` first, each exactly once.
    pub fn all() -> (res: Vec<Language>)
        ensures
            res@.len() == 16,
            res@[0] == Language::Auto,
            forall|i: int| 1 <= i < 16 ==> explicit_language(#[trigger] res@[i]) is Some,
            forall|i: int, j: int| 0 <= i < j < 16 ==> res@[i] != res@[j],
            forall|l: Language| #[trigger] res@.contains(l),
    {
        let v = vec![
            Language::Auto,
            Language::En,
            Language::PtBr,
            Language::PtPt,
            Language::Es,
            Language::Fr,
            Language::De,
            Language::It,
            Language::Ja,
            Language::Zh,
            Language::ZhTw,
            Language::Ru,
            Language::Ko,
            Language::Nl,
            Language::Pl,
            Language::Tr,
        ];
        assert forall|l: Language| #[trigger] v@.contains(l) by {
            match l {
                Language::Auto => assert(v@[0] == l),
                Language::En => assert(v@[1] == l),
                Language::PtBr => assert(v@[2] == l),
                Language::PtPt => assert(v@[3] == l),
                Language::Es => assert(v@[4] == l),
                Language::Fr => assert(v@[5] == l),
                Language::De => assert(v@[6] == l),
                Language::It => assert(v@[7] == l),
                Language::Ja => assert(v@[8] == l),
                Language::Zh => assert(v@[9] == l),
                Language::ZhTw => assert(v@[10] == l),
                Language::Ru => assert(v@[11] == l),
                Language::Ko => assert(v@[12] == l),
                Language::Nl => assert(v@[13] == l),
                Language::Pl => assert(v@[14] == l),
                Language::Tr => assert(v@[15] == l),
            }
        }
        v
    }

    /// The language detected from a system locale and fallback locales:
    /// the first of them, in order, that designates a language; English
    /// when none does.
    pub fn detect_from(system: Option<String>, fallbacks: Vec<Option<String>>) -> (res: ResolvedLanguage)
        ensures
            res == detected_language(system, fallbacks@),
    {
        if let Some(s) = &system {
            if let Some(l) = language_of_locale(s.as_str()) {
                return l;
            }
        }
        let mut i: usize = 0;
        while i < fallbacks.len()
            invariant
                i <= fallbacks.len(),
                first_fallback_language(fallbacks@, 0) == first_fallback_language(fallbacks@, i as int),
                match system {
                    Some(s) => locale_language(s@) is None,
                    None => true,
                },
            decreases fallbacks.len() - i,
        {
            if let Some(v) = &fallbacks[i] {
                if let Some(l) = language_of_locale(v.as_str()) {
                    return l;
                }
            }
            i = i + 1;
        }
        ResolvedLanguage::En
    }

    /// What the library itself reads of the system: the preferred locale
    /// first, then the other locales that `sys_locale` lists, then English.
    /// The locale environment variables cannot be read here; a caller that
    /// has them passes them to `resolve_from`.
    fn system_language() -> ResolvedLanguage {
        Self::detect_from(system_locale(), system_locales())
    }

    /// The language shown for this choice, with the system's preferred
    /// locale and the fallback locales (such as `LC_ALL`, `LC_MESSAGES` and
    /// `LANG`, in that order) given: the chosen one, or for `Auto` the one
    /// that `detect_from` finds.
    pub fn resolve_from(self, system: Option<String>, fallbacks: Vec<Option<String>>) -> (res: ResolvedLanguage)
        ensures
            res == match explicit_language(self) {
                Some(l) => l,
                None => detected_language(system, fallbacks@),
            },
    {
        match self {
            Language::Auto => Self::detect_from(system, fallbacks),
            _ => self.resolve(),
        }
    }

    /// The language in which the interface is shown for this choice:
    /// the chosen one, or the system's for `Auto`.
    pub fn resolve(self) -> (res: ResolvedLanguage)
        ensures
            explicit_language(self) matches Some(l) ==> res == l,
    {
        match self {
            Language::Auto => Self::system_language(),
            Language::En => ResolvedLanguage::En,
            Language::PtBr => ResolvedLanguage::PtBr,
            Language::PtPt => ResolvedLanguage::PtPt,
            Language::Es => ResolvedLanguage::Es,
            Language::Fr => ResolvedLanguage::Fr,
            Language::De => ResolvedLanguage::De,
            Language::It => ResolvedLanguage::It,
            Language::Ja => ResolvedLanguage::Ja,
            Language::Zh => ResolvedLanguage::Zh,
            Language::ZhTw => ResolvedLanguage::ZhTw,
            Language::Ru => ResolvedLanguage::Ru,
            Language::Ko => ResolvedLanguage::Ko,
            Language::Nl => ResolvedLanguage::Nl,
            Language::Pl => ResolvedLanguage::Pl,
            Language::Tr => ResolvedLanguage::Tr,
        }
    }

    /// The text of `key` in the language that this choice resolves to.
    pub fn t(self, key: TextKey) -> (res: &'static str)
        ensures
            explicit_language(self) matches Some(l) ==> res@ == translation(l, key),
            exists|l: ResolvedLanguage| res@ == translation(l, key),
    {
        let r = self.resolve();
        translate(r, key)
    }

    /// The name under which this choice is listed, written in its own
    /// language; `Auto` is listed as "system default" in `current_lang`.
    pub fn display_name(self, current_lang: Language) -> (res: &'static str)
        ensures
            self != Language::Auto ==> res@ == native_name(self),
            self == Language::Auto ==> (explicit_language(current_lang) matches Some(l) ==> res@
                == translation(l, TextKey::SystemDefault)),
            self == Language::Auto ==> exists|l: ResolvedLanguage|
                res@ == translation(l, TextKey::SystemDefault),
    {
        match self {
            Language::Auto => current_lang.t(TextKey::SystemDefault),
            Language::En => "English",
            Language::PtBr => "Português (Brasil)",
            Language::PtPt => "Português (Portugal)",
            Language::Es => "Español",
            Language::Fr => "Français",
            Language::De => "Deutsch",
            Language::It => "Italiano",
            Language::Ja => "日本語",
            Language::Zh => "中文 (简体)",
            Language::ZhTw => "中文 (繁體)",
            Language::Ru => "Русский",
            Language::Ko => "한국어",
            Language::Nl => "Nederlands",
            Language::Pl => "Polski",
            Language::Tr => "Türkçe",
        }
    }
}

/// The name of an explicit choice in its own language.
pub open spec fn native_name(lang: Language) -> Seq<char> {
    match lang {
        Language::Auto => Seq::empty(),
        Language::En => "English"@,
        Language::PtBr => "Português (Brasil)"@,
        Language::PtPt => "Português (Portugal)"@,
        Language::Es => "Español"@,
        Language::Fr => "Français"@,
        Language::De => "Deutsch"@,
        Language::It => "Italiano"@,
        Language::Ja => "日本語"@,
        Language::Zh => "中文 (简体)"@,
        Language::ZhTw => "中文 (繁體)"@,
        Language::Ru => "Русский"@,
        Language::Ko => "한국어"@,
        Language::Nl => "Nederlands"@,
        Language::Pl => "Polski"@,
        Language::Tr => "Türkçe"@,
    }
}

/// Every shown language is reached by exactly one explicit choice, and only
/// `Auto` leaves the language to the system.
pub proof fn lemma_choice_resolution_is_bijective(a: Language, b: Language, r: ResolvedLanguage)
    ensures
        explicit_language(choice_of(r)) == Some(r),
        (explicit_language(a) is None) <==> a == Language::Auto,
        explicit_language(a) is Some && explicit_language(a) == explicit_language(b) ==> a == b,
        explicit_language(a) matches Some(l) ==> choice_of(l) == a,
{
}

/// Looking a text up through a choice is looking it up in the table of the
/// language the choice stands for; for two choices that resolve alike the
/// texts agree.
pub proof fn lemma_text_follows_resolution(a: Language, b: Language, key: TextKey)
    requires
        explicit_language(a) is Some,
        explicit_language(a) == explicit_language(b),
    ensures
        a == b,
        translation(explicit_language(a)->0, key) == translation(explicit_language(b)->0, key),
{
}

/// A locale that designates a language decides the detection, whatever the
/// fallbacks hold; with no usable locale at all the interface is English.
pub proof fn lemma_detection_priority(system: Option<String>, fallbacks: Seq<Option<String>>)
    ensures
        (system matches Some(s) && locale_language(s@) is Some) ==> detected_language(
            system,
            fallbacks,
        ) == locale_language(system->0@)->0,
        (forall|i: int| 0 <= i < fallbacks.len() ==> #[trigger] fallbacks[i] is None) && system
            is None ==> detected_language(system, fallbacks) == ResolvedLanguage::En,
{
    if (forall|i: int| 0 <= i < fallbacks.len() ==> #[trigger] fallbacks[i] is None) {
        lemma_no_fallback(fallbacks, 0);
    }
}

proof fn lemma_no_fallback(fallbacks: Seq<Option<String>>, i: int)
    requires
        forall|j: int| 0 <= j < fallbacks.len() ==> #[trigger] fallbacks[j] is None,
    ensures
        first_fallback_language(fallbacks, i) is None,
    decreases fallbacks.len() - i,
{
    if 0 <= i < fallbacks.len() {
        lemma_no_fallback(fallbacks, i + 1);
    }
}


/// The tag begins with the two letters `a` and `b`.
pub open spec fn begins_with(t: Seq<char>, a: char, b: char) -> bool {
    t.len() >= 2 && t[0] == a && t[1] == b
}

/// Which language a lowercased tag designates, by the letters it begins
/// with: `es`, `fr`, `de`, `it`, `ja`, `ru`, `ko`, `nl`, `pl`, `tr` and `en`
/// each designate their language whatever follows; `zh` designates
/// Traditional Chinese after `zh-tw` or `zh-hk` and Simplified Chinese
/// otherwise; `pt-br` and a bare `pt` designate Brazilian Portuguese,
/// `pt-pt` European Portuguese; a tag whose first letter begins none of
/// these codes designates nothing.
pub proof fn lemma_tag_prefixes_decide(t: Seq<char>)
    ensures
        begins_with(t, 'e', 's') ==> tag_language(t) == Some(ResolvedLanguage::Es),
        begins_with(t, 'f', 'r') ==> tag_language(t) == Some(ResolvedLanguage::Fr),
        begins_with(t, 'd', 'e') ==> tag_language(t) == Some(ResolvedLanguage::De),
        begins_with(t, 'i', 't') ==> tag_language(t) == Some(ResolvedLanguage::It),
        begins_with(t, 'j', 'a') ==> tag_language(t) == Some(ResolvedLanguage::Ja),
        begins_with(t, 'r', 'u') ==> tag_language(t) == Some(ResolvedLanguage::Ru),
        begins_with(t, 'k', 'o') ==> tag_language(t) == Some(ResolvedLanguage::Ko),
        begins_with(t, 'n', 'l') ==> tag_language(t) == Some(ResolvedLanguage::Nl),
        begins_with(t, 'p', 'l') ==> tag_language(t) == Some(ResolvedLanguage::Pl),
        begins_with(t, 't', 'r') ==> tag_language(t) == Some(ResolvedLanguage::Tr),
        begins_with(t, 'e', 'n') ==> tag_language(t) == Some(ResolvedLanguage::En),
        begins_with(t, 'z', 'h') ==> tag_language(t) == if t.len() >= 5 && t[2] == '-' && ((t[3] == 't'
            && t[4] == 'w') || (t[3] == 'h' && t[4] == 'k')) {
            Some(ResolvedLanguage::ZhTw)
        } else {
            Some(ResolvedLanguage::Zh)
        },
        t == seq!['p', 't'] ==> tag_language(t) == Some(ResolvedLanguage::PtBr),
        t.len() >= 5 && begins_with(t, 'p', 't') && t[2] == '-' && t[3] == 'b' && t[4] == 'r' ==> tag_language(t)
            == Some(ResolvedLanguage::PtBr),
        t.len() >= 5 && begins_with(t, 'p', 't') && t[2] == '-' && t[3] == 'p' && t[4] == 't' ==> tag_language(t)
            == Some(ResolvedLanguage::PtPt),
        t.len() == 0 || !(t[0] == 'e' || t[0] == 'f' || t[0] == 'd' || t[0] == 'i' || t[0] == 'j' || t[0] == 'r'
            || t[0] == 'k' || t[0] == 'n' || t[0] == 'p' || t[0] == 't' || t[0] == 'z') ==> tag_language(t) is None,
{
    reveal_strlit("pt-br");
    reveal_strlit("pt");
    reveal_strlit("pt-pt");
    reveal_strlit("es");
    reveal_strlit("fr");
    reveal_strlit("de");
    reveal_strlit("it");
    reveal_strlit("ja");
    reveal_strlit("zh-tw");
    reveal_strlit("zh-hk");
    reveal_strlit("zh");
    reveal_strlit("ru");
    reveal_strlit("ko");
    reveal_strlit("nl");
    reveal_strlit("pl");
    reveal_strlit("tr");
    reveal_strlit("en");
    if t.len() >= 2 {
        assert(t.subrange(0, 2)[0] == t[0] && t.subrange(0, 2)[1] == t[1]);
        if t.len() >= 5 {
            assert(t.subrange(0, 5)[0] == t[0] && t.subrange(0, 5)[1] == t[1] && t.subrange(0, 5)[2] == t[2]
                && t.subrange(0, 5)[3] == t[3] && t.subrange(0, 5)[4] == t[4]);
            if begins_with(t, 'p', 't') && t[2] == '-' && t[3] == 'b' && t[4] == 'r' {
                assert(t.subrange(0, 5) =~= "pt-br"@);
            }
            if begins_with(t, 'p', 't') && t[2] == '-' && t[3] == 'p' && t[4] == 't' {
                assert(t.subrange(0, 5) =~= "pt-pt"@);
            }
            if begins_with(t, 'z', 'h') && t[2] == '-' && t[3] == 't' && t[4] == 'w' {
                assert(t.subrange(0, 5) =~= "zh-tw"@);
            }
            if begins_with(t, 'z', 'h') && t[2] == '-' && t[3] == 'h' && t[4] == 'k' {
                assert(t.subrange(0, 5) =~= "zh-hk"@);
            }
        }
        if begins_with(t, 'e', 's') { assert(t.subrange(0, 2) =~= "es"@); }
        if begins_with(t, 'f', 'r') { assert(t.subrange(0, 2) =~= "fr"@); }
        if begins_with(t, 'd', 'e') { assert(t.subrange(0, 2) =~= "de"@); }
        if begins_with(t, 'i', 't') { assert(t.subrange(0, 2) =~= "it"@); }
        if begins_with(t, 'j', 'a') { assert(t.subrange(0, 2) =~= "ja"@); }
        if begins_with(t, 'z', 'h') { assert(t.subrange(0, 2) =~= "zh"@); }
        if begins_with(t, 'r', 'u') { assert(t.subrange(0, 2) =~= "ru"@); }
        if begins_with(t, 'k', 'o') { assert(t.subrange(0, 2) =~= "ko"@); }
        if begins_with(t, 'n', 'l') { assert(t.subrange(0, 2) =~= "nl"@); }
        if begins_with(t, 'p', 'l') { assert(t.subrange(0, 2) =~= "pl"@); }
        if begins_with(t, 't', 'r') { assert(t.subrange(0, 2) =~= "tr"@); }
        if begins_with(t, 'e', 'n') { assert(t.subrange(0, 2) =~= "en"@); }
    }
    if t.len() >= 1 {
        assert(t.subrange(0, 1)[0] == t[0]);
    }
    if t == seq!['p', 't'] {
        assert(t =~= "pt"@);
    }
}

} // verus!
