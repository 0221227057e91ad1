//! The translation tables: one table per resolved language.

use vstd::prelude::*;

use super::keys::TextKey;
use super::ResolvedLanguage;

verus! {

/// The text that the table of `lang` holds for `key`.
pub open spec fn translation(lang: ResolvedLanguage, key: TextKey) -> Seq<char> {
    match lang {
        ResolvedLanguage::En => english_text(key),
        ResolvedLanguage::PtBr => portuguese_brazil_text(key),
        ResolvedLanguage::PtPt => portuguese_portugal_text(key),
        ResolvedLanguage::Es => spanish_text(key),
        ResolvedLanguage::Fr => french_text(key),
        ResolvedLanguage::De => german_text(key),
        ResolvedLanguage::It => italian_text(key),
        ResolvedLanguage::Ja => japanese_text(key),
        ResolvedLanguage::Zh => chinese_simplified_text(key),
        ResolvedLanguage::ZhTw => chinese_traditional_text(key),
        ResolvedLanguage::Ru => russian_text(key),
        ResolvedLanguage::Ko => korean_text(key),
        ResolvedLanguage::Nl => dutch_text(key),
        ResolvedLanguage::Pl => polish_text(key),
        ResolvedLanguage::Tr => turkish_text(key),
    }
}

/// The english table.
pub open spec fn english_text(key: TextKey) -> Seq<char> {
    match key {
        TextKey::WindowTitle => "Mesh"@,
        TextKey::WindowLoadingTitle => "Mesh - Loading..."@,
        TextKey::SystemDefault => "System Default"@,
        TextKey::About => "About"@,
    }
}

/// The portuguese brazil table.
pub open spec fn portuguese_brazil_text(key: TextKey) -> Seq<char> {
    match key {
        TextKey::WindowTitle => "Mesh"@,
        TextKey::WindowLoadingTitle => "Mesh - Carregando..."@,
        TextKey::SystemDefault => "Padrão do Sistema"@,
        TextKey::About => "Sobre"@,
    }
}

/// The portuguese portugal table.
pub open spec fn portuguese_portugal_text(key: TextKey) -> Seq<char> {
    match key {
        TextKey::WindowTitle => "Mesh"@,
        TextKey::WindowLoadingTitle => "Mesh - A carregar..."@,
        TextKey::SystemDefault => "Predefinição do Sistema"@,
        TextKey::About => "Sobre"@,
    }
}

/// The spanish table.
pub open spec fn spanish_text(key: TextKey) -> Seq<char> {
    match key {
        TextKey::WindowTitle => "Mesh"@,
        TextKey::WindowLoadingTitle => "Mesh - Cargando..."@,
        TextKey::SystemDefault => "Predeterminado del sistema"@,
        TextKey::About => "Acerca de"@,
    }
}

/// The french table.
pub open spec fn french_text(key: TextKey) -> Seq<char> {
    match key {
        TextKey::WindowTitle => "Mesh"@,
        TextKey::WindowLoadingTitle => "Mesh - Chargement..."@,
        TextKey::SystemDefault => "Par défaut du système"@,
        TextKey::About => "À propos"@,
    }
}

/// The german table.
pub open spec fn german_text(key: TextKey) -> Seq<char> {
    match key {
        TextKey::WindowTitle => "Mesh"@,
        TextKey::WindowLoadingTitle => "Mesh - Wird geladen..."@,
        TextKey::SystemDefault => "Systemstandard"@,
        TextKey::About => "Über"@,
    }
}

/// The italian table.
pub open spec fn italian_text(key: TextKey) -> Seq<char> {
    match key {
        TextKey::WindowTitle => "Mesh"@,
        TextKey::WindowLoadingTitle => "Mesh - Caricamento..."@,
        TextKey::SystemDefault => "Predefinito di sistema"@,
        TextKey::About => "Informazioni"@,
    }
}

/// The japanese table.
pub open spec fn japanese_text(key: TextKey) -> Seq<char> {
    match key {
        TextKey::WindowTitle => "Mesh"@,
        TextKey::WindowLoadingTitle => "Mesh - 読み込み中..."@,
        TextKey::SystemDefault => "システムのデフォルト"@,
        TextKey::About => "情報"@,
    }
}

/// The chinese simplified table.
pub open spec fn chinese_simplified_text(key: TextKey) -> Seq<char> {
    match key {
        TextKey::WindowTitle => "Mesh"@,
        TextKey::WindowLoadingTitle => "Mesh - 加载中..."@,
        TextKey::SystemDefault => "系统默认"@,
        TextKey::About => "关于"@,
    }
}

/// The chinese traditional table.
pub open spec fn chinese_traditional_text(key: TextKey) -> Seq<char> {
    match key {
        TextKey::WindowTitle => "Mesh"@,
        TextKey::WindowLoadingTitle => "Mesh - 載入中..."@,
        TextKey::SystemDefault => "系統預設"@,
        TextKey::About => "關於"@,
    }
}

/// The russian table.
pub open spec fn russian_text(key: TextKey) -> Seq<char> {
    match key {
        TextKey::WindowTitle => "Mesh"@,
        TextKey::WindowLoadingTitle => "Mesh - Загрузка..."@,
        TextKey::SystemDefault => "Системный"@,
        TextKey::About => "О программе"@,
    }
}

/// The korean table.
pub open spec fn korean_text(key: TextKey) -> Seq<char> {
    match key {
        TextKey::WindowTitle => "Mesh"@,
        TextKey::WindowLoadingTitle => "Mesh - 로딩 중..."@,
        TextKey::SystemDefault => "시스템 기본값"@,
        TextKey::About => "정보"@,
    }
}

/// The dutch table.
pub open spec fn dutch_text(key: TextKey) -> Seq<char> {
    match key {
        TextKey::WindowTitle => "Mesh"@,
        TextKey::WindowLoadingTitle => "Mesh - Laden..."@,
        TextKey::SystemDefault => "Systeemstandaard"@,
        TextKey::About => "Over"@,
    }
}

/// The polish table.
pub open spec fn polish_text(key: TextKey) -> Seq<char> {
    match key {
        TextKey::WindowTitle => "Mesh"@,
        TextKey::WindowLoadingTitle => "Mesh - Wczytywanie..."@,
        TextKey::SystemDefault => "Domyślny systemowy"@,
        TextKey::About => "O programie"@,
    }
}

/// The turkish table.
pub open spec fn turkish_text(key: TextKey) -> Seq<char> {
    match key {
        TextKey::WindowTitle => "Mesh"@,
        TextKey::WindowLoadingTitle => "Mesh - Yükleniyor..."@,
        TextKey::SystemDefault => "Sistem Varsayılanı"@,
        TextKey::About => "Hakkında"@,
    }
}

fn english(key: TextKey) -> (res: &'static str)
    ensures
        res@ == english_text(key),
{
    match key {
        TextKey::WindowTitle => "Mesh",
        TextKey::WindowLoadingTitle => "Mesh - Loading...",
        TextKey::SystemDefault => "System Default",
        TextKey::About => "About",
    }
}

fn portuguese_brazil(key: TextKey) -> (res: &'static str)
    ensures
        res@ == portuguese_brazil_text(key),
{
    match key {
        TextKey::WindowTitle => "Mesh",
        TextKey::WindowLoadingTitle => "Mesh - Carregando...",
        TextKey::SystemDefault => "Padrão do Sistema",
        TextKey::About => "Sobre",
    }
}

fn portuguese_portugal(key: TextKey) -> (res: &'static str)
    ensures
        res@ == portuguese_portugal_text(key),
{
    match key {
        TextKey::WindowTitle => "Mesh",
        TextKey::WindowLoadingTitle => "Mesh - A carregar...",
        TextKey::SystemDefault => "Predefinição do Sistema",
        TextKey::About => "Sobre",
    }
}

fn spanish(key: TextKey) -> (res: &'static str)
    ensures
        res@ == spanish_text(key),
{
    match key {
        TextKey::WindowTitle => "Mesh",
        TextKey::WindowLoadingTitle => "Mesh - Cargando...",
        TextKey::SystemDefault => "Predeterminado del sistema",
        TextKey::About => "Acerca de",
    }
}

fn french(key: TextKey) -> (res: &'static str)
    ensures
        res@ == french_text(key),
{
    match key {
        TextKey::WindowTitle => "Mesh",
        TextKey::WindowLoadingTitle => "Mesh - Chargement...",
        TextKey::SystemDefault => "Par défaut du système",
        TextKey::About => "À propos",
    }
}

fn german(key: TextKey) -> (res: &'static str)
    ensures
        res@ == german_text(key),
{
    match key {
        TextKey::WindowTitle => "Mesh",
        TextKey::WindowLoadingTitle => "Mesh - Wird geladen...",
        TextKey::SystemDefault => "Systemstandard",
        TextKey::About => "Über",
    }
}

fn italian(key: TextKey) -> (res: &'static str)
    ensures
        res@ == italian_text(key),
{
    match key {
        TextKey::WindowTitle => "Mesh",
        TextKey::WindowLoadingTitle => "Mesh - Caricamento...",
        TextKey::SystemDefault => "Predefinito di sistema",
        TextKey::About => "Informazioni",
    }
}

fn japanese(key: TextKey) -> (res: &'static str)
    ensures
        res@ == japanese_text(key),
{
    match key {
        TextKey::WindowTitle => "Mesh",
        TextKey::WindowLoadingTitle => "Mesh - 読み込み中...",
        TextKey::SystemDefault => "システムのデフォルト",
        TextKey::About => "情報",
    }
}

fn chinese_simplified(key: TextKey) -> (res: &'static str)
    ensures
        res@ == chinese_simplified_text(key),
{
    match key {
        TextKey::WindowTitle => "Mesh",
        TextKey::WindowLoadingTitle => "Mesh - 加载中...",
        TextKey::SystemDefault => "系统默认",
        TextKey::About => "关于",
    }
}

fn chinese_traditional(key: TextKey) -> (res: &'static str)
    ensures
        res@ == chinese_traditional_text(key),
{
    match key {
        TextKey::WindowTitle => "Mesh",
        TextKey::WindowLoadingTitle => "Mesh - 載入中...",
        TextKey::SystemDefault => "系統預設",
        TextKey::About => "關於",
    }
}

fn russian(key: TextKey) -> (res: &'static str)
    ensures
        res@ == russian_text(key),
{
    match key {
        TextKey::WindowTitle => "Mesh",
        TextKey::WindowLoadingTitle => "Mesh - Загрузка...",
        TextKey::SystemDefault => "Системный",
        TextKey::About => "О программе",
    }
}

fn korean(key: TextKey) -> (res: &'static str)
    ensures
        res@ == korean_text(key),
{
    match key {
        TextKey::WindowTitle => "Mesh",
        TextKey::WindowLoadingTitle => "Mesh - 로딩 중...",
        TextKey::SystemDefault => "시스템 기본값",
        TextKey::About => "정보",
    }
}

fn dutch(key: TextKey) -> (res: &'static str)
    ensures
        res@ == dutch_text(key),
{
    match key {
        TextKey::WindowTitle => "Mesh",
        TextKey::WindowLoadingTitle => "Mesh - Laden...",
        TextKey::SystemDefault => "Systeemstandaard",
        TextKey::About => "Over",
    }
}

fn polish(key: TextKey) -> (res: &'static str)
    ensures
        res@ == polish_text(key),
{
    match key {
        TextKey::WindowTitle => "Mesh",
        TextKey::WindowLoadingTitle => "Mesh - Wczytywanie...",
        TextKey::SystemDefault => "Domyślny systemowy",
        TextKey::About => "O programie",
    }
}

fn turkish(key: TextKey) -> (res: &'static str)
    ensures
        res@ == turkish_text(key),
{
    match key {
        TextKey::WindowTitle => "Mesh",
        TextKey::WindowLoadingTitle => "Mesh - Yükleniyor...",
        TextKey::SystemDefault => "Sistem Varsayılanı",
        TextKey::About => "Hakkında",
    }
}

/// The text of `key` in the table of `lang`.
pub fn translate(lang: ResolvedLanguage, key: TextKey) -> (res: &'static str)
    ensures
        res@ == translation(lang, key),
{
    match lang {
        ResolvedLanguage::En => english(key),
        ResolvedLanguage::PtBr => portuguese_brazil(key),
        ResolvedLanguage::PtPt => portuguese_portugal(key),
        ResolvedLanguage::Es => spanish(key),
        ResolvedLanguage::Fr => french(key),
        ResolvedLanguage::De => german(key),
        ResolvedLanguage::It => italian(key),
        ResolvedLanguage::Ja => japanese(key),
        ResolvedLanguage::Zh => chinese_simplified(key),
        ResolvedLanguage::ZhTw => chinese_traditional(key),
        ResolvedLanguage::Ru => russian(key),
        ResolvedLanguage::Ko => korean(key),
        ResolvedLanguage::Nl => dutch(key),
        ResolvedLanguage::Pl => polish(key),
        ResolvedLanguage::Tr => turkish(key),
    }
}

} // verus!
