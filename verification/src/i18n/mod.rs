//! 极简的界面文案本地化。
//!
//! [`translate`] 的参数是英文原文（同时也是查找键）；当前语言为中文且
//! 词典里有对应条目时返回中文，否则原样返回英文。这样即使漏翻也不会出错。
//!
//! 词典按界面区域拆成多个文件（`zh_*.rs`），每个文件导出一个 `ENTRIES` 数组。
use vstd::prelude::*;
use crate::text::{ascii_lower, chars_eq, chars_of, str_eq, to_ascii_lowercase, trim_chars, trim_vec};

pub mod zh_help;

verus! {

#[derive(Clone, Copy, PartialEq, Eq, Debug, Structural)]
pub enum Language {
    English,
    Chinese,
}

/// The stored language setting: one byte, 1 for Chinese, anything else English.
#[derive(Debug)]
pub struct LanguageState {
    pub code: u8,
}

/// The byte that stands for a language.
pub open spec fn language_code(lang: Language) -> u8 {
    match lang {
        Language::English => 0,
        Language::Chinese => 1,
    }
}

/// The language a stored byte stands for.
pub open spec fn language_of(code: u8) -> Language {
    if code == 1 {
        Language::Chinese
    } else {
        Language::English
    }
}

/// 设置当前语言（启动时由配置调用一次）。
pub fn set_language(state: &mut LanguageState, lang: Language)
    ensures
        final(state).code == language_code(lang),
{
    state.code = match lang {
        Language::English => 0,
        Language::Chinese => 1,
    };
}

/// The current language.
pub fn language(state: &LanguageState) -> (r: Language)
    ensures
        r == language_of(state.code),
{
    if state.code == 1 {
        Language::Chinese
    } else {
        Language::English
    }
}

/// After setting a language, that language is the current one.
pub proof fn lemma_language_roundtrip(lang: Language)
    ensures
        language_of(language_code(lang)) == lang,
{
}

/// The language a setting names (ASCII case and surrounding whitespace ignored).
pub open spec fn parse_language_spec(s: Seq<char>) -> Option<Language> {
    let l = trim_chars(s).map_values(|c: char| ascii_lower(c));
    if l == "zh"@ || l == "zh-cn"@ || l == "zh_cn"@ || l == "cn"@ || l == "chinese"@ {
        Some(Language::Chinese)
    } else if l == "en"@ || l == "en-us"@ || l == "en_us"@ || l == "english"@ {
        Some(Language::English)
    } else {
        None
    }
}

/// 解析 `"zh"` / `"en"` 之类的字符串。
pub fn parse_language(s: &str) -> (r: Option<Language>)
    ensures
        r == parse_language_spec(s@),
{
    let cs = chars_of(s);
    let t = trim_vec(&cs);
    let mut l: Vec<char> = Vec::new();
    let mut i: usize = 0;
    while i < t.len()
        invariant
            i <= t.len(),
            l@ == t@.take(i as int).map_values(|c: char| ascii_lower(c)),
        decreases t.len() - i,
    {
        l.push(crate::text::lower_char(t[i]));
        i += 1;
        assert(l@ =~= t@.take(i as int).map_values(|c: char| ascii_lower(c)));
    }
    assert(t@.take(t.len() as int) =~= t@);
    if chars_eq(&l, "zh") || chars_eq(&l, "zh-cn") || chars_eq(&l, "zh_cn") || chars_eq(&l, "cn") || chars_eq(
        &l,
        "chinese",
    ) {
        Some(Language::Chinese)
    } else if chars_eq(&l, "en") || chars_eq(&l, "en-us") || chars_eq(&l, "en_us") || chars_eq(&l, "english") {
        Some(Language::English)
    } else {
        None
    }
}

/// The language the program starts in: the one the `WAVANALY_LANG`
/// environment setting names, else the one the configuration names, else Chinese.
pub open spec fn startup_language_spec(from_env: Option<Seq<char>>, config_language: Option<Seq<char>>) -> Language {
    let env = match from_env {
        Some(s) => parse_language_spec(s),
        None => None,
    };
    let cfg = match config_language {
        Some(s) => parse_language_spec(s),
        None => None,
    };
    match env {
        Some(l) => l,
        None => match cfg {
            Some(l) => l,
            None => Language::Chinese,
        },
    }
}

/// 语言选择优先级：环境变量 `WAVANALY_LANG`（`zh` / `en`）> 配置文件 `language` > 默认中文。
pub fn startup_language(from_env: Option<&str>, config_language: Option<&str>) -> (r: Language)
    ensures
        r == startup_language_spec(
            match from_env {
                Some(s) => Some(s@),
                None => None,
            },
            match config_language {
                Some(s) => Some(s@),
                None => None,
            },
        ),
{
    let env = match from_env {
        Some(s) => parse_language(s),
        None => None,
    };
    if let Some(l) = env {
        return l;
    }
    let cfg = match config_language {
        Some(s) => parse_language(s),
        None => None,
    };
    match cfg {
        Some(l) => l,
        None => Language::Chinese,
    }
}

impl Default for LanguageState {
    /// The setting before any is made: Chinese.
    fn default() -> (r: Self)
        ensures
            language_of(r.code) == Language::Chinese,
    {
        LanguageState { code: 1 }
    }
}

/// The dictionary entries as (English, Chinese) character sequences.
pub open spec fn dictionary() -> Seq<(Seq<char>, Seq<char>)> {
    zh_help::ENTRIES@.map_values(|e: (&'static str, &'static str)| (e.0@, e.1@))
}

/// The Chinese text of `key`: the last entry with that key wins.
pub open spec fn lookup(entries: Seq<(Seq<char>, Seq<char>)>, key: Seq<char>) -> Option<Seq<char>>
    decreases entries.len(),
{
    if entries.len() == 0 {
        None
    } else if entries.last().0 == key {
        Some(entries.last().1)
    } else {
        lookup(entries.drop_last(), key)
    }
}

/// What a label reads in a language: English labels are the keys themselves;
/// a Chinese label is the dictionary's entry, or the key when there is none.
pub open spec fn translate_spec(lang: Language, key: Seq<char>) -> Seq<char> {
    if lang == Language::English {
        key
    } else {
        match lookup(dictionary(), key) {
            Some(v) => v,
            None => key,
        }
    }
}

/// 翻译一段界面文案。找不到时返回原文。
pub fn translate<'a>(state: &LanguageState, key: &'a str) -> (r: &'a str)
    ensures
        r@ == translate_spec(language_of(state.code), key@),
{
    if language(state) == Language::English {
        return key;
    }
    let entries = zh_help::ENTRIES;
    let ghost d = dictionary();
    let mut i: usize = entries.len();
    assert(d.take(i as int) =~= d);
    while i > 0
        invariant
            i <= entries.len(),
            entries@ == zh_help::ENTRIES@,
            d == dictionary(),
            language_of(state.code) == Language::Chinese,
            lookup(d, key@) == lookup(d.take(i as int), key@),
        decreases i,
    {
        proof {
            assert(d.take(i as int).drop_last() =~= d.take(i - 1));
            assert(d.take(i as int).last() == (entries@[i - 1].0@, entries@[i - 1].1@));
        }
        if str_eq(entries[i - 1].0, key) {
            assert(lookup(d.take(i as int), key@) == Some(entries@[i - 1].1@));
            return entries[i - 1].1;
        }
        i -= 1;
    }
    key
}

} // verus!
