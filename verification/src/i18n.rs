//! Interface languages, the choice of translation file, and translation lookup
//! with `{name}` placeholders.

use vstd::prelude::*;

use crate::text::{chars_of, push_char, push_char_all, str_equals};

verus! {

/// Languages supported by Sleeve.
#[derive(Debug, Clone, Copy, PartialEq, Eq, Structural)]
pub enum Language {
    /// Follow the system locale.
    System,
    /// Simplified Chinese.
    ZhCN,
    /// English.
    En,
}

/// The locale name of a language (nothing for the system's).
pub open spec fn locale_of(language: Language) -> &'static str {
    match language {
        Language::System => "",
        Language::ZhCN => "zh_CN.UTF-8",
        Language::En => "en_US.UTF-8",
    }
}

/// The preference text that names a language.
pub open spec fn name_of(language: Language) -> &'static str {
    match language {
        Language::System => "system",
        Language::ZhCN => "zh-CN",
        Language::En => "en",
    }
}

/// Whether `value` begins with `first` then `second`, ignoring ASCII case. No
/// other character lowercases to an ASCII letter that this is asked of, so this
/// is what a prefix test on std's `to_lowercase` answers.
pub open spec fn begins_with_letters(value: Seq<char>, first: char, second: char) -> bool {
    &&& value.len() >= 2
    &&& ascii_lower(value[0]) == first
    &&& ascii_lower(value[1]) == second
}

/// The lowercase of an ASCII capital letter; any other character unchanged.
pub open spec fn ascii_lower(c: char) -> char {
    if 'A' <= c && c <= 'Z' {
        ((c as u32) + 32) as char
    } else {
        c
    }
}

/// Whether the locale variables `LC_ALL`, `LC_MESSAGES` and `LANG` (in that
/// order, each absent or holding its value) choose Chinese: the first variable
/// that is set to a non-empty value decides, Chinese when the value begins with
/// `zh` and English otherwise; an absent or empty variable is passed over (as the
/// C library treats it), and English is the default.
pub open spec fn chooses_chinese(values: Seq<Option<Seq<char>>>) -> bool
    decreases values.len(),
{
    if values.len() == 0 {
        false
    } else {
        match values[0] {
            Some(value) => if value.len() > 0 {
                begins_with_letters(value, 'z', 'h')
            } else {
                chooses_chinese(values.drop_first())
            },
            None => chooses_chinese(values.drop_first()),
        }
    }
}

/// The translation file that the locale variables choose.
pub open spec fn detected_file(values: Seq<Option<Seq<char>>>) -> &'static str {
    if chooses_chinese(values) { "zh-CN.json" } else { "en.json" }
}

/// The views of optional strings.
pub open spec fn option_views(values: Seq<Option<String>>) -> Seq<Option<Seq<char>>> {
    values.map_values(|value: Option<String>| match value {
        Some(s) => Some(s@),
        None => None,
    })
}

/// The translation file of a language; for the system's, the one that the locale
/// variables choose.
pub open spec fn file_of(language: Language, locale_variables: Seq<Option<Seq<char>>>) -> &'static str {
    match language {
        Language::System => detected_file(locale_variables),
        Language::ZhCN => "zh-CN.json",
        Language::En => "en.json",
    }
}

fn lower_ascii(c: char) -> (r: char)
    ensures
        r == ascii_lower(c),
{
    if 'A' <= c && c <= 'Z' {
        ((c as u32) + 32) as u8 as char
    } else {
        c
    }
}

fn begins_with(value: &str, first: char, second: char) -> (r: bool)
    ensures
        r == begins_with_letters(value@, first, second),
{
    let chars = chars_of(value);
    chars.len() >= 2 && lower_ascii(chars[0]) == first && lower_ascii(chars[1]) == second
}

/// Whether the locale variables choose Chinese (see [`chooses_chinese`]).
pub fn locale_chooses_chinese(locale_variables: &[Option<String>]) -> (r: bool)
    ensures
        r == chooses_chinese(option_views(locale_variables@)),
{
    let ghost values = option_views(locale_variables@);
    assert(values.skip(0) =~= values);
    let mut i: usize = 0;
    while i < locale_variables.len()
        invariant
            i <= locale_variables@.len(),
            values == option_views(locale_variables@),
            chooses_chinese(values) == chooses_chinese(values.skip(i as int)),
        decreases locale_variables@.len() - i,
    {
        let ghost rest = values.skip(i as int);
        assert(rest.drop_first() =~= values.skip(i + 1));
        assert(rest[0] == values[i as int]);
        if let Some(value) = &locale_variables[i] {
            if chars_of(value.as_str()).len() > 0 {
                return begins_with(value.as_str(), 'z', 'h');
            }
        }
        i = i + 1;
    }
    assert(values.skip(i as int).len() == 0);
    false
}

/// The translation file that the locale variables choose (see [`detected_file`]).
pub fn detect_file_name(locale_variables: &[Option<String>]) -> (r: &'static str)
    ensures
        r == detected_file(option_views(locale_variables@)),
{
    if locale_chooses_chinese(locale_variables) {
        "zh-CN.json"
    } else {
        "en.json"
    }
}

/// The language that a preference names: `zh-CN`, `en`, or anything else for the
/// system's.
pub open spec fn language_named(value: Seq<char>) -> Language {
    if value == "zh-CN"@ {
        Language::ZhCN
    } else if value == "en"@ {
        Language::En
    } else {
        Language::System
    }
}

/// The preference text of a language names that language again.
pub proof fn law_language_name_round_trips(language: Language)
    ensures
        language_named(name_of(language)@) == language,
{
    reveal_strlit("system");
    reveal_strlit("zh-CN");
    reveal_strlit("en");
    assert("system"@[0] != "zh-CN"@[0]);
    assert("system"@[0] != "en"@[0]);
    assert("zh-CN"@[0] != "en"@[0]);
}

impl Language {
    /// The locale name of the language.
    pub fn locale(self) -> (r: &'static str)
        ensures
            r == locale_of(self),
    {
        match self {
            Language::System => "",
            Language::ZhCN => "zh_CN.UTF-8",
            Language::En => "en_US.UTF-8",
        }
    }

    /// The translation file of the language. For the system language it is the
    /// one that the locale variables `LC_ALL`, `LC_MESSAGES` and `LANG` choose,
    /// given in that order.
    pub fn file_name(self, locale_variables: &[Option<String>]) -> (r: &'static str)
        ensures
            r == file_of(self, option_views(locale_variables@)),
    {
        match self {
            Language::System => detect_file_name(locale_variables),
            Language::ZhCN => "zh-CN.json",
            Language::En => "en.json",
        }
    }

    /// The language that a preference names (see [`language_named`]).
    pub fn from_str(value: &str) -> (r: Language)
        ensures
            r == language_named(value@),
    {
        if str_equals(value, "zh-CN") {
            Language::ZhCN
        } else if str_equals(value, "en") {
            Language::En
        } else {
            Language::System
        }
    }

    /// The preference text that names the language.
    pub fn as_str(self) -> (r: &'static str)
        ensures
            r == name_of(self),
    {
        match self {
            Language::System => "system",
            Language::ZhCN => "zh-CN",
            Language::En => "en",
        }
    }
}

/// The key and value pairs that serde_json reads from a JSON object whose values
/// are all strings, into a `BTreeMap<String, String>`.
pub uninterp spec fn json_string_map(text: Seq<char>) -> Option<Seq<(Seq<char>, Seq<char>)>>;

/// The views of pairs of strings.
pub open spec fn pair_views(pairs: Seq<(String, String)>) -> Seq<(Seq<char>, Seq<char>)> {
    pairs.map_values(|pair: (String, String)| (pair.0@, pair.1@))
}

/// serde_json `from_str::<BTreeMap<String, String>>`: the entries of a JSON object
/// of strings, or `None` when the text is not one.
#[verifier::external_body]
fn parse_string_map(text: &str) -> (r: Option<Vec<(String, String)>>)
    ensures
        match r {
            Some(pairs) => json_string_map(text@) == Some(pair_views(pairs@)),
            None => json_string_map(text@) is None,
        },
{
    serde_json::from_str::<std::collections::BTreeMap<String, String>>(text).ok().map(
        |map| map.into_iter().collect(),
    )
}

/// The chosen language and its translations.
#[derive(Debug, Default)]
pub struct Localization {
    /// The language chosen at start-up, once it has been.
    pub language: Option<Language>,
    /// Translation keys and their texts.
    pub translations: Vec<(String, String)>,
}

/// The value of the first entry whose key is `key`.
pub open spec fn lookup(entries: Seq<(Seq<char>, Seq<char>)>, key: Seq<char>) -> Option<Seq<char>>
    decreases entries.len(),
{
    if entries.len() == 0 {
        None
    } else if entries[0].0 == key {
        Some(entries[0].1)
    } else {
        lookup(entries.drop_first(), key)
    }
}

/// The text of a key: its translation, or the key itself when there is none.
pub open spec fn translated(entries: Seq<(Seq<char>, Seq<char>)>, key: Seq<char>) -> Seq<char> {
    match lookup(entries, key) {
        Some(text) => text,
        None => key,
    }
}

/// `text` with every occurrence of `pattern` replaced by `with`, scanning from the
/// left and never overlapping, as std's `str::replace` does; an empty pattern
/// matches before every character and at the end.
pub open spec fn replace_all(text: Seq<char>, pattern: Seq<char>, with: Seq<char>) -> Seq<char>
    decreases text.len(),
{
    if text.len() == 0 {
        if pattern.len() == 0 { with } else { Seq::empty() }
    } else if pattern.len() == 0 {
        with + seq![text[0]] + replace_all(text.drop_first(), pattern, with)
    } else if pattern.len() <= text.len() && text.take(pattern.len() as int) == pattern {
        with + replace_all(text.skip(pattern.len() as int), pattern, with)
    } else {
        seq![text[0]] + replace_all(text.drop_first(), pattern, with)
    }
}

/// The placeholder for an argument name: the name in braces.
pub open spec fn placeholder(name: Seq<char>) -> Seq<char> {
    seq!['{'] + name + seq!['}']
}

/// `text` with the placeholder of each argument replaced by its value, one
/// argument after another.
pub open spec fn fill_arguments(text: Seq<char>, arguments: Seq<(Seq<char>, Seq<char>)>) -> Seq<char>
    decreases arguments.len(),
{
    if arguments.len() == 0 {
        text
    } else {
        let (name, value) = arguments.last();
        replace_all(fill_arguments(text, arguments.drop_last()), placeholder(name), value)
    }
}

/// The views of pairs of string slices.
pub open spec fn argument_views(arguments: Seq<(&str, &str)>) -> Seq<(Seq<char>, Seq<char>)> {
    arguments.map_values(|pair: (&str, &str)| (pair.0@, pair.1@))
}

/// The chosen language, or the system's when none was chosen.
pub fn current_language(localization: &Localization) -> (r: Language)
    ensures
        r == match localization.language {
            Some(language) => language,
            None => Language::System,
        },
{
    match localization.language {
        Some(language) => language,
        None => Language::System,
    }
}

/// The language the interface is shown in: the chosen one, or for the system's,
/// Chinese when the locale variables choose its file and English otherwise.
pub fn display_language(localization: &Localization, locale_variables: &[Option<String>]) -> (r:
    Language)
    ensures
        r == match localization.language {
            Some(Language::ZhCN) => Language::ZhCN,
            Some(Language::En) => Language::En,
            _ => if chooses_chinese(option_views(locale_variables@)) {
                Language::ZhCN
            } else {
                Language::En
            },
        },
{
    match current_language(localization) {
        Language::System => {
            if locale_chooses_chinese(locale_variables) {
                Language::ZhCN
            } else {
                Language::En
            }
        },
        language => language,
    }
}

impl Localization {
    /// The localization of a language whose translation file held `file_text`
    /// (or could not be read): no translations when the text is not a JSON object
    /// of strings.
    pub fn init(language: Language, file_text: Option<String>) -> (r: Localization)
        ensures
            r.language == Some(language),
            pair_views(r.translations@) == match file_text {
                Some(text) => match json_string_map(text@) {
                    Some(entries) => entries,
                    None => Seq::empty(),
                },
                None => Seq::empty(),
            },
    {
        let translations = match file_text {
            Some(text) => match parse_string_map(text.as_str()) {
                Some(entries) => entries,
                None => {
                    let empty: Vec<(String, String)> = Vec::new();
                    assert(pair_views(empty@) =~= Seq::empty());
                    empty
                },
            },
            None => {
                let empty: Vec<(String, String)> = Vec::new();
                assert(pair_views(empty@) =~= Seq::empty());
                empty
            },
        };
        Localization { language: Some(language), translations }
    }
}

/// The translation of `key`, or `key` itself when there is none.
pub fn tr(localization: &Localization, key: &str) -> (r: String)
    ensures
        r@ == translated(pair_views(localization.translations@), key@),
{
    let entries = &localization.translations;
    let ghost views = pair_views(entries@);
    assert(views.skip(0) =~= views);
    let mut i: usize = 0;
    while i < entries.len()
        invariant
            i <= entries@.len(),
            views == pair_views(entries@),
            views == pair_views(localization.translations@),
            lookup(views, key@) == lookup(views.skip(i as int), key@),
        decreases entries@.len() - i,
    {
        let ghost rest = views.skip(i as int);
        assert(rest.drop_first() =~= views.skip(i + 1));
        assert(rest[0] == views[i as int]);
        assert(views[i as int] == (entries@[i as int].0@, entries@[i as int].1@));
        if str_equals(entries[i].0.as_str(), key) {
            assert(lookup(rest, key@) == Some(rest[0].1));
            let text = entries[i].1.clone();
            assert(text@ == views[i as int].1);
            assert(lookup(views, key@) == Some(text@));
            assert(translated(views, key@) == text@);
            return text;
        }
        i = i + 1;
    }
    assert(views.skip(i as int).len() == 0);
    key.to_owned()
}

fn starts_at(text: &[char], i: usize, pattern: &[char]) -> (r: bool)
    requires
        i <= text@.len(),
    ensures
        r == (pattern@.len() <= text@.len() - i && text@.skip(i as int).take(pattern@.len() as int)
            == pattern@),
{
    let n = text.len();
    if pattern.len() > n - i {
        return false;
    }
    let mut k: usize = 0;
    while k < pattern.len()
        invariant
            pattern@.len() <= text@.len() - i,
            i <= text@.len(),
            n == text@.len(),
            k <= pattern@.len(),
            forall|j: int| 0 <= j < k ==> text@[i + j] == pattern@[j],
        decreases pattern@.len() - k,
    {
        assert(i + k < n);
        if text[i + k] != pattern[k] {
            assert(text@.skip(i as int).take(pattern@.len() as int)[k as int] != pattern@[k as int]);
            return false;
        }
        k = k + 1;
    }
    assert(text@.skip(i as int).take(pattern@.len() as int) =~= pattern@);
    true
}

/// `text` with every occurrence of a non-empty `pattern` replaced (std `str::replace`).
pub fn replace_text(text: &str, pattern: &str, with: &str) -> (r: String)
    requires
        pattern@.len() > 0,
    ensures
        r@ == replace_all(text@, pattern@, with@),
{
    let chars = chars_of(text);
    let pattern_chars = chars_of(pattern);
    let mut out = String::new();
    assert(chars@.skip(0) =~= chars@);
    let mut i: usize = 0;
    while i < chars.len()
        invariant
            i <= chars@.len(),
            chars@ == text@,
            pattern_chars@ == pattern@,
            pattern@.len() > 0,
            out@ + replace_all(chars@.skip(i as int), pattern@, with@) == replace_all(text@, pattern@, with@),
        decreases chars@.len() - i,
    {
        let ghost rest = chars@.skip(i as int);
        if starts_at(&chars, i, &pattern_chars) {
            let ghost before = out@;
            push_char_all(&mut out, with);
            assert(rest.skip(pattern@.len() as int) =~= chars@.skip(i + pattern@.len()));
            assert(rest.take(pattern@.len() as int) == pattern@);
            assert(replace_all(rest, pattern@, with@) == with@ + replace_all(
                rest.skip(pattern@.len() as int),
                pattern@,
                with@,
            ));
            assert(out@ + replace_all(chars@.skip(i + pattern@.len()), pattern@, with@) =~= before
                + replace_all(rest, pattern@, with@));
            i = i + pattern_chars.len();
        } else {
            let ghost before = out@;
            push_char(&mut out, chars[i]);
            assert(rest.drop_first() =~= chars@.skip(i + 1));
            assert(rest[0] == chars@[i as int]);
            assert(out@ + replace_all(chars@.skip(i + 1), pattern@, with@) =~= before + replace_all(
                rest,
                pattern@,
                with@,
            ));
            i = i + 1;
        }
    }
    assert(chars@.skip(i as int).len() == 0);
    assert(out@ =~= replace_all(text@, pattern@, with@));
    out
}

/// The translation of `key` with each `{name}` placeholder replaced by the value
/// given for `name`, the arguments taken in order.
pub fn tf(localization: &Localization, key: &str, arguments: &[(&str, &str)]) -> (r: String)
    ensures
        r@ == fill_arguments(
            translated(pair_views(localization.translations@), key@),
            argument_views(arguments@),
        ),
{
    let ghost args = argument_views(arguments@);
    let ghost start = translated(pair_views(localization.translations@), key@);
    let mut text = tr(localization, key);
    let mut i: usize = 0;
    while i < arguments.len()
        invariant
            i <= arguments@.len(),
            args == argument_views(arguments@),
            text@ == fill_arguments(start, args.take(i as int)),
        decreases arguments@.len() - i,
    {
        let (name, value) = arguments[i];
        let mut pattern = String::new();
        push_char(&mut pattern, '{');
        push_char_all(&mut pattern, name);
        push_char(&mut pattern, '}');
        assert(pattern@ =~= placeholder(name@));
        text = replace_text(text.as_str(), pattern.as_str(), value);
        assert(args.take(i + 1).drop_last() =~= args.take(i as int));
        assert(args.take(i + 1).last() == (name@, value@));
        i = i + 1;
    }
    assert(args.take(i as int) =~= args);
    text
}

} // verus!
