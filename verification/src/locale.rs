//! The language of the system and the OCR languages installed, as the
//! parser runtime reports them.
use vstd::prelude::*;
use crate::models::ParserRuntimeView;
use crate::scanner::{lines_of, split_lines};
use crate::text::{
    char_views, chars_of, contains, contains_chars, copy_range, has_prefix, lower_chars, lowercase, parse_u64,
    parsed_u64, starts_with, str_eq, string_of, string_views, trim, trim_chars,
};

verus! {

/// A quote character, as locale values may be quoted.
pub open spec fn is_quote(c: char) -> bool {
    c == '"' || c == '\''
}

/// `s` without leading quotes.
pub open spec fn trim_quotes_start(s: Seq<char>) -> Seq<char>
    decreases s.len(),
{
    if s.len() > 0 && is_quote(s[0]) { trim_quotes_start(s.drop_first()) } else { s }
}

/// `s` without trailing quotes.
pub open spec fn trim_quotes_end(s: Seq<char>) -> Seq<char>
    decreases s.len(),
{
    if s.len() > 0 && is_quote(s.last()) { trim_quotes_end(s.drop_last()) } else { s }
}

/// `s` without quotes at either end (`trim_matches(['"', '\''])`).
pub open spec fn trim_quotes(s: Seq<char>) -> Seq<char> {
    trim_quotes_end(trim_quotes_start(s))
}

fn trim_quotes_chars(s: &[char]) -> (r: Vec<char>)
    ensures
        r@ == trim_quotes(s@),
{
    let n = s.len();
    let mut i: usize = 0;
    assert(s@.skip(0) =~= s@);
    while i < n && (s[i] == '"' || s[i] == '\'')
        invariant
            i <= n == s@.len(),
            trim_quotes_start(s@) == trim_quotes_start(s@.skip(i as int)),
        decreases n - i,
    {
        assert(s@.skip(i as int).drop_first() =~= s@.skip(i + 1));
        i += 1;
    }
    let ghost t = s@.skip(i as int);
    assert(trim_quotes_start(t) == t);
    let mut j: usize = n;
    assert(t.take(t.len() as int) =~= t);
    while j > i && (s[j - 1] == '"' || s[j - 1] == '\'')
        invariant
            i <= j <= n == s@.len(),
            t == s@.skip(i as int),
            trim_quotes_end(t) == trim_quotes_end(t.take(j - i)),
        decreases j,
    {
        assert(t.take(j - i).drop_last() =~= t.take(j - 1 - i));
        j -= 1;
    }
    let r = copy_range(s, i, j);
    assert(r@ =~= t.take(j - i));
    r
}

/// A separator of the parts of a locale list.
pub open spec fn is_locale_sep(c: char) -> bool {
    c == ',' || c == '[' || c == ']' || c == ' ' || c == '\n' || c == '\t'
}

/// The position of the first separator in `s` (its length when none).
pub open spec fn sep_pos(s: Seq<char>, k: int) -> int
    decreases s.len() - k,
{
    if k < 0 || k >= s.len() {
        s.len() as int
    } else if is_locale_sep(s[k]) {
        k
    } else {
        sep_pos(s, k + 1)
    }
}

proof fn lemma_sep_pos(s: Seq<char>, k: int)
    requires
        0 <= k <= s.len(),
    ensures
        k <= sep_pos(s, k) <= s.len(),
    decreases s.len() - k,
{
    if k < s.len() && !is_locale_sep(s[k]) {
        lemma_sep_pos(s, k + 1);
    }
}

/// The first part of a list (cut at separators) that is not empty once its
/// quotes are dropped, without its quotes.
pub open spec fn first_part(s: Seq<char>) -> Option<Seq<char>>
    decreases s.len(),
{
    let k = sep_pos(s, 0);
    if 0 <= k <= s.len() {
        let part = trim_quotes(s.take(k));
        if part.len() > 0 {
            Some(part)
        } else if k >= s.len() {
            None
        } else {
            first_part(s.skip(k + 1))
        }
    } else {
        None
    }
}

/// A locale as the environment or the system gives it, cleaned: trimmed and
/// unquoted; a Chinese locale is kept whole, any other reduced to the first
/// part of the list it may be.
pub open spec fn locale_value(value: Seq<char>) -> Seq<char> {
    let cleaned = trim_quotes(trim(value));
    if cleaned.len() == 0 {
        cleaned
    } else if contains(cleaned, "zh"@) || contains(cleaned, "Chinese"@) {
        cleaned
    } else {
        match first_part(cleaned) {
            Some(p) => p,
            None => trim_quotes(cleaned),
        }
    }
}

/// `normalize_locale_value` (see `locale_value`).
pub fn normalize_locale_value(value: &str) -> (r: String)
    ensures
        r@ == locale_value(value@),
{
    let cleaned = trim_quotes_chars(trim_chars(chars_of(value).as_slice()).as_slice());
    if cleaned.len() == 0 {
        return string_of(cleaned.as_slice());
    }
    if contains_chars(cleaned.as_slice(), chars_of("zh").as_slice())
        || contains_chars(cleaned.as_slice(), chars_of("Chinese").as_slice()) {
        return string_of(cleaned.as_slice());
    }
    let ghost cv = cleaned@;
    let mut start: usize = 0;
    assert(cv.skip(0) =~= cv);
    while start <= cleaned.len()
        invariant
            start <= cleaned@.len(),
            cv == cleaned@,
            cv == trim_quotes(trim(value@)),
            cv.len() > 0,
            !(contains(cv, "zh"@) || contains(cv, "Chinese"@)),
            first_part(cv) == first_part(cv.skip(start as int)),
        decreases cleaned@.len() + 1 - start,
    {
        let ghost rest = cv.skip(start as int);
        let mut k: usize = start;
        while k < cleaned.len() && !(cleaned[k] == ',' || cleaned[k] == '[' || cleaned[k] == ']' || cleaned[k] == ' '
            || cleaned[k] == '\n' || cleaned[k] == '\t')
            invariant
                start <= k <= cleaned@.len(),
                cv == cleaned@,
                rest == cv.skip(start as int),
                sep_pos(rest, 0) == sep_pos(rest, k - start),
            decreases cleaned@.len() - k,
        {
            k += 1;
        }
        proof {
            lemma_sep_pos(rest, 0);
            assert(rest.take(k - start) =~= cv.subrange(start as int, k as int));
        }
        let part = trim_quotes_chars(copy_range(cleaned.as_slice(), start, k).as_slice());
        if part.len() > 0 {
            return string_of(part.as_slice());
        }
        if k >= cleaned.len() {
            let whole = trim_quotes_chars(cleaned.as_slice());
            return string_of(whole.as_slice());
        }
        proof {
            assert(rest.skip(k - start + 1) =~= cv.skip(k + 1));
        }
        start = k + 1;
    }
    string_of(cleaned.as_slice())
}

/// The language of a locale: Chinese ("zh") for a locale that starts with
/// "zh" or names Chinese (lowercased), "unknown" for none, else the
/// lowercased locale.
pub open spec fn language_of(locale: Seq<char>) -> Seq<char> {
    let lowered = lowercase(locale);
    if starts_with(lowered, "zh"@) || contains(lowered, "chinese"@) {
        "zh"@
    } else if lowered.len() == 0 {
        "unknown"@
    } else {
        lowered
    }
}

/// `detect_system_language` (see `language_of`).
pub fn detect_system_language(locale: &str) -> (r: String)
    ensures
        r@ == language_of(locale@),
{
    let lowered = lower_chars(chars_of(locale).as_slice());
    if has_prefix(lowered.as_slice(), chars_of("zh").as_slice())
        || contains_chars(lowered.as_slice(), chars_of("chinese").as_slice()) {
        "zh".to_owned()
    } else if lowered.len() == 0 {
        "unknown".to_owned()
    } else {
        string_of(lowered.as_slice())
    }
}

/// The system locale: the first of the locale settings (in the order given)
/// that is not empty once cleaned, else the cleaned system language list,
/// else nothing.
pub open spec fn system_locale_of(settings: Seq<Option<Seq<char>>>, system: Option<Seq<char>>) -> Seq<char>
    decreases settings.len(),
{
    if settings.len() == 0 {
        match system {
            Some(v) => locale_value(v),
            None => Seq::empty(),
        }
    } else {
        match settings[0] {
            Some(v) => if locale_value(v).len() > 0 {
                locale_value(v)
            } else {
                system_locale_of(settings.drop_first(), system)
            },
            None => system_locale_of(settings.drop_first(), system),
        }
    }
}

/// `detect_system_locale` from the values of `LC_ALL`, `LC_MESSAGES` and
/// `LANG` (in that order) and the system's language list, when there is one.
pub fn detect_system_locale(settings: &Vec<Option<String>>, system: Option<String>) -> (r: String)
    ensures
        r@ == system_locale_of(settings@.map_values(|o: Option<String>| crate::sidecar::opt_view(o)), crate::sidecar::opt_view(system)),
{
    let ghost sv = settings@.map_values(|o: Option<String>| crate::sidecar::opt_view(o));
    let mut i: usize = 0;
    assert(sv.skip(0) =~= sv);
    while i < settings.len()
        invariant
            i <= settings@.len(),
            sv == settings@.map_values(|o: Option<String>| crate::sidecar::opt_view(o)),
            system_locale_of(sv, crate::sidecar::opt_view(system)) == system_locale_of(sv.skip(i as int), crate::sidecar::opt_view(system)),
        decreases settings@.len() - i,
    {
        proof {
            assert(sv.skip(i as int)[0] == sv[i as int]);
            assert(sv.skip(i as int).drop_first() =~= sv.skip(i + 1));
        }
        if let Some(v) = &settings[i] {
            let n = normalize_locale_value(v.as_str());
            if !n.as_str().is_empty() {
                return n;
            }
        }
        i += 1;
    }
    proof {
        assert(sv.skip(i as int).len() == 0);
    }
    match &system {
        Some(v) => normalize_locale_value(v.as_str()),
        None => String::new(),
    }
}

/// A Chinese OCR language is installed.
pub open spec fn has_chinese(langs: Seq<Seq<char>>) -> bool {
    exists|i: int| 0 <= i < langs.len() && ({
        let l = lowercase(#[trigger] langs[i]);
        l == "chi_sim"@ || l == "chi_tra"@ || starts_with(l, "chi_"@)
    })
}

/// `has_chinese_tesseract_language` (see `has_chinese`).
pub fn has_chinese_tesseract_language(languages: &Vec<String>) -> (r: bool)
    ensures
        r == has_chinese(string_views(languages@)),
{
    let ghost lv = string_views(languages@);
    let mut i: usize = 0;
    while i < languages.len()
        invariant
            i <= languages@.len(),
            lv == string_views(languages@),
            forall|k: int| 0 <= k < i ==> !({
                let l = lowercase(#[trigger] lv[k]);
                l == "chi_sim"@ || l == "chi_tra"@ || starts_with(l, "chi_"@)
            }),
        decreases languages@.len() - i,
    {
        let l = lower_chars(chars_of(languages[i].as_str()).as_slice());
        let s = string_of(l.as_slice());
        if str_eq(s.as_str(), "chi_sim") || str_eq(s.as_str(), "chi_tra") || has_prefix(l.as_slice(), chars_of("chi_").as_slice()) {
            assert(lv[i as int] == languages@[i as int]@);
            return true;
        }
        i += 1;
    }
    false
}

/// The places the `tesseract` program is looked for.
pub fn tesseract_binary_candidates() -> (r: Vec<String>)
    ensures
        string_views(r@) == seq![
            "/opt/homebrew/bin/tesseract"@,
            "/usr/local/bin/tesseract"@,
            "/opt/local/bin/tesseract"@,
            "tesseract"@,
        ],
{
    let mut v: Vec<String> = Vec::new();
    v.push("/opt/homebrew/bin/tesseract".to_owned());
    v.push("/usr/local/bin/tesseract".to_owned());
    v.push("/opt/local/bin/tesseract".to_owned());
    v.push("tesseract".to_owned());
    assert(string_views(v@) =~= seq![
        "/opt/homebrew/bin/tesseract"@,
        "/usr/local/bin/tesseract"@,
        "/opt/local/bin/tesseract"@,
        "tesseract"@,
    ]);
    v
}

/// The languages listed by `tesseract --list-langs`: the trimmed lines that
/// are not empty and not the heading.
pub open spec fn listed_languages(lines: Seq<Seq<char>>) -> Seq<Seq<char>>
    decreases lines.len(),
{
    if lines.len() == 0 {
        Seq::empty()
    } else {
        let prev = listed_languages(lines.drop_last());
        let l = trim(lines.last());
        if l.len() == 0 || starts_with(lowercase(l), "list of available languages"@) { prev } else { prev.push(l) }
    }
}

/// The languages in the output of `tesseract --list-langs` (see
/// `listed_languages`).
pub fn tesseract_languages(stdout: &str) -> (r: Vec<String>)
    ensures
        string_views(r@) == listed_languages(lines_of(stdout@)),
{
    let lines = split_lines(chars_of(stdout).as_slice());
    let ghost lv = char_views(lines@);
    let mut out: Vec<String> = Vec::new();
    let mut i: usize = 0;
    while i < lines.len()
        invariant
            i <= lines@.len(),
            lv == char_views(lines@),
            lv == lines_of(stdout@),
            string_views(out@) == listed_languages(lv.take(i as int)),
        decreases lines@.len() - i,
    {
        proof {
            assert(lv.take(i + 1).drop_last() =~= lv.take(i as int));
            assert(lv.take(i + 1).last() == lines@[i as int]@);
        }
        let t = trim_chars(lines[i].as_slice());
        let lowered = lower_chars(t.as_slice());
        if t.len() > 0 && !has_prefix(lowered.as_slice(), chars_of("list of available languages").as_slice()) {
            let ghost before = string_views(out@);
            out.push(string_of(t.as_slice()));
            assert(string_views(out@) =~= before.push(t@));
        }
        i += 1;
    }
    assert(lv.take(i as int) =~= lv);
    out
}

/// The parser in use: Python when it is enabled and available.
pub fn parser_runtime_active(enabled: bool, available: bool) -> (r: String)
    ensures
        r@ == if enabled && available { "python"@ } else { "rust"@ },
{
    if enabled && available { "python".to_owned() } else { "rust".to_owned() }
}

/// The warning shown when the system speaks Chinese and no Chinese OCR
/// language is installed.
pub fn chinese_ocr_warning(system_language: &str, chinese_ocr_available: bool) -> (r: Option<String>)
    ensures
        r is Some <==> system_language@ == "zh"@ && !chinese_ocr_available,
        r matches Some(w) ==> w@ == "当前系统语言为中文，但未检测到中文 OCR 语言包（chi_sim / chi_tra）。扫描件中文识别可能失效，请安装 Tesseract 中文语言包。"@,
{
    if str_eq(system_language, "zh") && !chinese_ocr_available {
        Some("当前系统语言为中文，但未检测到中文 OCR 语言包（chi_sim / chi_tra）。扫描件中文识别可能失效，请安装 Tesseract 中文语言包。".to_owned())
    } else {
        None
    }
}

/// The parser runtime of this machine as the application shows it: whether
/// the Python parser is enabled and available (and so which parser is
/// active), the system's locale and language, the OCR languages and the
/// Chinese OCR warning, the parser's program, script and timeout (30 s
/// unless the setting parses), and the office converter's state.
pub fn parser_runtime_view(
    enabled: bool,
    available: bool,
    system_locale: String,
    tesseract_languages: Vec<String>,
    parser_bin: Option<String>,
    script_path: String,
    timeout_setting: Option<String>,
    office: (bool, bool, String, String),
    platform: String,
) -> (r: ParserRuntimeView)
    ensures
        r.enabled == enabled && r.available == available,
        r.active@ == if enabled && available { "python"@ } else { "rust"@ },
        r.system_locale@ == system_locale@,
        r.system_language@ == language_of(system_locale@),
        string_views(r.tesseract_languages@) == string_views(tesseract_languages@),
        r.chinese_ocr_available == has_chinese(string_views(tesseract_languages@)),
        (r.chinese_ocr_warning is Some) == (language_of(system_locale@) == "zh"@ && !has_chinese(string_views(tesseract_languages@))),
        r.python_bin@ == match parser_bin { Some(b) => b@, None => "python3"@ },
        r.script_path@ == script_path@,
        r.timeout_ms == match timeout_setting {
            Some(t) => match parsed_u64(t@) { Some(v) => v, None => 30_000 },
            None => 30_000,
        },
        r.office_enabled == office.0 && r.office_available == office.1,
        r.office_bin@ == office.2@ && r.office_message@ == office.3@ && r.office_platform@ == platform@,
{
    let system_language = detect_system_language(system_locale.as_str());
    let chinese_ocr_available = has_chinese_tesseract_language(&tesseract_languages);
    let chinese_ocr_warning = chinese_ocr_warning(system_language.as_str(), chinese_ocr_available);
    let python_bin = match parser_bin {
        Some(b) => b,
        None => "python3".to_owned(),
    };
    let timeout_ms = match &timeout_setting {
        Some(t) => match parse_u64(t.as_str()) {
            Some(v) => v,
            None => 30_000,
        },
        None => 30_000,
    };
    ParserRuntimeView {
        enabled,
        available,
        active: parser_runtime_active(enabled, available),
        system_locale,
        system_language,
        tesseract_languages,
        chinese_ocr_available,
        chinese_ocr_warning,
        python_bin,
        script_path,
        timeout_ms,
        office_enabled: office.0,
        office_available: office.1,
        office_bin: office.2,
        office_message: office.3,
        office_platform: platform,
    }
}

} // verus!
