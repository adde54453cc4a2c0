//! Answers to configuration import and export, and the clean-up of a saved
//! configuration text before it is parsed.
use vstd::prelude::*;
use vstd::string::StringExecFns;
use crate::text::{all_white, chars_of, lemma_trim_empty, string_of_range, trim_text};
use crate::model::{ConfigResult, Settings};

verus! {

pub open spec fn byte_order_mark() -> char {
    '\u{feff}'
}

/// `s` without the byte order marks it starts with.
pub open spec fn without_leading_bom(s: Seq<char>) -> Seq<char>
    decreases s.len(),
{
    if s.len() > 0 && s[0] == byte_order_mark() {
        without_leading_bom(s.drop_first())
    } else {
        s
    }
}

/// The configuration text without the byte order marks some editors put
/// at its start.
pub fn strip_bom(raw: &str) -> (r: String)
    ensures
        r@ == without_leading_bom(raw@),
{
    let v = chars_of(raw);
    let mut i: usize = 0;
    assert(v@.subrange(0, v.len() as int) =~= v@);
    while i < v.len() && v[i] == '\u{feff}'
        invariant
            i <= v.len(),
            without_leading_bom(v@) == without_leading_bom(v@.subrange(i as int, v.len() as int)),
        decreases v.len() - i,
    {
        assert(v@.subrange(i as int, v.len() as int).drop_first() =~= v@.subrange(
            i + 1,
            v.len() as int,
        ));
        i = i + 1;
    }
    proof {
        let rest = v@.subrange(i as int, v.len() as int);
        if i < v.len() {
            assert(rest[0] == v@[i as int]);
        }
    }
    string_of_range(&v, i, v.len())
}

/// Why an import did not happen.
#[derive(Debug)]
pub enum ImportFailure {
    /// The clipboard could not be read; the reader's message.
    Clipboard(String),
    /// The clipboard holds nothing but white space.
    Empty,
    /// The clipboard text is not JSON.
    InvalidJson,
    /// The JSON holds no list of windows.
    MissingWindows,
}

pub open spec fn empty_clipboard_message() -> Seq<char> {
    "剪贴板为空"@
}

pub open spec fn invalid_json_message() -> Seq<char> {
    "剪贴板内容不是有效的 JSON"@
}

pub open spec fn missing_windows_message() -> Seq<char> {
    "未找到小窗数据（缺少 windows 数组）"@
}

pub open spec fn failure_message(f: ImportFailure) -> Seq<char> {
    match f {
        ImportFailure::Clipboard(m) => m@,
        ImportFailure::Empty => empty_clipboard_message(),
        ImportFailure::InvalidJson => invalid_json_message(),
        ImportFailure::MissingWindows => missing_windows_message(),
    }
}

/// The clipboard text is worth parsing only when it is not blank.
pub fn check_import_text(text: &str) -> (r: Result<(), ImportFailure>)
    ensures
        r is Ok <==> !all_white(text@),
        r matches Err(f) ==> f is Empty,
{
    let t = trim_text(text);
    proof {
        lemma_trim_empty(text@);
    }
    if t.is_empty() {
        Err(ImportFailure::Empty)
    } else {
        Ok(())
    }
}

/// The answer to a failed import: not ok, with the reason's message.
pub fn import_failure(f: ImportFailure) -> (r: ConfigResult)
    ensures
        !r.ok,
        r.error matches Some(m) && m@ == failure_message(f),
        r.count is None,
        r.settings is None,
{
    let ghost fv = failure_message(f);
    let message = match f {
        ImportFailure::Clipboard(m) => m,
        ImportFailure::Empty => String::from_str("剪贴板为空"),
        ImportFailure::InvalidJson => String::from_str("剪贴板内容不是有效的 JSON"),
        ImportFailure::MissingWindows => String::from_str("未找到小窗数据（缺少 windows 数组）"),
    };
    ConfigResult { ok: false, error: Some(message), count: None, settings: None }
}

/// The answer to a successful import: ok, with the applied settings and
/// the number of windows they hold.
pub fn import_success(settings: Settings) -> (r: ConfigResult)
    ensures
        r.ok,
        r.error is None,
        r.count == Some(settings@.windows.len() as usize),
        r.settings matches Some(s) && s@ == settings@,
{
    let n = settings.windows.len();
    ConfigResult { ok: true, error: None, count: Some(n), settings: Some(settings) }
}

/// The answer to an export: ok with the number of windows written when the
/// clipboard took the text, else not ok with the clipboard's message.
pub fn export_result(written: Result<(), String>, count: usize) -> (r: ConfigResult)
    ensures
        r.ok == written is Ok,
        r.settings is None,
        match written {
            Ok(_) => r.error is None && r.count == Some(count),
            Err(m) => r.error == Some(m) && r.count is None,
        },
{
    match written {
        Ok(()) => ConfigResult { ok: true, error: None, count: Some(count), settings: None },
        Err(m) => ConfigResult { ok: false, error: Some(m), count: None, settings: None },
    }
}

} // verus!
