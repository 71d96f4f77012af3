//! The provider under which sessions are to show: the one that the configuration names.

use vstd::prelude::*;

use crate::files::FileText;
use crate::sqlite::{format_sqlite_read_error, lemma_located, located};
use crate::text::{
    finishes_with, is_white, lemma_trimmed_blank, opt_view, trim, trimmed,
    white_space_around_a_text_is_dropped,
};

verus! {

/// The text that a TOML document has under a key of its top level, as `toml_edit` reads it; none
/// where there is no text there; or what `toml_edit` says is wrong with the document.
pub uninterp spec fn toml_text(content: Seq<char>, key: Seq<char>) -> Result<
    Option<Seq<char>>,
    Seq<char>,
>;

/// Parses `content` as a `toml_edit::DocumentMut`, looks up `key` by `get` and takes the item by
/// `as_str`. The same text and key always give the same result.
#[verifier::external_body]
fn read_toml_text(content: &str, key: &str) -> (text: Result<Option<String>, String>)
    ensures
        match text {
            Ok(text) => toml_text(content@, key@) == Ok::<Option<Seq<char>>, Seq<char>>(
                opt_view(text),
            ),
            Err(error) => toml_text(content@, key@) == Err::<Option<Seq<char>>, Seq<char>>(error@),
        },
{
    match content.parse::<toml_edit::DocumentMut>() {
        Ok(document) => match document.get(key) {
            Some(item) => Ok(item.as_str().map(str::to_owned)),
            None => Ok(None),
        },
        Err(error) => Err(error.to_string()),
    }
}

/// The provider that a configured name stands for: the default one where there is none or a blank
/// one.
pub open spec fn named_provider(name: Option<Seq<char>>) -> Seq<char> {
    match name {
        Some(name) => if trimmed(name).len() == 0 {
            "openai"@
        } else {
            trimmed(name)
        },
        None => "openai"@,
    }
}

/// The provider that a configured name stands for.
pub fn provider_or_default(name: &Option<String>) -> (provider: String)
    ensures
        provider@ == named_provider(opt_view(*name)),
{
    match name {
        Some(name) => {
            let name = trim(name.as_str());
            if name.as_str().is_empty() {
                "openai".to_owned()
            } else {
                name
            }
        },
        None => "openai".to_owned(),
    }
}

/// The provider that a configuration names, or the error of reading it. A missing or blank
/// configuration names the default one.
pub open spec fn configured_provider(path: Seq<char>, file: FileText) -> Result<
    Seq<char>,
    Seq<char>,
> {
    match file {
        FileText::Absent => Ok("openai"@),
        FileText::Unread(message) => Err(located("读取 config.toml 失败"@, path, message@)),
        FileText::Text(content) => if trimmed(content@).len() == 0 {
            Ok("openai"@)
        } else {
            match toml_text(content@, "model_provider"@) {
                Ok(name) => Ok(named_provider(name)),
                Err(message) => Err(located("解析 config.toml 失败"@, path, message)),
            }
        },
    }
}

/// The provider that the configuration file at `path` names.
pub fn read_target_provider(path: &str, file: &FileText) -> (provider: Result<String, String>)
    ensures
        match configured_provider(path@, *file) {
            Ok(name) => provider matches Ok(provider) && provider@ == name,
            Err(text) => provider matches Err(error) && error@ == text,
        },
{
    match file {
        FileText::Absent => Ok("openai".to_owned()),
        FileText::Unread(message) => Err(
            format_sqlite_read_error(path, "读取 config.toml 失败", message.as_str()),
        ),
        FileText::Text(content) => {
            if trim(content.as_str()).as_str().is_empty() {
                return Ok("openai".to_owned());
            }
            match read_toml_text(content.as_str(), "model_provider") {
                Ok(name) => Ok(provider_or_default(&name)),
                Err(message) => Err(
                    format_sqlite_read_error(path, "解析 config.toml 失败", message.as_str()),
                ),
            }
        },
    }
}

/// The provider under which the history of the data directory shows whose configuration file is at
/// `path`.
pub fn read_history_visibility_provider_for_dir(path: &str, file: &FileText) -> (provider: Result<
    String,
    String,
>)
    ensures
        match configured_provider(path@, *file) {
            Ok(name) => provider matches Ok(provider) && provider@ == name,
            Err(text) => provider matches Err(error) && error@ == text,
        },
{
    read_target_provider(path, file)
}

/// The provider that is configured is the name without the white space around it; a blank name, and
/// none, stand for `openai`.
pub proof fn blank_names_stand_for_the_default(
    before: Seq<char>,
    name: Seq<char>,
    after: Seq<char>,
)
    requires
        forall|i: int| 0 <= i < before.len() ==> is_white(#[trigger] before[i]),
        forall|i: int| 0 <= i < after.len() ==> is_white(#[trigger] after[i]),
        name.len() > 0,
        !is_white(name[0]),
        !is_white(name.last()),
    ensures
        named_provider(Some(before + name + after)) == name,
        named_provider(Some(before)) == "openai"@,
        named_provider(None) == "openai"@,
{
    white_space_around_a_text_is_dropped(before, name, after);
    lemma_trimmed_blank(before);
}

/// A configuration that is missing or blank, or names no provider, means `openai`; one that names a
/// provider under `model_provider` means that one. Only a file that could not be read, or that is no
/// TOML, is an error, which ends with the path and the reason.
pub proof fn configuration_names_the_provider(path: Seq<char>, file: FileText)
    ensures
        match file {
            FileText::Absent => configured_provider(path, file) == Ok::<Seq<char>, Seq<char>>(
                "openai"@,
            ),
            FileText::Unread(message) => configured_provider(path, file) matches Err(text)
                && finishes_with(text, " ("@ + path + "): "@ + message@),
            FileText::Text(content) => if forall|i: int|
                0 <= i < content@.len() ==> is_white(#[trigger] content@[i]) {
                configured_provider(path, file) == Ok::<Seq<char>, Seq<char>>("openai"@)
            } else {
                match toml_text(content@, "model_provider"@) {
                    Ok(Some(name)) => configured_provider(path, file) matches Ok(provider)
                        && provider == if trimmed(name).len() > 0 {
                        trimmed(name)
                    } else {
                        "openai"@
                    },
                    Ok(None) => configured_provider(path, file) == Ok::<Seq<char>, Seq<char>>(
                        "openai"@,
                    ),
                    Err(message) => configured_provider(path, file) matches Err(text)
                        && finishes_with(text, " ("@ + path + "): "@ + message),
                }
            },
        },
{
    if let FileText::Text(content) = file {
        lemma_trimmed_blank(content@);
    }
    lemma_located(path);
}

} // verus!
