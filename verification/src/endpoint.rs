//! The endpoint of a configured model: its address, its key, and what it answers.
use vstd::prelude::*;
use crate::requests::PromptPilotConfig;
use crate::text::{
    begins_with, blank, decimal_text, ends_with, finishes_with, has_text, is_blank, is_white_space,
    law_blank, law_trimmed_keeps, lemma_has_middle, trim, trimmed,
};

verus! {

/// Where a model is reached when nothing else is configured.
pub const DEFAULT_OPENAI_COMPATIBLE_BASE_URL: &'static str = "https://api.openai.com/v1";

/// The variable that holds the key when nothing else is configured.
pub const DEFAULT_OPENAI_COMPATIBLE_API_KEY_ENV: &'static str = "OPENAI_API_KEY";

/// How many seconds an answer is waited for.
pub const OPENAI_COMPATIBLE_REQUEST_TIMEOUT_SECS: u64 = 90;

// ---------------------------------------------------------------------------
// The address
// ---------------------------------------------------------------------------

/// `url::Url`, of which [`url_text`] says how it is written.
#[verifier::external_type_specification]
#[verifier::external_body]
pub struct ExUrl(url::Url);

/// How a URL is written.
pub uninterp spec fn url_text(url: url::Url) -> Seq<char>;

/// What `url::Url::parse` makes of a text: how the URL is written, or the text of the error.
pub uninterp spec fn url_parsed(text: Seq<char>) -> Result<Seq<char>, Seq<char>>;

/// What `url::Url::join` makes of a URL and a reference: how the URL that the reference leads to
/// is written, or the text of the error.
pub uninterp spec fn url_joined(base: Seq<char>, reference: Seq<char>) -> Result<
    Seq<char>,
    Seq<char>,
>;

/// `url::Url::as_str`: how the URL is written.
pub assume_specification[ url::Url::as_str ](url: &url::Url) -> (r: &str)
    ensures
        r@ == url_text(*url),
;

/// `url::Url::parse`: the URL, or the text of the error, is a function of the text alone.
#[verifier::external_body]
fn url_parse(text: &str) -> (r: Result<url::Url, String>)
    ensures
        match r {
            Ok(url) => url_parsed(text@) == Ok::<Seq<char>, Seq<char>>(url_text(url)),
            Err(message) => url_parsed(text@) == Err::<Seq<char>, Seq<char>>(message@),
        },
{
    url::Url::parse(text).map_err(|err| err.to_string())
}

/// `url::Url::join`: the URL that a reference leads to, or the text of the error, is a function of
/// how the URL is written and of the reference.
#[verifier::external_body]
fn url_join(base: &url::Url, reference: &str) -> (r: Result<url::Url, String>)
    ensures
        match r {
            Ok(url) => url_joined(url_text(*base), reference@) == Ok::<Seq<char>, Seq<char>>(
                url_text(url),
            ),
            Err(message) => url_joined(url_text(*base), reference@) == Err::<Seq<char>, Seq<char>>(
                message@,
            ),
        },
{
    base.join(reference).map_err(|err| err.to_string())
}

/// The configured address with one slash more at its end where it has none.
pub open spec fn base_address(base_url: Seq<char>) -> Seq<char> {
    if finishes_with(trimmed(base_url), "/"@) {
        trimmed(base_url)
    } else {
        trimmed(base_url) + "/"@
    }
}

/// The address of the chat completions below a configured address, or what is wrong with it.
pub open spec fn completions_address(base_url: Seq<char>) -> Result<Seq<char>, Seq<char>> {
    if is_blank(base_url) {
        Err("prompt_pilot.base_url must not be empty"@)
    } else {
        match url_parsed(base_address(base_url)) {
            Ok(base) => match url_joined(base, "chat/completions"@) {
                Ok(address) => Ok(address),
                Err(message) => Err("prompt_pilot.base_url must be a valid URL: "@ + message),
            },
            Err(message) => Err("prompt_pilot.base_url must be a valid URL: "@ + message),
        }
    }
}

fn with_heading(heading: &str, message: &str) -> (r: String)
    ensures
        r@ == heading@ + message@,
{
    let mut out = heading.to_owned();
    out.append(message);
    out
}

/// The text that a configured address is parsed as; `None` for a blank one.
pub fn base_url_text(base_url: &str) -> (r: Option<String>)
    ensures
        r is None <==> is_blank(base_url@),
        r matches Some(text) ==> text@ == base_address(base_url@),
{
    if blank(base_url) {
        return None;
    }
    let base_url = trim(base_url);
    let mut out = base_url.to_owned();
    if !ends_with(base_url, "/") {
        out.append("/");
    }
    Some(out)
}

/// The address of the chat completions below a configured address, or what is wrong with it.
pub fn chat_completions_url(base_url: &str) -> (r: Result<url::Url, String>)
    ensures
        match r {
            Ok(url) => completions_address(base_url@) == Ok::<Seq<char>, Seq<char>>(
                url_text(url),
            ),
            Err(message) => completions_address(base_url@) == Err::<Seq<char>, Seq<char>>(
                message@,
            ),
        },
{
    let text = match base_url_text(base_url) {
        Some(text) => text,
        None => return Err("prompt_pilot.base_url must not be empty".to_owned()),
    };
    match url_parse(text.as_str()) {
        Ok(url) => match url_join(&url, "chat/completions") {
            Ok(url) => Ok(url),
            Err(message) => Err(
                with_heading("prompt_pilot.base_url must be a valid URL: ", message.as_str()),
            ),
        },
        Err(message) => Err(
            with_heading("prompt_pilot.base_url must be a valid URL: ", message.as_str()),
        ),
    }
}

/// The configured address, or the default one.
pub open spec fn configured_base_url(config: PromptPilotConfig) -> Seq<char> {
    match config.base_url {
        Some(base_url) => base_url@,
        None => DEFAULT_OPENAI_COMPATIBLE_BASE_URL@,
    }
}

/// The address of the chat completions for a configuration, as it is written, or what is wrong
/// with it.
pub fn configured_chat_completions_url(config: &PromptPilotConfig) -> (r: Result<String, String>)
    ensures
        text_result(r) == completions_address(configured_base_url(*config)),
{
    let url = match &config.base_url {
        Some(base_url) => chat_completions_url(base_url.as_str()),
        None => chat_completions_url(DEFAULT_OPENAI_COMPATIBLE_BASE_URL),
    };
    match url {
        Ok(url) => Ok(url.as_str().to_owned()),
        Err(message) => Err(message),
    }
}

// ---------------------------------------------------------------------------
// The key
// ---------------------------------------------------------------------------

/// The variable that holds the key.
pub open spec fn key_variable(config: PromptPilotConfig) -> Seq<char> {
    match config.api_key_env {
        Some(name) => name@,
        None => DEFAULT_OPENAI_COMPATIBLE_API_KEY_ENV@,
    }
}

/// The variable that holds the key; empty where no key is used.
pub fn api_key_variable(config: &PromptPilotConfig) -> (r: String)
    ensures
        r@ == key_variable(*config),
{
    match &config.api_key_env {
        Some(name) => name.clone(),
        None => DEFAULT_OPENAI_COMPATIBLE_API_KEY_ENV.to_owned(),
    }
}

/// The key to send, given what the variable holds: none where no variable is named, else the key
/// without white space around it, or what is wrong.
pub open spec fn api_key(variable: Seq<char>, value: Option<Seq<char>>) -> Result<
    Option<Seq<char>>,
    Seq<char>,
> {
    if variable.len() == 0 {
        Ok(None)
    } else {
        match value {
            None => Err(
                "PromptPilot OpenAI-compatible model requires $"@ + variable
                    + "; set prompt_pilot.api_key_env = \"\" to omit Authorization"@,
            ),
            Some(value) => if is_blank(value) {
                Err(
                    "PromptPilot OpenAI-compatible API key from $"@ + variable + " is empty"@,
                )
            } else {
                Ok(Some(trimmed(value)))
            },
        }
    }
}

/// The key to send; `value` is what the variable of [`api_key_variable`] holds.
pub fn prompt_pilot_api_key(config: &PromptPilotConfig, value: Option<String>) -> (r: Result<
    Option<String>,
    String,
>)
    ensures
        ({
            let wanted = api_key(
                key_variable(*config),
                match value {
                    Some(value) => Some(value@),
                    None => None,
                },
            );
            match r {
                Ok(Some(key)) => wanted == Ok::<Option<Seq<char>>, Seq<char>>(Some(key@)),
                Ok(None) => wanted == Ok::<Option<Seq<char>>, Seq<char>>(None),
                Err(message) => wanted == Err::<Option<Seq<char>>, Seq<char>>(message@),
            }
        }),
{
    let variable = api_key_variable(config);
    if variable.as_str().is_empty() {
        return Ok(None);
    }
    match value {
        None => {
            let mut message = "PromptPilot OpenAI-compatible model requires $".to_owned();
            message.append(variable.as_str());
            message.append("; set prompt_pilot.api_key_env = \"\" to omit Authorization");
            Err(message)
        },
        Some(value) => {
            if blank(value.as_str()) {
                let mut message = "PromptPilot OpenAI-compatible API key from $".to_owned();
                message.append(variable.as_str());
                message.append(" is empty");
                return Err(message);
            }
            Ok(Some(trim(value.as_str()).to_owned()))
        },
    }
}

// ---------------------------------------------------------------------------
// The answer
// ---------------------------------------------------------------------------

/// How `reqwest::StatusCode` writes the status with this number.
pub uninterp spec fn status_text(code: u16) -> Seq<char>;

/// `reqwest::StatusCode::from_u16` and the text of the status: the number, a space, and a phrase
/// that depends on the number only. Which phrase is not stated.
#[verifier::external_body]
fn status_line(code: u16) -> (r: String)
    requires
        100 <= code <= 999,
    ensures
        r@ == status_text(code),
        begins_with(r@, decimal_text(code as nat) + " "@),
{
    reqwest::StatusCode::from_u16(code).map(|status| status.to_string()).unwrap_or_default()
}

/// The message about a request that was answered with a status other than success.
pub open spec fn status_error(status: Seq<char>, body: Seq<char>) -> Seq<char> {
    let message = "PromptPilot OpenAI-compatible request failed with HTTP "@ + status;
    if is_blank(body) {
        message
    } else {
        message + ": "@ + trimmed(body)
    }
}

/// The message about a request that was answered with this status.
pub fn status_error_message(status: &str, body: &str) -> (r: String)
    ensures
        r@ == status_error(status@, body@),
{
    let mut message = with_heading(
        "PromptPilot OpenAI-compatible request failed with HTTP ",
        status,
    );
    if !blank(body) {
        message.append(": ");
        message.append(trim(body));
    }
    message
}

/// The message about a request that was answered with a status other than success.
pub fn openai_compatible_status_error(status: u16, body: &str) -> (r: String)
    requires
        100 <= status <= 999,
    ensures
        r@ == status_error(status_text(status), body@),
{
    status_error_message(status_line(status).as_str(), body)
}

/// Whether a status is one of success.
pub open spec fn is_success(status: u16) -> bool {
    200 <= status < 300
}

/// The texts of the choices of an answer; a choice may have none.
pub open spec fn choice_views(choices: Seq<Option<String>>) -> Seq<Option<Seq<char>>> {
    Seq::new(
        choices.len(),
        |i: int|
            match choices[i] {
                Some(text) => Some(text@),
                None => None,
            },
    )
}

/// What the first choice says, without white space around it.
pub open spec fn first_content(choices: Seq<Option<Seq<char>>>) -> Result<Seq<char>, Seq<char>> {
    if choices.len() > 0 && choices[0] is Some && !is_blank(choices[0]->Some_0) {
        Ok(trimmed(choices[0]->Some_0))
    } else {
        Err("PromptPilot OpenAI-compatible response did not include message content"@)
    }
}

/// What an endpoint says with this status and body; `choices` is what was read in the body, or the
/// text of the error.
pub open spec fn endpoint_output(
    status: u16,
    body: Seq<char>,
    choices: Result<Seq<Option<Seq<char>>>, Seq<char>>,
) -> Result<Seq<char>, Seq<char>> {
    if !is_success(status) {
        Err(status_error(status_text(status), body))
    } else {
        match choices {
            Ok(choices) => first_content(choices),
            Err(message) => Err(
                "PromptPilot OpenAI-compatible response was not valid JSON: "@ + message,
            ),
        }
    }
}

/// The model of what was read in a body.
pub open spec fn choices_result(choices: Result<Vec<Option<String>>, String>) -> Result<
    Seq<Option<Seq<char>>>,
    Seq<char>,
> {
    match choices {
        Ok(choices) => Ok(choice_views(choices@)),
        Err(message) => Err(message@),
    }
}

/// The model of a result with texts.
pub open spec fn text_result(result: Result<String, String>) -> Result<Seq<char>, Seq<char>> {
    match result {
        Ok(text) => Ok(text@),
        Err(message) => Err(message@),
    }
}

/// What the first choice says, without white space around it.
pub fn message_content(choices: &Vec<Option<String>>) -> (r: Result<String, String>)
    ensures
        text_result(r) == first_content(choice_views(choices@)),
{
    proof {
        assert(choice_views(choices@).len() == choices@.len());
    }
    if choices.len() > 0 {
        if let Some(text) = &choices[0] {
            if !blank(text.as_str()) {
                return Ok(trim(text.as_str()).to_owned());
            }
        }
    }
    Err("PromptPilot OpenAI-compatible response did not include message content".to_owned())
}

/// What an endpoint says with this status and body; `choices` is what was read in the body, or the
/// text of the error.
pub fn chat_completions_output(
    status: u16,
    body: &str,
    choices: Result<Vec<Option<String>>, String>,
) -> (r: Result<String, String>)
    requires
        100 <= status <= 999,
    ensures
        text_result(r) == endpoint_output(status, body@, choices_result(choices)),
{
    if !(200 <= status && status < 300) {
        return Err(openai_compatible_status_error(status, body));
    }
    match choices {
        Ok(choices) => message_content(&choices),
        Err(message) => Err(
            with_heading(
                "PromptPilot OpenAI-compatible response was not valid JSON: ",
                message.as_str(),
            ),
        ),
    }
}

// ---------------------------------------------------------------------------
// Laws of the endpoint
// ---------------------------------------------------------------------------

/// An address ends with a slash, and it makes no difference whether the configured one does, nor
/// whether there is white space around it.
pub proof fn law_base_address(before: Seq<char>, text: Seq<char>, after: Seq<char>)
    requires
        text.len() > 0,
        !is_white_space(text[0]),
        !is_white_space(text.last()),
        forall|k: int| 0 <= k < before.len() ==> is_white_space(#[trigger] before[k]),
        forall|k: int| 0 <= k < after.len() ==> is_white_space(#[trigger] after[k]),
    ensures
        text.last() == '/' ==> base_address(before + text + after) == text,
        text.last() != '/' ==> base_address(before + text + after) == text + "/"@,
        text.last() != '/' ==> base_address(text + "/"@) == base_address(text),
        completions_address(before + text + after) == completions_address(text),
{
    reveal_strlit("/");
    law_trimmed_keeps(before, text, after);
    let s = before + text + after;
    assert(finishes_with(text, "/"@) <==> text.last() == '/') by {
        assert(text.skip(text.len() - 1) =~= seq![text.last()]);
        assert("/"@ =~= seq!['/']);
        assert(seq![text.last()][0] == text.last());
    }
    let longer = text + "/"@;
    assert(longer.last() == '/');
    law_trimmed_keeps(Seq::empty(), longer, Seq::empty());
    assert(longer.skip(longer.len() - 1) =~= "/"@);
}

/// Where a model is reached: below the configured address, else below the default one. A blank one
/// is refused, and what the address parses to is joined with the path of the completions.
pub proof fn law_completions_address(config: PromptPilotConfig, base_url: Seq<char>)
    ensures
        config.base_url matches Some(url) ==> configured_base_url(config) == url@,
        config.base_url is None ==> configured_base_url(config) == "https://api.openai.com/v1"@,
        config.api_key_env matches Some(name) ==> key_variable(config) == name@,
        config.api_key_env is None ==> key_variable(config) == "OPENAI_API_KEY"@,
        is_blank(base_url) ==> completions_address(base_url) == Err::<Seq<char>, Seq<char>>(
            "prompt_pilot.base_url must not be empty"@,
        ),
        !is_blank(base_url) ==> match url_parsed(base_address(base_url)) {
            Ok(base) => match url_joined(base, "chat/completions"@) {
                Ok(address) => completions_address(base_url) == Ok::<Seq<char>, Seq<char>>(address),
                Err(message) => completions_address(base_url) is Err && has_text(
                    completions_address(base_url)->Err_0,
                    message,
                ),
            },
            Err(message) => completions_address(base_url) is Err && has_text(
                completions_address(base_url)->Err_0,
                message,
            ),
        },
{
    let heading = "prompt_pilot.base_url must be a valid URL: "@;
    if let Err(message) = url_parsed(base_address(base_url)) {
        lemma_has_middle(heading, message, Seq::empty());
        assert(heading + message + Seq::<char>::empty() =~= heading + message);
    }
    if let Ok(base) = url_parsed(base_address(base_url)) {
        if let Err(message) = url_joined(base, "chat/completions"@) {
            lemma_has_middle(heading, message, Seq::empty());
            assert(heading + message + Seq::<char>::empty() =~= heading + message);
        }
    }
}

/// The key that is sent. Where no variable is named none is, whatever any variable holds. Otherwise
/// it is what the variable holds without white space around it, and where the variable is not set or
/// is blank an error says which one it is.
pub proof fn law_api_key(variable: Seq<char>, value: Option<Seq<char>>)
    ensures
        variable.len() == 0 ==> api_key(variable, value) == Ok::<Option<Seq<char>>, Seq<char>>(
            None,
        ),
        variable.len() > 0 && value is Some && !is_blank(value->Some_0) ==> api_key(variable, value)
            == Ok::<Option<Seq<char>>, Seq<char>>(Some(trimmed(value->Some_0))),
        variable.len() > 0 && (value is None || is_blank(value->Some_0)) ==> (api_key(
            variable,
            value,
        ) matches Err(message) && has_text(message, variable)),
        variable.len() > 0 && value is None ==> api_key(variable, value)
            == Err::<Option<Seq<char>>, Seq<char>>(
            "PromptPilot OpenAI-compatible model requires $"@ + variable
                + "; set prompt_pilot.api_key_env = \"\" to omit Authorization"@,
        ),
        variable.len() > 0 && value is Some && is_blank(value->Some_0) ==> api_key(variable, value)
            == Err::<Option<Seq<char>>, Seq<char>>(
            "PromptPilot OpenAI-compatible API key from $"@ + variable + " is empty"@,
        ),
{
    lemma_has_middle(
        "PromptPilot OpenAI-compatible model requires $"@,
        variable,
        "; set prompt_pilot.api_key_env = \"\" to omit Authorization"@,
    );
    lemma_has_middle(
        "PromptPilot OpenAI-compatible API key from $"@,
        variable,
        " is empty"@,
    );
}

/// What an endpoint says. A status other than success is an error that tells the status and what
/// the body says, whatever could be read in it. With success it is what the first choice says,
/// whatever the others say, and an error where that is nothing or nothing could be read.
pub proof fn law_endpoint_output(
    status: u16,
    body: Seq<char>,
    choices: Seq<Option<Seq<char>>>,
    message: Seq<char>,
    read: Result<Seq<Option<Seq<char>>>, Seq<char>>,
)
    ensures
        status < 200 || status >= 300 ==> endpoint_output(status, body, read) == Err::<
            Seq<char>,
            Seq<char>,
        >(
            "PromptPilot OpenAI-compatible request failed with HTTP "@ + status_text(status) + (
            if is_blank(body) {
                Seq::empty()
            } else {
                ": "@ + trimmed(body)
            }),
        ),
        200 <= status < 300 && choices.len() > 0 && choices[0] is Some && !is_blank(
            choices[0]->Some_0,
        ) ==> endpoint_output(status, body, Ok(choices)) == Ok::<Seq<char>, Seq<char>>(
            trimmed(choices[0]->Some_0),
        ),
        200 <= status < 300 && (choices.len() == 0 || choices[0] is None || is_blank(
            choices[0]->Some_0,
        )) ==> endpoint_output(status, body, Ok(choices)) == Err::<Seq<char>, Seq<char>>(
            "PromptPilot OpenAI-compatible response did not include message content"@,
        ),
        200 <= status < 300 ==> endpoint_output(status, body, Err(message)) == Err::<
            Seq<char>,
            Seq<char>,
        >("PromptPilot OpenAI-compatible response was not valid JSON: "@ + message),
{
    let head = "PromptPilot OpenAI-compatible request failed with HTTP "@ + status_text(status);
    assert(head + Seq::<char>::empty() =~= head);
    assert(head + ": "@ + trimmed(body) =~= head + (": "@ + trimmed(body)));
}

} // verus!
