//! The AI service settings: the provider presets, the defaults applied when
//! the protocol is switched, and how the API key is shown.

use vstd::prelude::*;
use crate::text::{str_contains, str_eq, has_sub};
use crate::util::{tail, tail_chars};

verus! {

/// The protocol of OpenAI-compatible services.
pub const PROTOCOL_OPENAI: &'static str = "openai";
/// The protocol of Anthropic's service.
pub const PROTOCOL_ANTHROPIC: &'static str = "anthropic";
/// The address and model set when switching to the OpenAI protocol.
pub const OPENAI_URL: &'static str = "https://api.openai.com/v1";
pub const OPENAI_MODEL: &'static str = "gpt-4o-mini";
/// The address set when switching to the Anthropic protocol; the model is
/// then cleared, to be typed in.
pub const ANTHROPIC_URL: &'static str = "https://api.anthropic.com";
pub const ANTHROPIC_MODEL: &'static str = "";

/// The provider presets, by name.
pub const DEEPSEEK: &'static str = "DeepSeek";
pub const MOONSHOT: &'static str = "Moonshot";
pub const QWEN: &'static str = "通义千问";
pub const GLM: &'static str = "智谱 GLM";
pub const OLLAMA: &'static str = "Ollama 本地";
/// The preset that leaves the settings to be typed in.
pub const CUSTOM: &'static str = "自定义";

/// What the key display shows in front of the key's last characters.
pub const KEY_MASK: &'static str = "••••••••••••";
/// How many of the key's last characters are shown.
pub const KEY_TAIL: usize = 4;
/// What the key display shows when no key is set.
pub const NO_KEY: &'static str = "（未填写）";

/// The protocol, address and model of the preset named `name`; none for the
/// custom entry or an unknown name.
pub open spec fn preset_of(name: Seq<char>) -> Option<(Seq<char>, Seq<char>, Seq<char>)> {
    if name == DEEPSEEK@ {
        Some((PROTOCOL_OPENAI@, "https://api.deepseek.com/v1"@, "deepseek-chat"@))
    } else if name == MOONSHOT@ {
        Some((PROTOCOL_OPENAI@, "https://api.moonshot.cn/v1"@, "moonshot-v1-8k"@))
    } else if name == QWEN@ {
        Some((PROTOCOL_OPENAI@, "https://dashscope.aliyuncs.com/compatible-mode/v1"@, "qwen-plus"@))
    } else if name == GLM@ {
        Some((PROTOCOL_OPENAI@, "https://open.bigmodel.cn/api/paas/v4"@, "glm-4-flash"@))
    } else if name == OLLAMA@ {
        Some((PROTOCOL_OPENAI@, "http://localhost:11434/v1"@, "qwen2.5"@))
    } else {
        None
    }
}

/// The view of an optional triple of strings.
pub open spec fn preset_view(r: Option<(String, String, String)>) -> Option<(Seq<char>, Seq<char>, Seq<char>)> {
    match r {
        Some((p, u, m)) => Some((p@, u@, m@)),
        None => None,
    }
}

fn preset(p: &str, u: &str, m: &str) -> (r: Option<(String, String, String)>)
    ensures
        preset_view(r) == Some((p@, u@, m@)),
{
    Some((p.to_owned(), u.to_owned(), m.to_owned()))
}

/// The protocol, address and model that choosing the preset `name` sets;
/// `None` leaves the settings as they are.
pub fn provider_preset(name: &str) -> (r: Option<(String, String, String)>)
    ensures
        preset_view(r) == preset_of(name@),
{
    if str_eq(name, DEEPSEEK) {
        preset(PROTOCOL_OPENAI, "https://api.deepseek.com/v1", "deepseek-chat")
    } else if str_eq(name, MOONSHOT) {
        preset(PROTOCOL_OPENAI, "https://api.moonshot.cn/v1", "moonshot-v1-8k")
    } else if str_eq(name, QWEN) {
        preset(PROTOCOL_OPENAI, "https://dashscope.aliyuncs.com/compatible-mode/v1", "qwen-plus")
    } else if str_eq(name, GLM) {
        preset(PROTOCOL_OPENAI, "https://open.bigmodel.cn/api/paas/v4", "glm-4-flash")
    } else if str_eq(name, OLLAMA) {
        preset(PROTOCOL_OPENAI, "http://localhost:11434/v1", "qwen2.5")
    } else {
        None
    }
}

/// The address and model after switching to the Anthropic protocol
/// (`anthropic`) or to the OpenAI one: the protocol's defaults when the
/// address is empty or plainly belongs to the other kind of service (for
/// OpenAI: it mentions `openai`; for Anthropic: it does not mention
/// `anthropic`), else the address and model as they were.
pub open spec fn protocol_defaults(anthropic: bool, base_url: Seq<char>, model: Seq<char>) -> (Seq<char>, Seq<char>) {
    if anthropic {
        if base_url.len() == 0 || !has_sub(base_url, PROTOCOL_ANTHROPIC@) {
            (ANTHROPIC_URL@, ANTHROPIC_MODEL@)
        } else {
            (base_url, model)
        }
    } else {
        if base_url.len() == 0 || has_sub(base_url, PROTOCOL_OPENAI@) {
            (OPENAI_URL@, OPENAI_MODEL@)
        } else {
            (base_url, model)
        }
    }
}

/// The address and model set when the protocol is switched (see
/// [`protocol_defaults`]).
pub fn switch_protocol(anthropic: bool, base_url: &str, model: &str) -> (r: (String, String))
    ensures
        (r.0@, r.1@) == protocol_defaults(anthropic, base_url@, model@),
{
    let reset = if anthropic {
        base_url.is_empty() || !str_contains(base_url, PROTOCOL_ANTHROPIC)
    } else {
        base_url.is_empty() || str_contains(base_url, PROTOCOL_OPENAI)
    };
    if reset {
        if anthropic {
            (ANTHROPIC_URL.to_owned(), ANTHROPIC_MODEL.to_owned())
        } else {
            (OPENAI_URL.to_owned(), OPENAI_MODEL.to_owned())
        }
    } else {
        (base_url.to_owned(), model.to_owned())
    }
}

/// How the key `key` is shown: [`NO_KEY`] when it is empty, else twelve
/// bullets and its last four characters.
pub open spec fn masked(key: Seq<char>) -> Seq<char> {
    if key.len() == 0 {
        NO_KEY@
    } else {
        KEY_MASK@ + tail(key, KEY_TAIL as nat)
    }
}

/// The masked display of the API key.
pub fn masked_key(key: &str) -> (r: String)
    ensures
        r@ == masked(key@),
{
    if key.is_empty() {
        NO_KEY.to_owned()
    } else {
        let mut r = KEY_MASK.to_owned();
        let t = tail_chars(key, KEY_TAIL);
        r.append(t.as_str());
        r
    }
}

} // verus!
