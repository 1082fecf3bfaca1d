use jinshu::service::{
    masked_key, provider_preset, switch_protocol, ANTHROPIC_MODEL, ANTHROPIC_URL, NO_KEY, OPENAI_MODEL, OPENAI_URL,
};

fn triple(p: &str, u: &str, m: &str) -> Option<(String, String, String)> {
    Some((p.to_string(), u.to_string(), m.to_string()))
}

#[test]
fn provider_presets() {
    assert_eq!(provider_preset("DeepSeek"), triple("openai", "https://api.deepseek.com/v1", "deepseek-chat"));
    assert_eq!(provider_preset("Moonshot"), triple("openai", "https://api.moonshot.cn/v1", "moonshot-v1-8k"));
    assert_eq!(
        provider_preset("通义千问"),
        triple("openai", "https://dashscope.aliyuncs.com/compatible-mode/v1", "qwen-plus")
    );
    assert_eq!(provider_preset("智谱 GLM"), triple("openai", "https://open.bigmodel.cn/api/paas/v4", "glm-4-flash"));
    assert_eq!(provider_preset("Ollama 本地"), triple("openai", "http://localhost:11434/v1", "qwen2.5"));
    assert_eq!(provider_preset("自定义"), None);
    assert_eq!(provider_preset("别的"), None);
}

#[test]
fn switching_protocols() {
    let ours = (String::from("https://proxy.example/v1"), String::from("m"));
    assert_eq!(switch_protocol(false, "", "x"), (OPENAI_URL.to_string(), OPENAI_MODEL.to_string()));
    assert_eq!(switch_protocol(false, "https://my.openai.proxy", "x"), (OPENAI_URL.to_string(), OPENAI_MODEL.to_string()));
    assert_eq!(switch_protocol(false, "https://proxy.example/v1", "m"), ours);
    assert_eq!(switch_protocol(true, "", "x"), (ANTHROPIC_URL.to_string(), ANTHROPIC_MODEL.to_string()));
    assert_eq!(switch_protocol(true, "https://proxy.example/v1", "m"), (ANTHROPIC_URL.to_string(), ANTHROPIC_MODEL.to_string()));
    assert_eq!(
        switch_protocol(true, "https://anthropic.proxy", "m"),
        ("https://anthropic.proxy".to_string(), "m".to_string())
    );
}

#[test]
fn masking_the_key() {
    assert_eq!(masked_key(""), NO_KEY);
    assert_eq!(masked_key("sk-1234567890abcd"), "••••••••••••abcd");
    assert_eq!(masked_key("ab"), "••••••••••••ab");
}
