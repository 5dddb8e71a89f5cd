use paigu::llm::{extract_json, truncate};

#[test]
fn extract_json_strips_fences_and_surroundings() {
    assert_eq!(extract_json("```json\n{\"a\":1}\n```"), "{\"a\":1}");
    assert_eq!(extract_json("  ```{\"a\":{\"b\":2}}```  "), "{\"a\":{\"b\":2}}");
    assert_eq!(extract_json("结果如下：{\"x\": [1, 2]} 谢谢"), "{\"x\": [1, 2]}");
    assert_eq!(extract_json("no braces here"), "no braces here");
    assert_eq!(extract_json("} backwards {"), "} backwards {");
    assert_eq!(extract_json("``````json {}``````"), "{}");
}

#[test]
fn truncate_cuts_at_char_boundary() {
    assert_eq!(truncate("hello", 10), "hello");
    assert_eq!(truncate("hello", 5), "hello");
    assert_eq!(truncate("hello world", 5), "hello…");
    assert_eq!(truncate("你好世界", 7), "你好…");
    assert_eq!(truncate("你好世界", 2), "…");
    assert_eq!(truncate("", 0), "");
}
