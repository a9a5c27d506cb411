use seekmind::model_api::{
    apply_choices, bearer_token, chat_completions_url, check_connection_settings,
    checked_client_proxy, classify_sse_line, client_proxy, connection_result, finish_answer, format_request_error,
    is_ollama, needs_native_retry, ollama_native_url, proxy_check_outcome, reply_answer, take_lines,
    SseLine,
};
use seekmind::qa::{
    active_connection, active_proxy_url, append_answer_delta, ask_route, build_session_context,
    cancelled_outcome, check_proxy_settings, default_network_proxy_settings, failure_outcome,
    missing_profile_error, model_row_to_view, network_proxy_settings_to_view,
    normalize_optional_id, normalize_qa_session_title, normalize_question, progress_stage,
    qa_model_profile_row_to_view, qa_session_row_to_view, response_error_message, response_state,
    route_outcome, truncate_prompt_text, AskRoute, EmbeddingModelRow, ModelConnection,
    NetworkProxySettings, PythonQaClient, QaClientError, QaModelProfileRow, QaSessionRow, RagError,
};

fn conn(provider: &str, base: &str, model: &str) -> ModelConnection {
    ModelConnection { provider: provider.to_string(), base_url: base.to_string(), api_key: "k".to_string(), model: model.to_string() }
}

#[test]
fn qa_client_settings() {
    let c = PythonQaClient::from_settings(None, None, false, None, Some("9".to_string()), Some("7".to_string()));
    assert_eq!(c.timeout_ms, 9);
    let c = PythonQaClient::from_settings(None, None, false, None, Some("x".to_string()), Some("7".to_string()));
    assert_eq!(c.timeout_ms, 7);
    let c = PythonQaClient::from_settings(None, None, false, None, None, None);
    assert_eq!(c.timeout_ms, 300_000);
    assert!(!c.is_configured());
    assert!(matches!(c.spawn_plan(), Err(QaClientError::NotConfigured)));
    let c = c.with_script_found(Some("/s.py".to_string()));
    let plan = c.spawn_plan().unwrap();
    assert_eq!((plan.program.as_str(), plan.args.clone()), ("python3", vec!["/s.py".to_string()]));
}

#[test]
fn qa_error_texts() {
    assert_eq!(QaClientError::NotConfigured.message(), "python qa sidecar is not configured");
    assert_eq!(QaClientError::Io("e".to_string()).message(), "python qa sidecar io error: e");
    assert_eq!(failure_outcome(&QaClientError::Timeout), ("cancelled".to_string(), "Python 问答 sidecar 超时".to_string()));
    assert_eq!(
        failure_outcome(&QaClientError::SpawnFailed("x".to_string())),
        ("failed".to_string(), "failed to spawn python qa sidecar: x".to_string())
    );
    assert_eq!(cancelled_outcome(), ("cancelled".to_string(), "用户已取消问答".to_string()));
}

#[test]
fn questions_and_ids() {
    assert_eq!(normalize_question("  why? "), Ok("why?".to_string()));
    assert_eq!(normalize_question(" \n "), Err("问题不能为空".to_string()));
    assert_eq!(normalize_optional_id(Some("  s1 ".to_string())), Some("s1".to_string()));
    assert_eq!(normalize_optional_id(Some("   ".to_string())), None);
    assert_eq!(normalize_optional_id(None), None);
    assert_eq!(missing_profile_error("p9"), "找不到模型连接: p9");
}

#[test]
fn connections_and_routes() {
    let settings = conn("openai", "https://x/v1", "gpt");
    let profile = conn("ollama", "http://localhost:11434/v1", "qwen");
    assert_eq!(active_connection(&settings, Some(&profile)).model, "qwen");
    assert_eq!(active_connection(&settings, None).model, "gpt");
    assert_eq!(ask_route(&settings, true), AskRoute::Sidecar);
    assert_eq!(ask_route(&settings, false), AskRoute::SidecarMissing);
    assert_eq!(ask_route(&conn("openai", " ", "gpt"), true), AskRoute::ModelNotConfigured);
    assert_eq!(route_outcome(AskRoute::Sidecar), None);
    assert_eq!(
        route_outcome(AskRoute::ModelNotConfigured),
        Some(("model_not_configured".to_string(), "问答模型未启用或未配置".to_string()))
    );
    assert_eq!(
        route_outcome(AskRoute::SidecarMissing),
        Some(("failed".to_string(), "问答 sidecar 未配置，Rust 旧问答链路已移除".to_string()))
    );
}

#[test]
fn proxies() {
    let d = default_network_proxy_settings();
    assert!(!d.enabled && d.proxy_url.is_empty());
    assert_eq!(active_proxy_url(&d), None);
    let on = NetworkProxySettings { enabled: true, proxy_url: "http://p:8080".to_string() };
    assert_eq!(active_proxy_url(&on), Some("http://p:8080".to_string()));
    let view = network_proxy_settings_to_view(&on, "t".to_string());
    assert_eq!((view.enabled, view.proxy_url.as_str(), view.updated_at.as_str()), (true, "http://p:8080", "t"));
    assert_eq!(check_proxy_settings(true, "  ").unwrap_err(), "代理地址不能为空");
    let saved = check_proxy_settings(false, " http://q ").unwrap();
    assert_eq!((saved.enabled, saved.proxy_url.as_str()), (false, "http://q"));
}

#[test]
fn prompt_text_and_session_context() {
    assert_eq!(truncate_prompt_text("搜索引擎", 2), "搜索");
    assert_eq!(truncate_prompt_text("ab", 5), "ab");
    let msgs = vec![
        ("old".to_string(), "dropped".to_string()),
        (" q1 ".to_string(), " a1 ".to_string()),
        ("q2".to_string(), "".to_string()),
        ("  ".to_string(), "a3".to_string()),
    ];
    assert_eq!(build_session_context(&msgs), "最近用户问题: q1 -> q2\nQ: q1\nA: a1\nQ: q2\nQ: \nA: a3");
    assert_eq!(build_session_context(&Vec::new()), "");
}

#[test]
fn progress_and_streamed_answers() {
    assert_eq!(progress_stage("retrieve"), "searching");
    assert_eq!(progress_stage("generate"), "generating");
    assert_eq!(progress_stage("answer_delta"), "streaming");
    assert_eq!(progress_stage("judge"), "verifying");
    assert_eq!(progress_stage("failed"), "failed");
    assert_eq!(progress_stage("other"), "running");
    let mut answer = String::new();
    append_answer_delta(&mut answer, Some("  Hello"));
    append_answer_delta(&mut answer, None);
    append_answer_delta(&mut answer, Some(" world"));
    assert_eq!(answer, "Hello world");
}

#[test]
fn recorded_responses() {
    assert_eq!(response_state("  ", true), "answered");
    assert_eq!(response_state("", false), "failed");
    assert_eq!(response_state("insufficient_evidence", true), "insufficient_evidence");
    let e = RagError { code: "E".to_string(), message: " ".to_string(), details: None };
    assert_eq!(response_error_message(Some(&e)), Some("E".to_string()));
    let e = RagError { code: "E".to_string(), message: "boom".to_string(), details: None };
    assert_eq!(response_error_message(Some(&e)), Some("boom".to_string()));
    assert_eq!(response_error_message(None), None);
}

#[test]
fn stored_rows() {
    assert_eq!(normalize_qa_session_title("  a \n b  "), "a b");
    assert_eq!(normalize_qa_session_title("   "), "新问答会话");
    assert_eq!(normalize_qa_session_title(&"x".repeat(50)).chars().count(), 40);
    let v = qa_session_row_to_view(QaSessionRow { id: "s".to_string(), title: "t".to_string(), message_count: -3, created_at: 0, updated_at: 86_400 });
    assert_eq!((v.message_count, v.created_at.as_str(), v.updated_at.as_str()), (0, "未知", "1970-01-02 00:00:00"));
    let m = model_row_to_view(EmbeddingModelRow {
        id: "m".to_string(), name: "n".to_string(), provider: "p".to_string(), model_path: "/m".to_string(),
        dimension: -1, enabled: 2, available: 0, is_default: 1, status: "ready".to_string(), created_at: 0, updated_at: 60,
    });
    assert_eq!((m.dimension, m.enabled, m.available, m.is_default), (0, true, false, true));
    assert_eq!((m.created_at.as_str(), m.updated_at.as_str()), ("", "1970-01-01 00:01:00"));
    let p = qa_model_profile_row_to_view(QaModelProfileRow {
        id: "i".to_string(), name: "n".to_string(), provider: "p".to_string(), base_url: "b".to_string(),
        api_key: "k".to_string(), model: "m".to_string(), enabled: 0, is_default: 5, created_at: -1, updated_at: 0,
    });
    assert_eq!((p.enabled, p.is_default, p.created_at.as_str()), (false, true, "未知"));
}

#[test]
fn model_endpoints() {
    assert_eq!(chat_completions_url("https://api.x.com/v1//"), "https://api.x.com/v1/chat/completions");
    assert_eq!(ollama_native_url("http://localhost:11434/v1/"), "http://localhost:11434/api/chat");
    assert_eq!(ollama_native_url("http://h/openai"), "http://h/api/chat");
    assert_eq!(ollama_native_url("http://h/"), "http://h/api/chat");
    assert!(is_ollama("Ollama", "http://h"));
    assert!(is_ollama("x", "http://h:11434"));
    assert!(is_ollama("x", "http://h/api/v"));
    assert!(!is_ollama("openai", "https://api.openai.com/v1"));
    assert!(needs_native_retry("", true));
    assert!(!needs_native_retry("hi", true));
    assert!(!needs_native_retry("", false));
}

#[test]
fn connection_checks() {
    assert_eq!(bearer_token("  sk-1 "), Some("sk-1".to_string()));
    assert_eq!(bearer_token("   "), None);
    assert_eq!(client_proxy(Some(" http://p ")), Some("http://p".to_string()));
    assert_eq!(client_proxy(None), None);
    assert_eq!(format_request_error("连接失败", true, true, "e"), "连接失败: 模型服务响应超时");
    assert_eq!(format_request_error("连接失败", false, true, "e"), "连接失败: 无法连接模型服务");
    assert_eq!(format_request_error("连接失败", false, false, "bad"), "连接失败: bad");
    assert_eq!(check_connection_settings(" ", "m"), Err("API Base URL 不能为空".to_string()));
    assert_eq!(check_connection_settings("u", " "), Err("模型名称不能为空".to_string()));
    assert_eq!(check_connection_settings("u", "m"), Ok(()));
    assert_eq!(connection_result("").unwrap_err(), "模型返回为空");
    let ok = connection_result(" pong ").unwrap();
    assert!(ok.ok);
    assert_eq!(ok.message, "连接成功: pong");
}

#[test]
fn sse_stream() {
    let (lines, rest) = take_lines("data: a\r\n\ndata: b\npartial");
    assert_eq!(lines, vec!["data: a".to_string(), "".to_string(), "data: b".to_string()]);
    assert_eq!(rest, "partial");
    assert!(matches!(classify_sse_line("  "), SseLine::Skip));
    assert!(matches!(classify_sse_line("event: x"), SseLine::Skip));
    assert!(matches!(classify_sse_line("data: [DONE]"), SseLine::Done));
    assert!(matches!(classify_sse_line("data:data: {\"a\":1} "), SseLine::Data(p) if p == "{\"a\":1}"));
    let mut answer = "A".to_string();
    let choices = vec![(Some("b".to_string()), false), (Some(String::new()), false), (None, false), (Some("c".to_string()), true), (Some("d".to_string()), false)];
    let updates = apply_choices(&mut answer, &choices, true);
    assert_eq!(answer, "Abc");
    assert_eq!(updates, vec!["Ab".to_string(), "Abc".to_string()]);
    let mut answer = String::new();
    apply_choices(&mut answer, &choices, false);
    assert_eq!(answer, "bcd");
    assert_eq!(finish_answer("  x "), Ok("x".to_string()));
    assert_eq!(finish_answer(" "), Err("模型返回为空".to_string()));
    assert_eq!(reply_answer(&vec![None, Some(" hi ".to_string()), Some("no".to_string())]), Ok("hi".to_string()));
    assert_eq!(reply_answer(&vec![None, Some("  ".to_string()), Some("no".to_string())]), Err("模型返回为空".to_string()));
    assert_eq!(reply_answer(&Vec::new()), Err("模型返回为空".to_string()));
}

#[test]
fn proxy_addresses_are_parsed_before_use() {
    assert_eq!(proxy_check_outcome(None), Ok(()));
    assert_eq!(proxy_check_outcome(Some("x".to_string())), Err("代理地址无效: x".to_string()));
    assert_eq!(check_proxy_settings(true, " not a url ").unwrap_err(), "代理地址无效: builder error");
    let saved = check_proxy_settings(true, " localhost:7890 ").unwrap();
    assert_eq!((saved.enabled, saved.proxy_url.as_str()), (true, "localhost:7890"));
    assert_eq!(checked_client_proxy(None), Ok(None));
    assert_eq!(checked_client_proxy(Some("   ")), Ok(None));
    assert_eq!(checked_client_proxy(Some(" http://127.0.0.1:7890 ")), Ok(Some("http://127.0.0.1:7890".to_string())));
    assert_eq!(checked_client_proxy(Some("not a url")), Err("代理地址无效: builder error".to_string()));
}
