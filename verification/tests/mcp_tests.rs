use lib::json::Json;
use lib::mcp::{
    error_response, exceeds_line_limit, finish_call, initialize_result, oversized_request_response,
    parse_error_response, plan_request, prop, props, success_response, tool, tool_call_target,
    tool_text_result, tools_list, RpcPlan, MAX_LINE_BYTES, PROTOCOL_VERSION,
};

fn req(text: &str) -> Json {
    Json::parse(text).unwrap()
}

fn reply(plan: RpcPlan) -> Json {
    match plan {
        RpcPlan::Reply(j) => j,
        _ => panic!("a reply was expected"),
    }
}

#[test]
fn catalogue_of_tools() {
    let t = tools_list();
    let tools = t.get("tools").unwrap().as_array().unwrap();
    let names: Vec<&str> = tools.iter().map(|x| x.get("name").unwrap().as_str().unwrap()).collect();
    assert_eq!(
        names,
        vec![
            "rsi_describe",
            "rsi_create",
            "rsi_step",
            "rsi_run",
            "rsi_run_until",
            "rsi_state",
            "rsi_export",
            "rsi_reset",
            "rsi_list_sessions",
            "rsi_refine_new",
            "rsi_incumbent",
            "rsi_evaluate",
            "rsi_propose",
        ]
    );
    let evaluate = &tools[11];
    let schema = evaluate.get("inputSchema").unwrap();
    assert_eq!(schema.get("type").unwrap().as_str(), Some("object"));
    let required = schema.get("required").unwrap().as_array().unwrap();
    assert_eq!(required, &[Json::Str("candidate".to_string())]);
    assert!(tools[0].get("inputSchema").unwrap().get("required").is_none());
    let create_props = tools[1].get("inputSchema").unwrap().get("properties").unwrap();
    assert_eq!(
        create_props.get("seed").unwrap().get("type").unwrap().as_str(),
        Some("integer")
    );
}

#[test]
fn handshake_and_ping() {
    let init = reply(plan_request(&req(r#"{"jsonrpc":"2.0","id":1,"method":"initialize"}"#), "0.3.1"));
    assert_eq!(init.get("id"), Some(&Json::Num("1".to_string())));
    let result = init.get("result").unwrap();
    assert_eq!(result.get("protocolVersion").unwrap().as_str(), Some(PROTOCOL_VERSION));
    assert_eq!(
        result.get("serverInfo").unwrap().get("version").unwrap().as_str(),
        Some("0.3.1")
    );
    assert_eq!(initialize_result("x").get("capabilities").unwrap().to_string(), "{\"tools\":{}}");
    let pong = reply(plan_request(&req(r#"{"id":"p","method":"ping"}"#), "v"));
    assert_eq!(pong.to_string(), "{\"id\":\"p\",\"jsonrpc\":\"2.0\",\"result\":{}}");
}

#[test]
fn notifications_get_no_answer() {
    assert!(matches!(
        plan_request(&req(r#"{"method":"notifications/initialized"}"#), "v"),
        RpcPlan::Silent
    ));
    assert!(matches!(plan_request(&req(r#"{"id":4,"method":"initialized"}"#), "v"), RpcPlan::Silent));
    assert!(matches!(plan_request(&req(r#"{"method":"ping"}"#), "v"), RpcPlan::Silent));
    assert!(matches!(plan_request(&req(r#"{"method":"nope"}"#), "v"), RpcPlan::Silent));
    match plan_request(&req(r#"{"method":"tools/call","params":{"name":"rsi_step"}}"#), "v") {
        RpcPlan::Call { notification, command, .. } => {
            assert!(notification);
            assert_eq!(command, "step");
        }
        _ => panic!("a call was expected"),
    }
    assert_eq!(finish_call(&Json::Null, true, &Ok(Json::obj())), None);
}

#[test]
fn unknown_method_is_an_error() {
    let r = reply(plan_request(&req(r#"{"id":2,"method":"tools/nope"}"#), "v"));
    assert_eq!(
        r.to_string(),
        "{\"error\":{\"code\":-32601,\"message\":\"méthode inconnue : 'tools/nope'\"},\"id\":2,\"jsonrpc\":\"2.0\"}"
    );
    let no_method = reply(plan_request(&req(r#"{"id":3}"#), "v"));
    assert_eq!(
        no_method.get("error").unwrap().get("message").unwrap().as_str(),
        Some("méthode inconnue : ''")
    );
}

#[test]
fn tool_calls_map_to_commands() {
    let plan = plan_request(
        &req(r#"{"id":7,"method":"tools/call","params":{"name":"rsi_run","arguments":{"steps":3}}}"#),
        "v",
    );
    match plan {
        RpcPlan::Call { id, notification, command, args } => {
            assert_eq!(id, Json::Num("7".to_string()));
            assert!(!notification);
            assert_eq!(command, "run");
            assert_eq!(args.to_string(), "{\"steps\":3}");
        }
        _ => panic!("a call was expected"),
    }
    let plain = tool_call_target(Some(&req(r#"{"name":"describe"}"#))).unwrap();
    assert_eq!(plain.0, "describe");
    assert_eq!(plain.1, Json::obj());
    assert_eq!(tool_call_target(None), Err((-32602, "params manquants".to_string())));
    assert_eq!(
        tool_call_target(Some(&req(r#"{"name":5}"#))),
        Err((-32602, "nom d'outil manquant".to_string()))
    );
    let missing = reply(plan_request(&req(r#"{"id":1,"method":"tools/call"}"#), "v"));
    assert_eq!(
        missing.get("error").unwrap().get("code").unwrap().as_num(),
        Some("-32602")
    );
}

#[test]
fn tool_results_are_wrapped() {
    let ok = finish_call(&Json::from_i64(9), false, &Ok(req(r#"{"a":1}"#))).unwrap();
    assert_eq!(
        ok.to_string(),
        "{\"id\":9,\"jsonrpc\":\"2.0\",\"result\":{\"content\":[{\"text\":\"{\\\"a\\\":1}\",\"type\":\"text\"}]}}"
    );
    let err = finish_call(&Json::from_i64(9), false, &Err("boom".to_string())).unwrap();
    let result = err.get("result").unwrap();
    assert_eq!(result.get("isError"), Some(&Json::Bool(true)));
    let text = tool_text_result(&Json::Str("boom".to_string()), true);
    assert_eq!(text.get("content").unwrap().as_array().unwrap()[0].get("text").unwrap().as_str(), Some("\"boom\""));
}

#[test]
fn envelopes() {
    let s = success_response(&Json::Null, Json::Bool(true));
    assert_eq!(s.to_string(), "{\"id\":null,\"jsonrpc\":\"2.0\",\"result\":true}");
    let e = error_response(&Json::Str("x".to_string()), -1, "m");
    assert_eq!(e.to_string(), "{\"error\":{\"code\":-1,\"message\":\"m\"},\"id\":\"x\",\"jsonrpc\":\"2.0\"}");
    assert_eq!(
        parse_error_response("fin d'entrée inattendue").get("error").unwrap().get("message").unwrap().as_str(),
        Some("parse error: fin d'entrée inattendue")
    );
    assert_eq!(
        oversized_request_response().get("error").unwrap().get("code").unwrap().as_num(),
        Some("-32600")
    );
    assert!(exceeds_line_limit(MAX_LINE_BYTES, false));
    assert!(!exceeds_line_limit(MAX_LINE_BYTES, true));
    assert!(!exceeds_line_limit(10, false));
    assert_eq!(MAX_LINE_BYTES, 16 * 1024 * 1024);
}

#[test]
fn schema_builders() {
    let p = prop("string", "d");
    assert_eq!(p.to_string(), "{\"description\":\"d\",\"type\":\"string\"}");
    let ps = props(&[("b", Json::Null), ("a", Json::Bool(true))]);
    assert_eq!(ps.to_string(), "{\"a\":true,\"b\":null}");
    let t = tool("n", "d", Json::obj(), &["x", "y"]);
    assert_eq!(
        t.to_string(),
        "{\"description\":\"d\",\"inputSchema\":{\"properties\":{},\"required\":[\"x\",\"y\"],\"type\":\"object\"},\"name\":\"n\"}"
    );
}
