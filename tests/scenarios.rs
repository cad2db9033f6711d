use agentgateway::a2a::{
    classify_response, default_headers, forward_event, rewrite_agent_card, upstream_url, AgentCapabilities,
    AgentCard, AgentSkill, NumberOrString, ResponseShape, Role, TaskState,
};
use agentgateway::call::{build_request, build_tool_request, call_outcome, CallError, UpstreamOpenAPICall};
use agentgateway::json::Json;
use agentgateway::jsonrpc::{parse_u32, JsonRpcRequest};
use agentgateway::listener::{Listener, ListenerAction, ListenerManager, ListenerType, StartOutcome};
use agentgateway::openapi::{get_server_prefix, parse_openapi_schema, CommonBehavior, ErrorKind, ParseError, ToolDefinition};
use agentgateway::pool::{ConnectionPool, PoolStep};
use agentgateway::rbac::{IdentityMatcher, Identity, ResourceId, ResourceKind, Rule, RuleSet, RuleSets};
use agentgateway::relay::{decide_call, merge_listings, split_name, CallDecision, RelayError};
use agentgateway::schema::normalize_schema;
use agentgateway::store::{
    apply_static_config, ConfigStore, McpTargetSpec, ProxyStateUpdateMutator, ProxyStateUpdater, StaticConfig,
    Target, UpdateEvent, XdsUpdate,
};
use agentgateway::text::{decimal_string, replace_all};

fn from_value(v: &serde_json::Value) -> Json {
    match v {
        serde_json::Value::Null => Json::Null,
        serde_json::Value::Bool(b) => Json::Bool(*b),
        serde_json::Value::Number(n) => Json::Number(n.to_string()),
        serde_json::Value::String(s) => Json::Str(s.clone()),
        serde_json::Value::Array(xs) => Json::Array(xs.iter().map(from_value).collect()),
        serde_json::Value::Object(m) => {
            Json::Object(m.iter().map(|(k, x)| (k.clone(), from_value(x))).collect())
        },
    }
}

fn to_value(j: &Json) -> serde_json::Value {
    match j {
        Json::Null => serde_json::Value::Null,
        Json::Bool(b) => serde_json::Value::Bool(*b),
        Json::Number(n) => serde_json::from_str(n).unwrap(),
        Json::Str(s) => serde_json::Value::String(s.clone()),
        Json::Array(xs) => serde_json::Value::Array(xs.iter().map(to_value).collect()),
        Json::Object(fs) => {
            let mut m = serde_json::Map::new();
            for (k, x) in fs {
                m.insert(k.clone(), to_value(x));
            }
            serde_json::Value::Object(m)
        },
    }
}

fn jv(s: &str) -> serde_json::Value {
    serde_json::from_str(s).unwrap()
}

fn doc(s: &str) -> Json {
    from_value(&jv(s))
}

fn args(s: &str) -> Vec<(String, Json)> {
    match doc(s) {
        Json::Object(fs) => fs,
        _ => panic!("arguments must be an object"),
    }
}

fn tool(name: &str, method: &str, path: &str) -> (ToolDefinition, UpstreamOpenAPICall) {
    (
        ToolDefinition { name: name.to_string(), description: name.to_string(), input_schema: Json::Null },
        UpstreamOpenAPICall { method: method.to_string(), path: path.to_string() },
    )
}

fn headers_of(h: &[(String, String)]) -> Vec<(&str, &str)> {
    h.iter().map(|(k, v)| (k.as_str(), v.as_str())).collect()
}

fn kind_of<T>(r: Result<T, ParseError>) -> ErrorKind {
    match r {
        Ok(_) => panic!("expected an error"),
        Err(e) => e.kind(),
    }
}

fn anonymous() -> Identity {
    Identity { claims: None, connection_id: None }
}

// ----- synthesis -----

#[test]
fn synthesize_minimal_operation() {
    let d = doc(r##"{"openapi": "3.0.0", "paths": {"/ping": {"get": {"operationId": "ping"}}}}"##);
    let tools = parse_openapi_schema(&d).ok().unwrap();
    assert_eq!(tools.len(), 1);
    let (t, c) = &tools[0];
    assert_eq!(t.name, "ping");
    assert_eq!(t.description, "ping");
    assert_eq!(to_value(&t.input_schema), jv(r##"{"type": "object", "properties": {}, "required": []}"##));
    assert_eq!(c.method, "GET");
    assert_eq!(c.path, "/ping");
}

#[test]
fn synthesis_is_deterministic() {
    let text = r##"{"openapi": "3.0.0", "paths": {
        "/a": {"post": {"operationId": "a2"}, "get": {"operationId": "a1"}},
        "/b": {"delete": {"operationId": "b1", "summary": "remove"}}}}"##;
    let first = parse_openapi_schema(&doc(text)).ok().unwrap();
    let second = parse_openapi_schema(&doc(text)).ok().unwrap();
    let names = |ts: &Vec<(ToolDefinition, UpstreamOpenAPICall)>| -> Vec<(String, String, String)> {
        ts.iter().map(|(t, c)| (t.name.clone(), c.method.clone(), t.description.clone())).collect()
    };
    assert_eq!(names(&first), names(&second));
    assert_eq!(
        names(&first),
        vec![
            ("a1".to_string(), "GET".to_string(), "a1".to_string()),
            ("a2".to_string(), "POST".to_string(), "a2".to_string()),
            ("b1".to_string(), "DELETE".to_string(), "remove".to_string()),
        ]
    );
}

#[test]
fn input_schema_groups_and_required_fields() {
    let d = doc(r##"{"openapi": "3.0.0", "paths": {"/users/{id}": {"put": {
        "operationId": "updateUser",
        "description": "Update a user",
        "parameters": [
            {"name": "id", "in": "path", "required": true, "schema": {"type": "string"}},
            {"name": "verbose", "in": "query", "schema": {"type": "boolean"}, "description": "More output"},
            {"$ref": "#/components/parameters/Trace"}
        ],
        "requestBody": {"required": true, "content": {"application/json": {"schema": {"$ref": "#/components/schemas/User"}}}}
    }}},
    "components": {
        "parameters": {"Trace": {"name": "X-Trace", "in": "header", "schema": {"type": "string"}}},
        "schemas": {"User": {"type": "object", "properties": {"address": {"$ref": "#/components/schemas/Address"}}},
                    "Address": {"type": "object", "properties": {"city": {"type": "string"}}}}
    }}"##);
    let tools = parse_openapi_schema(&d).ok().unwrap();
    let schema = to_value(&tools[0].0.input_schema);
    assert_eq!(tools[0].0.description, "Update a user");
    let props = schema["properties"].as_object().unwrap();
    let mut keys: Vec<&str> = props.keys().map(|k| k.as_str()).collect();
    keys.sort();
    assert_eq!(keys, vec!["body", "header", "path", "query"]);
    assert_eq!(schema["required"], jv(r##"["body", "path"]"##));
    assert_eq!(props["path"]["required"], jv(r##"["id"]"##));
    assert_eq!(props["query"]["required"], jv(r##"[]"##));
    assert_eq!(props["query"]["properties"]["verbose"]["description"], "More output");
    assert_eq!(props["header"]["properties"]["X-Trace"]["type"], "string");
    assert_eq!(props["body"]["properties"]["address"]["properties"]["city"]["type"], "string");
}

#[test]
fn server_prefix_boundaries() {
    assert_eq!(get_server_prefix(&doc(r##"{"paths": {}}"##)).ok().unwrap(), "/");
    assert_eq!(
        get_server_prefix(&doc(r##"{"servers": [{"url": "https://api.example.com/v1"}]}"##)).ok().unwrap(),
        "https://api.example.com/v1"
    );
    assert_eq!(
        kind_of(get_server_prefix(&doc(r##"{"servers": [{"url": "https://a"}, {"url": "https://b"}]}"##))),
        ErrorKind::UnsupportedReference
    );
    assert_eq!(kind_of(get_server_prefix(&doc(r##"{"servers": [{}]}"##))), ErrorKind::MissingFields);
}

#[test]
fn missing_operation_id_is_information_required() {
    let d = doc(r##"{"paths": {"/x": {"get": {"summary": "no id"}}}}"##);
    assert_eq!(kind_of(parse_openapi_schema(&d)), ErrorKind::InformationRequired);
}

#[test]
fn cookie_parameter_is_unsupported() {
    let d = doc(r##"{"paths": {"/x": {"get": {"operationId": "x",
        "parameters": [{"name": "session", "in": "cookie", "schema": {"type": "string"}}]}}}}"##);
    assert_eq!(kind_of(parse_openapi_schema(&d)), ErrorKind::UnsupportedReference);
}

#[test]
fn reference_errors() {
    let no_components = doc(r##"{"paths": {"/x": {"get": {"operationId": "x",
        "parameters": [{"$ref": "#/components/parameters/P"}]}}}}"##);
    assert_eq!(kind_of(parse_openapi_schema(&no_components)), ErrorKind::MissingComponents);
    let missing = doc(r##"{"paths": {"/x": {"get": {"operationId": "x",
        "parameters": [{"$ref": "#/components/parameters/P"}]}}}, "components": {"parameters": {}}}"##);
    assert_eq!(kind_of(parse_openapi_schema(&missing)), ErrorKind::MissingReference);
    let foreign = doc(r##"{"paths": {"/x": {"post": {"operationId": "x",
        "requestBody": {"content": {"application/json": {"schema": {"$ref": "other.json#/X"}}}}}}}}"##);
    assert_eq!(kind_of(parse_openapi_schema(&foreign)), ErrorKind::InvalidReference);
    let path_ref = doc(r##"{"paths": {"/x": {"$ref": "#/paths/y"}}}"##);
    assert_eq!(kind_of(parse_openapi_schema(&path_ref)), ErrorKind::UnsupportedReference);
    let cyclic = doc(r##"{"paths": {"/x": {"post": {"operationId": "x",
        "requestBody": {"content": {"application/json": {"schema": {"$ref": "#/components/schemas/A"}}}}}}},
        "components": {"schemas": {"A": {"$ref": "#/components/schemas/A"}}}}"##);
    assert_eq!(kind_of(parse_openapi_schema(&cyclic)), ErrorKind::InvalidReference);
}

#[test]
fn body_without_json_media_type_is_skipped() {
    let d = doc(r##"{"paths": {"/x": {"post": {"operationId": "x",
        "requestBody": {"required": true, "content": {"text/plain": {"schema": {"type": "string"}}}}}}}}"##);
    let tools = parse_openapi_schema(&d).ok().unwrap();
    assert_eq!(to_value(&tools[0].0.input_schema), jv(r##"{"type": "object", "properties": {}, "required": []}"##));
}

#[test]
fn nullable_normalization_of_a_property() {
    let input = jv(r##"{"type": ["string", "null"], "pattern": "^[A-Z]+$"}"##);
    let once = normalize_schema(&from_value(&input));
    assert_eq!(to_value(&once), jv(r##"{"type": "string", "nullable": true, "pattern": "^[A-Z]+$"}"##));
    let twice = normalize_schema(&once);
    assert_eq!(to_value(&twice), to_value(&once));
}

#[test]
fn openapi_31_document_schemas_are_normalized() {
    let d = doc(r##"{"openapi": "3.1.0", "paths": {"/x": {"get": {"operationId": "x",
        "parameters": [{"name": "q", "in": "query", "schema": {"type": ["integer", "null"]}}]}}}}"##);
    let tools = parse_openapi_schema(&d).ok().unwrap();
    let schema = to_value(&tools[0].0.input_schema);
    assert_eq!(schema["properties"]["query"]["properties"]["q"], jv(r##"{"type": "integer", "nullable": true}"##));
}

// ----- tool calls -----

#[test]
fn path_substitution() {
    let tools = vec![tool("getUser", "GET", "/users/{id}")];
    let plan = build_tool_request(&tools, "getUser", false, "example.com", 8080, "/api", Some(args(r##"{"path": {"id": "42"}}"##)))
        .ok()
        .unwrap();
    assert_eq!(plan.method, "GET");
    assert_eq!(plan.url, "http://example.com:8080/api/users/42");
    assert_eq!(headers_of(&plan.headers), vec![("Accept", "application/json")]);
    assert!(plan.body.is_none());
}

#[test]
fn query_and_header() {
    let tools = vec![tool("listItems", "GET", "/items")];
    let plan = build_tool_request(
        &tools,
        "listItems",
        false,
        "example.com",
        80,
        "",
        Some(args(r##"{"query": {"limit": "10"}, "header": {"X-Trace": "abc"}}"##)),
    )
    .ok()
    .unwrap();
    assert_eq!(plan.url, "http://example.com:80/items?limit=10");
    assert_eq!(headers_of(&plan.headers), vec![("Accept", "application/json"), ("X-Trace", "abc")]);
}

#[test]
fn empty_arguments_leave_placeholders() {
    let tools = vec![tool("getUser", "get", "/users/{id}")];
    let plan = build_tool_request(&tools, "getUser", true, "h", 443, "", None).ok().unwrap();
    assert_eq!(plan.method, "GET");
    assert_eq!(plan.url, "https://h:443/users/{id}");
    assert_eq!(headers_of(&plan.headers), vec![("Accept", "application/json")]);
    assert!(plan.body.is_none());
}

#[test]
fn body_numbers_and_skipped_values() {
    let call = UpstreamOpenAPICall { method: "post".to_string(), path: "/orders/{n}/{n}".to_string() };
    let a = args(r##"{"path": {"n": 7}, "query": {"a": "1", "b": 2, "c": "x y"},
        "header": {"X Bad": "v", "X-Bad-Value": "a\nb", "X-Num": 5, "X-Ok": "ok"},
        "body": {"item": "book"}}"##);
    let plan = build_request(&call, false, "shop", 9000, "/v1", &a).ok().unwrap();
    assert_eq!(plan.method, "POST");
    assert_eq!(plan.url, "http://shop:9000/v1/orders/7/7?a=1&c=x y");
    assert_eq!(
        headers_of(&plan.headers),
        vec![("Accept", "application/json"), ("Content-Type", "application/json"), ("X-Ok", "ok")]
    );
    assert_eq!(to_value(plan.body.as_ref().unwrap()), jv(r##"{"item": "book"}"##));
}

#[test]
fn call_errors() {
    let tools = vec![tool("bad", "GE T", "/x")];
    match build_tool_request(&tools, "missing", false, "h", 1, "", None) {
        Err(CallError::ToolNotFound(n)) => assert_eq!(n, "missing"),
        _ => panic!("expected ToolNotFound"),
    }
    match build_tool_request(&tools, "bad", false, "h", 1, "", None) {
        Err(CallError::InvalidMethod(m)) => assert_eq!(m, "GE T"),
        _ => panic!("expected InvalidMethod"),
    }
}

#[test]
fn upstream_status_outcome() {
    assert_eq!(call_outcome("getUser", 200, "ok".to_string()).ok().unwrap(), "ok");
    match call_outcome("getUser", 404, "nope".to_string()) {
        Err(e) => {
            assert_eq!(e.tool, "getUser");
            assert_eq!(e.status, 404);
            assert_eq!(e.body, "nope");
            assert_eq!(e.to_string(), "upstream call for tool 'getUser' failed with status 404: nope");
        },
        Ok(_) => panic!("expected an error"),
    }
}

// ----- relay -----

#[test]
fn fan_out_merge() {
    let subs = vec![
        ("A".to_string(), Some(vec![("t1".to_string(), 1u32), ("t2".to_string(), 2u32)])),
        ("C".to_string(), None),
        ("B".to_string(), Some(vec![("t1".to_string(), 3u32)])),
    ];
    let merged = merge_listings(subs);
    let got: Vec<(&str, u32)> = merged.iter().map(|(n, p)| (n.as_str(), *p)).collect();
    assert_eq!(got, vec![("A:t1", 1), ("A:t2", 2), ("B:t1", 3)]);
}

#[test]
fn rbac_denial_is_not_forwarded() {
    let empty = RuleSets { sets: vec![] };
    let who = Identity { claims: Some(vec![]), connection_id: None };
    match decide_call(&empty, &empty, &who, ResourceKind::Tool, "A:t1") {
        CallDecision::Reject(RelayError::InvalidRequest(m)) => assert_eq!(m, "not allowed"),
        _ => panic!("expected a refusal"),
    }
}

fn allow_all(kind: ResourceKind, id: &str) -> RuleSets {
    RuleSets {
        sets: vec![RuleSet {
            name: "r".to_string(),
            namespace: "ns".to_string(),
            rules: vec![Rule {
                resource: ResourceId { kind, id: id.to_string() },
                matcher: IdentityMatcher::Anyone,
            }],
        }],
    }
}

#[test]
fn name_without_colon_is_invalid_request() {
    let rules = allow_all(ResourceKind::Tool, "plain");
    let empty = RuleSets { sets: vec![] };
    match decide_call(&rules, &empty, &anonymous(), ResourceKind::Tool, "plain") {
        CallDecision::Reject(RelayError::InvalidRequest(_)) => {},
        _ => panic!("expected invalid_request"),
    }
}

#[test]
fn allowed_call_is_forwarded_to_the_target() {
    let listener = RuleSets {
        sets: vec![RuleSet {
            name: "l".to_string(),
            namespace: "ns".to_string(),
            rules: vec![Rule {
                resource: ResourceId { kind: ResourceKind::Prompt, id: "svc:greet:v2".to_string() },
                matcher: IdentityMatcher::ClaimEquals { key: "sub".to_string(), value: "alice".to_string() },
            }],
        }],
    };
    let global = RuleSets { sets: vec![] };
    let alice = Identity { claims: Some(vec![("sub".to_string(), "alice".to_string())]), connection_id: None };
    match decide_call(&global, &listener, &alice, ResourceKind::Prompt, "svc:greet:v2") {
        CallDecision::Forward { target, inner } => {
            assert_eq!(target, "svc");
            assert_eq!(inner, "greet:v2");
        },
        _ => panic!("expected forwarding"),
    }
    let bob = Identity { claims: Some(vec![("sub".to_string(), "bob".to_string())]), connection_id: None };
    assert!(matches!(
        decide_call(&global, &listener, &bob, ResourceKind::Prompt, "svc:greet:v2"),
        CallDecision::Reject(_)
    ));
    assert!(matches!(
        decide_call(&global, &listener, &alice, ResourceKind::Tool, "svc:greet:v2"),
        CallDecision::Reject(_)
    ));
}

#[test]
fn split_on_first_colon() {
    assert_eq!(split_name("a:b:c"), Some(("a".to_string(), "b:c".to_string())));
    assert_eq!(split_name(":x"), Some(("".to_string(), "x".to_string())));
    assert_eq!(split_name("none"), None);
}

// ----- pool and store -----

#[test]
fn pool_recreates_after_removal() {
    let mut store = ConfigStore::new();
    let m = ProxyStateUpdateMutator {};
    let target = Target { name: "svc".to_string(), listeners: vec![], spec: McpTargetSpec::Stdio { cmd: "run".to_string(), args: vec![], env: vec![] } };
    assert!(matches!(m.insert_target(&mut store, target), UpdateEvent::Insert(_)));
    let mut pool: ConnectionPool<u32> = ConnectionPool::new();
    assert!(matches!(pool.plan(&store, "svc"), PoolStep::Create(0)));
    assert_eq!(pool.insert("svc".to_string(), 1), None);
    assert_eq!(pool.insert("svc".to_string(), 2), Some(2));
    assert_eq!(pool.len(), 1);
    assert_eq!(pool.get("svc"), Some(&1));
    assert!(matches!(pool.plan(&store, "svc"), PoolStep::Existing(0)));
    assert_eq!(pool.remove("svc"), Some(1));
    assert_eq!(pool.remove("svc"), None);
    assert!(matches!(pool.plan(&store, "svc"), PoolStep::Create(0)));
    assert!(matches!(m.remove_target(&mut store, "svc"), Some(UpdateEvent::Remove(_))));
    assert!(m.remove_target(&mut store, "svc").is_none());
    assert!(matches!(pool.plan(&store, "svc"), PoolStep::TargetNotFound));
}

#[test]
fn store_updates_replace_by_name() {
    let mut updater = ProxyStateUpdater::new(ConfigStore::new());
    let m = ProxyStateUpdateMutator {};
    let t = |cmd: &str| Target { name: "a".to_string(), listeners: vec![], spec: McpTargetSpec::Stdio { cmd: cmd.to_string(), args: vec![], env: vec![] } };
    assert!(matches!(m.insert_target(&mut updater.state, t("one")), UpdateEvent::Insert(_)));
    assert!(matches!(m.insert_target(&mut updater.state, t("two")), UpdateEvent::Update(_)));
    assert_eq!(updater.state.targets.len(), 1);
    match &updater.state.targets[0].spec {
        McpTargetSpec::Stdio { cmd, .. } => assert_eq!(cmd, "two"),
        _ => panic!("expected stdio"),
    }
    m.insert_rbac(&mut updater.state, RuleSet { name: "r".to_string(), namespace: "n".to_string(), rules: vec![] });
    m.insert_rbac(&mut updater.state, RuleSet { name: "r".to_string(), namespace: "m".to_string(), rules: vec![] });
    assert_eq!(updater.state.policies.sets.len(), 1);
    assert_eq!(updater.state.policies.sets[0].namespace, "m");
    m.remove_rbac(&mut updater.state, "r");
    assert!(updater.state.policies.is_empty());
}

#[test]
fn local_config_replaces_the_store() {
    let mut store = ConfigStore::new();
    let m = ProxyStateUpdateMutator {};
    let t = |name: &str| Target { name: name.to_string(), listeners: vec![], spec: McpTargetSpec::Stdio { cmd: "c".to_string(), args: vec![], env: vec![] } };
    m.insert_target(&mut store, t("old"));
    let mut second_x = t("x");
    second_x.listeners = vec!["later".to_string()];
    let cfg = StaticConfig {
        targets: vec![t("x"), t("y"), second_x],
        policies: vec![],
        listener: Listener { name: "default".to_string(), spec: ListenerType::Stdio },
    };
    apply_static_config(&mut store, cfg);
    let names: Vec<&str> = store.targets.iter().map(|t| t.name.as_str()).collect();
    assert_eq!(names, vec!["x", "y"]);
    assert_eq!(store.targets[0].listeners, vec!["later".to_string()]);
    assert_eq!(store.policies.sets.len(), 1);
    assert_eq!(store.listeners.len(), 1);
    assert_eq!(store.listeners[0].name, "default");
}

// ----- listeners -----

#[test]
fn listener_manager_reacts_to_events() {
    let mut store = ConfigStore::new();
    store.listeners.push(Listener { name: "l".to_string(), spec: ListenerType::Stdio });
    store.listeners.push(Listener { name: "m".to_string(), spec: ListenerType::Stdio });
    let mut mgr = ListenerManager::new();
    let names = |v: &Vec<ListenerAction>| -> Vec<(bool, String)> {
        v.iter()
            .map(|a| match a {
                ListenerAction::Start(n) => (true, n.clone()),
                ListenerAction::Abort(n) => (false, n.clone()),
            })
            .collect()
    };
    assert_eq!(names(&mgr.on_event(&store, UpdateEvent::Insert("l".to_string()))), vec![(true, "l".to_string())]);
    assert!(mgr.on_event(&store, UpdateEvent::Insert("unknown".to_string())).is_empty());
    assert!(mgr.on_started("l".to_string(), StartOutcome::Ready).is_none());
    assert_eq!(
        names(&mgr.on_event(&store, UpdateEvent::Update("l".to_string()))),
        vec![(false, "l".to_string()), (true, "l".to_string())]
    );
    assert!(matches!(mgr.on_started("l".to_string(), StartOutcome::TimedOut), Some(ListenerAction::Abort(_))));
    assert!(mgr.on_event(&store, UpdateEvent::Remove("l".to_string())).is_empty());
    assert!(mgr.on_started("m".to_string(), StartOutcome::Ready).is_none());
    assert_eq!(names(&mgr.on_event(&ConfigStore::new(), UpdateEvent::Update("m".to_string()))), vec![(false, "m".to_string())]);
    assert!(mgr.on_started("m".to_string(), StartOutcome::Ready).is_none());
    assert_eq!(names(&mgr.shutdown()), vec![(false, "m".to_string())]);
    assert!(mgr.shutdown().is_empty());
}

// ----- a2a -----

#[test]
fn non_message_events_are_skipped() {
    assert!(forward_event("message"));
    assert!(!forward_event("ping"));
    assert!(!forward_event("Message"));
}

#[test]
fn response_shape_by_content_type() {
    assert_eq!(classify_response(Some("application/json; charset=utf-8")), Some(ResponseShape::Single));
    assert_eq!(classify_response(Some("text/event-stream")), Some(ResponseShape::Stream));
    assert_eq!(classify_response(Some("text/html")), None);
    assert_eq!(classify_response(Some("not a type")), None);
    assert_eq!(classify_response(None), None);
}

fn skill(name: &str) -> AgentSkill {
    AgentSkill { description: None, examples: None, id: name.to_string(), input_modes: None, name: name.to_string(), output_modes: None, tags: None }
}

#[test]
fn agent_card_is_rewritten_and_filtered() {
    let card = AgentCard {
        authentication: None,
        capabilities: AgentCapabilities { push_notifications: false, state_transition_history: false, streaming: true },
        default_input_modes: vec![],
        default_output_modes: vec![],
        description: None,
        documentation_url: None,
        name: "agent".to_string(),
        provider: None,
        skills: vec![skill("a"), skill("b"), skill("c")],
        url: "http://upstream".to_string(),
        version: "1".to_string(),
    };
    let rules = RuleSets {
        sets: vec![RuleSet {
            name: "r".to_string(),
            namespace: "n".to_string(),
            rules: vec![
                Rule { resource: ResourceId { kind: ResourceKind::Tool, id: "svc:a".to_string() }, matcher: IdentityMatcher::Anyone },
                Rule { resource: ResourceId { kind: ResourceKind::Tool, id: "svc:c".to_string() }, matcher: IdentityMatcher::Connection("c1".to_string()) },
            ],
        }],
    };
    let r = rewrite_agent_card(card, "https://gw", "svc", &rules, &anonymous());
    assert_eq!(r.url, "https://gw/svc");
    let names: Vec<&str> = r.skills.iter().map(|s| s.name.as_str()).collect();
    assert_eq!(names, vec!["a"]);
}

#[test]
fn upstream_urls_and_headers() {
    assert_eq!(upstream_url("agent", 443, "/rpc"), "https://agent:443/rpc");
    assert_eq!(upstream_url("agent", 8080, ""), "http://agent:8080");
    let h = default_headers(&vec![("X-A".to_string(), "1".to_string())], Some("tok"));
    assert_eq!(headers_of(&h), vec![("X-A", "1"), ("Authorization", "Bearer tok")]);
    assert_eq!(default_headers(&vec![], None).len(), 0);
}

#[test]
fn enum_names() {
    assert_eq!(TaskState::InputRequired.to_string(), "input-required");
    assert!(matches!(TaskState::from_str("canceled"), Ok(TaskState::Canceled)));
    assert!(TaskState::from_str("cancelled").is_err());
    assert_eq!(Role::Agent.to_string(), "agent");
    assert!(matches!(Role::from_str("user"), Ok(Role::User)));
    assert!(Role::from_str("admin").is_err());
}

// ----- JSON-RPC -----

#[test]
fn json_rpc_round_trip() {
    let req = JsonRpcRequest {
        id: NumberOrString::Number(4294967295),
        method: "tasks/send".to_string(),
        params: args(r##"{"id": "t1", "message": {"role": "user", "parts": [{"type": "text", "text": "hi"}]}}"##),
    };
    let j = req.to_json();
    assert_eq!(to_value(&j), jv(r##"{"jsonrpc": "2.0", "id": 4294967295, "method": "tasks/send",
        "params": {"id": "t1", "message": {"role": "user", "parts": [{"type": "text", "text": "hi"}]}}}"##));
    let back = JsonRpcRequest::from_json(&j).unwrap();
    assert!(matches!(back.id, NumberOrString::Number(4294967295)));
    assert_eq!(back.method, "tasks/send");
    assert_eq!(to_value(&Json::Object(back.params)), to_value(&Json::Object(req.params)));
    let text_id = doc(r##"{"jsonrpc": "2.0", "id": "abc", "method": "m", "params": {}}"##);
    assert!(matches!(JsonRpcRequest::from_json(&text_id).unwrap().id, NumberOrString::String(ref s) if s == "abc"));
    assert!(JsonRpcRequest::from_json(&doc(r##"{"jsonrpc": "1.0", "id": 1, "method": "m", "params": {}}"##)).is_none());
    assert!(JsonRpcRequest::from_json(&doc(r##"{"jsonrpc": "2.0", "id": 4294967296, "method": "m", "params": {}}"##)).is_none());
}

// ----- text -----

#[test]
fn decimal_and_replacement() {
    assert_eq!(decimal_string(0), "0");
    assert_eq!(decimal_string(4294967295), "4294967295");
    assert_eq!(parse_u32("007"), Some(7));
    assert_eq!(parse_u32(""), None);
    assert_eq!(parse_u32("1x"), None);
    assert_eq!(replace_all("aaa", "aa", "b"), "ba");
    assert_eq!(replace_all("{x}/{x}", "{x}", "1"), "1/1");
}

#[test]
fn parameter_locations() {
    assert_eq!(CommonBehavior::parameter_type_from_location("query").ok().unwrap(), "query");
    assert_eq!(CommonBehavior::parameter_type_from_location("path").ok().unwrap(), "path");
    assert_eq!(CommonBehavior::parameter_type_from_location("header").ok().unwrap(), "header");
    assert_eq!(kind_of(CommonBehavior::parameter_type_from_location("cookie")), ErrorKind::UnsupportedReference);
    assert_eq!(kind_of(CommonBehavior::parameter_type_from_location("body")), ErrorKind::UnsupportedReference);
}

#[test]
fn parse_error_messages() {
    assert_eq!(ParseError::MissingComponents.to_string(), "missing components");
    assert_eq!(ParseError::InvalidReference("x".to_string()).to_string(), "invalid reference: x");
}

#[test]
fn admin_default_address() {
    let c = agentgateway::admin::Config::default();
    assert_eq!(c.host, "127.0.0.1");
    assert_eq!(c.port, 19000);
}

#[test]
fn relay_removes_upstreams() {
    let mut relay: agentgateway::relay::Relay<&str> = agentgateway::relay::Relay::new(ConfigStore::new());
    assert_eq!(relay.pool.insert("a".to_string(), "conn-a"), None);
    assert_eq!(relay.remove_target("a"), Some("conn-a"));
    assert_eq!(relay.remove_target("a"), None);
    assert_eq!(relay.pool.len(), 0);
}

#[test]
fn xds_batch_applies_in_order() {
    let t = |name: &str| Target { name: name.to_string(), listeners: vec![], spec: McpTargetSpec::Stdio { cmd: "c".to_string(), args: vec![], env: vec![] } };
    let mut updater = ProxyStateUpdater::new(ConfigStore::new());
    let (events, rejected) = updater.handle(vec![
        XdsUpdate::Update(t("a")),
        XdsUpdate::Update(t("b")),
        XdsUpdate::Update(t("")),
        XdsUpdate::Remove("a".to_string()),
        XdsUpdate::Remove("zzz".to_string()),
        XdsUpdate::Update(t("b")),
    ]);
    assert_eq!(rejected.len(), 1);
    assert_eq!(rejected[0].name, "");
    let kinds: Vec<(char, String)> = events
        .iter()
        .map(|e| match e {
            UpdateEvent::Insert(n) => ('i', n.clone()),
            UpdateEvent::Update(n) => ('u', n.clone()),
            UpdateEvent::Remove(n) => ('r', n.clone()),
        })
        .collect();
    assert_eq!(
        kinds,
        vec![('i', "a".to_string()), ('i', "b".to_string()), ('r', "a".to_string()), ('u', "b".to_string())]
    );
    let names: Vec<&str> = updater.state.targets.iter().map(|t| t.name.as_str()).collect();
    assert_eq!(names, vec!["b"]);
}

#[test]
fn openapi_target_from_document() {
    let d = doc(r#"{"openapi": "3.0.3", "servers": [{"url": "/api"}], "paths": {"/ping": {"get": {"operationId": "ping"}}}}"#);
    let t = agentgateway::openapi::openapi_target("svc", 8080, &d, vec![], None).ok().unwrap();
    assert_eq!(t.prefix, "/api");
    assert_eq!(t.tools.len(), 1);
    assert_eq!(t.port, 8080);
    let bad = doc(r#"{"servers": [{"url": "/a"}, {"url": "/b"}], "paths": {}}"#);
    assert_eq!(kind_of(agentgateway::openapi::openapi_target("svc", 1, &bad, vec![], None)), ErrorKind::UnsupportedReference);
}

#[test]
fn targets_visible_on_a_listener() {
    let mut store = ConfigStore::new();
    let m = ProxyStateUpdateMutator {};
    let t = |name: &str, ls: &[&str]| Target {
        name: name.to_string(),
        listeners: ls.iter().map(|l| l.to_string()).collect(),
        spec: McpTargetSpec::Stdio { cmd: "c".to_string(), args: vec![], env: vec![] },
    };
    m.insert_target(&mut store, t("a", &["sse", "a2a"]));
    m.insert_target(&mut store, t("b", &["stdio"]));
    m.insert_target(&mut store, t("c", &["sse"]));
    assert_eq!(store.targets_for_listener("sse"), vec!["a".to_string(), "c".to_string()]);
    assert!(store.targets_for_listener("none").is_empty());
}

#[test]
fn deep_acyclic_schemas_resolve() {
    // A chain of 100 schemas, each referring to the next: deeper than any
    // fixed small bound, yet the document has no cycle.
    let mut schemas = serde_json::Map::new();
    for i in 0..100 {
        let s = if i < 99 {
            let mut props = serde_json::Map::new();
            let mut r = serde_json::Map::new();
            r.insert("$ref".to_string(), serde_json::Value::String(format!("#/components/schemas/S{}", i + 1)));
            props.insert("next".to_string(), serde_json::Value::Object(r));
            let mut o = serde_json::Map::new();
            o.insert("type".to_string(), serde_json::Value::String("object".to_string()));
            o.insert("properties".to_string(), serde_json::Value::Object(props));
            serde_json::Value::Object(o)
        } else {
            jv(r#"{"type": "string"}"#)
        };
        schemas.insert(format!("S{}", i), s);
    }
    let mut d = jv(r##"{"paths": {"/x": {"post": {"operationId": "x",
        "requestBody": {"content": {"application/json": {"schema": {"$ref": "#/components/schemas/S0"}}}}}}}}"##);
    let mut comps = serde_json::Map::new();
    comps.insert("schemas".to_string(), serde_json::Value::Object(schemas));
    d.as_object_mut().unwrap().insert("components".to_string(), serde_json::Value::Object(comps));
    let tools = parse_openapi_schema(&from_value(&d)).ok().unwrap();
    let mut node = to_value(&tools[0].0.input_schema)["properties"]["body"].clone();
    for _ in 0..99 {
        node = node["properties"]["next"].clone();
    }
    assert_eq!(node, jv(r#"{"type": "string"}"#));
}

#[test]
fn listeners_are_kept_by_name() {
    let mut store = ConfigStore::new();
    let m = ProxyStateUpdateMutator {};
    let l = |name: &str| Listener { name: name.to_string(), spec: ListenerType::Stdio };
    assert!(matches!(m.insert_listener(&mut store, l("a")), UpdateEvent::Insert(_)));
    assert!(matches!(m.insert_listener(&mut store, l("a")), UpdateEvent::Update(_)));
    assert!(matches!(m.insert_listener(&mut store, l("b")), UpdateEvent::Insert(_)));
    assert_eq!(store.listeners.len(), 2);
    assert!(matches!(m.remove_listener(&mut store, "a"), Some(UpdateEvent::Remove(_))));
    assert!(m.remove_listener(&mut store, "a").is_none());
    assert!(store.find_listener("b"));
    assert!(!store.find_listener("a"));
}

#[test]
fn rule_set_replacement_keeps_the_given_rules() {
    let mut store = ConfigStore::new();
    let m = ProxyStateUpdateMutator {};
    let rule = Rule { resource: ResourceId { kind: ResourceKind::Tool, id: "a:t".to_string() }, matcher: IdentityMatcher::Anyone };
    m.insert_rbac(&mut store, RuleSet { name: "x".to_string(), namespace: "n".to_string(), rules: vec![] });
    m.insert_rbac(&mut store, RuleSet { name: "y".to_string(), namespace: "n".to_string(), rules: vec![] });
    m.insert_rbac(&mut store, RuleSet { name: "x".to_string(), namespace: "n2".to_string(), rules: vec![rule] });
    assert_eq!(store.policies.sets[0].name, "x");
    assert_eq!(store.policies.sets[0].namespace, "n2");
    assert_eq!(store.policies.sets[0].rules.len(), 1);
    assert_eq!(store.policies.sets[1].name, "y");
    m.remove_rbac(&mut store, "absent");
    assert_eq!(store.policies.sets.len(), 2);
}
