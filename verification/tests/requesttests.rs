use rip::json::Json;
use rip::request::{
    CreateResponseBuilder, CreateResponsePayload, ItemParam, SpecificToolChoiceParam,
    ToolChoiceParam, ToolChoiceValue, ToolParam,
};

fn s(x: &str) -> Json {
    Json::Str(x.to_string())
}

fn obj(fields: Vec<(&str, Json)>) -> Json {
    Json::Obj(fields.into_iter().map(|(k, v)| (k.to_string(), v)).collect())
}

fn jbytes(v: &Json) -> Vec<u8> {
    rip::codec::json_to_bytes(v)
}

#[test]
fn create_response_builder_minimal_is_valid() {
    let payload = CreateResponseBuilder::new().model("gpt-4.1").input_text("hi").build();

    assert!(payload.errors().is_empty());
    assert_eq!(jbytes(payload.body().get("model").unwrap()), jbytes(&s("gpt-4.1")));
    assert_eq!(jbytes(payload.body().get("input").unwrap()), jbytes(&s("hi")));
}

#[test]
fn create_response_payload_captures_validation_errors() {
    let payload = CreateResponsePayload::new(s("nope"));
    assert!(!payload.errors().is_empty());
}

#[test]
fn item_param_reports_validation_errors() {
    let item = ItemParam::new(s("nope"));
    assert!(!item.errors().is_empty());
}

#[test]
fn item_param_value_roundtrip() {
    let expected = obj(vec![("type", s("message")), ("role", s("user")), ("content", s("hi"))]);
    let item = ItemParam::new(expected.duplicate());
    assert_eq!(jbytes(item.value()), jbytes(&expected));
    let value = item.into_value();
    assert_eq!(jbytes(&value), jbytes(&expected));
}

#[test]
fn tool_param_function_is_valid() {
    let tool = ToolParam::function("echo");
    assert!(tool.errors().is_empty());
}

#[test]
fn tool_param_variants_are_valid() {
    let tools = vec![
        ToolParam::code_interpreter(s("cntr_123")),
        ToolParam::custom("custom"),
        ToolParam::web_search(),
        ToolParam::web_search_2025_08_26(),
        ToolParam::web_search_ga(),
        ToolParam::web_search_preview(),
        ToolParam::web_search_preview_2025_03_11(),
        ToolParam::image_generation(),
        ToolParam::mcp("srv"),
        ToolParam::file_search(vec!["vs_1".to_string()]),
        ToolParam::computer_preview(1024, 768, "linux"),
        ToolParam::computer_use_preview(800, 600, "browser"),
        ToolParam::local_shell(),
        ToolParam::shell(),
        ToolParam::apply_patch(),
    ];

    for tool in tools {
        assert!(tool.errors().is_empty(), "errors: {:?}", tool.errors());
    }
}

#[test]
fn tool_param_invalid_reports_errors() {
    let bogus = obj(vec![("type", s("bogus"))]);
    let tool = ToolParam::new(bogus.duplicate());
    assert!(!tool.errors().is_empty());
    assert_eq!(jbytes(tool.value()), jbytes(&bogus));
}

#[test]
fn tool_choice_specific_function_is_valid() {
    let choice = ToolChoiceParam::specific_function("echo");
    assert!(choice.errors().is_empty());
}

#[test]
fn tool_choice_specific_variants_are_valid() {
    let choices = vec![
        ToolChoiceParam::specific_file_search(),
        ToolChoiceParam::specific_web_search(),
        ToolChoiceParam::specific_web_search_preview(),
        ToolChoiceParam::specific_image_generation(),
        ToolChoiceParam::specific_computer_preview(),
        ToolChoiceParam::specific_computer_use_preview(),
        ToolChoiceParam::specific_code_interpreter(),
        ToolChoiceParam::specific_local_shell(),
        ToolChoiceParam::specific_shell(),
        ToolChoiceParam::specific_apply_patch(),
        ToolChoiceParam::specific_custom("custom"),
        ToolChoiceParam::specific_mcp("srv"),
    ];

    for choice in choices {
        assert!(choice.errors().is_empty(), "errors: {:?}", choice.errors());
    }
}

#[test]
fn tool_choice_value_variants_roundtrip() {
    let none = ToolChoiceParam::none();
    assert_eq!(jbytes(none.value()), jbytes(&s("none")));
    let required = ToolChoiceParam::required();
    assert_eq!(jbytes(required.value()), jbytes(&s("required")));
    let raw = ToolChoiceParam::new(Json::Bool(true));
    assert!(!raw.errors().is_empty());
    assert_eq!(ToolChoiceValue::Auto.as_str(), "auto");
    assert_eq!(ToolChoiceValue::Required.as_str(), "required");
    assert_eq!(ToolChoiceValue::NoneChoice.as_str(), "none");
}

#[test]
fn tool_choice_allowed_tools_with_mode_is_valid() {
    let choice = ToolChoiceParam::allowed_tools_with_mode(
        vec![
            SpecificToolChoiceParam::function("echo"),
            SpecificToolChoiceParam::web_search(),
        ],
        Some(ToolChoiceValue::Required),
    );
    assert!(choice.errors().is_empty(), "errors: {:?}", choice.errors());
}

#[test]
fn tool_choice_empty_allowed_tools_reports_error() {
    let choice = ToolChoiceParam::allowed_tools(Vec::new());
    assert!(
        choice.errors().iter().any(|e| e.contains("tools must not be empty")),
        "errors: {:?}",
        choice.errors()
    );
}

#[test]
fn create_response_builder_accepts_tool_fields() {
    let payload = CreateResponseBuilder::new()
        .model("gpt-4.1")
        .input_text("hi")
        .tools(vec![ToolParam::function("echo")])
        .tool_choice(ToolChoiceParam::auto())
        .parallel_tool_calls(true)
        .max_tool_calls(2)
        .build();

    assert!(payload.body().get("tools").is_some());
    assert!(payload.body().get("tool_choice").is_some());
    assert_eq!(
        jbytes(payload.body().get("parallel_tool_calls").unwrap()),
        jbytes(&Json::Bool(true))
    );
    assert_eq!(jbytes(payload.body().get("max_tool_calls").unwrap()), jbytes(&Json::Int(2)));
}

#[test]
fn create_response_builder_accepts_raw_inputs() {
    let message = obj(vec![("type", s("message")), ("role", s("user")), ("content", s("hi"))]);
    let metadata = obj(vec![("trace_id", s("t1"))]);
    let payload = CreateResponseBuilder::new()
        .input_items(vec![ItemParam::new(message)])
        .input_items_raw(vec![obj(vec![
            ("type", s("message")),
            ("role", s("assistant")),
            ("content", s("hello")),
        ])])
        .tools_raw(vec![obj(vec![("type", s("function")), ("name", s("echo"))])])
        .tool_choice_raw(s("none"))
        .insert_raw("metadata", metadata.duplicate())
        .build();

    assert!(payload.body().get("input").is_some());
    assert!(payload.body().get("tools").is_some());
    assert!(payload.body().get("metadata").is_some());
    assert_eq!(jbytes(payload.body().get("metadata").unwrap()), jbytes(&metadata));
    let body = payload.into_body();
    assert_eq!(jbytes(body.get("metadata").unwrap()), jbytes(&metadata));
}
