use rip::catalogue::{
    allowed_stream_event_types, validate_create_response_body, validate_item_param,
    validate_response_resource, validate_responses_tool_param,
    validate_specific_tool_choice_param, validate_stream_event, validate_tool_choice_param,
};
use rip::json::Json;

fn s(x: &str) -> Json {
    Json::Str(x.to_string())
}

fn n(x: i64) -> Json {
    Json::Int(x)
}

fn arr(items: Vec<Json>) -> Json {
    Json::Arr(items)
}

fn obj(fields: Vec<(&str, Json)>) -> Json {
    Json::Obj(fields.into_iter().map(|(k, v)| (k.to_string(), v)).collect())
}

fn errs_of(r: Result<(), Vec<String>>) -> Vec<String> {
    r.err().unwrap_or_default()
}

#[test]
fn types_list_is_non_empty() {
    assert!(!allowed_stream_event_types().is_empty());
}

#[test]
fn types_list_is_the_same_every_call() {
    let first = allowed_stream_event_types();
    let second = allowed_stream_event_types();
    assert_eq!(first, second);
    assert_eq!(first.len(), 15);
    assert_eq!(first[0], "response.created");
    assert_eq!(first[14], "error");
}

#[test]
fn validate_stream_event_rejects_empty() {
    let value = obj(vec![]);
    assert!(validate_stream_event(&value).is_err());
}

#[test]
fn validate_response_resource_rejects_empty() {
    let value = obj(vec![]);
    assert!(validate_response_resource(&value).is_err());
}

#[test]
fn validate_create_response_body_accepts_minimal() {
    let value = obj(vec![("model", s("gpt-4.1")), ("input", s("hi"))]);
    assert!(validate_create_response_body(&value).is_ok());
}

#[test]
fn validate_create_response_body_rejects_invalid_type() {
    let value = s("nope");
    assert!(validate_create_response_body(&value).is_err());
}

#[test]
fn validate_create_response_body_accepts_tools_and_choice() {
    let value = obj(vec![
        ("model", s("gpt-4.1")),
        ("input", s("hi")),
        ("tools", arr(vec![obj(vec![("type", s("function")), ("name", s("echo"))])])),
        ("tool_choice", s("auto")),
    ]);
    let errors = errs_of(validate_create_response_body(&value));
    assert!(errors.is_empty(), "errors: {errors:?}");
}

#[test]
fn validate_create_response_body_reports_invalid_tool_fields() {
    let value = obj(vec![
        ("model", s("gpt-4.1")),
        ("input", s("hi")),
        ("tools", s("nope")),
        ("tool_choice", obj(vec![("type", s("unknown"))])),
    ]);
    let errors = errs_of(validate_create_response_body(&value));
    assert!(
        errors.iter().any(|err| err.contains("tools must be")),
        "errors: {errors:?}"
    );
    assert!(
        errors.iter().any(|err| err.contains("tool_choice")),
        "errors: {errors:?}"
    );
}

#[test]
fn validate_tool_param_accepts_function_tool() {
    let value = obj(vec![("type", s("function")), ("name", s("echo"))]);
    let errors = errs_of(validate_responses_tool_param(&value));
    assert!(errors.is_empty(), "errors: {errors:?}");
}

#[test]
fn validate_tool_param_accepts_all_variants() {
    let variants = vec![
        obj(vec![("type", s("code_interpreter")), ("container", s("cntr_123"))]),
        obj(vec![("type", s("custom")), ("name", s("custom_tool"))]),
        obj(vec![("type", s("web_search"))]),
        obj(vec![("type", s("web_search_2025_08_26"))]),
        obj(vec![("type", s("web_search_ga"))]),
        obj(vec![("type", s("web_search_preview"))]),
        obj(vec![("type", s("web_search_preview_2025_03_11"))]),
        obj(vec![("type", s("image_generation"))]),
        obj(vec![("type", s("mcp")), ("server_label", s("srv"))]),
        obj(vec![("type", s("file_search")), ("vector_store_ids", arr(vec![s("vs_1")]))]),
        obj(vec![
            ("type", s("computer-preview")),
            ("display_width", n(1024)),
            ("display_height", n(768)),
            ("environment", s("linux")),
        ]),
        obj(vec![
            ("type", s("computer_use_preview")),
            ("display_width", n(800)),
            ("display_height", n(600)),
            ("environment", s("browser")),
        ]),
        obj(vec![("type", s("local_shell"))]),
        obj(vec![("type", s("shell"))]),
        obj(vec![("type", s("apply_patch"))]),
    ];

    for value in variants {
        let errors = errs_of(validate_responses_tool_param(&value));
        assert!(errors.is_empty(), "errors: {errors:?}");
    }
}

#[test]
fn validate_tool_param_rejects_invalid() {
    let value = n(42);
    assert!(validate_responses_tool_param(&value).is_err());
}

#[test]
fn validate_tool_choice_param_accepts_auto() {
    let value = s("auto");
    let errors = errs_of(validate_tool_choice_param(&value));
    assert!(errors.is_empty(), "errors: {errors:?}");
}

#[test]
fn validate_tool_choice_param_accepts_specific_function() {
    let value = obj(vec![("type", s("function")), ("name", s("echo"))]);
    let errors = errs_of(validate_tool_choice_param(&value));
    assert!(errors.is_empty(), "errors: {errors:?}");
}

#[test]
fn validate_tool_choice_param_accepts_specific_variants() {
    let variants = vec![
        obj(vec![("type", s("file_search"))]),
        obj(vec![("type", s("web_search"))]),
        obj(vec![("type", s("web_search_preview"))]),
        obj(vec![("type", s("image_generation"))]),
        obj(vec![("type", s("computer-preview"))]),
        obj(vec![("type", s("computer_use_preview"))]),
        obj(vec![("type", s("code_interpreter"))]),
        obj(vec![("type", s("local_shell"))]),
        obj(vec![("type", s("shell"))]),
        obj(vec![("type", s("apply_patch"))]),
        obj(vec![("type", s("custom")), ("name", s("custom_tool"))]),
        obj(vec![("type", s("mcp")), ("server_label", s("srv"))]),
    ];

    for value in variants {
        let errors = errs_of(validate_tool_choice_param(&value));
        assert!(errors.is_empty(), "errors: {errors:?}");
    }
}

#[test]
fn validate_tool_choice_param_accepts_allowed_tools() {
    let value = obj(vec![
        ("type", s("allowed_tools")),
        ("tools", arr(vec![obj(vec![("type", s("function")), ("name", s("echo"))])])),
    ]);
    let errors = errs_of(validate_tool_choice_param(&value));
    assert!(errors.is_empty(), "errors: {errors:?}");
}

#[test]
fn validate_tool_choice_param_rejects_invalid() {
    let value = Json::Bool(false);
    assert!(validate_tool_choice_param(&value).is_err());
}

#[test]
fn tool_choice_empty_allowed_tools_lists_error() {
    let good = obj(vec![
        ("type", s("allowed_tools")),
        ("tools", arr(vec![obj(vec![("type", s("function")), ("name", s("echo"))])])),
    ]);
    assert!(validate_tool_choice_param(&good).is_ok());

    let empty = obj(vec![("type", s("allowed_tools")), ("tools", arr(vec![]))]);
    let errors = errs_of(validate_tool_choice_param(&empty));
    assert!(
        errors.iter().any(|err| err.contains("tools must not be empty")),
        "errors: {errors:?}"
    );
}

#[test]
fn validate_item_param_accepts_user_message() {
    let value = obj(vec![("type", s("message")), ("role", s("user")), ("content", s("hi"))]);
    let errors = errs_of(validate_item_param(&value));
    assert!(errors.is_empty(), "errors: {errors:?}");
}

#[test]
fn validate_item_param_accepts_all_variants() {
    let variants = vec![
        obj(vec![("type", s("message")), ("role", s("assistant")), ("content", s("hi"))]),
        obj(vec![("type", s("message")), ("role", s("developer")), ("content", s("hi"))]),
        obj(vec![("type", s("message")), ("role", s("system")), ("content", s("hi"))]),
        obj(vec![("type", s("message")), ("role", s("user")), ("content", s("hi"))]),
        obj(vec![
            ("type", s("function_call")),
            ("call_id", s("c1")),
            ("name", s("echo")),
            ("arguments", s("{}")),
        ]),
        obj(vec![("type", s("function_call_output")), ("call_id", s("c1")), ("output", s("ok"))]),
        obj(vec![("type", s("reasoning")), ("summary", arr(vec![]))]),
        obj(vec![("type", s("compaction")), ("encrypted_content", s("enc"))]),
        obj(vec![
            ("type", s("code_interpreter_call")),
            ("id", s("ci1")),
            ("container_id", s("cntr_1")),
            ("code", s("print(1)")),
        ]),
        obj(vec![("type", s("computer_call")), ("call_id", s("cc1")), ("action", obj(vec![]))]),
        obj(vec![
            ("type", s("computer_call_output")),
            ("call_id", s("cc1")),
            ("output", obj(vec![])),
        ]),
        obj(vec![
            ("type", s("custom_tool_call")),
            ("call_id", s("ct1")),
            ("name", s("tool")),
            ("input", s("in")),
        ]),
        obj(vec![
            ("type", s("custom_tool_call_output")),
            ("call_id", s("ct1")),
            ("output", s("out")),
        ]),
        obj(vec![("type", s("file_search_call")), ("id", s("fs1")), ("queries", arr(vec![s("q1")]))]),
        obj(vec![("type", s("web_search_call"))]),
        obj(vec![("type", s("image_generation_call")), ("id", s("ig1"))]),
        obj(vec![("type", s("local_shell_call")), ("call_id", s("ls1")), ("action", obj(vec![]))]),
        obj(vec![
            ("type", s("local_shell_call_output")),
            ("call_id", s("ls1")),
            ("output", s("ok")),
        ]),
        obj(vec![("type", s("shell_call")), ("call_id", s("sh1")), ("action", obj(vec![]))]),
        obj(vec![("type", s("shell_call_output")), ("call_id", s("sh1")), ("output", arr(vec![]))]),
        obj(vec![
            ("type", s("apply_patch_call")),
            ("call_id", s("ap1")),
            ("status", s("in_progress")),
            ("operation", obj(vec![])),
        ]),
        obj(vec![
            ("type", s("apply_patch_call_output")),
            ("call_id", s("ap1")),
            ("status", s("completed")),
        ]),
        obj(vec![
            ("type", s("mcp_approval_request")),
            ("server_label", s("srv")),
            ("name", s("tool")),
            ("arguments", s("{}")),
        ]),
        obj(vec![
            ("type", s("mcp_approval_response")),
            ("approval_request_id", s("ar1")),
            ("approve", Json::Bool(true)),
        ]),
        obj(vec![("id", s("item_1"))]),
        obj(vec![("type", s("item_reference")), ("id", s("item_2"))]),
    ];

    for value in variants {
        let errors = errs_of(validate_item_param(&value));
        assert!(errors.is_empty(), "errors: {errors:?}");
    }
}

#[test]
fn validate_item_param_rejects_invalid_type() {
    let value = s("nope");
    assert!(validate_item_param(&value).is_err());
}

#[test]
fn validate_item_param_reports_missing_required_fields() {
    let value = obj(vec![("type", s("function_call"))]);
    let errors = errs_of(validate_item_param(&value));
    assert!(
        errors.iter().any(|err| err.contains("missing required field `call_id`")),
        "errors: {errors:?}"
    );
    assert!(
        errors.iter().any(|err| err.contains("missing required field `name`")),
        "errors: {errors:?}"
    );
    assert!(
        errors.iter().any(|err| err.contains("missing required field `arguments`")),
        "errors: {errors:?}"
    );
}

#[test]
fn validate_item_param_reports_invalid_field_types() {
    let message = obj(vec![("type", s("message")), ("role", n(123)), ("content", n(456))]);
    let errors = errs_of(validate_item_param(&message));
    assert!(
        errors.iter().any(|err| err.contains("role must be a string")),
        "errors: {errors:?}"
    );
    assert!(
        errors.iter().any(|err| err.contains("content must be a string or array")),
        "errors: {errors:?}"
    );

    let invalid_role = obj(vec![("type", s("message")), ("role", s("invalid")), ("content", s("hi"))]);
    let errors = errs_of(validate_item_param(&invalid_role));
    assert!(
        errors.iter().any(|err| err.contains("role must be one of")),
        "errors: {errors:?}"
    );

    let reasoning = obj(vec![("type", s("reasoning")), ("summary", s("nope"))]);
    let errors = errs_of(validate_item_param(&reasoning));
    assert!(
        errors.iter().any(|err| err.contains("summary must be an array")),
        "errors: {errors:?}"
    );

    let computer_call = obj(vec![
        ("type", s("computer_call")),
        ("call_id", s("cc1")),
        ("action", s("nope")),
    ]);
    let errors = errs_of(validate_item_param(&computer_call));
    assert!(
        errors.iter().any(|err| err.contains("action must be an object")),
        "errors: {errors:?}"
    );

    let approval = obj(vec![
        ("type", s("mcp_approval_response")),
        ("approval_request_id", s("ar1")),
        ("approve", s("yes")),
    ]);
    let errors = errs_of(validate_item_param(&approval));
    assert!(
        errors.iter().any(|err| err.contains("approve must be a boolean")),
        "errors: {errors:?}"
    );
}

#[test]
fn validate_item_param_reports_file_search_query_errors() {
    let empty_queries = obj(vec![
        ("type", s("file_search_call")),
        ("id", s("fs1")),
        ("queries", arr(vec![])),
    ]);
    let errors = errs_of(validate_item_param(&empty_queries));
    assert!(
        errors.iter().any(|err| err.contains("queries must not be empty")),
        "errors: {errors:?}"
    );

    let bad_query = obj(vec![
        ("type", s("file_search_call")),
        ("id", s("fs1")),
        ("queries", arr(vec![s("ok"), n(1)])),
    ]);
    let errors = errs_of(validate_item_param(&bad_query));
    assert!(
        errors.iter().any(|err| err.contains("queries[1] must be a string")),
        "errors: {errors:?}"
    );
}

#[test]
fn validate_item_param_reports_item_reference_errors() {
    let value = obj(vec![("type", n(123)), ("id", s("item_1"))]);
    let errors = errs_of(validate_item_param(&value));
    assert!(
        errors.iter().any(|err| err.contains("ItemReferenceParam.type must be a string or null")),
        "errors: {errors:?}"
    );

    let missing_id = obj(vec![("type", Json::Null)]);
    let errors = errs_of(validate_item_param(&missing_id));
    assert!(
        errors.iter().any(|err| err.contains("missing required field `id`")),
        "errors: {errors:?}"
    );
}

#[test]
fn validate_item_param_reports_unknown_type() {
    let value = obj(vec![("type", s("unknown"))]);
    let errors = errs_of(validate_item_param(&value));
    assert!(
        errors.iter().any(|err| err.contains("unsupported value")),
        "errors: {errors:?}"
    );
}

#[test]
fn validate_item_param_reports_additional_type_errors() {
    let function_call = obj(vec![
        ("type", s("function_call")),
        ("call_id", n(1)),
        ("name", n(2)),
        ("arguments", n(3)),
    ]);
    let errors = errs_of(validate_item_param(&function_call));
    assert!(
        errors.iter().any(|err| err.contains("call_id must be a string")),
        "errors: {errors:?}"
    );
    assert!(
        errors.iter().any(|err| err.contains("name must be a string")),
        "errors: {errors:?}"
    );
    assert!(
        errors.iter().any(|err| err.contains("arguments must be a string")),
        "errors: {errors:?}"
    );

    let function_call_output = obj(vec![
        ("type", s("function_call_output")),
        ("call_id", s("c1")),
        ("output", obj(vec![("ok", Json::Bool(true))])),
    ]);
    let errors = errs_of(validate_item_param(&function_call_output));
    assert!(
        errors.iter().any(|err| err.contains("output must be a string or array")),
        "errors: {errors:?}"
    );

    let file_search_call = obj(vec![
        ("type", s("file_search_call")),
        ("id", s("fs1")),
        ("queries", s("nope")),
    ]);
    let errors = errs_of(validate_item_param(&file_search_call));
    assert!(
        errors.iter().any(|err| err.contains("queries must be an array")),
        "errors: {errors:?}"
    );

    let custom_tool_call_output = obj(vec![
        ("type", s("custom_tool_call_output")),
        ("call_id", s("ct1")),
        ("output", n(1)),
    ]);
    let errors = errs_of(validate_item_param(&custom_tool_call_output));
    assert!(
        errors.iter().any(|err| err.contains("output must be a string")),
        "errors: {errors:?}"
    );
}

#[test]
fn validate_specific_tool_choice_error_paths() {
    let errors = errs_of(validate_specific_tool_choice_param(&obj(vec![("name", s("tool"))])));
    assert!(
        errors.iter().any(|err| err.contains("SpecificToolChoiceParam.type must be a string")),
        "errors: {errors:?}"
    );

    let errors = errs_of(validate_specific_tool_choice_param(&obj(vec![("type", s("unknown"))])));
    assert!(
        errors.iter().any(|err| err.contains("unsupported value")),
        "errors: {errors:?}"
    );

    let errors = errs_of(validate_specific_tool_choice_param(&s("nope")));
    assert!(
        errors.iter().any(|err| err.contains("SpecificToolChoiceParam must be an object")),
        "errors: {errors:?}"
    );

    let zero_width = obj(vec![
        ("type", s("computer-preview")),
        ("display_width", n(0)),
        ("display_height", n(600)),
        ("environment", s("linux")),
    ]);
    let errors = errs_of(validate_responses_tool_param(&zero_width));
    assert!(
        errors.iter().any(|err| err.contains("must be a positive integer")),
        "errors: {errors:?}"
    );
}
