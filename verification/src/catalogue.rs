//! The schema catalogue: structural validators for request payloads, tools,
//! tool choices and items.  Discriminated unions are validated by reading the
//! `type` discriminator and applying the matching per-variant field checks.
//! Validators collect every error they find in one pass and never stop at
//! the first; a call succeeds exactly when the value is valid.

use vstd::prelude::*;

use crate::json::{clone_string, field_lookup, obj_get, string_is, Json, JsonV};
use crate::text::usize_to_string;

verus! {

broadcast use vstd::std_specs::vec::group_vec_axioms, vstd::seq::group_seq_axioms;

/// The value under `key` is a string.
pub open spec fn has_str_field(v: JsonV, key: Seq<char>) -> bool {
    obj_get(v, key) matches Some(JsonV::Str(_))
}

/// The value under `key` is an array.
pub open spec fn has_arr_field(v: JsonV, key: Seq<char>) -> bool {
    obj_get(v, key) matches Some(JsonV::Arr(_))
}

/// The value under `key` is an object.
pub open spec fn has_obj_field(v: JsonV, key: Seq<char>) -> bool {
    obj_get(v, key) matches Some(JsonV::Obj(_))
}

/// The value under `key` is a boolean.
pub open spec fn has_bool_field(v: JsonV, key: Seq<char>) -> bool {
    obj_get(v, key) matches Some(JsonV::Bool(_))
}

/// The value under `key` is a positive integer.
pub open spec fn has_pos_int_field(v: JsonV, key: Seq<char>) -> bool {
    obj_get(v, key) matches Some(JsonV::Int(n)) && n > 0
}

/// The message a missing required field is reported with.
pub open spec fn missing_field_msg(context: Seq<char>, field: Seq<char>) -> Seq<char> {
    context + " missing required field `"@ + field + "`"@
}

/// The message a wrongly-typed string field is reported with.
pub open spec fn not_string_msg(context: Seq<char>, field: Seq<char>) -> Seq<char> {
    context + "."@ + field + " must be a string"@
}

/// Joins message parts into one error string.
fn msg2(a: &str, b: &str) -> (r: String)
    ensures
        r@ == a@ + b@,
{
    String::from_str(a).concat(b)
}

/// Joins message parts into one error string.
fn msg3(a: &str, b: &str, c: &str) -> (r: String)
    ensures
        r@ == a@ + b@ + c@,
{
    String::from_str(a).concat(b).concat(c)
}

/// Joins message parts into one error string.
fn msg4(a: &str, b: &str, c: &str, d: &str) -> (r: String)
    ensures
        r@ == a@ + b@ + c@ + d@,
{
    String::from_str(a).concat(b).concat(c).concat(d)
}

/// Looks a required field up, recording an error when it is missing.
fn require_field<'a>(
    v: &'a Json,
    field: &str,
    context: &str,
    errors: &mut Vec<String>,
) -> (r: Option<&'a Json>)
    ensures
        match obj_get(v@, field@) {
            Some(x) => r matches Some(j) && j@ == x && final (errors)@ == old(errors)@,
            None => r is None && final (errors)@.len() == old(errors)@.len() + 1
                && final (errors)@.last()@ == missing_field_msg(context@, field@) && (forall|
                k: int,
            |
                0 <= k < old(errors)@.len() ==> #[trigger] final (errors)@[k]
                    == old(errors)@[k]),
        },
{
    match v.get(field) {
        Some(value) => Some(value),
        None => {
            errors.push(msg4(context, " missing required field `", field, "`"));
            None
        },
    }
}

/// Requires a string field, recording an error otherwise.
fn require_string_field(v: &Json, field: &str, context: &str, errors: &mut Vec<String>)
    ensures
        final (errors)@.len() >= old(errors)@.len(),
        final (errors)@.len() == old(errors)@.len() <==> has_str_field(v@, field@),
        forall|k: int|
            0 <= k < old(errors)@.len() ==> #[trigger] final (errors)@[k] == old(errors)@[k],
        obj_get(v@, field@) is None ==> final (errors)@.len() == old(errors)@.len() + 1
            && final (errors)@.last()@ == missing_field_msg(context@, field@),
        (match obj_get(v@, field@) {
            Some(x) => !(x is Str),
            Option::None => false,
        }) ==> final (errors)@.len() == old(errors)@.len() + 1 && final (errors)@.last()@
            == not_string_msg(context@, field@),
{
    match require_field(v, field, context, errors) {
        Some(value) => {
            if !value.is_string() {
                errors.push(msg4(context, ".", field, " must be a string"));
            }
        },
        None => {},
    }
}

/// Requires an array field, recording an error otherwise.
fn require_array_field(v: &Json, field: &str, context: &str, errors: &mut Vec<String>)
    ensures
        final (errors)@.len() >= old(errors)@.len(),
        final (errors)@.len() == old(errors)@.len() <==> has_arr_field(v@, field@),
{
    match require_field(v, field, context, errors) {
        Some(value) => {
            match value {
                Json::Arr(_) => {},
                _ => {
                    errors.push(msg4(context, ".", field, " must be an array"));
                },
            }
        },
        None => {},
    }
}

/// Requires an object field, recording an error otherwise.
fn require_object_field(v: &Json, field: &str, context: &str, errors: &mut Vec<String>)
    ensures
        final (errors)@.len() >= old(errors)@.len(),
        final (errors)@.len() == old(errors)@.len() <==> has_obj_field(v@, field@),
{
    match require_field(v, field, context, errors) {
        Some(value) => {
            match value {
                Json::Obj(_) => {},
                _ => {
                    errors.push(msg4(context, ".", field, " must be an object"));
                },
            }
        },
        None => {},
    }
}

/// Requires a boolean field, recording an error otherwise.
fn require_bool_field(v: &Json, field: &str, context: &str, errors: &mut Vec<String>)
    ensures
        final (errors)@.len() >= old(errors)@.len(),
        final (errors)@.len() == old(errors)@.len() <==> has_bool_field(v@, field@),
{
    match require_field(v, field, context, errors) {
        Some(value) => {
            match value {
                Json::Bool(_) => {},
                _ => {
                    errors.push(msg4(context, ".", field, " must be a boolean"));
                },
            }
        },
        None => {},
    }
}

/// Every element is a string.
pub open spec fn str_items_ok(items: Seq<JsonV>) -> bool {
    forall|i: int| 0 <= i < items.len() ==> #[trigger] items[i] is Str
}

/// One of the computer-tool environments.
pub open spec fn computer_env_ok(e: Seq<char>) -> bool {
    e == "windows"@ || e == "mac"@ || e == "linux"@ || e == "browser"@
}

/// One of the bare tool-choice strings.
pub open spec fn tool_choice_value_ok(s: Seq<char>) -> bool {
    s == "auto"@ || s == "required"@ || s == "none"@
}

/// A tool type with no required fields.
pub open spec fn stateless_tool_type(t: Seq<char>) -> bool {
    ||| t == "web_search"@
    ||| t == "web_search_2025_08_26"@
    ||| t == "web_search_ga"@
    ||| t == "web_search_preview"@
    ||| t == "web_search_preview_2025_03_11"@
    ||| t == "image_generation"@
    ||| t == "local_shell"@
    ||| t == "shell"@
    ||| t == "apply_patch"@
}

/// A tool parameter is valid: an object whose `type` is a string picking a
/// variant, with that variant's required fields.
pub open spec fn tool_param_valid(v: JsonV) -> bool {
    match obj_get(v, "type"@) {
        Some(JsonV::Str(t)) => if t == "function"@ {
            has_str_field(v, "name"@)
        } else if t == "custom"@ {
            has_str_field(v, "name"@)
        } else if t == "mcp"@ {
            has_str_field(v, "server_label"@)
        } else if t == "file_search"@ {
            obj_get(v, "vector_store_ids"@) matches Some(JsonV::Arr(items)) && items.len() > 0
                && str_items_ok(items)
        } else if t == "code_interpreter"@ {
            match obj_get(v, "container"@) {
                Some(JsonV::Str(_)) => true,
                Some(JsonV::Obj(fs)) => field_lookup(fs, "type"@) matches Some(JsonV::Str(s)) && s
                    == "auto"@,
                _ => false,
            }
        } else if t == "computer-preview"@ || t == "computer_use_preview"@ {
            &&& has_pos_int_field(v, "display_width"@)
            &&& has_pos_int_field(v, "display_height"@)
            &&& (obj_get(v, "environment"@) matches Some(JsonV::Str(e)) && computer_env_ok(e))
        } else {
            stateless_tool_type(t)
        },
        _ => false,
    }
}

/// A specific tool choice is valid: an object whose `type` is a string
/// picking a variant, with that variant's required fields.
pub open spec fn specific_tool_choice_valid(v: JsonV) -> bool {
    match obj_get(v, "type"@) {
        Some(JsonV::Str(t)) => if t == "function"@ {
            has_str_field(v, "name"@)
        } else if t == "custom"@ {
            has_str_field(v, "name"@)
        } else if t == "mcp"@ {
            has_str_field(v, "server_label"@)
        } else {
            ||| t == "file_search"@
            ||| t == "web_search"@
            ||| t == "web_search_preview"@
            ||| t == "image_generation"@
            ||| t == "computer-preview"@
            ||| t == "computer_use_preview"@
            ||| t == "code_interpreter"@
            ||| t == "local_shell"@
            ||| t == "shell"@
            ||| t == "apply_patch"@
        },
        _ => false,
    }
}

/// Every element is a valid specific tool choice.
pub open spec fn specific_items_ok(items: Seq<JsonV>) -> bool {
    forall|i: int| 0 <= i < items.len() ==> specific_tool_choice_valid(#[trigger] items[i])
}

/// A tool choice is valid: one of the bare strings, an `allowed_tools`
/// object with a non-empty list of specific choices and an optional mode, or
/// a specific tool choice.
pub open spec fn tool_choice_valid(v: JsonV) -> bool {
    match v {
        JsonV::Str(s) => tool_choice_value_ok(s),
        JsonV::Obj(_) => match obj_get(v, "type"@) {
            Some(JsonV::Str(t)) => if t == "allowed_tools"@ {
                &&& (obj_get(v, "tools"@) matches Some(JsonV::Arr(items)) && items.len() > 0
                    && specific_items_ok(items))
                &&& match obj_get(v, "mode"@) {
                    Option::None => true,
                    Some(JsonV::Str(mo)) => tool_choice_value_ok(mo),
                    Some(_) => false,
                }
            } else {
                specific_tool_choice_valid(v)
            },
            _ => false,
        },
        _ => false,
    }
}

/// Requires a positive integer field, recording an error otherwise.
fn require_positive_integer_field(v: &Json, field: &str, context: &str, errors: &mut Vec<String>)
    ensures
        final (errors)@.len() >= old(errors)@.len(),
        final (errors)@.len() == old(errors)@.len() <==> has_pos_int_field(v@, field@),
{
    match require_field(v, field, context, errors) {
        Some(value) => {
            match value {
                Json::Int(n) => {
                    if !(*n > 0) {
                        errors.push(msg4(context, ".", field, " must be a positive integer"));
                    }
                },
                _ => {
                    errors.push(msg4(context, ".", field, " must be an integer"));
                },
            }
        },
        None => {},
    }
}

/// Checks that every element of `items` is a string, recording one indexed
/// error per offender.
fn check_string_items(items: &Vec<Json>, context: &str, field: &str, errors: &mut Vec<String>)
    ensures
        final (errors)@.len() >= old(errors)@.len(),
        final (errors)@.len() == old(errors)@.len() <==> str_items_ok(
            crate::json::json_seq_view(items@),
        ),
{
    let n = items.len();
    let mut i: usize = 0;
    let ghost base = errors@.len();
    proof {
        crate::json::lemma_json_seq_view(items@);
    }
    while i < n
        invariant
            0 <= i <= n,
            n == items@.len(),
            errors@.len() >= base,
            crate::json::json_seq_view(items@).len() == n,
            forall|k: int|
                0 <= k < n ==> #[trigger] crate::json::json_seq_view(items@)[k] == items@[k]@,
            errors@.len() == base <==> (forall|k: int|
                0 <= k < i ==> #[trigger] crate::json::json_seq_view(items@)[k] is Str),
        decreases n - i,
    {
        let ghost len_before = errors@.len();
        if !items[i].is_string() {
            let idx = usize_to_string(i);
            errors.push(
                msg3(context, ".", field).concat("[").concat(idx.as_str()).concat(
                    "] must be a string",
                ),
            );
        }
        proof {
            assert(crate::json::json_seq_view(items@)[i as int] == items@[i as int]@);
            if errors@.len() == base {
                assert(len_before == base && items@[i as int]@ is Str);
                assert forall|k: int|
                    0 <= k < i + 1 implies #[trigger] crate::json::json_seq_view(items@)[k]
                    is Str by {}
            } else {
                assert(!(errors@.len() == base));
            }
        }
        i = i + 1;
    }
}

/// Validates a tool parameter, collecting every error.
pub fn validate_responses_tool_param(value: &Json) -> (r: Result<(), Vec<String>>)
    ensures
        r is Ok <==> tool_param_valid(value@),
        r matches Err(e) ==> e@.len() > 0,
{
    let mut errors: Vec<String> = Vec::new();
    match value {
        Json::Obj(_) => {},
        _ => {
            errors.push(String::from_str("ResponsesToolParam must be an object"));
            return Err(errors);
        },
    }
    let type_field = value.get("type");
    let tool_type = match type_field {
        Some(tv) => match tv.as_str() {
            Some(ts) => ts,
            None => {
                errors.push(String::from_str("ResponsesToolParam.type must be a string"));
                return Err(errors);
            },
        },
        None => {
            errors.push(String::from_str("ResponsesToolParam.type must be a string"));
            return Err(errors);
        },
    };

    if string_is(tool_type, "function") {
        require_string_field(value, "name", "ResponsesToolParam(function)", &mut errors);
    } else if string_is(tool_type, "custom") {
        require_string_field(value, "name", "ResponsesToolParam(custom)", &mut errors);
    } else if string_is(tool_type, "mcp") {
        require_string_field(value, "server_label", "ResponsesToolParam(mcp)", &mut errors);
    } else if string_is(tool_type, "file_search") {
        let context = "ResponsesToolParam(file_search)";
        match require_field(value, "vector_store_ids", context, &mut errors) {
            Some(ids) => match ids {
                Json::Arr(items) => {
                    proof {
                        crate::json::lemma_json_seq_view(items@);
                        assert(ids@ == JsonV::Arr(crate::json::json_seq_view(items@)));
                    }
                    if items.len() == 0 {
                        errors.push(msg2(context, ".vector_store_ids must not be empty"));
                    }
                    check_string_items(items, context, "vector_store_ids", &mut errors);
                },
                _ => {
                    errors.push(msg2(context, ".vector_store_ids must be an array"));
                },
            },
            None => {},
        }
    } else if string_is(tool_type, "code_interpreter") {
        let context = "ResponsesToolParam(code_interpreter)";
        match require_field(value, "container", context, &mut errors) {
            Some(container) => match container {
                Json::Str(_) => {},
                Json::Obj(_) => {
                    match container.get("type") {
                        Some(t) => match t.as_str() {
                            Some(ts) => {
                                if !string_is(ts, "auto") {
                                    errors.push(
                                        msg2(context, ".container.type must be \"auto\""),
                                    );
                                }
                            },
                            None => {
                                errors.push(msg2(context, ".container.type must be a string"));
                            },
                        },
                        None => {
                            errors.push(msg2(context, ".container.type must be a string"));
                        },
                    }
                },
                _ => {
                    errors.push(msg2(context, ".container must be a string or object"));
                },
            },
            None => {},
        }
    } else if string_is(tool_type, "computer-preview") || string_is(
        tool_type,
        "computer_use_preview",
    ) {
        let context_string = msg3("ResponsesToolParam(", tool_type.as_str(), ")");
        let context = context_string.as_str();
        require_positive_integer_field(value, "display_width", context, &mut errors);
        require_positive_integer_field(value, "display_height", context, &mut errors);
        match require_field(value, "environment", context, &mut errors) {
            Some(env) => match env.as_str() {
                Some(e) => {
                    if !(string_is(e, "windows") || string_is(e, "mac") || string_is(e, "linux")
                        || string_is(e, "browser")) {
                        errors.push(
                            msg2(
                                context,
                                ".environment must be one of windows, mac, linux, browser",
                            ),
                        );
                    }
                },
                None => {
                    errors.push(msg2(context, ".environment must be a string"));
                },
            },
            None => {},
        }
    } else if string_is(tool_type, "web_search") || string_is(tool_type, "web_search_2025_08_26")
        || string_is(tool_type, "web_search_ga") || string_is(tool_type, "web_search_preview")
        || string_is(tool_type, "web_search_preview_2025_03_11") || string_is(
        tool_type,
        "image_generation",
    ) || string_is(tool_type, "local_shell") || string_is(tool_type, "shell") || string_is(
        tool_type,
        "apply_patch",
    ) {
    } else {
        errors.push(
            msg3(
                "ResponsesToolParam.type has unsupported value \"",
                tool_type.as_str(),
                "\"",
            ),
        );
    }

    if errors.len() == 0 {
        Ok(())
    } else {
        Err(errors)
    }
}

/// Validates a specific tool choice, collecting every error.
pub fn validate_specific_tool_choice_param(value: &Json) -> (r: Result<(), Vec<String>>)
    ensures
        r is Ok <==> specific_tool_choice_valid(value@),
        r matches Err(e) ==> e@.len() > 0,
{
    let mut errors: Vec<String> = Vec::new();
    match value {
        Json::Obj(_) => {},
        _ => {
            errors.push(String::from_str("SpecificToolChoiceParam must be an object"));
            return Err(errors);
        },
    }
    let type_field = value.get("type");
    let tool_type = match type_field {
        Some(tv) => match tv.as_str() {
            Some(ts) => ts,
            None => {
                errors.push(String::from_str("SpecificToolChoiceParam.type must be a string"));
                return Err(errors);
            },
        },
        None => {
            errors.push(String::from_str("SpecificToolChoiceParam.type must be a string"));
            return Err(errors);
        },
    };

    if string_is(tool_type, "function") {
        require_string_field(value, "name", "SpecificToolChoiceParam(function)", &mut errors);
    } else if string_is(tool_type, "custom") {
        require_string_field(value, "name", "SpecificToolChoiceParam(custom)", &mut errors);
    } else if string_is(tool_type, "mcp") {
        require_string_field(value, "server_label", "SpecificToolChoiceParam(mcp)", &mut errors);
    } else if string_is(tool_type, "file_search") || string_is(tool_type, "web_search")
        || string_is(tool_type, "web_search_preview") || string_is(tool_type, "image_generation")
        || string_is(tool_type, "computer-preview") || string_is(
        tool_type,
        "computer_use_preview",
    ) || string_is(tool_type, "code_interpreter") || string_is(tool_type, "local_shell")
        || string_is(tool_type, "shell") || string_is(tool_type, "apply_patch") {
    } else {
        errors.push(
            msg3(
                "SpecificToolChoiceParam.type has unsupported value \"",
                tool_type.as_str(),
                "\"",
            ),
        );
    }

    if errors.len() == 0 {
        Ok(())
    } else {
        Err(errors)
    }
}

/// Validates a tool choice, collecting every error.
pub fn validate_tool_choice_param(value: &Json) -> (r: Result<(), Vec<String>>)
    ensures
        r is Ok <==> tool_choice_valid(value@),
        r matches Err(e) ==> e@.len() > 0,
        match r {
            Err(e) => (obj_get(value@, "type"@) == Some(JsonV::Str("allowed_tools"@))
                && obj_get(value@, "tools"@) == Some(JsonV::Arr(Seq::<JsonV>::empty())))
                ==> crate::json::has_msg(
                e@,
                "ToolChoiceParam(allowed_tools)"@ + ".tools must not be empty"@,
            ),
            Ok(_) => true,
        },
{
    let mut errors: Vec<String> = Vec::new();
    match value {
        Json::Str(choice) => {
            if !(string_is(choice, "auto") || string_is(choice, "required") || string_is(
                choice,
                "none",
            )) {
                errors.push(
                    String::from_str("ToolChoiceParam must be one of auto, required, none"),
                );
            }
        },
        Json::Obj(_) => {
            let type_field = value.get("type");
            let choice_type = match type_field {
                Some(tv) => match tv.as_str() {
                    Some(ts) => ts,
                    None => {
                        errors.push(String::from_str("ToolChoiceParam.type must be a string"));
                        return Err(errors);
                    },
                },
                None => {
                    errors.push(String::from_str("ToolChoiceParam.type must be a string"));
                    return Err(errors);
                },
            };
            if string_is(choice_type, "allowed_tools") {
                let context = "ToolChoiceParam(allowed_tools)";
                match require_field(value, "tools", context, &mut errors) {
                    Some(tools) => match tools {
                        Json::Arr(items) => {
                            proof {
                                crate::json::lemma_json_seq_view(items@);
                                assert(tools@ == JsonV::Arr(
                                    crate::json::json_seq_view(items@),
                                ));
                            }
                            if items.len() == 0 {
                                errors.push(msg2(context, ".tools must not be empty"));
                                proof {
                                    assert(errors@[0]@ == context@
                                        + ".tools must not be empty"@);
                                }
                            }
                            check_specific_items(items, context, &mut errors);
                        },
                        _ => {
                            errors.push(msg2(context, ".tools must be an array"));
                        },
                    },
                    None => {},
                }
                match value.get("mode") {
                    Some(mode) => match mode.as_str() {
                        Some(mo) => {
                            if !(string_is(mo, "auto") || string_is(mo, "required") || string_is(
                                mo,
                                "none",
                            )) {
                                errors.push(
                                    msg2(context, ".mode must be one of auto, required, none"),
                                );
                            }
                        },
                        None => {
                            errors.push(msg2(context, ".mode must be a string"));
                        },
                    },
                    None => {},
                }
            } else {
                match validate_specific_tool_choice_param(value) {
                    Ok(()) => {},
                    Err(errs) => {
                        let mut k: usize = 0;
                        let n = errs.len();
                        let ghost before = errors@.len();
                        while k < n
                            invariant
                                0 <= k <= n,
                                n == errs@.len(),
                                n > 0,
                                errors@.len() == before + k,
                            decreases n - k,
                        {
                            errors.push(clone_string(&errs[k]));
                            k = k + 1;
                        }
                    },
                }
            }
        },
        _ => {
            errors.push(String::from_str("ToolChoiceParam must be a string or object"));
        },
    }

    proof {
        if obj_get(value@, "type"@) == Some(JsonV::Str("allowed_tools"@)) && obj_get(
            value@,
            "tools"@,
        ) == Some(JsonV::Arr(Seq::<JsonV>::empty())) {
            assert(errors@.len() > 0);
            assert(errors@[0]@ == "ToolChoiceParam(allowed_tools)"@
                + ".tools must not be empty"@);
            assert(crate::json::has_msg(
                errors@,
                "ToolChoiceParam(allowed_tools)"@ + ".tools must not be empty"@,
            ));
        }
    }
    if errors.len() == 0 {
        Ok(())
    } else {
        Err(errors)
    }
}

/// Checks that every element of `items` is a valid specific tool choice,
/// recording its errors under the element's index.
fn check_specific_items(items: &Vec<Json>, context: &str, errors: &mut Vec<String>)
    ensures
        final (errors)@.len() >= old(errors)@.len(),
        final (errors)@.len() == old(errors)@.len() <==> specific_items_ok(
            crate::json::json_seq_view(items@),
        ),
        forall|k: int|
            0 <= k < old(errors)@.len() ==> #[trigger] final (errors)@[k] == old(errors)@[k],
{
    let n = items.len();
    let mut i: usize = 0;
    let ghost base = errors@.len();
    proof {
        crate::json::lemma_json_seq_view(items@);
    }
    while i < n
        invariant
            0 <= i <= n,
            n == items@.len(),
            errors@.len() >= base,
            base == old(errors)@.len(),
            forall|k: int|
                0 <= k < old(errors)@.len() ==> #[trigger] errors@[k] == old(errors)@[k],
            crate::json::json_seq_view(items@).len() == n,
            forall|k: int|
                0 <= k < n ==> #[trigger] crate::json::json_seq_view(items@)[k] == items@[k]@,
            errors@.len() == base <==> (forall|k: int|
                0 <= k < i ==> specific_tool_choice_valid(
                    #[trigger] crate::json::json_seq_view(items@)[k],
                )),
        decreases n - i,
    {
        let ghost len_before = errors@.len();
        match validate_specific_tool_choice_param(&items[i]) {
            Ok(()) => {
                proof {
                    assert(specific_tool_choice_valid(items@[i as int]@));
                }
            },
            Err(errs) => {
                let idx = usize_to_string(i);
                let prefix = msg2(context, ".tools[").concat(idx.as_str()).concat("]: ");
                let m = errs.len();
                let mut k: usize = 0;
                let ghost before = errors@.len();
                let ghost pre_items = errors@;
                while k < m
                    invariant
                        0 <= k <= m,
                        m == errs@.len(),
                        m > 0,
                        errors@.len() == before + k,
                        before == pre_items.len(),
                        forall|j: int| 0 <= j < before ==> #[trigger] errors@[j] == pre_items[j],
                    decreases m - k,
                {
                    errors.push(clone_string(&prefix).concat(errs[k].as_str()));
                    k = k + 1;
                }
            },
        }
        proof {
            assert(crate::json::json_seq_view(items@)[i as int] == items@[i as int]@);
            if errors@.len() == base {
                assert(len_before == base && specific_tool_choice_valid(items@[i as int]@));
                assert forall|k: int|
                    0 <= k < i + 1 implies specific_tool_choice_valid(
                    #[trigger] crate::json::json_seq_view(items@)[k],
                ) by {}
            }
        }
        i = i + 1;
    }
}

/// One of the message roles.
pub open spec fn message_role_ok(r: Seq<char>) -> bool {
    r == "assistant"@ || r == "developer"@ || r == "system"@ || r == "user"@
}

/// The per-variant required-field matrix for items, keyed on the `type`
/// discriminator.
pub open spec fn item_variant_valid(v: JsonV, t: Seq<char>) -> bool {
    if t == "message"@ {
        &&& (obj_get(v, "role"@) matches Some(JsonV::Str(r)) && message_role_ok(r))
        &&& match obj_get(v, "content"@) {
            Some(JsonV::Str(_)) => true,
            Some(JsonV::Arr(_)) => true,
            _ => false,
        }
    } else if t == "function_call"@ {
        has_str_field(v, "call_id"@) && has_str_field(v, "name"@) && has_str_field(
            v,
            "arguments"@,
        )
    } else if t == "function_call_output"@ {
        &&& has_str_field(v, "call_id"@)
        &&& match obj_get(v, "output"@) {
            Some(JsonV::Str(_)) => true,
            Some(JsonV::Arr(_)) => true,
            _ => false,
        }
    } else if t == "reasoning"@ {
        has_arr_field(v, "summary"@)
    } else if t == "compaction"@ {
        has_str_field(v, "encrypted_content"@)
    } else if t == "code_interpreter_call"@ {
        has_str_field(v, "id"@) && has_str_field(v, "container_id"@) && has_str_field(v, "code"@)
    } else if t == "computer_call"@ {
        has_str_field(v, "call_id"@) && has_obj_field(v, "action"@)
    } else if t == "computer_call_output"@ {
        has_str_field(v, "call_id"@) && has_obj_field(v, "output"@)
    } else if t == "custom_tool_call"@ {
        has_str_field(v, "call_id"@) && has_str_field(v, "name"@) && has_str_field(v, "input"@)
    } else if t == "custom_tool_call_output"@ {
        has_str_field(v, "call_id"@) && has_str_field(v, "output"@)
    } else if t == "file_search_call"@ {
        &&& has_str_field(v, "id"@)
        &&& (obj_get(v, "queries"@) matches Some(JsonV::Arr(items)) && items.len() > 0
            && str_items_ok(items))
    } else if t == "web_search_call"@ {
        true
    } else if t == "image_generation_call"@ {
        has_str_field(v, "id"@)
    } else if t == "local_shell_call"@ {
        has_str_field(v, "call_id"@) && has_obj_field(v, "action"@)
    } else if t == "local_shell_call_output"@ {
        has_str_field(v, "call_id"@) && has_str_field(v, "output"@)
    } else if t == "shell_call"@ {
        has_str_field(v, "call_id"@) && has_obj_field(v, "action"@)
    } else if t == "shell_call_output"@ {
        has_str_field(v, "call_id"@) && has_arr_field(v, "output"@)
    } else if t == "apply_patch_call"@ {
        has_str_field(v, "call_id"@) && has_str_field(v, "status"@) && has_obj_field(
            v,
            "operation"@,
        )
    } else if t == "apply_patch_call_output"@ {
        has_str_field(v, "call_id"@) && has_str_field(v, "status"@)
    } else if t == "mcp_approval_request"@ {
        has_str_field(v, "server_label"@) && has_str_field(v, "name"@) && has_str_field(
            v,
            "arguments"@,
        )
    } else if t == "mcp_approval_response"@ {
        has_str_field(v, "approval_request_id"@) && has_bool_field(v, "approve"@)
    } else {
        false
    }
}

/// An item parameter is valid: an object whose `type` picks a variant with
/// its required fields, or an item reference when the `type` is absent,
/// null, or the string `item_reference`.
pub open spec fn item_param_valid(v: JsonV) -> bool {
    &&& v is Obj
    &&& match obj_get(v, "type"@) {
        Option::None => has_str_field(v, "id"@),
        Some(JsonV::Null) => has_str_field(v, "id"@),
        Some(JsonV::Str(t)) => if t == "item_reference"@ {
            has_str_field(v, "id"@)
        } else {
            item_variant_valid(v, t)
        },
        Some(_) => false,
    }
}

/// Checks the required fields of one item variant, collecting every error.
fn check_item_variant(value: &Json, t: &String, errors: &mut Vec<String>)
    ensures
        final (errors)@.len() >= old(errors)@.len(),
        final (errors)@.len() == old(errors)@.len() <==> item_variant_valid(value@, t@),
        t@ == "function_call"@ ==> {
            &&& (obj_get(value@, "call_id"@) is None ==> crate::json::has_msg(
                final (errors)@,
                missing_field_msg("ItemParam(function_call)"@, "call_id"@),
            ))
            &&& (obj_get(value@, "name"@) is None ==> crate::json::has_msg(
                final (errors)@,
                missing_field_msg("ItemParam(function_call)"@, "name"@),
            ))
            &&& (obj_get(value@, "arguments"@) is None ==> crate::json::has_msg(
                final (errors)@,
                missing_field_msg("ItemParam(function_call)"@, "arguments"@),
            ))
        },
{
    proof {
        reveal_strlit("function_call");
        reveal_strlit("message");
        reveal_strlit("function_call_output");
        reveal_strlit("reasoning");
        reveal_strlit("compaction");
        reveal_strlit("code_interpreter_call");
        reveal_strlit("computer_call");
        reveal_strlit("computer_call_output");
        reveal_strlit("custom_tool_call");
        reveal_strlit("custom_tool_call_output");
        reveal_strlit("file_search_call");
        reveal_strlit("web_search_call");
        reveal_strlit("image_generation_call");
        reveal_strlit("local_shell_call");
        reveal_strlit("local_shell_call_output");
        reveal_strlit("shell_call");
        reveal_strlit("shell_call_output");
        reveal_strlit("apply_patch_call");
        reveal_strlit("apply_patch_call_output");
        reveal_strlit("mcp_approval_request");
        reveal_strlit("mcp_approval_response");
        assert("function_call"@.len() == 13);
        assert("computer_call"@.len() == 13);
        assert("computer_call"@[0] != "function_call"@[0]);
        assert("message"@.len() == 7);
        assert("function_call_output"@.len() == 20);
        assert("reasoning"@.len() == 9);
        assert("compaction"@.len() == 10);
        assert("code_interpreter_call"@.len() == 21);
        assert("computer_call_output"@.len() == 20);
        assert("custom_tool_call"@.len() == 16);
        assert("custom_tool_call_output"@.len() == 23);
        assert("file_search_call"@.len() == 16);
        assert("web_search_call"@.len() == 15);
        assert("image_generation_call"@.len() == 21);
        assert("local_shell_call"@.len() == 16);
        assert("local_shell_call_output"@.len() == 23);
        assert("shell_call"@.len() == 10);
        assert("shell_call_output"@.len() == 17);
        assert("apply_patch_call"@.len() == 16);
        assert("apply_patch_call_output"@.len() == 23);
        assert("mcp_approval_request"@.len() == 20);
        assert("mcp_approval_response"@.len() == 21);
        assert("message"@ != "function_call"@);
        assert("function_call_output"@ != "function_call"@);
        assert("reasoning"@ != "function_call"@);
        assert("compaction"@ != "function_call"@);
        assert("code_interpreter_call"@ != "function_call"@);
        assert("computer_call"@ != "function_call"@);
        assert("computer_call_output"@ != "function_call"@);
        assert("custom_tool_call"@ != "function_call"@);
        assert("custom_tool_call_output"@ != "function_call"@);
        assert("file_search_call"@ != "function_call"@);
        assert("web_search_call"@ != "function_call"@);
        assert("image_generation_call"@ != "function_call"@);
        assert("local_shell_call"@ != "function_call"@);
        assert("local_shell_call_output"@ != "function_call"@);
        assert("shell_call"@ != "function_call"@);
        assert("shell_call_output"@ != "function_call"@);
        assert("apply_patch_call"@ != "function_call"@);
        assert("apply_patch_call_output"@ != "function_call"@);
        assert("mcp_approval_request"@ != "function_call"@);
        assert("mcp_approval_response"@ != "function_call"@);
    }
    if string_is(t, "message") {
        let context = "ItemParam(message)";
        match require_field(value, "role", context, errors) {
            Some(role) => match role {
                Json::Str(rs) => {
                    if !(string_is(rs, "assistant") || string_is(rs, "developer") || string_is(
                        rs,
                        "system",
                    ) || string_is(rs, "user")) {
                        errors.push(
                            msg2(context, ".role must be one of assistant, developer, system, user"),
                        );
                    }
                },
                _ => {
                    errors.push(msg2(context, ".role must be a string"));
                },
            },
            None => {},
        }
        match require_field(value, "content", context, errors) {
            Some(content) => match content {
                Json::Str(_) => {},
                Json::Arr(_) => {},
                _ => {
                    errors.push(msg2(context, ".content must be a string or array"));
                },
            },
            None => {},
        }
    } else if string_is(t, "function_call") {
        let context = "ItemParam(function_call)";
        require_string_field(value, "call_id", context, errors);
        let ghost after_call_id = errors@;
        require_string_field(value, "name", context, errors);
        let ghost after_name = errors@;
        require_string_field(value, "arguments", context, errors);
        proof {
            if obj_get(value@, "call_id"@) is None {
                let idx = after_call_id.len() - 1;
                assert(errors@[idx]@ == missing_field_msg(context@, "call_id"@)) by {
                    assert(after_name[idx] == after_call_id[idx]);
                    assert(errors@[idx] == after_name[idx]);
                }
                assert(crate::json::has_msg(
                    errors@,
                    missing_field_msg(context@, "call_id"@),
                ));
            }
            if obj_get(value@, "name"@) is None {
                let idx = after_name.len() - 1;
                assert(errors@[idx]@ == missing_field_msg(context@, "name"@)) by {
                    assert(errors@[idx] == after_name[idx]);
                }
                assert(crate::json::has_msg(errors@, missing_field_msg(context@, "name"@)));
            }
            if obj_get(value@, "arguments"@) is None {
                let idx = errors@.len() - 1;
                assert(crate::json::has_msg(
                    errors@,
                    missing_field_msg(context@, "arguments"@),
                ));
            }
        }
    } else if string_is(t, "function_call_output") {
        let context = "ItemParam(function_call_output)";
        require_string_field(value, "call_id", context, errors);
        match require_field(value, "output", context, errors) {
            Some(output) => match output {
                Json::Str(_) => {},
                Json::Arr(_) => {},
                _ => {
                    errors.push(msg2(context, ".output must be a string or array"));
                },
            },
            None => {},
        }
    } else if string_is(t, "reasoning") {
        require_array_field(value, "summary", "ItemParam(reasoning)", errors);
    } else if string_is(t, "compaction") {
        require_string_field(value, "encrypted_content", "ItemParam(compaction)", errors);
    } else if string_is(t, "code_interpreter_call") {
        let context = "ItemParam(code_interpreter_call)";
        require_string_field(value, "id", context, errors);
        require_string_field(value, "container_id", context, errors);
        require_string_field(value, "code", context, errors);
    } else if string_is(t, "computer_call") {
        let context = "ItemParam(computer_call)";
        require_string_field(value, "call_id", context, errors);
        require_object_field(value, "action", context, errors);
    } else if string_is(t, "computer_call_output") {
        let context = "ItemParam(computer_call_output)";
        require_string_field(value, "call_id", context, errors);
        require_object_field(value, "output", context, errors);
    } else if string_is(t, "custom_tool_call") {
        let context = "ItemParam(custom_tool_call)";
        require_string_field(value, "call_id", context, errors);
        require_string_field(value, "name", context, errors);
        require_string_field(value, "input", context, errors);
    } else if string_is(t, "custom_tool_call_output") {
        let context = "ItemParam(custom_tool_call_output)";
        require_string_field(value, "call_id", context, errors);
        require_string_field(value, "output", context, errors);
    } else if string_is(t, "file_search_call") {
        let context = "ItemParam(file_search_call)";
        require_string_field(value, "id", context, errors);
        match require_field(value, "queries", context, errors) {
            Some(queries) => match queries {
                Json::Arr(items) => {
                    proof {
                        crate::json::lemma_json_seq_view(items@);
                        assert(queries@ == JsonV::Arr(crate::json::json_seq_view(items@)));
                    }
                    if items.len() == 0 {
                        errors.push(msg2(context, ".queries must not be empty"));
                    }
                    check_string_items(items, context, "queries", errors);
                },
                _ => {
                    errors.push(msg2(context, ".queries must be an array"));
                },
            },
            None => {},
        }
    } else if string_is(t, "web_search_call") {
    } else if string_is(t, "image_generation_call") {
        require_string_field(value, "id", "ItemParam(image_generation_call)", errors);
    } else if string_is(t, "local_shell_call") {
        let context = "ItemParam(local_shell_call)";
        require_string_field(value, "call_id", context, errors);
        require_object_field(value, "action", context, errors);
    } else if string_is(t, "local_shell_call_output") {
        let context = "ItemParam(local_shell_call_output)";
        require_string_field(value, "call_id", context, errors);
        require_string_field(value, "output", context, errors);
    } else if string_is(t, "shell_call") {
        let context = "ItemParam(shell_call)";
        require_string_field(value, "call_id", context, errors);
        require_object_field(value, "action", context, errors);
    } else if string_is(t, "shell_call_output") {
        let context = "ItemParam(shell_call_output)";
        require_string_field(value, "call_id", context, errors);
        require_array_field(value, "output", context, errors);
    } else if string_is(t, "apply_patch_call") {
        let context = "ItemParam(apply_patch_call)";
        require_string_field(value, "call_id", context, errors);
        require_string_field(value, "status", context, errors);
        require_object_field(value, "operation", context, errors);
    } else if string_is(t, "apply_patch_call_output") {
        let context = "ItemParam(apply_patch_call_output)";
        require_string_field(value, "call_id", context, errors);
        require_string_field(value, "status", context, errors);
    } else if string_is(t, "mcp_approval_request") {
        let context = "ItemParam(mcp_approval_request)";
        require_string_field(value, "server_label", context, errors);
        require_string_field(value, "name", context, errors);
        require_string_field(value, "arguments", context, errors);
    } else if string_is(t, "mcp_approval_response") {
        let context = "ItemParam(mcp_approval_response)";
        require_string_field(value, "approval_request_id", context, errors);
        require_bool_field(value, "approve", context, errors);
    } else {
        errors.push(
            msg3("ItemParam.type has unsupported value \"", t.as_str(), "\""),
        );
    }
}

/// Validates an item parameter, collecting every error.
pub fn validate_item_param(value: &Json) -> (r: Result<(), Vec<String>>)
    ensures
        r is Ok <==> item_param_valid(value@),
        r matches Err(e) ==> e@.len() > 0,
        match r {
            Err(e) => obj_get(value@, "type"@) == Some(JsonV::Str("function_call"@)) ==> {
                &&& (obj_get(value@, "call_id"@) is None ==> crate::json::has_msg(
                    e@,
                    missing_field_msg("ItemParam(function_call)"@, "call_id"@),
                ))
                &&& (obj_get(value@, "name"@) is None ==> crate::json::has_msg(
                    e@,
                    missing_field_msg("ItemParam(function_call)"@, "name"@),
                ))
                &&& (obj_get(value@, "arguments"@) is None ==> crate::json::has_msg(
                    e@,
                    missing_field_msg("ItemParam(function_call)"@, "arguments"@),
                ))
            },
            Ok(_) => true,
        },
{
    let mut errors: Vec<String> = Vec::new();
    match value {
        Json::Obj(_) => {},
        _ => {
            errors.push(String::from_str("ItemParam must be an object"));
            return Err(errors);
        },
    }
    match value.get("type") {
        None => {
            require_string_field(value, "id", "ItemReferenceParam", &mut errors);
        },
        Some(tv) => match tv {
            Json::Null => {
                require_string_field(value, "id", "ItemReferenceParam", &mut errors);
            },
            Json::Str(t) => {
                proof {
                    reveal_strlit("function_call");
                    reveal_strlit("item_reference");
                    assert("function_call"@.len() == 13);
                    assert("item_reference"@.len() == 14);
                }
                if string_is(t, "item_reference") {
                    require_string_field(value, "id", "ItemReferenceParam", &mut errors);
                } else {
                    check_item_variant(value, t, &mut errors);
                }
            },
            _ => {
                errors.push(
                    String::from_str("ItemReferenceParam.type must be a string or null"),
                );
                require_string_field(value, "id", "ItemReferenceParam", &mut errors);
            },
        },
    }
    if errors.len() == 0 {
        Ok(())
    } else {
        Err(errors)
    }
}

/// The `tools` field, when present and non-null, is an array of valid tool
/// parameters.
pub open spec fn tools_field_ok(v: JsonV) -> bool {
    match obj_get(v, "tools"@) {
        Option::None => true,
        Some(JsonV::Null) => true,
        Some(JsonV::Arr(items)) => forall|i: int|
            0 <= i < items.len() ==> tool_param_valid(#[trigger] items[i]),
        Some(_) => false,
    }
}

/// The `tool_choice` field, when present and non-null, is a valid tool
/// choice.
pub open spec fn tool_choice_field_ok(v: JsonV) -> bool {
    match obj_get(v, "tool_choice"@) {
        Option::None => true,
        Some(JsonV::Null) => true,
        Some(c) => tool_choice_valid(c),
    }
}

/// A request body is valid: an object whose tool fields, when present, are
/// valid.
pub open spec fn create_body_valid(v: JsonV) -> bool {
    v is Obj && tools_field_ok(v) && tool_choice_field_ok(v)
}

/// Validates a request body, collecting every error.  The `tools` and
/// `tool_choice` fields are validated by the explicit per-variant walks;
/// their unions defeat generic schema checking.
pub fn validate_create_response_body(value: &Json) -> (r: Result<(), Vec<String>>)
    ensures
        r is Ok <==> create_body_valid(value@),
        r matches Err(e) ==> e@.len() > 0,
{
    let mut errors: Vec<String> = Vec::new();
    match value {
        Json::Obj(_) => {},
        _ => {
            errors.push(String::from_str("CreateResponseBody must be an object"));
            return Err(errors);
        },
    }
    match value.get("tools") {
        None => {},
        Some(tools) => match tools {
            Json::Null => {},
            Json::Arr(items) => {
                proof {
                    crate::json::lemma_json_seq_view(items@);
                    assert(tools@ == JsonV::Arr(crate::json::json_seq_view(items@)));
                }
                check_tool_items(items, &mut errors);
                proof {
                    let s = crate::json::json_seq_view(items@);
                    if errors@.len() == 0 {
                        assert forall|i: int| 0 <= i < s.len() implies tool_param_valid(
                            #[trigger] s[i],
                        ) by {}
                        assert(tools_field_ok(value@));
                    } else {
                        assert(obj_get(value@, "tools"@) == Some(JsonV::Arr(s)));
                        assert(!(forall|i: int|
                            0 <= i < s.len() ==> tool_param_valid(#[trigger] s[i])));
                        let k = choose|k: int|
                            0 <= k < s.len() && !tool_param_valid(#[trigger] s[k]);
                        assert(0 <= k < s.len() && !tool_param_valid(s[k]));
                        let items_spec = obj_get(value@, "tools"@)->0->Arr_0;
                        assert(items_spec == s);
                        assert(!tool_param_valid(items_spec[k]));
                        assert(!tools_field_ok(value@));
                    }
                }
            },
            _ => {
                errors.push(String::from_str("tools must be an array or null"));
            },
        },
    }
    match value.get("tool_choice") {
        None => {},
        Some(choice) => match choice {
            Json::Null => {},
            _ => {
                match validate_tool_choice_param(choice) {
                    Ok(()) => {},
                    Err(errs) => {
                        let m = errs.len();
                        let mut k: usize = 0;
                        let ghost before = errors@.len();
                        while k < m
                            invariant
                                0 <= k <= m,
                                m == errs@.len(),
                                m > 0,
                                errors@.len() == before + k,
                            decreases m - k,
                        {
                            errors.push(msg2("tool_choice: ", errs[k].as_str()));
                            k = k + 1;
                        }
                    },
                }
            },
        },
    }
    if errors.len() == 0 {
        Ok(())
    } else {
        Err(errors)
    }
}

/// Checks that every element of `items` is a valid tool parameter,
/// recording its errors under the element's index.
fn check_tool_items(items: &Vec<Json>, errors: &mut Vec<String>)
    ensures
        final (errors)@.len() >= old(errors)@.len(),
        final (errors)@.len() == old(errors)@.len() <==> (forall|i: int|
            0 <= i < crate::json::json_seq_view(items@).len() ==> tool_param_valid(
                #[trigger] crate::json::json_seq_view(items@)[i],
            )),
{
    let n = items.len();
    let mut i: usize = 0;
    let ghost base = errors@.len();
    proof {
        crate::json::lemma_json_seq_view(items@);
    }
    while i < n
        invariant
            0 <= i <= n,
            n == items@.len(),
            errors@.len() >= base,
            crate::json::json_seq_view(items@).len() == n,
            forall|k: int|
                0 <= k < n ==> #[trigger] crate::json::json_seq_view(items@)[k] == items@[k]@,
            errors@.len() == base <==> (forall|k: int|
                0 <= k < i ==> tool_param_valid(#[trigger] crate::json::json_seq_view(items@)[k])),
        decreases n - i,
    {
        let ghost len_before = errors@.len();
        match validate_responses_tool_param(&items[i]) {
            Ok(()) => {
                proof {
                    assert(tool_param_valid(items@[i as int]@));
                }
            },
            Err(errs) => {
                let idx = usize_to_string(i);
                let prefix = msg2("tools[", idx.as_str()).concat("]: ");
                let m = errs.len();
                let mut k: usize = 0;
                let ghost before = errors@.len();
                let ghost pre_items = errors@;
                while k < m
                    invariant
                        0 <= k <= m,
                        m == errs@.len(),
                        m > 0,
                        errors@.len() == before + k,
                        before == pre_items.len(),
                        forall|j: int| 0 <= j < before ==> #[trigger] errors@[j] == pre_items[j],
                    decreases m - k,
                {
                    errors.push(clone_string(&prefix).concat(errs[k].as_str()));
                    k = k + 1;
                }
            },
        }
        proof {
            assert(crate::json::json_seq_view(items@)[i as int] == items@[i as int]@);
            if errors@.len() == base {
                assert(len_before == base && tool_param_valid(items@[i as int]@));
                assert forall|k: int|
                    0 <= k < i + 1 implies tool_param_valid(
                    #[trigger] crate::json::json_seq_view(items@)[k],
                ) by {}
            }
        }
        i = i + 1;
    }
}

/// One of the stream event type names the catalogue accepts.
pub open spec fn stream_type_ok(t: Seq<char>) -> bool {
    ||| t == "response.created"@
    ||| t == "response.in_progress"@
    ||| t == "response.completed"@
    ||| t == "response.failed"@
    ||| t == "response.incomplete"@
    ||| t == "response.output_item.added"@
    ||| t == "response.output_item.done"@
    ||| t == "response.content_part.added"@
    ||| t == "response.content_part.done"@
    ||| t == "response.output_text.delta"@
    ||| t == "response.output_text.done"@
    ||| t == "response.reasoning.delta"@
    ||| t == "response.function_call_arguments.delta"@
    ||| t == "response.function_call_arguments.done"@
    ||| t == "error"@
}

/// A stream event is valid: an object whose `type` is one of the accepted
/// event type names.
pub open spec fn stream_event_valid(v: JsonV) -> bool {
    obj_get(v, "type"@) matches Some(JsonV::Str(t)) && stream_type_ok(t)
}

/// The stream event type names the catalogue accepts, always the same
/// fifteen, in this order.
pub fn allowed_stream_event_types() -> (r: Vec<String>)
    ensures
        r@.len() == 15,
        r@[0]@ == "response.created"@,
        r@[1]@ == "response.in_progress"@,
        r@[2]@ == "response.completed"@,
        r@[3]@ == "response.failed"@,
        r@[4]@ == "response.incomplete"@,
        r@[5]@ == "response.output_item.added"@,
        r@[6]@ == "response.output_item.done"@,
        r@[7]@ == "response.content_part.added"@,
        r@[8]@ == "response.content_part.done"@,
        r@[9]@ == "response.output_text.delta"@,
        r@[10]@ == "response.output_text.done"@,
        r@[11]@ == "response.reasoning.delta"@,
        r@[12]@ == "response.function_call_arguments.delta"@,
        r@[13]@ == "response.function_call_arguments.done"@,
        r@[14]@ == "error"@,
        forall|i: int| 0 <= i < r@.len() ==> stream_type_ok(#[trigger] r@[i]@),
{
    let mut out: Vec<String> = Vec::new();
    out.push(String::from_str("response.created"));
    out.push(String::from_str("response.in_progress"));
    out.push(String::from_str("response.completed"));
    out.push(String::from_str("response.failed"));
    out.push(String::from_str("response.incomplete"));
    out.push(String::from_str("response.output_item.added"));
    out.push(String::from_str("response.output_item.done"));
    out.push(String::from_str("response.content_part.added"));
    out.push(String::from_str("response.content_part.done"));
    out.push(String::from_str("response.output_text.delta"));
    out.push(String::from_str("response.output_text.done"));
    out.push(String::from_str("response.reasoning.delta"));
    out.push(String::from_str("response.function_call_arguments.delta"));
    out.push(String::from_str("response.function_call_arguments.done"));
    out.push(String::from_str("error"));
    out
}

/// Validates a stream event against the accepted event type names,
/// collecting every error.  The check is structural: the payload's `type`
/// must be one of the accepted names; deeper per-event shape belongs to
/// the deployment's schema document, a collaborator of the core.
pub fn validate_stream_event(value: &Json) -> (r: Result<(), Vec<String>>)
    ensures
        r is Ok <==> stream_event_valid(value@),
        r matches Err(e) ==> e@.len() > 0,
{
    let mut errors: Vec<String> = Vec::new();
    let event_type = match value.get("type") {
        Some(tv) => match tv.as_str() {
            Some(ts) => ts,
            None => {
                errors.push(String::from_str("StreamEvent.type must be a string"));
                return Err(errors);
            },
        },
        None => {
            errors.push(String::from_str("StreamEvent.type must be a string"));
            return Err(errors);
        },
    };
    if string_is(event_type, "response.created") || string_is(event_type, "response.in_progress")
        || string_is(event_type, "response.completed") || string_is(
        event_type,
        "response.failed",
    ) || string_is(event_type, "response.incomplete") || string_is(
        event_type,
        "response.output_item.added",
    ) || string_is(event_type, "response.output_item.done") || string_is(
        event_type,
        "response.content_part.added",
    ) || string_is(event_type, "response.content_part.done") || string_is(
        event_type,
        "response.output_text.delta",
    ) || string_is(event_type, "response.output_text.done") || string_is(
        event_type,
        "response.reasoning.delta",
    ) || string_is(event_type, "response.function_call_arguments.delta") || string_is(
        event_type,
        "response.function_call_arguments.done",
    ) || string_is(event_type, "error") {
        Ok(())
    } else {
        errors.push(
            msg3("StreamEvent.type has unsupported value \"", event_type.as_str(), "\""),
        );
        Err(errors)
    }
}

/// A response resource is valid: an object carrying a string `id`.
pub open spec fn response_resource_valid(v: JsonV) -> bool {
    v is Obj && has_str_field(v, "id"@)
}

/// Validates a response resource, collecting every error.  The check is
/// structural: a resource must at least be an object carrying its string
/// `id`; deeper shape belongs to the deployment's schema document, a
/// collaborator of the core.
pub fn validate_response_resource(value: &Json) -> (r: Result<(), Vec<String>>)
    ensures
        r is Ok <==> response_resource_valid(value@),
        r matches Err(e) ==> e@.len() > 0,
{
    let mut errors: Vec<String> = Vec::new();
    match value {
        Json::Obj(_) => {},
        _ => {
            errors.push(String::from_str("ResponseResource must be an object"));
            return Err(errors);
        },
    }
    require_string_field(value, "id", "ResponseResource", &mut errors);
    if errors.len() == 0 {
        Ok(())
    } else {
        Err(errors)
    }
}

} // verus!
