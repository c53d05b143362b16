//! Request parameter wrappers: each holds a JSON value together with the
//! validation errors found when it was built, so callers can assemble a
//! request and ask afterwards what was wrong with it.

use vstd::prelude::*;

use crate::catalogue::{
    create_body_valid, item_param_valid, specific_tool_choice_valid, tool_choice_valid,
    tool_param_valid, validate_create_response_body, validate_item_param,
    validate_responses_tool_param, validate_specific_tool_choice_param,
    validate_tool_choice_param,
};
use crate::json::{clone_string, json_fields_view, Json, JsonV};

verus! {

broadcast use vstd::std_specs::vec::group_vec_axioms, vstd::seq::group_seq_axioms;

/// A conversation item wrapped with its validation errors.
#[derive(Debug)]
pub struct ItemParam {
    pub value: Json,
    pub errors: Vec<String>,
}

impl ItemParam {
    /// Wraps and validates a value.
    pub fn new(value: Json) -> (r: ItemParam)
        ensures
            r.value@ == value@,
            r.errors@.len() == 0 <==> item_param_valid(value@),
    {
        let errors = match validate_item_param(&value) {
            Ok(()) => Vec::new(),
            Err(errs) => errs,
        };
        ItemParam { value, errors }
    }

    /// The wrapped value.
    pub fn value(&self) -> (r: &Json)
        ensures
            r == &self.value,
    {
        &self.value
    }

    /// Takes the wrapped value.
    pub fn into_value(self) -> (r: Json)
        ensures
            r == self.value,
    {
        self.value
    }

    /// The validation errors found when the value was wrapped.
    pub fn errors(&self) -> (r: &Vec<String>)
        ensures
            r == &self.errors,
    {
        &self.errors
    }
}

/// A tool parameter wrapped with its validation errors.
#[derive(Debug)]
pub struct ToolParam {
    pub value: Json,
    pub errors: Vec<String>,
}

impl ToolParam {
    /// Wraps and validates a value.
    pub fn new(value: Json) -> (r: ToolParam)
        ensures
            r.value@ == value@,
            r.errors@.len() == 0 <==> tool_param_valid(value@),
    {
        let errors = match validate_responses_tool_param(&value) {
            Ok(()) => Vec::new(),
            Err(errs) => errs,
        };
        ToolParam { value, errors }
    }

    /// The wrapped value.
    pub fn value(&self) -> (r: &Json)
        ensures
            r == &self.value,
    {
        &self.value
    }

    /// Takes the wrapped value.
    pub fn into_value(self) -> (r: Json)
        ensures
            r == self.value,
    {
        self.value
    }

    /// The validation errors found when the value was wrapped.
    pub fn errors(&self) -> (r: &Vec<String>)
        ensures
            r == &self.errors,
    {
        &self.errors
    }
}

/// A tool choice wrapped with its validation errors.
#[derive(Debug)]
pub struct ToolChoiceParam {
    pub value: Json,
    pub errors: Vec<String>,
}

impl ToolChoiceParam {
    /// Wraps and validates a value.
    pub fn new(value: Json) -> (r: ToolChoiceParam)
        ensures
            r.value@ == value@,
            r.errors@.len() == 0 <==> tool_choice_valid(value@),
    {
        let errors = match validate_tool_choice_param(&value) {
            Ok(()) => Vec::new(),
            Err(errs) => errs,
        };
        ToolChoiceParam { value, errors }
    }

    /// The wrapped value.
    pub fn value(&self) -> (r: &Json)
        ensures
            r == &self.value,
    {
        &self.value
    }

    /// Takes the wrapped value.
    pub fn into_value(self) -> (r: Json)
        ensures
            r == self.value,
    {
        self.value
    }

    /// The validation errors found when the value was wrapped.
    pub fn errors(&self) -> (r: &Vec<String>)
        ensures
            r == &self.errors,
    {
        &self.errors
    }
}

/// A specific tool choice wrapped with its validation errors.
#[derive(Debug)]
pub struct SpecificToolChoiceParam {
    pub value: Json,
    pub errors: Vec<String>,
}

impl SpecificToolChoiceParam {
    /// Wraps and validates a value.
    pub fn new(value: Json) -> (r: SpecificToolChoiceParam)
        ensures
            r.value@ == value@,
            r.errors@.len() == 0 <==> specific_tool_choice_valid(value@),
    {
        let errors = match validate_specific_tool_choice_param(&value) {
            Ok(()) => Vec::new(),
            Err(errs) => errs,
        };
        SpecificToolChoiceParam { value, errors }
    }

    /// The wrapped value.
    pub fn value(&self) -> (r: &Json)
        ensures
            r == &self.value,
    {
        &self.value
    }

    /// Takes the wrapped value.
    pub fn into_value(self) -> (r: Json)
        ensures
            r == self.value,
    {
        self.value
    }

    /// The validation errors found when the value was wrapped.
    pub fn errors(&self) -> (r: &Vec<String>)
        ensures
            r == &self.errors,
    {
        &self.errors
    }
}

/// An object holding only a `type` field.
fn tool_type_only(tool_type: &str) -> (r: Json)
    ensures
        r@ == JsonV::Obj(seq![("type"@, JsonV::Str(tool_type@))]),
{
    let mut fields: Vec<(String, Json)> = Vec::new();
    fields.push((String::from_str("type"), Json::str(tool_type)));
    let r = Json::Obj(fields);
    proof {
        crate::json::lemma_json_fields_view(fields@);
        assert(json_fields_view(fields@) =~= seq![("type"@, JsonV::Str(tool_type@))]);
    }
    r
}

/// An object holding a `type` field and one named string field.
fn type_with_string(tool_type: &str, key: &str, value: &str) -> (r: Json)
    ensures
        r@ == JsonV::Obj(
            seq![("type"@, JsonV::Str(tool_type@)), (key@, JsonV::Str(value@))],
        ),
{
    let mut fields: Vec<(String, Json)> = Vec::new();
    fields.push((String::from_str("type"), Json::str(tool_type)));
    fields.push((String::from_str(key), Json::str(value)));
    let r = Json::Obj(fields);
    proof {
        crate::json::lemma_json_fields_view(fields@);
        assert(json_fields_view(fields@) =~= seq![
            ("type"@, JsonV::Str(tool_type@)),
            (key@, JsonV::Str(value@)),
        ]);
    }
    r
}

impl ToolParam {
    /// A `function` tool.
    pub fn function(name: &str) -> (r: ToolParam)
        ensures
            r.value@ == JsonV::Obj(
                seq![("type"@, JsonV::Str("function"@)), ("name"@, JsonV::Str(name@))],
            ),
            r.errors@.len() == 0 <==> tool_param_valid(r.value@),
    {
        Self::new(type_with_string("function", "name", name))
    }

    /// A `custom` tool.
    pub fn custom(name: &str) -> (r: ToolParam)
        ensures
            r.value@ == JsonV::Obj(
                seq![("type"@, JsonV::Str("custom"@)), ("name"@, JsonV::Str(name@))],
            ),
            r.errors@.len() == 0 <==> tool_param_valid(r.value@),
    {
        Self::new(type_with_string("custom", "name", name))
    }

    /// A `mcp` tool.
    pub fn mcp(server_label: &str) -> (r: ToolParam)
        ensures
            r.value@ == JsonV::Obj(
                seq![("type"@, JsonV::Str("mcp"@)), ("server_label"@, JsonV::Str(server_label@))],
            ),
            r.errors@.len() == 0 <==> tool_param_valid(r.value@),
    {
        Self::new(type_with_string("mcp", "server_label", server_label))
    }

    /// A `web_search` tool.
    pub fn web_search() -> (r: ToolParam)
        ensures
            r.value@ == JsonV::Obj(seq![("type"@, JsonV::Str("web_search"@))]),
            r.errors@.len() == 0 <==> tool_param_valid(r.value@),
    {
        Self::new(tool_type_only("web_search"))
    }

    /// A `web_search_2025_08_26` tool.
    pub fn web_search_2025_08_26() -> (r: ToolParam)
        ensures
            r.value@ == JsonV::Obj(seq![("type"@, JsonV::Str("web_search_2025_08_26"@))]),
            r.errors@.len() == 0 <==> tool_param_valid(r.value@),
    {
        Self::new(tool_type_only("web_search_2025_08_26"))
    }

    /// A `web_search_ga` tool.
    pub fn web_search_ga() -> (r: ToolParam)
        ensures
            r.value@ == JsonV::Obj(seq![("type"@, JsonV::Str("web_search_ga"@))]),
            r.errors@.len() == 0 <==> tool_param_valid(r.value@),
    {
        Self::new(tool_type_only("web_search_ga"))
    }

    /// A `web_search_preview` tool.
    pub fn web_search_preview() -> (r: ToolParam)
        ensures
            r.value@ == JsonV::Obj(seq![("type"@, JsonV::Str("web_search_preview"@))]),
            r.errors@.len() == 0 <==> tool_param_valid(r.value@),
    {
        Self::new(tool_type_only("web_search_preview"))
    }

    /// A `web_search_preview_2025_03_11` tool.
    pub fn web_search_preview_2025_03_11() -> (r: ToolParam)
        ensures
            r.value@ == JsonV::Obj(seq![("type"@, JsonV::Str("web_search_preview_2025_03_11"@))]),
            r.errors@.len() == 0 <==> tool_param_valid(r.value@),
    {
        Self::new(tool_type_only("web_search_preview_2025_03_11"))
    }

    /// A `image_generation` tool.
    pub fn image_generation() -> (r: ToolParam)
        ensures
            r.value@ == JsonV::Obj(seq![("type"@, JsonV::Str("image_generation"@))]),
            r.errors@.len() == 0 <==> tool_param_valid(r.value@),
    {
        Self::new(tool_type_only("image_generation"))
    }

    /// A `local_shell` tool.
    pub fn local_shell() -> (r: ToolParam)
        ensures
            r.value@ == JsonV::Obj(seq![("type"@, JsonV::Str("local_shell"@))]),
            r.errors@.len() == 0 <==> tool_param_valid(r.value@),
    {
        Self::new(tool_type_only("local_shell"))
    }

    /// A `shell` tool.
    pub fn shell() -> (r: ToolParam)
        ensures
            r.value@ == JsonV::Obj(seq![("type"@, JsonV::Str("shell"@))]),
            r.errors@.len() == 0 <==> tool_param_valid(r.value@),
    {
        Self::new(tool_type_only("shell"))
    }

    /// A `apply_patch` tool.
    pub fn apply_patch() -> (r: ToolParam)
        ensures
            r.value@ == JsonV::Obj(seq![("type"@, JsonV::Str("apply_patch"@))]),
            r.errors@.len() == 0 <==> tool_param_valid(r.value@),
    {
        Self::new(tool_type_only("apply_patch"))
    }

    /// A `code_interpreter` tool over the given container value.
    pub fn code_interpreter(container: Json) -> (r: ToolParam)
        ensures
            r.value@ == JsonV::Obj(
                seq![("type"@, JsonV::Str("code_interpreter"@)), ("container"@, container@)],
            ),
            r.errors@.len() == 0 <==> tool_param_valid(r.value@),
    {
        let mut fields: Vec<(String, Json)> = Vec::new();
        fields.push((String::from_str("type"), Json::str("code_interpreter")));
        fields.push((String::from_str("container"), container));
        let ghost target = seq![
            ("type"@, JsonV::Str("code_interpreter"@)),
            ("container"@, fields@[1].1@),
        ];
        proof {
            crate::json::lemma_json_fields_view(fields@);
            assert(json_fields_view(fields@) =~= target);
        }
        Self::new(Json::Obj(fields))
    }

    /// A `file_search` tool over the given vector stores.
    pub fn file_search(vector_store_ids: Vec<String>) -> (r: ToolParam)
        ensures
            r.errors@.len() == 0 <==> tool_param_valid(r.value@),
    {
        let mut ids: Vec<Json> = Vec::new();
        let n = vector_store_ids.len();
        let mut i: usize = 0;
        while i < n
            invariant
                0 <= i <= n,
                n == vector_store_ids@.len(),
                ids@.len() == i,
            decreases n - i,
        {
            ids.push(Json::Str(clone_string(&vector_store_ids[i])));
            i = i + 1;
        }
        let mut fields: Vec<(String, Json)> = Vec::new();
        fields.push((String::from_str("type"), Json::str("file_search")));
        fields.push((String::from_str("vector_store_ids"), Json::Arr(ids)));
        Self::new(Json::Obj(fields))
    }

    /// A `computer-preview` tool.
    pub fn computer_preview(display_width: u64, display_height: u64, environment: &str) -> (r:
        ToolParam)
        ensures
            r.errors@.len() == 0 <==> tool_param_valid(r.value@),
    {
        Self::new(computer_tool_value("computer-preview", display_width, display_height, environment))
    }

    /// A `computer_use_preview` tool.
    pub fn computer_use_preview(display_width: u64, display_height: u64, environment: &str) -> (r:
        ToolParam)
        ensures
            r.errors@.len() == 0 <==> tool_param_valid(r.value@),
    {
        Self::new(
            computer_tool_value("computer_use_preview", display_width, display_height, environment),
        )
    }
}

/// The object of a computer tool: its type, display size and environment.
fn computer_tool_value(tool_type: &str, display_width: u64, display_height: u64, environment: &str) -> (r: Json)
    ensures
        r@ == JsonV::Obj(
            seq![
                ("type"@, JsonV::Str(tool_type@)),
                ("display_width"@, JsonV::Int(if display_width <= i64::MAX as u64 { display_width as int } else { i64::MAX as int })),
                ("display_height"@, JsonV::Int(if display_height <= i64::MAX as u64 { display_height as int } else { i64::MAX as int })),
                ("environment"@, JsonV::Str(environment@)),
            ],
        ),
{
    let mut fields: Vec<(String, Json)> = Vec::new();
    fields.push((String::from_str("type"), Json::str(tool_type)));
    fields.push((String::from_str("display_width"), Json::Int(
        if display_width <= i64::MAX as u64 { display_width as i64 } else { i64::MAX },
    )));
    fields.push((String::from_str("display_height"), Json::Int(
        if display_height <= i64::MAX as u64 { display_height as i64 } else { i64::MAX },
    )));
    fields.push((String::from_str("environment"), Json::str(environment)));
    let r = Json::Obj(fields);
    proof {
        crate::json::lemma_json_fields_view(fields@);
        assert(json_fields_view(fields@) =~= seq![
            ("type"@, JsonV::Str(tool_type@)),
            ("display_width"@, JsonV::Int(if display_width <= i64::MAX as u64 { display_width as int } else { i64::MAX as int })),
            ("display_height"@, JsonV::Int(if display_height <= i64::MAX as u64 { display_height as int } else { i64::MAX as int })),
            ("environment"@, JsonV::Str(environment@)),
        ]);
    }
    r
}

/// One of the bare tool-choice modes.
#[derive(Clone, Copy, PartialEq, Eq, Structural, Debug)]
pub enum ToolChoiceValue {
    Auto,
    Required,
    NoneChoice,
}

impl ToolChoiceValue {
    /// The wire spelling of the mode.
    pub fn as_str(&self) -> (r: &'static str)
        ensures
            (*self is Auto ==> r@ == "auto"@) && (*self is Required ==> r@ == "required"@) && (
            *self is NoneChoice ==> r@ == "none"@),
    {
        match self {
            ToolChoiceValue::Auto => "auto",
            ToolChoiceValue::Required => "required",
            ToolChoiceValue::NoneChoice => "none",
        }
    }
}

impl SpecificToolChoiceParam {
    /// A `function` choice.
    pub fn function(name: &str) -> (r: SpecificToolChoiceParam)
        ensures
            r.value@ == JsonV::Obj(
                seq![("type"@, JsonV::Str("function"@)), ("name"@, JsonV::Str(name@))],
            ),
            r.errors@.len() == 0 <==> specific_tool_choice_valid(r.value@),
    {
        Self::new(type_with_string("function", "name", name))
    }

    /// A `custom` choice.
    pub fn custom(name: &str) -> (r: SpecificToolChoiceParam)
        ensures
            r.value@ == JsonV::Obj(
                seq![("type"@, JsonV::Str("custom"@)), ("name"@, JsonV::Str(name@))],
            ),
            r.errors@.len() == 0 <==> specific_tool_choice_valid(r.value@),
    {
        Self::new(type_with_string("custom", "name", name))
    }

    /// A `mcp` choice.
    pub fn mcp(server_label: &str) -> (r: SpecificToolChoiceParam)
        ensures
            r.value@ == JsonV::Obj(
                seq![("type"@, JsonV::Str("mcp"@)), ("server_label"@, JsonV::Str(server_label@))],
            ),
            r.errors@.len() == 0 <==> specific_tool_choice_valid(r.value@),
    {
        Self::new(type_with_string("mcp", "server_label", server_label))
    }

    /// A `file_search` choice.
    pub fn file_search() -> (r: SpecificToolChoiceParam)
        ensures
            r.value@ == JsonV::Obj(seq![("type"@, JsonV::Str("file_search"@))]),
            r.errors@.len() == 0 <==> specific_tool_choice_valid(r.value@),
    {
        Self::new(tool_type_only("file_search"))
    }

    /// A `web_search` choice.
    pub fn web_search() -> (r: SpecificToolChoiceParam)
        ensures
            r.value@ == JsonV::Obj(seq![("type"@, JsonV::Str("web_search"@))]),
            r.errors@.len() == 0 <==> specific_tool_choice_valid(r.value@),
    {
        Self::new(tool_type_only("web_search"))
    }

    /// A `web_search_preview` choice.
    pub fn web_search_preview() -> (r: SpecificToolChoiceParam)
        ensures
            r.value@ == JsonV::Obj(seq![("type"@, JsonV::Str("web_search_preview"@))]),
            r.errors@.len() == 0 <==> specific_tool_choice_valid(r.value@),
    {
        Self::new(tool_type_only("web_search_preview"))
    }

    /// A `image_generation` choice.
    pub fn image_generation() -> (r: SpecificToolChoiceParam)
        ensures
            r.value@ == JsonV::Obj(seq![("type"@, JsonV::Str("image_generation"@))]),
            r.errors@.len() == 0 <==> specific_tool_choice_valid(r.value@),
    {
        Self::new(tool_type_only("image_generation"))
    }

    /// A `code_interpreter` choice.
    pub fn code_interpreter() -> (r: SpecificToolChoiceParam)
        ensures
            r.value@ == JsonV::Obj(seq![("type"@, JsonV::Str("code_interpreter"@))]),
            r.errors@.len() == 0 <==> specific_tool_choice_valid(r.value@),
    {
        Self::new(tool_type_only("code_interpreter"))
    }

    /// A `local_shell` choice.
    pub fn local_shell() -> (r: SpecificToolChoiceParam)
        ensures
            r.value@ == JsonV::Obj(seq![("type"@, JsonV::Str("local_shell"@))]),
            r.errors@.len() == 0 <==> specific_tool_choice_valid(r.value@),
    {
        Self::new(tool_type_only("local_shell"))
    }

    /// A `shell` choice.
    pub fn shell() -> (r: SpecificToolChoiceParam)
        ensures
            r.value@ == JsonV::Obj(seq![("type"@, JsonV::Str("shell"@))]),
            r.errors@.len() == 0 <==> specific_tool_choice_valid(r.value@),
    {
        Self::new(tool_type_only("shell"))
    }

    /// A `apply_patch` choice.
    pub fn apply_patch() -> (r: SpecificToolChoiceParam)
        ensures
            r.value@ == JsonV::Obj(seq![("type"@, JsonV::Str("apply_patch"@))]),
            r.errors@.len() == 0 <==> specific_tool_choice_valid(r.value@),
    {
        Self::new(tool_type_only("apply_patch"))
    }

    /// A `computer-preview` choice.
    pub fn computer_preview() -> (r: SpecificToolChoiceParam)
        ensures
            r.value@ == JsonV::Obj(seq![("type"@, JsonV::Str("computer-preview"@))]),
            r.errors@.len() == 0 <==> specific_tool_choice_valid(r.value@),
    {
        Self::new(tool_type_only("computer-preview"))
    }

    /// A `computer_use_preview` choice.
    pub fn computer_use_preview() -> (r: SpecificToolChoiceParam)
        ensures
            r.value@ == JsonV::Obj(seq![("type"@, JsonV::Str("computer_use_preview"@))]),
            r.errors@.len() == 0 <==> specific_tool_choice_valid(r.value@),
    {
        Self::new(tool_type_only("computer_use_preview"))
    }
}

impl ToolChoiceParam {
    /// The bare `auto` choice.
    pub fn auto() -> (r: ToolChoiceParam)
        ensures
            r.value@ == JsonV::Str("auto"@),
            r.errors@.len() == 0 <==> tool_choice_valid(r.value@),
    {
        Self::new(Json::str("auto"))
    }

    /// The bare `none` choice.
    pub fn none() -> (r: ToolChoiceParam)
        ensures
            r.value@ == JsonV::Str("none"@),
            r.errors@.len() == 0 <==> tool_choice_valid(r.value@),
    {
        Self::new(Json::str("none"))
    }

    /// The bare `required` choice.
    pub fn required() -> (r: ToolChoiceParam)
        ensures
            r.value@ == JsonV::Str("required"@),
            r.errors@.len() == 0 <==> tool_choice_valid(r.value@),
    {
        Self::new(Json::str("required"))
    }

    /// A specific choice, rewrapped.
    pub fn specific(tool: SpecificToolChoiceParam) -> (r: ToolChoiceParam)
        ensures
            r.value@ == tool.value@,
            r.errors@.len() == 0 <==> tool_choice_valid(r.value@),
    {
        Self::new(tool.into_value())
    }

    /// A specific `function` choice.
    pub fn specific_function(name: &str) -> (r: ToolChoiceParam)
        ensures
            r.errors@.len() == 0 <==> tool_choice_valid(r.value@),
    {
        Self::specific(SpecificToolChoiceParam::function(name))
    }

    /// A specific `custom` choice.
    pub fn specific_custom(name: &str) -> (r: ToolChoiceParam)
        ensures
            r.errors@.len() == 0 <==> tool_choice_valid(r.value@),
    {
        Self::specific(SpecificToolChoiceParam::custom(name))
    }

    /// A specific `mcp` choice.
    pub fn specific_mcp(server_label: &str) -> (r: ToolChoiceParam)
        ensures
            r.errors@.len() == 0 <==> tool_choice_valid(r.value@),
    {
        Self::specific(SpecificToolChoiceParam::mcp(server_label))
    }

    /// A specific `file_search` choice.
    pub fn specific_file_search() -> (r: ToolChoiceParam)
        ensures
            r.errors@.len() == 0 <==> tool_choice_valid(r.value@),
    {
        Self::specific(SpecificToolChoiceParam::file_search())
    }

    /// A specific `web_search` choice.
    pub fn specific_web_search() -> (r: ToolChoiceParam)
        ensures
            r.errors@.len() == 0 <==> tool_choice_valid(r.value@),
    {
        Self::specific(SpecificToolChoiceParam::web_search())
    }

    /// A specific `web_search_preview` choice.
    pub fn specific_web_search_preview() -> (r: ToolChoiceParam)
        ensures
            r.errors@.len() == 0 <==> tool_choice_valid(r.value@),
    {
        Self::specific(SpecificToolChoiceParam::web_search_preview())
    }

    /// A specific `image_generation` choice.
    pub fn specific_image_generation() -> (r: ToolChoiceParam)
        ensures
            r.errors@.len() == 0 <==> tool_choice_valid(r.value@),
    {
        Self::specific(SpecificToolChoiceParam::image_generation())
    }

    /// A specific `computer_preview` choice.
    pub fn specific_computer_preview() -> (r: ToolChoiceParam)
        ensures
            r.errors@.len() == 0 <==> tool_choice_valid(r.value@),
    {
        Self::specific(SpecificToolChoiceParam::computer_preview())
    }

    /// A specific `computer_use_preview` choice.
    pub fn specific_computer_use_preview() -> (r: ToolChoiceParam)
        ensures
            r.errors@.len() == 0 <==> tool_choice_valid(r.value@),
    {
        Self::specific(SpecificToolChoiceParam::computer_use_preview())
    }

    /// A specific `code_interpreter` choice.
    pub fn specific_code_interpreter() -> (r: ToolChoiceParam)
        ensures
            r.errors@.len() == 0 <==> tool_choice_valid(r.value@),
    {
        Self::specific(SpecificToolChoiceParam::code_interpreter())
    }

    /// A specific `local_shell` choice.
    pub fn specific_local_shell() -> (r: ToolChoiceParam)
        ensures
            r.errors@.len() == 0 <==> tool_choice_valid(r.value@),
    {
        Self::specific(SpecificToolChoiceParam::local_shell())
    }

    /// A specific `shell` choice.
    pub fn specific_shell() -> (r: ToolChoiceParam)
        ensures
            r.errors@.len() == 0 <==> tool_choice_valid(r.value@),
    {
        Self::specific(SpecificToolChoiceParam::shell())
    }

    /// A specific `apply_patch` choice.
    pub fn specific_apply_patch() -> (r: ToolChoiceParam)
        ensures
            r.errors@.len() == 0 <==> tool_choice_valid(r.value@),
    {
        Self::specific(SpecificToolChoiceParam::apply_patch())
    }

    /// An `allowed_tools` choice over the given specific choices.
    pub fn allowed_tools(tools: Vec<SpecificToolChoiceParam>) -> (r: ToolChoiceParam)
        ensures
            r.errors@.len() == 0 <==> tool_choice_valid(r.value@),
    {
        Self::allowed_tools_with_mode(tools, None)
    }

    /// An `allowed_tools` choice with an optional mode.
    pub fn allowed_tools_with_mode(
        tools: Vec<SpecificToolChoiceParam>,
        mode: Option<ToolChoiceValue>,
    ) -> (r: ToolChoiceParam)
        ensures
            r.errors@.len() == 0 <==> tool_choice_valid(r.value@),
    {
        let mut items: Vec<Json> = Vec::new();
        let n = tools.len();
        let mut i: usize = 0;
        while i < n
            invariant
                0 <= i <= n,
                n == tools@.len(),
            decreases n - i,
        {
            items.push(tools[i].value.duplicate());
            i = i + 1;
        }
        let mut fields: Vec<(String, Json)> = Vec::new();
        fields.push((String::from_str("type"), Json::str("allowed_tools")));
        fields.push((String::from_str("tools"), Json::Arr(items)));
        match mode {
            Some(m) => {
                fields.push((String::from_str("mode"), Json::str(m.as_str())));
            },
            None => {},
        }
        Self::new(Json::Obj(fields))
    }
}

/// A request body wrapped with its validation errors.
#[derive(Debug)]
pub struct CreateResponsePayload {
    pub body: Json,
    pub errors: Vec<String>,
}

impl CreateResponsePayload {
    /// Wraps and validates a request body.
    pub fn new(body: Json) -> (r: CreateResponsePayload)
        ensures
            r.body@ == body@,
            r.errors@.len() == 0 <==> create_body_valid(body@),
    {
        let errors = match validate_create_response_body(&body) {
            Ok(()) => Vec::new(),
            Err(errs) => errs,
        };
        CreateResponsePayload { body, errors }
    }

    /// The wrapped body.
    pub fn body(&self) -> (r: &Json)
        ensures
            r == &self.body,
    {
        &self.body
    }

    /// Takes the wrapped body.
    pub fn into_body(self) -> (r: Json)
        ensures
            r == self.body,
    {
        self.body
    }

    /// The validation errors found when the body was wrapped.
    pub fn errors(&self) -> (r: &Vec<String>)
        ensures
            r == &self.errors,
    {
        &self.errors
    }
}

/// Assembles a request body field by field.  A field set twice keeps its
/// first value.
#[derive(Debug)]
pub struct CreateResponseBuilder {
    pub body: Vec<(String, Json)>,
}

impl CreateResponseBuilder {
    /// An empty body.
    pub fn new() -> (r: CreateResponseBuilder)
        ensures
            r.body@.len() == 0,
    {
        CreateResponseBuilder { body: Vec::new() }
    }

    /// Sets the model name.
    pub fn model(self, model: &str) -> (r: CreateResponseBuilder)
        ensures
            r.body@.len() == self.body@.len() + 1,
            r.body@.last().0@ == "model"@,
            r.body@.last().1@ == JsonV::Str(model@),
    {
        self.insert_raw("model", Json::str(model))
    }

    /// Sets the input to one text prompt.
    pub fn input_text(self, text: &str) -> (r: CreateResponseBuilder)
        ensures
            r.body@.len() == self.body@.len() + 1,
            r.body@.last().0@ == "input"@,
            r.body@.last().1@ == JsonV::Str(text@),
    {
        self.insert_raw("input", Json::str(text))
    }

    /// Sets the input to a list of items.
    pub fn input_items(self, items: Vec<ItemParam>) -> (r: CreateResponseBuilder)
        ensures
            r.body@.len() == self.body@.len() + 1,
            r.body@.last().0@ == "input"@,
    {
        let mut arr: Vec<Json> = Vec::new();
        let n = items.len();
        let mut i: usize = 0;
        while i < n
            invariant
                0 <= i <= n,
                n == items@.len(),
            decreases n - i,
        {
            arr.push(items[i].value.duplicate());
            i = i + 1;
        }
        self.insert_raw("input", Json::Arr(arr))
    }

    /// Sets the input to a list of raw values.
    pub fn input_items_raw(self, items: Vec<Json>) -> (r: CreateResponseBuilder)
        ensures
            r.body@.len() == self.body@.len() + 1,
            r.body@.last().0@ == "input"@,
    {
        self.insert_raw("input", Json::Arr(items))
    }

    /// Sets the tool list.
    pub fn tools(self, tools: Vec<ToolParam>) -> (r: CreateResponseBuilder)
        ensures
            r.body@.len() == self.body@.len() + 1,
            r.body@.last().0@ == "tools"@,
    {
        let mut arr: Vec<Json> = Vec::new();
        let n = tools.len();
        let mut i: usize = 0;
        while i < n
            invariant
                0 <= i <= n,
                n == tools@.len(),
            decreases n - i,
        {
            arr.push(tools[i].value.duplicate());
            i = i + 1;
        }
        self.insert_raw("tools", Json::Arr(arr))
    }

    /// Sets the tool list from raw values.
    pub fn tools_raw(self, tools: Vec<Json>) -> (r: CreateResponseBuilder)
        ensures
            r.body@.len() == self.body@.len() + 1,
            r.body@.last().0@ == "tools"@,
    {
        self.insert_raw("tools", Json::Arr(tools))
    }

    /// Sets the tool choice.
    pub fn tool_choice(self, choice: ToolChoiceParam) -> (r: CreateResponseBuilder)
        ensures
            r.body@.len() == self.body@.len() + 1,
            r.body@.last().0@ == "tool_choice"@,
    {
        self.insert_raw("tool_choice", choice.into_value())
    }

    /// Sets the tool choice from a raw value.
    pub fn tool_choice_raw(self, choice: Json) -> (r: CreateResponseBuilder)
        ensures
            r.body@.len() == self.body@.len() + 1,
            r.body@.last().0@ == "tool_choice"@,
    {
        self.insert_raw("tool_choice", choice)
    }

    /// Sets whether tools may run in parallel.
    pub fn parallel_tool_calls(self, enabled: bool) -> (r: CreateResponseBuilder)
        ensures
            r.body@.len() == self.body@.len() + 1,
            r.body@.last().0@ == "parallel_tool_calls"@,
            r.body@.last().1@ == JsonV::Bool(enabled),
    {
        self.insert_raw("parallel_tool_calls", Json::Bool(enabled))
    }

    /// Caps the number of tool calls.
    pub fn max_tool_calls(self, max_calls: u64) -> (r: CreateResponseBuilder)
        ensures
            r.body@.len() == self.body@.len() + 1,
            r.body@.last().0@ == "max_tool_calls"@,
    {
        self.insert_raw("max_tool_calls", Json::Int(if max_calls <= i64::MAX as u64 {
            max_calls as i64
        } else {
            i64::MAX
        }))
    }

    /// Appends one raw field.
    pub fn insert_raw(self, key: &str, value: Json) -> (r: CreateResponseBuilder)
        ensures
            r.body@.len() == self.body@.len() + 1,
            r.body@.last().0@ == key@,
            r.body@.last().1 == value,
            forall|i: int| 0 <= i < self.body@.len() ==> r.body@[i] == self.body@[i],
    {
        let mut body = self.body;
        body.push((String::from_str(key), value));
        CreateResponseBuilder { body }
    }

    /// Wraps the assembled body, validating it.
    pub fn build(self) -> (r: CreateResponsePayload)
        ensures
            r.body@ == JsonV::Obj(json_fields_view(self.body@)),
            r.errors@.len() == 0 <==> create_body_valid(r.body@),
    {
        CreateResponsePayload::new(Json::Obj(self.body))
    }
}

} // verus!
