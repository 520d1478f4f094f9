//! Taking a request in.

use vstd::prelude::*;
use vstd::string::*;

use crate::email_set::EmailSet;
use crate::events::opt_json_view;
use crate::json::{Json, JsonView};
use crate::text::{opt_view, str_eq};

verus! {

/// A request in the form that all of the client protocols come down to.
pub struct StandardRequest {
    /// The model that the client named.
    pub response_model: String,
    /// The upstream model that serves it.
    pub resolved_model: String,
    pub prompt: String,
    pub stream: bool,
    pub thinking_enabled: Option<bool>,
    pub force_thinking: bool,
    pub enable_search: bool,
    /// `t2t` for text, `t2i` for images, `t2v` for videos.
    pub chat_type: String,
    pub tools: Vec<Json>,
    pub tool_names: Vec<String>,
    /// The client protocol.
    pub surface: String,
    pub image_options: Option<Json>,
    pub max_tokens: Option<u64>,
    pub client_profile: String,
    pub files: Vec<Json>,
    /// The account that has to serve the request.
    pub bound_account: Option<String>,
    pub caller: Option<String>,
    /// Accounts that must not serve the request.
    pub exclude_accounts: EmailSet,
}

/// The JSON values of a vector.
pub open spec fn json_views(values: Seq<Json>) -> Seq<JsonView> {
    values.map_values(|v: Json| v@)
}

/// What the upstream needs to know of a request, as a mathematical value.
#[verifier::ext_equal]
pub struct ParamsView {
    pub model: Seq<char>,
    pub content: Seq<char>,
    pub has_custom_tools: bool,
    pub files: Seq<JsonView>,
    pub chat_type: Seq<char>,
    pub image_options: Option<JsonView>,
    pub thinking_enabled: Option<bool>,
    pub enable_search: bool,
    pub fixed_account: Option<Seq<char>>,
    pub existing_chat_id: Option<Seq<char>>,
    pub delete_on_close: bool,
    pub use_prewarmed: bool,
    pub max_retries: Option<u32>,
    pub exclude: Set<Seq<char>>,
}

/// What the pipeline needs to know of a request.
pub struct PipelineParams {
    pub model: String,
    pub content: String,
    pub has_custom_tools: bool,
    pub files: Vec<Json>,
    pub chat_type: String,
    pub image_options: Option<Json>,
    pub thinking_enabled: Option<bool>,
    pub enable_search: bool,
    pub fixed_account: Option<String>,
    pub existing_chat_id: Option<String>,
    pub delete_on_close: bool,
    pub use_prewarmed: bool,
    pub max_retries: Option<u32>,
    pub exclude: EmailSet,
}

impl View for PipelineParams {
    type V = ParamsView;

    open spec fn view(&self) -> ParamsView {
        ParamsView {
            model: self.model@,
            content: self.content@,
            has_custom_tools: self.has_custom_tools,
            files: json_views(self.files@),
            chat_type: self.chat_type@,
            image_options: opt_json_view(self.image_options),
            thinking_enabled: self.thinking_enabled,
            enable_search: self.enable_search,
            fixed_account: opt_view(self.fixed_account),
            existing_chat_id: opt_view(self.existing_chat_id),
            delete_on_close: self.delete_on_close,
            use_prewarmed: self.use_prewarmed,
            max_retries: self.max_retries,
            exclude: self.exclude@,
        }
    }
}

/// What the upstream executor needs to know of a request.
pub struct StreamParams {
    pub model: String,
    pub content: String,
    pub has_custom_tools: bool,
    pub files: Vec<Json>,
    pub chat_type: String,
    pub image_options: Option<Json>,
    pub thinking_enabled: Option<bool>,
    pub enable_search: bool,
    pub fixed_account: Option<String>,
    pub existing_chat_id: Option<String>,
    /// Whether to delete the chat when the request is over.
    pub delete_on_close: bool,
    /// Whether a chat that was created in advance may be used.
    pub use_prewarmed: bool,
    /// How many accounts may be tried; the executor's own limit if none is given.
    pub max_retries: Option<u32>,
    /// Accounts that must not serve the request.
    pub exclude: EmailSet,
}

impl View for StreamParams {
    type V = ParamsView;

    open spec fn view(&self) -> ParamsView {
        ParamsView {
            model: self.model@,
            content: self.content@,
            has_custom_tools: self.has_custom_tools,
            files: json_views(self.files@),
            chat_type: self.chat_type@,
            image_options: opt_json_view(self.image_options),
            thinking_enabled: self.thinking_enabled,
            enable_search: self.enable_search,
            fixed_account: opt_view(self.fixed_account),
            existing_chat_id: opt_view(self.existing_chat_id),
            delete_on_close: self.delete_on_close,
            use_prewarmed: self.use_prewarmed,
            max_retries: self.max_retries,
            exclude: self.exclude@,
        }
    }
}

impl Default for StreamParams {
    fn default() -> (r: Self)
        ensures
            r@ == (ParamsView {
                model: Seq::empty(),
                content: Seq::empty(),
                has_custom_tools: false,
                files: Seq::empty(),
                chat_type: "t2t"@,
                image_options: None,
                thinking_enabled: None,
                enable_search: false,
                fixed_account: None,
                existing_chat_id: None,
                delete_on_close: true,
                use_prewarmed: true,
                max_retries: None,
                exclude: Set::empty(),
            }),
    {
        let r = StreamParams {
            model: String::new(),
            content: String::new(),
            has_custom_tools: false,
            files: Vec::new(),
            chat_type: String::from_str("t2t"),
            image_options: None,
            thinking_enabled: None,
            enable_search: false,
            fixed_account: None,
            existing_chat_id: None,
            delete_on_close: true,
            use_prewarmed: true,
            max_retries: None,
            exclude: EmailSet::new(),
        };
        assert(json_views(r.files@) =~= Seq::empty());
        r
    }
}

/// A copy of JSON values.
pub fn copy_values(values: &Vec<Json>) -> (r: Vec<Json>)
    ensures
        json_views(r@) == json_views(values@),
{
    let mut out: Vec<Json> = Vec::new();
    let mut i: usize = 0;
    while i < values.len()
        invariant
            i <= values@.len(),
            out@.len() == i,
            forall|j: int| 0 <= j < i ==> (#[trigger] out@[j])@ == values@[j]@,
        decreases values@.len() - i,
    {
        out.push(values[i].clone());
        i = i + 1;
    }
    assert(json_views(out@) =~= json_views(values@));
    out
}

/// A copy of an optional string.
pub fn copy_text(s: &Option<String>) -> (r: Option<String>)
    ensures
        opt_view(r) == opt_view(*s),
{
    match s {
        Some(v) => Some(v.clone()),
        None => None,
    }
}

/// A copy of an optional JSON value.
pub fn copy_value(j: &Option<Json>) -> (r: Option<Json>)
    ensures
        opt_json_view(r) == opt_json_view(*j),
{
    match j {
        Some(v) => Some(v.clone()),
        None => None,
    }
}

impl StandardRequest {
    /// The client offers tools.
    pub open spec fn offers_tools(self) -> bool {
        self.tools@.len() > 0
    }

    /// Whether the client offers tools.
    pub fn has_tools(&self) -> (r: bool)
        ensures
            r == self.offers_tools(),
    {
        self.tools.len() > 0
    }

    /// What the pipeline needs to know of the request. A chat that was created in advance
    /// serves only text, and only where no account is fixed; images and videos get one try.
    pub open spec fn intake(self) -> ParamsView {
        ParamsView {
            model: self.resolved_model@,
            content: self.prompt@,
            has_custom_tools: self.offers_tools(),
            files: json_views(self.files@),
            chat_type: self.chat_type@,
            image_options: opt_json_view(self.image_options),
            thinking_enabled: self.thinking_enabled,
            enable_search: self.enable_search,
            fixed_account: opt_view(self.bound_account),
            existing_chat_id: None,
            delete_on_close: true,
            use_prewarmed: self.chat_type@ == "t2t"@ && self.bound_account is None,
            max_retries: if self.chat_type@ == "t2i"@ || self.chat_type@ == "t2v"@ {
                Some(1u32)
            } else {
                None
            },
            exclude: self.exclude_accounts@,
        }
    }
}

/// Takes a request in.
pub fn stage1_intake(std: &StandardRequest) -> (r: PipelineParams)
    ensures
        r@ == std.intake(),
{
    let chat_type = std.chat_type.as_str();
    let use_prewarmed = str_eq(chat_type, "t2t") && std.bound_account.is_none();
    let is_media = str_eq(chat_type, "t2i") || str_eq(chat_type, "t2v");
    PipelineParams {
        model: std.resolved_model.clone(),
        content: std.prompt.clone(),
        has_custom_tools: std.has_tools(),
        files: copy_values(&std.files),
        chat_type: std.chat_type.clone(),
        image_options: copy_value(&std.image_options),
        thinking_enabled: std.thinking_enabled,
        enable_search: std.enable_search,
        fixed_account: copy_text(&std.bound_account),
        existing_chat_id: None,
        delete_on_close: true,
        use_prewarmed,
        max_retries: if is_media {
            Some(1)
        } else {
            None
        },
        exclude: std.exclude_accounts.clone(),
    }
}

/// Binds a request to the upstream.
pub fn stage3_bind(params: &PipelineParams) -> (r: StreamParams)
    ensures
        r@ == params@,
{
    StreamParams {
        model: params.model.clone(),
        content: params.content.clone(),
        has_custom_tools: params.has_custom_tools,
        files: copy_values(&params.files),
        chat_type: params.chat_type.clone(),
        image_options: copy_value(&params.image_options),
        thinking_enabled: params.thinking_enabled,
        enable_search: params.enable_search,
        fixed_account: copy_text(&params.fixed_account),
        existing_chat_id: copy_text(&params.existing_chat_id),
        delete_on_close: params.delete_on_close,
        use_prewarmed: params.use_prewarmed,
        max_retries: params.max_retries,
        exclude: params.exclude.clone(),
    }
}

} // verus!
