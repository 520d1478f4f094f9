//! What is sent to the upstream, and what its replies mean.
//!
//! Each call is a request that is built here, sent by whoever holds the connection, and a
//! reply that is read here.

use vstd::prelude::*;
use vstd::string::*;
use vstd::utf8::*;

use super::digest::{hex_of, sha256, sha256_hex};
use super::error::{reply_view, AppError, ErrorView};
use super::http::{joined, opt_http_view, BASE_URL, HttpRequest, HttpView, Method, UA};
use crate::json::{json_of_bytes, json_of_text, number_of, Json, JsonObject, JsonView};
use crate::text::{
    contains, decimal, decimal_of, has_part, head, lowercase, opt_view, str_eq, take_chars,
    to_lowercase, trim, trimmed,
};

verus! {

/// What `serde_json` has read from a text.
pub open spec fn parsed_view(p: Result<Json, String>) -> Result<JsonView, Seq<char>> {
    match p {
        Ok(j) => Ok(j@),
        Err(m) => Err(m@),
    }
}

/// The text under a key, where there is one.
pub open spec fn text_field(j: JsonView, key: Seq<char>) -> Option<Seq<char>> {
    match j.field(key) {
        Some(v) => v.as_text(),
        None => None,
    }
}

fn text_at<'a>(j: &'a Json, key: &str) -> (r: Option<&'a str>)
    ensures
        match r {
            Some(s) => text_field(j@, key@) == Some(s@),
            None => text_field(j@, key@) is None,
        },
{
    match j.get(key) {
        Some(v) => v.as_str(),
        None => None,
    }
}

/// A message with a status and a detail.
pub open spec fn status_text(what: Seq<char>, status: u16, detail: Seq<char>) -> Seq<char> {
    what + decimal_of(status as nat) + ": "@ + detail
}

fn status_message(what: &str, status: u16, detail: &str) -> (r: String)
    ensures
        r@ == status_text(what@, status, detail@),
{
    let mut r = String::from_str(what);
    r.append(decimal(status as u64).as_str());
    r.append(": ");
    r.append(detail);
    r
}

/// The upstream could not be reached.
pub fn connection_error(what: &str, error: &str) -> (r: AppError)
    ensures
        r@ == ErrorView::Upstream(what@ + " 連線失敗: "@ + error@),
{
    let mut m = joined(what, " 連線失敗: ");
    m.append(error);
    AppError::Upstream(m)
}

/// The body of a sign-in: the password goes as its digest.
pub open spec fn signin_body(email: Seq<char>, password: Seq<char>) -> JsonView {
    JsonView::Object(
        Map::empty().insert("email"@, JsonView::String(email)).insert(
            "password"@,
            JsonView::String(hex_of(sha256(encode_utf8(password)))),
        ),
    )
}

/// The request of a sign-in.
pub open spec fn signin_request(
    email: Seq<char>,
    password: Seq<char>,
    request_id: Seq<char>,
) -> HttpView {
    HttpView {
        method: Method::Post,
        url: BASE_URL@ + "/api/v1/auths/signin"@,
        headers: seq![
            ("Content-Type"@, "application/json"@),
            ("Accept"@, "application/json"@),
            ("User-Agent"@, UA@),
            ("Accept-Language"@, "zh-CN,zh;q=0.9,en;q=0.8"@),
            ("Referer"@, "https://chat.qwen.ai/auth"@),
            ("Origin"@, "https://chat.qwen.ai"@),
            ("x-request-id"@, request_id),
        ],
        body: None,
        timeout_ms: Some(20_000),
    }.json(signin_body(email, password))
}

/// The detail of a refused sign-in: what the upstream says, else the start of its reply.
pub open spec fn signin_detail(
    text: Seq<char>,
    parsed: Result<JsonView, Seq<char>>,
) -> Seq<char> {
    match parsed {
        Ok(j) => match text_field(j, "detail"@) {
            Some(d) => d,
            None => head(text, 160),
        },
        Err(_) => head(text, 160),
    }
}

/// What the reply to a sign-in means: the token, or why there is none.
pub open spec fn signin_verdict(
    status: u16,
    text: Seq<char>,
    parsed: Result<JsonView, Seq<char>>,
) -> Result<Seq<char>, ErrorView> {
    if status == 200 {
        match parsed {
            Ok(j) => match text_field(j, "token"@) {
                Some(token) => if token.len() > 0 {
                    Ok(token)
                } else {
                    Err(ErrorView::Upstream("signin 200 但 token 欄位空"@))
                },
                None => Err(ErrorView::Upstream("signin 200 但 token 欄位空"@)),
            },
            Err(m) => Err(ErrorView::Upstream("signin 回應解析失敗: "@ + m)),
        }
    } else {
        let m = status_text("signin HTTP "@, status, signin_detail(text, parsed));
        if status == 400 || status == 401 || status == 403 {
            Err(ErrorView::Unauthorized(m))
        } else {
            Err(ErrorView::Upstream(m))
        }
    }
}

/// What the reply to a sign-in means, given what it holds as JSON.
pub fn read_signin(status: u16, text: &str, parsed: &Result<Json, String>) -> (r: Result<
    String,
    AppError,
>)
    ensures
        reply_view(r) == signin_verdict(status, text@, parsed_view(*parsed)),
{
    if status == 200 {
        return match parsed {
            Ok(j) => match text_at(j, "token") {
                Some(token) => if !token.is_empty() {
                    Ok(String::from_str(token))
                } else {
                    Err(AppError::Upstream(String::from_str("signin 200 但 token 欄位空")))
                },
                None => Err(AppError::Upstream(String::from_str("signin 200 但 token 欄位空"))),
            },
            Err(m) => Err(AppError::Upstream(joined("signin 回應解析失敗: ", m.as_str()))),
        };
    }
    let detail = match parsed {
        Ok(j) => match text_at(j, "detail") {
            Some(d) => String::from_str(d),
            None => take_chars(text, 160),
        },
        Err(_) => take_chars(text, 160),
    };
    let m = status_message("signin HTTP ", status, detail.as_str());
    if status == 400 || status == 401 || status == 403 {
        Err(AppError::Unauthorized(m))
    } else {
        Err(AppError::Upstream(m))
    }
}

/// What the reply to a check of a token means. A page that is no JSON but comes from the
/// firewall says nothing against the token.
pub open spec fn verify_verdict(
    status: u16,
    parsed: Result<JsonView, Seq<char>>,
    lower: Seq<char>,
) -> bool {
    status == 200 && match parsed {
        Ok(j) => text_field(j, "role"@) == Some("user"@),
        Err(_) => has_part(lower, "aliyun_waf"@) || has_part(lower, "<!doctype"@),
    }
}

/// What the reply to a check of a token means, given what it holds as JSON and its text in
/// lower case.
pub fn read_verify(status: u16, parsed: &Result<Json, String>, lower: &str) -> (r: bool)
    ensures
        r == verify_verdict(status, parsed_view(*parsed), lower@),
{
    if status != 200 {
        return false;
    }
    match parsed {
        Ok(j) => match text_at(j, "role") {
            Some(role) => str_eq(role, "user"),
            None => false,
        },
        Err(_) => contains(lower, "aliyun_waf") || contains(lower, "<!doctype"),
    }
}

/// The items of an array; none where it is no array.
pub open spec fn items_of(j: Option<JsonView>) -> Seq<JsonView> {
    match j {
        Some(JsonView::Array(items)) => items,
        _ => Seq::empty(),
    }
}

/// The models that a reply lists.
pub open spec fn models_verdict(status: u16, parsed: Option<JsonView>) -> Seq<JsonView> {
    if status == 200 {
        items_of(
            match parsed {
                Some(j) => j.field("data"@),
                None => None,
            },
        )
    } else {
        Seq::empty()
    }
}

/// The models that a reply lists, given what it holds as JSON.
pub fn read_models(status: u16, parsed: &Option<Json>) -> (r: Vec<Json>)
    ensures
        crate::execution::request::json_views(r@) == models_verdict(
            status,
            crate::events::opt_json_view(*parsed),
        ),
{
    let none: Vec<Json> = Vec::new();
    assert(crate::execution::request::json_views(none@) =~= Seq::empty());
    if status != 200 {
        return none;
    }
    match parsed {
        Some(j) => match j.get("data") {
            Some(d) => match d {
                Json::Array(items) => {
                    let r = crate::execution::request::copy_values(items);
                    assert(crate::execution::request::json_views(items@) =~= d@->Array_0);
                    r
                },
                _ => none,
            },
            None => none,
        },
        None => none,
    }
}

/// The body of a request for a new chat.
pub open spec fn chat_body(model: Seq<char>, chat_type: Seq<char>, ts: u64) -> JsonView {
    JsonView::Object(
        Map::empty().insert("title"@, JsonView::String("api_"@ + decimal_of(ts as nat))).insert(
            "models"@,
            JsonView::Array(seq![JsonView::String(model)]),
        ).insert("chat_mode"@, JsonView::String("normal"@)).insert(
            "chat_type"@,
            JsonView::String(chat_type),
        ).insert("timestamp"@, JsonView::Number(number_of(ts))),
    )
}

/// The reply, in lower case, says that the account was turned away.
pub open spec fn turned_away(status: u16, lower: Seq<char>) -> bool {
    ||| status == 401
    ||| status == 403
    ||| has_part(lower, "unauthorized"@)
    ||| has_part(lower, "forbidden"@)
    ||| has_part(lower, "login"@)
}

/// The reply, in lower case, points to the account.
pub open spec fn blames_account(lower: Seq<char>) -> bool {
    ||| has_part(lower, "html"@)
    ||| has_part(lower, "login"@)
    ||| has_part(lower, "unauthorized"@)
    ||| has_part(lower, "token"@)
    ||| has_part(lower, "expired"@)
    ||| has_part(lower, "invalid"@)
    ||| has_part(lower, "pending"@)
    ||| has_part(lower, "activation"@)
}

/// What the reply to a request for a new chat means: the chat, or why there is none.
pub open spec fn chat_verdict(
    status: u16,
    text: Seq<char>,
    lower: Seq<char>,
    parsed: Result<JsonView, Seq<char>>,
) -> Result<Seq<char>, ErrorView> {
    if status != 200 {
        if turned_away(status, lower) {
            Err(
                ErrorView::Unauthorized(
                    status_text("create_chat HTTP "@, status, head(text, 100)),
                ),
            )
        } else if status == 429 {
            Err(ErrorView::Upstream("429 Too Many Requests"@))
        } else {
            Err(ErrorView::Upstream(status_text("create_chat HTTP "@, status, head(text, 120))))
        }
    } else {
        match parsed {
            Err(m) => Err(ErrorView::Upstream("create_chat parse error: "@ + m)),
            Ok(j) => if j.field("success"@) != Some(JsonView::Bool(true)) {
                if blames_account(lower) {
                    Err(ErrorView::Unauthorized("account issue: "@ + head(text, 160)))
                } else {
                    Err(ErrorView::Upstream("Qwen API returned success=false"@))
                }
            } else {
                match j.field("data"@) {
                    Some(d) => match text_field(d, "id"@) {
                        Some(id) => Ok(id),
                        None => Err(ErrorView::Upstream("create_chat 缺少 data.id"@)),
                    },
                    None => Err(ErrorView::Upstream("create_chat 缺少 data.id"@)),
                }
            },
        }
    }
}

/// What the reply to a request for a new chat means, given its text in lower case and what it
/// holds as JSON.
pub fn read_chat(status: u16, text: &str, lower: &str, parsed: &Result<Json, String>) -> (r: Result<
    String,
    AppError,
>)
    ensures
        reply_view(r) == chat_verdict(status, text@, lower@, parsed_view(*parsed)),
{
    if status != 200 {
        if status == 401 || status == 403 || contains(lower, "unauthorized") || contains(
            lower,
            "forbidden",
        ) || contains(lower, "login") {
            let start = take_chars(text, 100);
            return Err(
                AppError::Unauthorized(
                    status_message("create_chat HTTP ", status, start.as_str()),
                ),
            );
        }
        if status == 429 {
            return Err(AppError::Upstream(String::from_str("429 Too Many Requests")));
        }
        let start = take_chars(text, 120);
        return Err(
            AppError::Upstream(status_message("create_chat HTTP ", status, start.as_str())),
        );
    }
    let data = match parsed {
        Err(m) => {
            return Err(AppError::Upstream(joined("create_chat parse error: ", m.as_str())));
        },
        Ok(j) => j,
    };
    let success = match data.get("success") {
        Some(Json::Bool(b)) => *b,
        _ => false,
    };
    assert(success == (data@.field("success"@) == Some(JsonView::Bool(true))));
    if !success {
        if contains(lower, "html") || contains(lower, "login") || contains(lower, "unauthorized")
            || contains(lower, "token") || contains(lower, "expired") || contains(lower, "invalid")
            || contains(lower, "pending") || contains(lower, "activation") {
            let start = take_chars(text, 160);
            return Err(AppError::Unauthorized(joined("account issue: ", start.as_str())));
        }
        return Err(AppError::Upstream(String::from_str("Qwen API returned success=false")));
    }
    match data.get("data") {
        Some(d) => match text_at(d, "id") {
            Some(id) => Ok(String::from_str(id)),
            None => Err(AppError::Upstream(String::from_str("create_chat 缺少 data.id"))),
        },
        None => Err(AppError::Upstream(String::from_str("create_chat 缺少 data.id"))),
    }
}

/// The address of a chat.
pub open spec fn chat_path(chat_id: Seq<char>) -> Seq<char> {
    "/api/v2/chats/"@ + chat_id
}

/// What comes after an attempt to delete a chat.
#[derive(Clone, Copy, PartialEq, Eq, Structural, Debug)]
pub enum DeleteStep {
    /// The chat is gone.
    Done,
    /// Another attempt, after so many milliseconds.
    Retry { sleep_ms: u128 },
    /// No more attempts.
    GaveUp,
}

/// What comes after attempt `attempt`, which counts from one: there are so many attempts, at
/// least one, and the sleeps grow.
pub open spec fn delete_step(attempts: u32, delay_ms: u64, attempt: u32, gone: bool) -> DeleteStep {
    let max: u32 = if attempts >= 1 {
        attempts
    } else {
        1
    };
    if gone {
        DeleteStep::Done
    } else if attempt < max {
        DeleteStep::Retry { sleep_ms: (delay_ms * attempt) as u128 }
    } else {
        DeleteStep::GaveUp
    }
}

/// What the status of a stream means.
pub open spec fn stream_verdict(status: u16, body: Seq<char>) -> Result<(), ErrorView> {
    let start = head(body, 200);
    if status == 200 {
        Ok(())
    } else if status == 429 {
        Err(ErrorView::Upstream("429: "@ + start))
    } else if status == 401 || status == 403 {
        Err(ErrorView::Unauthorized(status_text("HTTP "@, status, start)))
    } else {
        Err(ErrorView::Upstream(status_text("HTTP "@, status, start)))
    }
}

/// The proxy, or none where there is nothing but white space.
pub open spec fn clean_proxy(proxy: Option<Seq<char>>) -> Option<Seq<char>> {
    match proxy {
        Some(p) => if trimmed(p).len() > 0 {
            Some(trimmed(p))
        } else {
            None
        },
        None => None,
    }
}

/// The proxy, or none where there is nothing but white space.
pub fn normalize_proxy(proxy: &Option<String>) -> (r: Option<String>)
    ensures
        opt_view(r) == clean_proxy(opt_view(*proxy)),
{
    match proxy {
        Some(p) => {
            let t = trim(p.as_str());
            if t.is_empty() {
                None
            } else {
                Some(String::from_str(t))
            }
        },
        None => None,
    }
}

/// The client of the upstream.
pub struct QwenClient {
    /// The proxy that was asked for.
    pub proxy: Option<String>,
}

impl QwenClient {
    /// A client with a proxy, or with none.
    pub fn new(proxy: Option<String>) -> (r: Self)
        ensures
            opt_view(r.proxy) == opt_view(proxy),
    {
        QwenClient { proxy }
    }

    /// Changes the proxy. White space alone means none.
    pub fn set_proxy(&mut self, proxy: Option<String>)
        ensures
            opt_view(final(self).proxy) == clean_proxy(opt_view(proxy)),
    {
        self.proxy = normalize_proxy(&proxy);
    }

    /// The proxy that was asked for.
    pub fn proxy(&self) -> (r: Option<String>)
        ensures
            opt_view(r) == opt_view(self.proxy),
    {
        crate::execution::request::copy_text(&self.proxy)
    }

    /// The request of a sign-in. An account without a password cannot sign in.
    pub fn signin(&self, email: &str, plain_password: &str, request_id: &str) -> (r: Result<
        HttpRequest,
        AppError,
    >)
        ensures
            match r {
                Ok(q) => plain_password@.len() > 0 && q@ == signin_request(
                    email@,
                    plain_password@,
                    request_id@,
                ),
                Err(e) => plain_password@.len() == 0 && e@ == ErrorView::Unauthorized(
                    "帳號無 password 欄位，無法重登"@,
                ),
            },
    {
        if plain_password.is_empty() {
            return Err(
                AppError::Unauthorized(String::from_str("帳號無 password 欄位，無法重登")),
            );
        }
        let digest = sha256_hex(plain_password);
        let mut o = JsonObject::new();
        o.insert(String::from_str("email"), Json::text(email));
        o.insert(String::from_str("password"), Json::String(digest));
        let body = Json::Object(o);
        assert(body@ == signin_body(email@, plain_password@));
        let q = HttpRequest::bare(Method::Post, "/api/v1/auths/signin").header(
            "Content-Type",
            "application/json",
        ).header("Accept", "application/json").header("User-Agent", UA).header(
            "Accept-Language",
            "zh-CN,zh;q=0.9,en;q=0.8",
        ).header("Referer", "https://chat.qwen.ai/auth").header(
            "Origin",
            "https://chat.qwen.ai",
        ).header("x-request-id", request_id).timeout(20_000).json(&body);
        assert(q@.headers =~= signin_request(email@, plain_password@, request_id@).headers);
        Ok(q)
    }

    /// What the reply to a sign-in means.
    pub fn signin_reply(&self, status: u16, text: &str) -> (r: Result<String, AppError>)
        ensures
            reply_view(r) == signin_verdict(status, text@, json_of_text(text@)),
    {
        let parsed = Json::parse(text);
        assert(parsed_view(parsed) == json_of_text(text@));
        read_signin(status, text, &parsed)
    }

    /// The request that checks a token; none is needed for an empty one, which is no good.
    pub fn verify_token(&self, token: &str, request_id: &str) -> (r: Option<HttpRequest>)
        ensures
            opt_http_view(r) == if token@.len() == 0 {
                None
            } else {
                Some(
                    HttpView::of_account(
                        Method::Get,
                        "/api/v1/auths/"@,
                        token@,
                        request_id@,
                    ).timeout(15_000),
                )
            },
    {
        if token.is_empty() {
            return None;
        }
        Some(
            HttpRequest::of_account(Method::Get, "/api/v1/auths/", token, request_id).timeout(
                15_000,
            ),
        )
    }

    /// Whether the reply to a check finds the token good.
    pub fn verify_reply(&self, status: u16, text: &str) -> (r: bool)
        ensures
            r == verify_verdict(status, json_of_text(text@), lowercase(text@)),
    {
        let parsed = Json::parse(text);
        assert(parsed_view(parsed) == json_of_text(text@));
        let lower = to_lowercase(text);
        read_verify(status, &parsed, lower.as_str())
    }

    /// The request for the list of models.
    pub fn list_models(&self, token: &str, request_id: &str) -> (r: HttpRequest)
        ensures
            r@ == HttpView::of_account(
                Method::Get,
                "/api/models"@,
                token@,
                request_id@,
            ).timeout(10_000),
    {
        HttpRequest::of_account(Method::Get, "/api/models", token, request_id).timeout(10_000)
    }

    /// The models that a reply lists; none where it is not what it should be.
    pub fn models_reply(&self, status: u16, body: &[u8]) -> (r: Vec<Json>)
        ensures
            crate::execution::request::json_views(r@) == models_verdict(
                status,
                json_of_bytes(body@),
            ),
    {
        let parsed = Json::parse_bytes(body);
        read_models(status, &parsed)
    }

    /// The request for a new chat, at a time in seconds since the Unix epoch.
    pub fn create_chat(
        &self,
        token: &str,
        model: &str,
        chat_type: &str,
        ts: u64,
        request_id: &str,
    ) -> (r: HttpRequest)
        ensures
            r@ == HttpView::of_account(
                Method::Post,
                "/api/v2/chats/new"@,
                token@,
                request_id@,
            ).header("Content-Type"@, "application/json"@).timeout(30_000).json(
                chat_body(model@, chat_type@, ts),
            ),
    {
        let title = joined("api_", decimal(ts).as_str());
        let mut models: Vec<Json> = Vec::new();
        models.push(Json::text(model));
        let models = Json::Array(models);
        assert(models@->Array_0 =~= seq![JsonView::String(model@)]);
        let mut o = JsonObject::new();
        o.insert(String::from_str("title"), Json::String(title));
        o.insert(String::from_str("models"), models);
        o.insert(String::from_str("chat_mode"), Json::text("normal"));
        o.insert(String::from_str("chat_type"), Json::text(chat_type));
        o.insert(String::from_str("timestamp"), Json::integer(ts));
        let body = Json::Object(o);
        assert(body@ == chat_body(model@, chat_type@, ts));
        HttpRequest::of_account(Method::Post, "/api/v2/chats/new", token, request_id).header(
            "Content-Type",
            "application/json",
        ).timeout(30_000).json(&body)
    }

    /// What the reply to a request for a new chat means.
    pub fn chat_reply(&self, status: u16, text: &str) -> (r: Result<String, AppError>)
        ensures
            reply_view(r) == chat_verdict(
                status,
                text@,
                lowercase(text@),
                json_of_text(text@),
            ),
    {
        let parsed = Json::parse(text);
        assert(parsed_view(parsed) == json_of_text(text@));
        let lower = to_lowercase(text);
        read_chat(status, text, lower.as_str(), &parsed)
    }

    /// The request that deletes a chat; none is needed without a token or a chat.
    pub fn delete_chat(&self, token: &str, chat_id: &str, request_id: &str) -> (r: Option<
        HttpRequest,
    >)
        ensures
            opt_http_view(r) == if token@.len() == 0 || chat_id@.len() == 0 {
                None
            } else {
                Some(
                    HttpView::of_account(
                        Method::Delete,
                        chat_path(chat_id@),
                        token@,
                        request_id@,
                    ).timeout(20_000),
                )
            },
    {
        if token.is_empty() || chat_id.is_empty() {
            return None;
        }
        let path = joined("/api/v2/chats/", chat_id);
        Some(
            HttpRequest::of_account(Method::Delete, path.as_str(), token, request_id).timeout(
                20_000,
            ),
        )
    }

    /// Whether the reply to a deletion means that the chat is gone.
    pub fn delete_reply(&self, status: u16) -> (r: bool)
        ensures
            r == (status == 200 || status == 204 || status == 404),
    {
        status == 200 || status == 204 || status == 404
    }

    /// What comes after an attempt to delete a chat.
    pub fn delete_chat_reliable(&self, attempts: u32, delay_ms: u64, attempt: u32, gone: bool) -> (r:
        DeleteStep)
        ensures
            r == delete_step(attempts, delay_ms, attempt, gone),
    {
        let max: u32 = if attempts >= 1 {
            attempts
        } else {
            1
        };
        if gone {
            DeleteStep::Done
        } else if attempt < max {
            assert(0 <= delay_ms * attempt <= u64::MAX * u32::MAX) by (nonlinear_arith)
                requires
                    0 <= delay_ms <= u64::MAX,
                    0 <= attempt <= u32::MAX,
            ;
            DeleteStep::Retry { sleep_ms: delay_ms as u128 * attempt as u128 }
        } else {
            DeleteStep::GaveUp
        }
    }

    /// The request that starts a stream: `payload` is what is asked of the model.
    pub fn start_stream(&self, token: &str, chat_id: &str, payload: &Json, request_id: &str) -> (r:
        HttpRequest)
        ensures
            r@ == HttpView::of_account(
                Method::Post,
                "/api/v2/chat/completions?chat_id="@ + chat_id@,
                token@,
                request_id@,
            ).header("Content-Type"@, "application/json"@).header(
                "Accept"@,
                "text/event-stream"@,
            ).json(payload@),
    {
        let path = joined("/api/v2/chat/completions?chat_id=", chat_id);
        HttpRequest::of_account(Method::Post, path.as_str(), token, request_id).header(
            "Content-Type",
            "application/json",
        ).header("Accept", "text/event-stream").json(payload)
    }

    /// Whether a stream has started. The body counts only where it has not.
    pub fn stream_reply(&self, status: u16, body: &str) -> (r: Result<(), AppError>)
        ensures
            match r {
                Ok(_) => stream_verdict(status, body@) == Ok::<(), ErrorView>(()),
                Err(e) => stream_verdict(status, body@) == Err::<(), ErrorView>(e@),
            },
    {
        if status == 200 {
            return Ok(());
        }
        let start = take_chars(body, 200);
        if status == 429 {
            return Err(AppError::Upstream(joined("429: ", start.as_str())));
        }
        let m = status_message("HTTP ", status, start.as_str());
        if status == 401 || status == 403 {
            Err(AppError::Unauthorized(m))
        } else {
            Err(AppError::Upstream(m))
        }
    }
}

impl Default for QwenClient {
    fn default() -> (r: Self)
        ensures
            r.proxy is None,
    {
        QwenClient::new(None)
    }
}

} // verus!
