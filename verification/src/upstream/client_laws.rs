//! What is sent to the upstream, word by word, and what its replies mean.

use vstd::prelude::*;
use vstd::string::*;
use vstd::utf8::*;

use super::client::{
    chat_verdict, clean_proxy, connection_error, delete_step, models_verdict, signin_verdict, stream_verdict,
    verify_verdict, DeleteStep, QwenClient,
};
use super::digest::{hex_digit, hex_of, sha256, sha256_hex};
use super::error::{reply_view, AppError, ErrorView};
use super::http::{HttpRequest, HttpView, Method};
use crate::execution::request::json_views;
use crate::json::{json_of_bytes, json_of_text, number_of, text_of_json, Json, JsonView};
use crate::text::{decimal_of, is_white, lowercase, opt_view};
use crate::text_laws::{all_white, holds, lemma_holds, lemma_trimmed};

verus! {

/// The headers that every request of an account carries.
pub open spec fn signed_headers(token: Seq<char>, request_id: Seq<char>) -> Seq<
    (Seq<char>, Seq<char>),
> {
    seq![
        ("Authorization"@, "Bearer "@ + token),
        (
            "User-Agent"@,
            "Mozilla/5.0 (Windows NT 10.0; Win64; x64) AppleWebKit/537.36 (KHTML, like Gecko) Chrome/120.0.0.0 Safari/537.36"@,
        ),
        ("Accept"@, "application/json, text/plain, */*"@),
        ("Accept-Language"@, "zh-CN,zh;q=0.9,en;q=0.8"@),
        ("Referer"@, "https://chat.qwen.ai/"@),
        ("Origin"@, "https://chat.qwen.ai"@),
        ("x-request-id"@, request_id),
    ]
}

/// A new chat is asked for with the token of the account. It is named after the time, is for one
/// model, and is of the type that was asked for.
pub proof fn lemma_create_chat_request(
    client: &QwenClient,
    token: &str,
    model: &str,
    chat_type: &str,
    ts: u64,
    request_id: &str,
    r: HttpRequest,
)
    requires
        call_ensures(
            QwenClient::create_chat,
            (client, token, model, chat_type, ts, request_id),
            r,
        ),
    ensures
        r@.method == Method::Post,
        r@.url == "https://chat.qwen.ai"@ + "/api/v2/chats/new"@,
        r@.headers == signed_headers(token@, request_id@).push(
            ("Content-Type"@, "application/json"@),
        ),
        r@.timeout_ms == Some(30_000u64),
        exists|m: Map<Seq<char>, JsonView>|
            {
                &&& r@.body == Some(#[trigger] text_of_json(JsonView::Object(m)))
                &&& m.dom() == set![
                    "title"@,
                    "models"@,
                    "chat_mode"@,
                    "chat_type"@,
                    "timestamp"@,
                ]
                &&& m["title"@] == JsonView::String("api_"@ + decimal_of(ts as nat))
                &&& m["models"@] == JsonView::Array(seq![JsonView::String(model@)])
                &&& m["chat_mode"@] == JsonView::String("normal"@)
                &&& m["chat_type"@] == JsonView::String(chat_type@)
                &&& m["timestamp"@] == JsonView::Number(number_of(ts))
            },
{
    reveal_strlit("title");
    reveal_strlit("models");
    reveal_strlit("chat_mode");
    reveal_strlit("chat_type");
    reveal_strlit("timestamp");
    assert("title"@.len() == 5 && "models"@.len() == 6 && "timestamp"@.len() == 9);
    assert("chat_mode"@.len() == 9 && "chat_mode"@[0] == 'c' && "chat_mode"@[5] == 'm');
    assert("chat_type"@.len() == 9 && "chat_type"@[0] == 'c' && "chat_type"@[5] == 't');
    assert("timestamp"@[0] == 't');
    let body = super::client::chat_body(model@, chat_type@, ts);
    let m = body->Object_0;
    assert(m.dom() =~= set!["title"@, "models"@, "chat_mode"@, "chat_type"@, "timestamp"@]);
    assert(r@.body == Some(text_of_json(JsonView::Object(m))));
}

/// A stream is asked for on the chat, with the token of the account, and takes as long as it takes.
pub proof fn lemma_start_stream_request(
    client: &QwenClient,
    token: &str,
    chat_id: &str,
    payload: &Json,
    request_id: &str,
    r: HttpRequest,
)
    requires
        call_ensures(QwenClient::start_stream, (client, token, chat_id, payload, request_id), r),
    ensures
        r@.method == Method::Post,
        r@.url == "https://chat.qwen.ai"@ + ("/api/v2/chat/completions?chat_id="@ + chat_id@),
        r@.headers == signed_headers(token@, request_id@).push(
            ("Content-Type"@, "application/json"@),
        ).push(("Accept"@, "text/event-stream"@)),
        r@.body == Some(text_of_json(payload@)),
        r@.timeout_ms is None,
{
}

/// A chat is deleted with the token of the account, where there is a token and a chat.
pub proof fn lemma_delete_chat_request(
    client: &QwenClient,
    token: &str,
    chat_id: &str,
    request_id: &str,
    r: Option<HttpRequest>,
)
    requires
        call_ensures(QwenClient::delete_chat, (client, token, chat_id, request_id), r),
    ensures
        r is None <==> token@.len() == 0 || chat_id@.len() == 0,
        r matches Some(q) ==> q@ == (HttpView {
            method: Method::Delete,
            url: "https://chat.qwen.ai"@ + ("/api/v2/chats/"@ + chat_id@),
            headers: signed_headers(token@, request_id@),
            body: None,
            timeout_ms: Some(20_000u64),
        }),
{
}

/// A token is checked by asking who it belongs to; an empty one is not asked about.
pub proof fn lemma_verify_token_request(
    client: &QwenClient,
    token: &str,
    request_id: &str,
    r: Option<HttpRequest>,
)
    requires
        call_ensures(QwenClient::verify_token, (client, token, request_id), r),
    ensures
        r is None <==> token@.len() == 0,
        r matches Some(q) ==> q@ == (HttpView {
            method: Method::Get,
            url: "https://chat.qwen.ai"@ + "/api/v1/auths/"@,
            headers: signed_headers(token@, request_id@),
            body: None,
            timeout_ms: Some(15_000u64),
        }),
{
}

/// The models are asked for with a token.
pub proof fn lemma_list_models_request(
    client: &QwenClient,
    token: &str,
    request_id: &str,
    r: HttpRequest,
)
    requires
        call_ensures(QwenClient::list_models, (client, token, request_id), r),
    ensures
        r@ == (HttpView {
            method: Method::Get,
            url: "https://chat.qwen.ai"@ + "/api/models"@,
            headers: signed_headers(token@, request_id@),
            body: None,
            timeout_ms: Some(10_000u64),
        }),
{
}

/// A sign-in sends the address and the digest of the password, never the password itself, and no
/// token. An account without a password does not sign in.
pub proof fn lemma_signin_request(
    client: &QwenClient,
    email: &str,
    password: &str,
    request_id: &str,
    r: Result<HttpRequest, AppError>,
)
    requires
        call_ensures(QwenClient::signin, (client, email, password, request_id), r),
    ensures
        password@.len() == 0 <==> r is Err,
        r matches Err(e) ==> e@ == ErrorView::Unauthorized("帳號無 password 欄位，無法重登"@),
        r matches Ok(q) ==> {
            &&& q@.method == Method::Post
            &&& q@.url == "https://chat.qwen.ai"@ + "/api/v1/auths/signin"@
            &&& q@.timeout_ms == Some(20_000u64)
            &&& q@.headers == seq![
                ("Content-Type"@, "application/json"@),
                ("Accept"@, "application/json"@),
                (
                    "User-Agent"@,
                    "Mozilla/5.0 (Windows NT 10.0; Win64; x64) AppleWebKit/537.36 (KHTML, like Gecko) Chrome/120.0.0.0 Safari/537.36"@,
                ),
                ("Accept-Language"@, "zh-CN,zh;q=0.9,en;q=0.8"@),
                ("Referer"@, "https://chat.qwen.ai/auth"@),
                ("Origin"@, "https://chat.qwen.ai"@),
                ("x-request-id"@, request_id@),
            ]
            &&& exists|m: Map<Seq<char>, JsonView>|
                {
                    &&& q@.body == Some(#[trigger] text_of_json(JsonView::Object(m)))
                    &&& m.dom() == set!["email"@, "password"@]
                    &&& m["email"@] == JsonView::String(email@)
                    &&& m["password"@] == JsonView::String(
                        hex_of(sha256(encode_utf8(password@))),
                    )
                }
        },
{
    reveal_strlit("email");
    reveal_strlit("password");
    assert("email"@.len() == 5 && "password"@.len() == 8);
    let m = super::client::signin_body(email@, password@)->Object_0;
    assert(m.dom() =~= set!["email"@, "password"@]);
    if password@.len() > 0 {
        assert(r->Ok_0@.body == Some(text_of_json(JsonView::Object(m))));
    }
}

/// The text that a reply holds under a name.
pub open spec fn says(j: JsonView, name: Seq<char>, text: Seq<char>) -> bool {
    j matches JsonView::Object(m) && m.contains_key(name) && m[name] == JsonView::String(text)
}

/// The reply holds a text under a name.
pub open spec fn says_something(j: JsonView, name: Seq<char>) -> bool {
    j matches JsonView::Object(m) && m.contains_key(name) && m[name] is String
}

/// A sign-in gives the token that the reply names, and only with a success. A refusal tells the
/// detail that the reply names, or else its first 160 characters.
pub proof fn lemma_signin_reply(
    status: u16,
    text: Seq<char>,
    parsed: Result<JsonView, Seq<char>>,
    s: Seq<char>,
)
    ensures
        ({
            let v = signin_verdict(status, text, parsed);
            let refusal = status == 400 || status == 401 || status == 403;
            &&& status == 200 && parsed is Ok && says(parsed->Ok_0, "token"@, s) && s.len() > 0
                ==> v == Ok::<Seq<char>, ErrorView>(s)
            &&& status == 200 && parsed is Ok && (says(parsed->Ok_0, "token"@, Seq::empty())
                || !says_something(parsed->Ok_0, "token"@)) ==> v == Err::<Seq<char>, ErrorView>(
                ErrorView::Upstream("signin 200 但 token 欄位空"@),
            )
            &&& status == 200 && parsed is Err ==> v == Err::<Seq<char>, ErrorView>(
                ErrorView::Upstream("signin 回應解析失敗: "@ + parsed->Err_0),
            )
            &&& status != 200 && parsed is Ok && says(parsed->Ok_0, "detail"@, s) ==> v == Err::<
                Seq<char>,
                ErrorView,
            >(
                if refusal {
                    ErrorView::Unauthorized(
                        "signin HTTP "@ + decimal_of(status as nat) + ": "@ + s,
                    )
                } else {
                    ErrorView::Upstream("signin HTTP "@ + decimal_of(status as nat) + ": "@ + s)
                },
            )
            &&& status != 200 && (parsed is Err || !says_something(parsed->Ok_0, "detail"@))
                && text.len() <= 160 ==> v == Err::<Seq<char>, ErrorView>(
                if refusal {
                    ErrorView::Unauthorized(
                        "signin HTTP "@ + decimal_of(status as nat) + ": "@ + text,
                    )
                } else {
                    ErrorView::Upstream(
                        "signin HTTP "@ + decimal_of(status as nat) + ": "@ + text,
                    )
                },
            )
            &&& status != 200 && (parsed is Err || !says_something(parsed->Ok_0, "detail"@))
                && text.len() > 160 ==> v == Err::<Seq<char>, ErrorView>(
                if refusal {
                    ErrorView::Unauthorized(
                        "signin HTTP "@ + decimal_of(status as nat) + ": "@ + text.take(160),
                    )
                } else {
                    ErrorView::Upstream(
                        "signin HTTP "@ + decimal_of(status as nat) + ": "@ + text.take(160),
                    )
                },
            )
        }),
{
    if status == 200 && parsed is Ok && says(parsed->Ok_0, "token"@, Seq::empty()) {
        assert(super::client::text_field(parsed->Ok_0, "token"@) == Some(Seq::<char>::empty()));
    }
}

/// A token is good where the reply is a success that names a user, or a page of the firewall, which
/// is no JSON and says nothing against it. It is good on no other reply.
pub proof fn lemma_verify_reply(
    status: u16,
    parsed: Result<JsonView, Seq<char>>,
    lower: Seq<char>,
)
    ensures
        verify_verdict(status, parsed, lower) <==> status == 200 && match parsed {
            Ok(j) => says(j, "role"@, "user"@),
            Err(_) => holds(lower, "aliyun_waf"@) || holds(lower, "<!doctype"@),
        },
{
    lemma_holds(lower, "aliyun_waf"@);
    lemma_holds(lower, "<!doctype"@);
}

/// The models are those that a successful reply lists under its data, and none otherwise.
pub proof fn lemma_models_reply(
    status: u16,
    m: Map<Seq<char>, JsonView>,
    items: Seq<JsonView>,
)
    ensures
        status == 200 && m.contains_key("data"@) && m["data"@] == JsonView::Array(items)
            ==> models_verdict(status, Some(JsonView::Object(m))) == items,
        !m.contains_key("data"@) || !(m["data"@] is Array) ==> models_verdict(
            status,
            Some(JsonView::Object(m)),
        ).len() == 0,
        status != 200 ==> models_verdict(status, Some(JsonView::Object(m))).len() == 0,
        models_verdict(status, None).len() == 0,
{
}

/// A new chat is the one that a confirmed success names.
pub proof fn lemma_chat_reply_success(
    text: Seq<char>,
    lower: Seq<char>,
    m: Map<Seq<char>, JsonView>,
    id: Seq<char>,
)
    ensures
        ({
            let v = chat_verdict(200, text, lower, Ok(JsonView::Object(m)));
            let confirmed = m.contains_key("success"@) && m["success"@] == JsonView::Bool(true);
            let blamed = holds(lower, "html"@) || holds(lower, "login"@) || holds(
                lower,
                "unauthorized"@,
            ) || holds(lower, "token"@) || holds(lower, "expired"@) || holds(lower, "invalid"@)
                || holds(lower, "pending"@) || holds(lower, "activation"@);
            &&& confirmed && m.contains_key("data"@) && says(m["data"@], "id"@, id) ==> v == Ok::<
                Seq<char>,
                ErrorView,
            >(id)
            &&& confirmed && (!m.contains_key("data"@) || !says_something(m["data"@], "id"@)) ==> v
                == Err::<Seq<char>, ErrorView>(ErrorView::Upstream("create_chat 缺少 data.id"@))
            &&& !confirmed && blamed && text.len() <= 160 ==> v == Err::<Seq<char>, ErrorView>(
                ErrorView::Unauthorized("account issue: "@ + text),
            )
            &&& !confirmed && blamed && text.len() > 160 ==> v == Err::<Seq<char>, ErrorView>(
                ErrorView::Unauthorized("account issue: "@ + text.take(160)),
            )
            &&& !confirmed && !blamed ==> v == Err::<Seq<char>, ErrorView>(
                ErrorView::Upstream("Qwen API returned success=false"@),
            )
        }),
{
    lemma_holds(lower, "html"@);
    lemma_holds(lower, "login"@);
    lemma_holds(lower, "unauthorized"@);
    lemma_holds(lower, "token"@);
    lemma_holds(lower, "expired"@);
    lemma_holds(lower, "invalid"@);
    lemma_holds(lower, "pending"@);
    lemma_holds(lower, "activation"@);
}

/// Where the request for a chat has no success, the account is blamed on a refusal, which the
/// status or the reply tells; too many requests are told as such; anything else is the upstream's.
pub proof fn lemma_chat_reply_failure(
    status: u16,
    text: Seq<char>,
    lower: Seq<char>,
    parsed: Result<JsonView, Seq<char>>,
)
    requires
        status != 200,
    ensures
        ({
            let v = chat_verdict(status, text, lower, parsed);
            let refused = status == 401 || status == 403 || holds(lower, "unauthorized"@) || holds(
                lower,
                "forbidden"@,
            ) || holds(lower, "login"@);
            let what = "create_chat HTTP "@ + decimal_of(status as nat) + ": "@;
            &&& refused && text.len() <= 100 ==> v == Err::<Seq<char>, ErrorView>(
                ErrorView::Unauthorized(what + text),
            )
            &&& refused && text.len() > 100 ==> v == Err::<Seq<char>, ErrorView>(
                ErrorView::Unauthorized(what + text.take(100)),
            )
            &&& !refused && status == 429 ==> v == Err::<Seq<char>, ErrorView>(
                ErrorView::Upstream("429 Too Many Requests"@),
            )
            &&& !refused && status != 429 && text.len() <= 120 ==> v == Err::<
                Seq<char>,
                ErrorView,
            >(ErrorView::Upstream(what + text))
            &&& !refused && status != 429 && text.len() > 120 ==> v == Err::<Seq<char>, ErrorView>(
                ErrorView::Upstream(what + text.take(120)),
            )
        }),
        forall|m: Seq<char>|
            #![trigger chat_verdict(200, text, lower, Err(m))]
            chat_verdict(200, text, lower, Err(m)) == Err::<Seq<char>, ErrorView>(
                ErrorView::Upstream("create_chat parse error: "@ + m),
            ),
{
    lemma_holds(lower, "unauthorized"@);
    lemma_holds(lower, "forbidden"@);
    lemma_holds(lower, "login"@);
}

/// A stream has started exactly on a success. A rate limit is told as such, and a refusal blames
/// the account.
pub proof fn lemma_stream_reply(status: u16, body: Seq<char>)
    ensures
        ({
            let v = stream_verdict(status, body);
            let start = if body.len() <= 200 {
                body
            } else {
                body.take(200)
            };
            let what = "HTTP "@ + decimal_of(status as nat) + ": "@;
            &&& v is Ok <==> status == 200
            &&& status == 429 ==> v == Err::<(), ErrorView>(ErrorView::Upstream("429: "@ + start))
            &&& status == 401 || status == 403 ==> v == Err::<(), ErrorView>(
                ErrorView::Unauthorized(what + start),
            )
            &&& status != 200 && status != 429 && status != 401 && status != 403 ==> v == Err::<
                (),
                ErrorView,
            >(ErrorView::Upstream(what + start))
        }),
{
}

/// A chat is gone where the deletion succeeded or there was no such chat.
pub proof fn lemma_delete_reply(client: &QwenClient, status: u16, r: bool)
    requires
        call_ensures(QwenClient::delete_reply, (client, status), r),
    ensures
        r <==> status == 200 || status == 204 || status == 404,
{
}

/// After each failed attempt to delete a chat, but the last, there is a sleep that is as many times
/// the delay as attempts were made. At least one attempt is made.
pub proof fn lemma_delete_steps(attempts: u32, delay_ms: u64, attempt: u32)
    requires
        attempt >= 1,
    ensures
        delete_step(attempts, delay_ms, attempt, true) == DeleteStep::Done,
        attempt < attempts ==> delete_step(attempts, delay_ms, attempt, false) == (
        DeleteStep::Retry { sleep_ms: (delay_ms * attempt) as u128 }),
        attempt >= attempts ==> delete_step(attempts, delay_ms, attempt, false)
            == DeleteStep::GaveUp,
{
}

/// A proxy is kept without the white space around it, and one of white space alone is none.
pub proof fn lemma_proxy(p: Seq<char>)
    ensures
        clean_proxy(None) is None,
        clean_proxy(Some(p)) is None <==> all_white(p),
        clean_proxy(Some(p)) matches Some(q) ==> q.len() > 0 && !is_white(q[0]) && !is_white(
            q.last(),
        ) && exists|before: Seq<char>, after: Seq<char>|
            p == #[trigger] (before + q + after) && all_white(before) && all_white(after),
{
    lemma_trimmed(p);
}

/// The value of a hexadecimal digit.
pub open spec fn hex_value(c: char) -> int {
    if '0' <= c <= '9' {
        c as u32 - '0' as u32
    } else {
        c as u32 - 'a' as u32 + 10
    }
}

/// In hexadecimal each byte is two small digits, the high one first.
pub proof fn lemma_hex(bytes: Seq<u8>, i: int)
    requires
        0 <= i < bytes.len(),
    ensures
        hex_of(bytes).len() == 2 * bytes.len(),
        bytes[i] == 16 * hex_value(hex_of(bytes)[2 * i]) + hex_value(hex_of(bytes)[2 * i + 1]),
        ({
            let c = hex_of(bytes)[2 * i];
            ('0' <= c <= '9') || ('a' <= c <= 'f')
        }),
        ({
            let c = hex_of(bytes)[2 * i + 1];
            ('0' <= c <= '9') || ('a' <= c <= 'f')
        }),
{
    let x = hex_of(bytes);
    assert((2 * i) / 2 == i && (2 * i) % 2 == 0);
    assert((2 * i + 1) / 2 == i && (2 * i + 1) % 2 == 1);
    assert(x[2 * i] == hex_digit(bytes[i] as int / 16));
    assert(x[2 * i + 1] == hex_digit(bytes[i] as int % 16));
}

/// The view of a reply that names no more than its success.
pub open spec fn unit_view(r: Result<(), AppError>) -> Result<(), ErrorView> {
    match r {
        Ok(_) => Ok(()),
        Err(e) => Err(e@),
    }
}

/// A reply is read as the JSON that its text holds.
pub proof fn lemma_reply_calls(
    client: &QwenClient,
    status: u16,
    text: &str,
    body: &[u8],
    signin: Result<String, AppError>,
    chat: Result<String, AppError>,
    good: bool,
    models: Vec<Json>,
    stream: Result<(), AppError>,
)
    requires
        call_ensures(QwenClient::signin_reply, (client, status, text), signin),
        call_ensures(QwenClient::chat_reply, (client, status, text), chat),
        call_ensures(QwenClient::verify_reply, (client, status, text), good),
        call_ensures(QwenClient::models_reply, (client, status, body), models),
        call_ensures(QwenClient::stream_reply, (client, status, text), stream),
    ensures
        reply_view(signin) == signin_verdict(status, text@, json_of_text(text@)),
        reply_view(chat) == chat_verdict(status, text@, lowercase(text@), json_of_text(text@)),
        good == verify_verdict(status, json_of_text(text@), lowercase(text@)),
        json_views(models@) == models_verdict(status, json_of_bytes(body@)),
        unit_view(stream) == stream_verdict(status, text@),
{
}

/// After an attempt to delete a chat the next step is the one that its number calls for.
pub proof fn lemma_delete_chat_reliable_call(
    client: &QwenClient,
    attempts: u32,
    delay_ms: u64,
    attempt: u32,
    gone: bool,
    r: DeleteStep,
)
    requires
        call_ensures(
            QwenClient::delete_chat_reliable,
            (client, attempts, delay_ms, attempt, gone),
            r,
        ),
        attempt >= 1,
    ensures
        gone ==> r == DeleteStep::Done,
        !gone && attempt < attempts ==> r == (DeleteStep::Retry {
            sleep_ms: (delay_ms * attempt) as u128,
        }),
        !gone && attempt >= attempts ==> r == DeleteStep::GaveUp,
{
}

/// A proxy that is set is the one that is used, without the white space around it; one that a
/// client is made with is used as it is.
pub proof fn lemma_proxy_calls(
    client: &mut QwenClient,
    proxy: Option<String>,
    made: QwenClient,
    told: Option<String>,
)
    requires
        call_ensures(QwenClient::set_proxy, (client, proxy), ()),
        call_ensures(QwenClient::new, (proxy,), made),
        call_ensures(QwenClient::proxy, (&made,), told),
    ensures
        opt_view(final(client).proxy) == clean_proxy(opt_view(proxy)),
        opt_view(made.proxy) == opt_view(proxy),
        opt_view(told) == opt_view(proxy),
{
}

/// Where the upstream cannot be reached, it is to blame, and what was tried is told.
pub proof fn lemma_connection_error(what: &str, error: &str, r: AppError, m: &str)
    requires
        call_ensures(connection_error, (what, error), r),
        call_ensures(AppError::message, (&r,), m),
    ensures
        r is Upstream,
        m@ == what@ + " 連線失敗: "@ + error@,
{
}

/// The digest of a password is that of its bytes, in sixty-four digits.
pub proof fn lemma_password_digest(password: &str, r: String)
    requires
        call_ensures(sha256_hex, (password,), r),
    ensures
        r@ == hex_of(sha256(encode_utf8(password@))),
        r@.len() == 64,
{
}

} // verus!
