//! The Dify console API as the tool speaks it: what goes into each request,
//! and what is read from each answer. Sending the requests is left to the
//! caller.

use base64::Engine;
use vstd::prelude::*;

use crate::json::{
    as_str, entries_view, items_view, get_field, is_str_equal, json_as_str, json_get, json_str_field,
    lemma_array_view, lemma_object_view, find_key, object_of, str_field, Json, JsonValue,
};
use crate::text::{
    append_chars, chars_eq, chars_join, chars_of, chars_split, chars_trim, chars_trim_end_char,
    decimal, join, opt_view, owned, push_decimal, split_char, str_eq, string_of, trim,
    trim_end_char, views, lemma_split_nonempty, string_views,
};

verus! {

// ---------------------------------------------------------------------------
// Answers
// ---------------------------------------------------------------------------

/// An application as the console lists it.
pub struct AppInfo {
    pub id: String,
    pub name: String,
    pub mode: String,
    pub tags: Option<JsonValue>,
}

/// The console's answer to an import.
pub struct ImportResult {
    pub name: Option<String>,
    pub app_id: Option<String>,
    pub id: Option<String>,
    pub mode: Option<String>,
}

// ---------------------------------------------------------------------------
// The client's state
// ---------------------------------------------------------------------------

/// A client of one console: its base URL, and the login cookies and CSRF
/// token once there are any.
pub struct DifyClient {
    base_url: String,
    cookies: Option<String>,
    csrf_token: Option<String>,
}

impl DifyClient {
    /// The base URL requests go to.
    pub closed spec fn spec_base_url(&self) -> Seq<char> {
        self.base_url@
    }

    /// The session's cookies and CSRF token, where the client has both.
    pub closed spec fn spec_session(&self) -> Option<(Seq<char>, Seq<char>)> {
        match (self.cookies, self.csrf_token) {
            (Some(c), Some(t)) => Some((c@, t@)),
            _ => None,
        }
    }

    /// The cookies, where the client has them.
    pub closed spec fn spec_cookies(&self) -> Option<Seq<char>> {
        opt_view(self.cookies)
    }

    /// The CSRF token, where the client has it.
    pub closed spec fn spec_csrf_token(&self) -> Option<Seq<char>> {
        opt_view(self.csrf_token)
    }

    /// A client without a session; the base URL loses its trailing `/`s.
    pub fn new(base_url: &str) -> (res: Self)
        ensures
            res.spec_base_url() == trim_end_char(base_url@, '/'),
            res.spec_cookies() is None,
            res.spec_csrf_token() is None,
            res.spec_session() is None,
    {
        let b = chars_of(base_url);
        DifyClient { base_url: string_of(&chars_trim_end_char(&b, '/')), cookies: None, csrf_token: None }
    }

    /// A client that carries an existing session.
    pub fn with_session(base_url: &str, cookies: &str, csrf_token: &str) -> (res: Self)
        ensures
            res.spec_base_url() == trim_end_char(base_url@, '/'),
            res.spec_cookies() == Some(cookies@),
            res.spec_csrf_token() == Some(csrf_token@),
            res.spec_session() == Some((cookies@, csrf_token@)),
    {
        let mut client = Self::new(base_url);
        client.cookies = Some(owned(cookies));
        client.csrf_token = Some(owned(csrf_token));
        client
    }

    /// The session's cookies and CSRF token, where the client has both.
    pub fn get_session(&self) -> (res: Option<(String, String)>)
        ensures
            match res {
                Some(p) => self.spec_session() == Some((p.0@, p.1@)),
                None => self.spec_session() is None,
            },
    {
        match (&self.cookies, &self.csrf_token) {
            (Some(c), Some(t)) => Some((c.clone(), t.clone())),
            _ => None,
        }
    }

    /// Whether the client has a session to check at all.
    pub fn has_session(&self) -> (res: bool)
        ensures
            res == (self.spec_cookies() is Some && self.spec_csrf_token() is Some),
    {
        self.cookies.is_some() && self.csrf_token.is_some()
    }

    /// The base URL.
    pub fn base_url(&self) -> (res: &str)
        ensures
            res@ == self.spec_base_url(),
    {
        self.base_url.as_str()
    }

    /// The full URL of an API path.
    pub fn url_for(&self, path: &str) -> (res: String)
        ensures
            res@ == self.spec_base_url() + path@,
    {
        let mut u = chars_of(self.base_url.as_str());
        append_chars(&mut u, &chars_of(path));
        string_of(&u)
    }

    /// The headers that carry the session: `cookie` with the cookies and
    /// `x-csrf-token` with the token, each where the client has it.
    pub fn session_headers(&self) -> (res: Vec<(String, String)>)
        ensures
            res@.len() == (if self.spec_cookies() is Some { 1int } else { 0 }) + (if self.spec_csrf_token() is Some { 1int } else { 0 }),
            self.spec_cookies() is Some ==> res@[0].0@ == "cookie"@ && Some(res@[0].1@) == self.spec_cookies(),
            self.spec_csrf_token() is Some ==> res@[res@.len() - 1].0@ == "x-csrf-token"@ && Some(res@[res@.len() - 1].1@)
                == self.spec_csrf_token(),
    {
        let mut h: Vec<(String, String)> = Vec::new();
        if let Some(c) = &self.cookies {
            h.push((owned("cookie"), c.clone()));
        }
        if let Some(t) = &self.csrf_token {
            h.push((owned("x-csrf-token"), t.clone()));
        }
        h
    }

    /// Takes the session from the `Set-Cookie` headers of a successful login
    /// (see [`login_cookies`]); the client keeps it where the CSRF token is
    /// among them, and is left as it was otherwise.
    pub fn apply_login(&mut self, set_cookie: &Vec<String>) -> (res: Result<(String, String), String>)
        ensures
            match res {
                Ok(p) => login_cookies(string_views(set_cookie@)) == Ok::<(Seq<char>, Seq<char>), Seq<char>>((p.0@, p.1@))
                    && final(self).spec_session() == Some((p.0@, p.1@))
                    && final(self).spec_base_url() == old(self).spec_base_url(),
                Err(e) => login_cookies(string_views(set_cookie@)) == Err::<(Seq<char>, Seq<char>), Seq<char>>(e@)
                    && *final(self) == *old(self),
            },
    {
        match parse_login_cookies(set_cookie) {
            Ok(p) => {
                self.cookies = Some(p.0.clone());
                self.csrf_token = Some(p.1.clone());
                Ok(p)
            },
            Err(e) => Err(e),
        }
    }
}

// ---------------------------------------------------------------------------
// Login
// ---------------------------------------------------------------------------

/// The cookie that a `Set-Cookie` header sets: the text before its first `;`.
pub open spec fn cookie_pair(header: Seq<char>) -> Seq<char> {
    split_char(header, ';')[0]
}

/// The CSRF token that a cookie pair carries: the value of a pair
/// `name=value` (one `=` exactly) whose trimmed name is `csrf_token` or
/// `__Host-csrf_token`, trimmed.
pub open spec fn csrf_in(pair: Seq<char>) -> Option<Seq<char>> {
    let kv = split_char(pair, '=');
    if kv.len() == 2 && (trim(kv[0]) == "csrf_token"@ || trim(kv[0]) == "__Host-csrf_token"@) {
        Some(trim(kv[1]))
    } else {
        None
    }
}

/// The CSRF token set by the last header that sets one.
pub open spec fn csrf_token_of(headers: Seq<Seq<char>>) -> Option<Seq<char>>
    decreases headers.len(),
{
    if headers.len() == 0 {
        None
    } else {
        match csrf_in(cookie_pair(headers.last())) {
            Some(t) => Some(t),
            None => csrf_token_of(headers.drop_last()),
        }
    }
}

/// The cookies of a login's `Set-Cookie` headers joined with `; ` and its CSRF
/// token, or the error that no CSRF token was set.
pub open spec fn login_cookies(headers: Seq<Seq<char>>) -> Result<(Seq<char>, Seq<char>), Seq<char>> {
    match csrf_token_of(headers) {
        Some(t) => Ok((join(headers.map_values(|h: Seq<char>| cookie_pair(h)), "; "@), t)),
        None => Err("Could not find 'csrf_token' or '__Host-csrf_token' in Set-Cookie headers"@),
    }
}

/// Reads the session from the `Set-Cookie` headers of a login.
pub fn parse_login_cookies(set_cookie: &Vec<String>) -> (res: Result<(String, String), String>)
    ensures
        match res {
            Ok(p) => login_cookies(string_views(set_cookie@)) == Ok::<(Seq<char>, Seq<char>), Seq<char>>((p.0@, p.1@)),
            Err(e) => login_cookies(string_views(set_cookie@)) == Err::<(Seq<char>, Seq<char>), Seq<char>>(e@),
        },
{
    let ghost hs = string_views(set_cookie@);
    let mut pairs: Vec<Vec<char>> = Vec::new();
    let mut csrf: Option<Vec<char>> = None;
    let name1 = chars_of("csrf_token");
    let name2 = chars_of("__Host-csrf_token");
    let mut i: usize = 0;
    while i < set_cookie.len()
        invariant
            i <= set_cookie.len(),
            hs == string_views(set_cookie@),
            name1@ == "csrf_token"@,
            name2@ == "__Host-csrf_token"@,
            views(pairs@) == hs.take(i as int).map_values(|h: Seq<char>| cookie_pair(h)),
            pairs.len() == i,
            match csrf {
                Some(t) => csrf_token_of(hs.take(i as int)) == Some(t@),
                None => csrf_token_of(hs.take(i as int)) is None,
            },
        decreases set_cookie.len() - i,
    {
        let h = chars_of(set_cookie[i].as_str());
        assert(hs[i as int] == h@);
        let parts = chars_split(&h, ';');
        proof {
            lemma_split_nonempty(h@, ';');
        }
        assert(views(parts@)[0] == parts@[0]@);
        let pair = slice_all(&parts[0]);
        let kv = chars_split(&pair, '=');
        if kv.len() == 2 {
            assert(views(kv@)[0] == kv@[0]@);
            assert(views(kv@)[1] == kv@[1]@);
            let k = chars_trim(&kv[0]);
            if chars_eq(&k, &name1) || chars_eq(&k, &name2) {
                csrf = Some(chars_trim(&kv[1]));
            }
        }
        assert(pair@ == cookie_pair(hs[i as int]));
        let ghost before = pairs@;
        pairs.push(pair);
        assert(hs.take(i + 1).drop_last() =~= hs.take(i as int));
        assert forall|j: int| 0 <= j < i + 1 implies views(pairs@)[j] == hs.take(i + 1).map_values(
            |h: Seq<char>| cookie_pair(h),
        )[j] by {
            if j < i {
                assert(pairs@[j] == before[j]);
                assert(views(before)[j] == before[j]@);
                assert(views(before)[j] == hs.take(i as int).map_values(|h: Seq<char>| cookie_pair(h))[j]);
            }
        }
        assert(views(pairs@) =~= hs.take(i + 1).map_values(|h: Seq<char>| cookie_pair(h)));
        i = i + 1;
    }
    assert(hs.take(set_cookie.len() as int) =~= hs);
    match csrf {
        Some(t) => {
            let sep = chars_of("; ");
            let cookies = chars_join(&pairs, &sep);
            Ok((string_of(&cookies), string_of(&t)))
        },
        None => Err(owned("Could not find 'csrf_token' or '__Host-csrf_token' in Set-Cookie headers")),
    }
}

fn slice_all(v: &Vec<char>) -> (res: Vec<char>)
    ensures
        res@ == v@,
{
    crate::text::slice_chars(v, 0, v.len())
}

/// A base64 digit of the standard alphabet.
pub open spec fn base64_digit(i: int) -> char {
    if i < 26 {
        (65 + i) as char
    } else if i < 52 {
        (97 + i - 26) as char
    } else if i < 62 {
        (48 + i - 52) as char
    } else if i == 62 {
        '+'
    } else {
        '/'
    }
}

/// Standard base64 with `=` padding: every three bytes become four digits.
pub open spec fn base64_encode(b: Seq<u8>) -> Seq<char>
    decreases b.len(),
{
    if b.len() == 0 {
        Seq::<char>::empty()
    } else if b.len() == 1 {
        seq![base64_digit(b[0] as int / 4), base64_digit((b[0] % 4) * 16), '=', '=']
    } else if b.len() == 2 {
        seq![
            base64_digit(b[0] as int / 4),
            base64_digit((b[0] % 4) * 16 + b[1] / 16),
            base64_digit((b[1] % 16) * 4),
            '=',
        ]
    } else {
        seq![
            base64_digit(b[0] as int / 4),
            base64_digit((b[0] % 4) * 16 + b[1] / 16),
            base64_digit((b[1] % 16) * 4 + b[2] / 64),
            base64_digit(b[2] as int % 64),
        ] + base64_encode(b.skip(3))
    }
}

/// The length of the padded base64 text of `n` bytes.
pub open spec fn base64_len(n: int) -> int {
    (n / 3) * 4 + if n % 3 > 0 {
        4int
    } else {
        0
    }
}

/// Encodes bytes with `base64`'s `BASE64_STANDARD` engine.
///
/// Trusted: the result is the padded standard base64 encoding of the bytes,
/// as the crate documents it; the encoder panics where the encoded length
/// overflows `usize`, which `requires` leaves out.
#[verifier::external_body]
fn base64_standard(bytes: &[u8]) -> (res: String)
    requires
        base64_len(bytes@.len() as int) <= usize::MAX,
    ensures
        res@ == base64_encode(bytes@),
{
    base64::prelude::BASE64_STANDARD.encode(bytes)
}

/// The body of a login request: the e-mail address and the password in
/// base64 of its UTF-8 bytes.
pub fn login_payload(email: &str, password: &str) -> (res: JsonValue)
    requires
        base64_len(vstd::utf8::encode_utf8(password@).len() as int) <= usize::MAX,
    ensures
        res@ == Json::Object(
            seq![
                ("email"@, Json::Str(email@)),
                ("password"@, Json::Str(base64_encode(vstd::utf8::encode_utf8(password@)))),
            ],
        ),
{
    let encoded = base64_standard(password.as_bytes());
    let mut es: Vec<(String, JsonValue)> = Vec::new();
    es.push((owned("email"), JsonValue::Str(owned(email))));
    es.push((owned("password"), JsonValue::Str(encoded)));
    let res = object_of(es);
    assert(entries_view(es@) =~= seq![
        ("email"@, Json::Str(email@)),
        ("password"@, Json::Str(base64_encode(vstd::utf8::encode_utf8(password@)))),
    ]);
    res
}

// ---------------------------------------------------------------------------
// Tags
// ---------------------------------------------------------------------------

/// The tag list of a tags answer: the answer itself where it is an array, or
/// its `data` array.
pub open spec fn tag_list(v: Json) -> Option<Seq<Json>> {
    match v {
        Json::Array(a) => Some(a),
        _ => match json_get(v, "data"@) {
            Some(Json::Array(a)) => Some(a),
            _ => None,
        },
    }
}

/// The id of a tag entry named `name`, where it has a string id.
pub open spec fn tag_id_if_named(t: Json, name: Seq<char>) -> Option<Seq<char>> {
    if json_str_field(t, "name"@) == Some(name) {
        json_str_field(t, "id"@)
    } else {
        None
    }
}

/// The id of the first tag named `name` that has one.
pub open spec fn first_tag_id(tags: Seq<Json>, name: Seq<char>) -> Option<Seq<char>>
    decreases tags.len(),
{
    if tags.len() == 0 {
        None
    } else {
        match first_tag_id(tags.drop_last(), name) {
            Some(id) => Some(id),
            None => tag_id_if_named(tags.last(), name),
        }
    }
}

/// The id of the tag named `tag_name` in a tags answer.
pub open spec fn tag_id_in(v: Json, tag_name: Seq<char>) -> Option<Seq<char>> {
    match tag_list(v) {
        Some(tags) => first_tag_id(tags, tag_name),
        None => None,
    }
}

/// Finds the id of the tag named `tag_name` in the console's tags answer.
pub fn find_tag_id(answer: &JsonValue, tag_name: &str) -> (res: Option<String>)
    ensures
        opt_view(res) == tag_id_in(answer@, tag_name@),
{
    let tags: &Vec<JsonValue> = match answer {
        JsonValue::Array(a) => {
            proof {
                lemma_array_view(*a);
            }
            a
        },
        _ => match get_field(answer, "data") {
            Some(JsonValue::Array(a)) => {
                proof {
                    lemma_array_view(*a);
                }
                a
            },
            _ => {
                return None;
            },
        },
    };
    let ghost tv = items_view(tags@);
    assert(tag_list(answer@) == Some(tv));
    let mut i: usize = 0;
    while i < tags.len()
        invariant
            i <= tags.len(),
            tv == items_view(tags@),
            tag_list(answer@) == Some(tv),
            first_tag_id(tv.take(i as int), tag_name@) is None,
        decreases tags.len() - i,
    {
        assert(tv.take(i + 1).drop_last() =~= tv.take(i as int));
        let t = &tags[i];
        let named = match str_field(t, "name") {
            Some(n) => str_eq(n, tag_name),
            None => false,
        };
        if named {
            if let Some(id) = str_field(t, "id") {
                assert(tv[i as int] == t@);
                assert(tag_id_if_named(tv[i as int], tag_name@) == Some(id@));
                assert(first_tag_id(tv.take(i + 1), tag_name@) == Some(id@));
                proof {
                    lemma_first_tag_id_prefix(tv, i as int + 1, tag_name@);
                }
                return Some(owned(id));
            }
        }
        i = i + 1;
    }
    assert(tv.take(tags.len() as int) =~= tv);
    None
}

/// A tag found in a prefix is the first one found in the whole list.
proof fn lemma_first_tag_id_prefix(tags: Seq<Json>, n: int, name: Seq<char>)
    requires
        0 <= n <= tags.len(),
        first_tag_id(tags.take(n), name) is Some,
    ensures
        first_tag_id(tags, name) == first_tag_id(tags.take(n), name),
    decreases tags.len() - n,
{
    if n < tags.len() {
        assert(tags.take(n + 1).drop_last() =~= tags.take(n));
        lemma_first_tag_id_prefix(tags, n + 1, name);
    } else {
        assert(tags.take(n) =~= tags);
    }
}

/// Whether one entry of an application's tags matches: by its `name`, or,
/// where it has no string name, by being the string itself; or by its `id`
/// equal to the tag's id where that is known.
pub open spec fn tag_entry_matches(t: Json, name: Seq<char>, tag_id: Option<Seq<char>>) -> bool {
    (match json_str_field(t, "name"@) {
        Some(n) => n == name,
        None => json_as_str(t) == Some(name),
    }) || (match (json_str_field(t, "id"@), tag_id) {
        (Some(id), Some(tid)) => id == tid,
        _ => false,
    })
}

/// Whether some entry of a tag array matches.
pub open spec fn some_tag_matches(a: Seq<Json>, name: Seq<char>, tag_id: Option<Seq<char>>) -> bool {
    exists|i: int| 0 <= i < a.len() && #[trigger] tag_entry_matches(a[i], name, tag_id)
}

/// Whether an application's tags (an array) have an entry that matches.
pub open spec fn app_tagged(tags: Option<Json>, name: Seq<char>, tag_id: Option<Seq<char>>) -> bool {
    match tags {
        Some(Json::Array(a)) => some_tag_matches(a, name, tag_id),
        _ => false,
    }
}

/// An application is kept for a tag exactly where some entry of its tag array
/// matches, wherever in the array that entry stands: an entry whose `name` is
/// the tag, an entry that is the tag's name itself (where it has no string
/// `name`), or an entry whose `id` is the tag's id where that is known. Tags
/// that are not an array match nothing.
pub proof fn law_app_tagged_by_any_entry(
    a: Seq<Json>,
    name: Seq<char>,
    tag_id: Option<Seq<char>>,
    i: int,
)
    ensures
        app_tagged(Some(Json::Array(a)), name, tag_id) <==> exists|j: int|
            0 <= j < a.len() && #[trigger] tag_entry_matches(a[j], name, tag_id),
        0 <= i < a.len() && json_str_field(a[i], "name"@) == Some(name) ==> app_tagged(
            Some(Json::Array(a)),
            name,
            tag_id,
        ),
        0 <= i < a.len() && json_str_field(a[i], "name"@) is None && json_as_str(a[i]) == Some(name)
            ==> app_tagged(Some(Json::Array(a)), name, tag_id),
        0 <= i < a.len() && tag_id is Some && json_str_field(a[i], "id"@) == tag_id ==> app_tagged(
            Some(Json::Array(a)),
            name,
            tag_id,
        ),
        (exists|j: int| 0 <= j < a.len() && #[trigger] tag_entry_matches(a[j], name, tag_id)) ==> exists|j: int|
            0 <= j < a.len() && (json_str_field(a[j], "name"@) == Some(name) || (json_str_field(
                a[j],
                "name"@,
            ) is None && json_as_str(a[j]) == Some(name)) || (tag_id is Some && json_str_field(
                a[j],
                "id"@,
            ) == tag_id)),
        forall|t: Json| !(t is Array) ==> !app_tagged(Some(t), name, tag_id),
        !app_tagged(None, name, tag_id),
{
    if 0 <= i < a.len() {
        if json_str_field(a[i], "name"@) == Some(name) || (json_str_field(a[i], "name"@) is None
            && json_as_str(a[i]) == Some(name)) || (tag_id is Some && json_str_field(a[i], "id"@)
            == tag_id) {
            assert(tag_entry_matches(a[i], name, tag_id));
        }
    }
    if exists|j: int| 0 <= j < a.len() && #[trigger] tag_entry_matches(a[j], name, tag_id) {
        let j = choose|j: int| 0 <= j < a.len() && #[trigger] tag_entry_matches(a[j], name, tag_id);
        assert(json_str_field(a[j], "name"@) == Some(name) || (json_str_field(a[j], "name"@) is None
            && json_as_str(a[j]) == Some(name)) || (tag_id is Some && json_str_field(a[j], "id"@)
            == tag_id));
    }
}

/// The view of an optional value.
pub open spec fn opt_json(o: Option<JsonValue>) -> Option<Json> {
    match o {
        Some(v) => Some(v@),
        None => None,
    }
}

fn entry_matches(t: &JsonValue, name: &str, tag_id: &Option<String>) -> (res: bool)
    ensures
        res == tag_entry_matches(t@, name@, opt_view(*tag_id)),
{
    let by_name = match str_field(t, "name") {
        Some(n) => str_eq(n, name),
        None => is_str_equal(t, name),
    };
    if by_name {
        return true;
    }
    match (str_field(t, "id"), tag_id) {
        (Some(id), Some(tid)) => str_eq(id, tid.as_str()),
        _ => false,
    }
}

/// Whether an application carries the tag, by name or by id.
pub fn app_has_tag(app: &AppInfo, tag_name: &str, tag_id: &Option<String>) -> (res: bool)
    ensures
        res == app_tagged(opt_json(app.tags), tag_name@, opt_view(*tag_id)),
{
    match &app.tags {
        Some(JsonValue::Array(a)) => {
            proof {
                lemma_array_view(*a);
            }
            let ghost av = items_view(a@);
            assert(opt_json(app.tags) == Some(Json::Array(av)));
            let mut i: usize = 0;
            while i < a.len()
                invariant
                    i <= a.len(),
                    av == items_view(a@),
                    opt_json(app.tags) == Some(Json::Array(av)),
                    forall|j: int| 0 <= j < i ==> !tag_entry_matches(#[trigger] av[j], tag_name@, opt_view(*tag_id)),
                decreases a.len() - i,
            {
                if entry_matches(&a[i], tag_name, tag_id) {
                    assert(av[i as int] == a@[i as int]@);
                    assert(tag_entry_matches(av[i as int], tag_name@, opt_view(*tag_id)));
                    assert(some_tag_matches(av, tag_name@, opt_view(*tag_id)));
                    assert(app_tagged(Some(Json::Array(av)), tag_name@, opt_view(*tag_id)));
                    return true;
                }
                i = i + 1;
            }
            false
        },
        _ => false,
    }
}

// ---------------------------------------------------------------------------
// Listing applications, page by page
// ---------------------------------------------------------------------------

/// The number of applications the console is asked for per page.
pub const PAGE_LIMIT: usize = 50;

/// Whether a listed application is kept: its mode is one of `modes`, and,
/// where a tag is asked for, it carries the tag.
pub open spec fn app_selected(
    app: AppInfo,
    modes: Seq<Seq<char>>,
    tag_name: Option<Seq<char>>,
    tag_id: Option<Seq<char>>,
) -> bool {
    &&& modes.contains(app.mode@)
    &&& match tag_name {
        Some(n) => app_tagged(opt_json(app.tags), n, tag_id),
        None => true,
    }
}

/// The applications of a page that are kept, in order.
pub open spec fn selected_apps(
    apps: Seq<AppInfo>,
    modes: Seq<Seq<char>>,
    tag_name: Option<Seq<char>>,
    tag_id: Option<Seq<char>>,
) -> Seq<AppInfo>
    decreases apps.len(),
{
    if apps.len() == 0 {
        Seq::<AppInfo>::empty()
    } else {
        let prev = selected_apps(apps.drop_last(), modes, tag_name, tag_id);
        if app_selected(apps.last(), modes, tag_name, tag_id) {
            prev.push(apps.last())
        } else {
            prev
        }
    }
}

/// Every application that is kept is selected.
pub proof fn lemma_selected_apps_selected(
    apps: Seq<AppInfo>,
    modes: Seq<Seq<char>>,
    tag_name: Option<Seq<char>>,
    tag_id: Option<Seq<char>>,
)
    ensures
        forall|i: int|
            0 <= i < selected_apps(apps, modes, tag_name, tag_id).len() ==> #[trigger] app_selected(
                selected_apps(apps, modes, tag_name, tag_id)[i],
                modes,
                tag_name,
                tag_id,
            ),
    decreases apps.len(),
{
    if apps.len() > 0 {
        lemma_selected_apps_selected(apps.drop_last(), modes, tag_name, tag_id);
        let prev = selected_apps(apps.drop_last(), modes, tag_name, tag_id);
        let cur = selected_apps(apps, modes, tag_name, tag_id);
        assert forall|i: int| 0 <= i < cur.len() implies #[trigger] app_selected(
            cur[i],
            modes,
            tag_name,
            tag_id,
        ) by {
            if i < prev.len() {
                assert(cur[i] == prev[i]);
            }
        }
    }
}

/// The state of a listing: which applications are asked for, the page to
/// fetch next, and the applications kept so far.
pub struct AppListing {
    modes: Vec<String>,
    tag_name: Option<String>,
    tag_id: Option<String>,
    page: u64,
    apps: Vec<AppInfo>,
}

impl AppListing {
    /// The modes asked for.
    pub closed spec fn spec_modes(&self) -> Seq<Seq<char>> {
        string_views(self.modes@)
    }

    /// The tag asked for.
    pub closed spec fn spec_tag_name(&self) -> Option<Seq<char>> {
        opt_view(self.tag_name)
    }

    /// The tag's id, where the console gave it.
    pub closed spec fn spec_tag_id(&self) -> Option<Seq<char>> {
        opt_view(self.tag_id)
    }

    /// The page to fetch next.
    pub closed spec fn spec_page(&self) -> u64 {
        self.page
    }

    /// The applications kept so far.
    pub closed spec fn spec_apps(&self) -> Seq<AppInfo> {
        self.apps@
    }

    /// Every application kept so far is selected.
    pub open spec fn inv(&self) -> bool {
        forall|i: int|
            0 <= i < self.spec_apps().len() ==> #[trigger] app_selected(
                self.spec_apps()[i],
                self.spec_modes(),
                self.spec_tag_name(),
                self.spec_tag_id(),
            )
    }

    /// A listing that starts at page 1 with nothing kept.
    pub fn new(modes: Vec<String>, tag_name: Option<String>, tag_id: Option<String>) -> (res: Self)
        ensures
            res.spec_modes() == string_views(modes@),
            res.spec_tag_name() == opt_view(tag_name),
            res.spec_tag_id() == opt_view(tag_id),
            res.spec_page() == 1,
            res.spec_apps().len() == 0,
            res.inv(),
    {
        AppListing { modes, tag_name, tag_id, page: 1, apps: Vec::new() }
    }

    /// The page to fetch next.
    pub fn page(&self) -> (res: u64)
        ensures
            res == self.spec_page(),
    {
        self.page
    }

    /// The query of the next page: `page`, `limit` and an empty `query`, and
    /// `tag_ids[0]` with the tag's id where the server filters by tag.
    pub fn page_query(&self, filter_by_tag: bool) -> (res: Vec<(String, String)>)
        ensures
            res@.len() >= 3,
            res@[0].0@ == "page"@ && res@[0].1@ == decimal(self.spec_page() as nat),
            res@[1].0@ == "limit"@ && res@[1].1@ == "50"@,
            res@[2].0@ == "query"@ && res@[2].1@ == Seq::<char>::empty(),
            res@.len() == if filter_by_tag && self.spec_tag_id() is Some { 4int } else { 3 },
            res@.len() == 4 ==> res@[3].0@ == "tag_ids[0]"@ && Some(res@[3].1@) == self.spec_tag_id(),
    {
        let mut q: Vec<(String, String)> = Vec::new();
        let mut p: Vec<char> = Vec::new();
        push_decimal(&mut p, self.page);
        assert(p@ =~= decimal(self.page as nat));
        q.push((owned("page"), string_of(&p)));
        q.push((owned("limit"), owned("50")));
        q.push((owned("query"), String::new()));
        if filter_by_tag {
            if let Some(tid) = &self.tag_id {
                q.push((owned("tag_ids[0]"), tid.clone()));
            }
        }
        q
    }

    /// Whether a page that the server refused with `400 Bad Request` is asked
    /// for again without the tag filter: only where the filter was sent.
    pub fn retry_without_tag_filter(&self, bad_request: bool) -> (res: bool)
        ensures
            res == (bad_request && self.spec_tag_id() is Some),
    {
        bad_request && self.tag_id.is_some()
    }

    fn mode_requested(&self, mode: &str) -> (res: bool)
        ensures
            res == self.spec_modes().contains(mode@),
    {
        let mut i: usize = 0;
        while i < self.modes.len()
            invariant
                i <= self.modes.len(),
                forall|j: int| 0 <= j < i ==> self.spec_modes()[j] != mode@,
            decreases self.modes.len() - i,
        {
            if str_eq(self.modes[i].as_str(), mode) {
                assert(self.spec_modes()[i as int] == mode@);
                return true;
            }
            i = i + 1;
        }
        false
    }

    fn selected(&self, app: &AppInfo) -> (res: bool)
        ensures
            res == app_selected(*app, self.spec_modes(), self.spec_tag_name(), self.spec_tag_id()),
    {
        if !self.mode_requested(app.mode.as_str()) {
            return false;
        }
        match &self.tag_name {
            Some(n) => app_has_tag(app, n.as_str(), &self.tag_id),
            None => true,
        }
    }

    /// Takes in one page of the listing: keeps its selected applications, and
    /// says whether the next page is to be fetched. An empty page ends the
    /// listing; so does a page without `has_more`, a page shorter than
    /// [`PAGE_LIMIT`], and the last page number there is.
    pub fn accept_page(&mut self, page_apps: Vec<AppInfo>, has_more: bool) -> (more: bool)
        requires
            old(self).inv(),
        ensures
            final(self).inv(),
            final(self).spec_modes() == old(self).spec_modes(),
            final(self).spec_tag_name() == old(self).spec_tag_name(),
            final(self).spec_tag_id() == old(self).spec_tag_id(),
            final(self).spec_apps() == old(self).spec_apps() + selected_apps(
                page_apps@,
                old(self).spec_modes(),
                old(self).spec_tag_name(),
                old(self).spec_tag_id(),
            ),
            more == (page_apps@.len() > 0 && has_more && page_apps@.len() >= PAGE_LIMIT
                && old(self).spec_page() < u64::MAX),
            final(self).spec_page() == if more {
                old(self).spec_page() + 1
            } else {
                old(self).spec_page() as int
            },
    {
        let ghost modes = self.spec_modes();
        let ghost tn = self.spec_tag_name();
        let ghost ti = self.spec_tag_id();
        let ghost start = self.apps@;
        let raw_len = page_apps.len();
        let ghost orig = page_apps@;
        let mut rest = page_apps;
        let mut k: usize = 0;
        assert(orig.take(0) =~= Seq::<AppInfo>::empty());
        assert(orig.skip(0) =~= orig);
        assert(start + Seq::<AppInfo>::empty() =~= start);
        while k < raw_len
            invariant
                raw_len == orig.len(),
                k <= raw_len,
                rest@ == orig.skip(k as int),
                modes == self.spec_modes(),
                tn == self.spec_tag_name(),
                ti == self.spec_tag_id(),
                self.page == old(self).page,
                self.apps@ == start + selected_apps(orig.take(k as int), modes, tn, ti),
            decreases raw_len - k,
        {
            let app = rest.remove(0);
            assert(app == orig[k as int]);
            assert(orig.skip(k as int).remove(0) =~= orig.skip(k + 1));
            assert(orig.take(k + 1).drop_last() =~= orig.take(k as int));
            let keep = self.selected(&app);
            if keep {
                self.apps.push(app);
                assert(self.apps@ =~= start + selected_apps(orig.take(k + 1), modes, tn, ti));
            }
            k = k + 1;
        }
        assert(orig.take(raw_len as int) =~= orig);
        let more = raw_len > 0 && has_more && raw_len >= PAGE_LIMIT && self.page < u64::MAX;
        if more {
            self.page = self.page + 1;
        }
        proof {
            lemma_selected_apps_selected(orig, modes, tn, ti);
            assert forall|i: int| 0 <= i < self.spec_apps().len() implies #[trigger] app_selected(
                self.spec_apps()[i],
                self.spec_modes(),
                self.spec_tag_name(),
                self.spec_tag_id(),
            ) by {
                if i < start.len() {
                    assert(self.spec_apps()[i] == start[i]);
                    assert(old(self).spec_apps()[i] == start[i]);
                    assert(app_selected(old(self).spec_apps()[i], old(self).spec_modes(), old(self).spec_tag_name(), old(self).spec_tag_id()));
                } else {
                    assert(self.spec_apps()[i] == selected_apps(orig, modes, tn, ti)[i - start.len()]);
                }
            }
        }
        more
    }

    /// The number of applications kept so far.
    pub fn kept_count(&self) -> (res: usize)
        ensures
            res == self.spec_apps().len(),
    {
        self.apps.len()
    }

    /// The applications kept.
    pub fn into_apps(self) -> (res: Vec<AppInfo>)
        ensures
            res@ == self.spec_apps(),
    {
        self.apps
    }
}

// ---------------------------------------------------------------------------
// Export and import requests
// ---------------------------------------------------------------------------

/// The API path of an application's DSL export.
pub fn export_dsl_path(app_id: &str) -> (res: String)
    ensures
        res@ == "/console/api/apps/"@ + app_id@ + "/export"@,
{
    let mut p = chars_of("/console/api/apps/");
    append_chars(&mut p, &chars_of(app_id));
    append_chars(&mut p, &chars_of("/export"));
    string_of(&p)
}

/// The query of an export: `include_secret` with `true` or `false`.
pub fn export_dsl_query(include_secret: bool) -> (res: Vec<(String, String)>)
    ensures
        res@.len() == 1,
        res@[0].0@ == "include_secret"@,
        res@[0].1@ == if include_secret { "true"@ } else { "false"@ },
{
    let mut q: Vec<(String, String)> = Vec::new();
    let v = if include_secret {
        owned("true")
    } else {
        owned("false")
    };
    q.push((owned("include_secret"), v));
    q
}

/// The DSL text of an export answer: its `data` string.
pub open spec fn export_content(v: Json) -> Result<Seq<char>, Seq<char>> {
    match json_str_field(v, "data"@) {
        Some(d) => Ok(d),
        None => Err("Missing 'data' field in export response"@),
    }
}

/// Reads the DSL text from the console's export answer.
pub fn extract_dsl_content(answer: &JsonValue) -> (res: Result<String, String>)
    ensures
        match res {
            Ok(d) => export_content(answer@) == Ok::<Seq<char>, Seq<char>>(d@),
            Err(e) => export_content(answer@) == Err::<Seq<char>, Seq<char>>(e@),
        },
{
    match str_field(answer, "data") {
        Some(d) => Ok(owned(d)),
        None => Err(owned("Missing 'data' field in export response")),
    }
}


/// The applications of a page of the listing answer (its `data` array) and
/// whether the console says there are more (its `has_more`, false where it
/// is not a boolean), or the error that the answer has no `data` array.
pub open spec fn apps_page(v: Json) -> Result<(Seq<Json>, bool), Seq<char>> {
    match json_get(v, "data"@) {
        Some(Json::Array(items)) => Ok(
            (
                items,
                match json_get(v, "has_more"@) {
                    Some(Json::Bool(b)) => b,
                    _ => false,
                },
            ),
        ),
        _ => Err("Missing 'data' field in apps response"@),
    }
}

/// A listing answer gives the items of its `data` array, and the next page is
/// asked for exactly where the answer's `has_more` is the boolean `true`: a
/// `has_more` that is `false`, missing or not a boolean means no more pages.
/// An answer without a `data` array is refused.
pub proof fn law_apps_page_reads_data_and_has_more(v: Json)
    ensures
        json_get(v, "data"@) matches Some(Json::Array(items)) ==> (apps_page(v) matches Ok(p)
            && p.0 == items && (p.1 <==> json_get(v, "has_more"@) == Some(Json::Bool(true)))),
        !(json_get(v, "data"@) matches Some(Json::Array(_))) ==> apps_page(v) is Err,
{
}

/// Takes the applications and the `has_more` flag out of a listing answer.
pub fn apps_page_entries(answer: JsonValue) -> (res: Result<(Vec<JsonValue>, bool), String>)
    ensures
        match res {
            Ok(p) => apps_page(answer@) == Ok::<(Seq<Json>, bool), Seq<char>>(
                (items_view(p.0@), p.1),
            ),
            Err(e) => apps_page(answer@) == Err::<(Seq<Json>, bool), Seq<char>>(e@),
        },
{
    let more = match get_field(&answer, "has_more") {
        Some(JsonValue::Bool(b)) => *b,
        _ => false,
    };
    let ghost av = answer@;
    match answer {
        JsonValue::Object(es) => {
            let mut es = es;
            proof {
                lemma_object_view(es);
            }
            let key = chars_of("data");
            match find_key(&es, &key) {
                Some(i) => {
                    let (_, d) = es.remove(i);
                    match d {
                        JsonValue::Array(items) => {
                            proof {
                                lemma_array_view(items);
                            }
                            Ok((items, more))
                        },
                        _ => Err(owned("Missing 'data' field in apps response")),
                    }
                },
                None => Err(owned("Missing 'data' field in apps response")),
            }
        },
        _ => Err(owned("Missing 'data' field in apps response")),
    }
}

/// The API path that publishes an application's workflow.
pub fn publish_workflow_path(app_id: &str) -> (res: String)
    ensures
        res@ == "/console/api/apps/"@ + app_id@ + "/workflows/publish"@,
{
    let mut p = chars_of("/console/api/apps/");
    append_chars(&mut p, &chars_of(app_id));
    append_chars(&mut p, &chars_of("/workflows/publish"));
    string_of(&p)
}

/// The body of an import: the DSL given as YAML content, and the application
/// to update where there is one.
pub open spec fn import_body(yaml: Seq<char>, target: Option<Seq<char>>) -> Json {
    let base = seq![("mode"@, Json::Str("yaml-content"@)), ("yaml_content"@, Json::Str(yaml))];
    match target {
        Some(id) => Json::Object(base.push(("app_id"@, Json::Str(id)))),
        None => Json::Object(base),
    }
}

/// The body of an import request.
pub fn import_payload(yaml_content: &str, target_app_id: Option<&str>) -> (res: JsonValue)
    ensures
        res@ == import_body(
            yaml_content@,
            match target_app_id {
                Some(t) => Some(t@),
                None => None,
            },
        ),
{
    let mut es: Vec<(String, JsonValue)> = Vec::new();
    es.push((owned("mode"), JsonValue::Str(owned("yaml-content"))));
    es.push((owned("yaml_content"), JsonValue::Str(owned(yaml_content))));
    if let Some(id) = target_app_id {
        es.push((owned("app_id"), JsonValue::Str(owned(id))));
    }
    let ghost ev = entries_view(es@);
    let res = object_of(es);
    proof {
        let t = match target_app_id {
            Some(t) => Some(t@),
            None => None,
        };
        assert(ev =~= import_body(yaml_content@, t)->Object_0);
    }
    res
}

/// The base URL of a client never ends with `/`, so that an API path (which
/// begins with `/`) is appended to it without a doubled slash.
pub proof fn law_base_url_no_trailing_slash(url: Seq<char>)
    ensures
        trim_end_char(url, '/').len() == 0 || trim_end_char(url, '/').last() != '/',
    decreases url.len(),
{
    if url.len() > 0 && url.last() == '/' {
        law_base_url_no_trailing_slash(url.drop_last());
    }
}

} // verus!
