//! Request routing and API-key authorization.

use vstd::prelude::*;

verus! {

/// Page served for the site root.
pub const INDEX_PAGE: &'static str = "/index.html";

/// Page served when an asset is missing.
pub const NOT_FOUND_PAGE: &'static str = "/404.html";

/// Where a request goes once it is authorized.
#[derive(Clone, Copy, Debug, PartialEq, Eq, Structural)]
pub enum Route {
    /// The health check, answered directly.
    Echo,
    /// The chat-completion and embedding API.
    Api,
    /// A static asset of the web UI.
    Static,
}

#[derive(Clone, Copy, Debug, PartialEq, Eq, Structural)]
pub enum AuthError {
    /// The bearer token does not match the configured API key.
    InvalidApiKey,
}

/// `p` without its leading run of `c`.
pub open spec fn drop_leading(p: Seq<char>, c: char) -> Seq<char>
    decreases p.len(),
{
    if p.len() > 0 && p[0] == c {
        drop_leading(p.drop_first(), c)
    } else {
        p
    }
}

/// The longest prefix of `p` without `c`.
pub open spec fn take_until(p: Seq<char>, c: char) -> Seq<char>
    decreases p.len(),
{
    if p.len() == 0 || p[0] == c {
        Seq::empty()
    } else {
        seq![p[0]] + take_until(p.drop_first(), c)
    }
}

/// What follows the first `c` in `p`; empty when `p` has no `c`.
pub open spec fn after_first(p: Seq<char>, c: char) -> Seq<char>
    decreases p.len(),
{
    if p.len() == 0 {
        Seq::empty()
    } else if p[0] == c {
        p.drop_first()
    } else {
        after_first(p.drop_first(), c)
    }
}

/// The first segment of a URL path: leading slashes skipped, up to the next
/// slash.
pub open spec fn first_segment(path: Seq<char>) -> Seq<char> {
    take_until(drop_leading(path, '/'), '/')
}

pub open spec fn route_of(path: Seq<char>) -> Route {
    if first_segment(path) == seq!['e', 'c', 'h', 'o'] {
        Route::Echo
    } else if first_segment(path) == seq!['v', '1'] {
        Route::Api
    } else {
        Route::Static
    }
}

/// The token of an `Authorization` header: its second space-separated field,
/// empty when there is none.
pub open spec fn bearer_token(header: Seq<char>) -> Seq<char> {
    take_until(after_first(header, ' '), ' ')
}

/// An empty or absent header, or no configured key, lets the request through;
/// otherwise the header's token must equal the key.
pub open spec fn authorized(header: Option<Seq<char>>, api_key: Option<Seq<char>>) -> bool {
    match header {
        None => true,
        Some(h) => match api_key {
            None => true,
            Some(k) => h.len() == 0 || bearer_token(h) == k,
        },
    }
}

pub open spec fn str_option_view(o: Option<&str>) -> Option<Seq<char>> {
    match o {
        Some(s) => Some(s@),
        None => None,
    }
}

/// The decision for one request: refused, or the route it takes.
pub open spec fn dispatch(path: Seq<char>, header: Option<Seq<char>>, api_key: Option<Seq<char>>) -> Result<
    Route,
    AuthError,
> {
    if authorized(header, api_key) {
        Ok(route_of(path))
    } else {
        Err(AuthError::InvalidApiKey)
    }
}

/// Index of the first character at or after `from` that is not `c` (or the
/// length).
fn skip_char(s: &str, from: usize, c: char) -> (r: usize)
    requires
        from <= s@.len(),
    ensures
        from <= r <= s@.len(),
        drop_leading(s@.subrange(from as int, s@.len() as int), c) == drop_leading(
            s@.subrange(r as int, s@.len() as int),
            c,
        ),
        r < s@.len() ==> s@[r as int] != c,
{
    let n = s.unicode_len();
    let mut a = from;
    while a < n && s.get_char(a) == c
        invariant
            from <= a <= n,
            n == s@.len(),
            drop_leading(s@.subrange(from as int, n as int), c) == drop_leading(
                s@.subrange(a as int, n as int),
                c,
            ),
        decreases n - a,
    {
        proof {
            assert(s@.subrange(a as int, n as int).drop_first() =~= s@.subrange(a + 1, n as int));
        }
        a += 1;
    }
    a
}

/// Index of the first `c` at or after `from` (or the length).
fn find_char(s: &str, from: usize, c: char) -> (r: usize)
    requires
        from <= s@.len(),
    ensures
        from <= r <= s@.len(),
        take_until(s@.subrange(from as int, s@.len() as int), c) == s@.subrange(from as int, r as int),
        r < s@.len() ==> s@[r as int] == c,
{
    let n = s.unicode_len();
    let mut b = from;
    while b < n && s.get_char(b) != c
        invariant
            from <= b <= n,
            n == s@.len(),
            take_until(s@.subrange(from as int, n as int), c) == s@.subrange(from as int, b as int)
                + take_until(s@.subrange(b as int, n as int), c),
        decreases n - b,
    {
        proof {
            let t = s@.subrange(b as int, n as int);
            assert(t.drop_first() =~= s@.subrange(b + 1, n as int));
            assert(s@.subrange(from as int, b as int) + seq![t[0]] =~= s@.subrange(
                from as int,
                b + 1,
            ));
            assert(s@.subrange(from as int, b as int) + (seq![t[0]] + take_until(t.drop_first(), c))
                =~= s@.subrange(from as int, b + 1) + take_until(t.drop_first(), c));
        }
        b += 1;
    }
    proof {
        if b < n {
            assert(s@.subrange(b as int, n as int)[0] == c);
        }
        assert(s@.subrange(from as int, b as int) + Seq::<char>::empty() =~= s@.subrange(
            from as int,
            b as int,
        ));
    }
    b
}

/// The first segment of a URL path.
pub fn path_segment(path: &str) -> (r: &str)
    ensures
        r@ == first_segment(path@),
{
    let a = skip_char(path, 0, '/');
    let b = find_char(path, a, '/');
    proof {
        assert(path@.subrange(0, path@.len() as int) =~= path@);
        let t = path@.subrange(a as int, path@.len() as int);
        if t.len() > 0 {
            assert(t[0] == path@[a as int]);
        }
        assert(drop_leading(t, '/') == t);
    }
    path.substring_char(a, b)
}

/// The second space-separated field of an `Authorization` header.
pub fn header_token(header: &str) -> (r: &str)
    ensures
        r@ == bearer_token(header@),
{
    let n = header.unicode_len();
    let mut i: usize = 0;
    proof {
        assert(header@.subrange(0, n as int) =~= header@);
    }
    while i < n && header.get_char(i) != ' '
        invariant
            i <= n,
            n == header@.len(),
            after_first(header@, ' ') == after_first(header@.subrange(i as int, n as int), ' '),
        decreases n - i,
    {
        proof {
            assert(header@.subrange(i as int, n as int).drop_first() =~= header@.subrange(
                i + 1,
                n as int,
            ));
        }
        i += 1;
    }
    if i == n {
        proof {
            assert(header@.subrange(i as int, n as int).len() == 0);
        }
        return header.substring_char(n, n);
    }
    proof {
        let t = header@.subrange(i as int, n as int);
        assert(t[0] == ' ');
        assert(t.drop_first() =~= header@.subrange(i + 1, n as int));
    }
    let end = find_char(header, i + 1, ' ');
    header.substring_char(i + 1, end)
}

fn segment_is(seg: &str, expected: &str) -> (r: bool)
    ensures
        r == (seg@ == expected@),
{
    let n = seg.unicode_len();
    if n != expected.unicode_len() {
        return false;
    }
    let mut i: usize = 0;
    while i < n
        invariant
            i <= n,
            n == seg@.len(),
            n == expected@.len(),
            forall|k: int| 0 <= k < i ==> seg@[k] == expected@[k],
        decreases n - i,
    {
        if seg.get_char(i) != expected.get_char(i) {
            return false;
        }
        i += 1;
    }
    proof {
        assert(seg@ =~= expected@);
    }
    true
}

/// Whether a request passes the API-key check.
pub fn check_api_key(header: Option<&str>, api_key: Option<&str>) -> (r: bool)
    ensures
        r == authorized(str_option_view(header), str_option_view(api_key)),
{
    match header {
        None => true,
        Some(h) => match api_key {
            None => true,
            Some(k) => {
                if h.unicode_len() == 0 {
                    true
                } else {
                    let token = header_token(h);
                    segment_is(token, k)
                }
            },
        },
    }
}

/// The route of a URL path, by its first segment.
pub fn route_path(path: &str) -> (r: Route)
    ensures
        r == route_of(path@),
{
    let seg = path_segment(path);
    proof {
        reveal_strlit("echo");
        reveal_strlit("v1");
        assert("echo"@ =~= seq!['e', 'c', 'h', 'o']);
        assert("v1"@ =~= seq!['v', '1']);
    }
    if segment_is(seg, "echo") {
        Route::Echo
    } else if segment_is(seg, "v1") {
        Route::Api
    } else {
        Route::Static
    }
}

/// Decides a request: the API-key check comes first, then routing.
pub fn route_request(path: &str, auth_header: Option<&str>, api_key: Option<&str>) -> (r: Result<
    Route,
    AuthError,
>)
    ensures
        r == dispatch(path@, str_option_view(auth_header), str_option_view(api_key)),
{
    if !check_api_key(auth_header, api_key) {
        return Err(AuthError::InvalidApiKey);
    }
    Ok(route_path(path))
}

/// The MIME type that mime_guess gives a path (by its extension; text/plain
/// when it knows none).
pub uninterp spec fn mime_type_of(path: Seq<char>) -> Seq<char>;

/// Relies on `mime_guess::from_path(..).first_or_text_plain()`, which looks the
/// path's extension up in a fixed table.
#[verifier::external_body]
fn guess_mime(path: &str) -> (r: String)
    ensures
        r@ == mime_type_of(path@),
{
    mime_guess::from_path(path).first_or_text_plain().to_string()
}

/// A static asset to serve: the file to read and its content type.
#[derive(Debug)]
pub struct StaticAsset {
    pub file: String,
    pub mime: String,
}

/// The asset path asked for: the site root stands for the index page.
pub open spec fn asset_path(path: Seq<char>) -> Seq<char> {
    if path == seq!['/'] {
        INDEX_PAGE@
    } else {
        path
    }
}

/// Where a static asset is read from under `root`, and its content type.
pub fn static_asset(path: &str, root: &str) -> (r: StaticAsset)
    ensures
        r.file@ == root@ + seq!['/'] + asset_path(path@),
        r.mime@ == mime_type_of(asset_path(path@)),
{
    proof {
        reveal_strlit("/");
        assert("/"@ =~= seq!['/']);
    }
    let target = if segment_is(path, "/") {
        INDEX_PAGE
    } else {
        path
    };
    let mime = guess_mime(target);
    let mut file = String::from_str(root);
    file.append("/");
    file.append(target);
    StaticAsset { file, mime }
}

/// The page read when an asset is missing.
pub fn not_found_file(root: &str) -> (r: String)
    ensures
        r@ == root@ + seq!['/'] + NOT_FOUND_PAGE@,
{
    proof {
        reveal_strlit("/");
        assert("/"@ =~= seq!['/']);
    }
    let mut file = String::from_str(root);
    file.append("/");
    file.append(NOT_FOUND_PAGE);
    file
}

} // verus!
