use vstd::prelude::*;
use vstd::string::StringSliceAdditionalSpecFns;
use crate::digest::{hex_digest, hex_of, sha256_of};
use crate::text::{
    ascii_alnum, cat, chars_of, starts_with, starts_with_chars, string_of, trim_chars, trim_end,
    trim_start,
};

verus! {

/// Largest image body that is cached.
pub const MAX_IMAGE_BYTES: u64 = 50 * 1024 * 1024;

/// Largest media body that is cached.
pub const MAX_MEDIA_BYTES: u64 = 300 * 1024 * 1024;

/// What a cached asset is; it names the file and picks the default extension.
#[derive(Clone, Copy, Debug, PartialEq, Eq, Structural)]
pub enum AssetKind {
    Image,
    Media,
}

pub open spec fn kind_name(k: AssetKind) -> Seq<char> {
    match k {
        AssetKind::Image => "image"@,
        AssetKind::Media => "media"@,
    }
}

pub open spec fn default_ext(k: AssetKind) -> Seq<char> {
    match k {
        AssetKind::Image => "png"@,
        AssetKind::Media => "bin"@,
    }
}

pub open spec fn opt_view(r: Option<String>) -> Option<Seq<char>> {
    match r {
        Some(s) => Some(s@),
        None => None,
    }
}

pub open spec fn opt_str_view(r: Option<&str>) -> Option<Seq<char>> {
    match r {
        Some(s) => Some(s@),
        None => None,
    }
}

/// The path of a URL, where the text parses as one.
pub uninterp spec fn url_path_of(s: Seq<char>) -> Option<Seq<char>>;

/// The extension of the last component of a path, where it has one.
pub uninterp spec fn path_extension_of(s: Seq<char>) -> Option<Seq<char>>;

/// Relies on url's `Url::parse` and `Url::path`: the path of `u` when `u`
/// parses as a URL.
#[verifier::external_body]
fn parse_url_path(u: &str) -> (r: Option<String>)
    ensures
        opt_view(r) == url_path_of(u@),
{
    url::Url::parse(u).ok().map(|p| p.path().to_string())
}

/// Relies on `std::path::Path::extension`: the text after the last dot of
/// the file name, when there is one.
#[verifier::external_body]
fn path_extension(p: &str) -> (r: Option<String>)
    ensures
        opt_view(r) == path_extension_of(p@),
{
    std::path::Path::new(p).extension().and_then(|e| e.to_str()).map(|e| e.to_string())
}

pub open spec fn lower_ascii(c: char) -> char {
    if 'A' <= c && c <= 'Z' {
        ((c as u8) + 32u8) as char
    } else {
        c
    }
}

pub open spec fn ascii_lowered(s: Seq<char>) -> Seq<char> {
    s.map_values(|c: char| lower_ascii(c))
}

/// `s` without its leading dots.
pub open spec fn strip_dots(s: Seq<char>) -> Seq<char>
    decreases s.len(),
{
    if s.len() > 0 && s[0] == '.' {
        strip_dots(s.drop_first())
    } else {
        s
    }
}

/// An extension as accepted for a file name: trimmed, leading dots removed,
/// lower-cased, 2 to 6 ASCII letters or digits.
pub open spec fn sanitized(e: Seq<char>) -> Option<Seq<char>> {
    let t = ascii_lowered(strip_dots(trim_end(trim_start(e))));
    if 2 <= t.len() <= 6 && forall|i: int| 0 <= i < t.len() ==> ascii_alnum(#[trigger] t[i]) {
        Some(t)
    } else {
        None
    }
}

/// The extension that a content type stands for.
pub open spec fn content_type_ext(ct: Seq<char>) -> Option<Seq<char>> {
    let c = ascii_lowered(ct);
    if starts_with(c, "image/png"@) {
        Some("png"@)
    } else if starts_with(c, "image/jpeg"@) || starts_with(c, "image/jpg"@) {
        Some("jpg"@)
    } else if starts_with(c, "image/webp"@) {
        Some("webp"@)
    } else if starts_with(c, "image/gif"@) {
        Some("gif"@)
    } else if starts_with(c, "image/svg+xml"@) {
        Some("svg"@)
    } else if starts_with(c, "image/avif"@) {
        Some("avif"@)
    } else if starts_with(c, "image/heic"@) {
        Some("heic"@)
    } else if starts_with(c, "image/heif"@) {
        Some("heif"@)
    } else if starts_with(c, "video/mp4"@) {
        Some("mp4"@)
    } else if starts_with(c, "video/webm"@) {
        Some("webm"@)
    } else if starts_with(c, "video/quicktime"@) {
        Some("mov"@)
    } else if starts_with(c, "audio/mpeg"@) {
        Some("mp3"@)
    } else if starts_with(c, "audio/mp4"@) || starts_with(c, "audio/m4a"@) {
        Some("m4a"@)
    } else if starts_with(c, "audio/wav"@) {
        Some("wav"@)
    } else {
        None
    }
}

/// The sanitized extension of a URL's path.
pub open spec fn url_ext(url: Seq<char>) -> Option<Seq<char>> {
    match url_path_of(url) {
        Some(p) => match path_extension_of(p) {
            Some(e) => sanitized(e),
            None => None,
        },
        None => None,
    }
}

/// The extension of a cached file: the URL's, else the content type's, else
/// the kind's default.
pub open spec fn resolved_ext(kind: AssetKind, url: Seq<char>, ct: Option<Seq<char>>) -> Seq<char> {
    match url_ext(url) {
        Some(e) => e,
        None => match ct {
            Some(c) => match content_type_ext(c) {
                Some(e) => e,
                None => default_ext(kind),
            },
            None => default_ext(kind),
        },
    }
}

pub open spec fn token_bytes(t: Option<&str>) -> Seq<u8> {
    match t {
        Some(s) => s.spec_bytes(),
        None => seq![],
    }
}

/// The file stem of a cached asset: its kind, a dash, and the hexadecimal
/// SHA-256 of the URL followed by the token.
pub open spec fn file_stem(kind: AssetKind, url: &str, token: Option<&str>) -> Seq<char> {
    kind_name(kind) + seq!['-'] + hex_of(sha256_of(url.spec_bytes() + token_bytes(token)))
}

/// Cache names depend on the request alone: the same kind, URL and token
/// name the same file stem, which is how a second fetch finds the first
/// one's file.
pub proof fn lemma_stem_stable(kind: AssetKind, url: &str, token: Option<&str>, a: Seq<char>, b: Seq<char>)
    requires
        a == file_stem(kind, url, token),
        b == file_stem(kind, url, token),
    ensures
        a == b,
{
}

fn lower_ascii_chars(s: &Vec<char>) -> (r: Vec<char>)
    ensures
        r@ == ascii_lowered(s@),
{
    let mut out: Vec<char> = Vec::new();
    let mut i: usize = 0;
    while i < s.len()
        invariant
            i <= s@.len(),
            out@ == ascii_lowered(s@.take(i as int)),
        decreases s@.len() - i,
    {
        let c = s[i];
        let l = if 'A' <= c && c <= 'Z' { ((c as u8) + 32u8) as char } else { c };
        out.push(l);
        i = i + 1;
        assert(out@ =~= ascii_lowered(s@.take(i as int)));
    }
    assert(s@.take(i as int) =~= s@);
    out
}

/// Cleans up a file extension: trims, drops leading dots, lower-cases, and
/// accepts it only if 2 to 6 ASCII letters or digits remain.
pub fn sanitize_extension(ext: &str) -> (r: Option<String>)
    ensures
        opt_view(r) == sanitized(ext@),
{
    let t = trim_chars(&chars_of(ext));
    let mut a: usize = 0;
    assert(t@.subrange(0, t@.len() as int) =~= t@);
    while a < t.len() && t[a] == '.'
        invariant
            a <= t@.len(),
            strip_dots(t@.subrange(a as int, t@.len() as int)) == strip_dots(t@),
        decreases t@.len() - a,
    {
        assert(t@.subrange(a as int, t@.len() as int).drop_first() =~= t@.subrange(
            a as int + 1,
            t@.len() as int,
        ));
        a = a + 1;
    }
    let mut rest: Vec<char> = Vec::new();
    let mut k: usize = a;
    while k < t.len()
        invariant
            a <= k <= t@.len(),
            rest@ == t@.subrange(a as int, k as int),
        decreases t@.len() - k,
    {
        rest.push(t[k]);
        k = k + 1;
        assert(rest@ =~= t@.subrange(a as int, k as int));
    }
    assert(strip_dots(t@.subrange(a as int, t@.len() as int)) == rest@);
    let low = lower_ascii_chars(&rest);
    assert(low@ == ascii_lowered(strip_dots(trim_end(trim_start(ext@)))));
    if low.len() < 2 || low.len() > 6 {
        return None;
    }
    let mut i: usize = 0;
    while i < low.len()
        invariant
            i <= low@.len(),
            low@ == ascii_lowered(strip_dots(trim_end(trim_start(ext@)))),
            forall|m: int| 0 <= m < i ==> ascii_alnum(low@[m]),
        decreases low@.len() - i,
    {
        let c = low[i];
        if !(('0' <= c && c <= '9') || ('a' <= c && c <= 'z') || ('A' <= c && c <= 'Z')) {
            assert(!ascii_alnum(low@[i as int]));
            return None;
        }
        i = i + 1;
    }
    Some(string_of(&low))
}

fn lit(s: &str) -> (r: Option<String>)
    ensures
        opt_view(r) == Some(s@),
{
    Some(string_of(&chars_of(s)))
}

/// The extension that a response's content type stands for, if it is one
/// of the known image, video and audio types.
pub fn extension_from_content_type(content_type: Option<&str>) -> (r: Option<String>)
    ensures
        opt_view(r) == match opt_str_view(content_type) {
            Some(c) => content_type_ext(c),
            None => None,
        },
{
    let ct = match content_type {
        Some(c) => c,
        None => {
            return None;
        },
    };
    let c = lower_ascii_chars(&chars_of(ct));
    if starts_with_chars(&c, &chars_of("image/png")) {
        lit("png")
    } else if starts_with_chars(&c, &chars_of("image/jpeg")) || starts_with_chars(
        &c,
        &chars_of("image/jpg"),
    ) {
        lit("jpg")
    } else if starts_with_chars(&c, &chars_of("image/webp")) {
        lit("webp")
    } else if starts_with_chars(&c, &chars_of("image/gif")) {
        lit("gif")
    } else if starts_with_chars(&c, &chars_of("image/svg+xml")) {
        lit("svg")
    } else if starts_with_chars(&c, &chars_of("image/avif")) {
        lit("avif")
    } else if starts_with_chars(&c, &chars_of("image/heic")) {
        lit("heic")
    } else if starts_with_chars(&c, &chars_of("image/heif")) {
        lit("heif")
    } else if starts_with_chars(&c, &chars_of("video/mp4")) {
        lit("mp4")
    } else if starts_with_chars(&c, &chars_of("video/webm")) {
        lit("webm")
    } else if starts_with_chars(&c, &chars_of("video/quicktime")) {
        lit("mov")
    } else if starts_with_chars(&c, &chars_of("audio/mpeg")) {
        lit("mp3")
    } else if starts_with_chars(&c, &chars_of("audio/mp4")) || starts_with_chars(
        &c,
        &chars_of("audio/m4a"),
    ) {
        lit("m4a")
    } else if starts_with_chars(&c, &chars_of("audio/wav")) {
        lit("wav")
    } else {
        None
    }
}

/// The sanitized extension of the URL's path, where the URL parses and its
/// path has one.
pub fn extension_from_url(url: &str) -> (r: Option<String>)
    ensures
        opt_view(r) == url_ext(url@),
{
    let path = match parse_url_path(url) {
        Some(p) => p,
        None => {
            return None;
        },
    };
    let ext = match path_extension(path.as_str()) {
        Some(e) => e,
        None => {
            return None;
        },
    };
    sanitize_extension(ext.as_str())
}

/// The extension of the cached file for `url`: from the URL, else from the
/// content type, else "png" for images and "bin" for media.
pub fn resolve_extension(kind: AssetKind, url: &str, content_type: Option<&str>) -> (r: String)
    ensures
        r@ == resolved_ext(kind, url@, opt_str_view(content_type)),
{
    match extension_from_url(url) {
        Some(e) => e,
        None => match extension_from_content_type(content_type) {
            Some(e) => e,
            None => match kind {
                AssetKind::Image => string_of(&chars_of("png")),
                AssetKind::Media => string_of(&chars_of("bin")),
            },
        },
    }
}

/// Inline addresses ("data:" and "blob:") need no caching.
pub fn is_inline_url(url: &str) -> (r: bool)
    ensures
        r == (starts_with(url@, "data:"@) || starts_with(url@, "blob:"@)),
{
    let u = chars_of(url);
    starts_with_chars(&u, &chars_of("data:")) || starts_with_chars(&u, &chars_of("blob:"))
}

fn push_bytes(out: &mut Vec<u8>, b: &[u8])
    ensures
        final(out)@ == old(out)@ + b@,
{
    let mut i: usize = 0;
    while i < b.len()
        invariant
            i <= b@.len(),
            out@ == old(out)@ + b@.take(i as int),
        decreases b@.len() - i,
    {
        out.push(b[i]);
        i = i + 1;
        assert(out@ =~= old(out)@ + b@.take(i as int));
    }
    assert(b@.take(i as int) =~= b@);
}

/// The stem of the cache file for `url` fetched with `auth_token`:
/// "image-" or "media-" followed by the hexadecimal SHA-256 of the URL's
/// bytes and then the token's.
pub fn cache_file_stem(kind: AssetKind, url: &str, auth_token: Option<&str>) -> (r: String)
    ensures
        r@ == file_stem(kind, url, auth_token),
{
    let mut bytes: Vec<u8> = Vec::new();
    push_bytes(&mut bytes, url.as_bytes());
    match auth_token {
        Some(t) => push_bytes(&mut bytes, t.as_bytes()),
        None => {},
    }
    assert(bytes@ =~= url.spec_bytes() + token_bytes(auth_token));
    let hash = hex_digest(&bytes);
    let name = match kind {
        AssetKind::Image => chars_of("image"),
        AssetKind::Media => chars_of("media"),
    };
    let mut dash: Vec<char> = Vec::new();
    dash.push('-');
    let head = cat(&name, &dash);
    let full = cat(&head, &chars_of(hash.as_str()));
    string_of(&full)
}

/// The file name of a cached asset: stem, a dot, extension.
pub fn cache_file_name(stem: &str, ext: &str) -> (r: String)
    ensures
        r@ == stem@ + seq!['.'] + ext@,
{
    let mut dot: Vec<char> = Vec::new();
    dot.push('.');
    let head = cat(&chars_of(stem), &dot);
    string_of(&cat(&head, &chars_of(ext)))
}

/// Whether an image body of `len` bytes may be cached.
pub fn image_size_allowed(len: u64) -> (r: bool)
    ensures
        r == (len <= MAX_IMAGE_BYTES),
{
    len <= MAX_IMAGE_BYTES
}

/// The running size of a media download after a chunk of `chunk` bytes, or
/// `None` once it passes the limit and the download must be abandoned.
pub fn media_size_after(size: u64, chunk: u64) -> (r: Option<u64>)
    ensures
        r == (if size + chunk <= MAX_MEDIA_BYTES {
            Some((size + chunk) as u64)
        } else {
            None
        }),
{
    if size > MAX_MEDIA_BYTES || chunk > MAX_MEDIA_BYTES - size {
        None
    } else {
        Some(size + chunk)
    }
}

/// Whether an HTTP status means success (2xx).
pub fn status_is_success(status: u16) -> (r: bool)
    ensures
        r == (200 <= status && status <= 299),
{
    200 <= status && status <= 299
}

} // verus!
