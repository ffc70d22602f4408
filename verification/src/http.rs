//! How the server answers a request for a static file: which file it reads,
//! the content type it names, whether it compresses the reply and which
//! headers go with it, and where a plain HTTP request is redirected.
use crate::text::{contains, spec_contains, str_chars, str_eq};
use http_types::mime;
use http_types::mime::Mime;
use vstd::prelude::*;

verus! {

/// The name of the Brotli content coding.
pub const BR: &'static str = "br";

/// The name of the Zstandard content coding.
pub const ZSTD: &'static str = "zstd";

/// The headers that go with a reply beside its content type.
#[allow(non_camel_case_types)]
#[derive(Debug, Clone, Copy, PartialEq, Eq, Structural)]
pub enum ReplyHeaders {
    NONE,
    Zstd,
    Br,
    AllowOrigin,
    ZstdWithAllowOrigin,
    BrWithAllowOrigin,
}

/// A content coding the server can compress a reply with.
#[derive(Debug, Clone, Copy, PartialEq, Eq, Structural)]
pub enum Codec {
    Zstd,
    Br,
}

impl Codec {
    /// The coding's name, as `Content-Encoding` and `Accept-Encoding` write it.
    pub fn name(self) -> (r: &'static str)
        ensures
            r@ == (match self {
                Codec::Zstd => ZSTD@,
                Codec::Br => BR@,
            }),
    {
        match self {
            Codec::Zstd => ZSTD,
            Codec::Br => BR,
        }
    }
}

// ---------------------------------------------------------------------------
// Content types
// ---------------------------------------------------------------------------

/// The characters of `p` after its last '.', or all of `p` when it has none.
pub open spec fn spec_extension(p: Seq<char>) -> Seq<char>
    decreases p.len(),
{
    if p.len() == 0 {
        p
    } else if p.last() == '.' {
        seq![]
    } else {
        spec_extension(p.drop_last()).push(p.last())
    }
}

/// The type and subtype that http-types' `Mime::from_extension` gives an
/// extension: its table in version 2.12.
pub open spec fn mime_table(ext: Seq<char>) -> Option<(Seq<char>, Seq<char>)> {
    if ext == "html"@ {
        Some(("text"@, "html"@))
    } else if ext == "js"@ || ext == "mjs"@ || ext == "jsonp"@ {
        Some(("application"@, "javascript"@))
    } else if ext == "json"@ {
        Some(("application"@, "json"@))
    } else if ext == "css"@ {
        Some(("text"@, "css"@))
    } else if ext == "svg"@ {
        Some(("image"@, "svg+xml"@))
    } else if ext == "xml"@ {
        Some(("application"@, "xml"@))
    } else {
        None
    }
}

/// `Mime::from_extension` of http-types, with the result's `basetype()` and
/// `subtype()`: the contract states the crate's table in full.
#[verifier::external_body]
fn mime_from_extension(ext: &str) -> (r: Option<(String, String)>)
    ensures
        (match r {
            Some(p) => Some((p.0@, p.1@)),
            None => None,
        }) == mime_table(ext@),
{
    match Mime::from_extension(ext) {
        Some(m) => Some((m.basetype().to_string(), m.subtype().to_string())),
        None => None,
    }
}

/// The type and subtype of http-types' `mime::PNG`.
#[verifier::external_body]
fn mime_png() -> (r: (String, String))
    ensures
        r.0@ == "image"@,
        r.1@ == "png"@,
{
    (mime::PNG.basetype().to_string(), mime::PNG.subtype().to_string())
}

/// The type and subtype of http-types' `mime::JPEG`.
#[verifier::external_body]
fn mime_jpeg() -> (r: (String, String))
    ensures
        r.0@ == "image"@,
        r.1@ == "jpeg"@,
{
    (mime::JPEG.basetype().to_string(), mime::JPEG.subtype().to_string())
}

/// The type and subtype of http-types' `mime::ICO`.
#[verifier::external_body]
fn mime_ico() -> (r: (String, String))
    ensures
        r.0@ == "image"@,
        r.1@ == "x-icon"@,
{
    (mime::ICO.basetype().to_string(), mime::ICO.subtype().to_string())
}

/// The type and subtype of http-types' `mime::ANY`.
#[verifier::external_body]
fn mime_any() -> (r: (String, String))
    ensures
        r.0@ == "*"@,
        r.1@ == "*"@,
{
    (mime::ANY.basetype().to_string(), mime::ANY.subtype().to_string())
}

/// The content type of a file named `path`: what http-types knows of its
/// extension, else the server's own choice for png, jpg, ico and apk files,
/// else `*/*`.
pub open spec fn spec_content_type(path: Seq<char>) -> Seq<char> {
    let ext = spec_extension(path);
    match mime_table(ext) {
        Some((base, sub)) => base + "/"@ + sub,
        None => if ext == "png"@ {
            "image/png"@
        } else if ext == "jpg"@ {
            "image/jpeg"@
        } else if ext == "ico"@ {
            "image/x-icon"@
        } else if ext == "apk"@ {
            "application/vnd.android.package-archive"@
        } else {
            "*/*"@
        },
    }
}

/// The extension of `p` is what follows the position after its last '.'.
proof fn lemma_extension_from(p: Seq<char>, k: int)
    requires
        0 <= k <= p.len(),
        k == 0 || p[k - 1] == '.',
        forall|j: int| k <= j < p.len() ==> p[j] != '.',
    ensures
        spec_extension(p) == p.subrange(k, p.len() as int),
    decreases p.len(),
{
    if p.len() == 0 {
        assert(p.subrange(0, 0) =~= p);
    } else if p.len() == k {
        assert(p.last() == '.');
        assert(p.subrange(k, k) =~= Seq::<char>::empty());
    } else {
        let d = p.drop_last();
        assert forall|j: int| k <= j < d.len() implies d[j] != '.' by {
            assert(d[j] == p[j]);
        }
        if k > 0 {
            assert(d[k - 1] == p[k - 1]);
        }
        lemma_extension_from(d, k);
        assert(p.subrange(k, p.len() as int) =~= d.subrange(k, d.len() as int).push(p.last()));
    }
}

/// The characters of `p` after its last '.', or all of `p` when it has none.
pub fn extension(p: &str) -> (r: &str)
    ensures
        r@ == spec_extension(p@),
{
    let cs = str_chars(p);
    let n = cs.len();
    let mut k: usize = 0;
    for i in 0..n
        invariant
            n == p@.len(),
            cs@ == p@,
            k <= i,
            k == 0 || p@[k - 1] == '.',
            forall|j: int| k <= j < i ==> p@[j] != '.',
    {
        if cs[i] == '.' {
            k = i + 1;
        }
    }
    proof {
        lemma_extension_from(p@, k as int);
    }
    p.substring_char(k, n)
}

/// `a`, '/' and `b` joined.
fn slash_join(a: &str, b: &str) -> (r: String)
    ensures
        r@ == a@ + "/"@ + b@,
{
    String::from_str(a).concat("/").concat(b)
}

/// The content type of a file named `path`.
pub fn content_type(path: &str) -> (r: String)
    ensures
        r@ == spec_content_type(path@),
{
    let ext = extension(path);
    match mime_from_extension(ext) {
        Some((base, sub)) => slash_join(base.as_str(), sub.as_str()),
        None => {
            if str_eq(ext, "png") {
                let (base, sub) = mime_png();
                proof {
                    reveal_strlit("image");
                    reveal_strlit("/");
                    reveal_strlit("png");
                    reveal_strlit("image/png");
                }
                slash_join(base.as_str(), sub.as_str())
            } else if str_eq(ext, "jpg") {
                let (base, sub) = mime_jpeg();
                proof {
                    reveal_strlit("image");
                    reveal_strlit("/");
                    reveal_strlit("jpeg");
                    reveal_strlit("image/jpeg");
                }
                slash_join(base.as_str(), sub.as_str())
            } else if str_eq(ext, "ico") {
                let (base, sub) = mime_ico();
                proof {
                    reveal_strlit("image");
                    reveal_strlit("/");
                    reveal_strlit("x-icon");
                    reveal_strlit("image/x-icon");
                }
                slash_join(base.as_str(), sub.as_str())
            } else if str_eq(ext, "apk") {
                String::from_str("application/vnd.android.package-archive")
            } else {
                let (base, sub) = mime_any();
                proof {
                    reveal_strlit("*");
                    reveal_strlit("/");
                    reveal_strlit("*/*");
                }
                slash_join(base.as_str(), sub.as_str())
            }
        },
    }
}

// ---------------------------------------------------------------------------
// Replies
// ---------------------------------------------------------------------------

/// The file that a request for `tail` on host `uri` reads under `www_root`:
/// `index.html` stands for an empty path.
pub open spec fn spec_file_path(www_root: Seq<char>, uri: Seq<char>, tail: Seq<char>) -> Seq<char> {
    www_root + "/"@ + uri + "/"@ + (if tail.len() == 0 {
        "index.html"@
    } else {
        tail
    })
}

/// The file that a request for `tail` on host `uri` reads under `www_root`.
pub fn file_path(www_root: &str, uri: &str, tail: &str) -> (r: String)
    ensures
        r@ == spec_file_path(www_root@, uri@, tail@),
{
    let path = if tail.is_empty() {
        "index.html"
    } else {
        tail
    };
    String::from_str(www_root).concat("/").concat(uri).concat("/").concat(path)
}

/// Whether a reply of content type `ctype` may be compressed: text and JSON.
pub open spec fn compressible(ctype: Seq<char>) -> bool {
    spec_contains(ctype, "text"@) || spec_contains(ctype, "json"@)
}

/// The coding to compress a reply of content type `ctype` with, for a
/// request that accepts the codings `encoding`: Zstandard when accepted,
/// else Brotli when accepted, and none for other content types.
pub open spec fn spec_choose_codec(encoding: Option<Seq<char>>, ctype: Seq<char>) -> Option<Codec> {
    match encoding {
        Some(e) => if compressible(ctype) {
            if spec_contains(e, ZSTD@) {
                Some(Codec::Zstd)
            } else if spec_contains(e, BR@) {
                Some(Codec::Br)
            } else {
                None
            }
        } else {
            None
        },
        None => None,
    }
}

/// The coding to compress a reply of content type `ctype` with.
pub fn choose_codec(encoding: Option<&str>, ctype: &str) -> (r: Option<Codec>)
    ensures
        r == spec_choose_codec(
            match encoding {
                Some(e) => Some(e@),
                None => None,
            },
            ctype@,
        ),
{
    match encoding {
        Some(e) => {
            if contains(ctype, "text") || contains(ctype, "json") {
                if contains(e, ZSTD) {
                    Some(Codec::Zstd)
                } else if contains(e, BR) {
                    Some(Codec::Br)
                } else {
                    None
                }
            } else {
                None
            }
        },
        None => None,
    }
}

/// The headers for a reply of content type `ctype` whose body was compressed
/// with `used`, if with any: JSON replies allow any origin.
pub open spec fn spec_reply_headers(ctype: Seq<char>, used: Option<Codec>) -> ReplyHeaders {
    let json = spec_contains(ctype, "json"@);
    match used {
        Some(Codec::Zstd) => if json {
            ReplyHeaders::ZstdWithAllowOrigin
        } else {
            ReplyHeaders::Zstd
        },
        Some(Codec::Br) => if json {
            ReplyHeaders::BrWithAllowOrigin
        } else {
            ReplyHeaders::Br
        },
        None => if json {
            ReplyHeaders::AllowOrigin
        } else {
            ReplyHeaders::NONE
        },
    }
}

/// The headers for a reply of content type `ctype` whose body was compressed
/// with `used`, if with any.
pub fn reply_headers(ctype: &str, used: Option<Codec>) -> (r: ReplyHeaders)
    ensures
        r == spec_reply_headers(ctype@, used),
{
    let mut headers = ReplyHeaders::NONE;
    let mut use_zstd = false;
    let mut use_br = false;
    match used {
        Some(Codec::Zstd) => {
            headers = ReplyHeaders::Zstd;
            use_zstd = true;
        },
        Some(Codec::Br) => {
            headers = ReplyHeaders::Br;
            use_br = true;
        },
        None => {},
    }
    let mut use_allow_origin = false;
    if contains(ctype, "json") {
        use_allow_origin = true;
        headers = ReplyHeaders::AllowOrigin;
    }
    if use_zstd && use_allow_origin {
        headers = ReplyHeaders::ZstdWithAllowOrigin;
    } else if use_br && use_allow_origin {
        headers = ReplyHeaders::BrWithAllowOrigin;
    }
    headers
}

/// Whether `h` names a compression coding.
pub open spec fn has_codec(h: ReplyHeaders) -> bool {
    h != ReplyHeaders::NONE && h != ReplyHeaders::AllowOrigin
}

/// Whether `h` allows any origin.
pub open spec fn allows_origin(h: ReplyHeaders) -> bool {
    h == ReplyHeaders::AllowOrigin || h == ReplyHeaders::ZstdWithAllowOrigin
        || h == ReplyHeaders::BrWithAllowOrigin
}

/// A reply names a content coding exactly when its body was compressed, and
/// allows any origin exactly when its content type is JSON.
pub proof fn lemma_reply_headers_faithful(ctype: Seq<char>, used: Option<Codec>)
    ensures
        has_codec(spec_reply_headers(ctype, used)) <==> used is Some,
        allows_origin(spec_reply_headers(ctype, used)) <==> spec_contains(ctype, "json"@),
{
}

/// What the server does with a request for a static file before it touches
/// the disk.
pub struct ReplyPlan {
    /// The file to read.
    pub file_path: String,
    /// The content type to name.
    pub content_type: String,
    /// The coding to try to compress the body with.
    pub codec: Option<Codec>,
}

/// Plans the reply to a request for `tail` with `Host` header `uri`, sent to
/// the routes of `domain` under `www_root`, accepting the codings
/// `encoding`: none when the host is not the domain, which the server
/// answers as not found.
pub fn plan_reply(encoding: Option<&str>, uri: &str, domain: &str, www_root: &str, tail: &str) -> (r:
    Option<ReplyPlan>)
    ensures
        r is None <==> uri@ != domain@,
        r matches Some(p) ==> {
            &&& p.file_path@ == spec_file_path(www_root@, uri@, tail@)
            &&& p.content_type@ == spec_content_type(p.file_path@)
            &&& p.codec == spec_choose_codec(
                match encoding {
                    Some(e) => Some(e@),
                    None => None,
                },
                p.content_type@,
            )
        },
{
    if !str_eq(uri, domain) {
        return None;
    }
    let file_path = file_path(www_root, uri, tail);
    let content_type = content_type(file_path.as_str());
    let codec = choose_codec(encoding, content_type.as_str());
    Some(ReplyPlan { file_path, content_type, codec })
}

/// Where a plain HTTP request for `tail` with `Host` header `uri` is sent on
/// the redirect routes of `domain`: none when the host is not the domain.
pub fn redirect_target(uri: &str, domain: &str, tail: &str) -> (r: Option<String>)
    ensures
        r is None <==> uri@ != domain@,
        r matches Some(t) ==> t@ == "https://"@ + domain@ + "/"@ + tail@,
{
    if !str_eq(uri, domain) {
        return None;
    }
    Some(String::from_str("https://").concat(domain).concat("/").concat(tail))
}

/// Zstandard is preferred: a reply whose content type names text or JSON,
/// to a request that accepts `zstd`, is compressed with Zstandard, whatever
/// else the request accepts; without `zstd` but with `br` it is compressed
/// with Brotli; a coding is chosen only when the request accepts it, and
/// only for text or JSON.
pub proof fn lemma_codec_preference(e: Seq<char>, ctype: Seq<char>)
    ensures
        (spec_contains(ctype, "text"@) || spec_contains(ctype, "json"@)) && spec_contains(e, "zstd"@)
            ==> spec_choose_codec(Some(e), ctype) == Some(Codec::Zstd),
        (spec_contains(ctype, "text"@) || spec_contains(ctype, "json"@)) && !spec_contains(e, "zstd"@)
            && spec_contains(e, "br"@) ==> spec_choose_codec(Some(e), ctype) == Some(Codec::Br),
        spec_choose_codec(Some(e), ctype) == Some(Codec::Zstd) ==> spec_contains(e, "zstd"@),
        spec_choose_codec(Some(e), ctype) == Some(Codec::Br) ==> spec_contains(e, "br"@),
        spec_choose_codec(Some(e), ctype) is Some ==> spec_contains(ctype, "text"@) || spec_contains(
            ctype,
            "json"@,
        ),
        spec_choose_codec(None, ctype) is None,
{
    assert(ZSTD@ == "zstd"@);
    assert(BR@ == "br"@);
}

} // verus!
