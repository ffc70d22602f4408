use mles::http::{
    choose_codec, content_type, extension, file_path, plan_reply, redirect_target, reply_headers,
    Codec, ReplyHeaders, BR, ZSTD,
};

#[test]
fn replyheaders_debug_contains_variant_name() {
    let v = ReplyHeaders::Zstd;
    let s = format!("{:?}", v);
    assert!(s.contains("Zstd"));
}

#[test]
fn extension_after_last_dot() {
    assert_eq!(extension("www/a.b/index.html"), "html");
    assert_eq!(extension("noext"), "noext");
    assert_eq!(extension("trailing."), "");
    assert_eq!(extension("a.tar.gz"), "gz");
}

#[test]
fn content_types() {
    assert_eq!(content_type("root/x.io/index.html"), "text/html");
    assert_eq!(content_type("a.js"), "application/javascript");
    assert_eq!(content_type("a.mjs"), "application/javascript");
    assert_eq!(content_type("a.json"), "application/json");
    assert_eq!(content_type("a.css"), "text/css");
    assert_eq!(content_type("a.svg"), "image/svg+xml");
    assert_eq!(content_type("a.xml"), "application/xml");
    assert_eq!(content_type("a.png"), "image/png");
    assert_eq!(content_type("a.jpg"), "image/jpeg");
    assert_eq!(content_type("favicon.ico"), "image/x-icon");
    assert_eq!(content_type("app.apk"), "application/vnd.android.package-archive");
    assert_eq!(content_type("a.wasm"), "*/*");
    assert_eq!(content_type("README"), "*/*");
}

#[test]
fn file_paths() {
    assert_eq!(file_path("/www", "mles.io", ""), "/www/mles.io/index.html");
    assert_eq!(file_path("/www", "mles.io", "app/x.js"), "/www/mles.io/app/x.js");
}

#[test]
fn codec_choice() {
    assert_eq!(choose_codec(None, "text/html"), None);
    assert_eq!(choose_codec(Some("gzip, br, zstd"), "text/html"), Some(Codec::Zstd));
    assert_eq!(choose_codec(Some("gzip, br"), "application/json"), Some(Codec::Br));
    assert_eq!(choose_codec(Some("gzip"), "text/css"), None);
    assert_eq!(choose_codec(Some("br, zstd"), "image/png"), None);
    assert_eq!(Codec::Zstd.name(), ZSTD);
    assert_eq!(Codec::Br.name(), BR);
}

#[test]
fn headers_for_replies() {
    assert_eq!(reply_headers("text/html", None), ReplyHeaders::NONE);
    assert_eq!(reply_headers("text/html", Some(Codec::Zstd)), ReplyHeaders::Zstd);
    assert_eq!(reply_headers("text/html", Some(Codec::Br)), ReplyHeaders::Br);
    assert_eq!(reply_headers("application/json", None), ReplyHeaders::AllowOrigin);
    assert_eq!(
        reply_headers("application/json", Some(Codec::Zstd)),
        ReplyHeaders::ZstdWithAllowOrigin
    );
    assert_eq!(
        reply_headers("application/json", Some(Codec::Br)),
        ReplyHeaders::BrWithAllowOrigin
    );
}

#[test]
fn plans() {
    assert!(plan_reply(None, "other.io", "mles.io", "/www", "").is_none());
    let p = plan_reply(Some("br"), "mles.io", "mles.io", "/www", "").unwrap();
    assert_eq!(p.file_path, "/www/mles.io/index.html");
    assert_eq!(p.content_type, "text/html");
    assert_eq!(p.codec, Some(Codec::Br));
    let p = plan_reply(Some("zstd"), "mles.io", "mles.io", "/www", "logo.png").unwrap();
    assert_eq!(p.content_type, "image/png");
    assert_eq!(p.codec, None);
}

#[test]
fn redirects() {
    assert_eq!(redirect_target("a.io", "b.io", "x"), None);
    assert_eq!(redirect_target("mles.io", "mles.io", "app/x"), Some("https://mles.io/app/x".to_string()));
    assert_eq!(redirect_target("mles.io", "mles.io", ""), Some("https://mles.io/".to_string()));
}
