use telegrand::utils::{
    data_dir, dim, dim_and_escape, escape, link_target, linkify, system_language_code,
    ApplicationOptions,
};

#[test]
fn escape_replaces_markup_characters() {
    assert_eq!(escape("a<b>&'\"c"), "a&lt;b&gt;&amp;&apos;&quot;c");
}

#[test]
fn escape_keeps_plain_text() {
    assert_eq!(escape("hello wörld"), "hello wörld");
    assert_eq!(escape(""), "");
}

#[test]
fn escape_ampersand_of_an_entity_once() {
    assert_eq!(escape("&lt;"), "&amp;lt;");
}

#[test]
fn dim_wraps_in_span() {
    assert_eq!(dim("x"), "<span alpha=\"55%\">x</span>");
}

#[test]
fn dim_and_escape_escapes_first() {
    assert_eq!(dim_and_escape("<b>"), "<span alpha=\"55%\">&lt;b&gt;</span>");
}

#[test]
fn linkify_adds_http_without_protocol() {
    assert_eq!(linkify("example.org"), "http://example.org");
}

#[test]
fn linkify_keeps_text_with_protocol() {
    assert_eq!(linkify("https://example.org"), "https://example.org");
    assert_eq!(linkify("ftp://host"), "ftp://host");
}

#[test]
fn linkify_protocol_must_start_the_text() {
    assert_eq!(linkify("see https://x"), "http://see https://x");
    assert_eq!(linkify("://x"), "http://://x");
}

#[test]
fn link_target_follows_flag() {
    assert_eq!(link_target("a.b", true), "a.b");
    assert_eq!(link_target("a.b", false), "http://a.b");
}

#[test]
fn data_dir_is_the_configured_one() {
    let options = ApplicationOptions { data_dir: "/home/bob/.local/share/telegrand".to_string(), test_dc: false };
    assert_eq!(data_dir(&options), "/home/bob/.local/share/telegrand");
}

#[test]
fn language_code_falls_back_to_en_us() {
    assert_eq!(system_language_code(String::new()), "en_US");
    assert_eq!(system_language_code("de_DE".to_string()), "de_DE");
}
