//! Text helpers shared by the user interface.
use vstd::prelude::*;
use vstd::string::*;

verus! {

/// What one character of text becomes in markup.
pub open spec fn escaped_char(c: char) -> Seq<char> {
    if c == '&' {
        "&amp;"@
    } else if c == '<' {
        "&lt;"@
    } else if c == '>' {
        "&gt;"@
    } else if c == '\'' {
        "&apos;"@
    } else if c == '"' {
        "&quot;"@
    } else {
        seq![c]
    }
}

/// The text with each markup-sensitive character replaced by its entity.
pub open spec fn escaped(s: Seq<char>) -> Seq<char>
    decreases s.len(),
{
    if s.len() == 0 {
        Seq::empty()
    } else {
        escaped(s.drop_last()) + escaped_char(s.last())
    }
}

/// Escapes `&`, `<`, `>`, `'` and `"` so that the text can be embedded in markup.
pub fn escape(text: &str) -> (r: String)
    ensures
        r@ == escaped(text@),
{
    let n = text.unicode_len();
    let mut out = String::new();
    let mut i: usize = 0;
    while i < n
        invariant
            n == text@.len(),
            i <= n,
            out@ == escaped(text@.subrange(0, i as int)),
        decreases n - i,
    {
        let c = text.get_char(i);
        if c == '&' {
            out.append("&amp;");
        } else if c == '<' {
            out.append("&lt;");
        } else if c == '>' {
            out.append("&gt;");
        } else if c == '\'' {
            out.append("&apos;");
        } else if c == '"' {
            out.append("&quot;");
        } else {
            let one = text.substring_char(i, i + 1);
            assert(one@ =~= seq![c]);
            out.append(one);
        }
        assert(text@.subrange(0, i + 1).drop_last() =~= text@.subrange(0, i as int));
        i = i + 1;
    }
    assert(text@.subrange(0, n as int) =~= text@);
    out
}

/// Text dimmed for display.
pub open spec fn dimmed(s: Seq<char>) -> Seq<char> {
    "<span alpha=\"55%\">"@ + s + "</span>"@
}

/// Wraps markup in a span with the dim-label alpha value.
pub fn dim(text: &str) -> (r: String)
    ensures
        r@ == dimmed(text@),
{
    let mut out = String::from_str("<span alpha=\"55%\">");
    out.append(text);
    out.append("</span>");
    out
}

/// Escapes the text and dims it.
pub fn dim_and_escape(text: &str) -> (r: String)
    ensures
        r@ == dimmed(escaped(text@)),
{
    let escaped_text = escape(text);
    dim(escaped_text.as_str())
}

/// Whether the regular expression `pattern` matches somewhere in `text`; `None` when the
/// pattern does not compile.
pub uninterp spec fn regex_match(pattern: Seq<char>, text: Seq<char>) -> Option<bool>;

/// Relies on regex::Regex::new and regex::Regex::is_match: compiling a pattern and testing a
/// text against it depend on the pattern and the text alone.
#[verifier::external_body]
fn regex_is_match(pattern: &str, text: &str) -> (r: Option<bool>)
    ensures
        r == regex_match(pattern@, text@),
{
    match regex::Regex::new(pattern) {
        Ok(re) => Some(re.is_match(text)),
        Err(_) => None,
    }
}

/// A link target: the text itself when it starts with a protocol, else the text behind
/// `http://`.
pub open spec fn linked(text: Seq<char>, has_protocol: bool) -> Seq<char> {
    if has_protocol {
        text
    } else {
        "http://"@ + text
    }
}

/// A protocol at the start of a link: one or more word characters, then `://`.
pub open spec fn protocol_pattern() -> Seq<char> {
    "^\\w+://"@
}

/// Turns the text into a link target, given whether it starts with a protocol.
pub fn link_target(text: &str, has_protocol: bool) -> (r: String)
    ensures
        r@ == linked(text@, has_protocol),
{
    if has_protocol {
        String::from_str(text)
    } else {
        let mut out = String::from_str("http://");
        out.append(text);
        out
    }
}

/// Turns the text into a link target: `http://` is put in front unless the text starts with
/// a protocol.
pub fn linkify(text: &str) -> (r: String)
    ensures
        r@ == linked(text@, regex_match(protocol_pattern(), text@) == Some(true)),
{
    let matched = regex_is_match("^\\w+://", text);
    link_target(text, matched == Some(true))
}

/// Options that the application was started with.
pub struct ApplicationOptions {
    /// The directory that holds one database directory per account.
    pub data_dir: String,
    /// Whether new sessions use the test data center.
    pub test_dc: bool,
}

/// The data directory of the application.
pub fn data_dir(options: &ApplicationOptions) -> (r: &String)
    ensures
        r == &options.data_dir,
{
    &options.data_dir
}

/// The language code sent to the protocol: the system locale, or `en_US` when it is unknown.
pub fn system_language_code(locale: String) -> (r: String)
    ensures
        locale@.len() > 0 ==> r@ == locale@,
        locale@.len() == 0 ==> r@ == "en_US"@,
{
    if locale.as_str().unicode_len() > 0 {
        locale
    } else {
        String::from_str("en_US")
    }
}

} // verus!
