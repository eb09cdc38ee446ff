//! Fetching a web page: which URLs are accepted, the request settings, when
//! to retry, the response limits, and how the body is shown (an image as
//! JSON, HTML as Markdown or as plain text, anything else as it is).
use vstd::prelude::*;
use vstd::string::StringExecFns;
use ego_tree::iter::Edge;
use scraper::Node;

use crate::encoding::{base64_standard, decode_lossy, image_fields, image_payload, json_string_object, utf8_lossy};
use crate::text::{
    ascii_lower_range, ascii_lower_seq, chars_eq_str, chars_of, collapse_white_space, join_range,
    split_words, trim_range, trimmed, views,
};

verus! {

/// The request timeout when none is asked for, in seconds.
pub const DEFAULT_TIMEOUT_SECS: u64 = 30;
/// The longest request timeout, in seconds.
pub const MAX_TIMEOUT_SECS: u64 = 120;
/// The largest response body accepted, in bytes.
pub const MAX_RESPONSE_BYTES: usize = 5242880;

/// How a fetched page is shown.
#[derive(Debug, Clone, Copy, PartialEq, Eq, Structural)]
pub enum WebFetchFormat {
    Markdown,
    Text,
    Html,
}

impl Default for WebFetchFormat {
    fn default() -> (r: Self)
        ensures
            r == WebFetchFormat::Markdown,
    {
        WebFetchFormat::Markdown
    }
}

/// The arguments of a fetch.
pub struct WebFetchArgs {
    pub url: String,
    pub format: Option<WebFetchFormat>,
    pub timeout: Option<u64>,
}

impl WebFetchArgs {
    /// The format asked for, Markdown by default.
    pub fn format_or_default(&self) -> (r: WebFetchFormat)
        ensures
            r == match self.format {
                Some(f) => f,
                None => WebFetchFormat::Markdown,
            },
    {
        match self.format {
            Some(f) => f,
            None => WebFetchFormat::Markdown,
        }
    }

    /// The timeout asked for (`DEFAULT_TIMEOUT_SECS` by default), at most
    /// `MAX_TIMEOUT_SECS`.
    pub fn timeout_secs(&self) -> (r: u64)
        ensures
            r == (match self.timeout {
                Some(t) => if t < MAX_TIMEOUT_SECS {
                    t
                } else {
                    MAX_TIMEOUT_SECS
                },
                None => DEFAULT_TIMEOUT_SECS,
            }),
    {
        let t = match self.timeout {
            Some(t) => t,
            None => DEFAULT_TIMEOUT_SECS,
        };
        if t < MAX_TIMEOUT_SECS {
            t
        } else {
            MAX_TIMEOUT_SECS
        }
    }
}

/// The User-Agent of the first request.
pub fn browser_user_agent() -> (r: &'static str)
    ensures
        r@ == "Mozilla/5.0 (Windows NT 10.0; Win64; x64) AppleWebKit/537.36 (KHTML, like Gecko) Chrome/143.0.0.0 Safari/537.36"@,
{
    "Mozilla/5.0 (Windows NT 10.0; Win64; x64) AppleWebKit/537.36 (KHTML, like Gecko) Chrome/143.0.0.0 Safari/537.36"
}

/// The User-Agent of the retry after a bot challenge.
pub fn fallback_user_agent() -> (r: &'static str)
    ensures
        r@ == "rig-tools"@,
{
    "rig-tools"
}

// ---------------------------------------------------------------------------
// Requests
// ---------------------------------------------------------------------------

/// `s` starts with `p`.
pub open spec fn starts_with(s: Seq<char>, p: Seq<char>) -> bool {
    p.len() <= s.len() && s.take(p.len() as int) == p
}

/// `url` starts with `http://` or `https://`.
pub open spec fn is_http_url(url: Seq<char>) -> bool {
    starts_with(url, "http://"@) || starts_with(url, "https://"@)
}

fn has_prefix(s: &Vec<char>, p: &str) -> (r: bool)
    ensures
        r == starts_with(s@, p@),
{
    let pc = chars_of(p);
    if pc.len() > s.len() {
        return false;
    }
    let mut i: usize = 0;
    while i < pc.len()
        invariant
            pc@ == p@,
            pc.len() <= s.len(),
            i <= pc.len(),
            forall|j: int| 0 <= j < i ==> s@[j] == pc@[j],
        decreases pc.len() - i,
    {
        if s[i] != pc[i] {
            assert(s@.take(p@.len() as int)[i as int] == s@[i as int]);
            return false;
        }
        i += 1;
    }
    assert(s@.take(p@.len() as int) =~= p@);
    true
}

/// Whether the URL is one that is fetched: it must start with `http://` or `https://`.
pub fn accepts_url(url: &str) -> (r: bool)
    ensures
        r == is_http_url(url@),
{
    let cs = chars_of(url);
    has_prefix(&cs, "http://") || has_prefix(&cs, "https://")
}

/// The `Accept` header sent for each format: the format's own media type first.
pub fn accept_header_for(format: WebFetchFormat) -> (r: &'static str)
    ensures
        r@ == match format {
            WebFetchFormat::Markdown => "text/markdown;q=1.0, text/x-markdown;q=0.9, text/plain;q=0.8, text/html;q=0.7, */*;q=0.1"@,
            WebFetchFormat::Text => "text/plain;q=1.0, text/markdown;q=0.9, text/html;q=0.8, */*;q=0.1"@,
            WebFetchFormat::Html => "text/html;q=1.0, application/xhtml+xml;q=0.9, text/plain;q=0.8, text/markdown;q=0.7, */*;q=0.1"@,
        },
{
    match format {
        WebFetchFormat::Markdown => "text/markdown;q=1.0, text/x-markdown;q=0.9, text/plain;q=0.8, text/html;q=0.7, */*;q=0.1",
        WebFetchFormat::Text => "text/plain;q=1.0, text/markdown;q=0.9, text/html;q=0.8, */*;q=0.1",
        WebFetchFormat::Html => "text/html;q=1.0, application/xhtml+xml;q=0.9, text/plain;q=0.8, text/markdown;q=0.7, */*;q=0.1",
    }
}

/// The request is retried with the fallback User-Agent when the answer is
/// 403 with a `cf-mitigated: challenge` header.
pub fn needs_fallback(status: u16, cf_mitigated: Option<&str>) -> (r: bool)
    ensures
        r == (status == 403 && (cf_mitigated matches Some(v) && v@ == "challenge"@)),
{
    if status != 403 {
        return false;
    }
    match cf_mitigated {
        Some(v) => {
            let cs = chars_of(v);
            chars_eq_str(&cs, "challenge")
        },
        None => false,
    }
}

/// The decision after a response: with the fallback User-Agent, send the
/// request again (`Some`), or use this response (`None`). The request is
/// sent again only once, and only after a bot challenge.
pub fn after_response(retried: bool, status: u16, cf_mitigated: Option<&str>) -> (r: Option<&'static str>)
    ensures
        !retried && status == 403 && (cf_mitigated matches Some(v) && v@ == "challenge"@) ==> (r
            matches Some(ua) && ua@ == "rig-tools"@),
        !(!retried && status == 403 && (cf_mitigated matches Some(v) && v@ == "challenge"@)) ==> r is None,
{
    if !retried && needs_fallback(status, cf_mitigated) {
        Some(fallback_user_agent())
    } else {
        None
    }
}

/// The `Accept-Language` header sent with every request.
pub fn accept_language() -> (r: &'static str)
    ensures
        r@ == "en-US,en;q=0.9"@,
{
    "en-US,en;q=0.9"
}

/// A status in 200..=299 is a success, as `http::StatusCode::is_success` says.
pub fn is_success(status: u16) -> (r: bool)
    ensures
        r == (200 <= status < 300),
{
    200 <= status && status < 300
}

/// A declared body length over `MAX_RESPONSE_BYTES` is refused before reading.
pub fn declared_too_large(content_length: u64) -> (r: bool)
    ensures
        r == ((content_length as usize) > MAX_RESPONSE_BYTES),
{
    (content_length as usize) > MAX_RESPONSE_BYTES
}

// ---------------------------------------------------------------------------
// Reading the body
// ---------------------------------------------------------------------------

/// The body read so far; it never exceeds `MAX_RESPONSE_BYTES`.
pub struct BodyBuffer {
    bytes: Vec<u8>,
}

/// The body grew past `MAX_RESPONSE_BYTES`.
#[derive(Debug, Clone, Copy, PartialEq, Eq, Structural)]
pub struct TooLarge;

impl BodyBuffer {
    /// The bytes read so far.
    pub closed spec fn contents(&self) -> Seq<u8> {
        self.bytes@
    }

    #[verifier::type_invariant]
    spec fn within_limit(&self) -> bool {
        self.bytes@.len() <= MAX_RESPONSE_BYTES
    }

    pub fn new() -> (r: BodyBuffer)
        ensures
            r.contents() == Seq::<u8>::empty(),
    {
        BodyBuffer { bytes: Vec::new() }
    }

    /// Appends a chunk, unless the body would then be longer than
    /// `MAX_RESPONSE_BYTES`; the buffer is unchanged when it is refused.
    pub fn push_chunk(&mut self, chunk: &[u8]) -> (r: Result<(), TooLarge>)
        ensures
            old(self).contents().len() + chunk@.len() > MAX_RESPONSE_BYTES ==> r is Err && final(self).contents() == old(self).contents(),
            old(self).contents().len() + chunk@.len() <= MAX_RESPONSE_BYTES ==> r is Ok && final(self).contents() == old(self).contents() + chunk@,
            final(self).contents().len() <= MAX_RESPONSE_BYTES,
    {
        proof {
            use_type_invariant(&*self);
        }
        if chunk.len() > MAX_RESPONSE_BYTES - self.bytes.len() {
            return Err(TooLarge);
        }
        let mut i: usize = 0;
        let ghost start = self.bytes@;
        let mut bytes = Vec::new();
        std::mem::swap(&mut bytes, &mut self.bytes);
        while i < chunk.len()
            invariant
                i <= chunk@.len(),
                start.len() + chunk@.len() <= MAX_RESPONSE_BYTES,
                bytes@ == start + chunk@.take(i as int),
            decreases chunk.len() - i,
        {
            bytes.push(chunk[i]);
            i += 1;
            assert(bytes@ =~= start + chunk@.take(i as int));
        }
        assert(chunk@.take(chunk@.len() as int) =~= chunk@);
        self.bytes = bytes;
        Ok(())
    }

    /// The whole body.
    pub fn into_bytes(self) -> (r: Vec<u8>)
        ensures
            r@ == self.contents(),
            r@.len() <= MAX_RESPONSE_BYTES,
    {
        proof {
            use_type_invariant(&self);
        }
        self.bytes
    }
}

// ---------------------------------------------------------------------------
// Content types
// ---------------------------------------------------------------------------

/// Index of the first `;` in `s`, or `s.len()`.
pub open spec fn semicolon_index(s: Seq<char>) -> int
    decreases s.len(),
{
    if s.len() == 0 {
        0
    } else if s[0] == ';' {
        0
    } else {
        1 + semicolon_index(s.drop_first())
    }
}

proof fn lemma_semicolon_index_at(s: Seq<char>, k: int)
    requires
        0 <= k <= s.len(),
        forall|j: int| 0 <= j < k ==> s[j] != ';',
        k < s.len() ==> s[k] == ';',
    ensures
        semicolon_index(s) == k,
    decreases k,
{
    if k > 0 {
        assert(s[0] != ';');
        lemma_semicolon_index_at(s.drop_first(), k - 1);
    }
}

/// The media type of a `Content-Type` value: the part before any `;`,
/// without surrounding white space, in ASCII lowercase.
pub open spec fn media_type(content_type: Seq<char>) -> Seq<char> {
    ascii_lower_seq(trimmed(content_type.take(semicolon_index(content_type))))
}

/// The media type of a `Content-Type` value.
pub fn mime_of(content_type: &str) -> (r: String)
    ensures
        r@ == media_type(content_type@),
{
    let cs = chars_of(content_type);
    let mut k: usize = 0;
    while k < cs.len() && cs[k] != ';'
        invariant
            k <= cs.len(),
            forall|j: int| 0 <= j < k ==> cs@[j] != ';',
        decreases cs.len() - k,
    {
        k += 1;
    }
    proof {
        lemma_semicolon_index_at(cs@, k as int);
        assert(cs@.take(k as int) =~= cs@.subrange(0, k as int));
    }
    let (a, b) = trim_range(&cs, 0, k);
    let lower = ascii_lower_range(&cs, a, b);
    crate::text::string_from_range(&lower, 0, lower.len())
}

/// The image type that a media type names, if any.
pub open spec fn image_mime_from_spec(mime: Seq<char>) -> Option<Seq<char>> {
    if mime == "image/jpeg"@ || mime == "image/jpg"@ {
        Some("image/jpeg"@)
    } else if mime == "image/png"@ {
        Some("image/png"@)
    } else if mime == "image/gif"@ {
        Some("image/gif"@)
    } else if mime == "image/webp"@ {
        Some("image/webp"@)
    } else if mime == "image/heic"@ {
        Some("image/heic"@)
    } else if mime == "image/heif"@ {
        Some("image/heif"@)
    } else if mime == "image/svg+xml"@ {
        Some("image/svg+xml"@)
    } else {
        None
    }
}

/// The image type of a media type (`image/jpg` taken as `image/jpeg`), if it is one.
pub fn image_mime_from_content_type(mime: &str) -> (r: Option<&'static str>)
    ensures
        match image_mime_from_spec(mime@) {
            Some(m) => r is Some && r->0@ == m,
            None => r is None,
        },
{
    let cs = chars_of(mime);
    if chars_eq_str(&cs, "image/jpeg") || chars_eq_str(&cs, "image/jpg") {
        Some("image/jpeg")
    } else if chars_eq_str(&cs, "image/png") {
        Some("image/png")
    } else if chars_eq_str(&cs, "image/gif") {
        Some("image/gif")
    } else if chars_eq_str(&cs, "image/webp") {
        Some("image/webp")
    } else if chars_eq_str(&cs, "image/heic") {
        Some("image/heic")
    } else if chars_eq_str(&cs, "image/heif") {
        Some("image/heif")
    } else if chars_eq_str(&cs, "image/svg+xml") {
        Some("image/svg+xml")
    } else {
        None
    }
}

/// A media type of HTML.
pub open spec fn is_html_spec(mime: Seq<char>) -> bool {
    mime == "text/html"@ || mime == "application/xhtml+xml"@
}

// ---------------------------------------------------------------------------
// HTML to Markdown
// ---------------------------------------------------------------------------

/// What `htmd` makes of `html`, leaving out the elements named in `skip`:
/// the Markdown, or the text of its error.
pub uninterp spec fn html_to_markdown(html: Seq<char>, skip: Seq<Seq<char>>) -> Result<Seq<char>, Seq<char>>;

/// Calls `htmd::HtmlToMarkdown::builder().skip_tags(skip).build().convert(html)`.
/// Claimed: the outcome is `html_to_markdown(html, skip)`, with the error as text.
#[verifier::external_body]
fn markdown_from_html(html: &str, skip: &Vec<String>) -> (r: Result<String, String>)
    ensures
        match html_to_markdown(html@, views(skip@)) {
            Ok(m) => r is Ok && r->Ok_0@ == m,
            Err(e) => r is Err && r->Err_0@ == e,
        },
{
    let tags: Vec<&str> = skip.iter().map(|t| t.as_str()).collect();
    htmd::HtmlToMarkdown::builder().skip_tags(tags).build().convert(html).map_err(|e| e.to_string())
}

/// The elements left out of the Markdown.
pub open spec fn markdown_skip() -> Seq<Seq<char>> {
    seq!["script"@, "style"@, "meta"@, "link"@, "noscript"@]
}

fn string_vec(names: &[&str]) -> (r: Vec<String>)
    ensures
        r@.len() == names@.len(),
        forall|i: int| 0 <= i < r@.len() ==> #[trigger] r@[i]@ == names@[i]@,
{
    let mut v: Vec<String> = Vec::new();
    let mut i: usize = 0;
    while i < names.len()
        invariant
            i <= names@.len(),
            v@.len() == i,
            forall|k: int| 0 <= k < i ==> #[trigger] v@[k]@ == names@[k]@,
        decreases names.len() - i,
    {
        v.push(String::from_str(names[i]));
        i += 1;
    }
    v
}

/// Converts HTML to Markdown, leaving out scripts, styles, metadata, links
/// and `noscript` content; the converter's error text when it fails.
pub fn convert_html_to_markdown(html: &str) -> (r: Result<String, String>)
    ensures
        match html_to_markdown(html@, markdown_skip()) {
            Ok(m) => r is Ok && r->Ok_0@ == m,
            Err(e) => r is Err && r->Err_0@ == e,
        },
{
    let skip = string_vec(&["script", "style", "meta", "link", "noscript"]);
    assert(views(skip@) =~= markdown_skip());
    markdown_from_html(html, &skip)
}

// ---------------------------------------------------------------------------
// Text of an HTML document
// ---------------------------------------------------------------------------

/// One step of a walk through the nodes of an HTML document, in document
/// order: a node is opened (an element with its name, a text with its
/// content, or another kind of node), and later closed.
pub enum HtmlEvent {
    OpenElement(String),
    OpenText(String),
    OpenOther,
    Close,
}

/// An `HtmlEvent` with its texts as character sequences.
pub enum HtmlEventView {
    OpenElement(Seq<char>),
    OpenText(Seq<char>),
    OpenOther,
    Close,
}

pub open spec fn event_view(e: HtmlEvent) -> HtmlEventView {
    match e {
        HtmlEvent::OpenElement(n) => HtmlEventView::OpenElement(n@),
        HtmlEvent::OpenText(t) => HtmlEventView::OpenText(t@),
        HtmlEvent::OpenOther => HtmlEventView::OpenOther,
        HtmlEvent::Close => HtmlEventView::Close,
    }
}

pub open spec fn event_views(es: Seq<HtmlEvent>) -> Seq<HtmlEventView> {
    es.map_values(|e: HtmlEvent| event_view(e))
}

/// The walk through the document that `scraper::Html::parse_document(html)`
/// builds, from its root, as `ego_tree`'s `traverse` gives it.
pub uninterp spec fn html_events(html: Seq<char>) -> Seq<HtmlEventView>;

/// Calls `scraper::Html::parse_document` and walks the tree with
/// `ego_tree`'s `traverse`, naming each node it opens and closes. Claimed:
/// the walk is `html_events(html)`, a function of the text alone.
#[verifier::external_body]
fn parse_html_events(html: &str) -> (r: Vec<HtmlEvent>)
    ensures
        event_views(r@) == html_events(html@),
{
    let doc = scraper::Html::parse_document(html);
    doc.tree.root().traverse().map(|edge| match edge {
        Edge::Open(node) => match node.value() {
            Node::Element(el) => HtmlEvent::OpenElement(el.name().to_string()),
            Node::Text(t) => HtmlEvent::OpenText(t.to_string()),
            Node::Document | Node::Fragment => HtmlEvent::OpenOther,
            Node::Doctype(_) | Node::Comment(_) | Node::ProcessingInstruction(_) => HtmlEvent::OpenOther,
        },
        Edge::Close(_) => HtmlEvent::Close,
    }).collect()
}

/// The elements whose content is not text of the page.
pub open spec fn text_skip(name: Seq<char>) -> bool {
    name == "script"@ || name == "style"@ || name == "noscript"@ || name == "iframe"@ || name
        == "object"@ || name == "embed"@
}

/// The text gathered by a walk: the content of every text node that is not
/// inside a skipped element. `depth` counts the nodes open inside the
/// skipped element being passed over (0 when none is).
pub open spec fn gather_text(events: Seq<HtmlEventView>, depth: nat, acc: Seq<char>) -> Seq<char>
    decreases events.len(),
{
    if events.len() == 0 {
        acc
    } else {
        let rest = events.drop_first();
        match events[0] {
            HtmlEventView::OpenElement(name) => if depth > 0 {
                gather_text(rest, depth + 1, acc)
            } else if text_skip(name) {
                gather_text(rest, 1, acc)
            } else {
                gather_text(rest, 0, acc)
            },
            HtmlEventView::OpenText(t) => if depth > 0 {
                gather_text(rest, depth + 1, acc)
            } else {
                gather_text(rest, 0, acc + t)
            },
            HtmlEventView::OpenOther => if depth > 0 {
                gather_text(rest, depth + 1, acc)
            } else {
                gather_text(rest, 0, acc)
            },
            HtmlEventView::Close => if depth > 0 {
                gather_text(rest, (depth - 1) as nat, acc)
            } else {
                gather_text(rest, 0, acc)
            },
        }
    }
}

/// The readable text of an HTML document: its text nodes outside scripts,
/// styles, `noscript`, frames and embedded objects, with white space
/// collapsed to single spaces.
pub open spec fn page_text(html: Seq<char>) -> Seq<char> {
    collapse_white_space(gather_text(html_events(html), 0, Seq::empty()))
}

/// The text of an element is page text unless the element is a `script`,
/// `style`, `noscript`, `iframe`, `object` or `embed`: walking such an
/// element holding one text node adds that text, outside any skipped
/// element, and goes on with the rest as before.
pub proof fn lemma_element_text_kept(name: Seq<char>, t: Seq<char>, rest: Seq<HtmlEventView>, acc: Seq<char>)
    requires
        name != "script"@,
        name != "style"@,
        name != "noscript"@,
        name != "iframe"@,
        name != "object"@,
        name != "embed"@,
    ensures
        gather_text(
            seq![HtmlEventView::OpenElement(name), HtmlEventView::OpenText(t), HtmlEventView::Close, HtmlEventView::Close]
                + rest,
            0,
            acc,
        ) == gather_text(rest, 0, acc + t),
{
    lemma_walk_element_with_text(name, t, rest, acc);
}

/// The text inside a `script`, `style`, `noscript`, `iframe`, `object` or
/// `embed` element is left out of the page text.
pub proof fn lemma_hidden_element_text_dropped(name: Seq<char>, t: Seq<char>, rest: Seq<HtmlEventView>, acc: Seq<char>)
    requires
        name == "script"@ || name == "style"@ || name == "noscript"@ || name == "iframe"@ || name == "object"@
            || name == "embed"@,
    ensures
        gather_text(
            seq![HtmlEventView::OpenElement(name), HtmlEventView::OpenText(t), HtmlEventView::Close, HtmlEventView::Close]
                + rest,
            0,
            acc,
        ) == gather_text(rest, 0, acc),
{
    lemma_walk_element_with_text(name, t, rest, acc);
}

proof fn lemma_walk_element_with_text(name: Seq<char>, t: Seq<char>, rest: Seq<HtmlEventView>, acc: Seq<char>)
    ensures
        gather_text(
            seq![HtmlEventView::OpenElement(name), HtmlEventView::OpenText(t), HtmlEventView::Close, HtmlEventView::Close]
                + rest,
            0,
            acc,
        ) == if text_skip(name) {
            gather_text(rest, 0, acc)
        } else {
            gather_text(rest, 0, acc + t)
        },
{
    let e0 = seq![HtmlEventView::OpenElement(name), HtmlEventView::OpenText(t), HtmlEventView::Close, HtmlEventView::Close]
        + rest;
    let e1 = seq![HtmlEventView::OpenText(t), HtmlEventView::Close, HtmlEventView::Close] + rest;
    let e2 = seq![HtmlEventView::Close, HtmlEventView::Close] + rest;
    let e3 = seq![HtmlEventView::Close] + rest;
    assert(e0.drop_first() =~= e1);
    assert(e1.drop_first() =~= e2);
    assert(e2.drop_first() =~= e3);
    assert(e3.drop_first() =~= rest);
    assert(e0[0] == HtmlEventView::OpenElement(name));
    assert(e1[0] == HtmlEventView::OpenText(t));
    assert(e2[0] == HtmlEventView::Close);
    assert(e3[0] == HtmlEventView::Close);
    if text_skip(name) {
        assert(gather_text(e3, 1, acc) == gather_text(rest, 0, acc));
        assert(gather_text(e2, 2, acc) == gather_text(e3, 1, acc));
        assert(gather_text(e1, 1, acc) == gather_text(e2, 2, acc));
    } else {
        assert(gather_text(e3, 0, acc + t) == gather_text(rest, 0, acc + t));
        assert(gather_text(e2, 0, acc + t) == gather_text(e3, 0, acc + t));
        assert(gather_text(e1, 0, acc) == gather_text(e2, 0, acc + t));
    }
}

fn skipped_for_text(name: &str) -> (r: bool)
    ensures
        r == text_skip(name@),
{
    let cs = chars_of(name);
    chars_eq_str(&cs, "script") || chars_eq_str(&cs, "style") || chars_eq_str(&cs, "noscript")
        || chars_eq_str(&cs, "iframe") || chars_eq_str(&cs, "object") || chars_eq_str(&cs, "embed")
}

/// The readable text of an HTML document.
pub fn extract_text_from_html(html: &str) -> (r: String)
    ensures
        r@ == page_text(html@),
{
    let events = parse_html_events(html);
    let ghost evs = event_views(events@);
    let mut acc = String::new();
    let mut depth: usize = 0;
    let mut i: usize = 0;
    assert(evs.skip(0) =~= evs);
    while i < events.len()
        invariant
            i <= events.len(),
            evs == event_views(events@),
            depth <= i,
            gather_text(evs, 0, Seq::empty()) == gather_text(evs.skip(i as int), depth as nat, acc@),
        decreases events.len() - i,
    {
        let ghost rest = evs.skip(i as int);
        assert(rest[0] == event_view(events@[i as int]));
        assert(rest.drop_first() =~= evs.skip(i + 1));
        match &events[i] {
            HtmlEvent::OpenElement(name) => {
                if depth > 0 {
                    depth += 1;
                } else if skipped_for_text(name.as_str()) {
                    depth = 1;
                }
            },
            HtmlEvent::OpenText(t) => {
                if depth > 0 {
                    depth += 1;
                } else {
                    acc.push_str(t.as_str());
                }
            },
            HtmlEvent::OpenOther => {
                if depth > 0 {
                    depth += 1;
                }
            },
            HtmlEvent::Close => {
                if depth > 0 {
                    depth -= 1;
                }
            },
        }
        i += 1;
    }
    assert(evs.skip(events.len() as int) =~= Seq::<HtmlEventView>::empty());
    let cs = chars_of(acc.as_str());
    let ws = split_words(&cs);
    let text = join_range(&ws, 0, ws.len(), " ");
    proof {
        reveal_strlit(" ");
        assert(" "@ =~= seq![' ']);
        assert(views(ws@).subrange(0, ws.len() as int) =~= views(ws@));
    }
    text
}

// ---------------------------------------------------------------------------
// The shown body
// ---------------------------------------------------------------------------

/// How a body of the given media type is shown in the given format: an
/// image as a JSON object with its Base64 data; otherwise the body decoded
/// as UTF-8 (invalid sequences replaced), converted to Markdown or to plain
/// text when it is HTML and that format is asked for.
pub open spec fn shown_body(format: WebFetchFormat, mime: Seq<char>, bytes: Seq<u8>) -> Result<Seq<char>, Seq<char>> {
    match image_mime_from_spec(mime) {
        Some(m) => Ok(json_string_object(image_fields(base64_standard(bytes), m))),
        None => {
            let body = utf8_lossy(bytes);
            match format {
                WebFetchFormat::Html => Ok(body),
                WebFetchFormat::Markdown => if is_html_spec(mime) {
                    html_to_markdown(body, markdown_skip())
                } else {
                    Ok(body)
                },
                WebFetchFormat::Text => if is_html_spec(mime) {
                    Ok(page_text(body))
                } else {
                    Ok(body)
                },
            }
        },
    }
}

/// The shown body of a response of media type `mime` (see `mime_of`); the
/// converter's error text when HTML cannot be turned into Markdown.
pub fn render_body(format: WebFetchFormat, mime: &str, bytes: &[u8]) -> (r: Result<String, String>)
    ensures
        match shown_body(format, mime@, bytes@) {
            Ok(s) => r is Ok && r->Ok_0@ == s,
            Err(e) => r is Err && r->Err_0@ == e,
        },
{
    if let Some(image_mime) = image_mime_from_content_type(mime) {
        return Ok(image_payload(bytes, image_mime));
    }
    let body = decode_lossy(bytes);
    let mc = chars_of(mime);
    let is_html = chars_eq_str(&mc, "text/html") || chars_eq_str(&mc, "application/xhtml+xml");
    match format {
        WebFetchFormat::Html => Ok(body),
        WebFetchFormat::Markdown => if is_html {
            convert_html_to_markdown(body.as_str())
        } else {
            Ok(body)
        },
        WebFetchFormat::Text => if is_html {
            Ok(extract_text_from_html(body.as_str()))
        } else {
            Ok(body)
        },
    }
}

/// The answer of a fetch: the URL, the content type in parentheses, a blank
/// line, then the shown body.
pub fn fetch_output(url: &str, content_type: &str, body: &str) -> (r: String)
    ensures
        r@ == url@ + " ("@ + content_type@ + ")\n\n"@ + body@,
{
    let mut s = String::from_str(url);
    s.append(" (");
    s.append(content_type);
    s.append(")\n\n");
    s.append(body);
    s
}


/// The answer of a fetch of `url` whose `Content-Type` header is
/// `content_type` (empty when absent): an image alone as its JSON object;
/// anything else as `fetch_output` of the shown body.
pub open spec fn fetch_answer_spec(url: Seq<char>, content_type: Seq<char>, format: WebFetchFormat, bytes: Seq<u8>) -> Result<Seq<char>, Seq<char>> {
    let mime = media_type(content_type);
    match image_mime_from_spec(mime) {
        Some(_) => shown_body(format, mime, bytes),
        None => match shown_body(format, mime, bytes) {
            Ok(b) => Ok(url + " ("@ + content_type + ")\n\n"@ + b),
            Err(e) => Err(e),
        },
    }
}

/// The answer of a fetch, from the URL, the `Content-Type` value, the
/// format and the body; the converter's error text when HTML cannot be
/// turned into Markdown.
pub fn fetch_answer(url: &str, content_type: &str, format: WebFetchFormat, bytes: &[u8]) -> (r: Result<String, String>)
    ensures
        match fetch_answer_spec(url@, content_type@, format, bytes@) {
            Ok(s) => r is Ok && r->Ok_0@ == s,
            Err(e) => r is Err && r->Err_0@ == e,
        },
{
    let mime = mime_of(content_type);
    let is_image = image_mime_from_content_type(mime.as_str()).is_some();
    let body = render_body(format, mime.as_str(), bytes);
    if is_image {
        return body;
    }
    match body {
        Ok(b) => Ok(fetch_output(url, content_type, b.as_str())),
        Err(e) => Err(e),
    }
}

} // verus!
