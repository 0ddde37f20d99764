//! What the Markdown syntax carries beyond CommonMark: the Confluence
//! directives written as HTML (`<!--cf:…-->` markers, `<details>`,
//! `<!--cf-raw:…-->`) and the `confluence://` URIs of resource links and
//! images, with the proofs that each reads back what the renderer writes.
use vstd::prelude::*;

use crate::ast::{
    image_source_v, inline_v, link_target_v, macro_v, opt_v, params_v, ImageSource,
    ImageSourceV, Inline, InlineV, LinkTarget, LinkTargetV, Macro, MacroBody, MacroBodyV, MacroV,
};
use crate::markdown::render::{
    image_url, link_url, macro_marker, marker_params, marker_value, raw_marker,
};
use crate::text::{
    chars_eq, chars_of, contains, ends_with, find, find_char_from, find_from, find_ws,
    find_ws_from, is_ws, lemma_contains_skip, lemma_find, lemma_find_char, lemma_find_char_concat,
    lemma_find_ws_is, lemma_replace_char_inverse, lemma_trim_end, lemma_trim_start,
    lemma_trim_start_len, occurs_at, occurs_at_exec, replace, replace_str, slice_chars, split,
    starts_with, str_eq, string_of, strip_prefix, strip_suffix, trim, trim_chars, trim_end,
    trim_start, trim_start_chars,
};
use crate::uri::{decode_uri, decode_uri_component, encode_uri, lemma_uri_roundtrip};
use vstd::utf8::{encode_utf8, is_ascii_chars};

verus! {

// ---------------------------------------------------------------------------
// Markers: Confluence directives carried as HTML comments or `<details>`
// ---------------------------------------------------------------------------

/// A Confluence directive carried in the Markdown as an HTML comment or a
/// `<details>` element.
pub enum Marker {
    /// `<!--cf:NAME …-->` or `<details>`: opens an (initially body-less) macro.
    Open(Macro),
    /// `<!--/cf:NAME-->` or `</details>`: closes the matching open macro.
    Close(String),
    /// `<!--cf-raw:…-->`: preserved Confluence markup.
    Raw(String),
    /// Any other raw HTML, kept verbatim.
    Other(String),
}

pub ghost enum MarkerV {
    Open(MacroV),
    Close(Seq<char>),
    Raw(Seq<char>),
    Other(Seq<char>),
}

pub open spec fn marker_v(m: Marker) -> MarkerV {
    match m {
        Marker::Open(m) => MarkerV::Open(macro_v(m)),
        Marker::Close(n) => MarkerV::Close(n@),
        Marker::Raw(r) => MarkerV::Raw(r@),
        Marker::Other(o) => MarkerV::Other(o@),
    }
}

/// The inside of an HTML comment opened by `tag` and closed by `-->`.
pub open spec fn strip_comment(h: Seq<char>, tag: Seq<char>) -> Option<Seq<char>> {
    if starts_with(h, tag) && ends_with(h.skip(tag.len() as int), "-->"@) {
        Some(h.skip(tag.len() as int).take(h.len() - tag.len() - "-->"@.len()))
    } else {
        None
    }
}

/// A marker parameter value with `--&gt;` and `&quot;` decoded.
pub open spec fn unescape_marker_value(v: Seq<char>) -> Seq<char> {
    replace(replace(v, "--&gt;"@, "-->"@), "&quot;"@, "\""@)
}

/// The `k="v"` parameters of a marker; `None` when one is malformed.
pub open spec fn parse_marker_params(rest: Seq<char>) -> Option<Seq<(Seq<char>, Seq<char>)>>
    decreases rest.len(),
{
    if rest.len() == 0 {
        Some(seq![])
    } else {
        let eq = find(rest, seq!['=']);
        if eq >= rest.len() {
            None
        } else {
            let key = trim(rest.take(eq));
            let a = trim_start(rest.skip(eq + 1));
            if !(a.len() > 0 && a[0] == '"') {
                None
            } else {
                let after = a.drop_first();
                let end = find(after, seq!['"']);
                if end >= after.len() {
                    None
                } else {
                    proof {
                        lemma_find_char(rest, '=');
                        lemma_find_char(after, '"');
                        lemma_trim_start_len(rest.skip(eq + 1));
                        lemma_trim_start_len(after.skip(end + 1));
                    }
                    match parse_marker_params(trim_start(after.skip(end + 1))) {
                        Some(ps) => Some(
                            seq![(key, unescape_marker_value(after.take(end)))] + ps,
                        ),
                        None => None,
                    }
                }
            }
        }
    }
}

/// A `<!--cf:NAME k="v" …-->` marker as a body-less macro.
pub open spec fn spec_from_marker(html: Seq<char>) -> Option<MacroV> {
    match strip_comment(trim(html), "<!--cf:"@) {
        None => None,
        Some(x) => {
            let inner = trim(x);
            let k = find_ws(inner);
            let name = if k < inner.len() {
                inner.take(k)
            } else {
                inner
            };
            let rest = if k < inner.len() {
                trim_start(inner.skip(k + 1))
            } else {
                seq![]
            };
            match parse_marker_params(rest) {
                Some(ps) => Some(MacroV { name, params: ps, body: MacroBodyV::Empty }),
                None => None,
            }
        }
    }
}

/// The `<summary>` text of a `<details>` element, empty when there is none.
pub open spec fn details_title(h: Seq<char>) -> Seq<char> {
    let i = find(h, "<summary>"@);
    if i < h.len() {
        let rest = h.skip(i + "<summary>"@.len());
        let j = find(rest, "</summary>"@);
        if j < rest.len() {
            rest.take(j)
        } else {
            seq![]
        }
    } else {
        seq![]
    }
}

/// `<!--cf-raw:…-->` decoded back to the preserved markup.
pub open spec fn unescape_raw(inner: Seq<char>) -> Seq<char> {
    replace(replace(inner, "&#10;"@, "\n"@), "--&gt;"@, "-->"@)
}

/// What an HTML block or inline HTML means.
pub open spec fn spec_marker(html: Seq<char>) -> MarkerV {
    let h = trim(html);
    if strip_comment(h, "<!--/cf:"@) is Some {
        MarkerV::Close(trim(strip_comment(h, "<!--/cf:"@)->0))
    } else if strip_comment(h, "<!--cf-raw:"@) is Some {
        MarkerV::Raw(unescape_raw(strip_comment(h, "<!--cf-raw:"@)->0))
    } else if spec_from_marker(h) is Some {
        MarkerV::Open(spec_from_marker(h)->0)
    } else if starts_with(h, "<details"@) {
        MarkerV::Open(
            MacroV {
                name: "expand"@,
                params: if details_title(h).len() > 0 {
                    seq![("title"@, details_title(h))]
                } else {
                    seq![]
                },
                body: MacroBodyV::Empty,
            },
        )
    } else if starts_with(h, "</details"@) {
        MarkerV::Close("expand"@)
    } else {
        MarkerV::Other(h)
    }
}

/// Inline raw HTML: a macro, preserved markup, or verbatim HTML.
pub open spec fn spec_from_html(html: Seq<char>) -> InlineV {
    match spec_marker(html) {
        MarkerV::Open(m) => InlineV::Macro(m),
        MarkerV::Raw(r) => InlineV::RawConfluence(r),
        _ => InlineV::RawConfluence(html),
    }
}

// ---------------------------------------------------------------------------
// confluence:// URIs
// ---------------------------------------------------------------------------

/// The decoded `k=v` pairs of the query segments; a segment without `=` is
/// skipped.
pub open spec fn query_pairs(segs: Seq<Seq<char>>) -> Seq<(Seq<char>, Seq<char>)>
    decreases segs.len(),
{
    if segs.len() == 0 {
        seq![]
    } else {
        let p = segs.last();
        let k = find(p, seq!['=']);
        query_pairs(segs.drop_last()) + if k < p.len() {
            seq![(decode_uri(p.take(k)), decode_uri(p.skip(k + 1)))]
        } else {
            seq![]
        }
    }
}

/// The value of the first pair with the given key.
pub open spec fn lookup(ps: Seq<(Seq<char>, Seq<char>)>, key: Seq<char>) -> Option<Seq<char>>
    decreases ps.len(),
{
    if ps.len() == 0 {
        None
    } else if ps[0].0 == key {
        Some(ps[0].1)
    } else {
        lookup(ps.drop_first(), key)
    }
}

pub open spec fn or_empty(o: Option<Seq<char>>) -> Seq<char> {
    match o {
        Some(s) => s,
        None => seq![],
    }
}

/// The host of a `confluence://` URI and its query.
pub open spec fn uri_host(rest: Seq<char>) -> Seq<char> {
    let k = find(rest, seq!['?']);
    if k < rest.len() {
        rest.take(k)
    } else {
        rest
    }
}

pub open spec fn uri_query(rest: Seq<char>) -> Seq<char> {
    let k = find(rest, seq!['?']);
    if k < rest.len() {
        rest.skip(k + 1)
    } else {
        seq![]
    }
}

/// True when `url` is a `confluence://` URI naming a resource.
pub open spec fn is_resource_uri(url: Seq<char>) -> bool {
    &&& starts_with(url, "confluence://"@)
    &&& {
        let host = uri_host(url.skip("confluence://"@.len() as int));
        host == "page"@ || host == "content"@ || host == "attachment"@ || host == "anchor"@
    }
}

/// A link destination: a `confluence://` resource URI, or an external URL.
pub open spec fn spec_from_url(url: Seq<char>) -> LinkTargetV {
    if !starts_with(url, "confluence://"@) {
        LinkTargetV::External(url)
    } else {
        let rest = url.skip("confluence://"@.len() as int);
        let host = uri_host(rest);
        let ps = query_pairs(split(uri_query(rest), '&'));
        if host == "page"@ {
            LinkTargetV::Page { space: lookup(ps, "space"@), title: or_empty(lookup(ps, "title"@)) }
        } else if host == "content"@ {
            LinkTargetV::Content(or_empty(lookup(ps, "id"@)))
        } else if host == "attachment"@ {
            LinkTargetV::Attachment(or_empty(lookup(ps, "file"@)))
        } else if host == "anchor"@ {
            LinkTargetV::Anchor(or_empty(lookup(ps, "name"@)))
        } else {
            LinkTargetV::External(url)
        }
    }
}

/// An image source: a `confluence://attachment` URI, or an external URL.
pub open spec fn spec_image_from_url(url: Seq<char>) -> ImageSourceV {
    match spec_from_url(url) {
        LinkTargetV::Attachment(f) => ImageSourceV::Attachment(f),
        _ => ImageSourceV::External(url),
    }
}

// ---------------------------------------------------------------------------
// Executable
// ---------------------------------------------------------------------------

fn strip_comment_exec(h: &Vec<char>, tag: &str) -> (r: Option<Vec<char>>)
    ensures
        r is Some <==> strip_comment(h@, tag@) is Some,
        r matches Some(x) ==> x@ == strip_comment(h@, tag@)->0,
{
    let t = chars_of(tag);
    match strip_prefix(h, &t) {
        Some(rest) => {
            let close = chars_of("-->");
            match strip_suffix(&rest, &close) {
                Some(x) => {
                    assert(x@ =~= h@.skip(tag@.len() as int).take(
                        h@.len() - tag@.len() - "-->"@.len(),
                    ));
                    Some(x)
                },
                None => None,
            }
        },
        None => None,
    }
}

fn unescape_marker_value_exec(v: &Vec<char>) -> (r: Vec<char>)
    ensures
        r@ == unescape_marker_value(v@),
{
    let a = replace_str(v, "--&gt;", "-->");
    replace_str(&a, "&quot;", "\"")
}

impl Macro {
    /// Parses a `<!--cf:NAME k="v" …-->` marker into a body-less macro, or
    /// `None` if the comment is not a well-formed `cf:` marker.
    pub fn from_marker(html: &str) -> (r: Option<Macro>)
        ensures
            r is Some <==> spec_from_marker(html@) is Some,
            r matches Some(m) ==> macro_v(m) == spec_from_marker(html@)->0,
    {
        let v = chars_of(html);
        let h = trim_chars(&v);
        let x = match strip_comment_exec(&h, "<!--cf:") {
            Some(x) => x,
            None => return None,
        };
        let inner = trim_chars(&x);
        let k = find_ws_from(&inner, 0);
        assert(inner@.skip(0) =~= inner@);
        let name;
        let mut rest;
        if k < inner.len() {
            name = slice_chars(&inner, 0, k);
            let tail = slice_chars(&inner, k + 1, inner.len());
            rest = trim_start_chars(&tail);
            assert(tail@ =~= inner@.skip(k + 1));
            assert(name@ =~= inner@.take(k as int));
        } else {
            name = slice_chars(&inner, 0, inner.len());
            rest = Vec::new();
            assert(name@ =~= inner@);
        }
        let ghost rest0 = rest@;
        let mut params: Vec<(String, String)> = Vec::new();
        assert(params_v(params@) + seq![] =~= seq![]);
        assert(spec_from_marker(html@) == match parse_marker_params(rest0) {
            Some(ps) => Some(MacroV { name: name@, params: ps, body: MacroBodyV::Empty }),
            None => None,
        });
        while rest.len() > 0
            invariant
                spec_from_marker(html@) == match parse_marker_params(rest0) {
                    Some(ps) => Some(MacroV { name: name@, params: ps, body: MacroBodyV::Empty }),
                    None => None,
                },
                parse_marker_params(rest0) == match parse_marker_params(rest@) {
                    Some(ps) => Some(params_v(params@) + ps),
                    None => None,
                },
            decreases rest.len(),
        {
            let ghost cur = rest@;
            let eq = find_char_from(&rest, '=', 0);
            assert(rest@.skip(0) =~= rest@);
            if eq >= rest.len() {
                return None;
            }
            let key = trim_chars(&slice_chars(&rest, 0, eq));
            assert(rest@.subrange(0, eq as int) =~= rest@.take(eq as int));
            let tail = slice_chars(&rest, eq + 1, rest.len());
            assert(tail@ =~= rest@.skip(eq + 1));
            let a = trim_start_chars(&tail);
            if !(a.len() > 0 && a[0] == '"') {
                return None;
            }
            let after = slice_chars(&a, 1, a.len());
            assert(after@ =~= a@.drop_first());
            let end = find_char_from(&after, '"', 0);
            assert(after@.skip(0) =~= after@);
            if end >= after.len() {
                return None;
            }
            let raw_value = slice_chars(&after, 0, end);
            assert(raw_value@ =~= after@.take(end as int));
            let value = unescape_marker_value_exec(&raw_value);
            let next_tail = slice_chars(&after, end + 1, after.len());
            assert(next_tail@ =~= after@.skip(end + 1));
            let next = trim_start_chars(&next_tail);
            proof {
                lemma_find_char(cur, '=');
                lemma_find_char(after@, '"');
                lemma_trim_start_len(cur.skip(eq + 1));
                lemma_trim_start_len(after@.skip(end + 1));
            }
            let ghost pv = params_v(params@);
            params.push((string_of(&key), string_of(&value)));
            proof {
                assert(params_v(params@) =~= pv.push((key@, value@)));
                match parse_marker_params(next@) {
                    Some(ps) => {
                        assert(pv + (seq![(key@, value@)] + ps) =~= params_v(params@) + ps);
                    },
                    None => {},
                }
            }
            rest = next;
        }
        proof {
            assert(params_v(params@) + seq![] =~= params_v(params@));
        }
        Some(Macro { name: string_of(&name), params, body: MacroBody::Empty })
    }
}

impl Marker {
    /// Interprets an HTML block or inline HTML as a Confluence directive.
    pub fn parse(html: &str) -> (r: Marker)
        ensures
            marker_v(r) == spec_marker(html@),
    {
        let v = chars_of(html);
        let h = trim_chars(&v);
        if let Some(name) = strip_comment_exec(&h, "<!--/cf:") {
            let n = trim_chars(&name);
            return Marker::Close(string_of(&n));
        }
        if let Some(inner) = strip_comment_exec(&h, "<!--cf-raw:") {
            let a = replace_str(&inner, "&#10;", "\n");
            let b = replace_str(&a, "--&gt;", "-->");
            return Marker::Raw(string_of(&b));
        }
        let hs = string_of(&h);
        if let Some(m) = Macro::from_marker(hs.as_str()) {
            return Marker::Open(m);
        }
        let details = chars_of("<details");
        if occurs_at_exec(&h, &details, 0) {
            let title = details_title_exec(&h);
            let mut params: Vec<(String, String)> = Vec::new();
            if title.len() > 0 {
                params.push((string_of(&chars_of("title")), string_of(&title)));
            }
            let r = Marker::Open(
                Macro { name: string_of(&chars_of("expand")), params, body: MacroBody::Empty },
            );
            assert(params_v(params@) =~= if details_title(h@).len() > 0 {
                seq![("title"@, details_title(h@))]
            } else {
                seq![]
            });
            return r;
        }
        let close = chars_of("</details");
        if occurs_at_exec(&h, &close, 0) {
            return Marker::Close(string_of(&chars_of("expand")));
        }
        Marker::Other(string_of(&h))
    }
}

fn details_title_exec(h: &Vec<char>) -> (r: Vec<char>)
    ensures
        r@ == details_title(h@),
{
    let open = chars_of("<summary>");
    let close = chars_of("</summary>");
    if open.len() == 0 || close.len() == 0 {
        proof {
            reveal_strlit("<summary>");
            reveal_strlit("</summary>");
        }
        return Vec::new();
    }
    assert(h@.skip(0) =~= h@);
    let i = find_from(h, &open, 0);
    if i < h.len() {
        proof {
            lemma_find(h@, open@);
        }
        let rest = slice_chars(h, i + open.len(), h.len());
        assert(rest@ =~= h@.skip(i + "<summary>"@.len()));
        assert(rest@.skip(0) =~= rest@);
        let j = find_from(&rest, &close, 0);
        if j < rest.len() {
            let t = slice_chars(&rest, 0, j);
            assert(t@ =~= rest@.take(j as int));
            t
        } else {
            Vec::new()
        }
    } else {
        Vec::new()
    }
}

impl Inline {
    /// Interprets inline raw HTML as a macro, preserved markup, or verbatim
    /// HTML. Close markers and `<details>` are block-level only, so anything
    /// that is not an open macro or `cf-raw` is kept exactly as written.
    pub fn from_html(html: &str) -> (r: Inline)
        ensures
            inline_v(r) == spec_from_html(html@),
    {
        match Marker::parse(html) {
            Marker::Open(m) => Inline::Macro(m),
            Marker::Raw(raw) => Inline::RawConfluence(raw),
            _ => Inline::RawConfluence(string_of(&chars_of(html))),
        }
    }
}

/// Decodes a percent-encoded URI component.
fn decode_component(v: &Vec<char>) -> (r: String)
    ensures
        r@ == decode_uri(v@),
{
    let s = string_of(v);
    decode_uri_component(s.as_str())
}

/// The value of the first pair with the given key.
fn lookup_exec(ps: &Vec<(String, String)>, key: &str) -> (r: Option<String>)
    ensures
        opt_v(r) == lookup(params_v(ps@), key@),
{
    let mut i: usize = 0;
    assert(params_v(ps@).skip(0) =~= params_v(ps@));
    while i < ps.len()
        invariant
            i <= ps.len(),
            lookup(params_v(ps@), key@) == lookup(params_v(ps@).skip(i as int), key@),
        decreases ps.len() - i,
    {
        proof {
            assert(params_v(ps@).skip(i as int).drop_first() =~= params_v(ps@).skip(i + 1));
            assert(params_v(ps@).skip(i as int)[0] == (ps@[i as int].0@, ps@[i as int].1@));
        }
        if str_eq(ps[i].0.as_str(), key) {
            return Some(string_of(&chars_of(ps[i].1.as_str())));
        }
        i += 1;
    }
    None
}

/// The decoded `k=v` pairs of a query string.
fn query_pairs_exec(q: &Vec<char>) -> (r: Vec<(String, String)>)
    ensures
        params_v(r@) == query_pairs(split(q@, '&')),
{
    let mut out: Vec<(String, String)> = Vec::new();
    let ghost mut done: Seq<Seq<char>> = seq![];
    let mut i: usize = 0;
    assert(q@.skip(0) =~= q@);
    assert(done + split(q@, '&') =~= split(q@, '&'));
    loop
        invariant
            i <= q.len(),
            split(q@, '&') == done + split(q@.skip(i as int), '&'),
            params_v(out@) == query_pairs(done),
        decreases q.len() - i,
    {
        let ghost t = q@.skip(i as int);
        let k = find_char_from(q, '&', i);
        proof {
            lemma_find_char(t, '&');
        }
        let seg = slice_chars(q, i, k);
        assert(seg@ =~= if k < q.len() {
            t.take(k - i)
        } else {
            t
        });
        let eq = find_char_from(&seg, '=', 0);
        assert(seg@.skip(0) =~= seg@);
        let ghost before = params_v(out@);
        if eq < seg.len() {
            let key = decode_component(&slice_chars(&seg, 0, eq));
            let value = decode_component(&slice_chars(&seg, eq + 1, seg.len()));
            proof {
                assert(seg@.subrange(0, eq as int) =~= seg@.take(eq as int));
                assert(seg@.subrange(eq + 1, seg@.len() as int) =~= seg@.skip(eq + 1));
            }
            out.push((key, value));
            assert(params_v(out@) =~= before.push((decode_uri(seg@.take(eq as int)), decode_uri(
                seg@.skip(eq + 1),
            ))));
        }
        proof {
            let nd = done.push(seg@);
            assert(nd.drop_last() =~= done);
            assert(params_v(out@) =~= query_pairs(nd));
            done = nd;
        }
        if k >= q.len() {
            proof {
                assert(split(t, '&') == seq![t]);
                assert(done =~= split(q@, '&'));
            }
            return out;
        }
        proof {
            assert(t.skip(k - i + 1) =~= q@.skip(k + 1));
            assert(split(t, '&') == seq![t.take(k - i)] + split(q@.skip(k + 1), '&'));
            assert(done + split(q@.skip(k + 1), '&') =~= done.drop_last() + split(t, '&'));
        }
        i = k + 1;
    }
}

impl LinkTarget {
    /// Reads a Markdown link destination: a `confluence://` URI naming a page,
    /// content id, attachment or anchor, or else an external URL.
    pub fn from_url(url: &str) -> (r: LinkTarget)
        ensures
            link_target_v(r) == spec_from_url(url@),
    {
        let u = chars_of(url);
        let scheme = chars_of("confluence://");
        let rest = match strip_prefix(&u, &scheme) {
            Some(rest) => rest,
            None => return LinkTarget::External(string_of(&u)),
        };
        let k = find_char_from(&rest, '?', 0);
        assert(rest@.skip(0) =~= rest@);
        let host;
        let query;
        if k < rest.len() {
            host = slice_chars(&rest, 0, k);
            query = slice_chars(&rest, k + 1, rest.len());
            assert(host@ =~= uri_host(rest@));
            assert(query@ =~= uri_query(rest@));
        } else {
            host = slice_chars(&rest, 0, rest.len());
            query = Vec::new();
            assert(host@ =~= uri_host(rest@));
            assert(query@ =~= uri_query(rest@));
        }
        let ps = query_pairs_exec(&query);
        if chars_eq(&host, &chars_of("page")) {
            let space = lookup_exec(&ps, "space");
            let title = match lookup_exec(&ps, "title") {
                Some(t) => t,
                None => String::new(),
            };
            LinkTarget::Page { space, title }
        } else if chars_eq(&host, &chars_of("content")) {
            LinkTarget::Content(
                match lookup_exec(&ps, "id") {
                    Some(t) => t,
                    None => String::new(),
                },
            )
        } else if chars_eq(&host, &chars_of("attachment")) {
            LinkTarget::Attachment(
                match lookup_exec(&ps, "file") {
                    Some(t) => t,
                    None => String::new(),
                },
            )
        } else if chars_eq(&host, &chars_of("anchor")) {
            LinkTarget::Anchor(
                match lookup_exec(&ps, "name") {
                    Some(t) => t,
                    None => String::new(),
                },
            )
        } else {
            LinkTarget::External(string_of(&u))
        }
    }
}

impl ImageSource {
    /// Reads a Markdown image source: a `confluence://attachment` URI, or an
    /// external URL.
    pub fn from_url(url: &str) -> (r: ImageSource)
        ensures
            image_source_v(r) == spec_image_from_url(url@),
    {
        match LinkTarget::from_url(url) {
            LinkTarget::Attachment(file) => ImageSource::Attachment(file),
            _ => ImageSource::External(string_of(&chars_of(url))),
        }
    }
}


// ---------------------------------------------------------------------------
// The confluence:// URI round trip
// ---------------------------------------------------------------------------

/// ASCII text without `%`, `=`, `&` or `?`.
pub open spec fn plain(k: Seq<char>) -> bool {
    forall|i: int|
        0 <= i < k.len() ==> '\0' <= #[trigger] k[i] <= '\u{7f}' && k[i] != '%' && k[i] != '='
            && k[i] != '&' && k[i] != '?'
}

/// A `k=v` query pair with the value percent-encoded.
pub open spec fn kv(k: Seq<char>, v: Seq<char>) -> Seq<char> {
    k + seq!['='] + encode_uri(v)
}

proof fn lemma_percent_decode_plain(b: Seq<u8>)
    requires
        forall|i: int| 0 <= i < b.len() ==> #[trigger] b[i] != 37u8,
    ensures
        crate::uri::percent_decode_bytes(b) == b,
    decreases b.len(),
{
    if b.len() > 0 {
        let r = b.skip(1);
        assert forall|i: int| 0 <= i < r.len() implies #[trigger] r[i] != 37u8 by {
            assert(r[i] == b[i + 1]);
        }
        lemma_percent_decode_plain(r);
        assert(seq![b[0]] + r =~= b);
    }
}

/// Plain text decodes to itself.
proof fn lemma_decode_plain(k: Seq<char>)
    requires
        plain(k),
    ensures
        decode_uri(k) == k,
{
    assert(is_ascii_chars(k));
    vstd::utf8::is_ascii_chars_encode_utf8(k);
    let b = encode_utf8(k);
    assert forall|i: int| 0 <= i < b.len() implies #[trigger] b[i] != 37u8 by {
        assert(k[i] as u8 == b[i]);
    }
    lemma_percent_decode_plain(b);
    vstd::utf8::encode_utf8_valid_utf8(k);
    vstd::utf8::encode_utf8_decode_utf8(k);
}

proof fn lemma_kv_pair(k: Seq<char>, v: Seq<char>, segs: Seq<Seq<char>>)
    requires
        plain(k),
    ensures
        forall|i: int| 0 <= i < kv(k, v).len() ==> kv(k, v)[i] != '&',
        query_pairs(segs.push(kv(k, v))) == query_pairs(segs).push((k, v)),
{
    lemma_uri_roundtrip(v);
    let e = encode_uri(v);
    let p = kv(k, v);
    assert forall|i: int| 0 <= i < p.len() implies p[i] != '&' by {
        if i < k.len() {
            assert(p[i] == k[i]);
        } else if i > k.len() {
            assert(p[i] == e[i - k.len() - 1]);
        }
    }
    assert(forall|i: int| 0 <= i < k.len() ==> k[i] != '=');
    lemma_find_char_concat(k, seq!['='] + e, '=');
    assert(k + (seq!['='] + e) =~= p);
    lemma_find_char(seq!['='] + e, '=');
    assert((seq!['='] + e)[0] == '=');
    assert(find(p, seq!['=']) == k.len());
    assert(p.take(k.len() as int) =~= k);
    assert(p.skip(k.len() + 1int) =~= e);
    lemma_decode_plain(k);
    assert(decode_uri(p.take(k.len() as int)) == k);
    assert(decode_uri(p.skip(k.len() + 1int)) == v);
    let all = segs.push(p);
    assert(all.last() == p);
    assert(all.drop_last() =~= segs);
    assert(query_pairs(all) =~= query_pairs(segs).push((k, v)));
}

proof fn lemma_split_none(a: Seq<char>, c: char)
    requires
        forall|i: int| 0 <= i < a.len() ==> a[i] != c,
    ensures
        split(a, c) == seq![a],
{
    lemma_find_char(a, c);
    if find(a, seq![c]) < a.len() {
        assert(a[find(a, seq![c])] == c);
    }
}

proof fn lemma_split_concat(a: Seq<char>, b: Seq<char>, c: char)
    requires
        forall|i: int| 0 <= i < a.len() ==> a[i] != c,
    ensures
        split(a + seq![c] + b, c) == seq![a] + split(b, c),
{
    let s = a + seq![c] + b;
    lemma_find_char_concat(a, seq![c] + b, c);
    assert(a + (seq![c] + b) =~= s);
    lemma_find_char(seq![c] + b, c);
    assert((seq![c] + b)[0] == c);
    assert(find(s, seq![c]) == a.len());
    assert(s.take(a.len() as int) =~= a);
    assert(s.skip(a.len() + 1int) =~= b);
}

proof fn lemma_query_one(k: Seq<char>, v: Seq<char>)
    requires
        plain(k),
    ensures
        query_pairs(split(kv(k, v), '&')) == seq![(k, v)],
{
    lemma_kv_pair(k, v, seq![]);
    lemma_split_none(kv(k, v), '&');
    assert(Seq::<Seq<char>>::empty().push(kv(k, v)) =~= seq![kv(k, v)]);
    assert(query_pairs(Seq::<Seq<char>>::empty()) =~= Seq::<(Seq<char>, Seq<char>)>::empty());
    assert(Seq::<(Seq<char>, Seq<char>)>::empty().push((k, v)) =~= seq![(k, v)]);
}

proof fn lemma_query_two(k1: Seq<char>, v1: Seq<char>, k2: Seq<char>, v2: Seq<char>)
    requires
        plain(k1),
        plain(k2),
    ensures
        query_pairs(split(kv(k1, v1) + seq!['&'] + kv(k2, v2), '&')) == seq![(k1, v1), (k2, v2)],
{
    let empty = Seq::<Seq<char>>::empty();
    lemma_kv_pair(k1, v1, empty);
    lemma_kv_pair(k2, v2, empty.push(kv(k1, v1)));
    lemma_split_none(kv(k2, v2), '&');
    lemma_split_concat(kv(k1, v1), kv(k2, v2), '&');
    let segs = seq![kv(k1, v1), kv(k2, v2)];
    assert(split(kv(k1, v1) + seq!['&'] + kv(k2, v2), '&') =~= segs);
    assert(empty.push(kv(k1, v1)).push(kv(k2, v2)) =~= segs);
    assert(query_pairs(empty) =~= Seq::<(Seq<char>, Seq<char>)>::empty());
    assert(query_pairs(segs) =~= seq![(k1, v1), (k2, v2)]);
}

/// The URI of a resource: scheme, host, `?`, query.
proof fn lemma_resource_uri(host: Seq<char>, query: Seq<char>)
    requires
        plain(host),
        host.len() > 0,
    ensures
        starts_with("confluence://"@ + host + seq!['?'] + query, "confluence://"@),
        ({
            let rest = ("confluence://"@ + host + seq!['?'] + query).skip("confluence://"@.len() as int);
            uri_host(rest) == host && uri_query(rest) == query
        }),
{
    let url = "confluence://"@ + host + seq!['?'] + query;
    let n = "confluence://"@.len() as int;
    assert(url.subrange(0, n) =~= "confluence://"@);
    let rest = url.skip(n);
    assert(rest =~= host + (seq!['?'] + query));
    assert(forall|i: int| 0 <= i < host.len() ==> host[i] != '?');
    lemma_find_char_concat(host, seq!['?'] + query, '?');
    lemma_find_char(seq!['?'] + query, '?');
    assert((seq!['?'] + query)[0] == '?');
    assert(find(rest, seq!['?']) == host.len());
    assert(rest.take(host.len() as int) =~= host);
    assert(rest.skip(host.len() + 1int) =~= query);
}

proof fn lemma_words()
    ensures
        plain("page"@),
        plain("content"@),
        plain("attachment"@),
        plain("anchor"@),
        plain("space"@),
        plain("title"@),
        plain("id"@),
        plain("file"@),
        plain("name"@),
        "page"@.len() > 0,
        "content"@.len() > 0,
        "attachment"@.len() > 0,
        "anchor"@.len() > 0,
        "page"@ != "content"@,
        "page"@ != "attachment"@,
        "page"@ != "anchor"@,
        "content"@ != "attachment"@,
        "content"@ != "anchor"@,
        "attachment"@ != "anchor"@,
        "space"@ != "title"@,
        "confluence://page?"@ == "confluence://"@ + "page"@ + seq!['?'],
        "confluence://content?id="@ == "confluence://"@ + "content"@ + seq!['?'] + "id"@ + seq!['='],
        "confluence://attachment?file="@ == "confluence://"@ + "attachment"@ + seq!['?'] + "file"@
            + seq!['='],
        "confluence://anchor?name="@ == "confluence://"@ + "anchor"@ + seq!['?'] + "name"@ + seq!['='],
        "space="@ == "space"@ + seq!['='],
        "title="@ == "title"@ + seq!['='],
        "&"@ == seq!['&'],
{
    reveal_strlit("page");
    reveal_strlit("content");
    reveal_strlit("attachment");
    reveal_strlit("anchor");
    reveal_strlit("space");
    reveal_strlit("title");
    reveal_strlit("id");
    reveal_strlit("file");
    reveal_strlit("name");
    reveal_strlit("confluence://");
    reveal_strlit("confluence://page?");
    reveal_strlit("confluence://content?id=");
    reveal_strlit("confluence://attachment?file=");
    reveal_strlit("confluence://anchor?name=");
    reveal_strlit("space=");
    reveal_strlit("title=");
    reveal_strlit("&");
    assert("page"@[0] != "content"@[0]);
    assert("page"@[0] != "attachment"@[0]);
    assert("page"@[0] != "anchor"@[0]);
    assert("content"@[0] != "attachment"@[0]);
    assert("content"@[0] != "anchor"@[0]);
    assert("attachment"@.len() != "anchor"@.len());
    assert("space"@[0] != "title"@[0]);
    assert("confluence://page?"@ =~= "confluence://"@ + "page"@ + seq!['?']);
    assert("confluence://content?id="@ =~= "confluence://"@ + "content"@ + seq!['?'] + "id"@ + seq!['=']);
    assert("confluence://attachment?file="@ =~= "confluence://"@ + "attachment"@ + seq!['?']
        + "file"@ + seq!['=']);
    assert("confluence://anchor?name="@ =~= "confluence://"@ + "anchor"@ + seq!['?'] + "name"@
        + seq!['=']);
    assert("space="@ =~= "space"@ + seq!['=']);
    assert("title="@ =~= "title"@ + seq!['=']);
    assert("&"@ =~= seq!['&']);
}

/// Reading back the Markdown destination of a link target gives the target
/// again; an external URL that is itself a `confluence://` resource URI is the
/// one exception (it reads back as that resource).
pub proof fn lemma_link_url_roundtrip(t: LinkTarget)
    requires
        t matches LinkTarget::External(u) ==> !is_resource_uri(u@),
    ensures
        spec_from_url(link_url(t)) == link_target_v(t),
{
    lemma_words();
    match t {
        LinkTarget::External(u) => {},
        LinkTarget::Page { space, title } => {
            let host = "page"@;
            match space {
                Some(s) => {
                    let q = kv("space"@, s@) + seq!['&'] + kv("title"@, title@);
                    lemma_query_two("space"@, s@, "title"@, title@);
                    assert(link_url(t) =~= "confluence://"@ + host + seq!['?'] + q);
                    lemma_resource_uri(host, q);
                    let ps = seq![("space"@, s@), ("title"@, title@)];
                    assert(ps.drop_first() =~= seq![("title"@, title@)]);
                    assert(ps[0].0 != "title"@);
                    assert(lookup(ps.drop_first(), "title"@) == Some(title@));
                    assert(lookup(ps, "title"@) == Some(title@));
                    assert(lookup(ps, "space"@) == Some(s@));
                },
                None => {
                    let q = kv("title"@, title@);
                    lemma_query_one("title"@, title@);
                    assert(link_url(t) =~= "confluence://"@ + host + seq!['?'] + q);
                    lemma_resource_uri(host, q);
                    let ps = seq![("title"@, title@)];
                    assert(ps.drop_first() =~= Seq::<(Seq<char>, Seq<char>)>::empty());
                    assert(ps[0].0 != "space"@);
                    assert(lookup(ps.drop_first(), "space"@) == None::<Seq<char>>);
                    assert(lookup(ps, "space"@) == None::<Seq<char>>);
                },
            }
        },
        LinkTarget::Content(id) => {
            let q = kv("id"@, id@);
            lemma_query_one("id"@, id@);
            assert(link_url(t) =~= "confluence://"@ + "content"@ + seq!['?'] + q);
            lemma_resource_uri("content"@, q);
        },
        LinkTarget::Attachment(file) => {
            let q = kv("file"@, file@);
            lemma_query_one("file"@, file@);
            assert(link_url(t) =~= "confluence://"@ + "attachment"@ + seq!['?'] + q);
            lemma_resource_uri("attachment"@, q);
        },
        LinkTarget::Anchor(name) => {
            let q = kv("name"@, name@);
            lemma_query_one("name"@, name@);
            assert(link_url(t) =~= "confluence://"@ + "anchor"@ + seq!['?'] + q);
            lemma_resource_uri("anchor"@, q);
        },
    }
}

/// Reading back the Markdown source of an image gives the source again,
/// except for an external URL that is itself a `confluence://attachment` URI.
pub proof fn lemma_image_url_roundtrip(s: ImageSource)
    requires
        s matches ImageSource::External(u) ==> !(spec_from_url(u@) is Attachment),
    ensures
        spec_image_from_url(image_url(s)) == image_source_v(s),
{
    match s {
        ImageSource::External(u) => {},
        ImageSource::Attachment(f) => {
            lemma_link_url_roundtrip(LinkTarget::Attachment(f));
        },
    }
}

// ---------------------------------------------------------------------------
// The cf-raw marker round trip
// ---------------------------------------------------------------------------

/// A non-empty replacement of `-->` by `--&gt;` that starts with a character
/// other than `-` starts with that character of the text.
proof fn lemma_arrow_head(w: Seq<char>, ch: char)
    requires
        ch != '-',
        replace(w, "-->"@, "--&gt;"@).len() > 0,
        replace(w, "-->"@, "--&gt;"@)[0] == ch,
    ensures
        w.len() > 0,
        w[0] == ch,
        replace(w, "-->"@, "--&gt;"@) == seq![ch] + replace(w.drop_first(), "-->"@, "--&gt;"@),
{
    reveal_strlit("-->");
    reveal_strlit("--&gt;");
    if w.len() > 0 && starts_with(w, "-->"@) {
        assert(replace(w, "-->"@, "--&gt;"@)[0] == '-');
    }
}

/// Replacing `-->` by `--&gt;` and back gives the text again, when it holds
/// no `--&gt;`.
proof fn lemma_arrow_inverse(s: Seq<char>)
    requires
        !contains(s, "--&gt;"@),
    ensures
        replace(replace(s, "-->"@, "--&gt;"@), "--&gt;"@, "-->"@) == s,
    decreases s.len(),
{
    reveal_strlit("-->");
    reveal_strlit("--&gt;");
    let p = "-->"@;
    let r = "--&gt;"@;
    if s.len() == 0 {
        return;
    }
    let t = replace(s, p, r);
    if starts_with(s, p) {
        let rest = s.skip(3);
        if contains(rest, r) {
            lemma_contains_skip(s, r, 3);
        }
        lemma_arrow_inverse(rest);
        assert(t == r + replace(rest, p, r));
        assert(t.subrange(0, 6) =~= r);
        assert(t.skip(6) =~= replace(rest, p, r));
        assert(s.subrange(0, 3) == p);
        assert(p + rest =~= s);
    } else {
        let rest = s.drop_first();
        if contains(rest, r) {
            assert(rest =~= s.skip(1));
            lemma_contains_skip(s, r, 1);
        }
        lemma_arrow_inverse(rest);
        let u = replace(rest, p, r);
        assert(t == seq![s[0]] + u);
        if starts_with(t, r) {
            assert(t.subrange(0, 6) == r);
            assert(t[0] == r[0] && t[1] == r[1] && t[2] == r[2] && t[3] == r[3] && t[4] == r[4]
                && t[5] == r[5]) by {
                assert(t.subrange(0, 6)[0] == t[0]);
                assert(t.subrange(0, 6)[1] == t[1]);
                assert(t.subrange(0, 6)[2] == t[2]);
                assert(t.subrange(0, 6)[3] == t[3]);
                assert(t.subrange(0, 6)[4] == t[4]);
                assert(t.subrange(0, 6)[5] == t[5]);
            }
            // The second `-` comes from the text: a replacement there would
            // put another `-` where `&` stands.
            assert(rest.len() > 0);
            if starts_with(rest, p) {
                assert(u == r + replace(rest.skip(3), p, r));
                assert(t[2] == u[1]);
                assert(false);
            }
            assert(u == seq![rest[0]] + replace(rest.drop_first(), p, r));
            let w = rest.drop_first();
            let v = replace(w, p, r);
            assert(v[0] == t[2]);
            lemma_arrow_head(w, '&');
            let x = w.drop_first();
            assert(replace(x, p, r)[0] == t[3]);
            lemma_arrow_head(x, 'g');
            let y = x.drop_first();
            assert(replace(y, p, r)[0] == t[4]);
            lemma_arrow_head(y, 't');
            let z = y.drop_first();
            assert(replace(z, p, r)[0] == t[5]);
            lemma_arrow_head(z, ';');
            assert(s.subrange(0, 6) =~= r);
            assert(occurs_at(s, r, 0));
        }
        assert(t.drop_first() =~= u);
        assert(seq![s[0]] + rest =~= s);
    }
}

/// Replacing `-->` by `--&gt;` adds no `&#10;`.
proof fn lemma_arrow_keeps_newline_refs_out(s: Seq<char>)
    requires
        !contains(s, "&#10;"@),
    ensures
        !contains(replace(s, "-->"@, "--&gt;"@), "&#10;"@),
    decreases s.len(),
{
    reveal_strlit("-->");
    reveal_strlit("--&gt;");
    reveal_strlit("&#10;");
    let p = "-->"@;
    let r = "--&gt;"@;
    let n = "&#10;"@;
    if s.len() == 0 {
        return;
    }
    let t = replace(s, p, r);
    if starts_with(s, p) {
        let rest = s.skip(3);
        if contains(rest, n) {
            lemma_contains_skip(s, n, 3);
        }
        lemma_arrow_keeps_newline_refs_out(rest);
        let u = replace(rest, p, r);
        assert(t == r + u);
        assert forall|i: int| !occurs_at(t, n, i) by {
            if occurs_at(t, n, i) {
                assert(t.subrange(i, i + 5)[0] == t[i]);
                assert(t.subrange(i, i + 5)[1] == t[i + 1]);
                if i < 6 {
                    assert(t[i] == r[i]);
                    if i + 1 < 6 {
                        assert(t[i + 1] == r[i + 1]);
                    }
                } else {
                    assert(t.subrange(i, i + 5) =~= u.subrange(i - 6, i - 6 + 5));
                    assert(occurs_at(u, n, i - 6));
                }
            }
        }
    } else {
        let rest = s.drop_first();
        if contains(rest, n) {
            assert(rest =~= s.skip(1));
            lemma_contains_skip(s, n, 1);
        }
        lemma_arrow_keeps_newline_refs_out(rest);
        let u = replace(rest, p, r);
        assert(t == seq![s[0]] + u);
        assert forall|i: int| !occurs_at(t, n, i) by {
            if occurs_at(t, n, i) {
                if i == 0 {
                    assert(t.subrange(0, 5) == n);
                    assert(t.subrange(0, 5)[0] == t[0]);
                    assert(t.subrange(0, 5)[1] == t[1]);
                    assert(t.subrange(0, 5)[2] == t[2]);
                    assert(t.subrange(0, 5)[3] == t[3]);
                    assert(t.subrange(0, 5)[4] == t[4]);
                    assert(u[0] == t[1]);
                    lemma_arrow_head(rest, '#');
                    let w = rest.drop_first();
                    assert(replace(w, p, r)[0] == t[2]);
                    lemma_arrow_head(w, '1');
                    let x = w.drop_first();
                    assert(replace(x, p, r)[0] == t[3]);
                    lemma_arrow_head(x, '0');
                    let y = x.drop_first();
                    assert(replace(y, p, r)[0] == t[4]);
                    lemma_arrow_head(y, ';');
                    assert(s.subrange(0, 5) =~= n);
                    assert(occurs_at(s, n, 0));
                } else {
                    assert(t.subrange(i, i + 5) =~= u.subrange(i - 1, i - 1 + 5));
                    assert(occurs_at(u, n, i - 1));
                }
            }
        }
    }
}

/// Escaping `-->` leaves no `-->` behind.
proof fn lemma_arrow_escaped(m: Seq<char>)
    ensures
        !contains(replace(m, "-->"@, "--&gt;"@), "-->"@),
    decreases m.len(),
{
    reveal_strlit("-->");
    reveal_strlit("--&gt;");
    let p = "-->"@;
    let r = "--&gt;"@;
    if m.len() == 0 {
        return;
    }
    let t = replace(m, p, r);
    if starts_with(m, p) {
        let rest = m.skip(3);
        lemma_arrow_escaped(rest);
        let u = replace(rest, p, r);
        assert(t == r + u);
        assert forall|i: int| !occurs_at(t, p, i) by {
            if occurs_at(t, p, i) {
                assert(t.subrange(i, i + 3)[0] == t[i]);
                assert(t.subrange(i, i + 3)[2] == t[i + 2]);
                if i + 2 < 6 {
                    assert(t[i + 2] == r[i + 2]);
                } else if i < 6 {
                    assert(t[i] == r[i]);
                } else {
                    assert(t.subrange(i, i + 3) =~= u.subrange(i - 6, i - 6 + 3));
                    assert(occurs_at(u, p, i - 6));
                }
            }
        }
    } else {
        let rest = m.drop_first();
        lemma_arrow_escaped(rest);
        let u = replace(rest, p, r);
        assert(t == seq![m[0]] + u);
        assert forall|i: int| !occurs_at(t, p, i) by {
            if occurs_at(t, p, i) {
                if i == 0 {
                    assert(t.subrange(0, 3)[0] == t[0]);
                    assert(t.subrange(0, 3)[1] == t[1]);
                    assert(t.subrange(0, 3)[2] == t[2]);
                    assert(u[0] == t[1]);
                    assert(u[1] == t[2]);
                    if rest.len() > 0 && starts_with(rest, p) {
                        assert(u[1] == r[1]);
                    } else {
                        assert(rest.len() > 0);
                        assert(u == seq![rest[0]] + replace(rest.drop_first(), p, r));
                        let w = rest.drop_first();
                        assert(replace(w, p, r)[0] == t[2]);
                        lemma_arrow_head(w, '>');
                        assert(m.subrange(0, 3) =~= p);
                    }
                } else {
                    assert(t.subrange(i, i + 3) =~= u.subrange(i - 1, i - 1 + 3));
                    assert(occurs_at(u, p, i - 1));
                }
            }
        }
    }
}

/// The first character of a text with one character replaced, when it is
/// not the replacement's first character.
proof fn lemma_replace_char_head(w: Seq<char>, c: char, r: Seq<char>, ch: char)
    requires
        r.len() > 0,
        ch != r[0],
        replace(w, seq![c], r).len() > 0,
        replace(w, seq![c], r)[0] == ch,
    ensures
        w.len() > 0,
        w[0] == ch,
        ch != c,
        replace(w, seq![c], r) == seq![ch] + replace(w.drop_first(), seq![c], r),
{
    if w.len() > 0 && starts_with(w, seq![c]) {
        assert(w.subrange(0, 1)[0] == w[0]);
        assert(replace(w, seq![c], r)[0] == r[0]);
    }
    if w.len() > 0 && w[0] == c {
        assert(w.subrange(0, 1) =~= seq![c]);
    }
    assert(w.skip(1) =~= w.drop_first());
}

/// Escaping line breaks as `&#10;` leaves no line break, and brings in no
/// `-->`.
proof fn lemma_newline_escaped(a: Seq<char>)
    ensures
        forall|i: int|
            0 <= i < replace(a, seq!['\n'], "&#10;"@).len() ==> #[trigger] replace(
                a,
                seq!['\n'],
                "&#10;"@,
            )[i] != '\n',
        !contains(a, "-->"@) ==> !contains(replace(a, seq!['\n'], "&#10;"@), "-->"@),
    decreases a.len(),
{
    reveal_strlit("-->");
    reveal_strlit("&#10;");
    let p = "-->"@;
    let n = seq!['\n'];
    let amp = "&#10;"@;
    if a.len() == 0 {
        return;
    }
    let e = replace(a, n, amp);
    let rest = a.drop_first();
    assert(rest =~= a.skip(1));
    if !contains(a, p) && contains(rest, p) {
        lemma_contains_skip(a, p, 1);
    }
    lemma_newline_escaped(rest);
    let u = replace(rest, n, amp);
    if starts_with(a, n) {
        assert(e == amp + u);
        assert forall|i: int| 0 <= i < e.len() implies #[trigger] e[i] != '\n' by {
            if i < 5 {
                assert(e[i] == amp[i]);
            } else {
                assert(e[i] == u[i - 5]);
            }
        }
        if !contains(a, p) {
            assert forall|i: int| !occurs_at(e, p, i) by {
                if occurs_at(e, p, i) {
                    assert(e.subrange(i, i + 3)[0] == e[i]);
                    if i < 5 {
                        assert(e[i] == amp[i]);
                    } else {
                        assert(e.subrange(i, i + 3) =~= u.subrange(i - 5, i - 5 + 3));
                        assert(occurs_at(u, p, i - 5));
                    }
                }
            }
        }
    } else {
        assert(a.subrange(0, 1) =~= seq![a[0]]);
        assert(a[0] != '\n');
        assert(e == seq![a[0]] + u);
        assert forall|i: int| 0 <= i < e.len() implies #[trigger] e[i] != '\n' by {
            if i > 0 {
                assert(e[i] == u[i - 1]);
            }
        }
        if !contains(a, p) {
            assert forall|i: int| !occurs_at(e, p, i) by {
                if occurs_at(e, p, i) {
                    if i == 0 {
                        assert(e.subrange(0, 3)[0] == e[0]);
                        assert(e.subrange(0, 3)[1] == e[1]);
                        assert(e.subrange(0, 3)[2] == e[2]);
                        assert(u[0] == e[1]);
                        lemma_replace_char_head(rest, '\n', amp, '-');
                        let w = rest.drop_first();
                        assert(replace(w, n, amp)[0] == e[2]);
                        lemma_replace_char_head(w, '\n', amp, '>');
                        assert(a.subrange(0, 3) =~= p);
                        assert(occurs_at(a, p, 0));
                    } else {
                        assert(e.subrange(i, i + 3) =~= u.subrange(i - 1, i - 1 + 3));
                        assert(occurs_at(u, p, i - 1));
                    }
                }
            }
        }
    }
}

/// The marker of preserved markup is a single line, and its only `-->` is
/// the one that closes it.
pub proof fn lemma_raw_marker_shape(markup: Seq<char>)
    ensures
        forall|i: int| 0 <= i < raw_marker(markup).len() ==> #[trigger] raw_marker(markup)[i] != '\n',
        forall|i: int|
            #![trigger occurs_at(raw_marker(markup), "-->"@, i)]
            occurs_at(raw_marker(markup), "-->"@, i) ==> i == raw_marker(markup).len() - 3,
{
    reveal_strlit("-->");
    reveal_strlit("--&gt;");
    reveal_strlit("&#10;");
    reveal_strlit("\n");
    reveal_strlit("<!--cf-raw:");
    let p = "-->"@;
    let a = replace(markup, p, "--&gt;"@);
    assert("\n"@ =~= seq!['\n']);
    let e = replace(a, seq!['\n'], "&#10;"@);
    let open = "<!--cf-raw:"@;
    let h = raw_marker(markup);
    assert(h == open + e + p);
    lemma_arrow_escaped(markup);
    lemma_newline_escaped(a);
    let l = 11 + e.len();
    assert(h.len() == l + 3);
    assert forall|i: int| 0 <= i < h.len() implies #[trigger] h[i] != '\n' by {
        if i < 11 {
            assert(h[i] == open[i]);
        } else if i < l {
            assert(h[i] == e[i - 11]);
        } else {
            assert(h[i] == p[i - l]);
        }
    }
    assert forall|i: int| occurs_at(h, p, i) implies i == h.len() - 3 by {
        assert(h.subrange(i, i + 3)[0] == h[i]);
        assert(h.subrange(i, i + 3)[1] == h[i + 1]);
        assert(h.subrange(i, i + 3)[2] == h[i + 2]);
        if i + 2 < 11 {
            assert(h[i + 2] == open[i + 2]);
        } else if i < 11 {
            assert(h[i] == open[i]);
        } else if i + 3 <= l {
            assert(h.subrange(i, i + 3) =~= e.subrange(i - 11, i - 11 + 3));
            assert(occurs_at(e, p, i - 11));
        } else if i < l {
            if i == l - 2 {
                assert(h[i + 2] == p[0]);
            } else {
                assert(h[i + 2] == p[1]);
            }
        }
    }
}

/// Preserved Confluence markup survives its Markdown marker: reading back
/// `<!--cf-raw:…-->` gives the markup again. The escapes are `&#10;` for a
/// line break and `--&gt;` for `-->`, so markup that already holds either of
/// them reads back differently.
pub proof fn lemma_raw_marker_roundtrip(markup: Seq<char>)
    requires
        !contains(markup, "&#10;"@),
        !contains(markup, "--&gt;"@),
    ensures
        spec_marker(raw_marker(markup)) == MarkerV::Raw(markup),
{
    reveal_strlit("-->");
    reveal_strlit("--&gt;");
    reveal_strlit("&#10;");
    reveal_strlit("\n");
    reveal_strlit("<!--cf-raw:");
    reveal_strlit("<!--/cf:");
    let a = replace(markup, "-->"@, "--&gt;"@);
    let e = replace(a, "\n"@, "&#10;"@);
    let h = raw_marker(markup);
    assert("\n"@ == seq!['\n']);
    lemma_arrow_keeps_newline_refs_out(markup);
    assert(forall|i: int| 0 < i < "&#10;"@.len() ==> #[trigger] "&#10;"@[i] != "&#10;"@[0]);
    lemma_replace_char_inverse(a, '\n', "&#10;"@);
    lemma_arrow_inverse(markup);
    assert(unescape_raw(e) == markup);
    let open = "<!--cf-raw:"@;
    assert(h == open + e + "-->"@);
    assert(h[0] == '<');
    assert(h.last() == '>');
    assert(trim_start(h) == h);
    assert(trim_end(h) == h);
    assert(trim(h) == h);
    assert(h.subrange(0, 8)[4] == h[4]);
    assert(!starts_with(h, "<!--/cf:"@)) by {
        assert(h.subrange(0, 8)[4] != "<!--/cf:"@[4]);
    }
    assert(h.subrange(0, open.len() as int) =~= open);
    assert(h.skip(open.len() as int) =~= e + "-->"@);
    assert((e + "-->"@).subrange(e.len() as int, e.len() + 3int) =~= "-->"@);
    assert(strip_comment(h, open) == Some(e)) by {
        assert((e + "-->"@).take(e.len() as int) =~= e);
    }
}

// ---------------------------------------------------------------------------
// The cf: marker round trip
// ---------------------------------------------------------------------------

/// Replacing `"` by `&quot;` leaves no `"`.
proof fn lemma_quote_free(v: Seq<char>)
    ensures
        forall|i: int|
            0 <= i < replace(v, "\""@, "&quot;"@).len() ==> #[trigger] replace(
                v,
                "\""@,
                "&quot;"@,
            )[i] != '"',
    decreases v.len(),
{
    reveal_strlit("\"");
    reveal_strlit("&quot;");
    let q = "\""@;
    let r = "&quot;"@;
    if v.len() > 0 {
        let t = replace(v, q, r);
        if starts_with(v, q) {
            let rest = v.skip(1);
            lemma_quote_free(rest);
            let u = replace(rest, q, r);
            assert(t == r + u);
            assert forall|i: int| 0 <= i < t.len() implies #[trigger] t[i] != '"' by {
                if i >= 6 {
                    assert(t[i] == u[i - 6]);
                }
            }
        } else {
            let rest = v.drop_first();
            lemma_quote_free(rest);
            let u = replace(rest, q, r);
            if v[0] == '"' {
                assert(v.subrange(0, 1) =~= q);
            }
            assert(t == seq![v[0]] + u);
            assert forall|i: int| 0 <= i < t.len() implies #[trigger] t[i] != '"' by {
                if i >= 1 {
                    assert(t[i] == u[i - 1]);
                }
            }
        }
    }
}

/// Replacing `-->` by `--&gt;` adds no `"`.
proof fn lemma_arrow_quote_free(x: Seq<char>)
    requires
        forall|i: int| 0 <= i < x.len() ==> #[trigger] x[i] != '"',
    ensures
        forall|i: int|
            0 <= i < replace(x, "-->"@, "--&gt;"@).len() ==> #[trigger] replace(
                x,
                "-->"@,
                "--&gt;"@,
            )[i] != '"',
    decreases x.len(),
{
    reveal_strlit("-->");
    reveal_strlit("--&gt;");
    let p = "-->"@;
    let r = "--&gt;"@;
    if x.len() > 0 {
        let t = replace(x, p, r);
        if starts_with(x, p) {
            let rest = x.skip(3);
            assert forall|i: int| 0 <= i < rest.len() implies #[trigger] rest[i] != '"' by {
                assert(rest[i] == x[i + 3]);
            }
            lemma_arrow_quote_free(rest);
            let u = replace(rest, p, r);
            assert(t == r + u);
            assert forall|i: int| 0 <= i < t.len() implies #[trigger] t[i] != '"' by {
                if i >= 6 {
                    assert(t[i] == u[i - 6]);
                }
            }
        } else {
            let rest = x.drop_first();
            assert forall|i: int| 0 <= i < rest.len() implies #[trigger] rest[i] != '"' by {
                assert(rest[i] == x[i + 1]);
            }
            lemma_arrow_quote_free(rest);
            let u = replace(rest, p, r);
            assert(t == seq![x[0]] + u);
            assert forall|i: int| 0 <= i < t.len() implies #[trigger] t[i] != '"' by {
                if i >= 1 {
                    assert(t[i] == u[i - 1]);
                }
            }
        }
    }
}

/// A replacement of `"` by `&quot;` that starts with a character other than
/// `&` starts with that character of the text.
proof fn lemma_quote_head(w: Seq<char>, ch: char)
    requires
        ch != '&',
        replace(w, "\""@, "&quot;"@).len() > 0,
        replace(w, "\""@, "&quot;"@)[0] == ch,
    ensures
        w.len() > 0,
        w[0] == ch,
        replace(w, "\""@, "&quot;"@) == seq![ch] + replace(w.drop_first(), "\""@, "&quot;"@),
{
    reveal_strlit("\"");
    reveal_strlit("&quot;");
    if w.len() > 0 && starts_with(w, "\""@) {
        assert(replace(w, "\""@, "&quot;"@)[0] == '&');
    }
}

/// Replacing `"` by `&quot;` adds no `--&gt;`.
proof fn lemma_quote_keeps_arrow_refs_out(v: Seq<char>)
    requires
        !contains(v, "--&gt;"@),
    ensures
        !contains(replace(v, "\""@, "&quot;"@), "--&gt;"@),
    decreases v.len(),
{
    reveal_strlit("\"");
    reveal_strlit("&quot;");
    reveal_strlit("--&gt;");
    let q = "\""@;
    let r = "&quot;"@;
    let a = "--&gt;"@;
    if v.len() == 0 {
        return;
    }
    let t = replace(v, q, r);
    if starts_with(v, q) {
        let rest = v.skip(1);
        if contains(rest, a) {
            lemma_contains_skip(v, a, 1);
        }
        lemma_quote_keeps_arrow_refs_out(rest);
        let u = replace(rest, q, r);
        assert(t == r + u);
        assert forall|i: int| !occurs_at(t, a, i) by {
            if occurs_at(t, a, i) {
                assert(t.subrange(i, i + 6)[0] == t[i]);
                if i < 6 {
                    assert(t[i] == r[i]);
                } else {
                    assert(t.subrange(i, i + 6) =~= u.subrange(i - 6, i - 6 + 6));
                    assert(occurs_at(u, a, i - 6));
                }
            }
        }
    } else {
        let rest = v.drop_first();
        if contains(rest, a) {
            assert(rest =~= v.skip(1));
            lemma_contains_skip(v, a, 1);
        }
        lemma_quote_keeps_arrow_refs_out(rest);
        let u = replace(rest, q, r);
        assert(v.subrange(0, 1)[0] == v[0]);
        assert(t == seq![v[0]] + u);
        assert forall|i: int| !occurs_at(t, a, i) by {
            if occurs_at(t, a, i) {
                if i == 0 {
                    assert(t.subrange(0, 6) == a);
                    assert(t.subrange(0, 6)[0] == t[0]);
                    assert(t.subrange(0, 6)[1] == t[1]);
                    assert(t.subrange(0, 6)[2] == t[2]);
                    assert(t.subrange(0, 6)[3] == t[3]);
                    assert(t.subrange(0, 6)[4] == t[4]);
                    assert(t.subrange(0, 6)[5] == t[5]);
                    assert(u[0] == t[1]);
                    lemma_quote_head(rest, '-');
                    let w = rest.drop_first();
                    let uw = replace(w, q, r);
                    assert(uw[0] == t[2]);
                    // `&` is either the text's own or the start of `&quot;`,
                    // which `g` does not follow.
                    if w.len() > 0 && starts_with(w, q) {
                        assert(uw == r + replace(w.skip(1), q, r));
                        assert(uw[1] == t[3]);
                        assert(false);
                    }
                    assert(w.len() > 0);
                    assert(w.subrange(0, 1)[0] == w[0]);
                    assert(uw == seq![w[0]] + replace(w.drop_first(), q, r));
                    let x = w.drop_first();
                    assert(replace(x, q, r)[0] == t[3]);
                    lemma_quote_head(x, 'g');
                    let y = x.drop_first();
                    assert(replace(y, q, r)[0] == t[4]);
                    lemma_quote_head(y, 't');
                    let z = y.drop_first();
                    assert(replace(z, q, r)[0] == t[5]);
                    lemma_quote_head(z, ';');
                    assert(v.subrange(0, 6) =~= a);
                    assert(occurs_at(v, a, 0));
                } else {
                    assert(t.subrange(i, i + 6) =~= u.subrange(i - 1, i - 1 + 6));
                    assert(occurs_at(u, a, i - 1));
                }
            }
        }
    }
}

/// A marker parameter value reads back as itself, and holds no `"`.
proof fn lemma_marker_value_inverse(v: Seq<char>)
    requires
        !contains(v, "&quot;"@),
        !contains(v, "--&gt;"@),
    ensures
        unescape_marker_value(marker_value(v)) == v,
        forall|i: int| 0 <= i < marker_value(v).len() ==> #[trigger] marker_value(v)[i] != '"',
{
    reveal_strlit("\"");
    reveal_strlit("&quot;");
    let q = replace(v, "\""@, "&quot;"@);
    assert("\""@ == seq!['"']);
    lemma_quote_free(v);
    lemma_arrow_quote_free(q);
    lemma_quote_keeps_arrow_refs_out(v);
    lemma_arrow_inverse(q);
    assert(forall|i: int| 0 <= i < "&quot;"@.len() ==> "&quot;"@[i] != '"');
    assert(forall|i: int| 0 < i < "&quot;"@.len() ==> #[trigger] "&quot;"@[i] != "&quot;"@[0]);
    lemma_replace_char_inverse(v, '"', "&quot;"@);
}

/// A parameter key that reads back: no `=`, no whitespace at either end.
pub open spec fn plain_key(k: Seq<char>) -> bool {
    &&& forall|i: int| 0 <= i < k.len() ==> #[trigger] k[i] != '='
    &&& k.len() > 0 ==> !is_ws(k[0]) && !is_ws(k.last())
}

/// A parameter value that reads back: none of the escapes written as is.
pub open spec fn plain_value(v: Seq<char>) -> bool {
    !contains(v, "&quot;"@) && !contains(v, "--&gt;"@)
}

/// One parameter as the marker writes it.
pub open spec fn marker_item(k: Seq<char>, v: Seq<char>) -> Seq<char> {
    " "@ + k + "=\""@ + marker_value(v) + "\""@
}

proof fn lemma_marker_params_front(x: (String, String), rest: Seq<(String, String)>)
    ensures
        marker_params(seq![x] + rest) == marker_item(x.0@, x.1@) + marker_params(rest),
    decreases rest.len(),
{
    let all = seq![x] + rest;
    if rest.len() == 0 {
        assert(all.drop_last() =~= Seq::<(String, String)>::empty());
        assert(marker_params(Seq::<(String, String)>::empty()) =~= Seq::<char>::empty());
        assert(all.last() == x);
        assert(marker_params(all) =~= marker_item(x.0@, x.1@));
    } else {
        lemma_marker_params_front(x, rest.drop_last());
        assert(all.drop_last() =~= seq![x] + rest.drop_last());
        assert(all.last() == rest.last());
        assert(marker_params(all) =~= marker_item(x.0@, x.1@) + marker_params(rest));
    }
}

/// One parameter, then whatever follows it.
#[verifier::rlimit(40)]
proof fn lemma_parse_item(k: Seq<char>, v: Seq<char>, m2: Seq<char>)
    requires
        plain_key(k),
        plain_value(v),
    ensures
        parse_marker_params(k + "=\""@ + marker_value(v) + "\""@ + m2) == match parse_marker_params(
            trim_start(m2),
        ) {
            Some(ps) => Some(seq![(k, v)] + ps),
            None => None,
        },
{
    reveal_strlit("=\"");
    reveal_strlit("\"");
    lemma_marker_value_inverse(v);
    let e = marker_value(v);
    let rest = k + "=\""@ + e + "\""@ + m2;
    let tail = seq!['"'] + e + seq!['"'] + m2;
    assert(rest =~= k + (seq!['='] + tail));
    assert(rest.len() > 0);
    lemma_find_char_concat(k, seq!['='] + tail, '=');
    lemma_find_char(seq!['='] + tail, '=');
    assert((seq!['='] + tail)[0] == '=');
    let eq = find(rest, seq!['=']);
    assert(eq == k.len());
    assert(rest.take(eq) =~= k);
    if k.len() > 0 {
        lemma_trim_start(k, 0);
        lemma_trim_end(k, k.len() as int);
    }
    assert(k.skip(0) =~= k);
    assert(k.take(k.len() as int) =~= k);
    assert(trim(k) == k);
    let b = rest.skip(eq + 1);
    assert(b =~= tail);
    lemma_trim_start(b, 0);
    assert(b.skip(0) =~= b);
    let after = b.drop_first();
    assert(after =~= e + (seq!['"'] + m2));
    lemma_find_char_concat(e, seq!['"'] + m2, '"');
    lemma_find_char(seq!['"'] + m2, '"');
    assert((seq!['"'] + m2)[0] == '"');
    let end = find(after, seq!['"']);
    assert(end == e.len());
    assert(after.take(end) =~= e);
    assert(after.skip(end + 1) =~= m2);
}

proof fn lemma_marker_params_last(ps: Seq<(String, String)>)
    requires
        ps.len() > 0,
    ensures
        marker_params(ps).len() > 0,
        marker_params(ps).last() == '"',
{
    reveal_strlit("\"");
}

proof fn lemma_parse_marker_params(ps: Seq<(String, String)>)
    requires
        ps.len() > 0,
        forall|j: int| 0 <= j < ps.len() ==> plain_key(#[trigger] ps[j].0@),
        forall|j: int| 0 <= j < ps.len() ==> plain_value(#[trigger] ps[j].1@),
    ensures
        parse_marker_params(marker_params(ps).skip(1)) == Some(params_v(ps)),
    decreases ps.len(),
{
    reveal_strlit(" ");
    reveal_strlit("=\"");
    reveal_strlit("\"");
    let x = ps[0];
    let tail = ps.drop_first();
    assert(seq![x] + tail =~= ps);
    lemma_marker_params_front(x, tail);
    let k = x.0@;
    let v = x.1@;
    assert(plain_key(ps[0].0@) && plain_value(ps[0].1@));
    let m2 = marker_params(tail);
    assert(marker_params(ps).skip(1) =~= k + "=\""@ + marker_value(v) + "\""@ + m2);
    lemma_parse_item(k, v, m2);
    if tail.len() == 0 {
        assert(m2 =~= Seq::<char>::empty());
        assert(trim_start(m2) == m2);
        assert(params_v(ps) =~= seq![(k, v)]);
    } else {
        assert forall|j: int| 0 <= j < tail.len() implies plain_key(#[trigger] tail[j].0@) by {
            assert(tail[j] == ps[j + 1]);
        }
        assert forall|j: int| 0 <= j < tail.len() implies plain_value(#[trigger] tail[j].1@) by {
            assert(tail[j] == ps[j + 1]);
        }
        lemma_parse_marker_params(tail);
        let y = tail[0];
        assert(seq![y] + tail.drop_first() =~= tail);
        lemma_marker_params_front(y, tail.drop_first());
        assert(plain_key(tail[0].0@));
        assert(m2 == " "@ + y.0@ + "=\""@ + marker_value(y.1@) + "\""@ + marker_params(
            tail.drop_first(),
        ));
        assert(m2[0] == ' ');
        assert(m2[1] == if y.0@.len() > 0 {
            y.0@[0]
        } else {
            '='
        });
        lemma_trim_start(m2, 1);
        assert(params_v(ps) =~= seq![(k, v)] + params_v(tail));
    }
}

/// A body-less macro survives its `<!--cf:NAME k="v" …-->` marker: reading it
/// back gives the macro again, provided its name is a single word, no key
/// holds `=` or starts or ends with whitespace, and no value already holds
/// one of the escapes `&quot;` or `--&gt;`.
pub proof fn lemma_marker_roundtrip(m: Macro)
    requires
        m.body is Empty,
        m.name@.len() > 0,
        forall|i: int| 0 <= i < m.name@.len() ==> !is_ws(#[trigger] m.name@[i]),
        forall|j: int| 0 <= j < m.params@.len() ==> plain_key(#[trigger] m.params@[j].0@),
        forall|j: int| 0 <= j < m.params@.len() ==> plain_value(#[trigger] m.params@[j].1@),
    ensures
        spec_from_marker(macro_marker(m)) == Some(macro_v(m)),
{
    reveal_strlit("<!--cf:");
    reveal_strlit("-->");
    reveal_strlit(" ");
    reveal_strlit("\"");
    reveal_strlit("=\"");
    let name = m.name@;
    let mp = marker_params(m.params@);
    let h = macro_marker(m);
    let open = "<!--cf:"@;
    assert(h == open + name + mp + "-->"@);
    assert(h[0] == '<');
    assert(h.last() == '>');
    assert(trim(h) == h);
    let x = name + mp;
    assert(h.subrange(0, open.len() as int) =~= open);
    assert(h.skip(open.len() as int) =~= x + "-->"@);
    assert((x + "-->"@).subrange(x.len() as int, x.len() + 3int) =~= "-->"@);
    assert(strip_comment(h, open) == Some(x)) by {
        assert((x + "-->"@).take(x.len() as int) =~= x);
    }
    assert(x[0] == name[0]);
    assert(forall|j: int| 0 <= j < name.len() ==> x[j] == name[j]);
    assert(params_v(Seq::<(String, String)>::empty()) =~= Seq::<(Seq<char>, Seq<char>)>::empty());
    if m.params@.len() > 0 {
        let p0 = m.params@[0];
        let tail = m.params@.drop_first();
        lemma_marker_params_front(p0, tail);
        assert(seq![p0] + tail =~= m.params@);
        assert(plain_key(p0.0@));
        assert(mp == " "@ + p0.0@ + "=\""@ + marker_value(p0.1@) + "\""@ + marker_params(tail));
        assert(mp.len() > 0 && mp[0] == ' ');
        let key_first = if p0.0@.len() > 0 {
            p0.0@[0]
        } else {
            '='
        };
        assert(mp[1] == key_first);
        assert(!is_ws(key_first));
        assert(x.last() == mp.last());
        assert(mp.last() == '"') by {
            lemma_marker_params_last(m.params@);
        }
        lemma_trim_start(x, 0);
        lemma_trim_end(x, x.len() as int);
        assert(x.skip(0) =~= x);
        assert(x.take(x.len() as int) =~= x);
        assert(trim(x) == x);
        assert(x[name.len() as int] == ' ');
        lemma_find_ws_is(x, name.len() as int);
        assert(x.take(name.len() as int) =~= name);
        let after_name = x.skip(name.len() + 1int);
        assert(after_name =~= mp.skip(1));
        assert(after_name[0] == key_first);
        lemma_trim_start(after_name, 0);
        assert(after_name.skip(0) =~= after_name);
        lemma_parse_marker_params(m.params@);
        assert(trim_start(after_name) == mp.skip(1));
        assert(parse_marker_params(trim_start(after_name)) == Some(params_v(m.params@)));
        assert(find_ws(trim(x)) == name.len());
        assert(name.len() < trim(x).len());
        assert(spec_from_marker(h) == Some(
            MacroV { name, params: params_v(m.params@), body: MacroBodyV::Empty },
        ));
    } else {
        assert(mp =~= Seq::<char>::empty());
        assert(x =~= name);
        lemma_trim_start(x, 0);
        lemma_trim_end(x, x.len() as int);
        assert(x.skip(0) =~= x);
        assert(x.take(x.len() as int) =~= x);
        assert(trim(x) == x);
        lemma_find_ws_is(x, name.len() as int);
        assert(parse_marker_params(Seq::<char>::empty()) == Some(
            Seq::<(Seq<char>, Seq<char>)>::empty(),
        ));
        assert(params_v(m.params@) =~= Seq::<(Seq<char>, Seq<char>)>::empty());
        assert(spec_from_marker(h) == Some(
            MacroV { name, params: params_v(m.params@), body: MacroBodyV::Empty },
        ));
    }
    assert(macro_v(m) == MacroV { name, params: params_v(m.params@), body: MacroBodyV::Empty });
}

} // verus!
