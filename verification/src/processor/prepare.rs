//! Chapter packaging for Web readers: media types, `data:` URIs and the
//! references a chapter makes to local resources.
use vstd::prelude::*;
use vstd::utf8::encode_utf8;
use crate::text::{chars_of, string_from_chars, slice_chars, extend_chars, lit, eq_str, has_prefix, starts_with, contains_seq, contains_chars, trim_spec, trim_chars, last_pos, lemma_last_pos, rfind_char};
use crate::path::{is_external_spec, is_external_chars, join_spec, percent_decoded, normalize_path, strip_query_and_fragment_spec, strip_query_and_fragment};
use crate::processor::html::{lower_spec, lower_chars};
use crate::error::EpubError;
use crate::processor::walk::inject_cfi_dom;
use base64::Engine as _;

verus! {

/// Bytes loaded for prepare, optionally with a declared OPF media type.
#[derive(Clone, Debug)]
pub struct LoadedResource {
    pub bytes: Vec<u8>,
    /// Manifest `media-type` when known; extension guessing is used as fallback.
    pub media_type: Option<String>,
}

impl From<Vec<u8>> for LoadedResource {
    fn from(bytes: Vec<u8>) -> (r: Self) {
        LoadedResource { bytes, media_type: None }
    }
}

impl vstd::std_specs::convert::FromSpecImpl<Vec<u8>> for LoadedResource {
    open spec fn obeys_from_spec() -> bool {
        true
    }

    open spec fn from_spec(bytes: Vec<u8>) -> Self {
        LoadedResource { bytes, media_type: None }
    }
}

/// Options for chapter preparation.
#[derive(Clone, Debug)]
pub struct PrepareChapterOptions {
    /// Inject `data-cfi` on every element.
    pub inject_cfi: bool,
    /// Rewrite local images / fonts / stylesheets to `data:` URIs when under the size cap.
    pub inline_resources: bool,
    /// Maximum resource size (bytes) eligible for inlining. Default 4 MiB.
    pub max_inline_bytes: usize,
}

pub fn default_true() -> (b: bool)
    ensures
        b,
{
    true
}

pub fn default_max_inline() -> (n: usize)
    ensures
        n == 4 * 1024 * 1024,
{
    4 * 1024 * 1024
}

impl Default for PrepareChapterOptions {
    fn default() -> (o: Self)
        ensures
            !o.inject_cfi,
            o.inline_resources,
            o.max_inline_bytes == 4 * 1024 * 1024,
    {
        PrepareChapterOptions {
            inject_cfi: false,
            inline_resources: default_true(),
            max_inline_bytes: default_max_inline(),
        }
    }
}

/// Counters from a prepare pass (resource inlining).
#[derive(Clone, Debug, PartialEq, Eq)]
pub struct PrepareStats {
    /// Unique resource paths considered for inlining.
    pub considered: usize,
    /// Successfully rewritten to `data:` URIs (images/fonts/css).
    pub inlined: usize,
    /// Skipped because loaded size exceeded `max_inline_bytes`.
    pub skipped_oversize: usize,
    /// Loader returned `None`.
    pub missing: usize,
    /// Loaded but media type not eligible for inlining.
    pub skipped_type: usize,
}

impl Default for PrepareStats {
    fn default() -> (s: Self)
        ensures
            s.considered == 0,
            s.inlined == 0,
            s.skipped_oversize == 0,
            s.missing == 0,
            s.skipped_type == 0,
    {
        PrepareStats { considered: 0, inlined: 0, skipped_oversize: 0, missing: 0, skipped_type: 0 }
    }
}

/// The chapter markup that preparation works on: with `data-cfi` markers
/// below `base_cfi` when `options.inject_cfi` asks for them (refused when
/// no base CFI is given), else `raw_html` as it is.
pub fn prepared_markup(raw_html: &str, base_cfi: Option<&str>, options: &PrepareChapterOptions) -> (r: Result<String, EpubError>)
    ensures
        !options.inject_cfi ==> (r matches Ok(h) && h@ == raw_html@),
        options.inject_cfi && base_cfi is None ==> (r matches Err(EpubError::InvalidFormat(m)) && m@
            == "inject_cfi requires base_cfi"@),
        options.inject_cfi && base_cfi is Some ==> r is Ok,
{
    if options.inject_cfi {
        match base_cfi {
            Some(base) => inject_cfi_dom(raw_html, base),
            None => {
                proof {
                    reveal_strlit("inject_cfi requires base_cfi");
                }
                Err(EpubError::InvalidFormat("inject_cfi requires base_cfi".to_string()))
            },
        }
    } else {
        Ok(string_from_chars(&chars_of(raw_html)))
    }
}

// ── Media types ──────────────────────────────────────────────────────────────

/// `s` after its last `c` (all of `s` when there is none).
pub open spec fn after_last(s: Seq<char>, c: char) -> Seq<char> {
    s.skip(last_pos(s, c) + 1)
}

/// The extension of a path: lower-cased, query and fragment cut, after the last `.`.
pub open spec fn extension_spec(path: Seq<char>) -> Seq<char> {
    after_last(strip_query_and_fragment_spec(lower_spec(path)), '.')
}

/// The media type for a (lower-case) extension.
pub open spec fn media_type_for_ext(ext: Seq<char>) -> Seq<char> {
    if ext == "png"@ {
        "image/png"@
    } else if ext == "jpg"@ || ext == "jpeg"@ || ext == "jpe"@ {
        "image/jpeg"@
    } else if ext == "gif"@ {
        "image/gif"@
    } else if ext == "webp"@ {
        "image/webp"@
    } else if ext == "svg"@ || ext == "svgz"@ {
        "image/svg+xml"@
    } else if ext == "css"@ {
        "text/css"@
    } else if ext == "ttf"@ {
        "font/ttf"@
    } else if ext == "otf"@ {
        "font/otf"@
    } else if ext == "woff"@ {
        "font/woff"@
    } else if ext == "woff2"@ {
        "font/woff2"@
    } else if ext == "mp3"@ {
        "audio/mpeg"@
    } else if ext == "mp4"@ {
        "video/mp4"@
    } else if ext == "xhtml"@ || ext == "html"@ || ext == "htm"@ {
        "application/xhtml+xml"@
    } else {
        "application/octet-stream"@
    }
}

/// Guess a MIME type from an EPUB-internal path (extension only).
pub fn guess_media_type(path: &str) -> (r: &'static str)
    ensures
        r@ == media_type_for_ext(extension_spec(path@)),
{
    let lower = lower_chars(&chars_of(path));
    let path_only = strip_query_and_fragment(&lower);
    proof {
        lemma_last_pos(path_only@, '.');
    }
    let n = path_only.len();
    let ext = match rfind_char(&path_only, '.') {
        Some(i) => slice_chars(&path_only, i + 1, n),
        None => slice_chars(&path_only, 0, n),
    };
    assert(path_only@.subrange(0, path_only@.len() as int) =~= path_only@.skip(0));
    if eq_str(&ext, "png") {
        "image/png"
    } else if eq_str(&ext, "jpg") || eq_str(&ext, "jpeg") || eq_str(&ext, "jpe") {
        "image/jpeg"
    } else if eq_str(&ext, "gif") {
        "image/gif"
    } else if eq_str(&ext, "webp") {
        "image/webp"
    } else if eq_str(&ext, "svg") || eq_str(&ext, "svgz") {
        "image/svg+xml"
    } else if eq_str(&ext, "css") {
        "text/css"
    } else if eq_str(&ext, "ttf") {
        "font/ttf"
    } else if eq_str(&ext, "otf") {
        "font/otf"
    } else if eq_str(&ext, "woff") {
        "font/woff"
    } else if eq_str(&ext, "woff2") {
        "font/woff2"
    } else if eq_str(&ext, "mp3") {
        "audio/mpeg"
    } else if eq_str(&ext, "mp4") {
        "video/mp4"
    } else if eq_str(&ext, "xhtml") || eq_str(&ext, "html") || eq_str(&ext, "htm") {
        "application/xhtml+xml"
    } else {
        "application/octet-stream"
    }
}

/// A declared media type is used when it is neither blank nor the generic
/// `application/octet-stream`.
pub open spec fn resolve_media_type_spec(path: Seq<char>, declared: Option<Seq<char>>) -> Seq<char> {
    match declared {
        Some(mt) => if trim_spec(mt).len() > 0 && trim_spec(mt) != "application/octet-stream"@ {
            trim_spec(mt)
        } else {
            media_type_for_ext(extension_spec(path))
        },
        None => media_type_for_ext(extension_spec(path)),
    }
}

/// Prefer a declared media type; fall back to the path's extension.
pub fn resolve_media_type(path: &str, declared: Option<&str>) -> (r: String)
    ensures
        r@ == resolve_media_type_spec(
            path@,
            match declared {
                Some(d) => Some(d@),
                None => None,
            },
        ),
{
    match declared {
        Some(mt) => {
            let t = trim_chars(&chars_of(mt));
            if t.len() > 0 && !eq_str(&t, "application/octet-stream") {
                return string_from_chars(&t);
            }
        },
        None => {},
    }
    guess_media_type(path).to_owned()
}

/// Media types that can be inlined as `data:` URIs (ASCII case-insensitively).
pub open spec fn is_inlineable_media_spec(mt: Seq<char>) -> bool {
    let l = lower_spec(mt);
    ||| starts_with(l, "image/"@)
    ||| starts_with(l, "font/"@)
    ||| starts_with(l, "audio/"@)
    ||| l == "text/css"@
    ||| l == "application/font-woff"@
    ||| l == "application/font-woff2"@
    ||| l == "application/vnd.ms-opentype"@
    ||| l == "application/x-font-ttf"@
    ||| l == "application/x-font-opentype"@
}

/// Whether resources of this media type are inlined.
pub fn is_inlineable_media(mt: &str) -> (b: bool)
    ensures
        b == is_inlineable_media_spec(mt@),
{
    let l = lower_chars(&chars_of(mt));
    has_prefix(&l, "image/") || has_prefix(&l, "font/") || has_prefix(&l, "audio/") || eq_str(
        &l,
        "text/css",
    ) || eq_str(&l, "application/font-woff") || eq_str(&l, "application/font-woff2") || eq_str(
        &l,
        "application/vnd.ms-opentype",
    ) || eq_str(&l, "application/x-font-ttf") || eq_str(&l, "application/x-font-opentype")
}

// ── Base64 and data: URIs ────────────────────────────────────────────────────

/// The standard base64 alphabet (RFC 4648).
pub open spec fn b64_char(v: nat) -> char {
    if v < 26 {
        (('A' as u32) + v) as char
    } else if v < 52 {
        (('a' as u32) + (v - 26)) as char
    } else if v < 62 {
        (('0' as u32) + (v - 52)) as char
    } else if v == 62 {
        '+'
    } else {
        '/'
    }
}

/// Standard base64 with `=` padding (RFC 4648 §4).
pub open spec fn b64_encode_spec(b: Seq<u8>) -> Seq<char>
    decreases b.len(),
{
    if b.len() == 0 {
        Seq::empty()
    } else if b.len() == 1 {
        seq![b64_char(b[0] as nat / 4), b64_char((b[0] as nat % 4) * 16), '=', '=']
    } else if b.len() == 2 {
        seq![
            b64_char(b[0] as nat / 4),
            b64_char((b[0] as nat % 4) * 16 + b[1] as nat / 16),
            b64_char((b[1] as nat % 16) * 4),
            '=',
        ]
    } else {
        seq![
            b64_char(b[0] as nat / 4),
            b64_char((b[0] as nat % 4) * 16 + b[1] as nat / 16),
            b64_char((b[1] as nat % 16) * 4 + b[2] as nat / 64),
            b64_char(b[2] as nat % 64),
        ] + b64_encode_spec(b.skip(3))
    }
}

/// Base64-encodes `bytes` (`base64::engine::general_purpose::STANDARD`,
/// which is the RFC 4648 standard alphabet with `=` padding).
#[verifier::external_body]
fn base64_encode(bytes: &[u8]) -> (r: String)
    ensures
        r@ == b64_encode_spec(bytes@),
{
    base64::engine::general_purpose::STANDARD.encode(bytes)
}

/// What the standard base64 decoder makes of a text: the bytes, or `None`
/// when it is not canonical padded base64.
pub uninterp spec fn b64_decoded(s: Seq<char>) -> Option<Seq<u8>>;

/// Decodes standard padded base64 (`base64::engine::general_purpose::STANDARD`,
/// which requires canonical padding).  The result is named by
/// [`b64_decoded`]; the encoding of some bytes decodes back to them.
#[verifier::external_body]
fn base64_decode(s: &str) -> (r: Option<Vec<u8>>)
    ensures
        match r {
            Some(v) => b64_decoded(s@) == Some(v@) && forall|b: Seq<u8>|
                #[trigger] b64_encode_spec(b) == s@ ==> v@ == b,
            None => b64_decoded(s@) is None && forall|b: Seq<u8>| #[trigger] b64_encode_spec(b) != s@,
        },
{
    base64::engine::general_purpose::STANDARD.decode(s.as_bytes()).ok()
}

/// `data:<media type>;base64,<payload>`.
pub open spec fn data_uri_spec(media_type: Seq<char>, bytes: Seq<u8>) -> Seq<char> {
    "data:"@ + media_type + ";base64,"@ + b64_encode_spec(bytes)
}

/// Encode bytes as a `data:` URI.
pub fn data_uri(media_type: &str, bytes: &[u8]) -> (r: String)
    ensures
        r@ == data_uri_spec(media_type@, bytes@),
{
    let mut out = lit("data:");
    extend_chars(&mut out, &chars_of(media_type));
    extend_chars(&mut out, &lit(";base64,"));
    let enc = base64_encode(bytes);
    extend_chars(&mut out, &chars_of(enc.as_str()));
    string_from_chars(&out)
}

// ── Decoding ─────────────────────────────────────────────────────────────────

/// What reading bytes as UTF-8 gives, invalid sequences replaced by U+FFFD.
pub uninterp spec fn utf8_lossy(b: Seq<u8>) -> Seq<char>;

/// Reads bytes as UTF-8, replacing invalid sequences
/// (`String::from_utf8_lossy`).  The result is named by [`utf8_lossy`]; the
/// UTF-8 encoding of a text reads back as that text.
#[verifier::external_body]
pub(crate) fn utf8_lossy_string(b: &[u8]) -> (r: String)
    ensures
        r@ == utf8_lossy(b@),
        forall|s: Seq<char>| #[trigger] encode_utf8(s) == b@ ==> r@ == s,
{
    String::from_utf8_lossy(b).into_owned()
}

/// The value of an ASCII hex digit.
pub open spec fn hex_value(b: u8) -> Option<u8> {
    if 48 <= b <= 57 {
        Some((b - 48) as u8)
    } else if 97 <= b <= 102 {
        Some((b - 97 + 10) as u8)
    } else if 65 <= b <= 70 {
        Some((b - 65 + 10) as u8)
    } else {
        None
    }
}

/// The value of an ASCII hex digit.
pub fn from_hex(b: u8) -> (r: Option<u8>)
    ensures
        r == hex_value(b),
{
    if 48 <= b && b <= 57 {
        Some(b - 48)
    } else if 97 <= b && b <= 102 {
        Some(b - 97 + 10)
    } else if 65 <= b && b <= 70 {
        Some(b - 65 + 10)
    } else {
        None
    }
}

/// Percent-decoding of bytes with `+` read as a space: `%XX` (two hex
/// digits) becomes one byte; a `%` without two hex digits stays.
pub open spec fn url_decode_bytes(b: Seq<u8>) -> Seq<u8>
    decreases b.len(),
{
    if b.len() == 0 {
        Seq::empty()
    } else if b[0] == 37 && b.len() > 2 && hex_value(b[1]) is Some && hex_value(b[2]) is Some {
        seq![(hex_value(b[1])->0 * 16 + hex_value(b[2])->0) as u8] + url_decode_bytes(b.skip(3))
    } else if b[0] == 43 {
        seq![32u8] + url_decode_bytes(b.skip(1))
    } else {
        seq![b[0]] + url_decode_bytes(b.skip(1))
    }
}

/// Minimal percent-decoding for `data:,…` payloads: `%XX` escapes and `+`
/// as space, then the bytes read as UTF-8 (invalid sequences replaced).
pub fn urlencoding_minimal_decode(input: &str) -> (r: String)
    ensures
        r@ == utf8_lossy(url_decode_bytes(encode_utf8(input@))),
{
    let bytes = input.as_bytes();
    let mut out: Vec<u8> = Vec::new();
    let mut i: usize = 0;
    assert(bytes@.skip(0) =~= bytes@);
    while i < bytes.len()
        invariant
            i <= bytes@.len(),
            bytes@ == encode_utf8(input@),
            url_decode_bytes(bytes@) == out@ + url_decode_bytes(bytes@.skip(i as int)),
        decreases bytes@.len() - i,
    {
        let ghost rest = bytes@.skip(i as int);
        if bytes[i] == 37 && bytes.len() - i > 2 {
            match (from_hex(bytes[i + 1]), from_hex(bytes[i + 2])) {
                (Some(a), Some(b)) => {
                    proof {
                        assert(rest[1] == bytes@[i + 1] && rest[2] == bytes@[i + 2]);
                        assert(rest.skip(3) =~= bytes@.skip(i + 3));
                        assert((a << 4u8) | b == a * 16 + b) by (bit_vector)
                            requires
                                a < 16,
                                b < 16,
                        ;
                    }
                    let ghost before = out@;
                    out.push((a << 4) | b);
                    assert(before + (seq![(a * 16 + b) as u8] + url_decode_bytes(rest.skip(3)))
                        =~= out@ + url_decode_bytes(bytes@.skip(i + 3)));
                    i = i + 3;
                    continue;
                },
                _ => {},
            }
        }
        let ghost before = out@;
        if bytes[i] == 43 {
            out.push(32);
        } else {
            out.push(bytes[i]);
        }
        proof {
            assert(rest.skip(1) =~= bytes@.skip(i + 1));
            assert(rest[0] == bytes@[i as int]);
            if bytes@[i as int] == 37 && bytes@.len() - i > 2 {
                assert(rest[1] == bytes@[i + 1] && rest[2] == bytes@[i + 2]);
            }
            assert(out@ + url_decode_bytes(bytes@.skip(i + 1)) =~= before + url_decode_bytes(rest));
        }
        i = i + 1;
    }
    assert(bytes@.skip(i as int) =~= Seq::<u8>::empty());
    assert(out@ + Seq::<u8>::empty() =~= out@);
    utf8_lossy_string(&out)
}

/// What a `data:` URI holding CSS decodes to: the payload after the first
/// comma, base64-decoded when the header says `;base64`, else
/// percent-decoded; `None` for other URIs and for invalid base64.
pub open spec fn decode_data_css_spec(href: Seq<char>) -> Option<Seq<char>> {
    let lower = lower_spec(href);
    let is_css = starts_with(lower, "data:text/css"@) || starts_with(lower, "data:text/plain"@)
        || starts_with(lower, "data:application/css"@);
    let comma = crate::text::first_pos(href, ',');
    if !starts_with(lower, "data:"@) {
        None
    } else if !is_css && !contains_seq(lower, "text/css"@) && !(starts_with(lower, "data:,"@)
        || starts_with(lower, "data:;"@)) {
        None
    } else if comma >= href.len() {
        None
    } else if contains_seq(lower_spec(href.take(comma)), ";base64"@) {
        match b64_decoded(href.skip(comma + 1)) {
            Some(b) => Some(utf8_lossy(b)),
            None => None,
        }
    } else {
        Some(utf8_lossy(url_decode_bytes(encode_utf8(href.skip(comma + 1)))))
    }
}

/// Decodes `data:text/css…` (base64 or URL-encoded) into CSS text.
pub fn decode_data_css_uri(href: &str) -> (r: Option<String>)
    ensures
        match r {
            Some(s) => decode_data_css_spec(href@) == Some(s@),
            None => decode_data_css_spec(href@) is None,
        },
{
    let hc = chars_of(href);
    let lower = lower_chars(&hc);
    if !has_prefix(&lower, "data:") {
        return None;
    }
    let is_css = has_prefix(&lower, "data:text/css") || has_prefix(&lower, "data:text/plain")
        || has_prefix(&lower, "data:application/css");
    if !is_css && !contains_chars(&lower, &lit("text/css")) {
        if !(has_prefix(&lower, "data:,") || has_prefix(&lower, "data:;")) {
            return None;
        }
    }
    let comma = crate::text::find_char(&hc, ',');
    proof {
        crate::text::lemma_first_pos(hc@, ',');
    }
    if comma >= hc.len() {
        return None;
    }
    let meta = slice_chars(&hc, 0, comma);
    let n = hc.len();
    let payload = slice_chars(&hc, comma + 1, n);
    let payload_str = string_from_chars(&payload);
    let meta_lower = lower_chars(&meta);
    if contains_chars(&meta_lower, &lit(";base64")) {
        match base64_decode(payload_str.as_str()) {
            Some(bytes) => Some(utf8_lossy_string(&bytes)),
            None => None,
        }
    } else {
        Some(urlencoding_minimal_decode(payload_str.as_str()))
    }
}

/// Queues the normalized path of a raw reference, unless it is empty,
/// external or same-document.
pub fn push_normalized_ref(pending: &mut Vec<String>, base_dir: &str, raw: &str)
    ensures
        ({
            let t = trim_spec(raw@);
            if t.len() == 0 || is_external_spec(t) || starts_with(t, "#"@) {
                final(pending)@ == old(pending)@
            } else {
                final(pending)@.len() == old(pending)@.len() + 1 && final(pending)@.take(
                    old(pending)@.len() as int,
                ) == old(pending)@ && final(pending)@.last()@ == join_spec(
                    base_dir@,
                    percent_decoded(strip_query_and_fragment_spec(t)),
                )
            }
        }),
{
    let t = trim_chars(&chars_of(raw));
    if t.len() == 0 || is_external_chars(&t) || has_prefix(&t, "#") {
        return;
    }
    let ts = string_from_chars(&t);
    let ghost before = pending@;
    pending.push(normalize_path(base_dir, ts.as_str()));
    assert(pending@.take(before.len() as int) =~= before);
}

} // verus!
