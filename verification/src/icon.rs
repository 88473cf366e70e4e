//! The icon pipeline: from a rasterized icon bitmap to the stable
//! `data:image/png;base64,...` string the presentation layer consumes,
//! plus the content-addressed custom-icon override store naming and the
//! fallback decisions for paths whose direct extraction failed.
//!
//! The platform layer owns the shell-icon extraction and the GDI
//! rasterization; it hands this module the raw 128 by 128 BGRA bytes.

use vstd::prelude::*;
use vstd::string::StringExecFns;
use crate::cachefile::{hex_digit, hex_digit_exec};
use crate::scanner::{extract_url, extract_url_exec, sub_vec};
use crate::text::{
    chars_of, ends_with_seq, ends_with_sub, lower, starts_with_seq, starts_with_sub, string_of,
    to_lower,
};

verus! {

/// Icons are rasterized to this square size.
pub const ICON_SIZE: u32 = 128;

/// What the base64 crate's standard-alphabet engine returns for these
/// bytes; a function of the bytes alone.
pub uninterp spec fn base64_of(bytes: Seq<u8>) -> Seq<char>;

/// What that engine decodes this text to, when it accepts it; a
/// function of the text alone.
pub uninterp spec fn base64_decoded(s: Seq<char>) -> Seq<u8>;

/// Whether that engine accepts this text as base64 at all; decoding is
/// deterministic, so acceptance is a function of the text alone.
pub uninterp spec fn base64_ok(s: Seq<char>) -> bool;

/// The MD5 digest of the UTF-8 bytes of this text; a function of the
/// text alone.
pub uninterp spec fn md5_of(s: Seq<char>) -> Seq<u8>;

/// The PNG stream the image crate's encoder produces for this square
/// RGBA bitmap at best compression with adaptive filtering; a function
/// of the pixels and size alone.
pub uninterp spec fn png_of(pixels: Seq<u8>, size: nat) -> Seq<u8>;

/// Whether the url crate parses this text as an absolute URL carrying
/// a host; a function of the text alone.
pub uninterp spec fn url_has_host(s: Seq<char>) -> bool;

/// Relies on base64's `Engine::encode` with the standard alphabet: the
/// encoding of the bytes, named `base64_of`.
#[verifier::external_body]
fn b64_encode(bytes: &Vec<u8>) -> (r: String)
    ensures
        r@ == base64_of(bytes@),
{
    base64::Engine::encode(&base64::engine::general_purpose::STANDARD, bytes)
}

/// Relies on base64's `Engine::decode` with the standard alphabet:
/// whether the text is accepted is named `base64_ok`, the decoded
/// bytes of an accepted text are named `base64_decoded`, and the
/// decoder's complaint is carried over otherwise.
#[verifier::external_body]
fn b64_decode(s: &str) -> (r: Result<Vec<u8>, String>)
    ensures
        r is Ok <==> base64_ok(s@),
        r matches Ok(v) ==> v@ == base64_decoded(s@),
{
    match base64::Engine::decode(&base64::engine::general_purpose::STANDARD, s) {
        Ok(v) => Ok(v),
        Err(e) => Err(format!("Failed to decode icon data: {}", e)),
    }
}

/// Relies on `md5::compute`: the 16-byte digest of the text's UTF-8
/// bytes, named `md5_of`.
#[verifier::external_body]
fn md5_digest(s: &str) -> (r: Vec<u8>)
    ensures
        r@ == md5_of(s@),
        r@.len() == 16,
{
    md5::compute(s.as_bytes()).0.to_vec()
}

/// Relies on the image crate's `PngEncoder::write_image` (best
/// compression, adaptive filtering): on success the PNG stream, named
/// `png_of`. The buffer must hold exactly `size * size` RGBA pixels —
/// `write_image` panics on any other length. Writing goes into an
/// in-memory buffer, so once the length fits, the only failure the
/// encoder's source leaves is a zero dimension: for a positive size
/// the call succeeds.
#[verifier::external_body]
fn encode_png_rgba(pixels: &Vec<u8>, size: u32) -> (r: Result<Vec<u8>, String>)
    requires
        pixels@.len() == (size as int) * (size as int) * 4,
    ensures
        size >= 1 ==> r is Ok,
        r matches Ok(v) ==> v@ == png_of(pixels@, size as nat),
{
    let mut png_data: Vec<u8> = Vec::new();
    let mut cursor = std::io::Cursor::new(&mut png_data);
    let encoder = image::codecs::png::PngEncoder::new_with_quality(
        &mut cursor,
        image::codecs::png::CompressionType::Best,
        image::codecs::png::FilterType::Adaptive,
    );
    match image::ImageEncoder::write_image(encoder, pixels.as_slice(), size, size, image::ColorType::Rgba8) {
        Ok(()) => Ok(png_data),
        Err(e) => Err(format!("{}", e)),
    }
}

/// Relies on `url::Url::parse` and `Url::host_str`: whether the text
/// is an absolute URL with a host, named `url_has_host`.
#[verifier::external_body]
fn check_url_has_host(s: &str) -> (r: bool)
    ensures
        r == url_has_host(s@),
{
    match url::Url::parse(s) {
        Ok(u) => u.host_str().is_some(),
        Err(_) => false,
    }
}

/// One byte of the post-processed bitmap: the red and blue channels of
/// each four-byte pixel swap places, and the alpha byte becomes 0 for
/// a pure-black pixel and 255 for every other.
pub open spec fn post_byte(s: Seq<u8>, i: int) -> u8 {
    let q = i / 4;
    let r = i % 4;
    if r == 0 {
        s[4 * q + 2]
    } else if r == 1 {
        s[4 * q + 1]
    } else if r == 2 {
        s[4 * q]
    } else if s[4 * q] == 0 && s[4 * q + 1] == 0 && s[4 * q + 2] == 0 {
        0
    } else {
        255
    }
}

pub open spec fn spec_postprocess(s: Seq<u8>) -> Seq<u8> {
    Seq::new(s.len(), |i: int| post_byte(s, i))
}

/// The transparency matte: reorder each BGRA pixel to RGBA and
/// reinterpret pure black as fully transparent, everything else as
/// fully opaque. Icons with genuine black regions lose those pixels;
/// that chroma-key heuristic is a documented limitation, kept as is.
pub fn postprocess_pixels(bits: &mut Vec<u8>)
    requires
        old(bits)@.len() % 4 == 0,
    ensures
        final(bits)@ == spec_postprocess(old(bits)@),
{
    let ghost orig = bits@;
    let l = bits.len();
    let n = l / 4;
    proof {
        assert(4 * n == orig.len());
    }
    let mut q: usize = 0;
    while q < n
        invariant
            q <= n,
            l == orig.len(),
            4 * n == orig.len(),
            orig.len() % 4 == 0,
            bits@.len() == orig.len(),
            forall|j: int| 0 <= j < 4 * q ==> bits@[j] == post_byte(orig, j),
            forall|j: int| 4 * q <= j < orig.len() ==> bits@[j] == orig[j],
        decreases n - q,
    {
        let b = bits[4 * q];
        let g = bits[4 * q + 1];
        let r = bits[4 * q + 2];
        bits[4 * q] = r;
        bits[4 * q + 2] = b;
        bits[4 * q + 3] = if b == 0 && g == 0 && r == 0 {
            0
        } else {
            255
        };
        q = q + 1;
    }
    proof {
        assert(bits@ =~= spec_postprocess(orig));
    }
}

/// Wrap an encoded image as the data URI the UI consumes.
pub fn wrap_data_uri(b64: &str) -> (r: String)
    ensures
        r@ == "data:image/png;base64,"@ + b64@,
{
    let mut s = String::from_str("data:image/png;base64,");
    s.append(b64);
    s
}

/// The tail of the pipeline, after the platform rasterized an icon
/// into a square BGRA bitmap: matte, reorder, PNG-encode and wrap.
/// Succeeds on every bitmap of the right size.
pub fn icon_bitmap_to_data_uri(bits: &mut Vec<u8>) -> (r: Result<String, String>)
    requires
        old(bits)@.len() == (ICON_SIZE as int) * (ICON_SIZE as int) * 4,
    ensures
        r is Ok,
        r matches Ok(s) ==> s@ == "data:image/png;base64,"@ + base64_of(
            png_of(spec_postprocess(old(bits)@), ICON_SIZE as nat),
        ),
{
    postprocess_pixels(bits);
    match encode_png_rgba(bits, ICON_SIZE) {
        Ok(png) => {
            let b64 = b64_encode(&png);
            Ok(wrap_data_uri(b64.as_str()))
        },
        Err(e) => Err(e),
    }
}

/// Lowercase hex of a byte string, two digits per byte.
pub open spec fn spec_hex(bytes: Seq<u8>) -> Seq<char>
    decreases bytes.len(),
{
    if bytes.len() == 0 {
        Seq::empty()
    } else {
        seq![hex_digit((bytes[0] / 16) as nat), hex_digit((bytes[0] % 16) as nat)] + spec_hex(
            bytes.drop_first(),
        )
    }
}

proof fn lemma_spec_hex_snoc(s: Seq<u8>, i: int)
    requires
        0 <= i < s.len(),
    ensures
        spec_hex(s.subrange(0, i + 1)) == spec_hex(s.subrange(0, i)) + seq![
            hex_digit((s[i] / 16) as nat),
            hex_digit((s[i] % 16) as nat),
        ],
    decreases i,
{
    let pair = seq![hex_digit((s[i] / 16) as nat), hex_digit((s[i] % 16) as nat)];
    if i == 0 {
        assert(s.subrange(0, 1).drop_first() =~= s.subrange(0, 0));
        assert(spec_hex(s.subrange(0, 0)) =~= Seq::<char>::empty());
        assert(spec_hex(s.subrange(0, 1)) =~= pair);
        assert(spec_hex(s.subrange(0, 0)) + pair =~= pair);
    } else {
        let t = s.drop_first();
        lemma_spec_hex_snoc(t, i - 1);
        let p0 = seq![hex_digit((s[0] / 16) as nat), hex_digit((s[0] % 16) as nat)];
        assert(s.subrange(0, i + 1).drop_first() =~= t.subrange(0, i));
        assert(s.subrange(0, i).drop_first() =~= t.subrange(0, i - 1));
        assert(spec_hex(s.subrange(0, i + 1)) == p0 + spec_hex(t.subrange(0, i)));
        assert(spec_hex(s.subrange(0, i)) == p0 + spec_hex(t.subrange(0, i - 1)));
        assert(t.subrange(0, i)[i - 1] == s[i]);
        assert(p0 + (spec_hex(t.subrange(0, i - 1)) + pair) =~= (p0 + spec_hex(
            t.subrange(0, i - 1),
        )) + pair);
    }
}

pub fn to_hex(bytes: &Vec<u8>) -> (r: Vec<char>)
    ensures
        r@ == spec_hex(bytes@),
{
    let mut r: Vec<char> = Vec::new();
    proof {
        assert(r@ =~= spec_hex(bytes@.subrange(0, 0)));
    }
    let mut i: usize = 0;
    while i < bytes.len()
        invariant
            i <= bytes@.len(),
            r@ == spec_hex(bytes@.subrange(0, i as int)),
        decreases bytes.len() - i,
    {
        let ghost pre = bytes@.subrange(0, i as int);
        let b = bytes[i];
        r.push(hex_digit_exec(b / 16));
        r.push(hex_digit_exec(b % 16));
        proof {
            lemma_spec_hex_snoc(bytes@, i as int);
            assert(spec_hex(pre) + seq![
                hex_digit((bytes@[i as int] / 16) as nat),
                hex_digit((bytes@[i as int] % 16) as nat),
            ] =~= r@);
        }
        i = i + 1;
    }
    proof {
        assert(bytes@.subrange(0, bytes@.len() as int) =~= bytes@);
    }
    r
}

/// The override store's file name for an application path: the hex MD5
/// of the path string (not of any file content), plus the image
/// extension. The key survives rescans because the path string, not
/// the scanned record, addresses it.
pub fn custom_icon_file_name(app_path: &str) -> (r: String)
    ensures
        r@ == spec_hex(md5_of(app_path@)) + ".png"@,
{
    let d = md5_digest(app_path);
    let h = to_hex(&d);
    let mut s = string_of(&h);
    s.append(".png");
    s
}

/// The temporary name a fresh override icon is first written under,
/// beside the final name.
pub fn custom_icon_temp_name(app_path: &str) -> (r: String)
    ensures
        r@ == spec_hex(md5_of(app_path@)) + ".tmp"@,
        r@ != spec_hex(md5_of(app_path@)) + ".png"@,
{
    let d = md5_digest(app_path);
    let h = to_hex(&d);
    let mut s = string_of(&h);
    s.append(".tmp");
    proof {
        lemma_temp_name_distinct(spec_hex(md5_of(app_path@)));
    }
    s
}

/// The temporary name never equals the final name, whatever the
/// digest: a write into the temporary file followed by a rename can
/// therefore never expose a partly written file under the final name.
pub proof fn lemma_temp_name_distinct(h: Seq<char>)
    ensures
        h + ".png"@ != h + ".tmp"@,
{
    reveal_strlit(".png");
    reveal_strlit(".tmp");
    assert((h + ".png"@)[h.len() as int + 1] == 'p');
    assert((h + ".tmp"@)[h.len() as int + 1] == 't');
}

/// The piece of `s` after its last comma; all of `s` if it has none.
pub open spec fn after_last_comma(s: Seq<char>) -> Seq<char>
    decreases s.len(),
{
    if s.len() == 0 {
        Seq::empty()
    } else if s.last() == ',' {
        Seq::empty()
    } else {
        after_last_comma(s.drop_last()).push(s.last())
    }
}

proof fn lemma_after_last_comma_at(s: Seq<char>, k: int)
    requires
        -1 <= k < s.len(),
        k >= 0 ==> s[k] == ',',
        forall|j: int| k < j < s.len() ==> s[j] != ',',
    ensures
        after_last_comma(s) == s.subrange(k + 1, s.len() as int),
    decreases s.len(),
{
    if s.len() == 0 {
        assert(s.subrange(k + 1, 0) =~= Seq::<char>::empty());
    } else if k == s.len() - 1 {
        assert(s.last() == ',');
        assert(s.subrange(k + 1, s.len() as int) =~= Seq::<char>::empty());
    } else {
        assert(s.last() != ',');
        let t = s.drop_last();
        lemma_after_last_comma_at(t, k);
        assert(t.subrange(k + 1, t.len() as int).push(s.last()) =~= s.subrange(
            k + 1,
            s.len() as int,
        ));
    }
}

fn after_last_comma_exec(v: &Vec<char>) -> (r: Vec<char>)
    ensures
        r@ == after_last_comma(v@),
{
    let mut i: usize = v.len();
    while i > 0 && v[i - 1] != ','
        invariant
            i <= v@.len(),
            forall|j: int| i <= j < v@.len() ==> v@[j] != ',',
        decreases i,
    {
        i = i - 1;
    }
    let r = sub_vec(v, i, v.len());
    proof {
        if i == 0 {
            lemma_after_last_comma_at(v@, -1);
        } else {
            lemma_after_last_comma_at(v@, i - 1);
        }
    }
    r
}

/// The base64 payload of a custom-icon upload: an optional data-URI
/// header (everything up to the last comma) is stripped, and the rest
/// decoded. Succeeds exactly when the stripped payload is base64 the
/// decoder accepts; `Err` carries the decoder's complaint otherwise.
pub fn decode_custom_icon(icon_data: &str) -> (r: Result<Vec<u8>, String>)
    ensures
        r is Ok <==> base64_ok(after_last_comma(icon_data@)),
        r matches Ok(v) ==> v@ == base64_decoded(after_last_comma(icon_data@)),
{
    let cs = chars_of(icon_data);
    let payload = after_last_comma_exec(&cs);
    let p = string_of(&payload);
    b64_decode(p.as_str())
}

/// Where to look next when direct icon extraction failed for a path.
#[derive(Clone, Copy, PartialEq, Eq, Structural, Debug)]
pub enum IconFallback {
    /// A shortcut link: resolve it and retry on the target, one level
    /// of indirection only.
    ResolveLink,
    /// An internet shortcut: stand in a locally installed browser's
    /// icon.
    WebFallback,
    /// Nothing further to try: the failure is reported to the caller.
    NoFallback,
}

pub open spec fn spec_icon_fallback(path: Seq<char>) -> IconFallback {
    if ends_with_seq(lower(path), ".lnk"@) {
        IconFallback::ResolveLink
    } else if ends_with_seq(lower(path), ".url"@) {
        IconFallback::WebFallback
    } else {
        IconFallback::NoFallback
    }
}

pub fn icon_fallback_for(path: &str) -> (r: IconFallback)
    ensures
        r == spec_icon_fallback(path@),
{
    let cs = chars_of(path);
    let low = to_lower(&cs);
    let lnk = chars_of(".lnk");
    let url = chars_of(".url");
    if ends_with_sub(&low, &lnk) {
        IconFallback::ResolveLink
    } else if ends_with_sub(&low, &url) {
        IconFallback::WebFallback
    } else {
        IconFallback::NoFallback
    }
}

/// The fixed, ordered list of browser executables probed for a
/// stand-in icon; the first one present on disk is used.
pub fn browser_candidates() -> (r: Vec<String>)
    ensures
        r@.len() == 3,
        r@[0]@ == "C:\\Program Files\\Google\\Chrome\\Application\\chrome.exe"@,
        r@[1]@ == "C:\\Program Files (x86)\\Microsoft\\Edge\\Application\\msedge.exe"@,
        r@[2]@ == "C:\\Program Files\\Mozilla Firefox\\firefox.exe"@,
{
    let mut v: Vec<String> = Vec::new();
    v.push(String::from_str("C:\\Program Files\\Google\\Chrome\\Application\\chrome.exe"));
    v.push(String::from_str("C:\\Program Files (x86)\\Microsoft\\Edge\\Application\\msedge.exe"));
    v.push(String::from_str("C:\\Program Files\\Mozilla Firefox\\firefox.exe"));
    v
}

/// The fallback chain is capped at one level of indirection: a retry
/// (on a resolved link target, or on a stand-in browser path) is
/// allowed only for the directly requested path, never from a retry.
pub fn retry_allowed(depth: u32) -> (r: bool)
    ensures
        r == (depth == 0),
{
    depth == 0
}

/// Whether an internet shortcut's text carries a well-formed web
/// address: a `URL` value that starts with `http` and parses as a URL
/// with a host. This reports on the shortcut itself; the browser
/// stand-in is probed for every internet shortcut whose direct
/// extraction failed, well-formed or not.
pub fn web_icon_applicable(content: &str) -> (r: bool)
    ensures
        r == (extract_url(content@).len() > 0 && starts_with_seq(extract_url(content@), "http"@)
            && url_has_host(extract_url(content@))),
{
    let cs = chars_of(content);
    let u = extract_url_exec(&cs);
    if u.len() == 0 {
        return false;
    }
    let http = chars_of("http");
    if !starts_with_sub(&u, &http) {
        return false;
    }
    let us = string_of(&u);
    check_url_has_host(us.as_str())
}

} // verus!
