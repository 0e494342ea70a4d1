//! The `href` of an `<image>` element (SVG 2 §6): an inline
//! `data:<mime>;base64,<payload>` URI (RFC 2397) decoded to its bytes, or
//! an external URL kept verbatim for the caller to fetch — and the
//! reverse, the attribute text that re-encodes either form.

use base64::Engine;

use vstd::prelude::*;
use vstd::string::*;

use crate::encoder::{attr_text, attrs_text, opt_attr_text, push_attr, push_attrs, push_opt_attr};
use crate::filter::CrossOrigin;
use crate::parser::{attr, attr_spec, attrs_model, seq_is, Element, SElement};
use crate::strings::{
    char_is_ascii_whitespace, comma_fn, eq_ignore_case, find_char, first_non_ws, is_ascii_ws,
    is_semicolon, is_unicode_ws, last_non_ws, lemma_find_char, lower, push_char, push_str,
    semicolon_fn, split_by, split_trimmed, str_chars, str_eq, str_eq_ignore_case, str_trim, strs_view,
    to_owned_string, trim, trimmed_nonempty, Separator,
};

verus! {

/// What the standard base64 engine decodes `text` to (`None` where it
/// reports an error).
pub uninterp spec fn base64_decoded(text: Seq<char>) -> Option<Seq<u8>>;

/// The character of the RFC 4648 standard alphabet for the 6-bit value
/// `v`.
pub open spec fn base64_digit(v: int) -> char {
    if v < 26 {
        (65 + v) as char
    } else if v < 52 {
        (97 + v - 26) as char
    } else if v < 62 {
        (48 + v - 52) as char
    } else if v == 62 {
        '+'
    } else {
        '/'
    }
}

/// The padded RFC 4648 standard base64 text of `bytes`: each group of
/// three bytes as four characters, a final group of one or two bytes
/// padded with `=`.
pub open spec fn base64_encoded(bytes: Seq<u8>) -> Seq<char>
    decreases bytes.len(),
{
    if bytes.len() == 0 {
        Seq::empty()
    } else if bytes.len() == 1 {
        let n = bytes[0] as int;
        seq![base64_digit(n / 4), base64_digit((n % 4) * 16), '=', '=']
    } else if bytes.len() == 2 {
        let n = bytes[0] as int * 256 + bytes[1] as int;
        seq![base64_digit(n / 1024), base64_digit((n / 16) % 64), base64_digit((n % 16) * 4), '=']
    } else {
        let n = bytes[0] as int * 65536 + bytes[1] as int * 256 + bytes[2] as int;
        seq![
            base64_digit(n / 262144),
            base64_digit((n / 4096) % 64),
            base64_digit((n / 64) % 64),
            base64_digit(n % 64),
        ] + base64_encoded(bytes.subrange(3, bytes.len() as int))
    }
}

/// A character of the RFC 4648 standard alphabet or the `=` pad.
pub open spec fn is_base64_char(c: char) -> bool {
    ('A' <= c && c <= 'Z') || ('a' <= c && c <= 'z') || ('0' <= c && c <= '9') || c == '+' || c
        == '/' || c == '='
}

proof fn lemma_base64_digit(v: int)
    requires
        0 <= v < 64,
    ensures
        is_base64_char(base64_digit(v)),
        base64_digit(v) != '=',
{
}

/// Base64 text is made of the alphabet and the pad.
pub proof fn lemma_base64_chars(bytes: Seq<u8>)
    ensures
        forall|i: int| 0 <= i < base64_encoded(bytes).len() ==> is_base64_char(
            #[trigger] base64_encoded(bytes)[i],
        ),
    decreases bytes.len(),
{
    let e = base64_encoded(bytes);
    if bytes.len() == 1 {
        let n = bytes[0] as int;
        lemma_base64_digit(n / 4);
        lemma_base64_digit((n % 4) * 16);
    } else if bytes.len() == 2 {
        let n = bytes[0] as int * 256 + bytes[1] as int;
        lemma_base64_digit(n / 1024);
        lemma_base64_digit((n / 16) % 64);
        lemma_base64_digit((n % 16) * 4);
    } else if bytes.len() >= 3 {
        let n = bytes[0] as int * 65536 + bytes[1] as int * 256 + bytes[2] as int;
        lemma_base64_digit(n / 262144);
        lemma_base64_digit((n / 4096) % 64);
        lemma_base64_digit((n / 64) % 64);
        lemma_base64_digit(n % 64);
        let rest = bytes.subrange(3, bytes.len() as int);
        lemma_base64_chars(rest);
        assert forall|i: int| 0 <= i < e.len() implies is_base64_char(#[trigger] e[i]) by {
            if i >= 4 {
                assert(e[i] == base64_encoded(rest)[i - 4]);
            }
        }
    }
}

/// Lengths whose padded base64 size fits in a `usize`.
pub open spec fn encodable_len(n: nat) -> bool {
    n / 3 * 4 + 4 <= usize::MAX
}

/// `base64::Engine::decode` with `general_purpose::STANDARD` on the UTF-8
/// bytes of `text`. The result is named, not stated: the decoder's
/// acceptance rules (alphabet, padding, trailing bits) are the crate's.
#[verifier::external_body]
fn base64_decode(text: &str) -> (r: Option<Vec<u8>>)
    ensures
        match r {
            Some(b) => base64_decoded(text@) == Some(b@),
            None => base64_decoded(text@) is None,
        },
{
    base64::engine::general_purpose::STANDARD.decode(text.as_bytes()).ok()
}

/// `base64::Engine::encode` with `general_purpose::STANDARD`: the padded
/// RFC 4648 standard-alphabet text of `bytes` ([`base64_encoded`]), which
/// the same engine decodes back to `bytes`. The crate panics only when
/// the encoded length overflows a `usize`, which `requires` leaves out.
#[verifier::external_body]
fn base64_encode(bytes: &[u8]) -> (r: String)
    requires
        encodable_len(bytes@.len()),
    ensures
        r@ == base64_encoded(bytes@),
        base64_decoded(r@) == Some(bytes@),
{
    base64::engine::general_purpose::STANDARD.encode(bytes)
}

/// An `<image>` element's `href` resolved into one of the two encodable
/// shapes: an inline base64-decoded blob or an external URL.
#[derive(Clone, Debug)]
pub enum ImageHref {
    /// Inline `data:image/<mime>;base64,<payload>` URI per RFC 2397.
    /// `mime` is the MIME type (e.g. `"image/png"`, possibly empty); the
    /// `;base64` flag and any other parameters are stripped.
    DataUri {
        mime: String,
        /// Decoded raster payload.
        bytes: Vec<u8>,
    },
    /// External URL, captured verbatim. Nothing is fetched.
    External(String),
}

/// Mathematical model of an [`ImageHref`].
pub enum HrefModel {
    DataUri { mime: Seq<char>, bytes: Seq<u8> },
    External(Seq<char>),
}

impl View for ImageHref {
    type V = HrefModel;

    open spec fn view(&self) -> HrefModel {
        match self {
            ImageHref::DataUri { mime, bytes } => HrefModel::DataUri { mime: mime@, bytes: bytes@ },
            ImageHref::External(u) => HrefModel::External(u@),
        }
    }
}

/// The text after a `data:` (or `DATA:`) scheme prefix.
pub open spec fn strip_data_scheme(r: Seq<char>) -> Option<Seq<char>> {
    if r.len() >= 5 && (r.take(5) == "data:"@ || r.take(5) == "DATA:"@) {
        Some(r.subrange(5, r.len() as int))
    } else {
        None
    }
}

/// Whether one of the `;`-separated parameters of a data URI header is
/// `base64` (trimmed, any ASCII case).
pub open spec fn has_base64_flag(header: Seq<char>) -> bool {
    let ps = trimmed_nonempty(split_by(header, semicolon_fn()));
    exists|i: int| 0 <= i < ps.len() && eq_ignore_case(#[trigger] ps[i], "base64"@)
}

/// The MIME type of a data URI header: its first `;`-separated piece,
/// trimmed.
pub open spec fn mime_of(header: Seq<char>) -> Seq<char> {
    trim(header.take(find_char(header, 0, semicolon_fn())))
}

/// `s` without its ASCII whitespace characters.
pub open spec fn strip_ascii_ws(s: Seq<char>) -> Seq<char>
    decreases s.len(),
{
    if s.len() == 0 {
        Seq::empty()
    } else if is_ascii_ws(s.last()) {
        strip_ascii_ws(s.drop_last())
    } else {
        strip_ascii_ws(s.drop_last()).push(s.last())
    }
}

/// The meaning of an `href` value: `None` when it is empty, or a data URI
/// without a `,`, or a base64 data URI whose payload (ASCII whitespace
/// removed) does not decode; a data URI without the `base64` flag is kept
/// as an external reference.
pub open spec fn parse_image_href_spec(raw: Seq<char>) -> Option<HrefModel> {
    let r = trim(raw);
    if r.len() == 0 {
        None
    } else {
        match strip_data_scheme(r) {
            None => Some(HrefModel::External(r)),
            Some(rest) => {
                let comma = find_char(rest, 0, comma_fn());
                if comma >= rest.len() {
                    None
                } else {
                    let header = rest.take(comma);
                    let payload = rest.subrange(comma + 1, rest.len() as int);
                    if !has_base64_flag(header) {
                        Some(HrefModel::External(r))
                    } else {
                        match base64_decoded(strip_ascii_ws(payload)) {
                            Some(b) => Some(HrefModel::DataUri { mime: mime_of(header), bytes: b }),
                            None => None,
                        }
                    }
                }
            }
        }
    }
}

/// The attribute text of an `href`.
pub open spec fn href_attr_spec(h: HrefModel) -> Seq<char> {
    match h {
        HrefModel::DataUri { mime, bytes } => "data:"@ + mime + ";base64,"@ + base64_encoded(bytes),
        HrefModel::External(u) => u,
    }
}

/// Whether the `href` can be written as text.
pub open spec fn href_encodable(h: HrefModel) -> bool {
    match h {
        HrefModel::DataUri { bytes, .. } => encodable_len(bytes.len()),
        HrefModel::External(_) => true,
    }
}

/// The `href` values that read back as themselves: a MIME type with no
/// `;` or `,` and no surrounding whitespace; a non-empty trimmed URL
/// that does not start with a `data:` scheme.
pub open spec fn href_round_trips(h: HrefModel) -> bool {
    match h {
        HrefModel::DataUri { mime, .. } => {
            &&& trim(mime) == mime
            &&& forall|i: int| 0 <= i < mime.len() ==> #[trigger] mime[i] != ';' && mime[i] != ','
        },
        HrefModel::External(u) => u.len() > 0 && trim(u) == u && strip_data_scheme(u) is None,
    }
}

/// Position of the first `target` in `v[start..end]`, as `find_char` on
/// that slice counts it, plus `start`.
fn find_in(v: &Vec<char>, start: usize, end: usize, target: char, Ghost(pred): Ghost<
    spec_fn(char) -> bool,
>) -> (r: usize)
    requires
        start <= end <= v.len(),
        forall|c: char| #[trigger] pred(c) == (c == target),
    ensures
        r == start + find_char(v@.subrange(start as int, end as int), 0, pred),
        start <= r <= end,
{
    let ghost s = v@.subrange(start as int, end as int);
    let mut i: usize = start;
    proof {
        lemma_find_char(s, 0, pred);
    }
    while i < end && v[i] != target
        invariant
            start <= i <= end <= v.len(),
            s == v@.subrange(start as int, end as int),
            forall|c: char| #[trigger] pred(c) == (c == target),
            find_char(s, 0, pred) == find_char(s, i - start, pred),
        decreases end - i,
    {
        assert(s[i - start] == v@[i as int]);
        i += 1;
    }
    proof {
        lemma_find_char(s, i - start, pred);
    }
    i
}

/// Parse the contents of an `href` / `xlink:href` attribute on `<image>`.
pub fn parse_image_href(raw: &str) -> (r: Option<ImageHref>)
    ensures
        match r {
            Some(h) => parse_image_href_spec(raw@) == Some(h@),
            None => parse_image_href_spec(raw@) is None,
        },
{
    let t = str_trim(raw);
    let v = str_chars(t);
    let n: usize = v.len();
    if n == 0 {
        return None;
    }
    proof {
        reveal_strlit("data:");
        reveal_strlit("DATA:");
    }
    let is_data: bool = n >= 5 && (seq_is(&v, 0, 5, "data:") || seq_is(&v, 0, 5, "DATA:"));
    assert(n >= 5 ==> v@.subrange(0, 5) =~= t@.take(5));
    if !is_data {
        return Some(ImageHref::External(to_owned_string(t)));
    }
    let ghost rest = t@.subrange(5, n as int);
    let c: usize = find_in(&v, 5, n, ',', Ghost(comma_fn()));
    assert(v@.subrange(5, n as int) =~= rest);
    if c >= n {
        return None;
    }
    let header = t.substring_char(5, c);
    assert(header@ =~= rest.take(c - 5));
    let pieces = split_trimmed(header, Separator::Semicolon);
    let ghost ps = trimmed_nonempty(split_by(header@, semicolon_fn()));
    let mut is_b64: bool = false;
    let mut k: usize = 0;
    while k < pieces.len() && !is_b64
        invariant
            k <= pieces.len(),
            strs_view(pieces@) == ps,
            ps == trimmed_nonempty(split_by(header@, semicolon_fn())),
            is_b64 ==> has_base64_flag(header@),
            !is_b64 ==> forall|j: int| 0 <= j < k ==> !eq_ignore_case(#[trigger] ps[j], "base64"@),
        decreases pieces.len() - k,
    {
        assert(ps[k as int] == pieces@[k as int]@);
        if str_eq_ignore_case(pieces[k], "base64") {
            is_b64 = true;
            assert(eq_ignore_case(ps[k as int], "base64"@));
        }
        k += 1;
    }
    if !is_b64 {
        assert(!has_base64_flag(header@));
        return Some(ImageHref::External(to_owned_string(t)));
    }
    let m: usize = find_in(&v, 5, c, ';', Ghost(semicolon_fn()));
    assert(v@.subrange(5, c as int) =~= header@);
    let mime_str = t.substring_char(5, m);
    assert(mime_str@ =~= header@.take(m - 5));
    let mime = to_owned_string(str_trim(mime_str));
    let mut cleaned = String::new();
    let mut i: usize = c + 1;
    assert(t@.subrange(c + 1, c + 1) =~= Seq::<char>::empty());
    while i < n
        invariant
            c + 1 <= i <= n == v.len(),
            v@ == t@,
            cleaned@ == strip_ascii_ws(t@.subrange(c + 1, i as int)),
        decreases n - i,
    {
        assert(t@.subrange(c + 1, i + 1).drop_last() =~= t@.subrange(c + 1, i as int));
        if !char_is_ascii_whitespace(v[i]) {
            push_char(&mut cleaned, v[i]);
        }
        i += 1;
    }
    assert(t@.subrange(c + 1, n as int) =~= rest.subrange(c - 5 + 1, rest.len() as int));
    match base64_decode(cleaned.as_str()) {
        Some(bytes) => Some(ImageHref::DataUri { mime, bytes }),
        None => None,
    }
}

/// `find_char` stops at the first character satisfying the predicate.
#[verifier::spinoff_prover]
proof fn lemma_find_char_at(s: Seq<char>, i: int, j: int, pred: spec_fn(char) -> bool)
    requires
        0 <= i <= j <= s.len(),
        forall|k: int| i <= k < j ==> !pred(#[trigger] s[k]),
        j < s.len() ==> pred(s[j]),
    ensures
        find_char(s, i, pred) == j,
    decreases j - i,
{
    if i < j {
        lemma_find_char_at(s, i + 1, j, pred);
    }
}

/// Trimming a sequence that neither starts nor ends with whitespace
/// changes nothing.
#[verifier::spinoff_prover]
proof fn lemma_trim_unchanged(s: Seq<char>)
    requires
        s.len() > 0 ==> !is_unicode_ws(s[0]) && !is_unicode_ws(s.last()),
    ensures
        trim(s) == s,
{
    assert(first_non_ws(s, 0) == 0);
    assert(last_non_ws(s, 0, s.len() as int) == s.len());
    assert(s.subrange(0, s.len() as int) =~= s);
}

#[verifier::spinoff_prover]
proof fn lemma_base64_char_not_ws(c: char)
    requires
        is_base64_char(c),
    ensures
        !is_unicode_ws(c),
        !is_ascii_ws(c),
        c != ',',
        c != ';',
{
}

#[verifier::spinoff_prover]
proof fn lemma_strip_base64(s: Seq<char>)
    requires
        forall|i: int| 0 <= i < s.len() ==> is_base64_char(#[trigger] s[i]),
    ensures
        strip_ascii_ws(s) == s,
    decreases s.len(),
{
    if s.len() > 0 {
        lemma_base64_char_not_ws(s.last());
        assert forall|i: int| 0 <= i < s.drop_last().len() implies is_base64_char(
            #[trigger] s.drop_last()[i],
        ) by {
            assert(s.drop_last()[i] == s[i]);
        }
        lemma_strip_base64(s.drop_last());
        assert(s.drop_last().push(s.last()) =~= s);
    }
}

/// The text of an inline image reads back as the same MIME type and
/// bytes.
#[verifier::spinoff_prover]
#[verifier::rlimit(60)]
proof fn lemma_data_uri_reads_back(mime: Seq<char>, bytes: Seq<u8>, enc: Seq<char>)
    requires
        forall|i: int| 0 <= i < enc.len() ==> is_base64_char(#[trigger] enc[i]),
        base64_decoded(enc) == Some(bytes),
        href_round_trips(HrefModel::DataUri { mime, bytes }),
    ensures
        parse_image_href_spec("data:"@ + mime + ";base64,"@ + enc) == Some(
            HrefModel::DataUri { mime, bytes },
        ),
{
    reveal_strlit("data:");
    reveal_strlit(";base64,");
    reveal_strlit("base64");
    let lit_b64 = "base64"@;
    let r = "data:"@ + mime + ";base64,"@ + enc;
    let m = mime.len() as int;
    assert(r[0] == 'd');
    if enc.len() > 0 {
        assert(r.last() == enc.last());
        lemma_base64_char_not_ws(enc.last());
    } else {
        assert(r.last() == ',');
    }
    lemma_trim_unchanged(r);
    assert(r.take(5) =~= "data:"@);
    let rest = r.subrange(5, r.len() as int);
    assert(rest =~= mime + ";base64,"@ + enc);
    assert forall|k: int| 0 <= k < m + 7 implies !comma_fn()(#[trigger] rest[k]) by {
        if k < m {
            assert(rest[k] == mime[k]);
        } else {
            assert(rest[k] == ";base64,"@[k - m]);
        }
    }
    assert(rest[m + 7] == ',');
    lemma_find_char_at(rest, 0, m + 7, comma_fn());
    let header = rest.take(m + 7);
    assert(header =~= mime + (";base64,"@).take(7));
    assert(rest.subrange(m + 8, rest.len() as int) =~= enc);
    // The header splits into the MIME type and the flag.
    assert forall|k: int| 0 <= k < m implies !semicolon_fn()(#[trigger] header[k]) by {
        assert(header[k] == mime[k]);
    }
    assert(header[m] == ';');
    lemma_find_char_at(header, 0, m, semicolon_fn());
    assert(header.take(m) =~= mime);
    let tail = header.subrange(m + 1, header.len() as int);
    assert(tail =~= lit_b64);
    assert forall|k: int| 0 <= k < tail.len() implies !semicolon_fn()(#[trigger] tail[k]) by {
        assert(tail[k] == lit_b64[k]);
    }
    lemma_find_char_at(tail, 0, tail.len() as int, semicolon_fn());
    assert(split_by(tail, semicolon_fn()) == seq![tail]);
    assert(header.subrange(0, m) =~= mime);
    assert(split_by(header, semicolon_fn()) =~= seq![mime, tail]);
    assert(tail[0] == 'b' && tail.last() == '4');
    lemma_trim_unchanged(tail);
    let pieces = seq![mime, tail];
    assert(pieces.drop_last() =~= seq![mime]);
    let tn = trimmed_nonempty(pieces);
    assert(tn.last() == tail);
    assert(eq_ignore_case(tn[tn.len() - 1], lit_b64));
    assert(has_base64_flag(header));
    assert(mime_of(header) == mime);
    lemma_strip_base64(enc);
}

impl ImageHref {
    /// Re-encode the `href` into the text the `<image>` attribute
    /// expects: `data:<mime>;base64,<payload>` for inline bytes, the
    /// captured URL verbatim for an external reference.
    pub fn to_href_attr(&self) -> (r: String)
        requires
            href_encodable(self@),
        ensures
            r@ == href_attr_spec(self@),
            href_round_trips(self@) ==> parse_image_href_spec(r@) == Some(self@),
    {
        match self {
            ImageHref::DataUri { mime, bytes } => {
                let encoded = base64_encode(bytes.as_slice());
                proof {
                    lemma_base64_chars(bytes@);
                }
                let mut out = String::new();
                push_str(&mut out, "data:");
                push_str(&mut out, mime.as_str());
                push_str(&mut out, ";base64,");
                push_str(&mut out, encoded.as_str());
                proof {
                    if href_round_trips(self@) {
                        lemma_data_uri_reads_back(mime@, bytes@, encoded@);
                    }
                }
                out
            },
            ImageHref::External(url) => to_owned_string(url.as_str()),
        }
    }
}

/// The `<image>` attributes with a dedicated slot on a captured image.
pub open spec fn has_image_slot(k: Seq<char>) -> bool {
    ||| k == "href"@
    ||| k == "xlink:href"@
    ||| k == "x"@
    ||| k == "y"@
    ||| k == "width"@
    ||| k == "height"@
    ||| k == "transform"@
    ||| k == "id"@
    ||| k == "preserveAspectRatio"@
    ||| k == "image-rendering"@
}

/// The attributes a captured image keeps verbatim, in document order:
/// all but those with a slot, and but `crossorigin` when it was read
/// into its typed slot.
pub open spec fn image_extra_spec(attrs: Seq<(Seq<char>, Seq<char>)>, crossorigin_modelled: bool) -> Seq<
    (Seq<char>, Seq<char>),
>
    decreases attrs.len(),
{
    if attrs.len() == 0 {
        Seq::empty()
    } else {
        let r = image_extra_spec(attrs.drop_last(), crossorigin_modelled);
        let k = attrs.last().0;
        if has_image_slot(k) || (k == "crossorigin"@ && crossorigin_modelled) {
            r
        } else {
            r.push(attrs.last())
        }
    }
}

fn is_image_slot(k: &str) -> (b: bool)
    ensures
        b == has_image_slot(k@),
{
    str_eq(k, "href") || str_eq(k, "xlink:href") || str_eq(k, "x") || str_eq(k, "y") || str_eq(
        k,
        "width",
    ) || str_eq(k, "height") || str_eq(k, "transform") || str_eq(k, "id") || str_eq(
        k,
        "preserveAspectRatio",
    ) || str_eq(k, "image-rendering")
}

/// Sweep up the attributes of an `<image>` element that the typed
/// slots do not model, preserving document order.
pub fn image_extra_attrs(el: &Element, crossorigin_modelled: bool) -> (r: Vec<(String, String)>)
    ensures
        attrs_model(r@) == image_extra_spec(attrs_model(el.attrs@), crossorigin_modelled),
{
    let ghost a = attrs_model(el.attrs@);
    let mut out: Vec<(String, String)> = Vec::new();
    let mut i: usize = 0;
    while i < el.attrs.len()
        invariant
            i <= el.attrs.len(),
            a == attrs_model(el.attrs@),
            attrs_model(out@) == image_extra_spec(a.take(i as int), crossorigin_modelled),
        decreases el.attrs.len() - i,
    {
        let k = el.attrs[i].0.as_str();
        let v = el.attrs[i].1.as_str();
        assert(a.take(i + 1).drop_last() =~= a.take(i as int));
        assert(a.take(i + 1).last() == a[i as int]);
        assert(a[i as int] == (k@, v@));
        if !(is_image_slot(k) || (str_eq(k, "crossorigin") && crossorigin_modelled)) {
            let ghost before = attrs_model(out@);
            out.push((to_owned_string(k), to_owned_string(v)));
            assert(attrs_model(out@) =~= before.push((k@, v@)));
        }
        i += 1;
    }
    assert(a.take(i as int) =~= a);
    out
}

/// A coordinate or size of an `<image>` as written: the author's text,
/// which is attribute-escaped, or a number the writer formatted, which is
/// written as it is.
#[derive(Clone, Debug)]
pub enum CoordText {
    Source(String),
    Formatted(String),
}

/// ` name="value"` with the value written as it is.
pub open spec fn plain_attr_text(name: Seq<char>, value: Seq<char>) -> Seq<char> {
    seq![' '] + name + seq!['=', '"'] + value + seq!['"']
}

/// A coordinate attribute: nothing when absent.
pub open spec fn coord_attr_text(name: Seq<char>, v: Option<CoordText>) -> Seq<char> {
    match v {
        Some(CoordText::Source(t)) => attr_text(name, t@),
        Some(CoordText::Formatted(t)) => plain_attr_text(name, t@),
        None => Seq::empty(),
    }
}

/// The attributes of an `<image>` element in their textual form.
#[derive(Clone, Debug)]
pub struct ImageAttrs {
    pub id: Option<String>,
    pub x: Option<CoordText>,
    pub y: Option<CoordText>,
    pub width: Option<CoordText>,
    pub height: Option<CoordText>,
    /// A `matrix(...)` the writer formatted, written as it is.
    pub transform: Option<String>,
    pub preserve_aspect_ratio: Option<String>,
    pub image_rendering: Option<String>,
    pub crossorigin: Option<CrossOrigin>,
    /// Attributes without a slot, in document order.
    pub extra_attrs: Vec<(String, String)>,
    pub href: ImageHref,
}

/// The start of an `<image>` line: the tag name, `id` and the four
/// coordinates.
pub open spec fn image_head_text(indent: Seq<char>, a: ImageAttrs) -> Seq<char> {
    indent + "<image"@ + opt_attr_text("id"@, a.id) + coord_attr_text("x"@, a.x) + coord_attr_text(
        "y"@,
        a.y,
    ) + coord_attr_text("width"@, a.width) + coord_attr_text("height"@, a.height)
}

/// The presentation attributes of an `<image>` line.
pub open spec fn image_mid_text(a: ImageAttrs) -> Seq<char> {
    (match a.transform {
        Some(t) => plain_attr_text("transform"@, t@),
        None => Seq::empty(),
    }) + opt_attr_text("preserveAspectRatio"@, a.preserve_aspect_ratio) + opt_attr_text(
        "image-rendering"@,
        a.image_rendering,
    ) + match a.crossorigin {
        Some(c) => plain_attr_text("crossorigin"@, c.canonical_keyword()),
        None => Seq::empty(),
    }
}

/// The end of an `<image>` line: the extra attributes, `href` and `/>`.
pub open spec fn image_tail_text(a: ImageAttrs) -> Seq<char> {
    attrs_text(attrs_model(a.extra_attrs@)) + attr_text("href"@, href_attr_spec(a.href@)) + "/>\n"@
}

/// The text [`write_image_element`] appends.
pub open spec fn image_element_text(indent: Seq<char>, a: ImageAttrs) -> Seq<char> {
    image_head_text(indent, a) + image_mid_text(a) + image_tail_text(a)
}

fn push_plain_attr(out: &mut String, name: &str, value: &str)
    ensures
        final(out)@ == old(out)@ + plain_attr_text(name@, value@),
{
    push_char(out, ' ');
    push_str(out, name);
    push_char(out, '=');
    push_char(out, '"');
    push_str(out, value);
    push_char(out, '"');
    assert(out@ =~= old(out)@ + plain_attr_text(name@, value@));
}

fn push_coord_attr(out: &mut String, name: &str, v: &Option<CoordText>)
    ensures
        final(out)@ == old(out)@ + coord_attr_text(name@, *v),
{
    match v {
        Some(CoordText::Source(t)) => push_attr(out, name, t.as_str()),
        Some(CoordText::Formatted(t)) => push_plain_attr(out, name, t.as_str()),
        None => {
            assert(out@ =~= old(out)@ + coord_attr_text(name@, *v));
        },
    }
}

fn write_image_head(out: &mut String, indent: &str, a: &ImageAttrs)
    ensures
        final(out)@ == old(out)@ + image_head_text(indent@, *a),
{
    let ghost start = old(out)@;
    push_str(out, indent);
    push_str(out, "<image");
    push_opt_attr(out, "id", &a.id);
    push_coord_attr(out, "x", &a.x);
    push_coord_attr(out, "y", &a.y);
    push_coord_attr(out, "width", &a.width);
    push_coord_attr(out, "height", &a.height);
    assert(out@ =~= start + image_head_text(indent@, *a));
}

fn write_image_mid(out: &mut String, a: &ImageAttrs)
    ensures
        final(out)@ == old(out)@ + image_mid_text(*a),
{
    let ghost start = old(out)@;
    match &a.transform {
        Some(t) => push_plain_attr(out, "transform", t.as_str()),
        None => {},
    }
    push_opt_attr(out, "preserveAspectRatio", &a.preserve_aspect_ratio);
    push_opt_attr(out, "image-rendering", &a.image_rendering);
    match &a.crossorigin {
        Some(c) => push_plain_attr(out, "crossorigin", c.as_canonical_str()),
        None => {},
    }
    assert(out@ =~= start + image_mid_text(*a));
}

fn write_image_tail(out: &mut String, a: &ImageAttrs)
    requires
        href_encodable(a.href@),
    ensures
        final(out)@ == old(out)@ + image_tail_text(*a),
{
    let ghost start = old(out)@;
    push_attrs(out, &a.extra_attrs);
    let href = a.href.to_href_attr();
    push_attr(out, "href", href.as_str());
    push_str(out, "/>\n");
    assert(out@ =~= start + image_tail_text(*a));
}

/// Append one `<image .../>` line after `indent`: `id`, `x`, `y`,
/// `width`, `height`, `transform`, `preserveAspectRatio`,
/// `image-rendering`, `crossorigin` where present, then the extra
/// attributes, then `href`.
pub fn write_image_element(out: &mut String, indent: &str, a: &ImageAttrs)
    requires
        href_encodable(a.href@),
    ensures
        final(out)@ == old(out)@ + image_element_text(indent@, *a),
{
    let ghost start = old(out)@;
    write_image_head(out, indent, a);
    write_image_mid(out, a);
    write_image_tail(out, a);
    assert(out@ =~= start + image_element_text(indent@, *a));
}

/// The `href` attribute of an `<image>` element, or failing that its
/// `xlink:href` attribute.
pub open spec fn image_href_text(e: SElement) -> Option<Seq<char>> {
    match attr_spec(e, "href"@) {
        Some(v) => Some(v),
        None => attr_spec(e, "xlink:href"@),
    }
}

/// The `href` of an `<image>` element, trimmed and read by
/// [`parse_image_href`]; `None` when the element has none or it does not
/// read.
pub fn image_href_of(el: &Element) -> (r: Option<ImageHref>)
    ensures
        match image_href_text(el.model()) {
            None => r is None,
            Some(v) => match parse_image_href_spec(trim(v)) {
                Some(m) => r is Some && r->0@ == m,
                None => r is None,
            },
        },
{
    let raw = match attr(el, "href") {
        Some(v) => v,
        None => match attr(el, "xlink:href") {
            Some(v) => v,
            None => return None,
        },
    };
    parse_image_href(str_trim(raw))
}

} // verus!
