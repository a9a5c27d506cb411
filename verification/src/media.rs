//! Files shown or opened from the application: preview images as data
//! URLs (with their MIME type and Base64 text) and the checks before a file
//! is opened.
use vstd::prelude::*;
use crate::paths::{extension_of_path, path_extension};
use crate::parser::ascii_lower_seq;
use crate::text::{append_str, chars_of, concat_str, has_prefix, starts_with, str_eq, string_of, trim, trim_str};

verus! {

/// The Base64 digit of a six-bit value.
pub open spec fn b64_digit(v: int) -> char {
    if v < 26 {
        (('A' as int) + v) as char
    } else if v < 52 {
        (('a' as int) + v - 26) as char
    } else if v < 62 {
        (('0' as int) + v - 52) as char
    } else if v == 62 {
        '+'
    } else {
        '/'
    }
}

/// The four characters of a group of one to three bytes: missing bytes
/// count as zero and their characters are `=`.
pub open spec fn b64_group(b: Seq<u8>) -> Seq<char> {
    let b0 = b[0] as int;
    let b1 = if b.len() > 1 { b[1] as int } else { 0 };
    let b2 = if b.len() > 2 { b[2] as int } else { 0 };
    let triple = b0 * 65536 + b1 * 256 + b2;
    seq![
        b64_digit(triple / 262144 % 64),
        b64_digit(triple / 4096 % 64),
        if b.len() > 1 { b64_digit(triple / 64 % 64) } else { '=' },
        if b.len() > 2 { b64_digit(triple % 64) } else { '=' },
    ]
}

/// Standard Base64 with padding.
pub open spec fn b64(bytes: Seq<u8>) -> Seq<char>
    decreases bytes.len(),
{
    if bytes.len() == 0 {
        Seq::empty()
    } else if bytes.len() <= 3 {
        b64_group(bytes)
    } else {
        b64_group(bytes.take(3)) + b64(bytes.skip(3))
    }
}

fn b64_digit_exec(v: u32) -> (r: char)
    requires
        v < 64,
    ensures
        r == b64_digit(v as int),
{
    if v < 26 {
        (('A' as u8) + (v as u8)) as char
    } else if v < 52 {
        (('a' as u8) + (v as u8) - 26) as char
    } else if v < 62 {
        (('0' as u8) + (v as u8) - 52) as char
    } else if v == 62 {
        '+'
    } else {
        '/'
    }
}

/// The Base64 text of `bytes` (see `b64`).
pub fn base64_encode(bytes: &[u8]) -> (r: String)
    ensures
        r@ == b64(bytes@),
{
    let mut out: Vec<char> = Vec::new();
    let mut i: usize = 0;
    assert(bytes@.skip(0) =~= bytes@);
    while i < bytes.len()
        invariant
            i <= bytes@.len(),
            out@ + b64(bytes@.skip(i as int)) == b64(bytes@),
        decreases bytes@.len() - i,
    {
        let n = bytes.len() - i;
        let b0 = bytes[i] as u32;
        let b1: u32 = if n > 1 { bytes[i + 1] as u32 } else { 0 };
        let b2: u32 = if n > 2 { bytes[i + 2] as u32 } else { 0 };
        let triple: u32 = b0 * 65536 + b1 * 256 + b2;
        let ghost rest = bytes@.skip(i as int);
        let ghost group = if rest.len() <= 3 { rest } else { rest.take(3) };
        assert(group[0] == bytes@[i as int]);
        assert(group.len() > 1 ==> group[1] == bytes@[i + 1]);
        assert(group.len() > 2 ==> group[2] == bytes@[i + 2]);
        let ghost before = out@;
        out.push(b64_digit_exec(triple / 262144 % 64));
        out.push(b64_digit_exec(triple / 4096 % 64));
        if n > 1 {
            out.push(b64_digit_exec(triple / 64 % 64));
        } else {
            out.push('=');
        }
        if n > 2 {
            out.push(b64_digit_exec(triple % 64));
        } else {
            out.push('=');
        }
        assert(out@ =~= before + b64_group(group));
        if n <= 3 {
            assert(b64(rest) == b64_group(rest));
            i = bytes.len();
            assert(bytes@.skip(i as int).len() == 0);
            assert(out@ + b64(bytes@.skip(i as int)) =~= out@);
        } else {
            assert(rest.skip(3) =~= bytes@.skip(i + 3));
            i = i + 3;
        }
    }
    assert(b64(bytes@.skip(i as int)) =~= Seq::<char>::empty());
    assert(out@ + Seq::<char>::empty() =~= out@);
    string_of(out.as_slice())
}

/// The six-bit value of a Base64 digit (0 for any other character).
pub open spec fn b64_value(c: char) -> int {
    if 'A' <= c && c <= 'Z' {
        c as int - 'A' as int
    } else if 'a' <= c && c <= 'z' {
        c as int - 'a' as int + 26
    } else if '0' <= c && c <= '9' {
        c as int - '0' as int + 52
    } else if c == '+' {
        62
    } else if c == '/' {
        63
    } else {
        0
    }
}

/// The bytes of four Base64 characters; a `=` in the third or fourth place
/// marks a missing byte.
pub open spec fn b64_ungroup(g: Seq<char>) -> Seq<u8> {
    let v = b64_value(g[0]) * 262144 + b64_value(g[1]) * 4096 + (if g[2] == '=' { 0 } else { b64_value(g[2]) * 64 })
        + (if g[3] == '=' { 0 } else { b64_value(g[3]) });
    let first = seq![(v / 65536 % 256) as u8];
    if g[2] == '=' {
        first
    } else if g[3] == '=' {
        first.push((v / 256 % 256) as u8)
    } else {
        first.push((v / 256 % 256) as u8).push((v % 256) as u8)
    }
}

/// Standard Base64 decoding of padded text, four characters at a time.
pub open spec fn b64_decode(s: Seq<char>) -> Seq<u8>
    decreases s.len(),
{
    if s.len() < 4 {
        Seq::empty()
    } else {
        b64_ungroup(s.take(4)) + b64_decode(s.skip(4))
    }
}

/// A character of the Base64 alphabet, or the padding `=`.
pub open spec fn is_b64_char(c: char) -> bool {
    ||| ('A' <= c && c <= 'Z')
    ||| ('a' <= c && c <= 'z')
    ||| ('0' <= c && c <= '9')
    ||| c == '+'
    ||| c == '/'
    ||| c == '='
}

proof fn lemma_b64_digit(x: int)
    requires
        0 <= x < 64,
    ensures
        b64_value(b64_digit(x)) == x,
        b64_digit(x) != '=',
        is_b64_char(b64_digit(x)),
{
    let c = b64_digit(x);
    if x < 26 {
        assert(c as int == 'A' as int + x);
    } else if x < 52 {
        assert(c as int == 'a' as int + x - 26);
    } else if x < 62 {
        assert(c as int == '0' as int + x - 52);
    }
}

proof fn lemma_triple_bits(b0: u32, b1: u32, b2: u32)
    by (bit_vector)
    requires
        b0 < 256,
        b1 < 256,
        b2 < 256,
    ensures
        ((b0 * 65536 + b1 * 256 + b2) / 262144 % 64) * 262144 + ((b0 * 65536 + b1 * 256 + b2) / 4096 % 64) * 4096
            + ((b0 * 65536 + b1 * 256 + b2) / 64 % 64) * 64 + (b0 * 65536 + b1 * 256 + b2) % 64
            == b0 * 65536 + b1 * 256 + b2,
        b2 == 0 ==> (b0 * 65536 + b1 * 256 + b2) % 64 == 0,
        b1 == 0 && b2 == 0 ==> (b0 * 65536 + b1 * 256 + b2) / 64 % 64 == 0,
        (b0 * 65536 + b1 * 256 + b2) / 65536 % 256 == b0,
        (b0 * 65536 + b1 * 256 + b2) / 256 % 256 == b1,
        (b0 * 65536 + b1 * 256 + b2) % 256 == b2,
{
}

proof fn lemma_triple_digits(b0: int, b1: int, b2: int)
    requires
        0 <= b0 < 256,
        0 <= b1 < 256,
        0 <= b2 < 256,
    ensures
        ({
            let t = b0 * 65536 + b1 * 256 + b2;
            &&& 0 <= t / 262144 % 64 < 64
            &&& 0 <= t / 4096 % 64 < 64
            &&& 0 <= t / 64 % 64 < 64
            &&& 0 <= t % 64 < 64
            &&& (t / 262144 % 64) * 262144 + (t / 4096 % 64) * 4096 + (t / 64 % 64) * 64 + t % 64 == t
            &&& b2 == 0 ==> t % 64 == 0
            &&& b1 == 0 && b2 == 0 ==> t / 64 % 64 == 0
            &&& t / 65536 % 256 == b0
            &&& t / 256 % 256 == b1
            &&& t % 256 == b2
        }),
{
    lemma_triple_bits(b0 as u32, b1 as u32, b2 as u32);
}

proof fn lemma_group_roundtrip(b: Seq<u8>)
    requires
        1 <= b.len() <= 3,
    ensures
        b64_group(b).len() == 4,
        b64_ungroup(b64_group(b)) == b,
        forall|i: int| 0 <= i < 4 ==> is_b64_char(#[trigger] b64_group(b)[i]),
        forall|i: int| 0 <= i < 4 && b64_group(b)[i] == '=' ==> i >= 2 && b.len() < 3,
{
    let b0 = b[0] as int;
    let b1 = if b.len() > 1 { b[1] as int } else { 0 };
    let b2 = if b.len() > 2 { b[2] as int } else { 0 };
    let t = b0 * 65536 + b1 * 256 + b2;
    lemma_triple_digits(b0, b1, b2);
    lemma_b64_digit(t / 262144 % 64);
    lemma_b64_digit(t / 4096 % 64);
    lemma_b64_digit(t / 64 % 64);
    lemma_b64_digit(t % 64);
    let g = b64_group(b);
    let r = b64_ungroup(g);
    if b.len() == 1 {
        assert(r =~= b);
    } else if b.len() == 2 {
        assert(r =~= b);
    } else {
        assert(r =~= b);
    }
}

/// Base64 text decodes back to the bytes it encodes; it holds only characters
/// of the alphabet and `=`, and `=` only among its last two characters.
pub proof fn law_base64_round_trip(bytes: Seq<u8>)
    ensures
        b64_decode(b64(bytes)) == bytes,
        forall|i: int| 0 <= i < b64(bytes).len() ==> is_b64_char(#[trigger] b64(bytes)[i]),
        forall|i: int| 0 <= i < b64(bytes).len() && b64(bytes)[i] == '=' ==> i >= b64(bytes).len() - 2,
    decreases bytes.len(),
{
    if bytes.len() > 0 && bytes.len() <= 3 {
        lemma_group_roundtrip(bytes);
        let g = b64_group(bytes);
        assert(g.take(4) =~= g);
        assert(g.skip(4) =~= Seq::<char>::empty());
        assert(b64_decode(g) == b64_ungroup(g) + b64_decode(Seq::<char>::empty()));
        assert(b64_decode(g) =~= bytes);
    } else if bytes.len() > 3 {
        let head = bytes.take(3);
        let rest = bytes.skip(3);
        law_base64_round_trip(rest);
        lemma_group_roundtrip(head);
        let g = b64_group(head);
        let s = g + b64(rest);
        assert(s.take(4) =~= g);
        assert(s.skip(4) =~= b64(rest));
        assert(b64_decode(s) == b64_ungroup(g) + b64_decode(b64(rest)));
        assert(head + rest =~= bytes);
        assert forall|i: int| 0 <= i < s.len() implies is_b64_char(#[trigger] s[i]) by {
            if i < 4 {
                assert(s[i] == g[i]);
            } else {
                assert(s[i] == b64(rest)[i - 4]);
            }
        }
        assert forall|i: int| 0 <= i < s.len() && s[i] == '=' implies i >= s.len() - 2 by {
            if i < 4 {
                assert(s[i] == g[i]);
            } else {
                assert(s[i] == b64(rest)[i - 4]);
            }
        }
    }
}

/// Four Base64 characters for every started group of three bytes.
pub proof fn law_base64_length(bytes: Seq<u8>)
    ensures
        b64(bytes).len() == 4 * ((bytes.len() + 2) / 3),
    decreases bytes.len(),
{
    if bytes.len() > 3 {
        law_base64_length(bytes.skip(3));
    }
}

/// The MIME type `infer` recognizes in the first bytes of a file.
pub uninterp spec fn sniffed_mime(bytes: Seq<u8>) -> Option<Seq<char>>;

/// `infer::get(bytes)` and the MIME type of the kind it finds; what it
/// recognizes is named, not stated.
#[verifier::external_body]
fn sniff_mime(bytes: &[u8]) -> (r: Option<String>)
    ensures
        match r {
            Some(m) => sniffed_mime(bytes@) == Some(m@),
            None => sniffed_mime(bytes@) is None,
        },
{
    infer::get(bytes).map(|kind| kind.mime_type().to_owned())
}

/// The MIME type of an image by its extension (ASCII case ignored).
pub open spec fn mime_by_extension(ext: Seq<char>) -> Seq<char> {
    let e = ascii_lower_seq(ext);
    if e == "png"@ {
        "image/png"@
    } else if e == "jpg"@ || e == "jpeg"@ {
        "image/jpeg"@
    } else if e == "gif"@ {
        "image/gif"@
    } else if e == "webp"@ {
        "image/webp"@
    } else if e == "bmp"@ {
        "image/bmp"@
    } else if e == "svg"@ {
        "image/svg+xml"@
    } else {
        "application/octet-stream"@
    }
}

/// The MIME type of an image file: what its content says when that is an
/// image type, else what its extension says.
pub open spec fn image_mime(path: Seq<char>, bytes: Seq<u8>) -> Seq<char> {
    match sniffed_mime(bytes) {
        Some(m) => if starts_with(m, "image/"@) {
            m
        } else {
            mime_by_extension(match path_extension(path) { Some(e) => e, None => Seq::empty() })
        },
        None => mime_by_extension(match path_extension(path) { Some(e) => e, None => Seq::empty() }),
    }
}

fn ascii_lower_string(s: &str) -> (r: String)
    ensures
        r@ == ascii_lower_seq(s@),
{
    let cs = chars_of(s);
    let mut out: Vec<char> = Vec::new();
    let mut i: usize = 0;
    while i < cs.len()
        invariant
            i <= cs@.len(),
            cs@ == s@,
            out@ == ascii_lower_seq(s@.take(i as int)),
        decreases cs@.len() - i,
    {
        out.push(crate::search::to_ascii_lower(cs[i]));
        i += 1;
        assert(ascii_lower_seq(s@.take(i as int)) =~= ascii_lower_seq(s@.take(i - 1)).push(crate::search::ascii_lower(s@[i - 1])));
    }
    assert(s@.take(s@.len() as int) =~= s@);
    string_of(out.as_slice())
}

/// `image_mime_from_path` (see `image_mime`).
pub fn image_mime_from_path(path: &str, bytes: &[u8]) -> (r: String)
    ensures
        r@ == image_mime(path@, bytes@),
{
    if let Some(m) = sniff_mime(bytes) {
        if has_prefix(chars_of(m.as_str()).as_slice(), chars_of("image/").as_slice()) {
            return m;
        }
    }
    let ext = match extension_of_path(path) {
        Some(e) => e,
        None => String::new(),
    };
    let e = ascii_lower_string(ext.as_str());
    let s = e.as_str();
    if str_eq(s, "png") {
        "image/png".to_owned()
    } else if str_eq(s, "jpg") || str_eq(s, "jpeg") {
        "image/jpeg".to_owned()
    } else if str_eq(s, "gif") {
        "image/gif".to_owned()
    } else if str_eq(s, "webp") {
        "image/webp".to_owned()
    } else if str_eq(s, "bmp") {
        "image/bmp".to_owned()
    } else if str_eq(s, "svg") {
        "image/svg+xml".to_owned()
    } else {
        "application/octet-stream".to_owned()
    }
}

/// The data URL of
/// the image at `path` from its bytes (or why they could not be read).
pub fn read_preview_image_data_url(path: &str, bytes: Result<Vec<u8>, String>) -> (r: Result<String, String>)
    ensures
        trim(path@).len() == 0 ==> (r matches Err(e) && e@ == "图片路径不能为空"@),
        trim(path@).len() > 0 ==> match bytes {
            Err(e) => r matches Err(x) && x@ == "读取图片失败: "@ + e@,
            Ok(b) => {
                let mime = image_mime(trim(path@), b@);
                &&& starts_with(mime, "image/"@) ==> (r matches Ok(u) && u@ == "data:"@ + mime + ";base64,"@ + b64(b@))
                &&& !starts_with(mime, "image/"@) ==> (r matches Err(x) && x@ == "不是可预览的图片类型: "@ + mime)
            },
        },
{
    let trimmed = trim_str(path);
    if trimmed.as_str().is_empty() {
        return Err("图片路径不能为空".to_owned());
    }
    let b = match bytes {
        Ok(b) => b,
        Err(e) => return Err(concat_str("读取图片失败: ", e.as_str())),
    };
    let mime = image_mime_from_path(trimmed.as_str(), b.as_slice());
    if !has_prefix(chars_of(mime.as_str()).as_slice(), chars_of("image/").as_slice()) {
        return Err(concat_str("不是可预览的图片类型: ", mime.as_str()));
    }
    let mut out = chars_of("data:");
    append_str(&mut out, mime.as_str());
    append_str(&mut out, ";base64,");
    let encoded = base64_encode(b.as_slice());
    append_str(&mut out, encoded.as_str());
    Ok(string_of(out.as_slice()))
}

/// A file about to be opened or previewed: the path may not be blank, and
/// must exist (`exists` is what the file system says).
pub fn check_file_to_open(path: &str, exists: bool) -> (r: Result<(), String>)
    ensures
        trim(path@).len() == 0 ==> (r matches Err(e) && e@ == "文件路径不能为空"@),
        trim(path@).len() > 0 && !exists ==> (r matches Err(e) && e@ == "文件不存在: "@ + path@),
        trim(path@).len() > 0 && exists ==> r is Ok,
{
    if trim_str(path).as_str().is_empty() {
        return Err("文件路径不能为空".to_owned());
    }
    if !exists {
        return Err(concat_str("文件不存在: ", path));
    }
    Ok(())
}

/// The refusal of Quick Look outside macOS.
pub fn quick_look_unavailable() -> (r: String)
    ensures
        r@ == "Quick Look 仅在 macOS 上可用"@,
{
    "Quick Look 仅在 macOS 上可用".to_owned()
}

} // verus!
