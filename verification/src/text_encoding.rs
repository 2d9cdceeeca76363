//! Decoding of file contents in the encodings that the review front end offers.
use crate::contracts::{ResolvedTextEncoding, TextEncoding};
use crate::error::AppError;
use crate::text::{chars_of, concat};
use vstd::prelude::*;
use vstd::utf8::valid_utf8;

verus! {

/// A decoded text and the encoding it was decoded with.
#[derive(Debug, PartialEq, Eq)]
pub struct DecodedText {
    pub text: String,
    pub encoding: ResolvedTextEncoding,
}

/// What `encoding_rs::GB18030` decodes `bytes` to without BOM handling and without replacement:
/// `None` when the bytes are not valid GB18030.
pub uninterp spec fn gb18030_decode(bytes: Seq<u8>) -> Option<Seq<char>>;

/// Decodes GB18030 with `encoding_rs::Encoding::decode_without_bom_handling_and_without_replacement`.
/// The contract names the result, which depends on the bytes alone.
#[verifier::external_body]
fn decode_gb18030_bytes(bytes: &[u8]) -> (r: Option<String>)
    ensures
        match r {
            Some(s) => gb18030_decode(bytes@) == Some(s@),
            None => gb18030_decode(bytes@) is None,
        },
{
    encoding_rs::GB18030.decode_without_bom_handling_and_without_replacement(bytes).map(
        |text| text.into_owned(),
    )
}

/// Decodes UTF-8 with `std::str::from_utf8`, which accepts exactly the valid UTF-8 byte
/// sequences; on failure it hands back the error's description.
#[verifier::external_body]
fn utf8_text(bytes: &[u8]) -> (r: Result<String, String>)
    ensures
        match r {
            Ok(s) => valid_utf8(bytes@) && s@ == vstd::utf8::decode_utf8(bytes@),
            Err(_) => !valid_utf8(bytes@),
        },
{
    std::str::from_utf8(bytes).map(|text| text.to_string()).map_err(|error| error.to_string())
}

/// The text that UTF-16 code units encode, or `None` when a surrogate is unpaired.
pub open spec fn utf16_decode(units: Seq<u16>) -> Option<Seq<char>>
    decreases units.len(),
{
    if units.len() == 0 {
        Some(Seq::empty())
    } else if units[0] < 0xd800 || units[0] > 0xdfff {
        match utf16_decode(units.drop_first()) {
            Some(rest) => Some(seq![units[0] as char] + rest),
            None => None,
        }
    } else if units[0] <= 0xdbff && units.len() >= 2 && 0xdc00 <= units[1] <= 0xdfff {
        match utf16_decode(units.skip(2)) {
            Some(rest) => Some(
                seq![(0x10000 + (units[0] - 0xd800) * 0x400 + (units[1] - 0xdc00)) as char] + rest,
            ),
            None => None,
        }
    } else {
        None
    }
}

/// Decodes UTF-16 code units with `String::from_utf16`, which fails exactly on unpaired
/// surrogates; on failure it hands back the error's description.
#[verifier::external_body]
fn utf16_text(units: &[u16]) -> (r: Result<String, String>)
    ensures
        match r {
            Ok(s) => utf16_decode(units@) == Some(s@),
            Err(_) => utf16_decode(units@) is None,
        },
{
    String::from_utf16(units).map_err(|error| error.to_string())
}

/// `b` begins with `p`.
pub open spec fn starts_with(b: Seq<u8>, p: Seq<u8>) -> bool {
    b.len() >= p.len() && b.take(p.len() as int) == p
}

/// One of the first 8000 bytes is NUL.
pub open spec fn has_early_nul(b: Seq<u8>) -> bool {
    exists|i: int| 0 <= i < b.len() && i < 8000 && b[i] == 0
}

/// `c` is a control character (Unicode general category `Cc`), as `char::is_control` tests.
pub open spec fn is_control_spec(c: char) -> bool {
    c <= '\u{1f}' || ('\u{7f}' <= c <= '\u{9f}')
}

/// A control character other than tab, line feed and carriage return.
pub open spec fn suspicious(c: char) -> bool {
    is_control_spec(c) && c != '\t' && c != '\n' && c != '\r'
}

/// The number of suspicious control characters in `t`.
pub open spec fn suspicious_count(t: Seq<char>) -> nat
    decreases t.len(),
{
    if t.len() == 0 {
        0
    } else {
        suspicious_count(t.drop_last()) + (if suspicious(t.last()) {
            1nat
        } else {
            0
        })
    }
}

/// A decoded text that is evidently binary: it holds NUL, or at least three suspicious control
/// characters making up at least 30% of its characters.
pub open spec fn looks_binary(t: Seq<char>) -> bool {
    ||| t.contains('\0')
    ||| (suspicious_count(t) >= 3 && suspicious_count(t) * 10 >= t.len() * 3)
}

/// The accepted result for a decoded text.
pub open spec fn accept(t: Seq<char>, e: ResolvedTextEncoding) -> Option<(Seq<char>, ResolvedTextEncoding)> {
    if looks_binary(t) {
        None
    } else {
        Some((t, e))
    }
}

/// `b` starts with a UTF-16 byte order mark of either byte order.
pub open spec fn has_utf16_bom(b: Seq<u8>) -> bool {
    starts_with(b, seq![0xffu8, 0xfeu8]) || starts_with(b, seq![0xfeu8, 0xffu8])
}

/// UTF-8 decoding: no UTF-16 BOM, an optional UTF-8 BOM dropped, no early NUL, valid UTF-8.
pub open spec fn decode_utf8_spec(b: Seq<u8>) -> Option<(Seq<char>, ResolvedTextEncoding)> {
    if has_utf16_bom(b) {
        None
    } else {
        let body = if starts_with(b, seq![0xefu8, 0xbbu8, 0xbfu8]) {
            b.skip(3)
        } else {
            b
        };
        if has_early_nul(body) || !valid_utf8(body) {
            None
        } else {
            accept(vstd::utf8::decode_utf8(body), ResolvedTextEncoding::Utf8)
        }
    }
}

/// The code units of an even number of bytes, read in pairs.
pub open spec fn utf16_units(b: Seq<u8>, little_endian: bool) -> Seq<u16> {
    Seq::new(
        b.len() / 2,
        |k: int|
            if little_endian {
                (b[2 * k] + b[2 * k + 1] * 256) as u16
            } else {
                (b[2 * k] * 256 + b[2 * k + 1]) as u16
            },
    )
}

/// UTF-16 decoding: no BOM of the other byte order, an own BOM dropped, an even number of
/// bytes, no unpaired surrogate.
pub open spec fn decode_utf16_spec(b: Seq<u8>, little_endian: bool) -> Option<
    (Seq<char>, ResolvedTextEncoding),
> {
    let own = if little_endian {
        seq![0xffu8, 0xfeu8]
    } else {
        seq![0xfeu8, 0xffu8]
    };
    let other = if little_endian {
        seq![0xfeu8, 0xffu8]
    } else {
        seq![0xffu8, 0xfeu8]
    };
    if starts_with(b, other) {
        None
    } else {
        let body = if starts_with(b, own) {
            b.skip(2)
        } else {
            b
        };
        if body.len() % 2 != 0 {
            None
        } else {
            match utf16_decode(utf16_units(body, little_endian)) {
                Some(t) => accept(
                    t,
                    if little_endian {
                        ResolvedTextEncoding::Utf16Le
                    } else {
                        ResolvedTextEncoding::Utf16Be
                    },
                ),
                None => None,
            }
        }
    }
}

/// GB18030 decoding: no UTF-16 BOM, valid GB18030.
pub open spec fn decode_gb18030_spec(b: Seq<u8>) -> Option<(Seq<char>, ResolvedTextEncoding)> {
    if has_utf16_bom(b) {
        None
    } else {
        match gb18030_decode(b) {
            Some(t) => accept(t, ResolvedTextEncoding::Gb18030),
            None => None,
        }
    }
}

/// Automatic detection: a BOM selects UTF-8 or a UTF-16 byte order; otherwise the bytes must be
/// free of early NUL and valid UTF-8.
pub open spec fn decode_auto_spec(b: Seq<u8>) -> Option<(Seq<char>, ResolvedTextEncoding)> {
    if starts_with(b, seq![0xefu8, 0xbbu8, 0xbfu8]) {
        decode_utf8_spec(b.skip(3))
    } else if starts_with(b, seq![0xffu8, 0xfeu8]) {
        decode_utf16_spec(b.skip(2), true)
    } else if starts_with(b, seq![0xfeu8, 0xffu8]) {
        decode_utf16_spec(b.skip(2), false)
    } else if has_early_nul(b) || !valid_utf8(b) {
        None
    } else {
        accept(vstd::utf8::decode_utf8(b), ResolvedTextEncoding::Utf8)
    }
}

/// The decoding of `b` in the requested encoding, `None` when the bytes cannot be analyzed.
pub open spec fn decode_spec(b: Seq<u8>, requested: TextEncoding) -> Option<
    (Seq<char>, ResolvedTextEncoding),
> {
    match requested {
        TextEncoding::Auto => decode_auto_spec(b),
        TextEncoding::Utf8 => decode_utf8_spec(b),
        TextEncoding::Gb18030 => decode_gb18030_spec(b),
        TextEncoding::Utf16Le => decode_utf16_spec(b, true),
        TextEncoding::Utf16Be => decode_utf16_spec(b, false),
    }
}

/// The encoding named by a request value (`auto`, `utf-8`, `gb18030`, `utf-16le`, `utf-16be`).
pub open spec fn encoding_named(value: Seq<char>) -> Option<TextEncoding> {
    if value == "auto"@ {
        Some(TextEncoding::Auto)
    } else if value == "utf-8"@ {
        Some(TextEncoding::Utf8)
    } else if value == "gb18030"@ {
        Some(TextEncoding::Gb18030)
    } else if value == "utf-16le"@ {
        Some(TextEncoding::Utf16Le)
    } else if value == "utf-16be"@ {
        Some(TextEncoding::Utf16Be)
    } else {
        None
    }
}

/// The encoding a request value names, or `InvalidArgument` for any other value.
pub fn parse_text_encoding(value: &str) -> (r: Result<TextEncoding, AppError>)
    ensures
        match r {
            Ok(e) => encoding_named(value@) == Some(e),
            Err(e) => e is InvalidArgument && encoding_named(value@) is None,
        },
{
    if crate::text::str_eq(value, "auto") {
        Ok(TextEncoding::Auto)
    } else if crate::text::str_eq(value, "utf-8") {
        Ok(TextEncoding::Utf8)
    } else if crate::text::str_eq(value, "gb18030") {
        Ok(TextEncoding::Gb18030)
    } else if crate::text::str_eq(value, "utf-16le") {
        Ok(TextEncoding::Utf16Le)
    } else if crate::text::str_eq(value, "utf-16be") {
        Ok(TextEncoding::Utf16Be)
    } else {
        let mut message = String::from_str("不支持的文本编码 ");
        message.append(value);
        message.append("；支持值：auto、utf-8、gb18030、utf-16le、utf-16be");
        Err(AppError::InvalidArgument(message))
    }
}

/// Decodes file bytes in the requested encoding; every failure is `FileNotAnalyzable`.
pub fn decode_text_bytes(bytes: &[u8], requested: TextEncoding) -> (r: Result<DecodedText, AppError>)
    ensures
        match r {
            Ok(d) => decode_spec(bytes@, requested) == Some((d.text@, d.encoding)),
            Err(e) => e is FileNotAnalyzable && decode_spec(bytes@, requested) is None,
        },
{
    match requested {
        TextEncoding::Auto => decode_auto(bytes),
        TextEncoding::Utf8 => decode_utf8(bytes),
        TextEncoding::Gb18030 => decode_gb18030(bytes),
        TextEncoding::Utf16Le => decode_utf16(bytes, true),
        TextEncoding::Utf16Be => decode_utf16(bytes, false),
    }
}

/// The request value that selects a resolved encoding.
pub fn resolved_as_requested(encoding: ResolvedTextEncoding) -> (r: TextEncoding)
    ensures
        r == match encoding {
            ResolvedTextEncoding::Utf8 => TextEncoding::Utf8,
            ResolvedTextEncoding::Gb18030 => TextEncoding::Gb18030,
            ResolvedTextEncoding::Utf16Le => TextEncoding::Utf16Le,
            ResolvedTextEncoding::Utf16Be => TextEncoding::Utf16Be,
        },
{
    match encoding {
        ResolvedTextEncoding::Utf8 => TextEncoding::Utf8,
        ResolvedTextEncoding::Gb18030 => TextEncoding::Gb18030,
        ResolvedTextEncoding::Utf16Le => TextEncoding::Utf16Le,
        ResolvedTextEncoding::Utf16Be => TextEncoding::Utf16Be,
    }
}

/// The name of a resolved encoding.
pub open spec fn resolved_name(encoding: ResolvedTextEncoding) -> Seq<char> {
    match encoding {
        ResolvedTextEncoding::Utf8 => "utf-8"@,
        ResolvedTextEncoding::Gb18030 => "gb18030"@,
        ResolvedTextEncoding::Utf16Le => "utf-16le"@,
        ResolvedTextEncoding::Utf16Be => "utf-16be"@,
    }
}

/// The name of a resolved encoding, as the front end spells it.
pub fn resolved_as_str(encoding: ResolvedTextEncoding) -> (s: &'static str)
    ensures
        s@ == resolved_name(encoding),
{
    match encoding {
        ResolvedTextEncoding::Utf8 => "utf-8",
        ResolvedTextEncoding::Gb18030 => "gb18030",
        ResolvedTextEncoding::Utf16Le => "utf-16le",
        ResolvedTextEncoding::Utf16Be => "utf-16be",
    }
}

fn slice_starts_with(bytes: &[u8], prefix: &[u8]) -> (r: bool)
    ensures
        r == starts_with(bytes@, prefix@),
{
    if bytes.len() < prefix.len() {
        return false;
    }
    let mut i: usize = 0;
    while i < prefix.len()
        invariant
            bytes.len() >= prefix.len(),
            i <= prefix.len(),
            forall|k: int| 0 <= k < i ==> bytes@[k] == prefix@[k],
        decreases prefix.len() - i,
    {
        if bytes[i] != prefix[i] {
            assert(bytes@.take(prefix@.len() as int)[i as int] != prefix@[i as int]);
            return false;
        }
        i += 1;
    }
    assert(bytes@.take(prefix@.len() as int) =~= prefix@);
    true
}

fn tail(bytes: &[u8], from: usize) -> (out: Vec<u8>)
    requires
        from <= bytes.len(),
    ensures
        out@ == bytes@.skip(from as int),
{
    let mut out: Vec<u8> = Vec::new();
    let mut i = from;
    while i < bytes.len()
        invariant
            from <= i <= bytes.len(),
            out@ == bytes@.subrange(from as int, i as int),
        decreases bytes.len() - i,
    {
        out.push(bytes[i]);
        assert(bytes@.subrange(from as int, i + 1) =~= bytes@.subrange(from as int, i as int).push(
            bytes@[i as int],
        ));
        i += 1;
    }
    assert(bytes@.subrange(from as int, bytes.len() as int) =~= bytes@.skip(from as int));
    out
}

fn not_analyzable(message: &str) -> (e: AppError)
    ensures
        e is FileNotAnalyzable,
{
    AppError::FileNotAnalyzable(String::from_str(message))
}

fn binary_error() -> (e: AppError)
    ensures
        e is FileNotAnalyzable,
{
    not_analyzable("文件包含明显二进制 NUL 字节")
}

fn decode_auto(bytes: &[u8]) -> (r: Result<DecodedText, AppError>)
    ensures
        match r {
            Ok(d) => decode_auto_spec(bytes@) == Some((d.text@, d.encoding)),
            Err(e) => e is FileNotAnalyzable && decode_auto_spec(bytes@) is None,
        },
{
    let utf8_bom: [u8; 3] = [0xef, 0xbb, 0xbf];
    let le_bom: [u8; 2] = [0xff, 0xfe];
    let be_bom: [u8; 2] = [0xfe, 0xff];
    assert(utf8_bom@ =~= seq![0xefu8, 0xbbu8, 0xbfu8]);
    assert(le_bom@ =~= seq![0xffu8, 0xfeu8]);
    assert(be_bom@ =~= seq![0xfeu8, 0xffu8]);
    if slice_starts_with(bytes, &utf8_bom) {
        let rest = tail(bytes, 3);
        return decode_utf8(rest.as_slice());
    }
    if slice_starts_with(bytes, &le_bom) {
        let rest = tail(bytes, 2);
        return decode_utf16(rest.as_slice(), true);
    }
    if slice_starts_with(bytes, &be_bom) {
        let rest = tail(bytes, 2);
        return decode_utf16(rest.as_slice(), false);
    }
    if contains_nul(bytes) {
        return Err(binary_error());
    }
    match utf8_text(bytes) {
        Ok(text) => decoded_text(text, ResolvedTextEncoding::Utf8),
        Err(error) => Err(
            AppError::FileNotAnalyzable(concat("文本没有 BOM 且不是合法 UTF-8，无法确定编码：", error.as_str())),
        ),
    }
}

fn decode_utf8(bytes: &[u8]) -> (r: Result<DecodedText, AppError>)
    ensures
        match r {
            Ok(d) => decode_utf8_spec(bytes@) == Some((d.text@, d.encoding)),
            Err(e) => e is FileNotAnalyzable && decode_utf8_spec(bytes@) is None,
        },
{
    reject_utf16_bom(bytes, "UTF-8")?;
    let utf8_bom: [u8; 3] = [0xef, 0xbb, 0xbf];
    assert(utf8_bom@ =~= seq![0xefu8, 0xbbu8, 0xbfu8]);
    let body = if slice_starts_with(bytes, &utf8_bom) {
        tail(bytes, 3)
    } else {
        tail(bytes, 0)
    };
    assert(bytes@.skip(0) =~= bytes@);
    if contains_nul(body.as_slice()) {
        return Err(binary_error());
    }
    match utf8_text(body.as_slice()) {
        Ok(text) => decoded_text(text, ResolvedTextEncoding::Utf8),
        Err(error) => Err(AppError::FileNotAnalyzable(concat("文本不是合法 UTF-8：", error.as_str()))),
    }
}

fn decode_gb18030(bytes: &[u8]) -> (r: Result<DecodedText, AppError>)
    ensures
        match r {
            Ok(d) => decode_gb18030_spec(bytes@) == Some((d.text@, d.encoding)),
            Err(e) => e is FileNotAnalyzable && decode_gb18030_spec(bytes@) is None,
        },
{
    reject_utf16_bom(bytes, "GB18030")?;
    match decode_gb18030_bytes(bytes) {
        Some(text) => decoded_text(text, ResolvedTextEncoding::Gb18030),
        None => Err(not_analyzable("文本不是合法 GB18030")),
    }
}

fn decode_utf16(bytes: &[u8], little_endian: bool) -> (r: Result<DecodedText, AppError>)
    ensures
        match r {
            Ok(d) => decode_utf16_spec(bytes@, little_endian) == Some((d.text@, d.encoding)),
            Err(e) => e is FileNotAnalyzable && decode_utf16_spec(bytes@, little_endian) is None,
        },
{
    let le_bom: [u8; 2] = [0xff, 0xfe];
    let be_bom: [u8; 2] = [0xfe, 0xff];
    assert(le_bom@ =~= seq![0xffu8, 0xfeu8]);
    assert(be_bom@ =~= seq![0xfeu8, 0xffu8]);
    let conflicting = if little_endian {
        slice_starts_with(bytes, &be_bom)
    } else {
        slice_starts_with(bytes, &le_bom)
    };
    if conflicting {
        return Err(
            not_analyzable(
                if little_endian {
                    "请求的 UTF-16LE 编码与文件 BOM 冲突"
                } else {
                    "请求的 UTF-16BE 编码与文件 BOM 冲突"
                },
            ),
        );
    }
    let own = if little_endian {
        slice_starts_with(bytes, &le_bom)
    } else {
        slice_starts_with(bytes, &be_bom)
    };
    let body = if own {
        tail(bytes, 2)
    } else {
        tail(bytes, 0)
    };
    assert(bytes@.skip(0) =~= bytes@);
    if body.len() % 2 != 0 {
        return Err(not_analyzable("UTF-16 文本包含奇数字节"));
    }
    let ghost expected_units = utf16_units(body@, little_endian);
    let mut units: Vec<u16> = Vec::new();
    let mut k: usize = 0;
    while k < body.len() / 2
        invariant
            body.len() % 2 == 0,
            expected_units == utf16_units(body@, little_endian),
            k <= body.len() / 2,
            units@ == expected_units.take(k as int),
        decreases body.len() / 2 - k,
    {
        let first = body[2 * k] as u16;
        let second = body[2 * k + 1] as u16;
        let unit = if little_endian {
            first + second * 256
        } else {
            first * 256 + second
        };
        units.push(unit);
        assert(units@ =~= expected_units.take(k + 1));
        k += 1;
    }
    assert(expected_units.take((body.len() / 2) as int) =~= expected_units);
    match utf16_text(units.as_slice()) {
        Ok(text) => decoded_text(
            text,
            if little_endian {
                ResolvedTextEncoding::Utf16Le
            } else {
                ResolvedTextEncoding::Utf16Be
            },
        ),
        Err(error) => Err(AppError::FileNotAnalyzable(concat("文本不是合法 UTF-16：", error.as_str()))),
    }
}

fn contains_nul(bytes: &[u8]) -> (r: bool)
    ensures
        r == has_early_nul(bytes@),
{
    let mut i: usize = 0;
    while i < bytes.len() && i < 8000
        invariant
            i <= bytes.len(),
            i <= 8000,
            forall|k: int| 0 <= k < i ==> bytes@[k] != 0,
        decreases bytes.len() - i,
    {
        if bytes[i] == 0 {
            return true;
        }
        i += 1;
    }
    false
}

fn decoded_text(text: String, encoding: ResolvedTextEncoding) -> (r: Result<DecodedText, AppError>)
    ensures
        match r {
            Ok(d) => accept(text@, encoding) == Some((d.text@, d.encoding)),
            Err(e) => e is FileNotAnalyzable && accept(text@, encoding) is None,
        },
{
    reject_obvious_binary_text(text.as_str())?;
    Ok(DecodedText { text, encoding })
}

fn is_control(c: char) -> (r: bool)
    ensures
        r == is_control_spec(c),
{
    c <= '\u{1f}' || ('\u{7f}' <= c && c <= '\u{9f}')
}

fn reject_obvious_binary_text(text: &str) -> (r: Result<(), AppError>)
    ensures
        match r {
            Ok(()) => !looks_binary(text@),
            Err(e) => e is FileNotAnalyzable && looks_binary(text@),
        },
{
    let chars = chars_of(text);
    let mut character_count: u128 = 0;
    let mut suspicious_control_count: u128 = 0;
    let mut i: usize = 0;
    while i < chars.len()
        invariant
            chars@ == text@,
            i <= chars.len(),
            character_count == i,
            suspicious_control_count == suspicious_count(chars@.take(i as int)),
            suspicious_control_count <= i,
            forall|k: int| 0 <= k < i ==> chars@[k] != '\0',
        decreases chars.len() - i,
    {
        let character = chars[i];
        assert(chars@.take(i + 1).drop_last() =~= chars@.take(i as int));
        character_count += 1;
        if character == '\0' {
            assert(text@.contains('\0'));
            return Err(binary_error());
        }
        if is_control(character) && !(character == '\t' || character == '\n' || character == '\r') {
            suspicious_control_count += 1;
        }
        i += 1;
    }
    assert(chars@.take(chars.len() as int) =~= chars@);
    if suspicious_control_count >= 3 && suspicious_control_count * 10 >= character_count * 3 {
        return Err(not_analyzable("文本包含密集的明显控制字符"));
    }
    Ok(())
}

fn reject_utf16_bom(bytes: &[u8], requested: &str) -> (r: Result<(), AppError>)
    ensures
        match r {
            Ok(()) => !has_utf16_bom(bytes@),
            Err(e) => e is FileNotAnalyzable && has_utf16_bom(bytes@),
        },
{
    let le_bom: [u8; 2] = [0xff, 0xfe];
    let be_bom: [u8; 2] = [0xfe, 0xff];
    assert(le_bom@ =~= seq![0xffu8, 0xfeu8]);
    assert(be_bom@ =~= seq![0xfeu8, 0xffu8]);
    if slice_starts_with(bytes, &le_bom) || slice_starts_with(bytes, &be_bom) {
        let mut message = String::from_str("请求的 ");
        message.append(requested);
        message.append(" 编码与文件 UTF-16 BOM 冲突");
        return Err(AppError::FileNotAnalyzable(message));
    }
    Ok(())
}

/// The bytes of one character's UTF-8 encoding: none is `0xff` or `0xfe`, only `'\0'` encodes
/// to a zero byte, a first byte `0xef` opens a three-byte encoding, and `ef bb bf` encodes the
/// byte order mark.
proof fn lemma_scalar_bytes(c: char)
    ensures
        vstd::utf8::encode_scalar(c as u32).len() >= 1,
        forall|i: int|
            0 <= i < vstd::utf8::encode_scalar(c as u32).len() ==> (#[trigger] vstd::utf8::encode_scalar(
                c as u32,
            )[i]) != 0xffu8 && vstd::utf8::encode_scalar(c as u32)[i] != 0xfeu8 && (vstd::utf8::encode_scalar(
                c as u32,
            )[i] == 0u8 ==> c == '\0'),
        vstd::utf8::encode_scalar(c as u32)[0] == 0xefu8 ==> vstd::utf8::encode_scalar(c as u32).len() == 3,
        vstd::utf8::encode_scalar(c as u32).len() == 3 && vstd::utf8::encode_scalar(c as u32)[0] == 0xefu8
            && vstd::utf8::encode_scalar(c as u32)[1] == 0xbbu8 && vstd::utf8::encode_scalar(c as u32)[2]
            == 0xbfu8 ==> c == '\u{feff}',
{
    let v = c as u32;
    vstd::utf8::char_is_scalar(c);
    if vstd::utf8::has_width_1_encoding(v) {
        assert(v <= 0x7f ==> ((v & 0x7f) as u8) <= 0x7fu8 && (((v & 0x7f) as u8) == 0u8 ==> v == 0)) by (bit_vector);
        if v == 0 {
            vstd::utf8::char_u32_cast(c, 0u32);
        }
    } else if vstd::utf8::has_width_2_encoding(v) {
        assert(0xC0u8 <= (0xC0u8 | ((v >> 6) & 0x1F) as u8) <= 0xDFu8) by (bit_vector);
        assert(0x80u8 <= (0x80u8 | (v & 0x3F) as u8) <= 0xBFu8) by (bit_vector);
    } else if vstd::utf8::has_width_3_encoding(v) {
        assert(0xE0u8 <= (0xE0u8 | ((v >> 12) & 0x0F) as u8) <= 0xEFu8) by (bit_vector);
        assert(0x80u8 <= (0x80u8 | ((v >> 6) & 0x3F) as u8) <= 0xBFu8) by (bit_vector);
        assert(0x80u8 <= (0x80u8 | (v & 0x3F) as u8) <= 0xBFu8) by (bit_vector);
        assert((0xE0u8 | ((v >> 12) & 0x0F) as u8) == 0xEFu8 && (0x80u8 | ((v >> 6) & 0x3F) as u8) == 0xBBu8
            && (0x80u8 | (v & 0x3F) as u8) == 0xBFu8 && v <= 0xFFFF ==> v == 0xFEFF) by (bit_vector);
        if v == 0xFEFF {
            vstd::utf8::char_u32_cast(c, 0xFEFFu32);
        }
    } else {
        assert(0xF0u8 <= (0xF0u8 | ((v >> 18) & 0x7) as u8) <= 0xF7u8) by (bit_vector);
        assert(0x80u8 <= (0x80u8 | ((v >> 12) & 0x3F) as u8) <= 0xBFu8) by (bit_vector);
        assert(0x80u8 <= (0x80u8 | ((v >> 6) & 0x3F) as u8) <= 0xBFu8) by (bit_vector);
        assert(0x80u8 <= (0x80u8 | (v & 0x3F) as u8) <= 0xBFu8) by (bit_vector);
    }
}

/// The UTF-8 encoding of a text without `'\0'` has no zero byte, and none of its bytes is
/// `0xff` or `0xfe`.
proof fn lemma_encoded_bytes(s: Seq<char>)
    ensures
        forall|i: int|
            0 <= i < vstd::utf8::encode_utf8(s).len() ==> (#[trigger] vstd::utf8::encode_utf8(s)[i]) != 0xffu8
                && vstd::utf8::encode_utf8(s)[i] != 0xfeu8 && (vstd::utf8::encode_utf8(s)[i] == 0u8
                ==> s.contains('\0')),
    decreases s.len(),
{
    if s.len() > 0 {
        let head = vstd::utf8::encode_scalar(s[0] as u32);
        let rest = s.drop_first();
        lemma_scalar_bytes(s[0]);
        lemma_encoded_bytes(rest);
        let b = vstd::utf8::encode_utf8(s);
        assert(b == head + vstd::utf8::encode_utf8(rest));
        assert forall|i: int| 0 <= i < b.len() implies (#[trigger] b[i]) != 0xffu8 && b[i] != 0xfeu8 && (b[i]
            == 0u8 ==> s.contains('\0')) by {
            if i < head.len() {
                assert(b[i] == head[i]);
                if b[i] == 0u8 {
                    assert(s[0] == '\0');
                }
            } else {
                assert(b[i] == vstd::utf8::encode_utf8(rest)[i - head.len()]);
                if b[i] == 0u8 {
                    assert(rest.contains('\0'));
                    let j = choose|j: int| 0 <= j < rest.len() && rest[j] == '\0';
                    assert(s[j + 1] == '\0');
                }
            }
        }
    }
}

/// Text that is valid and not binary decodes to itself: a text with no byte order mark at its
/// start and not evidently binary (no `'\0'`, not dense in control characters), as its UTF-8
/// bytes, decodes as UTF-8 to the same text, whether UTF-8 is asked for or detected.
pub proof fn lemma_plain_utf8_decodes_to_itself(s: Seq<char>)
    requires
        !looks_binary(s),
        s.len() == 0 || s[0] != '\u{feff}',
    ensures
        decode_spec(vstd::utf8::encode_utf8(s), TextEncoding::Utf8) == Some((s, ResolvedTextEncoding::Utf8)),
        decode_spec(vstd::utf8::encode_utf8(s), TextEncoding::Auto) == Some((s, ResolvedTextEncoding::Utf8)),
{
    broadcast use vstd::utf8::encode_utf8_valid_utf8, vstd::utf8::encode_utf8_decode_utf8;

    let b = vstd::utf8::encode_utf8(s);
    lemma_encoded_bytes(s);
    assert(!has_early_nul(b)) by {
        if has_early_nul(b) {
            let i = choose|i: int| 0 <= i < b.len() && i < 8000 && b[i] == 0;
            assert(s.contains('\0'));
        }
    }
    if b.len() >= 2 {
        assert(b.take(2)[0] == b[0]);
        assert(b.take(2) != seq![0xffu8, 0xfeu8]) by {
            assert(seq![0xffu8, 0xfeu8][0] == 0xffu8);
        }
        assert(b.take(2) != seq![0xfeu8, 0xffu8]) by {
            assert(seq![0xfeu8, 0xffu8][0] == 0xfeu8);
        }
    }
    assert(!has_utf16_bom(b));
    if s.len() > 0 && b.len() >= 3 && b.take(3) == seq![0xefu8, 0xbbu8, 0xbfu8] {
        let head = vstd::utf8::encode_scalar(s[0] as u32);
        lemma_scalar_bytes(s[0]);
        assert(b == head + vstd::utf8::encode_utf8(s.drop_first()));
        assert(b[0] == b.take(3)[0] && b[1] == b.take(3)[1] && b[2] == b.take(3)[2]);
        assert(head[0] == 0xefu8);
        assert(head[1] == b[1] && head[2] == b[2]);
        assert(false);
    }
    if s.len() == 0 {
        assert(b.len() == 0);
    }
    assert(!starts_with(b, seq![0xefu8, 0xbbu8, 0xbfu8]));
    assert(vstd::utf8::decode_utf8(b) == s);
}

/// The UTF-16 code units of `b`, each from a pair of bytes, the high byte first.
pub open spec fn big_endian_units(b: Seq<u8>) -> Seq<u16> {
    Seq::new(b.len() / 2, |k: int| (b[2 * k] as int * 256 + b[2 * k + 1] as int) as u16)
}

/// The UTF-16 code units of `b`, each from a pair of bytes, the low byte first.
pub open spec fn little_endian_units(b: Seq<u8>) -> Seq<u16> {
    Seq::new(b.len() / 2, |k: int| (b[2 * k] as int + b[2 * k + 1] as int * 256) as u16)
}

/// What decoding UTF-16 code units gives: the text, reported in `encoding`, when the bytes came
/// in whole pairs, no surrogate is unpaired and the text is not evidently binary; else nothing.
pub open spec fn utf16_outcome(byte_count: int, units: Seq<u16>, encoding: ResolvedTextEncoding) -> Option<
    (Seq<char>, ResolvedTextEncoding),
> {
    match utf16_decode(units) {
        Some(t) => if byte_count % 2 == 0 && !looks_binary(t) {
            Some((t, encoding))
        } else {
            None
        },
        None => None,
    }
}

/// In automatic detection, bytes that open with the big-endian byte order mark `fe ff` decode as
/// big-endian UTF-16 of the bytes after it (when those do not open with a byte order mark of their
/// own): each following pair of bytes is one code unit, high byte first, and the text is reported
/// as UTF-16BE.
pub proof fn lemma_auto_big_endian_bom(b: Seq<u8>)
    requires
        starts_with(b, seq![0xfeu8, 0xffu8]),
        !starts_with(b.skip(2), seq![0xfeu8, 0xffu8]),
        !starts_with(b.skip(2), seq![0xffu8, 0xfeu8]),
    ensures
        decode_spec(b, TextEncoding::Auto) == utf16_outcome(
            b.len() - 2,
            big_endian_units(b.skip(2)),
            ResolvedTextEncoding::Utf16Be,
        ),
        decode_spec(b, TextEncoding::Auto) == decode_spec(b.skip(2), TextEncoding::Utf16Be),
{
    assert(!starts_with(b, seq![0xefu8, 0xbbu8, 0xbfu8])) by {
        if starts_with(b, seq![0xefu8, 0xbbu8, 0xbfu8]) {
            assert(b.take(3)[0] == b[0] && b.take(2)[0] == b[0]);
            assert(seq![0xefu8, 0xbbu8, 0xbfu8][0] == 0xefu8);
            assert(seq![0xfeu8, 0xffu8][0] == 0xfeu8);
        }
    }
    assert(!starts_with(b, seq![0xffu8, 0xfeu8])) by {
        if starts_with(b, seq![0xffu8, 0xfeu8]) {
            assert(b.take(2)[0] == b[0]);
            assert(seq![0xffu8, 0xfeu8][0] == 0xffu8);
            assert(seq![0xfeu8, 0xffu8][0] == 0xfeu8);
        }
    }
    assert(utf16_units(b.skip(2), false) =~= big_endian_units(b.skip(2)));
}

/// In automatic detection, bytes that open with the little-endian byte order mark `ff fe` decode
/// as little-endian UTF-16 of the bytes after it (when those do not open with a byte order mark
/// of their own): each following pair of bytes is one code unit, low byte first, and the text is
/// reported as UTF-16LE.
pub proof fn lemma_auto_little_endian_bom(b: Seq<u8>)
    requires
        starts_with(b, seq![0xffu8, 0xfeu8]),
        !starts_with(b.skip(2), seq![0xfeu8, 0xffu8]),
        !starts_with(b.skip(2), seq![0xffu8, 0xfeu8]),
    ensures
        decode_spec(b, TextEncoding::Auto) == utf16_outcome(
            b.len() - 2,
            little_endian_units(b.skip(2)),
            ResolvedTextEncoding::Utf16Le,
        ),
        decode_spec(b, TextEncoding::Auto) == decode_spec(b.skip(2), TextEncoding::Utf16Le),
{
    assert(!starts_with(b, seq![0xefu8, 0xbbu8, 0xbfu8])) by {
        if starts_with(b, seq![0xefu8, 0xbbu8, 0xbfu8]) {
            assert(b.take(3)[0] == b[0] && b.take(2)[0] == b[0]);
            assert(seq![0xefu8, 0xbbu8, 0xbfu8][0] == 0xefu8);
            assert(seq![0xffu8, 0xfeu8][0] == 0xffu8);
        }
    }
    assert(utf16_units(b.skip(2), true) =~= little_endian_units(b.skip(2)));
}

/// In automatic detection, bytes that open with the UTF-8 byte order mark `ef bb bf` decode as
/// UTF-8 of the bytes after it, reported as UTF-8.
pub proof fn lemma_auto_utf8_bom(b: Seq<u8>)
    requires
        starts_with(b, seq![0xefu8, 0xbbu8, 0xbfu8]),
    ensures
        decode_spec(b, TextEncoding::Auto) == decode_spec(b.skip(3), TextEncoding::Utf8),
        decode_spec(b, TextEncoding::Auto) matches Some((_, e)) ==> e == ResolvedTextEncoding::Utf8,
{
    let r = b.skip(3);
    if starts_with(r, seq![0xefu8, 0xbbu8, 0xbfu8]) {
        assert(!has_utf16_bom(r)) by {
            assert(r.take(3)[0] == r[0] && r.take(2)[0] == r[0]);
            assert(seq![0xefu8, 0xbbu8, 0xbfu8][0] == 0xefu8);
            assert(seq![0xffu8, 0xfeu8][0] == 0xffu8);
            assert(seq![0xfeu8, 0xffu8][0] == 0xfeu8);
        }
    }
}

} // verus!
