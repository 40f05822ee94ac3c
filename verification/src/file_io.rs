//! Text encodings and line endings of the files the editor opens and saves.
use vstd::prelude::*;
use vstd::utf8::{
    codepoint_width_3, decode_utf8, encode_utf8, encode_utf8_decode_utf8, encode_utf8_valid_utf8,
    valid_utf8,
};
use std::path::PathBuf;
use crate::text::{append_str, chars_of, push_char};

verus! {

#[verifier::external_type_specification]
#[verifier::external_body]
pub struct ExPathBuf(PathBuf);

/// `PathBuf::clone`, used by the derived `Clone` of [`OpenedFile`]; nothing
/// is stated of the copy.
pub assume_specification[ <PathBuf as Clone>::clone ](path: &PathBuf) -> PathBuf;

/// The encoding a file was read in.
#[derive(Debug, Clone, PartialEq)]
pub enum FileEncoding {
    Utf8,
    Utf8Bom,
    Utf16Le,
    Utf16Be,
    Other(String),
}

/// The line ending a file uses.
#[derive(Debug, Clone, Copy, PartialEq, Eq, Structural)]
pub enum LineEnding {
    Lf,
    CrLf,
}

/// A file read from disk, decoded.
#[derive(Debug, Clone)]
pub struct OpenedFile {
    pub path: PathBuf,
    pub content: String,
    pub encoding: FileEncoding,
    pub line_ending: LineEnding,
}

/// A `String` holding the characters of `s`.
fn owned(s: &str) -> (r: String)
    ensures
        r@ == s@,
{
    let mut r = String::new();
    append_str(&mut r, s);
    r
}

impl FileEncoding {
    /// How the status bar shows the encoding.
    pub open spec fn label(&self) -> Seq<char> {
        match self {
            FileEncoding::Utf8 => "UTF-8"@,
            FileEncoding::Utf8Bom => "UTF-8 BOM"@,
            FileEncoding::Utf16Le => "UTF-16 LE"@,
            FileEncoding::Utf16Be => "UTF-16 BE"@,
            FileEncoding::Other(name) => name@,
        }
    }

    /// The label of the encoding, as the status bar shows it.
    pub fn to_string(&self) -> (s: String)
        ensures
            s@ == self.label(),
    {
        match self {
            FileEncoding::Utf8 => owned("UTF-8"),
            FileEncoding::Utf8Bom => owned("UTF-8 BOM"),
            FileEncoding::Utf16Le => owned("UTF-16 LE"),
            FileEncoding::Utf16Be => owned("UTF-16 BE"),
            FileEncoding::Other(name) => owned(name.as_str()),
        }
    }
}

impl LineEnding {
    /// How the status bar shows the line ending.
    pub open spec fn label(&self) -> Seq<char> {
        match self {
            LineEnding::Lf => "LF"@,
            LineEnding::CrLf => "CRLF"@,
        }
    }

    /// The label of the line ending, as the status bar shows it.
    pub fn to_string(&self) -> (s: String)
        ensures
            s@ == self.label(),
    {
        match self {
            LineEnding::Lf => owned("LF"),
            LineEnding::CrLf => owned("CRLF"),
        }
    }
}

/// `s` holds a carriage return directly followed by a line feed.
pub open spec fn has_crlf(s: Seq<char>) -> bool {
    exists|i: int| 0 <= i && i + 1 < s.len() && s[i] == '\r' && #[trigger] s[i + 1] == '\n'
}

/// CRLF if the text holds a `"\r\n"` anywhere, LF otherwise.
pub fn detect_line_ending(text: &str) -> (r: LineEnding)
    ensures
        r == (if has_crlf(text@) {
            LineEnding::CrLf
        } else {
            LineEnding::Lf
        }),
{
    let t = chars_of(text);
    let mut i: usize = 0;
    while i < t.len() && i + 1 < t.len()
        invariant
            t@ == text@,
            forall|j: int| 0 <= j < i ==> !(t@[j] == '\r' && #[trigger] t@[j + 1] == '\n'),
        decreases t.len() - i,
    {
        if t[i] == '\r' && t[i + 1] == '\n' {
            return LineEnding::CrLf;
        }
        i = i + 1;
    }
    LineEnding::Lf
}

/// `s` with every line feed written as a carriage return and line feed.
pub open spec fn crlf_text(s: Seq<char>) -> Seq<char>
    decreases s.len(),
{
    if s.len() == 0 {
        seq![]
    } else if s.last() == '\n' {
        crlf_text(s.drop_last()) + seq!['\r', '\n']
    } else {
        crlf_text(s.drop_last()).push(s.last())
    }
}

/// The text as it is written to disk with the given line ending.
pub open spec fn saved_text(content: Seq<char>, line_ending: LineEnding) -> Seq<char> {
    match line_ending {
        LineEnding::Lf => content,
        LineEnding::CrLf => crlf_text(content),
    }
}

/// The text to write for `content` with `line_ending`: unchanged for LF;
/// for CRLF every line feed (even one already after a carriage return)
/// becomes a carriage return and a line feed.
pub fn apply_line_ending(content: &str, line_ending: LineEnding) -> (r: String)
    ensures
        r@ == saved_text(content@, line_ending),
{
    match line_ending {
        LineEnding::Lf => owned(content),
        LineEnding::CrLf => {
            let t = chars_of(content);
            let mut out = String::new();
            let mut i: usize = 0;
            assert(t@.take(0) =~= Seq::<char>::empty());
            while i < t.len()
                invariant
                    i <= t.len(),
                    out@ == crlf_text(t@.take(i as int)),
                decreases t.len() - i,
            {
                let c = t[i];
                assert(t@.take(i + 1).drop_last() =~= t@.take(i as int));
                if c == '\n' {
                    push_char(&mut out, '\r');
                    push_char(&mut out, '\n');
                    assert(out@ =~= crlf_text(t@.take(i as int)) + seq!['\r', '\n']);
                } else {
                    push_char(&mut out, c);
                }
                i = i + 1;
            }
            assert(t@.take(t.len() as int) =~= t@);
            out
        },
    }
}

/// The two bytes of a UTF-16 code unit `u`, in the given byte order.
pub open spec fn unit_bytes(u: int, big_endian: bool) -> Seq<u8> {
    if big_endian {
        seq![(u / 256) as u8, (u % 256) as u8]
    } else {
        seq![(u % 256) as u8, (u / 256) as u8]
    }
}

/// The UTF-16 encoding of `c` (one code unit, or a surrogate pair above
/// U+FFFF), in the given byte order.
pub open spec fn char_utf16(c: char, big_endian: bool) -> Seq<u8> {
    let v = c as u32 as int;
    if v < 0x10000 {
        unit_bytes(v, big_endian)
    } else {
        let w = v - 0x10000;
        unit_bytes(0xD800 + w / 0x400, big_endian) + unit_bytes(0xDC00 + w % 0x400, big_endian)
    }
}

/// The UTF-16 encoding of `s`, in the given byte order, without a byte
/// order mark.
pub open spec fn utf16_of(s: Seq<char>, big_endian: bool) -> Seq<u8>
    decreases s.len(),
{
    if s.len() == 0 {
        seq![]
    } else {
        utf16_of(s.drop_last(), big_endian) + char_utf16(s.last(), big_endian)
    }
}

/// The bytes that hold `text` in `encoding`: UTF-8, after a UTF-8 byte order
/// mark, or UTF-16 after its byte order mark. Encodings other than these
/// four are written as UTF-8.
pub open spec fn encoded_bytes(text: Seq<char>, encoding: FileEncoding) -> Seq<u8> {
    match encoding {
        FileEncoding::Utf8Bom => seq![0xEFu8, 0xBBu8, 0xBFu8] + encode_utf8(text),
        FileEncoding::Utf16Le => seq![0xFFu8, 0xFEu8] + utf16_of(text, false),
        FileEncoding::Utf16Be => seq![0xFEu8, 0xFFu8] + utf16_of(text, true),
        _ => encode_utf8(text),
    }
}

/// Appends the bytes of `b` to `v`.
fn append_bytes(v: &mut Vec<u8>, b: &[u8])
    ensures
        final(v)@ == old(v)@ + b@,
{
    let mut i: usize = 0;
    while i < b.len()
        invariant
            i <= b.len(),
            v@ == old(v)@ + b@.take(i as int),
        decreases b.len() - i,
    {
        v.push(b[i]);
        i = i + 1;
        assert(v@ =~= old(v)@ + b@.take(i as int));
    }
    assert(b@.take(b.len() as int) =~= b@);
}

/// Appends the two bytes of the code unit `u` to `v`.
fn push_unit(v: &mut Vec<u8>, u: u32, big_endian: bool)
    requires
        u < 0x10000,
    ensures
        final(v)@ == old(v)@ + unit_bytes(u as int, big_endian),
{
    let hi = (u / 256) as u8;
    let lo = (u % 256) as u8;
    if big_endian {
        v.push(hi);
        v.push(lo);
    } else {
        v.push(lo);
        v.push(hi);
    }
    assert(v@ =~= old(v)@ + unit_bytes(u as int, big_endian));
}

/// Appends the UTF-16 encoding of `chars` to `v`.
fn append_utf16(v: &mut Vec<u8>, chars: &Vec<char>, big_endian: bool)
    ensures
        final(v)@ == old(v)@ + utf16_of(chars@, big_endian),
{
    let mut i: usize = 0;
    assert(chars@.take(0) =~= Seq::<char>::empty());
    while i < chars.len()
        invariant
            i <= chars.len(),
            v@ == old(v)@ + utf16_of(chars@.take(i as int), big_endian),
        decreases chars.len() - i,
    {
        let c = chars[i];
        let x = c as u32;
        proof {
            vstd::utf8::char_is_scalar(c);
        }
        let ghost before = v@;
        if x < 0x10000 {
            push_unit(v, x, big_endian);
        } else {
            let w = x - 0x10000;
            push_unit(v, 0xD800 + w / 0x400, big_endian);
            push_unit(v, 0xDC00 + w % 0x400, big_endian);
        }
        assert(chars@.take(i + 1).drop_last() =~= chars@.take(i as int));
        assert(v@ =~= before + char_utf16(c, big_endian));
        i = i + 1;
    }
    assert(chars@.take(chars.len() as int) =~= chars@);
}

/// The bytes written to disk for `content` with `line_ending`, in the
/// encoding the file was read in (see `encoded_bytes`).
pub fn saved_bytes(content: &str, line_ending: LineEnding, encoding: &FileEncoding) -> (r: Vec<u8>)
    ensures
        r@ == encoded_bytes(saved_text(content@, line_ending), *encoding),
{
    let text = apply_line_ending(content, line_ending);
    let mut v: Vec<u8> = Vec::new();
    match encoding {
        FileEncoding::Utf8Bom => {
            v.push(0xEF);
            v.push(0xBB);
            v.push(0xBF);
            append_bytes(&mut v, text.as_str().as_bytes());
        },
        FileEncoding::Utf16Le => {
            v.push(0xFF);
            v.push(0xFE);
            append_utf16(&mut v, &chars_of(text.as_str()), false);
        },
        FileEncoding::Utf16Be => {
            v.push(0xFE);
            v.push(0xFF);
            append_utf16(&mut v, &chars_of(text.as_str()), true);
        },
        _ => {
            append_bytes(&mut v, text.as_str().as_bytes());
        },
    }
    assert(v@ =~= encoded_bytes(saved_text(content@, line_ending), *encoding));
    v
}

/// The name for what `String::from_utf8_lossy` returns: the bytes decoded as
/// UTF-8 with every invalid sequence replaced by U+FFFD.
pub uninterp spec fn lossy_utf8(bytes: Seq<u8>) -> Seq<char>;

/// The name for what `encoding_rs::UTF_16LE.decode` returns: the bytes
/// decoded as UTF-16LE (after sniffing a BOM), malformed sequences replaced
/// by U+FFFD.
pub uninterp spec fn utf16le_text(bytes: Seq<u8>) -> Seq<char>;

/// The name for what `encoding_rs::UTF_16BE.decode` returns: the bytes
/// decoded as UTF-16BE (after sniffing a BOM), malformed sequences replaced
/// by U+FFFD.
pub uninterp spec fn utf16be_text(bytes: Seq<u8>) -> Seq<char>;

/// The name for the encoding that chardetng's `EncodingDetector` guesses for
/// the whole of `bytes` (no top-level domain, UTF-8 allowed): its name.
pub uninterp spec fn detected_encoding(bytes: Seq<u8>) -> Seq<char>;

/// The name for what encoding_rs's `Encoding::decode` returns for the
/// encoding called `encoding` (encoding_rs names are unique) on `bytes`:
/// the decoded text, after sniffing a byte order mark, with malformed
/// sequences replaced.
pub uninterp spec fn decoded_in(encoding: Seq<char>, bytes: Seq<u8>) -> Seq<char>;

/// `String::from_utf8_lossy`: valid UTF-8 decodes to its characters; the
/// rest is named by `lossy_utf8`.
#[verifier::external_body]
fn utf8_lossy(bytes: &[u8]) -> (r: String)
    ensures
        r@ == lossy_utf8(bytes@),
        valid_utf8(bytes@) ==> r@ == decode_utf8(bytes@),
{
    String::from_utf8_lossy(bytes).into_owned()
}

/// `std::str::from_utf8`: succeeds exactly on valid UTF-8, with its
/// characters.
#[verifier::external_body]
fn utf8_exact(bytes: &[u8]) -> (r: Option<String>)
    ensures
        r is Some <==> valid_utf8(bytes@),
        r matches Some(s) ==> s@ == decode_utf8(bytes@),
{
    match std::str::from_utf8(bytes) {
        Ok(s) => Some(s.to_string()),
        Err(_) => None,
    }
}

/// `encoding_rs::UTF_16LE.decode`, the decoded text (named by
/// `utf16le_text`): after the byte order mark FF FE, which it removes,
/// well-formed UTF-16LE decodes to the characters it encodes. The size
/// computation of its buffer must not overflow.
#[verifier::external_body]
fn decode_utf16le(bytes: &[u8]) -> (r: String)
    requires
        bytes@.len() <= usize::MAX / 4,
    ensures
        r@ == utf16le_text(bytes@),
        forall|s: Seq<char>| bytes@ == seq![0xFFu8, 0xFEu8] + #[trigger] utf16_of(s, false) ==> r@ == s,
{
    encoding_rs::UTF_16LE.decode(bytes).0.into_owned()
}

/// `encoding_rs::UTF_16BE.decode`, the decoded text (named by
/// `utf16be_text`): after the byte order mark FE FF, which it removes,
/// well-formed UTF-16BE decodes to the characters it encodes. The size
/// computation of its buffer must not overflow.
#[verifier::external_body]
fn decode_utf16be(bytes: &[u8]) -> (r: String)
    requires
        bytes@.len() <= usize::MAX / 4,
    ensures
        r@ == utf16be_text(bytes@),
        forall|s: Seq<char>| bytes@ == seq![0xFEu8, 0xFFu8] + #[trigger] utf16_of(s, true) ==> r@ == s,
{
    encoding_rs::UTF_16BE.decode(bytes).0.into_owned()
}

/// chardetng: a new `EncodingDetector` fed all of `bytes` as the last chunk,
/// then `guess(None, true)`; the guessed encoding's `name` (named by
/// `detected_encoding`) and that encoding's `decode` of `bytes` (named by
/// `decoded_in`, of that name). The size computation of the decoding buffer must not
/// overflow.
#[verifier::external_body]
fn detect_and_decode(bytes: &[u8]) -> (r: (String, String))
    requires
        bytes@.len() <= usize::MAX / 4,
    ensures
        r.0@ == detected_encoding(bytes@),
        r.1@ == decoded_in(r.0@, bytes@),
{
    let mut detector = chardetng::EncodingDetector::new();
    detector.feed(bytes, true);
    let encoding = detector.guess(None, true);
    (encoding.name().to_string(), encoding.decode(bytes).0.into_owned())
}

/// `s` begins with `prefix`.
pub open spec fn starts_with(s: Seq<u8>, prefix: Seq<u8>) -> bool {
    prefix.len() <= s.len() && s.take(prefix.len() as int) == prefix
}

/// The text a file's bytes decode to: after a UTF-8 byte order mark the
/// rest decoded leniently (as it is when it is valid UTF-8); with a UTF-16 byte order mark, decoded as that;
/// valid UTF-8 as it is; anything else in the encoding chardetng guesses.
pub open spec fn decoded_text(bytes: Seq<u8>) -> Seq<char> {
    if starts_with(bytes, seq![0xEFu8, 0xBBu8, 0xBFu8]) {
        if valid_utf8(bytes.skip(3)) {
            decode_utf8(bytes.skip(3))
        } else {
            lossy_utf8(bytes.skip(3))
        }
    } else if starts_with(bytes, seq![0xFFu8, 0xFEu8]) {
        utf16le_text(bytes)
    } else if starts_with(bytes, seq![0xFEu8, 0xFFu8]) {
        utf16be_text(bytes)
    } else if valid_utf8(bytes) {
        decode_utf8(bytes)
    } else {
        decoded_in(detected_encoding(bytes), bytes)
    }
}

/// `e` is the encoding reported for a file of these bytes (in the same
/// order of tests as `decoded_text`).
pub open spec fn decoded_encoding_is(bytes: Seq<u8>, e: FileEncoding) -> bool {
    if starts_with(bytes, seq![0xEFu8, 0xBBu8, 0xBFu8]) {
        e == FileEncoding::Utf8Bom
    } else if starts_with(bytes, seq![0xFFu8, 0xFEu8]) {
        e == FileEncoding::Utf16Le
    } else if starts_with(bytes, seq![0xFEu8, 0xFFu8]) {
        e == FileEncoding::Utf16Be
    } else if valid_utf8(bytes) {
        e == FileEncoding::Utf8
    } else {
        e matches FileEncoding::Other(name) && name@ == detected_encoding(bytes)
    }
}

/// Whether `text`, written in `encoding` by `encoded_bytes`, reads back as
/// itself in that encoding: always after a byte order mark (UTF-8 with BOM,
/// UTF-16); in plain UTF-8 unless the text begins with U+FEFF, which would
/// read as a byte order mark; never for other encodings, which are written
/// as UTF-8.
pub open spec fn reads_back(text: Seq<char>, encoding: FileEncoding) -> bool {
    match encoding {
        FileEncoding::Utf8 => text.len() == 0 || text[0] != '\u{FEFF}',
        FileEncoding::Other(_) => false,
        _ => true,
    }
}

/// Whether decoding `bytes` goes through encoding_rs: after a UTF-16 byte
/// order mark, or for bytes that are neither valid UTF-8 nor after a UTF-8
/// byte order mark.
pub open spec fn needs_decoder(bytes: Seq<u8>) -> bool {
    &&& !starts_with(bytes, seq![0xEFu8, 0xBBu8, 0xBFu8])
    &&& (starts_with(bytes, seq![0xFFu8, 0xFEu8]) || starts_with(bytes, seq![0xFEu8, 0xFFu8])
        || !valid_utf8(bytes))
}

/// Decodes a file's bytes and reports the encoding (see `decoded_text`).
/// Bytes written by `encoded_bytes` for a text that reads back in its
/// encoding decode to that text and that encoding.
pub fn decode_bytes(bytes: &[u8]) -> (r: (String, FileEncoding))
    requires
        needs_decoder(bytes@) ==> bytes@.len() <= usize::MAX / 4,
    ensures
        r.0@ == decoded_text(bytes@),
        decoded_encoding_is(bytes@, r.1),
        forall|text: Seq<char>, e: FileEncoding|
            reads_back(text, e) && bytes@ == #[trigger] encoded_bytes(text, e) ==> r.0@ == text && r.1 == e,
{
    let n = bytes.len();
    if n >= 3 && bytes[0] == 0xEF && bytes[1] == 0xBB && bytes[2] == 0xBF {
        assert(bytes@.take(3) =~= seq![0xEFu8, 0xBBu8, 0xBFu8]);
        let rest = &bytes[3..n];
        assert(rest@ =~= bytes@.skip(3));
        let r = (utf8_lossy(rest), FileEncoding::Utf8Bom);
        assert forall|text: Seq<char>, e: FileEncoding|
            reads_back(text, e) && bytes@ == #[trigger] encoded_bytes(text, e) implies r.0@ == text && r.1 == e by {
            lemma_encoded_start(text, e);
        }
        return r;
    }
    assert(!starts_with(bytes@, seq![0xEFu8, 0xBBu8, 0xBFu8])) by {
        if starts_with(bytes@, seq![0xEFu8, 0xBBu8, 0xBFu8]) {
            assert(bytes@.take(3)[0] == bytes@[0]);
            assert(bytes@.take(3)[1] == bytes@[1]);
            assert(bytes@.take(3)[2] == bytes@[2]);
        }
    }
    if n >= 2 && bytes[0] == 0xFF && bytes[1] == 0xFE {
        assert(bytes@.take(2) =~= seq![0xFFu8, 0xFEu8]);
        assert(needs_decoder(bytes@));
        let r = (decode_utf16le(bytes), FileEncoding::Utf16Le);
        assert forall|text: Seq<char>, e: FileEncoding|
            reads_back(text, e) && bytes@ == #[trigger] encoded_bytes(text, e) implies r.0@ == text && r.1 == e by {
            lemma_encoded_start(text, e);
            if e is Utf16Le {
                assert(bytes@ == seq![0xFFu8, 0xFEu8] + utf16_of(text, false));
            }
        }
        return r;
    }
    assert(!starts_with(bytes@, seq![0xFFu8, 0xFEu8])) by {
        if starts_with(bytes@, seq![0xFFu8, 0xFEu8]) {
            assert(bytes@.take(2)[0] == bytes@[0]);
            assert(bytes@.take(2)[1] == bytes@[1]);
        }
    }
    if n >= 2 && bytes[0] == 0xFE && bytes[1] == 0xFF {
        assert(bytes@.take(2) =~= seq![0xFEu8, 0xFFu8]);
        assert(needs_decoder(bytes@));
        let r = (decode_utf16be(bytes), FileEncoding::Utf16Be);
        assert forall|text: Seq<char>, e: FileEncoding|
            reads_back(text, e) && bytes@ == #[trigger] encoded_bytes(text, e) implies r.0@ == text && r.1 == e by {
            lemma_encoded_start(text, e);
            if e is Utf16Be {
                assert(bytes@ == seq![0xFEu8, 0xFFu8] + utf16_of(text, true));
            }
        }
        return r;
    }
    assert(!starts_with(bytes@, seq![0xFEu8, 0xFFu8])) by {
        if starts_with(bytes@, seq![0xFEu8, 0xFFu8]) {
            assert(bytes@.take(2)[0] == bytes@[0]);
            assert(bytes@.take(2)[1] == bytes@[1]);
        }
    }
    let r = match utf8_exact(bytes) {
        Some(s) => (s, FileEncoding::Utf8),
        None => {
            let (name, text) = detect_and_decode(bytes);
            (text, FileEncoding::Other(name))
        },
    };
    assert forall|text: Seq<char>, e: FileEncoding|
        reads_back(text, e) && bytes@ == #[trigger] encoded_bytes(text, e) implies r.0@ == text && r.1 == e by {
        lemma_encoded_start(text, e);
    }
    r
}

/// `decode_bytes`, or `None` for the bytes on which encoding_rs would
/// overflow the size of its buffer (and panic): bytes that need it and are
/// longer than `usize::MAX / 4`.
pub fn checked_decode_bytes(bytes: &[u8]) -> (r: Option<(String, FileEncoding)>)
    ensures
        r is None <==> (needs_decoder(bytes@) && bytes@.len() > usize::MAX / 4),
        r matches Some(d) ==> d.0@ == decoded_text(bytes@) && decoded_encoding_is(bytes@, d.1),
        forall|text: Seq<char>, e: FileEncoding|
            r is Some && reads_back(text, e) && bytes@ == #[trigger] encoded_bytes(text, e) ==> (r matches Some(
                d,
            ) && d.0@ == text && d.1 == e),
{
    if bytes.len() <= usize::MAX / 4 {
        return Some(decode_bytes(bytes));
    }
    let n = bytes.len();
    let bom8 = n >= 3 && bytes[0] == 0xEF && bytes[1] == 0xBB && bytes[2] == 0xBF;
    let bom16 = n >= 2 && ((bytes[0] == 0xFF && bytes[1] == 0xFE) || (bytes[0] == 0xFE && bytes[1] == 0xFF));
    proof {
        if bom8 {
            assert(bytes@.take(3) =~= seq![0xEFu8, 0xBBu8, 0xBFu8]);
        } else if starts_with(bytes@, seq![0xEFu8, 0xBBu8, 0xBFu8]) {
            assert(bytes@.take(3)[0] == bytes@[0]);
            assert(bytes@.take(3)[1] == bytes@[1]);
            assert(bytes@.take(3)[2] == bytes@[2]);
        }
        if bom16 {
            if bytes@[0] == 0xFFu8 {
                assert(bytes@.take(2) =~= seq![0xFFu8, 0xFEu8]);
            } else {
                assert(bytes@.take(2) =~= seq![0xFEu8, 0xFFu8]);
            }
        } else {
            if starts_with(bytes@, seq![0xFFu8, 0xFEu8]) || starts_with(bytes@, seq![0xFEu8, 0xFFu8]) {
                assert(bytes@.take(2)[0] == bytes@[0]);
                assert(bytes@.take(2)[1] == bytes@[1]);
            }
        }
    }
    if bom8 {
        return Some(decode_bytes(bytes));
    }
    if bom16 {
        return None;
    }
    match utf8_exact(bytes) {
        Some(_) => Some(decode_bytes(bytes)),
        None => None,
    }
}

/// Where the bytes written for a text that reads back in its encoding
/// start, and what they decode to.
proof fn lemma_encoded_start(text: Seq<char>, e: FileEncoding)
    requires
        reads_back(text, e),
    ensures
        starts_with(encoded_bytes(text, e), seq![0xEFu8, 0xBBu8, 0xBFu8]) == (e is Utf8Bom),
        e is Utf8Bom ==> decoded_text(encoded_bytes(text, e)) == text,
        e is Utf16Le ==> starts_with(encoded_bytes(text, e), seq![0xFFu8, 0xFEu8]),
        e is Utf16Be ==> !starts_with(encoded_bytes(text, e), seq![0xFFu8, 0xFEu8])
            && starts_with(encoded_bytes(text, e), seq![0xFEu8, 0xFFu8]),
        e is Utf8 ==> !starts_with(encoded_bytes(text, e), seq![0xFFu8, 0xFEu8])
            && !starts_with(encoded_bytes(text, e), seq![0xFEu8, 0xFFu8])
            && valid_utf8(encoded_bytes(text, e))
            && decode_utf8(encoded_bytes(text, e)) == text,
{
    let b = encoded_bytes(text, e);
    match e {
        FileEncoding::Utf8Bom => {
            assert(b.take(3) =~= seq![0xEFu8, 0xBBu8, 0xBFu8]);
            assert(b.skip(3) =~= encode_utf8(text));
            encode_utf8_valid_utf8(text);
            encode_utf8_decode_utf8(text);
        },
        FileEncoding::Utf16Le => {
            assert(b.take(2) =~= seq![0xFFu8, 0xFEu8]);
            assert(b[0] == 0xFFu8);
            assert(!starts_with(b, seq![0xEFu8, 0xBBu8, 0xBFu8])) by {
                if starts_with(b, seq![0xEFu8, 0xBBu8, 0xBFu8]) {
                    assert(b.take(3)[0] == b[0]);
                }
            }
        },
        FileEncoding::Utf16Be => {
            assert(b.take(2) =~= seq![0xFEu8, 0xFFu8]);
            assert(b[0] == 0xFEu8);
            assert(!starts_with(b, seq![0xEFu8, 0xBBu8, 0xBFu8])) by {
                if starts_with(b, seq![0xEFu8, 0xBBu8, 0xBFu8]) {
                    assert(b.take(3)[0] == b[0]);
                }
            }
            assert(!starts_with(b, seq![0xFFu8, 0xFEu8])) by {
                if starts_with(b, seq![0xFFu8, 0xFEu8]) {
                    assert(b.take(2)[0] == b[0]);
                }
            }
        },
        FileEncoding::Utf8 => {
            lemma_utf8_text_reopens(text);
            encode_utf8_valid_utf8(text);
            encode_utf8_decode_utf8(text);
        },
        FileEncoding::Other(_) => {},
    }
}

proof fn lemma_crlf_text_push(s: Seq<char>, c: char)
    ensures
        crlf_text(s.push(c)) == if c == '\n' {
            crlf_text(s) + seq!['\r', '\n']
        } else {
            crlf_text(s).push(c)
        },
{
    assert(s.push(c).drop_last() =~= s);
}

/// After saving with CRLF, a text that has a line feed reads back as CRLF.
pub proof fn law_crlf_save_detected(s: Seq<char>)
    requires
        s.contains('\n'),
    ensures
        has_crlf(saved_text(s, LineEnding::CrLf)),
    decreases s.len(),
{
    let c = s.last();
    let init = s.drop_last();
    assert(s =~= init.push(c));
    lemma_crlf_text_push(init, c);
    if c == '\n' {
        let out = crlf_text(s);
        let k = crlf_text(init).len() as int;
        assert(out[k] == '\r' && out[k + 1] == '\n');
    } else {
        assert(init.contains('\n')) by {
            let i = choose|i: int| 0 <= i < s.len() && s[i] == '\n';
            assert(init[i] == '\n');
        }
        law_crlf_save_detected(init);
        let i = choose|i: int| 0 <= i && i + 1 < crlf_text(init).len() && crlf_text(init)[i] == '\r' && #[trigger] crlf_text(init)[i + 1] == '\n';
        assert(crlf_text(s)[i + 1] == '\n');
    }
}

/// Saving with LF writes the text as it is.
pub proof fn law_lf_save_unchanged(s: Seq<char>)
    ensures
        saved_text(s, LineEnding::Lf) == s,
{
}

/// A file of valid UTF-8 that does not start with a UTF-8 byte order mark
/// opens as exactly the text it encodes, reported as UTF-8.
pub proof fn law_utf8_opens_as_itself(bytes: Seq<u8>)
    requires
        valid_utf8(bytes),
        !starts_with(bytes, seq![0xEFu8, 0xBBu8, 0xBFu8]),
    ensures
        decoded_text(bytes) == decode_utf8(bytes),
        decoded_encoding_is(bytes, FileEncoding::Utf8),
{
    if bytes.len() >= 2 {
        let b0 = bytes[0];
        assert(b0 <= 0xf7);
        assert(bytes.take(2)[0] == b0);
    }
}

/// A text that is saved and opened again reads back as exactly the text
/// written, reported as UTF-8, unless that text begins with U+FEFF (which
/// would be read as a byte order mark).
pub proof fn law_saved_text_reopens(content: Seq<char>, line_ending: LineEnding)
    requires
        saved_text(content, line_ending).len() == 0 || saved_text(content, line_ending)[0] != '\u{FEFF}',
    ensures
        decoded_text(encode_utf8(saved_text(content, line_ending))) == saved_text(content, line_ending),
        decoded_encoding_is(encode_utf8(saved_text(content, line_ending)), FileEncoding::Utf8),
{
    lemma_utf8_text_reopens(saved_text(content, line_ending));
}

/// Plain UTF-8 of a text that does not begin with U+FEFF opens as that text.
proof fn lemma_utf8_text_reopens(w: Seq<char>)
    requires
        w.len() == 0 || w[0] != '\u{FEFF}',
    ensures
        decoded_text(encode_utf8(w)) == w,
        decoded_encoding_is(encode_utf8(w), FileEncoding::Utf8),
{
    let bytes = encode_utf8(w);
    encode_utf8_valid_utf8(w);
    encode_utf8_decode_utf8(w);
    if starts_with(bytes, seq![0xEFu8, 0xBBu8, 0xBFu8]) {
        assert(bytes[0] == 0xEFu8 && bytes[1] == 0xBBu8 && bytes[2] == 0xBFu8) by {
            assert(bytes.take(3)[0] == bytes[0]);
            assert(bytes.take(3)[1] == bytes[1]);
            assert(bytes.take(3)[2] == bytes[2]);
        }
        assert(codepoint_width_3(0xEFu8, 0xBBu8, 0xBFu8) == 0xFEFFu32) by (bit_vector);
        assert(decode_utf8(bytes)[0] == (0xFEFFu32 as char));
        assert(('\u{FEFF}' as u32) == 0xFEFFu32);
        vstd::utf8::char_u32_cast('\u{FEFF}', 0xFEFFu32);
        assert(false);
    }
    law_utf8_opens_as_itself(bytes);
}

} // verus!

