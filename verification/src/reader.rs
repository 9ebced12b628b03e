//! Format reader: decodes raw bytes into a structural value tree, honoring a
//! per-file policy for character encoding, byte-order marks and trailing
//! commas. Byte-order-mark bytes are stripped unconditionally: the
//! autodetect flag only governs encoding guessing, never BOM stripping.

use vstd::prelude::*;
use crate::config::ResolvedSourceFormat;
use crate::json::{DocParse, JsonValue, ParseError};

verus! {

/// The canonical registry name a label resolves to, if any; the registry is
/// fixed, so this is a function of the label alone.
pub uninterp spec fn encoding_for_label(label: Seq<char>) -> Option<Seq<char>>;

/// Relies on `encoding_rs::Encoding::for_label` to resolve a label and on
/// `Encoding::name` for its canonical spelling.
#[verifier::external_body]
pub fn lookup_encoding(label: &str) -> (r: Option<String>)
    ensures
        r is Some <==> encoding_for_label(label@) is Some,
        r matches Some(n) ==> encoding_for_label(label@) == Some(n@),
{
    match encoding_rs::Encoding::for_label(label.as_bytes()) {
        Some(e) => Some(String::from(e.name())),
        None => None,
    }
}

/// The text that decoding a byte stream under a registry label yields, with
/// malformed sequences replaced; a function of the label and the bytes alone.
pub uninterp spec fn decoded_text(encoding: Seq<char>, bytes: Seq<u8>) -> Seq<char>;

/// Relies on `encoding_rs::Encoding::for_label` to find the encoding under
/// its label and on `Encoding::decode_without_bom_handling`: for one label
/// the decoded text is a function of the bytes alone, and decoding never
/// fails (malformed sequences come back as replacement characters).
#[verifier::external_body]
fn decode_into(encoding: &str, bytes: &[u8], out: &mut Vec<char>) -> (r: bool)
    ensures
        r <==> encoding_for_label(encoding@) is Some,
        r ==> final (out)@ == decoded_text(encoding@, bytes@),
{
    match encoding_rs::Encoding::for_label(encoding.as_bytes()) {
        Some(e) => {
            let (text, _) = e.decode_without_bom_handling(bytes);
            out.clear();
            out.extend(text.chars());
            true
        },
        None => false,
    }
}

/// The three byte-order marks the reader recognizes.
#[derive(Debug, PartialEq, Eq, Structural, Clone, Copy)]
pub enum Bom {
    Utf8,
    Utf16Le,
    Utf16Be,
}

/// The bytes of a mark.
pub open spec fn spec_bom_bytes(bom: Bom) -> Seq<u8> {
    match bom {
        Bom::Utf8 => seq![0xefu8, 0xbbu8, 0xbfu8],
        Bom::Utf16Le => seq![0xffu8, 0xfeu8],
        Bom::Utf16Be => seq![0xfeu8, 0xffu8],
    }
}

/// The canonical name of the encoding a mark announces.
pub open spec fn spec_bom_encoding(bom: Bom) -> Seq<char> {
    match bom {
        Bom::Utf8 => "UTF-8"@,
        Bom::Utf16Le => "UTF-16LE"@,
        Bom::Utf16Be => "UTF-16BE"@,
    }
}

/// The mark a byte stream opens with, if any.
pub open spec fn spec_sniff_bom(b: Seq<u8>) -> Option<Bom> {
    if b.len() >= 3 && b[0] == 0xef && b[1] == 0xbb && b[2] == 0xbf {
        Some(Bom::Utf8)
    } else if b.len() >= 2 && b[0] == 0xff && b[1] == 0xfe {
        Some(Bom::Utf16Le)
    } else if b.len() >= 2 && b[0] == 0xfe && b[1] == 0xff {
        Some(Bom::Utf16Be)
    } else {
        None
    }
}

/// Report the mark a byte stream opens with, if any.
pub fn sniff_bom(b: &[u8]) -> (r: Option<Bom>)
    ensures
        r == spec_sniff_bom(b@),
{
    if b.len() >= 3 && b[0] == 0xef && b[1] == 0xbb && b[2] == 0xbf {
        Some(Bom::Utf8)
    } else if b.len() >= 2 && b[0] == 0xff && b[1] == 0xfe {
        Some(Bom::Utf16Le)
    } else if b.len() >= 2 && b[0] == 0xfe && b[1] == 0xff {
        Some(Bom::Utf16Be)
    } else {
        None
    }
}

/// The encoding that decodes a file under a policy: the explicit one where
/// set; else, with autodetection on, whatever a mark announces; else UTF-8.
pub open spec fn spec_effective_encoding(f: ResolvedSourceFormat, b: Seq<u8>) -> Seq<char> {
    match f.encoding {
        Some(n) => n@,
        None => if f.autodetect {
            match spec_sniff_bom(b) {
                Some(bom) => spec_bom_encoding(bom),
                None => "UTF-8"@,
            }
        } else {
            "UTF-8"@
        },
    }
}

/// The mark that belongs to an encoding name, if that encoding has one.
pub open spec fn spec_encoding_bom(name: Seq<char>) -> Option<Bom> {
    if name == "UTF-8"@ {
        Some(Bom::Utf8)
    } else if name == "UTF-16LE"@ {
        Some(Bom::Utf16Le)
    } else if name == "UTF-16BE"@ {
        Some(Bom::Utf16Be)
    } else {
        None
    }
}

/// How many leading bytes are dropped before decoding: the effective
/// encoding's own mark if the stream opens with it, whatever the autodetect
/// flag says; an encoding without a mark drops nothing.
pub open spec fn spec_strip_len(f: ResolvedSourceFormat, b: Seq<u8>) -> int {
    match spec_encoding_bom(spec_effective_encoding(f, b)) {
        None => 0,
        Some(bom) => {
            let mark = spec_bom_bytes(bom);
            if b.len() >= mark.len() && b.subrange(0, mark.len() as int) == mark {
                mark.len() as int
            } else {
                0
            }
        },
    }
}

/// The text a byte stream decodes to under a policy: the mark dropped, the
/// rest decoded by the effective encoding.
pub open spec fn spec_decode_text(f: ResolvedSourceFormat, b: Seq<u8>) -> Seq<char> {
    decoded_text(spec_effective_encoding(f, b), b.subrange(spec_strip_len(f, b), b.len() as int))
}

/// A byte-order mark is stripped even when an explicit encoding is set: for
/// a stream opening with the UTF-8 mark and an explicit UTF-8 policy, the
/// three mark bytes are dropped whatever the autodetect flag says.
pub proof fn lemma_bom_stripped_despite_explicit_encoding(
    f: ResolvedSourceFormat,
    b: Seq<u8>,
)
    requires
        f.encoding matches Some(n) && n@ == "UTF-8"@,
        spec_sniff_bom(b) == Some(Bom::Utf8),
    ensures
        spec_strip_len(f, b) == 3,
        spec_decode_text(f, b) == decoded_text("UTF-8"@, b.subrange(3, b.len() as int)),
{
    assert(spec_bom_bytes(Bom::Utf8).len() == 3);
    assert(b.subrange(0, 3) =~= spec_bom_bytes(Bom::Utf8));
}

/// Why a file's bytes did not decode to a value.
#[derive(Debug, PartialEq, Eq)]
pub enum ReadError {
    /// The text is not one well-formed JSON value.
    Syntax,
    /// A well-formed value is followed by more non-whitespace text.
    TrailingData,
    /// An encoding name the label registry does not know.
    UnknownEncoding(String),
}

/// A format reader. It keeps one scratch text buffer across calls, so one
/// reader serves a sequential processing loop without reallocating; it is
/// not meant to be shared across concurrent callers.
pub struct Reader {
    buf: Vec<char>,
}

impl Reader {
    /// Whether the scratch buffer holds nothing. The buffer is only ever a
    /// workspace: no decode result depends on what it held before a call.
    pub closed spec fn spec_scratch_empty(&self) -> bool {
        self.buf@.len() == 0
    }

    /// A fresh reader with an empty scratch buffer, sized for a typical
    /// file up front.
    pub fn new() -> (r: Reader)
        ensures
            r.spec_scratch_empty(),
    {
        Reader { buf: Vec::with_capacity(8 * 1024) }
    }

    /// Decode one file's bytes under a policy: drop the effective encoding's
    /// own byte-order mark if the stream opens with it (whatever the
    /// autodetect flag says), decode the rest to text, and parse exactly one
    /// JSON value from it, tolerating a trailing comma if and only if the
    /// policy says so.
    pub fn deserialize_from(&mut self, bytes: &[u8], format: &ResolvedSourceFormat) -> (r:
        Result<JsonValue, ReadError>)
        ensures
            encoding_for_label(spec_effective_encoding(*format, bytes@)) is Some ==> (
            match crate::json::parse_text(
                spec_decode_text(*format, bytes@),
                format.allow_trailing_comma,
            ) {
                DocParse::Val(v) => r matches Ok(rv) && rv.deep() == v,
                DocParse::SyntaxErr => r == Err::<JsonValue, ReadError>(ReadError::Syntax),
                DocParse::TrailingErr => r == Err::<JsonValue, ReadError>(
                    ReadError::TrailingData,
                ),
            }),
            encoding_for_label(spec_effective_encoding(*format, bytes@)) is None ==> (r
                matches Err(e) && e matches ReadError::UnknownEncoding(n) && n@
                == spec_effective_encoding(*format, bytes@)),
    {
        let ename: String = match &format.encoding {
            Some(n) => n.clone(),
            None => {
                if format.autodetect {
                    match sniff_bom(bytes) {
                        Some(Bom::Utf8) => String::from_str("UTF-8"),
                        Some(Bom::Utf16Le) => String::from_str("UTF-16LE"),
                        Some(Bom::Utf16Be) => String::from_str("UTF-16BE"),
                        None => String::from_str("UTF-8"),
                    }
                } else {
                    String::from_str("UTF-8")
                }
            },
        };
        proof {
            assert(ename@ == spec_effective_encoding(*format, bytes@));
        }
        let utf8 = String::from_str("UTF-8");
        let utf16le = String::from_str("UTF-16LE");
        let utf16be = String::from_str("UTF-16BE");
        let strip: usize = if ename == utf8 && bytes.len() >= 3 && bytes[0] == 0xef && bytes[1]
            == 0xbb && bytes[2] == 0xbf {
            3
        } else if ename == utf16le && bytes.len() >= 2 && bytes[0] == 0xff && bytes[1] == 0xfe {
            2
        } else if ename == utf16be && bytes.len() >= 2 && bytes[0] == 0xfe && bytes[1] == 0xff {
            2
        } else {
            0
        };
        proof {
            reveal_strlit("UTF-8");
            reveal_strlit("UTF-16LE");
            reveal_strlit("UTF-16BE");
            assert("UTF-8"@.len() == 5 && "UTF-16LE"@.len() == 8 && "UTF-16BE"@.len() == 8);
            assert("UTF-16LE"@[6] == 'L' && "UTF-16BE"@[6] == 'B');
            if let Some(bom) = spec_encoding_bom(ename@) {
                let mark = spec_bom_bytes(bom);
                if bytes@.len() >= mark.len() {
                    if bytes@.subrange(0, mark.len() as int) == mark {
                        assert(bytes@[0] == bytes@.subrange(0, mark.len() as int)[0]);
                        assert(bytes@[1] == bytes@.subrange(0, mark.len() as int)[1]);
                        if mark.len() == 3 {
                            assert(bytes@[2] == bytes@.subrange(0, mark.len() as int)[2]);
                        }
                    } else {
                        if (bom == Bom::Utf8 && bytes@.len() >= 3 && bytes@[0] == 0xef
                            && bytes@[1] == 0xbb && bytes@[2] == 0xbf) || (bom == Bom::Utf16Le
                            && bytes@[0] == 0xff && bytes@[1] == 0xfe) || (bom == Bom::Utf16Be
                            && bytes@[0] == 0xfe && bytes@[1] == 0xff) {
                            assert(bytes@.subrange(0, mark.len() as int) =~= mark);
                        }
                    }
                }
            }
            assert(strip as int == spec_strip_len(*format, bytes@));
        }
        proof {
            assert(strip as int <= bytes@.len());
        }
        let mut body: Vec<u8> = Vec::new();
        let mut k: usize = strip;
        while k < bytes.len()
            invariant
                strip as int <= k as int <= bytes@.len(),
                body@ == bytes@.subrange(strip as int, k as int),
            decreases bytes@.len() - k,
        {
            body.push(bytes[k]);
            proof {
                assert(bytes@.subrange(strip as int, k as int).push(bytes@[k as int])
                    =~= bytes@.subrange(strip as int, k as int + 1));
            }
            k = k + 1;
        }
        if !decode_into(ename.as_str(), body.as_slice(), &mut self.buf) {
            return Err(ReadError::UnknownEncoding(ename));
        }
        match crate::json::parse_json(self.buf.as_slice(), format.allow_trailing_comma) {
            Ok(v) => Ok(v),
            Err(ParseError::Syntax) => Err(ReadError::Syntax),
            Err(ParseError::TrailingData) => Err(ReadError::TrailingData),
        }
    }
}

impl Default for Reader {
    /// A fresh reader, exactly as `new` makes one.
    fn default() -> (r: Reader)
        ensures
            r.spec_scratch_empty(),
    {
        Reader::new()
    }
}

} // verus!
