//! Decoding of input bytes: encoding labels, the order in which encodings are
//! tried, and code page 720.

use vstd::prelude::*;
use vstd::string::*;

use crate::text::{
    self, ascii_lower, concat2, concat3, contains_text, replace_char, same, split_at_first,
    split_chars, trim,
};

verus! {

/// A decoded text and the label of the encoding that was used.
#[derive(Debug, Clone, PartialEq, Eq)]
pub struct DecodedInput {
    pub text: String,
    pub encoding: String,
}

/// The model of a decoded text.
pub struct DecodedModel {
    pub text: Seq<char>,
    pub encoding: Seq<char>,
}

impl View for DecodedInput {
    type V = DecodedModel;

    open spec fn view(&self) -> DecodedModel {
        DecodedModel { text: self.text@, encoding: self.encoding@ }
    }
}

/// Why an input could not be read as rows.
#[derive(Debug, Clone, PartialEq, Eq)]
pub enum IngestError {
    UnknownEncoding(String),
    DecodeFailed,
    Csv(String),
}

/// The model of an ingest error.
pub enum IngestErrorModel {
    UnknownEncoding(Seq<char>),
    DecodeFailed,
    Csv(Seq<char>),
}

impl View for IngestError {
    type V = IngestErrorModel;

    open spec fn view(&self) -> IngestErrorModel {
        match self {
            IngestError::UnknownEncoding(s) => IngestErrorModel::UnknownEncoding(s@),
            IngestError::DecodeFailed => IngestErrorModel::DecodeFailed,
            IngestError::Csv(s) => IngestErrorModel::Csv(s@),
        }
    }
}

impl IngestErrorModel {
    /// The text shown for the error.
    pub open spec fn text(self) -> Seq<char> {
        match self {
            IngestErrorModel::UnknownEncoding(s) => "unknown encoding '"@ + s + "'"@,
            IngestErrorModel::DecodeFailed =>
                "input could not be decoded with the compatibility encoding set"@,
            IngestErrorModel::Csv(s) => "CSV parse failed: "@ + s,
        }
    }
}

impl IngestError {
    /// The text shown for the error.
    pub fn message(&self) -> (r: String)
        ensures
            r@ == self@.text(),
    {
        match self {
            IngestError::UnknownEncoding(s) => concat3("unknown encoding '", s, "'"),
            IngestError::DecodeFailed =>
                "input could not be decoded with the compatibility encoding set".to_owned(),
            IngestError::Csv(s) => concat2("CSV parse failed: ", s),
        }
    }
}

/// The model of a result with an ingest error.
pub open spec fn decoded_view(r: Result<DecodedInput, IngestError>) -> Result<
    DecodedModel,
    IngestErrorModel,
> {
    match r {
        Ok(d) => Ok(d@),
        Err(e) => Err(e@),
    }
}

// ---------------------------------------------------------------------------
// Encodings of the encoding standard
// ---------------------------------------------------------------------------

/// The name of the encoding that `encoding_rs::Encoding::for_label` finds for a label.
pub uninterp spec fn labelled_encoding(label: Seq<char>) -> Option<Seq<char>>;

/// The text that `encoding_rs::Encoding::decode` makes of bytes for the encoding
/// with this label, and whether any of them were malformed.
pub uninterp spec fn text_after_mark(label: Seq<char>, bytes: Seq<u8>) -> Option<
    (Seq<char>, bool),
>;

/// The text that `encoding_rs::Encoding::decode_without_bom_handling` makes of
/// bytes for the encoding with this label, and whether any were malformed.
pub uninterp spec fn text_as_is(label: Seq<char>, bytes: Seq<u8>) -> Option<(Seq<char>, bool)>;

/// The longest input whose decoded size is sure to be computed without overflow.
pub open spec fn max_input() -> nat {
    (usize::MAX / 16) as nat
}

/// The characters and the flag of a decoded text.
pub open spec fn flagged_view(r: Option<(String, bool)>) -> Option<(Seq<char>, bool)> {
    match r {
        Some((s, b)) => Some((s@, b)),
        None => None,
    }
}

/// `encoding_rs::Encoding::for_label` on the bytes of the label: the name of the
/// encoding that the label stands for, or nothing for an unknown label. The label
/// `utf-8` stands for UTF-8; which others stand for which encoding is left to that
/// function.
#[verifier::external_body]
fn name_for_label(label: &str) -> (r: Option<String>)
    ensures
        text::opt_view(r) == labelled_encoding(label@),
        label@ == "utf-8"@ ==> text::opt_view(r) == Some("UTF-8"@),
{
    encoding_rs::Encoding::for_label(label.as_bytes()).map(|encoding| encoding.name().to_owned())
}

/// `encoding_rs::Encoding::decode` on the encoding with the given label: a byte
/// order mark at the start decides the encoding and is removed. There is a text
/// exactly where the label is known; the flag says whether bytes were malformed.
/// How bytes map to characters is left to that function.
#[verifier::external_body]
fn decode_after_mark(label: &str, bytes: &[u8]) -> (r: Option<(String, bool)>)
    requires
        bytes@.len() <= max_input(),
    ensures
        flagged_view(r) == text_after_mark(label@, bytes@),
        r is Some <==> labelled_encoding(label@) is Some,
{
    encoding_rs::Encoding::for_label(label.as_bytes()).map(|encoding| {
        let (text, _, malformed) = encoding.decode(bytes);
        (text.into_owned(), malformed)
    })
}

/// `encoding_rs::Encoding::decode_without_bom_handling` on the encoding with the
/// given label: a byte order mark is read as text. There is a text exactly where
/// the label is known; the flag says whether bytes were malformed. For UTF-8 they
/// are malformed exactly if they are no valid UTF-8, and otherwise the text is the
/// one that they encode. How bytes of other encodings map to characters is left to
/// that function.
#[verifier::external_body]
fn decode_as_is(label: &str, bytes: &[u8]) -> (r: Option<(String, bool)>)
    requires
        bytes@.len() <= max_input(),
    ensures
        flagged_view(r) == text_as_is(label@, bytes@),
        r is Some <==> labelled_encoding(label@) is Some,
        labelled_encoding(label@) == Some("UTF-8"@) ==> match r {
            Some((text, malformed)) => malformed == !vstd::utf8::valid_utf8(bytes@) && (!malformed
                ==> text@ == vstd::utf8::decode_utf8(bytes@)),
            None => false,
        },
{
    encoding_rs::Encoding::for_label(label.as_bytes()).map(|encoding| {
        let (text, malformed) = encoding.decode_without_bom_handling(bytes);
        (text.into_owned(), malformed)
    })
}

// ---------------------------------------------------------------------------
// Labels
// ---------------------------------------------------------------------------

/// A label in its usual form: trimmed, in small letters, with hyphens.
pub open spec fn normal_label(label: Seq<char>) -> Seq<char> {
    text::replaced(text::lower(text::trimmed(label)), '_', "-"@)
}

/// A label in its usual form.
pub fn normalize_encoding_label(label: &str) -> (r: String)
    ensures
        r@ == normal_label(label@),
{
    replace_char(&ascii_lower(&trim(label)), '_', "-")
}

/// The label of the encoding standard that a normal label stands for: the
/// common names of UTF-16 and of the Latin code pages, else the label itself.
pub open spec fn standard_label(label: Seq<char>) -> Seq<char> {
    if label == "utf-16"@ {
        "utf-16le"@
    } else if label == "latin-1"@ || label == "latin1"@ || label == "iso8859-1"@ || label
        == "iso-8859-1"@ {
        "windows-1252"@
    } else if label == "iso8859-2"@ || label == "iso-8859-2"@ {
        "iso-8859-2"@
    } else {
        label
    }
}

/// The name of the encoding that a normal label stands for.
pub open spec fn encoding_of(label: Seq<char>) -> Option<Seq<char>> {
    labelled_encoding(standard_label(label))
}

/// The label of the encoding standard that a normal label stands for.
fn standardize_label(label: &str) -> (r: String)
    ensures
        r@ == standard_label(label@),
{
    if same(label, "utf-16") {
        "utf-16le".to_owned()
    } else if same(label, "latin-1") || same(label, "latin1") || same(label, "iso8859-1") || same(
        label,
        "iso-8859-1",
    ) {
        "windows-1252".to_owned()
    } else if same(label, "iso8859-2") || same(label, "iso-8859-2") {
        "iso-8859-2".to_owned()
    } else {
        label.to_owned()
    }
}

/// The name of the encoding that a normal label stands for.
pub fn encoding_for_label(label: &str) -> (r: Option<String>)
    ensures
        text::opt_view(r) == encoding_of(label@),
        label@ == "utf-8"@ ==> text::opt_view(r) == Some("UTF-8"@),
{
    proof {
        lemma_utf8_label();
    }
    name_for_label(&standardize_label(label))
}

/// The encoding named by a POSIX locale: what stands between the first `.` and
/// the `@`, or the whole name without an `@` part.
pub open spec fn locale_candidate(locale: Seq<char>) -> Seq<char> {
    let name = text::trimmed(locale);
    let tail = match text::split_once(name, '.') {
        Some((_, encoding)) => encoding,
        None => name,
    };
    text::trimmed(text::split_on(tail, '@')[0])
}

/// The encoding label of a POSIX locale, where it names a known encoding.
pub open spec fn locale_label(locale: Seq<char>) -> Option<Seq<char>> {
    let candidate = locale_candidate(locale);
    let label = normal_label(candidate);
    if text::trimmed(locale).len() == 0 || candidate.len() == 0 {
        None
    } else if label == "cp720"@ || encoding_of(label) is Some {
        Some(label)
    } else {
        None
    }
}

/// The encoding label of a POSIX locale, where it names a known encoding.
pub fn encoding_label_from_locale(locale: &str) -> (r: Option<String>)
    ensures
        text::opt_view(r) == locale_label(locale@),
{
    let name = trim(locale);
    if name.as_str().is_empty() {
        return None;
    }
    let tail = match split_at_first(&name, '.') {
        Some((_, encoding)) => encoding,
        None => name,
    };
    let parts = split_chars(&tail, '@');
    assert(text::views(parts@)[0] == parts@[0]@);
    let candidate = trim(&parts[0]);
    if candidate.as_str().is_empty() {
        return None;
    }
    let label = normalize_encoding_label(&candidate);
    if same(&label, "cp720") || encoding_for_label(&label).is_some() {
        Some(label)
    } else {
        None
    }
}

/// The first locale in order that names a known encoding.
pub open spec fn first_locale_label(locales: Seq<Seq<char>>) -> Option<Seq<char>>
    decreases locales.len(),
{
    if locales.len() == 0 {
        None
    } else {
        match locale_label(locales[0]) {
            Some(label) => Some(label),
            None => first_locale_label(locales.skip(1)),
        }
    }
}

/// The encoding of the environment: `locales` are the values of the locale
/// variables that are set, the most specific first.
pub fn locale_encoding_label(locales: &Vec<String>) -> (r: Option<String>)
    ensures
        text::opt_view(r) == first_locale_label(text::views(locales@)),
{
    let mut i: usize = 0;
    assert(text::views(locales@).skip(0) =~= text::views(locales@));
    while i < locales.len()
        invariant
            i <= locales.len(),
            first_locale_label(text::views(locales@)) == first_locale_label(
                text::views(locales@).skip(i as int),
            ),
        decreases locales.len() - i,
    {
        let ghost rest = text::views(locales@).skip(i as int);
        assert(rest[0] == locales@[i as int]@);
        assert(rest.skip(1) =~= text::views(locales@).skip(i + 1));
        let label = encoding_label_from_locale(&locales[i]);
        if label.is_some() {
            return label;
        }
        i = i + 1;
    }
    None
}

/// `labels` with `label` at the end, unless it is there already.
pub open spec fn with_label(labels: Seq<Seq<char>>, label: Seq<char>) -> Seq<Seq<char>> {
    if labels.contains(label) {
        labels
    } else {
        labels.push(label)
    }
}

/// The encodings that are tried in turn: Unicode, the one of the locale, then
/// the legacy code pages.
pub open spec fn compatibility_labels(locale: Option<Seq<char>>) -> Seq<Seq<char>> {
    let unicode = with_label(with_label(Seq::empty(), "utf-8"@), "utf-16"@);
    let local = match locale {
        Some(label) => with_label(unicode, label),
        None => unicode,
    };
    with_label(
        with_label(with_label(with_label(local, "iso8859-1"@), "iso8859-2"@), "cp720"@),
        "latin-1"@,
    )
}

/// Adds a label, unless it is there already.
fn push_unique_label(labels: &mut Vec<String>, label: String)
    ensures
        text::views(final(labels)@) == with_label(text::views(old(labels)@), label@),
{
    if !contains_text(labels, &label) {
        proof {
            text::lemma_views_push(labels@, label);
        }
        labels.push(label);
    }
}

/// The encodings that are tried in turn.
pub fn compatibility_encoding_labels_with_locale(locale: Option<String>) -> (r: Vec<String>)
    ensures
        text::views(r@) == compatibility_labels(text::opt_view(locale)),
{
    let mut labels: Vec<String> = Vec::new();
    assert(text::views(labels@) =~= Seq::<Seq<char>>::empty());
    push_unique_label(&mut labels, "utf-8".to_owned());
    push_unique_label(&mut labels, "utf-16".to_owned());
    if let Some(label) = locale {
        push_unique_label(&mut labels, label);
    }
    push_unique_label(&mut labels, "iso8859-1".to_owned());
    push_unique_label(&mut labels, "iso8859-2".to_owned());
    push_unique_label(&mut labels, "cp720".to_owned());
    push_unique_label(&mut labels, "latin-1".to_owned());
    labels
}

/// No encoding is tried twice, whatever the locale.
pub proof fn compatibility_labels_are_distinct(locale: Option<Seq<char>>)
    ensures
        compatibility_labels(locale).no_duplicates(),
{
    let unicode = with_label(with_label(Seq::empty(), "utf-8"@), "utf-16"@);
    let local = match locale {
        Some(label) => with_label(unicode, label),
        None => unicode,
    };
    lemma_with_label(Seq::empty(), "utf-8"@);
    lemma_with_label(with_label(Seq::empty(), "utf-8"@), "utf-16"@);
    if locale is Some {
        lemma_with_label(unicode, locale->0);
    }
    lemma_with_label(local, "iso8859-1"@);
    let a = with_label(local, "iso8859-1"@);
    lemma_with_label(a, "iso8859-2"@);
    let b = with_label(a, "iso8859-2"@);
    lemma_with_label(b, "cp720"@);
    lemma_with_label(with_label(b, "cp720"@), "latin-1"@);
}

proof fn lemma_with_label(labels: Seq<Seq<char>>, label: Seq<char>)
    requires
        labels.no_duplicates(),
    ensures
        with_label(labels, label).no_duplicates(),
{
    let all = with_label(labels, label);
    assert forall|i: int, j: int| 0 <= i < all.len() && 0 <= j < all.len() && i != j implies all[i]
        != all[j] by {
        if !labels.contains(label) {
            if i == labels.len() {
                assert(labels.contains(labels[j]));
            } else if j == labels.len() {
                assert(labels.contains(labels[i]));
            }
        }
    }
}

// ---------------------------------------------------------------------------
// Decoding
// ---------------------------------------------------------------------------

/// The characters of the upper half of code page 720, in order.
pub open spec fn cp720_upper_half() -> Seq<char> {
    "\u{80}\u{81}\u{e9}\u{e2}\u{84}\u{e0}\u{86}\u{e7}\u{ea}\u{eb}\u{e8}\u{ef}\u{ee}\u{8d}\u{8e}\u{8f}\u{90}\u{651}\u{652}\u{f4}\u{a4}\u{640}\u{fb}\u{f9}\u{621}\u{622}\u{623}\u{624}\u{a3}\u{625}\u{626}\u{627}\u{628}\u{629}\u{62a}\u{62b}\u{62c}\u{62d}\u{62e}\u{62f}\u{630}\u{631}\u{632}\u{633}\u{634}\u{635}\u{ab}\u{bb}\u{2591}\u{2592}\u{2593}\u{2502}\u{2524}\u{2561}\u{2562}\u{2556}\u{2555}\u{2563}\u{2551}\u{2557}\u{255d}\u{255c}\u{255b}\u{2510}\u{2514}\u{2534}\u{252c}\u{251c}\u{2500}\u{253c}\u{255e}\u{255f}\u{255a}\u{2554}\u{2569}\u{2566}\u{2560}\u{2550}\u{256c}\u{2567}\u{2568}\u{2564}\u{2565}\u{2559}\u{2558}\u{2552}\u{2553}\u{256b}\u{256a}\u{2518}\u{250c}\u{2588}\u{2584}\u{258c}\u{2590}\u{2580}\u{636}\u{637}\u{638}\u{639}\u{63a}\u{641}\u{b5}\u{642}\u{643}\u{644}\u{645}\u{646}\u{647}\u{648}\u{649}\u{64a}\u{2261}\u{64b}\u{64c}\u{64d}\u{64e}\u{64f}\u{650}\u{2248}\u{b0}\u{2219}\u{b7}\u{221a}\u{207f}\u{b2}\u{25a0}\u{a0}"@
}

/// The character of a byte in code page 720.
pub open spec fn cp720(byte: u8) -> char {
    if byte < 0x80 {
        byte as char
    } else {
        cp720_upper_half()[byte - 0x80]
    }
}

/// The text of bytes in code page 720.
pub open spec fn cp720_text(bytes: Seq<u8>) -> Seq<char> {
    Seq::new(bytes.len(), |i: int| cp720(bytes[i]))
}

/// The character of a byte in code page 720.
fn cp720_char(byte: u8) -> (r: char)
    ensures
        r == cp720(byte),
{
    if byte < 0x80 {
        byte as char
    } else {
        let upper = "\u{80}\u{81}\u{e9}\u{e2}\u{84}\u{e0}\u{86}\u{e7}\u{ea}\u{eb}\u{e8}\u{ef}\u{ee}\u{8d}\u{8e}\u{8f}\u{90}\u{651}\u{652}\u{f4}\u{a4}\u{640}\u{fb}\u{f9}\u{621}\u{622}\u{623}\u{624}\u{a3}\u{625}\u{626}\u{627}\u{628}\u{629}\u{62a}\u{62b}\u{62c}\u{62d}\u{62e}\u{62f}\u{630}\u{631}\u{632}\u{633}\u{634}\u{635}\u{ab}\u{bb}\u{2591}\u{2592}\u{2593}\u{2502}\u{2524}\u{2561}\u{2562}\u{2556}\u{2555}\u{2563}\u{2551}\u{2557}\u{255d}\u{255c}\u{255b}\u{2510}\u{2514}\u{2534}\u{252c}\u{251c}\u{2500}\u{253c}\u{255e}\u{255f}\u{255a}\u{2554}\u{2569}\u{2566}\u{2560}\u{2550}\u{256c}\u{2567}\u{2568}\u{2564}\u{2565}\u{2559}\u{2558}\u{2552}\u{2553}\u{256b}\u{256a}\u{2518}\u{250c}\u{2588}\u{2584}\u{258c}\u{2590}\u{2580}\u{636}\u{637}\u{638}\u{639}\u{63a}\u{641}\u{b5}\u{642}\u{643}\u{644}\u{645}\u{646}\u{647}\u{648}\u{649}\u{64a}\u{2261}\u{64b}\u{64c}\u{64d}\u{64e}\u{64f}\u{650}\u{2248}\u{b0}\u{2219}\u{b7}\u{221a}\u{207f}\u{b2}\u{25a0}\u{a0}";
        proof {
            reveal_strlit(
                "\u{80}\u{81}\u{e9}\u{e2}\u{84}\u{e0}\u{86}\u{e7}\u{ea}\u{eb}\u{e8}\u{ef}\u{ee}\u{8d}\u{8e}\u{8f}\u{90}\u{651}\u{652}\u{f4}\u{a4}\u{640}\u{fb}\u{f9}\u{621}\u{622}\u{623}\u{624}\u{a3}\u{625}\u{626}\u{627}\u{628}\u{629}\u{62a}\u{62b}\u{62c}\u{62d}\u{62e}\u{62f}\u{630}\u{631}\u{632}\u{633}\u{634}\u{635}\u{ab}\u{bb}\u{2591}\u{2592}\u{2593}\u{2502}\u{2524}\u{2561}\u{2562}\u{2556}\u{2555}\u{2563}\u{2551}\u{2557}\u{255d}\u{255c}\u{255b}\u{2510}\u{2514}\u{2534}\u{252c}\u{251c}\u{2500}\u{253c}\u{255e}\u{255f}\u{255a}\u{2554}\u{2569}\u{2566}\u{2560}\u{2550}\u{256c}\u{2567}\u{2568}\u{2564}\u{2565}\u{2559}\u{2558}\u{2552}\u{2553}\u{256b}\u{256a}\u{2518}\u{250c}\u{2588}\u{2584}\u{258c}\u{2590}\u{2580}\u{636}\u{637}\u{638}\u{639}\u{63a}\u{641}\u{b5}\u{642}\u{643}\u{644}\u{645}\u{646}\u{647}\u{648}\u{649}\u{64a}\u{2261}\u{64b}\u{64c}\u{64d}\u{64e}\u{64f}\u{650}\u{2248}\u{b0}\u{2219}\u{b7}\u{221a}\u{207f}\u{b2}\u{25a0}\u{a0}",
            );
        }
        upper.get_char((byte - 0x80) as usize)
    }
}

/// The text of bytes in code page 720.
pub fn decode_cp720(bytes: &[u8]) -> (r: String)
    ensures
        r@ == cp720_text(bytes@),
{
    let mut out = String::new();
    let mut i: usize = 0;
    while i < bytes.len()
        invariant
            i <= bytes.len(),
            out@ == cp720_text(bytes@.take(i as int)),
        decreases bytes.len() - i,
    {
        assert(cp720_text(bytes@.take(i + 1)) =~= cp720_text(bytes@.take(i as int)).push(
            cp720(bytes@[i as int]),
        ));
        out.push(cp720_char(bytes[i]));
        i = i + 1;
    }
    assert(bytes@.take(bytes@.len() as int) =~= bytes@);
    out
}

/// Whether `bytes` begin with the big-endian UTF-16 byte order mark.
pub open spec fn has_big_endian_mark(bytes: Seq<u8>) -> bool {
    bytes.len() >= 2 && bytes[0] == 0xfe && bytes[1] == 0xff
}

/// Whether `bytes` begin with the little-endian UTF-16 byte order mark.
pub open spec fn has_little_endian_mark(bytes: Seq<u8>) -> bool {
    bytes.len() >= 2 && bytes[0] == 0xff && bytes[1] == 0xfe
}

/// The text of bytes in the encoding with a known normal label. UTF-8 keeps a
/// byte order mark as text; little-endian UTF-16 gives way to a big-endian mark.
pub open spec fn encoded_text(label: Seq<char>, bytes: Seq<u8>) -> Option<(Seq<char>, bool)> {
    let standard = standard_label(label);
    if labelled_encoding(standard) == Some("UTF-8"@) {
        text_as_is(standard, bytes)
    } else if labelled_encoding(standard) == Some("UTF-16LE"@) && has_big_endian_mark(bytes) {
        text_as_is("utf-16be"@, bytes.skip(2))
    } else {
        text_after_mark(standard, bytes)
    }
}

/// What decoding bytes under a label yields: an unknown label is refused, and so
/// are bytes that are malformed in its encoding.
pub open spec fn labelled_text(bytes: Seq<u8>, label: Seq<char>) -> Result<
    DecodedModel,
    IngestErrorModel,
> {
    let normal = normal_label(label);
    if normal == "cp720"@ {
        Ok(DecodedModel { text: cp720_text(bytes), encoding: normal })
    } else if encoding_of(normal) is None {
        Err(IngestErrorModel::UnknownEncoding(label))
    } else {
        checked_text(encoded_text(normal, bytes), normal)
    }
}

/// What is made of a decoded text: one without malformed parts is accepted.
pub open spec fn checked_text(text: Option<(Seq<char>, bool)>, label: Seq<char>) -> Result<
    DecodedModel,
    IngestErrorModel,
> {
    match text {
        Some((text, false)) => Ok(DecodedModel { text, encoding: label }),
        _ => Err(IngestErrorModel::DecodeFailed),
    }
}

/// Accepts a decoded text that had no malformed parts.
pub fn check_text(text: Option<(String, bool)>, label: String) -> (r: Result<
    DecodedInput,
    IngestError,
>)
    ensures
        decoded_view(r) == checked_text(flagged_view(text), label@),
{
    match text {
        Some((text, malformed)) => if malformed {
            Err(IngestError::DecodeFailed)
        } else {
            Ok(DecodedInput { text, encoding: label })
        },
        None => Err(IngestError::DecodeFailed),
    }
}

/// The text of bytes in the encoding with a known normal label.
fn decode_with_encoding(label: &str, bytes: &[u8]) -> (r: Option<(String, bool)>)
    requires
        bytes@.len() <= max_input(),
    ensures
        flagged_view(r) == encoded_text(label@, bytes@),
        label@ == "utf-8"@ ==> match r {
            Some((text, malformed)) => malformed == !vstd::utf8::valid_utf8(bytes@) && (!malformed
                ==> text@ == vstd::utf8::decode_utf8(bytes@)),
            None => false,
        },
{
    proof {
        lemma_utf8_label();
    }
    let standard = standardize_label(label);
    let name = name_for_label(&standard);
    let (utf8, utf16) = match &name {
        Some(n) => (same(n, "UTF-8"), same(n, "UTF-16LE")),
        None => (false, false),
    };
    if utf8 {
        return decode_as_is(&standard, bytes);
    }
    if utf16 && bytes.len() >= 2 && bytes[0] == 0xfe && bytes[1] == 0xff {
        let tail = vstd::slice::slice_subrange(bytes, 2, bytes.len());
        assert(tail@ =~= bytes@.skip(2));
        return decode_as_is("utf-16be", tail);
    }
    decode_after_mark(&standard, bytes)
}

/// What decoding bytes as UTF-8 yields: the text that they encode, if they are
/// valid.
pub open spec fn utf8_result(bytes: Seq<u8>) -> Result<DecodedModel, IngestErrorModel> {
    if vstd::utf8::valid_utf8(bytes) {
        Ok(DecodedModel { text: vstd::utf8::decode_utf8(bytes), encoding: "utf-8"@ })
    } else {
        Err(IngestErrorModel::DecodeFailed)
    }
}

proof fn lemma_utf8_label()
    ensures
        normal_label("utf-8"@) == "utf-8"@,
        standard_label("utf-8"@) == "utf-8"@,
        "utf-8"@ != "cp720"@,
{
    reveal_strlit("utf-8");
    reveal_strlit("cp720");
    reveal_strlit("utf-16");
    reveal_strlit("latin-1");
    reveal_strlit("latin1");
    reveal_strlit("iso8859-1");
    reveal_strlit("iso-8859-1");
    reveal_strlit("iso8859-2");
    reveal_strlit("iso-8859-2");
    let s = "utf-8"@;
    assert(s =~= seq!['u', 't', 'f', '-', '8']);
    assert("cp720"@[0] == 'c');
    assert(text::skip_white(s) == s);
    assert(text::drop_white(s) == s);
    assert(text::lower(s) =~= s);
    reveal_with_fuel(text::replaced, 6);
    assert(s.drop_last() =~= seq!['u', 't', 'f', '-']);
    assert(s.drop_last().drop_last() =~= seq!['u', 't', 'f']);
    assert(s.drop_last().drop_last().drop_last() =~= seq!['u', 't']);
    assert(s.drop_last().drop_last().drop_last().drop_last() =~= seq!['u']);
    assert(s.drop_last().drop_last().drop_last().drop_last().drop_last() =~= Seq::<char>::empty());
    assert(text::replaced(s, '_', "-"@) =~= s);
}

/// UTF-8 is the first encoding that is tried, whatever the locale.
pub proof fn utf8_is_tried_first(locale: Option<Seq<char>>)
    ensures
        compatibility_labels(locale).len() > 0,
        compatibility_labels(locale)[0] == "utf-8"@,
{
}

/// Decodes bytes under a label.
pub fn decode_with_label(bytes: &[u8], label: &str) -> (r: Result<DecodedInput, IngestError>)
    requires
        bytes@.len() <= max_input(),
    ensures
        decoded_view(r) == labelled_text(bytes@, label@),
        normal_label(label@) == "utf-8"@ ==> decoded_view(r) == utf8_result(bytes@),
{
    proof {
        lemma_utf8_label();
    }
    let normal = normalize_encoding_label(label);
    if same(&normal, "cp720") {
        let text = decode_cp720(bytes);
        return Ok(DecodedInput { text, encoding: normal });
    }
    if encoding_for_label(&normal).is_none() {
        return Err(IngestError::UnknownEncoding(label.to_owned()));
    }
    let text = decode_with_encoding(&normal, bytes);
    check_text(text, normal)
}

/// The first of the labels under which the bytes decode without fault.
pub open spec fn first_text(bytes: Seq<u8>, labels: Seq<Seq<char>>) -> Result<
    DecodedModel,
    IngestErrorModel,
>
    decreases labels.len(),
{
    if labels.len() == 0 {
        Err(IngestErrorModel::DecodeFailed)
    } else {
        match labelled_text(bytes, labels[0]) {
            Ok(decoded) => Ok(decoded),
            Err(_) => first_text(bytes, labels.skip(1)),
        }
    }
}

/// What decoding an input yields: under the requested label if there is one,
/// else under the first of the usual labels that fits.
pub open spec fn input_text(
    bytes: Seq<u8>,
    requested: Option<Seq<char>>,
    locale: Option<Seq<char>>,
) -> Result<DecodedModel, IngestErrorModel> {
    match requested {
        Some(label) => labelled_text(bytes, label),
        None => first_text(bytes, compatibility_labels(locale)),
    }
}

/// Decodes an input under the requested label, or under the first of the usual
/// ones that fits. `locale` is the encoding label of the environment.
pub fn decode_input(bytes: &[u8], requested: Option<&str>, locale: &Option<String>) -> (r: Result<
    DecodedInput,
    IngestError,
>)
    requires
        bytes@.len() <= max_input(),
    ensures
        decoded_view(r) == input_text(bytes@, text::opt_str_view(requested), text::opt_view(*locale)),
        requested is None && vstd::utf8::valid_utf8(bytes@) ==> decoded_view(r) == utf8_result(
            bytes@,
        ),
        requested matches Some(label) && normal_label(label@) == "utf-8"@ ==> decoded_view(r)
            == utf8_result(bytes@),
{
    if let Some(label) = requested {
        return decode_with_label(bytes, label);
    }
    let labels = compatibility_encoding_labels_with_locale(locale.clone());
    let mut i: usize = 0;
    proof {
        utf8_is_tried_first(text::opt_view(*locale));
        lemma_utf8_label();
    }
    assert(text::views(labels@).skip(0) =~= text::views(labels@));
    while i < labels.len()
        invariant
            i <= labels.len(),
            bytes@.len() <= max_input(),
            requested is None,
            labels@.len() > 0,
            labels@[0]@ == "utf-8"@,
            normal_label("utf-8"@) == "utf-8"@,
            vstd::utf8::valid_utf8(bytes@) ==> i == 0,
            text::views(labels@) == compatibility_labels(text::opt_view(*locale)),
            first_text(bytes@, text::views(labels@)) == first_text(
                bytes@,
                text::views(labels@).skip(i as int),
            ),
        decreases labels.len() - i,
    {
        let ghost rest = text::views(labels@).skip(i as int);
        assert(rest[0] == labels@[i as int]@);
        assert(rest.skip(1) =~= text::views(labels@).skip(i + 1));
        let decoded = decode_with_label(bytes, &labels[i]);
        if decoded.is_ok() {
            return decoded;
        }
        i = i + 1;
    }
    Err(IngestError::DecodeFailed)
}

/// Automatic decoding never blames an unknown encoding: it finds a label that
/// fits, or reports that none does.
pub proof fn automatic_decoding_reports_failure_only(bytes: Seq<u8>, locale: Option<Seq<char>>)
    ensures
        input_text(bytes, None, locale) matches Err(e) ==> e is DecodeFailed,
{
    lemma_first_text(bytes, compatibility_labels(locale));
}

proof fn lemma_first_text(bytes: Seq<u8>, labels: Seq<Seq<char>>)
    ensures
        first_text(bytes, labels) matches Err(e) ==> e is DecodeFailed,
    decreases labels.len(),
{
    if labels.len() > 0 {
        lemma_first_text(bytes, labels.skip(1));
    }
}

/// Code page 720 reads every byte, so automatic decoding always succeeds.
pub proof fn automatic_decoding_succeeds(bytes: Seq<u8>, locale: Option<Seq<char>>)
    ensures
        input_text(bytes, None, locale) is Ok,
{
    let labels = compatibility_labels(locale);
    lemma_compatibility_has_cp720(locale);
    let n = choose|n: int| 0 <= n < labels.len() && labels[n] == "cp720"@;
    lemma_cp720_is_normal();
    lemma_first_text_found(bytes, labels, n);
}

proof fn lemma_with_label_has(labels: Seq<Seq<char>>, label: Seq<char>, other: Seq<char>)
    ensures
        with_label(labels, label).contains(label),
        labels.contains(other) ==> with_label(labels, label).contains(other),
{
    let all = with_label(labels, label);
    if !labels.contains(label) {
        assert(all[labels.len() as int] == label);
    }
    if labels.contains(other) {
        let k = choose|k: int| 0 <= k < labels.len() && labels[k] == other;
        assert(all[k] == other);
    }
}

proof fn lemma_compatibility_has_cp720(locale: Option<Seq<char>>)
    ensures
        compatibility_labels(locale).contains("cp720"@),
{
    let unicode = with_label(with_label(Seq::empty(), "utf-8"@), "utf-16"@);
    let local = match locale {
        Some(label) => with_label(unicode, label),
        None => unicode,
    };
    let before = with_label(with_label(local, "iso8859-1"@), "iso8859-2"@);
    lemma_with_label_has(before, "cp720"@, "cp720"@);
    lemma_with_label_has(with_label(before, "cp720"@), "latin-1"@, "cp720"@);
}

proof fn lemma_cp720_is_normal()
    ensures
        normal_label("cp720"@) == "cp720"@,
{
    reveal_strlit("cp720");
    let s = "cp720"@;
    assert(s =~= seq!['c', 'p', '7', '2', '0']);
    assert(text::skip_white(s) == s);
    assert(text::drop_white(s) == s);
    assert(text::lower(s) =~= s);
    reveal_with_fuel(text::replaced, 6);
    assert(s.drop_last() =~= seq!['c', 'p', '7', '2']);
    assert(s.drop_last().drop_last() =~= seq!['c', 'p', '7']);
    assert(s.drop_last().drop_last().drop_last() =~= seq!['c', 'p']);
    assert(s.drop_last().drop_last().drop_last().drop_last() =~= seq!['c']);
    assert(s.drop_last().drop_last().drop_last().drop_last().drop_last() =~= Seq::<char>::empty());
    assert(text::replaced(s, '_', "-"@) =~= s);
}

proof fn lemma_first_text_found(bytes: Seq<u8>, labels: Seq<Seq<char>>, n: int)
    requires
        0 <= n < labels.len(),
        labelled_text(bytes, labels[n]) is Ok,
    ensures
        first_text(bytes, labels) is Ok,
    decreases n,
{
    if n > 0 {
        assert(labels.skip(1)[n - 1] == labels[n]);
        lemma_first_text_found(bytes, labels.skip(1), n - 1);
    }
}

// ---------------------------------------------------------------------------
// UTF-8
// ---------------------------------------------------------------------------

/// How many bytes `std::str::from_utf8` finds malformed where it first finds
/// fault, or nothing where the bytes only break off within a character.
pub uninterp spec fn utf8_fault(bytes: Seq<u8>) -> Option<usize>;

/// `std::str::from_utf8`: the text of valid UTF-8. For other bytes it gives the
/// length of the first malformed part, or nothing where the bytes only break off
/// within a character; which of the two it is, is left to that function.
#[verifier::external_body]
pub(crate) fn read_utf8(bytes: &[u8]) -> (r: Result<String, Option<usize>>)
    ensures
        r is Ok <==> vstd::utf8::valid_utf8(bytes@),
        r matches Ok(text) ==> vstd::utf8::encode_utf8(text@) == bytes@,
        r matches Err(len) ==> len == utf8_fault(bytes@),
{
    match std::str::from_utf8(bytes) {
        Ok(text) => Ok(text.to_owned()),
        Err(error) => Err(error.error_len()),
    }
}

/// The text of valid UTF-8 bytes.
pub open spec fn utf8_text(bytes: Seq<u8>) -> Seq<char> {
    vstd::utf8::decode_utf8(bytes)
}

/// The encoding of the first bytes of an input that is read as it comes: the
/// requested one, else UTF-8 if the bytes are UTF-8 as far as they go, else the
/// first of the usual ones that fits.
pub open spec fn preview_label(
    requested: Option<Seq<char>>,
    sample: Seq<u8>,
    locale: Option<Seq<char>>,
) -> Result<Seq<char>, IngestErrorModel> {
    match requested {
        Some(label) => Ok(normal_label(label)),
        None => if vstd::utf8::valid_utf8(sample) || utf8_fault(sample) is None {
            Ok("utf-8"@)
        } else {
            match input_text(sample, None, locale) {
                Ok(decoded) => Ok(decoded.encoding),
                Err(e) => Err(e),
            }
        },
    }
}

/// The encoding of the first bytes of an input that is read as it comes.
pub fn preview_encoding_label(
    requested: &Option<String>,
    sample: &[u8],
    locale: &Option<String>,
) -> (r: Result<String, IngestError>)
    requires
        sample@.len() <= max_input(),
    ensures
        match (
            r,
            preview_label(text::opt_view(*requested), sample@, text::opt_view(*locale)),
        ) {
            (Ok(label), Ok(m)) => label@ == m,
            (Err(e), Err(m)) => e@ == m,
            _ => false,
        },
{
    if let Some(label) = requested {
        return Ok(normalize_encoding_label(label));
    }
    match read_utf8(sample) {
        Ok(_) => Ok("utf-8".to_owned()),
        Err(None) => Ok("utf-8".to_owned()),
        Err(Some(_)) => match decode_input(sample, None, locale) {
            Ok(decoded) => Ok(decoded.encoding),
            Err(e) => Err(e),
        },
    }
}

/// The encoding to start over with when an input turns out not to be UTF-8, if
/// there is another: `bytes` are its first bytes.
pub fn fallback_encoding_label(bytes: &[u8], locale: &Option<String>) -> (r: Result<
    Option<String>,
    IngestError,
>)
    requires
        bytes@.len() <= max_input(),
    ensures
        match (r, input_text(bytes@, None, text::opt_view(*locale))) {
            (Ok(label), Ok(decoded)) => text::opt_view(label) == (if decoded.encoding == "utf-8"@ {
                None
            } else {
                Some(decoded.encoding)
            }),
            (Err(e), Err(m)) => e@ == m,
            _ => false,
        },
{
    match decode_input(bytes, None, locale) {
        Ok(decoded) => if same(&decoded.encoding, "utf-8") {
            Ok(None)
        } else {
            Ok(Some(decoded.encoding))
        },
        Err(e) => Err(e),
    }
}

/// Where a decoder stands in its input: the bytes that it has taken, and where
/// the character began that it has not finished yet.
#[derive(Debug, Clone, Copy, PartialEq, Eq, Structural)]
pub struct DecodeProgress {
    pub consumed: u64,
    pub pending_start: Option<u64>,
}

impl DecodeProgress {
    /// At the start of the part of the input that begins at `offset`.
    pub fn at(offset: u64) -> (r: DecodeProgress)
        ensures
            r == (DecodeProgress { consumed: offset, pending_start: None }),
    {
        DecodeProgress { consumed: offset, pending_start: None }
    }

    /// Where decoding must start over if the bytes taken next are malformed: at
    /// the start of the unfinished character.
    pub fn restart_offset(&self) -> (r: u64)
        ensures
            r == (match self.pending_start {
                Some(start) => start,
                None => self.consumed,
            }),
    {
        match self.pending_start {
            Some(start) => start,
            None => self.consumed,
        }
    }

    /// After `count` bytes were taken, which finished a character or did not.
    pub fn advance(&self, count: u64, produced: bool) -> (r: DecodeProgress)
        requires
            self.consumed + count <= u64::MAX,
        ensures
            r.consumed == self.consumed + count,
            r.pending_start == (if produced {
                None
            } else if count > 0 && self.pending_start is None {
                Some(self.consumed)
            } else {
                self.pending_start
            }),
    {
        let pending_start = if produced {
            None
        } else if count > 0 && self.pending_start.is_none() {
            Some(self.consumed)
        } else {
            self.pending_start
        };
        DecodeProgress { consumed: self.consumed + count, pending_start }
    }
}

/// A label is compared without the white space around it, in small letters and with
/// minus signs for low lines.
pub proof fn labels_are_made_alike(label: Seq<char>)
    ensures
        text::lacks(normal_label(label), '_'),
        normal_label(label).len() == text::trimmed(label).len(),
        forall|i: int|
            0 <= i < text::trimmed(label).len() ==> {
                let c = text::lower_char(text::trimmed(label)[i]);
                #[trigger] normal_label(label)[i] == if c == '_' {
                    '-'
                } else {
                    c
                }
            },
{
    lemma_dashes(text::lower(text::trimmed(label)));
}

proof fn lemma_dashes(s: Seq<char>)
    ensures
        text::replaced(s, '_', "-"@).len() == s.len(),
        forall|i: int|
            0 <= i < s.len() ==> #[trigger] text::replaced(s, '_', "-"@)[i] == if s[i] == '_' {
                '-'
            } else {
                s[i]
            },
    decreases s.len(),
{
    reveal_strlit("-");
    if s.len() > 0 {
        lemma_dashes(s.drop_last());
        let before = text::replaced(s.drop_last(), '_', "-"@);
        let now = text::replaced(s, '_', "-"@);
        assert(now.len() == before.len() + 1);
        assert(now.last() == if s.last() == '_' {
            '-'
        } else {
            s.last()
        });
        assert forall|i: int| 0 <= i < s.len() implies #[trigger] now[i] == if s[i] == '_' {
            '-'
        } else {
            s[i]
        } by {
            if i < s.len() - 1 {
                assert(now[i] == before[i]);
                assert(s.drop_last()[i] == s[i]);
            }
        }
    }
}

/// The first Latin alphabet goes by its wider relative, the second by its own name, and
/// wide characters without an order by the small end; every other label stands for
/// itself.
pub proof fn labels_have_a_standard_form(label: Seq<char>)
    ensures
        standard_label("utf-16"@) == "utf-16le"@,
        label == "latin-1"@ || label == "latin1"@ || label == "iso8859-1"@ || label == "iso-8859-1"@
            ==> standard_label(label) == "windows-1252"@,
        label == "iso8859-2"@ || label == "iso-8859-2"@ ==> standard_label(label) == "iso-8859-2"@,
        label != "utf-16"@ && label != "latin-1"@ && label != "latin1"@ && label != "iso8859-1"@
            && label != "iso-8859-1"@ && label != "iso8859-2"@ && label != "iso-8859-2"@
            ==> standard_label(label) == label,
{
    reveal_strlit("utf-16");
    reveal_strlit("latin-1");
    reveal_strlit("latin1");
    reveal_strlit("iso8859-1");
    reveal_strlit("iso-8859-1");
    reveal_strlit("iso8859-2");
    reveal_strlit("iso-8859-2");
    assert("utf-16"@.len() == 6);
    assert("latin-1"@.len() == 7);
    assert("latin1"@.len() == 6);
    assert("iso8859-1"@.len() == 9);
    assert("iso-8859-1"@.len() == 10);
    assert("iso8859-2"@.len() == 9);
    assert("iso-8859-2"@.len() == 10);
    assert("utf-16"@[0] != "latin1"@[0]);
    assert("iso8859-1"@[8] != "iso8859-2"@[8]);
    assert("iso-8859-1"@[9] != "iso-8859-2"@[9]);
}

/// The encoding of a locale stands behind its dot and before the sign of a variant, and
/// is the whole locale where it has no dot.
pub proof fn locales_name_their_encoding(
    language: Seq<char>,
    encoding: Seq<char>,
    variant: Seq<char>,
)
    requires
        text::lacks(language, '.'),
        text::lacks(encoding, '@'),
        text::lacks(variant, '@'),
        text::trimmed(language.push('.') + encoding) == language.push('.') + encoding,
        text::trimmed(language.push('.') + (encoding.push('@') + variant)) == language.push('.') + (
        encoding.push('@') + variant),
        text::trimmed(encoding) == encoding,
    ensures
        locale_candidate(language.push('.') + encoding) == encoding,
        locale_candidate(language.push('.') + (encoding.push('@') + variant)) == encoding,
        text::lacks(encoding, '.') ==> locale_candidate(encoding) == encoding,
{
    let plain = language.push('.') + encoding;
    let varied = language.push('.') + (encoding.push('@') + variant);
    text::lemma_first_of_unique(plain, '.', language.len() as int);
    text::lemma_first_of_unique(varied, '.', language.len() as int);
    assert(plain.skip(language.len() as int + 1) =~= encoding);
    assert(varied.skip(language.len() as int + 1) =~= encoding.push('@') + variant);
    text::splits_stand_between_separators(encoding, encoding, '@');
    text::splits_stand_between_separators(encoding, variant, '@');
    text::splitting_once_parts_at_the_character(encoding, '.');
}

/// The first locale that names a known encoding decides, those before it that name none
/// being passed over.
pub proof fn first_known_locale_decides(locales: Seq<Seq<char>>, i: int)
    requires
        0 <= i <= locales.len(),
        forall|k: int| 0 <= k < i ==> locale_label(#[trigger] locales[k]) is None,
    ensures
        i < locales.len() && locale_label(locales[i]) is Some ==> first_locale_label(locales)
            == locale_label(locales[i]),
        i == locales.len() ==> first_locale_label(locales) is None,
    decreases i,
{
    if i > 0 {
        assert(locale_label(locales[0]) is None);
        let rest = locales.skip(1);
        assert forall|k: int| 0 <= k < i - 1 implies locale_label(#[trigger] rest[k]) is None by {
            assert(rest[k] == locales[k + 1]);
        }
        first_known_locale_decides(rest, i - 1);
    }
}

/// A known encoding is one that its label names or the Arabic code page, and a locale of
/// white space names none.
pub proof fn locales_name_known_encodings(locale: Seq<char>)
    ensures
        locale_label(locale) matches Some(label) ==> label == normal_label(locale_candidate(locale))
            && (label == "cp720"@ || encoding_of(label) is Some),
        text::trimmed(locale).len() == 0 ==> locale_label(locale) is None,
        locale_candidate(locale).len() > 0 && text::trimmed(locale).len() > 0 && encoding_of(
            normal_label(locale_candidate(locale)),
        ) is Some ==> locale_label(locale) is Some,
{
}

/// Without a locale the encodings are tried in a fixed order; the encoding of the locale
/// comes behind the two of Unicode.
pub proof fn encodings_are_tried_in_order(label: Seq<char>)
    ensures
        compatibility_labels(None) == seq![
            "utf-8"@,
            "utf-16"@,
            "iso8859-1"@,
            "iso8859-2"@,
            "cp720"@,
            "latin-1"@,
        ],
        label != "utf-8"@ && label != "utf-16"@ ==> compatibility_labels(Some(label))[0] == "utf-8"@
            && compatibility_labels(Some(label))[1] == "utf-16"@ && compatibility_labels(
            Some(label),
        )[2] == label,
{
    reveal_strlit("utf-8");
    reveal_strlit("utf-16");
    reveal_strlit("iso8859-1");
    reveal_strlit("iso8859-2");
    reveal_strlit("cp720");
    reveal_strlit("latin-1");
    assert("utf-8"@.len() == 5);
    assert("utf-16"@.len() == 6);
    assert("iso8859-1"@.len() == 9);
    assert("iso8859-2"@.len() == 9);
    assert("cp720"@.len() == 5);
    assert("latin-1"@.len() == 7);
    assert("iso8859-1"@[8] != "iso8859-2"@[8]);
    assert("utf-8"@[0] != "cp720"@[0]);
    let none = Seq::<Seq<char>>::empty();
    let a = none.push("utf-8"@);
    lemma_new_label(none, "utf-8"@);
    let b = a.push("utf-16"@);
    lemma_new_label(a, "utf-16"@);
    assert(compatibility_labels(None) =~= seq![
        "utf-8"@,
        "utf-16"@,
        "iso8859-1"@,
        "iso8859-2"@,
        "cp720"@,
        "latin-1"@,
    ]) by {
        let c = b.push("iso8859-1"@);
        lemma_new_label(b, "iso8859-1"@);
        let d = c.push("iso8859-2"@);
        lemma_new_label(c, "iso8859-2"@);
        let e = d.push("cp720"@);
        lemma_new_label(d, "cp720"@);
        lemma_new_label(e, "latin-1"@);
    }
    if label != "utf-8"@ && label != "utf-16"@ {
        lemma_new_label(b, label);
        let c = with_label(b.push(label), "iso8859-1"@);
        let d = with_label(c, "iso8859-2"@);
        let e = with_label(d, "cp720"@);
        assert(c[0] == "utf-8"@ && c[1] == "utf-16"@ && c[2] == label);
        assert(d[0] == "utf-8"@ && d[1] == "utf-16"@ && d[2] == label);
        assert(e[0] == "utf-8"@ && e[1] == "utf-16"@ && e[2] == label);
    }
}

proof fn lemma_new_label(labels: Seq<Seq<char>>, label: Seq<char>)
    requires
        forall|i: int| 0 <= i < labels.len() ==> #[trigger] labels[i] != label,
    ensures
        with_label(labels, label) == labels.push(label),
{
}

/// The first encoding in the list that reads the input without a fault gives its text,
/// and reading fails only where none does.
pub proof fn first_fitting_encoding_decides(bytes: Seq<u8>, labels: Seq<Seq<char>>, i: int)
    requires
        0 <= i <= labels.len(),
        forall|k: int| 0 <= k < i ==> labelled_text(bytes, #[trigger] labels[k]) is Err,
    ensures
        i < labels.len() && labelled_text(bytes, labels[i]) is Ok ==> first_text(bytes, labels)
            == labelled_text(bytes, labels[i]),
        i == labels.len() ==> first_text(bytes, labels) == Err::<DecodedModel, IngestErrorModel>(
            IngestErrorModel::DecodeFailed,
        ),
    decreases i,
{
    if i > 0 {
        assert(labelled_text(bytes, labels[0]) is Err);
        let rest = labels.skip(1);
        assert forall|k: int| 0 <= k < i - 1 implies labelled_text(
            bytes,
            #[trigger] rest[k],
        ) is Err by {
            assert(rest[k] == labels[k + 1]);
        }
        first_fitting_encoding_decides(bytes, rest, i - 1);
    }
}

/// An encoding that is asked for is the only one that is tried, and an unknown one is
/// told as it was written; malformed bytes are refused.
pub proof fn asked_encodings_are_the_only_ones(
    bytes: Seq<u8>,
    label: Seq<char>,
    locale: Option<Seq<char>>,
    other: Option<Seq<char>>,
)
    ensures
        input_text(bytes, Some(label), locale) == input_text(bytes, Some(label), other),
        input_text(bytes, None, locale) == first_text(bytes, compatibility_labels(locale)),
        normal_label(label) != "cp720"@ && encoding_of(normal_label(label)) is None ==> input_text(
            bytes,
            Some(label),
            locale,
        ) == Err::<DecodedModel, IngestErrorModel>(IngestErrorModel::UnknownEncoding(label)),
        input_text(bytes, Some(label), locale) matches Ok(decoded) ==> decoded.encoding
            == normal_label(label),
        normal_label(label) != "cp720"@ && (encoded_text(normal_label(label), bytes) matches Some(
            (_, true),
        )) ==> input_text(bytes, Some(label), locale) is Err,
{
}

/// Wide characters are read with the big end first where the mark of that order stands
/// in front, which is then no part of the text; other encodings go by their own mark.
pub proof fn big_endian_marks_turn_the_order(label: Seq<char>, bytes: Seq<u8>)
    ensures
        labelled_encoding(standard_label(label)) == Some("UTF-16LE"@) ==> encoded_text(
            label,
            seq![0xfeu8, 0xffu8] + bytes,
        ) == text_as_is("utf-16be"@, bytes),
        labelled_encoding(standard_label(label)) == Some("UTF-16LE"@) && (bytes.len() < 2
            || bytes[0] != 0xfe || bytes[1] != 0xff) ==> encoded_text(label, bytes)
            == text_after_mark(standard_label(label), bytes),
        labelled_encoding(standard_label(label)) == Some("UTF-8"@) ==> encoded_text(label, bytes)
            == text_as_is(standard_label(label), bytes),
        has_little_endian_mark(seq![0xffu8, 0xfeu8] + bytes),
        !has_big_endian_mark(seq![0xffu8, 0xfeu8] + bytes),
{
    reveal_strlit("UTF-8");
    reveal_strlit("UTF-16LE");
    assert("UTF-8"@.len() == 5);
    assert("UTF-16LE"@.len() == 8);
    let marked = seq![0xfeu8, 0xffu8] + bytes;
    assert(marked[0] == 0xfe && marked[1] == 0xff);
    assert(marked.skip(2) =~= bytes);
    let other = seq![0xffu8, 0xfeu8] + bytes;
    assert(other[0] == 0xff && other[1] == 0xfe);
}

/// The Arabic code page reads byte by byte: the lower half is ASCII, and the letters
/// stand at their places in the upper half.
pub proof fn arabic_page_reads_byte_by_byte(bytes: Seq<u8>, b: u8)
    ensures
        cp720_text(bytes).len() == bytes.len(),
        cp720_text(bytes.push(b)) == cp720_text(bytes).push(cp720(b)),
        b < 0x80 ==> cp720(b) as u32 == b as u32,
        cp720(0x82) == '\u{e9}',
        cp720(0x98) == '\u{621}',
        cp720(0xc4) == '\u{2500}',
        cp720(0xff) == '\u{a0}',
{
    assert(cp720_text(bytes.push(b)) =~= cp720_text(bytes).push(cp720(b)));
    reveal_strlit(
        "\u{80}\u{81}\u{e9}\u{e2}\u{84}\u{e0}\u{86}\u{e7}\u{ea}\u{eb}\u{e8}\u{ef}\u{ee}\u{8d}\u{8e}\u{8f}\u{90}\u{651}\u{652}\u{f4}\u{a4}\u{640}\u{fb}\u{f9}\u{621}\u{622}\u{623}\u{624}\u{a3}\u{625}\u{626}\u{627}\u{628}\u{629}\u{62a}\u{62b}\u{62c}\u{62d}\u{62e}\u{62f}\u{630}\u{631}\u{632}\u{633}\u{634}\u{635}\u{ab}\u{bb}\u{2591}\u{2592}\u{2593}\u{2502}\u{2524}\u{2561}\u{2562}\u{2556}\u{2555}\u{2563}\u{2551}\u{2557}\u{255d}\u{255c}\u{255b}\u{2510}\u{2514}\u{2534}\u{252c}\u{251c}\u{2500}\u{253c}\u{255e}\u{255f}\u{255a}\u{2554}\u{2569}\u{2566}\u{2560}\u{2550}\u{256c}\u{2567}\u{2568}\u{2564}\u{2565}\u{2559}\u{2558}\u{2552}\u{2553}\u{256b}\u{256a}\u{2518}\u{250c}\u{2588}\u{2584}\u{258c}\u{2590}\u{2580}\u{636}\u{637}\u{638}\u{639}\u{63a}\u{641}\u{b5}\u{642}\u{643}\u{644}\u{645}\u{646}\u{647}\u{648}\u{649}\u{64a}\u{2261}\u{64b}\u{64c}\u{64d}\u{64e}\u{64f}\u{650}\u{2248}\u{b0}\u{2219}\u{b7}\u{221a}\u{207f}\u{b2}\u{25a0}\u{a0}",
    );
}

/// A preview is read in the encoding that is asked for, or else in UTF-8 while the
/// sample is good as far as it goes, or else in the first encoding that fits.
pub proof fn previews_prefer_utf8(label: Seq<char>, sample: Seq<u8>, locale: Option<Seq<char>>)
    ensures
        preview_label(Some(label), sample, locale) == Ok::<Seq<char>, IngestErrorModel>(
            normal_label(label),
        ),
        vstd::utf8::valid_utf8(sample) ==> preview_label(None, sample, locale) == Ok::<
            Seq<char>,
            IngestErrorModel,
        >("utf-8"@),
        utf8_fault(sample) is None ==> preview_label(None, sample, locale) == Ok::<
            Seq<char>,
            IngestErrorModel,
        >("utf-8"@),
        !vstd::utf8::valid_utf8(sample) && utf8_fault(sample) is Some ==> (preview_label(
            None,
            sample,
            locale,
        ) is Ok <==> first_text(sample, compatibility_labels(locale)) is Ok),
        !vstd::utf8::valid_utf8(sample) && utf8_fault(sample) is Some && first_text(
            sample,
            compatibility_labels(locale),
        ) is Ok ==> preview_label(None, sample, locale)->Ok_0 == first_text(
            sample,
            compatibility_labels(locale),
        )->Ok_0.encoding,
{
}

/// Each fault of reading text is told in its own words.
pub proof fn faults_of_text_are_told_apart(s: Seq<char>)
    ensures
        IngestErrorModel::UnknownEncoding(s).text() == "unknown encoding '"@ + s + "'"@,
        IngestErrorModel::DecodeFailed.text()
            == "input could not be decoded with the compatibility encoding set"@,
        IngestErrorModel::Csv(s).text() == "CSV parse failed: "@ + s,
{
}

} // verus!
