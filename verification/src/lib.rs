//! The YAML content contract.
//!
//! Two claims: **well-formedness is a given**, every Stream is parsed as YAML
//! and a failure names its line and column; and **conformance is a given once
//! the contract is named**, a Receive or Send Location that refers to this
//! contract with a layout bound has every Stream held to the keys and types
//! the layout names. A bare contract is the first claim alone.
//!
//! The layout language is documented in [`layout`]. A Stream may carry several
//! documents; every one must be well-formed, and the first is the one a layout
//! is held to.

pub mod contract;
pub mod laws;
pub mod layout;
pub mod stream;
pub mod text;
pub mod value;

use vstd::prelude::*;
use vstd::string::StringSliceAdditionalSpecFns;
use vstd::utf8::{decode_utf8, valid_utf8};
use crate::contract::{
    ContractDescriptor, ContractError, ContractId, IssueView, Kind, ValidationIssue,
    ValidationResult,
};
use crate::layout::{departures, parsed_layout, Layout};
use crate::stream::Stream;
use crate::text::{
    chars_of, copy_text, decimal, ends_with, eq_ignore_ascii_case, index_in_window, index_of,
    last_index_of,
    push_decimal, split, split_windows, starts_with, trim, trim_window, window_ends_with,
    window_eq_ignore_ascii_case, window_equals, window_starts_with,
};
use crate::value::{load_yaml, scan_fault_text, yaml_documents, ScanFault, Value};

verus! {

/// The media type's essence: what comes before its first `;`, trimmed.
pub open spec fn media_essence(media_type: Seq<char>) -> Seq<char> {
    trim(split(media_type, ';')[0])
}

/// Whether `media_type` declares YAML: its essence is one of the YAML media
/// types, ignoring ASCII case, or carries the `+yaml` suffix.
pub open spec fn yaml_media(media_type: Seq<char>) -> bool {
    let essence = media_essence(media_type);
    ||| eq_ignore_ascii_case(essence, "application/yaml"@)
    ||| eq_ignore_ascii_case(essence, "application/x-yaml"@)
    ||| eq_ignore_ascii_case(essence, "text/yaml"@)
    ||| ends_with(essence, "+yaml"@)
}

/// Whether `line` is neither blank nor a comment.
pub open spec fn is_content_line(line: Seq<char>) -> bool {
    let t = trim(line);
    t.len() > 0 && t[0] != '#'
}

/// The first of `lines` that is neither blank nor a comment, trimmed.
pub open spec fn first_content_line(lines: Seq<Seq<char>>) -> Option<Seq<char>>
    decreases lines.len(),
{
    if lines.len() == 0 {
        None
    } else {
        match first_content_line(lines.drop_last()) {
            Some(t) => Some(t),
            None => if is_content_line(lines.last()) {
                Some(trim(lines.last()))
            } else {
                None
            },
        }
    }
}

/// Whether the trimmed `line` is a `key: value` with a YAML-shaped key: a
/// non-empty key that opens no flow collection or quote and holds no `=` or
/// `[`, followed by the end of the line or a space.
pub open spec fn key_line(line: Seq<char>) -> bool {
    match index_of(line, ':') {
        None => false,
        Some(i) => {
            let key = trim(line.take(i));
            let rest = line.skip(i + 1);
            &&& key.len() > 0
            &&& key[0] != '[' && key[0] != '{' && key[0] != '"' && key[0] != '\''
            &&& index_of(key, '=') is None
            &&& index_of(key, '[') is None
            &&& (rest.len() == 0 || rest[0] == ' ')
        },
    }
}

/// Whether the trimmed `line` is a document marker, a directive, a sequence
/// item, or a `key: value` with a YAML-shaped key.
pub open spec fn yaml_shaped_line(line: Seq<char>) -> bool {
    ||| line == "---"@
    ||| starts_with(line, "--- "@)
    ||| starts_with(line, "%YAML"@)
    ||| line == "-"@
    ||| starts_with(line, "- "@)
    ||| key_line(line)
}

/// Whether `text` looks like YAML: its first line that is neither blank nor a
/// comment is YAML-shaped.
pub open spec fn yaml_looking(text: Seq<char>) -> bool {
    match first_content_line(split(text, '\n')) {
        Some(line) => yaml_shaped_line(line),
        None => false,
    }
}

/// A first content line found among the first lines stays the first among all.
proof fn lemma_first_content_prefix(lines: Seq<Seq<char>>, n: int)
    requires
        0 <= n <= lines.len(),
        first_content_line(lines.take(n)) is Some,
    ensures
        first_content_line(lines) == first_content_line(lines.take(n)),
    decreases lines.len(),
{
    if n == lines.len() {
        assert(lines.take(n) =~= lines);
    } else {
        assert(lines.drop_last().take(n) =~= lines.take(n));
        lemma_first_content_prefix(lines.drop_last(), n);
    }
}

/// Whether `media_type` declares YAML.
pub fn is_yaml_media_type(media_type: &str) -> (r: bool)
    ensures
        r == yaml_media(media_type@),
{
    let chars = chars_of(media_type);
    let parts = split_windows(&chars, 0, chars.len(), ';');
    assert(chars@.subrange(0, chars.len() as int) =~= media_type@);
    proof {
        text::lemma_split_nonempty(media_type@, ';');
    }
    let (a, b) = parts[0];
    let (lo, hi) = trim_window(&chars, a, b);
    window_eq_ignore_ascii_case(&chars, lo, hi, &chars_of("application/yaml"))
        || window_eq_ignore_ascii_case(&chars, lo, hi, &chars_of("application/x-yaml"))
        || window_eq_ignore_ascii_case(&chars, lo, hi, &chars_of("text/yaml"))
        || window_ends_with(&chars, lo, hi, &chars_of("+yaml"))
}

/// Whether the trimmed line in window `[lo, hi)` of `chars` is YAML-shaped.
fn line_is_yaml_shaped(chars: &Vec<char>, lo: usize, hi: usize) -> (r: bool)
    requires
        lo <= hi <= chars.len(),
    ensures
        r == yaml_shaped_line(chars@.subrange(lo as int, hi as int)),
{
    if window_equals(chars, lo, hi, &chars_of("---")) || window_starts_with(
        chars,
        lo,
        hi,
        &chars_of("--- "),
    ) || window_starts_with(chars, lo, hi, &chars_of("%YAML")) || window_equals(
        chars,
        lo,
        hi,
        &chars_of("-"),
    ) || window_starts_with(chars, lo, hi, &chars_of("- ")) {
        return true;
    }
    let ghost line = chars@.subrange(lo as int, hi as int);
    match index_in_window(chars, lo, hi, ':') {
        None => false,
        Some(colon) => {
            let (p, q) = trim_window(chars, lo, colon);
            assert(line.take(colon - lo) =~= chars@.subrange(lo as int, colon as int));
            assert(line.skip(colon - lo + 1) =~= chars@.subrange(colon + 1, hi as int));
            assert(index_of(line, ':') == Some(colon - lo));
            assert(trim(line.take(colon - lo)) == chars@.subrange(p as int, q as int));
            if q <= p {
                return false;
            }
            let first = chars[p];
            assert(chars@.subrange(p as int, q as int)[0] == first);
            if first == '[' || first == '{' || first == '"' || first == '\'' {
                return false;
            }
            if index_in_window(chars, p, q, '=').is_some() || index_in_window(chars, p, q, '[').is_some() {
                return false;
            }
            if colon + 1 == hi {
                assert(chars@.subrange(colon + 1, hi as int).len() == 0);
                true
            } else {
                assert(chars@.subrange(colon + 1, hi as int)[0] == chars@[colon + 1]);
                chars[colon + 1] == ' '
            }
        },
    }
}

/// The first line that is neither blank nor a comment is a document marker,
/// a directive, a sequence item, or a `key: value` with a YAML-shaped key.
pub fn looks_like_yaml(text: &str) -> (r: bool)
    ensures
        r == yaml_looking(text@),
{
    let chars = chars_of(text);
    let lines = split_windows(&chars, 0, chars.len(), '\n');
    let ghost all = split(text@, '\n');
    assert(chars@.subrange(0, chars.len() as int) =~= text@);
    let mut k: usize = 0;
    assert(all.take(0) =~= Seq::<Seq<char>>::empty());
    while k < lines.len()
        invariant
            chars@ == text@,
            all == split(text@, '\n'),
            lines.len() == all.len(),
            forall|q: int|
                0 <= q < lines.len() ==> (#[trigger] lines[q]).0 <= lines[q].1 <= chars.len()
                    && chars@.subrange(lines[q].0 as int, lines[q].1 as int) == all[q],
            k <= lines.len(),
            first_content_line(all.take(k as int)) is None,
        decreases lines.len() - k,
    {
        let (a, b) = lines[k];
        let (lo, hi) = trim_window(&chars, a, b);
        assert(all.take(k + 1).drop_last() =~= all.take(k as int));
        assert(all.take(k + 1).last() == all[k as int]);
        if hi > lo && chars[lo] != '#' {
            assert(chars@.subrange(lo as int, hi as int)[0] == chars@[lo as int]);
            proof {
                lemma_first_content_prefix(all, k + 1);
            }
            return line_is_yaml_shaped(&chars, lo, hi);
        }
        k = k + 1;
    }
    assert(all.take(k as int) =~= all);
    false
}

/// How std displays the error that `std::str::from_utf8` returns for `bytes`.
pub uninterp spec fn utf8_error_text(bytes: Seq<u8>) -> Seq<char>;

/// Calls `std::str::from_utf8`: `Ok` exactly when `bytes` are UTF-8, and then
/// the text whose UTF-8 encoding they are; else the error, as std displays it.
#[verifier::external_body]
fn utf8_text(bytes: &[u8]) -> (r: Result<&str, String>)
    ensures
        r is Ok <==> valid_utf8(bytes@),
        r matches Ok(text) ==> text.spec_bytes() == bytes@,
        r matches Err(reason) ==> reason@ == utf8_error_text(bytes@),
{
    std::str::from_utf8(bytes).map_err(|error| error.to_string())
}

/// The text `bytes` encode, or the error that says they are not UTF-8 text.
fn stream_text(bytes: &[u8]) -> (r: Result<&str, ContractError>)
    ensures
        r is Ok <==> valid_utf8(bytes@),
        r matches Ok(text) ==> text@ == decode_utf8(bytes@),
        r matches Err(e) ==> e.message@ == "not UTF-8 text: "@ + utf8_error_text(bytes@),
{
    match utf8_text(bytes) {
        Ok(text) => {
            proof {
                vstd::utf8::encode_utf8_decode_utf8(text@);
            }
            Ok(text)
        },
        Err(reason) => {
            let mut m = copy_text("not UTF-8 text: ");
            m.append(reason.as_str());
            Err(ContractError::new(m))
        },
    }
}

/// The issue that reports a Stream that is not YAML, naming where it breaks.
pub open spec fn malformed_issue(fault: ScanFault) -> IssueView {
    IssueView {
        code: "malformed"@,
        message: "not valid YAML: "@ + fault.info@,
        path: Some("line "@ + decimal(fault.line as nat) + " column "@ + decimal((fault.col + 1) as nat)),
    }
}

/// The verdict on a Stream that is not YAML.
pub fn malformed(error: &ScanFault) -> (r: ValidationResult)
    ensures
        !r.valid,
        r.issues.deep_view() == seq![malformed_issue(*error)],
{
    let mut message = copy_text("not valid YAML: ");
    message.append(error.info.as_str());
    let mut path = copy_text("line ");
    push_decimal(&mut path, error.line as u128);
    path.append(" column ");
    push_decimal(&mut path, error.col as u128 + 1);
    let issue = ValidationIssue { code: copy_text("malformed"), message, path: Some(path) };
    let mut issues: Vec<ValidationIssue> = Vec::new();
    issues.push(issue);
    assert(issues.deep_view() =~= seq![malformed_issue(*error)]);
    ValidationResult { valid: false, issues }
}

/// The issue that reports a bound contract's Stream holding no document.
pub open spec fn no_document_issue() -> IssueView {
    IssueView { code: "required"@, message: "the Stream holds no document"@, path: Some(""@) }
}

/// The issues a well-formed Stream of `documents` raises against a contract
/// bound to `layout` (none when it is bare): the first document's departures
/// from the layout, or that there is no document at all.
pub open spec fn verdict_issues(layout: Option<Seq<(Seq<char>, Kind)>>, documents: Seq<Value>) -> Seq<IssueView> {
    match layout {
        None => Seq::empty(),
        Some(keys) => if documents.len() > 0 {
            departures(keys, documents[0])
        } else {
            seq![no_document_issue()]
        },
    }
}

/// The content of a [`YamlContract`]: its descriptor and the keys of its bound layout.
pub struct YamlContractView {
    pub id: Seq<char>,
    pub version: Seq<char>,
    pub representation: Seq<char>,
    pub layout: Option<Seq<(Seq<char>, Kind)>>,
}

/// The YAML contract, bare or bound to a layout.
pub struct YamlContract {
    descriptor: ContractDescriptor,
    layout: Option<Layout>,
}

impl View for YamlContract {
    type V = YamlContractView;

    closed spec fn view(&self) -> YamlContractView {
        YamlContractView {
            id: self.descriptor.id.0@,
            version: self.descriptor.version@,
            representation: self.descriptor.representation@,
            layout: match self.layout {
                Some(l) => Some(l@),
                None => None,
            },
        }
    }
}

/// The descriptor every YAML contract carries, under `id`.
fn descriptor(id: String) -> (d: ContractDescriptor)
    ensures
        d.id.0@ == id@,
        d.version@ == "1"@,
        d.representation@ == "application/yaml"@,
{
    ContractDescriptor {
        id: ContractId(id),
        version: copy_text("1"),
        representation: copy_text("application/yaml"),
    }
}

impl YamlContract {
    /// Well-formedness only.
    pub fn new() -> (c: YamlContract)
        ensures
            c@.id == "yaml"@,
            c@.version == "1"@,
            c@.representation == "application/yaml"@,
            c@.layout is None,
    {
        YamlContract { descriptor: descriptor(copy_text("yaml")), layout: None }
    }

    /// Well-formedness and conformance to `layout`, named `name` in the descriptor.
    pub fn with_layout(name: &str, layout: Layout) -> (c: YamlContract)
        ensures
            c@.id == "yaml:"@ + name@,
            c@.version == "1"@,
            c@.representation == "application/yaml"@,
            c@.layout == Some(layout@),
    {
        let mut id = copy_text("yaml:");
        id.append(name);
        YamlContract { descriptor: descriptor(id), layout: Some(layout) }
    }

    /// Whether a layout is bound.
    pub fn is_bound(&self) -> (r: bool)
        ensures
            r == self@.layout is Some,
    {
        self.layout.is_some()
    }

    /// What this contract is.
    pub fn descriptor(&self) -> (d: &ContractDescriptor)
        ensures
            d.id.0@ == self@.id,
            d.version@ == self@.version,
            d.representation@ == self@.representation,
    {
        &self.descriptor
    }

    /// Whether `stream` is YAML: by its declared media type when it has one,
    /// else by whether it is UTF-8 text whose first content line looks like YAML.
    pub fn identify(&self, stream: &Stream) -> (r: Result<bool, ContractError>)
        ensures
            r == Ok::<bool, ContractError>(match stream@.media_type {
                Some(m) => yaml_media(m),
                None => valid_utf8(stream@.bytes) && yaml_looking(decode_utf8(stream@.bytes)),
            }),
    {
        if let Some(media_type) = stream.media_type() {
            return Ok(is_yaml_media_type(media_type));
        }
        match utf8_text(stream.bytes()) {
            Ok(text) => {
                proof {
                    vstd::utf8::encode_utf8_decode_utf8(text@);
                }
                Ok(looks_like_yaml(text))
            },
            Err(_) => Ok(false),
        }
    }

    /// The verdict on a well-formed Stream of `documents`: none of them is
    /// held to anything by a bare contract; the first is held to the bound
    /// layout, and a Stream with no document at all lacks what it requires.
    pub fn verdict(&self, documents: &[Value]) -> (v: ValidationResult)
        ensures
            v.issues.deep_view() == verdict_issues(self@.layout, documents@),
            v.valid == (v.issues.deep_view().len() == 0),
    {
        let issues = match &self.layout {
            None => {
                let none: Vec<ValidationIssue> = Vec::new();
                assert(none.deep_view() =~= Seq::<IssueView>::empty());
                none
            },
            Some(layout) => if documents.len() > 0 {
                layout.check(&documents[0])
            } else {
                let mut one: Vec<ValidationIssue> = Vec::new();
                one.push(
                    ValidationIssue {
                        code: copy_text("required"),
                        message: copy_text("the Stream holds no document"),
                        path: Some(copy_text("")),
                    },
                );
                assert(one.deep_view() =~= seq![no_document_issue()]);
                one
            },
        };
        let valid = issues.len() == 0;
        ValidationResult { valid, issues }
    }

    /// The verdict on `stream`: malformed YAML is one `malformed` issue naming
    /// where it breaks; well-formed YAML is held to the bound layout, if any.
    ///
    /// # Errors
    /// The Stream is not UTF-8 text.
    pub fn validate(&self, stream: &Stream) -> (r: Result<ValidationResult, ContractError>)
        ensures
            !valid_utf8(stream@.bytes) ==> (r matches Err(e) && e.message@ == "not UTF-8 text: "@ + utf8_error_text(
                stream@.bytes,
            )),
            valid_utf8(stream@.bytes) ==> match yaml_documents(decode_utf8(stream@.bytes)) {
                Err(fault) => r matches Ok(v) && !v.valid && v.issues.deep_view() == seq![malformed_issue(fault)],
                Ok(documents) => r matches Ok(v) && v.issues.deep_view() == verdict_issues(self@.layout, documents)
                    && v.valid == (v.issues.deep_view().len() == 0),
            },
    {
        let text = match stream_text(stream.bytes()) {
            Ok(text) => text,
            Err(e) => return Err(e),
        };
        let documents = match load_yaml(text) {
            Ok(documents) => documents,
            Err(fault) => return Ok(malformed(&fault)),
        };
        Ok(self.verdict(documents.as_slice()))
    }
}

impl Default for YamlContract {
    fn default() -> (c: YamlContract)
        ensures
            c@.id == "yaml"@,
            c@.version == "1"@,
            c@.representation == "application/yaml"@,
            c@.layout is None,
    {
        YamlContract::new()
    }
}

/// The first document of a well-formed Stream, for callers that want the
/// value and not only the verdict.
///
/// # Errors
/// The Stream is not UTF-8 or not YAML.
pub fn first_document(stream: &Stream) -> (r: Result<Option<Value>, ContractError>)
    ensures
        !valid_utf8(stream@.bytes) ==> (r matches Err(e) && e.message@ == "not UTF-8 text: "@ + utf8_error_text(
                stream@.bytes,
            )),
        valid_utf8(stream@.bytes) ==> match yaml_documents(decode_utf8(stream@.bytes)) {
            Err(fault) => r matches Err(e) && e.message@ == "not valid YAML: "@ + scan_fault_text(fault),
            Ok(documents) => r matches Ok(first) && first == (if documents.len() > 0 {
                Some(documents[0])
            } else {
                None
            }),
        },
{
    let text = match stream_text(stream.bytes()) {
        Ok(text) => text,
        Err(e) => return Err(e),
    };
    match load_yaml(text) {
        Err(fault) => {
            let mut m = copy_text("not valid YAML: ");
            let d = fault.describe();
            m.append(d.as_str());
            Err(ContractError::new(m))
        },
        Ok(mut documents) => if documents.len() > 0 {
            Ok(Some(documents.remove(0)))
        } else {
            Ok(None)
        },
    }
}

/// Whether `stem` could be the stem of the file at `path` on any platform: a
/// non-empty piece of the path.
pub open spec fn stem_piece(stem: Seq<char>, path: Seq<char>) -> bool {
    &&& stem.len() > 0
    &&& exists|i: int| 0 <= i && i + stem.len() <= path.len() && #[trigger] path.subrange(i, i + stem.len()) == stem
}

/// Whether every platform reads `path` alike: it holds no `\` and no `:`,
/// does not begin with `//`, and its last `/`-separated component is a plain
/// name, neither empty nor `.` nor `..`.
pub open spec fn plain_path(path: Seq<char>) -> bool {
    let name = split(path, '/').last();
    &&& index_of(path, '\\') is None
    &&& index_of(path, ':') is None
    &&& !starts_with(path, "//"@)
    &&& name.len() > 0
    &&& name != "."@
    &&& name != ".."@
}

/// The stem of the file name `name`, by `Path::file_stem`'s documented rules:
/// the whole name when it holds no `.` or holds one only at its start, else
/// what comes before its last `.`.
pub open spec fn name_stem(name: Seq<char>) -> Seq<char> {
    match last_index_of(name, '.') {
        Some(k) => if k > 0 {
            name.take(k)
        } else {
            name
        },
        None => name,
    }
}

/// The stem of the file at a plain `path`: its last component's stem.
pub open spec fn plain_path_stem(path: Seq<char>) -> Seq<char> {
    name_stem(split(path, '/').last())
}

/// Calls `std::path::Path::file_stem` on `path`, as text. Which piece of the
/// path that is depends on the platform's path syntax: in general, only that
/// a stem is a non-empty piece of the path is stated; for a path that every
/// platform reads alike, the stem std documents.
#[verifier::external_body]
fn file_stem(path: &str) -> (r: Option<String>)
    ensures
        r matches Some(stem) ==> stem_piece(stem@, path@) && (plain_path(path@) ==> stem@
            == plain_path_stem(path@)),
        r is None ==> !plain_path(path@),
{
    std::path::Path::new(path).file_stem().and_then(|stem| stem.to_str()).map(|stem| stem.to_string())
}

/// Where the contract a Location names comes from.
#[derive(Debug)]
pub enum LayoutSource {
    /// The bare contract.
    Bare,
    /// The layout in the file at this path.
    File(String),
}

/// Loads the contract a Location names: `yaml` or an empty reference is the
/// bare contract, anything else is the path of a layout file.
pub struct YamlFactory;

impl YamlFactory {
    /// The technology this factory serves.
    pub fn technology(&self) -> (r: &'static str)
        ensures
            r@ == "yaml"@,
    {
        "yaml"
    }

    /// What `reference` names, once trimmed: the bare contract when it is empty
    /// or the technology's name, else the path of a layout file.
    pub fn source(&self, reference: &str) -> (r: LayoutSource)
        ensures
            (trim(reference@).len() == 0 || trim(reference@) == "yaml"@) ==> r is Bare,
            !(trim(reference@).len() == 0 || trim(reference@) == "yaml"@) ==> (r matches LayoutSource::File(p)
                && p@ == trim(reference@)),
    {
        let chars = chars_of(reference);
        assert(chars@.subrange(0, chars.len() as int) =~= reference@);
        let (lo, hi) = trim_window(&chars, 0, chars.len());
        if lo == hi || window_equals(&chars, lo, hi, &chars_of(self.technology())) {
            return LayoutSource::Bare;
        }
        let path = copy_text(reference.substring_char(lo, hi));
        LayoutSource::File(path)
    }

    /// The contract bound to the layout `layout_text` read from the file at
    /// `path`, named by the file's `stem`, or by the whole path when it has none.
    ///
    /// # Errors
    /// The layout is refused; the message names the file.
    pub fn bound_with_stem(&self, path: &str, stem: Option<&str>, layout_text: &str) -> (r: Result<
        YamlContract,
        ContractError,
    >)
        ensures
            match parsed_layout(layout_text@) {
                Ok(keys) => r matches Ok(c) && c@.layout == Some(keys) && c@.id == "yaml:"@ + (match stem {
                    Some(s) => s@,
                    None => path@,
                }) && c@.version == "1"@ && c@.representation == "application/yaml"@,
                Err(m) => r matches Err(e) && e.message@ == "layout "@ + path@ + ": "@ + m,
            },
    {
        match Layout::parse(layout_text) {
            Ok(layout) => match stem {
                Some(stem) => Ok(YamlContract::with_layout(stem, layout)),
                None => Ok(YamlContract::with_layout(path, layout)),
            },
            Err(error) => {
                let mut m = copy_text("layout ");
                m.append(path);
                m.append(": ");
                m.append(error.message.as_str());
                Err(ContractError::new(m))
            },
        }
    }

    /// The contract bound to the layout `layout_text` read from the file at
    /// `path`, named by the file's stem as the platform reads it.
    ///
    /// # Errors
    /// The layout is refused; the message names the file.
    pub fn bound(&self, path: &str, layout_text: &str) -> (r: Result<YamlContract, ContractError>)
        ensures
            match parsed_layout(layout_text@) {
                Ok(keys) => r matches Ok(c) && c@.layout == Some(keys) && c@.version == "1"@
                    && c@.representation == "application/yaml"@ && exists|name: Seq<char>|
                    c@.id == "yaml:"@ + name && (name == path@ || stem_piece(name, path@)) && (plain_path(
                    path@,
                ) ==> name == plain_path_stem(path@)),
                Err(m) => r matches Err(e) && e.message@ == "layout "@ + path@ + ": "@ + m,
            },
    {
        match file_stem(path) {
            Some(stem) => {
                let r = self.bound_with_stem(path, Some(stem.as_str()), layout_text);
                assert(r is Ok ==> r->Ok_0@.id == "yaml:"@ + stem@);
                r
            },
            None => self.bound_with_stem(path, None, layout_text),
        }
    }

    /// The error for a layout file at `path` that cannot be read, for `reason`.
    pub fn unreadable(&self, path: &str, reason: &str) -> (e: ContractError)
        ensures
            e.message@ == "cannot read layout "@ + path@ + ": "@ + reason@,
    {
        let mut m = copy_text("cannot read layout ");
        m.append(path);
        m.append(": ");
        m.append(reason);
        ContractError::new(m)
    }
}

} // verus!
