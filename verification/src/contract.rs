//! The vocabulary every content contract shares: its descriptor, the issues a
//! validation reports, the error that refuses a request, and the seven types
//! a layout may ask a key to hold.

use vstd::prelude::*;
use crate::text::{copy_text, same_text};

verus! {

/// The name under which a contract is known.
#[derive(Debug)]
pub struct ContractId(pub String);

/// What a contract is: its id, its version and the representation it reads.
#[derive(Debug)]
pub struct ContractDescriptor {
    pub id: ContractId,
    pub version: String,
    pub representation: String,
}

/// A request that a contract cannot serve at all.
#[derive(Debug)]
pub struct ContractError {
    pub message: String,
}

impl ContractError {
    /// An error carrying `message`.
    pub fn new(message: String) -> (e: ContractError)
        ensures
            e.message@ == message@,
    {
        ContractError { message }
    }
}

/// One way in which a Stream departs from a contract.
#[derive(Debug)]
pub struct ValidationIssue {
    pub code: String,
    pub message: String,
    pub path: Option<String>,
}

/// The mathematical content of a [`ValidationIssue`].
pub struct IssueView {
    pub code: Seq<char>,
    pub message: Seq<char>,
    pub path: Option<Seq<char>>,
}

impl DeepView for ValidationIssue {
    type V = IssueView;

    open spec fn deep_view(&self) -> IssueView {
        IssueView { code: self.code@, message: self.message@, path: self.path.deep_view() }
    }
}

/// The verdict on one Stream: whether it holds, and every departure.
#[derive(Debug)]
pub struct ValidationResult {
    pub valid: bool,
    pub issues: Vec<ValidationIssue>,
}

/// A type a layout may ask a key to hold.
#[derive(Clone, Copy, Debug, PartialEq, Eq, Structural)]
pub enum Kind {
    String,
    Integer,
    Float,
    Boolean,
    Table,
    Array,
    Datetime,
}

/// The name a layout writes for `kind`.
pub open spec fn kind_name(kind: Kind) -> Seq<char> {
    match kind {
        Kind::String => "string"@,
        Kind::Integer => "integer"@,
        Kind::Float => "float"@,
        Kind::Boolean => "boolean"@,
        Kind::Table => "table"@,
        Kind::Array => "array"@,
        Kind::Datetime => "datetime"@,
    }
}

/// The kind that `name` names, if any: the inverse of [`kind_name`].
pub open spec fn kind_named(name: Seq<char>) -> Option<Kind> {
    if name == "string"@ {
        Some(Kind::String)
    } else if name == "integer"@ {
        Some(Kind::Integer)
    } else if name == "float"@ {
        Some(Kind::Float)
    } else if name == "boolean"@ {
        Some(Kind::Boolean)
    } else if name == "table"@ {
        Some(Kind::Table)
    } else if name == "array"@ {
        Some(Kind::Array)
    } else if name == "datetime"@ {
        Some(Kind::Datetime)
    } else {
        None
    }
}

/// The message that refuses a layout leaf naming `name`, which is no type.
pub open spec fn unknown_kind_message(path: Seq<char>, name: Seq<char>) -> Seq<char> {
    path + " asks for \""@ + name + "\", which is not a type a layout knows"@
}

/// The message that refuses a layout leaf that is a `found`, not a type name.
pub open spec fn not_a_name_message(path: Seq<char>, found: Seq<char>) -> Seq<char> {
    path + " is "@ + found + "; a layout leaf names a type"@
}

/// The issue for a required key that the document lacks.
pub open spec fn missing_issue(path: Seq<char>) -> IssueView {
    IssueView { code: "required"@, message: "the document lacks "@ + path, path: Some(path) }
}

/// The issue for a required key that holds a `found` where the layout asks for `kind`.
pub open spec fn mismatched_issue(path: Seq<char>, kind: Kind, found: Seq<char>) -> IssueView {
    IssueView {
        code: "type"@,
        message: path + " is "@ + found + ", not "@ + kind_name(kind),
        path: Some(path),
    }
}

impl Kind {
    /// The kind that `name` names, if it is one of the seven.
    pub fn named(name: &str) -> (r: Option<Kind>)
        ensures
            r == kind_named(name@),
    {
        if same_text(name, "string") {
            Some(Kind::String)
        } else if same_text(name, "integer") {
            Some(Kind::Integer)
        } else if same_text(name, "float") {
            Some(Kind::Float)
        } else if same_text(name, "boolean") {
            Some(Kind::Boolean)
        } else if same_text(name, "table") {
            Some(Kind::Table)
        } else if same_text(name, "array") {
            Some(Kind::Array)
        } else if same_text(name, "datetime") {
            Some(Kind::Datetime)
        } else {
            None
        }
    }

    /// The name a layout writes for this kind.
    pub fn name(&self) -> (r: &'static str)
        ensures
            r@ == kind_name(*self),
    {
        match self {
            Kind::String => "string",
            Kind::Integer => "integer",
            Kind::Float => "float",
            Kind::Boolean => "boolean",
            Kind::Table => "table",
            Kind::Array => "array",
            Kind::Datetime => "datetime",
        }
    }

    /// The error that refuses a leaf at `path` naming `name`, which is no type.
    pub fn unknown(path: &str, name: &str) -> (e: ContractError)
        ensures
            e.message@ == unknown_kind_message(path@, name@),
    {
        let mut m = copy_text(path);
        m.append(" asks for \"");
        m.append(name);
        m.append("\", which is not a type a layout knows");
        ContractError { message: m }
    }

    /// The error that refuses a leaf at `path` that is a `found`, not a type name.
    pub fn not_a_name(path: &str, found: &str) -> (e: ContractError)
        ensures
            e.message@ == not_a_name_message(path@, found@),
    {
        let mut m = copy_text(path);
        m.append(" is ");
        m.append(found);
        m.append("; a layout leaf names a type");
        ContractError { message: m }
    }
}

/// A key a layout requires, by dotted path, and the kind it must hold.
#[derive(Clone, Debug, PartialEq, Eq)]
pub struct Required {
    pub path: String,
    pub kind: Kind,
}

impl DeepView for Required {
    type V = (Seq<char>, Kind);

    open spec fn deep_view(&self) -> (Seq<char>, Kind) {
        (self.path@, self.kind)
    }
}

impl Required {
    /// The issue for a document that lacks this key.
    pub fn missing(&self) -> (i: ValidationIssue)
        ensures
            i.deep_view() == missing_issue(self.path@),
    {
        let mut m = copy_text("the document lacks ");
        m.append(self.path.as_str());
        ValidationIssue {
            code: copy_text("required"),
            message: m,
            path: Some(copy_text(self.path.as_str())),
        }
    }

    /// The issue for a document whose value at this key is a `found`.
    pub fn mismatched(&self, found: &str) -> (i: ValidationIssue)
        ensures
            i.deep_view() == mismatched_issue(self.path@, self.kind, found@),
    {
        let mut m = copy_text(self.path.as_str());
        m.append(" is ");
        m.append(found);
        m.append(", not ");
        m.append(self.kind.name());
        ValidationIssue {
            code: copy_text("type"),
            message: m,
            path: Some(copy_text(self.path.as_str())),
        }
    }
}

} // verus!
