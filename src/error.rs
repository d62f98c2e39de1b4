use vstd::prelude::*;

verus! {

/// What went wrong during parsing, resolution or lowering.
#[derive(Debug, Clone, PartialEq, Eq, Structural)]
pub enum ErrorKind {
    /// The text is not a well-formed query.
    Syntax,
    UndefinedName,
    DuplicateDeclaration,
    ArityMismatch,
    UnknownTransform,
    TypeMismatch,
    UnsupportedDialect,
    UnsupportedVersion,
    MalformedVersionString,
    /// Internal: an id that the registry never handed out.
    DeclarationNotFound,
}

/// The errors that a query's version requirement raises.
pub open spec fn is_version_error(k: ErrorKind) -> bool {
    k is UnsupportedVersion || k is MalformedVersionString
}

/// The explanation given for each kind of error.
pub open spec fn message_text(k: ErrorKind) -> Seq<char> {
    match k {
        ErrorKind::Syntax => "the query could not be parsed"@,
        ErrorKind::UndefinedName => "a name is used that is not declared"@,
        ErrorKind::DuplicateDeclaration => "a name is declared twice"@,
        ErrorKind::ArityMismatch => "wrong number of arguments"@,
        ErrorKind::UnknownTransform => "this is not a pipeline transform"@,
        ErrorKind::TypeMismatch => "an argument has the wrong type"@,
        ErrorKind::UnsupportedDialect => "unknown dialect"@,
        ErrorKind::UnsupportedVersion =>
            "This query uses a version of PRQL that is not supported by your prql-compiler. You may want to upgrade the compiler."@,
        ErrorKind::MalformedVersionString => "the version requirement could not be parsed"@,
        ErrorKind::DeclarationNotFound => "declaration not found"@,
    }
}

/// An error with its kind; resolution stops at the first one.
#[derive(Debug, Clone, PartialEq, Eq, Structural)]
pub struct Error {
    pub kind: ErrorKind,
}

impl Error {
    pub fn new(kind: ErrorKind) -> (r: Error)
        ensures
            r.kind == kind,
    {
        Error { kind }
    }

    /// A human-readable explanation of the error.
    pub fn message(&self) -> (r: String)
        ensures
            r@ == message_text(self.kind),
    {
        let s: &str = match self.kind {
            ErrorKind::Syntax => "the query could not be parsed",
            ErrorKind::UndefinedName => "a name is used that is not declared",
            ErrorKind::DuplicateDeclaration => "a name is declared twice",
            ErrorKind::ArityMismatch => "wrong number of arguments",
            ErrorKind::UnknownTransform => "this is not a pipeline transform",
            ErrorKind::TypeMismatch => "an argument has the wrong type",
            ErrorKind::UnsupportedDialect => "unknown dialect",
            ErrorKind::UnsupportedVersion =>
                "This query uses a version of PRQL that is not supported by your prql-compiler. You may want to upgrade the compiler.",
            ErrorKind::MalformedVersionString => "the version requirement could not be parsed",
            ErrorKind::DeclarationNotFound => "declaration not found",
        };
        s.to_owned()
    }
}

} // verus!
