use vstd::prelude::*;

verus! {

/// Everything that can abort the engine. Each failure carries the text a
/// caller needs to report it: the offending token, the missing key and its
/// parent path, the directive key and detail of a failed resolver.
#[derive(Debug)]
pub enum Error {
    /// The document text is not a well-formed document.
    Parse(String),
    /// A file could not be read; the path is carried.
    Io(String),
    /// A resolver failed: the directive key, then what went wrong.
    Resolution(String, String),
    /// A malformed amendment token.
    InvalidArg(String),
    /// A key that an amendment needs does not exist: the key, then the path
    /// of its parent.
    KeyNotExists(String, String),
    /// The fixpoint loop can make no further progress while amendments are
    /// still pending.
    Stuck,
    /// Two documents of incompatible shape cannot be merged.
    MergeFailed,
    /// A parameter value violates a caller-side constraint.
    InvalidParam(String),
}

/// Ghost form of a failure.
pub enum ErrV {
    Parse(Seq<char>),
    Io(Seq<char>),
    Resolution(Seq<char>, Seq<char>),
    InvalidArg(Seq<char>),
    KeyNotExists(Seq<char>, Seq<char>),
    Stuck,
    MergeFailed,
    InvalidParam(Seq<char>),
}

impl View for Error {
    type V = ErrV;

    open spec fn view(&self) -> ErrV {
        match self {
            Error::Parse(m) => ErrV::Parse(m@),
            Error::Io(m) => ErrV::Io(m@),
            Error::Resolution(k, m) => ErrV::Resolution(k@, m@),
            Error::InvalidArg(t) => ErrV::InvalidArg(t@),
            Error::KeyNotExists(k, p) => ErrV::KeyNotExists(k@, p@),
            Error::Stuck => ErrV::Stuck,
            Error::MergeFailed => ErrV::MergeFailed,
            Error::InvalidParam(m) => ErrV::InvalidParam(m@),
        }
    }
}

/// The fixed description of each kind of failure.
pub open spec fn describe_text(e: ErrV) -> Seq<char> {
    match e {
        ErrV::Parse(_) => "could not parse configuration"@,
        ErrV::Io(_) => "input/output error"@,
        ErrV::Resolution(_, _) => "template resolution failed"@,
        ErrV::InvalidArg(_) => "invalid argument"@,
        ErrV::KeyNotExists(_, _) => "key does not exist"@,
        ErrV::Stuck => "no progress on pending amendments"@,
        ErrV::MergeFailed => "merging dictionaries failed"@,
        ErrV::InvalidParam(_) => "parameter violates constraint"@,
    }
}

impl Error {
    /// A short, stable description, for reporting outside the engine.
    pub fn describe(&self) -> (r: String)
        ensures
            r@ == describe_text(self@),
    {
        match self {
            Error::Parse(_) => "could not parse configuration".to_owned(),
            Error::Io(_) => "input/output error".to_owned(),
            Error::Resolution(_, _) => "template resolution failed".to_owned(),
            Error::InvalidArg(_) => "invalid argument".to_owned(),
            Error::KeyNotExists(_, _) => "key does not exist".to_owned(),
            Error::Stuck => "no progress on pending amendments".to_owned(),
            Error::MergeFailed => "merging dictionaries failed".to_owned(),
            Error::InvalidParam(_) => "parameter violates constraint".to_owned(),
        }
    }
}

} // verus!
