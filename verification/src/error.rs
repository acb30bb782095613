use vstd::prelude::*;

verus! {

/// The ways a template compilation can fail. Every failure aborts the whole
/// compile: no partial output is ever produced.
#[derive(Clone, Copy, Debug, PartialEq, Eq, Structural)]
pub enum CompileError {
    /// The input handed to the entry point is not a string literal.
    NotAStringLiteral,
    /// A backslash escape that is not one of the supported forms.
    InvalidEscape,
    /// A `+` or `-` directive whose keyword is not in the style tables.
    InvalidKeyword,
    /// A `#` directive whose payload is neither a named color nor a valid
    /// numeric color form.
    InvalidColor,
    /// A directive group that is never closed by `}`.
    MissingCloseBracket,
}

impl CompileError {
    /// A human-readable description of the defect class.
    pub fn message(&self) -> (r: &'static str)
        ensures
            *self == CompileError::NotAStringLiteral ==> r@ == "not a string literal"@,
            *self == CompileError::InvalidEscape ==> r@ == "invalid escape"@,
            *self == CompileError::InvalidKeyword ==> r@ == "invalid keyword"@,
            *self == CompileError::InvalidColor ==> r@ == "invalid color"@,
            *self == CompileError::MissingCloseBracket ==> r@ == "missing close bracket"@,
    {
        match self {
            CompileError::NotAStringLiteral => "not a string literal",
            CompileError::InvalidEscape => "invalid escape",
            CompileError::InvalidKeyword => "invalid keyword",
            CompileError::InvalidColor => "invalid color",
            CompileError::MissingCloseBracket => "missing close bracket",
        }
    }
}

} // verus!
