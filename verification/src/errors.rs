use vstd::prelude::*;

verus! {

/// Compile-time errors of the PIRTM compiler.
#[derive(Debug, Clone, PartialEq, Eq)]
pub enum CompileError {
    ParseError { location: String, message: String },
    ValidationError { item: String, message: String },
    MlirError { message: String },
    ProofFailed { message: String },
    /// An I/O failure, by its message.
    Io(String),
    TranslationError { message: String },
    LeanNotFound { path: String },
}

/// Proof verification errors.
#[derive(Debug, Clone, PartialEq, Eq)]
pub enum ProofError {
    /// The Lean file, by its path.
    FileNotFound(String),
    LeanFailed { stderr: String },
    InvalidOutput,
    LeanNotInstalled,
    HashFailed,
}

/// Translation errors.
#[derive(Debug, Clone, PartialEq, Eq)]
pub enum TranslateError {
    InputNotFound(String),
    InvalidTarget(String),
    MlirTranslateFailed { stderr: String },
    NoOutput,
}

pub open spec fn compile_error_text(e: CompileError) -> Seq<char> {
    match e {
        CompileError::ParseError { location, message } => "PM001: Parse error at "@ + location@ + ": "@ + message@,
        CompileError::ValidationError { item, message } => "PM002: Validation failed for "@ + item@ + ": "@
            + message@,
        CompileError::MlirError { message } => "PM003: MLIR emission failed: "@ + message@,
        CompileError::ProofFailed { message } => "PM004: Proof verification failed: "@ + message@,
        CompileError::Io(m) => "PM005: I/O error: "@ + m@,
        CompileError::TranslationError { message } => "PM006: Translation error: "@ + message@,
        CompileError::LeanNotFound { path } => "PM007: Lean binary not found: "@ + path@,
    }
}

pub open spec fn proof_error_text(e: ProofError) -> Seq<char> {
    match e {
        ProofError::FileNotFound(p) => "PE001: Lean file not found: "@ + p@,
        ProofError::LeanFailed { stderr } => "PE002: Lean execution failed: "@ + stderr@,
        ProofError::InvalidOutput => "PE003: Invalid Lean output - proof did not complete"@,
        ProofError::LeanNotInstalled => "PE004: Lean binary not in PATH"@,
        ProofError::HashFailed => "PE005: Proof hash computation failed"@,
    }
}

pub open spec fn translate_error_text(e: TranslateError) -> Seq<char> {
    match e {
        TranslateError::InputNotFound(p) => "TE001: Input file not found: "@ + p@,
        TranslateError::InvalidTarget(t) => "TE002: Invalid target '"@ + t@ + "'. Use 'llvm' or 'wasm'."@,
        TranslateError::MlirTranslateFailed { stderr } => "TE003: mlir-translate execution failed: "@ + stderr@,
        TranslateError::NoOutput => "TE004: No output produced"@,
    }
}

fn joined(a: &str, b: &str) -> (s: String)
    ensures
        s@ == a@ + b@,
{
    let mut s = a.to_owned();
    s.append(b);
    s
}

fn joined4(a: &str, b: &str, c: &str, d: &str) -> (s: String)
    ensures
        s@ == a@ + b@ + c@ + d@,
{
    let mut s = a.to_owned();
    s.append(b);
    s.append(c);
    s.append(d);
    s
}

impl CompileError {
    /// Human-readable description of the error.
    pub fn message(&self) -> (s: String)
        ensures
            s@ == compile_error_text(*self),
    {
        proof {
            reveal_strlit("PM001: Parse error at ");
            reveal_strlit(": ");
            reveal_strlit("PM002: Validation failed for ");
            reveal_strlit("PM003: MLIR emission failed: ");
            reveal_strlit("PM004: Proof verification failed: ");
            reveal_strlit("PM005: I/O error: ");
            reveal_strlit("PM006: Translation error: ");
            reveal_strlit("PM007: Lean binary not found: ");
        }
        match self {
            CompileError::ParseError { location, message } => joined4(
                "PM001: Parse error at ",
                location.as_str(),
                ": ",
                message.as_str(),
            ),
            CompileError::ValidationError { item, message } => joined4(
                "PM002: Validation failed for ",
                item.as_str(),
                ": ",
                message.as_str(),
            ),
            CompileError::MlirError { message } => joined("PM003: MLIR emission failed: ", message.as_str()),
            CompileError::ProofFailed { message } => joined("PM004: Proof verification failed: ", message.as_str()),
            CompileError::Io(m) => joined("PM005: I/O error: ", m.as_str()),
            CompileError::TranslationError { message } => joined("PM006: Translation error: ", message.as_str()),
            CompileError::LeanNotFound { path } => joined("PM007: Lean binary not found: ", path.as_str()),
        }
    }
}

impl ProofError {
    /// Human-readable description of the error.
    pub fn message(&self) -> (s: String)
        ensures
            s@ == proof_error_text(*self),
    {
        proof {
            reveal_strlit("PE001: Lean file not found: ");
            reveal_strlit("PE002: Lean execution failed: ");
            reveal_strlit("PE003: Invalid Lean output - proof did not complete");
            reveal_strlit("PE004: Lean binary not in PATH");
            reveal_strlit("PE005: Proof hash computation failed");
        }
        match self {
            ProofError::FileNotFound(p) => joined("PE001: Lean file not found: ", p.as_str()),
            ProofError::LeanFailed { stderr } => joined("PE002: Lean execution failed: ", stderr.as_str()),
            ProofError::InvalidOutput => "PE003: Invalid Lean output - proof did not complete".to_owned(),
            ProofError::LeanNotInstalled => "PE004: Lean binary not in PATH".to_owned(),
            ProofError::HashFailed => "PE005: Proof hash computation failed".to_owned(),
        }
    }
}

impl TranslateError {
    /// Human-readable description of the error.
    pub fn message(&self) -> (s: String)
        ensures
            s@ == translate_error_text(*self),
    {
        proof {
            reveal_strlit("TE001: Input file not found: ");
            reveal_strlit("TE002: Invalid target '");
            reveal_strlit("'. Use 'llvm' or 'wasm'.");
            reveal_strlit("TE003: mlir-translate execution failed: ");
            reveal_strlit("TE004: No output produced");
        }
        match self {
            TranslateError::InputNotFound(p) => joined("TE001: Input file not found: ", p.as_str()),
            TranslateError::InvalidTarget(t) => {
                let mut s = joined("TE002: Invalid target '", t.as_str());
                s.append("'. Use 'llvm' or 'wasm'.");
                s
            },
            TranslateError::MlirTranslateFailed { stderr } => joined(
                "TE003: mlir-translate execution failed: ",
                stderr.as_str(),
            ),
            TranslateError::NoOutput => "TE004: No output produced".to_owned(),
        }
    }
}

} // verus!
