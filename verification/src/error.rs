use vstd::prelude::*;

use crate::util::{append_str, decimal, push_decimal, string_of};

verus! {

/// Every error that processing an Eidos program can produce.
///
/// `IOError` holds the text of the underlying I/O error.
#[derive(Debug)]
pub enum EidosError {
    LexerError(String),
    ParserError(String),
    TypeError(String),
    NameResolutionError(String),
    SemanticError(String),
    BackendError(String),
    IOError(String),
    DSLError(String),
    InternalError(String),
    RuntimeError(String),
    NotImplemented(String),
    EnvironmentError(String),
    MultipleErrors(Vec<Box<EidosError>>),
}

/// The display text of an error.
pub open spec fn error_message(e: EidosError) -> Seq<char> {
    match e {
        EidosError::LexerError(m) => "字句解析エラー: "@ + m@,
        EidosError::ParserError(m) => "構文解析エラー: "@ + m@,
        EidosError::TypeError(m) => "型エラー: "@ + m@,
        EidosError::NameResolutionError(m) => "名前解決エラー: "@ + m@,
        EidosError::SemanticError(m) => "意味解析エラー: "@ + m@,
        EidosError::BackendError(m) => "バックエンドエラー: "@ + m@,
        EidosError::IOError(m) => "IOエラー: "@ + m@,
        EidosError::DSLError(m) => "DSLエラー: "@ + m@,
        EidosError::InternalError(m) => "内部エラー: "@ + m@,
        EidosError::RuntimeError(m) => "実行時エラー: "@ + m@,
        EidosError::NotImplemented(m) => "機能未実装: "@ + m@,
        EidosError::EnvironmentError(m) => "環境エラー: "@ + m@,
        EidosError::MultipleErrors(_) => "複合エラー: 複数の問題が検出されました"@,
    }
}

fn prefixed(prefix: &str, m: &String) -> (r: String)
    ensures
        r@ == prefix@ + m@,
{
    let mut s = string_of(prefix);
    append_str(&mut s, m.as_str());
    s
}

impl EidosError {
    /// The display text of the error.
    pub fn message(&self) -> (r: String)
        ensures
            r@ == error_message(*self),
    {
        match self {
            EidosError::LexerError(m) => prefixed("字句解析エラー: ", m),
            EidosError::ParserError(m) => prefixed("構文解析エラー: ", m),
            EidosError::TypeError(m) => prefixed("型エラー: ", m),
            EidosError::NameResolutionError(m) => prefixed("名前解決エラー: ", m),
            EidosError::SemanticError(m) => prefixed("意味解析エラー: ", m),
            EidosError::BackendError(m) => prefixed("バックエンドエラー: ", m),
            EidosError::IOError(m) => prefixed("IOエラー: ", m),
            EidosError::DSLError(m) => prefixed("DSLエラー: ", m),
            EidosError::InternalError(m) => prefixed("内部エラー: ", m),
            EidosError::RuntimeError(m) => prefixed("実行時エラー: ", m),
            EidosError::NotImplemented(m) => prefixed("機能未実装: ", m),
            EidosError::EnvironmentError(m) => prefixed("環境エラー: ", m),
            EidosError::MultipleErrors(_) => string_of("複合エラー: 複数の問題が検出されました"),
        }
    }
}

/// A position in a source file.
#[derive(Debug, Clone, PartialEq, Eq)]
pub struct SourceLocation {
    pub file: String,
    pub line: usize,
    pub column: usize,
    pub length: usize,
}

/// The text `file:line:column`.
pub open spec fn location_text(loc: SourceLocation) -> Seq<char> {
    loc.file@ + ":"@ + decimal(loc.line as nat) + ":"@ + decimal(loc.column as nat)
}

impl SourceLocation {
    pub fn new(file: String, line: usize, column: usize, length: usize) -> (r: Self)
        ensures
            r == (SourceLocation { file, line, column, length }),
    {
        Self { file, line, column, length }
    }

    /// The location of something whose position is not known.
    pub fn unknown() -> (r: Self)
        ensures
            r.file@ == "<unknown>"@,
            r.line == 0,
            r.column == 0,
            r.length == 0,
    {
        Self { file: string_of("<unknown>"), line: 0, column: 0, length: 0 }
    }

    /// The text `file:line:column`.
    pub fn to_string(&self) -> (r: String)
        ensures
            r@ == location_text(*self),
    {
        let mut s = string_of(self.file.as_str());
        append_str(&mut s, ":");
        push_decimal(&mut s, self.line);
        append_str(&mut s, ":");
        push_decimal(&mut s, self.column);
        s
    }

    /// A copy of this location.
    pub fn duplicate(&self) -> (r: Self)
        ensures
            r == *self,
    {
        SourceLocation {
            file: self.file.clone(),
            line: self.line,
            column: self.column,
            length: self.length,
        }
    }
}

/// An error together with the source text and the place where it occurred.
/// `span` is the (offset, length) of the labelled part of `source`.
#[derive(Debug)]
pub struct SourceError {
    pub source: String,
    pub span: (usize, usize),
    pub kind: EidosError,
    pub file: Option<String>,
    pub line: usize,
    pub column: usize,
}

/// The file name shown for an error.
pub open spec fn file_display_text(file: Option<String>) -> Seq<char> {
    match file {
        Some(path) => path@,
        None => "<unknown>"@,
    }
}

impl SourceError {
    pub fn new(
        kind: EidosError,
        source: String,
        span: (usize, usize),
        file: Option<String>,
        line: usize,
        column: usize,
    ) -> (r: Self)
        ensures
            r == (SourceError { kind, source, span, file, line, column }),
    {
        Self { kind, source, span, file, line, column }
    }

    /// The file name, or `<unknown>`.
    pub fn file_display(&self) -> (r: String)
        ensures
            r@ == file_display_text(self.file),
    {
        match &self.file {
            Some(path) => path.clone(),
            None => string_of("<unknown>"),
        }
    }

    /// The text `file:line: message`.
    pub fn with_location(&self) -> (r: String)
        ensures
            r@ == file_display_text(self.file) + ":"@ + decimal(self.line as nat) + ": "@
                + error_message(self.kind),
    {
        let mut s = self.file_display();
        append_str(&mut s, ":");
        push_decimal(&mut s, self.line);
        append_str(&mut s, ": ");
        let m = self.kind.message();
        append_str(&mut s, m.as_str());
        s
    }
}

/// Collects errors so that several can be reported together.
#[derive(Debug)]
pub struct ErrorCollector {
    errors: Vec<Box<EidosError>>,
}

impl View for ErrorCollector {
    type V = Seq<EidosError>;

    closed spec fn view(&self) -> Seq<EidosError> {
        self.errors@.map_values(|b: Box<EidosError>| *b)
    }
}

impl ErrorCollector {
    pub fn new() -> (r: Self)
        ensures
            r@ == Seq::<EidosError>::empty(),
    {
        Self { errors: Vec::new() }
    }

    /// Records an error.
    pub fn add(&mut self, error: EidosError)
        ensures
            final(self)@ == old(self)@.push(error),
    {
        self.errors.push(Box::new(error));
        proof {
            assert(self@ =~= old(self)@.push(error));
        }
    }

    /// Whether any error has been recorded.
    pub fn has_errors(&self) -> (r: bool)
        ensures
            r == (self@.len() > 0),
    {
        !self.errors.is_empty()
    }

    /// The number of recorded errors.
    pub fn count(&self) -> (r: usize)
        ensures
            r == self@.len(),
    {
        self.errors.len()
    }

    /// No error when none was recorded, the error itself when there is one,
    /// and all of them in recording order inside `MultipleErrors` otherwise.
    pub fn into_error(self) -> (r: Option<EidosError>)
        ensures
            self@.len() == 0 ==> r is None,
            self@.len() == 1 ==> r == Some(self@[0]),
            self@.len() > 1 ==> (r matches Some(EidosError::MultipleErrors(v))
                && v@.map_values(|b: Box<EidosError>| *b) == self@),
    {
        let mut errors = self.errors;
        if errors.len() == 0 {
            None
        } else if errors.len() == 1 {
            let e = errors.pop().unwrap();
            Some(*e)
        } else {
            Some(EidosError::MultipleErrors(errors))
        }
    }

    /// All recorded errors, in recording order.
    pub fn all_errors(&self) -> (r: &[Box<EidosError>])
        ensures
            r@.map_values(|b: Box<EidosError>| *b) == self@,
    {
        self.errors.as_slice()
    }
}

/// What a collector holds after recording `es`, in order, on top of `v`.
pub open spec fn after_adds(v: Seq<EidosError>, es: Seq<EidosError>) -> Seq<EidosError>
    decreases es.len(),
{
    if es.len() == 0 {
        v
    } else {
        after_adds(v, es.drop_last()).push(es.last())
    }
}

/// A new collector that records `es` one after another holds exactly `es`,
/// in recording order, and counts `es.len()` of them.
pub proof fn lemma_errors_in_order(es: Seq<EidosError>)
    ensures
        after_adds(Seq::<EidosError>::empty(), es) == es,
        after_adds(Seq::<EidosError>::empty(), es).len() == es.len(),
    decreases es.len(),
{
    if es.len() > 0 {
        lemma_errors_in_order(es.drop_last());
        assert(es.drop_last().push(es.last()) =~= es);
    }
}

} // verus!
