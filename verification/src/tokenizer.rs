//! The tokenizer: consumes the whole source text, splits it into lines,
//! classifies each line's leading keyword, validates operands against the
//! value classifier, and produces an ordered sequence of statement tokens.
//! Any malformed line aborts the whole run with an error naming the
//! offending text; no tokens are produced for such a source.

use vstd::prelude::*;

use crate::text::{has_prefix, join_space, split_lines, split_words, views_of};
use crate::text::{join_from, split_lines_exec, split_words_exec, starts_with, str_eq};
use crate::utilities::{
    is_float_text, is_int_text, is_string_text, is_var_text, scan_bad_char, scan_string,
    strip_quotes,
};
use crate::utilities::{is_float, is_int, is_string, is_var, extract_string, strip_quotes_exec};

verus! {

/// The primitive types a variable can be declared with.
#[derive(Clone, Copy, PartialEq, Eq, Structural, Debug)]
pub enum VarTypes {
    Int,
    Float,
    String,
    Bool,
}

/// A declared variable: its type, its name, and its value exactly as it will
/// appear in the data section (quotes already stripped for strings).
#[derive(Clone, PartialEq, Eq, Debug)]
pub struct VarData {
    pub var_type: VarTypes,
    pub var_name: String,
    pub var_value: String,
}

/// The mathematical shadow of [`VarData`].
pub struct VarModel {
    pub var_type: VarTypes,
    pub var_name: Seq<char>,
    pub var_value: Seq<char>,
}

impl View for VarData {
    type V = VarModel;

    open spec fn view(&self) -> VarModel {
        VarModel { var_type: self.var_type, var_name: self.var_name@, var_value: self.var_value@ }
    }
}

/// One parsed source line, tagged by statement kind.
#[derive(Clone, PartialEq, Eq, Debug)]
pub enum Tokens {
    /// `exit <code>`; the code is carried as raw text, not validated here.
    Exit { code: String },
    /// `let:<type> <name> <value...>`.
    Declare { data: VarData },
    /// `print <operand>`; whether the operand names a declared variable is
    /// decided only at emission time.
    Print { operand: String },
    /// An arithmetic statement, accepted but never lowered; carries the full
    /// source line verbatim.
    Arithmetic { raw_line: String },
}

/// The mathematical shadow of [`Tokens`].
pub enum StmtModel {
    Exit { code: Seq<char> },
    Declare { data: VarModel },
    Print { operand: Seq<char> },
    Arithmetic { raw_line: Seq<char> },
}

impl View for Tokens {
    type V = StmtModel;

    open spec fn view(&self) -> StmtModel {
        match self {
            Tokens::Exit { code } => StmtModel::Exit { code: code@ },
            Tokens::Declare { data } => StmtModel::Declare { data: data@ },
            Tokens::Print { operand } => StmtModel::Print { operand: operand@ },
            Tokens::Arithmetic { raw_line } => StmtModel::Arithmetic { raw_line: raw_line@ },
        }
    }
}

/// A fatal input error; tokenizing stops at the first one, naming the
/// offending text.
#[derive(Clone, PartialEq, Eq, Debug)]
pub enum CompileError {
    /// The leading word of a line matches none of the known statement forms.
    UnknownKeyword { word: String },
    /// `let:<type>` with a type outside int, float, string, bool.
    UnknownVarType { type_text: String },
    /// A declared name that is not letters followed by trailing digits.
    InvalidIdentifier { name: String },
    /// A declared name that collides with a reserved keyword.
    ReservedIdentifier { name: String },
    /// A declared value that fails validation for its declared type.
    ValueMismatch { value: String },
    /// `exit` with more than one operand.
    MalformedExit { extra: String },
    /// A `print` operand that is neither a quoted string, an identifier, an
    /// integer literal, nor a float literal.
    UnknownPrintOperand { operand: String },
    /// An unrecognized escape sequence inside a quoted string literal.
    UnknownEscape { escape: char },
}

/// The mathematical shadow of [`CompileError`].
pub enum ErrorModel {
    UnknownKeyword { word: Seq<char> },
    UnknownVarType { type_text: Seq<char> },
    InvalidIdentifier { name: Seq<char> },
    ReservedIdentifier { name: Seq<char> },
    ValueMismatch { value: Seq<char> },
    MalformedExit { extra: Seq<char> },
    UnknownPrintOperand { operand: Seq<char> },
    UnknownEscape { escape: char },
}

impl View for CompileError {
    type V = ErrorModel;

    open spec fn view(&self) -> ErrorModel {
        match self {
            CompileError::UnknownKeyword { word } => ErrorModel::UnknownKeyword { word: word@ },
            CompileError::UnknownVarType { type_text } => ErrorModel::UnknownVarType {
                type_text: type_text@,
            },
            CompileError::InvalidIdentifier { name } => ErrorModel::InvalidIdentifier {
                name: name@,
            },
            CompileError::ReservedIdentifier { name } => ErrorModel::ReservedIdentifier {
                name: name@,
            },
            CompileError::ValueMismatch { value } => ErrorModel::ValueMismatch { value: value@ },
            CompileError::MalformedExit { extra } => ErrorModel::MalformedExit { extra: extra@ },
            CompileError::UnknownPrintOperand { operand } => ErrorModel::UnknownPrintOperand {
                operand: operand@,
            },
            CompileError::UnknownEscape { escape } => ErrorModel::UnknownEscape {
                escape: *escape,
            },
        }
    }
}

/// The keywords no variable name may collide with.
pub open spec fn reserved_word(s: Seq<char>) -> bool {
    s == "let"@ || s == "exit"@ || s == "print"@ || s == "add"@ || s == "sub"@ || s == "mul"@
        || s == "div"@ || s == "true"@ || s == "false"@
}

/// The declared type named by the text after `let:`, if any.
pub open spec fn type_of_text(t: Seq<char>) -> Option<VarTypes> {
    if t == "int"@ {
        Some(VarTypes::Int)
    } else if t == "float"@ {
        Some(VarTypes::Float)
    } else if t == "string"@ {
        Some(VarTypes::String)
    } else if t == "bool"@ {
        Some(VarTypes::Bool)
    } else {
        None
    }
}

/// The word at position `i`, or empty text when the line is too short.
pub open spec fn word_or_empty(ws: Seq<Seq<char>>, i: int) -> Seq<char> {
    if 0 <= i < ws.len() {
        ws[i]
    } else {
        Seq::empty()
    }
}

/// The raw value text of a declaration: the third word, except that string
/// values are the third and all following words rejoined with single spaces,
/// so quoted strings may contain spaces.
pub open spec fn let_value_text(t: VarTypes, ws: Seq<Seq<char>>) -> Seq<char> {
    if t == VarTypes::String {
        if ws.len() >= 3 {
            join_space(ws.skip(2))
        } else {
            Seq::empty()
        }
    } else {
        word_or_empty(ws, 2)
    }
}

/// Validation of a raw value against its declared type.
pub open spec fn value_ok(t: VarTypes, v: Seq<char>) -> bool {
    match t {
        VarTypes::Int => is_int_text(v),
        VarTypes::Float => is_float_text(v),
        VarTypes::String => is_string_text(v),
        VarTypes::Bool => v == "true"@ || v == "false"@,
    }
}

/// What is stored for a validated value: strings lose every single-quote
/// character, embedded ones included; other values are stored verbatim.
pub open spec fn stored_value(t: VarTypes, v: Seq<char>) -> Seq<char> {
    if t == VarTypes::String {
        strip_quotes(v)
    } else {
        v
    }
}

/// A `let:<type>` line: the declared type is taken from the keyword itself,
/// the name must be a non-reserved identifier, and the value must validate
/// for the declared type.
pub open spec fn let_line_model(ws: Seq<Seq<char>>) -> Result<Option<StmtModel>, ErrorModel> {
    let tt = ws[0].skip(4);
    match type_of_text(tt) {
        None => Err(ErrorModel::UnknownVarType { type_text: tt }),
        Some(t) => {
            let name = word_or_empty(ws, 1);
            if !is_var_text(name) {
                Err(ErrorModel::InvalidIdentifier { name })
            } else if reserved_word(name) {
                Err(ErrorModel::ReservedIdentifier { name })
            } else {
                let v = let_value_text(t, ws);
                if value_ok(t, v) {
                    Ok(
                        Some(
                            StmtModel::Declare {
                                data: VarModel {
                                    var_type: t,
                                    var_name: name,
                                    var_value: stored_value(t, v),
                                },
                            },
                        ),
                    )
                } else {
                    Err(ErrorModel::ValueMismatch { value: v })
                }
            }
        },
    }
}

/// An `exit` line: the second word is taken verbatim as the exit code (empty
/// when missing, with no numeric validation); a third word is an error.
pub open spec fn exit_line_model(ws: Seq<Seq<char>>) -> Result<Option<StmtModel>, ErrorModel> {
    if ws.len() > 2 {
        Err(ErrorModel::MalformedExit { extra: ws[2] })
    } else {
        Ok(Some(StmtModel::Exit { code: word_or_empty(ws, 1) }))
    }
}

/// A `print` line: the remainder of the line is classified once, in priority
/// order quoted string, identifier, integer literal, float literal; a quoted
/// string stores its scanned content, delimiters removed.
pub open spec fn print_line_model(ws: Seq<Seq<char>>) -> Result<Option<StmtModel>, ErrorModel> {
    let rest = if ws.len() >= 2 {
        join_space(ws.skip(1))
    } else {
        Seq::empty()
    };
    if is_string_text(rest) {
        match scan_string(rest, false) {
            Some(c) => Ok(Some(StmtModel::Print { operand: c })),
            None => Err(ErrorModel::UnknownEscape { escape: scan_bad_char(rest, false) }),
        }
    } else if is_var_text(rest) {
        Ok(Some(StmtModel::Print { operand: rest }))
    } else if is_int_text(rest) {
        Ok(Some(StmtModel::Print { operand: rest }))
    } else if is_float_text(rest) {
        Ok(Some(StmtModel::Print { operand: rest }))
    } else {
        Err(ErrorModel::UnknownPrintOperand { operand: rest })
    }
}

/// One source line. An empty line produces no token. The leading word is
/// matched by prefix, not exact equality, so a malformed keyword that merely
/// begins with a known form is classified as that form rather than rejected.
pub open spec fn line_model(line: Seq<char>) -> Result<Option<StmtModel>, ErrorModel> {
    let ws = split_words(line);
    if ws.len() == 0 {
        Ok(None)
    } else if has_prefix(ws[0], "let:"@) {
        let_line_model(ws)
    } else if has_prefix(ws[0], "exit"@) {
        exit_line_model(ws)
    } else if has_prefix(ws[0], "add"@) {
        Ok(Some(StmtModel::Arithmetic { raw_line: line }))
    } else if has_prefix(ws[0], "print"@) {
        print_line_model(ws)
    } else {
        Err(ErrorModel::UnknownKeyword { word: ws[0] })
    }
}

/// The lines in order; the first error aborts the whole run.
pub open spec fn tokenize_lines(lines: Seq<Seq<char>>) -> Result<Seq<StmtModel>, ErrorModel>
    decreases lines.len(),
{
    if lines.len() == 0 {
        Ok(Seq::empty())
    } else {
        match line_model(lines[0]) {
            Err(e) => Err(e),
            Ok(opt) => match tokenize_lines(lines.drop_first()) {
                Err(e) => Err(e),
                Ok(rest) => match opt {
                    Some(t) => Ok(seq![t] + rest),
                    None => Ok(rest),
                },
            },
        }
    }
}

/// What tokenizing a whole source yields: its lines, each classified in
/// order, or the first fatal error.
pub open spec fn tokenize_model(src: Seq<char>) -> Result<Seq<StmtModel>, ErrorModel> {
    tokenize_lines(split_lines(src))
}

/// The views of a sequence of owned tokens.
pub open spec fn token_views(ts: Seq<Tokens>) -> Seq<StmtModel> {
    ts.map_values(|t: Tokens| t@)
}

/// The view of a whole tokenizer run.
pub open spec fn tokens_result_view(r: Result<Vec<Tokens>, CompileError>) -> Result<
    Seq<StmtModel>,
    ErrorModel,
> {
    match r {
        Ok(ts) => Ok(token_views(ts@)),
        Err(e) => Err(e@),
    }
}

/// The view of a single classified line.
pub open spec fn line_result_view(r: Result<Option<Tokens>, CompileError>) -> Result<
    Option<StmtModel>,
    ErrorModel,
> {
    match r {
        Ok(None) => Ok(None),
        Ok(Some(t)) => Ok(Some(t@)),
        Err(e) => Err(e@),
    }
}

fn type_of_word(tt: &str) -> (r: Option<VarTypes>)
    ensures
        r == type_of_text(tt@),
{
    if str_eq(tt, "int") {
        Some(VarTypes::Int)
    } else if str_eq(tt, "float") {
        Some(VarTypes::Float)
    } else if str_eq(tt, "string") {
        Some(VarTypes::String)
    } else if str_eq(tt, "bool") {
        Some(VarTypes::Bool)
    } else {
        None
    }
}

fn is_reserved(name: &String) -> (r: bool)
    ensures
        r == reserved_word(name@),
{
    str_eq(name.as_str(), "let") || str_eq(name.as_str(), "exit") || str_eq(
        name.as_str(),
        "print",
    ) || str_eq(name.as_str(), "add") || str_eq(name.as_str(), "sub") || str_eq(
        name.as_str(),
        "mul",
    ) || str_eq(name.as_str(), "div") || str_eq(name.as_str(), "true") || str_eq(
        name.as_str(),
        "false",
    )
}

fn tokenize_let(ws: &Vec<String>) -> (r: Result<Option<Tokens>, CompileError>)
    requires
        views_of(ws@).len() >= 1,
        has_prefix(views_of(ws@)[0], "let:"@),
    ensures
        line_result_view(r) == let_line_model(views_of(ws@)),
{
    let ghost vs = views_of(ws@);
    proof {
        reveal_strlit("let:");
    }
    let n0: usize = ws[0].as_str().unicode_len();
    let tt = ws[0].as_str().substring_char(4, n0);
    proof {
        assert(tt@ =~= vs[0].skip(4));
    }
    let t: VarTypes = match type_of_word(tt) {
        Some(t) => t,
        None => {
            return Err(CompileError::UnknownVarType { type_text: String::from_str(tt) });
        },
    };
    let name: String = if ws.len() >= 2 {
        ws[1].clone()
    } else {
        String::new()
    };
    proof {
        assert(name@ == word_or_empty(vs, 1));
    }
    if !is_var(&name) {
        return Err(CompileError::InvalidIdentifier { name });
    }
    if is_reserved(&name) {
        return Err(CompileError::ReservedIdentifier { name });
    }
    if t == VarTypes::String {
        let value: String = if ws.len() >= 3 {
            join_from(ws, 2)
        } else {
            String::new()
        };
        proof {
            assert(value@ == let_value_text(t, vs));
        }
        if is_string(&value) {
            let stored = strip_quotes_exec(value.as_str());
            Ok(
                Some(
                    Tokens::Declare {
                        data: VarData { var_type: t, var_name: name, var_value: stored },
                    },
                ),
            )
        } else {
            Err(CompileError::ValueMismatch { value })
        }
    } else {
        let value: String = if ws.len() >= 3 {
            ws[2].clone()
        } else {
            String::new()
        };
        proof {
            assert(value@ == let_value_text(t, vs));
        }
        let ok: bool = match t {
            VarTypes::Int => is_int(&value),
            VarTypes::Float => is_float(&value),
            VarTypes::Bool => str_eq(value.as_str(), "true") || str_eq(value.as_str(), "false"),
            VarTypes::String => false,
        };
        if ok {
            Ok(
                Some(
                    Tokens::Declare {
                        data: VarData { var_type: t, var_name: name, var_value: value },
                    },
                ),
            )
        } else {
            Err(CompileError::ValueMismatch { value })
        }
    }
}

fn tokenize_exit(ws: &Vec<String>) -> (r: Result<Option<Tokens>, CompileError>)
    requires
        views_of(ws@).len() >= 1,
    ensures
        line_result_view(r) == exit_line_model(views_of(ws@)),
{
    let ghost vs = views_of(ws@);
    if ws.len() > 2 {
        Err(CompileError::MalformedExit { extra: ws[2].clone() })
    } else {
        let code: String = if ws.len() >= 2 {
            ws[1].clone()
        } else {
            String::new()
        };
        proof {
            assert(code@ == word_or_empty(vs, 1));
        }
        Ok(Some(Tokens::Exit { code }))
    }
}

fn tokenize_print(ws: &Vec<String>) -> (r: Result<Option<Tokens>, CompileError>)
    requires
        views_of(ws@).len() >= 1,
    ensures
        line_result_view(r) == print_line_model(views_of(ws@)),
{
    let ghost vs = views_of(ws@);
    let rest: String = if ws.len() >= 2 {
        join_from(ws, 1)
    } else {
        String::new()
    };
    if is_string(&rest) {
        match extract_string(rest.as_str()) {
            Ok(wrapped) => {
                let m: usize = wrapped.as_str().unicode_len();
                let operand = String::from_str(wrapped.as_str().substring_char(1, m - 1));
                proof {
                    match scan_string(rest@, false) {
                        Some(c) => {
                            assert(operand@ =~= c);
                        },
                        None => {},
                    }
                }
                Ok(Some(Tokens::Print { operand }))
            },
            Err(ch) => Err(CompileError::UnknownEscape { escape: ch }),
        }
    } else if is_var(&rest) {
        Ok(Some(Tokens::Print { operand: rest }))
    } else if is_int(&rest) {
        Ok(Some(Tokens::Print { operand: rest }))
    } else if is_float(&rest) {
        Ok(Some(Tokens::Print { operand: rest }))
    } else {
        Err(CompileError::UnknownPrintOperand { operand: rest })
    }
}

fn tokenize_line(line: &String) -> (r: Result<Option<Tokens>, CompileError>)
    ensures
        line_result_view(r) == line_model(line@),
{
    let ws = split_words_exec(line.as_str());
    if ws.len() == 0 {
        return Ok(None);
    }
    if starts_with(ws[0].as_str(), "let:") {
        tokenize_let(&ws)
    } else if starts_with(ws[0].as_str(), "exit") {
        tokenize_exit(&ws)
    } else if starts_with(ws[0].as_str(), "add") {
        Ok(Some(Tokens::Arithmetic { raw_line: line.clone() }))
    } else if starts_with(ws[0].as_str(), "print") {
        tokenize_print(&ws)
    } else {
        Err(CompileError::UnknownKeyword { word: ws[0].clone() })
    }
}

/// The tokenizer holds the whole source text it was made from.
pub struct Tokenizer {
    input_string: String,
}

impl View for Tokenizer {
    type V = Seq<char>;

    closed spec fn view(&self) -> Seq<char> {
        self.input_string@
    }
}

impl Tokenizer {
    pub fn new(input_string: String) -> (t: Self)
        ensures
            t@ == input_string@,
    {
        Tokenizer { input_string }
    }

    /// Splits the source into lines and classifies each in order, producing
    /// the statement tokens, or the first fatal input error.
    pub fn tokenize(&self) -> (r: Result<Vec<Tokens>, CompileError>)
        ensures
            tokens_result_view(r) == tokenize_model(self@),
    {
        let lines = split_lines_exec(self.input_string.as_str());
        let ghost lvs = views_of(lines@);
        let mut toks: Vec<Tokens> = Vec::new();
        let mut i: usize = 0;
        proof {
            assert(lvs.skip(0) =~= lvs);
        }
        while i < lines.len()
            invariant
                i <= lines@.len(),
                lvs == views_of(lines@),
                lvs == split_lines(self@),
                ({
                    match tokenize_lines(lvs.skip(i as int)) {
                        Ok(rest) => tokenize_model(self@) == Ok::<Seq<StmtModel>, ErrorModel>(
                            token_views(toks@) + rest,
                        ),
                        Err(e) => tokenize_model(self@) == Err::<Seq<StmtModel>, ErrorModel>(e),
                    }
                }),
            decreases lines@.len() - i,
        {
            let ghost toks_old = toks@;
            proof {
                assert(lvs.skip(i as int).drop_first() =~= lvs.skip(i as int + 1));
                assert(lvs.skip(i as int)[0] == lines@[i as int]@);
            }
            match tokenize_line(&lines[i]) {
                Err(e) => {
                    return Err(e);
                },
                Ok(None) => {},
                Ok(Some(t)) => {
                    toks.push(t);
                    proof {
                        assert(token_views(toks@) =~= token_views(toks_old).push(t@));
                        match tokenize_lines(lvs.skip(i as int + 1)) {
                            Ok(rest) => {
                                assert(token_views(toks_old) + (seq![t@] + rest) =~= token_views(
                                    toks@,
                                ) + rest);
                            },
                            Err(e) => {},
                        }
                    }
                },
            }
            i = i + 1;
        }
        proof {
            assert(lvs.skip(i as int) =~= Seq::<Seq<char>>::empty());
            assert(token_views(toks@) + Seq::<StmtModel>::empty() =~= token_views(toks@));
        }
        Ok(toks)
    }
}

} // verus!
