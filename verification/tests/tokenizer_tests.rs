use dum_lang::tokenizer::{CompileError, Tokenizer, Tokens, VarData, VarTypes};

fn tokenize(src: &str) -> Result<Vec<Tokens>, CompileError> {
    Tokenizer::new(String::from(src)).tokenize()
}

fn declare(t: VarTypes, name: &str, value: &str) -> Tokens {
    Tokens::Declare {
        data: VarData {
            var_type: t,
            var_name: String::from(name),
            var_value: String::from(value),
        },
    }
}

#[test]
fn declares_each_type() {
    assert_eq!(
        tokenize("let:int a 5"),
        Ok(vec![declare(VarTypes::Int, "a", "5")])
    );
    assert_eq!(
        tokenize("let:float b 1.5"),
        Ok(vec![declare(VarTypes::Float, "b", "1.5")])
    );
    assert_eq!(
        tokenize("let:string s 'hi'"),
        Ok(vec![declare(VarTypes::String, "s", "hi")])
    );
    assert_eq!(
        tokenize("let:bool c true"),
        Ok(vec![declare(VarTypes::Bool, "c", "true")])
    );
    assert_eq!(
        tokenize("let:bool d false"),
        Ok(vec![declare(VarTypes::Bool, "d", "false")])
    );
}

#[test]
fn string_value_keeps_spaces_and_drops_embedded_quotes() {
    assert_eq!(
        tokenize("let:string s 'a b c'"),
        Ok(vec![declare(VarTypes::String, "s", "a b c")])
    );
    // Runs of blanks between words collapse to one space on rejoining.
    assert_eq!(
        tokenize("let:string s 'a  b'"),
        Ok(vec![declare(VarTypes::String, "s", "a b")])
    );
    // Every single-quote character is stripped, embedded ones included.
    assert_eq!(
        tokenize("let:string s 'a'b'"),
        Ok(vec![declare(VarTypes::String, "s", "ab")])
    );
}

#[test]
fn exit_carries_code_verbatim() {
    assert_eq!(
        tokenize("exit 42"),
        Ok(vec![Tokens::Exit { code: String::from("42") }])
    );
    // No numeric validation happens at this stage.
    assert_eq!(
        tokenize("exit soon"),
        Ok(vec![Tokens::Exit { code: String::from("soon") }])
    );
}

#[test]
fn print_operand_kinds() {
    assert_eq!(
        tokenize("print 'hello'"),
        Ok(vec![Tokens::Print { operand: String::from("hello") }])
    );
    assert_eq!(
        tokenize("print x"),
        Ok(vec![Tokens::Print { operand: String::from("x") }])
    );
    assert_eq!(
        tokenize("print 7"),
        Ok(vec![Tokens::Print { operand: String::from("7") }])
    );
    assert_eq!(
        tokenize("print 1.25"),
        Ok(vec![Tokens::Print { operand: String::from("1.25") }])
    );
}

#[test]
fn print_quoted_operand_resolves_escapes() {
    assert_eq!(
        tokenize("print 'it\\'s ok'"),
        Ok(vec![Tokens::Print { operand: String::from("it's ok") }])
    );
}

#[test]
fn arithmetic_line_is_kept_verbatim() {
    assert_eq!(
        tokenize("add 1 2"),
        Ok(vec![Tokens::Arithmetic { raw_line: String::from("add 1 2") }])
    );
}

#[test]
fn empty_lines_produce_no_tokens() {
    assert_eq!(
        tokenize("\n\nexit 0\n"),
        Ok(vec![Tokens::Exit { code: String::from("0") }])
    );
    assert_eq!(tokenize(""), Ok(vec![]));
}

#[test]
fn keywords_match_by_prefix() {
    // A malformed keyword that merely begins with a known form is
    // classified as that form rather than rejected.
    assert_eq!(
        tokenize("exitfoo 3"),
        Ok(vec![Tokens::Exit { code: String::from("3") }])
    );
    assert_eq!(
        tokenize("addanything at all"),
        Ok(vec![Tokens::Arithmetic { raw_line: String::from("addanything at all") }])
    );
    assert_eq!(
        tokenize("printer 'x'"),
        Ok(vec![Tokens::Print { operand: String::from("x") }])
    );
    assert_eq!(
        tokenize("let:intx a 5"),
        Err(CompileError::UnknownVarType { type_text: String::from("intx") })
    );
}

#[test]
fn reserved_identifier_aborts() {
    assert_eq!(
        tokenize("let:int exit 5"),
        Err(CompileError::ReservedIdentifier { name: String::from("exit") })
    );
    assert_eq!(
        tokenize("let:string add 'x'"),
        Err(CompileError::ReservedIdentifier { name: String::from("add") })
    );
}

#[test]
fn unknown_keyword_aborts() {
    assert_eq!(
        tokenize("foo 1"),
        Err(CompileError::UnknownKeyword { word: String::from("foo") })
    );
}

#[test]
fn unknown_type_aborts() {
    assert_eq!(
        tokenize("let:char x y"),
        Err(CompileError::UnknownVarType { type_text: String::from("char") })
    );
}

#[test]
fn invalid_identifier_aborts() {
    assert_eq!(
        tokenize("let:int 1x 5"),
        Err(CompileError::InvalidIdentifier { name: String::from("1x") })
    );
    assert_eq!(
        tokenize("let:int"),
        Err(CompileError::InvalidIdentifier { name: String::from("") })
    );
}

#[test]
fn value_mismatch_aborts() {
    assert_eq!(
        tokenize("let:int a 1.5"),
        Err(CompileError::ValueMismatch { value: String::from("1.5") })
    );
    assert_eq!(
        tokenize("let:string s hi"),
        Err(CompileError::ValueMismatch { value: String::from("hi") })
    );
    assert_eq!(
        tokenize("let:bool b maybe"),
        Err(CompileError::ValueMismatch { value: String::from("maybe") })
    );
    assert_eq!(
        tokenize("let:int a"),
        Err(CompileError::ValueMismatch { value: String::from("") })
    );
}

#[test]
fn malformed_exit_aborts() {
    assert_eq!(
        tokenize("exit 1 2"),
        Err(CompileError::MalformedExit { extra: String::from("2") })
    );
}

#[test]
fn unclassifiable_print_operand_aborts() {
    assert_eq!(
        tokenize("print !!"),
        Err(CompileError::UnknownPrintOperand { operand: String::from("!!") })
    );
    assert_eq!(
        tokenize("print"),
        Err(CompileError::UnknownPrintOperand { operand: String::from("") })
    );
}

#[test]
fn unknown_escape_aborts() {
    assert_eq!(
        tokenize("print 'a\\qb'"),
        Err(CompileError::UnknownEscape { escape: 'q' })
    );
}

#[test]
fn first_error_wins() {
    assert_eq!(
        tokenize("exit 0\nfoo 1\nlet:char x y"),
        Err(CompileError::UnknownKeyword { word: String::from("foo") })
    );
}
