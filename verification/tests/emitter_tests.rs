use dum_lang::parser::parse;
use dum_lang::tokenizer::Tokenizer;

fn compile(src: &str) -> String {
    let tokens = Tokenizer::new(String::from(src)).tokenize().unwrap();
    parse(tokens)
}

const PRELUDE: &str = "global _start\nsection .data\n";
const ENTRY: &str = "section .text\n_start:\n";

#[test]
fn exit_code_is_verbatim() {
    assert_eq!(
        compile("exit 42"),
        format!("{}{}mov rax, 60\nmov rdi, 42\nsyscall\n", PRELUDE, ENTRY)
    );
}

#[test]
fn empty_source_emits_only_the_frame() {
    assert_eq!(compile(""), format!("{}{}", PRELUDE, ENTRY));
}

#[test]
fn print_literal_writes_inline_text() {
    assert_eq!(
        compile("print 'hello'"),
        format!(
            "{}{}mov rax, 1\nmov rdi, 1\nmov rsi, 'hello'\nmov rdx, 5\nsyscall\n",
            PRELUDE, ENTRY
        )
    );
}

#[test]
fn print_declared_string_writes_label_and_length() {
    assert_eq!(
        compile("let:string x 'hi'\nprint x"),
        format!(
            "global _start\nsection .data\nx: db 'hi'\n{}mov rax, 1\nmov rdi, 1\nmov rsi, x\nmov rdx, 2\nsyscall\n",
            ENTRY
        )
    );
}

#[test]
fn declaration_directives_match_types() {
    assert_eq!(
        compile("let:int a 5"),
        format!("global _start\nsection .data\na: dd 5\n{}", ENTRY)
    );
    assert_eq!(
        compile("let:float b 1.5"),
        format!("global _start\nsection .data\nb: dq 1.5\n{}", ENTRY)
    );
    assert_eq!(
        compile("let:string s 'hi'"),
        format!("global _start\nsection .data\ns: db 'hi'\n{}", ENTRY)
    );
    assert_eq!(
        compile("let:bool c true"),
        format!("global _start\nsection .data\nc: db true\n{}", ENTRY)
    );
}

#[test]
fn print_lengths_follow_declared_types() {
    assert_eq!(
        compile("let:int n 7\nprint n"),
        format!(
            "global _start\nsection .data\nn: dd 7\n{}mov rax, 1\nmov rdi, 1\nmov rsi, n\nmov rdx, 4\nsyscall\n",
            ENTRY
        )
    );
    assert_eq!(
        compile("let:float f 2.5\nprint f"),
        format!(
            "global _start\nsection .data\nf: dq 2.5\n{}mov rax, 1\nmov rdi, 1\nmov rsi, f\nmov rdx, 8\nsyscall\n",
            ENTRY
        )
    );
    assert_eq!(
        compile("let:bool g true\nprint g"),
        format!(
            "global _start\nsection .data\ng: db true\n{}mov rax, 1\nmov rdi, 1\nmov rsi, g\nmov rdx, 1\nsyscall\n",
            ENTRY
        )
    );
}

#[test]
fn string_variable_length_counts_bytes() {
    // U+00E9 encodes as two UTF-8 bytes; U+1F600 as four. The write length
    // for a declared string is the byte length of its stored value.
    assert_eq!(
        compile("let:string e '\u{e9}'\nprint e"),
        format!(
            "global _start\nsection .data\ne: db '\u{e9}'\n{}mov rax, 1\nmov rdi, 1\nmov rsi, e\nmov rdx, 2\nsyscall\n",
            ENTRY
        )
    );
    assert_eq!(
        compile("let:string g '\u{1f600}'\nprint g"),
        format!(
            "global _start\nsection .data\ng: db '\u{1f600}'\n{}mov rax, 1\nmov rdi, 1\nmov rsi, g\nmov rdx, 4\nsyscall\n",
            ENTRY
        )
    );
}

#[test]
fn literal_length_counts_characters() {
    // The inline-literal fallback instead measures the operand's own
    // character count: two characters here, though four UTF-8 bytes.
    assert_eq!(
        compile("print '\u{e9}\u{e9}'"),
        format!(
            "{}{}mov rax, 1\nmov rdi, 1\nmov rsi, '\u{e9}\u{e9}'\nmov rdx, 2\nsyscall\n",
            PRELUDE, ENTRY
        )
    );
}

#[test]
fn redeclaration_resolves_to_first_value() {
    // The second record for `x` exists in the data section, but the print
    // resolves to the first declaration: length 2, not 4.
    assert_eq!(
        compile("let:string x 'ab'\nlet:string x 'wxyz'\nprint x"),
        format!(
            "global _start\nsection .data\nx: db 'ab'\nx: db 'wxyz'\n{}mov rax, 1\nmov rdi, 1\nmov rsi, x\nmov rdx, 2\nsyscall\n",
            ENTRY
        )
    );
}

#[test]
fn undeclared_operand_falls_back_to_literal() {
    assert_eq!(
        compile("print zz"),
        format!(
            "{}{}mov rax, 1\nmov rdi, 1\nmov rsi, 'zz'\nmov rdx, 2\nsyscall\n",
            PRELUDE, ENTRY
        )
    );
    assert_eq!(
        compile("print 7"),
        format!(
            "{}{}mov rax, 1\nmov rdi, 1\nmov rsi, '7'\nmov rdx, 1\nsyscall\n",
            PRELUDE, ENTRY
        )
    );
}

#[test]
fn arithmetic_emits_nothing() {
    assert_eq!(compile("add 1 2"), format!("{}{}", PRELUDE, ENTRY));
    // It also leaves the surrounding program untouched.
    assert_eq!(
        compile("exit 1\nadd 1 2\nexit 2"),
        format!(
            "{}{}mov rax, 60\nmov rdi, 1\nsyscall\nmov rax, 60\nmov rdi, 2\nsyscall\n",
            PRELUDE, ENTRY
        )
    );
}

#[test]
fn exit_need_not_be_last() {
    assert_eq!(
        compile("exit 0\nprint 'a'"),
        format!(
            "{}{}mov rax, 60\nmov rdi, 0\nsyscall\nmov rax, 1\nmov rdi, 1\nmov rsi, 'a'\nmov rdx, 1\nsyscall\n",
            PRELUDE, ENTRY
        )
    );
}

#[test]
fn long_write_length_renders_in_decimal() {
    let src = "print 'abcdefghijkl'";
    assert_eq!(
        compile(src),
        format!(
            "{}{}mov rax, 1\nmov rdi, 1\nmov rsi, 'abcdefghijkl'\nmov rdx, 12\nsyscall\n",
            PRELUDE, ENTRY
        )
    );
}

#[test]
fn same_source_yields_identical_assembly() {
    let src = "let:string x 'hi'\nlet:int n 3\nprint x\nprint n\nadd 1 2\nexit 0";
    let first = compile(src);
    let second = compile(src);
    assert_eq!(first, second);
}
