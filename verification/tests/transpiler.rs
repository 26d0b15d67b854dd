use bf::{generate, tokenize, transpile_brainfuck_to_c, validate_brackets, Token};

#[test]
fn test_tokenize_basic() {
    let tokens = tokenize("++--><,.[");
    assert_eq!(
        tokens,
        vec![
            Token::Add(2),
            Token::Sub(2),
            Token::Right(1),
            Token::Left(1),
            Token::Read,
            Token::Write,
            Token::BeginLoop,
        ]
    );
}

#[test]
fn test_tokenize_ignores_non_bf() {
    let tokens = tokenize("hello + world");
    assert_eq!(tokens, vec![Token::Add(1)]);
}

#[test]
fn test_run_length_no_overflow() {
    // 300 '+' chars must stay one command with the full count.
    let code: String = std::iter::repeat('+').take(300).collect();
    let tokens = tokenize(&code);
    assert_eq!(tokens, vec![Token::Add(300)]);
}

#[test]
fn test_validate_brackets_balanced() {
    let tokens = tokenize("[++[--]++]");
    assert!(validate_brackets(&tokens));
}

#[test]
fn test_validate_brackets_unbalanced() {
    assert!(!validate_brackets(&tokenize("[[")));
    assert!(!validate_brackets(&tokenize("][")));
    assert!(!validate_brackets(&tokenize("]")));
}

#[test]
fn test_generate_hello_world() {
    let code = "++++++++[>++++[>++>+++>+++>+<<<<-]>+>+>->>[<]<-]>>.";
    let tokens = tokenize(code);
    let c_code = generate(&tokens);
    assert!(c_code.contains("#include <stdio.h>"));
    assert!(c_code.contains("while (*ptr) {"));
    assert!(c_code.contains("return 0;"));
}

#[test]
fn test_nested_indentation() {
    let tokens = tokenize("[[-]]");
    let c_code = generate(&tokens);
    // Inner loop should be indented more than outer
    assert!(c_code.contains("        while (*ptr) {\n"));
    assert!(c_code.contains("        }\n"));
}

#[test]
fn test_transpile_error_on_unbalanced() {
    let result = transpile_brainfuck_to_c("[[+]");
    assert!(result.starts_with("Error:"));
}
