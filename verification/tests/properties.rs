use bf::{
    check_brackets, generate, tokenize, transpile, transpile_brainfuck_to_c, validate_brackets,
    StructureError, Token,
};

#[test]
fn tokenize_empty_input_yields_no_commands() {
    assert_eq!(tokenize(""), Vec::<Token>::new());
}

#[test]
fn tokenize_comment_only_input_yields_no_commands() {
    assert_eq!(tokenize("the quick brown fox! 0123"), Vec::<Token>::new());
}

#[test]
fn tokenize_comment_breaks_a_run() {
    // A maximal run ends at any other character, even an ignored one.
    assert_eq!(tokenize("+a+"), vec![Token::Add(1), Token::Add(1)]);
}

#[test]
fn tokenize_distinct_runs_are_never_merged() {
    assert_eq!(
        tokenize("><<>>>"),
        vec![Token::Right(1), Token::Left(2), Token::Right(3)]
    );
    assert_eq!(tokenize("++--"), vec![Token::Add(2), Token::Sub(2)]);
}

#[test]
fn tokenize_io_commands_are_not_coalesced() {
    assert_eq!(
        tokenize(",,.."),
        vec![Token::Read, Token::Read, Token::Write, Token::Write]
    );
}

#[test]
fn tokenize_one_loop_command_per_marker() {
    let tokens = tokenize("a[b[c]]d[");
    let begins = tokens
        .iter()
        .filter(|t| matches!(t, Token::BeginLoop))
        .count();
    let ends = tokens
        .iter()
        .filter(|t| matches!(t, Token::EndLoop))
        .count();
    assert_eq!(begins, 3);
    assert_eq!(ends, 2);
}

#[test]
fn validate_accepts_empty_and_simple_pairs() {
    assert!(validate_brackets(&tokenize("")));
    assert!(validate_brackets(&tokenize("[]")));
    assert!(validate_brackets(&tokenize("[+[-][>]<]")));
}

#[test]
fn check_brackets_reports_distinct_error_kinds() {
    assert_eq!(check_brackets(&tokenize("[]")), Ok(()));
    assert_eq!(
        check_brackets(&tokenize("]")),
        Err(StructureError::UnmatchedCloser)
    );
    assert_eq!(
        check_brackets(&tokenize("][")),
        Err(StructureError::UnmatchedCloser)
    );
    assert_eq!(
        check_brackets(&tokenize("[[")),
        Err(StructureError::UnclosedOpener)
    );
}

#[test]
fn structure_error_messages_name_the_condition() {
    assert_eq!(
        StructureError::UnmatchedCloser.message(),
        "unmatched closing loop marker"
    );
    assert_eq!(
        StructureError::UnclosedOpener.message(),
        "unclosed opening loop marker"
    );
}

#[test]
fn empty_input_generates_the_minimal_program() {
    let text = transpile("").expect("empty input is well formed");
    assert_eq!(
        text,
        "#include <stdio.h>\n\nint main() {\n    char tape[30000] = {0};\n    char *ptr = tape;\n\n\n    return 0;\n}\n"
    );
}

#[test]
fn long_run_is_emitted_with_its_exact_count() {
    let code: String = std::iter::repeat('+').take(300).collect();
    let text = transpile(&code).expect("a run alone is well formed");
    assert!(text.contains("    *ptr += 300;\n"));
}

#[test]
fn movement_commands_carry_bounds_checks() {
    let right = transpile(">>").expect("well formed");
    assert!(right.contains(
        "    ptr += 2;\n    if (ptr >= tape + sizeof(tape)) { fprintf(stderr, \"Error: Pointer out of bounds\\n\"); return 1; }\n"
    ));
    let left = transpile("<").expect("well formed");
    assert!(left.contains(
        "    ptr -= 1;\n    if (ptr < tape) { fprintf(stderr, \"Error: Pointer out of bounds\\n\"); return 1; }\n"
    ));
}

#[test]
fn io_commands_use_the_standard_read_and_write_primitives() {
    let text = transpile(",.").expect("well formed");
    assert!(text.contains("    *ptr = getchar();\n    putchar(*ptr);\n"));
}

#[test]
fn increment_then_output_appear_in_order() {
    let text = transpile("+++.").expect("well formed");
    let add = text.find("    *ptr += 3;\n").expect("increment-by-3 line");
    let put = text.find("    putchar(*ptr);\n").expect("output line");
    let ret = text.find("    return 0;\n").expect("success return");
    assert!(add < put && put < ret);
}

#[test]
fn nested_loops_indent_one_level_per_marker() {
    let text = generate(&tokenize("[[-]]"));
    assert!(text.contains("    while (*ptr) {\n        while (*ptr) {\n"));
    assert!(text.contains("            *ptr -= 1;\n"));
    assert!(text.contains("        }\n    }\n"));
}

#[test]
fn unclosed_opener_is_rejected_by_the_pipeline() {
    assert_eq!(transpile("[[+]"), Err(StructureError::UnclosedOpener));
    let adapter = transpile_brainfuck_to_c("[[+]");
    assert_eq!(adapter, "Error: Unbalanced brackets in the code");
}

#[test]
fn unmatched_closer_is_rejected_by_the_pipeline() {
    assert_eq!(transpile("+]"), Err(StructureError::UnmatchedCloser));
}

#[test]
fn valid_source_round_trips_through_the_adapter() {
    let tagged = transpile("[->+<]").expect("well formed");
    let adapter = transpile_brainfuck_to_c("[->+<]");
    assert_eq!(tagged, adapter);
    assert!(!adapter.starts_with("Error:"));
}
