use lush::completeness::{
    clean_lua_error, has_incomplete_control_structure, has_open_block, is_balanced,
    is_complete_statement, is_incomplete_syntax_error, is_reserved_word, is_valid_lua_identifier,
    mentions_incomplete_input, remove_strings_and_comments,
};

#[test]
fn test_is_balanced_parentheses() {
    assert!(is_balanced("()"));
    assert!(is_balanced("(()())"));
    assert!(is_balanced("print(hello())"));
    assert!(is_balanced(""));
    assert!(is_balanced("no brackets here"));

    assert!(!is_balanced("("));
    assert!(!is_balanced(")"));
    assert!(!is_balanced("(()"));
    assert!(!is_balanced("())"));
    assert!(!is_balanced("((())"));
}

#[test]
fn test_is_balanced_braces() {
    assert!(is_balanced("{}"));
    assert!(is_balanced("{a = 1, b = 2}"));
    assert!(is_balanced("{{}, {}}"));

    assert!(!is_balanced("{"));
    assert!(!is_balanced("}"));
    assert!(!is_balanced("{{{}}"));
    assert!(!is_balanced("{{}"));
}

#[test]
fn test_is_balanced_brackets() {
    assert!(is_balanced("[]"));
    assert!(is_balanced("[1, 2, 3]"));
    assert!(is_balanced("[[]]"));

    assert!(!is_balanced("["));
    assert!(!is_balanced("]"));
    assert!(!is_balanced("[[]"));
    assert!(!is_balanced("[]]"));
}

#[test]
fn test_is_balanced_mixed() {
    assert!(is_balanced("({[]})"));
    assert!(is_balanced("table[key](value)"));
    assert!(is_balanced("func({a = [1, 2]})"));

    assert!(!is_balanced("({[)]})"));
}

#[test]
fn is_balanced_closing_before_opening() {
    assert!(!is_balanced(")("));
    assert!(!is_balanced("}{"));
}

#[test]
fn test_remove_strings_and_comments() {
    assert_eq!(remove_strings_and_comments("print(\"hello world\")"), "print()");
    assert_eq!(remove_strings_and_comments("\"({[\""), "");

    assert_eq!(remove_strings_and_comments("print('hello world')"), "print()");
    assert_eq!(remove_strings_and_comments("'({['"), "");

    assert_eq!(remove_strings_and_comments("\"hello \\\"world\\\"\""), "");
    assert_eq!(remove_strings_and_comments("'hello \\'world\\''"), "");

    assert_eq!(remove_strings_and_comments("code -- this is a comment"), "code ");
    assert_eq!(remove_strings_and_comments("-- full line comment\ncode"), "\ncode");

    assert_eq!(remove_strings_and_comments("[[long string with ({[]})]]"), "");
    assert_eq!(remove_strings_and_comments("code [[string]] more"), "code  more");

    assert_eq!(
        remove_strings_and_comments("print(\"hello\") -- comment with ({["),
        "print() "
    );
}

#[test]
fn remove_strings_nested_long_brackets_and_lone_dash() {
    assert_eq!(remove_strings_and_comments("a [[x [[y]] z]] b"), "a  b");
    assert_eq!(remove_strings_and_comments("x - y [z]"), "x - y [z]");
    assert_eq!(remove_strings_and_comments("'unterminated"), "");
}

#[test]
fn test_has_incomplete_control_structure() {
    assert!(!has_incomplete_control_structure("if true then print('hi') end"));
    assert!(!has_incomplete_control_structure("for i = 1, 10 do print(i) end"));
    assert!(!has_incomplete_control_structure("while true do break end"));
    assert!(!has_incomplete_control_structure("function test() return 1 end"));
    assert!(!has_incomplete_control_structure("repeat print('hi') until false"));

    assert!(has_incomplete_control_structure("if true then"));
    assert!(has_incomplete_control_structure("for i = 1, 10 do"));
    assert!(has_incomplete_control_structure("while true do"));
    assert!(has_incomplete_control_structure("function test()"));
    assert!(has_incomplete_control_structure("repeat"));

    assert!(!has_incomplete_control_structure(
        "if true then\n  for i = 1, 10 do\n    print(i)\n  end\nend"
    ));

    assert!(has_incomplete_control_structure(
        "if true then\n  for i = 1, 10 do\n    print(i)\n  end"
    ));

    assert!(has_incomplete_control_structure("if true then\nfor i = 1, 10 do"));

    assert!(has_incomplete_control_structure("if true then\nprint('hi')\nelseif false then"));
    assert!(!has_incomplete_control_structure(
        "if true then\nprint('hi')\nelseif false then\nprint('bye')\nend"
    ));
}

#[test]
fn control_structure_keywords_in_upper_case() {
    assert!(has_incomplete_control_structure("IF true THEN"));
    assert!(!has_incomplete_control_structure("IF true THEN x() END"));
    assert!(has_open_block("if x then"));
    assert!(!has_open_block("IF x THEN"));
}

#[test]
fn test_is_incomplete_syntax_error() {
    assert!(is_incomplete_syntax_error("unexpected end of file"));
    assert!(is_incomplete_syntax_error("'end' expected"));
    assert!(is_incomplete_syntax_error("'until' expected"));
    assert!(is_incomplete_syntax_error("unexpected symbol near <eof>"));
    assert!(is_incomplete_syntax_error("unfinished string"));
    assert!(is_incomplete_syntax_error("missing closing bracket"));
    assert!(is_incomplete_syntax_error("incomplete statement"));

    assert!(!is_incomplete_syntax_error("attempt to call a nil value"));
    assert!(!is_incomplete_syntax_error("undefined variable"));
    assert!(!is_incomplete_syntax_error("syntax error"));
    assert!(!is_incomplete_syntax_error("invalid escape sequence"));

    assert!(is_incomplete_syntax_error("UNEXPECTED END OF FILE"));
    assert!(is_incomplete_syntax_error("'END' EXPECTED"));
}

#[test]
fn incomplete_message_check_on_lowered_text() {
    assert!(mentions_incomplete_input("near <eof>: unexpected symbol near <eof>"));
    assert!(!mentions_incomplete_input("UNEXPECTED END OF FILE"));
}

#[test]
fn test_clean_lua_error() {
    let cleaned = clean_lua_error("src/repl.rs:70:1: syntax error near 'das'");
    assert_eq!(cleaned, "syntax error near 'das'");
    let cleaned = clean_lua_error("syntax error: src/repl.rs:70:1: syntax error near '-'");
    assert_eq!(cleaned, "syntax error near '-'");
}

#[test]
fn clean_lua_error_without_location() {
    assert_eq!(clean_lua_error("attempt to call a nil value"), "attempt to call a nil value");
    assert_eq!(clean_lua_error("file.rs:12"), "file.rs:12");
}

#[test]
fn identifiers_and_reserved_words() {
    assert!(is_valid_lua_identifier("x"));
    assert!(is_valid_lua_identifier("_private9"));
    assert!(is_valid_lua_identifier("ending"));
    assert!(!is_valid_lua_identifier("9lives"));
    assert!(!is_valid_lua_identifier(""));
    assert!(!is_valid_lua_identifier("a.b"));
    assert!(!is_valid_lua_identifier("end"));
    assert!(!is_valid_lua_identifier("while"));
    assert!(!is_valid_lua_identifier("x\n"));
}

#[test]
fn test_is_complete_statement_simple() {
    assert!(is_complete_statement("print('hello')"));
    assert!(is_complete_statement("local x = 5"));
    assert!(is_complete_statement("return 42"));
    assert!(is_complete_statement("x = x + 1"));

    assert!(!is_complete_statement("print('hello'"));
    assert!(!is_complete_statement("local x = {"));
    assert!(!is_complete_statement("func("));
}

#[test]
fn test_is_complete_statement_control_structures() {
    assert!(is_complete_statement("if true then print('hi') end"));
    assert!(is_complete_statement("for i = 1, 10 do print(i) end"));
    assert!(is_complete_statement("while true do break end"));
    assert!(is_complete_statement("function test() return 1 end"));
    assert!(is_complete_statement("repeat print('hi') until false"));

    assert!(!is_complete_statement("if true then"));
    assert!(!is_complete_statement("for i = 1, 10 do"));
    assert!(!is_complete_statement("while true do"));
    assert!(!is_complete_statement("function test()"));
    assert!(!is_complete_statement("repeat"));
}

#[test]
fn test_is_complete_statement_multiline() {
    assert!(is_complete_statement("local t = {\n  x = 1,\n  y = 2\n}"));
    assert!(is_complete_statement("function greet(name)\n  print('Hello, ' .. name)\nend"));
    assert!(is_complete_statement(
        "if x > 0 then\n  print('positive')\nelse\n  print('not positive')\nend"
    ));

    assert!(!is_complete_statement("local t = {\n  x = 1,\n  y = 2"));
    assert!(!is_complete_statement("function greet(name)\n  print('Hello, ' .. name)"));
    assert!(!is_complete_statement(
        "if x > 0 then\n  print('positive')\nelse\n  print('not positive')"
    ));
}

#[test]
fn test_is_complete_statement_with_strings_and_comments() {
    assert!(is_complete_statement("print('hello {world}')"));
    assert!(is_complete_statement("local s = \"string with } brace\""));

    assert!(is_complete_statement("print('hello') -- comment with {"));
    assert!(is_complete_statement("local x = 5 -- comment with }"));

    assert!(!is_complete_statement("if true then -- comment with }"));
    assert!(!is_complete_statement("local t = { -- comment\n  x = 1"));
}

#[test]
fn test_is_complete_statement_edge_cases() {
    assert!(is_complete_statement(""));
    assert!(is_complete_statement("   \n  \t  "));
    assert!(is_complete_statement("-- just a comment"));
    assert!(is_complete_statement("-- comment 1\n-- comment 2"));
    assert!(is_complete_statement("local x = 5; print(x)"));
    assert!(!is_complete_statement("local x = 5; if x > 0 then"));
}

#[test]
fn test_integration_multiline_scenarios() {
    let table_def = "local t = {\n  name = \"test\",\n  value = 42\n}";
    assert!(is_complete_statement(table_def));

    let func_def = "function calculate(a, b)\n  return a + b\nend";
    assert!(is_complete_statement(func_def));

    let nested = "for i = 1, 10 do\n  if i % 2 == 0 then\n    print(i)\n  end\nend";
    assert!(is_complete_statement(nested));

    let incomplete_nested = "for i = 1, 10 do\n  if i % 2 == 0 then\n    print(i)\n  end";
    assert!(!is_complete_statement(incomplete_nested));
}

#[test]
fn test_lua_specific_constructs() {
    assert!(is_complete_statement("local function test() return 1 end"));
    assert!(!is_complete_statement("local function test()"));

    assert!(is_complete_statement("local f = function() return 1 end"));
    assert!(!is_complete_statement("local f = function()"));

    assert!(is_complete_statement("do local x = 1; print(x) end"));
    assert!(!is_complete_statement("do local x = 1"));

    assert!(is_complete_statement("local a, b = 1, 2"));
    assert!(!is_complete_statement("local a, b = func("));

    assert!(is_complete_statement("repeat x = x + 1 until x > 10"));
    assert!(!is_complete_statement("repeat x = x + 1"));
}

#[test]
fn compiler_decides_unfinished_expression() {
    assert!(!is_complete_statement("local x ="));
    assert!(is_complete_statement("x = = 1"));
}

#[test]
fn reserved_words() {
    assert!(is_reserved_word("until"));
    assert!(is_reserved_word("goto"));
    assert!(!is_reserved_word("Until"));
    assert!(!is_reserved_word("ends"));
}
