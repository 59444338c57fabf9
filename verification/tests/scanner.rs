use luadoc::model::{Documentation, Function, Param, Return};
use luadoc::scan::{categorize_function, parse_function_doc, scan_directory};
use luadoc::locate::extract_function_name;
use luadoc::tags::{extract_doc_content, is_doc_comment, parse_param, parse_return};

fn scan_one(text: &str) -> Documentation {
    scan_directory(&vec![text.to_string()])
}

#[test]
fn locator_named_declaration() {
    let name = extract_function_name("function Math.add(a, b)").unwrap();
    assert_eq!(name, "Math.add");
    let (cat, short) = categorize_function(&name, &None);
    assert_eq!(cat, "Math");
    assert_eq!(short, "add");
}

#[test]
fn locator_local_declaration() {
    let name = extract_function_name("local function helper(x)").unwrap();
    assert_eq!(name, "helper");
    let (cat, short) = categorize_function(&name, &None);
    assert_eq!(cat, "Global");
    assert_eq!(short, "helper");
}

#[test]
fn locator_method_declaration() {
    let name = extract_function_name("obj:update(dt)").unwrap();
    assert_eq!(name, "obj.update");
    let (cat, short) = categorize_function(&name, &None);
    assert_eq!(cat, "obj");
    assert_eq!(short, "update");
}

#[test]
fn locator_assignment_declaration() {
    let name = extract_function_name("M.run = function(a)").unwrap();
    assert_eq!(name, "M.run");
    let (cat, short) = categorize_function(&name, &None);
    assert_eq!(cat, "M");
    assert_eq!(short, "run");
}

#[test]
fn locator_indented_declaration() {
    let name = extract_function_name("    function Deep.nested.tbl(x)").unwrap();
    assert_eq!(name, "Deep.nested.tbl");
    let (cat, short) = categorize_function(&name, &None);
    assert_eq!(cat, "Deep");
    assert_eq!(short, "nested.tbl");
}

#[test]
fn locator_no_declaration() {
    assert!(extract_function_name("local x = 3").is_none());
    assert!(extract_function_name("").is_none());
    assert!(extract_function_name("-- just a comment").is_none());
}

#[test]
fn param_colon_with_description() {
    let p = parse_param("x:int the x value").unwrap();
    assert_eq!(p.name, "x");
    assert_eq!(p.param_type, "int");
    assert_eq!(p.description, "the x value");
}

#[test]
fn param_colon_without_description() {
    let p = parse_param("x:int").unwrap();
    assert_eq!(p.name, "x");
    assert_eq!(p.param_type, "int");
    assert_eq!(p.description, "");
}

#[test]
fn param_comma_form_matches_colon_form() {
    let a = parse_param("x, int, the x value").unwrap();
    let b = parse_param("x:int the x value").unwrap();
    assert_eq!(a, b);
}

#[test]
fn param_comma_two_fields() {
    let p = parse_param("n, number").unwrap();
    assert_eq!(p.name, "n");
    assert_eq!(p.param_type, "number");
    assert_eq!(p.description, "");
}

#[test]
fn param_whitespace_fallback() {
    let p = parse_param("count number how many").unwrap();
    assert_eq!(p.name, "count");
    assert_eq!(p.param_type, "number");
    assert_eq!(p.description, "how many");
}

#[test]
fn param_too_few_tokens_fails() {
    assert!(parse_param("x").is_none());
    assert!(parse_param("").is_none());
    assert!(parse_param("   ").is_none());
}

#[test]
fn return_comma_form() {
    let r = parse_return("int, a count").unwrap();
    assert_eq!(r.return_type, "int");
    assert_eq!(r.description, "a count");
}

#[test]
fn return_bare_type() {
    let r = parse_return("int").unwrap();
    assert_eq!(r.return_type, "int");
    assert_eq!(r.description, "");
}

#[test]
fn return_space_form() {
    let r = parse_return("table the result").unwrap();
    assert_eq!(r.return_type, "table");
    assert_eq!(r.description, "the result");
}

#[test]
fn doc_comment_recognition() {
    assert!(is_doc_comment("--@desc hi"));
    assert!(is_doc_comment("-- @param x:int"));
    assert!(is_doc_comment("-- plain prose"));
    assert!(is_doc_comment("  --@indented"));
    assert!(!is_doc_comment("--- separator"));
    assert!(!is_doc_comment("-- TODO fix this"));
    assert!(!is_doc_comment("-- FIXME broken"));
    assert!(!is_doc_comment("local x = 1"));
}

#[test]
fn doc_content_extraction() {
    assert_eq!(extract_doc_content("  --@desc hi  "), "desc hi");
    assert_eq!(extract_doc_content("-- @class Foo"), "class Foo");
    assert_eq!(extract_doc_content("-- prose line"), "prose line");
}

#[test]
fn desc_lines_merge_with_single_space() {
    let docs = scan_one(
        "--@desc Part one.\n--@desc Part two.\nfunction M.foo()\n",
    );
    assert_eq!(docs.len(), 1);
    let funcs = docs.functions_at(0);
    assert_eq!(funcs[0].description, "Part one. Part two.");
}

#[test]
fn implicit_description_first_comment_line() {
    let docs = scan_one("--@ Frobnicates the widget.\nfunction M.frob()\n");
    let funcs = docs.functions_at(0);
    assert_eq!(funcs[0].description, "Frobnicates the widget.");
}

#[test]
fn last_class_tag_wins() {
    let docs = scan_one("--@class A\n--@class B\n--@desc d\nlocal function go()\n");
    assert_eq!(docs.category_at(0), "B");
    assert_eq!(docs.functions_at(0)[0].name, "go");
}

#[test]
fn window_two_blank_lines_associates() {
    let docs = scan_one("--@desc d\n\n\nfunction M.foo()\n");
    assert_eq!(docs.len(), 1);
    assert_eq!(docs.category_at(0), "M");
    assert_eq!(docs.functions_at(0)[0].name, "foo");
}

#[test]
fn window_four_blank_lines_drops_block() {
    let docs = scan_one("--@desc d\n\n\n\n\nfunction M.foo()\n");
    assert_eq!(docs.len(), 0);
}

#[test]
fn method_line_without_class_context() {
    let docs = scan_one("-- @desc Updates the state.\nobj:update(dt)\n");
    assert_eq!(docs.len(), 1);
    assert_eq!(docs.category_at(0), "obj");
    assert_eq!(docs.functions_at(0)[0].name, "update");
}

#[test]
fn full_block_with_params_and_returns() {
    let src = "--@class Math\n--@desc Adds numbers.\n--@param a:number the first\n--@param b, number, the second\n--@return number, the sum\nfunction Math.add(a, b)\n";
    let docs = scan_one(src);
    assert_eq!(docs.len(), 1);
    assert_eq!(docs.category_at(0), "Math");
    let f = &docs.functions_at(0)[0];
    assert_eq!(f.name, "add");
    assert_eq!(f.description, "Adds numbers.");
    assert_eq!(
        f.params,
        vec![
            Param {
                name: "a".to_string(),
                param_type: "number".to_string(),
                description: "the first".to_string(),
            },
            Param {
                name: "b".to_string(),
                param_type: "number".to_string(),
                description: "the second".to_string(),
            },
        ]
    );
    assert_eq!(
        f.returns,
        vec![Return { return_type: "number".to_string(), description: "the sum".to_string() }]
    );
}

#[test]
fn malformed_param_is_skipped_block_continues() {
    let src = "--@desc d\n--@param nonsense\n--@param ok:int fine\nfunction M.f()\n";
    let docs = scan_one(src);
    let f = &docs.functions_at(0)[0];
    assert_eq!(f.params.len(), 1);
    assert_eq!(f.params[0].name, "ok");
}

#[test]
fn bare_at_line_is_ignored() {
    let docs = scan_one("--@@\n--@desc kept\nfunction M.f()\n");
    assert_eq!(docs.functions_at(0)[0].description, "kept");
}

#[test]
fn same_category_across_blocks_appends_in_order() {
    let src = "--@desc first\nfunction M.a()\n\n--@desc second\nfunction M.b()\n\n--@desc other\nfunction N.c()\n";
    let docs = scan_one(src);
    assert_eq!(docs.len(), 2);
    assert_eq!(docs.category_at(0), "M");
    assert_eq!(docs.category_at(1), "N");
    let m = docs.functions_at(0);
    assert_eq!(m.len(), 2);
    assert_eq!(m[0].name, "a");
    assert_eq!(m[1].name, "b");
}

#[test]
fn multiple_sources_merge_in_order() {
    let s1 = "--@desc one\nfunction M.a()\n".to_string();
    let s2 = "--@desc two\nfunction M.b()\n--@desc three\nfunction Z.c()\n".to_string();
    let docs = scan_directory(&vec![s1, s2]);
    assert_eq!(docs.len(), 2);
    assert_eq!(docs.category_at(0), "M");
    let m = docs.functions_at(0);
    assert_eq!(m[0].name, "a");
    assert_eq!(m[1].name, "b");
    assert_eq!(docs.category_at(1), "Z");
}

#[test]
fn block_without_declaration_yields_nothing() {
    let docs = scan_one("--@desc orphan\nlocal x = 1\nlocal y = 2\nlocal z = 3\n");
    assert_eq!(docs.len(), 0);
}

#[test]
fn empty_input_yields_empty_documentation() {
    let docs = scan_one("");
    assert_eq!(docs.len(), 0);
    let none = scan_directory(&Vec::new());
    assert_eq!(none.len(), 0);
}

#[test]
fn scanner_is_idempotent_over_unchanged_input() {
    let src = "--@class T\n--@desc d\n--@param x:int v\nlocal function t()\n\nobj:go(a)\n".to_string();
    let d1 = scan_directory(&vec![src.clone(), src.clone()]);
    let d2 = scan_directory(&vec![src.clone(), src]);
    assert_eq!(d1, d2);
}

#[test]
fn parse_function_doc_advances_cursor() {
    let lines: Vec<String> = vec![
        "--@desc d".to_string(),
        "function M.f()".to_string(),
    ];
    let mut i: usize = 0;
    let r = parse_function_doc(&lines, &mut i);
    assert_eq!(i, 1);
    let (cat, f) = r.unwrap();
    assert_eq!(cat, "M");
    assert_eq!(f.name, "f");
}

#[test]
fn crlf_lines_are_handled() {
    let docs = scan_one("--@desc d\r\nfunction M.f()\r\n");
    assert_eq!(docs.len(), 1);
    assert_eq!(docs.functions_at(0)[0].description, "d");
}

#[test]
fn trailing_blanks_are_consumed_no_duplicate_entries() {
    let docs = scan_one("--@desc first\n\n--@desc second\nfunction M.foo()\n");
    assert_eq!(docs.len(), 1);
    let funcs = docs.functions_at(0);
    assert_eq!(funcs.len(), 1);
    assert_eq!(funcs[0].name, "foo");
    assert_eq!(funcs[0].description, "first");
}

#[test]
fn cursor_advances_past_trailing_blank_lines() {
    let lines: Vec<String> = vec![
        "--@desc d".to_string(),
        "".to_string(),
        "function M.f()".to_string(),
    ];
    let mut i: usize = 0;
    let r = parse_function_doc(&lines, &mut i);
    assert_eq!(i, 2);
    let (cat, f) = r.unwrap();
    assert_eq!(cat, "M");
    assert_eq!(f.name, "f");
}

#[test]
fn bare_return_tag_degrades_never_drops() {
    let docs = scan_one("--@desc d\n--@return\nfunction M.f()\n");
    let f = &docs.functions_at(0)[0];
    assert_eq!(f.description, "d");
    assert_eq!(
        f.returns,
        vec![Return { return_type: "any".to_string(), description: String::new() }]
    );
}

#[test]
fn bare_return_tag_is_not_a_description() {
    let docs = scan_one("--@return\nfunction M.f()\n");
    let f = &docs.functions_at(0)[0];
    assert_eq!(f.description, "");
    assert_eq!(f.returns.len(), 1);
    assert_eq!(f.returns[0].return_type, "any");
}

#[test]
fn bare_param_tag_is_dropped_silently() {
    let docs = scan_one("--@param\nfunction M.f()\n");
    let f = &docs.functions_at(0)[0];
    assert_eq!(f.description, "");
    assert!(f.params.is_empty());
}

#[test]
fn param_colon_splits_on_any_whitespace() {
    let p = parse_param("x:int\tthe x value").unwrap();
    assert_eq!(p.name, "x");
    assert_eq!(p.param_type, "int");
    assert_eq!(p.description, "the x value");
}

#[test]
fn return_splits_on_any_whitespace() {
    let r = parse_return("int\ta count").unwrap();
    assert_eq!(r.return_type, "int");
    assert_eq!(r.description, "a count");
}
