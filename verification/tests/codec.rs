use luadoc::codec::{encode_documentation, parse_documentation};
use luadoc::model::{Documentation, Function, Param, Return};
use luadoc::scan::scan_directory;

fn sample_docs() -> Documentation {
    let mut d = Documentation::new();
    d.insert(
        "Math".to_string(),
        Function {
            name: "add".to_string(),
            description: "Adds numbers.".to_string(),
            params: vec![Param {
                name: "a".to_string(),
                param_type: "number".to_string(),
                description: "the first".to_string(),
            }],
            returns: vec![Return {
                return_type: "number".to_string(),
                description: "the sum".to_string(),
            }],
        },
    );
    d
}

#[test]
fn encode_empty_documentation() {
    let d = Documentation::new();
    assert_eq!(encode_documentation(&d), "{}");
}

#[test]
fn encode_exact_output() {
    let d = sample_docs();
    assert_eq!(
        encode_documentation(&d),
        "{\"Math\":[{\"name\":\"add\",\"description\":\"Adds numbers.\",\"params\":[{\"name\":\"a\",\"type\":\"number\",\"description\":\"the first\"}],\"returns\":[{\"type\":\"number\",\"description\":\"the sum\"}]}]}"
    );
}

#[test]
fn parse_empty_documentation() {
    let d = parse_documentation("{}").unwrap();
    assert_eq!(d.len(), 0);
}

#[test]
fn parse_handwritten_interchange_text() {
    let text = "{\"M\":[{\"name\":\"foo\",\"description\":\"d\",\"params\":[],\"returns\":[]}]}";
    let d = parse_documentation(text).unwrap();
    assert_eq!(d.len(), 1);
    assert_eq!(d.category_at(0), "M");
    let f = &d.functions_at(0)[0];
    assert_eq!(f.name, "foo");
    assert_eq!(f.description, "d");
    assert!(f.params.is_empty());
    assert!(f.returns.is_empty());
}

#[test]
fn parse_rejects_malformed_text() {
    assert!(parse_documentation("").is_none());
    assert!(parse_documentation("[]").is_none());
    assert!(parse_documentation("{}x").is_none());
    assert!(parse_documentation("{\"M\":}").is_none());
}

#[test]
fn parse_accepts_surrounding_whitespace() {
    assert_eq!(parse_documentation("{}\n").unwrap().len(), 0);
    let text = "  {\"M\":[{\"name\":\"foo\",\"description\":\"d\",\"params\":[],\"returns\":[]}]}\n";
    let d = parse_documentation(text).unwrap();
    assert_eq!(d.len(), 1);
    assert_eq!(d.category_at(0), "M");
}

#[test]
fn round_trip_reproduces_every_field() {
    let d = sample_docs();
    let text = encode_documentation(&d);
    let back = parse_documentation(&text).unwrap();
    assert_eq!(back, d);
}

#[test]
fn round_trip_with_escaped_characters() {
    let mut d = Documentation::new();
    d.insert(
        "Esc".to_string(),
        Function {
            name: "f".to_string(),
            description: "say \"hi\" with a \\ and a\ttab".to_string(),
            params: Vec::new(),
            returns: Vec::new(),
        },
    );
    let text = encode_documentation(&d);
    let back = parse_documentation(&text).unwrap();
    assert_eq!(back, d);
}

#[test]
fn round_trip_of_scanned_documentation() {
    let src = "--@class Timer\n--@desc Resets the timer.\n--@param t:number the timer\n--@return boolean, whether it ran\nlocal function reset(t)\n\nobj:go(a)\n".to_string();
    let docs = scan_directory(&vec![src]);
    let text = encode_documentation(&docs);
    let back = parse_documentation(&text).unwrap();
    assert_eq!(back, docs);
}
