use std::collections::HashMap;

use ccx::expansion::{clean_target, IncludeAction, IncludeEvent, IncludeExpander};
use ccx::inp::{Deck, ParseError};

fn expand(files: &HashMap<String, String>, root: &str) -> Result<Deck, ParseError> {
    let (mut ex, mut action) = IncludeExpander::start(root.to_string());
    loop {
        action = match action {
            IncludeAction::Normalize(p) => ex.step(IncludeEvent::Normalized(p)),
            IncludeAction::Read(p) => match files.get(&p) {
                Some(text) => ex.step(IncludeEvent::ReadOk(text.clone())),
                None => ex.step(IncludeEvent::ReadFailed(
                    "No such file or directory (os error 2)".to_string(),
                )),
            },
            IncludeAction::Resolve { from, target } => {
                let dir = match from.rfind('/') {
                    Some(i) => from[..i].to_string(),
                    None => String::new(),
                };
                let resolved = if target.starts_with('/') || dir.is_empty() {
                    target
                } else {
                    format!("{dir}/{target}")
                };
                ex.step(IncludeEvent::Resolved(resolved))
            }
            IncludeAction::Done(r) => return r,
        }
    }
}

fn fs_of(entries: &[(&str, &str)]) -> HashMap<String, String> {
    entries
        .iter()
        .map(|(p, t)| (p.to_string(), t.to_string()))
        .collect()
}

#[test]
fn parse_file_with_includes_expands_nested_cards() {
    let files = fs_of(&[
        ("/w/root.inp", "*NODE\n1,0,0,0\n*INCLUDE,INPUT=mid.inc\n*STEP\n*STATIC\n1.,1.\n"),
        ("/w/mid.inc", "*INCLUDE,INPUT=leaf.inc\n*ELEMENT,TYPE=C3D8\n1,1,1,1,1,1,1,1,1\n"),
        ("/w/leaf.inc", "*MATERIAL,NAME=STEEL\n"),
    ]);
    let deck = expand(&files, "/w/root.inp").expect("parse with includes");
    let keywords: Vec<&str> = deck.cards.iter().map(|c| c.keyword.as_str()).collect();
    assert!(keywords.contains(&"NODE"));
    assert!(keywords.contains(&"ELEMENT"));
    assert!(keywords.contains(&"MATERIAL"));
    assert_eq!(keywords.iter().filter(|kw| **kw == "INCLUDE").count(), 2);
    assert_eq!(
        keywords,
        vec!["NODE", "INCLUDE", "INCLUDE", "MATERIAL", "ELEMENT", "STEP", "STATIC"]
    );
}

#[test]
fn parse_file_with_includes_detects_cycles() {
    let files = fs_of(&[
        ("/w/a.inp", "*INCLUDE,INPUT=b.inc\n"),
        ("/w/b.inc", "*INCLUDE,INPUT=a.inp\n"),
    ]);
    let err = expand(&files, "/w/a.inp").expect_err("cycle should fail");
    assert!(err.message.contains("include cycle"));
    assert_eq!(
        err.message,
        "include cycle detected: /w/a.inp -> /w/b.inc -> /w/a.inp (while expanding include /w/a.inp) (while expanding include /w/b.inc)"
    );
    assert_eq!(err.line, 0);
}

#[test]
fn parse_file_with_includes_handles_comma_in_quoted_input_path() {
    let files = fs_of(&[
        ("/w/root.inp", "*INCLUDE, INPUT=\"leaf,part.inc\"\n*NODE\n1,0,0,0\n"),
        ("/w/leaf,part.inc", "*ELEMENT,TYPE=C3D8\n1,1,1,1,1,1,1,1,1\n"),
    ]);
    let deck = expand(&files, "/w/root.inp").expect("parse with include");
    let keywords: Vec<&str> = deck.cards.iter().map(|c| c.keyword.as_str()).collect();
    assert!(keywords.contains(&"INCLUDE"));
    assert!(keywords.contains(&"ELEMENT"));
    assert!(keywords.contains(&"NODE"));
}

#[test]
fn parse_file_with_includes_requires_input_parameter() {
    let files = fs_of(&[("/w/root.inp", "*INCLUDE\n*NODE\n1,0,0,0\n")]);
    let err = expand(&files, "/w/root.inp").expect_err("missing INPUT should fail");
    assert!(err.message.contains("missing INPUT parameter"));
    assert_eq!(err.line, 1);
}

#[test]
fn parse_file_with_includes_reports_missing_file() {
    let files = fs_of(&[("/w/root.inp", "*INCLUDE,INPUT=does_not_exist.inc\n")]);
    let err = expand(&files, "/w/root.inp").expect_err("missing include should fail");
    assert!(err.message.contains("while expanding include"));
    assert_eq!(err.line, 0);
    assert_eq!(
        err.message,
        "failed to read /w/does_not_exist.inc: No such file or directory (os error 2) (while expanding include /w/does_not_exist.inc)"
    );
}

#[test]
fn parse_file_with_includes_handles_single_quoted_input_path() {
    let files = fs_of(&[
        ("/w/root.inp", "*INCLUDE,INPUT='leaf.inc'\n"),
        ("/w/leaf.inc", "*NODE\n1,0,0,0\n"),
    ]);
    let deck = expand(&files, "/w/root.inp").expect("parse with include");
    let keywords: Vec<&str> = deck.cards.iter().map(|c| c.keyword.as_str()).collect();
    assert!(keywords.contains(&"INCLUDE"));
    assert!(keywords.contains(&"NODE"));
}

#[test]
fn missing_root_file_is_not_wrapped() {
    let files = fs_of(&[]);
    let err = expand(&files, "/w/none.inp").expect_err("missing root should fail");
    assert_eq!(err.message, "failed to read /w/none.inp: No such file or directory (os error 2)");
    assert_eq!(err.line, 0);
}

#[test]
fn parse_error_in_include_keeps_its_line() {
    let files = fs_of(&[
        ("/w/root.inp", "*NODE\n1,0,0,0\n*INCLUDE,INPUT=bad.inc\n"),
        ("/w/bad.inc", "** c\n1,2,3\n"),
    ]);
    let err = expand(&files, "/w/root.inp").expect_err("orphan data should fail");
    assert_eq!(err.line, 2);
    assert_eq!(
        err.message,
        "expected card starting with '*' (while expanding include /w/bad.inc)"
    );
}

#[test]
fn deck_without_includes_matches_plain_parse() {
    let text = "*NODE\n1,0,0,0\n*STEP\n";
    let files = fs_of(&[("model.inp", text)]);
    let expanded = expand(&files, "model.inp").expect("parse");
    let plain = Deck::parse_str(text).expect("parse");
    assert_eq!(expanded, plain);
}

#[test]
fn include_targets_are_cleaned() {
    assert_eq!(clean_target("  \"a.inc\" "), "a.inc");
    assert_eq!(clean_target("'b.inc'"), "b.inc");
    assert_eq!(clean_target("\"'c.inc'\""), "c.inc");
    assert_eq!(clean_target("\"\"\""), "");
}
