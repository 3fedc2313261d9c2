//! Tests for the script parser and the graph builder.

use mnemosyne::engine::parse_and_build;
use mnemosyne::errors::{BuildError, EngineError, ParseError};
use mnemosyne::graph::build;
use mnemosyne::parser::parse;

#[test]
fn parse_single_block() {
    let text = "::START\nHello there.\n>ROOM1|go|Onward\n%%\n";
    let blocks = parse(text).unwrap();
    assert_eq!(blocks.len(), 1);
    assert_eq!(blocks[0].id, "START");
    assert_eq!(blocks[0].content, "Hello there.");
    assert_eq!(blocks[0].children.len(), 1);
    assert_eq!(blocks[0].children[0].target_id, "ROOM1");
    assert_eq!(blocks[0].children[0].command, "go");
    assert_eq!(blocks[0].children[0].label, "Onward");
}

#[test]
fn parse_multiline_content() {
    let text = "::A\nfirst line\nsecond line\n%%";
    let blocks = parse(text).unwrap();
    assert_eq!(blocks.len(), 1);
    assert_eq!(blocks[0].content, "first line\nsecond line");
}

#[test]
fn parse_choice_without_label() {
    let text = "::A\ntext\n>B|go\n%%";
    let blocks = parse(text).unwrap();
    assert_eq!(blocks[0].children[0].target_id, "B");
    assert_eq!(blocks[0].children[0].command, "go");
    assert_eq!(blocks[0].children[0].label, "");
}

#[test]
fn parse_label_keeps_extra_separators() {
    let text = "::A\ntext\n>B|go|left | right\n%%";
    let blocks = parse(text).unwrap();
    assert_eq!(blocks[0].children[0].label, "left | right");
}

#[test]
fn parse_ignores_lines_outside_blocks() {
    let text = "a stray remark\n\n::A\ntext\n%%\nanother stray line\n";
    let blocks = parse(text).unwrap();
    assert_eq!(blocks.len(), 1);
    assert_eq!(blocks[0].id, "A");
}

#[test]
fn parse_empty_text_has_no_blocks() {
    let blocks = parse("").unwrap();
    assert_eq!(blocks.len(), 0);
}

#[test]
fn parse_missing_id_fails() {
    let text = "::\ntext\n%%";
    assert_eq!(parse(text).err(), Some(ParseError::MissingId { line: 0 }));
}

#[test]
fn parse_missing_command_fails() {
    let text = "::A\ntext\n>B\n%%";
    assert_eq!(parse(text).err(), Some(ParseError::MissingCommand { line: 2 }));
}

#[test]
fn parse_empty_command_fails() {
    let text = "::A\ntext\n>B||label\n%%";
    assert_eq!(parse(text).err(), Some(ParseError::MissingCommand { line: 2 }));
}

#[test]
fn parse_unterminated_block_fails() {
    let text = "::A\ntext with no terminator";
    assert_eq!(parse(text).err(), Some(ParseError::UnterminatedBlock { line: 0 }));
}

#[test]
fn parse_unterminated_reports_header_of_open_block() {
    let text = "::A\ntext\n%%\n::B\nstill open";
    assert_eq!(parse(text).err(), Some(ParseError::UnterminatedBlock { line: 3 }));
}

#[test]
fn build_duplicate_id_fails() {
    let text = "::START\none\n%%\n::A\ntwo\n%%\n::A\nthree\n%%";
    let blocks = parse(text).unwrap();
    assert_eq!(build(&blocks).err(), Some(BuildError::DuplicateId(String::from("A"))));
}

#[test]
fn build_dangling_reference_fails() {
    let text = "::START\ntext\n>NOWHERE|go|Into the void\n%%";
    let blocks = parse(text).unwrap();
    assert_eq!(
        build(&blocks).err(),
        Some(BuildError::DanglingReference(String::from("NOWHERE")))
    );
}

#[test]
fn build_without_entry_fails() {
    let text = "::A\ntext\n%%";
    let blocks = parse(text).unwrap();
    assert_eq!(build(&blocks).err(), Some(BuildError::NoEntryPoint));
}

#[test]
fn build_empty_script_fails_without_entry() {
    let blocks = parse("").unwrap();
    assert_eq!(build(&blocks).err(), Some(BuildError::NoEntryPoint));
}

#[test]
fn build_success_entry_is_start() {
    let text = "::A\nfirst\n>START|back|Return\n%%\n::START\nentry\n>A|go|Away\n%%";
    let blocks = parse(text).unwrap();
    let g = build(&blocks).unwrap();
    assert_eq!(g.node_count(), 2);
    assert_eq!(g.node_id(g.entry()), "START");
}

#[test]
fn build_resolves_forward_and_self_references() {
    let text = "::START\nloop\n>START|again|Once more\n>END|stop|Leave\n%%\n::END\ndone\n%%";
    let blocks = parse(text).unwrap();
    let g = build(&blocks).unwrap();
    assert_eq!(g.edge_count(g.entry()), 2);
    assert_eq!(g.edge_target(g.entry(), 0), g.entry());
}

#[test]
fn parse_and_build_reports_parse_errors() {
    let r = parse_and_build("::A\nopen forever");
    assert_eq!(
        r.err(),
        Some(EngineError::Parse(ParseError::UnterminatedBlock { line: 0 }))
    );
}

#[test]
fn parse_and_build_reports_build_errors() {
    let r = parse_and_build("::A\ntext\n%%");
    assert_eq!(r.err(), Some(EngineError::Build(BuildError::NoEntryPoint)));
}

#[test]
fn present_lists_content_then_choices() {
    let text = "::START\nA fork in the road.\n>L|left|Take the left path\n>R|right|Take the right path\n%%\n::L\nleft room\n%%\n::R\nright room\n%%";
    let g = parse_and_build(text).unwrap();
    let shown = g.present(g.entry());
    assert_eq!(
        shown,
        "A fork in the road.\n[left] Take the left path\n[right] Take the right path"
    );
}
