use mdbook_althtml::dict::DictValue;
use mdbook_althtml::post_processor::code_block::CodeBlockProcessor;
use mdbook_althtml::post_processor::header_link::HeaderLinkProcessor;
use mdbook_althtml::post_processor::hbs_processor::HbsProcessor;
use mdbook_althtml::post_processor::playpen::PlaypenConfig;
use mdbook_althtml::post_processor::playpen::PlaypenProcessor;
use mdbook_althtml::post_processor::Pipeline;
use mdbook_althtml::post_processor::PostProcessor;
use mdbook_althtml::post_processor::Stage;

fn playpen(editable: bool) -> PlaypenProcessor {
    PlaypenProcessor::new_with_config(&PlaypenConfig { editable, copy_js: true })
}

#[test]
fn header_gets_anchor() {
    let p = HeaderLinkProcessor::new();
    let out = p.execute("<h1>Hello World</h1>").unwrap();
    assert_eq!(
        out,
        "<h1><a class=\"header\" href=\"#hello-world\" id=\"hello-world\">Hello World</a></h1>"
    );
}

#[test]
fn duplicate_headers_get_numbered_ids() {
    let p = HeaderLinkProcessor::new();
    let out = p.execute("<h2>Dup</h2><h2>Dup</h2><h2>Dup</h2>").unwrap();
    assert_eq!(
        out,
        "<h2><a class=\"header\" href=\"#dup\" id=\"dup\">Dup</a></h2>\
         <h2><a class=\"header\" href=\"#dup-1\" id=\"dup-1\">Dup</a></h2>\
         <h2><a class=\"header\" href=\"#dup-2\" id=\"dup-2\">Dup</a></h2>"
    );
}

#[test]
fn page_without_headings_is_unchanged() {
    let p = HeaderLinkProcessor::new();
    let input = "<p>nothing to see</p>\n<code>let x = 1;</code>";
    assert_eq!(p.execute(input).unwrap(), input);
}

#[test]
fn code_block_classes_commas_become_spaces() {
    let p = CodeBlockProcessor::new();
    let out = p.execute("<code x class=\"rust,should_panic,ignore\" y>z</code>").unwrap();
    assert_eq!(out, "<code x class=\"rust should_panic ignore\" y>z</code>");
}

#[test]
fn code_block_without_commas_is_unchanged() {
    let p = CodeBlockProcessor::new();
    let input = "<code a class=\"rust ignore\">fn f() {}</code><p>t</p>";
    assert_eq!(p.execute(input).unwrap(), input);
}

#[test]
fn playpen_ignores_non_rust_blocks() {
    let p = playpen(false);
    let input = "<pre><code class=\"text\">hello</code></pre>";
    assert_eq!(p.execute(input).unwrap(), input);
}

#[test]
fn playpen_wraps_complete_program_verbatim() {
    let p = playpen(false);
    let out = p.execute("<code class=\"language-rust\">fn main() {}</code>").unwrap();
    assert_eq!(
        out,
        "<pre class=\"playpen\"><code class=\"language-rust\">fn main() {}</code></pre>"
    );
}

#[test]
fn playpen_injects_entry_point_around_fragment() {
    let p = playpen(false);
    let out = p.execute("<code class=\"language-rust\">let a = 1;</code>").unwrap();
    assert_eq!(
        out,
        "<pre class=\"playpen\"><code class=\"language-rust\">\n\
         # #![allow(unused_variables)]\n#fn main() {\nlet a = 1;\n#}</code></pre>"
    );
}

#[test]
fn playpen_all_header_body_gets_empty_main() {
    let p = playpen(false);
    let out = p.execute("<code class=\"language-rust\">#![allow(dead_code)]\n\n</code>").unwrap();
    assert_eq!(
        out,
        "<pre class=\"playpen\"><code class=\"language-rust\">\n\
         # #![allow(unused_variables)]\n#![allow(dead_code)]\n\n#fn main() {\n#}</code></pre>"
    );
}

#[test]
fn partition_source_splits_header_lines() {
    let (before, after) = PlaypenProcessor::partition_source("#![feature(x)]\n\nlet a = 1;\nmore");
    assert_eq!(before, "#![feature(x)]\n\n");
    assert_eq!(after, "let a = 1;\nmore\n");
}

#[test]
fn hbs_renders_rules_into_page() {
    let mut p = HbsProcessor::default();
    p.add_rule("marquee_start", "<marquee>").unwrap();
    let out = p.execute("a{{{marquee_start}}}b").unwrap();
    assert_eq!(out, "a<marquee>b");
}

#[test]
fn hbs_renders_plain_substitution() {
    let mut p = HbsProcessor::default();
    p.add_rule("a", "1").unwrap();
    assert_eq!(p.execute("x{{a}}y").unwrap(), "x1y");
}

#[test]
fn hbs_reports_malformed_template() {
    let p = HbsProcessor::default();
    assert!(p.execute("x{{#if}}y").is_err());
}

#[test]
fn hbs_reports_unresolvable_placeholder() {
    let p = HbsProcessor::default();
    assert!(p.execute("x{{missing}}y").is_err());
}

#[test]
fn empty_pipeline_returns_input() {
    let pipeline: Pipeline<Stage> = Pipeline::new();
    assert_eq!(pipeline.run("anything at all").unwrap(), "anything at all");
}

#[test]
fn pipeline_composes_stages_in_order() {
    let input = "<h1>A,B</h1><code class=\"rust,ignore\">x</code>";
    let first = CodeBlockProcessor::new();
    let second = HeaderLinkProcessor::new();
    let by_hand = second.execute(&first.execute(input).unwrap()).unwrap();

    let mut pipeline: Pipeline<Stage> = Pipeline::new();
    pipeline.add_stage(Stage::CodeBlock(CodeBlockProcessor::new()));
    pipeline.add_stage(Stage::HeaderLink(HeaderLinkProcessor::new()));
    assert_eq!(pipeline.run(input).unwrap(), by_hand);
}

#[test]
fn pipeline_propagates_stage_failure() {
    let mut pipeline: Pipeline<Stage> = Pipeline::new();
    pipeline.add_stage(Stage::Hbs(HbsProcessor::default()));
    assert!(pipeline.run("{{#broken").is_err());
}

#[test]
fn hbs_renders_integer_and_boolean_leaves() {
    let mut p = HbsProcessor::default();
    p.merge(&DictValue::Obj(vec![
        ("n".to_string(), DictValue::Int(7)),
        ("f".to_string(), DictValue::Bool(true)),
    ]));
    assert_eq!(p.execute("{{n}}-{{f}}").unwrap(), "7-true");
}
