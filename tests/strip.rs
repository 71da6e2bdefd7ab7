use strip_json_comments::processor::JsonProcessor;
use strip_json_comments::{strip_json_comments, Options};

fn opts(trailing_commas: Option<bool>, whitespace: Option<bool>) -> Option<Options> {
    Some(Options {
        trailing_commas,
        whitespace,
    })
}

fn run(input: &str, trailing_commas: bool, whitespace: bool) -> String {
    strip_json_comments(
        input.to_string(),
        opts(Some(trailing_commas), Some(whitespace)),
    )
}

#[test]
fn no_comments_unchanged_both_modes() {
    let input = "{\"a\": [1, 2, 3], \"b\": {\"c\": \"d\"}}\n";
    assert_eq!(run(input, false, true), input);
    assert_eq!(run(input, false, false), input);
    assert_eq!(strip_json_comments(input.to_string(), None), input);
}

#[test]
fn empty_input() {
    assert_eq!(strip_json_comments(String::new(), None), "");
    assert_eq!(run("", true, false), "");
}

#[test]
fn whitespace_mode_keeps_length() {
    let input = "{/* a */\"x\": [1, 2,],// tail\r\n\"y\":3,}//end";
    let out = run(input, true, true);
    assert_eq!(out.len(), input.len());
    assert_eq!(out, "{       \"x\": [1, 2 ],       \r\n\"y\":3 }     ");
}

#[test]
fn comment_markers_inside_strings_are_kept() {
    let input = "{\"url\":\"http://example.com/*x*/\",}";
    assert_eq!(run(input, false, true), input);
    assert_eq!(run(input, false, false), input);
    assert_eq!(run(input, true, false), "{\"url\":\"http://example.com/*x*/\"}");
}

#[test]
fn escaped_quote_does_not_end_string() {
    let input = "{\"a\":\"say \\\"//hi\\\" now\"}";
    assert_eq!(run(input, false, true), input);
    assert_eq!(run(input, false, false), input);
}

#[test]
fn escaped_backslash_before_quote_ends_string() {
    let input = "{\"a\":\"x\\\\\"//c\n}";
    assert_eq!(run(input, false, true), "{\"a\":\"x\\\\\"   \n}");
    assert_eq!(run(input, false, false), "{\"a\":\"x\\\\\"}");
}

#[test]
fn trailing_comma_resolution() {
    assert_eq!(run("{\"a\":1,}", true, true), "{\"a\":1 }");
    assert_eq!(run("{\"a\":1,}", true, false), "{\"a\":1}");
    assert_eq!(run("{\"a\":1, \"b\":2}", true, true), "{\"a\":1, \"b\":2}");
    assert_eq!(run("{\"a\":1, \"b\":2}", true, false), "{\"a\":1, \"b\":2}");
}

#[test]
fn trailing_comma_kept_when_option_off() {
    assert_eq!(strip_json_comments("{\"a\":1,}".to_string(), None), "{\"a\":1,}");
}

#[test]
fn trailing_comma_before_newline_and_bracket() {
    assert_eq!(run("[1, 2 ,\n]", true, true), "[1, 2  \n]");
    assert_eq!(run("[1, 2 ,\n]", true, false), "[1, 2 \n]");
}

#[test]
fn trailing_comma_with_comment_between() {
    assert_eq!(run("[1,/*x*/]", true, true), "[1      ]");
    assert_eq!(run("[1,/*x*/]", true, false), "[1]");
}

#[test]
fn double_comma_is_not_trailing() {
    assert_eq!(run("[1,,]", true, true), "[1,,]");
}

#[test]
fn example_single_line_default_options() {
    let out = strip_json_comments("{//rainbows\n\"unicorn\":\"cake\"}".to_string(), None);
    assert_eq!(out, "{          \n\"unicorn\":\"cake\"}");
}

#[test]
fn example_block_comment_removed() {
    let out = strip_json_comments(
        "/* block */ {\"x\": 1}".to_string(),
        opts(None, Some(false)),
    );
    assert_eq!(out, " {\"x\": 1}");
}

#[test]
fn example_trailing_comma_in_array() {
    assert_eq!(run("[\"a\",\"b\",]", true, false), "[\"a\",\"b\"]");
}

#[test]
fn example_unterminated_block_comment_is_kept() {
    let input = "{\"a\":1/*oops";
    assert_eq!(strip_json_comments(input.to_string(), None), input);
    assert_eq!(run(input, false, false), input);
    assert_eq!(run(input, true, true), input);
}

#[test]
fn newline_ends_single_line_comment() {
    assert_eq!(run("{//c\n\"a\":1}", false, true), "{   \n\"a\":1}");
    assert_eq!(run("{//c\n\"a\":1}", false, false), "{\"a\":1}");
}

#[test]
fn crlf_ends_single_line_comment() {
    assert_eq!(run("{//c\r\n}", false, true), "{   \r\n}");
    assert_eq!(run("{//c\r\n}", false, false), "{}");
}

#[test]
fn unterminated_single_line_comment_is_closed() {
    assert_eq!(run("{}//end", false, true), "{}     ");
    assert_eq!(run("{}//end", false, false), "{}");
}

#[test]
fn multibyte_text_in_comment_is_blanked() {
    assert_eq!(run("{/*\u{e9}*/}", false, true), "{      }");
    assert_eq!(run("{/*\u{e9}*/}", false, false), "{}");
    assert_eq!(run("{\"\u{e9}\"://x\n1}", false, true), "{\"\u{e9}\":   \n1}");
}

#[test]
fn default_options_match_none() {
    let input = "{/*c*/\"a\":1,}";
    assert_eq!(
        strip_json_comments(input.to_string(), opts(None, None)),
        strip_json_comments(input.to_string(), None)
    );
    assert_eq!(strip_json_comments(input.to_string(), None), "{     \"a\":1,}");
}

#[test]
fn processor_runs_directly() {
    let p = JsonProcessor::new("[1,//x\n]".to_string(), true, true);
    assert_eq!(p.process(), "[1    \n]");
}
