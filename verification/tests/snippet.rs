use mdlchef::snippet::find_mdl_snippet;

#[test]
fn request_alone_is_found() {
    let text = "{ version: \"MDL/1.1\", type: \"meme\", base: \"Meme.Plain\" }";
    assert_eq!(find_mdl_snippet(text), Some(text.to_string()));
}

#[test]
fn request_within_other_text_is_cut_out() {
    let text = "look at this: {version:\"MDL/1.1\", base:\"x\"} nice, right?";
    assert_eq!(find_mdl_snippet(text), Some("{version:\"MDL/1.1\", base:\"x\"}".to_string()));
}

#[test]
fn request_over_several_lines_is_found() {
    let text = "```js\n{\n  version: \"MDL/1.1\",\n  caption: {\n    topText: \"a\"\n  }\n}\n```";
    assert_eq!(
        find_mdl_snippet(text),
        Some("{\n  version: \"MDL/1.1\",\n  caption: {\n    topText: \"a\"\n  }\n}".to_string())
    );
}

#[test]
fn match_reaches_from_the_first_brace_to_the_last() {
    let text = "{a} {MDL/1.1} {b} tail";
    assert_eq!(find_mdl_snippet(text), Some("{a} {MDL/1.1} {b}".to_string()));
}

#[test]
fn message_without_the_language_mark_holds_no_request() {
    assert_eq!(find_mdl_snippet(""), None);
    assert_eq!(find_mdl_snippet("hello {world}"), None);
    assert_eq!(find_mdl_snippet("{ version: \"MDL/2.0\" }"), None);
    assert_eq!(find_mdl_snippet("{ version: \"mdl/1.1\" }"), None);
}

#[test]
fn mark_outside_of_braces_is_no_request() {
    assert_eq!(find_mdl_snippet("MDL/1.1 is the version"), None);
    assert_eq!(find_mdl_snippet("MDL/1.1 {}"), None);
    assert_eq!(find_mdl_snippet("{} MDL/1.1"), None);
    assert_eq!(find_mdl_snippet("} MDL/1.1 {"), None);
    assert_eq!(find_mdl_snippet("{ MDL/1.1"), None);
}

#[test]
fn dump_of_a_request_is_passed_over() {
    let text = "```js\n// MDLChef MDIR\nMdlMeme { version: \"MDL/1.1\" }\n```";
    assert_eq!(find_mdl_snippet(text), None);
    assert_eq!(find_mdl_snippet("{MDL/1.1} // MDLChef MDIR"), None);
}

#[test]
fn smallest_request_is_found() {
    assert_eq!(find_mdl_snippet("{MDL/1.}"), Some("{MDL/1.}".to_string()));
    assert_eq!(find_mdl_snippet("{MDL/1x}"), None);
}
