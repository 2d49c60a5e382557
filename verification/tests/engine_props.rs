use mustache::compile_str;
use mustache::data::{map_from_pairs, producer_new, Data};
use mustache::escape::{escape_chars, unescape_chars};
use mustache::render::{new, Template};
use mustache::token::Token;
use mustache::Error;

fn render_data(template: &Template, data: &Data) -> String {
    template
        .render_data_to_string(data)
        .expect("Failed to render data")
}

fn obj(pairs: Vec<(&str, Data)>) -> Data {
    map_from_pairs(
        pairs
            .into_iter()
            .map(|(k, v)| (k.to_string(), v))
            .collect(),
    )
}

#[test]
fn test_simple_interpolation() {
    let template = compile_str("Hello, {{name}}").expect("failed to compile");
    let ctx = obj(vec![("name", Data::Str("Ferris".to_string()))]);
    assert_eq!(render_data(&template, &ctx), "Hello, Ferris".to_string());
}

#[test]
fn test_missing_is_empty() {
    let template = compile_str("[{{gone}}][{{{gone}}}][{{a.b.c}}]").expect("failed to compile");
    let ctx = obj(vec![("a", Data::Str("x".to_string()))]);
    assert_eq!(render_data(&template, &ctx), "[][][]".to_string());
}

#[test]
fn test_escaping_exact_mapping() {
    let template = compile_str("{{v}}").expect("failed to compile");
    let ctx = obj(vec![("v", Data::Str("<>&\"'x".to_string()))]);
    assert_eq!(
        render_data(&template, &ctx),
        "&lt;&gt;&amp;&quot;&#39;x".to_string()
    );
}

#[test]
fn test_unescaped_tag() {
    let template = compile_str("{{{v}}} {{&v}}").expect("failed to compile");
    let ctx = obj(vec![("v", Data::Str("<b>".to_string()))]);
    assert_eq!(render_data(&template, &ctx), "<b> <b>".to_string());
}

#[test]
fn test_escape_round_trip() {
    let text: Vec<char> = "a<b>&c\"quoted\" 'd' plain".chars().collect();
    let escaped = escape_chars(&text);
    let expected: Vec<char> = "a&lt;b&gt;&amp;c&quot;quoted&quot; &#39;d&#39; plain"
        .chars()
        .collect();
    assert_eq!(escaped, expected);
    let back = unescape_chars(&escaped);
    assert_eq!(back, text);
}

#[test]
fn test_inverted_sections_falsy_set() {
    let template = compile_str("{{^e}}1{{/e}}{{^s}}2{{/s}}{{^f}}3{{/f}}{{^m}}4{{/m}}{{^n}}5{{/n}}")
        .expect("failed to compile");
    let ctx = obj(vec![
        ("e", Data::List(vec![])),
        ("s", Data::Str("x".to_string())),
        ("f", Data::Bool(false)),
        ("n", Data::Null),
    ]);
    assert_eq!(render_data(&template, &ctx), "1345".to_string());
}

#[test]
fn test_sequence_anchor_restored() {
    let template = compile_str("{{#v}}{{@}}{{/v}}[{{@}}]").expect("failed to compile");
    let v = vec![
        Data::Str("A".to_string()),
        Data::Str("B".to_string()),
        Data::Str("C".to_string()),
    ];
    let ctx = obj(vec![("v", Data::List(v))]);
    assert_eq!(render_data(&template, &ctx), "012[]".to_string());
}

#[test]
fn test_sequence_anchor_two_digits() {
    let template = compile_str("{{#v}}{{@}} {{/v}}").expect("failed to compile");
    let mut v: Vec<Data> = Vec::new();
    for _ in 0..11 {
        v.push(Data::Null);
    }
    let ctx = obj(vec![("v", Data::List(v))]);
    assert_eq!(render_data(&template, &ctx), "0 1 2 3 4 5 6 7 8 9 10 ");
}

#[test]
fn test_string_section_pushes_value() {
    let template = compile_str("{{#s}}[{{.}}]{{/s}}{{#e}}gone{{/e}}").expect("failed to compile");
    let ctx = obj(vec![
        ("s", Data::Str("hi".to_string())),
        ("e", Data::Str(String::new())),
    ]);
    assert_eq!(render_data(&template, &ctx), "[hi]".to_string());
}

#[test]
fn test_partial_indentation_composes() {
    // partial "a" nested (indent two spaces) inside partial "b" (indent "> "):
    // each of a's lines carries b's prefix then a's, and the prefix reverts
    // to b's alone when a returns
    let root = vec![Token::Partial("b".to_string(), "> ".to_string())];
    let b = vec![
        Token::Text("B1\n".to_string()),
        Token::Partial("a".to_string(), "  ".to_string()),
        Token::Text("B2\n".to_string()),
    ];
    let a = vec![Token::Text("ax\nay\n".to_string())];
    let template = new(
        root,
        vec![("a".to_string(), a), ("b".to_string(), b)],
        true,
    );
    let ctx = obj(vec![]);
    assert_eq!(
        render_data(&template, &ctx),
        "> B1\n>   ax\n>   ay\n> B2\n".to_string()
    );
}

#[test]
fn test_partial_standalone_capture() {
    let main = compile_str("start\n  {{>inner}}\nend\n").expect("failed to compile");
    let inner = compile_str("one\ntwo\n").expect("failed to compile");
    let template = new(main.tokens, vec![("inner".to_string(), inner.tokens)], true);
    let ctx = obj(vec![]);
    assert_eq!(
        render_data(&template, &ctx),
        "start\n  one\n  two\nend\n".to_string()
    );
}

#[test]
fn test_missing_partial_renders_nothing() {
    let template = compile_str("[{{>nope}}]").expect("failed to compile");
    let ctx = obj(vec![]);
    assert_eq!(render_data(&template, &ctx), "[]".to_string());
}

#[test]
fn test_lambda_replaces_section_children() {
    // the producer's output is compiled and rendered against the current
    // stack; the section's static children never render
    let template = compile_str("{{#f}}STATIC{{/f}}").expect("failed to compile");
    let ctx = obj(vec![
        ("f", Data::Fun(producer_new(|_src| "[{{x}}]".to_string()))),
        ("x", Data::Str("X".to_string())),
    ]);
    assert_eq!(render_data(&template, &ctx), "[X]".to_string());
}

#[test]
fn test_lambda_receives_raw_source() {
    let template = compile_str("{{#f}}a {{b}} c{{/f}}").expect("failed to compile");
    let ctx = obj(vec![(
        "f",
        Data::Fun(producer_new(|src| format!("<{}>", src))),
    )]);
    // the raw source text is handed to the producer and its output is
    // re-compiled, so the inner tag resolves (to nothing here)
    assert_eq!(render_data(&template, &ctx), "<a  c>".to_string());
}

#[test]
fn test_lambda_stateful() {
    let template = compile_str("{{f}}{{f}}{{f}}").expect("failed to compile");
    let mut n = 0u32;
    let ctx = obj(vec![(
        "f",
        Data::Fun(producer_new(move |_src| {
            n += 1;
            format!("{n}")
        })),
    )]);
    assert_eq!(render_data(&template, &ctx), "123".to_string());
}

#[test]
fn test_lambda_compile_failure_propagates() {
    let template = compile_str("{{#f}}x{{/f}}").expect("failed to compile");
    let ctx = obj(vec![(
        "f",
        Data::Fun(producer_new(|_src| "{{unclosed".to_string())),
    )]);
    assert_eq!(
        template.render_data_to_string(&ctx),
        Err(Error::UnclosedTag)
    );
}

#[test]
fn test_lambda_self_reference_is_bounded() {
    let template = compile_str("{{#a}}x{{/a}}").expect("failed to compile");
    let ctx = obj(vec![(
        "a",
        Data::Fun(producer_new(|_src| "{{#a}}x{{/a}}".to_string())),
    )]);
    assert_eq!(template.render_data_to_string(&ctx), Err(Error::TooDeep));
}

#[test]
fn test_incomplete_section_is_render_error() {
    let template = new(vec![Token::Incomplete], vec![], true);
    assert_eq!(
        template.render_data_to_string(&Data::Null),
        Err(Error::IncompleteSection)
    );
}

#[test]
fn test_compile_errors() {
    assert_eq!(compile_str("{{a").err(), Some(Error::UnclosedTag));
    assert_eq!(compile_str("{{#a}}x").err(), Some(Error::UnclosedSection));
    assert_eq!(
        compile_str("{{#a}}{{/b}}").err(),
        Some(Error::UnbalancedSection)
    );
    assert_eq!(compile_str("x{{/a}}").err(), Some(Error::UnbalancedSection));
    assert_eq!(
        compile_str("{{=<% %>=}}").err(),
        Some(Error::UnsupportedTag)
    );
}

#[test]
fn test_comment_skipped() {
    let template = compile_str("a{{! ignore me }}b").expect("failed to compile");
    let ctx = obj(vec![]);
    assert_eq!(render_data(&template, &ctx), "ab".to_string());
}

#[test]
fn test_map_overwrite_last_wins() {
    let pairs = vec![
        ("k".to_string(), Data::Str("first".to_string())),
        ("k".to_string(), Data::Str("second".to_string())),
    ];
    let ctx = map_from_pairs(pairs);
    let template = compile_str("{{k}}").expect("failed to compile");
    assert_eq!(render_data(&template, &ctx), "second".to_string());
}

#[test]
fn test_dotted_path_resolution() {
    let inner = obj(vec![("b", Data::Str("deep".to_string()))]);
    let ctx = obj(vec![("a", inner), ("c", Data::Str("top".to_string()))]);
    let template = compile_str("{{a.b}} {{c}} {{a.missing}}").expect("failed to compile");
    assert_eq!(render_data(&template, &ctx), "deep top ".to_string());
}

#[test]
fn test_scope_resolution_skips_non_maps() {
    // inner frames that are not mappings are skipped transparently
    let template = compile_str("{{#v}}{{outer}} {{/v}}").expect("failed to compile");
    let v = vec![Data::Str("A".to_string())];
    let ctx = obj(vec![
        ("v", Data::List(v)),
        ("outer", Data::Str("o".to_string())),
    ]);
    assert_eq!(render_data(&template, &ctx), "o ".to_string());
}

#[test]
fn test_value_equality() {
    assert!(Data::Str("a".to_string()) == Data::Str("a".to_string()));
    assert!(Data::Str("a".to_string()) != Data::Str("b".to_string()));
    assert!(Data::Null != Data::Bool(false));
    let l1 = Data::List(vec![Data::Bool(true), Data::Str("x".to_string())]);
    let l2 = Data::List(vec![Data::Bool(true), Data::Str("x".to_string())]);
    assert!(l1 == l2);
    let m1 = obj(vec![("k", Data::Str("v".to_string()))]);
    let m2 = obj(vec![("k", Data::Str("v".to_string()))]);
    let m3 = obj(vec![("k", Data::Str("w".to_string()))]);
    assert!(m1 == m2);
    assert!(m1 != m3);
}

#[test]
fn test_producers_compare_not_equal() {
    let p = Data::Fun(producer_new(|s| s));
    let q = Data::Fun(producer_new(|s| s));
    assert!(p != q);
    let same = &p;
    assert!(*same != p);
}

#[test]
fn test_map_iteration_is_sorted_whatever_the_insertion_order() {
    let m = obj(vec![
        ("zeta", Data::Str("3".to_string())),
        ("alpha", Data::Str("1".to_string())),
        ("mid", Data::Str("2".to_string())),
    ]);
    let ctx = obj(vec![("m", m)]);
    let template = compile_str("{{#m}}{{@}}={{.}} {{/m}}").expect("failed to compile");
    assert_eq!(render_data(&template, &ctx), "alpha=1 mid=2 zeta=3 ");
    let template = compile_str("{{$m}}").expect("failed to compile");
    assert_eq!(
        render_data(&template, &ctx),
        "{\"alpha\":\"1\",\"mid\":\"2\",\"zeta\":\"3\"}"
    );
}

#[test]
fn test_dot_section_over_list() {
    let template = compile_str("{{#a}}{{.}} {{/a}}").expect("failed to compile");
    let a = vec![
        Data::Str("String1".to_string()),
        Data::Str("String2".to_string()),
        Data::Str("String3".to_string()),
    ];
    let ctx = obj(vec![("a", Data::List(a))]);
    assert_eq!(render_data(&template, &ctx), "String1 String2 String3 ");
}

#[test]
fn test_two_boolean_sections() {
    let template = compile_str("{{#bt}}X{{/bt}}{{#bf}}Y{{/bf}}").expect("failed to compile");
    let ctx = obj(vec![("bt", Data::Bool(true)), ("bf", Data::Bool(false))]);
    assert_eq!(render_data(&template, &ctx), "X");
}

#[test]
fn test_expansion_limit_is_caller_settable() {
    let template = compile_str("{{#f}}x{{/f}}").expect("failed to compile");
    let ctx = obj(vec![(
        "f",
        Data::Fun(producer_new(|_src| "{{#f}}x{{/f}}".to_string())),
    )]);
    let mut out = String::new();
    assert_eq!(
        template.render_data_with_limit(&mut out, &ctx, 3),
        Err(Error::TooDeep)
    );
    assert_eq!(out, "");

    let plain = compile_str("plain text").expect("failed to compile");
    let mut out = String::new();
    assert!(plain.render_data_with_limit(&mut out, &Data::Null, 0).is_ok());
    assert_eq!(out, "plain text");
}
