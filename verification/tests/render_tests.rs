use mustache::compile_str;
use mustache::data::{map_from_pairs, Data};
use mustache::render::Template;

fn render_data(template: &Template, data: &Data) -> String {
    template
        .render_data_to_string(data)
        .expect("Failed to render data")
}

fn obj(pairs: Vec<(&str, Data)>) -> Data {
    map_from_pairs(
        pairs
            .into_iter()
            .map(|(k, v)| (k.to_string(), v))
            .collect(),
    )
}

#[test]
fn test_json_simple_string() {
    let template = compile_str("Hello, {{$name}}").expect("failed to compile");
    let ctx = obj(vec![("name", Data::Str("Ferris".to_string()))]);
    assert_eq!(render_data(&template, &ctx), "Hello, Ferris".to_string());
}

#[test]
fn test_json_simple_vec() {
    let template = compile_str("{{$v}}").expect("failed to compile");
    let v = vec![
        Data::Str("A".to_string()),
        Data::Str("B".to_string()),
        Data::Str("C".to_string()),
    ];
    let ctx = obj(vec![("v", Data::List(v))]);
    assert_eq!(render_data(&template, &ctx), "[\"A\",\"B\",\"C\"]".to_string());
}

#[test]
fn test_json_simple_map() {
    let template = compile_str("{{$v}}").expect("failed to compile");
    let v = obj(vec![
        ("k1", Data::Str("A".to_string())),
        ("k2", Data::Str("B".to_string())),
    ]);
    let ctx = obj(vec![("v", v)]);
    assert_eq!(
        render_data(&template, &ctx),
        "{\"k1\":\"A\",\"k2\":\"B\"}".to_string()
    );
}

#[test]
fn test_json_bool() {
    let template = compile_str("{{$b}}").expect("failed to compile");
    let b = true;
    let ctx = obj(vec![("b", Data::Bool(b))]);
    assert_eq!(render_data(&template, &ctx), "true".to_string());
}

#[test]
fn test_bool() {
    let template = compile_str("{{b}}").expect("failed to compile");
    let b = true;
    let ctx = obj(vec![("b", Data::Bool(b))]);
    assert_eq!(render_data(&template, &ctx), "true".to_string());
}

#[test]
fn test_top_json() {
    let template = compile_str("{{$-top-}}").expect("failed to compile");
    let b = true;
    let ctx = obj(vec![
        ("a", Data::Str("String".to_string())),
        ("b", Data::Bool(b)),
    ]);
    assert_eq!(
        render_data(&template, &ctx),
        "{\"a\":\"String\",\"b\":true}".to_string()
    );
}

#[test]
fn test_dot_json() {
    let template = compile_str("{{$.}}").expect("failed to compile");
    let b = true;
    let ctx = obj(vec![
        ("a", Data::Str("String".to_string())),
        ("b", Data::Bool(b)),
    ]);
    assert_eq!(
        render_data(&template, &ctx),
        "{\"a\":\"String\",\"b\":true}".to_string()
    );
}

#[test]
fn test_top_json_multi() {
    let template = compile_str("{{%-top-}}").expect("failed to compile");
    let ctx = obj(vec![
        ("a", Data::Str("String".to_string())),
        ("b", Data::Bool(true)),
    ]);
    assert_eq!(
        render_data(&template, &ctx),
        "{\n  \"a\": \"String\",\n  \"b\": true\n}".to_string()
    );
}

#[test]
fn test_dot_json_multi() {
    let template = compile_str("{{%.}}").expect("failed to compile");
    let b = true;
    let ctx = obj(vec![
        ("a", Data::Str("String".to_string())),
        ("b", Data::Bool(b)),
    ]);
    assert_eq!(
        render_data(&template, &ctx),
        "{\n  \"a\": \"String\",\n  \"b\": true\n}".to_string()
    );
}

#[test]
fn test_section() {
    let template = compile_str("{{#a}}{{$.}} {{/a}}").expect("failed to compile");
    let v = vec![
        Data::Str("String1".to_string()),
        Data::Str("String2".to_string()),
        Data::Str("String3".to_string()),
    ];
    let ctx = obj(vec![("a", Data::List(v))]);
    assert_eq!(render_data(&template, &ctx), "String1 String2 String3 ");
}

#[test]
fn test_top_section() {
    let template = compile_str("{{#-top-}}{{$.}}{{/-top-}}").expect("failed to compile");
    let ctx = obj(vec![
        ("a", Data::Str("String".to_string())),
        ("b", Data::Bool(true)),
    ]);
    assert_eq!(
        render_data(&template, &ctx),
        "{\"a\":\"String\",\"b\":true}".to_string()
    );
}

#[test]
fn test_top_section_multi() {
    let template = compile_str("{{#-top-}}{{%.}}{{/-top-}}").expect("failed to compile");
    let ctx = obj(vec![
        ("a", Data::Str("String".to_string())),
        ("b", Data::Bool(true)),
    ]);
    assert_eq!(
        render_data(&template, &ctx),
        "{\n  \"a\": \"String\",\n  \"b\": true\n}".to_string()
    );
}

#[test]
fn test_boolean_section() {
    let template = compile_str(
        "{{#bt}}This text is rendered!{{/bt}}{{#bf}}This text is NOT rendered!{{/bf}}",
    )
    .expect("failed to compile");
    let ctx = obj(vec![("bt", Data::Bool(true)), ("bf", Data::Bool(false))]);
    assert_eq!(
        render_data(&template, &ctx),
        "This text is rendered!".to_string()
    );
}

#[test]
fn test_rendering_vec_map_top() {
    let t = "{{#bf}}This text is NOT rendered{{/bf}}{{#fruits}}- {{$.}}\n{{/fruits}}\n{{$m}}\n{{$m.key3}}\n{{%-top-}}\n{{#bt}}This text is rendered!{{/bt}}";
    let template = compile_str(t).expect("failed to compile");
    let v = vec![
        Data::Str("Apple".to_string()),
        Data::Str("Cherry".to_string()),
        Data::Str("Orange".to_string()),
    ];
    let v2 = vec![
        Data::Bool(true),
        Data::Str("String1".to_string()),
        Data::Bool(false),
    ];
    let m = obj(vec![
        ("key1", Data::Str("Value1".to_string())),
        ("key2", Data::Bool(true)),
        ("key3", Data::List(v2)),
    ]);
    let ctx = obj(vec![
        ("fruits", Data::List(v)),
        ("m", m),
        ("bt", Data::Bool(true)),
        ("bf", Data::Bool(false)),
    ]);
    assert_eq!(
        render_data(&template, &ctx),
        "- Apple\n- Cherry\n- Orange\n{\"key1\":\"Value1\",\"key2\":true,\"key3\":[true,\"String1\",false]}\n[true,\"String1\",false]\n{\n  \"bf\": false,\n  \"bt\": true,\n  \"fruits\": [\n    \"Apple\",\n    \"Cherry\",\n    \"Orange\"\n  ],\n  \"m\": {\n    \"key1\": \"Value1\",\n    \"key2\": true,\n    \"key3\": [\n      true,\n      \"String1\",\n      false\n    ]\n  }\n}\nThis text is rendered!"
    );
}

#[test]
fn test_vec_at() {
    let template = compile_str("{{#v}}{{@}} {{/v}}").expect("failed to compile");
    let v = vec![
        Data::Str("A".to_string()),
        Data::Str("B".to_string()),
        Data::Str("C".to_string()),
    ];
    let ctx = obj(vec![("v", Data::List(v))]);
    assert_eq!(render_data(&template, &ctx), "0 1 2 ".to_string());
}

#[test]
fn test_map_at() {
    let template = compile_str("{{#m}}{{@}} {{/m}}").expect("failed to compile");
    let m = obj(vec![
        ("key1", Data::Str("Value1".to_string())),
        ("key2", Data::Bool(true)),
        ("key3", Data::Str("Value3".to_string())),
    ]);
    let ctx = obj(vec![("m", m)]);
    assert_eq!(render_data(&template, &ctx), "key1 key2 key3 ".to_string());

    let template = compile_str("{{#m}}{{@}} {{@}} {{.}} {{/m}}").expect("failed to compile");
    let m = obj(vec![
        ("key1", Data::Str("Value1".to_string())),
        ("key2", Data::Bool(true)),
        ("key3", Data::Str("Value3".to_string())),
    ]);
    let ctx = obj(vec![("m", m)]);
    assert_eq!(
        render_data(&template, &ctx),
        "key1 key1 Value1 key2 key2 true key3 key3 Value3 ".to_string()
    );
}

#[test]
fn test_top_section_at() {
    let template = compile_str("{{#-top-}}{{@}} {{/-top-}}").expect("failed to compile");
    let ctx = obj(vec![
        ("a", Data::Str("String".to_string())),
        ("b", Data::Bool(true)),
    ]);
    assert_eq!(render_data(&template, &ctx), "a b ".to_string());

    let template = compile_str("{{#-top-}}{{@}} {{.}} {{/-top-}}").expect("failed to compile");
    let ctx = obj(vec![
        ("a", Data::Str("String".to_string())),
        ("b", Data::Bool(true)),
    ]);
    assert_eq!(render_data(&template, &ctx), "a String b true ".to_string());
}

#[test]
fn test_top_in_top_section_at() {
    let template =
        compile_str("{{#-top-}}{{@}} {{$-top-}} {{/-top-}}").expect("failed to compile");
    let ctx = obj(vec![
        ("a", Data::Str("String".to_string())),
        ("b", Data::Bool(true)),
    ]);
    assert_eq!(
        render_data(&template, &ctx),
        "a {\"a\":\"String\",\"b\":true} b {\"a\":\"String\",\"b\":true} ".to_string()
    );
}

#[test]
fn test_top_section_inside_vec_section() {
    let template = compile_str("{{#v}}{{@}} {{#-top-}}{{@}} {{$.}} {{/-top-}} {{/v}}")
        .expect("failed to compile");
    let v = vec![
        Data::Str("A".to_string()),
        Data::Str("B".to_string()),
        Data::Str("C".to_string()),
    ];
    let ctx = obj(vec![("v", Data::List(v))]);
    assert_eq!(
        render_data(&template, &ctx),
        "0 v [\"A\",\"B\",\"C\"]  1 v [\"A\",\"B\",\"C\"]  2 v [\"A\",\"B\",\"C\"]  ".to_string()
    );
}

#[test]
fn test_top_section_inside_map_section() {
    let template = compile_str("{{#m}}{{@}} {{#-top-}}{{@}} {{$.}} {{/-top-}} {{/m}}")
        .expect("failed to compile");
    let m = obj(vec![
        ("key1", Data::Str("Value1".to_string())),
        ("key2", Data::Bool(true)),
        ("key3", Data::Str("Value3".to_string())),
    ]);
    let ctx = obj(vec![
        ("m", m),
        ("s", Data::Str("This is a string".to_string())),
    ]);
    assert_eq!(
        render_data(&template, &ctx),
        "key1 m {\"key1\":\"Value1\",\"key2\":true,\"key3\":\"Value3\"} s This is a string  key2 m {\"key1\":\"Value1\",\"key2\":true,\"key3\":\"Value3\"} s This is a string  key3 m {\"key1\":\"Value1\",\"key2\":true,\"key3\":\"Value3\"} s This is a string  ".to_string()
    );
}
