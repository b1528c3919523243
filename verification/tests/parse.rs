use reqq::{merge_vars, parse_text, Env, ParseError, Request, ReqqError};

#[test]
fn url_is_normalized_with_trailing_slash() {
    let inner = parse_text("GET https://example.com").unwrap();
    assert_eq!(inner.method, "GET");
    assert_eq!(inner.url, "https://example.com/");
    assert!(inner.headers.is_empty());
    assert!(inner.body.is_none());
}

#[test]
fn url_with_path_kept_verbatim() {
    let inner = parse_text("GET https://example.com/a/b?q=1").unwrap();
    assert_eq!(inner.url, "https://example.com/a/b?q=1");
}

#[test]
fn extension_method_token_is_kept() {
    let inner = parse_text("PATCHX https://example.com").unwrap();
    assert_eq!(inner.method, "PATCHX");
}

#[test]
fn header_names_fold_to_lowercase() {
    let inner = parse_text("GET https://example.com\nX-Example-Header: VaLuE").unwrap();
    assert_eq!(inner.headers.len(), 1);
    assert_eq!(inner.headers[0].0, "x-example-header");
    assert_eq!(inner.headers[0].1, "VaLuE");
}

#[test]
fn header_value_keeps_later_colons() {
    let inner = parse_text("GET https://example.com\nh: a: b").unwrap();
    assert_eq!(inner.headers[0].1, "a: b");
}

#[test]
fn duplicate_headers_are_kept_in_order() {
    let inner = parse_text("GET https://example.com\nh: one\nh: two").unwrap();
    assert_eq!(inner.headers.len(), 2);
    assert_eq!(inner.headers[0].1, "one");
    assert_eq!(inner.headers[1].1, "two");
}

#[test]
fn blank_separator_line_seeds_the_body() {
    let inner = parse_text("GET https://example.com\nh: v\n\nbody").unwrap();
    assert_eq!(inner.body, Some("\nbody".to_owned()));
}

#[test]
fn trailing_blank_line_gives_empty_body() {
    let inner = parse_text("GET https://example.com\n\n").unwrap();
    assert_eq!(inner.body, Some("".to_owned()));
}

#[test]
fn empty_input_is_malformed() {
    assert_eq!(parse_text(""), Err(ParseError::MalformedRequestLine));
}

#[test]
fn request_line_without_space_is_malformed() {
    assert_eq!(parse_text("GET"), Err(ParseError::MalformedRequestLine));
}

#[test]
fn bad_method_token_is_rejected() {
    assert_eq!(parse_text("G@T https://example.com"), Err(ParseError::MethodError));
}

#[test]
fn relative_url_is_rejected() {
    assert_eq!(parse_text("GET notaurl"), Err(ParseError::UrlError));
}

#[test]
fn header_line_without_colon_space_fails_name_validation() {
    assert_eq!(
        parse_text("GET https://example.com\na:b: c"),
        Err(ParseError::HeaderNameError)
    );
}

#[test]
fn header_value_with_control_character_is_rejected() {
    assert_eq!(
        parse_text("GET https://example.com\nh: a\u{1}b"),
        Err(ParseError::HeaderValueError)
    );
}

#[test]
fn extra_args_win_over_environment_entries() {
    let env_entries = vec![
        ("a".to_owned(), serde_json::to_value(1).unwrap()),
        ("b".to_owned(), serde_json::to_value(2).unwrap()),
    ];
    let extra_args = vec![("a".to_owned(), serde_json::to_value(9).unwrap())];
    let merged = merge_vars(&env_entries, &extra_args);
    // The extra arguments follow the environment entries, so under the
    // last-writer-wins reading the binding of "a" is the extra-argument one.
    assert_eq!(merged.len(), 3);
    let mut last_a = None;
    let mut last_b = None;
    for (k, v) in merged.iter() {
        if k == "a" {
            last_a = Some(v.clone());
        }
        if k == "b" {
            last_b = Some(v.clone());
        }
    }
    assert_eq!(last_a, Some(serde_json::to_value(9).unwrap()));
    assert_eq!(last_b, Some(serde_json::to_value(2).unwrap()));
}

#[test]
fn raw_text_is_loaded_at_most_once() {
    let mut req = Request::new("a.reqq".to_owned());
    assert!(req.needs_text());
    req.provide_text("first".to_owned());
    assert!(!req.needs_text());
    req.provide_text("second".to_owned());
    assert_eq!(req.fstr, Some("first".to_owned()));
}

#[test]
fn parse_does_not_overwrite_raw_text() {
    let fstr = "GET https://example.com\nh: {{ v }}".to_owned();
    let env = Env {
        fpath: "".to_owned(),
        fstr: Some("{\"v\": \"x\"}".to_owned()),
    };
    let mut req = Request::new("a.reqq".to_owned());
    req.fstr = Some(fstr.clone());
    req.parse(Some(env), Vec::new()).unwrap();
    assert_eq!(req.fstr, Some(fstr));
    assert_eq!(req.inner.unwrap().headers[0].1, "x");
}

#[test]
fn expansion_without_placeholders_changes_nothing() {
    let fstr = "GET https://example.com\nh: v".to_owned();
    let env = Env {
        fpath: "".to_owned(),
        fstr: Some("{\"unused\": 1}".to_owned()),
    };
    let mut with_env = Request::new("a.reqq".to_owned());
    with_env.fstr = Some(fstr.clone());
    with_env.parse(Some(env), Vec::new()).unwrap();
    let direct = parse_text(&fstr).unwrap();
    let expanded = with_env.inner.unwrap();
    assert_eq!(expanded.method, direct.method);
    assert_eq!(expanded.url, direct.url);
    assert_eq!(expanded.headers, direct.headers);
    assert_eq!(expanded.body, direct.body);
}

#[test]
fn unbound_placeholder_fails_the_render() {
    let mut req = Request::new("a.reqq".to_owned());
    req.fstr = Some("GET https://example.com/{{ missing }}".to_owned());
    assert_eq!(req.parse(None, Vec::new()), Err(ReqqError::TemplateError));
}

#[test]
fn parsing_without_loaded_text_is_an_io_error() {
    let mut req = Request::new("a.reqq".to_owned());
    assert_eq!(req.parse(None, Vec::new()), Err(ReqqError::IoError));
}

#[test]
fn environment_that_is_not_an_object_is_a_format_error() {
    let env = Env {
        fpath: "".to_owned(),
        fstr: Some("[1, 2]".to_owned()),
    };
    let mut req = Request::new("a.reqq".to_owned());
    req.fstr = Some("GET https://example.com".to_owned());
    assert_eq!(req.parse(Some(env), Vec::new()), Err(ReqqError::FormatError));
}

#[test]
fn unloaded_environment_is_an_io_error() {
    let env = Env::new("env.json".to_owned());
    let mut req = Request::new("a.reqq".to_owned());
    req.fstr = Some("GET https://example.com".to_owned());
    assert_eq!(req.parse(Some(env), Vec::new()), Err(ReqqError::IoError));
}

#[test]
fn name_strips_directory_slash_and_extension() {
    let req = Request::new("dir/a/b.reqq".to_owned());
    assert_eq!(req.name("dir"), "a/b");
}

#[test]
fn name_with_unrelated_directory_strips_nothing_in_front() {
    let req = Request::new("other/x.reqq".to_owned());
    assert_eq!(req.name(".reqq"), "other/x");
}

#[test]
fn name_strips_repeated_extension() {
    let req = Request::new(".reqq/a.reqq.reqq".to_owned());
    assert_eq!(req.name(".reqq"), "a");
}
