use reqq::{Env, Request};

#[test]
fn test_request_name() {
    let dir = ".reqq";
    let fpath = ".reqq/nested/example-request.reqq".to_owned();

    let req = Request::new(fpath);
    assert!(req.name(dir) == "nested/example-request");
}

#[test]
fn test_request_file_no_body() {
    let fpath = ".reqq/nested/exammple-request.reqq".to_owned();
    let fstr = "GET https://example.com\nx-example-header: lolwat".to_owned();

    let mut req = Request::new(fpath);
    req.fstr = Some(fstr);
    let empty_extra_args: Vec<(String, serde_json::Value)> = Vec::new();

    req.parse(None, empty_extra_args).expect("Failed to parse request.");
    let inner = req.clone().inner.unwrap();

    assert!(inner.method.as_str() == "GET");
    assert!(inner.url.as_str() == "https://example.com/");
    assert!(inner.headers[0].0 == "x-example-header");
    assert!(inner.headers[0].1 == "lolwat");
    assert!(inner.body == None);
}

#[test]
fn test_request_file_with_body() {
    let fpath = ".reqq/nested/exammple-request.reqq".to_owned();
    let fstr = "POST https://example.com\nx-example-header: lolwat\n\nrequest body content"
        .to_owned();

    let mut req = Request::new(fpath);
    req.fstr = Some(fstr);
    let empty_extra_args: Vec<(String, serde_json::Value)> = Vec::new();

    req.parse(None, empty_extra_args).expect("Failed to parse request.");
    let inner = req.clone().inner.unwrap();

    assert!(inner.method.as_str() == "POST");
    assert!(inner.url.as_str() == "https://example.com/");
    assert!(inner.headers[0].0 == "x-example-header");
    assert!(inner.headers[0].1 == "lolwat");
    assert!(inner.body == Some("\nrequest body content".to_owned()));
}

#[test]
fn test_request_with_env() {
    let fpath = ".reqq/nested/exammple-request.reqq".to_owned();
    let fstr =
        "POST https://example.com\nx-example-header: {{ headerVal }}\n\nrequest {{ shwat }} content"
            .to_owned();

    let env_str = "{\"headerVal\": \"lolwat\", \"shwat\": 5 }".to_owned();
    let env = Env { fpath: "".to_owned(), fstr: Some(env_str) };

    let mut req = Request::new(fpath);
    req.fstr = Some(fstr);
    let empty_extra_args: Vec<(String, serde_json::Value)> = Vec::new();

    req.parse(Some(env), empty_extra_args).expect("Failed to parse request.");
    let inner = req.clone().inner.unwrap();

    assert!(inner.method.as_str() == "POST");
    assert!(inner.url.as_str() == "https://example.com/");
    assert!(inner.headers[0].0 == "x-example-header");
    assert!(inner.headers[0].1 == "lolwat");
    assert!(inner.body == Some("\nrequest 5 content".to_owned()));
}

#[test]
fn test_request_with_env_and_extra_args() {
    let fpath = ".reqq/nested/exammple-request.reqq".to_owned();
    let fstr =
        "POST https://example.com\nx-example-header: {{ headerVal }}\n\nrequest {{ shwat }} {{ asdf }} content"
            .to_owned();

    let env_str = "{\"headerVal\": \"lolwat\", \"shwat\": 5 }".to_owned();
    let env = Env { fpath: "".to_owned(), fstr: Some(env_str) };

    let mut req = Request::new(fpath);
    req.fstr = Some(fstr);
    let mut extra_args: Vec<(String, serde_json::Value)> = Vec::new();
    let key = "asdf".to_owned();
    let value = "thing";
    extra_args.push((key, serde_json::to_value(value).unwrap()));

    req.parse(Some(env), extra_args).expect("Failed to parse request.");
    let inner = req.clone().inner.unwrap();

    assert!(inner.method.as_str() == "POST");
    assert!(inner.url.as_str() == "https://example.com/");
    assert!(inner.headers[0].0 == "x-example-header");
    assert!(inner.headers[0].1 == "lolwat");
    assert!(inner.body == Some("\nrequest 5 thing content".to_owned()));
}

#[test]
fn test_request_with_only_extra_args() {
    let fpath = ".reqq/nested/exammple-request.reqq".to_owned();
    let fstr = "POST https://example.com\nx-example-header: lolwat\n\nrequest {{ asdf }} content"
        .to_owned();

    let mut req = Request::new(fpath);
    req.fstr = Some(fstr);
    let mut extra_args: Vec<(String, serde_json::Value)> = Vec::new();
    let key = "asdf".to_owned();
    let value = "thing";
    extra_args.push((key, serde_json::to_value(value).unwrap()));

    req.parse(None, extra_args).expect("Failed to parse request.");
    let inner = req.clone().inner.unwrap();

    assert!(inner.method.as_str() == "POST");
    assert!(inner.url.as_str() == "https://example.com/");
    assert!(inner.headers[0].0 == "x-example-header");
    assert!(inner.headers[0].1 == "lolwat");
    assert!(inner.body == Some("\nrequest thing content".to_owned()));
}
