use gemcaps::gemini::{Request, Response};

#[test]
fn test_request() {
    let req = Request::new("gemini://localhost:1970/foo/?asdf\r\n".to_string()).unwrap();
    assert_eq!(req.protocol(), "gemini");
    assert_eq!(req.domain(), "localhost");
    assert_eq!(req.port(), "1970");
    assert_eq!(req.path(), "/foo/");
    assert_eq!(req.query(), "asdf");
}

#[test]
fn test_request_no_query() {
    let req = Request::new("gemini://localhost/\r\n".to_string()).unwrap();
    assert_eq!(req.protocol(), "gemini");
    assert_eq!(req.domain(), "localhost");
    assert_eq!(req.port(), "");
    assert_eq!(req.path(), "/");
    assert_eq!(req.query(), "");
}

#[test]
fn test_request_no_path() {
    let req = Request::new("gemini://localhost?asdf\r\n".to_string()).unwrap();
    assert_eq!(req.protocol(), "gemini");
    assert_eq!(req.domain(), "localhost");
    assert_eq!(req.port(), "");
    assert_eq!(req.path(), "");
    assert_eq!(req.query(), "asdf");
}

#[test]
fn test_request_domain_only() {
    let req = Request::new("gemini://localhost\r\n".to_string()).unwrap();
    assert_eq!(req.protocol(), "gemini");
    assert_eq!(req.domain(), "localhost");
    assert_eq!(req.port(), "");
    assert_eq!(req.path(), "");
    assert_eq!(req.query(), "");
}

#[test]
fn test_request_bad() {
    Request::new("gemini:/localhost\r\n".to_string()).expect_err("Should have an error");
}

#[test]
fn test_request_uri_concatenates_segments() {
    let req = Request::new("gemini://example.org:1965/dir/page.gmi?q=1\r\n".to_string()).unwrap();
    assert_eq!(req.uri(), "gemini://example.org:1965/dir/page.gmi?q=1");
    let rebuilt = format!(
        "{}://{}:{}{}?{}",
        req.protocol(),
        req.domain(),
        req.port(),
        req.path(),
        req.query()
    );
    assert_eq!(rebuilt, req.uri());
}

#[test]
fn test_request_equality_is_raw_equality() {
    let a = Request::new("gemini://example/x\r\n".to_string()).unwrap();
    let b = Request::new("gemini://example/x\r\n".to_string()).unwrap();
    let c = Request::new("gemini://example/y\r\n".to_string()).unwrap();
    assert!(a == b);
    assert!(!(a == c));
}

#[test]
fn test_response_header_and_bytes() {
    let r = Response::redirect_perm("/foo/bar");
    assert_eq!(r.header(), "31 /foo/bar\r\n");
    assert_eq!(r.to_bytes(), b"31 /foo/bar\r\n".to_vec());
    assert_eq!(r.status(), 31);
    assert_eq!(r.name(), "permanent redirect");
    assert_eq!(r.info(), "31 (permanent redirect)");

    let s = Response::success("text/gemini", b"hello".to_vec());
    assert_eq!(s.to_bytes(), b"20 text/gemini\r\nhello".to_vec());
    assert_eq!(s.body().unwrap(), &b"hello".to_vec());
}

#[test]
fn test_response_parse_round_trip() {
    let cases: Vec<Response> = vec![
        Response::input("give me a name"),
        Response::input_sensitive("password"),
        Response::success("text/gemini", b"# hi\n".to_vec()),
        Response::redirect_temp("/there"),
        Response::redirect_perm("/here"),
        Response::failure_temp("try later"),
        Response::server_unavail("down"),
        Response::cgi_error("boom"),
        Response::proxy_error("bad hop"),
        Response::slow_down("10"),
        Response::failure_perm("no"),
        Response::not_found("missing"),
        Response::gone("gone"),
        Response::proxy_refused("not here"),
        Response::bad_request("what"),
        Response::cert_required("cert please"),
        Response::cert_not_authorized("not yours"),
        Response::cert_invalid("expired"),
    ];
    for r in cases {
        let bytes = r.to_bytes();
        assert_eq!(bytes[2], b' ');
        assert!(bytes[0].is_ascii_digit() && bytes[1].is_ascii_digit());
        let back = Response::parse(&bytes).unwrap();
        assert_eq!(back.status(), r.status());
        assert_eq!(back.meta(), r.meta());
        match (back.body(), r.body()) {
            (Some(a), Some(b)) => assert_eq!(a, b),
            (None, None) => {}
            _ => panic!("body presence changed over the round trip"),
        }
    }
}

#[test]
fn test_response_parse_rejects() {
    assert!(Response::parse(b"").is_err());
    assert!(Response::parse(b"2").is_err());
    assert!(Response::parse(b"xx hello\r\n").is_err());
    assert!(Response::parse(b"21 unknown status\r\n").is_err());
    assert!(Response::parse(b"20 no line end").is_err());
    assert!(Response::parse(b"20 cr only\rstill the same line").is_err());
    // the meta line must be UTF-8
    assert!(Response::parse(b"20 \xff\xfe\r\n").is_err());
}

#[test]
fn test_response_parse_lenient_framing() {
    // a bare newline and no blank at all are accepted
    let r = Response::parse(b"20\r\nbody").unwrap();
    assert_eq!(r.status(), 20);
    assert_eq!(r.meta(), "");
    assert_eq!(r.body().unwrap(), &b"body".to_vec());
    let r = Response::parse(b"51 not found\n").unwrap();
    assert_eq!(r.status(), 51);
    assert_eq!(r.meta(), "not found");
    assert!(r.body().is_none());
}
