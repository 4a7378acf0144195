use gemcaps::config::{
    CapsuleConf, CgiConf, ConfItem, ConfParts, FileConf, RedirectConf, Rule,
};
use gemcaps::dispatch::{
    all_passed_response, failed_response, no_candidates_response, select_applications,
    select_redirect, CapsuleConfig,
};
use gemcaps::glob::Glob;

fn redirect_item(globs: Vec<&str>, target: &str) -> ConfItem {
    ConfItem::Redirect(RedirectConf {
        domain_names: globs.into_iter().map(Glob::new).collect(),
        redirect: target.to_string(),
        error_log: None,
        access_log: None,
    })
}

fn file_item(globs: Vec<&str>, root: &str, rule: Option<&str>) -> ConfItem {
    ConfItem::File(FileConf {
        domain_names: globs.into_iter().map(Glob::new).collect(),
        file_root: root.to_string(),
        send_folders: false,
        indexes: vec![],
        rule: rule.map(|r| Rule::new(r).unwrap()),
        error_log: None,
        access_log: None,
    })
}

fn capsule(items: Vec<ConfItem>) -> CapsuleConf {
    CapsuleConf {
        listen: "0.0.0.0:1965".to_string(),
        certificate: None,
        items,
        error_log: None,
        name: "test".to_string(),
    }
}

#[test]
fn test_sni_redirect_precedes_file() {
    // both items cover the SNI; the redirect is chosen before any handshake
    let conf = capsule(vec![
        redirect_item(vec!["mirror.example"], "localhost:1970"),
        file_item(vec!["*.example"], "/srv", None),
    ]);
    assert_eq!(select_redirect(&conf, "mirror.example"), Some(0));
}

#[test]
fn test_sni_redirect_first_match_wins() {
    let conf = capsule(vec![
        file_item(vec!["*"], "/srv", None),
        redirect_item(vec!["a.example"], "one:1"),
        redirect_item(vec!["*.example"], "two:2"),
    ]);
    assert_eq!(select_redirect(&conf, "a.example"), Some(1));
    assert_eq!(select_redirect(&conf, "b.example"), Some(2));
    assert_eq!(select_redirect(&conf, "elsewhere"), None);
}

#[test]
fn test_select_applications_order_and_rule() {
    let conf = capsule(vec![
        redirect_item(vec!["*"], "upstream:1965"),
        file_item(vec!["*.example"], "/one", Some("^/app/")),
        file_item(vec!["*.example"], "/two", None),
        file_item(vec!["other.host"], "/three", None),
    ]);
    // the redirect never joins; the rule filters by path; order is kept
    assert_eq!(select_applications(&conf, "www.example", "/app/x"), vec![1, 2]);
    assert_eq!(select_applications(&conf, "www.example", "/plain"), vec![2]);
    assert_eq!(select_applications(&conf, "other.host", "/app/x"), vec![3]);
    assert_eq!(select_applications(&conf, "nowhere", "/app/x"), vec![]);
}

#[test]
fn test_dispatcher_responses() {
    assert_eq!(failed_response().header(), "50 Internal server error\r\n");
    assert_eq!(
        no_candidates_response().header(),
        "51 Requested application not served here\r\n"
    );
    assert_eq!(all_passed_response().header(), "51 Resource not found\r\n");
}

#[test]
fn test_capsule_config_test() {
    let none = CapsuleConfig {
        name: "c".to_string(),
        domain: "example.org".to_string(),
        rules: vec![],
    };
    // an empty rule list matches every path
    assert!(none.test("example.org", "/anything"));
    assert!(!none.test("other.org", "/anything"));

    let some = CapsuleConfig {
        name: "c".to_string(),
        domain: "example.org".to_string(),
        rules: vec![Rule::new("^/a/").unwrap(), Rule::new("^/b/").unwrap()],
    };
    assert!(some.test("example.org", "/a/x"));
    assert!(some.test("example.org", "/b/y"));
    // a non-empty rule list needs at least one match
    assert!(!some.test("example.org", "/c/z"));
}

#[test]
fn test_conf_from_parts() {
    let parts = ConfParts {
        listen: None,
        certificate: Some("certs/x.crt".to_string()),
        certificate_key: Some("certs/x.key".to_string()),
        error_log: Some("logs/error.log".to_string()),
        access_log: Some("logs/access.log".to_string()),
        rule: None,
        domain_names: Some(vec![Glob::new("*.example")]),
        application: vec![
            redirect_item(vec![], "upstream:1965"),
            file_item(vec!["fixed.example"], "/srv", None),
        ],
    };
    let conf = CapsuleConf::from_parts(parts).unwrap();
    assert_eq!(conf.listen, "0.0.0.0:1965");
    assert!(conf.certificate.is_some());
    assert_eq!(conf.items.len(), 2);
    // the capsule defaults fill only what an entry lacks
    assert_eq!(conf.items[0].domain_names()[0].matchers(), Glob::new("*.example").matchers());
    assert_eq!(conf.items[1].domain_names()[0].matchers(), Glob::new("fixed.example").matchers());
    assert_eq!(conf.items[0].error_log().unwrap(), "logs/error.log");
    assert_eq!(conf.items[1].access_log().unwrap(), "logs/access.log");
}

#[test]
fn test_conf_from_parts_cert_pairing() {
    let parts = ConfParts {
        listen: None,
        certificate: Some("certs/x.crt".to_string()),
        certificate_key: None,
        error_log: None,
        access_log: None,
        rule: None,
        domain_names: None,
        application: vec![],
    };
    assert!(CapsuleConf::from_parts(parts).is_err());

    let cgi = ConfItem::CGI(CgiConf {
        domain_names: vec![],
        cgi_root: "cgi".to_string(),
        extensions: vec![],
        indexes: vec![],
        rule: None,
        error_log: None,
        access_log: None,
    });
    let parts = ConfParts {
        listen: Some("127.0.0.1:1970".to_string()),
        certificate: None,
        certificate_key: None,
        error_log: None,
        access_log: None,
        rule: Some(Rule::new("^/cgi/").unwrap()),
        domain_names: None,
        application: vec![cgi],
    };
    let conf = CapsuleConf::from_parts(parts).unwrap();
    assert_eq!(conf.listen, "127.0.0.1:1970");
    assert!(conf.certificate.is_none());
    assert_eq!(conf.items[0].rule().unwrap().pattern(), "^/cgi/");
}
