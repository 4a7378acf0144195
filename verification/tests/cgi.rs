use gemcaps::capsule::cgi::{
    cgi_env, cgi_output, cgi_search_start, cgi_step, interpreter_command, listen_port, ws_tokens,
    CgiProbe, CgiStart, CgiStep,
};
use gemcaps::capsule::file::DirEntry;
use gemcaps::glob::Glob;

#[test]
fn test_cgi_search_start_paths() {
    match cgi_search_start("/srv/cgi", "/a/b/s.py/x/y") {
        CgiStart::Search { file, cgi_path, original } => {
            assert_eq!(file, "/srv/cgi/a/b/s.py/x/y");
            assert_eq!(cgi_path, "/a/b/s.py/x/y");
            assert_eq!(original, "/a/b/s.py/x/y");
        }
        _ => panic!("a plain path starts a search"),
    }
    match cgi_search_start("/srv/cgi", "/../x") {
        CgiStart::Denied => {}
        _ => panic!("an escaping path is refused"),
    }
}

#[test]
fn test_cgi_step_resolution() {
    // walk /a/b/s.py/x/y right to left until the script file appears
    let exts = vec!["py".to_string()];
    let indexes: Vec<Glob> = vec![];
    let step = cgi_step(
        "/srv/cgi/a/b/s.py/x/y",
        "/a/b/s.py/x/y",
        "/a/b/s.py/x/y",
        &CgiProbe::Missing,
        &exts,
        &indexes,
    );
    let (file, cgi_path) = match step {
        CgiStep::Ascend { file, cgi_path } => (file, cgi_path),
        _ => panic!("a missing path ascends"),
    };
    assert_eq!(file, "/srv/cgi/a/b/s.py/x");
    assert_eq!(cgi_path, "/a/b/s.py/x");
    let step = cgi_step(&file, &cgi_path, "/a/b/s.py/x/y", &CgiProbe::Missing, &exts, &indexes);
    let (file, cgi_path) = match step {
        CgiStep::Ascend { file, cgi_path } => (file, cgi_path),
        _ => panic!("still missing, still ascending"),
    };
    assert_eq!(file, "/srv/cgi/a/b/s.py");
    assert_eq!(cgi_path, "/a/b/s.py");
    let step = cgi_step(&file, &cgi_path, "/a/b/s.py/x/y", &CgiProbe::File, &exts, &indexes);
    match step {
        CgiStep::Found { file, script_name, path_info } => {
            assert_eq!(file, "/srv/cgi/a/b/s.py");
            assert_eq!(script_name, "/a/b/s.py");
            assert_eq!(path_info, "/x/y");
        }
        _ => panic!("the script file was found"),
    }
}

#[test]
fn test_cgi_step_extension_filter_and_index() {
    let exts = vec!["py".to_string()];
    let indexes = vec![Glob::new("index.*")];
    // a file with the wrong extension ascends
    match cgi_step("/srv/cgi/a.txt", "/a.txt", "/a.txt", &CgiProbe::File, &exts, &indexes) {
        CgiStep::Ascend { .. } => {}
        _ => panic!("a wrong extension is not a script"),
    }
    // a directory with a matching index script serves it
    let entries = vec![
        DirEntry { name: b"readme.txt".to_vec(), is_dir: false },
        DirEntry { name: b"index.py".to_vec(), is_dir: false },
    ];
    match cgi_step("/srv/cgi/a", "/a", "/a/x", &CgiProbe::Dir(entries), &exts, &indexes) {
        CgiStep::Found { file, script_name, path_info } => {
            assert_eq!(file, "/srv/cgi/a/index.py");
            assert_eq!(script_name, "/a");
            assert_eq!(path_info, "/x");
        }
        _ => panic!("the index script serves the directory"),
    }
}

#[test]
fn test_cgi_step_gives_up_at_the_root() {
    match cgi_step("/", "/", "/x", &CgiProbe::Missing, &vec![], &vec![]) {
        CgiStep::Pass => {}
        _ => panic!("nothing above the root"),
    }
}

#[test]
fn test_cgi_env_values() {
    // a script at cgi_root/a/b/s.py invoked as /a/b/s.py/x/y?q=1
    let env = cgi_env(
        "192.0.2.7",
        "/a/b/s.py",
        "example",
        "1965",
        "gemcaps/0.1.0",
        "/srv/cgi/a/b",
        "/srv/cgi/a/b/s.py",
        "gemini://example/a/b/s.py/x/y?q=1",
        "/a/b/s.py/x/y",
        "/x/y",
        "/srv/cgi/x/y",
        "q=1",
        None,
    );
    let get = |k: &str| -> String {
        env.iter().find(|(n, _)| n == k).map(|(_, v)| v.clone()).unwrap()
    };
    assert_eq!(get("SCRIPT_NAME"), "/a/b/s.py");
    assert_eq!(get("PATH_INFO"), "/x/y");
    assert_eq!(get("QUERY_STRING"), "q=1");
    assert_eq!(get("GEMINI_URL_PATH"), "/a/b/s.py/x/y");
    assert_eq!(get("GATEWAY_INTERFACE"), "1.1");
    assert_eq!(get("REMOTE_ADDR"), "192.0.2.7");
    assert_eq!(get("REMOTE_HOST"), "192.0.2.7");
    assert_eq!(get("REQUEST_METHOD"), "");
    assert_eq!(get("SERVER_NAME"), "example");
    assert_eq!(get("SERVER_PORT"), "1965");
    assert_eq!(get("SERVER_PROTOCOL"), "GEMINI");
    assert_eq!(get("GEMINI_DOCUMENT_ROOT"), "/srv/cgi/a/b");
    assert_eq!(get("GEMINI_SCRIPT_FILENAME"), "/srv/cgi/a/b/s.py");
    assert!(env.iter().all(|(n, _)| n != "PATH"));
}

#[test]
fn test_cgi_env_optional_parts() {
    let env = cgi_env(
        "192.0.2.7",
        "/s.py",
        "example",
        "1965",
        "gemcaps/0.1.0",
        "/srv/cgi",
        "/srv/cgi/s.py",
        "gemini://example/s.py",
        "/s.py",
        "",
        "",
        "",
        Some(&"/usr/bin".to_string()),
    );
    assert!(env.iter().all(|(n, _)| n != "PATH_INFO"));
    assert!(env.iter().all(|(n, _)| n != "PATH_TRANSLATED"));
    assert!(env.iter().all(|(n, _)| n != "QUERY_STRING"));
    let path = env.iter().find(|(n, _)| n == "PATH").map(|(_, v)| v.clone()).unwrap();
    assert_eq!(path, "/usr/bin");
}

#[test]
fn test_cgi_output_exit_status() {
    // the script exited with status 2 and wrote to stderr; the client
    // learns only the status
    let resp = cgi_output(false, 2, b"");
    assert_eq!(resp.to_bytes(), b"42 exited with status 2\r\n".to_vec());
}

#[test]
fn test_cgi_output_parses_stdout() {
    let resp = cgi_output(true, 0, b"20 text/gemini\r\n# Hi\n");
    assert_eq!(resp.status(), 20);
    assert_eq!(resp.meta(), "text/gemini");
    assert_eq!(resp.body().unwrap(), &b"# Hi\n".to_vec());

    let resp = cgi_output(true, 0, b"not a header");
    assert_eq!(resp.to_bytes(), b"42 invalid response header\r\n".to_vec());
}

#[test]
fn test_interpreter_command() {
    let c = interpreter_command("#!/usr/bin/env python3 -u\n", "/srv/cgi/s.py");
    assert_eq!(c.command, "/usr/bin/env");
    assert_eq!(c.args, vec!["python3".to_string(), "-u".to_string(), "/srv/cgi/s.py".to_string()]);

    let c = interpreter_command("print('hi')\n", "/srv/cgi/s.py");
    assert_eq!(c.command, "/srv/cgi/s.py");
    assert!(c.args.is_empty());
}

#[test]
fn test_ws_tokens() {
    assert_eq!(ws_tokens("  a\tbb  c \n"), vec!["a", "bb", "c"]);
    assert_eq!(ws_tokens(""), Vec::<String>::new());
}

#[test]
fn test_listen_port() {
    assert_eq!(listen_port("0.0.0.0:1965"), "1965");
    assert_eq!(listen_port("[::1]:1970"), "1970");
}
