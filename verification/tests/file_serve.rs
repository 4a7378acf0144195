use gemcaps::capsule::file::{
    canon_step, directory_action, file_success, file_target, CanonStep, DirAction, DirEntry,
    FileProbe, FileTarget,
};
use gemcaps::glob::Glob;
use gemcaps::pathutil::MimeTable;

fn table() -> MimeTable {
    MimeTable::new(vec![
        ("gmi".to_string(), "text/gemini".to_string()),
        ("bin".to_string(), "application/octet-stream".to_string()),
    ])
}

#[test]
fn test_file_target_resolution() {
    match file_target("/srv/root", "/dir/page%20one.gmi") {
        FileTarget::Target { read, probe, display } => {
            assert_eq!(read, "/srv/root/dir/page one.gmi");
            assert_eq!(probe, "/srv/root/dir/page one.gmi");
            assert_eq!(display, "/dir/page one.gmi");
        }
        _ => panic!("a plain path must resolve"),
    }
}

#[test]
fn test_file_target_denies_escape() {
    match file_target("/srv/root", "/../../etc/passwd") {
        FileTarget::Denied(resp) => {
            assert_eq!(resp.header(), "50 Permission denied\r\n");
        }
        _ => panic!("an escaping path must be denied"),
    }
    match file_target("/srv/root", "/a/%2e%2e/%2e%2e/b") {
        FileTarget::Denied(resp) => {
            assert_eq!(resp.header(), "50 Permission denied\r\n");
        }
        _ => panic!("an encoded escape must be denied"),
    }
}

#[test]
fn test_canonicalisation_directory_redirect() {
    // a request for "/dir" where dir is a directory
    match canon_step("/dir", "/dir", "/srv/dir", FileProbe::Directory, "") {
        CanonStep::Redirect(resp) => assert_eq!(resp.header(), "31 /dir/\r\n"),
        _ => panic!("a directory without a trailing slash redirects"),
    }
}

#[test]
fn test_canonicalisation_file_redirect() {
    // a request for "/file/" where file is a regular file: the missing
    // probe retries without the slash, and the file then redirects
    match canon_step("/file/", "/file/", "/srv/file/", FileProbe::Missing, "") {
        CanonStep::Retry { redirect_path, probe } => {
            assert_eq!(redirect_path, "/file");
            assert_eq!(probe, "/srv/file");
            match canon_step("/file/", &redirect_path, &probe, FileProbe::File, "") {
                CanonStep::Redirect(resp) => assert_eq!(resp.header(), "31 /file\r\n"),
                _ => panic!("the canonical path differs, so it redirects"),
            }
            // with a query the redirect is temporary and keeps the query
            match canon_step("/file/", &redirect_path, &probe, FileProbe::File, "q=1") {
                CanonStep::Redirect(resp) => assert_eq!(resp.header(), "30 /file?q=1\r\n"),
                _ => panic!("the canonical path differs, so it redirects"),
            }
        }
        _ => panic!("a missing path with a trailing slash is retried"),
    }
}

#[test]
fn test_canonicalisation_proceed_and_pass() {
    match canon_step("/dir/", "/dir/", "/srv/dir/", FileProbe::Directory, "") {
        CanonStep::Proceed => {}
        _ => panic!("a canonical path proceeds"),
    }
    match canon_step("/gone", "/gone", "/srv/gone", FileProbe::Missing, "") {
        CanonStep::Pass => {}
        _ => panic!("a missing path without a slash passes"),
    }
}

#[test]
fn test_file_success_mime() {
    // a capsule whose root holds index.gmi answers with its bytes
    let resp = file_success(&table(), "/srv/root/index.gmi", b"# Welcome\n".to_vec());
    assert_eq!(resp.to_bytes(), b"20 text/gemini\r\n# Welcome\n".to_vec());
}

#[test]
fn test_directory_denied_without_send_folders() {
    let entries = vec![DirEntry { name: b"notes.txt".to_vec(), is_dir: false }];
    match directory_action(&entries, false, &vec![], "/dir/") {
        DirAction::Denied(resp) => assert_eq!(resp.header(), "50 Permission denied\r\n"),
        _ => panic!("listings are not allowed here"),
    }
}

#[test]
fn test_directory_index_selection() {
    let entries = vec![
        DirEntry { name: b"sub".to_vec(), is_dir: true },
        DirEntry { name: b"other.gmi".to_vec(), is_dir: false },
        DirEntry { name: b"index.gmi".to_vec(), is_dir: false },
    ];
    let indexes = vec![Glob::new("index.*")];
    match directory_action(&entries, true, &indexes, "/dir/") {
        DirAction::ServeIndex(i) => assert_eq!(i, 2),
        _ => panic!("the index entry must be chosen"),
    }
}

#[test]
fn test_directory_listing_contents() {
    let entries = vec![
        DirEntry { name: b"zeta.gmi".to_vec(), is_dir: false },
        DirEntry { name: b"beta sub".to_vec(), is_dir: true },
        DirEntry { name: b"alpha.gmi".to_vec(), is_dir: false },
        DirEntry { name: b"archive".to_vec(), is_dir: true },
    ];
    match directory_action(&entries, true, &vec![], "/dir/") {
        DirAction::Listing(resp) => {
            assert_eq!(resp.status(), 20);
            assert_eq!(resp.meta(), "text/gemini");
            let body = String::from_utf8(resp.body().unwrap().clone()).unwrap();
            let expected = "# /dir/\n\n\
                => / \u{2b05}\u{fe0f}  Back\n\n\
                => /dir/archive/ \u{1f4c2} archive/\n\
                => /dir/beta%20sub/ \u{1f4c2} beta sub/\n\
                => /dir/alpha.gmi \u{1f4c3} alpha.gmi\n\
                => /dir/zeta.gmi \u{1f4c3} zeta.gmi\n";
            assert_eq!(body, expected);
        }
        _ => panic!("a bare directory with send_folders lists its contents"),
    }
}
