use vstd::prelude::*;
use vstd::string::StrSliceExecFns;
use vstd::string::StringExecFns;
use vstd::utf8::{decode_utf8, encode_utf8, valid_utf8};

use crate::capsule::file::{decoded_path, strip_slash, DirEntry};
use crate::error::GemcapsError;
use crate::gemini::{spec_body, spec_meta, spec_parse, spec_status, Response};
use crate::glob::{glob_accepts, Glob};
use crate::pathutil::{
    decode_binary, encode_binary, extension_of, fs_parent, join, parent, percent_encode_path,
    spec_expand, spec_extension, spec_fs_parent, spec_join, spec_parent, spec_traversal_safe,
    traversal_safe,
};
use crate::strutil::{
    dec_digits, remove_first, spec_remove_first, str_eq, u32_to_string, utf8_to_string,
};

verus! {

/// The path without one trailing `/`, where it has one.
pub open spec fn trim_slash(s: Seq<char>) -> Seq<char> {
    if s.len() > 0 && s.last() == '/' {
        s.drop_last()
    } else {
        s
    }
}

/// The script extension filter accepts the path: no extensions are named,
/// or the path's extension is among them.
pub open spec fn ext_matches(path: Seq<char>, exts: Seq<Seq<char>>) -> bool {
    ||| exts.len() == 0
    ||| (spec_extension(path) matches Option::Some(e) && exists|i: int|
        0 <= i < exts.len() && exts[i] == e)
}

/// Whether the extension filter accepts the path.
pub fn extension_allowed(path: &str, extensions: &Vec<String>) -> (r: bool)
    ensures
        r == ext_matches(path@, crate::config::strings_view(extensions@)),
{
    let ghost xv = crate::config::strings_view(extensions@);
    if extensions.len() == 0 {
        return true;
    }
    let ext = match extension_of(path) {
        Some(e) => e,
        None => {
            return false;
        },
    };
    let mut i: usize = 0;
    while i < extensions.len()
        invariant
            i <= extensions@.len(),
            xv == crate::config::strings_view(extensions@),
            ext@ == spec_extension(path@).unwrap(),
            spec_extension(path@) is Some,
            forall|j: int| 0 <= j < i ==> xv[j] != ext@,
        decreases extensions@.len() - i,
    {
        if str_eq(extensions[i].as_str(), ext) {
            proof {
                assert(xv[i as int] == ext@);
            }
            return true;
        }
        i = i + 1;
    }
    false
}

/// Where the script search starts, or why it cannot.
pub enum CgiStart {
    /// `file`: the filesystem path first probed; `cgi_path`: the URL prefix
    /// that would name it; `original`: the whole expanded encoded path.
    Search { file: String, cgi_path: String, original: String },
    /// The decoded path was not Unicode or tried to climb out of the root.
    Denied,
    /// The encoded path could not be expanded.
    Failed(GemcapsError),
}

/// Begin the script search for a request: percent-decode the path, refuse
/// an escape from the root, and probe the whole path first.
pub fn cgi_search_start(cgi_root: &str, request_path: &str) -> (r: CgiStart)
    ensures
        ({
            let db = decoded_path(request_path@);
            let d = decode_utf8(db);
            let stripped = strip_slash(d);
            let orig = percent_encode_path(db);
            match r {
                CgiStart::Denied => !valid_utf8(db) || spec_traversal_safe(stripped) is None,
                CgiStart::Failed(_) => valid_utf8(db) && spec_traversal_safe(stripped) is Some
                    && spec_expand(orig) is None,
                CgiStart::Search { file, cgi_path, original } => {
                    &&& valid_utf8(db)
                    &&& spec_traversal_safe(stripped) is Some
                    &&& spec_expand(orig) is Some
                    &&& file@ == spec_join(cgi_root@, spec_traversal_safe(stripped).unwrap())
                    &&& original@ == spec_expand(orig).unwrap()
                    &&& cgi_path@ == trim_slash(spec_expand(orig).unwrap())
                },
            }
        }),
{
    let decoded_bytes = decode_binary(request_path.as_bytes());
    let encoded = encode_binary(decoded_bytes.as_slice());
    let decoded = match utf8_to_string(decoded_bytes) {
        Some(s) => s,
        None => {
            return CgiStart::Denied;
        },
    };
    let n = decoded.as_str().unicode_len();
    let stripped = if n > 0 && decoded.as_str().get_char(0) == '/' {
        decoded.as_str().substring_char(1, n)
    } else {
        decoded.as_str()
    };
    proof {
        assert(stripped@ == strip_slash(decoded@));
    }
    let traversed = match traversal_safe(stripped) {
        Ok(t) => t,
        Err(_) => {
            return CgiStart::Denied;
        },
    };
    let original = match crate::pathutil::expand(encoded.as_str()) {
        Ok(o) => o,
        Err(e) => {
            return CgiStart::Failed(e);
        },
    };
    let on = original.as_str().unicode_len();
    let cgi_path = if on > 0 && original.as_str().get_char(on - 1) == '/' {
        proof {
            assert(original@.subrange(0, on - 1) =~= original@.drop_last());
        }
        original.as_str().substring_char(0, on - 1).to_owned()
    } else {
        original.clone()
    };
    CgiStart::Search { file: join(cgi_root, traversed.as_str()), cgi_path, original }
}

/// The first directory entry that can serve as the index script: a plain
/// file whose percent-encoded name one of the index globs accepts and
/// whose name passes the extension filter.
pub open spec fn cgi_child_choice(
    entries: Seq<(Seq<u8>, bool)>,
    indexes: Seq<Seq<Seq<char>>>,
    exts: Seq<Seq<char>>,
    i: int,
) -> Option<int>
    decreases entries.len() - i,
{
    if i < 0 || i >= entries.len() {
        Option::None
    } else if !entries[i].1 && (exists|g: int|
        0 <= g < indexes.len() && glob_accepts(
            indexes[g],
            crate::pathutil::percent_encode(entries[i].0),
        )) && valid_utf8(entries[i].0) && ext_matches(decode_utf8(entries[i].0), exts) {
        Option::Some(i)
    } else {
        cgi_child_choice(entries, indexes, exts, i + 1)
    }
}

/// What the filesystem said about the probed path.
pub enum CgiProbe {
    /// A plain file.
    File,
    /// A directory, with its entries.
    Dir(Vec<DirEntry>),
    /// Nothing is there.
    Missing,
}

/// One step of the script search.
pub enum CgiStep {
    /// The script was found: run `file`; the URL prefix that names it and
    /// what remained to its right follow.
    Found { file: String, script_name: String, path_info: String },
    /// Nothing here; probe the parent next.
    Ascend { file: String, cgi_path: String },
    /// The search climbed out of the tree: the request is not ours.
    Pass,
}

/// Decide one search step: a file that passes the extension filter is the
/// script; in a directory, a configured index script inside it may serve;
/// otherwise the search ascends one component, and passes once nothing is
/// left to ascend to.
pub fn cgi_step(
    file: &str,
    cgi_path: &str,
    original: &str,
    probe: &CgiProbe,
    extensions: &Vec<String>,
    indexes: &Vec<Glob>,
) -> (r: CgiStep)
    ensures
        ({
            let xv = crate::config::strings_view(extensions@);
            let iv = crate::config::globs_view(indexes@);
            match r {
                CgiStep::Found { file: f, script_name, path_info } => {
                    &&& script_name@ == cgi_path@
                    &&& path_info@ == spec_remove_first(original@, cgi_path@)
                    &&& (match probe {
                        CgiProbe::File => ext_matches(file@, xv) && f@ == file@,
                        CgiProbe::Dir(entries) => ({
                            let c = cgi_child_choice(
                                crate::capsule::file::entries_view(entries@),
                                iv,
                                xv,
                                0,
                            );
                            c is Some && f@ == spec_join(
                                file@,
                                decode_utf8(
                                    crate::capsule::file::entries_view(entries@)[c.unwrap()].0,
                                ),
                            )
                        }),
                        CgiProbe::Missing => false,
                    })
                },
                CgiStep::Ascend { file: nf, cgi_path: np } => {
                    &&& (match probe {
                        CgiProbe::File => !ext_matches(file@, xv),
                        CgiProbe::Dir(entries) => cgi_child_choice(
                            crate::capsule::file::entries_view(entries@),
                            iv,
                            xv,
                            0,
                        ) is None,
                        CgiProbe::Missing => true,
                    })
                    &&& spec_fs_parent(file@) is Some
                    &&& spec_parent(cgi_path@) is Some
                    &&& nf@ == spec_fs_parent(file@).unwrap()
                    &&& np@ == trim_slash(spec_parent(cgi_path@).unwrap())
                },
                CgiStep::Pass => {
                    &&& (match probe {
                        CgiProbe::File => !ext_matches(file@, xv),
                        CgiProbe::Dir(entries) => cgi_child_choice(
                            crate::capsule::file::entries_view(entries@),
                            iv,
                            xv,
                            0,
                        ) is None,
                        CgiProbe::Missing => true,
                    })
                    &&& (spec_fs_parent(file@) is None || spec_parent(cgi_path@) is None)
                },
            }
        }),
{
    let ghost xv = crate::config::strings_view(extensions@);
    let ghost iv = crate::config::globs_view(indexes@);
    match probe {
        CgiProbe::File => {
            if extension_allowed(file, extensions) {
                return CgiStep::Found {
                    file: file.to_owned(),
                    script_name: cgi_path.to_owned(),
                    path_info: remove_first(original, cgi_path),
                };
            }
        },
        CgiProbe::Dir(entries) => {
            let ghost ev = crate::capsule::file::entries_view(entries@);
            let mut i: usize = 0;
            while i < entries.len()
                invariant
                    i <= entries@.len(),
                    probe matches CgiProbe::Dir(e2) && e2@ == entries@,
                    ev == crate::capsule::file::entries_view(entries@),
                    iv == crate::config::globs_view(indexes@),
                    xv == crate::config::strings_view(extensions@),
                    cgi_child_choice(ev, iv, xv, 0) == cgi_child_choice(ev, iv, xv, i as int),
                decreases entries@.len() - i,
            {
                proof {
                    assert(ev[i as int] == (entries@[i as int].name@, entries@[i as int].is_dir));
                }
                if !entries[i].is_dir {
                    let enc = crate::pathutil::encode_component(entries[i].name.as_slice());
                    if crate::dispatch::any_glob_matches(indexes, enc.as_str()) {
                        // the raw name must be Unicode to become a path here
                        match utf8_to_string_ref(&entries[i].name) {
                            Some(name) => {
                                if extension_allowed(name.as_str(), extensions) {
                                    proof {
                                        assert(!ev[i as int].1);
                                        assert(enc@ == crate::pathutil::percent_encode(
                                            ev[i as int].0,
                                        ));
                                        assert(exists|g: int|
                                            0 <= g < iv.len() && glob_accepts(
                                                iv[g],
                                                crate::pathutil::percent_encode(ev[i as int].0),
                                            ));
                                        assert(valid_utf8(ev[i as int].0));
                                        assert(name@ == decode_utf8(ev[i as int].0));
                                        assert(ext_matches(decode_utf8(ev[i as int].0), xv));
                                        assert(cgi_child_choice(ev, iv, xv, i as int) == Some(
                                            i as int,
                                        ));
                                        assert(cgi_child_choice(ev, iv, xv, 0) == Some(i as int));
                                    }
                                    return CgiStep::Found {
                                        file: join(file, name.as_str()),
                                        script_name: cgi_path.to_owned(),
                                        path_info: remove_first(original, cgi_path),
                                    };
                                }
                            },
                            None => {},
                        }
                    }
                }
                i = i + 1;
            }
        },
        CgiProbe::Missing => {},
    }
    let nf = match fs_parent(file) {
        Some(p) => p,
        None => {
            return CgiStep::Pass;
        },
    };
    let np = match parent(cgi_path) {
        Some(p) => p,
        None => {
            return CgiStep::Pass;
        },
    };
    let nn = np.as_str().unicode_len();
    let np = if nn > 0 && np.as_str().get_char(nn - 1) == '/' {
        proof {
            assert(np@.subrange(0, nn - 1) =~= np@.drop_last());
        }
        np.as_str().substring_char(0, nn - 1).to_owned()
    } else {
        np
    };
    CgiStep::Ascend { file: nf, cgi_path: np }
}

/// The bytes taken as a string exactly when they are valid UTF-8.
fn utf8_to_string_ref(v: &Vec<u8>) -> (r: Option<String>)
    ensures
        r is Some <==> valid_utf8(v@),
        r is Some ==> r.unwrap()@ == decode_utf8(v@),
{
    let copy = crate::strutil::copy_bytes(v);
    utf8_to_string(copy)
}

/// The environment the CGI child is started with, per the Gemini CGI
/// convention. An empty `path_info` or `query` stays out, and the parent's
/// `PATH` is passed along only where there is one.
pub open spec fn spec_cgi_env(
    remote_addr: Seq<char>,
    script_name: Seq<char>,
    server_name: Seq<char>,
    server_port: Seq<char>,
    software: Seq<char>,
    document_root: Seq<char>,
    script_filename: Seq<char>,
    url: Seq<char>,
    url_path: Seq<char>,
    path_info: Seq<char>,
    path_translated: Seq<char>,
    query: Seq<char>,
    path_var: Option<Seq<char>>,
) -> Seq<(Seq<char>, Seq<char>)> {
    seq![
        ("GATEWAY_INTERFACE"@, "1.1"@),
        ("REMOTE_ADDR"@, remote_addr),
        ("REMOTE_HOST"@, remote_addr),
        ("REQUEST_METHOD"@, Seq::<char>::empty()),
        ("SCRIPT_NAME"@, script_name),
        ("SERVER_NAME"@, server_name),
        ("SERVER_PORT"@, server_port),
        ("SERVER_PROTOCOL"@, "GEMINI"@),
        ("SERVER_SOFTWARE"@, software),
        ("GEMINI_DOCUMENT_ROOT"@, document_root),
        ("GEMINI_SCRIPT_FILENAME"@, script_filename),
        ("GEMINI_URL"@, url),
        ("GEMINI_URL_PATH"@, url_path),
    ] + (if path_info.len() > 0 {
        seq![("PATH_INFO"@, path_info), ("PATH_TRANSLATED"@, path_translated)]
    } else {
        Seq::<(Seq<char>, Seq<char>)>::empty()
    }) + (if query.len() > 0 {
        seq![("QUERY_STRING"@, query)]
    } else {
        Seq::<(Seq<char>, Seq<char>)>::empty()
    }) + (match path_var {
        Option::Some(p) => seq![("PATH"@, p)],
        Option::None => Seq::<(Seq<char>, Seq<char>)>::empty(),
    })
}

/// Assemble the child environment.
pub fn cgi_env(
    remote_addr: &str,
    script_name: &str,
    server_name: &str,
    server_port: &str,
    software: &str,
    document_root: &str,
    script_filename: &str,
    url: &str,
    url_path: &str,
    path_info: &str,
    path_translated: &str,
    query: &str,
    path_var: Option<&String>,
) -> (r: Vec<(String, String)>)
    ensures
        r@.map_values(|p: (String, String)| (p.0@, p.1@)) == spec_cgi_env(
            remote_addr@,
            script_name@,
            server_name@,
            server_port@,
            software@,
            document_root@,
            script_filename@,
            url@,
            url_path@,
            path_info@,
            path_translated@,
            query@,
            match path_var {
                Option::Some(p) => Option::Some(p@),
                Option::None => Option::<Seq<char>>::None,
            },
        ),
{
    let mut r: Vec<(String, String)> = Vec::new();
    r.push(("GATEWAY_INTERFACE".to_owned(), "1.1".to_owned()));
    r.push(("REMOTE_ADDR".to_owned(), remote_addr.to_owned()));
    r.push(("REMOTE_HOST".to_owned(), remote_addr.to_owned()));
    r.push(("REQUEST_METHOD".to_owned(), String::new()));
    r.push(("SCRIPT_NAME".to_owned(), script_name.to_owned()));
    r.push(("SERVER_NAME".to_owned(), server_name.to_owned()));
    r.push(("SERVER_PORT".to_owned(), server_port.to_owned()));
    r.push(("SERVER_PROTOCOL".to_owned(), "GEMINI".to_owned()));
    r.push(("SERVER_SOFTWARE".to_owned(), software.to_owned()));
    r.push(("GEMINI_DOCUMENT_ROOT".to_owned(), document_root.to_owned()));
    r.push(("GEMINI_SCRIPT_FILENAME".to_owned(), script_filename.to_owned()));
    r.push(("GEMINI_URL".to_owned(), url.to_owned()));
    r.push(("GEMINI_URL_PATH".to_owned(), url_path.to_owned()));
    if path_info.unicode_len() > 0 {
        r.push(("PATH_INFO".to_owned(), path_info.to_owned()));
        r.push(("PATH_TRANSLATED".to_owned(), path_translated.to_owned()));
    }
    if query.unicode_len() > 0 {
        r.push(("QUERY_STRING".to_owned(), query.to_owned()));
    }
    match path_var {
        Some(p) => {
            r.push(("PATH".to_owned(), p.clone()));
        },
        None => {},
    }
    proof {
        assert(r@.map_values(|p: (String, String)| (p.0@, p.1@)) =~= spec_cgi_env(
            remote_addr@,
            script_name@,
            server_name@,
            server_port@,
            software@,
            document_root@,
            script_filename@,
            url@,
            url_path@,
            path_info@,
            path_translated@,
            query@,
            match path_var {
                Option::Some(p) => Option::Some(p@),
                Option::None => Option::<Seq<char>>::None,
            },
        ));
    }
    r
}

/// Turn what the CGI child produced into a response: a non-zero exit
/// becomes a CGI error naming the status; otherwise its standard output
/// must itself frame a response, and a malformed one becomes a CGI error
/// too.
pub fn cgi_output(exited_ok: bool, exit_code: u32, stdout: &[u8]) -> (r: Response)
    ensures
        !exited_ok ==> spec_status(&r) == 42 && spec_meta(&r) == "exited with status "@
            + dec_digits(exit_code as nat) && spec_body(&r) is None,
        exited_ok ==> match spec_parse(stdout@) {
            Option::Some(t) => spec_status(&r) == t.0 && spec_meta(&r) == t.1 && spec_body(&r)
                == (if t.0 == 20 {
                Option::Some(t.2)
            } else {
                Option::<Seq<u8>>::None
            }),
            Option::None => spec_status(&r) == 42 && spec_meta(&r) == "invalid response header"@
                && spec_body(&r) is None,
        },
{
    if !exited_ok {
        let mut msg = "exited with status ".to_owned();
        msg.append(u32_to_string(exit_code).as_str());
        return Response::cgi_error(msg.as_str());
    }
    match Response::parse(stdout) {
        Ok(resp) => resp,
        Err(_) => Response::cgi_error("invalid response header"),
    }
}

/// The port part of a `host:port` listen address.
pub fn listen_port<'a>(listen: &'a str) -> (r: &'a str)
    requires
        crate::strutil::rfind_seq(listen@, ':') >= 0,
    ensures
        r@ == listen@.skip(crate::strutil::rfind_seq(listen@, ':') + 1),
{
    proof {
        crate::strutil::lemma_rfind_seq(listen@, ':');
    }
    let n = listen.unicode_len();
    match crate::strutil::rfind_str(listen, ':') {
        Some(p) => {
            let r = listen.substring_char(p + 1, n);
            proof {
                assert(r@ =~= listen@.skip(crate::strutil::rfind_seq(listen@, ':') + 1));
            }
            r
        },
        None => {
            proof {
                assert(false);
            }
            listen
        },
    }
}

/// An ASCII whitespace character.
pub open spec fn is_ws(c: char) -> bool {
    c == ' ' || c == '\t' || c == '\r' || c == '\n'
}

/// The whitespace separated tokens of a line.
pub open spec fn ws_split(s: Seq<char>) -> Seq<Seq<char>>
    decreases s.len(),
{
    if s.len() == 0 {
        Seq::<Seq<char>>::empty()
    } else if is_ws(s[0]) {
        ws_split(s.skip(1))
    } else if s.len() == 1 || is_ws(s[1]) {
        seq![seq![s[0]]] + ws_split(s.skip(1))
    } else {
        let rest = ws_split(s.skip(1));
        seq![seq![s[0]] + rest[0]] + rest.skip(1)
    }
}

proof fn lemma_ws_split_token(s: Seq<char>, e: int)
    requires
        1 <= e <= s.len(),
        forall|k: int| 0 <= k < e ==> !is_ws(s[k]),
        e < s.len() ==> is_ws(s[e]),
    ensures
        ws_split(s) =~= seq![s.take(e)] + ws_split(s.skip(e)),
    decreases e,
{
    if e == 1 {
        assert(s.take(1) =~= seq![s[0]]);
    } else {
        lemma_ws_split_token(s.skip(1), e - 1);
        let rest = ws_split(s.skip(1));
        assert(rest =~= seq![s.skip(1).take(e - 1)] + ws_split(s.skip(1).skip(e - 1)));
        assert(s.skip(1).skip(e - 1) =~= s.skip(e));
        assert(seq![s[0]] + s.skip(1).take(e - 1) =~= s.take(e));
        assert(!is_ws(s[1]));
        assert(ws_split(s) =~= seq![seq![s[0]] + rest[0]] + rest.skip(1));
        assert(rest.skip(1) =~= ws_split(s.skip(e)));
    }
}

/// Split a line into its whitespace separated tokens.
pub fn ws_tokens(s: &str) -> (r: Vec<String>)
    ensures
        crate::strutil::seq_views(r@) == ws_split(s@),
{
    let cs = crate::strutil::chars_vec(s);
    let n = cs.len();
    let mut tokens: Vec<String> = Vec::new();
    let mut i: usize = 0;
    proof {
        assert(s@.skip(0) =~= s@);
        assert(crate::strutil::seq_views(tokens@) =~= Seq::<Seq<char>>::empty());
    }
    while i < n
        invariant
            i <= n,
            n == cs@.len(),
            cs@ == s@,
            ws_split(s@) == crate::strutil::seq_views(tokens@) + ws_split(s@.skip(i as int)),
        decreases n - i,
    {
        if is_ws_char(cs[i]) {
            proof {
                assert(s@.skip(i as int)[0] == s@[i as int]);
                assert(s@.skip(i as int).skip(1) =~= s@.skip(i + 1));
            }
            i = i + 1;
        } else {
            let mut e = i;
            while e < n && !is_ws_char(cs[e])
                invariant
                    i <= e <= n,
                    n == cs@.len(),
                    cs@ == s@,
                    forall|k: int| i <= k < e ==> !is_ws(s@[k]),
                decreases n - e,
            {
                e = e + 1;
            }
            let tok = s.substring_char(i, e).to_owned();
            let ghost t0 = crate::strutil::seq_views(tokens@);
            tokens.push(tok);
            proof {
                lemma_ws_split_token(s@.skip(i as int), e - i);
                assert(s@.skip(i as int).take(e - i) =~= s@.subrange(i as int, e as int));
                assert(s@.skip(i as int).skip(e - i) =~= s@.skip(e as int));
                assert(crate::strutil::seq_views(tokens@) =~= t0.push(
                    s@.subrange(i as int, e as int),
                ));
                assert(t0.push(s@.subrange(i as int, e as int)) + ws_split(s@.skip(e as int)) =~= t0
                    + (seq![s@.subrange(i as int, e as int)] + ws_split(s@.skip(e as int))));
            }
            i = e;
        }
    }
    proof {
        assert(ws_split(s@.skip(n as int)) =~= Seq::<Seq<char>>::empty());
        assert(crate::strutil::seq_views(tokens@) + Seq::<Seq<char>>::empty()
            =~= crate::strutil::seq_views(tokens@));
    }
    tokens
}

fn is_ws_char(c: char) -> (r: bool)
    ensures
        r == is_ws(c),
{
    c == ' ' || c == '\t' || c == '\r' || c == '\n'
}

/// How a found script is started.
pub struct CgiCommand {
    pub command: String,
    pub args: Vec<String>,
}

/// Pick the interpreter from the script's first line: after `#!` the first
/// token is the binary, the rest are its arguments, and the script path
/// comes last; without `#!` the script itself is the command.
pub fn interpreter_command(first_line: &str, script: &str) -> (r: CgiCommand)
    ensures
        ({
            let has_shebang = first_line@.len() >= 2 && first_line@[0] == '#' && first_line@[1]
                == '!';
            if has_shebang {
                let toks = ws_split(first_line@.skip(2));
                &&& r.command@ == (if toks.len() == 0 {
                    Seq::<char>::empty()
                } else {
                    toks[0]
                })
                &&& crate::strutil::seq_views(r.args@) == (if toks.len() == 0 {
                    Seq::<Seq<char>>::empty()
                } else {
                    toks.skip(1)
                }).push(script@)
            } else {
                r.command@ == script@ && r.args@.len() == 0
            }
        }),
{
    let n = first_line.unicode_len();
    if n >= 2 && first_line.get_char(0) == '#' && first_line.get_char(1) == '!' {
        let rest = first_line.substring_char(2, n);
        proof {
            assert(rest@ =~= first_line@.skip(2));
        }
        let mut toks = ws_tokens(rest);
        let ghost tv = ws_split(first_line@.skip(2));
        let command = if toks.len() == 0 {
            String::new()
        } else {
            let c = toks.remove(0);
            proof {
                assert(crate::strutil::seq_views(toks@) =~= tv.skip(1));
            }
            c
        };
        let ghost a0 = crate::strutil::seq_views(toks@);
        let mut args = toks;
        args.push(script.to_owned());
        proof {
            assert(crate::strutil::seq_views(args@) =~= a0.push(script@));
            if tv.len() == 0 {
                assert(a0 =~= Seq::<Seq<char>>::empty());
            }
        }
        CgiCommand { command, args }
    } else {
        CgiCommand { command: script.to_owned(), args: Vec::new() }
    }
}


} // verus!
