use vstd::prelude::*;
use vstd::string::StrSliceExecFns;
use vstd::string::StringExecFns;
use vstd::utf8::{decode_utf8, encode_utf8, valid_utf8};

use crate::error::GemcapsError;
use crate::gemini::{spec_body, spec_meta, spec_status, Response};
use crate::glob::{glob_accepts, Glob};
use crate::pathutil::{
    decode_binary, encode_binary, get_mimetype, join, parent, percent_decode, percent_encode,
    percent_encode_path, spec_expand, spec_join, spec_mimetype, spec_parent, spec_traversal_safe,
    traversal_safe, MimeTable,
};
use crate::strutil::{lex_sort, seq_views, sort_strings, utf8_to_string};

verus! {

/// The percent-decoded bytes of a request path.
pub open spec fn decoded_path(request_path: Seq<char>) -> Seq<u8> {
    percent_decode(encode_utf8(request_path))
}

/// The path without its leading `/`, where it has one.
pub open spec fn strip_slash(d: Seq<char>) -> Seq<char> {
    if d.len() > 0 && d[0] == '/' {
        d.skip(1)
    } else {
        d
    }
}

/// Where the request's target lies on disk, or why it cannot.
pub enum FileTarget {
    /// `read`: the safely resolved path to read; `probe`: the unresolved
    /// path whose existence canonicalisation probes; `display`: the decoded
    /// and expanded request path shown in redirects and listings.
    Target { read: String, probe: String, display: String },
    /// The decoded path was not Unicode or tried to climb out of the root.
    Denied(Response),
    /// The decoded path could not be expanded for display.
    Failed(GemcapsError),
}

/// Resolve the request path under the file root: percent-decode it, strip
/// the leading slash, refuse an escape from the root, and join what is left
/// under the root.
pub fn file_target(file_root: &str, request_path: &str) -> (r: FileTarget)
    ensures
        ({
            let db = decoded_path(request_path@);
            let d = decode_utf8(db);
            let stripped = strip_slash(d);
            match r {
                FileTarget::Denied(resp) => (!valid_utf8(db) || spec_traversal_safe(stripped)
                    is None) && spec_status(&resp) == 50 && spec_meta(&resp)
                    == "Permission denied"@ && spec_body(&resp) is None,
                FileTarget::Failed(_) => valid_utf8(db) && spec_traversal_safe(stripped) is Some
                    && spec_expand(d) is None,
                FileTarget::Target { read, probe, display } => {
                    &&& valid_utf8(db)
                    &&& spec_traversal_safe(stripped) is Some
                    &&& spec_expand(d) is Some
                    &&& read@ == spec_join(file_root@, spec_traversal_safe(stripped).unwrap())
                    &&& probe@ == spec_join(file_root@, stripped)
                    &&& display@ == spec_expand(d).unwrap()
                },
            }
        }),
{
    let decoded_bytes = decode_binary(request_path.as_bytes());
    let decoded = match utf8_to_string(decoded_bytes) {
        Some(s) => s,
        None => {
            return FileTarget::Denied(Response::failure_perm("Permission denied"));
        },
    };
    let n = decoded.as_str().unicode_len();
    let stripped = if n > 0 && decoded.as_str().get_char(0) == '/' {
        decoded.as_str().substring_char(1, n)
    } else {
        decoded.as_str()
    };
    proof {
        assert(stripped@ == strip_slash(decoded@));
    }
    let traversed = match traversal_safe(stripped) {
        Ok(t) => t,
        Err(_) => {
            return FileTarget::Denied(Response::failure_perm("Permission denied"));
        },
    };
    let display = match crate::pathutil::expand(decoded.as_str()) {
        Ok(d) => d,
        Err(e) => {
            return FileTarget::Failed(e);
        },
    };
    FileTarget::Target {
        read: join(file_root, traversed.as_str()),
        probe: join(file_root, stripped),
        display,
    }
}

/// What the filesystem said about a probed path.
pub enum FileProbe {
    File,
    Directory,
    Missing,
}

/// One step of trailing-slash canonicalisation.
pub enum CanonStep {
    /// Answer this redirect: the canonical URL differs from the request's.
    Redirect(Response),
    /// The path is canonical; serve it.
    Proceed,
    /// The probed path is missing but ended in `/`: retry without it.
    Retry { redirect_path: String, probe: String },
    /// The probed path is missing; let the next candidate try.
    Pass,
}

/// The redirect that canonicalises the request to `target_path`: permanent,
/// unless a query must be preserved, which only a temporary redirect can
/// carry.
pub fn canonical_redirect(target_path: &str, query: &str) -> (r: Response)
    ensures
        query@.len() == 0 ==> spec_status(&r) == 31 && spec_meta(&r) == percent_encode_path(
            encode_utf8(target_path@),
        ),
        query@.len() > 0 ==> spec_status(&r) == 30 && spec_meta(&r) == percent_encode_path(
            encode_utf8(target_path@),
        ) + seq!['?'] + query@,
        spec_body(&r) is None,
{
    let mut target = encode_binary(target_path.as_bytes());
    if query.unicode_len() == 0 {
        Response::redirect_perm(target.as_str())
    } else {
        target.append("?");
        target.append(query);
        proof {
            reveal_strlit("?");
            assert(target@ =~= percent_encode_path(encode_utf8(target_path@)) + seq!['?']
                + query@);
        }
        Response::redirect_temp(target.as_str())
    }
}

/// Decide one canonicalisation step: a directory gains a trailing slash; a
/// changed path becomes a redirect; a missing path that was asked for with
/// a trailing slash is retried without it; any other missing path passes.
pub fn canon_step(request_path: &str, redirect_path: &str, probe_path: &str, probe: FileProbe, query: &str) -> (r:
    CanonStep)
    ensures
        ({
            let rp = if probe is Directory && !(redirect_path@.len() > 0 && redirect_path@.last()
                == '/') {
                redirect_path@ + seq!['/']
            } else {
                redirect_path@
            };
            match r {
                CanonStep::Redirect(resp) => {
                    &&& !(probe is Missing)
                    &&& rp != request_path@
                    &&& (query@.len() == 0 ==> spec_status(&resp) == 31 && spec_meta(&resp)
                        == percent_encode_path(encode_utf8(rp)))
                    &&& (query@.len() > 0 ==> spec_status(&resp) == 30 && spec_meta(&resp)
                        == percent_encode_path(encode_utf8(rp)) + seq!['?'] + query@)
                },
                CanonStep::Proceed => !(probe is Missing) && rp == request_path@,
                CanonStep::Retry { redirect_path: nrp, probe: np } => {
                    &&& probe is Missing
                    &&& redirect_path@.len() > 0 && redirect_path@.last() == '/'
                    &&& nrp@ == redirect_path@.drop_last()
                    &&& (probe_path@.len() > 0 ==> np@ == probe_path@.drop_last())
                    &&& (probe_path@.len() == 0 ==> np@ == probe_path@)
                },
                CanonStep::Pass => probe is Missing && !(redirect_path@.len() > 0
                    && redirect_path@.last() == '/'),
            }
        }),
{
    let n = redirect_path.unicode_len();
    let ends_slash = n > 0 && redirect_path.get_char(n - 1) == '/';
    match probe {
        FileProbe::Missing => {
            if ends_slash {
                let pn = probe_path.unicode_len();
                if pn == 0 {
                    proof {
                        assert(redirect_path@.subrange(0, n - 1) =~= redirect_path@.drop_last());
                    }
                    return CanonStep::Retry {
                        redirect_path: redirect_path.substring_char(0, n - 1).to_owned(),
                        probe: probe_path.to_owned(),
                    };
                }
                proof {
                    assert(redirect_path@.subrange(0, n - 1) =~= redirect_path@.drop_last());
                    assert(probe_path@.subrange(0, pn - 1) =~= probe_path@.drop_last());
                }
                CanonStep::Retry {
                    redirect_path: redirect_path.substring_char(0, n - 1).to_owned(),
                    probe: probe_path.substring_char(0, pn - 1).to_owned(),
                }
            } else {
                CanonStep::Pass
            }
        },
        FileProbe::Directory => {
            if !ends_slash {
                let mut rp = redirect_path.to_owned();
                rp.append("/");
                proof {
                    reveal_strlit("/");
                    assert(rp@ =~= redirect_path@ + seq!['/']);
                }
                if !crate::strutil::str_eq(rp.as_str(), request_path) {
                    CanonStep::Redirect(canonical_redirect(rp.as_str(), query))
                } else {
                    CanonStep::Proceed
                }
            } else {
                if !crate::strutil::str_eq(redirect_path, request_path) {
                    CanonStep::Redirect(canonical_redirect(redirect_path, query))
                } else {
                    CanonStep::Proceed
                }
            }
        },
        FileProbe::File => {
            if !crate::strutil::str_eq(redirect_path, request_path) {
                CanonStep::Redirect(canonical_redirect(redirect_path, query))
            } else {
                CanonStep::Proceed
            }
        },
    }
}

/// A directory entry as the host filesystem reported it: the raw bytes of
/// its name and whether it is a directory.
pub struct DirEntry {
    pub name: Vec<u8>,
    pub is_dir: bool,
}

/// Serve a file's bytes under the MIME type its extension maps to.
pub fn file_success(table: &MimeTable, path: &str, content: Vec<u8>) -> (r: Response)
    ensures
        spec_status(&r) == 20,
        spec_meta(&r) == spec_mimetype(table@, path@),
        spec_body(&r) == Some(content@),
{
    let mime = get_mimetype(table, path);
    Response::success(mime.as_str(), content)
}

/// The first entry that is a plain file and whose percent-encoded name one
/// of the index globs accepts.
pub open spec fn index_choice(
    entries: Seq<(Seq<u8>, bool)>,
    indexes: Seq<Seq<Seq<char>>>,
    i: int,
) -> Option<int>
    decreases entries.len() - i,
{
    if i < 0 || i >= entries.len() {
        Option::None
    } else if !entries[i].1 && (exists|g: int|
        0 <= g < indexes.len() && glob_accepts(indexes[g], percent_encode(entries[i].0))) {
        Option::Some(i)
    } else {
        index_choice(entries, indexes, i + 1)
    }
}

pub open spec fn entries_view(entries: Seq<DirEntry>) -> Seq<(Seq<u8>, bool)> {
    entries.map_values(|e: DirEntry| (e.name@, e.is_dir))
}

/// What to do with a directory that is itself the target.
pub enum DirAction {
    /// Serve this entry as the directory's index.
    ServeIndex(usize),
    /// Send this listing.
    Listing(Response),
    /// Folders may not be listed here.
    Denied(Response),
}

/// How a name is shown in a listing: its percent-decoded bytes where they
/// are Unicode, else the encoded name itself.
pub open spec fn display_of(n: Seq<char>) -> Seq<char> {
    let raw = percent_decode(encode_utf8(n));
    if valid_utf8(raw) {
        decode_utf8(raw)
    } else {
        n
    }
}

/// One listing line.
pub open spec fn line_for(base: Seq<char>, name: Seq<char>, icon: Seq<char>) -> Seq<char> {
    "=> "@ + spec_join(base, name) + seq![' '] + icon + seq![' '] + display_of(name) + seq!['\n']
}

/// The listing lines for the names from `i` on.
pub open spec fn lines_from(base: Seq<char>, names: Seq<Seq<char>>, icon: Seq<char>, i: int) -> Seq<
    char,
>
    decreases names.len() - i,
{
    if i < 0 || i >= names.len() {
        Seq::<char>::empty()
    } else {
        line_for(base, names[i], icon) + lines_from(base, names, icon, i + 1)
    }
}

/// The full text of a directory listing: a heading with the decoded path, a
/// link to the parent unless at the root, the sorted sub-directories, and
/// the sorted files.
pub open spec fn listing_chars(
    display: Seq<char>,
    folders: Seq<Seq<char>>,
    files: Seq<Seq<char>>,
) -> Seq<char> {
    let base = percent_encode_path(encode_utf8(display));
    "# "@ + display + "\n\n"@ + (match spec_parent(display) {
        Option::Some(p) => "=> "@ + percent_encode_path(encode_utf8(p)) + " \u{2b05}\u{fe0f}  Back\n\n"@,
        Option::None => Seq::<char>::empty(),
    }) + lines_from(base, folders, "\u{1f4c2}"@, 0) + lines_from(base, files, "\u{1f4c3}"@, 0)
}

/// The sorted, percent-encoded folder names (with their trailing slash).
pub open spec fn folder_names(entries: Seq<(Seq<u8>, bool)>) -> Seq<Seq<char>> {
    lex_sort(entries.filter(|e: (Seq<u8>, bool)| e.1).map_values(
        |e: (Seq<u8>, bool)| percent_encode(e.0) + seq!['/'],
    ))
}

/// The sorted, percent-encoded file names.
pub open spec fn file_names(entries: Seq<(Seq<u8>, bool)>) -> Seq<Seq<char>> {
    lex_sort(entries.filter(|e: (Seq<u8>, bool)| !e.1).map_values(
        |e: (Seq<u8>, bool)| percent_encode(e.0),
    ))
}

/// Decide what a directory target yields: its first index entry, a listing
/// of its contents, or a refusal where listings are not allowed.
pub fn directory_action(
    entries: &Vec<DirEntry>,
    send_folders: bool,
    indexes: &Vec<Glob>,
    display: &str,
) -> (r: DirAction)
    ensures
        ({
            let ev = entries_view(entries@);
            let iv = crate::config::globs_view(indexes@);
            match r {
                DirAction::ServeIndex(i) => index_choice(ev, iv, 0) == Some(i as int),
                DirAction::Denied(resp) => {
                    &&& index_choice(ev, iv, 0) is None
                    &&& !send_folders
                    &&& spec_status(&resp) == 50
                    &&& spec_meta(&resp) == "Permission denied"@
                },
                DirAction::Listing(resp) => {
                    &&& index_choice(ev, iv, 0) is None
                    &&& send_folders
                    &&& spec_status(&resp) == 20
                    &&& spec_meta(&resp) == "text/gemini"@
                    &&& spec_body(&resp) == Some(
                        encode_utf8(listing_chars(display@, folder_names(ev), file_names(ev))),
                    )
                },
            }
        }),
{
    let ghost ev = entries_view(entries@);
    let ghost iv = crate::config::globs_view(indexes@);
    // look for an index file first
    let mut i: usize = 0;
    while i < entries.len()
        invariant
            i <= entries@.len(),
            ev == entries_view(entries@),
            iv == crate::config::globs_view(indexes@),
            index_choice(ev, iv, 0) == index_choice(ev, iv, i as int),
        decreases entries@.len() - i,
    {
        if !entries[i].is_dir {
            let enc = crate::pathutil::encode_component(entries[i].name.as_slice());
            if crate::dispatch::any_glob_matches(indexes, enc.as_str()) {
                proof {
                    assert(ev[i as int] == (entries@[i as int].name@, entries@[i as int].is_dir));
                }
                return DirAction::ServeIndex(i);
            }
            proof {
                assert(ev[i as int] == (entries@[i as int].name@, entries@[i as int].is_dir));
                assert(!(exists|g: int|
                    0 <= g < iv.len() && glob_accepts(iv[g], percent_encode(ev[i as int].0))));
            }
        } else {
            proof {
                assert(ev[i as int] == (entries@[i as int].name@, entries@[i as int].is_dir));
            }
        }
        i = i + 1;
    }
    if !send_folders {
        return DirAction::Denied(Response::failure_perm("Permission denied"));
    }
    // build the listing
    let mut folders: Vec<String> = Vec::new();
    let mut files: Vec<String> = Vec::new();
    let ghost ff = ev.filter(|e: (Seq<u8>, bool)| e.1);
    let ghost gf = ev.filter(|e: (Seq<u8>, bool)| !e.1);
    proof {
        reveal(Seq::<(Seq<u8>, bool)>::filter);
        assert(ev.take(0).filter(|e: (Seq<u8>, bool)| e.1) =~= Seq::<(Seq<u8>, bool)>::empty());
        assert(ev.take(0).filter(|e: (Seq<u8>, bool)| !e.1) =~= Seq::<(Seq<u8>, bool)>::empty());
        assert(seq_views(folders@) =~= Seq::<Seq<char>>::empty());
        assert(seq_views(files@) =~= Seq::<Seq<char>>::empty());
    }
    let mut k: usize = 0;
    while k < entries.len()
        invariant
            k <= entries@.len(),
            ev == entries_view(entries@),
            seq_views(folders@) == ev.take(k as int).filter(|e: (Seq<u8>, bool)| e.1).map_values(
                |e: (Seq<u8>, bool)| percent_encode(e.0) + seq!['/'],
            ),
            seq_views(files@) == ev.take(k as int).filter(|e: (Seq<u8>, bool)| !e.1).map_values(
                |e: (Seq<u8>, bool)| percent_encode(e.0),
            ),
        decreases entries@.len() - k,
    {
        let mut enc = crate::pathutil::encode_component(entries[k].name.as_slice());
        proof {
            assert(ev[k as int] == (entries@[k as int].name@, entries@[k as int].is_dir));
            assert(ev.take(k + 1).drop_last() =~= ev.take(k as int));
            assert(ev.take(k + 1).last() == ev[k as int]);
        }
        if entries[k].is_dir {
            enc.append("/");
            proof {
                reveal_strlit("/");
                assert(enc@ =~= percent_encode(ev[k as int].0) + seq!['/']);
            }
            let ghost f0 = seq_views(folders@);
            folders.push(enc);
            proof {
                reveal(Seq::<(Seq<u8>, bool)>::filter);
                assert(seq_views(folders@) =~= f0.push(percent_encode(ev[k as int].0) + seq!['/']));
                assert(ev.take(k + 1).filter(|e: (Seq<u8>, bool)| e.1) =~= ev.take(
                    k as int,
                ).filter(|e: (Seq<u8>, bool)| e.1).push(ev[k as int]));
                assert(ev.take(k + 1).filter(|e: (Seq<u8>, bool)| !e.1) =~= ev.take(
                    k as int,
                ).filter(|e: (Seq<u8>, bool)| !e.1));
                assert(seq_views(folders@) =~= ev.take(k + 1).filter(
                    |e: (Seq<u8>, bool)| e.1,
                ).map_values(|e: (Seq<u8>, bool)| percent_encode(e.0) + seq!['/']));
            }
        } else {
            let ghost f0 = seq_views(files@);
            files.push(enc);
            proof {
                reveal(Seq::<(Seq<u8>, bool)>::filter);
                assert(seq_views(files@) =~= f0.push(percent_encode(ev[k as int].0)));
                assert(ev.take(k + 1).filter(|e: (Seq<u8>, bool)| !e.1) =~= ev.take(
                    k as int,
                ).filter(|e: (Seq<u8>, bool)| !e.1).push(ev[k as int]));
                assert(ev.take(k + 1).filter(|e: (Seq<u8>, bool)| e.1) =~= ev.take(
                    k as int,
                ).filter(|e: (Seq<u8>, bool)| e.1));
                assert(seq_views(files@) =~= ev.take(k + 1).filter(
                    |e: (Seq<u8>, bool)| !e.1,
                ).map_values(|e: (Seq<u8>, bool)| percent_encode(e.0)));
            }
        }
        k = k + 1;
    }
    proof {
        assert(ev.take(ev.len() as int) =~= ev);
    }
    let folders = sort_strings(folders);
    let files = sort_strings(files);
    let body = build_listing(display, &folders, &files);
    let r = Response::success("text/gemini", body.as_str().as_bytes_vec());
    DirAction::Listing(r)
}

fn build_listing(display: &str, folders: &Vec<String>, files: &Vec<String>) -> (r: String)
    ensures
        r@ == listing_chars(display@, seq_views(folders@), seq_views(files@)),
{
    let ghost base = percent_encode_path(encode_utf8(display@));
    let encoded_display = encode_binary(display.as_bytes());
    let mut body = String::from_str("# ");
    body.append(display);
    body.append("\n\n");
    match parent(display) {
        Some(p) => {
            body.append("=> ");
            body.append(encode_binary(p.as_str().as_bytes()).as_str());
            body.append(" \u{2b05}\u{fe0f}  Back\n\n");
        },
        None => {},
    }
    proof {
        assert(body@ =~= "# "@ + display@ + "\n\n"@ + (match spec_parent(display@) {
            Option::Some(p) => "=> "@ + percent_encode_path(encode_utf8(p))
                + " \u{2b05}\u{fe0f}  Back\n\n"@,
            Option::None => Seq::<char>::empty(),
        }));
    }
    append_lines(&mut body, encoded_display.as_str(), folders, "\u{1f4c2}");
    append_lines(&mut body, encoded_display.as_str(), files, "\u{1f4c3}");
    proof {
        assert(body@ =~= listing_chars(display@, seq_views(folders@), seq_views(files@)));
    }
    body
}

fn append_lines(body: &mut String, base: &str, names: &Vec<String>, icon: &str)
    ensures
        final(body)@ == old(body)@ + lines_from(base@, seq_views(names@), icon@, 0),
{
    let ghost nv = seq_views(names@);
    let ghost b0 = body@;
    let mut i: usize = 0;
    while i < names.len()
        invariant
            i <= names@.len(),
            nv == seq_views(names@),
            b0 + lines_from(base@, nv, icon@, 0) == body@ + lines_from(base@, nv, icon@, i as int),
        decreases names@.len() - i,
    {
        let ghost bi = body@;
        let name = &names[i];
        body.append("=> ");
        body.append(join(base, name.as_str()).as_str());
        body.append(" ");
        body.append(icon);
        body.append(" ");
        let decoded = decode_binary(name.as_str().as_bytes());
        match utf8_to_string(decoded) {
            Some(d) => body.append(d.as_str()),
            None => body.append(name.as_str()),
        }
        body.append("\n");
        proof {
            reveal_strlit("=> ");
            reveal_strlit(" ");
            reveal_strlit("\n");
            assert(" "@ =~= seq![' ']);
            assert("\n"@ =~= seq!['\n']);
            assert(nv[i as int] == names@[i as int]@);
            assert(body@ =~= bi + line_for(base@, nv[i as int], icon@));
            assert(lines_from(base@, nv, icon@, i as int) == line_for(base@, nv[i as int], icon@)
                + lines_from(base@, nv, icon@, i + 1));
            assert(body@ + lines_from(base@, nv, icon@, i + 1) =~= bi + (line_for(
                base@,
                nv[i as int],
                icon@,
            ) + lines_from(base@, nv, icon@, i + 1)));
        }
        i = i + 1;
    }
    proof {
        assert(lines_from(base@, nv, icon@, nv.len() as int) == Seq::<char>::empty());
        assert(body@ + Seq::<char>::empty() =~= body@);
    }
}

} // verus!
