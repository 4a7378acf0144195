use vstd::prelude::*;
use vstd::string::StrSliceExecFns;
use vstd::string::StringExecFns;

use crate::error::GemcapsError;
use crate::strutil::{
    chars_vec, join_seq, join_strings, rfind_seq, rfind_str, lemma_rfind_seq, split_seq, split_str,
    str_eq,
};

verus! {

/// Two path pieces joined with exactly one `/` between them: trailing
/// slashes of the left piece and leading slashes of the right piece are
/// dropped first.
pub open spec fn spec_join(a: Seq<char>, b: Seq<char>) -> Seq<char>
    decreases a.len() + b.len(),
{
    if a.len() > 0 && a.last() == '/' {
        spec_join(a.drop_last(), b)
    } else if b.len() > 0 && b[0] == '/' {
        spec_join(a, b.skip(1))
    } else {
        a + seq!['/'] + b
    }
}

proof fn lemma_join_trim(a: Seq<char>, b: Seq<char>, ea: int, sb: int)
    requires
        0 <= ea <= a.len(),
        forall|k: int| ea <= k < a.len() ==> a[k] == '/',
        ea > 0 ==> a[ea - 1] != '/',
        0 <= sb <= b.len(),
        forall|k: int| 0 <= k < sb ==> b[k] == '/',
        sb < b.len() ==> b[sb as int] != '/',
    ensures
        spec_join(a, b) == a.take(ea) + seq!['/'] + b.skip(sb),
    decreases a.len() + b.len(),
{
    if a.len() > 0 && a.last() == '/' {
        assert(ea < a.len());
        lemma_join_trim(a.drop_last(), b, ea, sb);
        assert(a.drop_last().take(ea) =~= a.take(ea));
    } else if b.len() > 0 && b[0] == '/' {
        assert(sb >= 1);
        lemma_join_trim(a, b.skip(1), ea, sb - 1);
        assert(b.skip(1).skip(sb - 1) =~= b.skip(sb));
    } else {
        assert(ea == a.len());
        assert(sb == 0);
        assert(a.take(ea) =~= a);
        assert(b.skip(0) =~= b);
    }
}

/// Join two paths with one and only one `/` between them.
pub fn join(path_a: &str, path_b: &str) -> (r: String)
    ensures
        r@ == spec_join(path_a@, path_b@),
{
    let na = path_a.unicode_len();
    let mut ea = na;
    while ea > 0 && path_a.get_char(ea - 1) == '/'
        invariant
            ea <= na,
            na == path_a@.len(),
            forall|k: int| ea <= k < na ==> path_a@[k] == '/',
        decreases ea,
    {
        ea = ea - 1;
    }
    let nb = path_b.unicode_len();
    let mut sb: usize = 0;
    while sb < nb && path_b.get_char(sb) == '/'
        invariant
            sb <= nb,
            nb == path_b@.len(),
            forall|k: int| 0 <= k < sb ==> path_b@[k] == '/',
        decreases nb - sb,
    {
        sb = sb + 1;
    }
    let mut r = path_a.substring_char(0, ea).to_owned();
    r.append("/");
    r.append(path_b.substring_char(sb, nb));
    proof {
        reveal_strlit("/");
        lemma_join_trim(path_a@, path_b@, ea as int, sb as int);
        assert(path_a@.subrange(0, ea as int) =~= path_a@.take(ea as int));
        assert(path_b@.subrange(sb as int, nb as int) =~= path_b@.skip(sb as int));
    }
    r
}

/// Fold the split path components left to right, resolving `..` against the
/// components kept so far; empty components and `.` are dropped. `None`
/// means the path tried to climb above its root.
pub open spec fn traverse_from(parts: Seq<Seq<char>>, i: int, acc: Seq<Seq<char>>) -> Option<
    Seq<Seq<char>>,
>
    decreases parts.len() - i,
{
    if i < 0 || i >= parts.len() {
        Some(acc)
    } else if parts[i].len() == 0 || parts[i] == seq!['.'] {
        traverse_from(parts, i + 1, acc)
    } else if parts[i] == seq!['.', '.'] {
        if acc.len() == 0 {
            None
        } else {
            traverse_from(parts, i + 1, acc.drop_last())
        }
    } else {
        traverse_from(parts, i + 1, acc.push(parts[i]))
    }
}

/// The resolved form of a path whose `..` components never climb above the
/// root (for an absolute path) or the starting directory (for a relative
/// one); `None` where they do.
pub open spec fn spec_traversal_safe(s: Seq<char>) -> Option<Seq<char>> {
    match traverse_from(split_seq(s, '/'), 0, Seq::empty()) {
        Option::None => Option::None,
        Option::Some(acc) => Option::Some(
            if s.len() > 0 && s[0] == '/' {
                seq!['/'] + join_seq(acc, seq!['/'])
            } else {
                join_seq(acc, seq!['/'])
            },
        ),
    }
}

/// Resolve the `..` components of a path, refusing any path that would
/// escape its implicit root.
pub fn traversal_safe(path: &str) -> (r: Result<String, GemcapsError>)
    ensures
        r is Ok <==> spec_traversal_safe(path@) is Some,
        r is Ok ==> r.unwrap()@ == spec_traversal_safe(path@).unwrap(),
{
    let parts = split_str(path, '/');
    let ghost pv = parts@.map_values(|m: String| m@);
    let mut acc: Vec<String> = Vec::new();
    proof {
        assert(acc@.map_values(|m: String| m@) =~= Seq::<Seq<char>>::empty());
    }
    let mut i: usize = 0;
    while i < parts.len()
        invariant
            i <= parts@.len(),
            pv == parts@.map_values(|m: String| m@),
            pv == split_seq(path@, '/'),
            traverse_from(pv, 0, Seq::<Seq<char>>::empty()) == traverse_from(
                pv,
                i as int,
                acc@.map_values(|m: String| m@),
            ),
        decreases parts@.len() - i,
    {
        let part = &parts[i];
        proof {
            reveal_strlit(".");
            reveal_strlit("..");
            assert("."@ =~= seq!['.']);
            assert(".."@ =~= seq!['.', '.']);
            assert(pv[i as int] == parts@[i as int]@);
        }
        if part.as_str().unicode_len() == 0 || str_eq(part.as_str(), ".") {
            // dropped
        } else if str_eq(part.as_str(), "..") {
            if acc.len() == 0 {
                proof {
                    assert(traverse_from(pv, i as int, acc@.map_values(|m: String| m@))
                        is None);
                }
                return Err(GemcapsError::new("path traversal escapes the root directory"));
            }
            let ghost a0 = acc@.map_values(|m: String| m@);
            acc.pop();
            proof {
                assert(acc@.map_values(|m: String| m@) =~= a0.drop_last());
            }
        } else {
            let ghost a0 = acc@.map_values(|m: String| m@);
            acc.push(part.clone());
            proof {
                assert(cloned::<String>(parts@[i as int], acc@.last()));
                assert(acc@.map_values(|m: String| m@) =~= a0.push(pv[i as int]));
            }
        }
        i = i + 1;
    }
    let joined = join_strings(&acc, "/");
    proof {
        reveal_strlit("/");
        assert("/"@ =~= seq!['/']);
        assert(traverse_from(pv, pv.len() as int, acc@.map_values(|m: String| m@)) == Some(
            acc@.map_values(|m: String| m@),
        ));
    }
    if path.unicode_len() > 0 && path.get_char(0) == '/' {
        let mut r = String::from_str("/");
        r.append(joined.as_str());
        proof {
            assert(r@ =~= seq!['/'] + joined@);
        }
        Ok(r)
    } else {
        Ok(joined)
    }
}

/// The final element of the path: the last component, ignoring at most one
/// trailing slash; the path itself where there is no such component.
pub open spec fn spec_basename(s: Seq<char>) -> Seq<char> {
    let e = if s.len() > 0 && s.last() == '/' {
        s.len() - 1
    } else {
        s.len() as int
    };
    let t = s.take(e);
    let p = rfind_seq(t, '/');
    if p == -1 {
        s
    } else if p == t.len() - 1 {
        s
    } else {
        t.skip(p + 1)
    }
}

/// Get the final element in the path.
pub fn basename<'a>(path: &'a str) -> (r: &'a str)
    ensures
        r@ == spec_basename(path@),
{
    let n = path.unicode_len();
    let e = if n > 0 && path.get_char(n - 1) == '/' {
        n - 1
    } else {
        n
    };
    let t = path.substring_char(0, e);
    proof {
        assert(t@ =~= path@.take(e as int));
        lemma_rfind_seq(t@, '/');
    }
    match rfind_str(t, '/') {
        Option::None => path,
        Option::Some(p) => {
            if p + 1 == e {
                path
            } else {
                let r = path.substring_char(p + 1, e);
                proof {
                    assert(r@ =~= path@.take(e as int).skip(p + 1));
                }
                r
            }
        },
    }
}

/// The parent directory of the path: `None` for the root; paths that end in
/// `..` (or are empty) gain another `../`; otherwise the last component and
/// at most one trailing slash are removed.
pub open spec fn spec_parent(s: Seq<char>) -> Option<Seq<char>> {
    if s == seq!['/'] {
        Option::None
    } else if s.len() == 0 || ends_with_updir(s) {
        Option::Some(
            if s.len() > 0 && s.last() != '/' {
                s + seq!['/', '.', '.', '/']
            } else {
                s + seq!['.', '.', '/']
            },
        )
    } else {
        let e = if s.len() > 0 && s.last() == '/' {
            s.len() - 1
        } else {
            s.len() as int
        };
        if e == 0 || s[e - 1] == '/' {
            Option::Some(s)
        } else {
            let p = rfind_seq(s.take(e), '/');
            Option::Some(s.take(p + 1))
        }
    }
}

/// The path ends in `..` or `../`.
pub open spec fn ends_with_updir(s: Seq<char>) -> bool {
    ||| s.len() >= 2 && s[s.len() - 2] == '.' && s[s.len() - 1] == '.'
    ||| s.len() >= 3 && s[s.len() - 3] == '.' && s[s.len() - 2] == '.' && s[s.len() - 1] == '/'
}

/// Get the parent directory of the path.
pub fn parent(path: &str) -> (r: Option<String>)
    ensures
        r is Some <==> spec_parent(path@) is Some,
        r is Some ==> r.unwrap()@ == spec_parent(path@).unwrap(),
{
    let n = path.unicode_len();
    proof {
        reveal_strlit("/");
    }
    if n == 1 && path.get_char(0) == '/' {
        proof {
            assert(path@ =~= seq!['/']);
        }
        return None;
    }
    proof {
        assert(path@ != seq!['/']);
    }
    let is_up = (n >= 2 && path.get_char(n - 2) == '.' && path.get_char(n - 1) == '.') || (n >= 3
        && path.get_char(n - 3) == '.' && path.get_char(n - 2) == '.' && path.get_char(n - 1)
        == '/');
    if n == 0 || is_up {
        let mut r = path.to_owned();
        if n > 0 && path.get_char(n - 1) != '/' {
            r.append("/../");
            proof {
                reveal_strlit("/../");
                assert(r@ =~= path@ + seq!['/', '.', '.', '/']);
            }
        } else {
            r.append("../");
            proof {
                reveal_strlit("../");
                assert(r@ =~= path@ + seq!['.', '.', '/']);
            }
        }
        return Some(r);
    }
    let e = if n > 0 && path.get_char(n - 1) == '/' {
        n - 1
    } else {
        n
    };
    if e == 0 || path.get_char(e - 1) == '/' {
        return Some(path.to_owned());
    }
    let t = path.substring_char(0, e);
    proof {
        assert(t@ =~= path@.take(e as int));
        lemma_rfind_seq(t@, '/');
    }
    match rfind_str(t, '/') {
        Option::None => {
            let r = path.substring_char(0, 0).to_owned();
            proof {
                assert(r@ =~= path@.take(rfind_seq(path@.take(e as int), '/') + 1));
            }
            Some(r)
        },
        Option::Some(p) => {
            let r = path.substring_char(0, p + 1).to_owned();
            proof {
                assert(r@ =~= path@.take(rfind_seq(path@.take(e as int), '/') + 1));
            }
            Some(r)
        },
    }
}

/// A byte kept verbatim by percent-encoding: ASCII alphanumerics and
/// `-` `.` `_` `~`.
pub open spec fn is_unreserved(b: u8) -> bool {
    ||| 0x30 <= b <= 0x39
    ||| 0x41 <= b <= 0x5a
    ||| 0x61 <= b <= 0x7a
    ||| b == 0x2d
    ||| b == 0x2e
    ||| b == 0x5f
    ||| b == 0x7e
}

/// The uppercase hex digit for a value below 16.
pub open spec fn hex_upper(d: u8) -> char
    recommends
        d < 16,
{
    if d < 10 {
        (d + 0x30) as char
    } else {
        (d + 0x37) as char
    }
}

/// How one byte is percent-encoded.
pub open spec fn encode_byte(b: u8) -> Seq<char> {
    if is_unreserved(b) {
        seq![b as char]
    } else {
        seq!['%', hex_upper(b / 16), hex_upper(b % 16)]
    }
}

/// The percent-encoding of a byte string.
pub open spec fn percent_encode(s: Seq<u8>) -> Seq<char>
    decreases s.len(),
{
    if s.len() == 0 {
        Seq::<char>::empty()
    } else {
        encode_byte(s[0]) + percent_encode(s.skip(1))
    }
}

/// The percent-encoding of a path: as `percent_encode`, but `/` is kept.
pub open spec fn percent_encode_path(s: Seq<u8>) -> Seq<char>
    decreases s.len(),
{
    if s.len() == 0 {
        Seq::<char>::empty()
    } else if s[0] == 0x2f {
        seq!['/'] + percent_encode_path(s.skip(1))
    } else {
        encode_byte(s[0]) + percent_encode_path(s.skip(1))
    }
}

proof fn lemma_pep_concat(a: Seq<u8>, b: Seq<u8>)
    ensures
        percent_encode_path(a + b) == percent_encode_path(a) + percent_encode_path(b),
    decreases a.len(),
{
    if a.len() == 0 {
        assert(a + b =~= b);
        assert(Seq::<char>::empty() + percent_encode_path(b) =~= percent_encode_path(b));
    } else {
        lemma_pep_concat(a.skip(1), b);
        assert((a + b).skip(1) =~= a.skip(1) + b);
        assert((a + b)[0] == a[0]);
        if a[0] == 0x2f {
            assert(seq!['/'] + (percent_encode_path(a.skip(1)) + percent_encode_path(b))
                =~= (seq!['/'] + percent_encode_path(a.skip(1))) + percent_encode_path(b));
        } else {
            assert(encode_byte(a[0]) + (percent_encode_path(a.skip(1)) + percent_encode_path(b))
                =~= (encode_byte(a[0]) + percent_encode_path(a.skip(1))) + percent_encode_path(b));
        }
    }
}

proof fn lemma_pep_no_slash(p: Seq<u8>)
    requires
        forall|k: int| 0 <= k < p.len() ==> p[k] != 0x2f,
    ensures
        percent_encode_path(p) == percent_encode(p),
    decreases p.len(),
{
    if p.len() > 0 {
        lemma_pep_no_slash(p.skip(1));
    }
}

/// Relies on urlencoding::encode_binary: every byte except an ASCII
/// alphanumeric and `-` `.` `_` `~` becomes `%` and two uppercase hex
/// digits; the others stay as they are.
#[verifier::external_body]
pub(crate) fn encode_component(data: &[u8]) -> (r: String)
    ensures
        r@ == percent_encode(data@),
{
    urlencoding::encode_binary(data).into_owned()
}

/// Percent-encode a byte path, keeping every `/` as it is.
pub fn encode_binary(data: &[u8]) -> (r: String)
    ensures
        r@ == percent_encode_path(data@),
{
    let n = data.len();
    let mut r = String::new();
    let mut start: usize = 0;
    let mut i: usize = 0;
    proof {
        assert(data@.take(0) =~= Seq::<u8>::empty());
        assert(data@.subrange(0, 0) =~= Seq::<u8>::empty());
    }
    while i < n
        invariant
            start <= i <= n,
            n == data@.len(),
            forall|k: int| start <= k < i ==> data@[k] != 0x2f,
            r@ + percent_encode(data@.subrange(start as int, i as int)) == percent_encode_path(
                data@.take(start as int),
            ) + percent_encode(data@.subrange(start as int, i as int)),
            r@ == percent_encode_path(data@.take(start as int)),
        decreases n - i,
    {
        if *vstd::slice::slice_index_get(data, i) == 0x2f {
            let piece = vstd::slice::slice_subrange(data, start, i);
            r.append(encode_component(piece).as_str());
            r.append("/");
            proof {
                reveal_strlit("/");
                assert("/"@ =~= seq!['/']);
                lemma_pep_no_slash(data@.subrange(start as int, i as int));
                assert(data@.take(start as int) + data@.subrange(start as int, i as int)
                    =~= data@.take(i as int));
                lemma_pep_concat(data@.take(start as int), data@.subrange(start as int, i as int));
                assert(data@.take(i as int) + seq![data@[i as int]] =~= data@.take(i + 1));
                lemma_pep_concat(data@.take(i as int), seq![data@[i as int]]);
                let sb = seq![data@[i as int]];
                assert(sb.len() == 1 && sb[0] == 0x2f);
                assert(sb.skip(1) =~= Seq::<u8>::empty());
                assert(percent_encode_path(Seq::<u8>::empty()) == Seq::<char>::empty());
                assert(percent_encode_path(sb) == seq!['/'] + percent_encode_path(sb.skip(1)));
                assert(seq!['/'] + Seq::<char>::empty() =~= seq!['/']);
                assert(percent_encode_path(sb) =~= seq!['/']);
            }
            start = i + 1;
            proof {
                assert(data@.subrange(start as int, start as int) =~= Seq::<u8>::empty());
            }
        }
        i = i + 1;
    }
    let piece = vstd::slice::slice_subrange(data, start, n);
    r.append(encode_component(piece).as_str());
    proof {
        lemma_pep_no_slash(data@.subrange(start as int, n as int));
        assert(data@.take(start as int) + data@.subrange(start as int, n as int) =~= data@);
        lemma_pep_concat(data@.take(start as int), data@.subrange(start as int, n as int));
    }
    r
}

/// Percent-encode a path string, keeping every `/` as it is.
pub fn encode(path: &str) -> (r: String)
    ensures
        r@ == percent_encode_path(vstd::utf8::encode_utf8(path@)),
{
    encode_binary(path.as_bytes())
}

/// A hex digit, of either case.
pub open spec fn is_hex_digit(b: u8) -> bool {
    ||| 0x30 <= b <= 0x39
    ||| 0x41 <= b <= 0x46
    ||| 0x61 <= b <= 0x66
}

/// The value of a hex digit.
pub open spec fn hex_value(b: u8) -> u8
    recommends
        is_hex_digit(b),
{
    if 0x30 <= b <= 0x39 {
        (b - 0x30) as u8
    } else if 0x41 <= b <= 0x46 {
        (b - 0x37) as u8
    } else {
        (b - 0x57) as u8
    }
}

/// The percent-decoding of a byte string: `%` followed by two hex digits
/// becomes that byte; a malformed escape is kept literally, giving back its
/// first decodable character.
pub open spec fn percent_decode(s: Seq<u8>) -> Seq<u8>
    decreases s.len(),
{
    if s.len() == 0 {
        Seq::<u8>::empty()
    } else if s[0] != 0x25 {
        seq![s[0]] + percent_decode(s.skip(1))
    } else if s.len() < 3 {
        seq![0x25u8] + s.skip(1)
    } else if is_hex_digit(s[1]) && is_hex_digit(s[2]) {
        seq![(hex_value(s[1]) * 16 + hex_value(s[2])) as u8] + percent_decode(s.skip(3))
    } else if is_hex_digit(s[1]) {
        seq![0x25u8, s[1]] + percent_decode(s.skip(2))
    } else {
        seq![0x25u8] + percent_decode(s.skip(1))
    }
}

/// Relies on urlencoding::decode_binary: `%XY` with two hex digits becomes
/// the byte `XY`; a `%` of a malformed escape stays, and scanning resumes
/// after the part that was kept.
#[verifier::external_body]
pub fn decode_binary(data: &[u8]) -> (r: Vec<u8>)
    ensures
        r@ == percent_decode(data@),
{
    urlencoding::decode_binary(data).into_owned()
}


/// One character replaced by another throughout.
pub open spec fn replace_seq(s: Seq<char>, from: char, to: char) -> Seq<char> {
    s.map_values(|c: char| if c == from { to } else { c })
}

/// Joining the pieces of a split with a one-character separator replaces
/// that separator throughout.
proof fn lemma_split_join_replace(s: Seq<char>, a: char, b: char)
    ensures
        join_seq(split_seq(s, a), seq![b]) == replace_seq(s, a, b),
    decreases s.len(),
{
    crate::strutil::lemma_split_seq_len(s, a);
    if s.len() == 0 {
        assert(replace_seq(s, a, b) =~= Seq::<char>::empty());
    } else if s[0] == a {
        lemma_split_join_replace(s.skip(1), a, b);
        crate::strutil::lemma_split_seq_len(s.skip(1), a);
        let parts = seq![Seq::<char>::empty()] + split_seq(s.skip(1), a);
        assert(parts.skip(1) =~= split_seq(s.skip(1), a));
        assert(parts[0] + seq![b] + join_seq(parts.skip(1), seq![b]) =~= seq![b] + replace_seq(
            s.skip(1),
            a,
            b,
        ));
        assert(replace_seq(s, a, b) =~= seq![b] + replace_seq(s.skip(1), a, b));
    } else {
        lemma_split_join_replace(s.skip(1), a, b);
        let rest = split_seq(s.skip(1), a);
        let parts = seq![seq![s[0]] + rest[0]] + rest.skip(1);
        assert(replace_seq(s, a, b) =~= seq![s[0]] + replace_seq(s.skip(1), a, b));
        if rest.len() == 1 {
            assert(parts.len() == 1);
            assert(join_seq(rest, seq![b]) == rest[0]);
            assert(join_seq(parts, seq![b]) == seq![s[0]] + rest[0]);
        } else {
            assert(parts.skip(1) =~= rest.skip(1));
            assert(join_seq(parts, seq![b]) == parts[0] + seq![b] + join_seq(
                parts.skip(1),
                seq![b],
            ));
            assert(join_seq(rest, seq![b]) == rest[0] + seq![b] + join_seq(rest.skip(1), seq![b]));
            assert((seq![s[0]] + rest[0]) + seq![b] + join_seq(rest.skip(1), seq![b]) =~= seq![
                s[0],
            ] + (rest[0] + seq![b] + join_seq(rest.skip(1), seq![b])));
        }
    }
}

/// Fold the split path components left to right, dropping `.`, resolving
/// `..` against the components kept so far, and letting excess `..` pile up
/// at the front; empty components are kept.
pub open spec fn expand_from(parts: Seq<Seq<char>>, i: int, acc: Seq<Seq<char>>) -> Seq<Seq<char>>
    decreases parts.len() - i,
{
    if i < 0 || i >= parts.len() {
        acc
    } else if parts[i] == seq!['.'] {
        expand_from(parts, i + 1, acc)
    } else if parts[i] == seq!['.', '.'] {
        if acc.len() == 0 || acc.last() == seq!['.', '.'] {
            expand_from(parts, i + 1, acc.push(seq!['.', '.']))
        } else {
            expand_from(parts, i + 1, acc.drop_last())
        }
    } else {
        expand_from(parts, i + 1, acc.push(parts[i]))
    }
}

/// The expansion of a relative path: `\\` becomes `/`, then `.` and `..`
/// components are resolved.
pub open spec fn spec_expand_relative(t: Seq<char>) -> Seq<char> {
    join_seq(
        expand_from(split_seq(replace_seq(t, '\\', '/'), '/'), 0, Seq::empty()),
        seq!['/'],
    )
}

/// The expansion of a path: a relative path may keep leading `..`
/// components; an absolute path that climbs above the root is refused.
pub open spec fn spec_expand(s: Seq<char>) -> Option<Seq<char>> {
    if s.len() > 0 && s[0] == '/' {
        let r = spec_expand_relative(s.skip(1));
        if r.len() >= 2 && r[0] == '.' && r[1] == '.' {
            Option::None
        } else {
            Option::Some(spec_join(seq!['/'], r))
        }
    } else {
        Option::Some(spec_expand_relative(s))
    }
}

fn expand_relative(t: &str) -> (r: String)
    ensures
        r@ == spec_expand_relative(t@),
{
    let replaced_parts = split_str(t, '\\');
    let replaced = join_strings(&replaced_parts, "/");
    proof {
        reveal_strlit("/");
        assert("/"@ =~= seq!['/']);
        lemma_split_join_replace(t@, '\\', '/');
    }
    let parts = split_str(replaced.as_str(), '/');
    let ghost pv = parts@.map_values(|m: String| m@);
    let mut acc: Vec<String> = Vec::new();
    proof {
        assert(acc@.map_values(|m: String| m@) =~= Seq::<Seq<char>>::empty());
    }
    let mut i: usize = 0;
    while i < parts.len()
        invariant
            i <= parts@.len(),
            pv == parts@.map_values(|m: String| m@),
            expand_from(pv, 0, Seq::<Seq<char>>::empty()) == expand_from(
                pv,
                i as int,
                acc@.map_values(|m: String| m@),
            ),
        decreases parts@.len() - i,
    {
        let part = &parts[i];
        proof {
            reveal_strlit(".");
            reveal_strlit("..");
            assert("."@ =~= seq!['.']);
            assert(".."@ =~= seq!['.', '.']);
            assert(pv[i as int] == parts@[i as int]@);
        }
        if str_eq(part.as_str(), ".") {
            // dropped
        } else if str_eq(part.as_str(), "..") {
            let push_updir = if acc.len() == 0 {
                true
            } else {
                str_eq(acc[acc.len() - 1].as_str(), "..")
            };
            let ghost a0 = acc@.map_values(|m: String| m@);
            if push_updir {
                acc.push("..".to_owned());
                proof {
                    assert(acc@.map_values(|m: String| m@) =~= a0.push(seq!['.', '.']));
                }
            } else {
                acc.pop();
                proof {
                    assert(acc@.map_values(|m: String| m@) =~= a0.drop_last());
                }
            }
        } else {
            let ghost a0 = acc@.map_values(|m: String| m@);
            acc.push(part.clone());
            proof {
                assert(cloned::<String>(parts@[i as int], acc@.last()));
                assert(acc@.map_values(|m: String| m@) =~= a0.push(pv[i as int]));
            }
        }
        i = i + 1;
    }
    let joined = join_strings(&acc, "/");
    proof {
        assert(expand_from(pv, pv.len() as int, acc@.map_values(|m: String| m@)) == acc@.map_values(
            |m: String| m@,
        ));
    }
    joined
}

/// Expand any `.` or `..` in a path. A relative path may keep leading `..`
/// components; an absolute path that climbs above the root is an error.
pub fn expand(path: &str) -> (r: Result<String, GemcapsError>)
    ensures
        r is Ok <==> spec_expand(path@) is Some,
        r is Ok ==> r.unwrap()@ == spec_expand(path@).unwrap(),
{
    let n = path.unicode_len();
    if n > 0 && path.get_char(0) == '/' {
        let rest = path.substring_char(1, n);
        proof {
            assert(rest@ =~= path@.skip(1));
        }
        let rel = expand_relative(rest);
        let rn = rel.as_str().unicode_len();
        if rn >= 2 && rel.as_str().get_char(0) == '.' && rel.as_str().get_char(1) == '.' {
            return Err(GemcapsError::new("path expands beyond the root directory"));
        }
        proof {
            reveal_strlit("/");
            assert("/"@ =~= seq!['/']);
        }
        Ok(join("/", rel.as_str()))
    } else {
        Ok(expand_relative(path))
    }
}

/// The table mapping file extensions to MIME types.
pub struct MimeTable {
    entries: Vec<(String, String)>,
}

/// The first value bound to `key` in the table.
pub open spec fn table_lookup(t: Seq<(Seq<char>, Seq<char>)>, key: Seq<char>) -> Option<Seq<char>>
    decreases t.len(),
{
    if t.len() == 0 {
        Option::None
    } else if t[0].0 == key {
        Option::Some(t[0].1)
    } else {
        table_lookup(t.skip(1), key)
    }
}

/// The fallback MIME type.
pub open spec fn octet_stream() -> Seq<char> {
    seq![
        'a', 'p', 'p', 'l', 'i', 'c', 'a', 't', 'i', 'o', 'n', '/', 'o', 'c', 't', 'e', 't', '-',
        's', 't', 'r', 'e', 'a', 'm',
    ]
}

/// The extension of the path: what follows the last `.` of the last
/// component, provided that `.` is not the component's first character.
pub open spec fn spec_extension(path: Seq<char>) -> Option<Seq<char>> {
    let name = path.skip(rfind_seq(path, '/') + 1);
    let p = rfind_seq(name, '.');
    if p <= 0 {
        Option::None
    } else {
        Option::Some(name.skip(p + 1))
    }
}

/// The MIME type of the path: the table entry for its extension, the
/// table's `bin` entry where there is none, and `application/octet-stream`
/// as the last resort.
pub open spec fn spec_mimetype(t: Seq<(Seq<char>, Seq<char>)>, path: Seq<char>) -> Seq<char> {
    let fallback = match table_lookup(t, seq!['b', 'i', 'n']) {
        Option::Some(m) => m,
        Option::None => octet_stream(),
    };
    match spec_extension(path) {
        Option::None => fallback,
        Option::Some(e) => match table_lookup(t, e) {
            Option::Some(m) => m,
            Option::None => fallback,
        },
    }
}

impl View for MimeTable {
    type V = Seq<(Seq<char>, Seq<char>)>;

    closed spec fn view(&self) -> Seq<(Seq<char>, Seq<char>)> {
        self.entries@.map_values(|e: (String, String)| (e.0@, e.1@))
    }
}

impl MimeTable {
    /// Build the table from extension and MIME type pairs.
    pub fn new(entries: Vec<(String, String)>) -> (r: MimeTable)
        ensures
            r@ == entries@.map_values(|e: (String, String)| (e.0@, e.1@)),
    {
        MimeTable { entries }
    }

    fn lookup(&self, key: &str) -> (r: Option<&String>)
        ensures
            r is Some <==> table_lookup(self@, key@) is Some,
            r is Some ==> r.unwrap()@ == table_lookup(self@, key@).unwrap(),
    {
        proof {
            assert(self@.skip(0) =~= self@);
        }
        let mut i: usize = 0;
        while i < self.entries.len()
            invariant
                i <= self.entries@.len(),
                self@ == self.entries@.map_values(|e: (String, String)| (e.0@, e.1@)),
                table_lookup(self@, key@) == table_lookup(self@.skip(i as int), key@),
            decreases self.entries@.len() - i,
        {
            proof {
                assert(self@.skip(i as int)[0] == self@[i as int]);
                assert(self@.skip(i as int).skip(1) =~= self@.skip(i + 1));
            }
            if str_eq(self.entries[i].0.as_str(), key) {
                return Some(&self.entries[i].1);
            }
            i = i + 1;
        }
        proof {
            assert(self@.skip(self@.len() as int).len() == 0);
        }
        None
    }
}

/// Get the MIME type of a file from its name's extension.
pub fn get_mimetype(table: &MimeTable, path: &str) -> (r: String)
    ensures
        r@ == spec_mimetype(table@, path@),
{
    let n = path.unicode_len();
    proof {
        lemma_rfind_seq(path@, '/');
    }
    let start = match rfind_str(path, '/') {
        Option::Some(p) => p + 1,
        Option::None => 0,
    };
    let name = path.substring_char(start, n);
    proof {
        assert(name@ =~= path@.skip(rfind_seq(path@, '/') + 1));
        lemma_rfind_seq(name@, '.');
        reveal_strlit("bin");
        assert("bin"@ =~= seq!['b', 'i', 'n']);
    }
    let ext = match rfind_str(name, '.') {
        Option::Some(p) if p > 0 => Some(name.substring_char(p + 1, name.unicode_len())),
        _ => None,
    };
    let looked = match ext {
        Some(e) => {
            proof {
                assert(e@ =~= name@.skip(rfind_seq(name@, '.') + 1));
            }
            self_lookup_or_bin(table, Some(e))
        },
        None => self_lookup_or_bin(table, None),
    };
    looked
}

fn self_lookup_or_bin(table: &MimeTable, ext: Option<&str>) -> (r: String)
    ensures
        r@ == {
            let fallback = match table_lookup(table@, seq!['b', 'i', 'n']) {
                Option::Some(m) => m,
                Option::None => octet_stream(),
            };
            match ext {
                Option::None => fallback,
                Option::Some(e) => match table_lookup(table@, e@) {
                    Option::Some(m) => m,
                    Option::None => fallback,
                },
            }
        },
{
    proof {
        reveal_strlit("bin");
        assert("bin"@ =~= seq!['b', 'i', 'n']);
        reveal_strlit("application/octet-stream");
        assert("application/octet-stream"@ =~= octet_stream());
    }
    if let Some(e) = ext {
        if let Some(m) = table.lookup(e) {
            return m.clone();
        }
    }
    match table.lookup("bin") {
        Some(m) => m.clone(),
        None => "application/octet-stream".to_owned(),
    }
}


/// The parent of a filesystem path, textually: everything before the last
/// `/`; the root has none, and a bare name's parent is the empty path.
pub open spec fn spec_fs_parent(s: Seq<char>) -> Option<Seq<char>> {
    if s.len() == 0 {
        Option::None
    } else if s == seq!['/'] {
        Option::None
    } else {
        let p = rfind_seq(s, '/');
        if p == -1 {
            Option::Some(Seq::<char>::empty())
        } else if p == 0 {
            Option::Some(seq!['/'])
        } else {
            Option::Some(s.take(p))
        }
    }
}

/// The parent of a filesystem path.
pub fn fs_parent(path: &str) -> (r: Option<String>)
    ensures
        r is Some <==> spec_fs_parent(path@) is Some,
        r is Some ==> r.unwrap()@ == spec_fs_parent(path@).unwrap(),
{
    let n = path.unicode_len();
    if n == 0 {
        return None;
    }
    if n == 1 && path.get_char(0) == '/' {
        proof {
            assert(path@ =~= seq!['/']);
        }
        return None;
    }
    proof {
        assert(path@ != seq!['/']);
        lemma_rfind_seq(path@, '/');
    }
    match rfind_str(path, '/') {
        Option::None => {
            let r = path.substring_char(0, 0).to_owned();
            proof {
                assert(r@ =~= Seq::<char>::empty());
            }
            Some(r)
        },
        Option::Some(p) => {
            if p == 0 {
                proof {
                    reveal_strlit("/");
                    assert("/"@ =~= seq!['/']);
                }
                Some("/".to_owned())
            } else {
                let r = path.substring_char(0, p).to_owned();
                proof {
                    assert(r@ =~= path@.take(p as int));
                }
                Some(r)
            }
        },
    }
}

/// The extension of the path's final component, where it has one.
pub fn extension_of<'a>(path: &'a str) -> (r: Option<&'a str>)
    ensures
        r is Some <==> spec_extension(path@) is Some,
        r is Some ==> r.unwrap()@ == spec_extension(path@).unwrap(),
{
    let n = path.unicode_len();
    proof {
        lemma_rfind_seq(path@, '/');
    }
    let start = match rfind_str(path, '/') {
        Option::Some(p) => p + 1,
        Option::None => 0,
    };
    let name = path.substring_char(start, n);
    proof {
        assert(name@ =~= path@.skip(rfind_seq(path@, '/') + 1));
        lemma_rfind_seq(name@, '.');
    }
    match rfind_str(name, '.') {
        Option::Some(p) if p > 0 => {
            let e = name.substring_char(p + 1, name.unicode_len());
            proof {
                assert(e@ =~= name@.skip(rfind_seq(name@, '.') + 1));
            }
            Some(e)
        },
        _ => None,
    }
}


} // verus!
