use vstd::prelude::*;
use vstd::multiset::Multiset;
use vstd::string::StrSliceExecFns;
use vstd::string::StringExecFns;

verus! {

/// Collect the characters of a string into a vector, so that callers can
/// index them in constant time.
pub fn chars_vec(s: &str) -> (v: Vec<char>)
    ensures
        v@ == s@,
{
    let n = s.unicode_len();
    let mut v: Vec<char> = Vec::new();
    let mut i: usize = 0;
    while i < n
        invariant
            i <= n,
            n == s@.len(),
            v@ == s@.take(i as int),
        decreases n - i,
    {
        v.push(s.get_char(i));
        proof {
            assert(v@ =~= s@.take(i + 1 as int));
        }
        i = i + 1;
    }
    proof {
        assert(v@ =~= s@);
    }
    v
}

/// Character-wise equality of two strings.
pub fn str_eq(a: &str, b: &str) -> (r: bool)
    ensures
        r == (a@ == b@),
{
    let na = a.unicode_len();
    let nb = b.unicode_len();
    if na != nb {
        proof {
            assert(a@ != b@);
        }
        return false;
    }
    let mut i: usize = 0;
    while i < na
        invariant
            i <= na,
            na == a@.len(),
            na == b@.len(),
            a@.take(i as int) == b@.take(i as int),
        decreases na - i,
    {
        if a.get_char(i) != b.get_char(i) {
            proof {
                assert(a@[i as int] != b@[i as int]);
            }
            return false;
        }
        proof {
            assert(a@.take(i + 1 as int) =~= a@.take(i as int).push(a@[i as int]));
            assert(b@.take(i + 1 as int) =~= b@.take(i as int).push(b@[i as int]));
        }
        i = i + 1;
    }
    proof {
        assert(a@.take(na as int) =~= a@);
        assert(b@.take(na as int) =~= b@);
    }
    true
}

/// The pieces of `s` between occurrences of the separator `sep`.
/// There is always at least one piece; a separator at either end or two in
/// a row contribute empty pieces.
pub open spec fn split_seq<T>(s: Seq<T>, sep: T) -> Seq<Seq<T>>
    decreases s.len(),
{
    if s.len() == 0 {
        seq![Seq::<T>::empty()]
    } else if s[0] == sep {
        seq![Seq::<T>::empty()] + split_seq(s.skip(1), sep)
    } else {
        let rest = split_seq(s.skip(1), sep);
        seq![seq![s[0]] + rest[0]] + rest.skip(1)
    }
}

pub proof fn lemma_split_seq_len<T>(s: Seq<T>, sep: T)
    ensures
        split_seq(s, sep).len() >= 1,
    decreases s.len(),
{
    if s.len() != 0 {
        lemma_split_seq_len(s.skip(1), sep);
    }
}

/// Splitting a string free of the separator yields the string alone.
pub proof fn lemma_split_no_sep<T>(s: Seq<T>, sep: T)
    requires
        forall|k: int| 0 <= k < s.len() ==> s[k] != sep,
    ensures
        split_seq(s, sep) =~= seq![s],
    decreases s.len(),
{
    if s.len() == 0 {
        assert(s =~= Seq::<T>::empty());
    } else {
        lemma_split_no_sep(s.skip(1), sep);
        assert(seq![s[0]] + s.skip(1) =~= s);
    }
}

/// Splitting at the first separator peels off the leading piece.
pub proof fn lemma_split_first_sep<T>(s: Seq<T>, sep: T, i: int)
    requires
        0 <= i < s.len(),
        s[i] == sep,
        forall|k: int| 0 <= k < i ==> s[k] != sep,
    ensures
        split_seq(s, sep) =~= seq![s.take(i)] + split_seq(s.skip(i + 1), sep),
    decreases i,
{
    if i == 0 {
        assert(s.take(0) =~= Seq::<T>::empty());
    } else {
        lemma_split_first_sep(s.skip(1), sep, i - 1);
        let rest = split_seq(s.skip(1), sep);
        assert(rest =~= seq![s.skip(1).take(i - 1)] + split_seq(s.skip(1).skip(i), sep));
        assert(s.skip(1).skip(i) =~= s.skip(i + 1));
        assert(seq![s[0]] + s.skip(1).take(i - 1) =~= s.take(i));
        assert(split_seq(s, sep) =~= seq![seq![s[0]] + rest[0]] + rest.skip(1));
        assert(rest.skip(1) =~= split_seq(s.skip(i + 1), sep));
    }
}

/// Split a string on a separator character.
pub fn split_str(s: &str, sep: char) -> (r: Vec<String>)
    ensures
        r@.map_values(|m: String| m@) == split_seq(s@, sep),
        r@.len() >= 1,
{
    let g = chars_vec(s);
    let mut pieces: Vec<String> = Vec::new();
    let mut start: usize = 0;
    proof {
        assert(s@.skip(0) =~= s@);
    }
    loop
        invariant
            start <= g@.len(),
            g@ == s@,
            split_seq(s@, sep) =~= pieces@.map_values(|m: String| m@) + split_seq(
                s@.skip(start as int),
                sep,
            ),
        decreases g@.len() - start,
    {
        let mut i = start;
        while i < g.len() && g[i] != sep
            invariant
                start <= i <= g@.len(),
                forall|k: int| start <= k < i ==> g@[k] != sep,
            decreases g@.len() - i,
        {
            i = i + 1;
        }
        let piece = s.substring_char(start, i).to_owned();
        pieces.push(piece);
        if i == g.len() {
            proof {
                lemma_split_no_sep(s@.skip(start as int), sep);
                assert(s@.skip(start as int) =~= s@.subrange(start as int, i as int));
                assert(pieces@.map_values(|m: String| m@) =~= pieces@.drop_last().map_values(
                    |m: String| m@,
                ).push(s@.subrange(start as int, i as int)));
                assert(split_seq(s@, sep) =~= pieces@.map_values(|m: String| m@));
                lemma_split_seq_len(s@, sep);
            }
            return pieces;
        }
        proof {
            lemma_split_first_sep(s@.skip(start as int), sep, i - start);
            assert(s@.skip(start as int).take(i - start) =~= s@.subrange(start as int, i as int));
            assert(s@.skip(start as int).skip(i - start + 1) =~= s@.skip(i + 1));
            assert(pieces@.map_values(|m: String| m@) =~= pieces@.drop_last().map_values(
                |m: String| m@,
            ).push(s@.subrange(start as int, i as int)));
        }
        start = i + 1;
    }
}

/// The strings stand in lexicographic order.
pub open spec fn sorted_lex(s: Seq<Seq<char>>) -> bool {
    forall|i: int, j: int| 0 <= i < j < s.len() ==> lex_le(s[i], s[j])
}

/// Everything in an insertion's result is the inserted string or one of the
/// run's own.
proof fn lemma_lex_insert_elems(s: Seq<Seq<char>>, x: Seq<char>)
    ensures
        lex_insert(s, x).len() == s.len() + 1,
        forall|k: int|
            0 <= k < lex_insert(s, x).len() ==> #[trigger] lex_insert(s, x)[k] == x || exists|j: int|
                0 <= j < s.len() && s[j] == lex_insert(s, x)[k],
    decreases s.len(),
{
    if s.len() > 0 && lex_le(s[0], x) {
        lemma_lex_insert_elems(s.skip(1), x);
        let r = lex_insert(s, x);
        assert forall|k: int|
            0 <= k < r.len() implies #[trigger] r[k] == x || exists|j: int|
            0 <= j < s.len() && s[j] == r[k] by {
            if k == 0 {
                assert(s[0] == r[0]);
            } else {
                assert(r[k] == lex_insert(s.skip(1), x)[k - 1]);
                if r[k] != x {
                    let j = choose|j: int|
                        0 <= j < s.skip(1).len() && s.skip(1)[j] == lex_insert(s.skip(1), x)[k - 1];
                    assert(s[j + 1] == r[k]);
                }
            }
        }
    }
}

proof fn lemma_lex_insert_sorted(s: Seq<Seq<char>>, x: Seq<char>)
    requires
        sorted_lex(s),
    ensures
        sorted_lex(lex_insert(s, x)),
    decreases s.len(),
{
    if s.len() == 0 {
    } else if lex_le(s[0], x) {
        assert(forall|i: int, j: int|
            0 <= i < j < s.skip(1).len() ==> lex_le(s.skip(1)[i], s.skip(1)[j]));
        lemma_lex_insert_sorted(s.skip(1), x);
        lemma_lex_insert_elems(s.skip(1), x);
        let r = lex_insert(s, x);
        let r1 = lex_insert(s.skip(1), x);
        assert forall|i: int, j: int| 0 <= i < j < r.len() implies lex_le(r[i], r[j]) by {
            if i == 0 {
                assert(r[j] == r1[j - 1]);
                if r1[j - 1] == x {
                } else {
                    let k = choose|k: int| 0 <= k < s.skip(1).len() && s.skip(1)[k] == r1[j - 1];
                    assert(s[k + 1] == r1[j - 1]);
                    assert(lex_le(s[0], s[k + 1]));
                }
            } else {
                assert(r[i] == r1[i - 1]);
                assert(r[j] == r1[j - 1]);
            }
        }
    } else {
        lemma_lex_le_total(s[0], x);
        let r = lex_insert(s, x);
        assert forall|i: int, j: int| 0 <= i < j < r.len() implies lex_le(r[i], r[j]) by {
            if i == 0 {
                assert(r[j] == s[j - 1]);
                if j == 1 {
                } else {
                    lemma_lex_le_trans(x, s[0], s[j - 1]);
                }
            } else {
                assert(r[i] == s[i - 1]);
                assert(r[j] == s[j - 1]);
            }
        }
    }
}

proof fn lemma_lex_insert_multiset(s: Seq<Seq<char>>, x: Seq<char>)
    ensures
        lex_insert(s, x).to_multiset() =~= s.to_multiset().insert(x),
    decreases s.len(),
{
    broadcast use vstd::seq_lib::group_to_multiset_ensures;

    if s.len() == 0 {
        assert(lex_insert(s, x) =~= Seq::<Seq<char>>::empty().push(x));
        assert(s.to_multiset() =~= Multiset::<Seq<char>>::empty());
    } else if lex_le(s[0], x) {
        lemma_lex_insert_multiset(s.skip(1), x);
        vstd::seq_lib::lemma_multiset_commutative(seq![s[0]], lex_insert(s.skip(1), x));
        vstd::seq_lib::lemma_multiset_commutative(seq![s[0]], s.skip(1));
        assert(seq![s[0]] + s.skip(1) =~= s);
        assert(seq![s[0]].to_multiset() =~= Multiset::<Seq<char>>::empty().insert(s[0]));
    } else {
        vstd::seq_lib::lemma_multiset_commutative(seq![x], s);
        assert(seq![x].to_multiset() =~= Multiset::<Seq<char>>::empty().insert(x));
    }
}

proof fn lemma_lex_sort_from_props(s: Seq<Seq<char>>, i: int, acc: Seq<Seq<char>>)
    requires
        0 <= i <= s.len(),
        sorted_lex(acc),
    ensures
        sorted_lex(lex_sort_from(s, i, acc)),
        lex_sort_from(s, i, acc).to_multiset() =~= acc.to_multiset().add(
            s.skip(i).to_multiset(),
        ),
    decreases s.len() - i,
{
    broadcast use vstd::seq_lib::group_to_multiset_ensures;

    if i == s.len() {
        assert(s.skip(i).to_multiset() =~= Multiset::<Seq<char>>::empty());
    } else {
        lemma_lex_insert_sorted(acc, s[i]);
        lemma_lex_insert_multiset(acc, s[i]);
        lemma_lex_sort_from_props(s, i + 1, lex_insert(acc, s[i]));
        vstd::seq_lib::lemma_multiset_commutative(seq![s[i]], s.skip(i + 1));
        assert(seq![s[i]] + s.skip(i + 1) =~= s.skip(i));
        assert(seq![s[i]].to_multiset() =~= Multiset::<Seq<char>>::empty().insert(s[i]));
    }
}

/// Sorting yields the same strings, in lexicographic order.
pub proof fn lemma_lex_sort_sorted(s: Seq<Seq<char>>)
    ensures
        sorted_lex(lex_sort(s)),
        lex_sort(s).to_multiset() =~= s.to_multiset(),
{
    broadcast use vstd::seq_lib::group_to_multiset_ensures;

    lemma_lex_sort_from_props(s, 0, Seq::empty());
    assert(s.skip(0) =~= s);
    assert(Seq::<Seq<char>>::empty().to_multiset() =~= Multiset::<Seq<char>>::empty());
}


/// The index of the last occurrence of `c` in `s`, or -1.
pub open spec fn rfind_seq(s: Seq<char>, c: char) -> int
    decreases s.len(),
{
    if s.len() == 0 {
        -1
    } else if s.last() == c {
        s.len() - 1
    } else {
        rfind_seq(s.drop_last(), c)
    }
}

pub proof fn lemma_rfind_seq(s: Seq<char>, c: char)
    ensures
        -1 <= rfind_seq(s, c) < s.len(),
        rfind_seq(s, c) >= 0 ==> s[rfind_seq(s, c)] == c,
        forall|k: int| rfind_seq(s, c) < k < s.len() ==> s[k] != c,
    decreases s.len(),
{
    if s.len() > 0 && s.last() != c {
        lemma_rfind_seq(s.drop_last(), c);
        assert forall|k: int| rfind_seq(s, c) < k < s.len() implies s[k] != c by {
            if k < s.len() - 1 {
                assert(s.drop_last()[k] == s[k]);
            }
        }
    }
}

/// The last occurrence of `c` in `s`, scanning from the end.
pub fn rfind_str(s: &str, c: char) -> (r: Option<usize>)
    ensures
        r == if rfind_seq(s@, c) >= 0 {
            Some(rfind_seq(s@, c) as usize)
        } else {
            Option::<usize>::None
        },
{
    let n = s.unicode_len();
    let mut i = n;
    while i > 0
        invariant
            i <= n,
            n == s@.len(),
            forall|k: int| i <= k < s@.len() ==> s@[k] != c,
        decreases i,
    {
        i = i - 1;
        if s.get_char(i) == c {
            proof {
                lemma_rfind_seq(s@, c);
                if rfind_seq(s@, c) > i {
                    assert(s@[rfind_seq(s@, c)] != c);
                }
                if rfind_seq(s@, c) < i {
                    assert(s@[i as int] != c);
                }
            }
            return Some(i);
        }
    }
    proof {
        lemma_rfind_seq(s@, c);
        if rfind_seq(s@, c) >= 0 {
            assert(s@[rfind_seq(s@, c)] != c);
        }
    }
    None
}

/// The pieces joined back together with `sep` between them.
pub open spec fn join_seq(parts: Seq<Seq<char>>, sep: Seq<char>) -> Seq<char>
    decreases parts.len(),
{
    if parts.len() == 0 {
        Seq::<char>::empty()
    } else if parts.len() == 1 {
        parts[0]
    } else {
        parts[0] + sep + join_seq(parts.skip(1), sep)
    }
}

spec fn tail_join(parts: Seq<Seq<char>>, sep: Seq<char>) -> Seq<char>
    decreases parts.len(),
{
    if parts.len() == 0 {
        Seq::<char>::empty()
    } else {
        sep + parts[0] + tail_join(parts.skip(1), sep)
    }
}

proof fn lemma_join_as_tail(pv: Seq<Seq<char>>, sep: Seq<char>)
    requires
        pv.len() >= 1,
    ensures
        join_seq(pv, sep) == pv[0] + tail_join(pv.skip(1), sep),
    decreases pv.len(),
{
    if pv.len() == 1 {
        assert(pv.skip(1).len() == 0);
        assert(pv[0] + Seq::<char>::empty() =~= pv[0]);
    } else {
        lemma_join_as_tail(pv.skip(1), sep);
        assert(pv.skip(1)[0] == pv[1]);
        assert(pv.skip(1).skip(1) =~= pv.skip(2));
        assert(pv[0] + (sep + pv[1] + tail_join(pv.skip(2), sep)) =~= pv[0] + sep + (pv[1]
            + tail_join(pv.skip(2), sep)));
        assert(pv[0] + sep + join_seq(pv.skip(1), sep) =~= pv[0] + (sep + pv[1] + tail_join(
            pv.skip(2),
            sep,
        )));
    }
}

/// Join strings with a separator.
pub fn join_strings(parts: &Vec<String>, sep: &str) -> (r: String)
    ensures
        r@ == join_seq(parts@.map_values(|m: String| m@), sep@),
{
    let ghost pv = parts@.map_values(|m: String| m@);
    let mut r = String::new();
    if parts.len() == 0 {
        return r;
    }
    r.append(parts[0].as_str());
    proof {
        lemma_join_as_tail(pv, sep@);
    }
    let mut i: usize = 1;
    while i < parts.len()
        invariant
            1 <= i <= parts@.len(),
            pv == parts@.map_values(|m: String| m@),
            join_seq(pv, sep@) == r@ + tail_join(pv.skip(i as int), sep@),
        decreases parts@.len() - i,
    {
        let ghost r0 = r@;
        r.append(sep);
        r.append(parts[i].as_str());
        proof {
            assert(pv.skip(i as int)[0] == pv[i as int]);
            assert(pv.skip(i as int).skip(1) =~= pv.skip(i + 1));
            assert(tail_join(pv.skip(i as int), sep@) == sep@ + pv[i as int] + tail_join(
                pv.skip(i + 1),
                sep@,
            ));
            assert(r0 + (sep@ + pv[i as int] + tail_join(pv.skip(i + 1), sep@)) =~= r0 + sep@
                + pv[i as int] + tail_join(pv.skip(i + 1), sep@));
            assert(r0 + (sep@ + pv[i as int]) =~= r0 + sep@ + pv[i as int]);
        }
        i = i + 1;
    }
    proof {
        assert(pv.skip(pv.len() as int).len() == 0);
        assert(r@ + Seq::<char>::empty() =~= r@);
    }
    r
}

/// Relies on String::from_utf8: it succeeds exactly on valid UTF-8 bytes
/// and yields the string those bytes encode.
#[verifier::external_body]
pub fn utf8_to_string(v: Vec<u8>) -> (r: Option<String>)
    ensures
        r is Some <==> vstd::utf8::valid_utf8(v@),
        r is Some ==> r.unwrap()@ == vstd::utf8::decode_utf8(v@),
{
    String::from_utf8(v).ok()
}


/// Lexicographic order on character sequences.
pub open spec fn lex_le(a: Seq<char>, b: Seq<char>) -> bool
    decreases a.len(),
{
    if a.len() == 0 {
        true
    } else if b.len() == 0 {
        false
    } else if a[0] != b[0] {
        a[0] < b[0]
    } else {
        lex_le(a.skip(1), b.skip(1))
    }
}

pub proof fn lemma_lex_le_total(a: Seq<char>, b: Seq<char>)
    ensures
        lex_le(a, b) || lex_le(b, a),
    decreases a.len(),
{
    if a.len() > 0 && b.len() > 0 && a[0] == b[0] {
        lemma_lex_le_total(a.skip(1), b.skip(1));
    }
}

pub proof fn lemma_lex_le_trans(a: Seq<char>, b: Seq<char>, c: Seq<char>)
    requires
        lex_le(a, b),
        lex_le(b, c),
    ensures
        lex_le(a, c),
    decreases a.len(),
{
    if a.len() > 0 && b.len() > 0 && c.len() > 0 && a[0] == b[0] && b[0] == c[0] {
        lemma_lex_le_trans(a.skip(1), b.skip(1), c.skip(1));
    }
}

/// Where a string is placed into a sorted run: after every string that
/// compares at or below it.
pub open spec fn lex_insert(s: Seq<Seq<char>>, x: Seq<char>) -> Seq<Seq<char>>
    decreases s.len(),
{
    if s.len() == 0 {
        seq![x]
    } else if lex_le(s[0], x) {
        seq![s[0]] + lex_insert(s.skip(1), x)
    } else {
        seq![x] + s
    }
}

/// Insertion sort, element by element from the left.
pub open spec fn lex_sort_from(s: Seq<Seq<char>>, i: int, acc: Seq<Seq<char>>) -> Seq<Seq<char>>
    decreases s.len() - i,
{
    if i < 0 || i >= s.len() {
        acc
    } else {
        lex_sort_from(s, i + 1, lex_insert(acc, s[i]))
    }
}

/// The strings in lexicographic order.
pub open spec fn lex_sort(s: Seq<Seq<char>>) -> Seq<Seq<char>> {
    lex_sort_from(s, 0, Seq::empty())
}

/// The order in which two strings compare, character by character.
pub fn str_le(a: &str, b: &str) -> (r: bool)
    ensures
        r == lex_le(a@, b@),
{
    let na = a.unicode_len();
    let nb = b.unicode_len();
    proof {
        assert(a@.skip(0) =~= a@);
        assert(b@.skip(0) =~= b@);
    }
    let mut i: usize = 0;
    loop
        invariant
            i <= na,
            i <= nb,
            na == a@.len(),
            nb == b@.len(),
            lex_le(a@, b@) == lex_le(a@.skip(i as int), b@.skip(i as int)),
        decreases na - i,
    {
        if i == na {
            proof {
                assert(a@.skip(i as int).len() == 0);
            }
            return true;
        }
        if i == nb {
            proof {
                assert(b@.skip(i as int).len() == 0);
                assert(a@.skip(i as int).len() > 0);
            }
            return false;
        }
        let ca = a.get_char(i);
        let cb = b.get_char(i);
        proof {
            assert(a@.skip(i as int)[0] == a@[i as int]);
            assert(b@.skip(i as int)[0] == b@[i as int]);
        }
        if ca != cb {
            return ca < cb;
        }
        proof {
            assert(a@.skip(i as int).skip(1) =~= a@.skip(i + 1));
            assert(b@.skip(i as int).skip(1) =~= b@.skip(i + 1));
        }
        i = i + 1;
    }
}

pub open spec fn seq_views(v: Seq<String>) -> Seq<Seq<char>> {
    v.map_values(|s: String| s@)
}

/// Sort strings lexicographically by insertion.
pub fn sort_strings(v: Vec<String>) -> (r: Vec<String>)
    ensures
        seq_views(r@) == lex_sort(seq_views(v@)),
{
    let ghost sv = seq_views(v@);
    let mut out: Vec<String> = Vec::new();
    proof {
        assert(seq_views(out@) =~~= Seq::<Seq<char>>::empty());
    }
    let mut i: usize = 0;
    while i < v.len()
        invariant
            i <= v@.len(),
            sv == seq_views(v@),
            lex_sort(sv) == lex_sort_from(sv, i as int, seq_views(out@)),
        decreases v@.len() - i,
    {
        let x = v[i].clone();
        proof {
            assert(x@ == sv[i as int]);
        }
        let ghost acc0 = seq_views(out@);
        proof {
            assert(seq_views(out@).skip(0) =~= seq_views(out@));
            assert(seq_views(out@).take(0) + lex_insert(seq_views(out@), x@) =~= lex_insert(
                seq_views(out@),
                x@,
            ));
        }
        // find the first position whose element does not compare at or
        // below the new string
        let mut p: usize = 0;
        while p < out.len() && str_le(out[p].as_str(), x.as_str())
            invariant
                p <= out@.len(),
                x@ == sv[i as int],
                acc0 == seq_views(out@),
                lex_insert(acc0, x@) == seq_views(out@).take(p as int) + lex_insert(
                    seq_views(out@).skip(p as int),
                    x@,
                ),
            decreases out@.len() - p,
        {
            proof {
                assert(seq_views(out@).skip(p as int)[0] == seq_views(out@)[p as int]);
                assert(seq_views(out@).skip(p as int).skip(1) =~= seq_views(out@).skip(p + 1));
                assert(seq_views(out@).take(p as int).push(seq_views(out@)[p as int]) =~= seq_views(
                    out@,
                ).take(p + 1));
                assert(seq_views(out@).take(p as int) + (seq![seq_views(out@)[p as int]]
                    + lex_insert(seq_views(out@).skip(p + 1), x@)) =~= seq_views(out@).take(p + 1)
                    + lex_insert(seq_views(out@).skip(p + 1), x@));
            }
            p = p + 1;
        }
        proof {
            let ov = seq_views(out@);
            if p < out@.len() {
                assert(ov.skip(p as int)[0] == ov[p as int]);
                assert(!lex_le(ov[p as int], x@));
                assert(lex_insert(ov.skip(p as int), x@) == seq![x@] + ov.skip(p as int));
            } else {
                assert(ov.skip(p as int).len() == 0);
            }
            assert(lex_insert(acc0, x@) =~= ov.take(p as int) + seq![x@] + ov.skip(p as int));
        }
        out.insert(p, x);
        proof {
            assert(seq_views(out@) =~= acc0.take(p as int) + seq![x@] + acc0.skip(p as int));
            assert(seq_views(out@) =~= lex_insert(acc0, x@));
        }
        i = i + 1;
    }
    proof {
        assert(lex_sort_from(sv, sv.len() as int, seq_views(out@)) == seq_views(out@));
    }
    out
}


/// The character of a decimal digit.
pub open spec fn digit_char(d: u8) -> char
    recommends
        d < 10,
{
    if d == 0 {
        '0'
    } else if d == 1 {
        '1'
    } else if d == 2 {
        '2'
    } else if d == 3 {
        '3'
    } else if d == 4 {
        '4'
    } else if d == 5 {
        '5'
    } else if d == 6 {
        '6'
    } else if d == 7 {
        '7'
    } else if d == 8 {
        '8'
    } else {
        '9'
    }
}

/// The string of a decimal digit.
pub fn digit_str(d: u8) -> (r: &'static str)
    requires
        d < 10,
    ensures
        r@ == seq![digit_char(d)],
{
    proof {
        reveal_strlit("0");
        reveal_strlit("1");
        reveal_strlit("2");
        reveal_strlit("3");
        reveal_strlit("4");
        reveal_strlit("5");
        reveal_strlit("6");
        reveal_strlit("7");
        reveal_strlit("8");
        reveal_strlit("9");
    }
    let r = match d {
        0 => "0",
        1 => "1",
        2 => "2",
        3 => "3",
        4 => "4",
        5 => "5",
        6 => "6",
        7 => "7",
        8 => "8",
        _ => "9",
    };
    proof {
        assert(r@ =~= seq![digit_char(d)]);
    }
    r
}

/// The decimal digits of a number, most significant first.
pub open spec fn dec_digits(n: nat) -> Seq<char>
    decreases n,
{
    if n < 10 {
        seq![digit_char(n as u8)]
    } else {
        dec_digits(n / 10) + seq![digit_char((n % 10) as u8)]
    }
}

/// Render a number in decimal.
pub fn u32_to_string(n: u32) -> (r: String)
    ensures
        r@ == dec_digits(n as nat),
    decreases n,
{
    if n < 10 {
        digit_str(n as u8).to_owned()
    } else {
        let mut r = u32_to_string(n / 10);
        r.append(digit_str((n % 10) as u8));
        r
    }
}

/// The first position where `pat` occurs in `s` at or after `j`, or -1.
pub open spec fn find_sub(s: Seq<char>, pat: Seq<char>, j: int) -> int
    decreases s.len() - j,
{
    if j < 0 || j + pat.len() > s.len() {
        -1
    } else if pat.len() == 0 {
        j
    } else if crate::glob::is_at(s, pat, j) {
        j
    } else {
        find_sub(s, pat, j + 1)
    }
}

pub proof fn lemma_find_sub(s: Seq<char>, pat: Seq<char>, j: int)
    requires
        0 <= j,
    ensures
        -1 <= find_sub(s, pat, j),
        find_sub(s, pat, j) == -1 ==> forall|k: int| j <= k ==> !crate::glob::is_at(s, pat, k),
        find_sub(s, pat, j) >= 0 ==> j <= find_sub(s, pat, j) && crate::glob::is_at(
            s,
            pat,
            find_sub(s, pat, j),
        ) && forall|k: int| j <= k < find_sub(s, pat, j) ==> !crate::glob::is_at(s, pat, k),
    decreases s.len() - j,
{
    if j + pat.len() > s.len() {
        assert forall|k: int| j <= k implies !crate::glob::is_at(s, pat, k) by {}
    } else if pat.len() == 0 {
        assert(s.subrange(j, j + pat.len()) =~= pat);
        assert(crate::glob::is_at(s, pat, j));
    } else if !crate::glob::is_at(s, pat, j) {
        lemma_find_sub(s, pat, j + 1);
    }
}

/// The first occurrence of `pat` removed from `s`; `s` itself where there
/// is none.
pub open spec fn spec_remove_first(s: Seq<char>, pat: Seq<char>) -> Seq<char> {
    let j = find_sub(s, pat, 0);
    if j == -1 {
        s
    } else {
        s.take(j) + s.skip(j + pat.len())
    }
}

/// Remove the first occurrence of a substring.
pub fn remove_first(s: &str, pat: &str) -> (r: String)
    ensures
        r@ == spec_remove_first(s@, pat@),
{
    let sv = chars_vec(s);
    let pv = chars_vec(pat);
    proof {
        lemma_find_sub(s@, pat@, 0);
    }
    match crate::glob::find_from(&sv, &pv, 0) {
        Some(j) => {
            proof {
                let f = find_sub(s@, pat@, 0);
                if f == -1 {
                    assert(!crate::glob::is_at(s@, pat@, j as int));
                } else {
                    if f > j {
                        assert(!crate::glob::is_at(s@, pat@, j as int));
                    }
                    if f < j {
                        assert(crate::glob::is_at(s@, pat@, f));
                        assert(!crate::glob::is_at(s@, pat@, f));
                    }
                }
                assert(find_sub(s@, pat@, 0) == j as int);
            }
            let n = s.unicode_len();
            let mut r = s.substring_char(0, j).to_owned();
            r.append(s.substring_char(j + pat.unicode_len(), n));
            proof {
                assert(r@ =~= s@.take(j as int) + s@.skip(j + pat@.len()));
            }
            r
        },
        None => {
            proof {
                if find_sub(s@, pat@, 0) >= 0 {
                    assert(crate::glob::is_at(s@, pat@, find_sub(s@, pat@, 0)));
                }
            }
            s.to_owned()
        },
    }
}


/// A copy of a byte vector.
pub fn copy_bytes(v: &Vec<u8>) -> (r: Vec<u8>)
    ensures
        r@ == v@,
{
    let mut r: Vec<u8> = Vec::new();
    let mut i: usize = 0;
    while i < v.len()
        invariant
            i <= v@.len(),
            r@ == v@.take(i as int),
        decreases v@.len() - i,
    {
        r.push(v[i]);
        proof {
            assert(r@ =~= v@.take(i + 1));
        }
        i = i + 1;
    }
    proof {
        assert(v@.take(v@.len() as int) =~= v@);
    }
    r
}


} // verus!
