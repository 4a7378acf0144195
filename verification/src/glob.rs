use vstd::prelude::*;
use vstd::string::StrSliceExecFns;

use crate::strutil::chars_vec;

verus! {

/// `part` occurs in `text` at position `j`.
pub open spec fn is_at(text: Seq<char>, part: Seq<char>, j: int) -> bool {
    &&& 0 <= j
    &&& j + part.len() <= text.len()
    &&& text.subrange(j, j + part.len()) == part
}

/// The literal segments of a glob: the pattern split on `*`.
pub open spec fn glob_split(g: Seq<char>) -> Seq<Seq<char>> {
    crate::strutil::split_seq(g, '*')
}

/// The segments `parts` occur in order within `text` from position `from` on,
/// the last one as a suffix.
pub open spec fn tail_match(parts: Seq<Seq<char>>, text: Seq<char>, from: int) -> bool
    decreases parts.len(),
{
    if parts.len() == 0 {
        true
    } else if parts.len() == 1 {
        text.len() - parts[0].len() >= from && is_at(text, parts[0], text.len() - parts[0].len())
    } else {
        exists|j: int|
            #![auto]
            from <= j && is_at(text, parts[0], j) && tail_match(
                parts.skip(1),
                text,
                j + parts[0].len(),
            )
    }
}

/// A glob with segments `parts` accepts `text`: a pattern without `*`
/// demands the exact text; otherwise the first segment is a prefix, the
/// later segments occur in order, and the last one is a suffix.
pub open spec fn glob_accepts(parts: Seq<Seq<char>>, text: Seq<char>) -> bool
    recommends
        parts.len() >= 1,
{
    if parts.len() == 1 {
        text == parts[0]
    } else {
        is_at(text, parts[0], 0) && tail_match(parts.skip(1), text, parts[0].len() as int)
    }
}

proof fn lemma_tail_monotonic(parts: Seq<Seq<char>>, text: Seq<char>, a: int, b: int)
    requires
        tail_match(parts, text, a),
        b <= a,
    ensures
        tail_match(parts, text, b),
{
}

proof fn lemma_tail_none(parts: Seq<Seq<char>>, text: Seq<char>, from: int)
    requires
        parts.len() >= 1,
        forall|j: int| from <= j ==> !is_at(text, parts[0], j),
    ensures
        !tail_match(parts, text, from),
{
}

proof fn lemma_tail_step(parts: Seq<Seq<char>>, text: Seq<char>, from: int, j: int)
    requires
        parts.len() >= 2,
        from <= j,
        is_at(text, parts[0], j),
        forall|j2: int| from <= j2 < j ==> !is_at(text, parts[0], j2),
    ensures
        tail_match(parts, text, from) <==> tail_match(parts.skip(1), text, j + parts[0].len()),
{
    if tail_match(parts, text, from) {
        let j2 = choose|j2: int|
            #![auto]
            from <= j2 && is_at(text, parts[0], j2) && tail_match(
                parts.skip(1),
                text,
                j2 + parts[0].len(),
            );
        assert(j2 >= j);
        lemma_tail_monotonic(parts.skip(1), text, j2 + parts[0].len() as int, j + parts[0].len() as int);
    }
    if tail_match(parts.skip(1), text, j + parts[0].len()) {
        assert(from <= j && is_at(text, parts[0], j) && tail_match(
            parts.skip(1),
            text,
            j + parts[0].len(),
        ));
    }
}

/// Whether `part` occurs in `text` at position `j`.
fn occurs_at(text: &Vec<char>, part: &Vec<char>, j: usize) -> (r: bool)
    requires
        j + part@.len() <= text@.len(),
    ensures
        r == is_at(text@, part@, j as int),
{
    let tn = text.len();
    let mut k: usize = 0;
    while k < part.len()
        invariant
            k <= part@.len(),
            j + part@.len() <= text@.len(),
            tn == text@.len(),
            text@.subrange(j as int, j + k) == part@.take(k as int),
        decreases part@.len() - k,
    {
        if text[j + k] != part[k] {
            proof {
                assert(text@[j + k] != part@[k as int]);
                assert(!is_at(text@, part@, j as int)) by {
                    if is_at(text@, part@, j as int) {
                        assert(text@.subrange(j as int, j + part@.len())[k as int] == part@[k as int]);
                    }
                }
            }
            return false;
        }
        proof {
            assert(text@.subrange(j as int, j + k + 1) =~= text@.subrange(j as int, j + k).push(
                text@[j + k],
            ));
            assert(part@.take(k + 1) =~= part@.take(k as int).push(part@[k as int]));
        }
        k = k + 1;
    }
    proof {
        assert(text@.subrange(j as int, j + part@.len()) =~= part@.take(part@.len() as int));
        assert(part@.take(part@.len() as int) =~= part@);
    }
    true
}

/// The first position at or after `from` where `part` occurs in `text`.
pub(crate) fn find_from(text: &Vec<char>, part: &Vec<char>, from: usize) -> (r: Option<usize>)
    ensures
        match r {
            Some(j) => from <= j && is_at(text@, part@, j as int) && forall|j2: int|
                from <= j2 < j ==> !is_at(text@, part@, j2),
            None => forall|j2: int| from <= j2 ==> !is_at(text@, part@, j2),
        },
{
    if part.len() > text.len() {
        return None;
    }
    let last = text.len() - part.len();
    if from > last {
        return None;
    }
    let mut j = from;
    while j <= last
        invariant
            from <= j,
            last == text@.len() - part@.len(),
            j + part@.len() <= text@.len() + 1,
            forall|j2: int| from <= j2 < j ==> !is_at(text@, part@, j2),
        decreases last - j + 1,
    {
        if occurs_at(text, part, j) {
            return Some(j);
        }
        if j == last {
            return None;
        }
        j = j + 1;
    }
    None
}

/// An SNI or index-file pattern: literal segments separated by `*` wildcards.
#[derive(Debug)]
pub struct Glob {
    matchers: Vec<String>,
}

impl View for Glob {
    type V = Seq<Seq<char>>;

    closed spec fn view(&self) -> Seq<Seq<char>> {
        self.matchers@.map_values(|m: String| m@)
    }
}

impl Clone for Glob {
    fn clone(&self) -> (r: Self)
        ensures
            r@ == self@,
    {
        let matchers = self.matchers.clone();
        proof {
            use_type_invariant(self);
            assert forall|i: int| 0 <= i < matchers@.len() implies matchers@[i]@
                == self.matchers@[i]@ by {
                assert(cloned::<String>(self.matchers@[i], matchers@[i]));
            }
            assert(matchers@.map_values(|m: String| m@) =~= self@);
        }
        Glob { matchers }
    }
}

impl Glob {
    #[verifier::type_invariant]
    spec fn wf(&self) -> bool {
        self.matchers@.len() >= 1
    }

    /// Split a pattern on `*` into its literal segments.
    pub fn new(glob: &str) -> (r: Glob)
        ensures
            r@ == glob_split(glob@),
    {
        let matchers = crate::strutil::split_str(glob, '*');
        Glob { matchers }
    }

    /// The literal segments, in order.
    pub fn matchers(&self) -> (r: &Vec<String>)
        ensures
            r@.map_values(|m: String| m@) == self@,
            r@.len() >= 1,
    {
        proof {
            use_type_invariant(self);
        }
        &self.matchers
    }

    /// Whether the glob accepts `text`.
    pub fn matches(&self, text: &str) -> (r: bool)
        ensures
            r == glob_accepts(self@, text@),
    {
        proof {
            use_type_invariant(self);
        }
        let t = chars_vec(text);
        let tn = t.len();
        let n = self.matchers.len();
        let first = chars_vec(self.matchers[0].as_str());
        if first.len() > t.len() {
            proof {
                if n == 1 {
                    assert(self@[0] == first@);
                }
            }
            return false;
        }
        if !occurs_at(&t, &first, 0) {
            proof {
                if n == 1 {
                    assert(self@[0] == first@);
                    if text@ == first@ {
                        assert(text@.subrange(0, first@.len() as int) =~= first@);
                    }
                }
            }
            return false;
        }
        if n == 1 {
            proof {
                assert(self@[0] == first@);
                if first@.len() == text@.len() {
                    assert(text@.subrange(0, first@.len() as int) =~= text@);
                }
            }
            return first.len() == t.len();
        }
        let mut pos: usize = first.len();
        let mut i: usize = 1;
        proof {
            assert(glob_accepts(self@, text@) == tail_match(self@.skip(1), text@, pos as int));
        }
        while i < n - 1
            invariant
                1 <= i <= n - 1,
                n == self@.len(),
                n == self.matchers@.len(),
                self.wf(),
                t@ == text@,
                tn == t@.len(),
                pos <= t@.len(),
                glob_accepts(self@, text@) == tail_match(self@.skip(i as int), text@, pos as int),
            decreases n - i,
        {
            let part = chars_vec(self.matchers[i].as_str());
            proof {
                assert(self@.skip(i as int)[0] == part@);
            }
            match find_from(&t, &part, pos) {
                Some(j) => {
                    proof {
                        lemma_tail_step(self@.skip(i as int), text@, pos as int, j as int);
                        assert(self@.skip(i as int).skip(1) =~= self@.skip(i + 1));
                    }
                    pos = j + part.len();
                    i = i + 1;
                },
                None => {
                    proof {
                        lemma_tail_none(self@.skip(i as int), text@, pos as int);
                    }
                    return false;
                },
            }
        }
        let last = chars_vec(self.matchers[n - 1].as_str());
        proof {
            assert(self@.skip(i as int).len() == 1);
            assert(self@.skip(i as int)[0] == last@);
        }
        if last.len() == 0 {
            proof {
                assert(text@.subrange(text@.len() as int, text@.len() as int) =~= last@);
                assert(is_at(text@, last@, text@.len() as int));
            }
            return true;
        }
        if t.len() < last.len() {
            return false;
        }
        let sp = t.len() - last.len();
        if sp < pos {
            return false;
        }
        occurs_at(&t, &last, sp)
    }
}

} // verus!
