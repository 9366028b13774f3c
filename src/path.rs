use vstd::prelude::*;

verus! {

/// What `percent_encoding` turns a URL tail into: the decoded text, or `None`
/// where the decoded bytes are not UTF-8.
pub uninterp spec fn percent_decoded(s: Seq<char>) -> Option<Seq<char>>;

/// Relies on `percent_encoding::percent_decode_str(..).decode_utf8()`:
/// every `%` followed by two hex digits becomes that byte, and the bytes are
/// read back as UTF-8; the result depends on the input alone, and text
/// without a `%` comes back as it is.
#[verifier::external_body]
fn percent_decode(tail: &str) -> (r: Option<String>)
    ensures
        (r is Some) == (percent_decoded(tail@) is Some),
        r is Some ==> r->0@ == percent_decoded(tail@)->0,
        !tail@.contains('%') ==> r is Some && r->0@ == tail@,
{
    match percent_encoding::percent_decode_str(tail).decode_utf8() {
        Ok(s) => Some(s.into_owned()),
        Err(_) => None,
    }
}

/// The pieces of `s` between `/` characters, empty pieces included.
pub open spec fn pieces(s: Seq<char>) -> Seq<Seq<char>>
    decreases s.len(),
{
    if s.len() == 0 {
        seq![Seq::empty()]
    } else {
        let p = pieces(s.drop_last());
        if s.last() == '/' {
            p.push(Seq::empty())
        } else {
            p.update(p.len() - 1, p.last().push(s.last()))
        }
    }
}

/// The non-empty members of `ps`, in order.
pub open spec fn nonempty(ps: Seq<Seq<char>>) -> Seq<Seq<char>>
    decreases ps.len(),
{
    if ps.len() == 0 {
        Seq::empty()
    } else if ps.last().len() > 0 {
        nonempty(ps.drop_last()).push(ps.last())
    } else {
        nonempty(ps.drop_last())
    }
}

pub open spec fn starts_with_dotdot(p: Seq<char>) -> bool {
    p.len() >= 2 && p[0] == '.' && p[1] == '.'
}

/// A segment that may be joined to the base: it does not start with `..`
/// and holds no backslash.
pub open spec fn segment_ok(p: Seq<char>) -> bool {
    !starts_with_dotdot(p) && !p.contains('\\')
}

/// A segment of a sanitized path: non-empty, no separator of either kind,
/// and no leading `..`.
pub open spec fn clean_segment(p: Seq<char>) -> bool {
    p.len() > 0 && segment_ok(p) && !p.contains('/')
}

/// `base` followed by `/seg` for each segment.
pub open spec fn joined(base: Seq<char>, segs: Seq<Seq<char>>) -> Seq<char>
    decreases segs.len(),
{
    if segs.len() == 0 {
        base
    } else {
        joined(base, segs.drop_last()) + seq!['/'] + segs.last()
    }
}

/// The segments that a decoded tail yields, or `None` where one of its
/// pieces is refused.
pub open spec fn sanitized_segments(decoded: Seq<char>) -> Option<Seq<Seq<char>>> {
    if forall|i: int| 0 <= i < pieces(decoded).len() ==> segment_ok(#[trigger] pieces(decoded)[i]) {
        Some(nonempty(pieces(decoded)))
    } else {
        None
    }
}

/// An absolute path built from the base directory and checked segments.
/// Symlinks are not resolved: a segment that names a link may still lead
/// outside the base once the filesystem follows it.
#[derive(Debug)]
pub struct SanitizedPath {
    pub base: String,
    pub segments: Vec<String>,
}

impl View for SanitizedPath {
    type V = (Seq<char>, Seq<Seq<char>>);

    open spec fn view(&self) -> (Seq<char>, Seq<Seq<char>>) {
        (self.base@, self.segments@.map_values(|s: String| s@))
    }
}

impl SanitizedPath {
    pub open spec fn resolved_spec(&self) -> Seq<char> {
        joined(self@.0, self@.1)
    }

    /// The path as text: the base, then `/` and each segment.
    pub fn resolved(&self) -> (r: String)
        ensures
            r@ == self.resolved_spec(),
    {
        let mut out = String::from_str(self.base.as_str());
        let mut i: usize = 0;
        while i < self.segments.len()
            invariant
                0 <= i <= self.segments.len(),
                out@ == joined(self@.0, self@.1.take(i as int)),
            decreases self.segments.len() - i,
        {
            proof {
                assert(self@.1.take(i + 1).drop_last() == self@.1.take(i as int));
                reveal_strlit("/");
            }
            out.append("/");
            out.append(self.segments[i].as_str());
            i = i + 1;
        }
        proof {
            assert(self@.1.take(i as int) == self@.1);
        }
        out
    }
}

/// Whether `p` may be joined to the base.
pub fn segment_allowed(p: &str) -> (r: bool)
    ensures
        r == segment_ok(p@),
{
    let n = p.unicode_len();
    if n >= 2 && p.get_char(0) == '.' && p.get_char(1) == '.' {
        return false;
    }
    let mut i: usize = 0;
    while i < n
        invariant
            n == p@.len(),
            0 <= i <= n,
            forall|k: int| 0 <= k < i ==> p@[k] != '\\',
        decreases n - i,
    {
        if p.get_char(i) == '\\' {
            return false;
        }
        i = i + 1;
    }
    true
}

/// Splits `s` at every `/`, keeping empty pieces.
fn split_pieces(s: &str) -> (r: Vec<String>)
    ensures
        r@.map_values(|x: String| x@) == pieces(s@),
{
    let n = s.unicode_len();
    let mut done: Vec<String> = Vec::new();
    let mut start: usize = 0;
    let mut i: usize = 0;
    proof {
        assert(s@.take(0) =~= Seq::<char>::empty());
        assert(s@.subrange(0, 0) =~= Seq::<char>::empty());
    }
    while i < n
        invariant
            n == s@.len(),
            0 <= start <= i <= n,
            pieces(s@.take(i as int)) == done@.map_values(|x: String| x@).push(
                s@.subrange(start as int, i as int),
            ),
        decreases n - i,
    {
        proof {
            assert(s@.take(i + 1).drop_last() =~= s@.take(i as int));
            assert(s@.take(i + 1).last() == s@[i as int]);
        }
        if s.get_char(i) == '/' {
            let piece = String::from_str(s.substring_char(start, i));
            done.push(piece);
            start = i + 1;
            proof {
                assert(s@.subrange(start as int, i + 1) =~= Seq::<char>::empty());
                assert(pieces(s@.take(i + 1)) =~= done@.map_values(|x: String| x@).push(
                    s@.subrange(start as int, i + 1),
                ));
            }
        } else {
            proof {
                assert(s@.subrange(start as int, i as int).push(s@[i as int]) =~= s@.subrange(
                    start as int,
                    i + 1,
                ));
                assert(pieces(s@.take(i + 1)) =~= done@.map_values(|x: String| x@).push(
                    s@.subrange(start as int, i + 1),
                ));
            }
        }
        i = i + 1;
    }
    let last = String::from_str(s.substring_char(start, n));
    done.push(last);
    proof {
        assert(s@.take(n as int) =~= s@);
        assert(done@.map_values(|x: String| x@) =~= pieces(s@));
    }
    done
}

/// The checked, non-empty segments of an already decoded tail, or `None`
/// where a piece starts with `..` or holds a backslash.
pub fn sanitize_segments(decoded: &str) -> (r: Option<Vec<String>>)
    ensures
        (r is Some) == (sanitized_segments(decoded@) is Some),
        r is Some ==> r->0@.map_values(|x: String| x@) == sanitized_segments(decoded@)->0,
{
    let ps = split_pieces(decoded);
    let ghost pv = ps@.map_values(|x: String| x@);
    let mut segs: Vec<String> = Vec::new();
    let mut j: usize = 0;
    proof {
        assert(pv.take(0) =~= Seq::<Seq<char>>::empty());
    }
    while j < ps.len()
        invariant
            pv == ps@.map_values(|x: String| x@),
            pv == pieces(decoded@),
            0 <= j <= ps.len(),
            forall|k: int| 0 <= k < j ==> segment_ok(#[trigger] pv[k]),
            segs@.map_values(|x: String| x@) == nonempty(pv.take(j as int)),
        decreases ps.len() - j,
    {
        if !segment_allowed(ps[j].as_str()) {
            proof {
                assert(!segment_ok(pv[j as int]));
            }
            return None;
        }
        proof {
            assert(pv.take(j + 1).drop_last() =~= pv.take(j as int));
        }
        if ps[j].unicode_len() > 0 {
            segs.push(String::from_str(ps[j].as_str()));
            proof {
                assert(segs@.map_values(|x: String| x@) =~= nonempty(pv.take(j + 1)));
            }
        }
        j = j + 1;
    }
    proof {
        assert(pv.take(j as int) =~= pv);
    }
    Some(segs)
}

/// The sanitized path for an already decoded tail under `base`.
pub fn sanitize_decoded(base: &str, decoded: &str) -> (r: Option<SanitizedPath>)
    ensures
        (r is Some) == (sanitized_segments(decoded@) is Some),
        r is Some ==> r->0@ == (base@, sanitized_segments(decoded@)->0),
{
    match sanitize_segments(decoded) {
        Some(segs) => Some(SanitizedPath { base: String::from_str(base), segments: segs }),
        None => None,
    }
}

/// Turns a percent-encoded URL tail into a path under `base`, or `None`
/// where the tail does not decode or a segment is refused.
pub fn sanitize(base: &str, tail: &str) -> (r: Option<SanitizedPath>)
    ensures
        (r is Some) == (percent_decoded(tail@) is Some && sanitized_segments(
            percent_decoded(tail@)->0,
        ) is Some),
        r is Some ==> r->0@ == (base@, sanitized_segments(percent_decoded(tail@)->0)->0),
        !tail@.contains('%') ==> (r is Some) == (sanitized_segments(tail@) is Some),
{
    match percent_decode(tail) {
        Some(decoded) => sanitize_decoded(base, decoded.as_str()),
        None => None,
    }
}

proof fn lemma_pieces_no_slash(s: Seq<char>)
    ensures
        pieces(s).len() >= 1,
        forall|i: int| 0 <= i < pieces(s).len() ==> !(#[trigger] pieces(s)[i]).contains('/'),
    decreases s.len(),
{
    if s.len() > 0 {
        lemma_pieces_no_slash(s.drop_last());
        let p = pieces(s.drop_last());
        if s.last() != '/' {
            let q = p.last().push(s.last());
            assert forall|k: int| 0 <= k < q.len() implies q[k] != '/' by {
                if k < p.last().len() {
                    assert(q[k] == p.last()[k]);
                }
            }
        } else {
            assert(pieces(s) == p.push(Seq::<char>::empty()));
        }
    }
}

proof fn lemma_char_in_piece(s: Seq<char>, k: int)
    requires
        0 <= k < s.len(),
        s[k] != '/',
    ensures
        exists|i: int| 0 <= i < pieces(s).len() && (#[trigger] pieces(s)[i]).contains(s[k]),
    decreases s.len(),
{
    lemma_pieces_no_slash(s.drop_last());
    let p = pieces(s.drop_last());
    if k == s.len() - 1 {
        let q = p.last().push(s.last());
        assert(q[q.len() - 1] == s[k]);
        assert(pieces(s)[p.len() - 1] == q);
    } else {
        lemma_char_in_piece(s.drop_last(), k);
        let i = choose|i: int| 0 <= i < p.len() && (#[trigger] p[i]).contains(s.drop_last()[k]);
        let j = choose|j: int| 0 <= j < p[i].len() && p[i][j] == s[k];
        if s.last() == '/' {
            assert(pieces(s)[i] == p[i]);
        } else if i == p.len() - 1 {
            let q = p.last().push(s.last());
            assert(q[j] == s[k]);
            assert(pieces(s)[i] == q);
        } else {
            assert(pieces(s)[i] == p[i]);
        }
    }
}

proof fn lemma_nonempty_members(ps: Seq<Seq<char>>)
    ensures
        forall|i: int|
            0 <= i < nonempty(ps).len() ==> (#[trigger] nonempty(ps)[i]).len() > 0 && exists|j: int|
                0 <= j < ps.len() && ps[j] == nonempty(ps)[i],
    decreases ps.len(),
{
    if ps.len() > 0 {
        lemma_nonempty_members(ps.drop_last());
        let r = nonempty(ps.drop_last());
        assert forall|i: int| 0 <= i < nonempty(ps).len() implies (#[trigger] nonempty(ps)[i]).len()
            > 0 && exists|j: int| 0 <= j < ps.len() && ps[j] == nonempty(ps)[i] by {
            if i < r.len() {
                assert(nonempty(ps)[i] == r[i]);
                let j = choose|j: int| 0 <= j < ps.drop_last().len() && ps.drop_last()[j] == r[i];
                assert(ps[j] == nonempty(ps)[i]);
            } else {
                assert(ps[ps.len() - 1] == nonempty(ps)[i]);
            }
        }
    }
}

proof fn lemma_joined_prefix(base: Seq<char>, segs: Seq<Seq<char>>)
    ensures
        base.is_prefix_of(joined(base, segs)),
    decreases segs.len(),
{
    if segs.len() > 0 {
        lemma_joined_prefix(base, segs.drop_last());
        let j = joined(base, segs.drop_last());
        assert((j + seq!['/'] + segs.last()).subrange(0, base.len() as int) =~= j.subrange(
            0,
            base.len() as int,
        ));
    }
}

/// A decoded tail with a piece that starts with `..`, or with a backslash
/// anywhere in it, yields no path: nothing is joined and nothing is looked up.
pub proof fn law_traversal_refused(decoded: Seq<char>)
    requires
        (exists|i: int|
            0 <= i < pieces(decoded).len() && starts_with_dotdot(#[trigger] pieces(decoded)[i]))
            || decoded.contains('\\'),
    ensures
        sanitized_segments(decoded) is None,
{
    if decoded.contains('\\') {
        let k = choose|k: int| 0 <= k < decoded.len() && decoded[k] == '\\';
        lemma_char_in_piece(decoded, k);
        let i = choose|i: int|
            0 <= i < pieces(decoded).len() && (#[trigger] pieces(decoded)[i]).contains(decoded[k]);
        assert(!segment_ok(pieces(decoded)[i]));
    } else {
        let i = choose|i: int|
            0 <= i < pieces(decoded).len() && starts_with_dotdot(#[trigger] pieces(decoded)[i]);
        assert(!segment_ok(pieces(decoded)[i]));
    }
}

/// Every accepted tail resolves to a descendant of the base: the resolved
/// text starts with the base, and each segment joined after it is non-empty,
/// holds neither separator and does not start with `..`.
pub proof fn law_sanitized_descends(base: Seq<char>, decoded: Seq<char>)
    requires
        sanitized_segments(decoded) is Some,
    ensures
        base.is_prefix_of(joined(base, sanitized_segments(decoded)->0)),
        forall|i: int|
            0 <= i < sanitized_segments(decoded)->0.len() ==> clean_segment(
                #[trigger] sanitized_segments(decoded)->0[i],
            ),
{
    let ps = pieces(decoded);
    let segs = sanitized_segments(decoded)->0;
    lemma_joined_prefix(base, segs);
    lemma_pieces_no_slash(decoded);
    lemma_nonempty_members(ps);
    assert forall|i: int| 0 <= i < segs.len() implies clean_segment(#[trigger] segs[i]) by {
        let j = choose|j: int| 0 <= j < ps.len() && ps[j] == nonempty(ps)[i];
        assert(segment_ok(ps[j]));
    }
}

} // verus!
