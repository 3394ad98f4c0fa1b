use vstd::prelude::*;
use crate::text::{append_chars, chars_of, prefix_of, string_of};

verus! {

/// What percent-decoding (with lossy UTF-8 recovery) makes of a text.
pub uninterp spec fn percent_decoded(s: Seq<char>) -> Seq<char>;

/// Whether `c` is a hexadecimal digit.
pub open spec fn is_hex(c: char) -> bool {
    ('0' <= c && c <= '9') || ('a' <= c && c <= 'f') || ('A' <= c && c <= 'F')
}

/// Whether `s` holds a percent escape: `%` followed by two hexadecimal digits.
pub open spec fn has_escape(s: Seq<char>) -> bool {
    exists|i: int| 0 <= i && i + 2 < s.len() && #[trigger] s[i] == '%' && is_hex(s[i + 1]) && is_hex(s[i + 2])
}

/// Relies on `percent_encoding::percent_decode_str` and `decode_utf8_lossy`: the
/// result depends on `s` alone, and text without a percent escape comes back as it
/// is (a `%` not followed by two hexadecimal digits is kept).
#[verifier::external_body]
fn percent_decode(s: &str) -> (r: String)
    ensures
        r@ == percent_decoded(s@),
        !has_escape(s@) ==> r@ == s@,
{
    percent_encoding::percent_decode_str(s).decode_utf8_lossy().to_string()
}

/// Everything up to and including the last `/` of `p`; empty when there is none.
pub open spec fn dir_part(p: Seq<char>) -> Seq<char>
    decreases p.len(),
{
    if p.len() == 0 || p.last() == '/' {
        p
    } else {
        dir_part(p.drop_last())
    }
}

/// The pieces of `s` between the slashes, from left to right (never empty).
pub open spec fn segments(s: Seq<char>) -> Seq<Seq<char>>
    decreases s.len(),
{
    if s.len() == 0 {
        seq![Seq::empty()]
    } else {
        let prev = segments(s.drop_last());
        if s.last() == '/' {
            prev.push(Seq::empty())
        } else {
            prev.drop_last().push(prev.last().push(s.last()))
        }
    }
}

/// One step of resolving: `..` drops the last kept piece, `.` and empty pieces are
/// skipped, any other piece is kept.
pub open spec fn resolve_step(kept: Seq<Seq<char>>, p: Seq<char>) -> Seq<Seq<char>> {
    if p == seq!['.', '.'] {
        if kept.len() > 0 {
            kept.drop_last()
        } else {
            kept
        }
    } else if p.len() == 0 || p == seq!['.'] {
        kept
    } else {
        kept.push(p)
    }
}

pub open spec fn resolve(segs: Seq<Seq<char>>) -> Seq<Seq<char>>
    decreases segs.len(),
{
    if segs.len() == 0 {
        seq![]
    } else {
        resolve_step(resolve(segs.drop_last()), segs.last())
    }
}

/// The pieces joined with `/` between them.
pub open spec fn join_segments(segs: Seq<Seq<char>>) -> Seq<char>
    decreases segs.len(),
{
    if segs.len() == 0 {
        Seq::empty()
    } else if segs.len() == 1 {
        segs[0]
    } else {
        join_segments(segs.drop_last()) + seq!['/'] + segs.last()
    }
}

/// The canonical form of an already decoded path.
pub open spec fn canonical(d: Seq<char>) -> Seq<char> {
    join_segments(resolve(segments(d)))
}

/// The archive-internal path that a (possibly percent-encoded) reference denotes.
pub open spec fn normalized(p: Seq<char>) -> Seq<char> {
    canonical(percent_decoded(p))
}

/// A piece that canonical paths are made of.
pub open spec fn good_segment(p: Seq<char>) -> bool {
    &&& p.len() > 0
    &&& p != seq!['.']
    &&& p != seq!['.', '.']
    &&& !p.contains('/')
}

pub open spec fn view_parts(parts: Seq<Vec<char>>) -> Seq<Seq<char>> {
    parts.map_values(|v: Vec<char>| v@)
}

proof fn lemma_segments_nonempty(s: Seq<char>)
    ensures
        segments(s).len() >= 1,
    decreases s.len(),
{
    if s.len() > 0 {
        lemma_segments_nonempty(s.drop_last());
    }
}

proof fn lemma_segments_no_slash(s: Seq<char>)
    ensures
        forall|i: int| 0 <= i < segments(s).len() ==> !(#[trigger] segments(s)[i]).contains('/'),
    decreases s.len(),
{
    lemma_segments_nonempty(s);
    if s.len() > 0 {
        let prev = segments(s.drop_last());
        lemma_segments_no_slash(s.drop_last());
        lemma_segments_nonempty(s.drop_last());
        if s.last() != '/' {
            let l = prev.last().push(s.last());
            assert forall|i: int| 0 <= i < segments(s).len() implies !(
            #[trigger] segments(s)[i]).contains('/') by {
                if i == segments(s).len() - 1 {
                    assert(segments(s)[i] == l);
                    if l.contains('/') {
                        let j = choose|j: int| 0 <= j < l.len() && l[j] == '/';
                        assert(prev.last()[j] == '/');
                    }
                } else {
                    assert(segments(s)[i] == prev[i]);
                }
            }
        } else {
            assert forall|i: int| 0 <= i < segments(s).len() implies !(
            #[trigger] segments(s)[i]).contains('/') by {
                if i < prev.len() {
                    assert(segments(s)[i] == prev[i]);
                } else {
                    assert(segments(s)[i] =~= Seq::<char>::empty());
                }
            }
        }
    }
}

proof fn lemma_resolve_good(segs: Seq<Seq<char>>)
    requires
        forall|i: int| 0 <= i < segs.len() ==> !(#[trigger] segs[i]).contains('/'),
    ensures
        forall|i: int| 0 <= i < resolve(segs).len() ==> good_segment(#[trigger] resolve(segs)[i]),
    decreases segs.len(),
{
    if segs.len() > 0 {
        lemma_resolve_good(segs.drop_last());
        let prev = resolve(segs.drop_last());
        assert(!segs[segs.len() - 1].contains('/'));
        assert forall|i: int| 0 <= i < resolve(segs).len() implies good_segment(
            #[trigger] resolve(segs)[i],
        ) by {
            if i < prev.len() {
                assert(resolve(segs)[i] == prev[i]);
            }
        }
    }
}

proof fn lemma_resolve_fixed(segs: Seq<Seq<char>>)
    requires
        forall|i: int| 0 <= i < segs.len() ==> good_segment(#[trigger] segs[i]),
    ensures
        resolve(segs) == segs,
    decreases segs.len(),
{
    if segs.len() > 0 {
        lemma_resolve_fixed(segs.drop_last());
        assert(good_segment(segs[segs.len() - 1]));
        assert(segs.drop_last().push(segs.last()) =~= segs);
    }
}

proof fn lemma_segments_append(x: Seq<char>, y: Seq<char>)
    requires
        !y.contains('/'),
    ensures
        segments(x + y) == segments(x).drop_last().push(segments(x).last() + y),
    decreases y.len(),
{
    lemma_segments_nonempty(x);
    if y.len() == 0 {
        assert(x + y =~= x);
        assert(segments(x).last() + y =~= segments(x).last());
        assert(segments(x).drop_last().push(segments(x).last()) =~= segments(x));
    } else {
        let yl = y.drop_last();
        assert(!yl.contains('/')) by {
            if yl.contains('/') {
                let j = choose|j: int| 0 <= j < yl.len() && yl[j] == '/';
                assert(y[j] == '/');
            }
        }
        lemma_segments_append(x, yl);
        assert((x + y).drop_last() =~= x + yl);
        assert((x + y).last() == y.last());
        assert(y.last() != '/') by {
            if y.last() == '/' {
                assert(y[y.len() - 1] == '/');
            }
        }
        let p = segments(x + yl);
        assert(p.drop_last() =~= segments(x).drop_last());
        assert(p.last() =~= segments(x).last() + yl);
        assert(p.last().push(y.last()) =~= segments(x).last() + y);
        assert(segments(x + y) =~= segments(x).drop_last().push(segments(x).last() + y));
    }
}

proof fn lemma_segments_of_join(segs: Seq<Seq<char>>)
    requires
        segs.len() >= 1,
        forall|i: int| 0 <= i < segs.len() ==> good_segment(#[trigger] segs[i]),
    ensures
        segments(join_segments(segs)) == segs,
    decreases segs.len(),
{
    let e = Seq::<char>::empty();
    assert(good_segment(segs[segs.len() - 1]));
    if segs.len() == 1 {
        lemma_segments_append(e, segs[0]);
        assert(e + segs[0] =~= segs[0]);
        assert(segments(e) =~= seq![e]);
        assert(segments(segs[0]) =~= segs);
    } else {
        let j = join_segments(segs.drop_last());
        lemma_segments_of_join(segs.drop_last());
        let js = j + seq!['/'];
        assert(js.drop_last() =~= j);
        assert(segments(js) == segs.drop_last().push(e));
        lemma_segments_append(js, segs.last());
        assert(e + segs.last() =~= segs.last());
        assert(js + segs.last() =~= join_segments(segs));
        assert(segs.drop_last().push(segs.last()) =~= segs);
    }
}

/// Canonical paths are fixed points: resolving a path that is already canonical
/// gives it back unchanged.
pub proof fn lemma_canonical_idempotent(d: Seq<char>)
    ensures
        canonical(canonical(d)) == canonical(d),
{
    let g = resolve(segments(d));
    lemma_segments_no_slash(d);
    lemma_resolve_good(segments(d));
    if g.len() == 0 {
        assert(canonical(d) =~= Seq::<char>::empty());
        assert(segments(Seq::<char>::empty()) =~= seq![Seq::<char>::empty()]);
        let one = seq![Seq::<char>::empty()];
        assert(one.drop_last() =~= Seq::<Seq<char>>::empty());
        assert(one.last().len() == 0);
        assert(resolve(one.drop_last()) == Seq::<Seq<char>>::empty());
        assert(resolve(one) =~= Seq::<Seq<char>>::empty());
    } else {
        lemma_segments_of_join(g);
        lemma_resolve_fixed(g);
    }
}

/// Normalizing is idempotent: a normalized path that holds no percent escape is
/// given back unchanged by `normalize_path` (whose result on escape-free text is its
/// canonical form).
pub proof fn lemma_normalize_idempotent(p: Seq<char>)
    requires
        !has_escape(normalized(p)),
    ensures
        canonical(normalized(p)) == normalized(p),
{
    lemma_canonical_idempotent(percent_decoded(p));
}

/// The directory part of a path: everything up to and including its last `/`.
pub fn get_path_part(path: &str) -> (r: String)
    ensures
        r@ == dir_part(path@),
{
    let cs = chars_of(path);
    let mut n: usize = cs.len();
    assert(cs@.take(cs@.len() as int) =~= cs@);
    while n > 0 && cs[n - 1] != '/'
        invariant
            n <= cs@.len(),
            dir_part(cs@.take(n as int)) == dir_part(cs@),
        decreases n,
    {
        assert(cs@.take(n as int).drop_last() =~= cs@.take(n - 1));
        n = n - 1;
    }
    string_of(&prefix_of(&cs, n))
}

fn is_two_dots(v: &Vec<char>) -> (r: bool)
    ensures
        r == (v@ == seq!['.', '.']),
{
    let r = v.len() == 2 && v[0] == '.' && v[1] == '.';
    if r {
        assert(v@ =~= seq!['.', '.']);
    }
    r
}

fn is_one_dot(v: &Vec<char>) -> (r: bool)
    ensures
        r == (v@ == seq!['.']),
{
    let r = v.len() == 1 && v[0] == '.';
    if r {
        assert(v@ =~= seq!['.']);
    }
    r
}

fn apply_step(parts: &mut Vec<Vec<char>>, p: Vec<char>)
    ensures
        view_parts(final(parts)@) == resolve_step(view_parts(old(parts)@), p@),
{
    if is_two_dots(&p) {
        if parts.len() > 0 {
            parts.pop();
            assert(view_parts(parts@) =~= view_parts(old(parts)@).drop_last());
        }
    } else if p.len() == 0 || is_one_dot(&p) {
    } else {
        parts.push(p);
        assert(view_parts(parts@) =~= view_parts(old(parts)@).push(p@));
    }
}

fn join_parts(parts: &Vec<Vec<char>>) -> (r: Vec<char>)
    ensures
        r@ == join_segments(view_parts(parts@)),
{
    let ghost pv = view_parts(parts@);
    let mut out: Vec<char> = Vec::new();
    let mut k: usize = 0;
    while k < parts.len()
        invariant
            k <= parts@.len(),
            pv == view_parts(parts@),
            out@ == join_segments(pv.take(k as int)),
        decreases parts.len() - k,
    {
        if k > 0 {
            out.push('/');
        }
        append_chars(&mut out, &parts[k]);
        assert(pv.take(k + 1).drop_last() =~= pv.take(k as int));
        k = k + 1;
        assert(out@ =~= join_segments(pv.take(k as int)));
    }
    assert(pv.take(k as int) =~= pv);
    out
}

/// The canonical form of the decoded path `d`.
pub fn canonical_path(d: &str) -> (r: String)
    ensures
        r@ == canonical(d@),
{
    let cs = chars_of(d);
    let mut parts: Vec<Vec<char>> = Vec::new();
    let mut cur: Vec<char> = Vec::new();
    let mut i: usize = 0;
    proof {
        assert(cs@.take(0) =~= Seq::<char>::empty());
        assert(view_parts(parts@) =~= resolve(segments(cs@.take(0)).drop_last()));
    }
    while i < cs.len()
        invariant
            i <= cs@.len(),
            segments(cs@.take(i as int)).len() >= 1,
            cur@ == segments(cs@.take(i as int)).last(),
            view_parts(parts@) == resolve(segments(cs@.take(i as int)).drop_last()),
        decreases cs.len() - i,
    {
        let c = cs[i];
        let ghost s0 = segments(cs@.take(i as int));
        assert(cs@.take(i + 1).drop_last() =~= cs@.take(i as int));
        if c == '/' {
            let done = cur;
            cur = Vec::new();
            apply_step(&mut parts, done);
            proof {
                let s1 = segments(cs@.take(i + 1));
                assert(s1 == s0.push(Seq::empty()));
                assert(s1.drop_last() =~= s0);
                assert(s0 =~= s0.drop_last().push(s0.last()));
                assert(cur@ =~= s1.last());
            }
        } else {
            cur.push(c);
            proof {
                let s1 = segments(cs@.take(i + 1));
                assert(s1.drop_last() =~= s0.drop_last());
            }
        }
        i = i + 1;
        proof {
            lemma_segments_nonempty(cs@.take(i as int));
        }
    }
    assert(cs@.take(i as int) =~= cs@);
    let ghost s = segments(cs@);
    assert(s =~= s.drop_last().push(s.last()));
    apply_step(&mut parts, cur);
    string_of(&join_parts(&parts))
}

/// Resolves a raw, possibly percent-encoded reference into the archive-internal path
/// it names: decoded, without empty, `.` or `..` pieces, each `..` dropping the piece
/// before it.
pub fn normalize_path(path: &str) -> (r: String)
    ensures
        r@ == normalized(path@),
        !has_escape(path@) ==> r@ == canonical(path@),
{
    let decoded = percent_decode(path);
    canonical_path(decoded.as_str())
}

} // verus!
