//! Lines of text held as bytes, split and joined as `str::lines` and
//! `join("\n")` do, and the proofs that splitting undoes joining.
use vstd::prelude::*;

verus! {

/// Line feed.
pub const NEWLINE: u8 = 0x0a;

/// Carriage return.
pub const CARRIAGE_RETURN: u8 = 0x0d;

/// Number of bytes before the first newline of `s` (all of them if none).
pub open spec fn line_len(s: Seq<u8>) -> nat
    decreases s.len(),
{
    if s.len() == 0 || s[0] == NEWLINE {
        0
    } else {
        1 + line_len(s.drop_first())
    }
}

/// A line without the carriage return of a `\r\n` ending.
pub open spec fn strip_cr(l: Seq<u8>) -> Seq<u8> {
    if l.len() > 0 && l.last() == CARRIAGE_RETURN {
        l.drop_last()
    } else {
        l
    }
}

/// The lines of `s`, split as `str::lines` splits them: at `\n` or `\r\n`,
/// with the line endings left out, and no empty line after a final ending.
pub open spec fn lines_of(s: Seq<u8>) -> Seq<Seq<u8>>
    decreases s.len(),
{
    if s.len() == 0 {
        Seq::empty()
    } else if line_len(s) >= s.len() {
        seq![s]
    } else {
        seq![strip_cr(s.subrange(0, line_len(s) as int))] + lines_of(
            s.subrange(line_len(s) as int + 1, s.len() as int),
        )
    }
}

/// Lines put back together, each followed by a newline.
pub open spec fn join_lines(ls: Seq<Seq<u8>>) -> Seq<u8>
    decreases ls.len(),
{
    if ls.len() == 0 {
        Seq::empty()
    } else {
        join_lines(ls.drop_last()) + ls.last() + seq![NEWLINE]
    }
}

/// White space that is trimmed off the signature line.
pub open spec fn is_space(b: u8) -> bool {
    b == 0x20 || (0x09 <= b && b <= 0x0d)
}

pub open spec fn trim_start(l: Seq<u8>) -> Seq<u8>
    decreases l.len(),
{
    if l.len() > 0 && is_space(l[0]) {
        trim_start(l.drop_first())
    } else {
        l
    }
}

pub open spec fn trim_end(l: Seq<u8>) -> Seq<u8>
    decreases l.len(),
{
    if l.len() > 0 && is_space(l.last()) {
        trim_end(l.drop_last())
    } else {
        l
    }
}

/// A line without white space at either end.
pub open spec fn trim(l: Seq<u8>) -> Seq<u8> {
    trim_end(trim_start(l))
}

/// `span` marks the bytes `l` in `t`.
pub open spec fn span_holds(t: Seq<u8>, span: (usize, usize), l: Seq<u8>) -> bool {
    span.0 <= span.1 <= t.len() && t.subrange(span.0 as int, span.1 as int) == l
}

proof fn lemma_line_len_is(s: Seq<u8>, k: nat)
    requires
        k <= s.len(),
        forall|j: int| 0 <= j < k ==> s[j] != NEWLINE,
        k == s.len() || s[k as int] == NEWLINE,
    ensures
        line_len(s) == k,
    decreases k,
{
    if k > 0 {
        lemma_line_len_is(s.drop_first(), (k - 1) as nat);
    }
}

/// Where each line of `t` starts and ends (its line ending left out).
pub(crate) fn line_spans(t: &[u8]) -> (r: Vec<(usize, usize)>)
    ensures
        r@.len() == lines_of(t@).len(),
        forall|i: int| 0 <= i < r@.len() ==> span_holds(t@, #[trigger] r@[i], lines_of(t@)[i]),
{
    let mut spans: Vec<(usize, usize)> = Vec::new();
    let ghost mut done: Seq<Seq<u8>> = Seq::empty();
    let mut start: usize = 0;
    let mut i: usize = 0;
    assert(t@.subrange(0, t@.len() as int) =~= t@);
    assert(done + lines_of(t@) =~= lines_of(t@));
    while i < t.len()
        invariant
            start <= i <= t@.len(),
            done + lines_of(t@.subrange(start as int, t@.len() as int)) == lines_of(t@),
            spans@.len() == done.len(),
            forall|j: int| 0 <= j < spans@.len() ==> span_holds(t@, #[trigger] spans@[j], done[j]),
            forall|j: int| start <= j < i ==> t@[j] != NEWLINE,
        decreases t@.len() - i,
    {
        if t[i] == NEWLINE {
            let ghost rest = t@.subrange(start as int, t@.len() as int);
            let ghost k = (i - start) as nat;
            proof {
                lemma_line_len_is(rest, k);
            }
            let end = if i > start && t[i - 1] == CARRIAGE_RETURN {
                i - 1
            } else {
                i
            };
            let ghost line = t@.subrange(start as int, end as int);
            proof {
                assert(rest.subrange(0, k as int) =~= t@.subrange(start as int, i as int));
                assert(rest.subrange(k as int + 1, rest.len() as int) =~= t@.subrange(
                    i + 1,
                    t@.len() as int,
                ));
                assert(strip_cr(t@.subrange(start as int, i as int)) =~= line);
                assert(lines_of(rest) == seq![line] + lines_of(
                    t@.subrange(i + 1, t@.len() as int),
                ));
                assert(done + lines_of(rest) =~= done.push(line) + lines_of(
                    t@.subrange(i + 1, t@.len() as int),
                ));
            }
            spans.push((start, end));
            proof {
                done = done.push(line);
            }
            start = i + 1;
        }
        i = i + 1;
    }
    let ghost rest = t@.subrange(start as int, t@.len() as int);
    if start < t.len() {
        proof {
            lemma_line_len_is(rest, rest.len());
            assert(done + lines_of(rest) =~= done.push(rest));
        }
        spans.push((start, t.len()));
        proof {
            done = done.push(rest);
        }
    } else {
        assert(done + lines_of(rest) =~= done);
    }
    spans
}

/// Whether the bytes of `t` in `span` are `m`.
pub(crate) fn span_is(t: &[u8], span: (usize, usize), m: &[u8]) -> (r: bool)
    requires
        span.0 <= span.1 <= t@.len(),
    ensures
        r == (t@.subrange(span.0 as int, span.1 as int) == m@),
{
    let ghost l = t@.subrange(span.0 as int, span.1 as int);
    if span.1 - span.0 != m.len() {
        return false;
    }
    let mut i: usize = 0;
    while i < m.len()
        invariant
            span.0 <= span.1 <= t@.len(),
            span.1 - span.0 == m@.len(),
            l == t@.subrange(span.0 as int, span.1 as int),
            i <= m@.len(),
            forall|j: int| 0 <= j < i ==> l[j] == m@[j],
        decreases m@.len() - i,
    {
        if t[span.0 + i] != m[i] {
            assert(l[i as int] != m@[i as int]);
            return false;
        }
        i = i + 1;
    }
    assert(l =~= m@);
    true
}

/// The part of `span` left once white space is trimmed off both ends.
pub(crate) fn trim_span(t: &[u8], span: (usize, usize)) -> (r: (usize, usize))
    requires
        span.0 <= span.1 <= t@.len(),
    ensures
        span.0 <= r.0 <= r.1 <= span.1,
        t@.subrange(r.0 as int, r.1 as int) == trim(t@.subrange(span.0 as int, span.1 as int)),
{
    let mut a = span.0;
    while a < span.1 && (t[a] == 0x20 || (0x09 <= t[a] && t[a] <= 0x0d))
        invariant
            span.0 <= a <= span.1 <= t@.len(),
            trim_start(t@.subrange(span.0 as int, span.1 as int)) == trim_start(
                t@.subrange(a as int, span.1 as int),
            ),
        decreases span.1 - a,
    {
        assert(t@.subrange(a as int, span.1 as int).drop_first() =~= t@.subrange(
            a + 1,
            span.1 as int,
        ));
        a = a + 1;
    }
    assert(trim_start(t@.subrange(a as int, span.1 as int)) == t@.subrange(a as int, span.1 as int));
    let mut b = span.1;
    while b > a && (t[b - 1] == 0x20 || (0x09 <= t[b - 1] && t[b - 1] <= 0x0d))
        invariant
            span.0 <= a <= b <= span.1 <= t@.len(),
            trim_end(t@.subrange(a as int, span.1 as int)) == trim_end(
                t@.subrange(a as int, b as int),
            ),
        decreases b - a,
    {
        assert(t@.subrange(a as int, b as int).drop_last() =~= t@.subrange(
            a as int,
            b - 1,
        ));
        b = b - 1;
    }
    assert(trim_end(t@.subrange(a as int, b as int)) == t@.subrange(a as int, b as int));
    (a, b)
}

/// Appends the bytes of `t` in `span` to `out`.
pub(crate) fn push_span(out: &mut Vec<u8>, t: &[u8], span: (usize, usize))
    requires
        span.0 <= span.1 <= t@.len(),
    ensures
        final(out)@ == old(out)@ + t@.subrange(span.0 as int, span.1 as int),
{
    let mut i = span.0;
    while i < span.1
        invariant
            span.0 <= i <= span.1 <= t@.len(),
            out@ == old(out)@ + t@.subrange(span.0 as int, i as int),
        decreases span.1 - i,
    {
        out.push(t[i]);
        assert(t@.subrange(span.0 as int, i + 1) =~= t@.subrange(span.0 as int, i as int).push(
            t@[i as int],
        ));
        i = i + 1;
    }
}

/// Appends all of `b` to `out`.
pub(crate) fn push_all(out: &mut Vec<u8>, b: &[u8])
    ensures
        final(out)@ == old(out)@ + b@,
{
    push_span(out, b, (0, b.len()));
    assert(b@.subrange(0, b@.len() as int) =~= b@);
}


/// Text made of whole lines: not empty, ending in a newline, and with no
/// carriage return just before a newline.
pub open spec fn whole_lines(p: Seq<u8>) -> bool {
    &&& p.len() > 0
    &&& p.last() == NEWLINE
    &&& forall|i: int| 1 <= i < p.len() && #[trigger] p[i] == NEWLINE ==> p[i - 1] != CARRIAGE_RETURN
}

proof fn lemma_line_len_facts(s: Seq<u8>)
    ensures
        line_len(s) <= s.len(),
        forall|j: int| 0 <= j < line_len(s) ==> s[j] != NEWLINE,
        line_len(s) < s.len() ==> s[line_len(s) as int] == NEWLINE,
    decreases s.len(),
{
    if s.len() > 0 && s[0] != NEWLINE {
        let t = s.drop_first();
        lemma_line_len_facts(t);
        assert forall|j: int| 0 <= j < line_len(s) implies s[j] != NEWLINE by {
            if j > 0 {
                assert(s[j] == t[j - 1]);
            }
        }
        if line_len(s) < s.len() {
            assert(s[line_len(s) as int] == t[line_len(t) as int]);
        }
    }
}

/// Lines split from text that ends in a newline, followed by more text, are
/// the lines of the one followed by the lines of the other.
pub proof fn lemma_lines_concat(a: Seq<u8>, b: Seq<u8>)
    requires
        a.len() > 0,
        a.last() == NEWLINE,
    ensures
        lines_of(a + b) == lines_of(a) + lines_of(b),
    decreases a.len(),
{
    lemma_line_len_facts(a);
    let k = line_len(a);
    let ab = a + b;
    if k == a.len() {
        assert(a[a.len() - 1] != NEWLINE);
    }
    assert forall|j: int| 0 <= j < k implies ab[j] != NEWLINE by {
        assert(ab[j] == a[j]);
    }
    assert(ab[k as int] == a[k as int]);
    lemma_line_len_is(ab, k);
    assert(ab.subrange(0, k as int) =~= a.subrange(0, k as int));
    let ra = a.subrange(k as int + 1, a.len() as int);
    assert(ab.subrange(k as int + 1, ab.len() as int) =~= ra + b);
    if ra.len() == 0 {
        assert(ra + b =~= b);
        assert(lines_of(ra) =~= Seq::<Seq<u8>>::empty());
        assert(lines_of(a) =~= seq![strip_cr(a.subrange(0, k as int))]);
    } else {
        assert(ra.last() == a.last());
        lemma_lines_concat(ra, b);
    }
    assert(lines_of(ab) =~= lines_of(a) + lines_of(b));
}

/// A line without newlines or a final carriage return, followed by a
/// newline, is split back into itself.
pub proof fn lemma_one_line(m: Seq<u8>)
    requires
        forall|i: int| 0 <= i < m.len() ==> m[i] != NEWLINE,
        !(m.len() > 0 && m.last() == CARRIAGE_RETURN),
    ensures
        lines_of(m + seq![NEWLINE]) == seq![m],
{
    let s = m + seq![NEWLINE];
    assert forall|j: int| 0 <= j < m.len() implies s[j] != NEWLINE by {
        assert(s[j] == m[j]);
    }
    lemma_line_len_is(s, m.len());
    assert(s.subrange(0, m.len() as int) =~= m);
    assert(s.subrange(m.len() as int + 1, s.len() as int) =~= Seq::<u8>::empty());
    assert(strip_cr(m) == m);
    assert(lines_of(Seq::<u8>::empty()) =~= Seq::<Seq<u8>>::empty());
    assert(lines_of(s) =~= seq![m]);
}

pub proof fn lemma_join_cons(x: Seq<u8>, ls: Seq<Seq<u8>>)
    ensures
        join_lines(seq![x] + ls) == x + seq![NEWLINE] + join_lines(ls),
    decreases ls.len(),
{
    let l2 = seq![x] + ls;
    if ls.len() == 0 {
        assert(l2 =~= seq![x]);
        assert(l2.drop_last() =~= Seq::<Seq<u8>>::empty());
        assert(l2.last() == x);
        assert(join_lines(Seq::<Seq<u8>>::empty()) =~= Seq::<u8>::empty());
        assert(join_lines(ls) =~= Seq::<u8>::empty());
        assert(join_lines(l2) =~= x + seq![NEWLINE] + join_lines(ls));
    } else {
        assert(l2.drop_last() =~= seq![x] + ls.drop_last());
        lemma_join_cons(x, ls.drop_last());
        assert(l2.last() == ls.last());
        assert(join_lines(l2) =~= x + seq![NEWLINE] + join_lines(ls));
    }
}

/// Joining the lines of text made of whole lines gives the text back.
pub proof fn lemma_join_lines_of(p: Seq<u8>)
    requires
        whole_lines(p),
    ensures
        join_lines(lines_of(p)) == p,
        lines_of(p).len() >= 1,
    decreases p.len(),
{
    lemma_line_len_facts(p);
    let k = line_len(p);
    if k == p.len() {
        assert(p[p.len() - 1] != NEWLINE);
    }
    let l = p.subrange(0, k as int);
    let rest = p.subrange(k as int + 1, p.len() as int);
    if k > 0 {
        assert(p[k - 1] != CARRIAGE_RETURN);
        assert(l.last() == p[k - 1]);
    }
    assert(strip_cr(l) == l);
    assert(lines_of(p) == seq![l] + lines_of(rest));
    lemma_join_cons(l, lines_of(rest));
    if rest.len() == 0 {
        assert(lines_of(rest) =~= Seq::<Seq<u8>>::empty());
        assert(join_lines(lines_of(rest)) =~= Seq::<u8>::empty());
        assert(p =~= l + seq![NEWLINE]);
    } else {
        assert forall|i: int| 1 <= i < rest.len() && #[trigger] rest[i] == NEWLINE implies rest[i - 1]
            != CARRIAGE_RETURN by {
            assert(rest[i] == p[k + 1 + i]);
            assert(rest[i - 1] == p[k + i]);
        }
        assert(rest.last() == p.last());
        lemma_join_lines_of(rest);
        assert(p =~= l + seq![NEWLINE] + rest);
    }
}

/// Splitting text that ends in a newline and joining the lines back never
/// makes it longer, and gives it back unchanged when the length is kept.
pub proof fn lemma_join_lines_shrinks(x: Seq<u8>)
    requires
        x.len() > 0,
        x.last() == NEWLINE,
    ensures
        join_lines(lines_of(x)).len() <= x.len(),
        join_lines(lines_of(x)).len() == x.len() ==> join_lines(lines_of(x)) == x,
    decreases x.len(),
{
    lemma_line_len_facts(x);
    let k = line_len(x);
    if k == x.len() {
        assert(x[x.len() - 1] != NEWLINE);
    }
    let l = x.subrange(0, k as int);
    let rest = x.subrange(k as int + 1, x.len() as int);
    assert(lines_of(x) == seq![strip_cr(l)] + lines_of(rest));
    lemma_join_cons(strip_cr(l), lines_of(rest));
    if rest.len() == 0 {
        assert(lines_of(rest) =~= Seq::<Seq<u8>>::empty());
        assert(join_lines(lines_of(rest)) =~= Seq::<u8>::empty());
        if join_lines(lines_of(x)).len() == x.len() {
            assert(strip_cr(l) == l);
            assert(x =~= l + seq![NEWLINE]);
            assert(join_lines(lines_of(x)) =~= x);
        }
    } else {
        assert(rest.last() == x.last());
        lemma_join_lines_shrinks(rest);
        if join_lines(lines_of(x)).len() == x.len() {
            assert(strip_cr(l) == l);
            assert(x =~= l + seq![NEWLINE] + rest);
            assert(join_lines(lines_of(x)) =~= x);
        }
    }
}

/// The line that holds the end of `q` followed by `w` (which has no newline)
/// ends with `w`, and the lines of what follows its newline come after it.
pub proof fn lemma_lines_around(q: Seq<u8>, w: Seq<u8>, r: Seq<u8>) -> (res: (
    Seq<Seq<u8>>,
    Seq<u8>,
))
    requires
        w.len() > 0,
        forall|i: int| 0 <= i < w.len() ==> w[i] != NEWLINE,
        w.last() != CARRIAGE_RETURN,
    ensures
        lines_of(q + w + seq![NEWLINE] + r) == res.0 + seq![res.1] + lines_of(r),
        res.1.len() >= w.len(),
        res.1.subrange(res.1.len() - w.len(), res.1.len() as int) == w,
    decreases q.len(),
{
    let x = q + w + seq![NEWLINE] + r;
    lemma_line_len_facts(q);
    let k = line_len(q);
    if k == q.len() {
        let line = q + w;
        assert forall|j: int| 0 <= j < line.len() implies x[j] != NEWLINE by {
            if j < q.len() {
                assert(x[j] == q[j]);
            } else {
                assert(x[j] == w[j - q.len()]);
            }
        }
        assert(x[line.len() as int] == NEWLINE);
        lemma_line_len_is(x, line.len());
        assert(x.subrange(0, line.len() as int) =~= line);
        assert(x.subrange(line.len() as int + 1, x.len() as int) =~= r);
        assert(line.last() == w.last());
        assert(strip_cr(line) == line);
        assert(lines_of(x) == seq![line] + lines_of(r));
        assert(line.subrange(line.len() - w.len(), line.len() as int) =~= w);
        assert(lines_of(x) =~= Seq::<Seq<u8>>::empty() + seq![line] + lines_of(r));
        (Seq::<Seq<u8>>::empty(), line)
    } else {
        let q2 = q.subrange(k as int + 1, q.len() as int);
        assert forall|j: int| 0 <= j < k implies x[j] != NEWLINE by {
            assert(x[j] == q[j]);
        }
        assert(x[k as int] == q[k as int]);
        lemma_line_len_is(x, k);
        assert(x.subrange(k as int + 1, x.len() as int) =~= q2 + w + seq![NEWLINE] + r);
        let (pre, line) = lemma_lines_around(q2, w, r);
        let first = strip_cr(x.subrange(0, k as int));
        assert(lines_of(x) == seq![first] + lines_of(q2 + w + seq![NEWLINE] + r));
        assert(lines_of(x) =~= (seq![first] + pre) + seq![line] + lines_of(r));
        (seq![first] + pre, line)
    }
}

} // verus!
