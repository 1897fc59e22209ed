use vstd::prelude::*;

verus! {

/// The views of a sequence of strings.
pub open spec fn views(v: Seq<String>) -> Seq<Seq<char>> {
    v.map_values(|x: String| x@)
}

pub open spec fn dot() -> Seq<char> {
    seq!['.']
}

pub open spec fn dotdot() -> Seq<char> {
    seq!['.', '.']
}

/// The segments of a raw path: the pieces between its separators, empty ones
/// included (a leading `/` gives an empty first segment, a trailing one an
/// empty last segment).
pub open spec fn split_segments(s: Seq<char>) -> Seq<Seq<char>>
    decreases s.len(),
{
    if s.len() == 0 {
        seq![Seq::empty()]
    } else {
        let p = split_segments(s.drop_last());
        if s.last() == '/' {
            p.push(Seq::empty())
        } else {
            p.update(p.len() - 1, p.last().push(s.last()))
        }
    }
}

/// One step of normalization: empty segments and `.` are ignored, `..` pops
/// the last segment if there is one, anything else is pushed.
pub open spec fn step(base: Seq<Seq<char>>, x: Seq<char>) -> Seq<Seq<char>> {
    if x.len() == 0 || x == dot() {
        base
    } else if x == dotdot() {
        if base.len() > 0 {
            base.drop_last()
        } else {
            base
        }
    } else {
        base.push(x)
    }
}

/// The stack reached from `base` by consuming `segs` left to right.
pub open spec fn push_segments(base: Seq<Seq<char>>, segs: Seq<Seq<char>>) -> Seq<Seq<char>>
    decreases segs.len(),
{
    if segs.len() == 0 {
        base
    } else {
        step(push_segments(base, segs.drop_last()), segs.last())
    }
}

/// The canonical segments of a raw segment sequence, rooted at the top.
pub open spec fn normalize_segments(segs: Seq<Seq<char>>) -> Seq<Seq<char>> {
    push_segments(Seq::empty(), segs)
}

/// A canonical path: no empty segment, no `.` and no `..`.
pub open spec fn is_canonical(segs: Seq<Seq<char>>) -> bool {
    forall|i: int|
        0 <= i < segs.len() ==> {
            &&& #[trigger] segs[i].len() > 0
            &&& segs[i] != dot()
            &&& segs[i] != dotdot()
        }
}

/// The segments joined by `/`, the root being the empty name.
pub open spec fn join_segments(segs: Seq<Seq<char>>) -> Seq<char>
    decreases segs.len(),
{
    if segs.len() == 0 {
        Seq::empty()
    } else if segs.len() == 1 {
        segs[0]
    } else {
        join_segments(segs.drop_last()) + seq!['/'] + segs.last()
    }
}

proof fn lemma_split_nonempty(s: Seq<char>)
    ensures
        split_segments(s).len() >= 1,
    decreases s.len(),
{
    if s.len() > 0 {
        lemma_split_nonempty(s.drop_last());
    }
}

fn is_dot(s: &str) -> (r: bool)
    ensures
        r == (s@ == dot()),
{
    if s.unicode_len() == 1 {
        let c = s.get_char(0);
        if c == '.' {
            assert(s@ =~= dot());
            true
        } else {
            false
        }
    } else {
        false
    }
}

fn is_dotdot(s: &str) -> (r: bool)
    ensures
        r == (s@ == dotdot()),
{
    if s.unicode_len() == 2 {
        let c0 = s.get_char(0);
        let c1 = s.get_char(1);
        if c0 == '.' && c1 == '.' {
            assert(s@ =~= dotdot());
            true
        } else {
            false
        }
    } else {
        false
    }
}

/// Splits a raw path at each `/` into its segments, empty ones included.
pub fn split_path(path: &str) -> (r: Vec<String>)
    ensures
        views(r@) == split_segments(path@),
{
    let n = path.unicode_len();
    let mut out: Vec<String> = Vec::new();
    let mut start: usize = 0;
    let mut i: usize = 0;
    proof {
        assert(path@.take(0) =~= Seq::<char>::empty());
        assert(views(out@).push(path@.subrange(0, 0)) =~= seq![Seq::<char>::empty()]);
    }
    while i < n
        invariant
            n == path@.len(),
            start <= i <= n,
            split_segments(path@.take(i as int)) == views(out@).push(
                path@.subrange(start as int, i as int),
            ),
        decreases n - i,
    {
        let c = path.get_char(i);
        proof {
            assert(path@.take(i + 1).drop_last() =~= path@.take(i as int));
            assert(path@.take(i + 1).last() == c);
        }
        if c == '/' {
            let seg = String::from_str(path.substring_char(start, i));
            let ghost old_out = out@;
            out.push(seg);
            proof {
                assert(views(out@) =~= views(old_out).push(seg@));
                assert(path@.subrange((i + 1) as int, (i + 1) as int) =~= Seq::<char>::empty());
            }
            start = i + 1;
        } else {
            proof {
                let p = split_segments(path@.take(i as int));
                assert(path@.subrange(start as int, i + 1) =~= path@.subrange(
                    start as int,
                    i as int,
                ).push(c));
                assert(p.update(p.len() - 1, p.last().push(c)) =~= views(out@).push(
                    path@.subrange(start as int, i + 1),
                ));
            }
        }
        i = i + 1;
    }
    let last = String::from_str(path.substring_char(start, n));
    let ghost old_out = out@;
    out.push(last);
    proof {
        assert(path@.take(n as int) =~= path@);
        assert(views(out@) =~= views(old_out).push(last@));
    }
    out
}

/// Normalizes a raw request path into its canonical segments: empty segments
/// and `.` are dropped, `..` removes the segment before it and is a no-op at
/// the root. Total: every input has a canonical form.
pub fn normalize_path(path: &str) -> (r: Vec<String>)
    ensures
        views(r@) == normalize_segments(split_segments(path@)),
        is_canonical(views(r@)),
{
    let raw = split_path(path);
    let mut out: Vec<String> = Vec::new();
    let mut i: usize = 0;
    while i < raw.len()
        invariant
            0 <= i <= raw@.len(),
            views(out@) == push_segments(Seq::empty(), views(raw@).take(i as int)),
        decreases raw@.len() - i,
    {
        let seg = &raw[i];
        proof {
            assert(views(raw@).take(i + 1).drop_last() =~= views(raw@).take(i as int));
            assert(views(raw@).take(i + 1).last() == seg@);
        }
        let ghost before = out@;
        let len = seg.unicode_len();
        if len == 0 || is_dot(seg.as_str()) {
        } else if is_dotdot(seg.as_str()) {
            if out.len() > 0 {
                out.pop();
                proof {
                    assert(views(out@) =~= views(before).drop_last());
                }
            }
        } else {
            out.push(seg.clone());
            proof {
                assert(views(out@) =~= views(before).push(seg@));
            }
        }
        i = i + 1;
    }
    proof {
        assert(views(raw@).take(raw@.len() as int) =~= views(raw@));
        lemma_push_segments_canonical(Seq::empty(), views(raw@));
    }
    out
}

/// Stepping from a canonical stack keeps it canonical.
pub proof fn lemma_push_segments_canonical(base: Seq<Seq<char>>, segs: Seq<Seq<char>>)
    requires
        is_canonical(base),
    ensures
        is_canonical(push_segments(base, segs)),
    decreases segs.len(),
{
    if segs.len() > 0 {
        lemma_push_segments_canonical(base, segs.drop_last());
        let p = push_segments(base, segs.drop_last());
        let x = segs.last();
        if x.len() == 0 || x == dot() {
        } else if x == dotdot() {
            if p.len() > 0 {
                assert forall|i: int| 0 <= i < p.drop_last().len() implies #[trigger] p.drop_last()[i].len() > 0
                    && p.drop_last()[i] != dot() && p.drop_last()[i] != dotdot() by {
                    assert(p.drop_last()[i] == p[i]);
                }
            }
        } else {
            assert forall|i: int| 0 <= i < p.push(x).len() implies #[trigger] p.push(x)[i].len() > 0
                && p.push(x)[i] != dot() && p.push(x)[i] != dotdot() by {
                if i < p.len() {
                    assert(p.push(x)[i] == p[i]);
                }
            }
        }
    }
}

/// The archive member name of a canonical path: its segments joined by `/`,
/// the root being the empty name.
pub fn member_name(segs: &Vec<String>) -> (r: String)
    ensures
        r@ == join_segments(views(segs@)),
{
    let mut out = String::new();
    let mut i: usize = 0;
    while i < segs.len()
        invariant
            0 <= i <= segs@.len(),
            out@ == join_segments(views(segs@).take(i as int)),
        decreases segs@.len() - i,
    {
        let ghost t = views(segs@).take(i + 1);
        proof {
            assert(t.drop_last() =~= views(segs@).take(i as int));
            assert(t.last() == segs@[i as int]@);
        }
        if i > 0 {
            out.append("/");
            proof {
                reveal_strlit("/");
            }
            assert(out@ =~= join_segments(t.drop_last()) + seq!['/']);
        }
        out.append(segs[i].as_str());
        proof {
            if i == 0 {
                assert(out@ =~= t[0]);
            }
        }
        i = i + 1;
    }
    proof {
        assert(views(segs@).take(segs@.len() as int) =~= views(segs@));
    }
    out
}

/// No segment holds a separator.
pub open spec fn no_separator(segs: Seq<Seq<char>>) -> bool {
    forall|i: int, j: int| 0 <= i < segs.len() && 0 <= j < segs[i].len() ==> #[trigger] segs[i][j] != '/'
}

/// `n` parent segments in a row.
pub open spec fn parents(n: nat) -> Seq<Seq<char>> {
    Seq::new(n, |i: int| dotdot())
}

proof fn lemma_split_no_separator(s: Seq<char>)
    ensures
        no_separator(split_segments(s)),
    decreases s.len(),
{
    lemma_split_nonempty(s);
    if s.len() > 0 {
        lemma_split_no_separator(s.drop_last());
        lemma_split_nonempty(s.drop_last());
        let p = split_segments(s.drop_last());
        if s.last() != '/' {
            let q = p.update(p.len() - 1, p.last().push(s.last()));
            assert forall|i: int, j: int| 0 <= i < q.len() && 0 <= j < q[i].len() implies #[trigger] q[i][j] != '/' by {
                if i == p.len() - 1 && j < p.last().len() {
                    assert(q[i][j] == p[i][j]);
                } else if i < p.len() - 1 {
                    assert(q[i] == p[i]);
                }
            }
        } else {
            let q = p.push(Seq::<char>::empty());
            assert forall|i: int, j: int| 0 <= i < q.len() && 0 <= j < q[i].len() implies #[trigger] q[i][j] != '/' by {
                assert(q[i] == p[i]);
            }
        }
    }
}

proof fn lemma_push_segments_no_separator(base: Seq<Seq<char>>, segs: Seq<Seq<char>>)
    requires
        no_separator(base),
        no_separator(segs),
    ensures
        no_separator(push_segments(base, segs)),
    decreases segs.len(),
{
    if segs.len() > 0 {
        let d = segs.drop_last();
        assert forall|i: int, j: int| 0 <= i < d.len() && 0 <= j < d[i].len() implies #[trigger] d[i][j] != '/' by {
            assert(d[i] == segs[i]);
        }
        lemma_push_segments_no_separator(base, d);
        let p = push_segments(base, d);
        let x = segs.last();
        if x.len() == 0 || x == dot() {
        } else if x == dotdot() {
            if p.len() > 0 {
                let q = p.drop_last();
                assert forall|i: int, j: int| 0 <= i < q.len() && 0 <= j < q[i].len() implies #[trigger] q[i][j] != '/' by {
                    assert(q[i] == p[i]);
                }
            }
        } else {
            let q = p.push(x);
            assert forall|i: int, j: int| 0 <= i < q.len() && 0 <= j < q[i].len() implies #[trigger] q[i][j] != '/' by {
                if i < p.len() {
                    assert(q[i] == p[i]);
                } else {
                    assert(x[j] == segs[segs.len() - 1][j]);
                }
            }
        }
    }
}

proof fn lemma_push_segments_append(base: Seq<Seq<char>>, a: Seq<Seq<char>>, b: Seq<Seq<char>>)
    ensures
        push_segments(base, a + b) == push_segments(push_segments(base, a), b),
    decreases b.len(),
{
    if b.len() == 0 {
        assert(a + b =~= a);
    } else {
        lemma_push_segments_append(base, a, b.drop_last());
        assert((a + b).drop_last() =~= a + b.drop_last());
        assert((a + b).last() == b.last());
    }
}

proof fn lemma_push_canonical(base: Seq<Seq<char>>, c: Seq<Seq<char>>)
    requires
        is_canonical(c),
    ensures
        push_segments(base, c) == base + c,
    decreases c.len(),
{
    if c.len() == 0 {
        assert(base + c =~= base);
    } else {
        let d = c.drop_last();
        assert forall|i: int| 0 <= i < d.len() implies #[trigger] d[i].len() > 0 && d[i] != dot() && d[i] != dotdot() by {
            assert(d[i] == c[i]);
        }
        lemma_push_canonical(base, d);
        assert(c[c.len() - 1].len() > 0);
        assert((base + d).push(c.last()) =~= base + c);
    }
}

proof fn lemma_split_append_plain(s: Seq<char>, t: Seq<char>)
    requires
        forall|j: int| 0 <= j < t.len() ==> t[j] != '/',
    ensures
        split_segments(s + t) == split_segments(s).update(
            split_segments(s).len() - 1,
            split_segments(s).last() + t,
        ),
    decreases t.len(),
{
    lemma_split_nonempty(s);
    let q = split_segments(s);
    if t.len() == 0 {
        assert(s + t =~= s);
        assert(q.last() + t =~= q.last());
        assert(q.update(q.len() - 1, q.last()) =~= q);
    } else {
        let t0 = t.drop_last();
        lemma_split_append_plain(s, t0);
        assert((s + t).drop_last() =~= s + t0);
        assert((s + t).last() == t.last());
        let p = split_segments(s + t0);
        assert(p.len() == q.len());
        assert(p.last() == q.last() + t0);
        assert((q.last() + t0).push(t.last()) =~= q.last() + t);
        assert(p.update(p.len() - 1, p.last().push(t.last())) =~= q.update(
            q.len() - 1,
            q.last() + t,
        ));
    }
}

proof fn lemma_split_join(c: Seq<Seq<char>>)
    requires
        c.len() >= 1,
        no_separator(c),
    ensures
        split_segments(join_segments(c)) == c,
    decreases c.len(),
{
    if c.len() == 1 {
        let x = c[0];
        assert forall|j: int| 0 <= j < x.len() implies x[j] != '/' by {
            assert(c[0][j] != '/');
        }
        lemma_split_append_plain(Seq::empty(), x);
        assert(Seq::<char>::empty() + x =~= x);
        assert(split_segments(Seq::<char>::empty()).update(0, Seq::<char>::empty() + x) =~= c);
    } else {
        let d = c.drop_last();
        let x = c.last();
        assert forall|i: int, j: int| 0 <= i < d.len() && 0 <= j < d[i].len() implies #[trigger] d[i][j] != '/' by {
            assert(d[i] == c[i]);
        }
        lemma_split_join(d);
        let s = join_segments(d) + seq!['/'];
        assert(s.drop_last() =~= join_segments(d));
        assert forall|j: int| 0 <= j < x.len() implies x[j] != '/' by {
            assert(c[c.len() - 1][j] != '/');
        }
        lemma_split_append_plain(s, x);
        let q = split_segments(s);
        assert(q =~= d.push(Seq::<char>::empty()));
        assert(Seq::<char>::empty() + x =~= x);
        assert(q.update(q.len() - 1, q.last() + x) =~= c);
    }
}

/// Normalization is idempotent: the member name of a normalized path
/// normalizes to the same segments.
pub proof fn law_normalize_idempotent(p: Seq<char>)
    ensures
        normalize_segments(split_segments(join_segments(normalize_segments(split_segments(p)))))
            == normalize_segments(split_segments(p)),
{
    let c = normalize_segments(split_segments(p));
    lemma_push_segments_canonical(Seq::empty(), split_segments(p));
    lemma_split_no_separator(p);
    lemma_push_segments_no_separator(Seq::empty(), split_segments(p));
    if c.len() == 0 {
        assert(c =~= Seq::<Seq<char>>::empty());
        assert(join_segments(c) =~= Seq::<char>::empty());
        assert(split_segments(Seq::<char>::empty()) =~= seq![Seq::<char>::empty()]);
        assert(push_segments(Seq::empty(), Seq::<Seq<char>>::empty()) == Seq::<Seq<char>>::empty());
        assert(seq![Seq::<char>::empty()].drop_last() =~= Seq::<Seq<char>>::empty());
    } else {
        lemma_split_join(c);
        lemma_push_canonical(Seq::empty(), c);
        assert(Seq::<Seq<char>>::empty() + c =~= c);
    }
}

/// Normalizing a canonical segment sequence changes nothing.
pub proof fn law_canonical_fixed(c: Seq<Seq<char>>)
    requires
        is_canonical(c),
    ensures
        normalize_segments(c) == c,
{
    lemma_push_canonical(Seq::empty(), c);
    assert(Seq::<Seq<char>>::empty() + c =~= c);
}

/// Normalization never yields `.`, `..` or an empty segment, so the result
/// stays under the root.
pub proof fn law_normalize_contained(p: Seq<char>)
    ensures
        is_canonical(normalize_segments(split_segments(p))),
        forall|i: int|
            0 <= i < normalize_segments(split_segments(p)).len()
                ==> #[trigger] normalize_segments(split_segments(p))[i] != dotdot(),
{
    let c = normalize_segments(split_segments(p));
    lemma_push_segments_canonical(Seq::empty(), split_segments(p));
    assert forall|i: int| 0 <= i < c.len() implies #[trigger] c[i] != dotdot() by {
        assert(c[i].len() > 0);
    }
}

proof fn lemma_parents_stay_at_root(n: nat)
    ensures
        push_segments(Seq::empty(), parents(n)) == Seq::<Seq<char>>::empty(),
    decreases n,
{
    if n > 0 {
        lemma_parents_stay_at_root((n - 1) as nat);
        assert(parents(n).drop_last() =~= parents((n - 1) as nat));
        assert(parents(n).last() == dotdot());
    }
}

/// Any number of leading `..` segments is a no-op at the root.
pub proof fn law_leading_parents_ignored(n: nat, segs: Seq<Seq<char>>)
    ensures
        normalize_segments(parents(n) + segs) == normalize_segments(segs),
{
    lemma_push_segments_append(Seq::empty(), parents(n), segs);
    lemma_parents_stay_at_root(n);
}

/// `n` parent steps written as text: `../` repeated `n` times.
pub open spec fn parent_prefix(n: nat) -> Seq<char>
    decreases n,
{
    if n == 0 {
        Seq::empty()
    } else {
        dotdot() + seq!['/'] + parent_prefix((n - 1) as nat)
    }
}

proof fn lemma_split_concat(a: Seq<char>, b: Seq<char>)
    ensures
        split_segments(a + seq!['/'] + b) == split_segments(a) + split_segments(b),
    decreases b.len(),
{
    let t = a + seq!['/'] + b;
    if b.len() == 0 {
        assert(t.drop_last() =~= a);
        assert(t.last() == '/');
        assert(split_segments(b) =~= seq![Seq::<char>::empty()]);
        assert(split_segments(a).push(Seq::<char>::empty()) =~= split_segments(a) + split_segments(b));
    } else {
        let b0 = b.drop_last();
        let c = b.last();
        lemma_split_concat(a, b0);
        lemma_split_nonempty(b0);
        lemma_split_nonempty(a);
        assert(t.drop_last() =~= a + seq!['/'] + b0);
        assert(t.last() == c);
        let p = split_segments(a) + split_segments(b0);
        let q = split_segments(b0);
        if c == '/' {
            assert(p.push(Seq::<char>::empty()) =~= split_segments(a) + q.push(Seq::<char>::empty()));
        } else {
            assert(p.last() == q.last());
            assert(p.update(p.len() - 1, p.last().push(c)) =~= split_segments(a) + q.update(
                q.len() - 1,
                q.last().push(c),
            ));
        }
    }
}

proof fn lemma_split_parent_prefix(n: nat, s: Seq<char>)
    ensures
        split_segments(parent_prefix(n) + s) == parents(n) + split_segments(s),
    decreases n,
{
    if n == 0 {
        assert(parent_prefix(0) + s =~= s);
        assert(parents(0) + split_segments(s) =~= split_segments(s));
    } else {
        let m = (n - 1) as nat;
        lemma_split_parent_prefix(m, s);
        assert(parent_prefix(n) + s =~= dotdot() + seq!['/'] + (parent_prefix(m) + s));
        lemma_split_concat(dotdot(), parent_prefix(m) + s);
        lemma_split_append_plain(Seq::empty(), dotdot());
        assert(Seq::<char>::empty() + dotdot() =~= dotdot());
        assert(split_segments(Seq::<char>::empty()) =~= seq![Seq::<char>::empty()]);
        assert(split_segments(dotdot()) =~= seq![dotdot()]);
        assert(seq![dotdot()] + (parents(m) + split_segments(s)) =~= parents(n) + split_segments(s));
    }
}

/// Any number of leading `../` in a raw path is a no-op at the root: the
/// path normalizes as if they were not there.
pub proof fn law_leading_parent_text_ignored(n: nat, s: Seq<char>)
    ensures
        normalize_segments(split_segments(parent_prefix(n) + s)) == normalize_segments(
            split_segments(s),
        ),
{
    lemma_split_parent_prefix(n, s);
    law_leading_parents_ignored(n, split_segments(s));
}

} // verus!
