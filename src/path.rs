use vstd::prelude::*;

verus! {

/// The separator between the entries of a search-path list.
pub open spec fn sep() -> char {
    ':'
}

/// Views each string of a sequence as its characters.
pub open spec fn strs(v: Seq<String>) -> Seq<Seq<char>> {
    Seq::new(v.len(), |i: int| v[i]@)
}

/// The segments of a path list, split at every separator. An empty string
/// is one empty segment, and two adjacent separators enclose an empty one.
pub open spec fn split_spec(s: Seq<char>) -> Seq<Seq<char>>
    decreases s.len(),
{
    if s.len() == 0 {
        seq![Seq::empty()]
    } else {
        let rest = split_spec(s.drop_last());
        if s.last() == sep() {
            rest.push(Seq::empty())
        } else {
            rest.update(rest.len() - 1, rest.last().push(s.last()))
        }
    }
}

/// The segments written one after another with a separator between each two.
pub open spec fn join_spec(segs: Seq<Seq<char>>) -> Seq<char>
    decreases segs.len(),
{
    if segs.len() == 0 {
        Seq::empty()
    } else if segs.len() == 1 {
        segs[0]
    } else {
        join_spec(segs.drop_last()) + seq![sep()] + segs.last()
    }
}

/// A segment can be joined when it holds no separator.
pub open spec fn joinable(segs: Seq<Seq<char>>) -> bool {
    forall|i: int, j: int| 0 <= i < segs.len() && 0 <= j < segs[i].len() ==> segs[i][j] != sep()
}

/// Appends `addition` to `existing`, with `split` between them unless
/// `existing` is empty.
pub open spec fn combine_spec(existing: Seq<char>, addition: Seq<char>, split: Seq<char>) -> Seq<char> {
    if existing.len() == 0 {
        addition
    } else {
        existing + split + addition
    }
}

/// The segments combined one by one onto an empty string with the separator.
pub open spec fn combine_all(segs: Seq<Seq<char>>) -> Seq<char>
    decreases segs.len(),
{
    if segs.len() == 0 {
        Seq::empty()
    } else {
        combine_spec(combine_all(segs.drop_last()), segs.last(), seq![sep()])
    }
}

/// Errors of re-joining a path list.
#[derive(Debug)]
pub enum EncodeError {
    /// The segment holds the separator, so it would read back as two.
    SeparatorInSegment { segment: String },
}

pub proof fn lemma_split_len(s: Seq<char>)
    ensures
        split_spec(s).len() >= 1,
    decreases s.len(),
{
    if s.len() > 0 {
        lemma_split_len(s.drop_last());
    }
}

/// No segment that `split_spec` gives holds the separator.
pub proof fn lemma_split_joinable(s: Seq<char>)
    ensures
        joinable(split_spec(s)),
    decreases s.len(),
{
    if s.len() > 0 {
        lemma_split_joinable(s.drop_last());
        lemma_split_len(s.drop_last());
        let rest = split_spec(s.drop_last());
        let r = split_spec(s);
        if s.last() != sep() {
            assert forall|i: int, j: int| 0 <= i < r.len() && 0 <= j < r[i].len() implies r[i][j] != sep() by {
                if i == rest.len() - 1 {
                    if j < rest.last().len() {
                        assert(r[i][j] == rest[i][j]);
                    }
                } else {
                    assert(r[i] == rest[i]);
                }
            }
        } else {
            assert forall|i: int, j: int| 0 <= i < r.len() && 0 <= j < r[i].len() implies r[i][j] != sep() by {
                assert(r[i] == rest[i]);
            }
        }
    }
}

/// Splitting `a`, a separator, then a segment without separators, gives the
/// segments of `a` followed by that segment.
proof fn lemma_split_after_sep(a: Seq<char>, x: Seq<char>)
    requires
        forall|j: int| 0 <= j < x.len() ==> x[j] != sep(),
    ensures
        split_spec(a + seq![sep()] + x) == split_spec(a).push(x),
    decreases x.len(),
{
    let s = a + seq![sep()] + x;
    if x.len() == 0 {
        assert(s.drop_last() =~= a);
        assert(Seq::<char>::empty() =~= x);
    } else {
        let x0 = x.drop_last();
        lemma_split_after_sep(a, x0);
        assert(s.drop_last() =~= a + seq![sep()] + x0);
        assert(x0.push(x.last()) =~= x);
        assert(s.last() == x.last());
        assert(split_spec(a).push(x0).update(split_spec(a).len() as int, x0.push(x.last()))
            =~= split_spec(a).push(x));
        assert(x0.push(x.last()) =~= x);
    }
}

/// A string without separators splits into itself alone.
proof fn lemma_split_single(x: Seq<char>)
    requires
        forall|j: int| 0 <= j < x.len() ==> x[j] != sep(),
    ensures
        split_spec(x) == seq![x],
    decreases x.len(),
{
    if x.len() == 0 {
        assert(x =~= Seq::<char>::empty());
    } else {
        let x0 = x.drop_last();
        lemma_split_single(x0);
        assert(x0.push(x.last()) =~= x);
        assert(seq![x0].update(0, x0.push(x.last())) =~= seq![x]);
    }
}

/// Splitting what was joined gives back the segments, for any non-empty
/// sequence of segments that hold no separator.
pub proof fn lemma_split_join(segs: Seq<Seq<char>>)
    requires
        segs.len() > 0,
        joinable(segs),
    ensures
        split_spec(join_spec(segs)) == segs,
    decreases segs.len(),
{
    if segs.len() == 1 {
        lemma_split_single(segs[0]);
        assert(seq![segs[0]] =~= segs);
    } else {
        let init = segs.drop_last();
        assert(joinable(init)) by {
            assert forall|i: int, j: int| 0 <= i < init.len() && 0 <= j < init[i].len()
                implies init[i][j] != sep() by {
                assert(init[i] == segs[i]);
            }
        }
        lemma_split_join(init);
        assert forall|j: int| 0 <= j < segs.last().len() implies segs.last()[j] != sep() by {
            assert(segs[segs.len() - 1][j] != sep());
        }
        lemma_split_after_sep(join_spec(init), segs.last());
        assert(init.push(segs.last()) =~= segs);
    }
}

/// Appends `b` to `a`, with `split` between them unless `a` is empty.
pub fn combine_path(a: String, b: &str, split: &str) -> (r: String)
    ensures
        r@ == combine_spec(a@, b@, split@),
{
    if a.as_str().unicode_len() == 0 {
        a.concat(b)
    } else {
        a.concat(split).concat(b)
    }
}

/// Whether `s` holds the separator.
pub fn has_separator(s: &str) -> (r: bool)
    ensures
        r == exists|j: int| 0 <= j < s@.len() && s@[j] == sep(),
{
    let n = s.unicode_len();
    let mut i: usize = 0;
    while i < n
        invariant
            n == s@.len(),
            i <= n,
            forall|j: int| 0 <= j < i ==> s@[j] != sep(),
        decreases n - i,
    {
        if s.get_char(i) == ':' {
            return true;
        }
        i = i + 1;
    }
    false
}

/// Splits a path list at every separator.
pub fn split_paths(s: &str) -> (r: Vec<String>)
    ensures
        strs(r@) == split_spec(s@),
{
    let n = s.unicode_len();
    let mut out: Vec<String> = Vec::new();
    let mut start: usize = 0;
    let mut i: usize = 0;
    assert(s@.subrange(0, 0) =~= Seq::<char>::empty());
    assert(strs(out@) =~= Seq::<Seq<char>>::empty());
    assert(strs(out@).push(s@.subrange(0, 0)) =~= split_spec(s@.subrange(0, 0)));
    while i < n
        invariant
            n == s@.len(),
            start <= i <= n,
            strs(out@).push(s@.subrange(start as int, i as int)) == split_spec(s@.subrange(0, i as int)),
        decreases n - i,
    {
        let c = s.get_char(i);
        let ghost pre = s@.subrange(0, i as int);
        let ghost cur = s@.subrange(0, i as int + 1);
        assert(cur.drop_last() =~= pre);
        assert(cur.last() == c);
        if c == ':' {
            let seg = String::from_str(s.substring_char(start, i));
            let ghost before = out@;
            out.push(seg);
            assert(strs(out@) =~= strs(before).push(seg@));
            start = i + 1;
            assert(s@.subrange(start as int, i as int + 1) =~= Seq::<char>::empty());
        } else {
            assert(s@.subrange(start as int, i as int).push(c) =~= s@.subrange(start as int, i as int + 1));
            assert(strs(out@).push(s@.subrange(start as int, i as int)).update(
                out@.len() as int, s@.subrange(start as int, i as int).push(c))
                =~= strs(out@).push(s@.subrange(start as int, i as int + 1)));
        }
        i = i + 1;
    }
    let last = String::from_str(s.substring_char(start, n));
    let ghost before = out@;
    out.push(last);
    assert(strs(out@) =~= strs(before).push(last@));
    assert(s@.subrange(0, n as int) =~= s@);
    out
}

/// Joins the segments with the separator; fails when a segment holds it.
pub fn join_paths(segs: &Vec<String>) -> (r: Result<String, EncodeError>)
    ensures
        r is Ok <==> joinable(strs(segs@)),
        r matches Ok(s) ==> s@ == join_spec(strs(segs@)),
{
    let mut out = String::new();
    let mut i: usize = 0;
    while i < segs.len()
        invariant
            i <= segs@.len(),
            out@ == join_spec(strs(segs@).subrange(0, i as int)),
            joinable(strs(segs@).subrange(0, i as int)),
        decreases segs@.len() - i,
    {
        let seg = &segs[i];
        if has_separator(seg.as_str()) {
            let ghost j = choose|j: int| 0 <= j < seg@.len() && seg@[j] == sep();
            assert(strs(segs@)[i as int][j] == sep());
            return Err(EncodeError::SeparatorInSegment { segment: seg.clone() });
        }
        let ghost prev = strs(segs@).subrange(0, i as int);
        let ghost cur = strs(segs@).subrange(0, i as int + 1);
        assert(cur.drop_last() =~= prev);
        let ghost before = out@;
        if i > 0 {
            out.append(":");
            proof { reveal_strlit(":"); }
            assert(out@ =~= before + seq![sep()]);
        }
        out.append(seg.as_str());
        assert(cur.last() == seg@);
        proof {
            if i == 0 {
                assert(out@ =~= seg@);
            } else {
                assert(out@ =~= join_spec(prev) + seq![sep()] + seg@);
            }
            assert forall|a: int, b: int| 0 <= a < cur.len() && 0 <= b < cur[a].len()
                implies cur[a][b] != sep() by {
                if a < i {
                    assert(cur[a] == prev[a]);
                }
            }
        }
        i = i + 1;
    }
    assert(strs(segs@).subrange(0, i as int) =~= strs(segs@));
    Ok(out)
}

} // verus!
