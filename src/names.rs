use vstd::prelude::*;
use crate::text::chars;

verus! {

/// Whether `a` comes strictly before `b` in lexicographic order of code
/// points, which is the order of their UTF-8 bytes.
pub open spec fn lex_lt(a: Seq<char>, b: Seq<char>) -> bool
    decreases a.len(),
{
    if a.len() == 0 {
        b.len() > 0
    } else if b.len() == 0 {
        false
    } else if a[0] != b[0] {
        a[0] < b[0]
    } else {
        lex_lt(a.drop_first(), b.drop_first())
    }
}

pub proof fn lemma_lex_total(a: Seq<char>, b: Seq<char>)
    ensures
        a == b || lex_lt(a, b) || lex_lt(b, a),
        !(lex_lt(a, b) && lex_lt(b, a)),
        lex_lt(a, b) ==> a != b,
    decreases a.len(),
{
    if a.len() > 0 && b.len() > 0 && a[0] == b[0] {
        lemma_lex_total(a.drop_first(), b.drop_first());
        if a.drop_first() == b.drop_first() {
            assert(a =~= seq![a[0]] + a.drop_first());
            assert(b =~= seq![b[0]] + b.drop_first());
        }
    } else if a.len() == 0 && b.len() == 0 {
        assert(a =~= b);
    } else if a.len() > 0 && b.len() > 0 {
    }
}

pub proof fn lemma_lex_trans(a: Seq<char>, b: Seq<char>, c: Seq<char>)
    requires
        lex_lt(a, b),
        lex_lt(b, c),
    ensures
        lex_lt(a, c),
    decreases a.len(),
{
    if a.len() > 0 && b.len() > 0 && c.len() > 0 && a[0] == b[0] && b[0] == c[0] {
        lemma_lex_trans(a.drop_first(), b.drop_first(), c.drop_first());
    }
}

proof fn lemma_push_contains(s: Seq<Seq<char>>, v: Seq<char>, x: Seq<char>)
    ensures
        s.push(v).contains(x) <==> (s.contains(x) || x == v),
{
    if s.contains(x) {
        let i = choose|i: int| 0 <= i < s.len() && s[i] == x;
        assert(s.push(v)[i] == x);
    }
    if x == v {
        assert(s.push(v)[s.len() as int] == x);
    }
    if s.push(v).contains(x) {
        let i = choose|i: int| 0 <= i < s.len() + 1 && s.push(v)[i] == x;
        if i < s.len() {
            assert(s[i] == x);
        }
    }
}

/// Whether `a` comes strictly before `b`.
pub fn name_lt(a: &str, b: &str) -> (r: bool)
    ensures
        r == lex_lt(a@, b@),
{
    let x = chars(a);
    let y = chars(b);
    let mut i: usize = 0;
    assert(a@.subrange(0, a@.len() as int) =~= a@);
    assert(b@.subrange(0, b@.len() as int) =~= b@);
    while i < x.len() && i < y.len()
        invariant
            x@ == a@,
            y@ == b@,
            i <= x@.len(),
            i <= y@.len(),
            lex_lt(a@, b@) == lex_lt(a@.subrange(i as int, a@.len() as int), b@.subrange(i as int, b@.len() as int)),
        decreases x@.len() - i,
    {
        let ghost sa = a@.subrange(i as int, a@.len() as int);
        let ghost sb = b@.subrange(i as int, b@.len() as int);
        assert(sa[0] == x@[i as int] && sb[0] == y@[i as int]);
        if x[i] != y[i] {
            return x[i] < y[i];
        }
        assert(sa.drop_first() =~= a@.subrange(i + 1, a@.len() as int));
        assert(sb.drop_first() =~= b@.subrange(i + 1, b@.len() as int));
        i = i + 1;
    }
    i == x.len() && i < y.len()
}

/// Whether the names `s` stand in strictly increasing order.
pub open spec fn strictly_sorted(s: Seq<Seq<char>>) -> bool {
    forall|i: int, j: int| 0 <= i < j < s.len() ==> lex_lt(#[trigger] s[i], #[trigger] s[j])
}

/// The texts of the strings `v`.
pub open spec fn texts(v: Seq<String>) -> Seq<Seq<char>> {
    v.map_values(|s: String| s@)
}

/// The distinct names among `names`, in increasing order.
pub fn sorted_unique(names: Vec<String>) -> (r: Vec<String>)
    ensures
        strictly_sorted(texts(r@)),
        forall|x: Seq<char>| texts(r@).contains(x) <==> texts(names@).contains(x),
{
    let mut out: Vec<String> = Vec::new();
    let mut k: usize = 0;
    while k < names.len()
        invariant
            k <= names@.len(),
            strictly_sorted(texts(out@)),
            forall|x: Seq<char>| texts(out@).contains(x) <==> texts(names@.subrange(0, k as int)).contains(x),
        decreases names@.len() - k,
    {
        let name = names[k].clone();
        let ghost prefix = names@.subrange(0, k as int);
        let ghost next = names@.subrange(0, k + 1);
        assert(texts(next) =~= texts(prefix).push(name@));
        let mut p: usize = 0;
        while p < out.len() && name_lt(out[p].as_str(), name.as_str())
            invariant
                p <= out@.len(),
                forall|i: int| 0 <= i < p ==> lex_lt(#[trigger] texts(out@)[i], name@),
            decreases out@.len() - p,
        {
            p = p + 1;
        }
        if p < out.len() && out[p] == name {
            assert(texts(out@)[p as int] == name@);
            assert forall|x: Seq<char>| texts(out@).contains(x) <==> texts(next).contains(x) by {
                lemma_push_contains(texts(prefix), name@, x);
                if x == name@ {
                    assert(texts(out@)[p as int] == x);
                }
            }
        } else {
            let ghost before = texts(out@);
            proof {
                if p < before.len() {
                    lemma_lex_total(before[p as int], name@);
                }
            }
            out.insert(p, name);
            proof {
                let after = texts(out@);
                assert(after =~= before.insert(p as int, name@));
                assert forall|i: int, j: int| 0 <= i < j < after.len() implies lex_lt(
                    #[trigger] after[i],
                    #[trigger] after[j],
                ) by {
                    if j < p {
                    } else if j == p {
                    } else if i < p {
                        if j - 1 > p {
                            lemma_lex_trans(name@, before[p as int], before[j - 1]);
                        }
                        lemma_lex_trans(before[i], name@, before[j - 1]);
                    } else if i == p {
                        if j - 1 > p {
                            lemma_lex_trans(name@, before[p as int], before[j - 1]);
                        }
                    } else {
                    }
                }
                assert forall|x: Seq<char>| after.contains(x) <==> texts(next).contains(x) by {
                    lemma_push_contains(texts(prefix), name@, x);
                    lemma_push_contains(before, name@, x);
                    if after.contains(x) {
                        let i = choose|i: int| 0 <= i < after.len() && after[i] == x;
                        if i < p {
                            assert(before.push(name@)[i] == x);
                        } else if i > p {
                            assert(before.push(name@)[i - 1] == x);
                        } else {
                            assert(before.push(name@)[before.len() as int] == x);
                        }
                    }
                    if before.push(name@).contains(x) {
                        let i = choose|i: int| 0 <= i < before.len() + 1 && before.push(name@)[i] == x;
                        if i == before.len() {
                            assert(after[p as int] == x);
                        } else if i < p {
                            assert(after[i] == x);
                        } else {
                            assert(after[i + 1] == x);
                        }
                    }
                }
            }
        }
        k = k + 1;
    }
    assert(names@.subrange(0, names@.len() as int) =~= names@);
    out
}

} // verus!
