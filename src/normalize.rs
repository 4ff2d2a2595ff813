use vstd::prelude::*;
use crate::text::{chars_of, string_of};

verus! {

/// Every occurrence of `pat` in `s`, scanning left to right without overlap, replaced by `rep`.
pub open spec fn replace_all(s: Seq<char>, pat: Seq<char>, rep: Seq<char>) -> Seq<char>
    decreases s.len(),
{
    if pat.len() == 0 || s.len() < pat.len() {
        s
    } else if s.subrange(0, pat.len() as int) == pat {
        rep + replace_all(s.subrange(pat.len() as int, s.len() as int), pat, rep)
    } else {
        seq![s[0]] + replace_all(s.drop_first(), pat, rep)
    }
}

fn matches_at(s: &Vec<char>, i: usize, pat: &Vec<char>) -> (r: bool)
    requires
        i + pat@.len() <= s@.len(),
    ensures
        r == (s@.subrange(i as int, i + pat@.len()) == pat@),
{
    let mut j: usize = 0;
    while j < pat.len()
        invariant
            i + pat@.len() <= s@.len(),
            j <= pat@.len(),
            s@.len() == s.len(),
            forall|k: int| 0 <= k < j ==> s@[i + k] == pat@[k],
        decreases pat.len() - j,
    {
        if s[i + j] != pat[j] {
            assert(s@.subrange(i as int, i + pat@.len())[j as int] != pat@[j as int]);
            return false;
        }
        j = j + 1;
    }
    assert(s@.subrange(i as int, i + pat@.len()) =~= pat@);
    true
}

pub fn replace_all_chars(s: &Vec<char>, pat: &Vec<char>, rep: &Vec<char>) -> (r: Vec<char>)
    ensures
        r@ == replace_all(s@, pat@, rep@),
{
    let n = s.len();
    let m = pat.len();
    let mut out: Vec<char> = Vec::new();
    let mut i: usize = 0;
    assert(s@.subrange(0, n as int) =~= s@);
    while i < n && m > 0 && m <= n - i
        invariant
            i <= n == s@.len(),
            m == pat@.len(),
            out@ + replace_all(s@.subrange(i as int, n as int), pat@, rep@) == replace_all(
                s@,
                pat@,
                rep@,
            ),
        decreases n - i,
    {
        let rest = Ghost(s@.subrange(i as int, n as int));
        if matches_at(s, i, pat) {
            assert(rest@.subrange(0, m as int) =~= s@.subrange(i as int, i + m));
            assert(rest@.subrange(m as int, rest@.len() as int) =~= s@.subrange(
                i + m,
                n as int,
            ));
            let mut k: usize = 0;
            let ghost out0 = out@;
            while k < rep.len()
                invariant
                    k <= rep@.len(),
                    out@ == out0 + rep@.take(k as int),
                decreases rep.len() - k,
            {
                out.push(rep[k]);
                assert(out@ =~= out0 + rep@.take(k + 1));
                k = k + 1;
            }
            assert(rep@.take(rep@.len() as int) =~= rep@);
            assert(out@ + replace_all(s@.subrange(i + m, n as int), pat@, rep@) =~= out0 + (
            rep@ + replace_all(s@.subrange(i + m, n as int), pat@, rep@)));
            i = i + m;
        } else {
            assert(rest@.subrange(0, m as int) =~= s@.subrange(i as int, i + m));
            assert(rest@.drop_first() =~= s@.subrange(i + 1, n as int));
            let ghost out0 = out@;
            out.push(s[i]);
            assert(out@ + replace_all(s@.subrange(i + 1, n as int), pat@, rep@) =~= out0 + (
            seq![s@[i as int]] + replace_all(s@.subrange(i + 1, n as int), pat@, rep@)));
            i = i + 1;
        }
    }
    let ghost out0 = out@;
    assert(replace_all(s@.subrange(i as int, n as int), pat@, rep@) == s@.subrange(
        i as int,
        n as int,
    ));
    while i < n
        invariant
            i <= n == s@.len(),
            out@ + s@.subrange(i as int, n as int) == replace_all(s@, pat@, rep@),
        decreases n - i,
    {
        let ghost o = out@;
        out.push(s[i]);
        assert(o + s@.subrange(i as int, n as int) =~= out@ + s@.subrange(i + 1, n as int));
        i = i + 1;
    }
    assert(out@ + s@.subrange(n as int, n as int) =~= out@);
    out
}

pub open spec fn ms_short() -> Seq<char> {
    "MS in Computer Science"@
}

pub open spec fn ms_long() -> Seq<char> {
    "Masters in Computer Science"@
}

pub open spec fn bs_short() -> Seq<char> {
    "BS in Computer Science"@
}

pub open spec fn bs_long() -> Seq<char> {
    "Bachelors in Computer Science"@
}

/// The file's text with the abbreviated degree names written out, master's first.
pub open spec fn normalized(text: Seq<char>) -> Seq<char> {
    replace_all(replace_all(text, ms_short(), ms_long()), bs_short(), bs_long())
}

/// Writes out the abbreviated degree program names throughout the text.
pub fn normalize(text: &str) -> (r: String)
    ensures
        r@ == normalized(text@),
{
    let s = chars_of(text);
    let step = replace_all_chars(&s, &chars_of("MS in Computer Science"), &chars_of(
        "Masters in Computer Science",
    ));
    let step = replace_all_chars(&step, &chars_of("BS in Computer Science"), &chars_of(
        "Bachelors in Computer Science",
    ));
    string_of(step.as_slice())
}

/// `t` stands in `s` from position `i`.
pub open spec fn occurs_at(s: Seq<char>, t: Seq<char>, i: int) -> bool {
    0 <= i && i + t.len() <= s.len() && s.subrange(i, i + t.len()) == t
}

/// `t` stands somewhere in `s`.
pub open spec fn contains_text(s: Seq<char>, t: Seq<char>) -> bool {
    exists|i: int| occurs_at(s, t, i)
}

proof fn lemma_shift(s: Seq<char>, t: Seq<char>, d: int, i: int)
    requires
        0 <= d <= s.len(),
    ensures
        occurs_at(s.subrange(d, s.len() as int), t, i) <==> (i >= 0 && occurs_at(s, t, i + d)),
{
    let r = s.subrange(d, s.len() as int);
    if i >= 0 && i + t.len() <= r.len() {
        assert(r.subrange(i, i + t.len()) =~= s.subrange(i + d, i + d + t.len()));
    }
}

proof fn lemma_occurs_after(a: Seq<char>, b: Seq<char>, t: Seq<char>, j: int)
    requires
        occurs_at(b, t, j),
    ensures
        occurs_at(a + b, t, j + a.len()),
{
    assert((a + b).subrange(j + a.len(), j + a.len() + t.len()) =~= b.subrange(j, j + t.len()));
}

/// Replacing puts `rep` wherever `pat` stood at least once.
proof fn lemma_replace_introduces(s: Seq<char>, pat: Seq<char>, rep: Seq<char>)
    requires
        pat.len() > 0,
        contains_text(s, pat),
    ensures
        contains_text(replace_all(s, pat, rep), rep),
    decreases s.len(),
{
    let i = choose|i: int| occurs_at(s, pat, i);
    let m = pat.len() as int;
    if s.subrange(0, m) == pat {
        let out = replace_all(s, pat, rep);
        assert(out.subrange(0, rep.len() as int) =~= rep);
        assert(occurs_at(out, rep, 0));
    } else {
        assert(i != 0);
        lemma_shift(s, pat, 1, i - 1);
        assert(s.drop_first() =~= s.subrange(1, s.len() as int));
        lemma_replace_introduces(s.drop_first(), pat, rep);
        let j = choose|j: int| occurs_at(replace_all(s.drop_first(), pat, rep), rep, j);
        lemma_occurs_after(seq![s[0]], replace_all(s.drop_first(), pat, rep), rep, j);
    }
}

/// A prefix `w` of `s` in which `pat` starts nowhere comes through a replacement unchanged.
proof fn lemma_replace_keeps_prefix(s: Seq<char>, w: Seq<char>, pat: Seq<char>, rep: Seq<char>)
    requires
        pat.len() > 0,
        w.len() <= s.len(),
        s.subrange(0, w.len() as int) == w,
        forall|j: int| 0 <= j < w.len() ==> !occurs_at(s, pat, j),
    ensures
        replace_all(s, pat, rep).len() >= w.len(),
        replace_all(s, pat, rep).subrange(0, w.len() as int) == w,
    decreases s.len(),
{
    let out = replace_all(s, pat, rep);
    let m = pat.len() as int;
    if w.len() == 0 {
        assert(out.subrange(0, 0) =~= w);
    } else if s.len() < m {
    } else {
        assert(!occurs_at(s, pat, 0));
        let rest = s.drop_first();
        assert(rest =~= s.subrange(1, s.len() as int));
        let w1 = w.drop_first();
        assert(rest.subrange(0, w1.len() as int) =~= w1) by {
            assert forall|k: int| 0 <= k < w1.len() implies rest.subrange(0, w1.len() as int)[k]
                == w1[k] by {
                assert(s.subrange(0, w.len() as int)[k + 1] == w[k + 1]);
            }
        }
        assert forall|j: int| 0 <= j < w1.len() implies !occurs_at(rest, pat, j) by {
            lemma_shift(s, pat, 1, j);
        }
        lemma_replace_keeps_prefix(rest, w1, pat, rep);
        let r1 = replace_all(rest, pat, rep);
        assert(out == seq![s[0]] + r1);
        assert(out.subrange(0, w.len() as int) =~= w) by {
            assert forall|k: int| 0 <= k < w.len() implies out.subrange(0, w.len() as int)[k]
                == w[k] by {
                if k == 0 {
                    assert(s.subrange(0, w.len() as int)[0] == w[0]);
                } else {
                    assert(r1.subrange(0, w1.len() as int)[k - 1] == w1[k - 1]);
                }
            }
        }
    }
}

/// A text `t` that cannot overlap `pat` survives the replacement of `pat`.
proof fn lemma_replace_keeps(s: Seq<char>, t: Seq<char>, pat: Seq<char>, rep: Seq<char>, i: int)
    requires
        pat.len() > 0,
        t.len() > 0,
        occurs_at(s, t, i),
        !t.contains(pat[0]),
        !pat.contains(t[0]),
    ensures
        contains_text(replace_all(s, pat, rep), t),
    decreases s.len(),
{
    let m = pat.len() as int;
    let out = replace_all(s, pat, rep);
    assert(s[i] == t[0]) by {
        assert(s.subrange(i, i + t.len())[0] == t[0]);
    }
    if s.len() < m {
        assert(occurs_at(out, t, i));
    } else if s.subrange(0, m) == pat {
        if i < m {
            assert(s.subrange(0, m)[i] == pat[i]);
            assert(pat.contains(t[0]));
        }
        let rest = s.subrange(m, s.len() as int);
        lemma_shift(s, t, m, i - m);
        lemma_replace_keeps(rest, t, pat, rep, i - m);
        let j = choose|j: int| occurs_at(replace_all(rest, pat, rep), t, j);
        lemma_occurs_after(rep, replace_all(rest, pat, rep), t, j);
    } else if i >= 1 {
        let rest = s.drop_first();
        assert(rest =~= s.subrange(1, s.len() as int));
        lemma_shift(s, t, 1, i - 1);
        lemma_replace_keeps(rest, t, pat, rep, i - 1);
        let j = choose|j: int| occurs_at(replace_all(rest, pat, rep), t, j);
        lemma_occurs_after(seq![s[0]], replace_all(rest, pat, rep), t, j);
    } else {
        assert forall|j: int| 0 <= j < t.len() implies !occurs_at(s, pat, j) by {
            if occurs_at(s, pat, j) {
                assert(s.subrange(j, j + m)[0] == pat[0]);
                assert(s.subrange(0, t.len() as int)[j] == t[j]);
            }
        }
        assert(s.subrange(0, t.len() as int) == t);
        lemma_replace_keeps_prefix(s, t, pat, rep);
        assert(occurs_at(out, t, 0));
    }
}

/// A replacement output that starts with `w`, where `w` lacks the first character of `rep`,
/// comes from a text that starts with `w`.
proof fn lemma_prefix_from_source(x: Seq<char>, w: Seq<char>, pat: Seq<char>, rep: Seq<char>)
    requires
        pat.len() > 0,
        rep.len() > 0,
        replace_all(x, pat, rep).len() >= w.len(),
        replace_all(x, pat, rep).subrange(0, w.len() as int) == w,
        !w.contains(rep[0]),
    ensures
        x.len() >= w.len(),
        x.subrange(0, w.len() as int) == w,
    decreases x.len(),
{
    let m = pat.len() as int;
    let out = replace_all(x, pat, rep);
    if w.len() == 0 {
        assert(x.subrange(0, 0) =~= w);
    } else if x.len() < m {
    } else if x.subrange(0, m) == pat {
        assert(out.subrange(0, w.len() as int)[0] == out[0]);
        assert(w[0] == rep[0]);
    } else {
        let rest = x.drop_first();
        let r1 = replace_all(rest, pat, rep);
        let w1 = w.drop_first();
        assert(out == seq![x[0]] + r1);
        assert(r1.subrange(0, w1.len() as int) =~= w1) by {
            assert forall|k: int| 0 <= k < w1.len() implies r1.subrange(0, w1.len() as int)[k]
                == w1[k] by {
                assert(out.subrange(0, w.len() as int)[k + 1] == w[k + 1]);
            }
        }
        assert(!w1.contains(rep[0])) by {
            if w1.contains(rep[0]) {
                let k = choose|k: int| 0 <= k < w1.len() && w1[k] == rep[0];
                assert(w[k + 1] == rep[0]);
            }
        }
        lemma_prefix_from_source(rest, w1, pat, rep);
        assert(x.subrange(0, w.len() as int) =~= w) by {
            assert forall|k: int| 0 <= k < w.len() implies x.subrange(0, w.len() as int)[k]
                == w[k] by {
                if k == 0 {
                    assert(out.subrange(0, w.len() as int)[0] == w[0]);
                } else {
                    assert(rest.subrange(0, w1.len() as int)[k - 1] == w1[k - 1]);
                }
            }
        }
    }
}

/// Replacing `pat` by `rep` creates no occurrence of `t` where `t` stood only where `pat` did,
/// `rep` holds no start of `t`, and `t` after its first character lacks `rep`'s first.
proof fn lemma_replace_creates_none(x: Seq<char>, t: Seq<char>, pat: Seq<char>, rep: Seq<char>)
    requires
        pat.len() > 0,
        t.len() >= 2,
        rep.len() > 0,
        forall|i: int| occurs_at(x, t, i) ==> occurs_at(x, pat, i),
        !t.drop_first().contains(rep[0]),
        forall|k: int| 0 <= k < rep.len() - 1 ==> !(#[trigger] rep[k] == t[0] && rep[k + 1] == t[1]),
        rep.last() != t[0],
    ensures
        !contains_text(replace_all(x, pat, rep), t),
    decreases x.len(),
{
    let m = pat.len() as int;
    let out = replace_all(x, pat, rep);
    if x.len() < m {
        if contains_text(out, t) {
            let i = choose|i: int| occurs_at(out, t, i);
            assert(occurs_at(x, pat, i));
        }
    } else if x.subrange(0, m) == pat {
        let rest = x.subrange(m, x.len() as int);
        assert forall|i: int| occurs_at(rest, t, i) implies occurs_at(rest, pat, i) by {
            lemma_shift(x, t, m, i);
            lemma_shift(x, pat, m, i);
        }
        lemma_replace_creates_none(rest, t, pat, rep);
        let r1 = replace_all(rest, pat, rep);
        assert(out == rep + r1);
        if contains_text(out, t) {
            let i = choose|i: int| occurs_at(out, t, i);
            assert(out.subrange(i, i + t.len())[0] == t[0]);
            assert(out.subrange(i, i + t.len())[1] == t[1]);
            if i < rep.len() {
                if i == rep.len() - 1 {
                    assert(out[i] == rep.last());
                } else {
                    assert(out[i] == rep[i] && out[i + 1] == rep[i + 1]);
                }
            } else {
                assert(r1.subrange(i - rep.len(), i - rep.len() + t.len()) =~= out.subrange(
                    i,
                    i + t.len(),
                ));
                assert(occurs_at(r1, t, i - rep.len()));
            }
        }
    } else {
        let rest = x.drop_first();
        assert(rest =~= x.subrange(1, x.len() as int));
        assert forall|i: int| occurs_at(rest, t, i) implies occurs_at(rest, pat, i) by {
            lemma_shift(x, t, 1, i);
            lemma_shift(x, pat, 1, i);
        }
        lemma_replace_creates_none(rest, t, pat, rep);
        let r1 = replace_all(rest, pat, rep);
        assert(out == seq![x[0]] + r1);
        if contains_text(out, t) {
            let i = choose|i: int| occurs_at(out, t, i);
            if i == 0 {
                let t1 = t.drop_first();
                assert(r1.subrange(0, t1.len() as int) =~= t1) by {
                    assert forall|k: int| 0 <= k < t1.len() implies r1.subrange(
                        0,
                        t1.len() as int,
                    )[k] == t1[k] by {
                        assert(out.subrange(0, t.len() as int)[k + 1] == t[k + 1]);
                    }
                }
                lemma_prefix_from_source(rest, t1, pat, rep);
                assert(x.subrange(0, t.len() as int) =~= t) by {
                    assert forall|k: int| 0 <= k < t.len() implies x.subrange(0, t.len() as int)[k]
                        == t[k] by {
                        if k == 0 {
                            assert(out.subrange(0, t.len() as int)[0] == t[0]);
                        } else {
                            assert(rest.subrange(0, t1.len() as int)[k - 1] == t1[k - 1]);
                        }
                    }
                }
                assert(occurs_at(x, t, 0));
                assert(occurs_at(x, pat, 0));
            } else {
                assert(r1.subrange(i - 1, i - 1 + t.len()) =~= out.subrange(i, i + t.len()));
                assert(occurs_at(r1, t, i - 1));
            }
        }
    }
}

/// Normalizing a text that holds "MS in Computer Science" gives one that holds "Masters in
/// Computer Science" and no longer holds the abbreviation.
pub proof fn lemma_normalize_expands_masters(s: Seq<char>)
    requires
        contains_text(s, ms_short()),
    ensures
        contains_text(normalized(s), ms_long()),
        !contains_text(normalized(s), ms_short()),
{
    reveal_strlit("MS in Computer Science");
    reveal_strlit("Masters in Computer Science");
    reveal_strlit("BS in Computer Science");
    reveal_strlit("Bachelors in Computer Science");
    let ms = ms_short();
    let ml = ms_long();
    let bs = bs_short();
    let bl = bs_long();
    assert(ms.len() == 22 && ml.len() == 27 && bs.len() == 22 && bl.len() == 29);
    assert(ms[0] == 'M' && ms[1] == 'S' && bs[0] == 'B' && ml[0] == 'M' && bl[0] == 'B');
    assert forall|k: int| 1 <= k < ml.len() implies ml[k] != 'M' by {}
    assert forall|k: int| 0 <= k < bl.len() implies bl[k] != 'M' by {}
    assert forall|k: int| 0 <= k < ml.len() implies ml[k] != 'B' by {}
    assert forall|k: int| 0 <= k < bs.len() implies bs[k] != 'M' by {}
    assert forall|k: int| 1 <= k < ms.len() implies ms[k] != 'M' && ms[k] != 'B' by {}
    assert(!ms.drop_first().contains('M'));
    assert(!ms.drop_first().contains('B'));
    assert(!ml.contains('B'));
    assert(!bs.contains('M'));
    let x = replace_all(s, ms, ml);
    lemma_replace_introduces(s, ms, ml);
    let j = choose|j: int| occurs_at(x, ml, j);
    lemma_replace_keeps(x, ml, bs, bl, j);
    lemma_replace_creates_none(s, ms, ms, ml);
    lemma_replace_creates_none(x, ms, bs, bl);
}

} // verus!
