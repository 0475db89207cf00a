//! Character-sequence helpers shared by the rest of the library: reading the
//! characters of a string, splitting and joining on a separator, and
//! replacing every occurrence of a pattern.

use vstd::prelude::*;

verus! {

broadcast use vstd::string::group_string_axioms;

/// Appends one character to a string.
///
/// Wraps `String::push`, which the standard library documents as appending
/// the given `char` to the end of the `String`.
#[verifier::external_body]
pub(crate) fn push_char(s: &mut String, c: char)
    ensures
        final(s)@ == old(s)@.push(c),
{
    s.push(c);
}

/// The characters of `s`, in order.
pub fn chars_of(s: &str) -> (v: Vec<char>)
    ensures
        v@ == s@,
{
    let mut out: Vec<char> = Vec::new();
    for c in it: s.chars()
        invariant
            out@ == it.seq().take(it.index() as int),
    {
        out.push(c);
    }
    assert(out@ =~= s@);
    out
}

/// A copy of `s` as an owned string.
pub fn owned(s: &str) -> (r: String)
    ensures
        r@ == s@,
{
    s.to_owned()
}

/// Appends `t` to `s`.
pub fn push_str(s: &mut String, t: &str)
    ensures
        final(s)@ == old(s)@ + t@,
{
    let cs = chars_of(t);
    let mut i: usize = 0;
    while i < cs.len()
        invariant
            i <= cs.len(),
            cs@ == t@,
            s@ == old(s)@ + t@.take(i as int),
        decreases cs.len() - i,
    {
        push_char(s, cs[i]);
        i = i + 1;
        assert(s@ =~= old(s)@ + t@.take(i as int));
    }
    assert(t@.take(cs.len() as int) =~= t@);
}

/// The views of a sequence of strings.
pub open spec fn views(v: Seq<String>) -> Seq<Seq<char>> {
    v.map_values(|x: String| x@)
}

/// The pieces of `s` between occurrences of `sep`, as `str::split` with a
/// character pattern yields them: empty pieces included, and a single empty
/// piece for the empty string.
pub open spec fn split_seq(s: Seq<char>, sep: char) -> Seq<Seq<char>>
    decreases s.len(),
{
    if s.len() == 0 {
        seq![Seq::<char>::empty()]
    } else {
        let init = split_seq(s.drop_last(), sep);
        if s.last() == sep {
            init.push(Seq::<char>::empty())
        } else {
            init.update(init.len() - 1, init.last().push(s.last()))
        }
    }
}

/// The pieces joined back together with `sep` between neighbours.
pub open spec fn join_seq(parts: Seq<Seq<char>>, sep: char) -> Seq<char>
    decreases parts.len(),
{
    if parts.len() == 0 {
        Seq::<char>::empty()
    } else if parts.len() == 1 {
        parts[0]
    } else {
        join_seq(parts.drop_last(), sep).push(sep) + parts.last()
    }
}

/// Splitting always yields at least one piece.
pub proof fn lemma_split_nonempty(s: Seq<char>, sep: char)
    ensures
        split_seq(s, sep).len() >= 1,
    decreases s.len(),
{
    if s.len() > 0 {
        lemma_split_nonempty(s.drop_last(), sep);
    }
}

/// Joining the pieces of a split with the same separator gives back the
/// original text, and no piece holds the separator.
pub proof fn lemma_split_join(s: Seq<char>, sep: char)
    ensures
        join_seq(split_seq(s, sep), sep) == s,
        forall|i: int|
            0 <= i < split_seq(s, sep).len() ==> !(#[trigger] split_seq(s, sep)[i]).contains(sep),
    decreases s.len(),
{
    if s.len() == 0 {
        assert(split_seq(s, sep)[0] =~= Seq::<char>::empty());
    } else {
        let t = s.drop_last();
        let p = split_seq(t, sep);
        lemma_split_join(t, sep);
        lemma_split_nonempty(t, sep);
        let q = split_seq(s, sep);
        if s.last() == sep {
            assert(q.drop_last() =~= p);
            assert(join_seq(q, sep) =~= s);
            assert forall|i: int| 0 <= i < q.len() implies !(#[trigger] q[i]).contains(sep) by {
                if i < p.len() {
                    assert(q[i] == p[i]);
                } else {
                    assert(q[i] =~= Seq::<char>::empty());
                }
            }
        } else {
            let n = p.len();
            if n == 1 {
                assert(q.len() == 1);
                assert(join_seq(p, sep) == p[0]);
                assert(join_seq(q, sep) == q[0]);
                assert(s =~= t.push(s.last()));
            } else {
                assert(q.drop_last() =~= p.drop_last());
                assert(join_seq(q, sep) =~= join_seq(p.drop_last(), sep).push(sep) + p.last().push(s.last()));
                assert(join_seq(p, sep) == join_seq(p.drop_last(), sep).push(sep) + p.last());
                assert(join_seq(p.drop_last(), sep).push(sep) + p.last().push(s.last())
                    =~= (join_seq(p.drop_last(), sep).push(sep) + p.last()).push(s.last()));
                assert(s =~= t.push(s.last()));
            }
            assert forall|i: int| 0 <= i < q.len() implies !(#[trigger] q[i]).contains(sep) by {
                if i < n - 1 {
                    assert(q[i] == p[i]);
                } else {
                    assert(q[i] == p[n - 1].push(s.last()));
                    assert(!p[n - 1].contains(sep));
                    if q[i].contains(sep) {
                        let k = choose|k: int| 0 <= k < q[i].len() && q[i][k] == sep;
                        if k < p[n - 1].len() {
                            assert(p[n - 1][k] == sep);
                        }
                    }
                }
            }
        }
    }
}

/// The pieces of `s` between occurrences of `sep` (see [`split_seq`]).
pub fn split_on(s: &str, sep: char) -> (r: Vec<String>)
    ensures
        views(r@) == split_seq(s@, sep),
{
    let cs = chars_of(s);
    let mut parts: Vec<String> = Vec::new();
    let mut cur = String::new();
    let mut i: usize = 0;
    assert(cs@.take(0) =~= Seq::<char>::empty());
    assert(views(parts@).push(cur@) =~= split_seq(cs@.take(0), sep));
    while i < cs.len()
        invariant
            i <= cs.len(),
            cs@ == s@,
            views(parts@).push(cur@) == split_seq(cs@.take(i as int), sep),
        decreases cs.len() - i,
    {
        let c = cs[i];
        let ghost before = cs@.take(i as int);
        assert(cs@.take(i + 1).drop_last() =~= before);
        assert(cs@.take(i + 1).last() == c);
        if c == sep {
            parts.push(cur);
            cur = String::new();
            assert(views(parts@).push(cur@) =~= split_seq(before, sep).push(Seq::<char>::empty()));
        } else {
            let ghost old_cur = cur@;
            push_char(&mut cur, c);
            let ghost p = split_seq(before, sep);
            assert(p.last() == old_cur);
            assert(views(parts@).push(cur@) =~= p.update(p.len() - 1, p.last().push(c)));
        }
        i = i + 1;
    }
    assert(cs@.take(cs.len() as int) =~= cs@);
    parts.push(cur);
    parts
}

/// `s` with every occurrence of the non-empty `pat` replaced by `rep`,
/// matches taken from the left and not overlapping, as `str::replace` does.
pub open spec fn replace_seq(s: Seq<char>, pat: Seq<char>, rep: Seq<char>) -> Seq<char>
    decreases s.len(),
{
    if pat.len() == 0 || s.len() < pat.len() {
        s
    } else if s.take(pat.len() as int) == pat {
        rep + replace_seq(s.skip(pat.len() as int), pat, rep)
    } else {
        seq![s[0]] + replace_seq(s.skip(1), pat, rep)
    }
}

/// Replacing a pattern that does not occur leaves the text unchanged.
pub proof fn lemma_replace_absent(s: Seq<char>, pat: Seq<char>, rep: Seq<char>)
    requires
        pat.len() > 0,
        forall|i: int| 0 <= i && i + pat.len() <= s.len() ==> #[trigger] s.subrange(i, i + pat.len()) != pat,
    ensures
        replace_seq(s, pat, rep) == s,
    decreases s.len(),
{
    if s.len() >= pat.len() {
        assert(s.take(pat.len() as int) =~= s.subrange(0, pat.len() as int));
        assert(s.subrange(0, 0 + pat.len() as int) != pat);
        let t = s.skip(1);
        assert forall|i: int| 0 <= i && i + pat.len() <= t.len() implies #[trigger] t.subrange(i, i + pat.len()) != pat by {
            assert(t.subrange(i, i + pat.len()) =~= s.subrange(i + 1, i + 1 + pat.len()));
        }
        lemma_replace_absent(t, pat, rep);
        assert(seq![s[0]] + t =~= s);
    }
}

/// Whether `pat` occurs in `s` starting at position `i`.
fn occurs_at(s: &Vec<char>, i: usize, pat: &Vec<char>) -> (r: bool)
    requires
        i <= s.len(),
    ensures
        r == (i + pat.len() <= s.len() && s@.subrange(i as int, i + pat.len()) == pat@),
{
    if pat.len() > s.len() - i {
        return false;
    }
    let mut k: usize = 0;
    while k < pat.len()
        invariant
            k <= pat.len(),
            i + pat.len() <= s.len(),
            forall|j: int| 0 <= j < k ==> s@[i + j] == pat@[j],
        decreases pat.len() - k,
    {
        if s[i + k] != pat[k] {
            assert(s@.subrange(i as int, i + pat.len())[k as int] != pat@[k as int]);
            return false;
        }
        k = k + 1;
    }
    assert(s@.subrange(i as int, i + pat.len()) =~= pat@);
    true
}

/// `s` with every occurrence of `pat` replaced by `rep` (see [`replace_seq`]).
pub fn replace_all(s: &str, pat: &str, rep: &str) -> (r: String)
    requires
        pat@.len() > 0,
    ensures
        r@ == replace_seq(s@, pat@, rep@),
{
    let cs = chars_of(s);
    let ps = chars_of(pat);
    let mut out = String::new();
    let mut i: usize = 0;
    assert(cs@.skip(0) =~= cs@);
    while i < cs.len()
        invariant
            i <= cs.len(),
            cs@ == s@,
            ps@ == pat@,
            pat@.len() > 0,
            out@ + replace_seq(cs@.skip(i as int), ps@, rep@) == replace_seq(s@, pat@, rep@),
        decreases cs.len() - i,
    {
        let ghost rest = cs@.skip(i as int);
        if occurs_at(&cs, i, &ps) {
            assert(rest.take(ps@.len() as int) =~= cs@.subrange(i as int, i + ps.len()));
            assert(rest.skip(ps@.len() as int) =~= cs@.skip(i + ps.len()));
            let ghost before = out@;
            push_str(&mut out, rep);
            assert(out@ + replace_seq(cs@.skip(i + ps.len()), ps@, rep@)
                =~= before + replace_seq(rest, ps@, rep@));
            i = i + ps.len();
        } else {
            assert(rest.skip(1) =~= cs@.skip(i + 1));
            proof {
                if rest.len() >= ps@.len() {
                    assert(rest.take(ps@.len() as int) =~= cs@.subrange(i as int, i + ps.len()));
                } else {
                    assert(replace_seq(rest.skip(1), ps@, rep@) == rest.skip(1));
                    assert(seq![rest[0]] + rest.skip(1) =~= rest);
                }
            }
            let ghost before = out@;
            push_char(&mut out, cs[i]);
            assert(out@ + replace_seq(cs@.skip(i + 1), ps@, rep@)
                =~= before + replace_seq(rest, ps@, rep@));
            i = i + 1;
        }
    }
    assert(cs@.skip(cs.len() as int) =~= Seq::<char>::empty());
    assert(out@ + Seq::<char>::empty() =~= out@);
    out
}

/// Whether two strings hold the same characters.
pub fn str_eq(a: &str, b: &str) -> (r: bool)
    ensures
        r == (a@ == b@),
{
    let xs = chars_of(a);
    let ys = chars_of(b);
    if xs.len() != ys.len() {
        return false;
    }
    let mut i: usize = 0;
    while i < xs.len()
        invariant
            i <= xs.len(),
            xs.len() == ys.len(),
            xs@ == a@,
            ys@ == b@,
            forall|j: int| 0 <= j < i ==> xs@[j] == ys@[j],
        decreases xs.len() - i,
    {
        if xs[i] != ys[i] {
            return false;
        }
        i = i + 1;
    }
    assert(xs@ =~= ys@);
    true
}

/// Whether `c` occurs in `s`.
pub fn contains_char(s: &str, c: char) -> (r: bool)
    ensures
        r == s@.contains(c),
{
    let xs = chars_of(s);
    let mut i: usize = 0;
    while i < xs.len()
        invariant
            i <= xs.len(),
            xs@ == s@,
            forall|j: int| 0 <= j < i ==> xs@[j] != c,
        decreases xs.len() - i,
    {
        if xs[i] == c {
            assert(s@[i as int] == c);
            return true;
        }
        i = i + 1;
    }
    false
}

/// `name` placed under the directory `dir`, as `format!("{}/{}", dir, name)`
/// writes it.
pub open spec fn under(dir: Seq<char>, name: Seq<char>) -> Seq<char> {
    dir.push('/') + name
}

/// `name` placed under the directory `dir` (see [`under`]).
pub fn path_under(dir: &str, name: &str) -> (r: String)
    ensures
        r@ == under(dir@, name@),
{
    let mut out = owned(dir);
    push_char(&mut out, '/');
    push_str(&mut out, name);
    out
}

/// The last piece of a split on `sep`, when `s` holds `sep`, is the text
/// after the last `sep`: it holds no `sep`, and `s` ends with `sep` followed
/// by it.
pub proof fn lemma_split_last_piece(s: Seq<char>, sep: char)
    requires
        s.contains(sep),
    ensures
        !split_seq(s, sep).last().contains(sep),
        split_seq(s, sep).last().len() < s.len(),
        s[s.len() - split_seq(s, sep).last().len() - 1] == sep,
        s.subrange(s.len() - split_seq(s, sep).last().len(), s.len() as int) == split_seq(s, sep).last(),
    decreases s.len(),
{
    let t = s.drop_last();
    let c = s.last();
    lemma_split_nonempty(t, sep);
    let init = split_seq(t, sep);
    if c == sep {
        assert(split_seq(s, sep).last() =~= Seq::<char>::empty());
        assert(s.subrange(s.len() as int, s.len() as int) =~= Seq::<char>::empty());
    } else {
        let k = choose|k: int| 0 <= k < s.len() && s[k] == sep;
        assert(k < s.len() - 1);
        assert(t[k] == sep);
        lemma_split_last_piece(t, sep);
        let e0 = init.last();
        let e = split_seq(s, sep).last();
        assert(e == e0.push(c));
        assert(t[t.len() - e0.len() - 1] == sep);
        assert(s[s.len() - e.len() - 1] == t[t.len() - e0.len() - 1]);
        assert(s.subrange(s.len() - e.len(), s.len() as int) =~= t.subrange(t.len() - e0.len(), t.len() as int).push(c));
        if e.contains(sep) {
            let j = choose|j: int| 0 <= j < e.len() && e[j] == sep;
            if j < e0.len() {
                assert(e0[j] == sep);
            }
        }
    }
}

/// Text without `sep` splits into one piece.
proof fn lemma_split_without_sep(s: Seq<char>, sep: char)
    requires
        !s.contains(sep),
    ensures
        split_seq(s, sep).len() == 1,
    decreases s.len(),
{
    if s.len() > 0 {
        let t = s.drop_last();
        assert(!t.contains(sep)) by {
            if t.contains(sep) {
                let j = choose|j: int| 0 <= j < t.len() && t[j] == sep;
                assert(s[j] == sep);
            }
        }
        assert(s[s.len() - 1] != sep);
        lemma_split_without_sep(t, sep);
    }
}

/// The first piece of a split on `sep` is the text before the first `sep`:
/// it holds no `sep`, `s` starts with it, and a `sep` follows it unless it
/// is all of `s`.
pub proof fn lemma_split_first_piece(s: Seq<char>, sep: char)
    ensures
        !split_seq(s, sep)[0].contains(sep),
        split_seq(s, sep)[0].len() <= s.len(),
        s.subrange(0, split_seq(s, sep)[0].len() as int) == split_seq(s, sep)[0],
        split_seq(s, sep)[0].len() < s.len() ==> s[split_seq(s, sep)[0].len() as int] == sep,
    decreases s.len(),
{
    lemma_split_nonempty(s, sep);
    if s.len() == 0 {
        assert(split_seq(s, sep)[0] =~= Seq::<char>::empty());
        assert(s.subrange(0, 0) =~= Seq::<char>::empty());
    } else {
        let t = s.drop_last();
        let c = s.last();
        lemma_split_nonempty(t, sep);
        lemma_split_first_piece(t, sep);
        let init = split_seq(t, sep);
        let f0 = init[0];
        assert(s.subrange(0, f0.len() as int) =~= t.subrange(0, f0.len() as int));
        if c == sep {
            assert(split_seq(s, sep)[0] == f0);
            if f0.len() < t.len() {
                assert(s[f0.len() as int] == t[f0.len() as int]);
            } else {
                assert(s[f0.len() as int] == c);
            }
        } else if init.len() == 1 {
            lemma_split_join(t, sep);
            assert(join_seq(init, sep) == f0);
            let f = split_seq(s, sep)[0];
            assert(f == f0.push(c));
            assert(f =~= s);
            assert(s.subrange(0, s.len() as int) =~= s);
            if f.contains(sep) {
                let j = choose|j: int| 0 <= j < f.len() && f[j] == sep;
                if j < f0.len() {
                    assert(f0[j] == sep);
                }
            }
        } else {
            assert(split_seq(s, sep)[0] == f0);
            if f0.len() == t.len() {
                assert(t.subrange(0, t.len() as int) =~= t);
                lemma_split_without_sep(t, sep);
            }
            assert(s[f0.len() as int] == t[f0.len() as int]);
        }
    }
}

} // verus!
