use vstd::prelude::*;

verus! {

/// Whether `c` is one of the separator characters `seps`.
pub open spec fn is_sep(c: char, seps: Seq<char>) -> bool {
    exists|i: int| 0 <= i < seps.len() && seps[i] == c
}

/// Index of the first separator in `s`, or -1 if there is none.
pub open spec fn first_sep(s: Seq<char>, seps: Seq<char>) -> int
    decreases s.len(),
{
    if s.len() == 0 {
        -1
    } else if is_sep(s[0], seps) {
        0
    } else {
        let r = first_sep(s.skip(1), seps);
        if r < 0 {
            -1
        } else {
            r + 1
        }
    }
}

/// `s` split at every separator.  Always yields at least one (possibly
/// empty) component; a separator between two separators yields an empty
/// component.
pub open spec fn split_components(s: Seq<char>, seps: Seq<char>) -> Seq<Seq<char>>
    decreases s.len(),
{
    let i = first_sep(s, seps);
    if i < 0 || i >= s.len() {
        seq![s]
    } else {
        seq![s.take(i)] + split_components(s.skip(i + 1), seps)
    }
}

/// The components of `cs` that are not empty, in order.
pub open spec fn nonempty(cs: Seq<Seq<char>>) -> Seq<Seq<char>>
    decreases cs.len(),
{
    if cs.len() == 0 {
        Seq::empty()
    } else if cs[0].len() == 0 {
        nonempty(cs.skip(1))
    } else {
        seq![cs[0]] + nonempty(cs.skip(1))
    }
}

pub proof fn lemma_first_sep_bounds(s: Seq<char>, seps: Seq<char>)
    ensures
        first_sep(s, seps) >= 0 ==> first_sep(s, seps) < s.len() && is_sep(
            s[first_sep(s, seps)],
            seps,
        ),
        first_sep(s, seps) >= 0 ==> forall|j: int|
            0 <= j < first_sep(s, seps) ==> !is_sep(s[j], seps),
        first_sep(s, seps) < 0 ==> forall|j: int| 0 <= j < s.len() ==> !is_sep(s[j], seps),
    decreases s.len(),
{
    if s.len() == 0 {
    } else if is_sep(s[0], seps) {
    } else {
        lemma_first_sep_bounds(s.skip(1), seps);
        let r = first_sep(s.skip(1), seps);
        if r >= 0 {
            assert(s.skip(1)[r] == s[r + 1]);
            assert forall|j: int| 0 <= j < r + 1 implies !is_sep(s[j], seps) by {
                if j > 0 {
                    assert(s[j] == s.skip(1)[j - 1]);
                }
            }
        } else {
            assert forall|j: int| 0 <= j < s.len() implies !is_sep(s[j], seps) by {
                if j > 0 {
                    assert(s[j] == s.skip(1)[j - 1]);
                }
            }
        }
    }
}

/// When `k` is the position of the first separator, the split is the part
/// before `k` followed by the split of the part after `k`.
pub proof fn lemma_first_sep_is(s: Seq<char>, seps: Seq<char>, k: int)
    requires
        0 <= k < s.len(),
        is_sep(s[k], seps),
        forall|j: int| 0 <= j < k ==> !is_sep(s[j], seps),
    ensures
        first_sep(s, seps) == k,
    decreases s.len(),
{
    if k == 0 {
    } else {
        assert(!is_sep(s[0], seps));
        assert(s.skip(1)[k - 1] == s[k]);
        assert(forall|j: int| 0 <= j < k - 1 ==> s.skip(1)[j] == s[j + 1]);
        lemma_first_sep_is(s.skip(1), seps, k - 1);
    }
}

/// A sequence without separators splits to itself alone.
pub proof fn lemma_split_no_sep(s: Seq<char>, seps: Seq<char>)
    requires
        forall|j: int| 0 <= j < s.len() ==> !is_sep(s[j], seps),
    ensures
        split_components(s, seps) =~= seq![s],
{
    lemma_first_sep_bounds(s, seps);
    if first_sep(s, seps) >= 0 {
        assert(is_sep(s[first_sep(s, seps)], seps));
        assert(false);
    }
}

/// `nonempty` distributes over concatenation.
pub proof fn lemma_nonempty_concat(a: Seq<Seq<char>>, b: Seq<Seq<char>>)
    ensures
        nonempty(a + b) =~= nonempty(a) + nonempty(b),
    decreases a.len(),
{
    if a.len() == 0 {
        assert(a + b =~= b);
    } else {
        assert((a + b).skip(1) =~= a.skip(1) + b);
        lemma_nonempty_concat(a.skip(1), b);
        if a[0].len() == 0 {
        } else {
            assert(seq![a[0]] + (nonempty(a.skip(1)) + nonempty(b)) =~= (seq![a[0]] + nonempty(
                a.skip(1),
            )) + nonempty(b));
        }
    }
}

/// `nonempty` of one more component appends that component when it is
/// not empty.
pub proof fn lemma_nonempty_push(cs: Seq<Seq<char>>, x: Seq<char>)
    ensures
        x.len() == 0 ==> nonempty(cs.push(x)) =~= nonempty(cs),
        x.len() > 0 ==> nonempty(cs.push(x)) =~= nonempty(cs).push(x),
{
    assert(cs.push(x) =~= cs + seq![x]);
    lemma_nonempty_concat(cs, seq![x]);
    assert(seq![x].skip(1) =~= Seq::<Seq<char>>::empty());
    assert(nonempty(Seq::<Seq<char>>::empty()) =~= Seq::<Seq<char>>::empty());
    if x.len() > 0 {
        assert(nonempty(seq![x]) =~= seq![x]);
        assert(nonempty(cs) + seq![x] =~= nonempty(cs).push(x));
    } else {
        assert(nonempty(seq![x]) =~= Seq::<Seq<char>>::empty());
        assert(nonempty(cs) + nonempty(seq![x]) =~= nonempty(cs));
    }
}

/// The number of separator characters in `s`.
pub open spec fn count_seps(s: Seq<char>, seps: Seq<char>) -> int
    decreases s.len(),
{
    if s.len() == 0 {
        0
    } else {
        (if is_sep(s[0], seps) {
            1int
        } else {
            0int
        }) + count_seps(s.skip(1), seps)
    }
}

/// Counting one more character adds one exactly when it is a separator.
pub proof fn lemma_count_push(s: Seq<char>, x: char, seps: Seq<char>)
    ensures
        count_seps(s.push(x), seps) == count_seps(s, seps) + (if is_sep(x, seps) {
            1int
        } else {
            0int
        }),
    decreases s.len(),
{
    if s.len() == 0 {
        assert(s.push(x)[0] == x);
        assert(s.push(x).skip(1) =~= Seq::<char>::empty());
        assert(count_seps(Seq::<char>::empty(), seps) == 0);
        assert(count_seps(s, seps) == 0);
        assert(count_seps(s.push(x), seps) == (if is_sep(x, seps) {
            1int
        } else {
            0int
        }) + count_seps(s.push(x).skip(1), seps));
    } else {
        assert(s.push(x).skip(1) =~= s.skip(1).push(x));
        assert(s.push(x)[0] == s[0]);
        lemma_count_push(s.skip(1), x, seps);
        assert(count_seps(s.push(x), seps) == (if is_sep(s[0], seps) {
            1int
        } else {
            0int
        }) + count_seps(s.skip(1).push(x), seps));
    }
}

/// A sequence without separators counts zero.
pub proof fn lemma_count_no_sep(s: Seq<char>, seps: Seq<char>)
    requires
        forall|j: int| 0 <= j < s.len() ==> !is_sep(s[j], seps),
    ensures
        count_seps(s, seps) == 0,
    decreases s.len(),
{
    if s.len() > 0 {
        assert(forall|j: int| 0 <= j < s.skip(1).len() ==> s.skip(1)[j] == s[j + 1]);
        lemma_count_no_sep(s.skip(1), seps);
    }
}

/// The separator count splits additively at any position.
pub proof fn lemma_count_additive(s: Seq<char>, i: int, seps: Seq<char>)
    requires
        0 <= i <= s.len(),
    ensures
        count_seps(s, seps) == count_seps(s.take(i), seps) + count_seps(s.skip(i), seps),
    decreases i,
{
    if i == 0 {
        assert(s.take(0) =~= Seq::<char>::empty());
        assert(s.skip(0) =~= s);
    } else {
        assert(s.skip(1).take(i - 1) =~= s.take(i).skip(1));
        assert(s.skip(1).skip(i - 1) =~= s.skip(i));
        lemma_count_additive(s.skip(1), i - 1, seps);
        assert(s.take(i)[0] == s[0]);
        assert(count_seps(s.take(i), seps) == (if is_sep(s[0], seps) {
            1int
        } else {
            0int
        }) + count_seps(s.take(i).skip(1), seps));
    }
}

/// Splitting yields one more component than there are separators.
pub proof fn lemma_split_len(s: Seq<char>, seps: Seq<char>)
    ensures
        split_components(s, seps).len() == count_seps(s, seps) + 1,
    decreases s.len(),
{
    lemma_first_sep_bounds(s, seps);
    let k = first_sep(s, seps);
    if k < 0 {
        lemma_count_no_sep(s, seps);
    } else {
        lemma_split_len(s.skip(k + 1), seps);
        lemma_count_additive(s, k, seps);
        lemma_count_no_sep(s.take(k), seps);
        assert(s.skip(k)[0] == s[k]);
        assert(s.skip(k).skip(1) =~= s.skip(k + 1));
        assert(count_seps(s.skip(k), seps) == 1 + count_seps(s.skip(k + 1), seps));
    }
}

/// No component of a split contains a separator.
pub proof fn lemma_split_parts_no_sep(s: Seq<char>, seps: Seq<char>)
    ensures
        forall|i: int, j: int|
            0 <= i < split_components(s, seps).len() && 0 <= j < split_components(s, seps)[i].len()
                ==> !is_sep(split_components(s, seps)[i][j], seps),
    decreases s.len(),
{
    lemma_first_sep_bounds(s, seps);
    let k = first_sep(s, seps);
    let parts = split_components(s, seps);
    if k < 0 {
        assert(parts[0] == s);
    } else {
        lemma_split_parts_no_sep(s.skip(k + 1), seps);
        let sub = split_components(s.skip(k + 1), seps);
        assert(parts[0] == s.take(k));
        assert(forall|j: int| 0 <= j < k ==> s.take(k)[j] == s[j]);
        assert(forall|i: int| 0 <= i < sub.len() ==> parts[i + 1] == sub[i]);
    }
}

/// Every element of `nonempty(cs)` is a non-empty element of `cs`.
pub proof fn lemma_nonempty_elements(cs: Seq<Seq<char>>)
    ensures
        forall|i: int|
            0 <= i < nonempty(cs).len() ==> nonempty(cs)[i].len() > 0 && cs.contains(
                nonempty(cs)[i],
            ),
    decreases cs.len(),
{
    if cs.len() > 0 {
        lemma_nonempty_elements(cs.skip(1));
        let sub = nonempty(cs.skip(1));
        assert(forall|i: int|
            0 <= i < sub.len() ==> sub[i].len() > 0 && cs.skip(1).contains(sub[i]));
        assert forall|x: Seq<char>| cs.skip(1).contains(x) implies cs.contains(x) by {
            let j = choose|j: int| 0 <= j < cs.skip(1).len() && cs.skip(1)[j] == x;
            assert(cs[j + 1] == x);
        }
        if cs[0].len() == 0 {
        } else {
            assert(nonempty(cs)[0] == cs[0]);
            assert(cs.contains(cs[0]));
            assert(forall|i: int| 1 <= i < nonempty(cs).len() ==> nonempty(cs)[i] == sub[i - 1]);
        }
    }
}

/// `nonempty` of a single component keeps or drops it by emptiness.
pub proof fn lemma_nonempty_singleton(x: Seq<char>)
    ensures
        x.len() == 0 ==> nonempty(seq![x]) =~= Seq::<Seq<char>>::empty(),
        x.len() > 0 ==> nonempty(seq![x]) =~= seq![x],
{
    assert(Seq::<Seq<char>>::empty().push(x) =~= seq![x]);
    lemma_nonempty_push(Seq::<Seq<char>>::empty(), x);
    assert(nonempty(Seq::<Seq<char>>::empty()) =~= Seq::<Seq<char>>::empty());
    if x.len() > 0 {
        assert(nonempty(Seq::<Seq<char>>::empty()).push(x) =~= seq![x]);
    }
}

/// Checks whether `c` is one of the characters in `seps`.
pub fn contains_char(seps: &[char], c: char) -> (r: bool)
    ensures
        r == is_sep(c, seps@),
{
    let n = seps.len();
    for i in 0..n
        invariant
            n == seps@.len(),
            forall|j: int| 0 <= j < i ==> seps@[j] != c,
    {
        if seps[i] == c {
            return true;
        }
    }
    false
}

/// Splits `s` at every occurrence of a character of `seps`.
pub fn split_str(s: &str, seps: &[char]) -> (r: Vec<String>)
    ensures
        r.deep_view() == split_components(s@, seps@),
{
    let n = s.unicode_len();
    let mut comps: Vec<String> = Vec::new();
    let mut start: usize = 0;
    proof {
        assert(s@.skip(0) =~= s@);
        assert(comps.deep_view() =~= Seq::<Seq<char>>::empty());
        assert(comps.deep_view() + split_components(s@, seps@) =~= split_components(s@, seps@));
    }
    for i in 0..n
        invariant
            n == s@.len(),
            start <= i <= n,
            forall|j: int| start <= j < i ==> !is_sep(s@[j], seps@),
            split_components(s@, seps@) =~= comps.deep_view() + split_components(
                s@.skip(start as int),
                seps@,
            ),
    {
        let c = s.get_char(i);
        if contains_char(seps, c) {
            let ghost old_comps = comps.deep_view();
            let part = s.substring_char(start, i).to_owned();
            comps.push(part);
            proof {
                let rest = s@.skip(start as int);
                assert(rest[i - start] == s@[i as int]);
                assert(forall|j: int| 0 <= j < i - start ==> rest[j] == s@[j + start]);
                lemma_first_sep_is(rest, seps@, i - start);
                assert(rest.take(i - start) =~= s@.subrange(start as int, i as int));
                assert(rest.skip(i - start + 1) =~= s@.skip(i + 1));
                assert(comps.deep_view() =~= old_comps.push(s@.subrange(start as int, i as int)));
                assert(comps.deep_view() + split_components(s@.skip(i + 1), seps@) =~= old_comps
                    + split_components(rest, seps@));
            }
            start = i + 1;
        }
    }
    let last = s.substring_char(start, n).to_owned();
    let ghost old_comps = comps.deep_view();
    comps.push(last);
    proof {
        let rest = s@.skip(start as int);
        assert(forall|j: int| 0 <= j < rest.len() ==> rest[j] == s@[j + start]);
        lemma_split_no_sep(rest, seps@);
        assert(rest =~= s@.subrange(start as int, n as int));
        assert(comps.deep_view() =~= old_comps.push(rest));
        assert(old_comps + split_components(rest, seps@) =~= comps.deep_view());
    }
    comps
}

} // verus!
