use vstd::prelude::*;

verus! {

/// The sequence with every occurrence of `x` dropped, in order.
pub open spec fn remove_str(s: Seq<Seq<char>>, x: Seq<char>) -> Seq<Seq<char>>
    decreases s.len(),
{
    if s.len() == 0 {
        Seq::empty()
    } else if s[0] == x {
        remove_str(s.drop_first(), x)
    } else {
        seq![s[0]] + remove_str(s.drop_first(), x)
    }
}

/// One unfolding of `remove_str` along a scan of the suffixes of `s`.
pub proof fn lemma_remove_str_skip(s: Seq<Seq<char>>, x: Seq<char>, i: int)
    requires
        0 <= i < s.len(),
    ensures
        remove_str(s.skip(i), x) == if s[i] == x {
            remove_str(s.skip(i + 1), x)
        } else {
            seq![s[i]] + remove_str(s.skip(i + 1), x)
        },
{
    assert(s.skip(i)[0] == s[i]);
    assert(s.skip(i).drop_first() =~= s.skip(i + 1));
}

/// The ids that remain when one optionally excluded id is dropped; order and
/// multiplicity of the others are kept.
pub open spec fn excluding(ids: Seq<Seq<char>>, excl: Option<Seq<char>>) -> Seq<Seq<char>>
    decreases ids.len(),
{
    if ids.len() == 0 {
        Seq::empty()
    } else if excl == Some(ids[0]) {
        excluding(ids.drop_first(), excl)
    } else {
        seq![ids[0]] + excluding(ids.drop_first(), excl)
    }
}

/// One unfolding of `excluding` along a scan of the suffixes of `ids`.
pub proof fn lemma_excluding_skip(ids: Seq<Seq<char>>, excl: Option<Seq<char>>, i: int)
    requires
        0 <= i < ids.len(),
    ensures
        excluding(ids.skip(i), excl) == if excl == Some(ids[i]) {
            excluding(ids.skip(i + 1), excl)
        } else {
            seq![ids[i]] + excluding(ids.skip(i + 1), excl)
        },
{
    assert(ids.skip(i)[0] == ids[i]);
    assert(ids.skip(i).drop_first() =~= ids.skip(i + 1));
}

/// True when no two entries of `s` are equal.
pub open spec fn no_dup(s: Seq<Seq<char>>) -> bool {
    forall|i: int, j: int| 0 <= i < j < s.len() ==> s[i] != s[j]
}

/// Append an element unless it is already present.
pub open spec fn push_unique(s: Seq<Seq<char>>, x: Seq<char>) -> Seq<Seq<char>> {
    if s.contains(x) {
        s
    } else {
        s.push(x)
    }
}

/// A set-like append keeps the entries pairwise distinct.
pub proof fn lemma_push_unique_no_dup(s: Seq<Seq<char>>, x: Seq<char>)
    requires
        no_dup(s),
    ensures
        no_dup(push_unique(s, x)),
{
    if !s.contains(x) {
        let out = s.push(x);
        assert forall|i: int, j: int| 0 <= i < j < out.len() implies out[i] != out[j] by {
            if j == s.len() {
                if out[i] == x {
                    assert(s.contains(s[i]));
                }
            }
        }
    }
}

/// `remove_str` holds exactly the elements different from `x`, and keeps
/// pairwise-distinct entries pairwise distinct.
pub proof fn lemma_remove_str_props(s: Seq<Seq<char>>, x: Seq<char>)
    ensures
        remove_str(s, x).len() <= s.len(),
        forall|e: Seq<char>| #[trigger] remove_str(s, x).contains(e) <==> (s.contains(e) && e != x),
        no_dup(s) ==> no_dup(remove_str(s, x)),
    decreases s.len(),
{
    let out = remove_str(s, x);
    if s.len() == 0 {
        assert forall|e: Seq<char>| #[trigger] out.contains(e) <==> (s.contains(e) && e != x) by {
            if s.contains(e) {
                let i = choose|i: int| 0 <= i < s.len() && s[i] == e;
            }
        }
    } else {
        let rest = s.drop_first();
        lemma_remove_str_props(rest, x);
        let keeps0: bool = s[0] != x;
        let shift: int = if keeps0 {
            1
        } else {
            0
        };
        assert forall|e: Seq<char>| #[trigger] out.contains(e) implies (s.contains(e) && e != x) by {
            let i = choose|i: int| 0 <= i < out.len() && out[i] == e;
            if keeps0 && i == 0 {
                assert(s[0] == e);
            } else {
                assert(remove_str(rest, x)[i - shift] == e);
                assert(remove_str(rest, x).contains(e));
                let j = choose|j: int| 0 <= j < rest.len() && rest[j] == e;
                assert(s[j + 1] == e);
            }
        }
        assert forall|e: Seq<char>| s.contains(e) && e != x implies #[trigger] out.contains(e) by {
            let i = choose|i: int| 0 <= i < s.len() && s[i] == e;
            if i == 0 {
                assert(out[0] == e);
            } else {
                assert(rest[i - 1] == e);
                assert(rest.contains(e));
                assert(remove_str(rest, x).contains(e));
                let j = choose|j: int|
                    0 <= j < remove_str(rest, x).len() && remove_str(rest, x)[j] == e;
                assert(out[j + shift] == e);
            }
        }
        if no_dup(s) {
            assert(no_dup(rest)) by {
                assert(forall|i: int| 0 <= i < rest.len() ==> rest[i] == s[i + 1]);
            }
            assert forall|i: int, j: int| 0 <= i < j < out.len() implies out[i] != out[j] by {
                if keeps0 && i == 0 {
                    assert(out[0] == s[0]);
                    assert(remove_str(rest, x)[j - 1] == out[j]);
                    assert(remove_str(rest, x).contains(out[j]));
                    assert(rest.contains(out[j]));
                    let k = choose|k: int| 0 <= k < rest.len() && rest[k] == out[j];
                    assert(s[k + 1] == out[j]);
                    assert(s[0] != s[k + 1]);
                } else {
                    assert(out[i] == remove_str(rest, x)[i - shift]);
                    assert(out[j] == remove_str(rest, x)[j - shift]);
                }
            }
        }
    }
}

/// `excluding` holds exactly the ids different from the excluded one, and
/// keeps pairwise-distinct entries pairwise distinct: over a duplicate-free
/// channel, each recipient is listed once.
pub proof fn lemma_excluding_props(ids: Seq<Seq<char>>, excl: Option<Seq<char>>)
    ensures
        forall|e: Seq<char>| #[trigger]
            excluding(ids, excl).contains(e) <==> (ids.contains(e) && excl != Some(e)),
        no_dup(ids) ==> no_dup(excluding(ids, excl)),
    decreases ids.len(),
{
    let out = excluding(ids, excl);
    if ids.len() == 0 {
        assert forall|e: Seq<char>| #[trigger]
            out.contains(e) <==> (ids.contains(e) && excl != Some(e)) by {
            if ids.contains(e) {
                let i = choose|i: int| 0 <= i < ids.len() && ids[i] == e;
            }
        }
    } else {
        let rest = ids.drop_first();
        lemma_excluding_props(rest, excl);
        let keeps0: bool = excl != Some(ids[0]);
        let shift: int = if keeps0 {
            1
        } else {
            0
        };
        assert forall|e: Seq<char>| #[trigger]
            out.contains(e) implies (ids.contains(e) && excl != Some(e)) by {
            let i = choose|i: int| 0 <= i < out.len() && out[i] == e;
            if keeps0 && i == 0 {
                assert(ids[0] == e);
            } else {
                assert(excluding(rest, excl)[i - shift] == e);
                assert(excluding(rest, excl).contains(e));
                let j = choose|j: int| 0 <= j < rest.len() && rest[j] == e;
                assert(ids[j + 1] == e);
            }
        }
        assert forall|e: Seq<char>| ids.contains(e) && excl != Some(e) implies #[trigger]
            out.contains(e) by {
            let i = choose|i: int| 0 <= i < ids.len() && ids[i] == e;
            if i == 0 {
                assert(out[0] == e);
            } else {
                assert(rest[i - 1] == e);
                assert(rest.contains(e));
                assert(excluding(rest, excl).contains(e));
                let j = choose|j: int|
                    0 <= j < excluding(rest, excl).len() && excluding(rest, excl)[j] == e;
                assert(out[j + shift] == e);
            }
        }
        if no_dup(ids) {
            assert(no_dup(rest)) by {
                assert(forall|i: int| 0 <= i < rest.len() ==> rest[i] == ids[i + 1]);
            }
            assert forall|i: int, j: int| 0 <= i < j < out.len() implies out[i] != out[j] by {
                if keeps0 && i == 0 {
                    assert(out[0] == ids[0]);
                    assert(excluding(rest, excl)[j - 1] == out[j]);
                    assert(excluding(rest, excl).contains(out[j]));
                    assert(rest.contains(out[j]));
                    let k = choose|k: int| 0 <= k < rest.len() && rest[k] == out[j];
                    assert(ids[k + 1] == out[j]);
                    assert(ids[0] != ids[k + 1]);
                } else {
                    assert(out[i] == excluding(rest, excl)[i - shift]);
                    assert(out[j] == excluding(rest, excl)[j - shift]);
                }
            }
        }
    }
}

/// The views of a sequence of strings.
pub open spec fn views_of(s: Seq<String>) -> Seq<Seq<char>> {
    s.map_values(|x: String| x@)
}

/// Scan a string vector for one whose view equals the given string's.
pub(crate) fn contains_string(v: &Vec<String>, x: &String) -> (r: bool)
    ensures
        r == views_of(v@).contains(x@),
{
    let mut i: usize = 0;
    while i < v.len()
        invariant
            0 <= i <= v@.len(),
            forall|j: int| 0 <= j < i ==> v@[j]@ != x@,
        decreases v@.len() - i,
    {
        if v[i] == *x {
            proof {
                assert(views_of(v@)[i as int] == x@);
            }
            return true;
        }
        i = i + 1;
    }
    proof {
        if views_of(v@).contains(x@) {
            let j = choose|j: int| 0 <= j < views_of(v@).len() && views_of(v@)[j] == x@;
            assert(v@[j]@ == x@);
        }
    }
    false
}

pub open spec fn opt_view(o: Option<String>) -> Option<Seq<char>> {
    match o {
        Some(s) => Some(s@),
        None => None,
    }
}

} // verus!
