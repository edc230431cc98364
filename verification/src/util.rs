//! Small helpers shared by the other modules.

use vstd::prelude::*;

verus! {

/// Returns the characters of a string as a vector, so that pattern and path
/// text can be examined one character at a time.
pub fn chars_of(s: &str) -> (r: Vec<char>)
    ensures
        r@ == s@,
{
    let n: usize = s.unicode_len();
    let mut r: Vec<char> = Vec::new();
    let mut i: usize = 0;
    while i < n
        invariant
            n == s@.len(),
            i <= n,
            r@ == s@.take(i as int),
        decreases n - i,
    {
        r.push(s.get_char(i));
        i = i + 1;
        proof {
            assert(r@ =~= s@.take(i as int));
        }
    }
    proof {
        assert(r@ =~= s@);
    }
    r
}

} // verus!

verus! {

/// Index of the first occurrence of `c` in `s`, or `s.len()` if there is
/// none.
pub open spec fn first_idx(s: Seq<char>, c: char) -> int
    decreases s.len(),
{
    if s.len() == 0 {
        0
    } else if s.first() == c {
        0
    } else {
        1 + first_idx(s.drop_first(), c)
    }
}

pub proof fn lemma_first_idx(s: Seq<char>, c: char)
    ensures
        0 <= first_idx(s, c) <= s.len(),
        first_idx(s, c) < s.len() ==> s[first_idx(s, c)] == c,
        forall|j: int| 0 <= j < first_idx(s, c) ==> s[j] != c,
        (exists|j: int| 0 <= j < s.len() && s[j] == c) ==> first_idx(s, c) < s.len(),
    decreases s.len(),
{
    if s.len() == 0 {
    } else if s.first() == c {
    } else {
        lemma_first_idx(s.drop_first(), c);
        assert forall|j: int| 0 <= j < first_idx(s, c) implies s[j] != c by {
            if j > 0 {
                assert(s.drop_first()[j - 1] != c);
            }
        }
        if exists|j: int| 0 <= j < s.len() && s[j] == c {
            let j = choose|j: int| 0 <= j < s.len() && s[j] == c;
            assert(s.drop_first()[j - 1] == c);
        }
    }
}

/// Position of the first occurrence of `c` in `cs` at or after `from`,
/// or `cs.len()` if there is none there.
pub fn find_from(cs: &Vec<char>, from: usize, c: char) -> (k: usize)
    requires
        from <= cs@.len(),
    ensures
        from <= k <= cs@.len(),
        k - from == first_idx(cs@.skip(from as int), c),
{
    let n: usize = cs.len();
    let mut i: usize = from;
    while i < n
        invariant
            from <= i <= n,
            n == cs@.len(),
            forall|j: int| from <= j < i ==> cs@[j] != c,
        decreases n - i,
    {
        if cs[i] == c {
            proof {
                let t = cs@.skip(from as int);
                lemma_first_idx(t, c);
                let rel = i as int - from as int;
                assert(exists|j: int| 0 <= j < t.len() && t[j] == c) by {
                    assert(t[rel] == cs@[i as int]);
                    assert(0 <= rel < t.len() && t[rel] == c);
                }
                let f = first_idx(t, c);
                assert(t[f] == c);
                assert(t[f] == cs@[f + from]);
                assert(f == rel) by {
                    if f < rel {
                        assert(cs@[f + from] != c);
                    }
                    if f > rel {
                        assert(t[rel] != c);
                    }
                }
            }
            return i;
        }
        i = i + 1;
    }
    proof {
        let t = cs@.skip(from as int);
        lemma_first_idx(t, c);
        assert forall|j: int| 0 <= j < t.len() implies t[j] != c by {
            assert(t[j] == cs@[j + from]);
        }
        assert(first_idx(t, c) == t.len()) by {
            if first_idx(t, c) < t.len() {
                assert(t[first_idx(t, c)] == c);
            }
        }
    }
    n
}

} // verus!
