//! Compilation of shell-style glob patterns into verified path predicates.
//!
//! The accepted syntax: `*` matches any run of characters, `{a,b,c}` is an
//! alternation over its comma-separated parts (no nesting), every other
//! accepted character stands for itself (`.` included), and spaces are
//! stripped before compilation.  A compiled pattern is anchored at the end of
//! the candidate path and unanchored at the start: it accepts any path whose
//! tail satisfies the pattern.

use vstd::prelude::*;
use crate::util::chars_of;

verus! {

/// A character with no special meaning in a glob: it stands for itself.
/// Besides the four glob metacharacters, the characters that regular-
/// expression dialects treat specially are kept out of the accepted syntax.
pub open spec fn literal_char(c: char) -> bool {
    c != '*' && c != '{' && c != '}' && c != ','
        && c != '(' && c != ')' && c != '[' && c != ']'
        && c != '|' && c != '?' && c != '+' && c != '^'
        && c != '$' && c != '\\'
}

/// The pattern text with every space removed.
pub open spec fn without_spaces(s: Seq<char>) -> Seq<char>
    decreases s.len(),
{
    if s.len() == 0 {
        Seq::empty()
    } else if s.last() == ' ' {
        without_spaces(s.drop_last())
    } else {
        without_spaces(s.drop_last()).push(s.last())
    }
}

/// Well-formedness of the tail of a pattern, scanned left to right with
/// `in_brace` telling whether an alternation group is open: braces must be
/// balanced and unnested, commas may stand only inside braces, and every
/// ordinary character must be a `literal_char`.
pub open spec fn wf_from(p: Seq<char>, in_brace: bool) -> bool
    decreases p.len(),
{
    if p.len() == 0 {
        !in_brace
    } else {
        let c = p.first();
        if c == '{' {
            !in_brace && wf_from(p.drop_first(), true)
        } else if c == '}' {
            in_brace && wf_from(p.drop_first(), false)
        } else if c == ',' {
            in_brace && wf_from(p.drop_first(), true)
        } else if c == '*' {
            wf_from(p.drop_first(), in_brace)
        } else {
            literal_char(c) && wf_from(p.drop_first(), in_brace)
        }
    }
}

/// A well-formed glob pattern.
pub open spec fn wf_glob(p: Seq<char>) -> bool {
    wf_from(p, false)
}

/// Index of the first `}` in `p`, or `p.len()` if there is none.
pub open spec fn close_idx(p: Seq<char>) -> int
    decreases p.len(),
{
    if p.len() == 0 {
        0
    } else if p.first() == '}' {
        0
    } else {
        1 + close_idx(p.drop_first())
    }
}

/// Index of the first `,` in `p`, or `p.len()` if there is none.
pub open spec fn comma_idx(p: Seq<char>) -> int
    decreases p.len(),
{
    if p.len() == 0 {
        0
    } else if p.first() == ',' {
        0
    } else {
        1 + comma_idx(p.drop_first())
    }
}

pub proof fn lemma_close_idx(p: Seq<char>)
    ensures
        0 <= close_idx(p) <= p.len(),
        close_idx(p) < p.len() ==> p[close_idx(p)] == '}',
        forall|j: int| 0 <= j < close_idx(p) ==> p[j] != '}',
        (exists|j: int| 0 <= j < p.len() && p[j] == '}') ==> close_idx(p) < p.len(),
    decreases p.len(),
{
    if p.len() == 0 {
    } else if p.first() == '}' {
    } else {
        lemma_close_idx(p.drop_first());
        assert forall|j: int| 0 <= j < close_idx(p) implies p[j] != '}' by {
            if j > 0 {
                assert(p.drop_first()[j - 1] != '}');
            }
        }
        if exists|j: int| 0 <= j < p.len() && p[j] == '}' {
            let j = choose|j: int| 0 <= j < p.len() && p[j] == '}';
            assert(p.drop_first()[j - 1] == '}');
        }
    }
}

pub proof fn lemma_comma_idx(p: Seq<char>)
    ensures
        0 <= comma_idx(p) <= p.len(),
        comma_idx(p) < p.len() ==> p[comma_idx(p)] == ',',
        forall|j: int| 0 <= j < comma_idx(p) ==> p[j] != ',',
        (exists|j: int| 0 <= j < p.len() && p[j] == ',') ==> comma_idx(p) < p.len(),
    decreases p.len(),
{
    if p.len() == 0 {
    } else if p.first() == ',' {
    } else {
        lemma_comma_idx(p.drop_first());
        assert forall|j: int| 0 <= j < comma_idx(p) implies p[j] != ',' by {
            if j > 0 {
                assert(p.drop_first()[j - 1] != ',');
            }
        }
        if exists|j: int| 0 <= j < p.len() && p[j] == ',' {
            let j = choose|j: int| 0 <= j < p.len() && p[j] == ',';
            assert(p.drop_first()[j - 1] == ',');
        }
    }
}

/// Whether the pattern `p`, taken as a whole (anchored at both ends),
/// matches the text `s`.  `*` matches any run of characters; an alternation
/// group matches when one of its parts, followed by the remainder of the
/// pattern, does; any other character matches itself.  A `{` with no closing
/// `}` matches nothing.
pub open spec fn body_matches(p: Seq<char>, s: Seq<char>) -> bool
    decreases p.len(), 1int, s.len(),
{
    if p.len() == 0 {
        s.len() == 0
    } else if p.first() == '*' {
        body_matches(p.drop_first(), s) || (s.len() > 0 && body_matches(p, s.drop_first()))
    } else if p.first() == '{' {
        let q = p.drop_first();
        let c = close_idx(q);
        if 0 <= c < q.len() {
            alt_matches(q.take(c), q.skip(c + 1), s)
        } else {
            false
        }
    } else {
        s.len() > 0 && s.first() == p.first() && body_matches(p.drop_first(), s.drop_first())
    }
}

/// Whether one of the comma-separated alternatives of `inner`, followed by
/// `rest`, matches `s`.
pub open spec fn alt_matches(inner: Seq<char>, rest: Seq<char>, s: Seq<char>) -> bool
    decreases inner.len() + rest.len(), 2int, s.len(),
{
    let k = comma_idx(inner);
    if 0 <= k <= inner.len() {
        body_matches(inner.take(k) + rest, s)
            || (k < inner.len() && alt_matches(inner.skip(k + 1), rest, s))
    } else {
        false
    }
}

/// Whether the glob `glob` (already stripped of spaces) matches the path
/// `path`: some tail of the path must satisfy the pattern, which the leading
/// `*` expresses.
pub open spec fn glob_matches(glob: Seq<char>, path: Seq<char>) -> bool {
    body_matches(seq!['*'] + glob, path)
}

} // verus!

verus! {

/// Position of the first `}` in `p`, or `p.len()` if there is none.
fn close_pos(p: &[char]) -> (r: usize)
    ensures
        r == close_idx(p@),
{
    proof {
        lemma_close_idx(p@);
    }
    let n: usize = p.len();
    let mut i: usize = 0;
    while i < n
        invariant
            n == p@.len(),
            i <= n,
            forall|j: int| 0 <= j < i ==> p@[j] != '}',
        decreases n - i,
    {
        if p[i] == '}' {
            proof {
                lemma_close_idx(p@);
                assert(exists|j: int| 0 <= j < p@.len() && p@[j] == '}') by {
                    assert(0 <= i < p@.len() && p@[i as int] == '}');
                }
            }
            return i;
        }
        i = i + 1;
    }
    n
}

/// Position of the first `,` in `p`, or `p.len()` if there is none.
fn comma_pos(p: &[char]) -> (r: usize)
    ensures
        r == comma_idx(p@),
{
    proof {
        lemma_comma_idx(p@);
    }
    let n: usize = p.len();
    let mut i: usize = 0;
    while i < n
        invariant
            n == p@.len(),
            i <= n,
            forall|j: int| 0 <= j < i ==> p@[j] != ',',
        decreases n - i,
    {
        if p[i] == ',' {
            proof {
                lemma_comma_idx(p@);
                assert(exists|j: int| 0 <= j < p@.len() && p@[j] == ',') by {
                    assert(0 <= i < p@.len() && p@[i as int] == ',');
                }
            }
            return i;
        }
        i = i + 1;
    }
    n
}

/// Decides `body_matches` on character slices.
fn body_match(p: &[char], s: &[char]) -> (r: bool)
    ensures
        r == body_matches(p@, s@),
    decreases p@.len(), 1int, s@.len(),
{
    let np: usize = p.len();
    let ns: usize = s.len();
    if np == 0 {
        ns == 0
    } else if p[0] == '*' {
        proof {
            assert(p@.subrange(1, np as int) =~= p@.drop_first());
        }
        if body_match(&p[1..np], s) {
            true
        } else if ns > 0 {
            proof {
                assert(s@.subrange(1, ns as int) =~= s@.drop_first());
            }
            body_match(p, &s[1..ns])
        } else {
            false
        }
    } else if p[0] == '{' {
        let q = &p[1..np];
        proof {
            assert(q@ =~= p@.drop_first());
            lemma_close_idx(q@);
        }
        let c = close_pos(q);
        if c < q.len() {
            let inner = &q[0..c];
            let rest = &q[c + 1..q.len()];
            proof {
                assert(inner@ =~= q@.take(c as int));
                assert(rest@ =~= q@.skip(c as int + 1));
            }
            alt_match(inner, rest, s)
        } else {
            false
        }
    } else {
        if ns > 0 && s[0] == p[0] {
            proof {
                assert(p@.subrange(1, np as int) =~= p@.drop_first());
                assert(s@.subrange(1, ns as int) =~= s@.drop_first());
            }
            body_match(&p[1..np], &s[1..ns])
        } else {
            false
        }
    }
}

/// Decides `alt_matches` on character slices.
fn alt_match(inner: &[char], rest: &[char], s: &[char]) -> (r: bool)
    ensures
        r == alt_matches(inner@, rest@, s@),
    decreases inner@.len() + rest@.len(), 2int, s@.len(),
{
    proof {
        lemma_comma_idx(inner@);
    }
    let k = comma_pos(inner);
    let mut v: Vec<char> = Vec::new();
    let mut i: usize = 0;
    while i < k
        invariant
            k <= inner@.len(),
            i <= k,
            v@ == inner@.take(k as int).take(i as int),
        decreases k - i,
    {
        v.push(inner[i]);
        i = i + 1;
        proof {
            assert(v@ =~= inner@.take(k as int).take(i as int));
        }
    }
    let nr: usize = rest.len();
    let mut j: usize = 0;
    while j < nr
        invariant
            k <= inner@.len(),
            nr == rest@.len(),
            j <= nr,
            v@ == inner@.take(k as int) + rest@.take(j as int),
        decreases nr - j,
    {
        v.push(rest[j]);
        j = j + 1;
        proof {
            assert(v@ =~= inner@.take(k as int) + rest@.take(j as int));
        }
    }
    proof {
        assert(v@ =~= inner@.take(k as int) + rest@);
    }
    if body_match(v.as_slice(), s) {
        true
    } else if k < inner.len() {
        let tail = &inner[k + 1..inner.len()];
        proof {
            assert(tail@ =~= inner@.skip(k as int + 1));
        }
        alt_match(tail, rest, s)
    } else {
        false
    }
}

} // verus!

verus! {

/// Removes every space from a character vector, as `without_spaces` says.
fn strip_spaces(cs: &Vec<char>) -> (r: Vec<char>)
    ensures
        r@ == without_spaces(cs@),
{
    let n: usize = cs.len();
    let mut r: Vec<char> = Vec::new();
    let mut i: usize = 0;
    while i < n
        invariant
            n == cs@.len(),
            i <= n,
            r@ == without_spaces(cs@.take(i as int)),
        decreases n - i,
    {
        proof {
            assert(cs@.take(i as int + 1).drop_last() =~= cs@.take(i as int));
            assert(cs@.take(i as int + 1).last() == cs@[i as int]);
        }
        if cs[i] != ' ' {
            r.push(cs[i]);
        }
        i = i + 1;
    }
    proof {
        assert(cs@.take(n as int) =~= cs@);
    }
    r
}

/// Decides `wf_glob` by a single left-to-right scan.
fn wf_check(cs: &Vec<char>) -> (r: bool)
    ensures
        r == wf_glob(cs@),
{
    let n: usize = cs.len();
    let mut in_brace = false;
    let mut i: usize = 0;
    proof {
        assert(cs@.skip(0) =~= cs@);
    }
    while i < n
        invariant
            n == cs@.len(),
            i <= n,
            wf_glob(cs@) == wf_from(cs@.skip(i as int), in_brace),
        decreases n - i,
    {
        let ghost pre = cs@.skip(i as int);
        proof {
            assert(pre.len() > 0);
            assert(pre.first() == cs@[i as int]);
            assert(pre.drop_first() =~= cs@.skip(i as int + 1));
        }
        let c = cs[i];
        if c == '{' {
            if in_brace {
                return false;
            }
            in_brace = true;
        } else if c == '}' {
            if !in_brace {
                return false;
            }
            in_brace = false;
        } else if c == ',' {
            if !in_brace {
                return false;
            }
        } else if c == '*' {
        } else {
            let lit = c != '(' && c != ')' && c != '[' && c != ']' && c != '|' && c != '?'
                && c != '+' && c != '^' && c != '$' && c != '\\';
            if !lit {
                return false;
            }
        }
        i = i + 1;
    }
    proof {
        assert(cs@.skip(n as int) =~= Seq::<char>::empty());
    }
    !in_brace
}

/// A compiled glob pattern: the space-stripped, well-formed pattern text.
pub struct Pattern {
    chars: Vec<char>,
}

impl Pattern {
    /// The pattern text this predicate was compiled from, spaces removed.
    pub closed spec fn glob(&self) -> Seq<char> {
        self.chars@
    }

    pub open spec fn wf(&self) -> bool {
        wf_glob(self.glob())
    }

    /// Compiles a glob string into a matching predicate.  Spaces are
    /// stripped first; compilation succeeds exactly when what remains is a
    /// well-formed glob, and the compiled predicate is determined by the
    /// stripped text alone.
    pub fn compile(pat: &str) -> (r: Option<Pattern>)
        ensures
            (r is Some) <==> wf_glob(without_spaces(pat@)),
            r is Some ==> r->0.glob() == without_spaces(pat@) && r->0.wf(),
    {
        let cs = chars_of(pat);
        let stripped = strip_spaces(&cs);
        if wf_check(&stripped) {
            Some(Pattern { chars: stripped })
        } else {
            None
        }
    }

    /// Whether the compiled pattern matches a candidate path.
    pub fn matches(&self, path: &str) -> (r: bool)
        ensures
            r == glob_matches(self.glob(), path@),
    {
        let pcs = chars_of(path);
        let mut full: Vec<char> = Vec::new();
        full.push('*');
        let n: usize = self.chars.len();
        let mut i: usize = 0;
        while i < n
            invariant
                n == self.chars@.len(),
                i <= n,
                full@ == seq!['*'] + self.chars@.take(i as int),
            decreases n - i,
        {
            full.push(self.chars[i]);
            i = i + 1;
            proof {
                assert(full@ =~= seq!['*'] + self.chars@.take(i as int));
            }
        }
        proof {
            assert(full@ =~= seq!['*'] + self.chars@);
        }
        body_match(full.as_slice(), pcs.as_slice())
    }
}

} // verus!

verus! {

/// A pattern with no `*` and no `{` matches exactly itself.
pub proof fn lemma_literal_matches_itself(p: Seq<char>, s: Seq<char>)
    requires
        forall|i: int| 0 <= i < p.len() ==> p[i] != '*' && p[i] != '{',
    ensures
        body_matches(p, s) <==> p == s,
    decreases p.len(),
{
    if p.len() == 0 {
        if s.len() == 0 {
            assert(p =~= s);
        }
    } else if s.len() == 0 {
        assert(p[0] != '*' && p[0] != '{');
        assert(p.first() == p[0]);
        assert(!body_matches(p, s));
    } else {
        assert(p[0] != '*' && p[0] != '{');
        assert(p.first() == p[0]);
        assert forall|i: int| 0 <= i < p.drop_first().len() implies p.drop_first()[i] != '*'
            && p.drop_first()[i] != '{' by {
            assert(p.drop_first()[i] == p[i + 1]);
        }
        lemma_literal_matches_itself(p.drop_first(), s.drop_first());
        if body_matches(p, s) {
            assert(p.drop_first() == s.drop_first());
            assert forall|i: int| 0 <= i < p.len() implies p[i] == s[i] by {
                if i > 0 {
                    assert(p.drop_first()[i - 1] == s.drop_first()[i - 1]);
                }
            }
            assert(p =~= s);
        }
        if p == s {
            assert(p.drop_first() =~= s.drop_first());
        }
    }
}

/// A pattern that begins with `*` matches `s` exactly when its remainder
/// matches some tail of `s`: the star is the unanchored start.
pub proof fn lemma_star_matches_some_tail(p: Seq<char>, s: Seq<char>)
    ensures
        body_matches(seq!['*'] + p, s) <==> (exists|k: int|
            0 <= k <= s.len() && body_matches(p, #[trigger] s.skip(k))),
    decreases s.len(),
{
    let q = seq!['*'] + p;
    assert(q.first() == '*');
    assert(q.drop_first() =~= p);
    if s.len() == 0 {
        assert(s.skip(0) =~= s);
        if body_matches(q, s) {
            assert(body_matches(p, s.skip(0)));
        }
        if exists|k: int| 0 <= k <= s.len() && body_matches(p, #[trigger] s.skip(k)) {
            let k = choose|k: int| 0 <= k <= s.len() && body_matches(p, #[trigger] s.skip(k));
            assert(s.skip(k) =~= s);
        }
    } else {
        lemma_star_matches_some_tail(p, s.drop_first());
        assert forall|k: int| 0 <= k <= s.drop_first().len() implies s.drop_first().skip(k)
            =~= s.skip(k + 1) by {}
        if body_matches(q, s) {
            if body_matches(p, s) {
                assert(s.skip(0) =~= s);
                assert(body_matches(p, s.skip(0)));
            } else {
                let k = choose|k: int|
                    0 <= k <= s.drop_first().len() && body_matches(
                        p,
                        #[trigger] s.drop_first().skip(k),
                    );
                assert(body_matches(p, s.skip(k + 1)));
            }
        }
        if exists|k: int| 0 <= k <= s.len() && body_matches(p, #[trigger] s.skip(k)) {
            let k = choose|k: int| 0 <= k <= s.len() && body_matches(p, #[trigger] s.skip(k));
            if k == 0 {
                assert(s.skip(0) =~= s);
                assert(body_matches(q, s));
            } else {
                assert(s.drop_first().skip(k - 1) =~= s.skip(k));
                assert(body_matches(p, s.drop_first().skip(k - 1)));
                assert(body_matches(q, s.drop_first()));
            }
        }
    }
}

/// Suffix semantics of star-plus-literal globs: a glob of the form `*X`,
/// with `X` free of `*` and `{`, matches exactly the paths that end in `X`.
pub proof fn lemma_star_literal_is_suffix(lit: Seq<char>, path: Seq<char>)
    requires
        forall|i: int| 0 <= i < lit.len() ==> lit[i] != '*' && lit[i] != '{',
    ensures
        glob_matches(seq!['*'] + lit, path) <==> (lit.len() <= path.len() && path.skip(
            path.len() - lit.len(),
        ) == lit),
{
    let g = seq!['*'] + lit;
    let full = seq!['*'] + g;
    assert(full.first() == '*');
    assert(full.drop_first() =~= g);
    lemma_star_matches_some_tail(g, path);
    assert forall|k: int| 0 <= k <= path.len() implies (body_matches(g, #[trigger] path.skip(k))
        <==> (exists|m: int|
        k <= m <= path.len() && body_matches(lit, #[trigger] path.skip(m)))) by {
        lemma_star_matches_some_tail(lit, path.skip(k));
        if body_matches(g, path.skip(k)) {
            let j = choose|j: int|
                0 <= j <= path.skip(k).len() && body_matches(lit, #[trigger] path.skip(k).skip(j));
            assert(path.skip(k).skip(j) =~= path.skip(k + j));
            assert(body_matches(lit, path.skip(k + j)));
        }
        if exists|m: int| k <= m <= path.len() && body_matches(lit, #[trigger] path.skip(m)) {
            let m = choose|m: int|
                k <= m <= path.len() && body_matches(lit, #[trigger] path.skip(m));
            assert(path.skip(k).skip(m - k) =~= path.skip(m));
            assert(body_matches(lit, path.skip(k).skip(m - k)));
        }
    }
    assert forall|m: int| 0 <= m <= path.len() implies (body_matches(lit, #[trigger] path.skip(m))
        <==> path.skip(m) == lit) by {
        lemma_literal_matches_itself(lit, path.skip(m));
    }
    if glob_matches(g, path) {
        let k = choose|k: int| 0 <= k <= path.len() && body_matches(g, #[trigger] path.skip(k));
        let m = choose|m: int|
            k <= m <= path.len() && body_matches(lit, #[trigger] path.skip(m));
        assert(path.skip(m) == lit);
        assert(path.skip(m).len() == path.len() - m);
        assert(m == path.len() - lit.len());
    }
    if lit.len() <= path.len() && path.skip(path.len() - lit.len()) == lit {
        let m = path.len() - lit.len();
        assert(body_matches(lit, path.skip(m)));
        assert(path.skip(0) =~= path);
        assert(body_matches(g, path.skip(0)));
    }
}

} // verus!

verus! {

/// Brace alternation: a two-way group `{a,b}` followed by `rest` matches
/// exactly what `a` followed by `rest` or `b` followed by `rest` matches,
/// provided the alternatives hold no `}` and no `,` of their own.
pub proof fn lemma_brace_alternation(a: Seq<char>, b: Seq<char>, rest: Seq<char>, s: Seq<char>)
    requires
        forall|i: int| 0 <= i < a.len() ==> a[i] != '}' && a[i] != ',',
        forall|i: int| 0 <= i < b.len() ==> b[i] != '}' && b[i] != ',',
        forall|i: int| 0 <= i < rest.len() ==> rest[i] != '}',
    ensures
        body_matches(seq!['{'] + a + seq![','] + b + seq!['}'] + rest, s) <==> (body_matches(
            a + rest,
            s,
        ) || body_matches(b + rest, s)),
{
    let p = seq!['{'] + a + seq![','] + b + seq!['}'] + rest;
    let q = p.drop_first();
    let al = a.len() as int;
    let bl = b.len() as int;
    assert(p.first() == '{');
    assert(q =~= a + seq![','] + b + seq!['}'] + rest);
    // the first `}` of q closes the group
    let target = al + 1 + bl;
    assert(q[target] == '}');
    assert forall|j: int| 0 <= j < target implies q[j] != '}' by {
        if j < al {
            assert(q[j] == a[j]);
        } else if j == al {
            assert(q[j] == ',');
        } else {
            assert(q[j] == b[j - al - 1]);
        }
    }
    lemma_close_idx(q);
    let c = close_idx(q);
    assert(c < q.len()) by {
        assert(0 <= target < q.len() && q[target] == '}');
    }
    assert(c == target) by {
        if c < target {
            assert(q[c] == '}');
        }
        if c > target {
            assert(q[target] != '}');
        }
    }
    let inner = q.take(c);
    let tail = q.skip(c + 1);
    assert(inner =~= a + seq![','] + b);
    assert(tail =~= rest);
    // the first `,` of inner separates the alternatives
    assert(inner[al] == ',');
    assert forall|j: int| 0 <= j < al implies inner[j] != ',' by {
        assert(inner[j] == a[j]);
    }
    lemma_comma_idx(inner);
    let k = comma_idx(inner);
    assert(k == al) by {
        if k < al {
            assert(inner[k] == ',');
        }
        if k > al {
            assert(inner[al] != ',');
        }
        assert(0 <= al < inner.len() && inner[al] == ',');
    }
    assert(inner.take(k) =~= a);
    assert(inner.skip(k + 1) =~= b);
    // the second alternative is comma-free, so it is taken whole
    lemma_comma_idx(b);
    let kb = comma_idx(b);
    assert(kb == bl) by {
        if kb < bl {
            assert(b[kb] == ',');
        }
    }
    assert(b.take(kb) =~= b);
    assert(alt_matches(b, rest, s) == body_matches(b + rest, s)) by {
        assert(b.take(kb) + rest =~= b + rest);
    }
    assert(alt_matches(inner, rest, s) == (body_matches(a + rest, s) || alt_matches(
        b,
        rest,
        s,
    ))) by {
        assert(inner.take(k) + rest =~= a + rest);
    }
    assert(body_matches(p, s) == alt_matches(inner, tail, s));
}

} // verus!

verus! {

/// Whether a pattern argument is the wildcard-everything form, `*` or
/// `./*`: a traversal-mode selector that bypasses compilation, every
/// candidate being taken.
pub fn is_match_all(pat: &str) -> (r: bool)
    ensures
        r == (pat@ == "*"@ || pat@ == "./*"@),
{
    proof {
        reveal_strlit("*");
        reveal_strlit("./*");
    }
    let n: usize = pat.unicode_len();
    if n == 1 {
        let r = pat.get_char(0) == '*';
        proof {
            if r {
                assert(pat@ =~= "*"@);
            } else {
                if pat@ == "*"@ {
                    assert(pat@[0] == '*');
                }
            }
            assert(pat@ != "./*"@);
        }
        r
    } else if n == 3 {
        let r = pat.get_char(0) == '.' && pat.get_char(1) == '/' && pat.get_char(2) == '*';
        proof {
            if r {
                assert(pat@ =~= "./*"@);
            } else {
                if pat@ == "./*"@ {
                    assert(pat@[0] == '.' && pat@[1] == '/' && pat@[2] == '*');
                }
            }
            assert(pat@ != "*"@);
        }
        r
    } else {
        proof {
            assert(pat@ != "*"@ && pat@ != "./*"@);
        }
        false
    }
}

} // verus!

verus! {

/// A single star between two literal pieces: `A*B` matches exactly the
/// texts that begin with `A`, end with `B`, and are long enough to hold
/// both without overlap.
pub proof fn lemma_one_star_between_literals(a: Seq<char>, b: Seq<char>, s: Seq<char>)
    requires
        forall|i: int| 0 <= i < a.len() ==> a[i] != '*' && a[i] != '{',
        forall|i: int| 0 <= i < b.len() ==> b[i] != '*' && b[i] != '{',
    ensures
        body_matches(a + seq!['*'] + b, s) <==> (a.len() + b.len() <= s.len() && s.take(
            a.len() as int,
        ) == a && s.skip(s.len() - b.len()) == b),
    decreases a.len(),
{
    let p = a + seq!['*'] + b;
    if a.len() == 0 {
        assert(p =~= seq!['*'] + b);
        lemma_star_matches_some_tail(b, s);
        assert forall|k: int| 0 <= k <= s.len() implies (body_matches(b, #[trigger] s.skip(k))
            <==> s.skip(k) == b) by {
            lemma_literal_matches_itself(b, s.skip(k));
        }
        if body_matches(p, s) {
            let k = choose|k: int| 0 <= k <= s.len() && body_matches(b, #[trigger] s.skip(k));
            assert(s.skip(k) == b);
            assert(s.skip(k).len() == s.len() - k);
            assert(k == s.len() - b.len());
            assert(s.take(0) =~= a);
        }
        if a.len() + b.len() <= s.len() && s.take(a.len() as int) == a && s.skip(s.len() - b.len())
            == b {
            let k = s.len() - b.len();
            assert(0 <= k <= s.len() && body_matches(b, s.skip(k)));
        }
    } else {
        assert(p.first() == a.first());
        assert(a.first() != '*' && a.first() != '{') by {
            assert(a[0] != '*' && a[0] != '{');
        }
        assert(p.drop_first() =~= a.drop_first() + seq!['*'] + b);
        assert forall|i: int| 0 <= i < a.drop_first().len() implies a.drop_first()[i] != '*'
            && a.drop_first()[i] != '{' by {
            assert(a.drop_first()[i] == a[i + 1]);
        }
        if s.len() == 0 {
            assert(!body_matches(p, s));
            assert(a.len() + b.len() > 0);
        } else {
            lemma_one_star_between_literals(a.drop_first(), b, s.drop_first());
            let sd = s.drop_first();
            if body_matches(p, s) {
                assert(s.first() == a.first());
                assert(sd.take(a.len() as int - 1) == a.drop_first());
                assert forall|j: int| 0 <= j < a.len() implies s.take(a.len() as int)[j] == a[j]
                    by {
                    if j > 0 {
                        assert(sd.take(a.len() as int - 1)[j - 1] == a.drop_first()[j - 1]);
                        assert(sd[j - 1] == s[j]);
                    }
                }
                assert(s.take(a.len() as int) =~= a);
                assert(sd.skip(sd.len() - b.len()) =~= s.skip(s.len() - b.len()));
            }
            if a.len() + b.len() <= s.len() && s.take(a.len() as int) == a && s.skip(
                s.len() - b.len(),
            ) == b {
                assert(s[0] == s.take(a.len() as int)[0]);
                assert(s.first() == a.first());
                assert forall|j: int| 0 <= j < a.len() - 1 implies sd.take(a.len() as int - 1)[j]
                    == a.drop_first()[j] by {
                    assert(sd[j] == s[j + 1]);
                    assert(s[j + 1] == s.take(a.len() as int)[j + 1]);
                }
                assert(sd.take(a.len() as int - 1) =~= a.drop_first());
                assert(sd.skip(sd.len() - b.len()) =~= s.skip(s.len() - b.len()));
                assert(body_matches(a.drop_first() + seq!['*'] + b, sd));
            }
        }
    }
}

} // verus!
