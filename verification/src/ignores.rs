//! Exclusion of paths from the traversal.
//!
//! Three interchangeable strategies stand behind one predicate: exclude
//! nothing; exclude everything inside a recorded list of directory names,
//! read from a listing that keeps only lines ending in `/`; or ask a rule
//! set built by the `ignore` crate from the lines of an ignore file.

use vstd::prelude::*;
use crate::util::{chars_of, find_from, first_idx, lemma_first_idx};

verus! {

/// `p` lies strictly inside the directory `d`: `d` is a proper prefix of
/// `p` ending at a path-separator boundary.
pub open spec fn within_dir(p: Seq<char>, d: Seq<char>) -> bool {
    p.len() > d.len() && p.take(d.len() as int) == d && p[d.len() as int] == '/'
}

/// `p` is the directory `d` itself or lies inside it.
pub open spec fn starts_in(p: Seq<char>, d: Seq<char>) -> bool {
    p == d || within_dir(p, d)
}

/// Decides `starts_in` on character data.
pub fn starts_in_exec(p: &Vec<char>, d: &Vec<char>) -> (r: bool)
    ensures
        r == starts_in(p@, d@),
{
    let np: usize = p.len();
    let nd: usize = d.len();
    if np < nd {
        return false;
    }
    let mut i: usize = 0;
    while i < nd
        invariant
            nd <= np,
            np == p@.len(),
            nd == d@.len(),
            i <= nd,
            forall|j: int| 0 <= j < i ==> p@[j] == d@[j],
        decreases nd - i,
    {
        if p[i] != d[i] {
            proof {
                assert(p@.take(nd as int)[i as int] != d@[i as int]);
                if p@ == d@ {
                    assert(p@[i as int] == d@[i as int]);
                }
            }
            return false;
        }
        i = i + 1;
    }
    proof {
        assert(p@.take(nd as int) =~= d@);
    }
    if np == nd {
        proof {
            assert(p@ =~= d@);
        }
        true
    } else {
        p[nd] == '/'
    }
}

/// One line of a listing, with a single trailing carriage return removed.
pub open spec fn strip_cr(l: Seq<char>) -> Seq<char> {
    if l.len() > 0 && l.last() == '\r' {
        l.drop_last()
    } else {
        l
    }
}

/// The lines of a text, split at `\n`, each without its trailing carriage
/// return; a final line ending is optional.
pub open spec fn split_lines(s: Seq<char>) -> Seq<Seq<char>>
    decreases s.len(),
{
    if s.len() == 0 {
        Seq::empty()
    } else {
        let k = first_idx(s, '\n');
        if 0 <= k < s.len() {
            seq![strip_cr(s.take(k))] + split_lines(s.skip(k + 1))
        } else {
            seq![strip_cr(s)]
        }
    }
}

/// A line that records an ignored directory: not a comment, and marked as a
/// directory by its trailing separator.
pub open spec fn keep_dir_line(l: Seq<char>) -> bool {
    l.len() > 0 && l.first() != '#' && l.last() == '/'
}

/// A line with every trailing separator removed.
pub open spec fn strip_slashes(l: Seq<char>) -> Seq<char>
    decreases l.len(),
{
    if l.len() > 0 && l.last() == '/' {
        strip_slashes(l.drop_last())
    } else {
        l
    }
}

/// The directory names recorded by a listing's lines, in order.
pub open spec fn dirs_of_lines(lines: Seq<Seq<char>>) -> Seq<Seq<char>>
    decreases lines.len(),
{
    if lines.len() == 0 {
        Seq::empty()
    } else {
        let rest = dirs_of_lines(lines.drop_last());
        if keep_dir_line(lines.last()) {
            rest.push(strip_slashes(lines.last()))
        } else {
            rest
        }
    }
}

/// The ignored directories of a listing text.
pub open spec fn ignored_dirs_of(text: Seq<char>) -> Seq<Seq<char>> {
    dirs_of_lines(split_lines(text))
}

proof fn lemma_dirs_of_lines_push(lines: Seq<Seq<char>>, l: Seq<char>)
    ensures
        dirs_of_lines(lines.push(l)) == if keep_dir_line(l) {
            dirs_of_lines(lines).push(strip_slashes(l))
        } else {
            dirs_of_lines(lines)
        },
{
    assert(lines.push(l).drop_last() =~= lines);
    assert(lines.push(l).last() == l);
}

/// Extracts from `line` the directory name it records, if it records one.
fn dir_of_line(line: &Vec<char>) -> (r: Option<Vec<char>>)
    ensures
        (r is Some) == keep_dir_line(line@),
        r is Some ==> r->0@ == strip_slashes(line@),
{
    let n: usize = line.len();
    if n == 0 || line[0] == '#' || line[n - 1] != '/' {
        return None;
    }
    let mut e: usize = n;
    proof {
        assert(line@.take(n as int) =~= line@);
    }
    while e > 0 && line[e - 1] == '/'
        invariant
            e <= n,
            n == line@.len(),
            strip_slashes(line@) == strip_slashes(line@.take(e as int)),
        decreases e,
    {
        proof {
            let t = line@.take(e as int);
            assert(t.last() == line@[e as int - 1]);
            assert(t.drop_last() =~= line@.take(e as int - 1));
        }
        e = e - 1;
    }
    proof {
        let t = line@.take(e as int);
        if e > 0 {
            assert(t.last() == line@[e as int - 1]);
        }
        assert(strip_slashes(t) == t);
    }
    let mut out: Vec<char> = Vec::new();
    let mut i: usize = 0;
    while i < e
        invariant
            e <= n,
            n == line@.len(),
            i <= e,
            out@ == line@.take(e as int).take(i as int),
        decreases e - i,
    {
        out.push(line[i]);
        i = i + 1;
        proof {
            assert(out@ =~= line@.take(e as int).take(i as int));
        }
    }
    proof {
        assert(line@.take(e as int).take(e as int) =~= line@.take(e as int));
    }
    Some(out)
}

/// Parses a listing text into the directory names it records: one per line
/// that is not a comment and ends with `/`, with the trailing separators
/// removed.
pub fn parse_ignored_dirs(text: &str) -> (r: Vec<Vec<char>>)
    ensures
        r.deep_view() == ignored_dirs_of(text@),
{
    let cs = chars_of(text);
    let n: usize = cs.len();
    let mut out: Vec<Vec<char>> = Vec::new();
    let mut pos: usize = 0;
    let ghost mut done: Seq<Seq<char>> = Seq::empty();
    proof {
        assert(cs@.skip(0) =~= cs@);
        assert(split_lines(cs@) =~= done + split_lines(cs@.skip(0)));
        assert(out.deep_view() =~~= dirs_of_lines(done));
    }
    while pos < n
        invariant
            pos <= n,
            n == cs@.len(),
            split_lines(cs@) == done + split_lines(cs@.skip(pos as int)),
            out.deep_view() == dirs_of_lines(done),
        decreases n - pos,
    {
        let k = find_from(&cs, pos, '\n');
        let end = if k > pos && cs[k - 1] == '\r' {
            k - 1
        } else {
            k
        };
        let mut line: Vec<char> = Vec::new();
        let mut i: usize = pos;
        while i < end
            invariant
                pos <= i <= end,
                end <= n,
                n == cs@.len(),
                line@ == cs@.subrange(pos as int, i as int),
            decreases end - i,
        {
            line.push(cs[i]);
            i = i + 1;
            proof {
                assert(line@ =~= cs@.subrange(pos as int, i as int));
            }
        }
        proof {
            let t = cs@.skip(pos as int);
            let kk = k as int - pos as int;
            assert(t.len() > 0);
            if k < n {
                assert(t.take(kk) =~= cs@.subrange(pos as int, k as int));
                if k > pos && cs@[k as int - 1] == '\r' {
                    assert(t.take(kk).last() == cs@[k as int - 1]);
                    assert(t.take(kk).drop_last() =~= cs@.subrange(pos as int, k as int - 1));
                }
                assert(line@ == strip_cr(t.take(kk)));
                assert(t.skip(kk + 1) =~= cs@.skip(k as int + 1));
                assert(split_lines(t) == seq![line@] + split_lines(cs@.skip(k as int + 1)));
            } else {
                assert(t =~= cs@.subrange(pos as int, n as int));
                if k > pos && cs@[k as int - 1] == '\r' {
                    assert(t.last() == cs@[k as int - 1]);
                    assert(t.drop_last() =~= cs@.subrange(pos as int, n as int - 1));
                }
                assert(first_idx(t, '\n') == kk);
                assert(!(0 <= kk < t.len()));
                assert(line@ == strip_cr(t));
                assert(split_lines(t) == seq![line@]);
            }
        }
        match dir_of_line(&line) {
            Some(d) => {
                out.push(d);
            },
            None => {},
        }
        proof {
            lemma_dirs_of_lines_push(done, line@);
            done = done.push(line@);
            assert(out.deep_view() =~~= dirs_of_lines(done));
        }
        let next = if k < n {
            k + 1
        } else {
            n
        };
        proof {
            if k < n {
                assert((done.drop_last() + (seq![line@] + split_lines(cs@.skip(k as int + 1))))
                    =~= (done + split_lines(cs@.skip(next as int))));
            } else {
                assert(cs@.skip(n as int) =~= Seq::<char>::empty());
                assert((done.drop_last() + seq![line@]) =~= done);
                assert(done + split_lines(cs@.skip(n as int)) =~= done);
            }
        }
        pos = next;
    }
    proof {
        assert(cs@.skip(n as int) =~= Seq::<char>::empty());
        assert(split_lines(cs@) =~= done);
    }
    out
}

} // verus!

verus! {

/// The rule-set type of the `ignore` crate, opaque to this library: a built
/// collection of ignore-file rules, consulted through `gitignore_matched`.
#[verifier::external_type_specification]
#[verifier::external_body]
pub struct ExGitignore(ignore::gitignore::Gitignore);

/// The builder type of the `ignore` crate that accumulates ignore-file
/// lines before they are compiled into a rule set.
#[verifier::external_type_specification]
#[verifier::external_body]
pub struct ExGitignoreBuilder(ignore::gitignore::GitignoreBuilder);

/// The verdict of a built rule set on a path: whether the rules it was built
/// from ignore the path.  The result depends only on the rule set's value
/// and the arguments, so it bears a name.
pub uninterp spec fn gitignore_verdict(g: ignore::gitignore::Gitignore, path: Seq<char>, is_dir: bool) -> bool;

/// What a builder holds: the ignore-file lines handed to it, in order.
pub uninterp spec fn builder_lines(b: ignore::gitignore::GitignoreBuilder) -> Seq<Seq<char>>;

/// That a builder still carries the root and parse options that
/// `GitignoreBuilder::new(".")` fixes; every builder this module makes
/// does, since nothing here toggles them.
pub uninterp spec fn builder_is_standard(b: ignore::gitignore::GitignoreBuilder) -> bool;

/// Whether the `ignore` crate's glob parser accepts an ignore-file line,
/// under the parse options that `builder_is_standard` fixes: a function of
/// the line text alone.
pub uninterp spec fn line_ok(line: Seq<char>) -> bool;

/// Whether a rule set compiles from the given lines, under the fixed root
/// and options: a function of the lines alone.
pub uninterp spec fn rules_ok(lines: Seq<Seq<char>>) -> bool;

/// The verdict that the rule set compiled from the given lines gives on a
/// path: a function of the lines and the arguments alone.
pub uninterp spec fn rules_verdict(lines: Seq<Seq<char>>, path: Seq<char>, is_dir: bool) -> bool;

/// Relies on ignore::gitignore::GitignoreBuilder::new: a fresh builder,
/// rooted at the traversal root, holding no lines yet, with the parse
/// options the constructor fixes.
#[verifier::external_body]
fn builder_new() -> (r: ignore::gitignore::GitignoreBuilder)
    ensures
        builder_is_standard(r),
        builder_lines(r) == Seq::<Seq<char>>::empty(),
{
    ignore::gitignore::GitignoreBuilder::new(".")
}

/// Relies on ignore::gitignore::GitignoreBuilder::add_line: hands one
/// ignore-file line to the builder.  Acceptance depends on the line alone
/// (comments and blank lines are accepted and skipped); a refused line
/// leaves the builder unchanged, and the parse options are never touched.
#[verifier::external_body]
fn builder_add_line(b: &mut ignore::gitignore::GitignoreBuilder, line: &str) -> (ok: bool)
    requires
        builder_is_standard(*old(b)),
    ensures
        builder_is_standard(*final(b)),
        ok == line_ok(line@),
        ok ==> builder_lines(*final(b)) == builder_lines(*old(b)).push(line@),
        !ok ==> builder_lines(*final(b)) == builder_lines(*old(b)),
{
    b.add_line(None, line).is_ok()
}

/// Relies on ignore::gitignore::GitignoreBuilder::build: compiles the held
/// lines into a rule set.  Success, and every verdict of the built set,
/// are functions of those lines; a failure is handed back as `None`.
#[verifier::external_body]
fn builder_build(b: &ignore::gitignore::GitignoreBuilder) -> (r: Option<
    ignore::gitignore::Gitignore,
>)
    requires
        builder_is_standard(*b),
    ensures
        (r is Some) == rules_ok(builder_lines(*b)),
        r matches Some(g) ==> forall|p: Seq<char>, d: bool| #[trigger] gitignore_verdict(g, p, d)
            == rules_verdict(builder_lines(*b), p, d),
{
    b.build().ok()
}

/// Relies on ignore::gitignore::Gitignore::matched: asks the rule set
/// whether it ignores the path; `Match::Ignore` is the only ignoring
/// verdict, and equal arguments always give the equal answer that
/// `gitignore_verdict` names.
#[verifier::external_body]
fn gitignore_matched(g: &ignore::gitignore::Gitignore, path: &str, is_dir: bool) -> (r: bool)
    ensures
        r == gitignore_verdict(*g, path@, is_dir),
{
    match g.matched(std::path::Path::new(path), is_dir) {
        ignore::Match::Ignore(_) => true,
        ignore::Match::Whitelist(_) => false,
        ignore::Match::None => false,
    }
}

/// That every line of a listing is accepted by the glob parser.
pub open spec fn all_lines_ok(lines: Seq<Seq<char>>) -> bool {
    forall|i: int| 0 <= i < lines.len() ==> line_ok(#[trigger] lines[i])
}

/// One strategy for excluding paths, chosen once per run.
pub enum IgnoreSet {
    /// No ignore source was found: nothing is excluded.
    Nothing,
    /// A recorded list of directory names: everything inside one of them is
    /// excluded.
    Dirs { dirs: Vec<Vec<char>> },
    /// A rule set built from an ignore file's lines.
    Rules { rules: ignore::gitignore::Gitignore },
}

impl IgnoreSet {
    /// Whether this strategy excludes `path` (a file, or a directory when
    /// `is_dir` holds).
    pub open spec fn excluded_spec(self, path: Seq<char>, is_dir: bool) -> bool {
        match self {
            IgnoreSet::Nothing => false,
            IgnoreSet::Dirs { dirs } => exists|j: int|
                0 <= j < dirs@.len() && starts_in(path, dirs@[j]@),
            IgnoreSet::Rules { rules } => gitignore_verdict(rules, path, is_dir),
        }
    }

    /// Builds the strategy that excludes nothing.
    pub fn none() -> (r: IgnoreSet)
        ensures
            r is Nothing,
            forall|p: Seq<char>, d: bool| !r.excluded_spec(p, d),
    {
        IgnoreSet::Nothing
    }

    /// Builds the simplified strategy from a listing text: each line that is
    /// not a comment and ends with `/` records an ignored directory name.
    pub fn from_dir_listing(text: &str) -> (r: IgnoreSet)
        ensures
            r matches IgnoreSet::Dirs { dirs } && dirs.deep_view() == ignored_dirs_of(text@),
    {
        IgnoreSet::Dirs { dirs: parse_ignored_dirs(text) }
    }

    /// Builds the rule-set strategy from the lines of an ignore file: the
    /// rule set compiled from exactly those lines, whose verdicts
    /// `rules_verdict` names.  When a line or the compilation is refused by
    /// the `ignore` crate, the strategy degrades to excluding nothing, as
    /// the absence of an ignore source does.
    pub fn from_rule_lines(lines: &Vec<String>) -> (r: IgnoreSet)
        ensures
            r is Rules || r is Nothing,
            (r is Rules) == (all_lines_ok(lines.deep_view()) && rules_ok(lines.deep_view())),
            r matches IgnoreSet::Rules { rules } ==> forall|p: Seq<char>, d: bool|
                #[trigger] gitignore_verdict(rules, p, d) == rules_verdict(
                    lines.deep_view(),
                    p,
                    d,
                ),
    {
        let ghost lv = lines.deep_view();
        let mut b = builder_new();
        let n: usize = lines.len();
        let mut i: usize = 0;
        proof {
            assert(lv.len() == n);
            assert(lv.take(0) =~= Seq::<Seq<char>>::empty());
        }
        while i < n
            invariant
                i <= n,
                n == lines@.len(),
                lv == lines.deep_view(),
                lv.len() == n,
                builder_is_standard(b),
                builder_lines(b) == lv.take(i as int),
                forall|k: int| 0 <= k < i ==> line_ok(#[trigger] lv[k]),
            decreases n - i,
        {
            proof {
                assert(lv[i as int] == lines@[i as int]@);
            }
            if !builder_add_line(&mut b, lines[i].as_str()) {
                proof {
                    assert(!line_ok(lv[i as int]));
                    assert(!all_lines_ok(lv));
                }
                return IgnoreSet::Nothing;
            }
            i = i + 1;
            proof {
                assert(lv.take(i as int) =~= lv.take(i as int - 1).push(lv[i as int - 1]));
            }
        }
        proof {
            assert(lv.take(n as int) =~= lv);
            assert(all_lines_ok(lv));
        }
        match builder_build(&b) {
            Some(g) => IgnoreSet::Rules { rules: g },
            None => IgnoreSet::Nothing,
        }
    }

    /// Decides `excluded_spec` for a path.
    pub fn excluded(&self, path: &str, is_dir: bool) -> (r: bool)
        ensures
            r == self.excluded_spec(path@, is_dir),
    {
        match self {
            IgnoreSet::Nothing => false,
            IgnoreSet::Dirs { dirs } => in_some_dir(dirs, path),
            IgnoreSet::Rules { rules } => gitignore_matched(rules, path, is_dir),
        }
    }
}

/// Whether `path` is one of the recorded directories or lies inside one.
fn in_some_dir(dirs: &Vec<Vec<char>>, path: &str) -> (r: bool)
    ensures
        r == exists|j: int| 0 <= j < dirs@.len() && starts_in(path@, dirs@[j]@),
{
    let pcs = chars_of(path);
    let n: usize = dirs.len();
    let mut j: usize = 0;
    while j < n
        invariant
            j <= n,
            n == dirs@.len(),
            pcs@ == path@,
            forall|j2: int| 0 <= j2 < j ==> !starts_in(path@, dirs@[j2]@),
        decreases n - j,
    {
        if starts_in_exec(&pcs, &dirs[j]) {
            proof {
                assert(exists|j2: int| 0 <= j2 < dirs@.len() && starts_in(path@, dirs@[j2]@))
                    by {
                    assert(0 <= j < dirs@.len() && starts_in(path@, dirs@[j as int]@));
                }
            }
            return true;
        }
        j = j + 1;
    }
    false
}

} // verus!
