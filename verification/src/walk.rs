//! Traversal of a virtual directory tree.
//!
//! The walk starts at a root whose entries are given as a tree of plain
//! values, visits entries in their given order, consults the active
//! `IgnoreSet` on every entry, and prunes: an excluded entry is skipped, and
//! an excluded directory's whole subtree is never entered.  Only files are
//! yielded, as paths relative to the root joined with `/`.  With recursion
//! disabled only the root's direct entries are visited.

use vstd::prelude::*;
use crate::ignores::{IgnoreSet, within_dir};

verus! {

/// One entry of a virtual directory tree.
pub enum FsNode {
    File { name: String },
    Dir { name: String, children: Vec<FsNode> },
}

/// A valid entry name: nonempty and free of the path separator.
pub open spec fn wf_name(n: Seq<char>) -> bool {
    n.len() > 0 && forall|j: int| 0 <= j < n.len() ==> n[j] != '/'
}

/// Validity of one tree entry: its name is valid, and so is everything
/// below it.
pub open spec fn wf_node(node: FsNode) -> bool
    decreases node,
{
    match node {
        FsNode::File { name } => wf_name(name@),
        FsNode::Dir { name, children } => wf_name(name@) && wf_nodes(children@),
    }
}

/// Validity of a list of sibling entries.
pub open spec fn wf_nodes(nodes: Seq<FsNode>) -> bool
    decreases nodes,
{
    if nodes.len() == 0 {
        true
    } else {
        wf_node(nodes.first()) && wf_nodes(nodes.drop_first())
    }
}

/// The candidate file paths of a walk over `nodes`, each the given prefix
/// followed by the entry names on the way down joined with `/`: entries in
/// order, excluded entries skipped, excluded directories pruned whole,
/// directories entered only when `recursive` holds.
pub open spec fn walk_seq(
    nodes: Seq<FsNode>,
    prefix: Seq<char>,
    recursive: bool,
    ig: IgnoreSet,
) -> Seq<Seq<char>>
    decreases nodes,
{
    if nodes.len() == 0 {
        Seq::empty()
    } else {
        let rest = walk_seq(nodes.drop_first(), prefix, recursive, ig);
        match nodes.first() {
            FsNode::File { name } => {
                let path = prefix + name@;
                if ig.excluded_spec(path, false) {
                    rest
                } else {
                    seq![path] + rest
                }
            },
            FsNode::Dir { name, children } => {
                let path = prefix + name@;
                if ig.excluded_spec(path, true) {
                    rest
                } else if recursive {
                    walk_seq(children@, path + seq!['/'], recursive, ig) + rest
                } else {
                    rest
                }
            },
        }
    }
}

/// A walk over concatenated sibling lists is the concatenation of the
/// walks.
pub proof fn lemma_walk_seq_concat(
    a: Seq<FsNode>,
    b: Seq<FsNode>,
    prefix: Seq<char>,
    recursive: bool,
    ig: IgnoreSet,
)
    ensures
        walk_seq(a + b, prefix, recursive, ig) == walk_seq(a, prefix, recursive, ig) + walk_seq(
            b,
            prefix,
            recursive,
            ig,
        ),
    decreases a,
{
    if a.len() == 0 {
        assert(a + b =~= b);
        assert(walk_seq(a, prefix, recursive, ig) + walk_seq(b, prefix, recursive, ig)
            =~= walk_seq(b, prefix, recursive, ig));
    } else {
        assert((a + b).first() == a.first());
        assert((a + b).drop_first() =~= a.drop_first() + b);
        assert((a + b).len() > 0);
        lemma_walk_seq_concat(a.drop_first(), b, prefix, recursive, ig);
        let restab = walk_seq(a.drop_first(), prefix, recursive, ig) + walk_seq(
            b,
            prefix,
            recursive,
            ig,
        );
        match a.first() {
            FsNode::File { name } => {
                let path = prefix + name@;
                if !ig.excluded_spec(path, false) {
                    assert(seq![path] + restab =~= (seq![path] + walk_seq(
                        a.drop_first(),
                        prefix,
                        recursive,
                        ig,
                    )) + walk_seq(b, prefix, recursive, ig));
                }
            },
            FsNode::Dir { name, children } => {
                let path = prefix + name@;
                if !ig.excluded_spec(path, true) && recursive {
                    let sub = walk_seq(children@, path + seq!['/'], recursive, ig);
                    assert(sub + restab =~= (sub + walk_seq(a.drop_first(), prefix, recursive, ig))
                        + walk_seq(b, prefix, recursive, ig));
                }
            },
        }
    }
}

} // verus!

verus! {

/// Walks the tree and collects the candidate file paths, as `walk_seq`
/// says.
pub fn walk(nodes: &Vec<FsNode>, prefix: &str, recursive: bool, ig: &IgnoreSet) -> (r: Vec<String>)
    ensures
        r.deep_view() == walk_seq(nodes@, prefix@, recursive, *ig),
    decreases nodes@,
{
    let n: usize = nodes.len();
    let mut out: Vec<String> = Vec::new();
    let mut i: usize = 0;
    proof {
        assert(nodes@.take(0) =~= Seq::<FsNode>::empty());
        assert(out.deep_view() =~~= walk_seq(nodes@.take(0), prefix@, recursive, *ig));
    }
    while i < n
        invariant
            i <= n,
            n == nodes@.len(),
            out.deep_view() == walk_seq(nodes@.take(i as int), prefix@, recursive, *ig),
        decreases n - i,
    {
        let ghost prevdone = walk_seq(nodes@.take(i as int), prefix@, recursive, *ig);
        proof {
            assert(nodes@.take(i as int + 1) =~= nodes@.take(i as int) + seq![nodes@[i as int]]);
            lemma_walk_seq_concat(
                nodes@.take(i as int),
                seq![nodes@[i as int]],
                prefix@,
                recursive,
                *ig,
            );
            let one = seq![nodes@[i as int]];
            assert(one.first() == nodes@[i as int]);
            assert(one.drop_first() =~= Seq::<FsNode>::empty());
            assert(walk_seq(Seq::<FsNode>::empty(), prefix@, recursive, *ig)
                == Seq::<Seq<char>>::empty());
        }
        match &nodes[i] {
            FsNode::File { name } => {
                let mut path = String::from_str(prefix);
                path.append(name.as_str());
                if !ig.excluded(path.as_str(), false) {
                    proof {
                        assert(seq![path@] + Seq::<Seq<char>>::empty() =~= seq![path@]);
                    }
                    let ghost oldvec = out@;
                    let ghost olddeep = out.deep_view();
                    let ghost pv = path@;
                    out.push(path);
                    proof {
                        assert(out@ == oldvec.push(out@[oldvec.len() as int]));
                        assert(olddeep.len() == oldvec.len());
                        assert forall|k: int|
                            0 <= k < out.deep_view().len() implies #[trigger] out.deep_view()[k]
                            == (prevdone + seq![pv])[k] by {
                            assert(out.deep_view()[k] == out@[k]@);
                            if k < oldvec.len() {
                                assert(out@[k] == oldvec[k]);
                                assert(olddeep[k] == oldvec[k]@);
                            }
                        }
                        assert(out.deep_view() =~= prevdone + seq![pv]);
                        assert(walk_seq(seq![nodes@[i as int]], prefix@, recursive, *ig)
                            == seq![prefix@ + name@] + Seq::<Seq<char>>::empty());
                        assert(seq![prefix@ + name@] + Seq::<Seq<char>>::empty() =~= seq![pv]);
                    }
                } else {
                    proof {
                        assert(prevdone + Seq::<Seq<char>>::empty() =~= prevdone);
                        assert(walk_seq(seq![nodes@[i as int]], prefix@, recursive, *ig)
                            == Seq::<Seq<char>>::empty());
                    }
                }
            },
            FsNode::Dir { name, children } => {
                let mut path = String::from_str(prefix);
                path.append(name.as_str());
                if recursive && !ig.excluded(path.as_str(), true) {
                    let mut child_prefix = path.clone();
                    child_prefix.append("/");
                    proof {
                        reveal_strlit("/");
                        assert("/"@ =~= seq!['/']);
                        assert(child_prefix@ =~= path@ + seq!['/']);
                    }
                    let sub = walk(children, child_prefix.as_str(), recursive, ig);
                    let ghost subv = sub.deep_view();
                    let ns: usize = sub.len();
                    let mut j: usize = 0;
                    proof {
                        assert(subv.take(0) =~= Seq::<Seq<char>>::empty());
                        assert(out.deep_view() =~~= prevdone + subv.take(0));
                    }
                    while j < ns
                        invariant
                            j <= ns,
                            ns == sub@.len(),
                            sub.deep_view() == subv,
                            out.deep_view() == prevdone + subv.take(j as int),
                        decreases ns - j,
                    {
                        let s = sub[j].clone();
                        let ghost oldvec = out@;
                        let ghost olddeep = out.deep_view();
                        proof {
                            assert(s@ == sub@[j as int]@);
                            assert(sub.deep_view()[j as int] == sub@[j as int]@);
                            assert(s@ == subv[j as int]);
                            assert(subv.take(j as int + 1) =~= subv.take(j as int).push(
                                subv[j as int],
                            ));
                            assert(olddeep.len() == oldvec.len());
                        }
                        out.push(s);
                        j = j + 1;
                        proof {
                            assert(out@ == oldvec.push(s));
                            assert(out.deep_view().len() == oldvec.len() + 1);
                            assert forall|k: int|
                                0 <= k < out.deep_view().len() implies #[trigger] out.deep_view()[k]
                                == (prevdone + subv.take(j as int))[k] by {
                                assert(out.deep_view()[k] == out@[k]@);
                                if k < oldvec.len() {
                                    assert(out@[k] == oldvec[k]);
                                    assert(olddeep[k] == oldvec[k]@);
                                } else {
                                    assert(out@[k] == s);
                                }
                            }
                            assert(out.deep_view() =~= prevdone + subv.take(j as int));
                        }
                    }
                    proof {
                        assert(subv.take(ns as int) =~= subv);
                        assert(out.deep_view() == prevdone + subv);
                        assert(walk_seq(seq![nodes@[i as int]], prefix@, recursive, *ig)
                            == walk_seq(children@, (prefix@ + name@) + seq!['/'], recursive, *ig)
                            + Seq::<Seq<char>>::empty());
                        assert(child_prefix@ == (prefix@ + name@) + seq!['/']);
                        assert(subv + Seq::<Seq<char>>::empty() =~= subv);
                    }
                } else {
                    proof {
                        assert(prevdone + Seq::<Seq<char>>::empty() =~= prevdone);
                        assert(walk_seq(seq![nodes@[i as int]], prefix@, recursive, *ig)
                            == Seq::<Seq<char>>::empty());
                    }
                }
            },
        }
        i = i + 1;
    }
    proof {
        assert(nodes@.take(n as int) =~= nodes@);
    }
    out
}

} // verus!

verus! {

/// Every candidate extends the walk's prefix by at least one character and
/// is itself not excluded.
pub proof fn lemma_walk_shape(
    nodes: Seq<FsNode>,
    prefix: Seq<char>,
    recursive: bool,
    ig: IgnoreSet,
    p: Seq<char>,
)
    requires
        wf_nodes(nodes),
        walk_seq(nodes, prefix, recursive, ig).contains(p),
    ensures
        p.len() > prefix.len(),
        p.take(prefix.len() as int) == prefix,
        !ig.excluded_spec(p, false),
    decreases nodes,
{
    let w = walk_seq(nodes, prefix, recursive, ig);
    assert(nodes.len() > 0);
    assert(wf_node(nodes.first()) && wf_nodes(nodes.drop_first()));
    let rest = walk_seq(nodes.drop_first(), prefix, recursive, ig);
    let idx = choose|idx: int| 0 <= idx < w.len() && w[idx] == p;
    match nodes.first() {
        FsNode::File { name } => {
            let path = prefix + name@;
            if ig.excluded_spec(path, false) {
                lemma_walk_shape(nodes.drop_first(), prefix, recursive, ig, p);
            } else {
                if idx == 0 {
                    assert(p == path);
                    assert(wf_name(name@));
                    assert(p.take(prefix.len() as int) =~= prefix);
                } else {
                    assert(rest[idx - 1] == p);
                    assert(rest.contains(p));
                    lemma_walk_shape(nodes.drop_first(), prefix, recursive, ig, p);
                }
            }
        },
        FsNode::Dir { name, children } => {
            let path = prefix + name@;
            if !ig.excluded_spec(path, true) && recursive {
                let cp = path + seq!['/'];
                let sub = walk_seq(children@, cp, recursive, ig);
                if idx < sub.len() {
                    assert(sub[idx] == p);
                    assert(sub.contains(p));
                    lemma_walk_shape(children@, cp, recursive, ig, p);
                    assert(p.len() > cp.len());
                    assert(cp.len() > prefix.len());
                    assert(p.take(prefix.len() as int) =~= p.take(cp.len() as int).take(
                        prefix.len() as int,
                    ));
                    assert(cp.take(prefix.len() as int) =~= prefix);
                } else {
                    assert(rest[idx - sub.len()] == p);
                    assert(rest.contains(p));
                    lemma_walk_shape(nodes.drop_first(), prefix, recursive, ig, p);
                }
            } else {
                lemma_walk_shape(nodes.drop_first(), prefix, recursive, ig, p);
            }
        },
    }
}

/// Pruning, stated over the walk: a candidate never lies inside a directory
/// that the active strategy excludes, as long as the directory's path lies
/// at or below the walk's prefix.
pub proof fn lemma_walk_not_excluded(
    nodes: Seq<FsNode>,
    prefix: Seq<char>,
    recursive: bool,
    ig: IgnoreSet,
    p: Seq<char>,
    d: Seq<char>,
)
    requires
        wf_nodes(nodes),
        walk_seq(nodes, prefix, recursive, ig).contains(p),
        d.len() >= prefix.len(),
        within_dir(p, d),
    ensures
        !ig.excluded_spec(d, true),
    decreases nodes,
{
    let w = walk_seq(nodes, prefix, recursive, ig);
    assert(nodes.len() > 0);
    assert(wf_node(nodes.first()) && wf_nodes(nodes.drop_first()));
    let rest = walk_seq(nodes.drop_first(), prefix, recursive, ig);
    let idx = choose|idx: int| 0 <= idx < w.len() && w[idx] == p;
    match nodes.first() {
        FsNode::File { name } => {
            let path = prefix + name@;
            if ig.excluded_spec(path, false) {
                lemma_walk_not_excluded(nodes.drop_first(), prefix, recursive, ig, p, d);
            } else {
                if idx == 0 {
                    assert(p == path);
                    assert(wf_name(name@));
                    // the separator demanded by within_dir would have to
                    // stand inside the name
                    assert(p[d.len() as int] == name@[d.len() - prefix.len()]);
                    assert(false);
                } else {
                    assert(rest[idx - 1] == p);
                    assert(rest.contains(p));
                    lemma_walk_not_excluded(nodes.drop_first(), prefix, recursive, ig, p, d);
                }
            }
        },
        FsNode::Dir { name, children } => {
            let path = prefix + name@;
            if !ig.excluded_spec(path, true) && recursive {
                let cp = path + seq!['/'];
                let sub = walk_seq(children@, cp, recursive, ig);
                if idx < sub.len() {
                    assert(sub[idx] == p);
                    assert(sub.contains(p));
                    lemma_walk_shape(children@, cp, recursive, ig, p);
                    if d.len() >= cp.len() {
                        lemma_walk_not_excluded(children@, cp, recursive, ig, p, d);
                    } else if d.len() == path.len() {
                        assert(wf_name(name@));
                        assert forall|j: int| 0 <= j < path.len() implies d[j] == path[j] by {
                            assert(d[j] == p.take(d.len() as int)[j]);
                            assert(p[j] == p.take(cp.len() as int)[j]);
                            assert(cp[j] == path[j]);
                        }
                        assert(d =~= path);
                    } else {
                        // prefix.len() <= d.len() < path.len(): the
                        // separator would stand inside the name
                        assert(wf_name(name@));
                        assert(p[d.len() as int] == p.take(cp.len() as int)[d.len() as int]);
                        assert(cp[d.len() as int] == path[d.len() as int]);
                        assert(path[d.len() as int] == name@[d.len() - prefix.len()]);
                        assert(false);
                    }
                } else {
                    assert(rest[idx - sub.len()] == p);
                    assert(rest.contains(p));
                    lemma_walk_not_excluded(nodes.drop_first(), prefix, recursive, ig, p, d);
                }
            } else {
                lemma_walk_not_excluded(nodes.drop_first(), prefix, recursive, ig, p, d);
            }
        },
    }
}

/// With recursion disabled, every candidate is a direct entry of the root:
/// past the prefix its path holds no separator.
pub proof fn lemma_walk_flat(nodes: Seq<FsNode>, prefix: Seq<char>, ig: IgnoreSet, p: Seq<char>)
    requires
        wf_nodes(nodes),
        walk_seq(nodes, prefix, false, ig).contains(p),
    ensures
        forall|j: int| prefix.len() <= j < p.len() ==> p[j] != '/',
    decreases nodes,
{
    let w = walk_seq(nodes, prefix, false, ig);
    assert(nodes.len() > 0);
    assert(wf_node(nodes.first()) && wf_nodes(nodes.drop_first()));
    let rest = walk_seq(nodes.drop_first(), prefix, false, ig);
    let idx = choose|idx: int| 0 <= idx < w.len() && w[idx] == p;
    match nodes.first() {
        FsNode::File { name } => {
            let path = prefix + name@;
            if ig.excluded_spec(path, false) {
                lemma_walk_flat(nodes.drop_first(), prefix, ig, p);
            } else {
                if idx == 0 {
                    assert(p == path);
                    assert(wf_name(name@));
                    assert forall|j: int| prefix.len() <= j < p.len() implies p[j] != '/' by {
                        assert(p[j] == name@[j - prefix.len()]);
                    }
                } else {
                    assert(rest[idx - 1] == p);
                    assert(rest.contains(p));
                    lemma_walk_flat(nodes.drop_first(), prefix, ig, p);
                }
            }
        },
        FsNode::Dir { name, children } => {
            lemma_walk_flat(nodes.drop_first(), prefix, ig, p);
        },
    }
}

/// Pruning at the root: once a directory is judged excluded, no candidate
/// of the walk lies beneath it, in recursive mode as in flat mode.
pub proof fn lemma_pruning(
    nodes: Seq<FsNode>,
    recursive: bool,
    ig: IgnoreSet,
    d: Seq<char>,
    p: Seq<char>,
)
    requires
        wf_nodes(nodes),
        walk_seq(nodes, Seq::empty(), recursive, ig).contains(p),
        ig.excluded_spec(d, true),
    ensures
        !within_dir(p, d),
{
    if within_dir(p, d) {
        lemma_walk_not_excluded(nodes, Seq::empty(), recursive, ig, p, d);
    }
}

/// Depth bound at the root: with recursion disabled a candidate's path
/// holds no separator, so a file below a subdirectory is never yielded.
pub proof fn lemma_depth_bound(nodes: Seq<FsNode>, ig: IgnoreSet, p: Seq<char>)
    requires
        wf_nodes(nodes),
        walk_seq(nodes, Seq::empty(), false, ig).contains(p),
    ensures
        forall|j: int| 0 <= j < p.len() ==> p[j] != '/',
{
    lemma_walk_flat(nodes, Seq::empty(), ig, p);
}

} // verus!
