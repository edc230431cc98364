//! The whole aggregation, as one mathematical function.
//!
//! A run walks the tree once per pattern, keeps the candidates the pattern
//! matches, and renders each kept path with its read outcome.  The
//! functions of the other modules compute exactly the pieces of this
//! composition; stating it once makes the shape of a whole run, and its
//! determinism, explicit.

use vstd::prelude::*;
use vstd::map::*;
use crate::glob::{glob_matches, lemma_star_literal_is_suffix};
use crate::ignores::{starts_in, within_dir, IgnoreSet};
use crate::render::{record_text, selected};
use crate::walk::{FsNode, walk_seq};

verus! {

/// The text produced for a list of kept paths, given the read outcome of
/// every path: `Some` content, or `None` for a failed read.
pub open spec fn rendered_paths(
    paths: Seq<Seq<char>>,
    reads: Map<Seq<char>, Option<Seq<char>>>,
) -> Seq<char>
    decreases paths.len(),
{
    if paths.len() == 0 {
        Seq::empty()
    } else {
        rendered_paths(paths.drop_last(), reads) + record_text(
            paths.last(),
            reads[paths.last()],
        )
    }
}

/// The output of one pattern's pass over the tree.
pub open spec fn run_pattern_spec(
    nodes: Seq<FsNode>,
    recursive: bool,
    ig: IgnoreSet,
    glob: Seq<char>,
    reads: Map<Seq<char>, Option<Seq<char>>>,
) -> Seq<char> {
    rendered_paths(selected(walk_seq(nodes, Seq::empty(), recursive, ig), glob), reads)
}

/// The output of a whole run: each pattern processed fully against the
/// whole candidate set, in order, with no de-duplication across patterns.
pub open spec fn run_spec(
    nodes: Seq<FsNode>,
    recursive: bool,
    ig: IgnoreSet,
    globs: Seq<Seq<char>>,
    reads: Map<Seq<char>, Option<Seq<char>>>,
) -> Seq<char>
    decreases globs.len(),
{
    if globs.len() == 0 {
        Seq::empty()
    } else {
        run_spec(nodes, recursive, ig, globs.drop_last(), reads) + run_pattern_spec(
            nodes,
            recursive,
            ig,
            globs.last(),
            reads,
        )
    }
}

/// Idempotence: the output of a run is a function of the tree, the
/// recursion flag, the ignore strategy, the patterns and the files' read
/// outcomes alone, so two runs over identical inputs and an unchanged
/// filesystem produce byte-identical output.
pub proof fn lemma_run_deterministic(
    nodes1: Seq<FsNode>,
    recursive1: bool,
    ig1: IgnoreSet,
    globs1: Seq<Seq<char>>,
    reads1: Map<Seq<char>, Option<Seq<char>>>,
    nodes2: Seq<FsNode>,
    recursive2: bool,
    ig2: IgnoreSet,
    globs2: Seq<Seq<char>>,
    reads2: Map<Seq<char>, Option<Seq<char>>>,
)
    requires
        nodes1 == nodes2,
        recursive1 == recursive2,
        ig1 == ig2,
        globs1 == globs2,
        reads1 == reads2,
    ensures
        run_spec(nodes1, recursive1, ig1, globs1, reads1) == run_spec(
            nodes2,
            recursive2,
            ig2,
            globs2,
            reads2,
        ),
{
}

} // verus!

verus! {

/// The end-to-end scenario, assembled: a root holding files `a.ts` and
/// `b.tsx` and a directory `sub` with one entry, the strategy recording the
/// ignored directory `sub`, and the pattern `*.ts`, walked recursively.
/// The run's output is exactly `a.ts`'s record, whatever its read outcome:
/// `b.tsx` fails the pattern, and `sub`'s entry is pruned without ever
/// being looked at or read.
pub proof fn lemma_end_to_end_scenario(
    a: FsNode,
    b: FsNode,
    s: FsNode,
    ig: IgnoreSet,
    reads: Map<Seq<char>, Option<Seq<char>>>,
)
    requires
        a matches FsNode::File { name } && name@ == seq!['a', '.', 't', 's'],
        b matches FsNode::File { name } && name@ == seq!['b', '.', 't', 's', 'x'],
        s is Dir && (s matches FsNode::Dir { name, .. } && name@ == seq!['s', 'u', 'b']),
        ig matches IgnoreSet::Dirs { dirs } && dirs.deep_view() == seq![seq!['s', 'u', 'b']],
    ensures
        run_pattern_spec(seq![a, b, s], true, ig, seq!['*', '.', 't', 's'], reads) == record_text(
            seq!['a', '.', 't', 's'],
            reads[seq!['a', '.', 't', 's']],
        ),
{
    let lit = seq!['.', 't', 's'];
    let glob = seq!['*', '.', 't', 's'];
    let pa = seq!['a', '.', 't', 's'];
    let pb = seq!['b', '.', 't', 's', 'x'];
    let ps = seq!['s', 'u', 'b'];
    let nodes = seq![a, b, s];
    let e = Seq::<char>::empty();
    let dirs = ig->Dirs_dirs;
    assert(dirs.deep_view().len() == dirs@.len());
    assert(dirs.deep_view()[0] == dirs@[0]@);
    assert(dirs@.len() == 1);
    assert(dirs@[0]@ == ps);

    // the strategy's verdicts on the three paths
    assert(!starts_in(pa, ps)) by {
        assert(pa.len() != ps.len());
        if within_dir(pa, ps) {
            assert(pa.take(3)[0] == pa[0]);
        }
    }
    assert(!starts_in(pb, ps)) by {
        assert(pb.len() != ps.len());
        if within_dir(pb, ps) {
            assert(pb.take(3)[0] == pb[0]);
        }
    }
    assert(!ig.excluded_spec(pa, false)) by {
        assert forall|j: int| 0 <= j < dirs@.len() implies !starts_in(pa, dirs@[j]@) by {
            assert(dirs@[j]@ == ps);
        }
    }
    assert(!ig.excluded_spec(pb, false)) by {
        assert forall|j: int| 0 <= j < dirs@.len() implies !starts_in(pb, dirs@[j]@) by {
            assert(dirs@[j]@ == ps);
        }
    }
    assert(ig.excluded_spec(ps, true)) by {
        assert(starts_in(ps, ps));
        assert(0 <= 0 < dirs@.len() && starts_in(ps, dirs@[0]@));
    }

    // the walk: a.ts kept, b.tsx kept, sub pruned whole
    assert(walk_seq(Seq::<FsNode>::empty(), e, true, ig) =~= Seq::<Seq<char>>::empty());
    let w3 = walk_seq(seq![s], e, true, ig);
    assert(w3 =~= Seq::<Seq<char>>::empty()) by {
        assert(seq![s].first() == s);
        assert(seq![s].drop_first() =~= Seq::<FsNode>::empty());
        assert(e + s->Dir_name@ =~= ps);
        assert(walk_seq(Seq::<FsNode>::empty(), e, true, ig) =~= Seq::<Seq<char>>::empty());
    }
    let w2 = walk_seq(seq![b, s], e, true, ig);
    assert(w2 =~= seq![pb]) by {
        assert(seq![b, s].first() == b);
        assert(seq![b, s].drop_first() =~= seq![s]);
        assert(e + b->File_name@ =~= pb);
        assert(w3 =~= Seq::<Seq<char>>::empty());
        assert(seq![pb] + Seq::<Seq<char>>::empty() =~= seq![pb]);
    }
    let w1 = walk_seq(nodes, e, true, ig);
    assert(w1 =~= seq![pa, pb]) by {
        assert(nodes.first() == a);
        assert(nodes.drop_first() =~= seq![b, s]);
        assert(e + a->File_name@ =~= pa);
        assert(w2 =~= seq![pb]);
        assert(seq![pa] + seq![pb] =~= seq![pa, pb]);
    }

    // the pattern: `a.ts` ends in `.ts`, `b.tsx` does not
    assert(forall|i: int| 0 <= i < lit.len() ==> lit[i] != '*' && lit[i] != '{') by {
        assert(lit[0] == '.' && lit[1] == 't' && lit[2] == 's');
    }
    assert(seq!['*'] + lit =~= glob);
    lemma_star_literal_is_suffix(lit, pa);
    assert(glob_matches(glob, pa)) by {
        assert(pa.skip(1) =~= lit);
    }
    lemma_star_literal_is_suffix(lit, pb);
    assert(!glob_matches(glob, pb)) by {
        if pb.skip(2) == lit {
            assert(pb.skip(2)[0] == pb[2]);
        }
    }

    // the selection keeps a.ts alone
    assert(selected(Seq::<Seq<char>>::empty(), glob) =~= Seq::<Seq<char>>::empty());
    assert(selected(seq![pa], glob) =~= seq![pa]) by {
        assert(seq![pa].drop_last() =~= Seq::<Seq<char>>::empty());
        assert(seq![pa].last() == pa);
        assert(selected(Seq::<Seq<char>>::empty(), glob) =~= Seq::<Seq<char>>::empty());
        assert(Seq::<Seq<char>>::empty().push(pa) =~= seq![pa]);
    }
    assert(selected(seq![pa, pb], glob) =~= seq![pa]) by {
        assert(seq![pa, pb].drop_last() =~= seq![pa]);
        assert(seq![pa, pb].last() == pb);
        assert(selected(seq![pa], glob) =~= seq![pa]);
    }

    // the rendering holds exactly a.ts's record
    assert(rendered_paths(seq![pa], reads) == record_text(pa, reads[pa])) by {
        assert(seq![pa].drop_last() =~= Seq::<Seq<char>>::empty());
        assert(seq![pa].last() == pa);
        assert(rendered_paths(Seq::<Seq<char>>::empty(), reads) =~= Seq::<char>::empty());
        assert(Seq::<char>::empty() + record_text(pa, reads[pa]) =~= record_text(pa, reads[pa]));
    }
    assert(selected(w1, glob) == seq![pa]);
}

} // verus!
