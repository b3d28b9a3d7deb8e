//! A model of the record store: a map from file paths to file contents, and
//! the effect of carrying out a sequence of planned writes in order, each one
//! overwriting whatever its path held before.

use vstd::prelude::*;

verus! {

/// One planned write, as a specification value: the directory to create, the
/// file path, the text to store there, and the journal identifier the record
/// was filed under.
pub struct SpecWrite {
    pub dir: Seq<char>,
    pub path: Seq<char>,
    pub contents: Seq<char>,
    pub id: int,
}

/// The store after carrying out `ws` in order, starting from `fs`: each write
/// creates or overwrites the file at its path.
pub open spec fn fs_after(
    fs: Map<Seq<char>, Seq<char>>,
    ws: Seq<SpecWrite>,
) -> Map<Seq<char>, Seq<char>>
    decreases ws.len(),
{
    if ws.len() == 0 {
        fs
    } else {
        fs_after(fs.insert(ws[0].path, ws[0].contents), ws.drop_first())
    }
}

/// A path that no write touches keeps exactly the file it had before.
pub proof fn lemma_fs_after_frame(fs: Map<Seq<char>, Seq<char>>, ws: Seq<SpecWrite>, p: Seq<char>)
    requires
        forall|i: int| 0 <= i < ws.len() ==> (#[trigger] ws[i].path) != p,
    ensures
        fs_after(fs, ws).contains_key(p) == fs.contains_key(p),
        fs.contains_key(p) ==> fs_after(fs, ws)[p] == fs[p],
    decreases ws.len(),
{
    if ws.len() > 0 {
        let rest = ws.drop_first();
        assert forall|i: int| 0 <= i < rest.len() implies (#[trigger] rest[i].path) != p by {
            assert(rest[i] == ws[i + 1]);
        }
        lemma_fs_after_frame(fs.insert(ws[0].path, ws[0].contents), rest, p);
    }
}

/// What a written path holds afterwards is decided by the writes alone: two
/// stores that undergo the same writes agree on every written path.
pub proof fn lemma_fs_after_agree(
    f1: Map<Seq<char>, Seq<char>>,
    f2: Map<Seq<char>, Seq<char>>,
    ws: Seq<SpecWrite>,
    p: Seq<char>,
)
    requires
        exists|i: int| 0 <= i < ws.len() && (#[trigger] ws[i].path) == p,
    ensures
        fs_after(f1, ws).contains_key(p),
        fs_after(f2, ws).contains_key(p),
        fs_after(f1, ws)[p] == fs_after(f2, ws)[p],
    decreases ws.len(),
{
    let rest = ws.drop_first();
    let g1 = f1.insert(ws[0].path, ws[0].contents);
    let g2 = f2.insert(ws[0].path, ws[0].contents);
    if exists|i: int| 0 <= i < rest.len() && (#[trigger] rest[i].path) == p {
        lemma_fs_after_agree(g1, g2, rest, p);
    } else {
        let i = choose|i: int| 0 <= i < ws.len() && (#[trigger] ws[i].path) == p;
        if i > 0 {
            assert(rest[i - 1] == ws[i]);
            assert(false);
        }
        assert forall|j: int| 0 <= j < rest.len() implies (#[trigger] rest[j].path) != p by {
            assert(rest[j] == ws[j + 1]);
        }
        lemma_fs_after_frame(g1, rest, p);
        lemma_fs_after_frame(g2, rest, p);
    }
}

/// Writes to pairwise distinct, fresh paths add exactly one file each, and
/// each written path afterwards holds the contents planned for it.
pub proof fn lemma_fs_after_distinct(fs: Map<Seq<char>, Seq<char>>, ws: Seq<SpecWrite>)
    requires
        fs.dom().finite(),
        forall|i: int, j: int| 0 <= i < j < ws.len() ==> ws[i].path != ws[j].path,
        forall|i: int| 0 <= i < ws.len() ==> !fs.contains_key(#[trigger] ws[i].path),
    ensures
        fs_after(fs, ws).dom().finite(),
        fs_after(fs, ws).dom().len() == fs.dom().len() + ws.len(),
        forall|i: int| 0 <= i < ws.len() ==> fs_after(fs, ws).contains_key(
            #[trigger] ws[i].path,
        ) && fs_after(fs, ws)[ws[i].path] == ws[i].contents,
    decreases ws.len(),
{
    broadcast use vstd::set::group_set_axioms;

    if ws.len() > 0 {
        let rest = ws.drop_first();
        let g = fs.insert(ws[0].path, ws[0].contents);
        assert(g.dom() == fs.dom().insert(ws[0].path));
        assert(g.dom().len() == fs.dom().len() + 1);
        assert forall|i: int, j: int| 0 <= i < j < rest.len() implies rest[i].path
            != rest[j].path by {
            assert(rest[i] == ws[i + 1]);
            assert(rest[j] == ws[j + 1]);
        }
        assert forall|i: int| 0 <= i < rest.len() implies !g.contains_key(
            #[trigger] rest[i].path,
        ) by {
            assert(rest[i] == ws[i + 1]);
        }
        lemma_fs_after_distinct(g, rest);
        assert forall|i: int| 0 <= i < rest.len() implies (#[trigger] rest[i].path)
            != ws[0].path by {
            assert(rest[i] == ws[i + 1]);
        }
        lemma_fs_after_frame(g, rest, ws[0].path);
        assert forall|i: int| 0 <= i < ws.len() implies fs_after(fs, ws).contains_key(
            #[trigger] ws[i].path,
        ) && fs_after(fs, ws)[ws[i].path] == ws[i].contents by {
            if i > 0 {
                assert(rest[i - 1] == ws[i]);
                assert(fs_after(g, rest).contains_key(rest[i - 1].path));
            }
        }
    }
}

/// A run over pairwise-distinct fresh writes that stops after the first `m`
/// of them — as the executor stops at the first filesystem failure — leaves
/// exactly the files of the writes already carried out, each holding its
/// planned contents; the paths of the writes never attempted do not exist,
/// and nothing already carried out is rolled back.
pub proof fn lemma_stop_after_prefix(fs: Map<Seq<char>, Seq<char>>, ws: Seq<SpecWrite>, m: int)
    requires
        fs.dom().finite(),
        0 <= m <= ws.len(),
        forall|i: int, j: int| 0 <= i < j < ws.len() ==> ws[i].path != ws[j].path,
        forall|i: int| 0 <= i < ws.len() ==> !fs.contains_key(#[trigger] ws[i].path),
    ensures
        fs_after(fs, ws.take(m)).dom().finite(),
        fs_after(fs, ws.take(m)).dom().len() == fs.dom().len() + m,
        forall|i: int| 0 <= i < m ==> fs_after(fs, ws.take(m)).contains_key(#[trigger] ws[i].path)
            && fs_after(fs, ws.take(m))[ws[i].path] == ws[i].contents,
        forall|i: int| m <= i < ws.len() ==> !fs_after(fs, ws.take(m)).contains_key(
            #[trigger] ws[i].path,
        ),
{
    let prefix = ws.take(m);
    assert forall|i: int, j: int| 0 <= i < j < prefix.len() implies prefix[i].path
        != prefix[j].path by {
        assert(prefix[i] == ws[i]);
        assert(prefix[j] == ws[j]);
    }
    assert forall|i: int| 0 <= i < prefix.len() implies !fs.contains_key(
        #[trigger] prefix[i].path,
    ) by {
        assert(prefix[i] == ws[i]);
    }
    lemma_fs_after_distinct(fs, prefix);
    assert forall|i: int| 0 <= i < m implies fs_after(fs, prefix).contains_key(
        #[trigger] ws[i].path,
    ) && fs_after(fs, prefix)[ws[i].path] == ws[i].contents by {
        assert(prefix[i] == ws[i]);
        assert(fs_after(fs, prefix).contains_key(prefix[i].path));
    }
    assert forall|i: int| m <= i < ws.len() implies !fs_after(fs, prefix).contains_key(
        #[trigger] ws[i].path,
    ) by {
        assert forall|j: int| 0 <= j < prefix.len() implies (#[trigger] prefix[j].path)
            != ws[i].path by {
            assert(prefix[j] == ws[j]);
        }
        lemma_fs_after_frame(fs, prefix, ws[i].path);
    }
}

/// Carrying out the same writes a second time leaves the store exactly as it
/// stood after the first time: every write overwrites, so a replay changes
/// nothing.
pub proof fn lemma_replay_idempotent(fs: Map<Seq<char>, Seq<char>>, ws: Seq<SpecWrite>)
    ensures
        fs_after(fs_after(fs, ws), ws) == fs_after(fs, ws),
{
    let g = fs_after(fs, ws);
    let h = fs_after(g, ws);
    assert forall|p: Seq<char>| #![all_triggers] true implies h.contains_key(p) == g.contains_key(
        p,
    ) && (g.contains_key(p) ==> h[p] == g[p]) by {
        if exists|i: int| 0 <= i < ws.len() && (#[trigger] ws[i].path) == p {
            lemma_fs_after_agree(g, fs, ws, p);
        } else {
            lemma_fs_after_frame(g, ws, p);
        }
    }
    assert(h =~= g);
}

} // verus!
