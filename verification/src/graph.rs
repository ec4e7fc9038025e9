//! The persistent planar-graph model: vertices, symmetric adjacency,
//! edge attributes, and the derived triangulation cache.
//!
//! Vertices live in an ordered map from identifier to record; adjacency is an
//! ordered map from identifier to an ordered neighbor list, kept symmetric:
//! whenever `b` is listed under `a`, `a` is listed under `b`.  Edge
//! attributes are keyed by the canonical (ascending) unordered pair.  The
//! face list and border set are a cache derived by an external triangulation
//! step; every structural edit clears them.

use vstd::prelude::*;
use crate::geom::Vec2;
use crate::geom::SCALE;
use crate::geom::COORD_LIMIT;

verus! {

/// A vertex record: position, texture coordinate and inverse mass, all in
/// fixed-point units.  The texture coordinate and inverse mass are set at
/// creation (inverse mass to one) and consumed only by the external
/// triangulation and physics steps.
#[derive(Clone, Copy, PartialEq, Eq, Structural, Debug)]
pub struct Vertex {
    pub pos: Vec2,
    pub tex: Vec2,
    pub im: i64,
}

/// One vertex-map entry: an identifier with its record.
#[derive(Clone, Copy, PartialEq, Eq, Structural, Debug)]
pub struct VertEntry {
    pub id: u64,
    pub v: Vertex,
}

/// One adjacency entry: a vertex identifier with its ordered neighbor list.
#[derive(Debug)]
pub struct AdjEntry {
    pub id: u64,
    pub ns: Vec<u64>,
}

/// One edge-attribute entry, keyed by the canonical (ascending) vertex pair.
#[derive(Clone, Copy, PartialEq, Eq, Structural, Debug)]
pub struct DcEntry {
    pub a: u64,
    pub b: u64,
    pub val: i64,
}

/// A derived triangle, naming three vertices of the graph.
#[derive(Clone, Copy, PartialEq, Eq, Structural, Debug)]
pub struct Tri {
    pub a: u64,
    pub b: u64,
    pub c: u64,
}

/// Spec-level shape of the adjacency structure: the identifier and neighbor
/// list of each entry, in storage order.
pub type AdjModel = Seq<(u64, Seq<u64>)>;

/// The canonical form of an unordered vertex pair: ascending order.
pub open spec fn canon(a: u64, b: u64) -> (u64, u64) {
    if a <= b {
        (a, b)
    } else {
        (b, a)
    }
}

/// Number of occurrences of `x` in `s`.
pub open spec fn occ(s: Seq<u64>, x: u64) -> nat
    decreases s.len(),
{
    if s.len() == 0 {
        0
    } else {
        (if s.first() == x {
            1nat
        } else {
            0nat
        }) + occ(s.drop_first(), x)
    }
}

/// There is an entry keyed `id`.
pub open spec fn has_key(m: AdjModel, id: u64) -> bool {
    exists|i: int| 0 <= i < m.len() && (#[trigger] m[i]).0 == id
}

/// The index of an entry keyed `id` (unique when keys are unique).
pub open spec fn key_idx(m: AdjModel, id: u64) -> int {
    choose|i: int| 0 <= i < m.len() && (#[trigger] m[i]).0 == id
}

/// The neighbor list stored under `id`; empty when there is no entry.
pub open spec fn nbs(m: AdjModel, id: u64) -> Seq<u64> {
    if has_key(m, id) {
        m[key_idx(m, id)].1
    } else {
        Seq::empty()
    }
}

/// No two entries share a key.
pub open spec fn keys_unique(m: AdjModel) -> bool {
    forall|i: int, j: int|
        0 <= i < j < m.len() ==> (#[trigger] m[i]).0 != (#[trigger] m[j]).0
}

/// Adjacency symmetry, counted: `b` occurs under `a` as often as `a` under
/// `b`.
pub open spec fn sym(m: AdjModel) -> bool {
    forall|a: u64, b: u64| #[trigger] occ(nbs(m, a), b) == occ(nbs(m, b), a)
}

/// No unordered pair of distinct vertices is connected more than once.
pub open spec fn no_dup(m: AdjModel) -> bool {
    forall|a: u64, b: u64| a != b ==> #[trigger] occ(nbs(m, a), b) <= 1
}

/// Appending `b` to the neighbor list of `a`, creating the entry if absent.
pub open spec fn push_nb(m: AdjModel, a: u64, b: u64) -> AdjModel {
    if has_key(m, a) {
        m.update(key_idx(m, a), (a, m[key_idx(m, a)].1.push(b)))
    } else {
        m.push((a, seq![b]))
    }
}

/// The entries whose key is not `id`, in storage order.
pub open spec fn entries_without(m: AdjModel, id: u64) -> AdjModel
    decreases m.len(),
{
    if m.len() == 0 {
        m
    } else if m.first().0 == id {
        entries_without(m.drop_first(), id)
    } else {
        seq![m.first()] + entries_without(m.drop_first(), id)
    }
}

/// The sequence without its first occurrence of `x` (unchanged when absent).
pub open spec fn remove_first(s: Seq<u64>, x: u64) -> Seq<u64>
    decreases s.len(),
{
    if s.len() == 0 {
        s
    } else if s.first() == x {
        s.drop_first()
    } else {
        seq![s.first()] + remove_first(s.drop_first(), x)
    }
}

/// Removing the entry of `id` and the first occurrence of `id` from every
/// other neighbor list.
pub open spec fn scrub(m: AdjModel, id: u64) -> AdjModel {
    entries_without(m, id).map_values(|p: (u64, Seq<u64>)| (p.0, remove_first(p.1, id)))
}

/// The vertex entries whose identifier is not `id`, in storage order.
pub open spec fn verts_without(s: Seq<VertEntry>, id: u64) -> Seq<VertEntry>
    decreases s.len(),
{
    if s.len() == 0 {
        s
    } else if s.first().id == id {
        verts_without(s.drop_first(), id)
    } else {
        seq![s.first()] + verts_without(s.drop_first(), id)
    }
}

// ----------------------------------------------------------------------
// Lemmas about the spec-level model.
// ----------------------------------------------------------------------

/// Under unique keys, the entry at index `k` is the one `nbs` reads.
pub proof fn lemma_key_at(m: AdjModel, k: int)
    requires
        keys_unique(m),
        0 <= k < m.len(),
    ensures
        has_key(m, m[k].0),
        key_idx(m, m[k].0) == k,
        nbs(m, m[k].0) == m[k].1,
{
    assert(has_key(m, m[k].0));
    let j = key_idx(m, m[k].0);
    assert(0 <= j < m.len() && m[j].0 == m[k].0);
    if j < k {
        assert(false);
    } else if k < j {
        assert(false);
    }
}

/// A key that no entry carries has an empty neighbor list.
pub proof fn lemma_no_key(m: AdjModel, id: u64)
    requires
        !has_key(m, id),
    ensures
        nbs(m, id) == Seq::<u64>::empty(),
{
}

/// Occurrence counts after appending one element.
pub proof fn lemma_occ_push(s: Seq<u64>, y: u64, x: u64)
    ensures
        occ(s.push(y), x) == occ(s, x) + (if y == x {
            1nat
        } else {
            0nat
        }),
    decreases s.len(),
{
    let p = s.push(y);
    assert(p.len() == s.len() + 1);
    assert(occ(p, x) == (if p.first() == x {
        1nat
    } else {
        0nat
    }) + occ(p.drop_first(), x));
    if s.len() == 0 {
        assert(p.first() == y);
        assert(p.drop_first() =~= Seq::<u64>::empty());
        assert(occ(p.drop_first(), x) == 0);
    } else {
        assert(p.first() == s.first());
        assert(p.drop_first() =~= s.drop_first().push(y));
        lemma_occ_push(s.drop_first(), y, x);
        assert(occ(p.drop_first(), x) == occ(s.drop_first(), x) + (if y == x {
            1nat
        } else {
            0nat
        }));
    }
}

/// An element occurs at least once exactly when the sequence contains it.
pub proof fn lemma_occ_contains(s: Seq<u64>, x: u64)
    ensures
        (occ(s, x) > 0) <==> s.contains(x),
    decreases s.len(),
{
    if s.len() > 0 {
        lemma_occ_contains(s.drop_first(), x);
        if s.first() == x {
            assert(s[0] == x);
        } else {
            if s.contains(x) {
                let i = choose|i: int| 0 <= i < s.len() && s[i] == x;
                assert(s.drop_first()[i - 1] == x);
            }
            if s.drop_first().contains(x) {
                let i = choose|i: int|
                    0 <= i < s.drop_first().len() && s.drop_first()[i] == x;
                assert(s[i + 1] == x);
            }
        }
    }
}

/// Occurrence counts of a one-element prepend.
proof fn lemma_occ_cons(a: u64, t: Seq<u64>, x: u64)
    ensures
        occ(seq![a] + t, x) == occ(t, x) + (if a == x {
            1nat
        } else {
            0nat
        }),
{
    assert((seq![a] + t).len() == 1 + t.len());
    assert((seq![a] + t).first() == a);
    assert((seq![a] + t).drop_first() =~= t);
}

/// How `remove_first` changes occurrence counts and length.
pub proof fn lemma_remove_first(s: Seq<u64>, x: u64, y: u64)
    ensures
        occ(s, x) == 0 ==> remove_first(s, x) == s,
        occ(s, x) > 0 ==> remove_first(s, x).len() == s.len() - 1,
        x == y && occ(s, x) > 0 ==> occ(remove_first(s, x), y) == occ(s, y) - 1,
        x != y || occ(s, x) == 0 ==> occ(remove_first(s, x), y) == occ(s, y),
    decreases s.len(),
{
    if s.len() == 0 {
    } else if s.first() == x {
    } else {
        lemma_remove_first(s.drop_first(), x, y);
        lemma_occ_cons(s.first(), remove_first(s.drop_first(), x), y);
        if occ(s, x) == 0 {
            assert(seq![s.first()] + remove_first(s.drop_first(), x) =~= s);
        }
    }
}

/// Properties of dropping every entry keyed `id`.
pub proof fn lemma_entries_without(m: AdjModel, id: u64)
    requires
        keys_unique(m),
    ensures
        keys_unique(entries_without(m, id)),
        !has_key(entries_without(m, id), id),
        forall|c: u64|
            c != id ==> (#[trigger] has_key(entries_without(m, id), c) <==> has_key(m, c)),
        forall|c: u64|
            c != id ==> #[trigger] nbs(entries_without(m, id), c) == nbs(m, c),
        has_key(m, id) ==> entries_without(m, id).len() == m.len() - 1,
        !has_key(m, id) ==> entries_without(m, id) == m,
    decreases m.len(),
{
    let ew = entries_without(m, id);
    if m.len() == 0 {
        assert forall|c: u64| c != id implies #[trigger] nbs(ew, c) == nbs(m, c) by {}
    } else {
        let t = m.drop_first();
        assert(keys_unique(t)) by {
            assert forall|i: int, j: int| 0 <= i < j < t.len() implies (#[trigger] t[i]).0 != (
            #[trigger] t[j]).0 by {
                assert(t[i] == m[i + 1] && t[j] == m[j + 1]);
            }
        }
        lemma_entries_without(t, id);
        let ewt = entries_without(t, id);
        // relate keys of m with first + keys of t
        assert forall|c: u64| #[trigger] has_key(m, c) implies (m.first().0 == c || has_key(
            t,
            c,
        )) by {
            let i = choose|i: int| 0 <= i < m.len() && (#[trigger] m[i]).0 == c;
            if i > 0 {
                assert(t[i - 1] == m[i]);
            }
        }
        assert forall|c: u64| has_key(t, c) implies #[trigger] has_key(m, c) by {
            let i = choose|i: int| 0 <= i < t.len() && (#[trigger] t[i]).0 == c;
            assert(m[i + 1] == t[i]);
        }
        if m.first().0 == id {
            // first entry dropped: ew == ewt
            assert(ew == ewt);
            assert forall|c: u64| c != id implies #[trigger] nbs(ew, c) == nbs(m, c) by {
                if has_key(m, c) {
                    // c != id == m.first().0, so c sits in t
                    assert(has_key(t, c));
                    let j = key_idx(m, c);
                    assert(m[j].0 == c);
                    assert(j > 0);
                    lemma_key_at(m, j);
                    assert(t[j - 1] == m[j]);
                    lemma_key_at(t, j - 1);
                    assert(nbs(t, c) == nbs(m, c));
                } else {
                    assert(!has_key(t, c));
                    lemma_no_key(m, c);
                    lemma_no_key(ew, c);
                }
            }
            // has_key(m, id), and id occurs only at index 0 by uniqueness
            assert(has_key(m, id)) by {
                assert(m[0].0 == id);
            }
            assert(!has_key(t, id)) by {
                if has_key(t, id) {
                    let i = choose|i: int| 0 <= i < t.len() && (#[trigger] t[i]).0 == id;
                    assert(m[i + 1].0 == id && m[0].0 == id);
                    assert(false);
                }
            }
            assert(ewt == t);
            assert(ew.len() == m.len() - 1);
        } else {
            // first entry kept: ew == seq![m.first()] + ewt
            assert(ew == seq![m.first()] + ewt);
            assert(ew.len() == 1 + ewt.len());
            assert(ew[0] == m.first());
            assert forall|i: int| 0 <= i < ewt.len() implies ew[i + 1] == ewt[i] by {}
            // keys_unique(ew): ew[0].0 differs from all keys of ewt
            assert(keys_unique(ew)) by {
                assert forall|i: int, j: int| 0 <= i < j < ew.len() implies (#[trigger] ew[i]).0
                    != (#[trigger] ew[j]).0 by {
                    if i == 0 {
                        // ew[j] is an entry of ewt, hence of t
                        assert(ew[j] == ewt[j - 1]);
                        assert(has_key(ewt, ewt[j - 1].0)) by {
                            assert((#[trigger] ewt[j - 1]).0 == ewt[j - 1].0);
                        }
                        if ewt[j - 1].0 == m.first().0 {
                            assert(has_key(t, m.first().0));
                            let k = choose|k: int|
                                0 <= k < t.len() && (#[trigger] t[k]).0 == m.first().0;
                            assert(m[k + 1].0 == m.first().0 && m[0].0 == m.first().0);
                            assert(false);
                        }
                    } else {
                        assert(ew[i] == ewt[i - 1] && ew[j] == ewt[j - 1]);
                    }
                }
            }
            // key membership in ew
            assert forall|c: u64| c != id implies (#[trigger] has_key(ew, c) <==> has_key(
                m,
                c,
            )) by {
                if has_key(ew, c) {
                    let i = choose|i: int| 0 <= i < ew.len() && (#[trigger] ew[i]).0 == c;
                    if i == 0 {
                        assert(m[0].0 == c);
                    } else {
                        assert(ewt[i - 1].0 == c);
                        assert(has_key(ewt, c));
                    }
                }
                if has_key(m, c) {
                    if m.first().0 == c {
                        assert(ew[0].0 == c);
                    } else {
                        assert(has_key(t, c));
                        assert(has_key(ewt, c));
                        let i = choose|i: int| 0 <= i < ewt.len() && (#[trigger] ewt[i]).0 == c;
                        assert(ew[i + 1].0 == c);
                    }
                }
            }
            assert(!has_key(ew, id)) by {
                if has_key(ew, id) {
                    let i = choose|i: int| 0 <= i < ew.len() && (#[trigger] ew[i]).0 == id;
                    if i == 0 {
                    } else {
                        assert(ewt[i - 1].0 == id);
                        assert(has_key(ewt, id));
                    }
                    assert(false);
                }
            }
            // neighbor lists preserved
            assert forall|c: u64| c != id implies #[trigger] nbs(ew, c) == nbs(m, c) by {
                if has_key(m, c) {
                    let j = key_idx(m, c);
                    lemma_key_at(m, j);
                    if j == 0 {
                        lemma_key_at(ew, 0);
                        assert(nbs(ew, c) == ew[0].1);
                    } else {
                        assert(t[j - 1] == m[j]);
                        lemma_key_at(t, j - 1);
                        assert(nbs(t, c) == m[j].1);
                        assert(nbs(ewt, c) == nbs(t, c));
                        assert(has_key(ewt, c));
                        let k = key_idx(ewt, c);
                        lemma_key_at(ewt, k);
                        assert(ew[k + 1] == ewt[k]);
                        lemma_key_at(ew, k + 1);
                    }
                } else {
                    assert(!has_key(ew, c));
                    lemma_no_key(m, c);
                    lemma_no_key(ew, c);
                }
            }
            if has_key(m, id) {
                assert(has_key(t, id)) by {
                    let i = choose|i: int| 0 <= i < m.len() && (#[trigger] m[i]).0 == id;
                    assert(i > 0);
                    assert(t[i - 1] == m[i]);
                }
                assert(ew.len() == m.len() - 1);
            } else {
                assert(!has_key(t, id)) by {
                    if has_key(t, id) {
                        assert(has_key(m, id));
                    }
                }
                assert(ewt == t);
                assert(ew =~= m);
            }
        }
    }
}

/// How `push_nb` changes keys and neighbor lists.
pub proof fn lemma_push_nb(m: AdjModel, a: u64, b: u64)
    requires
        keys_unique(m),
    ensures
        keys_unique(push_nb(m, a, b)),
        nbs(push_nb(m, a, b), a) == nbs(m, a).push(b),
        forall|c: u64| c != a ==> #[trigger] nbs(push_nb(m, a, b), c) == nbs(m, c),
        forall|c: u64| #[trigger] has_key(push_nb(m, a, b), c) <==> (has_key(m, c) || c == a),
        push_nb(m, a, b).len() == m.len() + (if has_key(m, a) {
            0int
        } else {
            1int
        }),
{
    let m2 = push_nb(m, a, b);
    if has_key(m, a) {
        let i = key_idx(m, a);
        assert(0 <= i < m.len() && m[i].0 == a);
        assert(m2 == m.update(i, (a, m[i].1.push(b))));
        assert(forall|k: int| 0 <= k < m.len() ==> (#[trigger] m2[k]).0 == m[k].0);
        assert(keys_unique(m2));
        lemma_key_at(m, i);
        lemma_key_at(m2, i);
        assert(nbs(m2, a) == m[i].1.push(b));
        assert forall|c: u64| #[trigger] has_key(m2, c) <==> (has_key(m, c) || c == a) by {
            if has_key(m2, c) {
                let j = choose|j: int| 0 <= j < m2.len() && (#[trigger] m2[j]).0 == c;
                assert(m[j].0 == c);
            }
            if has_key(m, c) {
                let j = choose|j: int| 0 <= j < m.len() && (#[trigger] m[j]).0 == c;
                assert(m2[j].0 == c);
            }
        }
        assert forall|c: u64| c != a implies #[trigger] nbs(m2, c) == nbs(m, c) by {
            if has_key(m, c) {
                let j = key_idx(m, c);
                lemma_key_at(m, j);
                assert(j != i);
                assert(m2[j] == m[j]);
                lemma_key_at(m2, j);
            } else {
                assert(!has_key(m2, c));
                lemma_no_key(m, c);
                lemma_no_key(m2, c);
            }
        }
    } else {
        assert(m2 == m.push((a, seq![b])));
        assert(m2[m.len() as int] == (a, seq![b]));
        assert(forall|k: int| 0 <= k < m.len() ==> m2[k] == m[k]);
        assert(keys_unique(m2)) by {
            assert forall|i: int, j: int| 0 <= i < j < m2.len() implies (#[trigger] m2[i]).0 != (
            #[trigger] m2[j]).0 by {
                if j == m.len() {
                    if m2[i].0 == a {
                        assert((#[trigger] m[i]).0 == a);
                        assert(has_key(m, a));
                    }
                }
            }
        }
        lemma_key_at(m2, m.len() as int);
        assert(nbs(m2, a) == seq![b]);
        lemma_no_key(m, a);
        assert(Seq::<u64>::empty().push(b) =~= seq![b]);
        assert forall|c: u64| #[trigger] has_key(m2, c) <==> (has_key(m, c) || c == a) by {
            if has_key(m2, c) && c != a {
                let j = choose|j: int| 0 <= j < m2.len() && (#[trigger] m2[j]).0 == c;
                assert(j < m.len());
                assert(m[j].0 == c);
            }
            if has_key(m, c) {
                let j = choose|j: int| 0 <= j < m.len() && (#[trigger] m[j]).0 == c;
                assert(m2[j].0 == c);
            }
        }
        assert forall|c: u64| c != a implies #[trigger] nbs(m2, c) == nbs(m, c) by {
            if has_key(m, c) {
                let j = key_idx(m, c);
                lemma_key_at(m, j);
                assert(m2[j] == m[j]);
                lemma_key_at(m2, j);
            } else {
                assert(!has_key(m2, c));
                lemma_no_key(m, c);
                lemma_no_key(m2, c);
            }
        }
    }
}

/// How `scrub` changes keys and neighbor lists.
pub proof fn lemma_scrub(m: AdjModel, id: u64)
    requires
        keys_unique(m),
    ensures
        keys_unique(scrub(m, id)),
        !has_key(scrub(m, id), id),
        forall|c: u64| c != id ==> (#[trigger] has_key(scrub(m, id), c) <==> has_key(m, c)),
        nbs(scrub(m, id), id) == Seq::<u64>::empty(),
        forall|c: u64|
            c != id ==> #[trigger] nbs(scrub(m, id), c) == remove_first(nbs(m, c), id),
        has_key(m, id) ==> scrub(m, id).len() == m.len() - 1,
        !has_key(m, id) ==> scrub(m, id).len() == m.len(),
{
    lemma_entries_without(m, id);
    let ew = entries_without(m, id);
    let sc = scrub(m, id);
    assert(sc.len() == ew.len());
    assert(forall|i: int| 0 <= i < ew.len() ==> (#[trigger] sc[i]).0 == ew[i].0);
    assert(forall|i: int|
        0 <= i < ew.len() ==> (#[trigger] sc[i]).1 == remove_first(ew[i].1, id));
    assert(keys_unique(sc));
    assert forall|c: u64| #[trigger] has_key(sc, c) <==> has_key(ew, c) by {
        if has_key(sc, c) {
            let j = choose|j: int| 0 <= j < sc.len() && (#[trigger] sc[j]).0 == c;
            assert(ew[j].0 == c);
        }
        if has_key(ew, c) {
            let j = choose|j: int| 0 <= j < ew.len() && (#[trigger] ew[j]).0 == c;
            assert(sc[j].0 == c);
        }
    }
    lemma_no_key(sc, id);
    assert forall|c: u64| c != id implies #[trigger] nbs(sc, c) == remove_first(
        nbs(m, c),
        id,
    ) by {
        if has_key(m, c) {
            assert(has_key(ew, c));
            let j = key_idx(ew, c);
            lemma_key_at(ew, j);
            assert(nbs(ew, c) == ew[j].1);
            assert(sc[j].0 == c);
            lemma_key_at(sc, j);
            assert(nbs(sc, c) == remove_first(ew[j].1, id));
            assert(nbs(ew, c) == nbs(m, c));
        } else {
            assert(!has_key(ew, c));
            assert(!has_key(sc, c));
            lemma_no_key(m, c);
            lemma_no_key(sc, c);
            assert(remove_first(Seq::<u64>::empty(), id) == Seq::<u64>::empty());
        }
    }
}

// ----------------------------------------------------------------------
// The vertex map at spec level.
// ----------------------------------------------------------------------

/// Some entry carries identifier `id`.
pub open spec fn vhas(s: Seq<VertEntry>, id: u64) -> bool {
    exists|i: int| 0 <= i < s.len() && (#[trigger] s[i]).id == id
}

/// The index of the entry carrying `id` (unique when identifiers are).
pub open spec fn vidx(s: Seq<VertEntry>, id: u64) -> int {
    choose|i: int| 0 <= i < s.len() && (#[trigger] s[i]).id == id
}

/// The record stored under `id`.
pub open spec fn vget(s: Seq<VertEntry>, id: u64) -> Vertex {
    s[vidx(s, id)].v
}

/// No two entries share an identifier.
pub open spec fn vunique(s: Seq<VertEntry>) -> bool {
    forall|i: int, j: int|
        0 <= i < j < s.len() ==> (#[trigger] s[i]).id != (#[trigger] s[j]).id
}

/// Under unique identifiers, the entry at index `k` is the one `vget` reads.
pub proof fn lemma_ventry_at(s: Seq<VertEntry>, k: int)
    requires
        vunique(s),
        0 <= k < s.len(),
    ensures
        vhas(s, s[k].id),
        vidx(s, s[k].id) == k,
        vget(s, s[k].id) == s[k].v,
{
    assert(vhas(s, s[k].id));
    let j = vidx(s, s[k].id);
    assert(0 <= j < s.len() && s[j].id == s[k].id);
    if j < k {
        assert(false);
    } else if k < j {
        assert(false);
    }
}

/// Properties of dropping the vertex entry keyed `id`.
pub proof fn lemma_verts_without(s: Seq<VertEntry>, id: u64)
    requires
        vunique(s),
    ensures
        vunique(verts_without(s, id)),
        !vhas(verts_without(s, id), id),
        forall|c: u64| c != id ==> (#[trigger] vhas(verts_without(s, id), c) <==> vhas(s, c)),
        forall|c: u64|
            c != id && vhas(s, c) ==> #[trigger] vget(verts_without(s, id), c) == vget(s, c),
        vhas(s, id) ==> verts_without(s, id).len() == s.len() - 1,
        !vhas(s, id) ==> verts_without(s, id) == s,
    decreases s.len(),
{
    let vw = verts_without(s, id);
    if s.len() == 0 {
    } else {
        let t = s.drop_first();
        assert(vunique(t)) by {
            assert forall|i: int, j: int| 0 <= i < j < t.len() implies (#[trigger] t[i]).id != (
            #[trigger] t[j]).id by {
                assert(t[i] == s[i + 1] && t[j] == s[j + 1]);
            }
        }
        lemma_verts_without(t, id);
        let vwt = verts_without(t, id);
        assert forall|c: u64| #[trigger] vhas(s, c) implies (s.first().id == c || vhas(
            t,
            c,
        )) by {
            let i = choose|i: int| 0 <= i < s.len() && (#[trigger] s[i]).id == c;
            if i > 0 {
                assert(t[i - 1] == s[i]);
            }
        }
        assert forall|c: u64| vhas(t, c) implies #[trigger] vhas(s, c) by {
            let i = choose|i: int| 0 <= i < t.len() && (#[trigger] t[i]).id == c;
            assert(s[i + 1] == t[i]);
        }
        if s.first().id == id {
            assert(vw == vwt);
            assert(vhas(s, id)) by {
                assert(s[0].id == id);
            }
            assert(!vhas(t, id)) by {
                if vhas(t, id) {
                    let i = choose|i: int| 0 <= i < t.len() && (#[trigger] t[i]).id == id;
                    assert(s[i + 1].id == id && s[0].id == id);
                    assert(false);
                }
            }
            assert(vwt == t);
            assert forall|c: u64| c != id && vhas(s, c) implies #[trigger] vget(vw, c) == vget(
                s,
                c,
            ) by {
                assert(vhas(t, c));
                let j = vidx(s, c);
                assert(s[j].id == c);
                assert(j > 0);
                lemma_ventry_at(s, j);
                assert(t[j - 1] == s[j]);
                lemma_ventry_at(t, j - 1);
            }
        } else {
            assert(vw == seq![s.first()] + vwt);
            assert(vw[0] == s.first());
            assert(forall|i: int| 0 <= i < vwt.len() ==> vw[i + 1] == #[trigger] vwt[i]);
            assert(vunique(vw)) by {
                assert forall|i: int, j: int| 0 <= i < j < vw.len() implies (#[trigger] vw[i]).id
                    != (#[trigger] vw[j]).id by {
                    if i == 0 {
                        assert(vw[j] == vwt[j - 1]);
                        assert(vhas(vwt, vwt[j - 1].id)) by {
                            assert((#[trigger] vwt[j - 1]).id == vwt[j - 1].id);
                        }
                        if vwt[j - 1].id == s.first().id {
                            assert(vhas(t, s.first().id));
                            let k = choose|k: int|
                                0 <= k < t.len() && (#[trigger] t[k]).id == s.first().id;
                            assert(s[k + 1].id == s.first().id && s[0].id == s.first().id);
                            assert(false);
                        }
                    } else {
                        assert(vw[i] == vwt[i - 1] && vw[j] == vwt[j - 1]);
                    }
                }
            }
            assert forall|c: u64| c != id implies (#[trigger] vhas(vw, c) <==> vhas(s, c)) by {
                if vhas(vw, c) {
                    let i = choose|i: int| 0 <= i < vw.len() && (#[trigger] vw[i]).id == c;
                    if i == 0 {
                        assert(s[0].id == c);
                    } else {
                        assert(vwt[i - 1].id == c);
                        assert(vhas(vwt, c));
                    }
                }
                if vhas(s, c) {
                    if s.first().id == c {
                        assert(vw[0].id == c);
                    } else {
                        assert(vhas(t, c));
                        assert(vhas(vwt, c));
                        let i = choose|i: int| 0 <= i < vwt.len() && (#[trigger] vwt[i]).id == c;
                        assert(vw[i + 1].id == c);
                    }
                }
            }
            assert(!vhas(vw, id)) by {
                if vhas(vw, id) {
                    let i = choose|i: int| 0 <= i < vw.len() && (#[trigger] vw[i]).id == id;
                    if i == 0 {
                    } else {
                        assert(vwt[i - 1].id == id);
                        assert(vhas(vwt, id));
                    }
                    assert(false);
                }
            }
            assert forall|c: u64| c != id && vhas(s, c) implies #[trigger] vget(vw, c) == vget(
                s,
                c,
            ) by {
                let j = vidx(s, c);
                lemma_ventry_at(s, j);
                if j == 0 {
                    lemma_ventry_at(vw, 0);
                } else {
                    assert(t[j - 1] == s[j]);
                    lemma_ventry_at(t, j - 1);
                    assert(vget(t, c) == s[j].v);
                    assert(vhas(t, c));
                    assert(vget(vwt, c) == vget(t, c));
                    assert(vhas(vwt, c));
                    let k = vidx(vwt, c);
                    lemma_ventry_at(vwt, k);
                    assert(vw[k + 1] == vwt[k]);
                    lemma_ventry_at(vw, k + 1);
                }
            }
            if vhas(s, id) {
                assert(vhas(t, id)) by {
                    let i = choose|i: int| 0 <= i < s.len() && (#[trigger] s[i]).id == id;
                    assert(i > 0);
                    assert(t[i - 1] == s[i]);
                }
            } else {
                assert(!vhas(t, id)) by {
                    if vhas(t, id) {
                        assert(vhas(s, id));
                    }
                }
                assert(vwt == t);
                assert(vw =~= s);
            }
        }
    }
}

/// Removing the entry at the index where `id` sits (unique keys) is
/// `entries_without`.
pub proof fn lemma_remove_at_is_entries_without(m: AdjModel, e: int, id: u64)
    requires
        keys_unique(m),
        0 <= e < m.len(),
        m[e].0 == id,
    ensures
        m.remove(e) == entries_without(m, id),
    decreases m.len(),
{
    if e == 0 {
        assert(m.remove(0) =~= m.drop_first());
        let t = m.drop_first();
        assert(keys_unique(t)) by {
            assert forall|i: int, j: int| 0 <= i < j < t.len() implies (#[trigger] t[i]).0 != (
            #[trigger] t[j]).0 by {
                assert(t[i] == m[i + 1] && t[j] == m[j + 1]);
            }
        }
        assert(!has_key(t, id)) by {
            if has_key(t, id) {
                let i = choose|i: int| 0 <= i < t.len() && (#[trigger] t[i]).0 == id;
                assert(m[i + 1].0 == id && m[0].0 == id);
                assert(false);
            }
        }
        lemma_entries_without(t, id);
        assert(entries_without(m, id) == entries_without(t, id));
    } else {
        let t = m.drop_first();
        assert(keys_unique(t)) by {
            assert forall|i: int, j: int| 0 <= i < j < t.len() implies (#[trigger] t[i]).0 != (
            #[trigger] t[j]).0 by {
                assert(t[i] == m[i + 1] && t[j] == m[j + 1]);
            }
        }
        assert(t[e - 1] == m[e]);
        lemma_remove_at_is_entries_without(t, e - 1, id);
        assert(m.first().0 != id) by {
            assert(m[0].0 != m[e].0);
        }
        assert(entries_without(m, id) == seq![m.first()] + entries_without(t, id));
        assert(m.remove(e) =~= seq![m.first()] + t.remove(e - 1));
    }
}

/// Removing the entry at the index where `id` sits (unique identifiers) is
/// `verts_without`.
pub proof fn lemma_vremove_at_is_without(s: Seq<VertEntry>, e: int, id: u64)
    requires
        vunique(s),
        0 <= e < s.len(),
        s[e].id == id,
    ensures
        s.remove(e) == verts_without(s, id),
    decreases s.len(),
{
    if e == 0 {
        assert(s.remove(0) =~= s.drop_first());
        let t = s.drop_first();
        assert(vunique(t)) by {
            assert forall|i: int, j: int| 0 <= i < j < t.len() implies (#[trigger] t[i]).id != (
            #[trigger] t[j]).id by {
                assert(t[i] == s[i + 1] && t[j] == s[j + 1]);
            }
        }
        assert(!vhas(t, id)) by {
            if vhas(t, id) {
                let i = choose|i: int| 0 <= i < t.len() && (#[trigger] t[i]).id == id;
                assert(s[i + 1].id == id && s[0].id == id);
                assert(false);
            }
        }
        lemma_verts_without(t, id);
        assert(verts_without(s, id) == verts_without(t, id));
    } else {
        let t = s.drop_first();
        assert(vunique(t)) by {
            assert forall|i: int, j: int| 0 <= i < j < t.len() implies (#[trigger] t[i]).id != (
            #[trigger] t[j]).id by {
                assert(t[i] == s[i + 1] && t[j] == s[j + 1]);
            }
        }
        assert(t[e - 1] == s[e]);
        lemma_vremove_at_is_without(t, e - 1, id);
        assert(s.first().id != id) by {
            assert(s[0].id != s[e].id);
        }
        assert(verts_without(s, id) == seq![s.first()] + verts_without(t, id));
        assert(s.remove(e) =~= seq![s.first()] + t.remove(e - 1));
    }
}

/// Removing the first occurrence of `x` by index is `remove_first`.
pub proof fn lemma_list_remove_at(s: Seq<u64>, p: int, x: u64)
    requires
        0 <= p < s.len(),
        s[p] == x,
        forall|k: int| 0 <= k < p ==> s[k] != x,
    ensures
        s.remove(p) == remove_first(s, x),
    decreases s.len(),
{
    if p == 0 {
        assert(s.remove(0) =~= s.drop_first());
    } else {
        let t = s.drop_first();
        assert(t[p - 1] == s[p]);
        assert(forall|k: int| 0 <= k < p - 1 ==> t[k] == #[trigger] s[k + 1]);
        lemma_list_remove_at(t, p - 1, x);
        assert(s.first() != x) by {
            assert(s[0] != x);
        }
        assert(remove_first(s, x) == seq![s.first()] + remove_first(t, x));
        assert(s.remove(p) =~= seq![s.first()] + t.remove(p - 1));
    }
}

/// The first index carrying `x`, if any.
fn find_in_list(ns: &Vec<u64>, x: u64) -> (r: Option<usize>)
    ensures
        match r {
            Some(p) => p < ns@.len() && ns@[p as int] == x && (forall|k: int|
                0 <= k < p ==> ns@[k] != x),
            None => !ns@.contains(x),
        },
{
    let n = ns.len();
    let mut i: usize = 0;
    while i < n
        invariant
            n == ns@.len(),
            i <= n,
            forall|k: int| 0 <= k < i ==> ns@[k] != x,
        decreases n - i,
    {
        if ns[i] == x {
            return Some(i);
        }
        i = i + 1;
    }
    proof {
        if ns@.contains(x) {
            let k = choose|k: int| 0 <= k < ns@.len() && ns@[k] == x;
            assert(ns@[k] != x);
        }
    }
    None
}

/// There is an attribute entry keyed by the canonical pair of `a` and `b`.
pub open spec fn dc_has(dcs: Seq<DcEntry>, a: u64, b: u64) -> bool {
    exists|i: int|
        0 <= i < dcs.len() && (#[trigger] dcs[i]).a == canon(a, b).0 && dcs[i].b == canon(
            a,
            b,
        ).1
}

/// The index of that entry.
pub open spec fn dc_idx(dcs: Seq<DcEntry>, a: u64, b: u64) -> int {
    choose|i: int|
        0 <= i < dcs.len() && (#[trigger] dcs[i]).a == canon(a, b).0 && dcs[i].b == canon(
            a,
            b,
        ).1
}

/// The attribute stored for the unordered pair of `a` and `b`, if any.
pub open spec fn dc_spec(dcs: Seq<DcEntry>, a: u64, b: u64) -> Option<i64> {
    if dc_has(dcs, a, b) {
        Some(dcs[dc_idx(dcs, a, b)].val)
    } else {
        None
    }
}

/// `x` is listed in `ns`.
pub fn list_has(ns: &Vec<u64>, x: u64) -> (r: bool)
    ensures
        r == ns@.contains(x),
{
    let n = ns.len();
    let mut i: usize = 0;
    while i < n
        invariant
            n == ns@.len(),
            i <= n,
            forall|k: int| 0 <= k < i ==> ns@[k] != x,
        decreases n - i,
    {
        if ns[i] == x {
            proof {
                assert(ns@[i as int] == x);
            }
            return true;
        }
        i = i + 1;
    }
    proof {
        if ns@.contains(x) {
            let k = choose|k: int| 0 <= k < ns@.len() && ns@[k] == x;
            assert(ns@[k] != x);
        }
    }
    false
}

/// Occurrences of `x` in `ns`.
pub fn count_in_list(ns: &Vec<u64>, x: u64) -> (r: usize)
    ensures
        r == occ(ns@, x),
{
    let n = ns.len();
    let mut cnt: usize = 0;
    let mut i: usize = 0;
    proof {
        assert(ns@.take(0) =~= Seq::<u64>::empty());
    }
    while i < n
        invariant
            n == ns@.len(),
            i <= n,
            cnt <= i,
            cnt == occ(ns@.take(i as int), x),
        decreases n - i,
    {
        proof {
            assert(ns@.take(i + 1) =~= ns@.take(i as int).push(ns@[i as int]));
            lemma_occ_push(ns@.take(i as int), ns@[i as int], x);
        }
        if ns[i] == x {
            cnt = cnt + 1;
        }
        i = i + 1;
    }
    proof {
        assert(ns@.take(n as int) =~= ns@);
    }
    cnt
}

// ----------------------------------------------------------------------
// Validation of raw graph data (the load boundary).
// ----------------------------------------------------------------------

/// Why raw graph data was rejected.  Inconsistent data is a programming or
/// persistence error, reported loudly rather than repaired.
#[derive(Clone, Copy, PartialEq, Eq, Structural, Debug)]
pub enum GraphError {
    /// Two vertex entries share an identifier.
    DuplicateVertexId,
    /// A vertex position lies outside the representable range.
    VertexOutOfRange,
    /// A vertex identifier leaves no room for the allocation counter.
    IdSpaceExhausted,
    /// Two adjacency entries share a key.
    DuplicateAdjacencyKey,
    /// An adjacency entry is keyed by an unknown vertex.
    UnknownAdjacencyKey,
    /// A neighbor list names an unknown vertex.
    UnknownNeighbor,
    /// Adjacency is not symmetric.
    AsymmetricAdjacency,
    /// A pair of distinct vertices is connected more than once.
    DuplicateEdge,
    /// An attribute key is not in canonical (ascending) order.
    BadAttributeKey,
    /// Two attribute entries share a key.
    DuplicateAttributeKey,
}

/// Every vertex position is representable.
pub open spec fn verts_bounded(vs: Seq<VertEntry>) -> bool {
    forall|i: int| 0 <= i < vs.len() ==> (#[trigger] vs[i]).v.pos.in_bounds()
}

/// Every identifier leaves room for a counter above it.
pub open spec fn ids_fit(vs: Seq<VertEntry>) -> bool {
    forall|i: int| 0 <= i < vs.len() ==> (#[trigger] vs[i]).id < u64::MAX
}

/// Every adjacency key names a vertex.
pub open spec fn keys_live(vs: Seq<VertEntry>, m: AdjModel) -> bool {
    forall|i: int| 0 <= i < m.len() ==> vhas(vs, (#[trigger] m[i]).0)
}

/// Every listed neighbor names a vertex.
pub open spec fn neighbors_live(vs: Seq<VertEntry>, m: AdjModel) -> bool {
    forall|i: int, j: int|
        0 <= i < m.len() && 0 <= j < m[i].1.len() ==> vhas(vs, #[trigger] m[i].1[j])
}

/// Every attribute key is ascending.
pub open spec fn dcs_canonical(d: Seq<DcEntry>) -> bool {
    forall|i: int| 0 <= i < d.len() ==> (#[trigger] d[i]).a <= d[i].b
}

/// No two attribute entries share a key.
pub open spec fn dcs_unique(d: Seq<DcEntry>) -> bool {
    forall|i: int, j: int|
        0 <= i < j < d.len() ==> !((#[trigger] d[i]).a == (#[trigger] d[j]).a && d[i].b
            == d[j].b)
}

/// The first reason, in a fixed order of checks, to reject raw graph data;
/// `None` when it is accepted.
pub open spec fn parts_error(vs: Seq<VertEntry>, m: AdjModel, d: Seq<DcEntry>) -> Option<
    GraphError,
> {
    if !vunique(vs) {
        Some(GraphError::DuplicateVertexId)
    } else if !verts_bounded(vs) {
        Some(GraphError::VertexOutOfRange)
    } else if !ids_fit(vs) {
        Some(GraphError::IdSpaceExhausted)
    } else if !keys_unique(m) {
        Some(GraphError::DuplicateAdjacencyKey)
    } else if !keys_live(vs, m) {
        Some(GraphError::UnknownAdjacencyKey)
    } else if !neighbors_live(vs, m) {
        Some(GraphError::UnknownNeighbor)
    } else if !sym(m) {
        Some(GraphError::AsymmetricAdjacency)
    } else if !no_dup(m) {
        Some(GraphError::DuplicateEdge)
    } else if !dcs_canonical(d) {
        Some(GraphError::BadAttributeKey)
    } else if !dcs_unique(d) {
        Some(GraphError::DuplicateAttributeKey)
    } else {
        None
    }
}

/// The counter value just above every identifier: zero for no vertices.
pub open spec fn next_of(vs: Seq<VertEntry>) -> int
    decreases vs.len(),
{
    if vs.len() == 0 {
        0
    } else if next_of(vs.drop_last()) >= vs.last().id + 1 {
        next_of(vs.drop_last())
    } else {
        vs.last().id + 1
    }
}

/// Some entry carries identifier `id` (executable form of `vhas`).
fn vcontains(vs: &Vec<VertEntry>, id: u64) -> (r: bool)
    ensures
        r == vhas(vs@, id),
{
    let n = vs.len();
    let mut i: usize = 0;
    while i < n
        invariant
            n == vs@.len(),
            i <= n,
            forall|j: int| 0 <= j < i ==> (#[trigger] vs@[j]).id != id,
        decreases n - i,
    {
        if vs[i].id == id {
            proof {
                assert(vhas(vs@, id)) by {
                    assert((#[trigger] vs@[i as int]).id == id);
                }
            }
            return true;
        }
        i = i + 1;
    }
    proof {
        if vhas(vs@, id) {
            let j = choose|j: int| 0 <= j < vs@.len() && (#[trigger] vs@[j]).id == id;
            assert(vs@[j].id != id);
        }
    }
    false
}

/// Index of the adjacency entry keyed `id`, if any (free-standing form).
fn afind(adj: &Vec<AdjEntry>, id: u64) -> (r: Option<usize>)
    ensures
        match r {
            Some(i) => i < adj@.len() && adj@[i as int].id == id,
            None => !has_key(adj@.map_values(|e: AdjEntry| (e.id, e.ns@)), id),
        },
{
    let n = adj.len();
    let mut i: usize = 0;
    while i < n
        invariant
            n == adj@.len(),
            i <= n,
            forall|j: int| 0 <= j < i ==> (#[trigger] adj@[j]).id != id,
        decreases n - i,
    {
        if adj[i].id == id {
            return Some(i);
        }
        i = i + 1;
    }
    proof {
        let m = adj@.map_values(|e: AdjEntry| (e.id, e.ns@));
        if has_key(m, id) {
            let j = choose|j: int| 0 <= j < m.len() && (#[trigger] m[j]).0 == id;
            assert(adj@[j].id == id);
        }
    }
    None
}

/// The counter value is above every identifier.
proof fn lemma_next_of(vs: Seq<VertEntry>)
    ensures
        forall|i: int| 0 <= i < vs.len() ==> (#[trigger] vs[i]).id < next_of(vs),
        next_of(vs) >= 0,
    decreases vs.len(),
{
    if vs.len() > 0 {
        lemma_next_of(vs.drop_last());
        assert forall|i: int| 0 <= i < vs.len() implies (#[trigger] vs[i]).id < next_of(vs) by {
            if i < vs.len() - 1 {
                assert(vs.drop_last()[i] == vs[i]);
            }
        }
    }
}

/// Executable check of `vunique`.
fn check_vunique(vs: &Vec<VertEntry>) -> (r: bool)
    ensures
        r == vunique(vs@),
{
    let n = vs.len();
    let mut i: usize = 0;
    while i < n
        invariant
            n == vs@.len(),
            i <= n,
            forall|p: int, q: int|
                0 <= p < q < n && p < i ==> (#[trigger] vs@[p]).id != (#[trigger] vs@[q]).id,
        decreases n - i,
    {
        let mut j: usize = i + 1;
        while j < n
            invariant
                n == vs@.len(),
                i < n,
                i + 1 <= j <= n,
                forall|q: int| i < q < j ==> (#[trigger] vs@[q]).id != vs@[i as int].id,
            decreases n - j,
        {
            if vs[j].id == vs[i].id {
                proof {
                    if vunique(vs@) {
                        assert((#[trigger] vs@[i as int]).id != (#[trigger] vs@[j as int]).id);
                    }
                }
                return false;
            }
            j = j + 1;
        }
        i = i + 1;
    }
    true
}

/// Executable check of `verts_bounded`.
fn check_bounds(vs: &Vec<VertEntry>) -> (r: bool)
    ensures
        r == verts_bounded(vs@),
{
    let n = vs.len();
    let mut i: usize = 0;
    while i < n
        invariant
            n == vs@.len(),
            i <= n,
            forall|j: int| 0 <= j < i ==> (#[trigger] vs@[j]).v.pos.in_bounds(),
        decreases n - i,
    {
        let p = vs[i].v.pos;
        if p.x < -COORD_LIMIT || p.x > COORD_LIMIT || p.y < -COORD_LIMIT || p.y > COORD_LIMIT {
            proof {
                assert(!(#[trigger] vs@[i as int]).v.pos.in_bounds());
            }
            return false;
        }
        i = i + 1;
    }
    true
}

/// Executable check of `ids_fit`.
fn check_ids_fit(vs: &Vec<VertEntry>) -> (r: bool)
    ensures
        r == ids_fit(vs@),
{
    let n = vs.len();
    let mut i: usize = 0;
    while i < n
        invariant
            n == vs@.len(),
            i <= n,
            forall|j: int| 0 <= j < i ==> (#[trigger] vs@[j]).id < u64::MAX,
        decreases n - i,
    {
        if vs[i].id == u64::MAX {
            proof {
                assert((#[trigger] vs@[i as int]).id == u64::MAX);
            }
            return false;
        }
        i = i + 1;
    }
    true
}

/// Executable check of `keys_unique` on the adjacency.
fn check_keys_unique(adj: &Vec<AdjEntry>) -> (r: bool)
    ensures
        r == keys_unique(adj@.map_values(|e: AdjEntry| (e.id, e.ns@))),
{
    let ghost m = adj@.map_values(|e: AdjEntry| (e.id, e.ns@));
    let n = adj.len();
    let mut i: usize = 0;
    while i < n
        invariant
            n == adj@.len(),
            m == adj@.map_values(|e: AdjEntry| (e.id, e.ns@)),
            i <= n,
            forall|p: int, q: int|
                0 <= p < q < n && p < i ==> (#[trigger] m[p]).0 != (#[trigger] m[q]).0,
        decreases n - i,
    {
        let mut j: usize = i + 1;
        while j < n
            invariant
                n == adj@.len(),
                m == adj@.map_values(|e: AdjEntry| (e.id, e.ns@)),
                i < n,
                i + 1 <= j <= n,
                forall|q: int| i < q < j ==> (#[trigger] m[q]).0 != m[i as int].0,
            decreases n - j,
        {
            if adj[j].id == adj[i].id {
                proof {
                    if keys_unique(m) {
                        assert((#[trigger] m[i as int]).0 != (#[trigger] m[j as int]).0);
                    }
                }
                return false;
            }
            j = j + 1;
        }
        i = i + 1;
    }
    true
}

/// Executable check of `keys_live`.
fn check_keys_live(vs: &Vec<VertEntry>, adj: &Vec<AdjEntry>) -> (r: bool)
    ensures
        r == keys_live(vs@, adj@.map_values(|e: AdjEntry| (e.id, e.ns@))),
{
    let ghost m = adj@.map_values(|e: AdjEntry| (e.id, e.ns@));
    let n = adj.len();
    let mut i: usize = 0;
    while i < n
        invariant
            n == adj@.len(),
            m == adj@.map_values(|e: AdjEntry| (e.id, e.ns@)),
            i <= n,
            forall|j: int| 0 <= j < i ==> vhas(vs@, (#[trigger] m[j]).0),
        decreases n - i,
    {
        if !vcontains(vs, adj[i].id) {
            proof {
                assert(!vhas(vs@, (#[trigger] m[i as int]).0));
            }
            return false;
        }
        i = i + 1;
    }
    true
}

/// Executable check of `neighbors_live`.
fn check_neighbors_live(vs: &Vec<VertEntry>, adj: &Vec<AdjEntry>) -> (r: bool)
    ensures
        r == neighbors_live(vs@, adj@.map_values(|e: AdjEntry| (e.id, e.ns@))),
{
    let ghost m = adj@.map_values(|e: AdjEntry| (e.id, e.ns@));
    let n = adj.len();
    let mut i: usize = 0;
    while i < n
        invariant
            n == adj@.len(),
            m == adj@.map_values(|e: AdjEntry| (e.id, e.ns@)),
            i <= n,
            forall|p: int, q: int|
                0 <= p < i && 0 <= q < m[p].1.len() ==> vhas(vs@, #[trigger] m[p].1[q]),
        decreases n - i,
    {
        let ns_len = adj[i].ns.len();
        let mut j: usize = 0;
        while j < ns_len
            invariant
                n == adj@.len(),
                m == adj@.map_values(|e: AdjEntry| (e.id, e.ns@)),
                i < n,
                ns_len == m[i as int].1.len(),
                j <= ns_len,
                forall|q: int| 0 <= q < j ==> vhas(vs@, #[trigger] m[i as int].1[q]),
            decreases ns_len - j,
        {
            if !vcontains(vs, adj[i].ns[j]) {
                proof {
                    assert(!vhas(vs@, #[trigger] m[i as int].1[j as int]));
                }
                return false;
            }
            j = j + 1;
        }
        i = i + 1;
    }
    true
}

/// Executable check of `sym` (under unique keys).
fn check_sym(adj: &Vec<AdjEntry>) -> (r: bool)
    requires
        keys_unique(adj@.map_values(|e: AdjEntry| (e.id, e.ns@))),
    ensures
        r == sym(adj@.map_values(|e: AdjEntry| (e.id, e.ns@))),
{
    let ghost m = adj@.map_values(|e: AdjEntry| (e.id, e.ns@));
    let n = adj.len();
    let mut i: usize = 0;
    while i < n
        invariant
            n == adj@.len(),
            m == adj@.map_values(|e: AdjEntry| (e.id, e.ns@)),
            keys_unique(m),
            i <= n,
            forall|p: int, q: int|
                0 <= p < i && 0 <= q < m[p].1.len() ==> #[trigger] occ(nbs(m, m[p].0), m[p].1[q])
                    == occ(nbs(m, m[p].1[q]), m[p].0),
        decreases n - i,
    {
        let ns_len = adj[i].ns.len();
        let mut j: usize = 0;
        while j < ns_len
            invariant
                n == adj@.len(),
                m == adj@.map_values(|e: AdjEntry| (e.id, e.ns@)),
                keys_unique(m),
                i < n,
                ns_len == m[i as int].1.len(),
                j <= ns_len,
                forall|q: int|
                    0 <= q < j ==> #[trigger] occ(nbs(m, m[i as int].0), m[i as int].1[q]) == occ(
                        nbs(m, m[i as int].1[q]),
                        m[i as int].0,
                    ),
            decreases ns_len - j,
        {
            let a = adj[i].id;
            let b = adj[i].ns[j];
            proof {
                assert(m[i as int].0 == a);
                lemma_key_at(m, i as int);
                assert(nbs(m, a) == m[i as int].1);
            }
            let ca = count_in_list(&adj[i].ns, b);
            let found = afind(adj, b);
            let cb = match found {
                Some(k) => {
                    proof {
                        assert(m[k as int].0 == b);
                        lemma_key_at(m, k as int);
                        assert(nbs(m, b) == m[k as int].1);
                    }
                    count_in_list(&adj[k].ns, a)
                },
                None => {
                    proof {
                        lemma_no_key(m, b);
                    }
                    0
                },
            };
            if ca != cb {
                proof {
                    if sym(m) {
                        assert(occ(nbs(m, a), b) == occ(nbs(m, b), a));
                    }
                }
                return false;
            }
            j = j + 1;
        }
        i = i + 1;
    }
    proof {
        assert forall|a: u64, b: u64| #[trigger] occ(nbs(m, a), b) == occ(nbs(m, b), a) by {
            lemma_occ_contains(nbs(m, a), b);
            lemma_occ_contains(nbs(m, b), a);
            if occ(nbs(m, a), b) > 0 {
                assert(has_key(m, a)) by {
                    if !has_key(m, a) {
                        lemma_no_key(m, a);
                    }
                }
                let p = key_idx(m, a);
                lemma_key_at(m, p);
                let q = choose|q: int| 0 <= q < nbs(m, a).len() && nbs(m, a)[q] == b;
                assert(occ(nbs(m, m[p].0), m[p].1[q]) == occ(nbs(m, m[p].1[q]), m[p].0));
            } else if occ(nbs(m, b), a) > 0 {
                assert(has_key(m, b)) by {
                    if !has_key(m, b) {
                        lemma_no_key(m, b);
                    }
                }
                let p = key_idx(m, b);
                lemma_key_at(m, p);
                let q = choose|q: int| 0 <= q < nbs(m, b).len() && nbs(m, b)[q] == a;
                assert(occ(nbs(m, m[p].0), m[p].1[q]) == occ(nbs(m, m[p].1[q]), m[p].0));
            }
        }
    }
    true
}

/// Executable check of `no_dup` (under unique keys).
fn check_nodup(adj: &Vec<AdjEntry>) -> (r: bool)
    requires
        keys_unique(adj@.map_values(|e: AdjEntry| (e.id, e.ns@))),
    ensures
        r == no_dup(adj@.map_values(|e: AdjEntry| (e.id, e.ns@))),
{
    let ghost m = adj@.map_values(|e: AdjEntry| (e.id, e.ns@));
    let n = adj.len();
    let mut i: usize = 0;
    while i < n
        invariant
            n == adj@.len(),
            m == adj@.map_values(|e: AdjEntry| (e.id, e.ns@)),
            keys_unique(m),
            i <= n,
            forall|p: int, q: int|
                0 <= p < i && 0 <= q < m[p].1.len() && m[p].1[q] != m[p].0 ==> #[trigger] occ(
                    nbs(m, m[p].0),
                    m[p].1[q],
                ) <= 1,
        decreases n - i,
    {
        let ns_len = adj[i].ns.len();
        let mut j: usize = 0;
        while j < ns_len
            invariant
                n == adj@.len(),
                m == adj@.map_values(|e: AdjEntry| (e.id, e.ns@)),
                keys_unique(m),
                i < n,
                ns_len == m[i as int].1.len(),
                j <= ns_len,
                forall|q: int|
                    0 <= q < j && m[i as int].1[q] != m[i as int].0 ==> #[trigger] occ(
                        nbs(m, m[i as int].0),
                        m[i as int].1[q],
                    ) <= 1,
            decreases ns_len - j,
        {
            let a = adj[i].id;
            let b = adj[i].ns[j];
            proof {
                assert(m[i as int].0 == a);
                lemma_key_at(m, i as int);
                assert(nbs(m, a) == m[i as int].1);
            }
            if b != a {
                let ca = count_in_list(&adj[i].ns, b);
                if ca > 1 {
                    proof {
                        if no_dup(m) {
                            assert(occ(nbs(m, a), b) <= 1);
                        }
                    }
                    return false;
                }
            }
            j = j + 1;
        }
        i = i + 1;
    }
    proof {
        assert forall|a: u64, b: u64| a != b implies #[trigger] occ(nbs(m, a), b) <= 1 by {
            lemma_occ_contains(nbs(m, a), b);
            if occ(nbs(m, a), b) > 1 {
                assert(has_key(m, a)) by {
                    if !has_key(m, a) {
                        lemma_no_key(m, a);
                    }
                }
                let p = key_idx(m, a);
                lemma_key_at(m, p);
                let q = choose|q: int| 0 <= q < nbs(m, a).len() && nbs(m, a)[q] == b;
                assert(occ(nbs(m, m[p].0), m[p].1[q]) <= 1);
            }
        }
    }
    true
}

/// Executable check of `dcs_canonical`.
fn check_dcs_canonical(d: &Vec<DcEntry>) -> (r: bool)
    ensures
        r == dcs_canonical(d@),
{
    let n = d.len();
    let mut i: usize = 0;
    while i < n
        invariant
            n == d@.len(),
            i <= n,
            forall|j: int| 0 <= j < i ==> (#[trigger] d@[j]).a <= d@[j].b,
        decreases n - i,
    {
        if d[i].a > d[i].b {
            proof {
                assert((#[trigger] d@[i as int]).a > d@[i as int].b);
            }
            return false;
        }
        i = i + 1;
    }
    true
}

/// Executable check of `dcs_unique`.
fn check_dcs_unique(d: &Vec<DcEntry>) -> (r: bool)
    ensures
        r == dcs_unique(d@),
{
    let n = d.len();
    let mut i: usize = 0;
    while i < n
        invariant
            n == d@.len(),
            i <= n,
            forall|p: int, q: int|
                0 <= p < q < n && p < i ==> !((#[trigger] d@[p]).a == (#[trigger] d@[q]).a
                    && d@[p].b == d@[q].b),
        decreases n - i,
    {
        let mut j: usize = i + 1;
        while j < n
            invariant
                n == d@.len(),
                i < n,
                i + 1 <= j <= n,
                forall|q: int|
                    i < q < j ==> !((#[trigger] d@[q]).a == d@[i as int].a && d@[q].b
                        == d@[i as int].b),
            decreases n - j,
        {
            if d[j].a == d[i].a && d[j].b == d[i].b {
                proof {
                    if dcs_unique(d@) {
                        assert(!((#[trigger] d@[i as int]).a == (#[trigger] d@[j as int]).a
                            && d@[i as int].b == d@[j as int].b));
                    }
                }
                return false;
            }
            j = j + 1;
        }
        i = i + 1;
    }
    true
}

/// The counter value just above every identifier.
fn compute_next(vs: &Vec<VertEntry>) -> (r: u64)
    requires
        ids_fit(vs@),
    ensures
        r == next_of(vs@),
{
    let n = vs.len();
    let mut nid: u64 = 0;
    let mut i: usize = 0;
    proof {
        assert(vs@.take(0) =~= Seq::<VertEntry>::empty());
    }
    while i < n
        invariant
            n == vs@.len(),
            i <= n,
            ids_fit(vs@),
            nid == next_of(vs@.take(i as int)),
        decreases n - i,
    {
        proof {
            assert(vs@.take(i + 1).drop_last() =~= vs@.take(i as int));
            assert(vs@.take(i + 1).last() == vs@[i as int]);
            assert((#[trigger] vs@[i as int]).id < u64::MAX);
        }
        let id = vs[i].id;
        if id >= nid {
            nid = id + 1;
        }
        i = i + 1;
    }
    proof {
        assert(vs@.take(n as int) =~= vs@);
    }
    nid
}

// ----------------------------------------------------------------------
// The graph itself.
// ----------------------------------------------------------------------

/// The persistent graph state: vertex map, adjacency, edge attributes,
/// derived faces and border set, and the identifier counter.
#[derive(Debug)]
pub struct PlanarGraph {
    pub verts: Vec<VertEntry>,
    pub adj: Vec<AdjEntry>,
    pub dcs: Vec<DcEntry>,
    pub faces: Vec<Tri>,
    pub border: Vec<u64>,
    pub next_id: u64,
}

impl PlanarGraph {
    /// The adjacency structure as a sequence of (key, neighbor list) pairs.
    pub open spec fn amodel(self) -> AdjModel {
        self.adj@.map_values(|e: AdjEntry| (e.id, e.ns@))
    }

    /// A vertex with identifier `id` exists.
    pub open spec fn has_vert(self, id: u64) -> bool {
        vhas(self.verts@, id)
    }

    /// The record of the vertex `id`.
    pub open spec fn vert_of(self, id: u64) -> Vertex {
        vget(self.verts@, id)
    }

    /// The neighbor list of `id`, empty when `id` has no adjacency entry.
    pub open spec fn neighbors(self, id: u64) -> Seq<u64> {
        nbs(self.amodel(), id)
    }

    /// Every adjacency key and every listed neighbor is a live vertex.
    pub open spec fn adj_closed(self) -> bool {
        &&& forall|c: u64| #[trigger] has_key(self.amodel(), c) ==> self.has_vert(c)
        &&& forall|c: u64, j: int|
            0 <= j < nbs(self.amodel(), c).len() ==> self.has_vert(
                #[trigger] nbs(self.amodel(), c)[j],
            )
    }

    /// Attribute keys are canonical (ascending) and pairwise distinct.
    pub open spec fn dcs_wf(self) -> bool {
        &&& forall|i: int| 0 <= i < self.dcs@.len() ==> (#[trigger] self.dcs@[i]).a <= self.dcs@[i].b
        &&& forall|i: int, j: int|
            0 <= i < j < self.dcs@.len() ==> !((#[trigger] self.dcs@[i]).a == (
            #[trigger] self.dcs@[j]).a && self.dcs@[i].b == self.dcs@[j].b)
    }

    /// Vertex records hold representable positions, and every identifier is
    /// below the allocation counter (so fresh identifiers are really fresh).
    pub open spec fn verts_ok(self) -> bool {
        forall|i: int|
            0 <= i < self.verts@.len() ==> ((#[trigger] self.verts@[i]).v.pos.in_bounds()
                && self.verts@[i].id < self.next_id)
    }

    /// Cached faces and border flags only name live vertices.
    pub open spec fn derived_closed(self) -> bool {
        &&& forall|i: int|
            0 <= i < self.faces@.len() ==> (self.has_vert((#[trigger] self.faces@[i]).a)
                && self.has_vert(self.faces@[i].b) && self.has_vert(self.faces@[i].c))
        &&& forall|i: int| 0 <= i < self.border@.len() ==> self.has_vert(#[trigger] self.border@[i])
    }

    /// Well-formedness: the invariant every operation preserves.
    pub open spec fn wf(self) -> bool {
        &&& vunique(self.verts@)
        &&& keys_unique(self.amodel())
        &&& self.adj_closed()
        &&& sym(self.amodel())
        &&& no_dup(self.amodel())
        &&& self.dcs_wf()
        &&& self.verts_ok()
        &&& self.derived_closed()
    }

    /// The empty graph.
    pub fn new() -> (g: PlanarGraph)
        ensures
            g.wf(),
            g.verts@ == Seq::<VertEntry>::empty(),
            g.amodel() == Seq::<(u64, Seq<u64>)>::empty(),
            g.dcs@ == Seq::<DcEntry>::empty(),
            g.faces@ == Seq::<Tri>::empty(),
            g.border@ == Seq::<u64>::empty(),
            g.next_id == 0,
    {
        let g = PlanarGraph {
            verts: Vec::new(),
            adj: Vec::new(),
            dcs: Vec::new(),
            faces: Vec::new(),
            border: Vec::new(),
            next_id: 0,
        };
        proof {
            assert(g.amodel() =~= Seq::<(u64, Seq<u64>)>::empty());
            assert forall|a: u64, b: u64| #[trigger] occ(nbs(g.amodel(), a), b) == occ(
                nbs(g.amodel(), b),
                a,
            ) by {
                lemma_no_key(g.amodel(), a);
                lemma_no_key(g.amodel(), b);
            }
            assert forall|a: u64, b: u64| a != b implies #[trigger] occ(nbs(g.amodel(), a), b)
                <= 1 by {
                lemma_no_key(g.amodel(), a);
            }
        }
        g
    }

    /// Index of the vertex entry keyed `id`, if any.
    pub(crate) fn find_vert(&self, id: u64) -> (r: Option<usize>)
        ensures
            match r {
                Some(i) => i < self.verts@.len() && self.verts@[i as int].id == id,
                None => !self.has_vert(id),
            },
    {
        let n = self.verts.len();
        let mut i: usize = 0;
        while i < n
            invariant
                n == self.verts@.len(),
                i <= n,
                forall|j: int| 0 <= j < i ==> (#[trigger] self.verts@[j]).id != id,
            decreases n - i,
        {
            if self.verts[i].id == id {
                return Some(i);
            }
            i = i + 1;
        }
        None
    }

    /// Index of the adjacency entry keyed `id`, if any.
    fn find_adj(&self, id: u64) -> (r: Option<usize>)
        ensures
            match r {
                Some(i) => i < self.adj@.len() && self.adj@[i as int].id == id,
                None => !has_key(self.amodel(), id),
            },
    {
        let n = self.adj.len();
        let mut i: usize = 0;
        while i < n
            invariant
                n == self.adj@.len(),
                i <= n,
                forall|j: int| 0 <= j < i ==> (#[trigger] self.adj@[j]).id != id,
            decreases n - i,
        {
            if self.adj[i].id == id {
                return Some(i);
            }
            i = i + 1;
        }
        proof {
            if has_key(self.amodel(), id) {
                let j = choose|j: int|
                    0 <= j < self.amodel().len() && (#[trigger] self.amodel()[j]).0 == id;
                assert(self.adj@[j].id == id);
            }
        }
        None
    }

    /// Returns a fresh, never-before-issued identifier: a pure counter
    /// increment.
    pub fn alloc_id(&mut self) -> (id: u64)
        requires
            old(self).next_id < u64::MAX,
        ensures
            id == old(self).next_id,
            final(self).next_id == old(self).next_id + 1,
            final(self).verts@ == old(self).verts@,
            final(self).adj@ == old(self).adj@,
            final(self).amodel() == old(self).amodel(),
            final(self).dcs@ == old(self).dcs@,
            final(self).faces@ == old(self).faces@,
            final(self).border@ == old(self).border@,
            old(self).wf() ==> final(self).wf(),
    {
        let id = self.next_id;
        self.next_id = self.next_id + 1;
        id
    }

    /// The canonical form of an unordered vertex pair, used as the key of
    /// the edge-attribute map and for render-time edge deduplication.
    pub fn edge_key(a: u64, b: u64) -> (r: (u64, u64))
        ensures
            r == canon(a, b),
    {
        if a <= b {
            (a, b)
        } else {
            (b, a)
        }
    }

    /// `b` is listed under `a` or `a` under `b` (a defensive double check;
    /// under symmetry the two agree).
    pub fn has_edge(&self, a: u64, b: u64) -> (r: bool)
        requires
            keys_unique(self.amodel()),
        ensures
            r == (self.neighbors(a).contains(b) || self.neighbors(b).contains(a)),
    {
        let fa = self.contains_neighbor(a, b);
        let fb = self.contains_neighbor(b, a);
        fa || fb
    }

    /// `x` is listed in the neighbor list of `a`.
    fn contains_neighbor(&self, a: u64, x: u64) -> (r: bool)
        requires
            keys_unique(self.amodel()),
        ensures
            r == self.neighbors(a).contains(x),
    {
        match self.find_adj(a) {
            Some(i) => {
                proof {
                    assert(self.amodel()[i as int].0 == a);
                    lemma_key_at(self.amodel(), i as int);
                    assert(self.neighbors(a) == self.adj@[i as int].ns@);
                }
                let ns = &self.adj[i].ns;
                let n = ns.len();
                let mut j: usize = 0;
                while j < n
                    invariant
                        n == ns@.len(),
                        j <= n,
                        self.neighbors(a) == ns@,
                        forall|k: int| 0 <= k < j ==> ns@[k] != x,
                    decreases n - j,
                {
                    if ns[j] == x {
                        proof {
                            assert(self.neighbors(a)[j as int] == x);
                        }
                        return true;
                    }
                    j = j + 1;
                }
                proof {
                    if self.neighbors(a).contains(x) {
                        let k = choose|k: int|
                            0 <= k < ns@.len() && ns@[k] == x;
                        assert(ns@[k] != x);
                    }
                }
                false
            },
            None => {
                proof {
                    lemma_no_key(self.amodel(), a);
                }
                false
            },
        }
    }

    /// Inserts or overwrites the vertex record of `id`: texture coordinate
    /// equal to the position, inverse mass one.
    pub fn insert_vertex(&mut self, id: u64, pos: Vec2)
        requires
            old(self).wf(),
            pos.in_bounds(),
            id < old(self).next_id,
        ensures
            final(self).wf(),
            ({
                let e = VertEntry { id, v: Vertex { pos, tex: pos, im: SCALE } };
                if old(self).has_vert(id) {
                    final(self).verts@ == old(self).verts@.update(vidx(old(self).verts@, id), e)
                } else {
                    final(self).verts@ == old(self).verts@.push(e)
                }
            }),
            final(self).adj@ == old(self).adj@,
            final(self).amodel() == old(self).amodel(),
            final(self).dcs@ == old(self).dcs@,
            final(self).faces@ == old(self).faces@,
            final(self).border@ == old(self).border@,
            final(self).next_id == old(self).next_id,
            final(self).has_vert(id),
            final(self).vert_of(id) == (Vertex { pos, tex: pos, im: SCALE }),
            forall|c: u64|
                c != id ==> (#[trigger] final(self).has_vert(c) <==> old(self).has_vert(c)),
            forall|c: u64|
                c != id && old(self).has_vert(c) ==> #[trigger] final(self).vert_of(c) == old(
                    self,
                ).vert_of(c),
    {
        let e = VertEntry { id, v: Vertex { pos, tex: pos, im: SCALE } };
        let found = self.find_vert(id);
        match found {
            Some(i) => {
                proof {
                    lemma_ventry_at(self.verts@, i as int);
                }
                self.verts[i] = e;
                proof {
                    let vs0 = old(self).verts@;
                    let vs1 = self.verts@;
                    assert(vs1 == vs0.update(i as int, e));
                    assert(vunique(vs1)) by {
                        assert(forall|k: int| 0 <= k < vs1.len() ==> (#[trigger] vs1[k]).id == vs0[k].id);
                    }
                    lemma_ventry_at(vs1, i as int);
                    assert forall|c: u64|
                        c != id implies (#[trigger] vhas(vs1, c) <==> vhas(vs0, c)) by {
                        if vhas(vs1, c) {
                            let j = choose|j: int| 0 <= j < vs1.len() && (#[trigger] vs1[j]).id == c;
                            assert(vs0[j].id == c);
                        }
                        if vhas(vs0, c) {
                            let j = choose|j: int| 0 <= j < vs0.len() && (#[trigger] vs0[j]).id == c;
                            assert(vs1[j].id == c);
                        }
                    }
                    assert forall|c: u64|
                        c != id && vhas(vs0, c) implies #[trigger] vget(vs1, c) == vget(
                        vs0,
                        c,
                    ) by {
                        let j = vidx(vs0, c);
                        lemma_ventry_at(vs0, j);
                        assert(vs1[j] == vs0[j]);
                        lemma_ventry_at(vs1, j);
                    }
                    self.lemma_wf_after_vert_change(*old(self));
                }
            },
            None => {
                self.verts.push(e);
                proof {
                    let vs0 = old(self).verts@;
                    let vs1 = self.verts@;
                    assert(vs1 == vs0.push(e));
                    assert(vs1[vs0.len() as int] == e);
                    assert(forall|k: int| 0 <= k < vs0.len() ==> vs1[k] == vs0[k]);
                    assert(vunique(vs1)) by {
                        assert forall|i: int, j: int| 0 <= i < j < vs1.len() implies (
                        #[trigger] vs1[i]).id != (#[trigger] vs1[j]).id by {
                            if j == vs0.len() {
                                if vs1[i].id == id {
                                    assert((#[trigger] vs0[i]).id == id);
                                    assert(vhas(vs0, id));
                                }
                            }
                        }
                    }
                    lemma_ventry_at(vs1, vs0.len() as int);
                    assert forall|c: u64|
                        c != id implies (#[trigger] vhas(vs1, c) <==> vhas(vs0, c)) by {
                        if vhas(vs1, c) {
                            let j = choose|j: int| 0 <= j < vs1.len() && (#[trigger] vs1[j]).id == c;
                            assert(j < vs0.len());
                            assert(vs0[j].id == c);
                        }
                        if vhas(vs0, c) {
                            let j = choose|j: int| 0 <= j < vs0.len() && (#[trigger] vs0[j]).id == c;
                            assert(vs1[j].id == c);
                        }
                    }
                    assert forall|c: u64|
                        c != id && vhas(vs0, c) implies #[trigger] vget(vs1, c) == vget(
                        vs0,
                        c,
                    ) by {
                        let j = vidx(vs0, c);
                        lemma_ventry_at(vs0, j);
                        assert(vs1[j] == vs0[j]);
                        lemma_ventry_at(vs1, j);
                    }
                    self.lemma_wf_after_vert_change(*old(self));
                }
            },
        }
    }

    /// Lists `b` under `a` and `a` under `b`, creating adjacency entries as
    /// needed.  The caller must already have ruled out a duplicate: this
    /// primitive does not itself deduplicate.
    pub fn connect(&mut self, a: u64, b: u64)
        requires
            old(self).wf(),
            old(self).has_vert(a),
            old(self).has_vert(b),
            occ(old(self).neighbors(a), b) == 0,
        ensures
            final(self).wf(),
            final(self).verts@ == old(self).verts@,
            final(self).dcs@ == old(self).dcs@,
            final(self).faces@ == old(self).faces@,
            final(self).border@ == old(self).border@,
            final(self).next_id == old(self).next_id,
            final(self).amodel() == push_nb(push_nb(old(self).amodel(), a, b), b, a),
            a != b ==> final(self).neighbors(a) == old(self).neighbors(a).push(b),
            a != b ==> final(self).neighbors(b) == old(self).neighbors(b).push(a),
            a == b ==> final(self).neighbors(a) == old(self).neighbors(a).push(b).push(a),
            forall|c: u64|
                c != a && c != b ==> #[trigger] final(self).neighbors(c) == old(
                    self,
                ).neighbors(c),
    {
        let ghost m0 = self.amodel();
        match self.find_adj(a) {
            Some(i) => {
                proof {
                    assert(m0[i as int].0 == a);
                    lemma_key_at(m0, i as int);
                }
                self.adj[i].ns.push(b);
                proof {
                    assert(self.amodel() =~~= push_nb(m0, a, b));
                }
            },
            None => {
                let mut ns: Vec<u64> = Vec::new();
                ns.push(b);
                proof {
                    assert(ns@ =~= seq![b]);
                }
                self.adj.push(AdjEntry { id: a, ns });
                proof {
                    assert(self.amodel() =~~= push_nb(m0, a, b));
                }
            },
        }
        proof {
            lemma_push_nb(m0, a, b);
        }
        let ghost m1 = self.amodel();
        match self.find_adj(b) {
            Some(i) => {
                proof {
                    assert(m1[i as int].0 == b);
                    lemma_key_at(m1, i as int);
                }
                self.adj[i].ns.push(a);
                proof {
                    assert(self.amodel() =~~= push_nb(m1, b, a));
                }
            },
            None => {
                let mut ns: Vec<u64> = Vec::new();
                ns.push(a);
                proof {
                    assert(ns@ =~= seq![a]);
                }
                self.adj.push(AdjEntry { id: b, ns });
                proof {
                    assert(self.amodel() =~~= push_nb(m1, b, a));
                }
            },
        }
        proof {
            lemma_push_nb(m1, b, a);
            let m2 = self.amodel();
            let g0 = *old(self);
            // neighbor-list corollaries
            if a == b {
                assert(nbs(m2, a) == nbs(m1, a).push(a));
                assert(nbs(m1, a) == nbs(m0, a).push(b));
            } else {
                assert(nbs(m2, a) == nbs(m1, a));
                assert(nbs(m1, a) == nbs(m0, a).push(b));
                assert(nbs(m2, b) == nbs(m1, b).push(a));
                assert(nbs(m1, b) == nbs(m0, b));
            }
            assert forall|c: u64| c != a && c != b implies #[trigger] nbs(m2, c) == nbs(
                m0,
                c,
            ) by {
                assert(nbs(m2, c) == nbs(m1, c));
                assert(nbs(m1, c) == nbs(m0, c));
            }
            // occurrence counts in the new model
            assert forall|c: u64, d: u64| true implies #[trigger] occ(nbs(m2, c), d) == occ(
                nbs(m0, c),
                d,
            ) + (if c == a && d == b {
                1int
            } else {
                0int
            }) + (if c == b && d == a {
                1int
            } else {
                0int
            }) by {
                if a == b {
                    if c == a {
                        lemma_occ_push(nbs(m0, a).push(b), a, d);
                        lemma_occ_push(nbs(m0, a), b, d);
                    }
                } else {
                    if c == a {
                        lemma_occ_push(nbs(m0, a), b, d);
                    } else if c == b {
                        lemma_occ_push(nbs(m0, b), a, d);
                    }
                }
            }
            // symmetry
            assert forall|c: u64, d: u64| true implies #[trigger] occ(nbs(m2, c), d) == occ(
                nbs(m2, d),
                c,
            ) by {
                assert(occ(nbs(m0, c), d) == occ(nbs(m0, d), c));
            }
            // no duplicate edges
            assert forall|c: u64, d: u64| c != d implies #[trigger] occ(nbs(m2, c), d) <= 1 by {
                assert(occ(nbs(m0, c), d) == occ(nbs(m0, d), c));
                assert(occ(nbs(m0, a), b) == 0);
            }
            // closedness
            assert forall|c: u64| #[trigger] has_key(m2, c) implies self.has_vert(c) by {}
            assert forall|c: u64, j: int| 0 <= j < nbs(m2, c).len() implies self.has_vert(
                #[trigger] nbs(m2, c)[j],
            ) by {
                if c == a || c == b {
                    if a == b {
                        let l0 = nbs(m0, a);
                        assert(nbs(m2, a) == l0.push(b).push(a));
                        if j < l0.len() {
                            assert(nbs(m2, c)[j] == l0[j]);
                            assert(g0.has_vert(nbs(m0, c)[j]));
                        } else if j == l0.len() {
                            assert(nbs(m2, c)[j] == b);
                        } else {
                            assert(nbs(m2, c)[j] == a);
                        }
                    } else {
                        if c == a {
                            let l0 = nbs(m0, a);
                            assert(nbs(m2, a) == l0.push(b));
                            if j < l0.len() {
                                assert(nbs(m2, c)[j] == l0[j]);
                                assert(g0.has_vert(nbs(m0, c)[j]));
                            } else {
                                assert(nbs(m2, c)[j] == b);
                            }
                        } else {
                            let l0 = nbs(m0, b);
                            assert(nbs(m2, b) == l0.push(a));
                            if j < l0.len() {
                                assert(nbs(m2, c)[j] == l0[j]);
                                assert(g0.has_vert(nbs(m0, c)[j]));
                            } else {
                                assert(nbs(m2, c)[j] == a);
                            }
                        }
                    }
                } else {
                    assert(nbs(m2, c) == nbs(m0, c));
                    assert(g0.has_vert(nbs(m0, c)[j]));
                }
            }
        }
    }

    /// Removes the vertex record and adjacency entry of `id`, removes `id`
    /// from every other neighbor list, and clears the derived faces and
    /// border set (a structural change invalidates them).
    pub fn remove_vertex(&mut self, id: u64)
        requires
            old(self).wf(),
        ensures
            final(self).wf(),
            final(self).verts@ == verts_without(old(self).verts@, id),
            final(self).amodel() == scrub(old(self).amodel(), id),
            final(self).dcs@ == old(self).dcs@,
            final(self).next_id == old(self).next_id,
            final(self).faces@ == Seq::<Tri>::empty(),
            final(self).border@ == Seq::<u64>::empty(),
            !final(self).has_vert(id),
            forall|c: u64|
                c != id ==> (#[trigger] final(self).has_vert(c) <==> old(self).has_vert(c)),
            forall|c: u64|
                c != id && old(self).has_vert(c) ==> #[trigger] final(self).vert_of(c) == old(
                    self,
                ).vert_of(c),
            forall|c: u64| #[trigger] occ(final(self).neighbors(c), id) == 0,
            forall|c: u64, y: u64|
                c != id && y != id ==> #[trigger] occ(final(self).neighbors(c), y) == occ(
                    old(self).neighbors(c),
                    y,
                ),
            forall|c: u64|
                c != id ==> (#[trigger] final(self).neighbors(c) == remove_first(
                    old(self).neighbors(c),
                    id,
                )),
            final(self).neighbors(id) == Seq::<u64>::empty(),
    {
        let ghost g0 = *old(self);
        self.faces.clear();
        self.border.clear();
        match self.find_vert(id) {
            Some(i) => {
                proof {
                    lemma_vremove_at_is_without(self.verts@, i as int, id);
                }
                self.verts.remove(i);
            },
            None => {
                proof {
                    lemma_verts_without(self.verts@, id);
                }
            },
        }
        proof {
            assert(self.verts@ == verts_without(g0.verts@, id));
        }
        match self.find_adj(id) {
            Some(i) => {
                proof {
                    assert(self.amodel()[i as int].0 == id);
                    lemma_remove_at_is_entries_without(self.amodel(), i as int, id);
                    assert(self.amodel().remove(i as int) == entries_without(self.amodel(), id));
                }
                let ghost pre = self.amodel();
                self.adj.remove(i);
                proof {
                    assert(self.amodel() =~~= pre.remove(i as int));
                }
            },
            None => {
                proof {
                    lemma_entries_without(self.amodel(), id);
                }
            },
        }
        let ghost ew = entries_without(g0.amodel(), id);
        proof {
            assert(self.amodel() == ew);
        }
        let n = self.adj.len();
        let mut i: usize = 0;
        while i < n
            invariant
                n == self.adj@.len(),
                i <= n,
                self.amodel().len() == ew.len(),
                forall|j: int| i <= j < n ==> #[trigger] self.amodel()[j] == ew[j],
                forall|j: int|
                    0 <= j < i ==> #[trigger] self.amodel()[j] == (
                    ew[j].0,
                    remove_first(ew[j].1, id),
                    ),
                self.verts@ == verts_without(g0.verts@, id),
                self.dcs@ == g0.dcs@,
                self.faces@ == Seq::<Tri>::empty(),
                self.border@ == Seq::<u64>::empty(),
                self.next_id == g0.next_id,
            decreases n - i,
        {
            let ghost adj_before = self.adj@;
            let ghost entry_before = self.amodel()[i as int];
            let p = find_in_list(&self.adj[i].ns, id);
            match p {
                Some(p) => {
                    proof {
                        lemma_list_remove_at(self.adj@[i as int].ns@, p as int, id);
                    }
                    self.adj[i].ns.remove(p);
                    proof {
                        assert(forall|j: int|
                            0 <= j < adj_before.len() && j != i ==> #[trigger] self.adj@[j]
                                == adj_before[j]);
                        assert(self.adj@[i as int].id == adj_before[i as int].id);
                        assert(self.adj@[i as int].ns@ == remove_first(entry_before.1, id));
                        assert(self.amodel()[i as int] == (
                        entry_before.0,
                        remove_first(entry_before.1, id),
                        ));
                        assert(forall|j: int|
                            0 <= j < adj_before.len() && j != i ==> #[trigger] self.amodel()[j]
                                == adj_before.map_values(|e: AdjEntry| (e.id, e.ns@))[j]);
                    }
                },
                None => {
                    proof {
                        let s = self.adj@[i as int].ns@;
                        lemma_occ_contains(s, id);
                        lemma_remove_first(s, id, id);
                        assert(self.amodel()[i as int] == (
                        entry_before.0,
                        remove_first(entry_before.1, id),
                        ));
                    }
                },
            }
            i = i + 1;
        }
        proof {
            let m0 = g0.amodel();
            let sc = scrub(m0, id);
            assert(self.amodel() =~~= sc);
            lemma_scrub(m0, id);
            lemma_verts_without(g0.verts@, id);
            let vw = self.verts@;
            let m2 = self.amodel();
            // occurrence corollaries
            assert forall|c: u64| true implies #[trigger] occ(nbs(m2, c), id) == 0 by {
                if c == id {
                    assert(nbs(m2, id) == Seq::<u64>::empty());
                } else {
                    assert(nbs(m2, c) == remove_first(nbs(m0, c), id));
                    assert(occ(nbs(m0, c), id) <= 1);
                    lemma_remove_first(nbs(m0, c), id, id);
                }
            }
            assert forall|c: u64, y: u64| c != id && y != id implies #[trigger] occ(
                nbs(m2, c),
                y,
            ) == occ(nbs(m0, c), y) by {
                assert(nbs(m2, c) == remove_first(nbs(m0, c), id));
                lemma_remove_first(nbs(m0, c), id, y);
            }
            // well-formedness
            assert forall|c: u64, d: u64| true implies #[trigger] occ(nbs(m2, c), d) == occ(
                nbs(m2, d),
                c,
            ) by {
                if c == id || d == id {
                } else {
                    assert(occ(nbs(m2, c), d) == occ(nbs(m0, c), d));
                    assert(occ(nbs(m2, d), c) == occ(nbs(m0, d), c));
                    assert(occ(nbs(m0, c), d) == occ(nbs(m0, d), c));
                }
            }
            assert forall|c: u64, d: u64| c != d implies #[trigger] occ(nbs(m2, c), d) <= 1 by {
                if c == id {
                    assert(nbs(m2, id) == Seq::<u64>::empty());
                } else if d == id {
                    assert(occ(nbs(m2, c), id) == 0);
                } else {
                    assert(occ(nbs(m2, c), d) == occ(nbs(m0, c), d));
                }
            }
            assert forall|c: u64| #[trigger] has_key(m2, c) implies vhas(vw, c) by {
                assert(c != id);
                assert(has_key(m0, c));
                assert(g0.has_vert(c));
            }
            assert forall|c: u64, j: int| 0 <= j < nbs(m2, c).len() implies vhas(
                vw,
                #[trigger] nbs(m2, c)[j],
            ) by {
                let e = nbs(m2, c)[j];
                assert(c != id) by {
                    if c == id {
                        assert(nbs(m2, id) == Seq::<u64>::empty());
                    }
                }
                assert(nbs(m2, c).contains(e));
                lemma_occ_contains(nbs(m2, c), e);
                assert(occ(nbs(m2, c), e) > 0);
                assert(e != id) by {
                    assert(occ(nbs(m2, c), id) == 0);
                }
                assert(occ(nbs(m0, c), e) > 0);
                lemma_occ_contains(nbs(m0, c), e);
                let k = choose|k: int| 0 <= k < nbs(m0, c).len() && nbs(m0, c)[k] == e;
                assert(g0.has_vert(nbs(m0, c)[k]));
            }
            // vertex records of survivors
            assert forall|i2: int| 0 <= i2 < vw.len() implies ((#[trigger] vw[i2]).v.pos.in_bounds()
                && vw[i2].id < self.next_id) by {
                lemma_ventry_at(vw, i2);
                let c = vw[i2].id;
                assert(c != id);
                assert(vhas(g0.verts@, c));
                assert(vget(vw, c) == vget(g0.verts@, c));
                let k = vidx(g0.verts@, c);
                lemma_ventry_at(g0.verts@, k);
                assert(g0.verts@[k].v.pos.in_bounds() && g0.verts@[k].id < g0.next_id);
            }
        }
    }

    /// The position of the vertex `id`.
    pub fn vert_pos(&self, id: u64) -> (p: Vec2)
        requires
            vunique(self.verts@),
            self.has_vert(id),
        ensures
            p == self.vert_of(id).pos,
    {
        match self.find_vert(id) {
            Some(i) => {
                proof {
                    lemma_ventry_at(self.verts@, i as int);
                }
                self.verts[i].v.pos
            },
            None => {
                proof {
                    assert(false);
                }
                Vec2 { x: 0, y: 0 }
            },
        }
    }

    /// Whether a vertex with identifier `id` exists.
    pub fn contains_vertex(&self, id: u64) -> (r: bool)
        ensures
            r == self.has_vert(id),
    {
        match self.find_vert(id) {
            Some(i) => {
                proof {
                    assert((#[trigger] self.verts@[i as int]).id == id);
                }
                true
            },
            None => false,
        }
    }

    /// The attribute stored for the unordered pair of `a` and `b`, if any.
    pub fn dc_of(&self, a: u64, b: u64) -> (r: Option<i64>)
        requires
            self.dcs_wf(),
        ensures
            r == dc_spec(self.dcs@, a, b),
    {
        let (ka, kb) = PlanarGraph::edge_key(a, b);
        let n = self.dcs.len();
        let mut i: usize = 0;
        while i < n
            invariant
                n == self.dcs@.len(),
                i <= n,
                self.dcs_wf(),
                (ka, kb) == canon(a, b),
                forall|j: int|
                    0 <= j < i ==> !((#[trigger] self.dcs@[j]).a == ka && self.dcs@[j].b == kb),
            decreases n - i,
        {
            let e = self.dcs[i];
            if e.a == ka && e.b == kb {
                proof {
                    assert(dc_has(self.dcs@, a, b));
                    let j = dc_idx(self.dcs@, a, b);
                    assert(0 <= j < self.dcs@.len() && self.dcs@[j].a == ka && self.dcs@[j].b
                        == kb);
                    if j < i as int {
                        assert(false);
                    } else if (i as int) < j {
                        assert(false);
                    }
                }
                return Some(e.val);
            }
            i = i + 1;
        }
        proof {
            if dc_has(self.dcs@, a, b) {
                let j = dc_idx(self.dcs@, a, b);
                assert(!(self.dcs@[j].a == ka && self.dcs@[j].b == kb));
            }
        }
        None
    }

    /// Builds a graph from raw persisted data, validating every structural
    /// invariant; inconsistent data is rejected with the first reason found.
    /// Faces and border are a derived cache and are not loaded.
    pub fn from_parts(verts: Vec<VertEntry>, adj: Vec<AdjEntry>, dcs: Vec<DcEntry>) -> (r:
        Result<PlanarGraph, GraphError>)
        ensures
            match r {
                Ok(g) => {
                    &&& parts_error(
                        verts@,
                        adj@.map_values(|e: AdjEntry| (e.id, e.ns@)),
                        dcs@,
                    ) is None
                    &&& g.wf()
                    &&& g.verts@ == verts@
                    &&& g.adj@ == adj@
                    &&& g.amodel() == adj@.map_values(|e: AdjEntry| (e.id, e.ns@))
                    &&& g.dcs@ == dcs@
                    &&& g.faces@ == Seq::<Tri>::empty()
                    &&& g.border@ == Seq::<u64>::empty()
                    &&& g.next_id == next_of(verts@)
                },
                Err(e) => Some(e) == parts_error(
                    verts@,
                    adj@.map_values(|e2: AdjEntry| (e2.id, e2.ns@)),
                    dcs@,
                ),
            },
    {
        let ghost m = adj@.map_values(|e: AdjEntry| (e.id, e.ns@));
        if !check_vunique(&verts) {
            return Err(GraphError::DuplicateVertexId);
        }
        if !check_bounds(&verts) {
            return Err(GraphError::VertexOutOfRange);
        }
        if !check_ids_fit(&verts) {
            return Err(GraphError::IdSpaceExhausted);
        }
        if !check_keys_unique(&adj) {
            return Err(GraphError::DuplicateAdjacencyKey);
        }
        if !check_keys_live(&verts, &adj) {
            return Err(GraphError::UnknownAdjacencyKey);
        }
        if !check_neighbors_live(&verts, &adj) {
            return Err(GraphError::UnknownNeighbor);
        }
        if !check_sym(&adj) {
            return Err(GraphError::AsymmetricAdjacency);
        }
        if !check_nodup(&adj) {
            return Err(GraphError::DuplicateEdge);
        }
        if !check_dcs_canonical(&dcs) {
            return Err(GraphError::BadAttributeKey);
        }
        if !check_dcs_unique(&dcs) {
            return Err(GraphError::DuplicateAttributeKey);
        }
        let next_id = compute_next(&verts);
        let g = PlanarGraph { verts, adj, dcs, faces: Vec::new(), border: Vec::new(), next_id };
        proof {
            assert(g.amodel() == m);
            // closedness in lookup form
            assert forall|c: u64| #[trigger] has_key(m, c) implies vhas(g.verts@, c) by {
                let i = choose|i: int| 0 <= i < m.len() && (#[trigger] m[i]).0 == c;
                assert(vhas(g.verts@, (#[trigger] m[i]).0));
            }
            assert forall|c: u64, j: int| 0 <= j < nbs(m, c).len() implies vhas(
                g.verts@,
                #[trigger] nbs(m, c)[j],
            ) by {
                assert(has_key(m, c)) by {
                    if !has_key(m, c) {
                        lemma_no_key(m, c);
                    }
                }
                let i = key_idx(m, c);
                lemma_key_at(m, i);
                assert(vhas(g.verts@, #[trigger] m[i].1[j]));
            }
            lemma_next_of(g.verts@);
        }
        Ok(g)
    }

    /// The well-formedness clauses that only read the vertex map survive a
    /// change that keeps every old vertex, keeps records of others, and adds
    /// or updates only in-bounds records with identifiers below the counter.
    pub proof fn lemma_wf_after_vert_change(self, prev: PlanarGraph)
        requires
            prev.wf(),
            vunique(self.verts@),
            forall|i: int|
                0 <= i < self.verts@.len() ==> ((#[trigger] self.verts@[i]).v.pos.in_bounds()
                    && self.verts@[i].id < self.next_id),
            forall|c: u64| prev.has_vert(c) ==> #[trigger] self.has_vert(c),
            self.adj@ == prev.adj@,
            self.dcs@ == prev.dcs@,
            self.faces@ == prev.faces@,
            self.border@ == prev.border@,
        ensures
            self.wf(),
    {
        assert(self.amodel() == prev.amodel());
    }
}

} // verus!
