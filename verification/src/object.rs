//! Turning face-indexed polygon data into an indexed triangle list.
//!
//! A polygon file names each corner of a face by a tuple of indices into
//! separate position, texture-coordinate and normal arrays. The GPU wants one
//! vertex buffer and one index buffer. This module resolves the tuples and
//! merges corners that carry the same attributes into one vertex.

use std::collections::HashMap;
use std::hash::Hash;
use vstd::prelude::*;
use vstd::std_specs::hash::*;
use vstd::set_lib::lemma_len_subset;
use crate::mesh::indices_in_range;

verus! {

broadcast use vstd::std_specs::hash::group_hash_axioms;

/// The largest number of vertices that 16-bit indices can tell apart.
pub const MAX_VERTICES: usize = 65536;

/// A mesh holds more distinct vertices than 16-bit indices can name.
#[derive(Debug, Clone, Copy, PartialEq, Eq)]
pub struct TooManyVerticesError;

/// The keys that occur among `items`.
pub open spec fn distinct_keys<K, V>(items: Seq<(K, V)>) -> Set<K> {
    Set::new(|k: K| exists|j: int| 0 <= j < items.len() && (#[trigger] items[j]).0 == k)
}

/// No item before item `i` has its key.
pub open spec fn is_first_occurrence<K, V>(items: Seq<(K, V)>, i: int) -> bool {
    forall|j: int| 0 <= j < i ==> (#[trigger] items[j]).0 != items[i].0
}

/// Among the first `n` items, one that is the first with its key has index `v`.
pub open spec fn is_referenced<K, V>(items: Seq<(K, V)>, indices: Seq<u16>, n: int, v: int) -> bool {
    exists|i: int| 0 <= i < n && is_first_occurrence(items, i) && #[trigger] indices[i] == v
}

/// `vertices` and `indices` are the indexed form of the keyed vertex list
/// `items`: one vertex per distinct key, taken from the first item that has
/// the key, in order of first appearance; and for every item the index of the
/// vertex that stands for its key.
pub open spec fn is_indexed_form<K, V>(
    items: Seq<(K, V)>,
    vertices: Seq<V>,
    indices: Seq<u16>,
) -> bool {
    &&& indices.len() == items.len()
    &&& forall|i: int| 0 <= i < indices.len() ==> (#[trigger] indices[i] as int) < vertices.len()
    &&& forall|i: int, j: int|
        0 <= i < items.len() && 0 <= j < items.len() ==> ((#[trigger] indices[i]
            == #[trigger] indices[j]) <==> items[i].0 == items[j].0)
    &&& forall|i: int|
        0 <= i < items.len() && is_first_occurrence(items, i) ==> vertices[indices[i] as int] == (
        #[trigger] items[i]).1
    &&& forall|i: int, j: int|
        0 <= i < j < items.len() && #[trigger] is_first_occurrence(items, i)
            && #[trigger] is_first_occurrence(items, j) ==> indices[i] < indices[j]
    &&& forall|v: int|
        0 <= v < vertices.len() ==> #[trigger] is_referenced(items, indices, items.len() as int, v)
}

/// The indexed form of any vertex list is sound mesh data: every index names
/// a vertex.
pub proof fn lemma_indexed_form_is_in_range<K, V>(
    items: Seq<(K, V)>,
    vertices: Seq<V>,
    indices: Seq<u16>,
)
    requires
        is_indexed_form(items, vertices, indices),
    ensures
        indices_in_range(indices, vertices.len()),
{
}

/// Two items share an index exactly if they share a key, and the vertex at
/// that index is the one of the first item with the key.
pub proof fn lemma_equal_keys_share_a_vertex<K, V>(
    items: Seq<(K, V)>,
    vertices: Seq<V>,
    indices: Seq<u16>,
    first: int,
    later: int,
)
    requires
        is_indexed_form(items, vertices, indices),
        0 <= first <= later < items.len(),
        is_first_occurrence(items, first),
        items[first].0 == items[later].0,
    ensures
        indices[later] == indices[first],
        vertices[indices[later] as int] == items[first].1,
{
}

/// The indexed form of a vertex list is unique.
pub proof fn lemma_indexed_form_is_unique<K, V>(
    items: Seq<(K, V)>,
    v1: Seq<V>,
    i1: Seq<u16>,
    v2: Seq<V>,
    i2: Seq<u16>,
)
    requires
        is_indexed_form(items, v1, i1),
        is_indexed_form(items, v2, i2),
    ensures
        v1 == v2,
        i1 == i2,
{
    lemma_first_occurrences_agree(items, v1, i1, v2, i2);
    assert forall|i: int| 0 <= i < items.len() implies i1[i] == i2[i] by {
        let f = first_occurrence_of(items, i);
        lemma_first_occurrence_of(items, i);
        assert(i1[i] == i1[f]);
        assert(i2[i] == i2[f]);
    }
    assert(i1 =~= i2);
    lemma_vertex_count(items, v1, i1, v2, i2);
    assert forall|v: int| 0 <= v < v1.len() implies v1[v] == v2[v] by {
        assert(is_referenced(items, i1, items.len() as int, v));
        let i = choose|i: int|
            0 <= i < items.len() && is_first_occurrence(items, i) && #[trigger] i1[i] == v;
        assert(v1[i1[i] as int] == items[i].1);
        assert(v2[i2[i] as int] == items[i].1);
    }
    assert(v1 =~= v2);
}

/// The first item that has the key of item `i`.
spec fn first_occurrence_of<K, V>(items: Seq<(K, V)>, i: int) -> int {
    choose|f: int| 0 <= f <= i && is_first_occurrence(items, f) && items[f].0 == items[i].0
}

proof fn lemma_first_occurrence_of<K, V>(items: Seq<(K, V)>, i: int)
    requires
        0 <= i < items.len(),
    ensures
        0 <= first_occurrence_of(items, i) <= i,
        is_first_occurrence(items, first_occurrence_of(items, i)),
        items[first_occurrence_of(items, i)].0 == items[i].0,
    decreases i,
{
    if is_first_occurrence(items, i) {
    } else {
        let j = choose|j: int| 0 <= j < i && (#[trigger] items[j]).0 == items[i].0;
        lemma_first_occurrence_of(items, j);
        let f = first_occurrence_of(items, j);
        assert(0 <= f <= i && is_first_occurrence(items, f) && items[f].0 == items[i].0);
    }
}

/// How many of the first `n` items are the first with their key.
spec fn first_count<K, V>(items: Seq<(K, V)>, n: int) -> int
    decreases n,
{
    if n <= 0 {
        0
    } else {
        first_count(items, n - 1) + if is_first_occurrence(items, n - 1) {
            1int
        } else {
            0int
        }
    }
}

proof fn lemma_first_count_non_decreasing<K, V>(items: Seq<(K, V)>, a: int, b: int)
    requires
        0 <= a <= b,
    ensures
        first_count(items, a) <= first_count(items, b),
    decreases b - a,
{
    if a < b {
        lemma_first_count_non_decreasing(items, a, b - 1);
    }
}

/// The last item before `n` that is the first with its key.
proof fn lemma_last_first<K, V>(items: Seq<(K, V)>, n: int) -> (j: int)
    requires
        first_count(items, n) > 0,
    ensures
        0 <= j < n,
        is_first_occurrence(items, j),
        first_count(items, j) == first_count(items, n) - 1,
    decreases n,
{
    if is_first_occurrence(items, n - 1) {
        n - 1
    } else {
        lemma_last_first(items, n - 1)
    }
}

/// In an indexed form, the index of a first occurrence is the number of
/// first occurrences before it.
proof fn lemma_index_is_first_count<K, V>(items: Seq<(K, V)>, vs: Seq<V>, ix: Seq<u16>, i: int)
    requires
        is_indexed_form(items, vs, ix),
        0 <= i < items.len(),
        is_first_occurrence(items, i),
    ensures
        ix[i] == first_count(items, i),
    decreases i,
{
    let c = first_count(items, i);
    lemma_first_count_non_decreasing(items, 0, i);
    if c > 0 {
        let j = lemma_last_first(items, i);
        lemma_index_is_first_count(items, vs, ix, j);
        assert(ix[j] < ix[i]);
    }
    if ix[i] > c {
        assert((ix[i] as int) < vs.len());
        assert(is_referenced(items, ix, items.len() as int, c));
        let j = choose|j: int|
            0 <= j < items.len() && is_first_occurrence(items, j) && #[trigger] ix[j] == c;
        if j < i {
            lemma_index_is_first_count(items, vs, ix, j);
            lemma_first_count_non_decreasing(items, j + 1, i);
        } else if j > i {
            assert(ix[i] < ix[j]);
        }
    }
}

proof fn lemma_first_occurrences_agree<K, V>(
    items: Seq<(K, V)>,
    v1: Seq<V>,
    i1: Seq<u16>,
    v2: Seq<V>,
    i2: Seq<u16>,
)
    requires
        is_indexed_form(items, v1, i1),
        is_indexed_form(items, v2, i2),
    ensures
        forall|i: int|
            0 <= i < items.len() && is_first_occurrence(items, i) ==> #[trigger] i1[i] == i2[i],
{
    assert forall|i: int| 0 <= i < items.len() && is_first_occurrence(items, i) implies #[trigger] i1[i]
        == i2[i] by {
        lemma_index_is_first_count(items, v1, i1, i);
        lemma_index_is_first_count(items, v2, i2, i);
    }
}

proof fn lemma_vertex_count<K, V>(
    items: Seq<(K, V)>,
    v1: Seq<V>,
    i1: Seq<u16>,
    v2: Seq<V>,
    i2: Seq<u16>,
)
    requires
        is_indexed_form(items, v1, i1),
        is_indexed_form(items, v2, i2),
        i1 == i2,
    ensures
        v1.len() == v2.len(),
{
    if v1.len() < v2.len() {
        let v = v1.len() as int;
        assert(is_referenced(items, i2, items.len() as int, v));
        let i = choose|i: int|
            0 <= i < items.len() && is_first_occurrence(items, i) && #[trigger] i2[i] == v;
        assert((i1[i] as int) < v1.len());
    } else if v2.len() < v1.len() {
        let v = v2.len() as int;
        assert(is_referenced(items, i1, items.len() as int, v));
        let i = choose|i: int|
            0 <= i < items.len() && is_first_occurrence(items, i) && #[trigger] i1[i] == v;
        assert((i2[i] as int) < v2.len());
    }
}

/// What holds after the first `n` items have been merged.
spec fn merged_prefix<K, V>(
    items: Seq<(K, V)>,
    n: int,
    m: Map<K, u16>,
    vs: Seq<V>,
    ix: Seq<u16>,
) -> bool {
    &&& 0 <= n <= items.len()
    &&& ix.len() == n
    &&& m.dom().finite()
    &&& m.dom() == distinct_keys(items.take(n))
    &&& m.dom().len() == vs.len()
    &&& forall|k: K| m.contains_key(k) ==> (#[trigger] m[k] as int) < vs.len()
    &&& forall|k1: K, k2: K|
        m.contains_key(k1) && m.contains_key(k2) && #[trigger] m[k1] == #[trigger] m[k2] ==> k1
            == k2
    &&& forall|j: int|
        0 <= j < n ==> m.contains_key((#[trigger] items[j]).0) && ix[j] == m[items[j].0]
    &&& forall|j: int|
        0 <= j < n && is_first_occurrence(items, j) ==> vs[ix[j] as int] == (#[trigger] items[j]).1
    &&& forall|i: int, j: int|
        0 <= i < j < n && #[trigger] is_first_occurrence(items, i) && #[trigger] is_first_occurrence(
            items,
            j,
        ) ==> ix[i] < ix[j]
    &&& forall|v: int| 0 <= v < vs.len() ==> #[trigger] is_referenced(items, ix, n, v)
}

proof fn lemma_distinct_keys_step<K, V>(items: Seq<(K, V)>, n: int)
    requires
        0 <= n < items.len(),
    ensures
        distinct_keys(items.take(n + 1)) == distinct_keys(items.take(n)).insert(items[n].0),
{
    let a = items.take(n + 1);
    let b = items.take(n);
    assert forall|k: K| distinct_keys(a).contains(k) <==> distinct_keys(b).insert(
        items[n].0,
    ).contains(k) by {
        if distinct_keys(a).contains(k) {
            let j = choose|j: int| 0 <= j < a.len() && (#[trigger] a[j]).0 == k;
            if j < n {
                assert(b[j].0 == k);
            }
        }
        if distinct_keys(b).contains(k) {
            let j = choose|j: int| 0 <= j < b.len() && (#[trigger] b[j]).0 == k;
            assert(a[j].0 == k);
        }
        if k == items[n].0 {
            assert(a[n].0 == k);
        }
    }
    assert(distinct_keys(a) =~= distinct_keys(b).insert(items[n].0));
}

proof fn lemma_distinct_keys_finite<K, V>(items: Seq<(K, V)>, n: int)
    requires
        0 <= n <= items.len(),
    ensures
        distinct_keys(items.take(n)).finite(),
    decreases n,
{
    if n == 0 {
        assert(distinct_keys(items.take(0)) =~= Set::<K>::empty());
    } else {
        lemma_distinct_keys_finite(items, n - 1);
        lemma_distinct_keys_step(items, n - 1);
    }
}

proof fn lemma_distinct_keys_of_prefix<K, V>(items: Seq<(K, V)>, n: int)
    requires
        0 <= n <= items.len(),
    ensures
        distinct_keys(items).finite(),
        distinct_keys(items.take(n)).len() <= distinct_keys(items).len(),
{
    lemma_distinct_keys_finite(items, items.len() as int);
    assert(items.take(items.len() as int) =~= items);
    let a = items.take(n);
    assert forall|k: K| distinct_keys(a).contains(k) implies distinct_keys(items).contains(k) by {
        let j = choose|j: int| 0 <= j < a.len() && (#[trigger] a[j]).0 == k;
        assert(items[j].0 == k);
    }
    lemma_len_subset(distinct_keys(a), distinct_keys(items));
}

proof fn lemma_merge_known<K, V>(items: Seq<(K, V)>, n: int, m: Map<K, u16>, vs: Seq<V>, ix: Seq<u16>)
    requires
        merged_prefix(items, n, m, vs, ix),
        n < items.len(),
        m.contains_key(items[n].0),
    ensures
        merged_prefix(items, n + 1, m, vs, ix.push(m[items[n].0])),
{
    let key = items[n].0;
    let ix2 = ix.push(m[key]);
    lemma_distinct_keys_step(items, n);
    assert(m.dom().insert(key) =~= m.dom());
    let b = items.take(n);
    let w = choose|j: int| 0 <= j < b.len() && (#[trigger] b[j]).0 == key;
    assert(items[w].0 == key);
    assert(!is_first_occurrence(items, n));
    assert forall|v: int| 0 <= v < vs.len() implies #[trigger] is_referenced(
        items,
        ix2,
        n + 1,
        v,
    ) by {
        assert(is_referenced(items, ix, n, v));
        let j = choose|j: int| 0 <= j < n && is_first_occurrence(items, j) && #[trigger] ix[j] == v;
        assert(ix2[j] == v);
    }
}

proof fn lemma_merge_new<K, V>(items: Seq<(K, V)>, n: int, m: Map<K, u16>, vs: Seq<V>, ix: Seq<u16>)
    requires
        merged_prefix(items, n, m, vs, ix),
        n < items.len(),
        !m.contains_key(items[n].0),
        vs.len() < 65536,
    ensures
        merged_prefix(
            items,
            n + 1,
            m.insert(items[n].0, vs.len() as u16),
            vs.push(items[n].1),
            ix.push(vs.len() as u16),
        ),
{
    let key = items[n].0;
    let i = vs.len() as u16;
    let m2 = m.insert(key, i);
    let vs2 = vs.push(items[n].1);
    let ix2 = ix.push(i);
    lemma_distinct_keys_step(items, n);
    assert(m2.dom() =~= m.dom().insert(key));
    assert(is_first_occurrence(items, n));
    assert forall|v: int| 0 <= v < vs2.len() implies #[trigger] is_referenced(
        items,
        ix2,
        n + 1,
        v,
    ) by {
        if v < vs.len() {
            assert(is_referenced(items, ix, n, v));
            let j = choose|j: int|
                0 <= j < n && is_first_occurrence(items, j) && #[trigger] ix[j] == v;
            assert(ix2[j] == v);
        } else {
            assert(ix2[n] == v);
        }
    }
    assert forall|j: int| 0 <= j < n + 1 implies m2.contains_key((#[trigger] items[j]).0) && ix2[j]
        == m2[items[j].0] by {
        if j < n {
            assert(m.contains_key(items[j].0));
            assert(ix2[j] == ix[j]);
        }
    }
    assert forall|j: int| 0 <= j < n + 1 && is_first_occurrence(items, j) implies vs2[ix2[j] as int]
        == (#[trigger] items[j]).1 by {
        if j < n {
            assert(m.contains_key(items[j].0));
            assert(ix2[j] == ix[j]);
        }
    }
    assert forall|a: int, b: int|
        0 <= a < b < n + 1 && #[trigger] is_first_occurrence(items, a)
            && #[trigger] is_first_occurrence(items, b) implies ix2[a] < ix2[b] by {
        assert(m.contains_key(items[a].0));
        assert(ix2[a] == ix[a]);
        if b < n {
            assert(ix2[b] == ix[b]);
        }
    }
}

proof fn lemma_merge_overflow<K, V>(
    items: Seq<(K, V)>,
    n: int,
    m: Map<K, u16>,
    vs: Seq<V>,
    ix: Seq<u16>,
)
    requires
        merged_prefix(items, n, m, vs, ix),
        n < items.len(),
        !m.contains_key(items[n].0),
        vs.len() >= 65536,
    ensures
        distinct_keys(items).finite(),
        distinct_keys(items).len() > 65536,
{
    lemma_distinct_keys_step(items, n);
    lemma_distinct_keys_of_prefix(items, n + 1);
}

proof fn lemma_merge_done<K, V>(items: Seq<(K, V)>, m: Map<K, u16>, vs: Seq<V>, ix: Seq<u16>)
    requires
        merged_prefix(items, items.len() as int, m, vs, ix),
    ensures
        is_indexed_form(items, vs, ix),
        vs.len() == distinct_keys(items).len(),
{
    assert(items.take(items.len() as int) =~= items);
    assert forall|i: int| 0 <= i < ix.len() implies (#[trigger] ix[i] as int) < vs.len() by {
        assert(m.contains_key(items[i].0));
    }
    assert forall|i: int, j: int| 0 <= i < items.len() && 0 <= j < items.len() implies ((
    #[trigger] ix[i] == #[trigger] ix[j]) <==> items[i].0 == items[j].0) by {
        assert(m.contains_key(items[i].0));
        assert(m.contains_key(items[j].0));
    }
}

/// Merges keyed vertices with equal keys.
///
/// Each item pairs a vertex with the key that identifies its attributes. The
/// result holds one vertex per distinct key (that of the first item with the
/// key, in order of first appearance) and, for every item in order, the index
/// of the vertex that stands for it. The call fails exactly when there are
/// more distinct keys than a 16-bit index can name.
///
/// The guarantee is given for key types whose `Eq` and `Hash` behave as a
/// hash table needs.
pub fn vertex_attributes_to_indexed_vertex_attributes<K: Eq + Hash, V>(items: Vec<(K, V)>) -> (res:
    Result<(Vec<V>, Vec<u16>), TooManyVerticesError>)
    ensures
        obeys_key_model::<K>() ==> distinct_keys(items@).finite() && match res {
            Ok((vertices, indices)) => {
                &&& distinct_keys(items@).len() <= MAX_VERTICES
                &&& vertices@.len() == distinct_keys(items@).len()
                &&& is_indexed_form(items@, vertices@, indices@)
            },
            Err(_) => distinct_keys(items@).len() > MAX_VERTICES,
        },
{
    let ghost all = items@;
    let mut vertex2index: HashMap<K, u16> = HashMap::new();
    let mut res_vertices: Vec<V> = Vec::new();
    let mut res_indices: Vec<u16> = Vec::new();
    proof {
        assert(distinct_keys(all.take(0)) =~= Set::<K>::empty());
        assert(vertex2index@.dom() =~= Set::<K>::empty());
    }
    for item in it: items
        invariant
            it.seq() == all,
            res_vertices@.len() <= MAX_VERTICES,
            obeys_key_model::<K>() ==> merged_prefix(
                all,
                it.index(),
                vertex2index@,
                res_vertices@,
                res_indices@,
            ),
    {
        let ghost n = it.index();
        let ghost m0 = vertex2index@;
        let ghost vs0 = res_vertices@;
        let ghost ix0 = res_indices@;
        let (key, v) = item;
        let i: u16 = match vertex2index.get(&key) {
            Some(i) => {
                proof {
                    if obeys_key_model::<K>() {
                        lemma_merge_known(all, n, m0, vs0, ix0);
                    }
                }
                *i
            },
            None => {
                if res_vertices.len() >= MAX_VERTICES {
                    proof {
                        if obeys_key_model::<K>() {
                            lemma_merge_overflow(all, n, m0, vs0, ix0);
                        }
                    }
                    return Err(TooManyVerticesError);
                }
                let i = res_vertices.len() as u16;
                res_vertices.push(v);
                vertex2index.insert(key, i);
                proof {
                    if obeys_key_model::<K>() {
                        lemma_merge_new(all, n, m0, vs0, ix0);
                    }
                }
                i
            },
        };
        res_indices.push(i);
    }
    proof {
        if obeys_key_model::<K>() {
            lemma_merge_done(all, vertex2index@, res_vertices@, res_indices@);
            lemma_distinct_keys_of_prefix(all, 0);
        }
    }
    Ok((res_vertices, res_indices))
}

/// Which of the two object variants a mesh is built for. It is chosen once,
/// at load time, from whether the material declares a diffuse texture map.
#[derive(Debug, Clone, Copy, PartialEq, Eq, Structural)]
pub enum ObjectKind {
    WithTexture,
    NoTexture,
}

/// One corner of a face: an index into the position array and, where the
/// file gives them, into the texture-coordinate and normal arrays.
#[derive(Debug, Clone, Copy, PartialEq, Eq)]
pub struct IndexTuple(pub usize, pub Option<usize>, pub Option<usize>);

/// The lengths of the attribute arrays that index tuples point into. A model
/// without texture coordinates has `texture_coords` absent.
#[derive(Debug, Clone, Copy, PartialEq, Eq)]
pub struct AttributeCounts {
    pub positions: usize,
    pub texture_coords: Option<usize>,
    pub normals: usize,
}

/// Where the attributes of one vertex are found.
#[derive(Debug, Clone, Copy, PartialEq, Eq)]
pub struct VertexSource {
    pub position: usize,
    pub texture_coord: Option<usize>,
    pub normal: usize,
}

/// Why a corner could not be turned into a vertex.
#[derive(Debug, Clone, Copy, PartialEq, Eq)]
pub enum VertexLookupError {
    /// The position index is past the end of the position array.
    PositionNotFound,
    /// The texture-coordinate index is past the end of its array.
    TextureCoordNotFound,
    /// The normal index is past the end of the normal array.
    NormalNotFound,
    /// The corner names no normal.
    MissingNormal,
    /// A textured object has a corner without texture coordinates.
    MissingTextureCoord,
}

/// The texture coordinate a corner refers to: none unless both the corner
/// names one and the model has texture coordinates at all.
pub open spec fn texture_index(counts: AttributeCounts, t: IndexTuple) -> Option<usize> {
    if t.1 is Some && counts.texture_coords is Some {
        t.1
    } else {
        None
    }
}

/// What a corner resolves to. The checks come in a fixed order: position,
/// texture coordinate and normal must exist where they are named; then the
/// normal must be named; then, for a textured object, the texture coordinate.
pub open spec fn resolve_spec(kind: ObjectKind, counts: AttributeCounts, t: IndexTuple) -> Result<
    VertexSource,
    VertexLookupError,
> {
    let texture = texture_index(counts, t);
    if t.0 >= counts.positions {
        Err(VertexLookupError::PositionNotFound)
    } else if texture is Some && texture->0 >= counts.texture_coords->0 {
        Err(VertexLookupError::TextureCoordNotFound)
    } else if t.2 is Some && t.2->0 >= counts.normals {
        Err(VertexLookupError::NormalNotFound)
    } else if t.2 is None {
        Err(VertexLookupError::MissingNormal)
    } else if kind == ObjectKind::WithTexture && texture is None {
        Err(VertexLookupError::MissingTextureCoord)
    } else {
        Ok(VertexSource { position: t.0, texture_coord: texture, normal: t.2->0 })
    }
}

/// The corners of the first `n` polygons, in order.
pub open spec fn corners(polys: Seq<Vec<IndexTuple>>, n: int) -> Seq<IndexTuple>
    decreases n,
{
    if n <= 0 {
        Seq::empty()
    } else {
        corners(polys, n - 1) + polys[n - 1]@
    }
}

/// Every corner of `flat` resolves, and `out` holds the results in order.
pub open spec fn resolves_to(
    kind: ObjectKind,
    counts: AttributeCounts,
    flat: Seq<IndexTuple>,
    out: Seq<VertexSource>,
) -> bool {
    &&& out.len() == flat.len()
    &&& forall|i: int|
        0 <= i < flat.len() ==> resolve_spec(kind, counts, #[trigger] flat[i]) == Ok::<
            VertexSource,
            VertexLookupError,
        >(out[i])
}

/// Corner `k` of `flat` is the first that does not resolve, and fails with `e`.
pub open spec fn first_failure(
    kind: ObjectKind,
    counts: AttributeCounts,
    flat: Seq<IndexTuple>,
    k: int,
    e: VertexLookupError,
) -> bool {
    &&& 0 <= k < flat.len()
    &&& resolve_spec(kind, counts, flat[k]) == Err::<VertexSource, VertexLookupError>(e)
    &&& forall|j: int| 0 <= j < k ==> resolve_spec(kind, counts, #[trigger] flat[j]) is Ok
}

proof fn lemma_corners_prefix(polys: Seq<Vec<IndexTuple>>, a: int, b: int)
    requires
        0 <= a <= b <= polys.len(),
    ensures
        corners(polys, a).len() <= corners(polys, b).len(),
        corners(polys, b).take(corners(polys, a).len() as int) == corners(polys, a),
    decreases b - a,
{
    if a < b {
        lemma_corners_prefix(polys, a, b - 1);
        assert(corners(polys, b).take(corners(polys, a).len() as int) =~= corners(polys, b - 1).take(
            corners(polys, a).len() as int,
        ));
    } else {
        assert(corners(polys, b).take(corners(polys, a).len() as int) =~= corners(polys, a));
    }
}

impl AttributeCounts {
    /// Resolves one corner of a face for an object of the given kind.
    pub fn resolve(&self, kind: ObjectKind, t: &IndexTuple) -> (res: Result<
        VertexSource,
        VertexLookupError,
    >)
        ensures
            res == resolve_spec(kind, *self, *t),
    {
        if t.0 >= self.positions {
            return Err(VertexLookupError::PositionNotFound);
        }
        let texture: Option<usize> = match (t.1, self.texture_coords) {
            (Some(i), Some(n)) => {
                if i >= n {
                    return Err(VertexLookupError::TextureCoordNotFound);
                }
                Some(i)
            },
            _ => None,
        };
        let normal: usize = match t.2 {
            Some(i) => {
                if i >= self.normals {
                    return Err(VertexLookupError::NormalNotFound);
                }
                i
            },
            None => {
                return Err(VertexLookupError::MissingNormal);
            },
        };
        match kind {
            ObjectKind::WithTexture => {
                if texture.is_none() {
                    return Err(VertexLookupError::MissingTextureCoord);
                }
            },
            ObjectKind::NoTexture => {},
        }
        Ok(VertexSource { position: t.0, texture_coord: texture, normal })
    }

    /// Resolves every corner of every polygon of a group, in order, and stops
    /// at the first corner that does not resolve.
    pub fn resolve_group(&self, kind: ObjectKind, polys: &Vec<Vec<IndexTuple>>) -> (res: Result<
        Vec<VertexSource>,
        VertexLookupError,
    >)
        ensures
            match res {
                Ok(out) => resolves_to(kind, *self, corners(polys@, polys@.len() as int), out@),
                Err(e) => exists|k: int|
                    first_failure(kind, *self, corners(polys@, polys@.len() as int), k, e),
            },
    {
        let ghost flat = corners(polys@, polys@.len() as int);
        let mut out: Vec<VertexSource> = Vec::new();
        let mut p: usize = 0;
        while p < polys.len()
            invariant
                p <= polys@.len(),
                flat == corners(polys@, polys@.len() as int),
                resolves_to(kind, *self, corners(polys@, p as int), out@),
            decreases polys@.len() - p,
        {
            let poly = &polys[p];
            let ghost before = corners(polys@, p as int);
            let mut c: usize = 0;
            while c < poly.len()
                invariant
                    p < polys@.len(),
                    poly@ == polys@[p as int]@,
                    c <= poly@.len(),
                    before == corners(polys@, p as int),
                    flat == corners(polys@, polys@.len() as int),
                    resolves_to(kind, *self, before + poly@.take(c as int), out@),
                decreases poly@.len() - c,
            {
                let ghost seen = before + poly@.take(c as int);
                match self.resolve(kind, &poly[c]) {
                    Ok(source) => {
                        out.push(source);
                    },
                    Err(e) => {
                        proof {
                            let k = seen.len() as int;
                            lemma_corners_prefix(polys@, p as int + 1, polys@.len() as int);
                            let upto = corners(polys@, p as int + 1);
                            assert(upto == before + poly@);
                            assert forall|j: int| 0 <= j <= k implies #[trigger] flat[j] == upto[j] by {
                                assert(flat.take(upto.len() as int)[j] == flat[j]);
                            }
                            assert(upto[k] == poly@[c as int]);
                            assert forall|j: int| 0 <= j < k implies resolve_spec(
                                kind,
                                *self,
                                #[trigger] flat[j],
                            ) is Ok by {
                                assert(seen[j] == upto[j]);
                            }
                            assert(first_failure(kind, *self, flat, k, e));
                        }
                        return Err(e);
                    },
                }
                proof {
                    let next = before + poly@.take(c as int + 1);
                    assert(next =~= seen.push(poly@[c as int]));
                    assert forall|i: int| 0 <= i < next.len() implies resolve_spec(
                        kind,
                        *self,
                        #[trigger] next[i],
                    ) == Ok::<VertexSource, VertexLookupError>(out@[i]) by {
                        if i < seen.len() {
                            assert(next[i] == seen[i]);
                        }
                    }
                }
                c += 1;
            }
            proof {
                assert(poly@.take(c as int) =~= poly@);
                assert(corners(polys@, p as int + 1) == before + poly@);
            }
            p += 1;
        }
        Ok(out)
    }
}

} // verus!
