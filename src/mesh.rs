use crate::model::Model;
use std::collections::HashMap;
use vstd::prelude::*;

verus! {

/// The cube's twelve triangles over its eight corners, counter-clockwise
/// seen from outside: bottom, top, front, back, left, right.
pub open spec fn cube_triangles() -> Seq<u32> {
    seq![
        0, 1, 5, 0, 5, 4,
        2, 7, 3, 2, 6, 7,
        0, 6, 2, 0, 4, 6,
        1, 3, 7, 1, 7, 5,
        0, 2, 1, 1, 2, 3,
        4, 5, 6, 5, 7, 6,
    ]
}

/// The icosahedron's twenty triangles over its twelve vertices.
pub open spec fn icosahedron_triangles() -> Seq<u32> {
    seq![
        0, 9, 8, 0, 8, 4, 0, 4, 1, 0, 1, 6, 0, 6, 9,
        8, 9, 2, 8, 2, 5, 8, 5, 4, 4, 5, 10, 4, 10, 1,
        1, 10, 11, 1, 11, 6, 2, 3, 5, 2, 7, 3, 2, 9, 7,
        5, 3, 10, 3, 11, 10, 3, 7, 11, 6, 7, 9, 6, 11, 7,
    ]
}

/// A triangle list over `vertex_count` vertices: whole triangles, each
/// index naming a vertex.
pub open spec fn is_triangle_list(indices: Seq<u32>, vertex_count: nat) -> bool {
    &&& indices.len() % 3 == 0
    &&& forall|i: int| 0 <= i < indices.len() ==> #[trigger] indices[i] < vertex_count
}

/// `e` joins `a` and `b`, in either direction.
pub open spec fn same_edge(e: (u32, u32), a: u32, b: u32) -> bool {
    (e.0 == a && e.1 == b) || (e.0 == b && e.1 == a)
}

/// Some entry of `edges` joins `a` and `b`.
pub open spec fn lists_edge(edges: Seq<(u32, u32)>, a: u32, b: u32) -> bool {
    exists|k: int| 0 <= k < edges.len() && same_edge(#[trigger] edges[k], a, b)
}

/// `edges` with the edge from `a` to `b` appended, unless it already joins them.
pub open spec fn add_edge(edges: Seq<(u32, u32)>, a: u32, b: u32) -> Seq<(u32, u32)> {
    if lists_edge(edges, a, b) {
        edges
    } else {
        edges.push((a, b))
    }
}

/// The distinct edges of the first `t` triangles of `indices`, in the order
/// in which a scan of the triangles, each along (a, b), (b, c), (c, a),
/// first meets them.
pub open spec fn edges_upto(indices: Seq<u32>, t: nat) -> Seq<(u32, u32)>
    decreases t,
{
    if t == 0 {
        Seq::empty()
    } else {
        let s = 3 * (t - 1);
        let a = indices[s];
        let b = indices[s + 1];
        let c = indices[s + 2];
        add_edge(add_edge(add_edge(edges_upto(indices, (t - 1) as nat), a, b), b, c), c, a)
    }
}

/// The distinct edges of a triangle list, in order of first appearance.
pub open spec fn mesh_edges(indices: Seq<u32>) -> Seq<(u32, u32)> {
    edges_upto(indices, indices.len() / 3)
}

/// `m` is the vertex created for the edge joining `a` and `b`: vertices
/// from `n` on are the midpoints of `edges`, in order.
pub open spec fn names_midpoint(m: u32, n: nat, edges: Seq<(u32, u32)>, a: u32, b: u32) -> bool {
    &&& n <= m < n + edges.len()
    &&& same_edge(edges[m - n], a, b)
}

/// Triangle `t` of `indices` (a, b, c) is replaced in `out` by the four
/// triangles (m_ca, a, m_ab), (m_ab, b, m_bc), (m_bc, c, m_ca),
/// (m_ab, m_bc, m_ca), where m_xy is the midpoint vertex of edge xy.
pub open spec fn splits_triangle(
    out: Seq<u32>,
    indices: Seq<u32>,
    n: nat,
    edges: Seq<(u32, u32)>,
    t: int,
) -> bool {
    let a = indices[3 * t];
    let b = indices[3 * t + 1];
    let c = indices[3 * t + 2];
    let o = 12 * t;
    let mab = out[o + 2];
    let mbc = out[o + 5];
    let mca = out[o];
    &&& names_midpoint(mab, n, edges, a, b)
    &&& names_midpoint(mbc, n, edges, b, c)
    &&& names_midpoint(mca, n, edges, c, a)
    &&& out[o + 1] == a
    &&& out[o + 3] == mab
    &&& out[o + 4] == b
    &&& out[o + 6] == mbc
    &&& out[o + 7] == c
    &&& out[o + 8] == mca
    &&& out[o + 9] == mab
    &&& out[o + 10] == mbc
    &&& out[o + 11] == mca
}

/// `out` is `indices` with every triangle split in four around the
/// midpoints of `edges`, numbered from `n`.
pub open spec fn subdivides(out: Seq<u32>, indices: Seq<u32>, n: nat, edges: Seq<(u32, u32)>) -> bool {
    &&& out.len() == 4 * indices.len()
    &&& forall|t: int| 0 <= t < indices.len() / 3 ==> #[trigger] splits_triangle(out, indices, n, edges, t)
}

/// The vertices from `n` on are the midpoints of `edges`, each computed by
/// `midpoint` from the two ends in `base`.
pub open spec fn holds_midpoints<V, F: Fn(V, V) -> V>(
    vertices: Seq<V>,
    base: Seq<V>,
    n: nat,
    edges: Seq<(u32, u32)>,
    midpoint: F,
) -> bool {
    forall|k: int|
        0 <= k < edges.len() ==> midpoint.ensures(
            (base[#[trigger] edges[k].0 as int], base[edges[k].1 as int]),
            vertices[n + k],
        )
}

/// The edge joining `a` and `b`, written with its smaller end first.
pub open spec fn edge_of(a: u32, b: u32) -> (u32, u32) {
    if a <= b {
        (a, b)
    } else {
        (b, a)
    }
}

/// The edges of the first `t` triangles of `indices`, each written once
/// with its smaller end first.
pub open spec fn edge_set_upto(indices: Seq<u32>, t: nat) -> Set<(u32, u32)> {
    Set::new(|e: (u32, u32)| exists|s: int| 0 <= s < t && #[trigger] triangle_has_edge(indices, s, e))
}

/// `e` is an edge of triangle `s` of `indices`, smaller end first.
pub open spec fn triangle_has_edge(indices: Seq<u32>, s: int, e: (u32, u32)) -> bool {
    let a = indices[3 * s];
    let b = indices[3 * s + 1];
    let c = indices[3 * s + 2];
    e == edge_of(a, b) || e == edge_of(b, c) || e == edge_of(c, a)
}

/// The unique edges of a triangle list.
pub open spec fn edge_set(indices: Seq<u32>) -> Set<(u32, u32)> {
    edge_set_upto(indices, indices.len() / 3)
}

/// The edges of `edges`, each written with its smaller end first.
pub open spec fn edge_keys(edges: Seq<(u32, u32)>) -> Seq<(u32, u32)> {
    edges.map_values(|e: (u32, u32)| edge_of(e.0, e.1))
}

proof fn lemma_add_edge_keys(edges: Seq<(u32, u32)>, a: u32, b: u32)
    requires
        edge_keys(edges).no_duplicates(),
    ensures
        edge_keys(add_edge(edges, a, b)).no_duplicates(),
        edge_keys(add_edge(edges, a, b)).to_set() == edge_keys(edges).to_set().insert(
            edge_of(a, b),
        ),
{
    let keys = edge_keys(edges);
    if lists_edge(edges, a, b) {
        let k = choose|k: int| 0 <= k < edges.len() && same_edge(#[trigger] edges[k], a, b);
        assert(keys[k] == edge_of(a, b));
        assert(keys.to_set().contains(edge_of(a, b)));
        assert(keys.to_set().insert(edge_of(a, b)) =~= keys.to_set());
    } else {
        let grown = edges.push((a, b));
        assert(edge_keys(grown) =~= keys.push(edge_of(a, b)));
        keys.lemma_push_to_set_commute(edge_of(a, b));
        assert forall|k: int| 0 <= k < keys.len() implies #[trigger] keys[k] != edge_of(a, b) by {
            assert(!same_edge(edges[k], a, b));
        }
        assert forall|i: int, j: int|
            0 <= i < edge_keys(grown).len() && 0 <= j < edge_keys(grown).len() && i != j implies
            #[trigger] edge_keys(grown)[i] != #[trigger] edge_keys(grown)[j] by {
            if i < keys.len() && j < keys.len() {
                assert(edge_keys(grown)[i] == keys[i]);
                assert(edge_keys(grown)[j] == keys[j]);
            } else if i < keys.len() {
                assert(edge_keys(grown)[i] == keys[i]);
            } else if j < keys.len() {
                assert(edge_keys(grown)[j] == keys[j]);
            }
        }
    }
}

proof fn lemma_edges_upto_keys(indices: Seq<u32>, t: nat)
    requires
        3 * t <= indices.len(),
    ensures
        edge_keys(edges_upto(indices, t)).no_duplicates(),
        edge_keys(edges_upto(indices, t)).to_set() == edge_set_upto(indices, t),
    decreases t,
{
    if t == 0 {
        assert(edge_keys(edges_upto(indices, 0)).to_set() =~= Set::empty());
        assert(edge_set_upto(indices, 0) =~= Set::empty());
    } else {
        let p = (t - 1) as nat;
        lemma_edges_upto_keys(indices, p);
        let s = 3 * p as int;
        let a = indices[s];
        let b = indices[s + 1];
        let c = indices[s + 2];
        let e0 = edges_upto(indices, p);
        let e1 = add_edge(e0, a, b);
        let e2 = add_edge(e1, b, c);
        lemma_add_edge_keys(e0, a, b);
        lemma_add_edge_keys(e1, b, c);
        lemma_add_edge_keys(e2, c, a);
        let prev = edge_set_upto(indices, p);
        let next = prev.insert(edge_of(a, b)).insert(edge_of(b, c)).insert(edge_of(c, a));
        assert forall|e: (u32, u32)| #[trigger] edge_set_upto(indices, t).contains(e) == next.contains(e)
            by {
            if edge_set_upto(indices, t).contains(e) {
                let w = choose|w: int| 0 <= w < t && #[trigger] triangle_has_edge(indices, w, e);
                if w < p {
                    assert(prev.contains(e));
                }
            }
            if prev.contains(e) {
                let w = choose|w: int| 0 <= w < p && #[trigger] triangle_has_edge(indices, w, e);
                assert(edge_set_upto(indices, t).contains(e));
            }
            if e == edge_of(a, b) || e == edge_of(b, c) || e == edge_of(c, a) {
                assert(triangle_has_edge(indices, p as int, e));
                assert(edge_set_upto(indices, t).contains(e));
            }
        }
        assert(edge_set_upto(indices, t) =~= next);
    }
}

/// Refinement adds one vertex per unique edge: the edges that `refine`
/// numbers its new vertices by are as many as the triangle list's edges.
pub proof fn lemma_one_midpoint_per_edge(indices: Seq<u32>)
    ensures
        mesh_edges(indices).len() == edge_set(indices).len(),
{
    let t = indices.len() / 3;
    lemma_edges_upto_keys(indices, t);
    let keys = edge_keys(edges_upto(indices, t));
    keys.unique_seq_to_set();
}

/// Refining a single triangle with three distinct corners creates exactly
/// three vertices, one per side, in the order (a, b), (b, c), (c, a).
pub proof fn lemma_single_triangle_midpoints(a: u32, b: u32, c: u32)
    requires
        a != b,
        b != c,
        c != a,
    ensures
        mesh_edges(seq![a, b, c]) == seq![(a, b), (b, c), (c, a)],
        edge_set(seq![a, b, c]).len() == 3,
{
    let indices = seq![a, b, c];
    let e1 = Seq::<(u32, u32)>::empty().push((a, b));
    let e2 = e1.push((b, c));
    assert(!lists_edge(Seq::<(u32, u32)>::empty(), a, b));
    assert(!lists_edge(e1, b, c)) by {
        assert(!same_edge(e1[0], b, c));
    }
    assert(!lists_edge(e2, c, a)) by {
        assert(!same_edge(e2[0], c, a));
        assert(!same_edge(e2[1], c, a));
    }
    assert(indices.len() / 3 == 1);
    assert(edges_upto(indices, 0) == Seq::<(u32, u32)>::empty());
    assert(mesh_edges(indices) =~= seq![(a, b), (b, c), (c, a)]);
    lemma_one_midpoint_per_edge(indices);
}

/// `w` is a result that `f` may return for some argument.
pub open spec fn is_image_of<V, G: Fn(V) -> V>(f: G, w: V) -> bool {
    exists|v: V| f.ensures((v,), w)
}

/// Four to the power `n`.
pub open spec fn pow4(n: nat) -> nat
    decreases n,
{
    if n == 0 {
        1
    } else {
        4 * pow4((n - 1) as nat)
    }
}

proof fn lemma_pow4_monotone(i: nat, j: nat)
    requires
        i <= j,
    ensures
        1 <= pow4(i) <= pow4(j),
    decreases j,
{
    if i < j {
        lemma_pow4_monotone(i, (j - 1) as nat);
    } else if i > 0 {
        lemma_pow4_monotone((i - 1) as nat, (i - 1) as nat);
    }
}

/// Key of the directed edge from `a` to `b` in the midpoint cache.
spec fn edge_code(a: u32, b: u32) -> u64 {
    ((a as u64) << 32u64) | (b as u64)
}

/// The cache maps the key of each edge of `edges`, in both directions, to
/// its midpoint vertex, and holds no other edge.
spec fn cache_models(cache: Map<u64, u32>, edges: Seq<(u32, u32)>, n: nat) -> bool {
    forall|a: u32, b: u32|
        #![trigger cache.contains_key(edge_code(a, b))]
        {
            &&& cache.contains_key(edge_code(a, b)) == lists_edge(edges, a, b)
            &&& cache.contains_key(edge_code(a, b)) ==> names_midpoint(
                cache[edge_code(a, b)],
                n,
                edges,
                a,
                b,
            )
        }
}

proof fn lemma_edge_code_injective(a: u32, b: u32, c: u32, d: u32)
    ensures
        (edge_code(a, b) == edge_code(c, d)) == (a == c && b == d),
{
    assert(((((a as u64) << 32u64) | (b as u64)) == (((c as u64) << 32u64) | (d as u64))) == (a == c
        && b == d)) by (bit_vector);
}

proof fn lemma_lists_edge_push(edges: Seq<(u32, u32)>, e: (u32, u32), a: u32, b: u32)
    ensures
        lists_edge(edges.push(e), a, b) == (lists_edge(edges, a, b) || same_edge(e, a, b)),
{
    let pushed = edges.push(e);
    if lists_edge(edges, a, b) {
        let k = choose|k: int| 0 <= k < edges.len() && same_edge(#[trigger] edges[k], a, b);
        assert(pushed[k] == edges[k]);
    }
    if same_edge(e, a, b) {
        assert(pushed[edges.len() as int] == e);
    }
    if lists_edge(pushed, a, b) {
        let k = choose|k: int| 0 <= k < pushed.len() && same_edge(#[trigger] pushed[k], a, b);
        if k < edges.len() {
            assert(pushed[k] == edges[k]);
        }
    }
}

fn edge_key(a: u32, b: u32) -> (r: u64)
    ensures
        r == edge_code(a, b),
{
    ((a as u64) << 32u64) | (b as u64)
}

/// The index of the midpoint vertex of the edge from `a` to `b`, appending
/// that vertex and caching it in both directions when the edge is new.
fn midpoint_index<V: Copy, F: Fn(V, V) -> V>(
    vertices: &mut Vec<V>,
    cache: &mut HashMap<u64, u32>,
    a: u32,
    b: u32,
    midpoint: &F,
    Ghost(n): Ghost<nat>,
    Ghost(base): Ghost<Seq<V>>,
    Ghost(edges): Ghost<Seq<(u32, u32)>>,
) -> (m: u32)
    requires
        a < n,
        b < n,
        n + edges.len() <= u32::MAX,
        old(vertices)@.len() == n + edges.len(),
        old(vertices)@.subrange(0, n as int) == base,
        cache_models(old(cache)@, edges, n),
        forall|x: V, y: V| midpoint.requires((x, y)),
        holds_midpoints(old(vertices)@, base, n, edges, *midpoint),
    ensures
        final(vertices)@.len() == n + add_edge(edges, a, b).len(),
        final(vertices)@.subrange(0, n as int) == base,
        cache_models(final(cache)@, add_edge(edges, a, b), n),
        holds_midpoints(final(vertices)@, base, n, add_edge(edges, a, b), *midpoint),
        names_midpoint(m, n, add_edge(edges, a, b), a, b),
{
    broadcast use vstd::std_specs::hash::group_hash_axioms;

    let key = edge_key(a, b);
    match cache.get(&key) {
        Some(m) => {
            assert(cache@.contains_key(edge_code(a, b)));
            *m
        },
        None => {
            assert(!cache@.contains_key(edge_code(a, b)));
            assert(!lists_edge(edges, a, b));
            assert(vertices@[a as int] == base[a as int]);
            assert(vertices@[b as int] == base[b as int]);
            let va = vertices[a as usize];
            let vb = vertices[b as usize];
            let v = midpoint(va, vb);
            let m = vertices.len() as u32;
            vertices.push(v);
            let back = edge_key(b, a);
            cache.insert(key, m);
            cache.insert(back, m);
            proof {
                let grown = edges.push((a, b));
                assert(grown[edges.len() as int] == (a, b));
                assert(vertices@.subrange(0, n as int) =~= base);
                assert forall|c: u32, d: u32|
                    #![trigger cache@.contains_key(edge_code(c, d))]
                    {
                        &&& cache@.contains_key(edge_code(c, d)) == lists_edge(grown, c, d)
                        &&& cache@.contains_key(edge_code(c, d)) ==> names_midpoint(
                            cache@[edge_code(c, d)],
                            n,
                            grown,
                            c,
                            d,
                        )
                    } by {
                    lemma_edge_code_injective(c, d, a, b);
                    lemma_edge_code_injective(c, d, b, a);
                    lemma_lists_edge_push(edges, (a, b), c, d);
                    if old(cache)@.contains_key(edge_code(c, d)) {
                        let k = cache@[edge_code(c, d)] - n;
                        assert(grown[k] == edges[k]);
                    }
                }
                assert forall|k: int| 0 <= k < grown.len() implies midpoint.ensures(
                    (base[#[trigger] grown[k].0 as int], base[grown[k].1 as int]),
                    vertices@[n + k],
                ) by {
                    if k < edges.len() {
                        assert(grown[k] == edges[k]);
                    }
                }
            }
            m
        },
    }
}

impl<V: Copy, I: Copy> Model<V, I> {
    /// A cube over the given eight corners, with no instances.
    pub fn cube(corners: [V; 8]) -> (m: Self)
        ensures
            m.wf(),
            m.vertex_data@ == corners@,
            m.index_data@ == cube_triangles(),
            is_triangle_list(m.index_data@, m.vertex_data@.len()),
            m.len() == 0,
            m.first_invisible == 0,
            m.next_handle == 0,
    {
        let vertex_data = vec![
            corners[0],
            corners[1],
            corners[2],
            corners[3],
            corners[4],
            corners[5],
            corners[6],
            corners[7],
        ];
        let index_data: Vec<u32> = vec![
            0, 1, 5, 0, 5, 4,
            2, 7, 3, 2, 6, 7,
            0, 6, 2, 0, 4, 6,
            1, 3, 7, 1, 7, 5,
            0, 2, 1, 1, 2, 3,
            4, 5, 6, 5, 7, 6,
        ];
        assert(vertex_data@ =~= corners@);
        assert(index_data@ =~= cube_triangles());
        Model::with_mesh(vertex_data, index_data)
    }

    /// An icosahedron over the given twelve vertices, with no instances.
    pub fn icosahedron(vertices: [V; 12]) -> (m: Self)
        ensures
            m.wf(),
            m.vertex_data@ == vertices@,
            m.index_data@ == icosahedron_triangles(),
            is_triangle_list(m.index_data@, m.vertex_data@.len()),
            m.len() == 0,
            m.first_invisible == 0,
            m.next_handle == 0,
    {
        let vertex_data = vec![
            vertices[0],
            vertices[1],
            vertices[2],
            vertices[3],
            vertices[4],
            vertices[5],
            vertices[6],
            vertices[7],
            vertices[8],
            vertices[9],
            vertices[10],
            vertices[11],
        ];
        let index_data: Vec<u32> = vec![
            0, 9, 8, 0, 8, 4, 0, 4, 1, 0, 1, 6, 0, 6, 9,
            8, 9, 2, 8, 2, 5, 8, 5, 4, 4, 5, 10, 4, 10, 1,
            1, 10, 11, 1, 11, 6, 2, 3, 5, 2, 7, 3, 2, 9, 7,
            5, 3, 10, 3, 11, 10, 3, 7, 11, 6, 7, 9, 6, 11, 7,
        ];
        assert(vertex_data@ =~= vertices@);
        assert(index_data@ =~= icosahedron_triangles());
        Model::with_mesh(vertex_data, index_data)
    }

    /// Splits every triangle in four. Each edge gets one new vertex, made by
    /// `midpoint` from its two ends and shared by the triangles on both sides;
    /// the new vertices follow the old ones in the order in which a scan of
    /// the triangles first meets their edges. Instances are untouched.
    pub fn refine<F: Fn(V, V) -> V>(&mut self, midpoint: F)
        requires
            old(self).wf(),
            is_triangle_list(old(self).index_data@, old(self).vertex_data@.len()),
            old(self).vertex_data@.len() + old(self).index_data@.len() <= u32::MAX,
            forall|x: V, y: V| midpoint.requires((x, y)),
        ensures
            final(self).wf(),
            final(self).vertex_data@.len() == old(self).vertex_data@.len() + mesh_edges(
                old(self).index_data@,
            ).len(),
            final(self).vertex_data@.subrange(0, old(self).vertex_data@.len() as int)
                == old(self).vertex_data@,
            holds_midpoints(
                final(self).vertex_data@,
                old(self).vertex_data@,
                old(self).vertex_data@.len(),
                mesh_edges(old(self).index_data@),
                midpoint,
            ),
            subdivides(
                final(self).index_data@,
                old(self).index_data@,
                old(self).vertex_data@.len(),
                mesh_edges(old(self).index_data@),
            ),
            is_triangle_list(final(self).index_data@, final(self).vertex_data@.len()),
            final(self).vertex_data@.len() == old(self).vertex_data@.len() + edge_set(
                old(self).index_data@,
            ).len(),
            final(self).vertex_data@.len() <= old(self).vertex_data@.len()
                + old(self).index_data@.len(),
            final(self).index_data@.len() == 4 * old(self).index_data@.len(),
            final(self).handle_to_index@ == old(self).handle_to_index@,
            final(self).handles@ == old(self).handles@,
            final(self).instances@ == old(self).instances@,
            final(self).first_invisible == old(self).first_invisible,
            final(self).next_handle == old(self).next_handle,
    {
        broadcast use vstd::std_specs::hash::group_hash_axioms;

        let ghost n = self.vertex_data@.len();
        let ghost base = self.vertex_data@;
        let ghost indices = self.index_data@;
        let mut new_indices: Vec<u32> = Vec::new();
        let mut midpoints: HashMap<u64, u32> = HashMap::new();
        let triangles = self.index_data.len() / 3;
        let mut t: usize = 0;
        proof {
            assert(self.vertex_data@.subrange(0, n as int) =~= base);
            assert forall|a: u32, b: u32|
                #![trigger midpoints@.contains_key(edge_code(a, b))]
                !midpoints@.contains_key(edge_code(a, b)) && !lists_edge(
                    Seq::<(u32, u32)>::empty(),
                    a,
                    b,
                ) by {}
        }
        while t < triangles
            invariant
                old(self).wf(),
                indices == old(self).index_data@,
                self.index_data@ == indices,
                self.handle_to_index@ == old(self).handle_to_index@,
                self.handles@ == old(self).handles@,
                self.instances@ == old(self).instances@,
                self.first_invisible == old(self).first_invisible,
                self.next_handle == old(self).next_handle,
                n == base.len(),
                base == old(self).vertex_data@,
                is_triangle_list(indices, n),
                n + indices.len() <= u32::MAX,
                triangles == indices.len() / 3,
                forall|x: V, y: V| midpoint.requires((x, y)),
                0 <= t <= triangles,
                new_indices@.len() == 12 * t,
                edges_upto(indices, t as nat).len() <= 3 * t,
                self.vertex_data@.len() == n + edges_upto(indices, t as nat).len(),
                self.vertex_data@.subrange(0, n as int) == base,
                cache_models(midpoints@, edges_upto(indices, t as nat), n),
                holds_midpoints(self.vertex_data@, base, n, edges_upto(indices, t as nat), midpoint),
                forall|s: int|
                    0 <= s < t ==> #[trigger] splits_triangle(
                        new_indices@,
                        indices,
                        n,
                        edges_upto(indices, t as nat),
                        s,
                    ),
                forall|i: int|
                    0 <= i < new_indices@.len() ==> #[trigger] new_indices@[i] < n + edges_upto(
                        indices,
                        t as nat,
                    ).len(),
            decreases triangles - t,
        {
            let ghost e0 = edges_upto(indices, t as nat);
            let ghost before = new_indices@;
            assert(3 * t + 2 < indices.len());
            let a = self.index_data[3 * t];
            let b = self.index_data[3 * t + 1];
            let c = self.index_data[3 * t + 2];
            assert(a < n && b < n && c < n);
            let mab = midpoint_index(
                &mut self.vertex_data,
                &mut midpoints,
                a,
                b,
                &midpoint,
                Ghost(n),
                Ghost(base),
                Ghost(e0),
            );
            let ghost e1 = add_edge(e0, a, b);
            let mbc = midpoint_index(
                &mut self.vertex_data,
                &mut midpoints,
                b,
                c,
                &midpoint,
                Ghost(n),
                Ghost(base),
                Ghost(e1),
            );
            let ghost e2 = add_edge(e1, b, c);
            let mca = midpoint_index(
                &mut self.vertex_data,
                &mut midpoints,
                c,
                a,
                &midpoint,
                Ghost(n),
                Ghost(base),
                Ghost(e2),
            );
            let ghost e3 = add_edge(e2, c, a);
            assert(e3 == edges_upto(indices, (t + 1) as nat));
            new_indices.push(mca);
            new_indices.push(a);
            new_indices.push(mab);
            new_indices.push(mab);
            new_indices.push(b);
            new_indices.push(mbc);
            new_indices.push(mbc);
            new_indices.push(c);
            new_indices.push(mca);
            new_indices.push(mab);
            new_indices.push(mbc);
            new_indices.push(mca);
            proof {
                assert(forall|k: int| 0 <= k < e0.len() ==> #[trigger] e3[k] == e0[k]);
                assert(forall|k: int| 0 <= k < e1.len() ==> #[trigger] e3[k] == e1[k]);
                assert(forall|k: int| 0 <= k < e2.len() ==> #[trigger] e3[k] == e2[k]);
                assert(forall|i: int| 0 <= i < before.len() ==> #[trigger] new_indices@[i] == before[i]);
                assert forall|s: int| 0 <= s < t + 1 implies #[trigger] splits_triangle(
                    new_indices@,
                    indices,
                    n,
                    e3,
                    s,
                ) by {
                    if s < t {
                        assert(splits_triangle(before, indices, n, e0, s));
                    }
                }
            }
            t = t + 1;
        }
        proof {
            assert(triangles == indices.len() / 3);
            assert(new_indices@.len() == 4 * indices.len());
            lemma_one_midpoint_per_edge(indices);
        }
        self.index_data = new_indices;
    }

    /// An icosphere: the icosahedron over `vertices`, refined `refinements`
    /// times with `midpoint`, and every vertex then passed through `project`
    /// (which puts it on the unit sphere). No instances.
    pub fn sphere<F: Fn(V, V) -> V, G: Fn(V) -> V>(
        vertices: [V; 12],
        refinements: u32,
        midpoint: F,
        project: G,
    ) -> (m: Self)
        requires
            refinements <= 13,
            forall|x: V, y: V| midpoint.requires((x, y)),
            forall|x: V| project.requires((x,)),
        ensures
            m.wf(),
            m.len() == 0,
            m.first_invisible == 0,
            m.next_handle == 0,
            m.index_data@.len() == 60 * pow4(refinements as nat),
            is_triangle_list(m.index_data@, m.vertex_data@.len()),
            forall|i: int|
                0 <= i < m.vertex_data@.len() ==> is_image_of(project, #[trigger] m.vertex_data@[i]),
            refinements == 0 ==> {
                &&& m.index_data@ == icosahedron_triangles()
                &&& m.vertex_data@.len() == 12
                &&& forall|i: int|
                    0 <= i < 12 ==> project.ensures((vertices@[i],), #[trigger] m.vertex_data@[i])
            },
    {
        let mut model = Model::icosahedron(vertices);
        let mut r: u32 = 0;
        while r < refinements
            invariant
                0 <= r <= refinements <= 13,
                forall|x: V, y: V| midpoint.requires((x, y)),
                model.wf(),
                model.len() == 0,
                model.first_invisible == 0,
                model.next_handle == 0,
                is_triangle_list(model.index_data@, model.vertex_data@.len()),
                model.index_data@.len() == 60 * pow4(r as nat),
                model.vertex_data@.len() + 8 <= 20 * pow4(r as nat),
                r == 0 ==> model.vertex_data@ == vertices@,
                r == 0 ==> model.index_data@ == icosahedron_triangles(),
            decreases refinements - r,
        {
            proof {
                lemma_pow4_monotone(r as nat, 12);
                reveal_with_fuel(pow4, 13);
                assert(pow4(12) == 16777216);
            }
            model.refine(&midpoint);
            r = r + 1;
        }
        let ghost refined = model.vertex_data@;
        let n = model.vertex_data.len();
        let mut i: usize = 0;
        while i < n
            invariant
                0 <= i <= n,
                n == refined.len(),
                forall|x: V| project.requires((x,)),
                model.vertex_data@.len() == n,
                model.index_data@.len() == 60 * pow4(refinements as nat),
                is_triangle_list(model.index_data@, n as nat),
                model.wf(),
                model.len() == 0,
                model.first_invisible == 0,
                model.next_handle == 0,
                refinements == 0 ==> refined == vertices@,
                refinements == 0 ==> model.index_data@ == icosahedron_triangles(),
                forall|j: int| i <= j < n ==> model.vertex_data@[j] == refined[j],
                forall|j: int|
                    0 <= j < i ==> project.ensures((refined[j],), #[trigger] model.vertex_data@[j]),
            decreases n - i,
        {
            let v = model.vertex_data[i];
            let p = project(v);
            model.vertex_data.set(i, p);
            i = i + 1;
        }
        proof {
            assert forall|j: int| 0 <= j < model.vertex_data@.len() implies is_image_of(
                project,
                #[trigger] model.vertex_data@[j],
            ) by {
                assert(project.ensures((refined[j],), model.vertex_data@[j]));
            }
        }
        model
    }
}

} // verus!
