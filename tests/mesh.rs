use std::collections::HashSet;

use krakatoa::Model;

#[derive(Clone, Copy, Debug, PartialEq)]
struct Vertex {
    position: [f32; 3],
    normal: [f32; 3],
}

fn normalize(v: [f32; 3]) -> [f32; 3] {
    let l = (v[0] * v[0] + v[1] * v[1] + v[2] * v[2]).sqrt();
    [v[0] / l, v[1] / l, v[2] / l]
}

fn midpoint(a: Vertex, b: Vertex) -> Vertex {
    let mut position = [0.0; 3];
    let mut normal = [0.0; 3];
    for i in 0..3 {
        position[i] = 0.5 * (a.position[i] + b.position[i]);
        normal[i] = 0.5 * (a.normal[i] + b.normal[i]);
    }
    Vertex { position, normal }
}

fn project(v: Vertex) -> Vertex {
    let p = normalize(v.position);
    Vertex { position: p, normal: p }
}

fn icosahedron_vertices() -> [Vertex; 12] {
    let phi = (1.0 + 5.0_f32.sqrt()) / 2.0;
    let corners = [
        [phi, -1.0, 0.0],
        [phi, 1.0, 0.0],
        [-phi, -1.0, 0.0],
        [-phi, 1.0, 0.0],
        [1.0, 0.0, -phi],
        [-1.0, 0.0, -phi],
        [1.0, 0.0, phi],
        [-1.0, 0.0, phi],
        [0.0, -phi, -1.0],
        [0.0, -phi, 1.0],
        [0.0, phi, -1.0],
        [0.0, phi, 1.0],
    ];
    corners.map(|p| Vertex { position: p, normal: normalize(p) })
}

fn cube_corners() -> [Vertex; 8] {
    let corners = [
        [-1.0, 1.0, 0.0],
        [-1.0, 1.0, 1.0],
        [-1.0, -1.0, 0.0],
        [-1.0, -1.0, 1.0],
        [1.0, 1.0, 0.0],
        [1.0, 1.0, 1.0],
        [1.0, -1.0, 0.0],
        [1.0, -1.0, 1.0],
    ];
    corners.map(|p| Vertex { position: p, normal: p })
}

fn unique_edges(indices: &[u32]) -> usize {
    let mut edges = HashSet::new();
    for t in indices.chunks(3) {
        for (a, b) in [(t[0], t[1]), (t[1], t[2]), (t[2], t[0])] {
            edges.insert((a.min(b), a.max(b)));
        }
    }
    edges.len()
}

#[test]
fn cube_has_eight_vertices_and_twelve_triangles() {
    let m: Model<Vertex, u8> = Model::cube(cube_corners());
    assert_eq!(m.vertex_data.len(), 8);
    assert_eq!(m.index_data.len(), 36);
    assert_eq!(&m.index_data[..6], &[0, 1, 5, 0, 5, 4]);
    assert!(m.index_data.iter().all(|&i| i < 8));
    assert_eq!(m.vertex_data[5].position, [1.0, 1.0, 1.0]);
    assert_eq!(m.instances.len(), 0);
    assert_eq!(m.first_invisible, 0);
}

#[test]
fn icosahedron_has_twelve_vertices_and_twenty_triangles() {
    let m: Model<Vertex, u8> = Model::icosahedron(icosahedron_vertices());
    assert_eq!(m.vertex_data.len(), 12);
    assert_eq!(m.index_data.len(), 60);
    assert_eq!(&m.index_data[..3], &[0, 9, 8]);
    assert_eq!(unique_edges(&m.index_data), 30);
}

#[test]
fn sphere_zero_is_the_projected_icosahedron() {
    let m: Model<Vertex, u8> = Model::sphere(icosahedron_vertices(), 0, midpoint, project);
    assert_eq!(m.vertex_data.len(), 12);
    assert_eq!(m.index_data.len(), 60);
    for v in &m.vertex_data {
        let l = (v.position.iter().map(|x| x * x).sum::<f32>()).sqrt();
        assert!((l - 1.0).abs() < 1e-5);
    }
}

#[test]
fn sphere_one_has_forty_two_vertices() {
    let m: Model<Vertex, u8> = Model::sphere(icosahedron_vertices(), 1, midpoint, project);
    assert_eq!(m.vertex_data.len(), 42);
    assert_eq!(m.index_data.len(), 240);
    for v in &m.vertex_data {
        let l = (v.position.iter().map(|x| x * x).sum::<f32>()).sqrt();
        assert!((l - 1.0).abs() < 1e-5);
        assert_eq!(v.position, v.normal);
    }
}

#[test]
fn sphere_counts_grow_per_refinement() {
    let mut vertices = 12;
    let mut triangles = 20;
    for r in 0..4u32 {
        let m: Model<Vertex, u8> = Model::sphere(icosahedron_vertices(), r, midpoint, project);
        assert_eq!(m.index_data.len(), 3 * triangles);
        assert_eq!(m.vertex_data.len(), vertices);
        assert!(m.index_data.iter().all(|&i| (i as usize) < vertices));
        vertices += unique_edges(&m.index_data);
        triangles *= 4;
    }
}

#[test]
fn refining_one_triangle_adds_three_vertices() {
    let mut m: Model<u32, u8> = Model::with_mesh(vec![10, 20, 30], vec![0, 1, 2]);
    m.refine(|a, b| a + b);
    assert_eq!(m.vertex_data, vec![10, 20, 30, 30, 50, 40]);
    assert_eq!(m.index_data, vec![5, 0, 3, 3, 1, 4, 4, 2, 5, 3, 4, 5]);
}

#[test]
fn refining_shares_midpoints_of_common_edges() {
    let mut m: Model<u32, u8> = Model::with_mesh(vec![1, 2, 4, 8], vec![0, 1, 2, 2, 1, 3]);
    m.refine(|a, b| a + b);
    assert_eq!(m.vertex_data.len(), 4 + 5);
    assert_eq!(m.index_data.len(), 24);
    assert_eq!(m.index_data[5], m.index_data[14]);
    assert_eq!(m.vertex_data[m.index_data[5] as usize], 6);
}

#[test]
fn refining_a_closed_mesh_adds_one_vertex_per_edge() {
    let mut m: Model<Vertex, u8> = Model::cube(cube_corners());
    let edges = unique_edges(&m.index_data);
    assert_eq!(edges, 18);
    m.refine(midpoint);
    assert_eq!(m.vertex_data.len(), 8 + 18);
    assert_eq!(m.index_data.len(), 144);
}

#[test]
fn refine_keeps_instances() {
    let mut m: Model<u32, char> = Model::with_mesh(vec![1, 2, 4], vec![0, 1, 2]);
    let h = m.insert_visibly('q');
    m.refine(|a, b| a + b);
    assert_eq!(m.get(h), Some(&'q'));
    assert_eq!(m.first_invisible, 1);
}
