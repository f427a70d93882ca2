use pyre::geometry::mesh::uv_sphere_indices;

#[test]
fn sphere_cells_become_two_triangles() {
    assert_eq!(
        uv_sphere_indices(2, 1),
        vec![0, 3, 4, 0, 4, 1, 1, 4, 5, 1, 5, 2]
    );
    assert_eq!(uv_sphere_indices(1, 2), vec![0, 2, 3, 0, 3, 1, 2, 4, 5, 2, 5, 3]);
}

#[test]
fn sphere_indices_name_existing_vertices() {
    let idx = uv_sphere_indices(64, 32);
    assert_eq!(idx.len(), 6 * 64 * 32);
    assert!(idx.iter().all(|&i| i < 65 * 33));
    assert_eq!(*idx.iter().max().unwrap(), 65 * 33 - 1);
}

#[test]
fn degenerate_spheres_have_no_triangles() {
    assert!(uv_sphere_indices(0, 5).is_empty());
    assert!(uv_sphere_indices(7, 0).is_empty());
}
