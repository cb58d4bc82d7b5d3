use sprite_editor::geometry::{CellGeometry, Layout, Pointer, Rect};

fn packed(cell_size: u32, gap: u32) -> CellGeometry {
    CellGeometry { origin_x: 0, origin_y: 0, cell_size, gap, layout: Layout::Packed }
}

fn spaced(cell_size: u32, gap: u32) -> CellGeometry {
    CellGeometry { origin_x: 0, origin_y: 0, cell_size, gap, layout: Layout::Spaced }
}

#[test]
fn pointer_inside_first_cell() {
    let geometry = packed(10, 1);
    assert_eq!(geometry.cell_at(Pointer { x: 5, y: 5 }, 8, 8), Some((0, 0)));
}

#[test]
fn pointer_on_gap_boundary_is_over_no_cell() {
    let geometry = packed(10, 1);
    assert_eq!(geometry.cell_at(Pointer { x: 10, y: 10 }, 8, 8), None);
    assert_eq!(geometry.cell_at(Pointer { x: 10, y: 5 }, 8, 8), None);
    assert_eq!(geometry.cell_at(Pointer { x: 5, y: 10 }, 8, 8), None);
    assert_eq!(geometry.cell_at(Pointer { x: 0, y: 0 }, 8, 8), None);
    assert_eq!(geometry.cell_at(Pointer { x: 11, y: 11 }, 8, 8), Some((1, 1)));
    assert_eq!(geometry.cell_at(Pointer { x: 9, y: 9 }, 8, 8), Some((0, 0)));
}

#[test]
fn spaced_cells_start_after_the_gap() {
    let geometry = spaced(10, 1);
    // Cell 0 covers 1..11, the gap is at 11, cell 1 covers 12..22.
    assert_eq!(geometry.cell_at(Pointer { x: 0, y: 5 }, 8, 8), None);
    assert_eq!(geometry.cell_at(Pointer { x: 1, y: 1 }, 8, 8), Some((0, 0)));
    assert_eq!(geometry.cell_at(Pointer { x: 5, y: 5 }, 8, 8), Some((0, 0)));
    assert_eq!(geometry.cell_at(Pointer { x: 10, y: 10 }, 8, 8), Some((0, 0)));
    assert_eq!(geometry.cell_at(Pointer { x: 11, y: 11 }, 8, 8), None);
    assert_eq!(geometry.cell_at(Pointer { x: 12, y: 25 }, 8, 8), Some((1, 2)));
}

#[test]
fn pointer_outside_the_grid_is_over_no_cell() {
    let geometry = spaced(10, 1);
    assert_eq!(geometry.cell_at(Pointer { x: -3, y: 5 }, 8, 8), None);
    assert_eq!(geometry.cell_at(Pointer { x: 5, y: -1 }, 8, 8), None);
    assert_eq!(geometry.cell_at(Pointer { x: 8 * 11 + 1, y: 5 }, 8, 8), None);
    assert_eq!(geometry.cell_at(Pointer { x: 8 * 11 - 1, y: 5 }, 8, 8), Some((7, 0)));
    assert_eq!(geometry.cell_at(Pointer { x: 5, y: 5 }, 0, 8), None);
    assert_eq!(geometry.cell_at(Pointer { x: i32::MAX, y: i32::MAX }, 8, 8), None);
    assert_eq!(geometry.cell_at(Pointer { x: i32::MIN, y: i32::MIN }, 8, 8), None);
}

#[test]
fn origin_shifts_the_cells() {
    let geometry = CellGeometry {
        origin_x: 100,
        origin_y: -20,
        cell_size: 30,
        gap: 0,
        layout: Layout::Packed,
    };
    assert_eq!(geometry.cell_at(Pointer { x: 100, y: -20 }, 5, 2), Some((0, 0)));
    assert_eq!(geometry.cell_at(Pointer { x: 99, y: -20 }, 5, 2), None);
    assert_eq!(geometry.cell_at(Pointer { x: 249, y: 39 }, 5, 2), Some((4, 1)));
    assert_eq!(geometry.cell_at(Pointer { x: 250, y: 39 }, 5, 2), None);
    assert_eq!(geometry.cell_at(Pointer { x: 249, y: 40 }, 5, 2), None);
}

#[test]
fn cells_without_size_are_never_hit() {
    for geometry in [packed(0, 0), spaced(0, 0), spaced(0, 3), packed(2, 5)] {
        for x in -2..20 {
            assert_eq!(geometry.cell_at(Pointer { x, y: x }, 8, 8), None);
        }
    }
}

#[test]
fn hit_test_agrees_with_the_cell_squares() {
    let geometries = [
        packed(10, 1),
        spaced(10, 1),
        spaced(4, 3),
        packed(5, 2),
        CellGeometry { origin_x: -7, origin_y: 13, cell_size: 6, gap: 2, layout: Layout::Spaced },
    ];
    for geometry in geometries {
        for py in -30..80 {
            for px in -30..80 {
                let pointer = Pointer { x: px, y: py };
                let mut covering = Vec::new();
                for y in 0..4 {
                    for x in 0..5 {
                        let rect = geometry.cell_rect(x, y).unwrap();
                        if rect.contains(pointer) {
                            covering.push((x, y));
                        }
                    }
                }
                match geometry.cell_at(pointer, 5, 4) {
                    Some(cell) => assert_eq!(covering, vec![cell]),
                    None => assert_eq!(covering, vec![]),
                }
            }
        }
    }
}

#[test]
fn cell_rect_follows_the_layout() {
    assert_eq!(spaced(10, 1).cell_rect(0, 0), Some(Rect { left: 1, top: 1, side: 10 }));
    assert_eq!(spaced(10, 1).cell_rect(3, 2), Some(Rect { left: 34, top: 23, side: 10 }));
    assert_eq!(packed(10, 1).cell_rect(3, 2), Some(Rect { left: 31, top: 21, side: 9 }));
    assert_eq!(packed(10, 0).cell_rect(3, 2), Some(Rect { left: 30, top: 20, side: 10 }));
    assert_eq!(packed(2, 5).cell_rect(1, 0), Some(Rect { left: 7, top: 5, side: 0 }));
    assert_eq!(spaced(u32::MAX, u32::MAX).cell_rect(usize::MAX, 0), None);
}

#[test]
fn rect_holds_its_left_edge_and_not_its_right() {
    let rect = Rect { left: 1, top: 1, side: 10 };
    assert!(rect.contains(Pointer { x: 1, y: 1 }));
    assert!(rect.contains(Pointer { x: 10, y: 10 }));
    assert!(!rect.contains(Pointer { x: 11, y: 5 }));
    assert!(!rect.contains(Pointer { x: 5, y: 11 }));
    assert!(!rect.contains(Pointer { x: 0, y: 5 }));
    assert!(!Rect { left: i64::MAX, top: 0, side: u32::MAX }.contains(Pointer { x: 0, y: 0 }));
}

#[test]
fn fit_divides_the_budget() {
    let geometry = CellGeometry::fit(666, 8, Layout::Packed).unwrap();
    assert_eq!(geometry.cell_size, 82);
    assert_eq!(geometry.gap, 1);
    assert_eq!((geometry.origin_x, geometry.origin_y), (0, 0));
    assert_eq!(geometry.layout, Layout::Packed);
    assert_eq!(CellGeometry::fit(88, 8, Layout::Spaced).unwrap().cell_size, 10);
    assert_eq!(CellGeometry::fit(95, 8, Layout::Spaced).unwrap().cell_size, 10);
    assert_eq!(CellGeometry::fit(8, 8, Layout::Spaced).unwrap().cell_size, 0);
    assert_eq!(CellGeometry::fit(666, 1, Layout::Spaced).unwrap().cell_size, 665);
}

#[test]
fn fit_refuses_no_cells_and_too_many() {
    assert_eq!(CellGeometry::fit(666, 0, Layout::Packed), None);
    assert_eq!(CellGeometry::fit(7, 8, Layout::Packed), None);
    assert_eq!(CellGeometry::fit(0, 1, Layout::Spaced), None);
    assert_eq!(CellGeometry::fit(u32::MAX, usize::MAX, Layout::Packed), None);
}
