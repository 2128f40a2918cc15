use traffic_sim::grid::Grid;
use traffic_sim::vehicle::Vehicle;

fn at(id: usize, x: i64, y: i64) -> Vehicle {
    let mut v = Vehicle::with_turn_roll(id, 50, 10, 10, 0, 0);
    v.bounds.x = x;
    v.bounds.y = y;
    v
}

#[test]
fn neighbors_come_from_the_surrounding_cells() {
    let mut g = Grid::new(10000);
    g.add_vehicle(&at(1, 5000, 5000));
    g.add_vehicle(&at(2, 15000, 5000));
    g.add_vehicle(&at(3, 25000, 5000));
    g.add_vehicle(&at(4, -5000, 5000));
    g.add_vehicle(&at(5, 5000, 15000));
    g.add_vehicle(&at(6, 6000, 6000));
    assert_eq!(g.entries[3], (-1, 0, 4));
    // Cells are visited column by column: (-1, *), (0, *), (1, *).
    assert_eq!(g.get_neighbors(5000, 5000), vec![4, 1, 6, 5, 2]);
    assert_eq!(g.get_neighbors(25000, 5000), vec![2, 3]);
    assert!(g.get_neighbors(100000, 100000).is_empty());
    assert_eq!(g.get_neighbors(-1, -1), vec![4, 1, 6]);
}
