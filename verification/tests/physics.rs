use bbman::geom::{Vec3, SUB};
use bbman::grid::Grid;
use bbman::physics::{respond, Body, Collision, MoveError, System};

fn cube_grid(kind: Collision) -> Grid<Collision> {
    Grid::new_with_default(1, 1, 1, 1, 1, 1, &kind).unwrap()
}

fn unit_body(x: i64, y: i64, z: i64, nailed: bool, kind: Collision) -> Body {
    Body::new(
        Vec3::new(x * SUB, y * SUB, z * SUB),
        Vec3::new(SUB, SUB, SUB),
        Vec3::zero(),
        nailed,
        cube_grid(kind),
    )
}

#[test]
fn respond_air_and_trap_pass_unchanged() {
    let v = Vec3::new(100, -200, 0);
    assert_eq!(respond(Collision::Air, v), v);
    assert_eq!(respond(Collision::Trap, v), v);
}

#[test]
fn respond_solid_absorbs_everything() {
    let v = Vec3::new(100, -200, 300);
    assert_eq!(respond(Collision::Solid, v), Vec3::zero());
}

#[test]
fn respond_fluid_divides_toward_zero() {
    let v = Vec3::new(1024, -1024, 7);
    assert_eq!(respond(Collision::Fluid(2), v), Vec3::new(512, -512, 3));
    // A factor of one behaves as air.
    assert_eq!(respond(Collision::Fluid(1), v), v);
}

#[test]
fn respond_ledge_filters_by_sign_per_axis() {
    let d = Vec3::new(1, -1, 0);
    // Signs agree on x, disagree on y; z of the request is zero and the
    // direction's z is zero, so the zero z-component passes.
    assert_eq!(
        respond(Collision::Ledge(d), Vec3::new(5, 7, 0)),
        Vec3::new(5, 0, 0)
    );
    assert_eq!(
        respond(Collision::Ledge(d), Vec3::new(-5, -7, 0)),
        Vec3::new(0, -7, 0)
    );
    // The x answer does not depend on the y component.
    assert_eq!(respond(Collision::Ledge(d), Vec3::new(5, -7, 0)).x, 5);
    assert_eq!(respond(Collision::Ledge(d), Vec3::new(5, 900, 0)).x, 5);
    // A zero direction component blocks any motion on that axis.
    assert_eq!(respond(Collision::Ledge(d), Vec3::new(0, 0, 9)).z, 0);
}

#[test]
fn move_body_zero_vector_is_noop() {
    let mut system = System::new();
    system.insert("a".to_owned(), unit_body(0, 0, 0, false, Collision::Air));
    let report = system.move_body("a", Vec3::zero()).unwrap();
    assert_eq!(report.applied, Vec3::zero());
    assert!(!report.degenerate);
    assert_eq!(system.bodies.len(), 1);
    assert_eq!(*system.get("a").unwrap().position(), Vec3::zero());
}

#[test]
fn move_body_unknown_id_reports_and_leaves_registry() {
    let mut system = System::new();
    let err = system.move_body("ghost", Vec3::new(SUB, 0, 0)).unwrap_err();
    assert_eq!(err, MoveError::UnknownBodyId);
    assert_eq!(system.bodies.len(), 0);
}

#[test]
fn move_body_nailed_never_moves() {
    let mut system = System::new();
    system.insert("n".to_owned(), unit_body(0, 0, 0, true, Collision::Air));
    // A solid wall right next to it changes nothing either way.
    system.insert("wall".to_owned(), unit_body(1, 0, 0, false, Collision::Solid));
    let report = system.move_body("n", Vec3::new(5 * SUB, -3 * SUB, SUB)).unwrap();
    assert_eq!(report.applied, Vec3::zero());
    assert_eq!(*system.get("n").unwrap().position(), Vec3::zero());
    assert_eq!(system.bodies.len(), 2);
}

#[test]
fn move_body_through_empty_world_is_exact() {
    let mut system = System::new();
    system.insert("a".to_owned(), unit_body(0, 0, 0, false, Collision::Air));
    let v = Vec3::new(5 * SUB, -2 * SUB, 3 * SUB + 17);
    let report = system.move_body("a", v).unwrap();
    assert_eq!(report.applied, v);
    assert!(!report.degenerate);
    assert_eq!(*system.get("a").unwrap().position(), v);
}

#[test]
fn move_body_degenerate_body_gets_full_vector() {
    let mut system = System::new();
    let flat = Body::new(
        Vec3::zero(),
        Vec3::new(0, 0, 0),
        Vec3::zero(),
        false,
        cube_grid(Collision::Air),
    );
    system.insert("flat".to_owned(), flat);
    let v = Vec3::new(SUB, SUB, SUB);
    let report = system.move_body("flat", v).unwrap();
    assert!(report.degenerate);
    assert_eq!(report.applied, v);
    assert_eq!(*system.get("flat").unwrap().position(), v);
}

#[test]
fn move_body_stops_before_solid() {
    // Two bodies: A at the origin, B two units to the right, all solid.
    // Requesting five units of travel must leave A adjacent to B.
    let mut system = System::new();
    system.insert("A".to_owned(), unit_body(0, 0, 0, false, Collision::Air));
    system.insert("B".to_owned(), unit_body(2, 0, 0, false, Collision::Solid));
    let report = system.move_body("A", Vec3::new(5 * SUB, 0, 0)).unwrap();
    assert_eq!(report.applied, Vec3::new(SUB, 0, 0));
    let a = system.get("A").unwrap();
    assert_eq!(*a.position(), Vec3::new(SUB, 0, 0));
    // A's occupied region [1, 2) does not overlap B's voxel at [2, 3).
    assert!(a.position().x + a.dimensions().x <= 2 * SUB);
    // B itself never moved.
    assert_eq!(*system.get("B").unwrap().position(), Vec3::new(2 * SUB, 0, 0));
}

#[test]
fn move_body_fluid_halves_travel() {
    // A corridor of fluid with factor two, eight units long, covering the
    // whole path: a request of four units travels exactly two.
    let mut system = System::new();
    system.insert("a".to_owned(), unit_body(0, 0, 0, false, Collision::Air));
    let corridor = Body::new(
        Vec3::new(SUB, 0, 0),
        Vec3::new(8 * SUB, SUB, SUB),
        Vec3::zero(),
        false,
        cube_grid(Collision::Fluid(2)),
    );
    system.insert("water".to_owned(), corridor);
    let report = system.move_body("a", Vec3::new(4 * SUB, 0, 0)).unwrap();
    assert_eq!(report.applied, Vec3::new(2 * SUB, 0, 0));
    assert_eq!(*system.get("a").unwrap().position(), Vec3::new(2 * SUB, 0, 0));

    // A fractional leftover divides toward zero: five subunits yield two.
    let report = system.move_body("a", Vec3::new(5, 0, 0)).unwrap();
    assert_eq!(report.applied, Vec3::new(2, 0, 0));
}

#[test]
fn move_body_ledge_blocks_disagreeing_sign() {
    // A ledge strip to the right of A that only admits leftward motion:
    // moving right is blocked at its edge, moving further left is free.
    let mut system = System::new();
    system.insert("a".to_owned(), unit_body(0, 0, 0, false, Collision::Air));
    let ledge = Body::new(
        Vec3::new(SUB, 0, 0),
        Vec3::new(4 * SUB, SUB, SUB),
        Vec3::zero(),
        false,
        cube_grid(Collision::Ledge(Vec3::new(-1, 0, 0))),
    );
    system.insert("ledge".to_owned(), ledge);
    let report = system.move_body("a", Vec3::new(3 * SUB, 0, 0)).unwrap();
    assert_eq!(report.applied, Vec3::zero());
    assert_eq!(*system.get("a").unwrap().position(), Vec3::zero());
}

#[test]
fn move_body_ledge_admits_agreeing_sign() {
    let mut system = System::new();
    system.insert("a".to_owned(), unit_body(0, 0, 0, false, Collision::Air));
    let ledge = Body::new(
        Vec3::new(SUB, 0, 0),
        Vec3::new(4 * SUB, SUB, SUB),
        Vec3::zero(),
        false,
        cube_grid(Collision::Ledge(Vec3::new(1, 0, 0))),
    );
    system.insert("ledge".to_owned(), ledge);
    let report = system.move_body("a", Vec3::new(3 * SUB, 0, 0)).unwrap();
    assert_eq!(report.applied, Vec3::new(3 * SUB, 0, 0));
    assert_eq!(*system.get("a").unwrap().position(), Vec3::new(3 * SUB, 0, 0));
}

#[test]
fn registry_insert_replace_remove_get() {
    let mut system = System::new();
    assert!(system.insert("a".to_owned(), unit_body(0, 0, 0, false, Collision::Air)).is_none());
    assert!(system.get("a").is_some());
    assert!(system.get("b").is_none());
    let prev = system
        .insert("a".to_owned(), unit_body(7, 0, 0, false, Collision::Air))
        .unwrap();
    assert_eq!(*prev.position(), Vec3::zero());
    assert_eq!(system.bodies.len(), 1);
    let removed = system.remove("a").unwrap();
    assert_eq!(*removed.position(), Vec3::new(7 * SUB, 0, 0));
    assert_eq!(system.bodies.len(), 0);
    assert!(system.remove("a").is_none());
}

#[test]
fn collision_at_scans_bodies() {
    let mut system = System::new();
    system.insert("wall".to_owned(), unit_body(2, 0, 0, false, Collision::Solid));
    assert_eq!(system.collision_at(Vec3::new(2 * SUB, 0, 0)), Collision::Solid);
    assert_eq!(system.collision_at(Vec3::new(2 * SUB - 1, 0, 0)), Collision::Air);
    assert_eq!(system.collision_at(Vec3::new(3 * SUB, 0, 0)), Collision::Air);
}

#[test]
fn collision_at_first_registered_body_answers() {
    // Where regions overlap, the body registered first decides.
    let mut system = System::new();
    system.insert("first".to_owned(), unit_body(0, 0, 0, false, Collision::Solid));
    system.insert("second".to_owned(), unit_body(0, 0, 0, false, Collision::Fluid(2)));
    assert_eq!(system.collision_at(Vec3::zero()), Collision::Solid);
}

#[test]
fn body_accessors_and_mutators() {
    let mut body = unit_body(1, 2, 3, false, Collision::Air);
    assert_eq!(*body.position(), Vec3::new(SUB, 2 * SUB, 3 * SUB));
    assert_eq!(*body.dimensions(), Vec3::new(SUB, SUB, SUB));
    assert_eq!(*body.rotation(), Vec3::zero());
    assert!(!body.nailed());
    assert_eq!(body.collision().width, 1);
    body.set_position(5, 6, 7);
    assert_eq!(*body.position(), Vec3::new(5, 6, 7));
    body.set_rotation(1, 1, 1);
    assert_eq!(*body.rotation(), Vec3::new(1, 1, 1));
    body.set_dimension(2 * SUB, SUB, SUB);
    assert_eq!(*body.dimensions(), Vec3::new(2 * SUB, SUB, SUB));
    body.translate(10, -6, 3);
    assert_eq!(*body.position(), Vec3::new(15, 0, 10));
    let (lo, hi) = body.aabb();
    assert_eq!(lo, Vec3::new(15, 0, 10));
    assert_eq!(hi, Vec3::new(15 + 2 * SUB, SUB, SUB + 10));
}
