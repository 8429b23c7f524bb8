use std::collections::HashMap;

use sketch_kernel::app::App;
use sketch_kernel::app::AppView;
use sketch_kernel::dsc::Quaternion;
use sketch_kernel::dsc::Vector;
use sketch_kernel::num::SCALE;
use sketch_kernel::polygon::SEdge;
use sketch_kernel::sketch::derive_point_position;
use sketch_kernel::sketch::remap_lookup_or_insert;
use sketch_kernel::sketch::EntityBaseType;
use sketch_kernel::sketch::EntityId;
use sketch_kernel::sketch::EntityKey;
use sketch_kernel::sketch::GroupCombineAs;
use sketch_kernel::sketch::GroupCopyAs;
use sketch_kernel::sketch::GroupPredef;
use sketch_kernel::sketch::GroupSolved;
use sketch_kernel::sketch::GroupSubtype;
use sketch_kernel::sketch::GroupType;
use sketch_kernel::sketch::HEntity;
use sketch_kernel::sketch::HGroup;
use sketch_kernel::sketch::HParam;
use sketch_kernel::sketch::KernelError;
use sketch_kernel::sketch::PolyError;
use sketch_kernel::sketch::Sketch;
use sketch_kernel::sketch::SolveResult;

fn predef() -> GroupPredef {
    GroupPredef {
        q: Quaternion { w: SCALE, vx: 0, vy: 0, vz: 0 },
        origin: HEntity { v: 0 },
        entity_b: HEntity { v: 0 },
        entity_c: HEntity { v: 0 },
        swap_uv: false,
        negate_u: false,
        negate_v: false,
    }
}

fn solved_ok() -> GroupSolved {
    GroupSolved {
        how: SolveResult::Okay,
        dof: 0,
        find_to_fix_timeout: 20,
        timeout: false,
        remove: Vec::new(),
    }
}

fn edge(a: Vector, b: Vector) -> SEdge {
    SEdge { tag: 0, auxA: 0, auxB: 0, a, b }
}

fn square_edges() -> Vec<SEdge> {
    let p = [
        Vector::new(0, 0, 0),
        Vector::new(SCALE, 0, 0),
        Vector::new(SCALE, SCALE, 0),
        Vector::new(0, SCALE, 0),
    ];
    vec![
        edge(p[0], p[1]),
        edge(p[1], p[2]),
        edge(p[2], p[3]),
        edge(p[3], p[0]),
    ]
}

#[test]
fn params_resolve_through_substitution_chains() {
    let mut sk = Sketch::new();
    let p0 = sk.add_param(5 * SCALE, true).unwrap();
    let p1 = sk.add_param(7 * SCALE, false).unwrap();
    assert_eq!(sk.resolve(p1).unwrap(), 7 * SCALE);
    sk.substitute(p1, p0).unwrap();
    assert_eq!(sk.resolve(p1).unwrap(), 5 * SCALE);
    // Editing the chain's root changes every substituted view of it.
    sk.edit_param(p0, 9 * SCALE).unwrap();
    assert_eq!(sk.resolve(p1).unwrap(), 9 * SCALE);
    assert_eq!(sk.resolve(p0).unwrap(), 9 * SCALE);
}

#[test]
fn substitution_must_point_backward() {
    let mut sk = Sketch::new();
    let p0 = sk.add_param(1, false).unwrap();
    let p1 = sk.add_param(2, false).unwrap();
    // Linking forward could close a cycle; the store refuses it.
    assert_eq!(sk.substitute(p0, p1), Err(KernelError::SubstitutionOrder));
    assert_eq!(sk.substitute(p0, p0), Err(KernelError::SubstitutionOrder));
    assert_eq!(
        sk.substitute(p1, HParam { v: 99 }),
        Err(KernelError::UnknownHandle)
    );
    assert_eq!(sk.resolve(p0).unwrap(), 1);
}

#[test]
fn vector_and_quaternion_from_params() {
    let mut sk = Sketch::new();
    let x = sk.add_param(SCALE, true).unwrap();
    let y = sk.add_param(2 * SCALE, true).unwrap();
    let z = sk.add_param(3 * SCALE, true).unwrap();
    let v = Vector::from_hparams(&sk, x, y, z).unwrap();
    assert_eq!((v.x, v.y, v.z), (SCALE, 2 * SCALE, 3 * SCALE));
    let w = sk.add_param(SCALE, true).unwrap();
    let q = Quaternion::from_hparams(&sk, w, x, y, z).unwrap();
    assert_eq!((q.w, q.vx, q.vy, q.vz), (SCALE, SCALE, 2 * SCALE, 3 * SCALE));
    assert_eq!(
        Vector::from_hparams(&sk, x, y, HParam { v: 77 }),
        Err(KernelError::UnknownHandle)
    );
}

#[test]
fn entity_point_slots_are_bounded() {
    let mut sk = Sketch::new();
    let g = HGroup { v: 0 };
    let twelve: Vec<HEntity> = (0..12).map(|i| HEntity { v: i }).collect();
    let thirteen: Vec<HEntity> = (0..13).map(|i| HEntity { v: i }).collect();
    let ok = sk.add_entity(
        EntityBaseType::Cubic,
        g,
        twelve,
        Vec::new(),
        HEntity { v: 0 },
        0,
    );
    assert!(ok.is_ok());
    let err = sk.add_entity(
        EntityBaseType::Cubic,
        g,
        thirteen,
        Vec::new(),
        HEntity { v: 0 },
        0,
    );
    assert_eq!(err, Err(KernelError::TooManyPoints));
}

#[test]
fn remap_is_deterministic_and_idempotent() {
    let mut m: HashMap<u64, u32> = HashMap::new();
    let key = EntityKey {
        input: HEntity { v: 7 },
        copy_number: 3,
    };
    let first = remap_lookup_or_insert(&mut m, key, EntityId { v: 42 });
    assert_eq!(first, EntityId { v: 42 });
    assert_eq!(m.len(), 1);
    // Re-deriving the same (template, copy) returns the identical
    // identity and does not grow the table.
    let second = remap_lookup_or_insert(&mut m, key, EntityId { v: 99 });
    assert_eq!(second, EntityId { v: 42 });
    assert_eq!(m.len(), 1);
    // A different copy number is a different key.
    let other = remap_lookup_or_insert(
        &mut m,
        EntityKey {
            input: HEntity { v: 7 },
            copy_number: 4,
        },
        EntityId { v: 99 },
    );
    assert_eq!(other, EntityId { v: 99 });
    assert_eq!(m.len(), 2);
}

#[test]
fn groups_may_only_reference_earlier_groups() {
    let mut sk = Sketch::new();
    let g0 = sk
        .create_group(
            GroupType::DrawingWorkplane,
            None,
            None,
            GroupSubtype::WorkplaneByPointOrtho,
            GroupCombineAs::Union,
            predef(),
            String::from("sketch"),
        )
        .unwrap();
    let g1 = sk
        .create_group(
            GroupType::Extrude,
            Some(g0),
            None,
            GroupSubtype::OneSided,
            GroupCombineAs::Union,
            predef(),
            String::from("extrude"),
        )
        .unwrap();
    assert_eq!(g1.v, 1);
    // Referencing a group that does not exist yet (itself, or a later
    // handle) is rejected.
    let bad = sk.create_group(
        GroupType::Extrude,
        Some(HGroup { v: 5 }),
        None,
        GroupSubtype::OneSided,
        GroupCombineAs::Union,
        predef(),
        String::from("bad"),
    );
    assert_eq!(bad, Err(KernelError::GroupOrder));
    let bad2 = sk.create_group(
        GroupType::Extrude,
        None,
        Some(HGroup { v: 2 }),
        GroupSubtype::OneSided,
        GroupCombineAs::Union,
        predef(),
        String::from("bad"),
    );
    assert_eq!(bad2, Err(KernelError::GroupOrder));
}

#[test]
fn derive_translated_copies() {
    let src = Vector::new(0, 0, 0);
    let origin = Vector::new(0, 0, 0);
    let trans = Vector::new(SCALE / 4, 0, 0);
    let q = Quaternion { w: SCALE, vx: 0, vy: 0, vz: 0 };
    let p3 = derive_point_position(GroupCopyAs::NTrans, src, origin, trans, q, 3);
    assert_eq!((p3.x, p3.y, p3.z), (3 * SCALE / 4, 0, 0));
    let p0 = derive_point_position(GroupCopyAs::NTrans, src, origin, trans, q, 0);
    assert_eq!((p0.x, p0.y, p0.z), (0, 0, 0));
    let same = derive_point_position(GroupCopyAs::NTrans, src, origin, trans, q, 3);
    assert_eq!((same.x, same.y, same.z), (p3.x, p3.y, p3.z));
}

#[test]
fn derive_rotated_copies() {
    // A quarter turn per copy about z: copy 2 is a half turn.
    let q = Quaternion::from_axis_angle(Vector::new(0, 0, SCALE), SCALE / 2);
    let src = Vector::new(SCALE, 0, 0);
    let origin = Vector::new(0, 0, 0);
    let trans = Vector::new(0, 0, 0);
    let p = derive_point_position(GroupCopyAs::NRotAA, src, origin, trans, q, 2);
    assert!((p.x + SCALE).abs() <= 4000, "{}", p.x);
    assert!(p.y.abs() <= 4000);
    assert!(p.z.abs() <= 4000);
}

#[test]
fn pipeline_extrudes_and_combines_with_empty_running_solid() {
    let mut sk = Sketch::new();
    let g = sk
        .create_group(
            GroupType::Extrude,
            None,
            None,
            GroupSubtype::OneSided,
            GroupCombineAs::Union,
            predef(),
            String::from("box"),
        )
        .unwrap();
    sk.solve_group(g, solved_ok()).unwrap();
    let diag = sk.extract_loops(g, &square_edges()).unwrap();
    assert_eq!(diag, PolyError::Good);
    assert!(sk.get_poly_error(g).is_none());
    let profile = vec![
        Vector::new(0, 0, 0),
        Vector::new(SCALE, 0, 0),
        Vector::new(SCALE, SCALE, 0),
        Vector::new(0, SCALE, 0),
    ];
    sk.build_solid(g, &profile, Vector::new(0, 0, SCALE)).unwrap();
    sk.combine_solid(g).unwrap();
    // The first group unions with the empty running solid: the
    // cumulative mesh is its own mesh.
    let m = sk.get_display_mesh(g).unwrap();
    assert_eq!(m.l.len(), 12);
}

#[test]
fn bad_loops_block_solid_building() {
    let mut sk = Sketch::new();
    let g = sk
        .create_group(
            GroupType::Extrude,
            None,
            None,
            GroupSubtype::OneSided,
            GroupCombineAs::Union,
            predef(),
            String::from("open"),
        )
        .unwrap();
    let mut open = square_edges();
    open.pop();
    let diag = sk.extract_loops(g, &open).unwrap();
    assert_eq!(diag, PolyError::NotClosed);
    let pe = sk.get_poly_error(g).unwrap();
    assert_eq!(pe.how, PolyError::NotClosed);
    let profile = vec![
        Vector::new(0, 0, 0),
        Vector::new(SCALE, 0, 0),
        Vector::new(SCALE, SCALE, 0),
    ];
    let r = sk.build_solid(g, &profile, Vector::new(0, 0, SCALE));
    assert_eq!(r, Err(KernelError::BadPolygon));
    // The group's meshes were left untouched.
    assert_eq!(sk.get_display_mesh(g).unwrap().l.len(), 0);
}

#[test]
fn timed_out_solve_keeps_stale_geometry() {
    let mut sk = Sketch::new();
    let g = sk
        .create_group(
            GroupType::Extrude,
            None,
            None,
            GroupSubtype::OneSided,
            GroupCombineAs::Union,
            predef(),
            String::from("box"),
        )
        .unwrap();
    sk.solve_group(g, solved_ok()).unwrap();
    sk.extract_loops(g, &square_edges()).unwrap();
    let profile = vec![
        Vector::new(0, 0, 0),
        Vector::new(SCALE, 0, 0),
        Vector::new(SCALE, SCALE, 0),
        Vector::new(0, SCALE, 0),
    ];
    sk.build_solid(g, &profile, Vector::new(0, 0, SCALE)).unwrap();
    sk.combine_solid(g).unwrap();
    let before = sk.get_display_mesh(g).unwrap().l.len();
    let timed_out = GroupSolved {
        how: SolveResult::DidntConverge,
        dof: 3,
        find_to_fix_timeout: 20,
        timeout: true,
        remove: Vec::new(),
    };
    sk.solve_group(g, timed_out).unwrap();
    // Stale-but-safe: the last valid geometry is still shown.
    assert_eq!(sk.get_display_mesh(g).unwrap().l.len(), before);
}

#[test]
fn only_extrusions_are_swept() {
    let mut sk = Sketch::new();
    let g = sk
        .create_group(
            GroupType::Lathe,
            None,
            None,
            GroupSubtype::OneSided,
            GroupCombineAs::Union,
            predef(),
            String::from("lathe"),
        )
        .unwrap();
    sk.extract_loops(g, &square_edges()).unwrap();
    let profile = vec![
        Vector::new(0, 0, 0),
        Vector::new(SCALE, 0, 0),
        Vector::new(SCALE, SCALE, 0),
    ];
    let r = sk.build_solid(g, &profile, Vector::new(0, 0, SCALE));
    assert_eq!(r, Err(KernelError::Unsupported));
}

#[test]
fn out_of_range_parameter_values_are_refused_as_coordinates() {
    let mut sk = Sketch::new();
    let huge = sk.add_param(2_000_000_000_000, true).unwrap();
    let ok = sk.add_param(SCALE, true).unwrap();
    let r = Vector::from_hparams(&sk, huge, ok, ok);
    assert_eq!(r, Err(KernelError::CoordRange));
}

#[test]
fn deleting_a_group_deletes_its_dependents() {
    let mut sk = Sketch::new();
    let g0 = sk
        .create_group(
            GroupType::DrawingWorkplane,
            None,
            None,
            GroupSubtype::WorkplaneByPointOrtho,
            GroupCombineAs::Union,
            predef(),
            String::from("a"),
        )
        .unwrap();
    let g1 = sk
        .create_group(
            GroupType::Extrude,
            Some(g0),
            None,
            GroupSubtype::OneSided,
            GroupCombineAs::Union,
            predef(),
            String::from("b"),
        )
        .unwrap();
    sk.delete_group(g0).unwrap();
    assert!(sk.get_display_mesh(g0).is_none());
    assert!(sk.get_display_mesh(g1).is_none());
}

#[test]
fn app_opens_the_component_designer_on_log_in() {
    let mut app = App::new();
    assert_eq!(app.current_view, AppView::LogInOrRegister);
    app.log_in();
    assert!(matches!(app.current_view, AppView::ComponentDesigner(_)));
}
