//! Handles, parameters, entities and groups: the sketch data model.
//!
//! Records reference each other through opaque 32-bit handles into
//! owning tables, never through pointers; rebuilding a group's derived
//! state simply abandons old handles.  The parameter store keeps
//! substitution chains pointing strictly toward older parameters, so
//! resolving a value always terminates and can never cycle.

use vstd::prelude::*;
use std::collections::HashMap;
use crate::dsc::Quaternion;
use crate::dsc::Vector;
use crate::polygon::SEdge;
use crate::polygon::SMesh;
use crate::polygon::STriangle;
use crate::polygon::SOutlineList;
use crate::polygon::SPolygon;
use crate::polygon::SShell;

verus! {

/// Diagnosis of a malformed polygon loop.
#[derive(Clone, Copy, PartialEq, Eq, Structural, Debug)]
pub enum PolyError {
    Good,
    NotClosed,
    NotCoplaner,
    SelfIntersecting,
    ZeroLenEdge,
}

/// Line stipple patterns for display styles.
#[derive(Clone, Copy, PartialEq, Eq, Structural, Debug)]
pub enum StripplePattern {
    Continuous,
    ShortDash,
    Dash,
    LongDash,
    DashDot,
    DashDotDot,
    Dot,
    Freehand,
    Zigzag,
}

/// Handle of a group.
#[derive(Clone, Copy, Hash, Ord, PartialOrd, Eq, PartialEq, Structural, Debug)]
pub struct HGroup {
    pub v: u32,
}

/// Handle of a request (a recorded user operation).
#[derive(Clone, Copy, Hash, Ord, PartialOrd, Eq, PartialEq, Structural, Debug)]
pub struct HRequest {
    pub v: u32,
}

/// Handle of a scalar parameter.
#[derive(Clone, Copy, Hash, Ord, PartialOrd, Eq, PartialEq, Structural, Debug)]
pub struct HParam {
    pub v: u32,
}

/// Handle of a display style.
#[derive(Clone, Copy, Hash, Ord, PartialOrd, Eq, PartialEq, Structural, Debug)]
pub struct HStyle {
    pub v: u32,
}

/// Identity of a derived entity within a group's remap table.
#[derive(Clone, Copy, Hash, Ord, PartialOrd, Eq, PartialEq, Structural, Debug)]
pub struct EntityId {
    pub v: u32,
}

/// Handle of an entity.
#[derive(Clone, Copy, Hash, Ord, PartialOrd, Eq, PartialEq, Structural, Debug)]
pub struct HEntity {
    pub v: u32,
}

/// Handle of a constraint.
#[derive(Clone, Copy, Hash, Ord, PartialOrd, Eq, PartialEq, Structural, Debug)]
pub struct HConstraint {
    pub v: u32,
}

/// Key of a group's remap table: the template entity together with the
/// copy number it is re-derived under.
#[derive(Clone, Copy, Hash, PartialOrd, PartialEq, Ord, Eq, Structural, Debug)]
pub struct EntityKey {
    pub input: HEntity,
    pub copy_number: i32,
}

/// How a group derives copies of its template entities.
#[derive(Clone, Copy, PartialEq, Eq, Structural, Debug)]
pub enum GroupCopyAs {
    Numeric,
    NTrans,
    NRotAA,
    NRotTrans,
    NRotAxisTrans,
}

/// What a group does.
#[derive(Clone, Copy, PartialEq, Eq, Structural, Debug)]
pub enum GroupType {
    Drawing3D,
    DrawingWorkplane,
    Extrude,
    Lathe,
    Revolve,
    Helix,
    Rotate,
    Translate,
    Linked,
}

/// How the numeric solver left a group.
#[derive(Clone, Copy, PartialEq, Eq, Structural, Debug)]
pub enum SolveResult {
    Okay,
    DidntConverge,
    RedundantOkay,
    RedundantDidntConverge,
    TooManyUnknowns,
}

/// Outcome of one constraint solve of a group.
#[derive(Clone, Debug)]
pub struct GroupSolved {
    pub how: SolveResult,
    pub dof: i32,
    pub find_to_fix_timeout: i32,
    pub timeout: bool,
    pub remove: Vec<HConstraint>,
}

/// Variant detail of a group.
#[derive(Clone, Copy, PartialEq, Eq, Structural, Debug)]
pub enum GroupSubtype {
    WorkplaneByPointOrtho,
    WorkplaneByLineSegments,
    OneSided,
    TwoSided,
}

/// The predefined frame a group is built on: a rotation, an origin
/// entity, two auxiliary entities, and flags reflecting the frame.
#[derive(Clone, Copy, PartialEq, Eq, Structural, Debug)]
pub struct GroupPredef {
    pub q: Quaternion,
    pub origin: HEntity,
    pub entity_b: HEntity,
    pub entity_c: HEntity,
    pub swap_uv: bool,
    pub negate_u: bool,
    pub negate_v: bool,
}

/// A loop diagnosis with its locating edge and representative point.
#[derive(Clone, Copy, PartialEq, Eq, Structural, Debug)]
pub struct GroupPolyError {
    pub how: PolyError,
    pub not_closed_at: SEdge,
    pub error_point_at: Vector,
}

/// How a group's solid combines with the running solid.
#[derive(Clone, Copy, PartialEq, Eq, Structural, Debug)]
pub enum GroupCombineAs {
    Union,
    Difference,
    Assemble,
    Intersection,
}

/// Distinguished remap slots for derived helper entities.
#[derive(Clone, Copy, PartialEq, Eq, Structural, Debug)]
pub enum GroupRemap {
    Last,
    Top,
    Bottom,
    PtToLine,
    LineToFace,
    LatheStart,
    LatheEnd,
    PtToArc,
    PtToNormal,
    LatheArcCenter,
}

/// A named scalar unknown of the solver.
#[derive(Clone, Copy, PartialEq, Eq, Structural, Debug)]
pub struct Param {
    pub tag: i32,
    pub h: HParam,
    pub val: i64,
    pub known: bool,
    pub free: bool,
    pub substd: Option<HParam>,
}

/// The tagged type of an entity.
#[derive(Clone, Copy, PartialEq, Eq, Structural, Debug)]
pub enum EntityBaseType {
    PointIn3D,
    PointIn2D,
    PointNTrans,
    PointNRotTrans,
    PointNCopy,
    PointNRotAA,
    PointNRotAxisTrans,
    NormalIn3D,
    NormalIn2D,
    NormalNCopy,
    NormalNRot,
    NormalRotAA,
    Distance,
    DistanceNCopy,
    FaceNormalPt,
    FaceXprod,
    FaceNRotTrans,
    FaceNTrans,
    FaceNRotAA,
    FaceRotNormalPt,
    FaceNRotAxisTrans,
    Workplane,
    LineSegment,
    Cubic,
    CubicPeriodic,
    Circle,
    ArcOfCircle,
    TtfText,
    Image,
}

/// Cap on the point slots of one entity: curves and faces reference a
/// fixed small number of control or anchor points.
pub const MAX_POINTS_IN_ENTITY: usize = 12;

/// A geometric entity: its type tag, owning group, bounded point
/// slots, parameter slots, and (for derived types) the source entity
/// with its copy number.
#[derive(Clone, Debug)]
pub struct EntityBase {
    pub tag: i32,
    pub h: HEntity,
    pub type_: EntityBaseType,
    pub group: HGroup,
    pub point: Vec<HEntity>,
    pub param: Vec<HParam>,
    pub source: HEntity,
    pub copy_number: i32,
}

impl EntityBase {
    /// The fixed point-slot bound holds.
    pub open spec fn wf(self) -> bool {
        self.point@.len() <= MAX_POINTS_IN_ENTITY
    }
}

/// Errors of the kernel's table operations.  Internal-defect
/// conditions (a substitution that would not point strictly backward,
/// an overfull entity, a coordinate out of the admissible range) are
/// reported loudly as errors, never absorbed into silently wrong
/// geometry.
#[derive(Clone, Copy, PartialEq, Eq, Structural, Debug)]
pub enum KernelError {
    UnknownHandle,
    SubstitutionOrder,
    TooManyPoints,
    GroupOrder,
    TableFull,
    BadPolygon,
    Unsupported,
    CoordRange,
}

/// A group's remap table: the packed `(template, copy)` key to the
/// derived entity's identity.
pub type EntityMap = HashMap<u64, u32>;

/// The remap key, packed: the template entity handle in the high half,
/// the copy number in the low half.
pub open spec fn key_code_spec(k: EntityKey) -> int {
    k.input.v * 0x1_0000_0000 + k.copy_number
}

/// Packing is injective over non-negative copy numbers: equal codes
/// mean equal `(template, copy)` pairs.
pub proof fn lemma_key_code_injective(k1: EntityKey, k2: EntityKey)
    requires
        k1.copy_number >= 0,
        k2.copy_number >= 0,
        key_code_spec(k1) == key_code_spec(k2),
    ensures
        k1.input.v == k2.input.v,
        k1.copy_number == k2.copy_number,
{
    vstd::arithmetic::div_mod::lemma_fundamental_div_mod_converse(
        key_code_spec(k1),
        0x1_0000_0000,
        k1.input.v as int,
        k1.copy_number as int,
    );
    vstd::arithmetic::div_mod::lemma_fundamental_div_mod_converse(
        key_code_spec(k2),
        0x1_0000_0000,
        k2.input.v as int,
        k2.copy_number as int,
    );
}

/// A group record.  Operand handles and the solve order are kept
/// consistent by `Sketch::wf`: a group only ever references groups of
/// strictly lower order.
#[derive(Debug)]
pub struct Group {
    pub tag: i32,
    pub h: HGroup,
    pub type_: GroupType,
    pub order: i32,
    pub op_a: Option<HGroup>,
    pub op_b: Option<HGroup>,
    pub visible: bool,
    pub suppress: bool,
    pub relax_constraints: bool,
    pub allow_redundant: bool,
    pub all_dims_reference: bool,
    pub scale: i64,
    pub clean: bool,
    pub dof_check_ok: bool,
    pub active_workplane: HEntity,
    pub val_a: i64,
    pub val_b: i64,
    pub val_c: i64,
    pub solved: GroupSolved,
    pub subtype: GroupSubtype,
    pub skip_first: bool,
    pub predef: GroupPredef,
    pub poly_loops: SPolygon,
    pub bezier_loops: crate::polygon::SBezierLoopSetSet,
    pub bezier_opens: crate::polygon::SBezierLoopSet,
    pub poly_error: GroupPolyError,
    pub boolean_failed: bool,
    pub this_shell: SShell,
    pub running_shell: SShell,
    pub this_mesh: SMesh,
    pub running_mesh: SMesh,
    pub display_dirty: bool,
    pub display_mesh: SMesh,
    pub display_outlines: SOutlineList,
    pub mesh_combine: GroupCombineAs,
    pub force_to_mesh: bool,
    pub remap: EntityMap,
    pub color: crate::dsc::RgbaColor,
    pub link_file: String,
    pub imp_mesh: SMesh,
    pub imp_shell: SShell,
    pub imp_entity: Vec<EntityBase>,
    pub name: String,
}

/// One open document: the tables every operation works on, passed
/// explicitly so documents and test fixtures can coexist.
pub struct Sketch {
    pub params: Vec<Param>,
    pub entities: Vec<EntityBase>,
    pub groups: Vec<Group>,
}

/// Parameter table invariant: handles index their slots, and a
/// substituted parameter points strictly backward and is not free.
pub open spec fn params_wf(params: Seq<Param>) -> bool {
    forall|i: int|
        0 <= i < params.len() ==> (#[trigger] params[i]).h.v == i && match params[i].substd {
            Some(h) => h.v < i && !params[i].free,
            None => true,
        }
}

/// The root of a substitution chain: follow `substd` links, which
/// strictly decrease, to a parameter that stands for itself.
pub open spec fn chain_root(params: Seq<Param>, i: int) -> int
    decreases i
        when 0 <= i < params.len() && params_wf(params)
{
    match params[i].substd {
        None => i,
        Some(h) => chain_root(params, h.v as int),
    }
}

impl Sketch {
    /// Every table is consistent: handles index their slots, entities
    /// respect the point-slot bound, and groups solve in handle order
    /// referencing only strictly earlier groups.
    pub open spec fn wf(self) -> bool {
        &&& params_wf(self.params@)
        &&& forall|i: int|
            0 <= i < self.entities@.len() ==> (#[trigger] self.entities@[i]).h.v == i
                && self.entities@[i].wf()
        &&& forall|i: int|
            0 <= i < self.groups@.len() ==> (#[trigger] self.groups@[i]).h.v == i
                && self.groups@[i].order == i && (match self.groups@[i].op_a {
                Some(h) => h.v < i,
                None => true,
            }) && (match self.groups@[i].op_b {
                Some(h) => h.v < i,
                None => true,
            })
    }

    pub fn new() -> (r: Sketch)
        ensures
            r.wf(),
            r.params@.len() == 0,
            r.entities@.len() == 0,
            r.groups@.len() == 0,
    {
        Sketch { params: Vec::new(), entities: Vec::new(), groups: Vec::new() }
    }

    /// Allocate a parameter, optionally pre-known with a fixed value;
    /// an unknown parameter starts as a free degree of freedom.
    pub fn add_param(&mut self, val: i64, known: bool) -> (r: Result<HParam, KernelError>)
        requires
            old(self).wf(),
        ensures
            final(self).wf(),
            final(self).entities@ == old(self).entities@,
            final(self).groups@ == old(self).groups@,
            old(self).params@.len() >= 0xffff_ffff ==> r == Err::<HParam, KernelError>(
                KernelError::TableFull,
            ) && final(self).params@ == old(self).params@,
            old(self).params@.len() < 0xffff_ffff ==> {
                let h = HParam { v: old(self).params@.len() as u32 };
                &&& r == Ok::<HParam, KernelError>(h)
                &&& final(self).params@ == old(self).params@.push(
                    Param { tag: 0, h, val, known, free: !known, substd: None },
                )
            },
    {
        if self.params.len() >= 0xffff_ffff {
            return Err(KernelError::TableFull);
        }
        let h = HParam { v: self.params.len() as u32 };
        self.params.push(Param { tag: 0, h, val, known, free: !known, substd: None });
        Ok(h)
    }

    /// Unify parameter `a` with parameter `b`: `a` is thereafter
    /// resolved through `b` and stops being a free unknown.  Only a
    /// link to a strictly older parameter is accepted, which is what
    /// keeps every substitution chain acyclic.
    pub fn substitute(&mut self, a: HParam, b: HParam) -> (r: Result<(), KernelError>)
        requires
            old(self).wf(),
        ensures
            final(self).wf(),
            final(self).entities@ == old(self).entities@,
            final(self).groups@ == old(self).groups@,
            (a.v >= old(self).params@.len() || b.v >= old(self).params@.len()) ==> r == Err::<
                (),
                KernelError,
            >(KernelError::UnknownHandle) && final(self).params@ == old(self).params@,
            (a.v < old(self).params@.len() && b.v < old(self).params@.len() && b.v >= a.v) ==> r
                == Err::<(), KernelError>(KernelError::SubstitutionOrder) && final(self).params@
                == old(self).params@,
            (a.v < old(self).params@.len() && b.v < old(self).params@.len() && b.v < a.v) ==> r
                == Ok::<(), KernelError>(()) && final(self).params@ == old(self).params@.update(
                a.v as int,
                Param {
                    tag: old(self).params@[a.v as int].tag,
                    h: old(self).params@[a.v as int].h,
                    val: old(self).params@[a.v as int].val,
                    known: old(self).params@[a.v as int].known,
                    free: false,
                    substd: Some(b),
                },
            ),
    {
        if a.v as usize >= self.params.len() || b.v as usize >= self.params.len() {
            return Err(KernelError::UnknownHandle);
        }
        if b.v >= a.v {
            return Err(KernelError::SubstitutionOrder);
        }
        let i = a.v as usize;
        let old_p = self.params[i];
        let new_p = Param {
            tag: old_p.tag,
            h: old_p.h,
            val: old_p.val,
            known: old_p.known,
            free: false,
            substd: Some(b),
        };
        self.params.remove(i);
        self.params.insert(i, new_p);
        proof {
            assert(self.params@ =~= old(self).params@.update(a.v as int, new_p));
        }
        Ok(())
    }

    /// The effective value of a parameter: follow the substitution
    /// chain to its root.  The chain strictly decreases, so with a
    /// well-formed table it cannot cycle.
    pub fn resolve(&self, h: HParam) -> (r: Result<i64, KernelError>)
        requires
            self.wf(),
        ensures
            h.v >= self.params@.len() ==> r == Err::<i64, KernelError>(KernelError::UnknownHandle),
            h.v < self.params@.len() ==> r == Ok::<i64, KernelError>(
                self.params@[chain_root(self.params@, h.v as int)].val,
            ),
    {
        if h.v as usize >= self.params.len() {
            return Err(KernelError::UnknownHandle);
        }
        let mut cur: usize = h.v as usize;
        loop
            invariant
                self.wf(),
                h.v < self.params@.len(),
                0 <= cur < self.params@.len(),
                chain_root(self.params@, h.v as int) == chain_root(self.params@, cur as int),
            decreases cur,
        {
            match self.params[cur].substd {
                None => {
                    return Ok(self.params[cur].val);
                },
                Some(nh) => {
                    cur = nh.v as usize;
                },
            }
        }
    }

    /// Add an entity; the fixed point-slot bound is enforced at
    /// construction, never grown past.
    pub fn add_entity(
        &mut self,
        type_: EntityBaseType,
        group: HGroup,
        point: Vec<HEntity>,
        param: Vec<HParam>,
        source: HEntity,
        copy_number: i32,
    ) -> (r: Result<HEntity, KernelError>)
        requires
            old(self).wf(),
        ensures
            final(self).wf(),
            final(self).params@ == old(self).params@,
            final(self).groups@ == old(self).groups@,
            point@.len() > MAX_POINTS_IN_ENTITY ==> r == Err::<HEntity, KernelError>(
                KernelError::TooManyPoints,
            ) && final(self).entities@ == old(self).entities@,
            point@.len() <= MAX_POINTS_IN_ENTITY && old(self).entities@.len() >= 0xffff_ffff ==> r
                == Err::<HEntity, KernelError>(KernelError::TableFull) && final(self).entities@
                == old(self).entities@,
            point@.len() <= MAX_POINTS_IN_ENTITY && old(self).entities@.len() < 0xffff_ffff ==> {
                let h = HEntity { v: old(self).entities@.len() as u32 };
                &&& r == Ok::<HEntity, KernelError>(h)
                &&& final(self).entities@.len() == old(self).entities@.len() + 1
                &&& final(self).entities@.last().h == h
                &&& final(self).entities@.last().type_ == type_
                &&& final(self).entities@.last().group == group
                &&& final(self).entities@.last().point@ == point@
                &&& final(self).entities@.last().param@ == param@
                &&& final(self).entities@.last().source == source
                &&& final(self).entities@.last().copy_number == copy_number
                &&& final(self).entities@.subrange(0, old(self).entities@.len() as int) == old(
                    self,
                ).entities@
            },
    {
        if point.len() > MAX_POINTS_IN_ENTITY {
            return Err(KernelError::TooManyPoints);
        }
        if self.entities.len() >= 0xffff_ffff {
            return Err(KernelError::TableFull);
        }
        let h = HEntity { v: self.entities.len() as u32 };
        self.entities.push(
            EntityBase { tag: 0, h, type_, group, point, param, source, copy_number },
        );
        proof {
            assert(self.entities@.subrange(0, old(self).entities@.len() as int) =~= old(
                self,
            ).entities@);
        }
        Ok(h)
    }
}

/// The packed remap key, executable.
pub fn key_code(k: EntityKey) -> (c: u64)
    requires
        k.copy_number >= 0,
    ensures
        c as int == key_code_spec(k),
{
    (k.input.v as u64) * 0x1_0000_0000u64 + (k.copy_number as u64)
}

/// What one remap lookup does to the table: a hit hands back the
/// recorded identity and leaves the table alone; a miss records the
/// offered fresh identity.
pub open spec fn spec_lookup_or_insert(m: Map<u64, u32>, code: u64, fresh: u32) -> (u32, Map<
    u64,
    u32,
>) {
    if m.contains_key(code) {
        (m[code], m)
    } else {
        (fresh, m.insert(code, fresh))
    }
}

/// Consult a group's remap table for `(template, copy)`, recording
/// `fresh` on a miss.  Re-deriving the same key always returns the
/// identity recorded first, so constraints attached to derived
/// entities survive re-solves.
pub fn remap_lookup_or_insert(remap: &mut EntityMap, key: EntityKey, fresh: EntityId) -> (r:
    EntityId)
    requires
        key.copy_number >= 0,
    ensures
        ({
            let (id, m2) = spec_lookup_or_insert(old(remap)@, key_code_spec(key) as u64, fresh.v);
            &&& r.v == id
            &&& final(remap)@ == m2
        }),
{
    broadcast use vstd::std_specs::hash::group_hash_axioms;

    let code = key_code(key);
    match remap.get(&code) {
        Some(id) => EntityId { v: *id },
        None => {
            remap.insert(code, fresh.v);
            fresh
        },
    }
}

/// Re-deriving a key is deterministic and idempotent: once a
/// `(template, copy)` pair is recorded, a second derivation of the
/// same pair returns the identical identity and the table does not
/// grow.
pub proof fn lemma_remap_deterministic(m: Map<u64, u32>, code: u64, fresh1: u32, fresh2: u32)
    requires
        m.dom().finite(),
    ensures
        ({
            let (id1, m1) = spec_lookup_or_insert(m, code, fresh1);
            let (id2, m2) = spec_lookup_or_insert(m1, code, fresh2);
            &&& id2 == id1
            &&& m2 == m1
            &&& m1.len() <= m.len() + 1
        }),
{
    let (id1, m1) = spec_lookup_or_insert(m, code, fresh1);
    if !m.contains_key(code) {
        vstd::map::axiom_map_insert_domain(m, code, fresh1);
        assert(m1.dom() =~= m.dom().insert(code));
        vstd::set::axiom_set_insert_len(m.dom(), code);
    }
}

/// A group only ever references, directly through either operand, a
/// group of strictly lower order; the reference chain can never run
/// forward or cycle.
pub proof fn lemma_group_ordering(sk: Sketch, i: int)
    requires
        sk.wf(),
        0 <= i < sk.groups@.len(),
    ensures
        match sk.groups@[i].op_a {
            Some(h) => h.v < i && sk.groups@[h.v as int].order < sk.groups@[i].order,
            None => true,
        },
        match sk.groups@[i].op_b {
            Some(h) => h.v < i && sk.groups@[h.v as int].order < sk.groups@[i].order,
            None => true,
        },
{
}

/// Fields of a group record untouched by the solve bookkeeping.
pub open spec fn same_group_geometry(g1: Group, g2: Group) -> bool {
    &&& g1.poly_error == g2.poly_error
    &&& g1.poly_loops.l@ == g2.poly_loops.l@
    &&& g1.this_mesh.l@ == g2.this_mesh.l@
    &&& g1.running_mesh.l@ == g2.running_mesh.l@
    &&& g1.this_shell.faces@ == g2.this_shell.faces@
    &&& g1.running_shell.faces@ == g2.running_shell.faces@
    &&& g1.display_mesh.l@ == g2.display_mesh.l@
    &&& g1.remap@ == g2.remap@
}

/// Identity and configuration fields of a group record.
pub open spec fn same_group_identity(g1: Group, g2: Group) -> bool {
    &&& g1.h == g2.h
    &&& g1.type_ == g2.type_
    &&& g1.order == g2.order
    &&& g1.op_a == g2.op_a
    &&& g1.op_b == g2.op_b
    &&& g1.subtype == g2.subtype
    &&& g1.mesh_combine == g2.mesh_combine
    &&& g1.predef == g2.predef
    &&& g1.name@ == g2.name@
}

impl Sketch {
    /// Record a new group at the end of the solve sequence.  Operands
    /// must already exist, i.e. have strictly lower order: a reference
    /// to this group or a later one is rejected, so groups can only
    /// ever depend backward.
    pub fn create_group(
        &mut self,
        type_: GroupType,
        op_a: Option<HGroup>,
        op_b: Option<HGroup>,
        subtype: GroupSubtype,
        combine: GroupCombineAs,
        predef: GroupPredef,
        name: String,
    ) -> (r: Result<HGroup, KernelError>)
        requires
            old(self).wf(),
            old(self).groups@.len() < 0x7fff_ffff,
        ensures
            final(self).wf(),
            final(self).params@ == old(self).params@,
            final(self).entities@ == old(self).entities@,
            (match op_a {
                Some(h) => h.v >= old(self).groups@.len(),
                None => false,
            } || match op_b {
                Some(h) => h.v >= old(self).groups@.len(),
                None => false,
            }) ==> r == Err::<HGroup, KernelError>(KernelError::GroupOrder) && final(self).groups@
                == old(self).groups@,
            ((match op_a {
                Some(h) => h.v < old(self).groups@.len(),
                None => true,
            }) && (match op_b {
                Some(h) => h.v < old(self).groups@.len(),
                None => true,
            })) ==> {
                let h = HGroup { v: old(self).groups@.len() as u32 };
                &&& r == Ok::<HGroup, KernelError>(h)
                &&& final(self).groups@.len() == old(self).groups@.len() + 1
                &&& final(self).groups@.subrange(0, old(self).groups@.len() as int) == old(
                    self,
                ).groups@
                &&& final(self).groups@.last().h == h
                &&& final(self).groups@.last().order == old(self).groups@.len()
                &&& final(self).groups@.last().type_ == type_
                &&& final(self).groups@.last().op_a == op_a
                &&& final(self).groups@.last().op_b == op_b
                &&& final(self).groups@.last().subtype == subtype
                &&& final(self).groups@.last().mesh_combine == combine
                &&& final(self).groups@.last().predef == predef
                &&& !final(self).groups@.last().clean
                &&& final(self).groups@.last().poly_error.how == PolyError::Good
                &&& final(self).groups@.last().this_mesh.l@.len() == 0
                &&& final(self).groups@.last().running_mesh.l@.len() == 0
                &&& final(self).groups@.last().remap@ == Map::<u64, u32>::empty()
            },
    {
        broadcast use vstd::std_specs::hash::group_hash_axioms;

        match op_a {
            Some(h) => {
                if h.v as usize >= self.groups.len() {
                    return Err(KernelError::GroupOrder);
                }
            },
            None => {},
        }
        match op_b {
            Some(h) => {
                if h.v as usize >= self.groups.len() {
                    return Err(KernelError::GroupOrder);
                }
            },
            None => {},
        }
        let h = HGroup { v: self.groups.len() as u32 };
        let g = Group {
            tag: 0,
            h,
            type_,
            order: self.groups.len() as i32,
            op_a,
            op_b,
            visible: true,
            suppress: false,
            relax_constraints: false,
            allow_redundant: false,
            all_dims_reference: false,
            scale: crate::num::SCALE,
            clean: false,
            dof_check_ok: false,
            active_workplane: HEntity { v: 0 },
            val_a: 0,
            val_b: 0,
            val_c: 0,
            solved: GroupSolved {
                how: SolveResult::Okay,
                dof: 0,
                find_to_fix_timeout: 0,
                timeout: false,
                remove: Vec::new(),
            },
            subtype,
            skip_first: false,
            predef,
            poly_loops: SPolygon::new(),
            bezier_loops: crate::polygon::SBezierLoopSetSet::new(),
            bezier_opens: crate::polygon::SBezierLoopSet::new(),
            poly_error: GroupPolyError {
                how: PolyError::Good,
                not_closed_at: crate::polygon::SEdge {
                    tag: 0,
                    auxA: 0,
                    auxB: 0,
                    a: Vector { x: 0, y: 0, z: 0 },
                    b: Vector { x: 0, y: 0, z: 0 },
                },
                error_point_at: Vector { x: 0, y: 0, z: 0 },
            },
            boolean_failed: false,
            this_shell: SShell::new(),
            running_shell: SShell::new(),
            this_mesh: SMesh::new(),
            running_mesh: SMesh::new(),
            display_dirty: true,
            display_mesh: SMesh::new(),
            display_outlines: SOutlineList::new(),
            mesh_combine: combine,
            force_to_mesh: false,
            remap: HashMap::new(),
            color: crate::dsc::RgbaColor { red: 0, green: 0, blue: 0, alpha: 255 },
            link_file: String::new(),
            imp_mesh: SMesh::new(),
            imp_shell: SShell::new(),
            imp_entity: Vec::new(),
            name,
        };
        self.groups.push(g);
        proof {
            assert(self.groups@.subrange(0, old(self).groups@.len() as int) =~= old(self).groups@);
        }
        Ok(h)
    }
}

/// An integer power of a rotation: the unit quaternion composed with
/// itself `n` times, renormalized at each step.
pub open spec fn spec_q_pow(q: Quaternion, n: nat) -> Quaternion
    decreases n,
{
    if n == 0 {
        Quaternion::spec_identity()
    } else {
        crate::dsc::qmul_norm(spec_q_pow(q, (n - 1) as nat), q)
    }
}

/// Executable integer power of a (normalized) rotation.
pub fn q_pow(q: Quaternion, n: u32) -> (r: Quaternion)
    requires
        -crate::num::SCALE <= q.w <= crate::num::SCALE,
        -crate::num::SCALE <= q.vx <= crate::num::SCALE,
        -crate::num::SCALE <= q.vy <= crate::num::SCALE,
        -crate::num::SCALE <= q.vz <= crate::num::SCALE,
    ensures
        r == spec_q_pow(q, n as nat),
        -crate::num::SCALE <= r.w <= crate::num::SCALE,
        -crate::num::SCALE <= r.vx <= crate::num::SCALE,
        -crate::num::SCALE <= r.vy <= crate::num::SCALE,
        -crate::num::SCALE <= r.vz <= crate::num::SCALE,
{
    let mut acc = Quaternion { w: crate::num::SCALE, vx: 0, vy: 0, vz: 0 };
    let mut i: u32 = 0;
    while i < n
        invariant
            0 <= i <= n,
            -crate::num::SCALE <= q.w <= crate::num::SCALE,
            -crate::num::SCALE <= q.vx <= crate::num::SCALE,
            -crate::num::SCALE <= q.vy <= crate::num::SCALE,
            -crate::num::SCALE <= q.vz <= crate::num::SCALE,
            -crate::num::SCALE <= acc.w <= crate::num::SCALE,
            -crate::num::SCALE <= acc.vx <= crate::num::SCALE,
            -crate::num::SCALE <= acc.vy <= crate::num::SCALE,
            -crate::num::SCALE <= acc.vz <= crate::num::SCALE,
            acc == spec_q_pow(q, i as nat),
        decreases n - i,
    {
        acc = Quaternion::compose_norm(acc, q);
        i = i + 1;
    }
    acc
}

/// Where a derived entity's point lands: the pure function of the
/// template's resolved position, the group's transform, and the copy
/// index.  Translated kinds move by `copy` times the translation;
/// rotated kinds turn by the `copy`-th power of the rotation about the
/// group's origin, the axis-translated kind then translating as well.
pub open spec fn spec_derive_pos(
    kind: GroupCopyAs,
    src: Vector,
    origin: Vector,
    trans: Vector,
    q: Quaternion,
    copy: int,
) -> Vector {
    match kind {
        GroupCopyAs::Numeric => src,
        GroupCopyAs::NTrans => (Vector {
            x: (src.x + copy * trans.x) as i64,
            y: (src.y + copy * trans.y) as i64,
            z: (src.z + copy * trans.z) as i64,
        }),
        _ => {
            let qn = spec_q_pow(q, copy as nat);
            let dx = src.x - origin.x;
            let dy = src.y - origin.y;
            let dz = src.z - origin.z;
            let rx = crate::num::div_to_zero(crate::dsc::rot_ux(qn) * dx, crate::num::SCALE as int)
                + crate::num::div_to_zero(crate::dsc::rot_vx(qn) * dy, crate::num::SCALE as int)
                + crate::num::div_to_zero(crate::dsc::rot_nx(qn) * dz, crate::num::SCALE as int);
            let ry = crate::num::div_to_zero(crate::dsc::rot_uy(qn) * dx, crate::num::SCALE as int)
                + crate::num::div_to_zero(crate::dsc::rot_vy(qn) * dy, crate::num::SCALE as int)
                + crate::num::div_to_zero(crate::dsc::rot_ny(qn) * dz, crate::num::SCALE as int);
            let rz = crate::num::div_to_zero(crate::dsc::rot_uz(qn) * dx, crate::num::SCALE as int)
                + crate::num::div_to_zero(crate::dsc::rot_vz(qn) * dy, crate::num::SCALE as int)
                + crate::num::div_to_zero(crate::dsc::rot_nz(qn) * dz, crate::num::SCALE as int);
            let base = Vector {
                x: (rx + origin.x) as i64,
                y: (ry + origin.y) as i64,
                z: (rz + origin.z) as i64,
            };
            if kind == GroupCopyAs::NRotAA {
                base
            } else {
                (Vector {
                    x: (base.x + copy * trans.x) as i64,
                    y: (base.y + copy * trans.y) as i64,
                    z: (base.z + copy * trans.z) as i64,
                })
            }
        },
    }
}

/// Derive the position of one copy of a template point.  Recomputed in
/// full on every solve; nothing is patched incrementally.
pub fn derive_point_position(
    kind: GroupCopyAs,
    src: Vector,
    origin: Vector,
    trans: Vector,
    q: Quaternion,
    copy: u32,
) -> (r: Vector)
    requires
        crate::polygon::half_wf(src),
        crate::polygon::half_wf(origin),
        -500_000_000 <= trans.x <= 500_000_000,
        -500_000_000 <= trans.y <= 500_000_000,
        -500_000_000 <= trans.z <= 500_000_000,
        -crate::num::SCALE <= q.w <= crate::num::SCALE,
        -crate::num::SCALE <= q.vx <= crate::num::SCALE,
        -crate::num::SCALE <= q.vy <= crate::num::SCALE,
        -crate::num::SCALE <= q.vz <= crate::num::SCALE,
        copy <= 1000,
    ensures
        r == spec_derive_pos(kind, src, origin, trans, q, copy as int),
{
    proof {
        crate::num::lemma_mul_abs_bound(copy as int, trans.x as int, 1000int, 500_000_000int);
        crate::num::lemma_mul_abs_bound(copy as int, trans.y as int, 1000int, 500_000_000int);
        crate::num::lemma_mul_abs_bound(copy as int, trans.z as int, 1000int, 500_000_000int);
    }
    match kind {
        GroupCopyAs::Numeric => src,
        GroupCopyAs::NTrans => {
            Vector {
                x: src.x + (copy as i64) * trans.x,
                y: src.y + (copy as i64) * trans.y,
                z: src.z + (copy as i64) * trans.z,
            }
        },
        _ => {
            let qn = q_pow(q, copy);
            let d = Vector { x: src.x - origin.x, y: src.y - origin.y, z: src.z - origin.z };
            let rot = qn.rotate(d);
            let base = Vector { x: rot.x + origin.x, y: rot.y + origin.y, z: rot.z + origin.z };
            match kind {
                GroupCopyAs::NRotAA => base,
                _ => {
                    Vector {
                        x: base.x + (copy as i64) * trans.x,
                        y: base.y + (copy as i64) * trans.y,
                        z: base.z + (copy as i64) * trans.z,
                    }
                },
            }
        },
    }
}

/// The running solid a group combines against: the previous group's
/// cumulative mesh, or the empty solid for the first group.
pub open spec fn prev_running(groups: Seq<Group>, i: int) -> Seq<STriangle> {
    if i == 0 {
        Seq::<STriangle>::empty()
    } else {
        groups[i - 1].running_mesh.l@
    }
}

/// Every triangle of the mesh has admissible coordinates.
fn mesh_wf_check(m: &SMesh) -> (r: bool)
    ensures
        r <==> forall|i: int| 0 <= i < m.l@.len() ==> crate::polygon::tri_wf(#[trigger] m.l@[i]),
{
    let mut i: usize = 0;
    while i < m.l.len()
        invariant
            0 <= i <= m.l@.len(),
            forall|k: int| 0 <= k < i ==> crate::polygon::tri_wf(#[trigger] m.l@[k]),
        decreases m.l@.len() - i,
    {
        let t = m.l[i];
        if t.a.x > crate::num::MAX_COORD || t.a.x < -crate::num::MAX_COORD || t.a.y
            > crate::num::MAX_COORD || t.a.y < -crate::num::MAX_COORD || t.a.z
            > crate::num::MAX_COORD || t.a.z < -crate::num::MAX_COORD || t.b.x
            > crate::num::MAX_COORD || t.b.x < -crate::num::MAX_COORD || t.b.y
            > crate::num::MAX_COORD || t.b.y < -crate::num::MAX_COORD || t.b.z
            > crate::num::MAX_COORD || t.b.z < -crate::num::MAX_COORD || t.c.x
            > crate::num::MAX_COORD || t.c.x < -crate::num::MAX_COORD || t.c.y
            > crate::num::MAX_COORD || t.c.y < -crate::num::MAX_COORD || t.c.z
            > crate::num::MAX_COORD || t.c.z < -crate::num::MAX_COORD {
            return false;
        }
        i = i + 1;
    }
    true
}

/// Copy a mesh's triangles into a fresh mesh (an immutable snapshot).
fn mesh_copy(m: &SMesh) -> (r: SMesh)
    ensures
        r.l@ == m.l@,
{
    let mut out: Vec<STriangle> = Vec::new();
    let mut i: usize = 0;
    while i < m.l.len()
        invariant
            0 <= i <= m.l@.len(),
            out@ =~= m.l@.subrange(0, i as int),
        decreases m.l@.len() - i,
    {
        out.push(m.l[i]);
        proof {
            assert(out@ =~= m.l@.subrange(0, i + 1));
        }
        i = i + 1;
    }
    proof {
        assert(out@ =~= m.l@);
    }
    SMesh { l: out }
}

impl Sketch {
    /// Overwrite a parameter's value; everything else in the table is
    /// untouched.
    pub fn edit_param(&mut self, h: HParam, value: i64) -> (r: Result<(), KernelError>)
        requires
            old(self).wf(),
        ensures
            final(self).wf(),
            final(self).entities@ == old(self).entities@,
            final(self).groups@ == old(self).groups@,
            h.v >= old(self).params@.len() ==> r == Err::<(), KernelError>(
                KernelError::UnknownHandle,
            ) && final(self).params@ == old(self).params@,
            h.v < old(self).params@.len() ==> r == Ok::<(), KernelError>(()) && final(self).params@
                == old(self).params@.update(
                h.v as int,
                Param {
                    tag: old(self).params@[h.v as int].tag,
                    h: old(self).params@[h.v as int].h,
                    val: value,
                    known: old(self).params@[h.v as int].known,
                    free: old(self).params@[h.v as int].free,
                    substd: old(self).params@[h.v as int].substd,
                },
            ),
    {
        if h.v as usize >= self.params.len() {
            return Err(KernelError::UnknownHandle);
        }
        let i = h.v as usize;
        let old_p = self.params[i];
        let new_p = Param {
            tag: old_p.tag,
            h: old_p.h,
            val: value,
            known: old_p.known,
            free: old_p.free,
            substd: old_p.substd,
        };
        self.params.remove(i);
        self.params.insert(i, new_p);
        proof {
            assert(self.params@ =~= old(self).params@.update(h.v as int, new_p));
        }
        Ok(())
    }

    /// Store the numeric solver's outcome on the group.  Geometry is
    /// never touched here: on a timeout the group keeps its last valid
    /// geometry rather than corrupting state.
    pub fn solve_group(&mut self, h: HGroup, outcome: GroupSolved) -> (r: Result<(), KernelError>)
        requires
            old(self).wf(),
        ensures
            final(self).wf(),
            final(self).params@ == old(self).params@,
            final(self).entities@ == old(self).entities@,
            h.v >= old(self).groups@.len() ==> r == Err::<(), KernelError>(
                KernelError::UnknownHandle,
            ) && final(self).groups@ == old(self).groups@,
            h.v < old(self).groups@.len() ==> {
                let g0 = old(self).groups@[h.v as int];
                let g1 = final(self).groups@[h.v as int];
                &&& r == Ok::<(), KernelError>(())
                &&& final(self).groups@.len() == old(self).groups@.len()
                &&& forall|j: int|
                    0 <= j < old(self).groups@.len() && j != h.v ==> final(self).groups@[j] == old(
                        self,
                    ).groups@[j]
                &&& same_group_identity(g1, g0)
                &&& same_group_geometry(g1, g0)
                &&& g1.solved.how == outcome.how
                &&& g1.solved.dof == outcome.dof
                &&& g1.solved.timeout == outcome.timeout
                &&& g1.solved.find_to_fix_timeout == outcome.find_to_fix_timeout
                &&& g1.solved.remove@ == outcome.remove@
                &&& g1.clean == false
            },
    {
        if h.v as usize >= self.groups.len() {
            return Err(KernelError::UnknownHandle);
        }
        let i = h.v as usize;
        let mut g = self.groups.remove(i);
        g.solved = outcome;
        g.clean = false;
        self.groups.insert(i, g);
        proof {
            assert(forall|j: int|
                0 <= j < old(self).groups@.len() && j != h.v ==> final(self).groups@[j] == old(
                    self,
                ).groups@[j]);
        }
        Ok(())
    }

    /// Extract and diagnose the group's loop geometry from its edge
    /// soup.  On any defect the diagnosis (with a locating edge and
    /// point) is recorded and solid building is not to proceed; the
    /// meshes keep their previous state.
    pub fn extract_loops(&mut self, h: HGroup, edges: &Vec<crate::polygon::SEdge>) -> (r: Result<
        PolyError,
        KernelError,
    >)
        requires
            old(self).wf(),
            edges@.len() < 0x4000_0000,
            forall|k: int| 0 <= k < edges@.len() ==> crate::polygon::edge_wf(#[trigger] edges@[k]),
        ensures
            final(self).wf(),
            final(self).params@ == old(self).params@,
            final(self).entities@ == old(self).entities@,
            h.v >= old(self).groups@.len() ==> r == Err::<PolyError, KernelError>(
                KernelError::UnknownHandle,
            ) && final(self).groups@ == old(self).groups@,
            h.v < old(self).groups@.len() ==> {
                let g0 = old(self).groups@[h.v as int];
                let g1 = final(self).groups@[h.v as int];
                let how = g1.poly_error.how;
                &&& r == Ok::<PolyError, KernelError>(how)
                &&& final(self).groups@.len() == old(self).groups@.len()
                &&& forall|j: int|
                    0 <= j < old(self).groups@.len() && j != h.v ==> final(self).groups@[j] == old(
                        self,
                    ).groups@[j]
                &&& same_group_identity(g1, g0)
                &&& g1.this_mesh.l@ == g0.this_mesh.l@
                &&& g1.running_mesh.l@ == g0.running_mesh.l@
                &&& g1.remap@ == g0.remap@
                &&& (how == PolyError::ZeroLenEdge <==> crate::polygon::spec_has_zero_len(edges@))
                &&& (how == PolyError::NotClosed <==> !crate::polygon::spec_has_zero_len(edges@)
                    && !crate::polygon::spec_closed(edges@))
                &&& (how == PolyError::NotCoplaner <==> !crate::polygon::spec_has_zero_len(edges@)
                    && crate::polygon::spec_closed(edges@) && !crate::polygon::spec_coplanar(
                    edges@,
                ))
                &&& (how == PolyError::SelfIntersecting <==> !crate::polygon::spec_has_zero_len(
                    edges@,
                ) && crate::polygon::spec_closed(edges@) && crate::polygon::spec_coplanar(edges@)
                    && crate::polygon::spec_self_intersects(edges@))
                &&& (how == PolyError::Good <==> !crate::polygon::spec_has_zero_len(edges@)
                    && crate::polygon::spec_closed(edges@) && crate::polygon::spec_coplanar(edges@)
                    && !crate::polygon::spec_self_intersects(edges@))
                &&& (how == PolyError::Good ==> match crate::polygon::spec_assemble(edges@) {
                    Some(pts) => g1.poly_loops.l@.len() == 1 && g1.poly_loops.l@[0].points@ == pts,
                    None => g1.poly_loops.l@.len() == 0,
                })
                &&& (how != PolyError::Good ==> g1.poly_loops.l@ == g0.poly_loops.l@)
            },
    {
        if h.v as usize >= self.groups.len() {
            return Err(KernelError::UnknownHandle);
        }
        let diag = crate::polygon::classify_edges(edges);
        let i = h.v as usize;
        let mut g = self.groups.remove(i);
        g.poly_error = diag;
        match diag.how {
            PolyError::Good => {
                match crate::polygon::assemble_loop(edges) {
                    Some(pts) => {
                        let mut loops: Vec<crate::polygon::SContour> = Vec::new();
                        loops.push(crate::polygon::SContour { points: pts });
                        g.poly_loops = SPolygon { l: loops };
                    },
                    None => {
                        g.poly_loops = SPolygon::new();
                    },
                }
            },
            _ => {},
        }
        self.groups.insert(i, g);
        proof {
            assert(forall|j: int|
                0 <= j < old(self).groups@.len() && j != h.v ==> final(self).groups@[j] == old(
                    self,
                ).groups@[j]);
        }
        Ok(diag.how)
    }

    /// Sweep the group's profile into its own solid.  Building is
    /// refused while the group's loop diagnosis is not `Good`, and for
    /// group types this kernel does not sweep.
    pub fn build_solid(&mut self, h: HGroup, profile: &Vec<Vector>, trans: Vector) -> (r: Result<
        (),
        KernelError,
    >)
        requires
            old(self).wf(),
            profile@.len() < 0x4000_0000,
            forall|i: int|
                0 <= i < profile@.len() ==> crate::polygon::half_wf(#[trigger] profile@[i]),
            crate::polygon::half_wf(trans),
        ensures
            final(self).wf(),
            final(self).params@ == old(self).params@,
            final(self).entities@ == old(self).entities@,
            h.v >= old(self).groups@.len() ==> r == Err::<(), KernelError>(
                KernelError::UnknownHandle,
            ) && final(self).groups@ == old(self).groups@,
            h.v < old(self).groups@.len() && old(self).groups@[h.v as int].poly_error.how
                != PolyError::Good ==> r == Err::<(), KernelError>(KernelError::BadPolygon)
                && final(self).groups@ == old(self).groups@,
            h.v < old(self).groups@.len() && old(self).groups@[h.v as int].poly_error.how
                == PolyError::Good && old(self).groups@[h.v as int].type_ != GroupType::Extrude
                ==> r == Err::<(), KernelError>(KernelError::Unsupported) && final(self).groups@
                == old(self).groups@,
            h.v < old(self).groups@.len() && old(self).groups@[h.v as int].poly_error.how
                == PolyError::Good && old(self).groups@[h.v as int].type_ == GroupType::Extrude
                ==> {
                let g0 = old(self).groups@[h.v as int];
                let g1 = final(self).groups@[h.v as int];
                let n = profile@.len() as int;
                &&& r == Ok::<(), KernelError>(())
                &&& final(self).groups@.len() == old(self).groups@.len()
                &&& forall|j: int|
                    0 <= j < old(self).groups@.len() && j != h.v ==> final(self).groups@[j] == old(
                        self,
                    ).groups@[j]
                &&& same_group_identity(g1, g0)
                &&& g1.running_mesh.l@ == g0.running_mesh.l@
                &&& g1.remap@ == g0.remap@
                &&& g1.poly_error == g0.poly_error
                &&& g1.this_shell.faces@ == g1.this_mesh.l@
                &&& (n < 3 ==> g1.this_mesh.l@.len() == 0)
                &&& (n >= 3 ==> g1.this_mesh.l@.len() == 2 * n + 2 * (n - 2) && (forall|i: int|
                    0 <= i < n ==> g1.this_mesh.l@[2 * i] == crate::polygon::ext_side_a(
                        profile@,
                        trans,
                        i,
                    ) && g1.this_mesh.l@[2 * i + 1] == crate::polygon::ext_side_b(
                        profile@,
                        trans,
                        i,
                    )) && (forall|j: int|
                    0 <= j < n - 2 ==> g1.this_mesh.l@[2 * n + 2 * j]
                        == crate::polygon::ext_cap_bottom(profile@, j) && g1.this_mesh.l@[2 * n + 2
                        * j + 1] == crate::polygon::ext_cap_top(profile@, trans, j)))
            },
    {
        if h.v as usize >= self.groups.len() {
            return Err(KernelError::UnknownHandle);
        }
        let i = h.v as usize;
        match self.groups[i].poly_error.how {
            PolyError::Good => {},
            _ => {
                return Err(KernelError::BadPolygon);
            },
        }
        match self.groups[i].type_ {
            GroupType::Extrude => {},
            _ => {
                return Err(KernelError::Unsupported);
            },
        }
        let mesh = crate::polygon::build_extrusion(profile, trans);
        let faces = mesh_copy(&mesh);
        let mut g = self.groups.remove(i);
        g.this_mesh = mesh;
        g.this_shell = SShell { faces: faces.l };
        self.groups.insert(i, g);
        proof {
            assert(forall|j: int|
                0 <= j < old(self).groups@.len() && j != h.v ==> final(self).groups@[j] == old(
                    self,
                ).groups@[j]);
        }
        Ok(())
    }

    /// Combine this group's solid with the previous group's running
    /// solid (the first group combines with the empty solid), leaving
    /// the group `Clean`.  Meshes with out-of-range coordinates are
    /// refused rather than classified wrongly.
    pub fn combine_solid(&mut self, h: HGroup) -> (r: Result<(), KernelError>)
        requires
            old(self).wf(),
        ensures
            final(self).wf(),
            final(self).params@ == old(self).params@,
            final(self).entities@ == old(self).entities@,
            h.v >= old(self).groups@.len() ==> r == Err::<(), KernelError>(
                KernelError::UnknownHandle,
            ) && final(self).groups@ == old(self).groups@,
            h.v < old(self).groups@.len() ==> {
                let prev = prev_running(old(self).groups@, h.v as int);
                let this = old(self).groups@[h.v as int].this_mesh.l@;
                r == Ok::<(), KernelError>(()) <==> (forall|i: int|
                    0 <= i < prev.len() ==> crate::polygon::tri_wf(#[trigger] prev[i])) && (forall|
                    i: int,
                |
                    0 <= i < this.len() ==> crate::polygon::tri_wf(#[trigger] this[i]))
            },
            r == Ok::<(), KernelError>(()) ==> h.v < old(self).groups@.len() && {
                let g0 = old(self).groups@[h.v as int];
                let g1 = final(self).groups@[h.v as int];
                let prev = prev_running(old(self).groups@, h.v as int);
                &&& final(self).groups@.len() == old(self).groups@.len()
                &&& forall|j: int|
                    0 <= j < old(self).groups@.len() && j != h.v ==> final(self).groups@[j] == old(
                        self,
                    ).groups@[j]
                &&& same_group_identity(g1, g0)
                &&& g1.this_mesh.l@ == g0.this_mesh.l@
                &&& g1.poly_error == g0.poly_error
                &&& g1.remap@ == g0.remap@
                &&& g1.running_mesh.l@ == crate::polygon::spec_combine(
                    prev,
                    g0.this_mesh.l@,
                    g0.mesh_combine,
                )
                &&& g1.clean
            },
            h.v < old(self).groups@.len() && r != Ok::<(), KernelError>(()) ==> r == Err::<
                (),
                KernelError,
            >(KernelError::CoordRange) && final(self).groups@ == old(self).groups@,
    {
        if h.v as usize >= self.groups.len() {
            return Err(KernelError::UnknownHandle);
        }
        let i = h.v as usize;
        let prev: SMesh = if i == 0 {
            SMesh { l: Vec::new() }
        } else {
            mesh_copy(&self.groups[i - 1].running_mesh)
        };
        proof {
            if h.v == 0 {
                assert(prev.l@ =~= Seq::<STriangle>::empty());
            }
        }
        if !mesh_wf_check(&prev) {
            proof {
                let sprev = prev_running(old(self).groups@, h.v as int);
                assert(prev.l@ == sprev);
                assert(!(forall|k: int|
                    0 <= k < sprev.len() ==> crate::polygon::tri_wf(#[trigger] sprev[k])));
            }
            return Err(KernelError::CoordRange);
        }
        if !mesh_wf_check(&self.groups[i].this_mesh) {
            proof {
                let sthis = old(self).groups@[h.v as int].this_mesh.l@;
                assert(self.groups@[h.v as int].this_mesh.l@ == sthis);
                assert(!(forall|k: int|
                    0 <= k < sthis.len() ==> crate::polygon::tri_wf(#[trigger] sthis[k])));
            }
            return Err(KernelError::CoordRange);
        }
        let mut g = self.groups.remove(i);
        let combined = crate::polygon::combine_meshes(&prev, &g.this_mesh, g.mesh_combine);
        g.running_mesh = combined;
        g.clean = true;
        self.groups.insert(i, g);
        proof {
            assert(forall|j: int|
                0 <= j < old(self).groups@.len() && j != h.v ==> final(self).groups@[j] == old(
                    self,
                ).groups@[j]);
            assert(prev.l@ == prev_running(old(self).groups@, h.v as int));
        }
        Ok(())
    }

    /// The group's current loop diagnosis, if it is in error.
    pub fn get_poly_error(&self, h: HGroup) -> (r: Option<GroupPolyError>)
        requires
            self.wf(),
        ensures
            h.v >= self.groups@.len() ==> r is None,
            h.v < self.groups@.len() && self.groups@[h.v as int].poly_error.how == PolyError::Good
                ==> r is None,
            h.v < self.groups@.len() && self.groups@[h.v as int].poly_error.how != PolyError::Good
                ==> r == Some(self.groups@[h.v as int].poly_error),
    {
        if h.v as usize >= self.groups.len() {
            return None;
        }
        let pe = self.groups[h.v as usize].poly_error;
        match pe.how {
            PolyError::Good => None,
            _ => Some(pe),
        }
    }

    /// An immutable snapshot of the group's cumulative solid, safe to
    /// hand to a renderer while the tables are rebuilt.
    pub fn get_display_mesh(&self, h: HGroup) -> (r: Option<SMesh>)
        requires
            self.wf(),
        ensures
            h.v >= self.groups@.len() ==> r is None,
            h.v < self.groups@.len() ==> match r {
                Some(m) => m.l@ == self.groups@[h.v as int].running_mesh.l@,
                None => false,
            },
    {
        if h.v as usize >= self.groups.len() {
            return None;
        }
        Some(mesh_copy(&self.groups[h.v as usize].running_mesh))
    }

    /// Delete a group.  Handles index the table, so every group at or
    /// after the deleted one — exactly those that could reference it —
    /// is deleted with it.
    pub fn delete_group(&mut self, h: HGroup) -> (r: Result<(), KernelError>)
        requires
            old(self).wf(),
        ensures
            final(self).wf(),
            final(self).params@ == old(self).params@,
            final(self).entities@ == old(self).entities@,
            h.v >= old(self).groups@.len() ==> r == Err::<(), KernelError>(
                KernelError::UnknownHandle,
            ) && final(self).groups@ == old(self).groups@,
            h.v < old(self).groups@.len() ==> r == Ok::<(), KernelError>(()) && final(self).groups@
                == old(self).groups@.subrange(0, h.v as int),
    {
        if h.v as usize >= self.groups.len() {
            return Err(KernelError::UnknownHandle);
        }
        self.groups.truncate(h.v as usize);
        proof {
            assert(final(self).groups@ =~= old(self).groups@.subrange(0, h.v as int));
        }
        Ok(())
    }
}

} // verus!
