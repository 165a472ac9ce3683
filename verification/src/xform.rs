use vstd::prelude::*;

use crate::error::DumpError;
use crate::model::{Skeleton, Transform};

verus! {

/// The IEEE 754 quaternion product of the two (x, y, z, w) bit-pattern
/// quadruples, a function of its arguments alone.
pub uninterp spec fn quat_mul_of(a: (u32, u32, u32, u32), b: (u32, u32, u32, u32)) -> (
    u32,
    u32,
    u32,
    u32,
);

/// The IEEE 754 rotation of the vector `v` by the quaternion `q`, both given
/// and returned as bit-pattern tuples, a function of its arguments alone.
pub uninterp spec fn quat_rotate_of(q: (u32, u32, u32, u32), v: (u32, u32, u32)) -> (
    u32,
    u32,
    u32,
);

/// The componentwise IEEE 754 sum of two vectors given as bit patterns.
pub uninterp spec fn vec3_add_of(a: (u32, u32, u32), b: (u32, u32, u32)) -> (u32, u32, u32);

/// The componentwise IEEE 754 product of a vector and a scalar, as bits.
pub uninterp spec fn vec3_scale_of(v: (u32, u32, u32), s: u32) -> (u32, u32, u32);

/// The IEEE 754 product of two scalars given as bit patterns.
pub uninterp spec fn float_mul_of(a: u32, b: u32) -> u32;

/// Relies on `glam::Quat`'s quaternion product (`Mul<Quat>`): the result
/// depends on the operand bit patterns alone. Bit patterns reach the float
/// values through plain `bytemuck` reinterpretation casts.
#[verifier::external_body]
fn quat_mul(a: (u32, u32, u32, u32), b: (u32, u32, u32, u32)) -> (r: (u32, u32, u32, u32))
    ensures
        r == quat_mul_of(a, b),
{
    let qa: glam::Quat = bytemuck::cast(glam::UVec4::new(a.0, a.1, a.2, a.3));
    let qb: glam::Quat = bytemuck::cast(glam::UVec4::new(b.0, b.1, b.2, b.3));
    let r: glam::UVec4 = bytemuck::cast(qa * qb);
    (r.x, r.y, r.z, r.w)
}

/// Relies on `glam::Quat`'s vector rotation (`Mul<Vec3>`): the result depends
/// on the operand bit patterns alone.
#[verifier::external_body]
fn quat_rotate(q: (u32, u32, u32, u32), v: (u32, u32, u32)) -> (r: (u32, u32, u32))
    ensures
        r == quat_rotate_of(q, v),
{
    let qq: glam::Quat = bytemuck::cast(glam::UVec4::new(q.0, q.1, q.2, q.3));
    let vv: glam::Vec3 = bytemuck::cast(glam::UVec3::new(v.0, v.1, v.2));
    let r: glam::UVec3 = bytemuck::cast(qq * vv);
    (r.x, r.y, r.z)
}

/// Relies on `glam::Vec3`'s componentwise sum (`Add<Vec3>`): the result
/// depends on the operand bit patterns alone.
#[verifier::external_body]
fn vec3_add(a: (u32, u32, u32), b: (u32, u32, u32)) -> (r: (u32, u32, u32))
    ensures
        r == vec3_add_of(a, b),
{
    let va: glam::Vec3 = bytemuck::cast(glam::UVec3::new(a.0, a.1, a.2));
    let vb: glam::Vec3 = bytemuck::cast(glam::UVec3::new(b.0, b.1, b.2));
    let r: glam::UVec3 = bytemuck::cast(va + vb);
    (r.x, r.y, r.z)
}

/// Relies on `glam::Vec3`'s scalar product (`Mul<f32>`): the result depends
/// on the operand bit patterns alone. The scalar is splatted into a vector
/// only to reach its float value by a reinterpretation cast.
#[verifier::external_body]
fn vec3_scale(v: (u32, u32, u32), s: u32) -> (r: (u32, u32, u32))
    ensures
        r == vec3_scale_of(v, s),
{
    let vv: glam::Vec3 = bytemuck::cast(glam::UVec3::new(v.0, v.1, v.2));
    let sv: glam::Vec3 = bytemuck::cast(glam::UVec3::new(s, s, s));
    let r: glam::UVec3 = bytemuck::cast(vv * sv.x);
    (r.x, r.y, r.z)
}

/// Relies on `glam::Vec3`'s scalar product (`Mul<f32>`): the first component
/// of `splat(a) * b` is the IEEE 754 product of the two scalars, and depends
/// on the operand bit patterns alone.
#[verifier::external_body]
fn float_mul(a: u32, b: u32) -> (r: u32)
    ensures
        r == float_mul_of(a, b),
{
    let va: glam::Vec3 = bytemuck::cast(glam::UVec3::new(a, a, a));
    let vb: glam::Vec3 = bytemuck::cast(glam::UVec3::new(b, b, b));
    let r: glam::UVec3 = bytemuck::cast(va * vb.x);
    r.x
}

/// Composition of two similarity transforms, `outer` nearer the skeletal
/// root: the inner location is rotated by the outer rotation and scaled by
/// the outer scale before the outer location is added; rotations multiply
/// with the outer first; scales multiply.
pub open spec fn compose_spec(outer: Transform, inner: Transform) -> Transform {
    Transform {
        location: vec3_add_of(
            outer.location,
            vec3_scale_of(quat_rotate_of(outer.rotation, inner.location), outer.scale),
        ),
        rotation: quat_mul_of(outer.rotation, inner.rotation),
        scale: float_mul_of(outer.scale, inner.scale),
    }
}

/// Composes two transforms, `t1` nearer the skeletal root.
pub fn mul_transform(t1: Transform, t2: Transform) -> (r: Transform)
    ensures
        r == compose_spec(t1, t2),
{
    let location = vec3_add(t1.location, vec3_scale(quat_rotate(t1.rotation, t2.location), t1.scale));
    let rotation = quat_mul(t1.rotation, t2.rotation);
    let scale = float_mul(t1.scale, t2.scale);
    Transform { location, rotation, scale }
}

/// The accumulated transform of the walk that starts at bone `j` carrying
/// `acc` and composes each ancestor's local transform on the outside, with at
/// most `fuel` parent steps left. `None` means the walk did not reach a root
/// within `fuel` steps (or left the arena, which cannot happen for a
/// well-formed skeleton).
pub open spec fn sp_world_from(
    parents: Seq<i16>,
    transforms: Seq<Transform>,
    j: int,
    acc: Transform,
    fuel: nat,
) -> Option<Transform>
    decreases fuel,
{
    if !(0 <= j < parents.len()) {
        None
    } else if parents[j] == -1 {
        Some(acc)
    } else if fuel == 0 {
        None
    } else {
        sp_world_from(
            parents,
            transforms,
            parents[j] as int,
            compose_spec(transforms[parents[j] as int], acc),
            (fuel - 1) as nat,
        )
    }
}

/// The world transform of bone `i`: its own local transform composed under
/// every ancestor's local transform. `None` exactly when the parent chain
/// from `i` never reaches a root, that is, when it runs into a cycle: a bone
/// count's worth of steps is always enough for an acyclic chain, since an
/// acyclic walk cannot revisit an index.
pub open spec fn sp_world(parents: Seq<i16>, transforms: Seq<Transform>, i: int) -> Option<
    Transform,
> {
    sp_world_from(parents, transforms, i, transforms[i], parents.len() as nat)
}

/// Walks the ancestor chain over bare parent and transform arrays, so that
/// the caller may substitute an animation pose for the bind pose. Fails with
/// `CycleDetected` instead of looping forever when the chain exceeds the
/// bone count.
pub fn walk_world(parents: &Vec<i16>, transforms: &Vec<Transform>, index: i32) -> (res: Result<
    Transform,
    DumpError,
>)
    requires
        parents@.len() == transforms@.len(),
        parents@.len() <= i32::MAX,
        0 <= index < parents@.len(),
        forall|i: int| 0 <= i < parents@.len() ==> -1 <= #[trigger] parents@[i] < parents@.len(),
    ensures
        match res {
            Ok(t) => sp_world(parents@, transforms@, index as int) == Some(t),
            Err(e) => e == DumpError::CycleDetected && sp_world(
                parents@,
                transforms@,
                index as int,
            ) is None,
        },
{
    let ghost ps = parents@;
    let ghost ts = transforms@;
    let n: i32 = parents.len() as i32;
    let mut acc: Transform = transforms[index as usize];
    let mut j: i32 = index;
    let mut steps: i32 = 0;
    while parents[j as usize] != -1
        invariant
            ps == parents@,
            ts == transforms@,
            n == parents@.len(),
            transforms@.len() == n,
            forall|i: int| 0 <= i < parents@.len() ==> -1 <= #[trigger] parents@[i]
                < parents@.len(),
            0 <= index < n,
            0 <= j < n,
            0 <= steps <= n,
            sp_world_from(ps, ts, index as int, ts[index as int], n as nat) == sp_world_from(
                ps,
                ts,
                j as int,
                acc,
                (n - steps) as nat,
            ),
        decreases n - steps,
    {
        if steps == n {
            return Err(DumpError::CycleDetected);
        }
        let p: i16 = parents[j as usize];
        acc = mul_transform(transforms[p as usize], acc);
        j = p as i32;
        steps += 1;
    }
    Ok(acc)
}

/// Computes the world transform of the given bone of a well-formed skeleton.
pub fn world_transform(skeleton: &Skeleton, index: i32) -> (res: Result<Transform, DumpError>)
    requires
        skeleton.wf(),
        0 <= index < skeleton.n_transforms,
    ensures
        match res {
            Ok(t) => sp_world(skeleton.parents@, skeleton.transforms@, index as int) == Some(t),
            Err(e) => e == DumpError::CycleDetected && sp_world(
                skeleton.parents@,
                skeleton.transforms@,
                index as int,
            ) is None,
        },
{
    walk_world(&skeleton.parents, &skeleton.transforms, index)
}

/// Whether the walk reaches a root does not depend on the transforms it
/// composes on the way, only on the parent links: a chain that cycles under
/// one pose cycles under every pose.
proof fn lemma_world_none_from(
    parents: Seq<i16>,
    t1: Seq<Transform>,
    t2: Seq<Transform>,
    j: int,
    a1: Transform,
    a2: Transform,
    fuel: nat,
)
    ensures
        (sp_world_from(parents, t1, j, a1, fuel) is None) == (sp_world_from(
            parents,
            t2,
            j,
            a2,
            fuel,
        ) is None),
    decreases fuel,
{
    if 0 <= j < parents.len() && parents[j] != -1 && fuel > 0 {
        lemma_world_none_from(
            parents,
            t1,
            t2,
            parents[j] as int,
            compose_spec(t1[parents[j] as int], a1),
            compose_spec(t2[parents[j] as int], a2),
            (fuel - 1) as nat,
        );
    }
}

/// Whether a bone's world transform exists depends on the parent links
/// alone, never on the local transforms.
pub proof fn lemma_world_none_independent(
    parents: Seq<i16>,
    t1: Seq<Transform>,
    t2: Seq<Transform>,
    i: int,
)
    requires
        t1.len() == parents.len(),
        t2.len() == parents.len(),
    ensures
        (sp_world(parents, t1, i) is None) == (sp_world(parents, t2, i) is None),
{
    lemma_world_none_from(parents, t1, t2, i, t1[i], t2[i], parents.len() as nat);
}

/// A bone whose parent entry is `-1` composes with nothing: its world
/// transform is its own local transform, exactly.
pub proof fn lemma_world_root(parents: Seq<i16>, transforms: Seq<Transform>, i: int)
    requires
        0 <= i < parents.len(),
        parents[i] == -1,
    ensures
        sp_world(parents, transforms, i) == Some(transforms[i]),
{
}

proof fn lemma_two_cycle_from(
    parents: Seq<i16>,
    transforms: Seq<Transform>,
    j: int,
    k: int,
    acc: Transform,
    fuel: nat,
)
    requires
        0 <= j < parents.len(),
        0 <= k < parents.len(),
        parents[j] == k,
        parents[k] == j,
    ensures
        sp_world_from(parents, transforms, j, acc, fuel) is None,
    decreases fuel,
{
    if fuel > 0 {
        lemma_two_cycle_from(
            parents,
            transforms,
            k,
            j,
            compose_spec(transforms[k], acc),
            (fuel - 1) as nat,
        );
    }
}

/// Two bones whose parent entries point at each other form a cycle, and the
/// world-transform walk of either of them fails rather than looping: no
/// amount of fuel lets it reach a root.
pub proof fn lemma_two_cycle(parents: Seq<i16>, transforms: Seq<Transform>, j: int, k: int)
    requires
        0 <= j < parents.len(),
        0 <= k < parents.len(),
        parents[j] == k,
        parents[k] == j,
    ensures
        sp_world(parents, transforms, j) is None,
        sp_world(parents, transforms, k) is None,
{
    lemma_two_cycle_from(parents, transforms, j, k, transforms[j], parents.len() as nat);
    lemma_two_cycle_from(parents, transforms, k, j, transforms[k], parents.len() as nat);
}


/// The number of parent steps from bone `j` to its root, when the walk
/// reaches one within `fuel` steps.
pub open spec fn sp_depth(parents: Seq<i16>, j: int, fuel: nat) -> Option<nat>
    decreases fuel,
{
    if !(0 <= j < parents.len()) {
        None
    } else if parents[j] == -1 {
        Some(0)
    } else if fuel == 0 {
        None
    } else {
        match sp_depth(parents, parents[j] as int, (fuel - 1) as nat) {
            Some(d) => Some((d + 1) as nat),
            None => None,
        }
    }
}

proof fn lemma_depth_world(
    parents: Seq<i16>,
    transforms: Seq<Transform>,
    j: int,
    acc: Transform,
    fuel: nat,
)
    ensures
        (sp_world_from(parents, transforms, j, acc, fuel) is Some) == (sp_depth(
            parents,
            j,
            fuel,
        ) is Some),
    decreases fuel,
{
    if 0 <= j < parents.len() && parents[j] != -1 && fuel > 0 {
        lemma_depth_world(
            parents,
            transforms,
            parents[j] as int,
            compose_spec(transforms[parents[j] as int], acc),
            (fuel - 1) as nat,
        );
    }
}

proof fn lemma_depth_mono(parents: Seq<i16>, j: int, fuel: nat, fuel2: nat)
    requires
        fuel <= fuel2,
        sp_depth(parents, j, fuel) is Some,
    ensures
        sp_depth(parents, j, fuel2) == sp_depth(parents, j, fuel),
    decreases fuel,
{
    if 0 <= j < parents.len() && parents[j] != -1 {
        lemma_depth_mono(parents, parents[j] as int, (fuel - 1) as nat, (fuel2 - 1) as nat);
    }
}

proof fn lemma_depth_min(parents: Seq<i16>, j: int, fuel: nat)
    requires
        sp_depth(parents, j, fuel) is Some,
    ensures
        sp_depth(parents, j, sp_depth(parents, j, fuel)->0) == sp_depth(parents, j, fuel),
    decreases fuel,
{
    if 0 <= j < parents.len() && parents[j] != -1 {
        lemma_depth_min(parents, parents[j] as int, (fuel - 1) as nat);
        let d = sp_depth(parents, j, fuel)->0;
        lemma_depth_mono(
            parents,
            parents[j] as int,
            sp_depth(parents, parents[j] as int, (fuel - 1) as nat)->0,
            (d - 1) as nat,
        );
    }
}

/// The bones the walk from `j` visits, the root included.
spec fn sp_orbit(parents: Seq<i16>, j: int, fuel: nat) -> Set<int>
    decreases fuel,
{
    if !(0 <= j < parents.len()) {
        Set::empty()
    } else if parents[j] == -1 {
        Set::empty().insert(j)
    } else if fuel == 0 {
        Set::empty()
    } else {
        sp_orbit(parents, parents[j] as int, (fuel - 1) as nat).insert(j)
    }
}

proof fn lemma_orbit(parents: Seq<i16>, j: int, fuel: nat)
    requires
        sp_depth(parents, j, fuel) is Some,
    ensures
        ({
            let d = sp_depth(parents, j, fuel)->0;
            let ob = sp_orbit(parents, j, fuel);
            &&& ob.finite()
            &&& ob.len() == d + 1
            &&& forall|x: int|
                ob.contains(x) ==> 0 <= x < parents.len() && ((#[trigger] sp_depth(
                    parents,
                    x,
                    fuel,
                )) matches Some(dx) && dx <= d)
        }),
    decreases fuel,
{
    let d = sp_depth(parents, j, fuel)->0;
    let ob = sp_orbit(parents, j, fuel);
    if parents[j] == -1 {
        assert(ob.len() == 1) by {
            assert(Set::<int>::empty().insert(j).len() == 1);
        }
    } else {
        let p = parents[j] as int;
        let dp = sp_depth(parents, p, (fuel - 1) as nat)->0;
        lemma_orbit(parents, p, (fuel - 1) as nat);
        let obp = sp_orbit(parents, p, (fuel - 1) as nat);
        assert forall|x: int| obp.contains(x) implies 0 <= x < parents.len() && ((#[trigger] sp_depth(
            parents,
            x,
            fuel,
        )) matches Some(dx) && dx <= d) by {
            lemma_depth_mono(parents, x, (fuel - 1) as nat, fuel);
        }
        assert(!obp.contains(j)) by {
            if obp.contains(j) {
                lemma_depth_mono(parents, j, (fuel - 1) as nat, fuel);
            }
        }
        assert(ob.len() == d + 1);
    }
}

/// A bone count's worth of fuel is always enough: a walk that reaches a root
/// with any amount of fuel visits pairwise distinct bones, so it reaches the
/// root within `parents.len()` steps, and `sp_world` is `None` exactly when
/// no amount of fuel would let the walk terminate.
pub proof fn lemma_world_fuel_complete(
    parents: Seq<i16>,
    transforms: Seq<Transform>,
    i: int,
    acc: Transform,
    fuel: nat,
)
    requires
        sp_world_from(parents, transforms, i, acc, fuel) is Some,
    ensures
        sp_world(parents, transforms, i) is Some,
{
    lemma_depth_world(parents, transforms, i, acc, fuel);
    let d = sp_depth(parents, i, fuel)->0;
    lemma_orbit(parents, i, fuel);
    let ob = sp_orbit(parents, i, fuel);
    let rng = vstd::set_lib::set_int_range(0, parents.len() as int);
    vstd::set_lib::lemma_int_range(0, parents.len() as int);
    assert forall|x: int| ob.contains(x) implies rng.contains(x) by {
        let probe = sp_depth(parents, x, fuel);
        assert(0 <= x < parents.len());
    }
    assert(ob.subset_of(rng));
    vstd::set_lib::lemma_len_subset(ob, rng);
    assert(d < parents.len());
    lemma_depth_min(parents, i, fuel);
    lemma_depth_mono(parents, i, d, parents.len() as nat);
    lemma_depth_world(parents, transforms, i, transforms[i], parents.len() as nat);
}

} // verus!
