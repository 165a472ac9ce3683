use vstd::prelude::*;

use crate::error::DumpError;
use crate::model::{clamp0, Animation, Skeleton, Transform};
use crate::text::{float_text, format_float_bits};
use crate::xform::{lemma_world_none_independent, sp_world, walk_world, world_transform};

verus! {

/// The decimal digits of `n`, most significant first, as ASCII bytes.
pub open spec fn dec_digits(n: nat) -> Seq<u8>
    decreases n,
{
    if n < 10 {
        seq![(48 + n) as u8]
    } else {
        dec_digits(n / 10).push((48 + n % 10) as u8)
    }
}

/// Renders an unsigned number as decimal ASCII text.
pub fn u32_to_decimal(n: u32) -> (r: Vec<u8>)
    ensures
        r@ == dec_digits(n as nat),
    decreases n,
{
    if n < 10 {
        let mut v: Vec<u8> = Vec::new();
        v.push((48 + n) as u8);
        assert(v@ =~= dec_digits(n as nat));
        v
    } else {
        let mut v: Vec<u8> = u32_to_decimal(n / 10);
        v.push((48 + n % 10) as u8);
        assert(v@ =~= dec_digits((n / 10) as nat).push((48 + (n as nat) % 10) as u8));
        v
    }
}

/// Appends all of `src` to `dst`.
pub fn push_bytes(dst: &mut Vec<u8>, src: &Vec<u8>)
    ensures
        final(dst)@ == old(dst)@ + src@,
{
    assert(dst@ =~= old(dst)@ + src@.take(0));
    let mut i: usize = 0;
    while i < src.len()
        invariant
            i <= src@.len(),
            dst@ == old(dst)@ + src@.take(i as int),
        decreases src@.len() - i,
    {
        dst.push(src[i]);
        assert(dst@ =~= old(dst)@ + src@.take(i + 1));
        i += 1;
    }
    assert(dst@ =~= old(dst)@ + src@);
}


/// The rows of a CSV table as a sequence of byte sequences.
pub open spec fn rows_view(rows: Vec<Vec<u8>>) -> Seq<Seq<u8>> {
    rows@.map_values(|r: Vec<u8>| r@)
}

/// The eight numeric fields of a CSV row, comma-separated: location x, y, z,
/// then the rotation quaternion w first and x, y, z after, then the scale.
pub open spec fn sp_transform_fields(t: Transform) -> Seq<u8> {
    float_text(t.location.0) + seq![44u8] + float_text(t.location.1) + seq![44u8] + float_text(
        t.location.2,
    ) + seq![44u8] + float_text(t.rotation.3) + seq![44u8] + float_text(t.rotation.0) + seq![44u8]
        + float_text(t.rotation.1) + seq![44u8] + float_text(t.rotation.2) + seq![44u8]
        + float_text(t.scale)
}

/// Appends the eight numeric fields of `t` to `row`.
fn push_transform_fields(row: &mut Vec<u8>, t: Transform)
    ensures
        final(row)@ == old(row)@ + sp_transform_fields(t),
{
    let fx: Vec<u8> = format_float_bits(t.location.0);
    push_bytes(row, &fx);
    row.push(44);
    let fy: Vec<u8> = format_float_bits(t.location.1);
    push_bytes(row, &fy);
    row.push(44);
    let fz: Vec<u8> = format_float_bits(t.location.2);
    push_bytes(row, &fz);
    row.push(44);
    let rw: Vec<u8> = format_float_bits(t.rotation.3);
    push_bytes(row, &rw);
    row.push(44);
    let rx: Vec<u8> = format_float_bits(t.rotation.0);
    push_bytes(row, &rx);
    row.push(44);
    let ry: Vec<u8> = format_float_bits(t.rotation.1);
    push_bytes(row, &ry);
    row.push(44);
    let rz: Vec<u8> = format_float_bits(t.rotation.2);
    push_bytes(row, &rz);
    row.push(44);
    let sc: Vec<u8> = format_float_bits(t.scale);
    push_bytes(row, &sc);
    assert(row@ =~= old(row)@ + sp_transform_fields(t));
}

/// The parent-name field of a bind-pose row: the parent bone's name, or the
/// literal text `NULL` for a root bone.
pub open spec fn sp_parent_field(sk: Skeleton, i: int) -> Seq<u8> {
    if sk.parents@[i] == -1 {
        seq![78u8, 85u8, 76u8, 76u8]
    } else {
        sk.transform_names@[sk.parents@[i] as int]@
    }
}

/// One bind-pose CSV row: bone name, parent name or `NULL`, then the world
/// transform's eight numeric fields.
pub open spec fn sp_bind_row(sk: Skeleton, i: int) -> Seq<u8> {
    sk.transform_names@[i]@ + seq![44u8] + sp_parent_field(sk, i) + seq![44u8]
        + sp_transform_fields(sp_world(sk.parents@, sk.transforms@, i)->Some_0)
}

/// Encodes the bind pose of a well-formed skeleton: one row per bone, in
/// bone-index order. Fails with `CycleDetected` exactly when some bone's
/// parent chain never reaches a root.
pub fn encode_skeleton_csv(skeleton: &Skeleton) -> (res: Result<Vec<Vec<u8>>, DumpError>)
    requires
        skeleton.wf(),
    ensures
        match res {
            Ok(rows) => {
                &&& rows@.len() == skeleton.n_transforms
                &&& forall|i: int|
                    0 <= i < skeleton.n_transforms ==> sp_world(
                        skeleton.parents@,
                        skeleton.transforms@,
                        i,
                    ) is Some
                &&& rows_view(rows) == Seq::new(
                    skeleton.n_transforms as nat,
                    |i: int| sp_bind_row(*skeleton, i),
                )
            },
            Err(e) => {
                &&& e == DumpError::CycleDetected
                &&& exists|i: int|
                    0 <= i < skeleton.n_transforms && sp_world(
                        skeleton.parents@,
                        skeleton.transforms@,
                        i,
                    ) is None
            },
        },
{
    let n: usize = skeleton.n_transforms as usize;
    let mut rows: Vec<Vec<u8>> = Vec::new();
    let mut i: usize = 0;
    while i < n
        invariant
            skeleton.wf(),
            n == skeleton.n_transforms,
            i <= n,
            rows@.len() == i,
            forall|k: int|
                0 <= k < i ==> sp_world(skeleton.parents@, skeleton.transforms@, k) is Some,
            forall|k: int| 0 <= k < i ==> (#[trigger] rows@[k])@ == sp_bind_row(*skeleton, k),
        decreases n - i,
    {
        let w: Transform = match world_transform(skeleton, i as i32) {
            Ok(t) => t,
            Err(e) => {
                assert(sp_world(skeleton.parents@, skeleton.transforms@, i as int) is None);
                return Err(e);
            },
        };
        let mut row: Vec<u8> = Vec::new();
        push_bytes(&mut row, &skeleton.transform_names[i]);
        row.push(44);
        let p: i16 = skeleton.parents[i];
        if p == -1 {
            row.push(78);
            row.push(85);
            row.push(76);
            row.push(76);
        } else {
            push_bytes(&mut row, &skeleton.transform_names[p as usize]);
        }
        row.push(44);
        push_transform_fields(&mut row, w);
        proof {
            assert(row@ =~= sp_bind_row(*skeleton, i as int));
        }
        let ghost rows_old = rows@;
        rows.push(row);
        proof {
            assert forall|k: int| 0 <= k < i + 1 implies (#[trigger] rows@[k])@ == sp_bind_row(
                *skeleton,
                k,
            ) by {
                if k < i {
                    assert(rows@[k] == rows_old[k]);
                }
            }
        }
        i += 1;
    }
    proof {
        assert(rows_view(rows) =~= Seq::new(
            skeleton.n_transforms as nat,
            |k: int| sp_bind_row(*skeleton, k),
        ));
    }
    Ok(rows)
}

/// The number of bones an animation actually overwrites in a skeleton: the
/// smaller of the two transform counts, clamped below at zero.
pub open spec fn sp_overwrite_count(anim: Animation, sk: Skeleton) -> int {
    if anim.n_transforms <= sk.n_transforms {
        clamp0(anim.n_transforms as int)
    } else {
        clamp0(sk.n_transforms as int)
    }
}

/// The skeleton's local transforms with the first `m` entries overwritten by
/// the pose's transforms, index for index; the rest keep the bind pose.
pub open spec fn sp_posed(base: Seq<Transform>, pose: Seq<Transform>, m: int) -> Seq<Transform> {
    Seq::new(
        base.len(),
        |k: int|
            if k < m {
                pose[k]
            } else {
                base[k]
            },
    )
}

/// One animated CSV row: frame index, bone name, then the eight numeric
/// fields of the bone's world transform under that frame's pose.
pub open spec fn sp_anim_row(sk: Skeleton, anim: Animation, f: int, b: int) -> Seq<u8> {
    dec_digits(f as nat) + seq![44u8] + sk.transform_names@[b]@ + seq![44u8] + sp_transform_fields(
        sp_world(
            sk.parents@,
            sp_posed(sk.transforms@, anim.poses@[f].transforms@, sp_overwrite_count(anim, sk)),
            b,
        )->Some_0,
    )
}

/// The rows of one frame, in bone-index order.
pub open spec fn sp_frame_rows(sk: Skeleton, anim: Animation, f: int) -> Seq<Seq<u8>> {
    Seq::new(sp_overwrite_count(anim, sk) as nat, |b: int| sp_anim_row(sk, anim, f, b))
}

/// The rows of the first `nf` frames, in increasing frame order.
pub open spec fn sp_anim_table(sk: Skeleton, anim: Animation, nf: int) -> Seq<Seq<u8>>
    decreases nf,
{
    if nf <= 0 {
        Seq::empty()
    } else {
        sp_anim_table(sk, anim, nf - 1) + sp_frame_rows(sk, anim, nf - 1)
    }
}

/// The animated table holds one row per frame and overwritten bone.
pub proof fn lemma_anim_table_len(sk: Skeleton, anim: Animation, nf: int)
    requires
        nf >= 0,
    ensures
        sp_anim_table(sk, anim, nf).len() == nf * sp_overwrite_count(anim, sk),
    decreases nf,
{
    let m = sp_overwrite_count(anim, sk);
    if nf == 0 {
    } else {
        lemma_anim_table_len(sk, anim, nf - 1);
        assert((nf - 1) * m + m == nf * m) by (nonlinear_arith);
    }
}

/// Encodes an animation against a well-formed skeleton: for each frame in
/// increasing order, the first `min` bones' transforms are overwritten by
/// the frame's pose and one row is emitted per overwritten bone, in
/// bone-index order. Fails with `CycleDetected` exactly when frames exist
/// and some overwritten bone's parent chain never reaches a root.
pub fn encode_animation_csv(skeleton: &Skeleton, animation: &Animation) -> (res: Result<
    Vec<Vec<u8>>,
    DumpError,
>)
    requires
        skeleton.wf(),
        animation.wf(),
    ensures
        match res {
            Ok(rows) => {
                &&& rows@.len() == clamp0(animation.n_frames as int) * sp_overwrite_count(
                    *animation,
                    *skeleton,
                )
                &&& rows_view(rows) == sp_anim_table(
                    *skeleton,
                    *animation,
                    animation.n_frames as int,
                )
                &&& animation.n_frames > 0 ==> forall|b: int|
                    0 <= b < sp_overwrite_count(*animation, *skeleton) ==> sp_world(
                        skeleton.parents@,
                        skeleton.transforms@,
                        b,
                    ) is Some
            },
            Err(e) => {
                &&& e == DumpError::CycleDetected
                &&& animation.n_frames > 0
                &&& exists|b: int|
                    0 <= b < sp_overwrite_count(*animation, *skeleton) && sp_world(
                        skeleton.parents@,
                        skeleton.transforms@,
                        b,
                    ) is None
            },
        },
{
    let ghost ps = skeleton.parents@;
    let ghost base = skeleton.transforms@;
    let ghost m_spec = sp_overwrite_count(*animation, *skeleton);
    let n: i32 = skeleton.n_transforms;
    let m32: i32 = if animation.n_transforms <= n {
        animation.n_transforms
    } else {
        n
    };
    let m: usize = if m32 < 0 {
        0
    } else {
        m32 as usize
    };
    assert(m == m_spec);
    let frames: usize = if animation.n_frames < 0 {
        0
    } else {
        animation.n_frames as usize
    };
    let mut work: Vec<Transform> = Vec::new();
    let mut c: usize = 0;
    while c < skeleton.transforms.len()
        invariant
            c <= base.len(),
            base == skeleton.transforms@,
            work@.len() == c,
            forall|k: int| 0 <= k < c ==> work@[k] == base[k],
        decreases base.len() - c,
    {
        work.push(skeleton.transforms[c]);
        c += 1;
    }
    let mut rows: Vec<Vec<u8>> = Vec::new();
    let mut f: usize = 0;
    while f < frames
        invariant
            skeleton.wf(),
            animation.wf(),
            ps == skeleton.parents@,
            base == skeleton.transforms@,
            n == skeleton.n_transforms,
            m_spec == sp_overwrite_count(*animation, *skeleton),
            m == m_spec,
            m <= n,
            frames == clamp0(animation.n_frames as int),
            f <= frames,
            work@.len() == base.len(),
            forall|k: int| m <= k < work@.len() ==> work@[k] == base[k],
            rows_view(rows) == sp_anim_table(*skeleton, *animation, f as int),
            rows@.len() == sp_anim_table(*skeleton, *animation, f as int).len(),
            f > 0 ==> forall|b: int| 0 <= b < m ==> sp_world(ps, base, b) is Some,
        decreases frames - f,
    {
        let ghost pose_f = animation.poses@[f as int].transforms@;
        let mut k: usize = 0;
        while k < m
            invariant
                animation.wf(),
                m <= work@.len(),
                f < frames,
                frames == clamp0(animation.n_frames as int),
                animation.poses@.len() == frames,
                pose_f == animation.poses@[f as int].transforms@,
                m <= pose_f.len(),
                k <= m,
                base == skeleton.transforms@,
                work@.len() == base.len(),
                forall|j: int| 0 <= j < k ==> work@[j] == pose_f[j],
                forall|j: int| m <= j < work@.len() ==> work@[j] == base[j],
            decreases m - k,
        {
            let t: Transform = animation.poses[f].transforms[k];
            work.set(k, t);
            k += 1;
        }
        proof {
            assert(work@ =~= sp_posed(base, pose_f, m as int));
        }
        let ghost posed = work@;
        let mut b: usize = 0;
        while b < m
            invariant
                skeleton.wf(),
                animation.wf(),
                ps == skeleton.parents@,
                base == skeleton.transforms@,
                n == skeleton.n_transforms,
                m_spec == sp_overwrite_count(*animation, *skeleton),
                m == m_spec,
                m <= n,
                frames == clamp0(animation.n_frames as int),
                f < frames,
                b <= m,
                work@ == posed,
                posed == sp_posed(base, animation.poses@[f as int].transforms@, m as int),
                work@.len() == base.len(),
                rows_view(rows) == sp_anim_table(*skeleton, *animation, f as int) + sp_frame_rows(
                    *skeleton,
                    *animation,
                    f as int,
                ).take(b as int),
                rows@.len() == sp_anim_table(*skeleton, *animation, f as int).len() + b,
                forall|bb: int| 0 <= bb < b ==> sp_world(ps, posed, bb) is Some,
            decreases m - b,
        {
            let w: Transform = match walk_world(&skeleton.parents, &work, b as i32) {
                Ok(t) => t,
                Err(e) => {
                    proof {
                        lemma_world_none_independent(ps, posed, base, b as int);
                        assert(sp_world(ps, base, b as int) is None);
                    }
                    return Err(e);
                },
            };
            let dec: Vec<u8> = u32_to_decimal(f as u32);
            let mut row: Vec<u8> = Vec::new();
            push_bytes(&mut row, &dec);
            row.push(44);
            push_bytes(&mut row, &skeleton.transform_names[b]);
            row.push(44);
            push_transform_fields(&mut row, w);
            proof {
                assert(row@ =~= sp_anim_row(*skeleton, *animation, f as int, b as int));
            }
            let ghost rows_old = rows@;
            let ghost rv_old = rows_view(rows);
            let ghost rowv = row@;
            rows.push(row);
            proof {
                let tbl = sp_anim_table(*skeleton, *animation, f as int);
                let fr = sp_frame_rows(*skeleton, *animation, f as int);
                assert(rowv == sp_anim_row(*skeleton, *animation, f as int, b as int));
                assert(rv_old == tbl + fr.take(b as int));
                assert forall|k: int| 0 <= k < rows@.len() implies #[trigger] rows_view(rows)[k]
                    == (tbl + fr.take(b + 1))[k] by {
                    assert(rows_view(rows)[k] == rows@[k]@);
                    if k < rows_old.len() {
                        assert(rows@[k] == rows_old[k]);
                        assert(rows_old[k]@ == rv_old[k]);
                        assert(rv_old[k] == (tbl + fr.take(b as int))[k]);
                        if k < tbl.len() {
                            assert((tbl + fr.take(b + 1))[k] == tbl[k]);
                        } else {
                            assert((tbl + fr.take(b as int))[k] == fr.take(b as int)[k
                                - tbl.len()]);
                            assert(fr.take(b as int)[k - tbl.len()] == fr[k - tbl.len()]);
                            assert((tbl + fr.take(b + 1))[k] == fr.take(b + 1)[k - tbl.len()]);
                            assert(fr.take(b + 1)[k - tbl.len()] == fr[k - tbl.len()]);
                        }
                    } else {
                        assert(k == rows_old.len());
                        assert(rows@[k]@ == rowv);
                        assert((tbl + fr.take(b + 1))[k] == fr.take(b + 1)[b as int]);
                        assert(fr.take(b + 1)[b as int] == fr[b as int]);
                        assert(fr[b as int] == sp_anim_row(*skeleton, *animation, f as int, b as int));
                    }
                }
                assert(rows_view(rows) =~= tbl + fr.take(b + 1));
            }
            b += 1;
        }
        proof {
            assert(sp_frame_rows(*skeleton, *animation, f as int).take(m as int) =~= sp_frame_rows(
                *skeleton,
                *animation,
                f as int,
            ));
            assert(rows_view(rows) =~= sp_anim_table(*skeleton, *animation, f as int + 1));
            assert(forall|bb: int| 0 <= bb < m ==> sp_world(ps, posed, bb) is Some);
            assert forall|bb: int| 0 <= bb < m implies sp_world(ps, base, bb) is Some by {
                lemma_world_none_independent(ps, posed, base, bb);
            }
        }
        f += 1;
    }
    proof {
        if frames == 0 {
            assert(rows_view(rows) =~= sp_anim_table(
                *skeleton,
                *animation,
                animation.n_frames as int,
            ));
        }
        lemma_anim_table_len(*skeleton, *animation, frames as int);
        assert(sp_anim_table(*skeleton, *animation, animation.n_frames as int) == sp_anim_table(
            *skeleton,
            *animation,
            frames as int,
        ));
    }
    Ok(rows)
}

/// The rows joined into one text: each row followed by one newline.
pub open spec fn sp_join(rows: Seq<Seq<u8>>) -> Seq<u8>
    decreases rows.len(),
{
    if rows.len() == 0 {
        Seq::empty()
    } else {
        sp_join(rows.drop_last()) + rows.last() + seq![10u8]
    }
}

/// Joins CSV rows into one buffer, terminating every row with a newline.
pub fn csv_join(rows: &Vec<Vec<u8>>) -> (r: Vec<u8>)
    ensures
        r@ == sp_join(rows_view(*rows)),
{
    let ghost dv = rows_view(*rows);
    let mut out: Vec<u8> = Vec::new();
    assert(out@ =~= sp_join(dv.take(0)));
    let mut i: usize = 0;
    while i < rows.len()
        invariant
            i <= rows@.len(),
            dv == rows_view(*rows),
            dv.len() == rows@.len(),
            out@ == sp_join(dv.take(i as int)),
        decreases rows@.len() - i,
    {
        push_bytes(&mut out, &rows[i]);
        out.push(10);
        proof {
            assert(dv.take(i + 1).drop_last() =~= dv.take(i as int));
            assert(dv.take(i + 1).last() == rows@[i as int]@);
            assert(out@ =~= sp_join(dv.take(i + 1)));
        }
        i += 1;
    }
    assert(dv.take(rows@.len() as int) =~= dv);
    out
}

} // verus!
