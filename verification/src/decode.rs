use vstd::prelude::*;

use crate::error::DumpError;
use crate::model::{clamp0, Animation, AnimationV, Pose, PoseV, Skeleton, SkeletonV, Transform};
use crate::reader::{
    le32_at, read_float_bits, read_header, read_i16, read_i32, read_string, read_u32, sp_read_i16,
    sp_read_i32, sp_read_string, sp_read_u32, Reader,
};

verus! {

/// Reading `n` consecutive elements with the element reader `f`, starting at
/// `p`. A non-positive count reads nothing, exactly as the decode loops over
/// signed wire counts do.
pub open spec fn sp_read_many<T>(
    s: Seq<u8>,
    p: int,
    n: int,
    f: spec_fn(Seq<u8>, int) -> Result<(T, int), DumpError>,
) -> Result<(Seq<T>, int), DumpError>
    decreases n,
{
    if n <= 0 {
        Ok((Seq::empty(), p))
    } else {
        match f(s, p) {
            Ok(vp) => match sp_read_many(s, vp.1, n - 1, f) {
                Ok(rest) => Ok((seq![vp.0] + rest.0, rest.1)),
                Err(e) => Err(e),
            },
            Err(e) => Err(e),
        }
    }
}

/// Reading `k` elements and then the remaining `n - k` from where the first
/// batch stopped is the same as reading all `n` at once.
pub proof fn lemma_many_split<T>(
    s: Seq<u8>,
    f: spec_fn(Seq<u8>, int) -> Result<(T, int), DumpError>,
    p: int,
    k: int,
    n: int,
)
    requires
        0 <= k <= n,
    ensures
        sp_read_many(s, p, n, f) == (match sp_read_many(s, p, k, f) {
            Ok(vp1) => match sp_read_many(s, vp1.1, n - k, f) {
                Ok(vp2) => Ok::<(Seq<T>, int), DumpError>((vp1.0 + vp2.0, vp2.1)),
                Err(e) => Err::<(Seq<T>, int), DumpError>(e),
            },
            Err(e) => Err::<(Seq<T>, int), DumpError>(e),
        }),
    decreases k,
{
    if k == 0 {
        assert(sp_read_many(s, p, 0, f) == Ok::<(Seq<T>, int), DumpError>((Seq::empty(), p)));
        match sp_read_many(s, p, n, f) {
            Ok(vp2) => {
                assert(Seq::<T>::empty() + vp2.0 =~= vp2.0);
            },
            Err(_) => {},
        }
    } else {
        match f(s, p) {
            Ok(vp) => {
                lemma_many_split(s, f, vp.1, k - 1, n - 1);
                match sp_read_many(s, vp.1, k - 1, f) {
                    Ok(vp1) => {
                        match sp_read_many(s, vp1.1, n - k, f) {
                            Ok(vp2) => {
                                assert((seq![vp.0] + vp1.0) + vp2.0 =~= seq![vp.0] + (vp1.0
                                    + vp2.0));
                            },
                            Err(_) => {},
                        }
                    },
                    Err(_) => {},
                }
            },
            Err(_) => {},
        }
    }
}

/// One successful element read extends a successful batch by one element.
pub proof fn lemma_many_step<T>(
    s: Seq<u8>,
    f: spec_fn(Seq<u8>, int) -> Result<(T, int), DumpError>,
    p0: int,
    k: int,
    prefix: Seq<T>,
    cur: int,
    x: T,
    cur2: int,
)
    requires
        0 <= k,
        sp_read_many(s, p0, k, f) == Ok::<(Seq<T>, int), DumpError>((prefix, cur)),
        f(s, cur) == Ok::<(T, int), DumpError>((x, cur2)),
    ensures
        sp_read_many(s, p0, k + 1, f) == Ok::<(Seq<T>, int), DumpError>((prefix.push(x), cur2)),
{
    lemma_many_split(s, f, p0, k, k + 1);
    assert(sp_read_many(s, cur2, 0, f) == Ok::<(Seq<T>, int), DumpError>((Seq::empty(), cur2)));
    assert(sp_read_many(s, cur, 1, f) == Ok::<(Seq<T>, int), DumpError>(
        (seq![x] + Seq::empty(), cur2),
    ));
    assert(seq![x] + Seq::<T>::empty() =~= seq![x]);
    assert(prefix + seq![x] =~= prefix.push(x));
}

/// A failing element read after a successful batch fails the whole read.
pub proof fn lemma_many_step_err<T>(
    s: Seq<u8>,
    f: spec_fn(Seq<u8>, int) -> Result<(T, int), DumpError>,
    p0: int,
    k: int,
    n: int,
    prefix: Seq<T>,
    cur: int,
    e: DumpError,
)
    requires
        0 <= k < n,
        sp_read_many(s, p0, k, f) == Ok::<(Seq<T>, int), DumpError>((prefix, cur)),
        f(s, cur) == Err::<(T, int), DumpError>(e),
    ensures
        sp_read_many(s, p0, n, f) == Err::<(Seq<T>, int), DumpError>(e),
{
    lemma_many_split(s, f, p0, k, n);
    assert(sp_read_many(s, cur, n - k, f) == Err::<(Seq<T>, int), DumpError>(e));
}

/// A successful batch of `n` reads yields exactly `clamp0(n)` elements.
pub proof fn lemma_many_ok_len<T>(
    s: Seq<u8>,
    f: spec_fn(Seq<u8>, int) -> Result<(T, int), DumpError>,
    p: int,
    n: int,
)
    requires
        sp_read_many(s, p, n, f) is Ok,
    ensures
        sp_read_many(s, p, n, f)->Ok_0.0.len() == clamp0(n),
    decreases n,
{
    if n <= 0 {
    } else {
        match f(s, p) {
            Ok(vp) => {
                lemma_many_ok_len(s, f, vp.1, n - 1);
            },
            Err(_) => {},
        }
    }
}

/// Every pose of a successful batch has its arrays index-aligned with the
/// declared transform and float counts.
pub proof fn lemma_poses_lens(s: Seq<u8>, p: int, n: int, nt: i32, nf: i32)
    requires
        sp_read_many(s, p, n, rd_pose(nt, nf)) is Ok,
    ensures
        forall|j: int|
            0 <= j < sp_read_many(s, p, n, rd_pose(nt, nf))->Ok_0.0.len() ==> {
                let pv = #[trigger] sp_read_many(s, p, n, rd_pose(nt, nf))->Ok_0.0[j];
                pv.transforms.len() == clamp0(nt as int) && pv.floats.len() == clamp0(nf as int)
            },
    decreases n,
{
    if n > 0 {
        let vp = sp_read_pose(s, p, nt, nf)->Ok_0;
        lemma_many_ok_len(s, rd_transform(), sp_read_u32(s, p)->Ok_0.1, nt as int);
        lemma_many_ok_len(
            s,
            rd_u32(),
            sp_read_many(s, sp_read_u32(s, p)->Ok_0.1, nt as int, rd_transform())->Ok_0.1,
            nf as int,
        );
        lemma_poses_lens(s, vp.1, n - 1, nt, nf);
        let whole = sp_read_many(s, p, n, rd_pose(nt, nf))->Ok_0.0;
        let rest = sp_read_many(s, vp.1, n - 1, rd_pose(nt, nf))->Ok_0.0;
        assert(forall|j: int| 1 <= j < whole.len() ==> #[trigger] whole[j] == rest[j - 1]);
    }
}

/// The element reader for 16-bit parent indices.
pub open spec fn rd_i16() -> spec_fn(Seq<u8>, int) -> Result<(i16, int), DumpError> {
    |s: Seq<u8>, p: int| sp_read_i16(s, p)
}

/// The element reader for 32-bit float bit patterns.
pub open spec fn rd_u32() -> spec_fn(Seq<u8>, int) -> Result<(u32, int), DumpError> {
    |s: Seq<u8>, p: int| sp_read_u32(s, p)
}

/// The element reader for null-terminated strings.
pub open spec fn rd_str() -> spec_fn(Seq<u8>, int) -> Result<(Seq<u8>, int), DumpError> {
    |s: Seq<u8>, p: int| sp_read_string(s, p, 0)
}

/// Reading one wire transform at `p`: three groups of four 32-bit words each,
/// read as (x, y, z, w). The first group's (x, y, z) is the location and its
/// fourth word is a discarded padding slot; the second group is the (x, y, z,
/// w) quaternion; of the third group only the third (z-slot) word is kept, as
/// the uniform scale. All twelve words are consumed either way, so the cursor
/// always advances by 48 on success.
pub open spec fn sp_read_transform(s: Seq<u8>, p: int) -> Result<(Transform, int), DumpError> {
    if p + 48 <= s.len() {
        Ok(
            (
                Transform {
                    location: (le32_at(s, p), le32_at(s, p + 4), le32_at(s, p + 8)),
                    rotation: (
                        le32_at(s, p + 16),
                        le32_at(s, p + 20),
                        le32_at(s, p + 24),
                        le32_at(s, p + 28),
                    ),
                    scale: le32_at(s, p + 40),
                },
                p + 48,
            ),
        )
    } else {
        Err(DumpError::Truncation)
    }
}

/// The element reader for wire transforms.
pub open spec fn rd_transform() -> spec_fn(Seq<u8>, int) -> Result<(Transform, int), DumpError> {
    |s: Seq<u8>, p: int| sp_read_transform(s, p)
}

/// Reads one transform: location group, rotation group, scale group, with
/// the padding words consumed and discarded to keep the stream aligned.
pub fn read_transform(r: &mut Reader) -> (res: Result<Transform, DumpError>)
    requires
        old(r).wf(),
    ensures
        final(r).wf(),
        final(r).bytes() == old(r).bytes(),
        match sp_read_transform(old(r).bytes(), old(r).cursor()) {
            Ok(vp) => res == Ok::<Transform, DumpError>(vp.0) && final(r).cursor() == vp.1,
            Err(e) => res == Err::<Transform, DumpError>(e),
        },
{
    let lx: u32 = match read_float_bits(r) {
        Ok(v) => v,
        Err(e) => return Err(e),
    };
    let ly: u32 = match read_float_bits(r) {
        Ok(v) => v,
        Err(e) => return Err(e),
    };
    let lz: u32 = match read_float_bits(r) {
        Ok(v) => v,
        Err(e) => return Err(e),
    };
    let _pad: u32 = match read_float_bits(r) {
        Ok(v) => v,
        Err(e) => return Err(e),
    };
    let rx: u32 = match read_float_bits(r) {
        Ok(v) => v,
        Err(e) => return Err(e),
    };
    let ry: u32 = match read_float_bits(r) {
        Ok(v) => v,
        Err(e) => return Err(e),
    };
    let rz: u32 = match read_float_bits(r) {
        Ok(v) => v,
        Err(e) => return Err(e),
    };
    let rw: u32 = match read_float_bits(r) {
        Ok(v) => v,
        Err(e) => return Err(e),
    };
    let _sx: u32 = match read_float_bits(r) {
        Ok(v) => v,
        Err(e) => return Err(e),
    };
    let _sy: u32 = match read_float_bits(r) {
        Ok(v) => v,
        Err(e) => return Err(e),
    };
    let sz: u32 = match read_float_bits(r) {
        Ok(v) => v,
        Err(e) => return Err(e),
    };
    let _sw: u32 = match read_float_bits(r) {
        Ok(v) => v,
        Err(e) => return Err(e),
    };
    Ok(Transform { location: (lx, ly, lz), rotation: (rx, ry, rz, rw), scale: sz })
}

/// Reads `n` 16-bit parent indices; a non-positive count reads nothing.
pub fn read_i16s(r: &mut Reader, n: i32) -> (res: Result<Vec<i16>, DumpError>)
    requires
        old(r).wf(),
    ensures
        final(r).wf(),
        final(r).bytes() == old(r).bytes(),
        match sp_read_many(old(r).bytes(), old(r).cursor(), n as int, rd_i16()) {
            Ok(vp) => res matches Ok(v) && v@ == vp.0 && final(r).cursor() == vp.1,
            Err(e) => res == Err::<Vec<i16>, DumpError>(e),
        },
{
    let ghost s = old(r).bytes();
    let ghost p0 = old(r).cursor();
    let mut acc: Vec<i16> = Vec::new();
    if n <= 0 {
        assert(acc@ =~= Seq::<i16>::empty());
        return Ok(acc);
    }
    let mut i: i32 = 0;
    while i < n
        invariant
            r.wf(),
            r.bytes() == s,
            s == old(r).bytes(),
            p0 == old(r).cursor(),
            0 <= i <= n,
            sp_read_many(s, p0, i as int, rd_i16()) == Ok::<(Seq<i16>, int), DumpError>(
                (acc@, r.cursor()),
            ),
        decreases n - i,
    {
        let ghost cur = r.cursor();
        let ghost prefix = acc@;
        match read_i16(r) {
            Ok(x) => {
                acc.push(x);
                proof {
                    lemma_many_step(s, rd_i16(), p0, i as int, prefix, cur, x, r.cursor());
                }
                i += 1;
            },
            Err(e) => {
                proof {
                    lemma_many_step_err(s, rd_i16(), p0, i as int, n as int, prefix, cur, e);
                }
                return Err(e);
            },
        }
    }
    Ok(acc)
}

/// Reads `n` 32-bit float bit patterns; a non-positive count reads nothing.
pub fn read_floats(r: &mut Reader, n: i32) -> (res: Result<Vec<u32>, DumpError>)
    requires
        old(r).wf(),
    ensures
        final(r).wf(),
        final(r).bytes() == old(r).bytes(),
        match sp_read_many(old(r).bytes(), old(r).cursor(), n as int, rd_u32()) {
            Ok(vp) => res matches Ok(v) && v@ == vp.0 && final(r).cursor() == vp.1,
            Err(e) => res == Err::<Vec<u32>, DumpError>(e),
        },
{
    let ghost s = old(r).bytes();
    let ghost p0 = old(r).cursor();
    let mut acc: Vec<u32> = Vec::new();
    if n <= 0 {
        assert(acc@ =~= Seq::<u32>::empty());
        return Ok(acc);
    }
    let mut i: i32 = 0;
    while i < n
        invariant
            r.wf(),
            r.bytes() == s,
            s == old(r).bytes(),
            p0 == old(r).cursor(),
            0 <= i <= n,
            sp_read_many(s, p0, i as int, rd_u32()) == Ok::<(Seq<u32>, int), DumpError>(
                (acc@, r.cursor()),
            ),
        decreases n - i,
    {
        let ghost cur = r.cursor();
        let ghost prefix = acc@;
        match read_float_bits(r) {
            Ok(x) => {
                acc.push(x);
                proof {
                    lemma_many_step(s, rd_u32(), p0, i as int, prefix, cur, x, r.cursor());
                }
                i += 1;
            },
            Err(e) => {
                proof {
                    lemma_many_step_err(s, rd_u32(), p0, i as int, n as int, prefix, cur, e);
                }
                return Err(e);
            },
        }
    }
    Ok(acc)
}

/// Reads `n` null-terminated strings; a non-positive count reads nothing.
pub fn read_strings(r: &mut Reader, n: i32) -> (res: Result<Vec<Vec<u8>>, DumpError>)
    requires
        old(r).wf(),
    ensures
        final(r).wf(),
        final(r).bytes() == old(r).bytes(),
        match sp_read_many(old(r).bytes(), old(r).cursor(), n as int, rd_str()) {
            Ok(vp) => res matches Ok(v) && v.deep_view() == vp.0 && final(r).cursor() == vp.1,
            Err(e) => res == Err::<Vec<Vec<u8>>, DumpError>(e),
        },
{
    let ghost s = old(r).bytes();
    let ghost p0 = old(r).cursor();
    let mut acc: Vec<Vec<u8>> = Vec::new();
    if n <= 0 {
        assert(acc.deep_view() =~= Seq::<Seq<u8>>::empty());
        return Ok(acc);
    }
    assert(acc.deep_view() =~= Seq::<Seq<u8>>::empty());
    let mut i: i32 = 0;
    while i < n
        invariant
            r.wf(),
            r.bytes() == s,
            s == old(r).bytes(),
            p0 == old(r).cursor(),
            0 <= i <= n,
            sp_read_many(s, p0, i as int, rd_str()) == Ok::<(Seq<Seq<u8>>, int), DumpError>(
                (acc.deep_view(), r.cursor()),
            ),
        decreases n - i,
    {
        let ghost cur = r.cursor();
        let ghost prefix = acc.deep_view();
        match read_string(r) {
            Ok(x) => {
                let ghost xv = x@;
                proof {
                    assert(x.deep_view() =~= xv);
                }
                acc.push(x);
                proof {
                    assert(acc.deep_view() =~= prefix.push(xv));
                    lemma_many_step(s, rd_str(), p0, i as int, prefix, cur, xv, r.cursor());
                }
                i += 1;
            },
            Err(e) => {
                proof {
                    lemma_many_step_err(s, rd_str(), p0, i as int, n as int, prefix, cur, e);
                }
                return Err(e);
            },
        }
    }
    Ok(acc)
}

/// Reads `n` wire transforms; a non-positive count reads nothing.
pub fn read_transforms(r: &mut Reader, n: i32) -> (res: Result<Vec<Transform>, DumpError>)
    requires
        old(r).wf(),
    ensures
        final(r).wf(),
        final(r).bytes() == old(r).bytes(),
        match sp_read_many(old(r).bytes(), old(r).cursor(), n as int, rd_transform()) {
            Ok(vp) => res matches Ok(v) && v@ == vp.0 && final(r).cursor() == vp.1,
            Err(e) => res == Err::<Vec<Transform>, DumpError>(e),
        },
{
    let ghost s = old(r).bytes();
    let ghost p0 = old(r).cursor();
    let mut acc: Vec<Transform> = Vec::new();
    if n <= 0 {
        assert(acc@ =~= Seq::<Transform>::empty());
        return Ok(acc);
    }
    let mut i: i32 = 0;
    while i < n
        invariant
            r.wf(),
            r.bytes() == s,
            s == old(r).bytes(),
            p0 == old(r).cursor(),
            0 <= i <= n,
            sp_read_many(s, p0, i as int, rd_transform()) == Ok::<(Seq<Transform>, int), DumpError>(
                (acc@, r.cursor()),
            ),
        decreases n - i,
    {
        let ghost cur = r.cursor();
        let ghost prefix = acc@;
        match read_transform(r) {
            Ok(x) => {
                acc.push(x);
                proof {
                    lemma_many_step(s, rd_transform(), p0, i as int, prefix, cur, x, r.cursor());
                }
                i += 1;
            },
            Err(e) => {
                proof {
                    lemma_many_step_err(s, rd_transform(), p0, i as int, n as int, prefix, cur, e);
                }
                return Err(e);
            },
        }
    }
    Ok(acc)
}


/// Reading one pose at `p`: the frame time, `nt` transforms, `nf` float
/// channel values.
pub open spec fn sp_read_pose(s: Seq<u8>, p: int, nt: i32, nf: i32) -> Result<
    (PoseV, int),
    DumpError,
> {
    match sp_read_u32(s, p) {
        Err(e) => Err(e),
        Ok(time) => match sp_read_many(s, time.1, nt as int, rd_transform()) {
            Err(e) => Err(e),
            Ok(tfs) => match sp_read_many(s, tfs.1, nf as int, rd_u32()) {
                Err(e) => Err(e),
                Ok(fls) => Ok(
                    (PoseV { time: time.0, transforms: tfs.0, floats: fls.0 }, fls.1),
                ),
            },
        },
    }
}

/// The element reader for poses of an animation with the given counts.
pub open spec fn rd_pose(nt: i32, nf: i32) -> spec_fn(Seq<u8>, int) -> Result<
    (PoseV, int),
    DumpError,
> {
    |s: Seq<u8>, p: int| sp_read_pose(s, p, nt, nf)
}

/// Reads one pose: time, `nt` local transforms, `nf` float channel values.
pub fn read_pose(r: &mut Reader, nt: i32, nf: i32) -> (res: Result<Pose, DumpError>)
    requires
        old(r).wf(),
    ensures
        final(r).wf(),
        final(r).bytes() == old(r).bytes(),
        match sp_read_pose(old(r).bytes(), old(r).cursor(), nt, nf) {
            Ok(vp) => res matches Ok(v) && v@ == vp.0 && final(r).cursor() == vp.1,
            Err(e) => res == Err::<Pose, DumpError>(e),
        },
{
    let time: u32 = match read_float_bits(r) {
        Ok(v) => v,
        Err(e) => return Err(e),
    };
    let transforms: Vec<Transform> = match read_transforms(r, nt) {
        Ok(v) => v,
        Err(e) => return Err(e),
    };
    let floats: Vec<u32> = match read_floats(r, nf) {
        Ok(v) => v,
        Err(e) => return Err(e),
    };
    Ok(Pose { time, transforms, floats })
}

/// Reads `n` poses; a non-positive count reads nothing.
pub fn read_poses(r: &mut Reader, n: i32, nt: i32, nf: i32) -> (res: Result<Vec<Pose>, DumpError>)
    requires
        old(r).wf(),
    ensures
        final(r).wf(),
        final(r).bytes() == old(r).bytes(),
        match sp_read_many(old(r).bytes(), old(r).cursor(), n as int, rd_pose(nt, nf)) {
            Ok(vp) => res matches Ok(v) && v@.map_values(|q: Pose| q@) == vp.0
                && final(r).cursor() == vp.1,
            Err(e) => res == Err::<Vec<Pose>, DumpError>(e),
        },
{
    let ghost s = old(r).bytes();
    let ghost p0 = old(r).cursor();
    let mut acc: Vec<Pose> = Vec::new();
    if n <= 0 {
        assert(acc@.map_values(|q: Pose| q@) =~= Seq::<PoseV>::empty());
        return Ok(acc);
    }
    assert(acc@.map_values(|q: Pose| q@) =~= Seq::<PoseV>::empty());
    let mut i: i32 = 0;
    while i < n
        invariant
            r.wf(),
            r.bytes() == s,
            s == old(r).bytes(),
            p0 == old(r).cursor(),
            0 <= i <= n,
            sp_read_many(s, p0, i as int, rd_pose(nt, nf)) == Ok::<(Seq<PoseV>, int), DumpError>(
                (acc@.map_values(|q: Pose| q@), r.cursor()),
            ),
        decreases n - i,
    {
        let ghost cur = r.cursor();
        let ghost prefix = acc@.map_values(|q: Pose| q@);
        match read_pose(r, nt, nf) {
            Ok(x) => {
                let ghost xv = x@;
                acc.push(x);
                proof {
                    assert(acc@.map_values(|q: Pose| q@) =~= prefix.push(xv));
                    lemma_many_step(s, rd_pose(nt, nf), p0, i as int, prefix, cur, xv, r.cursor());
                }
                i += 1;
            },
            Err(e) => {
                proof {
                    lemma_many_step_err(s, rd_pose(nt, nf), p0, i as int, n as int, prefix, cur, e);
                }
                return Err(e);
            },
        }
    }
    Ok(acc)
}

/// The format version that an animation dump must declare.
pub const ANIMATION_VERSION: u32 = 0x1000200;

/// The skeleton wire grammar: one record after the free-text header — format
/// version (unchecked), skeleton count (zero is fatal), skeleton name, then
/// the parent, bone-name and bind-transform arrays each led by its own count,
/// the float defaults and float-channel names each led by its own count, and
/// a trailing, informational animation-record count. The record keeps the
/// last-read bone and float counts; the re-read counts are consumed but not
/// cross-validated.
pub open spec fn sp_skeleton_at(s: Seq<u8>, p: int) -> Result<(SkeletonV, int), DumpError> {
    match sp_read_string(s, p, 10) {
        Err(e) => Err(e),
        Ok(hdr) => match sp_read_u32(s, hdr.1) {
            Err(e) => Err(e),
            Ok(ver) => match sp_read_i32(s, ver.1) {
                Err(e) => Err(e),
                Ok(nsk) => if nsk.0 == 0 {
                    Err(DumpError::FormatViolation)
                } else {
                    match sp_read_string(s, nsk.1, 0) {
                        Err(e) => Err(e),
                        Ok(name) => match sp_read_i32(s, name.1) {
                            Err(e) => Err(e),
                            Ok(n1) => match sp_read_many(s, n1.1, n1.0 as int, rd_i16()) {
                                Err(e) => Err(e),
                                Ok(parents) => match sp_read_i32(s, parents.1) {
                                    Err(e) => Err(e),
                                    Ok(n2) => match sp_read_many(s, n2.1, n2.0 as int, rd_str()) {
                                        Err(e) => Err(e),
                                        Ok(names) => match sp_read_i32(s, names.1) {
                                            Err(e) => Err(e),
                                            Ok(n3) => match sp_read_many(
                                                s,
                                                n3.1,
                                                n3.0 as int,
                                                rd_transform(),
                                            ) {
                                                Err(e) => Err(e),
                                                Ok(tfs) => match sp_read_i32(s, tfs.1) {
                                                    Err(e) => Err(e),
                                                    Ok(f1) => match sp_read_many(
                                                        s,
                                                        f1.1,
                                                        f1.0 as int,
                                                        rd_u32(),
                                                    ) {
                                                        Err(e) => Err(e),
                                                        Ok(fls) => match sp_read_i32(s, fls.1) {
                                                            Err(e) => Err(e),
                                                            Ok(f2) => match sp_read_many(
                                                                s,
                                                                f2.1,
                                                                f2.0 as int,
                                                                rd_str(),
                                                            ) {
                                                                Err(e) => Err(e),
                                                                Ok(fnames) => match sp_read_i32(
                                                                    s,
                                                                    fnames.1,
                                                                ) {
                                                                    Err(e) => Err(e),
                                                                    Ok(tr) => Ok(
                                                                        (
                                                                            SkeletonV {
                                                                                name: name.0,
                                                                                n_transforms: n3.0,
                                                                                parents: parents.0,
                                                                                transform_names:
                                                                                    names.0,
                                                                                transforms: tfs.0,
                                                                                n_floats: f2.0,
                                                                                float_names:
                                                                                    fnames.0,
                                                                                floats: fls.0,
                                                                            },
                                                                            tr.1,
                                                                        ),
                                                                    ),
                                                                },
                                                            },
                                                        },
                                                    },
                                                },
                                            },
                                        },
                                    },
                                },
                            },
                        },
                    }
                },
            },
        },
    }
}

/// The animation wire grammar: free-text header, format version (which must
/// equal `ANIMATION_VERSION`), embedded-skeleton count (which must be zero),
/// animation-record count (zero is fatal), frame count, duration, transform
/// and float counts, then one pose per frame.
pub open spec fn sp_animation_at(s: Seq<u8>, p: int) -> Result<(AnimationV, int), DumpError> {
    match sp_read_string(s, p, 10) {
        Err(e) => Err(e),
        Ok(hdr) => match sp_read_u32(s, hdr.1) {
            Err(e) => Err(e),
            Ok(ver) => if ver.0 != ANIMATION_VERSION {
                Err(DumpError::FormatViolation)
            } else {
                match sp_read_i32(s, ver.1) {
                    Err(e) => Err(e),
                    Ok(nsk) => if nsk.0 != 0 {
                        Err(DumpError::FormatViolation)
                    } else {
                        match sp_read_i32(s, nsk.1) {
                            Err(e) => Err(e),
                            Ok(nanim) => if nanim.0 == 0 {
                                Err(DumpError::FormatViolation)
                            } else {
                                match sp_read_i32(s, nanim.1) {
                                    Err(e) => Err(e),
                                    Ok(nframes) => match sp_read_u32(s, nframes.1) {
                                        Err(e) => Err(e),
                                        Ok(dur) => match sp_read_i32(s, dur.1) {
                                            Err(e) => Err(e),
                                            Ok(nt) => match sp_read_i32(s, nt.1) {
                                                Err(e) => Err(e),
                                                Ok(nf) => match sp_read_many(
                                                    s,
                                                    nf.1,
                                                    nframes.0 as int,
                                                    rd_pose(nt.0, nf.0),
                                                ) {
                                                    Err(e) => Err(e),
                                                    Ok(poses) => Ok(
                                                        (
                                                            AnimationV {
                                                                n_frames: nframes.0,
                                                                duration: dur.0,
                                                                n_transforms: nt.0,
                                                                n_floats: nf.0,
                                                                poses: poses.0,
                                                            },
                                                            poses.1,
                                                        ),
                                                    ),
                                                },
                                            },
                                        },
                                    },
                                }
                            },
                        }
                    },
                }
            },
        },
    }
}

/// Reads one skeleton record, header line included.
pub fn read_skeleton(r: &mut Reader) -> (res: Result<Skeleton, DumpError>)
    requires
        old(r).wf(),
    ensures
        final(r).wf(),
        final(r).bytes() == old(r).bytes(),
        match sp_skeleton_at(old(r).bytes(), old(r).cursor()) {
            Ok(vp) => res matches Ok(v) && v@ == vp.0 && final(r).cursor() == vp.1,
            Err(e) => res == Err::<Skeleton, DumpError>(e),
        },
{
    let _header: Vec<u8> = match read_header(r) {
        Ok(v) => v,
        Err(e) => return Err(e),
    };
    let _version: u32 = match read_u32(r) {
        Ok(v) => v,
        Err(e) => return Err(e),
    };
    let n_skeletons: i32 = match read_i32(r) {
        Ok(v) => v,
        Err(e) => return Err(e),
    };
    if n_skeletons == 0 {
        return Err(DumpError::FormatViolation);
    }
    let name: Vec<u8> = match read_string(r) {
        Ok(v) => v,
        Err(e) => return Err(e),
    };
    let n1: i32 = match read_i32(r) {
        Ok(v) => v,
        Err(e) => return Err(e),
    };
    let parents: Vec<i16> = match read_i16s(r, n1) {
        Ok(v) => v,
        Err(e) => return Err(e),
    };
    let n2: i32 = match read_i32(r) {
        Ok(v) => v,
        Err(e) => return Err(e),
    };
    let transform_names: Vec<Vec<u8>> = match read_strings(r, n2) {
        Ok(v) => v,
        Err(e) => return Err(e),
    };
    let n3: i32 = match read_i32(r) {
        Ok(v) => v,
        Err(e) => return Err(e),
    };
    let transforms: Vec<Transform> = match read_transforms(r, n3) {
        Ok(v) => v,
        Err(e) => return Err(e),
    };
    let f1: i32 = match read_i32(r) {
        Ok(v) => v,
        Err(e) => return Err(e),
    };
    let floats: Vec<u32> = match read_floats(r, f1) {
        Ok(v) => v,
        Err(e) => return Err(e),
    };
    let f2: i32 = match read_i32(r) {
        Ok(v) => v,
        Err(e) => return Err(e),
    };
    let float_names: Vec<Vec<u8>> = match read_strings(r, f2) {
        Ok(v) => v,
        Err(e) => return Err(e),
    };
    let _n_animations: i32 = match read_i32(r) {
        Ok(v) => v,
        Err(e) => return Err(e),
    };
    Ok(
        Skeleton {
            name,
            n_transforms: n3,
            parents,
            transform_names,
            transforms,
            n_floats: f2,
            float_names,
            floats,
        },
    )
}

/// Reads one animation record, header line included. A decoded animation
/// always satisfies the data-model invariant: its pose and channel arrays
/// are index-aligned with its declared counts.
pub fn read_animation(r: &mut Reader) -> (res: Result<Animation, DumpError>)
    requires
        old(r).wf(),
    ensures
        final(r).wf(),
        final(r).bytes() == old(r).bytes(),
        match sp_animation_at(old(r).bytes(), old(r).cursor()) {
            Ok(vp) => res matches Ok(v) && v@ == vp.0 && final(r).cursor() == vp.1 && v.wf(),
            Err(e) => res == Err::<Animation, DumpError>(e),
        },
{
    let _header: Vec<u8> = match read_header(r) {
        Ok(v) => v,
        Err(e) => return Err(e),
    };
    let version: u32 = match read_u32(r) {
        Ok(v) => v,
        Err(e) => return Err(e),
    };
    if version != ANIMATION_VERSION {
        return Err(DumpError::FormatViolation);
    }
    let n_skeletons: i32 = match read_i32(r) {
        Ok(v) => v,
        Err(e) => return Err(e),
    };
    if n_skeletons != 0 {
        return Err(DumpError::FormatViolation);
    }
    let n_animations: i32 = match read_i32(r) {
        Ok(v) => v,
        Err(e) => return Err(e),
    };
    if n_animations == 0 {
        return Err(DumpError::FormatViolation);
    }
    let n_frames: i32 = match read_i32(r) {
        Ok(v) => v,
        Err(e) => return Err(e),
    };
    let duration: u32 = match read_float_bits(r) {
        Ok(v) => v,
        Err(e) => return Err(e),
    };
    let n_transforms: i32 = match read_i32(r) {
        Ok(v) => v,
        Err(e) => return Err(e),
    };
    let n_floats: i32 = match read_i32(r) {
        Ok(v) => v,
        Err(e) => return Err(e),
    };
    let ghost pp = r.cursor();
    let poses: Vec<Pose> = match read_poses(r, n_frames, n_transforms, n_floats) {
        Ok(v) => v,
        Err(e) => return Err(e),
    };
    let anim = Animation { n_frames, duration, n_transforms, n_floats, poses };
    proof {
        let s = old(r).bytes();
        let f = rd_pose(n_transforms, n_floats);
        lemma_many_ok_len(s, f, pp, n_frames as int);
        lemma_poses_lens(s, pp, n_frames as int, n_transforms, n_floats);
        let pvs = sp_read_many(s, pp, n_frames as int, f)->Ok_0.0;
        assert(anim.poses@.map_values(|q: Pose| q@) == pvs);
        assert(anim.poses@.len() == pvs.len());
        assert forall|i: int| 0 <= i < anim.poses@.len() implies (#[trigger] anim.poses@[i]).transforms@.len()
            == clamp0(anim.n_transforms as int) && anim.poses@[i].floats@.len() == clamp0(
            anim.n_floats as int,
        ) by {
            assert(anim.poses@.map_values(|q: Pose| q@)[i] == anim.poses@[i]@);
            assert(pvs[i].transforms.len() == clamp0(n_transforms as int));
        }
    }
    Ok(anim)
}

/// Decoding a whole skeleton dump from its first byte.
pub open spec fn sp_decode_skeleton(s: Seq<u8>) -> Result<SkeletonV, DumpError> {
    match sp_skeleton_at(s, 0) {
        Ok(vp) => Ok(vp.0),
        Err(e) => Err(e),
    }
}

/// Decoding a whole animation dump from its first byte.
pub open spec fn sp_decode_animation(s: Seq<u8>) -> Result<AnimationV, DumpError> {
    match sp_animation_at(s, 0) {
        Ok(vp) => Ok(vp.0),
        Err(e) => Err(e),
    }
}

/// Decodes a skeleton record from the start of an in-memory dump.
pub fn decode_skeleton(data: Vec<u8>) -> (res: Result<Skeleton, DumpError>)
    ensures
        match sp_decode_skeleton(data@) {
            Ok(v) => res matches Ok(sk) && sk@ == v,
            Err(e) => res == Err::<Skeleton, DumpError>(e),
        },
{
    let mut r = Reader::new(data);
    read_skeleton(&mut r)
}

/// Decodes an animation record from the start of an in-memory dump. A
/// decoded animation always satisfies the data-model invariant.
pub fn decode_animation(data: Vec<u8>) -> (res: Result<Animation, DumpError>)
    ensures
        match sp_decode_animation(data@) {
            Ok(v) => res matches Ok(a) && a@ == v && a.wf(),
            Err(e) => res == Err::<Animation, DumpError>(e),
        },
{
    let mut r = Reader::new(data);
    read_animation(&mut r)
}

/// Decoding is deterministic: the same byte sequence always decodes to
/// field-for-field identical records, for skeletons and for animations.
pub proof fn lemma_decode_deterministic(s1: Seq<u8>, s2: Seq<u8>)
    requires
        s1 == s2,
    ensures
        sp_decode_skeleton(s1) == sp_decode_skeleton(s2),
        sp_decode_animation(s1) == sp_decode_animation(s2),
{
}


} // verus!
