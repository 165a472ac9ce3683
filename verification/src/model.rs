use vstd::prelude::*;

verus! {

/// A rigid transform with uniform scale, as it travels through this library.
///
/// Every scalar is the bit pattern of an IEEE 754 single-precision value.
/// The library never interprets these numbers itself: all float arithmetic
/// and formatting happens behind the trusted wrappers in `xform` and `csv`,
/// so a transform is, to the verified code, a tuple of opaque 32-bit words.
#[derive(Clone, Copy, Debug, PartialEq, Eq)]
pub struct Transform {
    /// Bit patterns of the (x, y, z) translation components.
    pub location: (u32, u32, u32),
    /// Bit patterns of the (x, y, z, w) quaternion components, w last.
    pub rotation: (u32, u32, u32, u32),
    /// Bit pattern of the single isotropic scale factor.
    pub scale: u32,
}

/// One animation frame: a time stamp, one local transform per animated bone
/// (index-aligned to the animation's own ordering, not the skeleton's), and
/// one value per auxiliary float channel.
#[derive(Clone, Debug, PartialEq, Eq)]
pub struct Pose {
    /// Bit pattern of the frame time in seconds.
    pub time: u32,
    pub transforms: Vec<Transform>,
    pub floats: Vec<u32>,
}

/// An animation record: declared counts and one `Pose` per frame.
#[derive(Clone, Debug, PartialEq, Eq)]
pub struct Animation {
    pub n_frames: i32,
    /// Bit pattern of the duration in seconds.
    pub duration: u32,
    pub n_transforms: i32,
    pub n_floats: i32,
    pub poses: Vec<Pose>,
}

/// A skeleton record: bind pose, names, parent links and float channels.
///
/// `parents` holds 16-bit indices; `-1` marks a root. All name fields hold
/// the raw bytes of the wire strings, which the decoder has checked to be
/// valid UTF-8; they stay as bytes so the verified code can state exactly
/// what the CSV encoder emits.
#[derive(Clone, Debug, PartialEq, Eq)]
pub struct Skeleton {
    pub name: Vec<u8>,
    pub n_transforms: i32,
    pub parents: Vec<i16>,
    pub transform_names: Vec<Vec<u8>>,
    pub transforms: Vec<Transform>,
    pub n_floats: i32,
    pub float_names: Vec<Vec<u8>>,
    pub floats: Vec<u32>,
}

/// Mathematical image of a `Pose`.
pub struct PoseV {
    pub time: u32,
    pub transforms: Seq<Transform>,
    pub floats: Seq<u32>,
}

/// Mathematical image of an `Animation`.
pub struct AnimationV {
    pub n_frames: i32,
    pub duration: u32,
    pub n_transforms: i32,
    pub n_floats: i32,
    pub poses: Seq<PoseV>,
}

/// Mathematical image of a `Skeleton`.
pub struct SkeletonV {
    pub name: Seq<u8>,
    pub n_transforms: i32,
    pub parents: Seq<i16>,
    pub transform_names: Seq<Seq<u8>>,
    pub transforms: Seq<Transform>,
    pub n_floats: i32,
    pub float_names: Seq<Seq<u8>>,
    pub floats: Seq<u32>,
}

impl View for Pose {
    type V = PoseV;

    open spec fn view(&self) -> PoseV {
        PoseV { time: self.time, transforms: self.transforms@, floats: self.floats@ }
    }
}

impl View for Animation {
    type V = AnimationV;

    open spec fn view(&self) -> AnimationV {
        AnimationV {
            n_frames: self.n_frames,
            duration: self.duration,
            n_transforms: self.n_transforms,
            n_floats: self.n_floats,
            poses: self.poses@.map_values(|p: Pose| p@),
        }
    }
}

impl View for Skeleton {
    type V = SkeletonV;

    open spec fn view(&self) -> SkeletonV {
        SkeletonV {
            name: self.name@,
            n_transforms: self.n_transforms,
            parents: self.parents@,
            transform_names: self.transform_names.deep_view(),
            transforms: self.transforms@,
            n_floats: self.n_floats,
            float_names: self.float_names.deep_view(),
            floats: self.floats@,
        }
    }
}

/// `n` clamped below at zero: the number of elements a signed wire count
/// actually yields, since a decode loop over a negative count reads nothing.
pub open spec fn clamp0(n: int) -> int {
    if n >= 0 {
        n
    } else {
        0
    }
}

impl Skeleton {
    /// The data-model invariant: the parent, name and transform arrays are
    /// index-aligned with the declared bone count, every parent link is `-1`
    /// or a valid bone index, and the float arrays are index-aligned with the
    /// declared float count. The decoder does not cross-validate the
    /// re-read counts of the wire grammar, so this is checked separately by
    /// `well_formed` before a skeleton is composed or encoded.
    pub open spec fn wf(&self) -> bool {
        &&& 0 <= self.n_transforms
        &&& self.parents@.len() == self.n_transforms
        &&& self.transform_names@.len() == self.n_transforms
        &&& self.transforms@.len() == self.n_transforms
        &&& forall|i: int|
            0 <= i < self.parents@.len() ==> -1 <= #[trigger] self.parents@[i] < self.n_transforms
        &&& 0 <= self.n_floats
        &&& self.float_names@.len() == self.n_floats
        &&& self.floats@.len() == self.n_floats
    }

    /// Runtime check for `wf`, for callers that receive a skeleton from an
    /// unvalidated source.
    pub fn well_formed(&self) -> (r: bool)
        ensures
            r == self.wf(),
    {
        if self.n_transforms < 0 || self.n_floats < 0 {
            return false;
        }
        let n: usize = self.n_transforms as usize;
        if self.parents.len() != n || self.transform_names.len() != n || self.transforms.len() != n
        {
            return false;
        }
        let f: usize = self.n_floats as usize;
        if self.float_names.len() != f || self.floats.len() != f {
            return false;
        }
        let mut i: usize = 0;
        while i < n
            invariant
                0 <= self.n_transforms,
                n == self.n_transforms,
                self.parents@.len() == n,
                i <= n,
                forall|j: int| 0 <= j < i ==> -1 <= #[trigger] self.parents@[j] < self.n_transforms,
            decreases n - i,
        {
            let p: i16 = self.parents[i];
            if p < -1 || p as i32 >= self.n_transforms {
                return false;
            }
            i += 1;
        }
        true
    }
}

impl Animation {
    /// The data-model invariant: the pose list is index-aligned with the
    /// declared frame count, and every pose's arrays are index-aligned with
    /// the declared transform and float counts (negative counts yield empty
    /// arrays). Every animation the decoder returns satisfies this.
    pub open spec fn wf(&self) -> bool {
        &&& self.poses@.len() == clamp0(self.n_frames as int)
        &&& forall|i: int|
            0 <= i < self.poses@.len() ==> (#[trigger] self.poses@[i]).transforms@.len()
                == clamp0(self.n_transforms as int)
        &&& forall|i: int|
            0 <= i < self.poses@.len() ==> (#[trigger] self.poses@[i]).floats@.len() == clamp0(
                self.n_floats as int,
            )
    }

    /// Runtime check for `wf`, for callers that receive an animation from an
    /// unvalidated source.
    pub fn well_formed(&self) -> (r: bool)
        ensures
            r == self.wf(),
    {
        let frames: usize = if self.n_frames < 0 {
            0
        } else {
            self.n_frames as usize
        };
        if self.poses.len() != frames {
            return false;
        }
        let nt: usize = if self.n_transforms < 0 {
            0
        } else {
            self.n_transforms as usize
        };
        let nf: usize = if self.n_floats < 0 {
            0
        } else {
            self.n_floats as usize
        };
        let mut i: usize = 0;
        while i < frames
            invariant
                frames == clamp0(self.n_frames as int),
                nt == clamp0(self.n_transforms as int),
                nf == clamp0(self.n_floats as int),
                self.poses@.len() == frames,
                i <= frames,
                forall|j: int|
                    0 <= j < i ==> (#[trigger] self.poses@[j]).transforms@.len() == nt
                        && self.poses@[j].floats@.len() == nf,
            decreases frames - i,
        {
            if self.poses[i].transforms.len() != nt || self.poses[i].floats.len() != nf {
                return false;
            }
            i += 1;
        }
        true
    }
}

} // verus!
