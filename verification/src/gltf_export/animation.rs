//! Keyframe animation of the joints.

use crate::bits::{negate, negated, ZERO};
use crate::blob::{new_blob, put_words, words_le, MAX_BLOB};
use crate::buf::{
    bytes_mut_put_slice,
    bytes_mut_put_u32_le,
    bytes_mut_to_vec,
    bytes_mut_view,
    u32_le_bytes,
};
use crate::error::{Malformed, Missing, RdmError};
use crate::gltf_export::RDGltfBuilder;
use crate::gltf_json::{
    views,
    Accessor,
    AccessorData,
    Animation,
    AnimationData,
    AnimationSampler,
    BufferData,
    BufferView,
    Channel,
    ComponentType,
    Property,
    Type,
};
use crate::model::RDJoint;
use crate::rdm_anim::{Frame, FrameCollection};
use crate::text::buffer_file_name;
use vstd::prelude::*;

verus! {

/// The number of keyframes of all tracks together.
pub open spec fn frame_count(tracks: Seq<FrameCollection>) -> nat
    decreases tracks.len(),
{
    if tracks.len() == 0 {
        0
    } else {
        frame_count(tracks.drop_last()) + tracks.last().frames@.len()
    }
}

/// The number of keyframes of the tracks before track `t`.
pub open spec fn track_start(tracks: Seq<FrameCollection>, t: int) -> nat {
    frame_count(tracks.take(t))
}

proof fn lemma_track_start(tracks: Seq<FrameCollection>, t: int)
    requires
        0 <= t < tracks.len(),
    ensures
        track_start(tracks, t) + tracks[t].frames@.len() == track_start(tracks, t + 1),
        track_start(tracks, t + 1) <= frame_count(tracks),
    decreases tracks.len() - t,
{
    assert(tracks.take(t + 1).drop_last() =~= tracks.take(t));
    if t + 1 < tracks.len() {
        lemma_track_start(tracks, t + 1);
    } else {
        assert(tracks.take(t + 1) =~= tracks);
    }
}

/// The rotations of the keyframes as the blob has them: x, y, z as the
/// keyframe has them, and w with its sign flipped.
pub open spec fn rotations_le(frames: Seq<Frame>) -> Seq<u8>
    decreases frames.len(),
{
    if frames.len() == 0 {
        Seq::empty()
    } else {
        rotations_le(frames.drop_last()) + u32_le_bytes(frames.last().rotation[0]) + u32_le_bytes(
            frames.last().rotation[1],
        ) + u32_le_bytes(frames.last().rotation[2]) + u32_le_bytes(
            negated(frames.last().rotation[3]),
        )
    }
}

/// The translations of the keyframes as the blob has them.
pub open spec fn translations_le(frames: Seq<Frame>) -> Seq<u8>
    decreases frames.len(),
{
    if frames.len() == 0 {
        Seq::empty()
    } else {
        translations_le(frames.drop_last()) + words_le(frames.last().translation@)
    }
}

/// The times of the keyframes as the blob has them.
pub open spec fn times_le(frames: Seq<Frame>) -> Seq<u8>
    decreases frames.len(),
{
    if frames.len() == 0 {
        Seq::empty()
    } else {
        times_le(frames.drop_last()) + u32_le_bytes(frames.last().time)
    }
}

/// The rotations of all tracks, track after track.
pub open spec fn all_rotations_le(tracks: Seq<FrameCollection>) -> Seq<u8>
    decreases tracks.len(),
{
    if tracks.len() == 0 {
        Seq::empty()
    } else {
        all_rotations_le(tracks.drop_last()) + rotations_le(tracks.last().frames@)
    }
}

/// The translations of all tracks, track after track.
pub open spec fn all_translations_le(tracks: Seq<FrameCollection>) -> Seq<u8>
    decreases tracks.len(),
{
    if tracks.len() == 0 {
        Seq::empty()
    } else {
        all_translations_le(tracks.drop_last()) + translations_le(tracks.last().frames@)
    }
}

/// The times of all tracks, track after track.
pub open spec fn all_times_le(tracks: Seq<FrameCollection>) -> Seq<u8>
    decreases tracks.len(),
{
    if tracks.len() == 0 {
        Seq::empty()
    } else {
        all_times_le(tracks.drop_last()) + times_le(tracks.last().frames@)
    }
}

/// The blob of an animation: all rotations, then all translations, then
/// all times.
pub open spec fn animation_blob(tracks: Seq<FrameCollection>) -> Seq<u8> {
    all_rotations_le(tracks) + all_translations_le(tracks) + all_times_le(tracks)
}

proof fn lemma_frames_le_len(frames: Seq<Frame>)
    ensures
        rotations_le(frames).len() == 16 * frames.len(),
        translations_le(frames).len() == 12 * frames.len(),
        times_le(frames).len() == 4 * frames.len(),
    decreases frames.len(),
{
    if frames.len() > 0 {
        lemma_frames_le_len(frames.drop_last());
        crate::blob::lemma_words_le_len(frames.last().translation@);
    }
}

proof fn lemma_tracks_le_len(tracks: Seq<FrameCollection>)
    ensures
        all_rotations_le(tracks).len() == 16 * frame_count(tracks),
        all_translations_le(tracks).len() == 12 * frame_count(tracks),
        all_times_le(tracks).len() == 4 * frame_count(tracks),
    decreases tracks.len(),
{
    if tracks.len() > 0 {
        lemma_tracks_le_len(tracks.drop_last());
        lemma_frames_le_len(tracks.last().frames@);
    }
}

/// The joint that a track drives: the last joint of that name.
pub open spec fn find_joint(joints: Seq<RDJoint>, name: Seq<char>) -> Option<int>
    decreases joints.len(),
{
    if joints.len() == 0 {
        None
    } else if joints.last().name@ == name {
        Some(joints.len() - 1)
    } else {
        find_joint(joints.drop_last(), name)
    }
}

proof fn lemma_find_joint(joints: Seq<RDJoint>, name: Seq<char>)
    ensures
        match find_joint(joints, name) {
            Some(i) => 0 <= i < joints.len() && joints[i].name@ == name,
            None => forall|i: int| 0 <= i < joints.len() ==> (#[trigger] joints[i]).name@ != name,
        },
    decreases joints.len(),
{
    if joints.len() > 0 && joints.last().name@ != name {
        let front = joints.drop_last();
        lemma_find_joint(front, name);
        if find_joint(front, name) is None {
            assert forall|i: int| 0 <= i < joints.len() implies (#[trigger] joints[i]).name@
                != name by {
                if i < front.len() {
                    assert(front[i] == joints[i]);
                }
            }
        }
    }
}

/// Every track names a joint of the skeleton.
pub open spec fn targets_found(tracks: Seq<FrameCollection>, joints: Seq<RDJoint>) -> bool {
    forall|t: int| 0 <= t < tracks.len() ==> find_joint(joints, (#[trigger] tracks[t]).name@) is Some
}

/// View number `k` of an animation whose blob is buffer `buffer`: the
/// rotations, translations and times of track `k / 3`.
pub open spec fn animation_view(buffer: nat, tracks: Seq<FrameCollection>, k: int) -> BufferView {
    let t = k / 3;
    let count = tracks[t].frames@.len();
    let start = track_start(tracks, t);
    let total = frame_count(tracks);
    if k % 3 == 0 {
        BufferView {
            buffer: buffer as u32,
            byte_length: (16 * count) as u32,
            byte_offset: Some((16 * start) as u32),
            target: None,
        }
    } else if k % 3 == 1 {
        BufferView {
            buffer: buffer as u32,
            byte_length: (12 * count) as u32,
            byte_offset: Some((16 * total + 12 * start) as u32),
            target: None,
        }
    } else {
        BufferView {
            buffer: buffer as u32,
            byte_length: (4 * count) as u32,
            byte_offset: Some((28 * total + 4 * start) as u32),
            target: None,
        }
    }
}

/// Accessor number `k` of an animation whose views start at `view`. The
/// accessor of the times is bounded by 0 and `time_max`.
pub open spec fn animation_accessor(
    view: nat,
    tracks: Seq<FrameCollection>,
    time_max: u32,
    k: int,
) -> AccessorData {
    AccessorData {
        buffer_view: (view + k) as u32,
        byte_offset: 0,
        count: tracks[k / 3].frames@.len() as u32,
        component_type: ComponentType::F32,
        type_: if k % 3 == 0 {
            Type::Vec4
        } else if k % 3 == 1 {
            Type::Vec3
        } else {
            Type::Scalar
        },
        min: if k % 3 == 2 {
            Some(seq![ZERO])
        } else {
            None
        },
        max: if k % 3 == 2 {
            Some(seq![time_max])
        } else {
            None
        },
    }
}

/// Sampler number `s` of an animation whose accessors start at
/// `accessor`: rotation (even `s`) or translation (odd `s`) of track
/// `s / 2` over the times of that track.
pub open spec fn animation_sampler(accessor: nat, s: int) -> AnimationSampler {
    AnimationSampler {
        input: (accessor + 3 * (s / 2) + 2) as u32,
        output: (accessor + 3 * (s / 2) + s % 2) as u32,
    }
}

/// Channel number `s` of an animation: sampler `s` drives the rotation
/// (even `s`) or the translation (odd `s`) of the node of the joint that
/// track `s / 2` names.
pub open spec fn animation_channel(
    tracks: Seq<FrameCollection>,
    joints: Seq<RDJoint>,
    s: int,
) -> Channel {
    Channel {
        sampler: s as u32,
        node: find_joint(joints, tracks[s / 2].name@)->Some_0 as u32,
        path: if s % 2 == 0 {
            Property::Rotation
        } else {
            Property::Translation
        },
    }
}

/// Whether the animation can be laid out, and why not.
pub open spec fn put_rdm_anim_outcome(b: RDGltfBuilder) -> Result<(), RdmError> {
    if b.rdm.anim is None {
        Err(RdmError::MissingData(Missing::Animation))
    } else if b.rdm.joints is None {
        Err(RdmError::MissingData(Missing::Joints))
    } else if b.nodes@.len() < b.rdm.joints->Some_0@.len() {
        Err(RdmError::MissingData(Missing::JointNodes))
    } else if !targets_found(b.rdm.anim->Some_0.anim_vec@, b.rdm.joints->Some_0@) {
        Err(RdmError::MissingData(Missing::AnimationTarget))
    } else if !(32 * frame_count(b.rdm.anim->Some_0.anim_vec@) <= MAX_BLOB
        && b.rdm.joints->Some_0@.len() <= u32::MAX && 3 * b.rdm.anim->Some_0.anim_vec@.len()
        <= u32::MAX && b.has_room(
        1,
        3 * b.rdm.anim->Some_0.anim_vec@.len(),
        3 * b.rdm.anim->Some_0.anim_vec@.len(),
    )) {
        Err(RdmError::MalformedFormat(Malformed::TooLarge))
    } else {
        Ok(())
    }
}

/// What laying out the animation does to the builder: the keyframes of
/// all tracks become one buffer; every track gets three views and three
/// accessors, for its rotations, its translations and its times; and the
/// animation has, for every track, a sampler and a channel for the
/// rotation and a sampler and a channel for the translation of the joint
/// that the track names.
pub open spec fn animation_added(old: RDGltfBuilder, new: RDGltfBuilder, time_max: u32) -> bool {
    let anim = old.rdm.anim->Some_0;
    let tracks = anim.anim_vec@;
    let joints = old.rdm.joints->Some_0@;
    let buffer = old.buffers@.len();
    let view = old.buffer_views@.len();
    let accessor = old.accessors@.len();
    &&& new.obj.root == old.obj.root
    &&& new.obj.blobs() == old.obj.blobs().push(animation_blob(tracks))
    &&& views(new.buffers@) == views(old.buffers@).push(
        BufferData {
            byte_length: (32 * frame_count(tracks)) as u32,
            uri: buffer_file_name(buffer),
        },
    )
    &&& new.buffer_views@ == old.buffer_views@ + Seq::new(
        3 * tracks.len(),
        |k: int| animation_view(buffer, tracks, k),
    )
    &&& views(new.accessors@) == views(old.accessors@) + Seq::new(
        3 * tracks.len(),
        |k: int| animation_accessor(view, tracks, time_max, k),
    )
    &&& new.anim_node is Some
    &&& new.anim_node->Some_0@ == (AnimationData {
        name: anim.name@,
        samplers: Seq::new(2 * tracks.len(), |s: int| animation_sampler(accessor, s)),
        channels: Seq::new(2 * tracks.len(), |s: int| animation_channel(tracks, joints, s)),
    })
    &&& new == (RDGltfBuilder {
        buffers: new.buffers,
        buffer_views: new.buffer_views,
        accessors: new.accessors,
        anim_node: new.anim_node,
        obj: new.obj,
        ..old
    })
}

/// Looks for the last joint of the given name.
fn lookup_joint(joints: &Vec<RDJoint>, name: &String) -> (r: Option<usize>)
    ensures
        match find_joint(joints@, name@) {
            Some(i) => r == Some(i as usize),
            None => r is None,
        },
{
    let mut i: usize = joints.len();
    assert(joints@.take(i as int) =~= joints@);
    while i > 0
        invariant
            i <= joints.len(),
            find_joint(joints@, name@) == find_joint(joints@.take(i as int), name@),
        decreases i,
    {
        assert(joints@.take(i as int).drop_last() =~= joints@.take(i as int - 1));
        if joints[i - 1].name == *name {
            return Some(i - 1);
        }
        i = i - 1;
    }
    None
}

/// Looks up the joint of every track; `None` where a track names no
/// joint.
fn lookup_targets(tracks: &Vec<FrameCollection>, joints: &Vec<RDJoint>) -> (r: Option<Vec<usize>>)
    ensures
        targets_found(tracks@, joints@) ==> r is Some && r->Some_0@.len() == tracks@.len()
            && forall|t: int|
            0 <= t < tracks@.len() ==> Some(#[trigger] r->Some_0@[t] as int) == find_joint(
                joints@,
                tracks@[t].name@,
            ),
        !targets_found(tracks@, joints@) ==> r is None,
{
    let mut targets: Vec<usize> = Vec::new();
    let mut t: usize = 0;
    while t < tracks.len()
        invariant
            t <= tracks.len(),
            targets@.len() == t,
            forall|s: int|
                0 <= s < t ==> Some(#[trigger] targets@[s] as int) == find_joint(
                    joints@,
                    tracks@[s].name@,
                ),
        decreases tracks.len() - t,
    {
        proof {
            lemma_find_joint(joints@, tracks@[t as int].name@);
        }
        match lookup_joint(joints, &tracks[t].name) {
            Some(idx) => {
                let ghost before = targets@;
                targets.push(idx);
                assert(joints@.len() == joints.len());
                assert(Some(idx as int) == find_joint(joints@, tracks@[t as int].name@));
                assert forall|s: int| 0 <= s < t + 1 implies Some(#[trigger] targets@[s] as int)
                    == find_joint(joints@, tracks@[s].name@) by {
                    if s < t {
                        assert(targets@[s] == before[s]);
                    } else {
                        assert(targets@[s] == idx);
                    }
                }
            },
            None => {
                assert(find_joint(joints@, tracks@[t as int].name@) is None);
                return None;
            },
        }
        t = t + 1;
    }
    assert forall|s: int| 0 <= s < tracks@.len() implies find_joint(
        joints@,
        (#[trigger] tracks@[s]).name@,
    ) is Some by {
        assert(Some(targets@[s] as int) == find_joint(joints@, tracks@[s].name@));
    }
    Some(targets)
}

/// Counts the keyframes of all tracks; `None` where they are too many
/// for one blob.
fn count_frames(tracks: &Vec<FrameCollection>) -> (r: Option<usize>)
    ensures
        32 * frame_count(tracks@) <= MAX_BLOB ==> r == Some(frame_count(tracks@) as usize),
        32 * frame_count(tracks@) > MAX_BLOB ==> r is None,
{
    let limit: usize = MAX_BLOB / 32;
    let mut size: usize = 0;
    let mut t: usize = 0;
    while t < tracks.len()
        invariant
            t <= tracks.len(),
            limit == MAX_BLOB / 32,
            size == track_start(tracks@, t as int),
            size <= limit,
        decreases tracks.len() - t,
    {
        proof {
            lemma_track_start(tracks@, t as int);
        }
        let count = tracks[t].frames.len();
        if count > limit - size {
            return None;
        }
        size = size + count;
        t = t + 1;
    }
    assert(tracks@.take(tracks.len() as int) =~= tracks@);
    Some(size)
}

/// Serializes an animation.
#[verifier::rlimit(50)]
fn pack_animation(tracks: &Vec<FrameCollection>) -> (r: Vec<u8>)
    requires
        32 * frame_count(tracks@) <= MAX_BLOB,
    ensures
        r@ == animation_blob(tracks@),
        r@.len() == 32 * frame_count(tracks@),
{
    let mut rot_anim_buf = new_blob(0);
    let mut trans_anim_buf = new_blob(0);
    let mut t_anim_buf = new_blob(0);
    let mut t: usize = 0;
    while t < tracks.len()
        invariant
            t <= tracks.len(),
            32 * frame_count(tracks@) <= MAX_BLOB,
            bytes_mut_view(rot_anim_buf) == all_rotations_le(tracks@.take(t as int)),
            bytes_mut_view(trans_anim_buf) == all_translations_le(tracks@.take(t as int)),
            bytes_mut_view(t_anim_buf) == all_times_le(tracks@.take(t as int)),
        decreases tracks.len() - t,
    {
        proof {
            lemma_track_start(tracks@, t as int);
            lemma_tracks_le_len(tracks@.take(t as int));
            assert(tracks@.take(t as int + 1).drop_last() =~= tracks@.take(t as int));
        }
        let frames = &tracks[t].frames;
        let ghost rot_start = bytes_mut_view(rot_anim_buf);
        let ghost trans_start = bytes_mut_view(trans_anim_buf);
        let ghost t_start = bytes_mut_view(t_anim_buf);
        let mut i: usize = 0;
        proof {
            assert(rot_start + rotations_le(frames@.take(0)) =~= rot_start);
            assert(trans_start + translations_le(frames@.take(0)) =~= trans_start);
            assert(t_start + times_le(frames@.take(0)) =~= t_start);
        }
        while i < frames.len()
            invariant
                i <= frames.len(),
                rot_start.len() + 16 * frames@.len() <= MAX_BLOB,
                trans_start.len() + 12 * frames@.len() <= MAX_BLOB,
                t_start.len() + 4 * frames@.len() <= MAX_BLOB,
                bytes_mut_view(rot_anim_buf) == rot_start + rotations_le(frames@.take(i as int)),
                bytes_mut_view(trans_anim_buf) == trans_start + translations_le(
                    frames@.take(i as int),
                ),
                bytes_mut_view(t_anim_buf) == t_start + times_le(frames@.take(i as int)),
            decreases frames.len() - i,
        {
            proof {
                lemma_frames_le_len(frames@.take(i as int));
                assert(frames@.take(i as int + 1).drop_last() =~= frames@.take(i as int));
            }
            let f = frames[i];
            bytes_mut_put_u32_le(&mut rot_anim_buf, f.rotation[0]);
            bytes_mut_put_u32_le(&mut rot_anim_buf, f.rotation[1]);
            bytes_mut_put_u32_le(&mut rot_anim_buf, f.rotation[2]);
            bytes_mut_put_u32_le(&mut rot_anim_buf, negate(f.rotation[3]));
            put_words(&mut trans_anim_buf, &f.translation);
            bytes_mut_put_u32_le(&mut t_anim_buf, f.time);
            proof {
                assert(bytes_mut_view(rot_anim_buf) =~= rot_start + rotations_le(
                    frames@.take(i as int + 1),
                ));
                assert(bytes_mut_view(trans_anim_buf) =~= trans_start + translations_le(
                    frames@.take(i as int + 1),
                ));
                assert(bytes_mut_view(t_anim_buf) =~= t_start + times_le(
                    frames@.take(i as int + 1),
                ));
            }
            i = i + 1;
        }
        assert(frames@.take(frames.len() as int) =~= frames@);
        t = t + 1;
    }
    proof {
        assert(tracks@.take(tracks.len() as int) =~= tracks@);
        lemma_tracks_le_len(tracks@);
    }
    let b2 = bytes_mut_to_vec(&trans_anim_buf);
    let b3 = bytes_mut_to_vec(&t_anim_buf);
    bytes_mut_put_slice(&mut rot_anim_buf, b2.as_slice());
    bytes_mut_put_slice(&mut rot_anim_buf, b3.as_slice());
    bytes_mut_to_vec(&rot_anim_buf)
}

/// A list of one number.
fn single(x: u32) -> (v: Vec<u32>)
    ensures
        v@ == seq![x],
{
    let mut v: Vec<u32> = Vec::new();
    v.push(x);
    v
}

impl RDGltfBuilder {
    /// Lays out the animation of the model: one buffer for the keyframes
    /// of all tracks, three views and three accessors for each track, and
    /// the animation with its samplers and channels. `time_max` is the
    /// end of the animation in seconds. A track drives the node of the
    /// joint that has its name, so the joints have to be the first nodes
    /// of the document.
    #[verifier::rlimit(50)]
    pub fn put_rdm_anim(&mut self, time_max: u32) -> (r: Result<(), RdmError>)
        requires
            old(self).wf(),
        ensures
            final(self).wf(),
            match put_rdm_anim_outcome(*old(self)) {
                Ok(()) => r is Ok && animation_added(*old(self), *final(self), time_max),
                Err(e) => r == Err::<(), RdmError>(e) && *final(self) == *old(self),
            },
    {
        let (targets, size, tracks_len) = match (&self.rdm.anim, &self.rdm.joints) {
            (None, _) => {
                return Err(RdmError::MissingData(Missing::Animation));
            },
            (Some(_), None) => {
                return Err(RdmError::MissingData(Missing::Joints));
            },
            (Some(anim), Some(joints)) => {
                if self.nodes.len() < joints.len() {
                    return Err(RdmError::MissingData(Missing::JointNodes));
                }
                let targets = match lookup_targets(&anim.anim_vec, joints) {
                    Some(t) => t,
                    None => {
                        return Err(RdmError::MissingData(Missing::AnimationTarget));
                    },
                };
                let tracks_len = anim.anim_vec.len();
                let size = match count_frames(&anim.anim_vec) {
                    Some(size) => size,
                    None => {
                        return Err(RdmError::MalformedFormat(Malformed::TooLarge));
                    },
                };
                if !(joints.len() <= u32::MAX as usize && tracks_len <= (u32::MAX / 3) as usize
                    && self.check_room(1, 3 * (tracks_len as u32), 3 * (tracks_len as u32))) {
                    return Err(RdmError::MalformedFormat(Malformed::TooLarge));
                }
                (targets, size, tracks_len)
            },
        };
        let ghost tracks = self.rdm.anim->Some_0.anim_vec@;
        let ghost joints = self.rdm.joints->Some_0@;
        let blob = match &self.rdm.anim {
            Some(anim) => pack_animation(&anim.anim_vec),
            None => Vec::new(),
        };
        let acc_first = self.accessors.len() as u32;
        let buffer_result = self.add_buffer(blob, (32 * size) as u32);
        let buffv_idx = buffer_result.idx;
        let rot_size: u32 = (16 * size) as u32;
        let trans_size: u32 = (12 * size) as u32;
        let ghost mid = *self;
        let mut sampler_vec: Vec<AnimationSampler> = Vec::new();
        let mut chanel_vec: Vec<Channel> = Vec::new();
        let mut start: usize = 0;
        let mut t: usize = 0;
        proof {
            assert(crate::blob::padded(animation_blob(tracks)) =~= animation_blob(tracks));
            assert(self.buffer_views@ =~= mid.buffer_views@ + Seq::new(
                0,
                |k: int| animation_view(buffv_idx as nat, tracks, k),
            ));
            assert(views(self.accessors@) =~= views(mid.accessors@) + Seq::new(
                0,
                |k: int| animation_accessor(mid.buffer_views@.len(), tracks, time_max, k),
            ));
        }
        while t < tracks_len
            invariant
                t <= tracks_len,
                self.wf(),
                mid.rdm.anim is Some,
                mid.rdm.joints is Some,
                tracks == mid.rdm.anim->Some_0.anim_vec@,
                joints == mid.rdm.joints->Some_0@,
                tracks_len == tracks.len(),
                targets@.len() == tracks_len,
                forall|s: int|
                    0 <= s < tracks_len ==> Some(#[trigger] targets@[s] as int) == find_joint(
                        joints,
                        tracks[s].name@,
                    ),
                joints.len() <= u32::MAX,
                joints.len() <= mid.nodes@.len(),
                size == frame_count(tracks),
                32 * size <= MAX_BLOB,
                rot_size == 16 * size,
                trans_size == 12 * size,
                start == track_start(tracks, t as int),
                3 * tracks_len <= u32::MAX,
                mid.buffer_views@.len() + 3 * tracks_len <= u32::MAX,
                mid.accessors@.len() + 3 * tracks_len <= u32::MAX,
                acc_first == mid.accessors@.len(),
                buffv_idx < mid.buffers@.len(),
                mid.buffers@[buffv_idx as int].byte_length == 32 * size,
                self.buffer_views@.len() == mid.buffer_views@.len() + 3 * t,
                self.accessors@.len() == mid.accessors@.len() + 3 * t,
                self.buffer_views@ == mid.buffer_views@ + Seq::new(
                    (3 * t) as nat,
                    |k: int| animation_view(buffv_idx as nat, tracks, k),
                ),
                views(self.accessors@) == views(mid.accessors@) + Seq::new(
                    (3 * t) as nat,
                    |k: int| animation_accessor(mid.buffer_views@.len(), tracks, time_max, k),
                ),
                sampler_vec@ == Seq::new(
                    (2 * t) as nat,
                    |s: int| animation_sampler(acc_first as nat, s),
                ),
                chanel_vec@ == Seq::new(
                    (2 * t) as nat,
                    |s: int| animation_channel(tracks, joints, s),
                ),
                *self == (RDGltfBuilder {
                    buffer_views: self.buffer_views,
                    accessors: self.accessors,
                    ..mid
                }),
            decreases tracks_len - t,
        {
            proof {
                lemma_track_start(tracks, t as int);
                lemma_find_joint(joints, tracks[t as int].name@);
            }
            let count: usize = match &self.rdm.anim {
                Some(anim) => anim.anim_vec[t].frames.len(),
                None => 0,
            };
            let target_node_idx = targets[t] as u32;
            let rot_view = self.add_view(
                BufferView {
                    buffer: buffv_idx,
                    byte_length: (16 * count) as u32,
                    byte_offset: Some((16 * start) as u32),
                    target: None,
                },
            );
            let rot_sampler_idx = self.add_accessor(
                Accessor {
                    buffer_view: rot_view,
                    byte_offset: 0,
                    count: count as u32,
                    component_type: ComponentType::F32,
                    type_: Type::Vec4,
                    min: None,
                    max: None,
                },
            );
            let trans_view = self.add_view(
                BufferView {
                    buffer: buffv_idx,
                    byte_length: (12 * count) as u32,
                    byte_offset: Some(rot_size + (12 * start) as u32),
                    target: None,
                },
            );
            let trans_sampler_idx = self.add_accessor(
                Accessor {
                    buffer_view: trans_view,
                    byte_offset: 0,
                    count: count as u32,
                    component_type: ComponentType::F32,
                    type_: Type::Vec3,
                    min: None,
                    max: None,
                },
            );
            let time_view = self.add_view(
                BufferView {
                    buffer: buffv_idx,
                    byte_length: (4 * count) as u32,
                    byte_offset: Some(rot_size + trans_size + (4 * start) as u32),
                    target: None,
                },
            );
            let time_sampler_idx = self.add_accessor(
                Accessor {
                    buffer_view: time_view,
                    byte_offset: 0,
                    count: count as u32,
                    component_type: ComponentType::F32,
                    type_: Type::Scalar,
                    min: Some(single(ZERO)),
                    max: Some(single(time_max)),
                },
            );
            sampler_vec.push(AnimationSampler { input: time_sampler_idx, output: rot_sampler_idx });
            sampler_vec.push(
                AnimationSampler { input: time_sampler_idx, output: trans_sampler_idx },
            );
            chanel_vec.push(
                Channel {
                    sampler: (2 * t) as u32,
                    node: target_node_idx,
                    path: Property::Rotation,
                },
            );
            chanel_vec.push(
                Channel {
                    sampler: (2 * t + 1) as u32,
                    node: target_node_idx,
                    path: Property::Translation,
                },
            );
            proof {
                assert(self.buffer_views@ =~= mid.buffer_views@ + Seq::new(
                    (3 * (t + 1)) as nat,
                    |k: int| animation_view(buffv_idx as nat, tracks, k),
                ));
                assert(views(self.accessors@) =~= views(mid.accessors@) + Seq::new(
                    (3 * (t + 1)) as nat,
                    |k: int| animation_accessor(mid.buffer_views@.len(), tracks, time_max, k),
                ));
                assert(sampler_vec@ =~= Seq::new(
                    (2 * (t + 1)) as nat,
                    |s: int| animation_sampler(acc_first as nat, s),
                ));
                assert(chanel_vec@ =~= Seq::new(
                    (2 * (t + 1)) as nat,
                    |s: int| animation_channel(tracks, joints, s),
                ));
            }
            start = start + count;
            t = t + 1;
        }
        let name = match &self.rdm.anim {
            Some(anim) => anim.name.clone(),
            None => String::new(),
        };
        let animation = Animation { name, samplers: sampler_vec, channels: chanel_vec };
        proof {
            assert forall|i: int| 0 <= i < animation.channels@.len() implies (
            #[trigger] animation.channels@[i]).sampler < animation.samplers@.len()
                && animation.channels@[i].node < self.nodes@.len() by {
                lemma_find_joint(joints, tracks[i / 2].name@);
            }
        }
        self.anim_node = Some(animation);
        Ok(())
    }
}

} // verus!
