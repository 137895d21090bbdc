//! The values that the registry holds, receives and emits.

use vstd::prelude::*;

verus! {

/// A message header: a time stamp and the frame that a pose is given in.
#[derive(Debug, PartialEq)]
pub struct MarkerHeader {
    pub stamp_sec: i32,
    pub stamp_nanosec: u32,
    pub frame_id: String,
}

impl MarkerHeader {
    pub fn duplicate(&self) -> (r: Self)
        ensures
            r == *self,
    {
        MarkerHeader {
            stamp_sec: self.stamp_sec,
            stamp_nanosec: self.stamp_nanosec,
            frame_id: self.frame_id.clone(),
        }
    }
}

/// A pose: a position and an orientation quaternion, each coordinate held as
/// the bit pattern of its 64-bit float. The registry only stores and copies it.
#[derive(Clone, Copy, Debug, PartialEq, Eq)]
pub struct MarkerPose {
    pub position_x: u64,
    pub position_y: u64,
    pub position_z: u64,
    pub orientation_x: u64,
    pub orientation_y: u64,
    pub orientation_z: u64,
    pub orientation_w: u64,
}

/// The definition of one marker: its name, header and pose, which the registry
/// reads and overwrites, and the rest of its description (geometry, controls,
/// menus) as encoded bytes that the registry passes on untouched.
#[derive(Debug, PartialEq)]
pub struct MarkerDef {
    pub name: String,
    pub header: MarkerHeader,
    pub pose: MarkerPose,
    pub body: Vec<u8>,
}

pub struct MarkerDefView {
    pub name: Seq<char>,
    pub header: MarkerHeader,
    pub pose: MarkerPose,
    pub body: Seq<u8>,
}

impl View for MarkerDef {
    type V = MarkerDefView;

    open spec fn view(&self) -> MarkerDefView {
        MarkerDefView { name: self.name@, header: self.header, pose: self.pose, body: self.body@ }
    }
}

impl MarkerDef {
    pub fn duplicate(&self) -> (r: Self)
        ensures
            r@ == self@,
    {
        let body = self.body.clone();
        assert(body@ =~= self.body@);
        MarkerDef {
            name: self.name.clone(),
            header: self.header.duplicate(),
            pose: self.pose,
            body,
        }
    }
}

/// An event that an observer sends about a marker.
#[derive(Debug, PartialEq)]
pub struct Feedback {
    pub marker_name: String,
    pub client_id: String,
    pub event_type: u8,
    pub header: MarkerHeader,
    pub pose: MarkerPose,
}

/// A pose change of one marker, as a diff carries it.
#[derive(Debug, PartialEq)]
pub struct PoseRecord {
    pub name: String,
    pub header: MarkerHeader,
    pub pose: MarkerPose,
}

pub struct PoseRecordView {
    pub name: Seq<char>,
    pub header: MarkerHeader,
    pub pose: MarkerPose,
}

impl View for PoseRecord {
    type V = PoseRecordView;

    open spec fn view(&self) -> PoseRecordView {
        PoseRecordView { name: self.name@, header: self.header, pose: self.pose }
    }
}

/// One diff: what a flush changed, under its sequence number.
#[derive(Debug, PartialEq)]
pub struct MarkerUpdate {
    pub seq_num: u64,
    pub markers: Vec<MarkerDef>,
    pub poses: Vec<PoseRecord>,
    pub erases: Vec<String>,
}

} // verus!
