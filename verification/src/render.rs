//! Debug-render data carried by outgoing render-command messages, and the
//! [`Renderer`] builder that accumulates render messages into one group.
use vstd::prelude::*;

verus! {

/// An RGBA colour.
#[derive(Clone, Copy, PartialEq, Eq, Structural, Debug)]
pub struct Color {
    pub r: u8,
    pub g: u8,
    pub b: u8,
    pub a: u8,
}

/// A point or offset in world space. Each coordinate is carried as the 32-bit
/// IEEE-754 bit pattern of the simulation's single-precision value: the library
/// moves coordinates between messages and never computes with them; the shell
/// around the library converts to and from its floating-point vectors.
#[derive(Clone, Copy, PartialEq, Eq, Structural, Debug)]
pub struct Vector3 {
    pub x: u32,
    pub y: u32,
    pub z: u32,
}

/// Anchors a render message to a car, at an offset in the car's local space.
#[derive(Clone, Copy, PartialEq, Eq, Structural, Debug)]
pub struct CarAnchor {
    pub index: u32,
    pub local: Vector3,
}

/// Anchors a render message to a ball, at an offset in the ball's local space.
#[derive(Clone, Copy, PartialEq, Eq, Structural, Debug)]
pub struct BallAnchor {
    pub index: u32,
    pub local: Vector3,
}

/// An anchor that follows a moving object.
#[derive(Clone, Copy, PartialEq, Eq, Debug)]
pub enum RelativeAnchor {
    CarAnchor(CarAnchor),
    BallAnchor(BallAnchor),
}

/// Where a render message is drawn: a world position, optionally offset from a
/// moving object instead.
#[derive(Clone, Copy, PartialEq, Eq, Debug)]
pub struct RenderAnchor {
    pub world: Vector3,
    pub relative: Option<RelativeAnchor>,
}

impl From<CarAnchor> for RelativeAnchor {
    fn from(value: CarAnchor) -> (r: Self) {
        RelativeAnchor::CarAnchor(value)
    }
}

impl vstd::std_specs::convert::FromSpecImpl<CarAnchor> for RelativeAnchor {
    open spec fn obeys_from_spec() -> bool {
        true
    }

    open spec fn from_spec(value: CarAnchor) -> Self {
        RelativeAnchor::CarAnchor(value)
    }
}

impl From<BallAnchor> for RelativeAnchor {
    fn from(value: BallAnchor) -> (r: Self) {
        RelativeAnchor::BallAnchor(value)
    }
}

impl vstd::std_specs::convert::FromSpecImpl<BallAnchor> for RelativeAnchor {
    open spec fn obeys_from_spec() -> bool {
        true
    }

    open spec fn from_spec(value: BallAnchor) -> Self {
        RelativeAnchor::BallAnchor(value)
    }
}

impl From<Vector3> for RenderAnchor {
    /// Anchors at a fixed world position.
    fn from(value: Vector3) -> (r: Self) {
        RenderAnchor { world: value, relative: None }
    }
}

impl vstd::std_specs::convert::FromSpecImpl<Vector3> for RenderAnchor {
    open spec fn obeys_from_spec() -> bool {
        true
    }

    open spec fn from_spec(value: Vector3) -> Self {
        RenderAnchor { world: value, relative: None }
    }
}

impl From<RelativeAnchor> for RenderAnchor {
    /// Anchors to a moving object, with no world offset.
    fn from(value: RelativeAnchor) -> (r: Self) {
        RenderAnchor { world: Vector3 { x: 0, y: 0, z: 0 }, relative: Some(value) }
    }
}

impl vstd::std_specs::convert::FromSpecImpl<RelativeAnchor> for RenderAnchor {
    open spec fn obeys_from_spec() -> bool {
        true
    }

    open spec fn from_spec(value: RelativeAnchor) -> Self {
        RenderAnchor { world: Vector3 { x: 0, y: 0, z: 0 }, relative: Some(value) }
    }
}

/// A line drawn between two anchors in 3d space.
#[derive(Clone, Copy, PartialEq, Eq, Debug)]
pub struct Line3D {
    pub start: RenderAnchor,
    pub end: RenderAnchor,
    pub color: Color,
}

/// A line drawn through each of the given points.
#[derive(PartialEq, Eq, Debug)]
pub struct PolyLine3D {
    pub points: Vec<Vector3>,
    pub color: Color,
}

/// Mathematical value of a [`PolyLine3D`].
pub struct PolyLine3DV {
    pub points: Seq<Vector3>,
    pub color: Color,
}

impl View for PolyLine3D {
    type V = PolyLine3DV;

    open spec fn view(&self) -> PolyLine3DV {
        PolyLine3DV { points: self.points@, color: self.color }
    }
}

impl Clone for PolyLine3D {
    fn clone(&self) -> (r: Self)
        ensures
            r@ == self@,
    {
        let r = PolyLine3D { points: self.points.clone(), color: self.color };
        proof {
            assert(r.points@ =~= self.points@);
        }
        r
    }
}

/// One drawable item of a render group.
#[derive(PartialEq, Eq, Debug)]
pub enum RenderMessage {
    Line3D(Line3D),
    PolyLine3D(PolyLine3D),
}

/// Mathematical value of a [`RenderMessage`].
pub enum RenderMessageV {
    Line3D(Line3D),
    PolyLine3D(PolyLine3DV),
}

impl View for RenderMessage {
    type V = RenderMessageV;

    open spec fn view(&self) -> RenderMessageV {
        match self {
            RenderMessage::Line3D(l) => RenderMessageV::Line3D(*l),
            RenderMessage::PolyLine3D(p) => RenderMessageV::PolyLine3D(p@),
        }
    }
}

impl Clone for RenderMessage {
    fn clone(&self) -> (r: Self)
        ensures
            r@ == self@,
    {
        match self {
            RenderMessage::Line3D(l) => RenderMessage::Line3D(*l),
            RenderMessage::PolyLine3D(p) => RenderMessage::PolyLine3D(p.clone()),
        }
    }
}

/// The mathematical values of a list of render messages.
pub open spec fn rmsgs_view(s: Seq<RenderMessage>) -> Seq<RenderMessageV> {
    Seq::new(s.len(), |i: int| s[i]@)
}

/// A batch of render messages drawn and replaced as one unit, keyed by id.
#[derive(PartialEq, Eq, Debug)]
pub struct RenderGroup {
    pub render_messages: Vec<RenderMessage>,
    pub id: i32,
}

/// Mathematical value of a [`RenderGroup`].
#[verifier::ext_equal]
pub struct RenderGroupV {
    pub render_messages: Seq<RenderMessageV>,
    pub id: i32,
}

impl View for RenderGroup {
    type V = RenderGroupV;

    open spec fn view(&self) -> RenderGroupV {
        RenderGroupV { render_messages: rmsgs_view(self.render_messages@), id: self.id }
    }
}

impl Clone for RenderGroup {
    fn clone(&self) -> (r: Self)
        ensures
            r@ == self@,
    {
        let mut render_messages: Vec<RenderMessage> = Vec::new();
        let mut i: usize = 0;
        while i < self.render_messages.len()
            invariant
                i <= self.render_messages@.len(),
                rmsgs_view(render_messages@) == rmsgs_view(self.render_messages@).take(i as int),
            decreases self.render_messages@.len() - i,
        {
            let ghost before = rmsgs_view(render_messages@);
            render_messages.push(self.render_messages[i].clone());
            proof {
                assert(rmsgs_view(render_messages@) =~= before.push(
                    self.render_messages@[i as int]@,
                ));
                assert(rmsgs_view(self.render_messages@).take(i as int + 1) =~= rmsgs_view(
                    self.render_messages@,
                ).take(i as int).push(self.render_messages@[i as int]@));
            }
            i = i + 1;
        }
        proof {
            assert(rmsgs_view(self.render_messages@).take(self.render_messages@.len() as int)
                =~= rmsgs_view(self.render_messages@));
        }
        RenderGroup { render_messages, id: self.id }
    }
}

/// Builds a [`RenderGroup`] one render message at a time. When done, call
/// [`Renderer::build`] and queue the resulting group in the packet queue.
pub struct Renderer {
    pub group: RenderGroup,
}

impl View for Renderer {
    type V = RenderGroupV;

    open spec fn view(&self) -> RenderGroupV {
        self.group@
    }
}

impl Renderer {
    /// Creates a renderer for the group with the given id. Each render group
    /// must have a unique id; re-using an id overwrites the earlier group.
    pub fn new(group_id: i32) -> (r: Self)
        ensures
            r@.id == group_id,
            r@.render_messages == Seq::<RenderMessageV>::empty(),
    {
        let r = Renderer { group: RenderGroup { render_messages: Vec::new(), id: group_id } };
        proof {
            assert(r@.render_messages =~= Seq::<RenderMessageV>::empty());
        }
        r
    }

    /// Hands out the finished group.
    pub fn build(self) -> (r: RenderGroup)
        ensures
            r@ == self@,
    {
        self.group
    }

    /// Appends one render message to the group.
    pub fn push(&mut self, message: RenderMessage)
        ensures
            final(self)@.id == old(self)@.id,
            final(self)@.render_messages == old(self)@.render_messages.push(message@),
    {
        let ghost oldv = self@;
        self.group.render_messages.push(message);
        proof {
            assert(self@.render_messages =~= oldv.render_messages.push(message@));
        }
    }

    /// Draws a line between two anchors in 3d space.
    pub fn line_3d(&mut self, start: RenderAnchor, end: RenderAnchor, color: Color)
        ensures
            final(self)@.id == old(self)@.id,
            final(self)@.render_messages == old(self)@.render_messages.push(
                RenderMessageV::Line3D(Line3D { start, end, color }),
            ),
    {
        self.push(RenderMessage::Line3D(Line3D { start, end, color }));
    }

    /// Draws a line going through each of the provided points.
    pub fn polyline_3d(&mut self, points: Vec<Vector3>, color: Color)
        ensures
            final(self)@.id == old(self)@.id,
            final(self)@.render_messages == old(self)@.render_messages.push(
                RenderMessageV::PolyLine3D(PolyLine3DV { points: points@, color }),
            ),
    {
        self.push(RenderMessage::PolyLine3D(PolyLine3D { points, color }));
    }
}

} // verus!
