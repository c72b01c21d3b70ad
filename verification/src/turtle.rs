use vstd::prelude::*;
use crate::rat::{
    q_add, q_eqv, q_mul, q_neg, q_sub, rat_add_reduced, rat_mul_reduced, rat_neg,
    spec_add_reduced, spec_mul_reduced, Q, Rat,
};
use crate::trig::{cos_sin_nums, rat_cos_sin, TRIG_SCALE};
use crate::evaluator::LogoErr;

verus! {

/// One line the pen drew: endpoints, stroke color and width.
#[derive(Debug, PartialEq)]
pub struct Segment {
    pub x1: Rat,
    pub y1: Rat,
    pub x2: Rat,
    pub y2: Rat,
    pub color: String,
    pub width: Rat,
}

impl Segment {
    pub open spec fn wf(self) -> bool {
        self.x1.wf() && self.y1.wf() && self.x2.wf() && self.y2.wf() && self.width.wf()
    }
}

/// The mathematical shape of one drawn segment.
pub ghost struct SegM {
    pub x1: Rat,
    pub y1: Rat,
    pub x2: Rat,
    pub y2: Rat,
    pub color: Seq<char>,
    pub width: Rat,
}

pub open spec fn seg_model(s: Segment) -> SegM {
    SegM { x1: s.x1, y1: s.y1, x2: s.x2, y2: s.y2, color: s.color@, width: s.width }
}

/// The mathematical shape of the whole turtle state.  Positions keep
/// their machine representations, so the model walks in lockstep with the
/// executable turtle, overflow included.
pub ghost struct ImageM {
    pub x: Rat,
    pub y: Rat,
    pub angle: Rat,
    pub width: u32,
    pub height: u32,
    pub pen_width: Rat,
    pub pen_color: Seq<char>,
    pub pen_active: bool,
    pub segments: Seq<SegM>,
}

pub open spec fn img_model(im: Image) -> ImageM {
    ImageM {
        x: im.x,
        y: im.y,
        angle: im.angle,
        width: im.width,
        height: im.height,
        pen_width: im.pen_width,
        pen_color: im.pen_color@,
        pen_active: im.pen_active,
        segments: Seq::new(im.segments@.len(), |k: int| seg_model(im.segments@[k])),
    }
}

/// What [`Image::right`] does, exactly.
pub open spec fn im_right(m: ImageM, a: Rat) -> Result<ImageM, LogoErr> {
    match spec_add_reduced(m.angle, a) {
        Some(v) => Ok(ImageM { angle: v, ..m }),
        None => Err(LogoErr::Overflow),
    }
}

/// What [`Image::left`] does, exactly.
pub open spec fn im_left(m: ImageM, a: Rat) -> Result<ImageM, LogoErr> {
    if a.num == i64::MIN {
        Err(LogoErr::Overflow)
    } else {
        match spec_add_reduced(m.angle, Rat { num: (-a.num) as i64, den: a.den }) {
            Some(v) => Ok(ImageM { angle: v, ..m }),
            None => Err(LogoErr::Overflow),
        }
    }
}

/// What [`Image::forward`] does, exactly: the displacement through the
/// fixed-point trigonometry and the gcd-cancelling arithmetic, and one
/// segment when the pen is down.
pub open spec fn im_forward(m: ImageM, d: Rat) -> Result<ImageM, LogoErr> {
    let cs = cos_sin_nums(m.angle.num as int, m.angle.den as int);
    let c = Rat { num: cs.0 as i64, den: TRIG_SCALE };
    let s = Rat { num: cs.1 as i64, den: TRIG_SCALE };
    match spec_mul_reduced(d, c) {
        None => Err(LogoErr::Overflow),
        Some(dx) => match spec_mul_reduced(d, s) {
            None => Err(LogoErr::Overflow),
            Some(dy) => match spec_add_reduced(m.x, dx) {
                None => Err(LogoErr::Overflow),
                Some(nx) => match spec_add_reduced(m.y, dy) {
                    None => Err(LogoErr::Overflow),
                    Some(ny) => Ok(
                        ImageM {
                            x: nx,
                            y: ny,
                            segments: if m.pen_active {
                                m.segments.push(
                                    SegM {
                                        x1: m.x,
                                        y1: m.y,
                                        x2: nx,
                                        y2: ny,
                                        color: m.pen_color,
                                        width: m.pen_width,
                                    },
                                )
                            } else {
                                m.segments
                            },
                            ..m
                        },
                    ),
                },
            },
        },
    }
}

/// What [`Image::backward`] does, exactly: forward of the negation.
pub open spec fn im_backward(m: ImageM, d: Rat) -> Result<ImageM, LogoErr> {
    if d.num == i64::MIN {
        Err(LogoErr::Overflow)
    } else {
        im_forward(m, Rat { num: (-d.num) as i64, den: d.den })
    }
}

pub open spec fn im_setcolor(m: ImageM, c: Seq<char>) -> ImageM {
    ImageM { pen_color: c, ..m }
}

pub open spec fn im_penup(m: ImageM) -> ImageM {
    ImageM { pen_active: false, ..m }
}

pub open spec fn im_pendown(m: ImageM) -> ImageM {
    ImageM { pen_active: true, ..m }
}

pub open spec fn im_clear(m: ImageM) -> ImageM {
    ImageM { segments: Seq::empty(), ..m }
}

/// The cosine of the image's heading, as an unbounded rational.
pub open spec fn heading_cos(angle: Rat) -> Q {
    Q { n: cos_sin_nums(angle.num as int, angle.den as int).0, d: TRIG_SCALE as int }
}

/// The sine of the image's heading, as an unbounded rational.
pub open spec fn heading_sin(angle: Rat) -> Q {
    Q { n: cos_sin_nums(angle.num as int, angle.den as int).1, d: TRIG_SCALE as int }
}

/// The turtle and its canvas: position, heading in degrees, pen state, and
/// the ordered buffer of segments drawn so far.  The heading may grow
/// without bound; the trigonometry reduces it modulo 360.
#[derive(Debug)]
pub struct Image {
    pub x: Rat,
    pub y: Rat,
    pub angle: Rat,
    pub width: u32,
    pub height: u32,
    pub pen_width: Rat,
    pub pen_color: String,
    pub pen_active: bool,
    pub segments: Vec<Segment>,
}

impl Image {
    pub open spec fn wf(self) -> bool {
        &&& self.x.wf()
        &&& self.y.wf()
        &&& self.angle.wf()
        &&& self.pen_width.wf()
        &&& forall|i: int| 0 <= i < self.segments@.len() ==> (#[trigger] self.segments@[i]).wf()
    }

    /// A fresh canvas: the turtle at the center, heading straight up
    /// (-90 degrees in screen coordinates), pen down, black, width one.
    pub fn new(w: u32, h: u32) -> (r: Image)
        ensures
            r.wf(),
            r.width == w,
            r.height == h,
            r.x == (Rat { num: w as i64, den: 2 }),
            r.y == (Rat { num: h as i64, den: 2 }),
            r.angle.num == -90 && r.angle.den == 1,
            r.pen_active,
            r.pen_color@ == "black"@,
            r.pen_width == (Rat { num: 1, den: 1 }),
            r.segments@.len() == 0,
    {
        Image {
            x: Rat { num: w as i64, den: 2 },
            y: Rat { num: h as i64, den: 2 },
            angle: Rat { num: -90, den: 1 },
            width: w,
            height: h,
            pen_width: Rat { num: 1, den: 1 },
            pen_color: String::from_str("black"),
            pen_active: true,
            segments: Vec::new(),
        }
    }

    /// Lift the pen: motion stops drawing.
    pub fn penup(&mut self)
        ensures
            *final (self) == (Image { pen_active: false, ..*old(self) }),
            img_model(*final (self)) == im_penup(img_model(*old(self))),
    {
        self.pen_active = false;
    }

    /// Lower the pen: motion draws again.
    pub fn pendown(&mut self)
        ensures
            *final (self) == (Image { pen_active: true, ..*old(self) }),
            img_model(*final (self)) == im_pendown(img_model(*old(self))),
    {
        self.pen_active = true;
    }

    /// Replace the pen color.
    pub fn setcolor(&mut self, color: String)
        ensures
            *final (self) == (Image { pen_color: color, ..*old(self) }),
            img_model(*final (self)) == im_setcolor(img_model(*old(self)), color@),
    {
        self.pen_color = color;
    }

    /// Empty the drawing buffer; everything else is kept.
    pub fn clear(&mut self)
        ensures
            final (self).segments@.len() == 0,
            *final (self) == (Image { segments: final (self).segments, ..*old(self) }),
            img_model(*final (self)) == im_clear(img_model(*old(self))),
    {
        self.segments = Vec::new();
        proof {
            assert(img_model(*self).segments =~= Seq::<SegM>::empty());
        }
    }

    /// Turn clockwise (in screen coordinates): the heading grows by `a`,
    /// exactly.  On overflow of the exact sum nothing changes.
    pub fn right(&mut self, a: Rat) -> (r: Result<(), LogoErr>)
        requires
            old(self).wf(),
            a.wf(),
        ensures
            final (self).wf(),
            r is Ok ==> final (self).angle.wf() && q_eqv(
                final (self).angle.q(),
                q_add(old(self).angle.q(), a.q()),
            ) && *final (self) == (Image { angle: final (self).angle, ..*old(self) }),
            r is Err ==> *final (self) == *old(self) && r == Err::<(), LogoErr>(LogoErr::Overflow),
            match im_right(img_model(*old(self)), a) {
                Ok(mi) => r is Ok && img_model(*final (self)) == mi,
                Err(e) => r == Err::<(), LogoErr>(e),
            },
    {
        match rat_add_reduced(self.angle, a) {
            Some(v) => {
                self.angle = v;
                Ok(())
            },
            None => Err(LogoErr::Overflow),
        }
    }

    /// Turn counterclockwise: the heading shrinks by `a`, exactly.
    pub fn left(&mut self, a: Rat) -> (r: Result<(), LogoErr>)
        requires
            old(self).wf(),
            a.wf(),
        ensures
            final (self).wf(),
            r is Ok ==> final (self).angle.wf() && q_eqv(
                final (self).angle.q(),
                q_sub(old(self).angle.q(), a.q()),
            ) && *final (self) == (Image { angle: final (self).angle, ..*old(self) }),
            r is Err ==> *final (self) == *old(self) && r == Err::<(), LogoErr>(LogoErr::Overflow),
            match im_left(img_model(*old(self)), a) {
                Ok(mi) => r is Ok && img_model(*final (self)) == mi,
                Err(e) => r == Err::<(), LogoErr>(e),
            },
    {
        match rat_neg(a) {
            Some(na) => {
                proof {
                    let an = a.q().n;
                    let xd = old(self).angle.q().d;
                    assert((-an) * xd == -(an * xd)) by (nonlinear_arith);
                    assert(q_add(old(self).angle.q(), na.q()) == q_sub(
                        old(self).angle.q(),
                        a.q(),
                    ));
                }
                match rat_add_reduced(self.angle, na) {
                    Some(v) => {
                        self.angle = v;
                        Ok(())
                    },
                    None => Err(LogoErr::Overflow),
                }
            },
            None => Err(LogoErr::Overflow),
        }
    }

    /// Move `d` units along the heading.  The displacement is exactly
    /// `d * (cos angle, sin angle)` of the fixed-point trigonometry; with
    /// the pen down, exactly one segment from the old to the new position
    /// is appended.  On arithmetic overflow nothing changes.
    pub fn forward(&mut self, d: Rat) -> (r: Result<(), LogoErr>)
        requires
            old(self).wf(),
            d.wf(),
        ensures
            final (self).wf(),
            r is Ok ==> {
                &&& q_eqv(
                    q_sub(final (self).x.q(), old(self).x.q()),
                    q_mul(d.q(), heading_cos(old(self).angle)),
                )
                &&& q_eqv(
                    q_sub(final (self).y.q(), old(self).y.q()),
                    q_mul(d.q(), heading_sin(old(self).angle)),
                )
                &&& final (self).angle == old(self).angle
                &&& final (self).pen_active == old(self).pen_active
                &&& final (self).pen_color == old(self).pen_color
                &&& final (self).pen_width == old(self).pen_width
                &&& final (self).width == old(self).width
                &&& final (self).height == old(self).height
                &&& old(self).pen_active ==> final (self).segments@ == old(
                    self,
                ).segments@.push(
                    Segment {
                        x1: old(self).x,
                        y1: old(self).y,
                        x2: final (self).x,
                        y2: final (self).y,
                        color: old(self).pen_color,
                        width: old(self).pen_width,
                    },
                )
                &&& !old(self).pen_active ==> final (self).segments@ == old(self).segments@
            },
            r is Err ==> *final (self) == *old(self) && r == Err::<(), LogoErr>(LogoErr::Overflow),
            match im_forward(img_model(*old(self)), d) {
                Ok(mi) => r is Ok && img_model(*final (self)) == mi,
                Err(e) => r == Err::<(), LogoErr>(e),
            },
    {
        let (c, s) = rat_cos_sin(self.angle);
        let dx = match rat_mul_reduced(d, c) {
            Some(v) => v,
            None => {
                return Err(LogoErr::Overflow);
            },
        };
        let dy = match rat_mul_reduced(d, s) {
            Some(v) => v,
            None => {
                return Err(LogoErr::Overflow);
            },
        };
        let nx = match rat_add_reduced(self.x, dx) {
            Some(v) => v,
            None => {
                return Err(LogoErr::Overflow);
            },
        };
        let ny = match rat_add_reduced(self.y, dy) {
            Some(v) => v,
            None => {
                return Err(LogoErr::Overflow);
            },
        };
        proof {
            lemma_shift_displacement(old(self).x.q(), nx.q(), dx.q(), q_mul(
                d.q(),
                heading_cos(old(self).angle),
            ));
            lemma_shift_displacement(old(self).y.q(), ny.q(), dy.q(), q_mul(
                d.q(),
                heading_sin(old(self).angle),
            ));
        }
        if self.pen_active {
            let seg = Segment {
                x1: self.x,
                y1: self.y,
                x2: nx,
                y2: ny,
                color: self.pen_color.clone(),
                width: self.pen_width,
            };
            self.segments.push(seg);
        }
        self.x = nx;
        self.y = ny;
        proof {
            let mi = im_forward(img_model(*old(self)), d)->Ok_0;
            assert(img_model(*self).segments =~= mi.segments);
        }
        Ok(())
    }

    /// Move `d` units against the heading: in every observable effect the
    /// same as `forward` of `-d`, whose contract this repeats with the
    /// negated argument.
    pub fn backward(&mut self, d: Rat) -> (r: Result<(), LogoErr>)
        requires
            old(self).wf(),
            d.wf(),
        ensures
            final (self).wf(),
            r is Ok ==> {
                &&& q_eqv(
                    q_sub(final (self).x.q(), old(self).x.q()),
                    q_mul(q_neg(d.q()), heading_cos(old(self).angle)),
                )
                &&& q_eqv(
                    q_sub(final (self).y.q(), old(self).y.q()),
                    q_mul(q_neg(d.q()), heading_sin(old(self).angle)),
                )
                &&& final (self).angle == old(self).angle
                &&& final (self).pen_active == old(self).pen_active
                &&& final (self).pen_color == old(self).pen_color
                &&& final (self).pen_width == old(self).pen_width
                &&& final (self).width == old(self).width
                &&& final (self).height == old(self).height
                &&& old(self).pen_active ==> final (self).segments@ == old(
                    self,
                ).segments@.push(
                    Segment {
                        x1: old(self).x,
                        y1: old(self).y,
                        x2: final (self).x,
                        y2: final (self).y,
                        color: old(self).pen_color,
                        width: old(self).pen_width,
                    },
                )
                &&& !old(self).pen_active ==> final (self).segments@ == old(self).segments@
            },
            r is Err ==> *final (self) == *old(self) && r == Err::<(), LogoErr>(LogoErr::Overflow),
            match im_backward(img_model(*old(self)), d) {
                Ok(mi) => r is Ok && img_model(*final (self)) == mi,
                Err(e) => r == Err::<(), LogoErr>(e),
            },
    {
        match rat_neg(d) {
            Some(nd) => self.forward(nd),
            None => Err(LogoErr::Overflow),
        }
    }
}

/// If `nx - x` equals `dx` and `dx` equals `target` (as values), then
/// `nx - x` equals `target`: transitivity of value equality through the
/// exact displacement.
proof fn lemma_shift_displacement(x: Q, nx: Q, dx: Q, target: Q)
    requires
        x.wf(),
        nx.wf(),
        dx.wf(),
        target.wf(),
        q_eqv(nx, q_add(x, dx)),
        q_eqv(dx, target),
    ensures
        q_eqv(q_sub(nx, x), target),
{
    let a = nx.n * x.d - x.n * nx.d;
    let b = nx.d * x.d;
    lemma_cross_step_one(nx.n, nx.d, x.n, x.d, dx.n, dx.d);
    lemma_cross_step_two(a, b, dx.n, dx.d, target.n, target.d);
}

/// From the exact sum `nx == x + dx` (cross-multiplied), the displacement
/// `nx - x` equals `dx` as a value.
#[verifier::rlimit(100)]
proof fn lemma_cross_step_one(nxn: int, nxd: int, xn: int, xd: int, dxn: int, dxd: int)
    requires
        nxn * (xd * dxd) == (xn * dxd + dxn * xd) * nxd,
    ensures
        (nxn * xd - xn * nxd) * dxd == dxn * (nxd * xd),
{
    assert((nxn * xd - xn * nxd) * dxd == dxn * (nxd * xd)) by (nonlinear_arith)
        requires
            nxn * (xd * dxd) == (xn * dxd + dxn * xd) * nxd,
    ;
}

/// Value equality is carried across a positive common factor.
#[verifier::rlimit(100)]
proof fn lemma_cross_step_two(a: int, b: int, dxn: int, dxd: int, tn: int, td: int)
    requires
        a * dxd == dxn * b,
        dxn * td == tn * dxd,
        dxd > 0,
    ensures
        a * td == tn * b,
{
    assert(a * td == tn * b) by (nonlinear_arith)
        requires
            a * dxd == dxn * b,
            dxn * td == tn * dxd,
            dxd > 0,
    ;
}

} // verus!
