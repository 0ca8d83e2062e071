use vstd::prelude::*;

use crate::color::Color;
use crate::geometry::Fx;
use crate::geometry::Point2;
use crate::geometry::Vertex3;
use crate::geometry::tdiv;

verus! {

/// Cosine of the fixed -45 degree yaw, in thousandths.
pub const YAW_COS: i64 = 707;

/// Sine of the fixed -45 degree yaw, in thousandths.
pub const YAW_SIN: i64 = -707;

/// Cosine of the fixed +30 degree pitch, in thousandths.
pub const PITCH_COS: i64 = 866;

/// Sine of the fixed +30 degree pitch, in thousandths.
pub const PITCH_SIN: i64 = 500;

/// An ordered triple of model-space corners with one fill color; the
/// pipeline handles triangles one at a time, never retaining them.
#[derive(Clone, Copy, Debug, PartialEq, Eq, Structural)]
pub struct Triangle {
    pub v0: Vertex3,
    pub v1: Vertex3,
    pub v2: Vertex3,
    pub color: Color,
}

impl Triangle {
    pub fn new(v0: Vertex3, v1: Vertex3, v2: Vertex3, color: Color) -> (t: Triangle)
        ensures
            t == (Triangle { v0, v1, v2, color }),
    {
        Triangle { v0, v1, v2, color }
    }
}

/// The x component after recentering at `center` and rotating by the
/// fixed yaw, then the fixed pitch (the pitch leaves x unchanged).
pub open spec fn spec_view_x(v: Vertex3, center: Vertex3) -> int {
    let px = v.x.raw - center.x.raw;
    let pz = v.z.raw - center.z.raw;
    tdiv(YAW_COS * px, 1000) + tdiv(YAW_SIN * pz, 1000)
}

/// The intermediate z component after the yaw rotation alone.
pub open spec fn spec_yaw_z(v: Vertex3, center: Vertex3) -> int {
    let px = v.x.raw - center.x.raw;
    let pz = v.z.raw - center.z.raw;
    tdiv(-YAW_SIN * px, 1000) + tdiv(YAW_COS * pz, 1000)
}

/// The y component after recentering, yaw and pitch.
pub open spec fn spec_view_y(v: Vertex3, center: Vertex3) -> int {
    let py = v.y.raw - center.y.raw;
    tdiv(PITCH_COS * py, 1000) - tdiv(PITCH_SIN * spec_yaw_z(v, center), 1000)
}

/// The z component after recentering, yaw and pitch.
pub open spec fn spec_view_z(v: Vertex3, center: Vertex3) -> int {
    let py = v.y.raw - center.y.raw;
    tdiv(PITCH_SIN * py, 1000) + tdiv(PITCH_COS * spec_yaw_z(v, center), 1000)
}

/// Both coordinates of every component small enough for the transform
/// arithmetic: one thousand million thousandths, i.e. a million units.
pub open spec fn in_model_range(v: Vertex3) -> bool {
    &&& -1_000_000_000 <= v.x.raw <= 1_000_000_000
    &&& -1_000_000_000 <= v.y.raw <= 1_000_000_000
    &&& -1_000_000_000 <= v.z.raw <= 1_000_000_000
}

/// The fixed view transform: translate the scene center to the origin,
/// yaw by -45 degrees about the vertical axis, then pitch by +30
/// degrees about the horizontal axis.  A pure function of its two
/// arguments: the same vertex and center always map to the same point.
pub fn view_transform(v: Vertex3, center: Vertex3) -> (r: Vertex3)
    requires
        in_model_range(v),
        in_model_range(center),
    ensures
        r.x.raw == spec_view_x(v, center),
        r.y.raw == spec_view_y(v, center),
        r.z.raw == spec_view_z(v, center),
{
    let px: i64 = v.x.raw - center.x.raw;
    let py: i64 = v.y.raw - center.y.raw;
    let pz: i64 = v.z.raw - center.z.raw;
    let xr: i64 = (YAW_COS * px) / 1000 + (YAW_SIN * pz) / 1000;
    let zr: i64 = (-YAW_SIN * px) / 1000 + (YAW_COS * pz) / 1000;
    let yp: i64 = (PITCH_COS * py) / 1000 - (PITCH_SIN * zr) / 1000;
    let zp: i64 = (PITCH_SIN * py) / 1000 + (PITCH_COS * zr) / 1000;
    Vertex3 { x: Fx { raw: xr }, y: Fx { raw: yp }, z: Fx { raw: zp } }
}

/// What an `i32` saturating conversion returns.
pub open spec fn clamp_i32(a: int) -> int {
    if a < -2147483648 {
        -2147483648
    } else if a > 2147483647 {
        2147483647
    } else {
        a
    }
}

/// The screen x coordinate of a view-space point: scale, add the
/// offset, truncate toward zero to whole pixels.
pub open spec fn spec_screen_x(vx: int, scale: int, ox: int) -> int {
    tdiv(tdiv(vx * scale, 1000) + ox, 1000)
}

/// The screen y coordinate: the scale is negated because screen y
/// grows downward while model y grows upward.
pub open spec fn spec_screen_y(vy: int, scale: int, oy: int) -> int {
    tdiv(tdiv(vy * -scale, 1000) + oy, 1000)
}

proof fn lemma_i64_mul_fits_i128(a: int, b: int)
    requires
        -9_223_372_036_854_775_808 <= a <= 9_223_372_036_854_775_808,
        -9_223_372_036_854_775_808 <= b <= 9_223_372_036_854_775_808,
    ensures
        -170141183460469231731687303715884105728 <= a * b
            <= 170141183460469231731687303715884105727,
{
    assert(-170141183460469231731687303715884105728 <= a * b
        <= 170141183460469231731687303715884105727) by (nonlinear_arith)
        requires
            -9_223_372_036_854_775_808 <= a <= 9_223_372_036_854_775_808,
            -9_223_372_036_854_775_808 <= b <= 9_223_372_036_854_775_808,
    ;
}

/// Projects a view-space point to integer screen coordinates:
/// `x = v.x * scale + offset_x`, `y = v.y * -scale + offset_y`, each
/// truncated toward zero and saturated to the machine coordinate
/// range.  Total: intermediate arithmetic is wide enough never to
/// overflow.
pub fn to_screen_coords(v: Vertex3, scale: Fx, offset_x: Fx, offset_y: Fx) -> (p: Point2)
    ensures
        p.x as int == clamp_i32(spec_screen_x(v.x.raw as int, scale.raw as int, offset_x.raw as int)),
        p.y as int == clamp_i32(spec_screen_y(v.y.raw as int, scale.raw as int, offset_y.raw as int)),
{
    proof {
        lemma_i64_mul_fits_i128(v.x.raw as int, scale.raw as int);
        lemma_i64_mul_fits_i128(v.y.raw as int, -(scale.raw as int));
    }
    let sxw: i128 = (v.x.raw as i128) * (scale.raw as i128) / 1000 + (offset_x.raw as i128);
    let syw: i128 = (v.y.raw as i128) * (-(scale.raw as i128)) / 1000 + (offset_y.raw as i128);
    let sx: i128 = sxw / 1000;
    let sy: i128 = syw / 1000;
    let px: i32 = if sx < -2147483648 {
        -2147483648
    } else if sx > 2147483647 {
        2147483647
    } else {
        sx as i32
    };
    let py: i32 = if sy < -2147483648 {
        -2147483648
    } else if sy > 2147483647 {
        2147483647
    } else {
        sy as i32
    };
    Point2 { x: px, y: py }
}

/// A lower bound of every vertex of the sequence, component-wise.
pub open spec fn lower_bound_of(vs: Seq<Vertex3>, b: Vertex3) -> bool {
    forall|k: int|
        0 <= k < vs.len() ==> b.x.raw <= (#[trigger] vs[k]).x.raw && b.y.raw <= vs[k].y.raw
            && b.z.raw <= vs[k].z.raw
}

/// An upper bound of every vertex of the sequence, component-wise.
pub open spec fn upper_bound_of(vs: Seq<Vertex3>, b: Vertex3) -> bool {
    forall|k: int|
        0 <= k < vs.len() ==> (#[trigger] vs[k]).x.raw <= b.x.raw && vs[k].y.raw <= b.y.raw
            && vs[k].z.raw <= b.z.raw
}

/// Each component of `b` is attained by some vertex of the sequence,
/// so together with the bound property `b` is the exact component-wise
/// minimum or maximum.
pub open spec fn attained_by(vs: Seq<Vertex3>, b: Vertex3) -> bool {
    &&& exists|k: int| 0 <= k < vs.len() && (#[trigger] vs[k]).x.raw == b.x.raw
    &&& exists|k: int| 0 <= k < vs.len() && (#[trigger] vs[k]).y.raw == b.y.raw
    &&& exists|k: int| 0 <= k < vs.len() && (#[trigger] vs[k]).z.raw == b.z.raw
}

/// The axis-aligned bounding box of a vertex set: the component-wise
/// minimum and maximum over all vertices, `None` for an empty set.
pub fn scene_bounds(verts: &Vec<Vertex3>) -> (r: Option<(Vertex3, Vertex3)>)
    ensures
        r is Some <==> verts.len() > 0,
        r matches Some((mn, mx)) ==> lower_bound_of(verts@, mn) && attained_by(verts@, mn)
            && upper_bound_of(verts@, mx) && attained_by(verts@, mx),
{
    if verts.len() == 0 {
        return None;
    }
    let first: Vertex3 = verts[0];
    let mut mn: Vertex3 = first;
    let mut mx: Vertex3 = first;
    let mut k: usize = 1;
    proof {
        assert(verts@.take(1int)[0] == first);
    }
    while k < verts.len()
        invariant
            1 <= k <= verts.len(),
            lower_bound_of(verts@.take(k as int), mn),
            attained_by(verts@.take(k as int), mn),
            upper_bound_of(verts@.take(k as int), mx),
            attained_by(verts@.take(k as int), mx),
        decreases verts.len() - k,
    {
        let v: Vertex3 = verts[k];
        let newmn = Vertex3 {
            x: mn.x.min_of(v.x),
            y: mn.y.min_of(v.y),
            z: mn.z.min_of(v.z),
        };
        let newmx = Vertex3 {
            x: mx.x.max_of(v.x),
            y: mx.y.max_of(v.y),
            z: mx.z.max_of(v.z),
        };
        proof {
            let pre = verts@.take(k as int);
            let post = verts@.take(k as int + 1);
            assert(forall|t: int| 0 <= t < pre.len() ==> post[t] == pre[t]);
            assert(post[k as int] == v);
            if newmn.x.raw == v.x.raw {
                assert(post[k as int].x.raw == newmn.x.raw);
            } else {
                let w = choose|t: int| 0 <= t < pre.len() && (#[trigger] pre[t]).x.raw == mn.x.raw;
                assert(post[w].x.raw == newmn.x.raw);
            }
            if newmn.y.raw == v.y.raw {
                assert(post[k as int].y.raw == newmn.y.raw);
            } else {
                let w = choose|t: int| 0 <= t < pre.len() && (#[trigger] pre[t]).y.raw == mn.y.raw;
                assert(post[w].y.raw == newmn.y.raw);
            }
            if newmn.z.raw == v.z.raw {
                assert(post[k as int].z.raw == newmn.z.raw);
            } else {
                let w = choose|t: int| 0 <= t < pre.len() && (#[trigger] pre[t]).z.raw == mn.z.raw;
                assert(post[w].z.raw == newmn.z.raw);
            }
            if newmx.x.raw == v.x.raw {
                assert(post[k as int].x.raw == newmx.x.raw);
            } else {
                let w = choose|t: int| 0 <= t < pre.len() && (#[trigger] pre[t]).x.raw == mx.x.raw;
                assert(post[w].x.raw == newmx.x.raw);
            }
            if newmx.y.raw == v.y.raw {
                assert(post[k as int].y.raw == newmx.y.raw);
            } else {
                let w = choose|t: int| 0 <= t < pre.len() && (#[trigger] pre[t]).y.raw == mx.y.raw;
                assert(post[w].y.raw == newmx.y.raw);
            }
            if newmx.z.raw == v.z.raw {
                assert(post[k as int].z.raw == newmx.z.raw);
            } else {
                let w = choose|t: int| 0 <= t < pre.len() && (#[trigger] pre[t]).z.raw == mx.z.raw;
                assert(post[w].z.raw == newmx.z.raw);
            }
        }
        mn = newmn;
        mx = newmx;
        k = k + 1;
    }
    proof {
        assert(verts@.take(verts@.len() as int) =~= verts@);
    }
    Some((mn, mx))
}

/// The largest bounding-box extent over the three axes, in raw
/// thousandths.
pub open spec fn spec_max_dim(mn: Vertex3, mx: Vertex3) -> int {
    let ex = mx.x.raw - mn.x.raw;
    let ey = mx.y.raw - mn.y.raw;
    let ez = mx.z.raw - mn.z.raw;
    if ex >= ey && ex >= ez {
        ex
    } else if ey >= ez {
        ey
    } else {
        ez
    }
}

/// The center, uniform scale and screen offset that fit a scene into a
/// viewport.
#[derive(Clone, Copy, Debug, PartialEq, Eq, Structural)]
pub struct ScreenFit {
    pub center: Vertex3,
    pub scale: Fx,
    pub offset_x: Fx,
    pub offset_y: Fx,
}

/// Derives the scene-to-viewport fit from a bounding box:
/// `center = (min + max) / 2`; `scale` spreads the largest extent over
/// 85 percent of the smaller viewport side, leaving a margin, and
/// falls back to one for a degenerate (single-point) scene rather than
/// dividing by zero; the offset lands the scaled center on the
/// viewport center, with the y sign flipped to match the projection.
pub fn fit_to_viewport(mn: Vertex3, mx: Vertex3, vw: u32, vh: u32) -> (fit: ScreenFit)
    requires
        in_model_range(mn),
        in_model_range(mx),
        mn.x.raw <= mx.x.raw,
        mn.y.raw <= mx.y.raw,
        mn.z.raw <= mx.z.raw,
        1 <= vw <= 16384,
        1 <= vh <= 16384,
    ensures
        fit.center.x.raw == tdiv(mn.x.raw + mx.x.raw, 2),
        fit.center.y.raw == tdiv(mn.y.raw + mx.y.raw, 2),
        fit.center.z.raw == tdiv(mn.z.raw + mx.z.raw, 2),
        spec_max_dim(mn, mx) > 0 ==> fit.scale.raw == 850_000 * (if vw <= vh {
            vw
        } else {
            vh
        }) / spec_max_dim(mn, mx),
        spec_max_dim(mn, mx) == 0 ==> fit.scale.raw == 1000,
        fit.offset_x.raw == vw * 500 - tdiv(fit.center.x.raw * fit.scale.raw, 1000),
        fit.offset_y.raw == vh * 500 + tdiv(fit.center.y.raw * fit.scale.raw, 1000),
{
    let cx: i64 = (mn.x.raw + mx.x.raw) / 2;
    let cy: i64 = (mn.y.raw + mx.y.raw) / 2;
    let cz: i64 = (mn.z.raw + mx.z.raw) / 2;
    let ex: i64 = mx.x.raw - mn.x.raw;
    let ey: i64 = mx.y.raw - mn.y.raw;
    let ez: i64 = mx.z.raw - mn.z.raw;
    let max_dim: i64 = if ex >= ey && ex >= ez {
        ex
    } else if ey >= ez {
        ey
    } else {
        ez
    };
    let min_side: i64 = if vw <= vh {
        vw as i64
    } else {
        vh as i64
    };
    let scale_raw: i64 = if max_dim > 0 {
        850_000 * min_side / max_dim
    } else {
        1000
    };
    proof {
        lemma_center_scale_fits(cx as int, scale_raw as int);
        lemma_center_scale_fits(cy as int, scale_raw as int);
    }
    let shift_x: i64 = ((cx as i128) * (scale_raw as i128) / 1000) as i64;
    let shift_y: i64 = ((cy as i128) * (scale_raw as i128) / 1000) as i64;
    let ox: i64 = (vw as i64) * 500 - shift_x;
    let oy: i64 = (vh as i64) * 500 + shift_y;
    ScreenFit {
        center: Vertex3 { x: Fx { raw: cx }, y: Fx { raw: cy }, z: Fx { raw: cz } },
        scale: Fx { raw: scale_raw },
        offset_x: Fx { raw: ox },
        offset_y: Fx { raw: oy },
    }
}

proof fn lemma_center_scale_fits(c: int, s: int)
    requires
        -1_000_000_000 <= c <= 1_000_000_000,
        0 <= s <= 14_000_000_000,
    ensures
        -14_000_000_000_000_000_000 <= c * s <= 14_000_000_000_000_000_000,
        -14_000_000_000_000_000 <= tdiv(c * s, 1000) <= 14_000_000_000_000_000,
{
    assert(-14_000_000_000_000_000_000 <= c * s <= 14_000_000_000_000_000_000)
        by (nonlinear_arith)
        requires
            -1_000_000_000 <= c <= 1_000_000_000,
            0 <= s <= 14_000_000_000,
    ;
    let p = c * s;
    if p >= 0 {
        assert(p / 1000 <= 14_000_000_000_000_000) by (nonlinear_arith)
            requires
                0 <= p <= 14_000_000_000_000_000_000,
        ;
    } else {
        assert((-p) / 1000 <= 14_000_000_000_000_000) by (nonlinear_arith)
            requires
                0 < -p <= 14_000_000_000_000_000_000,
        ;
    }
}

/// Groups a flat index list into whole triangles: every consecutive
/// triple is one triangle and a trailing partial triple is silently
/// dropped, so a list of length `n` yields exactly `n / 3` triangles.
pub fn triangle_indices(indices: &Vec<usize>) -> (tris: Vec<(usize, usize, usize)>)
    ensures
        tris.len() == indices.len() / 3,
        forall|k: int|
            0 <= k < tris.len() ==> #[trigger] tris[k] == (
                indices[3 * k],
                indices[3 * k + 1],
                indices[3 * k + 2],
            ),
{
    let mut tris: Vec<(usize, usize, usize)> = Vec::new();
    let n: usize = indices.len() / 3;
    let mut k: usize = 0;
    while k < n
        invariant
            k <= n,
            n == indices.len() / 3,
            3 * n <= indices.len(),
            tris.len() == k,
            forall|t: int|
                0 <= t < k ==> #[trigger] tris[t] == (
                    indices[3 * t],
                    indices[3 * t + 1],
                    indices[3 * t + 2],
                ),
        decreases n - k,
    {
        let tri: (usize, usize, usize) = (indices[3 * k], indices[3 * k + 1], indices[3 * k + 2]);
        tris.push(tri);
        k = k + 1;
    }
    tris
}

/// The implicit index list of a mesh without one: vertices already
/// stand in triangle order, so the indices are `0, 1, ..., n - 1`.
pub fn sequential_indices(n: usize) -> (v: Vec<usize>)
    ensures
        v.len() == n,
        forall|k: int| 0 <= k < n ==> #[trigger] v[k] == k,
{
    let mut v: Vec<usize> = Vec::new();
    let mut k: usize = 0;
    while k < n
        invariant
            k <= n,
            v.len() == k,
            forall|t: int| 0 <= t < k ==> #[trigger] v[t] == t,
        decreases n - k,
    {
        v.push(k);
        k = k + 1;
    }
    v
}

} // verus!
