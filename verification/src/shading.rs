//! The control decisions of the shading engine: what a ray's color is made
//! of, whether a reflection is followed, and whether a light is blocked.
//!
//! The color arithmetic itself is done by the caller; these functions decide
//! which arithmetic is due.

use crate::scene::Intersection;
use vstd::prelude::*;

verus! {

/// How a surface treats light: it scatters it, or it also mirrors it.
#[derive(Clone, Copy, Debug, PartialEq, Eq, Structural)]
pub enum SurfaceKind {
    Diffuse,
    Reflective,
}

/// What the color of a ray is made of.
#[derive(Clone, Copy, Debug, PartialEq, Eq, Structural)]
pub enum Shading {
    /// The ray met nothing: the background color.
    Background,
    /// Direct lighting of the surface alone.
    Direct,
    /// Direct lighting blended with the color of the reflected ray, which is
    /// to be cast at the given depth.
    Reflected { depth: u32 },
}

/// The makeup of a ray's color, from what the ray met, the depth at which it
/// was cast and the deepest level at which reflections are still followed.
pub open spec fn shading_of(met: Option<SurfaceKind>, depth: u32, max_depth: u32) -> Shading {
    match met {
        None => Shading::Background,
        Some(SurfaceKind::Diffuse) => Shading::Direct,
        Some(SurfaceKind::Reflective) => if depth < max_depth {
            Shading::Reflected { depth: (depth + 1) as u32 }
        } else {
            Shading::Direct
        },
    }
}

/// Decides what the color of a ray is made of. A reflection is followed only
/// from a reflective surface and only while the depth is below the limit; a
/// limit of zero follows none.
pub fn shading(met: Option<SurfaceKind>, depth: u32, max_depth: u32) -> (made_of: Shading)
    ensures
        made_of == shading_of(met, depth, max_depth),
{
    match met {
        None => Shading::Background,
        Some(SurfaceKind::Diffuse) => Shading::Direct,
        Some(SurfaceKind::Reflective) => {
            if depth < max_depth {
                Shading::Reflected { depth: depth + 1 }
            } else {
                Shading::Direct
            }
        },
    }
}

/// How far a light reaches back from a surface point: a point light sits at a
/// distance, a directional light has none.
#[derive(Clone, Copy, Debug, PartialEq, Eq, Structural)]
pub enum LightRange {
    Unbounded,
    Within(u64),
}

/// Whether what a shadow ray met blocks the light it was cast toward.
pub open spec fn blocks(blocker: Option<Intersection>, range: LightRange) -> bool {
    match blocker {
        None => false,
        Some(hit) => match range {
            LightRange::Unbounded => true,
            LightRange::Within(distance) => hit.distance < distance,
        },
    }
}

/// Decides whether a light is occluded at a surface point, from the nearest
/// intersection of the shadow ray cast toward it. A point light is blocked by
/// anything nearer than the light itself, a directional light by anything at
/// all.
pub fn occluded(blocker: Option<Intersection>, range: LightRange) -> (blocked: bool)
    ensures
        blocked == blocks(blocker, range),
{
    match blocker {
        None => false,
        Some(hit) => match range {
            LightRange::Unbounded => true,
            LightRange::Within(distance) => hit.distance < distance,
        },
    }
}

/// The number of rays cast in a row when a ray is cast at `depth` and the
/// ray of each level meets what `met` lists for it, in order: the chain goes
/// on for as long as the shading asks for a reflected ray.
pub open spec fn levels(met: Seq<Option<SurfaceKind>>, depth: u32, max_depth: u32) -> nat
    decreases met.len(),
{
    if met.len() == 0 {
        0
    } else {
        match shading_of(met[0], depth, max_depth) {
            Shading::Reflected { depth: next } => 1 + levels(met.drop_first(), next, max_depth),
            _ => 1,
        }
    }
}

/// What a ray met, prepared for shading: the direct lighting at the point it
/// hit and, on a mirroring surface, the weight of the mirror image and the
/// ray that carries it.
pub enum Contact<R, C, W> {
    Diffuse { direct: C },
    Reflective { direct: C, reflectivity: W, reflection: R },
}

impl<R, C, W> Contact<R, C, W> {
    /// The kind of surface that was met.
    pub open spec fn kind(self) -> SurfaceKind {
        match self {
            Contact::Diffuse { .. } => SurfaceKind::Diffuse,
            Contact::Reflective { .. } => SurfaceKind::Reflective,
        }
    }

    /// The direct lighting at the point that was hit.
    pub open spec fn direct(self) -> C {
        match self {
            Contact::Diffuse { direct } => direct,
            Contact::Reflective { direct, .. } => direct,
        }
    }
}

/// The kind of surface a ray met, if it met any.
pub open spec fn kind_met<R, C, W>(met: Option<Contact<R, C, W>>) -> Option<SurfaceKind> {
    match met {
        None => None,
        Some(contact) => Some(contact.kind()),
    }
}

/// Whether `color` is a color of `ray` cast at `depth`: the background if the
/// probe finds nothing in its way, the direct lighting of what it meets, or,
/// where a reflection is followed, the blend of that lighting with a color of
/// the reflected ray cast one level deeper.
pub open spec fn casts<R, C, W, P, B>(
    probe: &P,
    blend: &B,
    background: C,
    ray: R,
    depth: u32,
    max_depth: u32,
    color: C,
) -> bool where P: Fn(R) -> Option<Contact<R, C, W>>, B: Fn(C, C, W) -> C
    decreases max_depth - depth,
{
    exists|met: Option<Contact<R, C, W>>|
        #![trigger probe.ensures((ray,), met)]
        probe.ensures((ray,), met) && match shading_of(kind_met(met), depth, max_depth) {
            Shading::Background => color == background,
            Shading::Direct => color == met->0.direct(),
            Shading::Reflected { depth: next } => depth < max_depth && exists|reflected: C|
                #![trigger blend.ensures((met->0.direct(), reflected, met->0->reflectivity), color)]
                casts(probe, blend, background, met->0->reflection, next, max_depth, reflected)
                    && blend.ensures((met->0.direct(), reflected, met->0->reflectivity), color),
        }
}

/// Casts a ray and returns its color.
///
/// The probe finds what the ray meets first and lights it; the blend mixes
/// direct lighting with a mirror image. A ray that meets nothing has the
/// background color. A reflection is followed from a reflective surface while
/// `depth` is below `max_depth`, one level deeper each time, so the recursion
/// ends after at most `max_depth` reflections of a primary ray.
pub fn cast_ray<R, C, W, P, B>(
    ray: R,
    depth: u32,
    max_depth: u32,
    background: C,
    probe: &P,
    blend: &B,
) -> (color: C) where C: Copy, P: Fn(R) -> Option<Contact<R, C, W>>, B: Fn(C, C, W) -> C
    requires
        forall|ray: R| probe.requires((ray,)),
        forall|direct: C, reflected: C, weight: W| blend.requires((direct, reflected, weight)),
    ensures
        casts(probe, blend, background, ray, depth, max_depth, color),
    decreases max_depth - depth,
{
    let met: Option<Contact<R, C, W>> = probe(ray);
    let ghost found = met;
    assert(probe.ensures((ray,), found));
    match met {
        None => background,
        Some(Contact::Diffuse { direct }) => direct,
        Some(Contact::Reflective { direct, reflectivity, reflection }) => {
            match shading(Some(SurfaceKind::Reflective), depth, max_depth) {
                Shading::Reflected { depth: next } => {
                    let reflected: C = cast_ray(
                        reflection,
                        next,
                        max_depth,
                        background,
                        probe,
                        blend,
                    );
                    let color: C = blend(direct, reflected, reflectivity);
                    assert(blend.ensures(
                        (found->0.direct(), reflected, found->0->reflectivity),
                        color,
                    ));
                    color
                },
                _ => direct,
            }
        },
    }
}

/// A ray that meets nothing has the background color, whatever the depth it
/// is cast at and whatever the limit.
pub proof fn lemma_miss_is_background<R, C, W, P, B>(
    probe: &P,
    blend: &B,
    background: C,
    ray: R,
    depth: u32,
    max_depth: u32,
    color: C,
) where P: Fn(R) -> Option<Contact<R, C, W>>, B: Fn(C, C, W) -> C
    requires
        forall|met: Option<Contact<R, C, W>>| probe.ensures((ray,), met) ==> met is None,
        casts(probe, blend, background, ray, depth, max_depth, color),
    ensures
        color == background,
{
}

/// A reflected ray is cast one level deeper than the ray it reflects, and
/// never deeper than the limit.
pub proof fn lemma_reflection_stays_within_limit(
    met: Option<SurfaceKind>,
    depth: u32,
    max_depth: u32,
)
    ensures
        shading_of(met, depth, max_depth) matches Shading::Reflected { depth: next } ==> next
            == depth + 1 && next <= max_depth,
{
}

/// Whatever the rays meet, even mirrors facing each other without end, a ray
/// cast at `depth` leads to at most `max_depth - depth + 1` rays in a row: a
/// primary ray to at most `max_depth` reflections.
pub proof fn lemma_recursion_is_bounded(met: Seq<Option<SurfaceKind>>, depth: u32, max_depth: u32)
    ensures
        depth <= max_depth ==> levels(met, depth, max_depth) <= max_depth - depth + 1,
        depth > max_depth ==> levels(met, depth, max_depth) <= 1,
    decreases met.len(),
{
    if met.len() > 0 {
        match shading_of(met[0], depth, max_depth) {
            Shading::Reflected { depth: next } => {
                lemma_recursion_is_bounded(met.drop_first(), next, max_depth);
            },
            _ => {},
        }
    }
}

} // verus!
