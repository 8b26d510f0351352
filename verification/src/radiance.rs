//! The radiance estimator.
//!
//! The estimator follows a path of light backwards from the eye, one bounce
//! at a time. At each bounce it asks the scene what the ray hits and the
//! material what it does with the light, samples the next direction from the
//! mixture of the light's and the material's strategies, and goes on with one
//! bounce less. It does no arithmetic on colours: it returns the path, with
//! the numbers that each bounce contributes, and leaves the sum to be taken.
use crate::material::{Material, ScaRet};
use crate::object::{answers, HitRecord, Light, Object};
use crate::pdf::{samples, weighs_as, HittablePdf, MixturePdf, Pdf};
use crate::ray::Ray;
use crate::scalar::{Scalar, FAR_BITS, NEAR_BITS};
use crate::vec3::Vec3;
use vstd::prelude::*;

verus! {

/// Whether a sample can be weighted by the mixture of two densities: both
/// are numbers, neither is below zero, and one is above zero. Then their mean
/// is a number above zero.
pub open spec fn weighable(a: Scalar, b: Scalar) -> bool {
    let zero = Scalar { bits: 0 };
    zero.at_most(a) && zero.at_most(b) && (zero.less(a) || zero.less(b))
}

/// Whether a sample with the two densities `a` and `b` can be weighted. A
/// sample that cannot adds no light.
pub fn weighs(a: Scalar, b: Scalar) -> (res: bool)
    ensures
        res == weighable(a, b),
{
    let zero = Scalar::zero();
    a.ge(zero) && b.ge(zero) && (a.gt(zero) || b.gt(zero))
}

/// The densities that weight a sampled bounce: the density with which the
/// material itself scatters into the sampled direction, and the densities
/// that the two strategies of the mixture give it, the light's first. The
/// weight is the first over the mean of the other two.
#[derive(Clone, Copy, Debug, PartialEq, Eq)]
pub struct Weight {
    pub scattering_pdf: Scalar,
    pub light_pdf: Scalar,
    pub material_pdf: Scalar,
}

/// One bounce of a path: what the surface emits, and how it attenuates the
/// light that comes along the rest of the path. A specular bounce has no
/// weight.
#[derive(Clone, Copy, Debug, PartialEq, Eq)]
pub struct Step {
    pub emitted: Vec3,
    pub attenuation: Vec3,
    pub weight: Option<Weight>,
}

/// A path of light, from the eye outwards: its bounces, and the light at its
/// far end.
///
/// The light along the path is taken from the far end inwards. It starts as
/// `end`. At each bounce it is multiplied by the attenuation, component by
/// component, and by the weight of the bounce where it has one, and what the
/// bounce emits is added.
#[derive(Clone, Debug, PartialEq, Eq)]
pub struct Path {
    pub steps: Vec<Step>,
    pub end: Vec3,
}

/// No light.
pub open spec fn black() -> Vec3 {
    Vec3 { x: Scalar { bits: 0 }, y: Scalar { bits: 0 }, z: Scalar { bits: 0 } }
}

/// Whether `emitted` is light that the material may emit where `rec` says.
pub open spec fn glows<M: Material>(mat: &M, rec: &HitRecord<M>, emitted: Vec3) -> bool {
    call_ensures(M::emitted, (mat, rec, rec.u, rec.v, rec.p), emitted)
}

/// Whether `s` is an event that the material may propose for the ray `r`
/// that meets the surface in `rec`.
pub open spec fn scatters<M: Material>(
    mat: &M,
    r: &M::Ray,
    rec: &HitRecord<M>,
    s: ScaRet<M::Ray, M::Pdf>,
) -> bool {
    call_ensures(M::scatter, (mat, r, rec), s)
}

/// Whether `res` is a density that the material may give for scattering the
/// ray `r` into `scattered`.
pub open spec fn scatters_with<M: Material>(
    mat: &M,
    r: &M::Ray,
    rec: &HitRecord<M>,
    scattered: &M::Ray,
    res: Scalar,
) -> bool {
    call_ensures(M::scattering_pdf, (mat, r, rec, scattered), res)
}

/// Whether `dir` is a direction that the mixture may give at the point `o`:
/// one that the lights give from there, or one that the material's strategy
/// gives.
pub open spec fn sampled<L: Light, P: Pdf>(lights: &L, o: Vec3, pdf: &P, dir: Vec3) -> bool {
    call_ensures(L::random, (lights, o), dir) || samples(pdf, dir)
}

/// Whether `res` is a density that the lights may give, seen from `o`, to the
/// direction `dir`.
pub open spec fn shines<L: Light>(lights: &L, o: Vec3, dir: Vec3, res: Scalar) -> bool {
    call_ensures(L::pdf_value, (lights, o, dir), res)
}

/// Whether `ray` is a ray that may be made from the point `p` and the
/// direction `d`.
pub open spec fn starts<R: Ray>(p: Vec3, d: Vec3, ray: R) -> bool {
    call_ensures(R::new, (p, d), ray)
}

/// Whether a path begins with the bounce `step`.
pub open spec fn begins_with(steps: Seq<Step>, step: Step) -> bool {
    steps.len() > 0 && steps[0] == step
}

/// What the estimator may return for the ray `r` with `depth` bounces left:
/// the bounces `steps` and the light `end` at the far end.
///
/// With no bounces left there is no light. Else the scene is asked for the
/// nearest hit between 0.001 and 1e15. Where the ray hits nothing, the path
/// ends in the background, and where it hits a surface that names no
/// material, in no light. Else the material says what the surface emits and
/// what it scatters. Where it scatters nothing, the path ends in what it
/// emits. A specular surface adds a bounce without a weight, and the
/// scattered ray is followed with one bounce less. Every other surface has a
/// direction sampled from the mixture of the lights' strategy and its own,
/// and both are asked for the density of that direction. Where the sample
/// cannot be weighted, or the surface has no strategy, the path ends in what
/// the surface emits. Else the surface adds a bounce with its own density for
/// the sampled ray and the two densities of the mixture, and the sampled ray
/// is followed with one bounce less.
pub open spec fn path_of<W: Object, L: Light>(
    world: &W,
    lights: &L,
    back_ground: Vec3,
    r: W::Ray,
    depth: i32,
    steps: Seq<Step>,
    end: Vec3,
) -> bool where W::Material: Material<Ray = W::Ray>
    decreases depth, 4nat,
{
    if depth <= 0 {
        steps.len() == 0 && end == black()
    } else {
        exists|found: Option<HitRecord<W::Material>>| #[trigger]
            answers(world, &r, Scalar { bits: NEAR_BITS }, Scalar { bits: FAR_BITS }, found)
                && path_after(world, lights, back_ground, r, depth, steps, end, found)
    }
}

/// The path, once the scene has answered with `found`.
pub open spec fn path_after<W: Object, L: Light>(
    world: &W,
    lights: &L,
    back_ground: Vec3,
    r: W::Ray,
    depth: i32,
    steps: Seq<Step>,
    end: Vec3,
    found: Option<HitRecord<W::Material>>,
) -> bool where W::Material: Material<Ray = W::Ray>
    decreases depth, 3nat,
{
    match found {
        None => steps.len() == 0 && end == back_ground,
        Some(rec) => match rec.mat {
            None => steps.len() == 0 && end == black(),
            Some(mat) => exists|emitted: Vec3| #[trigger]
                glows(&mat, &rec, emitted) && exists|
                    s: ScaRet<W::Ray, <W::Material as Material>::Pdf>,
                | #[trigger]
                    scatters(&mat, &r, &rec, s) && path_after_event(
                        world,
                        lights,
                        back_ground,
                        r,
                        depth,
                        steps,
                        end,
                        rec,
                        mat,
                        emitted,
                        s,
                    ),
        },
    }
}

/// The path, once the material has said what the surface emits and what it
/// scatters.
pub open spec fn path_after_event<W: Object, L: Light>(
    world: &W,
    lights: &L,
    back_ground: Vec3,
    r: W::Ray,
    depth: i32,
    steps: Seq<Step>,
    end: Vec3,
    rec: HitRecord<W::Material>,
    mat: W::Material,
    emitted: Vec3,
    s: ScaRet<W::Ray, <W::Material as Material>::Pdf>,
) -> bool where W::Material: Material<Ray = W::Ray>
    decreases depth, 2nat,
{
    if depth <= 0 {
        false
    } else if !s.jud {
        steps.len() == 0 && end == emitted
    } else if s.is_specular {
        begins_with(steps, Step { emitted, attenuation: s.attenustion, weight: None }) && path_of(
            world,
            lights,
            back_ground,
            s.scattered,
            (depth - 1) as i32,
            steps.drop_first(),
            end,
        )
    } else {
        match s.pdf_ptr {
            None => steps.len() == 0 && end == emitted,
            Some(pdf) => exists|dir: Vec3| #[trigger]
                sampled(lights, rec.p, &pdf, dir) && exists|a: Scalar| #[trigger]
                    shines(lights, rec.p, dir, a) && exists|b: Scalar| #[trigger]
                        weighs_as(&pdf, dir, b) && path_after_sample(
                            world,
                            lights,
                            back_ground,
                            r,
                            depth,
                            steps,
                            end,
                            rec,
                            mat,
                            emitted,
                            s,
                            dir,
                            a,
                            b,
                        ),
        }
    }
}

/// The path, once a direction was sampled and the two strategies have given
/// its densities.
pub open spec fn path_after_sample<W: Object, L: Light>(
    world: &W,
    lights: &L,
    back_ground: Vec3,
    r: W::Ray,
    depth: i32,
    steps: Seq<Step>,
    end: Vec3,
    rec: HitRecord<W::Material>,
    mat: W::Material,
    emitted: Vec3,
    s: ScaRet<W::Ray, <W::Material as Material>::Pdf>,
    dir: Vec3,
    a: Scalar,
    b: Scalar,
) -> bool where W::Material: Material<Ray = W::Ray>
    decreases depth, 1nat,
{
    if depth <= 0 {
        false
    } else if !weighable(a, b) {
        steps.len() == 0 && end == emitted
    } else {
        exists|scattered: W::Ray| #[trigger]
            starts(rec.p, dir, scattered) && exists|spdf: Scalar| #[trigger]
                scatters_with(&mat, &r, &rec, &scattered, spdf) && begins_with(
                    steps,
                    Step {
                        emitted,
                        attenuation: s.attenustion,
                        weight: Some(Weight { scattering_pdf: spdf, light_pdf: a, material_pdf: b }),
                    },
                ) && path_of(
                    world,
                    lights,
                    back_ground,
                    scattered,
                    (depth - 1) as i32,
                    steps.drop_first(),
                    end,
                )
    }
}

/// Follows the ray `r` and puts its bounces at the end of `steps`. Returns
/// the light at the far end of the path.
fn follow<W: Object, L: Light>(
    r: W::Ray,
    back_ground: Vec3,
    lights: &L,
    world: &W,
    depth: i32,
    steps: &mut Vec<Step>,
) -> (end: Vec3) where W::Material: Material<Ray = W::Ray>
    ensures
        old(steps)@.len() <= final(steps)@.len(),
        final(steps)@.subrange(0, old(steps)@.len() as int) == old(steps)@,
        path_of(
            world,
            lights,
            back_ground,
            r,
            depth,
            final(steps)@.subrange(old(steps)@.len() as int, final(steps)@.len() as int),
            end,
        ),
    decreases depth,
{
    let ghost before = steps@;
    let ghost nothing = before.subrange(before.len() as int, before.len() as int);
    assert(nothing.len() == 0);
    assert(before.subrange(0, before.len() as int) =~= before);
    if depth <= 0 {
        return Vec3::zero();
    }
    let found = world.hit(&r, Scalar::near(), Scalar::far());
    let ghost answer = found;
    assert(answers(world, &r, Scalar { bits: NEAR_BITS }, Scalar { bits: FAR_BITS }, answer));
    let rec = match found {
        None => {
            assert(path_after(world, lights, back_ground, r, depth, nothing, back_ground, answer));
            return back_ground;
        },
        Some(rec) => rec,
    };
    let mat = match &rec.mat {
        None => {
            assert(path_after(world, lights, back_ground, r, depth, nothing, black(), answer));
            return Vec3::zero();
        },
        Some(mat) => mat,
    };
    let emitted = mat.emitted(&rec, rec.u, rec.v, rec.p);
    let s = mat.scatter(&r, &rec);
    let ghost event = s;
    assert(glows(mat, &rec, emitted));
    assert(scatters(mat, &r, &rec, event));
    if !s.jud {
        proof {
            assert(path_after_event(
                world,
                lights,
                back_ground,
                r,
                depth,
                nothing,
                emitted,
                rec,
                *mat,
                emitted,
                event,
            ));
            assert(path_after(world, lights, back_ground, r, depth, nothing, emitted, answer));
        }
        return emitted;
    }
    let attenuation = s.attenustion;
    if s.is_specular {
        let step = Step { emitted, attenuation, weight: None };
        steps.push(step);
        let end = follow(s.scattered, back_ground, lights, world, depth - 1, steps);
        proof {
            let mine = steps@.subrange(before.len() as int, steps@.len() as int);
            let rest = steps@.subrange(before.len() as int + 1, steps@.len() as int);
            assert(steps@[before.len() as int] == before.push(step)[before.len() as int]);
            assert(begins_with(mine, step));
            assert(mine.drop_first() =~= rest);
            assert(steps@.subrange(0, before.len() as int) =~= before.push(step).subrange(
                0,
                before.len() as int,
            ));
            assert(path_of(world, lights, back_ground, event.scattered, (depth - 1) as i32, rest, end));
            assert(path_after_event(
                world,
                lights,
                back_ground,
                r,
                depth,
                mine,
                end,
                rec,
                *mat,
                emitted,
                event,
            ));
            assert(path_after(world, lights, back_ground, r, depth, mine, end, answer));
        }
        return end;
    }
    let pdf = match s.pdf_ptr {
        None => {
            proof {
                assert(path_after_event(
                    world,
                    lights,
                    back_ground,
                    r,
                    depth,
                    nothing,
                    emitted,
                    rec,
                    *mat,
                    emitted,
                    event,
                ));
                assert(path_after(world, lights, back_ground, r, depth, nothing, emitted, answer));
            }
            return emitted;
        },
        Some(pdf) => pdf,
    };
    let p = MixturePdf::new(HittablePdf::new(rec.p, lights), pdf);
    let dir = p.generate();
    let (a, b) = p.values(dir);
    assert(sampled(lights, rec.p, &p.p1, dir));
    assert(shines(lights, rec.p, dir, a));
    assert(weighs_as(&p.p1, dir, b));
    if !weighs(a, b) {
        proof {
            assert(path_after_sample(
                world,
                lights,
                back_ground,
                r,
                depth,
                nothing,
                emitted,
                rec,
                *mat,
                emitted,
                event,
                dir,
                a,
                b,
            ));
            assert(path_after_event(
                world,
                lights,
                back_ground,
                r,
                depth,
                nothing,
                emitted,
                rec,
                *mat,
                emitted,
                event,
            ));
            assert(path_after(world, lights, back_ground, r, depth, nothing, emitted, answer));
        }
        return emitted;
    }
    let scattered: W::Ray = Ray::new(rec.p, dir);
    let spdf = mat.scattering_pdf(&r, &rec, &scattered);
    assert(starts(rec.p, dir, scattered));
    assert(scatters_with(mat, &r, &rec, &scattered, spdf));
    let step = Step {
        emitted,
        attenuation,
        weight: Some(Weight { scattering_pdf: spdf, light_pdf: a, material_pdf: b }),
    };
    steps.push(step);
    let ghost next = scattered;
    let end = follow(scattered, back_ground, lights, world, depth - 1, steps);
    proof {
        let mine = steps@.subrange(before.len() as int, steps@.len() as int);
        let rest = steps@.subrange(before.len() as int + 1, steps@.len() as int);
        assert(steps@[before.len() as int] == before.push(step)[before.len() as int]);
        assert(begins_with(mine, step));
        assert(mine.drop_first() =~= rest);
        assert(steps@.subrange(0, before.len() as int) =~= before.push(step).subrange(
            0,
            before.len() as int,
        ));
        assert(path_of(world, lights, back_ground, next, (depth - 1) as i32, rest, end));
        assert(path_after_sample(
            world,
            lights,
            back_ground,
            r,
            depth,
            mine,
            end,
            rec,
            *mat,
            emitted,
            event,
            dir,
            a,
            b,
        ));
        assert(path_after_event(
            world,
            lights,
            back_ground,
            r,
            depth,
            mine,
            end,
            rec,
            *mat,
            emitted,
            event,
        ));
        assert(path_after(world, lights, back_ground, r, depth, mine, end, answer));
    }
    end
}

/// Estimates the light that comes along the ray `r`: follows one path of at
/// most `depth` bounces through the scene `world`, sampling towards `lights`,
/// and returns it.
pub fn ray_color<W: Object, L: Light>(
    r: W::Ray,
    back_ground: Vec3,
    lights: &L,
    world: &W,
    depth: i32,
) -> (path: Path) where W::Material: Material<Ray = W::Ray>
    ensures
        path_of(world, lights, back_ground, r, depth, path.steps@, path.end),
        depth <= 0 ==> path.steps@.len() == 0 && path.end == black(),
{
    let mut steps: Vec<Step> = Vec::new();
    let end = follow(r, back_ground, lights, world, depth, &mut steps);
    assert(steps@.subrange(0, steps@.len() as int) =~= steps@);
    Path { steps, end }
}

/// The depth is a bound: a path has at most as many bounces as it was
/// given, and with none given it has none and ends in no light.
pub proof fn lemma_path_is_bounded<W: Object, L: Light>(
    world: &W,
    lights: &L,
    back_ground: Vec3,
    r: W::Ray,
    depth: i32,
    steps: Seq<Step>,
    end: Vec3,
) where W::Material: Material<Ray = W::Ray>
    requires
        path_of(world, lights, back_ground, r, depth, steps, end),
    ensures
        depth <= 0 ==> steps.len() == 0 && end == black(),
        depth > 0 ==> steps.len() <= depth,
    decreases depth, 4nat,
{
    if depth > 0 {
        let found = choose|found: Option<HitRecord<W::Material>>| #[trigger]
            answers(world, &r, Scalar { bits: NEAR_BITS }, Scalar { bits: FAR_BITS }, found)
                && path_after(world, lights, back_ground, r, depth, steps, end, found);
        if found is Some && found->0.mat is Some {
            let rec = found->0;
            let mat = rec.mat->0;
            let emitted = choose|emitted: Vec3| #[trigger]
                glows(&mat, &rec, emitted) && exists|
                    s: ScaRet<W::Ray, <W::Material as Material>::Pdf>,
                | #[trigger]
                    scatters(&mat, &r, &rec, s) && path_after_event(
                        world,
                        lights,
                        back_ground,
                        r,
                        depth,
                        steps,
                        end,
                        rec,
                        mat,
                        emitted,
                        s,
                    );
            let s = choose|s: ScaRet<W::Ray, <W::Material as Material>::Pdf>| #[trigger]
                scatters(&mat, &r, &rec, s) && path_after_event(
                    world,
                    lights,
                    back_ground,
                    r,
                    depth,
                    steps,
                    end,
                    rec,
                    mat,
                    emitted,
                    s,
                );
            lemma_bounded_after_event(world, lights, back_ground, r, depth, steps, end, rec, mat, emitted, s);
        }
    }
}

/// A path is bounded from the material's answer on.
proof fn lemma_bounded_after_event<W: Object, L: Light>(
    world: &W,
    lights: &L,
    back_ground: Vec3,
    r: W::Ray,
    depth: i32,
    steps: Seq<Step>,
    end: Vec3,
    rec: HitRecord<W::Material>,
    mat: W::Material,
    emitted: Vec3,
    s: ScaRet<W::Ray, <W::Material as Material>::Pdf>,
) where W::Material: Material<Ray = W::Ray>
    requires
        path_after_event(world, lights, back_ground, r, depth, steps, end, rec, mat, emitted, s),
    ensures
        depth > 0,
        steps.len() <= depth,
    decreases depth, 2nat,
{
    if !s.jud {
    } else if s.is_specular {
        lemma_path_is_bounded(
            world,
            lights,
            back_ground,
            s.scattered,
            (depth - 1) as i32,
            steps.drop_first(),
            end,
        );
    } else if s.pdf_ptr is Some {
        let pdf = s.pdf_ptr->0;
        let dir = choose|dir: Vec3| #[trigger]
            sampled(lights, rec.p, &pdf, dir) && exists|a: Scalar| #[trigger]
                shines(lights, rec.p, dir, a) && exists|b: Scalar| #[trigger]
                    weighs_as(&pdf, dir, b) && path_after_sample(
                        world,
                        lights,
                        back_ground,
                        r,
                        depth,
                        steps,
                        end,
                        rec,
                        mat,
                        emitted,
                        s,
                        dir,
                        a,
                        b,
                    );
        let a = choose|a: Scalar| #[trigger]
            shines(lights, rec.p, dir, a) && exists|b: Scalar| #[trigger]
                weighs_as(&pdf, dir, b) && path_after_sample(
                    world,
                    lights,
                    back_ground,
                    r,
                    depth,
                    steps,
                    end,
                    rec,
                    mat,
                    emitted,
                    s,
                    dir,
                    a,
                    b,
                );
        let b = choose|b: Scalar| #[trigger]
            weighs_as(&pdf, dir, b) && path_after_sample(
                world,
                lights,
                back_ground,
                r,
                depth,
                steps,
                end,
                rec,
                mat,
                emitted,
                s,
                dir,
                a,
                b,
            );
        if weighable(a, b) {
            let scattered = choose|scattered: W::Ray| #[trigger]
                starts(rec.p, dir, scattered) && exists|spdf: Scalar| #[trigger]
                    scatters_with(&mat, &r, &rec, &scattered, spdf) && begins_with(
                        steps,
                        Step {
                            emitted,
                            attenuation: s.attenustion,
                            weight: Some(
                                Weight { scattering_pdf: spdf, light_pdf: a, material_pdf: b },
                            ),
                        },
                    ) && path_of(
                        world,
                        lights,
                        back_ground,
                        scattered,
                        (depth - 1) as i32,
                        steps.drop_first(),
                        end,
                    );
            lemma_path_is_bounded(
                world,
                lights,
                back_ground,
                scattered,
                (depth - 1) as i32,
                steps.drop_first(),
                end,
            );
        }
    }
}

/// A ray straight at a light sees the light. Let the ray, with bounces left,
/// meet a surface that scatters nothing and emits the light `e`. Then the
/// path has no bounce, and ends in `e`: nothing of the scene is added.
pub proof fn lemma_emitter_is_seen<W: Object, L: Light>(
    world: &W,
    lights: &L,
    back_ground: Vec3,
    r: W::Ray,
    depth: i32,
    steps: Seq<Step>,
    end: Vec3,
    e: Vec3,
) where W::Material: Material<Ray = W::Ray>
    requires
        depth > 0,
        path_of(world, lights, back_ground, r, depth, steps, end),
        forall|found: Option<HitRecord<W::Material>>| #[trigger]
            answers(world, &r, Scalar { bits: NEAR_BITS }, Scalar { bits: FAR_BITS }, found)
                ==> found is Some && found->0.mat is Some,
        forall|rec: HitRecord<W::Material>, s: ScaRet<W::Ray, <W::Material as Material>::Pdf>| #[trigger]
            scatters(&rec.mat->0, &r, &rec, s) ==> !s.jud,
        forall|rec: HitRecord<W::Material>, emitted: Vec3| #[trigger]
            glows(&rec.mat->0, &rec, emitted) ==> emitted == e,
    ensures
        steps.len() == 0,
        end == e,
{
}

} // verus!
