use raytracer::material::{Dielectric, DiffuseLight, Lambertian, Metal, NoMaterial, ScaRet, ScaRet_};
use raytracer::pdf::{cosine_density, HittablePdf, MixturePdf, Pdf};
use raytracer::radiance::weighs;
use raytracer::shape::{box_faces, rect_accepts, sphere_root, Face};
use raytracer::{HitRecord, HittableList, Light, Material, Scalar, Vec3, UV};

fn s(x: f64) -> Scalar {
    Scalar::from_bits(x.to_bits())
}

fn f(x: Scalar) -> f64 {
    f64::from_bits(x.to_bits())
}

fn v(x: f64, y: f64, z: f64) -> Vec3 {
    Vec3::new(s(x), s(y), s(z))
}

#[test]
fn the_nearer_root_is_preferred() {
    assert_eq!(sphere_root(s(4.0), s(1.0), s(3.0), s(0.001), s(1e15)), Some(s(1.0)));
}

#[test]
fn the_farther_root_serves_from_inside() {
    assert_eq!(sphere_root(s(4.0), s(-1.0), s(3.0), s(0.001), s(1e15)), Some(s(3.0)));
    assert_eq!(sphere_root(s(4.0), s(0.001), s(3.0), s(0.001), s(1e15)), Some(s(3.0)));
}

#[test]
fn roots_outside_the_range_are_no_hit() {
    assert_eq!(sphere_root(s(4.0), s(-3.0), s(-1.0), s(0.001), s(1e15)), None);
    assert_eq!(sphere_root(s(4.0), s(1.0), s(3.0), s(0.001), s(1.0)), None);
    assert_eq!(sphere_root(s(4.0), s(1.0), s(3.0), s(0.001), s(0.5)), None);
    assert_eq!(sphere_root(s(4.0), s(1.0), s(3.0), s(3.0), s(10.0)), None);
    assert_eq!(sphere_root(s(4.0), s(1.0), s(3.0), s(1.0), s(3.0)), None);
    assert_eq!(sphere_root(s(4.0), s(1.0), s(3.0), s(1.0), s(3.5)), Some(s(3.0)));
}

#[test]
fn no_root_without_a_positive_discriminant() {
    assert_eq!(sphere_root(s(0.0), s(1.0), s(1.0), s(0.001), s(1e15)), None);
    assert_eq!(sphere_root(s(-2.0), s(1.0), s(3.0), s(0.001), s(1e15)), None);
    assert_eq!(sphere_root(s(f64::NAN), s(1.0), s(3.0), s(0.001), s(1e15)), None);
    assert_eq!(sphere_root(s(4.0), s(f64::NAN), s(f64::NAN), s(0.001), s(1e15)), None);
}

#[test]
fn a_crossing_on_the_rectangle_is_a_hit() {
    assert!(rect_accepts(s(2.0), s(0.001), s(1e15), s(1.0), s(0.0), s(5.0), s(3.0), s(0.0), s(5.0)));
    // the ends count
    assert!(rect_accepts(s(2.0), s(2.0), s(2.0), s(0.0), s(0.0), s(5.0), s(5.0), s(0.0), s(5.0)));
}

#[test]
fn a_crossing_off_the_rectangle_is_none() {
    assert!(!rect_accepts(s(2.0), s(0.001), s(1.5), s(1.0), s(0.0), s(5.0), s(3.0), s(0.0), s(5.0)));
    assert!(!rect_accepts(s(-2.0), s(0.001), s(1e15), s(1.0), s(0.0), s(5.0), s(3.0), s(0.0), s(5.0)));
    assert!(!rect_accepts(s(2.0), s(0.001), s(1e15), s(-0.1), s(0.0), s(5.0), s(3.0), s(0.0), s(5.0)));
    assert!(!rect_accepts(s(2.0), s(0.001), s(1e15), s(5.1), s(0.0), s(5.0), s(3.0), s(0.0), s(5.0)));
    assert!(!rect_accepts(s(2.0), s(0.001), s(1e15), s(1.0), s(0.0), s(5.0), s(-3.0), s(0.0), s(5.0)));
    assert!(!rect_accepts(s(2.0), s(0.001), s(1e15), s(1.0), s(0.0), s(5.0), s(5.5), s(0.0), s(5.0)));
}

#[test]
fn a_crossing_at_no_number_is_none() {
    let nan = s(f64::NAN);
    assert!(!rect_accepts(nan, s(0.001), s(1e15), s(1.0), s(0.0), s(5.0), s(3.0), s(0.0), s(5.0)));
    assert!(!rect_accepts(s(2.0), s(0.001), s(1e15), nan, s(0.0), s(5.0), s(3.0), s(0.0), s(5.0)));
    assert!(!rect_accepts(s(2.0), s(0.001), s(1e15), s(1.0), s(0.0), s(5.0), nan, s(0.0), s(5.0)));
}

#[test]
fn the_normal_is_set_against_the_ray() {
    let rec: HitRecord<u8> = HitRecord::new();
    let outward = v(0.0, 0.0, 1.0);
    let front = rec.clone().set_face_normal(s(-0.5), outward);
    assert!(front.front_face);
    assert_eq!(front.normal, outward);
    let back = rec.clone().set_face_normal(s(0.5), outward);
    assert!(!back.front_face);
    assert_eq!(back.normal, v(-0.0, -0.0, -1.0));
    let grazing = rec.set_face_normal(s(0.0), outward);
    assert!(!grazing.front_face);
    assert_eq!(grazing.normal, v(-0.0, -0.0, -1.0));
}

#[test]
fn setting_the_normal_keeps_the_rest() {
    let rec = HitRecord { p: v(1.0, 2.0, 3.0), normal: v(9.0, 9.0, 9.0), t: s(4.0), front_face: false, mat: Some(7u8), u: s(0.25), v: s(0.75) };
    let got = rec.set_face_normal(s(-1.0), v(0.0, 1.0, 0.0));
    assert_eq!(got.p, v(1.0, 2.0, 3.0));
    assert_eq!(got.t, s(4.0));
    assert_eq!(got.mat, Some(7));
    assert_eq!(got.u, s(0.25));
    assert_eq!(got.v, s(0.75));
    assert_eq!(got.normal, v(0.0, 1.0, 0.0));
    assert!(got.front_face);
}

#[test]
fn a_new_record_is_empty() {
    let rec: HitRecord<u8> = HitRecord::new();
    assert_eq!(rec.p, Vec3::zero());
    assert_eq!(rec.normal, Vec3::zero());
    assert_eq!(rec.t, Scalar::zero());
    assert_eq!(rec.u, Scalar::zero());
    assert_eq!(rec.v, Scalar::zero());
    assert!(!rec.front_face);
    assert!(rec.mat.is_none());
}

fn hit_at(t: f64, id: u8) -> Option<HitRecord<u8>> {
    let mut rec = HitRecord::new();
    rec.t = s(t);
    rec.mat = Some(id);
    Some(rec)
}

fn id_of(h: Option<HitRecord<u8>>) -> Option<u8> {
    h.and_then(|r| r.mat)
}

#[test]
fn the_nearer_of_two_hits() {
    assert_eq!(id_of(HitRecord::nearer(hit_at(2.0, 1), hit_at(1.0, 2))), Some(2));
    assert_eq!(id_of(HitRecord::nearer(hit_at(1.0, 1), hit_at(2.0, 2))), Some(1));
    assert_eq!(id_of(HitRecord::nearer(hit_at(1.0, 1), hit_at(1.0, 2))), Some(1));
    assert_eq!(id_of(HitRecord::nearer(hit_at(1.0, 1), None)), Some(1));
    assert_eq!(id_of(HitRecord::nearer(None, hit_at(1.0, 2))), Some(2));
    assert_eq!(id_of(HitRecord::nearer(None, None)), None);
    assert_eq!(id_of(HitRecord::nearer(hit_at(1.0, 1), hit_at(f64::NAN, 2))), Some(1));
}

#[test]
fn texture_coordinates_are_kept() {
    let uv = UV::new(s(0.25), s(0.5));
    assert_eq!(f(uv.u), 0.25);
    assert_eq!(f(uv.v), 0.5);
}

#[test]
fn scattering_events_are_kept() {
    let a: ScaRet<u8, u16> = ScaRet::new(3, v(1.0, 1.0, 1.0), true, true);
    assert_eq!(a.scattered, 3);
    assert_eq!(a.attenustion, v(1.0, 1.0, 1.0));
    assert!(a.pdf_ptr.is_none());
    assert!(a.is_specular);
    assert!(a.jud);
    let b: ScaRet<u8, u16> = ScaRet::_new_(4, v(0.5, 0.5, 0.5), false, true);
    assert_eq!(b.scattered, 4);
    assert_eq!(b.attenustion, v(0.5, 0.5, 0.5));
    assert!(b.pdf_ptr.is_none());
    assert!(!b.is_specular);
    assert!(b.jud);
    let c: ScaRet_<u8> = ScaRet_::new(5, v(0.0, 0.0, 0.0), false);
    assert_eq!(c.scattered, 5);
    assert_eq!(c.attenustion, Vec3::zero());
    assert!(!c.jud);
}

#[test]
fn materials_keep_what_they_are_given() {
    let _ = NoMaterial;
    assert_eq!(Lambertian::new(7u8).albedo, 7);
    assert_eq!(DiffuseLight::new(9u8).emit, 9);
    assert_eq!(f(Dielectric::new(s(1.5)).ref_idx), 1.5);
}

#[test]
fn the_blur_of_a_metal_is_at_most_one() {
    assert_eq!(f(Metal::new(v(0.8, 0.85, 0.88), s(0.0)).fuzz), 0.0);
    assert_eq!(f(Metal::new(v(0.8, 0.85, 0.88), s(0.3)).fuzz), 0.3);
    assert_eq!(f(Metal::new(v(0.8, 0.85, 0.88), s(1.0)).fuzz), 1.0);
    assert_eq!(f(Metal::new(v(0.8, 0.85, 0.88), s(1.5)).fuzz), 1.0);
    assert_eq!(f(Metal::new(v(0.8, 0.85, 0.88), s(f64::NAN)).fuzz), 1.0);
    assert_eq!(Metal::new(v(0.8, 0.85, 0.88), s(0.3)).albedo, v(0.8, 0.85, 0.88));
}

#[test]
fn a_metal_absorbs_rays_into_the_surface() {
    assert!(Metal::scatters(s(0.2)));
    assert!(!Metal::scatters(s(0.0)));
    assert!(!Metal::scatters(s(-0.2)));
    assert!(!Metal::scatters(s(f64::NAN)));
}

#[test]
fn the_cosine_is_cut_down_to_one() {
    assert_eq!(f(Dielectric::cosine(s(0.3))), 0.3);
    assert_eq!(f(Dielectric::cosine(s(1.0))), 1.0);
    assert_eq!(f(Dielectric::cosine(s(1.0000000001))), 1.0);
    assert_eq!(f(Dielectric::cosine(s(-0.5))), -0.5);
}

#[test]
fn beyond_the_critical_angle_light_is_always_reflected() {
    // glass to air at 60 degrees: 1.5 * sin 60 > 1
    let eta_sin_theta = 1.5 * (60.0f64).to_radians().sin();
    assert!(eta_sin_theta > 1.0);
    let mut draw = 0.0;
    while draw < 1.0 {
        for reflectance in [0.0, 0.04, 0.5, 1.0] {
            assert!(Dielectric::reflects(s(eta_sin_theta), s(reflectance), s(draw)));
        }
        draw += 1.0 / 1024.0;
    }
    assert!(Dielectric::reflects(s(eta_sin_theta), s(0.0), s(f64::NAN)));
}

#[test]
fn below_the_critical_angle_the_draw_decides() {
    assert!(Dielectric::reflects(s(0.7), s(0.04), s(0.01)));
    assert!(!Dielectric::reflects(s(0.7), s(0.04), s(0.04)));
    assert!(!Dielectric::reflects(s(0.7), s(0.04), s(0.9)));
    assert!(!Dielectric::reflects(s(1.0), s(0.04), s(0.9)));
    assert!(Dielectric::reflects(s(1.0), s(1.0), s(0.9)));
}

#[test]
fn a_light_emits_from_its_front_only() {
    let colour = v(15.0, 15.0, 15.0);
    assert_eq!(DiffuseLight::<u8>::emitted(true, colour), colour);
    assert_eq!(DiffuseLight::<u8>::emitted(false, colour), Vec3::zero());
}

/// A strategy that always gives the same direction with the same density.
struct Fixed {
    dir: Vec3,
    density: f64,
}

impl Pdf for Fixed {
    fn value(&self, _dir: Vec3) -> Scalar {
        s(self.density)
    }

    fn generate(&self) -> Vec3 {
        self.dir
    }
}

/// A light that remembers nothing but a number.
struct Bulb(f64);

impl Light for Bulb {
    fn pdf_value(&self, o: Vec3, d: Vec3) -> Scalar {
        // a density made of everything that was handed in
        s(self.0 + f(o.x) + 10.0 * f(d.y))
    }

    fn random(&self, o: Vec3) -> Vec3 {
        v(self.0, f(o.x), f(o.y))
    }
}

#[test]
fn a_light_strategy_asks_the_light_from_its_place() {
    let bulb = Bulb(3.0);
    let h = HittablePdf::new(v(1.0, 2.0, 3.0), &bulb);
    assert_eq!(h.o, v(1.0, 2.0, 3.0));
    assert_eq!(h.ptr.0, 3.0);
    assert_eq!(f(h.value(v(0.0, 0.5, 0.0))), 3.0 + 1.0 + 5.0);
    assert_eq!(h.generate(), v(3.0, 1.0, 2.0));
}

#[test]
fn a_list_of_lights_gives_the_densities_of_its_members() {
    let mut lights = HittableList::new();
    assert!(lights.pdf_values(v(1.0, 0.0, 0.0), v(0.0, 0.5, 0.0)).is_empty());
    for brightness in [3.0, 7.0, 100.0] {
        lights.add(Bulb(brightness));
    }
    let values = lights.pdf_values(v(1.0, 0.0, 0.0), v(0.0, 0.5, 0.0));
    assert_eq!(values, vec![s(9.0), s(13.0), s(106.0)]);
}

#[test]
fn a_list_of_lights_samples_each_member() {
    let mut lights = HittableList::new();
    for brightness in [3.0, 7.0, 100.0] {
        lights.add(Bulb(brightness));
    }
    let mut seen = [0; 3];
    for _ in 0..3000 {
        let dir = lights.random(v(1.0, 2.0, 0.0));
        assert_eq!((f(dir.y), f(dir.z)), (1.0, 2.0));
        let member = [3.0, 7.0, 100.0].iter().position(|b| *b == f(dir.x)).unwrap();
        seen[member] += 1;
    }
    for count in seen {
        assert!(count > 700, "each light should be sampled about 1000 times, one was {}", count);
    }
}

#[test]
fn a_mixture_gives_the_densities_of_both_strategies() {
    let m = MixturePdf::new(
        Fixed { dir: v(1.0, 0.0, 0.0), density: 0.25 },
        Fixed { dir: v(0.0, 1.0, 0.0), density: 0.75 },
    );
    assert_eq!(m.p0.density, 0.25);
    assert_eq!(m.p1.density, 0.75);
    let (a, b) = m.values(v(0.0, 0.0, 1.0));
    assert_eq!((f(a), f(b)), (0.25, 0.75));
    // the density of the mixture is their mean
    assert_eq!(0.5 * f(a) + 0.5 * f(b), 0.5);
}

#[test]
fn a_mixture_samples_each_strategy_about_half_the_time() {
    let m = MixturePdf::new(
        Fixed { dir: v(1.0, 0.0, 0.0), density: 0.25 },
        Fixed { dir: v(0.0, 1.0, 0.0), density: 0.75 },
    );
    let mut first = 0;
    let n = 4000;
    for _ in 0..n {
        let dir = m.generate();
        if dir == v(1.0, 0.0, 0.0) {
            first += 1;
        } else {
            assert_eq!(dir, v(0.0, 1.0, 0.0));
        }
    }
    assert!(first > 1700 && first < 2300, "the first strategy gave {} of {} samples", first, n);
}

#[test]
fn a_sample_is_weighted_only_by_a_density_above_zero() {
    assert!(weighs(s(0.25), s(0.5)));
    assert!(weighs(s(0.0), s(0.5)));
    assert!(weighs(s(0.25), s(0.0)));
    assert!(weighs(s(-0.0), s(0.5)));
    assert!(weighs(s(f64::INFINITY), s(0.0)));
    assert!(!weighs(s(0.0), s(0.0)));
    assert!(!weighs(s(-0.0), s(0.0)));
    assert!(!weighs(s(-1.0), s(5.0)));
    assert!(!weighs(s(5.0), s(-1.0)));
    assert!(!weighs(s(f64::NAN), s(5.0)));
    assert!(!weighs(s(5.0), s(f64::NAN)));
    assert!(!weighs(s(f64::NAN), s(f64::NAN)));
}

fn face(across: u32, a0: f64, a1: f64, b0: f64, b1: f64, k: f64) -> Face {
    Face { across, a0: s(a0), a1: s(a1), b0: s(b0), b1: s(b1), k: s(k) }
}

#[test]
fn a_box_has_six_faces() {
    let faces = box_faces(v(1.0, 2.0, 3.0), v(10.0, 20.0, 30.0));
    assert_eq!(
        faces,
        vec![
            face(2, 1.0, 10.0, 2.0, 20.0, 30.0),
            face(2, 1.0, 10.0, 2.0, 20.0, 3.0),
            face(1, 1.0, 10.0, 3.0, 30.0, 20.0),
            face(1, 1.0, 10.0, 3.0, 30.0, 2.0),
            face(0, 2.0, 20.0, 3.0, 30.0, 10.0),
            face(0, 2.0, 20.0, 3.0, 30.0, 1.0),
        ]
    );
}

#[test]
fn the_cosine_law_gives_no_density_to_directions_into_the_surface() {
    let pi = std::f64::consts::PI;
    assert_eq!(f(cosine_density(s(1.0), s(1.0 / pi))), 1.0 / pi);
    assert_eq!(f(cosine_density(s(0.5), s(0.5 / pi))), 0.5 / pi);
    assert_eq!(f(cosine_density(s(0.0), s(0.0))), 0.0);
    assert_eq!(f(cosine_density(s(-0.5), s(-0.5 / pi))), 0.0);
    assert_eq!(f(cosine_density(s(f64::NAN), s(f64::NAN))), 0.0);
}

#[test]
fn a_normal_is_turned_against_the_ray() {
    let n = v(0.0, 1.0, 0.0);
    assert_eq!(n.against(s(-0.3)), n);
    assert_eq!(n.against(s(0.3)), v(-0.0, -1.0, -0.0));
    assert_eq!(n.against(s(0.0)), v(-0.0, -1.0, -0.0));
    assert_eq!(n.against(s(f64::NAN)), v(-0.0, -1.0, -0.0));
}

/// A material that says only how it scatters.
struct Plain;

impl Material for Plain {
    type Ray = u8;
    type Pdf = Fixed;

    fn scatter(&self, r_in: &u8, _rec: &HitRecord<Plain>) -> ScaRet<u8, Fixed> {
        ScaRet::new(*r_in, v(0.5, 0.5, 0.5), true, true)
    }
}

#[test]
fn a_material_that_says_nothing_else_emits_no_light_and_has_no_density() {
    let mut rec: HitRecord<Plain> = HitRecord::new();
    rec.front_face = true;
    rec.p = v(1.0, 2.0, 3.0);
    assert_eq!(Plain.emitted(&rec, s(0.25), s(0.75), v(1.0, 2.0, 3.0)), Vec3::zero());
    assert_eq!(Plain.scattering_pdf(&3, &rec, &4), Scalar::zero());
    assert_eq!(f(Plain.scattering_pdf(&3, &rec, &4)), 0.0);
}
