use ray_tracer::constant_medium::medium_scatter;
use ray_tracer::material::{black, metal_scatter_survives, Material, SolidTexture};
use ray_tracer::num::Frac;
use ray_tracer::pdf::{average_with_common_den, MixturePdf};
use ray_tracer::render::{mis_combine, specular_combine};
use ray_tracer::util::{random_coin, random_index, random_int_range};
use ray_tracer::vec3::{FVec3, Vec3};

fn color(n: i128, d: i128) -> FVec3 {
    FVec3 {
        x: Frac { n, d },
        y: Frac { n, d },
        z: Frac { n, d },
    }
}

#[test]
fn mixture_value_is_exact_mean() {
    // p0 = 1/3, p1 = 1/5: the even mixture is (1/3 + 1/5) / 2 = 4/15.
    let m = MixturePdf::new(Frac { n: 1, d: 3 }, Frac { n: 1, d: 5 });
    let v = m.value();
    assert!(v.eq_frac(&Frac { n: 4, d: 15 }));
}

#[test]
fn mixture_value_with_zero_component_halves_the_other() {
    let m = MixturePdf::new(Frac { n: 0, d: 1 }, Frac { n: 1, d: 2 });
    let v = m.value();
    assert!(v.eq_frac(&Frac { n: 1, d: 4 }));
}

#[test]
fn mixture_choice_is_one_of_two() {
    let m = MixturePdf::new(Frac { n: 1, d: 2 }, Frac { n: 1, d: 2 });
    for _ in 0..100 {
        let c = m.generate_choice();
        assert!(c == 0 || c == 1);
    }
}

#[test]
fn mixture_choice_uses_both_components_eventually() {
    let m = MixturePdf::new(Frac { n: 1, d: 2 }, Frac { n: 1, d: 2 });
    let mut seen = [false, false];
    for _ in 0..1000 {
        seen[m.generate_choice()] = true;
    }
    assert!(seen[0] && seen[1]);
}

#[test]
fn average_over_common_denominator() {
    // Densities 1/10, 2/10, 3/10: the unweighted average is 6/30 = 1/5.
    let nums: Vec<i64> = vec![1, 2, 3];
    let avg = average_with_common_den(&nums, 10);
    assert!(avg.eq_frac(&Frac { n: 1, d: 5 }));
}

#[test]
fn mis_combine_exact_value() {
    // emitted 0, attenuation 1/2, incoming 1, spdf 1/3, mpdf 1/4:
    // 0 + (1/2)(1)(1/3)/(1/4) = 2/3.
    let r = mis_combine(
        &black(),
        &color(1, 2),
        &color(1, 1),
        Frac { n: 1, d: 3 },
        Frac { n: 1, d: 4 },
    );
    assert!(r.x.eq_frac(&Frac { n: 2, d: 3 }));
    assert!(r.y.eq_frac(&Frac { n: 2, d: 3 }));
    assert!(r.z.eq_frac(&Frac { n: 2, d: 3 }));
}

#[test]
fn mis_combine_adds_emission() {
    // emitted 1/4, attenuation 1/2, incoming 1/2, spdf 1/2, mpdf 1/2:
    // 1/4 + (1/2)(1/2)(1/2)/(1/2) = 1/2.
    let r = mis_combine(
        &color(1, 4),
        &color(1, 2),
        &color(1, 2),
        Frac { n: 1, d: 2 },
        Frac { n: 1, d: 2 },
    );
    assert!(r.x.eq_frac(&Frac { n: 1, d: 2 }));
}

#[test]
fn black_absorber_contributes_nothing() {
    // A fully absorbing surface with no emission: zero out, whatever the
    // incoming estimate and densities.
    let zero = Frac { n: 0, d: 1 };
    let r = mis_combine(
        &black(),
        &black(),
        &color(999, 1),
        Frac { n: 7, d: 9 },
        Frac { n: 1, d: 13 },
    );
    assert!(r.x.eq_frac(&zero));
    assert!(r.y.eq_frac(&zero));
    assert!(r.z.eq_frac(&zero));
}

#[test]
fn specular_combine_adds_emission_to_the_product() {
    // emitted 0: the pure product.
    let r = specular_combine(&black(), &color(1, 2), &color(2, 3));
    assert!(r.x.eq_frac(&Frac { n: 1, d: 3 }));
    // emitted 1/6: 1/6 + (1/2)(2/3) = 1/2.
    let r2 = specular_combine(&color(1, 6), &color(1, 2), &color(2, 3));
    assert!(r2.x.eq_frac(&Frac { n: 1, d: 2 }));
}

#[test]
fn emitted_only_from_front_face() {
    let light = Material::DiffuseLight {
        emit: SolidTexture::new(color(15, 1)),
    };
    let front = light.emitted(true);
    assert!(front.x.eq_frac(&Frac { n: 15, d: 1 }));
    let back = light.emitted(false);
    assert!(back.x.eq_frac(&Frac { n: 0, d: 1 }));
}

#[test]
fn non_lights_emit_nothing() {
    let m = Material::Lambertian {
        albedo: SolidTexture::new(color(1, 2)),
    };
    let e = m.emitted(true);
    assert!(e.x.eq_frac(&Frac { n: 0, d: 1 }));
}

#[test]
fn scatter_decisions_match_material_kind() {
    let lambert = Material::Lambertian {
        albedo: SolidTexture::new(color(1, 2)),
    };
    let metal = Material::Metal {
        albedo: SolidTexture::new(color(9, 10)),
        fuzz: Frac { n: 0, d: 1 },
    };
    let light = Material::DiffuseLight {
        emit: SolidTexture::new(color(4, 1)),
    };
    let fog = Material::Isotropic {
        albedo: SolidTexture::new(color(1, 1)),
    };
    assert!(lambert.scatters() && !lambert.is_specular());
    assert!(metal.scatters() && metal.is_specular());
    assert!(!light.scatters());
    assert!(fog.scatters() && fog.is_specular());
}

#[test]
fn attenuation_returns_the_albedo() {
    let m = Material::Lambertian {
        albedo: SolidTexture::new(color(3, 4)),
    };
    let a = m.attenuation();
    assert!(a.x.eq_frac(&Frac { n: 3, d: 4 }));
}

#[test]
fn random_ranges_are_respected() {
    for _ in 0..200 {
        let v = random_int_range(-5, 7);
        assert!((-5..7).contains(&v));
        let i = random_index(3);
        assert!(i < 3);
        let _ = random_coin();
    }
}

#[test]
fn frac_comparisons_are_rational() {
    let a = Frac { n: 1, d: 3 };
    let b = Frac { n: 2, d: 6 };
    let c = Frac { n: 1, d: 2 };
    assert!(a.eq_frac(&b));
    assert!(a.lt(&c));
    assert!(!c.lt(&a));
    assert!(a.le(&b));
    let s = a.add(&c);
    assert!(s.eq_frac(&Frac { n: 5, d: 6 }));
    let p = a.mul(&c);
    assert!(p.eq_frac(&Frac { n: 1, d: 6 }));
    let q = c.div(&a);
    assert!(q.eq_frac(&Frac { n: 3, d: 2 }));
    let n = a.neg();
    assert!(n.eq_frac(&Frac { n: -1, d: 3 }));
    let d = c.sub(&a);
    assert!(d.eq_frac(&Frac { n: 1, d: 6 }));
    assert!(a.max_frac(&c).eq_frac(&c));
    assert!(a.min_frac(&c).eq_frac(&a));
}

#[test]
fn vector_algebra_is_exact() {
    let a = Vec3::new(1, 2, 3);
    let b = Vec3::new(-4, 5, 6);
    assert_eq!(a.add(&b), Vec3::new(-3, 7, 9));
    assert_eq!(a.sub(&b), Vec3::new(5, -3, -3));
    assert_eq!(a.neg(), Vec3::new(-1, -2, -3));
    assert_eq!(a.scale(3), Vec3::new(3, 6, 9));
    assert_eq!(a.dot(&b), 24);
    assert_eq!(a.cross(&b), Vec3::new(-3, -18, 13));
    assert_eq!(a.x(), 1);
    assert_eq!(a.y(), 2);
    assert_eq!(a.z(), 3);
}

#[test]
fn medium_scatter_decides_exactly() {
    // Boundary crossings at t = 2 and t = 10, search interval (0, 8],
    // flight of 3 parameter units: scattering at t = 5.
    let t = medium_scatter(
        Frac { n: 2, d: 1 },
        Frac { n: 10, d: 1 },
        Frac { n: 0, d: 1 },
        Frac { n: 8, d: 1 },
        Frac { n: 3, d: 1 },
    )
    .expect("must scatter");
    assert!(t.eq_frac(&Frac { n: 5, d: 1 }));
    // A flight longer than the clipped segment leaves the medium: none.
    assert!(medium_scatter(
        Frac { n: 2, d: 1 },
        Frac { n: 10, d: 1 },
        Frac { n: 0, d: 1 },
        Frac { n: 8, d: 1 },
        Frac { n: 7, d: 1 },
    )
    .is_none());
    // An empty clipped segment scatters nothing.
    assert!(medium_scatter(
        Frac { n: 9, d: 1 },
        Frac { n: 10, d: 1 },
        Frac { n: 0, d: 1 },
        Frac { n: 8, d: 1 },
        Frac { n: 0, d: 1 },
    )
    .is_none());
    // A negative entry is clipped to zero before the flight is added.
    let t2 = medium_scatter(
        Frac { n: -4, d: 1 },
        Frac { n: 6, d: 1 },
        Frac { n: -10, d: 1 },
        Frac { n: 8, d: 1 },
        Frac { n: 1, d: 2 },
    )
    .expect("must scatter");
    assert!(t2.eq_frac(&Frac { n: 1, d: 2 }));
}

#[test]
fn scatter_yields_a_record_except_for_lights() {
    let lambert = Material::Lambertian {
        albedo: SolidTexture::new(color(1, 2)),
    };
    let sr = lambert.scatter().expect("diffuse surfaces scatter");
    assert!(!sr.is_specular);
    assert!(sr.attenuation.x.eq_frac(&Frac { n: 1, d: 2 }));
    let light = Material::DiffuseLight {
        emit: SolidTexture::new(color(4, 1)),
    };
    assert!(light.scatter().is_none());
}

#[test]
fn average_of_no_densities_is_zero() {
    let nums: Vec<i64> = Vec::new();
    let avg = average_with_common_den(&nums, 10);
    assert!(avg.eq_frac(&Frac { n: 0, d: 1 }));
}

#[test]
fn metal_rejection_test_follows_the_normal_side() {
    let normal = FVec3 {
        x: Frac { n: 0, d: 1 },
        y: Frac { n: 1, d: 1 },
        z: Frac { n: 0, d: 1 },
    };
    assert!(metal_scatter_survives(&Vec3::new(3, 5, -2), &normal));
    assert!(!metal_scatter_survives(&Vec3::new(3, -5, -2), &normal));
    // Grazing along the surface does not survive either.
    assert!(!metal_scatter_survives(&Vec3::new(3, 0, -2), &normal));
}

#[test]
fn glass_scatters_specularly_and_attenuates_nothing() {
    let glass = Material::Dielectric { ref_idx: Frac { n: 3, d: 2 } };
    assert!(glass.scatters() && glass.is_specular());
    let sr = glass.scatter().expect("glass scatters");
    assert!(sr.is_specular);
    assert!(sr.attenuation.x.eq_frac(&Frac { n: 1, d: 1 }));
    let e = glass.emitted(true);
    assert!(e.x.eq_frac(&Frac { n: 0, d: 1 }));
}
