use ray_tracer::intersection::{Intersection, Intersections};
use ray_tracer::shape::{IdSource, Shape};
use ray_tracer::world::{color_at, is_shadowed, reflected_color, refracted_color, shade_hit};
use ray_tracer::world::{Bounce, Mixture};

fn to_key(t: f64) -> i64 {
    let bits = (t + 0.0).to_bits() as i64;
    if bits < 0 {
        bits ^ i64::MAX
    } else {
        bits
    }
}

fn record(t: f64, shape: &Shape) -> Intersection {
    Intersection {
        t: to_key(t),
        shape: *shape,
        u: None,
        v: None,
    }
}

#[test]
fn reflection_stops_without_fuel() {
    assert_eq!(reflected_color(0, true), Bounce::Black);
    assert_eq!(reflected_color(0, false), Bounce::Black);
    assert_eq!(reflected_color(-3, true), Bounce::Black);
}

#[test]
fn refraction_stops_without_fuel() {
    assert_eq!(refracted_color(0, true, false), Bounce::Black);
    assert_eq!(refracted_color(0, true, true), Bounce::Black);
    assert_eq!(refracted_color(0, false, false), Bounce::Black);
    assert_eq!(refracted_color(-1, true, false), Bounce::Black);
}

#[test]
fn reflection_needs_a_reflective_surface() {
    assert_eq!(reflected_color(5, false), Bounce::Black);
}

#[test]
fn reflection_spends_one_unit_of_fuel() {
    assert_eq!(reflected_color(5, true), Bounce::Cast { fuel: 4 });
    assert_eq!(reflected_color(1, true), Bounce::Cast { fuel: 0 });
    assert_eq!(reflected_color(i32::MAX, true), Bounce::Cast { fuel: i32::MAX - 1 });
}

#[test]
fn refraction_needs_a_transparent_surface() {
    assert_eq!(refracted_color(5, false, false), Bounce::Black);
}

#[test]
fn refraction_stops_under_total_internal_reflection() {
    assert_eq!(refracted_color(5, true, true), Bounce::Black);
}

#[test]
fn refraction_spends_one_unit_of_fuel() {
    assert_eq!(refracted_color(5, true, false), Bounce::Cast { fuel: 4 });
    assert_eq!(refracted_color(1, true, false), Bounce::Cast { fuel: 0 });
}

#[test]
fn fuel_runs_out_after_as_many_bounces() {
    let mut fuel = 5;
    let mut bounces = 0;
    while let Bounce::Cast { fuel: rest } = reflected_color(fuel, true) {
        fuel = rest;
        bounces += 1;
    }
    assert_eq!(bounces, 5);
}

#[test]
fn shade_hit_mixes_by_reflectance_only_where_both_show() {
    assert_eq!(shade_hit(true, true), Mixture::Fresnel);
    assert_eq!(shade_hit(true, false), Mixture::Sum);
    assert_eq!(shade_hit(false, true), Mixture::Sum);
    assert_eq!(shade_hit(false, false), Mixture::Sum);
}

#[test]
fn no_shadow_without_crossings() {
    let mut is = Intersections::new();
    assert!(!is_shadowed(&mut is, to_key(10.0)));
}

#[test]
fn shadow_of_a_shape_before_the_light() {
    let mut ids = IdSource::new();
    let sphere = Shape::new(&mut ids, true);
    let mut is = Intersections::new();
    is.insert(record(6.0, &sphere));
    is.insert(record(4.0, &sphere));
    assert!(is_shadowed(&mut is, to_key(10.0)));
    assert_eq!(is.get(0).t, to_key(4.0));
}

#[test]
fn no_shadow_of_a_shape_behind_the_light() {
    let mut ids = IdSource::new();
    let sphere = Shape::new(&mut ids, true);
    let mut is = Intersections::new();
    is.insert(record(12.0, &sphere));
    is.insert(record(14.0, &sphere));
    assert!(!is_shadowed(&mut is, to_key(10.0)));
    let mut is = Intersections::new();
    is.insert(record(10.0, &sphere));
    assert!(!is_shadowed(&mut is, to_key(10.0)));
}

#[test]
fn no_shadow_of_a_shape_behind_the_point() {
    let mut ids = IdSource::new();
    let sphere = Shape::new(&mut ids, true);
    let mut is = Intersections::new();
    is.insert(record(-2.0, &sphere));
    is.insert(record(-4.0, &sphere));
    assert!(!is_shadowed(&mut is, to_key(10.0)));
}

#[test]
fn shadow_needs_a_shape_that_casts_one() {
    let mut ids = IdSource::new();
    let caster = Shape::new(&mut ids, true);
    let mut is = Intersections::new();
    is.insert(record(6.0, &caster));
    is.insert(record(4.0, &caster));
    assert!(is_shadowed(&mut is, to_key(10.0)));

    let mut same = caster;
    same.casts_shadow = false;
    let mut is = Intersections::new();
    is.insert(record(6.0, &same));
    is.insert(record(4.0, &same));
    assert!(!is_shadowed(&mut is, to_key(10.0)));
}

#[test]
fn shadow_goes_by_the_nearest_shape_only() {
    let mut ids = IdSource::new();
    let caster = Shape::new(&mut ids, true);
    let clear = Shape::new(&mut ids, false);
    let mut is = Intersections::new();
    is.insert(record(5.0, &caster));
    is.insert(record(3.0, &clear));
    assert!(!is_shadowed(&mut is, to_key(10.0)));
}

#[test]
fn nothing_to_shade_without_a_hit() {
    let mut is = Intersections::new();
    assert!(color_at(&mut is).is_none());

    let mut ids = IdSource::new();
    let sphere = Shape::new(&mut ids, true);
    let mut is = Intersections::new();
    is.insert(record(-4.0, &sphere));
    is.insert(record(-6.0, &sphere));
    assert!(color_at(&mut is).is_none());
}

#[test]
fn shades_the_nearest_crossing() {
    let mut ids = IdSource::new();
    let outer = Shape::new(&mut ids, true);
    let inner = Shape::new(&mut ids, true);
    let mut is = Intersections::new();
    is.insert(record(4.0, &outer));
    is.insert(record(6.0, &outer));
    is.insert(record(4.5, &inner));
    is.insert(record(5.5, &inner));

    let state = color_at(&mut is).unwrap();

    assert_eq!(state.t, to_key(4.0));
    assert!(state.shape == outer);
    assert_eq!(state.n1, None);
    assert_eq!(state.n2, Some(outer));
    let ts: Vec<i64> = is.to_vec().iter().map(|i| i.t).collect();
    assert_eq!(ts, vec![to_key(4.0), to_key(4.5), to_key(5.5), to_key(6.0)]);
}

#[test]
fn shades_the_first_crossing_in_front() {
    let mut ids = IdSource::new();
    let outer = Shape::new(&mut ids, true);
    let inner = Shape::new(&mut ids, true);
    let mut is = Intersections::new();
    is.insert(record(-0.25, &inner));
    is.insert(record(0.25, &inner));
    is.insert(record(-1.75, &outer));
    is.insert(record(0.75, &outer));

    let state = color_at(&mut is).unwrap();

    assert_eq!(state.t, to_key(0.25));
    assert!(state.shape == inner);
    assert_eq!(state.n1, Some(inner));
    assert_eq!(state.n2, Some(outer));
}
