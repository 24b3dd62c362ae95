use fastviz::graph::{SceneEntity, SceneGraph, StyleOverride};
use fastviz::ids::EntityId;
use glam::{Mat4, Vec3};

#[derive(Clone, Copy, Debug, PartialEq)]
struct Color {
    r: f32,
    g: f32,
    b: f32,
    a: f32,
}

const fn rgb(r: f32, g: f32, b: f32) -> Color {
    Color { r, g, b, a: 1.0 }
}

const WHITE: Color = rgb(1.0, 1.0, 1.0);
const RED: Color = rgb(1.0, 0.0, 0.0);
const GREEN: Color = rgb(0.0, 1.0, 0.0);
const BLUE: Color = rgb(0.0, 0.0, 1.0);

#[derive(Clone, Debug)]
struct Point {
    position: Vec3,
    color: Color,
    size: f32,
}

#[derive(Clone, Debug)]
struct Polyline {
    points: Vec<Vec3>,
    color: Color,
    width: f32,
    strip: bool,
}

#[derive(Clone, Debug)]
struct Arrow {
    origin: Vec3,
    direction: Vec3,
    length: f32,
    shaft_radius: f32,
    head_radius: f32,
    color: Color,
}

#[derive(Clone, Debug)]
enum Prim {
    Points(Vec<Point>),
    Polyline(Polyline),
    Arrows(Vec<Arrow>),
}

type Graph = SceneGraph<Prim, Mat4, Color, f32>;

/// The style override as the renderer's primitives apply it.
fn apply(p: Prim, ov: StyleOverride<Color, f32>) -> Prim {
    let mut p = p;
    if let Some(c) = ov.color {
        match &mut p {
            Prim::Points(pts) => pts.iter_mut().for_each(|pt| pt.color = c),
            Prim::Polyline(pl) => pl.color = c,
            Prim::Arrows(a) => a.iter_mut().for_each(|x| x.color = c),
        }
    }
    if let Some(s) = ov.scale {
        let s = s.max(1e-4);
        match &mut p {
            Prim::Points(pts) => pts.iter_mut().for_each(|pt| pt.size = s),
            Prim::Polyline(pl) => pl.width = s,
            Prim::Arrows(arrs) => {
                for a in arrs.iter_mut() {
                    if a.length > 1e-6 {
                        let k = s / a.length;
                        a.length = s;
                        a.shaft_radius *= k;
                        a.head_radius *= k;
                    } else {
                        a.length = s;
                    }
                }
            }
        }
    }
    if let Some(h) = ov.head_scale {
        let h = h.max(1e-4);
        if let Prim::Arrows(arrs) = &mut p {
            arrs.iter_mut().for_each(|a| a.head_radius = h);
        }
    }
    p
}

fn entity(id: u64, p: Prim) -> SceneEntity<Prim, Mat4> {
    SceneEntity::new(EntityId(id), p, Mat4::IDENTITY)
}

#[test]
fn upsert_marks_dirty() {
    let mut g = Graph::default();
    g.upsert(
        entity(
            1,
            Prim::Points(vec![Point { position: Vec3::ZERO, color: WHITE, size: 1.0 }]),
        ),
        apply,
    );
    assert!(g.entities[&1].dirty);
}

#[test]
fn update_primitive_in_place_keeps_id() {
    let mut g = Graph::default();
    g.upsert(
        entity(
            7,
            Prim::Polyline(Polyline {
                points: vec![Vec3::ZERO, Vec3::X],
                color: RED,
                width: 1.0,
                strip: true,
            }),
        ),
        apply,
    );
    g.entities.get_mut(&7).unwrap().dirty = false;

    g.update_primitive(
        EntityId(7),
        Prim::Polyline(Polyline {
            points: vec![Vec3::Y, Vec3::Z],
            color: GREEN,
            width: 2.0,
            strip: true,
        }),
        apply,
    );
    let e = &g.entities[&7];
    assert!(e.dirty);
    assert_eq!(g.entities.len(), 1);
}

#[test]
fn update_transform_does_not_mark_dirty() {
    let mut g = Graph::default();
    g.upsert(entity(2, Prim::Points(vec![])), apply);
    g.entities.get_mut(&2).unwrap().dirty = false;
    g.update_transform(EntityId(2), Mat4::from_translation(Vec3::X));
    assert!(!g.entities[&2].dirty);
}

#[test]
fn upsert_preserves_visibility_across_republish() {
    let mut g = Graph::default();
    g.upsert(entity(9, Prim::Points(vec![])), apply);
    g.set_visible(EntityId(9), false);

    // The ingestion layer publishes again with a fresh entity.
    g.upsert(entity(9, Prim::Points(vec![])), apply);
    assert!(!g.entities[&9].visible);
}

#[test]
fn revision_advances_only_on_payload_change() {
    let mut g = Graph::default();
    g.upsert(entity(11, Prim::Points(vec![])), apply);
    let rev0 = g.entities[&11].revision;

    g.update_transform(EntityId(11), Mat4::from_translation(Vec3::X));
    assert_eq!(g.entities[&11].revision, rev0, "transform update bumped revision");

    g.update_primitive(EntityId(11), Prim::Points(vec![]), apply);
    assert!(g.entities[&11].revision > rev0, "update_primitive should bump");

    let rev1 = g.entities[&11].revision;
    g.upsert(entity(11, Prim::Points(vec![])), apply);
    assert!(g.entities[&11].revision > rev1, "re-upsert should bump");
}

#[test]
fn color_override_survives_republish() {
    let mut g = Graph::default();
    g.upsert(
        entity(
            50,
            Prim::Points(vec![Point { position: Vec3::ZERO, color: WHITE, size: 1.0 }]),
        ),
        apply,
    );
    g.set_color_override(EntityId(50), Some(RED), apply);
    // A subscriber pushes a fresh primitive with the old style color.
    g.upsert(
        entity(
            50,
            Prim::Points(vec![Point { position: Vec3::X, color: GREEN, size: 2.0 }]),
        ),
        apply,
    );
    let pts = match &g.entities[&50].primitive {
        Prim::Points(p) => p.clone(),
        _ => unreachable!(),
    };
    assert_eq!(pts.first().unwrap().color, RED);
}

#[test]
fn scale_override_survives_republish() {
    let mut g = Graph::default();
    g.upsert(
        entity(
            51,
            Prim::Polyline(Polyline {
                points: vec![Vec3::ZERO, Vec3::X],
                color: RED,
                width: 1.0,
                strip: true,
            }),
        ),
        apply,
    );
    g.set_scale_override(EntityId(51), Some(5.0), apply);
    g.upsert(
        entity(
            51,
            Prim::Polyline(Polyline {
                points: vec![Vec3::Y, Vec3::Z],
                color: GREEN,
                width: 2.0,
                strip: true,
            }),
        ),
        apply,
    );
    match &g.entities[&51].primitive {
        Prim::Polyline(p) => assert!((p.width - 5.0).abs() < 1e-6),
        _ => unreachable!(),
    }
}

#[test]
fn head_scale_override_survives_republish() {
    let mut g = Graph::default();
    let arrow = || Arrow {
        origin: Vec3::ZERO,
        direction: Vec3::X,
        length: 1.0,
        shaft_radius: 0.05,
        head_radius: 0.1,
        color: RED,
    };
    g.upsert(entity(60, Prim::Arrows(vec![arrow()])), apply);
    g.set_head_scale_override(EntityId(60), Some(0.5), apply);
    // A subscriber pushes a fresh primitive with the old head radius.
    g.upsert(entity(60, Prim::Arrows(vec![arrow()])), apply);
    match &g.entities[&60].primitive {
        Prim::Arrows(a) => {
            assert!((a[0].head_radius - 0.5).abs() < 1e-6, "head_radius={}", a[0].head_radius)
        }
        _ => unreachable!(),
    }
    // Clearing it drops the map entry.
    g.set_head_scale_override(EntityId(60), None, apply);
    assert!(!g.style_overrides.contains_key(&60));
}

#[test]
fn clearing_override_drops_map_entry() {
    let mut g = Graph::default();
    g.upsert(entity(52, Prim::Points(vec![])), apply);
    g.set_color_override(EntityId(52), Some(BLUE), apply);
    assert!(g.style_overrides.contains_key(&52));
    g.set_color_override(EntityId(52), None, apply);
    assert!(!g.style_overrides.contains_key(&52));
}

#[test]
fn remove_returns_entity() {
    let mut g = Graph::default();
    g.upsert(entity(3, Prim::Points(vec![])), apply);
    assert!(g.remove(EntityId(3)).is_some());
    assert!(g.entities.is_empty());
}

#[test]
fn graph_revision_counts_mutations() {
    let mut g = Graph::new("odom");
    assert_eq!(g.revision(), 0);
    assert_eq!(g.reference_frame, "odom");
    g.upsert(entity(4, Prim::Points(vec![])), apply);
    assert_eq!(g.revision(), 1);
    // Setting the visibility it already has changes nothing.
    g.set_visible(EntityId(4), true);
    assert_eq!(g.revision(), 1);
    g.set_visible(EntityId(4), false);
    assert_eq!(g.revision(), 2);
    // Setting the same transform again changes nothing.
    g.update_transform(EntityId(4), Mat4::IDENTITY);
    assert_eq!(g.revision(), 2);
    // Removing an unknown id changes nothing.
    assert!(g.remove(EntityId(99)).is_none());
    assert_eq!(g.revision(), 2);
}

#[test]
fn upsert_applies_stored_scale_to_fresh_arrow() {
    let mut g = Graph::default();
    let arrow = Arrow {
        origin: Vec3::ZERO,
        direction: Vec3::X,
        length: 2.0,
        shaft_radius: 0.2,
        head_radius: 0.4,
        color: WHITE,
    };
    g.upsert(entity(70, Prim::Arrows(vec![arrow.clone()])), apply);
    g.set_scale_override(EntityId(70), Some(1.0), apply);
    g.upsert(entity(70, Prim::Arrows(vec![arrow])), apply);
    match &g.entities[&70].primitive {
        Prim::Arrows(a) => {
            assert!((a[0].length - 1.0).abs() < 1e-6);
            assert!((a[0].shaft_radius - 0.1).abs() < 1e-6);
            assert!((a[0].head_radius - 0.2).abs() < 1e-6);
        }
        _ => unreachable!(),
    }
    let ov = &g.style_overrides[&70];
    assert_eq!(ov.scale, Some(1.0));
    assert!(ov.color.is_none());
    assert!(!ov.is_empty());
}

#[test]
fn override_on_unknown_entity_is_kept_for_later() {
    let mut g = Graph::default();
    g.set_color_override(EntityId(80), Some(BLUE), apply);
    assert!(g.style_overrides.contains_key(&80));
    assert!(!g.contains(EntityId(80)));
    g.upsert(
        entity(
            80,
            Prim::Points(vec![Point { position: Vec3::ZERO, color: WHITE, size: 1.0 }]),
        ),
        apply,
    );
    match &g.get(EntityId(80)).unwrap().primitive {
        Prim::Points(p) => assert_eq!(p[0].color, BLUE),
        _ => unreachable!(),
    }
}

#[test]
fn entity_builders_set_label_and_transform() {
    let t = Mat4::from_translation(Vec3::new(1.0, 2.0, 3.0));
    let e = entity(5, Prim::Points(vec![])).with_label("/scan").with_transform(t);
    assert_eq!(e.label.as_deref(), Some("/scan"));
    assert_eq!(e.transform, t);
    assert!(e.visible);
    assert!(e.dirty);
    assert_eq!(e.revision, 1);
    assert!(StyleOverride::<Color, f32>::none().is_empty());
}
