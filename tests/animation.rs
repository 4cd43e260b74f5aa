use mdl::animation::{interpolate, resolve_knobs, scan_config};
use mdl::directive::{Action, Directive, Point};
use mdl::error::ScriptError;
use mdl::material::Material;
use mdl::naming::{decimal_len, frame_name};
use mdl::num::{Num, Ratio};
use mdl::plan::plan;

fn n(v: i64) -> Num {
    Num::whole(v)
}

fn vary(knob: &str, start_frame: u32, end_frame: u32, start_value: i64, end_value: i64) -> Directive {
    Directive::Vary {
        knob: String::from(knob),
        start_frame,
        end_frame,
        start_value: n(start_value),
        end_value: n(end_value),
    }
}

fn sphere(material: Option<&str>, radius: i64) -> Directive {
    Directive::Sphere {
        material: material.map(String::from),
        center: Point { x: n(0), y: n(0), z: n(0) },
        radius: n(radius),
    }
}

/// Whether `r` is the rational `num / den`.
fn is_value(r: Ratio, num: i128, den: i128) -> bool {
    r.numer * den == num * (r.denom as i128)
}

#[test]
fn knob_linearity() {
    let ds = vec![Directive::Frames { count: 11 }, vary("k", 0, 10, 0, 100)];
    let p = plan(&ds).unwrap();
    let k = String::from("k");
    assert!(is_value(p.knobs.get(0, &k).unwrap(), 0, 1));
    assert!(is_value(p.knobs.get(5, &k).unwrap(), 50, 1));
    assert!(is_value(p.knobs.get(10, &k).unwrap(), 100, 1));
    for f in 0..11u32 {
        assert!(is_value(p.knobs.get(f, &k).unwrap(), 10 * f as i128, 1));
    }
    assert_eq!(p.frames.len(), 11);
}

#[test]
fn interpolation_is_exact() {
    // From 1/10 to 1/2 over frames 3..=7: frame 5 lies halfway, at 3/10.
    let r = interpolate(Num::new(1, 10), Num::new(1, 2), 3, 7, 5);
    assert!(is_value(r, 3, 10));
    assert_eq!(r.numer, 1 * 2 * 2 + 1 * 10 * 2);
    assert_eq!(r.denom, 10 * 2 * 4);
    // A third of the way from 0 to 1 is not a finite decimal, and stays exact.
    let r = interpolate(n(0), n(1), 0, 3, 1);
    assert!(is_value(r, 1, 3));
    // A range of one frame takes the start value.
    let r = interpolate(n(7), n(9), 4, 4, 4);
    assert!(is_value(r, 7, 1));
}

#[test]
fn interpolation_at_extremes_does_not_overflow() {
    let lo = Num::new(i64::MIN, u32::MAX);
    let hi = Num::new(i64::MAX, u32::MAX);
    let r = interpolate(lo, hi, 0, u32::MAX, u32::MAX);
    assert!(is_value(r, i64::MAX as i128, u32::MAX as i128));
    let r = interpolate(lo, hi, 0, u32::MAX, 0);
    assert!(is_value(r, i64::MIN as i128, u32::MAX as i128));
}

#[test]
fn vary_without_frames_renders_nothing() {
    let ds = vec![vary("k", 0, 2, 0, 1), sphere(None, 5)];
    assert!(matches!(plan(&ds), Err(ScriptError::VaryWithoutFrames)));
}

#[test]
fn inverted_frame_range() {
    let ds = vec![Directive::Frames { count: 11 }, vary("k", 5, 2, 0, 10)];
    assert!(matches!(plan(&ds), Err(ScriptError::InvertedFrameRange)));
    assert!(matches!(resolve_knobs(&ds, 11), Err(ScriptError::InvertedFrameRange)));
}

#[test]
fn vary_past_last_frame() {
    let ds = vec![Directive::Frames { count: 3 }, vary("k", 0, 3, 0, 10)];
    assert!(matches!(plan(&ds), Err(ScriptError::FrameOutOfRange)));
}

#[test]
fn first_failing_vary_decides() {
    let ds = vec![Directive::Frames { count: 3 }, vary("a", 0, 9, 0, 1), vary("b", 2, 1, 0, 1)];
    assert!(matches!(resolve_knobs(&ds, 3), Err(ScriptError::FrameOutOfRange)));
}

#[test]
fn later_vary_wins() {
    let ds = vec![Directive::Frames { count: 5 }, vary("k", 0, 4, 0, 40), vary("k", 2, 3, 100, 200)];
    let t = resolve_knobs(&ds, 5).unwrap();
    let k = String::from("k");
    assert!(is_value(t.get(1, &k).unwrap(), 10, 1));
    assert!(is_value(t.get(2, &k).unwrap(), 100, 1));
    assert!(is_value(t.get(3, &k).unwrap(), 200, 1));
    assert!(is_value(t.get(4, &k).unwrap(), 40, 1));
    assert_eq!(t.get(1, &String::from("other")), None);
    assert_eq!(t.frame_count(), 5);
}

#[test]
fn config_scan() {
    let ds = vec![
        Directive::Basename { stem: Some(String::from("first")) },
        Directive::Frames { count: 2 },
        Directive::Basename { stem: None },
        Directive::Frames { count: 7 },
        Directive::Basename { stem: Some(String::from("shot")) },
        vary("k", 0, 1, 0, 1),
    ];
    let c = scan_config(&ds);
    assert_eq!(c.frame_count, Some(7));
    assert_eq!(c.basename, "shot");
    assert!(c.vary_present);
    assert_eq!(c.stemless_basenames, 1);
}

#[test]
fn config_defaults() {
    let ds = vec![Directive::Basename { stem: None }, Directive::Display];
    let c = scan_config(&ds);
    assert_eq!(c.frame_count, None);
    assert_eq!(c.basename, "output");
    assert!(!c.vary_present);
    assert_eq!(c.stemless_basenames, 1);
}

#[test]
fn frame_names_are_zero_padded() {
    assert_eq!(frame_name(&String::from("anim"), 3, 11), "anim03");
    assert_eq!(frame_name(&String::from("anim"), 10, 11), "anim10");
    assert_eq!(frame_name(&String::from("anim"), 2, 3), "anim2");
    assert_eq!(frame_name(&String::from("a"), 7, 1000), "a007");
    assert_eq!(frame_name(&String::from("a"), 0, 1), "a0");
    assert_eq!(decimal_len(0), 1);
    assert_eq!(decimal_len(99), 2);
    assert_eq!(decimal_len(u32::MAX), 10);
}

#[test]
fn end_to_end_static() {
    let red = Material::from_constants(
        Num::new(1, 10),
        Num::new(5, 10),
        Num::new(5, 10),
        Num::new(1, 10),
        Num::new(5, 10),
        Num::new(5, 10),
        Num::new(1, 10),
        Num::new(5, 10),
        Num::new(5, 10),
    );
    let ds = vec![
        Directive::Constants { name: String::from("red"), coefficients: red },
        sphere(Some("red"), 50),
        Directive::Save { filename: String::from("out") },
    ];
    let p = plan(&ds).unwrap();
    assert_eq!(p.frames.len(), 1);
    let frame = &p.frames[0];
    assert_eq!(frame.output, None);
    assert_eq!(frame.actions.len(), 2);
    match &frame.actions[0] {
        Action::DrawMesh { material, .. } => assert_eq!(*material, red),
        _ => panic!("expected a mesh"),
    }
    let saves: Vec<&String> = frame
        .actions
        .iter()
        .filter_map(|a| match a {
            Action::Save { filename } => Some(filename),
            _ => None,
        })
        .collect();
    assert_eq!(saves, vec!["out"]);
}

#[test]
fn end_to_end_animation() {
    let ds = vec![
        Directive::Frames { count: 3 },
        Directive::Basename { stem: Some(String::from("basename")) },
        vary("spin", 0, 2, 0, 90),
        sphere(None, 20),
    ];
    let p = plan(&ds).unwrap();
    assert_eq!(p.frames.len(), 3);
    let names: Vec<String> = p.frames.iter().map(|f| f.output.clone().unwrap()).collect();
    assert_eq!(names, vec!["basename0", "basename1", "basename2"]);
    let spin = String::from("spin");
    for (f, expected) in [(0u32, 0i128), (1, 45), (2, 90)] {
        assert_eq!(p.frames[f as usize].index, f);
        assert_eq!(p.frames[f as usize].actions.len(), 1);
        assert!(is_value(p.knobs.get(f, &spin).unwrap(), expected, 1));
    }
}

#[test]
fn default_stem_names_frames() {
    let ds = vec![Directive::Frames { count: 2 }, sphere(None, 1)];
    let p = plan(&ds).unwrap();
    assert_eq!(p.frames[0].output.as_deref(), Some("output0"));
    assert_eq!(p.frames[1].output.as_deref(), Some("output1"));
}

#[test]
fn pass_failure_aborts_the_run() {
    let ds = vec![Directive::Frames { count: 2 }, sphere(Some("missing"), 1)];
    assert!(matches!(plan(&ds), Err(ScriptError::UnknownMaterial)));
}
