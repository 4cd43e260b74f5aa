use mdl::directive::{Action, Directive, Point};
use mdl::error::ScriptError;
use mdl::literal::{parse_num, parse_uint};
use mdl::material::{Material, Rgb};
use mdl::num::Num;
use mdl::parser::{parse_script, parse_tokens};
use mdl::plan::plan;
use mdl::split::split;

fn toks(line: &str) -> Vec<String> {
    split(line, false)
}

#[test]
fn decimal_literals() {
    assert_eq!(parse_num("0.1"), Ok(Num::new(1, 10)));
    assert_eq!(parse_num("-3.25"), Ok(Num::new(-325, 100)));
    assert_eq!(parse_num("50"), Ok(Num::new(50, 1)));
    assert_eq!(parse_num("1."), Ok(Num::new(1, 1)));
    assert_eq!(parse_num(".5"), Ok(Num::new(5, 10)));
    assert_eq!(parse_num("-0"), Ok(Num::new(0, 1)));
    assert_eq!(parse_num("9223372036854775807"), Ok(Num::new(i64::MAX, 1)));
    assert_eq!(parse_num("-9223372036854775807"), Ok(Num::new(-i64::MAX, 1)));
    assert_eq!(parse_num("0.123456789"), Ok(Num::new(123456789, 1_000_000_000)));
}

#[test]
fn malformed_decimal_literals() {
    for bad in ["", "-", ".", "-.", "abc", "1.2.3", "1e5", "+1", "--1", "1-", "9223372036854775808", "0.0000000001"] {
        assert_eq!(parse_num(bad), Err(ScriptError::ParseFailure), "{}", bad);
    }
}

#[test]
fn unsigned_literals() {
    assert_eq!(parse_uint("0"), Ok(0));
    assert_eq!(parse_uint("11"), Ok(11));
    assert_eq!(parse_uint("4294967295"), Ok(u32::MAX));
    for bad in ["", "4294967296", "-1", "1.0", "x", "99999999999999999999"] {
        assert_eq!(parse_uint(bad), Err(ScriptError::ParseFailure), "{}", bad);
    }
}

#[test]
fn splitting_into_tokens_and_lines() {
    assert_eq!(split("  move 1\t2  3 ", false), vec!["move", "1", "2", "3"]);
    assert_eq!(split("", false), Vec::<String>::new());
    assert_eq!(split("a\n\nb c\n", true), vec!["a", "b c"]);
}

#[test]
fn directive_lines() {
    assert!(matches!(parse_tokens(&toks("push")), Ok(Directive::Push)));
    assert!(matches!(parse_tokens(&toks("pop")), Ok(Directive::Pop)));
    assert!(matches!(parse_tokens(&toks("display")), Ok(Directive::Display)));
    match parse_tokens(&toks("move 1 -2 0.5")) {
        Ok(Directive::Move { dx, dy, dz }) => {
            assert_eq!((dx, dy, dz), (Num::new(1, 1), Num::new(-2, 1), Num::new(5, 10)));
        }
        _ => panic!("expected move"),
    }
    match parse_tokens(&toks("rotate y 45")) {
        Ok(Directive::Rotate { axis, degrees }) => {
            assert_eq!(axis, "y");
            assert_eq!(degrees, Num::new(45, 1));
        }
        _ => panic!("expected rotate"),
    }
    match parse_tokens(&toks("sphere 1 2 3 4")) {
        Ok(Directive::Sphere { material, center, radius }) => {
            assert_eq!(material, None);
            assert_eq!(center, Point { x: Num::new(1, 1), y: Num::new(2, 1), z: Num::new(3, 1) });
            assert_eq!(radius, Num::new(4, 1));
        }
        _ => panic!("expected sphere"),
    }
    match parse_tokens(&toks("box shiny 0 0 0 1 2 3")) {
        Ok(Directive::Cuboid { material, width, height, depth, .. }) => {
            assert_eq!(material.as_deref(), Some("shiny"));
            assert_eq!((width, height, depth), (Num::new(1, 1), Num::new(2, 1), Num::new(3, 1)));
        }
        _ => panic!("expected box"),
    }
    match parse_tokens(&toks("torus 0 0 0 5 20")) {
        Ok(Directive::Torus { material, tube_radius, ring_radius, .. }) => {
            assert_eq!(material, None);
            assert_eq!((tube_radius, ring_radius), (Num::new(5, 1), Num::new(20, 1)));
        }
        _ => panic!("expected torus"),
    }
    match parse_tokens(&toks("vary spin 0 10 0 360")) {
        Ok(Directive::Vary { knob, start_frame, end_frame, start_value, end_value }) => {
            assert_eq!(knob, "spin");
            assert_eq!((start_frame, end_frame), (0, 10));
            assert_eq!((start_value, end_value), (Num::new(0, 1), Num::new(360, 1)));
        }
        _ => panic!("expected vary"),
    }
    assert!(matches!(parse_tokens(&toks("frames 11")), Ok(Directive::Frames { count: 11 })));
    assert!(matches!(parse_tokens(&toks("basename")), Ok(Directive::Basename { stem: None })));
    assert!(matches!(parse_tokens(&toks("basename shot")), Ok(Directive::Basename { stem: Some(s) }) if s == "shot"));
    assert!(matches!(parse_tokens(&toks("save out.png")), Ok(Directive::Save { filename }) if filename == "out.png"));
    assert!(matches!(parse_tokens(&toks("mesh :teapot")), Ok(Directive::Unsupported { kind }) if kind == "mesh"));
}

#[test]
fn malformed_directive_lines() {
    for bad in [
        "push 1",
        "move 1 2",
        "move 1 2 x",
        "rotate x",
        "rotate x many",
        "sphere 1 2 3",
        "sphere a b 1 2 3 4",
        "box 1 2 3 4 5",
        "torus m 0 0 0 5",
        "line 0 0 0 1 1",
        "save",
        "frames",
        "frames -3",
        "frames 2.5",
        "basename a b",
        "vary k 0 10 0",
        "vary k 0 ten 0 1",
        "constants red 0.1 0.5 0.5 0.1 0.5 0.5 0.1 0.5",
    ] {
        assert!(matches!(parse_tokens(&toks(bad)), Err(ScriptError::ParseFailure)), "{}", bad);
    }
}

#[test]
fn end_to_end_static_script() {
    let text = "constants red 0.1 0.5 0.5 0.1 0.5 0.5 0.1 0.5 0.5\nsphere red 0 0 0 50\nsave out";
    let ds = parse_script(text).unwrap();
    assert_eq!(ds.len(), 4);
    assert!(matches!(ds[3], Directive::End));
    let p = plan(&ds).unwrap();
    assert_eq!(p.frames.len(), 1);
    assert_eq!(p.frames[0].output, None);
    let red = Material::new(
        Rgb { red: Num::new(1, 10), green: Num::new(1, 10), blue: Num::new(1, 10) },
        Rgb { red: Num::new(5, 10), green: Num::new(5, 10), blue: Num::new(5, 10) },
        Rgb { red: Num::new(5, 10), green: Num::new(5, 10), blue: Num::new(5, 10) },
    );
    let actions = &p.frames[0].actions;
    assert_eq!(actions.len(), 2);
    assert!(matches!(&actions[0], Action::DrawMesh { material, .. } if *material == red));
    assert!(matches!(&actions[1], Action::Save { filename } if filename == "out"));
}

#[test]
fn end_to_end_animation_script() {
    let text = "frames 3\nbasename basename\nvary k 0 2 0 1\nsphere 0 0 0 10\n";
    let ds = parse_script(text).unwrap();
    let p = plan(&ds).unwrap();
    let names: Vec<String> = p.frames.iter().map(|f| f.output.clone().unwrap()).collect();
    assert_eq!(names, vec!["basename0", "basename1", "basename2"]);
    let k = String::from("k");
    for f in 0..3u32 {
        let v = p.knobs.get(f, &k).unwrap();
        assert_eq!(v.numer * 2, f as i128 * v.denom as i128);
        assert_eq!(p.frames[f as usize].actions.len(), 1);
    }
}

#[test]
fn script_with_blank_lines_and_a_bad_line() {
    let ds = parse_script("\n  \npush\n\n  pop  \n").unwrap();
    assert_eq!(ds.len(), 3);
    assert!(matches!(ds[0], Directive::Push));
    assert!(matches!(ds[1], Directive::Pop));
    assert!(matches!(parse_script("push\nmove 1 2\n"), Err(ScriptError::ParseFailure)));
    let ds = parse_script("").unwrap();
    assert_eq!(ds.len(), 1);
}
