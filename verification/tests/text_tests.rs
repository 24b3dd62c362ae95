use fastviz::cli::{parse_args, Args, CliOutcome, HELP_TEXT};
use fastviz::text::{chars_of, is_whitespace, parse_u32, push_char, push_decimal, push_str, str_eq, string_of};
use fastviz::theme::{mode_from_saved, trim, Mode};

fn argv(v: &[&str]) -> Vec<String> {
    v.iter().map(|s| s.to_string()).collect()
}

fn run(v: &[&str]) -> Args {
    match parse_args(&argv(v)) {
        CliOutcome::Run(a) => a,
        _ => panic!("expected a run"),
    }
}

#[test]
fn cli_defaults() {
    let a = run(&[]);
    assert!(!a.mock);
    assert_eq!(a.ref_frame, "map");
    assert_eq!(a.config, None);
    assert_eq!(a.urdf, None);
    assert_eq!((a.width, a.height), (1280, 800));
}

#[test]
fn cli_flags_and_values() {
    let a = run(&["--mock", "--ref-frame", "odom", "--config", "viz.toml", "--width", "640", "--height", "+480"]);
    assert!(a.mock);
    assert_eq!(a.ref_frame, "odom");
    assert_eq!(a.config.as_deref(), Some("viz.toml"));
    assert_eq!((a.width, a.height), (640, 480));
    let a = run(&["--mock", "--no-mock", "--width", "wide"]);
    assert!(!a.mock);
    assert_eq!(a.width, 1280);
    // A trailing size flag without a value is ignored.
    assert_eq!(run(&["--height"]).height, 800);
}

#[test]
fn cli_errors_and_help() {
    assert!(matches!(parse_args(&argv(&["--ref-frame"])), CliOutcome::MissingValue(f) if f == "--ref-frame"));
    assert!(matches!(parse_args(&argv(&["--config"])), CliOutcome::MissingValue(f) if f == "--config"));
    assert!(matches!(parse_args(&argv(&["--bogus", "--help"])), CliOutcome::Unknown(f) if f == "--bogus"));
    assert!(matches!(parse_args(&argv(&["--mock", "-h", "--bogus"])), CliOutcome::Help));
    assert!(HELP_TEXT.contains("--ref-frame FRAME"));
    assert!(matches!(parse_args(&argv(&["--urdf"])), CliOutcome::MissingValue(f) if f == "--urdf"));
}

#[test]
fn cli_urdf_path() {
    let a = run(&["--urdf", "/tmp/robot.urdf"]);
    assert_eq!(a.urdf.as_deref(), Some("/tmp/robot.urdf"));
    assert_eq!(a.config, None);
    assert!(HELP_TEXT.contains("[--urdf PATH]"));
}

#[test]
fn parse_u32_matches_std() {
    for s in ["0", "42", "+7", "4294967295", "4294967296", "", "+", "-1", "1 ", "12a", "99999999999999999999"] {
        assert_eq!(parse_u32(s), s.parse::<u32>().ok(), "input {s:?}");
    }
}

#[test]
fn theme_mode_round_trip() {
    assert_eq!(Mode::Dark.toggled(), Mode::Light);
    assert_eq!(Mode::Light.toggled().toggled(), Mode::Light);
    assert_eq!(Mode::Dark.as_str(), "dark");
    assert_eq!(Mode::from_str(" light\n"), Some(Mode::Light));
    assert_eq!(Mode::from_str("Light"), None);
    assert_eq!(mode_from_saved(Some("light\n")), Mode::Light);
    assert_eq!(mode_from_saved(Some("purple")), Mode::Dark);
    assert_eq!(mode_from_saved(None), Mode::Dark);
    for m in [Mode::Dark, Mode::Light] {
        let saved = format!("{}\n", m.as_str());
        assert_eq!(mode_from_saved(Some(saved.as_str())), m);
    }
}

#[test]
fn trim_matches_std() {
    for s in ["", "  a b  ", "\t\n x\u{3000}", "\u{85}y\u{2029}", "none"] {
        assert_eq!(trim(s), s.trim(), "input {s:?}");
    }
}

#[test]
fn string_helpers() {
    assert!(str_eq("abc", "abc"));
    assert!(!str_eq("abc", "abd"));
    assert_eq!(chars_of("héllo"), vec!['h', 'é', 'l', 'l', 'o']);
    assert_eq!(string_of(&vec!['a', 'b', 'c', 'd'], 1, 3), "bc");
    let mut s = String::new();
    push_char(&mut s, 'x');
    push_str(&mut s, "-y-");
    push_decimal(&mut s, -120);
    push_decimal(&mut s, 0);
    push_decimal(&mut s, i32::MIN);
    assert_eq!(s, format!("x-y--1200{}", i32::MIN));
    for c in [' ', '\t', '\u{a0}', '\u{2028}', 'a', '0', '\u{200b}'] {
        assert_eq!(is_whitespace(c), c.is_whitespace(), "char {c:?}");
    }
}
