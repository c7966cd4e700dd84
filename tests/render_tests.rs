use nix_diff::{
    parse_derivation_string, ColorMode, DiffContext, DiffLine, DiffOrientation, FileStore,
    Renderer, TextDiff,
};

fn render_pair(a: &str, b: &str, renderer: &Renderer) -> Vec<u8> {
    let d1 = parse_derivation_string(a).unwrap();
    let d2 = parse_derivation_string(b).unwrap();
    let mut ctx = DiffContext::new(DiffOrientation::Line, 3, FileStore::new(), FileStore::new());
    let diff = ctx.diff_derivations(b"a", b"b", &d1, &d2);
    renderer.render(&diff)
}

const A: &str = r#"Derive([],[],[],"x86_64-linux","/bin/sh",[],[("k","v")])"#;
const B: &str = r#"Derive([],[],[],"aarch64-linux","/bin/sh",[],[("k","v"),("n","1")])"#;

#[test]
fn plain_rendering_of_changed_fields() {
    let r = Renderer::new(ColorMode::Never, 3, false, true);
    let out = render_pair(A, B, &r);
    let expected = "Platform:\n  - x86_64-linux\n  + aarch64-linux\nEnvironment:\n  n:\n    + 1\n";
    assert_eq!(String::from_utf8(out).unwrap(), expected);
}

#[test]
fn identical_derivations_get_a_notice() {
    let r = Renderer::new(ColorMode::Never, 3, false, false);
    let out = render_pair(A, A, &r);
    assert_eq!(out, b"The derivations are identical.\n".to_vec());
}

#[test]
fn colored_rendering_wraps_sections_and_values() {
    let r = Renderer::new(ColorMode::Always, 3, false, false);
    let out = render_pair(A, B, &r);
    let expected = "\x1b[1mPlatform:\x1b[0m\n  \x1b[31m- x86_64-linux\x1b[0m\n  \x1b[32m+ aarch64-linux\x1b[0m\n\x1b[1mEnvironment:\x1b[0m\n  n:\n    \x1b[32m+ 1\x1b[0m\n";
    assert_eq!(String::from_utf8(out).unwrap(), expected);
}

#[test]
fn no_color_signal_overrides_always() {
    let r = Renderer::new(ColorMode::Always, 3, true, true);
    let out = render_pair(A, B, &r);
    assert!(!out.contains(&0x1b));
}

#[test]
fn never_mode_has_no_escapes_regardless_of_signal() {
    for signal in [false, true] {
        let r = Renderer::new(ColorMode::Never, 3, signal, true);
        let out = render_pair(A, B, &r);
        assert!(!out.contains(&0x1b));
    }
}

#[test]
fn always_mode_without_signal_has_escapes() {
    let r = Renderer::new(ColorMode::Always, 3, false, false);
    let out = render_pair(A, B, &r);
    assert!(out.contains(&0x1b));
}

#[test]
fn auto_mode_colors_only_a_terminal() {
    let tty = Renderer::new(ColorMode::Auto, 3, false, true);
    assert!(render_pair(A, B, &tty).contains(&0x1b));
    let pipe = Renderer::new(ColorMode::Auto, 3, false, false);
    assert!(!render_pair(A, B, &pipe).contains(&0x1b));
}

fn ctx_line(s: &str) -> DiffLine {
    DiffLine::Context(s.as_bytes().to_vec())
}

#[test]
fn leading_context_is_cut_to_the_last_lines() {
    let r = Renderer::new(ColorMode::Never, 2, false, false);
    let diff = TextDiff::Text(vec![
        ctx_line("c1\n"),
        ctx_line("c2\n"),
        ctx_line("c3\n"),
        ctx_line("c4\n"),
        DiffLine::Added(b"new\n".to_vec()),
        ctx_line("c5\n"),
        ctx_line("c6\n"),
        ctx_line("c7\n"),
        ctx_line("c8\n"),
    ]);
    let mut out = Vec::new();
    r.format_text_diff(&mut out, &diff, 0);
    let expected = "  c3\n  c4\n+ new\n  c5\n  c6\n  c7\n  c8\n";
    assert_eq!(String::from_utf8(out).unwrap(), expected);
}

#[test]
fn short_leading_context_is_shown_whole() {
    let r = Renderer::new(ColorMode::Never, 3, false, false);
    let diff = TextDiff::Text(vec![ctx_line("c1\n"), DiffLine::Removed(b"old\n".to_vec())]);
    let mut out = Vec::new();
    r.format_text_diff(&mut out, &diff, 2);
    assert_eq!(String::from_utf8(out).unwrap(), "    c1\n  - old\n");
}

#[test]
fn binary_content_renders_a_notice() {
    let r = Renderer::new(ColorMode::Never, 3, false, false);
    let mut out = Vec::new();
    r.format_text_diff(&mut out, &TextDiff::Binary, 4);
    assert_eq!(String::from_utf8(out).unwrap(), "    Binary files differ\n");
}

#[test]
fn arguments_render_with_position_and_line_diff() {
    let a = r#"Derive([],[],[],"x","y",["-c","one\ntwo\n"],[])"#;
    let b = r#"Derive([],[],[],"x","y",["-c","one\nthree\n"],[])"#;
    let r = Renderer::new(ColorMode::Never, 3, false, false);
    let out = render_pair(a, b, &r);
    let expected = "Arguments:\n  Argument 1:\n      one\n    - two\n    + three\n";
    assert_eq!(String::from_utf8(out).unwrap(), expected);
}

#[test]
fn argument_positions_above_nine_render_in_decimal() {
    let a = r#"Derive([],[],[],"x","y",["0","1","2","3","4","5","6","7","8","9","10","11"],[])"#;
    let b = r#"Derive([],[],[],"x","y",["0","1","2","3","4","5","6","7","8","9","10","changed"],[])"#;
    let r = Renderer::new(ColorMode::Never, 3, false, false);
    let out = render_pair(a, b, &r);
    let expected = "Arguments:\n  Argument 11:\n    - 11\n    + changed\n";
    assert_eq!(String::from_utf8(out).unwrap(), expected);
}

#[test]
fn outputs_and_inputs_render() {
    let a = r#"Derive([("out","/s/o1","","")],[("/s/h-gone.drv",["out"])],["/s/src"],"x","y",[],[])"#;
    let b = r#"Derive([("out","/s/o2","","")],[("/s/h-new.drv",["out"])],[],"x","y",[],[])"#;
    let r = Renderer::new(ColorMode::Never, 3, false, false);
    let out = render_pair(a, b, &r);
    let expected = "Outputs:\n  Output 'out':\n    Path:\n      - /s/o1\n      + /s/o2\nSources:\n  - /s/src\nInput derivations:\n  - /s/h-gone.drv\n  + /s/h-new.drv\n";
    assert_eq!(String::from_utf8(out).unwrap(), expected);
}

#[test]
fn nested_diffs_are_indented() {
    let sub1 = r#"Derive([],[],[],"x","b1",[],[])"#;
    let sub2 = r#"Derive([],[],[],"x","b2",[],[])"#;
    let top = r#"Derive([],[("/s/dep.drv",["out"])],[],"x","y",[],[])"#;
    let mut f1 = FileStore::new();
    f1.insert(b"/s/dep.drv".to_vec(), sub1.as_bytes().to_vec());
    let mut f2 = FileStore::new();
    f2.insert(b"/s/dep.drv".to_vec(), sub2.as_bytes().to_vec());
    let d = parse_derivation_string(top).unwrap();
    let mut ctx = DiffContext::new(DiffOrientation::Line, 3, f1, f2);
    let diff = ctx.diff_derivations(b"t1", b"t2", &d, &d);
    let r = Renderer::new(ColorMode::Never, 3, false, false);
    let out = r.render(&diff);
    let expected = "Input derivations:\n  ~ /s/dep.drv\n    Builder:\n      - b1\n      + b2\n";
    assert_eq!(String::from_utf8(out).unwrap(), expected);
}
