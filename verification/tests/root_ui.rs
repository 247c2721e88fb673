use nvimglsl::root_ui::adapter::{AdapterStats, FS, VERTEX_FLOATS, VS};
use nvimglsl::root_ui::language::{BoxKind, ColorIntent, Error, Semantic, FOUNDATION};
use nvimglsl::root_ui::output::{role_name, LineInput, SegmentInput};
use nvimglsl::run::{AnsiColor, Role, Stream};

#[test]
fn the_vertex_stride_matches_the_attribute_layout() {
    // pos2 + centre2 + half2 + params2 + fill4 + edge4 + uv2 + mode1
    assert_eq!(VERTEX_FLOATS, 2 + 2 + 2 + 3 + 4 + 4 + 2 + 1);
}

#[test]
fn the_fragment_shader_takes_its_derivative_in_uniform_control_flow() {
    let body = FS;
    let derivative = body.find("fwidth").expect("fwidth present");
    let branch = body.find("v_mode > 0.5").expect("mode select present");
    assert!(derivative < branch, "the derivative must precede the mode branch");
}

#[test]
fn the_vertex_shader_declares_every_attribute_of_the_stride() {
    for location in 0..8 {
        assert!(VS.contains(&format!("layout (location = {location})")));
    }
    assert!(!VS.contains("location = 8"));
    assert_eq!(AdapterStats::default().surfaces, 0);
    assert!(!AdapterStats::default().origin_off_grid);
}

#[test]
fn a_semantic_node_names_its_first_blank_field() {
    assert_eq!(Semantic::new("Dialog", "surface", "open").check(), Ok(()));
    assert_eq!(
        Semantic::new("  ", "surface", "").check(),
        Err(Error::Semantic("name".to_string()))
    );
    assert_eq!(
        Semantic::new("Dialog", "\t", "").check(),
        Err(Error::Semantic("variant".to_string()))
    );
    assert_eq!(
        Semantic::new("Dialog", "surface", " \n").check(),
        Err(Error::Semantic("state".to_string()))
    );
    assert_eq!(
        Error::Semantic("state".to_string()).message(),
        "semantic node is incomplete: state"
    );
    assert_eq!(
        Error::Range("layout.bounds".to_string()).message(),
        "layout.bounds must be within the normalized range 0..1"
    );
    assert_eq!(
        Error::UnknownScheme("solarized".to_string()).message(),
        "unknown user color scheme: solarized"
    );
    assert_eq!(
        Error::MissingRole("accent".to_string()).message(),
        "scheme does not define color role: accent"
    );
}

#[test]
fn box_kinds_and_colour_roles_keep_their_names() {
    assert_eq!(BoxKind::Box.as_str(), "box");
    assert_eq!(BoxKind::RoundBox.as_str(), "round-box");
    let intent = ColorIntent::new("surface", "outline");
    assert_eq!(intent.fill_role, "surface");
    assert_eq!(intent.stroke_role, "outline");
    assert_eq!(FOUNDATION, "root-ui-semantic-source-basis");
}

#[test]
fn an_output_segment_takes_its_colour_before_its_stream() {
    let plain = Role { stream: Stream::Stdout, color: None, bold: false };
    let err = Role { stream: Stream::Stderr, color: None, bold: false };
    let red = Role { stream: Stream::Stderr, color: Some(AnsiColor::Red), bold: true };
    let bright = Role { stream: Stream::Stdout, color: Some(AnsiColor::BrightCyan), bold: false };
    assert_eq!(role_name(plain), "stdout");
    assert_eq!(role_name(err), "stderr");
    assert_eq!(role_name(red), "red");
    assert_eq!(role_name(bright), "bright_cyan");
    let line = LineInput { segments: vec![SegmentInput { text: "ok".to_string(), role: plain }] };
    assert_eq!(line.segments[0].text, "ok");
    assert!(LineInput::default().segments.is_empty());
}
