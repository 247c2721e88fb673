//! The shader program that draws root-ui flat scenes over the grid: its
//! vertex layout and sources. The host's GL context compiles them.

use vstd::prelude::*;

verus! {

/// pos.xy, rect centre.xy, half extents.xy, (radius, stroke, softness),
/// fill.rgba, stroke.rgba, uv.xy, mode.
pub const VERTEX_FLOATS: usize = 20;

pub const VS: &'static str = r#"#version 330 core
layout (location = 0) in vec2 a_pos;
layout (location = 1) in vec2 a_center;
layout (location = 2) in vec2 a_half;
layout (location = 3) in vec3 a_params;
layout (location = 4) in vec4 a_fill;
layout (location = 5) in vec4 a_edge;
layout (location = 6) in vec2 a_uv;
layout (location = 7) in float a_mode;
uniform vec2 u_screen;
out vec2 v_local;
out vec2 v_half;
out vec3 v_params;
out vec4 v_fill;
out vec4 v_edge;
out vec2 v_uv;
out float v_mode;
void main() {
    vec2 ndc = vec2(a_pos.x / u_screen.x * 2.0 - 1.0,
                    1.0 - a_pos.y / u_screen.y * 2.0);
    gl_Position = vec4(ndc, 0.0, 1.0);
    v_local = a_pos - a_center;
    v_half = a_half;
    v_params = a_params;
    v_fill = a_fill;
    v_edge = a_edge;
    v_uv = a_uv;
    v_mode = a_mode;
}
"#;

/// Both branches are evaluated before the mode is selected, so that `fwidth`
/// is never reached through non-uniform control flow, where its result is
/// undefined.
pub const FS: &'static str = r#"#version 330 core
in vec2 v_local;
in vec2 v_half;
in vec3 v_params;
in vec4 v_fill;
in vec4 v_edge;
in vec2 v_uv;
in float v_mode;
out vec4 frag;
uniform sampler2D u_atlas;

float sd_round_box(vec2 p, vec2 b, float r) {
    vec2 q = abs(p) - b + vec2(r);
    return min(max(q.x, q.y), 0.0) + length(max(q, vec2(0.0))) - r;
}

void main() {
    float d = sd_round_box(v_local, v_half, v_params.x);
    // Softness widens the edge instead of adding a second shape: a shadow is
    // the same rounded-box field with a longer fade, so it cannot drift out of
    // agreement with the box it belongs to.
    float aa = max(max(fwidth(d), 1e-4), v_params.z);
    float coverage = 1.0 - smoothstep(-aa, aa, d);
    float stroke = v_params.y;
    float ring = stroke > 0.0
        ? 1.0 - smoothstep(-aa, aa, abs(d + stroke * 0.5) - stroke * 0.5)
        : 0.0;
    vec4 shape = mix(vec4(v_fill.rgb, v_fill.a * coverage),
                     vec4(v_edge.rgb, v_edge.a * ring), ring);
    float ink = texture(u_atlas, v_uv).r;
    frag = v_mode > 0.5 ? vec4(v_fill.rgb, v_fill.a * ink) : shape;
}
"#;

/// What one adapter pass emitted. Counts, not judgements.
#[derive(Clone, Copy, Default, Debug, PartialEq, Eq, Structural)]
pub struct AdapterStats {
    pub surfaces: usize,
    pub round_boxes: usize,
    pub shadows: usize,
    pub glyph_quads: usize,
    /// True when at least one surface origin is not on a cell boundary, which
    /// is the observable difference between this and a grid-addressed window.
    pub origin_off_grid: bool,
}

} // verus!
