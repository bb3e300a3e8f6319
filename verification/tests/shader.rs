use trixie::shader::{
    dispatch_command, dispatch_command_with_registry, full_fragment_source, strip_reserved,
    validate_glsl_source, BeginPlan, IpcCommand, IpcResponse, Pass, ShaderEntry, ShaderPass,
    ShaderRegistry, Uniform,
};

fn entry(name: &str, enabled: bool) -> ShaderEntry {
    ShaderEntry {
        name: name.to_string(),
        enabled,
        path: format!("/shaders/{name}.glsl"),
        source: "void main() { fragColor = vec4(1.0); }".to_string(),
        uniforms: Vec::new(),
        last_modified: Some(10),
    }
}

fn registry() -> ShaderRegistry {
    ShaderRegistry { entries: vec![entry("crt", false), entry("blur", true), entry("crt", true)] }
}

fn states(r: &ShaderRegistry) -> Vec<bool> {
    r.entries.iter().map(|e| e.enabled).collect()
}

#[test]
fn source_check() {
    assert_eq!(validate_glsl_source("void main() { fragColor = x; }"), Ok(()));
    assert_eq!(validate_glsl_source("void main () { fragColor = x; }"), Ok(()));
    assert_eq!(
        validate_glsl_source("void main(void) { fragColor = x; }"),
        Err("missing 'void main()' entry point".to_string())
    );
    assert_eq!(
        validate_glsl_source("void main() { gl_FragColor = x; }"),
        Err("missing write to 'fragColor'".to_string())
    );
    assert_eq!(validate_glsl_source(""), Err("missing 'void main()' entry point".to_string()));
}

#[test]
fn preamble_comes_first() {
    let full = full_fragment_source("void main() {}");
    assert!(full.starts_with("\n#version 300 es\nprecision mediump float;\nuniform sampler2D u_tex;\n"));
    assert!(full.ends_with("out vec4 fragColor;\n\nvoid main() {}"));
    assert!(full.contains("uniform vec2      u_mouse;\nin  vec2 v_uv;"));
}

#[test]
fn reserved_uniforms_are_stripped() {
    let u = |n: &str, b: u32| Uniform { name: n.to_string(), bits: b };
    let kept = strip_reserved(vec![
        u("u_time", 1),
        u("curvature", 2),
        u("u_tex", 3),
        u("u_mouse", 4),
        u("u_resolution", 5),
        u("u_times", 6),
    ]);
    let names: Vec<(&str, u32)> = kept.iter().map(|k| (k.name.as_str(), k.bits)).collect();
    assert_eq!(names, vec![("curvature", 2), ("u_times", 6)]);
}

#[test]
fn toggle_and_set() {
    let mut r = registry();
    assert!(r.any_active());
    assert_eq!(r.enabled(), vec![1, 2]);
    assert_eq!(r.position("blur"), Some(1));
    // the first shader of the name is meant
    assert_eq!(r.toggle("crt"), Some(true));
    assert_eq!(states(&r), vec![true, true, true]);
    assert_eq!(r.toggle("crt"), Some(false));
    assert_eq!(r.toggle("nope"), None);
    assert_eq!(r.set_enabled("blur", false), Some(()));
    assert_eq!(r.set_enabled("nope", true), None);
    assert_eq!(states(&r), vec![false, false, true]);
    r.set_enabled("crt", false);
    r.entries[2].enabled = false;
    assert!(!r.any_active());
    assert!(r.enabled().is_empty());
}

#[test]
fn staleness_and_reload() {
    let mut e = entry("crt", true);
    assert!(!e.is_stale(None));
    assert!(!e.is_stale(Some(10)));
    assert!(e.is_stale(Some(11)));
    assert!(!e.needs_read(Some(10)));
    assert!(e.needs_read(Some(11)));
    assert!(e.needs_read(None));
    assert!(!e.reload(Some(11), e.source.clone()));
    assert_eq!(e.last_modified, Some(11));
    assert!(e.reload(Some(12), "void main() {}".to_string()));
    assert_eq!(e.source, "void main() {}");
    e.last_modified = None;
    assert!(e.is_stale(Some(0)));
}

#[test]
fn commands() {
    let mut r = registry();
    let mut recompile = vec!["old".to_string()];
    let resp = dispatch_command_with_registry(IpcCommand::List, &mut r, vec![], &mut recompile);
    assert!(matches!(&resp, IpcResponse::Shaders { ok: true, shaders }
        if shaders.len() == 3 && shaders[1].name == "blur" && shaders[1].enabled
            && shaders[1].path == "/shaders/blur.glsl"));
    let toggle = IpcCommand::Toggle { name: "crt".into() };
    let resp = dispatch_command_with_registry(toggle.clone(), &mut r, vec![], &mut recompile);
    assert!(matches!(&resp, IpcResponse::Shaders { ok: true, shaders } if shaders[0].enabled));
    let resp = dispatch_command_with_registry(toggle, &mut r, vec![], &mut recompile);
    assert!(matches!(&resp, IpcResponse::Shaders { ok: true, shaders } if !shaders[0].enabled));
    let resp = dispatch_command_with_registry(
        IpcCommand::Enable { name: "foo".into() },
        &mut r,
        vec![],
        &mut recompile,
    );
    assert!(matches!(&resp, IpcResponse::Error { ok: false, error } if error == "shader 'foo' not found"));
    dispatch_command_with_registry(IpcCommand::Disable { name: "blur".into() }, &mut r, vec![], &mut recompile);
    dispatch_command_with_registry(IpcCommand::Enable { name: "crt".into() }, &mut r, vec![], &mut recompile);
    assert_eq!(states(&r), vec![true, false, true]);
    assert_eq!(recompile, vec!["old".to_string()]);
    let resp = dispatch_command_with_registry(
        IpcCommand::Reload,
        &mut r,
        vec!["crt".to_string()],
        &mut recompile,
    );
    assert!(matches!(&resp, IpcResponse::Shaders { ok: true, .. }));
    assert_eq!(recompile, vec!["old".to_string(), "crt".to_string()]);
    assert!(matches!(dispatch_command(IpcCommand::List), IpcResponse::Error { ok: false, ref error }
        if error == "internal: dispatch called without registry context"));
    assert!(matches!(IpcResponse::err("x"), IpcResponse::Error { ok: false, ref error } if error == "x"));
}

#[test]
fn passes_ping_and_pong() {
    let r = ShaderRegistry {
        entries: vec![entry("a", true), entry("b", false), entry("c", true), entry("d", true)],
    };
    let mut p = ShaderPass::new();
    assert_eq!(p.sync_programs(&r), vec![0, 1, 2, 3]);
    p.compiled_shader("a", true);
    p.compiled_shader("b", true);
    p.compiled_shader("c", false);
    p.compiled_shader("d", true);
    assert_eq!(p.sync_programs(&r), vec![2]);
    let (passes, last) = p.end(&r);
    assert_eq!(
        passes,
        vec![Pass { entry: 0, src: 0, dst: 1 }, Pass { entry: 3, src: 1, dst: 0 }]
    );
    assert_eq!(last, 0);
    p.compiled_shader("c", true);
    let (passes, last) = p.end(&r);
    assert_eq!(passes.len(), 3);
    assert_eq!(last, 1);
    // a failed recompile takes the program away
    p.compiled_shader("a", false);
    assert_eq!(p.end(&r).0[0], Pass { entry: 2, src: 0, dst: 1 });
    // nothing enabled: the picture stays in buffer 0
    assert_eq!(ShaderPass::new().end(&r), (vec![], 0));
}

#[test]
fn buffers_follow_the_viewport() {
    let on = ShaderRegistry { entries: vec![entry("a", true)] };
    let off = ShaderRegistry { entries: vec![entry("a", false)] };
    let mut p = ShaderPass::new();
    assert_eq!(p.begin(800, 600, &off), BeginPlan::Inactive);
    assert_eq!(p.begin(800, 600, &on), BeginPlan::Reallocate);
    assert!(p.allocated(800, 600, true));
    assert_eq!(p.begin(800, 600, &on), BeginPlan::Reuse);
    assert_eq!(p.begin(801, 600, &on), BeginPlan::Reallocate);
    assert!(!p.allocated(801, 600, false));
    assert_eq!(p.begin(800, 600, &on), BeginPlan::Reallocate);
}

#[test]
fn toggle_switches_the_pass_on_and_off() {
    let mut r = ShaderRegistry { entries: vec![entry("crt", false)] };
    let mut recompile = Vec::new();
    let p = ShaderPass::new();
    assert_eq!(p.begin(1920, 1080, &r), BeginPlan::Inactive);
    let toggle = IpcCommand::Toggle { name: "crt".into() };
    let resp = dispatch_command_with_registry(toggle.clone(), &mut r, vec![], &mut recompile);
    assert!(matches!(&resp, IpcResponse::Shaders { ok: true, shaders }
        if shaders.len() == 1 && shaders[0].name == "crt" && shaders[0].enabled));
    assert!(r.any_active());
    assert_ne!(p.begin(1920, 1080, &r), BeginPlan::Inactive);
    let resp = dispatch_command_with_registry(toggle, &mut r, vec![], &mut recompile);
    assert!(matches!(&resp, IpcResponse::Shaders { ok: true, shaders } if !shaders[0].enabled));
    assert!(!r.any_active());
    assert_eq!(p.begin(1920, 1080, &r), BeginPlan::Inactive);
}
