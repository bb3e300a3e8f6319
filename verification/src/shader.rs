//! Post-processing shaders: the registry of shader entries, its control
//! commands, and the plan of the ping-pong passes of one frame.

use crate::text::{chars_of, contains_chars, occurs, push_chars, str_eq};
use vstd::prelude::*;

verus! {

// ── source check ─────────────────────────────────────────────────────────────

/// A fragment source has an entry point.
pub open spec fn has_main(source: Seq<char>) -> bool {
    occurs(source, "void main()"@) || occurs(source, "void main ()"@)
}

/// A fragment source writes its output.
pub open spec fn writes_color(source: Seq<char>) -> bool {
    occurs(source, "fragColor"@)
}

/// A light check of a fragment source before it goes to the driver: it
/// must have a `main` and mention `fragColor`.
pub fn validate_glsl_source(source: &str) -> (r: Result<(), String>)
    ensures
        r is Ok <==> has_main(source@) && writes_color(source@),
        r matches Err(e) ==> e@ == (if !has_main(source@) {
            "missing 'void main()' entry point"@
        } else {
            "missing write to 'fragColor'"@
        }),
{
    let text = chars_of(source);
    let main_a = chars_of("void main()");
    let main_b = chars_of("void main ()");
    let out = chars_of("fragColor");
    if !contains_chars(&text, &main_a) && !contains_chars(&text, &main_b) {
        let mut e = String::new();
        push_chars(&mut e, "missing 'void main()' entry point");
        assert(e@ =~= "missing 'void main()' entry point"@);
        return Err(e);
    }
    if !contains_chars(&text, &out) {
        let mut e = String::new();
        push_chars(&mut e, "missing write to 'fragColor'");
        assert(e@ =~= "missing write to 'fragColor'"@);
        return Err(e);
    }
    Ok(())
}

/// What is put before every fragment source: the version, the precision,
/// the uniforms that the compositor sets, and the in and out variables.
pub open spec fn preamble_text() -> Seq<char> {
    "\n#version 300 es\nprecision mediump float;\nuniform sampler2D u_tex;\nuniform float     u_time;\nuniform vec2      u_resolution;\nuniform vec2      u_mouse;\nin  vec2 v_uv;\nout vec4 fragColor;\n"@
}

pub fn fragment_preamble() -> (p: &'static str)
    ensures
        p@ == preamble_text(),
{
    "\n#version 300 es\nprecision mediump float;\nuniform sampler2D u_tex;\nuniform float     u_time;\nuniform vec2      u_resolution;\nuniform vec2      u_mouse;\nin  vec2 v_uv;\nout vec4 fragColor;\n"
}

/// The fragment shader that is compiled for a user's source: the preamble,
/// a line break and the source.
pub fn full_fragment_source(source: &str) -> (full: String)
    ensures
        full@ == preamble_text() + "\n"@ + source@,
{
    let mut full = String::new();
    push_chars(&mut full, fragment_preamble());
    push_chars(&mut full, "\n");
    push_chars(&mut full, source);
    assert(full@ =~= preamble_text() + "\n"@ + source@);
    full
}

// ── registry ─────────────────────────────────────────────────────────────────

/// A uniform that the user sets: its name and the bits of its value, a
/// 32-bit float.
#[derive(Debug, Clone)]
pub struct Uniform {
    pub name: String,
    pub bits: u32,
}

/// A shader with its source loaded.
#[derive(Debug, Clone)]
pub struct ShaderEntry {
    /// Name by which the shader is addressed.
    pub name: String,
    /// Whether the shader is part of the post-processing chain.
    pub enabled: bool,
    /// Path of the source file.
    pub path: String,
    /// The fragment source as last read.
    pub source: String,
    /// Uniforms that the user sets; none of them has a reserved name.
    pub uniforms: Vec<Uniform>,
    /// Modification time of the file when it was last read.
    pub last_modified: Option<u64>,
}

/// A uniform name that the compositor sets itself.
pub open spec fn is_reserved(name: Seq<char>) -> bool {
    name == "u_time"@ || name == "u_resolution"@ || name == "u_mouse"@ || name == "u_tex"@
}

fn reserved(name: &str) -> (b: bool)
    ensures
        b == is_reserved(name@),
{
    str_eq(name, "u_time") || str_eq(name, "u_resolution") || str_eq(name, "u_mouse") || str_eq(
        name,
        "u_tex",
    )
}

/// The names and values of the first `k` uniforms without those that have
/// a reserved name.
pub open spec fn user_uniforms(uniforms: Seq<Uniform>, k: nat) -> Seq<(Seq<char>, u32)>
    decreases k,
{
    if k == 0 || k > uniforms.len() {
        Seq::empty()
    } else {
        user_uniforms(uniforms, (k - 1) as nat) + if is_reserved(uniforms[k - 1].name@) {
            Seq::<(Seq<char>, u32)>::empty()
        } else {
            seq![(uniforms[k - 1].name@, uniforms[k - 1].bits)]
        }
    }
}

pub open spec fn uniform_views(uniforms: Seq<Uniform>) -> Seq<(Seq<char>, u32)> {
    Seq::new(uniforms.len(), |i: int| (uniforms[i].name@, uniforms[i].bits))
}

/// Take the uniforms with reserved names out of a user's list.
pub fn strip_reserved(uniforms: Vec<Uniform>) -> (kept: Vec<Uniform>)
    ensures
        uniform_views(kept@) == user_uniforms(uniforms@, uniforms@.len()),
{
    let mut kept: Vec<Uniform> = Vec::new();
    let mut i: usize = 0;
    assert(uniform_views(kept@) =~= user_uniforms(uniforms@, 0));
    while i < uniforms.len()
        invariant
            i <= uniforms.len(),
            uniform_views(kept@) == user_uniforms(uniforms@, i as nat),
        decreases uniforms.len() - i,
    {
        let ghost before = uniform_views(kept@);
        if !reserved(uniforms[i].name.as_str()) {
            kept.push(Uniform { name: uniforms[i].name.clone(), bits: uniforms[i].bits });
            assert(uniform_views(kept@) =~= before + seq![(uniforms@[i as int].name@, uniforms@[i as int].bits)]);
        } else {
            assert(uniform_views(kept@) =~= before + Seq::<(Seq<char>, u32)>::empty());
        }
        i = i + 1;
    }
    kept
}

impl ShaderEntry {
    /// The file is newer than what was read: it has a modification time,
    /// and that is later than the one remembered, if any is.
    pub fn is_stale(&self, mtime: Option<u64>) -> (b: bool)
        ensures
            b == (match mtime {
                Some(t) => match self.last_modified {
                    Some(lm) => t > lm,
                    None => true,
                },
                None => false,
            }),
    {
        match mtime {
            Some(t) => match self.last_modified {
                Some(lm) => t > lm,
                None => true,
            },
            None => false,
        }
    }

    /// Take over the source as read from the file with the modification
    /// time `mtime`. Returns true if the text changed.
    pub fn reload(&mut self, mtime: Option<u64>, new_source: String) -> (changed: bool)
        ensures
            changed == (new_source@ != old(self).source@),
            final(self).source == new_source,
            final(self).last_modified == mtime,
            final(self).name == old(self).name,
            final(self).enabled == old(self).enabled,
            final(self).path == old(self).path,
            final(self).uniforms == old(self).uniforms,
    {
        let changed: bool = !str_eq(new_source.as_str(), self.source.as_str());
        self.source = new_source;
        self.last_modified = mtime;
        changed
    }

    /// Whether the file has to be read again: not if its modification time
    /// is known and is the one remembered.
    pub fn needs_read(&self, mtime: Option<u64>) -> (b: bool)
        ensures
            b == !(mtime is Some && self.last_modified == mtime),
    {
        match (mtime, self.last_modified) {
            (Some(t), Some(lm)) => t != lm,
            _ => true,
        }
    }
}

/// The shaders in the order in which they are declared and applied.
#[derive(Debug, Clone)]
pub struct ShaderRegistry {
    pub entries: Vec<ShaderEntry>,
}

impl Default for ShaderRegistry {
    fn default() -> (r: ShaderRegistry)
        ensures
            r.entries@.len() == 0,
    {
        ShaderRegistry { entries: Vec::new() }
    }
}

/// Position of the first entry with the name `name`.
pub open spec fn name_pos(entries: Seq<ShaderEntry>, name: Seq<char>) -> Option<int>
    decreases entries.len(),
{
    if entries.len() == 0 {
        None
    } else if name_pos(entries.drop_last(), name) is Some {
        name_pos(entries.drop_last(), name)
    } else if entries.last().name@ == name {
        Some(entries.len() - 1)
    } else {
        None
    }
}

pub proof fn lemma_name_pos(entries: Seq<ShaderEntry>, name: Seq<char>)
    ensures
        match name_pos(entries, name) {
            Some(i) => 0 <= i < entries.len() && entries[i].name@ == name && forall|j: int|
                0 <= j < i ==> entries[j].name@ != name,
            None => forall|j: int| 0 <= j < entries.len() ==> entries[j].name@ != name,
        },
    decreases entries.len(),
{
    if entries.len() > 0 {
        let d = entries.drop_last();
        lemma_name_pos(d, name);
        assert forall|j: int| 0 <= j < d.len() implies #[trigger] entries[j] == d[j] by {}
        match name_pos(d, name) {
            Some(i) => {
                assert(entries[i] == d[i]);
            },
            None => {},
        }
    }
}

/// Positions of the enabled entries among the first `k`.
pub open spec fn enabled_upto(entries: Seq<ShaderEntry>, k: nat) -> Seq<usize>
    decreases k,
{
    if k == 0 || k > entries.len() {
        Seq::empty()
    } else {
        enabled_upto(entries, (k - 1) as nat) + if entries[k - 1].enabled {
            seq![(k - 1) as usize]
        } else {
            Seq::<usize>::empty()
        }
    }
}

impl ShaderRegistry {
    /// `other` with one change: entry `i` is enabled or not as `enabled`
    /// says.
    pub open spec fn switched(&self, other: &ShaderRegistry, i: int, enabled: bool) -> bool {
        &&& self.entries@.len() == other.entries@.len()
        &&& forall|j: int|
            0 <= j < self.entries@.len() && j != i ==> #[trigger] self.entries@[j]
                == other.entries@[j]
        &&& self.entries@[i].enabled == enabled
        &&& self.entries@[i].name == other.entries@[i].name
        &&& self.entries@[i].path == other.entries@[i].path
        &&& self.entries@[i].source == other.entries@[i].source
        &&& self.entries@[i].uniforms == other.entries@[i].uniforms
        &&& self.entries@[i].last_modified == other.entries@[i].last_modified
    }

    /// Position of the first entry with the name `name`.
    pub fn position(&self, name: &str) -> (r: Option<usize>)
        ensures
            match r {
                Some(i) => name_pos(self.entries@, name@) == Some(i as int) && i
                    < self.entries.len(),
                None => name_pos(self.entries@, name@) is None,
            },
    {
        let mut i: usize = 0;
        while i < self.entries.len()
            invariant
                i <= self.entries.len(),
                forall|j: int| 0 <= j < i ==> (#[trigger] self.entries@[j]).name@ != name@,
            decreases self.entries.len() - i,
        {
            if str_eq(self.entries[i].name.as_str(), name) {
                proof {
                    lemma_name_pos(self.entries@, name@);
                }
                return Some(i);
            }
            i = i + 1;
        }
        proof {
            lemma_name_pos(self.entries@, name@);
        }
        None
    }

    /// The positions of the enabled entries, in order.
    pub fn enabled(&self) -> (out: Vec<usize>)
        ensures
            out@ == enabled_upto(self.entries@, self.entries@.len()),
    {
        let mut out: Vec<usize> = Vec::new();
        let mut i: usize = 0;
        assert(out@ =~= enabled_upto(self.entries@, 0));
        while i < self.entries.len()
            invariant
                i <= self.entries.len(),
                out@ == enabled_upto(self.entries@, i as nat),
            decreases self.entries.len() - i,
        {
            let ghost before = out@;
            if self.entries[i].enabled {
                out.push(i);
                assert(out@ =~= before + seq![i]);
            } else {
                assert(out@ =~= before + Seq::<usize>::empty());
            }
            i = i + 1;
        }
        out
    }

    /// At least one shader is enabled.
    pub fn any_active(&self) -> (b: bool)
        ensures
            b == exists|i: int| 0 <= i < self.entries@.len() && (#[trigger] self.entries@[i]).enabled,
    {
        let mut i: usize = 0;
        while i < self.entries.len()
            invariant
                i <= self.entries.len(),
                forall|j: int| 0 <= j < i ==> !(#[trigger] self.entries@[j]).enabled,
            decreases self.entries.len() - i,
        {
            if self.entries[i].enabled {
                return true;
            }
            i = i + 1;
        }
        false
    }

    /// Switch a shader on if it is off and off if it is on. Returns its new
    /// state, or `None` if there is no shader of that name.
    pub fn toggle(&mut self, name: &str) -> (r: Option<bool>)
        ensures
            match name_pos(old(self).entries@, name@) {
                Some(i) => r == Some(!old(self).entries@[i].enabled) && final(self).switched(
                    old(self),
                    i,
                    !old(self).entries@[i].enabled,
                ),
                None => r is None && final(self).entries == old(self).entries,
            },
    {
        match self.position(name) {
            Some(i) => {
                let on: bool = !self.entries[i].enabled;
                self.entries[i].enabled = on;
                Some(on)
            },
            None => None,
        }
    }

    /// Switch a shader on or off. Returns `None` if there is no shader of
    /// that name.
    pub fn set_enabled(&mut self, name: &str, enabled: bool) -> (r: Option<()>)
        ensures
            match name_pos(old(self).entries@, name@) {
                Some(i) => r is Some && final(self).switched(old(self), i, enabled),
                None => r is None && final(self).entries == old(self).entries,
            },
    {
        match self.position(name) {
            Some(i) => {
                self.entries[i].enabled = enabled;
                Some(())
            },
            None => None,
        }
    }
}

// ── control commands ─────────────────────────────────────────────────────────

/// A command for the shader registry.
#[derive(Debug, Clone)]
pub enum IpcCommand {
    List,
    Toggle { name: String },
    Enable { name: String },
    Disable { name: String },
    Reload,
}

/// What the registry reports of one shader.
#[derive(Debug, Clone)]
pub struct ShaderStatus {
    pub name: String,
    pub enabled: bool,
    pub path: String,
}

/// The answer to a command.
#[derive(Debug, Clone)]
pub enum IpcResponse {
    Shaders { ok: bool, shaders: Vec<ShaderStatus> },
    Error { ok: bool, error: String },
}

/// The response lists every shader of the registry with its state.
pub open spec fn lists(r: IpcResponse, entries: Seq<ShaderEntry>) -> bool {
    r matches IpcResponse::Shaders { ok, shaders } && ok && shaders@.len() == entries.len()
        && forall|i: int|
        0 <= i < shaders@.len() ==> (#[trigger] shaders@[i]).name@ == entries[i].name@
            && shaders@[i].enabled == entries[i].enabled && shaders@[i].path@ == entries[i].path@
}

/// Text of the error for a name that no shader has.
pub open spec fn not_found_text(name: Seq<char>) -> Seq<char> {
    "shader '"@ + name + "' not found"@
}

impl IpcResponse {
    /// The response that lists the registry's shaders.
    pub fn ok(registry: &ShaderRegistry) -> (r: IpcResponse)
        ensures
            lists(r, registry.entries@),
    {
        let mut shaders: Vec<ShaderStatus> = Vec::new();
        let mut i: usize = 0;
        while i < registry.entries.len()
            invariant
                i <= registry.entries.len(),
                shaders@.len() == i,
                forall|j: int|
                    0 <= j < i ==> (#[trigger] shaders@[j]).name@ == registry.entries@[j].name@
                        && shaders@[j].enabled == registry.entries@[j].enabled && shaders@[j].path@
                        == registry.entries@[j].path@,
            decreases registry.entries.len() - i,
        {
            let e = &registry.entries[i];
            shaders.push(
                ShaderStatus { name: e.name.clone(), enabled: e.enabled, path: e.path.clone() },
            );
            i = i + 1;
        }
        IpcResponse::Shaders { ok: true, shaders }
    }

    pub fn err(msg: &str) -> (r: IpcResponse)
        ensures
            r matches IpcResponse::Error { ok, error } && !ok && error@ == msg@,
    {
        IpcResponse::Error { ok: false, error: msg.to_owned() }
    }
}

fn not_found(name: &str) -> (r: IpcResponse)
    ensures
        r matches IpcResponse::Error { ok, error } && !ok && error@ == not_found_text(name@),
{
    let mut text = String::new();
    push_chars(&mut text, "shader '");
    push_chars(&mut text, name);
    push_chars(&mut text, "' not found");
    assert(text@ =~= not_found_text(name@));
    IpcResponse::Error { ok: false, error: text }
}

/// Carry out a command on the registry. `changed` names the shaders whose
/// source a reload has just found changed; it is only read for `Reload`,
/// whose programs it marks for recompilation. A command that names a
/// shader fails if there is none of that name; every other answer lists
/// the shaders as they are after the command.
pub fn dispatch_command_with_registry(
    cmd: IpcCommand,
    registry: &mut ShaderRegistry,
    changed: Vec<String>,
    recompile: &mut Vec<String>,
) -> (r: IpcResponse)
    ensures
        match cmd {
            IpcCommand::List => final(registry).entries == old(registry).entries && lists(
                r,
                old(registry).entries@,
            ) && final(recompile)@ == old(recompile)@,
            IpcCommand::Toggle { name } => final(recompile)@ == old(recompile)@ && match name_pos(
                old(registry).entries@,
                name@,
            ) {
                Some(i) => final(registry).switched(
                    old(registry),
                    i,
                    !old(registry).entries@[i].enabled,
                ) && lists(r, final(registry).entries@),
                None => final(registry).entries == old(registry).entries && (
                r matches IpcResponse::Error { ok, error } && !ok && error@ == not_found_text(name@)),
            },
            IpcCommand::Enable { name } => final(recompile)@ == old(recompile)@ && match name_pos(
                old(registry).entries@,
                name@,
            ) {
                Some(i) => final(registry).switched(old(registry), i, true) && lists(
                    r,
                    final(registry).entries@,
                ),
                None => final(registry).entries == old(registry).entries && (
                r matches IpcResponse::Error { ok, error } && !ok && error@ == not_found_text(name@)),
            },
            IpcCommand::Disable { name } => final(recompile)@ == old(recompile)@ && match name_pos(
                old(registry).entries@,
                name@,
            ) {
                Some(i) => final(registry).switched(old(registry), i, false) && lists(
                    r,
                    final(registry).entries@,
                ),
                None => final(registry).entries == old(registry).entries && (
                r matches IpcResponse::Error { ok, error } && !ok && error@ == not_found_text(name@)),
            },
            IpcCommand::Reload => final(registry).entries == old(registry).entries && lists(
                r,
                old(registry).entries@,
            ) && final(recompile)@ == old(recompile)@ + changed@,
        },
{
    match cmd {
        IpcCommand::List => IpcResponse::ok(registry),
        IpcCommand::Toggle { name } => match registry.toggle(name.as_str()) {
            Some(_) => IpcResponse::ok(registry),
            None => not_found(name.as_str()),
        },
        IpcCommand::Enable { name } => match registry.set_enabled(name.as_str(), true) {
            Some(_) => IpcResponse::ok(registry),
            None => not_found(name.as_str()),
        },
        IpcCommand::Disable { name } => match registry.set_enabled(name.as_str(), false) {
            Some(_) => IpcResponse::ok(registry),
            None => not_found(name.as_str()),
        },
        IpcCommand::Reload => {
            let mut names = changed;
            recompile.append(&mut names);
            IpcResponse::ok(registry)
        },
    }
}

/// The answer to a command that arrives where no registry is at hand.
pub fn dispatch_command(cmd: IpcCommand) -> (r: IpcResponse)
    ensures
        r matches IpcResponse::Error { ok, error } && !ok && error@
            == "internal: dispatch called without registry context"@,
{
    IpcResponse::err("internal: dispatch called without registry context")
}

// ── pass plan ────────────────────────────────────────────────────────────────

/// One shader pass: the program of entry `entry` reads the ping-pong
/// texture `src` and draws into the ping-pong buffer `dst`.
#[derive(Debug, Clone, Copy, PartialEq, Eq, Structural)]
pub struct Pass {
    pub entry: usize,
    pub src: usize,
    pub dst: usize,
}

/// What has to be done before a frame is rendered.
#[derive(Debug, Clone, Copy, PartialEq, Eq, Structural)]
pub enum BeginPlan {
    /// No shader is enabled: render straight to the scanout buffer.
    Inactive,
    /// Render into the scene buffer that is there.
    Reuse,
    /// The buffers are missing or have another size: make them, then
    /// render into the scene buffer.
    Reallocate,
}

/// What the shader pass holds between frames: which programs are compiled
/// and the size of its buffers, if it has any.
pub struct ShaderPass {
    pub programs: Vec<String>,
    pub buffers: Option<(u32, u32)>,
}

/// A program with the name `name` is compiled.
pub open spec fn has_program(programs: Seq<String>, name: Seq<char>) -> bool {
    exists|i: int| 0 <= i < programs.len() && (#[trigger] programs[i])@ == name
}

/// Positions of those among the first `k` entries that have no program.
pub open spec fn unprogrammed_upto(entries: Seq<ShaderEntry>, programs: Seq<String>, k: nat) -> Seq<
    usize,
>
    decreases k,
{
    if k == 0 || k > entries.len() {
        Seq::empty()
    } else {
        unprogrammed_upto(entries, programs, (k - 1) as nat) + if has_program(
            programs,
            entries[k - 1].name@,
        ) {
            Seq::<usize>::empty()
        } else {
            seq![(k - 1) as usize]
        }
    }
}

/// The passes for the first `k` entries and the buffer that holds the
/// picture after them. The first pass reads buffer 0; every pass draws
/// into the buffer that it does not read; a shader that is off or has no
/// program is passed over.
pub open spec fn passes_upto(entries: Seq<ShaderEntry>, programs: Seq<String>, k: nat) -> (
    Seq<Pass>,
    usize,
)
    decreases k,
{
    if k == 0 || k > entries.len() {
        (Seq::empty(), 0)
    } else {
        let before = passes_upto(entries, programs, (k - 1) as nat);
        if entries[k - 1].enabled && has_program(programs, entries[k - 1].name@) {
            (
                before.0.push(
                    Pass { entry: (k - 1) as usize, src: before.1, dst: (1 - before.1) as usize },
                ),
                (1 - before.1) as usize,
            )
        } else {
            before
        }
    }
}

proof fn lemma_passes_src(entries: Seq<ShaderEntry>, programs: Seq<String>, k: nat)
    ensures
        passes_upto(entries, programs, k).1 <= 1,
    decreases k,
{
    if k > 0 && k <= entries.len() {
        lemma_passes_src(entries, programs, (k - 1) as nat);
    }
}

impl ShaderPass {
    pub fn new() -> (p: ShaderPass)
        ensures
            p.programs@.len() == 0,
            p.buffers is None,
    {
        ShaderPass { programs: Vec::new(), buffers: None }
    }

    fn compiled(&self, name: &str) -> (b: bool)
        ensures
            b == has_program(self.programs@, name@),
    {
        let mut i: usize = 0;
        while i < self.programs.len()
            invariant
                i <= self.programs.len(),
                forall|j: int| 0 <= j < i ==> (#[trigger] self.programs@[j])@ != name@,
            decreases self.programs.len() - i,
        {
            if str_eq(self.programs[i].as_str(), name) {
                return true;
            }
            i = i + 1;
        }
        false
    }

    /// What to do before the frame is rendered at the given size.
    pub fn begin(&self, width: u32, height: u32, registry: &ShaderRegistry) -> (plan: BeginPlan)
        ensures
            plan == (if !exists|i: int|
                0 <= i < registry.entries@.len() && (#[trigger] registry.entries@[i]).enabled {
                BeginPlan::Inactive
            } else if self.buffers == Some((width, height)) {
                BeginPlan::Reuse
            } else {
                BeginPlan::Reallocate
            }),
    {
        if !registry.any_active() {
            return BeginPlan::Inactive;
        }
        match self.buffers {
            Some((w, h)) => if w == width && h == height {
                BeginPlan::Reuse
            } else {
                BeginPlan::Reallocate
            },
            None => BeginPlan::Reallocate,
        }
    }

    /// Record whether the buffers could be made at the given size. Returns
    /// whether the frame is rendered into the scene buffer.
    pub fn allocated(&mut self, width: u32, height: u32, ok: bool) -> (active: bool)
        ensures
            active == ok,
            final(self).programs == old(self).programs,
            final(self).buffers == (if ok {
                Some((width, height))
            } else {
                None
            }),
    {
        self.buffers = if ok { Some((width, height)) } else { None };
        ok
    }

    /// The shader passes of one frame, in order, and the ping-pong buffer
    /// that is copied to the scanout buffer after them.
    pub fn end(&self, registry: &ShaderRegistry) -> (plan: (Vec<Pass>, usize))
        ensures
            plan.0@ == passes_upto(registry.entries@, self.programs@, registry.entries@.len()).0,
            plan.1 == passes_upto(registry.entries@, self.programs@, registry.entries@.len()).1,
            plan.1 <= 1,
    {
        let mut passes: Vec<Pass> = Vec::new();
        let mut src: usize = 0;
        let mut k: usize = 0;
        assert(passes@ =~= passes_upto(registry.entries@, self.programs@, 0).0);
        while k < registry.entries.len()
            invariant
                k <= registry.entries.len(),
                src <= 1,
                passes@ == passes_upto(registry.entries@, self.programs@, k as nat).0,
                src == passes_upto(registry.entries@, self.programs@, k as nat).1,
            decreases registry.entries.len() - k,
        {
            let e = &registry.entries[k];
            if e.enabled && self.compiled(e.name.as_str()) {
                let dst: usize = 1 - src;
                passes.push(Pass { entry: k, src, dst });
                src = dst;
            }
            k = k + 1;
        }
        (passes, src)
    }

    /// The entries of the registry that have no program yet, in order.
    pub fn sync_programs(&self, registry: &ShaderRegistry) -> (missing: Vec<usize>)
        ensures
            missing@ == unprogrammed_upto(
                registry.entries@,
                self.programs@,
                registry.entries@.len(),
            ),
    {
        let mut missing: Vec<usize> = Vec::new();
        let mut i: usize = 0;
        while i < registry.entries.len()
            invariant
                i <= registry.entries.len(),
                missing@ == unprogrammed_upto(registry.entries@, self.programs@, i as nat),
            decreases registry.entries.len() - i,
        {
            let ghost before = missing@;
            if !self.compiled(registry.entries[i].name.as_str()) {
                missing.push(i);
                assert(missing@ =~= before + seq![i]);
            } else {
                assert(missing@ =~= before + Seq::<usize>::empty());
            }
            i = i + 1;
        }
        missing
    }

    /// Record that the program of the shader `name` was compiled, or that
    /// compiling it failed.
    pub fn compiled_shader(&mut self, name: &str, ok: bool)
        ensures
            final(self).buffers == old(self).buffers,
            ok ==> has_program(final(self).programs@, name@),
            !ok ==> !has_program(final(self).programs@, name@),
            forall|other: Seq<char>|
                other != name@ ==> has_program(final(self).programs@, other) == has_program(
                    old(self).programs@,
                    other,
                ),
    {
        let mut kept: Vec<String> = Vec::new();
        let mut i: usize = 0;
        while i < self.programs.len()
            invariant
                i <= self.programs.len(),
                self.programs == old(self).programs,
                !has_program(kept@, name@),
                forall|other: Seq<char>|
                    other != name@ ==> has_program(kept@, other) == has_program(
                        self.programs@.subrange(0, i as int),
                        other,
                    ),
            decreases self.programs.len() - i,
        {
            let ghost before = kept@;
            let ghost prefix = self.programs@.subrange(0, i as int);
            let ghost next = self.programs@.subrange(0, i + 1);
            let p = &self.programs[i];
            if !str_eq(p.as_str(), name) {
                kept.push(p.clone());
            }
            proof {
                assert(next =~= prefix.push(self.programs@[i as int]));
                assert forall|other: Seq<char>| other != name@ implies has_program(kept@, other)
                    == has_program(next, other) by {
                    lemma_program_step(before, kept@, prefix, next, self.programs@[i as int], other, name@);
                }
                assert(!has_program(kept@, name@)) by {
                    if has_program(kept@, name@) {
                        let j = choose|j: int| 0 <= j < kept@.len() && (#[trigger] kept@[j])@ == name@;
                        if j < before.len() {
                            assert(before[j]@ == name@);
                        }
                    }
                }
            }
            i = i + 1;
        }
        proof {
            assert(self.programs@.subrange(0, self.programs@.len() as int) =~= self.programs@);
        }
        let ghost stripped = kept@;
        assert forall|other: Seq<char>| other != name@ implies has_program(stripped, other)
            == has_program(old(self).programs@, other) by {}
        if ok {
            let ghost before = kept@;
            kept.push(name.to_owned());
            proof {
                assert(kept@[before.len() as int]@ == name@);
                assert forall|other: Seq<char>| other != name@ implies has_program(kept@, other)
                    == has_program(before, other) by {
                    if has_program(kept@, other) {
                        let j = choose|j: int| 0 <= j < kept@.len() && (#[trigger] kept@[j])@ == other;
                        assert(before[j]@ == other);
                    }
                    if has_program(before, other) {
                        let j = choose|j: int| 0 <= j < before.len() && (#[trigger] before[j])@ == other;
                        assert(kept@[j]@ == other);
                    }
                }
            }
        }
        assert forall|other: Seq<char>| other != name@ implies has_program(kept@, other)
            == has_program(old(self).programs@, other) by {
            assert(has_program(stripped, other) == has_program(old(self).programs@, other));
        }
        self.programs = kept;
    }
}

proof fn lemma_program_step(
    before: Seq<String>,
    after: Seq<String>,
    prefix: Seq<String>,
    next: Seq<String>,
    p: String,
    other: Seq<char>,
    name: Seq<char>,
)
    requires
        other != name,
        next == prefix.push(p),
        has_program(before, other) == has_program(prefix, other),
        after == (if p@ != name { before.push(p) } else { before }) || (exists|q: String|
            q@ == p@ && p@ != name && after == before.push(q)),
    ensures
        has_program(after, other) == has_program(next, other),
{
    if has_program(next, other) {
        let j = choose|j: int| 0 <= j < next.len() && (#[trigger] next[j])@ == other;
        if j < prefix.len() {
            assert(prefix[j]@ == other);
            let m = choose|m: int| 0 <= m < before.len() && (#[trigger] before[m])@ == other;
            assert(after[m]@ == other);
        } else {
            assert(p@ == other);
            assert(after[before.len() as int]@ == other);
        }
    }
    if has_program(after, other) {
        let j = choose|j: int| 0 <= j < after.len() && (#[trigger] after[j])@ == other;
        if j < before.len() {
            assert(before[j]@ == other);
            let m = choose|m: int| 0 <= m < prefix.len() && (#[trigger] prefix[m])@ == other;
            assert(next[m]@ == other);
        } else {
            assert(next[prefix.len() as int]@ == other);
        }
    }
}

} // verus!
