//! Runtime configuration and launch arguments.
use crate::text::{owned, str_eq};
use vstd::prelude::*;
use vstd::string::StrSliceExecFns;

verus! {

/// Whether the runtime opens a window (client) or runs the simulation only.
#[derive(Debug, Clone, Copy, PartialEq, Eq, Structural)]
pub enum EngineMode {
    Client,
    Headless,
}

/// A command-line argument the runtime could not accept.
#[derive(Debug, Clone, PartialEq, Eq)]
pub enum RuntimeError {
    UnknownArgument(String),
    MissingArgument(String),
}

/// `(is_unknown_argument, text)`.
pub type RuntimeErrorView = (bool, Seq<char>);

impl View for RuntimeError {
    type V = RuntimeErrorView;

    open spec fn view(&self) -> RuntimeErrorView {
        match self {
            RuntimeError::UnknownArgument(s) => (true, s@),
            RuntimeError::MissingArgument(s) => (false, s@),
        }
    }
}

/// The phases of one fixed simulation step, in the order they run.
#[derive(Debug, Clone, Copy, PartialEq, Eq, Structural)]
pub enum SimulationPhase {
    PreUpdate,
    Update,
    PostUpdate,
}

impl SimulationPhase {
    pub fn ordered() -> (r: [SimulationPhase; 3])
        ensures
            r@ == seq![SimulationPhase::PreUpdate, SimulationPhase::Update, SimulationPhase::PostUpdate],
    {
        [SimulationPhase::PreUpdate, SimulationPhase::Update, SimulationPhase::PostUpdate]
    }
}

/// Joins `rel` onto `base` as `Path::join` does on Unix: an absolute
/// `rel` replaces `base`; otherwise a `/` separates them unless `base` is
/// empty or already ends in one.
pub open spec fn spec_join_path(base: Seq<char>, rel: Seq<char>) -> Seq<char> {
    if rel.len() > 0 && rel[0] == '/' {
        rel
    } else if base.len() == 0 {
        rel
    } else if base.last() == '/' {
        base + rel
    } else {
        base + seq!['/'] + rel
    }
}

/// Joins `rel` onto `base` as `Path::join` does on Unix.
pub fn join_path(base: &str, rel: &str) -> (r: String)
    ensures
        r@ == spec_join_path(base@, rel@),
{
    if rel.unicode_len() > 0 && rel.get_char(0) == '/' {
        return owned(rel);
    }
    let mut s = owned(base);
    let n = base.as_bytes().len();
    if n == 0 {
        let r = owned(rel);
        return r;
    }
    proof {
        vstd::utf8::encode_utf8_decode_utf8(base@);
    }
    if !ends_with_slash(base) {
        s.append("/");
        proof {
            reveal_strlit("/");
        }
    }
    s.append(rel);
    s
}

fn ends_with_slash(s: &str) -> (r: bool)
    requires
        s@.len() > 0,
    ensures
        r == (s@.last() == '/'),
{
    let n = s.unicode_len();
    let c = s.get_char(n - 1);
    c == '/'
}

/// Launch configuration of the runtime. Paths are `/`-separated text; the
/// fixed simulation step is kept as the bit pattern of an `f64` number of
/// seconds.
#[derive(Debug, Clone, PartialEq, Eq)]
pub struct RuntimeConfig {
    pub mode: EngineMode,
    pub fixed_timestep_seconds: u64,
    pub assets_root: String,
    pub scene_path: Option<String>,
}

/// `(mode, fixed step bits, assets root, scene path)`.
pub type RuntimeConfigView = (EngineMode, u64, Seq<char>, Option<Seq<char>>);

impl View for RuntimeConfig {
    type V = RuntimeConfigView;

    open spec fn view(&self) -> RuntimeConfigView {
        (
            self.mode,
            self.fixed_timestep_seconds,
            self.assets_root@,
            match self.scene_path {
                Some(p) => Some(p@),
                None => None,
            },
        )
    }
}

/// `1.0 / 60.0` as `f64` bits: the default fixed step of 60 steps per
/// second.
pub const SIXTIETH_SECOND_BITS: u64 = 0x3f91_1111_1111_1111;

/// The default configuration: the given mode, a fixed step of 1/60 s,
/// assets under `assets`, no explicit scene.
pub open spec fn default_config_view(mode: EngineMode) -> RuntimeConfigView {
    (mode, SIXTIETH_SECOND_BITS, "assets"@, None)
}

/// Applies the arguments after the program name, left to right:
/// `--headless` switches to headless mode, `--assets <path>` and
/// `--scene <path>` take the next argument as a path; anything else is an
/// unknown argument.
pub open spec fn apply_runtime_args(cfg: RuntimeConfigView, rest: Seq<Seq<char>>) -> Result<
    RuntimeConfigView,
    RuntimeErrorView,
>
    decreases rest.len(),
{
    if rest.len() == 0 {
        Ok(cfg)
    } else if rest[0] == "--headless"@ {
        apply_runtime_args((EngineMode::Headless, cfg.1, cfg.2, cfg.3), rest.drop_first())
    } else if rest[0] == "--assets"@ {
        if rest.len() < 2 {
            Err((false, "expected path after --assets"@))
        } else {
            apply_runtime_args((cfg.0, cfg.1, rest[1], cfg.3), rest.skip(2))
        }
    } else if rest[0] == "--scene"@ {
        if rest.len() < 2 {
            Err((false, "expected path after --scene"@))
        } else {
            apply_runtime_args((cfg.0, cfg.1, cfg.2, Some(rest[1])), rest.skip(2))
        }
    } else {
        Err((true, rest[0]))
    }
}

pub open spec fn strs_view(args: Seq<&str>) -> Seq<Seq<char>> {
    args.map_values(|a: &str| a@)
}

/// The arguments after the program name (none when even that is missing).
pub open spec fn after_program_name(args: Seq<Seq<char>>) -> Seq<Seq<char>> {
    if args.len() == 0 {
        args
    } else {
        args.drop_first()
    }
}

impl RuntimeConfig {
    /// Client mode, a fixed step of 1/60 s, assets under `assets`.
    pub fn client() -> (r: RuntimeConfig)
        ensures
            r@ == default_config_view(EngineMode::Client),
    {
        RuntimeConfig {
            mode: EngineMode::Client,
            fixed_timestep_seconds: SIXTIETH_SECOND_BITS,
            assets_root: owned("assets"),
            scene_path: None,
        }
    }

    /// Headless mode, a fixed step of 1/60 s, assets under `assets`.
    pub fn headless() -> (r: RuntimeConfig)
        ensures
            r@ == default_config_view(EngineMode::Headless),
    {
        RuntimeConfig {
            mode: EngineMode::Headless,
            fixed_timestep_seconds: SIXTIETH_SECOND_BITS,
            assets_root: owned("assets"),
            scene_path: None,
        }
    }

    /// The scene to load: the explicit scene path, or `sample/scene.gltf`
    /// under the assets root.
    pub fn default_scene_path(&self) -> (r: String)
        ensures
            r@ == match self.scene_path {
                Some(p) => p@,
                None => spec_join_path(self.assets_root@, "sample/scene.gltf"@),
            },
    {
        match &self.scene_path {
            Some(p) => p.clone(),
            None => join_path(self.assets_root.as_str(), "sample/scene.gltf"),
        }
    }

    /// Parses command-line arguments; the first argument (the program
    /// name) is skipped.
    pub fn from_args(args: &[&str]) -> (r: Result<RuntimeConfig, RuntimeError>)
        ensures
            match apply_runtime_args(
                default_config_view(EngineMode::Client),
                after_program_name(strs_view(args@)),
            ) {
                Ok(c) => r matches Ok(x) && x@ == c,
                Err(e) => r matches Err(x) && x@ == e,
            },
    {
        let ghost all = strs_view(args@);
        let mut config = RuntimeConfig::client();
        let n = args.len();
        if n == 0 {
            return Ok(config);
        }
        let mut i: usize = 1;
        assert(all.skip(1) =~= all.drop_first());
        while i < n
            invariant
                n == args@.len(),
                all == strs_view(args@),
                1 <= i <= n,
                apply_runtime_args(default_config_view(EngineMode::Client), after_program_name(all))
                    == apply_runtime_args(config@, all.skip(i as int)),
            decreases n - i,
        {
            let arg = args[i];
            proof {
                assert(all.skip(i as int)[0] == arg@);
                assert(all.skip(i as int).drop_first() =~= all.skip(i + 1));
                reveal_strlit("--headless");
                reveal_strlit("--assets");
                reveal_strlit("--scene");
            }
            if str_eq(arg, "--headless") {
                config.mode = EngineMode::Headless;
                i = i + 1;
            } else if str_eq(arg, "--assets") {
                if i + 1 >= n {
                    return Err(RuntimeError::MissingArgument(owned("expected path after --assets")));
                }
                proof {
                    assert(all.skip(i as int)[1] == args@[i + 1]@);
                    assert(all.skip(i as int).skip(2) =~= all.skip(i + 2));
                }
                config.assets_root = owned(args[i + 1]);
                i = i + 2;
            } else if str_eq(arg, "--scene") {
                if i + 1 >= n {
                    return Err(RuntimeError::MissingArgument(owned("expected path after --scene")));
                }
                proof {
                    assert(all.skip(i as int)[1] == args@[i + 1]@);
                    assert(all.skip(i as int).skip(2) =~= all.skip(i + 2));
                }
                config.scene_path = Some(owned(args[i + 1]));
                i = i + 2;
            } else {
                return Err(RuntimeError::UnknownArgument(owned(arg)));
            }
        }
        assert(all.skip(n as int) =~= Seq::<Seq<char>>::empty());
        Ok(config)
    }
}

/// The outcome with headless mode set on success.
pub open spec fn as_headless(r: Result<RuntimeConfigView, RuntimeErrorView>) -> Result<
    RuntimeConfigView,
    RuntimeErrorView,
> {
    match r {
        Ok(c) => Ok((EngineMode::Headless, c.1, c.2, c.3)),
        Err(e) => Err(e),
    }
}

proof fn lemma_headless_start(m: EngineMode, x: u64, a: Seq<char>, sc: Option<Seq<char>>, rest: Seq<Seq<char>>)
    ensures
        apply_runtime_args((EngineMode::Headless, x, a, sc), rest) == as_headless(
            apply_runtime_args((m, x, a, sc), rest),
        ),
    decreases rest.len(),
{
    if rest.len() > 0 {
        if rest[0] == "--headless"@ {
            lemma_headless_start(EngineMode::Headless, x, a, sc, rest.drop_first());
        } else if rest[0] == "--assets"@ {
            if rest.len() >= 2 {
                lemma_headless_start(m, x, rest[1], sc, rest.skip(2));
            }
        } else if rest[0] == "--scene"@ {
            if rest.len() >= 2 {
                lemma_headless_start(m, x, a, Some(rest[1]), rest.skip(2));
            }
        }
    }
}

/// `--headless` switches the mode and parsing goes on: a `--headless`
/// followed by arguments `rest` gives exactly what `rest` alone gives, in
/// headless mode on success, and the same error otherwise.
pub proof fn law_headless_flag_keeps_parsing(cfg: RuntimeConfigView, rest: Seq<Seq<char>>)
    ensures
        apply_runtime_args(cfg, seq!["--headless"@] + rest) == as_headless(apply_runtime_args(cfg, rest)),
{
    let args = seq!["--headless"@] + rest;
    assert(args[0] == "--headless"@);
    assert(args.drop_first() =~= rest);
    lemma_headless_start(cfg.0, cfg.1, cfg.2, cfg.3, rest);
}

/// The same for the full command line: inserting `--headless` right after
/// the program name changes nothing but the mode.
pub proof fn law_from_args_headless_after_program_name(prog: Seq<char>, rest: Seq<Seq<char>>)
    ensures
        apply_runtime_args(
            default_config_view(EngineMode::Client),
            after_program_name(seq![prog, "--headless"@] + rest),
        ) == as_headless(
            apply_runtime_args(default_config_view(EngineMode::Client), after_program_name(seq![prog] + rest)),
        ),
{
    assert((seq![prog, "--headless"@] + rest).drop_first() =~= seq!["--headless"@] + rest);
    assert((seq![prog] + rest).drop_first() =~= rest);
    law_headless_flag_keeps_parsing(default_config_view(EngineMode::Client), rest);
}

} // verus!
