//! Editor vocabulary (panels, dock zones, spawnable entities, sky quality)
//! and the editor's launch arguments.
use crate::text::{owned, push_str, str_eq};
use vstd::prelude::*;
use vstd::string::StrSliceExecFns;

verus! {

/// A dockable editor panel.
#[derive(Debug, Clone, Copy, PartialEq, Eq, Hash, Structural)]
pub enum PanelId {
    Outliner,
    Details,
}

impl PanelId {
    /// Every panel, in display order.
    pub fn all() -> (r: [PanelId; 2])
        ensures
            r@ == seq![PanelId::Outliner, PanelId::Details],
    {
        [PanelId::Outliner, PanelId::Details]
    }

    pub open spec fn title_spec(self) -> Seq<char> {
        match self {
            PanelId::Outliner => "Outliner"@,
            PanelId::Details => "Details"@,
        }
    }

    /// The panel's tab title.
    pub fn title(self) -> (r: &'static str)
        ensures
            r@ == self.title_spec(),
    {
        match self {
            PanelId::Outliner => "Outliner",
            PanelId::Details => "Details",
        }
    }

    /// The panel's label where space is short (the same as the title).
    pub fn short_label(self) -> (r: &'static str)
        ensures
            r@ == self.title_spec(),
    {
        match self {
            PanelId::Outliner => "Outliner",
            PanelId::Details => "Details",
        }
    }

    /// The panel's preferred size, width and height as `f32` bits:
    /// 260 x 500 for the outliner, 320 x 500 for details.
    pub fn default_size(self) -> (r: [u32; 2])
        ensures
            r@ == match self {
                PanelId::Outliner => seq![0x4382_0000u32, 0x43fa_0000u32],
                PanelId::Details => seq![0x43a0_0000u32, 0x43fa_0000u32],
            },
    {
        match self {
            PanelId::Outliner => [0x4382_0000, 0x43fa_0000],
            PanelId::Details => [0x43a0_0000, 0x43fa_0000],
        }
    }

    /// The panel's smallest size as `f32` bits: 160 x 120 for the
    /// outliner, 200 x 120 for details.
    pub fn min_size(self) -> (r: [u32; 2])
        ensures
            r@ == match self {
                PanelId::Outliner => seq![0x4320_0000u32, 0x42f0_0000u32],
                PanelId::Details => seq![0x4348_0000u32, 0x42f0_0000u32],
            },
    {
        match self {
            PanelId::Outliner => [0x4320_0000, 0x42f0_0000],
            PanelId::Details => [0x4348_0000, 0x42f0_0000],
        }
    }

    /// The panel's largest size as `f32` bits: 600 x 1200 for the
    /// outliner, 800 x 1200 for details.
    pub fn max_size(self) -> (r: [u32; 2])
        ensures
            r@ == match self {
                PanelId::Outliner => seq![0x4416_0000u32, 0x4496_0000u32],
                PanelId::Details => seq![0x4448_0000u32, 0x4496_0000u32],
            },
    {
        match self {
            PanelId::Outliner => [0x4416_0000, 0x4496_0000],
            PanelId::Details => [0x4448_0000, 0x4496_0000],
        }
    }
}

/// The size kept for a docked zone, as `f32` bits.
#[derive(Debug, Clone, Copy, PartialEq, Eq)]
pub struct ZoneSize {
    pub width: u32,
}

impl Default for ZoneSize {
    /// 280 wide.
    fn default() -> (r: ZoneSize)
        ensures
            r.width == 0x438c_0000,
    {
        ZoneSize { width: 0x438c_0000 }
    }
}

/// Where a panel can be docked.
#[derive(Debug, Clone, Copy, PartialEq, Eq, Hash, Structural)]
pub enum DockZone {
    Left,
    Right,
    Bottom,
}

impl DockZone {
    /// Every zone, in layout order.
    pub fn all() -> (r: [DockZone; 3])
        ensures
            r@ == seq![DockZone::Left, DockZone::Right, DockZone::Bottom],
    {
        [DockZone::Left, DockZone::Right, DockZone::Bottom]
    }
}

/// One of the three principal axes of the transform gizmo.
#[derive(Debug, Clone, Copy, PartialEq, Eq, Structural)]
pub enum Axis {
    X,
    Y,
    Z,
}

impl Axis {
    /// All three axes, for iteration.
    pub fn all() -> (r: [Axis; 3])
        ensures
            r@ == seq![Axis::X, Axis::Y, Axis::Z],
    {
        [Axis::X, Axis::Y, Axis::Z]
    }

    /// The axis' gizmo colour, RGBA as `f32` bits: red
    /// `(0.9, 0.25, 0.25, 1)` for X, green `(0.25, 0.9, 0.35, 1)` for Y,
    /// blue `(0.3, 0.5, 1, 1)` for Z.
    pub fn color(self) -> (r: [u32; 4])
        ensures
            r@ == match self {
                Axis::X => seq![0x3f66_6666u32, 0x3e80_0000u32, 0x3e80_0000u32, 0x3f80_0000u32],
                Axis::Y => seq![0x3e80_0000u32, 0x3f66_6666u32, 0x3eb3_3333u32, 0x3f80_0000u32],
                Axis::Z => seq![0x3e99_999au32, 0x3f00_0000u32, 0x3f80_0000u32, 0x3f80_0000u32],
            },
    {
        match self {
            Axis::X => [0x3f66_6666, 0x3e80_0000, 0x3e80_0000, 0x3f80_0000],
            Axis::Y => [0x3e80_0000, 0x3f66_6666, 0x3eb3_3333, 0x3f80_0000],
            Axis::Z => [0x3e99_999a, 0x3f00_0000, 0x3f80_0000, 0x3f80_0000],
        }
    }

    /// The axis' unit direction as `f32` bits: `1.0` in its own
    /// coordinate, `0.0` in the others.
    pub fn direction(self) -> (r: [u32; 3])
        ensures
            r@ == match self {
                Axis::X => seq![0x3f80_0000u32, 0u32, 0u32],
                Axis::Y => seq![0u32, 0x3f80_0000u32, 0u32],
                Axis::Z => seq![0u32, 0u32, 0x3f80_0000u32],
            },
    {
        match self {
            Axis::X => [0x3f80_0000, 0, 0],
            Axis::Y => [0, 0x3f80_0000, 0],
            Axis::Z => [0, 0, 0x3f80_0000],
        }
    }
}

/// A kind of entity the editor's Assets menu can spawn.
#[derive(Debug, Clone, Copy, PartialEq, Eq, Structural)]
pub enum SpawnableEntity {
    Empty,
    Camera,
    DirectionalLight,
    SkyLight,
}

impl SpawnableEntity {
    /// Every spawnable kind, in display order.
    pub fn all() -> (r: [SpawnableEntity; 4])
        ensures
            r@ == seq![
                SpawnableEntity::Empty,
                SpawnableEntity::Camera,
                SpawnableEntity::DirectionalLight,
                SpawnableEntity::SkyLight,
            ],
    {
        [
            SpawnableEntity::Empty,
            SpawnableEntity::Camera,
            SpawnableEntity::DirectionalLight,
            SpawnableEntity::SkyLight,
        ]
    }

    /// The menu label.
    pub fn label(self) -> (r: &'static str)
        ensures
            r@ == match self {
                SpawnableEntity::Empty => "Empty Entity"@,
                SpawnableEntity::Camera => "Camera"@,
                SpawnableEntity::DirectionalLight => "Directional Light"@,
                SpawnableEntity::SkyLight => "Sky Light"@,
            },
    {
        match self {
            SpawnableEntity::Empty => "Empty Entity",
            SpawnableEntity::Camera => "Camera",
            SpawnableEntity::DirectionalLight => "Directional Light",
            SpawnableEntity::SkyLight => "Sky Light",
        }
    }

    /// A one-line description of what the entity does.
    pub fn description(self) -> (r: &'static str)
        ensures
            r@ == match self {
                SpawnableEntity::Empty => "A plain transform — useful as a parent or marker"@,
                SpawnableEntity::Camera => "Perspective camera with configurable FOV"@,
                SpawnableEntity::DirectionalLight => "Sun/moon light with atmosphere support"@,
                SpawnableEntity::SkyLight => "Captures sky for indirect lighting (IBL)"@,
            },
    {
        match self {
            SpawnableEntity::Empty => "A plain transform — useful as a parent or marker",
            SpawnableEntity::Camera => "Perspective camera with configurable FOV",
            SpawnableEntity::DirectionalLight => "Sun/moon light with atmosphere support",
            SpawnableEntity::SkyLight => "Captures sky for indirect lighting (IBL)",
        }
    }

    /// The menu icon glyph.
    pub fn icon(self) -> (r: &'static str)
        ensures
            r@ == match self {
                SpawnableEntity::Empty => "◇"@,
                SpawnableEntity::Camera => "◉"@,
                SpawnableEntity::DirectionalLight => "☀"@,
                SpawnableEntity::SkyLight => "◌"@,
            },
    {
        match self {
            SpawnableEntity::Empty => "◇",
            SpawnableEntity::Camera => "◉",
            SpawnableEntity::DirectionalLight => "☀",
            SpawnableEntity::SkyLight => "◌",
        }
    }
}

/// Scene facts shown in the editor's hierarchy panel.
#[derive(Debug, Clone, PartialEq, Eq)]
pub struct EditorSceneInfo {
    pub scene_path: String,
    pub mesh_count: usize,
    pub texture_count: usize,
    pub material_count: usize,
}

/// Quality of the sky-atmosphere ray marching.
#[derive(Debug, Clone, Copy, PartialEq, Eq, Structural)]
pub enum SkyQuality {
    /// No sky atmosphere: flat clear color only.
    Off,
    /// 8 ray steps, 4 sun steps.
    Low,
    /// 16 ray steps, 8 sun steps.
    Medium,
    /// 32 ray steps, 16 sun steps.
    High,
}

impl SkyQuality {
    /// `(ray steps, sun steps)` of the quality level.
    pub fn sample_counts(self) -> (r: (u32, u32))
        ensures
            r == match self {
                SkyQuality::Off => (0u32, 0u32),
                SkyQuality::Low => (8u32, 4u32),
                SkyQuality::Medium => (16u32, 8u32),
                SkyQuality::High => (32u32, 16u32),
            },
    {
        match self {
            SkyQuality::Off => (0, 0),
            SkyQuality::Low => (8, 4),
            SkyQuality::Medium => (16, 8),
            SkyQuality::High => (32, 16),
        }
    }
}

// ---------------------------------------------------------------------------
// Launch arguments
// ---------------------------------------------------------------------------

/// Why a decimal integer did not parse, as `str::parse::<u64>` reports it.
#[derive(Debug, Clone, Copy, PartialEq, Eq, Structural)]
pub enum IntErrorKind {
    Empty,
    InvalidDigit,
    PosOverflow,
}

/// The text `ParseIntError` displays for each kind.
pub open spec fn int_error_text(k: IntErrorKind) -> Seq<char> {
    match k {
        IntErrorKind::Empty => "cannot parse integer from empty string"@,
        IntErrorKind::InvalidDigit => "invalid digit found in string"@,
        IntErrorKind::PosOverflow => "number too large to fit in target type"@,
    }
}

pub open spec fn is_digit(c: char) -> bool {
    '0' <= c <= '9'
}

/// Reads decimal digits left to right onto `acc`; a non-digit fails, and so
/// does a value that stops fitting in `u64` (checked before later digits).
pub open spec fn scan_digits(d: Seq<char>, acc: int) -> Result<u64, IntErrorKind>
    decreases d.len(),
{
    if d.len() == 0 {
        Ok(acc as u64)
    } else if !is_digit(d[0]) {
        Err(IntErrorKind::InvalidDigit)
    } else {
        let v = acc * 10 + (d[0] as int - '0' as int);
        if v > u64::MAX {
            Err(IntErrorKind::PosOverflow)
        } else {
            scan_digits(d.drop_first(), v)
        }
    }
}

/// `s.parse::<u64>()`: an optional `+`, then at least one decimal digit.
pub open spec fn parse_u64_spec(s: Seq<char>) -> Result<u64, IntErrorKind> {
    if s.len() == 0 {
        Err(IntErrorKind::Empty)
    } else if s[0] == '+' {
        if s.len() == 1 {
            Err(IntErrorKind::InvalidDigit)
        } else {
            scan_digits(s.drop_first(), 0)
        }
    } else {
        scan_digits(s, 0)
    }
}

/// Parses an unsigned decimal integer the way `str::parse::<u64>` does.
pub fn parse_u64(s: &str) -> (r: Result<u64, IntErrorKind>)
    ensures
        r == parse_u64_spec(s@),
{
    let n = s.unicode_len();
    if n == 0 {
        return Err(IntErrorKind::Empty);
    }
    let mut i: usize = 0;
    if s.get_char(0) == '+' {
        if n == 1 {
            return Err(IntErrorKind::InvalidDigit);
        }
        i = 1;
    }
    let ghost digits = s@.skip(i as int);
    assert(i == 1 ==> s@.drop_first() =~= digits);
    assert(i == 0 ==> s@ =~= digits);
    assert(parse_u64_spec(s@) == scan_digits(digits, 0));
    let mut acc: u64 = 0;
    while i < n
        invariant
            n == s@.len(),
            i <= n,
            parse_u64_spec(s@) == scan_digits(s@.skip(i as int), acc as int),
        decreases n - i,
    {
        let c = s.get_char(i);
        assert(s@.skip(i as int)[0] == c);
        assert(s@.skip(i as int).drop_first() =~= s@.skip(i + 1));
        if !('0' <= c && c <= '9') {
            return Err(IntErrorKind::InvalidDigit);
        }
        let d = (c as u32 - '0' as u32) as u64;
        if acc > (u64::MAX - d) / 10 {
            assert(acc * 10 + d > u64::MAX) by (nonlinear_arith)
                requires
                    acc > (u64::MAX - d) / 10,
                    d <= 9,
            ;
            return Err(IntErrorKind::PosOverflow);
        }
        assert(acc * 10 + d <= u64::MAX) by (nonlinear_arith)
            requires
                acc <= (u64::MAX - d) / 10,
                d <= 9,
        ;
        acc = acc * 10 + d;
        i = i + 1;
    }
    assert(s@.skip(n as int) =~= Seq::<char>::empty());
    Ok(acc)
}

/// How the editor was launched: the arguments handed on to the runtime
/// (program name first) and the step count of `--step`, if any.
#[derive(Debug, Clone, PartialEq, Eq)]
pub struct EditorLaunch {
    pub runtime_args: Vec<String>,
    pub step_count: Option<u64>,
}

pub open spec fn strings_view(v: Seq<String>) -> Seq<Seq<char>> {
    v.map_values(|s: String| s@)
}

/// Walks the arguments after the program name: `--step <n>` sets the step
/// count, `--paused` is accepted and dropped, anything else is handed on to
/// the runtime.
pub open spec fn launch_args(rest: Seq<Seq<char>>, runtime: Seq<Seq<char>>, step: Option<u64>) -> Result<
    (Seq<Seq<char>>, Option<u64>),
    Seq<char>,
>
    decreases rest.len(),
{
    if rest.len() == 0 {
        Ok((runtime, step))
    } else if rest[0] == "--step"@ {
        if rest.len() < 2 {
            Err("expected step count after --step"@)
        } else {
            match parse_u64_spec(rest[1]) {
                Err(k) => Err("invalid step count '"@ + rest[1] + "': "@ + int_error_text(k)),
                Ok(n) => launch_args(rest.skip(2), runtime, Some(n)),
            }
        }
    } else if rest[0] == "--paused"@ {
        launch_args(rest.drop_first(), runtime, step)
    } else {
        launch_args(rest.drop_first(), runtime.push(rest[0]), step)
    }
}

/// The launch the arguments describe; the program name defaults to
/// `pie_editor` when even that is missing.
pub open spec fn editor_launch_spec(args: Seq<Seq<char>>) -> Result<(Seq<Seq<char>>, Option<u64>), Seq<char>> {
    if args.len() == 0 {
        Ok((seq!["pie_editor"@], None))
    } else {
        launch_args(args.drop_first(), seq![args[0]], None)
    }
}

fn int_error_string(k: IntErrorKind) -> (r: &'static str)
    ensures
        r@ == int_error_text(k),
{
    match k {
        IntErrorKind::Empty => "cannot parse integer from empty string",
        IntErrorKind::InvalidDigit => "invalid digit found in string",
        IntErrorKind::PosOverflow => "number too large to fit in target type",
    }
}

impl EditorLaunch {
    /// Parses the editor's command line (program name first).
    pub fn from_args(args: &[String]) -> (r: Result<EditorLaunch, String>)
        ensures
            match editor_launch_spec(strings_view(args@)) {
                Ok((rt, step)) => r matches Ok(l) && strings_view(l.runtime_args@) == rt
                    && l.step_count == step,
                Err(m) => r matches Err(e) && e@ == m,
            },
    {
        let ghost all = strings_view(args@);
        let n = args.len();
        let mut runtime_args: Vec<String> = Vec::new();
        if n == 0 {
            runtime_args.push(owned("pie_editor"));
            assert(strings_view(runtime_args@) =~= seq!["pie_editor"@]);
            return Ok(EditorLaunch { runtime_args, step_count: None });
        }
        runtime_args.push(args[0].clone());
        let mut step_count: Option<u64> = None;
        let mut index: usize = 1;
        assert(strings_view(runtime_args@) =~= seq![all[0]]);
        assert(all.drop_first() =~= all.skip(1));
        while index < n
            invariant
                n == args@.len(),
                all == strings_view(args@),
                1 <= index <= n,
                editor_launch_spec(all) == launch_args(
                    all.skip(index as int),
                    strings_view(runtime_args@),
                    step_count,
                ),
            decreases n - index,
        {
            let arg = args[index].as_str();
            let ghost rest = all.skip(index as int);
            proof {
                assert(rest[0] == arg@);
                assert(rest.drop_first() =~= all.skip(index + 1));
                reveal_strlit("--step");
                reveal_strlit("--paused");
            }
            if str_eq(arg, "--step") {
                if index + 1 >= n {
                    return Err(owned("expected step count after --step"));
                }
                let value = args[index + 1].as_str();
                proof {
                    assert(rest[1] == value@);
                    assert(rest.skip(2) =~= all.skip(index + 2));
                }
                match parse_u64(value) {
                    Err(k) => {
                        let mut m = owned("invalid step count '");
                        push_str(&mut m, value);
                        push_str(&mut m, "': ");
                        push_str(&mut m, int_error_string(k));
                        return Err(m);
                    },
                    Ok(v) => {
                        step_count = Some(v);
                    },
                }
                index = index + 2;
            } else if str_eq(arg, "--paused") {
                index = index + 1;
            } else {
                let ghost before = strings_view(runtime_args@);
                runtime_args.push(owned(arg));
                assert(strings_view(runtime_args@) =~= before.push(arg@));
                index = index + 1;
            }
        }
        assert(all.skip(n as int) =~= Seq::<Seq<char>>::empty());
        Ok(EditorLaunch { runtime_args, step_count })
    }
}

proof fn lemma_launch_args_prefix(rest: Seq<Seq<char>>, runtime: Seq<Seq<char>>, step: Option<u64>)
    ensures
        launch_args(rest, runtime, step) matches Ok((rt, _)) ==> rt.len() >= runtime.len()
            && rt.take(runtime.len() as int) == runtime,
    decreases rest.len(),
{
    if rest.len() > 0 {
        if rest[0] == "--step"@ {
            if rest.len() >= 2 {
                if let Ok(n) = parse_u64_spec(rest[1]) {
                    lemma_launch_args_prefix(rest.skip(2), runtime, Some(n));
                }
            }
        } else if rest[0] == "--paused"@ {
            lemma_launch_args_prefix(rest.drop_first(), runtime, step);
        } else {
            lemma_launch_args_prefix(rest.drop_first(), runtime.push(rest[0]), step);
            if let Ok((rt, _)) = launch_args(rest.drop_first(), runtime.push(rest[0]), step) {
                assert(rt.take(runtime.len() as int) =~= runtime.push(rest[0]).take(runtime.len() as int));
                assert(runtime.push(rest[0]).take(runtime.len() as int) =~= runtime);
            }
        }
    }
}

/// A successful launch hands the runtime the program name first (or
/// `pie_editor` when there was none).
pub proof fn law_launch_keeps_program_name(args: Seq<Seq<char>>)
    ensures
        editor_launch_spec(args) matches Ok((rt, _)) ==> rt.len() >= 1 && rt[0] == (if args.len() == 0 {
            "pie_editor"@
        } else {
            args[0]
        }),
{
    if args.len() > 0 {
        lemma_launch_args_prefix(args.drop_first(), seq![args[0]], None);
        if let Ok((rt, _)) = editor_launch_spec(args) {
            assert(rt.take(1)[0] == rt[0]);
        }
    }
}

} // verus!
