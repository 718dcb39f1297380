//! What an application is launched with: its configuration, its environment and the
//! places its state goes to.
use crate::error::{Error, ErrorView};
use crate::gsettings::{config_dir, KEYFILE_BACKEND};
use crate::snapshot::{self, Key};
use crate::text::{self, chars_of, clone_optional, clone_pairs, decimal_u64, joined, parse_u64};
use vstd::prelude::*;
use vstd::string::*;

verus! {

/// Environment variable with the default time limit of waits, in milliseconds.
pub const DEFAULT_TIMEOUT_ENV_VAR: &'static str = "WAYDRIVER_DEFAULT_TIMEOUT_MS";

/// Default time limit of waits where the variable does not give one.
pub const FALLBACK_DEFAULT_TIMEOUT_MS: u64 = 5_000;

/// Parameters of the application to launch in a session.
#[derive(Debug)]
pub struct SessionConfig {
    pub command: String,
    pub args: Vec<String>,
    pub cwd: Option<String>,
    /// Accessible name by which the application is found in the registry.
    pub app_name: String,
    /// Where to record a video of the display to, if at all.
    pub video_output: Option<String>,
    /// Target bitrate of the recording in bits per second.
    pub video_bitrate: Option<u32>,
    /// Frames per second of the recording.
    pub video_fps: Option<u32>,
    /// Whether to load the text recognition in the background.
    pub prewarm_visual: bool,
    /// Whether the application runs on the session's private settings store.
    pub gsettings_isolated: bool,
    /// Whether the application gets private state, data and cache directories.
    pub xdg_isolated: bool,
    /// Further environment variables, applied last.
    pub extra_env: Vec<(String, String)>,
    /// Whether notifications and requests to open a URI are captured.
    pub capture_external_effects: bool,
}

/// Which metric pixels are compared by.
#[derive(Debug, Clone, Copy, PartialEq, Eq, Structural)]
pub enum ColorDistance {
    /// Euclidean distance of the raw colours.
    Rgb,
    /// CIE 1976 distance: perceptual and cheap.
    LabCie76,
    /// CIE 2000 distance: the most perceptual, and the slowest.
    LabCie2000,
}

impl Default for ColorDistance {
    fn default() -> (r: Self)
        ensures
            r == ColorDistance::LabCie76,
    {
        ColorDistance::LabCie76
    }
}

// ── Time limits and addresses ───────────────────────────────────────────────

/// The default time limit, in milliseconds, that a value of the environment variable
/// stands for.
pub open spec fn default_timeout_ms(var: Option<Seq<char>>) -> u64 {
    match var {
        Some(s) => match text::parsed_int(s, false, 0, u64::MAX as int) {
            Some(ms) => ms as u64,
            None => FALLBACK_DEFAULT_TIMEOUT_MS,
        },
        None => FALLBACK_DEFAULT_TIMEOUT_MS,
    }
}

/// The default time limit, in milliseconds, given the value of
/// [`DEFAULT_TIMEOUT_ENV_VAR`]: a value that is no number of milliseconds counts as
/// none.
pub fn resolve_default_timeout(var: Option<&str>) -> (r: u64)
    ensures
        r == default_timeout_ms(
            match var {
                Some(s) => Some(s@),
                None => None,
            },
        ),
{
    match var {
        Some(s) => match parse_u64(&chars_of(s)) {
            Some(ms) => ms,
            None => FALLBACK_DEFAULT_TIMEOUT_MS,
        },
        None => FALLBACK_DEFAULT_TIMEOUT_MS,
    }
}

/// The address of the session bus of the user with this id, where the environment does
/// not give one.
pub open spec fn user_bus(uid: u32) -> Seq<char> {
    "unix:path=/run/user/"@ + text::decimal(uid as nat) + "/bus"@
}

/// The address of the session bus, given the one in the environment.
pub open spec fn session_bus(env_addr: Option<Seq<char>>, uid: u32) -> Seq<char> {
    match env_addr {
        Some(a) => a,
        None => user_bus(uid),
    }
}

/// The address of the session bus: the one in the environment, or that of the user.
pub fn get_host_session_bus_inner(env_addr: Option<&str>, uid: u32) -> (r: String)
    ensures
        r@ == (match env_addr {
            Some(a) => a@,
            None => user_bus(uid),
        }),
        r@ == session_bus(
            match env_addr {
                Some(a) => Some(a@),
                None => None,
            },
            uid,
        ),
{
    match env_addr {
        Some(a) => a.to_string(),
        None => {
            let mut s = "unix:path=/run/user/".to_string();
            s.append(decimal_u64(uid as u64).as_str());
            s.append("/bus");
            s
        },
    }
}

// ── Environment ─────────────────────────────────────────────────────────────

/// The private state, data and cache directories of a session.
pub open spec fn xdg_dirs(runtime_dir: Seq<char>) -> Seq<Key> {
    seq![
        ("XDG_STATE_HOME"@, text::joined_path(runtime_dir, "xdg-state"@)),
        ("XDG_DATA_HOME"@, text::joined_path(runtime_dir, "xdg-data"@)),
        ("XDG_CACHE_HOME"@, text::joined_path(runtime_dir, "xdg-cache"@)),
    ]
}

/// The private state, data and cache directories of a session, each with the variable
/// that points at it.
pub fn isolated_xdg_env(runtime_dir: &str) -> (r: Vec<(String, String)>)
    ensures
        snapshot::keys_of(r@) == xdg_dirs(runtime_dir@),
{
    let v = vec![
        ("XDG_STATE_HOME".to_string(), joined(runtime_dir, "xdg-state")),
        ("XDG_DATA_HOME".to_string(), joined(runtime_dir, "xdg-data")),
        ("XDG_CACHE_HOME".to_string(), joined(runtime_dir, "xdg-cache")),
    ];
    assert(snapshot::keys_of(v@) =~= xdg_dirs(runtime_dir@));
    v
}

/// The variables that every application gets.
pub open spec fn core_env(
    wayland_display: Seq<char>,
    runtime_dir: Seq<char>,
    dbus_address: Seq<char>,
) -> Seq<Key> {
    seq![
        ("WAYLAND_DISPLAY"@, wayland_display),
        ("DBUS_SESSION_BUS_ADDRESS"@, dbus_address),
        ("XDG_RUNTIME_DIR"@, runtime_dir),
        ("NO_AT_BRIDGE"@, "0"@),
        ("GTK_A11Y"@, "atspi"@),
    ]
}

/// The variables that select the private settings store.
pub open spec fn settings_env(runtime_dir: Seq<char>) -> Seq<Key> {
    seq![
        ("XDG_CONFIG_HOME"@, text::joined_path(runtime_dir, "config"@)),
        ("GSETTINGS_BACKEND"@, KEYFILE_BACKEND@),
    ]
}

/// The environment of an application, in the order in which it is applied.
pub open spec fn app_env(
    gsettings_isolated: bool,
    xdg_isolated: bool,
    extra_env: Seq<Key>,
    wayland_display: Seq<char>,
    runtime_dir: Seq<char>,
    dbus_address: Seq<char>,
) -> Seq<Key> {
    core_env(wayland_display, runtime_dir, dbus_address) + (if gsettings_isolated {
        settings_env(runtime_dir)
    } else {
        seq![]
    }) + (if xdg_isolated {
        xdg_dirs(runtime_dir)
    } else {
        seq![]
    }) + extra_env
}

fn extend(env: &mut Vec<(String, String)>, more: &Vec<(String, String)>)
    ensures
        snapshot::keys_of(final(env)@) == snapshot::keys_of(old(env)@) + snapshot::keys_of(more@),
{
    let ghost before = snapshot::keys_of(env@);
    let ghost add = snapshot::keys_of(more@);
    let mut i: usize = 0;
    assert(before + add.take(0) =~= before);
    while i < more.len()
        invariant
            i <= more.len(),
            add == snapshot::keys_of(more@),
            snapshot::keys_of(env@) == before + add.take(i as int),
        decreases more.len() - i,
    {
        let ghost was = env@;
        let pair = (more[i].0.clone(), more[i].1.clone());
        let ghost key = snapshot::key_of(pair);
        env.push(pair);
        assert(key == add[i as int]);
        assert(snapshot::keys_of(env@) =~= snapshot::keys_of(was).push(key));
        assert(add.take(i + 1) =~= add.take(i as int).push(key));
        assert(snapshot::keys_of(env@) =~= before + add.take(i + 1));
        i = i + 1;
    }
    assert(add.take(i as int) =~= add);
}

/// The environment to launch the application with, also as a secondary instance, so
/// that both share display, bus, directories and settings. The configured variables
/// come last and override the session's own.
pub fn app_env_pairs(
    cfg: &SessionConfig,
    wayland_display: &str,
    runtime_dir: &str,
    dbus_address: &str,
) -> (r: Vec<(String, String)>)
    ensures
        snapshot::keys_of(r@) == app_env(
            cfg.gsettings_isolated,
            cfg.xdg_isolated,
            snapshot::keys_of(cfg.extra_env@),
            wayland_display@,
            runtime_dir@,
            dbus_address@,
        ),
        ({
            let env = snapshot::keys_of(r@);
            let extra = snapshot::keys_of(cfg.extra_env@);
            &&& effective(extra, "WAYLAND_DISPLAY"@) is None ==> effective(env, "WAYLAND_DISPLAY"@)
                == Some(wayland_display@)
            &&& effective(extra, "XDG_RUNTIME_DIR"@) is None ==> effective(env, "XDG_RUNTIME_DIR"@)
                == Some(runtime_dir@)
            &&& effective(extra, "DBUS_SESSION_BUS_ADDRESS"@) is None ==> effective(
                env,
                "DBUS_SESSION_BUS_ADDRESS"@,
            ) == Some(dbus_address@)
        }),
{
    let mut env = vec![
        ("WAYLAND_DISPLAY".to_string(), wayland_display.to_string()),
        ("DBUS_SESSION_BUS_ADDRESS".to_string(), dbus_address.to_string()),
        ("XDG_RUNTIME_DIR".to_string(), runtime_dir.to_string()),
        ("NO_AT_BRIDGE".to_string(), "0".to_string()),
        ("GTK_A11Y".to_string(), "atspi".to_string()),
    ];
    let ghost core = core_env(wayland_display@, runtime_dir@, dbus_address@);
    let ghost none = Seq::<Key>::empty();
    assert(snapshot::keys_of(env@) =~= core);
    if cfg.gsettings_isolated {
        let more = vec![
            ("XDG_CONFIG_HOME".to_string(), config_dir(runtime_dir)),
            ("GSETTINGS_BACKEND".to_string(), KEYFILE_BACKEND.to_string()),
        ];
        assert(snapshot::keys_of(more@) =~= settings_env(runtime_dir@));
        extend(&mut env, &more);
    } else {
        assert(core + none =~= core);
    }
    let ghost settled = snapshot::keys_of(env@);
    if cfg.xdg_isolated {
        extend(&mut env, &isolated_xdg_env(runtime_dir));
    } else {
        assert(settled + none =~= settled);
    }
    extend(&mut env, &cfg.extra_env);
    proof {
        law_application_finds_the_session(
            cfg.gsettings_isolated,
            cfg.xdg_isolated,
            snapshot::keys_of(cfg.extra_env@),
            wayland_display@,
            runtime_dir@,
            dbus_address@,
        );
    }
    env
}

/// The directories that have to exist before the application is launched.
pub open spec fn launch_dirs(
    gsettings_isolated: bool,
    xdg_isolated: bool,
    runtime_dir: Seq<char>,
) -> Seq<Seq<char>> {
    (if gsettings_isolated {
        seq![text::joined_path(runtime_dir, "config"@)]
    } else {
        seq![]
    }) + (if xdg_isolated {
        xdg_dirs(runtime_dir).map_values(|k: Key| k.1)
    } else {
        seq![]
    })
}

/// The directories to create before the application is launched.
pub fn directories(cfg: &SessionConfig, runtime_dir: &str) -> (r: Vec<String>)
    ensures
        crate::atspi::texts(r@) == launch_dirs(
            cfg.gsettings_isolated,
            cfg.xdg_isolated,
            runtime_dir@,
        ),
{
    let mut dirs: Vec<String> = Vec::new();
    if cfg.gsettings_isolated {
        dirs.push(config_dir(runtime_dir));
    }
    if cfg.xdg_isolated {
        dirs.push(joined(runtime_dir, "xdg-state"));
        dirs.push(joined(runtime_dir, "xdg-data"));
        dirs.push(joined(runtime_dir, "xdg-cache"));
    }
    assert(crate::atspi::texts(dirs@) =~= launch_dirs(
        cfg.gsettings_isolated,
        cfg.xdg_isolated,
        runtime_dir@,
    ));
    dirs
}

// ── Secondary instances ─────────────────────────────────────────────────────

/// How long a secondary instance may take to exit, in seconds.
pub const SECONDARY_LAUNCH_TIMEOUT_SECS: u64 = 15;

/// What it takes to launch the application again beside the running one.
#[derive(Debug)]
pub struct SecondaryLaunchSpec {
    pub command: String,
    pub env: Vec<(String, String)>,
    pub cwd: Option<String>,
}

/// What a secondary instance left behind.
#[derive(Debug, Clone)]
pub struct SecondaryInstance {
    /// Its exit code; `None` where a signal killed it.
    pub exit_code: Option<i32>,
    pub stdout: String,
    pub stderr: String,
}

/// Whether `spec` launches the application of `cfg` again with this environment.
pub open spec fn relaunches(
    cfg: SessionConfig,
    env: Seq<(String, String)>,
    spec: SecondaryLaunchSpec,
) -> bool {
    &&& spec.command@ == cfg.command@
    &&& spec.env@ == env
    &&& crate::error::optional(spec.cwd) == crate::error::optional(cfg.cwd)
}

/// The error of an application that could not be spawned.
pub open spec fn not_spawned(command: Seq<char>, cause: Seq<char>) -> ErrorView {
    ErrorView::Process {
        message: crate::error::caused("app '"@ + command + "'"@, cause),
        source: Some(cause),
    }
}

/// The error of a secondary instance that could not be spawned.
pub open spec fn secondary_not_spawned(command: Seq<char>, cause: Seq<char>) -> ErrorView {
    ErrorView::Process {
        message: crate::error::caused("launch secondary '"@ + command + "'"@, cause),
        source: Some(cause),
    }
}

/// The error of a secondary instance that did not exit within the given time.
pub open spec fn secondary_too_slow(command: Seq<char>, secs: u64, nanos: u32) -> ErrorView {
    ErrorView::Timeout(
        "secondary instance '"@ + command + "' did not exit within "@ + text::duration_text(
            secs,
            nanos,
        ),
    )
}

/// What it takes to launch the application again with this environment.
pub fn secondary_spec(cfg: &SessionConfig, env: &Vec<(String, String)>) -> (r:
    SecondaryLaunchSpec)
    ensures
        r.command@ == cfg.command@,
        r.env@ == env@,
        crate::error::optional(r.cwd) == crate::error::optional(cfg.cwd),
        relaunches(*cfg, env@, r),
{
    SecondaryLaunchSpec {
        command: cfg.command.clone(),
        env: clone_pairs(env),
        cwd: clone_optional(&cfg.cwd),
    }
}

/// The error of an application that could not be spawned.
pub fn spawn_error(command: &str, cause: &str) -> (r: Error)
    ensures
        r@ == (ErrorView::Process {
            message: crate::error::caused("app '"@ + command@ + "'"@, cause@),
            source: Some(cause@),
        }),
        r@ == not_spawned(command@, cause@),
{
    let mut m = "app '".to_string();
    m.append(command);
    m.append("'");
    Error::process_with(m.as_str(), cause)
}

/// The error of a secondary instance that could not be spawned.
pub fn secondary_error(command: &str, cause: &str) -> (r: Error)
    ensures
        r@ == (ErrorView::Process {
            message: crate::error::caused("launch secondary '"@ + command@ + "'"@, cause@),
            source: Some(cause@),
        }),
        r@ == secondary_not_spawned(command@, cause@),
{
    let mut m = "launch secondary '".to_string();
    m.append(command);
    m.append("'");
    Error::process_with(m.as_str(), cause)
}

/// The error of a secondary instance that did not exit within the given time.
pub fn secondary_timeout(command: &str, secs: u64, nanos: u32) -> (r: Error)
    requires
        nanos < 1_000_000_000,
    ensures
        r@ == ErrorView::Timeout(
            "secondary instance '"@ + command@ + "' did not exit within "@ + text::duration_text(
                secs,
                nanos,
            ),
        ),
        r@ == secondary_too_slow(command@, secs, nanos),
{
    let mut m = "secondary instance '".to_string();
    m.append(command);
    m.append("' did not exit within ");
    m.append(text::duration_debug(secs, nanos).as_str());
    Error::Timeout(m)
}

// ── Laws ────────────────────────────────────────────────────────────────────

/// The value that a variable ends up with when pairs are applied in order.
pub open spec fn effective(env: Seq<Key>, name: Seq<char>) -> Option<Seq<char>>
    decreases env.len(),
{
    if env.len() == 0 {
        None
    } else if env.last().0 == name {
        Some(env.last().1)
    } else {
        effective(env.drop_last(), name)
    }
}

proof fn lemma_effective_sum(a: Seq<Key>, b: Seq<Key>, name: Seq<char>)
    ensures
        effective(a + b, name) == (match effective(b, name) {
            Some(v) => Some(v),
            None => effective(a, name),
        }),
    decreases b.len(),
{
    if b.len() == 0 {
        assert(a + b =~= a);
    } else {
        assert((a + b).drop_last() =~= a + b.drop_last());
        assert((a + b).last() == b.last());
        lemma_effective_sum(a, b.drop_last(), name);
    }
}

/// What the configuration sets overrides anything that the session set.
pub proof fn law_extra_env_overrides(
    gsettings_isolated: bool,
    xdg_isolated: bool,
    extra_env: Seq<Key>,
    wayland_display: Seq<char>,
    runtime_dir: Seq<char>,
    dbus_address: Seq<char>,
    name: Seq<char>,
)
    ensures
        ({
            let env = app_env(
                gsettings_isolated,
                xdg_isolated,
                extra_env,
                wayland_display,
                runtime_dir,
                dbus_address,
            );
            let own = app_env(
                gsettings_isolated,
                xdg_isolated,
                seq![],
                wayland_display,
                runtime_dir,
                dbus_address,
            );
            effective(env, name) == (match effective(extra_env, name) {
                Some(v) => Some(v),
                None => effective(own, name),
            })
        }),
{
    let own = app_env(
        gsettings_isolated,
        xdg_isolated,
        seq![],
        wayland_display,
        runtime_dir,
        dbus_address,
    );
    let env = app_env(
        gsettings_isolated,
        xdg_isolated,
        extra_env,
        wayland_display,
        runtime_dir,
        dbus_address,
    );
    assert(env =~= own + extra_env);
    lemma_effective_sum(own, extra_env, name);
}

/// The session itself never sets `HOME`.
pub proof fn law_home_is_left_alone(
    gsettings_isolated: bool,
    xdg_isolated: bool,
    wayland_display: Seq<char>,
    runtime_dir: Seq<char>,
    dbus_address: Seq<char>,
)
    ensures
        effective(
            app_env(
                gsettings_isolated,
                xdg_isolated,
                seq![],
                wayland_display,
                runtime_dir,
                dbus_address,
            ),
            "HOME"@,
        ) is None,
{
    reveal_strlit("HOME");
    reveal_strlit("WAYLAND_DISPLAY");
    reveal_strlit("DBUS_SESSION_BUS_ADDRESS");
    reveal_strlit("XDG_RUNTIME_DIR");
    reveal_strlit("NO_AT_BRIDGE");
    reveal_strlit("GTK_A11Y");
    reveal_strlit("XDG_CONFIG_HOME");
    reveal_strlit("GSETTINGS_BACKEND");
    reveal_strlit("XDG_STATE_HOME");
    reveal_strlit("XDG_DATA_HOME");
    reveal_strlit("XDG_CACHE_HOME");
    let env = app_env(
        gsettings_isolated,
        xdg_isolated,
        seq![],
        wayland_display,
        runtime_dir,
        dbus_address,
    );
    assert forall|i: int| 0 <= i < env.len() implies (#[trigger] env[i]).0.len() > 4 by {}
    lemma_longer_names(env, "HOME"@);
}

proof fn lemma_longer_names(env: Seq<Key>, name: Seq<char>)
    requires
        forall|i: int| 0 <= i < env.len() ==> (#[trigger] env[i]).0.len() > name.len(),
    ensures
        effective(env, name) is None,
    decreases env.len(),
{
    if env.len() > 0 {
        assert(env[env.len() - 1].0.len() > name.len());
        let front = env.drop_last();
        assert forall|i: int| 0 <= i < front.len() implies (#[trigger] front[i]).0.len()
            > name.len() by {
            assert(front[i] == env[i]);
        }
        lemma_longer_names(front, name);
    }
}

/// The private directories lie below the session's runtime directory, so that they
/// vanish with it, and no two are the same.
pub proof fn law_private_dirs_are_apart(runtime_dir: Seq<char>)
    ensures
        ({
            let dirs = launch_dirs(true, true, runtime_dir);
            &&& dirs.len() == 4
            &&& forall|i: int|
                0 <= i < dirs.len() ==> (#[trigger] dirs[i]).len() > runtime_dir.len()
                    && dirs[i].take(runtime_dir.len() as int) == runtime_dir
            &&& forall|i: int, j: int|
                0 <= i < j < dirs.len() ==> #[trigger] dirs[i] != #[trigger] dirs[j]
        }),
{
    reveal_strlit("config");
    reveal_strlit("xdg-state");
    reveal_strlit("xdg-data");
    reveal_strlit("xdg-cache");
    reveal_strlit("/");
    let dirs = launch_dirs(true, true, runtime_dir);
    let n = runtime_dir.len() as int;
    assert forall|i: int| 0 <= i < dirs.len() implies (#[trigger] dirs[i]).len()
        > runtime_dir.len() && dirs[i].take(runtime_dir.len() as int) == runtime_dir by {
        assert(dirs[i].take(n) =~= runtime_dir);
    }
    assert(dirs[0] == text::joined_path(runtime_dir, "config"@));
    assert(dirs[1] == text::joined_path(runtime_dir, "xdg-state"@));
    assert(dirs[2] == text::joined_path(runtime_dir, "xdg-data"@));
    assert(dirs[3] == text::joined_path(runtime_dir, "xdg-cache"@));
    assert(dirs[1].last() == 'e');
    assert(dirs[2].last() == 'a');
    assert(dirs[3].last() == 'e');
    assert(dirs[0].last() == 'g');
    assert(dirs[1][dirs[1].len() - 2] == 't');
    assert(dirs[3][dirs[3].len() - 2] == 'h');
}

proof fn lemma_effective_front(rest: Seq<Key>, k: Seq<char>, v: Seq<char>, name: Seq<char>)
    ensures
        effective(rest + seq![(k, v)], name) == (if k == name {
            Some(v)
        } else {
            effective(rest, name)
        }),
{
    let env = rest + seq![(k, v)];
    assert(env.drop_last() =~= rest);
    assert(env.last() == (k, v));
}

proof fn lemma_variables_differ()
    ensures
        ({
            let names = seq![
                "WAYLAND_DISPLAY"@,
                "DBUS_SESSION_BUS_ADDRESS"@,
                "XDG_RUNTIME_DIR"@,
                "NO_AT_BRIDGE"@,
                "GTK_A11Y"@,
                "XDG_CONFIG_HOME"@,
                "GSETTINGS_BACKEND"@,
                "XDG_STATE_HOME"@,
                "XDG_DATA_HOME"@,
                "XDG_CACHE_HOME"@,
            ];
            forall|i: int, j: int|
                0 <= i < names.len() && 0 <= j < names.len() && i != j ==> #[trigger] names[i]
                    != #[trigger] names[j]
        }),
{
    reveal_strlit("WAYLAND_DISPLAY");
    reveal_strlit("DBUS_SESSION_BUS_ADDRESS");
    reveal_strlit("XDG_RUNTIME_DIR");
    reveal_strlit("NO_AT_BRIDGE");
    reveal_strlit("GTK_A11Y");
    reveal_strlit("XDG_CONFIG_HOME");
    reveal_strlit("GSETTINGS_BACKEND");
    reveal_strlit("XDG_STATE_HOME");
    reveal_strlit("XDG_DATA_HOME");
    reveal_strlit("XDG_CACHE_HOME");
    assert("WAYLAND_DISPLAY"@[4] == 'A' && "WAYLAND_DISPLAY"@[0] == 'W');
    assert("DBUS_SESSION_BUS_ADDRESS"@[0] == 'D');
    assert("XDG_RUNTIME_DIR"@[4] == 'R' && "XDG_RUNTIME_DIR"@[0] == 'X');
    assert("NO_AT_BRIDGE"@[0] == 'N');
    assert("GTK_A11Y"@[0] == 'G' && "GTK_A11Y"@[1] == 'T');
    assert("XDG_CONFIG_HOME"@[4] == 'C' && "XDG_CONFIG_HOME"@[0] == 'X' && "XDG_CONFIG_HOME"@[5]
        == 'O');
    assert("GSETTINGS_BACKEND"@[0] == 'G' && "GSETTINGS_BACKEND"@[1] == 'S');
    assert("XDG_STATE_HOME"@[4] == 'S' && "XDG_STATE_HOME"@[0] == 'X');
    assert("XDG_DATA_HOME"@[4] == 'D' && "XDG_DATA_HOME"@[0] == 'X');
    assert("XDG_CACHE_HOME"@[4] == 'C' && "XDG_CACHE_HOME"@[0] == 'X' && "XDG_CACHE_HOME"@[5]
        == 'A');
}

proof fn lemma_own_variables(
    gsettings_isolated: bool,
    xdg_isolated: bool,
    wayland_display: Seq<char>,
    runtime_dir: Seq<char>,
    dbus_address: Seq<char>,
    name: Seq<char>,
)
    ensures
        effective(
            app_env(
                gsettings_isolated,
                xdg_isolated,
                seq![],
                wayland_display,
                runtime_dir,
                dbus_address,
            ),
            name,
        ) == (if name == "WAYLAND_DISPLAY"@ {
            Some(wayland_display)
        } else if name == "DBUS_SESSION_BUS_ADDRESS"@ {
            Some(dbus_address)
        } else if name == "XDG_RUNTIME_DIR"@ {
            Some(runtime_dir)
        } else if name == "NO_AT_BRIDGE"@ {
            Some("0"@)
        } else if name == "GTK_A11Y"@ {
            Some("atspi"@)
        } else if gsettings_isolated && name == "XDG_CONFIG_HOME"@ {
            Some(text::joined_path(runtime_dir, "config"@))
        } else if gsettings_isolated && name == "GSETTINGS_BACKEND"@ {
            Some("keyfile"@)
        } else if xdg_isolated && name == "XDG_STATE_HOME"@ {
            Some(text::joined_path(runtime_dir, "xdg-state"@))
        } else if xdg_isolated && name == "XDG_DATA_HOME"@ {
            Some(text::joined_path(runtime_dir, "xdg-data"@))
        } else if xdg_isolated && name == "XDG_CACHE_HOME"@ {
            Some(text::joined_path(runtime_dir, "xdg-cache"@))
        } else {
            None
        }),
{
    lemma_variables_differ();
    let names = seq![
        "WAYLAND_DISPLAY"@,
        "DBUS_SESSION_BUS_ADDRESS"@,
        "XDG_RUNTIME_DIR"@,
        "NO_AT_BRIDGE"@,
        "GTK_A11Y"@,
        "XDG_CONFIG_HOME"@,
        "GSETTINGS_BACKEND"@,
        "XDG_STATE_HOME"@,
        "XDG_DATA_HOME"@,
        "XDG_CACHE_HOME"@,
    ];
    assert(names[0] == "WAYLAND_DISPLAY"@ && names[1] == "DBUS_SESSION_BUS_ADDRESS"@ && names[2]
        == "XDG_RUNTIME_DIR"@ && names[3] == "NO_AT_BRIDGE"@ && names[4] == "GTK_A11Y"@ && names[5]
        == "XDG_CONFIG_HOME"@ && names[6] == "GSETTINGS_BACKEND"@ && names[7] == "XDG_STATE_HOME"@
        && names[8] == "XDG_DATA_HOME"@ && names[9] == "XDG_CACHE_HOME"@);
    let e0 = Seq::<Key>::empty();
    let e1 = e0 + seq![("WAYLAND_DISPLAY"@, wayland_display)];
    let e2 = e1 + seq![("DBUS_SESSION_BUS_ADDRESS"@, dbus_address)];
    let e3 = e2 + seq![("XDG_RUNTIME_DIR"@, runtime_dir)];
    let e4 = e3 + seq![("NO_AT_BRIDGE"@, "0"@)];
    let core = e4 + seq![("GTK_A11Y"@, "atspi"@)];
    lemma_effective_front(e0, "WAYLAND_DISPLAY"@, wayland_display, name);
    lemma_effective_front(e1, "DBUS_SESSION_BUS_ADDRESS"@, dbus_address, name);
    lemma_effective_front(e2, "XDG_RUNTIME_DIR"@, runtime_dir, name);
    lemma_effective_front(e3, "NO_AT_BRIDGE"@, "0"@, name);
    lemma_effective_front(e4, "GTK_A11Y"@, "atspi"@, name);
    assert(core_env(wayland_display, runtime_dir, dbus_address) =~= core);
    let c1 = core + seq![("XDG_CONFIG_HOME"@, text::joined_path(runtime_dir, "config"@))];
    let c2 = c1 + seq![("GSETTINGS_BACKEND"@, "keyfile"@)];
    lemma_effective_front(
        core,
        "XDG_CONFIG_HOME"@,
        text::joined_path(runtime_dir, "config"@),
        name,
    );
    lemma_effective_front(c1, "GSETTINGS_BACKEND"@, "keyfile"@, name);
    let settled = if gsettings_isolated {
        c2
    } else {
        core
    };
    let x1 = settled + seq![("XDG_STATE_HOME"@, text::joined_path(runtime_dir, "xdg-state"@))];
    let x2 = x1 + seq![("XDG_DATA_HOME"@, text::joined_path(runtime_dir, "xdg-data"@))];
    let x3 = x2 + seq![("XDG_CACHE_HOME"@, text::joined_path(runtime_dir, "xdg-cache"@))];
    lemma_effective_front(
        settled,
        "XDG_STATE_HOME"@,
        text::joined_path(runtime_dir, "xdg-state"@),
        name,
    );
    lemma_effective_front(x1, "XDG_DATA_HOME"@, text::joined_path(runtime_dir, "xdg-data"@), name);
    lemma_effective_front(
        x2,
        "XDG_CACHE_HOME"@,
        text::joined_path(runtime_dir, "xdg-cache"@),
        name,
    );
    let own = app_env(
        gsettings_isolated,
        xdg_isolated,
        seq![],
        wayland_display,
        runtime_dir,
        dbus_address,
    );
    assert(own =~= if xdg_isolated {
        x3
    } else {
        settled
    });
}

/// The application finds the session's display, bus and runtime directory, with its
/// accessibility bridge on, unless the configuration sets these variables.
pub proof fn law_application_finds_the_session(
    gsettings_isolated: bool,
    xdg_isolated: bool,
    extra_env: Seq<Key>,
    wayland_display: Seq<char>,
    runtime_dir: Seq<char>,
    dbus_address: Seq<char>,
)
    ensures
        ({
            let env = app_env(
                gsettings_isolated,
                xdg_isolated,
                extra_env,
                wayland_display,
                runtime_dir,
                dbus_address,
            );
            &&& effective(extra_env, "WAYLAND_DISPLAY"@) is None ==> effective(
                env,
                "WAYLAND_DISPLAY"@,
            ) == Some(wayland_display)
            &&& effective(extra_env, "XDG_RUNTIME_DIR"@) is None ==> effective(
                env,
                "XDG_RUNTIME_DIR"@,
            ) == Some(runtime_dir)
            &&& effective(extra_env, "DBUS_SESSION_BUS_ADDRESS"@) is None ==> effective(
                env,
                "DBUS_SESSION_BUS_ADDRESS"@,
            ) == Some(dbus_address)
            &&& effective(extra_env, "NO_AT_BRIDGE"@) is None ==> effective(env, "NO_AT_BRIDGE"@)
                == Some("0"@)
            &&& effective(extra_env, "GTK_A11Y"@) is None ==> effective(env, "GTK_A11Y"@) == Some(
                "atspi"@,
            )
        }),
{
    lemma_variables_differ();
    let names = seq![
        "WAYLAND_DISPLAY"@,
        "DBUS_SESSION_BUS_ADDRESS"@,
        "XDG_RUNTIME_DIR"@,
        "NO_AT_BRIDGE"@,
        "GTK_A11Y"@,
        "XDG_CONFIG_HOME"@,
        "GSETTINGS_BACKEND"@,
        "XDG_STATE_HOME"@,
        "XDG_DATA_HOME"@,
        "XDG_CACHE_HOME"@,
    ];
    assert(names[0] == "WAYLAND_DISPLAY"@ && names[1] == "DBUS_SESSION_BUS_ADDRESS"@ && names[2]
        == "XDG_RUNTIME_DIR"@ && names[3] == "NO_AT_BRIDGE"@ && names[4] == "GTK_A11Y"@);
    let (g, x, w, r, d) = (
        gsettings_isolated,
        xdg_isolated,
        wayland_display,
        runtime_dir,
        dbus_address,
    );
    law_extra_env_overrides(g, x, extra_env, w, r, d, "WAYLAND_DISPLAY"@);
    lemma_own_variables(g, x, w, r, d, "WAYLAND_DISPLAY"@);
    law_extra_env_overrides(g, x, extra_env, w, r, d, "XDG_RUNTIME_DIR"@);
    lemma_own_variables(g, x, w, r, d, "XDG_RUNTIME_DIR"@);
    law_extra_env_overrides(g, x, extra_env, w, r, d, "DBUS_SESSION_BUS_ADDRESS"@);
    lemma_own_variables(g, x, w, r, d, "DBUS_SESSION_BUS_ADDRESS"@);
    law_extra_env_overrides(g, x, extra_env, w, r, d, "NO_AT_BRIDGE"@);
    lemma_own_variables(g, x, w, r, d, "NO_AT_BRIDGE"@);
    law_extra_env_overrides(g, x, extra_env, w, r, d, "GTK_A11Y"@);
    lemma_own_variables(g, x, w, r, d, "GTK_A11Y"@);
}

/// Private settings and private directories are handed to the application exactly where
/// they are asked for, each a directory below the session's own.
pub proof fn law_isolation_is_handed_on(
    gsettings_isolated: bool,
    xdg_isolated: bool,
    wayland_display: Seq<char>,
    runtime_dir: Seq<char>,
    dbus_address: Seq<char>,
)
    ensures
        ({
            let env = app_env(
                gsettings_isolated,
                xdg_isolated,
                seq![],
                wayland_display,
                runtime_dir,
                dbus_address,
            );
            let below = |rel: Seq<char>| Some(text::joined_path(runtime_dir, rel));
            &&& effective(env, "XDG_CONFIG_HOME"@) == (if gsettings_isolated {
                below("config"@)
            } else {
                None
            })
            &&& effective(env, "GSETTINGS_BACKEND"@) == (if gsettings_isolated {
                Some("keyfile"@)
            } else {
                None
            })
            &&& effective(env, "XDG_STATE_HOME"@) == (if xdg_isolated {
                below("xdg-state"@)
            } else {
                None
            })
            &&& effective(env, "XDG_DATA_HOME"@) == (if xdg_isolated {
                below("xdg-data"@)
            } else {
                None
            })
            &&& effective(env, "XDG_CACHE_HOME"@) == (if xdg_isolated {
                below("xdg-cache"@)
            } else {
                None
            })
        }),
{
    lemma_variables_differ();
    let names = seq![
        "WAYLAND_DISPLAY"@,
        "DBUS_SESSION_BUS_ADDRESS"@,
        "XDG_RUNTIME_DIR"@,
        "NO_AT_BRIDGE"@,
        "GTK_A11Y"@,
        "XDG_CONFIG_HOME"@,
        "GSETTINGS_BACKEND"@,
        "XDG_STATE_HOME"@,
        "XDG_DATA_HOME"@,
        "XDG_CACHE_HOME"@,
    ];
    assert(names[0] == "WAYLAND_DISPLAY"@ && names[1] == "DBUS_SESSION_BUS_ADDRESS"@ && names[2]
        == "XDG_RUNTIME_DIR"@ && names[3] == "NO_AT_BRIDGE"@ && names[4] == "GTK_A11Y"@ && names[5]
        == "XDG_CONFIG_HOME"@ && names[6] == "GSETTINGS_BACKEND"@ && names[7] == "XDG_STATE_HOME"@
        && names[8] == "XDG_DATA_HOME"@ && names[9] == "XDG_CACHE_HOME"@);
    let (g, x, w, r, d) = (
        gsettings_isolated,
        xdg_isolated,
        wayland_display,
        runtime_dir,
        dbus_address,
    );
    lemma_own_variables(g, x, w, r, d, "XDG_CONFIG_HOME"@);
    lemma_own_variables(g, x, w, r, d, "GSETTINGS_BACKEND"@);
    lemma_own_variables(g, x, w, r, d, "XDG_STATE_HOME"@);
    lemma_own_variables(g, x, w, r, d, "XDG_DATA_HOME"@);
    lemma_own_variables(g, x, w, r, d, "XDG_CACHE_HOME"@);
}

/// The session sets no variable but its own ten.
pub proof fn law_other_variables_are_left_alone(
    gsettings_isolated: bool,
    xdg_isolated: bool,
    extra_env: Seq<Key>,
    wayland_display: Seq<char>,
    runtime_dir: Seq<char>,
    dbus_address: Seq<char>,
    name: Seq<char>,
)
    requires
        name != "WAYLAND_DISPLAY"@,
        name != "DBUS_SESSION_BUS_ADDRESS"@,
        name != "XDG_RUNTIME_DIR"@,
        name != "NO_AT_BRIDGE"@,
        name != "GTK_A11Y"@,
        name != "XDG_CONFIG_HOME"@,
        name != "GSETTINGS_BACKEND"@,
        name != "XDG_STATE_HOME"@,
        name != "XDG_DATA_HOME"@,
        name != "XDG_CACHE_HOME"@,
    ensures
        effective(
            app_env(
                gsettings_isolated,
                xdg_isolated,
                extra_env,
                wayland_display,
                runtime_dir,
                dbus_address,
            ),
            name,
        ) == effective(extra_env, name),
{
    let (g, x, w, r, d) = (
        gsettings_isolated,
        xdg_isolated,
        wayland_display,
        runtime_dir,
        dbus_address,
    );
    law_extra_env_overrides(g, x, extra_env, w, r, d, name);
    lemma_own_variables(g, x, w, r, d, name);
}

/// Every private directory that the application is pointed at is created first, and no other.
pub proof fn law_private_dirs_are_created(
    gsettings_isolated: bool,
    xdg_isolated: bool,
    wayland_display: Seq<char>,
    runtime_dir: Seq<char>,
    dbus_address: Seq<char>,
    dir: Seq<char>,
)
    ensures
        ({
            let env = app_env(
                gsettings_isolated,
                xdg_isolated,
                seq![],
                wayland_display,
                runtime_dir,
                dbus_address,
            );
            launch_dirs(gsettings_isolated, xdg_isolated, runtime_dir).contains(dir) <==> effective(
                env,
                "XDG_CONFIG_HOME"@,
            ) == Some(dir) || effective(env, "XDG_STATE_HOME"@) == Some(dir) || effective(
                env,
                "XDG_DATA_HOME"@,
            ) == Some(dir) || effective(env, "XDG_CACHE_HOME"@) == Some(dir)
        }),
{
    law_isolation_is_handed_on(
        gsettings_isolated,
        xdg_isolated,
        wayland_display,
        runtime_dir,
        dbus_address,
    );
    let dirs = launch_dirs(gsettings_isolated, xdg_isolated, runtime_dir);
    let at = if gsettings_isolated {
        1int
    } else {
        0
    };
    if gsettings_isolated {
        assert(dirs[0] == text::joined_path(runtime_dir, "config"@));
    }
    if xdg_isolated {
        assert(dirs[at] == text::joined_path(runtime_dir, "xdg-state"@));
        assert(dirs[at + 1] == text::joined_path(runtime_dir, "xdg-data"@));
        assert(dirs[at + 2] == text::joined_path(runtime_dir, "xdg-cache"@));
        assert(dirs.len() == at + 3);
    } else {
        assert(dirs.len() == at);
    }
}

/// The default time limit is the number of milliseconds that the variable gives, and five
/// seconds where it is not set or is no number.
pub proof fn law_time_limit_is_configured(ms: u64, s: Seq<char>)
    ensures
        default_timeout_ms(Some(text::decimal_int(ms as int))) == ms,
        default_timeout_ms(None) == 5_000,
        text::parsed_int(s, false, 0, u64::MAX as int) is None ==> default_timeout_ms(Some(s))
            == 5_000,
        s.len() == 0 ==> default_timeout_ms(Some(s)) == 5_000,
        s.contains(' ') || s.contains('-') || s.contains('.') ==> default_timeout_ms(Some(s))
            == 5_000,
{
    text::law_number_reads_back(ms as int, 0, u64::MAX as int);
    if text::parsed_int(s, false, 0, u64::MAX as int) is Some {
        text::law_only_numerals_are_read(s, false, 0, u64::MAX as int);
        assert forall|i: int| 0 <= i < s.len() implies s[i] != ' ' && s[i] != '-' && s[i]
            != '.' by {
            if i > 0 {
                assert('0' <= s[i] <= '9');
            }
        }
    }
}

/// Each user has a session bus of their own.
pub proof fn law_user_buses_differ(a: u32, b: u32)
    requires
        user_bus(a) == user_bus(b),
    ensures
        a == b,
        user_bus(a) == "unix:path=/run/user/"@ + text::decimal_int(a as int) + "/bus"@,
{
    let (front, back) = ("unix:path=/run/user/"@, "/bus"@);
    let (m, n) = (text::decimal(a as nat), text::decimal(b as nat));
    assert(user_bus(a).subrange(front.len() as int, user_bus(a).len() - back.len()) =~= m);
    assert(user_bus(b).subrange(front.len() as int, user_bus(b).len() - back.len()) =~= n);
    text::law_numerals_differ(a as int, b as int);
}

/// The limits of a launch: waits of five seconds where the variable gives no other limit, and
/// fifteen seconds for a secondary instance.
pub proof fn law_launch_limits()
    ensures
        DEFAULT_TIMEOUT_ENV_VAR@ == "WAYDRIVER_DEFAULT_TIMEOUT_MS"@,
        FALLBACK_DEFAULT_TIMEOUT_MS == 5_000,
        SECONDARY_LAUNCH_TIMEOUT_SECS == 15,
{
}

/// The session bus is the one that the environment names, and without one that of the user
/// with this id.
pub proof fn law_bus_of_the_environment_comes_first(address: Seq<char>, uid: u32)
    ensures
        session_bus(Some(address), uid) == address,
        session_bus(None, uid) == "unix:path=/run/user/"@ + text::decimal_int(uid as int)
            + "/bus"@,
{
}

/// The application is launched again as it was the first time: its own command in its own
/// directory, with the environment given.
pub proof fn law_relaunch_keeps_the_command(
    cfg: SessionConfig,
    env: Seq<(String, String)>,
    spec: SecondaryLaunchSpec,
)
    requires
        relaunches(cfg, env, spec),
    ensures
        spec.command@ == cfg.command@,
        spec.env@ == env,
        spec.cwd is Some <==> cfg.cwd is Some,
        cfg.cwd matches Some(dir) ==> spec.cwd->0@ == dir@,
{
}

/// The errors of a launch name the command in quotes and keep the cause, or tell the time.
pub proof fn law_launch_errors_name_the_command(
    command: Seq<char>,
    cause: Seq<char>,
    secs: u64,
    nanos: u32,
)
    ensures
        not_spawned(command, cause) matches ErrorView::Process { message, source } && message
            == "app '"@ + command + "': "@ + cause && source == Some(cause),
        secondary_not_spawned(command, cause) matches ErrorView::Process { message, source }
            && message == "launch secondary '"@ + command + "': "@ + cause && source == Some(cause),
        secondary_too_slow(command, secs, nanos) == ErrorView::Timeout(
            "secondary instance '"@ + command + "' did not exit within "@ + text::duration_text(
                secs,
                nanos,
            ),
        ),
{
    reveal_strlit("'");
    reveal_strlit(": ");
    reveal_strlit("': ");
    assert("app '"@ + command + "'"@ + ": "@ + cause =~= "app '"@ + command + "': "@ + cause);
    assert("launch secondary '"@ + command + "'"@ + ": "@ + cause =~= "launch secondary '"@ + command
        + "': "@ + cause);
}

} // verus!
