//! Starting and stopping the game: the configuration, the command line that
//! is built from it, and the state machine of the launch manager.
//!
//! The manager does not touch the operating system. Each operation that
//! needs the game process either hands out what has to be done with it or
//! takes what was observed of it.

use vstd::prelude::*;
use vstd::string::StringExecFns;
use crate::text::{clone_text, decimal, push_decimal, text_of, texts_of};

verus! {

/// Where the game process stands.
#[derive(Debug, Clone, Copy, PartialEq, Eq, Structural)]
pub enum LaunchStatus {
    Idle,
    Launching,
    Running,
    Crashed,
    Stopped,
}

/// What the game is started with.
#[derive(Debug)]
pub struct LaunchConfig {
    /// The Java executable.
    pub java_path: String,
    /// The size of the heap, in megabytes.
    pub memory_mb: u32,
    /// The version of the game.
    pub version: String,
    pub game_dir: String,
    pub assets_dir: String,
    pub username: String,
    pub uuid: String,
    /// The access token of an online account.
    pub access_token: Option<String>,
}

/// A [`LaunchConfig`] as mathematical values.
pub struct LaunchConfigView {
    pub java_path: Seq<char>,
    pub memory_mb: u32,
    pub version: Seq<char>,
    pub game_dir: Seq<char>,
    pub assets_dir: Seq<char>,
    pub username: Seq<char>,
    pub uuid: Seq<char>,
    pub access_token: Option<Seq<char>>,
}

impl View for LaunchConfig {
    type V = LaunchConfigView;

    open spec fn view(&self) -> LaunchConfigView {
        LaunchConfigView {
            java_path: self.java_path@,
            memory_mb: self.memory_mb,
            version: self.version@,
            game_dir: self.game_dir@,
            assets_dir: self.assets_dir@,
            username: self.username@,
            uuid: self.uuid@,
            access_token: text_of(self.access_token),
        }
    }
}

/// The configuration of a fresh launch manager.
pub open spec fn default_config() -> LaunchConfigView {
    LaunchConfigView {
        java_path: "java"@,
        memory_mb: 2048,
        version: "1.20.4"@,
        game_dir: "./.minecraft"@,
        assets_dir: "./.minecraft/assets"@,
        username: "Steve"@,
        uuid: "069a79f4-44e9-4726-a5be-fca90e38aaf5"@,
        access_token: None,
    }
}

impl Default for LaunchConfig {
    fn default() -> (config: Self)
        ensures
            config@ == default_config(),
    {
        LaunchConfig {
            java_path: String::from_str("java"),
            memory_mb: 2048,
            version: String::from_str("1.20.4"),
            game_dir: String::from_str("./.minecraft"),
            assets_dir: String::from_str("./.minecraft/assets"),
            username: String::from_str("Steve"),
            uuid: String::from_str("069a79f4-44e9-4726-a5be-fca90e38aaf5"),
            access_token: None,
        }
    }
}

impl Clone for LaunchConfig {
    fn clone(&self) -> (copy: Self)
        ensures
            copy@ == self@,
    {
        LaunchConfig {
            java_path: self.java_path.clone(),
            memory_mb: self.memory_mb,
            version: self.version.clone(),
            game_dir: self.game_dir.clone(),
            assets_dir: self.assets_dir.clone(),
            username: self.username.clone(),
            uuid: self.uuid.clone(),
            access_token: clone_text(&self.access_token),
        }
    }
}

/// The arguments that follow the Java executable on the command line: the
/// heap limits, the class path and main class, then the options of the
/// game, with the access token only where the configuration has one.
pub open spec fn launch_args(config: LaunchConfigView) -> Seq<Seq<char>> {
    seq![
        "-Xmx"@ + decimal(config.memory_mb as nat) + "M"@,
        "-Xms"@ + decimal((config.memory_mb / 2) as nat) + "M"@,
        "-cp"@,
        config.game_dir + "/libraries/*"@,
        "net.minecraft.client.main.Main"@,
        "--version"@,
        config.version,
        "--gameDir"@,
        config.game_dir,
        "--assetsDir"@,
        config.assets_dir,
        "--assetIndex"@,
        config.version,
        "--uuid"@,
        config.uuid,
        "--username"@,
        config.username,
    ] + (match config.access_token {
        Some(token) => seq!["--accessToken"@, token],
        None => Seq::empty(),
    }) + seq!["--userType"@, "mojang"@]
}

/// `prefix`, then `n` in decimal digits, then `M`.
fn memory_flag(prefix: &str, n: u32) -> (flag: String)
    ensures
        flag@ == prefix@ + decimal(n as nat) + "M"@,
{
    let mut flag = String::from_str(prefix);
    push_decimal(&mut flag, n);
    flag.append("M");
    flag
}

/// The arguments that follow the Java executable on the command line.
pub fn build_launch_args(config: &LaunchConfig) -> (args: Vec<String>)
    ensures
        texts_of(args@) == launch_args(config@),
{
    let mut args: Vec<String> = Vec::new();
    args.push(memory_flag("-Xmx", config.memory_mb));
    args.push(memory_flag("-Xms", config.memory_mb / 2));
    args.push(String::from_str("-cp"));
    let mut class_path = config.game_dir.clone();
    class_path.append("/libraries/*");
    args.push(class_path);
    args.push(String::from_str("net.minecraft.client.main.Main"));
    args.push(String::from_str("--version"));
    args.push(config.version.clone());
    args.push(String::from_str("--gameDir"));
    args.push(config.game_dir.clone());
    args.push(String::from_str("--assetsDir"));
    args.push(config.assets_dir.clone());
    args.push(String::from_str("--assetIndex"));
    args.push(config.version.clone());
    args.push(String::from_str("--uuid"));
    args.push(config.uuid.clone());
    args.push(String::from_str("--username"));
    args.push(config.username.clone());
    match &config.access_token {
        Some(token) => {
            args.push(String::from_str("--accessToken"));
            args.push(token.clone());
        },
        None => {},
    }
    args.push(String::from_str("--userType"));
    args.push(String::from_str("mojang"));
    assert(texts_of(args@) =~= launch_args(config@));
    args
}

/// The launch manager: the configuration, the game process that is held and
/// where it stands.
#[derive(Debug)]
pub struct LaunchManager {
    pub config: LaunchConfig,
    /// The identifier of the game process, while one is held.
    pub child_process: Option<u32>,
    pub status: LaunchStatus,
    /// The message of the last failure.
    pub last_error: Option<String>,
}

impl Default for LaunchManager {
    fn default() -> (manager: Self)
        ensures
            manager.config@ == default_config(),
            manager.child_process is None,
            manager.status == LaunchStatus::Idle,
            manager.last_error is None,
    {
        LaunchManager {
            config: LaunchConfig::default(),
            child_process: None,
            status: LaunchStatus::Idle,
            last_error: None,
        }
    }
}

/// A fresh launch manager: the default configuration, no process, idle.
pub fn init_launch_manager() -> (manager: LaunchManager)
    ensures
        manager.config@ == default_config(),
        manager.child_process is None,
        manager.status == LaunchStatus::Idle,
        manager.last_error is None,
{
    LaunchManager::default()
}

/// The process to start: the program, its arguments and the directory it
/// runs in.
#[derive(Debug)]
pub struct LaunchPlan {
    pub program: String,
    pub args: Vec<String>,
    pub working_dir: String,
}

/// Whether a launch is refused because the game is starting or running.
pub open spec fn is_busy(status: LaunchStatus) -> bool {
    status == LaunchStatus::Running || status == LaunchStatus::Launching
}

/// The first half of a launch. Unless the game is starting or running, the
/// manager takes the new configuration, if one is given, forgets the last
/// failure, goes to `Launching` and returns the process to start. What came
/// of starting it goes to [`launch_finished`].
pub fn launch_instance(manager: &mut LaunchManager, config: Option<LaunchConfig>) -> (r: Result<
    LaunchPlan,
    String,
>)
    ensures
        is_busy(old(manager).status) ==> {
            &&& r matches Err(message)
            &&& message@ == "Minecraft 已在运行"@
            &&& *final(manager) == *old(manager)
        },
        !is_busy(old(manager).status) ==> {
            &&& r matches Ok(plan)
            &&& final(manager).config@ == (match config {
                Some(given) => given@,
                None => old(manager).config@,
            })
            &&& final(manager).status == LaunchStatus::Launching
            &&& final(manager).last_error is None
            &&& final(manager).child_process == old(manager).child_process
            &&& plan.program@ == final(manager).config@.java_path
            &&& texts_of(plan.args@) == launch_args(final(manager).config@)
            &&& plan.working_dir@ == final(manager).config@.game_dir
        },
{
    if manager.status == LaunchStatus::Running || manager.status == LaunchStatus::Launching {
        return Err(String::from_str("Minecraft 已在运行"));
    }
    match config {
        Some(given) => {
            manager.config = given;
        },
        None => {},
    }
    manager.status = LaunchStatus::Launching;
    manager.last_error = None;
    Ok(
        LaunchPlan {
            program: manager.config.java_path.clone(),
            args: build_launch_args(&manager.config),
            working_dir: manager.config.game_dir.clone(),
        },
    )
}

/// The second half of a launch: `spawned` is the identifier of the started
/// process, or why it could not be started.
pub fn launch_finished(manager: &mut LaunchManager, spawned: Result<u32, String>) -> (r: Result<
    String,
    String,
>)
    ensures
        final(manager).config == old(manager).config,
        match spawned {
            Ok(id) => {
                &&& r matches Ok(message)
                &&& message@ == "Minecraft 启动成功"@
                &&& final(manager).child_process == Some(id)
                &&& final(manager).status == LaunchStatus::Running
                &&& final(manager).last_error == old(manager).last_error
            },
            Err(reason) => {
                &&& r matches Err(message)
                &&& message@ == "启动失败: "@ + reason@
                &&& final(manager).child_process == old(manager).child_process
                &&& final(manager).status == LaunchStatus::Crashed
                &&& text_of(final(manager).last_error) == Some(message@)
            },
        },
{
    match spawned {
        Ok(id) => {
            manager.child_process = Some(id);
            manager.status = LaunchStatus::Running;
            Ok(String::from_str("Minecraft 启动成功"))
        },
        Err(reason) => {
            let mut message = String::from_str("启动失败: ");
            message.append(reason.as_str());
            manager.status = LaunchStatus::Crashed;
            manager.last_error = Some(message.clone());
            Err(message)
        },
    }
}

/// What came of ending the game process.
#[derive(Debug)]
pub enum StopOutcome {
    /// The process was killed and has ended.
    Stopped,
    /// The process could not be killed, for the given reason.
    KillFailed(String),
    /// The process was killed, but waiting for its end failed, for the
    /// given reason.
    WaitFailed(String),
}

/// Stops the game. With no process held the manager goes to `Idle`.
/// Otherwise the process is given up and `outcome`, which is what came of
/// ending it, decides: the manager goes to `Stopped`, or keeps its status
/// and records the failure.
pub fn stop_instance(manager: &mut LaunchManager, outcome: StopOutcome) -> (r: Result<
    String,
    String,
>)
    ensures
        final(manager).config == old(manager).config,
        final(manager).child_process is None,
        old(manager).child_process is None ==> {
            &&& r matches Ok(message)
            &&& message@ == "Minecraft 未在运行"@
            &&& final(manager).status == LaunchStatus::Idle
            &&& final(manager).last_error == old(manager).last_error
        },
        old(manager).child_process is Some ==> match outcome {
            StopOutcome::Stopped => {
                &&& r matches Ok(message)
                &&& message@ == "Minecraft 已停止"@
                &&& final(manager).status == LaunchStatus::Stopped
                &&& final(manager).last_error == old(manager).last_error
            },
            StopOutcome::KillFailed(reason) => {
                &&& r matches Err(message)
                &&& message@ == "终止进程失败: "@ + reason@
                &&& final(manager).status == old(manager).status
                &&& text_of(final(manager).last_error) == Some(message@)
            },
            StopOutcome::WaitFailed(reason) => {
                &&& r matches Err(message)
                &&& message@ == "等待进程结束失败: "@ + reason@
                &&& final(manager).status == old(manager).status
                &&& text_of(final(manager).last_error) == Some(message@)
            },
        },
{
    if manager.child_process.is_none() {
        manager.status = LaunchStatus::Idle;
        return Ok(String::from_str("Minecraft 未在运行"));
    }
    manager.child_process = None;
    match outcome {
        StopOutcome::Stopped => {
            manager.status = LaunchStatus::Stopped;
            Ok(String::from_str("Minecraft 已停止"))
        },
        StopOutcome::KillFailed(reason) => {
            let mut message = String::from_str("终止进程失败: ");
            message.append(reason.as_str());
            manager.last_error = Some(message.clone());
            Err(message)
        },
        StopOutcome::WaitFailed(reason) => {
            let mut message = String::from_str("等待进程结束失败: ");
            message.append(reason.as_str());
            manager.last_error = Some(message.clone());
            Err(message)
        },
    }
}

/// What asking the game process whether it has ended gave.
#[derive(Debug)]
pub enum ProcessPoll {
    /// The process still runs.
    StillRunning,
    /// The process has ended, with or without success.
    Exited { success: bool },
    /// The process could not be asked, for the given reason.
    Failed(String),
}

/// The process that [`get_launch_status`] wants polled: the one held, while
/// the status is `Running`.
pub open spec fn awaited_process(manager: LaunchManager) -> Option<u32> {
    if manager.status == LaunchStatus::Running {
        manager.child_process
    } else {
        None
    }
}

/// The identifier of the process to poll before [`get_launch_status`] is
/// called, if there is one.
pub fn polled_process(manager: &LaunchManager) -> (id: Option<u32>)
    ensures
        id == awaited_process(*manager),
{
    if manager.status == LaunchStatus::Running {
        manager.child_process
    } else {
        None
    }
}

/// The status of the game. Where a process is awaited, `poll` is what
/// polling it gave: a process that has ended is given up and the status
/// becomes `Stopped` or `Crashed`. Otherwise `poll` is not looked at.
pub fn get_launch_status(manager: &mut LaunchManager, poll: ProcessPoll) -> (r: Result<
    LaunchStatus,
    String,
>)
    ensures
        final(manager).config == old(manager).config,
        final(manager).last_error == old(manager).last_error,
        awaited_process(*old(manager)) is None ==> {
            &&& r == Ok::<LaunchStatus, String>(old(manager).status)
            &&& *final(manager) == *old(manager)
        },
        awaited_process(*old(manager)) is Some ==> match poll {
            ProcessPoll::StillRunning => {
                &&& r == Ok::<LaunchStatus, String>(LaunchStatus::Running)
                &&& *final(manager) == *old(manager)
            },
            ProcessPoll::Exited { success } => {
                &&& r == Ok::<LaunchStatus, String>(final(manager).status)
                &&& final(manager).status == (if success {
                    LaunchStatus::Stopped
                } else {
                    LaunchStatus::Crashed
                })
                &&& final(manager).child_process is None
            },
            ProcessPoll::Failed(reason) => {
                &&& r matches Err(message)
                &&& message@ == "检查进程状态失败: "@ + reason@
                &&& *final(manager) == *old(manager)
            },
        },
{
    if manager.status == LaunchStatus::Running && manager.child_process.is_some() {
        match poll {
            ProcessPoll::StillRunning => Ok(LaunchStatus::Running),
            ProcessPoll::Exited { success } => {
                manager.status = if success {
                    LaunchStatus::Stopped
                } else {
                    LaunchStatus::Crashed
                };
                manager.child_process = None;
                Ok(manager.status)
            },
            ProcessPoll::Failed(reason) => {
                let mut message = String::from_str("检查进程状态失败: ");
                message.append(reason.as_str());
                Err(message)
            },
        }
    } else {
        Ok(manager.status)
    }
}

/// A copy of the configuration.
pub fn get_launch_config(manager: &LaunchManager) -> (r: Result<LaunchConfig, String>)
    ensures
        r matches Ok(config) && config@ == manager.config@,
{
    Ok(manager.config.clone())
}

/// Replaces the configuration.
pub fn update_launch_config(manager: &mut LaunchManager, config: LaunchConfig) -> (r: Result<
    String,
    String,
>)
    ensures
        r matches Ok(message) && message@ == "启动配置已更新"@,
        final(manager).config == config,
        final(manager).child_process == old(manager).child_process,
        final(manager).status == old(manager).status,
        final(manager).last_error == old(manager).last_error,
{
    manager.config = config;
    Ok(String::from_str("启动配置已更新"))
}

} // verus!
