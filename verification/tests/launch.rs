use launcher_core::launch::{
    build_launch_args, get_launch_config, get_launch_status, init_launch_manager,
    launch_finished, launch_instance, polled_process, stop_instance, update_launch_config,
    LaunchConfig, LaunchManager, LaunchStatus, ProcessPoll, StopOutcome,
};
use launcher_core::text::push_decimal;

#[test]
fn test_default_config() {
    let config = LaunchConfig::default();

    assert_eq!(config.java_path, "java");
    assert_eq!(config.memory_mb, 2048);
    assert_eq!(config.version, "1.20.4");
    assert_eq!(config.username, "Steve");
}

#[test]
fn default_config_has_every_field() {
    let config = LaunchConfig::default();
    assert_eq!(config.game_dir, "./.minecraft");
    assert_eq!(config.assets_dir, "./.minecraft/assets");
    assert_eq!(config.uuid, "069a79f4-44e9-4726-a5be-fca90e38aaf5");
    assert_eq!(config.access_token, None);
}

#[test]
fn launch_args_of_default_config() {
    let args = build_launch_args(&LaunchConfig::default());
    assert_eq!(
        args,
        vec![
            "-Xmx2048M",
            "-Xms1024M",
            "-cp",
            "./.minecraft/libraries/*",
            "net.minecraft.client.main.Main",
            "--version",
            "1.20.4",
            "--gameDir",
            "./.minecraft",
            "--assetsDir",
            "./.minecraft/assets",
            "--assetIndex",
            "1.20.4",
            "--uuid",
            "069a79f4-44e9-4726-a5be-fca90e38aaf5",
            "--username",
            "Steve",
            "--userType",
            "mojang",
        ]
    );
}

#[test]
fn test_build_launch_args() {
    let config = LaunchConfig::default();
    let args = build_launch_args(&config);

    assert!(args.contains(&format!("-Xmx{}M", config.memory_mb)));
    assert!(args.contains(&format!("-Xms{}M", config.memory_mb / 2)));
    assert!(args.join(" ").contains(&format!("--version {}", config.version)));
    assert!(args.join(" ").contains(&format!("--username {}", config.username)));
}

#[test]
fn launch_args_name_version_and_user_in_next_argument() {
    let config = LaunchConfig::default();
    let args = build_launch_args(&config);
    let version = args.iter().position(|a| a == "--version").unwrap();
    assert_eq!(args[version + 1], config.version);
    let username = args.iter().position(|a| a == "--username").unwrap();
    assert_eq!(args[username + 1], config.username);
}

#[test]
fn launch_args_with_access_token() {
    let mut config = LaunchConfig::default();
    config.access_token = Some("token-1".to_string());
    config.memory_mb = 4095;
    let args = build_launch_args(&config);
    assert_eq!(args.len(), 21);
    assert_eq!(args[0], "-Xmx4095M");
    assert_eq!(args[1], "-Xms2047M");
    assert_eq!(args[17], "--accessToken");
    assert_eq!(args[18], "token-1");
    assert_eq!(args[19], "--userType");
    assert_eq!(args[20], "mojang");
}

#[test]
fn launch_args_with_extreme_memory() {
    let mut config = LaunchConfig::default();
    config.memory_mb = 0;
    let args = build_launch_args(&config);
    assert_eq!(args[0], "-Xmx0M");
    assert_eq!(args[1], "-Xms0M");
    config.memory_mb = u32::MAX;
    let args = build_launch_args(&config);
    assert_eq!(args[0], "-Xmx4294967295M");
    assert_eq!(args[1], "-Xms2147483647M");
}

#[test]
fn push_decimal_writes_digits() {
    for n in [0u32, 7, 10, 99, 100, 1024, 4294967295] {
        let mut out = String::from("n=");
        push_decimal(&mut out, n);
        assert_eq!(out, format!("n={}", n));
    }
}

#[test]
fn fresh_manager_is_idle() {
    let manager = init_launch_manager();
    assert_eq!(manager.status, LaunchStatus::Idle);
    assert_eq!(manager.child_process, None);
    assert_eq!(manager.last_error, None);
    assert_eq!(manager.config.username, "Steve");
    let other = LaunchManager::default();
    assert_eq!(other.status, LaunchStatus::Idle);
}

#[test]
fn launch_goes_through_launching_to_running() {
    let mut manager = init_launch_manager();
    manager.last_error = Some("old".to_string());
    let plan = launch_instance(&mut manager, None).unwrap();
    assert_eq!(manager.status, LaunchStatus::Launching);
    assert_eq!(manager.last_error, None);
    assert_eq!(plan.program, "java");
    assert_eq!(plan.working_dir, "./.minecraft");
    assert_eq!(plan.args, build_launch_args(&manager.config));
    let answer = launch_finished(&mut manager, Ok(4711));
    assert_eq!(answer, Ok("Minecraft 启动成功".to_string()));
    assert_eq!(manager.status, LaunchStatus::Running);
    assert_eq!(manager.child_process, Some(4711));
}

#[test]
fn launch_takes_given_config() {
    let mut manager = init_launch_manager();
    let mut config = LaunchConfig::default();
    config.java_path = "/opt/java/bin/java".to_string();
    config.username = "Alex".to_string();
    config.game_dir = "/games/mc".to_string();
    let plan = launch_instance(&mut manager, Some(config)).unwrap();
    assert_eq!(plan.program, "/opt/java/bin/java");
    assert_eq!(plan.working_dir, "/games/mc");
    assert_eq!(plan.args[3], "/games/mc/libraries/*");
    assert_eq!(manager.config.username, "Alex");
}

#[test]
fn launch_is_refused_while_busy() {
    let mut manager = init_launch_manager();
    launch_instance(&mut manager, None).unwrap();
    let mut config = LaunchConfig::default();
    config.username = "Alex".to_string();
    let refused = launch_instance(&mut manager, Some(config)).unwrap_err();
    assert_eq!(refused, "Minecraft 已在运行");
    assert_eq!(manager.status, LaunchStatus::Launching);
    assert_eq!(manager.config.username, "Steve");
    launch_finished(&mut manager, Ok(1)).unwrap();
    assert_eq!(launch_instance(&mut manager, None).unwrap_err(), "Minecraft 已在运行");
    assert_eq!(manager.status, LaunchStatus::Running);
}

#[test]
fn failed_spawn_is_recorded() {
    let mut manager = init_launch_manager();
    launch_instance(&mut manager, None).unwrap();
    let answer = launch_finished(&mut manager, Err("No such file".to_string()));
    assert_eq!(answer, Err("启动失败: No such file".to_string()));
    assert_eq!(manager.status, LaunchStatus::Crashed);
    assert_eq!(manager.last_error, Some("启动失败: No such file".to_string()));
    assert_eq!(manager.child_process, None);
    assert!(launch_instance(&mut manager, None).is_ok());
}

#[test]
fn stop_without_process_goes_idle() {
    let mut manager = init_launch_manager();
    manager.status = LaunchStatus::Crashed;
    let answer = stop_instance(&mut manager, StopOutcome::Stopped);
    assert_eq!(answer, Ok("Minecraft 未在运行".to_string()));
    assert_eq!(manager.status, LaunchStatus::Idle);
}

#[test]
fn stop_with_process_follows_outcome() {
    let mut manager = init_launch_manager();
    launch_instance(&mut manager, None).unwrap();
    launch_finished(&mut manager, Ok(7)).unwrap();
    let answer = stop_instance(&mut manager, StopOutcome::Stopped);
    assert_eq!(answer, Ok("Minecraft 已停止".to_string()));
    assert_eq!(manager.status, LaunchStatus::Stopped);
    assert_eq!(manager.child_process, None);

    launch_instance(&mut manager, None).unwrap();
    launch_finished(&mut manager, Ok(8)).unwrap();
    let answer = stop_instance(&mut manager, StopOutcome::KillFailed("denied".to_string()));
    assert_eq!(answer, Err("终止进程失败: denied".to_string()));
    assert_eq!(manager.status, LaunchStatus::Running);
    assert_eq!(manager.child_process, None);
    assert_eq!(manager.last_error, Some("终止进程失败: denied".to_string()));

    manager.child_process = Some(9);
    let answer = stop_instance(&mut manager, StopOutcome::WaitFailed("gone".to_string()));
    assert_eq!(answer, Err("等待进程结束失败: gone".to_string()));
    assert_eq!(manager.last_error, Some("等待进程结束失败: gone".to_string()));
}

#[test]
fn status_follows_poll_of_running_process() {
    let mut manager = init_launch_manager();
    assert_eq!(polled_process(&manager), None);
    assert_eq!(
        get_launch_status(&mut manager, ProcessPoll::Exited { success: false }),
        Ok(LaunchStatus::Idle)
    );
    launch_instance(&mut manager, None).unwrap();
    assert_eq!(polled_process(&manager), None);
    assert_eq!(
        get_launch_status(&mut manager, ProcessPoll::StillRunning),
        Ok(LaunchStatus::Launching)
    );
    launch_finished(&mut manager, Ok(21)).unwrap();
    assert_eq!(polled_process(&manager), Some(21));
    assert_eq!(
        get_launch_status(&mut manager, ProcessPoll::StillRunning),
        Ok(LaunchStatus::Running)
    );
    assert_eq!(
        get_launch_status(&mut manager, ProcessPoll::Failed("busy".to_string())),
        Err("检查进程状态失败: busy".to_string())
    );
    assert_eq!(manager.status, LaunchStatus::Running);
    assert_eq!(manager.child_process, Some(21));
    assert_eq!(
        get_launch_status(&mut manager, ProcessPoll::Exited { success: true }),
        Ok(LaunchStatus::Stopped)
    );
    assert_eq!(manager.child_process, None);
    assert_eq!(polled_process(&manager), None);
}

#[test]
fn status_of_failed_exit_is_crashed() {
    let mut manager = init_launch_manager();
    launch_instance(&mut manager, None).unwrap();
    launch_finished(&mut manager, Ok(3)).unwrap();
    assert_eq!(
        get_launch_status(&mut manager, ProcessPoll::Exited { success: false }),
        Ok(LaunchStatus::Crashed)
    );
    assert_eq!(manager.status, LaunchStatus::Crashed);
    assert_eq!(manager.child_process, None);
}

#[test]
fn config_is_read_and_replaced() {
    let mut manager = init_launch_manager();
    let mut config = get_launch_config(&manager).unwrap();
    assert_eq!(config.version, "1.20.4");
    config.version = "1.21".to_string();
    config.access_token = Some("t".to_string());
    let copy = config.clone();
    assert_eq!(copy.version, "1.21");
    assert_eq!(copy.access_token, Some("t".to_string()));
    let answer = update_launch_config(&mut manager, config);
    assert_eq!(answer, Ok("启动配置已更新".to_string()));
    assert_eq!(manager.config.version, "1.21");
    assert_eq!(manager.status, LaunchStatus::Idle);
    assert_eq!(get_launch_config(&manager).unwrap().access_token, Some("t".to_string()));
}
