use foss_switch::launcher::{
    after_direct_attempt, after_elevated_attempt, build_elevated_command, escape_quotes,
    no_command_message, plan_uninstall, select_program, LaunchRoute, LaunchStep, SpawnOutcome,
    UninstallPlan,
};

#[test]
fn empty_command_is_rejected() {
    assert!(matches!(plan_uninstall(""), UninstallPlan::NoCommand));
    assert_eq!(
        no_command_message(),
        "No uninstall command available for this software"
    );
}

#[test]
fn msiexec_routes_to_installer_service_any_casing() {
    for raw in [
        "MsiExec.exe /X{0000-1111}",
        "msiexec /x {0000-1111}",
        "MSIEXEC.EXE /qn /X{0000-1111}",
        "C:\\Windows\\System32\\MsiExec.exe /I{2222}",
    ] {
        match plan_uninstall(raw) {
            UninstallPlan::Msi { .. } => {}
            _ => panic!("{raw:?} should route to the installer service"),
        }
    }
}

#[test]
fn msiexec_arguments_are_the_remaining_tokens() {
    match plan_uninstall("MsiExec.exe /X{ABCD} /qn") {
        UninstallPlan::Msi { args } => {
            assert_eq!(args, vec!["/X{ABCD}".to_string(), "/qn".to_string()]);
        }
        _ => panic!("expected the installer-service route"),
    }
}

#[test]
fn ordinary_command_goes_through_the_parser() {
    match plan_uninstall("\"C:\\Program Files\\App\\u.exe\" /silent") {
        UninstallPlan::Direct { program, args } => {
            assert_eq!(program, "C:\\Program Files\\App\\u.exe");
            assert_eq!(args, vec!["/silent".to_string()]);
        }
        _ => panic!("expected the direct route"),
    }
}

#[test]
fn missing_program_retried_with_extension() {
    let chosen = select_program("C:\\App\\uninst".to_string(), false, true);
    assert_eq!(chosen, "C:\\App\\uninst.exe");
    // an existing program is used as given
    let chosen = select_program("C:\\App\\uninst".to_string(), true, true);
    assert_eq!(chosen, "C:\\App\\uninst");
    // a program already ending in .exe is never rewritten
    let chosen = select_program("C:\\App\\uninst.EXE".to_string(), false, true);
    assert_eq!(chosen, "C:\\App\\uninst.EXE");
    // no fallback without an existing alternative
    let chosen = select_program("C:\\App\\uninst".to_string(), false, false);
    assert_eq!(chosen, "C:\\App\\uninst");
}

#[test]
fn quotes_are_escaped_for_the_elevated_shell() {
    assert_eq!(escape_quotes("no quotes"), "no quotes");
    assert_eq!(escape_quotes("it's"), "it''s");
    assert_eq!(escape_quotes("''"), "''''");
}

#[test]
fn elevated_command_embeds_program_and_args() {
    let args = vec!["/S".to_string(), "/norestart".to_string()];
    let cmd = build_elevated_command("C:\\App\\u.exe", &args);
    assert_eq!(
        cmd,
        "Start-Process -FilePath 'C:\\App\\u.exe' -ArgumentList '/S /norestart' -Verb RunAs"
    );
}

#[test]
fn elevation_required_triggers_exactly_one_retry() {
    let args = vec!["/S".to_string()];
    let denied = SpawnOutcome::ElevationRequired {
        message: "os error 740".to_string(),
    };
    // the direct attempt asks for the single elevated retry
    let step = after_direct_attempt(LaunchRoute::Executable, "C:\\App\\u.exe", &args, &denied);
    let command = match step {
        LaunchStep::RunElevated { command } => command,
        LaunchStep::Done { .. } => panic!("elevation must be retried once"),
    };
    assert!(command.contains("-Verb RunAs"));
    // a failing retry is terminal: it reports, it does not retry again
    let failed = SpawnOutcome::Failed {
        message: "access denied".to_string(),
    };
    let result = after_elevated_attempt(&failed);
    assert_eq!(
        result,
        Err("Failed to launch uninstaller with elevation: access denied".to_string())
    );
    // even a second "elevation required" outcome is terminal there
    let result = after_elevated_attempt(&denied);
    assert_eq!(
        result,
        Err("Failed to launch uninstaller with elevation: os error 740".to_string())
    );
}

#[test]
fn non_elevation_failures_never_trigger_a_retry() {
    let args: Vec<String> = Vec::new();
    let not_found = SpawnOutcome::NotFound {
        message: "not found".to_string(),
    };
    match after_direct_attempt(LaunchRoute::Executable, "C:\\gone\\u.exe", &args, &not_found) {
        LaunchStep::Done { result } => assert_eq!(
            result,
            Err("Uninstaller not found: C:\\gone\\u.exe. The software may have been partially \
                 removed."
                .to_string())
        ),
        LaunchStep::RunElevated { .. } => panic!("only the elevation error may retry"),
    }
    let failed = SpawnOutcome::Failed {
        message: "boom".to_string(),
    };
    match after_direct_attempt(LaunchRoute::Executable, "C:\\App\\u.exe", &args, &failed) {
        LaunchStep::Done { result } => {
            assert_eq!(result, Err("Failed to launch uninstaller: boom".to_string()));
        }
        LaunchStep::RunElevated { .. } => panic!("only the elevation error may retry"),
    }
}

#[test]
fn launch_success_messages() {
    let args: Vec<String> = Vec::new();
    match after_direct_attempt(LaunchRoute::Executable, "u.exe", &args, &SpawnOutcome::Launched) {
        LaunchStep::Done { result } => {
            assert_eq!(result, Ok("Uninstaller launched successfully".to_string()));
        }
        LaunchStep::RunElevated { .. } => panic!("a successful launch needs no retry"),
    }
    match after_direct_attempt(LaunchRoute::Installer, "msiexec", &args, &SpawnOutcome::Launched) {
        LaunchStep::Done { result } => {
            assert_eq!(result, Ok("Windows Installer launched".to_string()));
        }
        LaunchStep::RunElevated { .. } => panic!("a successful launch needs no retry"),
    }
    assert_eq!(
        after_elevated_attempt(&SpawnOutcome::Launched),
        Ok("Uninstaller launched with administrator privileges".to_string())
    );
}

#[test]
fn installer_route_reports_every_failure_alike() {
    let args: Vec<String> = Vec::new();
    let not_found = SpawnOutcome::NotFound {
        message: "program not found".to_string(),
    };
    match after_direct_attempt(LaunchRoute::Installer, "msiexec", &args, &not_found) {
        LaunchStep::Done { result } => assert_eq!(
            result,
            Err("Failed to launch Windows Installer: program not found".to_string())
        ),
        LaunchStep::RunElevated { .. } => panic!("only the elevation error may retry"),
    }
}
