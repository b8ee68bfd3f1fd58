use dock_app::apps::{
    activate_outcome, activate_step, app_paths_probes, apps_folder_path, check_handle, clean_description,
    clean_profile_value, clean_registry_path, description_key, discover_name, display_name_for,
    entry_for, enumerate_apps, enumerate_dock_apps, env_names, expand_env, fallback_name_for,
    id_for_target, is_app_window, is_packaged, is_recycle_bin, is_shell_location, is_shell_target,
    is_url_scheme, is_url_shortcut, is_uwp_host, launch_outcome, launch_verb, minimize_outcome,
    package_target, recycle_bin_count, url_icon_source, wide, ActivateStep, DescriptionCache, RawWindow,
};
use dock_app::model::{AppKind, PinnedApp};

fn window(hwnd: u64, path: &str) -> RawWindow {
    RawWindow {
        hwnd,
        title: format!("w{hwnd}"),
        minimized: false,
        path: Some(path.into()),
        window_aumid: None,
        process_aumid: None,
        elevated: false,
        description: Some("Name".into()),
        stem: Some("stem".into()),
    }
}

#[test]
fn system_location_is_not_confused_with_packaged_app() {
    assert!(is_shell_location("shell:MyComputerFolder"));
    assert!(is_shell_location("shell:RecycleBinFolder"));
    assert!(!is_shell_location(r"shell:AppsFolder\Microsoft.WindowsCalculator_8wekyb3d8bbwe!App"));
    assert!(!is_shell_location(r"C:\Windows\explorer.exe"));

    assert_eq!(id_for_target("shell:MyComputerFolder"), "shell:mycomputerfolder");
    assert!(id_for_target(r"shell:AppsFolder\X!App").starts_with("uwp:"));
    assert_ne!(
        id_for_target("shell:MyComputerFolder"),
        id_for_target(r"shell:AppsFolder\MyComputerFolder!App")
    );
}

#[test]
fn folder_never_reports_running_but_children_do() {
    let running = enumerate_apps(&vec![window(7, r"C:\Live.exe")], 0);
    let live = running.first().unwrap();
    let child = PinnedApp {
        id: live.id.clone(),
        display_name: live.display_name.clone(),
        target: live.target.clone(),
        separator: false,
        is_folder: false,
        children: Vec::new(),
    };
    let folder = PinnedApp {
        id: "folder-x".into(),
        display_name: "文件夹".into(),
        target: String::new(),
        separator: false,
        is_folder: true,
        children: vec![child],
    };
    let out = entry_for(&folder, &running);
    assert!(out.is_folder);
    assert!(!out.running, "文件夹自己不该有运行点");
    assert_eq!(out.children.len(), 1);
    assert!(out.children[0].running, "里面那个在跑，格子里要有运行点");
}

#[test]
fn the_description_cache_keeps_what_was_read() {
    let exe = r"C:\Windows\explorer.exe";
    let mut c = DescriptionCache::new();
    assert_eq!(c.get(exe), None);
    c.insert(exe, Some("Windows 资源管理器".into()));
    assert_eq!(c.get(exe), Some(Some("Windows 资源管理器".into())));
    assert_eq!(c.get(&exe.to_uppercase()), c.get(exe));
    let ghost = r"C:\__dock_no_such_file__.exe";
    assert_eq!(c.get(ghost), None);
    c.insert(ghost, None);
    assert_eq!(c.get(ghost), Some(None));
}

#[test]
fn url_shortcuts_are_files_and_addresses_are_not() {
    let p = r"C:\Users\me\Desktop\Some Game.url";
    assert!(is_url_shortcut(p));
    assert!(!is_url_scheme(p));
    assert!(is_url_scheme("steam://rungameid/431960"));
    assert!(!is_url_shortcut("steam://rungameid/431960"));
    assert!(is_url_scheme("https://example.com"));
    let ico = r"C:\Windows\system32\notepad.exe";
    assert_eq!(url_icon_source(p, Some(ico.into()), true).as_deref(), Some(ico));
    assert_eq!(url_icon_source(p, Some(ico.into()), false), None);
    assert_eq!(url_icon_source("steam://rungameid/431960", Some(ico.into()), true), None);
}

#[test]
fn variables_are_expanded() {
    let s = r"%WINDIR%\system32\%NOPE%\x%";
    assert_eq!(env_names(s), vec!["WINDIR".to_string(), "NOPE".to_string()]);
    assert_eq!(
        expand_env(s, &vec![Some(r"C:\Windows".into()), None]),
        r"C:\Windows\system32\%NOPE%\x%"
    );
    assert_eq!(expand_env("plain", &Vec::new()), "plain");
}

#[test]
fn windows_are_grouped_by_application() {
    let a1 = window(1, r"C:\A.exe");
    let b = window(2, r"C:\B.exe");
    let a2 = window(3, r"c:\a.EXE");
    let mut unreadable = window(4, "");
    unreadable.path = None;
    let apps = enumerate_apps(&vec![a1, b, a2, unreadable], 3);
    let a = apps.iter().find(|x| x.id == r"c:\a.exe").unwrap();
    assert_eq!(a.windows.len(), 2);
    assert!(a.has_foreground && a.running);
    assert_eq!(a.kind, AppKind::Win32);
    let b = apps.iter().find(|x| x.id == r"c:\b.exe").unwrap();
    assert!(!b.has_foreground);
}

#[test]
fn a_pinned_entry_without_windows_is_a_placeholder() {
    let p = PinnedApp {
        id: r"c:\a.exe".into(),
        display_name: "A".into(),
        target: r"C:\A.exe".into(),
        separator: false,
        is_folder: false,
        children: Vec::new(),
    };
    let shown = enumerate_dock_apps(&vec![p], &Vec::new());
    assert_eq!(shown.len(), 1);
    assert!(!shown[0].running && shown[0].windows.is_empty());
    assert_eq!(shown[0].target, r"C:\A.exe");
}

#[test]
fn only_real_windows_count() {
    assert!(is_app_window(true, 0, false, false, "t", false));
    assert!(!is_app_window(false, 0, false, false, "t", false));
    assert!(!is_app_window(true, 0x80, false, false, "t", false));
    assert!(!is_app_window(true, 0, true, false, "t", false));
    assert!(is_app_window(true, 0x0004_0000, true, false, "t", false));
    assert!(!is_app_window(true, 0, false, true, "t", false));
    assert!(!is_app_window(true, 0, false, false, "", false));
    assert!(!is_app_window(true, 0, false, false, "t", true));
}

#[test]
fn packages_have_their_own_targets() {
    assert!(is_packaged("Microsoft.WindowsCalculator_8wekyb3d8bbwe!App"));
    assert!(!is_packaged("plain"));
    assert_eq!(apps_folder_path("X!App"), r"shell:AppsFolder\X!App");
    assert_eq!(package_target("X_1", "App"), r"shell:AppsFolder\X_1!App");
    assert!(is_shell_target(r"shell:AppsFolder\X!App"));
    assert!(is_uwp_host(r"C:\Windows\System32\ApplicationFrameHost.exe"));
    assert_eq!(id_for_target(r"shell:AppsFolder\X!App"), "uwp:x!app");
}

#[test]
fn each_application_has_its_windows_in_order() {
    let ws = vec![
        window(1, r"C:\A.exe"),
        window(2, r"C:\B.exe"),
        window(3, r"C:\a.EXE"),
        window(4, r"C:\B.exe"),
        window(5, r"C:\A.exe"),
    ];
    let apps = enumerate_apps(&ws, 0);
    let hwnds = |i: usize| apps[i].windows.iter().map(|w| w.hwnd).collect::<Vec<u64>>();
    assert_eq!(apps.len(), 2);
    assert_eq!((hwnds(0), hwnds(1)), (vec![1, 3, 5], vec![2, 4]));
}

#[test]
fn identities_stay_as_they_are() {
    for t in [r"C:\App\X.exe", r"shell:AppsFolder\Pkg_1!App", "shell:RecycleBinFolder", ""] {
        let id = id_for_target(t);
        assert_eq!(id_for_target(&id), id);
    }
    assert_eq!(id_for_target(r"C:\A.EXE"), id_for_target(r"c:\a.exe"));
    assert_ne!(id_for_target(r"C:\A.exe"), id_for_target(r"C:\B.exe"));
    assert_eq!(id_for_target(&package_target("Pkg_1", "App")), "uwp:pkg_1!app");
}

#[test]
fn identities_are_lower_case_beyond_ascii_too() {
    assert_eq!(id_for_target(r"C:\ÄÖ\Straße.EXE"), r"c:\äö\straße.exe");
}

#[test]
fn places_and_the_bin_are_recognised() {
    assert!(is_recycle_bin("shell:RecycleBinFolder"));
    assert!(is_recycle_bin("SHELL:recyclebinfolder"));
    assert!(!is_recycle_bin("shell:MyComputerFolder"));
    assert_eq!(fallback_name_for("shell:MyComputerFolder"), "此电脑");
    assert_eq!(fallback_name_for("other"), "other");
    assert_eq!(recycle_bin_count(true, 3), 3);
    assert_eq!(recycle_bin_count(false, 3), 0);
}

#[test]
fn names_come_from_the_program_or_the_shell() {
    assert_eq!(display_name_for(r"C:\a.exe", &Some("Desc".into()), &None), "Desc");
    assert_eq!(display_name_for(r"C:\a.exe", &None, &Some("a".into())), "a");
    assert_eq!(discover_name("shell:MyComputerFolder", &Some("This PC".into()), "x"), "This PC");
}

#[test]
fn raw_texts_are_cleaned() {
    assert_eq!(clean_description("  Name\0").as_deref().map(|s| s.contains("Name")), Some(true));
    assert_eq!(clean_description("   "), None);
    assert_eq!(clean_profile_value(""), None);
    assert_eq!(clean_registry_path("\"C:\\a b\\x.exe\"\0"), r"C:\a b\x.exe");
    assert_eq!(description_key(0x0804, 0x04b0), r"\StringFileInfo\080404b0\FileDescription");
    assert_eq!(wide("ab"), vec![97u16, 98, 0]);
    assert_eq!(wide("😀"), vec![0xd83du16, 0xde00, 0]);
}

#[test]
fn programs_are_looked_up_in_order() {
    let probes = app_paths_probes("code.exe");
    assert_eq!(probes.len(), 8);
    assert!(probes[..4].iter().all(|p| p.current_user) && probes[4..].iter().all(|p| !p.current_user));
    assert_eq!(probes[0].subkey, r"SOFTWARE\Microsoft\Windows\CurrentVersion\App Paths\code.exe");
    assert!(probes[1].subkey.ends_with(r"\code"));
    assert!(!probes[1].wow32 && probes[2].wow32);
}

#[test]
fn activating_goes_through_the_foreground_thread() {
    assert!(check_handle(0).is_err());
    assert!(check_handle(5).is_ok());
    assert!(matches!(activate_step(5, 5, 1, 2), ActivateStep::AlreadyForeground));
    assert!(matches!(activate_step(5, 6, 1, 2), ActivateStep::Attach));
    assert!(matches!(activate_step(5, 6, 2, 2), ActivateStep::Direct));
    assert!(activate_outcome(true, false).is_ok());
    assert!(activate_outcome(false, false).is_err());
    let _ = minimize_outcome(true);
    assert_eq!(launch_verb(true), "runas");
    assert!(launch_outcome(&None, 0).is_ok());
    assert!(launch_outcome(&Some("boom".into()), 5).is_err());
}
