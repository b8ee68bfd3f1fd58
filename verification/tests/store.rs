use dock_app::apps;
use dock_app::model::PinnedApp;
use dock_app::store::{
    add_pinned_at_left, add_separator, add_system_location, add_temp_folder, add_to_folder, config_dir,
    config_path, create_folder, default_pin_rules, dissolve_folder, find_pin, move_out_of_folder_in,
    next_id, pin, plan_migration, remove, rename_folder, rename_prompt_name, reorder, rule_target,
    seed_default_pins, unpin, unpin_top, ConfigPlace, FoundTarget, PinRule, Preferences,
    DEFAULT_FOLDER_NAME, TEMP_FOLDER_NAME,
};

fn app(id: &str) -> PinnedApp {
    PinnedApp {
        id: id.into(),
        display_name: id.into(),
        target: format!("C:\\fake\\{id}.exe"),
        separator: false,
        is_folder: false,
        children: Vec::new(),
    }
}

fn folder(id: &str, children: Vec<PinnedApp>) -> PinnedApp {
    PinnedApp {
        id: id.into(),
        display_name: "新建文件夹".into(),
        target: String::new(),
        separator: false,
        is_folder: true,
        children,
    }
}

fn ids(p: &[PinnedApp]) -> Vec<&str> {
    p.iter().map(|x| x.id.as_str()).collect()
}

#[test]
fn move_out_keeps_folder_until_last_child_then_dissolves_in_place() {
    let mut p = vec![app("A"), folder("F", vec![app("B"), app("C")]), app("D")];

    assert_eq!(move_out_of_folder_in(&mut p, "B"), Ok(false));
    assert!(p[1].is_folder, "还有一项时文件夹必须留着");
    assert_eq!(p[1].children.len(), 1);
    assert_eq!(p[1].children[0].id, "C");
    assert_eq!(p[2].id, "B", "移出来的项要落在文件夹后面（看得见它去哪了）");
    assert_eq!(p.len(), 4, "移出 = 文件夹还留着 + 顶层多了一个");

    assert_eq!(move_out_of_folder_in(&mut p, "C"), Ok(true));
    assert_eq!(p.len(), 4, "解散不改变条目总数（少一个文件夹、多一个应用）");
    assert!(!p.iter().any(|x| x.is_folder), "不该留下空文件夹");
    assert_eq!(p[1].id, "C", "最后一项应该原地接替文件夹的位置");

    let e = move_out_of_folder_in(&mut p, "Z").unwrap_err();
    assert!(e.contains("不在任何文件夹里"), "实得：{e}");

    let mut dup = vec![app("X"), folder("F", vec![app("X")])];
    let e = move_out_of_folder_in(&mut dup, "X").unwrap_err();
    assert!(e.contains("已经有它了"), "实得：{e}");
}

#[test]
fn default_pin_rules_are_machine_independent() {
    let rules = default_pin_rules();
    for rule in &rules {
        let hint = match rule {
            PinRule::SystemExe(rel) => (*rel).to_string(),
            PinRule::ShellLocation(t) => (*t).to_string(),
            PinRule::Program(exe) => (*exe).to_string(),
            PinRule::Package(pfn, _) => (*pfn).to_string(),
        };
        assert!(!hint.is_empty(), "规则线索不能为空");
        let lower = hint.to_lowercase();
        assert!(
            !lower.contains(":\\") && !lower.contains("users\\") && !lower.contains("program files"),
            "预置规则里不许写具体安装路径（会换机器即失效）：{hint}"
        );
    }
    assert!(rules.iter().any(|r| matches!(r, PinRule::ShellLocation(_))), "至少要预置系统位置");

    let explorer = apps::system_exe_path(&Some(r"C:\Windows".into()), "explorer.exe");
    assert_eq!(explorer, r"C:\Windows\explorer.exe");
    let name = apps::discover_name(&explorer, &Some("explorer.exe".into()), "Windows 资源管理器");
    assert!(!name.trim().is_empty(), "显示名不能为空");
    assert!(
        !name.to_lowercase().ends_with(".exe"),
        "exe 的显示名要走版本信息（实测踩过：Shell 显示名对 exe 只会给回文件名）—— 实得 {name:?}"
    );
    assert!(apps::is_windowsapps_path(
        r"C:\Program Files\WindowsApps\Microsoft.WindowsTerminal_1.0_x64__8wekyb3d8bbwe\wt.exe"
    ));
    assert!(!apps::is_windowsapps_path(r"C:\Windows\explorer.exe"));
}

#[test]
fn rules_lead_to_targets() {
    for rule in default_pin_rules() {
        let found = rule_target(&rule, Some("given".into()));
        match rule {
            PinRule::ShellLocation(t) => assert_eq!(found.as_deref(), Some(t)),
            _ => assert_eq!(found.is_some(), true),
        }
    }
}

#[test]
fn a_folder_takes_the_place_of_its_first_entry() {
    let mut p = vec![app("A"), app("B"), app("C")];
    let id = create_folder(&mut p, "B", &None, 5).unwrap();
    assert_eq!(ids(&p), vec!["A", id.as_str(), "C"]);
    assert_eq!(p[1].display_name, DEFAULT_FOLDER_NAME);
    assert_eq!(ids(&p[1].children), vec!["B"]);
    assert_eq!(dissolve_folder(&mut p, &id), Ok(1));
    assert_eq!(ids(&p), vec!["A", "B", "C"]);
    assert!(create_folder(&mut p, "nope", &None, 5).is_err());
    assert!(dissolve_folder(&mut p, "nope").unwrap_err().contains("找不到文件夹"));
    assert_eq!(dissolve_folder(&mut p, "A").unwrap_err(), "它不是文件夹");
}

#[test]
fn a_folder_name_is_trimmed_and_cut() {
    let mut p = vec![app("A")];
    let long = format!("  {}  ", "字".repeat(60));
    let id = create_folder(&mut p, "A", &Some(long), 1).unwrap();
    assert_eq!(p[0].display_name.chars().count(), 40);
    assert_eq!(rename_prompt_name(&p, &id), p[0].display_name);
    assert_eq!(rename_prompt_name(&p, "nope"), DEFAULT_FOLDER_NAME);
    assert_eq!(rename_folder(&mut p, &id, " 新名 "), Ok("新名".to_string()));
    assert_eq!(p[0].display_name, "新名");
    assert_eq!(rename_folder(&mut p, &id, "   ").unwrap_err(), "名字不能为空");
    assert!(rename_folder(&mut p, "nope", "x").is_err());
}

#[test]
fn an_entry_goes_into_a_folder_and_comes_out() {
    let mut p = vec![app("A"), folder("F", vec![app("B")]), app("C")];
    assert_eq!(add_to_folder(&mut p, "F", "A"), Ok(()));
    assert_eq!(ids(&p), vec!["F", "C"]);
    assert_eq!(ids(&p[0].children), vec!["B", "A"]);
    assert!(add_to_folder(&mut p, "C", "F").is_err());
    assert!(add_to_folder(&mut p, "nope", "C").is_err());
    assert!(add_to_folder(&mut p, "F", "nope").is_err());
}

#[test]
fn removing_reaches_into_folders() {
    let mut p = vec![app("A"), folder("F", vec![app("B"), app("C")])];
    assert!(remove(&mut p, "B"));
    assert_eq!(ids(&p[1].children), vec!["C"]);
    assert!(!remove(&mut p, "B"));
    assert!(remove(&mut p, "A"));
    assert_eq!(ids(&p), vec!["F"]);
}

#[test]
fn pinning_twice_changes_nothing() {
    let mut p = vec![app("A")];
    assert!(pin(&mut p, app("B")));
    assert!(!pin(&mut p, app("B")));
    assert_eq!(ids(&p), vec!["A", "B"]);
    assert_eq!(find_pin(&p, "B"), 1);
    assert_eq!(find_pin(&p, "Z"), 2);
    assert!(unpin(&mut p, "A"));
    assert!(!unpin_top(&mut p, "A"));
    assert_eq!(ids(&p), vec!["B"]);
}

#[test]
fn places_go_to_the_left_once() {
    let mut p = vec![app("A")];
    let id = add_system_location(&mut p, "shell:RecycleBinFolder", &None).unwrap();
    assert_eq!(id, "shell:recyclebinfolder");
    assert_eq!(p[0].display_name, "回收站");
    let temp = add_temp_folder(&mut p, r"C:\Temp\临时文件");
    assert_eq!(ids(&p), vec![temp.as_str(), id.as_str(), "A"]);
    assert_eq!(p[0].display_name, TEMP_FOLDER_NAME);
    let again = add_system_location(&mut p, "shell:RecycleBinFolder", &Some("Bin".into())).unwrap();
    assert_eq!(again, id);
    assert_eq!(ids(&p), vec![id.as_str(), temp.as_str(), "A"]);
    let e = add_system_location(&mut p, r"C:\x.exe", &None).unwrap_err();
    assert_eq!(e, r"不是系统位置: C:\x.exe");
    assert_eq!(add_pinned_at_left(&mut p, r"C:\New.exe", "New"), r"c:\new.exe");
    assert_eq!(p[0].display_name, "New");
}

#[test]
fn a_folder_that_is_made_and_dissolved_leaves_no_trace() {
    let mut p = vec![app("A"), app("B"), app("C")];
    let id = create_folder(&mut p, "B", &None, 5).unwrap();
    assert_eq!(ids(&p), vec!["A", id.as_str(), "C"]);
    assert_eq!(dissolve_folder(&mut p, &id), Ok(1));
    assert_eq!(ids(&p), vec!["A", "B", "C"]);
    let mut p = vec![app("A"), app("folder-5"), app("C")];
    let id = create_folder(&mut p, "A", &None, 5).unwrap();
    assert_ne!(id, "folder-5");
    assert_eq!(dissolve_folder(&mut p, &id), Ok(1));
    assert_eq!(ids(&p), vec!["A", "folder-5", "C"]);
}

#[test]
fn only_the_known_places_are_added() {
    let mut p = vec![app("A")];
    for t in ["shell:Downloads", "shell:StartupFolder", r"shell:AppsFolder\X!App", "shell:", ""] {
        let e = add_system_location(&mut p, t, &None).unwrap_err();
        assert_eq!(e, format!("不是系统位置: {t}"));
        assert_eq!(ids(&p), vec!["A"]);
    }
    let id = add_system_location(&mut p, "SHELL:mycomputerFOLDER", &None).unwrap();
    assert_eq!(id, "shell:mycomputerfolder");
    assert_eq!(ids(&p), vec!["shell:mycomputerfolder", "A"]);
}

#[test]
fn separators_go_behind_an_entry_or_to_the_end() {
    let mut p = vec![app("A"), app("B")];
    let s = add_separator(&mut p, &Some("A".into()), 7);
    assert_eq!(ids(&p), vec!["A", s.as_str(), "B"]);
    assert!(p[1].separator);
    let e = add_separator(&mut p, &None, 7);
    assert_ne!(s, e);
    assert_eq!(p[3].id, e);
    assert_eq!(next_id(&p, "sep-", 8).starts_with("sep-"), true);
}

#[test]
fn an_order_has_to_name_everything_once() {
    let mut p = vec![app("A"), app("B"), app("C")];
    let order: Vec<String> = vec!["C".into(), "A".into(), "B".into()];
    assert_eq!(reorder(&mut p, &order), Ok(()));
    assert_eq!(ids(&p), vec!["C", "A", "B"]);
    let short: Vec<String> = vec!["C".into()];
    assert_eq!(reorder(&mut p, &short).unwrap_err(), "顺序长度不符（收到 1，实际 3）");
    let twice: Vec<String> = vec!["C".into(), "C".into(), "A".into()];
    assert_eq!(reorder(&mut p, &twice).unwrap_err(), "顺序里有不存在的项，或重复项: C");
    assert_eq!(ids(&p), vec!["C", "A", "B"]);
}

#[test]
fn the_first_list_puts_a_separator_before_the_applications() {
    let mut p = Vec::new();
    let found = vec![
        FoundTarget { target: Some("shell:MyComputerFolder".into()), exists: true, name: "此电脑".into() },
        FoundTarget { target: Some(r"C:\a.exe".into()), exists: true, name: "A".into() },
        FoundTarget { target: Some(r"C:\b.exe".into()), exists: false, name: "B".into() },
        FoundTarget { target: None, exists: false, name: String::new() },
    ];
    let n = seed_default_pins(&mut p, &found, 3);
    assert_eq!(n, p.len());
    assert!(p.iter().any(|x| x.separator));
    assert!(!p.iter().any(|x| x.target == r"C:\b.exe"));
    assert_eq!(p[0].id, "shell:mycomputerfolder");
    assert!(p[1].separator && p[2].target == r"C:\a.exe");
}

#[test]
fn the_first_list_has_no_separator_at_an_end() {
    let found = |targets: &[&str]| -> Vec<FoundTarget> {
        targets
            .iter()
            .map(|t| FoundTarget { target: Some(t.to_string()), exists: true, name: "x".into() })
            .collect()
    };
    let mut p = Vec::new();
    let n = seed_default_pins(&mut p, &found(&[r"C:\a.exe", r"C:\b.exe"]), 3);
    assert_eq!((n, p.len()), (2, 2));
    assert!(!p.iter().any(|x| x.separator));
    let mut p = Vec::new();
    seed_default_pins(&mut p, &found(&["shell:MyComputerFolder", "shell:RecycleBinFolder"]), 3);
    assert_eq!(p.len(), 2);
    assert!(!p.iter().any(|x| x.separator));
    let mut p = Vec::new();
    seed_default_pins(&mut p, &found(&[r"shell:AppsFolder\X!App", r"C:\a.exe"]), 3);
    assert_eq!(p.iter().filter(|x| x.separator).count(), 1);
}

#[test]
fn preferences_have_their_usual_values() {
    let p = Preferences::default();
    assert!(!p.auto_hide && p.show_running_indicators && p.reserve_taskbar);
    assert_eq!((p.hide_delay_ms, p.icon_size, p.panel_height, p.icon_gap), (420, 44, 72, 10));
    assert_eq!(p.glass_rgb, [24, 24, 28]);
    assert_eq!(p.glass_alpha, 150);
}

#[test]
fn the_configuration_lies_where_it_is_redirected() {
    assert!(matches!(config_path(&Some("D:\\x".into()), &Some("app".into())), ConfigPlace::InDirectory(d) if d == "D:\\x"));
    assert!(matches!(config_path(&None, &Some("app".into())), ConfigPlace::InDirectory(d) if d == "app"));
    assert!(matches!(config_path(&None, &None), ConfigPlace::File(_)));
    assert_eq!(config_dir(&Some("D:\\x".into()), &None), "D:\\x");
}

#[test]
fn nothing_is_migrated_over_something_new() {
    let p = plan_migration(false, false, true, true, false, true);
    assert!(p.copy_config && p.copy_temp);
    let p = plan_migration(false, true, true, true, true, true);
    assert!(!p.copy_config && !p.copy_temp);
    let p = plan_migration(true, false, true, true, false, true);
    assert!(!p.copy_config);
}
