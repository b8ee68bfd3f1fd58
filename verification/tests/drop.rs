use dock_app::drop::{
    buffer_length, display_name, file_kind, handle_drop, handle_one, refresh_apps, resolve_lnk,
    resolve_target, saved_outcome, toast, DropStep, FileKind, Outcome,
};
use dock_app::model::PinnedApp;
use dock_app::picker::pick_and_pin;

fn some(s: &str) -> Option<String> {
    Some(s.to_string())
}

fn no_link() -> Result<String, String> {
    Err("unused".to_string())
}

#[test]
fn files_are_accepted_by_their_extension() {
    assert_eq!(file_kind(&some("EXE")), FileKind::Program);
    assert_eq!(file_kind(&some("lnk")), FileKind::Link);
    assert_eq!(file_kind(&some("Url")), FileKind::UrlShortcut);
    assert_eq!(file_kind(&None), FileKind::Folder);
    assert_eq!(file_kind(&some("pdf")), FileKind::Other);
}

#[test]
fn what_launching_a_file_opens() {
    let p = r"C:\a.exe";
    assert_eq!(resolve_target(p, true, &some("exe"), no_link(), &None), Ok(p.to_string()));
    assert_eq!(resolve_target(p, false, &some("exe"), no_link(), &None), Err("路径不存在".to_string()));
    assert_eq!(
        resolve_target("x.lnk", true, &some("LNK"), Ok(r"C:\real.exe".into()), &None),
        Ok(r"C:\real.exe".to_string())
    );
    let u = r"C:\Some Game.url";
    assert_eq!(resolve_target(u, true, &some("url"), no_link(), &some("steam://x")), Ok(u.to_string()));
    let why = resolve_target(u, true, &some("url"), no_link(), &None).unwrap_err();
    assert!(why.contains("没有 URL"), "实得：{why}");
    assert_eq!(resolve_target("d", true, &None, no_link(), &None), Err("文件夹不能添加".to_string()));
    assert_eq!(
        resolve_target("a.pdf", true, &some("pdf"), no_link(), &None),
        Err("只接受 .exe / .lnk / .url".to_string())
    );
}

#[test]
fn links_lead_to_files_or_items() {
    assert_eq!(resolve_lnk(some("a.exe"), some("item")), Ok("a.exe".to_string()));
    assert_eq!(resolve_lnk(some(""), some("item")), Ok("item".to_string()));
    assert!(resolve_lnk(None, some("")).unwrap_err().contains("解析不出目标"));
    assert_eq!(buffer_length(&[65, 66, 0, 67]), 2);
    assert_eq!(buffer_length(&[65, 66]), 0);
}

#[test]
fn dropped_things_have_names() {
    assert_eq!(display_name(r"C:\a.exe", "c:\\a.exe", &some("x"), "Prog"), "Prog");
    assert_eq!(display_name("shell:AppsFolder\\X!App", "uwp:x!app", &some("Calc"), "Prog"), "Calc");
    assert_eq!(display_name("shell:AppsFolder\\X!App", "uwp:x!app", &some(""), "Prog"), "app");
    assert_eq!(display_name("shell:Foo", "uwp:foo", &None, "Prog"), "foo");
}

#[test]
fn a_file_is_added_once() {
    let mut list: Vec<PinnedApp> = Vec::new();
    match handle_one(&mut list, "a.exe", Ok(r"C:\A.exe".into()), "A") {
        DropStep::Save { id } => assert_eq!(id, r"c:\a.exe"),
        other => panic!("{other:?}"),
    }
    assert_eq!(list.len(), 1);
    assert_eq!(list[0].display_name, "A");
    assert!(matches!(
        handle_one(&mut list, "a.exe", Ok(r"c:\a.EXE".into()), "A"),
        DropStep::Settled(Outcome::Already { .. })
    ));
    assert!(matches!(
        handle_one(&mut list, "b.pdf", Err("why".into()), ""),
        DropStep::Settled(Outcome::Rejected { name, why }) if name == "b.pdf" && why == "why"
    ));
    assert_eq!(list.len(), 1);
    assert!(matches!(saved_outcome("f", "n", &None, true), Outcome::Added { running: true, .. }));
    assert!(matches!(
        saved_outcome("f", "n", &some("disk"), true),
        Outcome::Rejected { why, .. } if why == "写入配置失败: disk"
    ));
}

fn added(name: &str, running: bool) -> Outcome {
    Outcome::Added { name: name.into(), running }
}

fn rejected(name: &str, why: &str) -> Outcome {
    Outcome::Rejected { name: name.into(), why: why.into() }
}

#[test]
fn one_sentence_sums_up_a_drop() {
    assert_eq!(handle_drop(&Vec::new()), (String::new(), false));
    assert_eq!(handle_drop(&vec![added("A", true)]).0, "已添加 A（运行中）");
    assert_eq!(handle_drop(&vec![added("A", false)]), ("已添加 A".to_string(), true));
    assert_eq!(handle_drop(&vec![added("A", false), added("B", false)]).0, "已添加 2 个程序");
    assert_eq!(handle_drop(&vec![rejected("x", "y")]), ("x：y".to_string(), false));
    assert_eq!(
        handle_drop(&vec![Outcome::Already { name: "A".into() }, rejected("x", "y"), rejected("z", "w")]).0,
        "A 已在 Dock 上（另有 2 个未添加）"
    );
    assert_eq!(handle_drop(&vec![rejected("x", "y"), added("A", false)]).0, "已添加 1 个，1 个未添加");
}

#[test]
fn a_message_stays_inside_its_literal() {
    assert_eq!(
        toast("说\"引号\"\\和\n换行\u{1}"),
        "window.__dockToast && window.__dockToast(\"说\\\"引号\\\"\\\\和\\n换行\\u0001\");"
    );
    assert_eq!(toast(""), "window.__dockToast && window.__dockToast(\"\");");
    assert!(refresh_apps().contains("__dockRefreshApps"));
}

#[test]
fn every_character_is_written_as_the_library_says() {
    let all: String = (0u32..0x180).filter_map(char::from_u32).collect();
    let lit = dock_app::json::literal_of(&all);
    assert_eq!(serde_json::from_str::<String>(&lit).unwrap(), all);
    assert!(lit.contains("\\b") && lit.contains("\\f") && lit.contains("\\u001f"));
    assert!(lit.contains('\u{7f}') && lit.contains('ÿ'));
}

#[test]
fn picking_follows_the_same_rules() {
    let mut list: Vec<PinnedApp> = Vec::new();
    assert!(pick_and_pin(&mut list, "a.exe", Ok(r"C:\A.exe".into()), "A").is_ok());
    assert_eq!(list[0].id, r"c:\a.exe");
    assert!(pick_and_pin(&mut list, "a.exe", Ok(r"C:\A.exe".into()), "A").is_ok());
    assert_eq!(list.len(), 1);
    let e = pick_and_pin(&mut list, "b.pdf", Err("不行".into()), "").unwrap_err();
    assert_eq!(e.note, "b.pdf：不行");
    assert_eq!(e.why, "不行");
}
