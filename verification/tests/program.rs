use avt_replenishment::command::{read_command, until_zero, wide, Command};
use avt_replenishment::display::{
    fill_notes, fill_status, notes, source_row, summary, update_status,
};
use avt_replenishment::install::{
    read_args, try_again, valid_dir, waited, InstallError, Installer, Move, Seen, Task,
};
use avt_replenishment::map::TextMap;
use avt_replenishment::plan::{Outcome, Plan, Source};
use avt_replenishment::session::{clean_path, Check, Deed, Fill, Session};
use avt_replenishment::updates::UpdateInfo;
use avt_replenishment::window::{
    after_click, column_widths, is_click, layout, owner_event, pin_label, pin_position, pin_shown,
    Area, Control, PinEvent,
};

fn strings(v: &[&str]) -> Vec<String> {
    v.iter().map(|s| s.to_string()).collect()
}

#[test]
fn commands_are_read() {
    let read = |v: &[&str], updates| read_command(&strings(v), updates);
    assert!(matches!(read(&["p", "check-update"], true), Command::CheckUpdate));
    assert!(matches!(read(&["p", "verify-update"], true), Command::VerifyUpdate));
    assert!(matches!(read(&["p", "check-update"], false), Command::Usage));
    assert!(matches!(read(&["p", "inspect", "x"], false), Command::Inspect(x) if x == "x"));
    assert!(matches!(read(&["p", "apply", "x"], false), Command::Apply(x, false) if x == "x"));
    assert!(matches!(read(&["p", "apply", "x", "--backup"], true), Command::Apply(_, true)));
    assert!(matches!(read(&["p", "other", "x"], true), Command::Unknown(_)));
    assert!(matches!(read(&[], true), Command::Usage));
}

#[test]
fn wide_texts_end_with_a_zero() {
    let expected: Vec<u16> = "aé中😀".encode_utf16().chain(Some(0)).collect();
    assert_eq!(wide("aé中😀"), expected);
    assert_eq!(until_zero(&expected), expected.len() - 1);
    assert_eq!(until_zero(&[5, 6]), 2);
}

#[test]
fn update_directories_are_beside_the_program_and_named() {
    assert!(valid_dir(true, Some(".avt-update-x")));
    assert!(!valid_dir(false, Some(".avt-update-x")));
    assert!(!valid_dir(true, Some("app")));
    assert!(!valid_dir(true, None));
}

#[test]
fn arguments_ask_for_an_installation() {
    let read = |v: &[&str]| read_args(&strings(v));
    assert!(matches!(
        read(&["p", "--avt-install-update", "t", "12", "d"]),
        Task::Install(t, 12, d) if t == "t" && d == "d"
    ));
    assert!(matches!(read(&["p", "--avt-install-update", "t"]), Task::Fail(InstallError::Arguments)));
    match read(&["p", "--avt-install-update", "t", "x", "d"]) {
        Task::Fail(e) => assert_eq!(e.message(), "invalid digit found in string"),
        _ => panic!(),
    }
    assert!(matches!(read(&["p", "--avt-clean-update", "d", "4294967295"]), Task::Clean(_, u32::MAX)));
    assert!(matches!(read(&["p", "--avt-clean-update", "d", "4294967296"]), Task::Start));
    assert!(matches!(read(&["p", "book.xlsx"]), Task::Start));
}

#[test]
fn processes_are_waited_for() {
    assert!(waited(false, 87, 0).is_ok());
    assert!(waited(true, 0, 0).is_ok());
    assert_eq!(waited(false, 5, 0).err().unwrap().message(), "无法等待原程序退出");
    assert_eq!(waited(true, 0, 258).err().unwrap().message(), "原程序未退出，更新已停止");
    assert!(try_again(39) && !try_again(40));
}

#[test]
fn an_installation_runs_to_its_end() {
    let digest = "a".repeat(64);
    let mut i = Installer::new();
    assert!(matches!(i.step(&digest, Seen::New(digest.clone())), Move::Wait));
    assert!(matches!(i.step(&digest, Seen::Ended(None)), Move::HashBoth));
    assert!(matches!(i.step(&digest, Seen::Both("x".into(), "x".into())), Move::PutNew));
    assert!(matches!(i.step(&digest, Seen::Tried(None)), Move::StartNew));
    assert!(matches!(i.step(&digest, Seen::Tried(None)), Move::Done));
}

#[test]
fn a_failed_installation_is_taken_back() {
    let digest = "a".repeat(64);
    for there in [true, false] {
        let mut i = Installer::new();
        i.step(&digest, Seen::New(digest.clone()));
        i.step(&digest, Seen::Ended(None));
        i.step(&digest, Seen::Both("x".into(), "x".into()));
        assert!(matches!(i.step(&digest, Seen::Tried(Some(InstallError::Replace(5)))), Move::Look));
        let back = i.step(&digest, Seen::There(there));
        if there {
            assert!(matches!(back, Move::PutOld));
            assert!(matches!(i.step(&digest, Seen::Tried(None)), Move::StartOld));
        } else {
            assert!(matches!(back, Move::CopyOld));
            assert!(matches!(i.step(&digest, Seen::Copied(None)), Move::StartOld));
        }
        match i.step(&digest, Seen::Tried(None)) {
            Move::Fail(e) => assert_eq!(
                e.message(),
                "替换程序失败（Windows 错误 5），请关闭其他程序实例后重试"
            ),
            _ => panic!(),
        }
    }
}

#[test]
fn an_installation_is_refused() {
    let digest = "a".repeat(64);
    let words = |m: Move| match m {
        Move::Fail(e) => e.message(),
        _ => panic!(),
    };
    assert_eq!(words(Installer::new().step(&digest, Seen::New("b".into()))), "待更新程序校验失败");
    assert_eq!(words(Installer::new().step("b", Seen::New("b".into()))), "待更新程序校验失败");
    assert_eq!(words(Installer::new().step(&digest, Seen::There(true))), "更新步骤次序错误");
    let mut i = Installer::new();
    i.step(&digest, Seen::New(digest.clone()));
    i.step(&digest, Seen::Ended(None));
    assert_eq!(
        words(i.step(&digest, Seen::Both("x".into(), "y".into()))),
        "原程序已发生变化，请重新检查更新"
    );
    let mut i = Installer::new();
    i.step(&digest, Seen::New(digest.clone()));
    i.step(&digest, Seen::Ended(None));
    i.step(&digest, Seen::Both("x".into(), "x".into()));
    i.step(&digest, Seen::Tried(None));
    i.step(&digest, Seen::Tried(Some(InstallError::Start("m".into()))));
    i.step(&digest, Seen::There(true));
    assert_eq!(
        words(i.step(&digest, Seen::Tried(Some(InstallError::Replace(2))))),
        "恢复旧程序失败，旧程序保留在更新目录的 old.exe: 替换程序失败（Windows 错误 2），请关闭其他程序实例后重试"
    );
}

fn source() -> Source {
    Source {
        path: "C:\\data/x.csv".to_string(),
        sheet: "7天销".to_string(),
        country: "UK".to_string(),
        rows: 12,
        columns: 15,
        converted: 3,
        encoding: "GBK".to_string(),
        modified: "2026-08-24 08:00:00".to_string(),
        hash: "00".to_string(),
    }
}

fn plan(warnings: &[&str]) -> Plan {
    let mut sheets = TextMap::new();
    sheets.insert("7天销".to_string(), Vec::new());
    Plan {
        target: "C:\\plan.xlsx".to_string(),
        station: "UK".to_string(),
        code: "UK".to_string(),
        date: "20260824".to_string(),
        root: "C:\\".to_string(),
        sources: vec![source()],
        warnings: strings(warnings),
        target_hash: String::new(),
        sheets,
    }
}

fn update(newer: bool) -> UpdateInfo {
    UpdateInfo {
        asset_id: 1,
        asset_size: 2,
        digest: None,
        latest: "9.0.0".to_string(),
        newer,
        release_url: String::new(),
    }
}

#[test]
fn a_plan_is_shown() {
    assert_eq!(
        summary(&plan(&[])),
        "UK 站    |    日期 20260824    |    1 个源文件    |    将更新 1 张工作表"
    );
    assert_eq!(
        source_row(&source(), "x.csv"),
        ["7天销", "UK", "x.csv", "12", "3", "2026-08-24 08:00:00"]
    );
    assert_eq!(
        notes(&plan(&["w"])),
        "站点目录：C:\\\r\n需要核对：\r\n• w\r\n\r\n源文件完整路径：\r\n7天销 / UK：C:\\data/x.csv [GBK]\r\n"
    );
    assert!(notes(&plan(&[])).contains("匹配完成。"));
}

#[test]
fn an_outcome_and_an_update_are_shown() {
    let mut o = Outcome {
        target: "t".to_string(),
        backup: None,
        sheets: 2,
        converted: 30,
        message: "m".to_string(),
    };
    assert_eq!(fill_status(&o), "填充完成：2 张工作表，30 个普通数字已转换。");
    assert_eq!(fill_notes(&o), "m\r\n\r\n原表：t\r\n本次未创建备份。\r\n");
    o.backup = Some("b".to_string());
    assert_eq!(fill_notes(&o), "m\r\n\r\n原表：t\r\n备份：b\r\n");
    assert_eq!(
        update_status(&update(true)),
        "发现新版本 v9.0.0，当前 v1.2.0。点击“下载并更新”，完成后自动重启。"
    );
    assert_eq!(update_status(&update(false)), "当前 v1.2.0，最新正式版本 v9.0.0，无需更新。");
}

#[test]
fn a_session_does_one_thing_at_a_time() {
    let mut s = Session::new(false);
    assert!(s.start() && !s.start());
    assert!(!s.may_close() && !s.takes_drop(1));
    assert!(matches!(s.check_update(), Check::Nothing));
    s.end_inspection(plan(&["w"]));
    assert!(s.may_close() && s.takes_drop(1) && !s.takes_drop(2));
    assert!(!s.ready(false) && s.ready(true));
    assert!(matches!(s.fill(" \"C:\\plan.xlsx\" ", false), Fill::Nothing));
    assert!(matches!(s.fill("C:\\plan.xlsx", true), Fill::Fill));
    assert!(matches!(s.fill("C:\\plan.xlsx", true), Fill::Nothing));
    s.end_filling();
    assert!(!s.ready(true));
    assert!(matches!(s.fill("C:\\plan.xlsx", true), Fill::Nothing));
}

#[test]
fn another_path_is_inspected_first() {
    let mut s = Session::new(false);
    s.start();
    s.end_inspection(plan(&[]));
    assert!(matches!(s.fill("\"D:\\b.xlsx\"", true), Fill::Inspect(p) if p == "D:\\b.xlsx"));
    assert!(s.plan.is_none() && s.busy);
    s.end();
    assert!(matches!(s.fill("x", true), Fill::Nothing));
    assert_eq!(clean_path(" \"\"a b\"\" "), "a b");
}

#[test]
fn updates_need_a_token_and_a_newer_release() {
    let mut s = Session::new(false);
    assert!(matches!(s.check_update(), Check::NeedToken));
    assert!(s.asks_for_token(false, true) && s.asks_for_token(true, false));
    s.take_token();
    assert!(!s.asks_for_token(false, true));
    assert!(matches!(s.check_update(), Check::Check));
    s.end_check(update(false));
    assert!(!s.release_enabled() && !s.download_update());
    s.end_check(update(true));
    assert!(s.release_enabled() && s.download_update() && !s.download_update());
    s.end();
    s.forget();
    assert!(!s.token && s.available.is_none());
}

#[test]
fn controls_have_places() {
    let l = layout(1000, 700);
    assert_eq!(l.len(), 17);
    let fill = l.iter().find(|p| p.control == Control::Fill).unwrap();
    assert_eq!((fill.left, fill.top, fill.width, fill.height), (720, 647, 256, 36));
    let list = layout(1000, 500).into_iter().find(|p| p.control == Control::List).unwrap();
    assert_eq!(list.height, 130);
    assert_eq!(column_widths(1000), [112, 52, 450, 70, 80, 180]);
    assert_eq!(column_widths(100)[2], 220);
}

#[test]
fn the_pin_stands_beside_the_buttons() {
    let window = Area { left: 100, top: 50, right: 1000, bottom: 600 };
    let none = Area { left: 0, top: 0, right: 0, bottom: 0 };
    assert_eq!(pin_position(window, none, 96, 8, 30), (100 + 900 - 8 - 132 - 44, 58, 44, 30));
    let told = Area { left: 700, top: 1, right: 890, bottom: 33 };
    assert_eq!(pin_position(window, told, 144, 8, 30), (100 + 700 - 66, 51, 66, 32));
    let moved = Area { left: 200, top: 100, right: 1100, bottom: 650 };
    assert_eq!(pin_position(moved, told, 144, 8, 30), (200 + 700 - 66, 101, 66, 32));
    assert_eq!(owner_event(2), PinEvent::Remove);
    assert_eq!(owner_event(5), PinEvent::Place);
    assert_eq!(owner_event(1), PinEvent::Nothing);
    assert!(is_click(true, 0, 0, 1, 1, true));
    assert!(!is_click(true, 1, 0, 1, 1, true) && !is_click(false, 0, 0, 1, 1, true));
    assert_eq!(pin_label(true), "窗口置顶：已开启");
    assert_eq!(pin_label(false), "窗口置顶：未开启");
}

#[test]
fn the_pin_hides_with_its_window() {
    let window = Area { left: 100, top: 50, right: 1000, bottom: 600 };
    let told = Area { left: 700, top: 1, right: 890, bottom: 33 };
    let place = Some(pin_position(window, told, 144, 8, 30));
    assert_eq!(pin_shown(true, false, window, told, 144, 8, 30), place);
    assert_eq!(pin_shown(false, false, window, told, 144, 8, 30), None);
    assert_eq!(pin_shown(true, true, window, told, 144, 8, 30), None);
    let far = Area { left: i32::MIN, top: i32::MIN, right: i32::MAX, bottom: i32::MAX };
    assert_eq!(pin_shown(true, true, far, far, u32::MAX, i32::MAX, i32::MAX), None);
}

#[test]
fn a_click_turns_the_pin_over() {
    assert_eq!((after_click(true, false), after_click(true, true)), (Some(true), Some(false)));
    assert_eq!((after_click(false, false), after_click(false, true)), (None, None));
    assert_eq!(after_click(true, after_click(true, true).unwrap()), Some(true));
}

#[test]
fn messages_lead_to_deeds() {
    let mut s = Session::new(false);
    for (message, deed) in [
        (0x1, Deed::Create),
        (0x2, Deed::Quit),
        (0x5, Deed::Layout),
        (0x10, Deed::Close),
        (0x24, Deed::Limits),
        (0x82, Deed::Discard),
        (0x113, Deed::Poll),
        (0x233, Deed::Drop),
        (0x8001, Deed::Open),
        (0x8000, Deed::Default),
        (0xf, Deed::Default),
    ] {
        assert_eq!(s.deed(message, 0), deed);
    }
    s.start();
    assert_eq!((s.deed(0x10, 0), s.deed(0x5, 0)), (Deed::Stay, Deed::Layout));
}

#[test]
fn buttons_lead_to_deeds() {
    let mut s = Session::new(false);
    let press = |s: &Session, c: Control| s.deed(0x111, c.number() as usize);
    for (control, deed) in [
        (Control::Pin, Deed::Pin),
        (Control::Forget, Deed::Forget),
        (Control::Release, Deed::Download),
        (Control::Pick, Deed::Pick),
        (Control::Scan, Deed::Scan),
        (Control::Fill, Deed::Fill),
        (Control::Acknowledge, Deed::Ready),
        (Control::Backup, Deed::Nothing),
        (Control::Authorize, Deed::Authorize(false)),
        (Control::Update, Deed::Authorize(true)),
    ] {
        assert_eq!(press(&s, control), deed);
        assert_eq!(s.deed(0x111, control.number() as usize + 0x10000), Deed::Default);
    }
    s.take_token();
    assert_eq!(press(&s, Control::Update), Deed::CheckUpdate);
    assert_eq!(press(&s, Control::Authorize), Deed::Authorize(false));
    s.start();
    assert_eq!(press(&s, Control::Authorize), Deed::Nothing);
    assert_eq!(press(&s, Control::Scan), Deed::Scan);
    s.forget();
    assert_eq!(press(&s, Control::Update), Deed::CheckUpdate);
}
