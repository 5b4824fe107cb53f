use mcp_server_gdb::error::AppError;
use mcp_server_gdb::session::{check_program_alive, init_gdb_manager, GDBSessionStatus, SessionTable};

fn is_uuid_text(s: &str) -> bool {
    let chars: Vec<char> = s.chars().collect();
    chars.len() == 36
        && chars.iter().enumerate().all(|(i, c)| {
            if [8, 13, 18, 23].contains(&i) { *c == '-' } else { c.is_ascii_hexdigit() && !c.is_ascii_uppercase() }
        })
        && chars[14] == '4'
        && ['8', '9', 'a', 'b'].contains(&chars[19])
}

#[test]
fn created_session_is_found_as_created() {
    let mut t: SessionTable<u32> = init_gdb_manager();
    let id = t.create(1700000000, false, 7);
    assert!(is_uuid_text(&id), "{}", id);
    let info = t.get(&id).unwrap();
    assert_eq!(info.id, id);
    assert_eq!(info.status, GDBSessionStatus::Created);
    assert_eq!(info.created_at, 1700000000);
    // nothing has been run yet
    assert_eq!(t.is_active(&id).unwrap(), false);
    assert_eq!(*t.handle(&id, Some("step execution")).unwrap(), 7);
}

#[test]
fn two_sessions_get_distinct_ids() {
    let mut t: SessionTable<u32> = SessionTable::new();
    let a = t.create(1, false, 1);
    let b = t.create(2, false, 2);
    assert_ne!(a, b);
    let all = t.get_all();
    assert_eq!(all.len(), 2);
    assert_eq!(all[0].id, a);
    assert_eq!(all[1].id, b);
}

#[test]
fn unknown_session_is_not_found() {
    let t: SessionTable<u32> = SessionTable::new();
    match t.get("nope") {
        Err(AppError::NotFound(m)) => assert_eq!(m, "Session nope does not exist"),
        _ => panic!("expected NotFound"),
    }
    assert!(matches!(t.is_active("nope"), Err(AppError::NotFound(_))));
    assert!(matches!(t.handle("nope", None), Err(AppError::NotFound(_))));
}

#[test]
fn exit_flag_terminates_and_restart_revives() {
    let mut t: SessionTable<u32> = SessionTable::new();
    t.insert("s1".to_string(), 5, false, 10);
    t.insert("s2".to_string(), 6, false, 20);
    t.mark_started("s1");
    assert_eq!(t.is_active("s1").unwrap(), true);
    t.set_exited("s1", true);
    assert_eq!(t.get("s1").unwrap().status, GDBSessionStatus::Terminated);
    assert_eq!(t.is_active("s1").unwrap(), false);
    // get_all reports the recorded status, not the adjusted one
    assert_eq!(t.get_all()[0].status, GDBSessionStatus::Running);
    match t.handle("s1", Some("get stack frames")) {
        Err(AppError::ProgramExited(m)) => assert_eq!(
            m,
            "Cannot get stack frames -- the program has exited. Use start_debugging to run it again, or close_session and create_session to start fresh."
        ),
        _ => panic!("expected ProgramExited"),
    }
    assert_eq!(*t.handle("s1", None).unwrap(), 10);
    assert_eq!(t.get("s2").unwrap().status, GDBSessionStatus::Created);
    t.set_exited("s1", false);
    assert_eq!(t.is_active("s1").unwrap(), true);
    assert_eq!(t.get("s1").unwrap().status, GDBSessionStatus::Running);
}

#[test]
fn close_removes_only_that_session() {
    let mut t: SessionTable<u32> = SessionTable::new();
    t.insert("a".to_string(), 1, false, 100);
    t.insert("b".to_string(), 2, false, 200);
    assert_eq!(t.remove("a"), Some(100));
    assert!(matches!(t.get("a"), Err(AppError::NotFound(_))));
    assert_eq!(t.get("b").unwrap().created_at, 2);
    assert_eq!(t.remove("a"), None);
    assert_eq!(t.get_all().len(), 1);
}

#[test]
fn insert_replaces_same_id() {
    let mut t: SessionTable<u32> = SessionTable::new();
    t.insert("a".to_string(), 1, false, 100);
    t.mark_started("a");
    t.set_exited("a", true);
    t.insert("a".to_string(), 9, false, 300);
    let all = t.get_all();
    assert_eq!(all.len(), 1);
    assert_eq!(all[0].created_at, 9);
    assert_eq!(all[0].status, GDBSessionStatus::Created);
    assert_eq!(t.is_active("a").unwrap(), false);
    assert_eq!(*t.handle("a", None).unwrap(), 300);
}

#[test]
fn create_then_close_restores_registry() {
    let mut t: SessionTable<u32> = SessionTable::new();
    t.insert("keep".to_string(), 1, false, 1);
    let id = t.create(2, false, 2);
    t.remove(&id);
    let all = t.get_all();
    assert_eq!(all.len(), 1);
    assert_eq!(all[0].id, "keep");
}

#[test]
fn start_makes_session_running_and_active() {
    let mut t: SessionTable<u32> = SessionTable::new();
    t.insert("a".to_string(), 1, false, 1);
    t.insert("b".to_string(), 2, false, 2);
    assert_eq!(t.is_active("a").unwrap(), false);
    // a fresh session is not refused by the alive check
    assert_eq!(*t.handle("a", Some("step execution")).unwrap(), 1);
    t.set_exited("a", false);
    assert_eq!(t.is_active("a").unwrap(), false);
    t.mark_started("a");
    assert_eq!(t.get("a").unwrap().status, GDBSessionStatus::Running);
    assert_eq!(t.is_active("a").unwrap(), true);
    assert_eq!(t.get("b").unwrap().status, GDBSessionStatus::Created);
    assert_eq!(t.is_active("b").unwrap(), false);
    // a restart clears the exit flag before the run command, then records the answer
    t.set_exited("a", true);
    assert_eq!(t.is_active("a").unwrap(), false);
    t.set_exited("a", false);
    t.mark_started("a");
    assert_eq!(t.is_active("a").unwrap(), true);
    // an exit reported before the answer to the run command is kept
    t.set_exited("a", false);
    t.set_exited("a", true);
    t.mark_started("a");
    assert_eq!(t.is_active("a").unwrap(), false);
    assert_eq!(t.get("a").unwrap().status, GDBSessionStatus::Terminated);
    t.mark_started("nope");
    assert_eq!(t.get_all().len(), 2);
}

#[test]
fn alive_check() {
    assert!(check_program_alive(false, "step execution").is_ok());
    match check_program_alive(true, "continue execution") {
        Err(AppError::ProgramExited(m)) => assert!(m.starts_with("Cannot continue execution -- the program has exited.")),
        _ => panic!("expected ProgramExited"),
    }
}

#[test]
fn attached_session_is_active_from_the_start() {
    let mut t: SessionTable<u32> = SessionTable::new();
    let id = t.create(3, true, 4);
    assert!(is_uuid_text(&id), "{}", id);
    assert_eq!(t.is_active(&id).unwrap(), true);
    assert_eq!(t.get(&id).unwrap().status, GDBSessionStatus::Created);
    t.insert("plain".to_string(), 5, false, 6);
    assert_eq!(t.is_active("plain").unwrap(), false);
}

#[test]
fn program_reported_live_makes_session_active() {
    let mut t: SessionTable<u32> = SessionTable::new();
    t.insert("a".to_string(), 1, false, 1);
    t.insert("b".to_string(), 2, false, 2);
    // a program run through a raw command is reported by GDB as started
    t.mark_program_live("a");
    assert_eq!(t.is_active("a").unwrap(), true);
    assert_eq!(t.get("a").unwrap().status, GDBSessionStatus::Created);
    assert_eq!(t.is_active("b").unwrap(), false);
    t.set_exited("a", true);
    assert_eq!(t.is_active("a").unwrap(), false);
    t.mark_program_live("a");
    assert_eq!(t.is_active("a").unwrap(), true);
    assert_eq!(t.get("a").unwrap().status, GDBSessionStatus::Created);
    t.mark_program_live("nope");
    assert_eq!(t.get_all().len(), 2);
}
