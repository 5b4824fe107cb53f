use mcp_server_gdb::responses::{
    labeled, selected_frame_text, session_active_text, session_created_text, session_id_from_reply,
};
use mcp_server_gdb::session::SessionTable;

#[test]
fn created_reply_round_trips() {
    let mut t: SessionTable<()> = SessionTable::new();
    let id = t.create(0, false, ());
    let reply = session_created_text(&id);
    assert_eq!(reply.strip_prefix("Created GDB session: "), Some(id.as_str()));
    assert_eq!(session_id_from_reply(&reply), Some(id.clone()));
}

#[test]
fn id_extraction_edges() {
    assert_eq!(session_id_from_reply("no separator"), None);
    assert_eq!(session_id_from_reply("x: \"abc\" more"), Some(String::new()));
    assert_eq!(session_id_from_reply("Session: abc\"def"), Some("abc".to_string()));
    assert_eq!(session_id_from_reply("a:b: c: d"), Some("c: d".to_string()));
    assert_eq!(session_id_from_reply("x: "), Some(String::new()));
}

#[test]
fn reply_texts() {
    assert_eq!(labeled("Result", "30"), "Result: 30");
    assert_eq!(selected_frame_text(0), "Selected frame 0");
    assert_eq!(selected_frame_text(1234567), "Selected frame 1234567");
    assert_eq!(session_active_text(true), "Session active: true");
    assert_eq!(session_active_text(false), "Session active: false");
}
