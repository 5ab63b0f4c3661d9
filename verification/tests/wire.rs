use spacegraph::wire::{id_file, id_process, id_user, NodeId};

#[test]
fn node_ids_follow_the_three_formats() {
    assert_eq!(id_process("host", 42), NodeId("host:process:pid:42".to_string()));
    assert_eq!(id_process("host", -7), NodeId("host:process:pid:-7".to_string()));
    assert_eq!(id_user("host", 0), NodeId("host:user:0".to_string()));
    assert_eq!(id_user("host", 4294967295), NodeId("host:user:4294967295".to_string()));
    assert_eq!(id_file("host", "/etc/passwd"), NodeId("host:file:/etc/passwd".to_string()));
}
