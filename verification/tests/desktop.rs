use texteditor_plugin::desktop::HostDesktop;

#[test]
fn there_is_no_trash_outside_the_sandbox() {
    let host = HostDesktop;
    let refused = "no OS trash outside the sandbox".to_string();
    assert_eq!(host.trash("/tmp/a.txt"), Err(refused.clone()));
    assert_eq!(host.restore("/tmp/a.txt"), Err(refused));
}
