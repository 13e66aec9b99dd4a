use dmgr::cli::InitSystem;
use dmgr::init::render_init_script;
use dmgr::path::UnixPath;

#[test]
fn renders_systemd_template() {
    let rendered =
        render_init_script(InitSystem::Systemd, "/usr/bin/dmgr", &UnixPath::new("/tmp/dmgr"));
    assert!(rendered.contains("ExecStart=/usr/bin/dmgr --root /tmp/dmgr build --autobuild"));
    assert!(rendered.contains("Wants=network-online.target docker.service"));
}

#[test]
fn renders_openrc_template() {
    let rendered = render_init_script(InitSystem::Openrc, "dmgr", &UnixPath::new("/tmp/dmgr"));
    assert!(rendered.contains("command=\"dmgr\""));
    assert!(rendered.contains("command_env=\"DMGR_ROOT=/tmp/dmgr\""));
}

#[test]
fn openrc_service_names_binary_and_root() {
    let root = UnixPath::new("/srv/dmgr");
    let content = render_init_script(InitSystem::Openrc, "/usr/local/bin/dmgr", &root);
    assert!(content.contains("command=\"/usr/local/bin/dmgr\""));
    assert!(content.contains(&format!("DMGR_ROOT={}", root.display())));
}

#[test]
fn systemd_unit_is_rendered_in_full() {
    let rendered = render_init_script(InitSystem::Systemd, "dmgr", &UnixPath::new("/r"));
    assert_eq!(
        rendered,
        "[Unit]\nDescription=dmgr autobuild\nAfter=network-online.target docker.service\nWants=network-online.target docker.service\n\n[Service]\nType=oneshot\nExecStart=dmgr --root /r build --autobuild\n\n[Install]\nWantedBy=multi-user.target\n"
    );
}

#[test]
fn openrc_service_is_rendered_in_full() {
    let rendered = render_init_script(InitSystem::Openrc, "dmgr", &UnixPath::new("/r"));
    assert_eq!(
        rendered,
        "#!/sbin/openrc-run\nname=\"dmgr-autobuild\"\ndescription=\"Build dmgr autobuild entries during boot\"\ncommand=\"dmgr\"\ncommand_args=\"build --autobuild\"\ncommand_env=\"DMGR_ROOT=/r\"\npidfile=\"/run/${RC_SVCNAME}.pid\"\n\ncommand_background=false\n\nstart_pre() {\n    checkpath --directory --mode 0755 /run\n}\n\ndepend() {\n    need docker\n    after net\n}\n"
    );
}
