//! Service files that build entries at boot.

use vstd::prelude::*;
use vstd::string::*;

use crate::cli::InitSystem;
use crate::path::{shown, UnixPath};

verus! {

/// A `systemd` unit that builds the autobuild entries under `root`.
pub open spec fn systemd_unit(dmgr_bin: Seq<char>, root: Seq<u8>) -> Seq<char> {
    "[Unit]\nDescription=dmgr autobuild\nAfter=network-online.target docker.service\nWants=network-online.target docker.service\n\n[Service]\nType=oneshot\nExecStart="@
        + dmgr_bin + " --root "@ + shown(root)
        + " build --autobuild\n\n[Install]\nWantedBy=multi-user.target\n"@
}

/// An `openrc` service that builds the autobuild entries under `root`.
pub open spec fn openrc_service(dmgr_bin: Seq<char>, root: Seq<u8>) -> Seq<char> {
    "#!/sbin/openrc-run\nname=\"dmgr-autobuild\"\ndescription=\"Build dmgr autobuild entries during boot\"\ncommand=\""@
        + dmgr_bin + "\"\ncommand_args=\"build --autobuild\"\ncommand_env=\"DMGR_ROOT="@ + shown(
        root,
    )
        + "\"\npidfile=\"/run/${RC_SVCNAME}.pid\"\n\ncommand_background=false\n\nstart_pre() {\n    checkpath --directory --mode 0755 /run\n}\n\ndepend() {\n    need docker\n    after net\n}\n"@
}

/// The service file for an init system.
pub open spec fn init_script(system: InitSystem, dmgr_bin: Seq<char>, root: Seq<u8>) -> Seq<char> {
    match system {
        InitSystem::Systemd => systemd_unit(dmgr_bin, root),
        InitSystem::Openrc => openrc_service(dmgr_bin, root),
    }
}

/// Renders the service file for an init system.
pub fn render_init_script(system: InitSystem, dmgr_bin: &str, root: &UnixPath) -> (text: String)
    ensures
        text@ == init_script(system, dmgr_bin@, root@),
{
    match system {
        InitSystem::Systemd => render_systemd(dmgr_bin, root),
        InitSystem::Openrc => render_openrc(dmgr_bin, root),
    }
}

fn render_systemd(dmgr_bin: &str, root: &UnixPath) -> (text: String)
    ensures
        text@ == systemd_unit(dmgr_bin@, root@),
{
    let shown_root: String = root.display();
    let mut text: String =
        "[Unit]\nDescription=dmgr autobuild\nAfter=network-online.target docker.service\nWants=network-online.target docker.service\n\n[Service]\nType=oneshot\nExecStart=".to_owned();
    text.append(dmgr_bin);
    text.append(" --root ");
    text.append(shown_root.as_str());
    text.append(" build --autobuild\n\n[Install]\nWantedBy=multi-user.target\n");
    text
}

fn render_openrc(dmgr_bin: &str, root: &UnixPath) -> (text: String)
    ensures
        text@ == openrc_service(dmgr_bin@, root@),
{
    let shown_root: String = root.display();
    let mut text: String =
        "#!/sbin/openrc-run\nname=\"dmgr-autobuild\"\ndescription=\"Build dmgr autobuild entries during boot\"\ncommand=\"".to_owned();
    text.append(dmgr_bin);
    text.append("\"\ncommand_args=\"build --autobuild\"\ncommand_env=\"DMGR_ROOT=");
    text.append(shown_root.as_str());
    text.append(
        "\"\npidfile=\"/run/${RC_SVCNAME}.pid\"\n\ncommand_background=false\n\nstart_pre() {\n    checkpath --directory --mode 0755 /run\n}\n\ndepend() {\n    need docker\n    after net\n}\n",
    );
    text
}

} // verus!
