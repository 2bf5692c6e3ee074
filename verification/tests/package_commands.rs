use sonium::control::packages::{command_label, package_command, package_hint, package_name};

#[test]
fn only_managed_dependencies_have_package_names() {
    assert_eq!(package_name("apt", "ffmpeg"), Some("ffmpeg"));
    assert_eq!(package_name("brew", "mpd"), Some("mpd"));
    assert_eq!(package_name("dnf", "shairport-sync"), Some("shairport-sync"));
    assert_eq!(package_name("zypper", "librespot"), Some("librespot"));
    assert_eq!(package_name("apt", "bash"), None);
    assert_eq!(package_name("apt", "ffmpeg; rm -rf /"), None);
}

#[test]
fn apt_install_runs_without_a_prompt() {
    let spec = package_command("apt", "install", "ffmpeg").unwrap();
    assert_eq!(spec.program, "sudo");
    assert_eq!(spec.args, vec!["-n", "apt-get", "install", "-y", "ffmpeg"]);
    assert_eq!(command_label(&spec), "sudo -n apt-get install -y ffmpeg");
}

#[test]
fn every_manager_and_action_has_its_command() {
    let cases = [
        ("brew", "install", "brew install mpd"),
        ("brew", "update", "brew upgrade mpd"),
        ("brew", "remove", "brew uninstall mpd"),
        ("apt", "update", "sudo -n apt-get install --only-upgrade -y mpd"),
        ("apt", "remove", "sudo -n apt-get remove -y mpd"),
        ("dnf", "install", "sudo -n dnf install -y mpd"),
        ("dnf", "update", "sudo -n dnf upgrade -y mpd"),
        ("dnf", "remove", "sudo -n dnf remove -y mpd"),
        ("pacman", "install", "sudo -n pacman -S --noconfirm mpd"),
        ("pacman", "update", "sudo -n pacman -Syu --noconfirm mpd"),
        ("pacman", "remove", "sudo -n pacman -R --noconfirm mpd"),
        ("zypper", "install", "sudo -n zypper --non-interactive install mpd"),
        ("zypper", "update", "sudo -n zypper --non-interactive update mpd"),
        ("zypper", "remove", "sudo -n zypper --non-interactive remove mpd"),
    ];
    for (manager, action, label) in cases {
        let spec = package_command(manager, action, "mpd").unwrap();
        assert_eq!(command_label(&spec), label);
    }
}

#[test]
fn unknown_package_action_or_manager_is_refused() {
    assert!(package_command("apt", "install", "netcat").is_none());
    assert!(package_command("apt", "purge", "ffmpeg").is_none());
    assert!(package_command("apk", "install", "ffmpeg").is_none());
    assert!(package_command("", "", "").is_none());
}

#[test]
fn hints_name_the_package_for_the_detected_manager() {
    assert_eq!(package_hint(Some("brew"), "install", "mpd").unwrap(), "brew install mpd");
    assert_eq!(
        package_hint(Some("apt"), "update", "shairport-sync").unwrap(),
        "sudo apt install --only-upgrade shairport-sync"
    );
    assert_eq!(package_hint(Some("pacman"), "remove", "librespot").unwrap(), "sudo pacman -R librespot");
    assert_eq!(package_hint(Some("zypper"), "install", "ffmpeg").unwrap(), "sudo zypper install ffmpeg");
    assert_eq!(package_hint(Some("dnf"), "update", "ffmpeg").unwrap(), "sudo dnf update ffmpeg");
    assert!(package_hint(None, "install", "ffmpeg").is_none());
    assert!(package_hint(Some("apk"), "install", "ffmpeg").is_none());
    assert!(package_hint(Some("apt"), "purge", "ffmpeg").is_none());
}
