//! Which package-manager commands the system API may run or suggest.
//!
//! Only four optional dependencies can be installed, updated or removed,
//! through one of five package managers.  A command runs without a prompt:
//! through `sudo -n` where it needs privileges, with the manager's own
//! non-interactive flag.  Anything else is refused before a process starts.

use vstd::prelude::*;
use crate::text::str_equal;

verus! {

/// The packages the system API manages.
pub open spec fn allowlisted(p: Seq<char>) -> bool {
    p == "ffmpeg"@ || p == "shairport-sync"@ || p == "mpd"@ || p == "librespot"@
}

/// The package-manager name of dependency `package`; `None` for any other
/// dependency.  Every supported manager names them alike.
pub fn package_name(manager: &str, package: &str) -> (r: Option<&'static str>)
    ensures
        r is Some <==> allowlisted(package@),
        r matches Some(s) ==> s@ == package@,
{
    if str_equal(package, "ffmpeg") {
        Some("ffmpeg")
    } else if str_equal(package, "shairport-sync") {
        Some("shairport-sync")
    } else if str_equal(package, "mpd") {
        Some("mpd")
    } else if str_equal(package, "librespot") {
        Some("librespot")
    } else {
        None
    }
}

/// The program and the arguments before the package name that perform
/// `action` with `manager`.
pub open spec fn command_table(manager: Seq<char>, action: Seq<char>) -> Option<(Seq<char>, Seq<Seq<char>>)> {
    if manager == "brew"@ && action == "install"@ {
        Some(("brew"@, seq!["install"@]))
    } else if manager == "brew"@ && action == "update"@ {
        Some(("brew"@, seq!["upgrade"@]))
    } else if manager == "brew"@ && action == "remove"@ {
        Some(("brew"@, seq!["uninstall"@]))
    } else if manager == "apt"@ && action == "install"@ {
        Some(("sudo"@, seq!["-n"@, "apt-get"@, "install"@, "-y"@]))
    } else if manager == "apt"@ && action == "update"@ {
        Some(("sudo"@, seq!["-n"@, "apt-get"@, "install"@, "--only-upgrade"@, "-y"@]))
    } else if manager == "apt"@ && action == "remove"@ {
        Some(("sudo"@, seq!["-n"@, "apt-get"@, "remove"@, "-y"@]))
    } else if manager == "dnf"@ && action == "install"@ {
        Some(("sudo"@, seq!["-n"@, "dnf"@, "install"@, "-y"@]))
    } else if manager == "dnf"@ && action == "update"@ {
        Some(("sudo"@, seq!["-n"@, "dnf"@, "upgrade"@, "-y"@]))
    } else if manager == "dnf"@ && action == "remove"@ {
        Some(("sudo"@, seq!["-n"@, "dnf"@, "remove"@, "-y"@]))
    } else if manager == "pacman"@ && action == "install"@ {
        Some(("sudo"@, seq!["-n"@, "pacman"@, "-S"@, "--noconfirm"@]))
    } else if manager == "pacman"@ && action == "update"@ {
        Some(("sudo"@, seq!["-n"@, "pacman"@, "-Syu"@, "--noconfirm"@]))
    } else if manager == "pacman"@ && action == "remove"@ {
        Some(("sudo"@, seq!["-n"@, "pacman"@, "-R"@, "--noconfirm"@]))
    } else if manager == "zypper"@ && action == "install"@ {
        Some(("sudo"@, seq!["-n"@, "zypper"@, "--non-interactive"@, "install"@]))
    } else if manager == "zypper"@ && action == "update"@ {
        Some(("sudo"@, seq!["-n"@, "zypper"@, "--non-interactive"@, "update"@]))
    } else if manager == "zypper"@ && action == "remove"@ {
        Some(("sudo"@, seq!["-n"@, "zypper"@, "--non-interactive"@, "remove"@]))
    } else {
        None
    }
}

/// The shell hint shown for `action` with `manager`, before the package name.
pub open spec fn hint_table(manager: Seq<char>, action: Seq<char>) -> Option<Seq<char>> {
    if manager == "brew"@ && action == "install"@ {
        Some("brew install "@)
    } else if manager == "brew"@ && action == "update"@ {
        Some("brew upgrade "@)
    } else if manager == "brew"@ && action == "remove"@ {
        Some("brew uninstall "@)
    } else if manager == "apt"@ && action == "install"@ {
        Some("sudo apt install "@)
    } else if manager == "apt"@ && action == "update"@ {
        Some("sudo apt install --only-upgrade "@)
    } else if manager == "apt"@ && action == "remove"@ {
        Some("sudo apt remove "@)
    } else if manager == "dnf"@ && action == "install"@ {
        Some("sudo dnf install "@)
    } else if manager == "dnf"@ && action == "update"@ {
        Some("sudo dnf update "@)
    } else if manager == "dnf"@ && action == "remove"@ {
        Some("sudo dnf remove "@)
    } else if manager == "pacman"@ && action == "install"@ {
        Some("sudo pacman -S "@)
    } else if manager == "pacman"@ && action == "update"@ {
        Some("sudo pacman -Syu "@)
    } else if manager == "pacman"@ && action == "remove"@ {
        Some("sudo pacman -R "@)
    } else if manager == "zypper"@ && action == "install"@ {
        Some("sudo zypper install "@)
    } else if manager == "zypper"@ && action == "update"@ {
        Some("sudo zypper update "@)
    } else if manager == "zypper"@ && action == "remove"@ {
        Some("sudo zypper remove "@)
    } else {
        None
    }
}

/// A process to start: the program and its arguments.
#[derive(Debug, Clone)]
pub struct CommandSpec {
    pub program: String,
    pub args: Vec<String>,
}

pub open spec fn strings_view(v: Seq<String>) -> Seq<Seq<char>> {
    v.map_values(|s: String| s@)
}

fn strings(items: &[&str]) -> (v: Vec<String>)
    ensures
        strings_view(v@) == items@.map_values(|s: &str| s@),
{
    let mut v: Vec<String> = Vec::new();
    let mut i: usize = 0;
    while i < items.len()
        invariant
            0 <= i <= items@.len(),
            strings_view(v@) == items@.subrange(0, i as int).map_values(|s: &str| s@),
        decreases items@.len() - i,
    {
        let ghost old_v = v@;
        let item = String::from_str(items[i]);
        v.push(item);
        proof {
            assert(strings_view(v@) =~= strings_view(old_v).push(items@[i as int]@));
            assert(items@.subrange(0, i as int + 1).map_values(|s: &str| s@) =~= items@.subrange(
                0,
                i as int,
            ).map_values(|s: &str| s@).push(items@[i as int]@));
        }
        i = i + 1;
    }
    proof {
        assert(items@.subrange(0, items@.len() as int) =~= items@);
    }
    v
}

/// The command that performs `action` (`install`, `update` or `remove`) on
/// dependency `package` with `manager`; `None` for any other dependency,
/// action or manager.
pub fn package_command(manager: &str, action: &str, package: &str) -> (r: Option<CommandSpec>)
    ensures
        r is Some <==> allowlisted(package@) && command_table(manager@, action@) is Some,
        r matches Some(c) ==> ({
            let (program, prefix) = command_table(manager@, action@).unwrap();
            c.program@ == program && strings_view(c.args@) == prefix.push(package@)
        }),
{
    let pkg = match package_name(manager, package) {
        Some(p) => p,
        None => return None,
    };
    let brew = str_equal(manager, "brew");
    let apt = str_equal(manager, "apt");
    let dnf = str_equal(manager, "dnf");
    let pacman = str_equal(manager, "pacman");
    let zypper = str_equal(manager, "zypper");
    let install = str_equal(action, "install");
    let update = str_equal(action, "update");
    let remove = str_equal(action, "remove");
    let (program, prefix): (&str, Vec<String>) = if brew && install {
        ("brew", strings(&["install"]))
    } else if brew && update {
        ("brew", strings(&["upgrade"]))
    } else if brew && remove {
        ("brew", strings(&["uninstall"]))
    } else if apt && install {
        ("sudo", strings(&["-n", "apt-get", "install", "-y"]))
    } else if apt && update {
        ("sudo", strings(&["-n", "apt-get", "install", "--only-upgrade", "-y"]))
    } else if apt && remove {
        ("sudo", strings(&["-n", "apt-get", "remove", "-y"]))
    } else if dnf && install {
        ("sudo", strings(&["-n", "dnf", "install", "-y"]))
    } else if dnf && update {
        ("sudo", strings(&["-n", "dnf", "upgrade", "-y"]))
    } else if dnf && remove {
        ("sudo", strings(&["-n", "dnf", "remove", "-y"]))
    } else if pacman && install {
        ("sudo", strings(&["-n", "pacman", "-S", "--noconfirm"]))
    } else if pacman && update {
        ("sudo", strings(&["-n", "pacman", "-Syu", "--noconfirm"]))
    } else if pacman && remove {
        ("sudo", strings(&["-n", "pacman", "-R", "--noconfirm"]))
    } else if zypper && install {
        ("sudo", strings(&["-n", "zypper", "--non-interactive", "install"]))
    } else if zypper && update {
        ("sudo", strings(&["-n", "zypper", "--non-interactive", "update"]))
    } else if zypper && remove {
        ("sudo", strings(&["-n", "zypper", "--non-interactive", "remove"]))
    } else {
        return None;
    };
    let mut args = prefix;
    let ghost before = strings_view(args@);
    args.push(String::from_str(pkg));
    proof {
        assert(strings_view(args@) =~= before.push(package@));
    }
    Some(CommandSpec { program: String::from_str(program), args })
}

/// The command the web UI suggests for `action` on dependency `package`
/// with the detected `manager`; `None` when no manager was detected or the
/// manager or action is not supported.
pub fn package_hint(manager: Option<&str>, action: &str, package: &str) -> (r: Option<String>)
    ensures
        r is Some <==> (manager matches Some(m) && hint_table(m@, action@) is Some),
        r matches Some(h) ==> h@ == hint_table(manager.unwrap()@, action@).unwrap() + package@,
{
    let m = match manager {
        Some(m) => m,
        None => return None,
    };
    let brew = str_equal(m, "brew");
    let apt = str_equal(m, "apt");
    let dnf = str_equal(m, "dnf");
    let pacman = str_equal(m, "pacman");
    let zypper = str_equal(m, "zypper");
    let install = str_equal(action, "install");
    let update = str_equal(action, "update");
    let remove = str_equal(action, "remove");
    let prefix: &str = if brew && install {
        "brew install "
    } else if brew && update {
        "brew upgrade "
    } else if brew && remove {
        "brew uninstall "
    } else if apt && install {
        "sudo apt install "
    } else if apt && update {
        "sudo apt install --only-upgrade "
    } else if apt && remove {
        "sudo apt remove "
    } else if dnf && install {
        "sudo dnf install "
    } else if dnf && update {
        "sudo dnf update "
    } else if dnf && remove {
        "sudo dnf remove "
    } else if pacman && install {
        "sudo pacman -S "
    } else if pacman && update {
        "sudo pacman -Syu "
    } else if pacman && remove {
        "sudo pacman -R "
    } else if zypper && install {
        "sudo zypper install "
    } else if zypper && update {
        "sudo zypper update "
    } else if zypper && remove {
        "sudo zypper remove "
    } else {
        return None;
    };
    let mut hint = String::from_str(prefix);
    hint.append(package);
    Some(hint)
}

/// The command line shown for `spec`: the program and its arguments joined
/// by single spaces.
pub open spec fn label_spec(program: Seq<char>, args: Seq<Seq<char>>) -> Seq<char>
    decreases args.len(),
{
    if args.len() == 0 {
        program
    } else {
        label_spec(program, args.drop_last()) + " "@ + args.last()
    }
}

pub fn command_label(spec: &CommandSpec) -> (s: String)
    ensures
        s@ == label_spec(spec.program@, strings_view(spec.args@)),
{
    let mut s = String::from_str(spec.program.as_str());
    let mut i: usize = 0;
    while i < spec.args.len()
        invariant
            0 <= i <= spec.args@.len(),
            s@ == label_spec(spec.program@, strings_view(spec.args@).subrange(0, i as int)),
        decreases spec.args@.len() - i,
    {
        proof {
            reveal_strlit(" ");
        }
        s.append(" ");
        s.append(spec.args[i].as_str());
        proof {
            let a = strings_view(spec.args@);
            assert(a.subrange(0, i as int + 1).drop_last() =~= a.subrange(0, i as int));
        }
        i = i + 1;
    }
    proof {
        let a = strings_view(spec.args@);
        assert(a.subrange(0, a.len() as int) =~= a);
    }
    s
}

/// Every command is either Homebrew, which needs no privileges, or runs
/// through `sudo -n`, which fails rather than prompt for a password.
pub proof fn lemma_commands_never_prompt(manager: Seq<char>, action: Seq<char>)
    ensures
        command_table(manager, action) matches Some((program, prefix)) ==> program == "brew"@ || (
        program == "sudo"@ && prefix.len() > 0 && prefix[0] == "-n"@),
{
}

} // verus!
