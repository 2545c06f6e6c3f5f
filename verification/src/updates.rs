//! Decisions behind the system-update actions: which AUR helper to use,
//! which command each updater runs, and what each attempt reports. The
//! commands themselves run outside; these functions take what was found
//! or what happened as plain values.

use vstd::prelude::*;
use vstd::string::*;
use crate::text::str_eq;
use crate::walker::contains_string;

verus! {

/// What one update attempt came to.
#[derive(Debug, PartialEq, Eq)]
pub enum UpdateResult {
    Success(String),
    Error(String),
    NotInstalled,
}

pub ghost enum UpdateResultModel {
    Success(Seq<char>),
    Error(Seq<char>),
    NotInstalled,
}

impl View for UpdateResult {
    type V = UpdateResultModel;

    open spec fn view(&self) -> UpdateResultModel {
        match self {
            UpdateResult::Success(m) => UpdateResultModel::Success(m@),
            UpdateResult::Error(m) => UpdateResultModel::Error(m@),
            UpdateResult::NotInstalled => UpdateResultModel::NotInstalled,
        }
    }
}

/// The AUR helpers recognized, in preference order.
pub open spec fn aur_helper_names() -> Seq<Seq<char>> {
    seq![
        seq!['y', 'a', 'y'],
        seq!['p', 'a', 'r', 'u'],
        seq!['t', 'r', 'i', 'z', 'e', 'n'],
        seq!['p', 'a', 'm', 'a', 'c'],
    ]
}

/// The first recognized AUR helper among the commands found on the
/// system, in preference order; `None` when none of them is there.
pub fn detect_aur_helper(available: &Vec<String>) -> (r: Option<String>)
    ensures
        match r {
            Some(h) => exists|i: int|
                0 <= i < aur_helper_names().len() && aur_helper_names()[i] == h@
                    && available.deep_view().contains(h@) && forall|j: int|
                    0 <= j < i ==> !available.deep_view().contains(#[trigger] aur_helper_names()[j]),
            None => forall|i: int|
                0 <= i < aur_helper_names().len() ==> !available.deep_view().contains(
                    #[trigger] aur_helper_names()[i],
                ),
        },
{
    proof {
        reveal_strlit("yay");
        reveal_strlit("paru");
        reveal_strlit("trizen");
        reveal_strlit("pamac");
        assert("yay"@ =~= aur_helper_names()[0]);
        assert("paru"@ =~= aur_helper_names()[1]);
        assert("trizen"@ =~= aur_helper_names()[2]);
        assert("pamac"@ =~= aur_helper_names()[3]);
    }
    if contains_string(available, "yay") {
        return Some(String::from_str("yay"));
    }
    if contains_string(available, "paru") {
        return Some(String::from_str("paru"));
    }
    if contains_string(available, "trizen") {
        return Some(String::from_str("trizen"));
    }
    if contains_string(available, "pamac") {
        return Some(String::from_str("pamac"));
    }
    None
}

/// The update command an AUR helper needs: `pamac` runs under `sudo`,
/// the others run as the user.
pub fn aur_update_command(helper: &str) -> (r: String)
    ensures
        helper@ == "pamac"@ ==> r@ == "sudo "@ + helper@ + " -Syu"@,
        helper@ != "pamac"@ ==> r@ == helper@ + " -Syu"@,
{
    if str_eq(helper, "pamac") {
        let mut c = String::from_str("sudo ");
        c.append(helper);
        c.append(" -Syu");
        c
    } else {
        let mut c = String::from_str(helper);
        c.append(" -Syu");
        c
    }
}

/// The command the pacman updater launches.
pub fn pacman_update_command() -> (r: String)
    ensures
        r@ == "sudo pacman -Syu"@,
{
    String::from_str("sudo pacman -Syu")
}

/// The command the flatpak updater launches.
pub fn flatpak_update_command() -> (r: String)
    ensures
        r@ == "flatpak update -y"@,
{
    String::from_str("flatpak update -y")
}

/// The command the snap updater launches.
pub fn snap_update_command() -> (r: String)
    ensures
        r@ == "sudo snap refresh"@,
{
    String::from_str("sudo snap refresh")
}

/// What launching a terminal came to: `Err` carries the launcher's own
/// words.
fn launch_report(launch: &Result<(), String>, started: &str) -> (r: UpdateResult)
    ensures
        launch is Ok ==> r@ == UpdateResultModel::Success(started@),
        launch is Err ==> r@ == UpdateResultModel::Error(
            "Failed to launch terminal: "@ + launch->Err_0@,
        ),
{
    match launch {
        Result::Ok(_) => UpdateResult::Success(String::from_str(started)),
        Result::Err(e) => {
            let mut m = String::from_str("Failed to launch terminal: ");
            m.append(e.as_str());
            UpdateResult::Error(m)
        },
    }
}

/// The pacman updater's report: not installed when pacman is absent,
/// else success or the launch failure of the terminal that was to run
/// the update.
pub fn update_pacman(installed: bool, launch: &Result<(), String>) -> (r: UpdateResult)
    ensures
        !installed ==> r@ == UpdateResultModel::NotInstalled,
        installed && launch is Ok ==> r@ == UpdateResultModel::Success(
            "Started pacman update in external terminal"@,
        ),
        installed && launch is Err ==> r@ == UpdateResultModel::Error(
            "Failed to launch terminal: "@ + launch->Err_0@,
        ),
{
    if !installed {
        return UpdateResult::NotInstalled;
    }
    launch_report(launch, "Started pacman update in external terminal")
}

/// The AUR updater's report, naming the helper that ran.
pub fn update_aur(helper: &str, installed: bool, launch: &Result<(), String>) -> (r: UpdateResult)
    ensures
        !installed ==> r@ == UpdateResultModel::NotInstalled,
        installed && launch is Ok ==> r@ == UpdateResultModel::Success(
            "Started "@ + helper@ + " update in external terminal"@,
        ),
        installed && launch is Err ==> r@ == UpdateResultModel::Error(
            "Failed to launch terminal: "@ + launch->Err_0@,
        ),
{
    if !installed {
        return UpdateResult::NotInstalled;
    }
    let mut started = String::from_str("Started ");
    started.append(helper);
    started.append(" update in external terminal");
    launch_report(launch, started.as_str())
}

/// The flatpak updater's report.
pub fn update_flatpak(installed: bool, launch: &Result<(), String>) -> (r: UpdateResult)
    ensures
        !installed ==> r@ == UpdateResultModel::NotInstalled,
        installed && launch is Ok ==> r@ == UpdateResultModel::Success(
            "Started flatpak update in external terminal"@,
        ),
        installed && launch is Err ==> r@ == UpdateResultModel::Error(
            "Failed to launch terminal: "@ + launch->Err_0@,
        ),
{
    if !installed {
        return UpdateResult::NotInstalled;
    }
    launch_report(launch, "Started flatpak update in external terminal")
}

/// The snap updater's report.
pub fn update_snap(installed: bool, launch: &Result<(), String>) -> (r: UpdateResult)
    ensures
        !installed ==> r@ == UpdateResultModel::NotInstalled,
        installed && launch is Ok ==> r@ == UpdateResultModel::Success(
            "Started snap update in external terminal"@,
        ),
        installed && launch is Err ==> r@ == UpdateResultModel::Error(
            "Failed to launch terminal: "@ + launch->Err_0@,
        ),
{
    if !installed {
        return UpdateResult::NotInstalled;
    }
    launch_report(launch, "Started snap update in external terminal")
}

} // verus!
