use hyprconf::updates::{
    aur_update_command, detect_aur_helper, flatpak_update_command, pacman_update_command,
    snap_update_command, update_aur, update_flatpak, update_pacman, update_snap, UpdateResult,
};

fn commands(names: &[&str]) -> Vec<String> {
    names.iter().map(|n| String::from(*n)).collect()
}

#[test]
fn first_available_helper_wins() {
    let available = commands(&["zsh", "pamac", "paru"]);
    assert_eq!(detect_aur_helper(&available), Some(String::from("paru")));
}

#[test]
fn no_helper_found() {
    let available = commands(&["zsh", "git"]);
    assert_eq!(detect_aur_helper(&available), None);
}

#[test]
fn helper_preference_order() {
    let available = commands(&["pamac", "trizen", "yay"]);
    assert_eq!(detect_aur_helper(&available), Some(String::from("yay")));
}

#[test]
fn update_commands() {
    assert_eq!(pacman_update_command(), "sudo pacman -Syu");
    assert_eq!(flatpak_update_command(), "flatpak update -y");
    assert_eq!(snap_update_command(), "sudo snap refresh");
    assert_eq!(aur_update_command("pamac"), "sudo pamac -Syu");
    assert_eq!(aur_update_command("yay"), "yay -Syu");
}

#[test]
fn pacman_reports() {
    assert_eq!(update_pacman(false, &Ok(())), UpdateResult::NotInstalled);
    assert_eq!(
        update_pacman(true, &Ok(())),
        UpdateResult::Success(String::from("Started pacman update in external terminal"))
    );
    assert_eq!(
        update_pacman(true, &Err(String::from("no terminal"))),
        UpdateResult::Error(String::from("Failed to launch terminal: no terminal"))
    );
}

#[test]
fn aur_report_names_the_helper() {
    assert_eq!(update_aur("yay", false, &Ok(())), UpdateResult::NotInstalled);
    assert_eq!(
        update_aur("yay", true, &Ok(())),
        UpdateResult::Success(String::from("Started yay update in external terminal"))
    );
}

#[test]
fn flatpak_and_snap_reports() {
    assert_eq!(
        update_flatpak(true, &Ok(())),
        UpdateResult::Success(String::from("Started flatpak update in external terminal"))
    );
    assert_eq!(update_flatpak(false, &Ok(())), UpdateResult::NotInstalled);
    assert_eq!(
        update_snap(true, &Err(String::from("boom"))),
        UpdateResult::Error(String::from("Failed to launch terminal: boom"))
    );
    assert_eq!(update_snap(false, &Ok(())), UpdateResult::NotInstalled);
}
