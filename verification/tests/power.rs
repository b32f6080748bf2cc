use helto_launcher::config::PowerCommands;
use helto_launcher::error::LauncherError;
use helto_launcher::interaction::{confirmation_message, power_press, PowerStep};
use helto_launcher::power::{command_for_action, power_command, PowerAction};

#[test]
fn selects_power_command() {
    let commands = PowerCommands::default();
    let restart = command_for_action(PowerAction::Restart, &commands).unwrap();

    assert_eq!(restart.as_vec(), ["systemctl", "reboot"]);
}

#[test]
fn power_actions_need_confirmation() {
    assert!(PowerAction::Logout.needs_confirmation());
    assert!(PowerAction::Restart.needs_confirmation());
    assert!(PowerAction::Poweroff.needs_confirmation());
}

#[test]
fn empty_power_command_is_an_error() {
    let mut commands = PowerCommands::default();
    commands.logout = Vec::new();

    assert!(command_for_action(PowerAction::Logout, &commands).is_none());
    let err = power_command(PowerAction::Logout, &commands).unwrap_err();
    assert_eq!(
        err,
        LauncherError::ExecLine {
            exec_line: "logout".to_string(),
            reason: "power command is empty".to_string(),
        }
    );
}

#[test]
fn second_press_confirms() {
    let (pending, step) = power_press(None, PowerAction::Poweroff);
    assert_eq!(step, PowerStep::AskConfirmation);
    assert_eq!(pending, Some(PowerAction::Poweroff));

    let (pending, step) = power_press(pending, PowerAction::Restart);
    assert_eq!(step, PowerStep::AskConfirmation);
    assert_eq!(pending, Some(PowerAction::Restart));

    let (_, step) = power_press(pending, PowerAction::Restart);
    assert_eq!(step, PowerStep::Run);
}

#[test]
fn confirmation_message_names_action() {
    assert_eq!(
        confirmation_message(PowerAction::Poweroff),
        "Press poweroff again to confirm."
    );
    assert_eq!(PowerAction::Logout.command_name(), "logout");
}
