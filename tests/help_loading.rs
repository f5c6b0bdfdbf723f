use switchbot::{command_delay, Device, HelpLoader};

const DOC: &str = "# SwitchBot API
## Devices
##### Hub Mini
| Key | Value Type | Description |
| deviceType | String | device type. *Hub Mini*, *Hub 2* |
##### Bot
| deviceType | String | device type. *Bot* |
### Send device control commands
##### Bot
| deviceType | commandType | Command | command parameter | Description |
| --- | --- | --- | --- | --- |
| Bot | command | turnOn | default | set to ON state |
| | command | press | default | trigger press |

#### Command set for virtual infrared remote devices
| deviceType | commandType | Command | command parameter | Description |
| --- | --- | --- | --- | --- |
| TV, IPTV | command | SetChannel | `{channel number}` | next channel<br>maybe |
| Others | `customize` | `{user-defined}` | default | custom button |

## Scenes
| deviceType | x | y | z | w |
";

fn load() -> switchbot::Help {
    let mut loader = HelpLoader::new();
    let lines: Vec<String> = DOC.lines().map(|l| l.to_string()).collect();
    loader.read_lines(&lines);
    let mut help = loader.into_help();
    help.finalize();
    help
}

fn device(device_type: &str, remote_type: &str) -> Device {
    Device::new("id".into(), "name".into(), device_type.into(), remote_type.into(), String::new())
}

#[test]
fn reads_device_commands() {
    let help = load();
    let bot = help.command_helps(&device("Bot", "")).unwrap();
    assert_eq!(bot.len(), 2);
    assert_eq!(bot[0].command().command, "turnOn");
    assert_eq!(bot[1].command().command, "press");
    assert_eq!(bot[1].description().markdown(), "trigger press");
    assert!(help.command_helps(&device("Plug", "")).is_none());
}

#[test]
fn reads_remote_commands_and_spreads_others() {
    let help = load();
    let tv = help.command_helps(&device("", "TV")).unwrap();
    assert_eq!(tv.len(), 2);
    assert_eq!(tv[0].command().command, "SetChannel");
    assert_eq!(tv[0].description().plain_text(), "next channel\nmaybe");
    assert_eq!(tv[1].command().command_type, "customize");
    let diy = help.command_helps(&device("", "DIY IPTV")).unwrap();
    assert_eq!(diy.len(), 2);
    assert!(help.command_helps_by_remote_type("Others").is_none());
}

#[test]
fn device_type_aliases() {
    let help = load();
    // No commands are documented for the hub, so its alias leads nowhere.
    assert!(help.command_helps_by_device_type("Hub Mini").is_none());
    assert_eq!(help.command_helps_by_device_type("Bot").unwrap().len(), 2);
}

#[test]
fn remote_command_delay() {
    assert_eq!(command_delay(false, Some(1000), 1100, 500), 0);
    assert_eq!(command_delay(true, None, 1100, 500), 0);
    assert_eq!(command_delay(true, Some(1000), 1100, 500), 400);
    assert_eq!(command_delay(true, Some(1000), 1600, 500), 0);
}
