use switchbot::{
    body_from_response, is_parallel, plan, signature, Action, AliasTable, CommandRequest, Device,
    DeviceList, LineOutcome, Session, Step, SwitchBotError, UserInput,
};

fn session(n: usize) -> Session {
    let mut list = DeviceList::new();
    for i in 1..=n {
        list.push(Device::new(
            format!("device{i}"),
            format!("Device {i}"),
            "test".to_string(),
            String::new(),
            String::new(),
        ));
    }
    Session::new(AliasTable::new(), list, 2)
}

#[test]
fn selection_then_commands() {
    let mut s = session(5);
    assert!(!s.has_current_device());
    assert_eq!(s.execute("2,4"), Ok(Action::SelectionChanged));
    assert_eq!(s.current_device_indexes(), &vec![1, 3]);
    assert_eq!(s.num_current_devices(), 2);
    assert_eq!(s.execute("devices"), Ok(Action::ListDevices));
    assert_eq!(
        s.execute("customize/turnOn:x"),
        Ok(Action::Send(CommandRequest::parse("customize/turnOn:x")))
    );
    assert_eq!(s.execute("status"), Ok(Action::Status(String::new())));
    assert_eq!(s.execute("status.power"), Ok(Action::Status("power".to_string())));
    assert_eq!(s.current_device_indexes(), &vec![1, 3]);
}

#[test]
fn without_selection_only_selectors_work() {
    let mut s = session(3);
    assert!(s.execute("turnOn").is_err());
    assert_eq!(s.execute("devices"), Ok(Action::ListDevices));
}

#[test]
fn whole_line_alias_is_expanded() {
    let mut s = session(3);
    s.aliases.insert("on".into(), "turnOn".into());
    s.aliases.insert("both".into(), "1,3".into());
    assert_eq!(s.execute("both"), Ok(Action::SelectionChanged));
    assert_eq!(s.execute("on"), Ok(Action::Send(CommandRequest::parse("turnOn"))));
}

#[test]
fn branch_names_its_device() {
    let mut s = session(5);
    s.execute("2").unwrap();
    assert_eq!(
        s.execute("if/power=on/turnOff/turnOn"),
        Ok(Action::Branch {
            device: 1,
            condition: "power=on".to_string(),
            then_command: "turnOff".to_string(),
            else_command: "turnOn".to_string(),
        })
    );
    assert_eq!(
        s.execute("if;4.power=on;turnOff"),
        Ok(Action::Branch {
            device: 3,
            condition: "power=on".to_string(),
            then_command: "turnOff".to_string(),
            else_command: String::new(),
        })
    );
}

#[test]
fn lines_of_the_interactive_loop() {
    let mut s = session(3);
    assert_eq!(s.handle_line(""), Ok(LineOutcome::Quit));
    assert_eq!(s.handle_line("1"), Ok(LineOutcome::Executed(Action::SelectionChanged)));
    assert_eq!(s.handle_line(""), Ok(LineOutcome::SelectionCleared));
    assert!(!s.has_current_device());
    assert_eq!(s.handle_line("q"), Ok(LineOutcome::Quit));
}

#[test]
fn dispatch_aggregation() {
    // Five devices, threshold two, the device at position 2 fails.
    assert!(is_parallel(5, 2));
    assert!(!is_parallel(1, 2));
    let p = plan(&vec![true, true, false, true, true]);
    assert_eq!(p.steps, vec![Step::Post(0), Step::Post(1), Step::Post(3), Step::Post(4)]);
    assert_eq!(p.error, Some(2));
}

#[test]
fn dispatch_logs_all_but_the_last_failure() {
    let p = plan(&vec![false, true, false, false]);
    assert_eq!(p.steps, vec![Step::Log(0), Step::Post(1), Step::Log(2)]);
    assert_eq!(p.error, Some(3));
    let p = plan(&vec![true, true]);
    assert_eq!(p.steps, vec![Step::Post(0), Step::Post(1)]);
    assert_eq!(p.error, None);
    assert_eq!(plan(&vec![]).steps, vec![]);
}

#[test]
fn response_status() {
    assert_eq!(body_from_response(100, "OK".to_string(), Some(1)), Ok(Some(1)));
    assert_eq!(body_from_response::<u8>(100, "OK".to_string(), None), Ok(None));
    let e = body_from_response(500, "error".to_string(), Some(1)).unwrap_err();
    assert_eq!(e.status_code, 500);
    assert_eq!(e, SwitchBotError { status_code: 500, message: "error".to_string() });
    assert_eq!(e.text(), "SwitchBot API error: error (500)");
}

#[test]
fn request_signature() {
    assert_eq!(
        signature("The quick brown fox ", "key", "jumps over ", "the lazy dog"),
        "97yD9DBThCSxMpjmqm+xQ+9NWaFJRhdZl0edvC0aPNg="
    );
    assert_eq!(
        signature("token", "secret", "1700000000000", "nonce-1"),
        "5Z4rSU2ZX0xJU6pn+C+vXd3lDzQkXX8iwCP4OLgST4I="
    );
}

#[test]
fn user_input_prompt() {
    let mut input = UserInput::new();
    assert_eq!(input.prompt(), "");
    input.set_prompt("Device> ");
    assert_eq!(input.prompt(), "Device> ");
    assert_eq!(UserInput::new_with_prompt("Token> ").prompt(), "Token> ");
}
