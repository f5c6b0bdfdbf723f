use switchbot::CommandRequest;

fn request(command_type: &str, command: &str, parameter: &str) -> CommandRequest {
    CommandRequest {
        command: command.to_string(),
        parameter: parameter.to_string(),
        command_type: command_type.to_string(),
    }
}

#[test]
fn parse_command_forms() {
    assert_eq!(CommandRequest::parse("turnOn"), request("", "turnOn", ""));
    assert_eq!(
        CommandRequest::parse("turnOn:parameter:colon/slash"),
        request("", "turnOn", "parameter:colon/slash")
    );
    assert_eq!(CommandRequest::parse("customize/turnOn"), request("customize", "turnOn", ""));
    assert_eq!(
        CommandRequest::parse("customize/turnOn:parameter:colon/slash"),
        request("customize", "turnOn", "parameter:colon/slash")
    );
}

#[test]
fn format_omits_defaults() {
    assert_eq!(request("", "turnOn", "").format(), "turnOn");
    assert_eq!(request("command", "turnOn", "default").format(), "turnOn");
    assert_eq!(request("customize", "turnOn", "").format(), "customize/turnOn");
    assert_eq!(request("", "setColor", "1:2:3").format(), "setColor:1:2:3");
    assert_eq!(request("t", "c", "p").format(), "t/c:p");
}

#[test]
fn format_then_parse_round_trip() {
    for c in [
        request("", "turnOn", ""),
        request("customize", "button", "x:y/z"),
        request("t", "a/b", ""),
        request("", "setBrightness", "50"),
    ] {
        assert_eq!(CommandRequest::parse(&c.format()), c);
    }
    // A spelled-out default does not come back.
    let c = request("command", "turnOn", "default");
    assert_eq!(CommandRequest::parse(&c.format()), request("", "turnOn", ""));
}

#[test]
fn omittable_fields() {
    assert!(CommandRequest::can_omit_parameter(""));
    assert!(CommandRequest::can_omit_parameter("default"));
    assert!(!CommandRequest::can_omit_parameter("Default"));
    assert!(CommandRequest::can_omit_command_type("command"));
    assert!(!CommandRequest::can_omit_command_type("customize"));
}
