use switchbot::{resolve, AliasTable, Device, DeviceList, Session, SelectorError};

fn devices(n: usize) -> DeviceList {
    let mut list = DeviceList::new();
    for i in 1..=n {
        list.push(Device::new(
            format!("device{i}"),
            format!("Device {i}"),
            "test".to_string(),
            String::new(),
            String::new(),
        ));
    }
    list
}

fn session(n: usize) -> Session {
    Session::new(AliasTable::new(), devices(n), 2)
}

#[test]
fn parse_device_indexes() {
    let cli = session(10);
    assert!(cli.parse_device_indexes("").is_err());
    assert_eq!(cli.parse_device_indexes("4").unwrap(), vec![3]);
    assert_eq!(cli.parse_device_indexes("device4").unwrap(), vec![3]);
    assert_eq!(cli.parse_device_indexes("2,4").unwrap(), vec![1, 3]);
    assert_eq!(cli.parse_device_indexes("2,device4").unwrap(), vec![1, 3]);
    // The result should not be sorted.
    assert_eq!(cli.parse_device_indexes("4,2").unwrap(), vec![3, 1]);
    assert_eq!(cli.parse_device_indexes("device4,2").unwrap(), vec![3, 1]);
    // The result should be unique.
    assert_eq!(cli.parse_device_indexes("2,4,2").unwrap(), vec![1, 3]);
    assert_eq!(cli.parse_device_indexes("4,2,4").unwrap(), vec![3, 1]);
}

#[test]
fn parse_device_indexes_alias() {
    let mut cli = session(10);
    cli.aliases.insert("k".into(), "3,5".into());
    assert_eq!(cli.parse_device_indexes("k").unwrap(), vec![2, 4]);
    assert_eq!(cli.parse_device_indexes("1,k,4").unwrap(), vec![0, 2, 4, 3]);
    cli.aliases.insert("j".into(), "2,k".into());
    assert_eq!(
        cli.parse_device_indexes("1,j,4").unwrap(),
        vec![0, 1, 2, 4, 3]
    );
    assert_eq!(cli.parse_device_indexes("1,j,5").unwrap(), vec![0, 1, 2, 4]);
}

#[test]
fn first_occurrence_order_is_kept() {
    let list = devices(10);
    let aliases = AliasTable::new();
    assert_eq!(resolve("4,2", &aliases, &list).unwrap(), vec![3, 1]);
}

#[test]
fn out_of_range_and_unknown_tokens_fail() {
    let list = devices(10);
    let aliases = AliasTable::new();
    assert_eq!(
        resolve("11", &aliases, &list),
        Err(SelectorError::NotADevice("11".to_string()))
    );
    assert_eq!(
        resolve("0", &aliases, &list),
        Err(SelectorError::NotADevice("0".to_string()))
    );
    assert_eq!(
        resolve("1,nope,2", &aliases, &list),
        Err(SelectorError::NotADevice("nope".to_string()))
    );
    assert_eq!(resolve("+3", &aliases, &list).unwrap(), vec![2]);
    assert_eq!(resolve("99999999999999999999999", &aliases, &list).is_err(), true);
    assert_eq!(resolve("10", &aliases, &list).unwrap(), vec![9]);
}

#[test]
fn self_referential_alias_is_reported() {
    let list = devices(3);
    let mut aliases = AliasTable::new();
    aliases.insert("a".into(), "1,b".into());
    aliases.insert("b".into(), "a".into());
    assert_eq!(
        resolve("a", &aliases, &list),
        Err(SelectorError::AliasLoop("a".to_string()))
    );
    let mut nested = AliasTable::new();
    nested.insert("x".into(), "y".into());
    nested.insert("y".into(), "z".into());
    nested.insert("z".into(), "2".into());
    assert_eq!(resolve("x,1", &nested, &list).unwrap(), vec![1, 0]);
}

#[test]
fn device_list_lookup() {
    let list = devices(3);
    assert_eq!(list.len(), 3);
    assert!(!list.is_empty());
    assert!(DeviceList::new().is_empty());
    assert_eq!(list.index_by_device_id("device2"), Some(1));
    assert_eq!(list.index_by_device_id("device9"), None);
    assert_eq!(list.get(0).unwrap().device_name(), "Device 1");
    assert!(list.get(3).is_none());
}

#[test]
fn device_summary_line() {
    let plug = Device::new("id1".into(), "Desk".into(), "Plug".into(), String::new(), "hub".into());
    assert_eq!(plug.summary(), "Desk (Plug, ID:id1)");
    assert!(!plug.is_remote());
    let tv = Device::new("id2".into(), "TV".into(), String::new(), "DIY TV".into(), "hub".into());
    assert_eq!(tv.summary(), "TV (DIY TV, ID:id2)");
    assert!(tv.is_remote());
    assert_eq!(tv.device_type_or_remote_type(), "DIY TV");
    assert_eq!(tv.hub_device_id(), "hub");
}
