use format_galaxy::abi::GalaxyFormatPluginV1_;
use format_galaxy::byte_sequence::ByteSequenceFormat;
use format_galaxy::driver::GalaxyFormatPluginV1;
use format_galaxy::errors::{BadOutputKind, HostError};
use format_galaxy::guest::GuestCore;
use format_galaxy::mock::{ScriptMode, ScriptedPlugin};
use format_galaxy::test_client::TestClientFormat;

#[test]
fn driver_byte_sequence_round_trip() {
    let mut plugin = GuestCore::<ByteSequenceFormat>::new();
    let presented = plugin.present_bytes(&[1, 2, 3]).unwrap();
    assert_eq!(presented, Ok("1,2,3".to_string()));
    let stored = plugin.store_text("1,2,3").unwrap();
    assert_eq!(stored, Ok(vec![1, 2, 3]));
}

#[test]
fn driver_reports_plugin_error_and_instance_survives() {
    let mut plugin = GuestCore::<TestClientFormat>::new();
    let first = plugin.present_bytes(&[]).unwrap();
    assert_eq!(first, Err("I don't like empty Strings!".to_string()));
    let second = plugin.present_bytes(&[1]).unwrap();
    assert_eq!(second, Ok("1".to_string()));
}

#[test]
fn driver_trap_issues_no_free() {
    let mut plugin = ScriptedPlugin::new(ScriptMode::Trap);
    match plugin.present_bytes(&[1, 2, 3]) {
        Err(HostError::PluginTrap(_)) => {}
        other => panic!("a trap was expected: {:?}", other),
    }
    assert_eq!(plugin.free_count(), 0);
}

#[test]
fn driver_bounds_check_catches_bad_descriptor() {
    let mut plugin = ScriptedPlugin::new(ScriptMode::BadDescriptor);
    match plugin.present_bytes(&[1]) {
        Err(HostError::BadPluginOutput(BadOutputKind::OutOfBounds { ptr, len, memory })) => {
            assert!(ptr as u64 + len as u64 > memory as u64);
        }
        other => panic!("an out-of-bounds descriptor was expected to be caught: {:?}", other),
    }
    assert_eq!(plugin.free_count(), 0);
}

#[test]
fn driver_refuses_message_that_is_not_text() {
    let mut plugin = ScriptedPlugin::new(ScriptMode::BadMessage);
    match plugin.present_bytes(&[1]) {
        Err(HostError::BadPluginOutput(BadOutputKind::NotUtf8)) => {}
        other => panic!("a non-text message was expected to be refused: {:?}", other),
    }
    // The payload was read out before the message was found unusable, so
    // exactly one free was issued.
    assert_eq!(plugin.free_count(), 1);
}

#[test]
fn driver_frees_once_per_completed_call() {
    let mut plugin = ScriptedPlugin::new(ScriptMode::Echo(true));
    let r = plugin.present_bytes(&[104, 105]).unwrap();
    assert_eq!(r, Ok("hi".to_string()));
    assert_eq!(plugin.free_count(), 1);
    let r2 = plugin.present_bytes(&[33]).unwrap();
    assert_eq!(r2, Ok("!".to_string()));
    assert_eq!(plugin.free_count(), 2);

    let mut failing = ScriptedPlugin::new(ScriptMode::Echo(false));
    let r3 = failing.present_bytes(&[110, 111]).unwrap();
    assert_eq!(r3, Err("no".to_string()));
    assert_eq!(failing.free_count(), 1);
}

#[test]
fn driver_store_crosses_text_exactly() {
    let mut plugin = ScriptedPlugin::new(ScriptMode::Echo(true));
    let r = plugin.store_text("abc").unwrap();
    assert_eq!(r, Ok(vec![97, 98, 99]));
}

#[test]
fn raw_abi_protocol_on_the_model_guest() {
    let mut g = GuestCore::<ByteSequenceFormat>::new();
    let input = [7u8, 8, 9];
    let ptr = g.alloc_bytes(input.len() as u32).unwrap();
    g.memory_write(ptr, &input).unwrap();
    let res = g.present(ptr, input.len() as u32).unwrap();
    let rp = g.result_get_ptr(res).unwrap();
    let rl = g.result_get_len(res).unwrap();
    let success = g.result_get_success(res).unwrap();
    assert!(success);
    assert!(rp as usize + rl as usize <= g.memory_len());
    let payload = g.memory_read(rp, rl).unwrap();
    assert_eq!(payload, b"7,8,9");
    g.free(res).unwrap();
    // Releasing the same descriptor twice is refused by the guest.
    assert!(g.free(res).is_err());
}

#[test]
fn model_guest_rejects_text_that_is_not_utf8() {
    let mut g = GuestCore::<ByteSequenceFormat>::new();
    let input = [0xffu8, 0xfe];
    let ptr = g.alloc_bytes(2).unwrap();
    g.memory_write(ptr, &input).unwrap();
    let res = g.store(ptr, 2).unwrap();
    assert!(!g.result_get_success(res).unwrap());
    g.free(res).unwrap();
}

#[test]
fn trapping_model_guest_gives_plugin_trap_and_no_free() {
    // The proved trap law, exercised: a conforming guest whose computation
    // faults yields PluginTrap with zero frees, and the raw ABI shows no
    // descriptor was ever produced.
    let mut g = GuestCore::<ByteSequenceFormat>::new_trapping();
    match g.present_bytes(&[1, 2, 3]) {
        Err(HostError::PluginTrap(_)) => {}
        other => panic!("a trap was expected: {:?}", other),
    }
    match g.store_text("1,2,3") {
        Err(HostError::PluginTrap(_)) => {}
        other => panic!("a trap was expected: {:?}", other),
    }
}
