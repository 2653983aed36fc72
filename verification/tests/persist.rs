use evsieve::capability::{AbsInfo, AbsMeta, Capabilities, RepeatInfo};
use evsieve::event::{EventCode, EventType};
use evsieve::persist::format::{decode, encode};
use evsieve::persist::interface::HostInterfaceState;
use evsieve::io::epoll::FileIndex;
use evsieve::persist::storage::{
    cached_capabilities_from_file, choose_state_directory, CacheUpdate, CachedCapabilities, DeviceCache, StateDirectory,
    StorageError,
};

fn sample_caps() -> Capabilities {
    let mut caps = Capabilities::new();
    caps.add_code(EventCode::new(EventType::key(), 30));
    caps.add_code(EventCode::new(EventType::key(), 48));
    caps.add_code(EventCode::new(EventType::abs(), 0));
    caps.add_code(EventCode::new(EventType::rep(), 0));
    let axis = AbsInfo { min_value: -10, max_value: 20, meta: AbsMeta { fuzz: 1, flat: 2, resolution: 3, value: 7 } };
    caps.set_axis(EventCode::new(EventType::abs(), 0), axis);
    caps.set_rep_info(Some(RepeatInfo { delay: 300, period: 40 }));
    caps
}

#[test]
fn encode_starts_with_magic_and_length() {
    let bytes = encode(&sample_caps()).unwrap();
    assert_eq!(&bytes[0..8], &[0x45, 0x56, 0x53, 0x56, 0x41, 0xe7, 0x75, 0x01]);
    let length = u32::from_le_bytes([bytes[8], bytes[9], bytes[10], bytes[11]]);
    assert_eq!(length as usize, bytes.len());
    // The final block.
    assert_eq!(&bytes[bytes.len() - 2..], &[0xff, 0xff]);
}

#[test]
fn decode_gives_back_what_encode_wrote() {
    let caps = sample_caps();
    let bytes = encode(&caps).unwrap();
    let decoded = decode(&bytes).unwrap();
    assert!(caps.is_compatible_with(&decoded));
    assert!(caps.is_equivalent_to(&decoded));
    let axis = decoded.get_axis(EventCode::new(EventType::abs(), 0)).unwrap();
    assert_eq!(axis.min_value, -10);
    assert_eq!(axis.max_value, 20);
    // The current value is not kept: the middle of the range stands for it.
    assert_eq!(axis.meta.value, 5);
    assert_eq!(decoded.rep_info(), Some(RepeatInfo { delay: 300, period: 40 }));
}

#[test]
fn decode_rejects_damaged_files() {
    let mut bytes = encode(&sample_caps()).unwrap();
    assert!(decode(&bytes[0..bytes.len() - 1]).is_err());
    bytes[0] = 0;
    assert!(decode(&bytes).is_err());
    let mut wrong_length = encode(&sample_caps()).unwrap();
    wrong_length[8] = wrong_length[8].wrapping_add(1);
    assert!(decode(&wrong_length).is_err());
}

#[test]
fn encode_refuses_inverted_axis() {
    let mut caps = Capabilities::new();
    caps.add_code(EventCode::new(EventType::abs(), 1));
    let axis = AbsInfo { min_value: 5, max_value: 4, meta: AbsMeta { fuzz: 0, flat: 0, resolution: 0, value: 4 } };
    caps.set_axis(EventCode::new(EventType::abs(), 1), axis);
    assert!(encode(&caps).is_err());
}

#[test]
fn cache_decisions() {
    let caps = sample_caps();
    let bytes = encode(&caps).unwrap();
    assert!(matches!(cached_capabilities_from_file(None), CachedCapabilities::NonExistent));
    assert!(matches!(cached_capabilities_from_file(Some(&[0u8; 12])), CachedCapabilities::Corrupted));
    let known = cached_capabilities_from_file(Some(&bytes));
    assert!(matches!(known, CachedCapabilities::Known(_)));
    let cache = DeviceCache { location: "cache".to_string(), content: known };
    assert_eq!(cache.update_decision(&caps), CacheUpdate::Keep);
    let other = Capabilities::new();
    assert_eq!(cache.update_decision(&other), CacheUpdate::Replace);
    let empty = DeviceCache { location: "cache".to_string(), content: CachedCapabilities::NonExistent };
    assert_eq!(empty.update_decision(&caps), CacheUpdate::Write);
}

#[test]
fn host_interface_state_transitions() {
    let mut state = HostInterfaceState::new();
    assert!(state.needs_launch());
    state.record_launch(Some(FileIndex(7)));
    assert_eq!(state.running_index(), Some(FileIndex(7)));
    assert!(!state.needs_launch());
    state.mark_as_broken();
    assert_eq!(state.running_index(), None);
    let mut failed = HostInterfaceState::new();
    failed.record_launch(None);
    assert_eq!(failed, HostInterfaceState::Error);
    failed.mark_as_shutdown();
    assert_eq!(failed, HostInterfaceState::Shutdown);
}

#[test]
fn short_cache_files_read_as_corrupted() {
    assert!(matches!(cached_capabilities_from_file(Some(&[])), CachedCapabilities::Corrupted));
    assert!(matches!(cached_capabilities_from_file(Some(&[1u8, 2, 3])), CachedCapabilities::Corrupted));
    assert!(decode(&[0u8; 7]).is_err());
}

#[test]
fn state_directory_follows_the_environment_in_order() {
    assert_eq!(choose_state_directory(true, true, true, true), Ok(StateDirectory::Explicit));
    assert_eq!(choose_state_directory(false, true, true, true), Ok(StateDirectory::System));
    assert_eq!(choose_state_directory(false, false, true, true), Ok(StateDirectory::XdgStateHome));
    assert_eq!(choose_state_directory(false, false, false, true), Ok(StateDirectory::Home));
    assert_eq!(choose_state_directory(false, false, false, false), Err(StorageError::CouldNotFindStateDirectory));
}
