use soul_memory_overlay::pointer_chain::{resolve_pointer_chain_i32, PointerChainError, PointerChainMemory};
use soul_memory_overlay::proto::{
    IpcConfig, MemoryConfig, OverlayConfig, PollConfig, ProcessConfig, SignatureConfig, Status,
};
use soul_memory_overlay::reader::{build_message, epoch_millis, message_from_reading, now_ms, MockMemoryReader};
use std::collections::HashMap;

fn cfg() -> OverlayConfig {
    OverlayConfig {
        process: ProcessConfig { exe: "missing.exe".to_string() },
        memory: MemoryConfig {
            module: "missing.exe".to_string(),
            base_offset: 0,
            pointer_offsets: vec![0],
            game_manager_imp: None,
            soul_memory_chains: None,
        },
        signature: SignatureConfig {
            enabled: true,
            pattern: "AA BB ?? CC".to_string(),
            relative_offset: 0,
        },
        ipc: IpcConfig { pipe_name: "SoulMemoryOverlay".to_string() },
        poll: PollConfig { interval_ms: 1 },
    }
}

#[derive(Default)]
struct MockPointerMemory {
    u64_values: HashMap<u64, u64>,
    u32_values: HashMap<u64, u32>,
}

impl PointerChainMemory for MockPointerMemory {
    fn read_u64(&self, address: u64) -> Result<u64, String> {
        self.u64_values
            .get(&address)
            .copied()
            .ok_or_else(|| format!("missing u64 at 0x{address:X}"))
    }

    fn read_u32(&self, address: u64) -> Result<u32, String> {
        self.u32_values
            .get(&address)
            .copied()
            .ok_or_else(|| format!("missing u32 at 0x{address:X}"))
    }
}

#[test]
fn pointer_chain_resolves_with_initial_deref() {
    let mut mem = MockPointerMemory::default();
    mem.u64_values.insert(0x1000, 0x2000);
    mem.u64_values.insert(0x2010, 0x3000);
    mem.u32_values.insert(0x3020, 12345);

    let value = resolve_pointer_chain_i32(&mem, 0x1000, &[0x10, 0x20], true)
        .expect("pointer chain resolves");
    assert_eq!(value, 12_345);
}

#[test]
fn pointer_chain_resolves_without_initial_deref() {
    let mut mem = MockPointerMemory::default();
    mem.u64_values.insert(0x1010, 0x3000);
    mem.u32_values.insert(0x3020, 777);

    let value =
        resolve_pointer_chain_i32(&mem, 0x1000, &[0x10, 0x20], false).expect("chain resolves");
    assert_eq!(value, 777);
}

#[test]
fn pointer_chain_reports_character_unavailable_for_null_pointer() {
    let mut mem = MockPointerMemory::default();
    mem.u64_values.insert(0x1000, 0);

    let err = resolve_pointer_chain_i32(&mem, 0x1000, &[0x10, 0x20], true)
        .expect_err("null pointer should fail");
    assert_eq!(err, PointerChainError::CharacterUnavailable);
}

#[test]
fn pointer_chain_reports_empty_chain() {
    let mem = MockPointerMemory::default();
    let err = resolve_pointer_chain_i32(&mem, 0x1000, &[], true)
        .expect_err("empty chain should fail");
    assert_eq!(err, PointerChainError::EmptyChain);
}

#[test]
fn mock_reader_returns_ok_message() {
    let mut reader = MockMemoryReader::new(77);
    let msg = build_message(&mut reader, &cfg(), 100);
    assert_eq!(msg.value, Some(77));
    assert_eq!(msg.error, None);
}

#[test]
fn log_timestamp_monotonic_now_ms() {
    let first = now_ms();
    let second = now_ms();
    assert!(second >= first);
}

#[test]
fn pointer_chain_single_offset_reads_value_directly() {
    let mut mem = MockPointerMemory::default();
    mem.u32_values.insert(0x1004, 5);
    assert_eq!(resolve_pointer_chain_i32(&mem, 0x1000, &[0x4], false), Ok(5));
}

#[test]
fn pointer_chain_reports_null_pointer_inside_chain() {
    let mut mem = MockPointerMemory::default();
    mem.u64_values.insert(0x1000, 0x2000);
    mem.u64_values.insert(0x2010, 0);
    let err = resolve_pointer_chain_i32(&mem, 0x1000, &[0x10, 0x20], true).unwrap_err();
    assert_eq!(err, PointerChainError::CharacterUnavailable);
}

#[test]
fn pointer_chain_reports_failed_read() {
    let mem = MockPointerMemory::default();
    let err = resolve_pointer_chain_i32(&mem, 0x1000, &[0x10, 0x20], true).unwrap_err();
    assert_eq!(err, PointerChainError::ReadFailed("missing u64 at 0x1000".to_string()));
    let err = resolve_pointer_chain_i32(&mem, 0x1000, &[0x20], false).unwrap_err();
    assert_eq!(err, PointerChainError::ReadFailed("missing u32 at 0x1020".to_string()));
}

#[test]
fn pointer_chain_reports_address_overflow() {
    let mut mem = MockPointerMemory::default();
    mem.u64_values.insert(0x1000, u64::MAX - 1);
    let err = resolve_pointer_chain_i32(&mem, 0x1000, &[0x10, 0x20], true).unwrap_err();
    assert_eq!(err, PointerChainError::AddressOverflow);
    let err = resolve_pointer_chain_i32(&mem, u64::MAX, &[0x1], false).unwrap_err();
    assert_eq!(err, PointerChainError::AddressOverflow);
}

#[test]
fn pointer_chain_reports_value_out_of_range() {
    let mut mem = MockPointerMemory::default();
    mem.u32_values.insert(0x1000, 0x8000_0000);
    let err = resolve_pointer_chain_i32(&mem, 0x1000, &[0], false).unwrap_err();
    assert_eq!(err, PointerChainError::ValueOutOfRange);
    mem.u32_values.insert(0x1000, 0x7fff_ffff);
    assert_eq!(resolve_pointer_chain_i32(&mem, 0x1000, &[0], false), Ok(i32::MAX));
}

#[test]
fn reading_error_becomes_error_message() {
    let msg = message_from_reading(Err("cannot read memory".to_string()), 42);
    assert_eq!(msg.status, Status::Error);
    assert_eq!(msg.value, None);
    assert_eq!(msg.error.as_deref(), Some("cannot read memory"));
    assert_eq!(msg.timestamp_ms, 42);
    let msg = message_from_reading(Ok(-3), 7);
    assert_eq!(msg.status, Status::Success);
    assert_eq!(msg.value, Some(-3));
    assert_eq!(msg.error, None);
    assert_eq!(msg.timestamp_ms, 7);
}

#[test]
fn epoch_millis_keeps_the_low_bits() {
    assert_eq!(epoch_millis(None), 0);
    assert_eq!(epoch_millis(Some(1_700_000_000_123)), 1_700_000_000_123);
    assert_eq!(epoch_millis(Some((1u128 << 64) + 5)), 5);
}
