use soul_memory_overlay::aob::{find_pattern_all, game_manager_targets_in_module, parse_aob};
use soul_memory_overlay::module_image::{query_failure, region_is_readable, ModuleImage};
use soul_memory_overlay::pointer_chain::{
    walk_after_pointer, walk_after_value, walk_start, PointerChainError, PointerChainMemory, WalkStep,
};
use soul_memory_overlay::sweep::probe_bases;
use soul_memory_overlay::proto::{
    IpcConfig, MemoryConfig, OverlayConfig, PollConfig, ProcessConfig, SignatureConfig,
};
use soul_memory_overlay::scan::{
    candidate_chains, chain_error_text, choose_best, probe_bases_found, probe_base_error, processes_found,
    probe_open_error, probe_read_line, process_not_found, select_game_manager_bases,
    CandidateHit, SoulMemoryScan,
};
use soul_memory_overlay::text::{names_match, utf16z_to_string};

fn memory(
    pointer_offsets: Vec<u64>,
    game_manager_imp: Option<u64>,
    soul_memory_chains: Option<Vec<Vec<u64>>>,
    base_offset: u64,
) -> MemoryConfig {
    MemoryConfig {
        module: "DarkSoulsII.exe".to_string(),
        base_offset,
        pointer_offsets,
        game_manager_imp,
        soul_memory_chains,
    }
}

fn config(memory: MemoryConfig) -> OverlayConfig {
    OverlayConfig {
        process: ProcessConfig { exe: "DarkSoulsII.exe".to_string() },
        memory,
        signature: SignatureConfig {
            enabled: true,
            pattern: "48 8B 05 ?? ?? ?? ??".to_string(),
            relative_offset: 0,
        },
        ipc: IpcConfig { pipe_name: "SoulMemoryOverlay".to_string() },
        poll: PollConfig { interval_ms: 1000 },
    }
}

#[test]
fn aob_pattern_parses_bytes_and_wildcards() {
    assert_eq!(
        parse_aob("AA bb ?? 0C"),
        Ok(vec![Some(0xAA), Some(0xBB), None, Some(0x0C)])
    );
    assert_eq!(parse_aob("  48\t8B\n05  "), Ok(vec![Some(0x48), Some(0x8B), Some(0x05)]));
    assert_eq!(parse_aob("+F 00ff"), Ok(vec![Some(0x0F), Some(0xFF)]));
}

#[test]
fn aob_pattern_rejects_bad_tokens() {
    assert_eq!(parse_aob("AA GG CC"), Err("invalid AOB token 'GG'".to_string()));
    assert_eq!(parse_aob("AA 100"), Err("invalid AOB token '100'".to_string()));
    assert_eq!(parse_aob("? AA"), Err("invalid AOB token '?'".to_string()));
    assert_eq!(parse_aob("+ AA"), Err("invalid AOB token '+'".to_string()));
    assert_eq!(parse_aob("-1"), Err("invalid AOB token '-1'".to_string()));
    assert_eq!(parse_aob("   "), Err("empty AOB pattern".to_string()));
    assert_eq!(parse_aob(""), Err("empty AOB pattern".to_string()));
}

#[test]
fn pattern_search_finds_every_match_in_order() {
    let haystack = [0xAA, 0xBB, 0x01, 0xAA, 0xBB, 0x02, 0xAA];
    assert_eq!(find_pattern_all(&haystack, &[Some(0xAA), Some(0xBB)]), vec![0, 3]);
    assert_eq!(find_pattern_all(&haystack, &[Some(0xAA), None]), vec![0, 3]);
    assert_eq!(find_pattern_all(&haystack, &[None]), vec![0, 1, 2, 3, 4, 5, 6]);
    assert_eq!(find_pattern_all(&haystack, &[Some(0xCC)]), Vec::<usize>::new());
    assert_eq!(find_pattern_all(&[0xAA], &[Some(0xAA), None]), Vec::<usize>::new());
    assert_eq!(find_pattern_all(&[0x01, 0x02], &[]), vec![0, 1, 2]);
}

#[test]
fn game_manager_target_decodes_rip_relative_displacement() {
    let base = 0x1_4000_0000u64;
    let bytes = [0x90, 0x90, 0x48, 0x8B, 0x05, 0x10, 0x00, 0x00, 0x00, 0x90];
    assert_eq!(
        game_manager_targets_in_module(base, &bytes, "48 8B 05 ?? ?? ?? ??", 0),
        Ok(vec![base + 2 + 7 + 0x10])
    );
    assert_eq!(
        game_manager_targets_in_module(base, &bytes, "48 8B 05", 8),
        Ok(vec![base + 2 + 7 + 0x10 + 8])
    );
    let negative = [0x48, 0x8B, 0x05, 0xF0, 0xFF, 0xFF, 0xFF];
    assert_eq!(
        game_manager_targets_in_module(base, &negative, "48 8B 05", 0),
        Ok(vec![base + 7 - 16])
    );
}

#[test]
fn game_manager_targets_are_deduplicated_and_checked() {
    let base = 0x1000u64;
    // Two hits that point at the same address: 0x1000+0+7+9 and 0x1000+7+7+2.
    let bytes = [
        0x48, 0x8B, 0x05, 0x09, 0x00, 0x00, 0x00, 0x48, 0x8B, 0x05, 0x02, 0x00, 0x00, 0x00,
    ];
    assert_eq!(game_manager_targets_in_module(base, &bytes, "48 8B 05", 0), Ok(vec![0x1010]));
    assert_eq!(
        game_manager_targets_in_module(base, &bytes, "AA BB", 0),
        Err("GameManagerImp AOB pattern not found in module".to_string())
    );
    let short = [0x00, 0x48, 0x8B, 0x05, 0x01];
    assert_eq!(
        game_manager_targets_in_module(base, &short, "48 8B 05", 0),
        Err("failed to decode GameManagerImp target from AOB hits".to_string())
    );
    assert_eq!(
        game_manager_targets_in_module(base, &bytes, "48 ZZ", 0),
        Err("invalid AOB token 'ZZ'".to_string())
    );
}

#[test]
fn candidate_chains_prefer_configured_chains() {
    let cfg = config(memory(vec![0], None, Some(vec![vec![], vec![208, 1168, 244]]), 0));
    assert_eq!(candidate_chains(&cfg), vec![vec![208, 1168, 244]]);
    let cfg = config(memory(vec![0x10, 0x20], None, Some(vec![vec![]]), 0));
    assert_eq!(candidate_chains(&cfg), vec![vec![0x10, 0x20]]);
    let cfg = config(memory(vec![0], None, None, 0));
    assert_eq!(candidate_chains(&cfg), vec![vec![0xD0, 0x490, 0xF4], vec![0xD0, 0x490, 0xFC]]);
    let cfg = config(memory(vec![], None, None, 0));
    assert_eq!(candidate_chains(&cfg), vec![vec![0xD0, 0x490, 0xF4], vec![0xD0, 0x490, 0xFC]]);
}

fn hit(pid: u32, base: u64, chain: Vec<u64>, initial_deref: bool, value: i32) -> CandidateHit {
    CandidateHit { pid, base, chain, initial_deref, value }
}

#[test]
fn best_candidate_prefers_plausible_values_then_small_ones() {
    assert_eq!(choose_best(&[]), None);
    let hits = vec![
        hit(1, 0x10, vec![0x1, 0x2], true, 0),
        hit(1, 0x10, vec![0xD0, 0x490, 0xF4], true, 500),
        hit(1, 0x10, vec![0xD0, 0x490, 0xFC], true, 400),
        hit(2, 0x10, vec![0x1], true, 2_000_000_000),
    ];
    assert_eq!(choose_best(&hits), Some(2));
    let ties = vec![hit(3, 0x20, vec![0x1], true, 7), hit(3, 0x10, vec![0x1], true, 7), hit(3, 0x10, vec![0x1], true, 7)];
    assert_eq!(choose_best(&ties), Some(1));
}

#[test]
fn bases_come_from_config_module_and_signature() {
    let mem = memory(vec![0], Some(0x5000), None, 0x100);
    assert_eq!(
        select_game_manager_bases(&mem, true, Some(0x1000), Some(Ok(vec![0x1100, 0x7000]))),
        Ok(vec![0x5000, 0x1100, 0x7000])
    );
    assert_eq!(
        select_game_manager_bases(&mem, false, Some(0x1000), Some(Ok(vec![0x7000]))),
        Ok(vec![0x5000, 0x1100])
    );
    assert_eq!(
        select_game_manager_bases(&mem, true, Some(u64::MAX), None),
        Err("base address overflow while applying base_offset".to_string())
    );
}

#[test]
fn bases_report_why_none_were_found() {
    let mem = memory(vec![0], Some(0), None, 0x100);
    assert_eq!(
        select_game_manager_bases(&mem, true, None, Some(Err("scan failed".to_string()))),
        Err("module 'DarkSoulsII.exe' not found in process; signature fallback failed: scan failed".to_string())
    );
    assert_eq!(
        select_game_manager_bases(&mem, false, None, None),
        Err("module 'DarkSoulsII.exe' not found in process".to_string())
    );
    let mem = memory(vec![0], None, None, 0);
    assert_eq!(
        select_game_manager_bases(&mem, true, None, Some(Err("scan failed".to_string()))),
        Err("scan failed".to_string())
    );
    assert_eq!(
        select_game_manager_bases(&mem, false, None, None),
        Err("no configured game manager base and signature fallback disabled".to_string())
    );
    let mem = memory(vec![0], Some(0x42), None, 0);
    assert_eq!(
        select_game_manager_bases(&mem, true, None, Some(Err("scan failed".to_string()))),
        Ok(vec![0x42])
    );
}

#[test]
fn scan_settles_on_best_fresh_value() {
    let mut scan = SoulMemoryScan::new();
    scan.record_read(7, 0x10, &vec![0xD0, 0x490, 0xF4], false, Ok(999));
    scan.record_read(7, 0x10, &vec![0xD0, 0x490, 0xF4], true, Ok(123));
    scan.record_read(7, 0x10, &vec![0xD0, 0x490, 0xFC], true, Err(PointerChainError::CharacterUnavailable));
    assert_eq!(scan.finish(), Ok(123));
}

#[test]
fn scan_reports_unavailable_character_before_other_errors() {
    let mut scan = SoulMemoryScan::new();
    scan.record_failure(4, "OpenProcess failed for pid 4");
    scan.record_read(5, 0x10, &vec![0x1], false, Ok(10));
    scan.record_read(5, 0x10, &vec![0x1], true, Err(PointerChainError::CharacterUnavailable));
    assert_eq!(
        scan.finish(),
        Err("character data unavailable; load into a character/world before reading soul memory".to_string())
    );
}

#[test]
fn scan_reports_every_failure() {
    let mut scan = SoulMemoryScan::new();
    assert_eq!(
        scan.finish(),
        Err("unable to resolve soul memory from configured candidate chains".to_string())
    );
    scan.record_failure(4, "OpenProcess failed for pid 4");
    scan.record_read(5, 0x10, &vec![0x1], true, Err(PointerChainError::AddressOverflow));
    scan.record_read(5, 0x10, &vec![0x1], true, Err(PointerChainError::ReadFailed("bad \"read\"".to_string())));
    assert_eq!(
        scan.finish(),
        Err("unable to resolve soul memory: pid 4: OpenProcess failed for pid 4 | pid 5: AddressOverflow | pid 5: ReadFailed(\"bad \\\"read\\\"\")".to_string())
    );
}

#[test]
fn chain_errors_are_written_as_debug_text() {
    assert_eq!(chain_error_text(&PointerChainError::EmptyChain), format!("{:?}", PointerChainError::EmptyChain));
    let e = PointerChainError::ReadFailed("x\ny".to_string());
    assert_eq!(chain_error_text(&e), format!("{e:?}"));
    assert_eq!(chain_error_text(&PointerChainError::ValueOutOfRange), "ValueOutOfRange");
}

#[test]
fn probe_lines_describe_each_read() {
    assert_eq!(
        probe_read_line(12, 0x7FF6_0000_1234, &[0xD0, 0x490, 0xF4], true, &Ok(-5)),
        "ok pid=12 base=0x7FF600001234 chain=[0xD0,0x490,0xF4] deref=true value=-5"
    );
    assert_eq!(
        probe_read_line(1, 0, &[0xA], false, &Err(PointerChainError::CharacterUnavailable)),
        "unavailable pid=1 base=0x0 chain=[0xA] deref=false"
    );
    assert_eq!(
        probe_read_line(1, 255, &[], false, &Err(PointerChainError::EmptyChain)),
        "err pid=1 base=0xFF chain=[] deref=false msg=EmptyChain"
    );
    assert_eq!(probe_open_error(9, "denied"), "pid=9 open_error=denied");
    assert_eq!(probe_base_error(9, "none"), "pid=9 base_error=none");
    assert_eq!(probe_bases_found(9, 3), "pid=9 bases_found=3");
    assert_eq!(process_not_found("DarkSoulsII.exe"), "target process 'DarkSoulsII.exe' not found");
}

#[test]
fn walk_steps_follow_the_chain() {
    let chain = [0x10u64, 0x20];
    assert!(matches!(walk_start(0x1000, &chain, true), WalkStep::ReadPointer { address: 0x1000, next_index: 0 }));
    assert!(matches!(walk_start(0x1000, &chain, false), WalkStep::ReadPointer { address: 0x1010, next_index: 1 }));
    assert!(matches!(walk_after_pointer(&chain, 1, Ok(0x3000)), WalkStep::ReadValue { address: 0x3020 }));
    assert!(matches!(
        walk_after_pointer(&chain, 1, Ok(0)),
        WalkStep::Done(Err(PointerChainError::CharacterUnavailable))
    ));
    assert!(matches!(walk_start(1, &[], true), WalkStep::Done(Err(PointerChainError::EmptyChain))));
    assert_eq!(walk_after_value(Ok(41)), Ok(41));
    assert_eq!(walk_after_value(Ok(u32::MAX)), Err(PointerChainError::ValueOutOfRange));
}

#[test]
fn module_image_copies_readable_regions() {
    let mut image = ModuleImage::new(0x1000, 8).expect("fits");
    assert_eq!(image.bytes, vec![0; 8]);
    assert_eq!(image.next_query(), Some(0x1000));
    // A region straddling the module's start.
    let range = image.take_region(0x0FFC, 8, true).expect("non-empty region");
    assert_eq!(range, Some((0x1000, 4)));
    image.place(0x1000, 4, &[1, 2, 3]);
    assert_eq!(image.bytes, vec![1, 2, 3, 0, 0, 0, 0, 0]);
    assert_eq!(image.next_query(), Some(0x1004));
    // An unreadable region is skipped.
    assert_eq!(image.take_region(0x1004, 2, false), Ok(None));
    assert_eq!(image.take_region(0x1006, 0x100, true), Ok(Some((0x1006, 2))));
    image.place(0x1006, 2, &[9, 9, 9]);
    assert_eq!(image.bytes, vec![1, 2, 3, 0, 0, 0, 9, 9]);
    assert_eq!(image.next_query(), None);
    assert_eq!(
        image.take_region(0x2000, 0, true),
        Err("VirtualQueryEx returned zero-sized region".to_string())
    );
    assert!(ModuleImage::new(u64::MAX, 2).is_err());
    assert_eq!(
        query_failure(0xABC),
        "VirtualQueryEx failed while scanning module at 0x0000000000000ABC"
    );
}

#[test]
fn utf16_names_stop_at_terminator() {
    let name: Vec<u16> = "DarkSoulsII.exe\0junk".encode_utf16().collect();
    assert_eq!(utf16z_to_string(&name), "DarkSoulsII.exe");
    let unterminated: Vec<u16> = "abc".encode_utf16().collect();
    assert_eq!(utf16z_to_string(&unterminated), "abc");
    assert_eq!(utf16z_to_string(&[0xD800, 0x41, 0]), "\u{FFFD}A");
}

struct TableMemory {
    words: Vec<(u64, u64)>,
    values: Vec<(u64, u32)>,
}

impl PointerChainMemory for TableMemory {
    fn read_u64(&self, address: u64) -> Result<u64, String> {
        self.words
            .iter()
            .find(|(a, _)| *a == address)
            .map(|(_, v)| *v)
            .ok_or_else(|| format!("no word at {address:#X}"))
    }

    fn read_u32(&self, address: u64) -> Result<u32, String> {
        self.values
            .iter()
            .find(|(a, _)| *a == address)
            .map(|(_, v)| *v)
            .ok_or_else(|| format!("no value at {address:#X}"))
    }
}

fn game_memory() -> TableMemory {
    // From base 0x100: [0x100] -> 0x1000, [0x1000+0x8] -> 0x2000, value at 0x2000+0x4.
    TableMemory {
        words: vec![(0x100, 0x1000), (0x1008, 0x2000), (0x200, 0)],
        values: vec![(0x2004, 4242), (0x108, 77)],
    }
}

#[test]
fn sweep_reads_each_base_and_chain_both_ways() {
    let mem = game_memory();
    let lines = probe_bases(&mem, 3, &vec![0x100, 0x200], &vec![vec![0x8, 0x4], vec![0x8]]);
    assert_eq!(
        lines,
        vec![
            "ok pid=3 base=0x100 chain=[0x8,0x4] deref=true value=4242",
            "err pid=3 base=0x100 chain=[0x8,0x4] deref=false msg=ReadFailed(\"no word at 0x108\")",
            "err pid=3 base=0x100 chain=[0x8] deref=true msg=ReadFailed(\"no value at 0x1008\")",
            "ok pid=3 base=0x100 chain=[0x8] deref=false value=77",
            "unavailable pid=3 base=0x200 chain=[0x8,0x4] deref=true",
            "err pid=3 base=0x200 chain=[0x8,0x4] deref=false msg=ReadFailed(\"no word at 0x208\")",
            "unavailable pid=3 base=0x200 chain=[0x8] deref=true",
            "err pid=3 base=0x200 chain=[0x8] deref=false msg=ReadFailed(\"no value at 0x208\")",
        ]
    );
}

#[test]
fn sweep_feeds_the_scan() {
    let mem = game_memory();
    let mut scan = SoulMemoryScan::new();
    scan.read_bases(&mem, 3, &vec![0x100, 0x200], &vec![vec![0x8, 0x4], vec![0x8]]);
    assert_eq!(scan.successes.len(), 2);
    assert_eq!(scan.successes[0].value, 4242);
    assert!(scan.successes[0].initial_deref);
    assert_eq!(scan.successes[1].value, 77);
    assert!(!scan.successes[1].initial_deref);
    assert!(scan.had_character_unavailable);
    assert_eq!(scan.other_errors.len(), 4);
    assert_eq!(scan.finish(), Ok(4242));

    let mut empty = SoulMemoryScan::new();
    empty.read_bases(&mem, 3, &vec![], &vec![vec![0x8]]);
    assert_eq!(empty.successes.len(), 0);
    assert_eq!(empty.other_errors.len(), 0);
}

#[test]
fn only_committed_unguarded_regions_are_read() {
    assert!(region_is_readable(0x1000, 0x04));
    assert!(region_is_readable(0x1000, 0x20));
    assert!(!region_is_readable(0x2000, 0x04));
    assert!(!region_is_readable(0x1000, 0x01));
    assert!(!region_is_readable(0x1000, 0x104));
}

#[test]
fn unpaired_surrogates_become_replacement_characters() {
    let units = [0x41u16, 0xD800, 0x42, 0xD83D, 0xDE00, 0xDC00, 0, 0x43];
    assert_eq!(utf16z_to_string(&units), "A\u{FFFD}B\u{1F600}\u{FFFD}");
}

#[test]
fn process_names_match_without_regard_to_ascii_case() {
    assert!(names_match("DarkSoulsII.exe", "darksoulsii.EXE"));
    assert!(names_match("", ""));
    assert!(!names_match("DarkSoulsII.exe", "DarkSoulsII.ex"));
    assert!(!names_match("DarkSoulsIl.exe", "DarkSoulsII.exe"));
    assert!(!names_match("É.exe", "é.exe"));
}

#[test]
fn no_process_means_not_found() {
    assert_eq!(
        processes_found(&vec![], "DarkSoulsII.exe"),
        Err("target process 'DarkSoulsII.exe' not found".to_string())
    );
    assert_eq!(processes_found(&vec![42], "DarkSoulsII.exe"), Ok(()));
}

#[test]
fn later_regions_overwrite_earlier_ones_and_unread_bytes_stay_zero() {
    let mut image = ModuleImage::new(0x1000, 8).unwrap();
    image.place(0x1001, 4, &[1, 2, 3, 4]);
    image.place(0x1003, 4, &[9, 9]);
    assert_eq!(image.bytes, vec![0, 1, 2, 9, 9, 0, 0, 0]);
}
