use hexsaly::descriptor::{validate_patch_structure, PatchDescriptor};
use hexsaly::engine::{
    apply_patch, patch_code, resolve_target, JobError, Resolution,
};
use hexsaly::event::{Action, PatchError, PatchEvent, SkipReason};
use hexsaly::mutate::{insert_hex_at_offset, replace_hex_at_offset};
use hexsaly::pattern::wildcard_pattern_scan;
use hexsaly::symbols::{find_offset_by_method_name, SymbolLookup};

fn lines(text: &[&str]) -> Vec<String> {
    text.iter().map(|l| l.to_string()).collect()
}

fn at_offset(offset: &str) -> PatchDescriptor {
    PatchDescriptor { offset: Some(offset.to_string()), ..PatchDescriptor::default() }
}

fn replacing(mut patch: PatchDescriptor, hex: &str) -> PatchDescriptor {
    patch.hex_replace = Some(hex.to_string());
    patch
}

fn inserting(mut patch: PatchDescriptor, hex: &str) -> PatchDescriptor {
    patch.hex_insert = Some(hex.to_string());
    patch
}

#[test]
fn replace_keeps_length_and_writes_payload() {
    let mut data = vec![1u8, 2, 3, 4, 5, 6];
    assert_eq!(replace_hex_at_offset(&mut data, 2, "AA bb"), Ok(()));
    assert_eq!(data, vec![1, 2, 0xAA, 0xBB, 5, 6]);
}

#[test]
fn replace_twice_is_replace_once() {
    let mut data = vec![1u8, 2, 3, 4];
    assert_eq!(replace_hex_at_offset(&mut data, 1, "10 20"), Ok(()));
    let once = data.clone();
    assert_eq!(replace_hex_at_offset(&mut data, 1, "10 20"), Ok(()));
    assert_eq!(data, once);
}

#[test]
fn insert_grows_buffer_exactly() {
    let mut data = vec![1u8, 2, 3, 4];
    assert_eq!(insert_hex_at_offset(&mut data, 1, "AA BB CC"), Ok(()));
    assert_eq!(data, vec![1, 0xAA, 0xBB, 0xCC, 2, 3, 4]);
}

#[test]
fn insert_at_the_end_appends() {
    let mut data = vec![1u8, 2];
    assert_eq!(insert_hex_at_offset(&mut data, 2, "FF"), Ok(()));
    assert_eq!(data, vec![1, 2, 0xFF]);
}

#[test]
fn insert_twice_doubles_the_payload() {
    let mut data = vec![1u8, 2];
    assert_eq!(insert_hex_at_offset(&mut data, 1, "AA"), Ok(()));
    assert_eq!(insert_hex_at_offset(&mut data, 1, "AA"), Ok(()));
    assert_eq!(data, vec![1, 0xAA, 0xAA, 2]);
}

#[test]
fn insert_past_the_end_fails() {
    let mut data = vec![1u8, 2];
    assert_eq!(
        insert_hex_at_offset(&mut data, 3, "FF"),
        Err(PatchError::InsertOutOfRange { offset: 3 })
    );
    assert_eq!(data, vec![1, 2]);
}

#[test]
fn out_of_range_replace_fails_cleanly() {
    let mut data = vec![9u8, 8, 7, 6];
    assert_eq!(
        replace_hex_at_offset(&mut data, 3, "AA BB"),
        Err(PatchError::ReplaceOutOfRange { offset: 3 })
    );
    assert_eq!(data, vec![9, 8, 7, 6]);
}

#[test]
fn replace_with_huge_offset_does_not_overflow() {
    let mut data = vec![0u8; 4];
    assert_eq!(
        replace_hex_at_offset(&mut data, usize::MAX, "AA"),
        Err(PatchError::ReplaceOutOfRange { offset: usize::MAX })
    );
    assert_eq!(data, vec![0; 4]);
}

#[test]
fn malformed_payload_is_a_hex_error() {
    let mut data = vec![0u8; 4];
    assert_eq!(replace_hex_at_offset(&mut data, 0, "AA ZZ"), Err(PatchError::HexSyntax));
    assert_eq!(replace_hex_at_offset(&mut data, 0, "A"), Err(PatchError::HexSyntax));
    assert_eq!(replace_hex_at_offset(&mut data, 0, "AAB"), Err(PatchError::HexSyntax));
    assert_eq!(insert_hex_at_offset(&mut data, 0, "0x90"), Err(PatchError::HexSyntax));
    assert_eq!(data, vec![0; 4]);
}

#[test]
fn wildcard_matches_earliest_occurrence() {
    let data = [0x00u8, 0x90, 0x11, 0x90, 0x55, 0x90, 0x90, 0x55, 0x90];
    let data = &data[..];
    // "90 ?? 90" fits at 1 (90 11 90), which is the earliest.
    assert_eq!(wildcard_pattern_scan(data, "90 ?? 90"), Some((1, vec![0x90, 0x11, 0x90])));
    let data = [0x01u8, 0x02, 0x03, 0x90, 0x55, 0x90, 0x04];
    assert_eq!(wildcard_pattern_scan(&data, "90 ?? 90"), Some((3, vec![0x90, 0x55, 0x90])));
}

#[test]
fn wildcard_longer_than_buffer_finds_nothing() {
    assert_eq!(wildcard_pattern_scan(&[0x90u8, 0x90], "90 90 90"), None);
    assert_eq!(wildcard_pattern_scan(&[], "90"), None);
}

#[test]
fn wildcard_without_tokens_fits_at_zero() {
    assert_eq!(wildcard_pattern_scan(&[1u8, 2], "  "), Some((0, vec![])));
    assert_eq!(wildcard_pattern_scan(&[], ""), Some((0, vec![])));
}

#[test]
fn wildcard_with_malformed_token_never_matches() {
    assert_eq!(wildcard_pattern_scan(&[0x90u8, 0x55, 0x90], "90 ZZ 90"), None);
    assert_eq!(wildcard_pattern_scan(&[0x90u8, 0x55, 0x90], "90 ? 90"), None);
    assert_eq!(wildcard_pattern_scan(&[0x90u8, 0x55, 0x90], "90 ??? 90"), None);
}

#[test]
fn wildcard_absent_pattern_finds_nothing() {
    assert_eq!(wildcard_pattern_scan(&[1u8, 2, 3, 4], "02 04"), None);
}

#[test]
fn symbol_lookup_requires_adjacency() {
    let dump = lines(&["Offset: 0x1000", "void Foo()"]);
    assert_eq!(find_offset_by_method_name("Foo", &dump), SymbolLookup::Found(0x1000));
    let dump = lines(&["Offset: 0x1000", "// comment", "void Foo()"]);
    assert_eq!(find_offset_by_method_name("Foo", &dump), SymbolLookup::Unannotated);
}

#[test]
fn symbol_lookup_reports_missing_name() {
    let dump = lines(&["Offset: 0x1000", "void Foo()"]);
    assert_eq!(find_offset_by_method_name("Bar", &dump), SymbolLookup::NotFound);
    assert_eq!(find_offset_by_method_name("Foo", &Vec::new()), SymbolLookup::NotFound);
}

#[test]
fn symbol_lookup_stops_at_first_mention() {
    let dump = lines(&["int Foo;", "// RVA: 0x10 Offset: 0xABCdef VA: 0x20", "void Foo()"]);
    assert_eq!(find_offset_by_method_name("Foo", &dump), SymbolLookup::Unannotated);
    assert_eq!(find_offset_by_method_name("void Foo", &dump), SymbolLookup::Found(0xABCDEF));
}

#[test]
fn symbol_on_first_line_has_no_annotation() {
    let dump = lines(&["Offset: 0x10 Foo"]);
    assert_eq!(find_offset_by_method_name("Foo", &dump), SymbolLookup::Unannotated);
}

#[test]
fn symbol_annotation_allows_space_after_colon() {
    let dump = lines(&["Offset:0x1F", "A", "Offset: \t 0x2f", "B", "Offset: 1F", "C"]);
    assert_eq!(find_offset_by_method_name("A", &dump), SymbolLookup::Found(0x1F));
    assert_eq!(find_offset_by_method_name("B", &dump), SymbolLookup::Found(0x2F));
    assert_eq!(find_offset_by_method_name("C", &dump), SymbolLookup::Unannotated);
}

#[test]
fn symbol_annotation_too_large_is_unusable() {
    let dump = lines(&["Offset: 0x10000000000000000000000000000000000", "Foo"]);
    assert_eq!(find_offset_by_method_name("Foo", &dump), SymbolLookup::Unannotated);
}

#[test]
fn validation_rejects_ambiguous_descriptors() {
    let mut both = replacing(at_offset("0x10"), "90");
    both.wildcard = Some("90 ??".to_string());
    assert!(!validate_patch_structure(&both));
    assert!(!validate_patch_structure(&at_offset("0x10")));
    assert!(!validate_patch_structure(&replacing(PatchDescriptor::default(), "90")));
    assert!(!validate_patch_structure(&inserting(replacing(at_offset("0"), "90"), "90")));
    assert!(validate_patch_structure(&replacing(at_offset("0x10"), "90")));
    assert!(validate_patch_structure(&inserting(at_offset("0x10"), "90")));
}

#[test]
fn position_combines_match_prefix_with_payload() {
    let mut data = vec![0x00u8, 0x90, 0x55, 0x90, 0x11, 0x00];
    let mut patch = replacing(PatchDescriptor::default(), "AA BB");
    patch.wildcard = Some("90 ?? 90 11".to_string());
    patch.position = Some(2);
    let matched = [0x90u8, 0x55, 0x90, 0x11];
    assert_eq!(
        apply_patch(&mut data, 1, &patch, Some(&matched)),
        Ok((Action::Replaced, vec![0x90, 0x55, 0xAA, 0xBB]))
    );
    assert_eq!(data, vec![0x00, 0x90, 0x55, 0xAA, 0xBB, 0x00]);
}

#[test]
fn position_beyond_match_is_an_error() {
    let mut data = vec![0x90u8, 0x55];
    let mut patch = replacing(PatchDescriptor::default(), "AA");
    patch.position = Some(3);
    assert_eq!(
        apply_patch(&mut data, 0, &patch, Some(&[0x90, 0x55])),
        Err(PatchError::PositionExceedsMatch)
    );
    assert_eq!(data, vec![0x90, 0x55]);
}

#[test]
fn position_without_match_is_ignored() {
    let mut data = vec![1u8, 2, 3];
    let mut patch = inserting(at_offset("1"), "AA");
    patch.position = Some(7);
    assert_eq!(apply_patch(&mut data, 1, &patch, None), Ok((Action::Inserted, vec![0xAA])));
    assert_eq!(data, vec![1, 0xAA, 2, 3]);
}

#[test]
fn apply_without_payload_is_an_error() {
    let mut data = vec![1u8, 2, 3];
    assert_eq!(apply_patch(&mut data, 0, &at_offset("0"), None), Err(PatchError::MissingPayload));
}

#[test]
fn resolve_reads_literal_offsets() {
    let data = [0u8; 4];
    let resolved = |offset: usize| Resolution::Resolved { offset, matched: None };
    assert_eq!(resolve_target(&at_offset("0x1A2B"), &data, None), resolved(0x1A2B));
    assert_eq!(resolve_target(&at_offset("1a2b"), &data, None), resolved(0x1A2B));
    assert_eq!(resolve_target(&at_offset("0x0"), &data, None), resolved(0));
    for bad in ["", "0x", "0X10", "0x0x10", "+10", "12G", " 12", "100000000000000000000"] {
        assert_eq!(
            resolve_target(&at_offset(bad), &data, None),
            Resolution::Error { detail: PatchError::OffsetSyntax }
        );
    }
}

#[test]
fn resolve_symbol_needs_a_dump() {
    let patch = PatchDescriptor { method_name: Some("Foo".to_string()), ..Default::default() };
    assert_eq!(
        resolve_target(&patch, &[], None),
        Resolution::Skipped { reason: SkipReason::DumpRequired }
    );
    let dump = lines(&["Offset: 0x20", "Foo"]);
    assert_eq!(
        resolve_target(&patch, &[], Some(&dump)),
        Resolution::Resolved { offset: 0x20, matched: None }
    );
    let dump = lines(&["Bar"]);
    assert_eq!(
        resolve_target(&patch, &[], Some(&dump)),
        Resolution::Skipped { reason: SkipReason::SymbolNotFound }
    );
    let dump = lines(&["", "Foo"]);
    assert_eq!(
        resolve_target(&patch, &[], Some(&dump)),
        Resolution::Skipped { reason: SkipReason::SymbolUnannotated }
    );
}

#[test]
fn resolve_wildcard_returns_matched_bytes() {
    let patch = PatchDescriptor { wildcard: Some("02 ??".to_string()), ..Default::default() };
    assert_eq!(
        resolve_target(&patch, &[1, 2, 3, 2, 4], None),
        Resolution::Resolved { offset: 1, matched: Some(vec![2, 3]) }
    );
    assert_eq!(
        resolve_target(&patch, &[1, 3], None),
        Resolution::Skipped { reason: SkipReason::PatternNotFound }
    );
    assert_eq!(
        resolve_target(&PatchDescriptor::default(), &[1, 3], None),
        Resolution::Skipped { reason: SkipReason::NoSelector }
    );
}

#[test]
fn end_to_end_replace_in_zeroed_buffer() {
    let mut data = vec![0u8; 16];
    let patches = vec![replacing(at_offset("0x04"), "DE AD BE EF")];
    let report = patch_code(&mut data, &patches, None);
    assert_eq!(report.result, Ok(()));
    assert_eq!(
        report.events,
        vec![PatchEvent::Applied {
            offset: 4,
            action: Action::Replaced,
            bytes: vec![0xDE, 0xAD, 0xBE, 0xEF]
        }]
    );
    assert_eq!(data, vec![0, 0, 0, 0, 0xDE, 0xAD, 0xBE, 0xEF, 0, 0, 0, 0, 0, 0, 0, 0]);
}

#[test]
fn job_runs_descriptors_against_the_grown_buffer() {
    let mut data = vec![0x10u8, 0x20, 0x30];
    let mut wild = replacing(PatchDescriptor::default(), "FF");
    wild.wildcard = Some("AA ?? 30".to_string());
    wild.position = Some(2);
    let patches = vec![
        inserting(at_offset("1"), "AA"),
        wild,
        replacing(at_offset("0x10"), "00"),
        PatchDescriptor {
            method_name: Some("Foo".to_string()),
            hex_insert: Some("01".to_string()),
            ..Default::default()
        },
    ];
    let report = patch_code(&mut data, &patches, None);
    assert_eq!(report.result, Ok(()));
    assert_eq!(data, vec![0x10, 0xAA, 0x20, 0xFF]);
    assert_eq!(
        report.events,
        vec![
            PatchEvent::Applied { offset: 1, action: Action::Inserted, bytes: vec![0xAA] },
            PatchEvent::Applied {
                offset: 1,
                action: Action::Replaced,
                bytes: vec![0xAA, 0x20, 0xFF]
            },
            PatchEvent::Error {
                target: "0x10".to_string(),
                detail: PatchError::ReplaceOutOfRange { offset: 0x10 }
            },
            PatchEvent::Skipped { reason: SkipReason::DumpRequired, target: "Foo".to_string() },
        ]
    );
}

#[test]
fn malformed_descriptor_stops_the_job() {
    let mut data = vec![1u8, 2, 3];
    let patches = vec![
        replacing(at_offset("0"), "AA"),
        at_offset("1"),
        replacing(at_offset("2"), "BB"),
    ];
    let report = patch_code(&mut data, &patches, None);
    assert_eq!(report.result, Err(JobError::MalformedDescriptor { index: 1 }));
    assert_eq!(report.events.len(), 1);
    assert_eq!(data, vec![0xAA, 2, 3]);
}

#[test]
fn empty_buffer_fails_the_job() {
    let mut data = Vec::new();
    let report = patch_code(&mut data, &[replacing(at_offset("0"), "AA")].into(), None);
    assert_eq!(report.result, Err(JobError::EmptyBuffer));
    assert_eq!(
        report.events,
        vec![PatchEvent::Error {
            target: "0".to_string(),
            detail: PatchError::ReplaceOutOfRange { offset: 0 }
        }]
    );
    let mut data = Vec::new();
    let report = patch_code(&mut data, &[inserting(at_offset("0"), "AA")].into(), None);
    assert_eq!(report.result, Ok(()));
    assert_eq!(data, vec![0xAA]);
}

#[test]
fn job_with_symbol_target_uses_the_dump() {
    let mut data = vec![0u8; 8];
    let dump = lines(&["// Namespace: Game", "\t// RVA: 0x2 Offset: 0x2", "\tpublic void Foo() { }"]);
    let patches = vec![PatchDescriptor {
        method_name: Some("void Foo".to_string()),
        hex_replace: Some("C3 90".to_string()),
        ..Default::default()
    }];
    let report = patch_code(&mut data, &patches, Some(&dump));
    assert_eq!(report.result, Ok(()));
    assert_eq!(data, vec![0, 0, 0xC3, 0x90, 0, 0, 0, 0]);
}
