use near_rust_allocator_proxy::header::{MISSING_TRACE, SKIPPED_TRACE};
use near_rust_allocator_proxy::sampler::{
    is_ignored_symbol, is_noise_frame, murmur64, AddressCache, FrameWalk, Probe, WalkStep,
    SKIP_ADDR,
};

#[test]
fn murmur64_known_values() {
    assert_eq!(murmur64(0), 0);
    assert_eq!(murmur64(1), 12994781566227106604);
    assert_eq!(murmur64(0x1234), 11969492833970939502);
}

#[test]
fn cache_settles_an_address_after_one_classification() {
    let mut cache = AddressCache::new();
    let a = 0x401000u64;
    assert_eq!(cache.probe(a), Probe::Unknown);
    cache.record(a, false);
    assert_eq!(cache.probe(a), Probe::Known);
    assert_eq!(cache.probe(a), Probe::Known);
    let b = 0x402000u64;
    assert_eq!(cache.probe(b), Probe::Unknown);
    cache.record(b, true);
    assert_eq!(cache.probe(b), Probe::Noise);
    assert_eq!(cache.probe(b), Probe::Noise);
}

#[test]
fn sentinels_and_high_addresses_are_uninteresting() {
    let cache = AddressCache::new();
    assert_eq!(cache.probe(0), Probe::Uninteresting);
    assert_eq!(cache.probe(SKIPPED_TRACE), Probe::Uninteresting);
    assert_eq!(cache.probe(MISSING_TRACE), Probe::Uninteresting);
    assert_eq!(cache.probe(SKIP_ADDR), Probe::Uninteresting);
    assert_eq!(cache.probe(SKIP_ADDR - 1), Probe::Unknown);
}

#[test]
fn runtime_symbols_are_ignored() {
    assert!(is_ignored_symbol("_ZN4core3fmt5write17h0123456789abcdefE"));
    assert!(is_ignored_symbol("__rg_alloc"));
    assert!(is_ignored_symbol("_ZN3std2rt10lang_start17h0123456789abcdefE"));
    assert!(is_ignored_symbol("_ZN98_$LT$alloc..vec..Vec$LT$T$GT$$u20$as$u20$Clone$GT$5clone17hE"));
    assert!(!is_ignored_symbol("_ZN7example9something17h0123456789abcdefE"));
    assert!(!is_ignored_symbol(""));
    assert!(!is_ignored_symbol("main"));
    // A prefix counts only at the start.
    assert!(!is_ignored_symbol("x_ZN4core"));
}

#[test]
fn noise_frame_when_any_name_is_ignored() {
    assert!(!is_noise_frame(&vec![]));
    assert!(!is_noise_frame(&vec!["_ZN7example4mainE".to_string()]));
    assert!(is_noise_frame(&vec![
        "_ZN7example4mainE".to_string(),
        "_ZN5alloc5alloc5allocE".to_string()
    ]));
}

#[test]
fn walk_skips_frame_zero_and_returns_first_meaningful() {
    let mut cache = AddressCache::new();
    let frames = vec![0x400000u64, SKIP_ADDR + 5, 0x401000, 0x402000, 0x403000];
    let mut walk = FrameWalk::new(frames.clone());
    // The high address is passed over; the next one needs a verdict.
    assert_eq!(walk.step(&cache), WalkStep::Classify(0x401000));
    assert_eq!(walk.settle(&mut cache, true), None);
    assert_eq!(walk.step(&cache), WalkStep::Classify(0x402000));
    assert_eq!(walk.settle(&mut cache, false), Some(0x402000));

    // A second walk over the same stack needs no classification.
    let mut again = FrameWalk::new(frames);
    assert_eq!(again.step(&cache), WalkStep::Done(0x402000));
}

#[test]
fn walk_without_meaningful_frame_is_missing() {
    let cache = AddressCache::new();
    let mut walk = FrameWalk::new(vec![0x400000u64]);
    assert_eq!(walk.step(&cache), WalkStep::Done(MISSING_TRACE));
    let mut empty = FrameWalk::new(vec![]);
    assert_eq!(empty.step(&cache), WalkStep::Done(MISSING_TRACE));
    let mut high = FrameWalk::new(vec![0, SKIP_ADDR, SKIP_ADDR + 1, 0]);
    assert_eq!(high.step(&cache), WalkStep::Done(MISSING_TRACE));
}

#[test]
fn walk_stops_at_the_stack_depth_limit() {
    let cache = AddressCache::new();
    let mut frames = vec![0u64; 15];
    frames.push(0x401000);
    let mut walk = FrameWalk::new(frames);
    assert_eq!(walk.step(&cache), WalkStep::Done(MISSING_TRACE));
}
