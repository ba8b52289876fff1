use timer_res_bench::hpet::classify_timer_source;
use timer_res_bench::hpet::inspect_timer_source;
use timer_res_bench::hpet::HpetStatus;
use timer_res_bench::hpet::KeySetting;
use timer_res_bench::hpet::TimerSourceSettings;

fn classify(upc: Option<KeySetting>, ddt: Option<KeySetting>) -> HpetStatus {
    classify_timer_source(&TimerSourceSettings {
        use_platform_clock: upc,
        disable_dynamic_tick: ddt,
    })
}

#[test]
fn no_and_yes_is_disabled() {
    assert_eq!(classify(Some(KeySetting::No), Some(KeySetting::Yes)), HpetStatus::Disabled);
}

#[test]
fn absent_clock_with_yes_is_disabled() {
    assert_eq!(classify(None, Some(KeySetting::Yes)), HpetStatus::Disabled);
}

#[test]
fn both_absent_is_disabled() {
    assert_eq!(classify(None, None), HpetStatus::Disabled);
}

#[test]
fn anything_else_is_enabled() {
    assert_eq!(classify(Some(KeySetting::Yes), Some(KeySetting::Yes)), HpetStatus::Enabled);
    assert_eq!(classify(Some(KeySetting::No), Some(KeySetting::No)), HpetStatus::Enabled);
    assert_eq!(classify(Some(KeySetting::No), None), HpetStatus::Enabled);
    assert_eq!(classify(None, Some(KeySetting::No)), HpetStatus::Enabled);
    assert_eq!(classify(Some(KeySetting::Other), Some(KeySetting::Yes)), HpetStatus::Enabled);
}

#[test]
fn listing_with_both_keys_reads_out() {
    let listing = b"\nWindows Boot Loader\n-------------------\nidentifier              {current}\nuseplatformclock        No\ndisabledynamictick      Yes\n";
    let s = inspect_timer_source(listing);
    assert_eq!(s.use_platform_clock, Some(KeySetting::No));
    assert_eq!(s.disable_dynamic_tick, Some(KeySetting::Yes));
    assert_eq!(classify_timer_source(&s), HpetStatus::Disabled);
}

#[test]
fn keys_and_values_ignore_ascii_case() {
    let listing = b"UsePlatformClock        NO\nDisableDynamicTick      yEs\n";
    let s = inspect_timer_source(listing);
    assert_eq!(s.use_platform_clock, Some(KeySetting::No));
    assert_eq!(s.disable_dynamic_tick, Some(KeySetting::Yes));
}

#[test]
fn last_occurrence_of_a_key_wins() {
    let listing = b"useplatformclock Yes\nuseplatformclock No\n";
    let s = inspect_timer_source(listing);
    assert_eq!(s.use_platform_clock, Some(KeySetting::No));
    assert_eq!(s.disable_dynamic_tick, None);
}

#[test]
fn unknown_values_read_as_other() {
    let listing = b"useplatformclock maybe\n";
    let s = inspect_timer_source(listing);
    assert_eq!(s.use_platform_clock, Some(KeySetting::Other));
}

#[test]
fn a_key_without_a_value_is_ignored() {
    let listing = b"useplatformclock\ndisabledynamictick      Yes\n";
    let s = inspect_timer_source(listing);
    assert_eq!(s.use_platform_clock, None);
    assert_eq!(s.disable_dynamic_tick, Some(KeySetting::Yes));
}

#[test]
fn empty_listing_reads_nothing() {
    let s = inspect_timer_source(b"");
    assert_eq!(s.use_platform_clock, None);
    assert_eq!(s.disable_dynamic_tick, None);
    assert_eq!(classify_timer_source(&s), HpetStatus::Disabled);
}

#[test]
fn only_first_two_tokens_count() {
    let listing = b"useplatformclock No trailing words here\n";
    let s = inspect_timer_source(listing);
    assert_eq!(s.use_platform_clock, Some(KeySetting::No));
}
