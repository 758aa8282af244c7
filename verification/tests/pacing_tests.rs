//! Audio back-pressure pacing and the ticker's decisions.

use oxretro::audio::attenuate;
use oxretro::audio::ticker_next;
use oxretro::audio::AudioPacing;
use oxretro::audio::TickerAction;

#[test]
fn threshold_for_32khz_is_1066() {
    // 32000 / 60 * 2 == 1066: below it the next frame may run.
    let mut pacing = AudioPacing::new(32000);
    assert!(pacing.is_done());
    pacing.submit(4000);
    assert!(!pacing.is_done());
    // Drain down to the threshold: 1066 queued is still too many...
    for _ in 0..(4000 - 1066) {
        pacing.take_sample();
    }
    assert_eq!(pacing.frames_queued, 1066);
    assert!(!pacing.is_done());
    // ...and one fewer lets the next frame through.
    pacing.take_sample();
    assert_eq!(pacing.frames_queued, 1065);
    assert!(pacing.is_done());
}

#[test]
fn occupancy_counts_submissions_and_playback() {
    let mut pacing = AudioPacing::new(48000);
    pacing.submit(100);
    pacing.submit(50);
    assert_eq!(pacing.frames_queued, 150);
    pacing.take_sample();
    assert_eq!(pacing.frames_queued, 149);
    // The device can outrun the core: the count goes negative.
    let mut starved = AudioPacing::new(48000);
    starved.take_sample();
    assert_eq!(starved.frames_queued, -1);
    assert!(starved.is_done());
}

#[test]
fn attenuation_quarters_each_sample() {
    let out = attenuate(&[0, 4, 7, -4, -7, i16::MAX, i16::MIN]);
    assert_eq!(out, vec![0, 1, 1, -1, -1, i16::MAX / 4, i16::MIN / 4]);
}

#[test]
fn ticker_decisions() {
    assert_eq!(ticker_next(true, false, true), TickerAction::Shutdown);
    assert_eq!(ticker_next(true, true, false), TickerAction::Shutdown);
    assert_eq!(ticker_next(false, true, true), TickerAction::AwaitRun);
    assert_eq!(ticker_next(false, false, false), TickerAction::Sleep);
    assert_eq!(ticker_next(false, false, true), TickerAction::IssueRun);
}
