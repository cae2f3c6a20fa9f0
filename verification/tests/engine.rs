use bbman::audio::{Codec, Format, Sound};
use bbman::game::{RunAction, RunState, Target, VideoProfile};
use bbman::geom::{abs_i64, axis_step, clamp_pos, div_to_zero, min_mag, Vec3, MAX_POS, SUB};
use bbman::time::{duration_to_millis, duration_to_nanos, duration_to_seconds, DeltaTimer};

#[test]
fn format_arithmetic() {
    let format = Format { channels: 2, rate: 48000 };
    assert_eq!(format.samplerate(), 48000);
    assert_eq!(format.channels(), 2);
    assert_eq!(format.bytes_per_second(), 192000);
}

#[test]
fn sound_new_keeps_fields() {
    let format = Format { channels: 1, rate: 8000 };
    let sound = Sound::new(format, vec![1, -2, 3]);
    assert_eq!(sound.format, format);
    assert_eq!(sound.data, vec![1, -2, 3]);
    assert_eq!(Codec::Wave, Codec::Wave);
    assert_ne!(Codec::Wave, Codec::Vorbis);
}

#[test]
fn duration_conversions_exact() {
    assert_eq!(duration_to_millis(2, 345_678_901), 2345);
    assert_eq!(duration_to_millis(0, 999_999), 0);
    assert_eq!(duration_to_nanos(2, 345_678_901), 2_345_678_901);
    assert_eq!(duration_to_seconds(2, 499_999_999), 2);
    assert_eq!(duration_to_seconds(2, 500_000_000), 3);
}

#[test]
fn duration_conversions_saturate() {
    assert_eq!(duration_to_millis(u64::MAX, 0), u64::MAX);
    assert_eq!(duration_to_nanos(u64::MAX / 2, 0), u64::MAX);
    assert_eq!(duration_to_seconds(u64::MAX, 999_999_999), u64::MAX);
}

#[test]
fn delta_timer_first_reading_is_zero_based() {
    let mut timer = DeltaTimer::new();
    let first = timer.duration();
    assert_eq!(first.as_secs(), 0);
    // A second reading right away stays tiny; mostly this checks that
    // reading and resetting never panic.
    let _ = timer.delta_millis();
    let _ = timer.delta_nanos();
    let _ = timer.delta_seconds();
    timer.reset();
    let again = timer.duration();
    assert_eq!(again.as_secs(), 0);
}

#[test]
fn run_state_tags() {
    assert_eq!(RunState::Running.into_u8(), 0);
    assert_eq!(RunState::Paused.into_u8(), 1);
    assert_eq!(RunState::Available.into_u8(), 2);
    assert_eq!(RunState::Dead.into_u8(), 3);
}

#[test]
fn run_state_transitions() {
    assert_eq!(
        RunState::Running.advance(Target::Pause),
        (RunState::Paused, RunAction::PauseScene)
    );
    assert_eq!(
        RunState::Running.advance(Target::Return),
        (RunState::Available, RunAction::UnloadScene)
    );
    assert_eq!(
        RunState::Running.advance(Target::Quit),
        (RunState::Dead, RunAction::UnloadScene)
    );
    assert_eq!(
        RunState::Running.advance(Target::Unset),
        (RunState::Running, RunAction::Keep)
    );
    assert_eq!(
        RunState::Paused.advance(Target::Continue),
        (RunState::Running, RunAction::UnpauseScene)
    );
    assert_eq!(
        RunState::Paused.advance(Target::Quit),
        (RunState::Paused, RunAction::Keep)
    );
    assert_eq!(
        RunState::Available.advance(Target::Unset),
        (RunState::Running, RunAction::LoadScene)
    );
    assert_eq!(RunState::Dead.advance(Target::Quit), (RunState::Dead, RunAction::Keep));
}

#[test]
fn target_requests() {
    assert_eq!(Target::Unset.request_quit(), Target::Quit);
    assert_eq!(Target::Unset.request_finish(), Target::Return);
    assert_eq!(Target::Unset.request_pause(), Target::Pause);
    // Pausing never overrides quitting or finishing.
    assert_eq!(Target::Quit.request_pause(), Target::Quit);
    assert_eq!(Target::Return.request_pause(), Target::Return);
    // Unpausing only answers a pause request.
    assert_eq!(Target::Pause.request_unpause(), Target::Continue);
    assert_eq!(Target::Unset.request_unpause(), Target::Unset);
}

#[test]
fn video_profile_holds_fields() {
    let profile = VideoProfile {
        width: 800,
        height: 600,
        framerate: 60,
        fullscreen: false,
        vsync: true,
    };
    assert_eq!(profile.width, 800);
    assert_eq!(profile.height, 600);
    assert_eq!(profile.framerate, 60);
    assert!(!profile.fullscreen);
    assert!(profile.vsync);
}

#[test]
fn scalar_helpers() {
    assert_eq!(abs_i64(-5), 5);
    assert_eq!(abs_i64(5), 5);
    assert_eq!(div_to_zero(-7, 2), -3);
    assert_eq!(div_to_zero(7, 2), 3);
    assert_eq!(axis_step(SUB * 3), SUB);
    assert_eq!(axis_step(-SUB * 3), -SUB);
    assert_eq!(axis_step(17), 17);
    assert_eq!(axis_step(-17), -17);
    assert_eq!(axis_step(0), 0);
    assert_eq!(min_mag(-3, 5), -3);
    assert_eq!(min_mag(7, -5), -5);
    assert_eq!(min_mag(4, -4), 4);
    assert_eq!(clamp_pos(MAX_POS + 10), MAX_POS);
    assert_eq!(clamp_pos(-MAX_POS - 10), -MAX_POS);
    assert_eq!(clamp_pos(42), 42);
    assert!(Vec3::zero().is_zero());
    assert!(!Vec3::new(0, 1, 0).is_zero());
}
