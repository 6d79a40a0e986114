use ruffbox_scheduler::scheduler::{EvaluateError, Event, Scheduler, SourceType, Tick};
use ruffbox_scheduler::timing::Anomaly;

fn event(source_type: SourceType, timestamp: u64, sample_id: &str) -> Event {
    Event { source_type, timestamp, sample_id: sample_id.to_string() }
}

fn tokens(tick: &Tick) -> Vec<String> {
    tick.events.iter().map(|e| e.sample_id.clone()).collect()
}

fn text(s: &str) -> Option<String> {
    Some(s.to_string())
}

#[test]
fn new_has_the_defaults() {
    let s = Scheduler::new();
    assert!(!s.is_running());
    assert_eq!(s.tempo(), 128_000);
    assert_eq!(s.lookahead(), 100_000_000);
    assert_eq!(s.sequence_count(), 0);
    assert_eq!(s.audio_start_time(), 0);
    assert_eq!(s.browser_start_time(), 0);
    assert_eq!(s.audio_logical_time(), 0);
    assert_eq!(s.browser_logical_time(), 0);
    assert_eq!(s.next_schedule_time(), 0);
    assert!(s.sequence(0).is_none());
}

#[test]
fn set_tempo_and_set_lookahead_replace_the_values() {
    let mut s = Scheduler::new();
    s.set_tempo(250_000);
    s.set_lookahead(50_000_000);
    assert_eq!(s.tempo(), 250_000);
    assert_eq!(s.lookahead(), 50_000_000);
    assert!(!s.is_running());
}

#[test]
fn evaluate_without_text_fails_and_changes_nothing() {
    let mut s = Scheduler::new();
    assert_eq!(s.evaluate(text("bd sn\nhh")), Ok(2));
    assert_eq!(s.evaluate(None), Err(EvaluateError::NoInput));
    assert_eq!(s.sequence_count(), 2);
    assert_eq!(s.sequence(0).unwrap().len(), 2);
    assert_eq!(s.sequence(1).unwrap().len(), 1);
}

#[test]
fn evaluate_makes_one_sequence_for_each_line_that_is_not_blank() {
    let mut s = Scheduler::new();
    assert_eq!(s.evaluate(text("\n\nbd sn\n   \n\nhh hh hh\n\t\ncp\n\n")), Ok(3));
    assert_eq!(s.sequence_count(), 3);
    assert_eq!(s.sequence(0).unwrap().len(), 2);
    assert_eq!(s.sequence(1).unwrap().len(), 3);
    assert_eq!(s.sequence(2).unwrap().len(), 1);
    assert!(s.sequence(3).is_none());
}

#[test]
fn evaluate_counts_the_same_with_and_without_blank_lines() {
    let mut a = Scheduler::new();
    let mut b = Scheduler::new();
    assert_eq!(a.evaluate(text("bd\nsn\nhh")), Ok(3));
    assert_eq!(b.evaluate(text("\nbd\n\n \nsn\n\t\n\nhh\n\n")), Ok(3));
    let ta = a.start(0, 0);
    let tb = b.start(0, 0);
    assert_eq!(ta, tb);
}

#[test]
fn evaluate_of_an_empty_text_drops_every_sequence() {
    let mut s = Scheduler::new();
    assert_eq!(s.evaluate(text("bd\nsn")), Ok(2));
    assert_eq!(s.evaluate(text("")), Ok(0));
    assert_eq!(s.sequence_count(), 0);
    assert_eq!(s.evaluate(text(" \n\t\n")), Ok(0));
    assert_eq!(s.sequence_count(), 0);
}

#[test]
fn evaluate_with_fewer_lines_drops_the_surplus_and_keeps_the_cursors() {
    let mut s = Scheduler::new();
    assert_eq!(s.evaluate(text("a b c\nd e f\ng h i")), Ok(3));
    s.start(0, 0);
    s.scheduler_routine(128_000);
    assert_eq!(s.sequence(0).unwrap().cursor(), 2);
    assert_eq!(s.sequence(1).unwrap().cursor(), 2);
    assert_eq!(s.evaluate(text("a b c\n\nd e f x")), Ok(2));
    assert_eq!(s.sequence_count(), 2);
    assert_eq!(s.sequence(0).unwrap().cursor(), 2);
    assert_eq!(s.sequence(1).unwrap().cursor(), 2);
    assert_eq!(s.sequence(1).unwrap().len(), 4);
    let tick = s.scheduler_routine(256_000);
    assert_eq!(tokens(&tick), vec!["c".to_string(), "f".to_string()]);
}

#[test]
fn evaluate_with_a_shorter_line_moves_the_cursor_to_its_last_token() {
    let mut s = Scheduler::new();
    assert_eq!(s.evaluate(text("a b c")), Ok(1));
    s.start(0, 0);
    s.scheduler_routine(128_000);
    assert_eq!(s.sequence(0).unwrap().cursor(), 2);
    assert_eq!(s.evaluate(text("x")), Ok(1));
    assert_eq!(s.sequence(0).unwrap().cursor(), 0);
}

#[test]
fn evaluate_with_more_lines_adds_sequences_that_start_at_their_first_token() {
    let mut s = Scheduler::new();
    assert_eq!(s.evaluate(text("a b")), Ok(1));
    s.start(0, 0);
    assert_eq!(s.evaluate(text("a b\nc d")), Ok(2));
    let tick = s.scheduler_routine(128_000);
    assert_eq!(tokens(&tick), vec!["b".to_string(), "c".to_string()]);
}

#[test]
fn start_sets_the_origins_and_ticks_once() {
    let mut s = Scheduler::new();
    assert_eq!(s.evaluate(text("sine bd")), Ok(1));
    assert!(s.can_start(2_000_000_000, 5_000_000));
    let tick = s.start(2_000_000_000, 5_000_000);
    assert!(s.is_running());
    assert_eq!(s.audio_start_time(), 2_000_000_000);
    assert_eq!(s.browser_start_time(), 5_000_000);
    assert_eq!(
        tick,
        Tick {
            events: vec![event(SourceType::SinOsc, 2_100_000_000, "sine")],
            next_delay: Some(128_000),
            anomaly: None,
        }
    );
    assert_eq!(s.audio_logical_time(), 2_128_000_000);
    assert_eq!(s.browser_logical_time(), 5_128_000);
    assert_eq!(s.next_schedule_time(), 128_000);
}

#[test]
fn a_tick_stamps_events_with_media_time_plus_lookahead() {
    let mut s = Scheduler::new();
    s.set_lookahead(7);
    s.set_tempo(10);
    assert_eq!(s.evaluate(text("bd\nsine\n~\nsn")), Ok(4));
    let first = s.start(1_000, 50);
    assert_eq!(
        first.events,
        vec![
            event(SourceType::Sampler, 1_007, "bd"),
            event(SourceType::SinOsc, 1_007, "sine"),
            event(SourceType::Sampler, 1_007, "sn"),
        ]
    );
    let second = s.scheduler_routine(60);
    assert_eq!(
        second.events,
        vec![
            event(SourceType::Sampler, 11_007, "bd"),
            event(SourceType::SinOsc, 11_007, "sine"),
            event(SourceType::Sampler, 11_007, "sn"),
        ]
    );
}

#[test]
fn a_tick_sends_nothing_for_a_rest() {
    let mut s = Scheduler::new();
    assert_eq!(s.evaluate(text("bd ~ sn ~")), Ok(1));
    assert_eq!(tokens(&s.start(0, 0)), vec!["bd".to_string()]);
    assert_eq!(tokens(&s.scheduler_routine(128_000)), Vec::<String>::new());
    assert_eq!(tokens(&s.scheduler_routine(256_000)), vec!["sn".to_string()]);
    assert_eq!(tokens(&s.scheduler_routine(384_000)), Vec::<String>::new());
    assert_eq!(tokens(&s.scheduler_routine(512_000)), vec!["bd".to_string()]);
}

#[test]
fn only_the_token_sine_is_played_by_the_oscillator() {
    let mut s = Scheduler::new();
    assert_eq!(s.evaluate(text("sine\nSine\nsines\nsin\nbd")), Ok(5));
    let tick = s.start(0, 0);
    let kinds: Vec<SourceType> = tick.events.iter().map(|e| e.source_type).collect();
    assert_eq!(
        kinds,
        vec![
            SourceType::SinOsc,
            SourceType::Sampler,
            SourceType::Sampler,
            SourceType::Sampler,
            SourceType::Sampler,
        ]
    );
}

#[test]
fn a_tick_without_sequences_still_moves_the_clocks() {
    let mut s = Scheduler::new();
    let tick = s.start(1_000_000, 2_000);
    assert_eq!(tick, Tick { events: vec![], next_delay: Some(128_000), anomaly: None });
    assert_eq!(s.audio_logical_time(), 129_000_000);
    assert_eq!(s.browser_logical_time(), 130_000);
    let tick = s.scheduler_routine(130_500);
    assert_eq!(tick, Tick { events: vec![], next_delay: Some(127_500), anomaly: None });
    assert_eq!(s.audio_logical_time(), 257_000_000);
    assert_eq!(s.browser_logical_time(), 258_000);
}

#[test]
fn a_late_tick_shortens_the_next_wait() {
    let mut s = Scheduler::new();
    s.start(0, 1_000_000);
    let tick = s.scheduler_routine(1_128_000 + 3_250);
    assert_eq!(tick.next_delay, Some(124_750));
    assert_eq!(tick.anomaly, None);
    assert_eq!(s.next_schedule_time(), 124_750);
    assert_eq!(s.browser_logical_time(), 1_256_000);
}

#[test]
fn a_tick_late_by_a_tick_or_more_waits_nothing() {
    let mut s = Scheduler::new();
    s.start(0, 0);
    let tick = s.scheduler_routine(128_000 + 128_000);
    assert_eq!(tick.next_delay, Some(0));
    assert_eq!(tick.anomaly, None);
    let tick = s.scheduler_routine(256_000 + 500_000);
    assert_eq!(tick.next_delay, Some(0));
    assert_eq!(tick.anomaly, Some(Anomaly::Overrun));
    assert_eq!(s.next_schedule_time(), 0);
    assert_eq!(s.browser_logical_time(), 384_000);
}

#[test]
fn a_host_time_that_goes_back_is_flagged_and_waits_a_whole_tick() {
    let mut s = Scheduler::new();
    s.start(0, 1_000_000);
    let tick = s.scheduler_routine(900_000);
    assert_eq!(tick.next_delay, Some(128_000));
    assert_eq!(tick.anomaly, Some(Anomaly::Early));
    assert_eq!(s.browser_logical_time(), 1_256_000);
    assert_eq!(s.audio_logical_time(), 256_000_000);
}

#[test]
fn set_tempo_takes_effect_with_the_next_tick() {
    let mut s = Scheduler::new();
    s.start(0, 0);
    assert_eq!(s.browser_logical_time(), 128_000);
    s.set_tempo(200_000);
    assert_eq!(s.browser_logical_time(), 128_000);
    assert_eq!(s.audio_logical_time(), 128_000_000);
    let tick = s.scheduler_routine(129_000);
    assert_eq!(tick.next_delay, Some(199_000));
    assert_eq!(s.browser_logical_time(), 328_000);
    assert_eq!(s.audio_logical_time(), 328_000_000);
}

#[test]
fn a_tick_before_start_does_nothing() {
    let mut s = Scheduler::new();
    assert_eq!(s.evaluate(text("bd")), Ok(1));
    assert!(s.can_tick());
    let tick = s.scheduler_routine(1_000);
    assert_eq!(tick, Tick { events: vec![], next_delay: None, anomaly: None });
    assert_eq!(s.audio_logical_time(), 0);
    assert_eq!(s.browser_logical_time(), 0);
    assert_eq!(s.sequence(0).unwrap().cursor(), 0);
}

#[test]
fn a_tick_after_stop_sends_nothing_and_asks_for_no_further_tick() {
    let mut s = Scheduler::new();
    assert_eq!(s.evaluate(text("a b c")), Ok(1));
    let first = s.start(0, 0);
    assert_eq!(first.next_delay, Some(128_000));
    s.stop();
    assert!(!s.is_running());
    let audio: u64 = s.audio_logical_time();
    let browser: u64 = s.browser_logical_time();
    let wait: u64 = s.next_schedule_time();
    let tick = s.scheduler_routine(128_000);
    assert_eq!(tick, Tick { events: vec![], next_delay: None, anomaly: None });
    assert_eq!(s.audio_logical_time(), audio);
    assert_eq!(s.browser_logical_time(), browser);
    assert_eq!(s.next_schedule_time(), wait);
    assert_eq!(s.sequence(0).unwrap().cursor(), 1);
}

#[test]
fn start_after_stop_begins_the_clocks_anew_and_keeps_the_cursors() {
    let mut s = Scheduler::new();
    assert_eq!(s.evaluate(text("a b c")), Ok(1));
    s.start(0, 0);
    s.stop();
    let tick = s.start(9_000_000_000, 9_000_000);
    assert_eq!(tick.events, vec![event(SourceType::Sampler, 9_100_000_000, "b")]);
    assert_eq!(s.audio_start_time(), 9_000_000_000);
    assert_eq!(s.browser_logical_time(), 9_128_000);
}

#[test]
fn replacing_a_line_keeps_the_cursor_of_its_sequence() {
    let mut s = Scheduler::new();
    assert_eq!(s.evaluate(text("sine bd")), Ok(1));
    assert_eq!(s.evaluate(text("sine bd sn")), Ok(1));
    assert_eq!(s.sequence_count(), 1);
    assert_eq!(s.sequence(0).unwrap().len(), 3);
    let first = s.start(0, 0);
    let second = s.scheduler_routine(128_000);
    assert_eq!(first.events, vec![event(SourceType::SinOsc, 100_000_000, "sine")]);
    assert_eq!(second.events, vec![event(SourceType::Sampler, 228_000_000, "bd")]);
}

#[test]
fn replacing_a_line_while_playing_goes_on_from_the_cursor() {
    let mut s = Scheduler::new();
    assert_eq!(s.evaluate(text("sine bd")), Ok(1));
    assert_eq!(tokens(&s.start(0, 0)), vec!["sine".to_string()]);
    assert_eq!(s.evaluate(text("sine bd sn")), Ok(1));
    assert_eq!(tokens(&s.scheduler_routine(128_000)), vec!["bd".to_string()]);
    assert_eq!(tokens(&s.scheduler_routine(256_000)), vec!["sn".to_string()]);
    assert_eq!(tokens(&s.scheduler_routine(384_000)), vec!["sine".to_string()]);
}

#[test]
fn can_tick_and_can_start_tell_when_the_clocks_are_full() {
    let mut s = Scheduler::new();
    assert!(s.can_start(0, 0));
    assert!(s.can_start(u64::MAX - 128_000_000, u64::MAX - 128_000));
    assert!(!s.can_start(u64::MAX - 127_999_999, 0));
    assert!(!s.can_start(0, u64::MAX - 127_999));
    assert_eq!(s.evaluate(text("bd")), Ok(1));
    assert!(s.can_start(u64::MAX - 128_000_000, 0));
    s.set_lookahead(128_000_001);
    assert!(!s.can_start(u64::MAX - 128_000_000, 0));
    s.set_lookahead(0);
    s.set_tempo(u64::MAX / 1000);
    assert!(s.can_start(u64::MAX % 1000, 0));
    assert!(!s.can_start(u64::MAX % 1000 + 1, 0));
    s.set_tempo(u64::MAX / 1000 + 1);
    assert!(!s.can_start(0, 0));
    assert!(s.can_tick());
    s.set_tempo(u64::MAX / 2000);
    s.start(0, 0);
    assert!(s.can_tick());
    s.scheduler_routine(0);
    assert!(!s.can_tick());
    s.stop();
    assert!(s.can_tick());
}

#[test]
fn ticks_keep_their_pace_whatever_the_times_at_which_they_fire() {
    let mut s = Scheduler::new();
    assert_eq!(s.evaluate(text("a b c")), Ok(1));
    s.start(1_000_000_000, 10_000_000);
    let late: [u64; 6] = [0, 1_500, 127_999, 128_000, 400_000, 17];
    let mut count: u64 = 1;
    for overshoot in late {
        let scheduled: u64 = s.browser_logical_time();
        assert_eq!(scheduled, 10_000_000 + count * 128_000);
        let tick = s.scheduler_routine(scheduled + overshoot);
        let expected: u64 = if overshoot >= 128_000 { 0 } else { 128_000 - overshoot };
        assert_eq!(tick.next_delay, Some(expected));
        let token = ["a", "b", "c"][(count % 3) as usize];
        assert_eq!(
            tick.events,
            vec![event(SourceType::Sampler, 1_100_000_000 + count * 128_000_000, token)]
        );
        count += 1;
    }
    assert_eq!(s.browser_logical_time(), 10_000_000 + 7 * 128_000);
    assert_eq!(s.audio_logical_time(), 1_000_000_000 + 7 * 128_000_000);
    assert_eq!(s.sequence(0).unwrap().cursor(), 1);
}

#[test]
fn blank_lines_take_no_place_among_the_sequences() {
    let mut s = Scheduler::new();
    assert_eq!(s.evaluate(text("a c\n\n\nb")), Ok(2));
    let tick = s.start(0, 0);
    assert_eq!(tokens(&tick), vec!["a".to_string(), "b".to_string()]);
    assert_eq!(s.evaluate(text("\n\nx y\n")), Ok(1));
    assert_eq!(s.sequence(0).unwrap().cursor(), 1);
    assert_eq!(tokens(&s.scheduler_routine(128_000)), vec!["y".to_string()]);
}
