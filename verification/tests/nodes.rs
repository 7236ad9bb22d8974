use datagraph::dsp::ramp::Ramp;
use datagraph::nodes::adsr::{Adsr, AdsrContext, AdsrState, Level};
use datagraph::nodes::clock::ClockDivider;
use datagraph::nodes::delay::Delay;
use datagraph::nodes::monoshot::Monoshot;
use datagraph::nodes::sequencer::Sequencer;
use std::time::Duration;

fn tick(node: &mut ClockDivider, clock: f32, division: f32) -> f32 {
    let division = if division < 1.0 { 0 } else { division as u32 };
    if node.process(clock > 0.5, division) {
        1.0
    } else {
        0.0
    }
}

fn run(node: &mut ClockDivider, clocks: &[f32], division: f32) -> Vec<f32> {
    clocks.iter().map(|&c| tick(node, c, division)).collect()
}

#[test]
fn test_divide_by_1_is_passthrough() {
    let mut d = ClockDivider::new(44100);
    let input = [1.0, 1.0, 0.0, 0.0, 1.0, 1.0, 0.0, 0.0];
    assert_eq!(run(&mut d, &input, 1.0), input.to_vec());
}

#[test]
fn test_divide_by_2() {
    let mut d = ClockDivider::new(44100);
    let input = [1.0, 1.0, 0.0, 0.0, 1.0, 1.0, 0.0, 0.0];
    assert_eq!(
        run(&mut d, &input, 2.0),
        vec![0.0, 0.0, 0.0, 0.0, 1.0, 1.0, 0.0, 0.0]
    );
}

#[test]
fn test_divide_by_2_repeats_correctly() {
    let mut d = ClockDivider::new(44100);
    let input = [
        1.0, 1.0, 0.0, 0.0, 1.0, 1.0, 0.0, 0.0, 1.0, 1.0, 0.0, 0.0, 1.0, 1.0, 0.0, 0.0,
    ];
    assert_eq!(
        run(&mut d, &input, 2.0),
        vec![
            0.0, 0.0, 0.0, 0.0, 1.0, 1.0, 0.0, 0.0, 0.0, 0.0, 0.0, 0.0, 1.0, 1.0, 0.0, 0.0,
        ]
    );
}

#[test]
fn test_divide_by_4() {
    let mut d = ClockDivider::new(44100);
    let input: Vec<f32> = (0..4).flat_map(|_| [1.0_f32, 1.0, 0.0, 0.0]).collect();
    assert_eq!(
        run(&mut d, &input, 4.0),
        vec![
            0.0, 0.0, 0.0, 0.0, 0.0, 0.0, 0.0, 0.0, 0.0, 0.0, 0.0, 0.0, 1.0, 1.0, 0.0, 0.0,
        ]
    );
}

#[test]
fn test_division_less_than_1_always_low() {
    let mut d = ClockDivider::new(44100);
    let input = [1.0, 1.0, 0.0, 0.0, 1.0, 1.0];
    assert_eq!(run(&mut d, &input, 0.5), vec![0.0; 6]);
}

#[test]
fn divider_state_after_a_counted_edge() {
    let mut d = ClockDivider::new(1);
    assert!(!d.process(true, 3));
    assert!(!d.process(false, 3));
    assert!(!d.process(true, 3));
    assert!(d.process(true, 3) == false);
    assert!(!d.process(false, 3));
    assert!(d.process(true, 3));
    assert!(d.process(true, 3));
    assert!(!d.process(false, 3));
}

fn duration_samples(seconds: f32, sample_rate: u32) -> usize {
    (Duration::from_secs_f32(seconds.max(0.0)).as_secs_f32() * sample_rate as f32) as usize
}

fn process(node: &mut Monoshot, trigger: f32, duration: f32) -> f32 {
    let samples = duration_samples(duration, node.get_sample_rate());
    if node.process(trigger > 0.5, samples) {
        1.0
    } else {
        0.0
    }
}

#[test]
fn test_monoshot_holds_gate_for_duration() {
    let mut m = Monoshot::new(10);

    assert_eq!(process(&mut m, 0.0, 0.3), 0.0);
    assert_eq!(process(&mut m, 1.0, 0.3), 1.0);
    assert_eq!(process(&mut m, 1.0, 0.3), 1.0);
    assert_eq!(process(&mut m, 0.0, 0.3), 1.0);
    assert_eq!(process(&mut m, 0.0, 0.3), 0.0);
}

#[test]
fn test_monoshot_ignores_trigger_while_high() {
    let mut m = Monoshot::new(10);

    process(&mut m, 1.0, 0.3);
    assert_eq!(process(&mut m, 0.0, 0.3), 1.0);
    assert_eq!(process(&mut m, 1.0, 0.3), 1.0);
    assert_eq!(process(&mut m, 0.0, 0.3), 0.0);
}

#[test]
fn test_monoshot_retrigger_after_idle() {
    let mut m = Monoshot::new(10);

    assert_eq!(process(&mut m, 1.0, 0.1), 1.0);
    assert_eq!(process(&mut m, 0.0, 0.1), 0.0);

    assert_eq!(process(&mut m, 1.0, 0.1), 1.0);
    assert_eq!(process(&mut m, 0.0, 0.1), 0.0);
}

#[test]
fn monoshot_pulse_lasts_exactly_the_duration() {
    let mut m = Monoshot::new(1000);
    let mut highs = 0;
    for _ in 0..20 {
        if m.process(true, 7) {
            highs += 1;
        }
    }
    // Held trigger: one pulse of 7 samples, then low while the trigger stays high.
    assert_eq!(highs, 7);
}

#[test]
fn monoshot_zero_duration_gives_a_one_sample_pulse() {
    let mut m = Monoshot::new(10);
    assert!(m.process(true, 0));
    assert!(!m.process(false, 0));
}

#[test]
fn sequencer_steps_on_rising_edges() {
    let mut s = Sequencer::new(44100);
    assert_eq!(s.advance(false), 0);
    assert_eq!(s.advance(true), 1);
    assert_eq!(s.advance(true), 1);
    assert_eq!(s.advance(false), 1);
    assert_eq!(s.advance(true), 2);
    assert_eq!(s.advance(false), 2);
    assert_eq!(s.advance(true), 3);
    assert_eq!(s.advance(false), 3);
    assert_eq!(s.advance(true), 0);
}

fn delay_ms(input: f32) -> usize {
    input.max(0.0) as usize
}

#[test]
fn test_zero_delay() {
    let mut delay = Delay::new(1000, 0.0f32);
    assert_eq!(delay.process(1.0, delay_ms(0.0)), 1.0);
    assert_eq!(delay.process(0.5, delay_ms(0.0)), 0.5);
    assert_eq!(delay.process(0.0, delay_ms(0.0)), 0.0);
}

#[test]
fn test_100ms_delay() {
    let mut delay = Delay::new(1000, 0.0f32);

    for _ in 0..100 {
        assert_eq!(delay.process(1.0, delay_ms(100.0)), 0.0);
    }

    for _ in 0..100 {
        assert_eq!(delay.process(0.0, delay_ms(100.0)), 1.0);
    }

    assert_eq!(delay.process(0.0, delay_ms(100.0)), 0.0);
}

#[test]
fn delay_shortened_reads_more_recent_samples() {
    let mut delay = Delay::new(10, 0i32);
    for i in 1..=5 {
        assert_eq!(delay.process(i, 0), i);
    }
    // 300 ms at 10 Hz is 3 samples: the sample written three steps before.
    assert_eq!(delay.process(6, 300), 3);
    assert_eq!(delay.process(7, 300), 4);
    // Back to 100 ms: one sample behind.
    assert_eq!(delay.process(8, 100), 7);
}

fn level(l: &Level<f32>) -> f32 {
    match l {
        Level::Silent => 0.0,
        Level::Full => 1.0,
        Level::At(v) => *v,
    }
}

fn ramp_value(r: &Ramp<Level<f32>>) -> f32 {
    let start = level(&r.start);
    let target = level(&r.target);
    if r.running_sample == 0 {
        start
    } else if r.running_sample >= r.duration {
        target
    } else {
        start + (r.running_sample as f32 / r.duration as f32) * (target - start)
    }
}

fn value(s: &AdsrState<f32>) -> f32 {
    match s {
        AdsrState::Idle => 0.0,
        AdsrState::Attack(r) | AdsrState::Decay(r) | AdsrState::Release(r) => ramp_value(r),
        AdsrState::Sustain(v) => *v,
    }
}

fn adsr_process(adsr: &mut Adsr<f32>, input: [f32; 5]) -> [f32; 1] {
    let rate = adsr.sample_rate();
    let samples = |s: f32| duration_samples(s, rate);
    let context = AdsrContext {
        gate_on: input[0] > 0.5,
        attack_dur: samples(input[1]),
        decay_dur: samples(input[2]),
        sustain: input[3],
        release_dur: samples(input[4]),
        level: value(adsr.state()),
    };
    let next = adsr.process_sample(context);
    [value(&next)]
}

#[test]
fn adsr_test_adsr() {
    let mut adsr = Adsr::new(16);

    let gate_off = |adsr: &mut Adsr<f32>| adsr_process(adsr, [0.0, 0.25, 0.25, 0.5, 0.25]);
    let gate_on = |adsr: &mut Adsr<f32>| adsr_process(adsr, [1.0, 0.25, 0.25, 0.5, 0.25]);

    assert_eq!(gate_off(&mut adsr), [0.0]);

    assert_eq!(gate_on(&mut adsr), [0.0]);
    assert_eq!(gate_on(&mut adsr), [0.25]);
    assert_eq!(gate_on(&mut adsr), [0.5]);
    assert_eq!(gate_on(&mut adsr), [0.75]);
    assert_eq!(gate_on(&mut adsr), [1.0]);

    assert_eq!(gate_on(&mut adsr), [0.875]);
    assert_eq!(gate_on(&mut adsr), [0.75]);
    assert_eq!(gate_on(&mut adsr), [0.625]);
    assert_eq!(gate_on(&mut adsr), [0.5]);

    for _ in 0..10 {
        assert_eq!(gate_on(&mut adsr), [0.5]);
    }

    assert_eq!(gate_off(&mut adsr), [0.5]);
    assert_eq!(gate_off(&mut adsr), [0.375]);
    assert_eq!(gate_off(&mut adsr), [0.25]);
    assert_eq!(gate_off(&mut adsr), [0.125]);
    assert_eq!(gate_off(&mut adsr), [0.0]);

    assert_eq!(gate_off(&mut adsr), [0.0]);
}

#[test]
fn adsr_phases_on_integer_levels() {
    let mut adsr: Adsr<u8> = Adsr::new(1);
    let ctx = |gate_on: bool| AdsrContext {
        gate_on,
        attack_dur: 2,
        decay_dur: 1,
        sustain: 7u8,
        release_dur: 3,
        level: 0u8,
    };
    assert!(matches!(adsr.process_sample(ctx(false)), AdsrState::Idle));
    assert!(matches!(adsr.process_sample(ctx(true)), AdsrState::Attack(_)));
    assert!(matches!(adsr.process_sample(ctx(true)), AdsrState::Attack(_)));
    assert!(matches!(adsr.process_sample(ctx(true)), AdsrState::Decay(_)));
    assert!(matches!(adsr.process_sample(ctx(true)), AdsrState::Sustain(7)));
    assert!(matches!(adsr.process_sample(ctx(false)), AdsrState::Release(_)));
    assert!(matches!(adsr.process_sample(ctx(false)), AdsrState::Release(_)));
    assert!(matches!(adsr.process_sample(ctx(false)), AdsrState::Release(_)));
    assert!(matches!(adsr.process_sample(ctx(false)), AdsrState::Idle));
}

#[test]
fn ramp_ticks_until_its_duration() {
    let mut ramp = Ramp::new(0u8, 4u8, 4);
    assert_eq!(ramp.duration(), 4);
    assert!(ramp.tick());
    assert!(ramp.tick());
    assert!(ramp.tick());
    assert!(!ramp.tick());
    assert_eq!(ramp.running_sample, 4);
}

#[test]
fn delay_output_is_the_input_of_d_steps_before() {
    let mut delay = Delay::new(10, 0i32);
    let outputs: Vec<i32> = (1..=10).map(|x| delay.process(x, 300)).collect();
    assert_eq!(outputs, vec![0, 0, 0, 1, 2, 3, 4, 5, 6, 7]);
}

fn float_ramp_value(r: &Ramp<f32>) -> f32 {
    if r.running_sample == 0 {
        r.start
    } else if r.running_sample >= r.duration {
        r.target
    } else {
        r.start + (r.running_sample as f32 / r.duration as f32) * (r.target - r.start)
    }
}

#[test]
fn test_ramp() {
    let mut ramp = Ramp::new(0.0f32, 1.0, 4);
    assert_eq!(float_ramp_value(&ramp), 0.0);
    assert!(ramp.tick());
    assert_eq!(float_ramp_value(&ramp), 0.25);
    assert!(ramp.tick());
    assert_eq!(float_ramp_value(&ramp), 0.5);
    assert!(ramp.tick());
    assert_eq!(float_ramp_value(&ramp), 0.75);
    assert!(!ramp.tick());
    assert_eq!(float_ramp_value(&ramp), 1.0);
}

#[test]
fn ended_ramp_keeps_answering_false() {
    let mut ramp = Ramp::new(0u8, 1u8, 1);
    assert!(!ramp.tick());
    assert!(!ramp.tick());
    assert!(!ramp.tick());
    assert_eq!(ramp.running_sample, 3);
}
