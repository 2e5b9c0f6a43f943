use bench_harness::sampler::{
    reading_is_positive, SampleBuffer, Sampler, SamplerState, ShutdownFlag, TickAction,
};

#[test]
fn positive_readings_are_those_above_zero() {
    let readings = [
        0.0f32,
        -0.0,
        1.0,
        -1.0,
        0.01,
        99.5,
        800.0,
        f32::MIN_POSITIVE,
        f32::MAX,
        f32::MIN,
        f32::INFINITY,
        f32::NEG_INFINITY,
        f32::NAN,
        -f32::NAN,
        f32::from_bits(1),
        f32::from_bits(0x7F80_0001),
        f32::from_bits(0x7FFF_FFFF),
        f32::from_bits(0x8000_0001),
    ];
    for r in readings {
        assert_eq!(reading_is_positive(r.to_bits()), r > 0.0, "at {:?}", r);
    }
}

#[test]
fn flag_starts_lowered_and_is_raised_once() {
    let mut flag = ShutdownFlag::new();
    assert!(!flag.is_raised());
    assert!(flag.raise());
    assert!(flag.is_raised());
    assert!(!flag.raise());
    assert!(flag.is_raised());
}

#[test]
fn buffer_drops_zero_readings() {
    let mut buffer = SampleBuffer::new();
    assert!(buffer.is_empty());
    assert!(!buffer.record(0.0f32.to_bits()));
    assert!(!buffer.record((-0.0f32).to_bits()));
    assert!(!buffer.record(f32::NAN.to_bits()));
    assert!(!buffer.record((-3.5f32).to_bits()));
    assert!(buffer.is_empty());
    assert!(buffer.record(12.5f32.to_bits()));
    assert!(buffer.record(100.0f32.to_bits()));
    assert!(!buffer.record(0.0f32.to_bits()));
    assert_eq!(buffer.len(), 2);
    let kept: Vec<f32> = buffer.readings().iter().map(|b| f32::from_bits(*b)).collect();
    assert_eq!(kept, vec![12.5, 100.0]);
    assert!(kept.iter().all(|r| *r != 0.0));
}

#[test]
fn sampler_goes_from_idle_to_sampling_to_stopped() {
    let mut sampler = Sampler::new();
    assert_eq!(sampler.state(), SamplerState::Idle);
    sampler.start();
    assert_eq!(sampler.state(), SamplerState::Sampling);
    assert_eq!(sampler.tick(false), TickAction::TakeSample);
    assert_eq!(sampler.state(), SamplerState::Sampling);
    assert_eq!(sampler.tick(true), TickAction::Exit);
    assert_eq!(sampler.state(), SamplerState::Stopped);
    sampler.start();
    assert_eq!(sampler.state(), SamplerState::Stopped);
    assert_eq!(sampler.tick(false), TickAction::Exit);
    assert_eq!(sampler.state(), SamplerState::Stopped);
}

#[test]
fn idle_sampler_takes_no_sample() {
    let mut sampler = Sampler::new();
    assert_eq!(sampler.tick(false), TickAction::Exit);
    assert_eq!(sampler.state(), SamplerState::Idle);
    assert!(!sampler.record(50.0f32.to_bits()));
    assert!(sampler.into_buffer().is_empty());
}

#[test]
fn sampler_keeps_positive_readings_until_the_flag_is_seen() {
    let mut flag = ShutdownFlag::new();
    let mut sampler = Sampler::new();
    sampler.start();
    let readings = [0.0f32, 42.0, 0.0, 87.5, 13.25, 99.0];
    let mut taken = 0usize;
    for (tick, reading) in readings.iter().enumerate() {
        if tick == 4 {
            flag.raise();
        }
        match sampler.tick(flag.is_raised()) {
            TickAction::TakeSample => {
                sampler.record(reading.to_bits());
                taken += 1;
            }
            TickAction::Exit => break,
        }
    }
    assert_eq!(taken, 4);
    assert_eq!(sampler.state(), SamplerState::Stopped);
    let buffer = sampler.into_buffer();
    let kept: Vec<f32> = buffer.readings().iter().map(|b| f32::from_bits(*b)).collect();
    assert_eq!(kept, vec![42.0, 87.5]);
    let mean = kept.iter().sum::<f32>() / kept.len() as f32;
    assert_eq!(mean, 64.75);
}

#[test]
fn flag_raised_before_the_first_tick_leaves_the_buffer_empty() {
    let mut flag = ShutdownFlag::new();
    flag.raise();
    let mut sampler = Sampler::new();
    sampler.start();
    assert_eq!(sampler.tick(flag.is_raised()), TickAction::Exit);
    assert_eq!(sampler.state(), SamplerState::Stopped);
    let buffer = sampler.into_buffer();
    assert!(buffer.is_empty());
    assert_eq!(buffer.len(), 0);
}

#[test]
fn stopped_sampler_keeps_nothing_more() {
    let mut sampler = Sampler::new();
    sampler.start();
    assert!(sampler.record(10.0f32.to_bits()));
    sampler.tick(true);
    assert!(!sampler.record(20.0f32.to_bits()));
    assert_eq!(sampler.into_buffer().readings(), &vec![10.0f32.to_bits()]);
}
