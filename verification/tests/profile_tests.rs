use taran::duration::HumanDuration;
use taran::scenario::{LoadProfile, LoadStep};
use taran::DurationNanos;

fn secs(n: u64) -> DurationNanos {
    DurationNanos::from_secs(n)
}

fn hsecs(n: u64) -> HumanDuration {
    HumanDuration(DurationNanos::from_secs(n))
}

#[test]
fn constant_profile_holds_then_stops() {
    let p = LoadProfile::Constant { users: 50, duration: hsecs(60), ramp_up: None };
    assert_eq!(p.virtual_users_at(secs(0)), 50);
    assert_eq!(p.virtual_users_at(secs(59)), 50);
    assert_eq!(p.virtual_users_at(secs(60)), 0);
    assert_eq!(p.virtual_users_at(secs(1000)), 0);
    assert_eq!(p.duration(), secs(60));
}

#[test]
fn constant_profile_ramps_up_monotonically() {
    let p = LoadProfile::Constant { users: 100, duration: hsecs(60), ramp_up: Some(hsecs(10)) };
    assert_eq!(p.virtual_users_at(secs(0)), 0);
    assert_eq!(p.virtual_users_at(secs(5)), 50);
    let mut last = 0;
    for t in 0..10 {
        let v = p.virtual_users_at(secs(t));
        assert!(v >= last);
        assert!(v <= 100);
        last = v;
    }
    assert_eq!(p.virtual_users_at(secs(10)), 100);
    assert_eq!(p.virtual_users_at(secs(60)), 0);
}

#[test]
fn ramp_profile_hits_both_ends() {
    let p = LoadProfile::Ramp { from: 10, to: 110, duration: hsecs(100) };
    assert_eq!(p.virtual_users_at(secs(0)), 10);
    assert_eq!(p.virtual_users_at(secs(50)), 60);
    assert_eq!(p.virtual_users_at(secs(100)), 110);
    assert_eq!(p.virtual_users_at(secs(500)), 110);
    let mut last = 0;
    for t in 0..=100 {
        let v = p.virtual_users_at(secs(t));
        assert!(v >= last);
        last = v;
    }
}

#[test]
fn ramp_profile_can_ramp_down() {
    let p = LoadProfile::Ramp { from: 100, to: 0, duration: hsecs(100) };
    assert_eq!(p.virtual_users_at(secs(0)), 100);
    assert_eq!(p.virtual_users_at(secs(50)), 50);
    assert_eq!(p.virtual_users_at(secs(100)), 0);
}

#[test]
fn stepped_profile_walks_its_levels() {
    let p = LoadProfile::Stepped {
        steps: vec![
            LoadStep { users: 10, duration: hsecs(10) },
            LoadStep { users: 30, duration: hsecs(10) },
            LoadStep { users: 20, duration: hsecs(10) },
        ],
    };
    assert_eq!(p.virtual_users_at(secs(0)), 10);
    assert_eq!(p.virtual_users_at(secs(9)), 10);
    assert_eq!(p.virtual_users_at(secs(10)), 30);
    assert_eq!(p.virtual_users_at(secs(25)), 20);
    assert_eq!(p.virtual_users_at(secs(30)), 0);
    assert_eq!(p.duration(), secs(30));
}

#[test]
fn spike_profile_spikes_at_the_start() {
    let p = LoadProfile::Spike {
        baseline: 10,
        peak: 200,
        spike_duration: hsecs(5),
        total_duration: hsecs(60),
    };
    assert_eq!(p.virtual_users_at(secs(0)), 200);
    assert_eq!(p.virtual_users_at(secs(4)), 200);
    assert_eq!(p.virtual_users_at(secs(5)), 10);
    assert_eq!(p.virtual_users_at(secs(59)), 10);
    assert_eq!(p.virtual_users_at(secs(60)), 0);
    assert_eq!(p.duration(), secs(60));
}
